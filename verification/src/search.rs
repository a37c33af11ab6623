//! The query engine: fuzzy-ranks editor sessions, file paths, extracted
//! symbols and shell history against the current query, with symbol-kind
//! modes, contiguous-match boosting, and directory-affinity tiers for the
//! history pool.
//!
//! The engine carries no state: every call re-derives everything from the
//! query text and the pools, so equal inputs give equal output.
//!
//! Contiguous-match boosting is a session-pool policy: symbol, file and
//! history matches keep their raw fuzzy scores.

use vstd::prelude::*;

verus! {

use crate::SearchModeModel;
use crate::files::{TypeDefinition, TypeDefinitionModel, TypeKind};
use crate::history::{cmds_view, DedupCommandModel, DeduplicatedCommand};
use crate::pane::{PaneMetadata, PaneMetadataModel};

broadcast use vstd::std_specs::vec::group_vec_axioms;

/// At most this many history results survive the merge.
pub const MAX_HISTORY_RESULTS: usize = 50;

/// At most this many files are shown for a fuzzy query.
pub const MAX_DISPLAYED_FILES: usize = 3;

/// What a search result points at.
#[derive(Debug)]
pub enum SearchItem {
    Pane(PaneMetadata),
    File(String),
    RustAsset(TypeDefinition),
    HistoryCommand(DeduplicatedCommand),
}

/// The mathematical model of a [`SearchItem`].
pub enum SearchItemModel {
    Pane(PaneMetadataModel),
    File(Seq<char>),
    RustAsset(TypeDefinitionModel),
    HistoryCommand(DedupCommandModel),
}

impl View for SearchItem {
    type V = SearchItemModel;

    open spec fn view(&self) -> SearchItemModel {
        match self {
            SearchItem::Pane(p) => SearchItemModel::Pane(p@),
            SearchItem::File(f) => SearchItemModel::File(f@),
            SearchItem::RustAsset(a) => SearchItemModel::RustAsset(a@),
            SearchItem::HistoryCommand(c) => SearchItemModel::HistoryCommand(c@),
        }
    }
}

impl Clone for SearchItem {
    /// Clones an item; the copy has the same model.
    fn clone(&self) -> (r: Self)
        ensures
            r@ == self@,
    {
        match self {
            SearchItem::Pane(p) => SearchItem::Pane(p.clone()),
            SearchItem::File(f) => SearchItem::File(f.clone()),
            SearchItem::RustAsset(a) => SearchItem::RustAsset(a.clone()),
            SearchItem::HistoryCommand(c) => SearchItem::HistoryCommand(c.clone()),
        }
    }
}

/// One ranked result: the item, its score, and the matched character
/// positions in the item's display text.
#[derive(Debug)]
pub struct SearchResult {
    pub item: SearchItem,
    pub score: i64,
    pub indices: Vec<usize>,
}

/// The mathematical model of a [`SearchResult`].
pub struct SearchResultModel {
    pub item: SearchItemModel,
    pub score: i64,
    pub indices: Seq<usize>,
}

impl View for SearchResult {
    type V = SearchResultModel;

    open spec fn view(&self) -> SearchResultModel {
        SearchResultModel { item: self.item@, score: self.score, indices: self.indices@ }
    }
}

impl Clone for SearchResult {
    /// Clones a result; the copy has the same model.
    fn clone(&self) -> (r: Self)
        ensures
            r@ == self@,
    {
        SearchResult { item: self.item.clone(), score: self.score, indices: self.indices.clone() }
    }
}

/// The views of a sequence of results.
pub open spec fn results_view(v: Seq<SearchResult>) -> Seq<SearchResultModel> {
    v.map_values(|r: SearchResult| r@)
}

/// The views of a sequence of file paths.
pub open spec fn files_view(v: Seq<String>) -> Seq<Seq<char>> {
    v.map_values(|f: String| f@)
}

/// The views of a sequence of definitions.
pub open spec fn assets_view(v: Seq<TypeDefinition>) -> Seq<TypeDefinitionModel> {
    v.map_values(|d: TypeDefinition| d@)
}

/// The views of the per-shell history lists.
pub open spec fn histories_view(v: Seq<(String, Vec<DeduplicatedCommand>)>) -> Seq<
    (Seq<char>, Seq<DedupCommandModel>),
> {
    v.map_values(|t: (String, Vec<DeduplicatedCommand>)| (t.0@, cmds_view(t.1@)))
}

/// The two ranked lists a search produces: panes, files and symbols in
/// one, history commands in the other (their tiered order is kept apart
/// so the merge cannot disturb it).
#[derive(Default)]
pub struct SearchResults {
    pub files_panes_results: Vec<SearchResult>,
    pub shell_commands_results: Vec<SearchResult>,
}

/// The mathematical model of a [`SearchResults`].
pub struct SearchResultsModel {
    pub files_panes_results: Seq<SearchResultModel>,
    pub shell_commands_results: Seq<SearchResultModel>,
}

impl View for SearchResults {
    type V = SearchResultsModel;

    open spec fn view(&self) -> SearchResultsModel {
        SearchResultsModel {
            files_panes_results: results_view(self.files_panes_results@),
            shell_commands_results: results_view(self.shell_commands_results@),
        }
    }
}

impl SearchResult {
    /// A session result.
    pub fn new_pane(pane: PaneMetadata, score: i64, indices: Vec<usize>) -> (r: Self)
        ensures
            r@ == (SearchResultModel {
                item: SearchItemModel::Pane(pane@),
                score,
                indices: indices@,
            }),
    {
        SearchResult { item: SearchItem::Pane(pane), score, indices }
    }

    /// A file result.
    pub fn new_file(file: String, score: i64, indices: Vec<usize>) -> (r: Self)
        ensures
            r@ == (SearchResultModel {
                item: SearchItemModel::File(file@),
                score,
                indices: indices@,
            }),
    {
        SearchResult { item: SearchItem::File(file), score, indices }
    }

    /// A symbol result.
    pub fn new_rust_asset(rust_asset: TypeDefinition, score: i64, indices: Vec<usize>) -> (r: Self)
        ensures
            r@ == (SearchResultModel {
                item: SearchItemModel::RustAsset(rust_asset@),
                score,
                indices: indices@,
            }),
    {
        SearchResult { item: SearchItem::RustAsset(rust_asset), score, indices }
    }

    /// A history result.
    pub fn new_history_command(command: DeduplicatedCommand, score: i64, indices: Vec<usize>) -> (r:
        Self)
        ensures
            r@ == (SearchResultModel {
                item: SearchItemModel::HistoryCommand(command@),
                score,
                indices: indices@,
            }),
    {
        SearchResult { item: SearchItem::HistoryCommand(command), score, indices }
    }

    /// The text a result is rendered (and was matched) as.
    pub open spec fn spec_display_text(m: SearchResultModel) -> Seq<char> {
        match m.item {
            SearchItemModel::Pane(p) => p.title,
            SearchItemModel::File(f) => f,
            SearchItemModel::RustAsset(a) => a.name + seq![' ', '('] + a.file_path + seq![')'],
            SearchItemModel::HistoryCommand(c) => c.command,
        }
    }

    /// The display text of this result: a session's title, a file's path,
    /// a symbol's name followed by its file in parentheses, or a history
    /// command's text.
    pub fn display_text(&self) -> (r: String)
        ensures
            r@ == Self::spec_display_text(self@),
    {
        match &self.item {
            SearchItem::Pane(pane) => pane.title.clone(),
            SearchItem::File(path) => path.clone(),
            SearchItem::RustAsset(rust_asset) => {
                let mut out = rust_asset.name.clone();
                crate::text::push_str(&mut out, " (");
                crate::text::push_str(&mut out, rust_asset.file_path.as_str());
                crate::text::push_char(&mut out, ')');
                proof {
                    reveal_strlit(" (");
                    assert(" ("@ =~= seq![' ', '(']);
                    assert(out@ =~= Self::spec_display_text(self@));
                }
                out
            },
            SearchItem::HistoryCommand(c) => c.command.clone(),
        }
    }

    /// Whether this result is a session.
    pub fn is_pane(&self) -> (r: bool)
        ensures
            r == (self@.item is Pane),
    {
        matches!(self.item, SearchItem::Pane(_))
    }

    /// Whether this result is a file.
    pub fn is_file(&self) -> (r: bool)
        ensures
            r == (self@.item is File),
    {
        matches!(self.item, SearchItem::File(_))
    }

    /// Whether this result is a symbol.
    pub fn is_rust_asset(&self) -> (r: bool)
        ensures
            r == (self@.item is RustAsset),
    {
        matches!(self.item, SearchItem::RustAsset(_))
    }

    /// Whether this result is a history command.
    pub fn is_history_command(&self) -> (r: bool)
        ensures
            r == (self@.item is HistoryCommand),
    {
        matches!(self.item, SearchItem::HistoryCommand(_))
    }
}

/// What the fuzzy matcher returns for a given text and pattern: the score
/// and the matched character positions, or nothing when the pattern is no
/// (case-smart) subsequence of the text.  The outcome depends on the two
/// character sequences alone.
pub uninterp spec fn fuzzy_match_of(text: Seq<char>, pattern: Seq<char>) -> Option<
    (i64, Seq<usize>),
>;

/// Relies on `SkimMatcherV2::fuzzy_indices` of the fuzzy-matcher crate
/// (with its default configuration): the skim-style fuzzy score and
/// matched positions of `pattern` against `text`, a deterministic
/// function of the two strings.  The positions come from an ascending
/// backtrack over the choice's characters: strictly increasing, each
/// below the text's character count.
#[verifier::external_body]
fn fuzzy_indices(text: &str, pattern: &str) -> (r: Option<(i64, Vec<usize>)>)
    ensures
        (r is Some) == (fuzzy_match_of(text@, pattern@) is Some),
        r is Some ==> r.unwrap().0 == fuzzy_match_of(text@, pattern@).unwrap().0 && r.unwrap().1@
            == fuzzy_match_of(text@, pattern@).unwrap().1,
        r matches Some(p) ==> (forall|k: int|
            1 <= k < p.1@.len() ==> p.1@[k - 1] < #[trigger] p.1@[k]),
        r matches Some(p) ==> (forall|k: int|
            0 <= k < p.1@.len() ==> #[trigger] p.1@[k] < text@.len()),
{
    let matcher = fuzzy_matcher::skim::SkimMatcherV2::default();
    fuzzy_matcher::FuzzyMatcher::fuzzy_indices(&matcher, text, pattern)
}

/// The matched positions form one unbroken run.
pub open spec fn is_contiguous(indices: Seq<usize>) -> bool {
    forall|i: int| 1 <= i < indices.len() ==> #[trigger] indices[i] == indices[i - 1] + 1
}

/// Whether the matched positions form one unbroken run; a match of at
/// most one position counts as contiguous.
pub fn is_contiguous_match(indices: &Vec<usize>) -> (r: bool)
    ensures
        r == is_contiguous(indices@),
{
    let mut i: usize = 1;
    if indices.len() <= 1 {
        return true;
    }
    while i < indices.len()
        invariant
            1 <= i,
            forall|k: int| 1 <= k < i ==> #[trigger] indices@[k] == indices@[k - 1] + 1,
        decreases indices.len() - i,
    {
        if !(indices[i - 1] < usize::MAX && indices[i] == indices[i - 1] + 1) {
            proof {
                assert(indices@[i as int] != indices@[i - 1] + 1);
                assert(!is_contiguous(indices@));
            }
            return false;
        }
        i = i + 1;
    }
    true
}

/// A contiguous match's score, boosted tenfold, saturating at the ends of
/// the score range.
pub open spec fn boost_score_spec(score: i64) -> i64 {
    if 10 * score > i64::MAX {
        i64::MAX
    } else if 10 * score < i64::MIN {
        i64::MIN
    } else {
        (10 * score) as i64
    }
}

/// Boosts a contiguous match's score tenfold, saturating.
pub fn boost_score(score: i64) -> (r: i64)
    ensures
        r == boost_score_spec(score),
{
    if score > i64::MAX / 10 {
        i64::MAX
    } else if score < i64::MIN / 10 {
        i64::MIN
    } else {
        score * 10
    }
}

/// The score a session match gets: boosted when its matched positions
/// are contiguous, the raw fuzzy score otherwise.
pub open spec fn pane_score(score: i64, indices: Seq<usize>) -> i64 {
    if is_contiguous(indices) {
        boost_score_spec(score)
    } else {
        score
    }
}

/// The text an item was fuzzy-matched against: a session's title, a
/// file's path, a symbol's name, a history command's text.
pub open spec fn match_text(i: SearchItemModel) -> Seq<char> {
    match i {
        SearchItemModel::Pane(p) => p.title,
        SearchItemModel::File(f) => f,
        SearchItemModel::RustAsset(a) => a.name,
        SearchItemModel::HistoryCommand(c) => c.command,
    }
}

/// Well-formed match positions: strictly increasing character offsets
/// into the item's matched text.
pub open spec fn indices_wf(m: SearchResultModel) -> bool {
    &&& (forall|k: int| 1 <= k < m.indices.len() ==> m.indices[k - 1] < #[trigger] m.indices[k])
    &&& (forall|k: int|
        0 <= k < m.indices.len() ==> #[trigger] m.indices[k] < match_text(m.item).len())
}

/// Well-formed positions of a history match triple: strictly increasing
/// character offsets into the command text.
pub open spec fn trip_wf(t: (DedupCommandModel, i64, Seq<usize>)) -> bool {
    &&& (forall|k: int| 1 <= k < t.2.len() ==> t.2[k - 1] < #[trigger] t.2[k])
    &&& (forall|k: int| 0 <= k < t.2.len() ==> #[trigger] t.2[k] < t.0.command.len())
}

/// Stable insertion into a run sorted by descending score: the new
/// result goes after every result whose score is at least its own.
pub open spec fn insert_by_score(s: Seq<SearchResultModel>, x: SearchResultModel) -> Seq<
    SearchResultModel,
>
    decreases s.len(),
{
    if s.len() == 0 {
        seq![x]
    } else if s[0].score >= x.score {
        seq![s[0]] + insert_by_score(s.drop_first(), x)
    } else {
        seq![x] + s
    }
}

/// Stable sort of results by descending score.
pub open spec fn sort_by_score(s: Seq<SearchResultModel>) -> Seq<SearchResultModel>
    decreases s.len(),
{
    if s.len() == 0 {
        Seq::empty()
    } else {
        insert_by_score(sort_by_score(s.drop_last()), s.last())
    }
}

/// Inserts a result into a descending-score run at its sorted position,
/// after any result of equal score.
fn insert_result_sorted(out: &mut Vec<SearchResult>, x: SearchResult)
    ensures
        results_view(final(out)@) == insert_by_score(results_view(old(out)@), x@),
{
    let ghost s0 = results_view(old(out)@);
    let mut idx: usize = 0;
    loop
        invariant
            idx <= out@.len(),
            out@ == old(out)@,
            s0 == results_view(out@),
            forall|k: int| 0 <= k < idx ==> (#[trigger] results_view(out@)[k]).score >= x@.score,
        ensures
            idx <= out@.len(),
            out@ == old(out)@,
            forall|k: int| 0 <= k < idx ==> (#[trigger] results_view(out@)[k]).score >= x@.score,
            idx < out@.len() ==> results_view(out@)[idx as int].score < x@.score,
        decreases out@.len() - idx,
    {
        if idx >= out.len() {
            break;
        }
        if !(out[idx].score >= x.score) {
            proof {
                assert(results_view(out@)[idx as int].score == out@[idx as int]@.score);
            }
            break;
        }
        idx = idx + 1;
    }
    proof {
        lemma_insert_score_at(results_view(out@), x@, idx as int);
    }
    out.insert(idx, x);
    proof {
        assert(results_view(out@) =~= s0.insert(idx as int, x@));
    }
}

/// Inserting after `idx` leading not-smaller scores is what
/// `insert_by_score` computes.
proof fn lemma_insert_score_at(s: Seq<SearchResultModel>, x: SearchResultModel, idx: int)
    requires
        0 <= idx <= s.len(),
        forall|k: int| 0 <= k < idx ==> (#[trigger] s[k]).score >= x.score,
        idx < s.len() ==> s[idx].score < x.score,
    ensures
        insert_by_score(s, x) == s.insert(idx, x),
    decreases s.len(),
{
    if s.len() == 0 {
        assert(insert_by_score(s, x) =~= s.insert(0, x));
    } else if idx == 0 {
        assert(insert_by_score(s, x) =~= s.insert(0, x));
    } else {
        lemma_insert_score_at(s.drop_first(), x, idx - 1);
        assert(seq![s[0]] + s.drop_first().insert(idx - 1, x) =~= s.insert(idx, x));
    }
}

/// Sorts results by descending score; ties keep their arrival order.
fn sort_results(input: Vec<SearchResult>) -> (r: Vec<SearchResult>)
    ensures
        results_view(r@) == sort_by_score(results_view(input@)),
{
    let mut sorted: Vec<SearchResult> = Vec::new();
    let mut k: usize = 0;
    proof {
        assert(results_view(input@).take(0) =~= Seq::<SearchResultModel>::empty());
        assert(sort_by_score(results_view(input@).take(0)) =~= Seq::<SearchResultModel>::empty());
        assert(results_view(sorted@) =~= Seq::<SearchResultModel>::empty());
    }
    while k < input.len()
        invariant
            k <= input@.len(),
            results_view(sorted@) == sort_by_score(results_view(input@).take(k as int)),
        decreases input@.len() - k,
    {
        let x = input[k].clone();
        proof {
            assert(results_view(input@).take(k + 1 as int).drop_last() =~= results_view(
                input@,
            ).take(k as int));
            assert(results_view(input@).take(k + 1 as int).last() == input@[k as int]@);
        }
        insert_result_sorted(&mut sorted, x);
        k = k + 1;
    }
    proof {
        assert(results_view(input@).take(input@.len() as int) =~= results_view(input@));
    }
    sorted
}

/// A descending-score run: each result scores at least as much as any
/// later one.
pub open spec fn sorted_desc(s: Seq<SearchResultModel>) -> bool {
    forall|i: int, j: int| 0 <= i <= j < s.len() ==> (#[trigger] s[i]).score >= (#[trigger] s[j]).score
}

/// Insertion keeps a descending run descending.
proof fn lemma_insert_by_score_sorted(s: Seq<SearchResultModel>, x: SearchResultModel)
    requires
        sorted_desc(s),
    ensures
        sorted_desc(insert_by_score(s, x)),
        insert_by_score(s, x).len() == s.len() + 1,
    decreases s.len(),
{
    let out = insert_by_score(s, x);
    if s.len() == 0 {
    } else if s[0].score >= x.score {
        assert(sorted_desc(s.drop_first())) by {
            assert(forall|i: int, j: int|
                0 <= i <= j < s.drop_first().len() ==> (#[trigger] s.drop_first()[i]).score >= (
                #[trigger] s.drop_first()[j]).score);
        }
        lemma_insert_by_score_sorted(s.drop_first(), x);
        let tail = insert_by_score(s.drop_first(), x);
        assert forall|i: int, j: int| 0 <= i <= j < out.len() implies (#[trigger] out[i]).score
            >= (#[trigger] out[j]).score by {
            if i == 0 && j > 0 {
                assert(out[j] == tail[j - 1]);
                lemma_insert_member(s.drop_first(), x, j - 1);
                if tail[j - 1] == x {
                    assert(s[0].score >= x.score);
                } else {
                    let m = choose|m: int|
                        0 <= m < s.drop_first().len() && #[trigger] s.drop_first()[m] == tail[j
                            - 1];
                    assert(s[m + 1].score <= s[0].score);
                }
            }
        }
    } else {
    }
}

/// Every element of an insertion's output is the inserted element or an
/// element of the input.
proof fn lemma_insert_member(s: Seq<SearchResultModel>, x: SearchResultModel, j: int)
    requires
        0 <= j < insert_by_score(s, x).len(),
    ensures
        insert_by_score(s, x)[j] == x || exists|m: int|
            0 <= m < s.len() && s[m] == insert_by_score(s, x)[j],
    decreases s.len(),
{
    let out = insert_by_score(s, x);
    if s.len() == 0 {
    } else if s[0].score >= x.score {
        if j == 0 {
            assert(s[0] == out[0]);
        } else {
            lemma_insert_member(s.drop_first(), x, j - 1);
            assert(out[j] == insert_by_score(s.drop_first(), x)[j - 1]);
            if insert_by_score(s.drop_first(), x)[j - 1] != x {
                let m = choose|m: int|
                    0 <= m < s.drop_first().len() && s.drop_first()[m] == out[j];
                assert(s[m + 1] == out[j]);
            }
        }
    } else {
    }
}

/// A sorted run of results is a descending run.
pub proof fn lemma_sort_by_score_sorted(s: Seq<SearchResultModel>)
    ensures
        sorted_desc(sort_by_score(s)),
        sort_by_score(s).len() == s.len(),
    decreases s.len(),
{
    if s.len() > 0 {
        lemma_sort_by_score_sorted(s.drop_last());
        lemma_insert_by_score_sorted(sort_by_score(s.drop_last()), s.last());
    }
}

/// Every element of the sorted run is an element of the input.
pub proof fn lemma_sort_member(s: Seq<SearchResultModel>, j: int)
    requires
        0 <= j < sort_by_score(s).len(),
    ensures
        exists|m: int| 0 <= m < s.len() && #[trigger] s[m] == sort_by_score(s)[j],
    decreases s.len(),
{
    if s.len() > 0 {
        lemma_sort_by_score_sorted(s.drop_last());
        lemma_insert_member(sort_by_score(s.drop_last()), s.last(), j);
        let out = sort_by_score(s);
        if out[j] == s.last() {
            assert(s[s.len() - 1] == out[j]);
        } else {
            let m = choose|m: int|
                0 <= m < sort_by_score(s.drop_last()).len() && #[trigger] sort_by_score(
                    s.drop_last(),
                )[m] == out[j];
            lemma_sort_member(s.drop_last(), m);
            let w = choose|w: int|
                0 <= w < s.drop_last().len() && #[trigger] s.drop_last()[w] == sort_by_score(
                    s.drop_last(),
                )[m];
            assert(s[w] == out[j]);
        }
    }
}

/// Sorting by score keeps every result's match positions well-formed:
/// the sorted run holds only elements of the input.
proof fn lemma_sort_preserves_indices_wf(s: Seq<SearchResultModel>)
    requires
        forall|i: int| 0 <= i < s.len() ==> indices_wf(#[trigger] s[i]),
    ensures
        forall|j: int|
            0 <= j < sort_by_score(s).len() ==> indices_wf(#[trigger] sort_by_score(s)[j]),
{
    lemma_sort_by_score_sorted(s);
    assert forall|j: int| 0 <= j < sort_by_score(s).len() implies indices_wf(
        #[trigger] sort_by_score(s)[j],
    ) by {
        lemma_sort_member(s, j);
        let m = choose|m: int| 0 <= m < s.len() && #[trigger] s[m] == sort_by_score(s)[j];
    }
}

/// The session matches of a query, in pool order: each session whose
/// title the matcher accepts, scored with the contiguous-run boost.
pub open spec fn spec_pane_matches(panes: Seq<PaneMetadataModel>, q: Seq<char>) -> Seq<
    SearchResultModel,
>
    decreases panes.len(),
{
    if panes.len() == 0 {
        Seq::empty()
    } else {
        let rest = spec_pane_matches(panes.drop_first(), q);
        match fuzzy_match_of(panes[0].title, q) {
            Some(m) => seq![
                SearchResultModel {
                    item: SearchItemModel::Pane(panes[0]),
                    score: pane_score(m.0, m.1),
                    indices: m.1,
                },
            ] + rest,
            None => rest,
        }
    }
}

/// The symbol matches of a query, in pool order, unboosted.
pub open spec fn spec_asset_matches(assets: Seq<TypeDefinitionModel>, q: Seq<char>) -> Seq<
    SearchResultModel,
>
    decreases assets.len(),
{
    if assets.len() == 0 {
        Seq::empty()
    } else {
        let rest = spec_asset_matches(assets.drop_first(), q);
        match fuzzy_match_of(assets[0].name, q) {
            Some(m) => seq![
                SearchResultModel {
                    item: SearchItemModel::RustAsset(assets[0]),
                    score: m.0,
                    indices: m.1,
                },
            ] + rest,
            None => rest,
        }
    }
}

/// The file matches of a query, in pool order, matched by path text.
pub open spec fn spec_file_matches(files: Seq<Seq<char>>, q: Seq<char>) -> Seq<SearchResultModel>
    decreases files.len(),
{
    if files.len() == 0 {
        Seq::empty()
    } else {
        let rest = spec_file_matches(files.drop_first(), q);
        match fuzzy_match_of(files[0], q) {
            Some(m) => seq![
                SearchResultModel { item: SearchItemModel::File(files[0]), score: m.0, indices: m.1 },
            ] + rest,
            None => rest,
        }
    }
}

/// The browse-all view of an empty query: every session at the top tier,
/// every symbol at the middle tier, every file at the bottom tier, with
/// no matched positions.
pub open spec fn spec_browse_all(
    panes: Seq<PaneMetadataModel>,
    assets: Seq<TypeDefinitionModel>,
    files: Seq<Seq<char>>,
) -> Seq<SearchResultModel> {
    panes.map_values(
        |p: PaneMetadataModel|
            SearchResultModel { item: SearchItemModel::Pane(p), score: 1000, indices: Seq::empty() },
    ) + assets.map_values(
        |a: TypeDefinitionModel|
            SearchResultModel {
                item: SearchItemModel::RustAsset(a),
                score: 500,
                indices: Seq::empty(),
            },
    ) + files.map_values(
        |f: Seq<char>|
            SearchResultModel { item: SearchItemModel::File(f), score: 100, indices: Seq::empty() },
    )
}

/// A browse-all result carries no match positions, so its positions
/// are trivially well-formed.
proof fn lemma_browse_all_indices_wf(
    panes: Seq<PaneMetadataModel>,
    assets: Seq<TypeDefinitionModel>,
    files: Seq<Seq<char>>,
    j: int,
)
    requires
        0 <= j < spec_browse_all(panes, assets, files).len(),
    ensures
        indices_wf(spec_browse_all(panes, assets, files)[j]),
{
    let out = spec_browse_all(panes, assets, files);
    if j < panes.len() {
        assert(out[j].indices.len() == 0);
    } else if j < panes.len() + assets.len() {
        assert(out[j].indices.len() == 0);
    } else {
        assert(out[j].indices.len() == 0);
    }
}

/// The file matches that enter the merge: truncated to the best
/// [`MAX_DISPLAYED_FILES`] by raw score before merging, so low-signal
/// path matches cannot flood the ranking.
pub open spec fn spec_capped_file_matches(files: Seq<Seq<char>>, q: Seq<char>) -> Seq<
    SearchResultModel,
> {
    let sorted = sort_by_score(spec_file_matches(files, q));
    if sorted.len() > MAX_DISPLAYED_FILES {
        sorted.take(MAX_DISPLAYED_FILES as int)
    } else {
        sorted
    }
}

/// The default ranking: all three pools matched — the file pool already
/// truncated to its best three — merged, and re-sorted by descending
/// score.
pub open spec fn spec_default_results(
    q: Seq<char>,
    panes: Seq<PaneMetadataModel>,
    files: Seq<Seq<char>>,
    assets: Seq<TypeDefinitionModel>,
) -> Seq<SearchResultModel> {
    sort_by_score(
        spec_pane_matches(panes, q) + spec_asset_matches(assets, q) + spec_capped_file_matches(
            files,
            q,
        ),
    )
}

/// The effective match term of a mode: the query remainder it carries.
pub open spec fn mode_term(m: SearchModeModel) -> Seq<char> {
    match m {
        SearchModeModel::Struct(t) => t,
        SearchModeModel::Enum(t) => t,
        SearchModeModel::Function(t) => t,
    }
}

/// Whether a symbol kind takes part in a mode: the function mode covers
/// plain and public functions alike.
pub open spec fn kind_matches(m: SearchModeModel, k: TypeKind) -> bool {
    match m {
        SearchModeModel::Struct(_) => k is Struct,
        SearchModeModel::Enum(_) => k is Enum,
        SearchModeModel::Function(_) => k is Function || k is PubFunction,
    }
}

/// The symbol matches of a mode search, in pool order: only symbols of
/// the mode's kind take part; with an empty remainder every such symbol
/// is returned at a flat score, else each is fuzzy-matched by name.
pub open spec fn spec_mode_matches(assets: Seq<TypeDefinitionModel>, m: SearchModeModel) -> Seq<
    SearchResultModel,
>
    decreases assets.len(),
{
    if assets.len() == 0 {
        Seq::empty()
    } else {
        let rest = spec_mode_matches(assets.drop_first(), m);
        let a = assets[0];
        if kind_matches(m, a.type_kind) {
            if mode_term(m).len() == 0 {
                seq![
                    SearchResultModel {
                        item: SearchItemModel::RustAsset(a),
                        score: 1000,
                        indices: Seq::empty(),
                    },
                ] + rest
            } else {
                match fuzzy_match_of(a.name, mode_term(m)) {
                    Some(mm) => seq![
                        SearchResultModel {
                            item: SearchItemModel::RustAsset(a),
                            score: mm.0,
                            indices: mm.1,
                        },
                    ] + rest,
                    None => rest,
                }
            }
        } else {
            rest
        }
    }
}

/// The ranking of a symbol-kind search.
pub open spec fn spec_mode_results(assets: Seq<TypeDefinitionModel>, m: SearchModeModel) -> Seq<
    SearchResultModel,
> {
    sort_by_score(spec_mode_matches(assets, m))
}

/// All shells' deduplicated commands, one list, in map order.
pub open spec fn spec_flatten(h: Seq<(Seq<char>, Seq<DedupCommandModel>)>) -> Seq<
    DedupCommandModel,
>
    decreases h.len(),
{
    if h.len() == 0 {
        Seq::empty()
    } else {
        h[0].1 + spec_flatten(h.drop_first())
    }
}

/// The history matches of a query, in pool order: the command, its fuzzy
/// score, and the matched positions.
pub open spec fn spec_hist_matches(cmds: Seq<DedupCommandModel>, q: Seq<char>) -> Seq<
    (DedupCommandModel, i64, Seq<usize>),
>
    decreases cmds.len(),
{
    if cmds.len() == 0 {
        Seq::empty()
    } else {
        let rest = spec_hist_matches(cmds.drop_first(), q);
        match fuzzy_match_of(cmds[0].command, q) {
            Some(m) => seq![(cmds[0], m.0, m.1)] + rest,
            None => rest,
        }
    }
}

/// The command ran in the given working directory.
pub open spec fn in_cwd(c: DedupCommandModel, cwd: Seq<char>) -> bool {
    c.folders.contains(cwd)
}

/// The first timestamp is strictly more recent; a command with a
/// timestamp always outranks one without.
pub open spec fn ts_after(a: Option<u64>, b: Option<u64>) -> bool {
    match (a, b) {
        (Some(x), Some(y)) => x > y,
        (Some(_), None) => true,
        _ => false,
    }
}

/// Within one tier, a match ranks strictly ahead of another: a higher
/// score, or an equal score and a more recent timestamp.
pub open spec fn hist_precedes(
    a: (DedupCommandModel, i64, Seq<usize>),
    b: (DedupCommandModel, i64, Seq<usize>),
) -> bool {
    a.1 > b.1 || (a.1 == b.1 && ts_after(a.0.latest_timestamp, b.0.latest_timestamp))
}

/// Stable insertion into a run ordered by `hist_precedes`.
pub open spec fn insert_by_rank(
    s: Seq<(DedupCommandModel, i64, Seq<usize>)>,
    x: (DedupCommandModel, i64, Seq<usize>),
) -> Seq<(DedupCommandModel, i64, Seq<usize>)>
    decreases s.len(),
{
    if s.len() == 0 {
        seq![x]
    } else if hist_precedes(x, s[0]) {
        seq![x] + s
    } else {
        seq![s[0]] + insert_by_rank(s.drop_first(), x)
    }
}

/// Stable sort of history matches by score, then recency.
pub open spec fn sort_by_rank(s: Seq<(DedupCommandModel, i64, Seq<usize>)>) -> Seq<
    (DedupCommandModel, i64, Seq<usize>),
>
    decreases s.len(),
{
    if s.len() == 0 {
        Seq::empty()
    } else {
        insert_by_rank(sort_by_rank(s.drop_last()), s.last())
    }
}

/// A history match as a result.
pub open spec fn hist_result(t: (DedupCommandModel, i64, Seq<usize>)) -> SearchResultModel {
    SearchResultModel { item: SearchItemModel::HistoryCommand(t.0), score: t.1, indices: t.2 }
}

/// The ranked history list: all shells' commands matched against the
/// query, split into the directory-affinity tier (commands that ran in
/// the current working directory) and the rest, each tier sorted by
/// score then recency, the affinity tier emitted first, and the whole
/// truncated to [`MAX_HISTORY_RESULTS`].
pub open spec fn spec_history_results(
    h: Seq<(Seq<char>, Seq<DedupCommandModel>)>,
    q: Seq<char>,
    cwd: Seq<char>,
) -> Seq<SearchResultModel> {
    let all = spec_hist_matches(spec_flatten(h), q);
    let tier1 = all.filter(|t: (DedupCommandModel, i64, Seq<usize>)| in_cwd(t.0, cwd));
    let tier2 = all.filter(|t: (DedupCommandModel, i64, Seq<usize>)| !in_cwd(t.0, cwd));
    let merged = sort_by_rank(tier1) + sort_by_rank(tier2);
    let capped = if merged.len() > MAX_HISTORY_RESULTS {
        merged.take(MAX_HISTORY_RESULTS as int)
    } else {
        merged
    };
    capped.map_values(|t: (DedupCommandModel, i64, Seq<usize>)| hist_result(t))
}

/// What a search returns, as a function of the query and the pools
/// alone.  An empty query browses all pools; a recognised symbol-kind
/// prefix restricts the search to symbols of that kind; anything else
/// fuzzy-matches every pool, with the history pool ranked in its own
/// two-tier list.
pub open spec fn spec_search(
    q: Seq<char>,
    panes: Seq<PaneMetadataModel>,
    files: Seq<Seq<char>>,
    assets: Seq<TypeDefinitionModel>,
    hist: Seq<(Seq<char>, Seq<DedupCommandModel>)>,
    cwd: Seq<char>,
) -> SearchResultsModel {
    if q.len() == 0 {
        SearchResultsModel {
            files_panes_results: spec_browse_all(panes, assets, files),
            shell_commands_results: Seq::empty(),
        }
    } else {
        match crate::spec_parse_mode(q) {
            Some(m) => SearchResultsModel {
                files_panes_results: spec_mode_results(assets, m),
                shell_commands_results: Seq::empty(),
            },
            None => SearchResultsModel {
                files_panes_results: spec_default_results(q, panes, files, assets),
                shell_commands_results: spec_history_results(hist, q, cwd),
            },
        }
    }
}

/// The views of a sequence of history match triples.
pub open spec fn triples_view(v: Seq<(DeduplicatedCommand, i64, Vec<usize>)>) -> Seq<
    (DedupCommandModel, i64, Seq<usize>),
> {
    v.map_values(|t: (DeduplicatedCommand, i64, Vec<usize>)| (t.0@, t.1, t.2@))
}

/// Collects the session matches of a query.
fn pane_matches(panes: &Vec<PaneMetadata>, q: &str) -> (r: Vec<SearchResult>)
    ensures
        forall|j: int| 0 <= j < results_view(r@).len() ==> indices_wf(
            #[trigger] results_view(r@)[j],
        ),
        results_view(r@) == spec_pane_matches(crate::pane::panes_view(panes@), q@),
{
    let ghost all = crate::pane::panes_view(panes@);
    let mut out: Vec<SearchResult> = Vec::new();
    let mut i: usize = 0;
    proof {
        assert(all.skip(0) =~= all);
        assert(results_view(out@) + spec_pane_matches(all.skip(0), q@) =~= spec_pane_matches(
            all,
            q@,
        ));
    }
    while i < panes.len()
        invariant
            i <= panes@.len(),
            all == crate::pane::panes_view(panes@),
            results_view(out@) + spec_pane_matches(all.skip(i as int), q@) == spec_pane_matches(
                all,
                q@,
            ),
            forall|j: int| 0 <= j < results_view(out@).len() ==> indices_wf(
                #[trigger] results_view(out@)[j],
            ),
        decreases panes@.len() - i,
    {
        let ghost rest = all.skip(i as int);
        proof {
            assert(rest[0] == panes@[i as int]@);
            assert(rest.drop_first() =~= all.skip(i + 1));
        }
        let pane = &panes[i];
        match fuzzy_indices(pane.title.as_str(), q) {
            Some((score, indices)) => {
                let boosted = if is_contiguous_match(&indices) {
                    boost_score(score)
                } else {
                    score
                };
                let ghost oprev = results_view(out@);
                let res = SearchResult::new_pane(pane.clone(), boosted, indices);
                proof {
                    let m = fuzzy_match_of(rest[0].title, q@).unwrap();
                    assert(res@.score == pane_score(m.0, m.1));
                    assert(spec_pane_matches(rest, q@) == seq![res@] + spec_pane_matches(
                        rest.drop_first(),
                        q@,
                    ));
                }
                out.push(res);
                proof {
                    assert(results_view(out@) =~= oprev + seq![res@]);
                    assert((oprev + seq![res@]) + spec_pane_matches(rest.drop_first(), q@)
                        =~= oprev + (seq![res@] + spec_pane_matches(rest.drop_first(), q@)));
                    assert(indices_wf(res@));
                    assert forall|j: int| 0 <= j < results_view(out@).len() implies indices_wf(
                        #[trigger] results_view(out@)[j],
                    ) by {
                        if j < oprev.len() {
                            assert(results_view(out@)[j] == oprev[j]);
                        } else {
                            assert(results_view(out@)[j] == res@);
                        }
                    }
                }
            },
            None => {
                proof {
                    assert(spec_pane_matches(rest, q@) == spec_pane_matches(
                        rest.drop_first(),
                        q@,
                    ));
                }
            },
        }
        i = i + 1;
    }
    proof {
        assert(all.skip(panes@.len() as int) =~= Seq::<PaneMetadataModel>::empty());
        assert(spec_pane_matches(all.skip(panes@.len() as int), q@)
            =~= Seq::<SearchResultModel>::empty());
        assert(results_view(out@) + Seq::<SearchResultModel>::empty() =~= results_view(out@));
    }
    out
}

/// Collects the symbol matches of a query.
fn asset_matches(assets: &Vec<TypeDefinition>, q: &str) -> (r: Vec<SearchResult>)
    ensures
        forall|j: int| 0 <= j < results_view(r@).len() ==> indices_wf(
            #[trigger] results_view(r@)[j],
        ),
        results_view(r@) == spec_asset_matches(assets_view(assets@), q@),
{
    let ghost all = assets_view(assets@);
    let mut out: Vec<SearchResult> = Vec::new();
    let mut i: usize = 0;
    proof {
        assert(all.skip(0) =~= all);
        assert(results_view(out@) + spec_asset_matches(all.skip(0), q@) =~= spec_asset_matches(
            all,
            q@,
        ));
    }
    while i < assets.len()
        invariant
            i <= assets@.len(),
            all == assets_view(assets@),
            results_view(out@) + spec_asset_matches(all.skip(i as int), q@) == spec_asset_matches(
                all,
                q@,
            ),
            forall|j: int| 0 <= j < results_view(out@).len() ==> indices_wf(
                #[trigger] results_view(out@)[j],
            ),
        decreases assets@.len() - i,
    {
        let ghost rest = all.skip(i as int);
        proof {
            assert(rest[0] == assets@[i as int]@);
            assert(rest.drop_first() =~= all.skip(i + 1));
        }
        let asset = &assets[i];
        match fuzzy_indices(asset.name.as_str(), q) {
            Some((score, indices)) => {
                let ghost oprev = results_view(out@);
                let res = SearchResult::new_rust_asset(asset.clone(), score, indices);
                proof {
                    assert(spec_asset_matches(rest, q@) == seq![res@] + spec_asset_matches(
                        rest.drop_first(),
                        q@,
                    ));
                }
                out.push(res);
                proof {
                    assert(results_view(out@) =~= oprev + seq![res@]);
                    assert((oprev + seq![res@]) + spec_asset_matches(rest.drop_first(), q@)
                        =~= oprev + (seq![res@] + spec_asset_matches(rest.drop_first(), q@)));
                    assert(indices_wf(res@));
                    assert forall|j: int| 0 <= j < results_view(out@).len() implies indices_wf(
                        #[trigger] results_view(out@)[j],
                    ) by {
                        if j < oprev.len() {
                            assert(results_view(out@)[j] == oprev[j]);
                        } else {
                            assert(results_view(out@)[j] == res@);
                        }
                    }
                }
            },
            None => {
                proof {
                    assert(spec_asset_matches(rest, q@) == spec_asset_matches(
                        rest.drop_first(),
                        q@,
                    ));
                }
            },
        }
        i = i + 1;
    }
    proof {
        assert(all.skip(assets@.len() as int) =~= Seq::<TypeDefinitionModel>::empty());
        assert(spec_asset_matches(all.skip(assets@.len() as int), q@)
            =~= Seq::<SearchResultModel>::empty());
        assert(results_view(out@) + Seq::<SearchResultModel>::empty() =~= results_view(out@));
    }
    out
}

/// Collects the file matches of a query.
fn file_matches(files: &Vec<String>, q: &str) -> (r: Vec<SearchResult>)
    ensures
        forall|j: int| 0 <= j < results_view(r@).len() ==> indices_wf(
            #[trigger] results_view(r@)[j],
        ),
        results_view(r@) == spec_file_matches(files_view(files@), q@),
{
    let ghost all = files_view(files@);
    let mut out: Vec<SearchResult> = Vec::new();
    let mut i: usize = 0;
    proof {
        assert(all.skip(0) =~= all);
        assert(results_view(out@) + spec_file_matches(all.skip(0), q@) =~= spec_file_matches(
            all,
            q@,
        ));
    }
    while i < files.len()
        invariant
            i <= files@.len(),
            all == files_view(files@),
            results_view(out@) + spec_file_matches(all.skip(i as int), q@) == spec_file_matches(
                all,
                q@,
            ),
            forall|j: int| 0 <= j < results_view(out@).len() ==> indices_wf(
                #[trigger] results_view(out@)[j],
            ),
        decreases files@.len() - i,
    {
        let ghost rest = all.skip(i as int);
        proof {
            assert(rest[0] == files@[i as int]@);
            assert(rest.drop_first() =~= all.skip(i + 1));
        }
        let file = &files[i];
        match fuzzy_indices(file.as_str(), q) {
            Some((score, indices)) => {
                let ghost oprev = results_view(out@);
                let res = SearchResult::new_file(file.clone(), score, indices);
                proof {
                    assert(spec_file_matches(rest, q@) == seq![res@] + spec_file_matches(
                        rest.drop_first(),
                        q@,
                    ));
                }
                out.push(res);
                proof {
                    assert(results_view(out@) =~= oprev + seq![res@]);
                    assert((oprev + seq![res@]) + spec_file_matches(rest.drop_first(), q@)
                        =~= oprev + (seq![res@] + spec_file_matches(rest.drop_first(), q@)));
                    assert(indices_wf(res@));
                    assert forall|j: int| 0 <= j < results_view(out@).len() implies indices_wf(
                        #[trigger] results_view(out@)[j],
                    ) by {
                        if j < oprev.len() {
                            assert(results_view(out@)[j] == oprev[j]);
                        } else {
                            assert(results_view(out@)[j] == res@);
                        }
                    }
                }
            },
            None => {
                proof {
                    assert(spec_file_matches(rest, q@) == spec_file_matches(
                        rest.drop_first(),
                        q@,
                    ));
                }
            },
        }
        i = i + 1;
    }
    proof {
        assert(all.skip(files@.len() as int) =~= Seq::<Seq<char>>::empty());
        assert(spec_file_matches(all.skip(files@.len() as int), q@)
            =~= Seq::<SearchResultModel>::empty());
        assert(results_view(out@) + Seq::<SearchResultModel>::empty() =~= results_view(out@));
    }
    out
}

/// Whether a symbol of this kind takes part in the given mode.
pub fn mode_kind_matches(mode: &crate::RustAssetSearchMode, k: TypeKind) -> (r: bool)
    ensures
        r == kind_matches(mode@, k),
{
    match mode {
        crate::RustAssetSearchMode::Struct(_) => matches!(k, TypeKind::Struct),
        crate::RustAssetSearchMode::Enum(_) => matches!(k, TypeKind::Enum),
        crate::RustAssetSearchMode::Function(_) => matches!(
            k,
            TypeKind::Function | TypeKind::PubFunction
        ),
    }
}

/// The effective match term a mode carries.
fn mode_term_str(mode: &crate::RustAssetSearchMode) -> (r: &String)
    ensures
        r@ == mode_term(mode@),
{
    match mode {
        crate::RustAssetSearchMode::Struct(t) => t,
        crate::RustAssetSearchMode::Enum(t) => t,
        crate::RustAssetSearchMode::Function(t) => t,
    }
}

/// Collects the symbol matches of a symbol-kind search.
fn mode_matches(assets: &Vec<TypeDefinition>, mode: &crate::RustAssetSearchMode) -> (r: Vec<
    SearchResult,
>)
    ensures
        forall|j: int| 0 <= j < results_view(r@).len() ==> indices_wf(
            #[trigger] results_view(r@)[j],
        ),
        results_view(r@) == spec_mode_matches(assets_view(assets@), mode@),
{
    let ghost all = assets_view(assets@);
    let term = mode_term_str(mode);
    let term_empty = term.as_str().is_empty();
    let mut out: Vec<SearchResult> = Vec::new();
    let mut i: usize = 0;
    proof {
        assert(all.skip(0) =~= all);
        assert(results_view(out@) + spec_mode_matches(all.skip(0), mode@) =~= spec_mode_matches(
            all,
            mode@,
        ));
    }
    while i < assets.len()
        invariant
            i <= assets@.len(),
            all == assets_view(assets@),
            term@ == mode_term(mode@),
            term_empty == (mode_term(mode@).len() == 0),
            results_view(out@) + spec_mode_matches(all.skip(i as int), mode@) == spec_mode_matches(
                all,
                mode@,
            ),
            forall|j: int| 0 <= j < results_view(out@).len() ==> indices_wf(
                #[trigger] results_view(out@)[j],
            ),
        decreases assets@.len() - i,
    {
        let ghost rest = all.skip(i as int);
        proof {
            assert(rest[0] == assets@[i as int]@);
            assert(rest.drop_first() =~= all.skip(i + 1));
        }
        let asset = &assets[i];
        if mode_kind_matches(mode, asset.type_kind) {
            if term_empty {
                let ghost oprev = results_view(out@);
                let res = SearchResult::new_rust_asset(asset.clone(), 1000, Vec::new());
                proof {
                    assert(res@.indices =~= Seq::<usize>::empty());
                    assert(spec_mode_matches(rest, mode@) == seq![res@] + spec_mode_matches(
                        rest.drop_first(),
                        mode@,
                    ));
                }
                out.push(res);
                proof {
                    assert(results_view(out@) =~= oprev + seq![res@]);
                    assert((oprev + seq![res@]) + spec_mode_matches(rest.drop_first(), mode@)
                        =~= oprev + (seq![res@] + spec_mode_matches(rest.drop_first(), mode@)));
                    assert(indices_wf(res@));
                    assert forall|j: int| 0 <= j < results_view(out@).len() implies indices_wf(
                        #[trigger] results_view(out@)[j],
                    ) by {
                        if j < oprev.len() {
                            assert(results_view(out@)[j] == oprev[j]);
                        } else {
                            assert(results_view(out@)[j] == res@);
                        }
                    }
                }
            } else {
                match fuzzy_indices(asset.name.as_str(), term.as_str()) {
                    Some((score, indices)) => {
                        let ghost oprev = results_view(out@);
                        let res = SearchResult::new_rust_asset(asset.clone(), score, indices);
                        proof {
                            assert(spec_mode_matches(rest, mode@) == seq![res@]
                                + spec_mode_matches(rest.drop_first(), mode@));
                        }
                        out.push(res);
                        proof {
                            assert(results_view(out@) =~= oprev + seq![res@]);
                            assert((oprev + seq![res@]) + spec_mode_matches(
                                rest.drop_first(),
                                mode@,
                            ) =~= oprev + (seq![res@] + spec_mode_matches(
                                rest.drop_first(),
                                mode@,
                            )));
                            assert(indices_wf(res@));
                            assert forall|j: int|
                                0 <= j < results_view(out@).len() implies indices_wf(
                                #[trigger] results_view(out@)[j],
                            ) by {
                                if j < oprev.len() {
                                    assert(results_view(out@)[j] == oprev[j]);
                                } else {
                                    assert(results_view(out@)[j] == res@);
                                }
                            }
                        }
                    },
                    None => {
                        proof {
                            assert(spec_mode_matches(rest, mode@) == spec_mode_matches(
                                rest.drop_first(),
                                mode@,
                            ));
                        }
                    },
                }
            }
        } else {
            proof {
                assert(spec_mode_matches(rest, mode@) == spec_mode_matches(
                    rest.drop_first(),
                    mode@,
                ));
            }
        }
        i = i + 1;
    }
    proof {
        assert(all.skip(assets@.len() as int) =~= Seq::<TypeDefinitionModel>::empty());
        assert(spec_mode_matches(all.skip(assets@.len() as int), mode@)
            =~= Seq::<SearchResultModel>::empty());
        assert(results_view(out@) + Seq::<SearchResultModel>::empty() =~= results_view(out@));
    }
    out
}

/// Flattens the per-shell command lists into one pool, in map order.
fn flatten_histories(h: &Vec<(String, Vec<DeduplicatedCommand>)>) -> (r: Vec<DeduplicatedCommand>)
    ensures
        cmds_view(r@) == spec_flatten(histories_view(h@)),
{
    let ghost hv = histories_view(h@);
    let mut out: Vec<DeduplicatedCommand> = Vec::new();
    let mut i: usize = 0;
    proof {
        assert(hv.skip(0) =~= hv);
        assert(cmds_view(out@) + spec_flatten(hv.skip(0)) =~= spec_flatten(hv));
    }
    while i < h.len()
        invariant
            i <= h@.len(),
            hv == histories_view(h@),
            cmds_view(out@) + spec_flatten(hv.skip(i as int)) == spec_flatten(hv),
        decreases h@.len() - i,
    {
        let ghost rest = hv.skip(i as int);
        let ghost row = cmds_view(h@[i as int].1@);
        proof {
            assert(rest[0] == hv[i as int]);
            assert(rest[0].1 == row);
            assert(rest.drop_first() =~= hv.skip(i + 1));
            assert(spec_flatten(rest) == row + spec_flatten(rest.drop_first()));
        }
        let cmds = &h[i].1;
        let ghost before = cmds_view(out@);
        let mut j: usize = 0;
        proof {
            assert(row.take(0) =~= Seq::<DedupCommandModel>::empty());
            assert(before + row.take(0) =~= before);
        }
        while j < cmds.len()
            invariant
                j <= cmds@.len(),
                cmds@ == h@[i as int].1@,
                i < h@.len(),
                row == cmds_view(h@[i as int].1@),
                cmds_view(out@) == before + row.take(j as int),
            decreases cmds@.len() - j,
        {
            let ghost oprev = cmds_view(out@);
            out.push(cmds[j].clone());
            proof {
                assert(cmds_view(out@) =~= oprev + seq![row[j as int]]);
                assert(row.take(j + 1 as int) =~= row.take(j as int) + seq![row[j as int]]);
                assert((before + row.take(j as int)) + seq![row[j as int]] =~= before + (row.take(
                    j as int,
                ) + seq![row[j as int]]));
            }
            j = j + 1;
        }
        proof {
            assert(row.take(cmds@.len() as int) =~= row);
            assert((before + row) + spec_flatten(rest.drop_first()) =~= before + (row
                + spec_flatten(rest.drop_first())));
        }
        i = i + 1;
    }
    proof {
        assert(hv.skip(h@.len() as int) =~= Seq::<(Seq<char>, Seq<DedupCommandModel>)>::empty());
        assert(spec_flatten(hv.skip(h@.len() as int)) =~= Seq::<DedupCommandModel>::empty());
        assert(cmds_view(out@) + Seq::<DedupCommandModel>::empty() =~= cmds_view(out@));
    }
    out
}

/// Collects the history matches of a query as command, score and
/// position triples.
fn hist_matches(cmds: &Vec<DeduplicatedCommand>, q: &str) -> (r: Vec<
    (DeduplicatedCommand, i64, Vec<usize>),
>)
    ensures
        forall|j: int| 0 <= j < triples_view(r@).len() ==> trip_wf(
            #[trigger] triples_view(r@)[j],
        ),
        triples_view(r@) == spec_hist_matches(cmds_view(cmds@), q@),
{
    let ghost all = cmds_view(cmds@);
    let mut out: Vec<(DeduplicatedCommand, i64, Vec<usize>)> = Vec::new();
    let mut i: usize = 0;
    proof {
        assert(all.skip(0) =~= all);
        assert(triples_view(out@) + spec_hist_matches(all.skip(0), q@) =~= spec_hist_matches(
            all,
            q@,
        ));
    }
    while i < cmds.len()
        invariant
            i <= cmds@.len(),
            all == cmds_view(cmds@),
            triples_view(out@) + spec_hist_matches(all.skip(i as int), q@) == spec_hist_matches(
                all,
                q@,
            ),
            forall|j: int| 0 <= j < triples_view(out@).len() ==> trip_wf(
                #[trigger] triples_view(out@)[j],
            ),
        decreases cmds@.len() - i,
    {
        let ghost rest = all.skip(i as int);
        proof {
            assert(rest[0] == cmds@[i as int]@);
            assert(rest.drop_first() =~= all.skip(i + 1));
        }
        let cmd = &cmds[i];
        match fuzzy_indices(cmd.command.as_str(), q) {
            Some((score, indices)) => {
                let ghost oprev = triples_view(out@);
                let trip = (cmd.clone(), score, indices);
                let ghost tm = (trip.0@, trip.1, trip.2@);
                proof {
                    assert((trip.0@, trip.1, trip.2@) == (rest[0], fuzzy_match_of(
                        rest[0].command,
                        q@,
                    ).unwrap().0, fuzzy_match_of(rest[0].command, q@).unwrap().1));
                    assert(spec_hist_matches(rest, q@) == seq![(trip.0@, trip.1, trip.2@)]
                        + spec_hist_matches(rest.drop_first(), q@));
                    assert(trip_wf(tm));
                }
                out.push(trip);
                proof {
                    assert(triples_view(out@) =~= oprev + seq![
                        (out@.last().0@, out@.last().1, out@.last().2@),
                    ]);
                    assert((oprev + seq![(out@.last().0@, out@.last().1, out@.last().2@)])
                        + spec_hist_matches(rest.drop_first(), q@) =~= oprev + (seq![
                        (out@.last().0@, out@.last().1, out@.last().2@),
                    ] + spec_hist_matches(rest.drop_first(), q@)));
                    assert((out@.last().0@, out@.last().1, out@.last().2@) == tm);
                    assert forall|j: int| 0 <= j < triples_view(out@).len() implies trip_wf(
                        #[trigger] triples_view(out@)[j],
                    ) by {
                        if j < oprev.len() {
                            assert(triples_view(out@)[j] == oprev[j]);
                        } else {
                            assert(triples_view(out@)[j] == tm);
                        }
                    }
                }
            },
            None => {
                proof {
                    assert(spec_hist_matches(rest, q@) == spec_hist_matches(
                        rest.drop_first(),
                        q@,
                    ));
                }
            },
        }
        i = i + 1;
    }
    proof {
        assert(all.skip(cmds@.len() as int) =~= Seq::<DedupCommandModel>::empty());
        assert(spec_hist_matches(all.skip(cmds@.len() as int), q@) =~= Seq::<
            (DedupCommandModel, i64, Seq<usize>),
        >::empty());
        assert(triples_view(out@) + Seq::<(DedupCommandModel, i64, Seq<usize>)>::empty()
            =~= triples_view(out@));
    }
    out
}

/// Splits the history matches into one affinity tier.
fn filter_tier(
    matched: &Vec<(DeduplicatedCommand, i64, Vec<usize>)>,
    cwd: &String,
    affine: bool,
) -> (r: Vec<(DeduplicatedCommand, i64, Vec<usize>)>)
    ensures
        affine ==> triples_view(r@) == triples_view(matched@).filter(
            |t: (DedupCommandModel, i64, Seq<usize>)| in_cwd(t.0, cwd@),
        ),
        !affine ==> triples_view(r@) == triples_view(matched@).filter(
            |t: (DedupCommandModel, i64, Seq<usize>)| !in_cwd(t.0, cwd@),
        ),
{
    let ghost all = triples_view(matched@);
    let mut out: Vec<(DeduplicatedCommand, i64, Vec<usize>)> = Vec::new();
    let mut i: usize = 0;
    proof {
        reveal_with_fuel(Seq::filter, 2);
        assert(all.take(0) =~= Seq::<(DedupCommandModel, i64, Seq<usize>)>::empty());
        if affine {
            assert(triples_view(out@) =~= all.take(0).filter(
                |t: (DedupCommandModel, i64, Seq<usize>)| in_cwd(t.0, cwd@),
            ));
        } else {
            assert(triples_view(out@) =~= all.take(0).filter(
                |t: (DedupCommandModel, i64, Seq<usize>)| !in_cwd(t.0, cwd@),
            ));
        }
    }
    while i < matched.len()
        invariant
            i <= matched@.len(),
            all == triples_view(matched@),
            affine ==> triples_view(out@) == all.take(i as int).filter(
                |t: (DedupCommandModel, i64, Seq<usize>)| in_cwd(t.0, cwd@),
            ),
            !affine ==> triples_view(out@) == all.take(i as int).filter(
                |t: (DedupCommandModel, i64, Seq<usize>)| !in_cwd(t.0, cwd@),
            ),
        decreases matched@.len() - i,
    {
        proof {
            reveal_with_fuel(Seq::filter, 2);
            assert(all.take(i + 1 as int).drop_last() =~= all.take(i as int));
            assert(all.take(i + 1 as int).last() == all[i as int]);
            assert(all[i as int].0 == matched@[i as int].0@);
        }
        let t = &matched[i];
        let affinity = crate::history::folders_contain(&t.0.folders, cwd);
        if affinity == affine {
            let ghost oprev = triples_view(out@);
            out.push((t.0.clone(), t.1, t.2.clone()));
            proof {
                assert(triples_view(out@) =~= oprev.push(all[i as int]));
            }
        }
        i = i + 1;
    }
    proof {
        assert(all.take(matched@.len() as int) =~= all);
    }
    out
}

/// Inserting after the leading triples that the new one does not outrank
/// is what `insert_by_rank` computes.
proof fn lemma_insert_rank_at(
    s: Seq<(DedupCommandModel, i64, Seq<usize>)>,
    x: (DedupCommandModel, i64, Seq<usize>),
    idx: int,
)
    requires
        0 <= idx <= s.len(),
        forall|k: int| 0 <= k < idx ==> !hist_precedes(x, #[trigger] s[k]),
        idx < s.len() ==> hist_precedes(x, s[idx]),
    ensures
        insert_by_rank(s, x) == s.insert(idx, x),
    decreases s.len(),
{
    if s.len() == 0 {
        assert(insert_by_rank(s, x) =~= s.insert(0, x));
    } else if idx == 0 {
        assert(insert_by_rank(s, x) =~= s.insert(0, x));
    } else {
        lemma_insert_rank_at(s.drop_first(), x, idx - 1);
        assert(seq![s[0]] + s.drop_first().insert(idx - 1, x) =~= s.insert(idx, x));
    }
}

/// Inserts a history triple at its ranked position, after any triple of
/// equal rank.
fn insert_trip_sorted(
    out: &mut Vec<(DeduplicatedCommand, i64, Vec<usize>)>,
    x: (DeduplicatedCommand, i64, Vec<usize>),
)
    ensures
        triples_view(final(out)@) == insert_by_rank(
            triples_view(old(out)@),
            (x.0@, x.1, x.2@),
        ),
{
    let ghost s0 = triples_view(old(out)@);
    let ghost xm = (x.0@, x.1, x.2@);
    let mut idx: usize = 0;
    loop
        invariant
            idx <= out@.len(),
            out@ == old(out)@,
            s0 == triples_view(out@),
            xm == (x.0@, x.1, x.2@),
            forall|k: int| 0 <= k < idx ==> !hist_precedes(xm, #[trigger] s0[k]),
        ensures
            idx <= out@.len(),
            out@ == old(out)@,
            forall|k: int| 0 <= k < idx ==> !hist_precedes(xm, #[trigger] s0[k]),
            idx < out@.len() ==> hist_precedes(xm, s0[idx as int]),
        decreases out@.len() - idx,
    {
        if idx >= out.len() {
            break;
        }
        let cand_score: i64 = out[idx].1;
        let cand_ts: Option<u64> = out[idx].0.latest_timestamp;
        let precedes = if x.1 > cand_score {
            true
        } else if x.1 == cand_score {
            match (x.0.latest_timestamp, cand_ts) {
                (Some(a), Some(b)) => a > b,
                (Some(_), None) => true,
                _ => false,
            }
        } else {
            false
        };
        proof {
            assert(s0[idx as int] == (out@[idx as int].0@, out@[idx as int].1, out@[idx
                as int].2@));
            assert(cand_score == s0[idx as int].1);
            assert(cand_ts == s0[idx as int].0.latest_timestamp);
            assert(precedes == hist_precedes(xm, s0[idx as int]));
        }
        if precedes {
            break;
        }
        idx = idx + 1;
    }
    proof {
        lemma_insert_rank_at(s0, xm, idx as int);
    }
    out.insert(idx, x);
    proof {
        assert(triples_view(out@) =~= s0.insert(idx as int, xm));
    }
}

/// Sorts one history tier by score, then recency; ties keep their
/// arrival order.
fn sort_triples(input: Vec<(DeduplicatedCommand, i64, Vec<usize>)>) -> (r: Vec<
    (DeduplicatedCommand, i64, Vec<usize>),
>)
    ensures
        triples_view(r@) == sort_by_rank(triples_view(input@)),
{
    let mut sorted: Vec<(DeduplicatedCommand, i64, Vec<usize>)> = Vec::new();
    let mut k: usize = 0;
    proof {
        assert(triples_view(input@).take(0) =~= Seq::<
            (DedupCommandModel, i64, Seq<usize>),
        >::empty());
        assert(sort_by_rank(triples_view(input@).take(0)) =~= Seq::<
            (DedupCommandModel, i64, Seq<usize>),
        >::empty());
        assert(triples_view(sorted@) =~= Seq::<(DedupCommandModel, i64, Seq<usize>)>::empty());
    }
    while k < input.len()
        invariant
            k <= input@.len(),
            triples_view(sorted@) == sort_by_rank(triples_view(input@).take(k as int)),
        decreases input@.len() - k,
    {
        let t = &input[k];
        let x = (t.0.clone(), t.1, t.2.clone());
        proof {
            assert(triples_view(input@).take(k + 1 as int).drop_last() =~= triples_view(
                input@,
            ).take(k as int));
            assert(triples_view(input@).take(k + 1 as int).last() == (input@[k as int].0@,
            input@[k as int].1, input@[k as int].2@));
            assert((x.0@, x.1, x.2@) == (input@[k as int].0@, input@[k as int].1, input@[k
                as int].2@));
        }
        insert_trip_sorted(&mut sorted, x);
        k = k + 1;
    }
    proof {
        assert(triples_view(input@).take(input@.len() as int) =~= triples_view(input@));
    }
    sorted
}

/// Ranks the history pool for a query: the directory-affinity tier
/// first, each tier sorted by score then recency, the whole capped.
fn history_search_results(
    shell_histories: &Vec<(String, Vec<DeduplicatedCommand>)>,
    q: &str,
    cwd: &String,
) -> (r: Vec<SearchResult>)
    ensures
        forall|j: int| 0 <= j < results_view(r@).len() ==> indices_wf(
            #[trigger] results_view(r@)[j],
        ),
        results_view(r@) == spec_history_results(histories_view(shell_histories@), q@, cwd@),
{
    let flat = flatten_histories(shell_histories);
    let matched = hist_matches(&flat, q);
    let ghost mv = triples_view(matched@);
    let tier1 = filter_tier(&matched, cwd, true);
    let tier2 = filter_tier(&matched, cwd, false);
    proof {
        assert forall|j: int| 0 <= j < triples_view(tier1@).len() implies trip_wf(
            #[trigger] triples_view(tier1@)[j],
        ) by {
            lemma_filter_trip_member(
                mv,
                |t: (DedupCommandModel, i64, Seq<usize>)| in_cwd(t.0, cwd@),
                j,
            );
            let m = choose|m: int|
                0 <= m < mv.len() && #[trigger] mv[m] == triples_view(tier1@)[j];
        }
        assert forall|j: int| 0 <= j < triples_view(tier2@).len() implies trip_wf(
            #[trigger] triples_view(tier2@)[j],
        ) by {
            lemma_filter_trip_member(
                mv,
                |t: (DedupCommandModel, i64, Seq<usize>)| !in_cwd(t.0, cwd@),
                j,
            );
            let m = choose|m: int|
                0 <= m < mv.len() && #[trigger] mv[m] == triples_view(tier2@)[j];
        }
        lemma_rank_sort_preserves_trip_wf(triples_view(tier1@));
        lemma_rank_sort_preserves_trip_wf(triples_view(tier2@));
    }
    let mut merged = sort_triples(tier1);
    let mut rest = sort_triples(tier2);
    let ghost m1 = triples_view(merged@);
    let ghost m2 = triples_view(rest@);
    merged.append(&mut rest);
    proof {
        assert(triples_view(merged@) =~= m1 + m2);
        assert forall|k: int| 0 <= k < (m1 + m2).len() implies trip_wf(
            #[trigger] (m1 + m2)[k],
        ) by {
            if k < m1.len() {
                assert((m1 + m2)[k] == m1[k]);
            } else {
                assert((m1 + m2)[k] == m2[k - m1.len()]);
            }
        }
    }
    let ghost merged_model = m1 + m2;
    if merged.len() > MAX_HISTORY_RESULTS {
        merged.truncate(MAX_HISTORY_RESULTS);
        proof {
            assert(triples_view(merged@) =~= merged_model.take(MAX_HISTORY_RESULTS as int));
        }
    }
    let ghost capped = triples_view(merged@);
    proof {
        assert forall|k: int| 0 <= k < capped.len() implies trip_wf(#[trigger] capped[k]) by {
            assert(capped[k] == merged_model[k]);
        }
    }
    let mut out: Vec<SearchResult> = Vec::new();
    let mut i: usize = 0;
    proof {
        assert(results_view(out@) =~= capped.take(0).map_values(
            |t: (DedupCommandModel, i64, Seq<usize>)| hist_result(t),
        ));
    }
    while i < merged.len()
        invariant
            i <= merged@.len(),
            capped == triples_view(merged@),
            forall|k: int| 0 <= k < capped.len() ==> trip_wf(#[trigger] capped[k]),
            forall|j: int| 0 <= j < results_view(out@).len() ==> indices_wf(
                #[trigger] results_view(out@)[j],
            ),
            results_view(out@) == capped.take(i as int).map_values(
                |t: (DedupCommandModel, i64, Seq<usize>)| hist_result(t),
            ),
        decreases merged@.len() - i,
    {
        let t = &merged[i];
        let ghost oprev = results_view(out@);
        let res = SearchResult::new_history_command(t.0.clone(), t.1, t.2.clone());
        proof {
            assert(res@ == hist_result(capped[i as int]));
            assert(indices_wf(res@));
        }
        out.push(res);
        proof {
            assert(results_view(out@) =~= oprev.push(res@));
            assert(capped.take(i + 1 as int) =~= capped.take(i as int).push(capped[i as int]));
            assert(capped.take(i + 1 as int).map_values(
                |t: (DedupCommandModel, i64, Seq<usize>)| hist_result(t),
            ) =~= capped.take(i as int).map_values(
                |t: (DedupCommandModel, i64, Seq<usize>)| hist_result(t),
            ).push(hist_result(capped[i as int])));
            assert forall|j: int| 0 <= j < results_view(out@).len() implies indices_wf(
                #[trigger] results_view(out@)[j],
            ) by {
                if j < oprev.len() {
                    assert(results_view(out@)[j] == oprev[j]);
                } else {
                    assert(results_view(out@)[j] == res@);
                }
            }
        }
        i = i + 1;
    }
    proof {
        assert(capped.take(merged@.len() as int) =~= capped);
    }
    out
}

/// The stateless query engine.
pub struct SearchEngine {}

impl SearchEngine {
    /// A fresh engine.
    pub fn new() -> (s: Self) {
        SearchEngine {  }
    }

    /// The browse-all ranking of an empty query.
    fn get_all_files_panes_rust(
        &self,
        panes: &Vec<PaneMetadata>,
        files: &Vec<String>,
        rust_assets: &Vec<TypeDefinition>,
    ) -> (r: Vec<SearchResult>)
        ensures
            results_view(r@) == spec_browse_all(
                crate::pane::panes_view(panes@),
                assets_view(rust_assets@),
                files_view(files@),
            ),
    {
        let ghost pv = crate::pane::panes_view(panes@);
        let ghost av = assets_view(rust_assets@);
        let ghost fv = files_view(files@);
        let ghost pres = pv.map_values(
            |p: PaneMetadataModel|
                SearchResultModel {
                    item: SearchItemModel::Pane(p),
                    score: 1000,
                    indices: Seq::empty(),
                },
        );
        let ghost ares = av.map_values(
            |a: TypeDefinitionModel|
                SearchResultModel {
                    item: SearchItemModel::RustAsset(a),
                    score: 500,
                    indices: Seq::empty(),
                },
        );
        let ghost fres = fv.map_values(
            |f: Seq<char>|
                SearchResultModel {
                    item: SearchItemModel::File(f),
                    score: 100,
                    indices: Seq::empty(),
                },
        );
        let mut out: Vec<SearchResult> = Vec::new();
        let mut i: usize = 0;
        proof {
            assert(results_view(out@) =~= pres.take(0));
        }
        while i < panes.len()
            invariant
                i <= panes@.len(),
                pv == crate::pane::panes_view(panes@),
                pres == pv.map_values(
                    |p: PaneMetadataModel|
                        SearchResultModel {
                            item: SearchItemModel::Pane(p),
                            score: 1000,
                            indices: Seq::empty(),
                        },
                ),
                results_view(out@) == pres.take(i as int),
            decreases panes@.len() - i,
        {
            let res = SearchResult::new_pane(panes[i].clone(), 1000, Vec::new());
            proof {
                assert(res@.indices =~= Seq::<usize>::empty());
                assert(res@ == pres[i as int]);
            }
            out.push(res);
            proof {
                assert(pres.take(i + 1 as int) =~= pres.take(i as int).push(pres[i as int]));
                assert(results_view(out@) =~= pres.take(i as int).push(pres[i as int]));
            }
            i = i + 1;
        }
        proof {
            assert(pres.take(panes@.len() as int) =~= pres);
        }
        let mut j: usize = 0;
        proof {
            assert(results_view(out@) =~= pres + ares.take(0));
        }
        while j < rust_assets.len()
            invariant
                j <= rust_assets@.len(),
                av == assets_view(rust_assets@),
                pres == pv.map_values(
                    |p: PaneMetadataModel|
                        SearchResultModel {
                            item: SearchItemModel::Pane(p),
                            score: 1000,
                            indices: Seq::empty(),
                        },
                ),
                ares == av.map_values(
                    |a: TypeDefinitionModel|
                        SearchResultModel {
                            item: SearchItemModel::RustAsset(a),
                            score: 500,
                            indices: Seq::empty(),
                        },
                ),
                results_view(out@) == pres + ares.take(j as int),
            decreases rust_assets@.len() - j,
        {
            let res = SearchResult::new_rust_asset(rust_assets[j].clone(), 500, Vec::new());
            proof {
                assert(res@.indices =~= Seq::<usize>::empty());
                assert(res@ == ares[j as int]);
            }
            out.push(res);
            proof {
                assert(ares.take(j + 1 as int) =~= ares.take(j as int) + seq![ares[j as int]]);
                assert(results_view(out@) =~= (pres + ares.take(j as int)) + seq![
                    ares[j as int],
                ]);
                assert((pres + ares.take(j as int)) + seq![ares[j as int]] =~= pres + (ares.take(
                    j as int,
                ) + seq![ares[j as int]]));
            }
            j = j + 1;
        }
        proof {
            assert(ares.take(rust_assets@.len() as int) =~= ares);
        }
        let mut k: usize = 0;
        proof {
            assert(results_view(out@) =~= (pres + ares) + fres.take(0));
        }
        while k < files.len()
            invariant
                k <= files@.len(),
                fv == files_view(files@),
                pres == pv.map_values(
                    |p: PaneMetadataModel|
                        SearchResultModel {
                            item: SearchItemModel::Pane(p),
                            score: 1000,
                            indices: Seq::empty(),
                        },
                ),
                ares == av.map_values(
                    |a: TypeDefinitionModel|
                        SearchResultModel {
                            item: SearchItemModel::RustAsset(a),
                            score: 500,
                            indices: Seq::empty(),
                        },
                ),
                fres == fv.map_values(
                    |f: Seq<char>|
                        SearchResultModel {
                            item: SearchItemModel::File(f),
                            score: 100,
                            indices: Seq::empty(),
                        },
                ),
                results_view(out@) == (pres + ares) + fres.take(k as int),
            decreases files@.len() - k,
        {
            let res = SearchResult::new_file(files[k].clone(), 100, Vec::new());
            proof {
                assert(res@.indices =~= Seq::<usize>::empty());
                assert(res@ == fres[k as int]);
            }
            out.push(res);
            proof {
                assert(fres.take(k + 1 as int) =~= fres.take(k as int) + seq![fres[k as int]]);
                assert(results_view(out@) =~= ((pres + ares) + fres.take(k as int)) + seq![
                    fres[k as int],
                ]);
                assert(((pres + ares) + fres.take(k as int)) + seq![fres[k as int]] =~= (pres
                    + ares) + (fres.take(k as int) + seq![fres[k as int]]));
            }
            k = k + 1;
        }
        proof {
            assert(fres.take(files@.len() as int) =~= fres);
            assert((pres + ares) + fres =~= spec_browse_all(pv, av, fv));
        }
        out
    }

    /// The default ranking: sessions (boosted for contiguous matches),
    /// symbols and files, merged and re-sorted by score.
    fn search_files_panes_rust(
        &self,
        search_term: &str,
        panes: &Vec<PaneMetadata>,
        files: &Vec<String>,
        rust_assets: &Vec<TypeDefinition>,
    ) -> (r: Vec<SearchResult>)
        ensures
            forall|j: int| 0 <= j < results_view(r@).len() ==> indices_wf(
                #[trigger] results_view(r@)[j],
            ),
            results_view(r@) == spec_default_results(
                search_term@,
                crate::pane::panes_view(panes@),
                files_view(files@),
                assets_view(rust_assets@),
            ),
    {
        let mut matches = pane_matches(panes, search_term);
        let mut amatches = asset_matches(rust_assets, search_term);
        let fmatches = file_matches(files, search_term);
        let ghost fm = results_view(fmatches@);
        let mut fcapped = sort_results(fmatches);
        if fcapped.len() > MAX_DISPLAYED_FILES {
            fcapped.truncate(MAX_DISPLAYED_FILES);
            proof {
                assert(results_view(fcapped@) =~= sort_by_score(fm).take(
                    MAX_DISPLAYED_FILES as int,
                ));
            }
        }
        proof {
            lemma_sort_by_score_sorted(fm);
            assert(results_view(fcapped@) == spec_capped_file_matches(
                files_view(files@),
                search_term@,
            ));
        }
        let ghost pm = results_view(matches@);
        let ghost am = results_view(amatches@);
        let ghost fc = results_view(fcapped@);
        proof {
            lemma_sort_preserves_indices_wf(fm);
            assert forall|j: int| 0 <= j < fc.len() implies indices_wf(#[trigger] fc[j]) by {
                assert(fc[j] == sort_by_score(fm)[j]);
            }
        }
        matches.append(&mut amatches);
        proof {
            assert(results_view(matches@) =~= pm + am);
        }
        let mut fcapped_tail = fcapped;
        matches.append(&mut fcapped_tail);
        proof {
            assert(results_view(matches@) =~= (pm + am) + fc);
            assert forall|k: int| 0 <= k < results_view(matches@).len() implies indices_wf(
                #[trigger] results_view(matches@)[k],
            ) by {
                if k < pm.len() {
                    assert(results_view(matches@)[k] == pm[k]);
                } else if k < pm.len() + am.len() {
                    assert(results_view(matches@)[k] == am[k - pm.len()]);
                } else {
                    assert(results_view(matches@)[k] == fc[k - pm.len() - am.len()]);
                }
            }
            lemma_sort_preserves_indices_wf(results_view(matches@));
        }
        sort_results(matches)
    }

    /// The ranking of a symbol-kind search.
    fn search_rust_assets_only(
        &self,
        rust_assets: &Vec<TypeDefinition>,
        mode: &crate::RustAssetSearchMode,
    ) -> (r: Vec<SearchResult>)
        ensures
            forall|j: int| 0 <= j < results_view(r@).len() ==> indices_wf(
                #[trigger] results_view(r@)[j],
            ),
            results_view(r@) == spec_mode_results(assets_view(rust_assets@), mode@),
    {
        let matches = mode_matches(rust_assets, mode);
        proof {
            lemma_sort_preserves_indices_wf(results_view(matches@));
        }
        sort_results(matches)
    }

    /// Ranks every pool against the query.  The result is a function of
    /// the query and the pools alone: repeated calls with unchanged
    /// inputs return the same ranking.
    pub fn search(
        &self,
        search_term: &str,
        panes: &Vec<PaneMetadata>,
        files: &Vec<String>,
        rust_assets: &Vec<TypeDefinition>,
        shell_histories: &Vec<(String, Vec<DeduplicatedCommand>)>,
        current_cwd: &String,
    ) -> (r: SearchResults)
        ensures
            r@.files_panes_results == spec_search(
                search_term@,
                crate::pane::panes_view(panes@),
                files_view(files@),
                assets_view(rust_assets@),
                histories_view(shell_histories@),
                current_cwd@,
            ).files_panes_results,
            r@.shell_commands_results == spec_search(
                search_term@,
                crate::pane::panes_view(panes@),
                files_view(files@),
                assets_view(rust_assets@),
                histories_view(shell_histories@),
                current_cwd@,
            ).shell_commands_results,
            forall|j: int| 0 <= j < r@.files_panes_results.len() ==> indices_wf(
                #[trigger] r@.files_panes_results[j],
            ),
            forall|j: int| 0 <= j < r@.shell_commands_results.len() ==> indices_wf(
                #[trigger] r@.shell_commands_results[j],
            ),
    {
        if search_term.is_empty() {
            let r = SearchResults {
                files_panes_results: self.get_all_files_panes_rust(panes, files, rust_assets),
                shell_commands_results: Vec::new(),
            };
            proof {
                assert(results_view(r.shell_commands_results@) =~= Seq::<
                    SearchResultModel,
                >::empty());
                assert forall|j: int| 0 <= j < r@.files_panes_results.len() implies indices_wf(
                    #[trigger] r@.files_panes_results[j],
                ) by {
                    lemma_browse_all_indices_wf(
                        crate::pane::panes_view(panes@),
                        assets_view(rust_assets@),
                        files_view(files@),
                        j,
                    );
                }
            }
            r
        } else {
            match crate::parse_rust_asset_search(search_term) {
                Some(rust_mode) => {
                    let r = SearchResults {
                        files_panes_results: self.search_rust_assets_only(
                            rust_assets,
                            &rust_mode,
                        ),
                        shell_commands_results: Vec::new(),
                    };
                    proof {
                        assert(results_view(r.shell_commands_results@) =~= Seq::<
                            SearchResultModel,
                        >::empty());
                    }
                    r
                },
                None => SearchResults {
                    files_panes_results: self.search_files_panes_rust(
                        search_term,
                        panes,
                        files,
                        rust_assets,
                    ),
                    shell_commands_results: history_search_results(
                        shell_histories,
                        search_term,
                        current_cwd,
                    ),
                },
            }
        }
    }
}

/// The path a file result carries.
pub open spec fn file_payload(i: SearchItemModel) -> Seq<char> {
    match i {
        SearchItemModel::File(f) => f,
        _ => Seq::empty(),
    }
}

/// The files shown for a fuzzy query: the same best-three file matches
/// that enter the merged ranking, as bare paths.
pub open spec fn spec_displayed_files(files: Seq<Seq<char>>, q: Seq<char>) -> Seq<Seq<char>> {
    if q.len() == 0 {
        Seq::empty()
    } else {
        spec_capped_file_matches(files, q).map_values(
            |r: SearchResultModel| file_payload(r.item),
        )
    }
}

/// How many matching files stay unshown.
pub open spec fn spec_remaining_files(files: Seq<Seq<char>>, q: Seq<char>) -> int {
    if q.len() == 0 {
        0
    } else {
        let n = spec_file_matches(files, q).len();
        if n > MAX_DISPLAYED_FILES {
            n - MAX_DISPLAYED_FILES
        } else {
            0
        }
    }
}

/// Every file match is a file result.
proof fn lemma_file_matches_are_files(files: Seq<Seq<char>>, q: Seq<char>, j: int)
    requires
        0 <= j < spec_file_matches(files, q).len(),
    ensures
        spec_file_matches(files, q)[j].item is File,
    decreases files.len(),
{
    if files.len() > 0 {
        let rest = spec_file_matches(files.drop_first(), q);
        match fuzzy_match_of(files[0], q) {
            Some(m) => {
                if j > 0 {
                    lemma_file_matches_are_files(files.drop_first(), q, j - 1);
                }
            },
            None => {
                lemma_file_matches_are_files(files.drop_first(), q, j);
            },
        }
    }
}

impl SearchEngine {
    /// The best [`MAX_DISPLAYED_FILES`] file matches of a query, by
    /// descending score, and how many further files matched.  An empty
    /// query shows nothing.
    pub fn get_displayed_files(&self, search_term: &str, files: &Vec<String>) -> (r: (
        Vec<String>,
        usize,
    ))
        ensures
            files_view(r.0@) == spec_displayed_files(files_view(files@), search_term@),
            r.1 == spec_remaining_files(files_view(files@), search_term@),
    {
        if search_term.is_empty() {
            let empty: Vec<String> = Vec::new();
            proof {
                assert(files_view(empty@) =~= Seq::<Seq<char>>::empty());
            }
            return (empty, 0);
        }
        let matched = file_matches(files, search_term);
        let ghost mm = results_view(matched@);
        let total = matched.len();
        let sorted = sort_results(matched);
        proof {
            lemma_sort_by_score_sorted(mm);
        }
        let ghost sortedm = sort_by_score(mm);
        let ghost shown = if sortedm.len() > MAX_DISPLAYED_FILES {
            sortedm.take(MAX_DISPLAYED_FILES as int)
        } else {
            sortedm
        };
        let count = if sorted.len() > MAX_DISPLAYED_FILES {
            MAX_DISPLAYED_FILES
        } else {
            sorted.len()
        };
        let mut displayed: Vec<String> = Vec::new();
        let mut i: usize = 0;
        proof {
            assert(files_view(displayed@) =~= shown.map_values(
                |r: SearchResultModel| file_payload(r.item),
            ).take(0));
        }
        while i < count
            invariant
                i <= count,
                count <= sorted@.len(),
                sortedm == sort_by_score(mm),
                mm == spec_file_matches(files_view(files@), search_term@),
                sortedm.len() == mm.len(),
                results_view(sorted@) == sortedm,
                shown == (if sortedm.len() > MAX_DISPLAYED_FILES {
                    sortedm.take(MAX_DISPLAYED_FILES as int)
                } else {
                    sortedm
                }),
                count == (if sortedm.len() > MAX_DISPLAYED_FILES {
                    MAX_DISPLAYED_FILES as int
                } else {
                    sortedm.len() as int
                }),
                files_view(displayed@) == shown.map_values(
                    |r: SearchResultModel| file_payload(r.item),
                ).take(i as int),
            decreases count - i,
        {
            proof {
                lemma_sort_member(mm, i as int);
                let m = choose|m: int| 0 <= m < mm.len() && #[trigger] mm[m] == sortedm[i as int];
                lemma_file_matches_are_files(files_view(files@), search_term@, m);
                assert(sortedm[i as int].item is File);
                assert(sorted@[i as int]@ == sortedm[i as int]);
            }
            let ghost dprev = files_view(displayed@);
            match &sorted[i].item {
                SearchItem::File(f) => {
                    displayed.push(f.clone());
                    proof {
                        assert(files_view(displayed@) =~= dprev.push(f@));
                        assert(shown[i as int] == sortedm[i as int]);
                        assert(f@ == file_payload(shown[i as int].item));
                        assert(shown.map_values(
                            |r: SearchResultModel| file_payload(r.item),
                        ).take(i + 1 as int) =~= shown.map_values(
                            |r: SearchResultModel| file_payload(r.item),
                        ).take(i as int).push(file_payload(shown[i as int].item)));
                    }
                },
                _ => {
                    proof {
                        assert(false);
                    }
                },
            }
            i = i + 1;
        }
        proof {
            assert(shown.map_values(|r: SearchResultModel| file_payload(r.item)).take(
                count as int,
            ) =~= shown.map_values(|r: SearchResultModel| file_payload(r.item)));
        }
        let remaining = if total > MAX_DISPLAYED_FILES {
            total - MAX_DISPLAYED_FILES
        } else {
            0
        };
        proof {
            assert(mm.len() == matched@.len());
            assert(total == spec_file_matches(files_view(files@), search_term@).len());
        }
        (displayed, remaining)
    }
}

impl Default for SearchEngine {
    /// The default engine.
    fn default() -> (r: Self)
        ensures
            r == (SearchEngine {  }),
    {
        SearchEngine::new()
    }
}

/// Every match of a symbol-kind search is a symbol of the mode's kind.
proof fn lemma_mode_matches_kind(assets: Seq<TypeDefinitionModel>, m: SearchModeModel, j: int)
    requires
        0 <= j < spec_mode_matches(assets, m).len(),
    ensures
        spec_mode_matches(assets, m)[j].item is RustAsset,
        kind_matches(m, spec_mode_matches(assets, m)[j].item->RustAsset_0.type_kind),
    decreases assets.len(),
{
    if assets.len() > 0 {
        let rest = spec_mode_matches(assets.drop_first(), m);
        let a = assets[0];
        if kind_matches(m, a.type_kind) {
            if mode_term(m).len() == 0 {
                if j > 0 {
                    lemma_mode_matches_kind(assets.drop_first(), m, j - 1);
                }
            } else {
                match fuzzy_match_of(a.name, mode_term(m)) {
                    Some(mm) => {
                        if j > 0 {
                            lemma_mode_matches_kind(assets.drop_first(), m, j - 1);
                        }
                    },
                    None => {
                        lemma_mode_matches_kind(assets.drop_first(), m, j);
                    },
                }
            }
        } else {
            lemma_mode_matches_kind(assets.drop_first(), m, j);
        }
    }
}

/// Mode detection restricts the search: when the query carries a
/// symbol-kind prefix, every result of the search is a symbol whose kind
/// the mode covers, fuzzy-matched against the query's remainder alone.
pub proof fn lemma_mode_restricts_results(
    q: Seq<char>,
    panes: Seq<PaneMetadataModel>,
    files: Seq<Seq<char>>,
    assets: Seq<TypeDefinitionModel>,
    hist: Seq<(Seq<char>, Seq<DedupCommandModel>)>,
    cwd: Seq<char>,
    m: SearchModeModel,
    j: int,
)
    requires
        q.len() > 0,
        crate::spec_parse_mode(q) == Some(m),
        0 <= j < spec_search(q, panes, files, assets, hist, cwd).files_panes_results.len(),
    ensures
        spec_search(q, panes, files, assets, hist, cwd).files_panes_results[j].item is RustAsset,
        kind_matches(
            m,
            spec_search(
                q,
                panes,
                files,
                assets,
                hist,
                cwd,
            ).files_panes_results[j].item->RustAsset_0.type_kind,
        ),
        spec_search(q, panes, files, assets, hist, cwd).shell_commands_results.len() == 0,
{
    let out = spec_mode_results(assets, m);
    lemma_sort_member(spec_mode_matches(assets, m), j);
    let w = choose|w: int|
        0 <= w < spec_mode_matches(assets, m).len() && #[trigger] spec_mode_matches(assets, m)[w]
            == out[j];
    lemma_mode_matches_kind(assets, m, w);
}

/// Boosting strictly raises a positive score, so a contiguous session
/// match outranks a scattered one of the same raw fuzzy score.
pub proof fn lemma_boost_strictly_raises(score: i64)
    requires
        1 <= score < i64::MAX,
    ensures
        boost_score_spec(score) > score,
{
}

/// In a descending-score ranking, a result with a strictly higher score
/// stands strictly earlier.
pub proof fn lemma_higher_score_ranks_earlier(out: Seq<SearchResultModel>, i: int, j: int)
    requires
        sorted_desc(out),
        0 <= i < out.len(),
        0 <= j < out.len(),
        out[i].score > out[j].score,
    ensures
        i < j,
{
}

/// Contiguous matches outrank scattered ones: in any descending-score
/// ranking, a session result whose positive raw score was boosted for a
/// contiguous run stands strictly ahead of one that matched the same raw
/// score over scattered positions.
pub proof fn lemma_contiguous_match_outranks(
    out: Seq<SearchResultModel>,
    score: i64,
    contiguous_indices: Seq<usize>,
    scattered_indices: Seq<usize>,
    ia: int,
    ib: int,
)
    requires
        sorted_desc(out),
        1 <= score < i64::MAX,
        is_contiguous(contiguous_indices),
        !is_contiguous(scattered_indices),
        0 <= ia < out.len(),
        0 <= ib < out.len(),
        out[ia].score == pane_score(score, contiguous_indices),
        out[ib].score == pane_score(score, scattered_indices),
    ensures
        ia < ib,
{
    lemma_boost_strictly_raises(score);
    lemma_higher_score_ranks_earlier(out, ia, ib);
}

/// Rank-sorting keeps every history triple's match positions
/// well-formed: the sorted run holds only elements of the input.
proof fn lemma_rank_sort_preserves_trip_wf(s: Seq<(DedupCommandModel, i64, Seq<usize>)>)
    requires
        forall|i: int| 0 <= i < s.len() ==> trip_wf(#[trigger] s[i]),
    ensures
        forall|j: int| 0 <= j < sort_by_rank(s).len() ==> trip_wf(#[trigger] sort_by_rank(s)[j]),
{
    lemma_sort_by_rank_sorted(s);
    assert forall|j: int| 0 <= j < sort_by_rank(s).len() implies trip_wf(
        #[trigger] sort_by_rank(s)[j],
    ) by {
        lemma_sort_rank_member(s, j);
        let m = choose|m: int| 0 <= m < s.len() && #[trigger] s[m] == sort_by_rank(s)[j];
    }
}

/// Every element of a filtered run of history triples is an element of
/// the input.
proof fn lemma_filter_trip_member(
    s: Seq<(DedupCommandModel, i64, Seq<usize>)>,
    pred: spec_fn((DedupCommandModel, i64, Seq<usize>)) -> bool,
    j: int,
)
    requires
        0 <= j < s.filter(pred).len(),
    ensures
        exists|m: int| 0 <= m < s.len() && #[trigger] s[m] == s.filter(pred)[j],
    decreases s.len(),
{
    reveal_with_fuel(Seq::filter, 2);
    if s.len() > 0 {
        let sub = s.drop_last().filter(pred);
        if pred(s.last()) && j == sub.len() {
            assert(s.filter(pred)[j] == s.last());
            assert(s[s.len() - 1] == s.filter(pred)[j]);
        } else {
            assert(s.filter(pred)[j] == sub[j]);
            lemma_filter_trip_member(s.drop_last(), pred, j);
            let m = choose|m: int|
                0 <= m < s.drop_last().len() && #[trigger] s.drop_last()[m] == sub[j];
            assert(s[m] == s.filter(pred)[j]);
        }
    }
}

/// Every element of a rank-sorted run is an element of the input.
proof fn lemma_sort_rank_member(s: Seq<(DedupCommandModel, i64, Seq<usize>)>, j: int)
    requires
        0 <= j < sort_by_rank(s).len(),
    ensures
        exists|m: int| 0 <= m < s.len() && #[trigger] s[m] == sort_by_rank(s)[j],
    decreases s.len(),
{
    if s.len() > 0 {
        lemma_insert_rank_member(sort_by_rank(s.drop_last()), s.last(), j);
        let out = sort_by_rank(s);
        if out[j] == s.last() {
            assert(s[s.len() - 1] == out[j]);
        } else {
            let m = choose|m: int|
                0 <= m < sort_by_rank(s.drop_last()).len() && #[trigger] sort_by_rank(
                    s.drop_last(),
                )[m] == out[j];
            lemma_sort_rank_member(s.drop_last(), m);
            let w = choose|w: int|
                0 <= w < s.drop_last().len() && #[trigger] s.drop_last()[w] == sort_by_rank(
                    s.drop_last(),
                )[m];
            assert(s[w] == out[j]);
        }
    }
}

proof fn lemma_insert_rank_member(
    s: Seq<(DedupCommandModel, i64, Seq<usize>)>,
    x: (DedupCommandModel, i64, Seq<usize>),
    j: int,
)
    requires
        0 <= j < insert_by_rank(s, x).len(),
    ensures
        insert_by_rank(s, x)[j] == x || exists|m: int|
            0 <= m < s.len() && #[trigger] s[m] == insert_by_rank(s, x)[j],
    decreases s.len(),
{
    let out = insert_by_rank(s, x);
    if s.len() == 0 {
    } else if hist_precedes(x, s[0]) {
        if j > 0 {
            assert(out[j] == s[j - 1]);
        }
    } else {
        if j == 0 {
            assert(s[0] == out[0]);
        } else {
            lemma_insert_rank_member(s.drop_first(), x, j - 1);
            assert(out[j] == insert_by_rank(s.drop_first(), x)[j - 1]);
            if insert_by_rank(s.drop_first(), x)[j - 1] != x {
                let m = choose|m: int|
                    0 <= m < s.drop_first().len() && #[trigger] s.drop_first()[m] == out[j];
                assert(s[m + 1] == out[j]);
            }
        }
    }
}

/// Directory affinity dominates the history ranking: before the cap is
/// applied, every match whose command ran in the current working
/// directory stands ahead of every match whose command did not,
/// whatever their scores and timestamps.
pub proof fn lemma_history_affinity_tiers(
    h: Seq<(Seq<char>, Seq<DedupCommandModel>)>,
    q: Seq<char>,
    cwd: Seq<char>,
    i: int,
)
    requires
        ({
            let all = spec_hist_matches(spec_flatten(h), q);
            let tier1 = all.filter(|t: (DedupCommandModel, i64, Seq<usize>)| in_cwd(t.0, cwd));
            let tier2 = all.filter(|t: (DedupCommandModel, i64, Seq<usize>)| !in_cwd(t.0, cwd));
            0 <= i < sort_by_rank(tier1).len() + sort_by_rank(tier2).len()
        }),
    ensures
        ({
            let all = spec_hist_matches(spec_flatten(h), q);
            let tier1 = all.filter(|t: (DedupCommandModel, i64, Seq<usize>)| in_cwd(t.0, cwd));
            let tier2 = all.filter(|t: (DedupCommandModel, i64, Seq<usize>)| !in_cwd(t.0, cwd));
            let merged = sort_by_rank(tier1) + sort_by_rank(tier2);
            (i < sort_by_rank(tier1).len() ==> in_cwd(merged[i].0, cwd)) && (i >= sort_by_rank(
                tier1,
            ).len() ==> !in_cwd(merged[i].0, cwd))
        }),
{
    broadcast use vstd::seq_lib::group_seq_properties;

    let all = spec_hist_matches(spec_flatten(h), q);
    let p1 = |t: (DedupCommandModel, i64, Seq<usize>)| in_cwd(t.0, cwd);
    let p2 = |t: (DedupCommandModel, i64, Seq<usize>)| !in_cwd(t.0, cwd);
    let tier1 = all.filter(p1);
    let tier2 = all.filter(p2);
    let s1 = sort_by_rank(tier1);
    let s2 = sort_by_rank(tier2);
    if i < s1.len() {
        lemma_sort_rank_member(tier1, i);
        let m = choose|m: int| 0 <= m < tier1.len() && #[trigger] tier1[m] == s1[i];
        all.lemma_filter_pred(p1, m);
        assert(p1(tier1[m]));
    } else {
        lemma_sort_rank_member(tier2, i - s1.len());
        let m = choose|m: int|
            0 <= m < tier2.len() && #[trigger] tier2[m] == s2[i - s1.len()];
        all.lemma_filter_pred(p2, m);
        assert(p2(tier2[m]));
        assert((s1 + s2)[i] == s2[i - s1.len()]);
    }
}

/// A run ordered by rank: no later match strictly outranks an earlier
/// one, so at equal score the more recent timestamp stands first and a
/// timestamped command stands before an untimestamped one.
pub open spec fn sorted_rank(s: Seq<(DedupCommandModel, i64, Seq<usize>)>) -> bool {
    forall|i: int, j: int|
        0 <= i <= j < s.len() ==> !hist_precedes(#[trigger] s[j], #[trigger] s[i])
}

proof fn lemma_insert_by_rank_sorted(
    s: Seq<(DedupCommandModel, i64, Seq<usize>)>,
    x: (DedupCommandModel, i64, Seq<usize>),
)
    requires
        sorted_rank(s),
    ensures
        sorted_rank(insert_by_rank(s, x)),
        insert_by_rank(s, x).len() == s.len() + 1,
    decreases s.len(),
{
    let out = insert_by_rank(s, x);
    if s.len() == 0 {
    } else if hist_precedes(x, s[0]) {
        assert forall|i: int, j: int| 0 <= i <= j < out.len() implies !hist_precedes(
            #[trigger] out[j],
            #[trigger] out[i],
        ) by {
            if i == 0 && j > 0 {
                assert(out[j] == s[j - 1]);
                if hist_precedes(s[j - 1], x) {
                    assert(hist_precedes(s[j - 1], s[0]));
                    assert(!hist_precedes(s[j - 1], s[0]));
                }
            } else if i > 0 && j > 0 {
                assert(out[i] == s[i - 1]);
                assert(out[j] == s[j - 1]);
            }
        }
    } else {
        assert(sorted_rank(s.drop_first())) by {
            assert(forall|i: int, j: int|
                0 <= i <= j < s.drop_first().len() ==> !hist_precedes(
                    #[trigger] s.drop_first()[j],
                    #[trigger] s.drop_first()[i],
                ));
        }
        lemma_insert_by_rank_sorted(s.drop_first(), x);
        let tail = insert_by_rank(s.drop_first(), x);
        assert forall|i: int, j: int| 0 <= i <= j < out.len() implies !hist_precedes(
            #[trigger] out[j],
            #[trigger] out[i],
        ) by {
            if i == 0 && j > 0 {
                assert(out[j] == tail[j - 1]);
                lemma_insert_rank_member(s.drop_first(), x, j - 1);
                if tail[j - 1] == x {
                    assert(!hist_precedes(x, s[0]));
                } else {
                    let m = choose|m: int|
                        0 <= m < s.drop_first().len() && #[trigger] s.drop_first()[m] == tail[j
                            - 1];
                    assert(!hist_precedes(s[m + 1], s[0]));
                }
            } else if i > 0 && j > 0 {
                assert(out[i] == tail[i - 1]);
                assert(out[j] == tail[j - 1]);
            }
        }
    }
}

/// Each history tier is ordered by score and, at equal score, by
/// recency, a present timestamp ahead of an absent one.
pub proof fn lemma_sort_by_rank_sorted(s: Seq<(DedupCommandModel, i64, Seq<usize>)>)
    ensures
        sorted_rank(sort_by_rank(s)),
        sort_by_rank(s).len() == s.len(),
    decreases s.len(),
{
    if s.len() > 0 {
        lemma_sort_by_rank_sorted(s.drop_last());
        lemma_insert_by_rank_sorted(sort_by_rank(s.drop_last()), s.last());
    }
}

/// The search is a function of its inputs alone: two searches over the
/// same query and the same pools return the same ranking.
pub proof fn lemma_search_deterministic(
    q: Seq<char>,
    panes: Seq<PaneMetadataModel>,
    files: Seq<Seq<char>>,
    assets: Seq<TypeDefinitionModel>,
    hist: Seq<(Seq<char>, Seq<DedupCommandModel>)>,
    cwd: Seq<char>,
    r1: SearchResultsModel,
    r2: SearchResultsModel,
)
    requires
        r1.files_panes_results == spec_search(q, panes, files, assets, hist, cwd).files_panes_results,
        r1.shell_commands_results == spec_search(
            q,
            panes,
            files,
            assets,
            hist,
            cwd,
        ).shell_commands_results,
        r2.files_panes_results == spec_search(q, panes, files, assets, hist, cwd).files_panes_results,
        r2.shell_commands_results == spec_search(
            q,
            panes,
            files,
            assets,
            hist,
            cwd,
        ).shell_commands_results,
    ensures
        r1.files_panes_results == r2.files_panes_results,
        r1.shell_commands_results == r2.shell_commands_results,
{
}

/// An empty query browses: whenever the session, symbol or file pool is
/// non-empty, the search returns the full browse-all composition, never
/// an empty set.  (With all three of those pools empty, a non-empty
/// history pool still yields no browse results, as browsing shows no
/// history.)
pub proof fn lemma_empty_query_browses_all(
    panes: Seq<PaneMetadataModel>,
    files: Seq<Seq<char>>,
    assets: Seq<TypeDefinitionModel>,
    hist: Seq<(Seq<char>, Seq<DedupCommandModel>)>,
    cwd: Seq<char>,
)
    requires
        panes.len() > 0 || assets.len() > 0 || files.len() > 0,
    ensures
        spec_search(Seq::empty(), panes, files, assets, hist, cwd).files_panes_results.len() > 0,
        spec_search(Seq::empty(), panes, files, assets, hist, cwd).files_panes_results
            == spec_browse_all(panes, assets, files),
{
}

} // verus!
