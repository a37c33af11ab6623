//! Editor session descriptors: the library's model of the host's panes,
//! and the extraction of the editor panes that take part in the search.

use vstd::prelude::*;

verus! {

use crate::text::{chars_vec, contains_seq, contains_chars, lex_le, lex_le_exec, lower_chars, to_lower_chars};

broadcast use vstd::std_specs::vec::group_vec_axioms;

/// A pane handle: a terminal pane or a plugin pane, by host id.
#[derive(Debug, Clone, Copy, PartialEq, Eq, Structural, Hash)]
pub enum PaneId {
    Terminal(u32),
    Plugin(u32),
}

/// What the library reads of one pane of the host: its id, whether it is
/// a plugin, its title, and the command it runs, if any.
#[derive(Debug, Clone)]
pub struct PaneInfo {
    pub id: u32,
    pub is_plugin: bool,
    pub title: String,
    pub terminal_command: Option<String>,
}

/// The panes of the host, tab by tab, in tab order.
pub struct PaneManifest {
    pub panes: Vec<(usize, Vec<PaneInfo>)>,
}

/// An editor session candidate: a pane handle and the pane's title.
#[derive(Debug)]
pub struct PaneMetadata {
    pub id: PaneId,
    pub title: String,
}

/// The mathematical model of a [`PaneMetadata`].
pub struct PaneMetadataModel {
    pub id: PaneId,
    pub title: Seq<char>,
}

impl View for PaneMetadata {
    type V = PaneMetadataModel;

    open spec fn view(&self) -> PaneMetadataModel {
        PaneMetadataModel { id: self.id, title: self.title@ }
    }
}

impl Clone for PaneMetadata {
    /// Clones a descriptor; the copy has the same model.
    fn clone(&self) -> (r: Self)
        ensures
            r@ == self@,
    {
        PaneMetadata { id: self.id, title: self.title.clone() }
    }
}

/// The views of a sequence of descriptors.
pub open spec fn panes_view(v: Seq<PaneMetadata>) -> Seq<PaneMetadataModel> {
    v.map_values(|p: PaneMetadata| p@)
}

/// The commands and titles that mark a pane as an editor.
pub open spec fn editor_names() -> Seq<Seq<char>> {
    seq![
        "vim"@,
        "nvim"@,
        "neovim"@,
        "vi"@,
        "emacs"@,
        "nano"@,
        "micro"@,
        "helix"@,
        "hx"@,
        "code"@,
        "subl"@,
        "atom"@,
        "notepad"@,
        "kak"@,
        "kakoune"@,
        "joe"@,
        "mcedit"@,
        "ed"@,
        "ex"@,
        "pico"@,
    ]
}

/// Some editor name occurs in the (already lower-cased) text.
pub open spec fn any_editor_in(t: Seq<char>) -> bool {
    exists|i: int| 0 <= i < editor_names().len() && contains_seq(t, editor_names()[i])
}

/// A pane takes part in the session pool when an editor name occurs in
/// its command or its title, ASCII case-insensitively.
pub open spec fn is_editor_pane_spec(p: PaneInfo) -> bool {
    ||| match p.terminal_command {
        Some(cmd) => any_editor_in(lower_chars(cmd@)),
        None => false,
    }
    ||| any_editor_in(lower_chars(p.title@))
}

/// Whether some editor name occurs in the lower-cased text.
fn any_editor_in_exec(t: &Vec<char>) -> (r: bool)
    ensures
        r == any_editor_in(t@),
{
    let r = contains_chars(t, &chars_vec("vim")) || contains_chars(t, &chars_vec("nvim"))
        || contains_chars(t, &chars_vec("neovim")) || contains_chars(t, &chars_vec("vi"))
        || contains_chars(t, &chars_vec("emacs")) || contains_chars(t, &chars_vec("nano"))
        || contains_chars(t, &chars_vec("micro")) || contains_chars(t, &chars_vec("helix"))
        || contains_chars(t, &chars_vec("hx")) || contains_chars(t, &chars_vec("code"))
        || contains_chars(t, &chars_vec("subl")) || contains_chars(t, &chars_vec("atom"))
        || contains_chars(t, &chars_vec("notepad")) || contains_chars(t, &chars_vec("kak"))
        || contains_chars(t, &chars_vec("kakoune")) || contains_chars(t, &chars_vec("joe"))
        || contains_chars(t, &chars_vec("mcedit")) || contains_chars(t, &chars_vec("ed"))
        || contains_chars(t, &chars_vec("ex")) || contains_chars(t, &chars_vec("pico"));
    proof {
        if r {
            assert(any_editor_in(t@)) by {
                if contains_seq(t@, "vim"@) {
                    assert(editor_names()[0] == "vim"@);
                } else if contains_seq(t@, "nvim"@) {
                    assert(editor_names()[1] == "nvim"@);
                } else if contains_seq(t@, "neovim"@) {
                    assert(editor_names()[2] == "neovim"@);
                } else if contains_seq(t@, "vi"@) {
                    assert(editor_names()[3] == "vi"@);
                } else if contains_seq(t@, "emacs"@) {
                    assert(editor_names()[4] == "emacs"@);
                } else if contains_seq(t@, "nano"@) {
                    assert(editor_names()[5] == "nano"@);
                } else if contains_seq(t@, "micro"@) {
                    assert(editor_names()[6] == "micro"@);
                } else if contains_seq(t@, "helix"@) {
                    assert(editor_names()[7] == "helix"@);
                } else if contains_seq(t@, "hx"@) {
                    assert(editor_names()[8] == "hx"@);
                } else if contains_seq(t@, "code"@) {
                    assert(editor_names()[9] == "code"@);
                } else if contains_seq(t@, "subl"@) {
                    assert(editor_names()[10] == "subl"@);
                } else if contains_seq(t@, "atom"@) {
                    assert(editor_names()[11] == "atom"@);
                } else if contains_seq(t@, "notepad"@) {
                    assert(editor_names()[12] == "notepad"@);
                } else if contains_seq(t@, "kak"@) {
                    assert(editor_names()[13] == "kak"@);
                } else if contains_seq(t@, "kakoune"@) {
                    assert(editor_names()[14] == "kakoune"@);
                } else if contains_seq(t@, "joe"@) {
                    assert(editor_names()[15] == "joe"@);
                } else if contains_seq(t@, "mcedit"@) {
                    assert(editor_names()[16] == "mcedit"@);
                } else if contains_seq(t@, "ed"@) {
                    assert(editor_names()[17] == "ed"@);
                } else if contains_seq(t@, "ex"@) {
                    assert(editor_names()[18] == "ex"@);
                } else {
                    assert(editor_names()[19] == "pico"@);
                }
            }
        }
        if any_editor_in(t@) && !r {
            let i = choose|i: int|
                0 <= i < editor_names().len() && contains_seq(t@, editor_names()[i]);
            assert(false);
        }
    }
    r
}

/// Whether this pane counts as an editor pane.
pub fn is_editor_pane(pane_info: &PaneInfo) -> (r: bool)
    ensures
        r == is_editor_pane_spec(*pane_info),
{
    let by_command = match &pane_info.terminal_command {
        Some(cmd) => {
            let lowered = to_lower_chars(&chars_vec(cmd.as_str()));
            any_editor_in_exec(&lowered)
        },
        None => false,
    };
    if by_command {
        return true;
    }
    let title_lowered = to_lower_chars(&chars_vec(pane_info.title.as_str()));
    any_editor_in_exec(&title_lowered)
}

/// The descriptor of one pane: plugin panes keep their id as a plugin
/// handle, terminal panes as a terminal handle.
pub open spec fn pane_meta(p: PaneInfo) -> PaneMetadataModel {
    PaneMetadataModel {
        id: if p.is_plugin {
            PaneId::Plugin(p.id)
        } else {
            PaneId::Terminal(p.id)
        },
        title: p.title@,
    }
}

/// The editor descriptors of one tab's panes, in pane order.
pub open spec fn row_editors(panes: Seq<PaneInfo>) -> Seq<PaneMetadataModel> {
    panes.filter(|p: PaneInfo| is_editor_pane_spec(p)).map_values(|p: PaneInfo| pane_meta(p))
}

/// The editor descriptors of a whole manifest, tab by tab.
pub open spec fn manifest_editors(rows: Seq<(usize, Vec<PaneInfo>)>) -> Seq<PaneMetadataModel>
    decreases rows.len(),
{
    if rows.len() == 0 {
        Seq::empty()
    } else {
        row_editors(rows[0].1@) + manifest_editors(rows.drop_first())
    }
}

/// Stable insertion into a title-sorted run: the new descriptor goes
/// after every descriptor whose title is not greater.
pub open spec fn insert_by_title(s: Seq<PaneMetadataModel>, x: PaneMetadataModel) -> Seq<
    PaneMetadataModel,
>
    decreases s.len(),
{
    if s.len() == 0 {
        seq![x]
    } else if lex_le(s[0].title, x.title) {
        seq![s[0]] + insert_by_title(s.drop_first(), x)
    } else {
        seq![x] + s
    }
}

/// Stable sort of descriptors by title, in code-point order.
pub open spec fn sort_by_title(s: Seq<PaneMetadataModel>) -> Seq<PaneMetadataModel>
    decreases s.len(),
{
    if s.len() == 0 {
        Seq::empty()
    } else {
        insert_by_title(sort_by_title(s.drop_last()), s.last())
    }
}

/// Inserts a descriptor into a run of descriptors at its sorted position,
/// after any descriptor of equal title.
fn insert_pane_sorted(out: &mut Vec<PaneMetadata>, x: PaneMetadata)
    ensures
        panes_view(final(out)@) == insert_by_title(panes_view(old(out)@), x@),
{
    let ghost s0 = panes_view(old(out)@);
    let mut idx: usize = 0;
    loop
        invariant
            idx <= out@.len(),
            out@ == old(out)@,
            s0 == panes_view(out@),
            forall|k: int| 0 <= k < idx ==> lex_le(#[trigger] panes_view(out@)[k].title, x@.title),
        ensures
            idx <= out@.len(),
            out@ == old(out)@,
            forall|k: int| 0 <= k < idx ==> lex_le(#[trigger] panes_view(out@)[k].title, x@.title),
            idx < out@.len() ==> !lex_le(panes_view(out@)[idx as int].title, x@.title),
        decreases out@.len() - idx,
    {
        if idx >= out.len() {
            break;
        }
        if !lex_le_exec(&chars_vec(out[idx].title.as_str()), &chars_vec(x.title.as_str())) {
            break;
        }
        idx = idx + 1;
    }
    proof {
        lemma_insert_at(panes_view(out@), x@, idx as int);
    }
    out.insert(idx, x);
    proof {
        assert(panes_view(out@) =~= s0.insert(idx as int, x@));
    }
}

/// Inserting after `idx` leading not-greater titles is what
/// `insert_by_title` computes.
proof fn lemma_insert_at(s: Seq<PaneMetadataModel>, x: PaneMetadataModel, idx: int)
    requires
        0 <= idx <= s.len(),
        forall|k: int| 0 <= k < idx ==> lex_le(#[trigger] s[k].title, x.title),
        idx < s.len() ==> !lex_le(s[idx].title, x.title),
    ensures
        insert_by_title(s, x) == s.insert(idx, x),
    decreases s.len(),
{
    if s.len() == 0 {
        assert(insert_by_title(s, x) =~= s.insert(0, x));
    } else if idx == 0 {
        assert(insert_by_title(s, x) =~= s.insert(0, x));
    } else {
        assert(s[0] == s[0]);
        lemma_insert_at(s.drop_first(), x, idx - 1);
        assert(seq![s[0]] + s.drop_first().insert(idx - 1, x) =~= s.insert(idx, x));
    }
}

/// Collects the editor panes of a manifest and sorts them by title.
pub fn extract_editor_pane_metadata(manifest: &PaneManifest) -> (r: Vec<PaneMetadata>)
    ensures
        panes_view(r@) == sort_by_title(manifest_editors(manifest.panes@)),
{
    let mut collected: Vec<PaneMetadata> = Vec::new();
    let rows = &manifest.panes;
    let mut i: usize = 0;
    proof {
        assert(manifest_editors(rows@.take(0)) =~= Seq::<PaneMetadataModel>::empty());
        assert(panes_view(collected@) =~= Seq::<PaneMetadataModel>::empty());
    }
    while i < rows.len()
        invariant
            i <= rows@.len(),
            panes_view(collected@) == manifest_editors(rows@.take(i as int)),
        decreases rows@.len() - i,
    {
        let row = &rows[i].1;
        let ghost before = panes_view(collected@);
        let mut j: usize = 0;
        proof {
            assert(row@.take(0).filter(|p: PaneInfo| is_editor_pane_spec(p)) =~= Seq::<
                PaneInfo,
            >::empty());
            assert(before + row_editors(row@.take(0)) =~= before);
        }
        while j < row.len()
            invariant
                j <= row@.len(),
                row@ == rows@[i as int].1@,
                i < rows@.len(),
                panes_view(collected@) == before + row_editors(row@.take(j as int)),
            decreases row@.len() - j,
        {
            let p = &row[j];
            proof {
                reveal_with_fuel(Seq::filter, 2);
                assert(row@.take(j + 1 as int).drop_last() =~= row@.take(j as int));
                assert(row@.take(j + 1 as int).last() == row@[j as int]);
            }
            if is_editor_pane(p) {
                let id = if p.is_plugin {
                    PaneId::Plugin(p.id)
                } else {
                    PaneId::Terminal(p.id)
                };
                collected.push(PaneMetadata { id, title: p.title.clone() });
                proof {
                    assert(panes_view(collected@) =~= panes_view(collected@.drop_last()) + seq![
                        pane_meta(row@[j as int]),
                    ]);
                    assert(row_editors(row@.take(j + 1 as int)) =~= row_editors(
                        row@.take(j as int),
                    ) + seq![pane_meta(row@[j as int])]);
                    assert(before + (row_editors(row@.take(j as int)) + seq![
                        pane_meta(row@[j as int]),
                    ]) =~= (before + row_editors(row@.take(j as int))) + seq![
                        pane_meta(row@[j as int]),
                    ]);
                }
            } else {
                proof {
                    assert(row_editors(row@.take(j + 1 as int)) =~= row_editors(
                        row@.take(j as int),
                    ));
                }
            }
            j = j + 1;
        }
        proof {
            assert(row@.take(row@.len() as int) =~= row@);
            lemma_manifest_editors_take(rows@, i as int);
        }
        i = i + 1;
    }
    proof {
        assert(rows@.take(rows@.len() as int) =~= rows@);
    }
    let mut sorted: Vec<PaneMetadata> = Vec::new();
    let mut k: usize = 0;
    proof {
        assert(panes_view(collected@).take(0) =~= Seq::<PaneMetadataModel>::empty());
        assert(sort_by_title(panes_view(collected@).take(0)) =~= Seq::<PaneMetadataModel>::empty());
        assert(panes_view(sorted@) =~= Seq::<PaneMetadataModel>::empty());
    }
    while k < collected.len()
        invariant
            k <= collected@.len(),
            panes_view(sorted@) == sort_by_title(panes_view(collected@).take(k as int)),
        decreases collected@.len() - k,
    {
        let x = collected[k].clone();
        proof {
            assert(panes_view(collected@).take(k + 1 as int).drop_last() =~= panes_view(
                collected@,
            ).take(k as int));
            assert(panes_view(collected@).take(k + 1 as int).last() == collected@[k as int]@);
        }
        insert_pane_sorted(&mut sorted, x);
        k = k + 1;
    }
    proof {
        assert(panes_view(collected@).take(collected@.len() as int) =~= panes_view(collected@));
    }
    sorted
}

/// Peeling one row off the front of the take matches one recursion step.
proof fn lemma_manifest_editors_take(rows: Seq<(usize, Vec<PaneInfo>)>, i: int)
    requires
        0 <= i < rows.len(),
    ensures
        manifest_editors(rows.take(i + 1)) == manifest_editors(rows.take(i)) + row_editors(
            rows[i].1@,
        ),
    decreases i,
{
    if i == 0 {
        assert(rows.take(1)[0] == rows[0]);
        assert(rows.take(1).drop_first() =~= rows.take(0));
        assert(manifest_editors(rows.take(0)) =~= Seq::<PaneMetadataModel>::empty());
        assert(manifest_editors(rows.take(1)) =~= row_editors(rows[0].1@));
    } else {
        lemma_manifest_editors_take(rows.drop_first(), i - 1);
        assert(rows.take(i + 1)[0] == rows[0]);
        assert(rows.take(i + 1).drop_first() =~= rows.drop_first().take(i));
        assert(rows.take(i)[0] == rows[0]);
        assert(rows.take(i).drop_first() =~= rows.drop_first().take(i - 1));
        assert(rows.drop_first()[i - 1] == rows[i]);
        assert(row_editors(rows[0].1@) + (manifest_editors(rows.drop_first().take(i - 1))
            + row_editors(rows[i].1@)) =~= (row_editors(rows[0].1@) + manifest_editors(
            rows.drop_first().take(i - 1),
        )) + row_editors(rows[i].1@));
    }
}

} // verus!
