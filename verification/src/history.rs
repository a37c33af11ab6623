//! Shell history: the entry and deduplicated-command data contract, and
//! the deduplication pass that folds repeated commands together.

use vstd::prelude::*;

verus! {

use vstd::pervasive::VecAdditionalExecFns;

broadcast use vstd::std_specs::vec::group_vec_axioms;

/// One raw history entry as a shell history file records it.
#[derive(Debug)]
pub struct HistoryEntry {
    pub command: String,
    pub timestamp: Option<u64>,
    pub duration: Option<u64>,
    pub working_directory: Option<String>,
    pub exit_code: Option<i32>,
}

/// The mathematical model of a [`HistoryEntry`].
pub struct HistoryEntryModel {
    pub command: Seq<char>,
    pub timestamp: Option<u64>,
    pub duration: Option<u64>,
    pub working_directory: Option<Seq<char>>,
    pub exit_code: Option<i32>,
}

impl View for HistoryEntry {
    type V = HistoryEntryModel;

    open spec fn view(&self) -> HistoryEntryModel {
        HistoryEntryModel {
            command: self.command@,
            timestamp: self.timestamp,
            duration: self.duration,
            working_directory: match self.working_directory {
                Some(ref d) => Some(d@),
                None => None,
            },
            exit_code: self.exit_code,
        }
    }
}

impl Clone for HistoryEntry {
    /// Clones an entry; the copy has the same model.
    fn clone(&self) -> (r: Self)
        ensures
            r@ == self@,
    {
        HistoryEntry {
            command: self.command.clone(),
            timestamp: self.timestamp,
            duration: self.duration,
            working_directory: match &self.working_directory {
                Some(d) => Some(d.clone()),
                None => None,
            },
            exit_code: self.exit_code,
        }
    }
}

/// One deduplicated command: its text, every folder it ran in, its most
/// recent execution timestamp, and how often it ran.
#[derive(Debug)]
pub struct DeduplicatedCommand {
    pub command: String,
    pub folders: Vec<String>,
    pub latest_timestamp: Option<u64>,
    pub total_executions: usize,
}

/// The mathematical model of a [`DeduplicatedCommand`].
pub struct DedupCommandModel {
    pub command: Seq<char>,
    pub folders: Seq<Seq<char>>,
    pub latest_timestamp: Option<u64>,
    pub total_executions: usize,
}

impl View for DeduplicatedCommand {
    type V = DedupCommandModel;

    open spec fn view(&self) -> DedupCommandModel {
        DedupCommandModel {
            command: self.command@,
            folders: folders_view(self.folders@),
            latest_timestamp: self.latest_timestamp,
            total_executions: self.total_executions,
        }
    }
}

impl Clone for DeduplicatedCommand {
    /// Clones a command; the copy has the same model.
    fn clone(&self) -> (r: Self)
        ensures
            r@ == self@,
    {
        let mut folders: Vec<String> = Vec::new();
        let mut i: usize = 0;
        while i < self.folders.len()
            invariant
                i <= self.folders@.len(),
                folders_view(folders@) == folders_view(self.folders@).take(i as int),
            decreases self.folders@.len() - i,
        {
            let ghost fprev = folders@;
            let x = self.folders[i].clone();
            proof {
                assert(x@ == self.folders@[i as int]@);
            }
            folders.push(x);
            proof {
                assert(fprev.len() == folders_view(fprev).len());
                assert(folders_view(fprev).len() == folders_view(self.folders@).take(
                    i as int,
                ).len());
                assert(fprev.len() == i as int);
                assert(folders@ == fprev.push(x));
                assert(folders@.len() == i + 1);
                assert forall|k: int| 0 <= k < i + 1 implies folders_view(folders@)[k]
                    == folders_view(self.folders@).take(i + 1 as int)[k] by {
                    assert(folders_view(folders@)[k] == folders@[k]@);
                    if k < i {
                        assert(folders@[k] == fprev[k]);
                        assert(folders_view(fprev)[k] == folders_view(self.folders@).take(
                            i as int,
                        )[k]);
                    }
                }
                assert(folders_view(folders@) =~= folders_view(self.folders@).take(
                    i + 1 as int,
                ));
            }
            i = i + 1;
        }
        proof {
            assert(folders_view(self.folders@).take(self.folders@.len() as int) =~= folders_view(
                self.folders@,
            ));
        }
        DeduplicatedCommand {
            command: self.command.clone(),
            folders,
            latest_timestamp: self.latest_timestamp,
            total_executions: self.total_executions,
        }
    }
}

/// The views of a list of folder names.
pub open spec fn folders_view(v: Seq<String>) -> Seq<Seq<char>> {
    v.map_values(|f: String| f@)
}

/// The views of a sequence of entries.
pub open spec fn entries_view(v: Seq<HistoryEntry>) -> Seq<HistoryEntryModel> {
    v.map_values(|e: HistoryEntry| e@)
}

/// The views of a sequence of deduplicated commands.
pub open spec fn cmds_view(v: Seq<DeduplicatedCommand>) -> Seq<DedupCommandModel> {
    v.map_values(|c: DeduplicatedCommand| c@)
}

/// The folder an entry counts for: its recorded working directory, or the
/// `unknown` placeholder.
pub open spec fn entry_dir(e: HistoryEntryModel) -> Seq<char> {
    match e.working_directory {
        Some(d) => d,
        None => "unknown"@,
    }
}

/// The first index at which `acc` already holds this command, or `-1`.
pub open spec fn find_cmd(acc: Seq<DedupCommandModel>, cmd: Seq<char>) -> int
    decreases acc.len(),
{
    if acc.len() == 0 {
        -1
    } else if acc[0].command == cmd {
        0
    } else {
        let r = find_cmd(acc.drop_first(), cmd);
        if r == -1 {
            -1
        } else {
            r + 1
        }
    }
}

/// The later of two optional timestamps; a present timestamp always wins
/// over an absent one.
pub open spec fn ts_max(a: Option<u64>, b: Option<u64>) -> Option<u64> {
    match (a, b) {
        (Some(x), Some(y)) => if y > x {
            Some(y)
        } else {
            Some(x)
        },
        (None, Some(y)) => Some(y),
        _ => a,
    }
}

/// Folds one more execution of an already-known command into its record:
/// a fresh folder is appended, the timestamp is raised to the latest, and
/// the execution count grows (saturating).
pub open spec fn merge_entry(c: DedupCommandModel, e: HistoryEntryModel) -> DedupCommandModel {
    DedupCommandModel {
        command: c.command,
        folders: if c.folders.contains(entry_dir(e)) {
            c.folders
        } else {
            c.folders.push(entry_dir(e))
        },
        latest_timestamp: ts_max(c.latest_timestamp, e.timestamp),
        total_executions: if c.total_executions < usize::MAX {
            (c.total_executions + 1) as usize
        } else {
            c.total_executions
        },
    }
}

/// A first record for a command not seen before.
pub open spec fn fresh_record(e: HistoryEntryModel) -> DedupCommandModel {
    DedupCommandModel {
        command: e.command,
        folders: seq![entry_dir(e)],
        latest_timestamp: e.timestamp,
        total_executions: 1,
    }
}

/// One deduplication step: a known command is merged in place, an unknown
/// one appended, so first-seen order is kept.
pub open spec fn dedup_step(acc: Seq<DedupCommandModel>, e: HistoryEntryModel) -> Seq<
    DedupCommandModel,
> {
    let i = find_cmd(acc, e.command);
    if i == -1 {
        acc.push(fresh_record(e))
    } else {
        acc.update(i, merge_entry(acc[i], e))
    }
}

/// The deduplicated command list of a run of entries, in first-seen order.
pub open spec fn spec_dedup(entries: Seq<HistoryEntryModel>) -> Seq<DedupCommandModel>
    decreases entries.len(),
{
    if entries.len() == 0 {
        Seq::empty()
    } else {
        dedup_step(spec_dedup(entries.drop_last()), entries.last())
    }
}

/// An ASCII whitespace character, as line trimming understands it.
pub open spec fn is_ws(c: char) -> bool {
    c == ' ' || c == '\t' || c == '\r' || c == '\n'
}

/// A sequence with its leading whitespace dropped.
pub open spec fn trim_start(s: Seq<char>) -> Seq<char>
    decreases s.len(),
{
    if s.len() > 0 && is_ws(s[0]) {
        trim_start(s.drop_first())
    } else {
        s
    }
}

/// A sequence with its trailing whitespace dropped.
pub open spec fn trim_end(s: Seq<char>) -> Seq<char>
    decreases s.len(),
{
    if s.len() > 0 && is_ws(s.last()) {
        trim_end(s.drop_last())
    } else {
        s
    }
}

/// A sequence with whitespace dropped at both ends.
pub open spec fn trim_chars(s: Seq<char>) -> Seq<char> {
    trim_end(trim_start(s))
}

/// The index of the first newline at or after `i`, or the length.
pub open spec fn line_end_at(s: Seq<char>, i: int) -> int
    decreases s.len() - i when 0 <= i <= s.len()
{
    if i < s.len() && s[i] != '\n' {
        line_end_at(s, i + 1)
    } else {
        i
    }
}

proof fn lemma_line_end_at(s: Seq<char>, i: int)
    requires
        0 <= i <= s.len(),
    ensures
        i <= line_end_at(s, i) <= s.len(),
        forall|k: int| i <= k < line_end_at(s, i) ==> s[k] != '\n',
        line_end_at(s, i) < s.len() ==> s[line_end_at(s, i)] == '\n',
    decreases s.len() - i,
{
    if i < s.len() && s[i] != '\n' {
        lemma_line_end_at(s, i + 1);
    }
}

proof fn lemma_line_end_pin(s: Seq<char>, i: int, j: int)
    requires
        0 <= i <= j <= s.len(),
        forall|k: int| i <= k < j ==> s[k] != '\n',
        j == s.len() || s[j] == '\n',
    ensures
        line_end_at(s, i) == j,
    decreases j - i,
{
    if i < j {
        lemma_line_end_pin(s, i + 1, j);
    }
}

/// The lines of a text, split at newlines: each line loses one trailing
/// carriage return, and a trailing newline opens no further line.
pub open spec fn std_lines(s: Seq<char>) -> Seq<Seq<char>>
    decreases s.len() via std_lines_dec
{
    if s.len() == 0 {
        Seq::empty()
    } else {
        let le = line_end_at(s, 0);
        let raw = s.subrange(0, le);
        let line = if raw.len() > 0 && raw.last() == '\r' {
            raw.drop_last()
        } else {
            raw
        };
        let rest = if le + 1 <= s.len() {
            le + 1
        } else {
            s.len() as int
        };
        if rest == s.len() && le == s.len() {
            seq![line]
        } else {
            seq![line] + std_lines(s.subrange(rest, s.len() as int))
        }
    }
}

#[via_fn]
proof fn std_lines_dec(s: Seq<char>) {
    if s.len() > 0 {
        lemma_line_end_at(s, 0);
    }
}

/// Splits a text into its lines.
pub fn std_lines_exec(content: &str) -> (r: Vec<String>)
    ensures
        r@.map_values(|l: String| l@) == std_lines(content@),
{
    let chars = crate::text::chars_vec(content);
    let n = chars.len();
    let mut lines: Vec<String> = Vec::new();
    let mut pos: usize = 0;
    proof {
        assert(lines@.map_values(|l: String| l@) =~= Seq::<Seq<char>>::empty());
        assert(content@.skip(0) =~= content@);
        assert(Seq::<Seq<char>>::empty() + std_lines(content@) =~= std_lines(content@));
    }
    loop
        invariant_except_break
            pos <= n,
            n == chars@.len(),
            chars@ == content@,
            lines@.map_values(|l: String| l@) + std_lines(content@.skip(pos as int)) == std_lines(
                content@,
            ),
        ensures
            lines@.map_values(|l: String| l@) == std_lines(content@),
        decreases n - pos,
    {
        if pos >= n {
            proof {
                assert(content@.skip(pos as int).len() == 0);
                assert(std_lines(content@.skip(pos as int)) =~= Seq::<Seq<char>>::empty());
                assert(lines@.map_values(|l: String| l@) + Seq::<Seq<char>>::empty()
                    =~= lines@.map_values(|l: String| l@));
            }
            break;
        }
        let ghost rest = content@.skip(pos as int);
        let mut le: usize = pos;
        while le < n && chars[le] != '\n'
            invariant
                pos <= le <= n,
                n == chars@.len(),
                chars@ == content@,
                forall|k: int| pos <= k < le ==> content@[k] != '\n',
            decreases n - le,
        {
            le = le + 1;
        }
        proof {
            assert forall|k: int| 0 <= k < le - pos implies rest[k] != '\n' by {
                assert(rest[k] == content@[pos + k]);
            }
            if le < n {
                assert(rest[le - pos] == content@[le as int]);
            }
            lemma_line_end_pin(rest, 0, le - pos);
        }
        let mut stop = le;
        if le > pos && chars[le - 1] == '\r' {
            stop = le - 1;
        }
        let mut seg: Vec<char> = Vec::new();
        let mut i: usize = pos;
        while i < stop
            invariant
                pos <= i <= stop <= n,
                n == chars@.len(),
                chars@ == content@,
                seg@ == content@.subrange(pos as int, i as int),
            decreases stop - i,
        {
            seg.push(chars[i]);
            proof {
                assert(content@.subrange(pos as int, i + 1 as int) =~= content@.subrange(
                    pos as int,
                    i as int,
                ).push(content@[i as int]));
            }
            i = i + 1;
        }
        let ghost lprev = lines@.map_values(|l: String| l@);
        lines.push(crate::text::string_from_chars(&seg));
        proof {
            let raw = rest.subrange(0, le - pos);
            assert(raw =~= content@.subrange(pos as int, le as int));
            if le > pos && content@[le - 1] == '\r' {
                assert(raw.last() == content@[le - 1]);
                assert(raw.drop_last() =~= content@.subrange(pos as int, stop as int));
            }
            assert(seg@ == (if raw.len() > 0 && raw.last() == '\r' {
                raw.drop_last()
            } else {
                raw
            }));
            assert(lines@.map_values(|l: String| l@) =~= lprev.push(seg@));
        }
        if le >= n {
            proof {
                let raw = rest.subrange(0, le - pos);
                assert(std_lines(rest) == seq![seg@]);
                assert(lprev + seq![seg@] =~= lprev.push(seg@));
            }
            break;
        }
        proof {
            let raw = rest.subrange(0, le - pos);
            assert(rest.subrange(le - pos + 1, rest.len() as int) =~= content@.skip(
                le + 1 as int,
            ));
            assert(std_lines(rest) == seq![seg@] + std_lines(content@.skip(le + 1 as int)));
            assert(lprev + (seq![seg@] + std_lines(content@.skip(le + 1 as int))) =~= lprev.push(
                seg@,
            ) + std_lines(content@.skip(le + 1 as int)));
        }
        pos = le + 1;
    }
    lines
}

proof fn lemma_trim_start(s: Seq<char>)
    ensures
        trim_start(s).len() <= s.len(),
        trim_start(s) == s.skip(s.len() - trim_start(s).len()),
        forall|k: int| 0 <= k < s.len() - trim_start(s).len() ==> is_ws(s[k]),
        trim_start(s).len() > 0 ==> !is_ws(trim_start(s)[0]),
    decreases s.len(),
{
    if s.len() > 0 && is_ws(s[0]) {
        lemma_trim_start(s.drop_first());
        assert(s.drop_first().skip(s.drop_first().len() - trim_start(s).len()) =~= s.skip(
            s.len() - trim_start(s).len(),
        ));
        assert forall|k: int| 0 <= k < s.len() - trim_start(s).len() implies is_ws(s[k]) by {
            if k > 0 {
                assert(s[k] == s.drop_first()[k - 1]);
            }
        }
    } else {
        assert(s.skip(0) =~= s);
    }
}

proof fn lemma_trim_end(s: Seq<char>)
    ensures
        trim_end(s).len() <= s.len(),
        trim_end(s) == s.take(trim_end(s).len() as int),
        forall|k: int| trim_end(s).len() <= k < s.len() ==> is_ws(s[k]),
        trim_end(s).len() > 0 ==> !is_ws(trim_end(s).last()),
    decreases s.len(),
{
    if s.len() > 0 && is_ws(s.last()) {
        lemma_trim_end(s.drop_last());
        assert(s.drop_last().take(trim_end(s).len() as int) =~= s.take(trim_end(s).len() as int));
        assert forall|k: int| trim_end(s).len() <= k < s.len() implies is_ws(s[k]) by {
            if k < s.len() - 1 {
                assert(s[k] == s.drop_last()[k]);
            }
        }
    } else {
        assert(s.take(s.len() as int) =~= s);
    }
}

proof fn lemma_trim_start_pin(s: Seq<char>, i: int)
    requires
        0 <= i <= s.len(),
        forall|k: int| 0 <= k < i ==> is_ws(s[k]),
        i == s.len() || !is_ws(s[i]),
    ensures
        trim_start(s) == s.skip(i),
    decreases i,
{
    if i > 0 {
        lemma_trim_start_pin(s.drop_first(), i - 1);
        assert(s.drop_first().skip(i - 1) =~= s.skip(i));
    } else {
        if !(s.len() > 0 && is_ws(s[0])) {
            assert(s.skip(0) =~= s);
        }
    }
}

proof fn lemma_trim_end_pin(s: Seq<char>, j: int)
    requires
        0 <= j <= s.len(),
        forall|k: int| j <= k < s.len() ==> is_ws(s[k]),
        j == 0 || !is_ws(s[j - 1]),
    ensures
        trim_end(s) == s.take(j),
    decreases s.len(),
{
    if s.len() > 0 && is_ws(s.last()) {
        assert(j < s.len());
        lemma_trim_end_pin(s.drop_last(), j);
        assert(s.drop_last().take(j) =~= s.take(j));
    } else {
        assert(j == s.len());
        assert(s.take(s.len() as int) =~= s);
    }
}

/// Trims whitespace from both ends of a string's characters.
pub fn trim_exec(s: &str) -> (r: Vec<char>)
    ensures
        r@ == trim_chars(s@),
{
    let chars = crate::text::chars_vec(s);
    let n = chars.len();
    let mut start: usize = 0;
    while start < n && (chars[start] == ' ' || chars[start] == '\t' || chars[start] == '\r'
        || chars[start] == '\n')
        invariant
            start <= n,
            n == chars@.len(),
            chars@ == s@,
            forall|k: int| 0 <= k < start ==> is_ws(s@[k]),
        decreases n - start,
    {
        start = start + 1;
    }
    proof {
        lemma_trim_start_pin(s@, start as int);
    }
    let mut stop: usize = n;
    while stop > start && (chars[stop - 1] == ' ' || chars[stop - 1] == '\t' || chars[stop - 1]
        == '\r' || chars[stop - 1] == '\n')
        invariant
            start <= stop <= n,
            n == chars@.len(),
            chars@ == s@,
            forall|k: int| stop <= k < n ==> is_ws(s@[k]),
        decreases stop,
    {
        stop = stop - 1;
    }
    proof {
        let mid = s@.skip(start as int);
        assert forall|k: int| stop - start <= k < mid.len() implies is_ws(mid[k]) by {
            assert(mid[k] == s@[start + k]);
        }
        if stop > start {
            assert(mid[stop - start - 1] == s@[stop - 1]);
            assert(!is_ws(s@[stop - 1]));
        }
        lemma_trim_end_pin(mid, stop - start);
    }
    let mut out: Vec<char> = Vec::new();
    let mut i: usize = start;
    while i < stop
        invariant
            start <= i <= stop <= n,
            n == chars@.len(),
            chars@ == s@,
            out@ == s@.subrange(start as int, i as int),
        decreases stop - i,
    {
        out.push(chars[i]);
        proof {
            assert(s@.subrange(start as int, i + 1 as int) =~= s@.subrange(
                start as int,
                i as int,
            ).push(s@[i as int]));
        }
        i = i + 1;
    }
    proof {
        assert(s@.skip(start as int).take(stop - start) =~= s@.subrange(
            start as int,
            stop as int,
        ));
    }
    out
}

/// The numeric value of a run of decimal digits.
pub open spec fn digits_val(s: Seq<char>) -> int
    decreases s.len(),
{
    if s.len() == 0 {
        0
    } else {
        digits_val(s.drop_last()) * 10 + (s.last() as u32 - 48)
    }
}

/// A decimal digit.
pub open spec fn is_digit(c: char) -> bool {
    48 <= c as u32 && c as u32 <= 57
}

/// The digits of an unsigned decimal literal: everything after one
/// optional leading plus sign.
pub open spec fn u64_body(s: Seq<char>) -> Seq<char> {
    if s.len() > 0 && s[0] == '+' {
        s.drop_first()
    } else {
        s
    }
}

/// What `str::parse::<u64>` returns: the value of a non-empty all-digit
/// body (after one optional `+`) that fits in the type.
pub open spec fn spec_parse_u64(s: Seq<char>) -> Option<u64> {
    let body = u64_body(s);
    if body.len() > 0 && (forall|k: int| 0 <= k < body.len() ==> is_digit(body[k]))
        && digits_val(body) <= u64::MAX {
        Some(digits_val(body) as u64)
    } else {
        None
    }
}

proof fn lemma_digits_nonneg(s: Seq<char>)
    requires
        forall|k: int| 0 <= k < s.len() ==> is_digit(s[k]),
    ensures
        digits_val(s) >= 0,
    decreases s.len(),
{
    if s.len() > 0 {
        lemma_digits_nonneg(s.drop_last());
    }
}

proof fn lemma_digits_monotone(s: Seq<char>, i: int)
    requires
        0 <= i <= s.len(),
        forall|k: int| 0 <= k < s.len() ==> is_digit(s[k]),
    ensures
        digits_val(s) >= digits_val(s.take(i)),
    decreases s.len() - i,
{
    if i < s.len() {
        lemma_digits_monotone(s, i + 1);
        assert(s.take(i + 1).drop_last() =~= s.take(i));
        assert(s.take(i + 1).last() == s[i]);
        lemma_digits_nonneg(s.take(i));
    } else {
        assert(s.take(i) =~= s);
    }
}

/// Parses an unsigned decimal literal with one optional leading plus.
pub fn parse_u64_chars(v: &Vec<char>) -> (r: Option<u64>)
    ensures
        r == spec_parse_u64(v@),
{
    let ghost body = u64_body(v@);
    let start: usize = if v.len() > 0 && v[0] == '+' {
        1
    } else {
        0
    };
    proof {
        if start == 1 {
            assert(body =~= v@.skip(1));
        } else {
            assert(body =~= v@);
        }
    }
    if v.len() == start {
        return None;
    }
    let mut val: u64 = 0;
    let mut i: usize = start;
    while i < v.len()
        invariant
            start <= i <= v.len(),
            body == u64_body(v@),
            body.len() == v@.len() - start,
            forall|k: int| start <= k < i ==> is_digit(v@[k]),
            forall|k: int| 0 <= k < i - start ==> is_digit(body[k]),
            val as int == digits_val(body.take(i - start)),
        decreases v.len() - i,
    {
        let c = v[i];
        let u = c as u32;
        if !(48 <= u && u <= 57) {
            proof {
                assert(body[i - start] == v@[i as int]);
                assert(!is_digit(body[i - start]));
            }
            return None;
        }
        let d: u64 = (u - 48) as u64;
        proof {
            assert(body[i - start] == v@[i as int]);
            assert(body.take(i - start + 1).drop_last() =~= body.take(i - start));
            assert(body.take(i - start + 1).last() == body[i - start]);
        }
        if val > (u64::MAX - d) / 10 {
            proof {
                assert(digits_val(body.take(i - start + 1)) == val as int * 10 + d);
                assert(val as int * 10 + d > u64::MAX) by (nonlinear_arith)
                    requires
                        val as int > (u64::MAX as int - d) / 10,
                        0 <= d <= 9,
                ;
                if forall|k: int| 0 <= k < body.len() ==> is_digit(body[k]) {
                    lemma_digits_monotone(body, i - start + 1);
                }
            }
            return None;
        }
        val = val * 10 + d;
        i = i + 1;
    }
    proof {
        assert(body.take(v@.len() - start) =~= body);
    }
    Some(val)
}

/// An entry carrying only a command and an optional timestamp.
pub open spec fn basic_entry(cmd: Seq<char>, ts: Option<u64>) -> HistoryEntryModel {
    HistoryEntryModel {
        command: cmd,
        timestamp: ts,
        duration: None,
        working_directory: None,
        exit_code: None,
    }
}

/// The index of the first occurrence of `c` at or after `i`, or the
/// length.
pub open spec fn find_char_at(s: Seq<char>, i: int, c: char) -> int
    decreases s.len() - i when 0 <= i <= s.len()
{
    if i < s.len() && s[i] != c {
        find_char_at(s, i + 1, c)
    } else {
        i
    }
}

proof fn lemma_find_char_props(s: Seq<char>, i: int, c: char)
    requires
        0 <= i <= s.len(),
    ensures
        i <= find_char_at(s, i, c) <= s.len(),
        forall|k: int| i <= k < find_char_at(s, i, c) ==> s[k] != c,
        find_char_at(s, i, c) < s.len() ==> s[find_char_at(s, i, c)] == c,
    decreases s.len() - i,
{
    if i < s.len() && s[i] != c {
        lemma_find_char_props(s, i + 1, c);
    }
}

proof fn lemma_find_char_pin(s: Seq<char>, i: int, j: int, c: char)
    requires
        0 <= i <= j <= s.len(),
        forall|k: int| i <= k < j ==> s[k] != c,
        j == s.len() || s[j] == c,
    ensures
        find_char_at(s, i, c) == j,
    decreases j - i,
{
    if i < j {
        lemma_find_char_pin(s, i + 1, j, c);
    }
}

/// Finds the first occurrence of `c` in the characters, or the length.
fn find_char_exec(v: &Vec<char>, c: char) -> (r: usize)
    ensures
        r == find_char_at(v@, 0, c),
        r <= v@.len(),
{
    let mut i: usize = 0;
    while i < v.len() && v[i] != c
        invariant
            i <= v.len(),
            forall|k: int| 0 <= k < i ==> v@[k] != c,
        decreases v.len() - i,
    {
        i = i + 1;
    }
    proof {
        lemma_find_char_pin(v@, 0, i as int, c);
    }
    i
}

/// The entries a basic (bash-style) history text yields from line `i`
/// on: blank lines vanish, a `#` line carrying a number is a timestamp
/// for the command on the following line, and any other line is a plain
/// command.
pub open spec fn spec_parse_basic_from(lines: Seq<Seq<char>>, i: int) -> Seq<HistoryEntryModel>
    decreases lines.len() - i when 0 <= i <= lines.len()
{
    if i >= lines.len() {
        Seq::empty()
    } else {
        let t = trim_chars(lines[i]);
        if t.len() == 0 {
            spec_parse_basic_from(lines, i + 1)
        } else if t[0] == '#' && spec_parse_u64(t.drop_first()) is Some {
            let ts = spec_parse_u64(t.drop_first()).unwrap();
            let head = if i + 1 < lines.len() {
                let cmd = trim_chars(lines[i + 1]);
                if cmd.len() > 0 {
                    seq![basic_entry(cmd, Some(ts))]
                } else {
                    Seq::empty()
                }
            } else {
                Seq::empty()
            };
            let next = if i + 2 <= lines.len() {
                i + 2
            } else {
                lines.len() as int
            };
            head + spec_parse_basic_from(lines, next)
        } else {
            seq![basic_entry(t, None)] + spec_parse_basic_from(lines, i + 1)
        }
    }
}

/// Parses a basic (bash-style) history text.
pub fn parse_basic_history(content: &str) -> (r: Vec<HistoryEntry>)
    ensures
        entries_view(r@) == spec_parse_basic_from(std_lines(content@), 0),
{
    let lines = std_lines_exec(content);
    let ghost lv = std_lines(content@);
    let n = lines.len();
    proof {
        assert(lines@.map_values(|l: String| l@).len() == lines@.len());
    }
    let mut out: Vec<HistoryEntry> = Vec::new();
    let mut i: usize = 0;
    proof {
        assert(entries_view(out@) + spec_parse_basic_from(lv, 0) =~= spec_parse_basic_from(
            lv,
            0,
        ));
    }
    while i < n
        invariant
            i <= n,
            n == lines@.len(),
            lv == std_lines(content@),
            lines@.map_values(|l: String| l@) == lv,
            entries_view(out@) + spec_parse_basic_from(lv, i as int) == spec_parse_basic_from(
                lv,
                0,
            ),
        decreases n - i,
    {
        let t = trim_exec(lines[i].as_str());
        proof {
            assert(lv[i as int] == lines@[i as int]@);
            assert(t@ == trim_chars(lv[i as int]));
        }
        if t.len() == 0 {
            proof {
                assert(spec_parse_basic_from(lv, i as int) == spec_parse_basic_from(
                    lv,
                    i + 1,
                ));
            }
            i = i + 1;
            continue ;
        }
        let mut handled = false;
        if t[0] == '#' {
            let digits = crate::text::chars_suffix(&t, 1);
            proof {
                assert(digits@ =~= t@.drop_first());
            }
            match parse_u64_chars(&digits) {
                Some(ts) => {
                    let ghost head_tail = spec_parse_basic_from(
                        lv,
                        if i + 2 <= lv.len() {
                            i + 2
                        } else {
                            lv.len() as int
                        },
                    );
                    if i + 1 < n {
                        let cmd = trim_exec(lines[i + 1].as_str());
                        proof {
                            assert(lv[i + 1] == lines@[i + 1]@);
                            assert(cmd@ == trim_chars(lv[i + 1]));
                        }
                        if cmd.len() > 0 {
                            let ghost oprev = entries_view(out@);
                            let e = HistoryEntry {
                                command: crate::text::string_from_chars(&cmd),
                                timestamp: Some(ts),
                                duration: None,
                                working_directory: None,
                                exit_code: None,
                            };
                            proof {
                                assert(e@ == basic_entry(trim_chars(lv[i + 1]), Some(ts)));
                            }
                            out.push(e);
                            proof {
                                assert(entries_view(out@) =~= oprev.push(
                                    basic_entry(trim_chars(lv[i + 1]), Some(ts)),
                                ));
                                assert(spec_parse_basic_from(lv, i as int) == seq![
                                    basic_entry(trim_chars(lv[i + 1]), Some(ts)),
                                ] + head_tail);
                                assert(oprev + (seq![
                                    basic_entry(trim_chars(lv[i + 1]), Some(ts)),
                                ] + head_tail) =~= entries_view(out@) + head_tail);
                            }
                        } else {
                            proof {
                                assert(spec_parse_basic_from(lv, i as int)
                                    =~= Seq::<HistoryEntryModel>::empty() + head_tail);
                                assert(Seq::<HistoryEntryModel>::empty() + head_tail
                                    =~= head_tail);
                            }
                        }
                    } else {
                        proof {
                            assert(spec_parse_basic_from(lv, i as int)
                                =~= Seq::<HistoryEntryModel>::empty() + head_tail);
                            assert(Seq::<HistoryEntryModel>::empty() + head_tail =~= head_tail);
                        }
                    }
                    if n - i >= 2 {
                        i = i + 2;
                    } else {
                        i = n;
                    }
                    handled = true;
                },
                None => {},
            }
        }
        if !handled {
            let ghost oprev = entries_view(out@);
            let ghost tm = trim_chars(lv[i as int]);
            let e = HistoryEntry {
                command: crate::text::string_from_chars(&t),
                timestamp: None,
                duration: None,
                working_directory: None,
                exit_code: None,
            };
            proof {
                assert(e@ == basic_entry(tm, None));
            }
            out.push(e);
            proof {
                assert(entries_view(out@) =~= oprev.push(basic_entry(tm, None)));
                assert(spec_parse_basic_from(lv, i as int) == seq![basic_entry(tm, None)]
                    + spec_parse_basic_from(lv, i + 1));
                assert(oprev + (seq![basic_entry(tm, None)] + spec_parse_basic_from(lv, i + 1))
                    =~= entries_view(out@) + spec_parse_basic_from(lv, i + 1));
            }
            i = i + 1;
        }
    }
    proof {
        assert(spec_parse_basic_from(lv, n as int) =~= Seq::<HistoryEntryModel>::empty());
        assert(entries_view(out@) + Seq::<HistoryEntryModel>::empty() =~= entries_view(out@));
    }
    out
}

/// The entries one line of an extended zsh history yields: a line of the
/// `: timestamp:duration;command` shape carries both numbers; any other
/// non-blank line is a plain command.
pub open spec fn spec_parse_zsh_line(line: Seq<char>) -> Seq<HistoryEntryModel> {
    let t = trim_chars(line);
    if t.len() == 0 {
        Seq::empty()
    } else if crate::text::matches_at(t, ": "@, 0) {
        let semi = find_char_at(t, 0, ';');
        if semi < t.len() {
            let part = t.subrange(2, semi);
            let colon = find_char_at(part, 0, ':');
            let ts = if colon < part.len() {
                spec_parse_u64(part.take(colon))
            } else {
                spec_parse_u64(part)
            };
            let dur = if colon < part.len() {
                spec_parse_u64(part.skip(colon + 1))
            } else {
                None
            };
            let cmd = t.skip(semi + 1);
            if cmd.len() > 0 {
                seq![
                    HistoryEntryModel {
                        command: cmd,
                        timestamp: ts,
                        duration: dur,
                        working_directory: None,
                        exit_code: None,
                    },
                ]
            } else {
                Seq::empty()
            }
        } else {
            Seq::empty()
        }
    } else {
        seq![basic_entry(t, None)]
    }
}

/// The entries a zsh history text yields from line `i` on.
pub open spec fn spec_parse_zsh_from(lines: Seq<Seq<char>>, i: int) -> Seq<HistoryEntryModel>
    decreases lines.len() - i when 0 <= i <= lines.len()
{
    if i >= lines.len() {
        Seq::empty()
    } else {
        spec_parse_zsh_line(lines[i]) + spec_parse_zsh_from(lines, i + 1)
    }
}

/// Parses an extended zsh history text.
pub fn parse_zsh_history(content: &str) -> (r: Vec<HistoryEntry>)
    ensures
        entries_view(r@) == spec_parse_zsh_from(std_lines(content@), 0),
{
    let lines = std_lines_exec(content);
    let ghost lv = std_lines(content@);
    let n = lines.len();
    proof {
        assert(lines@.map_values(|l: String| l@).len() == lines@.len());
    }
    let mut out: Vec<HistoryEntry> = Vec::new();
    let mut i: usize = 0;
    proof {
        assert(entries_view(out@) + spec_parse_zsh_from(lv, 0) =~= spec_parse_zsh_from(lv, 0));
    }
    while i < n
        invariant
            i <= n,
            n == lines@.len(),
            lv == std_lines(content@),
            lines@.map_values(|l: String| l@) == lv,
            entries_view(out@) + spec_parse_zsh_from(lv, i as int) == spec_parse_zsh_from(lv, 0),
        decreases n - i,
    {
        let ghost oprev = entries_view(out@);
        let ghost head = spec_parse_zsh_line(lv[i as int]);
        proof {
            assert(lv[i as int] == lines@[i as int]@);
            assert(spec_parse_zsh_from(lv, i as int) == head + spec_parse_zsh_from(lv, i + 1));
        }
        let t = trim_exec(lines[i].as_str());
        proof {
            assert(t@ == trim_chars(lv[i as int]));
        }
        if t.len() == 0 {
            proof {
                assert(head =~= Seq::<HistoryEntryModel>::empty());
                assert(oprev + (head + spec_parse_zsh_from(lv, i + 1)) =~= oprev
                    + spec_parse_zsh_from(lv, i + 1));
            }
            i = i + 1;
            continue ;
        }
        let prefix = crate::text::chars_vec(": ");
        proof {
            reveal_strlit(": ");
            assert(prefix@.len() == 2);
        }
        if t.len() >= 2 && crate::text::matches_at_exec(&t, &prefix, 0) {
            let semi = find_char_exec(&t, ';');
            proof {
                lemma_find_char_props(t@, 0, ';');
                assert(t@.subrange(0, 2)[0] == t@[0]);
                assert(t@.subrange(0, 2)[1] == t@[1]);
                assert(": "@[0] == ':' && ": "@[1] == ' ');
                assert(semi >= 2) by {
                    if semi < 2 {
                        assert(t@[semi as int] == ';');
                    }
                }
            }
            if semi < t.len() {
                let part = crate::text::chars_suffix(&t, 2);
                let mut part_trunc: Vec<char> = part;
                part_trunc.truncate(semi - 2);
                proof {
                    assert(part_trunc@ =~= t@.subrange(2, semi as int));
                }
                let ghost pv = t@.subrange(2, semi as int);
                let colon = find_char_exec(&part_trunc, ':');
                let ts: Option<u64>;
                let dur: Option<u64>;
                if colon < part_trunc.len() {
                    let mut head_part: Vec<char> = Vec::new();
                    let mut k: usize = 0;
                    while k < colon
                        invariant
                            k <= colon <= part_trunc@.len(),
                            part_trunc@ == pv,
                            head_part@ == pv.take(colon as int).take(k as int),
                        decreases colon - k,
                    {
                        head_part.push(part_trunc[k]);
                        proof {
                            assert(pv.take(colon as int).take(k + 1 as int) =~= pv.take(
                                colon as int,
                            ).take(k as int).push(pv[k as int]));
                        }
                        k = k + 1;
                    }
                    proof {
                        assert(pv.take(colon as int).take(colon as int) =~= pv.take(
                            colon as int,
                        ));
                    }
                    let tail_part = crate::text::chars_suffix(&part_trunc, colon + 1);
                    proof {
                        assert(tail_part@ =~= pv.skip(colon + 1));
                    }
                    ts = parse_u64_chars(&head_part);
                    dur = parse_u64_chars(&tail_part);
                } else {
                    ts = parse_u64_chars(&part_trunc);
                    dur = None;
                }
                let cmd = crate::text::chars_suffix(&t, semi + 1);
                proof {
                    assert(cmd@ =~= t@.skip(semi + 1));
                }
                if cmd.len() > 0 {
                    let e = HistoryEntry {
                        command: crate::text::string_from_chars(&cmd),
                        timestamp: ts,
                        duration: dur,
                        working_directory: None,
                        exit_code: None,
                    };
                    proof {
                        assert(head =~= seq![e@]);
                    }
                    out.push(e);
                    proof {
                        assert(entries_view(out@) =~= oprev.push(e@));
                        assert(oprev + (head + spec_parse_zsh_from(lv, i + 1))
                            =~= entries_view(out@) + spec_parse_zsh_from(lv, i + 1));
                    }
                } else {
                    proof {
                        assert(head =~= Seq::<HistoryEntryModel>::empty());
                        assert(oprev + (head + spec_parse_zsh_from(lv, i + 1)) =~= oprev
                            + spec_parse_zsh_from(lv, i + 1));
                    }
                }
            } else {
                proof {
                    assert(head =~= Seq::<HistoryEntryModel>::empty());
                    assert(oprev + (head + spec_parse_zsh_from(lv, i + 1)) =~= oprev
                        + spec_parse_zsh_from(lv, i + 1));
                }
            }
        } else {
            let e = HistoryEntry {
                command: crate::text::string_from_chars(&t),
                timestamp: None,
                duration: None,
                working_directory: None,
                exit_code: None,
            };
            proof {
                assert(!crate::text::matches_at(trim_chars(lv[i as int]), ": "@, 0)) by {
                    reveal_strlit(": ");
                    if t@.len() >= 2 {
                        assert(prefix@ == ": "@);
                    } else {
                        assert(": "@.len() == 2);
                    }
                }
                assert(head =~= seq![e@]);
            }
            out.push(e);
            proof {
                assert(entries_view(out@) =~= oprev.push(e@));
                assert(oprev + (head + spec_parse_zsh_from(lv, i + 1)) =~= entries_view(out@)
                    + spec_parse_zsh_from(lv, i + 1));
            }
        }
        i = i + 1;
    }
    proof {
        assert(spec_parse_zsh_from(lv, n as int) =~= Seq::<HistoryEntryModel>::empty());
        assert(entries_view(out@) + Seq::<HistoryEntryModel>::empty() =~= entries_view(out@));
    }
    out
}

/// The metadata scan of a fish history entry: from line `j` on, `when:`
/// lines set the timestamp, `paths:` lines (with a `- ` line under them)
/// set the working directory, and the scan stops at the next `- cmd: `
/// line, an empty line, or the end.  Returns the timestamp, the working
/// directory, and the line the scan stopped at.
pub open spec fn fish_meta(
    lines: Seq<Seq<char>>,
    j: int,
    ts: Option<u64>,
    wd: Option<Seq<char>>,
) -> (Option<u64>, Option<Seq<char>>, int)
    decreases lines.len() - j when 0 <= j <= lines.len()
{
    if j >= lines.len() {
        (ts, wd, j)
    } else {
        let m = trim_chars(lines[j]);
        if crate::text::matches_at(m, "when: "@, 0) {
            fish_meta(lines, j + 1, spec_parse_u64(m.skip(6)), wd)
        } else if crate::text::matches_at(m, "paths:"@, 0) {
            let wd2 = if j + 1 < lines.len() && crate::text::matches_at(
                trim_chars(lines[j + 1]),
                "- "@,
                0,
            ) {
                Some(trim_chars(lines[j + 1]).skip(2))
            } else {
                wd
            };
            fish_meta(lines, j + 1, ts, wd2)
        } else if crate::text::matches_at(m, "- cmd: "@, 0) || m.len() == 0 {
            (ts, wd, j)
        } else {
            fish_meta(lines, j + 1, ts, wd)
        }
    }
}

/// The scan never moves backwards and never runs off the end.
proof fn lemma_fish_meta_bounds(
    lines: Seq<Seq<char>>,
    j: int,
    ts: Option<u64>,
    wd: Option<Seq<char>>,
)
    requires
        0 <= j <= lines.len(),
    ensures
        j <= fish_meta(lines, j, ts, wd).2 <= lines.len(),
    decreases lines.len() - j,
{
    if j < lines.len() {
        let m = trim_chars(lines[j]);
        if crate::text::matches_at(m, "when: "@, 0) {
            lemma_fish_meta_bounds(lines, j + 1, spec_parse_u64(m.skip(6)), wd);
        } else if crate::text::matches_at(m, "paths:"@, 0) {
            let wd2 = if j + 1 < lines.len() && crate::text::matches_at(
                trim_chars(lines[j + 1]),
                "- "@,
                0,
            ) {
                Some(trim_chars(lines[j + 1]).skip(2))
            } else {
                wd
            };
            lemma_fish_meta_bounds(lines, j + 1, ts, wd2);
        } else if crate::text::matches_at(m, "- cmd: "@, 0) || m.len() == 0 {
        } else {
            lemma_fish_meta_bounds(lines, j + 1, ts, wd);
        }
    }
}

/// The entries a fish history text yields from line `i` on: each
/// `- cmd: ` line opens an entry, and the metadata lines under it fill
/// in its timestamp and working directory.
pub open spec fn spec_parse_fish_from(lines: Seq<Seq<char>>, i: int) -> Seq<HistoryEntryModel>
    decreases lines.len() - i when 0 <= i <= lines.len() via spec_parse_fish_dec
{
    if i >= lines.len() {
        Seq::empty()
    } else {
        let t = trim_chars(lines[i]);
        if crate::text::matches_at(t, "- cmd: "@, 0) {
            let cmd = t.skip(7);
            if cmd.len() > 0 {
                let meta = fish_meta(lines, i + 1, None, None);
                seq![
                    HistoryEntryModel {
                        command: cmd,
                        timestamp: meta.0,
                        duration: None,
                        working_directory: meta.1,
                        exit_code: None,
                    },
                ] + spec_parse_fish_from(lines, meta.2)
            } else {
                spec_parse_fish_from(lines, i + 1)
            }
        } else {
            spec_parse_fish_from(lines, i + 1)
        }
    }
}

#[via_fn]
proof fn spec_parse_fish_dec(lines: Seq<Seq<char>>, i: int) {
    if 0 <= i < lines.len() {
        lemma_fish_meta_bounds(lines, i + 1, None, None);
    }
}

/// Parses a fish history text.
pub fn parse_fish_history(content: &str) -> (r: Vec<HistoryEntry>)
    ensures
        entries_view(r@) == spec_parse_fish_from(std_lines(content@), 0),
{
    let lines = std_lines_exec(content);
    let ghost lv = std_lines(content@);
    let n = lines.len();
    proof {
        assert(lines@.map_values(|l: String| l@).len() == lines@.len());
    }
    let kw_cmd = crate::text::chars_vec("- cmd: ");
    let kw_when = crate::text::chars_vec("when: ");
    let kw_paths = crate::text::chars_vec("paths:");
    let kw_dash = crate::text::chars_vec("- ");
    proof {
        reveal_strlit("- cmd: ");
        reveal_strlit("when: ");
        reveal_strlit("paths:");
        reveal_strlit("- ");
        assert(kw_cmd@.len() == 7);
        assert(kw_when@.len() == 6);
        assert(kw_paths@.len() == 6);
        assert(kw_dash@.len() == 2);
    }
    let mut out: Vec<HistoryEntry> = Vec::new();
    let mut i: usize = 0;
    proof {
        assert(entries_view(out@) + spec_parse_fish_from(lv, 0) =~= spec_parse_fish_from(lv, 0));
    }
    while i < n
        invariant
            i <= n,
            n == lines@.len(),
            lv == std_lines(content@),
            lines@.map_values(|l: String| l@) == lv,
            kw_cmd@ == "- cmd: "@,
            kw_when@ == "when: "@,
            kw_paths@ == "paths:"@,
            kw_dash@ == "- "@,
            kw_cmd@.len() == 7,
            kw_when@.len() == 6,
            kw_paths@.len() == 6,
            kw_dash@.len() == 2,
            entries_view(out@) + spec_parse_fish_from(lv, i as int) == spec_parse_fish_from(
                lv,
                0,
            ),
        decreases n - i,
    {
        let t = trim_exec(lines[i].as_str());
        proof {
            assert(lv[i as int] == lines@[i as int]@);
            assert(t@ == trim_chars(lv[i as int]));
        }
        if t.len() >= 7 && crate::text::matches_at_exec(&t, &kw_cmd, 0) {
            let cmd = crate::text::chars_suffix(&t, 7);
            proof {
                assert(cmd@ =~= t@.skip(7));
            }
            if cmd.len() > 0 {
                let mut ts: Option<u64> = None;
                let mut wd: Option<String> = None;
                let mut j: usize = i + 1;
                let ghost meta = fish_meta(lv, i + 1, None, None);
                proof {
                    lemma_fish_meta_bounds(lv, i + 1, None, None);
                }
                loop
                    invariant_except_break
                        i + 1 <= j <= n,
                        n == lines@.len(),
                        lv == std_lines(content@),
                        lines@.map_values(|l: String| l@) == lv,
                        kw_when@ == "when: "@,
                        kw_paths@ == "paths:"@,
                        kw_cmd@ == "- cmd: "@,
                        kw_dash@ == "- "@,
                        kw_when@.len() == 6,
                        kw_paths@.len() == 6,
                        kw_cmd@.len() == 7,
                        kw_dash@.len() == 2,
                        meta == fish_meta(lv, i + 1, None, None),
                        meta == fish_meta(
                            lv,
                            j as int,
                            ts,
                            match wd {
                                Some(ref w) => Some(w@),
                                None => None,
                            },
                        ),
                    ensures
                        meta.0 == ts,
                        meta.1 == (match wd {
                            Some(ref w) => Some(w@),
                            None => None,
                        }),
                        meta.2 == j as int,
                        i < j <= n,
                    decreases n - j,
                {
                    if j >= n {
                        break;
                    }
                    let m = trim_exec(lines[j].as_str());
                    proof {
                        assert(lv[j as int] == lines@[j as int]@);
                        assert(m@ == trim_chars(lv[j as int]));
                    }
                    if m.len() >= 6 && crate::text::matches_at_exec(&m, &kw_when, 0) {
                        let digits = crate::text::chars_suffix(&m, 6);
                        proof {
                            assert(digits@ =~= m@.skip(6));
                        }
                        ts = parse_u64_chars(&digits);
                    } else if m.len() >= 6 && crate::text::matches_at_exec(&m, &kw_paths, 0) {
                        if j + 1 < n {
                            let p = trim_exec(lines[j + 1].as_str());
                            proof {
                                assert(lv[j + 1] == lines@[j + 1]@);
                                assert(p@ == trim_chars(lv[j + 1]));
                            }
                            if p.len() >= 2 && crate::text::matches_at_exec(&p, &kw_dash, 0) {
                                let path = crate::text::chars_suffix(&p, 2);
                                proof {
                                    assert(path@ =~= p@.skip(2));
                                }
                                wd = Some(crate::text::string_from_chars(&path));
                            }
                        }
                    } else if (m.len() >= 7 && crate::text::matches_at_exec(&m, &kw_cmd, 0))
                        || m.len() == 0 {
                        break;
                    }
                    j = j + 1;
                }
                let ghost oprev = entries_view(out@);
                let e = HistoryEntry {
                    command: crate::text::string_from_chars(&cmd),
                    timestamp: ts,
                    duration: None,
                    working_directory: wd,
                    exit_code: None,
                };
                proof {
                    assert(e@ == (HistoryEntryModel {
                        command: trim_chars(lv[i as int]).skip(7),
                        timestamp: meta.0,
                        duration: None,
                        working_directory: meta.1,
                        exit_code: None,
                    }));
                    assert(spec_parse_fish_from(lv, i as int) == seq![e@]
                        + spec_parse_fish_from(lv, meta.2));
                }
                out.push(e);
                proof {
                    assert(entries_view(out@) =~= oprev.push(e@));
                    assert(oprev + (seq![e@] + spec_parse_fish_from(lv, meta.2))
                        =~= entries_view(out@) + spec_parse_fish_from(lv, meta.2));
                }
                i = j;
                continue ;
            } else {
                proof {
                    assert(spec_parse_fish_from(lv, i as int) == spec_parse_fish_from(
                        lv,
                        i + 1,
                    ));
                }
            }
        } else {
            proof {
                assert(spec_parse_fish_from(lv, i as int) == spec_parse_fish_from(lv, i + 1));
            }
        }
        i = i + 1;
    }
    proof {
        assert(spec_parse_fish_from(lv, n as int) =~= Seq::<HistoryEntryModel>::empty());
        assert(entries_view(out@) + Seq::<HistoryEntryModel>::empty() =~= entries_view(out@));
    }
    out
}

/// The entries a shell's history text yields, by the shell's own format:
/// zsh and fish have their own shapes, every other shell the basic one.
pub open spec fn spec_shell_parse(name: Seq<char>, content: Seq<char>) -> Seq<HistoryEntryModel> {
    if name == "zsh"@ {
        spec_parse_zsh_from(std_lines(content), 0)
    } else if name == "fish"@ {
        spec_parse_fish_from(std_lines(content), 0)
    } else {
        spec_parse_basic_from(std_lines(content), 0)
    }
}

/// The deduplicated command lists of several shells' history texts, in
/// input order; a shell whose text yields nothing is left out.
pub open spec fn spec_read_histories(h: Seq<(Seq<char>, Seq<char>)>) -> Seq<
    (Seq<char>, Seq<DedupCommandModel>),
>
    decreases h.len(),
{
    if h.len() == 0 {
        Seq::empty()
    } else {
        let entries = spec_shell_parse(h[0].0, h[0].1);
        let dd = spec_dedup(entries);
        let head = if entries.len() > 0 && dd.len() > 0 {
            seq![(h[0].0, dd)]
        } else {
            Seq::empty()
        };
        head + spec_read_histories(h.drop_first())
    }
}

/// Parses and deduplicates the history texts the application read, one
/// per shell, keeping the shells that yielded any command.
pub fn read_shell_histories(histories: Vec<(String, String)>) -> (r: Vec<
    (String, Vec<DeduplicatedCommand>),
>)
    ensures
        r@.map_values(|t: (String, Vec<DeduplicatedCommand>)| (t.0@, cmds_view(t.1@)))
            == spec_read_histories(
            histories@.map_values(|t: (String, String)| (t.0@, t.1@)),
        ),
{
    let ghost hv = histories@.map_values(|t: (String, String)| (t.0@, t.1@));
    let ghost out_view = |t: (String, Vec<DeduplicatedCommand>)| (t.0@, cmds_view(t.1@));
    let mut out: Vec<(String, Vec<DeduplicatedCommand>)> = Vec::new();
    let mut i: usize = 0;
    proof {
        assert(hv.skip(0) =~= hv);
        assert(out@.map_values(out_view) + spec_read_histories(hv.skip(0))
            =~= spec_read_histories(hv));
    }
    while i < histories.len()
        invariant
            i <= histories@.len(),
            hv == histories@.map_values(|t: (String, String)| (t.0@, t.1@)),
            out_view == (|t: (String, Vec<DeduplicatedCommand>)| (t.0@, cmds_view(t.1@))),
            out@.map_values(out_view) + spec_read_histories(hv.skip(i as int))
                == spec_read_histories(hv),
        decreases histories@.len() - i,
    {
        let ghost rest = hv.skip(i as int);
        proof {
            assert(rest[0] == hv[i as int]);
            assert(hv[i as int] == (histories@[i as int].0@, histories@[i as int].1@));
            assert(rest.drop_first() =~= hv.skip(i + 1));
        }
        let shell_name = &histories[i].0;
        let content = &histories[i].1;
        let entries = if crate::scan::str_eq(shell_name.as_str(), "zsh") {
            parse_zsh_history(content.as_str())
        } else if crate::scan::str_eq(shell_name.as_str(), "fish") {
            parse_fish_history(content.as_str())
        } else {
            parse_basic_history(content.as_str())
        };
        proof {
            assert(entries_view(entries@) == spec_shell_parse(rest[0].0, rest[0].1));
        }
        let any = entries.len() > 0;
        let deduplicated = deduplicate_commands(entries);
        proof {
            assert(cmds_view(deduplicated@).len() == deduplicated@.len());
        }
        if any && deduplicated.len() > 0 {
            let ghost oprev = out@.map_values(out_view);
            let ghost head = (rest[0].0, cmds_view(deduplicated@));
            out.push((shell_name.clone(), deduplicated));
            proof {
                assert(out@.map_values(out_view) =~= oprev.push(head));
                assert(spec_read_histories(rest) == seq![head] + spec_read_histories(
                    rest.drop_first(),
                ));
                assert(oprev + (seq![head] + spec_read_histories(rest.drop_first()))
                    =~= out@.map_values(out_view) + spec_read_histories(rest.drop_first()));
            }
        } else {
            proof {
                assert(spec_read_histories(rest) =~= Seq::<
                    (Seq<char>, Seq<DedupCommandModel>),
                >::empty() + spec_read_histories(rest.drop_first()));
                assert(Seq::<(Seq<char>, Seq<DedupCommandModel>)>::empty()
                    + spec_read_histories(rest.drop_first()) =~= spec_read_histories(
                    rest.drop_first(),
                ));
            }
        }
        i = i + 1;
    }
    proof {
        assert(hv.skip(histories@.len() as int) =~= Seq::<(Seq<char>, Seq<char>)>::empty());
        assert(spec_read_histories(hv.skip(histories@.len() as int)) =~= Seq::<
            (Seq<char>, Seq<DedupCommandModel>),
        >::empty());
        assert(out@.map_values(out_view) + Seq::<(Seq<char>, Seq<DedupCommandModel>)>::empty()
            =~= out@.map_values(out_view));
    }
    out
}

/// Basic bounds of `find_cmd`.
proof fn lemma_find_cmd(acc: Seq<DedupCommandModel>, cmd: Seq<char>)
    ensures
        -1 <= find_cmd(acc, cmd) < acc.len(),
        find_cmd(acc, cmd) >= 0 ==> acc[find_cmd(acc, cmd)].command == cmd,
    decreases acc.len(),
{
    if acc.len() > 0 && acc[0].command != cmd {
        lemma_find_cmd(acc.drop_first(), cmd);
    }
}

/// A pointwise characterisation pins `find_cmd` down.
proof fn lemma_find_cmd_at(acc: Seq<DedupCommandModel>, cmd: Seq<char>, i: int)
    requires
        0 <= i <= acc.len(),
        forall|k: int| 0 <= k < i ==> acc[k].command != cmd,
        i < acc.len() ==> acc[i].command == cmd,
    ensures
        i < acc.len() ==> find_cmd(acc, cmd) == i,
        i == acc.len() ==> find_cmd(acc, cmd) == -1,
    decreases acc.len(),
{
    if acc.len() > 0 && acc[0].command != cmd {
        lemma_find_cmd_at(acc.drop_first(), cmd, i - 1);
    }
}

/// Whether any folder in the list reads `dir`.
pub fn folders_contain(folders: &Vec<String>, dir: &String) -> (r: bool)
    ensures
        r == folders_view(folders@).contains(dir@),
{
    let ghost views = folders_view(folders@);
    let mut i: usize = 0;
    while i < folders.len()
        invariant
            i <= folders@.len(),
            views == folders_view(folders@),
            forall|k: int| 0 <= k < i ==> views[k] != dir@,
        decreases folders@.len() - i,
    {
        if folders[i] == *dir {
            proof {
                assert(views[i as int] == dir@);
            }
            return true;
        }
        i = i + 1;
    }
    proof {
        assert(forall|k: int| 0 <= k < views.len() ==> views[k] != dir@);
    }
    false
}

/// Deduplicates a run of history entries: repeated commands are folded
/// into one record each, in first-seen order.
pub fn deduplicate_commands(entries: Vec<HistoryEntry>) -> (r: Vec<DeduplicatedCommand>)
    ensures
        cmds_view(r@) == spec_dedup(entries_view(entries@)),
{
    let ghost all = entries_view(entries@);
    let mut acc: Vec<DeduplicatedCommand> = Vec::new();
    let mut k: usize = 0;
    proof {
        assert(all.take(0) =~= Seq::<HistoryEntryModel>::empty());
        assert(cmds_view(acc@) =~= spec_dedup(all.take(0)));
    }
    while k < entries.len()
        invariant
            k <= entries@.len(),
            all == entries_view(entries@),
            cmds_view(acc@) == spec_dedup(all.take(k as int)),
        decreases entries@.len() - k,
    {
        let e = &entries[k];
        let ghost em = entries@[k as int]@;
        let ghost acc0 = cmds_view(acc@);
        proof {
            assert(all.take(k + 1 as int).drop_last() =~= all.take(k as int));
            assert(all.take(k + 1 as int).last() == em);
        }
        let working_dir: String = match &e.working_directory {
            Some(d) => d.clone(),
            None => "unknown".to_owned(),
        };
        proof {
            assert(working_dir@ == entry_dir(em));
        }
        // find the command's record, if any
        let mut i: usize = 0;
        let mut found = false;
        loop
            invariant
                i <= acc@.len(),
                acc0 == cmds_view(acc@),
                forall|j: int| 0 <= j < i ==> acc0[j].command != em.command,
                found ==> i < acc@.len() && acc0[i as int].command == em.command,
                em == entries@[k as int]@,
                k < entries@.len(),
            ensures
                !found ==> find_cmd(acc0, em.command) == -1,
                found ==> i < acc@.len() && find_cmd(acc0, em.command) == i as int,
                acc0 == cmds_view(acc@),
            decreases acc@.len() - i + (if found {
                0int
            } else {
                1int
            }),
        {
            if found {
                proof {
                    lemma_find_cmd_at(acc0, em.command, i as int);
                }
                break;
            }
            if i >= acc.len() {
                proof {
                    lemma_find_cmd_at(acc0, em.command, i as int);
                }
                break;
            }
            if acc[i].command == entries[k].command {
                proof {
                    assert(acc0[i as int].command == em.command);
                }
                found = true;
            } else {
                proof {
                    assert(acc0[i as int].command != em.command);
                }
                i = i + 1;
            }
        }
        if found {
            let existing = &acc[i];
            let mut merged = existing.clone();
            if !folders_contain(&merged.folders, &working_dir) {
                merged.folders.push(working_dir);
                proof {
                    assert(merged@.folders =~= acc0[i as int].folders.push(entry_dir(em)));
                }
            }
            if merged.total_executions < usize::MAX {
                merged.total_executions = merged.total_executions + 1;
            }
            match (merged.latest_timestamp, e.timestamp) {
                (Some(existing_ts), Some(entry_ts)) => {
                    if entry_ts > existing_ts {
                        merged.latest_timestamp = Some(entry_ts);
                    }
                },
                (None, Some(entry_ts)) => {
                    merged.latest_timestamp = Some(entry_ts);
                },
                _ => {},
            }
            proof {
                assert(merged@ == merge_entry(acc0[i as int], em));
            }
            acc.set(i, merged);
            proof {
                assert(cmds_view(acc@) =~= acc0.update(i as int, merge_entry(
                    acc0[i as int],
                    em,
                )));
                assert(cmds_view(acc@) =~= dedup_step(acc0, em));
            }
        } else {
            let fresh = DeduplicatedCommand {
                command: e.command.clone(),
                folders: {
                    let mut fs: Vec<String> = Vec::new();
                    fs.push(working_dir);
                    fs
                },
                latest_timestamp: e.timestamp,
                total_executions: 1,
            };
            proof {
                assert(fresh@.folders =~= seq![entry_dir(em)]);
                assert(fresh@ == fresh_record(em));
            }
            acc.push(fresh);
            proof {
                assert(cmds_view(acc@) =~= acc0.push(fresh_record(em)));
                assert(cmds_view(acc@) =~= dedup_step(acc0, em));
            }
        }
        k = k + 1;
    }
    proof {
        assert(all.take(entries@.len() as int) =~= all);
    }
    acc
}

} // verus!
