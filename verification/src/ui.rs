//! The pure rendering model: styled text runs, tables, and a character
//! frame that interprets them.  The host's drawing calls consume values
//! of these types; the frame doubles as the reference semantics that the
//! test suite checks rendered output against.

use vstd::prelude::*;

verus! {

use crate::text::{chars_vec, push_char, push_str, string_from_chars};

broadcast use vstd::std_specs::vec::group_vec_axioms;

/// Splits a character sequence at every newline; a text with `n`
/// newlines has `n + 1` segments, trailing empties kept.
pub open spec fn split_lines(s: Seq<char>) -> Seq<Seq<char>>
    decreases s.len() via split_lines_dec
{
    if exists|i: int| 0 <= i < s.len() && s[i] == '\n' {
        let i = first_newline(s, 0);
        seq![s.subrange(0, i)] + split_lines(s.subrange(i + 1, s.len() as int))
    } else {
        seq![s]
    }
}

/// The index of the first newline at or after `i`, or the length.
pub open spec fn first_newline(s: Seq<char>, i: int) -> int
    decreases s.len() - i when 0 <= i <= s.len()
{
    if i < s.len() && s[i] != '\n' {
        first_newline(s, i + 1)
    } else {
        i
    }
}

#[via_fn]
proof fn split_lines_dec(s: Seq<char>) {
    if exists|i: int| 0 <= i < s.len() && s[i] == '\n' {
        lemma_first_newline(s, 0);
        let w = choose|w: int| 0 <= w < s.len() && s[w] == '\n';
        assert(first_newline(s, 0) <= w);
    }
}

proof fn lemma_first_newline(s: Seq<char>, i: int)
    requires
        0 <= i <= s.len(),
    ensures
        i <= first_newline(s, i) <= s.len(),
        forall|k: int| i <= k < first_newline(s, i) ==> s[k] != '\n',
        first_newline(s, i) < s.len() ==> s[first_newline(s, i)] == '\n',
    decreases s.len() - i,
{
    if i < s.len() && s[i] != '\n' {
        lemma_first_newline(s, i + 1);
    }
}

/// Truncates a text to a width by cutting the middle out: an ellipsis
/// takes the place of the removed run.  A text within the width stays.
pub open spec fn spec_truncate_middle(text: Seq<char>, max_width: int) -> Seq<char> {
    if text.len() <= max_width {
        text
    } else if max_width < 3 {
        seq!['.', '.', '.'].take(max_width)
    } else {
        let available = max_width - 3;
        let left = available / 2;
        let right = available - left;
        text.take(left) + seq!['.', '.', '.'] + text.skip(text.len() - right)
    }
}

/// Truncates a text to at most `max_width` characters, cutting out the
/// middle and marking the cut with an ellipsis.
pub fn truncate_middle(text: &str, max_width: usize) -> (r: String)
    ensures
        r@ == spec_truncate_middle(text@, max_width as int),
{
    let chars = chars_vec(text);
    if chars.len() <= max_width {
        return text.to_owned();
    }
    if max_width < 3 {
        let mut out: Vec<char> = Vec::new();
        let mut i: usize = 0;
        while i < max_width
            invariant
                max_width < 3,
                i <= max_width,
                out@ == seq!['.', '.', '.'].take(max_width as int).take(i as int),
            decreases max_width - i,
        {
            out.push('.');
            proof {
                assert(seq!['.', '.', '.'].take(max_width as int).take(i + 1 as int)
                    =~= seq!['.', '.', '.'].take(max_width as int).take(i as int).push('.'));
            }
            i = i + 1;
        }
        proof {
            assert(seq!['.', '.', '.'].take(max_width as int).take(max_width as int) =~= seq![
                '.',
                '.',
                '.',
            ].take(max_width as int));
        }
        return string_from_chars(&out);
    }
    let available = max_width - 3;
    let left = available / 2;
    let right = available - left;
    let mut out: Vec<char> = Vec::new();
    let mut i: usize = 0;
    while i < left
        invariant
            left <= chars@.len(),
            chars@ == text@,
            i <= left,
            out@ == text@.take(left as int).take(i as int),
        decreases left - i,
    {
        out.push(chars[i]);
        proof {
            assert(text@.take(left as int).take(i + 1 as int) =~= text@.take(left as int).take(
                i as int,
            ).push(text@[i as int]));
        }
        i = i + 1;
    }
    proof {
        assert(text@.take(left as int).take(left as int) =~= text@.take(left as int));
    }
    out.push('.');
    out.push('.');
    out.push('.');
    proof {
        assert(out@ =~= text@.take(left as int) + seq!['.', '.', '.']);
    }
    let ghost mid = out@;
    let start = chars.len() - right;
    let mut j: usize = start;
    proof {
        assert(mid + text@.skip(text@.len() - right).take(0) =~= mid);
    }
    while j < chars.len()
        invariant
            right <= chars@.len(),
            chars@ == text@,
            start == chars@.len() - right,
            start <= j <= chars@.len(),
            out@ == mid + text@.skip(text@.len() - right).take(j - start),
        decreases chars@.len() - j,
    {
        out.push(chars[j]);
        proof {
            assert(text@.skip(text@.len() - right).take(j + 1 - start) =~= text@.skip(
                text@.len() - right,
            ).take(j - start).push(text@[j as int]));
            assert((mid + text@.skip(text@.len() - right).take(j - start)).push(text@[j as int])
                =~= mid + text@.skip(text@.len() - right).take(j + 1 - start));
        }
        j = j + 1;
    }
    proof {
        assert(text@.skip(text@.len() - right).take(chars@.len() - start) =~= text@.skip(
            text@.len() - right,
        ));
    }
    string_from_chars(&out)
}

/// One styling operation applied to a text run.
pub enum StyleOperation {
    ColorAll(usize),
    ColorSubstring(usize, String),
    ColorIndices(usize, Vec<usize>),
    Selected,
}

/// The mathematical model of a [`StyleOperation`].
pub enum StyleOpModel {
    ColorAll(usize),
    ColorSubstring(usize, Seq<char>),
    ColorIndices(usize, Seq<usize>),
    Selected,
}

impl View for StyleOperation {
    type V = StyleOpModel;

    open spec fn view(&self) -> StyleOpModel {
        match self {
            StyleOperation::ColorAll(c) => StyleOpModel::ColorAll(*c),
            StyleOperation::ColorSubstring(c, s) => StyleOpModel::ColorSubstring(*c, s@),
            StyleOperation::ColorIndices(c, v) => StyleOpModel::ColorIndices(*c, v@),
            StyleOperation::Selected => StyleOpModel::Selected,
        }
    }
}

/// The views of a run of styling operations.
pub open spec fn styles_view(v: Seq<StyleOperation>) -> Seq<StyleOpModel> {
    v.map_values(|s: StyleOperation| s@)
}

/// A styled text run: the text, its lines, and the styling applied.
pub struct Text {
    pub text: String,
    pub lines: Vec<String>,
    pub styles: Vec<StyleOperation>,
}

/// The mathematical model of a [`Text`].
pub struct TextModel {
    pub text: Seq<char>,
    pub lines: Seq<Seq<char>>,
    pub styles: Seq<StyleOpModel>,
}

impl View for Text {
    type V = TextModel;

    open spec fn view(&self) -> TextModel {
        TextModel {
            text: self.text@,
            lines: self.lines@.map_values(|l: String| l@),
            styles: styles_view(self.styles@),
        }
    }
}

impl Text {
    /// A fresh unstyled run; its lines are the text split at newlines
    /// (an empty text has one empty line).
    pub fn new(text: &str) -> (r: Text)
        ensures
            r@.text == text@,
            r@.lines == split_lines(text@),
            r@.styles == Seq::<StyleOpModel>::empty(),
    {
        let chars = chars_vec(text);
        let mut lines: Vec<String> = Vec::new();
        let n = chars.len();
        let mut pos: usize = 0;
        proof {
            assert(lines@.map_values(|l: String| l@) =~= Seq::<Seq<char>>::empty());
            assert(text@.skip(0) =~= text@);
            assert(Seq::<Seq<char>>::empty() + split_lines(text@) =~= split_lines(text@));
        }
        loop
            invariant_except_break
                pos <= n,
                n == chars@.len(),
                chars@ == text@,
                lines@.map_values(|l: String| l@) + split_lines(text@.skip(pos as int))
                    == split_lines(text@),
            ensures
                lines@.map_values(|l: String| l@) == split_lines(text@),
            decreases n - pos,
        {
            let ghost rest = text@.skip(pos as int);
            let mut le: usize = pos;
            while le < n && chars[le] != '\n'
                invariant
                    pos <= le <= n,
                    n == chars@.len(),
                    chars@ == text@,
                    forall|k: int| pos <= k < le ==> text@[k] != '\n',
                decreases n - le,
            {
                le = le + 1;
            }
            let mut seg: Vec<char> = Vec::new();
            let mut i: usize = pos;
            while i < le
                invariant
                    pos <= i <= le <= n,
                    n == chars@.len(),
                    chars@ == text@,
                    seg@ == text@.subrange(pos as int, i as int),
                decreases le - i,
            {
                seg.push(chars[i]);
                proof {
                    assert(text@.subrange(pos as int, i + 1 as int) =~= text@.subrange(
                        pos as int,
                        i as int,
                    ).push(text@[i as int]));
                }
                i = i + 1;
            }
            let ghost lprev = lines@.map_values(|l: String| l@);
            lines.push(string_from_chars(&seg));
            proof {
                assert(lines@.map_values(|l: String| l@) =~= lprev.push(
                    text@.subrange(pos as int, le as int),
                ));
                lemma_first_newline(rest, 0);
                assert forall|k: int| 0 <= k < le - pos implies rest[k] != '\n' by {
                    assert(rest[k] == text@[pos + k]);
                }
                if le < n {
                    assert(rest[le - pos] == text@[le as int]);
                }
                lemma_first_newline_pin(rest, 0, le - pos);
                if le < n {
                    assert(exists|w: int| 0 <= w < rest.len() && rest[w] == '\n') by {
                        assert(rest[le - pos] == '\n');
                    }
                    assert(split_lines(rest) == seq![rest.subrange(0, le - pos)] + split_lines(
                        rest.subrange(le - pos + 1, rest.len() as int),
                    ));
                    assert(rest.subrange(0, le - pos) =~= text@.subrange(pos as int, le as int));
                    assert(rest.subrange(le - pos + 1, rest.len() as int) =~= text@.skip(
                        le + 1 as int,
                    ));
                    assert((lprev + (seq![text@.subrange(pos as int, le as int)] + split_lines(
                        text@.skip(le + 1 as int),
                    ))) =~= (lprev.push(text@.subrange(pos as int, le as int)) + split_lines(
                        text@.skip(le + 1 as int),
                    )));
                } else {
                    assert(!(exists|w: int| 0 <= w < rest.len() && rest[w] == '\n')) by {
                        if exists|w: int| 0 <= w < rest.len() && rest[w] == '\n' {
                            let w = choose|w: int| 0 <= w < rest.len() && rest[w] == '\n';
                            assert(rest[w] == text@[pos + w]);
                        }
                    }
                    assert(split_lines(rest) == seq![rest]);
                    assert(rest =~= text@.subrange(pos as int, le as int));
                    assert(lprev + seq![rest] =~= lprev.push(rest));
                }
            }
            if le == n {
                proof {
                    assert(lines@.map_values(|l: String| l@) == split_lines(text@));
                }
                break;
            }
            pos = le + 1;
            proof {
                assert(lines@.map_values(|l: String| l@) + split_lines(text@.skip(pos as int))
                    == split_lines(text@));
            }
        }
        Text { text: text.to_owned(), lines, styles: Vec::new() }
    }

    /// The plain text content.
    pub fn get_text(&self) -> (r: &str)
        ensures
            r@ == self@.text,
    {
        self.text.as_str()
    }

    /// The lines of the run.
    pub fn get_lines(&self) -> (r: &Vec<String>)
        ensures
            r@.map_values(|l: String| l@) == self@.lines,
    {
        &self.lines
    }

    /// Colours the whole run.
    pub fn color_all(self, color_index: usize) -> (r: Text)
        ensures
            r@.text == self@.text,
            r@.lines == self@.lines,
            r@.styles == self@.styles.push(StyleOpModel::ColorAll(color_index)),
    {
        let mut s = self;
        let ghost sprev = styles_view(s.styles@);
        s.styles.push(StyleOperation::ColorAll(color_index));
        proof {
            assert(styles_view(s.styles@) =~= sprev.push(StyleOpModel::ColorAll(color_index)));
        }
        s
    }

    /// Colours one substring of the run.
    pub fn color_substring(self, color_index: usize, substring: &str) -> (r: Text)
        ensures
            r@.text == self@.text,
            r@.lines == self@.lines,
            r@.styles == self@.styles.push(
                StyleOpModel::ColorSubstring(color_index, substring@),
            ),
    {
        let mut s = self;
        let ghost sprev = styles_view(s.styles@);
        s.styles.push(StyleOperation::ColorSubstring(color_index, substring.to_owned()));
        proof {
            assert(styles_view(s.styles@) =~= sprev.push(
                StyleOpModel::ColorSubstring(color_index, substring@),
            ));
        }
        s
    }

    /// Colours single character positions of the run.
    pub fn color_indices(self, color_index: usize, indices: Vec<usize>) -> (r: Text)
        ensures
            r@.text == self@.text,
            r@.lines == self@.lines,
            r@.styles == self@.styles.push(StyleOpModel::ColorIndices(color_index, indices@)),
    {
        let mut s = self;
        let ghost sprev = styles_view(s.styles@);
        let ghost iv = indices@;
        s.styles.push(StyleOperation::ColorIndices(color_index, indices));
        proof {
            assert(styles_view(s.styles@) =~= sprev.push(
                StyleOpModel::ColorIndices(color_index, iv),
            ));
        }
        s
    }

    /// Marks the run as the selected row.
    pub fn selected(self) -> (r: Text)
        ensures
            r@.text == self@.text,
            r@.lines == self@.lines,
            r@.styles == self@.styles.push(StyleOpModel::Selected),
    {
        let mut s = self;
        let ghost sprev = styles_view(s.styles@);
        s.styles.push(StyleOperation::Selected);
        proof {
            assert(styles_view(s.styles@) =~= sprev.push(StyleOpModel::Selected));
        }
        s
    }
}

proof fn lemma_first_newline_pin(s: Seq<char>, i: int, j: int)
    requires
        0 <= i <= j <= s.len(),
        forall|k: int| i <= k < j ==> s[k] != '\n',
        j == s.len() || s[j] == '\n',
    ensures
        first_newline(s, i) == j,
    decreases j - i,
{
    if i < j {
        lemma_first_newline_pin(s, i + 1, j);
    }
}

/// One table row: plain cells or styled runs.
pub enum TableRow {
    Plain(Vec<String>),
    Styled(Vec<Text>),
}

/// The mathematical model of a [`TableRow`].
pub enum TableRowModel {
    Plain(Seq<Seq<char>>),
    Styled(Seq<TextModel>),
}

impl View for TableRow {
    type V = TableRowModel;

    open spec fn view(&self) -> TableRowModel {
        match self {
            TableRow::Plain(cells) => TableRowModel::Plain(
                cells@.map_values(|c: String| c@),
            ),
            TableRow::Styled(cells) => TableRowModel::Styled(cells@.map_values(|c: Text| c@)),
        }
    }
}

/// A table of rows.
pub struct Table {
    pub rows: Vec<TableRow>,
}

/// The views of a table's rows.
pub open spec fn rows_view(v: Seq<TableRow>) -> Seq<TableRowModel> {
    v.map_values(|r: TableRow| r@)
}

/// Cells joined with a two-space separator.
pub open spec fn join_cells(cells: Seq<Seq<char>>) -> Seq<char>
    decreases cells.len(),
{
    if cells.len() == 0 {
        Seq::empty()
    } else if cells.len() == 1 {
        cells[0]
    } else {
        cells[0] + seq![' ', ' '] + join_cells(cells.drop_first())
    }
}

/// The plain text line of one row, styling stripped.
pub open spec fn row_line(r: TableRowModel) -> Seq<char> {
    match r {
        TableRowModel::Plain(cells) => join_cells(cells),
        TableRowModel::Styled(cells) => join_cells(cells.map_values(|t: TextModel| t.text)),
    }
}

/// Joins a vector of cell texts with two-space separators.
fn join_cells_exec(cells: &Vec<String>) -> (r: String)
    ensures
        r@ == join_cells(cells@.map_values(|c: String| c@)),
{
    let ghost cv = cells@.map_values(|c: String| c@);
    let mut out = String::new();
    let mut i: usize = 0;
    proof {
        assert(cv.skip(0) =~= cv);
        assert(out@ + join_cells(cv.skip(0)) =~= join_cells(cv));
    }
    while i < cells.len()
        invariant
            i <= cells@.len(),
            cv == cells@.map_values(|c: String| c@),
            out@ + join_cells(cv.skip(i as int)) == join_cells(cv),
        decreases cells@.len() - i,
    {
        let ghost rest = cv.skip(i as int);
        proof {
            assert(rest[0] == cv[i as int]);
            assert(rest.drop_first() =~= cv.skip(i + 1));
        }
        push_str(&mut out, cells[i].as_str());
        if i + 1 < cells.len() {
            push_str(&mut out, "  ");
            proof {
                reveal_strlit("  ");
                assert("  "@ =~= seq![' ', ' ']);
                assert(rest.len() > 1);
                assert(join_cells(rest) == rest[0] + seq![' ', ' '] + join_cells(
                    rest.drop_first(),
                ));
            }
        } else {
            proof {
                assert(rest.len() == 1);
                assert(join_cells(rest) == rest[0]);
                assert(join_cells(rest.drop_first()) =~= Seq::<char>::empty());
                assert(out@ + Seq::<char>::empty() =~= out@);
            }
        }
        i = i + 1;
    }
    proof {
        assert(cv.skip(cells@.len() as int) =~= Seq::<Seq<char>>::empty());
        assert(join_cells(cv.skip(cells@.len() as int)) =~= Seq::<char>::empty());
        assert(out@ + Seq::<char>::empty() =~= out@);
    }
    out
}

impl Table {
    /// An empty table.
    pub fn new() -> (r: Table)
        ensures
            rows_view(r.rows@) == Seq::<TableRowModel>::empty(),
    {
        let t = Table { rows: Vec::new() };
        proof {
            assert(rows_view(t.rows@) =~= Seq::<TableRowModel>::empty());
        }
        t
    }

    /// Appends one plain row.
    pub fn add_row(self, row: Vec<String>) -> (r: Table)
        ensures
            rows_view(r.rows@) == rows_view(self.rows@).push(
                TableRowModel::Plain(row@.map_values(|c: String| c@)),
            ),
    {
        let mut t = self;
        let ghost rprev = rows_view(t.rows@);
        let ghost rm = TableRowModel::Plain(row@.map_values(|c: String| c@));
        t.rows.push(TableRow::Plain(row));
        proof {
            assert(rows_view(t.rows@) =~= rprev.push(rm));
        }
        t
    }

    /// Appends one styled row.
    pub fn add_styled_row(self, row: Vec<Text>) -> (r: Table)
        ensures
            rows_view(r.rows@) == rows_view(self.rows@).push(
                TableRowModel::Styled(row@.map_values(|c: Text| c@)),
            ),
    {
        let mut t = self;
        let ghost rprev = rows_view(t.rows@);
        let ghost rm = TableRowModel::Styled(row@.map_values(|c: Text| c@));
        t.rows.push(TableRow::Styled(row));
        proof {
            assert(rows_view(t.rows@) =~= rprev.push(rm));
        }
        t
    }

    /// How many rows the table holds.
    pub fn row_count(&self) -> (r: usize)
        ensures
            r == self.rows@.len(),
    {
        self.rows.len()
    }

    /// The plain text lines of the table, styling stripped, one line per
    /// row with cells joined by two spaces.
    pub fn to_text_lines(&self) -> (r: Vec<String>)
        ensures
            r@.map_values(|l: String| l@) == rows_view(self.rows@).map_values(
                |row: TableRowModel| row_line(row),
            ),
    {
        let ghost rv = rows_view(self.rows@);
        let mut out: Vec<String> = Vec::new();
        let mut i: usize = 0;
        proof {
            assert(out@.map_values(|l: String| l@) =~= rv.map_values(
                |row: TableRowModel| row_line(row),
            ).take(0));
        }
        while i < self.rows.len()
            invariant
                i <= self.rows@.len(),
                rv == rows_view(self.rows@),
                out@.map_values(|l: String| l@) == rv.map_values(
                    |row: TableRowModel| row_line(row),
                ).take(i as int),
            decreases self.rows@.len() - i,
        {
            let ghost oprev = out@.map_values(|l: String| l@);
            let line = match &self.rows[i] {
                TableRow::Plain(cells) => join_cells_exec(cells),
                TableRow::Styled(cells) => {
                    let mut texts: Vec<String> = Vec::new();
                    let mut j: usize = 0;
                    proof {
                        assert(texts@.map_values(|c: String| c@) =~= cells@.map_values(
                            |c: Text| c@.text,
                        ).take(0));
                    }
                    while j < cells.len()
                        invariant
                            j <= cells@.len(),
                            texts@.map_values(|c: String| c@) == cells@.map_values(
                                |c: Text| c@.text,
                            ).take(j as int),
                        decreases cells@.len() - j,
                    {
                        proof {
                            assert(texts@.map_values(|c: String| c@).len() == texts@.len());
                            assert(texts@.len() == j as int);
                        }
                        texts.push(cells[j].text.clone());
                        proof {
                            assert(texts@.map_values(|c: String| c@) =~= cells@.map_values(
                                |c: Text| c@.text,
                            ).take(j + 1 as int));
                        }
                        j = j + 1;
                    }
                    proof {
                        assert(cells@.map_values(|c: Text| c@.text).take(cells@.len() as int)
                            =~= cells@.map_values(|c: Text| c@.text));
                        assert(cells@.map_values(|c: Text| c@.text) =~= cells@.map_values(
                            |c: Text| c@,
                        ).map_values(|t: TextModel| t.text));
                    }
                    join_cells_exec(&texts)
                },
            };
            proof {
                assert(rv[i as int] == self.rows@[i as int]@);
                assert(line@ == row_line(rv[i as int]));
            }
            out.push(line);
            proof {
                assert(out@.map_values(|l: String| l@) =~= oprev.push(line@));
                assert(rv.map_values(|row: TableRowModel| row_line(row)).take(i + 1 as int)
                    =~= rv.map_values(|row: TableRowModel| row_line(row)).take(i as int).push(
                    row_line(rv[i as int]),
                ));
            }
            i = i + 1;
        }
        proof {
            assert(rv.map_values(|row: TableRowModel| row_line(row)).take(
                self.rows@.len() as int,
            ) =~= rv.map_values(|row: TableRowModel| row_line(row)));
        }
        out
    }

    /// The plain text of one row, if the table has that many rows.
    pub fn get_row_text(&self, index: usize) -> (r: Option<String>)
        ensures
            (r is Some) == (index < self.rows@.len()),
            r is Some ==> r.unwrap()@ == row_line(rows_view(self.rows@)[index as int]),
    {
        let lines = self.to_text_lines();
        proof {
            assert(lines@.map_values(|l: String| l@).len() == lines@.len());
            assert(rows_view(self.rows@).map_values(|row: TableRowModel| row_line(row)).len()
                == rows_view(self.rows@).len());
            assert(rows_view(self.rows@).len() == self.rows@.len());
            assert(lines@.len() == self.rows@.len());
        }
        if index < lines.len() {
            proof {
                assert(lines@.map_values(|l: String| l@)[index as int] == lines@[index as int]@);
            }
            Some(lines[index].clone())
        } else {
            None
        }
    }
}

impl Default for Table {
    /// An empty table.
    fn default() -> (r: Table)
        ensures
            rows_view(r.rows@) == Seq::<TableRowModel>::empty(),
    {
        Table::new()
    }
}

/// A two-dimensional character frame, row-major, that interprets the
/// render model for the test suite.
pub struct Frame {
    pub cells: Vec<Vec<char>>,
    pub height: usize,
    pub width: usize,
}

/// The views of a frame's rows.
pub open spec fn cells_view(v: Seq<Vec<char>>) -> Seq<Seq<char>> {
    v.map_values(|row: Vec<char>| row@)
}

impl Frame {
    /// The frame is a proper `height` by `width` grid.
    pub open spec fn wf(&self) -> bool {
        &&& self.cells@.len() == self.height
        &&& forall|i: int|
            0 <= i < self.cells@.len() ==> (#[trigger] self.cells@[i])@.len() == self.width
    }

    /// A fresh frame of the given size, filled with spaces.
    pub fn new(width: usize, height: usize) -> (r: Frame)
        ensures
            r.wf(),
            r.width == width,
            r.height == height,
            forall|i: int, j: int|
                0 <= i < height && 0 <= j < width ==> cells_view(r.cells@)[i][j] == ' ',
    {
        let row: Vec<char> = vec![' '; width];
        let cells: Vec<Vec<char>> = vec![row; height];
        let r = Frame { cells, height, width };
        proof {
            assert forall|i: int, j: int|
                0 <= i < height && 0 <= j < width implies cells_view(r.cells@)[i][j] == ' ' by {
                assert(cells_view(r.cells@)[i] == r.cells@[i]@);
            }
        }
        r
    }

    /// One row after a text was written into it at column `x`; writing
    /// clips at the row's end.
    pub open spec fn write_row(row: Seq<char>, x: int, text: Seq<char>) -> Seq<char> {
        Seq::new(
            row.len(),
            |j: int|
                if x <= j && j < x + text.len() {
                    text[j - x]
                } else {
                    row[j]
                },
        )
    }

    /// Writes a text at the given coordinates; a row outside the frame
    /// takes nothing, and text past the right edge is cut off.
    pub fn write_text(&mut self, text: &str, x: usize, y: usize)
        requires
            old(self).wf(),
        ensures
            final(self).wf(),
            final(self).width == old(self).width,
            final(self).height == old(self).height,
            y >= old(self).height ==> cells_view(final(self).cells@) == cells_view(
                old(self).cells@,
            ),
            y < old(self).height ==> cells_view(final(self).cells@) == cells_view(
                old(self).cells@,
            ).update(y as int, Self::write_row(cells_view(old(self).cells@)[y as int], x as int, text@)),
    {
        if y >= self.height {
            return ;
        }
        let chars = chars_vec(text);
        let ghost row0 = self.cells@[y as int]@;
        let mut row: Vec<char> = self.cells[y].clone();
        proof {
            assert(row@ =~= row0) by {
                assert(forall|k: int| 0 <= k < row0.len() ==> cloned::<char>(row0[k], row@[k]));
            }
        }
        let mut i: usize = 0;
        while i < chars.len() && x < self.width && i < self.width - x
            invariant
                self.wf(),
                chars@ == text@,
                y < self.height,
                row@.len() == self.width,
                row0.len() == self.width,
                i <= chars@.len(),
                forall|j: int|
                    0 <= j < row@.len() ==> row@[j] == (if x <= j && j < x + i && j - x
                        < chars@.len() {
                        chars@[j - x]
                    } else {
                        row0[j]
                    }),
            decreases chars@.len() - i,
        {
            row.set(x + i, chars[i]);
            i = i + 1;
        }
        proof {
            assert forall|j: int| 0 <= j < row@.len() implies row@[j] == Self::write_row(
                row0,
                x as int,
                text@,
            )[j] by {
                if x <= j && j < x + text@.len() {
                    if j < x + i {
                    } else {
                        assert(x + i >= self.width || i >= chars@.len());
                    }
                }
            }
            assert(row@ =~= Self::write_row(row0, x as int, text@));
        }
        let ghost cprev = cells_view(self.cells@);
        self.cells.set(y, row);
        proof {
            assert(cells_view(self.cells@) =~= cprev.update(
                y as int,
                Self::write_row(row0, x as int, text@),
            ));
            assert(cells_view(old(self).cells@)[y as int] == row0);
        }
    }

    /// A frame's rows after a run of lines was written from `(x, y)`
    /// downwards.
    pub open spec fn write_lines_spec(cells: Seq<Seq<char>>, lines: Seq<Seq<char>>, x: int, y: int) -> Seq<Seq<char>>
        decreases lines.len(),
    {
        if lines.len() == 0 {
            cells
        } else {
            let after = if y < cells.len() {
                cells.update(y, Self::write_row(cells[y], x, lines[0]))
            } else {
                cells
            };
            Self::write_lines_spec(after, lines.drop_first(), x, y + 1)
        }
    }

    /// Writes several lines, one under the other, starting at `(x, y)`.
    pub fn write_lines(&mut self, lines: &Vec<String>, x: usize, y: usize)
        requires
            old(self).wf(),
            y + lines@.len() <= usize::MAX,
        ensures
            final(self).wf(),
            final(self).width == old(self).width,
            final(self).height == old(self).height,
            cells_view(final(self).cells@) == Self::write_lines_spec(
                cells_view(old(self).cells@),
                lines@.map_values(|l: String| l@),
                x as int,
                y as int,
            ),
    {
        let ghost lv = lines@.map_values(|l: String| l@);
        let ghost c0 = cells_view(self.cells@);
        let mut k: usize = 0;
        proof {
            assert(lv.skip(0) =~= lv);
        }
        while k < lines.len()
            invariant
                k <= lines@.len(),
                y + lines@.len() <= usize::MAX,
                lv == lines@.map_values(|l: String| l@),
                self.wf(),
                self.width == old(self).width,
                self.height == old(self).height,
                Self::write_lines_spec(c0, lv, x as int, y as int) == Self::write_lines_spec(
                    cells_view(self.cells@),
                    lv.skip(k as int),
                    x as int,
                    y + k,
                ),
                c0 == cells_view(old(self).cells@),
            decreases lines@.len() - k,
        {
            let ghost rest = lv.skip(k as int);
            let ghost cprev = cells_view(self.cells@);
            proof {
                assert(rest[0] == lv[k as int]);
                assert(rest.drop_first() =~= lv.skip(k + 1));
                assert(lv[k as int] == lines@[k as int]@);
            }
            self.write_text(lines[k].as_str(), x, y + k);
            proof {
                if y + k < cprev.len() {
                    assert(cells_view(self.cells@) =~= cprev.update(
                        y + k,
                        Self::write_row(cprev[y + k as int], x as int, rest[0]),
                    ));
                } else {
                    assert(cells_view(self.cells@) =~= cprev);
                }
                assert(Self::write_lines_spec(cprev, rest, x as int, y + k)
                    == Self::write_lines_spec(
                    cells_view(self.cells@),
                    rest.drop_first(),
                    x as int,
                    y + k + 1,
                ));
            }
            k = k + 1;
        }
        proof {
            assert(lv.skip(lines@.len() as int) =~= Seq::<Seq<char>>::empty());
        }
    }

    /// The frame's rows joined with newlines.
    pub open spec fn join_rows(rows: Seq<Seq<char>>) -> Seq<char>
        decreases rows.len(),
    {
        if rows.len() == 0 {
            Seq::empty()
        } else if rows.len() == 1 {
            rows[0]
        } else {
            rows[0] + seq!['\n'] + Self::join_rows(rows.drop_first())
        }
    }

    /// The whole frame as one string, rows joined with newlines.
    pub fn to_string(&self) -> (r: String)
        ensures
            r@ == Self::join_rows(cells_view(self.cells@)),
    {
        let ghost rows = cells_view(self.cells@);
        let mut out = String::new();
        let mut i: usize = 0;
        proof {
            assert(rows.skip(0) =~= rows);
            assert(out@ + Self::join_rows(rows.skip(0)) =~= Self::join_rows(rows));
        }
        while i < self.cells.len()
            invariant
                i <= self.cells@.len(),
                rows == cells_view(self.cells@),
                out@ + Self::join_rows(rows.skip(i as int)) == Self::join_rows(rows),
            decreases self.cells@.len() - i,
        {
            let ghost rest = rows.skip(i as int);
            proof {
                assert(rest[0] == rows[i as int]);
                assert(rest.drop_first() =~= rows.skip(i + 1));
                assert(rows[i as int] == self.cells@[i as int]@);
            }
            let line = string_from_chars(&self.cells[i]);
            push_str(&mut out, line.as_str());
            if i + 1 < self.cells.len() {
                push_char(&mut out, '\n');
                proof {
                    assert(rest.len() > 1);
                    assert(Self::join_rows(rest) == rest[0] + seq!['\n'] + Self::join_rows(
                        rest.drop_first(),
                    ));
                }
            } else {
                proof {
                    assert(rest.len() == 1);
                    assert(Self::join_rows(rest) == rest[0]);
                    assert(Self::join_rows(rest.drop_first()) =~= Seq::<char>::empty());
                    assert(out@ + Seq::<char>::empty() =~= out@);
                }
            }
            i = i + 1;
        }
        proof {
            assert(rows.skip(self.cells@.len() as int) =~= Seq::<Seq<char>>::empty());
            assert(Self::join_rows(rows.skip(self.cells@.len() as int)) =~= Seq::<char>::empty());
            assert(out@ + Seq::<char>::empty() =~= out@);
        }
        out
    }

    /// A trailing-blank character.
    pub open spec fn is_trailing_blank(c: char) -> bool {
        c == ' ' || c == '\t'
    }

    /// A row with its trailing blanks removed.
    pub open spec fn trim_row(row: Seq<char>) -> Seq<char>
        decreases row.len(),
    {
        if row.len() > 0 && Self::is_trailing_blank(row.last()) {
            Self::trim_row(row.drop_last())
        } else {
            row
        }
    }

    /// The largest index of a non-empty trimmed row, or zero.
    pub open spec fn last_nonempty(rows: Seq<Seq<char>>) -> int
        decreases rows.len(),
    {
        if rows.len() == 0 {
            0
        } else if Self::trim_row(rows.last()).len() > 0 {
            rows.len() - 1
        } else if rows.len() == 1 {
            0
        } else {
            Self::last_nonempty(rows.drop_last())
        }
    }

    /// The frame as one string with trailing blanks removed from each
    /// row and trailing empty rows dropped (the first row always stays).
    pub fn to_trimmed_string(&self) -> (r: String)
        ensures
            r@ == Self::join_rows(
                cells_view(self.cells@).map_values(|row: Seq<char>| Self::trim_row(row)).take(
                    Self::last_nonempty(
                        cells_view(self.cells@).map_values(|row: Seq<char>| Self::trim_row(row)),
                    ) + 1,
                ),
            ) || cells_view(self.cells@).len() == 0 && r@ == Seq::<char>::empty(),
    {
        let ghost rows = cells_view(self.cells@);
        let ghost trimmed = rows.map_values(|row: Seq<char>| Self::trim_row(row));
        if self.cells.len() == 0 {
            proof {
                assert(rows.len() == 0);
            }
            return String::new();
        }
        let mut trows: Vec<Vec<char>> = Vec::new();
        let mut i: usize = 0;
        proof {
            assert(cells_view(trows@) =~= trimmed.take(0));
        }
        while i < self.cells.len()
            invariant
                i <= self.cells@.len(),
                rows == cells_view(self.cells@),
                trimmed == rows.map_values(|row: Seq<char>| Self::trim_row(row)),
                cells_view(trows@) == trimmed.take(i as int),
            decreases self.cells@.len() - i,
        {
            let row = &self.cells[i];
            let mut end: usize = row.len();
            proof {
                assert(row@.take(row@.len() as int) =~= row@);
            }
            while end > 0 && (row[end - 1] == ' ' || row[end - 1] == '\t')
                invariant
                    end <= row@.len(),
                    row@ == self.cells@[i as int]@,
                    i < self.cells@.len(),
                    Self::trim_row(row@) == Self::trim_row(row@.take(end as int)),
                decreases end,
            {
                proof {
                    assert(row@.take(end as int).last() == row@[end - 1]);
                    assert(row@.take(end as int).drop_last() =~= row@.take(end - 1));
                }
                end = end - 1;
            }
            let mut tr: Vec<char> = Vec::new();
            let mut j: usize = 0;
            while j < end
                invariant
                    j <= end <= row@.len(),
                    row@ == self.cells@[i as int]@,
                    i < self.cells@.len(),
                    tr@ == row@.take(end as int).take(j as int),
                decreases end - j,
            {
                tr.push(row[j]);
                proof {
                    assert(row@.take(end as int).take(j + 1 as int) =~= row@.take(
                        end as int,
                    ).take(j as int).push(row@[j as int]));
                }
                j = j + 1;
            }
            proof {
                assert(tr@ =~= row@.take(end as int));
                assert(end == 0 || !Self::is_trailing_blank(row@.take(end as int).last()))
                    by {
                    if end > 0 {
                        assert(row@.take(end as int).last() == row@[end - 1]);
                    }
                }
                assert(Self::trim_row(row@.take(end as int)) == row@.take(end as int));
                assert(trimmed[i as int] == Self::trim_row(rows[i as int]));
                assert(rows[i as int] == row@);
                assert(tr@ == trimmed[i as int]);
            }
            let ghost tprev = cells_view(trows@);
            trows.push(tr);
            proof {
                assert(cells_view(trows@) =~= tprev.push(trimmed[i as int]));
                assert(trimmed.take(i + 1 as int) =~= trimmed.take(i as int).push(
                    trimmed[i as int],
                ));
            }
            i = i + 1;
        }
        proof {
            assert(trimmed.take(self.cells@.len() as int) =~= trimmed);
            assert(cells_view(trows@) == trimmed);
        }
        let mut last_non_empty: usize = 0;
        let mut k: usize = 0;
        while k < trows.len()
            invariant
                k <= trows@.len(),
                rows == cells_view(self.cells@),
                trimmed == rows.map_values(|row: Seq<char>| Self::trim_row(row)),
                cells_view(trows@) == trimmed,
                trows@.len() == trimmed.len(),
                trimmed.len() > 0,
                last_non_empty as int == Self::last_nonempty(trimmed.take(k as int)),
                last_non_empty < trimmed.len(),
            decreases trows@.len() - k,
        {
            proof {
                assert(trimmed.take(k + 1 as int).last() == trimmed[k as int]);
                assert(trimmed.take(k + 1 as int).drop_last() =~= trimmed.take(k as int));
                assert(trimmed[k as int] == trows@[k as int]@);
                assert(trimmed[k as int] == Self::trim_row(rows[k as int]));
                lemma_trim_fix(rows[k as int]);
            }
            if trows[k].len() > 0 {
                last_non_empty = k;
            }
            k = k + 1;
        }
        proof {
            assert(trimmed.take(trimmed.len() as int) =~= trimmed);
        }
        let mut out = String::new();
        let ghost shown = trimmed.take(last_non_empty + 1);
        let mut m: usize = 0;
        proof {
            assert(shown.skip(0) =~= shown);
            assert(out@ + Self::join_rows(shown.skip(0)) =~= Self::join_rows(shown));
        }
        while m <= last_non_empty
            invariant
                last_non_empty < trows.len(),
                m <= last_non_empty + 1,
                cells_view(trows@) == trimmed,
                trows@.len() == trimmed.len(),
                shown == trimmed.take(last_non_empty + 1),
                out@ + Self::join_rows(shown.skip(m as int)) == Self::join_rows(shown),
            decreases last_non_empty + 1 - m,
        {
            let ghost rest = shown.skip(m as int);
            proof {
                assert(rest[0] == shown[m as int]);
                assert(shown[m as int] == trimmed[m as int]);
                assert(rest.drop_first() =~= shown.skip(m + 1));
                assert(trimmed[m as int] == trows@[m as int]@);
            }
            let line = string_from_chars(&trows[m]);
            push_str(&mut out, line.as_str());
            if m < last_non_empty {
                push_char(&mut out, '\n');
                proof {
                    assert(rest.len() > 1);
                    assert(Self::join_rows(rest) == rest[0] + seq!['\n'] + Self::join_rows(
                        rest.drop_first(),
                    ));
                }
            } else {
                proof {
                    assert(rest.len() == 1);
                    assert(Self::join_rows(rest) == rest[0]);
                    assert(Self::join_rows(rest.drop_first()) =~= Seq::<char>::empty());
                    assert(out@ + Seq::<char>::empty() =~= out@);
                }
            }
            m = m + 1;
        }
        proof {
            assert(shown.skip(last_non_empty + 1 as int) =~= Seq::<Seq<char>>::empty());
            assert(Self::join_rows(shown.skip(last_non_empty + 1 as int)) =~= Seq::<
                char,
            >::empty());
            assert(out@ + Seq::<char>::empty() =~= out@);
        }
        out
    }
}

/// `trim_row` reaches a fixed point.
proof fn lemma_trim_fix(row: Seq<char>)
    ensures
        Frame::trim_row(Frame::trim_row(row)) == Frame::trim_row(row),
    decreases row.len(),
{
    if row.len() > 0 && Frame::is_trailing_blank(row.last()) {
        lemma_trim_fix(row.drop_last());
    }
}

impl Clone for Frame {
    /// Clones a frame; the copy has the same grid.
    fn clone(&self) -> (r: Self)
        ensures
            cells_view(r.cells@) == cells_view(self.cells@),
            r.width == self.width,
            r.height == self.height,
    {
        let mut cells: Vec<Vec<char>> = Vec::new();
        let mut i: usize = 0;
        while i < self.cells.len()
            invariant
                i <= self.cells@.len(),
                cells_view(cells@) == cells_view(self.cells@).take(i as int),
            decreases self.cells@.len() - i,
        {
            proof {
                assert(cells_view(cells@).len() == cells@.len());
                assert(cells@.len() == i as int);
            }
            let row: Vec<char> = self.cells[i].clone();
            proof {
                assert(row@ =~= self.cells@[i as int]@) by {
                    assert(forall|k: int|
                        0 <= k < self.cells@[i as int]@.len() ==> cloned::<char>(
                            self.cells@[i as int]@[k],
                            row@[k],
                        ));
                }
            }
            cells.push(row);
            proof {
                assert(cells_view(cells@) =~= cells_view(self.cells@).take(i + 1 as int));
            }
            i = i + 1;
        }
        proof {
            assert(cells_view(self.cells@).take(self.cells@.len() as int) =~= cells_view(
                self.cells@,
            ));
        }
        Frame { cells, height: self.height, width: self.width }
    }
}

} // verus!
