//! The lexical symbol extractor: a line-oriented byte scan over source file
//! contents that recognises top-level `struct`, `enum` and `fn` definitions
//! without building a syntax tree.  Best effort by design: a line either
//! matches one of the known definition shapes or contributes nothing.

use vstd::prelude::*;

verus! {

broadcast use vstd::std_specs::vec::group_vec_axioms;

/// The kind of an extracted definition.
#[derive(Debug, Clone, Copy, PartialEq, Eq, Structural)]
pub enum TypeKind {
    Struct,
    Enum,
    Function,
    PubFunction,
}

/// One extracted definition: its kind, its name, the path of the file it
/// came from, and its 1-based line number.
#[derive(Debug)]
pub struct TypeDefinition {
    pub type_kind: TypeKind,
    pub name: String,
    pub file_path: String,
    pub line_number: usize,
}

/// The mathematical model of a [`TypeDefinition`].
pub struct TypeDefinitionModel {
    pub type_kind: TypeKind,
    pub name: Seq<char>,
    pub file_path: Seq<char>,
    pub line_number: int,
}

impl View for TypeDefinition {
    type V = TypeDefinitionModel;

    open spec fn view(&self) -> TypeDefinitionModel {
        TypeDefinitionModel {
            type_kind: self.type_kind,
            name: self.name@,
            file_path: self.file_path@,
            line_number: self.line_number as int,
        }
    }
}

impl Clone for TypeDefinition {
    /// Clones a definition; the copy has the same model.
    fn clone(&self) -> (r: Self)
        ensures
            r@ == self@,
    {
        TypeDefinition {
            type_kind: self.type_kind,
            name: self.name.clone(),
            file_path: self.file_path.clone(),
            line_number: self.line_number,
        }
    }
}

/// Scanning stops once this many definitions were recorded in one file.
pub const MAX_SYMBOLS_PER_FILE: usize = 300;

/// Files longer than this many bytes are not scanned at all.
pub const MAX_SCANNED_FILE_BYTES: usize = 1000000;

/// A blank byte inside a line: space or tab.
pub open spec fn is_blank_byte(b: u8) -> bool {
    b == 32 || b == 9
}

/// A byte that ends an identifier: `<`, `{`, `(`, `;` or whitespace.
pub open spec fn is_term_byte(b: u8) -> bool {
    b == 60 || b == 123 || b == 40 || b == 59 || b == 32 || b == 9 || b == 10 || b == 13
}

/// A byte that may start an identifier: an ASCII letter or underscore.
pub open spec fn is_ident_start_byte(b: u8) -> bool {
    (65 <= b && b <= 90) || (97 <= b && b <= 122) || b == 95
}

/// The index of the first non-blank byte at or after `i`, or the length.
pub open spec fn skip_blanks(line: Seq<u8>, i: int) -> int
    decreases line.len() - i when 0 <= i <= line.len()
{
    if i < line.len() && is_blank_byte(line[i]) {
        skip_blanks(line, i + 1)
    } else {
        i
    }
}

/// The index of the first `)` at or after `i`, or the length.
pub open spec fn skip_to_close(line: Seq<u8>, i: int) -> int
    decreases line.len() - i when 0 <= i <= line.len()
{
    if i < line.len() && line[i] != 41 {
        skip_to_close(line, i + 1)
    } else {
        i
    }
}

/// The index of the first identifier-terminating byte at or after `i`,
/// or the length.
pub open spec fn ident_end(bytes: Seq<u8>, i: int) -> int
    decreases bytes.len() - i when 0 <= i <= bytes.len()
{
    if i < bytes.len() && !is_term_byte(bytes[i]) {
        ident_end(bytes, i + 1)
    } else {
        i
    }
}

/// The index of the first newline byte at or after `pos`, or the length.
pub open spec fn line_break(bytes: Seq<u8>, pos: int) -> int
    decreases bytes.len() - pos when 0 <= pos <= bytes.len()
{
    if pos < bytes.len() && bytes[pos] != 10 {
        line_break(bytes, pos + 1)
    } else {
        pos
    }
}

/// Basic bounds of `line_break`.
pub proof fn lemma_line_break(bytes: Seq<u8>, pos: int)
    requires
        0 <= pos <= bytes.len(),
    ensures
        pos <= line_break(bytes, pos) <= bytes.len(),
        forall|k: int| pos <= k < line_break(bytes, pos) ==> bytes[k] != 10,
        line_break(bytes, pos) < bytes.len() ==> bytes[line_break(bytes, pos)] == 10,
    decreases bytes.len() - pos,
{
    if pos < bytes.len() && bytes[pos] != 10 {
        lemma_line_break(bytes, pos + 1);
    }
}

pub open spec fn kw_pub() -> Seq<u8> {
    seq![112u8, 117u8, 98u8]
}

pub open spec fn kw_struct() -> Seq<u8> {
    seq![115u8, 116u8, 114u8, 117u8, 99u8, 116u8]
}

pub open spec fn kw_enum() -> Seq<u8> {
    seq![101u8, 110u8, 117u8, 109u8]
}

pub open spec fn kw_fn() -> Seq<u8> {
    seq![102u8, 110u8]
}

/// Whether a (whitespace-trimmed) line begins with a visibility qualifier.
pub open spec fn has_vis(line: Seq<u8>) -> bool {
    line.len() >= 3 && line.subrange(0, 3) == kw_pub()
}

/// The index of the first byte after the optional visibility qualifier: a
/// leading `pub`, an optional parenthesised scope, and trailing blanks.
pub open spec fn vis_end(line: Seq<u8>) -> int {
    if has_vis(line) {
        let j = if 3 < line.len() && line[3] == 40 {
            let k = skip_to_close(line, 3);
            if k < line.len() {
                k + 1
            } else {
                k
            }
        } else {
            3
        };
        skip_blanks(line, j)
    } else {
        0
    }
}

/// What lossy UTF-8 decoding yields for a byte sequence; the result
/// depends on the bytes alone.
pub uninterp spec fn lossy_utf8(bytes: Seq<u8>) -> Seq<char>;

/// The identifier that starts the given byte sequence: the bytes up to
/// the first terminator, required to be non-empty and to start with an
/// ASCII letter or underscore, decoded lazily and lossily.
pub open spec fn spec_identifier(bytes: Seq<u8>) -> Option<Seq<char>> {
    let end = ident_end(bytes, 0);
    if end == 0 {
        None
    } else if !is_ident_start_byte(bytes[0]) {
        None
    } else {
        Some(lossy_utf8(bytes.subrange(0, end)))
    }
}

/// The definition declared by a trimmed line, if any: after the optional
/// visibility qualifier the line must carry one of the three keywords,
/// a space, and an identifier.  A `fn` under a visibility qualifier is a
/// public function.
pub open spec fn spec_keyword_symbol(line: Seq<u8>) -> Option<(TypeKind, Seq<char>)> {
    let i = vis_end(line);
    if i + 7 <= line.len() && line.subrange(i, i + 6) == kw_struct() && line[i + 6] == 32 {
        match spec_identifier(line.skip(i + 7)) {
            Some(n) => Some((TypeKind::Struct, n)),
            None => None,
        }
    } else if i + 5 <= line.len() && line.subrange(i, i + 4) == kw_enum() && line[i + 4] == 32 {
        match spec_identifier(line.skip(i + 5)) {
            Some(n) => Some((TypeKind::Enum, n)),
            None => None,
        }
    } else if i + 3 <= line.len() && line.subrange(i, i + 2) == kw_fn() && line[i + 2] == 32 {
        match spec_identifier(line.skip(i + 3)) {
            Some(n) => Some(
                (
                    if has_vis(line) {
                        TypeKind::PubFunction
                    } else {
                        TypeKind::Function
                    },
                    n,
                ),
            ),
            None => None,
        }
    } else {
        None
    }
}

/// The definition declared by a raw line, if any: leading blanks are
/// dropped, and a line whose first non-blank content opens a comment
/// yields nothing.
pub open spec fn spec_line_symbol(line: Seq<u8>) -> Option<(TypeKind, Seq<char>)> {
    if line.len() == 0 {
        None
    } else {
        let s = skip_blanks(line, 0);
        if s == line.len() {
            None
        } else {
            let t = line.skip(s);
            if t.len() >= 2 && t[0] == 47 && (t[1] == 47 || t[1] == 42) {
                None
            } else {
                spec_keyword_symbol(t)
            }
        }
    }
}

/// The definitions of a byte buffer from position `pos` on, where `pos`
/// starts a line numbered `line_num` and `found` definitions were already
/// recorded.  Scanning stops once [`MAX_SYMBOLS_PER_FILE`] definitions
/// have been recorded.
pub open spec fn spec_scan_from(bytes: Seq<u8>, pos: int, line_num: int, found: int) -> Seq<
    (TypeKind, Seq<char>, int),
>
    decreases bytes.len() - pos when 0 <= pos <= bytes.len() via spec_scan_from_dec
{
    if pos >= bytes.len() {
        Seq::empty()
    } else {
        let le = line_break(bytes, pos);
        let line = bytes.subrange(pos, le);
        let rest = if le + 1 <= bytes.len() {
            le + 1
        } else {
            bytes.len() as int
        };
        match spec_line_symbol(line) {
            Some(sym) => {
                let entry = (sym.0, sym.1, line_num);
                if found + 1 >= MAX_SYMBOLS_PER_FILE {
                    seq![entry]
                } else {
                    seq![entry] + spec_scan_from(bytes, rest, line_num + 1, found + 1)
                }
            },
            None => spec_scan_from(bytes, rest, line_num + 1, found),
        }
    }
}

#[via_fn]
proof fn spec_scan_from_dec(bytes: Seq<u8>, pos: int, line_num: int, found: int) {
    if 0 <= pos <= bytes.len() {
        lemma_line_break(bytes, pos);
    }
}

/// All definitions of a byte buffer, at most [`MAX_SYMBOLS_PER_FILE`].
pub open spec fn spec_scan(bytes: Seq<u8>) -> Seq<(TypeKind, Seq<char>, int)> {
    spec_scan_from(bytes, 0, 1, 0)
}

/// The definition models that a scan of `syms` produces for a file at
/// `path`.
pub open spec fn syms_with_path(syms: Seq<(TypeKind, Seq<char>, int)>, path: Seq<char>) -> Seq<
    TypeDefinitionModel,
> {
    syms.map_values(
        |t: (TypeKind, Seq<char>, int)|
            TypeDefinitionModel {
                type_kind: t.0,
                name: t.1,
                file_path: path,
                line_number: t.2,
            },
    )
}

/// The view of a definition list, definition by definition.
pub open spec fn defs_view(defs: Seq<TypeDefinition>) -> Seq<TypeDefinitionModel> {
    defs.map_values(|d: TypeDefinition| d@)
}

/// Relies on `memchr::memchr` of the memchr crate: returns the index of
/// the first occurrence of `needle` in `haystack`, or `None` if the byte
/// does not occur.
pub assume_specification[ memchr::memchr ](needle: u8, haystack: &[u8]) -> (r: Option<usize>)
    ensures
        match r {
            Some(i) => i < haystack@.len() && haystack@[i as int] == needle && forall|k: int|
                0 <= k < i ==> haystack@[k] != needle,
            None => forall|k: int| 0 <= k < haystack@.len() ==> haystack@[k] != needle,
        },
;

proof fn lemma_skip_blanks(line: Seq<u8>, i: int)
    requires
        0 <= i <= line.len(),
    ensures
        i <= skip_blanks(line, i) <= line.len(),
        forall|k: int| i <= k < skip_blanks(line, i) ==> is_blank_byte(line[k]),
        skip_blanks(line, i) < line.len() ==> !is_blank_byte(line[skip_blanks(line, i)]),
    decreases line.len() - i,
{
    if i < line.len() && is_blank_byte(line[i]) {
        lemma_skip_blanks(line, i + 1);
    }
}

/// A pointwise characterisation pins `line_break` down: if nothing before
/// `j` is a newline and `j` is a newline or the end, the break is at `j`.
proof fn lemma_line_break_at(bytes: Seq<u8>, pos: int, j: int)
    requires
        0 <= pos <= j <= bytes.len(),
        forall|k: int| pos <= k < j ==> bytes[k] != 10,
        j == bytes.len() || bytes[j] == 10,
    ensures
        line_break(bytes, pos) == j,
    decreases j - pos,
{
    if pos < j {
        lemma_line_break_at(bytes, pos + 1, j);
    }
}

/// Finds the first non-blank position in a line, mirroring `skip_blanks`.
fn first_non_blank(line: &[u8]) -> (r: usize)
    ensures
        r == skip_blanks(line@, 0),
        r <= line@.len(),
{
    proof {
        lemma_skip_blanks(line@, 0);
    }
    let n = line.len();
    let mut i: usize = 0;
    while i < n && (line[i] == 32 || line[i] == 9)
        invariant
            n == line@.len(),
            i <= n,
            forall|k: int| 0 <= k < i ==> is_blank_byte(line@[k]),
            skip_blanks(line@, 0) >= i,
        decreases n - i,
    {
        proof {
            lemma_skip_blanks_step(line@, 0, i as int);
        }
        i = i + 1;
    }
    proof {
        lemma_skip_blanks_pin(line@, 0, i as int);
    }
    i
}

/// If everything in `[s, j)` is blank, the skip from `s` reaches at least
/// `j + 1` whenever `j` itself is blank.
proof fn lemma_skip_blanks_step(line: Seq<u8>, s: int, j: int)
    requires
        0 <= s <= j < line.len(),
        forall|k: int| s <= k < j ==> is_blank_byte(line[k]),
        is_blank_byte(line[j]),
    ensures
        skip_blanks(line, s) >= j + 1,
    decreases j - s,
{
    if s < j {
        lemma_skip_blanks_step(line, s + 1, j);
    } else {
        lemma_skip_blanks(line, s + 1);
    }
}

/// If everything in `[s, j)` is blank and `j` is the end or non-blank,
/// the skip from `s` is exactly `j`.
proof fn lemma_skip_blanks_pin(line: Seq<u8>, s: int, j: int)
    requires
        0 <= s <= j <= line.len(),
        forall|k: int| s <= k < j ==> is_blank_byte(line[k]),
        j == line.len() || !is_blank_byte(line[j]),
    ensures
        skip_blanks(line, s) == j,
    decreases j - s,
{
    if s < j {
        lemma_skip_blanks_pin(line, s + 1, j);
    }
}

/// Counterparts of the two lemmas above for `skip_to_close`.
proof fn lemma_skip_to_close_pin(line: Seq<u8>, s: int, j: int)
    requires
        0 <= s <= j <= line.len(),
        forall|k: int| s <= k < j ==> line[k] != 41,
        j == line.len() || line[j] == 41,
    ensures
        skip_to_close(line, s) == j,
    decreases j - s,
{
    if s < j {
        lemma_skip_to_close_pin(line, s + 1, j);
    }
}

/// Counterpart of `lemma_skip_blanks_pin` for `ident_end`.
proof fn lemma_ident_end_pin(bytes: Seq<u8>, s: int, j: int)
    requires
        0 <= s <= j <= bytes.len(),
        forall|k: int| s <= k < j ==> !is_term_byte(bytes[k]),
        j == bytes.len() || is_term_byte(bytes[j]),
    ensures
        ident_end(bytes, s) == j,
    decreases j - s,
{
    if s < j {
        lemma_ident_end_pin(bytes, s + 1, j);
    }
}

/// Relies on `String::from_utf8_lossy` of std: decodes the bytes as
/// UTF-8, substituting the replacement character for invalid sequences;
/// well-formed UTF-8 decodes exactly.
#[verifier::external_body]
fn from_utf8_lossy(bytes: &[u8]) -> (r: String)
    ensures
        r@ == lossy_utf8(bytes@),
        vstd::utf8::valid_utf8(bytes@) ==> r@ == vstd::utf8::decode_utf8(bytes@),
{
    String::from_utf8_lossy(bytes).into_owned()
}

/// Extracts the leading identifier of `bytes`, if there is one.
pub fn extract_identifier(bytes: &[u8]) -> (r: Option<String>)
    ensures
        (r is Some) == (spec_identifier(bytes@) is Some),
        r is Some ==> r.unwrap()@ == spec_identifier(bytes@).unwrap(),
{
    let n = bytes.len();
    let mut end: usize = 0;
    while end < n && !(bytes[end] == 60 || bytes[end] == 123 || bytes[end] == 40 || bytes[end]
        == 59 || bytes[end] == 32 || bytes[end] == 9 || bytes[end] == 10 || bytes[end] == 13)
        invariant
            n == bytes@.len(),
            end <= n,
            forall|k: int| 0 <= k < end ==> !is_term_byte(bytes@[k]),
        decreases n - end,
    {
        end = end + 1;
    }
    proof {
        lemma_ident_end_pin(bytes@, 0, end as int);
    }
    if end == 0 {
        return None;
    }
    if !((65 <= bytes[0] && bytes[0] <= 90) || (97 <= bytes[0] && bytes[0] <= 122) || bytes[0]
        == 95) {
        return None;
    }
    let name_bytes = vstd::slice::slice_subrange(bytes, 0, end);
    proof {
        assert(name_bytes@ =~= bytes@.subrange(0, end as int));
    }
    Some(from_utf8_lossy(name_bytes))
}

/// Whether `struct ` (keyword plus one space) stands at position `i`.
fn kw_struct_at(line: &[u8], i: usize) -> (r: bool)
    requires
        i <= line@.len(),
    ensures
        r == (i + 7 <= line@.len() && line@.subrange(i as int, i as int + 6) == kw_struct()
            && line@[i as int + 6] == 32),
{
    if line.len() - i < 7 {
        return false;
    }
    let r = line[i] == 115 && line[i + 1] == 116 && line[i + 2] == 114 && line[i + 3] == 117
        && line[i + 4] == 99 && line[i + 5] == 116 && line[i + 6] == 32;
    proof {
        let s = line@.subrange(i as int, i as int + 6);
        assert(s[0] == line@[i as int]);
        assert(s[1] == line@[i as int + 1]);
        assert(s[2] == line@[i as int + 2]);
        assert(s[3] == line@[i as int + 3]);
        assert(s[4] == line@[i as int + 4]);
        assert(s[5] == line@[i as int + 5]);
        if r {
            assert(s =~= kw_struct());
        }
    }
    r
}

/// Whether `enum ` stands at position `i`.
fn kw_enum_at(line: &[u8], i: usize) -> (r: bool)
    requires
        i <= line@.len(),
    ensures
        r == (i + 5 <= line@.len() && line@.subrange(i as int, i as int + 4) == kw_enum()
            && line@[i as int + 4] == 32),
{
    if line.len() - i < 5 {
        return false;
    }
    let r = line[i] == 101 && line[i + 1] == 110 && line[i + 2] == 117 && line[i + 3] == 109
        && line[i + 4] == 32;
    proof {
        let s = line@.subrange(i as int, i as int + 4);
        assert(s[0] == line@[i as int]);
        assert(s[1] == line@[i as int + 1]);
        assert(s[2] == line@[i as int + 2]);
        assert(s[3] == line@[i as int + 3]);
        if r {
            assert(s =~= kw_enum());
        }
    }
    r
}

/// Whether `fn ` stands at position `i`.
fn kw_fn_at(line: &[u8], i: usize) -> (r: bool)
    requires
        i <= line@.len(),
    ensures
        r == (i + 3 <= line@.len() && line@.subrange(i as int, i as int + 2) == kw_fn()
            && line@[i as int + 2] == 32),
{
    if line.len() - i < 3 {
        return false;
    }
    let r = line[i] == 102 && line[i + 1] == 110 && line[i + 2] == 32;
    proof {
        let s = line@.subrange(i as int, i as int + 2);
        assert(s[0] == line@[i as int]);
        assert(s[1] == line@[i as int + 1]);
        if r {
            assert(s =~= kw_fn());
        }
    }
    r
}

/// Extracts the definition declared by an already-trimmed line, if any.
/// The line must have its leading whitespace removed.
pub fn extract_definition(line: &[u8], file_path: &str, line_number: usize) -> (r: Option<
    TypeDefinition,
>)
    ensures
        (r is Some) == (spec_keyword_symbol(line@) is Some),
        r is Some ==> {
            let sym = spec_keyword_symbol(line@).unwrap();
            r.unwrap()@ == (TypeDefinitionModel {
                type_kind: sym.0,
                name: sym.1,
                file_path: file_path@,
                line_number: line_number as int,
            })
        },
{
    let n = line.len();
    let mut i: usize = 0;
    let mut saw_pub = false;
    if n >= 3 && line[0] == 112 && line[1] == 117 && line[2] == 98 {
        proof {
            assert(line@.subrange(0, 3) =~= kw_pub());
        }
        saw_pub = true;
        i = 3;
        if i < n && line[i] == 40 {
            while i < n && line[i] != 41
                invariant
                    n == line@.len(),
                    3 <= i <= n,
                    forall|k: int| 3 <= k < i ==> line@[k] != 41,
                decreases n - i,
            {
                i = i + 1;
            }
            proof {
                lemma_skip_to_close_pin(line@, 3, i as int);
            }
            if i < n {
                i = i + 1;
            }
        }
        let ghost j = i as int;
        proof {
            assert(j == if 3 < line@.len() && line@[3] == 40 {
                let k = skip_to_close(line@, 3);
                if k < line@.len() {
                    k + 1
                } else {
                    k
                }
            } else {
                3
            });
        }
        let start = i;
        while i < n && (line[i] == 32 || line[i] == 9)
            invariant
                n == line@.len(),
                start <= i <= n,
                j == start as int,
                forall|k: int| start <= k < i ==> is_blank_byte(line@[k]),
            decreases n - i,
        {
            i = i + 1;
        }
        proof {
            lemma_skip_blanks_pin(line@, j, i as int);
            assert(i as int == vis_end(line@));
        }
    } else {
        proof {
            if has_vis(line@) {
                assert(line@.subrange(0, 3)[0] == line@[0]);
                assert(line@.subrange(0, 3)[1] == line@[1]);
                assert(line@.subrange(0, 3)[2] == line@[2]);
            }
            assert(!has_vis(line@));
            assert(i as int == vis_end(line@));
        }
    }
    proof {
        assert(saw_pub == has_vis(line@));
    }
    if kw_struct_at(line, i) {
        let rest = vstd::slice::slice_subrange(line, i + 7, n);
        proof {
            assert(rest@ =~= line@.skip(i as int + 7));
        }
        match extract_identifier(rest) {
            Some(name) => Some(
                TypeDefinition {
                    type_kind: TypeKind::Struct,
                    name,
                    file_path: file_path.to_owned(),
                    line_number,
                },
            ),
            None => None,
        }
    } else if kw_enum_at(line, i) {
        let rest = vstd::slice::slice_subrange(line, i + 5, n);
        proof {
            assert(rest@ =~= line@.skip(i as int + 5));
        }
        match extract_identifier(rest) {
            Some(name) => Some(
                TypeDefinition {
                    type_kind: TypeKind::Enum,
                    name,
                    file_path: file_path.to_owned(),
                    line_number,
                },
            ),
            None => None,
        }
    } else if kw_fn_at(line, i) {
        let rest = vstd::slice::slice_subrange(line, i + 3, n);
        proof {
            assert(rest@ =~= line@.skip(i as int + 3));
        }
        match extract_identifier(rest) {
            Some(name) => Some(
                TypeDefinition {
                    type_kind: if saw_pub {
                        TypeKind::PubFunction
                    } else {
                        TypeKind::Function
                    },
                    name,
                    file_path: file_path.to_owned(),
                    line_number,
                },
            ),
            None => None,
        }
    } else {
        None
    }
}

/// Extracts the definition declared by a raw (untrimmed) line, if any.
fn line_symbol(line: &[u8], file_path: &str, line_number: usize) -> (r: Option<TypeDefinition>)
    ensures
        (r is Some) == (spec_line_symbol(line@) is Some),
        r is Some ==> {
            let sym = spec_line_symbol(line@).unwrap();
            r.unwrap()@ == (TypeDefinitionModel {
                type_kind: sym.0,
                name: sym.1,
                file_path: file_path@,
                line_number: line_number as int,
            })
        },
{
    let n = line.len();
    if n == 0 {
        return None;
    }
    let s = first_non_blank(line);
    if s == n {
        return None;
    }
    let trimmed = vstd::slice::slice_subrange(line, s, n);
    proof {
        assert(trimmed@ =~= line@.skip(s as int));
    }
    if trimmed.len() >= 2 && trimmed[0] == 47 && (trimmed[1] == 47 || trimmed[1] == 42) {
        return None;
    }
    extract_definition(trimmed, file_path, line_number)
}

/// Scans a source buffer line by line, recording at most
/// [`MAX_SYMBOLS_PER_FILE`] definitions in line order.
pub fn scan_with_bytes(bytes: &[u8], file_path: &str) -> (r: Vec<TypeDefinition>)
    requires
        bytes@.len() < usize::MAX,
    ensures
        defs_view(r@) == syms_with_path(spec_scan(bytes@), file_path@),
{
    let n = bytes.len();
    let mut defs: Vec<TypeDefinition> = Vec::new();
    let mut line_num: usize = 1;
    let mut pos: usize = 0;
    proof {
        assert(defs_view(defs@) =~= Seq::<TypeDefinitionModel>::empty());
        assert(defs_view(defs@) + syms_with_path(
            spec_scan_from(bytes@, 0, 1, 0),
            file_path@,
        ) =~= syms_with_path(spec_scan(bytes@), file_path@));
    }
    loop
        invariant_except_break
            n == bytes@.len(),
            n < usize::MAX,
            pos <= n,
            1 <= line_num <= pos + 1,
            defs@.len() < MAX_SYMBOLS_PER_FILE,
            defs_view(defs@) + syms_with_path(
                spec_scan_from(bytes@, pos as int, line_num as int, defs@.len() as int),
                file_path@,
            ) == syms_with_path(spec_scan(bytes@), file_path@),
        ensures
            defs_view(defs@) == syms_with_path(spec_scan(bytes@), file_path@),
        decreases n - pos,
    {
        if pos >= n {
            proof {
                assert(spec_scan_from(bytes@, pos as int, line_num as int, defs@.len() as int)
                    =~= Seq::<(TypeKind, Seq<char>, int)>::empty());
                assert(syms_with_path(
                    Seq::<(TypeKind, Seq<char>, int)>::empty(),
                    file_path@,
                ) =~= Seq::<TypeDefinitionModel>::empty());
                assert(defs_view(defs@) + Seq::<TypeDefinitionModel>::empty() =~= defs_view(
                    defs@,
                ));
            }
            break;
        }
        let rest_slice = vstd::slice::slice_subrange(bytes, pos, n);
        let le: usize = match memchr::memchr(10u8, rest_slice) {
            Some(k) => pos + k,
            None => n,
        };
        proof {
            assert forall|q: int| pos <= q < le implies bytes@[q] != 10 by {
                assert(rest_slice@[q - pos] == bytes@[q]);
            }
            if le < n {
                assert(rest_slice@[le - pos] == bytes@[le as int]);
            }
            lemma_line_break_at(bytes@, pos as int, le as int);
        }
        let line = vstd::slice::slice_subrange(bytes, pos, le);
        let ghost found0 = defs@.len() as int;
        let ghost tail0 = spec_scan_from(bytes@, pos as int, line_num as int, found0);
        let ghost spec_rest: int = if le + 1 <= n {
            le + 1
        } else {
            n as int
        };
        let sym = line_symbol(line, file_path, line_num);
        match sym {
            Some(d) => {
                let ghost entry = (d@.type_kind, d@.name, line_num as int);
                proof {
                    assert(spec_line_symbol(line@) is Some);
                    assert(tail0 == if found0 + 1 >= MAX_SYMBOLS_PER_FILE {
                        seq![entry]
                    } else {
                        seq![entry] + spec_scan_from(
                            bytes@,
                            spec_rest,
                            line_num + 1,
                            found0 + 1,
                        )
                    });
                }
                defs.push(d);
                proof {
                    assert(defs_view(defs@) =~= defs_view(defs@.drop_last()) + seq![d@]);
                    assert(syms_with_path(seq![entry], file_path@) =~= seq![d@]);
                }
                if defs.len() >= MAX_SYMBOLS_PER_FILE {
                    proof {
                        assert(defs_view(defs@) =~= defs_view(defs@.drop_last())
                            + syms_with_path(tail0, file_path@));
                    }
                    break;
                }
                proof {
                    let tail1 = spec_scan_from(bytes@, spec_rest, line_num + 1, found0 + 1);
                    assert(syms_with_path(seq![entry] + tail1, file_path@) =~= seq![d@]
                        + syms_with_path(tail1, file_path@));
                    assert(defs_view(defs@) + syms_with_path(tail1, file_path@)
                        =~= defs_view(defs@.drop_last()) + syms_with_path(tail0, file_path@));
                }
            },
            None => {
                proof {
                    assert(spec_line_symbol(line@) is None);
                    assert(tail0 == spec_scan_from(bytes@, spec_rest, line_num + 1, found0));
                }
            },
        }
        pos = if le < n {
            le + 1
        } else {
            n
        };
        proof {
            assert(pos as int == spec_rest);
        }
        line_num = line_num + 1;
    }
    defs
}

/// The definitions recorded for one file's contents: an oversized file is
/// skipped entirely and contributes nothing.
pub open spec fn spec_file_symbols(bytes: Seq<u8>) -> Seq<(TypeKind, Seq<char>, int)> {
    if bytes.len() > MAX_SCANNED_FILE_BYTES {
        Seq::empty()
    } else {
        spec_scan(bytes)
    }
}

/// Scans one source file's contents, applying the size guard: contents
/// over [`MAX_SCANNED_FILE_BYTES`] yield no definitions at all.
pub fn scan_file_contents(bytes: &[u8], file_path: &str) -> (r: Vec<TypeDefinition>)
    ensures
        defs_view(r@) == syms_with_path(spec_file_symbols(bytes@), file_path@),
{
    if bytes.len() > MAX_SCANNED_FILE_BYTES {
        let r: Vec<TypeDefinition> = Vec::new();
        proof {
            assert(defs_view(r@) =~= syms_with_path(spec_file_symbols(bytes@), file_path@));
        }
        r
    } else {
        scan_with_bytes(bytes, file_path)
    }
}

} // verus!
