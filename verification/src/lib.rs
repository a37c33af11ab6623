//! An in-terminal quick-open library: a bounded directory indexer that
//! extracts lightweight code symbols from source files, and a fuzzy query
//! engine that ranks editor sessions, files, symbols and shell history.
//!
//! The host environment (pane enumeration, rendering surface, event
//! delivery, file reads) is supplied by the surrounding application; this
//! crate holds the verified data structures and decision logic.

pub mod app_state;
pub mod files;
pub mod fixtures;
pub mod history;
pub mod host;
pub mod pane;
pub mod scan;
pub mod search;
pub mod search_state;
pub mod text;
pub mod ui;
pub mod ui_state;

use vstd::prelude::*;

verus! {

use crate::text::{chars_suffix, chars_vec, lower_char, lower_chars, string_from_chars, to_lower_char};

/// A symbol-kind search mode, recognised from a query prefix.
/// The payload is the remainder of the query after the keyword and
/// the single space that follows it, with its original casing.
#[derive(Debug)]
pub enum RustAssetSearchMode {
    Struct(String),
    Enum(String),
    Function(String),
}

/// The mathematical model of a [`RustAssetSearchMode`].
pub enum SearchModeModel {
    Struct(Seq<char>),
    Enum(Seq<char>),
    Function(Seq<char>),
}

impl View for RustAssetSearchMode {
    type V = SearchModeModel;

    open spec fn view(&self) -> SearchModeModel {
        match self {
            RustAssetSearchMode::Struct(s) => SearchModeModel::Struct(s@),
            RustAssetSearchMode::Enum(s) => SearchModeModel::Enum(s@),
            RustAssetSearchMode::Function(s) => SearchModeModel::Function(s@),
        }
    }
}

impl Clone for RustAssetSearchMode {
    /// Clones a mode; the copy has the same model.
    fn clone(&self) -> (r: Self)
        ensures
            r@ == self@,
    {
        match self {
            RustAssetSearchMode::Struct(s) => RustAssetSearchMode::Struct(s.clone()),
            RustAssetSearchMode::Enum(s) => RustAssetSearchMode::Enum(s.clone()),
            RustAssetSearchMode::Function(s) => RustAssetSearchMode::Function(s.clone()),
        }
    }
}

pub open spec fn mode_prefix_struct() -> Seq<char> {
    seq!['s', 't', 'r', 'u', 'c', 't', ' ']
}

pub open spec fn mode_prefix_enum() -> Seq<char> {
    seq!['e', 'n', 'u', 'm', ' ']
}

pub open spec fn mode_prefix_fn() -> Seq<char> {
    seq!['f', 'n', ' ']
}

/// The query begins with the given prefix, compared ASCII
/// case-insensitively (the prefixes themselves are lower case).
pub open spec fn starts_ci(q: Seq<char>, p: Seq<char>) -> bool {
    p.len() <= q.len() && lower_chars(q.subrange(0, p.len() as int)) == p
}

/// The symbol-kind search mode of a query: one of three keyword-plus-space
/// prefixes, matched ASCII case-insensitively, with the remainder of the
/// query (original casing kept) as the effective match term.
pub open spec fn spec_parse_mode(q: Seq<char>) -> Option<SearchModeModel> {
    if starts_ci(q, mode_prefix_struct()) {
        Some(SearchModeModel::Struct(q.skip(7)))
    } else if starts_ci(q, mode_prefix_enum()) {
        Some(SearchModeModel::Enum(q.skip(5)))
    } else if starts_ci(q, mode_prefix_fn()) {
        Some(SearchModeModel::Function(q.skip(3)))
    } else {
        None
    }
}

/// Whether the query's first seven characters read `struct ` under ASCII
/// case folding.
fn has_struct_prefix(q: &Vec<char>) -> (r: bool)
    ensures
        r == starts_ci(q@, mode_prefix_struct()),
{
    if q.len() < 7 {
        return false;
    }
    let r = to_lower_char(q[0]) == 's' && to_lower_char(q[1]) == 't' && to_lower_char(q[2]) == 'r'
        && to_lower_char(q[3]) == 'u' && to_lower_char(q[4]) == 'c' && to_lower_char(q[5]) == 't'
        && to_lower_char(q[6]) == ' ';
    proof {
        let s = lower_chars(q@.subrange(0, 7));
        assert forall|k: int| 0 <= k < 7 implies s[k] == lower_char(q@[k]) by {
            assert(q@.subrange(0, 7)[k] == q@[k]);
        }
        if r {
            assert(s =~= mode_prefix_struct());
        }
    }
    r
}

/// Whether the query's first five characters read `enum ` under ASCII
/// case folding.
fn has_enum_prefix(q: &Vec<char>) -> (r: bool)
    ensures
        r == starts_ci(q@, mode_prefix_enum()),
{
    if q.len() < 5 {
        return false;
    }
    let r = to_lower_char(q[0]) == 'e' && to_lower_char(q[1]) == 'n' && to_lower_char(q[2]) == 'u'
        && to_lower_char(q[3]) == 'm' && to_lower_char(q[4]) == ' ';
    proof {
        let s = lower_chars(q@.subrange(0, 5));
        assert forall|k: int| 0 <= k < 5 implies s[k] == lower_char(q@[k]) by {
            assert(q@.subrange(0, 5)[k] == q@[k]);
        }
        if r {
            assert(s =~= mode_prefix_enum());
        }
    }
    r
}

/// Whether the query's first three characters read `fn ` under ASCII
/// case folding.
fn has_fn_prefix(q: &Vec<char>) -> (r: bool)
    ensures
        r == starts_ci(q@, mode_prefix_fn()),
{
    if q.len() < 3 {
        return false;
    }
    let r = to_lower_char(q[0]) == 'f' && to_lower_char(q[1]) == 'n' && to_lower_char(q[2]) == ' ';
    proof {
        let s = lower_chars(q@.subrange(0, 3));
        assert forall|k: int| 0 <= k < 3 implies s[k] == lower_char(q@[k]) by {
            assert(q@.subrange(0, 3)[k] == q@[k]);
        }
        if r {
            assert(s =~= mode_prefix_fn());
        }
    }
    r
}

/// Recognises a symbol-kind search: a query that begins with one of the
/// three keyword-plus-space prefixes, matched ASCII case-insensitively.
/// The remainder keeps the casing it had in the query.
pub fn parse_rust_asset_search(search_term: &str) -> (r: Option<RustAssetSearchMode>)
    ensures
        (r is Some) == (spec_parse_mode(search_term@) is Some),
        r is Some ==> r.unwrap()@ == spec_parse_mode(search_term@).unwrap(),
{
    let chars = chars_vec(search_term);
    if has_struct_prefix(&chars) {
        let rest = chars_suffix(&chars, 7);
        Some(RustAssetSearchMode::Struct(string_from_chars(&rest)))
    } else if has_enum_prefix(&chars) {
        let rest = chars_suffix(&chars, 5);
        Some(RustAssetSearchMode::Enum(string_from_chars(&rest)))
    } else if has_fn_prefix(&chars) {
        let rest = chars_suffix(&chars, 3);
        Some(RustAssetSearchMode::Function(string_from_chars(&rest)))
    } else {
        None
    }
}

} // verus!
