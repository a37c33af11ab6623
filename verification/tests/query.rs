//! The query engine: mode detection, browse-all, ranking and boosting.

use grab::files::{TypeDefinition, TypeKind};
use grab::history::DeduplicatedCommand;
use grab::pane::{PaneId, PaneMetadata};
use grab::search::{boost_score, is_contiguous_match, SearchEngine, SearchItem};
use grab::RustAssetSearchMode;

fn pane(id: u32, title: &str) -> PaneMetadata {
    PaneMetadata { id: PaneId::Terminal(id), title: title.to_string() }
}

fn asset(kind: TypeKind, name: &str) -> TypeDefinition {
    TypeDefinition {
        type_kind: kind,
        name: name.to_string(),
        file_path: "src/lib.rs".to_string(),
        line_number: 1,
    }
}

fn no_history() -> Vec<(String, Vec<DeduplicatedCommand>)> {
    Vec::new()
}

#[test]
fn struct_prefix_is_recognised() {
    match grab::parse_rust_asset_search("struct Foo") {
        Some(RustAssetSearchMode::Struct(rest)) => assert_eq!(rest, "Foo"),
        _ => panic!("expected a struct mode"),
    }
}

#[test]
fn trailing_space_prefix_has_empty_remainder() {
    match grab::parse_rust_asset_search("struct ") {
        Some(RustAssetSearchMode::Struct(rest)) => assert_eq!(rest, ""),
        _ => panic!("expected a struct mode"),
    }
}

#[test]
fn prefix_matches_case_insensitively_keeping_remainder_casing() {
    match grab::parse_rust_asset_search("STRUCT Foo") {
        Some(RustAssetSearchMode::Struct(rest)) => assert_eq!(rest, "Foo"),
        _ => panic!("expected a struct mode"),
    }
    match grab::parse_rust_asset_search("Enum MyEnum") {
        Some(RustAssetSearchMode::Enum(rest)) => assert_eq!(rest, "MyEnum"),
        _ => panic!("expected an enum mode"),
    }
    match grab::parse_rust_asset_search("FN render") {
        Some(RustAssetSearchMode::Function(rest)) => assert_eq!(rest, "render"),
        _ => panic!("expected a function mode"),
    }
}

#[test]
fn prefix_requires_the_space() {
    assert!(grab::parse_rust_asset_search("struct").is_none());
    assert!(grab::parse_rust_asset_search("structFoo").is_none());
    assert!(grab::parse_rust_asset_search("my struct Foo").is_none());
}

#[test]
fn empty_query_browses_every_pool() {
    let engine = SearchEngine::new();
    let panes = vec![pane(1, "vim notes")];
    let files = vec!["src/a.rs".to_string(), "b.txt".to_string()];
    let assets = vec![asset(TypeKind::Struct, "State")];
    let r = engine.search("", &panes, &files, &assets, &no_history(), &"/w".to_string());
    // every session, every symbol and every file takes part
    assert_eq!(r.files_panes_results.len(), 4);
    assert!(r.files_panes_results[0].is_pane());
    assert_eq!(r.files_panes_results[0].score, 1000);
    assert!(r.files_panes_results[1].is_rust_asset());
    assert_eq!(r.files_panes_results[1].score, 500);
    assert!(r.files_panes_results[2].is_file());
    assert_eq!(r.files_panes_results[2].score, 100);
    assert!(r.shell_commands_results.is_empty());
}

#[test]
fn empty_query_with_empty_pools_is_empty() {
    let engine = SearchEngine::new();
    let r = engine.search(
        "",
        &Vec::new(),
        &Vec::new(),
        &Vec::new(),
        &no_history(),
        &"/w".to_string(),
    );
    assert!(r.files_panes_results.is_empty());
}

#[test]
fn struct_mode_returns_only_structs() {
    let engine = SearchEngine::new();
    let assets = vec![
        asset(TypeKind::Struct, "MyStruct"),
        asset(TypeKind::Struct, "MyStructHelper"),
        asset(TypeKind::Function, "my_struct_fn"),
        asset(TypeKind::Enum, "MyStructKind"),
    ];
    let r = engine.search(
        "struct mystruct",
        &vec![pane(1, "vim mystruct.rs")],
        &vec!["mystruct.rs".to_string()],
        &assets,
        &no_history(),
        &"/w".to_string(),
    );
    assert!(!r.files_panes_results.is_empty());
    let names: Vec<String> = r
        .files_panes_results
        .iter()
        .map(|res| match &res.item {
            SearchItem::RustAsset(a) => {
                assert!(matches!(a.type_kind, TypeKind::Struct), "only structs may appear");
                a.name.clone()
            }
            _ => panic!("mode search returned a non-symbol result"),
        })
        .collect();
    assert!(names.contains(&"MyStruct".to_string()));
    assert!(names.contains(&"MyStructHelper".to_string()));
}

#[test]
fn mode_with_empty_remainder_returns_all_of_that_kind() {
    let engine = SearchEngine::new();
    let assets = vec![
        asset(TypeKind::Struct, "Alpha"),
        asset(TypeKind::Enum, "Beta"),
        asset(TypeKind::Struct, "Gamma"),
    ];
    let r = engine.search(
        "struct ",
        &Vec::new(),
        &Vec::new(),
        &assets,
        &no_history(),
        &"/w".to_string(),
    );
    assert_eq!(r.files_panes_results.len(), 2);
    for res in &r.files_panes_results {
        assert_eq!(res.score, 1000);
        match &res.item {
            SearchItem::RustAsset(a) => assert!(matches!(a.type_kind, TypeKind::Struct)),
            _ => panic!("expected a symbol"),
        }
    }
}

#[test]
fn fn_mode_covers_public_functions_too() {
    let engine = SearchEngine::new();
    let assets = vec![
        asset(TypeKind::Function, "render"),
        asset(TypeKind::PubFunction, "render_all"),
        asset(TypeKind::Struct, "Renderer"),
    ];
    let r = engine.search(
        "fn ",
        &Vec::new(),
        &Vec::new(),
        &assets,
        &no_history(),
        &"/w".to_string(),
    );
    assert_eq!(r.files_panes_results.len(), 2);
}

#[test]
fn contiguous_session_match_outranks_scattered_match() {
    let engine = SearchEngine::new();
    // the query occurs contiguously in one title and scattered in the other
    let panes = vec![pane(1, "x-a=b-c"), pane(2, "xabc")];
    let r = engine.search(
        "abc",
        &panes,
        &Vec::new(),
        &Vec::new(),
        &no_history(),
        &"/w".to_string(),
    );
    assert_eq!(r.files_panes_results.len(), 2);
    match &r.files_panes_results[0].item {
        SearchItem::Pane(p) => assert_eq!(p.title, "xabc"),
        _ => panic!("expected a session first"),
    }
    assert!(r.files_panes_results[0].score > r.files_panes_results[1].score);
}

#[test]
fn no_match_anywhere_yields_an_empty_set() {
    let engine = SearchEngine::new();
    let r = engine.search(
        "zzzqqq",
        &vec![pane(1, "vim notes")],
        &vec!["src/a.rs".to_string()],
        &vec![asset(TypeKind::Struct, "State")],
        &no_history(),
        &"/w".to_string(),
    );
    assert!(r.files_panes_results.is_empty());
    assert!(r.shell_commands_results.is_empty());
}

#[test]
fn results_are_sorted_by_descending_score() {
    let engine = SearchEngine::new();
    let r = engine.search(
        "main",
        &vec![pane(1, "vim main.rs"), pane(2, "m-a-i-n shell")],
        &vec!["src/main.rs".to_string(), "docs/main.md".to_string()],
        &vec![asset(TypeKind::Function, "main")],
        &no_history(),
        &"/w".to_string(),
    );
    for w in r.files_panes_results.windows(2) {
        assert!(w[0].score >= w[1].score);
    }
}

#[test]
fn repeated_searches_return_identical_rankings() {
    let engine = SearchEngine::new();
    let panes = vec![pane(1, "vim main.rs"), pane(2, "bash")];
    let files = vec!["src/main.rs".to_string(), "Cargo.toml".to_string()];
    let assets = vec![asset(TypeKind::Function, "main"), asset(TypeKind::Struct, "Main")];
    let first = engine.search("main", &panes, &files, &assets, &no_history(), &"/w".to_string());
    let second = engine.search("main", &panes, &files, &assets, &no_history(), &"/w".to_string());
    let view =
        |r: &grab::search::SearchResults| -> Vec<(String, i64, Vec<usize>)> {
            r.files_panes_results
                .iter()
                .map(|x| (x.display_text(), x.score, x.indices.clone()))
                .collect()
        };
    assert_eq!(view(&first), view(&second));
}

#[test]
fn merged_ranking_holds_at_most_three_files() {
    let engine = SearchEngine::new();
    let files = vec![
        "main.rs".to_string(),
        "main.md".to_string(),
        "main.txt".to_string(),
        "main.toml".to_string(),
        "src/main.c".to_string(),
    ];
    let r = engine.search(
        "main",
        &vec![pane(1, "vim main.rs")],
        &files,
        &Vec::new(),
        &no_history(),
        &"/w".to_string(),
    );
    let file_count = r
        .files_panes_results
        .iter()
        .filter(|res| res.is_file())
        .count();
    assert_eq!(file_count, 3, "files are truncated to the best three before the merge");
    // the session match is not capped away
    assert!(r.files_panes_results.iter().any(|res| res.is_pane()));
}

#[test]
fn match_indices_are_ordered_offsets() {
    let engine = SearchEngine::new();
    let r = engine.search(
        "abc",
        &vec![pane(1, "xabcy")],
        &Vec::new(),
        &Vec::new(),
        &no_history(),
        &"/w".to_string(),
    );
    assert_eq!(r.files_panes_results.len(), 1);
    let indices = &r.files_panes_results[0].indices;
    assert!(!indices.is_empty());
    for w in indices.windows(2) {
        assert!(w[0] < w[1]);
    }
    for &i in indices.iter() {
        assert!(i < "xabcy".chars().count());
    }
}

#[test]
fn displayed_files_are_capped_at_three() {
    let engine = SearchEngine::new();
    let files = vec![
        "main.rs".to_string(),
        "main.md".to_string(),
        "main.txt".to_string(),
        "main.toml".to_string(),
        "other".to_string(),
    ];
    let (shown, remaining) = engine.get_displayed_files("main", &files);
    assert_eq!(shown.len(), 3);
    assert_eq!(remaining, 1);
    let (none_shown, rem) = engine.get_displayed_files("", &files);
    assert!(none_shown.is_empty());
    assert_eq!(rem, 0);
}

#[test]
fn contiguity_and_boost_formulas() {
    assert!(is_contiguous_match(&vec![]));
    assert!(is_contiguous_match(&vec![7]));
    assert!(is_contiguous_match(&vec![2, 3, 4]));
    assert!(!is_contiguous_match(&vec![2, 4, 5]));
    assert_eq!(boost_score(5), 50);
    assert_eq!(boost_score(0), 0);
    assert_eq!(boost_score(i64::MAX), i64::MAX);
    assert_eq!(boost_score(i64::MIN), i64::MIN);
    assert_eq!(boost_score(-3), -30);
}

#[test]
fn display_text_formats_each_item() {
    let r = grab::search::SearchResult::new_rust_asset(
        asset(TypeKind::Struct, "State"),
        1,
        vec![],
    );
    assert_eq!(r.display_text(), "State (src/lib.rs)");
    let p = grab::search::SearchResult::new_pane(pane(1, "vim x"), 1, vec![]);
    assert_eq!(p.display_text(), "vim x");
    let f = grab::search::SearchResult::new_file("a/b.rs".to_string(), 1, vec![]);
    assert_eq!(f.display_text(), "a/b.rs");
}
