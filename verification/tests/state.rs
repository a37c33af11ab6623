//! The application and query state wrappers, and the sample pools.

use grab::app_state::AppState;
use grab::files::TypeKind;
use grab::fixtures;
use grab::search::{SearchEngine, SearchItem};
use grab::search_state::SearchState;
use grab::pane::{extract_editor_pane_metadata, PaneInfo, PaneManifest};

#[test]
fn app_state_flattens_the_symbol_index() {
    let mut state = AppState::default();
    state.update_rust_assets(fixtures::sample_rust_assets());
    let assets = state.get_rust_assets();
    let names: Vec<String> = assets.iter().map(|a| a.name.clone()).collect();
    assert_eq!(names, vec!["State".to_string(), "render".to_string(), "UIRenderer".to_string()]);
}

#[test]
fn app_state_holds_pools() {
    let mut state = AppState::default();
    state.update_panes(fixtures::sample_panes());
    state.update_files(fixtures::sample_files());
    state.set_cwd("/home/user/project".to_string());
    assert_eq!(state.get_panes().len(), 3);
    assert_eq!(state.get_files().len(), 6);
    assert_eq!(state.get_cwd(), "/home/user/project");
    assert!(!state.is_user_selected_directory());
    state.set_user_selected_directory(true);
    assert!(state.is_user_selected_directory());
}

#[test]
fn search_state_edits_the_term() {
    let mut s = SearchState::default();
    assert!(s.is_empty());
    s.add_char('a');
    s.add_char('b');
    assert_eq!(s.get_term(), "ab");
    s.remove_char();
    assert_eq!(s.get_term(), "a");
    s.remove_char();
    s.remove_char();
    assert_eq!(s.get_term(), "");
    s.add_char('x');
    s.clear();
    assert!(s.is_empty());
}

#[test]
fn search_state_detects_modes() {
    let mut s = SearchState::default();
    for c in "struct Foo".chars() {
        s.add_char(c);
    }
    assert!(s.is_rust_asset_search());
    assert!(s.get_rust_asset_search_mode().is_some());
    s.clear();
    for c in "plain".chars() {
        s.add_char(c);
    }
    assert!(!s.is_rust_asset_search());
}

#[test]
fn display_results_follow_the_mode() {
    let engine = SearchEngine::new();
    let mut app = AppState::default();
    app.update_panes(fixtures::sample_panes());
    app.update_files(fixtures::sample_files());
    app.update_rust_assets(fixtures::struct_search_rust_assets());
    let mut s = SearchState::default();
    for c in "struct mystruct".chars() {
        s.add_char(c);
    }
    let assets = app.get_rust_assets();
    let r = engine.search(
        s.get_term(),
        app.get_panes(),
        app.get_files(),
        &assets,
        &Vec::new(),
        &"/w".to_string(),
    );
    s.update_results(r);
    let shown = s.get_current_display_results();
    assert!(!shown.is_empty());
    for res in &shown {
        match &res.item {
            SearchItem::RustAsset(a) => assert!(matches!(a.type_kind, TypeKind::Struct)),
            _ => panic!("mode view must hold symbols only"),
        }
    }
    assert_eq!(s.get_current_display_count(), shown.len());
}

#[test]
fn default_view_hides_symbols() {
    let engine = SearchEngine::new();
    let mut app = AppState::default();
    app.update_panes(fixtures::sample_panes());
    app.update_files(fixtures::sample_files());
    app.update_rust_assets(fixtures::sample_rust_assets());
    let mut s = SearchState::default();
    for c in "main".chars() {
        s.add_char(c);
    }
    let assets = app.get_rust_assets();
    let r = engine.search(
        s.get_term(),
        app.get_panes(),
        app.get_files(),
        &assets,
        &Vec::new(),
        &"/w".to_string(),
    );
    s.update_results(r);
    let shown = s.get_current_display_results();
    assert!(!shown.is_empty());
    for res in &shown {
        match &res.item {
            SearchItem::Pane(_) | SearchItem::File(_) => {}
            _ => panic!("default view shows sessions and files only"),
        }
    }
}

#[test]
fn enum_fixture_serves_enum_mode() {
    let engine = SearchEngine::new();
    let mut app = AppState::default();
    app.update_rust_assets(fixtures::enum_search_rust_assets());
    let assets = app.get_rust_assets();
    let r = engine.search(
        "enum search",
        &Vec::new(),
        &Vec::new(),
        &assets,
        &Vec::new(),
        &"/w".to_string(),
    );
    let names: Vec<String> = r
        .files_panes_results
        .iter()
        .map(|res| match &res.item {
            SearchItem::RustAsset(a) => {
                assert!(matches!(a.type_kind, TypeKind::Enum));
                a.name.clone()
            }
            _ => panic!("expected symbols"),
        })
        .collect();
    assert!(names.contains(&"SearchMode".to_string()));
    assert!(names.contains(&"SearchType".to_string()));
    assert!(names.contains(&"SearchItem".to_string()));
}

#[test]
fn function_fixture_serves_fn_mode() {
    let engine = SearchEngine::new();
    let mut app = AppState::default();
    app.update_rust_assets(fixtures::function_search_rust_assets());
    let assets = app.get_rust_assets();
    let r = engine.search(
        "fn render",
        &Vec::new(),
        &Vec::new(),
        &assets,
        &Vec::new(),
        &"/w".to_string(),
    );
    let names: Vec<String> = r
        .files_panes_results
        .iter()
        .map(|res| match &res.item {
            SearchItem::RustAsset(a) => {
                assert!(matches!(a.type_kind, TypeKind::Function));
                a.name.clone()
            }
            _ => panic!("expected symbols"),
        })
        .collect();
    assert!(names.contains(&"render".to_string()));
    assert!(names.contains(&"render_ui".to_string()));
    assert!(names.contains(&"render_table".to_string()));
    assert!(names.contains(&"render_text".to_string()));
}

#[test]
fn editor_panes_are_extracted_and_sorted() {
    let manifest = PaneManifest {
        panes: vec![
            (
                0,
                vec![
                    PaneInfo {
                        id: 2,
                        is_plugin: false,
                        title: "zsh".to_string(),
                        terminal_command: None,
                    },
                    PaneInfo {
                        id: 1,
                        is_plugin: false,
                        title: "vim notes.md".to_string(),
                        terminal_command: None,
                    },
                ],
            ),
            (
                1,
                vec![PaneInfo {
                    id: 3,
                    is_plugin: false,
                    title: "work".to_string(),
                    terminal_command: Some("nvim src/lib.rs".to_string()),
                }],
            ),
        ],
    };
    let panes = extract_editor_pane_metadata(&manifest);
    let titles: Vec<String> = panes.iter().map(|p| p.title.clone()).collect();
    // the shell pane is left out; the editors come back sorted by title
    assert_eq!(titles, vec!["vim notes.md".to_string(), "work".to_string()]);
}
