//! Ready-made sample pools: a small set of panes, files and indexed
//! symbols that the test suite searches against.

use vstd::prelude::*;

verus! {

use crate::files::{TypeDefinition, TypeKind};
use crate::pane::{PaneId, PaneMetadata};

/// Three sample panes: two editors and a shell.
pub fn sample_panes() -> (r: Vec<PaneMetadata>)
    ensures
        r@.len() == 3,
{
    let mut v: Vec<PaneMetadata> = Vec::new();
    v.push(PaneMetadata { id: PaneId::Terminal(1), title: "vim ~/project/src/main.rs".to_owned() });
    v.push(PaneMetadata { id: PaneId::Terminal(2), title: "bash".to_owned() });
    v.push(
        PaneMetadata { id: PaneId::Terminal(3), title: "nvim ~/project/Cargo.toml".to_owned() },
    );
    v
}

/// Six sample file paths.
pub fn sample_files() -> (r: Vec<String>)
    ensures
        r@.len() == 6,
        r@[0]@ == "src/main.rs"@,
        r@[1]@ == "src/ui.rs"@,
        r@[2]@ == "src/search.rs"@,
        r@[3]@ == "src/app_state.rs"@,
        r@[4]@ == "Cargo.toml"@,
        r@[5]@ == "README.md"@,
{
    let mut v: Vec<String> = Vec::new();
    v.push("src/main.rs".to_owned());
    v.push("src/ui.rs".to_owned());
    v.push("src/search.rs".to_owned());
    v.push("src/app_state.rs".to_owned());
    v.push("Cargo.toml".to_owned());
    v.push("README.md".to_owned());
    v
}

fn def(kind: TypeKind, name: &str, path: &str, line: usize) -> (r: TypeDefinition)
    ensures
        r.type_kind == kind,
        r.name@ == name@,
        r.file_path@ == path@,
        r.line_number == line,
{
    TypeDefinition {
        type_kind: kind,
        name: name.to_owned(),
        file_path: path.to_owned(),
        line_number: line,
    }
}

/// A small sample index: a state struct, a render function and a
/// renderer struct.
pub fn sample_rust_assets() -> (r: Vec<(String, Vec<TypeDefinition>)>)
    ensures
        r@.len() == 2,
{
    let mut main_defs: Vec<TypeDefinition> = Vec::new();
    main_defs.push(def(TypeKind::Struct, "State", "src/main.rs", 79));
    main_defs.push(def(TypeKind::Function, "render", "src/main.rs", 230));
    let mut ui_defs: Vec<TypeDefinition> = Vec::new();
    ui_defs.push(def(TypeKind::Struct, "UIRenderer", "src/ui.rs", 10));
    let mut v: Vec<(String, Vec<TypeDefinition>)> = Vec::new();
    v.push(("src/main.rs".to_owned(), main_defs));
    v.push(("src/ui.rs".to_owned(), ui_defs));
    v
}

/// A sample index with several structs, for struct-mode searches.
pub fn struct_search_rust_assets() -> (r: Vec<(String, Vec<TypeDefinition>)>)
    ensures
        r@.len() == 3,
{
    let mut main_defs: Vec<TypeDefinition> = Vec::new();
    main_defs.push(def(TypeKind::Struct, "State", "src/main.rs", 79));
    main_defs.push(def(TypeKind::Function, "render", "src/main.rs", 230));
    let mut types_defs: Vec<TypeDefinition> = Vec::new();
    types_defs.push(def(TypeKind::Struct, "MyStruct", "src/types.rs", 10));
    types_defs.push(def(TypeKind::Struct, "MyStructHelper", "src/types.rs", 25));
    let mut state_defs: Vec<TypeDefinition> = Vec::new();
    state_defs.push(def(TypeKind::Struct, "AppState", "src/state.rs", 8));
    let mut v: Vec<(String, Vec<TypeDefinition>)> = Vec::new();
    v.push(("src/main.rs".to_owned(), main_defs));
    v.push(("src/types.rs".to_owned(), types_defs));
    v.push(("src/state.rs".to_owned(), state_defs));
    v
}

/// A sample index with several enums, for enum-mode searches.
pub fn enum_search_rust_assets() -> (r: Vec<(String, Vec<TypeDefinition>)>)
    ensures
        r@.len() == 3,
{
    let mut types_defs: Vec<TypeDefinition> = Vec::new();
    types_defs.push(def(TypeKind::Enum, "SearchMode", "src/types.rs", 42));
    types_defs.push(def(TypeKind::Enum, "SearchType", "src/types.rs", 58));
    types_defs.push(def(TypeKind::Struct, "SearchHelper", "src/types.rs", 100));
    let mut search_defs: Vec<TypeDefinition> = Vec::new();
    search_defs.push(def(TypeKind::Enum, "SearchItem", "src/search.rs", 17));
    let mut events_defs: Vec<TypeDefinition> = Vec::new();
    events_defs.push(def(TypeKind::Enum, "EventType", "src/events.rs", 5));
    let mut v: Vec<(String, Vec<TypeDefinition>)> = Vec::new();
    v.push(("src/types.rs".to_owned(), types_defs));
    v.push(("src/search.rs".to_owned(), search_defs));
    v.push(("src/events.rs".to_owned(), events_defs));
    v
}

/// A sample index with several functions, for function-mode searches.
pub fn function_search_rust_assets() -> (r: Vec<(String, Vec<TypeDefinition>)>)
    ensures
        r@.len() == 3,
{
    let mut main_defs: Vec<TypeDefinition> = Vec::new();
    main_defs.push(def(TypeKind::Function, "render", "src/main.rs", 230));
    main_defs.push(def(TypeKind::Function, "render_ui", "src/main.rs", 250));
    main_defs.push(def(TypeKind::Struct, "RenderState", "src/main.rs", 50));
    let mut ui_defs: Vec<TypeDefinition> = Vec::new();
    ui_defs.push(def(TypeKind::Function, "render_table", "src/ui.rs", 100));
    ui_defs.push(def(TypeKind::Function, "render_text", "src/ui.rs", 120));
    let mut search_defs: Vec<TypeDefinition> = Vec::new();
    search_defs.push(def(TypeKind::Function, "search", "src/search.rs", 42));
    let mut v: Vec<(String, Vec<TypeDefinition>)> = Vec::new();
    v.push(("src/main.rs".to_owned(), main_defs));
    v.push(("src/ui.rs".to_owned(), ui_defs));
    v.push(("src/search.rs".to_owned(), search_defs));
    v
}

} // verus!
