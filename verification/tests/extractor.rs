//! The symbol extractor on concrete source text.

use grab::files::{extract_definition, extract_identifier, scan_file_contents, scan_with_bytes, TypeKind};

fn kinds_names(defs: &[grab::files::TypeDefinition]) -> Vec<(TypeKind, String, usize)> {
    defs.iter().map(|d| (d.type_kind, d.name.clone(), d.line_number)).collect()
}

#[test]
fn pub_struct_line_yields_type_symbol() {
    let defs = scan_with_bytes(b"pub struct Foo {", "lib.rs");
    assert_eq!(defs.len(), 1);
    assert!(matches!(defs[0].type_kind, TypeKind::Struct));
    assert_eq!(defs[0].name, "Foo");
    assert_eq!(defs[0].line_number, 1);
    assert_eq!(defs[0].file_path, "lib.rs");
}

#[test]
fn enum_line_yields_variant_group_symbol() {
    let defs = scan_with_bytes(b"enum Bar {", "lib.rs");
    assert_eq!(defs.len(), 1);
    assert!(matches!(defs[0].type_kind, TypeKind::Enum));
    assert_eq!(defs[0].name, "Bar");
}

#[test]
fn fn_line_yields_function_symbol() {
    let defs = scan_with_bytes(b"fn baz(", "lib.rs");
    assert_eq!(defs.len(), 1);
    assert!(matches!(defs[0].type_kind, TypeKind::Function));
    assert_eq!(defs[0].name, "baz");
}

#[test]
fn pub_fn_line_yields_public_function_symbol() {
    let defs = scan_with_bytes(b"pub fn qux(", "lib.rs");
    assert_eq!(defs.len(), 1);
    assert!(matches!(defs[0].type_kind, TypeKind::PubFunction));
    assert_eq!(defs[0].name, "qux");
}

#[test]
fn commented_out_line_yields_no_symbol() {
    assert!(scan_with_bytes(b"// struct Foo {", "lib.rs").is_empty());
    assert!(scan_with_bytes(b"  /* struct Foo {", "lib.rs").is_empty());
}

#[test]
fn keyword_must_be_followed_by_whitespace() {
    assert!(scan_with_bytes(b"structure Foo", "lib.rs").is_empty());
    assert!(scan_with_bytes(b"enumerate(x)", "lib.rs").is_empty());
    assert!(scan_with_bytes(b"fname = 3", "lib.rs").is_empty());
}

#[test]
fn line_numbers_count_every_line() {
    let src = b"use x;\n\npub struct A {\n}\n// nothing\nfn b() {}\n";
    let got = kinds_names(&scan_with_bytes(src, "m.rs"));
    assert_eq!(
        got,
        vec![
            (TypeKind::Struct, "A".to_string(), 3),
            (TypeKind::Function, "b".to_string(), 6),
        ]
    );
}

#[test]
fn visibility_scope_is_skipped() {
    let defs = scan_with_bytes(b"pub(crate) fn helper() {}", "m.rs");
    assert_eq!(defs.len(), 1);
    assert!(matches!(defs[0].type_kind, TypeKind::PubFunction));
    assert_eq!(defs[0].name, "helper");
}

#[test]
fn identifier_stops_at_terminators() {
    let defs = scan_with_bytes(b"pub struct Pair<T> {", "m.rs");
    assert_eq!(defs[0].name, "Pair");
    let defs = scan_with_bytes(b"fn call(x: u8)", "m.rs");
    assert_eq!(defs[0].name, "call");
    let defs = scan_with_bytes(b"struct Unit;", "m.rs");
    assert_eq!(defs[0].name, "Unit");
}

#[test]
fn identifier_must_start_with_letter_or_underscore() {
    assert!(scan_with_bytes(b"struct 9lives {", "m.rs").is_empty());
    let defs = scan_with_bytes(b"struct _hidden {", "m.rs");
    assert_eq!(defs[0].name, "_hidden");
}

#[test]
fn indented_definitions_are_found() {
    let defs = scan_with_bytes(b"    pub struct Inner {", "m.rs");
    assert_eq!(defs.len(), 1);
    assert_eq!(defs[0].name, "Inner");
}

#[test]
fn extractor_caps_symbols_per_file() {
    let mut src = String::new();
    for i in 0..400 {
        src.push_str(&format!("fn f{} ()\n", i));
    }
    let defs = scan_with_bytes(src.as_bytes(), "big.rs");
    assert_eq!(defs.len(), 300);
    assert_eq!(defs[0].name, "f0");
    assert_eq!(defs[299].name, "f299");
}

#[test]
fn oversized_file_is_skipped_entirely() {
    let mut src = vec![b' '; 1_000_001];
    src[0] = b'f';
    src[1] = b'n';
    // "fn  ..." would otherwise be scanned; over the byte ceiling nothing is
    let defs = scan_file_contents(&src, "huge.rs");
    assert!(defs.is_empty());
    let small = scan_file_contents(b"fn tiny() {}", "small.rs");
    assert_eq!(small.len(), 1);
}

#[test]
fn extract_definition_on_trimmed_line() {
    let d = extract_definition(b"pub enum Color {", "c.rs", 7).unwrap();
    assert!(matches!(d.type_kind, TypeKind::Enum));
    assert_eq!(d.name, "Color");
    assert_eq!(d.line_number, 7);
    assert!(extract_definition(b"let x = 3;", "c.rs", 1).is_none());
}

#[test]
fn non_ascii_identifiers_are_decoded() {
    let defs = scan_with_bytes("struct Caf\u{e9} {".as_bytes(), "m.rs");
    assert_eq!(defs.len(), 1);
    assert_eq!(defs[0].name, "Caf\u{e9}");
}

#[test]
fn invalid_utf8_in_identifiers_is_decoded_lossily() {
    let defs = scan_with_bytes(&[b'f', b'n', b' ', b'a', 0xFF, b'('], "m.rs");
    assert_eq!(defs.len(), 1);
    assert_eq!(defs[0].name, "a\u{fffd}");
}

#[test]
fn extract_identifier_cases() {
    assert_eq!(extract_identifier(b"Foo {").unwrap(), "Foo");
    assert_eq!(extract_identifier(b"bar(").unwrap(), "bar");
    assert!(extract_identifier(b"").is_none());
    assert!(extract_identifier(b"(empty").is_none());
    assert!(extract_identifier(b"9nine").is_none());
}
