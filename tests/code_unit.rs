use akin::code_unit::{
    compute_hash, compute_structure_hash, decimal_string, filter_by_lines, CallHierarchyItem,
    CodeUnit,
};

fn make_unit(body: &str) -> CodeUnit {
    CodeUnit {
        qualified_name: "test::func".to_string(),
        file_path: "test.rs".to_string(),
        kind: "function".to_string(),
        range_start: 0,
        range_end: 10,
        body: body.to_string(),
        selection_line: 0,
        selection_column: 0,
    }
}

#[test]
fn test_content_hash_deterministic() {
    let unit = make_unit("fn foo() { 42 }");
    let hash1 = unit.content_hash();
    let hash2 = unit.content_hash();
    assert_eq!(hash1, hash2);
    assert_eq!(hash1.len(), 16);
}

#[test]
fn test_content_hash_different_for_different_code() {
    let unit1 = make_unit("fn foo() { 42 }");
    let unit2 = make_unit("fn bar() { 42 }");
    assert_ne!(unit1.content_hash(), unit2.content_hash());
}

#[test]
fn content_hash_is_sha256_prefix() {
    assert_eq!(make_unit("fn foo() { 42 }").content_hash(), "7bd85434a4b5de1f");
    assert_eq!(make_unit("").content_hash(), "e3b0c44298fc1c14");
}

#[test]
fn full_hash_is_sha256_hex() {
    assert_eq!(
        compute_hash("abc"),
        "ba7816bf8f01cfea414140de5dae2223b00361a396177a9cb410ff61f20015ad"
    );
}

#[test]
fn structure_hash_uses_normalized_text() {
    let n = CodeUnit::normalize_code("let x = 42; // note");
    assert_eq!(n, "let x = $NUM;");
    assert_eq!(compute_structure_hash("let x = 42; // note"), compute_hash(&n));
    assert_eq!(compute_structure_hash("let x = 1;"), compute_structure_hash("let  x = 7;"));
    assert_ne!(compute_structure_hash("let x = 1;"), compute_structure_hash("let y = 1;"));
}

#[test]
fn test_structure_hash_ignores_comments() {
    let unit1 = make_unit("fn foo() { x + 1 }");
    let unit2 = make_unit("fn foo() { x + 1 } // comment");
    assert_eq!(unit1.structure_hash(), unit2.structure_hash());
}

#[test]
fn test_structure_hash_ignores_multiline_comments() {
    let unit1 = make_unit("fn foo() { x }");
    let unit2 = make_unit("fn foo() { /* comment */ x }");
    assert_eq!(unit1.structure_hash(), unit2.structure_hash());
}

#[test]
fn test_structure_hash_normalizes_whitespace() {
    let unit1 = make_unit("fn foo() { x + 1 }");
    let unit2 = make_unit("fn foo()  {\n    x   +   1\n}");
    assert_eq!(unit1.structure_hash(), unit2.structure_hash());
}

#[test]
fn test_structure_hash_normalizes_strings() {
    let unit1 = make_unit(r#"println!("hello")"#);
    let unit2 = make_unit(r#"println!("world")"#);
    assert_eq!(unit1.structure_hash(), unit2.structure_hash());
}

#[test]
fn test_structure_hash_normalizes_numbers() {
    let unit1 = make_unit("let x = 42;");
    let unit2 = make_unit("let x = 100;");
    assert_eq!(unit1.structure_hash(), unit2.structure_hash());
}

#[test]
fn test_normalize_code_removes_comments() {
    let code = "let x = 1; // comment\nlet y = 2;";
    let normalized = CodeUnit::normalize_code(code);
    assert!(!normalized.contains("comment"));
    assert!(normalized.contains("let x"));
    assert!(normalized.contains("let y"));
}

#[test]
fn test_normalize_code_handles_escaped_strings() {
    let code = r#"let s = "hello\"world";"#;
    let normalized = CodeUnit::normalize_code(code);
    assert!(normalized.contains("\"$STR\""));
    assert!(!normalized.contains("hello"));
}

#[test]
fn test_normalize_code_handles_floats() {
    let code = "let x = 3.14;";
    let normalized = CodeUnit::normalize_code(code);
    assert!(normalized.contains("$NUM"));
    assert!(!normalized.contains("3.14"));
}

#[test]
fn normalize_exact_outputs() {
    assert_eq!(
        CodeUnit::normalize_code("let x = 1; // comment\nlet y = 2;"),
        "let x = $NUM; let y = $NUM;"
    );
    assert_eq!(CodeUnit::normalize_code("fn foo() { /* c */ x }"), "fn foo() { x }");
    assert_eq!(CodeUnit::normalize_code(r#"let s = "a\"b";"#), r#"let s = "$STR";"#);
    assert_eq!(CodeUnit::normalize_code("x1 = a2b"), "x$NUM = a$NUMb");
    assert_eq!(CodeUnit::normalize_code("a /* open"), "a /* open");
    assert_eq!(CodeUnit::normalize_code("\r\n  \t\n"), "");
    assert_eq!(CodeUnit::normalize_code(""), "");
}

#[test]
fn test_call_hierarchy_item_stable_id() {
    let item = CallHierarchyItem {
        name: "foo".to_string(),
        file_path: "/src/lib.rs".to_string(),
        line: 42,
        column: 4,
    };
    assert_eq!(item.stable_id(), "/src/lib.rs:42:foo");
}

#[test]
fn decimal_text() {
    assert_eq!(decimal_string(0), "0");
    assert_eq!(decimal_string(7), "7");
    assert_eq!(decimal_string(1050), "1050");
    assert_eq!(decimal_string(u64::MAX), u64::MAX.to_string());
}

#[test]
fn line_filter_keeps_long_units() {
    let mut a = make_unit("a");
    a.range_start = 10;
    a.range_end = 12;
    let mut b = make_unit("b");
    b.range_start = 10;
    b.range_end = 13;
    let mut c = make_unit("c");
    c.range_start = 5;
    c.range_end = 3;
    let kept = filter_by_lines(vec![a, b, c], 3);
    assert_eq!(kept.len(), 1);
    assert_eq!(kept[0].body, "b");
}
