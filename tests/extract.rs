use akin::extract::{
    encloses_children, is_skipped_dir, is_source_file, language_from_tag, qualified_name,
    symbol_unit, tree_unit, with_context, ContextKind, SourceLanguage, SymbolKindTag,
};

fn lines(text: &str) -> Vec<String> {
    text.lines().map(|l| l.to_string()).collect()
}

#[test]
fn language_tags() {
    assert_eq!(language_from_tag("rust"), Some(SourceLanguage::Rust));
    assert_eq!(language_from_tag("swift"), Some(SourceLanguage::Swift));
    assert_eq!(language_from_tag("typescript"), Some(SourceLanguage::TypeScript));
    assert_eq!(language_from_tag("ts"), Some(SourceLanguage::TypeScript));
    assert_eq!(language_from_tag("python"), None);
}

#[test]
fn skipped_directories() {
    for d in ["target", ".build", "Build", "DerivedData", "Pods", "node_modules", "dist", "build",
              ".next", ".nuxt", "coverage", ".git", ".turbo", ".cache"] {
        assert!(is_skipped_dir(d), "{}", d);
    }
    assert!(!is_skipped_dir("src"));
    assert!(!is_skipped_dir("Target"));
}

#[test]
fn source_files_per_language() {
    assert!(is_source_file(SourceLanguage::Rust, "/p/src/lib.rs"));
    assert!(!is_source_file(SourceLanguage::Rust, "/p/src/lib.swift"));
    assert!(is_source_file(SourceLanguage::Swift, "/p/App.swift"));
    assert!(is_source_file(SourceLanguage::TypeScript, "/p/a.tsx"));
    assert!(is_source_file(SourceLanguage::TypeScript, "/p/a.mjs"));
    assert!(!is_source_file(SourceLanguage::TypeScript, "/p/types.d.ts"));
    assert!(!is_source_file(SourceLanguage::TypeScript, "/p/vite.config.ts"));
    assert!(!is_source_file(SourceLanguage::TypeScript, "/p/x.config.mjs"));
    assert!(!is_source_file(SourceLanguage::TypeScript, "/p/README"));
    assert!(!is_source_file(SourceLanguage::TypeScript, "/p/app.config.cjs"));
    assert!(!is_source_file(SourceLanguage::TypeScript, "/p/x.config.tsx"));
    assert!(!is_source_file(SourceLanguage::TypeScript, "/p/jest.config.base.js"));
    assert!(is_source_file(SourceLanguage::TypeScript, "/p/configure.ts"));
    assert!(is_source_file(SourceLanguage::TypeScript, "/p/config.ts"));
}

#[test]
fn qualified_names() {
    assert_eq!(qualified_name("rust", "src/a.rs", Some("Foo"), "bar"), "rust:src/a.rs::Foo::bar");
    assert_eq!(qualified_name("rust", "src/a.rs", None, "bar"), "rust:src/a.rs::bar");
}

#[test]
fn context_preface_format() {
    let fields = vec!["id: String".to_string(), "user_id: String".to_string()];
    assert_eq!(
        with_context(ContextKind::StructFields, &fields, "fn new() {}"),
        "// Struct fields:\nid: String\nuser_id: String\n\nfn new() {}"
    );
    let props = vec!["var sessionId: String".to_string()];
    assert_eq!(
        with_context(ContextKind::ClassProperties, &props, "func establish() {}"),
        "// Class properties:\nvar sessionId: String\n\nfunc establish() {}"
    );
    assert_eq!(with_context(ContextKind::StructFields, &vec![], "body"), "body");
}

#[test]
fn tree_units() {
    let src = lines("struct S { id: String }\nimpl S {\n    fn new() -> Self {\n        todo\n    }\n}");
    let fields = vec!["id: String".to_string()];
    let u = tree_unit("rust", "a.rs", Some("S"), "new", &src, 2, 5, 3, ContextKind::StructFields, &fields)
        .unwrap();
    assert_eq!(u.qualified_name, "rust:a.rs::S::new");
    assert_eq!(u.kind, "method");
    assert_eq!((u.range_start, u.range_end, u.selection_line), (3, 5, 3));
    assert_eq!(u.body, "// Struct fields:\nid: String\n\n    fn new() -> Self {\n        todo\n    }");
    assert!(tree_unit("rust", "a.rs", None, "new", &src, 2, 5, 4, ContextKind::StructFields, &fields).is_none());
    let f = tree_unit("rust", "a.rs", None, "f", &src, 0, 1, 1, ContextKind::StructFields, &fields).unwrap();
    assert_eq!(f.kind, "function");
    assert_eq!(f.body, "struct S { id: String }");
}

#[test]
fn symbol_units() {
    let src = lines("class A {\n  init(x: Int) {\n  }\n}");
    let u = symbol_unit(SourceLanguage::Swift, "A.swift", Some("A"), "init(x:)", SymbolKindTag::Constructor, 1, 2, 1, 2, &src)
        .unwrap();
    assert_eq!(u.qualified_name, "swift:A.swift::A::init");
    assert_eq!(u.kind, "init");
    assert_eq!(u.body, "  init(x: Int) {\n  }");
    assert_eq!((u.selection_line, u.selection_column), (1, 2));
    assert!(symbol_unit(SourceLanguage::Swift, "A.swift", None, "A", SymbolKindTag::Class, 0, 3, 0, 6, &src).is_none());
    let t = symbol_unit(SourceLanguage::TypeScript, "a.ts", None, "constructor", SymbolKindTag::Constructor, 9, 12, 9, 0, &src)
        .unwrap();
    assert_eq!(t.kind, "constructor");
    assert_eq!(t.body, "");
    assert!(symbol_unit(SourceLanguage::Rust, "a.rs", None, "new", SymbolKindTag::Constructor, 0, 0, 0, 0, &src).is_none());
}

#[test]
fn containers() {
    assert!(encloses_children(SourceLanguage::Rust, SymbolKindTag::Module));
    assert!(!encloses_children(SourceLanguage::Swift, SymbolKindTag::Module));
    assert!(encloses_children(SourceLanguage::TypeScript, SymbolKindTag::Interface));
    assert!(!encloses_children(SourceLanguage::TypeScript, SymbolKindTag::Struct));
}
