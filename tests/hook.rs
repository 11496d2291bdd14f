use akin::hook::{
    candidate_allowed, file_to_examine, get_language, hook_search_k, is_code_file,
    is_cross_project, notify_from_setting, scope_allows, scope_from_setting, short_name,
    HookInput, HookResult, HookScope, NotifyMode, ToolInput,
};

#[test]
fn test_is_code_file() {
    assert!(is_code_file("foo.rs"));
    assert!(is_code_file("bar.swift"));
    assert!(is_code_file("baz.py"));
    assert!(is_code_file("test.ts"));
    assert!(!is_code_file("readme.md"));
    assert!(!is_code_file("config.json"));
}

#[test]
fn test_get_language() {
    assert_eq!(get_language("foo.rs"), Some("rust"));
    assert_eq!(get_language("bar.swift"), Some("swift"));
    assert_eq!(get_language("baz.py"), Some("python"));
    assert_eq!(get_language("readme.md"), None);
}

#[test]
fn language_ignores_case_and_directories() {
    assert_eq!(get_language("/a/b.c/Main.RS"), Some("rust"));
    assert_eq!(get_language("src/App.TSX"), Some("typescript"));
    assert_eq!(get_language("web/x.jsx"), Some("javascript"));
    assert_eq!(get_language("cmd/main.go"), Some("go"));
    assert_eq!(get_language("dir.rs/Makefile"), None);
    assert_eq!(get_language(".rs"), None);
    assert_eq!(get_language(""), None);
}

#[test]
fn test_threshold_filtering_logic() {
    let threshold = 0.85_f32;

    assert!(0.90 >= threshold);
    assert!(0.85 >= threshold);
    assert!(!(0.84 >= threshold));
}

#[test]
fn ignored_pair_blocks_both_orders() {
    let ignored = vec![("a".to_string(), "b".to_string())];
    assert!(!candidate_allowed("a", "b", &ignored));
    assert!(!candidate_allowed("b", "a", &ignored));
    assert!(candidate_allowed("a", "c", &ignored));
}

#[test]
fn unit_is_never_its_own_match() {
    let ignored: Vec<(String, String)> = vec![];
    assert!(!candidate_allowed("rust:a.rs::foo", "rust:a.rs::foo", &ignored));
    assert!(candidate_allowed("rust:a.rs::foo", "rust:b.rs::foo", &ignored));
}

#[test]
fn scope_policy() {
    assert!(scope_allows(HookScope::All, Some(1), 2));
    assert!(scope_allows(HookScope::Project, Some(1), 1));
    assert!(!scope_allows(HookScope::Project, Some(1), 2));
    assert!(scope_allows(HookScope::Project, None, 2));
    assert!(!scope_allows(HookScope::CrossOnly, Some(1), 1));
    assert!(scope_allows(HookScope::CrossOnly, Some(1), 2));
    assert!(scope_allows(HookScope::CrossOnly, None, 1));
}

#[test]
fn cross_project_flag() {
    assert!(is_cross_project(None, 3));
    assert!(is_cross_project(Some(1), 3));
    assert!(!is_cross_project(Some(3), 3));
}

#[test]
fn settings_parse() {
    assert_eq!(scope_from_setting("project"), HookScope::Project);
    assert_eq!(scope_from_setting("cross"), HookScope::CrossOnly);
    assert_eq!(scope_from_setting("all"), HookScope::All);
    assert_eq!(scope_from_setting("whatever"), HookScope::All);
    assert_eq!(notify_from_setting("user"), NotifyMode::User);
    assert_eq!(notify_from_setting("block"), NotifyMode::Block);
}

#[test]
fn search_k_is_at_least_fifty() {
    assert_eq!(hook_search_k(3), 50);
    assert_eq!(hook_search_k(20), 60);
    assert_eq!(hook_search_k(0), 50);
    assert_eq!(hook_search_k(usize::MAX), usize::MAX);
}

#[test]
fn hook_results() {
    let e = HookResult::empty();
    assert!(e.decision.is_none() && e.reason.is_none() && e.system_message.is_none());
    let b = HookResult::block("test reason".to_string());
    assert_eq!(b.decision.as_deref(), Some("block"));
    assert_eq!(b.reason.as_deref(), Some("test reason"));
    assert!(b.system_message.is_none());
    let n = HookResult::notify("test message".to_string());
    assert!(n.decision.is_none());
    assert_eq!(n.system_message.as_deref(), Some("test message"));
    let m = HookResult::for_mode(NotifyMode::User, "m".to_string());
    assert_eq!(m.system_message.as_deref(), Some("m"));
    let m = HookResult::for_mode(NotifyMode::Block, "m".to_string());
    assert_eq!(m.reason.as_deref(), Some("m"));
}

fn input(event: Option<&str>, path: Option<&str>, content: Option<&str>) -> HookInput {
    HookInput {
        hook_event_name: event.map(|s| s.to_string()),
        tool_name: Some("Write".to_string()),
        tool_input: Some(ToolInput {
            file_path: path.map(|s| s.to_string()),
            content: content.map(|s| s.to_string()),
        }),
        cwd: Some("/proj".to_string()),
    }
}

#[test]
fn hook_examines_code_edits_only() {
    let got = file_to_examine(&input(Some("PostToolUse"), Some("/proj/a.rs"), Some("fn a() {}")));
    assert_eq!(got, Some(("/proj/a.rs".to_string(), "fn a() {}".to_string())));
    assert!(file_to_examine(&input(Some("PreToolUse"), Some("/proj/a.rs"), Some("x"))).is_none());
    assert!(file_to_examine(&input(None, Some("/proj/a.rs"), Some("x"))).is_none());
    assert!(file_to_examine(&input(Some("PostToolUse"), Some("/proj/a.md"), Some("x"))).is_none());
    assert!(file_to_examine(&input(Some("PostToolUse"), None, Some("x"))).is_none());
    assert!(file_to_examine(&input(Some("PostToolUse"), Some("/proj/a.rs"), None)).is_none());
}

#[test]
fn short_name_takes_last_segment() {
    assert_eq!(short_name("rust:src/a.rs::Foo::bar"), "bar");
    assert_eq!(short_name("plain"), "plain");
    assert_eq!(short_name("a:::b"), ":b");
    assert_eq!(short_name("a::"), "");
}

#[test]
fn lowered_extension_table() {
    assert_eq!(akin::hook::language_for_extension("rs"), Some("rust"));
    assert_eq!(akin::hook::language_for_extension("tsx"), Some("typescript"));
    assert_eq!(akin::hook::language_for_extension("RS"), None);
    assert_eq!(akin::hook::path_extension("a/b.tar.gz"), Some("gz".to_string()));
    assert_eq!(akin::hook::path_extension("a/.bashrc"), None);
}

#[test]
fn selected_matches_follow_scope_and_cap() {
    let projects = vec![1, 2, 1, 3, 2];
    assert_eq!(akin::hook::select_matches(HookScope::All, Some(1), &projects, 3), vec![0, 1, 2]);
    assert_eq!(akin::hook::select_matches(HookScope::CrossOnly, Some(1), &projects, 3), vec![1, 3, 4]);
    assert_eq!(akin::hook::select_matches(HookScope::Project, Some(1), &projects, 1), vec![0]);
    assert_eq!(akin::hook::select_matches(HookScope::Project, None, &projects, 10), vec![0, 1, 2, 3, 4]);
    assert!(akin::hook::select_matches(HookScope::All, None, &projects, 0).is_empty());
}
