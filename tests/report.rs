use akin::report::{format_name, format_result, MatchSummary};

fn percent(similarity: f32) -> i32 {
    (similarity * 100.0) as i32
}

#[test]
fn test_format_result_empty() {
    let result = format_result(&vec![]);
    assert!(result.is_empty());
}

#[test]
fn test_format_result_with_matches() {
    let matches = vec![MatchSummary {
        current_name: "rust:test.rs::foo".to_string(),
        current_file: "/path/to/test.rs".to_string(),
        current_line: 10,
        similar_name: "rust:other.rs::bar".to_string(),
        similar_file: "/path/to/other.rs".to_string(),
        similar_line: 20,
        percent: percent(0.95),
        is_cross_project: false,
    }];
    let result = format_result(&matches);
    assert!(result.contains("检测到相似代码"));
    assert!(result.contains("95%"));
    assert!(result.contains("foo"));
    assert!(result.contains("bar"));
}

#[test]
fn test_format_result_cross_project() {
    let matches = vec![MatchSummary {
        current_name: "rust::foo".to_string(),
        current_file: "/a/test.rs".to_string(),
        current_line: 1,
        similar_name: "swift::bar".to_string(),
        similar_file: "/b/test.swift".to_string(),
        similar_line: 1,
        percent: percent(0.90),
        is_cross_project: true,
    }];
    let result = format_result(&matches);
    assert!(result.contains("[跨项目]"));
}

#[test]
fn format_result_exact_lines() {
    let matches = vec![MatchSummary {
        current_name: "rust:a.rs::A::foo".to_string(),
        current_file: "/p/a.rs".to_string(),
        current_line: 3,
        similar_name: "rust:b.rs::bar".to_string(),
        similar_file: "/p/b.rs".to_string(),
        similar_line: 7,
        percent: 100,
        is_cross_project: false,
    }];
    let text = format_result(&matches);
    let lines: Vec<&str> = text.split('\n').collect();
    assert_eq!(lines[0], "⚠️ 检测到相似代码:");
    assert_eq!(lines[1], "  (100%)");
    assert_eq!(lines[2], "  ├─ 当前: a.rs:3 foo()");
    assert_eq!(lines[3], "  └─ 相似: b.rs:7 bar()");
    assert_eq!(lines[4], "");
    assert_eq!(lines.len(), 9);
}

#[test]
fn display_names() {
    assert_eq!(format_name("rust:src/a.rs::Foo::bar"), "Foo::bar (a.rs)");
    assert_eq!(format_name("swift:Main.swift::f"), "f (Main.swift)");
    assert_eq!(format_name("rust:rust:x.rs::g"), "g (x.rs)");
    assert_eq!(format_name("plain"), "plain");
}
