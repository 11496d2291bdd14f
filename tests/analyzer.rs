use akin::analyzer::{ArchitectureAnalyzer, CallDirection};
use akin::code_unit::{FunctionNode, FunctionRef};

fn make_node(name: &str, callers: Vec<(&str, u32)>, callees: Vec<(&str, u32)>) -> FunctionNode {
    FunctionNode {
        file_path: "/test/file.rs".to_string(),
        line: 1,
        name: name.to_string(),
        callers: callers.into_iter().map(|(f, l)| FunctionRef::new(f.to_string(), l)).collect(),
        callees: callees.into_iter().map(|(f, l)| FunctionRef::new(f.to_string(), l)).collect(),
    }
}

#[test]
fn test_is_entry_point_main() {
    let node = make_node("main", vec![], vec![]);
    assert!(ArchitectureAnalyzer::is_entry_point(&node));
}

#[test]
fn test_is_entry_point_test() {
    let node = make_node("test_something", vec![], vec![]);
    assert!(ArchitectureAnalyzer::is_entry_point(&node));
}

#[test]
fn test_is_entry_point_new() {
    let node = make_node("new", vec![], vec![]);
    assert!(ArchitectureAnalyzer::is_entry_point(&node));
}

#[test]
fn test_is_entry_point_regular_function() {
    let node = make_node("helper_function", vec![], vec![]);
    assert!(!ArchitectureAnalyzer::is_entry_point(&node));
}

#[test]
fn entry_point_ignores_case() {
    let node = make_node("RunAll", vec![], vec![]);
    assert!(ArchitectureAnalyzer::is_entry_point(&node));
    let node = make_node("SETUP_db", vec![], vec![]);
    assert!(ArchitectureAnalyzer::is_entry_point(&node));
}

#[test]
fn test_find_dead_code_no_callers() {
    let mut analyzer = ArchitectureAnalyzer::new();

    let mut foo = make_node("foo", vec![], vec![]);
    foo.callees = vec![FunctionRef::new("/test/file.rs".to_string(), 2)];
    analyzer.add_function("/test/file.rs", 1, foo);

    let mut bar = make_node("bar", vec![], vec![]);
    bar.callers = vec![FunctionRef::new("/test/file.rs".to_string(), 1)];
    analyzer.add_function("/test/file.rs", 2, bar);

    analyzer.add_function("/test/file.rs", 3, make_node("unused", vec![], vec![]));

    let dead = analyzer.find_dead_code();
    assert_eq!(dead.len(), 2);
    let names: Vec<_> = dead.iter().map(|n| n.name.as_str()).collect();
    assert!(names.contains(&"foo"));
    assert!(names.contains(&"unused"));
}

#[test]
fn test_find_dead_code_excludes_entry_points() {
    let mut analyzer = ArchitectureAnalyzer::new();

    let mut main_node = make_node("main", vec![], vec![]);
    main_node.callees = vec![FunctionRef::new("/test/file.rs".to_string(), 2)];
    analyzer.add_function("/test/file.rs", 1, main_node);

    let mut foo = make_node("foo", vec![], vec![]);
    foo.callers = vec![FunctionRef::new("/test/file.rs".to_string(), 1)];
    analyzer.add_function("/test/file.rs", 2, foo);

    let dead = analyzer.find_dead_code();
    assert!(dead.is_empty());
}

#[test]
fn add_function_replaces_same_location() {
    let mut analyzer = ArchitectureAnalyzer::new();
    analyzer.add_function("/test/file.rs", 1, make_node("a", vec![], vec![]));
    analyzer.add_function("/test/file.rs", 1, make_node("b", vec![], vec![]));
    analyzer.add_function("/test/file.rs", 2, make_node("c", vec![], vec![]));
    assert_eq!(analyzer.functions().len(), 2);
    assert_eq!(analyzer.functions()[0].1.name, "b");
}

#[test]
fn test_get_call_tree_outgoing() {
    let mut analyzer = ArchitectureAnalyzer::new();

    let mut root = make_node("root", vec![], vec![]);
    root.callees = vec![
        FunctionRef::new("/test/file.rs".to_string(), 2),
        FunctionRef::new("/test/file.rs".to_string(), 3),
    ];
    analyzer.add_function("/test/file.rs", 1, root);

    let mut child1 = make_node("child1", vec![], vec![]);
    child1.callers = vec![FunctionRef::new("/test/file.rs".to_string(), 1)];
    child1.callees = vec![FunctionRef::new("/test/file.rs".to_string(), 4)];
    analyzer.add_function("/test/file.rs", 2, child1);

    let mut child2 = make_node("child2", vec![], vec![]);
    child2.callers = vec![FunctionRef::new("/test/file.rs".to_string(), 1)];
    analyzer.add_function("/test/file.rs", 3, child2);

    let mut grandchild = make_node("grandchild", vec![], vec![]);
    grandchild.callers = vec![FunctionRef::new("/test/file.rs".to_string(), 2)];
    analyzer.add_function("/test/file.rs", 4, grandchild);

    let tree = analyzer.get_call_tree("root", CallDirection::Outgoing, 3);

    assert_eq!(tree.len(), 4);
    assert_eq!(tree[0].name, "root");
    assert_eq!(tree[0].depth, 0);
}

#[test]
fn test_get_call_tree_incoming() {
    let mut analyzer = ArchitectureAnalyzer::new();

    let mut root = make_node("root", vec![], vec![]);
    root.callers = vec![
        FunctionRef::new("/test/file.rs".to_string(), 2),
        FunctionRef::new("/test/file.rs".to_string(), 3),
    ];
    analyzer.add_function("/test/file.rs", 1, root);

    let mut caller1 = make_node("caller1", vec![], vec![]);
    caller1.callees = vec![FunctionRef::new("/test/file.rs".to_string(), 1)];
    analyzer.add_function("/test/file.rs", 2, caller1);

    let mut caller2 = make_node("caller2", vec![], vec![]);
    caller2.callees = vec![FunctionRef::new("/test/file.rs".to_string(), 1)];
    analyzer.add_function("/test/file.rs", 3, caller2);

    let tree = analyzer.get_call_tree("root", CallDirection::Incoming, 2);

    assert_eq!(tree.len(), 3);
    assert_eq!(tree[0].name, "root");
}

#[test]
fn test_get_call_tree_max_depth() {
    let mut analyzer = ArchitectureAnalyzer::new();

    let mut a = make_node("a", vec![], vec![]);
    a.callees = vec![FunctionRef::new("/test/file.rs".to_string(), 2)];
    analyzer.add_function("/test/file.rs", 1, a);

    let mut b = make_node("b", vec![], vec![]);
    b.callers = vec![FunctionRef::new("/test/file.rs".to_string(), 1)];
    b.callees = vec![FunctionRef::new("/test/file.rs".to_string(), 3)];
    analyzer.add_function("/test/file.rs", 2, b);

    let mut c = make_node("c", vec![], vec![]);
    c.callers = vec![FunctionRef::new("/test/file.rs".to_string(), 2)];
    c.callees = vec![FunctionRef::new("/test/file.rs".to_string(), 4)];
    analyzer.add_function("/test/file.rs", 3, c);

    let mut d = make_node("d", vec![], vec![]);
    d.callers = vec![FunctionRef::new("/test/file.rs".to_string(), 3)];
    analyzer.add_function("/test/file.rs", 4, d);

    let tree = analyzer.get_call_tree("a", CallDirection::Outgoing, 1);

    assert_eq!(tree.len(), 2);
}

#[test]
fn test_get_call_tree_handles_cycles() {
    let mut analyzer = ArchitectureAnalyzer::new();

    let mut a = make_node("a", vec![], vec![]);
    a.callers = vec![FunctionRef::new("/test/file.rs".to_string(), 2)];
    a.callees = vec![FunctionRef::new("/test/file.rs".to_string(), 2)];
    analyzer.add_function("/test/file.rs", 1, a);

    let mut b = make_node("b", vec![], vec![]);
    b.callers = vec![FunctionRef::new("/test/file.rs".to_string(), 1)];
    b.callees = vec![FunctionRef::new("/test/file.rs".to_string(), 1)];
    analyzer.add_function("/test/file.rs", 2, b);

    let tree = analyzer.get_call_tree("a", CallDirection::Outgoing, 10);

    assert_eq!(tree.len(), 2);
}

#[test]
fn call_tree_of_unknown_root_is_empty() {
    let mut analyzer = ArchitectureAnalyzer::new();
    analyzer.add_function("/test/file.rs", 1, make_node("a", vec![], vec![]));
    assert!(analyzer.get_call_tree("zzz", CallDirection::Outgoing, 5).is_empty());
}

#[test]
fn call_tree_root_by_suffix() {
    let mut analyzer = ArchitectureAnalyzer::new();
    analyzer.add_function("/test/file.rs", 1, make_node("Foo::bar", vec![], vec![]));
    let tree = analyzer.get_call_tree("bar", CallDirection::Outgoing, 0);
    assert_eq!(tree.len(), 1);
    assert_eq!(tree[0].name, "Foo::bar");
}

#[test]
fn entry_names_after_lowercasing() {
    assert!(akin::analyzer::is_entry_name("main"));
    assert!(akin::analyzer::is_entry_name("my_test"));
    assert!(akin::analyzer::is_entry_name("initialize"));
    assert!(!akin::analyzer::is_entry_name("helper"));
    assert!(!akin::analyzer::is_entry_name("Main"));
}
