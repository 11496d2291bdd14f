use akin::analyzer::ArchitectureAnalyzer;
use akin::code_unit::{FunctionNode, FunctionRef};
use akin::mermaid::MermaidGenerator;

#[test]
fn test_node_id_replaces_special_chars() {
    assert_eq!(MermaidGenerator::node_id("foo::bar"), "foo_bar");
    assert_eq!(MermaidGenerator::node_id("src/lib.rs"), "src_lib_rs");
    assert_eq!(MermaidGenerator::node_id("my-crate"), "my_crate");
    assert_eq!(MermaidGenerator::node_id("a::b/c.d-e"), "a_b_c_d_e");
}

#[test]
fn test_short_name_extracts_last_segment() {
    assert_eq!(MermaidGenerator::short_name("foo::bar::baz"), "baz");
    assert_eq!(MermaidGenerator::short_name("single"), "single");
    assert_eq!(MermaidGenerator::short_name("a::b"), "b");
}

#[test]
fn test_extract_module_strips_workspace() {
    let result = MermaidGenerator::extract_module("/workspace/src/lib.rs", "/workspace");
    assert_eq!(result, "src::lib");
}

#[test]
fn test_extract_module_handles_nested_paths() {
    let result =
        MermaidGenerator::extract_module("/workspace/crates/lsp/src/protocol.rs", "/workspace");
    assert_eq!(result, "crates::lsp::src::protocol");
}

#[test]
fn test_extract_module_no_workspace_prefix() {
    let result = MermaidGenerator::extract_module("/other/path/file.rs", "/workspace");
    assert_eq!(result, "other::path::file");
}

#[test]
fn test_extract_module_avoids_collision() {
    let mod1 = MermaidGenerator::extract_module("/ws/a/lib.rs", "/ws");
    let mod2 = MermaidGenerator::extract_module("/ws/b/lib.rs", "/ws");
    assert_ne!(mod1, mod2);
    assert_eq!(mod1, "a::lib");
    assert_eq!(mod2, "b::lib");
}

#[test]
fn extract_module_edge_cases() {
    assert_eq!(MermaidGenerator::extract_module("/ws/.hidden", "/ws"), ".hidden");
    assert_eq!(MermaidGenerator::extract_module("/ws/a.b/c", "/ws"), "a.b::c");
    assert_eq!(MermaidGenerator::extract_module("/ws/x.tar.gz", "/ws"), "x.tar");
}

#[test]
fn test_generator_builder() {
    let gen = MermaidGenerator::new().with_max_nodes(50);
    assert_eq!(gen.max_nodes, 50);
}

#[test]
fn test_generator_default() {
    let gen = MermaidGenerator::default();
    assert_eq!(gen.max_nodes, 100);
}

fn node(name: &str, file: &str, line: u32, callers: Vec<(&str, u32)>, callees: Vec<(&str, u32)>) -> FunctionNode {
    FunctionNode {
        name: name.to_string(),
        file_path: file.to_string(),
        line,
        callers: callers.into_iter().map(|(f, l)| FunctionRef::new(f.to_string(), l)).collect(),
        callees: callees.into_iter().map(|(f, l)| FunctionRef::new(f.to_string(), l)).collect(),
    }
}

fn sample() -> ArchitectureAnalyzer {
    let mut a = ArchitectureAnalyzer::new();
    a.add_function("/ws/a.rs", 1, node("m::main", "/ws/a.rs", 1, vec![], vec![("/ws/b.rs", 2)]));
    a.add_function("/ws/b.rs", 2, node("helper", "/ws/b.rs", 2, vec![("/ws/a.rs", 1)], vec![("/ws/b.rs", 3)]));
    a.add_function("/ws/b.rs", 3, node("leaf", "/ws/b.rs", 3, vec![("/ws/b.rs", 2)], vec![]));
    a
}

#[test]
fn call_graph_exact_text() {
    let text = MermaidGenerator::new().generate_call_graph(&sample());
    assert_eq!(
        text,
        "flowchart TD\n    helper[helper]\n    m_main[[main]]\n    leaf([leaf])\n    helper --> leaf\n    m_main --> helper"
    );
}

#[test]
fn call_graph_keeps_highest_degree() {
    let text = MermaidGenerator::new().with_max_nodes(1).generate_call_graph(&sample());
    assert_eq!(text, "flowchart TD\n    helper[helper]");
    let empty = MermaidGenerator::new().generate_call_graph(&ArchitectureAnalyzer::new());
    assert_eq!(empty, "flowchart TD");
}

#[test]
fn module_diagram_exact_text() {
    let text = MermaidGenerator::new().generate_module_diagram(&sample(), "/ws");
    assert_eq!(text, "flowchart TD\n    a[a]\n    b[b]\n    a -->|1| b");
}
