use hephaestus::ast::analyzer::{ASTAnalyzer, CallEdge, CallGraph, StructureNode};
use hephaestus::ast::parser::AstParser;
use hephaestus::ast::syntax::{LanguageKind, SyntaxNode, SyntaxTree};
use hephaestus::error::HephaestusError;

fn structure(name: &str, line: u32) -> StructureNode {
    StructureNode {
        node_type: "function".to_string(),
        name: name.to_string(),
        file_path: "test.rs".to_string(),
        line_number: line,
        signature: format!("fn {}()", name),
        children: Vec::new(),
    }
}

fn node(kind: &str, start: (usize, usize), end: (usize, usize), bytes: (usize, usize), depth: usize, children: Vec<usize>) -> SyntaxNode {
    SyntaxNode {
        kind: kind.to_string(),
        start_byte: bytes.0,
        end_byte: bytes.1,
        start_row: start.0,
        start_column: start.1,
        end_row: end.0,
        end_column: end.1,
        depth,
        children,
    }
}

#[test]
fn test_make_deterministic_id() {
    let id1 = ASTAnalyzer::make_deterministic_id("function", "test_func", 42);
    let id2 = ASTAnalyzer::make_deterministic_id("function", "test_func", 42);
    let id3 = ASTAnalyzer::make_deterministic_id("function", "test_func", 43);

    assert_eq!(id1, id2);
    assert_ne!(id1, id3);

    assert_eq!(id1.len(), 16);
    assert!(id1.chars().all(|c| c.is_ascii_hexdigit()));
}

#[test]
fn deterministic_id_ignores_punctuation() {
    // Only letters, digits and underscores enter the hash.
    let a = ASTAnalyzer::make_deterministic_id("function", "a-b", 1);
    let b = ASTAnalyzer::make_deterministic_id("function", "ab", 1);
    assert_eq!(a, b);
    assert!(a.chars().all(|c| c.is_ascii_digit() || ('a'..='f').contains(&c)));
}

#[test]
fn test_extract_summary() {
    let node = structure("test_func", 3);

    let source = r#"
            // This is a test function
            // It does something important
            fn test_func() {
                println!("Hello");
            }
        "#;

    let summary = ASTAnalyzer::extract_summary(&node, source);
    assert!(summary.contains("test function") || summary.contains("does something"));
}

#[test]
fn summary_scans_upward_and_falls_back() {
    let source = "/// Adds numbers\n\nfn add() {}\n";
    assert_eq!(ASTAnalyzer::extract_summary(&structure("add", 3), source), "Adds numbers");
    assert_eq!(ASTAnalyzer::extract_summary(&structure("add", 1), source), "?");
    let plain = "let x = 1;\n\nfn f() {}\n";
    assert_eq!(ASTAnalyzer::extract_summary(&structure("f", 4), plain), "let x = 1;");
    let defs = "struct S;\nfn g() {}\n";
    assert_eq!(ASTAnalyzer::extract_summary(&structure("g", 3), defs), "?");
}

#[test]
fn test_parse_rust_code() {
    let mut parser = AstParser::new();
    let source = r#"
            fn main() {
                let x = 1;
                println!("{}", x);
            }
        "#;
    let genome = parser.parse_to_genome(source, "rust").unwrap();
    assert!(!genome.id.is_empty());
    assert!(!genome.content.is_empty());
}

#[test]
fn test_parse_c_code() {
    let mut parser = AstParser::new();
    let source = r#"
            int main() {
                int x = 1;
                printf("%d\\n", x);
                return 0;
            }
        "#;
    let genome = parser.parse_to_genome(source, "c").unwrap();
    assert!(!genome.id.is_empty());
    assert!(!genome.content.is_empty());
}

#[test]
fn test_unsupported_language() {
    let mut parser = AstParser::new();
    let result = parser.parse_to_genome("int x;", "javascript");
    assert!(result.is_err());
}

#[test]
fn test_comment_skipping() {
    let mut parser = AstParser::new();
    let source_with_comments = r#"
            // This is a comment
            int x = 1; /* Another comment */
        "#;
    let source_without_comments = r#"
            int x = 1;
        "#;
    let genome_with = parser.parse_to_genome(source_with_comments, "c").unwrap();
    let genome_without = parser.parse_to_genome(source_without_comments, "c").unwrap();
    assert_eq!(genome_with.id, genome_without.id);
    assert_eq!(genome_with.content, genome_without.content);
}

#[test]
fn language_names_ignore_case() {
    assert_eq!(AstParser::get_language("RUST").unwrap(), LanguageKind::Rust);
    assert_eq!(AstParser::get_language("c").unwrap(), LanguageKind::C);
    match AstParser::get_language("javascript") {
        Err(HephaestusError::InvalidInput(m)) => {
            assert_eq!(m, "Unsupported language: javascript. Supported languages: rust, c")
        }
        _ => panic!("javascript accepted"),
    }
}

#[test]
fn genome_content_is_length_prefixed_kinds() {
    let mut parser = AstParser::new();
    let g = parser.parse_to_genome("int x;", "c").unwrap();
    // The root record comes first: its kind's length in four little-endian
    // bytes, then the kind.
    assert_eq!(&g.content[..4], &[16, 0, 0, 0]);
    assert_eq!(&g.content[4..20], b"translation_unit");
    assert_eq!(g.id, blake3::hash(&g.content).to_hex().to_string());
}

fn sample_tree() -> (SyntaxTree, String) {
    // fn f() {\n    g();\n}\n
    let source = "fn f() {\n    g();\n}\n".to_string();
    let nodes = vec![
        node("source_file", (0, 0), (3, 0), (0, 20), 0, vec![1]),
        node("function_item", (0, 0), (2, 1), (0, 19), 1, vec![2, 3, 4]),
        node("fn", (0, 0), (0, 2), (0, 2), 2, vec![]),
        node("identifier", (0, 3), (0, 4), (3, 4), 2, vec![]),
        node("block", (0, 7), (2, 1), (7, 19), 2, vec![5]),
        node("call_expression", (1, 4), (1, 7), (13, 16), 3, vec![6, 7]),
        node("identifier", (1, 4), (1, 5), (13, 14), 4, vec![]),
        node("arguments", (1, 5), (1, 7), (14, 16), 4, vec![]),
    ];
    (SyntaxTree { nodes }, source)
}

#[test]
fn error_node_is_the_deepest_cover() {
    let (t, source) = sample_tree();
    let a = ASTAnalyzer::new(LanguageKind::Rust).unwrap();
    // Line 2, column 5 is the identifier `g`.
    assert_eq!(a.find_error_node(&t, &source, 2, Some(5)).unwrap(), 6);
    // Without a column, the deepest node spanning line 2 is the call's
    // first identifier (the first of the deepest).
    assert_eq!(a.find_error_node(&t, &source, 2, None).unwrap(), 6);
    match a.find_error_node(&t, &source, 9, Some(3)) {
        Err(HephaestusError::InvalidInput(m)) => {
            assert_eq!(m, "No AST node found at line 9, column Some(3)")
        }
        _ => panic!("expected no node"),
    }
    match a.find_error_node(&t, &source, 9, None) {
        Err(e) => assert_eq!(e.message(), "Invalid input: No AST node found at line 9, column None"),
        _ => panic!("expected no node"),
    }
}

#[test]
fn diagnosis_names_the_function_and_its_context() {
    let (t, source) = sample_tree();
    let a = ASTAnalyzer::new(LanguageKind::Rust).unwrap();
    let s = a.extract_structure(&t, &source).unwrap();
    assert_eq!(s.len(), 1);
    assert_eq!(s[0].name, "f");
    assert_eq!(s[0].signature, "fn f() {");
    assert_eq!(s[0].line_number, 1);
    let g = a.extract_call_graph(&t, &source).unwrap();
    assert_eq!(g.edges.len(), 1);
    assert_eq!(g.edges[0].callee, "g");
    assert_eq!(g.edges[0].caller, "unknown_function");
    assert_eq!(g.edges[0].line_number, 2);

    let d = a.diagnose_tree(&t, &source, 1, None).unwrap();
    assert_eq!(d.error_function, "f");
    assert_eq!(d.error_line, 1);
    assert_eq!(d.function_signature, "fn f() {");
    assert_eq!(d.slim_nodes.len(), 1);
    assert_eq!(d.slim_nodes[0].id, ASTAnalyzer::make_deterministic_id("function", "f", 1));
    assert_eq!(d.repair_context, "fn f() {\n    g();\n}");

    let d2 = a.diagnose_tree(&t, &source, 2, Some(5)).unwrap();
    assert_eq!(d2.error_function, "unknown");
    assert_eq!(d2.error_line, 2);
    assert_eq!(d2.slim_nodes[0].node_type, "unknown");
    assert_eq!(d2.slim_nodes[0].summary, "?");
}

#[test]
fn repair_context_is_clipped_to_the_source() {
    let a = ASTAnalyzer::new(LanguageKind::C).unwrap();
    let source = "a\nb\nc\nd\ne\nf\ng";
    // The node spans line "d" (bytes 6..7).
    let n = node("x", (3, 0), (3, 1), (6, 7), 0, vec![]);
    assert_eq!(a.extract_repair_context(&n, source, 1).unwrap(), "c\nd\ne");
    assert_eq!(a.extract_repair_context(&n, source, 0).unwrap(), "d");
    assert_eq!(a.extract_repair_context(&n, source, 10).unwrap(), source);
}

#[test]
fn diagnose_parses_real_code() {
    let mut a = ASTAnalyzer::new(LanguageKind::Rust).unwrap();
    let source = "fn add(a: i32, b: i32) -> i32 {\n    a + b\n}\n\nfn main() {\n    let r = add(1, 2);\n}\n";
    let d = a.diagnose(source, 1, None, &["add".to_string()]).unwrap();
    assert_eq!(d.error_function, "add");
    assert_eq!(d.function_signature, "fn add(a: i32, b: i32) -> i32 {");
    assert_eq!(d.error_line, 1);
    assert!(!d.slim_nodes[0].id.is_empty());
    assert!(a.diagnose(source, 40, Some(1), &[]).is_err());
}

#[test]
fn call_graph_queries() {
    let mut g = CallGraph::new();
    g.add_edge(CallEdge { caller: "main".to_string(), callee: "add".to_string(), line_number: 3 });
    g.add_edge(CallEdge { caller: "main".to_string(), callee: "log".to_string(), line_number: 4 });
    g.add_edge(CallEdge { caller: "add".to_string(), callee: "log".to_string(), line_number: 9 });
    assert_eq!(g.find_callers("log"), vec!["main".to_string(), "add".to_string()]);
    assert_eq!(g.find_dependencies("main"), vec!["add".to_string(), "log".to_string()]);
    assert!(g.find_callers("main").is_empty());

    g.add_node(structure("add", 7));
    g.add_node(structure("add", 8));
    assert_eq!(g.nodes.len(), 1);
    assert_eq!(g.get_node("add").unwrap().line_number, 8);
    assert!(g.get_node("missing").is_none());
}

#[test]
fn analyzers_are_made_for_both_languages() {
    assert_eq!(ASTAnalyzer::new(LanguageKind::Rust).unwrap().language(), LanguageKind::Rust);
    assert_eq!(ASTAnalyzer::new(LanguageKind::C).unwrap().language(), LanguageKind::C);
}

#[test]
fn diagnosing_an_empty_source_is_an_error() {
    let mut a = ASTAnalyzer::new(LanguageKind::Rust).unwrap();
    // The empty file's root covers line 1, column 1.
    match a.diagnose("", 1, Some(1), &[]) {
        Err(HephaestusError::InvalidInput(m)) => assert_eq!(m, "Source code is empty"),
        _ => panic!("expected an error"),
    }
    // Elsewhere nothing covers the position.
    match a.diagnose("", 3, Some(2), &[]) {
        Err(HephaestusError::InvalidInput(m)) => {
            assert_eq!(m, "No AST node found at line 3, column Some(2)")
        }
        _ => panic!("expected an error"),
    }
}

#[test]
fn diagnose_reads_the_given_source() {
    let mut a = ASTAnalyzer::new(LanguageKind::C).unwrap();
    let source = "int add(int a, int b) {\n    return a + b;\n}\n";
    let d = a.diagnose(source, 2, Some(5), &[]).unwrap();
    assert_eq!(d.error_line, 2);
    assert_eq!(d.repair_context, "int add(int a, int b) {\n    return a + b;\n}");
    let d1 = a.diagnose(source, 1, None, &[]).unwrap();
    assert_eq!(d1.error_function, "add");
    assert_eq!(d1.function_signature, "int add(int a, int b) {");
}
