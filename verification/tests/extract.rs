use trace_graph::extract::extract_file;
use trace_graph::model::NodeKind;

#[test]
fn extracts_typescript_export_functions() {
    let source = "export function handle() {}\nfunction respond() {}";
    let symbols = extract_file("typescript", source, "service.ts");
    assert!(symbols.iter().any(|s| s.name == "handle"), "symbols: {}", symbols.len());
    assert!(symbols.iter().any(|s| s.name == "respond"), "symbols: {}", symbols.len());
}

#[test]
fn extracts_php_functions() {
    let source = r#"<?php
function greet($name) {
    return format_message($name);
}
"#;
    let symbols = extract_file("php", source, "index.php");
    assert!(symbols.iter().any(|s| s.name == "greet"), "symbols: {}", symbols.len());
}

#[test]
fn extracts_swift_functions() {
    let source = r#"func greet(_ name: String) -> String {
    return formatMessage(name)
}
"#;
    let symbols = extract_file("swift", source, "main.swift");
    assert!(symbols.iter().any(|s| s.name == "greet"), "symbols: {}", symbols.len());
}

#[test]
fn extracts_python_functions_and_imports() {
    let source = r#"from utils import format_message

def greet(name: str) -> str:
    return format_message(name)
"#;
    let symbols = extract_file("python", source, "main.py");
    let kinds: Vec<_> = symbols.iter().map(|s| (s.kind, s.name.as_str())).collect();
    assert!(kinds.iter().any(|(k, n)| *k == NodeKind::Function && *n == "greet"));
    assert!(kinds.iter().any(|(k, _)| *k == NodeKind::Import));
}

#[test]
fn extracted_python_symbols_carry_lines_and_language() {
    let source = "import os\n\n\ndef greet():\n    pass\n";
    let symbols = extract_file("python", source, "main.py");
    let greet = symbols.iter().find(|s| s.name == "greet").expect("greet");
    assert_eq!(greet.line, 4);
    assert_eq!(greet.language_id, "python");
    assert_eq!(greet.parent_file, "main.py");
}

#[test]
fn extracts_dart_functions_without_keywords() {
    let source = "void main() {\n  if (ok) {\n  }\n}\nString greet(String name) {\n  return name;\n}\n";
    let symbols = extract_file("dart", source, "lib/main.dart");
    let names: Vec<&str> = symbols.iter().map(|s| s.name.as_str()).collect();
    assert!(names.contains(&"main"), "{names:?}");
    assert!(names.contains(&"greet"), "{names:?}");
    assert!(!names.contains(&"if"), "{names:?}");
    let greet = symbols.iter().find(|s| s.name == "greet").unwrap();
    assert_eq!(greet.line, 5);
}

#[test]
fn unknown_language_extracts_nothing() {
    assert!(extract_file("unknown", "def f(): pass", "a.xyz").is_empty());
}
