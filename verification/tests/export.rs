use trace_graph::json::{JsonNumber, JsonValue};
use trace_graph::export::{confidence_string, quoted_string};
use trace_graph::model::{EdgeKind, GraphEdge, GraphNode, NodeKind, WalkEntry};
use trace_graph::pipeline::{export_graph_json, fixture_path};
use trace_graph::resolve::SourceFile;
use trace_graph::store::GraphStore;
use trace_graph::walk::collect_walk_entries;

fn node(id: &str, name: &str) -> GraphNode {
    GraphNode {
        id: id.to_string(),
        kind: NodeKind::Function,
        name: name.to_string(),
        relative_path: "a.py".to_string(),
        parent_file: Some("a.py".to_string()),
        line: Some(3),
        extension: None,
        language_id: "python".to_string(),
        size_bytes: None,
    }
}

#[test]
fn exported_json_is_indented_with_absent_values_left_out() {
    let store = GraphStore::from_rows(
        vec![node("n1", "f")],
        vec![GraphEdge {
            id: "e1".to_string(),
            from_id: "n1".to_string(),
            to_id: "n1".to_string(),
            kind: EdgeKind::Calls,
            confidence_milli: Some(910),
        }],
    );
    let json = store.export_graph_json().ok().expect("export");
    let expected = "{\n  \"schemaVersion\": 1,\n  \"nodes\": [\n    {\n      \"id\": \"n1\",\n      \"kind\": \"function\",\n      \"name\": \"f\",\n      \"path\": \"a.py\",\n      \"parent_file\": \"a.py\",\n      \"line\": 3,\n      \"language\": \"python\"\n    }\n  ],\n  \"edges\": [\n    {\n      \"from\": \"n1\",\n      \"to\": \"n1\",\n      \"kind\": \"CALLS\",\n      \"confidence\": 0.91\n    }\n  ]\n}";
    assert_eq!(json, expected);
}

#[test]
fn exported_json_of_an_empty_store_has_empty_lists() {
    let store = GraphStore::from_rows(Vec::new(), Vec::new());
    let json = store.export_graph_json().ok().expect("export");
    assert_eq!(json, "{\n  \"schemaVersion\": 1,\n  \"nodes\": [],\n  \"edges\": []\n}");
}

#[test]
fn exported_json_reads_back_as_json() {
    let files = [("main.py", "def greet():\n    return helper()\n\n\ndef helper():\n    return \"hi\"\n")];
    let raw: Vec<WalkEntry> = files
        .iter()
        .map(|(p, s)| WalkEntry { relative_path: p.to_string(), is_dir: false, size_bytes: Some(s.len() as u64) })
        .collect();
    let entries = collect_walk_entries(&raw);
    let sources: Vec<SourceFile> =
        files.iter().map(|(p, s)| SourceFile { relative_path: p.to_string(), source: s.to_string() }).collect();
    let json = export_graph_json(&entries, &sources).ok().expect("export");
    let value: serde_json::Value = serde_json::from_str(&json).expect("valid json");
    assert_eq!(value["schemaVersion"], 1);
    let nodes = value["nodes"].as_array().expect("nodes");
    assert!(nodes.iter().any(|n| n["name"] == "greet" && n["kind"] == "function"));
    let edges = value["edges"].as_array().expect("edges");
    assert!(edges.iter().any(|e| e["kind"] == "CALLS"));
}

#[test]
fn strings_are_escaped_as_serde_json_escapes_them() {
    for s in ["plain", "quote \" and \\ backslash", "line\nbreak\ttab\r", "\u{1}\u{8}\u{c}\u{1f}", "ünïcode ✓ /"] {
        assert_eq!(quoted_string(s), serde_json::to_string(s).unwrap());
    }
}

#[test]
fn confidences_are_written_as_the_shortest_single_precision_decimal() {
    for m in 0u16..=3000 {
        let f = m as f32 / 1000.0;
        assert_eq!(confidence_string(m), serde_json::to_string(&f).unwrap(), "milli {m}");
    }
    assert_eq!(confidence_string(65535), "65.535");
    assert_eq!(confidence_string(1000), "1.0");
    assert_eq!(confidence_string(800), "0.8");
    assert_eq!(confidence_string(5), "0.005");
}

#[test]
fn fixture_path_is_below_the_workspace_fixtures() {
    assert_eq!(fixture_path("/w/crates/graph-indexer", "python_simple"), "/w/crates/graph-indexer/../../fixtures/python_simple");
    assert_eq!(fixture_path("/w/x/", "y"), "/w/x/../../fixtures/y");
}

#[test]
fn set_l2_languages_leaves_the_store_as_it_is() {
    let store = GraphStore::from_rows(vec![node("n1", "f")], Vec::new());
    let mut langs = std::collections::HashSet::new();
    langs.insert("python".to_string());
    assert!(store.set_l2_languages(langs).is_ok());
    assert_eq!(store.all_nodes().len(), 1);
}

fn to_jv(v: &serde_json::Value) -> JsonValue {
    match v {
        serde_json::Value::Null => JsonValue::Null,
        serde_json::Value::Bool(b) => JsonValue::Bool(*b),
        serde_json::Value::Number(n) => JsonValue::Number(match (n.as_u64(), n.as_i64()) {
            (Some(u), _) => JsonNumber::PosInt(u),
            (None, Some(i)) => JsonNumber::NegInt(i),
            (None, None) => JsonNumber::Float(n.to_string()),
        }),
        serde_json::Value::String(s) => JsonValue::String(s.clone()),
        serde_json::Value::Array(items) => JsonValue::Array(items.iter().map(to_jv).collect(), v.to_string()),
        serde_json::Value::Object(map) => {
            JsonValue::Object(map.iter().map(|(k, x)| (k.clone(), to_jv(x))).collect(), v.to_string())
        }
    }
}

fn parsed(text: &str) -> JsonValue {
    to_jv(&serde_json::from_str(text).unwrap())
}

#[test]
fn graphs_compare_regardless_of_order() {
    let a = parsed(r#"{"schemaVersion":1,"nodes":[{"id":"b","kind":"file"},{"id":"a","kind":"file"}],"edges":[{"from":"a","to":"b","kind":"CONTAINS"},{"from":"a","to":"a","kind":"CALLS","confidence":0.9}]}"#);
    let b = parsed(r#"{"schema_version":1,"nodes":[{"kind":"file","id":"a"},{"id":"b","kind":"file"}],"edges":[{"from":"a","to":"a","kind":"CALLS","confidence":0.9},{"from":"a","to":"b","kind":"CONTAINS"}]}"#);
    assert!(trace_graph::export::graphs_equal(&a, &b));
    let c = parsed(r#"{"schemaVersion":1,"nodes":[{"id":"a","kind":"file"},{"id":"b","kind":"file"}],"edges":[{"from":"a","to":"a","kind":"CALLS","confidence":0.8},{"from":"a","to":"b","kind":"CONTAINS"}]}"#);
    assert!(!trace_graph::export::graphs_equal(&a, &c));
    let d = parsed(r#"{"schemaVersion":2,"nodes":[],"edges":[]}"#);
    let e = parsed(r#"{"schemaVersion":1,"nodes":[],"edges":[]}"#);
    assert!(!trace_graph::export::graphs_equal(&d, &e));
    assert!(trace_graph::export::graphs_equal(&e, &parsed(r#"{"schemaVersion":1}"#)));
}

#[test]
fn graphs_with_repeated_ids_compare_regardless_of_order() {
    let a = parsed(r#"{"schemaVersion":1,"nodes":[{"id":"x","name":"one"},{"id":"x","name":"two"}],"edges":[]}"#);
    let b = parsed(r#"{"schemaVersion":1,"nodes":[{"id":"x","name":"two"},{"id":"x","name":"one"}],"edges":[]}"#);
    assert!(trace_graph::export::graphs_equal(&a, &b));
    assert!(trace_graph::export::graphs_equal(&b, &a));
    assert!(trace_graph::export::graphs_equal(&a, &a));
    let c = parsed(r#"{"schemaVersion":1,"nodes":[{"id":"x","name":"one"},{"id":"x","name":"one"}],"edges":[]}"#);
    assert!(!trace_graph::export::graphs_equal(&a, &c));
}
