use trace_graph::engine::Subgraph;
use trace_graph::json::{JsonNumber, JsonValue};
use trace_graph::model::{EdgeKind, GraphEdge, GraphNode, NodeKind, WalkEntry};
use trace_graph::otel::{is_otel_payload, normalize_repo_path, otel_json_to_overlay, parse_u32_exec, OtelImportError};
use trace_graph::overlay::{attach_overlay, find_edge_key, ObservedPath, RuntimeOverlay};
use trace_graph::pipeline::build_index_store;
use trace_graph::resolve::SourceFile;
use trace_graph::store::GraphStore;
use trace_graph::walk::collect_walk_entries;
use trace_graph::engine::GraphEngine;
use trace_graph::server::{dispatch_on_active, overlay_status, QueryOp, QueryRequest, QueryResponse};

fn node(id: &str, file: &str) -> GraphNode {
    GraphNode {
        id: id.into(),
        kind: NodeKind::Function,
        name: id.into(),
        relative_path: file.into(),
        parent_file: Some(file.into()),
        line: Some(1),
        extension: None,
        language_id: "python".into(),
        size_bytes: None,
    }
}

fn edge(id: &str, from: &str, to: &str) -> GraphEdge {
    GraphEdge { id: id.into(), from_id: from.into(), to_id: to.into(), kind: EdgeKind::Calls, confidence_milli: Some(900) }
}

#[test]
fn attach_overlay_marks_path_nodes_and_edges() {
    let subgraph = Subgraph { nodes: vec![node("a", "a.py"), node("b", "b.py")], edges: vec![edge("e1", "a", "b")], ghosts: vec![], overlay: None };
    let overlay = RuntimeOverlay {
        schema_version: 1,
        node_hits: vec![("a".to_string(), 10)],
        paths: vec![ObservedPath { label: Some("hot".into()), node_ids: vec!["a".into(), "b".into()], hits: 10 }],
    };
    let merged = attach_overlay(subgraph, &overlay);
    let meta = merged.overlay.expect("overlay");
    assert!(meta.observed_node_ids.contains(&"a".to_string()));
    assert!(meta.observed_node_ids.contains(&"b".to_string()));
    assert_eq!(meta.observed_edge_keys, vec!["e1"]);
    assert_eq!(meta.node_hits.iter().find(|(k, _)| k == "a").map(|(_, v)| *v), Some(10));
}

#[test]
fn attach_overlay_raises_hits_along_paths_and_sorts_ids() {
    let subgraph = Subgraph { nodes: vec![], edges: vec![edge("e2", "c", "b")], ghosts: vec![], overlay: None };
    let overlay = RuntimeOverlay {
        schema_version: 1,
        node_hits: vec![("c".to_string(), 2), ("b".to_string(), 7)],
        paths: vec![
            ObservedPath { label: None, node_ids: vec!["b".into(), "c".into(), "b".into()], hits: 5 },
            ObservedPath { label: None, node_ids: vec!["z".into()], hits: 0 },
        ],
    };
    let merged = attach_overlay(subgraph, &overlay);
    let meta = merged.overlay.expect("overlay");
    assert_eq!(meta.observed_node_ids, vec!["b", "c", "z"]);
    // the edge is found in the reverse direction, and once only
    assert_eq!(meta.observed_edge_keys, vec!["e2"]);
    let hits = |k: &str| meta.node_hits.iter().find(|(id, _)| id == k).map(|(_, v)| *v);
    assert_eq!(hits("c"), Some(5));
    assert_eq!(hits("b"), Some(7));
    assert_eq!(hits("z"), None);
    assert_eq!(meta.paths.len(), 2);
    assert_eq!(merged.edges.len(), 1);
}

#[test]
fn edge_key_prefers_forward_direction() {
    let edges = vec![edge("back", "y", "x"), edge("fwd", "x", "y")];
    assert_eq!(find_edge_key(&edges, "x", "y").as_deref(), Some("fwd"));
    assert_eq!(find_edge_key(&edges, "y", "x").as_deref(), Some("back"));
    assert_eq!(find_edge_key(&edges, "x", "z"), None);
}

fn s(t: &str) -> JsonValue {
    JsonValue::String(t.to_string())
}

fn obj(members: Vec<(&str, JsonValue)>) -> JsonValue {
    JsonValue::Object(members.into_iter().map(|(k, v)| (k.to_string(), v)).collect(), String::new())
}

fn arr(items: Vec<JsonValue>) -> JsonValue {
    JsonValue::Array(items, String::new())
}

fn attr(key: &str, value: JsonValue) -> JsonValue {
    obj(vec![("key", s(key)), ("value", value)])
}

fn python_simple_store() -> GraphStore {
    let files = [
        ("main.py", "from utils import format_message\n\n\ndef greet(name: str) -> str:\n    return format_message(name)\n"),
        ("utils.py", "def format_message(name: str) -> str:\n    return \"Hello, \" + name\n"),
    ];
    let raw: Vec<WalkEntry> = files
        .iter()
        .map(|(p, s)| WalkEntry { relative_path: p.to_string(), is_dir: false, size_bytes: Some(s.len() as u64) })
        .collect();
    let entries = collect_walk_entries(&raw);
    let sources: Vec<SourceFile> = files.iter().map(|(p, s)| SourceFile { relative_path: p.to_string(), source: s.to_string() }).collect();
    build_index_store(&entries, &sources).ok().expect("index")
}

#[test]
fn otel_export_maps_to_python_simple_symbols() {
    let store = python_simple_store();
    let span1 = obj(vec![
        ("traceId", s("t1")),
        ("name", s("greet")),
        ("attributes", arr(vec![attr("code.function", obj(vec![("stringValue", s("greet"))])), attr("code.filepath", obj(vec![("stringValue", s("/main.py"))]))])),
    ]);
    let span2 = obj(vec![
        ("traceId", s("t1")),
        ("name", s("format_message")),
        ("attributes", arr(vec![
            attr("code.filepath", obj(vec![("stringValue", s("./utils.py"))])),
            attr("code.line.number", obj(vec![("intValue", JsonValue::Number(JsonNumber::PosInt(2)))])),
        ])),
    ]);
    let json = obj(vec![(
        "resourceSpans",
        arr(vec![obj(vec![("scopeSpans", arr(vec![obj(vec![("spans", arr(vec![span1, span2]))])]))])]),
    )]);
    assert!(is_otel_payload(&json));
    let overlay = otel_json_to_overlay(&json, &store).ok().expect("import");
    assert!(overlay.node_hits.len() >= 2);
    assert!(!overlay.paths.is_empty());
    assert_eq!(overlay.paths[0].label.as_deref(), Some("trace:t1"));
    assert_eq!(overlay.paths[0].node_ids, vec!["sym:main.py:function:greet:4", "sym:utils.py:function:format_message:1"]);
}

#[test]
fn otel_flat_spans_fall_back_to_names_and_default_trace() {
    let store = python_simple_store();
    let json = obj(vec![("spans", arr(vec![obj(vec![("name", s("greet"))]), obj(vec![("name", s("greet"))]), obj(vec![("name", s("missing"))])]))]);
    let overlay = otel_json_to_overlay(&json, &store).ok().expect("import");
    assert_eq!(overlay.node_hits, vec![("sym:main.py:function:greet:4".to_string(), 2)]);
    assert_eq!(overlay.paths.len(), 1);
    assert_eq!(overlay.paths[0].label.as_deref(), Some("trace:default"));
    assert_eq!(overlay.paths[0].hits, 1);
}

#[test]
fn otel_without_spans_is_an_error() {
    let store = python_simple_store();
    let json = obj(vec![("resourceSpans", arr(vec![]))]);
    assert!(is_otel_payload(&json));
    match otel_json_to_overlay(&json, &store) {
        Err(OtelImportError::NoSpans) => {}
        _ => panic!("expected NoSpans"),
    }
    assert_eq!(OtelImportError::NoSpans.message(), "no spans found in OpenTelemetry payload");
}

#[test]
fn native_overlay_is_not_otel() {
    let native = obj(vec![("nodeHits", obj(vec![])), ("spans", arr(vec![]))]);
    assert!(!is_otel_payload(&native));
}

#[test]
fn repo_paths_are_normalized() {
    assert_eq!(normalize_repo_path("/./src/app.py"), "src/app.py");
    assert_eq!(normalize_repo_path("///a\\b.py"), "a/b.py");
    assert_eq!(normalize_repo_path("././x"), "x");
    assert_eq!(normalize_repo_path(".hidden/./y"), ".hidden/./y");
}

#[test]
fn line_numbers_parse_like_str_parse() {
    assert_eq!(parse_u32_exec("42"), Some(42));
    assert_eq!(parse_u32_exec("+7"), Some(7));
    assert_eq!(parse_u32_exec("4294967295"), Some(4294967295));
    assert_eq!(parse_u32_exec("4294967296"), None);
    assert_eq!(parse_u32_exec("-1"), None);
    assert_eq!(parse_u32_exec("+"), None);
    assert_eq!(parse_u32_exec(""), None);
    assert_eq!(parse_u32_exec("12a"), None);
}

#[test]
fn post_overlay_enriches_subgraph() {
    let engine = GraphEngine::from_store(python_simple_store());
    let observed = RuntimeOverlay {
        schema_version: 1,
        node_hits: vec![("sym:main.py:function:greet:4".into(), 3), ("sym:utils.py:function:format_message:1".into(), 3)],
        paths: vec![ObservedPath {
            label: Some("greet".into()),
            node_ids: vec!["sym:main.py:function:greet:4".into(), "sym:utils.py:function:format_message:1".into()],
            hits: 3,
        }],
    };
    assert!(observed.has_distinct_hits());
    assert_eq!(overlay_status(&observed).status, "ok");
    let req = QueryRequest { op: QueryOp::Subgraph, id: None, query: None, limit: None, depth: None, scope: Some(".".into()), boundary: Some(false) };
    match dispatch_on_active(Some(&engine), Some(&observed), req) {
        Ok(QueryResponse::Subgraph(sub)) => {
            let overlay = sub.overlay.expect("overlay");
            assert!(overlay.observed_node_ids.len() >= 2);
        }
        _ => panic!("expected a subgraph"),
    }
}

#[test]
fn post_otel_overlay_auto_detected() {
    let store = python_simple_store();
    let span = |name: &str| obj(vec![("traceId", s("t1")), ("name", s(name))]);
    let json = obj(vec![(
        "resourceSpans",
        arr(vec![obj(vec![("scopeSpans", arr(vec![obj(vec![("spans", arr(vec![span("greet"), span("format_message")]))])]))])]),
    )]);
    assert!(is_otel_payload(&json));
    let overlay = otel_json_to_overlay(&json, &store).ok().expect("import");
    let body = overlay_status(&overlay);
    assert_eq!(body.status, "ok");
    assert!(body.node_hit_count >= 2);
}
