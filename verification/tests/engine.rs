use trace_graph::engine::{BoundaryDirection, GraphEngine};
use trace_graph::model::{EdgeKind, NodeKind, WalkEntry};
use trace_graph::pipeline::build_index_store;
use trace_graph::resolve::SourceFile;
use trace_graph::walk::collect_walk_entries;

fn engine_of(files: &[(&str, &str)]) -> GraphEngine {
    let raw: Vec<WalkEntry> = files
        .iter()
        .map(|(p, s)| WalkEntry { relative_path: p.to_string(), is_dir: false, size_bytes: Some(s.len() as u64) })
        .collect();
    let entries = collect_walk_entries(&raw);
    let sources: Vec<SourceFile> = entries
        .iter()
        .filter(|e| !e.is_dir)
        .map(|e| SourceFile {
            relative_path: e.relative_path.clone(),
            source: files.iter().find(|(p, _)| *p == e.relative_path).unwrap().1.to_string(),
        })
        .collect();
    let store = build_index_store(&entries, &sources).ok().expect("index");
    GraphEngine::from_store(store)
}

fn engine() -> GraphEngine {
    engine_of(&[
        ("main.py", "from utils import format_message\n\n\ndef greet(name: str) -> str:\n    return format_message(name)\n"),
        ("utils.py", "def format_message(name: str) -> str:\n    return \"Hello, \" + name\n"),
    ])
}

#[test]
fn search_finds_greet() {
    let engine = engine();
    let hits = engine.search("greet", 10).ok().expect("search");
    assert!(hits.iter().any(|n| n.name == "greet"));
}

#[test]
fn callees_of_greet() {
    let engine = engine();
    let greet_id = "sym:main.py:function:greet:4";
    let callees = engine.callees(greet_id).ok().expect("callees");
    assert_eq!(callees.len(), 1);
    assert_eq!(callees[0].node.name, "format_message");
    assert_eq!(callees[0].edge.kind, EdgeKind::Calls);
}

#[test]
fn callers_of_format_message() {
    let engine = engine();
    let target = "sym:utils.py:function:format_message:1";
    let callers = engine.callers(target).ok().expect("callers");
    assert_eq!(callers.len(), 1);
    assert_eq!(callers[0].node.name, "greet");
}

#[test]
fn impact_includes_greet() {
    let engine = engine();
    let target = "sym:utils.py:function:format_message:1";
    let impact = engine.impact(target, 2).ok().expect("impact");
    assert!(impact.iter().any(|n| n.name == "greet"));
}

#[test]
fn trace_follows_call_chain() {
    let engine = engine();
    let root = "sym:main.py:function:greet:4";
    let trace = engine.trace(root, 5).ok().expect("trace");
    assert!(trace.hops.len() >= 2);
    assert_eq!(trace.hops[0].node.name, "greet");
    assert_eq!(trace.hops[1].node.name, "format_message");
}

#[test]
fn entry_points_include_greet() {
    let engine = engine();
    let roots = engine.entry_points().ok().expect("entry_points");
    assert!(roots.iter().any(|n| n.name == "greet"));
}

#[test]
fn subgraph_utils_has_boundary_ghost() {
    let engine = engine();
    let sub = engine.subgraph("utils.py", true).ok().expect("subgraph");
    assert!(sub.nodes.iter().all(|n| n.relative_path == "utils.py" || n.parent_file.as_deref() == Some("utils.py")));
    assert!(sub.ghosts.iter().any(|g| g.direction == BoundaryDirection::Ingress && g.name == "greet"));
}

#[test]
fn search_respects_limit() {
    let engine = engine();
    let hits = engine.search("py", 1).ok().expect("search");
    assert_eq!(hits.len(), 1);
}

#[test]
fn unknown_node_is_not_found() {
    let engine = engine();
    assert!(engine.callers("sym:nowhere.py:function:x:1").is_err());
    assert!(engine.trace("nope", 3).is_err());
}

#[test]
fn impact_excludes_the_target_itself() {
    let engine = engine();
    let target = "sym:utils.py:function:format_message:1";
    let impact = engine.impact(target, 3).ok().expect("impact");
    assert!(impact.iter().all(|n| n.id != target));
}

fn python_branches() -> GraphEngine {
    engine_of(&[(
        "service.py",
        "def on_ok():\n    return 1\n\n\ndef on_denied():\n    return 0\n\n\ndef handle(permitted):\n    if permitted:\n        return on_ok()\n    else:\n        return on_denied()\n",
    )])
}

#[test]
fn trace_from_function_through_branch_to_outcomes() {
    let engine = python_branches();
    let handle = engine
        .store()
        .list_nodes()
        .into_iter()
        .find(|n| n.kind == NodeKind::Function && n.name == "handle")
        .expect("handle function");
    let branches_to: Vec<_> = engine.store().list_edges().into_iter().filter(|e| e.kind == EdgeKind::BranchesTo).collect();
    assert!(branches_to.iter().any(|e| e.from_id == handle.id), "handle should BRANCHES_TO a decision node");

    let trace = engine.trace(&handle.id, 5).ok().expect("trace");
    let hop_kinds: Vec<_> = trace.hops.iter().map(|h| h.node.kind).collect();
    assert!(hop_kinds.contains(&NodeKind::Branch), "trace should include branch decision nodes");
    let outcome_names: Vec<String> = trace
        .hops
        .iter()
        .flat_map(|h| std::iter::once(h.node.name.clone()).chain(h.siblings.iter().map(|s| s.name.clone())))
        .collect();
    assert!(outcome_names.iter().any(|n| n == "on_ok"));
    assert!(outcome_names.iter().any(|n| n == "on_denied"));
    let edges = engine.store().list_edges();
    assert!(edges.iter().any(|e| e.kind == EdgeKind::BranchesTo));
}

#[test]
fn python_branches_extracts_decision_nodes() {
    let engine = python_branches();
    let branches: Vec<_> = engine.store().list_nodes().into_iter().filter(|n| n.kind == NodeKind::Branch).collect();
    assert!(!branches.is_empty(), "expected branch nodes");
    assert!(branches.iter().any(|b| b.name == "if permitted" && b.line == Some(10)));
    let branches_to: Vec<_> = engine.store().list_edges().into_iter().filter(|e| e.kind == EdgeKind::BranchesTo).collect();
    assert!(!branches_to.is_empty(), "expected BRANCHES_TO edges");
}

#[test]
fn flutter_trace_links_on_pressed_to_api() {
    let engine = engine_of(&[
        (
            "app/lib/main.dart",
            "Widget build(BuildContext context) {\n  return ElevatedButton(\n    onPressed: placeCall,\n    child: Text('Call'),\n  );\n}\n\nFuture<void> placeCall() async {\n  await http.post(Uri.parse('/api/calls'));\n}\n",
        ),
        (
            "api/main.py",
            "from fastapi import FastAPI\n\napp = FastAPI()\n\n\n@app.post(\"/api/calls\")\ndef create_call():\n    return {}\n",
        ),
    ]);
    let nodes = engine.store().list_nodes();
    let ui = nodes.iter().find(|n| n.kind == NodeKind::UiElement).expect("flutter ui element");
    assert!(ui.name.contains("onPressed"), "{}", ui.name);
    let edges = engine.store().list_edges();
    assert!(edges.iter().any(|e| e.kind == EdgeKind::Triggers));
    assert!(edges.iter().any(|e| e.kind == EdgeKind::Fetches));
    assert!(edges.iter().any(|e| e.kind == EdgeKind::Handles));
}

#[test]
fn trace_from_flutter_button_reaches_api_handler() {
    let engine = engine_of(&[
        (
            "app/lib/main.dart",
            "Widget build(BuildContext context) {\n  return ElevatedButton(\n    onPressed: placeCall,\n    child: Text('Call'),\n  );\n}\n\nFuture<void> placeCall() async {\n  await http.post(Uri.parse('/api/calls'));\n}\n",
        ),
        (
            "api/main.py",
            "from fastapi import FastAPI\n\napp = FastAPI()\n\n\n@app.post(\"/api/calls\")\ndef create_call():\n    return {}\n",
        ),
    ]);
    let ui = engine.store().list_nodes().into_iter().find(|n| n.kind == NodeKind::UiElement).expect("ui element");
    let trace = engine.trace(&ui.id, 6).ok().expect("trace");
    let names: Vec<String> = trace.hops.iter().map(|h| h.node.name.clone()).collect();
    assert!(names.iter().any(|n| n.contains("onPressed")), "{names:?}");
    assert!(names.iter().any(|n| n == "placeCall"), "{names:?}");
    let edges = engine.store().list_edges();
    assert!(edges.iter().any(|e| e.kind == EdgeKind::Fetches));
    assert!(edges.iter().any(|e| e.kind == EdgeKind::Handles));
}

#[test]
fn react_fastapi_trace_links_ui_to_api() {
    let engine = engine_of(&[
        (
            "web/App.tsx",
            "export function placeCall() {\n  return fetch('/api/calls', { method: 'POST' });\n}\n\nexport function App() {\n  return <button onClick={placeCall}>Call</button>;\n}\n",
        ),
        (
            "api/main.py",
            "from fastapi import FastAPI\n\napp = FastAPI()\n\n\n@app.post(\"/api/calls\")\ndef create_call():\n    return {}\n",
        ),
    ]);
    let edges = engine.store().list_edges();
    assert!(edges.iter().any(|e| e.kind == EdgeKind::Triggers), "expected UI TRIGGERS edge");
    assert!(edges.iter().any(|e| e.kind == EdgeKind::Fetches), "expected cross-layer FETCHES edge");
    assert!(edges.iter().any(|e| e.kind == EdgeKind::Handles), "expected route HANDLES edge");
    let fetch = edges.iter().find(|e| e.kind == EdgeKind::Fetches).unwrap();
    assert_eq!(fetch.to_id, "sym:api/main.py:route:POST /api/calls:6");
    assert_eq!(fetch.confidence_milli, Some(820));
}

#[test]
fn express_routes_handles_handlers() {
    let engine = engine_of(&[(
        "server.js",
        "const app = express();\n\nfunction listUsers(req, res) {\n  res.send([]);\n}\n\napp.get('/users', listUsers);\n",
    )]);
    let edges = engine.store().list_edges();
    assert!(
        edges.iter().any(|e| e.kind == EdgeKind::Handles && e.from_id == "sym:server.js:route:GET /users:7"),
        "expected HANDLES edge for app.get"
    );
}

#[test]
fn gin_routes_handles_handlers() {
    let engine = engine_of(&[(
        "main.go",
        "package main\n\nfunc listUsers(c *gin.Context) {\n}\n\nfunc main() {\n\tr := gin.Default()\n\tr.GET(\"/users\", listUsers)\n}\n",
    )]);
    let edges = engine.store().list_edges();
    assert!(
        edges.iter().any(|e| e.kind == EdgeKind::Handles && e.confidence_milli == Some(880)),
        "expected Gin HANDLES edge"
    );
}

#[test]
fn java_spring_handles_get_mapping() {
    let engine = engine_of(&[(
        "src/UserController.java",
        "public class UserController {\n    @GetMapping(\"/users\")\n    public List<User> listUsers() {\n        return null;\n    }\n}\n",
    )]);
    let edges = engine.store().list_edges();
    assert!(edges.iter().any(|e| e.kind == EdgeKind::Handles), "expected Spring HANDLES edge");
    let caps = engine.capabilities().ok().expect("capabilities");
    let java = caps.languages.iter().find(|l| l.id == "java").expect("java");
    assert_eq!(java.tier, trace_graph::model::Tier::L3);
}
