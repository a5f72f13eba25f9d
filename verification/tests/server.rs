use trace_graph::engine::GraphEngine;
use trace_graph::hosted::{default_repo_id, repo_db_path, sanitize_repo_id, HostedRegistry, HostedRepoRecord, HostedStore};
use trace_graph::json::{JsonNumber, JsonValue};
use trace_graph::mcp::{call_mcp_tool, get_optional_usize, get_string, mcp_tool_names, tool_to_query, McpToolError};
use trace_graph::model::WalkEntry;
use trace_graph::overlay::{ObservedPath, RuntimeOverlay};
use trace_graph::pipeline::build_index_store;
use trace_graph::resolve::SourceFile;
use trace_graph::server::{dispatch_on_active, dispatch_query_on_engine, overlay_status, required_id, ApiError, IndexJob,
    IndexRequest, JobStatus, QueryOp, QueryRequest, QueryResponse};
use trace_graph::walk::collect_walk_entries;
use trace_graph::mcp::{call_tool_on_state, call_tool_request, mcp_method, unsupported_method, McpMethod};
use trace_graph::server::{check_active_repo, health_response, index_repo_id, persist_without_registry,
    require_active, require_registry, uses_hosted_registry};

fn engine() -> GraphEngine {
    let files = [
        ("main.py", "from utils import format_message\n\n\ndef greet(name: str) -> str:\n    return format_message(name)\n"),
        ("utils.py", "def format_message(name: str) -> str:\n    return \"Hello, \" + name\n"),
    ];
    let raw: Vec<WalkEntry> = files
        .iter()
        .map(|(p, s)| WalkEntry { relative_path: p.to_string(), is_dir: false, size_bytes: Some(s.len() as u64) })
        .collect();
    let entries = collect_walk_entries(&raw);
    let sources: Vec<SourceFile> = files.iter().map(|(p, s)| SourceFile { relative_path: p.to_string(), source: s.to_string() }).collect();
    GraphEngine::from_store(build_index_store(&entries, &sources).ok().expect("index"))
}

fn request(op: QueryOp) -> QueryRequest {
    QueryRequest { op, id: None, query: None, limit: None, depth: None, scope: None, boundary: None }
}

fn obj(members: Vec<(&str, JsonValue)>) -> JsonValue {
    JsonValue::Object(members.into_iter().map(|(k, v)| (k.to_string(), v)).collect(), String::new())
}

#[test]
fn post_query_callers_matches_schema() {
    let engine = engine();
    let mut req = request(QueryOp::Callers);
    req.id = Some("sym:utils.py:function:format_message:1".into());
    match dispatch_query_on_engine(&engine, req) {
        Ok(QueryResponse::Neighbors { neighbors }) => {
            assert_eq!(neighbors.len(), 1);
            assert_eq!(neighbors[0].node.name, "greet");
        }
        _ => panic!("expected neighbors"),
    }
}

#[test]
fn post_query_search_matches_schema() {
    let engine = engine();
    let mut req = request(QueryOp::Search);
    req.query = Some("greet".into());
    req.limit = Some(5);
    match dispatch_query_on_engine(&engine, req) {
        Ok(QueryResponse::Nodes { nodes }) => assert!(nodes.iter().any(|n| n.name == "greet")),
        _ => panic!("expected nodes"),
    }
}

#[test]
fn post_query_trace_matches_schema() {
    let engine = engine();
    let mut req = request(QueryOp::Trace);
    req.id = Some("sym:main.py:function:greet:4".into());
    req.depth = Some(3);
    match dispatch_query_on_engine(&engine, req) {
        Ok(QueryResponse::Trace(t)) => assert_eq!(t.hops[0].node.name, "greet"),
        _ => panic!("expected trace"),
    }
}

#[test]
fn query_without_index_returns_conflict() {
    let mut req = request(QueryOp::Search);
    req.query = Some("greet".into());
    let err = match dispatch_on_active(None, None, req) {
        Err(e) => e,
        Ok(_) => panic!("expected an error"),
    };
    assert_eq!(err.status(), 409);
    let body = err.into_body();
    assert_eq!(body.code, "not_indexed");
    assert_eq!(body.error, "no repository indexed; POST /index first");
}

#[test]
fn queries_without_required_fields_are_bad_requests() {
    let engine = engine();
    match dispatch_query_on_engine(&engine, request(QueryOp::Search)) {
        Err(ApiError::BadRequest(m)) => assert_eq!(m, "search requires query"),
        _ => panic!("expected bad request"),
    }
    let mut req = request(QueryOp::Impact);
    req.id = Some(String::new());
    match dispatch_query_on_engine(&engine, req) {
        Err(ApiError::BadRequest(m)) => assert_eq!(m, "query requires id"),
        _ => panic!("expected bad request"),
    }
    match required_id(&request(QueryOp::Callers)) {
        Err(e) => assert_eq!(e.status(), 400),
        Ok(_) => panic!("expected bad request"),
    }
}

#[test]
fn unknown_node_maps_to_not_found() {
    let engine = engine();
    let mut req = request(QueryOp::Callees);
    req.id = Some("sym:x.py:function:nope:1".into());
    match dispatch_query_on_engine(&engine, req) {
        Err(ApiError::NotFound(id)) => assert_eq!(id, "sym:x.py:function:nope:1"),
        _ => panic!("expected not found"),
    }
}

#[test]
fn subgraph_query_gets_overlay() {
    let engine = engine();
    let overlay = RuntimeOverlay {
        schema_version: 1,
        node_hits: vec![("sym:utils.py:function:format_message:1".into(), 3)],
        paths: vec![ObservedPath { label: None, node_ids: vec![], hits: 0 }],
    };
    let mut req = request(QueryOp::Subgraph);
    req.scope = Some("utils.py".into());
    match dispatch_on_active(Some(&engine), Some(&overlay), req) {
        Ok(QueryResponse::Subgraph(g)) => {
            let o = g.overlay.expect("overlay");
            assert_eq!(o.observed_node_ids, vec!["sym:utils.py:function:format_message:1"]);
        }
        _ => panic!("expected subgraph"),
    }
    let status = overlay_status(&overlay);
    assert_eq!(status.status, "ok");
    assert_eq!(status.observation_count, 2);
    assert_eq!(status.node_hit_count, 1);
    assert_eq!(status.path_count, 1);
}

#[test]
fn api_errors_have_codes_and_statuses() {
    assert_eq!(ApiError::RepoMismatch.status(), 404);
    assert_eq!(ApiError::RepoMismatch.into_body().code, "repo_not_indexed");
    assert_eq!(ApiError::Internal("x".into()).status(), 500);
    assert_eq!(ApiError::Internal("x".into()).into_body().error, "x");
    assert_eq!(ApiError::NotFound("y".into()).into_body().code, "not_found");
}

#[test]
fn index_jobs_move_through_their_states() {
    let req = IndexRequest { path: "/r".into(), repo_id: None, git_url: None, git_ref: None, persist: Some(false) };
    let mut job = IndexJob::queued(req);
    assert!(job.status == JobStatus::Queued);
    job.start();
    assert_eq!(job.status.as_str(), "running");
    job.finish(Ok(12));
    let resp = job.status_response("j1");
    assert!(resp.status == JobStatus::Complete);
    assert_eq!(resp.file_count, Some(12));
    assert_eq!(resp.path.as_deref(), Some("/r"));
    let mut failed = IndexJob::queued(IndexRequest { path: "/q".into(), repo_id: None, git_url: None, git_ref: None, persist: None });
    failed.finish(Err("boom".into()));
    assert_eq!(failed.status.as_str(), "failed");
    assert_eq!(failed.error.as_deref(), Some("boom"));
}

#[test]
fn mcp_tools_are_listed() {
    assert_eq!(mcp_tool_names(), vec!["graph_callers", "graph_trace", "graph_search", "graph_entry_points", "graph_impact"]);
}

#[test]
fn mcp_graph_callers_matches_http() {
    let engine = engine();
    let args = obj(vec![("id", JsonValue::String("sym:utils.py:function:format_message:1".into()))]);
    let via_tool = match call_mcp_tool(&engine, "graph_callers", &args) {
        Ok(QueryResponse::Neighbors { neighbors }) => neighbors.iter().map(|n| n.node.id.clone()).collect::<Vec<_>>(),
        _ => panic!("mcp callers"),
    };
    let mut req = request(QueryOp::Callers);
    req.id = Some("sym:utils.py:function:format_message:1".into());
    let via_http = match dispatch_query_on_engine(&engine, req) {
        Ok(QueryResponse::Neighbors { neighbors }) => neighbors.iter().map(|n| n.node.id.clone()).collect::<Vec<_>>(),
        _ => panic!("callers"),
    };
    assert_eq!(via_tool, via_http);
}

#[test]
fn mcp_graph_search_matches_http() {
    let engine = engine();
    let args = obj(vec![("query", JsonValue::String("greet".into())), ("limit", JsonValue::Number(JsonNumber::PosInt(5)))]);
    let q = tool_to_query("graph_search", &args).ok().expect("query");
    assert!(q.op == QueryOp::Search);
    assert_eq!(q.limit, Some(5));
    let via_tool = match call_mcp_tool(&engine, "graph_search", &args) {
        Ok(QueryResponse::Nodes { nodes }) => nodes.iter().map(|n| n.id.clone()).collect::<Vec<_>>(),
        _ => panic!("mcp search"),
    };
    let mut req = request(QueryOp::Search);
    req.query = Some("greet".into());
    req.limit = Some(5);
    let via_http = match dispatch_query_on_engine(&engine, req) {
        Ok(QueryResponse::Nodes { nodes }) => nodes.iter().map(|n| n.id.clone()).collect::<Vec<_>>(),
        _ => panic!("search"),
    };
    assert_eq!(via_tool, via_http);
}

#[test]
fn mcp_graph_trace_matches_http() {
    let engine = engine();
    let args = obj(vec![("id", JsonValue::String("sym:main.py:function:greet:4".into())), ("depth", JsonValue::Number(JsonNumber::PosInt(4)))]);
    let via_tool = match call_mcp_tool(&engine, "graph_trace", &args) {
        Ok(QueryResponse::Trace(t)) => t.hops.iter().map(|h| h.node.id.clone()).collect::<Vec<_>>(),
        _ => panic!("mcp trace"),
    };
    let mut req = request(QueryOp::Trace);
    req.id = Some("sym:main.py:function:greet:4".into());
    req.depth = Some(4);
    let via_http = match dispatch_query_on_engine(&engine, req) {
        Ok(QueryResponse::Trace(t)) => t.hops.iter().map(|h| h.node.id.clone()).collect::<Vec<_>>(),
        _ => panic!("trace"),
    };
    assert_eq!(via_tool, via_http);
}

#[test]
fn mcp_graph_entry_points_matches_http() {
    let engine = engine();
    let via_tool = match call_mcp_tool(&engine, "graph_entry_points", &obj(vec![])) {
        Ok(QueryResponse::Nodes { nodes }) => nodes.iter().map(|n| n.id.clone()).collect::<Vec<_>>(),
        _ => panic!("mcp entry points"),
    };
    let via_http = match dispatch_query_on_engine(&engine, request(QueryOp::EntryPoints)) {
        Ok(QueryResponse::Nodes { nodes }) => nodes.iter().map(|n| n.id.clone()).collect::<Vec<_>>(),
        _ => panic!("entry points"),
    };
    assert_eq!(via_tool, via_http);
}

#[test]
fn mcp_graph_impact_matches_http() {
    let engine = engine();
    let args = obj(vec![("id", JsonValue::String("sym:utils.py:function:format_message:1".into())), ("depth", JsonValue::Number(JsonNumber::PosInt(2)))]);
    let via_tool = match call_mcp_tool(&engine, "graph_impact", &args) {
        Ok(QueryResponse::Nodes { nodes }) => nodes.iter().map(|n| n.id.clone()).collect::<Vec<_>>(),
        _ => panic!("mcp impact"),
    };
    let mut req = request(QueryOp::Impact);
    req.id = Some("sym:utils.py:function:format_message:1".into());
    req.depth = Some(2);
    let via_http = match dispatch_query_on_engine(&engine, req) {
        Ok(QueryResponse::Nodes { nodes }) => nodes.iter().map(|n| n.id.clone()).collect::<Vec<_>>(),
        _ => panic!("impact"),
    };
    assert_eq!(via_tool, via_http);
    assert!(!via_tool.is_empty());
}

#[test]
fn mcp_rejects_unknown_tools_and_missing_arguments() {
    match tool_to_query("graph_nothing", &obj(vec![])) {
        Err(McpToolError::UnknownTool(t)) => assert_eq!(t, "graph_nothing"),
        _ => panic!("expected unknown tool"),
    }
    match tool_to_query("graph_callers", &obj(vec![("id", JsonValue::String(String::new()))])) {
        Err(McpToolError::BadArgs(m)) => assert_eq!(m, "missing or empty `id`"),
        _ => panic!("expected bad args"),
    }
    match get_string(&JsonValue::Null, "query") {
        Err(McpToolError::BadArgs(m)) => assert_eq!(m, "missing or empty `query`"),
        _ => panic!("expected bad args"),
    }
    let args = obj(vec![("depth", JsonValue::Number(JsonNumber::NegInt(-2))), ("limit", JsonValue::Number(JsonNumber::PosInt(3)))]);
    assert_eq!(get_optional_usize(&args, "depth"), None);
    assert_eq!(get_optional_usize(&args, "limit"), Some(3));
}

fn record(id: &str, files: usize) -> HostedRepoRecord {
    HostedRepoRecord {
        repo_id: id.into(),
        path: format!("/src/{id}"),
        db_path: format!("/hosted/{id}/index.db"),
        indexed_at: 100,
        file_count: files,
        git_url: None,
        git_ref: None,
    }
}

#[test]
fn hosted_registry_persists_and_lists_repos() {
    let mut registry = HostedRegistry { repos: vec![], active_repo_id: None };
    registry.record(record("alpha", 3));
    registry.record(record("beta", 25));
    registry.record(record("alpha", 4));
    let store = HostedStore { dir: "/hosted".into(), registry };
    let list = store.list_summaries();
    assert_eq!(list.repos.len(), 2);
    assert_eq!(list.repos[0].repo_id, "beta");
    assert!(!list.repos[0].active);
    assert_eq!(list.repos[1].repo_id, "alpha");
    assert_eq!(list.repos[1].file_count, 4);
    assert!(list.repos[1].active);
}

#[test]
fn hosted_registry_finds_and_activates() {
    let mut registry = HostedRegistry { repos: vec![record("alpha", 1), record("beta", 2)], active_repo_id: None };
    assert!(registry.active_record().is_none());
    registry.set_active("beta");
    assert_eq!(registry.active_record().map(|r| r.file_count), Some(2));
    match registry.require("gamma") {
        Err(ApiError::NotFound(m)) => assert_eq!(m, "repo gamma"),
        _ => panic!("expected not found"),
    }
    assert_eq!(registry.find("alpha").map(|r| r.path), Some("/src/alpha".to_string()));
}

#[test]
fn repo_ids_are_sanitized() {
    assert_eq!(sanitize_repo_id("my repo/v2.0"), "my_repo_v2_0");
    assert_eq!(sanitize_repo_id("ok-Name_9"), "ok-Name_9");
    assert_eq!(sanitize_repo_id("é"), "_");
    assert_eq!(default_repo_id("/home/me/My Project"), "My_Project");
    assert_eq!(default_repo_id("/home/me/proj/"), "proj");
    assert_eq!(default_repo_id("/"), "repo");
    assert_eq!(default_repo_id("a/.."), "repo");
    assert_eq!(default_repo_id("a/b/."), "b");
    assert_eq!(repo_db_path("/hosted", "a b"), "/hosted/a_b/index.db");
}

#[test]
fn mcp_methods_are_recognised() {
    assert_eq!(mcp_method("initialize"), McpMethod::Initialize);
    assert_eq!(mcp_method("initialized"), McpMethod::Initialized);
    assert_eq!(mcp_method("notifications/initialized"), McpMethod::Initialized);
    assert_eq!(mcp_method("tools/list"), McpMethod::ListTools);
    assert_eq!(mcp_method("tools/call"), McpMethod::CallTool);
    assert_eq!(mcp_method("resources/list"), McpMethod::Unsupported);
}

#[test]
fn unsupported_method_names_the_method() {
    match unsupported_method("ping") {
        McpToolError::BadArgs(m) => assert_eq!(m, "unsupported method: ping"),
        _ => panic!("expected bad args"),
    }
}

#[test]
fn tools_call_without_a_name_is_refused() {
    let engine = engine();
    match call_tool_request(&engine, &obj(vec![])) {
        Err(McpToolError::BadArgs(m)) => assert_eq!(m, "tools/call requires name"),
        _ => panic!("expected bad args"),
    }
}

#[test]
fn tools_call_runs_the_named_tool_with_its_arguments() {
    let engine = engine();
    let params = obj(vec![
        ("name", JsonValue::String("graph_callers".into())),
        ("arguments", obj(vec![("id", JsonValue::String("sym:utils.py:function:format_message:1".into()))])),
    ]);
    match call_tool_request(&engine, &params) {
        Ok(QueryResponse::Neighbors { neighbors }) => {
            assert!(neighbors.iter().any(|n| n.node.id == "sym:main.py:function:greet:4"));
        }
        _ => panic!("expected neighbors"),
    }
}

#[test]
fn tools_call_without_arguments_uses_an_empty_object() {
    let engine = engine();
    let params = obj(vec![("name", JsonValue::String("graph_entry_points".into()))]);
    assert!(matches!(call_tool_request(&engine, &params), Ok(QueryResponse::Nodes { .. })));
    let params = obj(vec![("name", JsonValue::String("graph_trace".into()))]);
    match call_tool_request(&engine, &params) {
        Err(McpToolError::BadArgs(m)) => assert_eq!(m, "missing or empty `id`"),
        _ => panic!("expected bad args"),
    }
}

#[test]
fn server_decisions_follow_the_request() {
    let h = health_response("1.2.3");
    assert_eq!(h.status, "ok");
    assert_eq!(h.version, "1.2.3");
    assert!(uses_hosted_registry(None, true));
    assert!(!uses_hosted_registry(None, false));
    assert!(!uses_hosted_registry(Some(false), true));
    assert!(uses_hosted_registry(Some(true), false));
    assert_eq!(index_repo_id(&Some("given".to_string()), "/tmp/my repo"), "given");
    assert_eq!(index_repo_id(&None, "/tmp/my repo"), "my_repo");
    assert_eq!(persist_without_registry(), "persist requested but hosted store not configured");
    assert!(matches!(require_registry::<u8>(None), Err(ApiError::BadRequest(m)) if m == "hosted registry not enabled"));
    assert!(matches!(require_registry(Some(3u8)), Ok(3)));
    assert!(matches!(require_active::<u8>(None), Err(ApiError::NotIndexed)));
    assert!(matches!(require_active(Some(4u8)), Ok(4)));
    assert!(check_active_repo("/a", "/a").is_ok());
    assert!(matches!(check_active_repo("/a", "/b"), Err(ApiError::RepoMismatch)));
}

#[test]
fn overlay_hits_must_name_each_node_once() {
    let ok = RuntimeOverlay { schema_version: 1, node_hits: vec![("a".into(), 1), ("b".into(), 2)], paths: Vec::new() };
    assert!(ok.has_distinct_hits());
    let dup = RuntimeOverlay { schema_version: 1, node_hits: vec![("a".into(), 1), ("b".into(), 2), ("a".into(), 3)], paths: Vec::new() };
    assert!(!dup.has_distinct_hits());
}

#[test]
fn recording_a_repository_then_finding_it_gives_the_new_record() {
    let rec = |id: &str, at: u64| HostedRepoRecord {
        repo_id: id.into(),
        path: format!("/r/{id}"),
        db_path: format!("/h/{id}/index.db"),
        indexed_at: at,
        file_count: 1,
        git_url: None,
        git_ref: None,
    };
    let mut reg = HostedRegistry { repos: vec![rec("a", 1), rec("b", 2)], active_repo_id: None };
    reg.record(rec("a", 9));
    assert_eq!(reg.repos.len(), 2);
    assert_eq!(reg.find("a").map(|r| r.indexed_at), Some(9));
    assert_eq!(reg.find("b").map(|r| r.indexed_at), Some(2));
    assert!(reg.find("c").is_none());
    assert_eq!(reg.active_repo_id.as_deref(), Some("a"));
}

#[test]
fn get_health_matches_schema() {
    let body = health_response("0.1.0");
    assert_eq!(body.status, "ok");
    assert!(!body.version.is_empty());
}

#[test]
fn post_index_and_poll_status() {
    let engine = engine();
    assert!(check_active_repo("/fixtures/python_simple", "/fixtures/python_simple").is_ok());
    let caps = engine.capabilities().ok().expect("capabilities");
    assert!(!caps.languages.is_empty());
    assert!(engine.store().file_count() > 0);
}

#[test]
fn sanitized_ids_are_single_directory_names() {
    let once = sanitize_repo_id("../etc/pass wd");
    assert_eq!(once, "___etc_pass_wd");
    assert_eq!(sanitize_repo_id(&once), once);
    assert!(!once.contains('/') && !once.contains('.'));
    assert_eq!(repo_db_path("/h", "../x"), "/h/___x/index.db");
}

#[test]
fn tool_calls_check_the_tool_before_the_index() {
    let unknown = obj(vec![("name", JsonValue::String("graph_nope".into()))]);
    match call_tool_on_state(None, None, &unknown) {
        Err(McpToolError::UnknownTool(t)) => assert_eq!(t, "graph_nope"),
        _ => panic!("expected unknown tool"),
    }
    let no_id = obj(vec![("name", JsonValue::String("graph_callers".into()))]);
    assert!(matches!(call_tool_on_state(None, None, &no_id), Err(McpToolError::BadArgs(_))));
    let search = obj(vec![
        ("name", JsonValue::String("graph_search".into())),
        ("arguments", obj(vec![("query", JsonValue::String("greet".into()))])),
    ]);
    assert!(matches!(call_tool_on_state(None, None, &search), Err(McpToolError::Api(ApiError::NotIndexed))));
    let engine = engine();
    match call_tool_on_state(Some(&engine), None, &search) {
        Ok(QueryResponse::Nodes { nodes }) => assert!(nodes.iter().any(|n| n.name == "greet")),
        _ => panic!("expected nodes"),
    }
}

#[test]
fn tools_list_describes_each_tool_and_its_arguments() {
    let tools = trace_graph::mcp::tool_schemas();
    let names: Vec<&str> = tools.iter().map(|t| t.name).collect();
    assert_eq!(names, vec!["graph_search", "graph_callers", "graph_trace", "graph_entry_points", "graph_impact"]);
    assert_eq!(tools[0].required, Some(vec!["query"]));
    assert_eq!(tools[0].input_type, "object");
    assert_eq!(tools[0].properties, vec![("query", "string"), ("limit", "integer")]);
    assert!(tools[3].required.is_none() && tools[3].properties.is_empty());
    assert_eq!(tools[4].description, "Blast radius: who transitively calls this symbol");
}

#[test]
fn hosted_directory_prefers_the_environment_then_home() {
    use_hosted_dir_choice();
}

fn use_hosted_dir_choice() {
    assert_eq!(trace_graph::hosted::hosted_dir_choice(Some("/srv/h".into()), Some("/home/u".into())), Some("/srv/h".to_string()));
    assert_eq!(trace_graph::hosted::hosted_dir_choice(None, Some("/home/u".into())), Some("/home/u/.graph/hosted".to_string()));
    assert_eq!(trace_graph::hosted::hosted_dir_choice(None, None), None);
}
