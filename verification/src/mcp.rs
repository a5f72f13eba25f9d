//! MCP tools: each tool call is a graph query.
use vstd::prelude::*;
use crate::json::{JsonValue, json_get, opt_str, opt_u64, get, as_str, as_u64};
use crate::server::{ApiError, QueryOp, QueryRequest, QueryResponse, dispatch_query_on_engine, dispatched, dispatch_on_active, dispatched_on};
use crate::overlay::RuntimeOverlay;
use crate::engine::GraphEngine;
use crate::text::{str_eq, concat, concat3, new_string};
use crate::store::opt_text;

verus! {

pub const TOOL_GRAPH_CALLERS: &'static str = "graph_callers";
pub const TOOL_GRAPH_TRACE: &'static str = "graph_trace";
pub const TOOL_GRAPH_SEARCH: &'static str = "graph_search";
pub const TOOL_GRAPH_ENTRY_POINTS: &'static str = "graph_entry_points";
pub const TOOL_GRAPH_IMPACT: &'static str = "graph_impact";

/// The names of the tools, in the order they are listed.
pub fn mcp_tool_names() -> (r: Vec<&'static str>)
    ensures
        r@.len() == 5,
        r@[0]@ == TOOL_GRAPH_CALLERS@,
        r@[1]@ == TOOL_GRAPH_TRACE@,
        r@[2]@ == TOOL_GRAPH_SEARCH@,
        r@[3]@ == TOOL_GRAPH_ENTRY_POINTS@,
        r@[4]@ == TOOL_GRAPH_IMPACT@,
{
    let mut r: Vec<&'static str> = Vec::new();
    r.push(TOOL_GRAPH_CALLERS);
    r.push(TOOL_GRAPH_TRACE);
    r.push(TOOL_GRAPH_SEARCH);
    r.push(TOOL_GRAPH_ENTRY_POINTS);
    r.push(TOOL_GRAPH_IMPACT);
    r
}

/// Why a tool call failed.
#[derive(Debug)]
pub enum McpToolError {
    Api(ApiError),
    UnknownTool(String),
    BadArgs(String),
}

/// The non-empty string argument `key`.
pub open spec fn string_arg(args: JsonValue, key: Seq<char>) -> Option<Seq<char>> {
    match opt_str(json_get(args, key)) {
        Some(s) => if s.len() > 0 { Some(s) } else { None },
        None => None,
    }
}

/// The non-negative integer argument `key`, as a `usize`.
pub open spec fn usize_arg(args: JsonValue, key: Seq<char>) -> Option<usize> {
    match opt_u64(json_get(args, key)) {
        Some(n) => Some(n as usize),
        None => None,
    }
}

/// The non-empty string argument `key`.
pub fn get_string(args: &JsonValue, key: &str) -> (r: Result<String, McpToolError>)
    ensures
        match string_arg(*args, key@) {
            Some(s) => r matches Ok(v) && v@ == s,
            None => r matches Err(McpToolError::BadArgs(m)) && m@ == "missing or empty `"@ + key@ + "`"@,
        },
{
    if let Some(v) = get(args, key) {
        if let Some(s) = as_str(v) {
            if !s.is_empty() {
                return Ok(s.to_owned());
            }
        }
    }
    Err(McpToolError::BadArgs(concat3("missing or empty `", key, "`")))
}

/// The non-negative integer argument `key`, if given.
pub fn get_optional_usize(args: &JsonValue, key: &str) -> (r: Option<usize>)
    ensures
        r == usize_arg(*args, key@),
{
    match get(args, key) {
        Some(v) => match as_u64(v) {
            Some(n) => Some(n as usize),
            None => None,
        },
        None => None,
    }
}

/// The query a tool call with arguments `args` asks.
pub open spec fn tool_query(tool: Seq<char>, args: JsonValue, r: Result<QueryRequest, McpToolError>) -> bool {
    if tool == TOOL_GRAPH_CALLERS@ || tool == TOOL_GRAPH_TRACE@ || tool == TOOL_GRAPH_IMPACT@ {
        match string_arg(args, "id"@) {
            Some(id) => r matches Ok(q) && opt_text(q.id) == Some(id) && q.query is None && q.limit is None
                && q.scope is None && q.boundary is None && (if tool == TOOL_GRAPH_CALLERS@ {
                q.op == QueryOp::Callers && q.depth is None
            } else if tool == TOOL_GRAPH_TRACE@ {
                q.op == QueryOp::Trace && q.depth == usize_arg(args, "depth"@)
            } else {
                q.op == QueryOp::Impact && q.depth == usize_arg(args, "depth"@)
            }),
            None => r matches Err(McpToolError::BadArgs(m)) && m@ == "missing or empty `id`"@,
        }
    } else if tool == TOOL_GRAPH_SEARCH@ {
        match string_arg(args, "query"@) {
            Some(text) => r matches Ok(q) && q.op == QueryOp::Search && q.id is None && opt_text(q.query) == Some(text)
                && q.limit == usize_arg(args, "limit"@) && q.depth is None && q.scope is None && q.boundary is None,
            None => r matches Err(McpToolError::BadArgs(m)) && m@ == "missing or empty `query`"@,
        }
    } else if tool == TOOL_GRAPH_ENTRY_POINTS@ {
        r matches Ok(q) && q.op == QueryOp::EntryPoints && q.id is None && q.query is None && q.limit is None
            && q.depth is None && q.scope is None && q.boundary is None
    } else {
        r matches Err(McpToolError::UnknownTool(t)) && t@ == tool
    }
}

/// The query request of a tool call.
pub fn tool_to_query(tool: &str, args: &JsonValue) -> (r: Result<QueryRequest, McpToolError>)
    ensures
        tool_query(tool@, *args, r),
{
    proof {
        reveal_strlit("graph_callers");
        reveal_strlit("graph_trace");
        reveal_strlit("graph_search");
        reveal_strlit("graph_entry_points");
        reveal_strlit("graph_impact");
        reveal_strlit("missing or empty `");
        reveal_strlit("`");
        reveal_strlit("id");
        reveal_strlit("query");
        reveal_strlit("missing or empty `id`");
        reveal_strlit("missing or empty `query`");
        assert("missing or empty `"@ + "id"@ + "`"@ =~= "missing or empty `id`"@);
        assert("missing or empty `"@ + "query"@ + "`"@ =~= "missing or empty `query`"@);
        assert(TOOL_GRAPH_CALLERS@.len() == 13 && TOOL_GRAPH_TRACE@.len() == 11 && TOOL_GRAPH_SEARCH@.len() == 12);
        assert(TOOL_GRAPH_IMPACT@.len() == 12 && TOOL_GRAPH_ENTRY_POINTS@.len() == 18);
        assert(TOOL_GRAPH_SEARCH@[6] != TOOL_GRAPH_IMPACT@[6]);
        assert(TOOL_GRAPH_SEARCH@ != TOOL_GRAPH_IMPACT@);
    }
    if str_eq(tool, TOOL_GRAPH_CALLERS) {
        let id = match get_string(args, "id") {
            Ok(id) => id,
            Err(e) => {
                return Err(e);
            },
        };
        Ok(QueryRequest { op: QueryOp::Callers, id: Some(id), query: None, limit: None, depth: None, scope: None, boundary: None })
    } else if str_eq(tool, TOOL_GRAPH_TRACE) {
        let id = match get_string(args, "id") {
            Ok(id) => id,
            Err(e) => {
                return Err(e);
            },
        };
        Ok(QueryRequest {
            op: QueryOp::Trace,
            id: Some(id),
            query: None,
            limit: None,
            depth: get_optional_usize(args, "depth"),
            scope: None,
            boundary: None,
        })
    } else if str_eq(tool, TOOL_GRAPH_SEARCH) {
        let q = match get_string(args, "query") {
            Ok(q) => q,
            Err(e) => {
                return Err(e);
            },
        };
        Ok(QueryRequest {
            op: QueryOp::Search,
            id: None,
            query: Some(q),
            limit: get_optional_usize(args, "limit"),
            depth: None,
            scope: None,
            boundary: None,
        })
    } else if str_eq(tool, TOOL_GRAPH_ENTRY_POINTS) {
        Ok(QueryRequest { op: QueryOp::EntryPoints, id: None, query: None, limit: None, depth: None, scope: None, boundary: None })
    } else if str_eq(tool, TOOL_GRAPH_IMPACT) {
        let id = match get_string(args, "id") {
            Ok(id) => id,
            Err(e) => {
                return Err(e);
            },
        };
        Ok(QueryRequest {
            op: QueryOp::Impact,
            id: Some(id),
            query: None,
            limit: None,
            depth: get_optional_usize(args, "depth"),
            scope: None,
            boundary: None,
        })
    } else {
        Err(McpToolError::UnknownTool(tool.to_owned()))
    }
}

/// `r` answers a call of `tool` with `args`: the answer the engine gives to
/// the tool's query, or the error of the query or of the tool.
pub open spec fn tool_called(engine: GraphEngine, tool: Seq<char>, args: JsonValue, r: Result<QueryResponse, McpToolError>) -> bool {
    exists|q: Result<QueryRequest, McpToolError>|
        #[trigger] tool_query(tool, args, q) && match q {
            Ok(req) => exists|a: Result<QueryResponse, ApiError>|
                #[trigger] dispatched(engine, req, a) && match a {
                    Ok(resp) => r == Ok::<QueryResponse, McpToolError>(resp),
                    Err(e) => r == Err::<QueryResponse, McpToolError>(McpToolError::Api(e)),
                },
            Err(e) => r == Err::<QueryResponse, McpToolError>(e),
        }
}

/// Runs a tool against an engine: the answer `POST /query` gives for the
/// tool's query.
pub fn call_mcp_tool(engine: &GraphEngine, tool: &str, args: &JsonValue) -> (r: Result<QueryResponse, McpToolError>)
    requires
        engine.wf(),
    ensures
        tool_called(*engine, tool@, *args, r),
{
    let q = tool_to_query(tool, args);
    let ghost q0 = q;
    match q {
        Ok(req) => {
            let ghost rq = req;
            let a = dispatch_query_on_engine(engine, req);
            let ghost a0 = a;
            let r = match a {
                Ok(resp) => Ok(resp),
                Err(e) => Err(McpToolError::Api(e)),
            };
            assert(dispatched(*engine, rq, a0));
            assert(tool_query(tool@, *args, q0));
            r
        },
        Err(e) => {
            assert(tool_query(tool@, *args, q0));
            Err(e)
        },
    }
}

/// The MCP protocol revision the server speaks.
pub const PROTOCOL_VERSION: &'static str = "2024-11-05";

/// The server's name in the `initialize` answer.
pub const SERVER_NAME: &'static str = "graph-mcp";

/// The JSON-RPC error code of a line that is not a request.
pub const PARSE_ERROR_CODE: i64 = -32700;

/// The JSON-RPC error code of a request that failed.
pub const REQUEST_ERROR_CODE: i64 = -32000;

/// The JSON-RPC methods of the MCP server.
#[derive(PartialEq, Eq, Structural, Debug, Clone, Copy)]
pub enum McpMethod {
    /// `initialize`: the protocol version, capabilities and server info.
    Initialize,
    /// `initialized` or `notifications/initialized`: answered with `null`.
    Initialized,
    /// `tools/list`: the tools and their argument schemas.
    ListTools,
    /// `tools/call`: runs a tool.
    CallTool,
    /// Anything else.
    Unsupported,
}

/// The method that `method` names.
pub open spec fn method_of(method: Seq<char>) -> McpMethod {
    if method == "initialize"@ {
        McpMethod::Initialize
    } else if method == "notifications/initialized"@ || method == "initialized"@ {
        McpMethod::Initialized
    } else if method == "tools/list"@ {
        McpMethod::ListTools
    } else if method == "tools/call"@ {
        McpMethod::CallTool
    } else {
        McpMethod::Unsupported
    }
}

/// The method that `method` names.
pub fn mcp_method(method: &str) -> (m: McpMethod)
    ensures
        m == method_of(method@),
{
    if str_eq(method, "initialize") {
        McpMethod::Initialize
    } else if str_eq(method, "notifications/initialized") || str_eq(method, "initialized") {
        McpMethod::Initialized
    } else if str_eq(method, "tools/list") {
        McpMethod::ListTools
    } else if str_eq(method, "tools/call") {
        McpMethod::CallTool
    } else {
        McpMethod::Unsupported
    }
}

/// The error of a request whose method the server does not answer.
pub fn unsupported_method(method: &str) -> (e: McpToolError)
    ensures
        e matches McpToolError::BadArgs(m) && m@ == "unsupported method: "@ + method@,
{
    McpToolError::BadArgs(concat("unsupported method: ", method))
}

/// `r` answers a call of `tool` with an empty object of arguments.
pub open spec fn called_without_arguments(engine: GraphEngine, tool: Seq<char>, r: Result<QueryResponse, McpToolError>) -> bool {
    exists|args: JsonValue| #[trigger] tool_called(engine, tool, args, r) && (args matches JsonValue::Object(ms, _) && ms@.len() == 0)
}

/// Runs the tool that the parameters of a `tools/call` request name, with
/// their `arguments` (an empty object when they have none).
pub fn call_tool_request(engine: &GraphEngine, params: &JsonValue) -> (r: Result<QueryResponse, McpToolError>)
    requires
        engine.wf(),
    ensures
        match opt_str(json_get(*params, "name"@)) {
            None => r matches Err(McpToolError::BadArgs(m)) && m@ == "tools/call requires name"@,
            Some(name) => match json_get(*params, "arguments"@) {
                Some(a) => tool_called(*engine, name, a, r),
                None => called_without_arguments(*engine, name, r),
            },
        },
{
    let name = match get(params, "name") {
        Some(v) => match as_str(v) {
            Some(s) => s,
            None => {
                return Err(McpToolError::BadArgs(new_string("tools/call requires name")));
            },
        },
        None => {
            return Err(McpToolError::BadArgs(new_string("tools/call requires name")));
        },
    };
    assert(opt_str(json_get(*params, "name"@)) == Some(name@));
    match get(params, "arguments") {
        Some(args) => {
            let r = call_mcp_tool(engine, name, args);
            assert(json_get(*params, "arguments"@) == Some(*args));
            assert(tool_called(*engine, name@, *args, r));
            r
        },
        None => {
            let members: Vec<(String, JsonValue)> = Vec::new();
            assert(members@.len() == 0);
            let empty = JsonValue::Object(members, new_string("{}"));
            let r = call_mcp_tool(engine, name, &empty);
            assert(tool_called(*engine, name@, empty, r) && (empty matches JsonValue::Object(ms, _) && ms@.len() == 0));
            assert(called_without_arguments(*engine, name@, r));
            r
        },
    }
}

/// `r` answers a call of `tool` with `args` against the server's state: the
/// tool's query first, then the answer of the active index, if any.
pub open spec fn tool_called_on(active: Option<GraphEngine>, overlay: Option<RuntimeOverlay>, tool: Seq<char>, args: JsonValue, r: Result<QueryResponse, McpToolError>) -> bool {
    exists|q: Result<QueryRequest, McpToolError>|
        #[trigger] tool_query(tool, args, q) && match q {
            Ok(req) => exists|a: Result<QueryResponse, ApiError>|
                #[trigger] dispatched_on(active, overlay, req, a) && match a {
                    Ok(resp) => r == Ok::<QueryResponse, McpToolError>(resp),
                    Err(e) => r == Err::<QueryResponse, McpToolError>(McpToolError::Api(e)),
                },
            Err(e) => r == Err::<QueryResponse, McpToolError>(e),
        }
}

/// `r` answers a call of `tool`, with an empty object of arguments, against the server's state.
pub open spec fn called_on_without_arguments(active: Option<GraphEngine>, overlay: Option<RuntimeOverlay>, tool: Seq<char>, r: Result<QueryResponse, McpToolError>) -> bool {
    exists|args: JsonValue| #[trigger] tool_called_on(active, overlay, tool, args, r) && (args matches JsonValue::Object(ms, _) && ms@.len() == 0)
}

/// Runs a `tools/call` request against the server's state: the tool's name
/// and arguments are checked first, then the query goes to the active index
/// (`NotIndexed` when there is none), a subgraph getting the overlay.
pub fn call_tool_on_state(active: Option<&GraphEngine>, overlay: Option<&RuntimeOverlay>, params: &JsonValue) -> (r: Result<QueryResponse, McpToolError>)
    requires
        match active {
            Some(g) => g.wf(),
            None => true,
        },
        match overlay {
            Some(o) => o.wf(),
            None => true,
        },
    ensures
        ({
            let act = match active { Some(g) => Some(*g), None => None };
            let ov = match overlay { Some(o) => Some(*o), None => None };
            match opt_str(json_get(*params, "name"@)) {
                None => r matches Err(McpToolError::BadArgs(m)) && m@ == "tools/call requires name"@,
                Some(name) => match json_get(*params, "arguments"@) {
                    Some(a) => tool_called_on(act, ov, name, a, r),
                    None => called_on_without_arguments(act, ov, name, r),
                },
            }
        }),
{
    let ghost act = match active { Some(g) => Some(*g), None => None::<GraphEngine> };
    let ghost ov = match overlay { Some(o) => Some(*o), None => None::<RuntimeOverlay> };
    let name = match get(params, "name") {
        Some(v) => match as_str(v) {
            Some(s) => s,
            None => {
                return Err(McpToolError::BadArgs(new_string("tools/call requires name")));
            },
        },
        None => {
            return Err(McpToolError::BadArgs(new_string("tools/call requires name")));
        },
    };
    assert(opt_str(json_get(*params, "name"@)) == Some(name@));
    let members: Vec<(String, JsonValue)> = Vec::new();
    let empty = JsonValue::Object(members, new_string("{}"));
    let given = get(params, "arguments");
    let args = match given {
        Some(a) => a,
        None => &empty,
    };
    let q = tool_to_query(name, args);
    let ghost q0 = q;
    let r = match q {
        Ok(req) => {
            let ghost rq = req;
            let a = dispatch_on_active(active, overlay, req);
            let ghost a0 = a;
            let r = match a {
                Ok(resp) => Ok(resp),
                Err(e) => Err(McpToolError::Api(e)),
            };
            assert(dispatched_on(act, ov, rq, a0));
            r
        },
        Err(e) => Err(e),
    };
    assert(tool_called_on(act, ov, name@, *args, r));
    match given {
        Some(a) => {
            assert(json_get(*params, "arguments"@) == Some(*a));
        },
        None => {
            assert(empty matches JsonValue::Object(ms, _) && ms@.len() == 0);
            assert(called_on_without_arguments(act, ov, name@, r));
        },
    }
    r
}

/// A tool as `tools/list` describes it: its name, what it does, and its
/// input schema: the schema's JSON type, its list of required arguments
/// (left out of the schema when there is none), and every argument with its
/// JSON type.
pub struct ToolSchema {
    pub name: &'static str,
    pub description: &'static str,
    pub input_type: &'static str,
    pub required: Option<Vec<&'static str>>,
    pub properties: Vec<(&'static str, &'static str)>,
}

/// A tool description as plain values.
pub open spec fn tool_schema_view(t: ToolSchema) -> (Seq<char>, Seq<char>, Seq<char>, Option<Seq<Seq<char>>>, Seq<(Seq<char>, Seq<char>)>) {
    (
        t.name@,
        t.description@,
        t.input_type@,
        match t.required {
            Some(rs) => Some(rs@.map_values(|r: &'static str| r@)),
            None => None,
        },
        t.properties@.map_values(|p: (&'static str, &'static str)| (p.0@, p.1@)),
    )
}

/// The tools of the server, in the order `tools/list` gives them.
pub open spec fn tool_table() -> Seq<(Seq<char>, Seq<char>, Seq<char>, Option<Seq<Seq<char>>>, Seq<(Seq<char>, Seq<char>)>)> {
    seq![
        (TOOL_GRAPH_SEARCH@, "Search symbols by name or path"@, "object"@, Some(seq!["query"@]), seq![("query"@, "string"@), ("limit"@, "integer"@)]),
        (TOOL_GRAPH_CALLERS@, "Symbols that call the given node id"@, "object"@, Some(seq!["id"@]), seq![("id"@, "string"@)]),
        (TOOL_GRAPH_TRACE@, "Trace CALLS edges from a root symbol"@, "object"@, Some(seq!["id"@]), seq![("id"@, "string"@), ("depth"@, "integer"@)]),
        (TOOL_GRAPH_ENTRY_POINTS@, "List graph entry points (roots)"@, "object"@, None, Seq::empty()),
        (TOOL_GRAPH_IMPACT@, "Blast radius: who transitively calls this symbol"@, "object"@, Some(seq!["id"@]), seq![("id"@, "string"@), ("depth"@, "integer"@)]),
    ]
}

/// The tools of the server with their argument schemas, in the order
/// `tools/list` gives them.
pub fn tool_schemas() -> (r: Vec<ToolSchema>)
    ensures
        r@.map_values(|t: ToolSchema| tool_schema_view(t)) == tool_table(),
{
    let r = vec![
        ToolSchema {
            name: TOOL_GRAPH_SEARCH,
            description: "Search symbols by name or path",
            input_type: "object",
            required: Some(vec!["query"]),
            properties: vec![("query", "string"), ("limit", "integer")],
        },
        ToolSchema {
            name: TOOL_GRAPH_CALLERS,
            description: "Symbols that call the given node id",
            input_type: "object",
            required: Some(vec!["id"]),
            properties: vec![("id", "string")],
        },
        ToolSchema {
            name: TOOL_GRAPH_TRACE,
            description: "Trace CALLS edges from a root symbol",
            input_type: "object",
            required: Some(vec!["id"]),
            properties: vec![("id", "string"), ("depth", "integer")],
        },
        ToolSchema {
            name: TOOL_GRAPH_ENTRY_POINTS,
            description: "List graph entry points (roots)",
            input_type: "object",
            required: None,
            properties: Vec::new(),
        },
        ToolSchema {
            name: TOOL_GRAPH_IMPACT,
            description: "Blast radius: who transitively calls this symbol",
            input_type: "object",
            required: Some(vec!["id"]),
            properties: vec![("id", "string"), ("depth", "integer")],
        },
    ];
    proof {
        let v = r@.map_values(|t: ToolSchema| tool_schema_view(t));
        assert forall|k: int| 0 <= k < 5 implies #[trigger] v[k] == tool_table()[k] by {
            let t = r@[k];
            if k != 3 {
                assert(t.required->0@.map_values(|x: &'static str| x@) =~= tool_table()[k].3->0);
            }
            assert(t.properties@.map_values(|p: (&'static str, &'static str)| (p.0@, p.1@)) =~= tool_table()[k].4);
        }
        assert(v =~= tool_table());
    }
    r
}

} // verus!
