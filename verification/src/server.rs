//! The HTTP API's vocabulary and its query dispatch: requests, responses,
//! errors and how a query is answered from an engine.
use vstd::prelude::*;
use crate::text::str_eq;
use crate::model::{Capabilities, GraphNode};
use crate::engine::{EngineError, GraphEngine, Neighbor, Subgraph, TraceResult, search_outcome, callers_outcome,
    callees_outcome, impact_outcome, entry_points_outcome, trace_outcome, subgraph_outcome};
use crate::overlay::{RuntimeOverlay, attach_overlay, overlay_attached};

verus! {

/// Where the server listens.
pub const DEFAULT_ADDR: &'static str = "127.0.0.1:9847";

/// The state of an indexing job.
#[derive(Clone, Copy, Debug, PartialEq, Eq, Structural)]
pub enum JobStatus {
    Queued,
    Running,
    Complete,
    Failed,
}

impl JobStatus {
    /// The lowercase name the API shows.
    pub fn as_str(self) -> (s: &'static str)
        ensures
            s@ == match self {
                JobStatus::Queued => "queued"@,
                JobStatus::Running => "running"@,
                JobStatus::Complete => "complete"@,
                JobStatus::Failed => "failed"@,
            },
    {
        match self {
            JobStatus::Queued => "queued",
            JobStatus::Running => "running",
            JobStatus::Complete => "complete",
            JobStatus::Failed => "failed",
        }
    }
}

/// `GET /health`.
pub struct HealthResponse {
    pub status: &'static str,
    pub version: &'static str,
}

/// `POST /index`: a local path or a git repository to index.
pub struct IndexRequest {
    pub path: String,
    pub repo_id: Option<String>,
    pub git_url: Option<String>,
    pub git_ref: Option<String>,
    /// Whether to keep the index in the hosted registry.
    pub persist: Option<bool>,
}

/// The job started for an index request.
pub struct IndexJobResponse {
    pub job_id: String,
    pub status: JobStatus,
}

/// `GET /index/{job_id}`.
pub struct IndexStatusResponse {
    pub job_id: String,
    pub status: JobStatus,
    pub path: Option<String>,
    pub error: Option<String>,
    pub file_count: Option<usize>,
}

/// `GET /capabilities?repo=...`.
pub struct CapabilitiesQuery {
    pub repo: String,
}

pub struct CapabilitiesResponse {
    pub repo: String,
    pub file_count: usize,
    pub capabilities: Capabilities,
}

/// `POST /query`.
pub struct QueryRequest {
    pub op: QueryOp,
    pub id: Option<String>,
    pub query: Option<String>,
    pub limit: Option<usize>,
    pub depth: Option<usize>,
    pub scope: Option<String>,
    pub boundary: Option<bool>,
}

/// The query operations.
#[derive(Clone, Copy, Debug, PartialEq, Eq, Structural)]
pub enum QueryOp {
    Search,
    Callers,
    Callees,
    Trace,
    Subgraph,
    Impact,
    EntryPoints,
}

/// The answer to a query.
pub enum QueryResponse {
    Nodes { nodes: Vec<GraphNode> },
    Neighbors { neighbors: Vec<Neighbor> },
    Trace(TraceResult),
    Subgraph(Subgraph),
}

/// The JSON body of an error response.
pub struct ApiErrorBody {
    pub error: String,
    pub code: &'static str,
}

/// Why a request failed.
#[derive(Debug)]
pub enum ApiError {
    BadRequest(String),
    NotFound(String),
    NotIndexed,
    RepoMismatch,
    Internal(String),
}

impl ApiError {
    /// The HTTP status of the error.
    pub fn status(&self) -> (s: u16)
        ensures
            s == match self {
                ApiError::BadRequest(_) => 400u16,
                ApiError::NotFound(_) => 404u16,
                ApiError::NotIndexed => 409u16,
                ApiError::RepoMismatch => 404u16,
                ApiError::Internal(_) => 500u16,
            },
    {
        match self {
            ApiError::BadRequest(_) => 400,
            ApiError::NotFound(_) => 404,
            ApiError::NotIndexed => 409,
            ApiError::RepoMismatch => 404,
            ApiError::Internal(_) => 500,
        }
    }

    /// The body of the error response: its code and message.
    pub fn into_body(self) -> (b: ApiErrorBody)
        ensures
            match self {
                ApiError::BadRequest(m) => b.code@ == "bad_request"@ && b.error == m,
                ApiError::NotFound(m) => b.code@ == "not_found"@ && b.error == m,
                ApiError::NotIndexed => b.code@ == "not_indexed"@ && b.error@ == "no repository indexed; POST /index first"@,
                ApiError::RepoMismatch => b.code@ == "repo_not_indexed"@ && b.error@ == "requested repo is not the active index"@,
                ApiError::Internal(m) => b.code@ == "internal"@ && b.error == m,
            },
    {
        match self {
            ApiError::BadRequest(m) => ApiErrorBody { error: m, code: "bad_request" },
            ApiError::NotFound(m) => ApiErrorBody { error: m, code: "not_found" },
            ApiError::NotIndexed => ApiErrorBody { error: "no repository indexed; POST /index first".to_owned(), code: "not_indexed" },
            ApiError::RepoMismatch => ApiErrorBody { error: "requested repo is not the active index".to_owned(), code: "repo_not_indexed" },
            ApiError::Internal(m) => ApiErrorBody { error: m, code: "internal" },
        }
    }
}

/// `a` is the API error for engine error `e`.
pub open spec fn maps_engine_error(e: EngineError, a: ApiError) -> bool {
    match e {
        EngineError::NotFound(id) => a == ApiError::NotFound(id),
        EngineError::Indexer(ie) => a matches ApiError::Internal(m) && m@ == ie.message_text(),
    }
}

/// The API error for an engine error: a missing node is not found, an
/// indexer failure is internal.
pub fn map_engine_error(err: EngineError) -> (a: ApiError)
    ensures
        maps_engine_error(err, a),
{
    match err {
        EngineError::NotFound(id) => ApiError::NotFound(id),
        EngineError::Indexer(e) => ApiError::Internal(e.message()),
    }
}

/// `r` is a bad request with message `msg`.
pub open spec fn bad_request<T>(r: Result<T, ApiError>, msg: Seq<char>) -> bool {
    r matches Err(ApiError::BadRequest(m)) && m@ == msg
}

/// The id of a request that needs one.
pub fn required_id(req: &QueryRequest) -> (r: Result<String, ApiError>)
    ensures
        match req.id {
            Some(id) => if id@.len() > 0 {
                r matches Ok(s) && s@ == id@
            } else {
                bad_request(r, "query requires id"@)
            },
            None => bad_request(r, "query requires id"@),
        },
{
    match &req.id {
        Some(id) => {
            if id.as_str().is_empty() {
                Err(ApiError::BadRequest("query requires id".to_owned()))
            } else {
                Ok(id.clone())
            }
        },
        None => Err(ApiError::BadRequest("query requires id".to_owned())),
    }
}

/// The id of a request, when it has a non-empty one.
pub open spec fn request_id(req: QueryRequest) -> Option<Seq<char>> {
    match req.id {
        Some(id) => if id@.len() > 0 { Some(id@) } else { None },
        None => None,
    }
}

/// The scope of a request, `.` when absent.
pub open spec fn request_scope(req: QueryRequest) -> Seq<char> {
    match req.scope {
        Some(s) => s@,
        None => "."@,
    }
}

/// `n`, or `d` when absent.
pub open spec fn or_default<T>(n: Option<T>, d: T) -> T {
    match n {
        Some(x) => x,
        None => d,
    }
}

/// `r` answers with nodes what the engine gave as `out`.
pub open spec fn answered_nodes(out: Result<Vec<GraphNode>, EngineError>, r: Result<QueryResponse, ApiError>) -> bool {
    match out {
        Ok(v) => r == Ok::<QueryResponse, ApiError>(QueryResponse::Nodes { nodes: v }),
        Err(e) => r matches Err(a) && maps_engine_error(e, a),
    }
}

/// `r` answers with neighbours what the engine gave as `out`.
pub open spec fn answered_neighbors(out: Result<Vec<Neighbor>, EngineError>, r: Result<QueryResponse, ApiError>) -> bool {
    match out {
        Ok(v) => r == Ok::<QueryResponse, ApiError>(QueryResponse::Neighbors { neighbors: v }),
        Err(e) => r matches Err(a) && maps_engine_error(e, a),
    }
}

/// `r` answers with the trace the engine gave as `out`.
pub open spec fn answered_trace(out: Result<TraceResult, EngineError>, r: Result<QueryResponse, ApiError>) -> bool {
    match out {
        Ok(t) => r == Ok::<QueryResponse, ApiError>(QueryResponse::Trace(t)),
        Err(e) => r matches Err(a) && maps_engine_error(e, a),
    }
}

/// `r` answers with the subgraph the engine gave as `out`.
pub open spec fn answered_subgraph(out: Result<Subgraph, EngineError>, r: Result<QueryResponse, ApiError>) -> bool {
    match out {
        Ok(g) => r == Ok::<QueryResponse, ApiError>(QueryResponse::Subgraph(g)),
        Err(e) => r matches Err(a) && maps_engine_error(e, a),
    }
}

/// What answering `req` from engine `g` gives.
pub open spec fn dispatched(g: GraphEngine, req: QueryRequest, r: Result<QueryResponse, ApiError>) -> bool {
    match req.op {
        QueryOp::Search => match req.query {
            Some(q) => if q@.len() > 0 {
                exists|out: Result<Vec<GraphNode>, EngineError>|
                    #[trigger] search_outcome(g, q@, or_default(req.limit, 20usize), out) && answered_nodes(out, r)
            } else {
                bad_request(r, "search requires query"@)
            },
            None => bad_request(r, "search requires query"@),
        },
        QueryOp::Callers => match request_id(req) {
            Some(id) => exists|out: Result<Vec<Neighbor>, EngineError>|
                #[trigger] callers_outcome(g, id, out) && answered_neighbors(out, r),
            None => bad_request(r, "query requires id"@),
        },
        QueryOp::Callees => match request_id(req) {
            Some(id) => exists|out: Result<Vec<Neighbor>, EngineError>|
                #[trigger] callees_outcome(g, id, out) && answered_neighbors(out, r),
            None => bad_request(r, "query requires id"@),
        },
        QueryOp::Trace => match request_id(req) {
            Some(id) => exists|out: Result<TraceResult, EngineError>|
                #[trigger] trace_outcome(g, id, or_default(req.depth, 8usize), out) && answered_trace(out, r),
            None => bad_request(r, "query requires id"@),
        },
        QueryOp::Subgraph => exists|out: Result<Subgraph, EngineError>|
            #[trigger] subgraph_outcome(g, request_scope(req), or_default(req.boundary, true), out) && answered_subgraph(out, r),
        QueryOp::Impact => match request_id(req) {
            Some(id) => exists|out: Result<Vec<GraphNode>, EngineError>|
                #[trigger] impact_outcome(g, id, or_default(req.depth, 3usize), out) && answered_nodes(out, r),
            None => bad_request(r, "query requires id"@),
        },
        QueryOp::EntryPoints => exists|out: Result<Vec<GraphNode>, EngineError>|
            #[trigger] entry_points_outcome(g, out) && answered_nodes(out, r),
    }
}

fn nodes_answer(out: Result<Vec<GraphNode>, EngineError>) -> (r: Result<QueryResponse, ApiError>)
    ensures
        answered_nodes(out, r),
{
    match out {
        Ok(nodes) => Ok(QueryResponse::Nodes { nodes }),
        Err(e) => Err(map_engine_error(e)),
    }
}

fn neighbors_answer(out: Result<Vec<Neighbor>, EngineError>) -> (r: Result<QueryResponse, ApiError>)
    ensures
        answered_neighbors(out, r),
{
    match out {
        Ok(neighbors) => Ok(QueryResponse::Neighbors { neighbors }),
        Err(e) => Err(map_engine_error(e)),
    }
}

fn dispatch_search(engine: &GraphEngine, req: QueryRequest) -> (r: Result<QueryResponse, ApiError>)
    requires
        engine.wf(),
        req.op == QueryOp::Search,
    ensures
        dispatched(*engine, req, r),
{
        let q = match &req.query {
            Some(q) => {
                if q.as_str().is_empty() {
                    return Err(ApiError::BadRequest("search requires query".to_owned()));
                }
                q
            },
            None => {
                return Err(ApiError::BadRequest("search requires query".to_owned()));
            },
        };
        let limit = match req.limit {
            Some(l) => l,
            None => 20,
        };
        let out = engine.search(q.as_str(), limit);
        assert(search_outcome(*engine, q@, or_default(req.limit, 20usize), out));
        nodes_answer(out)
}

fn dispatch_callers(engine: &GraphEngine, req: QueryRequest) -> (r: Result<QueryResponse, ApiError>)
    requires
        engine.wf(),
        req.op == QueryOp::Callers,
    ensures
        dispatched(*engine, req, r),
{
        let id = match required_id(&req) {
            Ok(id) => id,
            Err(e) => {
                return Err(e);
            },
        };
        let out = engine.callers(id.as_str());
        assert(request_id(req) == Some(id@));
        assert(callers_outcome(*engine, request_id(req)->0, out));
        neighbors_answer(out)
}

fn dispatch_callees(engine: &GraphEngine, req: QueryRequest) -> (r: Result<QueryResponse, ApiError>)
    requires
        engine.wf(),
        req.op == QueryOp::Callees,
    ensures
        dispatched(*engine, req, r),
{
        let id = match required_id(&req) {
            Ok(id) => id,
            Err(e) => {
                return Err(e);
            },
        };
        let out = engine.callees(id.as_str());
        assert(request_id(req) == Some(id@));
        assert(callees_outcome(*engine, request_id(req)->0, out));
        neighbors_answer(out)
}

fn dispatch_trace(engine: &GraphEngine, req: QueryRequest) -> (r: Result<QueryResponse, ApiError>)
    requires
        engine.wf(),
        req.op == QueryOp::Trace,
    ensures
        dispatched(*engine, req, r),
{
        let id = match required_id(&req) {
            Ok(id) => id,
            Err(e) => {
                return Err(e);
            },
        };
        let depth = match req.depth {
            Some(d) => d,
            None => 8,
        };
        let out = engine.trace(id.as_str(), depth);
        assert(request_id(req) == Some(id@));
        assert(trace_outcome(*engine, request_id(req)->0, or_default(req.depth, 8usize), out));
        match out {
            Ok(t) => Ok(QueryResponse::Trace(t)),
            Err(e) => Err(map_engine_error(e)),
        }
}

fn dispatch_subgraph(engine: &GraphEngine, req: QueryRequest) -> (r: Result<QueryResponse, ApiError>)
    requires
        engine.wf(),
        req.op == QueryOp::Subgraph,
    ensures
        dispatched(*engine, req, r),
{
        let boundary = match req.boundary {
            Some(b) => b,
            None => true,
        };
        let out = match &req.scope {
            Some(s) => engine.subgraph(s.as_str(), boundary),
            None => engine.subgraph(".", boundary),
        };
        assert(subgraph_outcome(*engine, request_scope(req), or_default(req.boundary, true), out));
        match out {
            Ok(g) => Ok(QueryResponse::Subgraph(g)),
            Err(e) => Err(map_engine_error(e)),
        }
}

fn dispatch_impact(engine: &GraphEngine, req: QueryRequest) -> (r: Result<QueryResponse, ApiError>)
    requires
        engine.wf(),
        req.op == QueryOp::Impact,
    ensures
        dispatched(*engine, req, r),
{
        let id = match required_id(&req) {
            Ok(id) => id,
            Err(e) => {
                return Err(e);
            },
        };
        let depth = match req.depth {
            Some(d) => d,
            None => 3,
        };
        let out = engine.impact(id.as_str(), depth);
        assert(request_id(req) == Some(id@));
        assert(impact_outcome(*engine, request_id(req)->0, or_default(req.depth, 3usize), out));
        nodes_answer(out)
}

/// Answers a query from an engine.
pub fn dispatch_query_on_engine(engine: &GraphEngine, req: QueryRequest) -> (r: Result<QueryResponse, ApiError>)
    requires
        engine.wf(),
    ensures
        dispatched(*engine, req, r),
{
    match req.op {
        QueryOp::Search => dispatch_search(engine, req),
        QueryOp::Callers => dispatch_callers(engine, req),
        QueryOp::Callees => dispatch_callees(engine, req),
        QueryOp::Trace => dispatch_trace(engine, req),
        QueryOp::Subgraph => dispatch_subgraph(engine, req),
        QueryOp::Impact => dispatch_impact(engine, req),
        QueryOp::EntryPoints => {
            let out = engine.entry_points();
            nodes_answer(out)
        },
    }
}

/// What answering `req` gives when `active` is the indexed engine, if any,
/// and `overlay` the runtime overlay, if any: a subgraph gets the overlay.
pub open spec fn dispatched_on(active: Option<GraphEngine>, overlay: Option<RuntimeOverlay>, req: QueryRequest, r: Result<QueryResponse, ApiError>) -> bool {
    match active {
        None => r matches Err(ApiError::NotIndexed),
        Some(g) => exists|base: Result<QueryResponse, ApiError>|
            #[trigger] dispatched(g, req, base) && overlay_applied(overlay, base, r),
    }
}

/// `r` is `base` with the overlay, if any, attached to a subgraph.
pub open spec fn overlay_applied(overlay: Option<RuntimeOverlay>, base: Result<QueryResponse, ApiError>, r: Result<QueryResponse, ApiError>) -> bool {
    match overlay {
        Some(o) => match base {
            Ok(QueryResponse::Subgraph(sg)) => r matches Ok(QueryResponse::Subgraph(sg2)) && overlay_attached(sg, o, sg2),
            _ => r == base,
        },
        None => r == base,
    }
}

/// Answers a query against the active index, attaching the runtime overlay
/// to a subgraph.
pub fn dispatch_on_active(active: Option<&GraphEngine>, overlay: Option<&RuntimeOverlay>, req: QueryRequest) -> (r: Result<QueryResponse, ApiError>)
    requires
        match active {
            Some(g) => g.wf(),
            None => true,
        },
        match overlay {
            Some(o) => o.wf(),
            None => true,
        },
    ensures
        dispatched_on(
            match active {
                Some(g) => Some(*g),
                None => None,
            },
            match overlay {
                Some(o) => Some(*o),
                None => None,
            },
            req,
            r,
        ),
{
    let engine = match active {
        Some(g) => g,
        None => {
            return Err(ApiError::NotIndexed);
        },
    };
    let base = dispatch_query_on_engine(engine, req);
    let ghost b0 = base;
    let r = match overlay {
        Some(o) => match base {
            Ok(QueryResponse::Subgraph(sg)) => Ok(QueryResponse::Subgraph(attach_overlay(sg, o))),
            b => b,
        },
        None => base,
    };
    assert(dispatched(*engine, req, b0));
    assert(overlay_applied(
        match overlay {
            Some(o) => Some(*o),
            None => None,
        },
        b0,
        r,
    ));
    assert(match active {
        Some(g) => Some(*g),
        None => None,
    } == Some(*engine));
    proof {
        let act = match active {
            Some(g) => Some(*g),
            None => None,
        };
        assert(dispatched(act->0, req, b0));
    }
    r
}

/// `POST /overlay`: what an overlay holds.
pub struct OverlayStatusResponse {
    pub status: &'static str,
    pub path_count: usize,
    pub node_hit_count: usize,
    pub observation_count: usize,
}

/// The status reported for a newly set overlay.
pub fn overlay_status(o: &RuntimeOverlay) -> (r: OverlayStatusResponse)
    requires
        o.node_hits@.len() + o.paths@.len() <= usize::MAX,
    ensures
        r.status@ == "ok"@,
        r.path_count == o.paths@.len(),
        r.node_hit_count == o.node_hits@.len(),
        r.observation_count == o.node_hits@.len() + o.paths@.len(),
{
    OverlayStatusResponse {
        status: "ok",
        path_count: o.paths.len(),
        node_hit_count: o.node_hits.len(),
        observation_count: o.node_hits.len() + o.paths.len(),
    }
}

/// An indexing job.
pub struct IndexJob {
    pub request: IndexRequest,
    pub status: JobStatus,
    pub error: Option<String>,
    pub file_count: Option<usize>,
}

impl IndexJob {
    /// A job just accepted: queued.
    pub fn queued(request: IndexRequest) -> (j: IndexJob)
        ensures
            j.request == request,
            j.status == JobStatus::Queued,
            j.error is None,
            j.file_count is None,
    {
        IndexJob { request, status: JobStatus::Queued, error: None, file_count: None }
    }

    /// The job's worker has started.
    pub fn start(&mut self)
        ensures
            final(self).request == old(self).request,
            final(self).status == JobStatus::Running,
            final(self).error == old(self).error,
            final(self).file_count == old(self).file_count,
    {
        self.status = JobStatus::Running;
    }

    /// The job's worker has finished: with the number of files indexed, or
    /// with an error message.
    pub fn finish(&mut self, outcome: Result<usize, String>)
        ensures
            final(self).request == old(self).request,
            match outcome {
                Ok(n) => final(self).status == JobStatus::Complete && final(self).file_count == Some(n)
                    && final(self).error == old(self).error,
                Err(m) => final(self).status == JobStatus::Failed && final(self).error == Some(m)
                    && final(self).file_count == old(self).file_count,
            },
    {
        match outcome {
            Ok(n) => {
                self.status = JobStatus::Complete;
                self.file_count = Some(n);
            },
            Err(m) => {
                self.status = JobStatus::Failed;
                self.error = Some(m);
            },
        }
    }

    /// `GET /index/{job_id}`: the job's state.
    pub fn status_response(&self, job_id: &str) -> (r: IndexStatusResponse)
        ensures
            r.job_id@ == job_id@,
            r.status == self.status,
            r.path == Some(self.request.path),
            r.error == self.error,
            r.file_count == self.file_count,
    {
        IndexStatusResponse {
            job_id: job_id.to_owned(),
            status: self.status,
            path: Some(self.request.path.clone()),
            error: match &self.error {
                Some(e) => Some(e.clone()),
                None => None,
            },
            file_count: self.file_count,
        }
    }
}

/// `GET /health`: the server is up, at version `version`.
pub fn health_response(version: &'static str) -> (r: HealthResponse)
    ensures
        r.status@ == "ok"@,
        r.version == version,
{
    HealthResponse { status: "ok", version }
}

/// Whether an index request keeps its index in the hosted registry: as the
/// request says, else whenever a registry is configured.
pub fn uses_hosted_registry(persist: Option<bool>, registry_configured: bool) -> (b: bool)
    ensures
        b == or_default(persist, registry_configured),
{
    match persist {
        Some(p) => p,
        None => registry_configured,
    }
}

/// The repository id of an index request: the one it names, else the one
/// derived from the repository's path.
pub fn index_repo_id(repo_id: &Option<String>, path: &str) -> (r: String)
    ensures
        match repo_id {
            Some(id) => r@ == id@,
            None => r@ == match crate::hosted::path_file_name(path@) {
                Some(n) => crate::hosted::sanitized(n),
                None => "repo"@,
            },
        },
{
    match repo_id {
        Some(id) => id.clone(),
        None => crate::hosted::default_repo_id(path),
    }
}

/// The message of an index request that asks to persist without a registry.
pub fn persist_without_registry() -> (m: String)
    ensures
        m@ == "persist requested but hosted store not configured"@,
{
    "persist requested but hosted store not configured".to_owned()
}

/// The hosted registry, or the bad request of a server that has none.
pub fn require_registry<T>(registry: Option<T>) -> (r: Result<T, ApiError>)
    ensures
        match registry {
            Some(h) => r == Ok::<T, ApiError>(h),
            None => bad_request(r, "hosted registry not enabled"@),
        },
{
    match registry {
        Some(h) => Ok(h),
        None => Err(ApiError::BadRequest("hosted registry not enabled".to_owned())),
    }
}

/// The active index, or `NotIndexed`.
pub fn require_active<T>(active: Option<T>) -> (r: Result<T, ApiError>)
    ensures
        match active {
            Some(a) => r == Ok::<T, ApiError>(a),
            None => r == Err::<T, ApiError>(ApiError::NotIndexed),
        },
{
    match active {
        Some(a) => Ok(a),
        None => Err(ApiError::NotIndexed),
    }
}

/// `GET /capabilities` asks about the active repository: its path must be
/// the one requested.
pub fn check_active_repo(active_path: &str, requested: &str) -> (r: Result<(), ApiError>)
    ensures
        active_path@ == requested@ ==> r is Ok,
        active_path@ != requested@ ==> r == Err::<(), ApiError>(ApiError::RepoMismatch),
{
    if str_eq(active_path, requested) {
        Ok(())
    } else {
        Err(ApiError::RepoMismatch)
    }
}

} // verus!
