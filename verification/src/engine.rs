//! Queries over an indexed graph: neighbours, blast radius, entry points,
//! traces and scoped subgraphs.
use vstd::prelude::*;
use crate::model::{Capabilities, Dup, EdgeKind, GraphEdge, GraphNode, NodeKind, symbol_id, symbol_id_text};
use crate::store::{GraphStore, node_id_differs, unique_node_ids, unique_edge_ids, kind_admits, lemma_filter_step, upsert_node, lemma_filter_unique_nodes};
use crate::order::{KeyPart, KeyView, key_view, key_views, key_order, stably_sorted, sort_by_keys, is_sort_permutation,
    permuted, sorts_before, lemma_key_order, lemma_key_order_zero, lemma_stably_sorted_elements,
    lemma_stably_sorted_order};
use crate::text::{chars_of, str_eq, concat, text_order, is_prefix, trim_char, trim_char_chars, starts_with, seq_eq, string_of};
use crate::overlay::SubgraphOverlay;

verus! {

/// Why a query could not be answered.
#[derive(Debug)]
pub enum EngineError {
    /// The index could not be built or read.
    Indexer(crate::model::IndexError),
    /// No node has the id.
    NotFound(String),
}

impl EngineError {
    /// The error as a sentence.
    pub fn message(&self) -> (r: String)
        ensures
            match self {
                EngineError::Indexer(e) => r@ == e.message_text(),
                EngineError::NotFound(id) => r@ == "node not found: "@ + id@,
            },
    {
        match self {
            EngineError::Indexer(e) => e.message(),
            EngineError::NotFound(id) => concat("node not found: ", id.as_str()),
        }
    }
}

/// A node next to a queried node, with the edge that links them.
pub struct Neighbor {
    pub node: GraphNode,
    pub edge: GraphEdge,
}

impl Dup for Neighbor {
    fn dup(&self) -> (r: Self) {
        Neighbor { node: self.node.dup(), edge: self.edge.dup() }
    }
}

/// The node with id `id` among `rows`, the last such row.
pub open spec fn find_node(rows: Seq<GraphNode>, id: Seq<char>) -> Option<GraphNode>
    decreases rows.len(),
{
    if rows.len() == 0 {
        None
    } else if rows.last().id@ == id {
        Some(rows.last())
    } else {
        find_node(rows.drop_last(), id)
    }
}

pub proof fn lemma_find_node(rows: Seq<GraphNode>, id: Seq<char>)
    requires
        unique_node_ids(rows),
    ensures
        match find_node(rows, id) {
            Some(n) => rows.contains(n) && n.id@ == id,
            None => forall|i: int| 0 <= i < rows.len() ==> #[trigger] rows[i].id@ != id,
        },
        forall|n: GraphNode| rows.contains(n) && n.id@ == id ==> find_node(rows, id) == Some(n),
    decreases rows.len(),
{
    if rows.len() > 0 {
        let d = rows.drop_last();
        assert(unique_node_ids(d));
        lemma_find_node(d, id);
        assert forall|n: GraphNode| rows.contains(n) && n.id@ == id implies find_node(rows, id) == Some(n) by {
            let k = choose|k: int| 0 <= k < rows.len() && rows[k] == n;
            if k < rows.len() - 1 {
                assert(d[k] == n);
                assert(d.contains(n));
            }
        }
        if rows.last().id@ != id {
            match find_node(d, id) {
                Some(n) => {
                    let k = choose|k: int| 0 <= k < d.len() && d[k] == n;
                    assert(rows[k] == n);
                },
                None => {
                    assert forall|i: int| 0 <= i < rows.len() implies #[trigger] rows[i].id@ != id by {
                        if i < rows.len() - 1 {
                            assert(d[i] == rows[i]);
                        }
                    }
                },
            }
        } else {
            assert(rows[rows.len() - 1] == rows.last());
        }
    }
}

/// Each edge paired with the node at its source, when that node exists.
pub open spec fn join_sources(rows: Seq<GraphNode>, es: Seq<GraphEdge>) -> Seq<Neighbor>
    decreases es.len(),
{
    if es.len() == 0 {
        Seq::empty()
    } else {
        let rest = join_sources(rows, es.drop_last());
        match find_node(rows, es.last().from_id@) {
            Some(n) => rest.push(Neighbor { node: n, edge: es.last() }),
            None => rest,
        }
    }
}

/// Each edge paired with the node at its target, when that node exists.
pub open spec fn join_targets(rows: Seq<GraphNode>, es: Seq<GraphEdge>) -> Seq<Neighbor>
    decreases es.len(),
{
    if es.len() == 0 {
        Seq::empty()
    } else {
        let rest = join_targets(rows, es.drop_last());
        match find_node(rows, es.last().to_id@) {
            Some(n) => rest.push(Neighbor { node: n, edge: es.last() }),
            None => rest,
        }
    }
}

/// Confidence in thousandths, absent counted as zero.
pub open spec fn confidence_of(e: GraphEdge) -> nat {
    match e.confidence_milli {
        Some(c) => c as nat,
        None => 0,
    }
}

/// Neighbour order: higher confidence first, then node id.
pub open spec fn neighbor_key(nb: Neighbor) -> Seq<KeyView> {
    seq![KeyView::Num((0xFFFF - confidence_of(nb.edge)) as nat), KeyView::Text(nb.node.id@)]
}

pub open spec fn neighbor_keys(nbs: Seq<Neighbor>) -> Seq<Seq<KeyView>> {
    nbs.map_values(|nb: Neighbor| neighbor_key(nb))
}

/// The edges of `kind` entering `id`, in row order.
pub open spec fn edges_into(edges: Seq<GraphEdge>, id: Seq<char>, kind: EdgeKind) -> Seq<GraphEdge> {
    edges.filter(into_pred(id, kind))
}

pub open spec fn into_pred(id: Seq<char>, kind: EdgeKind) -> spec_fn(GraphEdge) -> bool {
    |e: GraphEdge| e.to_id@ == id && kind_admits(Some(kind), e.kind)
}

pub open spec fn out_of_pred(id: Seq<char>, kind: EdgeKind) -> spec_fn(GraphEdge) -> bool {
    |e: GraphEdge| e.from_id@ == id && kind_admits(Some(kind), e.kind)
}

/// The edges of `kind` leaving `id`, in row order.
pub open spec fn edges_out_of(edges: Seq<GraphEdge>, id: Seq<char>, kind: EdgeKind) -> Seq<GraphEdge> {
    edges.filter(out_of_pred(id, kind))
}

/// `e` is a `CALLS` edge from `x` into one of `ids`.
pub open spec fn is_call_link(e: GraphEdge, x: Seq<char>, ids: Set<Seq<char>>) -> bool {
    e.kind == EdgeKind::Calls && e.from_id@ == x && ids.contains(e.to_id@)
}

/// The nodes that call into `ids` through a `CALLS` edge.
pub open spec fn callers_of_set(nodes: Seq<GraphNode>, edges: Seq<GraphEdge>, ids: Set<Seq<char>>) -> Set<Seq<char>> {
    Set::new(|x: Seq<char>| find_node(nodes, x) is Some && exists|j: int| 0 <= j < edges.len() && #[trigger] is_call_link(edges[j], x, ids))
}

/// `root` and the nodes that reach it through at most `k` `CALLS` edges,
/// every step from an existing node.
pub open spec fn reach_callers(nodes: Seq<GraphNode>, edges: Seq<GraphEdge>, root: Seq<char>, k: nat) -> Set<Seq<char>>
    decreases k,
{
    if k == 0 {
        set![root]
    } else {
        let r = reach_callers(nodes, edges, root, (k - 1) as nat);
        r + callers_of_set(nodes, edges, r)
    }
}

/// The nodes a change to `root` can reach within `depth` reverse calls, `root` excluded.
pub open spec fn impacted_rows(nodes: Seq<GraphNode>, edges: Seq<GraphEdge>, root: Seq<char>, depth: nat) -> Seq<GraphNode> {
    nodes.filter(impacted_pred(nodes, edges, root, depth))
}

pub open spec fn impacted_pred(nodes: Seq<GraphNode>, edges: Seq<GraphEdge>, root: Seq<char>, depth: nat) -> spec_fn(GraphNode) -> bool {
    |n: GraphNode| reach_callers(nodes, edges, root, depth).contains(n.id@) && n.id@ != root
}

/// Order by node id.
pub open spec fn id_key(n: GraphNode) -> Seq<KeyView> {
    seq![KeyView::Text(n.id@)]
}

pub open spec fn id_keys(rows: Seq<GraphNode>) -> Seq<Seq<KeyView>> {
    rows.map_values(|n: GraphNode| id_key(n))
}

/// The texts held by a sequence of strings, as a set.
pub open spec fn text_set(v: Seq<String>) -> Set<Seq<char>> {
    Set::new(|x: Seq<char>| exists|i: int| 0 <= i < v.len() && #[trigger] v[i]@ == x)
}

proof fn lemma_reach_stable(nodes: Seq<GraphNode>, edges: Seq<GraphEdge>, root: Seq<char>, k: nat, j: nat)
    requires
        reach_callers(nodes, edges, root, k + 1) == reach_callers(nodes, edges, root, k),
        k <= j,
    ensures
        reach_callers(nodes, edges, root, j) == reach_callers(nodes, edges, root, k),
    decreases j,
{
    if j > k {
        lemma_reach_stable(nodes, edges, root, k, (j - 1) as nat);
    }
}

fn contains_text(v: &Vec<String>, t: &str) -> (b: bool)
    ensures
        b == text_set(v@).contains(t@),
{
    let mut i: usize = 0;
    while i < v.len()
        invariant
            i <= v.len(),
            forall|k: int| 0 <= k < i ==> v@[k]@ != t@,
        decreases v.len() - i,
    {
        if str_eq(v[i].as_str(), t) {
            assert(v@[i as int]@ == t@);
            return true;
        }
        i += 1;
    }
    false
}

/// The ids of `rows`, as a set.
pub open spec fn id_set(rows: Seq<GraphNode>) -> Set<Seq<char>> {
    Set::new(|x: Seq<char>| exists|i: int| 0 <= i < rows.len() && #[trigger] rows[i].id@ == x)
}

/// `acc` followed by the candidates of `kind` whose id it does not hold yet, in order.
pub open spec fn append_unseen(acc: Seq<GraphNode>, cands: Seq<GraphNode>, kind: NodeKind) -> Seq<GraphNode>
    decreases cands.len(),
{
    if cands.len() == 0 {
        acc
    } else {
        let a = append_unseen(acc, cands.drop_last(), kind);
        let c = cands.last();
        if c.kind == kind && !id_set(a).contains(c.id@) {
            a.push(c)
        } else {
            a
        }
    }
}

/// Order of entry points: path, then line (absent as 0).
pub open spec fn entry_key(n: GraphNode) -> Seq<KeyView> {
    seq![KeyView::Text(n.relative_path@), KeyView::Num(match n.line { Some(l) => l as nat, None => 0 })]
}

pub open spec fn entry_keys(rows: Seq<GraphNode>) -> Seq<Seq<KeyView>> {
    rows.map_values(|n: GraphNode| entry_key(n))
}

/// `v` is the stable sort by path and line of the uncalled symbols `u`, then
/// the new functions among `hits`, then the new UI elements among `all`.
pub open spec fn entry_points_from(u: Seq<GraphNode>, hits: Seq<GraphNode>, all: Seq<GraphNode>, v: Seq<GraphNode>) -> bool {
    let cat = append_unseen(append_unseen(u, hits, NodeKind::Function), all, NodeKind::UiElement);
    stably_sorted(cat, entry_keys(cat), v)
}

/// One step of a trace: the node, the edge that led to it, and the other
/// nodes it could have continued to.
pub struct TraceHop {
    pub node: GraphNode,
    pub via: Option<GraphEdge>,
    pub siblings: Vec<GraphNode>,
}

pub struct TraceResult {
    pub hops: Vec<TraceHop>,
}

/// The edges a trace follows out of `id`: triggers, branches, calls, fetches, handlers.
pub open spec fn trace_edges(edges: Seq<GraphEdge>, id: Seq<char>) -> Seq<GraphEdge> {
    edges_out_of(edges, id, EdgeKind::Triggers) + edges_out_of(edges, id, EdgeKind::BranchesTo)
        + edges_out_of(edges, id, EdgeKind::Calls) + edges_out_of(edges, id, EdgeKind::Fetches)
        + edges_out_of(edges, id, EdgeKind::Handles)
}

/// Order of trace candidates: branches first, then higher confidence, then id.
pub open spec fn rank_key(nb: Neighbor) -> Seq<KeyView> {
    seq![
        KeyView::Num(if nb.node.kind == NodeKind::Branch { 0 } else { 1 }),
        KeyView::Num((0xFFFF - confidence_of(nb.edge)) as nat),
        KeyView::Text(nb.node.id@),
    ]
}

pub open spec fn rank_keys(nbs: Seq<Neighbor>) -> Seq<Seq<KeyView>> {
    nbs.map_values(|nb: Neighbor| rank_key(nb))
}

/// The candidates of a trace step out of `id`, unordered.
pub open spec fn trace_candidates(nodes: Seq<GraphNode>, edges: Seq<GraphEdge>, id: Seq<char>) -> Seq<Neighbor> {
    join_targets(nodes, trace_edges(edges, id))
}

/// The first edge of `es` entering `id`.
pub open spec fn first_edge_to(es: Seq<GraphEdge>, id: Seq<char>) -> Option<GraphEdge>
    decreases es.len(),
{
    if es.len() == 0 {
        None
    } else if es[0].to_id@ == id {
        Some(es[0])
    } else {
        first_edge_to(es.drop_first(), id)
    }
}

/// The nodes of the candidates after the chosen one.
pub open spec fn siblings_of(ranked: Seq<Neighbor>) -> Seq<GraphNode> {
    if ranked.len() == 0 {
        Seq::empty()
    } else {
        ranked.skip(1).map_values(|nb: Neighbor| nb.node)
    }
}

/// Hop `i` of a trace visiting `ids`, with ordered candidates `ranks`.
pub open spec fn hop_ok(
    nodes: Seq<GraphNode>,
    edges: Seq<GraphEdge>,
    hops: Seq<TraceHop>,
    ids: Seq<Seq<char>>,
    ranks: Seq<Seq<Neighbor>>,
    i: int,
) -> bool {
    &&& find_node(nodes, ids[i]) == Some(hops[i].node)
    &&& stably_sorted(trace_candidates(nodes, edges, ids[i]), rank_keys(trace_candidates(nodes, edges, ids[i])), ranks[i])
    &&& hops[i].siblings@ == siblings_of(ranks[i])
    &&& hops[i].via == (if i == 0 { None } else { first_edge_to(trace_edges(edges, ids[i - 1]), ids[i]) })
}

/// Hop `i + 1` follows the best candidate of hop `i`, to a node not visited before.
pub open spec fn link_ok(ids: Seq<Seq<char>>, ranks: Seq<Seq<Neighbor>>, i: int) -> bool {
    &&& ranks[i].len() > 0
    &&& ids[i + 1] == ranks[i][0].edge.to_id@
    &&& forall|k: int| 0 <= k <= i ==> #[trigger] ids[k] != ids[i + 1]
}

/// `hops` is the trace from `root` of at most `max_depth` hops: each hop moves
/// to the best-ranked candidate of the previous one, and the trace ends at the
/// depth limit, at a node without candidates, or before revisiting a node.
pub open spec fn trace_shape(
    nodes: Seq<GraphNode>,
    edges: Seq<GraphEdge>,
    root: Seq<char>,
    max_depth: nat,
    hops: Seq<TraceHop>,
    ids: Seq<Seq<char>>,
    ranks: Seq<Seq<Neighbor>>,
) -> bool {
    let n = hops.len();
    &&& n <= max_depth
    &&& ids.len() == n && ranks.len() == n
    &&& max_depth > 0 ==> n > 0
    &&& n > 0 ==> ids[0] == root
    &&& forall|i: int| 0 <= i < n ==> #[trigger] hop_ok(nodes, edges, hops, ids, ranks, i)
    &&& forall|i: int| 0 <= i < n - 1 ==> #[trigger] link_ok(ids, ranks, i)
    &&& (n > 0 && n < max_depth) ==> (ranks[n - 1].len() == 0 || exists|k: int|
        0 <= k < n && ids[k] == ranks[n - 1][0].edge.to_id@)
}

proof fn lemma_join_targets_found(rows: Seq<GraphNode>, es: Seq<GraphEdge>, i: int)
    requires
        0 <= i < join_targets(rows, es).len(),
    ensures
        find_node(rows, join_targets(rows, es)[i].edge.to_id@) == Some(join_targets(rows, es)[i].node),
    decreases es.len(),
{
    if es.len() > 0 {
        let rest = join_targets(rows, es.drop_last());
        if i < rest.len() {
            lemma_join_targets_found(rows, es.drop_last(), i);
        }
    }
}

/// `hops` is a trace from `root` (see `trace_shape`).
pub open spec fn is_trace(nodes: Seq<GraphNode>, edges: Seq<GraphEdge>, root: Seq<char>, max_depth: nat, hops: Seq<TraceHop>) -> bool {
    exists|ids: Seq<Seq<char>>, ranks: Seq<Seq<Neighbor>>| trace_shape(nodes, edges, root, max_depth, hops, ids, ranks)
}

/// Which side of a subgraph's boundary an outside node is on.
#[derive(Clone, Copy, PartialEq, Eq, Structural)]
pub enum BoundaryDirection {
    /// An outside node with an edge into the subgraph.
    Ingress,
    /// An outside node that an edge of the subgraph enters.
    Egress,
}

/// An outside node shown at the boundary of a subgraph.
pub struct GhostNode {
    pub id: String,
    pub name: String,
    pub direction: BoundaryDirection,
    pub via: GraphEdge,
}

impl Dup for GhostNode {
    fn dup(&self) -> (r: Self) {
        GhostNode { id: self.id.clone(), name: self.name.clone(), direction: self.direction, via: self.via.dup() }
    }
}

/// The nodes and edges within a scope, with boundary ghosts and an optional overlay.
pub struct Subgraph {
    pub nodes: Vec<GraphNode>,
    pub edges: Vec<GraphEdge>,
    pub ghosts: Vec<GhostNode>,
    pub overlay: Option<SubgraphOverlay>,
}

/// The path that places a node in a scope: its file for a symbol, else its own path.
pub open spec fn scope_path(n: GraphNode) -> Seq<char> {
    match n.parent_file {
        Some(p) => p@,
        None => n.relative_path@,
    }
}

/// `n` lies in `scope`: everything is in the empty or `.` scope; otherwise the
/// scope path is the scope itself or below it.
pub open spec fn in_scope(n: GraphNode, scope: Seq<char>) -> bool {
    scope.len() == 0 || scope == "."@ || scope_path(n) == scope || is_prefix(scope + seq!['/'], scope_path(n))
}

/// The node with id `id` exists and lies in `scope`.
pub open spec fn id_in_scope(nodes: Seq<GraphNode>, id: Seq<char>, scope: Seq<char>) -> bool {
    match find_node(nodes, id) {
        Some(n) => in_scope(n, scope),
        None => false,
    }
}

pub open spec fn ghost_prefix(d: BoundaryDirection) -> Seq<char> {
    match d {
        BoundaryDirection::Egress => "ghost:egress:"@,
        BoundaryDirection::Ingress => "ghost:ingress:"@,
    }
}

/// The boundary crossings of `es` (in order): the direction, the outside node
/// (when it exists) and the edge.
pub open spec fn boundary_of(nodes: Seq<GraphNode>, es: Seq<GraphEdge>, scope: Seq<char>) -> Seq<(BoundaryDirection, GraphNode, GraphEdge)>
    decreases es.len(),
{
    if es.len() == 0 {
        Seq::empty()
    } else {
        let rest = boundary_of(nodes, es.drop_last(), scope);
        let e = es.last();
        let fi = id_in_scope(nodes, e.from_id@, scope);
        let ti = id_in_scope(nodes, e.to_id@, scope);
        if fi && !ti {
            match find_node(nodes, e.to_id@) {
                Some(x) => rest.push((BoundaryDirection::Egress, x, e)),
                None => rest,
            }
        } else if !fi && ti {
            match find_node(nodes, e.from_id@) {
                Some(x) => rest.push((BoundaryDirection::Ingress, x, e)),
                None => rest,
            }
        } else {
            rest
        }
    }
}

pub open spec fn boundary_key(b: (BoundaryDirection, GraphNode, GraphEdge)) -> Seq<KeyView> {
    seq![KeyView::Text(ghost_prefix(b.0) + b.1.id@)]
}

pub open spec fn boundary_keys(bs: Seq<(BoundaryDirection, GraphNode, GraphEdge)>) -> Seq<Seq<KeyView>> {
    bs.map_values(|b: (BoundaryDirection, GraphNode, GraphEdge)| boundary_key(b))
}

/// The ghost shown for a boundary crossing.
pub open spec fn ghost_is(g: GhostNode, b: (BoundaryDirection, GraphNode, GraphEdge)) -> bool {
    &&& g.id@ == ghost_prefix(b.0) + b.1.id@
    &&& g.name@ == b.1.name@
    &&& g.direction == b.0
    &&& g.via == b.2
}

/// The ghosts are the boundary crossings ordered by ghost id.
pub open spec fn ghosts_ok(ghosts: Seq<GhostNode>, crossings: Seq<(BoundaryDirection, GraphNode, GraphEdge)>) -> bool {
    exists|sorted: Seq<(BoundaryDirection, GraphNode, GraphEdge)>|
        #[trigger] stably_sorted(crossings, boundary_keys(crossings), sorted) && ghosts.len() == sorted.len()
            && forall|i: int| 0 <= i < ghosts.len() ==> ghost_is(#[trigger] ghosts[i], sorted[i])
}

/// The subgraph of `scope` over the ordered node and edge lists `all_nodes`, `all_edges`.
pub open spec fn subgraph_of(
    nodes: Seq<GraphNode>,
    all_nodes: Seq<GraphNode>,
    all_edges: Seq<GraphEdge>,
    scope: Seq<char>,
    include_boundary: bool,
    g: Subgraph,
) -> bool {
    &&& g.nodes@ == all_nodes.filter(|n: GraphNode| in_scope(n, scope))
    &&& g.edges@ == all_edges.filter(|e: GraphEdge| id_in_scope(nodes, e.from_id@, scope) && id_in_scope(nodes, e.to_id@, scope))
    &&& include_boundary ==> ghosts_ok(g.ghosts@, boundary_of(nodes, all_edges, scope))
    &&& !include_boundary ==> g.ghosts@.len() == 0
    &&& g.overlay is None
}

/// Query interface over an indexed graph.
pub struct GraphEngine {
    store: GraphStore,
}

/// What `search` gives.
pub open spec fn search_outcome(g: GraphEngine, query: Seq<char>, limit: usize, r: Result<Vec<GraphNode>, EngineError>) -> bool {
    match r {
        Ok(v) => exists|sorted: Seq<GraphNode>|
            #[trigger] stably_sorted(
                crate::store::search_hits(g.nodes(), query),
                crate::store::search_keys(crate::store::search_hits(g.nodes(), query), query),
                sorted,
            ) && v@ == sorted.take(crate::store::sql_limit(limit, sorted.len()) as int),
        Err(_) => false,
    }
}

/// What `callers` gives.
pub open spec fn callers_outcome(g: GraphEngine, id: Seq<char>, r: Result<Vec<Neighbor>, EngineError>) -> bool {
    match r {
        Ok(v) => find_node(g.nodes(), id) is Some && stably_sorted(
            join_sources(g.nodes(), edges_into(g.edges(), id, EdgeKind::Calls)),
            neighbor_keys(join_sources(g.nodes(), edges_into(g.edges(), id, EdgeKind::Calls))),
            v@,
        ),
        Err(e) => find_node(g.nodes(), id) is None && (e matches EngineError::NotFound(s) && s@ == id),
    }
}

/// What `callees` gives.
pub open spec fn callees_outcome(g: GraphEngine, id: Seq<char>, r: Result<Vec<Neighbor>, EngineError>) -> bool {
    match r {
        Ok(v) => find_node(g.nodes(), id) is Some && stably_sorted(
            join_targets(g.nodes(), edges_out_of(g.edges(), id, EdgeKind::Calls)),
            neighbor_keys(join_targets(g.nodes(), edges_out_of(g.edges(), id, EdgeKind::Calls))),
            v@,
        ),
        Err(e) => find_node(g.nodes(), id) is None && (e matches EngineError::NotFound(s) && s@ == id),
    }
}

/// What `impact` gives.
pub open spec fn impact_outcome(g: GraphEngine, id: Seq<char>, depth: usize, r: Result<Vec<GraphNode>, EngineError>) -> bool {
    match r {
        Ok(v) => find_node(g.nodes(), id) is Some && stably_sorted(
            impacted_rows(g.nodes(), g.edges(), id, depth as nat),
            id_keys(impacted_rows(g.nodes(), g.edges(), id, depth as nat)),
            v@,
        ),
        Err(e) => find_node(g.nodes(), id) is None && (e matches EngineError::NotFound(s) && s@ == id),
    }
}

/// What `entry_points` gives.
pub open spec fn entry_points_outcome(g: GraphEngine, r: Result<Vec<GraphNode>, EngineError>) -> bool {
    match r {
        Ok(v) => exists|u: Seq<GraphNode>, sorted_hits: Seq<GraphNode>, all: Seq<GraphNode>|
            #![trigger stably_sorted(crate::store::uncalled_rows(g.nodes(), g.edges()), crate::store::path_line_keys(crate::store::uncalled_rows(g.nodes(), g.edges())), u), stably_sorted(crate::store::search_hits(g.nodes(), "main"@), crate::store::search_keys(crate::store::search_hits(g.nodes(), "main"@), "main"@), sorted_hits), stably_sorted(g.nodes(), crate::store::node_list_keys(g.nodes()), all)]
            stably_sorted(crate::store::uncalled_rows(g.nodes(), g.edges()), crate::store::path_line_keys(crate::store::uncalled_rows(g.nodes(), g.edges())), u)
            && stably_sorted(crate::store::search_hits(g.nodes(), "main"@), crate::store::search_keys(crate::store::search_hits(g.nodes(), "main"@), "main"@), sorted_hits)
            && stably_sorted(g.nodes(), crate::store::node_list_keys(g.nodes()), all)
            && entry_points_from(u, sorted_hits.take(crate::store::sql_limit(50, sorted_hits.len()) as int), all, v@),
        Err(_) => false,
    }
}

/// What `trace` gives.
pub open spec fn trace_outcome(g: GraphEngine, root_id: Seq<char>, max_depth: usize, r: Result<TraceResult, EngineError>) -> bool {
    match r {
        Ok(t) => find_node(g.nodes(), root_id) is Some && is_trace(g.nodes(), g.edges(), root_id, max_depth as nat, t.hops@),
        Err(e) => find_node(g.nodes(), root_id) is None && (e matches EngineError::NotFound(s) && s@ == root_id),
    }
}

/// What `subgraph` gives.
pub open spec fn subgraph_outcome(g: GraphEngine, scope: Seq<char>, include_boundary: bool, r: Result<Subgraph, EngineError>) -> bool {
    match r {
        Ok(sg) => exists|all_nodes: Seq<GraphNode>, all_edges: Seq<GraphEdge>|
            #![trigger stably_sorted(g.nodes(), crate::store::node_list_keys(g.nodes()), all_nodes), stably_sorted(g.edges(), crate::store::edge_list_keys(g.edges()), all_edges)]
            stably_sorted(g.nodes(), crate::store::node_list_keys(g.nodes()), all_nodes)
            && stably_sorted(g.edges(), crate::store::edge_list_keys(g.edges()), all_edges)
            && subgraph_of(g.nodes(), all_nodes, all_edges, trim_char(scope, '/'), include_boundary, sg),
        Err(_) => false,
    }
}

impl GraphEngine {
    /// The node rows of the underlying store.
    pub closed spec fn nodes(&self) -> Seq<GraphNode> {
        self.store.node_rows()
    }

    /// The edge rows of the underlying store.
    pub closed spec fn edges(&self) -> Seq<GraphEdge> {
        self.store.edge_rows()
    }

    /// Ids are unique among nodes and among edges.
    pub open spec fn wf(&self) -> bool {
        unique_node_ids(self.nodes()) && unique_edge_ids(self.edges())
    }

    pub fn from_store(store: GraphStore) -> (r: Self)
        requires
            store.wf(),
        ensures
            r.wf(),
            r.nodes() == store.node_rows(),
            r.edges() == store.edge_rows(),
    {
        GraphEngine { store }
    }

    pub fn store(&self) -> (r: &GraphStore)
        ensures
            r.node_rows() == self.nodes(),
            r.edge_rows() == self.edges(),
    {
        &self.store
    }

    pub fn capabilities(&self) -> (r: Result<Capabilities, EngineError>)
        ensures
            match r {
                Ok(c) => crate::store::capabilities_of(self.nodes(), self.edges(), c.languages@),
                Err(_) => false,
            },
    {
        Ok(self.store.capabilities())
    }

    /// The node with id `id`, if any.
    pub fn get_node(&self, id: &str) -> (r: Result<Option<GraphNode>, EngineError>)
        requires
            self.wf(),
        ensures
            r == Ok::<Option<GraphNode>, EngineError>(find_node(self.nodes(), id@)),
    {
        Ok(self.lookup(id))
    }

    fn lookup(&self, id: &str) -> (r: Option<GraphNode>)
        requires
            self.wf(),
        ensures
            r == find_node(self.nodes(), id@),
    {
        proof {
            lemma_find_node(self.nodes(), id@);
        }
        let r = self.store.get_node(id);
        proof {
            if r is None {
                {
                    if find_node(self.nodes(), id@) is Some {
                        let n = find_node(self.nodes(), id@)->0;
                        let k = choose|k: int| 0 <= k < self.nodes().len() && self.nodes()[k] == n;
                        assert(self.nodes()[k].id@ != id@);
                    }
                }
            }
        }
        r
    }

    /// The node with id `id`, or `NotFound`.
    pub fn require_node(&self, id: &str) -> (r: Result<GraphNode, EngineError>)
        requires
            self.wf(),
        ensures
            match r {
                Ok(n) => find_node(self.nodes(), id@) == Some(n),
                Err(e) => find_node(self.nodes(), id@) is None && (e matches EngineError::NotFound(s) && s@ == id@),
            },
    {
        match self.lookup(id) {
            Some(n) => Ok(n),
            None => Err(EngineError::NotFound(id.to_owned())),
        }
    }

    /// Fuzzy search over symbol names, paths and ids.
    pub fn search(&self, query: &str, limit: usize) -> (r: Result<Vec<GraphNode>, EngineError>)
        ensures
            search_outcome(*self, query@, limit, r),
    {
        let v = self.store.search_symbols(query, limit);
        proof {
            let sorted = choose|sorted: Seq<GraphNode>|
                #[trigger] stably_sorted(
                    crate::store::search_hits(self.store.node_rows(), query@),
                    crate::store::search_keys(crate::store::search_hits(self.store.node_rows(), query@), query@),
                    sorted,
                ) && v@ == sorted.take(crate::store::sql_limit(limit, sorted.len()) as int);
            assert(stably_sorted(
                crate::store::search_hits(self.nodes(), query@),
                crate::store::search_keys(crate::store::search_hits(self.nodes(), query@), query@),
                sorted,
            ));
        }
        Ok(v)
    }

    fn neighbors(&self, es: Vec<GraphEdge>, incoming: bool) -> (r: Vec<Neighbor>)
        requires
            self.wf(),
        ensures
            stably_sorted(
                if incoming { join_sources(self.nodes(), es@) } else { join_targets(self.nodes(), es@) },
                neighbor_keys(if incoming { join_sources(self.nodes(), es@) } else { join_targets(self.nodes(), es@) }),
                r@,
            ),
    {
        let ghost joined = if incoming { join_sources(self.nodes(), es@) } else { join_targets(self.nodes(), es@) };
        let mut out: Vec<Neighbor> = Vec::new();
        let mut keys: Vec<Vec<KeyPart>> = Vec::new();
        let mut i: usize = 0;
        while i < es.len()
            invariant
                i <= es.len(),
                self.wf(),
                out@ == (if incoming { join_sources(self.nodes(), es@.take(i as int)) } else { join_targets(self.nodes(), es@.take(i as int)) }),
                keys.len() == out.len(),
                forall|k: int| 0 <= k < keys.len() ==> key_view(#[trigger] keys@[k]@) == neighbor_key(out@[k]),
            decreases es.len() - i,
        {
            proof {
                assert(es@.take(i + 1).drop_last() =~= es@.take(i as int));
            }
            let e = &es[i];
            let other = if incoming {
                self.lookup(e.from_id.as_str())
            } else {
                self.lookup(e.to_id.as_str())
            };
            if let Some(n) = other {
                let conf: u16 = match e.confidence_milli {
                    Some(c) => c,
                    None => 0,
                };
                let mut key: Vec<KeyPart> = Vec::new();
                key.push(KeyPart::Num((0xFFFFu16 - conf) as u64));
                key.push(KeyPart::Text(chars_of(n.id.as_str())));
                let nb = Neighbor { node: n, edge: e.dup() };
                assert(key_view(key@) =~= neighbor_key(nb));
                out.push(nb);
                keys.push(key);
            }
            i += 1;
        }
        proof {
            assert(es@.take(es.len() as int) =~= es@);
            assert(key_views(keys@) =~= neighbor_keys(out@));
        }
        sort_by_keys(&out, &keys)
    }

    /// Symbols that call `id`, through `CALLS` edges; highest confidence first, then by id.
    pub fn callers(&self, id: &str) -> (r: Result<Vec<Neighbor>, EngineError>)
        requires
            self.wf(),
        ensures
            callers_outcome(*self, id@, r),
    {
        match self.require_node(id) {
            Err(e) => Err(e),
            Ok(_) => {
                let es = self.store.edges_to(id, Some(EdgeKind::Calls));
                assert(es@ =~= edges_into(self.edges(), id@, EdgeKind::Calls));
                Ok(self.neighbors(es, true))
            },
        }
    }

    /// Symbols that `id` calls, through `CALLS` edges; highest confidence first, then by id.
    pub fn callees(&self, id: &str) -> (r: Result<Vec<Neighbor>, EngineError>)
        requires
            self.wf(),
        ensures
            callees_outcome(*self, id@, r),
    {
        match self.require_node(id) {
            Err(e) => Err(e),
            Ok(_) => {
                let es = self.store.edges_from(id, Some(EdgeKind::Calls));
                assert(es@ =~= edges_out_of(self.edges(), id@, EdgeKind::Calls));
                Ok(self.neighbors(es, false))
            },
        }
    }

    /// Blast radius: the nodes that transitively call `id` within `depth`
    /// reverse `CALLS` steps (breadth first), `id` itself excluded, ordered by id.
    pub fn impact(&self, id: &str, depth: usize) -> (r: Result<Vec<GraphNode>, EngineError>)
        requires
            self.wf(),
        ensures
            impact_outcome(*self, id@, depth, r),
    {
        if let Err(e) = self.require_node(id) {
            return Err(e);
        }
        let ghost nodes = self.nodes();
        let ghost edges = self.edges();
        let all_edges = self.store.all_edges();
        let mut seen: Vec<String> = Vec::new();
        seen.push(id.to_owned());
        proof {
            assert(text_set(seen@) =~= set![id@]) by {
                assert(seen@[0]@ == id@);
            }
        }
        let mut d: usize = 0;
        while d < depth
            invariant_except_break
                d <= depth,
            invariant
                self.wf(),
                nodes == self.nodes(),
                edges == self.edges(),
                all_edges@ == edges,
                text_set(seen@) == reach_callers(nodes, edges, id@, d as nat),
            ensures
                text_set(seen@) == reach_callers(nodes, edges, id@, depth as nat),
            decreases depth - d,
        {
            let ghost s0 = text_set(seen@);
            let mut next: Vec<String> = crate::model::dup_vec(&seen);
            let mut grew = false;
            let mut j: usize = 0;
            while j < all_edges.len()
                invariant
                    j <= all_edges.len(),
                    self.wf(),
                    nodes == self.nodes(),
                    all_edges@ == edges,
                    s0 == text_set(seen@),
                    text_set(next@) == s0 + Set::new(
                        |x: Seq<char>| find_node(nodes, x) is Some && exists|k: int| 0 <= k < j && #[trigger] is_call_link(edges[k], x, s0),
                    ),
                    !grew ==> next@ == seen@,
                decreases all_edges.len() - j,
            {
                let e = &all_edges[j];
                let ghost before = text_set(next@);
                if e.kind == EdgeKind::Calls && contains_text(&seen, e.to_id.as_str())
                    && !contains_text(&next, e.from_id.as_str()) && self.lookup(e.from_id.as_str()).is_some() {
                    let ghost old_next = next@;
                    next.push(e.from_id.clone());
                    grew = true;
                    proof {
                        assert(text_set(next@) =~= before.insert(e.from_id@)) by {
                            assert(next@[old_next.len() as int] == e.from_id);
                            assert forall|x: Seq<char>| text_set(next@).contains(x) implies before.insert(e.from_id@).contains(x) by {
                                let i = choose|i: int| 0 <= i < next@.len() && #[trigger] next@[i]@ == x;
                                if i < old_next.len() {
                                    assert(old_next[i] == next@[i]);
                                }
                            }
                            assert forall|x: Seq<char>| before.contains(x) implies text_set(next@).contains(x) by {
                                let i = choose|i: int| 0 <= i < old_next.len() && #[trigger] old_next[i]@ == x;
                                assert(next@[i] == old_next[i]);
                            }
                        }
                    }
                }
                proof {
                    assert(text_set(next@) =~= s0 + Set::new(
                        |x: Seq<char>| find_node(nodes, x) is Some && exists|k: int| 0 <= k < j + 1 && #[trigger] is_call_link(edges[k], x, s0),
                    )) by {
                        assert forall|x: Seq<char>| (find_node(nodes, x) is Some && exists|k: int| 0 <= k < j + 1 && #[trigger] is_call_link(edges[k], x, s0))
                            implies text_set(next@).contains(x) by {
                            let k = choose|k: int| 0 <= k < j + 1 && #[trigger] is_call_link(edges[k], x, s0);
                            if k == j {
                                if !before.contains(x) {
                                    assert(is_call_link(edges[k], x, s0));
                                }
                            }
                        }
                        assert forall|x: Seq<char>| text_set(next@).contains(x) implies (s0 + Set::new(
                            |x: Seq<char>| find_node(nodes, x) is Some && exists|k: int| 0 <= k < j + 1 && #[trigger] is_call_link(edges[k], x, s0),
                        )).contains(x) by {
                            if !before.contains(x) {
                                assert(x == e.from_id@);
                                assert(is_call_link(edges[j as int], x, s0));
                            } else if !s0.contains(x) {
                                let k = choose|k: int| 0 <= k < j && #[trigger] is_call_link(edges[k], x, s0);
                                assert(is_call_link(edges[k], x, s0));
                            }
                        }
                    }
                }
                j += 1;
            }
            proof {
                let c = callers_of_set(nodes, edges, s0);
                assert(text_set(next@) =~= s0 + c);
                assert(reach_callers(nodes, edges, id@, (d + 1) as nat) == s0 + c);
            }
            if !grew {
                proof {
                    lemma_reach_stable(nodes, edges, id@, d as nat, depth as nat);
                }
                break;
            }
            seen = next;
            d += 1;
        }
        let all_nodes = self.store.all_nodes();
        let ghost pred = |n: GraphNode| reach_callers(nodes, edges, id@, depth as nat).contains(n.id@) && n.id@ != id@;
        let mut hits: Vec<GraphNode> = Vec::new();
        let mut keys: Vec<Vec<KeyPart>> = Vec::new();
        let mut i: usize = 0;
        while i < all_nodes.len()
            invariant
                i <= all_nodes.len(),
                all_nodes@ == nodes,
                text_set(seen@) == reach_callers(nodes, edges, id@, depth as nat),
                pred == (|n: GraphNode| reach_callers(nodes, edges, id@, depth as nat).contains(n.id@) && n.id@ != id@),
                hits@ == nodes.take(i as int).filter(pred),
                keys.len() == hits.len(),
                forall|k: int| 0 <= k < keys.len() ==> key_view(#[trigger] keys@[k]@) == id_key(hits@[k]),
            decreases all_nodes.len() - i,
        {
            proof {
                lemma_filter_step(nodes, pred, i as int);
            }
            let n = &all_nodes[i];
            if contains_text(&seen, n.id.as_str()) && !str_eq(n.id.as_str(), id) {
                let mut key: Vec<KeyPart> = Vec::new();
                key.push(KeyPart::Text(chars_of(n.id.as_str())));
                assert(key_view(key@) =~= id_key(*n));
                hits.push(n.dup());
                keys.push(key);
            }
            i += 1;
        }
        proof {
            assert(nodes.take(nodes.len() as int) =~= nodes);
            assert(key_views(keys@) =~= id_keys(hits@));
            assert(hits@ == impacted_rows(nodes, edges, id@, depth as nat));
        }
        Ok(sort_by_keys(&hits, &keys))
    }

    fn append_new(acc: &mut Vec<GraphNode>, cands: &Vec<GraphNode>, kind: NodeKind)
        ensures
            final(acc)@ == append_unseen(old(acc)@, cands@, kind),
    {
        let ghost a0 = acc@;
        let mut ids: Vec<String> = Vec::new();
        let mut k: usize = 0;
        while k < acc.len()
            invariant
                k <= acc.len(),
                acc@ == a0,
                ids.len() == k,
                forall|q: int| 0 <= q < k ==> #[trigger] ids@[q]@ == acc@[q].id@,
            decreases acc.len() - k,
        {
            ids.push(acc[k].id.clone());
            k += 1;
        }
        proof {
            assert(text_set(ids@) =~= id_set(acc@)) by {
                assert forall|x: Seq<char>| id_set(acc@).contains(x) implies text_set(ids@).contains(x) by {
                    let i = choose|i: int| 0 <= i < acc@.len() && #[trigger] acc@[i].id@ == x;
                    assert(ids@[i]@ == x);
                }
            }
        }
        let mut i: usize = 0;
        while i < cands.len()
            invariant
                i <= cands.len(),
                acc@ == append_unseen(a0, cands@.take(i as int), kind),
                text_set(ids@) == id_set(acc@),
            decreases cands.len() - i,
        {
            proof {
                assert(cands@.take(i + 1).drop_last() =~= cands@.take(i as int));
            }
            let c = &cands[i];
            if c.kind == kind && !contains_text(&ids, c.id.as_str()) {
                let ghost before = acc@;
                let ghost bids = ids@;
                acc.push(c.dup());
                ids.push(c.id.clone());
                proof {
                    assert(text_set(ids@) =~= id_set(acc@)) by {
                        assert forall|x: Seq<char>| id_set(acc@).contains(x) implies text_set(ids@).contains(x) by {
                            let j = choose|j: int| 0 <= j < acc@.len() && #[trigger] acc@[j].id@ == x;
                            if j < before.len() {
                                assert(id_set(before).contains(x));
                                let q = choose|q: int| 0 <= q < bids.len() && #[trigger] bids[q]@ == x;
                                assert(ids@[q] == bids[q]);
                            } else {
                                assert(ids@[bids.len() as int]@ == x);
                            }
                        }
                        assert forall|x: Seq<char>| text_set(ids@).contains(x) implies id_set(acc@).contains(x) by {
                            let j = choose|j: int| 0 <= j < ids@.len() && #[trigger] ids@[j]@ == x;
                            if j < bids.len() {
                                assert(text_set(bids).contains(x));
                                let q = choose|q: int| 0 <= q < before.len() && #[trigger] before[q].id@ == x;
                                assert(acc@[q] == before[q]);
                            } else {
                                assert(acc@[before.len() as int].id@ == x);
                            }
                        }
                    }
                }
            }
            i += 1;
        }
        proof {
            assert(cands@.take(cands.len() as int) =~= cands@);
        }
    }

    /// Entry points: functions and classes that nothing calls (by path and
    /// line), then functions found by searching `main` (first 50 hits), then
    /// UI elements (in `list_nodes` order), each id once; all ordered by path
    /// and line (absent line as 0), stably.
    pub fn entry_points(&self) -> (r: Result<Vec<GraphNode>, EngineError>)
        requires
            self.wf(),
        ensures
            entry_points_outcome(*self, r),
    {
        let mut roots = self.store.symbols_without_incoming_calls();
        let ghost u = roots@;
        let hits = self.store.search_symbols("main", 50);
        Self::append_new(&mut roots, &hits, NodeKind::Function);
        let all = self.store.list_nodes();
        Self::append_new(&mut roots, &all, NodeKind::UiElement);
        let mut keys: Vec<Vec<KeyPart>> = Vec::new();
        let mut i: usize = 0;
        while i < roots.len()
            invariant
                i <= roots.len(),
                keys.len() == i,
                forall|k: int| 0 <= k < i ==> key_view(#[trigger] keys@[k]@) == entry_key(roots@[k]),
            decreases roots.len() - i,
        {
            let n = &roots[i];
            let line: u64 = match n.line {
                Some(l) => l as u64,
                None => 0,
            };
            let mut key: Vec<KeyPart> = Vec::new();
            key.push(KeyPart::Text(chars_of(n.relative_path.as_str())));
            key.push(KeyPart::Num(line));
            assert(key_view(key@) =~= entry_key(*n));
            keys.push(key);
            i += 1;
        }
        proof {
            assert(key_views(keys@) =~= entry_keys(roots@));
            let sorted_hits = choose|sorted: Seq<GraphNode>|
                #[trigger] stably_sorted(
                    crate::store::search_hits(self.store.node_rows(), "main"@),
                    crate::store::search_keys(crate::store::search_hits(self.store.node_rows(), "main"@), "main"@),
                    sorted,
                ) && hits@ == sorted.take(crate::store::sql_limit(50, sorted.len()) as int);
            assert(stably_sorted(crate::store::search_hits(self.nodes(), "main"@), crate::store::search_keys(crate::store::search_hits(self.nodes(), "main"@), "main"@), sorted_hits));
            assert(stably_sorted(self.nodes(), crate::store::node_list_keys(self.nodes()), all@));
            assert(stably_sorted(crate::store::uncalled_rows(self.nodes(), self.edges()), crate::store::path_line_keys(crate::store::uncalled_rows(self.nodes(), self.edges())), u));
        }
        Ok(sort_by_keys(&roots, &keys))
    }

    fn trace_outgoing_edges(&self, id: &str) -> (r: Vec<GraphEdge>)
        ensures
            r@ == trace_edges(self.edges(), id@),
    {
        let mut out = self.store.edges_from(id, Some(EdgeKind::Triggers));
        let ghost a = out@;
        let mut b = self.store.edges_from(id, Some(EdgeKind::BranchesTo));
        let ghost bb = b@;
        out.append(&mut b);
        let mut c = self.store.edges_from(id, Some(EdgeKind::Calls));
        let ghost cc = c@;
        out.append(&mut c);
        let mut d = self.store.edges_from(id, Some(EdgeKind::Fetches));
        let ghost dd = d@;
        out.append(&mut d);
        let mut e = self.store.edges_from(id, Some(EdgeKind::Handles));
        let ghost ee = e@;
        out.append(&mut e);
        proof {
            assert(a =~= edges_out_of(self.edges(), id@, EdgeKind::Triggers));
            assert(bb =~= edges_out_of(self.edges(), id@, EdgeKind::BranchesTo));
            assert(cc =~= edges_out_of(self.edges(), id@, EdgeKind::Calls));
            assert(dd =~= edges_out_of(self.edges(), id@, EdgeKind::Fetches));
            assert(ee =~= edges_out_of(self.edges(), id@, EdgeKind::Handles));
        }
        out
    }

    fn first_to(es: &Vec<GraphEdge>, id: &str) -> (r: Option<GraphEdge>)
        ensures
            r == first_edge_to(es@, id@),
    {
        let mut i: usize = 0;
        assert(es@.skip(0) =~= es@);
        while i < es.len()
            invariant
                i <= es.len(),
                first_edge_to(es@, id@) == first_edge_to(es@.skip(i as int), id@),
            decreases es.len() - i,
        {
            assert(es@.skip(i as int)[0] == es@[i as int]);
            if str_eq(es[i].to_id.as_str(), id) {
                return Some(es[i].dup());
            }
            assert(es@.skip(i as int).drop_first() =~= es@.skip(i + 1));
            i += 1;
        }
        None
    }

    fn ranked_candidates(&self, id: &str) -> (r: Vec<Neighbor>)
        requires
            self.wf(),
        ensures
            stably_sorted(trace_candidates(self.nodes(), self.edges(), id@), rank_keys(trace_candidates(self.nodes(), self.edges(), id@)), r@),
    {
        let es = self.trace_outgoing_edges(id);
        let mut cands: Vec<Neighbor> = Vec::new();
        let mut keys: Vec<Vec<KeyPart>> = Vec::new();
        let mut i: usize = 0;
        while i < es.len()
            invariant
                i <= es.len(),
                self.wf(),
                cands@ == join_targets(self.nodes(), es@.take(i as int)),
                keys.len() == cands.len(),
                forall|k: int| 0 <= k < keys.len() ==> key_view(#[trigger] keys@[k]@) == rank_key(cands@[k]),
            decreases es.len() - i,
        {
            proof {
                assert(es@.take(i + 1).drop_last() =~= es@.take(i as int));
            }
            let e = &es[i];
            if let Some(n) = self.lookup(e.to_id.as_str()) {
                let conf: u16 = match e.confidence_milli {
                    Some(c) => c,
                    None => 0,
                };
                let mut key: Vec<KeyPart> = Vec::new();
                key.push(KeyPart::Num(if n.kind == NodeKind::Branch { 0 } else { 1 }));
                key.push(KeyPart::Num((0xFFFFu16 - conf) as u64));
                key.push(KeyPart::Text(chars_of(n.id.as_str())));
                let nb = Neighbor { node: n, edge: e.dup() };
                assert(key_view(key@) =~= rank_key(nb));
                cands.push(nb);
                keys.push(key);
            }
            i += 1;
        }
        proof {
            assert(es@.take(es.len() as int) =~= es@);
            assert(key_views(keys@) =~= rank_keys(cands@));
        }
        sort_by_keys(&cands, &keys)
    }

    /// Follows trace edges from `root_id` for at most `max_depth` hops, each
    /// time to the best-ranked candidate (branches first, then confidence,
    /// then id); the other candidates are the hop's siblings. Stops at a node
    /// without candidates or before revisiting a node.
    #[verifier::rlimit(40)]
    pub fn trace(&self, root_id: &str, max_depth: usize) -> (r: Result<TraceResult, EngineError>)
        requires
            self.wf(),
        ensures
            trace_outcome(*self, root_id@, max_depth, r),
    {
        if let Err(e) = self.require_node(root_id) {
            return Err(e);
        }
        let ghost nodes = self.nodes();
        let ghost edges = self.edges();
        let mut hops: Vec<TraceHop> = Vec::new();
        let ghost mut ids: Seq<Seq<char>> = Seq::empty();
        let ghost mut ranks: Seq<Seq<Neighbor>> = Seq::empty();
        let mut current: String = root_id.to_owned();
        let mut prev: Option<String> = None;
        let mut visited: Vec<String> = Vec::new();
        visited.push(root_id.to_owned());
        proof {
            assert(visited@[0]@ == root_id@);
        }
        let mut d: usize = 0;
        let mut stopped = false;
        while d < max_depth
            invariant_except_break
                d <= max_depth,
                hops.len() == d,
                find_node(nodes, current@) is Some,
                !stopped,
                d == 0 ==> current@ == root_id@,
                d > 0 ==> ranks[d - 1].len() > 0 && ranks[d - 1][0].edge.to_id@ == current@,
                match prev {
                    Some(p) => d > 0 && p@ == ids[d - 1],
                    None => d == 0,
                },
                forall|k: int| 0 <= k < d ==> ids[k] != current@,
                forall|k: int| 0 <= k < d - 1 ==> #[trigger] link_ok(ids, ranks, k),
            invariant
                self.wf(),
                nodes == self.nodes(),
                edges == self.edges(),
                find_node(nodes, root_id@) is Some,
                ids.len() == hops.len(),
                ranks.len() == hops.len(),
                hops.len() <= max_depth,
                hops.len() > 0 ==> ids[0] == root_id@,
                forall|k: int| 0 <= k < hops.len() ==> #[trigger] hop_ok(nodes, edges, hops@, ids, ranks, k),
                text_set(visited@) == Set::new(|x: Seq<char>| exists|k: int| 0 <= k < ids.len() && #[trigger] ids[k] == x).insert(current@),
            ensures
                trace_shape(nodes, edges, root_id@, max_depth as nat, hops@, ids, ranks),
            decreases max_depth - d,
        {
            let found = self.lookup(current.as_str());
            assert(found is Some);
            let node = found.unwrap();
            let via = match &prev {
                Some(p) => {
                    let out = self.trace_outgoing_edges(p.as_str());
                    Self::first_to(&out, current.as_str())
                },
                None => None,
            };
            let ranked = self.ranked_candidates(current.as_str());
            let mut siblings: Vec<GraphNode> = Vec::new();
            let mut k: usize = 1;
            while k < ranked.len()
                invariant
                    1 <= k,
                    ranked.len() > 0 ==> k <= ranked.len(),
                    ranked.len() > 0 ==> siblings@ == ranked@.subrange(1, k as int).map_values(|nb: Neighbor| nb.node),
                    ranked.len() == 0 ==> siblings@ == Seq::<GraphNode>::empty(),
                decreases ranked.len() - k,
            {
                siblings.push(ranked[k].node.dup());
                proof {
                    assert(ranked@.subrange(1, k + 1).map_values(|nb: Neighbor| nb.node)
                        =~= ranked@.subrange(1, k as int).map_values(|nb: Neighbor| nb.node).push(ranked@[k as int].node));
                }
                k += 1;
            }
            proof {
                if ranked.len() > 0 {
                    assert(ranked@.subrange(1, ranked.len() as int) =~= ranked@.skip(1));
                }
            }
            let ghost old_hops = hops@;
            let ghost old_ids = ids;
            let ghost old_ranks = ranks;
            hops.push(TraceHop { node, via, siblings });
            proof {
                ids = ids.push(current@);
                ranks = ranks.push(ranked@);
                assert forall|q: int| 0 <= q < hops.len() implies #[trigger] hop_ok(nodes, edges, hops@, ids, ranks, q) by {
                    if q < d {
                        assert(hop_ok(nodes, edges, old_hops, old_ids, old_ranks, q));
                        assert(hops@[q] == old_hops[q]);
                        assert(ids[q] == old_ids[q]);
                        assert(ranks[q] == old_ranks[q]);
                        if q > 0 {
                            assert(ids[q - 1] == old_ids[q - 1]);
                        }
                    }
                }
                assert forall|q: int| 0 <= q < d implies #[trigger] link_ok(ids, ranks, q) by {
                    if q < d - 1 {
                        assert(link_ok(old_ids, old_ranks, q));
                        assert(ids[q] == old_ids[q] && ids[q + 1] == old_ids[q + 1]);
                        assert(ranks[q] == old_ranks[q]);
                        assert forall|k: int| 0 <= k <= q implies #[trigger] ids[k] != ids[q + 1] by {
                            assert(ids[k] == old_ids[k]);
                        }
                    } else {
                        assert forall|k: int| 0 <= k <= q implies #[trigger] ids[k] != ids[q + 1] by {
                            assert(ids[k] == old_ids[k]);
                        }
                    }
                }
            }
            if ranked.len() == 0 {
                proof {
                    assert(text_set(visited@) =~= Set::new(|x: Seq<char>| exists|k: int| 0 <= k < ids.len() && #[trigger] ids[k] == x)) by {
                        assert(ids[d as int] == current@);
                        assert forall|x: Seq<char>| text_set(visited@).contains(x) implies (exists|k: int| 0 <= k < ids.len() && #[trigger] ids[k] == x) by {
                            if x != current@ {
                                let k = choose|k: int| 0 <= k < old_ids.len() && #[trigger] old_ids[k] == x;
                                assert(ids[k] == old_ids[k]);
                            }
                        }
                        assert forall|x: Seq<char>| (exists|k: int| 0 <= k < ids.len() && #[trigger] ids[k] == x) implies text_set(visited@).contains(x) by {
                            let k = choose|k: int| 0 <= k < ids.len() && #[trigger] ids[k] == x;
                            if k < d {
                                assert(old_ids[k] == ids[k]);
                            }
                        }
                    }
                }
                break;
            }
            let next = ranked[0].edge.to_id.clone();
            if contains_text(&visited, next.as_str()) {
                proof {
                    assert(text_set(visited@) =~= Set::new(|x: Seq<char>| exists|k: int| 0 <= k < ids.len() && #[trigger] ids[k] == x)) by {
                        assert(ids[d as int] == current@);
                        assert forall|x: Seq<char>| text_set(visited@).contains(x) implies (exists|k: int| 0 <= k < ids.len() && #[trigger] ids[k] == x) by {
                            if x != current@ {
                                let k = choose|k: int| 0 <= k < old_ids.len() && #[trigger] old_ids[k] == x;
                                assert(ids[k] == old_ids[k]);
                            }
                        }
                        assert forall|x: Seq<char>| (exists|k: int| 0 <= k < ids.len() && #[trigger] ids[k] == x) implies text_set(visited@).contains(x) by {
                            let k = choose|k: int| 0 <= k < ids.len() && #[trigger] ids[k] == x;
                            if k < d {
                                assert(old_ids[k] == ids[k]);
                            }
                        }
                    }
                    let k = choose|k: int| 0 <= k < ids.len() && #[trigger] ids[k] == next@;
                    assert(ids[k] == ranks[ids.len() - 1][0].edge.to_id@);
                }
                break;
            }
            proof {
                // the chosen candidate's target is a node
                let ranked_seq = ranked@;
                let cands = trace_candidates(nodes, edges, current@);
                let perm = choose|perm: Seq<usize>| is_sort_permutation(perm, rank_keys(cands)) && permuted(cands, perm, ranked_seq);
                lemma_join_targets_found(nodes, trace_edges(edges, current@), perm[0] as int);
            }
            let ghost old_visited = visited@;
            visited.push(next.clone());
            proof {
                assert(text_set(visited@) =~= Set::new(|x: Seq<char>| exists|k: int| 0 <= k < ids.len() && #[trigger] ids[k] == x).insert(next@)) by {
                    assert(ids[d as int] == current@);
                    assert(visited@[old_visited.len() as int] == next);
                    assert forall|x: Seq<char>| text_set(visited@).contains(x) implies Set::new(|x: Seq<char>| exists|k: int| 0 <= k < ids.len() && #[trigger] ids[k] == x).insert(next@).contains(x) by {
                        let j = choose|j: int| 0 <= j < visited@.len() && #[trigger] visited@[j]@ == x;
                        if j < old_visited.len() {
                            assert(old_visited[j] == visited@[j]);
                            assert(text_set(old_visited).contains(x));
                            if x != current@ {
                                let k = choose|k: int| 0 <= k < old_ids.len() && #[trigger] old_ids[k] == x;
                                assert(ids[k] == old_ids[k]);
                            }
                        }
                    }
                    assert forall|x: Seq<char>| Set::new(|x: Seq<char>| exists|k: int| 0 <= k < ids.len() && #[trigger] ids[k] == x).insert(next@).contains(x) implies text_set(visited@).contains(x) by {
                        if x == next@ {
                            assert(visited@[old_visited.len() as int]@ == x);
                        } else {
                            let k = choose|k: int| 0 <= k < ids.len() && #[trigger] ids[k] == x;
                            if k < d {
                                assert(old_ids[k] == ids[k]);
                                assert(text_set(old_visited).contains(x));
                            } else {
                                assert(text_set(old_visited).contains(x));
                            }
                            let j = choose|j: int| 0 <= j < old_visited.len() && #[trigger] old_visited[j]@ == x;
                            assert(visited@[j] == old_visited[j]);
                        }
                    }
                }
                assert forall|k: int| 0 <= k < d + 1 implies #[trigger] ids[k] != next@ by {
                    if ids[k] == next@ {
                        if k < d {
                            assert(old_ids[k] == ids[k]);
                        }
                        assert(text_set(old_visited).contains(next@));
                    }
                }
            }
            prev = Some(current);
            current = next;
            d += 1;
        }
        let t = TraceResult { hops };
        assert(trace_shape(self.nodes(), self.edges(), root_id@, max_depth as nat, t.hops@, ids, ranks));
        assert(is_trace(self.nodes(), self.edges(), root_id@, max_depth as nat, t.hops@));
        Ok(t)
    }

    fn in_scope_exec(n: &GraphNode, scope: &Vec<char>) -> (b: bool)
        ensures
            b == in_scope(*n, scope@),
    {
        if scope.len() == 0 || seq_eq(scope, &chars_of(".")) {
            return true;
        }
        let path = match &n.parent_file {
            Some(p) => chars_of(p.as_str()),
            None => chars_of(n.relative_path.as_str()),
        };
        let mut prefix = scope.clone();
        let ghost sv = scope@;
        prefix.push('/');
        assert(prefix@ =~= sv + seq!['/']);
        seq_eq(&path, scope) || starts_with(&path, &prefix)
    }

    /// The nodes within `scope` (a file path or directory prefix, `/` trimmed;
    /// empty or `.` for everything) in `list_nodes` order, the edges between
    /// them in id order, and, when asked, a ghost for each edge that crosses
    /// the boundary to an existing outside node, ordered by ghost id.
    pub fn subgraph(&self, scope: &str, include_boundary: bool) -> (r: Result<Subgraph, EngineError>)
        requires
            self.wf(),
        ensures
            subgraph_outcome(*self, scope@, include_boundary, r),
    {
        let ghost nodes = self.nodes();
        let sc = trim_char_chars(&chars_of(scope), '/');
        let ghost s = sc@;
        let all_nodes = self.store.list_nodes();
        let all_edges = self.store.list_edges();
        // the ids within the scope
        let rows = self.store.all_nodes();
        let mut internal: Vec<String> = Vec::new();
        let mut i: usize = 0;
        while i < rows.len()
            invariant
                i <= rows.len(),
                rows@ == nodes,
                sc@ == s,
                text_set(internal@) == Set::new(|x: Seq<char>| exists|k: int| 0 <= k < i && #[trigger] nodes[k].id@ == x && in_scope(nodes[k], s)),
            decreases rows.len() - i,
        {
            let ghost before = internal@;
            if Self::in_scope_exec(&rows[i], &sc) {
                internal.push(rows[i].id.clone());
            }
            proof {
                assert(text_set(internal@) =~= Set::new(|x: Seq<char>| exists|k: int| 0 <= k < i + 1 && #[trigger] nodes[k].id@ == x && in_scope(nodes[k], s))) by {
                    assert forall|x: Seq<char>| text_set(internal@).contains(x) implies exists|k: int| 0 <= k < i + 1 && #[trigger] nodes[k].id@ == x && in_scope(nodes[k], s) by {
                        let j = choose|j: int| 0 <= j < internal@.len() && #[trigger] internal@[j]@ == x;
                        if j < before.len() {
                            assert(before[j] == internal@[j]);
                            assert(text_set(before).contains(x));
                        }
                    }
                    assert forall|x: Seq<char>| (exists|k: int| 0 <= k < i + 1 && #[trigger] nodes[k].id@ == x && in_scope(nodes[k], s)) implies text_set(internal@).contains(x) by {
                        let k = choose|k: int| 0 <= k < i + 1 && #[trigger] nodes[k].id@ == x && in_scope(nodes[k], s);
                        if k < i {
                            assert(text_set(before).contains(x));
                            let j = choose|j: int| 0 <= j < before.len() && #[trigger] before[j]@ == x;
                            assert(internal@[j] == before[j]);
                        } else {
                            assert(internal@[before.len() as int]@ == x);
                        }
                    }
                }
            }
            i += 1;
        }
        proof {
            assert forall|x: Seq<char>| #[trigger] text_set(internal@).contains(x) == id_in_scope(nodes, x, s) by {
                lemma_find_node(nodes, x);
                if text_set(internal@).contains(x) {
                    let k = choose|k: int| 0 <= k < nodes.len() && #[trigger] nodes[k].id@ == x && in_scope(nodes[k], s);
                    assert(nodes.contains(nodes[k]));
                }
                if id_in_scope(nodes, x, s) {
                    let n = find_node(nodes, x)->0;
                    let k = choose|k: int| 0 <= k < nodes.len() && nodes[k] == n;
                    assert(nodes[k].id@ == x && in_scope(nodes[k], s));
                }
            }
        }
        // the nodes in scope, in list order
        let ghost pn = |n: GraphNode| in_scope(n, s);
        let mut out_nodes: Vec<GraphNode> = Vec::new();
        let mut a: usize = 0;
        while a < all_nodes.len()
            invariant
                a <= all_nodes.len(),
                sc@ == s,
                pn == (|n: GraphNode| in_scope(n, s)),
                out_nodes@ == all_nodes@.take(a as int).filter(pn),
            decreases all_nodes.len() - a,
        {
            proof {
                lemma_filter_step(all_nodes@, pn, a as int);
            }
            if Self::in_scope_exec(&all_nodes[a], &sc) {
                out_nodes.push(all_nodes[a].dup());
            }
            a += 1;
        }
        // internal edges and boundary ghosts
        let ghost pe = |e: GraphEdge| id_in_scope(nodes, e.from_id@, s) && id_in_scope(nodes, e.to_id@, s);
        let mut out_edges: Vec<GraphEdge> = Vec::new();
        let mut ghosts: Vec<GhostNode> = Vec::new();
        let mut gkeys: Vec<Vec<KeyPart>> = Vec::new();
        let ghost mut crossings: Seq<(BoundaryDirection, GraphNode, GraphEdge)> = Seq::empty();
        let mut b: usize = 0;
        while b < all_edges.len()
            invariant
                b <= all_edges.len(),
                self.wf(),
                nodes == self.nodes(),
                sc@ == s,
                forall|x: Seq<char>| #[trigger] text_set(internal@).contains(x) == id_in_scope(nodes, x, s),
                pe == (|e: GraphEdge| id_in_scope(nodes, e.from_id@, s) && id_in_scope(nodes, e.to_id@, s)),
                out_edges@ == all_edges@.take(b as int).filter(pe),
                include_boundary ==> crossings == boundary_of(nodes, all_edges@.take(b as int), s),
                !include_boundary ==> ghosts.len() == 0,
                ghosts.len() == crossings.len(),
                gkeys.len() == ghosts.len(),
                forall|k: int| 0 <= k < ghosts.len() ==> ghost_is(#[trigger] ghosts@[k], crossings[k]),
                forall|k: int| 0 <= k < gkeys.len() ==> key_view(#[trigger] gkeys@[k]@) == boundary_key(crossings[k]),
            decreases all_edges.len() - b,
        {
            proof {
                lemma_filter_step(all_edges@, pe, b as int);
                assert(all_edges@.take(b + 1).drop_last() =~= all_edges@.take(b as int));
            }
            let e = &all_edges[b];
            let from_in = contains_text(&internal, e.from_id.as_str());
            let to_in = contains_text(&internal, e.to_id.as_str());
            if from_in && to_in {
                out_edges.push(e.dup());
            } else if include_boundary && (from_in || to_in) {
                let (other, dir, prefix) = if from_in {
                    (self.lookup(e.to_id.as_str()), BoundaryDirection::Egress, "ghost:egress:")
                } else {
                    (self.lookup(e.from_id.as_str()), BoundaryDirection::Ingress, "ghost:ingress:")
                };
                if let Some(ext) = other {
                    let gid = concat(prefix, ext.id.as_str());
                    let mut key: Vec<KeyPart> = Vec::new();
                    key.push(KeyPart::Text(chars_of(gid.as_str())));
                    let gh = GhostNode { id: gid, name: ext.name.clone(), direction: dir, via: e.dup() };
                    proof {
                        crossings = crossings.push((dir, ext, *e));
                    }
                    assert(key_view(key@) =~= boundary_key((dir, ext, *e)));
                    ghosts.push(gh);
                    gkeys.push(key);
                }
            }
            b += 1;
        }
        proof {
            assert(all_edges@.take(all_edges.len() as int) =~= all_edges@);
            assert(all_nodes@.take(all_nodes.len() as int) =~= all_nodes@);
        }
        let sorted_ghosts = sort_by_keys(&ghosts, &gkeys);
        proof {
            if include_boundary {
                let kv = key_views(gkeys@);
                assert(kv =~= boundary_keys(crossings));
                let perm = choose|perm: Seq<usize>| is_sort_permutation(perm, kv) && permuted(ghosts@, perm, sorted_ghosts@);
                let sorted = Seq::new(perm.len(), |i: int| crossings[perm[i] as int]);
                assert(permuted(crossings, perm, sorted));
                assert(stably_sorted(crossings, boundary_keys(crossings), sorted));
                assert forall|i: int| 0 <= i < sorted_ghosts@.len() implies ghost_is(#[trigger] sorted_ghosts@[i], sorted[i]) by {
                    assert(sorted_ghosts@[i] == ghosts@[perm[i] as int]);
                }
                assert(ghosts_ok(sorted_ghosts@, boundary_of(nodes, all_edges@, s)));
            } else {
                assert(sorted_ghosts@.len() == 0) by {
                    let perm = choose|perm: Seq<usize>| is_sort_permutation(perm, key_views(gkeys@)) && permuted(ghosts@, perm, sorted_ghosts@);
                }
            }
        }
        let g = Subgraph { nodes: out_nodes, edges: out_edges, ghosts: sorted_ghosts, overlay: None };
        assert(subgraph_of(self.nodes(), all_nodes@, all_edges@, trim_char(scope@, '/'), include_boundary, g));
        Ok(g)
    }

    /// The id of the function `name` of `file` declared at `line`, when indexed.
    pub fn symbol_id_for(&self, file: &str, name: &str, line: u32) -> (r: Option<String>)
        requires
            self.wf(),
        ensures
            match r {
                Some(s) => s@ == symbol_id_text(file@, NodeKind::Function, name@, line)
                    && find_node(self.nodes(), s@) is Some,
                None => find_node(self.nodes(), symbol_id_text(file@, NodeKind::Function, name@, line)) is None,
            },
    {
        let id = symbol_id(file, NodeKind::Function, name, line);
        proof {
            lemma_find_node(self.nodes(), id@);
        }
        match self.lookup(id.as_str()) {
            Some(n) => Some(n.id),
            None => None,
        }
    }
}


proof fn lemma_find_node_filter(rows: Seq<GraphNode>, drop: Seq<char>, x: Seq<char>)
    requires
        x != drop,
    ensures
        find_node(rows.filter(node_id_differs(drop)), x) == find_node(rows, x),
    decreases rows.len(),
{
    reveal(Seq::filter);
    if rows.len() > 0 {
        let p = node_id_differs(drop);
        lemma_find_node_filter(rows.drop_last(), drop, x);
        let sub = rows.drop_last().filter(p);
        if p(rows.last()) {
            assert(rows.filter(p) == sub.push(rows.last()));
            assert(sub.push(rows.last()).drop_last() =~= sub);
        } else {
            assert(rows.filter(p) == sub);
        }
    }
}

/// Reading a node after inserting it gives the inserted node, and every other
/// id reads as it did before the insert.
pub proof fn insert_then_find(rows: Seq<GraphNode>, n: GraphNode, other: Seq<char>)
    ensures
        find_node(upsert_node(rows, n), n.id@) == Some(n),
        other != n.id@ ==> find_node(upsert_node(rows, n), other) == find_node(rows, other),
{
    let f = rows.filter(node_id_differs(n.id@));
    assert(upsert_node(rows, n) == f.push(n));
    assert(f.push(n).drop_last() =~= f);
    if other != n.id@ {
        lemma_find_node_filter(rows, n.id@, other);
    }
}

/// The blast radius never holds the queried node, lists each reached node
/// once in strictly increasing id order, and holds exactly the nodes that
/// reach it within `depth` reverse calls.
pub proof fn impact_is_ordered_set(nodes: Seq<GraphNode>, edges: Seq<GraphEdge>, root: Seq<char>, depth: nat, v: Seq<GraphNode>)
    requires
        unique_node_ids(nodes),
        nodes.len() <= usize::MAX,
        stably_sorted(impacted_rows(nodes, edges, root, depth), id_keys(impacted_rows(nodes, edges, root, depth)), v),
    ensures
        forall|i: int| 0 <= i < v.len() ==> #[trigger] v[i].id@ != root && nodes.contains(v[i])
            && reach_callers(nodes, edges, root, depth).contains(v[i].id@),
        forall|i: int, j: int| 0 <= i < j < v.len() ==> text_order(#[trigger] v[i].id@, #[trigger] v[j].id@) < 0,
        forall|n: GraphNode| nodes.contains(n) && reach_callers(nodes, edges, root, depth).contains(n.id@) && n.id@ != root
            ==> v.contains(n),
{
    let pred = impacted_pred(nodes, edges, root, depth);
    let hits = impacted_rows(nodes, edges, root, depth);
    lemma_filter_unique_nodes(nodes, pred);
    nodes.lemma_filter_len(pred);
    lemma_stably_sorted_elements(hits, id_keys(hits), v);
    assert forall|i: int| 0 <= i < v.len() implies #[trigger] v[i].id@ != root && nodes.contains(v[i])
        && reach_callers(nodes, edges, root, depth).contains(v[i].id@) by {
        assert(hits.contains(v[i]));
        let k = choose|k: int| 0 <= k < hits.len() && hits[k] == v[i];
        nodes.lemma_filter_pred(pred, k);
        assert(nodes.filter(pred).contains(hits[k]));
        nodes.lemma_filter_contains_rev(pred, hits[k]);
    }
    assert forall|i: int, j: int| 0 <= i < j < v.len() implies text_order(#[trigger] v[i].id@, #[trigger] v[j].id@) < 0 by {
        lemma_stably_sorted_order(hits, id_keys(hits), v, i, j);
        let (a, b) = choose|a: int, b: int|
            0 <= a < hits.len() && 0 <= b < hits.len() && a != b && v[i] == hits[a] && v[j] == hits[b]
                && key_order(id_keys(hits)[a], id_keys(hits)[b]) <= 0;
        let ka = id_keys(hits)[a];
        let kb = id_keys(hits)[b];
        assert(ka == id_key(hits[a]) && kb == id_key(hits[b]));
        assert(ka.drop_first() =~= Seq::<KeyView>::empty());
        assert(kb.drop_first() =~= Seq::<KeyView>::empty());
        assert(key_order(ka.drop_first(), kb.drop_first()) == 0);
        assert(crate::order::part_order(ka[0], kb[0]) == text_order(hits[a].id@, hits[b].id@));
        if a < b {
            assert(hits[a].id@ != hits[b].id@);
        } else {
            assert(hits[b].id@ != hits[a].id@);
        }
        if key_order(ka, kb) == 0 {
            lemma_key_order_zero(ka, kb);
            assert(ka[0] == kb[0]);
        }
        assert(ka.drop_first().len() == 0 && kb.drop_first().len() == 0);
    }
    assert forall|n: GraphNode| nodes.contains(n) && reach_callers(nodes, edges, root, depth).contains(n.id@) && n.id@ != root
        implies v.contains(n) by {
        nodes.filter_lemma(pred);
        let k = choose|k: int| 0 <= k < nodes.len() && nodes[k] == n;
        assert(pred(nodes[k]));
        assert(hits.contains(n));
        let j = choose|j: int| 0 <= j < hits.len() && hits[j] == n;
        assert(v.contains(hits[j]));
    }
}

/// A trace starts at the root, has at most `max_depth` hops, and never
/// visits a node twice.
pub proof fn trace_never_revisits(nodes: Seq<GraphNode>, edges: Seq<GraphEdge>, root: Seq<char>, max_depth: nat, hops: Seq<TraceHop>)
    requires
        unique_node_ids(nodes),
        is_trace(nodes, edges, root, max_depth, hops),
    ensures
        hops.len() <= max_depth,
        hops.len() > 0 ==> hops[0].node.id@ == root,
        forall|i: int, j: int| 0 <= i < j < hops.len() ==> #[trigger] hops[i].node.id@ != #[trigger] hops[j].node.id@,
{
    let (ids, ranks) = choose|ids: Seq<Seq<char>>, ranks: Seq<Seq<Neighbor>>| trace_shape(nodes, edges, root, max_depth, hops, ids, ranks);
    assert forall|i: int| 0 <= i < hops.len() implies #[trigger] hops[i].node.id@ == ids[i] by {
        assert(hop_ok(nodes, edges, hops, ids, ranks, i));
        lemma_find_node(nodes, ids[i]);
    }
    assert forall|i: int, j: int| 0 <= i < j < hops.len() implies #[trigger] hops[i].node.id@ != #[trigger] hops[j].node.id@ by {
        assert(link_ok(ids, ranks, j - 1));
        assert(hops[i].node.id@ == ids[i]);
        assert(hops[j].node.id@ == ids[j]);
    }
    if hops.len() > 0 {
        assert(hops[0].node.id@ == ids[0]);
    }
}

proof fn lemma_boundary_crossings(nodes: Seq<GraphNode>, es: Seq<GraphEdge>, scope: Seq<char>, i: int)
    requires
        0 <= i < boundary_of(nodes, es, scope).len(),
    ensures
        es.contains(boundary_of(nodes, es, scope)[i].2),
        ({
            let b = boundary_of(nodes, es, scope)[i];
            match b.0 {
                BoundaryDirection::Egress => id_in_scope(nodes, b.2.from_id@, scope) && !id_in_scope(nodes, b.2.to_id@, scope)
                    && find_node(nodes, b.2.to_id@) == Some(b.1),
                BoundaryDirection::Ingress => !id_in_scope(nodes, b.2.from_id@, scope) && id_in_scope(nodes, b.2.to_id@, scope)
                    && find_node(nodes, b.2.from_id@) == Some(b.1),
            }
        }),
    decreases es.len(),
{
    if es.len() > 0 {
        let rest = boundary_of(nodes, es.drop_last(), scope);
        if i < rest.len() {
            lemma_boundary_crossings(nodes, es.drop_last(), scope, i);
            let e = rest[i].2;
            let k = choose|k: int| 0 <= k < es.drop_last().len() && es.drop_last()[k] == e;
            assert(es[k] == e);
        } else {
            assert(es[es.len() - 1] == es.last());
        }
    }
}

/// Every node of a subgraph lies in its scope, every edge joins two nodes in
/// the scope, and every ghost stands for an existing outside node linked
/// across the boundary by its edge.
pub proof fn subgraph_stays_in_scope(
    nodes: Seq<GraphNode>,
    edges: Seq<GraphEdge>,
    all_nodes: Seq<GraphNode>,
    all_edges: Seq<GraphEdge>,
    scope: Seq<char>,
    include_boundary: bool,
    g: Subgraph,
)
    requires
        nodes.len() <= usize::MAX,
        edges.len() <= usize::MAX,
        stably_sorted(nodes, crate::store::node_list_keys(nodes), all_nodes),
        stably_sorted(edges, crate::store::edge_list_keys(edges), all_edges),
        subgraph_of(nodes, all_nodes, all_edges, scope, include_boundary, g),
    ensures
        forall|i: int| 0 <= i < g.nodes@.len() ==> in_scope(#[trigger] g.nodes@[i], scope) && nodes.contains(g.nodes@[i]),
        forall|i: int| 0 <= i < g.edges@.len() ==> edges.contains(#[trigger] g.edges@[i])
            && id_in_scope(nodes, g.edges@[i].from_id@, scope) && id_in_scope(nodes, g.edges@[i].to_id@, scope),
        forall|i: int| 0 <= i < g.ghosts@.len() ==> edges.contains((#[trigger] g.ghosts@[i]).via)
            && (id_in_scope(nodes, g.ghosts@[i].via.from_id@, scope) != id_in_scope(nodes, g.ghosts@[i].via.to_id@, scope)),
{
    lemma_stably_sorted_elements(nodes, crate::store::node_list_keys(nodes), all_nodes);
    lemma_stably_sorted_elements(edges, crate::store::edge_list_keys(edges), all_edges);
    let pn = |n: GraphNode| in_scope(n, scope);
    let pe = |e: GraphEdge| id_in_scope(nodes, e.from_id@, scope) && id_in_scope(nodes, e.to_id@, scope);
    assert forall|i: int| 0 <= i < g.nodes@.len() implies in_scope(#[trigger] g.nodes@[i], scope) && nodes.contains(g.nodes@[i]) by {
        all_nodes.lemma_filter_pred(pn, i);
        assert(all_nodes.filter(pn).contains(g.nodes@[i]));
        all_nodes.lemma_filter_contains_rev(pn, g.nodes@[i]);
        let k = choose|k: int| 0 <= k < all_nodes.len() && all_nodes[k] == g.nodes@[i];
        assert(nodes.contains(all_nodes[k]));
    }
    assert forall|i: int| 0 <= i < g.edges@.len() implies edges.contains(#[trigger] g.edges@[i])
        && id_in_scope(nodes, g.edges@[i].from_id@, scope) && id_in_scope(nodes, g.edges@[i].to_id@, scope) by {
        all_edges.lemma_filter_pred(pe, i);
        assert(all_edges.filter(pe).contains(g.edges@[i]));
        all_edges.lemma_filter_contains_rev(pe, g.edges@[i]);
        let k = choose|k: int| 0 <= k < all_edges.len() && all_edges[k] == g.edges@[i];
        assert(edges.contains(all_edges[k]));
    }
    if include_boundary {
        let crossings = boundary_of(nodes, all_edges, scope);
        let sorted = choose|sorted: Seq<(BoundaryDirection, GraphNode, GraphEdge)>|
            #[trigger] stably_sorted(crossings, boundary_keys(crossings), sorted) && g.ghosts@.len() == sorted.len()
                && forall|i: int| 0 <= i < g.ghosts@.len() ==> ghost_is(#[trigger] g.ghosts@[i], sorted[i]);
        let p = choose|p: Seq<usize>| is_sort_permutation(p, boundary_keys(crossings)) && permuted(crossings, p, sorted);
        assert forall|i: int| 0 <= i < g.ghosts@.len() implies edges.contains((#[trigger] g.ghosts@[i]).via)
            && (id_in_scope(nodes, g.ghosts@[i].via.from_id@, scope) != id_in_scope(nodes, g.ghosts@[i].via.to_id@, scope)) by {
            assert(ghost_is(g.ghosts@[i], sorted[i]));
            let c = p[i] as int;
            assert(sorted[i] == crossings[c]);
            lemma_boundary_crossings(nodes, all_edges, scope, c);
            let k = choose|k: int| 0 <= k < all_edges.len() && all_edges[k] == crossings[c].2;
            assert(edges.contains(all_edges[k]));
        }
    } else {
    }
}

/// Each caller is the existing source node of a `CALLS` edge into the queried
/// id; each callee is the existing target node of a `CALLS` edge out of it.
pub proof fn neighbors_follow_call_edges(nodes: Seq<GraphNode>, edges: Seq<GraphEdge>, id: Seq<char>, callers: Seq<Neighbor>, callees: Seq<Neighbor>)
    requires
        unique_node_ids(nodes),
        edges.len() <= usize::MAX,
        stably_sorted(join_sources(nodes, edges_into(edges, id, EdgeKind::Calls)),
            neighbor_keys(join_sources(nodes, edges_into(edges, id, EdgeKind::Calls))), callers),
        stably_sorted(join_targets(nodes, edges_out_of(edges, id, EdgeKind::Calls)),
            neighbor_keys(join_targets(nodes, edges_out_of(edges, id, EdgeKind::Calls))), callees),
    ensures
        forall|i: int| 0 <= i < callers.len() ==> (#[trigger] callers[i]).edge.kind == EdgeKind::Calls
            && callers[i].edge.to_id@ == id && edges.contains(callers[i].edge)
            && nodes.contains(callers[i].node) && callers[i].node.id@ == callers[i].edge.from_id@,
        forall|i: int| 0 <= i < callees.len() ==> (#[trigger] callees[i]).edge.kind == EdgeKind::Calls
            && callees[i].edge.from_id@ == id && edges.contains(callees[i].edge)
            && nodes.contains(callees[i].node) && callees[i].node.id@ == callees[i].edge.to_id@,
{
    let ins = edges_into(edges, id, EdgeKind::Calls);
    let outs = edges_out_of(edges, id, EdgeKind::Calls);
    let pi = into_pred(id, EdgeKind::Calls);
    let po = out_of_pred(id, EdgeKind::Calls);
    let js = join_sources(nodes, ins);
    let jt = join_targets(nodes, outs);
    lemma_join_len(nodes, ins);
    lemma_join_len(nodes, outs);
    edges.lemma_filter_len(pi);
    edges.lemma_filter_len(po);
    lemma_stably_sorted_elements(js, neighbor_keys(js), callers);
    lemma_stably_sorted_elements(jt, neighbor_keys(jt), callees);
    assert forall|i: int| 0 <= i < callers.len() implies (#[trigger] callers[i]).edge.kind == EdgeKind::Calls
        && callers[i].edge.to_id@ == id && edges.contains(callers[i].edge)
        && nodes.contains(callers[i].node) && callers[i].node.id@ == callers[i].edge.from_id@ by {
        let k = choose|k: int| 0 <= k < js.len() && js[k] == callers[i];
        lemma_join_member(nodes, ins, k, true);
        let q = choose|q: int| 0 <= q < ins.len() && ins[q] == js[k].edge;
        edges.lemma_filter_pred(pi, q);
        assert(ins.contains(ins[q]));
        edges.lemma_filter_contains_rev(pi, ins[q]);
        lemma_find_node(nodes, js[k].edge.from_id@);
    }
    assert forall|i: int| 0 <= i < callees.len() implies (#[trigger] callees[i]).edge.kind == EdgeKind::Calls
        && callees[i].edge.from_id@ == id && edges.contains(callees[i].edge)
        && nodes.contains(callees[i].node) && callees[i].node.id@ == callees[i].edge.to_id@ by {
        let k = choose|k: int| 0 <= k < jt.len() && jt[k] == callees[i];
        lemma_join_member(nodes, outs, k, false);
        let q = choose|q: int| 0 <= q < outs.len() && outs[q] == jt[k].edge;
        edges.lemma_filter_pred(po, q);
        assert(outs.contains(outs[q]));
        edges.lemma_filter_contains_rev(po, outs[q]);
        lemma_find_node(nodes, jt[k].edge.to_id@);
    }
}

/// With no depth there is no blast radius: `impact(id, 0)` is empty.
pub proof fn impact_at_depth_zero_is_empty(g: GraphEngine, root: Seq<char>, v: Vec<GraphNode>)
    requires
        g.wf(),
        impact_outcome(g, root, 0, Ok(v)),
    ensures
        v@.len() == 0,
{
    let nodes = g.nodes();
    let edges = g.edges();
    g.store.lemma_rows_fit();
    impact_is_ordered_set(nodes, edges, root, 0, v@);
    if v@.len() > 0 {
        assert(reach_callers(nodes, edges, root, 0).contains(v@[0].id@));
    }
}

/// A subgraph holds every node in its scope and every edge between two nodes
/// in its scope.
pub proof fn subgraph_holds_whole_scope(g: GraphEngine, scope: Seq<char>, include_boundary: bool, sg: Subgraph)
    requires
        subgraph_outcome(g, scope, include_boundary, Ok(sg)),
    ensures
        forall|n: GraphNode| #[trigger] g.nodes().contains(n) && in_scope(n, trim_char(scope, '/')) ==> sg.nodes@.contains(n),
        forall|e: GraphEdge| #[trigger] g.edges().contains(e) && id_in_scope(g.nodes(), e.from_id@, trim_char(scope, '/'))
            && id_in_scope(g.nodes(), e.to_id@, trim_char(scope, '/')) ==> sg.edges@.contains(e),
{
    let nodes = g.nodes();
    let edges = g.edges();
    let s = trim_char(scope, '/');
    g.store.lemma_rows_fit();
    let (all_nodes, all_edges) = choose|all_nodes: Seq<GraphNode>, all_edges: Seq<GraphEdge>|
        #![trigger stably_sorted(nodes, crate::store::node_list_keys(nodes), all_nodes), stably_sorted(edges, crate::store::edge_list_keys(edges), all_edges)]
        stably_sorted(nodes, crate::store::node_list_keys(nodes), all_nodes)
        && stably_sorted(edges, crate::store::edge_list_keys(edges), all_edges)
        && subgraph_of(nodes, all_nodes, all_edges, s, include_boundary, sg);
    lemma_stably_sorted_elements(nodes, crate::store::node_list_keys(nodes), all_nodes);
    lemma_stably_sorted_elements(edges, crate::store::edge_list_keys(edges), all_edges);
    let pn = |n: GraphNode| in_scope(n, s);
    let pe = |e: GraphEdge| id_in_scope(nodes, e.from_id@, s) && id_in_scope(nodes, e.to_id@, s);
    assert forall|n: GraphNode| #[trigger] g.nodes().contains(n) && in_scope(n, s) implies sg.nodes@.contains(n) by {
        let j = choose|j: int| 0 <= j < nodes.len() && nodes[j] == n;
        assert(all_nodes.contains(nodes[j]));
        all_nodes.filter_lemma(pn);
        let k = choose|k: int| 0 <= k < all_nodes.len() && all_nodes[k] == n;
        assert(all_nodes.filter(pn).contains(all_nodes[k]));
    }
    assert forall|e: GraphEdge| #[trigger] g.edges().contains(e) && id_in_scope(g.nodes(), e.from_id@, s)
        && id_in_scope(g.nodes(), e.to_id@, s) implies sg.edges@.contains(e) by {
        let j = choose|j: int| 0 <= j < edges.len() && edges[j] == e;
        assert(all_edges.contains(edges[j]));
        all_edges.filter_lemma(pe);
        let k = choose|k: int| 0 <= k < all_edges.len() && all_edges[k] == e;
        assert(all_edges.filter(pe).contains(all_edges[k]));
    }
}

proof fn lemma_boundary_complete(nodes: Seq<GraphNode>, es: Seq<GraphEdge>, scope: Seq<char>, e: GraphEdge)
    requires
        es.contains(e),
    ensures
        id_in_scope(nodes, e.from_id@, scope) && !id_in_scope(nodes, e.to_id@, scope) && find_node(nodes, e.to_id@) is Some
            ==> boundary_of(nodes, es, scope).contains((BoundaryDirection::Egress, find_node(nodes, e.to_id@).unwrap(), e)),
        !id_in_scope(nodes, e.from_id@, scope) && id_in_scope(nodes, e.to_id@, scope) && find_node(nodes, e.from_id@) is Some
            ==> boundary_of(nodes, es, scope).contains((BoundaryDirection::Ingress, find_node(nodes, e.from_id@).unwrap(), e)),
    decreases es.len(),
{
    let d = es.drop_last();
    let rest = boundary_of(nodes, d, scope);
    let b = boundary_of(nodes, es, scope);
    assert forall|x: (BoundaryDirection, GraphNode, GraphEdge)| rest.contains(x) implies b.contains(x) by {
        let k = choose|k: int| 0 <= k < rest.len() && rest[k] == x;
        if b != rest {
            assert(b[k] == rest[k]);
        }
    }
    if es.last() == e {
        if b != rest {
            assert(b[rest.len() as int] == b.last());
        }
    } else {
        let k = choose|k: int| 0 <= k < es.len() && es[k] == e;
        assert(k != es.len() - 1);
        assert(d[k] == e);
        lemma_boundary_complete(nodes, d, scope, e);
    }
}

/// With the boundary asked for, every edge that leaves the scope for an
/// existing outside node gives an egress ghost `ghost:egress:<target id>`
/// named after that node, and every edge that enters the scope from one gives
/// an ingress ghost `ghost:ingress:<source id>`.
pub proof fn subgraph_ghosts_every_crossing(g: GraphEngine, scope: Seq<char>, sg: Subgraph)
    requires
        g.wf(),
        subgraph_outcome(g, scope, true, Ok(sg)),
    ensures
        forall|e: GraphEdge, x: GraphNode|
            #![trigger g.edges().contains(e), g.nodes().contains(x)]
            g.edges().contains(e) && g.nodes().contains(x) && e.to_id@ == x.id@
                && id_in_scope(g.nodes(), e.from_id@, trim_char(scope, '/')) && !in_scope(x, trim_char(scope, '/'))
            ==> exists|i: int| 0 <= i < sg.ghosts@.len() && (#[trigger] sg.ghosts@[i]).direction == BoundaryDirection::Egress
                && sg.ghosts@[i].id@ == "ghost:egress:"@ + e.to_id@ && sg.ghosts@[i].name@ == x.name@ && sg.ghosts@[i].via == e,
        forall|e: GraphEdge, x: GraphNode|
            #![trigger g.edges().contains(e), g.nodes().contains(x)]
            g.edges().contains(e) && g.nodes().contains(x) && e.from_id@ == x.id@
                && !in_scope(x, trim_char(scope, '/')) && id_in_scope(g.nodes(), e.to_id@, trim_char(scope, '/'))
            ==> exists|i: int| 0 <= i < sg.ghosts@.len() && (#[trigger] sg.ghosts@[i]).direction == BoundaryDirection::Ingress
                && sg.ghosts@[i].id@ == "ghost:ingress:"@ + e.from_id@ && sg.ghosts@[i].name@ == x.name@ && sg.ghosts@[i].via == e,
{
    let nodes = g.nodes();
    let edges = g.edges();
    let s = trim_char(scope, '/');
    g.store.lemma_rows_fit();
    let (all_nodes, all_edges) = choose|all_nodes: Seq<GraphNode>, all_edges: Seq<GraphEdge>|
        #![trigger stably_sorted(nodes, crate::store::node_list_keys(nodes), all_nodes), stably_sorted(edges, crate::store::edge_list_keys(edges), all_edges)]
        stably_sorted(nodes, crate::store::node_list_keys(nodes), all_nodes)
        && stably_sorted(edges, crate::store::edge_list_keys(edges), all_edges)
        && subgraph_of(nodes, all_nodes, all_edges, s, true, sg);
    lemma_stably_sorted_elements(edges, crate::store::edge_list_keys(edges), all_edges);
    let crossings = boundary_of(nodes, all_edges, s);
    let sorted = choose|sorted: Seq<(BoundaryDirection, GraphNode, GraphEdge)>|
        #[trigger] stably_sorted(crossings, boundary_keys(crossings), sorted) && sg.ghosts@.len() == sorted.len()
            && forall|i: int| 0 <= i < sg.ghosts@.len() ==> ghost_is(#[trigger] sg.ghosts@[i], sorted[i]);
    let p = choose|p: Seq<usize>| is_sort_permutation(p, boundary_keys(crossings)) && permuted(crossings, p, sorted);
    assert(sg.ghosts.len() == sg.ghosts@.len());
    lemma_stably_sorted_elements(crossings, boundary_keys(crossings), sorted);
    assert forall|e: GraphEdge, x: GraphNode|
        #![trigger g.edges().contains(e), g.nodes().contains(x)]
        g.edges().contains(e) && g.nodes().contains(x) && e.to_id@ == x.id@
            && id_in_scope(g.nodes(), e.from_id@, s) && !in_scope(x, s)
        implies exists|i: int| 0 <= i < sg.ghosts@.len() && (#[trigger] sg.ghosts@[i]).direction == BoundaryDirection::Egress
            && sg.ghosts@[i].id@ == "ghost:egress:"@ + e.to_id@ && sg.ghosts@[i].name@ == x.name@ && sg.ghosts@[i].via == e by {
        lemma_find_node(nodes, x.id@);
        let j = choose|j: int| 0 <= j < edges.len() && edges[j] == e;
        assert(all_edges.contains(edges[j]));
        lemma_boundary_complete(nodes, all_edges, s, e);
        let b = (BoundaryDirection::Egress, x, e);
        let c = choose|c: int| 0 <= c < crossings.len() && crossings[c] == b;
        assert(sorted.contains(crossings[c]));
        let i = choose|i: int| 0 <= i < sorted.len() && sorted[i] == b;
        assert(ghost_is(sg.ghosts@[i], sorted[i]));
    }
    assert forall|e: GraphEdge, x: GraphNode|
        #![trigger g.edges().contains(e), g.nodes().contains(x)]
        g.edges().contains(e) && g.nodes().contains(x) && e.from_id@ == x.id@
            && !in_scope(x, s) && id_in_scope(g.nodes(), e.to_id@, s)
        implies exists|i: int| 0 <= i < sg.ghosts@.len() && (#[trigger] sg.ghosts@[i]).direction == BoundaryDirection::Ingress
            && sg.ghosts@[i].id@ == "ghost:ingress:"@ + e.from_id@ && sg.ghosts@[i].name@ == x.name@ && sg.ghosts@[i].via == e by {
        lemma_find_node(nodes, x.id@);
        let j = choose|j: int| 0 <= j < edges.len() && edges[j] == e;
        assert(all_edges.contains(edges[j]));
        lemma_boundary_complete(nodes, all_edges, s, e);
        let b = (BoundaryDirection::Ingress, x, e);
        let c = choose|c: int| 0 <= c < crossings.len() && crossings[c] == b;
        assert(sorted.contains(crossings[c]));
        let i = choose|i: int| 0 <= i < sorted.len() && sorted[i] == b;
        assert(ghost_is(sg.ghosts@[i], sorted[i]));
    }
}

proof fn lemma_reach_members(nodes: Seq<GraphNode>, edges: Seq<GraphEdge>, root: Seq<char>, k: nat)
    ensures
        reach_callers(nodes, edges, root, k).contains(root),
        forall|x: Seq<char>| #[trigger] reach_callers(nodes, edges, root, k).contains(x) && x != root
            ==> find_node(nodes, x) is Some,
    decreases k,
{
    if k > 0 {
        lemma_reach_members(nodes, edges, root, (k - 1) as nat);
    }
}

/// One more level of depth adds exactly the callers of what the shallower
/// query reached: everything within `d` reverse calls stays, every existing
/// node (the root aside) with a `CALLS` edge into the root or into a node
/// within `d` joins, and nothing else does.
pub proof fn impact_deepens_by_callers(g: GraphEngine, root: Seq<char>, d: usize, shallow: Vec<GraphNode>, deep: Vec<GraphNode>)
    requires
        g.wf(),
        d < usize::MAX,
        impact_outcome(g, root, d, Ok(shallow)),
        impact_outcome(g, root, (d + 1) as usize, Ok(deep)),
    ensures
        forall|i: int| 0 <= i < shallow@.len() ==> deep@.contains(#[trigger] shallow@[i]),
        forall|n: GraphNode, e: GraphEdge|
            #![trigger g.nodes().contains(n), g.edges().contains(e)]
            g.nodes().contains(n) && n.id@ != root && g.edges().contains(e) && e.kind == EdgeKind::Calls
                && e.from_id@ == n.id@
                && (e.to_id@ == root || exists|i: int| 0 <= i < shallow@.len() && #[trigger] shallow@[i].id@ == e.to_id@)
            ==> deep@.contains(n),
        forall|j: int| 0 <= j < deep@.len() ==> shallow@.contains(#[trigger] deep@[j])
            || exists|e: GraphEdge| #![trigger g.edges().contains(e)]
                g.edges().contains(e) && e.kind == EdgeKind::Calls && e.from_id@ == deep@[j].id@
                && (e.to_id@ == root || exists|i: int| 0 <= i < shallow@.len() && #[trigger] shallow@[i].id@ == e.to_id@),
{
    let nodes = g.nodes();
    let edges = g.edges();
    let dn = d as nat;
    let dn1 = (d + 1) as nat;
    g.store.lemma_rows_fit();
    impact_is_ordered_set(nodes, edges, root, dn, shallow@);
    impact_is_ordered_set(nodes, edges, root, dn1, deep@);
    lemma_reach_members(nodes, edges, root, dn);
    let r = reach_callers(nodes, edges, root, dn);
    assert(reach_callers(nodes, edges, root, dn1) == r + callers_of_set(nodes, edges, r));
    assert forall|i: int| 0 <= i < shallow@.len() implies deep@.contains(#[trigger] shallow@[i]) by {
        assert(reach_callers(nodes, edges, root, dn1).contains(shallow@[i].id@));
    }
    assert forall|n: GraphNode, e: GraphEdge|
        #![trigger g.nodes().contains(n), g.edges().contains(e)]
        g.nodes().contains(n) && n.id@ != root && g.edges().contains(e) && e.kind == EdgeKind::Calls
            && e.from_id@ == n.id@
            && (e.to_id@ == root || exists|i: int| 0 <= i < shallow@.len() && #[trigger] shallow@[i].id@ == e.to_id@)
        implies deep@.contains(n) by {
        lemma_find_node(nodes, n.id@);
        let j = choose|j: int| 0 <= j < edges.len() && edges[j] == e;
        if e.to_id@ != root {
            let i = choose|i: int| 0 <= i < shallow@.len() && #[trigger] shallow@[i].id@ == e.to_id@;
            assert(r.contains(shallow@[i].id@));
        }
        assert(is_call_link(edges[j], n.id@, r));
        assert(callers_of_set(nodes, edges, r).contains(n.id@));
        assert(reach_callers(nodes, edges, root, dn1).contains(n.id@));
    }
    assert forall|j: int| 0 <= j < deep@.len() implies shallow@.contains(#[trigger] deep@[j])
        || exists|e: GraphEdge| #![trigger g.edges().contains(e)]
            g.edges().contains(e) && e.kind == EdgeKind::Calls && e.from_id@ == deep@[j].id@
            && (e.to_id@ == root || exists|i: int| 0 <= i < shallow@.len() && #[trigger] shallow@[i].id@ == e.to_id@) by {
        let n = deep@[j];
        if r.contains(n.id@) {
            assert(shallow@.contains(n));
        } else {
            assert(callers_of_set(nodes, edges, r).contains(n.id@));
            let q = choose|q: int| 0 <= q < edges.len() && #[trigger] is_call_link(edges[q], n.id@, r);
            let e = edges[q];
            assert(edges.contains(e));
            if e.to_id@ != root {
                lemma_find_node(nodes, e.to_id@);
                let x = find_node(nodes, e.to_id@).unwrap();
                assert(shallow@.contains(x));
                let i = choose|i: int| 0 <= i < shallow@.len() && shallow@[i] == x;
                assert(shallow@[i].id@ == e.to_id@);
            }
        }
    }
}

proof fn lemma_append_unseen_covers(acc: Seq<GraphNode>, cands: Seq<GraphNode>, kind: NodeKind)
    ensures
        forall|x: Seq<char>| id_set(acc).contains(x) ==> #[trigger] id_set(append_unseen(acc, cands, kind)).contains(x),
        forall|i: int| 0 <= i < cands.len() && (#[trigger] cands[i]).kind == kind
            ==> id_set(append_unseen(acc, cands, kind)).contains(cands[i].id@),
    decreases cands.len(),
{
    if cands.len() > 0 {
        let d = cands.drop_last();
        lemma_append_unseen_covers(acc, d, kind);
        let a = append_unseen(acc, d, kind);
        let c = cands.last();
        let r = append_unseen(acc, cands, kind);
        assert forall|x: Seq<char>| id_set(a).contains(x) implies id_set(r).contains(x) by {
            let k = choose|k: int| 0 <= k < a.len() && #[trigger] a[k].id@ == x;
            if c.kind == kind && !id_set(a).contains(c.id@) {
                assert(r[k] == a[k]);
            }
        }
        assert forall|i: int| 0 <= i < cands.len() && (#[trigger] cands[i]).kind == kind
            implies id_set(r).contains(cands[i].id@) by {
            if i < cands.len() - 1 {
                assert(d[i] == cands[i]);
                assert(id_set(a).contains(d[i].id@));
            } else if !id_set(a).contains(c.id@) {
                assert(r[a.len() as int] == c);
            }
        }
    }
}

/// Every UI element of the graph, and every function or class that nothing
/// calls, is among the entry points.
pub proof fn entry_points_include_ui_elements(g: GraphEngine, v: Vec<GraphNode>)
    requires
        entry_points_outcome(g, Ok(v)),
    ensures
        forall|n: GraphNode| g.nodes().contains(n) && n.kind == NodeKind::UiElement
            ==> exists|i: int| 0 <= i < v@.len() && #[trigger] v@[i].id@ == n.id@,
        forall|n: GraphNode| g.nodes().contains(n) && crate::store::is_uncalled(n, g.edges())
            ==> exists|i: int| 0 <= i < v@.len() && #[trigger] v@[i].id@ == n.id@,
{
    let nodes = g.nodes();
    let edges = g.edges();
    g.store.lemma_rows_fit();
    let (u, sorted_hits, all) = choose|u: Seq<GraphNode>, sorted_hits: Seq<GraphNode>, all: Seq<GraphNode>|
        #![trigger stably_sorted(crate::store::uncalled_rows(nodes, edges), crate::store::path_line_keys(crate::store::uncalled_rows(nodes, edges)), u), stably_sorted(crate::store::search_hits(nodes, "main"@), crate::store::search_keys(crate::store::search_hits(nodes, "main"@), "main"@), sorted_hits), stably_sorted(nodes, crate::store::node_list_keys(nodes), all)]
        stably_sorted(crate::store::uncalled_rows(nodes, edges), crate::store::path_line_keys(crate::store::uncalled_rows(nodes, edges)), u)
        && stably_sorted(crate::store::search_hits(nodes, "main"@), crate::store::search_keys(crate::store::search_hits(nodes, "main"@), "main"@), sorted_hits)
        && stably_sorted(nodes, crate::store::node_list_keys(nodes), all)
        && entry_points_from(u, sorted_hits.take(crate::store::sql_limit(50, sorted_hits.len()) as int), all, v@);
    let hits = sorted_hits.take(crate::store::sql_limit(50, sorted_hits.len()) as int);
    let first = append_unseen(u, hits, NodeKind::Function);
    let cat = append_unseen(first, all, NodeKind::UiElement);
    lemma_stably_sorted_elements(nodes, crate::store::node_list_keys(nodes), all);
    lemma_append_unseen_covers(first, all, NodeKind::UiElement);
    let p = choose|p: Seq<usize>| is_sort_permutation(p, entry_keys(cat)) && permuted(cat, p, v@);
    assert(v.len() == v@.len());
    assert(cat.len() <= usize::MAX);
    lemma_stably_sorted_elements(cat, entry_keys(cat), v@);
    assert forall|n: GraphNode| g.nodes().contains(n) && n.kind == NodeKind::UiElement
        implies exists|i: int| 0 <= i < v@.len() && #[trigger] v@[i].id@ == n.id@ by {
        let j = choose|j: int| 0 <= j < nodes.len() && nodes[j] == n;
        assert(all.contains(nodes[j]));
        let k = choose|k: int| 0 <= k < all.len() && all[k] == n;
        assert(id_set(cat).contains(all[k].id@));
        let c = choose|c: int| 0 <= c < cat.len() && #[trigger] cat[c].id@ == n.id@;
        assert(v@.contains(cat[c]));
        let i = choose|i: int| 0 <= i < v@.len() && v@[i] == cat[c];
        assert(v@[i].id@ == n.id@);
    }
    let unc = crate::store::uncalled_rows(nodes, edges);
    let pu = |n: GraphNode| crate::store::is_uncalled(n, edges);
    nodes.lemma_filter_len(pu);
    lemma_stably_sorted_elements(unc, crate::store::path_line_keys(unc), u);
    lemma_append_unseen_covers(u, hits, NodeKind::Function);
    assert forall|n: GraphNode| g.nodes().contains(n) && crate::store::is_uncalled(n, g.edges())
        implies exists|i: int| 0 <= i < v@.len() && #[trigger] v@[i].id@ == n.id@ by {
        nodes.filter_lemma(pu);
        let j = choose|j: int| 0 <= j < nodes.len() && nodes[j] == n;
        assert(pu(nodes[j]));
        assert(unc.contains(n));
        let q = choose|q: int| 0 <= q < unc.len() && unc[q] == n;
        assert(u.contains(unc[q]));
        let w = choose|w: int| 0 <= w < u.len() && u[w] == n;
        assert(id_set(u).contains(u[w].id@));
        assert(id_set(first).contains(n.id@));
        assert(id_set(cat).contains(n.id@));
        let c = choose|c: int| 0 <= c < cat.len() && #[trigger] cat[c].id@ == n.id@;
        assert(v@.contains(cat[c]));
        let i = choose|i: int| 0 <= i < v@.len() && v@[i] == cat[c];
        assert(v@[i].id@ == n.id@);
    }
}

proof fn lemma_join_len(nodes: Seq<GraphNode>, es: Seq<GraphEdge>)
    ensures
        join_sources(nodes, es).len() <= es.len(),
        join_targets(nodes, es).len() <= es.len(),
    decreases es.len(),
{
    if es.len() > 0 {
        lemma_join_len(nodes, es.drop_last());
    }
}

proof fn lemma_join_member(nodes: Seq<GraphNode>, es: Seq<GraphEdge>, k: int, sources: bool)
    requires
        sources ==> 0 <= k < join_sources(nodes, es).len(),
        !sources ==> 0 <= k < join_targets(nodes, es).len(),
    ensures
        sources ==> es.contains(join_sources(nodes, es)[k].edge)
            && find_node(nodes, join_sources(nodes, es)[k].edge.from_id@) == Some(join_sources(nodes, es)[k].node),
        !sources ==> es.contains(join_targets(nodes, es)[k].edge)
            && find_node(nodes, join_targets(nodes, es)[k].edge.to_id@) == Some(join_targets(nodes, es)[k].node),
    decreases es.len(),
{
    if es.len() > 0 {
        let d = es.drop_last();
        if sources {
            if k < join_sources(nodes, d).len() {
                lemma_join_member(nodes, d, k, sources);
                let e = join_sources(nodes, d)[k].edge;
                let q = choose|q: int| 0 <= q < d.len() && d[q] == e;
                assert(es[q] == e);
            } else {
                assert(es[es.len() - 1] == es.last());
            }
        } else {
            if k < join_targets(nodes, d).len() {
                lemma_join_member(nodes, d, k, sources);
                let e = join_targets(nodes, d)[k].edge;
                let q = choose|q: int| 0 <= q < d.len() && d[q] == e;
                assert(es[q] == e);
            } else {
                assert(es[es.len() - 1] == es.last());
            }
        }
    }
}

} // verus!
