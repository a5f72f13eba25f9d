//! Runtime observations (hit counts and observed paths) merged onto a subgraph.
use vstd::prelude::*;
use crate::model::{Dup, GraphEdge, dup_vec};
use crate::engine::Subgraph;
use crate::text::{texts, sorted_distinct, sort_dedup_texts, str_eq};

verus! {

/// A path of node ids observed at run time, with how often it was taken.
pub struct ObservedPath {
    pub label: Option<String>,
    pub node_ids: Vec<String>,
    pub hits: u64,
}

/// A path as plain values: label, node ids, hits.
pub open spec fn path_view(p: ObservedPath) -> (Option<Seq<char>>, Seq<Seq<char>>, u64) {
    (crate::store::opt_text(p.label), texts(p.node_ids@), p.hits)
}

pub open spec fn paths_view(ps: Seq<ObservedPath>) -> Seq<(Option<Seq<char>>, Seq<Seq<char>>, u64)> {
    ps.map_values(|p: ObservedPath| path_view(p))
}

/// A copy of `p`.
pub fn copy_path(p: &ObservedPath) -> (r: ObservedPath)
    ensures
        path_view(r) == path_view(*p),
{
    let ids = dup_vec(&p.node_ids);
    assert(texts(ids@) =~= texts(p.node_ids@));
    ObservedPath { label: p.label.dup(), node_ids: ids, hits: p.hits }
}

/// A copy of every path of `ps`.
pub fn copy_paths(ps: &Vec<ObservedPath>) -> (r: Vec<ObservedPath>)
    ensures
        paths_view(r@) == paths_view(ps@),
{
    let mut r: Vec<ObservedPath> = Vec::new();
    let mut i: usize = 0;
    while i < ps.len()
        invariant
            i <= ps.len(),
            paths_view(r@) == paths_view(ps@.take(i as int)),
        decreases ps.len() - i,
    {
        let ghost before = r@;
        let c = copy_path(&ps[i]);
        r.push(c);
        assert(ps@.take(i + 1) =~= ps@.take(i as int).push(ps@[i as int]));
        assert(paths_view(ps@.take(i + 1)) =~= paths_view(ps@.take(i as int)).push(path_view(ps@[i as int])));
        assert(paths_view(r@) =~= paths_view(before).push(path_view(c)));
        i += 1;
    }
    assert(ps@.take(ps.len() as int) =~= ps@);
    r
}

/// Runtime observations: hits per node id (each id once) and observed paths.
pub struct RuntimeOverlay {
    pub schema_version: u32,
    pub node_hits: Vec<(String, u64)>,
    pub paths: Vec<ObservedPath>,
}

/// What a subgraph shows of the runtime observations.
pub struct SubgraphOverlay {
    pub node_hits: Vec<(String, u64)>,
    pub paths: Vec<ObservedPath>,
    pub observed_node_ids: Vec<String>,
    pub observed_edge_keys: Vec<String>,
}

/// The schema version of an overlay that does not state one.
pub fn default_schema_version() -> (r: u32)
    ensures
        r == 1,
{
    1
}

/// The id of a hit entry.
pub open spec fn hit_key(e: (String, u64)) -> Seq<char> {
    e.0@
}

/// The count of a hit entry.
pub open spec fn hit_count(e: (String, u64)) -> u64 {
    e.1
}

/// Some entry of `v` is for id `k`.
pub open spec fn has_hit(v: Seq<(String, u64)>, k: Seq<char>) -> bool {
    exists|i: int| 0 <= i < v.len() && hit_key(#[trigger] v[i]) == k
}

/// No two entries of `v` are for the same id.
pub open spec fn distinct_hits(v: Seq<(String, u64)>) -> bool {
    forall|i: int, j: int| 0 <= i < j < v.len() ==> hit_key(#[trigger] v[i]) != hit_key(#[trigger] v[j])
}

/// The hits as a map from node id to count.
pub open spec fn hits_view(v: Seq<(String, u64)>) -> Map<Seq<char>, u64> {
    Map::new(|k: Seq<char>| has_hit(v, k), |k: Seq<char>| hit_count(v[choose|i: int| 0 <= i < v.len() && hit_key(v[i]) == k]))
}

impl RuntimeOverlay {
    /// Each node id has at most one hit entry.
    pub open spec fn wf(&self) -> bool {
        distinct_hits(self.node_hits@)
    }

    /// Whether each node id has at most one hit entry.
    pub fn has_distinct_hits(&self) -> (b: bool)
        ensures
            b == self.wf(),
    {
        let n = self.node_hits.len();
        let mut i: usize = 0;
        while i < n
            invariant
                n == self.node_hits@.len(),
                i <= n,
                forall|a: int, b: int| 0 <= a < i && a < b < n ==> hit_key(#[trigger] self.node_hits@[a]) != hit_key(#[trigger] self.node_hits@[b]),
            decreases n - i,
        {
            let mut j: usize = i + 1;
            while j < n
                invariant
                    n == self.node_hits@.len(),
                    i < n,
                    i + 1 <= j <= n,
                    forall|a: int, b: int| 0 <= a < i && a < b < n ==> hit_key(#[trigger] self.node_hits@[a]) != hit_key(#[trigger] self.node_hits@[b]),
                    forall|b: int| i < b < j ==> hit_key(self.node_hits@[i as int]) != hit_key(#[trigger] self.node_hits@[b]),
                decreases n - j,
            {
                if str_eq(self.node_hits[i].0.as_str(), self.node_hits[j].0.as_str()) {
                    return false;
                }
                j += 1;
            }
            i += 1;
        }
        true
    }
}

/// `m` with `id` raised to at least `h` (set to `h` when absent).
pub open spec fn bump(m: Map<Seq<char>, u64>, id: Seq<char>, h: u64) -> Map<Seq<char>, u64> {
    if m.contains_key(id) {
        m.insert(id, if m[id] >= h { m[id] } else { h })
    } else {
        m.insert(id, h)
    }
}

/// `m` with the first `n` of `ids` bumped to `h`.
pub open spec fn bump_all(m: Map<Seq<char>, u64>, ids: Seq<Seq<char>>, h: u64, n: int) -> Map<Seq<char>, u64>
    decreases n,
{
    if n <= 0 {
        m
    } else {
        bump(bump_all(m, ids, h, n - 1), ids[n - 1], h)
    }
}

/// `m` with the nodes of each of the first `n` paths that has hits bumped to
/// the path's hits.
pub open spec fn merged_hits(m: Map<Seq<char>, u64>, paths: Seq<ObservedPath>, n: int) -> Map<Seq<char>, u64>
    decreases n,
{
    if n <= 0 {
        m
    } else {
        let prev = merged_hits(m, paths, n - 1);
        let p = paths[n - 1];
        if p.hits > 0 {
            bump_all(prev, texts(p.node_ids@), p.hits, p.node_ids@.len() as int)
        } else {
            prev
        }
    }
}

/// The node ids of the first `n` paths, path by path.
pub open spec fn path_ids(paths: Seq<ObservedPath>, n: int) -> Seq<Seq<char>>
    decreases n,
{
    if n <= 0 {
        Seq::empty()
    } else {
        path_ids(paths, n - 1) + texts(paths[n - 1].node_ids@)
    }
}

/// The node ids an overlay observes: those with hits, then those on paths.
pub open spec fn observed_ids(o: RuntimeOverlay) -> Seq<Seq<char>> {
    o.node_hits@.map_values(|e: (String, u64)| hit_key(e)) + path_ids(o.paths@, o.paths@.len() as int)
}

/// The first of `edges` from `from` to `to`.
pub open spec fn first_link(edges: Seq<GraphEdge>, from: Seq<char>, to: Seq<char>) -> Option<Seq<char>>
    decreases edges.len(),
{
    if edges.len() == 0 {
        None
    } else if edges[0].from_id@ == from && edges[0].to_id@ == to {
        Some(edges[0].id@)
    } else {
        first_link(edges.drop_first(), from, to)
    }
}

/// The key of the edge between `from` and `to`: one in that direction
/// first, else one in the other.
pub open spec fn edge_key(edges: Seq<GraphEdge>, from: Seq<char>, to: Seq<char>) -> Option<Seq<char>> {
    match first_link(edges, from, to) {
        Some(k) => Some(k),
        None => first_link(edges, to, from),
    }
}

/// The keys of the edges between consecutive ids among the first `n` ids.
pub open spec fn step_keys(edges: Seq<GraphEdge>, ids: Seq<Seq<char>>, n: int) -> Seq<Seq<char>>
    decreases n,
{
    if n <= 1 {
        Seq::empty()
    } else {
        let rest = step_keys(edges, ids, n - 1);
        match edge_key(edges, ids[n - 2], ids[n - 1]) {
            Some(k) => rest.push(k),
            None => rest,
        }
    }
}

/// The edge keys observed along the first `n` paths.
pub open spec fn observed_edges(edges: Seq<GraphEdge>, paths: Seq<ObservedPath>, n: int) -> Seq<Seq<char>>
    decreases n,
{
    if n <= 0 {
        Seq::empty()
    } else {
        let ids = texts(paths[n - 1].node_ids@);
        observed_edges(edges, paths, n - 1) + step_keys(edges, ids, ids.len() as int)
    }
}

/// `r` is `subgraph` with `overlay` attached.
pub open spec fn overlay_attached(subgraph: Subgraph, overlay: RuntimeOverlay, r: Subgraph) -> bool {
    &&& r.nodes == subgraph.nodes
    &&& r.edges == subgraph.edges
    &&& r.ghosts == subgraph.ghosts
    &&& match r.overlay {
        Some(o) => {
            &&& distinct_hits(o.node_hits@)
            &&& hits_view(o.node_hits@) == merged_hits(hits_view(overlay.node_hits@), overlay.paths@, overlay.paths@.len() as int)
            &&& paths_view(o.paths@) == paths_view(overlay.paths@)
            &&& texts(o.observed_node_ids@) == sorted_distinct(observed_ids(overlay))
            &&& texts(o.observed_edge_keys@) == sorted_distinct(observed_edges(subgraph.edges@, overlay.paths@, overlay.paths@.len() as int))
        },
        None => false,
    }
}

/// The key of the edge between `from` and `to`, in either direction.
pub fn find_edge_key(edges: &Vec<GraphEdge>, from: &str, to: &str) -> (r: Option<String>)
    ensures
        crate::store::opt_text(r) == edge_key(edges@, from@, to@),
{
    match first_link_of(edges, from, to) {
        Some(k) => Some(k),
        None => first_link_of(edges, to, from),
    }
}

fn first_link_of(edges: &Vec<GraphEdge>, from: &str, to: &str) -> (r: Option<String>)
    ensures
        crate::store::opt_text(r) == first_link(edges@, from@, to@),
{
    let mut i: usize = 0;
    assert(edges@.skip(0) =~= edges@);
    while i < edges.len()
        invariant
            i <= edges.len(),
            first_link(edges@, from@, to@) == first_link(edges@.skip(i as int), from@, to@),
        decreases edges.len() - i,
    {
        assert(edges@.skip(i as int)[0] == edges@[i as int]);
        if str_eq(edges[i].from_id.as_str(), from) && str_eq(edges[i].to_id.as_str(), to) {
            return Some(edges[i].id.clone());
        }
        assert(edges@.skip(i as int).drop_first() =~= edges@.skip(i + 1));
        i += 1;
    }
    assert(edges@.skip(i as int).len() == 0);
    None
}

pub proof fn lemma_hits_push(v: Seq<(String, u64)>, e: (String, u64))
    requires
        distinct_hits(v),
        !has_hit(v, hit_key(e)),
    ensures
        distinct_hits(v.push(e)),
        hits_view(v.push(e)) == hits_view(v).insert(hit_key(e), hit_count(e)),
{
    let w = v.push(e);
    assert forall|i: int, j: int| 0 <= i < j < w.len() implies hit_key(#[trigger] w[i]) != hit_key(#[trigger] w[j]) by {
        if j == v.len() {
            assert(w[i] == v[i]);
        } else {
            assert(w[i] == v[i] && w[j] == v[j]);
        }
    }
    assert forall|k: Seq<char>| has_hit(w, k) <==> has_hit(v, k) || k == hit_key(e) by {
        if has_hit(v, k) {
            let i = choose|i: int| 0 <= i < v.len() && hit_key(v[i]) == k;
            assert(w[i] == v[i]);
        }
        if k == hit_key(e) {
            assert(w[v.len() as int] == e);
        }
        if has_hit(w, k) {
            let i = choose|i: int| 0 <= i < w.len() && hit_key(w[i]) == k;
            if i < v.len() {
                assert(w[i] == v[i]);
            }
        }
    }
    assert forall|k: Seq<char>| #[trigger] has_hit(w, k) implies hits_view(w)[k] == hits_view(v).insert(hit_key(e), hit_count(e))[k] by {
        let i = choose|i: int| 0 <= i < w.len() && hit_key(w[i]) == k;
        if k == hit_key(e) {
            assert(i == v.len()) by {
                if i < v.len() {
                    assert(w[i] == v[i]);
                }
            }
        } else {
            assert(i < v.len());
            assert(w[i] == v[i]);
            let q = choose|q: int| 0 <= q < v.len() && hit_key(v[q]) == k;
            assert(q == i);
        }
    }
    assert(hits_view(w) =~= hits_view(v).insert(hit_key(e), hit_count(e)));
}

pub proof fn lemma_hits_update(v: Seq<(String, u64)>, k: int, c: u64)
    requires
        distinct_hits(v),
        0 <= k < v.len(),
    ensures
        distinct_hits(v.update(k, (v[k].0, c))),
        hits_view(v.update(k, (v[k].0, c))) == hits_view(v).insert(hit_key(v[k]), c),
        hits_view(v).contains_key(hit_key(v[k])) && hits_view(v)[hit_key(v[k])] == hit_count(v[k]),
{
    let e = (v[k].0, c);
    let w = v.update(k, e);
    assert(has_hit(v, hit_key(v[k])));
    assert forall|i: int, j: int| 0 <= i < j < w.len() implies hit_key(#[trigger] w[i]) != hit_key(#[trigger] w[j]) by {
        assert(hit_key(w[i]) == hit_key(v[i]) && hit_key(w[j]) == hit_key(v[j]));
    }
    assert forall|q: Seq<char>| has_hit(w, q) <==> has_hit(v, q) by {
        if has_hit(v, q) {
            let i = choose|i: int| 0 <= i < v.len() && hit_key(v[i]) == q;
            assert(hit_key(w[i]) == hit_key(v[i]));
        }
        if has_hit(w, q) {
            let i = choose|i: int| 0 <= i < w.len() && hit_key(w[i]) == q;
            assert(hit_key(w[i]) == hit_key(v[i]));
        }
    }
    assert forall|q: Seq<char>| #[trigger] has_hit(w, q) implies hits_view(w)[q] == hits_view(v).insert(hit_key(v[k]), c)[q] by {
        let i = choose|i: int| 0 <= i < w.len() && hit_key(w[i]) == q;
        assert(hit_key(w[i]) == hit_key(v[i]));
        let p = choose|p: int| 0 <= p < v.len() && hit_key(v[p]) == q;
        assert(p == i);
        if i == k {
            assert(q == hit_key(v[k]));
        } else {
            assert(q != hit_key(v[k]));
            assert(w[i] == v[i]);
        }
    }
    assert(hits_view(w) =~= hits_view(v).insert(hit_key(v[k]), c));
    let p = choose|p: int| 0 <= p < v.len() && hit_key(v[p]) == hit_key(v[k]);
    assert(p == k);
}

/// Raises the hits of `id` to at least `h`, adding it when absent.
fn bump_hits(hits: &mut Vec<(String, u64)>, id: &str, h: u64)
    requires
        distinct_hits(old(hits)@),
    ensures
        distinct_hits(final(hits)@),
        hits_view(final(hits)@) == bump(hits_view(old(hits)@), id@, h),
{
    let ghost v = hits@;
    let mut k: usize = 0;
    while k < hits.len()
        invariant
            k <= hits.len(),
            hits@ == v,
            v == old(hits)@,
            distinct_hits(v),
            forall|q: int| 0 <= q < k ==> hit_key(#[trigger] v[q]) != id@,
        decreases hits.len() - k,
    {
        if str_eq(hits[k].0.as_str(), id) {
            proof {
                lemma_hits_update(v, k as int, if v[k as int].1 >= h { v[k as int].1 } else { h });
            }
            let key = hits[k].0.clone();
            let c = if hits[k].1 >= h { hits[k].1 } else { h };
            hits.set(k, (key, c));
            assert(hits@ == v.update(k as int, (v[k as int].0, c)));
            return;
        }
        k += 1;
    }
    let owned = id.to_owned();
    proof {
        assert(!has_hit(v, id@));
        lemma_hits_push(v, (owned, h));
    }
    hits.push((owned, h));
    proof {
        assert(hits_view(v).contains_key(id@) == has_hit(v, id@));
    }
}

fn copy_hits(v: &Vec<(String, u64)>) -> (r: Vec<(String, u64)>)
    ensures
        r@ == v@,
{
    let mut r: Vec<(String, u64)> = Vec::new();
    let mut i: usize = 0;
    while i < v.len()
        invariant
            i <= v.len(),
            r@ == v@.take(i as int),
        decreases v.len() - i,
    {
        let key = v[i].0.clone();
        r.push((key, v[i].1));
        assert(v@.take(i + 1) =~= v@.take(i as int).push(v@[i as int]));
        i += 1;
    }
    assert(v@.take(v.len() as int) =~= v@);
    r
}

/// Attaches runtime observations to a static subgraph for highlighting: the
/// observed node ids and edge keys (sorted, each once), and hits raised to
/// those of the paths through each node.
pub fn attach_overlay(subgraph: Subgraph, overlay: &RuntimeOverlay) -> (r: Subgraph)
    requires
        overlay.wf(),
    ensures
        overlay_attached(subgraph, *overlay, r),
{
    let mut sg = subgraph;
    let ps = &overlay.paths;

    // observed node ids
    let mut ids: Vec<String> = Vec::new();
    let mut i: usize = 0;
    while i < overlay.node_hits.len()
        invariant
            i <= overlay.node_hits.len(),
            texts(ids@) == overlay.node_hits@.take(i as int).map_values(|e: (String, u64)| hit_key(e)),
        decreases overlay.node_hits.len() - i,
    {
        let ghost before = ids@;
        ids.push(overlay.node_hits[i].0.clone());
        assert(overlay.node_hits@.take(i + 1) =~= overlay.node_hits@.take(i as int).push(overlay.node_hits@[i as int]));
        assert(texts(ids@) =~= texts(before).push(hit_key(overlay.node_hits@[i as int])));
        assert(overlay.node_hits@.take(i + 1).map_values(|e: (String, u64)| hit_key(e)) =~= overlay.node_hits@.take(i as int).map_values(|e: (String, u64)| hit_key(e)).push(hit_key(overlay.node_hits@[i as int])));
        i += 1;
    }
    assert(overlay.node_hits@.take(overlay.node_hits.len() as int) =~= overlay.node_hits@);
    let ghost hit_ids = texts(ids@);
    let mut p: usize = 0;
    while p < ps.len()
        invariant
            p <= ps.len(),
            ps == &overlay.paths,
            texts(ids@) == hit_ids + path_ids(ps@, p as int),
        decreases ps.len() - p,
    {
        let path = &ps[p];
        let mut j: usize = 0;
        let ghost base = texts(ids@);
        while j < path.node_ids.len()
            invariant
                j <= path.node_ids.len(),
                texts(ids@) == base + texts(path.node_ids@).take(j as int),
            decreases path.node_ids.len() - j,
        {
            let ghost before = ids@;
            ids.push(path.node_ids[j].clone());
            assert(texts(ids@) =~= texts(before).push(path.node_ids@[j as int]@));
            assert(texts(path.node_ids@).take(j + 1) =~= texts(path.node_ids@).take(j as int).push(path.node_ids@[j as int]@));
            assert(texts(ids@) =~= base + texts(path.node_ids@).take(j + 1));
            j += 1;
        }
        assert(texts(path.node_ids@).take(path.node_ids.len() as int) =~= texts(path.node_ids@));
        assert(texts(ids@) =~= hit_ids + path_ids(ps@, p + 1));
        p += 1;
    }
    let observed_node_ids = sort_dedup_texts(&ids);

    // observed edge keys
    let mut keys: Vec<String> = Vec::new();
    let mut p: usize = 0;
    while p < ps.len()
        invariant
            p <= ps.len(),
            ps == &overlay.paths,
            texts(keys@) == observed_edges(sg.edges@, ps@, p as int),
        decreases ps.len() - p,
    {
        let path = &ps[p];
        let ghost pids = texts(path.node_ids@);
        let ghost base = texts(keys@);
        let mut k: usize = 1;
        while k < path.node_ids.len()
            invariant
                1 <= k,
                k <= path.node_ids.len() || k == 1,
                pids == texts(path.node_ids@),
                texts(keys@) == base + step_keys(sg.edges@, pids, k as int),
            decreases path.node_ids.len() - k,
        {
            if let Some(key) = find_edge_key(&sg.edges, path.node_ids[k - 1].as_str(), path.node_ids[k].as_str()) {
                let ghost before = keys@;
                keys.push(key);
                assert(texts(keys@) =~= texts(before).push(key@));
            }
            k += 1;
        }
        proof {
            assert(pids.len() == path.node_ids@.len());
            if path.node_ids.len() == 0 {
                assert(step_keys(sg.edges@, pids, 0) == step_keys(sg.edges@, pids, 1));
            }
            assert(texts(keys@) == base + step_keys(sg.edges@, pids, pids.len() as int));
            assert(ps@[p as int] == *path);
        }
        assert(texts(keys@) =~= observed_edges(sg.edges@, ps@, p + 1));
        p += 1;
    }
    let observed_edge_keys = sort_dedup_texts(&keys);

    // hits raised along paths
    let mut hits = copy_hits(&overlay.node_hits);
    let mut p: usize = 0;
    while p < ps.len()
        invariant
            p <= ps.len(),
            ps == &overlay.paths,
            distinct_hits(hits@),
            hits_view(hits@) == merged_hits(hits_view(overlay.node_hits@), ps@, p as int),
        decreases ps.len() - p,
    {
        let path = &ps[p];
        if path.hits > 0 {
            let ghost pids = texts(path.node_ids@);
            let ghost m0 = hits_view(hits@);
            let mut j: usize = 0;
            while j < path.node_ids.len()
                invariant
                    j <= path.node_ids.len(),
                    pids == texts(path.node_ids@),
                    distinct_hits(hits@),
                    hits_view(hits@) == bump_all(m0, pids, path.hits, j as int),
                decreases path.node_ids.len() - j,
            {
                bump_hits(&mut hits, path.node_ids[j].as_str(), path.hits);
                j += 1;
            }
        }
        p += 1;
    }
    let paths = copy_paths(ps);
    sg.overlay = Some(SubgraphOverlay { node_hits: hits, paths, observed_node_ids, observed_edge_keys });
    sg
}

} // verus!
