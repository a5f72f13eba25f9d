//! The graph store: node and edge rows keyed by id, kept in insertion order,
//! with the queries the indexer and the engine run against them.
use vstd::prelude::*;
use crate::model::{Capabilities, Dup, dup_vec, EdgeKind, GraphEdge, GraphNode, LanguageCapability, NodeKind, Tier, edge_id, edge_id_text};
use crate::text::{chars_of, seq_eq, str_eq, text_order, is_prefix, lemma_text_order_antisym, lemma_text_order_refl};
use crate::like::{like, like_holds, like_match, like_text, lemma_like_prefix};
use crate::order::{KeyPart, KeyView, is_sort_permutation, key_order, key_view, key_views, permuted, sort_by_keys, sorts_before, stably_sorted,
    lemma_stably_sorted_order};

verus! {

/// Node ids are unique among the rows.
pub open spec fn unique_node_ids(rows: Seq<GraphNode>) -> bool {
    forall|i: int, j: int| 0 <= i < j < rows.len() ==> rows[i].id@ != rows[j].id@
}

/// Edge ids are unique among the rows.
pub open spec fn unique_edge_ids(rows: Seq<GraphEdge>) -> bool {
    forall|i: int, j: int| 0 <= i < j < rows.len() ==> rows[i].id@ != rows[j].id@
}

/// Rows after an insert-or-replace: the row with the same id leaves, the new row comes last.
pub open spec fn upsert_node(rows: Seq<GraphNode>, n: GraphNode) -> Seq<GraphNode> {
    rows.filter(node_id_differs(n.id@)).push(n)
}

/// Rows whose id is not `id`.
pub open spec fn node_id_differs(id: Seq<char>) -> spec_fn(GraphNode) -> bool {
    |r: GraphNode| r.id@ != id
}

pub open spec fn edge_id_differs(id: Seq<char>) -> spec_fn(GraphEdge) -> bool {
    |r: GraphEdge| r.id@ != id
}

pub open spec fn upsert_edge(rows: Seq<GraphEdge>, e: GraphEdge) -> Seq<GraphEdge> {
    rows.filter(edge_id_differs(e.id@)).push(e)
}

/// An edge kind filter: `None` admits every kind.
pub open spec fn kind_admits(filter: Option<EdgeKind>, k: EdgeKind) -> bool {
    match filter {
        Some(f) => f == k,
        None => true,
    }
}

/// A node's line as the stores orders it: absent lines first.
pub open spec fn line_key(n: GraphNode) -> int {
    match n.line {
        Some(l) => l as int,
        None => -1,
    }
}

/// Row `i` satisfies `pred` and has the least line of all such rows (the first of them on a tie).
pub open spec fn first_by_line(rows: Seq<GraphNode>, pred: spec_fn(GraphNode) -> bool, i: int) -> bool {
    &&& 0 <= i < rows.len()
    &&& pred(rows[i])
    &&& forall|j: int|
        0 <= j < rows.len() && pred(#[trigger] rows[j]) ==> line_key(rows[i]) < line_key(rows[j])
            || (line_key(rows[i]) == line_key(rows[j]) && i <= j)
}

/// Row `i` satisfies `pred` and has the greatest line of all such rows (the first of them on a tie).
pub open spec fn last_by_line(rows: Seq<GraphNode>, pred: spec_fn(GraphNode) -> bool, i: int) -> bool {
    &&& 0 <= i < rows.len()
    &&& pred(rows[i])
    &&& forall|j: int|
        0 <= j < rows.len() && pred(#[trigger] rows[j]) ==> line_key(rows[i]) > line_key(rows[j])
            || (line_key(rows[i]) == line_key(rows[j]) && i <= j)
}

/// The id of the first row of `pred` by line, if any row satisfies it.
pub open spec fn first_id_by_line(rows: Seq<GraphNode>, pred: spec_fn(GraphNode) -> bool) -> Option<Seq<char>> {
    if exists|i: int| first_by_line(rows, pred, i) {
        Some(rows[choose|i: int| first_by_line(rows, pred, i)].id@)
    } else {
        None
    }
}

pub open spec fn last_id_by_line(rows: Seq<GraphNode>, pred: spec_fn(GraphNode) -> bool) -> Option<Seq<char>> {
    if exists|i: int| last_by_line(rows, pred, i) {
        Some(rows[choose|i: int| last_by_line(rows, pred, i)].id@)
    } else {
        None
    }
}

pub open spec fn opt_text(o: Option<String>) -> Option<Seq<char>> {
    match o {
        Some(s) => Some(s@),
        None => None,
    }
}

/// A function declared in `file` under `name`.
pub open spec fn is_function_in(n: GraphNode, file: Seq<char>, name: Seq<char>) -> bool {
    n.kind == NodeKind::Function && opt_text(n.parent_file) == Some(file) && n.name@ == name
}

pub open spec fn function_named(file: Seq<char>, name: Seq<char>) -> spec_fn(GraphNode) -> bool {
    |n: GraphNode| is_function_in(n, file, name)
}

pub open spec fn route_named(name: Seq<char>) -> spec_fn(GraphNode) -> bool {
    |n: GraphNode| is_route_named(n, name)
}

pub open spec fn function_started_by(file: Seq<char>, line: u32) -> spec_fn(GraphNode) -> bool {
    |n: GraphNode| starts_by(n, file, line)
}

pub open spec fn import_mentioning(file: Seq<char>, local: Seq<char>) -> spec_fn(GraphNode) -> bool {
    |n: GraphNode| is_import_mentioning(n, file, local)
}

pub open spec fn is_route_named(n: GraphNode, name: Seq<char>) -> bool {
    n.kind == NodeKind::Route && n.name@ == name
}

/// A function of `file` that starts on or before `line`.
pub open spec fn starts_by(n: GraphNode, file: Seq<char>, line: u32) -> bool {
    n.kind == NodeKind::Function && opt_text(n.parent_file) == Some(file) && match n.line {
        Some(l) => l <= line,
        None => false,
    }
}

/// The in-memory graph index.
pub struct GraphStore {
    nodes: Vec<GraphNode>,
    edges: Vec<GraphEdge>,
}

pub proof fn lemma_filter_step<A>(s: Seq<A>, p: spec_fn(A) -> bool, i: int)
    requires
        0 <= i < s.len(),
    ensures
        s.take(i + 1).filter(p) == if p(s[i]) {
            s.take(i).filter(p).push(s[i])
        } else {
            s.take(i).filter(p)
        },
{
    reveal(Seq::filter);
    assert(s.take(i + 1).drop_last() =~= s.take(i));
}

pub proof fn lemma_filter_unique_nodes(s: Seq<GraphNode>, p: spec_fn(GraphNode) -> bool)
    requires
        unique_node_ids(s),
    ensures
        unique_node_ids(s.filter(p)),
        forall|x: GraphNode| s.filter(p).contains(x) ==> s.contains(x),
    decreases s.len(),
{
    reveal(Seq::filter);
    if s.len() > 0 {
        lemma_filter_unique_nodes(s.drop_last(), p);
        let f = s.drop_last().filter(p);
        assert forall|x: GraphNode| f.contains(x) implies s.contains(x) by {
            let k = choose|k: int| 0 <= k < f.len() && f[k] == x;
            assert(s.drop_last().contains(x));
            let w = choose|w: int| 0 <= w < s.drop_last().len() && s.drop_last()[w] == x;
            assert(s[w] == x);
        }
        if p(s.last()) {
            assert forall|i: int, j: int| 0 <= i < j < f.push(s.last()).len()
                implies f.push(s.last())[i].id@ != f.push(s.last())[j].id@ by {
                if j == f.len() {
                    assert(s.drop_last().contains(f[i]));
                    let w = choose|w: int| 0 <= w < s.drop_last().len() && s.drop_last()[w] == f[i];
                    assert(s[w] == f[i]);
                    assert(s[w].id@ != s[s.len() - 1].id@);
                }
            }
            assert forall|x: GraphNode| f.push(s.last()).contains(x) implies s.contains(x) by {
                let k = choose|k: int| 0 <= k < f.push(s.last()).len() && f.push(s.last())[k] == x;
                if k < f.len() {
                    assert(f.contains(x));
                } else {
                    assert(s[s.len() - 1] == x);
                }
            }
        }
    }
}

pub proof fn lemma_filter_unique_edges(s: Seq<GraphEdge>, p: spec_fn(GraphEdge) -> bool)
    requires
        unique_edge_ids(s),
    ensures
        unique_edge_ids(s.filter(p)),
        forall|x: GraphEdge| s.filter(p).contains(x) ==> s.contains(x),
    decreases s.len(),
{
    reveal(Seq::filter);
    if s.len() > 0 {
        lemma_filter_unique_edges(s.drop_last(), p);
        let f = s.drop_last().filter(p);
        assert forall|x: GraphEdge| f.contains(x) implies s.contains(x) by {
            assert(s.drop_last().contains(x));
            let w = choose|w: int| 0 <= w < s.drop_last().len() && s.drop_last()[w] == x;
            assert(s[w] == x);
        }
        if p(s.last()) {
            assert forall|i: int, j: int| 0 <= i < j < f.push(s.last()).len()
                implies f.push(s.last())[i].id@ != f.push(s.last())[j].id@ by {
                if j == f.len() {
                    assert(s.drop_last().contains(f[i]));
                    let w = choose|w: int| 0 <= w < s.drop_last().len() && s.drop_last()[w] == f[i];
                    assert(s[w] == f[i]);
                    assert(s[w].id@ != s[s.len() - 1].id@);
                }
            }
            assert forall|x: GraphEdge| f.push(s.last()).contains(x) implies s.contains(x) by {
                let k = choose|k: int| 0 <= k < f.push(s.last()).len() && f.push(s.last())[k] == x;
                if k < f.len() {
                    assert(f.contains(x));
                } else {
                    assert(s[s.len() - 1] == x);
                }
            }
        }
    }
}

impl GraphStore {
    /// The node rows, in insertion order.
    pub closed spec fn node_rows(&self) -> Seq<GraphNode> {
        self.nodes@
    }

    /// The edge rows, in insertion order.
    pub closed spec fn edge_rows(&self) -> Seq<GraphEdge> {
        self.edges@
    }

    /// There are at most `usize::MAX` node rows and as many edge rows.
    pub(crate) proof fn lemma_rows_fit(&self)
        ensures
            self.node_rows().len() <= usize::MAX,
            self.edge_rows().len() <= usize::MAX,
    {
        assert(self.nodes.len() == self.nodes@.len());
        assert(self.edges.len() == self.edges@.len());
    }

    /// Ids are unique among the node rows and among the edge rows.
    pub open spec fn wf(&self) -> bool {
        unique_node_ids(self.node_rows()) && unique_edge_ids(self.edge_rows())
    }

    /// An empty store.
    pub fn open_in_memory() -> (s: GraphStore)
        ensures
            s.wf(),
            s.node_rows() == Seq::<GraphNode>::empty(),
            s.edge_rows() == Seq::<GraphEdge>::empty(),
    {
        GraphStore { nodes: Vec::new(), edges: Vec::new() }
    }

    /// A store holding the given rows (as read back from a saved index).
    pub fn from_rows(nodes: Vec<GraphNode>, edges: Vec<GraphEdge>) -> (s: GraphStore)
        requires
            unique_node_ids(nodes@),
            unique_edge_ids(edges@),
        ensures
            s.wf(),
            s.node_rows() == nodes@,
            s.edge_rows() == edges@,
    {
        GraphStore { nodes, edges }
    }

    /// The node rows, copied, in row order.
    pub fn all_nodes(&self) -> (r: Vec<GraphNode>)
        ensures
            r@ == self.node_rows(),
    {
        dup_vec(&self.nodes)
    }

    /// The edge rows, copied, in row order.
    pub fn all_edges(&self) -> (r: Vec<GraphEdge>)
        ensures
            r@ == self.edge_rows(),
    {
        dup_vec(&self.edges)
    }

    /// Removes every node and edge.
    pub fn clear(&mut self)
        ensures
            final(self).wf(),
            final(self).node_rows() == Seq::<GraphNode>::empty(),
            final(self).edge_rows() == Seq::<GraphEdge>::empty(),
    {
        self.nodes = Vec::new();
        self.edges = Vec::new();
    }

    pub fn node_exists(&self, id: &str) -> (b: bool)
        ensures
            b == exists|i: int| 0 <= i < self.node_rows().len() && #[trigger] self.node_rows()[i].id@ == id@,
    {
        let mut i: usize = 0;
        while i < self.nodes.len()
            invariant
                i <= self.nodes.len(),
                forall|j: int| 0 <= j < i ==> self.nodes@[j].id@ != id@,
            decreases self.nodes.len() - i,
        {
            if str_eq(self.nodes[i].id.as_str(), id) {
                return true;
            }
            i += 1;
        }
        false
    }

    /// The row with id `id`, if any.
    pub fn get_node(&self, id: &str) -> (r: Option<GraphNode>)
        requires
            self.wf(),
        ensures
            match r {
                Some(n) => self.node_rows().contains(n) && n.id@ == id@,
                None => forall|i: int| 0 <= i < self.node_rows().len() ==> #[trigger] self.node_rows()[i].id@ != id@,
            },
    {
        let mut i: usize = 0;
        while i < self.nodes.len()
            invariant
                i <= self.nodes.len(),
                forall|j: int| 0 <= j < i ==> self.nodes@[j].id@ != id@,
            decreases self.nodes.len() - i,
        {
            if str_eq(self.nodes[i].id.as_str(), id) {
                let n = self.nodes[i].dup();
                assert(self.nodes@[i as int] == n);
                return Some(n);
            }
            i += 1;
        }
        None
    }

    /// Inserts a node row, replacing the row with the same id.
    pub fn insert_node(&mut self, node: GraphNode)
        requires
            old(self).wf(),
        ensures
            final(self).wf(),
            final(self).node_rows() == upsert_node(old(self).node_rows(), node),
            final(self).edge_rows() == old(self).edge_rows(),
    {
        let ghost p = node_id_differs(node.id@);
        let mut kept: Vec<GraphNode> = Vec::new();
        let mut i: usize = 0;
        while i < self.nodes.len()
            invariant
                i <= self.nodes.len(),
                p == node_id_differs(node.id@),
                kept@ == self.nodes@.take(i as int).filter(p),
            decreases self.nodes.len() - i,
        {
            proof {
                lemma_filter_step(self.nodes@, p, i as int);
            }
            if !str_eq(self.nodes[i].id.as_str(), node.id.as_str()) {
                kept.push(self.nodes[i].dup());
            }
            i += 1;
        }
        proof {
            assert(self.nodes@.take(self.nodes@.len() as int) =~= self.nodes@);
            lemma_filter_unique_nodes(self.nodes@, p);
            let f = self.nodes@.filter(p);
            assert forall|a: int, b: int| 0 <= a < b < f.push(node).len()
                implies f.push(node)[a].id@ != f.push(node)[b].id@ by {
                if b == f.len() {
                    self.nodes@.lemma_filter_pred(p, a);
                }
            }
        }
        kept.push(node);
        self.nodes = kept;
    }

    /// Inserts an edge row, replacing the row with the same id.
    pub fn insert_edge_row(&mut self, edge: GraphEdge)
        requires
            old(self).wf(),
        ensures
            final(self).wf(),
            final(self).edge_rows() == upsert_edge(old(self).edge_rows(), edge),
            final(self).node_rows() == old(self).node_rows(),
    {
        let ghost p = edge_id_differs(edge.id@);
        let mut kept: Vec<GraphEdge> = Vec::new();
        let mut i: usize = 0;
        while i < self.edges.len()
            invariant
                i <= self.edges.len(),
                p == edge_id_differs(edge.id@),
                kept@ == self.edges@.take(i as int).filter(p),
            decreases self.edges.len() - i,
        {
            proof {
                lemma_filter_step(self.edges@, p, i as int);
            }
            if !str_eq(self.edges[i].id.as_str(), edge.id.as_str()) {
                kept.push(self.edges[i].dup());
            }
            i += 1;
        }
        proof {
            assert(self.edges@.take(self.edges@.len() as int) =~= self.edges@);
            lemma_filter_unique_edges(self.edges@, p);
            let f = self.edges@.filter(p);
            assert forall|a: int, b: int| 0 <= a < b < f.push(edge).len()
                implies f.push(edge)[a].id@ != f.push(edge)[b].id@ by {
                if b == f.len() {
                    self.edges@.lemma_filter_pred(p, a);
                }
            }
        }
        kept.push(edge);
        self.edges = kept;
    }

    /// Inserts the edge `from -[kind]-> to`, its id derived from the three.
    pub fn insert_edge(&mut self, from_id: &str, to_id: &str, kind: EdgeKind, confidence_milli: Option<u16>)
        requires
            old(self).wf(),
        ensures
            final(self).wf(),
            final(self).node_rows() == old(self).node_rows(),
            exists|e: GraphEdge|
                e.id@ == edge_id_text(from_id@, to_id@, kind) && e.from_id@ == from_id@ && e.to_id@
                    == to_id@ && e.kind == kind && e.confidence_milli == confidence_milli
                    && final(self).edge_rows() == upsert_edge(old(self).edge_rows(), e),
    {
        let e = GraphEdge {
            id: edge_id(from_id, to_id, kind),
            from_id: from_id.to_owned(),
            to_id: to_id.to_owned(),
            kind,
            confidence_milli,
        };
        self.insert_edge_row(e);
    }

    /// The index of the first row satisfying `f` by line (`last` picks the greatest line).
    fn pick_by_line<F: Fn(&GraphNode) -> bool>(
        &self,
        f: F,
        Ghost(pred): Ghost<spec_fn(GraphNode) -> bool>,
        last: bool,
    ) -> (r: Option<usize>)
        requires
            forall|n: GraphNode| #[trigger] f.requires((&n,)),
            forall|n: GraphNode, b: bool| f.ensures((&n,), b) ==> b == pred(n),
        ensures
            match r {
                Some(b) => if last {
                    last_by_line(self.node_rows(), pred, b as int)
                } else {
                    first_by_line(self.node_rows(), pred, b as int)
                },
                None => forall|j: int|
                    0 <= j < self.node_rows().len() ==> !pred(#[trigger] self.node_rows()[j]),
            },
    {
        let mut best: Option<usize> = None;
        let mut i: usize = 0;
        while i < self.nodes.len()
            invariant
                i <= self.nodes.len(),
                forall|n: GraphNode| #[trigger] f.requires((&n,)),
                forall|n: GraphNode, b: bool| f.ensures((&n,), b) ==> b == pred(n),
                match best {
                    Some(b) => b < i && if last {
                        last_by_line(self.nodes@.take(i as int), pred, b as int)
                    } else {
                        first_by_line(self.nodes@.take(i as int), pred, b as int)
                    },
                    None => forall|j: int| 0 <= j < i ==> !pred(#[trigger] self.nodes@[j]),
                },
            decreases self.nodes.len() - i,
        {
            let is_match = f(&self.nodes[i]);
            if is_match {
                match best {
                    None => {
                        best = Some(i);
                    },
                    Some(b) => {
                        let better = if last {
                            line_lt(&self.nodes[b], &self.nodes[i])
                        } else {
                            line_lt(&self.nodes[i], &self.nodes[b])
                        };
                        if better {
                            best = Some(i);
                        }
                    },
                }
            }
            proof {
                let t = self.nodes@.take(i + 1);
                assert(t.take(i as int) =~= self.nodes@.take(i as int));
                match best {
                    Some(b) => {
                        if last {
                            assert forall|j: int| 0 <= j < t.len() && pred(#[trigger] t[j]) implies line_key(t[b as int]) > line_key(t[j])
                                || (line_key(t[b as int]) == line_key(t[j]) && b <= j) by {
                                if j < i {
                                    assert(self.nodes@.take(i as int)[j] == t[j]);
                                }
                            }
                        } else {
                            assert forall|j: int| 0 <= j < t.len() && pred(#[trigger] t[j]) implies line_key(t[b as int]) < line_key(t[j])
                                || (line_key(t[b as int]) == line_key(t[j]) && b <= j) by {
                                if j < i {
                                    assert(self.nodes@.take(i as int)[j] == t[j]);
                                }
                            }
                        }
                    },
                    None => {},
                }
            }
            i += 1;
        }
        proof {
            assert(self.nodes@.take(self.nodes@.len() as int) =~= self.nodes@);
        }
        best
    }

    /// The id of the first-declared function `name` of `file`.
    pub fn find_function_symbol_id(&self, file: &str, name: &str) -> (r: Option<String>)
        ensures
            opt_text(r) == first_id_by_line(self.node_rows(), function_named(file@, name@)),
    {
        let ghost pred = function_named(file@, name@);
        let f = |n: &GraphNode| -> (b: bool)
            ensures
                b == is_function_in(*n, file@, name@),
        {
            n.kind == NodeKind::Function && match &n.parent_file {
                Some(pf) => str_eq(pf.as_str(), file),
                None => false,
            } && str_eq(n.name.as_str(), name)
        };
        let best = self.pick_by_line(f, Ghost(pred), false);
        self.first_id_result(best, Ghost(pred))
    }

    /// The id of the first-declared route `route_name`.
    pub fn find_route_symbol_id(&self, route_name: &str) -> (r: Option<String>)
        ensures
            opt_text(r) == first_id_by_line(self.node_rows(), route_named(route_name@)),
    {
        let ghost pred = route_named(route_name@);
        let f = |n: &GraphNode| -> (b: bool)
            ensures
                b == is_route_named(*n, route_name@),
        { n.kind == NodeKind::Route && str_eq(n.name.as_str(), route_name) };
        let best = self.pick_by_line(f, Ghost(pred), false);
        self.first_id_result(best, Ghost(pred))
    }

    /// The id of the function of `file` that starts last on or before `line`.
    pub fn find_enclosing_function(&self, file: &str, line: u32) -> (r: Option<String>)
        ensures
            opt_text(r) == last_id_by_line(self.node_rows(), function_started_by(file@, line)),
    {
        let ghost pred = function_started_by(file@, line);
        let f = |n: &GraphNode| -> (b: bool)
            ensures
                b == starts_by(*n, file@, line),
        {
            n.kind == NodeKind::Function && match &n.parent_file {
                Some(pf) => str_eq(pf.as_str(), file),
                None => false,
            } && match n.line {
                Some(l) => l <= line,
                None => false,
            }
        };
        let best = self.pick_by_line(f, Ghost(pred), true);
        match best {
            Some(b) => {
                proof {
                    let k = choose|k: int| last_by_line(self.nodes@, pred, k);
                    assert(last_by_line(self.nodes@, pred, k));
                    assert(k == b);
                }
                Some(self.nodes[b].id.clone())
            },
            None => {
                proof {
                    if exists|k: int| last_by_line(self.nodes@, pred, k) {
                        let k = choose|k: int| last_by_line(self.nodes@, pred, k);
                        assert(pred(self.nodes@[k]));
                    }
                }
                None
            },
        }
    }

    /// The id of the first import of `file` whose text contains `local_name` (as `LIKE '%name%'`).
    pub fn find_import_symbol_id(&self, file: &str, local_name: &str) -> (r: Option<String>)
        ensures
            opt_text(r) == first_id_by_line(self.node_rows(), import_mentioning(file@, local_name@)),
    {
        let ghost pred = import_mentioning(file@, local_name@);
        let pattern = surround_percent(local_name);
        let f = |n: &GraphNode| -> (b: bool)
            ensures
                b == is_import_mentioning(*n, file@, local_name@),
        {
            if n.kind == NodeKind::Import && match &n.parent_file {
                Some(pf) => str_eq(pf.as_str(), file),
                None => false,
            } {
                let name = chars_of(n.name.as_str());
                if name.len() < usize::MAX {
                    like(&pattern, &name, None)
                } else {
                    false
                }
            } else {
                false
            }
        };
        let best = self.pick_by_line(f, Ghost(pred), false);
        self.first_id_result(best, Ghost(pred))
    }

    /// Records which languages have semantic resolution. The tier of each
    /// language is derived from its semantic edges, so the store is left as it is.
    pub fn set_l2_languages(&self, _languages: std::collections::HashSet<String>) -> (r: Result<(), crate::model::IndexError>)
        ensures
            r is Ok,
    {
        Ok(())
    }

    fn filter_edges<F: Fn(&GraphEdge) -> bool>(&self, f: F, Ghost(pred): Ghost<spec_fn(GraphEdge) -> bool>) -> (r: Vec<GraphEdge>)
        requires
            forall|e: GraphEdge| #[trigger] f.requires((&e,)),
            forall|e: GraphEdge, b: bool| f.ensures((&e,), b) ==> b == pred(e),
        ensures
            r@ == self.edge_rows().filter(pred),
    {
        let mut out: Vec<GraphEdge> = Vec::new();
        let mut i: usize = 0;
        while i < self.edges.len()
            invariant
                i <= self.edges.len(),
                forall|e: GraphEdge| #[trigger] f.requires((&e,)),
                forall|e: GraphEdge, b: bool| f.ensures((&e,), b) ==> b == pred(e),
                out@ == self.edges@.take(i as int).filter(pred),
            decreases self.edges.len() - i,
        {
            proof {
                lemma_filter_step(self.edges@, pred, i as int);
            }
            if f(&self.edges[i]) {
                out.push(self.edges[i].dup());
            }
            i += 1;
        }
        assert(self.edges@.take(self.edges@.len() as int) =~= self.edges@);
        out
    }

    fn filter_nodes<F: Fn(&GraphNode) -> bool>(&self, f: F, Ghost(pred): Ghost<spec_fn(GraphNode) -> bool>) -> (r: Vec<GraphNode>)
        requires
            forall|n: GraphNode| #[trigger] f.requires((&n,)),
            forall|n: GraphNode, b: bool| f.ensures((&n,), b) ==> b == pred(n),
        ensures
            r@ == self.node_rows().filter(pred),
    {
        let mut out: Vec<GraphNode> = Vec::new();
        let mut i: usize = 0;
        while i < self.nodes.len()
            invariant
                i <= self.nodes.len(),
                forall|n: GraphNode| #[trigger] f.requires((&n,)),
                forall|n: GraphNode, b: bool| f.ensures((&n,), b) ==> b == pred(n),
                out@ == self.nodes@.take(i as int).filter(pred),
            decreases self.nodes.len() - i,
        {
            proof {
                lemma_filter_step(self.nodes@, pred, i as int);
            }
            if f(&self.nodes[i]) {
                out.push(self.nodes[i].dup());
            }
            i += 1;
        }
        assert(self.nodes@.take(self.nodes@.len() as int) =~= self.nodes@);
        out
    }

    /// Edges leaving `id`, of kind `kind` when one is given, in row order.
    pub fn edges_from(&self, id: &str, kind: Option<EdgeKind>) -> (r: Vec<GraphEdge>)
        ensures
            r@ == self.edge_rows().filter(|e: GraphEdge| e.from_id@ == id@ && kind_admits(kind, e.kind)),
    {
        let ghost pred = |e: GraphEdge| e.from_id@ == id@ && kind_admits(kind, e.kind);
        let f = |e: &GraphEdge| -> (b: bool)
            ensures
                b == (e.from_id@ == id@ && kind_admits(kind, e.kind)),
        {
            str_eq(e.from_id.as_str(), id) && match kind {
                Some(k) => k == e.kind,
                None => true,
            }
        };
        self.filter_edges(f, Ghost(pred))
    }

    /// Edges entering `id`, of kind `kind` when one is given, in row order.
    pub fn edges_to(&self, id: &str, kind: Option<EdgeKind>) -> (r: Vec<GraphEdge>)
        ensures
            r@ == self.edge_rows().filter(|e: GraphEdge| e.to_id@ == id@ && kind_admits(kind, e.kind)),
    {
        let ghost pred = |e: GraphEdge| e.to_id@ == id@ && kind_admits(kind, e.kind);
        let f = |e: &GraphEdge| -> (b: bool)
            ensures
                b == (e.to_id@ == id@ && kind_admits(kind, e.kind)),
        {
            str_eq(e.to_id.as_str(), id) && match kind {
                Some(k) => k == e.kind,
                None => true,
            }
        };
        self.filter_edges(f, Ghost(pred))
    }

    /// Number of file nodes.
    pub fn file_count(&self) -> (c: usize)
        ensures
            c == self.node_rows().filter(|n: GraphNode| n.kind == NodeKind::File).len(),
    {
        let ghost pred = |n: GraphNode| n.kind == NodeKind::File;
        let f = |n: &GraphNode| -> (b: bool)
            ensures
                b == (n.kind == NodeKind::File),
        { n.kind == NodeKind::File };
        self.filter_nodes(f, Ghost(pred)).len()
    }

    /// Number of symbol nodes (everything below a file).
    pub fn symbol_count(&self) -> (c: usize)
        ensures
            c == self.node_rows().filter(|n: GraphNode| n.kind.symbol_kind()).len(),
    {
        let ghost pred = |n: GraphNode| n.kind.symbol_kind();
        let f = |n: &GraphNode| -> (b: bool)
            ensures
                b == n.kind.symbol_kind(),
        { n.kind.is_symbol() };
        self.filter_nodes(f, Ghost(pred)).len()
    }

    /// Every node, ordered by kind name, path, line (absent first) and name.
    pub fn list_nodes(&self) -> (r: Vec<GraphNode>)
        ensures
            stably_sorted(self.node_rows(), node_list_keys(self.node_rows()), r@),
    {
        let mut keys: Vec<Vec<KeyPart>> = Vec::new();
        let mut i: usize = 0;
        while i < self.nodes.len()
            invariant
                i <= self.nodes.len(),
                keys.len() == i,
                forall|k: int| 0 <= k < i ==> key_view(#[trigger] keys@[k]@) == node_list_key(self.nodes@[k]),
            decreases self.nodes.len() - i,
        {
            keys.push(node_list_key_exec(&self.nodes[i]));
            i += 1;
        }
        assert(key_views(keys@) =~= self.nodes@.map_values(|n: GraphNode| node_list_key(n)));
        sort_by_keys(&self.nodes, &keys)
    }

    /// The file nodes, in the order of `list_nodes`.
    pub fn list_files(&self) -> (r: Vec<GraphNode>)
        ensures
            exists|all: Seq<GraphNode>|
                #[trigger] stably_sorted(self.node_rows(), node_list_keys(self.node_rows()), all)
                    && r@ == only_files(all),
    {
        let all = self.list_nodes();
        let ghost pred = |n: GraphNode| n.kind == NodeKind::File;
        let mut out: Vec<GraphNode> = Vec::new();
        let mut i: usize = 0;
        while i < all.len()
            invariant
                i <= all.len(),
                pred == (|n: GraphNode| n.kind == NodeKind::File),
                out@ == all@.take(i as int).filter(pred),
            decreases all.len() - i,
        {
            proof {
                lemma_filter_step(all@, pred, i as int);
            }
            if all[i].kind == NodeKind::File {
                out.push(all[i].dup());
            }
            i += 1;
        }
        assert(all@.take(all@.len() as int) =~= all@);
        out
    }

    /// Every edge, ordered by id.
    pub fn list_edges(&self) -> (r: Vec<GraphEdge>)
        ensures
            stably_sorted(self.edge_rows(), edge_list_keys(self.edge_rows()), r@),
    {
        let mut keys: Vec<Vec<KeyPart>> = Vec::new();
        let mut i: usize = 0;
        while i < self.edges.len()
            invariant
                i <= self.edges.len(),
                keys.len() == i,
                forall|k: int| 0 <= k < i ==> key_view(#[trigger] keys@[k]@) == edge_list_key(self.edges@[k]),
            decreases self.edges.len() - i,
        {
            let mut key: Vec<KeyPart> = Vec::new();
            key.push(KeyPart::Text(chars_of(self.edges[i].id.as_str())));
            assert(key_view(key@) =~= edge_list_key(self.edges@[i as int]));
            keys.push(key);
            i += 1;
        }
        assert(key_views(keys@) =~= self.edges@.map_values(|e: GraphEdge| edge_list_key(e)));
        sort_by_keys(&self.edges, &keys)
    }

    /// Functions and classes that no `CALLS` edge enters, ordered by path and line.
    pub fn symbols_without_incoming_calls(&self) -> (r: Vec<GraphNode>)
        ensures
            stably_sorted(
                uncalled_rows(self.node_rows(), self.edge_rows()),
                path_line_keys(uncalled_rows(self.node_rows(), self.edge_rows())),
                r@,
            ),
    {
        let ghost pred = |n: GraphNode| is_uncalled(n, self.edge_rows());
        let f = |n: &GraphNode| -> (b: bool)
            ensures
                b == is_uncalled(*n, self.edge_rows()),
        {
            (n.kind == NodeKind::Function || n.kind == NodeKind::Class) && !self.has_incoming_call(n.id.as_str())
        };
        let cands = self.filter_nodes(f, Ghost(pred));
        let mut keys: Vec<Vec<KeyPart>> = Vec::new();
        let mut i: usize = 0;
        while i < cands.len()
            invariant
                i <= cands.len(),
                keys.len() == i,
                forall|k: int| 0 <= k < i ==> key_view(#[trigger] keys@[k]@) == path_line_key(cands@[k]),
            decreases cands.len() - i,
        {
            keys.push(path_line_key_exec(&cands[i]));
            i += 1;
        }
        assert(key_views(keys@) =~= cands@.map_values(|n: GraphNode| path_line_key(n)));
        sort_by_keys(&cands, &keys)
    }

    fn has_incoming_call(&self, id: &str) -> (b: bool)
        ensures
            b == exists|j: int| 0 <= j < self.edge_rows().len() && is_call_into(#[trigger] self.edge_rows()[j], id@),
    {
        let mut i: usize = 0;
        while i < self.edges.len()
            invariant
                i <= self.edges.len(),
                forall|j: int| 0 <= j < i ==> !is_call_into(#[trigger] self.edges@[j], id@),
            decreases self.edges.len() - i,
        {
            if self.edges[i].kind == EdgeKind::Calls && str_eq(self.edges[i].to_id.as_str(), id) {
                assert(is_call_into(self.edge_rows()[i as int], id@));
                return true;
            }
            i += 1;
        }
        false
    }

    /// Number of file nodes of language `lang`.
    fn count_files_of(&self, lang: &str) -> (c: usize)
        ensures
            c == file_lang_count(self.node_rows(), lang@),
    {
        let ghost pred = |n: GraphNode| is_file_of(n, lang@);
        let f = |n: &GraphNode| -> (b: bool)
            ensures
                b == is_file_of(*n, lang@),
        { n.kind == NodeKind::File && str_eq(n.language_id.as_str(), lang) };
        self.filter_nodes(f, Ghost(pred)).len()
    }

    fn has_symbols_of(&self, lang: &str) -> (b: bool)
        ensures
            b == has_symbols(self.node_rows(), lang@),
    {
        let mut i: usize = 0;
        while i < self.nodes.len()
            invariant
                i <= self.nodes.len(),
                forall|j: int| 0 <= j < i ==> !is_symbol_of(#[trigger] self.nodes@[j], lang@),
            decreases self.nodes.len() - i,
        {
            if self.nodes[i].kind.is_symbol() && str_eq(self.nodes[i].language_id.as_str(), lang) {
                assert(is_symbol_of(self.node_rows()[i as int], lang@));
                return true;
            }
            i += 1;
        }
        false
    }

    /// Whether some node of `lang` is an end of some edge of `level`.
    fn lang_reaches(&self, lang: &str, level: u8) -> (b: bool)
        ensures
            b == lang_at_level(self.node_rows(), self.edge_rows(), lang@, level as nat),
    {
        if str_eq(lang, "directory") {
            return false;
        }
        let mut i: usize = 0;
        while i < self.nodes.len()
            invariant
                i <= self.nodes.len(),
                lang@ != "directory"@,
                forall|a: int, c: int|
                    0 <= a < i && 0 <= c < self.edges@.len() ==> !level_link(
                        #[trigger] self.nodes@[a],
                        #[trigger] self.edges@[c],
                        lang@,
                        level as nat,
                    ),
            decreases self.nodes.len() - i,
        {
            if str_eq(self.nodes[i].language_id.as_str(), lang) {
                let mut j: usize = 0;
                while j < self.edges.len()
                    invariant
                        i < self.nodes.len(),
                        j <= self.edges.len(),
                        lang@ != "directory"@,
                        self.nodes@[i as int].language_id@ == lang@,
                        forall|c: int|
                            0 <= c < j ==> !level_link(self.nodes@[i as int], #[trigger] self.edges@[c], lang@, level as nat),
                    decreases self.edges.len() - j,
                {
                    let e = &self.edges[j];
                    let n = &self.nodes[i];
                    let touch = str_eq(n.id.as_str(), e.from_id.as_str()) || str_eq(n.id.as_str(), e.to_id.as_str());
                    if touch && level_kind_exec(e.kind, level) {
                        assert(level_link(self.node_rows()[i as int], self.edge_rows()[j as int], lang@, level as nat));
                        return true;
                    }
                    j += 1;
                }
            }
            i += 1;
        }
        false
    }

    fn tier_of(&self, lang: &str) -> (t: Tier)
        ensures
            t == capability_tier(self.node_rows(), self.edge_rows(), lang@),
    {
        if self.lang_reaches(lang, 4) {
            Tier::L4
        } else if self.lang_reaches(lang, 3) {
            Tier::L3
        } else if self.lang_reaches(lang, 2) {
            Tier::L2
        } else if self.has_symbols_of(lang) {
            Tier::L1
        } else {
            Tier::L0
        }
    }

    /// The languages of the file nodes, each with its file count and tier, ordered by id.
    pub fn capabilities(&self) -> (c: Capabilities)
        ensures
            capabilities_of(self.node_rows(), self.edge_rows(), c.languages@),
    {
        // distinct file languages, in first-seen order
        let mut langs: Vec<String> = Vec::new();
        let mut i: usize = 0;
        while i < self.nodes.len()
            invariant
                i <= self.nodes.len(),
                forall|a: int, b: int| 0 <= a < b < langs.len() ==> langs@[a]@ != langs@[b]@,
                forall|a: int| 0 <= a < langs.len() ==> file_lang_count(self.nodes@, #[trigger] langs@[a]@) > 0,
                forall|k: int|
                    0 <= k < i && (#[trigger] self.nodes@[k]).kind == NodeKind::File ==> exists|a: int|
                        0 <= a < langs.len() && langs@[a]@ == self.nodes@[k].language_id@,
            decreases self.nodes.len() - i,
        {
            if self.nodes[i].kind == NodeKind::File {
                let mut found = false;
                let mut a: usize = 0;
                while a < langs.len()
                    invariant
                        i < self.nodes.len(),
                        a <= langs.len(),
                        !found ==> forall|b: int| 0 <= b < a ==> langs@[b]@ != self.nodes@[i as int].language_id@,
                        found ==> exists|b: int| 0 <= b < langs.len() && langs@[b]@ == self.nodes@[i as int].language_id@,
                    decreases langs.len() - a,
                {
                    if str_eq(langs[a].as_str(), self.nodes[i].language_id.as_str()) {
                        found = true;
                    }
                    a += 1;
                }
                if !found {
                    proof {
                        lemma_file_count_positive(self.nodes@, i as int);
                    }
                    let ghost before = langs@;
                    langs.push(self.nodes[i].language_id.clone());
                    proof {
                        assert(langs@[before.len() as int]@ == self.nodes@[i as int].language_id@);
                        assert forall|k: int|
                            0 <= k < i + 1 && (#[trigger] self.nodes@[k]).kind == NodeKind::File implies exists|a: int|
                                0 <= a < langs.len() && langs@[a]@ == self.nodes@[k].language_id@ by {
                            if k < i {
                                let w = choose|w: int| 0 <= w < before.len() && before[w]@ == self.nodes@[k].language_id@;
                                assert(langs@[w] == before[w]);
                            } else {
                                assert(langs@[before.len() as int]@ == self.nodes@[k].language_id@);
                            }
                        }
                    }
                }
            }
            i += 1;
        }
        let mut caps: Vec<LanguageCapability> = Vec::new();
        let mut keys: Vec<Vec<KeyPart>> = Vec::new();
        let mut k: usize = 0;
        while k < langs.len()
            invariant
                k <= langs.len(),
                caps.len() == k,
                keys.len() == k,
                forall|a: int| 0 <= a < k ==> (#[trigger] caps@[a]).id@ == langs@[a]@ && capability_ok(self.node_rows(), self.edge_rows(), caps@[a]),
                forall|a: int| 0 <= a < k ==> key_view(#[trigger] keys@[a]@) == seq![KeyView::Text(langs@[a]@)],
                forall|a: int| 0 <= a < langs.len() ==> file_lang_count(self.nodes@, #[trigger] langs@[a]@) > 0,
            decreases langs.len() - k,
        {
            let lang = langs[k].as_str();
            let files = self.count_files_of(lang);
            let tier = self.tier_of(lang);
            caps.push(LanguageCapability { id: langs[k].clone(), files, tier });
            let mut key: Vec<KeyPart> = Vec::new();
            key.push(KeyPart::Text(chars_of(lang)));
            assert(key_view(key@) =~= seq![KeyView::Text(langs@[k as int]@)]);
            keys.push(key);
            k += 1;
        }
        let ghost kv = key_views(keys@);
        assert forall|a: int| 0 <= a < kv.len() implies kv[a] == seq![KeyView::Text(caps@[a].id@)] by {
            assert(kv[a] == key_view(keys@[a]@));
        }
        let sorted = sort_by_keys(&caps, &keys);
        proof {
            let perm = choose|perm: Seq<usize>| is_sort_permutation(perm, kv) && permuted(caps@, perm, sorted@);
            assert(is_sort_permutation(perm, kv) && permuted(caps@, perm, sorted@));
            assert forall|a: int, b: int| 0 <= a < b < sorted@.len() implies text_order(
                sorted@[a].id@,
                sorted@[b].id@,
            ) < 0 by {
                let x = perm[a] as int;
                let y = perm[b] as int;
                assert(sorts_before(kv, x, y));
                lemma_text_order_antisym(caps@[x].id@, caps@[y].id@);
                assert(kv[x].drop_first() =~= Seq::<KeyView>::empty());
                assert(kv[y].drop_first() =~= Seq::<KeyView>::empty());
                assert(key_order(Seq::<KeyView>::empty(), Seq::<KeyView>::empty()) == 0);
                assert(key_order(kv[x], kv[y]) == text_order(caps@[x].id@, caps@[y].id@));
                if x == y {
                    assert(!sorts_before(kv, x, x));
                }
                assert(x != y);
                assert(langs@[x]@ != langs@[y]@);
            }
            assert forall|a: int| 0 <= a < sorted@.len() implies capability_ok(self.node_rows(), self.edge_rows(), #[trigger] sorted@[a]) by {
                assert(sorted@[a] == caps@[perm[a] as int]);
            }
            assert forall|q: int|
                0 <= q < self.node_rows().len() && (#[trigger] self.node_rows()[q]).kind == NodeKind::File implies exists|a: int|
                    0 <= a < sorted@.len() && sorted@[a].id@ == self.node_rows()[q].language_id@ by {
                let w = choose|w: int| 0 <= w < langs.len() && langs@[w]@ == self.nodes@[q].language_id@;
                assert((w as usize) < kv.len());
                assert(perm.contains(w as usize));
                let t = choose|t: int| 0 <= t < perm.len() && perm[t] == w as usize;
                assert(sorted@[t] == caps@[w]);
            }
        }
        Capabilities { languages: sorted }
    }

    /// Functions, classes and imports whose name, path or id is `LIKE '%query%'`
    /// (backslash escapes), ranked exact name first, then name prefix, then the
    /// rest, each rank ordered by name; at most `limit` of them (no limit when
    /// `limit` exceeds `i64::MAX`, as SQL reads a negative limit).
    pub fn search_symbols(&self, query: &str, limit: usize) -> (r: Vec<GraphNode>)
        ensures
            exists|sorted: Seq<GraphNode>|
                #[trigger] stably_sorted(search_hits(self.node_rows(), query@), search_keys(search_hits(self.node_rows(), query@), query@), sorted)
                    && r@ == sorted.take(sql_limit(limit, sorted.len()) as int),
    {
        let q = chars_of(query);
        let contains_pattern = surround_percent(query);
        let prefix_pattern = append_percent(query);
        let ghost pred = |n: GraphNode| search_hit(n, query@);
        let f = |n: &GraphNode| -> (b: bool)
            ensures
                b == search_hit(*n, query@),
        {
            if n.kind == NodeKind::Function || n.kind == NodeKind::Class || n.kind == NodeKind::Import {
                like_text(&contains_pattern, &chars_of(n.name.as_str()), Some('\\'))
                    || like_text(&contains_pattern, &chars_of(n.relative_path.as_str()), Some('\\'))
                    || like_text(&contains_pattern, &chars_of(n.id.as_str()), Some('\\'))
            } else {
                false
            }
        };
        let hits = self.filter_nodes(f, Ghost(pred));
        let mut keys: Vec<Vec<KeyPart>> = Vec::new();
        let mut i: usize = 0;
        while i < hits.len()
            invariant
                i <= hits.len(),
                keys.len() == i,
                q@ == query@,
                prefix_pattern@ == query@ + seq!['%'],
                forall|k: int| 0 <= k < i ==> key_view(#[trigger] keys@[k]@) == search_key(hits@[k], query@),
            decreases hits.len() - i,
        {
            let name = chars_of(hits[i].name.as_str());
            let rank: u64 = if seq_eq(&name, &q) {
                0
            } else if like_text(&prefix_pattern, &name, Some('\\')) {
                1
            } else {
                2
            };
            let mut key: Vec<KeyPart> = Vec::new();
            key.push(KeyPart::Num(rank));
            key.push(KeyPart::Text(name));
            assert(key_view(key@) =~= search_key(hits@[i as int], query@));
            keys.push(key);
            i += 1;
        }
        assert(key_views(keys@) =~= search_keys(hits@, query@));
        let sorted = sort_by_keys(&hits, &keys);
        assert(pred =~= (|n: GraphNode| search_hit(n, query@)));
        assert(hits@ == search_hits(self.node_rows(), query@));
        let n: usize = if limit as u64 > 0x7FFF_FFFF_FFFF_FFFFu64 || limit > sorted.len() {
            sorted.len()
        } else {
            limit
        };
        let mut out: Vec<GraphNode> = Vec::new();
        let mut k: usize = 0;
        while k < n
            invariant
                k <= n <= sorted.len(),
                out@ == sorted@.take(k as int),
            decreases n - k,
        {
            out.push(sorted[k].dup());
            assert(sorted@.take(k + 1) == sorted@.take(k as int).push(sorted@[k as int]));
            k += 1;
        }
        assert(stably_sorted(search_hits(self.node_rows(), query@), search_keys(search_hits(self.node_rows(), query@), query@), sorted@));
        out
    }

    fn first_id_result(&self, best: Option<usize>, Ghost(pred): Ghost<spec_fn(GraphNode) -> bool>) -> (r: Option<String>)
        requires
            match best {
                Some(b) => first_by_line(self.node_rows(), pred, b as int),
                None => forall|j: int|
                    0 <= j < self.node_rows().len() ==> !pred(#[trigger] self.node_rows()[j]),
            },
        ensures
            opt_text(r) == first_id_by_line(self.node_rows(), pred),
    {
        match best {
            Some(b) => {
                proof {
                    lemma_first_by_line_unique(self.nodes@, pred, b as int);
                }
                Some(self.nodes[b].id.clone())
            },
            None => {
                proof {
                    if exists|k: int| first_by_line(self.nodes@, pred, k) {
                        let k = choose|k: int| first_by_line(self.nodes@, pred, k);
                        assert(pred(self.nodes@[k]));
                    }
                }
                None
            },
        }
    }
}

pub open spec fn is_file_of(n: GraphNode, lang: Seq<char>) -> bool {
    n.kind == NodeKind::File && n.language_id@ == lang
}

pub open spec fn is_symbol_of(n: GraphNode, lang: Seq<char>) -> bool {
    n.kind.symbol_kind() && n.language_id@ == lang
}

/// Number of file nodes of language `lang`.
pub open spec fn file_lang_count(nodes: Seq<GraphNode>, lang: Seq<char>) -> nat {
    nodes.filter(|n: GraphNode| is_file_of(n, lang)).len()
}

/// Some symbol node is of language `lang`.
pub open spec fn has_symbols(nodes: Seq<GraphNode>, lang: Seq<char>) -> bool {
    exists|i: int| 0 <= i < nodes.len() && is_symbol_of(#[trigger] nodes[i], lang)
}

/// The edge kinds that raise a language to tier `level`: L2 `CALLS`/`IMPORTS`,
/// L3 `TRIGGERS`/`HANDLES`, L4 `FETCHES`.
pub open spec fn level_kind(k: EdgeKind, level: nat) -> bool {
    if level == 2 {
        k == EdgeKind::Calls || k == EdgeKind::Imports
    } else if level == 3 {
        k == EdgeKind::Triggers || k == EdgeKind::Handles
    } else if level == 4 {
        k == EdgeKind::Fetches
    } else {
        false
    }
}

fn level_kind_exec(k: EdgeKind, level: u8) -> (b: bool)
    ensures
        b == level_kind(k, level as nat),
{
    if level == 2 {
        k == EdgeKind::Calls || k == EdgeKind::Imports
    } else if level == 3 {
        k == EdgeKind::Triggers || k == EdgeKind::Handles
    } else if level == 4 {
        k == EdgeKind::Fetches
    } else {
        false
    }
}

/// Node `n`, of language `lang`, is an end of edge `e` of tier `level`.
pub open spec fn level_link(n: GraphNode, e: GraphEdge, lang: Seq<char>, level: nat) -> bool {
    n.language_id@ == lang && (n.id@ == e.from_id@ || n.id@ == e.to_id@) && level_kind(e.kind, level)
}

/// Language `lang` (not `directory`) has a node at an end of an edge of tier `level`.
pub open spec fn lang_at_level(nodes: Seq<GraphNode>, edges: Seq<GraphEdge>, lang: Seq<char>, level: nat) -> bool {
    lang != "directory"@ && exists|a: int, c: int|
        0 <= a < nodes.len() && 0 <= c < edges.len() && level_link(#[trigger] nodes[a], #[trigger] edges[c], lang, level)
}

/// The tier of a language: the highest edge tier it reaches, L1 with symbols, else L0.
pub open spec fn capability_tier(nodes: Seq<GraphNode>, edges: Seq<GraphEdge>, lang: Seq<char>) -> Tier {
    if lang_at_level(nodes, edges, lang, 4) {
        Tier::L4
    } else if lang_at_level(nodes, edges, lang, 3) {
        Tier::L3
    } else if lang_at_level(nodes, edges, lang, 2) {
        Tier::L2
    } else if has_symbols(nodes, lang) {
        Tier::L1
    } else {
        Tier::L0
    }
}

/// One language entry: its file count (at least one) and its tier.
pub open spec fn capability_ok(nodes: Seq<GraphNode>, edges: Seq<GraphEdge>, c: LanguageCapability) -> bool {
    &&& c.files == file_lang_count(nodes, c.id@)
    &&& c.files > 0
    &&& c.tier == capability_tier(nodes, edges, c.id@)
}

/// `langs` lists every language of a file node once, ordered by id, with its count and tier.
pub open spec fn capabilities_of(nodes: Seq<GraphNode>, edges: Seq<GraphEdge>, langs: Seq<LanguageCapability>) -> bool {
    &&& forall|a: int| 0 <= a < langs.len() ==> capability_ok(nodes, edges, #[trigger] langs[a])
    &&& forall|a: int, b: int| 0 <= a < b < langs.len() ==> text_order(langs[a].id@, langs[b].id@) < 0
    &&& forall|q: int|
        0 <= q < nodes.len() && (#[trigger] nodes[q]).kind == NodeKind::File ==> exists|a: int|
            0 <= a < langs.len() && langs[a].id@ == nodes[q].language_id@
}

/// The file counts of `langs`, added up.
pub open spec fn total_files(langs: Seq<LanguageCapability>) -> nat
    decreases langs.len(),
{
    if langs.len() == 0 {
        0
    } else {
        total_files(langs.drop_last()) + langs.last().files as nat
    }
}

/// The file nodes of `nodes` in each of the languages `ids`, added up.
pub open spec fn lang_counts(nodes: Seq<GraphNode>, ids: Seq<Seq<char>>) -> nat
    decreases ids.len(),
{
    if ids.len() == 0 {
        0
    } else {
        lang_counts(nodes, ids.drop_last()) + file_lang_count(nodes, ids.last())
    }
}

/// How many of `ids` are the language of file node `n` (none when `n` is no file).
pub open spec fn lang_hits(n: GraphNode, ids: Seq<Seq<char>>) -> nat
    decreases ids.len(),
{
    if ids.len() == 0 {
        0
    } else {
        lang_hits(n, ids.drop_last()) + if is_file_of(n, ids.last()) { 1nat } else { 0nat }
    }
}

proof fn lemma_lang_counts_push(nodes: Seq<GraphNode>, n: GraphNode, ids: Seq<Seq<char>>)
    ensures
        lang_counts(nodes.push(n), ids) == lang_counts(nodes, ids) + lang_hits(n, ids),
    decreases ids.len(),
{
    if ids.len() > 0 {
        lemma_lang_counts_push(nodes, n, ids.drop_last());
        let l = ids.last();
        nodes.lemma_filter_push(n, |m: GraphNode| is_file_of(m, l));
    }
}

proof fn lemma_lang_hits(n: GraphNode, ids: Seq<Seq<char>>)
    requires
        forall|a: int, b: int| 0 <= a < b < ids.len() ==> ids[a] != ids[b],
    ensures
        lang_hits(n, ids) == if n.kind == NodeKind::File && ids.contains(n.language_id@) { 1nat } else { 0nat },
    decreases ids.len(),
{
    if ids.len() > 0 {
        let init = ids.drop_last();
        lemma_lang_hits(n, init);
        if n.kind == NodeKind::File {
            if ids.last() == n.language_id@ {
                if init.contains(n.language_id@) {
                    let a = choose|a: int| 0 <= a < init.len() && init[a] == n.language_id@;
                    assert(ids[a] == ids[ids.len() - 1]);
                }
                assert(ids[ids.len() - 1] == n.language_id@);
            } else {
                if ids.contains(n.language_id@) {
                    let a = choose|a: int| 0 <= a < ids.len() && ids[a] == n.language_id@;
                    assert(init[a] == n.language_id@);
                }
                if init.contains(n.language_id@) {
                    let a = choose|a: int| 0 <= a < init.len() && init[a] == n.language_id@;
                    assert(ids[a] == n.language_id@);
                }
            }
        }
    }
}

proof fn lemma_lang_counts_cover(nodes: Seq<GraphNode>, ids: Seq<Seq<char>>, k: int)
    requires
        0 <= k <= nodes.len(),
        forall|a: int, b: int| 0 <= a < b < ids.len() ==> ids[a] != ids[b],
        forall|q: int| 0 <= q < nodes.len() && (#[trigger] nodes[q]).kind == NodeKind::File ==> ids.contains(nodes[q].language_id@),
    ensures
        lang_counts(nodes.take(k), ids) == nodes.take(k).filter(|n: GraphNode| n.kind == NodeKind::File).len(),
    decreases k,
{
    if k == 0 {
        lemma_lang_counts_empty(nodes.take(0), ids);
        assert(nodes.take(0).filter(|n: GraphNode| n.kind == NodeKind::File) =~= Seq::<GraphNode>::empty());
    } else {
        lemma_lang_counts_cover(nodes, ids, k - 1);
        let n = nodes[k - 1];
        assert(nodes.take(k) =~= nodes.take(k - 1).push(n));
        lemma_lang_counts_push(nodes.take(k - 1), n, ids);
        lemma_lang_hits(n, ids);
        nodes.take(k - 1).lemma_filter_push(n, |m: GraphNode| m.kind == NodeKind::File);
    }
}

proof fn lemma_lang_counts_empty(nodes: Seq<GraphNode>, ids: Seq<Seq<char>>)
    requires
        nodes.len() == 0,
    ensures
        lang_counts(nodes, ids) == 0,
    decreases ids.len(),
{
    if ids.len() > 0 {
        lemma_lang_counts_empty(nodes, ids.drop_last());
        assert(nodes.filter(|m: GraphNode| is_file_of(m, ids.last())) =~= Seq::<GraphNode>::empty()) by {
            reveal(Seq::filter);
        }
    }
}

proof fn lemma_total_files(nodes: Seq<GraphNode>, edges: Seq<GraphEdge>, langs: Seq<LanguageCapability>)
    requires
        forall|a: int| 0 <= a < langs.len() ==> capability_ok(nodes, edges, #[trigger] langs[a]),
    ensures
        total_files(langs) == lang_counts(nodes, langs.map_values(|c: LanguageCapability| c.id@)),
    decreases langs.len(),
{
    if langs.len() > 0 {
        let init = langs.drop_last();
        lemma_total_files(nodes, edges, init);
        assert(langs.map_values(|c: LanguageCapability| c.id@).drop_last() =~= init.map_values(|c: LanguageCapability| c.id@));
        assert(capability_ok(nodes, edges, langs[langs.len() - 1]));
    }
}

/// The file counts of the capabilities add up to the number of file nodes:
/// every file is counted once, under its own language.
pub proof fn capabilities_count_every_file_once(nodes: Seq<GraphNode>, edges: Seq<GraphEdge>, langs: Seq<LanguageCapability>)
    requires
        capabilities_of(nodes, edges, langs),
    ensures
        total_files(langs) == nodes.filter(|n: GraphNode| n.kind == NodeKind::File).len(),
{
    let ids = langs.map_values(|c: LanguageCapability| c.id@);
    lemma_total_files(nodes, edges, langs);
    assert forall|a: int, b: int| 0 <= a < b < ids.len() implies ids[a] != ids[b] by {
        lemma_text_order_refl(ids[a]);
    }
    assert forall|q: int| 0 <= q < nodes.len() && (#[trigger] nodes[q]).kind == NodeKind::File implies ids.contains(nodes[q].language_id@) by {
        let a = choose|a: int| 0 <= a < langs.len() && langs[a].id@ == nodes[q].language_id@;
        assert(ids[a] == nodes[q].language_id@);
    }
    lemma_lang_counts_cover(nodes, ids, nodes.len() as int);
    assert(nodes.take(nodes.len() as int) =~= nodes);
}

proof fn lemma_file_count_positive(nodes: Seq<GraphNode>, i: int)
    requires
        0 <= i < nodes.len(),
        nodes[i].kind == NodeKind::File,
    ensures
        file_lang_count(nodes, nodes[i].language_id@) > 0,
{
    let lang = nodes[i].language_id@;
    let p = |n: GraphNode| is_file_of(n, lang);
    assert(p(nodes[i]));
    nodes.filter_lemma(p);
    assert(nodes.filter(p).contains(nodes[i]));
}

/// A `CALLS` edge into `id`.
pub open spec fn is_call_into(e: GraphEdge, id: Seq<char>) -> bool {
    e.kind == EdgeKind::Calls && e.to_id@ == id
}

/// A function or class that no `CALLS` edge enters.
pub open spec fn is_uncalled(n: GraphNode, edges: Seq<GraphEdge>) -> bool {
    (n.kind == NodeKind::Function || n.kind == NodeKind::Class) && !exists|j: int|
        0 <= j < edges.len() && is_call_into(#[trigger] edges[j], n.id@)
}

/// A node's line as a sort component: absent lines first.
pub open spec fn line_rank(n: GraphNode) -> nat {
    match n.line {
        Some(l) => (l + 1) as nat,
        None => 0,
    }
}

/// Order of `list_nodes`: kind name, path, line, name.
pub open spec fn node_list_key(n: GraphNode) -> Seq<KeyView> {
    seq![
        KeyView::Text(n.kind.name_text()),
        KeyView::Text(n.relative_path@),
        KeyView::Num(line_rank(n)),
        KeyView::Text(n.name@),
    ]
}

pub open spec fn node_list_keys(rows: Seq<GraphNode>) -> Seq<Seq<KeyView>> {
    rows.map_values(|n: GraphNode| node_list_key(n))
}

pub open spec fn path_line_keys(rows: Seq<GraphNode>) -> Seq<Seq<KeyView>> {
    rows.map_values(|n: GraphNode| path_line_key(n))
}

pub open spec fn edge_list_keys(rows: Seq<GraphEdge>) -> Seq<Seq<KeyView>> {
    rows.map_values(|e: GraphEdge| edge_list_key(e))
}

pub open spec fn only_files(rows: Seq<GraphNode>) -> Seq<GraphNode> {
    rows.filter(|n: GraphNode| n.kind == NodeKind::File)
}

pub open spec fn uncalled_rows(nodes: Seq<GraphNode>, edges: Seq<GraphEdge>) -> Seq<GraphNode> {
    nodes.filter(|n: GraphNode| is_uncalled(n, edges))
}

/// Order by path, then line.
pub open spec fn path_line_key(n: GraphNode) -> Seq<KeyView> {
    seq![KeyView::Text(n.relative_path@), KeyView::Num(line_rank(n))]
}

/// Order of `list_edges`: id.
pub open spec fn edge_list_key(e: GraphEdge) -> Seq<KeyView> {
    seq![KeyView::Text(e.id@)]
}

fn line_rank_exec(n: &GraphNode) -> (r: u64)
    ensures
        r as nat == line_rank(*n),
{
    match n.line {
        Some(l) => (l as u64) + 1,
        None => 0,
    }
}

fn node_list_key_exec(n: &GraphNode) -> (k: Vec<KeyPart>)
    ensures
        key_view(k@) == node_list_key(*n),
{
    let mut k: Vec<KeyPart> = Vec::new();
    k.push(KeyPart::Text(chars_of(n.kind.as_str())));
    k.push(KeyPart::Text(chars_of(n.relative_path.as_str())));
    k.push(KeyPart::Num(line_rank_exec(n)));
    k.push(KeyPart::Text(chars_of(n.name.as_str())));
    assert(key_view(k@) =~= node_list_key(*n));
    k
}

fn path_line_key_exec(n: &GraphNode) -> (k: Vec<KeyPart>)
    ensures
        key_view(k@) == path_line_key(*n),
{
    let mut k: Vec<KeyPart> = Vec::new();
    k.push(KeyPart::Text(chars_of(n.relative_path.as_str())));
    k.push(KeyPart::Num(line_rank_exec(n)));
    assert(key_view(k@) =~= path_line_key(*n));
    k
}

/// A function, class or import whose name, path or id matches `%query%`.
pub open spec fn search_hit(n: GraphNode, query: Seq<char>) -> bool {
    let pat = seq!['%'] + query + seq!['%'];
    &&& (n.kind == NodeKind::Function || n.kind == NodeKind::Class || n.kind == NodeKind::Import)
    &&& (like_holds(pat, n.name@, Some('\\')) || like_holds(pat, n.relative_path@, Some('\\'))
        || like_holds(pat, n.id@, Some('\\')))
}

pub open spec fn search_hits(rows: Seq<GraphNode>, query: Seq<char>) -> Seq<GraphNode> {
    rows.filter(|n: GraphNode| search_hit(n, query))
}

/// 0 for the exact name, 1 for a name starting with the query, 2 otherwise.
pub open spec fn search_rank(n: GraphNode, query: Seq<char>) -> nat {
    if n.name@ == query {
        0
    } else if like_holds(query + seq!['%'], n.name@, Some('\\')) {
        1
    } else {
        2
    }
}

pub open spec fn search_key(n: GraphNode, query: Seq<char>) -> Seq<KeyView> {
    seq![KeyView::Num(search_rank(n, query)), KeyView::Text(n.name@)]
}

pub open spec fn search_keys(rows: Seq<GraphNode>, query: Seq<char>) -> Seq<Seq<KeyView>> {
    rows.map_values(|n: GraphNode| search_key(n, query))
}

/// `name` is `query` followed by more characters, `query` holding no `\`
/// (the escape of the `LIKE` patterns).
pub open spec fn extends_query(name: Seq<char>, query: Seq<char>) -> bool {
    is_prefix(query, name) && name != query && !query.contains('\\') && name.len() < usize::MAX
}

/// A name that extends the query ranks as a prefix match.
pub proof fn extending_name_ranks_as_prefix(n: GraphNode, query: Seq<char>)
    requires
        extends_query(n.name@, query),
    ensures
        search_rank(n, query) == 1,
{
    lemma_like_prefix(query, n.name@, '\\');
}

/// Search lists a hit named exactly as the query before every other hit, and
/// a hit whose name extends the query before every hit whose name is neither
/// the query nor a match of `query%`; and when the limit cuts off a hit whose
/// name extends the query, every hit kept is the query's exact name or a match
/// of `query%`.
pub proof fn search_prefix_before_rest(rows: Seq<GraphNode>, query: Seq<char>, limit: usize, sorted: Seq<GraphNode>, v: Seq<GraphNode>)
    requires
        stably_sorted(search_hits(rows, query), search_keys(search_hits(rows, query), query), sorted),
        v == sorted.take(sql_limit(limit, sorted.len()) as int),
    ensures
        forall|i: int, j: int|
            0 <= i < v.len() && 0 <= j < v.len() && (#[trigger] v[j]).name@ == query && (#[trigger] v[i]).name@ != query
            ==> j < i,
        forall|i: int, j: int|
            0 <= i < v.len() && 0 <= j < v.len() && extends_query(#[trigger] v[j].name@, query)
                && !like_holds(query + seq!['%'], #[trigger] v[i].name@, Some('\\')) && v[i].name@ != query
            ==> j < i,
        forall|i: int, k: int|
            0 <= i < v.len() <= k < sorted.len() && extends_query(#[trigger] sorted[k].name@, query)
            ==> (#[trigger] v[i]).name@ == query || like_holds(query + seq!['%'], v[i].name@, Some('\\')),
{
    let hits = search_hits(rows, query);
    let keys = search_keys(hits, query);
    assert(keys.len() == hits.len());
    assert forall|i: int, j: int|
        0 <= i < v.len() && 0 <= j < v.len() && (#[trigger] v[j]).name@ == query && (#[trigger] v[i]).name@ != query
        implies j < i by {
        assert(search_rank(v[j], query) == 0);
        assert(v[i] == sorted[i] && v[j] == sorted[j]);
        if i < j {
            lemma_stably_sorted_order(hits, keys, sorted, i, j);
            let (a, b) = choose|a: int, b: int|
                0 <= a < hits.len() && 0 <= b < hits.len() && a != b && sorted[i] == hits[a] && sorted[j] == hits[b]
                    && key_order(keys[a], keys[b]) <= 0;
            assert(keys[a] == search_key(hits[a], query));
            assert(keys[b] == search_key(hits[b], query));
            assert(crate::order::part_order(keys[a][0], keys[b][0]) == 1);
        }
    }
    assert forall|i: int, j: int|
        0 <= i < v.len() && 0 <= j < v.len() && extends_query(#[trigger] v[j].name@, query)
            && !like_holds(query + seq!['%'], #[trigger] v[i].name@, Some('\\')) && v[i].name@ != query
        implies j < i by {
        extending_name_ranks_as_prefix(v[j], query);
        assert(search_rank(v[i], query) == 2);
        assert(v[i] == sorted[i] && v[j] == sorted[j]);
        if i < j {
            lemma_stably_sorted_order(hits, keys, sorted, i, j);
            let (a, b) = choose|a: int, b: int|
                0 <= a < hits.len() && 0 <= b < hits.len() && a != b && sorted[i] == hits[a] && sorted[j] == hits[b]
                    && key_order(keys[a], keys[b]) <= 0;
            assert(keys[a] == search_key(hits[a], query));
            assert(keys[b] == search_key(hits[b], query));
            assert(crate::order::part_order(keys[a][0], keys[b][0]) == 1);
        }
    }
    assert forall|i: int, k: int|
        0 <= i < v.len() <= k < sorted.len() && extends_query(#[trigger] sorted[k].name@, query)
        implies (#[trigger] v[i]).name@ == query || like_holds(query + seq!['%'], v[i].name@, Some('\\')) by {
        extending_name_ranks_as_prefix(sorted[k], query);
        assert(v[i] == sorted[i]);
        lemma_stably_sorted_order(hits, keys, sorted, i, k);
        let (a, b) = choose|a: int, b: int|
            0 <= a < hits.len() && 0 <= b < hits.len() && a != b && sorted[i] == hits[a] && sorted[k] == hits[b]
                && key_order(keys[a], keys[b]) <= 0;
        assert(keys[a] == search_key(hits[a], query));
        assert(keys[b] == search_key(hits[b], query));
        if search_rank(v[i], query) == 2 {
            assert(crate::order::part_order(keys[a][0], keys[b][0]) == 1);
        }
    }
}

/// How many rows an SQL `LIMIT` of `limit` (read as `i64`) keeps out of `len`.
pub open spec fn sql_limit(limit: usize, len: nat) -> nat {
    if limit as int > 0x7FFF_FFFF_FFFF_FFFFint || limit > len {
        len
    } else {
        limit as nat
    }
}

/// `text%` as characters.
fn append_percent(s: &str) -> (r: Vec<char>)
    ensures
        r@ == s@ + seq!['%'],
{
    let mut r = chars_of(s);
    r.push('%');
    r
}

/// `%text%` as characters.
fn surround_percent(s: &str) -> (r: Vec<char>)
    ensures
        r@ == seq!['%'] + s@ + seq!['%'],
{
    let mut r: Vec<char> = Vec::new();
    r.push('%');
    let body = chars_of(s);
    let mut i: usize = 0;
    while i < body.len()
        invariant
            i <= body.len(),
            r@ == seq!['%'] + body@.take(i as int),
        decreases body.len() - i,
    {
        r.push(body[i]);
        assert(body@.take(i + 1) == body@.take(i as int).push(body@[i as int]));
        i += 1;
    }
    assert(body@.take(body.len() as int) == body@);
    r.push('%');
    r
}

/// An import of `file` whose text is `LIKE '%local%'`.
pub open spec fn is_import_mentioning(n: GraphNode, file: Seq<char>, local: Seq<char>) -> bool {
    &&& n.kind == NodeKind::Import
    &&& opt_text(n.parent_file) == Some(file)
    &&& n.name@.len() < usize::MAX
    &&& like_match(seq!['%'] + local + seq!['%'], n.name@, None)
}

/// `a` sorts strictly before `b` by line (absent lines first).
fn line_lt(a: &GraphNode, b: &GraphNode) -> (r: bool)
    ensures
        r == (line_key(*a) < line_key(*b)),
{
    match (a.line, b.line) {
        (None, None) => false,
        (None, Some(_)) => true,
        (Some(_), None) => false,
        (Some(x), Some(y)) => x < y,
    }
}

proof fn lemma_first_by_line_unique(rows: Seq<GraphNode>, pred: spec_fn(GraphNode) -> bool, b: int)
    requires
        first_by_line(rows, pred, b),
    ensures
        first_id_by_line(rows, pred) == Some(rows[b].id@),
{
    let k = choose|k: int| first_by_line(rows, pred, k);
    assert(first_by_line(rows, pred, k));
    assert(pred(rows[b]) && pred(rows[k]));
    assert(k == b);
}

} // verus!
