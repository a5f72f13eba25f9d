//! Filling the store: walk entries, extracted symbols and resolved relations.
use vstd::prelude::*;
use crate::model::{EdgeKind, ExtractedSymbol, GraphEdge, GraphNode, NodeKind, ResolvedEdge, WalkEntry,
    edge_id_text, node_id_for_path, node_id_text, symbol_id, symbol_id_text};
use crate::store::{GraphStore, opt_text, upsert_node, upsert_edge};
use crate::walk::{detect_language, entry_name, file_name, language_of_path, parent_of, parent_path,
    path_ext, path_extension};
use crate::text::{chars_of, seq_eq, string_of};

verus! {

/// Rows after inserting `ns` one by one.
pub open spec fn upsert_nodes(rows: Seq<GraphNode>, ns: Seq<GraphNode>) -> Seq<GraphNode>
    decreases ns.len(),
{
    if ns.len() == 0 {
        rows
    } else {
        upsert_node(upsert_nodes(rows, ns.drop_last()), ns.last())
    }
}

/// Rows after inserting `es` one by one.
pub open spec fn upsert_edges(rows: Seq<GraphEdge>, es: Seq<GraphEdge>) -> Seq<GraphEdge>
    decreases es.len(),
{
    if es.len() == 0 {
        rows
    } else {
        upsert_edge(upsert_edges(rows, es.drop_last()), es.last())
    }
}

/// `after` holds the nodes of the walk entries, upserted in turn into an
/// empty store, the file of entry `i` in language `langs[i]`, and a
/// `CONTAINS` edge from the parent directory of each entry but the root.
pub open spec fn walk_inserted(after: GraphStore, entries: Seq<WalkEntry>, langs: Seq<Seq<char>>) -> bool {
    &&& exists|ns: Seq<GraphNode>|
        ns.len() == entries.len() && (forall|i: int| 0 <= i < ns.len() ==> is_walk_node(#[trigger] ns[i], entries[i], langs[i]))
            && after.node_rows() == upsert_nodes(Seq::empty(), ns)
    &&& exists|es: Seq<GraphEdge>|
        es.len() == non_root(entries).len() && (forall|i: int|
            0 <= i < es.len() ==> is_contains_edge(
                #[trigger] es[i],
                node_id_text(parent_of(non_root(entries)[i].relative_path@)),
                node_id_text(non_root(entries)[i].relative_path@),
            )) && after.edge_rows() == upsert_edges(Seq::empty(), es)
}

/// `after` is `before` with an edge upserted in turn for each relation
/// whose two ends are nodes of `before`; the nodes are unchanged.
pub open spec fn relations_inserted(before: GraphStore, after: GraphStore, relations: Seq<ResolvedEdge>) -> bool {
    &&& after.node_rows() == before.node_rows()
    &&& exists|es: Seq<GraphEdge>|
        es.len() == linked_relations(before.node_rows(), relations).len() && (forall|i: int|
            0 <= i < es.len() ==> is_relation_edge(#[trigger] es[i], linked_relations(before.node_rows(), relations)[i]))
            && after.edge_rows() == upsert_edges(before.edge_rows(), es)
}

/// `after` is `before` with each symbol upserted in turn as a node, and a
/// `CONTAINS` edge from its file upserted in turn.
pub open spec fn symbols_inserted(before: GraphStore, after: GraphStore, symbols: Seq<ExtractedSymbol>) -> bool {
    &&& exists|ns: Seq<GraphNode>|
        ns.len() == symbols.len() && (forall|i: int| 0 <= i < ns.len() ==> is_symbol_node(#[trigger] ns[i], symbols[i]))
            && after.node_rows() == upsert_nodes(before.node_rows(), ns)
    &&& exists|es: Seq<GraphEdge>|
        es.len() == symbols.len() && (forall|i: int|
            0 <= i < es.len() ==> is_contains_edge(
                #[trigger] es[i],
                node_id_text(symbols[i].parent_file@),
                symbol_id_text(symbols[i].parent_file@, symbols[i].kind, symbols[i].name@, symbols[i].line),
            )) && after.edge_rows() == upsert_edges(before.edge_rows(), es)
}

/// The node recorded for a walk entry, a file in language `lang`.
pub open spec fn is_walk_node(n: GraphNode, e: WalkEntry, lang: Seq<char>) -> bool {
    let p = e.relative_path@;
    &&& n.id@ == node_id_text(p)
    &&& n.kind == (if e.is_dir { NodeKind::Directory } else { NodeKind::File })
    &&& n.name@ == entry_name(p)
    &&& n.relative_path@ == p
    &&& n.parent_file is None
    &&& n.line is None
    &&& opt_text(n.extension) == (if e.is_dir { None } else { path_extension(p) })
    &&& n.language_id@ == (if e.is_dir { "directory"@ } else { lang })
    &&& n.size_bytes == e.size_bytes
}

/// The `CONTAINS` edge `from -> to`, without confidence.
pub open spec fn is_contains_edge(e: GraphEdge, from: Seq<char>, to: Seq<char>) -> bool {
    &&& e.id@ == edge_id_text(from, to, EdgeKind::Contains)
    &&& e.from_id@ == from
    &&& e.to_id@ == to
    &&& e.kind == EdgeKind::Contains
    &&& e.confidence_milli is None
}

/// The entries other than the root `.`.
pub open spec fn non_root(es: Seq<WalkEntry>) -> Seq<WalkEntry> {
    es.filter(|e: WalkEntry| e.relative_path@ != "."@)
}

pub open spec fn is_file_entry(e: WalkEntry) -> bool {
    !e.is_dir
}

/// The languages of the walk entries' files, one entry at a time, as the
/// language function gives them.
pub open spec fn languages_of<F: Fn(&WalkEntry) -> &'static str>(language_for: F, entries: Seq<WalkEntry>, langs: Seq<Seq<char>>) -> bool {
    &&& langs.len() == entries.len()
    &&& forall|i: int| 0 <= i < entries.len() && !entries[i].is_dir ==> exists|l: &'static str|
        #[trigger] language_for.ensures((&entries[i],), l) && l@ == langs[i]
}

/// How many of the walk entries are files whose language in `langs` is `unknown`.
pub open spec fn unknown_files(entries: Seq<WalkEntry>, langs: Seq<Seq<char>>, n: int) -> nat
    decreases n,
{
    if n <= 0 {
        0
    } else {
        unknown_files(entries, langs, n - 1) + if !entries[n - 1].is_dir && langs[n - 1] == "unknown"@ { 1nat } else { 0nat }
    }
}

/// The node recorded for an extracted symbol.
pub open spec fn is_symbol_node(n: GraphNode, s: ExtractedSymbol) -> bool {
    &&& n.id@ == symbol_id_text(s.parent_file@, s.kind, s.name@, s.line)
    &&& n.kind == s.kind
    &&& n.name@ == s.name@
    &&& n.relative_path@ == s.parent_file@
    &&& opt_text(n.parent_file) == Some(s.parent_file@)
    &&& n.line == Some(s.line)
    &&& n.extension is None
    &&& n.language_id@ == s.language_id@
    &&& n.size_bytes is None
}

/// Some node row has id `id`.
pub open spec fn has_node(rows: Seq<GraphNode>, id: Seq<char>) -> bool {
    exists|i: int| 0 <= i < rows.len() && #[trigger] rows[i].id@ == id
}

/// The relations whose two ends are nodes of `rows`.
pub open spec fn linked_relations(rows: Seq<GraphNode>, rels: Seq<ResolvedEdge>) -> Seq<ResolvedEdge> {
    rels.filter(|r: ResolvedEdge| has_node(rows, r.from_id@) && has_node(rows, r.to_id@))
}

/// The edge stored for a resolved relation.
pub open spec fn is_relation_edge(e: GraphEdge, r: ResolvedEdge) -> bool {
    &&& e.id@ == edge_id_text(r.from_id@, r.to_id@, r.kind)
    &&& e.from_id@ == r.from_id@
    &&& e.to_id@ == r.to_id@
    &&& e.kind == r.kind
    &&& e.confidence_milli == Some(r.confidence_milli)
}

proof fn lemma_filter_step<A>(s: Seq<A>, p: spec_fn(A) -> bool, i: int)
    requires
        0 <= i < s.len(),
    ensures
        s.take(i + 1).filter(p) == if p(s[i]) {
            s.take(i).filter(p).push(s[i])
        } else {
            s.take(i).filter(p)
        },
{
    reveal(Seq::filter);
    assert(s.take(i + 1).drop_last() =~= s.take(i));
}

proof fn lemma_unknown_files_bound(entries: Seq<WalkEntry>, langs: Seq<Seq<char>>, n: int)
    ensures
        n >= 0 ==> unknown_files(entries, langs, n) <= n,
    decreases n,
{
    if n > 0 {
        lemma_unknown_files_bound(entries, langs, n - 1);
    }
}

proof fn lemma_unknown_files_agree(entries: Seq<WalkEntry>, a: Seq<Seq<char>>, b: Seq<Seq<char>>, n: int)
    requires
        0 <= n,
        n <= a.len(),
        n <= b.len(),
        forall|k: int| 0 <= k < n ==> a[k] == b[k],
    ensures
        unknown_files(entries, a, n) == unknown_files(entries, b, n),
    decreases n,
{
    if n > 0 {
        lemma_unknown_files_agree(entries, a, b, n - 1);
    }
}

fn opt_string(o: Option<Vec<char>>) -> (r: Option<String>)
    ensures
        opt_text(r) == match o {
            Some(v) => Some(v@),
            None => None::<Seq<char>>,
        },
{
    match o {
        Some(v) => Some(string_of(&v)),
        None => None,
    }
}

/// The node a walk entry is recorded as, a file in language `lang`.
fn walk_node(e: &WalkEntry, lang: &str) -> (n: GraphNode)
    ensures
        is_walk_node(n, *e, lang@),
{
    let p = chars_of(e.relative_path.as_str());
    let dot = chars_of(".");
    let name = if seq_eq(&p, &dot) {
        dot
    } else {
        file_name(&p)
    };
    let extension = if e.is_dir {
        None
    } else {
        opt_string(path_ext(&p))
    };
    let language_id = if e.is_dir {
        "directory".to_owned()
    } else {
        lang.to_owned()
    };
    GraphNode {
        id: node_id_for_path(e.relative_path.as_str()),
        kind: if e.is_dir {
            NodeKind::Directory
        } else {
            NodeKind::File
        },
        name: string_of(&name),
        relative_path: e.relative_path.clone(),
        parent_file: None,
        line: None,
        extension,
        language_id,
        size_bytes: e.size_bytes,
    }
}

impl GraphStore {
    /// Replaces the contents with the nodes of the walk entries and the
    /// `CONTAINS` edges from each entry's parent directory to it; the
    /// language of each file is what `language_for` gives for its entry,
    /// asked once per file, in order. Returns the number of files and of
    /// files of unknown language.
    pub fn insert_walk_entries<F: Fn(&WalkEntry) -> &'static str>(&mut self, entries: &Vec<WalkEntry>, language_for: F) -> (r: (usize, usize))
        requires
            old(self).wf(),
            forall|e: &WalkEntry| #[trigger] language_for.requires((e,)),
        ensures
            final(self).wf(),
            exists|langs: Seq<Seq<char>>|
                #[trigger] languages_of(language_for, entries@, langs) && walk_inserted(*final(self), entries@, langs)
                    && r.1 == unknown_files(entries@, langs, entries@.len() as int),
            r.0 == entries@.filter(|e: WalkEntry| is_file_entry(e)).len(),
    {
        self.clear();
        let ghost pf = |e: WalkEntry| is_file_entry(e);
        let ghost mut langs: Seq<Seq<char>> = Seq::empty();
        let ghost mut ns: Seq<GraphNode> = Seq::empty();
        let mut files: usize = 0;
        let mut unknown: usize = 0;
        let mut i: usize = 0;
        while i < entries.len()
            invariant
                i <= entries.len(),
                self.wf(),
                self.edge_rows() == Seq::<GraphEdge>::empty(),
                ns.len() == i,
                forall|e: &WalkEntry| #[trigger] language_for.requires((e,)),
                langs.len() == i,
                forall|k: int| 0 <= k < i ==> is_walk_node(#[trigger] ns[k], entries@[k], langs[k]),
                forall|k: int| 0 <= k < i && !entries@[k].is_dir ==> exists|l: &'static str|
                    #[trigger] language_for.ensures((&entries@[k],), l) && l@ == langs[k],
                self.node_rows() == upsert_nodes(Seq::empty(), ns),
                pf == (|e: WalkEntry| is_file_entry(e)),
                files == entries@.take(i as int).filter(pf).len(),
                unknown == unknown_files(entries@, langs, i as int),
                files <= i,
                unknown <= i,
            decreases entries.len() - i,
        {
            proof {
                lemma_filter_step(entries@, pf, i as int);
                entries@.take(i as int).lemma_filter_len(pf);
                lemma_unknown_files_bound(entries@, langs, i as int);
            }
            let lang: &str = if entries[i].is_dir {
                "directory"
            } else {
                language_for(&entries[i])
            };
            let ghost lg = lang@;
            let n = walk_node(&entries[i], lang);
            if !entries[i].is_dir {
                files += 1;
                if seq_eq(&chars_of(lang), &chars_of("unknown")) {
                    unknown += 1;
                }
            }
            proof {
                assert(ns.push(n).drop_last() =~= ns);
                ns = ns.push(n);
                let l0 = langs;
                langs = langs.push(lg);
                lemma_unknown_files_agree(entries@, langs, l0, i as int);
                assert forall|k: int| 0 <= k < i + 1 && !entries@[k].is_dir implies exists|l: &'static str|
                    #[trigger] language_for.ensures((&entries@[k],), l) && l@ == langs[k] by {
                    if k < i {
                        assert(langs[k] == l0[k]);
                    }
                }
            }
            self.insert_node(n);
            i += 1;
        }
        let ghost pr = |e: WalkEntry| e.relative_path@ != "."@;
        let ghost mut es: Seq<GraphEdge> = Seq::empty();
        let mut j: usize = 0;
        while j < entries.len()
            invariant
                j <= entries.len(),
                self.wf(),
                self.node_rows() == upsert_nodes(Seq::empty(), ns),
                pr == (|e: WalkEntry| e.relative_path@ != "."@),
                es.len() == entries@.take(j as int).filter(pr).len(),
                forall|k: int|
                    0 <= k < es.len() ==> is_contains_edge(
                        #[trigger] es[k],
                        node_id_text(parent_of(entries@.take(j as int).filter(pr)[k].relative_path@)),
                        node_id_text(entries@.take(j as int).filter(pr)[k].relative_path@),
                    ),
                self.edge_rows() == upsert_edges(Seq::empty(), es),
            decreases entries.len() - j,
        {
            proof {
                lemma_filter_step(entries@, pr, j as int);
            }
            let p = chars_of(entries[j].relative_path.as_str());
            if !seq_eq(&p, &chars_of(".")) {
                let parent = string_of(&parent_path(&p));
                let from = node_id_for_path(parent.as_str());
                let to = node_id_for_path(entries[j].relative_path.as_str());
                let ghost before = self.edge_rows();
                self.insert_edge(from.as_str(), to.as_str(), EdgeKind::Contains, None);
                proof {
                    let e = choose|e: GraphEdge|
                        e.id@ == edge_id_text(from@, to@, EdgeKind::Contains) && e.from_id@ == from@ && e.to_id@ == to@
                            && e.kind == EdgeKind::Contains && e.confidence_milli == None::<u16>
                            && self.edge_rows() == upsert_edge(before, e);
                    assert(es.push(e).drop_last() =~= es);
                    es = es.push(e);
                }
            }
            j += 1;
        }
        proof {
            assert(entries@.take(entries.len() as int) =~= entries@);
            assert(non_root(entries@) == entries@.filter(pr));
            assert(languages_of(language_for, entries@, langs));
        }
        (files, unknown)
    }

    /// Records each symbol as a node, with a `CONTAINS` edge from its file.
    pub fn insert_symbols(&mut self, symbols: &Vec<ExtractedSymbol>)
        requires
            old(self).wf(),
        ensures
            final(self).wf(),
            symbols_inserted(*old(self), *final(self), symbols@),
    {
        let ghost n0 = self.node_rows();
        let ghost e0 = self.edge_rows();
        let ghost mut ns: Seq<GraphNode> = Seq::empty();
        let ghost mut es: Seq<GraphEdge> = Seq::empty();
        let mut i: usize = 0;
        while i < symbols.len()
            invariant
                i <= symbols.len(),
                self.wf(),
                ns.len() == i,
                es.len() == i,
                forall|k: int| 0 <= k < i ==> is_symbol_node(#[trigger] ns[k], symbols@[k]),
                forall|k: int|
                    0 <= k < i ==> is_contains_edge(
                        #[trigger] es[k],
                        node_id_text(symbols@[k].parent_file@),
                        symbol_id_text(symbols@[k].parent_file@, symbols@[k].kind, symbols@[k].name@, symbols@[k].line),
                    ),
                self.node_rows() == upsert_nodes(n0, ns),
                self.edge_rows() == upsert_edges(e0, es),
            decreases symbols.len() - i,
        {
            let s = &symbols[i];
            let id = symbol_id(s.parent_file.as_str(), s.kind, s.name.as_str(), s.line);
            let n = GraphNode {
                id: id.clone(),
                kind: s.kind,
                name: s.name.clone(),
                relative_path: s.parent_file.clone(),
                parent_file: Some(s.parent_file.clone()),
                line: Some(s.line),
                extension: None,
                language_id: s.language_id.clone(),
                size_bytes: None,
            };
            proof {
                assert(ns.push(n).drop_last() =~= ns);
                ns = ns.push(n);
            }
            self.insert_node(n);
            let file_id = node_id_for_path(s.parent_file.as_str());
            let ghost before = self.edge_rows();
            self.insert_edge(file_id.as_str(), id.as_str(), EdgeKind::Contains, None);
            proof {
                let e = choose|e: GraphEdge|
                    e.id@ == edge_id_text(file_id@, id@, EdgeKind::Contains) && e.from_id@ == file_id@ && e.to_id@ == id@
                        && e.kind == EdgeKind::Contains && e.confidence_milli == None::<u16>
                        && self.edge_rows() == upsert_edge(before, e);
                assert(es.push(e).drop_last() =~= es);
                es = es.push(e);
            }
            i += 1;
        }
    }

    /// Stores each relation whose two ends are nodes of the store as an edge
    /// with its confidence; the others are dropped.
    pub fn insert_relations(&mut self, relations: &Vec<ResolvedEdge>)
        requires
            old(self).wf(),
        ensures
            final(self).wf(),
            relations_inserted(*old(self), *final(self), relations@),
    {
        let ghost n0 = self.node_rows();
        let ghost e0 = self.edge_rows();
        let ghost pl = |r: ResolvedEdge| has_node(n0, r.from_id@) && has_node(n0, r.to_id@);
        let ghost mut es: Seq<GraphEdge> = Seq::empty();
        let mut i: usize = 0;
        while i < relations.len()
            invariant
                i <= relations.len(),
                self.wf(),
                self.node_rows() == n0,
                pl == (|r: ResolvedEdge| has_node(n0, r.from_id@) && has_node(n0, r.to_id@)),
                es.len() == relations@.take(i as int).filter(pl).len(),
                forall|k: int|
                    0 <= k < es.len() ==> is_relation_edge(#[trigger] es[k], relations@.take(i as int).filter(pl)[k]),
                self.edge_rows() == upsert_edges(e0, es),
            decreases relations.len() - i,
        {
            proof {
                lemma_filter_step(relations@, pl, i as int);
            }
            let r = &relations[i];
            if self.node_exists(r.from_id.as_str()) && self.node_exists(r.to_id.as_str()) {
                let ghost before = self.edge_rows();
                self.insert_edge(r.from_id.as_str(), r.to_id.as_str(), r.kind, Some(r.confidence_milli));
                proof {
                    let e = choose|e: GraphEdge|
                        e.id@ == edge_id_text(r.from_id@, r.to_id@, r.kind) && e.from_id@ == r.from_id@ && e.to_id@
                            == r.to_id@ && e.kind == r.kind && e.confidence_milli == Some(r.confidence_milli)
                            && self.edge_rows() == upsert_edge(before, e);
                    assert(es.push(e).drop_last() =~= es);
                    es = es.push(e);
                }
            }
            i += 1;
        }
        proof {
            assert(relations@.take(relations.len() as int) =~= relations@);
        }
    }
}

} // verus!
