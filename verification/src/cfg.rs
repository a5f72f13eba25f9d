//! Control-flow branches: decision points and the calls they lead to.
use vstd::prelude::*;
use vstd::utf8::encode_utf8;
use crate::model::{ExtractedSymbol, IndexError, ResolvedEdge};
use crate::extract::{SymbolView, symbol_views};
use crate::resolve::{EdgeView, SourceFile, edge_views, first_relations, dedup_relations};
use crate::store::GraphStore;
use crate::syntax::{Grammar, SyntaxTree, parses, parsed};
use crate::walk::{detect_language, language_of_path};
use crate::text::str_eq;
use crate::cfg::python::{branch_symbols, branch_edges, labels_cuttable, extract_branches};

pub mod python;

verus! {

/// `syms` and `es` are what branch extraction gives for file `f`: nothing
/// outside Python or when tree-sitter gives no tree, else the branches of
/// the tree it gives.
pub open spec fn cfg_file(nodes: Seq<crate::model::GraphNode>, f: SourceFile, syms: Seq<SymbolView>, es: Seq<EdgeView>) -> bool {
    let bytes = encode_utf8(f.source@);
    if language_of_path(f.relative_path@) != "python"@ || !parses(Grammar::Python, f.source@) {
        syms.len() == 0 && es.len() == 0
    } else {
        exists|t: SyntaxTree|
            #[trigger] parsed(Grammar::Python, f.source@, t) && labels_cuttable(t, bytes)
                && syms == branch_symbols(t, bytes, f.relative_path@, t.nodes@.len() as int)
                && es == branch_edges(nodes, t, bytes, f.relative_path@, t.nodes@.len() as int)
    }
}

/// `f` is a Python file whose tree has an `if` label that cannot be cut.
pub open spec fn uncuttable_file(f: SourceFile) -> bool {
    &&& language_of_path(f.relative_path@) == "python"@
    &&& exists|t: SyntaxTree| #[trigger] parsed(Grammar::Python, f.source@, t) && !labels_cuttable(t, encode_utf8(f.source@))
}

/// Per-file branch symbols and edges of every file.
pub open spec fn cfg_files(nodes: Seq<crate::model::GraphNode>, files: Seq<SourceFile>, ps: Seq<Seq<SymbolView>>, pe: Seq<Seq<EdgeView>>) -> bool {
    &&& ps.len() == files.len()
    &&& pe.len() == files.len()
    &&& forall|i: int| 0 <= i < files.len() ==> #[trigger] cfg_file(nodes, files[i], ps[i], pe[i])
}

/// `after` is `before` with the branches of `files` recorded, and `es` are
/// their edges against `before`, later repeats dropped.
pub open spec fn cfg_resolved(before: GraphStore, after: GraphStore, files: Seq<SourceFile>, es: Seq<EdgeView>) -> bool {
    exists|ps: Seq<Seq<SymbolView>>, pe: Seq<Seq<EdgeView>>|
        #[trigger] cfg_files(before.node_rows(), files, ps, pe)
            && es == first_relations(pe.flatten(), pe.flatten().len() as int)
            && exists|syms: Seq<ExtractedSymbol>|
                #![trigger symbol_views(syms)]
                symbol_views(syms) == ps.flatten() && crate::ingest::symbols_inserted(before, after, syms)
}

/// Records the branches of every Python file as symbols and gives their
/// `BRANCHES_TO` edges, later repeats of a relation dropped. Branch edges
/// look up functions only, which branch symbols never replace. A Python file
/// with an `if` condition that cannot be cut is an error, and then nothing
/// is recorded.
pub fn resolve_cfg(store: &mut GraphStore, files: &Vec<SourceFile>) -> (r: Result<Vec<ResolvedEdge>, IndexError>)
    requires
        old(store).wf(),
    ensures
        final(store).wf(),
        match r {
            Ok(v) => cfg_resolved(*old(store), *final(store), files@, edge_views(v@)),
            Err(e) => e is Parse && *final(store) == *old(store)
                && exists|i: int| 0 <= i < files@.len() && #[trigger] uncuttable_file(files@[i]),
        },
{
    let ghost nodes = store.node_rows();
    let ghost mut ps: Seq<Seq<SymbolView>> = Seq::empty();
    let ghost mut pe: Seq<Seq<EdgeView>> = Seq::empty();
    let mut syms: Vec<ExtractedSymbol> = Vec::new();
    let mut edges: Vec<ResolvedEdge> = Vec::new();
    let mut i: usize = 0;
    while i < files.len()
        invariant
            i <= files.len(),
            store.wf(),
            *store == *old(store),
            nodes == store.node_rows(),
            cfg_files(nodes, files@.take(i as int), ps, pe),
            symbol_views(syms@) == ps.flatten(),
            edge_views(edges@) == pe.flatten(),
        decreases files.len() - i,
    {
        let f = &files[i];
        let ghost fs = files@[i as int];
        let (mut b, mut e) = if str_eq(detect_language(f.relative_path.as_str()), "python") {
            match extract_branches(store, f.relative_path.as_str(), f.source.as_str()) {
                Ok(pair) => pair,
                Err(err) => {
                    assert(uncuttable_file(files@[i as int]));
                    return Err(err);
                },
            }
        } else {
            (Vec::new(), Vec::new())
        };
        let ghost bv = symbol_views(b@);
        let ghost ev = edge_views(e@);
        assert(cfg_file(nodes, fs, bv, ev));
        let ghost s0 = syms@;
        let ghost e0 = edges@;
        syms.append(&mut b);
        edges.append(&mut e);
        proof {
            assert(symbol_views(syms@) =~= symbol_views(s0) + bv);
            assert(edge_views(edges@) =~= edge_views(e0) + ev);
            ps.lemma_flatten_push(bv);
            pe.lemma_flatten_push(ev);
            ps = ps.push(bv);
            pe = pe.push(ev);
            let ft = files@.take(i + 1);
            assert(ft =~= files@.take(i as int).push(fs));
            assert forall|q: int| 0 <= q < ft.len() implies #[trigger] cfg_file(nodes, ft[q], ps[q], pe[q]) by {
                if q < i {
                    assert(ft[q] == files@.take(i as int)[q]);
                }
            }
        }
        i += 1;
    }
    let out = dedup_relations(&edges);
    store.insert_symbols(&syms);
    proof {
        assert(files@.take(files.len() as int) =~= files@);
    }
    Ok(out)
}

} // verus!
