//! Python files: `from .. import ..` bindings and calls of imported or local functions.
use vstd::prelude::*;
use vstd::string::StringSliceAdditionalSpecFns;
use crate::model::{IndexError, ResolvedEdge};
use crate::store::GraphStore;
use crate::syntax::{Grammar, SyntaxTree, parse_tree, parses, parsed};
use crate::resolve::{EdgeView, edge_views, py_bindings, call_sites_upto, python_shape, py_import_edges, py_call_edges,
    resolve_python_tree};

verus! {

/// The relations of a Python file whose syntax tree is `t`.
pub open spec fn relations_of_tree(nodes: Seq<crate::model::GraphNode>, path: Seq<char>, source: Seq<char>, bytes: Seq<u8>, t: SyntaxTree) -> Seq<EdgeView> {
    let bs = py_bindings(t, bytes, source);
    let sites = call_sites_upto(t, bytes, python_shape(), t.nodes@.len() as int);
    py_import_edges(nodes, path, bs, bs.len() as int) + py_call_edges(nodes, path, bs, sites, sites.len() as int)
}

/// The `IMPORTS` and `CALLS` relations of the Python file `relative_path`:
/// none when tree-sitter gives no tree, else those of the tree it gives.
pub fn resolve_file(store: &GraphStore, relative_path: &str, source: &str) -> (r: Result<Vec<ResolvedEdge>, IndexError>)
    ensures
        match r {
            Ok(es) => if parses(Grammar::Python, source@) {
                exists|t: SyntaxTree| #[trigger] parsed(Grammar::Python, source@, t)
                    && edge_views(es@) == relations_of_tree(store.node_rows(), relative_path@, source@, source.spec_bytes(), t)
            } else {
                es@.len() == 0
            },
            Err(_) => false,
        },
{
    match parse_tree(Grammar::Python, source) {
        Some(t) => {
            let es = resolve_python_tree(store, relative_path, source, &t);
            assert(parsed(Grammar::Python, source@, t));
            Ok(es)
        },
        None => Ok(Vec::new()),
    }
}

} // verus!
