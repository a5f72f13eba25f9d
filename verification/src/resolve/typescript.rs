//! TypeScript and JavaScript files: `import` bindings and calls of imported or local functions.
use vstd::prelude::*;
use vstd::string::StringSliceAdditionalSpecFns;
use crate::model::{IndexError, ResolvedEdge};
use crate::store::GraphStore;
use crate::syntax::{Grammar, SyntaxTree, parse_tree, parses, parsed};
use crate::text::lines_of;
use crate::resolve::{EdgeView, edge_views, ts_line_bindings, call_sites_upto, typescript_shape, ts_import_edges, ts_call_edges,
    resolve_typescript_tree};

verus! {

/// The relations of a TypeScript file whose syntax tree is `t`.
pub open spec fn relations_of_tree(nodes: Seq<crate::model::GraphNode>, path: Seq<char>, source: Seq<char>, bytes: Seq<u8>, t: SyntaxTree) -> Seq<EdgeView> {
    let bs = ts_line_bindings(Seq::empty(), lines_of(source), lines_of(source).len() as int);
    let sites = call_sites_upto(t, bytes, typescript_shape(), t.nodes@.len() as int);
    ts_import_edges(nodes, path, bs, bs.len() as int) + ts_call_edges(nodes, path, bs, sites, sites.len() as int)
}

/// The `IMPORTS` and `CALLS` relations of the TypeScript file
/// `relative_path`: none when tree-sitter gives no tree, else those of the tree it gives.
pub fn resolve_file(store: &GraphStore, relative_path: &str, source: &str) -> (r: Result<Vec<ResolvedEdge>, IndexError>)
    ensures
        match r {
            Ok(es) => if parses(Grammar::TypeScript, source@) {
                exists|t: SyntaxTree| #[trigger] parsed(Grammar::TypeScript, source@, t)
                    && edge_views(es@) == relations_of_tree(store.node_rows(), relative_path@, source@, source.spec_bytes(), t)
            } else {
                es@.len() == 0
            },
            Err(_) => false,
        },
{
    match parse_tree(Grammar::TypeScript, source) {
        Some(t) => {
            let es = resolve_typescript_tree(store, relative_path, source, &t);
            assert(parsed(Grammar::TypeScript, source@, t));
            Ok(es)
        },
        None => Ok(Vec::new()),
    }
}

} // verus!
