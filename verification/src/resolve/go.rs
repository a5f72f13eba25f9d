//! Go files: calls of functions declared in this file or in the other Go files.
use vstd::prelude::*;
use vstd::string::StringSliceAdditionalSpecFns;
use crate::model::{IndexError, ResolvedEdge};
use crate::store::GraphStore;
use crate::syntax::{Grammar, SyntaxTree, parse_tree, parses, parsed};
use crate::resolve::{CallShape, EdgeView, edge_views, call_sites_upto, go_shape, cross_file_call_edges, resolve_cross_file_tree};

verus! {

/// The relations of a Go file whose syntax tree is `t`, where `files` are
/// the paths of the Go files searched for a callee.
pub open spec fn relations_of_tree(nodes: Seq<crate::model::GraphNode>, path: Seq<char>, files: Seq<Seq<char>>, bytes: Seq<u8>, t: SyntaxTree) -> Seq<EdgeView> {
    let sites = call_sites_upto(t, bytes, go_shape(), t.nodes@.len() as int);
    cross_file_call_edges(nodes, path, files, Some("main.go"@), sites, sites.len() as int)
}

/// The paths of `(path, source)` pairs.
pub open spec fn paths_of(go_files: Seq<(String, String)>) -> Seq<Seq<char>> {
    go_files.map_values(|f: (String, String)| f.0@)
}

/// The `CALLS` relations of the Go file `relative_path`, looking callees up
/// in `go_files`: none when tree-sitter gives no tree, else those of the tree it gives.
pub fn resolve_file(store: &GraphStore, relative_path: &str, source: &str, go_files: &Vec<(String, String)>) -> (r: Result<Vec<ResolvedEdge>, IndexError>)
    ensures
        match r {
            Ok(es) => if parses(Grammar::Go, source@) {
                exists|t: SyntaxTree| #[trigger] parsed(Grammar::Go, source@, t)
                    && edge_views(es@) == relations_of_tree(store.node_rows(), relative_path@, paths_of(go_files@), source.spec_bytes(), t)
            } else {
                es@.len() == 0
            },
            Err(_) => false,
        },
{
    let mut paths: Vec<String> = Vec::new();
    let mut i: usize = 0;
    while i < go_files.len()
        invariant
            i <= go_files@.len(),
            paths@.len() == i,
            forall|k: int| 0 <= k < i ==> (#[trigger] paths@[k])@ == go_files@[k].0@,
        decreases go_files@.len() - i,
    {
        let p = go_files[i].0.clone();
        paths.push(p);
        i = i + 1;
    }
    assert(paths@.map_values(|x: String| x@) =~= paths_of(go_files@));
    match parse_tree(Grammar::Go, source) {
        Some(t) => {
            let shape = CallShape { call_kind: "call_expression", callee_field: Some("function"), callee_kind: "identifier", function_kind: "function_declaration", other_function_kind: Some("method_declaration") };
            assert(shape == go_shape());
            let es = resolve_cross_file_tree(store, relative_path, source, &t, &shape, &paths, Some("main.go"));
            assert(parsed(Grammar::Go, source@, t));
            Ok(es)
        },
        None => Ok(Vec::new()),
    }
}

} // verus!
