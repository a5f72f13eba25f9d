//! Gin routes: `router.GET("/path", handler)`.
use vstd::prelude::*;
use crate::model::{EdgeKind, ExtractedSymbol, IndexError, NodeKind, ResolvedEdge};
use crate::pattern::regex_captures;
use crate::extract::{SymbolView, symbol_views};
use crate::resolve::{EdgeView, edge_views};
use crate::store::GraphStore;
use crate::framework::{MatchName, matched_symbols, handler_group_edges, symbols_from, handles_from};
use vstd::utf8::encode_utf8;

verus! {

/// A route registration on a router.
pub const ROUTE_PATTERN: &'static str = r#"(?m)\b(?:router|r|engine)\.(GET|POST|PUT|DELETE|PATCH)\s*\(\s*["']([^"']+)["']"#;

/// A route registration followed by its handler's name.
pub const HANDLER_PATTERN: &'static str = r#"(?m)\b(?:router|r|engine)\.(GET|POST|PUT|DELETE|PATCH)\s*\(\s*["']([^"']+)["']\s*,\s*([A-Za-z_][A-Za-z0-9_]*)"#;

/// The route symbols of a file, in match order.
pub open spec fn routes(path: Seq<char>, source: Seq<char>) -> Seq<SymbolView> {
    match regex_captures(ROUTE_PATTERN@, source) {
        Some(ms) => matched_symbols(encode_utf8(source), ms, path, "go"@, NodeKind::Route, MatchName::Route, ms.len() as int),
        None => Seq::empty(),
    }
}

/// `Handles` edges from the routes among `marks` to their handlers.
pub open spec fn edges(nodes: Seq<crate::model::GraphNode>, path: Seq<char>, source: Seq<char>, marks: Seq<SymbolView>) -> Seq<EdgeView> {
    match regex_captures(HANDLER_PATTERN@, source) {
        Some(ms) => handler_group_edges(nodes, encode_utf8(source), ms, path, NodeKind::Route, MatchName::Route, marks, 3, EdgeKind::Handles, 880u16, ms.len() as int),
        None => Seq::empty(),
    }
}

/// Route symbols of the Gin registrations in `source`.
pub fn extract_routes(relative_path: &str, source: &str) -> (r: Vec<ExtractedSymbol>)
    ensures
        symbol_views(r@) == routes(relative_path@, source@),
{
    symbols_from(ROUTE_PATTERN, source, relative_path, "go", NodeKind::Route, MatchName::Route)
}

/// `Handles` edges from the registered routes among `route_symbols` to the
/// handler functions of the file.
pub fn resolve_edges(store: &GraphStore, relative_path: &str, source: &str, route_symbols: &Vec<ExtractedSymbol>) -> (r: Result<Vec<ResolvedEdge>, IndexError>)
    ensures
        match r {
            Ok(v) => edge_views(v@) == edges(store.node_rows(), relative_path@, source@, symbol_views(route_symbols@)),
            Err(_) => false,
        },
{
    Ok(handles_from(store, HANDLER_PATTERN, relative_path, source, NodeKind::Route, MatchName::Route, route_symbols, 3, EdgeKind::Handles, 880))
}

} // verus!
