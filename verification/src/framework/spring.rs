//! Spring MVC routes: `@GetMapping("/path")` on the method declared below.
use vstd::prelude::*;
use crate::model::{ExtractedSymbol, IndexError, NodeKind, ResolvedEdge};
use crate::pattern::regex_captures;
use crate::extract::{SymbolView, symbol_views};
use crate::resolve::{EdgeView, edge_views};
use crate::store::GraphStore;
use crate::text::lines_of;
use crate::framework::{MatchName, HandlerSearch, matched_symbols, decorated_edges, symbols_from, decorated_edges_from};
use vstd::utf8::encode_utf8;

verus! {

/// A mapping annotation.
pub const ROUTE_PATTERN: &'static str = r#"(?m)@(Get|Post|Put|Delete|Patch)Mapping\s*\(\s*["']([^"']+)["']"#;

/// A method declaration; group 1 is the method's name.
pub const HANDLER_PATTERN: &'static str = r#"(?m)^\s*(?:public|private|protected)?\s+[\w<>,\[\]\s]+\s+(\w+)\s*\("#;

/// The route symbols of a file, in match order.
pub open spec fn routes(path: Seq<char>, source: Seq<char>) -> Seq<SymbolView> {
    match regex_captures(ROUTE_PATTERN@, source) {
        Some(ms) => matched_symbols(encode_utf8(source), ms, path, "java"@, NodeKind::Route, MatchName::Route, ms.len() as int),
        None => Seq::empty(),
    }
}

/// `Handles` edges from the mapped routes among `marks` to the first method
/// declared after the annotation.
pub open spec fn edges(nodes: Seq<crate::model::GraphNode>, path: Seq<char>, source: Seq<char>, marks: Seq<SymbolView>) -> Seq<EdgeView> {
    match regex_captures(ROUTE_PATTERN@, source) {
        Some(ms) => decorated_edges(nodes, encode_utf8(source), lines_of(source), ms, path, marks, HandlerSearch::FirstMatch, HANDLER_PATTERN@, 870u16, ms.len() as int),
        None => Seq::empty(),
    }
}

/// Route symbols of the Spring mapping annotations in `source`.
pub fn extract_routes(relative_path: &str, source: &str) -> (r: Vec<ExtractedSymbol>)
    ensures
        symbol_views(r@) == routes(relative_path@, source@),
{
    symbols_from(ROUTE_PATTERN, source, relative_path, "java", NodeKind::Route, MatchName::Route)
}

/// `Handles` edges from the mapped routes among `route_symbols` to the
/// methods they annotate.
pub fn resolve_edges(store: &GraphStore, relative_path: &str, source: &str, route_symbols: &Vec<ExtractedSymbol>) -> (r: Result<Vec<ResolvedEdge>, IndexError>)
    ensures
        match r {
            Ok(v) => edge_views(v@) == edges(store.node_rows(), relative_path@, source@, symbol_views(route_symbols@)),
            Err(_) => false,
        },
{
    Ok(decorated_edges_from(store, ROUTE_PATTERN, HANDLER_PATTERN, HandlerSearch::FirstMatch, relative_path, source, route_symbols, 870))
}

} // verus!
