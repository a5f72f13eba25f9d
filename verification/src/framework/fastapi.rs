//! FastAPI routes: `@app.get("/path")` decorating the `def` that follows.
use vstd::prelude::*;
use crate::model::{ExtractedSymbol, IndexError, NodeKind, ResolvedEdge};
use crate::pattern::regex_captures;
use crate::extract::{SymbolView, symbol_views};
use crate::resolve::{EdgeView, edge_views};
use crate::store::GraphStore;
use crate::text::lines_of;
use crate::framework::{MatchName, HandlerSearch, matched_symbols, decorated_edges, symbols_from, decorated_edges_from};
use vstd::utf8::encode_utf8;

verus! {

/// A route decorator.
pub const ROUTE_PATTERN: &'static str = r#"(?m)@app\.(get|post|put|delete|patch)\(\s*['"]([^'"]+)['"]"#;

/// A top-level function definition.
pub const HANDLER_PATTERN: &'static str = r#"(?m)^def\s+([A-Za-z_][A-Za-z0-9_]*)\s*\("#;

/// The route symbols of a file, in match order.
pub open spec fn routes(path: Seq<char>, source: Seq<char>) -> Seq<SymbolView> {
    match regex_captures(ROUTE_PATTERN@, source) {
        Some(ms) => matched_symbols(encode_utf8(source), ms, path, "python"@, NodeKind::Route, MatchName::Route, ms.len() as int),
        None => Seq::empty(),
    }
}

/// `Handles` edges from the decorated routes among `marks` to the function
/// defined next, past blank and comment lines.
pub open spec fn edges(nodes: Seq<crate::model::GraphNode>, path: Seq<char>, source: Seq<char>, marks: Seq<SymbolView>) -> Seq<EdgeView> {
    match regex_captures(ROUTE_PATTERN@, source) {
        Some(ms) => decorated_edges(nodes, encode_utf8(source), lines_of(source), ms, path, marks, HandlerSearch::NextDefinition, HANDLER_PATTERN@, 930u16, ms.len() as int),
        None => Seq::empty(),
    }
}

/// Route symbols of the FastAPI decorators in `source`.
pub fn extract_routes(relative_path: &str, source: &str) -> (r: Vec<ExtractedSymbol>)
    ensures
        symbol_views(r@) == routes(relative_path@, source@),
{
    symbols_from(ROUTE_PATTERN, source, relative_path, "python", NodeKind::Route, MatchName::Route)
}

/// `Handles` edges from the decorated routes among `route_symbols` to the
/// functions they decorate.
pub fn resolve_edges(store: &GraphStore, relative_path: &str, source: &str, route_symbols: &Vec<ExtractedSymbol>) -> (r: Result<Vec<ResolvedEdge>, IndexError>)
    ensures
        match r {
            Ok(v) => edge_views(v@) == edges(store.node_rows(), relative_path@, source@, symbol_views(route_symbols@)),
            Err(_) => false,
        },
{
    Ok(decorated_edges_from(store, ROUTE_PATTERN, HANDLER_PATTERN, HandlerSearch::NextDefinition, relative_path, source, route_symbols, 930))
}

} // verus!
