//! React/JSX elements with `onClick` handlers, and `fetch` calls to routes.
use vstd::prelude::*;
use crate::model::{ExtractedSymbol, IndexError, NodeKind, ResolvedEdge};
use crate::pattern::regex_captures;
use crate::extract::{SymbolView, symbol_views};
use crate::resolve::{EdgeView, SourceFile, edge_views};
use crate::store::GraphStore;
use crate::framework::{MatchName, FetchFlavor, matched_symbols, click_edges, fetch_edges, symbols_from, click_edges_from,
    cross_layer_fetches};
use vstd::utf8::encode_utf8;

verus! {

/// A JSX element with an `onClick={handler}` attribute.
pub const CLICK_PATTERN: &'static str = r#"(?m)<([A-Za-z][A-Za-z0-9]*)[^>]*\bonClick=\{([A-Za-z_][A-Za-z0-9_]*)\}"#;

/// A `fetch('/path'` call.
pub const FETCH_PATTERN: &'static str = r#"fetch\s*\(\s*['"]([^'"]+)['"]"#;

/// A `method: 'POST'` option.
pub const METHOD_PATTERN: &'static str = r#"method:\s*['"](GET|POST|PUT|DELETE|PATCH)['"]"#;

/// The UI symbols of a file, in match order.
pub open spec fn ui_elements(path: Seq<char>, source: Seq<char>) -> Seq<SymbolView> {
    match regex_captures(CLICK_PATTERN@, source) {
        Some(ms) => matched_symbols(encode_utf8(source), ms, path, "typescript"@, NodeKind::UiElement, MatchName::Click, ms.len() as int),
        None => Seq::empty(),
    }
}

/// `Triggers` edges of the click handlers whose elements are among `marks`.
pub open spec fn edges(nodes: Seq<crate::model::GraphNode>, path: Seq<char>, source: Seq<char>, marks: Seq<SymbolView>) -> Seq<EdgeView> {
    match regex_captures(CLICK_PATTERN@, source) {
        Some(ms) => click_edges(nodes, encode_utf8(source), ms, path, marks, ms.len() as int),
        None => Seq::empty(),
    }
}

/// `Fetches` edges of every TypeScript or JavaScript file.
pub open spec fn fetches(nodes: Seq<crate::model::GraphNode>, files: Seq<SourceFile>) -> Seq<EdgeView> {
    fetch_edges(nodes, FetchFlavor::Browser, FETCH_PATTERN@, METHOD_PATTERN@, files, 820u16, files.len() as int)
}

/// UI symbols `Element.onClick` of the JSX click handlers in `source`.
pub fn extract_ui_elements(relative_path: &str, source: &str) -> (r: Vec<ExtractedSymbol>)
    ensures
        symbol_views(r@) == ui_elements(relative_path@, source@),
{
    symbols_from(CLICK_PATTERN, source, relative_path, "typescript", NodeKind::UiElement, MatchName::Click)
}

/// `Triggers` edges from the elements among `ui_symbols` to their handlers,
/// and from each enclosing component to the handler.
pub fn resolve_edges(store: &GraphStore, relative_path: &str, source: &str, ui_symbols: &Vec<ExtractedSymbol>) -> (r: Result<Vec<ResolvedEdge>, IndexError>)
    ensures
        match r {
            Ok(v) => edge_views(v@) == edges(store.node_rows(), relative_path@, source@, symbol_views(ui_symbols@)),
            Err(_) => false,
        },
{
    Ok(click_edges_from(store, CLICK_PATTERN, relative_path, source, ui_symbols))
}

/// `Fetches` edges from `fetch('/api/...')` call sites to the routes of the
/// same method and path anywhere in the graph.
pub fn resolve_cross_layer_fetches(store: &GraphStore, files: &Vec<SourceFile>) -> (r: Result<Vec<ResolvedEdge>, IndexError>)
    ensures
        match r {
            Ok(v) => edge_views(v@) == fetches(store.node_rows(), files@),
            Err(_) => false,
        },
{
    Ok(cross_layer_fetches(store, FetchFlavor::Browser, FETCH_PATTERN, METHOD_PATTERN, files, 820))
}

} // verus!
