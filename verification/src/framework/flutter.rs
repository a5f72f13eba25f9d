//! Flutter widgets with `onTap`/`onPressed` handlers, and `http` calls to
//! routes.
use vstd::prelude::*;
use crate::model::{EdgeKind, ExtractedSymbol, IndexError, NodeKind, ResolvedEdge};
use crate::pattern::regex_captures;
use crate::extract::{SymbolView, symbol_views};
use crate::resolve::{EdgeView, SourceFile, edge_views};
use crate::store::GraphStore;
use crate::framework::{MatchName, FetchFlavor, tap_symbols, handler_group_edges, fetch_edges, tap_symbols_from, handles_from,
    cross_layer_fetches};
use vstd::utf8::encode_utf8;

verus! {

/// A widget constructor up to its `onTap:` or `onPressed:` handler.
pub const WIDGET_PATTERN: &'static str = r"(?s)([A-Za-z][A-Za-z0-9]*)\s*\(.*?\bon(?:Tap|Pressed):\s*(?:\(\)\s*=>\s*)?([A-Za-z_][A-Za-z0-9_]*)";

/// An `http.post(Uri.parse('/path'` call.
pub const FETCH_PATTERN: &'static str = r#"http\.(?:post|get|put|delete|patch)\s*\(\s*Uri\.parse\s*\(\s*['"]([^'"]+)['"]"#;

/// The UI symbols of a file, in match order, one per line and name.
pub open spec fn ui_elements(path: Seq<char>, source: Seq<char>) -> Seq<SymbolView> {
    match regex_captures(WIDGET_PATTERN@, source) {
        Some(ms) => tap_symbols(encode_utf8(source), ms, path, ms.len() as int),
        None => Seq::empty(),
    }
}

/// `Triggers` edges from the widgets among `marks` to their handlers.
pub open spec fn edges(nodes: Seq<crate::model::GraphNode>, path: Seq<char>, source: Seq<char>, marks: Seq<SymbolView>) -> Seq<EdgeView> {
    match regex_captures(WIDGET_PATTERN@, source) {
        Some(ms) => handler_group_edges(nodes, encode_utf8(source), ms, path, NodeKind::UiElement, MatchName::Tap, marks, 2, EdgeKind::Triggers, 860u16, ms.len() as int),
        None => Seq::empty(),
    }
}

/// `Fetches` edges of every Dart file.
pub open spec fn fetches(nodes: Seq<crate::model::GraphNode>, files: Seq<SourceFile>) -> Seq<EdgeView> {
    fetch_edges(nodes, FetchFlavor::Dart, FETCH_PATTERN@, ""@, files, 800u16, files.len() as int)
}

/// UI symbols `Widget.onTap` / `Widget.onPressed` of the widgets in `source`.
pub fn extract_ui_elements(relative_path: &str, source: &str) -> (r: Vec<ExtractedSymbol>)
    ensures
        symbol_views(r@) == ui_elements(relative_path@, source@),
{
    tap_symbols_from(WIDGET_PATTERN, source, relative_path)
}

/// `Triggers` edges from the widgets among `ui_symbols` to their handlers.
pub fn resolve_edges(store: &GraphStore, relative_path: &str, source: &str, ui_symbols: &Vec<ExtractedSymbol>) -> (r: Result<Vec<ResolvedEdge>, IndexError>)
    ensures
        match r {
            Ok(v) => edge_views(v@) == edges(store.node_rows(), relative_path@, source@, symbol_views(ui_symbols@)),
            Err(_) => false,
        },
{
    Ok(handles_from(store, WIDGET_PATTERN, relative_path, source, NodeKind::UiElement, MatchName::Tap, ui_symbols, 2, EdgeKind::Triggers, 860))
}

/// `Fetches` edges from Dart `http` calls to the routes of the same method
/// and path anywhere in the graph.
pub fn resolve_cross_layer_fetches(store: &GraphStore, files: &Vec<SourceFile>) -> (r: Result<Vec<ResolvedEdge>, IndexError>)
    ensures
        match r {
            Ok(v) => edge_views(v@) == fetches(store.node_rows(), files@),
            Err(_) => false,
        },
{
    Ok(cross_layer_fetches(store, FetchFlavor::Dart, FETCH_PATTERN, "", files, 800))
}

} // verus!
