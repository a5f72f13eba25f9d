//! Framework wiring (routes, UI handlers, cross-layer fetches) found by
//! regular expressions over source text.
use vstd::prelude::*;
use vstd::string::StringSliceAdditionalSpecFns;
use crate::model::{EdgeKind, ExtractedSymbol, NodeKind, ResolvedEdge, symbol_id, symbol_id_text, node_id_text, node_id_for_path};
use crate::resolve::SourceFile;
use crate::walk::{language_of_path, detect_language};
use crate::pattern::{CaptureSpans, captures_all, regex_captures, spans_view, spans_ok, match_spans_ok, group_or,
    group_text, has_group, match_line, group_string, line_of_match};
use crate::extract::{SymbolView, symbol_view, symbol_views};
use crate::resolve::{EdgeView, edge_views, fn_id, first_relations, dedup_relations};
use crate::model::IndexError;
use crate::store::GraphStore;
use crate::text::{chars_of, str_eq, upper_text, upper_chars, string_of, concat, concat3, contains, contains_text, trim, trim_start,
    trim_chars, lines_of, lines_chars, views, count_byte};
use crate::store::opt_text;
use vstd::utf8::encode_utf8;

pub mod express;
pub mod fastapi;
pub mod gin;
pub mod spring;
pub mod react;
pub mod flutter;

verus! {

/// How a match of a framework pattern is named.
#[derive(Clone, Copy, Debug)]
pub enum MatchName {
    /// `METHOD path`: group 1 uppercased (`GET` when absent), group 2 (`/` when absent).
    Route,
    /// `Element.onClick`: group 1 (`Element` when absent).
    Click,
    /// `Widget.onTap` or `Widget.onPressed`: group 1 (`Widget` when absent),
    /// `onTap` when the matched text mentions it.
    Tap,
}

/// `METHOD path` of a route match.
pub open spec fn route_name(bytes: Seq<u8>, m: Seq<Option<(usize, usize)>>) -> Seq<char> {
    (if has_group(m, 1) { upper_text(group_text(bytes, m, 1)) } else { "GET"@ }) + " "@ + group_or(bytes, m, 2, "/"@)
}

/// The event a tap match handles.
pub open spec fn tap_event(bytes: Seq<u8>, m: Seq<Option<(usize, usize)>>) -> Seq<char> {
    if contains_text(group_text(bytes, m, 0), "onTap"@) {
        "onTap"@
    } else {
        "onPressed"@
    }
}

/// The name a match gets under `rule`.
pub open spec fn match_name(rule: MatchName, bytes: Seq<u8>, m: Seq<Option<(usize, usize)>>) -> Seq<char> {
    match rule {
        MatchName::Route => route_name(bytes, m),
        MatchName::Click => group_or(bytes, m, 1, "Element"@) + ".onClick"@,
        MatchName::Tap => group_or(bytes, m, 1, "Widget"@) + "."@ + tap_event(bytes, m),
    }
}

/// The symbols of the first `n` matches: kind `kind`, named by `rule`, in `lang`.
pub open spec fn matched_symbols(
    bytes: Seq<u8>,
    ms: Seq<Seq<Option<(usize, usize)>>>,
    path: Seq<char>,
    lang: Seq<char>,
    kind: NodeKind,
    rule: MatchName,
    n: int,
) -> Seq<SymbolView>
    decreases n,
{
    if n <= 0 {
        Seq::empty()
    } else {
        matched_symbols(bytes, ms, path, lang, kind, rule, n - 1).push(
            (kind, match_name(rule, bytes, ms[n - 1]), path, match_line(bytes, ms[n - 1]), lang),
        )
    }
}

/// The UI symbols of the first `n` tap matches in Dart, a repeat of a line
/// and name left out.
pub open spec fn tap_symbols(bytes: Seq<u8>, ms: Seq<Seq<Option<(usize, usize)>>>, path: Seq<char>, n: int) -> Seq<SymbolView>
    decreases n,
{
    if n <= 0 {
        Seq::empty()
    } else {
        let r = tap_symbols(bytes, ms, path, n - 1);
        let s = (NodeKind::UiElement, match_name(MatchName::Tap, bytes, ms[n - 1]), path, match_line(bytes, ms[n - 1]), "dart"@);
        if exists|k: int| 0 <= k < r.len() && same_mark(#[trigger] r[k], s) {
            r
        } else {
            r.push(s)
        }
    }
}

/// Two symbols on the same line under the same name.
pub open spec fn same_mark(a: SymbolView, b: SymbolView) -> bool {
    a.3 == b.3 && a.1 == b.1
}

/// Some symbol of `syms` has id `id`.
pub open spec fn listed(syms: Seq<SymbolView>, id: Seq<char>) -> bool {
    exists|k: int| 0 <= k < syms.len() && symbol_id_text(#[trigger] syms[k].2, syms[k].0, syms[k].1, syms[k].3) == id
}

/// The id of the last function of `file` that starts on or before `line`.
pub open spec fn enclosing_id(nodes: Seq<crate::model::GraphNode>, file: Seq<char>, line: u32) -> Option<Seq<char>> {
    crate::store::last_id_by_line(nodes, crate::store::function_started_by(file, line))
}

/// Edges of the first `n` matches whose symbol (kind `kind`, named by
/// `rule`) is among `marks`: to the function of the file named by group
/// `group`, as `edge` with `confidence`.
pub open spec fn handler_group_edges(
    nodes: Seq<crate::model::GraphNode>,
    bytes: Seq<u8>,
    ms: Seq<Seq<Option<(usize, usize)>>>,
    path: Seq<char>,
    kind: NodeKind,
    rule: MatchName,
    marks: Seq<SymbolView>,
    group: int,
    edge: EdgeKind,
    confidence: u16,
    n: int,
) -> Seq<EdgeView>
    decreases n,
{
    if n <= 0 {
        Seq::empty()
    } else {
        let rest = handler_group_edges(nodes, bytes, ms, path, kind, rule, marks, group, edge, confidence, n - 1);
        let m = ms[n - 1];
        let id = symbol_id_text(path, kind, match_name(rule, bytes, m), match_line(bytes, m));
        if !listed(marks, id) {
            rest
        } else {
            match fn_id(nodes, path, group_text(bytes, m, group)) {
                Some(h) => rest.push((id, h, edge, confidence)),
                None => rest,
            }
        }
    }
}

/// `Triggers` edges of the first `n` click matches whose UI symbol is among
/// `marks`: from the element to its handler, and from the enclosing
/// component to the handler when that is another node.
pub open spec fn click_edges(
    nodes: Seq<crate::model::GraphNode>,
    bytes: Seq<u8>,
    ms: Seq<Seq<Option<(usize, usize)>>>,
    path: Seq<char>,
    marks: Seq<SymbolView>,
    n: int,
) -> Seq<EdgeView>
    decreases n,
{
    if n <= 0 {
        Seq::empty()
    } else {
        let rest = click_edges(nodes, bytes, ms, path, marks, n - 1);
        let m = ms[n - 1];
        let line = match_line(bytes, m);
        let id = symbol_id_text(path, NodeKind::UiElement, match_name(MatchName::Click, bytes, m), line);
        if !listed(marks, id) {
            rest
        } else {
            match fn_id(nodes, path, group_text(bytes, m, 2)) {
                None => rest,
                Some(h) => {
                    let with_handler = rest.push((id, h, EdgeKind::Triggers, 880u16));
                    match enclosing_id(nodes, path, line) {
                        Some(c) => if c != h && c != id {
                            with_handler.push((c, h, EdgeKind::Triggers, 860u16))
                        } else {
                            with_handler
                        },
                        None => with_handler,
                    }
                },
            }
        }
    }
}

/// The name of match `m` under `rule`.
pub fn name_of_match(rule: MatchName, source: &str, m: &CaptureSpans) -> (r: String)
    requires
        match_spans_ok(m@, source.spec_bytes()),
    ensures
        r@ == match_name(rule, source.spec_bytes(), m@),
{
    match rule {
        MatchName::Route => {
            let method = if m.len() > 1 && m[1].is_some() {
                let g = group_string(source, m, 1, "");
                string_of(&upper_chars(&chars_of(g.as_str())))
            } else {
                "GET".to_owned()
            };
            let path = group_string(source, m, 2, "/");
            concat3(method.as_str(), " ", path.as_str())
        },
        MatchName::Click => {
            let element = group_string(source, m, 1, "Element");
            concat(element.as_str(), ".onClick")
        },
        MatchName::Tap => {
            let widget = group_string(source, m, 1, "Widget");
            let whole = group_string(source, m, 0, "");
            proof {
                reveal_strlit("");
            }
            assert(whole@ == group_text(source.spec_bytes(), m@, 0));
            let event = if contains(&chars_of(whole.as_str()), &chars_of("onTap")) {
                "onTap"
            } else {
                "onPressed"
            };
            concat3(widget.as_str(), ".", event)
        },
    }
}

/// Symbols of every match of `pattern` in `source`.
pub fn symbols_from(pattern: &str, source: &str, relative_path: &str, lang: &str, kind: NodeKind, rule: MatchName) -> (r: Vec<ExtractedSymbol>)
    ensures
        match regex_captures(pattern@, source@) {
            Some(ms) => symbol_views(r@) == matched_symbols(source.spec_bytes(), ms, relative_path@, lang@, kind, rule, ms.len() as int),
            None => r@.len() == 0,
        },
{
    let ms = match captures_all(pattern, source) {
        Some(ms) => ms,
        None => {
            return Vec::new();
        },
    };
    let ghost bytes = source.spec_bytes();
    let ghost sv = spans_view(ms@);
    let mut out: Vec<ExtractedSymbol> = Vec::new();
    let mut i: usize = 0;
    while i < ms.len()
        invariant
            i <= ms.len(),
            bytes == source.spec_bytes(),
            sv == spans_view(ms@),
            spans_ok(sv, bytes),
            symbol_views(out@) == matched_symbols(bytes, sv, relative_path@, lang@, kind, rule, i as int),
        decreases ms.len() - i,
    {
        let m = &ms[i];
        assert(sv[i as int] == m@);
        assert(match_spans_ok(m@, bytes));
        let sym = ExtractedSymbol {
            kind,
            name: name_of_match(rule, source, m),
            parent_file: relative_path.to_owned(),
            line: line_of_match(source, m),
            language_id: lang.to_owned(),
        };
        let ghost before = out@;
        out.push(sym);
        assert(symbol_views(out@) =~= symbols_views_push(before, sym));
        i += 1;
    }
    out
}

pub open spec fn symbols_views_push(v: Seq<ExtractedSymbol>, s: ExtractedSymbol) -> Seq<SymbolView> {
    symbol_views(v).push(symbol_view(s))
}

/// Whether a symbol of `syms` has id `id`.
pub fn symbol_listed(syms: &Vec<ExtractedSymbol>, id: &str) -> (b: bool)
    ensures
        b == listed(symbol_views(syms@), id@),
{
    let mut k: usize = 0;
    while k < syms.len()
        invariant
            k <= syms.len(),
            forall|q: int| 0 <= q < k ==> symbol_id_text(#[trigger] symbol_views(syms@)[q].2, symbol_views(syms@)[q].0, symbol_views(syms@)[q].1, symbol_views(syms@)[q].3) != id@,
        decreases syms.len() - k,
    {
        let s = &syms[k];
        assert(symbol_views(syms@)[k as int] == symbol_view(*s));
        let sid = symbol_id(s.parent_file.as_str(), s.kind, s.name.as_str(), s.line);
        if str_eq(sid.as_str(), id) {
            assert(symbol_id_text(symbol_views(syms@)[k as int].2, symbol_views(syms@)[k as int].0, symbol_views(syms@)[k as int].1, symbol_views(syms@)[k as int].3) == id@);
            return true;
        }
        k += 1;
    }
    false
}

pub fn push_relation(out: &mut Vec<ResolvedEdge>, from: &str, to: &str, kind: EdgeKind, confidence_milli: u16)
    ensures
        edge_views(final(out)@) == edge_views(old(out)@).push((from@, to@, kind, confidence_milli)),
{
    let ghost before = out@;
    out.push(ResolvedEdge { from_id: from.to_owned(), to_id: to.to_owned(), kind, confidence_milli });
    assert(edge_views(out@) =~= edge_views(before).push((from@, to@, kind, confidence_milli)));
}

/// Edges from the symbols of `pattern`'s matches that are among `marks` to
/// the functions of the file that group `group` names.
pub fn handles_from(
    store: &GraphStore,
    pattern: &str,
    relative_path: &str,
    source: &str,
    kind: NodeKind,
    rule: MatchName,
    marks: &Vec<ExtractedSymbol>,
    group: usize,
    edge: EdgeKind,
    confidence: u16,
) -> (r: Vec<ResolvedEdge>)
    ensures
        match regex_captures(pattern@, source@) {
            Some(ms) => edge_views(r@) == handler_group_edges(store.node_rows(), source.spec_bytes(), ms, relative_path@, kind, rule, symbol_views(marks@), group as int, edge, confidence, ms.len() as int),
            None => r@.len() == 0,
        },
{
    let ms = match captures_all(pattern, source) {
        Some(ms) => ms,
        None => {
            return Vec::new();
        },
    };
    let ghost bytes = source.spec_bytes();
    let ghost sv = spans_view(ms@);
    let ghost nodes = store.node_rows();
    let ghost mv = symbol_views(marks@);
    let mut out: Vec<ResolvedEdge> = Vec::new();
    let mut i: usize = 0;
    while i < ms.len()
        invariant
            i <= ms.len(),
            bytes == source.spec_bytes(),
            sv == spans_view(ms@),
            nodes == store.node_rows(),
            mv == symbol_views(marks@),
            spans_ok(sv, bytes),
            edge_views(out@) == handler_group_edges(nodes, bytes, sv, relative_path@, kind, rule, mv, group as int, edge, confidence, i as int),
        decreases ms.len() - i,
    {
        let m = &ms[i];
        assert(sv[i as int] == m@);
        assert(match_spans_ok(m@, bytes));
        let name = name_of_match(rule, source, m);
        let line = line_of_match(source, m);
        let id = symbol_id(relative_path, kind, name.as_str(), line);
        if symbol_listed(marks, id.as_str()) {
            let handler = group_string(source, m, group, "");
            proof {
                reveal_strlit("");
            }
            assert(handler@ == group_text(bytes, sv[i as int], group as int));
            if let Some(h) = store.find_function_symbol_id(relative_path, handler.as_str()) {
                push_relation(&mut out, id.as_str(), h.as_str(), edge, confidence);
            }
        }
        i += 1;
    }
    out
}

/// Dart UI symbols of every tap match of `pattern` in `source`, a repeat of
/// a line and name left out.
pub fn tap_symbols_from(pattern: &str, source: &str, relative_path: &str) -> (r: Vec<ExtractedSymbol>)
    ensures
        match regex_captures(pattern@, source@) {
            Some(ms) => symbol_views(r@) == tap_symbols(source.spec_bytes(), ms, relative_path@, ms.len() as int),
            None => r@.len() == 0,
        },
{
    let ms = match captures_all(pattern, source) {
        Some(ms) => ms,
        None => {
            return Vec::new();
        },
    };
    let ghost bytes = source.spec_bytes();
    let ghost sv = spans_view(ms@);
    let mut out: Vec<ExtractedSymbol> = Vec::new();
    let mut i: usize = 0;
    while i < ms.len()
        invariant
            i <= ms.len(),
            bytes == source.spec_bytes(),
            sv == spans_view(ms@),
            spans_ok(sv, bytes),
            symbol_views(out@) == tap_symbols(bytes, sv, relative_path@, i as int),
        decreases ms.len() - i,
    {
        let m = &ms[i];
        assert(sv[i as int] == m@);
        assert(match_spans_ok(m@, bytes));
        let name = name_of_match(MatchName::Tap, source, m);
        let line = line_of_match(source, m);
        let ghost s = (NodeKind::UiElement, name@, relative_path@, line, "dart"@);
        let ghost r = symbol_views(out@);
        let mut seen = false;
        let mut j: usize = 0;
        while j < out.len()
            invariant
                j <= out.len(),
                r == symbol_views(out@),
                s == (NodeKind::UiElement, name@, relative_path@, line, "dart"@),
                seen ==> exists|k: int| 0 <= k < r.len() && same_mark(#[trigger] r[k], s),
                !seen ==> forall|k: int| 0 <= k < j ==> !same_mark(#[trigger] r[k], s),
            decreases out.len() - j,
        {
            assert(r[j as int] == symbol_view(out@[j as int]));
            if out[j].line == line && str_eq(out[j].name.as_str(), name.as_str()) {
                assert(same_mark(r[j as int], s));
                seen = true;
            }
            j += 1;
        }
        if !seen {
            let sym = ExtractedSymbol {
                kind: NodeKind::UiElement,
                name,
                parent_file: relative_path.to_owned(),
                line,
                language_id: "dart".to_owned(),
            };
            let ghost before = out@;
            out.push(sym);
            assert(symbol_views(out@) =~= symbols_views_push(before, sym));
        }
        i += 1;
    }
    out
}

/// `Triggers` edges of every click match of `pattern` in `source` whose UI
/// symbol is among `marks`.
pub fn click_edges_from(store: &GraphStore, pattern: &str, relative_path: &str, source: &str, marks: &Vec<ExtractedSymbol>) -> (r: Vec<ResolvedEdge>)
    ensures
        match regex_captures(pattern@, source@) {
            Some(ms) => edge_views(r@) == click_edges(store.node_rows(), source.spec_bytes(), ms, relative_path@, symbol_views(marks@), ms.len() as int),
            None => r@.len() == 0,
        },
{
    let ms = match captures_all(pattern, source) {
        Some(ms) => ms,
        None => {
            return Vec::new();
        },
    };
    let ghost bytes = source.spec_bytes();
    let ghost sv = spans_view(ms@);
    let ghost nodes = store.node_rows();
    let ghost mv = symbol_views(marks@);
    let mut out: Vec<ResolvedEdge> = Vec::new();
    let mut i: usize = 0;
    while i < ms.len()
        invariant
            i <= ms.len(),
            bytes == source.spec_bytes(),
            sv == spans_view(ms@),
            nodes == store.node_rows(),
            mv == symbol_views(marks@),
            spans_ok(sv, bytes),
            edge_views(out@) == click_edges(nodes, bytes, sv, relative_path@, mv, i as int),
        decreases ms.len() - i,
    {
        let m = &ms[i];
        assert(sv[i as int] == m@);
        assert(match_spans_ok(m@, bytes));
        let name = name_of_match(MatchName::Click, source, m);
        let line = line_of_match(source, m);
        let id = symbol_id(relative_path, NodeKind::UiElement, name.as_str(), line);
        if symbol_listed(marks, id.as_str()) {
            let handler = group_string(source, m, 2, "");
            proof {
                reveal_strlit("");
            }
            assert(handler@ == group_text(bytes, sv[i as int], 2));
            if let Some(h) = store.find_function_symbol_id(relative_path, handler.as_str()) {
                push_relation(&mut out, id.as_str(), h.as_str(), EdgeKind::Triggers, 880);
                if let Some(c) = store.find_enclosing_function(relative_path, line) {
                    if !str_eq(c.as_str(), h.as_str()) && !str_eq(c.as_str(), id.as_str()) {
                        push_relation(&mut out, c.as_str(), h.as_str(), EdgeKind::Triggers, 860);
                    }
                }
            }
        }
        i += 1;
    }
    out
}

/// Group `g` of the first match of `pattern` in `text`, when there is one
/// and the group took part.
pub open spec fn first_group(pattern: Seq<char>, text: Seq<char>, g: int) -> Option<Seq<char>> {
    match regex_captures(pattern, text) {
        Some(ms) => if ms.len() > 0 && has_group(ms[0], g) {
            Some(group_text(encode_utf8(text), ms[0], g))
        } else {
            None
        },
        None => None,
    }
}

/// `pattern` matches somewhere in `text`.
pub open spec fn matches_in(pattern: Seq<char>, text: Seq<char>) -> bool {
    match regex_captures(pattern, text) {
        Some(ms) => ms.len() > 0,
        None => false,
    }
}

/// Group `g` of the first match of `pattern` in `text`.
pub fn first_group_of(pattern: &str, text: &str, g: usize) -> (r: Option<String>)
    ensures
        opt_text(r) == first_group(pattern@, text@, g as int),
{
    match captures_all(pattern, text) {
        Some(ms) => {
            if ms.len() > 0 && g < ms[0].len() && ms[0][g].is_some() {
                assert(spans_view(ms@)[0] == ms[0]@);
                assert(match_spans_ok(ms[0]@, text.spec_bytes()));
                Some(group_string(text, &ms[0], g, ""))
            } else {
                proof {
                    if ms.len() > 0 {
                        assert(spans_view(ms@)[0] == ms[0]@);
                    }
                }
                None
            }
        },
        None => None,
    }
}

/// Whether `pattern` matches somewhere in `text`.
pub fn matches_somewhere(pattern: &str, text: &str) -> (b: bool)
    ensures
        b == matches_in(pattern@, text@),
{
    match captures_all(pattern, text) {
        Some(ms) => ms.len() > 0,
        None => false,
    }
}

/// A line that a decorator's handler search passes over: blank, or a `#`
/// comment.
pub open spec fn skipped_line(line: Seq<char>) -> bool {
    trim(line).len() == 0 || (trim_start(line).len() > 0 && trim_start(line)[0] == '#')
}

/// From line `from` on, past blank and comment lines, group 1 of
/// `pattern` on the first other line.
pub open spec fn next_definition(pattern: Seq<char>, lines: Seq<Seq<char>>, from: int) -> Option<Seq<char>>
    decreases lines.len() - from,
{
    if from < 0 || from >= lines.len() {
        None
    } else if skipped_line(lines[from]) {
        next_definition(pattern, lines, from + 1)
    } else {
        first_group(pattern, lines[from], 1)
    }
}

/// From line `from` on, group 1 of `pattern` on the first line it matches.
pub open spec fn first_matching(pattern: Seq<char>, lines: Seq<Seq<char>>, from: int) -> Option<Seq<char>>
    decreases lines.len() - from,
{
    if from < 0 || from >= lines.len() {
        None
    } else if matches_in(pattern, lines[from]) {
        first_group(pattern, lines[from], 1)
    } else {
        first_matching(pattern, lines, from + 1)
    }
}

pub fn is_skipped_line(line: &[char]) -> (b: bool)
    ensures
        b == skipped_line(line@),
{
    let t = trim_chars(line);
    if t.len() == 0 {
        true
    } else {
        proof {
            let ts = trim_start(line@);
            crate::text::lemma_trail_ws_bound(ts);
            assert(t@ == ts.take(ts.len() - crate::text::trail_ws(ts)));
            assert(t@[0] == ts[0]);
        }
        t[0] == '#'
    }
}

pub fn next_definition_of(pattern: &str, lines: &Vec<Vec<char>>, from: usize) -> (r: Option<String>)
    ensures
        opt_text(r) == next_definition(pattern@, views(lines@), from as int),
{
    let ghost ls = views(lines@);
    let mut k: usize = from;
    while k < lines.len()
        invariant
            from <= k,
            ls == views(lines@),
            next_definition(pattern@, ls, from as int) == next_definition(pattern@, ls, k as int),
        decreases lines.len() - k,
    {
        assert(ls[k as int] == lines@[k as int]@);
        if is_skipped_line(&lines[k]) {
            k += 1;
        } else {
            let text = string_of(&lines[k]);
            return first_group_of(pattern, text.as_str(), 1);
        }
    }
    None
}

pub fn first_matching_of(pattern: &str, lines: &Vec<Vec<char>>, from: usize) -> (r: Option<String>)
    ensures
        opt_text(r) == first_matching(pattern@, views(lines@), from as int),
{
    let ghost ls = views(lines@);
    let mut k: usize = from;
    while k < lines.len()
        invariant
            from <= k,
            ls == views(lines@),
            first_matching(pattern@, ls, from as int) == first_matching(pattern@, ls, k as int),
        decreases lines.len() - k,
    {
        assert(ls[k as int] == lines@[k as int]@);
        let text = string_of(&lines[k]);
        if matches_somewhere(pattern, text.as_str()) {
            return first_group_of(pattern, text.as_str(), 1);
        }
        k += 1;
    }
    None
}

/// Where a route decorator's handler is looked for.
#[derive(Clone, Copy, Debug)]
pub enum HandlerSearch {
    /// From the line after the decorator, past blank and comment lines, on
    /// the first other line only.
    NextDefinition,
    /// From the line after the decorator, on the first line the handler
    /// pattern matches.
    FirstMatch,
}

/// Newlines before the start of match `m`.
pub open spec fn newlines_before(bytes: Seq<u8>, m: Seq<Option<(usize, usize)>>) -> nat {
    count_byte(bytes.take(crate::pattern::span_start(m[0]->0) as int), 10u8)
}

/// The handler name found for decorator match `m` among `lines`.
pub open spec fn decorated_handler(
    search: HandlerSearch,
    pattern: Seq<char>,
    lines: Seq<Seq<char>>,
    bytes: Seq<u8>,
    m: Seq<Option<(usize, usize)>>,
) -> Option<Seq<char>> {
    match search {
        HandlerSearch::NextDefinition => next_definition(pattern, lines, newlines_before(bytes, m) as int + 1),
        HandlerSearch::FirstMatch => first_matching(pattern, lines, match_line(bytes, m) as int),
    }
}

/// `Handles` edges of the first `n` route decorator matches whose route is
/// among `marks`, to the function of the file that the handler search names.
pub open spec fn decorated_edges(
    nodes: Seq<crate::model::GraphNode>,
    bytes: Seq<u8>,
    lines: Seq<Seq<char>>,
    ms: Seq<Seq<Option<(usize, usize)>>>,
    path: Seq<char>,
    marks: Seq<SymbolView>,
    search: HandlerSearch,
    pattern: Seq<char>,
    confidence: u16,
    n: int,
) -> Seq<EdgeView>
    decreases n,
{
    if n <= 0 {
        Seq::empty()
    } else {
        let rest = decorated_edges(nodes, bytes, lines, ms, path, marks, search, pattern, confidence, n - 1);
        let m = ms[n - 1];
        let id = symbol_id_text(path, NodeKind::Route, route_name(bytes, m), match_line(bytes, m));
        if !listed(marks, id) {
            rest
        } else {
            match decorated_handler(search, pattern, lines, bytes, m) {
                None => rest,
                Some(h) => match fn_id(nodes, path, h) {
                    Some(hid) => rest.push((id, hid, EdgeKind::Handles, confidence)),
                    None => rest,
                },
            }
        }
    }
}

/// `Handles` edges of every match of the decorator pattern in `source`.
pub fn decorated_edges_from(
    store: &GraphStore,
    decorator: &str,
    handler: &str,
    search: HandlerSearch,
    relative_path: &str,
    source: &str,
    marks: &Vec<ExtractedSymbol>,
    confidence: u16,
) -> (r: Vec<ResolvedEdge>)
    ensures
        match regex_captures(decorator@, source@) {
            Some(ms) => edge_views(r@) == decorated_edges(store.node_rows(), source.spec_bytes(), lines_of(source@), ms, relative_path@, symbol_views(marks@), search, handler@, confidence, ms.len() as int),
            None => r@.len() == 0,
        },
{
    let ms = match captures_all(decorator, source) {
        Some(ms) => ms,
        None => {
            return Vec::new();
        },
    };
    let lines = lines_chars(&chars_of(source));
    let ghost bytes = source.spec_bytes();
    let ghost sv = spans_view(ms@);
    let ghost nodes = store.node_rows();
    let ghost mv = symbol_views(marks@);
    let ghost ls = lines_of(source@);
    let mut out: Vec<ResolvedEdge> = Vec::new();
    let mut i: usize = 0;
    while i < ms.len()
        invariant
            i <= ms.len(),
            bytes == source.spec_bytes(),
            sv == spans_view(ms@),
            nodes == store.node_rows(),
            mv == symbol_views(marks@),
            ls == views(lines@),
            spans_ok(sv, bytes),
            edge_views(out@) == decorated_edges(nodes, bytes, ls, sv, relative_path@, mv, search, handler@, confidence, i as int),
        decreases ms.len() - i,
    {
        let m = &ms[i];
        assert(sv[i as int] == m@);
        assert(match_spans_ok(m@, bytes));
        let name = name_of_match(MatchName::Route, source, m);
        let line = line_of_match(source, m);
        let id = symbol_id(relative_path, NodeKind::Route, name.as_str(), line);
        if symbol_listed(marks, id.as_str()) {
            let found = match search {
                HandlerSearch::NextDefinition => {
                    let start = match m[0] {
                        Some((s, _)) => s,
                        None => 0,
                    };
                    let before = crate::pattern::count_newlines(source.as_bytes(), start);
                    if before < usize::MAX {
                        next_definition_of(handler, &lines, before + 1)
                    } else {
                        None
                    }
                },
                HandlerSearch::FirstMatch => first_matching_of(handler, &lines, line as usize),
            };
            proof {
                if search is NextDefinition && newlines_before(bytes, sv[i as int]) + 1 > usize::MAX {
                    assert(next_definition(handler@, ls, newlines_before(bytes, sv[i as int]) as int + 1) is None);
                }
            }
            if let Some(h) = found {
                if let Some(hid) = store.find_function_symbol_id(relative_path, h.as_str()) {
                    push_relation(&mut out, id.as_str(), hid.as_str(), EdgeKind::Handles, confidence);
                }
            }
        }
        i += 1;
    }
    out
}

/// How a cross-layer fetch call names its HTTP method.
#[derive(Clone, Copy, Debug)]
pub enum FetchFlavor {
    /// `fetch(...)` in TypeScript or JavaScript: a `method: '...'` option on
    /// the same line, `GET` without one.
    Browser,
    /// `http.post(Uri.parse(...))` in Dart: the `http.` call on the line.
    Dart,
}

/// Files of this language are searched for fetches of this flavor.
pub open spec fn fetch_language(flavor: FetchFlavor, lang: Seq<char>) -> bool {
    match flavor {
        FetchFlavor::Browser => lang == "typescript"@ || lang == "javascript"@,
        FetchFlavor::Dart => lang == "dart"@,
    }
}

/// Line `k` (from 0) of `lines`, empty past the end.
pub open spec fn nth_line(lines: Seq<Seq<char>>, k: int) -> Seq<char> {
    if 0 <= k < lines.len() {
        lines[k]
    } else {
        Seq::empty()
    }
}

/// The HTTP method of a fetch whose line reads `window`.
pub open spec fn fetch_method(flavor: FetchFlavor, method_pattern: Seq<char>, window: Seq<char>) -> Seq<char> {
    match flavor {
        FetchFlavor::Browser => match first_group(method_pattern, window, 1) {
            Some(t) => upper_text(t),
            None => "GET"@,
        },
        FetchFlavor::Dart => if contains_text(window, "http.post"@) {
            "POST"@
        } else if contains_text(window, "http.get"@) {
            "GET"@
        } else if contains_text(window, "http.put"@) {
            "PUT"@
        } else if contains_text(window, "http.delete"@) {
            "DELETE"@
        } else {
            "PATCH"@
        },
    }
}

/// `Fetches` edges of the first `n` fetch matches in the file at `path`:
/// from the enclosing function (the file when there is none) to the route
/// named by the method and group 1, when some route has that name.
pub open spec fn fetch_edges_in(
    nodes: Seq<crate::model::GraphNode>,
    flavor: FetchFlavor,
    method_pattern: Seq<char>,
    path: Seq<char>,
    source: Seq<char>,
    ms: Seq<Seq<Option<(usize, usize)>>>,
    confidence: u16,
    n: int,
) -> Seq<EdgeView>
    decreases n,
{
    if n <= 0 {
        Seq::empty()
    } else {
        let rest = fetch_edges_in(nodes, flavor, method_pattern, path, source, ms, confidence, n - 1);
        let bytes = encode_utf8(source);
        let m = ms[n - 1];
        let line = match_line(bytes, m);
        let window = nth_line(lines_of(source), if line == 0 { 0 } else { line - 1 });
        let name = fetch_method(flavor, method_pattern, window) + " "@ + group_text(bytes, m, 1);
        match crate::store::first_id_by_line(nodes, crate::store::route_named(name)) {
            None => rest,
            Some(rid) => {
                let caller = match enclosing_id(nodes, path, line) {
                    Some(c) => c,
                    None => node_id_text(path),
                };
                rest.push((caller, rid, EdgeKind::Fetches, confidence))
            },
        }
    }
}

/// `Fetches` edges of the first `n` files, in order.
pub open spec fn fetch_edges(
    nodes: Seq<crate::model::GraphNode>,
    flavor: FetchFlavor,
    fetch_pattern: Seq<char>,
    method_pattern: Seq<char>,
    files: Seq<SourceFile>,
    confidence: u16,
    n: int,
) -> Seq<EdgeView>
    decreases n,
{
    if n <= 0 {
        Seq::empty()
    } else {
        let rest = fetch_edges(nodes, flavor, fetch_pattern, method_pattern, files, confidence, n - 1);
        let f = files[n - 1];
        if !fetch_language(flavor, language_of_path(f.relative_path@)) {
            rest
        } else {
            match regex_captures(fetch_pattern, f.source@) {
                Some(ms) => rest + fetch_edges_in(nodes, flavor, method_pattern, f.relative_path@, f.source@, ms, confidence, ms.len() as int),
                None => rest,
            }
        }
    }
}

fn fetch_method_of(flavor: FetchFlavor, method_pattern: &str, window: &str) -> (r: String)
    ensures
        r@ == fetch_method(flavor, method_pattern@, window@),
{
    match flavor {
        FetchFlavor::Browser => match first_group_of(method_pattern, window, 1) {
            Some(t) => string_of(&upper_chars(&chars_of(t.as_str()))),
            None => "GET".to_owned(),
        },
        FetchFlavor::Dart => {
            let w = chars_of(window);
            if contains(&w, &chars_of("http.post")) {
                "POST".to_owned()
            } else if contains(&w, &chars_of("http.get")) {
                "GET".to_owned()
            } else if contains(&w, &chars_of("http.put")) {
                "PUT".to_owned()
            } else if contains(&w, &chars_of("http.delete")) {
                "DELETE".to_owned()
            } else {
                "PATCH".to_owned()
            }
        },
    }
}

/// A browser fetch's method is the `method:` option of its line in upper
/// case, and `GET` when the line carries no such option.
pub proof fn browser_fetch_method(method_pattern: Seq<char>, window: Seq<char>)
    ensures
        first_group(method_pattern, window, 1) is None ==> fetch_method(FetchFlavor::Browser, method_pattern, window) == "GET"@,
        first_group(method_pattern, window, 1) matches Some(t)
            ==> fetch_method(FetchFlavor::Browser, method_pattern, window) == upper_text(t),
{
}

/// A browser fetch with no `method:` option on its line, whose path names a
/// `GET` route, gives a `Fetches` edge to that route.
pub proof fn browser_fetch_reaches_get_route(
    nodes: Seq<crate::model::GraphNode>,
    method_pattern: Seq<char>,
    path: Seq<char>,
    source: Seq<char>,
    ms: Seq<Seq<Option<(usize, usize)>>>,
    confidence: u16,
    n: int,
    k: int,
)
    requires
        0 <= k < n,
        ({
            let line = match_line(encode_utf8(source), ms[k]);
            first_group(method_pattern, nth_line(lines_of(source), if line == 0 { 0 } else { line - 1 }), 1) is None
        }),
        crate::store::first_id_by_line(nodes, crate::store::route_named("GET "@ + group_text(encode_utf8(source), ms[k], 1))) is Some,
    ensures
        exists|i: int| 0 <= i < fetch_edges_in(nodes, FetchFlavor::Browser, method_pattern, path, source, ms, confidence, n).len()
            && (#[trigger] fetch_edges_in(nodes, FetchFlavor::Browser, method_pattern, path, source, ms, confidence, n)[i]).1
                == crate::store::first_id_by_line(nodes, crate::store::route_named("GET "@ + group_text(encode_utf8(source), ms[k], 1))).unwrap()
            && fetch_edges_in(nodes, FetchFlavor::Browser, method_pattern, path, source, ms, confidence, n)[i].2 == EdgeKind::Fetches,
    decreases n,
{
    let rest = fetch_edges_in(nodes, FetchFlavor::Browser, method_pattern, path, source, ms, confidence, n - 1);
    let all = fetch_edges_in(nodes, FetchFlavor::Browser, method_pattern, path, source, ms, confidence, n);
    let target = crate::store::first_id_by_line(nodes, crate::store::route_named("GET "@ + group_text(encode_utf8(source), ms[k], 1))).unwrap();
    if k == n - 1 {
        reveal_strlit("GET ");
        reveal_strlit("GET");
        reveal_strlit(" ");
        let line = match_line(encode_utf8(source), ms[k]);
        let window = nth_line(lines_of(source), if line == 0 { 0 } else { line - 1 });
        assert(fetch_method(FetchFlavor::Browser, method_pattern, window) + " "@ + group_text(encode_utf8(source), ms[k], 1)
            =~= "GET "@ + group_text(encode_utf8(source), ms[k], 1));
        assert(all[rest.len() as int].1 == target);
    } else {
        browser_fetch_reaches_get_route(nodes, method_pattern, path, source, ms, confidence, n - 1, k);
        let i = choose|i: int| 0 <= i < rest.len() && (#[trigger] rest[i]).1 == target && rest[i].2 == EdgeKind::Fetches;
        assert(all[i] == rest[i]);
    }
}

/// `Fetches` edges of every fetch match in one file.
pub fn fetch_edges_of_file(
    store: &GraphStore,
    flavor: FetchFlavor,
    fetch_pattern: &str,
    method_pattern: &str,
    relative_path: &str,
    source: &str,
    confidence: u16,
) -> (r: Vec<ResolvedEdge>)
    ensures
        match regex_captures(fetch_pattern@, source@) {
            Some(ms) => edge_views(r@) == fetch_edges_in(store.node_rows(), flavor, method_pattern@, relative_path@, source@, ms, confidence, ms.len() as int),
            None => r@.len() == 0,
        },
{
    let ms = match captures_all(fetch_pattern, source) {
        Some(ms) => ms,
        None => {
            return Vec::new();
        },
    };
    let lines = lines_chars(&chars_of(source));
    let ghost bytes = source.spec_bytes();
    let ghost sv = spans_view(ms@);
    let ghost nodes = store.node_rows();
    let ghost ls = lines_of(source@);
    let mut out: Vec<ResolvedEdge> = Vec::new();
    let mut i: usize = 0;
    while i < ms.len()
        invariant
            i <= ms.len(),
            bytes == source.spec_bytes(),
            sv == spans_view(ms@),
            nodes == store.node_rows(),
            ls == views(lines@),
            ls == lines_of(source@),
            spans_ok(sv, bytes),
            edge_views(out@) == fetch_edges_in(nodes, flavor, method_pattern@, relative_path@, source@, sv, confidence, i as int),
        decreases ms.len() - i,
    {
        let m = &ms[i];
        assert(sv[i as int] == m@);
        assert(match_spans_ok(m@, bytes));
        let target = group_string(source, m, 1, "");
        proof {
            reveal_strlit("");
        }
        let line = line_of_match(source, m);
        let k: usize = if line == 0 { 0 } else { (line - 1) as usize };
        let window = if k < lines.len() {
            assert(ls[k as int] == lines@[k as int]@);
            string_of(&lines[k])
        } else {
            String::new()
        };
        assert(target@ == group_text(bytes, sv[i as int], 1));
        assert(window@ == nth_line(ls, if line == 0 { 0 } else { line - 1 }));
        let method = fetch_method_of(flavor, method_pattern, window.as_str());
        let name = concat3(method.as_str(), " ", target.as_str());
        assert(name@ == fetch_method(flavor, method_pattern@, nth_line(ls, if line == 0 { 0 } else { line - 1 })) + " "@ + group_text(bytes, sv[i as int], 1));
        if let Some(rid) = store.find_route_symbol_id(name.as_str()) {
            let caller = match store.find_enclosing_function(relative_path, line) {
                Some(c) => c,
                None => node_id_for_path(relative_path),
            };
            push_relation(&mut out, caller.as_str(), rid.as_str(), EdgeKind::Fetches, confidence);
        }
        i += 1;
    }
    out
}

/// `Fetches` edges of every file of the flavor's languages, in file order.
pub fn cross_layer_fetches(
    store: &GraphStore,
    flavor: FetchFlavor,
    fetch_pattern: &str,
    method_pattern: &str,
    files: &Vec<SourceFile>,
    confidence: u16,
) -> (r: Vec<ResolvedEdge>)
    ensures
        edge_views(r@) == fetch_edges(store.node_rows(), flavor, fetch_pattern@, method_pattern@, files@, confidence, files@.len() as int),
{
    let mut out: Vec<ResolvedEdge> = Vec::new();
    let mut i: usize = 0;
    while i < files.len()
        invariant
            i <= files.len(),
            edge_views(out@) == fetch_edges(store.node_rows(), flavor, fetch_pattern@, method_pattern@, files@, confidence, i as int),
        decreases files.len() - i,
    {
        let f = &files[i];
        let lang = detect_language(f.relative_path.as_str());
        let wanted = match flavor {
            FetchFlavor::Browser => str_eq(lang, "typescript") || str_eq(lang, "javascript"),
            FetchFlavor::Dart => str_eq(lang, "dart"),
        };
        if wanted {
            let mut found = fetch_edges_of_file(store, flavor, fetch_pattern, method_pattern, f.relative_path.as_str(), f.source.as_str(), confidence);
            let ghost before = out@;
            let ghost add = found@;
            out.append(&mut found);
            assert(edge_views(out@) =~= edge_views(before) + edge_views(add));
        }
        i += 1;
    }
    out
}

/// The UI symbols of one file: React click handlers in TypeScript and
/// JavaScript, Flutter tap handlers in Dart.
pub open spec fn file_ui_symbols(f: SourceFile) -> Seq<SymbolView> {
    let lang = language_of_path(f.relative_path@);
    if lang == "typescript"@ || lang == "javascript"@ {
        react::ui_elements(f.relative_path@, f.source@)
    } else if lang == "dart"@ {
        flutter::ui_elements(f.relative_path@, f.source@)
    } else {
        Seq::empty()
    }
}

/// The route symbols of one file: Express in TypeScript and JavaScript,
/// Spring in Java, Gin in Go, FastAPI in Python.
pub open spec fn file_route_symbols(f: SourceFile) -> Seq<SymbolView> {
    let lang = language_of_path(f.relative_path@);
    if lang == "typescript"@ || lang == "javascript"@ {
        express::routes(f.relative_path@, f.source@)
    } else if lang == "java"@ {
        spring::routes(f.relative_path@, f.source@)
    } else if lang == "go"@ {
        gin::routes(f.relative_path@, f.source@)
    } else if lang == "python"@ {
        fastapi::routes(f.relative_path@, f.source@)
    } else {
        Seq::empty()
    }
}

/// The framework edges of one file, against the file's own UI and route
/// symbols.
pub open spec fn file_edges(nodes: Seq<crate::model::GraphNode>, f: SourceFile) -> Seq<EdgeView> {
    let lang = language_of_path(f.relative_path@);
    let p = f.relative_path@;
    let src = f.source@;
    if lang == "java"@ {
        spring::edges(nodes, p, src, file_route_symbols(f))
    } else if lang == "go"@ {
        gin::edges(nodes, p, src, file_route_symbols(f))
    } else if lang == "python"@ {
        fastapi::edges(nodes, p, src, file_route_symbols(f))
    } else if lang == "typescript"@ || lang == "javascript"@ {
        react::edges(nodes, p, src, file_ui_symbols(f)) + express::edges(nodes, p, src, file_route_symbols(f))
    } else if lang == "dart"@ {
        flutter::edges(nodes, p, src, file_ui_symbols(f))
    } else {
        Seq::empty()
    }
}

/// The UI then route symbols of the first `n` files.
pub open spec fn framework_symbols(files: Seq<SourceFile>, n: int) -> Seq<SymbolView>
    decreases n,
{
    if n <= 0 {
        Seq::empty()
    } else {
        framework_symbols(files, n - 1) + file_ui_symbols(files[n - 1]) + file_route_symbols(files[n - 1])
    }
}

/// The framework edges of the first `n` files, in file order.
pub open spec fn framework_file_edges(nodes: Seq<crate::model::GraphNode>, files: Seq<SourceFile>, n: int) -> Seq<EdgeView>
    decreases n,
{
    if n <= 0 {
        Seq::empty()
    } else {
        framework_file_edges(nodes, files, n - 1) + file_edges(nodes, files[n - 1])
    }
}

/// The framework edges of a graph: the per-file edges with later repeats of
/// a relation dropped, then the cross-layer fetches of React and of Flutter.
pub open spec fn framework_edges(nodes: Seq<crate::model::GraphNode>, files: Seq<SourceFile>) -> Seq<EdgeView> {
    let es = framework_file_edges(nodes, files, files.len() as int);
    first_relations(es, es.len() as int) + react::fetches(nodes, files) + flutter::fetches(nodes, files)
}

/// `after` is `before` with the framework symbols of `files` recorded, and
/// `es` are the framework edges of `after`.
pub open spec fn framework_resolved(before: GraphStore, after: GraphStore, files: Seq<SourceFile>, es: Seq<EdgeView>) -> bool {
    &&& exists|syms: Seq<ExtractedSymbol>|
        #![trigger symbol_views(syms)]
        symbol_views(syms) == framework_symbols(files, files.len() as int)
            && crate::ingest::symbols_inserted(before, after, syms)
    &&& es == framework_edges(after.node_rows(), files)
}

/// The UI symbols of one file.
pub fn ui_symbols_of(f: &SourceFile) -> (r: Vec<ExtractedSymbol>)
    ensures
        symbol_views(r@) == file_ui_symbols(*f),
{
    let lang = detect_language(f.relative_path.as_str());
    if str_eq(lang, "typescript") || str_eq(lang, "javascript") {
        react::extract_ui_elements(f.relative_path.as_str(), f.source.as_str())
    } else if str_eq(lang, "dart") {
        flutter::extract_ui_elements(f.relative_path.as_str(), f.source.as_str())
    } else {
        Vec::new()
    }
}

/// The route symbols of one file.
pub fn route_symbols_of(f: &SourceFile) -> (r: Vec<ExtractedSymbol>)
    ensures
        symbol_views(r@) == file_route_symbols(*f),
{
    let lang = detect_language(f.relative_path.as_str());
    let p = f.relative_path.as_str();
    let src = f.source.as_str();
    if str_eq(lang, "typescript") || str_eq(lang, "javascript") {
        express::extract_routes(p, src)
    } else if str_eq(lang, "java") {
        spring::extract_routes(p, src)
    } else if str_eq(lang, "go") {
        gin::extract_routes(p, src)
    } else if str_eq(lang, "python") {
        fastapi::extract_routes(p, src)
    } else {
        Vec::new()
    }
}

fn ok_edges(r: Result<Vec<ResolvedEdge>, IndexError>) -> (v: Vec<ResolvedEdge>)
    requires
        r is Ok,
    ensures
        v == r->Ok_0,
{
    match r {
        Ok(v) => v,
        Err(_) => Vec::new(),
    }
}

/// The framework edges of one file.
pub fn edges_of_file(store: &GraphStore, f: &SourceFile) -> (r: Vec<ResolvedEdge>)
    ensures
        edge_views(r@) == file_edges(store.node_rows(), *f),
{
    let lang = detect_language(f.relative_path.as_str());
    let p = f.relative_path.as_str();
    let src = f.source.as_str();
    if str_eq(lang, "java") {
        let routes = route_symbols_of(f);
        ok_edges(spring::resolve_edges(store, p, src, &routes))
    } else if str_eq(lang, "go") {
        let routes = route_symbols_of(f);
        ok_edges(gin::resolve_edges(store, p, src, &routes))
    } else if str_eq(lang, "python") {
        let routes = route_symbols_of(f);
        ok_edges(fastapi::resolve_edges(store, p, src, &routes))
    } else if str_eq(lang, "typescript") || str_eq(lang, "javascript") {
        let ui = ui_symbols_of(f);
        let routes = route_symbols_of(f);
        let mut a = ok_edges(react::resolve_edges(store, p, src, &ui));
        let mut b = ok_edges(express::resolve_edges(store, p, src, &routes));
        let ghost av = a@;
        let ghost bv = b@;
        a.append(&mut b);
        assert(edge_views(a@) =~= edge_views(av) + edge_views(bv));
        a
    } else if str_eq(lang, "dart") {
        let ui = ui_symbols_of(f);
        ok_edges(flutter::resolve_edges(store, p, src, &ui))
    } else {
        Vec::new()
    }
}

/// Records the framework symbols of every file (UI elements, then routes,
/// file by file) and gives the framework edges of the graph that results.
/// Every lookup the edges make reads function and route nodes, which the
/// recorded UI and route symbols never replace: a file's edges are the same
/// whether its successors' symbols are recorded yet or not.
pub fn resolve_framework(store: &mut GraphStore, files: &Vec<SourceFile>) -> (r: Result<Vec<ResolvedEdge>, IndexError>)
    requires
        old(store).wf(),
    ensures
        final(store).wf(),
        match r {
            Ok(v) => framework_resolved(*old(store), *final(store), files@, edge_views(v@)),
            Err(_) => false,
        },
{
    let mut syms: Vec<ExtractedSymbol> = Vec::new();
    let mut i: usize = 0;
    while i < files.len()
        invariant
            i <= files.len(),
            symbol_views(syms@) == framework_symbols(files@, i as int),
        decreases files.len() - i,
    {
        let mut ui = ui_symbols_of(&files[i]);
        let mut routes = route_symbols_of(&files[i]);
        let ghost s0 = syms@;
        let ghost u = ui@;
        let ghost rt = routes@;
        syms.append(&mut ui);
        syms.append(&mut routes);
        assert(symbol_views(syms@) =~= symbol_views(s0) + symbol_views(u) + symbol_views(rt));
        i += 1;
    }
    store.insert_symbols(&syms);
    let mut per_file: Vec<ResolvedEdge> = Vec::new();
    let mut j: usize = 0;
    while j < files.len()
        invariant
            j <= files.len(),
            edge_views(per_file@) == framework_file_edges(store.node_rows(), files@, j as int),
        decreases files.len() - j,
    {
        let mut fe = edges_of_file(store, &files[j]);
        let ghost p0 = per_file@;
        let ghost add = fe@;
        per_file.append(&mut fe);
        assert(edge_views(per_file@) =~= edge_views(p0) + edge_views(add));
        j += 1;
    }
    let mut out = dedup_relations(&per_file);
    let mut web = ok_edges(react::resolve_cross_layer_fetches(store, files));
    let mut dart = ok_edges(flutter::resolve_cross_layer_fetches(store, files));
    let ghost o0 = out@;
    let ghost w0 = web@;
    let ghost d0 = dart@;
    out.append(&mut web);
    out.append(&mut dart);
    assert(edge_views(out@) =~= edge_views(o0) + edge_views(w0) + edge_views(d0));
    Ok(out)
}

} // verus!
