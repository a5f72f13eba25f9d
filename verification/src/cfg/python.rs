//! Branches of Python code: each `if` and `try` statement becomes a branch
//! symbol, with `BRANCHES_TO` edges from its function and to the functions
//! it calls.
use vstd::prelude::*;
use vstd::string::StringSliceAdditionalSpecFns;
use vstd::utf8::{encode_utf8, decode_utf8, is_char_boundary};
use crate::model::{EdgeKind, ExtractedSymbol, NodeKind, ResolvedEdge, symbol_id, symbol_id_text};
use crate::syntax::{Grammar, SyntaxTree, parse_tree, source_span, parses, parsed};
use crate::model::IndexError;
use crate::resolve::{field_child, field_child_exec, EdgeView, edge_views, fn_id};
use crate::store::{GraphStore, opt_text};
use crate::extract::{SymbolView, symbol_views};
use crate::text::{sort_dedup_texts, text_sorted, same_texts, sorted_distinct, texts, lemma_sorted_unique, insert_sorted, trim, replace_char, decimal, text_order, chars_of, trim_chars, replace_char_chars, string_of, concat,
    concat3, decimal_string, str_eq, compare_chars};

verus! {

/// Node `j` is node `b` or lies below it.
pub open spec fn descends(t: SyntaxTree, j: int, b: int) -> bool
    decreases j,
{
    if j == b {
        true
    } else if !(0 <= j < t.nodes@.len()) {
        false
    } else {
        match t.nodes@[j].parent {
            Some(p) => p < j && descends(t, p as int, b),
            None => false,
        }
    }
}

/// Node `j` is a branch: an `if` or a `try` statement.
pub open spec fn is_branch(t: SyntaxTree, j: int) -> bool {
    &&& t.nodes@[j].named
    &&& (t.nodes@[j].kind@ == "if_statement"@ || t.nodes@[j].kind@ == "try_statement"@)
}

/// The line of node `j`, from 1.
pub open spec fn node_line(t: SyntaxTree, j: int) -> u32 {
    (t.nodes@[j].start_row + 1) as u32
}

/// The condition of an `if` node as its label shows it: trimmed, line
/// breaks turned into spaces.
pub open spec fn condition_label(t: SyntaxTree, bytes: Seq<u8>, j: int) -> Option<Seq<char>> {
    match field_child(t, j, "condition"@) {
        Some(c) => Some(replace_char(trim(t.text(bytes, c)), '\n', ' ')),
        None => None,
    }
}

/// The label of branch `j` on line `line`: `if <condition>` (cut to 45
/// bytes and `…` past 48), `if @ line N` without a condition,
/// `try @ line N`.
pub open spec fn branch_label_text(t: SyntaxTree, bytes: Seq<u8>, j: int, line: u32) -> Seq<char> {
    if t.nodes@[j].kind@ == "if_statement"@ {
        match condition_label(t, bytes, j) {
            Some(c) => if encode_utf8(c).len() <= 48 {
                "if "@ + c
            } else {
                "if "@ + decode_utf8(encode_utf8(c).take(45)) + "…"@
            },
            None => "if @ line "@ + decimal(line as nat),
        }
    } else if t.nodes@[j].kind@ == "try_statement"@ {
        "try @ line "@ + decimal(line as nat)
    } else {
        "branch @ line "@ + decimal(line as nat)
    }
}

/// A long condition of branch `j` can be cut at byte 45: that byte starts a
/// character.
pub open spec fn label_cuttable(t: SyntaxTree, bytes: Seq<u8>, j: int) -> bool {
    t.nodes@[j].kind@ == "if_statement"@ ==> match condition_label(t, bytes, j) {
        Some(c) => encode_utf8(c).len() <= 48 || is_char_boundary(encode_utf8(c), 45),
        None => true,
    }
}

/// Every branch label of the tree can be cut where it is long.
pub open spec fn labels_cuttable(t: SyntaxTree, bytes: Seq<u8>) -> bool {
    forall|j: int| 0 <= j < t.nodes@.len() && #[trigger] is_branch(t, j) ==> label_cuttable(t, bytes, j)
}

/// The name of the function that node `j` sits in: the nearest enclosing
/// `function_definition` that has a name.
pub open spec fn enclosing_def_name(t: SyntaxTree, bytes: Seq<u8>, j: int) -> Option<Seq<char>>
    decreases j,
{
    if !(0 <= j < t.nodes@.len()) {
        None
    } else {
        match t.nodes@[j].parent {
            None => None,
            Some(p) => if !(p < j) {
                None
            } else if t.nodes@[p as int].kind@ == "function_definition"@ && field_child(t, p as int, "name"@) is Some {
                Some(t.text(bytes, field_child(t, p as int, "name"@)->0))
            } else {
                enclosing_def_name(t, bytes, p as int)
            },
        }
    }
}

/// The function a `call` node `j` calls by a plain identifier.
pub open spec fn called_name(t: SyntaxTree, bytes: Seq<u8>, j: int) -> Option<Seq<char>> {
    if t.nodes@[j].kind@ == "call"@ {
        match field_child(t, j, "function"@) {
            Some(f) => if t.nodes@[f].kind@ == "identifier"@ {
                Some(t.text(bytes, f))
            } else {
                None
            },
            None => None,
        }
    } else {
        None
    }
}

/// The names called among the first `n` nodes that lie in the subtree of `b`,
/// in document order.
pub open spec fn calls_under(t: SyntaxTree, bytes: Seq<u8>, b: int, n: int) -> Seq<Seq<char>>
    decreases n,
{
    if n <= 0 {
        Seq::empty()
    } else {
        let rest = calls_under(t, bytes, b, n - 1);
        if descends(t, n - 1, b) {
            match called_name(t, bytes, n - 1) {
                Some(c) => rest.push(c),
                None => rest,
            }
        } else {
            rest
        }
    }
}

/// Whether node `j` is node `b` or lies below it.
fn descends_exec(t: &SyntaxTree, j: usize, b: usize) -> (r: bool)
    ensures
        r == descends(*t, j as int, b as int),
{
    let mut cur: usize = j;
    while cur != b
        invariant
            descends(*t, j as int, b as int) == descends(*t, cur as int, b as int),
        decreases cur,
    {
        if cur >= t.nodes.len() {
            return false;
        }
        match t.nodes[cur].parent {
            Some(p) => {
                if p >= cur {
                    return false;
                }
                cur = p;
            },
            None => {
                return false;
            },
        }
    }
    true
}

/// The text of node `j`.
fn node_text(t: &SyntaxTree, source: &str, j: usize) -> (r: String)
    requires
        t.wf(source.spec_bytes()),
        j < t.nodes@.len(),
    ensures
        r@ == t.text(source.spec_bytes(), j as int),
{
    let n = &t.nodes[j];
    source_span(source, n.start_byte, n.end_byte)
}

/// The function a `call` node calls by a plain identifier.
fn called_name_of(t: &SyntaxTree, source: &str, j: usize) -> (r: Option<String>)
    requires
        t.wf(source.spec_bytes()),
        j < t.nodes@.len(),
    ensures
        opt_text(r) == called_name(*t, source.spec_bytes(), j as int),
{
    if !str_eq(t.nodes[j].kind.as_str(), "call") {
        return None;
    }
    match field_child_exec(t, j, "function") {
        Some(f) => {
            if str_eq(t.nodes[f].kind.as_str(), "identifier") {
                Some(node_text(t, source, f))
            } else {
                None
            }
        },
        None => None,
    }
}

/// Appends the names called in the subtree of `b`, in document order.
pub fn collect_calls(t: &SyntaxTree, source: &str, b: usize, out: &mut Vec<String>)
    requires
        t.wf(source.spec_bytes()),
    ensures
        texts(final(out)@) == texts(old(out)@) + calls_under(*t, source.spec_bytes(), b as int, t.nodes@.len() as int),
{
    let ghost o0 = texts(out@);
    let ghost bytes = source.spec_bytes();
    let mut j: usize = 0;
    while j < t.nodes.len()
        invariant
            j <= t.nodes@.len(),
            t.wf(bytes),
            bytes == source.spec_bytes(),
            texts(out@) == o0 + calls_under(*t, bytes, b as int, j as int),
        decreases t.nodes.len() - j,
    {
        if descends_exec(t, j, b) {
            if let Some(c) = called_name_of(t, source, j) {
                let ghost before = out@;
                out.push(c);
                assert(texts(out@) =~= texts(before).push(c@));
            }
        }
        j += 1;
    }
}

/// The names called in the subtree of `b`, sorted, each once.
pub fn callees_in_subtree(t: &SyntaxTree, source: &str, b: usize) -> (r: Vec<String>)
    requires
        t.wf(source.spec_bytes()),
    ensures
        texts(r@) == sorted_distinct(calls_under(*t, source.spec_bytes(), b as int, t.nodes@.len() as int)),
{
    let mut calls: Vec<String> = Vec::new();
    collect_calls(t, source, b, &mut calls);
    assert(texts(calls@) =~= calls_under(*t, source.spec_bytes(), b as int, t.nodes@.len() as int));
    sort_dedup_texts(&calls)
}

/// The name of the function that node `j` sits in.
pub fn enclosing_function_name(t: &SyntaxTree, source: &str, j: usize) -> (r: Option<String>)
    requires
        t.wf(source.spec_bytes()),
    ensures
        opt_text(r) == enclosing_def_name(*t, source.spec_bytes(), j as int),
{
    let mut cur: usize = j;
    while cur < t.nodes.len()
        invariant
            t.wf(source.spec_bytes()),
            enclosing_def_name(*t, source.spec_bytes(), j as int) == enclosing_def_name(*t, source.spec_bytes(), cur as int),
        decreases cur,
    {
        let p = match t.nodes[cur].parent {
            Some(p) => p,
            None => {
                return None;
            },
        };
        if p >= cur {
            return None;
        }
        if str_eq(t.nodes[p].kind.as_str(), "function_definition") {
            if let Some(nm) = field_child_exec(t, p, "name") {
                return Some(node_text(t, source, nm));
            }
        }
        cur = p;
    }
    None
}

/// The label of branch `j` on line `line`.
pub fn branch_label(t: &SyntaxTree, source: &str, j: usize, line: u32) -> (r: String)
    requires
        t.wf(source.spec_bytes()),
        j < t.nodes@.len(),
        label_cuttable(*t, source.spec_bytes(), j as int),
    ensures
        r@ == branch_label_text(*t, source.spec_bytes(), j as int, line),
{
    let digits = decimal_string(line as u64);
    if str_eq(t.nodes[j].kind.as_str(), "if_statement") {
        match field_child_exec(t, j, "condition") {
            Some(c) => {
                let text = node_text(t, source, c);
                let cleaned = replace_char_chars(&trim_chars(&chars_of(text.as_str())), '\n', ' ');
                let ts = string_of(&cleaned);
                assert(condition_label(*t, source.spec_bytes(), j as int) == Some(ts@));
                if ts.as_str().as_bytes().len() <= 48 {
                    let r = concat("if ", ts.as_str());
                    assert(encode_utf8(ts@).len() <= 48);
                    assert(r@ == branch_label_text(*t, source.spec_bytes(), j as int, line));
                    r
                } else {
                    proof {
                        vstd::utf8::encode_utf8_valid_utf8(ts@);
                        vstd::utf8::is_char_boundary_start_end_of_seq(encode_utf8(ts@));
                    }
                    let head = source_span(ts.as_str(), 0, 45);
                    assert(encode_utf8(ts@).take(45) =~= encode_utf8(ts@).subrange(0, 45));
                    let r = concat3("if ", head.as_str(), "…");
                    assert(r@ == branch_label_text(*t, source.spec_bytes(), j as int, line));
                    r
                }
            },
            None => concat("if @ line ", digits.as_str()),
        }
    } else if str_eq(t.nodes[j].kind.as_str(), "try_statement") {
        concat("try @ line ", digits.as_str())
    } else {
        concat("branch @ line ", digits.as_str())
    }
}

/// The branch symbol of node `j`.
pub open spec fn branch_symbol(t: SyntaxTree, bytes: Seq<u8>, path: Seq<char>, j: int) -> SymbolView {
    (NodeKind::Branch, branch_label_text(t, bytes, j, node_line(t, j)), path, node_line(t, j), "python"@)
}

/// The branch symbols among the first `n` nodes, in document order.
pub open spec fn branch_symbols(t: SyntaxTree, bytes: Seq<u8>, path: Seq<char>, n: int) -> Seq<SymbolView>
    decreases n,
{
    if n <= 0 {
        Seq::empty()
    } else if is_branch(t, n - 1) {
        branch_symbols(t, bytes, path, n - 1).push(branch_symbol(t, bytes, path, n - 1))
    } else {
        branch_symbols(t, bytes, path, n - 1)
    }
}

/// Edges from branch `bid` to the functions of the file named by the first
/// `n` callees.
pub open spec fn callee_edges(nodes: Seq<crate::model::GraphNode>, path: Seq<char>, bid: Seq<char>, callees: Seq<Seq<char>>, n: int) -> Seq<EdgeView>
    decreases n,
{
    if n <= 0 {
        Seq::empty()
    } else {
        let rest = callee_edges(nodes, path, bid, callees, n - 1);
        match fn_id(nodes, path, callees[n - 1]) {
            Some(tid) => rest.push((bid, tid, EdgeKind::BranchesTo, 870u16)),
            None => rest,
        }
    }
}

/// The edges of branch `j`: from its function, then to each function it
/// calls, in name order.
pub open spec fn one_branch_edges(nodes: Seq<crate::model::GraphNode>, t: SyntaxTree, bytes: Seq<u8>, path: Seq<char>, j: int) -> Seq<EdgeView> {
    let line = node_line(t, j);
    let bid = symbol_id_text(path, NodeKind::Branch, branch_label_text(t, bytes, j, line), line);
    let from_fn = match enclosing_def_name(t, bytes, j) {
        Some(f) => match fn_id(nodes, path, f) {
            Some(pid) => seq![(pid, bid, EdgeKind::BranchesTo, 900u16)],
            None => Seq::empty(),
        },
        None => Seq::empty(),
    };
    let cs = sorted_distinct(calls_under(t, bytes, j, t.nodes@.len() as int));
    from_fn + callee_edges(nodes, path, bid, cs, cs.len() as int)
}

/// The edges of the branches among the first `n` nodes.
pub open spec fn branch_edges(nodes: Seq<crate::model::GraphNode>, t: SyntaxTree, bytes: Seq<u8>, path: Seq<char>, n: int) -> Seq<EdgeView>
    decreases n,
{
    if n <= 0 {
        Seq::empty()
    } else if is_branch(t, n - 1) {
        branch_edges(nodes, t, bytes, path, n - 1) + one_branch_edges(nodes, t, bytes, path, n - 1)
    } else {
        branch_edges(nodes, t, bytes, path, n - 1)
    }
}

/// The branch symbols and edges of a parsed Python file.
pub fn branches_of_tree(store: &GraphStore, t: &SyntaxTree, relative_path: &str, source: &str) -> (r: (Vec<ExtractedSymbol>, Vec<ResolvedEdge>))
    requires
        t.wf(source.spec_bytes()),
        labels_cuttable(*t, source.spec_bytes()),
    ensures
        symbol_views(r.0@) == branch_symbols(*t, source.spec_bytes(), relative_path@, t.nodes@.len() as int),
        edge_views(r.1@) == branch_edges(store.node_rows(), *t, source.spec_bytes(), relative_path@, t.nodes@.len() as int),
{
    let ghost bytes = source.spec_bytes();
    let ghost nodes = store.node_rows();
    let mut branches: Vec<ExtractedSymbol> = Vec::new();
    let mut edges: Vec<ResolvedEdge> = Vec::new();
    let mut j: usize = 0;
    while j < t.nodes.len()
        invariant
            j <= t.nodes@.len(),
            bytes == source.spec_bytes(),
            nodes == store.node_rows(),
            t.wf(bytes),
            labels_cuttable(*t, bytes),
            symbol_views(branches@) == branch_symbols(*t, bytes, relative_path@, j as int),
            edge_views(edges@) == branch_edges(nodes, *t, bytes, relative_path@, j as int),
        decreases t.nodes.len() - j,
    {
        let n = &t.nodes[j];
        if n.named && (str_eq(n.kind.as_str(), "if_statement") || str_eq(n.kind.as_str(), "try_statement")) {
            assert(is_branch(*t, j as int));
            let line = n.start_row + 1;
            let name = branch_label(t, source, j, line);
            let sym = ExtractedSymbol {
                kind: NodeKind::Branch,
                name: name.clone(),
                parent_file: relative_path.to_owned(),
                line,
                language_id: "python".to_owned(),
            };
            let ghost b0 = branches@;
            branches.push(sym);
            assert(symbol_views(branches@) =~= symbol_views(b0).push(branch_symbol(*t, bytes, relative_path@, j as int)));
            let bid = symbol_id(relative_path, NodeKind::Branch, name.as_str(), line);
            let ghost e0 = edge_views(edges@);
            if let Some(f) = enclosing_function_name(t, source, j) {
                if let Some(pid) = store.find_function_symbol_id(relative_path, f.as_str()) {
                    crate::framework::push_relation(&mut edges, pid.as_str(), bid.as_str(), EdgeKind::BranchesTo, 900);
                }
            }
            let ghost e1 = edge_views(edges@);
            let callees = callees_in_subtree(t, source, j);
            let ghost cs = texts(callees@);
            let mut k: usize = 0;
            while k < callees.len()
                invariant
                    k <= callees.len(),
                    cs == texts(callees@),
                    nodes == store.node_rows(),
                    edge_views(edges@) == e1 + callee_edges(nodes, relative_path@, bid@, cs, k as int),
                decreases callees.len() - k,
            {
                assert(cs[k as int] == callees@[k as int]@);
                if let Some(tid) = store.find_function_symbol_id(relative_path, callees[k].as_str()) {
                    crate::framework::push_relation(&mut edges, bid.as_str(), tid.as_str(), EdgeKind::BranchesTo, 870);
                }
                k += 1;
            }
            proof {
                let from_fn = e1.subrange(e0.len() as int, e1.len() as int);
                assert(e1 =~= e0 + from_fn);
                assert(edge_views(edges@) =~= e0 + (from_fn + callee_edges(nodes, relative_path@, bid@, cs, cs.len() as int)));
            }
        }
        j += 1;
    }
    (branches, edges)
}

/// Whether every long branch condition can be cut at byte 45.
pub fn labels_cuttable_exec(t: &SyntaxTree, source: &str) -> (b: bool)
    requires
        t.wf(source.spec_bytes()),
    ensures
        b == labels_cuttable(*t, source.spec_bytes()),
{
    let mut j: usize = 0;
    while j < t.nodes.len()
        invariant
            j <= t.nodes@.len(),
            t.wf(source.spec_bytes()),
            forall|q: int| 0 <= q < j && #[trigger] is_branch(*t, q) ==> label_cuttable(*t, source.spec_bytes(), q),
        decreases t.nodes.len() - j,
    {
        if t.nodes[j].named && str_eq(t.nodes[j].kind.as_str(), "if_statement") {
            if let Some(c) = field_child_exec(t, j, "condition") {
                let text = node_text(t, source, c);
                let cleaned = replace_char_chars(&trim_chars(&chars_of(text.as_str())), '\n', ' ');
                let ts = string_of(&cleaned);
                if ts.as_str().as_bytes().len() > 48 && !ts.as_str().is_char_boundary(45) {
                    assert(is_branch(*t, j as int));
                    return false;
                }
            }
        }
        j += 1;
    }
    true
}

/// The branch symbols and edges of a Python file, from the tree tree-sitter
/// gives in the Python grammar; nothing is found when it gives none. A tree
/// with a long `if` condition that cannot be cut at byte 45 is an error.
pub fn extract_branches(store: &GraphStore, relative_path: &str, source: &str) -> (r: Result<(Vec<ExtractedSymbol>, Vec<ResolvedEdge>), IndexError>)
    ensures
        match r {
            Ok((b, e)) => if parses(Grammar::Python, source@) {
                exists|t: SyntaxTree|
                    #[trigger] parsed(Grammar::Python, source@, t) && labels_cuttable(t, source.spec_bytes())
                        && symbol_views(b@) == branch_symbols(t, source.spec_bytes(), relative_path@, t.nodes@.len() as int)
                        && edge_views(e@) == branch_edges(store.node_rows(), t, source.spec_bytes(), relative_path@, t.nodes@.len() as int)
            } else {
                b@.len() == 0 && e@.len() == 0
            },
            Err(e) => e is Parse && exists|t: SyntaxTree| #[trigger] parsed(Grammar::Python, source@, t) && !labels_cuttable(t, source.spec_bytes()),
        },
{
    match parse_tree(Grammar::Python, source) {
        None => Ok((Vec::new(), Vec::new())),
        Some(t) => {
            assert(parsed(Grammar::Python, source@, t));
            if labels_cuttable_exec(&t, source) {
                Ok(branches_of_tree(store, &t, relative_path, source))
            } else {
                Err(IndexError::Parse("an if condition cannot be cut at byte 45".to_owned()))
            }
        },
    }
}

} // verus!
