//! Symbols (functions, classes, imports) of one source file, from its syntax
//! tree by the grammar's name patterns.
use vstd::prelude::*;
use vstd::string::StringSliceAdditionalSpecFns;
use crate::model::{Dup, ExtractedSymbol, NodeKind, node_kind_name_round_trip};
use crate::order::{KeyPart, KeyView, key_view, key_views, key_order, sort_by_keys, stably_sorted, lemma_key_order,
    lemma_key_order_zero, lemma_stably_sorted_elements, lemma_stably_sorted_order, compare_keys};
use crate::syntax::{Grammar, SyntaxTree, SyntaxNode, parse_tree, source_span, parses, parsed};
use crate::text::{chars_of, str_eq, trim, trim_str, count_byte};
use crate::pattern::{CaptureSpans, captures_all, regex_captures, spans_view, spans_ok, span_start, span_end, group_text, line_at, count_newlines, match_spans_ok};

verus! {

/// How a grammar names a definition: an `item` node whose `name_field` child
/// of kind `name_kind` holds the name, either directly or inside an `inner`
/// child (under `outer_field` when one is given).
pub struct NamePattern {
    pub item: &'static str,
    pub outer_field: Option<&'static str>,
    pub inner: Option<&'static str>,
    pub name_field: &'static str,
    pub name_kind: &'static str,
}

/// The language id, grammar, name patterns and import rule of a language.
pub struct LangSpec {
    pub language_id: &'static str,
    pub grammar: Grammar,
    pub patterns: Vec<NamePattern>,
    /// Python: every import statement is a symbol too.
    pub imports: bool,
}

/// A symbol as plain values: kind, name, file, line, language.
pub type SymbolView = (NodeKind, Seq<char>, Seq<char>, u32, Seq<char>);

pub open spec fn symbol_view(s: ExtractedSymbol) -> SymbolView {
    (s.kind, s.name@, s.parent_file@, s.line, s.language_id@)
}

pub open spec fn opt_field(f: Option<&'static str>) -> Option<Seq<char>> {
    match f {
        Some(s) => Some(s@),
        None => None,
    }
}

/// Kind of the symbol a definition node of this kind declares.
pub open spec fn classify_kind(kind: Seq<char>) -> NodeKind {
    if kind == "class_definition"@ || kind == "class_declaration"@ || kind == "struct_item"@ || kind
        == "enum_item"@ || kind == "type_declaration"@ || kind == "class"@ || kind == "module"@ {
        NodeKind::Class
    } else {
        NodeKind::Function
    }
}

/// The definition node named by name node `j` under pattern `p`, if `j` is one.
pub open spec fn match_item(t: SyntaxTree, p: NamePattern, j: int) -> Option<int> {
    if !(0 <= j < t.nodes@.len()) {
        None
    } else {
        match t.nodes@[j].parent {
            None => None,
            Some(k) => match p.inner {
                None => if t.is_child(k as int, j, Some(p.name_field@), p.name_kind@) && t.nodes@[k as int].named
                    && t.nodes@[k as int].kind@ == p.item@ {
                    Some(k as int)
                } else {
                    None
                },
                Some(inner) => match t.nodes@[k as int].parent {
                    None => None,
                    Some(i) => if t.is_child(k as int, j, Some(p.name_field@), p.name_kind@) && t.is_child(
                        i as int,
                        k as int,
                        opt_field(p.outer_field),
                        inner@,
                    ) && t.nodes@[i as int].named && t.nodes@[i as int].kind@ == p.item@ {
                        Some(i as int)
                    } else {
                        None
                    },
                },
            },
        }
    }
}

/// The symbol of a match: the definition's kind, the trimmed name, and the
/// name's line.
pub open spec fn match_symbol(t: SyntaxTree, bytes: Seq<u8>, p: NamePattern, j: int, path: Seq<char>, lang: Seq<char>) -> SymbolView {
    let i = match_item(t, p, j)->0;
    (classify_kind(t.nodes@[i].kind@), trim(t.text(bytes, j)), path, (t.nodes@[j].start_row + 1) as u32, lang)
}

/// Some match of the patterns has a blank name (which voids the whole extraction).
pub open spec fn has_blank_name(t: SyntaxTree, bytes: Seq<u8>, pats: Seq<NamePattern>) -> bool {
    exists|q: int, j: int| 0 <= q < pats.len() && #[trigger] match_item(t, pats[q], j) is Some && trim(t.text(bytes, j)).len() == 0
}

/// Node `i` is a Python import statement.
pub open spec fn is_import_node(t: SyntaxTree, i: int) -> bool {
    0 <= i < t.nodes@.len() && t.nodes@[i].named && (t.nodes@[i].kind@ == "import_statement"@ || t.nodes@[i].kind@
        == "import_from_statement"@)
}

pub open spec fn import_symbol(t: SyntaxTree, bytes: Seq<u8>, i: int, path: Seq<char>, lang: Seq<char>) -> SymbolView {
    (NodeKind::Import, trim(t.text(bytes, i)), path, (t.nodes@[i].start_row + 1) as u32, lang)
}

/// `v` is a symbol the tree declares: the symbol of a pattern match, or of a
/// non-blank import statement when imports count.
pub open spec fn declares(
    t: SyntaxTree,
    bytes: Seq<u8>,
    pats: Seq<NamePattern>,
    imports: bool,
    path: Seq<char>,
    lang: Seq<char>,
    v: SymbolView,
) -> bool {
    ||| exists|q: int, j: int|
        0 <= q < pats.len() && #[trigger] match_item(t, pats[q], j) is Some && match_symbol(t, bytes, pats[q], j, path, lang) == v
    ||| imports && exists|i: int|
        #[trigger] is_import_node(t, i) && trim(t.text(bytes, i)).len() > 0 && import_symbol(t, bytes, i, path, lang) == v
}

/// Order of symbols: file, line, name, kind name.
pub open spec fn symbol_key(v: SymbolView) -> Seq<KeyView> {
    seq![KeyView::Text(v.2), KeyView::Num(v.3 as nat), KeyView::Text(v.1), KeyView::Text(v.0.name_text())]
}

/// `r` lists the declared symbols once each, in strictly increasing order;
/// nothing at all when a match has a blank name.
pub open spec fn symbols_of_tree(
    t: SyntaxTree,
    bytes: Seq<u8>,
    pats: Seq<NamePattern>,
    imports: bool,
    path: Seq<char>,
    lang: Seq<char>,
    r: Seq<ExtractedSymbol>,
) -> bool {
    if has_blank_name(t, bytes, pats) {
        r.len() == 0
    } else {
        &&& forall|k: int| 0 <= k < r.len() ==> declares(t, bytes, pats, imports, path, lang, #[trigger] symbol_view(r[k]))
        &&& forall|v: SymbolView| declares(t, bytes, pats, imports, path, lang, v) ==> exists|k: int|
            0 <= k < r.len() && #[trigger] symbol_view(r[k]) == v
        &&& forall|k: int, l: int| 0 <= k < l < r.len() ==> key_order(symbol_key(symbol_view(#[trigger] r[k])), symbol_key(symbol_view(#[trigger] r[l]))) < 0
    }
}


/// Kind of the symbol a definition node of kind `kind` declares.
pub fn classify_symbol(kind: &str) -> (r: NodeKind)
    ensures
        r == classify_kind(kind@),
{
    if str_eq(kind, "class_definition") || str_eq(kind, "class_declaration") || str_eq(kind, "struct_item")
        || str_eq(kind, "enum_item") || str_eq(kind, "type_declaration") || str_eq(kind, "class")
        || str_eq(kind, "module") {
        NodeKind::Class
    } else {
        NodeKind::Function
    }
}

fn field_is(n: &SyntaxNode, field: Option<&'static str>) -> (r: bool)
    ensures
        r == match opt_field(field) {
            Some(f) => match n.field {
                Some(g) => g@ == f,
                None => false,
            },
            None => true,
        },
{
    match field {
        None => true,
        Some(f) => match &n.field {
            Some(g) => str_eq(g.as_str(), f),
            None => false,
        },
    }
}

/// The definition node that name node `j` names under `p`.
fn match_at(t: &SyntaxTree, p: &NamePattern, j: usize) -> (r: Option<usize>)
    requires
        j < t.nodes@.len(),
        t.nodes@[0].parent is None,
        forall|i: int| 0 < i < t.nodes@.len() ==> match #[trigger] t.nodes@[i].parent {
            Some(q) => q < i,
            None => false,
        },
    ensures
        match r {
            Some(i) => match_item(*t, *p, j as int) == Some(i as int),
            None => match_item(*t, *p, j as int) is None,
        },
{
    let n = &t.nodes[j];
    let k = match n.parent {
        Some(k) => k,
        None => {
            return None;
        },
    };
    if !(n.named && str_eq(n.kind.as_str(), p.name_kind) && field_is(n, Some(p.name_field))) {
        return None;
    }
    if k >= t.nodes.len() {
        return None;
    }
    let kn = &t.nodes[k];
    match p.inner {
        None => {
            if kn.named && str_eq(kn.kind.as_str(), p.item) {
                Some(k)
            } else {
                None
            }
        },
        Some(inner) => {
            if !(kn.named && str_eq(kn.kind.as_str(), inner) && field_is(kn, p.outer_field)) {
                return None;
            }
            let i = match kn.parent {
                Some(i) => i,
                None => {
                    return None;
                },
            };
            if i >= t.nodes.len() {
                return None;
            }
            let itn = &t.nodes[i];
            if itn.named && str_eq(itn.kind.as_str(), p.item) {
                Some(i)
            } else {
                None
            }
        },
    }
}

fn symbol_key_exec(s: &ExtractedSymbol) -> (k: Vec<KeyPart>)
    ensures
        key_view(k@) == symbol_key(symbol_view(*s)),
{
    let mut k: Vec<KeyPart> = Vec::new();
    k.push(KeyPart::Text(chars_of(s.parent_file.as_str())));
    k.push(KeyPart::Num(s.line as u64));
    k.push(KeyPart::Text(chars_of(s.name.as_str())));
    k.push(KeyPart::Text(chars_of(s.kind.as_str())));
    assert(key_view(k@) =~= symbol_key(symbol_view(*s)));
    k
}

proof fn lemma_same_key_same_view(a: SymbolView, b: SymbolView)
    requires
        key_order(symbol_key(a), symbol_key(b)) == 0,
        a.4 == b.4,
    ensures
        a == b,
{
    lemma_key_order_zero(symbol_key(a), symbol_key(b));
    assert(symbol_key(a)[0] == symbol_key(b)[0]);
    assert(symbol_key(a)[1] == symbol_key(b)[1]);
    assert(symbol_key(a)[2] == symbol_key(b)[2]);
    assert(symbol_key(a)[3] == symbol_key(b)[3]);
    node_kind_name_round_trip(a.0);
    node_kind_name_round_trip(b.0);
}

/// `s` in order of file, line, name and kind.
fn sort_symbols(s: &Vec<ExtractedSymbol>) -> (sorted: Vec<ExtractedSymbol>)
    ensures
        sorted@.len() == s@.len(),
        forall|a: int| #![trigger sorted@[a]] 0 <= a < sorted@.len() ==> s@.contains(sorted@[a]),
        forall|i: int| #![trigger s@[i]] 0 <= i < s@.len() ==> sorted@.contains(s@[i]),
        forall|a: int, b: int| 0 <= a < b < sorted@.len() ==> key_order(
            symbol_key(symbol_view(#[trigger] sorted@[a])),
            symbol_key(symbol_view(#[trigger] sorted@[b])),
        ) <= 0,
{
    let mut keys: Vec<Vec<KeyPart>> = Vec::new();
    let mut i: usize = 0;
    while i < s.len()
        invariant
            i <= s.len(),
            keys.len() == i,
            forall|k: int| 0 <= k < i ==> key_view(#[trigger] keys@[k]@) == symbol_key(symbol_view(s@[k])),
        decreases s.len() - i,
    {
        keys.push(symbol_key_exec(&s[i]));
        i += 1;
    }
    let ghost kv = key_views(keys@);
    assert(kv =~= s@.map_values(|x: ExtractedSymbol| symbol_key(symbol_view(x))));
    let sorted = sort_by_keys(s, &keys);
    proof {
        lemma_stably_sorted_elements(s@, kv, sorted@);
        assert forall|a: int, b: int| 0 <= a < b < sorted@.len() implies key_order(
            symbol_key(symbol_view(#[trigger] sorted@[a])),
            symbol_key(symbol_view(#[trigger] sorted@[b])),
        ) <= 0 by {
            lemma_stably_sorted_order(s@, kv, sorted@, a, b);
        }
    }
    sorted
}

/// `s` sorted by file, line, name and kind, one symbol per key (the first).
#[verifier::rlimit(30)]
fn sort_dedup(s: Vec<ExtractedSymbol>, Ghost(lang): Ghost<Seq<char>>) -> (r: Vec<ExtractedSymbol>)
    requires
        forall|i: int| 0 <= i < s@.len() ==> (#[trigger] s@[i]).language_id@ == lang,
    ensures
        forall|k: int| #![trigger r@[k]] 0 <= k < r@.len() ==> exists|i: int| #![trigger s@[i]] 0 <= i < s@.len() && symbol_view(r@[k]) == symbol_view(s@[i]),
        forall|i: int| #![trigger s@[i]] 0 <= i < s@.len() ==> exists|k: int| #![trigger r@[k]] 0 <= k < r@.len() && symbol_view(r@[k]) == symbol_view(s@[i]),
        forall|k: int, l: int| 0 <= k < l < r@.len() ==> key_order(symbol_key(symbol_view(#[trigger] r@[k])), symbol_key(symbol_view(#[trigger] r@[l]))) < 0,
{
    let sorted = sort_symbols(&s);
    proof {
        assert forall|a: int| 0 <= a < sorted@.len() implies (#[trigger] sorted@[a]).language_id@ == lang by {
            let q = choose|q: int| 0 <= q < s@.len() && s@[q] == sorted@[a];
        }
    }
    let mut out: Vec<ExtractedSymbol> = Vec::new();
    let mut last_key: Vec<KeyPart> = Vec::new();
    let ghost mut src: Seq<int> = Seq::empty();
    let ghost mut pos: Seq<int> = Seq::empty();
    let mut m: usize = 0;
    while m < sorted.len()
        invariant
            m <= sorted.len(),
            sorted@.len() == s@.len(),
            forall|a: int, b: int| 0 <= a < b < sorted@.len() ==> key_order(
                symbol_key(symbol_view(#[trigger] sorted@[a])),
                symbol_key(symbol_view(#[trigger] sorted@[b])),
            ) <= 0,
            forall|a: int| 0 <= a < sorted@.len() ==> (#[trigger] sorted@[a]).language_id@ == lang,
            m > 0 ==> out@.len() > 0 && key_view(last_key@) == symbol_key(symbol_view(out@.last()))
                && symbol_view(out@.last()) == symbol_view(sorted@[m - 1]),
            m == 0 ==> out@.len() == 0,
            src.len() == out@.len(),
            pos.len() == m,
            forall|k: int| 0 <= k < out@.len() ==> 0 <= #[trigger] src[k] < m && symbol_view(out@[k]) == symbol_view(sorted@[src[k]]),
            forall|a: int| 0 <= a < m ==> 0 <= #[trigger] pos[a] < out@.len() && symbol_view(out@[pos[a]]) == symbol_view(sorted@[a]),
            forall|k: int, l: int| 0 <= k < l < out@.len() ==> key_order(symbol_key(symbol_view(#[trigger] out@[k])), symbol_key(symbol_view(#[trigger] out@[l]))) < 0,
        decreases sorted.len() - m,
    {
        let key = symbol_key_exec(&sorted[m]);
        let fresh = m == 0 || compare_keys(&last_key, &key) != 0;
        let ghost before = out@;
        if fresh {
            proof {
                if m > 0 {
                    let lk = symbol_key(symbol_view(out@.last()));
                    let nk = symbol_key(symbol_view(sorted@[m as int]));
                    assert(key_order(symbol_key(symbol_view(sorted@[m - 1])), nk) <= 0);
                    assert forall|k: int| 0 <= k < out@.len() implies key_order(symbol_key(symbol_view(#[trigger] out@[k])), nk) < 0 by {
                        if k < out@.len() - 1 {
                            lemma_key_order(symbol_key(symbol_view(out@[k])), lk, nk);
                        }
                    }
                }
            }
            out.push(sorted[m].dup());
            last_key = key;
            proof {
                src = src.push(m as int);
                pos = pos.push(out@.len() - 1);
                assert forall|k: int| 0 <= k < out@.len() implies 0 <= #[trigger] src[k] < m + 1 && symbol_view(out@[k]) == symbol_view(sorted@[src[k]]) by {
                    if k < before.len() {
                        assert(out@[k] == before[k]);
                    }
                }
                assert forall|a: int| 0 <= a < m + 1 implies 0 <= #[trigger] pos[a] < out@.len() && symbol_view(out@[pos[a]]) == symbol_view(sorted@[a]) by {
                    if a < m {
                        assert(out@[pos[a]] == before[pos[a]]);
                    }
                }
            }
        } else {
            proof {
                lemma_same_key_same_view(symbol_view(out@.last()), symbol_view(sorted@[m as int]));
                pos = pos.push(out@.len() - 1);
            }
        }
        m += 1;
    }
    proof {
        assert forall|k: int| #![trigger out@[k]] 0 <= k < out@.len() implies exists|i: int| #![trigger s@[i]] 0 <= i < s@.len() && symbol_view(out@[k]) == symbol_view(s@[i]) by {
            let a = src[k];
            assert(s@.contains(sorted@[a]));
            let i = choose|i: int| 0 <= i < s@.len() && s@[i] == sorted@[a];
        }
        assert forall|i: int| #![trigger s@[i]] 0 <= i < s@.len() implies exists|k: int| #![trigger out@[k]] 0 <= k < out@.len() && symbol_view(out@[k]) == symbol_view(s@[i]) by {
            assert(sorted@.contains(s@[i]));
            let a = choose|a: int| 0 <= a < sorted@.len() && sorted@[a] == s@[i];
            let k = pos[a];
            assert(symbol_view(out@[k]) == symbol_view(sorted@[a]));
        }
    }
    out
}


/// The Python import statements of the first `n` nodes, in document order,
/// blank ones left out.
pub open spec fn import_symbols(t: SyntaxTree, bytes: Seq<u8>, path: Seq<char>, lang: Seq<char>, n: int) -> Seq<SymbolView>
    decreases n,
{
    if n <= 0 {
        Seq::empty()
    } else {
        let rest = import_symbols(t, bytes, path, lang, n - 1);
        if is_import_node(t, n - 1) && trim(t.text(bytes, n - 1)).len() > 0 {
            rest.push(import_symbol(t, bytes, n - 1, path, lang))
        } else {
            rest
        }
    }
}

pub open spec fn symbol_views(v: Seq<ExtractedSymbol>) -> Seq<SymbolView> {
    v.map_values(|s: ExtractedSymbol| symbol_view(s))
}

/// Every import statement of a Python tree as an `import` symbol named by its
/// trimmed text, in document order; blank ones are left out.
pub fn extract_imports(t: &SyntaxTree, source: &str, relative_path: &str, language_id: &str) -> (r: Vec<ExtractedSymbol>)
    requires
        t.wf(source.spec_bytes()),
    ensures
        symbol_views(r@) == import_symbols(*t, source.spec_bytes(), relative_path@, language_id@, t.nodes@.len() as int),
{
    let ghost bytes = source.spec_bytes();
    let mut out: Vec<ExtractedSymbol> = Vec::new();
    let mut i: usize = 0;
    while i < t.nodes.len()
        invariant
            i <= t.nodes.len(),
            t.wf(bytes),
            bytes == source.spec_bytes(),
            symbol_views(out@) == import_symbols(*t, bytes, relative_path@, language_id@, i as int),
        decreases t.nodes.len() - i,
    {
        let n = &t.nodes[i];
        if n.named && (str_eq(n.kind.as_str(), "import_statement") || str_eq(n.kind.as_str(), "import_from_statement")) {
            let text = trim_str(source_span(source, n.start_byte, n.end_byte).as_str());
            if !text.as_str().is_empty() {
                let ghost before = out@;
                out.push(ExtractedSymbol {
                    kind: NodeKind::Import,
                    name: text,
                    parent_file: relative_path.to_owned(),
                    line: n.start_row + 1,
                    language_id: language_id.to_owned(),
                });
                assert(symbol_views(out@) =~= symbol_views(before).push(symbol_view(out@.last())));
            }
        }
        i += 1;
    }
    out
}

/// The symbols of a file's syntax tree: the definitions that the name
/// patterns find (with the trimmed name and its line) and, when `imports`,
/// the import statements; each once, ordered by line, name and kind. A match
/// with a blank name voids the extraction.
#[verifier::rlimit(40)]
pub fn extract_from_tree(t: &SyntaxTree, source: &str, relative_path: &str, spec: &LangSpec) -> (r: Vec<ExtractedSymbol>)
    requires
        t.wf(source.spec_bytes()),
    ensures
        symbols_of_tree(*t, source.spec_bytes(), spec.patterns@, spec.imports, relative_path@, spec.language_id@, r@),
{
    let ghost bytes = source.spec_bytes();
    let ghost pats = spec.patterns@;
    let ghost path = relative_path@;
    let ghost lang = spec.language_id@;
    let mut all: Vec<ExtractedSymbol> = Vec::new();
    let mut q: usize = 0;
    while q < spec.patterns.len()
        invariant
            q <= spec.patterns.len(),
            t.wf(bytes),
            bytes == source.spec_bytes(),
            pats == spec.patterns@,
            path == relative_path@,
            lang == spec.language_id@,
            forall|k: int| 0 <= k < all@.len() ==> (#[trigger] all@[k]).language_id@ == lang,
            forall|k: int| 0 <= k < all@.len() ==> declares(*t, bytes, pats, spec.imports, path, lang, #[trigger] symbol_view(all@[k])),
            forall|q2: int, j: int| 0 <= q2 < q && #[trigger] match_item(*t, pats[q2], j) is Some ==> trim(t.text(bytes, j)).len() > 0
                && exists|k: int| 0 <= k < all@.len() && #[trigger] symbol_view(all@[k]) == match_symbol(*t, bytes, pats[q2], j, path, lang),
        decreases spec.patterns.len() - q,
    {
        let p = &spec.patterns[q];
        let mut j: usize = 0;
        while j < t.nodes.len()
            invariant
                j <= t.nodes.len(),
                q < spec.patterns.len(),
                p == spec.patterns@[q as int],
                t.wf(bytes),
                bytes == source.spec_bytes(),
                pats == spec.patterns@,
                path == relative_path@,
                lang == spec.language_id@,
                forall|k: int| 0 <= k < all@.len() ==> (#[trigger] all@[k]).language_id@ == lang,
                forall|k: int| 0 <= k < all@.len() ==> declares(*t, bytes, pats, spec.imports, path, lang, #[trigger] symbol_view(all@[k])),
                forall|q2: int, j2: int|
                    ((0 <= q2 < q) || (q2 == q && j2 < j)) && #[trigger] match_item(*t, pats[q2], j2) is Some ==> trim(t.text(bytes, j2)).len() > 0
                        && exists|k: int| 0 <= k < all@.len() && #[trigger] symbol_view(all@[k]) == match_symbol(*t, bytes, pats[q2], j2, path, lang),
            decreases t.nodes.len() - j,
        {
            if let Some(i) = match_at(t, p, j) {
                let n = &t.nodes[j];
                let name = trim_str(source_span(source, n.start_byte, n.end_byte).as_str());
                if name.as_str().is_empty() {
                    proof {
                        assert(match_item(*t, pats[q as int], j as int) is Some);
                        assert(has_blank_name(*t, bytes, pats));
                    }
                    return Vec::new();
                }
                let sym = ExtractedSymbol {
                    kind: classify_symbol(t.nodes[i].kind.as_str()),
                    name,
                    parent_file: relative_path.to_owned(),
                    line: n.start_row + 1,
                    language_id: spec.language_id.to_owned(),
                };
                proof {
                    assert(symbol_view(sym) == match_symbol(*t, bytes, pats[q as int], j as int, path, lang));
                    assert(declares(*t, bytes, pats, spec.imports, path, lang, symbol_view(sym)));
                }
                let ghost before = all@;
                all.push(sym);
                proof {
                    assert(all@[before.len() as int] == sym);
                    assert forall|q2: int, j2: int|
                        ((0 <= q2 < q) || (q2 == q && j2 < j + 1)) && #[trigger] match_item(*t, pats[q2], j2) is Some implies trim(t.text(bytes, j2)).len() > 0
                            && exists|k: int| 0 <= k < all@.len() && #[trigger] symbol_view(all@[k]) == match_symbol(*t, bytes, pats[q2], j2, path, lang) by {
                        if q2 == q && j2 == j {
                            assert(symbol_view(all@[before.len() as int]) == match_symbol(*t, bytes, pats[q2], j2, path, lang));
                        } else {
                            let k = choose|k: int| 0 <= k < before.len() && #[trigger] symbol_view(before[k]) == match_symbol(*t, bytes, pats[q2], j2, path, lang);
                            assert(all@[k] == before[k]);
                        }
                    }
                }
            } else {
                proof {
                    assert forall|q2: int, j2: int|
                        ((0 <= q2 < q) || (q2 == q && j2 < j + 1)) && #[trigger] match_item(*t, pats[q2], j2) is Some implies trim(t.text(bytes, j2)).len() > 0
                            && exists|k: int| 0 <= k < all@.len() && #[trigger] symbol_view(all@[k]) == match_symbol(*t, bytes, pats[q2], j2, path, lang) by {
                        if q2 == q && j2 == j {
                            assert(match_item(*t, pats[q as int], j as int) is None);
                        }
                    }
                }
            }
            j += 1;
        }
        proof {
            assert forall|q2: int, j2: int| 0 <= q2 < q + 1 && #[trigger] match_item(*t, pats[q2], j2) is Some implies trim(t.text(bytes, j2)).len() > 0
                && exists|k: int| 0 <= k < all@.len() && #[trigger] symbol_view(all@[k]) == match_symbol(*t, bytes, pats[q2], j2, path, lang) by {
                if q2 == q {
                    assert(0 <= j2 < t.nodes@.len());
                }
            }
        }
        q += 1;
    }
    proof {
        assert(!has_blank_name(*t, bytes, pats));
    }
    if spec.imports {
        let imps = extract_imports(t, source, relative_path, spec.language_id);
        let ghost before = all@;
        let mut k: usize = 0;
        while k < imps.len()
            invariant
                k <= imps.len(),
                spec.imports,
                t.wf(bytes),
                bytes == source.spec_bytes(),
                pats == spec.patterns@,
                path == relative_path@,
                lang == spec.language_id@,
                symbol_views(imps@) == import_symbols(*t, bytes, path, lang, t.nodes@.len() as int),
                all@.len() == before.len() + k,
                forall|a: int| 0 <= a < before.len() ==> all@[a] == before[a],
                forall|a: int| 0 <= a < k ==> all@[before.len() + a] == imps@[a],
                forall|a: int| 0 <= a < all@.len() ==> (#[trigger] all@[a]).language_id@ == lang,
                forall|a: int| 0 <= a < all@.len() ==> declares(*t, bytes, pats, spec.imports, path, lang, #[trigger] symbol_view(all@[a])),
            decreases imps.len() - k,
        {
            proof {
                assert(symbol_views(imps@)[k as int] == symbol_view(imps@[k as int]));
                lemma_import_symbols_declared(*t, bytes, path, lang, t.nodes@.len() as int, k as int);
            }
            all.push(imps[k].dup());
            k += 1;
        }
        proof {
            assert forall|i: int| #[trigger] is_import_node(*t, i) && trim(t.text(bytes, i)).len() > 0 implies exists|a: int|
                0 <= a < all@.len() && #[trigger] symbol_view(all@[a]) == import_symbol(*t, bytes, i, path, lang) by {
                lemma_import_symbols_complete(*t, bytes, path, lang, t.nodes@.len() as int, i);
                let a = choose|a: int| #![trigger import_symbols(*t, bytes, path, lang, t.nodes@.len() as int)[a]] 0 <= a < import_symbols(*t, bytes, path, lang, t.nodes@.len() as int).len()
                    && import_symbols(*t, bytes, path, lang, t.nodes@.len() as int)[a] == import_symbol(*t, bytes, i, path, lang);
                assert(symbol_views(imps@)[a] == symbol_view(imps@[a]));
                assert(all@[before.len() + a] == imps@[a]);
            }
        }
    }
    let r = sort_dedup(all, Ghost(lang));
    proof {
        assert forall|v: SymbolView| declares(*t, bytes, pats, spec.imports, path, lang, v) implies exists|k: int|
            0 <= k < r@.len() && #[trigger] symbol_view(r@[k]) == v by {
            if exists|q2: int, j: int| 0 <= q2 < pats.len() && #[trigger] match_item(*t, pats[q2], j) is Some && match_symbol(*t, bytes, pats[q2], j, path, lang) == v {
                let (q2, j) = choose|q2: int, j: int| 0 <= q2 < pats.len() && #[trigger] match_item(*t, pats[q2], j) is Some && match_symbol(*t, bytes, pats[q2], j, path, lang) == v;
                let a = choose|a: int| 0 <= a < all@.len() && #[trigger] symbol_view(all@[a]) == match_symbol(*t, bytes, pats[q2], j, path, lang);
                let k = choose|k: int| #![trigger r@[k]] 0 <= k < r@.len() && symbol_view(r@[k]) == symbol_view(all@[a]);
            } else {
                let i = choose|i: int| #[trigger] is_import_node(*t, i) && trim(t.text(bytes, i)).len() > 0 && import_symbol(*t, bytes, i, path, lang) == v;
                let a = choose|a: int| 0 <= a < all@.len() && #[trigger] symbol_view(all@[a]) == import_symbol(*t, bytes, i, path, lang);
                let k = choose|k: int| #![trigger r@[k]] 0 <= k < r@.len() && symbol_view(r@[k]) == symbol_view(all@[a]);
            }
        }
        assert forall|k: int| 0 <= k < r@.len() implies declares(*t, bytes, pats, spec.imports, path, lang, #[trigger] symbol_view(r@[k])) by {
            let a = choose|a: int| #![trigger all@[a]] 0 <= a < all@.len() && symbol_view(r@[k]) == symbol_view(all@[a]);
        }
    }
    r
}

proof fn lemma_import_symbols_declared(t: SyntaxTree, bytes: Seq<u8>, path: Seq<char>, lang: Seq<char>, n: int, a: int)
    requires
        0 <= a < import_symbols(t, bytes, path, lang, n).len(),
    ensures
        exists|i: int| #[trigger] is_import_node(t, i) && trim(t.text(bytes, i)).len() > 0
            && import_symbol(t, bytes, i, path, lang) == import_symbols(t, bytes, path, lang, n)[a],
        import_symbols(t, bytes, path, lang, n)[a].4 == lang,
    decreases n,
{
    if n > 0 {
        let rest = import_symbols(t, bytes, path, lang, n - 1);
        if a < rest.len() {
            lemma_import_symbols_declared(t, bytes, path, lang, n - 1, a);
        } else {
            assert(is_import_node(t, n - 1));
        }
    }
}

proof fn lemma_import_symbols_complete(t: SyntaxTree, bytes: Seq<u8>, path: Seq<char>, lang: Seq<char>, n: int, i: int)
    requires
        0 <= i < n,
        is_import_node(t, i),
        trim(t.text(bytes, i)).len() > 0,
    ensures
        exists|a: int| #![trigger import_symbols(t, bytes, path, lang, n)[a]] 0 <= a < import_symbols(t, bytes, path, lang, n).len()
            && import_symbols(t, bytes, path, lang, n)[a] == import_symbol(t, bytes, i, path, lang),
    decreases n,
{
    if i < n - 1 {
        lemma_import_symbols_complete(t, bytes, path, lang, n - 1, i);
        let a = choose|a: int| #![trigger import_symbols(t, bytes, path, lang, n - 1)[a]] 0 <= a < import_symbols(t, bytes, path, lang, n - 1).len()
            && import_symbols(t, bytes, path, lang, n - 1)[a] == import_symbol(t, bytes, i, path, lang);
        assert(import_symbols(t, bytes, path, lang, n)[a] == import_symbols(t, bytes, path, lang, n - 1)[a]);
    } else {
        let rest = import_symbols(t, bytes, path, lang, n - 1);
        assert(import_symbols(t, bytes, path, lang, n)[rest.len() as int] == import_symbol(t, bytes, i, path, lang));
    }
}


/// A definition named directly by its `name` field.
pub open spec fn named_by(item: &'static str, kind: &'static str) -> NamePattern {
    NamePattern { item, outer_field: None, inner: None, name_field: "name", name_kind: kind }
}

/// The languages with a grammar: id, grammar, name patterns, and whether
/// imports count as symbols.
pub open spec fn lang_table() -> Seq<(Seq<char>, Grammar, Seq<NamePattern>, bool)> {
    seq![
        ("python"@, Grammar::Python, seq![named_by("function_definition", "identifier"), named_by("class_definition", "identifier")], true),
        ("rust"@, Grammar::Rust, seq![named_by("function_item", "identifier"), named_by("struct_item", "type_identifier"), named_by("enum_item", "type_identifier")], false),
        ("go"@, Grammar::Go, seq![
            named_by("function_declaration", "identifier"),
            named_by("method_declaration", "field_identifier"),
            NamePattern { item: "type_declaration", outer_field: None, inner: Some("type_spec"), name_field: "name", name_kind: "type_identifier" },
        ], false),
        ("javascript"@, Grammar::JavaScript, seq![
            named_by("function_declaration", "identifier"),
            NamePattern { item: "export_statement", outer_field: Some("declaration"), inner: Some("function_declaration"), name_field: "name", name_kind: "identifier" },
            named_by("class_declaration", "identifier"),
        ], false),
        ("typescript"@, Grammar::TypeScript, seq![named_by("function_declaration", "identifier")], false),
        ("ruby"@, Grammar::Ruby, seq![named_by("method", "identifier"), named_by("singleton_method", "identifier"), named_by("class", "constant"), named_by("module", "constant")], false),
        ("java"@, Grammar::Java, seq![named_by("method_declaration", "identifier"), named_by("constructor_declaration", "identifier"), named_by("class_declaration", "identifier")], false),
        ("php"@, Grammar::Php, seq![named_by("function_definition", "name"), named_by("method_declaration", "name"), named_by("class_declaration", "name")], false),
        ("swift"@, Grammar::Swift, seq![named_by("function_declaration", "simple_identifier"), named_by("class_declaration", "type_identifier")], false),
    ]
}

fn named(item: &'static str, kind: &'static str) -> (p: NamePattern)
    ensures
        p == named_by(item, kind),
{
    NamePattern { item, outer_field: None, inner: None, name_field: "name", name_kind: kind }
}

/// The languages with a grammar, as `lang_table` lists them.
pub fn lang_specs() -> (r: Vec<LangSpec>)
    ensures
        r@.len() == lang_table().len(),
        forall|k: int| 0 <= k < r@.len() ==> (#[trigger] r@[k]).language_id@ == lang_table()[k].0 && r@[k].grammar
            == lang_table()[k].1 && r@[k].patterns@ == lang_table()[k].2 && r@[k].imports == lang_table()[k].3,
{
    let mut r: Vec<LangSpec> = Vec::new();
    r.push(LangSpec { language_id: "python", grammar: Grammar::Python, patterns: vec![named("function_definition", "identifier"), named("class_definition", "identifier")], imports: true });
    r.push(LangSpec { language_id: "rust", grammar: Grammar::Rust, patterns: vec![named("function_item", "identifier"), named("struct_item", "type_identifier"), named("enum_item", "type_identifier")], imports: false });
    r.push(LangSpec { language_id: "go", grammar: Grammar::Go, patterns: vec![
        named("function_declaration", "identifier"),
        named("method_declaration", "field_identifier"),
        NamePattern { item: "type_declaration", outer_field: None, inner: Some("type_spec"), name_field: "name", name_kind: "type_identifier" },
    ], imports: false });
    r.push(LangSpec { language_id: "javascript", grammar: Grammar::JavaScript, patterns: vec![
        named("function_declaration", "identifier"),
        NamePattern { item: "export_statement", outer_field: Some("declaration"), inner: Some("function_declaration"), name_field: "name", name_kind: "identifier" },
        named("class_declaration", "identifier"),
    ], imports: false });
    r.push(LangSpec { language_id: "typescript", grammar: Grammar::TypeScript, patterns: vec![named("function_declaration", "identifier")], imports: false });
    r.push(LangSpec { language_id: "ruby", grammar: Grammar::Ruby, patterns: vec![named("method", "identifier"), named("singleton_method", "identifier"), named("class", "constant"), named("module", "constant")], imports: false });
    r.push(LangSpec { language_id: "java", grammar: Grammar::Java, patterns: vec![named("method_declaration", "identifier"), named("constructor_declaration", "identifier"), named("class_declaration", "identifier")], imports: false });
    r.push(LangSpec { language_id: "php", grammar: Grammar::Php, patterns: vec![named("function_definition", "name"), named("method_declaration", "name"), named("class_declaration", "name")], imports: false });
    r.push(LangSpec { language_id: "swift", grammar: Grammar::Swift, patterns: vec![named("function_declaration", "simple_identifier"), named("class_declaration", "type_identifier")], imports: false });
    proof {
        assert(r@[2].patterns@ =~= lang_table()[2].2);
        assert(r@[3].patterns@ =~= lang_table()[3].2);
    }
    r
}

/// The language table entry for `id`, if any.
pub open spec fn lang_index(id: Seq<char>) -> Option<int> {
    if exists|k: int| 0 <= k < lang_table().len() && #[trigger] lang_table()[k].0 == id {
        Some(choose|k: int| 0 <= k < lang_table().len() && #[trigger] lang_table()[k].0 == id && forall|m: int| 0 <= m < k ==> lang_table()[m].0 != id)
    } else {
        None
    }
}

/// The regular expression that finds Dart function declarations: a return
/// type, the name (group 1), the parameters, an optional `async`, and `{`.
pub open spec fn dart_function_pattern() -> Seq<char> {
    "(?m)^(?:\\s*)(?:[\\w<>?.,\\s]+)\\s+(\\w+)\\s*\\([^)]*\\)\\s*(?:async\\s*)?\\{"@
}

/// Control-flow keywords the Dart pattern also catches.
pub open spec fn is_dart_keyword(name: Seq<char>) -> bool {
    name == "if"@ || name == "for"@ || name == "while"@ || name == "switch"@ || name == "catch"@
}

/// The Dart functions of the first `n` matches: the name from group 1 and the
/// line where the match starts; keyword matches are left out.
pub open spec fn dart_symbols(bytes: Seq<u8>, ms: Seq<Seq<Option<(usize, usize)>>>, path: Seq<char>, n: int) -> Seq<SymbolView>
    decreases n,
{
    if n <= 0 {
        Seq::empty()
    } else {
        let rest = dart_symbols(bytes, ms, path, n - 1);
        let m = ms[n - 1];
        let name = group_text(bytes, m, 1);
        if is_dart_keyword(name) {
            rest
        } else {
            rest.push((NodeKind::Function, name, path, line_at(bytes, span_start(m[0]->0) as int), "dart"@))
        }
    }
}

/// Dart functions found by a regular expression (no grammar is bundled for
/// Dart): each match's name and starting line, control-flow keywords skipped.
pub fn extract_symbols(source: &str, relative_path: &str) -> (r: Vec<ExtractedSymbol>)
    ensures
        match regex_captures(dart_function_pattern(), source@) {
            Some(ms) => symbol_views(r@) == dart_symbols(source.spec_bytes(), ms, relative_path@, ms.len() as int),
            None => r@.len() == 0,
        },
{
    let pattern = "(?m)^(?:\\s*)(?:[\\w<>?.,\\s]+)\\s+(\\w+)\\s*\\([^)]*\\)\\s*(?:async\\s*)?\\{";
    assert(pattern@ == dart_function_pattern());
    let ms = match captures_all(pattern, source) {
        Some(ms) => ms,
        None => {
            return Vec::new();
        },
    };
    let ghost bytes = source.spec_bytes();
    let ghost sv = spans_view(ms@);
    let bs = source.as_bytes();
    let mut out: Vec<ExtractedSymbol> = Vec::new();
    let mut i: usize = 0;
    while i < ms.len()
        invariant
            i <= ms.len(),
            bytes == source.spec_bytes(),
            bs@ == bytes,
            sv == spans_view(ms@),
            spans_ok(sv, bytes),
            symbol_views(out@) == dart_symbols(bytes, sv, relative_path@, i as int),
        decreases ms.len() - i,
    {
        let m = &ms[i];
        assert(sv[i as int] == m@);
        let name: String = if m.len() > 1 {
            match m[1] {
                Some((s, e)) => source_span(source, s, e),
                None => String::new(),
            }
        } else {
            String::new()
        };
        assert(name@ == group_text(bytes, m@, 1));
        let keyword = str_eq(name.as_str(), "if") || str_eq(name.as_str(), "for") || str_eq(name.as_str(), "while")
            || str_eq(name.as_str(), "switch") || str_eq(name.as_str(), "catch");
        if !keyword {
            let start = match m[0] {
                Some((s, _)) => s,
                None => 0,
            };
            let count = count_newlines(bs, start);
            let ghost before = out@;
            out.push(ExtractedSymbol {
                kind: NodeKind::Function,
                name,
                parent_file: relative_path.to_owned(),
                line: (count as u32).wrapping_add(1),
                language_id: "dart".to_owned(),
            });
            assert(symbol_views(out@) =~= symbol_views(before).push(symbol_view(out@.last())));
        }
        i += 1;
    }
    out
}

/// `r` are the symbols extraction gives for a file of language
/// `language_id`: the Dart matches; for a language of `lang_table`, the
/// symbols of the tree tree-sitter gives in its grammar, or nothing when it
/// gives none; nothing for other languages.
pub open spec fn file_extraction(language_id: Seq<char>, path: Seq<char>, source: Seq<char>, r: Seq<ExtractedSymbol>) -> bool {
    let bytes = vstd::utf8::encode_utf8(source);
    if language_id == "dart"@ {
        match regex_captures(dart_function_pattern(), source) {
            Some(ms) => symbol_views(r) == dart_symbols(bytes, ms, path, ms.len() as int),
            None => r.len() == 0,
        }
    } else {
        match lang_index(language_id) {
            Some(k) => if parses(lang_table()[k].1, source) {
                exists|t: SyntaxTree|
                    #[trigger] parsed(lang_table()[k].1, source, t) && symbols_of_tree(t, bytes, lang_table()[k].2, lang_table()[k].3, path, language_id, r)
            } else {
                r.len() == 0
            },
            None => r.len() == 0,
        }
    }
}

/// The symbols of one source file: Dart by its regular expression, the
/// languages of `lang_table` by their grammar, nothing for other languages
/// or when the grammar cannot parse the file.
pub fn extract_file(language_id: &str, source: &str, relative_path: &str) -> (r: Vec<ExtractedSymbol>)
    ensures
        file_extraction(language_id@, relative_path@, source@, r@),
{
    if str_eq(language_id, "dart") {
        return extract_symbols(source, relative_path);
    }
    let specs = lang_specs();
    let mut k: usize = 0;
    while k < specs.len()
        invariant
            k <= specs.len(),
            specs@.len() == lang_table().len(),
            forall|q: int| 0 <= q < specs@.len() ==> (#[trigger] specs@[q]).language_id@ == lang_table()[q].0 && specs@[q].grammar
                == lang_table()[q].1 && specs@[q].patterns@ == lang_table()[q].2 && specs@[q].imports == lang_table()[q].3,
            forall|q: int| 0 <= q < k ==> lang_table()[q].0 != language_id@,
            language_id@ != "dart"@,
        decreases specs.len() - k,
    {
        let spec = &specs[k];
        if str_eq(spec.language_id, language_id) {
            proof {
                assert(lang_table()[k as int].0 == language_id@);
                let c = choose|c: int| 0 <= c < lang_table().len() && #[trigger] lang_table()[c].0 == language_id@ && forall|m: int| 0 <= m < c ==> lang_table()[m].0 != language_id@;
                if c < k {
                } else if c > k {
                    assert(lang_table()[k as int].0 != language_id@);
                }
                assert(lang_index(language_id@) == Some(k as int));
            }
            return match crate::syntax::parse_tree(spec.grammar, source) {
                Some(t) => {
                    let r = extract_from_tree(&t, source, relative_path, spec);
                    assert(parsed(spec.grammar, source@, t));
                    r
                },
                None => Vec::new(),
            };
        }
        k += 1;
    }
    Vec::new()
}

} // verus!
