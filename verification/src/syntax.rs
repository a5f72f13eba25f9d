//! Syntax trees from tree-sitter, read into a plain table of nodes in
//! document (pre-)order, and the text they span.
use vstd::prelude::*;
use vstd::utf8::{is_char_boundary, decode_utf8, encode_utf8, valid_utf8};
use vstd::string::StringSliceAdditionalSpecFns;

verus! {

#[verifier::external_type_specification]
#[verifier::external_body]
pub struct ExLanguage(tree_sitter::Language);

/// The grammars bundled with the indexer.
#[derive(Clone, Copy, PartialEq, Eq, Structural)]
pub enum Grammar {
    Python,
    Rust,
    Go,
    JavaScript,
    TypeScript,
    Ruby,
    Java,
    Php,
    Swift,
}

/// The tree-sitter language of a grammar crate (`LANGUAGE`, or
/// `LANGUAGE_TYPESCRIPT` / `LANGUAGE_PHP`), converted with `Into<Language>`.
#[verifier::external_body]
fn grammar_language(g: Grammar) -> tree_sitter::Language {
    match g {
        Grammar::Python => tree_sitter_python::LANGUAGE.into(),
        Grammar::Rust => tree_sitter_rust::LANGUAGE.into(),
        Grammar::Go => tree_sitter_go::LANGUAGE.into(),
        Grammar::JavaScript => tree_sitter_javascript::LANGUAGE.into(),
        Grammar::TypeScript => tree_sitter_typescript::LANGUAGE_TYPESCRIPT.into(),
        Grammar::Ruby => tree_sitter_ruby::LANGUAGE.into(),
        Grammar::Java => tree_sitter_java::LANGUAGE.into(),
        Grammar::Php => tree_sitter_php::LANGUAGE_PHP.into(),
        Grammar::Swift => tree_sitter_swift::LANGUAGE.into(),
    }
}

/// One node of a tree-sitter parse, as plain values.
pub struct TsNode {
    /// `Node::kind`.
    pub kind: String,
    /// `TreeCursor::field_name`: the field under which the node sits in its parent.
    pub field: Option<String>,
    /// `TreeCursor::depth`: the depth below the root.
    pub depth: u32,
    /// `Node::is_named`.
    pub named: bool,
    /// The row of `Node::start_position`, from 0.
    pub row: usize,
    /// `Node::start_byte`.
    pub start: usize,
    /// `Node::end_byte`.
    pub end: usize,
}

/// A parsed node as plain values: kind, field, depth, named, row, start byte, end byte.
pub type TsNodeView = (Seq<char>, Option<Seq<char>>, u32, bool, usize, usize, usize);

pub open spec fn ts_node_view(n: TsNode) -> TsNodeView {
    (n.kind@, match n.field { Some(f) => Some(f@), None => None }, n.depth, n.named, n.row, n.start, n.end)
}

/// What tree-sitter gives for `source` in grammar `g`: the nodes of the tree
/// in pre-order (`TreeCursor::goto_descendant` of each index below
/// `Node::descendant_count` of the root), or `None` when the grammar cannot
/// be set. The parse depends on the grammar and the text alone.
pub uninterp spec fn ts_nodes(g: Grammar, source: Seq<char>) -> Option<Seq<TsNodeView>>;

/// `Parser::set_language` with the grammar, `Parser::parse` of `source`
/// (no timeout, no cancellation, so a tree whenever the language is set),
/// then each node in pre-order read through a `TreeCursor` of the root.
/// The nodes read are named by `ts_nodes`.
#[verifier::external_body]
fn ts_parse(g: Grammar, source: &str) -> (r: Option<Vec<TsNode>>)
    ensures
        match r {
            Some(v) => ts_nodes(g, source@) == Some(v@.map_values(|n: TsNode| ts_node_view(n))),
            None => ts_nodes(g, source@) is None,
        },
{
    let mut parser = tree_sitter::Parser::new();
    parser.set_language(&grammar_language(g)).ok()?;
    let tree = parser.parse(source, None)?;
    let mut c = tree.walk();
    let count = c.node().descendant_count();
    Some((0..count).map(|i| {
        c.goto_descendant(i);
        let n = c.node();
        let field = c.field_name().map(str::to_owned);
        TsNode { kind: n.kind().to_owned(), field, depth: c.depth(), named: n.is_named(), row: n.start_position().row, start: n.start_byte(), end: n.end_byte() }
    }).collect())
}

/// One node of a syntax tree.
pub struct SyntaxNode {
    pub kind: String,
    /// The field under which the node sits in its parent.
    pub field: Option<String>,
    /// Position of the parent in the table; none for the root.
    pub parent: Option<usize>,
    pub named: bool,
    /// First row of the node, from 0.
    pub start_row: u32,
    pub start_byte: usize,
    pub end_byte: usize,
}

/// A syntax tree: its nodes in pre-order, the root first.
pub struct SyntaxTree {
    pub nodes: Vec<SyntaxNode>,
}

/// The text of bytes `start..end` of UTF-8 `bytes`.
pub open spec fn span_text(bytes: Seq<u8>, start: int, end: int) -> Seq<char> {
    decode_utf8(bytes.subrange(start, end))
}

impl SyntaxTree {
    /// Parents come before their children, the root has none, and every node
    /// spans whole characters of a source with bytes `bytes`.
    pub open spec fn wf(&self, bytes: Seq<u8>) -> bool {
        &&& self.nodes@.len() > 0
        &&& self.nodes@[0].parent is None
        &&& forall|i: int| 0 < i < self.nodes@.len() ==> match #[trigger] self.nodes@[i].parent {
            Some(p) => p < i,
            None => false,
        }
        &&& forall|i: int| 0 <= i < self.nodes@.len() ==> {
            let n = #[trigger] self.nodes@[i];
            &&& n.start_byte <= n.end_byte <= bytes.len()
            &&& is_char_boundary(bytes, n.start_byte as int)
            &&& is_char_boundary(bytes, n.end_byte as int)
            &&& n.start_row < u32::MAX
        }
    }

    /// The text of node `i`.
    pub open spec fn text(&self, bytes: Seq<u8>, i: int) -> Seq<char> {
        span_text(bytes, self.nodes@[i].start_byte as int, self.nodes@[i].end_byte as int)
    }

    /// Node `j` is a named child of node `i` of kind `kind`, under `field`
    /// when one is given.
    pub open spec fn is_child(&self, i: int, j: int, field: Option<Seq<char>>, kind: Seq<char>) -> bool {
        &&& 0 <= j < self.nodes@.len()
        &&& self.nodes@[j].parent == Some(i as usize)
        &&& self.nodes@[j].named
        &&& self.nodes@[j].kind@ == kind
        &&& match field {
            Some(f) => match self.nodes@[j].field {
                Some(g) => g@ == f,
                None => false,
            },
            None => true,
        }
    }
}

proof fn lemma_boundary_in_rest(b: Seq<u8>, start: int, end: int)
    requires
        valid_utf8(b),
        valid_utf8(b.subrange(start, b.len() as int)),
        0 <= start <= end <= b.len(),
        is_char_boundary(b, end),
    ensures
        is_char_boundary(b.subrange(start, b.len() as int), end - start),
{
    let rest = b.subrange(start, b.len() as int);
    if end - start == 0 {
    } else if end == b.len() {
        vstd::utf8::is_char_boundary_start_end_of_seq(rest);
    } else {
        vstd::utf8::is_char_boundary_iff_not_is_continuation_byte(b, end);
        vstd::utf8::is_char_boundary_iff_not_is_continuation_byte(rest, end - start);
        assert(rest[end - start] == b[end]);
    }
}

/// The text of bytes `start..end` of `source`, which lie on character boundaries.
pub fn source_span(source: &str, start: usize, end: usize) -> (r: String)
    requires
        start <= end <= source.spec_bytes().len(),
        is_char_boundary(source.spec_bytes(), start as int),
        is_char_boundary(source.spec_bytes(), end as int),
    ensures
        r@ == span_text(source.spec_bytes(), start as int, end as int),
{
    let (_, rest) = source.split_at(start);
    proof {
        let b = source.spec_bytes();
        assert(rest.spec_bytes() =~= b.subrange(start as int, b.len() as int));
        vstd::utf8::encode_utf8_valid_utf8(source@);
        vstd::utf8::encode_utf8_valid_utf8(rest@);
        lemma_boundary_in_rest(b, start as int, end as int);
    }
    let (mid, _) = rest.split_at(end - start);
    proof {
        let b = source.spec_bytes();
        assert(mid.spec_bytes() =~= b.subrange(start as int, end as int));
        vstd::utf8::encode_utf8_decode_utf8(mid@);
    }
    mid.to_owned()
}


/// The latest of the first `n` parsed nodes at depth `d`.
pub open spec fn latest_at(ns: Seq<TsNodeView>, n: int, d: int) -> Option<int>
    decreases n,
{
    if n <= 0 {
        None
    } else if ns[n - 1].2 == d {
        Some(n - 1)
    } else {
        latest_at(ns, n - 1, d)
    }
}

/// Parsed node `i` is well placed: the root at depth 0, every later node at
/// most one level below the node before it, spanning whole characters of
/// `bytes`, on a row that fits a `u32` line.
pub open spec fn node_ok(ns: Seq<TsNodeView>, i: int, bytes: Seq<u8>) -> bool {
    let n = ns[i];
    &&& if i == 0 { n.2 == 0 } else { 1 <= n.2 && n.2 <= ns[i - 1].2 + 1 }
    &&& n.5 <= n.6 && n.6 <= bytes.len()
    &&& is_char_boundary(bytes, n.5 as int)
    &&& is_char_boundary(bytes, n.6 as int)
    &&& n.4 < 0xFFFF_FFFF
}

/// The parsed nodes form a tree over whole characters of `bytes`.
pub open spec fn nodes_ok(ns: Seq<TsNodeView>, bytes: Seq<u8>) -> bool {
    &&& ns.len() > 0
    &&& forall|i: int| 0 <= i < ns.len() ==> #[trigger] node_ok(ns, i, bytes)
}

/// The parent of parsed node `k`: the latest node one level up.
pub open spec fn parent_of(ns: Seq<TsNodeView>, k: int) -> Option<usize> {
    if k == 0 {
        None
    } else {
        match latest_at(ns, k, ns[k].2 - 1) {
            Some(p) => Some(p as usize),
            None => None,
        }
    }
}

/// Table node `t` holds parsed node `k`.
pub open spec fn node_from(t: SyntaxNode, ns: Seq<TsNodeView>, k: int) -> bool {
    &&& t.kind@ == ns[k].0
    &&& (match t.field { Some(f) => Some(f@), None => None }) == ns[k].1
    &&& t.named == ns[k].3
    &&& t.start_row as int == ns[k].4 as int
    &&& t.start_byte == ns[k].5
    &&& t.end_byte == ns[k].6
    &&& t.parent == parent_of(ns, k)
}

/// The table `t` holds exactly the parsed nodes `ns`, in order.
pub open spec fn tree_matches(t: SyntaxTree, ns: Seq<TsNodeView>) -> bool {
    &&& t.nodes@.len() == ns.len()
    &&& forall|k: int| 0 <= k < ns.len() ==> #[trigger] node_from(t.nodes@[k], ns, k)
}

/// tree-sitter parses `source` in `g` into a well-placed tree.
pub open spec fn parses(g: Grammar, source: Seq<char>) -> bool {
    ts_nodes(g, source) matches Some(ns) && nodes_ok(ns, encode_utf8(source))
}

/// `t` is the table of the tree that tree-sitter gives for `source` in `g`.
pub open spec fn parsed(g: Grammar, source: Seq<char>, t: SyntaxTree) -> bool {
    &&& ts_nodes(g, source) matches Some(ns)
    &&& nodes_ok(ns, encode_utf8(source))
    &&& tree_matches(t, ns)
    &&& t.wf(encode_utf8(source))
}

/// The syntax tree of `source` in `g`: the nodes tree-sitter gives, in
/// pre-order, each node's parent the latest node one level up. `None`
/// exactly when tree-sitter gives no tree or its nodes are not well placed
/// over whole characters of `source`.
pub fn parse_tree(g: Grammar, source: &str) -> (r: Option<SyntaxTree>)
    ensures
        match r {
            Some(t) => parsed(g, source@, t),
            None => !parses(g, source@),
        },
{
    let raw = match ts_parse(g, source) {
        Some(v) => v,
        None => {
            return None;
        },
    };
    let ghost ns = raw@.map_values(|n: TsNode| ts_node_view(n));
    let count = raw.len();
    if count == 0 {
        return None;
    }
    let bs = source.as_bytes();
    let len = bs.len();
    let ghost bytes = source.spec_bytes();
    proof {
        vstd::utf8::encode_utf8_valid_utf8(source@);
    }
    let mut nodes: Vec<SyntaxNode> = Vec::new();
    let mut stack: Vec<usize> = Vec::new();
    let mut i: usize = 0;
    while i < count
        invariant
            i <= count,
            count == raw@.len(),
            ns == raw@.map_values(|n: TsNode| ts_node_view(n)),
            ts_nodes(g, source@) == Some(ns),
            len == bytes.len(),
            bytes == source.spec_bytes(),
            bytes == encode_utf8(source@),
            nodes.len() == i,
            i > 0 ==> nodes@[0].parent is None,
            forall|k: int| 0 < k < i ==> match #[trigger] nodes@[k].parent {
                Some(p) => p < k,
                None => false,
            },
            forall|k: int| 0 <= k < i ==> {
                let n = #[trigger] nodes@[k];
                &&& n.start_byte <= n.end_byte <= bytes.len()
                &&& is_char_boundary(bytes, n.start_byte as int)
                &&& is_char_boundary(bytes, n.end_byte as int)
                &&& n.start_row < u32::MAX
            },
            forall|k: int| 0 <= k < i ==> #[trigger] node_ok(ns, k, bytes),
            forall|k: int| 0 <= k < i ==> #[trigger] node_from(nodes@[k], ns, k),
            i > 0 ==> stack@.len() == ns[i - 1].2 + 1,
            i == 0 ==> stack@.len() == 0,
            forall|d: int| 0 <= d < stack@.len() ==> latest_at(ns, i as int, d) == Some(#[trigger] stack@[d] as int),
            forall|k: int| 0 <= k < stack.len() ==> #[trigger] stack@[k] < i,
        decreases count - i,
    {
        let rn = &raw[i];
        assert(ns[i as int] == ts_node_view(*rn));
        let depth = rn.depth as usize;
        if i == 0 && depth != 0 {
            assert(!node_ok(ns, 0, bytes));
            return None;
        }
        if i > 0 && (depth == 0 || depth > stack.len()) {
            assert(!node_ok(ns, i as int, bytes));
            return None;
        }
        let parent = if depth == 0 {
            None
        } else {
            Some(stack[depth - 1])
        };
        let start = rn.start;
        let end = rn.end;
        let row = rn.row;
        if !(start <= end && end <= len && source.is_char_boundary(start) && source.is_char_boundary(end)
            && row < 0xFFFF_FFFFusize) {
            assert(!node_ok(ns, i as int, bytes));
            return None;
        }
        let node = SyntaxNode {
            kind: rn.kind.clone(),
            field: match &rn.field {
                Some(f) => Some(f.clone()),
                None => None,
            },
            parent,
            named: rn.named,
            start_row: row as u32,
            start_byte: start,
            end_byte: end,
        };
        assert(node_ok(ns, i as int, bytes));
        assert(node_from(node, ns, i as int));
        let ghost old_stack = stack@;
        let ghost old_nodes = nodes@;
        nodes.push(node);
        stack.truncate(depth);
        stack.push(i);
        proof {
            assert forall|d: int| 0 <= d < stack@.len() implies latest_at(ns, i + 1, d) == Some(#[trigger] stack@[d] as int) by {
                if d < depth as int {
                    assert(stack@[d] == old_stack[d]);
                }
            }
            assert forall|k: int| 0 <= k < i + 1 implies #[trigger] node_from(nodes@[k], ns, k) by {
                if k < i {
                    assert(nodes@[k] == old_nodes[k]);
                }
            }
        }
        i += 1;
    }
    let t = SyntaxTree { nodes };
    assert(tree_matches(t, ns));
    Some(t)
}

} // verus!
