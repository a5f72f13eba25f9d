//! The graph as exported: nodes and edges in list order, with their kinds by
//! name.
use vstd::prelude::*;
use crate::model::{Dup, GraphEdge, GraphNode, NodeKind};
use crate::store::{GraphStore, node_list_keys, edge_list_keys, opt_text, lemma_filter_step};
use crate::order::stably_sorted;
use vstd::multiset::Multiset;
use crate::json::{JsonValue, json_get, opt_array, get, as_array};
use crate::otel::{value_text, value_text_of};
use crate::text::{decimal, decimal_string, push_char, char_from_u32_unchecked_ascii, chars_of};
use vstd::string::StringExecFns;

verus! {

/// How many of `nodes` are of kind `kind`.
pub fn count_symbols(nodes: &[GraphNode], kind: NodeKind) -> (c: usize)
    ensures
        c == nodes@.filter(|n: GraphNode| n.kind == kind).len(),
{
    let ghost pred = |n: GraphNode| n.kind == kind;
    let mut c: usize = 0;
    let mut i: usize = 0;
    while i < nodes.len()
        invariant
            i <= nodes.len(),
            pred == (|n: GraphNode| n.kind == kind),
            c == nodes@.take(i as int).filter(pred).len(),
            c <= i,
        decreases nodes.len() - i,
    {
        proof {
            lemma_filter_step(nodes@, pred, i as int);
        }
        if nodes[i].kind == kind {
            c += 1;
        }
        i += 1;
    }
    assert(nodes@.take(nodes.len() as int) =~= nodes@);
    c
}

/// An exported node.
pub struct ExportNode {
    pub id: String,
    pub kind: &'static str,
    pub name: String,
    pub path: String,
    pub parent_file: Option<String>,
    pub line: Option<u32>,
    pub language: String,
}

/// An exported edge; its confidence in thousandths.
pub struct ExportEdge {
    pub from: String,
    pub to: String,
    pub kind: &'static str,
    pub confidence_milli: Option<u16>,
}

/// The exported graph.
pub struct ExportGraph {
    pub schema_version: u32,
    pub nodes: Vec<ExportNode>,
    pub edges: Vec<ExportEdge>,
}

/// `e` exports node `n`.
pub open spec fn exports_node(e: ExportNode, n: GraphNode) -> bool {
    &&& e.id@ == n.id@
    &&& e.kind@ == n.kind.name_text()
    &&& e.name@ == n.name@
    &&& e.path@ == n.relative_path@
    &&& opt_text(e.parent_file) == opt_text(n.parent_file)
    &&& e.line == n.line
    &&& e.language@ == n.language_id@
}

/// `e` exports edge `g`.
pub open spec fn exports_edge(e: ExportEdge, g: GraphEdge) -> bool {
    &&& e.from@ == g.from_id@
    &&& e.to@ == g.to_id@
    &&& e.kind@ == g.kind.name_text()
    &&& e.confidence_milli == g.confidence_milli
}

/// `g` is the export of store `s`: schema version 1, the nodes and the edges
/// in list order.
pub open spec fn exported(s: GraphStore, g: ExportGraph) -> bool {
    &&& g.schema_version == 1
    &&& exists|ns: Seq<GraphNode>, es: Seq<GraphEdge>|
        #![trigger stably_sorted(s.node_rows(), node_list_keys(s.node_rows()), ns), stably_sorted(s.edge_rows(), edge_list_keys(s.edge_rows()), es)]
        stably_sorted(s.node_rows(), node_list_keys(s.node_rows()), ns)
            && stably_sorted(s.edge_rows(), edge_list_keys(s.edge_rows()), es)
            && g.nodes@.len() == ns.len() && g.edges@.len() == es.len()
            && (forall|i: int| 0 <= i < ns.len() ==> exports_node(#[trigger] g.nodes@[i], ns[i]))
            && (forall|i: int| 0 <= i < es.len() ==> exports_edge(#[trigger] g.edges@[i], es[i]))
}

impl GraphStore {
    /// The graph for export: schema version 1, the nodes and the edges in
    /// list order.
    pub fn export_graph(&self) -> (r: ExportGraph)
        ensures
            exported(*self, r),
    {
        let nodes = self.list_nodes();
        let edges = self.list_edges();
        let mut en: Vec<ExportNode> = Vec::new();
        let mut i: usize = 0;
        while i < nodes.len()
            invariant
                i <= nodes.len(),
                en@.len() == i,
                forall|k: int| 0 <= k < i ==> exports_node(#[trigger] en@[k], nodes@[k]),
            decreases nodes.len() - i,
        {
            let n = &nodes[i];
            en.push(ExportNode {
                id: n.id.clone(),
                kind: n.kind.as_str(),
                name: n.name.clone(),
                path: n.relative_path.clone(),
                parent_file: n.parent_file.dup(),
                line: n.line,
                language: n.language_id.clone(),
            });
            i += 1;
        }
        let mut ee: Vec<ExportEdge> = Vec::new();
        let mut j: usize = 0;
        while j < edges.len()
            invariant
                j <= edges.len(),
                ee@.len() == j,
                forall|k: int| 0 <= k < j ==> exports_edge(#[trigger] ee@[k], edges@[k]),
            decreases edges.len() - j,
        {
            let e = &edges[j];
            ee.push(ExportEdge {
                from: e.from_id.clone(),
                to: e.to_id.clone(),
                kind: e.kind.as_str(),
                confidence_milli: e.confidence_milli,
            });
            j += 1;
        }
        ExportGraph { schema_version: 1, nodes: en, edges: ee }
    }
}


// ---------------------------------------------------------------------------
// JSON text of the exported graph
// ---------------------------------------------------------------------------

/// A lower-case hexadecimal digit.
pub open spec fn hex_digit(d: nat) -> char {
    if d < 10 { (d + 48) as char } else { (d + 87) as char }
}

/// One character inside a JSON string: quote, backslash and control
/// characters escaped, the short forms where JSON has one.
pub open spec fn escaped_char(c: char) -> Seq<char> {
    if c == '"' {
        seq!['\\', '"']
    } else if c == '\\' {
        seq!['\\', '\\']
    } else if c == '\n' {
        seq!['\\', 'n']
    } else if c == '\r' {
        seq!['\\', 'r']
    } else if c == '\t' {
        seq!['\\', 't']
    } else if c == '\u{8}' {
        seq!['\\', 'b']
    } else if c == '\u{c}' {
        seq!['\\', 'f']
    } else if (c as u32) < 0x20 {
        seq!['\\', 'u', '0', '0', hex_digit((c as u32 / 16) as nat), hex_digit((c as u32 % 16) as nat)]
    } else {
        seq![c]
    }
}

/// The characters of `s` escaped for a JSON string.
pub open spec fn escaped(s: Seq<char>) -> Seq<char>
    decreases s.len(),
{
    if s.len() == 0 {
        Seq::empty()
    } else {
        escaped(s.drop_last()) + escaped_char(s.last())
    }
}

/// `s` as a JSON string.
pub open spec fn quoted(s: Seq<char>) -> Seq<char> {
    seq!['"'] + escaped(s) + seq!['"']
}

/// `parts` with `sep` between each two.
pub open spec fn joined(parts: Seq<Seq<char>>, sep: Seq<char>) -> Seq<char>
    decreases parts.len(),
{
    if parts.len() == 0 {
        Seq::empty()
    } else if parts.len() == 1 {
        parts[0]
    } else {
        joined(parts.drop_last(), sep) + sep + parts.last()
    }
}

/// A confidence of `m` thousandths, written as the shortest decimal that
/// reads back as the same single-precision number: `0.91`, `0.8`, `1.0`.
pub open spec fn confidence_text(m: nat) -> Seq<char> {
    let f = m % 1000;
    let frac = if f == 0 {
        seq!['0']
    } else if f % 100 == 0 {
        seq![digit_of(f / 100)]
    } else if f % 10 == 0 {
        seq![digit_of(f / 100), digit_of((f / 10) % 10)]
    } else {
        seq![digit_of(f / 100), digit_of((f / 10) % 10), digit_of(f % 10)]
    };
    decimal(m / 1000) + seq!['.'] + frac
}

/// A decimal digit.
pub open spec fn digit_of(d: nat) -> char {
    (d + 48) as char
}

/// A member of an object inside the node or edge lists.
pub open spec fn member(key: Seq<char>, value: Seq<char>) -> Seq<char> {
    "      "@ + quoted(key) + ": "@ + value
}

/// The members of an exported node, absent values left out.
pub open spec fn node_members(n: ExportNode) -> Seq<Seq<char>> {
    seq![member("id"@, quoted(n.id@)), member("kind"@, quoted(n.kind@)), member("name"@, quoted(n.name@)),
        member("path"@, quoted(n.path@))]
        + (match n.parent_file { Some(p) => seq![member("parent_file"@, quoted(p@))], None => Seq::empty() })
        + (match n.line { Some(l) => seq![member("line"@, decimal(l as nat))], None => Seq::empty() })
        + seq![member("language"@, quoted(n.language@))]
}

/// The members of an exported edge, absent values left out.
pub open spec fn edge_members(e: ExportEdge) -> Seq<Seq<char>> {
    seq![member("from"@, quoted(e.from@)), member("to"@, quoted(e.to@)), member("kind"@, quoted(e.kind@))]
        + (match e.confidence_milli { Some(m) => seq![member("confidence"@, confidence_text(m as nat))], None => Seq::empty() })
}

/// An object inside the node or edge lists.
pub open spec fn object_text(members: Seq<Seq<char>>) -> Seq<char> {
    "    {\n"@ + joined(members, ",\n"@) + "\n    }"@
}

/// A list of the top-level object.
pub open spec fn list_text(items: Seq<Seq<char>>) -> Seq<char> {
    if items.len() == 0 {
        "[]"@
    } else {
        "[\n"@ + joined(items, ",\n"@) + "\n  ]"@
    }
}

/// The exported graph as indented JSON, two spaces a level.
pub open spec fn graph_json(g: ExportGraph) -> Seq<char> {
    "{\n  \"schemaVersion\": "@ + decimal(g.schema_version as nat) + ",\n  \"nodes\": "@
        + list_text(g.nodes@.map_values(|n: ExportNode| object_text(node_members(n))))
        + ",\n  \"edges\": "@
        + list_text(g.edges@.map_values(|e: ExportEdge| object_text(edge_members(e))))
        + "\n}"@
}

fn push_escaped_char(out: &mut String, c: char)
    ensures
        final(out)@ == old(out)@ + escaped_char(c),
{
    if c == '"' {
        push_char(out, '\\');
        push_char(out, '"');
    } else if c == '\\' {
        push_char(out, '\\');
        push_char(out, '\\');
    } else if c == '\n' {
        push_char(out, '\\');
        push_char(out, 'n');
    } else if c == '\r' {
        push_char(out, '\\');
        push_char(out, 'r');
    } else if c == '\t' {
        push_char(out, '\\');
        push_char(out, 't');
    } else if c == '\u{8}' {
        push_char(out, '\\');
        push_char(out, 'b');
    } else if c == '\u{c}' {
        push_char(out, '\\');
        push_char(out, 'f');
    } else if (c as u32) < 0x20 {
        let u = c as u32;
        let hi = u / 16;
        let lo = u % 16;
        push_char(out, '\\');
        push_char(out, 'u');
        push_char(out, '0');
        push_char(out, '0');
        push_char(out, char_from_u32_unchecked_ascii(if hi < 10 { hi + 48 } else { hi + 87 }));
        push_char(out, char_from_u32_unchecked_ascii(if lo < 10 { lo + 48 } else { lo + 87 }));
    } else {
        push_char(out, c);
    }
}

fn push_escaped(out: &mut String, s: &str)
    ensures
        final(out)@ == old(out)@ + escaped(s@),
{
    let v = chars_of(s);
    let ghost start = out@;
    let mut i: usize = 0;
    while i < v.len()
        invariant
            i <= v@.len(),
            v@ == s@,
            out@ == start + escaped(v@.take(i as int)),
        decreases v@.len() - i,
    {
        let ghost before = out@;
        push_escaped_char(out, v[i]);
        assert(v@.take(i + 1).drop_last() == v@.take(i as int));
        assert(out@ == start + escaped(v@.take(i + 1)));
        i += 1;
    }
    assert(v@.take(v@.len() as int) == v@);
}

/// `s` as a JSON string.
pub fn quoted_string(s: &str) -> (r: String)
    ensures
        r@ == quoted(s@),
{
    let mut r = String::new();
    push_char(&mut r, '"');
    push_escaped(&mut r, s);
    push_char(&mut r, '"');
    assert(r@ =~= quoted(s@));
    r
}

proof fn lemma_joined_step(parts: Seq<Seq<char>>, sep: Seq<char>, i: int)
    requires
        1 <= i < parts.len(),
    ensures
        joined(parts.take(i + 1), sep) == joined(parts.take(i), sep) + sep + parts[i],
{
    assert(parts.take(i + 1).drop_last() == parts.take(i));
}

/// `parts` with `sep` between each two.
pub fn join_texts(parts: &Vec<String>, sep: &str) -> (r: String)
    ensures
        r@ == joined(parts@.map_values(|p: String| p@), sep@),
{
    let ghost ps = parts@.map_values(|p: String| p@);
    let mut r = String::new();
    let mut i: usize = 0;
    while i < parts.len()
        invariant
            i <= parts@.len(),
            ps == parts@.map_values(|p: String| p@),
            r@ == joined(ps.take(i as int), sep@),
        decreases parts@.len() - i,
    {
        if i == 0 {
            r.append(parts[i].as_str());
            assert(ps.take(1) == seq![ps[0]]);
            assert(r@ == joined(ps.take(1), sep@));
        } else {
            r.append(sep);
            r.append(parts[i].as_str());
            proof {
                lemma_joined_step(ps, sep@, i as int);
            }
        }
        i += 1;
    }
    assert(ps.take(parts@.len() as int) == ps);
    r
}

fn member_string(key: &str, value: &str) -> (r: String)
    ensures
        r@ == member(key@, value@),
{
    let mut r = String::new();
    r.append("      ");
    r.append(quoted_string(key).as_str());
    r.append(": ");
    r.append(value);
    r
}

/// The decimal text of a confidence of `m` thousandths.
pub fn confidence_string(m: u16) -> (r: String)
    ensures
        r@ == confidence_text(m as nat),
{
    let mut r = decimal_string((m / 1000) as u64);
    push_char(&mut r, '.');
    let f = m % 1000;
    if f == 0 {
        push_char(&mut r, '0');
    } else if f % 100 == 0 {
        push_char(&mut r, char_from_u32_unchecked_ascii((f / 100) as u32 + 48));
    } else if f % 10 == 0 {
        push_char(&mut r, char_from_u32_unchecked_ascii((f / 100) as u32 + 48));
        push_char(&mut r, char_from_u32_unchecked_ascii(((f / 10) % 10) as u32 + 48));
    } else {
        push_char(&mut r, char_from_u32_unchecked_ascii((f / 100) as u32 + 48));
        push_char(&mut r, char_from_u32_unchecked_ascii(((f / 10) % 10) as u32 + 48));
        push_char(&mut r, char_from_u32_unchecked_ascii((f % 10) as u32 + 48));
    }
    assert(r@ =~= confidence_text(m as nat));
    r
}

fn object_string(members: &Vec<String>) -> (r: String)
    ensures
        r@ == object_text(members@.map_values(|p: String| p@)),
{
    let mut r = String::new();
    r.append("    {\n");
    r.append(join_texts(members, ",\n").as_str());
    r.append("\n    }");
    r
}

fn node_string(n: &ExportNode) -> (r: String)
    ensures
        r@ == object_text(node_members(*n)),
{
    let mut ms: Vec<String> = Vec::new();
    ms.push(member_string("id", quoted_string(n.id.as_str()).as_str()));
    ms.push(member_string("kind", quoted_string(n.kind).as_str()));
    ms.push(member_string("name", quoted_string(n.name.as_str()).as_str()));
    ms.push(member_string("path", quoted_string(n.path.as_str()).as_str()));
    match &n.parent_file {
        Some(p) => ms.push(member_string("parent_file", quoted_string(p.as_str()).as_str())),
        None => {},
    }
    match n.line {
        Some(l) => ms.push(member_string("line", decimal_string(l as u64).as_str())),
        None => {},
    }
    ms.push(member_string("language", quoted_string(n.language.as_str()).as_str()));
    assert(ms@.map_values(|p: String| p@) =~= node_members(*n));
    object_string(&ms)
}

fn edge_string(e: &ExportEdge) -> (r: String)
    ensures
        r@ == object_text(edge_members(*e)),
{
    let mut ms: Vec<String> = Vec::new();
    ms.push(member_string("from", quoted_string(e.from.as_str()).as_str()));
    ms.push(member_string("to", quoted_string(e.to.as_str()).as_str()));
    ms.push(member_string("kind", quoted_string(e.kind).as_str()));
    match e.confidence_milli {
        Some(m) => ms.push(member_string("confidence", confidence_string(m).as_str())),
        None => {},
    }
    assert(ms@.map_values(|p: String| p@) =~= edge_members(*e));
    object_string(&ms)
}

fn list_string(items: &Vec<String>) -> (r: String)
    ensures
        r@ == list_text(items@.map_values(|p: String| p@)),
{
    if items.len() == 0 {
        return "[]".to_owned();
    }
    let mut r = String::new();
    r.append("[\n");
    r.append(join_texts(items, ",\n").as_str());
    r.append("\n  ]");
    r
}

impl ExportGraph {
    /// The graph as indented JSON text: the schema version, then the node
    /// and edge lists in order, each absent value left out.
    pub fn to_json(&self) -> (r: String)
        ensures
            r@ == graph_json(*self),
    {
        let mut ns: Vec<String> = Vec::new();
        let mut i: usize = 0;
        while i < self.nodes.len()
            invariant
                i <= self.nodes@.len(),
                ns@.len() == i,
                forall|k: int| 0 <= k < i ==> (#[trigger] ns@[k])@ == object_text(node_members(self.nodes@[k])),
            decreases self.nodes@.len() - i,
        {
            ns.push(node_string(&self.nodes[i]));
            i += 1;
        }
        let mut es: Vec<String> = Vec::new();
        let mut j: usize = 0;
        while j < self.edges.len()
            invariant
                j <= self.edges@.len(),
                es@.len() == j,
                forall|k: int| 0 <= k < j ==> (#[trigger] es@[k])@ == object_text(edge_members(self.edges@[k])),
            decreases self.edges@.len() - j,
        {
            es.push(edge_string(&self.edges[j]));
            j += 1;
        }
        assert(ns@.map_values(|p: String| p@) =~= self.nodes@.map_values(|n: ExportNode| object_text(node_members(n))));
        assert(es@.map_values(|p: String| p@) =~= self.edges@.map_values(|e: ExportEdge| object_text(edge_members(e))));
        let mut r = String::new();
        r.append("{\n  \"schemaVersion\": ");
        r.append(decimal_string(self.schema_version as u64).as_str());
        r.append(",\n  \"nodes\": ");
        r.append(list_string(&ns).as_str());
        r.append(",\n  \"edges\": ");
        r.append(list_string(&es).as_str());
        r.append("\n}");
        r
    }
}

impl GraphStore {
    /// The exported graph as indented JSON text.
    pub fn export_graph_json(&self) -> (r: Result<String, crate::model::IndexError>)
        ensures
            match r {
                Ok(t) => exists|g: ExportGraph| #[trigger] exported(*self, g) && t@ == graph_json(g),
                Err(_) => false,
            },
    {
        let g = self.export_graph();
        let t = g.to_json();
        assert(exported(*self, g));
        Ok(t)
    }
}

// ---------------------------------------------------------------------------
// Comparing graph JSON regardless of order
// ---------------------------------------------------------------------------

/// The compact JSON text of a value, as `serde_json` writes it.
pub open spec fn json_text(v: JsonValue) -> Seq<char> {
    match v {
        JsonValue::String(s) => quoted(s@),
        _ => value_text(v),
    }
}

/// The compact JSON text of a value.
pub fn json_text_of(v: &JsonValue) -> (r: String)
    ensures
        r@ == json_text(*v),
{
    match v {
        JsonValue::String(s) => quoted_string(s.as_str()),
        _ => value_text_of(v),
    }
}

/// The items of the array member `key` of `v`, or none.
pub open spec fn list_member(v: JsonValue, key: Seq<char>) -> Seq<JsonValue> {
    match opt_array(json_get(v, key)) {
        Some(items) => items,
        None => Seq::empty(),
    }
}

/// The items of a list as JSON text.
pub open spec fn item_texts(items: Seq<JsonValue>) -> Seq<Seq<char>> {
    items.map_values(|v: JsonValue| json_text(v))
}

/// The schema version of a graph (`schemaVersion`, else `schema_version`) as
/// JSON text, `null` when it has none.
pub open spec fn schema_text(v: JsonValue) -> Seq<char> {
    match json_get(v, "schemaVersion"@) {
        Some(x) => json_text(x),
        None => match json_get(v, "schema_version"@) {
            Some(x) => json_text(x),
            None => "null"@,
        },
    }
}

/// A graph as compared: its schema version, and its nodes and its edges each
/// as a multiset of JSON texts, so that their order does not count.
pub open spec fn normalized(v: JsonValue) -> (Seq<char>, Multiset<Seq<char>>, Multiset<Seq<char>>) {
    (
        schema_text(v),
        item_texts(list_member(v, "nodes"@)).to_multiset(),
        item_texts(list_member(v, "edges"@)).to_multiset(),
    )
}

proof fn lemma_insert_remove<A>(m: Multiset<A>, a: A)
    ensures
        m.insert(a).remove(a) == m,
        m.count(a) > 0 ==> m.remove(a).insert(a) == m,
{
    broadcast use vstd::multiset::group_multiset_axioms;
    assert(m.insert(a).remove(a) =~= m);
    if m.count(a) > 0 {
        assert(m.remove(a).insert(a) =~= m);
    }
}

/// Mapping two sequences that hold the same items, in any order, gives two
/// sequences that hold the same items.
proof fn lemma_map_multiset<A, B>(s: Seq<A>, t: Seq<A>, f: spec_fn(A) -> B)
    requires
        s.to_multiset() == t.to_multiset(),
    ensures
        s.map_values(f).to_multiset() == t.map_values(f).to_multiset(),
    decreases s.len(),
{
    broadcast use vstd::seq_lib::group_to_multiset_ensures;
    broadcast use vstd::multiset::group_multiset_axioms;
    if s.len() == 0 {
        assert(s.to_multiset().len() == 0);
        assert(t.to_multiset().len() == t.len());
        assert(t.len() == 0);
        assert(s.map_values(f) =~= t.map_values(f));
    } else {
        let a = s.last();
        let s0 = s.drop_last();
        assert(s =~= s0.push(a));
        assert(s.to_multiset() == s0.to_multiset().insert(a));
        assert(s.contains(a)) by {
            assert(s[s.len() - 1] == a);
        }
        assert(s.to_multiset().count(a) > 0);
        assert(t.to_multiset().count(a) > 0);
        assert(t.contains(a));
        let i = choose|i: int| 0 <= i < t.len() && t[i] == a;
        let t0 = t.remove(i);
        assert(t0.to_multiset() == t.to_multiset().remove(a));
        lemma_insert_remove(s0.to_multiset(), a);
        lemma_map_multiset(s0, t0, f);
        assert(s.map_values(f) =~= s0.map_values(f).push(f(a)));
        assert(t0.map_values(f) =~= t.map_values(f).remove(i));
        assert(t.map_values(f)[i] == f(a));
        assert(t0.map_values(f).to_multiset() == t.map_values(f).to_multiset().remove(f(a)));
        assert(t.map_values(f).contains(f(a)));
        lemma_insert_remove(t.map_values(f).to_multiset(), f(a));
    }
}

/// The comparison of graphs does not depend on order: a graph whose node and
/// edge lists hold the same items as another's, in any order, with the same
/// schema version, is normalized alike, so `graphs_equal` holds of the two.
pub proof fn graphs_equal_ignores_order(a: JsonValue, b: JsonValue)
    requires
        schema_text(a) == schema_text(b),
        list_member(a, "nodes"@).to_multiset() == list_member(b, "nodes"@).to_multiset(),
        list_member(a, "edges"@).to_multiset() == list_member(b, "edges"@).to_multiset(),
    ensures
        normalized(a) == normalized(b),
{
    lemma_map_multiset(list_member(a, "nodes"@), list_member(b, "nodes"@), |v: JsonValue| json_text(v));
    lemma_map_multiset(list_member(a, "edges"@), list_member(b, "edges"@), |v: JsonValue| json_text(v));
}

fn texts_of(v: &JsonValue, key: &str) -> (r: Vec<String>)
    ensures
        r@.map_values(|t: String| t@) == item_texts(list_member(*v, key@)),
{
    let items: Option<&Vec<JsonValue>> = match get(v, key) {
        Some(x) => as_array(x),
        None => None,
    };
    let mut r: Vec<String> = Vec::new();
    match items {
        Some(items) => {
            let mut i: usize = 0;
            while i < items.len()
                invariant
                    i <= items@.len(),
                    r@.len() == i,
                    forall|k: int| 0 <= k < i ==> (#[trigger] r@[k])@ == json_text(items@[k]),
                decreases items@.len() - i,
            {
                r.push(json_text_of(&items[i]));
                i += 1;
            }
            assert(r@.map_values(|t: String| t@) =~= item_texts(items@));
        },
        None => {
            assert(r@.map_values(|t: String| t@) =~= item_texts(list_member(*v, key@)));
        },
    }
    r
}

/// How often `x` occurs among `ts`.
fn count_text(ts: &Vec<String>, x: &str) -> (n: usize)
    ensures
        n == ts@.map_values(|t: String| t@).to_multiset().count(x@),
{
    broadcast use vstd::seq_lib::group_to_multiset_ensures;
    broadcast use vstd::multiset::group_multiset_axioms;
    let ghost tv = ts@.map_values(|t: String| t@);
    let mut n: usize = 0;
    let mut j: usize = 0;
    assert(tv.take(0) =~= Seq::<Seq<char>>::empty());
    while j < ts.len()
        invariant
            j <= ts@.len(),
            tv == ts@.map_values(|t: String| t@),
            n == tv.take(j as int).to_multiset().count(x@),
            n <= j,
        decreases ts@.len() - j,
    {
        assert(tv.take(j + 1) =~= tv.take(j as int).push(tv[j as int]));
        proof {
            vstd::seq_lib::to_multiset_build(tv.take(j as int), tv[j as int]);
        }
        assert(tv.take(j + 1).to_multiset() == tv.take(j as int).to_multiset().insert(tv[j as int]));
        assert(tv[j as int] == ts@[j as int]@);
        if crate::text::str_eq(ts[j].as_str(), x) {
            n += 1;
        }
        j += 1;
    }
    assert(tv.take(ts@.len() as int) =~= tv);
    n
}

/// Whether `a` and `b` hold the same texts, each as often, in any order.
fn same_multiset(a: &Vec<String>, b: &Vec<String>) -> (r: bool)
    ensures
        r == (a@.map_values(|t: String| t@).to_multiset() == b@.map_values(|t: String| t@).to_multiset()),
{
    broadcast use vstd::seq_lib::group_to_multiset_ensures;
    broadcast use vstd::multiset::group_multiset_axioms;
    let ghost av = a@.map_values(|t: String| t@);
    let ghost bv = b@.map_values(|t: String| t@);
    let mut i: usize = 0;
    while i < a.len()
        invariant
            i <= a@.len(),
            av == a@.map_values(|t: String| t@),
            bv == b@.map_values(|t: String| t@),
            forall|k: int| 0 <= k < i ==> av.to_multiset().count(#[trigger] av[k]) == bv.to_multiset().count(av[k]),
        decreases a@.len() - i,
    {
        if count_text(a, a[i].as_str()) != count_text(b, a[i].as_str()) {
            return false;
        }
        i += 1;
    }
    let mut j: usize = 0;
    while j < b.len()
        invariant
            j <= b@.len(),
            av == a@.map_values(|t: String| t@),
            bv == b@.map_values(|t: String| t@),
            forall|k: int| 0 <= k < a@.len() ==> av.to_multiset().count(#[trigger] av[k]) == bv.to_multiset().count(av[k]),
            forall|k: int| 0 <= k < j ==> av.to_multiset().count(#[trigger] bv[k]) == bv.to_multiset().count(bv[k]),
        decreases b@.len() - j,
    {
        if count_text(a, b[j].as_str()) != count_text(b, b[j].as_str()) {
            return false;
        }
        j += 1;
    }
    assert forall|x: Seq<char>| av.to_multiset().count(x) == bv.to_multiset().count(x) by {
        if av.contains(x) {
            let k = choose|k: int| 0 <= k < av.len() && av[k] == x;
        } else if bv.contains(x) {
            let k = choose|k: int| 0 <= k < bv.len() && bv[k] == x;
        }
    }
    assert(av.to_multiset() =~= bv.to_multiset());
    true
}

fn schema_text_of(v: &JsonValue) -> (r: String)
    ensures
        r@ == schema_text(*v),
{
    match get(v, "schemaVersion") {
        Some(x) => json_text_of(x),
        None => match get(v, "schema_version") {
            Some(x) => json_text_of(x),
            None => "null".to_owned(),
        },
    }
}

/// Whether two graph JSON values hold the same schema version, and the same
/// nodes and edges in any order, each item compared as JSON text.
pub fn graphs_equal(expected: &JsonValue, actual: &JsonValue) -> (b: bool)
    ensures
        b == (normalized(*expected) == normalized(*actual)),
{
    let sa = schema_text_of(expected);
    let sb = schema_text_of(actual);
    let na = texts_of(expected, "nodes");
    let nb = texts_of(actual, "nodes");
    let ea = texts_of(expected, "edges");
    let eb = texts_of(actual, "edges");
    let r = crate::text::str_eq(sa.as_str(), sb.as_str()) && same_multiset(&na, &nb) && same_multiset(&ea, &eb);
    proof {
        let x = normalized(*expected);
        let y = normalized(*actual);
        if r {
            assert(x == y);
        } else if x == y {
            assert(x.0 == y.0 && x.1 == y.1 && x.2 == y.2);
        }
    }
    r
}

} // verus!
