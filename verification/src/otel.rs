//! OpenTelemetry trace exports (OTLP JSON or a flat `spans` array) turned
//! into runtime overlays: each span is matched to a function of the graph.
use vstd::prelude::*;
use crate::json::{JsonValue, JsonNumber, json_get, json_str, json_array, opt_str, opt_array, opt_u64, get, as_str, as_array,
    as_u64, member_key};
use crate::text::{lead_char, replace_char, decimal, chars_of, string_of, str_eq, concat, decimal_string};
use crate::store::{GraphStore, opt_text, search_hits, search_keys, sql_limit};
use crate::order::{stably_sorted, lemma_stably_sorted_unique};
use crate::resolve::fn_id;
use crate::framework::enclosing_id;
use crate::model::{GraphNode, dup_vec};
use crate::overlay::{RuntimeOverlay, ObservedPath, has_hit, hit_key, hit_count, distinct_hits, hits_view, path_view,
    paths_view, lemma_hits_push, lemma_hits_update};
use crate::text::texts;

verus! {

/// Why an OpenTelemetry payload could not be imported.
#[derive(Debug)]
pub enum OtelImportError {
    Parse(String),
    NoSpans,
}

impl OtelImportError {
    /// The error as a sentence.
    pub fn message(&self) -> (r: String)
        ensures
            r@ == match self {
                OtelImportError::Parse(m) => m@,
                OtelImportError::NoSpans => "no spans found in OpenTelemetry payload"@,
            },
    {
        match self {
            OtelImportError::Parse(m) => m.clone(),
            OtelImportError::NoSpans => "no spans found in OpenTelemetry payload".to_owned(),
        }
    }
}

// ---------------------------------------------------------------------------
// Numbers and paths
// ---------------------------------------------------------------------------

/// An ASCII digit.
pub open spec fn is_digit(c: char) -> bool {
    '0' <= c && c <= '9'
}

/// The value of a run of decimal digits.
pub open spec fn digits_value(d: Seq<char>) -> nat
    decreases d.len(),
{
    if d.len() == 0 {
        0
    } else {
        digits_value(d.drop_last()) * 10 + ((d.last() as u32) - ('0' as u32)) as nat
    }
}

/// The digits of an unsigned number's text: after a leading `+`, if any
/// digit follows it.
pub open spec fn unsigned_digits(s: Seq<char>) -> Seq<char> {
    if s.len() > 1 && s[0] == '+' {
        s.skip(1)
    } else {
        s
    }
}

/// Every character is an ASCII digit.
pub open spec fn all_digits(d: Seq<char>) -> bool {
    forall|i: int| 0 <= i < d.len() ==> is_digit(#[trigger] d[i])
}

/// `str::parse::<u32>`: decimal digits after an optional `+`, no more than
/// `u32::MAX`.
pub open spec fn parse_u32(s: Seq<char>) -> Option<u32> {
    let d = unsigned_digits(s);
    if d.len() == 0 || !all_digits(d) {
        None
    } else if digits_value(d) > u32::MAX {
        None
    } else {
        Some(digits_value(d) as u32)
    }
}

proof fn lemma_digits_grow(d: Seq<char>, k: int)
    requires
        0 <= k <= d.len(),
        forall|i: int| 0 <= i < d.len() ==> is_digit(#[trigger] d[i]),
    ensures
        digits_value(d.take(k)) <= digits_value(d),
    decreases d.len() - k,
{
    if k < d.len() {
        lemma_digits_grow(d, k + 1);
        assert(d.take(k + 1).drop_last() =~= d.take(k));
    } else {
        assert(d.take(k) =~= d);
    }
}

proof fn lemma_decimal_digits(n: nat)
    ensures
        decimal(n).len() >= 1,
        all_digits(decimal(n)),
        digits_value(decimal(n)) == n,
    decreases n,
{
    if n >= 10 {
        lemma_decimal_digits(n / 10);
        let d = decimal(n);
        let c = crate::text::digit_char(n % 10);
        assert((c as u32) == (n % 10) + 48);
        assert(('0' as u32) == 48);
        assert(d == decimal(n / 10).push(c));
        assert(n == (n / 10) * 10 + n % 10) by (nonlinear_arith);
        assert(d.last() == c);
        assert(d.len() > 0);
        assert(digits_value(d) == digits_value(d.drop_last()) * 10 + ((d.last() as u32) - ('0' as u32)) as nat);
        assert(((c as u32) - ('0' as u32)) as nat == n % 10);
        assert(d.drop_last() =~= decimal(n / 10));
        assert(digits_value(d.drop_last()) == n / 10);
        assert(d.drop_last() =~= decimal(n / 10));
        assert forall|i: int| 0 <= i < d.len() implies is_digit(#[trigger] d[i]) by {
            if i < d.len() - 1 {
                assert(d[i] == decimal(n / 10)[i]);
            }
        }
    } else {
        let d = decimal(n);
        let c = crate::text::digit_char(n);
        assert((c as u32) == n + 48);
        assert(('0' as u32) == 48);
        assert(d.drop_last() =~= Seq::<char>::empty());
        assert(d.last() == c);
        assert(digits_value(d) == digits_value(d.drop_last()) * 10 + ((d.last() as u32) - ('0' as u32)) as nat);
    }
}

/// A line number written in decimal (as symbol ids write it) parses back to
/// itself.
pub proof fn lemma_parse_decimal(n: u32)
    ensures
        parse_u32(decimal(n as nat)) == Some(n),
{
    lemma_decimal_digits(n as nat);
    let d = decimal(n as nat);
    assert(is_digit(d[0]));
    assert(unsigned_digits(d) == d);
}

/// Parses a `u32` as `str::parse` does.
pub fn parse_u32_exec(s: &str) -> (r: Option<u32>)
    ensures
        r == parse_u32(s@),
{
    let cs = chars_of(s);
    let start: usize = if cs.len() > 1 && cs[0] == '+' { 1 } else { 0 };
    let ghost d = unsigned_digits(s@);
    assert(d =~= cs@.skip(start as int));
    if start >= cs.len() {
        return None;
    }
    let mut v: u64 = 0;
    let mut i: usize = start;
    while i < cs.len()
        invariant
            start <= i <= cs.len(),
            cs@ == s@,
            d == cs@.skip(start as int),
            d == unsigned_digits(s@),
            forall|q: int| 0 <= q < i - start ==> is_digit(#[trigger] d[q]),
            v == digits_value(d.take(i - start)),
            v <= u32::MAX,
        decreases cs.len() - i,
    {
        let c = cs[i];
        assert(d[i - start] == c);
        if !('0' <= c && c <= '9') {
            assert(!is_digit(d[i - start]));
            assert(!all_digits(d));
            assert(parse_u32(s@) is None);
            return None;
        }
        assert(d.take(i - start + 1).drop_last() =~= d.take(i - start));
        let nv = v * 10 + ((c as u32) - ('0' as u32)) as u64;
        assert(d.take(i - start + 1).last() == c);
        assert(nv == digits_value(d.take(i - start + 1)));
        if nv > 0xFFFF_FFFFu64 {
            proof {
                assert forall|q: int| 0 <= q < i - start + 1 implies is_digit(#[trigger] d.take(i - start + 1)[q]) by {
                    assert(d.take(i - start + 1)[q] == d[q]);
                }
                if all_digits(d) {
                    lemma_digits_grow(d, i - start + 1);
                }
            }
            assert(parse_u32(s@) is None);
            return None;
        }
        v = nv;
        i += 1;
    }
    assert(d.take(cs.len() - start) =~= d);
    Some(v as u32)
}

/// `s` without its leading `c`s.
pub open spec fn trim_lead(s: Seq<char>, c: char) -> Seq<char> {
    s.skip(lead_char(s, c) as int)
}

/// `s` without its leading `./`s.
pub open spec fn trim_dot_slashes(s: Seq<char>) -> Seq<char>
    decreases s.len(),
{
    if s.len() >= 2 && s[0] == '.' && s[1] == '/' {
        trim_dot_slashes(s.skip(2))
    } else {
        s
    }
}

/// A span's file path as a path of the graph: leading `/`s and `./`s
/// removed, backslashes turned into slashes.
pub open spec fn normalized_repo_path(p: Seq<char>) -> Seq<char> {
    replace_char(trim_dot_slashes(trim_lead(p, '/')), '\\', '/')
}

/// A span's file path as a path of the graph.
pub fn normalize_repo_path(path: &str) -> (r: String)
    ensures
        r@ == normalized_repo_path(path@),
{
    let cs = chars_of(path);
    let mut a: usize = 0;
    assert(cs@.skip(0) =~= cs@);
    while a < cs.len() && cs[a] == '/'
        invariant
            a <= cs.len(),
            cs@ == path@,
            lead_char(cs@, '/') == a + lead_char(cs@.skip(a as int), '/'),
        decreases cs.len() - a,
    {
        assert(cs@.skip(a as int).drop_first() =~= cs@.skip(a + 1));
        a += 1;
    }
    proof {
        if a < cs.len() {
            assert(cs@.skip(a as int)[0] == cs@[a as int]);
        }
        assert(lead_char(cs@.skip(a as int), '/') == 0);
    }
    let mut b: usize = a;
    assert(trim_lead(path@, '/') =~= cs@.skip(a as int));
    while cs.len() - b > 1 && cs[b] == '.' && cs[b + 1] == '/'
        invariant
            a <= b <= cs.len(),
            cs@ == path@,
            trim_dot_slashes(trim_lead(path@, '/')) == trim_dot_slashes(cs@.skip(b as int)),
        decreases cs.len() - b,
    {
        assert(cs@.skip(b as int).skip(2) =~= cs@.skip(b + 2));
        b += 2;
    }
    proof {
        if cs.len() - b > 1 {
            assert(cs@.skip(b as int)[0] == cs@[b as int]);
            assert(cs@.skip(b as int)[1] == cs@[b + 1]);
        }
    }
    let mut out: Vec<char> = Vec::new();
    let mut i: usize = b;
    let ghost t = cs@.skip(b as int);
    while i < cs.len()
        invariant
            b <= i <= cs.len(),
            t == cs@.skip(b as int),
            out@ == replace_char(t, '\\', '/').take(i - b),
        decreases cs.len() - i,
    {
        let c = if cs[i] == '\\' { '/' } else { cs[i] };
        out.push(c);
        assert(replace_char(t, '\\', '/').take(i - b + 1) =~= replace_char(t, '\\', '/').take(i - b).push(c));
        i += 1;
    }
    assert(replace_char(t, '\\', '/').take(cs.len() - b) =~= replace_char(t, '\\', '/'));
    string_of(&out)
}

// ---------------------------------------------------------------------------
// Spans and their attributes
// ---------------------------------------------------------------------------

/// The spans of the scopes among the first `n` scopes.
pub open spec fn scope_spans(scopes: Seq<JsonValue>, n: int) -> Seq<JsonValue>
    decreases n,
{
    if n <= 0 {
        Seq::empty()
    } else {
        scope_spans(scopes, n - 1) + match opt_array(json_get(scopes[n - 1], "spans"@)) {
            Some(spans) => spans,
            None => Seq::empty(),
        }
    }
}

/// The spans of the first `n` resources, scope by scope.
pub open spec fn resource_spans(resources: Seq<JsonValue>, n: int) -> Seq<JsonValue>
    decreases n,
{
    if n <= 0 {
        Seq::empty()
    } else {
        resource_spans(resources, n - 1) + match opt_array(json_get(resources[n - 1], "scopeSpans"@)) {
            Some(scopes) => scope_spans(scopes, scopes.len() as int),
            None => Seq::empty(),
        }
    }
}

/// The spans of a payload: its `spans` array, else those of its
/// `resourceSpans`.
pub open spec fn spans_of(v: JsonValue) -> Seq<JsonValue> {
    match opt_array(json_get(v, "spans"@)) {
        Some(spans) => spans,
        None => match opt_array(json_get(v, "resourceSpans"@)) {
            Some(rs) => resource_spans(rs, rs.len() as int),
            None => Seq::empty(),
        },
    }
}

/// The values referred to.
pub open spec fn derefs(v: Seq<&JsonValue>) -> Seq<JsonValue> {
    v.map_values(|x: &JsonValue| *x)
}

fn append_items<'a>(out: &mut Vec<&'a JsonValue>, items: &'a Vec<JsonValue>)
    ensures
        derefs(final(out)@) == derefs(old(out)@) + items@,
{
    let ghost o0 = derefs(out@);
    let mut i: usize = 0;
    while i < items.len()
        invariant
            i <= items.len(),
            derefs(out@) == o0 + items@.take(i as int),
        decreases items.len() - i,
    {
        let ghost before = out@;
        out.push(&items[i]);
        assert(derefs(out@) =~= derefs(before).push(items@[i as int]));
        assert(items@.take(i + 1) =~= items@.take(i as int).push(items@[i as int]));
        i += 1;
    }
    assert(items@.take(items.len() as int) =~= items@);
}

/// The spans of a payload, in order.
pub fn collect_spans(v: &JsonValue) -> (r: Vec<&JsonValue>)
    ensures
        derefs(r@) == spans_of(*v),
{
    let mut out: Vec<&JsonValue> = Vec::new();
    if let Some(sv) = get(v, "spans") {
        if let Some(spans) = as_array(sv) {
            append_items(&mut out, spans);
            assert(derefs(out@) =~= spans@);
            return out;
        }
    }
    let rs = match get(v, "resourceSpans") {
        Some(x) => match as_array(x) {
            Some(rs) => rs,
            None => {
                return out;
            },
        },
        None => {
            return out;
        },
    };
    let mut i: usize = 0;
    while i < rs.len()
        invariant
            i <= rs.len(),
            derefs(out@) == resource_spans(rs@, i as int),
        decreases rs.len() - i,
    {
        let ghost before = derefs(out@);
        if let Some(sc) = get(&rs[i], "scopeSpans") {
            if let Some(scopes) = as_array(sc) {
                let mut j: usize = 0;
                while j < scopes.len()
                    invariant
                        j <= scopes.len(),
                        derefs(out@) == before + scope_spans(scopes@, j as int),
                    decreases scopes.len() - j,
                {
                    let ghost mid = derefs(out@);
                    if let Some(sp) = get(&scopes[j], "spans") {
                        if let Some(spans) = as_array(sp) {
                            append_items(&mut out, spans);
                        }
                    }
                    assert(derefs(out@) =~= before + scope_spans(scopes@, j + 1));
                    j += 1;
                }
            }
        }
        assert(derefs(out@) =~= resource_spans(rs@, i + 1));
        i += 1;
    }
    out
}

/// The text an attribute value is read as: a string as it is, another value
/// as `serde_json` writes it.
pub open spec fn value_text(v: JsonValue) -> Seq<char> {
    match v {
        JsonValue::Null => "null"@,
        JsonValue::Bool(b) => if b { "true"@ } else { "false"@ },
        JsonValue::Number(JsonNumber::PosInt(n)) => decimal(n as nat),
        JsonValue::Number(JsonNumber::NegInt(n)) => if n < 0 {
            "-"@ + decimal((0 - n) as nat)
        } else {
            decimal(n as nat)
        },
        JsonValue::Number(JsonNumber::Float(t)) => t@,
        JsonValue::String(s) => s@,
        JsonValue::Array(_, t) => t@,
        JsonValue::Object(_, t) => t@,
    }
}

/// The text of an attribute value.
pub fn value_text_of(v: &JsonValue) -> (r: String)
    ensures
        r@ == value_text(*v),
{
    match v {
        JsonValue::Null => "null".to_owned(),
        JsonValue::Bool(b) => if *b { "true".to_owned() } else { "false".to_owned() },
        JsonValue::Number(JsonNumber::PosInt(n)) => decimal_string(*n),
        JsonValue::Number(JsonNumber::NegInt(n)) => {
            if *n < 0 {
                let m: u64 = if *n == i64::MIN { 0x8000_0000_0000_0000u64 } else { (0 - *n) as u64 };
                let digits = decimal_string(m);
                concat("-", digits.as_str())
            } else {
                decimal_string(*n as u64)
            }
        },
        JsonValue::Number(JsonNumber::Float(t)) => t.clone(),
        JsonValue::String(s) => s.clone(),
        JsonValue::Array(_, t) => t.clone(),
        JsonValue::Object(_, t) => t.clone(),
    }
}

/// The string members among the first `n` members of an attributes object.
pub open spec fn member_attrs(ms: Seq<(String, JsonValue)>, n: int) -> Seq<(Seq<char>, Seq<char>)>
    decreases n,
{
    if n <= 0 {
        Seq::empty()
    } else {
        let rest = member_attrs(ms, n - 1);
        match json_str(ms[n - 1].1) {
            Some(s) => rest.push((member_key(ms[n - 1]), s)),
            None => rest,
        }
    }
}

/// `a`, else `b`.
pub open spec fn or_else<T>(a: Option<T>, b: Option<T>) -> Option<T> {
    match a {
        Some(x) => Some(x),
        None => b,
    }
}

/// The value of an OTLP attribute: its `stringValue`, `intValue` or
/// `boolValue`, the first present, as text.
pub open spec fn attr_value(attr: JsonValue) -> Option<Seq<char>> {
    match json_get(attr, "value"@) {
        Some(v) => match or_else(or_else(json_get(v, "stringValue"@), json_get(v, "intValue"@)), json_get(v, "boolValue"@)) {
            Some(x) => Some(value_text(x)),
            None => None,
        },
        None => None,
    }
}

/// The keyed, valued attributes among the first `n` of an OTLP list.
pub open spec fn item_attrs(items: Seq<JsonValue>, n: int) -> Seq<(Seq<char>, Seq<char>)>
    decreases n,
{
    if n <= 0 {
        Seq::empty()
    } else {
        let rest = item_attrs(items, n - 1);
        match opt_str(json_get(items[n - 1], "key"@)) {
            Some(k) => match attr_value(items[n - 1]) {
                Some(t) => rest.push((k, t)),
                None => rest,
            },
            None => rest,
        }
    }
}

/// A span's attributes in order, from an object or an OTLP list.
pub open spec fn span_attrs(span: JsonValue) -> Seq<(Seq<char>, Seq<char>)> {
    match json_get(span, "attributes"@) {
        Some(JsonValue::Object(ms, _)) => member_attrs(ms@, ms@.len() as int),
        Some(JsonValue::Array(items, _)) => item_attrs(items@, items@.len() as int),
        _ => Seq::empty(),
    }
}

/// The value of attribute `key` among the first `n`: the last given.
pub open spec fn attr_lookup(attrs: Seq<(Seq<char>, Seq<char>)>, key: Seq<char>, n: int) -> Option<Seq<char>>
    decreases n,
{
    if n <= 0 {
        None
    } else if attrs[n - 1].0 == key {
        Some(attrs[n - 1].1)
    } else {
        attr_lookup(attrs, key, n - 1)
    }
}

/// The value of attribute `key`.
pub open spec fn attr(attrs: Seq<(Seq<char>, Seq<char>)>, key: Seq<char>) -> Option<Seq<char>> {
    attr_lookup(attrs, key, attrs.len() as int)
}

/// A list of attributes as text pairs.
pub open spec fn attr_view(v: Seq<(String, String)>) -> Seq<(Seq<char>, Seq<char>)> {
    v.map_values(|p: (String, String)| (p.0@, p.1@))
}

fn push_attr(out: &mut Vec<(String, String)>, k: String, v: String)
    ensures
        attr_view(final(out)@) == attr_view(old(out)@).push((k@, v@)),
{
    let ghost before = out@;
    out.push((k, v));
    assert(attr_view(out@) =~= attr_view(before).push((k@, v@)));
}

/// The attributes of a span.
pub fn span_attributes(span: &JsonValue) -> (r: Vec<(String, String)>)
    ensures
        attr_view(r@) == span_attrs(*span),
{
    let mut out: Vec<(String, String)> = Vec::new();
    match get(span, "attributes") {
        Some(JsonValue::Object(ms, _)) => {
            let mut i: usize = 0;
            while i < ms.len()
                invariant
                    i <= ms.len(),
                    attr_view(out@) == member_attrs(ms@, i as int),
                decreases ms.len() - i,
            {
                if let Some(s) = as_str(&ms[i].1) {
                    push_attr(&mut out, ms[i].0.clone(), s.to_owned());
                }
                i += 1;
            }
        },
        Some(JsonValue::Array(items, _)) => {
            let mut i: usize = 0;
            while i < items.len()
                invariant
                    i <= items.len(),
                    attr_view(out@) == item_attrs(items@, i as int),
                decreases items.len() - i,
            {
                let item = &items[i];
                if let Some(kv) = get(item, "key") {
                    if let Some(k) = as_str(kv) {
                        if let Some(v) = get(item, "value") {
                            let picked = match get(v, "stringValue") {
                                Some(x) => Some(x),
                                None => match get(v, "intValue") {
                                    Some(x) => Some(x),
                                    None => get(v, "boolValue"),
                                },
                            };
                            if let Some(x) = picked {
                                push_attr(&mut out, k.to_owned(), value_text_of(x));
                            }
                        }
                    }
                }
                i += 1;
            }
        },
        _ => {},
    }
    out
}

/// The value of attribute `key`.
pub fn lookup_attr(attrs: &Vec<(String, String)>, key: &str) -> (r: Option<String>)
    ensures
        opt_text(r) == attr(attr_view(attrs@), key@),
{
    let ghost av = attr_view(attrs@);
    let mut k: usize = attrs.len();
    while k > 0
        invariant
            k <= attrs.len(),
            av == attr_view(attrs@),
            attr(av, key@) == attr_lookup(av, key@, k as int),
        decreases k,
    {
        assert(av[k - 1] == (attrs@[k - 1].0@, attrs@[k - 1].1@));
        if str_eq(attrs[k - 1].0.as_str(), key) {
            return Some(attrs[k - 1].1.clone());
        }
        k -= 1;
    }
    None
}

// ---------------------------------------------------------------------------
// Matching a span to a node
// ---------------------------------------------------------------------------

/// The first five symbols a search for `name` ranks.
pub open spec fn top_hits(nodes: Seq<GraphNode>, name: Seq<char>) -> Seq<GraphNode> {
    let hits = search_hits(nodes, name);
    let sorted = choose|s: Seq<GraphNode>| stably_sorted(hits, search_keys(hits, name), s);
    sorted.take(sql_limit(5, sorted.len()) as int)
}

/// The id of the first of the first `n` nodes named `name`.
pub open spec fn first_named(ns: Seq<GraphNode>, name: Seq<char>, n: int) -> Option<Seq<char>>
    decreases n,
{
    if n <= 0 {
        None
    } else {
        match first_named(ns, name, n - 1) {
            Some(id) => Some(id),
            None => if ns[n - 1].name@ == name { Some(ns[n - 1].id@) } else { None },
        }
    }
}

/// The symbol named exactly `name` among the top five search results.
pub open spec fn named_symbol(nodes: Seq<GraphNode>, name: Seq<char>) -> Option<Seq<char>> {
    let top = top_hits(nodes, name);
    first_named(top, name, top.len() as int)
}

/// The line a span gives: its `code.line.number` attribute, else its
/// `startLine` (or `start_line`) field.
pub open spec fn span_line(span: JsonValue, attrs: Seq<(Seq<char>, Seq<char>)>) -> Option<u32> {
    let by_attr = match attr(attrs, "code.line.number"@) {
        Some(t) => parse_u32(t),
        None => None,
    };
    match by_attr {
        Some(l) => Some(l),
        None => match opt_u64(or_else(json_get(span, "startLine"@), json_get(span, "start_line"@))) {
            Some(n) => Some(n as u32),
            None => None,
        },
    }
}

/// The node a span ran in: the function its file and function attributes
/// name, else the function enclosing its file and line, else the symbol of
/// its name among the top search results.
pub open spec fn span_node(nodes: Seq<GraphNode>, span: JsonValue) -> Option<Seq<char>> {
    let attrs = span_attrs(span);
    let function = or_else(attr(attrs, "code.function"@), attr(attrs, "function.name"@));
    let file = or_else(attr(attrs, "code.filepath"@), attr(attrs, "code.file.path"@));
    let by_name = match file {
        Some(f) => match function {
            Some(fun) => fn_id(nodes, normalized_repo_path(f), fun),
            None => None,
        },
        None => None,
    };
    let by_line = match file {
        Some(f) => match span_line(span, attrs) {
            Some(l) => enclosing_id(nodes, normalized_repo_path(f), l),
            None => None,
        },
        None => None,
    };
    if by_name is Some {
        by_name
    } else if by_line is Some {
        by_line
    } else {
        match opt_str(json_get(span, "name"@)) {
            Some(name) => named_symbol(nodes, name),
            None => None,
        }
    }
}

fn first_attr(attrs: &Vec<(String, String)>, a: &str, b: &str) -> (r: Option<String>)
    ensures
        opt_text(r) == or_else(attr(attr_view(attrs@), a@), attr(attr_view(attrs@), b@)),
{
    match lookup_attr(attrs, a) {
        Some(x) => Some(x),
        None => lookup_attr(attrs, b),
    }
}

fn first_field<'a>(v: &'a JsonValue, a: &str, b: &str) -> (r: Option<&'a JsonValue>)
    ensures
        match r {
            Some(x) => or_else(json_get(*v, a@), json_get(*v, b@)) == Some(*x),
            None => or_else(json_get(*v, a@), json_get(*v, b@)) is None,
        },
{
    match get(v, a) {
        Some(x) => Some(x),
        None => get(v, b),
    }
}

/// The symbol named exactly `name` among the top five search results.
pub fn named_symbol_of(store: &GraphStore, name: &str) -> (r: Option<String>)
    ensures
        opt_text(r) == named_symbol(store.node_rows(), name@),
{
    let found = store.search_symbols(name, 5);
    proof {
        let hits = search_hits(store.node_rows(), name@);
        let sorted = choose|s: Seq<GraphNode>| stably_sorted(hits, search_keys(hits, name@), s) && found@ == s.take(sql_limit(5, s.len()) as int);
        let c = choose|s: Seq<GraphNode>| stably_sorted(hits, search_keys(hits, name@), s);
        lemma_stably_sorted_unique(hits, search_keys(hits, name@), sorted, c);
        assert(found@ == top_hits(store.node_rows(), name@));
    }
    let ghost top = found@;
    let mut i: usize = 0;
    while i < found.len()
        invariant
            i <= found.len(),
            top == found@,
            top == top_hits(store.node_rows(), name@),
            first_named(top, name@, i as int) is None,
        decreases found.len() - i,
    {
        if str_eq(found[i].name.as_str(), name) {
            proof {
                lemma_first_named_from(top, name@, i as int + 1, top.len() as int);
            }
            return Some(found[i].id.clone());
        }
        i += 1;
    }
    None
}

proof fn lemma_first_named_from(ns: Seq<GraphNode>, name: Seq<char>, m: int, n: int)
    requires
        1 <= m <= n <= ns.len(),
        first_named(ns, name, m - 1) is None,
        ns[m - 1].name@ == name,
    ensures
        first_named(ns, name, n) == Some(ns[m - 1].id@),
    decreases n - m,
{
    if n > m {
        lemma_first_named_from(ns, name, m, n - 1);
    }
}

/// The node a span ran in.
pub fn resolve_span_node(store: &GraphStore, span: &JsonValue) -> (r: Option<String>)
    ensures
        opt_text(r) == span_node(store.node_rows(), *span),
{
    let attrs = span_attributes(span);
    let function = first_attr(&attrs, "code.function", "function.name");
    let file = first_attr(&attrs, "code.filepath", "code.file.path");
    if let Some(f) = &file {
        if let Some(fun) = &function {
            let normalized = normalize_repo_path(f.as_str());
            if let Some(id) = store.find_function_symbol_id(normalized.as_str(), fun.as_str()) {
                return Some(id);
            }
        }
    }
    if let Some(f) = &file {
        let by_attr = match lookup_attr(&attrs, "code.line.number") {
            Some(t) => parse_u32_exec(t.as_str()),
            None => None,
        };
        let line = match by_attr {
            Some(l) => Some(l),
            None => match first_field(span, "startLine", "start_line") {
                Some(x) => match as_u64(x) {
                    Some(n) => Some(n as u32),
                    None => None,
                },
                None => None,
            },
        };
        let normalized = normalize_repo_path(f.as_str());
        if let Some(l) = line {
            if let Some(id) = store.find_enclosing_function(normalized.as_str(), l) {
                return Some(id);
            }
        }
    }
    match get(span, "name") {
        Some(n) => match as_str(n) {
            Some(name) => named_symbol_of(store, name),
            None => None,
        },
        None => None,
    }
}

// ---------------------------------------------------------------------------
// Importing a payload
// ---------------------------------------------------------------------------

/// The trace of a span: its `traceId` (or `trace_id`), `default` when that
/// is not a string.
pub open spec fn trace_of(span: JsonValue) -> Seq<char> {
    match opt_str(or_else(json_get(span, "traceId"@), json_get(span, "trace_id"@))) {
        Some(t) => t,
        None => "default"@,
    }
}

/// The first of the first `n` traces with id `tid`.
pub open spec fn trace_slot(traces: Seq<(Seq<char>, Seq<Seq<char>>)>, tid: Seq<char>, n: int) -> Option<int>
    decreases n,
{
    if n <= 0 {
        None
    } else {
        match trace_slot(traces, tid, n - 1) {
            Some(k) => Some(k),
            None => if traces[n - 1].0 == tid { Some(n - 1) } else { None },
        }
    }
}

/// `traces` with `id` appended to trace `tid`, which is added when new.
pub open spec fn add_to_trace(traces: Seq<(Seq<char>, Seq<Seq<char>>)>, tid: Seq<char>, id: Seq<char>) -> Seq<(Seq<char>, Seq<Seq<char>>)> {
    match trace_slot(traces, tid, traces.len() as int) {
        Some(k) => traces.update(k, (tid, traces[k].1.push(id))),
        None => traces.push((tid, seq![id])),
    }
}

/// `m` with one more hit for `id`.
pub open spec fn count_hit(m: Map<Seq<char>, u64>, id: Seq<char>) -> Map<Seq<char>, u64> {
    if m.contains_key(id) {
        m.insert(id, (m[id] + 1) as u64)
    } else {
        m.insert(id, 1u64)
    }
}

/// Hits per node over the first `n` spans.
pub open spec fn import_hits(nodes: Seq<GraphNode>, spans: Seq<JsonValue>, n: int) -> Map<Seq<char>, u64>
    decreases n,
{
    if n <= 0 {
        Map::empty()
    } else {
        let m = import_hits(nodes, spans, n - 1);
        match span_node(nodes, spans[n - 1]) {
            Some(id) => count_hit(m, id),
            None => m,
        }
    }
}

/// The nodes of each trace over the first `n` spans, traces in the order
/// they first occur.
pub open spec fn import_traces(nodes: Seq<GraphNode>, spans: Seq<JsonValue>, n: int) -> Seq<(Seq<char>, Seq<Seq<char>>)>
    decreases n,
{
    if n <= 0 {
        Seq::empty()
    } else {
        let t = import_traces(nodes, spans, n - 1);
        match span_node(nodes, spans[n - 1]) {
            Some(id) => add_to_trace(t, trace_of(spans[n - 1]), id),
            None => t,
        }
    }
}

/// The path observed for a trace: labelled `trace:<id>`, taken once.
pub open spec fn trace_path(t: (Seq<char>, Seq<Seq<char>>)) -> (Option<Seq<char>>, Seq<Seq<char>>, u64) {
    (Some("trace:"@ + t.0), t.1, 1u64)
}

/// The payload holds spans to import: `resourceSpans`, or a non-empty
/// `spans` array.
pub open spec fn otel_payload(v: JsonValue) -> bool {
    json_get(v, "resourceSpans"@) is Some || match opt_array(json_get(v, "spans"@)) {
        Some(s) => s.len() > 0,
        None => false,
    }
}

/// Whether a payload is an OpenTelemetry export rather than a native overlay.
pub fn is_otel_payload(v: &JsonValue) -> (b: bool)
    ensures
        b == otel_payload(*v),
{
    if get(v, "resourceSpans").is_some() {
        return true;
    }
    match get(v, "spans") {
        Some(s) => match as_array(s) {
            Some(items) => items.len() > 0,
            None => false,
        },
        None => false,
    }
}

/// The traces as text.
pub open spec fn traces_view(ids: Seq<String>, rows: Seq<Vec<String>>) -> Seq<(Seq<char>, Seq<Seq<char>>)> {
    Seq::new(ids.len(), |k: int| (ids[k]@, texts(rows[k]@)))
}

fn add_hit(hits: &mut Vec<(String, u64)>, id: &str, bound: u64)
    requires
        distinct_hits(old(hits)@),
        bound < u64::MAX,
        forall|k: int| 0 <= k < old(hits)@.len() ==> hit_count(#[trigger] old(hits)@[k]) <= bound,
    ensures
        distinct_hits(final(hits)@),
        hits_view(final(hits)@) == count_hit(hits_view(old(hits)@), id@),
        forall|k: int| 0 <= k < final(hits)@.len() ==> hit_count(#[trigger] final(hits)@[k]) <= bound + 1,
{
    let ghost v = hits@;
    let mut k: usize = 0;
    while k < hits.len()
        invariant
            k <= hits.len(),
            hits@ == v,
            v == old(hits)@,
            distinct_hits(v),
            bound < u64::MAX,
            forall|q: int| 0 <= q < v.len() ==> hit_count(#[trigger] v[q]) <= bound,
            forall|q: int| 0 <= q < k ==> hit_key(#[trigger] v[q]) != id@,
        decreases hits.len() - k,
    {
        if str_eq(hits[k].0.as_str(), id) {
            assert(hit_count(v[k as int]) <= bound);
            let c = hits[k].1 + 1;
            proof {
                lemma_hits_update(v, k as int, c);
            }
            let key = hits[k].0.clone();
            hits.set(k, (key, c));
            assert(hits@ == v.update(k as int, (v[k as int].0, c)));
            assert forall|q: int| 0 <= q < hits@.len() implies hit_count(#[trigger] hits@[q]) <= bound + 1 by {
                if q != k {
                    assert(hits@[q] == v[q]);
                }
            }
            return;
        }
        k += 1;
    }
    let owned = id.to_owned();
    proof {
        assert(!has_hit(v, id@));
        lemma_hits_push(v, (owned, 1u64));
    }
    hits.push((owned, 1u64));
    assert forall|q: int| 0 <= q < hits@.len() implies hit_count(#[trigger] hits@[q]) <= bound + 1 by {
        if q < v.len() {
            assert(hits@[q] == v[q]);
        }
    }
}

fn add_trace_node(ids: &mut Vec<String>, rows: &mut Vec<Vec<String>>, tid: &str, node: String)
    requires
        old(ids)@.len() == old(rows)@.len(),
    ensures
        final(ids)@.len() == final(rows)@.len(),
        traces_view(final(ids)@, final(rows)@) == add_to_trace(traces_view(old(ids)@, old(rows)@), tid@, node@),
{
    let ghost t0 = traces_view(ids@, rows@);
    let mut k: usize = 0;
    while k < ids.len()
        invariant
            k <= ids.len(),
            ids@.len() == rows@.len(),
            ids@ == old(ids)@,
            rows@ == old(rows)@,
            t0 == traces_view(ids@, rows@),
            trace_slot(t0, tid@, k as int) is None,
        decreases ids.len() - k,
    {
        if str_eq(ids[k].as_str(), tid) {
            proof {
                lemma_trace_slot_from(t0, tid@, k as int + 1, t0.len() as int);
            }
            let mut row = dup_vec(&rows[k]);
            let ghost r0 = row@;
            row.push(node);
            rows.set(k, row);
            proof {
                assert(texts(r0.push(node)) =~= texts(r0).push(node@));
                assert(traces_view(ids@, rows@) =~= t0.update(k as int, (tid@, t0[k as int].1.push(node@))));
            }
            return;
        }
        k += 1;
    }
    let mut row: Vec<String> = Vec::new();
    let ghost nv = node@;
    row.push(node);
    ids.push(tid.to_owned());
    rows.push(row);
    proof {
        assert(texts(row@) =~= seq![nv]);
        assert(traces_view(ids@, rows@) =~= t0.push((tid@, seq![nv])));
    }
}

proof fn lemma_trace_slot_from(t: Seq<(Seq<char>, Seq<Seq<char>>)>, tid: Seq<char>, m: int, n: int)
    requires
        1 <= m <= n <= t.len(),
        trace_slot(t, tid, m - 1) is None,
        t[m - 1].0 == tid,
    ensures
        trace_slot(t, tid, n) == Some(m - 1),
    decreases n - m,
{
    if n > m {
        lemma_trace_slot_from(t, tid, m, n - 1);
    }
}

/// Turns an OpenTelemetry export into a runtime overlay: hits per node its
/// spans ran in, and one path per trace, nodes in span order.
pub fn otel_json_to_overlay(value: &JsonValue, store: &GraphStore) -> (r: Result<RuntimeOverlay, OtelImportError>)
    ensures
        ({
            let spans = spans_of(*value);
            let nodes = store.node_rows();
            if spans.len() == 0 {
                r matches Err(OtelImportError::NoSpans)
            } else {
                r matches Ok(o) && o.schema_version == 1 && o.wf()
                    && hits_view(o.node_hits@) == import_hits(nodes, spans, spans.len() as int)
                    && paths_view(o.paths@) == import_traces(nodes, spans, spans.len() as int).map_values(|t: (Seq<char>, Seq<Seq<char>>)| trace_path(t))
            }
        }),
{
    let spans = collect_spans(value);
    if spans.len() == 0 {
        return Err(OtelImportError::NoSpans);
    }
    let ghost sv = derefs(spans@);
    let ghost nodes = store.node_rows();
    let mut hits: Vec<(String, u64)> = Vec::new();
    let mut ids: Vec<String> = Vec::new();
    let mut rows: Vec<Vec<String>> = Vec::new();
    let mut i: usize = 0;
    while i < spans.len()
        invariant
            i <= spans.len(),
            sv == derefs(spans@),
            nodes == store.node_rows(),
            distinct_hits(hits@),
            forall|k: int| 0 <= k < hits@.len() ==> hit_count(#[trigger] hits@[k]) <= i,
            hits_view(hits@) == import_hits(nodes, sv, i as int),
            ids@.len() == rows@.len(),
            traces_view(ids@, rows@) == import_traces(nodes, sv, i as int),
        decreases spans.len() - i,
    {
        let span = spans[i];
        assert(sv[i as int] == *span);
        if let Some(node) = resolve_span_node(store, span) {
            add_hit(&mut hits, node.as_str(), i as u64);
            let tid = match first_field(span, "traceId", "trace_id") {
                Some(x) => match as_str(x) {
                    Some(t) => t.to_owned(),
                    None => "default".to_owned(),
                },
                None => "default".to_owned(),
            };
            assert(tid@ == trace_of(sv[i as int]));
            add_trace_node(&mut ids, &mut rows, tid.as_str(), node);
        }
        i += 1;
    }
    let mut paths: Vec<ObservedPath> = Vec::new();
    let ghost tv = traces_view(ids@, rows@);
    let mut k: usize = 0;
    while k < ids.len()
        invariant
            k <= ids.len(),
            ids@.len() == rows@.len(),
            tv == traces_view(ids@, rows@),
            paths_view(paths@) == tv.take(k as int).map_values(|t: (Seq<char>, Seq<Seq<char>>)| trace_path(t)),
        decreases ids.len() - k,
    {
        let ghost before = paths@;
        let p = ObservedPath { label: Some(concat("trace:", ids[k].as_str())), node_ids: dup_vec(&rows[k]), hits: 1 };
        paths.push(p);
        assert(paths_view(paths@) =~= paths_view(before).push(path_view(p)));
        assert(tv.take(k + 1) =~= tv.take(k as int).push(tv[k as int]));
        assert(tv.take(k + 1).map_values(|t: (Seq<char>, Seq<Seq<char>>)| trace_path(t)) =~= tv.take(k as int).map_values(|t: (Seq<char>, Seq<Seq<char>>)| trace_path(t)).push(trace_path(tv[k as int])));
        k += 1;
    }
    assert(tv.take(ids.len() as int) =~= tv);
    Ok(RuntimeOverlay { schema_version: 1, node_hits: hits, paths })
}

} // verus!
