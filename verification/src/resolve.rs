//! Resolution of `CALLS` and `IMPORTS` relations from syntax trees, import
//! statements and the symbols already in the store.
use vstd::prelude::*;
use vstd::string::StringSliceAdditionalSpecFns;
use crate::model::{Dup, EdgeKind, NodeKind, ResolvedEdge, symbol_id, symbol_id_text, node_id_for_path, node_id_text};
use crate::store::{GraphStore, first_id_by_line, function_named, import_mentioning, opt_text};
use crate::ingest::has_node;
use crate::syntax::{Grammar, parse_tree, parses, parsed};
use crate::syntax::{SyntaxTree, SyntaxNode, source_span};
use crate::text::{is_suffix, ends_with, lines_of, lines_chars, split_once, split_once_chars, strip_prefix, strip_prefix_chars, lead_char, trail_char, chars_of, str_eq, seq_eq, trim, trim_str, trim_chars, string_of, replace_char, replace_char_chars,
    split_char, split_on_char, views, is_prefix, starts_with, contains_text, contains, subvec};
use crate::walk::{last_index_of, last_index, extension_of, file_name_of, file_name, extension, detect_language, language_of_path};
use crate::order::{KeyPart, KeyView, key_view, key_views, sort_by_keys, stably_sorted};

pub mod python;
pub mod typescript;
pub mod go;

verus! {

// ---------------------------------------------------------------------------
// Walking syntax trees
// ---------------------------------------------------------------------------

/// The nearest proper ancestor of node `i` whose kind is one of `kinds`.
pub open spec fn nearest_enclosing(t: SyntaxTree, i: int, kinds: Seq<Seq<char>>) -> Option<int>
    decreases i,
{
    if !(0 <= i < t.nodes@.len()) {
        None
    } else {
        match t.nodes@[i].parent {
            None => None,
            Some(p) => if !(0 <= p < i) {
                None
            } else if kinds.contains(t.nodes@[p as int].kind@) {
                Some(p as int)
            } else {
                nearest_enclosing(t, p as int, kinds)
            },
        }
    }
}

/// The first node after `from` (up to `to`) that is a child of `i` under `field`.
pub open spec fn field_child_in(t: SyntaxTree, i: int, field: Seq<char>, from: int, to: int) -> Option<int>
    decreases to - from,
{
    if from >= to {
        None
    } else if t.nodes@[from].parent == Some(i as usize) && opt_text(t.nodes@[from].field) == Some(field) {
        Some(from)
    } else {
        field_child_in(t, i, field, from + 1, to)
    }
}

/// `child_by_field_name`: the first child of `i` under `field`.
pub open spec fn field_child(t: SyntaxTree, i: int, field: Seq<char>) -> Option<int> {
    field_child_in(t, i, field, i + 1, t.nodes@.len() as int)
}

/// The first named child of `i` of kind `kind`.
pub open spec fn kind_child_in(t: SyntaxTree, i: int, kind: Seq<char>, from: int, to: int) -> Option<int>
    decreases to - from,
{
    if from >= to {
        None
    } else if t.nodes@[from].parent == Some(i as usize) && t.nodes@[from].named && t.nodes@[from].kind@ == kind {
        Some(from)
    } else {
        kind_child_in(t, i, kind, from + 1, to)
    }
}

fn enclosing(t: &SyntaxTree, i: usize, kinds: &Vec<&'static str>) -> (r: Option<usize>)
    requires
        i < t.nodes@.len(),
    ensures
        match r {
            Some(p) => nearest_enclosing(*t, i as int, kinds@.map_values(|k: &'static str| k@)) == Some(p as int) && p < t.nodes@.len(),
            None => nearest_enclosing(*t, i as int, kinds@.map_values(|k: &'static str| k@)) is None,
        },
{
    let ghost ks = kinds@.map_values(|k: &'static str| k@);
    let mut cur: usize = i;
    while cur < t.nodes.len()
        invariant
            cur < t.nodes@.len(),
            ks == kinds@.map_values(|k: &'static str| k@),
            nearest_enclosing(*t, i as int, ks) == nearest_enclosing(*t, cur as int, ks),
        decreases cur,
    {
        let p = match t.nodes[cur].parent {
            Some(p) => p,
            None => {
                return None;
            },
        };
        if p >= cur {
            return None;
        }
        let mut k: usize = 0;
        let mut hit = false;
        while k < kinds.len()
            invariant
                k <= kinds.len(),
                p < t.nodes@.len(),
                ks == kinds@.map_values(|k: &'static str| k@),
                hit == exists|q: int| 0 <= q < k && ks[q] == t.nodes@[p as int].kind@,
            decreases kinds.len() - k,
        {
            assert(ks[k as int] == kinds@[k as int]@);
            if str_eq(t.nodes[p].kind.as_str(), kinds[k]) {
                hit = true;
            }
            k += 1;
        }
        proof {
            if hit {
                let q = choose|q: int| 0 <= q < kinds.len() && ks[q] == t.nodes@[p as int].kind@;
                assert(ks.contains(t.nodes@[p as int].kind@));
            } else {
                assert(!ks.contains(t.nodes@[p as int].kind@));
            }
        }
        if hit {
            return Some(p);
        }
        cur = p;
    }
    None
}

pub fn field_child_exec(t: &SyntaxTree, i: usize, field: &str) -> (r: Option<usize>)
    ensures
        match r {
            Some(j) => field_child(*t, i as int, field@) == Some(j as int) && j < t.nodes@.len(),
            None => field_child(*t, i as int, field@) is None,
        },
{
    if i >= t.nodes.len() {
        return None;
    }
    let mut j: usize = i + 1;
    while j < t.nodes.len()
        invariant
            i < t.nodes@.len(),
            i + 1 <= j <= t.nodes@.len(),
            field_child(*t, i as int, field@) == field_child_in(*t, i as int, field@, j as int, t.nodes@.len() as int),
        decreases t.nodes.len() - j,
    {
        let n = &t.nodes[j];
        let here = match n.parent {
            Some(p) => p == i && match &n.field {
                Some(f) => str_eq(f.as_str(), field),
                None => false,
            },
            None => false,
        };
        if here {
            return Some(j);
        }
        j += 1;
    }
    None
}

fn kind_child_exec(t: &SyntaxTree, i: usize, kind: &str) -> (r: Option<usize>)
    ensures
        match r {
            Some(j) => kind_child_in(*t, i as int, kind@, i + 1, t.nodes@.len() as int) == Some(j as int) && j < t.nodes@.len(),
            None => kind_child_in(*t, i as int, kind@, i + 1, t.nodes@.len() as int) is None,
        },
{
    if i >= t.nodes.len() {
        return None;
    }
    let mut j: usize = i + 1;
    while j < t.nodes.len()
        invariant
            i < t.nodes@.len(),
            i + 1 <= j <= t.nodes@.len(),
            kind_child_in(*t, i as int, kind@, i + 1, t.nodes@.len() as int) == kind_child_in(*t, i as int, kind@, j as int, t.nodes@.len() as int),
        decreases t.nodes.len() - j,
    {
        let n = &t.nodes[j];
        let here = match n.parent {
            Some(p) => p == i && n.named && str_eq(n.kind.as_str(), kind),
            None => false,
        };
        if here {
            return Some(j);
        }
        j += 1;
    }
    None
}

// ---------------------------------------------------------------------------
// Call sites
// ---------------------------------------------------------------------------

/// Where a call sits: outside any function, in a function without a name,
/// or in the function of that name starting on that line.
pub enum Caller {
    Outside,
    Unnamed,
    Named(String, u32),
}

pub ghost enum CallerView {
    Outside,
    Unnamed,
    Named(Seq<char>, u32),
}

/// A call of a plain identifier: the callee's name and the calling function.
pub struct CallSite {
    pub callee: String,
    pub caller: Caller,
}

/// How a grammar writes a call: the call node's kind, the callee identifier
/// (under a field, or as the first child of its kind), and the kinds of
/// function that enclose calls.
pub struct CallShape {
    pub call_kind: &'static str,
    pub callee_field: Option<&'static str>,
    pub callee_kind: &'static str,
    pub function_kind: &'static str,
    pub other_function_kind: Option<&'static str>,
}

/// The kinds of function node of a call shape.
pub open spec fn shape_function_kinds(shape: CallShape) -> Seq<Seq<char>> {
    match shape.other_function_kind {
        Some(o) => seq![shape.function_kind@, o@],
        None => seq![shape.function_kind@],
    }
}

fn function_kinds(shape: &CallShape) -> (r: Vec<&'static str>)
    ensures
        r@.map_values(|k: &'static str| k@) == shape_function_kinds(*shape),
{
    let mut r: Vec<&'static str> = Vec::new();
    r.push(shape.function_kind);
    if let Some(o) = shape.other_function_kind {
        r.push(o);
    }
    assert(r@.map_values(|k: &'static str| k@) =~= shape_function_kinds(*shape));
    r
}

pub open spec fn call_site_view(c: CallSite) -> (Seq<char>, CallerView) {
    (c.callee@, match c.caller {
        Caller::Outside => CallerView::Outside,
        Caller::Unnamed => CallerView::Unnamed,
        Caller::Named(n, l) => CallerView::Named(n@, l),
    })
}

/// The callee node of a call node `j`, when the call is of a plain identifier.
pub open spec fn callee_of(t: SyntaxTree, shape: CallShape, j: int) -> Option<int> {
    if !(0 <= j < t.nodes@.len() && t.nodes@[j].named && t.nodes@[j].kind@ == shape.call_kind@) {
        None
    } else {
        match shape.callee_field {
            Some(f) => match field_child(t, j, f@) {
                Some(c) => if t.nodes@[c].named && t.nodes@[c].kind@ == shape.callee_kind@ {
                    Some(c)
                } else {
                    None
                },
                None => None,
            },
            None => kind_child_in(t, j, shape.callee_kind@, j + 1, t.nodes@.len() as int),
        }
    }
}

/// The calling function of call node `j`.
pub open spec fn caller_of(t: SyntaxTree, bytes: Seq<u8>, shape: CallShape, j: int) -> CallerView {
    match nearest_enclosing(t, j, shape_function_kinds(shape)) {
        None => CallerView::Outside,
        Some(f) => match field_child(t, f, "name"@) {
            None => CallerView::Unnamed,
            Some(n) => CallerView::Named(trim(t.text(bytes, n)), (t.nodes@[f].start_row + 1) as u32),
        },
    }
}

/// The call sites among the first `n` nodes, in document order.
pub open spec fn call_sites_upto(t: SyntaxTree, bytes: Seq<u8>, shape: CallShape, n: int) -> Seq<(Seq<char>, CallerView)>
    decreases n,
{
    if n <= 0 {
        Seq::empty()
    } else {
        let rest = call_sites_upto(t, bytes, shape, n - 1);
        match callee_of(t, shape, n - 1) {
            Some(c) => rest.push((trim(t.text(bytes, c)), caller_of(t, bytes, shape, n - 1))),
            None => rest,
        }
    }
}

pub open spec fn call_site_views(v: Seq<CallSite>) -> Seq<(Seq<char>, CallerView)> {
    v.map_values(|c: CallSite| call_site_view(c))
}

/// The calls of plain identifiers in a tree, in document order, each with its
/// trimmed callee name and calling function.
pub fn call_sites(t: &SyntaxTree, source: &str, shape: &CallShape) -> (r: Vec<CallSite>)
    requires
        t.wf(source.spec_bytes()),
    ensures
        call_site_views(r@) == call_sites_upto(*t, source.spec_bytes(), *shape, t.nodes@.len() as int),
{
    let ghost bytes = source.spec_bytes();
    let kinds = function_kinds(shape);
    let mut out: Vec<CallSite> = Vec::new();
    let mut j: usize = 0;
    while j < t.nodes.len()
        invariant
            j <= t.nodes.len(),
            t.wf(bytes),
            bytes == source.spec_bytes(),
            call_site_views(out@) == call_sites_upto(*t, bytes, *shape, j as int),
            kinds@.map_values(|k: &'static str| k@) == shape_function_kinds(*shape),
        decreases t.nodes.len() - j,
    {
        let n = &t.nodes[j];
        let callee = if n.named && str_eq(n.kind.as_str(), shape.call_kind) {
            match shape.callee_field {
                Some(f) => match field_child_exec(t, j, f) {
                    Some(c) => if t.nodes[c].named && str_eq(t.nodes[c].kind.as_str(), shape.callee_kind) {
                        Some(c)
                    } else {
                        None
                    },
                    None => None,
                },
                None => kind_child_exec(t, j, shape.callee_kind),
            }
        } else {
            None
        };
        assert(match callee {
            Some(c) => callee_of(*t, *shape, j as int) == Some(c as int),
            None => callee_of(*t, *shape, j as int) is None,
        });
        if let Some(c) = callee {
            let cn = &t.nodes[c];
            let name = trim_str(source_span(source, cn.start_byte, cn.end_byte).as_str());
            let caller = match enclosing(t, j, &kinds) {
                None => Caller::Outside,
                Some(f) => match field_child_exec(t, f, "name") {
                    None => Caller::Unnamed,
                    Some(nm) => {
                        let nn = &t.nodes[nm];
                        Caller::Named(
                            trim_str(source_span(source, nn.start_byte, nn.end_byte).as_str()),
                            t.nodes[f].start_row + 1,
                        )
                    },
                },
            };
            let site = CallSite { callee: name, caller };
            assert(call_site_view(site) == (trim(t.text(bytes, c as int)), caller_of(*t, bytes, *shape, j as int)));
            let ghost before = out@;
            out.push(site);
            assert(call_site_views(out@) =~= call_site_views(before).push(call_site_view(site)));
        }
        j += 1;
    }
    out
}


// ---------------------------------------------------------------------------
// Module paths
// ---------------------------------------------------------------------------

/// The directory part of a path (`Path::parent`), empty at the top level.
pub open spec fn parent_text(p: Seq<char>) -> Seq<char> {
    let k = last_index_of(p, '/');
    if k < 0 {
        Seq::empty()
    } else {
        p.take(k)
    }
}

/// `Path::join`: an absolute `child` replaces the base; a separator is put
/// between them unless the base is empty or ends with one.
pub open spec fn join_path(base: Seq<char>, child: Seq<char>) -> Seq<char> {
    if child.len() > 0 && child[0] == '/' {
        child
    } else if base.len() == 0 {
        child
    } else if base.last() == '/' {
        base + child
    } else {
        base + "/"@ + child
    }
}

/// A `..` component.
pub open spec fn has_parent_component(p: Seq<char>) -> bool {
    split_char(p, '/').contains(".."@)
}

/// The file a Python module names, next to the importing file; none when
/// the path would climb out with `..`.
pub open spec fn py_module_file(importer: Seq<char>, module: Seq<char>) -> Option<Seq<char>> {
    let c = join_path(parent_text(importer), replace_char(module, '.', '/') + ".py"@);
    if has_parent_component(c) {
        None
    } else {
        Some(c)
    }
}

/// `trim_start_matches("./")`.
pub open spec fn strip_dot_slash(s: Seq<char>) -> Seq<char>
    decreases s.len(),
{
    if s.len() >= 2 && s[0] == '.' && s[1] == '/' {
        strip_dot_slash(s.skip(2))
    } else {
        s
    }
}

/// The file a relative TypeScript import names: the module joined to the
/// importer's directory, `.ts` added when it has no extension; none for a
/// package import or a path that climbs out with `..`.
pub open spec fn ts_module_file(importer: Seq<char>, module: Seq<char>) -> Option<Seq<char>> {
    if !(module.len() > 0 && module[0] == '.') {
        None
    } else {
        let j = join_path(parent_text(importer), strip_dot_slash(module));
        if has_parent_component(j) {
            None
        } else if extension_of(file_name_of(j)) is Some {
            Some(j)
        } else {
            Some(j + ".ts"@)
        }
    }
}

fn parent_chars(p: &[char]) -> (r: Vec<char>)
    ensures
        r@ == parent_text(p@),
{
    match last_index(p, '/') {
        Some(k) => subvec(p, 0, k),
        None => Vec::new(),
    }
}

pub fn join_chars(base: &Vec<char>, child: &Vec<char>) -> (r: Vec<char>)
    ensures
        r@ == join_path(base@, child@),
{
    if child.len() > 0 && child[0] == '/' {
        child.clone()
    } else if base.len() == 0 {
        child.clone()
    } else {
        let mut r = base.clone();
        let ghost b = base@;
        let ghost sep: Seq<char> = if b.last() == '/' { Seq::empty() } else { "/"@ };
        proof {
            reveal_strlit("/");
        }
        if base[base.len() - 1] != '/' {
            r.push('/');
        }
        assert(r@ =~= b + sep + child@.take(0));
        let mut i: usize = 0;
        while i < child.len()
            invariant
                i <= child.len(),
                r@ == b + sep + child@.take(i as int),
            decreases child.len() - i,
        {
            r.push(child[i]);
            assert(child@.take(i + 1) == child@.take(i as int).push(child@[i as int]));
            assert(r@ =~= b + sep + child@.take(i + 1));
            i += 1;
        }
        assert(child@.take(child.len() as int) =~= child@);
        assert(b + sep + child@ == join_path(b, child@));
        r
    }
}

fn has_parent_exec(p: &[char]) -> (b: bool)
    ensures
        b == has_parent_component(p@),
{
    let parts = split_on_char(p, '/');
    let dots = chars_of("..");
    let mut i: usize = 0;
    while i < parts.len()
        invariant
            i <= parts.len(),
            views(parts@) == split_char(p@, '/'),
            dots@ == ".."@,
            forall|k: int| 0 <= k < i ==> parts@[k]@ != ".."@,
        decreases parts.len() - i,
    {
        if seq_eq(&parts[i], &dots) {
            assert(views(parts@)[i as int] == parts@[i as int]@);
            return true;
        }
        i += 1;
    }
    proof {
        let sp = split_char(p@, '/');
        if sp.contains(".."@) {
            let k = choose|k: int| 0 <= k < sp.len() && sp[k] == ".."@;
            assert(views(parts@)[k] == parts@[k]@);
        }
    }
    false
}

fn append_text(v: &mut Vec<char>, s: &str)
    ensures
        final(v)@ == old(v)@ + s@,
{
    let cs = chars_of(s);
    let ghost v0 = v@;
    let mut i: usize = 0;
    while i < cs.len()
        invariant
            i <= cs.len(),
            cs@ == s@,
            v@ == v0 + cs@.take(i as int),
        decreases cs.len() - i,
    {
        v.push(cs[i]);
        assert(cs@.take(i + 1) == cs@.take(i as int).push(cs@[i as int]));
        assert(v@ =~= v0 + cs@.take(i + 1));
        i += 1;
    }
    assert(cs@.take(cs.len() as int) =~= cs@);
}

/// The file a Python module names relative to the importing file: dots become
/// `/`, `.py` is added; `None` when the result has a `..` component.
pub fn module_path_to_file(importer: &str, module: &str) -> (r: Option<String>)
    ensures
        opt_text(r) == py_module_file(importer@, module@),
{
    let parent = parent_chars(&chars_of(importer));
    let mut mp = replace_char_chars(&chars_of(module), '.', '/');
    append_text(&mut mp, ".py");
    let c = join_chars(&parent, &mp);
    if has_parent_exec(&c) {
        None
    } else {
        Some(string_of(&c))
    }
}

fn strip_dot_slash_exec(s: &[char]) -> (r: Vec<char>)
    ensures
        r@ == strip_dot_slash(s@),
{
    let mut a: usize = 0;
    assert(s@.skip(0) =~= s@);
    while s.len() - a > 1 && s[a] == '.' && s[a + 1] == '/'
        invariant
            a <= s.len(),
            strip_dot_slash(s@) == strip_dot_slash(s@.skip(a as int)),
        decreases s.len() - a,
    {
        assert(s@.skip(a as int).skip(2) =~= s@.skip(a + 2));
        a += 2;
    }
    let r = subvec(s, a, s.len());
    assert(r@ =~= s@.skip(a as int));
    r
}

/// The `.ts` file a relative TypeScript import names; `None` for a package
/// import or a path with a `..` component.
pub fn module_path_to_ts_file(importer: &str, module: &str) -> (r: Option<String>)
    ensures
        opt_text(r) == ts_module_file(importer@, module@),
{
    let m = chars_of(module);
    if !(m.len() > 0 && m[0] == '.') {
        return None;
    }
    let parent = parent_chars(&chars_of(importer));
    let j = join_chars(&parent, &strip_dot_slash_exec(&m));
    if has_parent_exec(&j) {
        return None;
    }
    let name = file_name(&j);
    match extension(&name) {
        Some(_) => Some(string_of(&j)),
        None => {
            let mut c = j;
            append_text(&mut c, ".ts");
            Some(string_of(&c))
        },
    }
}


// ---------------------------------------------------------------------------
// Import bindings
// ---------------------------------------------------------------------------

/// A name an import brings in: the local name, the module, the imported name.
pub struct ImportBinding {
    pub local_name: String,
    pub module: String,
    pub imported_name: String,
}

impl Dup for ImportBinding {
    fn dup(&self) -> (r: Self) {
        ImportBinding { local_name: self.local_name.clone(), module: self.module.clone(), imported_name: self.imported_name.clone() }
    }
}

pub type BindingView = (Seq<char>, Seq<char>, Seq<char>);

pub open spec fn binding_view(b: ImportBinding) -> BindingView {
    (b.local_name@, b.module@, b.imported_name@)
}

pub open spec fn binding_views(v: Seq<ImportBinding>) -> Seq<BindingView> {
    v.map_values(|b: ImportBinding| binding_view(b))
}

/// Node `k` is a `name` of a Python `from .. import ..` statement with a
/// module: the binding it makes (imported under its own name).
pub open spec fn py_tree_binding(t: SyntaxTree, bytes: Seq<u8>, k: int) -> Option<BindingView> {
    if !(0 <= k < t.nodes@.len() && t.nodes@[k].named && opt_text(t.nodes@[k].field) == Some("name"@)) {
        None
    } else {
        match t.nodes@[k].parent {
            None => None,
            Some(p) => if !(p < t.nodes@.len() && t.nodes@[p as int].named && t.nodes@[p as int].kind@ == "import_from_statement"@) {
                None
            } else {
                match field_child(t, p as int, "module_name"@) {
                    Some(m) => if t.nodes@[m].named {
                        Some((trim(t.text(bytes, k)), trim(t.text(bytes, m)), trim(t.text(bytes, k))))
                    } else {
                        None
                    },
                    None => None,
                }
            },
        }
    }
}

/// The bindings of the syntax tree's import statements among the first `n` nodes.
pub open spec fn py_tree_bindings(t: SyntaxTree, bytes: Seq<u8>, n: int) -> Seq<BindingView>
    decreases n,
{
    if n <= 0 {
        Seq::empty()
    } else {
        let rest = py_tree_bindings(t, bytes, n - 1);
        match py_tree_binding(t, bytes, n - 1) {
            Some(b) => rest.push(b),
            None => rest,
        }
    }
}

/// One imported name `part` (`name` or `name as alias`): imported and local names.
pub open spec fn import_names(part: Seq<char>) -> (Seq<char>, Seq<char>) {
    match split_once(part, " as "@) {
        Some((a, b)) => (trim(a), trim(b)),
        None => (part, part),
    }
}

/// `b` binds `local` from `module`.
pub open spec fn same_binding(b: BindingView, local: Seq<char>, module: Seq<char>) -> bool {
    b.0 == local && b.1 == module
}

/// Python: the names of `from module import parts`, after the bindings `acc`,
/// skipping `*`, blanks, and bindings already made for the local name and module.
pub open spec fn py_part_bindings(acc: Seq<BindingView>, module: Seq<char>, parts: Seq<Seq<char>>, n: int) -> Seq<BindingView>
    decreases n,
{
    if n <= 0 {
        acc
    } else {
        let a = py_part_bindings(acc, module, parts, n - 1);
        let part = trim(parts[n - 1]);
        if part == "*"@ || part.len() == 0 {
            a
        } else {
            let (imported, local) = import_names(part);
            if exists|i: int| 0 <= i < a.len() && #[trigger] same_binding(a[i], local, module) {
                a
            } else {
                a.push((local, module, imported))
            }
        }
    }
}

/// Python: the `from module import names` lines among the first `n`, scanned as text.
pub open spec fn py_line_bindings(acc: Seq<BindingView>, lines: Seq<Seq<char>>, n: int) -> Seq<BindingView>
    decreases n,
{
    if n <= 0 {
        acc
    } else {
        let a = py_line_bindings(acc, lines, n - 1);
        match strip_prefix(trim(lines[n - 1]), "from "@) {
            Some(rest) => match split_once(rest, " import "@) {
                Some((module, names)) => {
                    let parts = split_char(names, ',');
                    py_part_bindings(a, trim(module), parts, parts.len() as int)
                },
                None => a,
            },
            None => a,
        }
    }
}

/// The Python import bindings of a file: those of its syntax tree, then
/// those its `from .. import ..` lines add.
pub open spec fn py_bindings(t: SyntaxTree, bytes: Seq<u8>, source: Seq<char>) -> Seq<BindingView> {
    py_line_bindings(py_tree_bindings(t, bytes, t.nodes@.len() as int), lines_of(source), lines_of(source).len() as int)
}

fn text_of(v: &Vec<char>, lit: &str) -> (b: bool)
    ensures
        b == (v@ == lit@),
{
    seq_eq(v, &chars_of(lit))
}

fn import_names_exec(part: &Vec<char>) -> (r: (Vec<char>, Vec<char>))
    ensures
        (r.0@, r.1@) == import_names(part@),
{
    match split_once_chars(part, &chars_of(" as ")) {
        Some((a, b)) => (trim_chars(&a), trim_chars(&b)),
        None => (part.clone(), part.clone()),
    }
}

fn py_part_step(out: &mut Vec<ImportBinding>, module: &Vec<char>, parts: &Vec<Vec<char>>)
    ensures
        binding_views(final(out)@) == py_part_bindings(binding_views(old(out)@), module@, views(parts@), parts@.len() as int),
{
    let ghost acc = binding_views(out@);
    let mut i: usize = 0;
    while i < parts.len()
        invariant
            i <= parts.len(),
            binding_views(out@) == py_part_bindings(acc, module@, views(parts@), i as int),
        decreases parts.len() - i,
    {
        assert(views(parts@)[i as int] == parts@[i as int]@);
        let part = trim_chars(&parts[i]);
        if !(text_of(&part, "*") || part.len() == 0) {
            let (imported, local) = import_names_exec(&part);
            let mut seen = false;
            let mut k: usize = 0;
            while k < out.len()
                invariant
                    k <= out.len(),
                    seen == exists|q: int| 0 <= q < k && #[trigger] same_binding(binding_views(out@)[q], local@, module@),
                decreases out.len() - k,
            {
                assert(binding_views(out@)[k as int] == binding_view(out@[k as int]));
                if seq_eq(&chars_of(out[k].local_name.as_str()), &local) && seq_eq(&chars_of(out[k].module.as_str()), module) {
                    seen = true;
                    assert(same_binding(binding_views(out@)[k as int], local@, module@));
                } else {
                    assert(!same_binding(binding_views(out@)[k as int], local@, module@));
                }
                k += 1;
            }
            if !seen {
                let ghost before = out@;
                out.push(ImportBinding { local_name: string_of(&local), module: string_of(module), imported_name: string_of(&imported) });
                assert(binding_views(out@) =~= binding_views(before).push((local@, module@, imported@)));
            }
        }
        i += 1;
    }
}

/// The import bindings of a Python file: each name of a `from .. import ..`
/// statement of the syntax tree, then the names its `from` lines add as text
/// (aliases kept, `*` skipped, no binding twice for a local name and module).
pub fn parse_import_bindings(source: &str, t: &SyntaxTree) -> (r: Vec<ImportBinding>)
    requires
        t.wf(source.spec_bytes()),
    ensures
        binding_views(r@) == py_bindings(*t, source.spec_bytes(), source@),
{
    let ghost bytes = source.spec_bytes();
    let mut out: Vec<ImportBinding> = Vec::new();
    let mut k: usize = 0;
    while k < t.nodes.len()
        invariant
            k <= t.nodes.len(),
            t.wf(bytes),
            bytes == source.spec_bytes(),
            binding_views(out@) == py_tree_bindings(*t, bytes, k as int),
        decreases t.nodes.len() - k,
    {
        let n = &t.nodes[k];
        let named_name = n.named && match &n.field {
            Some(f) => str_eq(f.as_str(), "name"),
            None => false,
        };
        if named_name {
            if let Some(p) = n.parent {
                if p < t.nodes.len() && t.nodes[p].named && str_eq(t.nodes[p].kind.as_str(), "import_from_statement") {
                    if let Some(m) = field_child_exec(t, p, "module_name") {
                        if t.nodes[m].named {
                            let name = trim_str(source_span(source, n.start_byte, n.end_byte).as_str());
                            let mn = &t.nodes[m];
                            let module = trim_str(source_span(source, mn.start_byte, mn.end_byte).as_str());
                            let ghost before = out@;
                            out.push(ImportBinding { local_name: name.clone(), module, imported_name: name });
                            assert(binding_views(out@) =~= binding_views(before).push(binding_view(out@.last())));
                        }
                    }
                }
            }
        }
        k += 1;
    }
    let lines = lines_chars(&chars_of(source));
    let ghost acc = binding_views(out@);
    let mut i: usize = 0;
    while i < lines.len()
        invariant
            i <= lines.len(),
            views(lines@) == lines_of(source@),
            binding_views(out@) == py_line_bindings(acc, lines_of(source@), i as int),
        decreases lines.len() - i,
    {
        assert(views(lines@)[i as int] == lines@[i as int]@);
        let line = trim_chars(&lines[i]);
        if let Some(rest) = strip_prefix_chars(&line, &chars_of("from ")) {
            if let Some((module, names)) = split_once_chars(&rest, &chars_of(" import ")) {
                let parts = split_on_char(&names, ',');
                let m = trim_chars(&module);
                py_part_step(&mut out, &m, &parts);
            }
        }
        i += 1;
    }
    out
}

/// Trailing characters that are quotes or `;`.
pub open spec fn quote_trimmed(s: Seq<char>) -> Seq<char> {
    s.skip(lead_quotes(s) as int).take(s.skip(lead_quotes(s) as int).len() - trail_quotes(s.skip(lead_quotes(s) as int)))
}

pub open spec fn is_quote(c: char) -> bool {
    c == '"' || c == '\'' || c == ';'
}

pub open spec fn lead_quotes(s: Seq<char>) -> nat
    decreases s.len(),
{
    if s.len() > 0 && is_quote(s[0]) {
        1 + lead_quotes(s.drop_first())
    } else {
        0
    }
}

pub open spec fn trail_quotes(s: Seq<char>) -> nat
    decreases s.len(),
{
    if s.len() > 0 && is_quote(s.last()) {
        1 + trail_quotes(s.drop_last())
    } else {
        0
    }
}

/// `trim_start_matches('{')` then `trim_end_matches('}')`.
pub open spec fn unbrace(s: Seq<char>) -> Seq<char> {
    let a = s.skip(lead_char(s, '{') as int);
    a.take(a.len() - trail_char(a, '}'))
}

/// TypeScript: the names of `import names from module` lines among the first
/// `n`, scanned as text (braces, quotes and `;` trimmed, aliases kept).
pub open spec fn ts_line_bindings(acc: Seq<BindingView>, lines: Seq<Seq<char>>, n: int) -> Seq<BindingView>
    decreases n,
{
    if n <= 0 {
        acc
    } else {
        let a = ts_line_bindings(acc, lines, n - 1);
        match strip_prefix(trim(lines[n - 1]), "import "@) {
            Some(rest) => match split_once(rest, " from "@) {
                Some((names, module)) => {
                    let parts = split_char(trim(unbrace(trim(names))), ',');
                    ts_part_bindings(a, quote_trimmed(trim(module)), parts, parts.len() as int)
                },
                None => a,
            },
            None => a,
        }
    }
}

pub open spec fn ts_part_bindings(acc: Seq<BindingView>, module: Seq<char>, parts: Seq<Seq<char>>, n: int) -> Seq<BindingView>
    decreases n,
{
    if n <= 0 {
        acc
    } else {
        let a = ts_part_bindings(acc, module, parts, n - 1);
        let part = trim(parts[n - 1]);
        if part.len() == 0 {
            a
        } else {
            let (imported, local) = import_names(part);
            a.push((local, module, imported))
        }
    }
}

fn quote_trim_exec(s: &Vec<char>) -> (r: Vec<char>)
    ensures
        r@ == quote_trimmed(s@),
{
    let mut a: usize = 0;
    assert(s@.skip(0) =~= s@);
    while a < s.len() && (s[a] == '"' || s[a] == '\'' || s[a] == ';')
        invariant
            a <= s.len(),
            lead_quotes(s@) == a + lead_quotes(s@.skip(a as int)),
        decreases s.len() - a,
    {
        assert(s@.skip(a as int).drop_first() =~= s@.skip(a + 1));
        a += 1;
    }
    proof {
        if a < s.len() {
            assert(s@.skip(a as int)[0] == s@[a as int]);
        }
    }
    let ghost t = s@.skip(a as int);
    let mut b: usize = s.len();
    assert(t.take(t.len() as int) =~= t);
    while b > a && (s[b - 1] == '"' || s[b - 1] == '\'' || s[b - 1] == ';')
        invariant
            a <= b <= s.len(),
            t == s@.skip(a as int),
            trail_quotes(t) == (s.len() - b) + trail_quotes(t.take(b - a)),
        decreases b - a,
    {
        assert(t.take(b - a).drop_last() =~= t.take(b - a - 1));
        b -= 1;
    }
    proof {
        if b > a {
            assert(t.take(b - a).last() == s@[b - 1]);
        }
        assert(quote_trimmed(s@) =~= s@.subrange(a as int, b as int));
    }
    subvec(s, a, b)
}

fn unbrace_exec(s: &Vec<char>) -> (r: Vec<char>)
    ensures
        r@ == unbrace(s@),
{
    let mut a: usize = 0;
    assert(s@.skip(0) =~= s@);
    while a < s.len() && s[a] == '{'
        invariant
            a <= s.len(),
            lead_char(s@, '{') == a + lead_char(s@.skip(a as int), '{'),
        decreases s.len() - a,
    {
        assert(s@.skip(a as int).drop_first() =~= s@.skip(a + 1));
        a += 1;
    }
    proof {
        if a < s.len() {
            assert(s@.skip(a as int)[0] == s@[a as int]);
        }
    }
    let ghost t = s@.skip(a as int);
    let mut b: usize = s.len();
    assert(t.take(t.len() as int) =~= t);
    while b > a && s[b - 1] == '}'
        invariant
            a <= b <= s.len(),
            t == s@.skip(a as int),
            trail_char(t, '}') == (s.len() - b) + trail_char(t.take(b - a), '}'),
        decreases b - a,
    {
        assert(t.take(b - a).drop_last() =~= t.take(b - a - 1));
        b -= 1;
    }
    proof {
        if b > a {
            assert(t.take(b - a).last() == s@[b - 1]);
        }
        assert(unbrace(s@) =~= s@.subrange(a as int, b as int));
    }
    subvec(s, a, b)
}

/// The import bindings of a TypeScript file, from its `import .. from ..`
/// lines read as text.
pub fn parse_imports(source: &str) -> (r: Vec<ImportBinding>)
    ensures
        binding_views(r@) == ts_line_bindings(Seq::empty(), lines_of(source@), lines_of(source@).len() as int),
{
    let lines = lines_chars(&chars_of(source));
    let mut out: Vec<ImportBinding> = Vec::new();
    let mut i: usize = 0;
    while i < lines.len()
        invariant
            i <= lines.len(),
            views(lines@) == lines_of(source@),
            binding_views(out@) == ts_line_bindings(Seq::empty(), lines_of(source@), i as int),
        decreases lines.len() - i,
    {
        assert(views(lines@)[i as int] == lines@[i as int]@);
        let line = trim_chars(&lines[i]);
        if let Some(rest) = strip_prefix_chars(&line, &chars_of("import ")) {
            if let Some((names, module)) = split_once_chars(&rest, &chars_of(" from ")) {
                let m = quote_trim_exec(&trim_chars(&module));
                let parts = split_on_char(&trim_chars(&unbrace_exec(&trim_chars(&names))), ',');
                let ghost acc = binding_views(out@);
                let mut k: usize = 0;
                while k < parts.len()
                    invariant
                        k <= parts.len(),
                        binding_views(out@) == ts_part_bindings(acc, m@, views(parts@), k as int),
                    decreases parts.len() - k,
                {
                    assert(views(parts@)[k as int] == parts@[k as int]@);
                    let part = trim_chars(&parts[k]);
                    if part.len() > 0 {
                        let (imported, local) = import_names_exec(&part);
                        let ghost before = out@;
                        out.push(ImportBinding { local_name: string_of(&local), module: string_of(&m), imported_name: string_of(&imported) });
                        assert(binding_views(out@) =~= binding_views(before).push((local@, m@, imported@)));
                    }
                    k += 1;
                }
            }
        }
        i += 1;
    }
    out
}


// ---------------------------------------------------------------------------
// Relations
// ---------------------------------------------------------------------------

/// A relation as plain values: from, to, kind, confidence in thousandths.
pub type EdgeView = (Seq<char>, Seq<char>, EdgeKind, u16);

pub open spec fn edge_view(e: ResolvedEdge) -> EdgeView {
    (e.from_id@, e.to_id@, e.kind, e.confidence_milli)
}

pub open spec fn edge_views(v: Seq<ResolvedEdge>) -> Seq<EdgeView> {
    v.map_values(|e: ResolvedEdge| edge_view(e))
}

/// The id of the first-declared function `name` of `file`.
pub open spec fn fn_id(nodes: Seq<crate::model::GraphNode>, file: Seq<char>, name: Seq<char>) -> Option<Seq<char>> {
    first_id_by_line(nodes, function_named(file, name))
}

/// The id of the first import of `file` that mentions `local`.
pub open spec fn import_id(nodes: Seq<crate::model::GraphNode>, file: Seq<char>, local: Seq<char>) -> Option<Seq<char>> {
    first_id_by_line(nodes, import_mentioning(file, local))
}

/// The first binding of the local name `name`.
pub open spec fn first_binding(bs: Seq<BindingView>, name: Seq<char>) -> Option<BindingView>
    decreases bs.len(),
{
    if bs.len() == 0 {
        None
    } else if bs[0].0 == name {
        Some(bs[0])
    } else {
        first_binding(bs.drop_first(), name)
    }
}

/// Python builtins that calls are not resolved for.
pub open spec fn is_py_builtin(name: Seq<char>) -> bool {
    name == "print"@ || name == "len"@ || name == "range"@ || name == "str"@ || name == "int"@ || name
        == "float"@ || name == "bool"@ || name == "list"@ || name == "dict"@ || name == "set"@
}

/// Whether `name` is a Python builtin that calls are not resolved for.
pub fn is_builtin(name: &str) -> (b: bool)
    ensures
        b == is_py_builtin(name@),
{
    str_eq(name, "print") || str_eq(name, "len") || str_eq(name, "range") || str_eq(name, "str") || str_eq(name, "int")
        || str_eq(name, "float") || str_eq(name, "bool") || str_eq(name, "list") || str_eq(name, "dict") || str_eq(
        name,
        "set",
    )
}

/// Python import edges of the first `n` bindings: import symbol to the
/// imported function, and file to file, when the function exists.
pub open spec fn py_import_edges(nodes: Seq<crate::model::GraphNode>, path: Seq<char>, bs: Seq<BindingView>, n: int) -> Seq<EdgeView>
    decreases n,
{
    if n <= 0 {
        Seq::empty()
    } else {
        let rest = py_import_edges(nodes, path, bs, n - 1);
        let b = bs[n - 1];
        match py_module_file(path, b.1) {
            None => rest,
            Some(tf) => match fn_id(nodes, tf, b.2) {
                None => rest,
                Some(target) => {
                    let a = match import_id(nodes, path, b.0) {
                        Some(iid) => rest.push((iid, target, EdgeKind::Imports, 920u16)),
                        None => rest,
                    };
                    if has_node(nodes, node_id_text(tf)) {
                        a.push((node_id_text(path), node_id_text(tf), EdgeKind::Imports, 850u16))
                    } else {
                        a
                    }
                },
            },
        }
    }
}

/// The function a call of `callee` in a Python file reaches: one of the same
/// file (0.95), or the one an import binding names (0.9).
pub open spec fn py_call_target(nodes: Seq<crate::model::GraphNode>, path: Seq<char>, bs: Seq<BindingView>, callee: Seq<char>) -> Option<(Seq<char>, u16)> {
    match fn_id(nodes, path, callee) {
        Some(id) => Some((id, 950u16)),
        None => match first_binding(bs, callee) {
            Some(b) => match py_module_file(path, b.1) {
                Some(tf) => match fn_id(nodes, tf, b.2) {
                    Some(id) => Some((id, 900u16)),
                    None => None,
                },
                None => None,
            },
            None => None,
        },
    }
}

/// Python call edges of the first `n` call sites.
pub open spec fn py_call_edges(
    nodes: Seq<crate::model::GraphNode>,
    path: Seq<char>,
    bs: Seq<BindingView>,
    sites: Seq<(Seq<char>, CallerView)>,
    n: int,
) -> Seq<EdgeView>
    decreases n,
{
    if n <= 0 {
        Seq::empty()
    } else {
        let rest = py_call_edges(nodes, path, bs, sites, n - 1);
        let (callee, caller) = sites[n - 1];
        if is_py_builtin(callee) {
            rest
        } else {
            match caller {
                CallerView::Named(name, line) => {
                    let caller_id = symbol_id_text(path, NodeKind::Function, name, line);
                    match py_call_target(nodes, path, bs, callee) {
                        Some((id, c)) => if has_node(nodes, caller_id) {
                            rest.push((caller_id, id, EdgeKind::Calls, c))
                        } else {
                            rest
                        },
                        None => rest,
                    }
                },
                _ => rest,
            }
        }
    }
}

pub open spec fn python_shape() -> CallShape {
    CallShape { call_kind: "call", callee_field: Some("function"), callee_kind: "identifier", function_kind: "function_definition", other_function_kind: None }
}

fn binding_for<'a>(bs: &'a Vec<ImportBinding>, name: &str) -> (r: Option<&'a ImportBinding>)
    ensures
        match r {
            Some(b) => first_binding(binding_views(bs@), name@) == Some(binding_view(*b)),
            None => first_binding(binding_views(bs@), name@) is None,
        },
{
    let mut i: usize = 0;
    assert(binding_views(bs@).skip(0) =~= binding_views(bs@));
    while i < bs.len()
        invariant
            i <= bs.len(),
            first_binding(binding_views(bs@), name@) == first_binding(binding_views(bs@).skip(i as int), name@),
        decreases bs.len() - i,
    {
        assert(binding_views(bs@).skip(i as int)[0] == binding_view(bs@[i as int]));
        if str_eq(bs[i].local_name.as_str(), name) {
            return Some(&bs[i]);
        }
        assert(binding_views(bs@).skip(i as int).drop_first() =~= binding_views(bs@).skip(i + 1));
        i += 1;
    }
    None
}

fn push_edge(out: &mut Vec<ResolvedEdge>, from: &str, to: &str, kind: EdgeKind, confidence_milli: u16)
    ensures
        edge_views(final(out)@) == edge_views(old(out)@).push((from@, to@, kind, confidence_milli)),
{
    let ghost before = out@;
    out.push(ResolvedEdge { from_id: from.to_owned(), to_id: to.to_owned(), kind, confidence_milli });
    assert(edge_views(out@) =~= edge_views(before).push((from@, to@, kind, confidence_milli)));
}

/// Python import and call relations of a file from its syntax tree: each
/// import binding whose function exists links the import symbol and the two
/// files; each call of a non-builtin name inside a function links the caller
/// to the function of the same file, or else to the one its import names.
pub fn resolve_python_tree(store: &GraphStore, relative_path: &str, source: &str, t: &SyntaxTree) -> (r: Vec<ResolvedEdge>)
    requires
        t.wf(source.spec_bytes()),
    ensures
        ({
            let bs = py_bindings(*t, source.spec_bytes(), source@);
            let sites = call_sites_upto(*t, source.spec_bytes(), python_shape(), t.nodes@.len() as int);
            edge_views(r@) == py_import_edges(store.node_rows(), relative_path@, bs, bs.len() as int)
                + py_call_edges(store.node_rows(), relative_path@, bs, sites, sites.len() as int)
        }),
{
    let ghost nodes = store.node_rows();
    let ghost path = relative_path@;
    let bindings = parse_import_bindings(source, t);
    let ghost bs = binding_views(bindings@);
    let mut out: Vec<ResolvedEdge> = Vec::new();
    let mut i: usize = 0;
    while i < bindings.len()
        invariant
            i <= bindings.len(),
            nodes == store.node_rows(),
            path == relative_path@,
            bs == binding_views(bindings@),
            edge_views(out@) == py_import_edges(nodes, path, bs, i as int),
        decreases bindings.len() - i,
    {
        let b = &bindings[i];
        assert(bs[i as int] == binding_view(*b));
        if let Some(tf) = module_path_to_file(relative_path, b.module.as_str()) {
            if let Some(target) = store.find_function_symbol_id(tf.as_str(), b.imported_name.as_str()) {
                if let Some(iid) = store.find_import_symbol_id(relative_path, b.local_name.as_str()) {
                    push_edge(&mut out, iid.as_str(), target.as_str(), EdgeKind::Imports, 920);
                }
                let file_id = node_id_for_path(relative_path);
                let target_file_id = node_id_for_path(tf.as_str());
                if store.node_exists(target_file_id.as_str()) {
                    push_edge(&mut out, file_id.as_str(), target_file_id.as_str(), EdgeKind::Imports, 850);
                }
            }
        }
        i += 1;
    }
    let shape = CallShape { call_kind: "call", callee_field: Some("function"), callee_kind: "identifier", function_kind: "function_definition", other_function_kind: None };
    assert(shape == python_shape());
    let sites = call_sites(t, source, &shape);
    let ghost sv = call_site_views(sites@);
    let ghost head = edge_views(out@);
    let mut k: usize = 0;
    while k < sites.len()
        invariant
            k <= sites.len(),
            nodes == store.node_rows(),
            path == relative_path@,
            bs == binding_views(bindings@),
            sv == call_site_views(sites@),
            edge_views(out@) == head + py_call_edges(nodes, path, bs, sv, k as int),
        decreases sites.len() - k,
    {
        let site = &sites[k];
        assert(sv[k as int] == call_site_view(*site));
        let callee = site.callee.as_str();
        if !is_builtin(callee) {
            if let Caller::Named(name, line) = &site.caller {
                let caller_id = symbol_id(relative_path, NodeKind::Function, name.as_str(), *line);
                let target: Option<(String, u16)> = match store.find_function_symbol_id(relative_path, callee) {
                    Some(id) => Some((id, 950)),
                    None => match binding_for(&bindings, callee) {
                        Some(b) => match module_path_to_file(relative_path, b.module.as_str()) {
                            Some(tf) => match store.find_function_symbol_id(tf.as_str(), b.imported_name.as_str()) {
                                Some(id) => Some((id, 900)),
                                None => None,
                            },
                            None => None,
                        },
                        None => None,
                    },
                };
                assert(match target {
                    Some((id, c)) => py_call_target(nodes, path, bs, callee@) == Some((id@, c)),
                    None => py_call_target(nodes, path, bs, callee@) is None,
                });
                if let Some((id, c)) = target {
                    if store.node_exists(caller_id.as_str()) {
                        push_edge(&mut out, caller_id.as_str(), id.as_str(), EdgeKind::Calls, c);
                    }
                }
            }
        }
        k += 1;
    }
    out
}


/// TypeScript import edges of the first `n` bindings: file to file when the
/// target file is indexed, then import symbol to function, when the imported
/// function exists.
pub open spec fn ts_import_edges(nodes: Seq<crate::model::GraphNode>, path: Seq<char>, bs: Seq<BindingView>, n: int) -> Seq<EdgeView>
    decreases n,
{
    if n <= 0 {
        Seq::empty()
    } else {
        let rest = ts_import_edges(nodes, path, bs, n - 1);
        let b = bs[n - 1];
        match ts_module_file(path, b.1) {
            None => rest,
            Some(tf) => match fn_id(nodes, tf, b.2) {
                None => rest,
                Some(target) => {
                    let a = if has_node(nodes, node_id_text(tf)) {
                        rest.push((node_id_text(path), node_id_text(tf), EdgeKind::Imports, 850u16))
                    } else {
                        rest
                    };
                    match import_id(nodes, path, b.0) {
                        Some(iid) => a.push((iid, target, EdgeKind::Imports, 920u16)),
                        None => a,
                    }
                },
            },
        }
    }
}

/// The function a call of `callee` in a TypeScript file reaches: one of the
/// same file, or the one an import binding names.
pub open spec fn ts_call_target(nodes: Seq<crate::model::GraphNode>, path: Seq<char>, bs: Seq<BindingView>, callee: Seq<char>) -> Option<Seq<char>> {
    match fn_id(nodes, path, callee) {
        Some(id) => Some(id),
        None => match first_binding(bs, callee) {
            Some(b) => match ts_module_file(path, b.1) {
                Some(tf) => fn_id(nodes, tf, b.2),
                None => None,
            },
            None => None,
        },
    }
}

/// TypeScript call edges (confidence 0.9) of the first `n` call sites.
pub open spec fn ts_call_edges(
    nodes: Seq<crate::model::GraphNode>,
    path: Seq<char>,
    bs: Seq<BindingView>,
    sites: Seq<(Seq<char>, CallerView)>,
    n: int,
) -> Seq<EdgeView>
    decreases n,
{
    if n <= 0 {
        Seq::empty()
    } else {
        let rest = ts_call_edges(nodes, path, bs, sites, n - 1);
        let (callee, caller) = sites[n - 1];
        match caller {
            CallerView::Named(name, line) => {
                let caller_id = symbol_id_text(path, NodeKind::Function, name, line);
                match ts_call_target(nodes, path, bs, callee) {
                    Some(id) => if has_node(nodes, caller_id) {
                        rest.push((caller_id, id, EdgeKind::Calls, 900u16))
                    } else {
                        rest
                    },
                    None => rest,
                }
            },
            _ => rest,
        }
    }
}

pub open spec fn typescript_shape() -> CallShape {
    CallShape { call_kind: "call_expression", callee_field: Some("function"), callee_kind: "identifier", function_kind: "function_declaration", other_function_kind: None }
}

/// TypeScript import and call relations of a file from its syntax tree.
pub fn resolve_typescript_tree(store: &GraphStore, relative_path: &str, source: &str, t: &SyntaxTree) -> (r: Vec<ResolvedEdge>)
    requires
        t.wf(source.spec_bytes()),
    ensures
        ({
            let bs = ts_line_bindings(Seq::empty(), lines_of(source@), lines_of(source@).len() as int);
            let sites = call_sites_upto(*t, source.spec_bytes(), typescript_shape(), t.nodes@.len() as int);
            edge_views(r@) == ts_import_edges(store.node_rows(), relative_path@, bs, bs.len() as int)
                + ts_call_edges(store.node_rows(), relative_path@, bs, sites, sites.len() as int)
        }),
{
    let ghost nodes = store.node_rows();
    let ghost path = relative_path@;
    let bindings = parse_imports(source);
    let ghost bs = binding_views(bindings@);
    let mut out: Vec<ResolvedEdge> = Vec::new();
    let mut i: usize = 0;
    while i < bindings.len()
        invariant
            i <= bindings.len(),
            nodes == store.node_rows(),
            path == relative_path@,
            bs == binding_views(bindings@),
            edge_views(out@) == ts_import_edges(nodes, path, bs, i as int),
        decreases bindings.len() - i,
    {
        let b = &bindings[i];
        assert(bs[i as int] == binding_view(*b));
        if let Some(tf) = module_path_to_ts_file(relative_path, b.module.as_str()) {
            if let Some(target) = store.find_function_symbol_id(tf.as_str(), b.imported_name.as_str()) {
                let file_id = node_id_for_path(relative_path);
                let target_file_id = node_id_for_path(tf.as_str());
                if store.node_exists(target_file_id.as_str()) {
                    push_edge(&mut out, file_id.as_str(), target_file_id.as_str(), EdgeKind::Imports, 850);
                }
                if let Some(iid) = store.find_import_symbol_id(relative_path, b.local_name.as_str()) {
                    push_edge(&mut out, iid.as_str(), target.as_str(), EdgeKind::Imports, 920);
                }
            }
        }
        i += 1;
    }
    let shape = CallShape { call_kind: "call_expression", callee_field: Some("function"), callee_kind: "identifier", function_kind: "function_declaration", other_function_kind: None };
    assert(shape == typescript_shape());
    let sites = call_sites(t, source, &shape);
    let ghost sv = call_site_views(sites@);
    let ghost head = edge_views(out@);
    let mut k: usize = 0;
    while k < sites.len()
        invariant
            k <= sites.len(),
            nodes == store.node_rows(),
            path == relative_path@,
            bs == binding_views(bindings@),
            sv == call_site_views(sites@),
            edge_views(out@) == head + ts_call_edges(nodes, path, bs, sv, k as int),
        decreases sites.len() - k,
    {
        let site = &sites[k];
        assert(sv[k as int] == call_site_view(*site));
        let callee = site.callee.as_str();
        if let Caller::Named(name, line) = &site.caller {
            let caller_id = symbol_id(relative_path, NodeKind::Function, name.as_str(), *line);
            let target: Option<String> = match store.find_function_symbol_id(relative_path, callee) {
                Some(id) => Some(id),
                None => match binding_for(&bindings, callee) {
                    Some(b) => match module_path_to_ts_file(relative_path, b.module.as_str()) {
                        Some(tf) => store.find_function_symbol_id(tf.as_str(), b.imported_name.as_str()),
                        None => None,
                    },
                    None => None,
                },
            };
            assert(opt_text(target) == ts_call_target(nodes, path, bs, callee@));
            if let Some(id) = target {
                if store.node_exists(caller_id.as_str()) {
                    push_edge(&mut out, caller_id.as_str(), id.as_str(), EdgeKind::Calls, 900);
                }
            }
        }
        k += 1;
    }
    out
}

/// The first of `files` that declares a function `name`, and its id.
pub open spec fn find_in_files(nodes: Seq<crate::model::GraphNode>, files: Seq<Seq<char>>, name: Seq<char>) -> Option<Seq<char>>
    decreases files.len(),
{
    if files.len() == 0 {
        None
    } else {
        match fn_id(nodes, files[0], name) {
            Some(id) => Some(id),
            None => find_in_files(nodes, files.drop_first(), name),
        }
    }
}

/// Call edges of the first `n` call sites for a language resolved across its
/// files (Go, Rust, Swift): a call inside a named function, or outside any
/// function in a file ending with `entry_file` (the file's `main`), links to
/// the first file's function of the callee's name; confidence 0.95 when the
/// target id holds this file's path, else 0.88.
pub open spec fn cross_file_call_edges(
    nodes: Seq<crate::model::GraphNode>,
    path: Seq<char>,
    files: Seq<Seq<char>>,
    entry_file: Option<Seq<char>>,
    sites: Seq<(Seq<char>, CallerView)>,
    n: int,
) -> Seq<EdgeView>
    decreases n,
{
    if n <= 0 {
        Seq::empty()
    } else {
        let rest = cross_file_call_edges(nodes, path, files, entry_file, sites, n - 1);
        let (callee, caller) = sites[n - 1];
        let caller_id = match caller {
            CallerView::Named(name, line) => Some(symbol_id_text(path, NodeKind::Function, name, line)),
            CallerView::Outside => match entry_file {
                Some(e) => if is_suffix(e, path) {
                    fn_id(nodes, path, "main"@)
                } else {
                    None
                },
                None => None,
            },
            CallerView::Unnamed => None,
        };
        match caller_id {
            None => rest,
            Some(cid) => match find_in_files(nodes, files, callee) {
                None => rest,
                Some(target) => if has_node(nodes, cid) {
                    rest.push((cid, target, EdgeKind::Calls, if contains_text(target, path) { 950u16 } else { 880u16 }))
                } else {
                    rest
                },
            },
        }
    }
}

fn find_in_files_exec(store: &GraphStore, files: &Vec<String>, name: &str) -> (r: Option<String>)
    ensures
        opt_text(r) == find_in_files(store.node_rows(), files@.map_values(|f: String| f@), name@),
{
    let ghost fs = files@.map_values(|f: String| f@);
    let mut i: usize = 0;
    assert(fs.skip(0) =~= fs);
    while i < files.len()
        invariant
            i <= files.len(),
            fs == files@.map_values(|f: String| f@),
            find_in_files(store.node_rows(), fs, name@) == find_in_files(store.node_rows(), fs.skip(i as int), name@),
        decreases files.len() - i,
    {
        assert(fs.skip(i as int)[0] == files@[i as int]@);
        if let Some(id) = store.find_function_symbol_id(files[i].as_str(), name) {
            return Some(id);
        }
        assert(fs.skip(i as int).drop_first() =~= fs.skip(i + 1));
        i += 1;
    }
    None
}

/// Call relations of a file for a language resolved across its files.
pub fn resolve_cross_file_tree(
    store: &GraphStore,
    relative_path: &str,
    source: &str,
    t: &SyntaxTree,
    shape: &CallShape,
    files: &Vec<String>,
    entry_file: Option<&str>,
) -> (r: Vec<ResolvedEdge>)
    requires
        t.wf(source.spec_bytes()),
    ensures
        ({
            let sites = call_sites_upto(*t, source.spec_bytes(), *shape, t.nodes@.len() as int);
            edge_views(r@) == cross_file_call_edges(
                store.node_rows(),
                relative_path@,
                files@.map_values(|f: String| f@),
                match entry_file { Some(e) => Some(e@), None => None },
                sites,
                sites.len() as int,
            )
        }),
{
    let ghost nodes = store.node_rows();
    let ghost path = relative_path@;
    let ghost fs = files@.map_values(|f: String| f@);
    let ghost entry = match entry_file { Some(e) => Some(e@), None => None::<Seq<char>> };
    let sites = call_sites(t, source, shape);
    let ghost sv = call_site_views(sites@);
    let mut out: Vec<ResolvedEdge> = Vec::new();
    let mut k: usize = 0;
    while k < sites.len()
        invariant
            k <= sites.len(),
            nodes == store.node_rows(),
            path == relative_path@,
            fs == files@.map_values(|f: String| f@),
            entry == match entry_file { Some(e) => Some(e@), None => None::<Seq<char>> },
            sv == call_site_views(sites@),
            edge_views(out@) == cross_file_call_edges(nodes, path, fs, entry, sv, k as int),
        decreases sites.len() - k,
    {
        let site = &sites[k];
        assert(sv[k as int] == call_site_view(*site));
        let caller_id: Option<String> = match &site.caller {
            Caller::Named(name, line) => Some(symbol_id(relative_path, NodeKind::Function, name.as_str(), *line)),
            Caller::Outside => match entry_file {
                Some(e) => if ends_with(&chars_of(relative_path), &chars_of(e)) {
                    store.find_function_symbol_id(relative_path, "main")
                } else {
                    None
                },
                None => None,
            },
            Caller::Unnamed => None,
        };
        if let Some(cid) = caller_id {
            if let Some(target) = find_in_files_exec(store, files, site.callee.as_str()) {
                if store.node_exists(cid.as_str()) {
                    let c: u16 = if contains(&chars_of(target.as_str()), &chars_of(relative_path)) {
                        950
                    } else {
                        880
                    };
                    push_edge(&mut out, cid.as_str(), target.as_str(), EdgeKind::Calls, c);
                }
            }
        }
        k += 1;
    }
    out
}


// ---------------------------------------------------------------------------
// All files
// ---------------------------------------------------------------------------

/// A source file of the repository: its relative path and its text.
pub struct SourceFile {
    pub relative_path: String,
    pub source: String,
}

impl Dup for SourceFile {
    fn dup(&self) -> (r: Self) {
        SourceFile { relative_path: self.relative_path.clone(), source: self.source.clone() }
    }
}

pub open spec fn go_shape() -> CallShape {
    CallShape { call_kind: "call_expression", callee_field: Some("function"), callee_kind: "identifier", function_kind: "function_declaration", other_function_kind: Some("method_declaration") }
}

pub open spec fn rust_shape() -> CallShape {
    CallShape { call_kind: "call_expression", callee_field: Some("function"), callee_kind: "identifier", function_kind: "function_item", other_function_kind: None }
}

pub open spec fn swift_shape() -> CallShape {
    CallShape { call_kind: "call_expression", callee_field: None, callee_kind: "simple_identifier", function_kind: "function_declaration", other_function_kind: None }
}

/// The paths of the files of language `lang`, in order.
pub open spec fn files_of(files: Seq<SourceFile>, lang: Seq<char>) -> Seq<Seq<char>> {
    files.filter(|f: SourceFile| language_of_path(f.relative_path@) == lang).map_values(|f: SourceFile| f.relative_path@)
}

/// The relations of one file, given its syntax tree `t` in the grammar of
/// its language.
pub open spec fn tree_relations(nodes: Seq<crate::model::GraphNode>, files: Seq<SourceFile>, path: Seq<char>, source: Seq<char>, bytes: Seq<u8>, t: SyntaxTree) -> Seq<EdgeView> {
    let lang = language_of_path(path);
    if lang == "python"@ {
        let bs = py_bindings(t, bytes, source);
        let sites = call_sites_upto(t, bytes, python_shape(), t.nodes@.len() as int);
        py_import_edges(nodes, path, bs, bs.len() as int) + py_call_edges(nodes, path, bs, sites, sites.len() as int)
    } else if lang == "typescript"@ || lang == "javascript"@ {
        let bs = ts_line_bindings(Seq::empty(), lines_of(source), lines_of(source).len() as int);
        let sites = call_sites_upto(t, bytes, typescript_shape(), t.nodes@.len() as int);
        ts_import_edges(nodes, path, bs, bs.len() as int) + ts_call_edges(nodes, path, bs, sites, sites.len() as int)
    } else if lang == "go"@ {
        let sites = call_sites_upto(t, bytes, go_shape(), t.nodes@.len() as int);
        cross_file_call_edges(nodes, path, files_of(files, "go"@), Some("main.go"@), sites, sites.len() as int)
    } else if lang == "rust"@ {
        let sites = call_sites_upto(t, bytes, rust_shape(), t.nodes@.len() as int);
        cross_file_call_edges(nodes, path, files_of(files, "rust"@), None, sites, sites.len() as int)
    } else {
        let sites = call_sites_upto(t, bytes, swift_shape(), t.nodes@.len() as int);
        cross_file_call_edges(nodes, path, files_of(files, "swift"@), None, sites, sites.len() as int)
    }
}

/// Languages whose calls are resolved.
pub open spec fn resolves_language(lang: Seq<char>) -> bool {
    lang == "python"@ || lang == "typescript"@ || lang == "javascript"@ || lang == "go"@ || lang == "rust"@ || lang == "swift"@
}

/// `es` are the relations of one file: none for a language without
/// resolution or a file tree-sitter does not parse, else those of the tree
/// tree-sitter gives.
pub open spec fn file_relations(nodes: Seq<crate::model::GraphNode>, files: Seq<SourceFile>, path: Seq<char>, source: Seq<char>, es: Seq<EdgeView>) -> bool {
    let lang = language_of_path(path);
    if !resolves_language(lang) || !parses(grammar_of_language(lang), source) {
        es.len() == 0
    } else {
        exists|t: SyntaxTree|
            #[trigger] parsed(grammar_of_language(lang), source, t) && es == tree_relations(nodes, files, path, source, vstd::utf8::encode_utf8(source), t)
    }
}

/// The grammar that resolution parses a language with.
pub open spec fn grammar_of_language(lang: Seq<char>) -> Grammar {
    if lang == "python"@ {
        Grammar::Python
    } else if lang == "typescript"@ || lang == "javascript"@ {
        Grammar::TypeScript
    } else if lang == "go"@ {
        Grammar::Go
    } else if lang == "rust"@ {
        Grammar::Rust
    } else {
        Grammar::Swift
    }
}

/// `a` and `b` relate the same two nodes by the same kind.
pub open spec fn same_relation(a: EdgeView, b: EdgeView) -> bool {
    a.0 == b.0 && a.1 == b.1 && a.2 == b.2
}

/// The first `n` relations with later repeats of a relation dropped.
pub open spec fn first_relations(es: Seq<EdgeView>, n: int) -> Seq<EdgeView>
    decreases n,
{
    if n <= 0 {
        Seq::empty()
    } else {
        let r = first_relations(es, n - 1);
        if exists|i: int| 0 <= i < n - 1 && #[trigger] same_relation(es[i], es[n - 1]) {
            r
        } else {
            r.push(es[n - 1])
        }
    }
}

/// Every relation kept is one of the input relations, from before position
/// `n`.
proof fn lemma_first_relations_from(es: Seq<EdgeView>, n: int)
    requires
        0 <= n <= es.len(),
    ensures
        forall|k: int|
            #![trigger first_relations(es, n)[k]]
            0 <= k < first_relations(es, n).len() ==> exists|i: int| 0 <= i < n && #[trigger] es[i] == first_relations(es, n)[k],
    decreases n,
{
    if n > 0 {
        lemma_first_relations_from(es, n - 1);
        let r = first_relations(es, n - 1);
        assert forall|k: int| #![trigger first_relations(es, n)[k]] 0 <= k < first_relations(es, n).len() implies exists|i: int|
            0 <= i < n && #[trigger] es[i] == first_relations(es, n)[k] by {
            if k < r.len() {
                assert(first_relations(es, n)[k] == r[k]);
                let i = choose|i: int| 0 <= i < n - 1 && #[trigger] es[i] == r[k];
                assert(es[i] == first_relations(es, n)[k]);
            } else {
                assert(es[n - 1] == first_relations(es, n)[k]);
            }
        }
    }
}

proof fn lemma_first_relations_unique(es: Seq<EdgeView>, n: int)
    requires
        0 <= n <= es.len(),
    ensures
        forall|a: int, b: int|
            0 <= a < b < first_relations(es, n).len() ==> !same_relation(
                #[trigger] first_relations(es, n)[a],
                #[trigger] first_relations(es, n)[b],
            ),
    decreases n,
{
    if n > 0 {
        lemma_first_relations_unique(es, n - 1);
        lemma_first_relations_from(es, n - 1);
        let r = first_relations(es, n - 1);
        let rn = first_relations(es, n);
        if !exists|i: int| 0 <= i < n - 1 && #[trigger] same_relation(es[i], es[n - 1]) {
            assert(rn == r.push(es[n - 1]));
            assert forall|a: int, b: int| 0 <= a < b < rn.len() implies !same_relation(#[trigger] rn[a], #[trigger] rn[b]) by {
                if b == r.len() {
                    assert(rn[a] == r[a]);
                    let i = choose|i: int| 0 <= i < n - 1 && #[trigger] es[i] == r[a];
                    assert(!same_relation(es[i], es[n - 1]));
                } else {
                    assert(rn[a] == r[a] && rn[b] == r[b]);
                }
            }
        }
    }
}

proof fn lemma_first_relations_cover(es: Seq<EdgeView>, n: int)
    requires
        0 <= n <= es.len(),
    ensures
        forall|i: int| #![trigger es[i]] 0 <= i < n ==> exists|k: int| 0 <= k < first_relations(es, n).len() && same_relation(#[trigger] first_relations(es, n)[k], es[i]),
    decreases n,
{
    if n > 0 {
        lemma_first_relations_cover(es, n - 1);
        let r = first_relations(es, n - 1);
        let rn = first_relations(es, n);
        if exists|i: int| 0 <= i < n - 1 && #[trigger] same_relation(es[i], es[n - 1]) {
            assert(rn == r);
            assert forall|i: int| #![trigger es[i]] 0 <= i < n implies exists|k: int| 0 <= k < rn.len() && same_relation(#[trigger] rn[k], es[i]) by {
                if i == n - 1 {
                    let j = choose|j: int| 0 <= j < n - 1 && #[trigger] same_relation(es[j], es[n - 1]);
                    assert(es[j] == es[j]);
                    let k = choose|k: int| 0 <= k < r.len() && same_relation(#[trigger] r[k], es[j]);
                    assert(same_relation(rn[k], es[i]));
                }
            }
        } else {
            assert(rn == r.push(es[n - 1]));
            assert forall|i: int| #![trigger es[i]] 0 <= i < n implies exists|k: int| 0 <= k < rn.len() && same_relation(#[trigger] rn[k], es[i]) by {
                if i == n - 1 {
                    assert(same_relation(rn[r.len() as int], es[i]));
                } else {
                    let k = choose|k: int| 0 <= k < r.len() && same_relation(#[trigger] r[k], es[i]);
                    assert(rn[k] == r[k]);
                }
            }
        }
    }
}

/// Dropping later repeats leaves each relation once: no two kept relations
/// relate the same two nodes by the same kind, and every input relation has
/// a kept one that does.
pub proof fn lemma_first_relations_distinct(es: Seq<EdgeView>, n: int)
    requires
        0 <= n <= es.len(),
    ensures
        forall|a: int, b: int|
            0 <= a < b < first_relations(es, n).len() ==> !same_relation(
                #[trigger] first_relations(es, n)[a],
                #[trigger] first_relations(es, n)[b],
            ),
        forall|i: int| #![trigger es[i]] 0 <= i < n ==> exists|k: int| 0 <= k < first_relations(es, n).len() && same_relation(#[trigger] first_relations(es, n)[k], es[i]),
{
    lemma_first_relations_unique(es, n);
    lemma_first_relations_cover(es, n);
    assert forall|i: int| #![trigger es[i]] 0 <= i < n implies exists|k: int|
        0 <= k < first_relations(es, n).len() && same_relation(#[trigger] first_relations(es, n)[k], es[i]) by {
        assert(es[i] == es[i]);
    }
}

fn resolve_one_file(store: &GraphStore, f: &SourceFile, all: &Vec<SourceFile>, go_files: &Vec<String>, rust_files: &Vec<String>, swift_files: &Vec<String>) -> (r: Vec<ResolvedEdge>)
    requires
        go_files@.map_values(|x: String| x@) == files_of(all@, "go"@),
        rust_files@.map_values(|x: String| x@) == files_of(all@, "rust"@),
        swift_files@.map_values(|x: String| x@) == files_of(all@, "swift"@),
    ensures
        file_relations(store.node_rows(), all@, f.relative_path@, f.source@, edge_views(r@)),
{
    let path = f.relative_path.as_str();
    let source = f.source.as_str();
    let lang = detect_language(path);
    let grammar = if str_eq(lang, "python") {
        Grammar::Python
    } else if str_eq(lang, "typescript") || str_eq(lang, "javascript") {
        Grammar::TypeScript
    } else if str_eq(lang, "go") {
        Grammar::Go
    } else if str_eq(lang, "rust") {
        Grammar::Rust
    } else if str_eq(lang, "swift") {
        Grammar::Swift
    } else {
        return Vec::new();
    };
    let t = match parse_tree(grammar, source) {
        Some(t) => t,
        None => {
            return Vec::new();
        },
    };
    let r = if str_eq(lang, "python") {
        resolve_python_tree(store, path, source, &t)
    } else if str_eq(lang, "typescript") || str_eq(lang, "javascript") {
        resolve_typescript_tree(store, path, source, &t)
    } else if str_eq(lang, "go") {
        let shape = CallShape { call_kind: "call_expression", callee_field: Some("function"), callee_kind: "identifier", function_kind: "function_declaration", other_function_kind: Some("method_declaration") };
        assert(shape == go_shape());
        resolve_cross_file_tree(store, path, source, &t, &shape, go_files, Some("main.go"))
    } else if str_eq(lang, "rust") {
        let shape = CallShape { call_kind: "call_expression", callee_field: Some("function"), callee_kind: "identifier", function_kind: "function_item", other_function_kind: None };
        assert(shape == rust_shape());
        resolve_cross_file_tree(store, path, source, &t, &shape, rust_files, None)
    } else {
        let shape = CallShape { call_kind: "call_expression", callee_field: None, callee_kind: "simple_identifier", function_kind: "function_declaration", other_function_kind: None };
        assert(shape == swift_shape());
        resolve_cross_file_tree(store, path, source, &t, &shape, swift_files, None)
    };
    assert(grammar == grammar_of_language(lang@));
    assert(parsed(grammar, source@, t));
    assert(edge_views(r@) == tree_relations(store.node_rows(), all@, path@, source@, source.spec_bytes(), t));
    r
}

fn paths_of_language(files: &Vec<SourceFile>, lang: &str) -> (r: Vec<String>)
    ensures
        r@.map_values(|x: String| x@) == files_of(files@, lang@),
{
    let ghost pred = |f: SourceFile| language_of_path(f.relative_path@) == lang@;
    let mut r: Vec<String> = Vec::new();
    let mut i: usize = 0;
    while i < files.len()
        invariant
            i <= files.len(),
            pred == (|f: SourceFile| language_of_path(f.relative_path@) == lang@),
            r@.map_values(|x: String| x@) == files@.take(i as int).filter(pred).map_values(|f: SourceFile| f.relative_path@),
        decreases files.len() - i,
    {
        proof {
            crate::store::lemma_filter_step(files@, pred, i as int);
        }
        let ghost before = r@;
        if str_eq(detect_language(files[i].relative_path.as_str()), lang) {
            r.push(files[i].relative_path.clone());
            assert(r@.map_values(|x: String| x@) =~= before.map_values(|x: String| x@).push(files@[i as int].relative_path@));
        }
        assert(files@.take(i as int).filter(pred).map_values(|f: SourceFile| f.relative_path@).push(files@[i as int].relative_path@)
            =~= files@.take(i as int).filter(pred).push(files@[i as int]).map_values(|f: SourceFile| f.relative_path@));
        i += 1;
    }
    assert(files@.take(files.len() as int) =~= files@);
    r
}

/// Order of source files: by path.
pub open spec fn source_key(f: SourceFile) -> Seq<KeyView> {
    seq![KeyView::Text(f.relative_path@)]
}

pub open spec fn source_keys(files: Seq<SourceFile>) -> Seq<Seq<KeyView>> {
    files.map_values(|f: SourceFile| source_key(f))
}

/// `per_file[i]` are the relations of file `i` of `files`.
pub open spec fn per_file_relations(nodes: Seq<crate::model::GraphNode>, files: Seq<SourceFile>, per_file: Seq<Seq<EdgeView>>) -> bool {
    per_file.len() == files.len() && forall|i: int| 0 <= i < files.len() ==> #[trigger] file_relations(nodes, files, files[i].relative_path@, files[i].source@, per_file[i])
}

/// `es` are the relations of `sources` against `nodes`: the files taken in
/// path order, each resolved by its language, later repeats dropped.
pub open spec fn relations_resolved(nodes: Seq<crate::model::GraphNode>, sources: Seq<SourceFile>, es: Seq<EdgeView>) -> bool {
    exists|sorted: Seq<SourceFile>, per_file: Seq<Seq<EdgeView>>|
        #![trigger stably_sorted(sources, source_keys(sources), sorted), per_file_relations(nodes, sorted, per_file)]
        stably_sorted(sources, source_keys(sources), sorted)
            && per_file_relations(nodes, sorted, per_file)
            && es == first_relations(per_file.flatten(), per_file.flatten().len() as int)
}

/// The `CALLS` and `IMPORTS` relations of all source files: the files are
/// taken in path order, each resolved by its language (see
/// `file_relations`), and a relation found again later is dropped.
pub fn resolve_relations(store: &GraphStore, sources: &Vec<SourceFile>) -> (r: Vec<ResolvedEdge>)
    ensures
        relations_resolved(store.node_rows(), sources@, edge_views(r@)),
{
    let mut keys: Vec<Vec<KeyPart>> = Vec::new();
    let mut i: usize = 0;
    while i < sources.len()
        invariant
            i <= sources.len(),
            keys.len() == i,
            forall|k: int| 0 <= k < i ==> key_view(#[trigger] keys@[k]@) == source_key(sources@[k]),
        decreases sources.len() - i,
    {
        let mut key: Vec<KeyPart> = Vec::new();
        key.push(KeyPart::Text(chars_of(sources[i].relative_path.as_str())));
        assert(key_view(key@) =~= source_key(sources@[i as int]));
        keys.push(key);
        i += 1;
    }
    assert(key_views(keys@) =~= source_keys(sources@));
    let sorted = sort_by_keys(sources, &keys);
    let go_files = paths_of_language(&sorted, "go");
    let rust_files = paths_of_language(&sorted, "rust");
    let swift_files = paths_of_language(&sorted, "swift");
    let ghost mut per_file: Seq<Seq<EdgeView>> = Seq::empty();
    let mut all: Vec<ResolvedEdge> = Vec::new();
    let mut k: usize = 0;
    while k < sorted.len()
        invariant
            k <= sorted.len(),
            go_files@.map_values(|x: String| x@) == files_of(sorted@, "go"@),
            rust_files@.map_values(|x: String| x@) == files_of(sorted@, "rust"@),
            swift_files@.map_values(|x: String| x@) == files_of(sorted@, "swift"@),
            per_file.len() == k,
            forall|q: int| 0 <= q < k ==> #[trigger] file_relations(store.node_rows(), sorted@, sorted@[q].relative_path@, sorted@[q].source@, per_file[q]),
            edge_views(all@) == per_file.flatten(),
        decreases sorted.len() - k,
    {
        let mut es = resolve_one_file(store, &sorted[k], &sorted, &go_files, &rust_files, &swift_files);
        let ghost ev = edge_views(es@);
        let ghost before = all@;
        all.append(&mut es);
        proof {
            assert(edge_views(all@) =~= edge_views(before) + ev);
            per_file.lemma_flatten_push(ev);
            per_file = per_file.push(ev);
        }
        k += 1;
    }
    let r = dedup_relations(&all);
    proof {
        assert(stably_sorted(sources@, source_keys(sources@), sorted@));
        assert(per_file_relations(store.node_rows(), sorted@, per_file));
    }
    r
}

/// The relations with later repeats of a relation (same ends and kind) dropped.
pub fn dedup_relations(es: &Vec<ResolvedEdge>) -> (r: Vec<ResolvedEdge>)
    ensures
        edge_views(r@) == first_relations(edge_views(es@), es@.len() as int),
{
    let ghost ev = edge_views(es@);
    let mut kept: Vec<ResolvedEdge> = Vec::new();
    let ghost mut wit: Seq<int> = Seq::empty();
    let ghost mut src: Seq<int> = Seq::empty();
    let mut n: usize = 0;
    while n < es.len()
        invariant
            n <= es.len(),
            ev == edge_views(es@),
            edge_views(kept@) == first_relations(ev, n as int),
            wit.len() == n,
            src.len() == kept@.len(),
            forall|i: int| 0 <= i < n ==> 0 <= #[trigger] wit[i] < kept@.len() && same_relation(edge_view(kept@[wit[i]]), ev[i]),
            forall|j: int| 0 <= j < kept@.len() ==> 0 <= #[trigger] src[j] < n && same_relation(edge_view(kept@[j]), ev[src[j]]),
        decreases es.len() - n,
    {
        let e = &es[n];
        assert(ev[n as int] == edge_view(*e));
        let mut found: Option<usize> = None;
        let mut j: usize = 0;
        while j < kept.len()
            invariant
                j <= kept.len(),
                ev[n as int] == edge_view(*e),
                match found {
                    Some(q) => q < kept@.len() && same_relation(edge_view(kept@[q as int]), ev[n as int]),
                    None => forall|q: int| 0 <= q < j ==> !same_relation(edge_view(#[trigger] kept@[q]), ev[n as int]),
                },
            decreases kept.len() - j,
        {
            if found.is_none() && str_eq(kept[j].from_id.as_str(), e.from_id.as_str())
                && str_eq(kept[j].to_id.as_str(), e.to_id.as_str()) && kept[j].kind == e.kind {
                found = Some(j);
            }
            j += 1;
        }
        let ghost before = kept@;
        match found {
            Some(q) => {
                proof {
                    let i = src[q as int];
                    assert(same_relation(ev[i], ev[n as int]));
                    assert(edge_views(kept@) == first_relations(ev, n + 1));
                    wit = wit.push(q as int);
                }
            },
            None => {
                proof {
                    assert forall|i: int| 0 <= i < n implies !#[trigger] same_relation(ev[i], ev[n as int]) by {
                        assert(same_relation(edge_view(kept@[wit[i]]), ev[i]));
                    }
                }
                kept.push(e.dup());
                proof {
                    assert(edge_views(kept@) =~= edge_views(before).push(ev[n as int]));
                    wit = wit.push(kept@.len() - 1);
                    src = src.push(n as int);
                    assert forall|i: int| 0 <= i < n + 1 implies 0 <= #[trigger] wit[i] < kept@.len() && same_relation(edge_view(kept@[wit[i]]), ev[i]) by {
                        if i < n {
                            assert(kept@[wit[i]] == before[wit[i]]);
                        }
                    }
                    assert forall|j: int| 0 <= j < kept@.len() implies 0 <= #[trigger] src[j] < n + 1 && same_relation(edge_view(kept@[j]), ev[src[j]]) by {
                        if j < before.len() {
                            assert(kept@[j] == before[j]);
                        }
                    }
                }
            },
        }
        n += 1;
    }
    kept
}

} // verus!
