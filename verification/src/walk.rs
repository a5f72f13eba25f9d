//! Repository paths (relative, `/`-separated, normalized): file names,
//! extensions, languages, and the ordered set of entries a walk yields.
use vstd::prelude::*;
use crate::model::WalkEntry;
use crate::order::{KeyPart, KeyView, key_view, key_order, lemma_key_order, lemma_key_order_zero, compare_keys};
use crate::text::{chars_of, seq_eq, subvec, string_of, lower_chars, lower_text, split_char,
    split_on_char, views, lemma_char_u32};

verus! {

// ---------------------------------------------------------------------------
// Path pieces
// ---------------------------------------------------------------------------

/// Position of the last `c` in `s`, or -1.
pub open spec fn last_index_of(s: Seq<char>, c: char) -> int
    decreases s.len(),
{
    if s.len() == 0 {
        -1
    } else if s.last() == c {
        s.len() - 1
    } else {
        last_index_of(s.drop_last(), c)
    }
}

pub proof fn lemma_last_index_of(s: Seq<char>, c: char)
    ensures
        -1 <= last_index_of(s, c) < s.len(),
        last_index_of(s, c) >= 0 ==> s[last_index_of(s, c)] == c,
        forall|j: int| last_index_of(s, c) < j < s.len() ==> s[j] != c,
    decreases s.len(),
{
    if s.len() > 0 && s.last() != c {
        lemma_last_index_of(s.drop_last(), c);
        assert forall|j: int| last_index_of(s, c) < j < s.len() implies s[j] != c by {
            if j < s.len() - 1 {
                assert(s.drop_last()[j] == s[j]);
            }
        }
    }
}

proof fn lemma_last_index_is(s: Seq<char>, c: char, i: int)
    requires
        -1 <= i < s.len(),
        i >= 0 ==> s[i] == c,
        forall|j: int| i < j < s.len() ==> s[j] != c,
    ensures
        last_index_of(s, c) == i,
{
    lemma_last_index_of(s, c);
    let r = last_index_of(s, c);
    if r < i {
        assert(s[i] == c);
    } else if r > i {
        assert(s[r] == c);
    }
}

/// The last path component (the whole path when it has no `/`).
pub open spec fn file_name_of(p: Seq<char>) -> Seq<char> {
    p.skip(last_index_of(p, '/') + 1)
}

/// `Path::extension` of a file name: the text after the last `.`, unless the
/// name has no `.` or only a leading one.
pub open spec fn extension_of(name: Seq<char>) -> Option<Seq<char>> {
    let k = last_index_of(name, '.');
    if name == ".."@ || k <= 0 {
        None
    } else {
        Some(name.skip(k + 1))
    }
}

/// The extension of a path's file name.
pub open spec fn path_extension(p: Seq<char>) -> Option<Seq<char>> {
    if p == "."@ {
        None
    } else {
        extension_of(file_name_of(p))
    }
}

/// The name a walk entry is stored under: its last component, `.` for the root.
pub open spec fn entry_name(p: Seq<char>) -> Seq<char> {
    if p == "."@ {
        "."@
    } else {
        file_name_of(p)
    }
}

/// The parent directory of a path, `.` at the top level.
pub open spec fn parent_of(p: Seq<char>) -> Seq<char> {
    let k = last_index_of(p, '/');
    if k <= 0 {
        "."@
    } else {
        p.take(k)
    }
}

/// Language id for a lowercased file extension.
pub open spec fn language_for_extension(e: Seq<char>) -> Seq<char> {
    if e == "py"@ { "python"@ }
    else if e == "ts"@ || e == "tsx"@ { "typescript"@ }
    else if e == "js"@ || e == "jsx"@ || e == "mjs"@ || e == "cjs"@ { "javascript"@ }
    else if e == "go"@ { "go"@ }
    else if e == "rs"@ { "rust"@ }
    else if e == "rb"@ { "ruby"@ }
    else if e == "java"@ { "java"@ }
    else if e == "md"@ || e == "markdown"@ { "markdown"@ }
    else if e == "txt"@ { "text"@ }
    else if e == "json"@ { "json"@ }
    else if e == "yaml"@ || e == "yml"@ { "yaml"@ }
    else if e == "toml"@ { "toml"@ }
    else if e == "xml"@ { "xml"@ }
    else if e == "html"@ || e == "htm"@ { "html"@ }
    else if e == "css"@ { "css"@ }
    else if e == "sql"@ { "sql"@ }
    else if e == "sh"@ || e == "bash"@ || e == "zsh"@ { "shell"@ }
    else if e == "dart"@ { "dart"@ }
    else if e == "swift"@ { "swift"@ }
    else if e == "kt"@ || e == "kts"@ { "kotlin"@ }
    else if e == "c"@ || e == "h"@ { "c"@ }
    else if e == "cpp"@ || e == "cc"@ || e == "cxx"@ || e == "hpp"@ { "cpp"@ }
    else if e == "cs"@ { "csharp"@ }
    else if e == "php"@ { "php"@ }
    else if e == "lua"@ { "lua"@ }
    else if e == "r"@ { "r"@ }
    else if e == "scala"@ { "scala"@ }
    else if e == "zig"@ { "zig"@ }
    else if e == "ex"@ || e == "exs"@ { "elixir"@ }
    else if e == "erl"@ { "erlang"@ }
    else if e == "hs"@ { "haskell"@ }
    else if e == "ml"@ || e == "mli"@ { "ocaml"@ }
    else if e == "vue"@ { "vue"@ }
    else if e == "svelte"@ { "svelte"@ }
    else { "unknown"@ }
}

/// Language id of a path: by its extension, ASCII case folded; `unknown` otherwise.
pub open spec fn language_of_path(p: Seq<char>) -> Seq<char> {
    match path_extension(p) {
        None => "unknown"@,
        Some(e) => language_for_extension(lower_text(e)),
    }
}

/// A path with a `.graph` or `target` component is left out of a walk.
pub open spec fn is_skipped(p: Seq<char>) -> bool {
    split_char(p, '/').contains(".graph"@) || split_char(p, '/').contains("target"@)
}

/// Position of the last `c` in `s`.
pub fn last_index(s: &[char], c: char) -> (r: Option<usize>)
    ensures
        match r {
            Some(i) => i as int == last_index_of(s@, c) && i < s.len() && s@[i as int] == c,
            None => last_index_of(s@, c) == -1,
        },
{
    let mut i: usize = s.len();
    while i > 0
        invariant
            i <= s.len(),
            forall|j: int| i <= j < s.len() ==> s@[j] != c,
        decreases i,
    {
        if s[i - 1] == c {
            proof {
                lemma_last_index_is(s@, c, i - 1);
            }
            return Some(i - 1);
        }
        i -= 1;
    }
    proof {
        lemma_last_index_is(s@, c, -1);
    }
    None
}

pub fn file_name(p: &[char]) -> (r: Vec<char>)
    ensures
        r@ == file_name_of(p@),
{
    proof {
        lemma_last_index_of(p@, '/');
    }
    match last_index(p, '/') {
        Some(i) => subvec(p, i + 1, p.len()),
        None => {
            assert(p@.skip(0) =~= p@);
            subvec(p, 0, p.len())
        },
    }
}

pub fn extension(name: &[char]) -> (r: Option<Vec<char>>)
    ensures
        match r {
            Some(e) => extension_of(name@) == Some(e@),
            None => extension_of(name@) == None::<Seq<char>>,
        },
{
    proof {
        lemma_last_index_of(name@, '.');
    }
    let dots = chars_of("..");
    if seq_eq(name, &dots) {
        return None;
    }
    match last_index(name, '.') {
        Some(k) => if k == 0 {
            None
        } else {
            Some(subvec(name, k + 1, name.len()))
        },
        None => None,
    }
}

pub fn path_ext(p: &[char]) -> (r: Option<Vec<char>>)
    ensures
        match r {
            Some(e) => path_extension(p@) == Some(e@),
            None => path_extension(p@) == None::<Seq<char>>,
        },
{
    let dot = chars_of(".");
    if seq_eq(p, &dot) {
        return None;
    }
    let name = file_name(p);
    extension(&name)
}

pub fn parent_path(p: &[char]) -> (r: Vec<char>)
    ensures
        r@ == parent_of(p@),
{
    match last_index(p, '/') {
        Some(k) => if k == 0 {
            chars_of(".")
        } else {
            subvec(p, 0, k)
        },
        None => chars_of("."),
    }
}

fn text_is(e: &[char], lit: &str) -> (r: bool)
    ensures
        r == (e@ == lit@),
{
    let l = chars_of(lit);
    seq_eq(e, &l)
}

/// Language id for a lowercased extension.
pub fn language_for_ext(e: &[char]) -> (r: &'static str)
    ensures
        r@ == language_for_extension(e@),
{
    if text_is(e, "py") { "python" }
    else if text_is(e, "ts") || text_is(e, "tsx") { "typescript" }
    else if text_is(e, "js") || text_is(e, "jsx") || text_is(e, "mjs") || text_is(e, "cjs") { "javascript" }
    else if text_is(e, "go") { "go" }
    else if text_is(e, "rs") { "rust" }
    else if text_is(e, "rb") { "ruby" }
    else if text_is(e, "java") { "java" }
    else if text_is(e, "md") || text_is(e, "markdown") { "markdown" }
    else if text_is(e, "txt") { "text" }
    else if text_is(e, "json") { "json" }
    else if text_is(e, "yaml") || text_is(e, "yml") { "yaml" }
    else if text_is(e, "toml") { "toml" }
    else if text_is(e, "xml") { "xml" }
    else if text_is(e, "html") || text_is(e, "htm") { "html" }
    else if text_is(e, "css") { "css" }
    else if text_is(e, "sql") { "sql" }
    else if text_is(e, "sh") || text_is(e, "bash") || text_is(e, "zsh") { "shell" }
    else if text_is(e, "dart") { "dart" }
    else if text_is(e, "swift") { "swift" }
    else if text_is(e, "kt") || text_is(e, "kts") { "kotlin" }
    else if text_is(e, "c") || text_is(e, "h") { "c" }
    else if text_is(e, "cpp") || text_is(e, "cc") || text_is(e, "cxx") || text_is(e, "hpp") { "cpp" }
    else if text_is(e, "cs") { "csharp" }
    else if text_is(e, "php") { "php" }
    else if text_is(e, "lua") { "lua" }
    else if text_is(e, "r") { "r" }
    else if text_is(e, "scala") { "scala" }
    else if text_is(e, "zig") { "zig" }
    else if text_is(e, "ex") || text_is(e, "exs") { "elixir" }
    else if text_is(e, "erl") { "erlang" }
    else if text_is(e, "hs") { "haskell" }
    else if text_is(e, "ml") || text_is(e, "mli") { "ocaml" }
    else if text_is(e, "vue") { "vue" }
    else if text_is(e, "svelte") { "svelte" }
    else { "unknown" }
}

/// Detects the language id of a file path from its extension; `"unknown"` for
/// unrecognized or missing extensions.
pub fn detect_language(path: &str) -> (r: &'static str)
    ensures
        r@ == language_of_path(path@),
{
    let p = chars_of(path);
    match path_ext(&p) {
        None => "unknown",
        Some(e) => {
            let lower = lower_chars(&e);
            language_for_ext(&lower)
        },
    }
}

/// True when a component of the path is `.graph` or `target`.
pub fn should_skip_relative(relative: &str) -> (b: bool)
    ensures
        b == is_skipped(relative@),
{
    let p = chars_of(relative);
    let parts = split_on_char(&p, '/');
    let graph = chars_of(".graph");
    let target = chars_of("target");
    let mut i: usize = 0;
    while i < parts.len()
        invariant
            i <= parts.len(),
            views(parts@) == split_char(relative@, '/'),
            graph@ == ".graph"@,
            target@ == "target"@,
            forall|j: int| 0 <= j < i ==> parts@[j]@ != ".graph"@ && parts@[j]@ != "target"@,
        decreases parts.len() - i,
    {
        if seq_eq(&parts[i], &graph) || seq_eq(&parts[i], &target) {
            proof {
                assert(views(parts@)[i as int] == parts@[i as int]@);
            }
            return true;
        }
        i += 1;
    }
    proof {
        let s = split_char(relative@, '/');
        assert forall|x: Seq<char>| s.contains(x) implies x != ".graph"@ && x != "target"@ by {
            let k = choose|k: int| 0 <= k < s.len() && s[k] == x;
            assert(views(parts@)[k] == parts@[k]@);
        }
    }
    false
}


// ---------------------------------------------------------------------------
// The entries of a walk
// ---------------------------------------------------------------------------

/// Sort rank of a path character: `/` before every other character, so that
/// paths order component by component.
pub open spec fn char_rank(c: char) -> nat {
    if c == '/' {
        0
    } else {
        (c as u32) as nat + 1
    }
}

/// The sort key of a path: the root `.` first, then component-wise order.
pub open spec fn path_key(p: Seq<char>) -> Seq<KeyView> {
    if p == "."@ {
        Seq::empty()
    } else {
        p.map_values(|c: char| KeyView::Num(char_rank(c)))
    }
}

/// `k` is the path up to one of the `/` of `p` (a proper ancestor directory).
pub open spec fn is_ancestor(k: Seq<char>, p: Seq<char>) -> bool {
    exists|i: int| 0 < i < p.len() && p[i] == '/' && k == p.take(i)
}

/// What a walk records of a path: whether it is a directory, and its size.
pub type EntryFacts = (bool, Option<u64>);

/// `k` is `p` cut at one of its `/` before position `i`.
pub open spec fn ancestor_before(p: Seq<char>, i: int, k: Seq<char>) -> bool {
    exists|j: int| 0 < j < i && p[j] == '/' && k == p.take(j)
}

/// `m` with every ancestor directory of `p` that it lacks added.
pub open spec fn with_ancestors(m: Map<Seq<char>, EntryFacts>, p: Seq<char>) -> Map<Seq<char>, EntryFacts> {
    Map::new(
        |k: Seq<char>| m.dom().contains(k) || is_ancestor(k, p),
        |k: Seq<char>| if m.dom().contains(k) { m[k] } else { (true, None) },
    )
}

/// A walked path that is not recorded again: the root itself, or an empty path.
pub open spec fn ignored_path(p: Seq<char>) -> bool {
    p.len() == 0 || p == "."@
}

/// The entries recorded for the paths a walk yields, in order: the root, then
/// each reported path with its missing ancestors; a later report of a path
/// replaces an earlier one.
pub open spec fn walk_model(raw: Seq<WalkEntry>) -> Map<Seq<char>, EntryFacts>
    decreases raw.len(),
{
    if raw.len() == 0 {
        map!["."@ => (true, None::<u64>)]
    } else {
        let m = walk_model(raw.drop_last());
        let e = raw.last();
        let p = e.relative_path@;
        if ignored_path(p) {
            m
        } else {
            with_ancestors(m, p).insert(p, (e.is_dir, e.size_bytes))
        }
    }
}

/// `out` lists the map `m` by path, strictly ordered by path key.
pub open spec fn lists_by_path(out: Seq<WalkEntry>, m: Map<Seq<char>, EntryFacts>) -> bool {
    &&& forall|i: int, j: int|
        0 <= i < j < out.len() ==> key_order(path_key(out[i].relative_path@), path_key(out[j].relative_path@)) < 0
    &&& forall|i: int|
        0 <= i < out.len() ==> m.dom().contains(#[trigger] out[i].relative_path@) && m[out[i].relative_path@] == (
            out[i].is_dir,
            out[i].size_bytes,
        )
    &&& forall|k: Seq<char>|
        m.dom().contains(k) ==> exists|i: int| 0 <= i < out.len() && #[trigger] out[i].relative_path@ == k
    &&& forall|k: Seq<char>| #[trigger] m.dom().contains(k) ==> k.len() > 0
}

proof fn lemma_path_key_injective(p: Seq<char>, q: Seq<char>)
    requires
        p.len() > 0,
        q.len() > 0,
        path_key(p) == path_key(q),
    ensures
        p == q,
{
    if p == "."@ && q != "."@ {
        assert(path_key(q).len() == q.len());
    } else if p != "."@ && q == "."@ {
        assert(path_key(p).len() == p.len());
    } else if p != "."@ && q != "."@ {
        assert(path_key(p).len() == p.len());
        assert forall|i: int| 0 <= i < p.len() implies p[i] == q[i] by {
            assert(path_key(p) == p.map_values(|c: char| KeyView::Num(char_rank(c))));
            assert(path_key(q) == q.map_values(|c: char| KeyView::Num(char_rank(c))));
            assert(path_key(p)[i] == KeyView::Num(char_rank(p[i])));
            assert(path_key(q)[i] == KeyView::Num(char_rank(q[i])));
            assert(path_key(p)[i] == path_key(q)[i]);
            assert(char_rank(p[i]) == char_rank(q[i]));
            if p[i] != '/' && q[i] != '/' {
                lemma_char_u32(p[i], q[i]);
            }
        }
        assert(p =~= q);
    }
}

fn path_key_of(p: &str) -> (k: Vec<KeyPart>)
    ensures
        key_view(k@) == path_key(p@),
{
    let mut k: Vec<KeyPart> = Vec::new();
    if str_is(p, ".") {
        assert(key_view(k@) =~= path_key(p@));
        return k;
    }
    let cs = chars_of(p);
    let mut i: usize = 0;
    while i < cs.len()
        invariant
            i <= cs.len(),
            cs@ == p@,
            p@ != "."@,
            key_view(k@) == path_key(p@).take(i as int),
        decreases cs.len() - i,
    {
        let c = cs[i];
        let r: u64 = if c == '/' {
            0
        } else {
            (c as u32) as u64 + 1
        };
        let ghost before = k@;
        k.push(KeyPart::Num(r));
        proof {
            assert(path_key(p@) == p@.map_values(|c: char| KeyView::Num(char_rank(c))));
            assert(path_key(p@)[i as int] == KeyView::Num(char_rank(c)));
            assert(KeyPart::Num(r).view() == KeyView::Num(char_rank(c)));
            assert(key_view(k@) =~= key_view(before).push(KeyPart::Num(r).view()));
            assert(key_view(k@) =~= path_key(p@).take(i + 1));
        }
        i += 1;
    }
    assert(path_key(p@).take(cs.len() as int) =~= path_key(p@));
    k
}

fn str_is(a: &str, lit: &str) -> (r: bool)
    ensures
        r == (a@ == lit@),
{
    let x = chars_of(a);
    let y = chars_of(lit);
    seq_eq(&x, &y)
}

fn entry_copy(path: &str, is_dir: bool, size_bytes: Option<u64>) -> (e: WalkEntry)
    ensures
        e.relative_path@ == path@,
        e.is_dir == is_dir,
        e.size_bytes == size_bytes,
{
    WalkEntry { relative_path: path.to_owned(), is_dir, size_bytes }
}

/// Records `path` in the ordered list: replaces its entry when `replace`,
/// keeps an existing one otherwise, and inserts it in order when absent.
fn upsert_entry(
    out: &mut Vec<WalkEntry>,
    Ghost(m): Ghost<Map<Seq<char>, EntryFacts>>,
    path: &str,
    is_dir: bool,
    size_bytes: Option<u64>,
    replace: bool,
)
    requires
        lists_by_path(old(out)@, m),
        path@.len() > 0,
    ensures
        lists_by_path(
            final(out)@,
            if replace || !m.dom().contains(path@) {
                m.insert(path@, (is_dir, size_bytes))
            } else {
                m
            },
        ),
{
    let key = path_key_of(path);
    let mut pos: usize = 0;
    let mut found = false;
    while pos < out.len()
        invariant_except_break
            pos <= out.len(),
            !found,
            forall|i: int| 0 <= i < pos ==> key_order(path_key(out@[i].relative_path@), key_view(key@)) < 0,
        invariant
            key_view(key@) == path_key(path@),
            out@ == old(out)@,
        ensures
            pos <= out.len(),
            forall|i: int| 0 <= i < pos ==> key_order(path_key(out@[i].relative_path@), key_view(key@)) < 0,
            found ==> pos < out.len() && key_order(path_key(out@[pos as int].relative_path@), key_view(key@)) == 0,
            !found ==> pos == out.len() || key_order(path_key(out@[pos as int].relative_path@), key_view(key@)) > 0,
        decreases out.len() - pos,
    {
        let k = path_key_of(out[pos].relative_path.as_str());
        let c = compare_keys(&k, &key);
        if c == 0 {
            found = true;
            break;
        }
        if c > 0 {
            break;
        }
        pos += 1;
    }
    let ghost o = out@;
    let ghost p = path@;
    let ghost m2 = if replace || !m.dom().contains(p) { m.insert(p, (is_dir, size_bytes)) } else { m };
    if found {
        proof {
            lemma_key_order_zero(path_key(o[pos as int].relative_path@), path_key(p));
            lemma_path_key_injective(o[pos as int].relative_path@, p);
            assert(m.dom().contains(p));
        }
        if replace {
            out.set(pos, entry_copy(path, is_dir, size_bytes));
            proof {
                assert forall|i: int, j: int| 0 <= i < j < out@.len() implies key_order(
                    path_key(out@[i].relative_path@),
                    path_key(out@[j].relative_path@),
                ) < 0 by {
                    assert(out@[i].relative_path@ == o[i].relative_path@);
                    assert(out@[j].relative_path@ == o[j].relative_path@);
                }
                assert forall|i: int| 0 <= i < out@.len() implies m2.dom().contains(
                    #[trigger] out@[i].relative_path@,
                ) && m2[out@[i].relative_path@] == (out@[i].is_dir, out@[i].size_bytes) by {
                    if i != pos {
                        assert(out@[i] == o[i]);
                        if o[i].relative_path@ == p {
                            lemma_path_key_injective(o[i].relative_path@, p);
                        }
                    }
                }
                assert forall|k: Seq<char>| m2.dom().contains(k) implies exists|i: int|
                    0 <= i < out@.len() && #[trigger] out@[i].relative_path@ == k by {
                    if k == p {
                        assert(out@[pos as int].relative_path@ == k);
                    } else {
                        let i = choose|i: int| 0 <= i < o.len() && #[trigger] o[i].relative_path@ == k;
                        assert(out@[i].relative_path@ == o[i].relative_path@);
                    }
                }
            }
        }
    } else {
        proof {
            lemma_key_order(path_key(p), path_key(p), path_key(p));
            assert forall|i: int| 0 <= i < o.len() implies o[i].relative_path@ != p by {
                if i < pos {
                } else {
                    if i > pos {
                        lemma_key_order(path_key(p), path_key(o[pos as int].relative_path@), path_key(o[i].relative_path@));
                    }
                    lemma_key_order(path_key(o[i].relative_path@), path_key(p), path_key(p));
                }
            }
            assert(!m.dom().contains(p));
        }
        out.insert(pos, entry_copy(path, is_dir, size_bytes));
        proof {
            assert(out@ == o.insert(pos as int, out@[pos as int]));
            assert forall|i: int, j: int| 0 <= i < j < out@.len() implies key_order(
                path_key(out@[i].relative_path@),
                path_key(out@[j].relative_path@),
            ) < 0 by {
                if j < pos {
                    assert(out@[i] == o[i] && out@[j] == o[j]);
                } else if j == pos {
                    assert(out@[i] == o[i]);
                } else if i < pos {
                    assert(out@[i] == o[i] && out@[j] == o[j - 1]);
                    lemma_key_order(path_key(o[i].relative_path@), path_key(p), path_key(o[j - 1].relative_path@));
                    if j - 1 > pos {
                        lemma_key_order(path_key(p), path_key(o[pos as int].relative_path@), path_key(o[j - 1].relative_path@));
                    }
                    lemma_key_order(path_key(o[pos as int].relative_path@), path_key(p), path_key(p));
                } else if i == pos {
                    assert(out@[j] == o[j - 1]);
                    if j - 1 > pos {
                        lemma_key_order(path_key(p), path_key(o[pos as int].relative_path@), path_key(o[j - 1].relative_path@));
                    }
                    lemma_key_order(path_key(o[pos as int].relative_path@), path_key(p), path_key(p));
                } else {
                    assert(out@[i] == o[i - 1] && out@[j] == o[j - 1]);
                }
            }
            assert forall|i: int| 0 <= i < out@.len() implies m2.dom().contains(
                #[trigger] out@[i].relative_path@,
            ) && m2[out@[i].relative_path@] == (out@[i].is_dir, out@[i].size_bytes) by {
                if i < pos {
                    assert(out@[i] == o[i]);
                } else if i > pos {
                    assert(out@[i] == o[i - 1]);
                }
            }
            assert forall|k: Seq<char>| m2.dom().contains(k) implies exists|i: int|
                0 <= i < out@.len() && #[trigger] out@[i].relative_path@ == k by {
                if k == p {
                    assert(out@[pos as int].relative_path@ == k);
                } else {
                    let i = choose|i: int| 0 <= i < o.len() && #[trigger] o[i].relative_path@ == k;
                    if i < pos {
                        assert(out@[i] == o[i]);
                    } else {
                        assert(out@[i + 1] == o[i]);
                    }
                }
            }
        }
    }
}

/// The entries of a walk, ordered by path: the root `.` directory, every
/// reported path (the last report of a path wins), and every ancestor
/// directory of those paths. `raw` is what the walker reported, in
/// its order, with `/`-separated relative paths.
pub fn collect_walk_entries(raw: &Vec<WalkEntry>) -> (r: Vec<WalkEntry>)
    ensures
        lists_by_path(r@, walk_model(raw@)),
{
    let mut out: Vec<WalkEntry> = Vec::new();
    out.push(entry_copy(".", true, None));
    let ghost mut m: Map<Seq<char>, EntryFacts> = map!["."@ => (true, None::<u64>)];
    proof {
        reveal_strlit(".");
        assert(raw@.take(0) =~= Seq::<WalkEntry>::empty());
        assert(out@[0].relative_path@ == "."@);
        assert(lists_by_path(out@, m));
    }
    let mut n: usize = 0;
    while n < raw.len()
        invariant
            n <= raw.len(),
            lists_by_path(out@, m),
            m == walk_model(raw@.take(n as int)),
        decreases raw.len() - n,
    {
        let e = &raw[n];
        let path = e.relative_path.as_str();
        proof {
            assert(raw@.take(n + 1).drop_last() =~= raw@.take(n as int));
            assert(raw@.take(n + 1).last() == raw@[n as int]);
        }
        let p = chars_of(path);
        if p.len() == 0 || str_is(path, ".") {
            n += 1;
            continue;
        }
        let ghost m0 = m;
        let mut i: usize = 1;
        while i < p.len()
            invariant
                1 <= i <= p.len(),
                p@ == path@,
                p@.len() > 0,
                lists_by_path(out@, m),
                m == Map::new(
                    |k: Seq<char>| m0.dom().contains(k) || ancestor_before(p@, i as int, k),
                    |k: Seq<char>| if m0.dom().contains(k) { m0[k] } else { (true, None::<u64>) },
                ),
            decreases p.len() - i,
        {
            if p[i] == '/' {
                let a = string_of(&subvec(&p, 0, i));
                let ghost before = m;
                upsert_entry(&mut out, Ghost(m), a.as_str(), true, None, false);
                proof {
                    let k0 = a@;
                    assert(k0 == p@.take(i as int));
                    m = if !before.dom().contains(k0) { before.insert(k0, (true, None::<u64>)) } else { before };
                    assert(m =~= Map::new(
                        |k: Seq<char>| m0.dom().contains(k) || ancestor_before(p@, i + 1, k),
                        |k: Seq<char>| if m0.dom().contains(k) { m0[k] } else { (true, None::<u64>) },
                    )) by {
                        assert forall|k: Seq<char>| #[trigger] ancestor_before(p@, i + 1, k) implies
                            (k == k0 || ancestor_before(p@, i as int, k)) by {
                            let j = choose|j: int| 0 < j < i + 1 && p@[j] == '/' && k == p@.take(j);
                            if j < i {
                            }
                        }
                    }
                }
            } else {
                proof {
                    assert(m =~= Map::new(
                        |k: Seq<char>| m0.dom().contains(k) || ancestor_before(p@, i + 1, k),
                        |k: Seq<char>| if m0.dom().contains(k) { m0[k] } else { (true, None::<u64>) },
                    )) by {
                        assert forall|k: Seq<char>| #[trigger] ancestor_before(p@, i + 1, k) implies
                            (ancestor_before(p@, i as int, k)) by {
                            let j = choose|j: int| 0 < j < i + 1 && p@[j] == '/' && k == p@.take(j);
                        }
                    }
                }
            }
            i += 1;
        }
        proof {
            assert(m =~= with_ancestors(m0, path@));
        }
        let ghost before = m;
        upsert_entry(&mut out, Ghost(m), path, e.is_dir, e.size_bytes, true);
        proof {
            m = before.insert(path@, (e.is_dir, e.size_bytes));
        }
        n += 1;
    }
    proof {
        assert(raw@.take(raw.len() as int) =~= raw@);
    }
    out
}

} // verus!
