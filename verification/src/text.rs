//! Text primitives over `Seq<char>`: the string vocabulary that the rest of
//! the library states its contracts in, with verified executable versions.
use vstd::prelude::*;

verus! {

// ---------------------------------------------------------------------------
// Specifications
// ---------------------------------------------------------------------------

/// Unicode `White_Space` property, the set that `char::is_whitespace` tests.
pub open spec fn is_ws(c: char) -> bool {
    let u = c as u32;
    ||| (0x09 <= u && u <= 0x0D)
    ||| u == 0x20
    ||| u == 0x85
    ||| u == 0xA0
    ||| u == 0x1680
    ||| (0x2000 <= u && u <= 0x200A)
    ||| u == 0x2028
    ||| u == 0x2029
    ||| u == 0x202F
    ||| u == 0x205F
    ||| u == 0x3000
}

/// Number of leading whitespace characters.
pub open spec fn lead_ws(s: Seq<char>) -> nat
    decreases s.len(),
{
    if s.len() > 0 && is_ws(s[0]) {
        1 + lead_ws(s.drop_first())
    } else {
        0
    }
}

/// Number of trailing whitespace characters.
pub open spec fn trail_ws(s: Seq<char>) -> nat
    decreases s.len(),
{
    if s.len() > 0 && is_ws(s.last()) {
        1 + trail_ws(s.drop_last())
    } else {
        0
    }
}

pub open spec fn trim_start(s: Seq<char>) -> Seq<char> {
    s.skip(lead_ws(s) as int)
}

pub open spec fn trim_end(s: Seq<char>) -> Seq<char> {
    s.take(s.len() - trail_ws(s))
}

/// `str::trim`: whitespace removed from both ends.
pub open spec fn trim(s: Seq<char>) -> Seq<char> {
    trim_end(trim_start(s))
}

pub open spec fn is_prefix(p: Seq<char>, s: Seq<char>) -> bool {
    p.len() <= s.len() && s.take(p.len() as int) == p
}

pub open spec fn is_suffix(p: Seq<char>, s: Seq<char>) -> bool {
    p.len() <= s.len() && s.skip(s.len() - p.len()) == p
}

/// `t` occurs in `s` starting at position `i`.
pub open spec fn occurs_at(s: Seq<char>, t: Seq<char>, i: int) -> bool {
    0 <= i && i + t.len() <= s.len() && s.subrange(i, i + t.len()) == t
}

pub open spec fn contains_text(s: Seq<char>, t: Seq<char>) -> bool {
    exists|i: int| occurs_at(s, t, i)
}

/// `i` is the first position at which `t` occurs in `s`.
pub open spec fn is_first_occurrence(s: Seq<char>, t: Seq<char>, i: int) -> bool {
    occurs_at(s, t, i) && forall|j: int| 0 <= j < i ==> !occurs_at(s, t, j)
}

pub open spec fn first_occurrence(s: Seq<char>, t: Seq<char>) -> Option<int> {
    if contains_text(s, t) {
        Some(choose|i: int| is_first_occurrence(s, t, i))
    } else {
        None
    }
}

/// `str::split_once`: the text before and after the first occurrence of `sep`.
pub open spec fn split_once(s: Seq<char>, sep: Seq<char>) -> Option<(Seq<char>, Seq<char>)> {
    match first_occurrence(s, sep) {
        Some(i) => Some((s.take(i), s.skip(i + sep.len()))),
        None => None,
    }
}

/// `str::strip_prefix`.
pub open spec fn strip_prefix(s: Seq<char>, p: Seq<char>) -> Option<Seq<char>> {
    if is_prefix(p, s) {
        Some(s.skip(p.len() as int))
    } else {
        None
    }
}

/// Position of the first `c` in `s`.
pub open spec fn first_char_index(s: Seq<char>, c: char) -> Option<int> {
    if s.contains(c) {
        Some(choose|i: int| 0 <= i < s.len() && s[i] == c && forall|j: int| 0 <= j < i ==> s[j] != c)
    } else {
        None
    }
}

/// `str::split(c)`: the pieces between occurrences of `c`, empty ones included.
#[verifier::opaque]
pub open spec fn split_char(s: Seq<char>, c: char) -> Seq<Seq<char>>
    decreases s.len(),
{
    match first_char_index(s, c) {
        Some(i) => if 0 <= i < s.len() {
            seq![s.take(i)] + split_char(s.skip(i + 1), c)
        } else {
            seq![s]
        },
        None => seq![s],
    }
}

/// One line as `str::lines` yields it: a single trailing `'\r'` removed.
pub open spec fn strip_cr(line: Seq<char>) -> Seq<char> {
    if line.len() > 0 && line.last() == '\r' {
        line.drop_last()
    } else {
        line
    }
}

/// `str::lines`: split at `'\n'`; a final line ending adds no empty line.
#[verifier::opaque]
pub open spec fn lines_of(s: Seq<char>) -> Seq<Seq<char>>
    decreases s.len(),
{
    if s.len() == 0 {
        Seq::empty()
    } else {
        match first_char_index(s, '\n') {
            Some(i) => if 0 <= i < s.len() {
                seq![strip_cr(s.take(i))] + lines_of(s.skip(i + 1))
            } else {
                seq![s]
            },
            None => seq![s],
        }
    }
}

pub open spec fn ascii_lower(c: char) -> char {
    if 'A' <= c && c <= 'Z' {
        ((c as u32) + 32) as char
    } else {
        c
    }
}

pub open spec fn ascii_upper(c: char) -> char {
    if 'a' <= c && c <= 'z' {
        ((c as u32) - 32) as char
    } else {
        c
    }
}

pub open spec fn lower_text(s: Seq<char>) -> Seq<char> {
    s.map_values(|c: char| ascii_lower(c))
}

pub open spec fn upper_text(s: Seq<char>) -> Seq<char> {
    s.map_values(|c: char| ascii_upper(c))
}

/// `str::replace` of one character by another.
pub open spec fn replace_char(s: Seq<char>, from: char, to: char) -> Seq<char> {
    s.map_values(|c: char| if c == from { to } else { c })
}

pub open spec fn digit_char(d: nat) -> char {
    ((d % 10) + 48) as char
}

/// Decimal rendering of a natural number, as `Display` prints integers.
pub open spec fn decimal(n: nat) -> Seq<char>
    decreases n,
{
    if n < 10 {
        seq![digit_char(n)]
    } else {
        decimal(n / 10).push(digit_char(n % 10))
    }
}

/// Three-way comparison by code point (the order of `str`'s `Ord`).
pub open spec fn text_order(a: Seq<char>, b: Seq<char>) -> int
    decreases a.len(),
{
    if a.len() == 0 {
        if b.len() == 0 {
            0
        } else {
            -1
        }
    } else if b.len() == 0 {
        1
    } else if (a[0] as u32) < (b[0] as u32) {
        -1
    } else if (a[0] as u32) > (b[0] as u32) {
        1
    } else {
        text_order(a.drop_first(), b.drop_first())
    }
}

pub open spec fn count_char(s: Seq<char>, c: char) -> nat
    decreases s.len(),
{
    if s.len() == 0 {
        0
    } else {
        count_char(s.drop_last(), c) + if s.last() == c { 1nat } else { 0nat }
    }
}

// ---------------------------------------------------------------------------
// Lemmas
// ---------------------------------------------------------------------------

pub proof fn lemma_first_occurrence(s: Seq<char>, t: Seq<char>, i: int)
    requires
        is_first_occurrence(s, t, i),
    ensures
        first_occurrence(s, t) == Some(i),
{
    assert(contains_text(s, t));
    let k = choose|k: int| is_first_occurrence(s, t, k);
    if k < i {
        assert(!occurs_at(s, t, k));
    }
    if i < k {
        assert(!occurs_at(s, t, i));
    }
}

pub proof fn lemma_no_occurrence(s: Seq<char>, t: Seq<char>)
    requires
        forall|j: int| 0 <= j ==> !occurs_at(s, t, j),
    ensures
        first_occurrence(s, t) == None::<int>,
{
    if contains_text(s, t) {
        let k = choose|k: int| occurs_at(s, t, k);
        assert(!occurs_at(s, t, k));
    }
}

pub proof fn lemma_first_char(s: Seq<char>, c: char, i: int)
    requires
        0 <= i < s.len(),
        s[i] == c,
        forall|j: int| 0 <= j < i ==> s[j] != c,
    ensures
        first_char_index(s, c) == Some(i),
{
    assert(s.contains(c));
    let k = choose|k: int| 0 <= k < s.len() && s[k] == c && forall|j: int| 0 <= j < k ==> s[j] != c;
    if k < i {
        assert(s[k] != c);
    }
    if i < k {
        assert(s[i] != c);
    }
}

pub proof fn lemma_no_char(s: Seq<char>, c: char)
    requires
        forall|j: int| 0 <= j < s.len() ==> s[j] != c,
    ensures
        first_char_index(s, c) == None::<int>,
{
    if s.contains(c) {
        let k = choose|k: int| 0 <= k < s.len() && s[k] == c;
        assert(s[k] != c);
    }
}

proof fn lemma_lead_ws_step(s: Seq<char>, i: int)
    requires
        0 <= i < s.len(),
        is_ws(s[i]),
    ensures
        lead_ws(s.skip(i)) == 1 + lead_ws(s.skip(i + 1)),
{
    assert(s.skip(i).drop_first() =~= s.skip(i + 1));
}

proof fn lemma_trail_ws_step(s: Seq<char>, j: int)
    requires
        0 < j <= s.len(),
        is_ws(s[j - 1]),
    ensures
        trail_ws(s.take(j)) == 1 + trail_ws(s.take(j - 1)),
{
    assert(s.take(j).drop_last() =~= s.take(j - 1));
}

/// There are no more trailing whitespace characters than characters.
pub proof fn lemma_trail_ws_bound(s: Seq<char>)
    ensures
        trail_ws(s) <= s.len(),
    decreases s.len(),
{
    if s.len() > 0 && is_ws(s.last()) {
        lemma_trail_ws_bound(s.drop_last());
    }
}

pub proof fn lemma_char_u32(x: char, y: char)
    requires
        (x as u32) == (y as u32),
    ensures
        x == y,
{
    assert((x as u32) as char == x);
    assert((y as u32) as char == y);
}

pub proof fn lemma_text_order_refl(a: Seq<char>)
    ensures
        text_order(a, a) == 0,
    decreases a.len(),
{
    if a.len() > 0 {
        lemma_text_order_refl(a.drop_first());
    }
}

pub proof fn lemma_text_order_antisym(a: Seq<char>, b: Seq<char>)
    ensures
        text_order(a, b) == -text_order(b, a),
        text_order(a, b) == 0 ==> a == b,
        -1 <= text_order(a, b) <= 1,
    decreases a.len(),
{
    if a.len() > 0 && b.len() > 0 {
        lemma_text_order_antisym(a.drop_first(), b.drop_first());
        if (a[0] as u32) == (b[0] as u32) {
            lemma_char_u32(a[0], b[0]);
            if text_order(a, b) == 0 {
                assert(a.drop_first() == b.drop_first());
                assert(a =~= seq![a[0]] + a.drop_first());
                assert(b =~= seq![b[0]] + b.drop_first());
            }
        }
    }
}

pub proof fn lemma_text_order_trans(a: Seq<char>, b: Seq<char>, c: Seq<char>)
    requires
        text_order(a, b) <= 0,
        text_order(b, c) <= 0,
    ensures
        text_order(a, c) <= 0,
        text_order(a, b) < 0 || text_order(b, c) < 0 ==> text_order(a, c) < 0,
    decreases a.len(),
{
    lemma_text_order_antisym(a, b);
    lemma_text_order_antisym(b, c);
    lemma_text_order_antisym(a, c);
    if a.len() > 0 && b.len() > 0 && c.len() > 0 {
        if (a[0] as u32) == (b[0] as u32) && (b[0] as u32) == (c[0] as u32) {
            lemma_text_order_trans(a.drop_first(), b.drop_first(), c.drop_first());
        }
    }
}

// ---------------------------------------------------------------------------
// Executable primitives
// ---------------------------------------------------------------------------

/// `String::push` (std): appends one character.
#[verifier::external_body]
pub(crate) fn push_char(s: &mut String, c: char)
    ensures
        final(s)@ == old(s)@.push(c),
{
    s.push(c);
}

pub fn char_is_ws(c: char) -> (b: bool)
    ensures
        b == is_ws(c),
{
    let u = c as u32;
    (0x09 <= u && u <= 0x0D) || u == 0x20 || u == 0x85 || u == 0xA0 || u == 0x1680 || (0x2000
        <= u && u <= 0x200A) || u == 0x2028 || u == 0x2029 || u == 0x202F || u == 0x205F || u
        == 0x3000
}

/// The characters of `s`.
pub fn chars_of(s: &str) -> (v: Vec<char>)
    ensures
        v@ == s@,
{
    let mut v: Vec<char> = Vec::new();
    for c in it: s.chars()
        invariant
            v@ == it.seq().take(it.index() as int),
    {
        v.push(c);
    }
    v
}

/// A `String` holding exactly the characters of `v`.
pub fn string_of(v: &[char]) -> (s: String)
    ensures
        s@ == v@,
{
    let mut s = String::new();
    let mut i: usize = 0;
    while i < v.len()
        invariant
            i <= v.len(),
            s@ == v@.take(i as int),
        decreases v.len() - i,
    {
        push_char(&mut s, v[i]);
        assert(v@.take(i + 1) == v@.take(i as int).push(v@[i as int]));
        i += 1;
    }
    assert(v@.take(v.len() as int) == v@);
    s
}

/// The characters `v[from..to]` as a `String`.
pub fn string_of_range(v: &[char], from: usize, to: usize) -> (s: String)
    requires
        from <= to <= v.len(),
    ensures
        s@ == v@.subrange(from as int, to as int),
{
    let mut s = String::new();
    let mut i: usize = from;
    while i < to
        invariant
            from <= i <= to <= v.len(),
            s@ == v@.subrange(from as int, i as int),
        decreases to - i,
    {
        push_char(&mut s, v[i]);
        assert(v@.subrange(from as int, i + 1) == v@.subrange(from as int, i as int).push(
            v@[i as int],
        ));
        i += 1;
    }
    s
}

pub fn new_string(s: &str) -> (r: String)
    ensures
        r@ == s@,
{
    s.to_owned()
}

/// `a` followed by `b`.
pub fn concat(a: &str, b: &str) -> (r: String)
    ensures
        r@ == a@ + b@,
{
    let mut r = a.to_owned();
    r.append(b);
    r
}

/// `a`, `b` and `c` in sequence.
pub fn concat3(a: &str, b: &str, c: &str) -> (r: String)
    ensures
        r@ == a@ + b@ + c@,
{
    let mut r = a.to_owned();
    r.append(b);
    r.append(c);
    r
}

pub fn str_eq(a: &str, b: &str) -> (r: bool)
    ensures
        r == (a@ == b@),
{
    let x = a.to_owned();
    let y = b.to_owned();
    x == y
}

pub fn seq_eq(a: &[char], b: &[char]) -> (r: bool)
    ensures
        r == (a@ == b@),
{
    if a.len() != b.len() {
        return false;
    }
    let mut i: usize = 0;
    while i < a.len()
        invariant
            a.len() == b.len(),
            i <= a.len(),
            a@.take(i as int) == b@.take(i as int),
        decreases a.len() - i,
    {
        if a[i] != b[i] {
            assert(a@[i as int] != b@[i as int]);
            return false;
        }
        assert(a@.take(i + 1) == a@.take(i as int).push(a@[i as int]));
        assert(b@.take(i + 1) == b@.take(i as int).push(b@[i as int]));
        i += 1;
    }
    assert(a@.take(a.len() as int) == a@);
    assert(b@.take(b.len() as int) == b@);
    true
}

/// `t` occurs in `s` at position `i`.
pub fn occurs_at_exec(s: &[char], t: &[char], i: usize) -> (r: bool)
    ensures
        r == occurs_at(s@, t@, i as int),
{
    if i > s.len() || t.len() > s.len() - i {
        return false;
    }
    let mut k: usize = 0;
    while k < t.len()
        invariant
            i + t.len() <= s.len(),
            k <= t.len(),
            s@.subrange(i as int, i + k) == t@.take(k as int),
        decreases t.len() - k,
    {
        if s[i + k] != t[k] {
            assert(s@.subrange(i as int, i + t.len())[k as int] != t@[k as int]);
            return false;
        }
        assert(s@.subrange(i as int, i + k + 1) == s@.subrange(i as int, i + k).push(
            s@[i + k],
        ));
        assert(t@.take(k + 1) == t@.take(k as int).push(t@[k as int]));
        k += 1;
    }
    assert(t@.take(t.len() as int) == t@);
    true
}

pub fn starts_with(s: &[char], p: &[char]) -> (r: bool)
    ensures
        r == is_prefix(p@, s@),
{
    let r = occurs_at_exec(s, p, 0);
    proof {
        if p@.len() <= s@.len() {
            assert(s@.subrange(0, p@.len() as int) == s@.take(p@.len() as int));
        }
    }
    r
}

pub fn ends_with(s: &[char], p: &[char]) -> (r: bool)
    ensures
        r == is_suffix(p@, s@),
{
    if p.len() > s.len() {
        return false;
    }
    let r = occurs_at_exec(s, p, s.len() - p.len());
    proof {
        assert(s@.subrange(s@.len() - p@.len(), s@.len() as int) == s@.skip(
            s@.len() - p@.len(),
        ));
    }
    r
}

/// Position of the first occurrence of `t` in `s`.
pub fn find(s: &[char], t: &[char]) -> (r: Option<usize>)
    ensures
        match r {
            Some(i) => first_occurrence(s@, t@) == Some(i as int) && is_first_occurrence(
                s@,
                t@,
                i as int,
            ),
            None => first_occurrence(s@, t@) == None::<int> && !contains_text(s@, t@),
        },
{
    let mut i: usize = 0;
    while i < s.len()
        invariant
            i <= s.len(),
            forall|j: int| 0 <= j < i ==> !occurs_at(s@, t@, j),
        decreases s.len() - i,
    {
        if occurs_at_exec(s, t, i) {
            proof {
                lemma_first_occurrence(s@, t@, i as int);
            }
            return Some(i);
        }
        i += 1;
    }
    if occurs_at_exec(s, t, i) {
        proof {
            lemma_first_occurrence(s@, t@, i as int);
        }
        return Some(i);
    }
    proof {
        assert forall|j: int| 0 <= j implies !occurs_at(s@, t@, j) by {
            if j > s@.len() {
                assert(!occurs_at(s@, t@, j));
            }
        }
        lemma_no_occurrence(s@, t@);
        if contains_text(s@, t@) {
            let k = choose|k: int| occurs_at(s@, t@, k);
            assert(!occurs_at(s@, t@, k));
        }
    }
    None
}

pub fn contains(s: &[char], t: &[char]) -> (r: bool)
    ensures
        r == contains_text(s@, t@),
{
    match find(s, t) {
        Some(i) => {
            proof {
                assert(occurs_at(s@, t@, i as int));
            }
            true
        },
        None => false,
    }
}

/// Position of the first `c` in `s`.
pub fn find_char(s: &[char], c: char) -> (r: Option<usize>)
    ensures
        match r {
            Some(i) => first_char_index(s@, c) == Some(i as int) && i < s.len(),
            None => first_char_index(s@, c) == None::<int> && !s@.contains(c),
        },
{
    let mut i: usize = 0;
    while i < s.len()
        invariant
            i <= s.len(),
            forall|j: int| 0 <= j < i ==> s@[j] != c,
        decreases s.len() - i,
    {
        if s[i] == c {
            proof {
                lemma_first_char(s@, c, i as int);
            }
            return Some(i);
        }
        i += 1;
    }
    proof {
        lemma_no_char(s@, c);
    }
    None
}

/// `str::trim` on a character vector.
pub fn trim_chars(s: &[char]) -> (r: Vec<char>)
    ensures
        r@ == trim(s@),
{
    let mut a: usize = 0;
    assert(s@.skip(0) =~= s@);
    while a < s.len() && char_is_ws(s[a])
        invariant
            a <= s.len(),
            lead_ws(s@) == a + lead_ws(s@.skip(a as int)),
        decreases s.len() - a,
    {
        proof {
            lemma_lead_ws_step(s@, a as int);
        }
        a += 1;
    }
    proof {
        assert(s@.skip(0) =~= s@);
        if a < s.len() {
            assert(s@.skip(a as int)[0] == s@[a as int]);
        }
        assert(lead_ws(s@.skip(a as int)) == 0);
    }
    let ghost t = s@.skip(a as int);
    let mut b: usize = s.len();
    assert(t.take(t.len() as int) =~= t);
    while b > a && char_is_ws(s[b - 1])
        invariant
            a <= b <= s.len(),
            t == s@.skip(a as int),
            trail_ws(t) == (s.len() - b) + trail_ws(t.take(b - a)),
        decreases b - a,
    {
        proof {
            lemma_trail_ws_step(t, (b - a) as int);
        }
        b -= 1;
    }
    proof {
        assert(t.take(t.len() as int) =~= t);
        if b > a {
            assert(t.take(b - a).last() == s@[b - 1]);
        }
        assert(trail_ws(t.take(b - a)) == 0);
        assert(trim(s@) =~= s@.subrange(a as int, b as int));
    }
    let mut r: Vec<char> = Vec::new();
    let mut i: usize = a;
    while i < b
        invariant
            a <= i <= b <= s.len(),
            r@ == s@.subrange(a as int, i as int),
        decreases b - i,
    {
        r.push(s[i]);
        assert(s@.subrange(a as int, i + 1) == s@.subrange(a as int, i as int).push(s@[i as int]));
        i += 1;
    }
    r
}

/// Number of leading `c`.
pub open spec fn lead_char(s: Seq<char>, c: char) -> nat
    decreases s.len(),
{
    if s.len() > 0 && s[0] == c {
        1 + lead_char(s.drop_first(), c)
    } else {
        0
    }
}

/// Number of trailing `c`.
pub open spec fn trail_char(s: Seq<char>, c: char) -> nat
    decreases s.len(),
{
    if s.len() > 0 && s.last() == c {
        1 + trail_char(s.drop_last(), c)
    } else {
        0
    }
}

/// `str::trim_matches(c)`: every leading and trailing `c` removed.
pub open spec fn trim_char(s: Seq<char>, c: char) -> Seq<char> {
    let t = s.skip(lead_char(s, c) as int);
    t.take(t.len() - trail_char(t, c))
}

/// `str::trim_matches(c)`.
pub fn trim_char_chars(s: &[char], c: char) -> (r: Vec<char>)
    ensures
        r@ == trim_char(s@, c),
{
    let mut a: usize = 0;
    assert(s@.skip(0) =~= s@);
    while a < s.len() && s[a] == c
        invariant
            a <= s.len(),
            lead_char(s@, c) == a + lead_char(s@.skip(a as int), c),
        decreases s.len() - a,
    {
        proof {
            assert(s@.skip(a as int).drop_first() =~= s@.skip(a + 1));
        }
        a += 1;
    }
    proof {
        if a < s.len() {
            assert(s@.skip(a as int)[0] == s@[a as int]);
        }
        assert(lead_char(s@.skip(a as int), c) == 0);
    }
    let ghost t = s@.skip(a as int);
    let mut b: usize = s.len();
    assert(t.take(t.len() as int) =~= t);
    while b > a && s[b - 1] == c
        invariant
            a <= b <= s.len(),
            t == s@.skip(a as int),
            trail_char(t, c) == (s.len() - b) + trail_char(t.take(b - a), c),
        decreases b - a,
    {
        proof {
            assert(t.take(b - a).drop_last() =~= t.take(b - a - 1));
        }
        b -= 1;
    }
    proof {
        if b > a {
            assert(t.take(b - a).last() == s@[b - 1]);
        }
        assert(trail_char(t.take(b - a), c) == 0);
        assert(trim_char(s@, c) =~= s@.subrange(a as int, b as int));
    }
    subvec(s, a, b)
}

/// `str::trim` producing a `String`.
pub fn trim_str(s: &str) -> (r: String)
    ensures
        r@ == trim(s@),
{
    let v = chars_of(s);
    let t = trim_chars(&v);
    string_of(&t)
}

pub fn subvec(s: &[char], from: usize, to: usize) -> (r: Vec<char>)
    requires
        from <= to <= s.len(),
    ensures
        r@ == s@.subrange(from as int, to as int),
{
    let mut r: Vec<char> = Vec::new();
    let mut i: usize = from;
    while i < to
        invariant
            from <= i <= to <= s.len(),
            r@ == s@.subrange(from as int, i as int),
        decreases to - i,
    {
        r.push(s[i]);
        assert(s@.subrange(from as int, i + 1) == s@.subrange(from as int, i as int).push(
            s@[i as int],
        ));
        i += 1;
    }
    r
}

/// `str::split_once`.
pub fn split_once_chars(s: &[char], sep: &[char]) -> (r: Option<(Vec<char>, Vec<char>)>)
    ensures
        match r {
            Some((a, b)) => split_once(s@, sep@) == Some((a@, b@)),
            None => split_once(s@, sep@) == None::<(Seq<char>, Seq<char>)>,
        },
{
    match find(s, sep) {
        Some(i) => {
            proof {
                assert(occurs_at(s@, sep@, i as int));
            }
            let n = sep.len();
            let m = s.len();
            assert(i + n <= m);
            let a = subvec(s, 0, i);
            let b = subvec(s, i + n, m);
            proof {
                assert(a@ =~= s@.take(i as int));
                assert(b@ =~= s@.skip(i + sep@.len()));
            }
            Some((a, b))
        },
        None => None,
    }
}

/// `str::strip_prefix`.
pub fn strip_prefix_chars(s: &[char], p: &[char]) -> (r: Option<Vec<char>>)
    ensures
        match r {
            Some(a) => strip_prefix(s@, p@) == Some(a@),
            None => strip_prefix(s@, p@) == None::<Seq<char>>,
        },
{
    if starts_with(s, p) {
        let a = subvec(s, p.len(), s.len());
        proof {
            assert(a@ =~= s@.skip(p@.len() as int));
        }
        Some(a)
    } else {
        None
    }
}

proof fn lemma_split_step(s: Seq<char>, c: char, start: int, i: int)
    requires
        0 <= start <= i < s.len(),
        s[i] == c,
        forall|j: int| start <= j < i ==> s[j] != c,
    ensures
        split_char(s.skip(start), c) == seq![s.subrange(start, i)] + split_char(s.skip(i + 1), c),
{
    let rest = s.skip(start);
    assert forall|j: int| 0 <= j < (i - start) implies rest[j] != c by {
        assert(rest[j] == s[start + j]);
    }
    lemma_first_char(rest, c, i - start);
    assert(split_char(rest, c) == seq![rest.take(i - start)] + split_char(
        rest.skip((i - start) + 1),
        c,
    )) by {
        reveal(split_char);
    }
    assert(rest.take(i - start) =~= s.subrange(start, i));
    assert(rest.skip((i - start) + 1) =~= s.skip(i + 1));
}

proof fn lemma_split_end(s: Seq<char>, c: char, start: int)
    requires
        0 <= start <= s.len(),
        forall|j: int| start <= j < s.len() ==> s[j] != c,
    ensures
        split_char(s.skip(start), c) == seq![s.skip(start)],
{
    let rest = s.skip(start);
    assert forall|j: int| 0 <= j < rest.len() implies rest[j] != c by {
        assert(rest[j] == s[start + j]);
    }
    lemma_no_char(rest, c);
    reveal(split_char);
}

/// The character sequences held by a vector of character vectors.
pub open spec fn views(v: Seq<Vec<char>>) -> Seq<Seq<char>> {
    v.map_values(|x: Vec<char>| x@)
}

/// `str::split(c)`.
pub fn split_on_char(s: &[char], c: char) -> (r: Vec<Vec<char>>)
    ensures
        views(r@) == split_char(s@, c),
{
    let mut out: Vec<Vec<char>> = Vec::new();
    let mut start: usize = 0;
    let mut i: usize = 0;
    assert(s@.skip(0) =~= s@);
    assert(views(out@) + split_char(s@, c) =~= split_char(s@, c));
    while i < s.len()
        invariant
            start <= i <= s.len(),
            forall|j: int| start <= j < i ==> s@[j] != c,
            views(out@) + split_char(s@.skip(start as int), c) == split_char(s@, c),
        decreases s.len() - i,
    {
        if s[i] == c {
            let piece = subvec(s, start, i);
            proof {
                lemma_split_step(s@, c, start as int, i as int);
                assert(views(out@).push(piece@) + split_char(s@.skip(i + 1), c)
                    =~= views(out@) + (seq![piece@] + split_char(s@.skip(i + 1), c)));
            }
            let ghost before = out@;
            out.push(piece);
            proof {
                assert(views(out@) =~= views(before).push(piece@));
            }
            start = i + 1;
        }
        i += 1;
    }
    let piece = subvec(s, start, s.len());
    proof {
        lemma_split_end(s@, c, start as int);
        assert(s@.skip(start as int) =~= piece@);
        assert(views(out@).push(piece@) =~= views(out@) + seq![piece@]);
    }
    let ghost before = out@;
    out.push(piece);
    proof {
        assert(views(out@) =~= views(before).push(piece@));
    }
    out
}

proof fn lemma_lines_step(s: Seq<char>, start: int, i: int, end: int)
    requires
        0 <= start <= end <= i < s.len(),
        s[i] == '\n',
        forall|j: int| start <= j < i ==> s[j] != '\n',
        end == if i > start && s[i - 1] == '\r' { i - 1 } else { i },
    ensures
        lines_of(s.skip(start)) == seq![s.subrange(start, end)] + lines_of(s.skip(i + 1)),
{
    let rest = s.skip(start);
    assert forall|j: int| 0 <= j < (i - start) implies rest[j] != '\n' by {
        assert(rest[j] == s[start + j]);
    }
    lemma_first_char(rest, '\n', i - start);
    assert(lines_of(rest) == seq![strip_cr(rest.take(i - start))] + lines_of(
        rest.skip((i - start) + 1),
    )) by {
        reveal(lines_of);
    }
    let line = rest.take(i - start);
    assert(line =~= s.subrange(start, i));
    if i > start && s[i - 1] == '\r' {
        assert(line.last() == '\r');
        assert(strip_cr(line) =~= s.subrange(start, end));
    } else {
        assert(strip_cr(line) =~= s.subrange(start, end));
    }
    assert(rest.skip((i - start) + 1) =~= s.skip(i + 1));
}

proof fn lemma_lines_end(s: Seq<char>, start: int)
    requires
        0 <= start < s.len(),
        forall|j: int| start <= j < s.len() ==> s[j] != '\n',
    ensures
        lines_of(s.skip(start)) == seq![s.skip(start)],
{
    let rest = s.skip(start);
    assert forall|j: int| 0 <= j < rest.len() implies rest[j] != '\n' by {
        assert(rest[j] == s[start + j]);
    }
    lemma_no_char(rest, '\n');
    reveal(lines_of);
}

/// `str::lines`.
pub fn lines_chars(s: &[char]) -> (r: Vec<Vec<char>>)
    ensures
        views(r@) == lines_of(s@),
{
    let mut out: Vec<Vec<char>> = Vec::new();
    let mut start: usize = 0;
    let mut i: usize = 0;
    assert(s@.skip(0) =~= s@);
    assert(views(out@) + lines_of(s@) =~= lines_of(s@));
    while i < s.len()
        invariant
            start <= i <= s.len(),
            forall|j: int| start <= j < i ==> s@[j] != '\n',
            views(out@) + lines_of(s@.skip(start as int)) == lines_of(s@),
        decreases s.len() - i,
    {
        if s[i] == '\n' {
            let end = if i > start && s[i - 1] == '\r' {
                i - 1
            } else {
                i
            };
            let piece = subvec(s, start, end);
            proof {
                lemma_lines_step(s@, start as int, i as int, end as int);
                assert(views(out@).push(piece@) + lines_of(s@.skip(i + 1))
                    =~= views(out@) + (seq![piece@] + lines_of(s@.skip(i + 1))));
            }
            let ghost before = out@;
            out.push(piece);
            proof {
                assert(views(out@) =~= views(before).push(piece@));
            }
            start = i + 1;
        }
        i += 1;
    }
    if start < s.len() {
        let piece = subvec(s, start, s.len());
        proof {
            lemma_lines_end(s@, start as int);
            assert(s@.skip(start as int) =~= piece@);
            assert(views(out@).push(piece@) =~= views(out@) + seq![piece@]);
        }
        let ghost before = out@;
        out.push(piece);
        proof {
            assert(views(out@) =~= views(before).push(piece@));
        }
    } else {
        proof {
            assert(s@.skip(start as int) =~= Seq::<char>::empty());
            reveal(lines_of);
            assert(views(out@) + Seq::<Seq<char>>::empty() =~= views(out@));
        }
    }
    out
}

pub fn lower_chars(s: &[char]) -> (r: Vec<char>)
    ensures
        r@ == lower_text(s@),
{
    let mut r: Vec<char> = Vec::new();
    let mut i: usize = 0;
    while i < s.len()
        invariant
            i <= s.len(),
            r@ == lower_text(s@.take(i as int)),
        decreases s.len() - i,
    {
        let c = s[i];
        let l = if 'A' <= c && c <= 'Z' {
            char_from_u32_unchecked_ascii((c as u32) + 32)
        } else {
            c
        };
        r.push(l);
        assert(lower_text(s@.take(i + 1)) =~= lower_text(s@.take(i as int)).push(ascii_lower(
            s@[i as int],
        )));
        i += 1;
    }
    assert(s@.take(s.len() as int) =~= s@);
    r
}

pub fn upper_chars(s: &[char]) -> (r: Vec<char>)
    ensures
        r@ == upper_text(s@),
{
    let mut r: Vec<char> = Vec::new();
    let mut i: usize = 0;
    while i < s.len()
        invariant
            i <= s.len(),
            r@ == upper_text(s@.take(i as int)),
        decreases s.len() - i,
    {
        let c = s[i];
        let l = if 'a' <= c && c <= 'z' {
            char_from_u32_unchecked_ascii((c as u32) - 32)
        } else {
            c
        };
        r.push(l);
        assert(upper_text(s@.take(i + 1)) =~= upper_text(s@.take(i as int)).push(ascii_upper(
            s@[i as int],
        )));
        i += 1;
    }
    assert(s@.take(s.len() as int) =~= s@);
    r
}

/// The ASCII character with code `u` (`u < 128`).
pub(crate) fn char_from_u32_unchecked_ascii(u: u32) -> (c: char)
    requires
        u < 128,
    ensures
        c == u as char,
{
    (u as u8) as char
}

pub fn replace_char_chars(s: &[char], from: char, to: char) -> (r: Vec<char>)
    ensures
        r@ == replace_char(s@, from, to),
{
    let mut r: Vec<char> = Vec::new();
    let mut i: usize = 0;
    while i < s.len()
        invariant
            i <= s.len(),
            r@ == replace_char(s@.take(i as int), from, to),
        decreases s.len() - i,
    {
        let c = s[i];
        r.push(if c == from { to } else { c });
        assert(replace_char(s@.take(i + 1), from, to) =~= replace_char(s@.take(i as int), from, to).push(
            if s@[i as int] == from { to } else { s@[i as int] },
        ));
        i += 1;
    }
    assert(s@.take(s.len() as int) =~= s@);
    r
}

/// Decimal rendering of `n`.
pub fn decimal_string(n: u64) -> (s: String)
    ensures
        s@ == decimal(n as nat),
    decreases n,
{
    if n < 10 {
        let mut s = String::new();
        push_char(&mut s, char_from_u32_unchecked_ascii((n as u32) + 48));
        proof {
            assert(s@ =~= seq![digit_char(n as nat)]);
        }
        s
    } else {
        let mut s = decimal_string(n / 10);
        push_char(&mut s, char_from_u32_unchecked_ascii(((n % 10) as u32) + 48));
        s
    }
}

/// Three-way comparison by code point.
pub fn compare_chars(a: &[char], b: &[char]) -> (r: i8)
    ensures
        r as int == text_order(a@, b@),
{
    let mut i: usize = 0;
    assert(a@.skip(0) =~= a@);
    assert(b@.skip(0) =~= b@);
    while i < a.len() && i < b.len()
        invariant
            i <= a.len(),
            i <= b.len(),
            text_order(a@, b@) == text_order(a@.skip(i as int), b@.skip(i as int)),
        decreases a.len() - i,
    {
        let x = a[i] as u32;
        let y = b[i] as u32;
        assert(a@.skip(i as int)[0] == a@[i as int]);
        assert(b@.skip(i as int)[0] == b@[i as int]);
        if x < y {
            return -1;
        }
        if x > y {
            return 1;
        }
        assert(a@.skip(i as int).drop_first() =~= a@.skip(i + 1));
        assert(b@.skip(i as int).drop_first() =~= b@.skip(i + 1));
        i += 1;
    }
    if i < b.len() {
        -1
    } else if i < a.len() {
        1
    } else {
        0
    }
}

/// Number of `'\n'` bytes in `bytes[0..end]`, plus one: the line of byte `end`.
pub open spec fn count_byte(s: Seq<u8>, b: u8) -> nat
    decreases s.len(),
{
    if s.len() == 0 {
        0
    } else {
        count_byte(s.drop_last(), b) + if s.last() == b { 1nat } else { 0nat }
    }
}

/// The 1-based line on which byte offset `end` lies.
pub open spec fn line_of_offset(bytes: Seq<u8>, end: int) -> int {
    (count_byte(bytes.take(end), 10u8) + 1) as int
}

/// 1-based line of byte offset `end` in `bytes`, as a `u32`.
pub fn line_at_bytes(bytes: &[u8], end: usize) -> (line: u32)
    requires
        end <= bytes.len(),
        count_byte(bytes@.take(end as int), 10u8) < 0xFFFF_FFFF,
    ensures
        line as int == line_of_offset(bytes@, end as int),
{
    let mut count: u64 = 0;
    let mut i: usize = 0;
    while i < end
        invariant
            i <= end <= bytes.len(),
            count as int == count_byte(bytes@.take(i as int), 10u8),
            count <= i,
        decreases end - i,
    {
        assert(bytes@.take(i + 1).drop_last() =~= bytes@.take(i as int));
        if bytes[i] == 10u8 {
            count += 1;
        }
        i += 1;
    }
    assert(bytes@.take(end as int) == bytes@.take(i as int));
    ((count as u32) + 1)
}

// ---------------------------------------------------------------------------
// Sorted sets of texts
// ---------------------------------------------------------------------------

/// Strictly increasing in the order of `str`.
pub open spec fn text_sorted(r: Seq<Seq<char>>) -> bool {
    forall|a: int, b: int| 0 <= a < b < r.len() ==> text_order(#[trigger] r[a], #[trigger] r[b]) < 0
}

/// Holds exactly the texts of `names`.
pub open spec fn same_texts(r: Seq<Seq<char>>, names: Seq<Seq<char>>) -> bool {
    forall|x: Seq<char>| #[trigger] r.contains(x) <==> names.contains(x)
}

/// `names` sorted with repeats removed.
pub open spec fn sorted_distinct(names: Seq<Seq<char>>) -> Seq<Seq<char>> {
    choose|r: Seq<Seq<char>>| text_sorted(r) && same_texts(r, names)
}

/// The texts of a vector of strings.
pub open spec fn texts(v: Seq<String>) -> Seq<Seq<char>> {
    v.map_values(|s: String| s@)
}

/// Two strictly sorted sequences that hold the same texts are equal.
pub proof fn lemma_sorted_unique(a: Seq<Seq<char>>, b: Seq<Seq<char>>)
    requires
        text_sorted(a),
        text_sorted(b),
        forall|x: Seq<char>| a.contains(x) <==> b.contains(x),
    ensures
        a == b,
    decreases a.len(),
{
    if a.len() == 0 {
        if b.len() > 0 {
            assert(b.contains(b[0]));
        }
        assert(a =~= b);
    } else {
        assert(a.contains(a[0]));
        let k = choose|k: int| 0 <= k < b.len() && b[k] == a[0];
        assert(b.contains(b[0]));
        let j = choose|j: int| 0 <= j < a.len() && a[j] == b[0];
        if k > 0 && j > 0 {
            assert(text_order(b[0], b[k]) < 0);
            assert(text_order(a[0], a[j]) < 0);
            lemma_text_order_antisym(a[0], b[0]);
        }
        let a2 = a.drop_first();
        let b2 = b.drop_first();
        assert forall|x: Seq<char>| a2.contains(x) <==> b2.contains(x) by {
            if a2.contains(x) {
                let i = choose|i: int| 0 <= i < a2.len() && a2[i] == x;
                assert(a[i + 1] == x);
                assert(text_order(a[0], a[i + 1]) < 0);
                lemma_text_order_refl(x);
                assert(b.contains(x));
                let q = choose|q: int| 0 <= q < b.len() && b[q] == x;
                assert(q != 0);
                assert(b2[q - 1] == x);
            }
            if b2.contains(x) {
                let i = choose|i: int| 0 <= i < b2.len() && b2[i] == x;
                assert(b[i + 1] == x);
                assert(text_order(b[0], b[i + 1]) < 0);
                lemma_text_order_refl(x);
                assert(a.contains(x));
                let q = choose|q: int| 0 <= q < a.len() && a[q] == x;
                assert(q != 0);
                assert(a2[q - 1] == x);
            }
        }
        assert forall|p: int, q: int| 0 <= p < q < a2.len() implies text_order(#[trigger] a2[p], #[trigger] a2[q]) < 0 by {
            assert(a2[p] == a[p + 1] && a2[q] == a[q + 1]);
        }
        assert forall|p: int, q: int| 0 <= p < q < b2.len() implies text_order(#[trigger] b2[p], #[trigger] b2[q]) < 0 by {
            assert(b2[p] == b[p + 1] && b2[q] == b[q + 1]);
        }
        lemma_sorted_unique(a2, b2);
        assert(a =~= seq![a[0]] + a2);
        assert(b =~= seq![b[0]] + b2);
    }
}

/// Adds `x` to the strictly sorted `r` unless it is there already.
pub fn insert_sorted(r: &mut Vec<String>, x: String)
    requires
        text_sorted(texts(old(r)@)),
    ensures
        text_sorted(texts(final(r)@)),
        forall|z: Seq<char>| #[trigger] texts(final(r)@).contains(z) <==> texts(old(r)@).contains(z) || z == x@,
{
    let ghost r0 = texts(r@);
    let xc = chars_of(x.as_str());
    let mut k: usize = 0;
    while k < r.len() && compare_chars(&chars_of(r[k].as_str()), &xc) < 0
        invariant
            k <= r.len(),
            r0 == texts(r@),
            xc@ == x@,
            forall|q: int| 0 <= q < k ==> text_order(#[trigger] r0[q], x@) < 0,
        decreases r.len() - k,
    {
        k += 1;
    }
    if k < r.len() && compare_chars(&chars_of(r[k].as_str()), &xc) == 0 {
        proof {
            lemma_text_order_antisym(r0[k as int], x@);
            assert(r0.contains(x@));
        }
        return;
    }
    proof {
        if k < r.len() {
            lemma_text_order_antisym(r0[k as int], x@);
            assert(text_order(x@, r0[k as int]) < 0);
        }
    }
    r.insert(k, x);
    proof {
        let r1 = texts(r@);
        assert(r1 =~= r0.take(k as int).push(x@) + r0.skip(k as int));
        assert forall|a: int, b: int| 0 <= a < b < r1.len() implies text_order(#[trigger] r1[a], #[trigger] r1[b]) < 0 by {
            if b < k {
                assert(r1[a] == r0[a] && r1[b] == r0[b]);
            } else if b == k {
                assert(r1[a] == r0[a]);
            } else if a < k {
                assert(r1[a] == r0[a] && r1[b] == r0[b - 1]);
                assert(text_order(x@, r0[k as int]) < 0);
                if b - 1 > k {
                    assert(text_order(r0[k as int], r0[b - 1]) < 0);
                    lemma_text_order_trans(x@, r0[k as int], r0[b - 1]);
                }
                lemma_text_order_trans(r0[a], x@, r0[b - 1]);
            } else if a == k {
                assert(r1[b] == r0[b - 1]);
                if b - 1 > k {
                    assert(text_order(r0[k as int], r0[b - 1]) < 0);
                    lemma_text_order_trans(x@, r0[k as int], r0[b - 1]);
                }
            } else {
                assert(r1[a] == r0[a - 1] && r1[b] == r0[b - 1]);
            }
        }
        assert forall|z: Seq<char>| #[trigger] r1.contains(z) <==> r0.contains(z) || z == x@ by {
            if r1.contains(z) {
                let i = choose|i: int| 0 <= i < r1.len() && r1[i] == z;
                if i < k {
                    assert(r0[i] == z);
                } else if i > k {
                    assert(r0[i - 1] == z);
                }
            }
            if r0.contains(z) {
                let i = choose|i: int| 0 <= i < r0.len() && r0[i] == z;
                if i < k {
                    assert(r1[i] == z);
                } else {
                    assert(r1[i + 1] == z);
                }
            }
            if z == x@ {
                assert(r1[k as int] == z);
            }
        }
    }
}

/// `names` sorted, each once.
pub fn sort_dedup_texts(names_in: &Vec<String>) -> (r: Vec<String>)
    ensures
        texts(r@) == sorted_distinct(texts(names_in@)),
{
    let ghost names = texts(names_in@);
    let mut r: Vec<String> = Vec::new();
    let mut i: usize = 0;
    while i < names_in.len()
        invariant
            i <= names_in.len(),
            names == texts(names_in@),
            text_sorted(texts(r@)),
            forall|z: Seq<char>| #[trigger] texts(r@).contains(z) <==> names.take(i as int).contains(z),
        decreases names_in.len() - i,
    {
        let ghost r0 = texts(r@);
        let x = names_in[i].clone();
        assert(x@ == names[i as int]);
        insert_sorted(&mut r, x);
        proof {
            assert(names.take(i + 1) =~= names.take(i as int).push(names[i as int]));
            let n1 = names.take(i + 1);
            let n0 = names.take(i as int);
            assert forall|z: Seq<char>| #[trigger] texts(r@).contains(z) <==> n1.contains(z) by {
                if n1.contains(z) {
                    let q = choose|q: int| 0 <= q < n1.len() && n1[q] == z;
                    if q < i {
                        assert(n0[q] == z);
                        assert(r0.contains(z));
                    }
                }
                if texts(r@).contains(z) {
                    if r0.contains(z) {
                        let q = choose|q: int| 0 <= q < n0.len() && n0[q] == z;
                        assert(n1[q] == z);
                    } else {
                        assert(n1[i as int] == z);
                    }
                }
            }
        }
        i += 1;
    }
    proof {
        assert(names.take(names_in.len() as int) =~= names);
        let c = sorted_distinct(names);
        assert(text_sorted(texts(r@)) && same_texts(texts(r@), names));
        lemma_sorted_unique(texts(r@), c);
    }
    r
}

} // verus!
