//! Sort keys made of numbers and texts, and a verified stable sort by them.
use vstd::prelude::*;
use crate::model::Dup;
use crate::text::{compare_chars, text_order, lemma_text_order_antisym, lemma_text_order_trans, lemma_text_order_refl};

verus! {

/// One component of a sort key.
pub enum KeyPart {
    Num(u64),
    Text(Vec<char>),
}

/// What a key component stands for.
pub ghost enum KeyView {
    Num(nat),
    Text(Seq<char>),
}

impl KeyPart {
    pub open spec fn view(self) -> KeyView {
        match self {
            KeyPart::Num(n) => KeyView::Num(n as nat),
            KeyPart::Text(t) => KeyView::Text(t@),
        }
    }
}

/// The components of a key.
pub open spec fn key_view(k: Seq<KeyPart>) -> Seq<KeyView> {
    k.map_values(|p: KeyPart| p.view())
}

/// Three-way comparison of key components: numbers before texts.
pub open spec fn part_order(a: KeyView, b: KeyView) -> int {
    match (a, b) {
        (KeyView::Num(x), KeyView::Num(y)) => if x < y {
            -1
        } else if x > y {
            1
        } else {
            0
        },
        (KeyView::Num(_), KeyView::Text(_)) => -1,
        (KeyView::Text(_), KeyView::Num(_)) => 1,
        (KeyView::Text(x), KeyView::Text(y)) => text_order(x, y),
    }
}

/// Lexicographic three-way comparison of keys.
pub open spec fn key_order(a: Seq<KeyView>, b: Seq<KeyView>) -> int
    decreases a.len(),
{
    if a.len() == 0 {
        if b.len() == 0 {
            0
        } else {
            -1
        }
    } else if b.len() == 0 {
        1
    } else if part_order(a[0], b[0]) != 0 {
        part_order(a[0], b[0])
    } else {
        key_order(a.drop_first(), b.drop_first())
    }
}

/// The keys as sequences of parts.
pub open spec fn key_views(keys: Seq<Vec<KeyPart>>) -> Seq<Seq<KeyView>> {
    keys.map_values(|k: Vec<KeyPart>| key_view(k@))
}

/// Item `x` comes before item `y`: smaller key, or equal key and earlier position.
pub open spec fn sorts_before(keys: Seq<Seq<KeyView>>, x: int, y: int) -> bool {
    key_order(keys[x], keys[y]) < 0 || (key_order(keys[x], keys[y]) == 0 && x < y)
}

/// `perm` lists every position of `keys` once, in the order of a stable sort by key.
pub open spec fn is_sort_permutation(perm: Seq<usize>, keys: Seq<Seq<KeyView>>) -> bool {
    &&& perm.len() == keys.len()
    &&& forall|i: int| 0 <= i < perm.len() ==> perm[i] < keys.len()
    &&& forall|k: usize| k < keys.len() ==> #[trigger] perm.contains(k)
    &&& forall|i: int, j: int|
        0 <= i < j < perm.len() ==> sorts_before(keys, perm[i] as int, perm[j] as int)
}

/// `out` is `items` rearranged by `perm`.
pub open spec fn permuted<T>(items: Seq<T>, perm: Seq<usize>, out: Seq<T>) -> bool {
    out.len() == perm.len() && forall|i: int| 0 <= i < out.len() ==> out[i] == items[perm[i] as int]
}

/// `out` is the stable sort of `items` by `keys`.
pub open spec fn stably_sorted<T>(items: Seq<T>, keys: Seq<Seq<KeyView>>, out: Seq<T>) -> bool {
    exists|perm: Seq<usize>| is_sort_permutation(perm, keys) && permuted(items, perm, out)
}

proof fn lemma_part_order(a: KeyView, b: KeyView, c: KeyView)
    ensures
        part_order(a, b) == -part_order(b, a),
        -1 <= part_order(a, b) <= 1,
        part_order(a, a) == 0,
        part_order(a, b) <= 0 && part_order(b, c) <= 0 ==> part_order(a, c) <= 0,
        (part_order(a, b) <= 0 && part_order(b, c) <= 0) && (part_order(a, b) < 0 || part_order(
            b,
            c,
        ) < 0) ==> part_order(a, c) < 0,
{
    match (a, b, c) {
        (KeyView::Text(x), KeyView::Text(y), KeyView::Text(z)) => {
            lemma_text_order_antisym(x, y);
            lemma_text_order_refl(x);
            if text_order(x, y) <= 0 && text_order(y, z) <= 0 {
                lemma_text_order_trans(x, y, z);
            }
        },
        (KeyView::Text(x), KeyView::Text(y), _) => {
            lemma_text_order_antisym(x, y);
            lemma_text_order_refl(x);
        },
        (KeyView::Text(x), _, _) => {
            lemma_text_order_refl(x);
        },
        _ => {},
    }
}

pub proof fn lemma_key_order(a: Seq<KeyView>, b: Seq<KeyView>, c: Seq<KeyView>)
    ensures
        key_order(a, b) == -key_order(b, a),
        -1 <= key_order(a, b) <= 1,
        key_order(a, a) == 0,
        key_order(a, b) <= 0 && key_order(b, c) <= 0 ==> key_order(a, c) <= 0,
        (key_order(a, b) <= 0 && key_order(b, c) <= 0) && (key_order(a, b) < 0 || key_order(b, c)
            < 0) ==> key_order(a, c) < 0,
    decreases a.len(),
{
    if a.len() > 0 && b.len() > 0 && c.len() > 0 {
        lemma_part_order(a[0], b[0], c[0]);
        lemma_part_order(a[0], c[0], b[0]);
        lemma_part_order(b[0], a[0], c[0]);
        lemma_key_order(a.drop_first(), b.drop_first(), c.drop_first());
    } else if a.len() > 0 && b.len() > 0 {
        lemma_part_order(a[0], b[0], a[0]);
        lemma_key_order(a.drop_first(), b.drop_first(), a.drop_first());
    } else if a.len() > 0 {
        lemma_part_order(a[0], a[0], a[0]);
        lemma_key_order(a.drop_first(), a.drop_first(), a.drop_first());
    }
}

/// Keys that compare equal are equal.
pub proof fn lemma_key_order_zero(a: Seq<KeyView>, b: Seq<KeyView>)
    requires
        key_order(a, b) == 0,
    ensures
        a == b,
    decreases a.len(),
{
    if a.len() > 0 && b.len() > 0 {
        match (a[0], b[0]) {
            (KeyView::Text(x), KeyView::Text(y)) => {
                lemma_text_order_antisym(x, y);
            },
            _ => {},
        }
        lemma_key_order_zero(a.drop_first(), b.drop_first());
        assert(a =~= seq![a[0]] + a.drop_first());
        assert(b =~= seq![b[0]] + b.drop_first());
    }
}

proof fn lemma_perm_prefix(p: Seq<usize>, q: Seq<usize>, keys: Seq<Seq<KeyView>>, n: int)
    requires
        is_sort_permutation(p, keys),
        is_sort_permutation(q, keys),
        0 <= n <= p.len(),
    ensures
        forall|i: int| 0 <= i < n ==> p[i] == q[i],
    decreases n,
{
    if n > 0 {
        lemma_perm_prefix(p, q, keys, n - 1);
        let i = n - 1;
        if p[i] != q[i] {
            assert(q.contains(p[i]));
            let j = choose|j: int| 0 <= j < q.len() && q[j] == p[i];
            assert(p.contains(q[i]));
            let k = choose|k: int| 0 <= k < p.len() && p[k] == q[i];
            if j < i {
                assert(p[j] == q[j]);
                assert(sorts_before(keys, p[j] as int, p[i] as int));
                lemma_key_order(keys[p[i] as int], keys[p[i] as int], keys[p[i] as int]);
            }
            if k < i {
                assert(q[k] == p[k]);
                assert(sorts_before(keys, q[k] as int, q[i] as int));
                lemma_key_order(keys[q[i] as int], keys[q[i] as int], keys[q[i] as int]);
            }
            assert(j > i && k > i);
            assert(sorts_before(keys, p[i] as int, p[k] as int));
            assert(sorts_before(keys, q[i] as int, q[j] as int));
            lemma_key_order(keys[p[i] as int], keys[q[i] as int], keys[p[i] as int]);
        }
    }
}

/// A stable sort has one outcome.
pub proof fn lemma_stably_sorted_unique<T>(items: Seq<T>, keys: Seq<Seq<KeyView>>, a: Seq<T>, b: Seq<T>)
    requires
        stably_sorted(items, keys, a),
        stably_sorted(items, keys, b),
    ensures
        a == b,
{
    let p = choose|p: Seq<usize>| is_sort_permutation(p, keys) && permuted(items, p, a);
    let q = choose|q: Seq<usize>| is_sort_permutation(q, keys) && permuted(items, q, b);
    lemma_perm_prefix(p, q, keys, p.len() as int);
    assert(a =~= b);
}

/// A stable sort keeps exactly the items: same length, every output item is
/// an input item and every input item is output.
pub proof fn lemma_stably_sorted_elements<T>(items: Seq<T>, keys: Seq<Seq<KeyView>>, out: Seq<T>)
    requires
        stably_sorted(items, keys, out),
        items.len() == keys.len(),
        items.len() <= usize::MAX,
    ensures
        out.len() == items.len(),
        forall|i: int| 0 <= i < out.len() ==> items.contains(#[trigger] out[i]),
        forall|j: int| 0 <= j < items.len() ==> out.contains(#[trigger] items[j]),
{
    let p = choose|p: Seq<usize>| is_sort_permutation(p, keys) && permuted(items, p, out);
    assert forall|i: int| 0 <= i < out.len() implies items.contains(#[trigger] out[i]) by {
        assert(out[i] == items[p[i] as int]);
    }
    assert forall|j: int| 0 <= j < items.len() implies out.contains(#[trigger] items[j]) by {
        assert(p.contains(j as usize));
        let k = choose|k: int| 0 <= k < p.len() && p[k] == j as usize;
        assert(out[k] == items[j]);
    }
}

/// Output positions `i < j` hold items whose keys are in order.
pub proof fn lemma_stably_sorted_order<T>(items: Seq<T>, keys: Seq<Seq<KeyView>>, out: Seq<T>, i: int, j: int)
    requires
        stably_sorted(items, keys, out),
        items.len() == keys.len(),
        0 <= i < j < out.len(),
    ensures
        exists|a: int, b: int|
            0 <= a < items.len() && 0 <= b < items.len() && a != b && out[i] == items[a] && out[j] == items[b]
                && key_order(keys[a], keys[b]) <= 0,
{
    let p = choose|p: Seq<usize>| is_sort_permutation(p, keys) && permuted(items, p, out);
    let a = p[i] as int;
    let b = p[j] as int;
    assert(sorts_before(keys, a, b));
    if a == b {
        lemma_key_order(keys[a], keys[a], keys[a]);
    }
    assert(out[i] == items[a] && out[j] == items[b]);
}

fn compare_parts(a: &KeyPart, b: &KeyPart) -> (r: i8)
    ensures
        r as int == part_order(a.view(), b.view()),
{
    match (a, b) {
        (KeyPart::Num(x), KeyPart::Num(y)) => if *x < *y {
            -1
        } else if *x > *y {
            1
        } else {
            0
        },
        (KeyPart::Num(_), KeyPart::Text(_)) => -1,
        (KeyPart::Text(_), KeyPart::Num(_)) => 1,
        (KeyPart::Text(x), KeyPart::Text(y)) => compare_chars(x.as_slice(), y.as_slice()),
    }
}

/// Three-way comparison of two keys.
pub fn compare_keys(a: &Vec<KeyPart>, b: &Vec<KeyPart>) -> (r: i8)
    ensures
        r as int == key_order(key_view(a@), key_view(b@)),
{
    let ghost av = key_view(a@);
    let ghost bv = key_view(b@);
    let mut i: usize = 0;
    assert(av.skip(0) =~= av);
    assert(bv.skip(0) =~= bv);
    while i < a.len() && i < b.len()
        invariant
            i <= a.len(),
            i <= b.len(),
            av == key_view(a@),
            bv == key_view(b@),
            key_order(av, bv) == key_order(av.skip(i as int), bv.skip(i as int)),
        decreases a.len() - i,
    {
        assert(av.skip(i as int)[0] == a@[i as int].view());
        assert(bv.skip(i as int)[0] == b@[i as int].view());
        let c = compare_parts(&a[i], &b[i]);
        if c != 0 {
            return c;
        }
        assert(av.skip(i as int).drop_first() =~= av.skip(i + 1));
        assert(bv.skip(i as int).drop_first() =~= bv.skip(i + 1));
        i += 1;
    }
    if i < b.len() {
        -1
    } else if i < a.len() {
        1
    } else {
        0
    }
}

/// The positions of `keys` in the order of a stable sort by key.
pub fn sort_permutation(keys: &Vec<Vec<KeyPart>>) -> (perm: Vec<usize>)
    ensures
        is_sort_permutation(perm@, key_views(keys@)),
{
    let ghost kv = key_views(keys@);
    let mut perm: Vec<usize> = Vec::new();
    let mut i: usize = 0;
    while i < keys.len()
        invariant
            i <= keys.len(),
            kv == key_views(keys@),
            perm.len() == i,
            forall|a: int| 0 <= a < perm.len() ==> perm[a] < i,
            forall|k: usize| k < i ==> #[trigger] perm@.contains(k),
            forall|a: int, b: int|
                0 <= a < b < perm.len() ==> sorts_before(kv, perm[a] as int, perm[b] as int),
        decreases keys.len() - i,
    {
        // find the insertion point: after every element whose key is not greater
        let mut p: usize = perm.len();
        while p > 0 && compare_keys(&keys[perm[p - 1]], &keys[i]) > 0
            invariant
                p <= perm.len(),
                perm.len() == i,
                i < keys.len(),
                kv == key_views(keys@),
                forall|a: int| 0 <= a < perm.len() ==> perm[a] < i,
                forall|a: int| p <= a < perm.len() ==> key_order(kv[perm[a] as int], kv[i as int]) > 0,
            decreases p,
        {
            p -= 1;
        }
        proof {
            if p > 0 {
                assert(key_order(kv[perm[p - 1] as int], kv[i as int]) <= 0);
                assert forall|a: int| 0 <= a < p implies sorts_before(kv, perm[a] as int, i as int) by {
                    if a < p - 1 {
                        assert(sorts_before(kv, perm[a] as int, perm[p - 1] as int));
                        lemma_key_order(kv[perm[a] as int], kv[perm[p - 1] as int], kv[i as int]);
                    }
                }
            }
            assert forall|a: int| p <= a < perm.len() implies sorts_before(kv, i as int, perm[a] as int) by {
                lemma_key_order(kv[i as int], kv[perm[a] as int], kv[i as int]);
            }
        }
        let ghost old_perm = perm@;
        perm.insert(p, i);
        proof {
            assert(perm@ == old_perm.insert(p as int, i));
            assert forall|a: int, b: int|
                0 <= a < b < perm.len() implies sorts_before(kv, perm[a] as int, perm[b] as int) by {
                if b < p {
                    assert(perm[a] == old_perm[a] && perm[b] == old_perm[b]);
                } else if b == p {
                    assert(perm[a] == old_perm[a]);
                } else if a < p {
                    assert(perm[a] == old_perm[a] && perm[b] == old_perm[b - 1]);
                } else if a == p {
                    assert(perm[b] == old_perm[b - 1]);
                } else {
                    assert(perm[a] == old_perm[a - 1] && perm[b] == old_perm[b - 1]);
                }
            }
            assert forall|k: usize| k < i + 1 implies #[trigger] perm@.contains(k) by {
                if k < i {
                    assert(old_perm.contains(k));
                    let w = choose|w: int| 0 <= w < old_perm.len() && old_perm[w] == k;
                    if w < p {
                        assert(perm@[w] == k);
                    } else {
                        assert(perm@[w + 1] == k);
                    }
                } else {
                    assert(perm@[p as int] == i);
                }
            }
        }
        i += 1;
    }
    perm
}

/// `items` in the order of a stable sort by `keys`.
pub fn sort_by_keys<T: Dup>(items: &Vec<T>, keys: &Vec<Vec<KeyPart>>) -> (r: Vec<T>)
    requires
        items.len() == keys.len(),
    ensures
        stably_sorted(items@, key_views(keys@), r@),
{
    let perm = sort_permutation(keys);
    let mut r: Vec<T> = Vec::new();
    let mut i: usize = 0;
    while i < perm.len()
        invariant
            i <= perm.len(),
            is_sort_permutation(perm@, key_views(keys@)),
            items.len() == keys.len(),
            r.len() == i,
            forall|k: int| 0 <= k < i ==> r@[k] == items@[perm@[k] as int],
        decreases perm.len() - i,
    {
        r.push(items[perm[i]].dup());
        i += 1;
    }
    assert(permuted(items@, perm@, r@));
    r
}

} // verus!
