//! SQL `LIKE` matching: `%` matches any run of characters, `_` any one
//! character, an optional escape character makes the next one literal, and
//! letters compare without regard to ASCII case.
use vstd::prelude::*;
use crate::text::{ascii_lower, is_prefix};

verus! {

pub open spec fn fold_eq(a: char, b: char) -> bool {
    ascii_lower(a) == ascii_lower(b)
}

/// `t LIKE p ESCAPE esc`.
pub open spec fn like_match(p: Seq<char>, t: Seq<char>, esc: Option<char>) -> bool
    decreases p.len(), t.len(),
{
    if p.len() == 0 {
        t.len() == 0
    } else if p[0] == '%' {
        like_match(p.drop_first(), t, esc) || (t.len() > 0 && like_match(p, t.drop_first(), esc))
    } else if esc == Some(p[0]) {
        p.len() >= 2 && t.len() > 0 && fold_eq(p[1], t[0]) && like_match(
            p.skip(2),
            t.drop_first(),
            esc,
        )
    } else if p[0] == '_' {
        t.len() > 0 && like_match(p.drop_first(), t.drop_first(), esc)
    } else {
        t.len() > 0 && fold_eq(p[0], t[0]) && like_match(p.drop_first(), t.drop_first(), esc)
    }
}

/// `like_match` on the suffixes starting at `i` and `j`.
pub open spec fn cell(p: Seq<char>, t: Seq<char>, esc: Option<char>, i: int, j: int) -> bool {
    like_match(p.skip(i), t.skip(j), esc)
}

proof fn lemma_cell_step(p: Seq<char>, t: Seq<char>, esc: Option<char>, i: int, j: int)
    requires
        0 <= i < p.len(),
        0 <= j <= t.len(),
    ensures
        cell(p, t, esc, i, j) == if p[i] == '%' {
            cell(p, t, esc, i + 1, j) || (j < t.len() && cell(p, t, esc, i, j + 1))
        } else if esc == Some(p[i]) {
            i + 1 < p.len() && j < t.len() && fold_eq(p[i + 1], t[j]) && cell(
                p,
                t,
                esc,
                i + 2,
                j + 1,
            )
        } else if p[i] == '_' {
            j < t.len() && cell(p, t, esc, i + 1, j + 1)
        } else {
            j < t.len() && fold_eq(p[i], t[j]) && cell(p, t, esc, i + 1, j + 1)
        },
{
    let ps = p.skip(i);
    let ts = t.skip(j);
    assert(ps.drop_first() =~= p.skip(i + 1));
    assert(ps[0] == p[i]);
    if j < t.len() {
        assert(ts.drop_first() =~= t.skip(j + 1));
        assert(ts[0] == t[j]);
    }
    if i + 1 < p.len() {
        assert(ps.skip(2) =~= p.skip(i + 2));
        assert(ps[1] == p[i + 1]);
    }
}

proof fn lemma_cell_end(p: Seq<char>, t: Seq<char>, esc: Option<char>, j: int)
    requires
        0 <= j <= t.len(),
    ensures
        cell(p, t, esc, p.len() as int, j) == (j == t.len()),
{
    assert(p.skip(p.len() as int).len() == 0);
}

fn fold_eq_exec(a: char, b: char) -> (r: bool)
    ensures
        r == fold_eq(a, b),
{
    let x = if 'A' <= a && a <= 'Z' {
        ((a as u8) + 32) as char
    } else {
        a
    };
    let y = if 'A' <= b && b <= 'Z' {
        ((b as u8) + 32) as char
    } else {
        b
    };
    proof {
        if 'A' <= a && a <= 'Z' {
            assert(x == ascii_lower(a));
        }
        if 'A' <= b && b <= 'Z' {
            assert(y == ascii_lower(b));
        }
    }
    x == y
}

/// One row of the match table: `row[j] == cell(p, t, esc, i, j)`.
pub open spec fn row_ok(row: Seq<bool>, p: Seq<char>, t: Seq<char>, esc: Option<char>, i: int) -> bool {
    row.len() == t.len() + 1 && forall|j: int| 0 <= j <= t.len() ==> row[j] == cell(p, t, esc, i, j)
}

/// `t LIKE p ESCAPE esc`.
pub fn like(p: &[char], t: &[char], esc: Option<char>) -> (r: bool)
    requires
        t.len() < usize::MAX,
    ensures
        r == like_match(p@, t@, esc),
{
    let m = t.len();
    // row for i = p.len()
    let mut next: Vec<bool> = Vec::new();
    let mut j: usize = 0;
    while j <= m
        invariant
            j <= m + 1,
            m == t.len(),
            m < usize::MAX,
            next.len() == j,
            forall|k: int| 0 <= k < j ==> next@[k] == cell(p@, t@, esc, p@.len() as int, k),
        decreases m + 1 - j,
    {
        proof {
            lemma_cell_end(p@, t@, esc, j as int);
        }
        next.push(j == m);
        j += 1;
    }
    // row for i = p.len() + 1 is never read with a true guard; keep a copy
    let mut next2: Vec<bool> = next.clone();
    let mut i: usize = p.len();
    while i > 0
        invariant
            i <= p.len(),
            m == t.len(),
            m < usize::MAX,
            row_ok(next@, p@, t@, esc, i as int),
            i + 1 <= p.len() ==> row_ok(next2@, p@, t@, esc, i + 1),
            next2.len() == m + 1,
        decreases i,
    {
        i -= 1;
        let mut cur: Vec<bool> = Vec::new();
        let mut k: usize = 0;
        while k <= m
            invariant
                k <= m + 1,
                m < usize::MAX,
                cur.len() == k,
            decreases m + 1 - k,
        {
            cur.push(false);
            k += 1;
        }
        let mut j: usize = m + 1;
        while j > 0
            invariant
                j <= m + 1,
                i < p.len(),
                m == t.len(),
                m < usize::MAX,
                cur.len() == m + 1,
                row_ok(next@, p@, t@, esc, i + 1),
                i + 2 <= p.len() ==> row_ok(next2@, p@, t@, esc, i + 2),
                next2.len() == m + 1,
                forall|k: int| j <= k <= m ==> cur@[k] == cell(p@, t@, esc, i as int, k),
            decreases j,
        {
            j -= 1;
            proof {
                lemma_cell_step(p@, t@, esc, i as int, j as int);
            }
            let pc = p[i];
            let v = if pc == '%' {
                next[j] || (j < m && cur[j + 1])
            } else if esc == Some(pc) {
                i + 1 < p.len() && j < m && fold_eq_exec(p[i + 1], t[j]) && next2[j + 1]
            } else if pc == '_' {
                j < m && next[j + 1]
            } else {
                j < m && fold_eq_exec(pc, t[j]) && next[j + 1]
            };
            cur.set(j, v);
        }
        next2 = next;
        next = cur;
    }
    proof {
        assert(p@.skip(0) =~= p@);
        assert(t@.skip(0) =~= t@);
    }
    next[0]
}

proof fn lemma_like_any(t: Seq<char>, esc: Option<char>)
    ensures
        like_match(seq!['%'], t, esc),
    decreases t.len(),
{
    let p = seq!['%'];
    assert(p.len() == 1 && p[0] == '%');
    assert(p.drop_first() =~= Seq::<char>::empty());
    if t.len() > 0 {
        lemma_like_any(t.drop_first(), esc);
        assert(like_match(p, t.drop_first(), esc));
    } else {
        assert(like_match(p.drop_first(), t, esc));
    }
}

/// A text that starts with `q` matches `q%` when `q` holds no escape character.
pub proof fn lemma_like_prefix(q: Seq<char>, t: Seq<char>, esc: char)
    requires
        is_prefix(q, t),
        !q.contains(esc),
    ensures
        like_match(q + seq!['%'], t, Some(esc)),
    decreases q.len(),
{
    let p = q + seq!['%'];
    if q.len() == 0 {
        assert(p =~= seq!['%']);
        lemma_like_any(t, Some(esc));
    } else {
        let q1 = q.drop_first();
        let t1 = t.drop_first();
        assert(t.take(q.len() as int)[0] == t[0]);
        assert(q[0] == t[0]);
        assert(t1.take(q1.len() as int) =~= q1) by {
            assert forall|i: int| 0 <= i < q1.len() implies t1.take(q1.len() as int)[i] == q1[i] by {
                assert(t.take(q.len() as int)[i + 1] == t[i + 1]);
            }
        }
        assert(!q1.contains(esc)) by {
            if q1.contains(esc) {
                let i = choose|i: int| 0 <= i < q1.len() && q1[i] == esc;
                assert(q[i + 1] == esc);
            }
        }
        assert(q[0] != esc);
        lemma_like_prefix(q1, t1, esc);
        assert(p.drop_first() =~= q1 + seq!['%']);
        assert(p[0] == q[0]);
        if q[0] == '%' {
            assert(like_match(p, t1, Some(esc)));
        }
    }
}

/// `t LIKE p ESCAPE esc`, for texts shorter than the address space.
pub open spec fn like_holds(p: Seq<char>, t: Seq<char>, esc: Option<char>) -> bool {
    t.len() < usize::MAX && like_match(p, t, esc)
}

/// `t LIKE p ESCAPE esc`.
pub fn like_text(p: &[char], t: &[char], esc: Option<char>) -> (r: bool)
    ensures
        r == like_holds(p@, t@, esc),
{
    if t.len() < usize::MAX {
        like(p, t, esc)
    } else {
        false
    }
}

} // verus!
