//! Stable orderings: the one arrangement of positions `0..n` that is sorted by a
//! strict order on keys and keeps positions with equivalent keys in input order.

use crate::text::{lemma_lex_asymmetric, lemma_lex_carries_over, lex_less, lex_lt};
use vstd::prelude::*;

verus! {

/// Whether position `i` must stand before position `j`: its key is smaller, or
/// the keys are equivalent and `i` is the earlier position.
pub open spec fn goes_before(lt: spec_fn(int, int) -> bool, i: int, j: int) -> bool {
    lt(i, j) || (!lt(j, i) && i < j)
}

/// Whether `lt` never orders two positions both ways.
pub open spec fn asymmetric(lt: spec_fn(int, int) -> bool) -> bool {
    forall|i: int, j: int| !(#[trigger] lt(i, j) && lt(j, i))
}

/// Whether a key that is smaller than `a` is also smaller than everything
/// that is not smaller than `a`.
pub open spec fn carries_over(lt: spec_fn(int, int) -> bool) -> bool {
    forall|x: int, a: int, b: int| #[trigger] lt(x, a) && !#[trigger] lt(b, a) ==> lt(x, b)
}

/// Whether `p` lists each position of `0..n` exactly once, every position
/// standing before the ones it must stand before.
pub open spec fn is_stable_order(n: nat, lt: spec_fn(int, int) -> bool, p: Seq<int>) -> bool {
    &&& p.len() == n
    &&& forall|k: int| 0 <= k < n ==> 0 <= #[trigger] p[k] < n
    &&& forall|m: int| 0 <= m < n ==> #[trigger] p.contains(m)
    &&& forall|a: int, b: int| 0 <= a < b < n ==> goes_before(lt, #[trigger] p[a], #[trigger] p[b])
}

/// The stable order of `n` positions under `lt`.
pub open spec fn stable_order(n: nat, lt: spec_fn(int, int) -> bool) -> Seq<int> {
    choose|p: Seq<int>| is_stable_order(n, lt, p)
}

/// The positions held by a vector of indices.
pub open spec fn positions(order: Seq<usize>) -> Seq<int> {
    Seq::new(order.len(), |i: int| order[i] as int)
}

/// Two arrangements that are both stable orders agree up to any position `k`.
proof fn lemma_agree_upto(n: nat, lt: spec_fn(int, int) -> bool, p: Seq<int>, q: Seq<int>, k: int)
    requires
        asymmetric(lt),
        is_stable_order(n, lt, p),
        is_stable_order(n, lt, q),
        0 <= k <= n,
    ensures
        forall|j: int| 0 <= j < k ==> p[j] == q[j],
    decreases k,
{
    if k > 0 {
        lemma_agree_upto(n, lt, p, q, k - 1);
        let i = k - 1;
        let m = q[i];
        let mp = p[i];
        assert(p.contains(m));
        let kp = choose|x: int| 0 <= x < p.len() && p[x] == m;
        assert(q.contains(mp));
        let kq = choose|x: int| 0 <= x < q.len() && q[x] == mp;
        if kp < i {
            assert(q[kp] == m);
            assert(goes_before(lt, q[kp], q[i]));
            assert(!(lt(m, m) && lt(m, m)));
        } else if kq < i {
            assert(p[kq] == mp);
            assert(goes_before(lt, p[kq], p[i]));
            assert(!(lt(mp, mp) && lt(mp, mp)));
        } else if kp > i && kq > i {
            assert(goes_before(lt, p[i], p[kp]));
            assert(goes_before(lt, q[i], q[kq]));
            assert(!(lt(m, mp) && lt(mp, m)));
        }
    }
}

/// There is at most one stable order.
pub proof fn lemma_stable_order_unique(
    n: nat,
    lt: spec_fn(int, int) -> bool,
    p: Seq<int>,
    q: Seq<int>,
)
    requires
        asymmetric(lt),
        is_stable_order(n, lt, p),
        is_stable_order(n, lt, q),
    ensures
        p == q,
{
    lemma_agree_upto(n, lt, p, q, n as int);
    assert(p =~= q);
}

/// An arrangement that is a stable order is the stable order.
pub proof fn lemma_is_the_stable_order(n: nat, lt: spec_fn(int, int) -> bool, p: Seq<int>)
    requires
        asymmetric(lt),
        is_stable_order(n, lt, p),
    ensures
        p == stable_order(n, lt),
{
    lemma_stable_order_unique(n, lt, p, stable_order(n, lt));
}

/// Placing position `k` into the stable order of the first `k` positions, after
/// everything whose key is not larger and before everything whose key is
/// larger, gives the stable order of the first `k + 1` positions.
pub proof fn lemma_insert_keeps_order(
    k: nat,
    lt: spec_fn(int, int) -> bool,
    p: Seq<int>,
    pos: int,
)
    requires
        asymmetric(lt),
        is_stable_order(k, lt, p),
        0 <= pos <= k,
        forall|j: int| 0 <= j < pos ==> !lt(k as int, #[trigger] p[j]),
        forall|j: int| pos <= j < k ==> lt(k as int, #[trigger] p[j]),
    ensures
        is_stable_order(k + 1, lt, p.insert(pos, k as int)),
{
    let r = p.insert(pos, k as int);
    assert forall|m: int| 0 <= m < k + 1 implies #[trigger] r.contains(m) by {
        if m == k {
            assert(r[pos] == m);
        } else {
            assert(p.contains(m));
            let x = choose|x: int| 0 <= x < p.len() && p[x] == m;
            if x < pos {
                assert(r[x] == m);
            } else {
                assert(r[x + 1] == m);
            }
        }
    }
    assert forall|a: int, b: int| 0 <= a < b < k + 1 implies goes_before(
        lt,
        #[trigger] r[a],
        #[trigger] r[b],
    ) by {
        if b == pos {
            assert(r[a] == p[a]);
            assert(!(lt(p[a], k as int) && lt(k as int, p[a])));
        } else if a == pos {
            assert(r[b] == p[b - 1]);
        } else {
            let pa = if a < pos { a } else { a - 1 };
            let pb = if b < pos { b } else { b - 1 };
            assert(r[a] == p[pa] && r[b] == p[pb]);
            assert(goes_before(lt, p[pa], p[pb]));
        }
    }
}

/// The first place in `p`, from `from` on, whose position has a larger key
/// than position `k`; the length of `p` where there is none.
pub open spec fn first_larger(lt: spec_fn(int, int) -> bool, p: Seq<int>, k: int, from: int) -> int
    decreases p.len() - from,
{
    if from < 0 || from >= p.len() {
        p.len() as int
    } else if lt(k, p[from]) {
        from
    } else {
        first_larger(lt, p, k, from + 1)
    }
}

/// What `first_larger` finds: nothing before it has a larger key, and the
/// place itself, if there is one, has.
proof fn lemma_first_larger(lt: spec_fn(int, int) -> bool, p: Seq<int>, k: int, from: int)
    requires
        0 <= from <= p.len(),
    ensures
        from <= first_larger(lt, p, k, from) <= p.len(),
        forall|j: int| from <= j < first_larger(lt, p, k, from) ==> !lt(k, #[trigger] p[j]),
        first_larger(lt, p, k, from) < p.len() ==> lt(k, p[first_larger(lt, p, k, from)]),
    decreases p.len() - from,
{
    if from < p.len() && !lt(k, p[from]) {
        lemma_first_larger(lt, p, k, from + 1);
    }
}

/// Under an order that is asymmetric and carries over, every number of
/// positions has a stable order.
pub proof fn lemma_stable_order_exists(n: nat, lt: spec_fn(int, int) -> bool)
    requires
        asymmetric(lt),
        carries_over(lt),
    ensures
        is_stable_order(n, lt, stable_order(n, lt)),
    decreases n,
{
    if n == 0 {
        assert(is_stable_order(0, lt, Seq::<int>::empty()));
    } else {
        let k = (n - 1) as nat;
        lemma_stable_order_exists(k, lt);
        let p = stable_order(k, lt);
        let pos = first_larger(lt, p, k as int, 0);
        lemma_first_larger(lt, p, k as int, 0);
        assert forall|j: int| pos <= j < k implies lt(k as int, #[trigger] p[j]) by {
            if j > pos {
                assert(goes_before(lt, p[pos], p[j]));
                assert(!(lt(p[pos], p[j]) && lt(p[j], p[pos])));
                assert(lt(k as int, p[pos]) && !lt(p[j], p[pos]));
            }
        }
        lemma_insert_keeps_order(k, lt, p, pos);
        assert(is_stable_order(n, lt, p.insert(pos, k as int)));
    }
}

/// The order on positions that puts higher scores first.
pub open spec fn by_score_desc(scores: Seq<int>) -> spec_fn(int, int) -> bool {
    |i: int, j: int| scores[i] > scores[j]
}

/// Putting higher scores first is an order that has a stable order: the
/// stable order lists every position once, never a lower score before a
/// higher one, and equal scores in input order.
pub proof fn lemma_score_order(scores: Seq<int>)
    ensures
        is_stable_order(
            scores.len(),
            by_score_desc(scores),
            stable_order(scores.len(), by_score_desc(scores)),
        ),
        forall|a: int, b: int|
            #![trigger stable_order(scores.len(), by_score_desc(scores))[a], stable_order(scores.len(), by_score_desc(scores))[b]]
            0 <= a < b < scores.len() ==> {
                let p = stable_order(scores.len(), by_score_desc(scores));
                scores[p[a]] > scores[p[b]] || (scores[p[a]] == scores[p[b]] && p[a] < p[b])
            },
{
    let lt = by_score_desc(scores);
    lemma_stable_order_exists(scores.len(), lt);
    let p = stable_order(scores.len(), lt);
    assert forall|a: int, b: int|
        #![trigger p[a], p[b]]
        0 <= a < b < scores.len() implies scores[p[a]] > scores[p[b]] || (scores[p[a]]
        == scores[p[b]] && p[a] < p[b]) by {
        assert(goes_before(lt, p[a], p[b]));
    }
}

/// Machine scores as integers.
pub open spec fn ints(scores: Seq<i64>) -> Seq<int> {
    Seq::new(scores.len(), |i: int| scores[i] as int)
}

/// The positions of `scores` from the highest score to the lowest, equal
/// scores in input order.
pub fn order_by_score_desc(scores: &Vec<i64>) -> (order: Vec<usize>)
    ensures
        positions(order@) == stable_order(scores.len() as nat, by_score_desc(ints(scores@))),
        order.len() == scores.len(),
        forall|i: int| 0 <= i < order.len() ==> (#[trigger] order@[i]) < scores.len(),
{
    let ghost lt = by_score_desc(ints(scores@));
    let mut order: Vec<usize> = Vec::new();
    let mut k: usize = 0;
    assert(is_stable_order(0, lt, positions(order@)));
    while k < scores.len()
        invariant
            k <= scores.len(),
            lt == by_score_desc(ints(scores@)),
            order.len() == k,
            forall|j: int| 0 <= j < k ==> (#[trigger] order@[j]) < k,
            is_stable_order(k as nat, lt, positions(order@)),
        decreases scores.len() - k,
    {
        let ghost p = positions(order@);
        let mut pos: usize = k;
        while pos > 0 && scores[order[pos - 1]] < scores[k]
            invariant
                pos <= k < scores.len(),
                order.len() == k,
                p == positions(order@),
                lt == by_score_desc(ints(scores@)),
                forall|j: int| 0 <= j < k ==> (#[trigger] order@[j]) < k,
                is_stable_order(k as nat, lt, p),
                forall|j: int| pos <= j < k ==> lt(k as int, #[trigger] p[j]),
            decreases pos,
        {
            pos -= 1;
        }
        proof {
            assert forall|j: int| 0 <= j < pos implies !lt(k as int, #[trigger] p[j]) by {
                assert(p[pos - 1] == order@[pos - 1]);
                if j < pos - 1 {
                    assert(goes_before(lt, p[j], p[pos - 1]));
                }
            }
            lemma_insert_keeps_order(k as nat, lt, p, pos as int);
        }
        order.insert(pos, k);
        assert(positions(order@) =~= p.insert(pos as int, k as int));
        k += 1;
    }
    proof {
        lemma_is_the_stable_order(scores.len() as nat, lt, positions(order@));
        assert forall|i: int| 0 <= i < order.len() implies (#[trigger] order@[i]) < scores.len() by {
            assert(positions(order@)[i] == order@[i]);
        }
    }
    order
}

/// The order on positions that puts texts in code-point order.
pub open spec fn by_text(keys: Seq<Seq<char>>) -> spec_fn(int, int) -> bool {
    |i: int, j: int| lex_lt(keys[i], keys[j])
}

/// The texts held by a vector of character vectors.
pub open spec fn char_views(keys: Seq<Vec<char>>) -> Seq<Seq<char>> {
    Seq::new(keys.len(), |i: int| keys[i]@)
}

/// Putting texts in code-point order is an order that has a stable order.
pub proof fn lemma_text_order(keys: Seq<Seq<char>>)
    ensures
        asymmetric(by_text(keys)),
        carries_over(by_text(keys)),
        is_stable_order(keys.len(), by_text(keys), stable_order(keys.len(), by_text(keys))),
{
    let lt = by_text(keys);
    assert forall|i: int, j: int| !(#[trigger] lt(i, j) && lt(j, i)) by {
        lemma_lex_asymmetric(keys[i], keys[j]);
    }
    assert forall|x: int, a: int, b: int| #[trigger] lt(x, a) && !#[trigger] lt(b, a) implies lt(
        x,
        b,
    ) by {
        lemma_lex_carries_over(keys[x], keys[a], keys[b]);
    }
    lemma_stable_order_exists(keys.len(), lt);
}

/// The positions of `keys` in code-point order of the texts, equal texts in
/// input order.
pub fn order_by_text(keys: &Vec<Vec<char>>) -> (order: Vec<usize>)
    ensures
        positions(order@) == stable_order(keys.len() as nat, by_text(char_views(keys@))),
        order.len() == keys.len(),
        forall|i: int| 0 <= i < order.len() ==> (#[trigger] order@[i]) < keys.len(),
{
    let ghost kv = char_views(keys@);
    let ghost lt = by_text(kv);
    proof {
        lemma_text_order(kv);
    }
    let mut order: Vec<usize> = Vec::new();
    let mut k: usize = 0;
    assert(is_stable_order(0, lt, positions(order@)));
    while k < keys.len()
        invariant
            k <= keys.len(),
            kv == char_views(keys@),
            lt == by_text(kv),
            asymmetric(lt),
            carries_over(lt),
            order.len() == k,
            forall|j: int| 0 <= j < k ==> (#[trigger] order@[j]) < k,
            is_stable_order(k as nat, lt, positions(order@)),
        decreases keys.len() - k,
    {
        let ghost p = positions(order@);
        let mut pos: usize = k;
        while pos > 0 && lex_less(&keys[k], &keys[order[pos - 1]])
            invariant
                pos <= k < keys.len(),
                order.len() == k,
                p == positions(order@),
                kv == char_views(keys@),
                lt == by_text(kv),
                forall|j: int| 0 <= j < k ==> (#[trigger] order@[j]) < k,
                is_stable_order(k as nat, lt, p),
                forall|j: int| pos <= j < k ==> lt(k as int, #[trigger] p[j]),
            decreases pos,
        {
            assert(p[pos - 1] == order@[pos - 1]);
            pos -= 1;
        }
        proof {
            assert forall|j: int| 0 <= j < pos implies !lt(k as int, #[trigger] p[j]) by {
                assert(p[pos - 1] == order@[pos - 1]);
                if j < pos - 1 {
                    assert(goes_before(lt, p[j], p[pos - 1]));
                    assert(!(lt(p[j], p[pos - 1]) && lt(p[pos - 1], p[j])));
                    if lt(k as int, p[j]) {
                        assert(lt(k as int, p[j]) && !lt(p[pos - 1], p[j]));
                    }
                }
            }
            lemma_insert_keeps_order(k as nat, lt, p, pos as int);
        }
        order.insert(pos, k);
        assert(positions(order@) =~= p.insert(pos as int, k as int));
        k += 1;
    }
    proof {
        lemma_is_the_stable_order(keys.len() as nat, lt, positions(order@));
        assert forall|i: int| 0 <= i < order.len() implies (#[trigger] order@[i]) < keys.len() by {
            assert(positions(order@)[i] == order@[i]);
        }
    }
    order
}

} // verus!
