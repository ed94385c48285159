//! What holds of sorted lists of texts: proofs about `sorted_texts`, by which
//! keyword lists are specified.

use crate::text::{
    insert_text, lemma_lex_asymmetric, lemma_lex_carries_over, lex_lt, sorted_texts,
};
use vstd::prelude::*;

verus! {

/// Whether every text of the list comes strictly before the texts after it.
pub open spec fn strictly_sorted(texts: Seq<Seq<char>>) -> bool {
    forall|i: int, j: int|
        0 <= i < j < texts.len() ==> lex_lt(#[trigger] texts[i], #[trigger] texts[j])
}

/// Of two different texts one comes before the other.
pub proof fn lemma_lex_total(a: Seq<char>, b: Seq<char>)
    ensures
        lex_lt(a, b) || a == b || lex_lt(b, a),
    decreases a.len(),
{
    if a.len() > 0 && b.len() > 0 && a[0] == b[0] {
        lemma_lex_total(a.drop_first(), b.drop_first());
        if a.drop_first() == b.drop_first() {
            assert(a =~= seq![a[0]] + a.drop_first());
            assert(b =~= seq![b[0]] + b.drop_first());
        }
    } else if a.len() == 0 && b.len() == 0 {
        assert(a =~= b);
    }
}

/// What comes before a text comes before everything after that text.
pub proof fn lemma_lex_transitive(a: Seq<char>, b: Seq<char>, c: Seq<char>)
    requires
        lex_lt(a, b),
        lex_lt(b, c),
    ensures
        lex_lt(a, c),
{
    lemma_lex_asymmetric(b, c);
    lemma_lex_carries_over(a, b, c);
}

/// Putting a text into a sorted list keeps the list sorted, and adds that
/// text and no other.
pub proof fn lemma_insert_text(sorted: Seq<Seq<char>>, x: Seq<char>)
    requires
        strictly_sorted(sorted),
    ensures
        strictly_sorted(insert_text(sorted, x)),
        forall|y: Seq<char>|
            #[trigger] insert_text(sorted, x).contains(y) <==> (sorted.contains(y) || y == x),
    decreases sorted.len(),
{
    let after = insert_text(sorted, x);
    if sorted.len() == 0 {
        assert(after[0] == x);
        assert forall|y: Seq<char>| #[trigger] after.contains(y) <==> (sorted.contains(y) || y
            == x) by {
            if after.contains(y) {
                let i = choose|i: int| 0 <= i < after.len() && after[i] == y;
            }
        }
    } else {
        let last = sorted.last();
        let before = sorted.drop_last();
        if lex_lt(last, x) {
            assert forall|i: int, j: int| 0 <= i < j < after.len() implies lex_lt(
                #[trigger] after[i],
                #[trigger] after[j],
            ) by {
                if j == after.len() - 1 {
                    if i < sorted.len() - 1 {
                        assert(lex_lt(sorted[i], sorted[sorted.len() - 1]));
                        lemma_lex_transitive(sorted[i], last, x);
                    }
                } else {
                    assert(after[i] == sorted[i] && after[j] == sorted[j]);
                }
            }
            assert forall|y: Seq<char>| #[trigger] after.contains(y) <==> (sorted.contains(y) || y
                == x) by {
                if after.contains(y) {
                    let i = choose|i: int| 0 <= i < after.len() && after[i] == y;
                    if i < sorted.len() {
                        assert(sorted[i] == y);
                    }
                }
                if sorted.contains(y) {
                    let i = choose|i: int| 0 <= i < sorted.len() && sorted[i] == y;
                    assert(after[i] == y);
                }
                if y == x {
                    assert(after[after.len() - 1] == y);
                }
            }
        } else if last == x {
            assert(sorted[sorted.len() - 1] == x);
        } else {
            lemma_lex_total(last, x);
            assert(lex_lt(x, last));
            assert forall|i: int, j: int| 0 <= i < j < before.len() implies lex_lt(
                #[trigger] before[i],
                #[trigger] before[j],
            ) by {
                assert(before[i] == sorted[i] && before[j] == sorted[j]);
            }
            lemma_insert_text(before, x);
            let inner = insert_text(before, x);
            assert(after == inner.push(last));
            assert forall|i: int| 0 <= i < inner.len() implies lex_lt(#[trigger] inner[i], last) by {
                assert(inner.contains(inner[i]));
                if before.contains(inner[i]) {
                    let k = choose|k: int| 0 <= k < before.len() && before[k] == inner[i];
                    assert(sorted[k] == before[k]);
                    assert(lex_lt(sorted[k], sorted[sorted.len() - 1]));
                }
            }
            assert forall|i: int, j: int| 0 <= i < j < after.len() implies lex_lt(
                #[trigger] after[i],
                #[trigger] after[j],
            ) by {
                if j == after.len() - 1 {
                    assert(after[i] == inner[i]);
                } else {
                    assert(after[i] == inner[i] && after[j] == inner[j]);
                }
            }
            assert forall|y: Seq<char>| #[trigger] after.contains(y) <==> (sorted.contains(y) || y
                == x) by {
                if after.contains(y) {
                    let i = choose|i: int| 0 <= i < after.len() && after[i] == y;
                    if i < inner.len() {
                        assert(inner.contains(inner[i]));
                        if before.contains(y) {
                            let k = choose|k: int| 0 <= k < before.len() && before[k] == y;
                            assert(sorted[k] == y);
                        }
                    } else {
                        assert(sorted[sorted.len() - 1] == y);
                    }
                }
                if sorted.contains(y) {
                    let k = choose|k: int| 0 <= k < sorted.len() && sorted[k] == y;
                    if k < before.len() {
                        assert(before[k] == y);
                        assert(before.contains(y));
                        assert(inner.contains(y));
                        let i = choose|i: int| 0 <= i < inner.len() && inner[i] == y;
                        assert(after[i] == y);
                    } else {
                        assert(after[after.len() - 1] == y);
                    }
                }
                if y == x {
                    assert(inner.contains(x));
                    let i = choose|i: int| 0 <= i < inner.len() && inner[i] == x;
                    assert(after[i] == y);
                }
            }
        }
    }
}

/// A sorted list of texts holds exactly the given texts, each once, in
/// code-point order.
pub proof fn theorem_sorted_texts(texts: Seq<Seq<char>>)
    ensures
        strictly_sorted(sorted_texts(texts)),
        forall|y: Seq<char>| #[trigger] sorted_texts(texts).contains(y) <==> texts.contains(y),
    decreases texts.len(),
{
    if texts.len() > 0 {
        let before = texts.drop_last();
        theorem_sorted_texts(before);
        lemma_insert_text(sorted_texts(before), texts.last());
        assert forall|y: Seq<char>| #[trigger] sorted_texts(texts).contains(y) <==> texts.contains(
            y,
        ) by {
            if texts.contains(y) {
                let k = choose|k: int| 0 <= k < texts.len() && texts[k] == y;
                if k < before.len() {
                    assert(before[k] == y);
                    assert(before.contains(y));
                }
            }
            if before.contains(y) {
                let k = choose|k: int| 0 <= k < before.len() && before[k] == y;
                assert(texts[k] == y);
            }
            if y == texts.last() {
                assert(texts[texts.len() - 1] == y);
            }
        }
    } else {
        assert forall|y: Seq<char>| #[trigger] sorted_texts(texts).contains(y) <==> texts.contains(
            y,
        ) by {
            if sorted_texts(texts).contains(y) {
                let i = choose|i: int| 0 <= i < sorted_texts(texts).len() && sorted_texts(
                    texts,
                )[i] == y;
            }
            if texts.contains(y) {
                let i = choose|i: int| 0 <= i < texts.len() && texts[i] == y;
            }
        }
    }
}

} // verus!
