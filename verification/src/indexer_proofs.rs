//! What holds of every canonical index: proofs about what `build_index` returns.

use crate::indexer::{
    canonical_index, deduplicated, flattened, has_identity, is_excluded, name_keys,
    sorted_by_name, without_excluded,
};
use crate::models::ApplicationView;
use crate::stable_order::{by_text, goes_before, is_stable_order, lemma_text_order, stable_order};
use crate::text::{lemma_lex_asymmetric, lex_lt, unicode_lower};
use vstd::prelude::*;

verus! {

/// Whether no two entries have the same identity.
pub open spec fn distinct_identities(entries: Seq<ApplicationView>) -> bool {
    forall|a: int, b: int|
        0 <= a < b < entries.len() ==> (#[trigger] entries[a]).id != (#[trigger] entries[b]).id
}

/// Whether the entry at position `j` is the first of its identity.
pub open spec fn is_first_of_identity(entries: Seq<ApplicationView>, j: int) -> bool {
    &&& 0 <= j < entries.len()
    &&& forall|earlier: int| 0 <= earlier < j ==> (#[trigger] entries[earlier]).id != entries[j].id
}

/// Whether `entry` is, in `entries`, the first entry of its identity.
pub open spec fn is_first_occurrence(entries: Seq<ApplicationView>, entry: ApplicationView) -> bool {
    exists|j: int| #[trigger] is_first_of_identity(entries, j) && entries[j] == entry
}

/// Deduplication keeps exactly the first entry of each identity.
pub proof fn lemma_deduplicated(entries: Seq<ApplicationView>)
    ensures
        distinct_identities(deduplicated(entries)),
        forall|i: int|
            0 <= i < deduplicated(entries).len() ==> is_first_occurrence(
                entries,
                #[trigger] deduplicated(entries)[i],
            ),
        forall|j: int| #[trigger]
            is_first_of_identity(entries, j) ==> deduplicated(entries).contains(entries[j]),
    decreases entries.len(),
{
    if entries.len() > 0 {
        let before = entries.drop_last();
        let last = entries.last();
        let kept = deduplicated(entries);
        let kept_before = deduplicated(before);
        lemma_deduplicated(before);
        assert forall|i: int| 0 <= i < kept_before.len() implies is_first_occurrence(
            entries,
            #[trigger] kept_before[i],
        ) && has_identity(before, kept_before[i].id) by {
            assert(is_first_occurrence(before, kept_before[i]));
            let j = choose|j: int| #[trigger]
                is_first_of_identity(before, j) && before[j] == kept_before[i];
            assert(entries[j] == before[j]);
            assert forall|earlier: int| 0 <= earlier < j implies (#[trigger] entries[earlier]).id
                != entries[j].id by {
                assert(before[earlier] == entries[earlier]);
            }
            assert(is_first_of_identity(entries, j));
        }
        if has_identity(before, last.id) {
            assert forall|j: int| #[trigger] is_first_of_identity(entries, j) implies kept.contains(
                entries[j],
            ) by {
                let w = choose|w: int| 0 <= w < before.len() && (#[trigger] before[w]).id == last.id;
                assert(entries[w] == before[w]);
                assert(j < entries.len() - 1);
                assert forall|earlier: int| 0 <= earlier < j implies (#[trigger] before[earlier]).id
                    != before[j].id by {
                    assert(before[earlier] == entries[earlier]);
                }
                assert(is_first_of_identity(before, j));
            }
        } else {
            assert forall|a: int, b: int| 0 <= a < b < kept.len() implies (#[trigger] kept[a]).id
                != (#[trigger] kept[b]).id by {
                if b == kept.len() - 1 {
                    assert(kept[a] == kept_before[a]);
                    assert(has_identity(before, kept_before[a].id));
                } else {
                    assert(kept[a] == kept_before[a] && kept[b] == kept_before[b]);
                }
            }
            assert forall|earlier: int| 0 <= earlier < entries.len() - 1 implies (
            #[trigger] entries[earlier]).id != last.id by {
                assert(before[earlier] == entries[earlier]);
            }
            assert(is_first_of_identity(entries, entries.len() - 1));
            assert forall|i: int| 0 <= i < kept.len() implies is_first_occurrence(
                entries,
                #[trigger] kept[i],
            ) by {
                if i < kept_before.len() {
                    assert(kept[i] == kept_before[i]);
                }
            }
            assert forall|j: int| #[trigger] is_first_of_identity(entries, j) implies kept.contains(
                entries[j],
            ) by {
                if j == entries.len() - 1 {
                    assert(kept[kept.len() - 1] == entries[j]);
                } else {
                    assert forall|earlier: int| 0 <= earlier < j implies (
                    #[trigger] before[earlier]).id != before[j].id by {
                        assert(before[earlier] == entries[earlier]);
                    }
                    assert(is_first_of_identity(before, j));
                    assert(kept_before.contains(before[j]));
                    let i = choose|i: int| 0 <= i < kept_before.len() && kept_before[i] == before[j];
                    assert(kept[i] == entries[j]);
                }
            }
        }
    }
}

/// Sorting rearranges the entries and neither loses nor repeats one.
pub proof fn lemma_sorted_by_name(entries: Seq<ApplicationView>)
    ensures
        sorted_by_name(entries).len() == entries.len(),
        forall|k: int|
            0 <= k < entries.len() ==> entries.contains(#[trigger] sorted_by_name(entries)[k]),
        forall|i: int|
            0 <= i < entries.len() ==> sorted_by_name(entries).contains(#[trigger] entries[i]),
        distinct_identities(entries) ==> distinct_identities(sorted_by_name(entries)),
{
    let lt = by_text(name_keys(entries));
    let p = stable_order(entries.len(), lt);
    let sorted = sorted_by_name(entries);
    lemma_text_order(name_keys(entries));
    assert(is_stable_order(entries.len(), lt, p));
    assert forall|k: int| 0 <= k < entries.len() implies entries.contains(#[trigger] sorted[k]) by {
        assert(entries[p[k]] == sorted[k]);
    }
    assert forall|i: int| 0 <= i < entries.len() implies sorted.contains(#[trigger] entries[i]) by {
        assert(p.contains(i));
        let k = choose|k: int| 0 <= k < p.len() && p[k] == i;
        assert(sorted[k] == entries[i]);
    }
    if distinct_identities(entries) {
        assert forall|a: int, b: int| 0 <= a < b < sorted.len() implies (#[trigger] sorted[a]).id
            != (#[trigger] sorted[b]).id by {
            assert(goes_before(lt, p[a], p[b]));
            lemma_lex_asymmetric(name_keys(entries)[p[a]], name_keys(entries)[p[a]]);
            assert(p[a] != p[b]);
            if p[a] < p[b] {
                assert(entries[p[a]].id != entries[p[b]].id);
            } else {
                assert(entries[p[b]].id != entries[p[a]].id);
            }
        }
    }
}

/// Filtering keeps exactly the entries that are not excluded, in their order.
pub proof fn lemma_without_excluded(entries: Seq<ApplicationView>, exclusions: Seq<Seq<char>>)
    ensures
        forall|i: int|
            0 <= i < without_excluded(entries, exclusions).len() ==> entries.contains(
                #[trigger] without_excluded(entries, exclusions)[i],
            ) && !is_excluded(without_excluded(entries, exclusions)[i], exclusions),
        forall|j: int|
            0 <= j < entries.len() && !is_excluded(#[trigger] entries[j], exclusions)
                ==> without_excluded(entries, exclusions).contains(entries[j]),
        distinct_identities(entries) ==> distinct_identities(without_excluded(entries, exclusions)),
    decreases entries.len(),
{
    if entries.len() > 0 {
        let before = entries.drop_last();
        let last = entries.last();
        let kept = without_excluded(entries, exclusions);
        let kept_before = without_excluded(before, exclusions);
        lemma_without_excluded(before, exclusions);
        assert forall|i: int| 0 <= i < kept_before.len() implies entries.contains(
            #[trigger] kept_before[i],
        ) by {
            assert(before.contains(kept_before[i]));
            let j = choose|j: int| 0 <= j < before.len() && before[j] == kept_before[i];
            assert(entries[j] == before[j]);
        }
        assert forall|i: int| 0 <= i < kept.len() implies entries.contains(#[trigger] kept[i])
            && !is_excluded(kept[i], exclusions) by {
            if i < kept_before.len() {
                assert(kept[i] == kept_before[i]);
            } else {
                assert(kept[i] == entries[entries.len() - 1]);
            }
        }
        assert forall|j: int|
            0 <= j < entries.len() && !is_excluded(
                #[trigger] entries[j],
                exclusions,
            ) implies kept.contains(entries[j]) by {
            if j < before.len() {
                assert(before[j] == entries[j]);
                assert(kept_before.contains(before[j]));
                let i = choose|i: int| 0 <= i < kept_before.len() && kept_before[i] == before[j];
                assert(kept[i] == entries[j]);
            } else {
                assert(kept[kept.len() - 1] == entries[j]);
            }
        }
        if distinct_identities(entries) {
            assert forall|a: int, b: int| 0 <= a < b < before.len() implies (
            #[trigger] before[a]).id != (#[trigger] before[b]).id by {
                assert(before[a] == entries[a] && before[b] == entries[b]);
            }
            assert(distinct_identities(before));
            assert forall|a: int, b: int| 0 <= a < b < kept.len() implies (#[trigger] kept[a]).id
                != (#[trigger] kept[b]).id by {
                if b < kept_before.len() {
                    assert(kept[a] == kept_before[a] && kept[b] == kept_before[b]);
                } else {
                    assert(kept[a] == kept_before[a]);
                    assert(before.contains(kept_before[a]));
                    let j = choose|j: int| 0 <= j < before.len() && before[j] == kept_before[a];
                    assert(entries[j] == before[j]);
                    assert(entries[j].id != entries[entries.len() - 1].id);
                }
            }
        }
    }
}

/// Whether no entry's lower-cased name comes before that of an earlier entry.
pub open spec fn ordered_by_name(entries: Seq<ApplicationView>) -> bool {
    forall|i: int, j: int|
        0 <= i < j < entries.len() ==> !lex_lt(
            unicode_lower((#[trigger] entries[j]).name),
            unicode_lower((#[trigger] entries[i]).name),
        )
}

/// Sorting by name orders the entries by name.
pub proof fn lemma_sorted_is_ordered(entries: Seq<ApplicationView>)
    ensures
        ordered_by_name(sorted_by_name(entries)),
{
    let keys = name_keys(entries);
    let lt = by_text(keys);
    let p = stable_order(entries.len(), lt);
    let sorted = sorted_by_name(entries);
    lemma_text_order(keys);
    assert forall|i: int, j: int| 0 <= i < j < sorted.len() implies !lex_lt(
        unicode_lower((#[trigger] sorted[j]).name),
        unicode_lower((#[trigger] sorted[i]).name),
    ) by {
        assert(goes_before(lt, p[i], p[j]));
        lemma_lex_asymmetric(keys[p[i]], keys[p[j]]);
        assert(keys[p[i]] == unicode_lower(sorted[i].name));
        assert(keys[p[j]] == unicode_lower(sorted[j].name));
    }
}

/// Filtering keeps entries that are ordered by name ordered by name.
pub proof fn lemma_filter_keeps_order(entries: Seq<ApplicationView>, exclusions: Seq<Seq<char>>)
    requires
        ordered_by_name(entries),
    ensures
        ordered_by_name(without_excluded(entries, exclusions)),
    decreases entries.len(),
{
    if entries.len() > 0 {
        let before = entries.drop_last();
        let kept = without_excluded(entries, exclusions);
        let kept_before = without_excluded(before, exclusions);
        assert forall|i: int, j: int| 0 <= i < j < before.len() implies !lex_lt(
            unicode_lower((#[trigger] before[j]).name),
            unicode_lower((#[trigger] before[i]).name),
        ) by {
            assert(before[i] == entries[i] && before[j] == entries[j]);
        }
        lemma_filter_keeps_order(before, exclusions);
        lemma_without_excluded(before, exclusions);
        assert forall|i: int, j: int| 0 <= i < j < kept.len() implies !lex_lt(
            unicode_lower((#[trigger] kept[j]).name),
            unicode_lower((#[trigger] kept[i]).name),
        ) by {
            if j < kept_before.len() {
                assert(kept[i] == kept_before[i] && kept[j] == kept_before[j]);
            } else {
                assert(kept[i] == kept_before[i]);
                assert(before.contains(kept_before[i]));
                let k = choose|k: int| 0 <= k < before.len() && before[k] == kept_before[i];
                assert(entries[k] == before[k]);
                assert(kept[j] == entries[entries.len() - 1]);
            }
        }
    }
}

/// A canonical index is ordered by the lower-cased names of its entries.
pub proof fn theorem_index_is_ordered_by_name(
    batches: Seq<Seq<ApplicationView>>,
    exclusions: Seq<Seq<char>>,
)
    ensures
        ordered_by_name(canonical_index(batches, exclusions)),
{
    let unique = deduplicated(flattened(batches));
    lemma_sorted_is_ordered(unique);
    lemma_filter_keeps_order(sorted_by_name(unique), exclusions);
}

/// In a canonical index no identity occurs twice, and every entry is the first
/// entry of its identity in batch order and is not excluded. So where two
/// batches hold an entry of one identity, the index holds at most the one of
/// the earlier batch; and it does hold the first entry of every identity,
/// unless that entry is excluded.
pub proof fn theorem_index_keeps_first_of_each_identity(
    batches: Seq<Seq<ApplicationView>>,
    exclusions: Seq<Seq<char>>,
)
    ensures
        distinct_identities(canonical_index(batches, exclusions)),
        forall|i: int|
            0 <= i < canonical_index(batches, exclusions).len() ==> is_first_occurrence(
                flattened(batches),
                #[trigger] canonical_index(batches, exclusions)[i],
            ) && !is_excluded(canonical_index(batches, exclusions)[i], exclusions),
        forall|j: int| #[trigger]
            is_first_of_identity(flattened(batches), j) && !is_excluded(
                flattened(batches)[j],
                exclusions,
            ) ==> canonical_index(batches, exclusions).contains(flattened(batches)[j]),
{
    let all = flattened(batches);
    let unique = deduplicated(all);
    let sorted = sorted_by_name(unique);
    let index = canonical_index(batches, exclusions);
    lemma_deduplicated(all);
    lemma_sorted_by_name(unique);
    lemma_without_excluded(sorted, exclusions);
    assert forall|i: int| 0 <= i < index.len() implies is_first_occurrence(
        all,
        #[trigger] index[i],
    ) && !is_excluded(index[i], exclusions) by {
        assert(sorted.contains(index[i]));
        let k = choose|k: int| 0 <= k < sorted.len() && sorted[k] == index[i];
        assert(unique.contains(sorted[k]));
        let u = choose|u: int| 0 <= u < unique.len() && unique[u] == sorted[k];
        assert(is_first_occurrence(all, unique[u]));
    }
    assert forall|j: int| #[trigger]
        is_first_of_identity(all, j) && !is_excluded(all[j], exclusions) implies index.contains(
        all[j],
    ) by {
        assert(unique.contains(all[j]));
        let u = choose|u: int| 0 <= u < unique.len() && unique[u] == all[j];
        assert(sorted.contains(unique[u]));
        let k = choose|k: int| 0 <= k < sorted.len() && sorted[k] == unique[u];
        assert(!is_excluded(sorted[k], exclusions));
    }
}

} // verus!
