//! What holds of the caches and of a session: proofs over the models that
//! `SearchCache`, `RecentList` and `AppState` are specified by.

use crate::models::ApplicationView;
use crate::state::{
    after_refresh, answer, cache_lookup, cache_promote, cache_store, distinct_keys,
    distinct_results, first_with_identity, fresh_answer, lemma_cache_steps,
    lemma_first_with_identity, without_identity,
    lemma_recent_insert, lemma_slot_at, lemma_slot_of, recent_insert, refresh_changes, slot_of,
    CachedView, RecentView, SlotView, StateView,
};
use crate::text::trim;
use vstd::prelude::*;

verus! {

/// Once a rebuilt application index that differs from the current one has
/// replaced it, no query is answered from the cache: every query that is not
/// empty is answered by a search over the rebuilt index.
pub proof fn theorem_refresh_invalidates_cache(
    state: StateView,
    refreshed: Seq<ApplicationView>,
    input: Seq<char>,
)
    requires
        refresh_changes(state, refreshed),
        trim(input).len() > 0,
    ensures
        after_refresh(state, refreshed).apps == refreshed,
        after_refresh(state, refreshed).cache.len() == 0,
        answer(after_refresh(state, refreshed), input) == fresh_answer(
            after_refresh(state, refreshed),
            trim(input),
        ),
{
}

/// Storing a new key in a full cache drops exactly the least recently used
/// slot: the other slots stay, in their order, and the new slot follows them.
pub proof fn theorem_full_cache_evicts_least_recent(
    cache: Seq<SlotView>,
    key: Seq<char>,
    value: CachedView,
    capacity: nat,
)
    requires
        distinct_keys(cache),
        capacity >= 1,
        cache.len() == capacity,
        cache_lookup(cache, key) is None,
    ensures
        cache_store(cache, key, value, capacity) == cache.drop_first().push(SlotView { key, value }),
        cache_lookup(cache_store(cache, key, value, capacity), cache[0].key) is None,
        forall|i: int|
            1 <= i < cache.len() ==> cache_lookup(
                cache_store(cache, key, value, capacity),
                (#[trigger] cache[i]).key,
            ) == Some(cache[i].value),
        cache_lookup(cache_store(cache, key, value, capacity), key) == Some(value),
{
    let slot = SlotView { key, value };
    let stored = cache_store(cache, key, value, capacity);
    lemma_slot_of(cache, key);
    lemma_cache_steps(cache, key, value, capacity);
    assert(stored =~= cache.drop_first().push(slot));
    lemma_slot_of(stored, cache[0].key);
    let gone = slot_of(stored, cache[0].key) as int;
    if gone < stored.len() {
        if gone < stored.len() - 1 {
            assert(stored[gone] == cache[gone + 1]);
            assert(cache[0].key != cache[gone + 1].key);
        } else {
            assert(cache[0].key != key);
        }
    }
    assert forall|i: int| 1 <= i < cache.len() implies cache_lookup(
        stored,
        (#[trigger] cache[i]).key,
    ) == Some(cache[i].value) by {
        lemma_slot_at(stored, cache[i].key);
        assert(stored[i - 1] == cache[i]);
    }
}

/// The cache after each of the slots was stored, in order.
pub open spec fn store_all(cache: Seq<SlotView>, items: Seq<SlotView>, capacity: nat) -> Seq<
    SlotView,
>
    decreases items.len(),
{
    if items.len() == 0 {
        cache
    } else {
        cache_store(
            store_all(cache, items.drop_last(), capacity),
            items.last().key,
            items.last().value,
            capacity,
        )
    }
}

/// Storing result sets under distinct keys in an empty cache keeps them all,
/// in order, while they are no more than the capacity.
pub proof fn lemma_store_all_fits(items: Seq<SlotView>, capacity: nat)
    requires
        distinct_keys(items),
        items.len() <= capacity,
        capacity >= 1,
    ensures
        store_all(Seq::empty(), items, capacity) == items,
    decreases items.len(),
{
    if items.len() > 0 {
        let before = items.drop_last();
        assert forall|a: int, b: int| 0 <= a < b < before.len() implies (#[trigger] before[a]).key
            != (#[trigger] before[b]).key by {
            assert(before[a] == items[a] && before[b] == items[b]);
        }
        lemma_store_all_fits(before, capacity);
        assert forall|i: int| 0 <= i < before.len() implies (#[trigger] before[i]).key
            != items.last().key by {
            assert(before[i] == items[i]);
            assert(items[i].key != items[items.len() - 1].key);
        }
        lemma_slot_at(before, items.last().key);
        assert(before.push(items.last()) =~= items);
    } else {
        assert(store_all(Seq::empty(), items, capacity) =~= items);
    }
}

/// Storing one more result set than the cache holds, all under distinct keys,
/// drops exactly the first one stored: the others are cached, in the order in
/// which they were stored.
pub proof fn theorem_one_too_many_evicts_the_first(items: Seq<SlotView>, capacity: nat)
    requires
        distinct_keys(items),
        capacity >= 1,
        items.len() == capacity + 1,
    ensures
        store_all(Seq::empty(), items, capacity) == items.skip(1),
        cache_lookup(store_all(Seq::empty(), items, capacity), items[0].key) is None,
        forall|i: int|
            1 <= i < items.len() ==> cache_lookup(
                store_all(Seq::empty(), items, capacity),
                (#[trigger] items[i]).key,
            ) == Some(items[i].value),
{
    let before = items.drop_last();
    let last = items.last();
    assert forall|a: int, b: int| 0 <= a < b < before.len() implies (#[trigger] before[a]).key != (
    #[trigger] before[b]).key by {
        assert(before[a] == items[a] && before[b] == items[b]);
    }
    lemma_store_all_fits(before, capacity);
    assert forall|i: int| 0 <= i < before.len() implies (#[trigger] before[i]).key != last.key by {
        assert(before[i] == items[i]);
        assert(items[i].key != items[items.len() - 1].key);
    }
    lemma_slot_at(before, last.key);
    theorem_full_cache_evicts_least_recent(before, last.key, last.value, capacity);
    let stored = store_all(Seq::empty(), items, capacity);
    assert(stored =~= items.skip(1));
    assert(before[0] == items[0]);
    assert forall|i: int| 1 <= i < items.len() implies cache_lookup(
        stored,
        (#[trigger] items[i]).key,
    ) == Some(items[i].value) by {
        if i < before.len() {
            assert(before[i] == items[i]);
        }
    }
}

/// Whether, in the cache, the key `newer` was used more recently than the key
/// `older`, as far as `older` is still cached: then `newer` is cached too, and
/// stands nearer the most recently used end.
pub open spec fn outlives(cache: Seq<SlotView>, older: Seq<char>, newer: Seq<char>) -> bool {
    slot_of(cache, older) < cache.len() ==> slot_of(cache, newer) < cache.len() && slot_of(
        cache,
        older,
    ) < slot_of(cache, newer)
}

/// Storing under a third key does not let a key be dropped before a less
/// recently used one.
pub proof fn lemma_store_keeps_recency(
    cache: Seq<SlotView>,
    key: Seq<char>,
    value: CachedView,
    capacity: nat,
    older: Seq<char>,
    newer: Seq<char>,
)
    requires
        distinct_keys(cache),
        cache.len() <= capacity,
        capacity >= 1,
        key != older,
        key != newer,
        older != newer,
        outlives(cache, older, newer),
    ensures
        outlives(cache_store(cache, key, value, capacity), older, newer),
{
    let stored = cache_store(cache, key, value, capacity);
    let slot = SlotView { key, value };
    lemma_cache_steps(cache, key, value, capacity);
    lemma_slot_of(cache, key);
    lemma_slot_of(stored, older);
    lemma_slot_at(cache, older);
    lemma_slot_at(cache, newer);
    lemma_slot_at(stored, newer);
    lemma_slot_of(cache, newer);
    let at = slot_of(cache, key) as int;
    let place = slot_of(stored, older) as int;
    if place < stored.len() {
        if at < cache.len() {
            assert(stored == cache.remove(at).push(slot));
            assert(place < stored.len() - 1);
            let from = if place < at { place } else { place + 1 };
            assert(stored[place] == cache[from]);
            assert(slot_of(cache, older) == from);
            let newer_from = slot_of(cache, newer) as int;
            assert(newer_from != at);
            let newer_place = if newer_from < at { newer_from } else { newer_from - 1 };
            assert(stored[newer_place] == cache[newer_from]);
            assert(slot_of(stored, newer) == newer_place);
        } else {
            let grown = cache.push(slot);
            let cut = grown.len() - stored.len();
            assert(stored[place] == grown[place + cut]);
            assert(place + cut < cache.len());
            assert(cache[place + cut] == grown[place + cut]);
            assert(slot_of(cache, older) == place + cut);
            let newer_from = slot_of(cache, newer) as int;
            assert(stored[newer_from - cut] == grown[newer_from]);
            assert(grown[newer_from] == cache[newer_from]);
            assert(slot_of(stored, newer) == newer_from - cut);
        }
    }
}

/// A result set that was just asked for is not dropped before one that was
/// not touched since: after a hit on `key` and two stores under other keys,
/// any untouched key `other` that is still cached finds `key` cached too.
pub proof fn theorem_recently_used_outlives_older(
    cache: Seq<SlotView>,
    key: Seq<char>,
    other: Seq<char>,
    first_key: Seq<char>,
    first_value: CachedView,
    second_key: Seq<char>,
    second_value: CachedView,
    capacity: nat,
)
    requires
        distinct_keys(cache),
        cache.len() <= capacity,
        capacity >= 1,
        cache_lookup(cache, key) is Some,
        other != key,
        first_key != key,
        first_key != other,
        second_key != key,
        second_key != other,
    ensures
        ({
            let touched = cache_promote(cache, key);
            let once = cache_store(touched, first_key, first_value, capacity);
            let twice = cache_store(once, second_key, second_value, capacity);
            cache_lookup(twice, other) is Some ==> cache_lookup(twice, key) is Some
        }),
{
    let touched = cache_promote(cache, key);
    let once = cache_store(touched, first_key, first_value, capacity);
    let twice = cache_store(once, second_key, second_value, capacity);
    lemma_cache_steps(cache, key, first_value, capacity);
    lemma_slot_of(cache, key);
    lemma_slot_at(touched, key);
    assert(touched[touched.len() - 1].key == key);
    lemma_slot_of(touched, other);
    assert(outlives(touched, other, key));
    lemma_store_keeps_recency(touched, first_key, first_value, capacity, other, key);
    lemma_cache_steps(touched, first_key, first_value, capacity);
    lemma_store_keeps_recency(once, second_key, second_value, capacity, other, key);
}

/// Executing a result again moves it to the front instead of listing it
/// twice: after `first`, `second` and then `again`, which has the identity of
/// `first`, the list begins with `again` and `second`, and no later entry has
/// that identity. On an empty list the outcome is exactly those two.
pub proof fn theorem_reinsert_moves_to_front(
    list: Seq<RecentView>,
    first: RecentView,
    second: RecentView,
    again: RecentView,
    capacity: nat,
)
    requires
        distinct_results(list),
        capacity >= 2,
        again.result.id == first.result.id,
        second.result.id != first.result.id,
    ensures
        ({
            let after = recent_insert(
                recent_insert(recent_insert(list, first, capacity), second, capacity),
                again,
                capacity,
            );
            &&& after.len() >= 2
            &&& after.len() <= capacity
            &&& after[0] == again
            &&& after[1] == second
            &&& distinct_results(after)
            &&& list.len() == 0 ==> after == seq![again, second]
        }),
{
    let one = recent_insert(list, first, capacity);
    let two = recent_insert(one, second, capacity);
    let three = recent_insert(two, again, capacity);
    lemma_recent_insert(list, first, capacity);
    lemma_recent_insert(one, second, capacity);
    lemma_recent_insert(two, again, capacity);
    lemma_first_with_identity(one, second.result.id);
    lemma_first_with_identity(two, again.result.id);
    // `first` stands in front of `one`, so it is what follows `second` in `two`.
    let found_in_one = first_with_identity(one, second.result.id) as int;
    assert(found_in_one != 0);
    let rest_one = without_identity(one, second.result.id);
    assert(rest_one[0] == one[0]);
    let grown_two = seq![second] + rest_one;
    assert(grown_two[1] == first);
    assert(two[0] == second && two[1] == first);
    let found_in_two = first_with_identity(two, again.result.id) as int;
    assert(found_in_two == 1) by {
        if found_in_two > 1 {
            assert(two[1].result.id != again.result.id);
        }
    }
    let rest_two = without_identity(two, again.result.id);
    assert(rest_two[0] == second);
    let grown_three = seq![again] + rest_two;
    assert(grown_three[1] == second);
    if list.len() == 0 {
        assert(without_identity(list, first.result.id) =~= list);
        assert(one =~= seq![first]);
        assert(rest_one =~= seq![first]);
        assert(two =~= seq![second, first]);
        assert(rest_two =~= seq![second]);
        assert(three =~= seq![again, second]);
    }
}

} // verus!
