//! Pending actions, the action map of a result set, and the bounded caches.

use crate::bookmarks::{bookmark_views, BookmarkEntry, BookmarkView};
use crate::config::{AppConfig, ConfigView};
use crate::models::{
    app_views, clone_results, result_views, same_apps, ApplicationInfo, ApplicationView,
    ResultView, SearchResult,
};
use crate::search_core::{search_in_mode, search_outcome, searchable_inputs, QueryMode};
use crate::text::{
    chars_of, concat_str, decimal, decimal_chars, lemma_trim_len, string_of, trim, trimmed,
};
use std::collections::VecDeque;
use vstd::hash_map::StringHashMap;
use vstd::prelude::*;

verus! {

/// What choosing a result would do.
#[derive(Debug, PartialEq, Eq)]
pub enum PendingAction {
    /// Start an application.
    Application(ApplicationInfo),
    /// Open a bookmark.
    Bookmark(BookmarkEntry),
    /// Open an address typed as the query.
    Url(String),
    /// Open a web search for the query.
    Search(String),
}

/// What a `PendingAction` holds, as plain values.
pub enum ActionView {
    Application(ApplicationView),
    Bookmark(BookmarkView),
    Url(Seq<char>),
    Search(Seq<char>),
}

impl View for PendingAction {
    type V = ActionView;

    open spec fn view(&self) -> ActionView {
        match self {
            PendingAction::Application(app) => ActionView::Application(app@),
            PendingAction::Bookmark(entry) => ActionView::Bookmark(entry@),
            PendingAction::Url(url) => ActionView::Url(url@),
            PendingAction::Search(url) => ActionView::Search(url@),
        }
    }
}

impl Clone for PendingAction {
    fn clone(&self) -> (r: Self)
        ensures
            r@ == self@,
    {
        match self {
            PendingAction::Application(app) => PendingAction::Application(app.clone()),
            PendingAction::Bookmark(entry) => PendingAction::Bookmark(entry.clone()),
            PendingAction::Url(url) => PendingAction::Url(url.clone()),
            PendingAction::Search(url) => PendingAction::Search(url.clone()),
        }
    }
}

/// Whether `keys` names every key of `map`, and nothing else.
spec fn listed(keys: Seq<String>, map: Map<Seq<char>, PendingAction>) -> bool {
    &&& forall|i: int| 0 <= i < keys.len() ==> map.contains_key((#[trigger] keys[i])@)
    &&& forall|k: Seq<char>|
        map.contains_key(k) ==> exists|i: int| 0 <= i < keys.len() && (#[trigger] keys[i])@ == k
}

/// The actions of a result set, found by result identity.
pub struct ActionMap {
    keys: Vec<String>,
    map: StringHashMap<PendingAction>,
}

impl View for ActionMap {
    type V = Map<Seq<char>, ActionView>;

    closed spec fn view(&self) -> Map<Seq<char>, ActionView> {
        Map::new(|k: Seq<char>| self.map@.contains_key(k), |k: Seq<char>| self.map@[k]@)
    }
}

impl ActionMap {
    #[verifier::type_invariant]
    spec fn inv(self) -> bool {
        listed(self.keys@, self.map@)
    }

    /// The map without any action.
    pub fn new() -> (r: Self)
        ensures
            r@ == Map::<Seq<char>, ActionView>::empty(),
    {
        let r = ActionMap { keys: Vec::new(), map: StringHashMap::new() };
        assert(r@ =~= Map::<Seq<char>, ActionView>::empty());
        r
    }

    /// Binds `action` to `key`, in place of any action bound to it before.
    pub fn insert(&mut self, key: String, action: PendingAction)
        ensures
            final(self)@ == old(self)@.insert(key@, action@),
    {
        proof {
            use_type_invariant(&*self);
        }
        let mut taken = ActionMap::new();
        std::mem::swap(&mut taken, self);
        proof {
            use_type_invariant(&taken);
        }
        let ActionMap { keys, map } = taken;
        let mut keys = keys;
        let mut map = map;
        let ghost before = map@;
        let ghost keys_before = keys@;
        if !map.contains_key(key.as_str()) {
            keys.push(key.clone());
        }
        map.insert(key, action);
        proof {
            assert forall|k: Seq<char>| map@.contains_key(k) implies exists|i: int|
                0 <= i < keys.len() && (#[trigger] keys@[i])@ == k by {
                if k == key@ {
                    if before.contains_key(key@) {
                        let i = choose|i: int|
                            0 <= i < keys_before.len() && (#[trigger] keys_before[i])@ == k;
                        assert(keys@[i]@ == k);
                    } else {
                        assert(keys@[keys_before.len() as int]@ == k);
                    }
                } else {
                    assert(before.contains_key(k));
                    let i = choose|i: int|
                        0 <= i < keys_before.len() && (#[trigger] keys_before[i])@ == k;
                    assert(keys@[i]@ == k);
                }
            }
            assert forall|i: int| 0 <= i < keys.len() implies map@.contains_key(
                (#[trigger] keys@[i])@,
            ) by {
                if i < keys_before.len() {
                    assert(before.contains_key(keys_before[i]@));
                }
            }
        }
        assert(listed(keys@, map@));
        *self = ActionMap { keys, map };
        proof {
            assert(self@ =~= old(self)@.insert(key@, action@));
        }
    }

    /// The action bound to `key`, if there is one.
    pub fn get(&self, key: &str) -> (r: Option<&PendingAction>)
        ensures
            match r {
                Some(action) => self@.contains_key(key@) && action@ == self@[key@],
                None => !self@.contains_key(key@),
            },
    {
        self.map.get(key)
    }

    /// Whether an action is bound to `key`.
    pub fn contains_key(&self, key: &str) -> (r: bool)
        ensures
            r == self@.contains_key(key@),
    {
        self.map.contains_key(key)
    }

    /// The number of bound actions.
    pub fn len(&self) -> (r: usize)
        ensures
            r == self@.dom().len(),
    {
        let r = self.map.len();
        proof {
            assert(self@.dom() =~= self.map@.dom());
        }
        r
    }

    /// Whether no action is bound.
    pub fn is_empty(&self) -> (r: bool)
        ensures
            r == (self@ == Map::<Seq<char>, ActionView>::empty()),
    {
        let r = self.map.is_empty();
        proof {
            if r {
                assert(self@ =~= Map::<Seq<char>, ActionView>::empty());
            } else {
                assert(self@.dom() =~= self.map@.dom());
            }
        }
        r
    }
}

impl Clone for ActionMap {
    fn clone(&self) -> (r: Self)
        ensures
            r@ == self@,
    {
        proof {
            use_type_invariant(self);
        }
        let mut r = ActionMap::new();
        let mut i: usize = 0;
        while i < self.keys.len()
            invariant
                i <= self.keys.len(),
                forall|j: int|
                    0 <= j < self.keys.len() ==> self.map@.contains_key((#[trigger] self.keys@[j])@),
                forall|k: Seq<char>| #[trigger]
                    r@.contains_key(k) ==> self@.contains_key(k) && r@[k] == self@[k],
                forall|j: int| 0 <= j < i ==> r@.contains_key((#[trigger] self.keys@[j])@),
            decreases self.keys.len() - i,
        {
            let key = &self.keys[i];
            match self.map.get(key.as_str()) {
                Some(action) => {
                    assert(self@.contains_key(key@) && self@[key@] == action@);
                    let ghost earlier = r@;
                    r.insert(key.clone(), action.clone());
                    assert(r@ == earlier.insert(key@, action@));
                },
                None => {},
            }
            i += 1;
        }
        proof {
            assert forall|k: Seq<char>| self@.contains_key(k) implies r@.contains_key(k) by {
                assert(self.map@.contains_key(k));
                let j = choose|j: int| 0 <= j < self.keys.len() && (#[trigger] self.keys@[j])@ == k;
                assert(r@.contains_key(self.keys@[j]@));
            }
            assert(r@ =~= self@);
        }
        r
    }
}

/// A result set as the cache holds it: the ordered results and their actions.
pub struct CachedSearch {
    pub results: Vec<SearchResult>,
    pub pending_actions: ActionMap,
}

/// What a `CachedSearch` holds, as plain values.
pub struct CachedView {
    pub results: Seq<ResultView>,
    pub actions: Map<Seq<char>, ActionView>,
}

impl View for CachedSearch {
    type V = CachedView;

    open spec fn view(&self) -> CachedView {
        CachedView { results: result_views(self.results@), actions: self.pending_actions@ }
    }
}

impl Clone for CachedSearch {
    fn clone(&self) -> (r: Self)
        ensures
            r@ == self@,
    {
        CachedSearch {
            results: clone_results(&self.results),
            pending_actions: self.pending_actions.clone(),
        }
    }
}

/// An executed result with its action.
#[derive(Debug, PartialEq, Eq)]
pub struct RecentEntry {
    pub result: SearchResult,
    pub action: PendingAction,
}

/// What a `RecentEntry` holds, as plain values.
pub struct RecentView {
    pub result: ResultView,
    pub action: ActionView,
}

impl View for RecentEntry {
    type V = RecentView;

    open spec fn view(&self) -> RecentView {
        RecentView { result: self.result@, action: self.action@ }
    }
}

impl Clone for RecentEntry {
    fn clone(&self) -> (r: Self)
        ensures
            r@ == self@,
    {
        RecentEntry { result: self.result.clone(), action: self.action.clone() }
    }
}

/// The views of a sequence of recent entries.
pub open spec fn recent_views(entries: Seq<RecentEntry>) -> Seq<RecentView> {
    Seq::new(entries.len(), |i: int| entries[i]@)
}

/// Position of the first entry whose result has the identity `id`, or the
/// length of the list where there is none.
pub open spec fn first_with_identity(list: Seq<RecentView>, id: Seq<char>) -> nat
    decreases list.len(),
{
    if list.len() > 0 && list[0].result.id != id {
        1 + first_with_identity(list.drop_first(), id)
    } else {
        0
    }
}

/// The list without the first entry whose result has the identity `id`.
pub open spec fn without_identity(list: Seq<RecentView>, id: Seq<char>) -> Seq<RecentView> {
    let at = first_with_identity(list, id) as int;
    if at < list.len() {
        list.remove(at)
    } else {
        list
    }
}

/// The list after `entry` was executed: the entry in front, any earlier entry
/// of the same identity gone, and the whole cut to `capacity` entries.
pub open spec fn recent_insert(list: Seq<RecentView>, entry: RecentView, capacity: nat) -> Seq<
    RecentView,
> {
    let grown = seq![entry] + without_identity(list, entry.result.id);
    if grown.len() > capacity {
        grown.take(capacity as int)
    } else {
        grown
    }
}

/// Whether no two entries of the list have results of the same identity.
pub open spec fn distinct_results(list: Seq<RecentView>) -> bool {
    forall|a: int, b: int|
        0 <= a < b < list.len() ==> (#[trigger] list[a]).result.id != (#[trigger] list[b]).result.id
}

/// What `first_with_identity` finds.
pub proof fn lemma_first_with_identity(list: Seq<RecentView>, id: Seq<char>)
    ensures
        first_with_identity(list, id) <= list.len(),
        first_with_identity(list, id) < list.len() ==> list[first_with_identity(
            list,
            id,
        ) as int].result.id == id,
        forall|j: int| 0 <= j < first_with_identity(list, id) ==> (#[trigger] list[j]).result.id != id,
    decreases list.len(),
{
    if list.len() > 0 && list[0].result.id != id {
        let rest = list.drop_first();
        lemma_first_with_identity(rest, id);
        assert forall|j: int| 0 <= j < first_with_identity(list, id) implies (
        #[trigger] list[j]).result.id != id by {
            if j > 0 {
                assert(list[j] == rest[j - 1]);
            }
        }
        if first_with_identity(rest, id) < rest.len() {
            assert(list[first_with_identity(list, id) as int] == rest[first_with_identity(
                rest,
                id,
            ) as int]);
        }
    }
}

/// Executing an entry keeps a list of distinct identities distinct and within
/// its capacity, and puts the entry in front.
pub proof fn lemma_recent_insert(list: Seq<RecentView>, entry: RecentView, capacity: nat)
    requires
        distinct_results(list),
        capacity >= 1,
    ensures
        distinct_results(recent_insert(list, entry, capacity)),
        recent_insert(list, entry, capacity).len() <= capacity,
        recent_insert(list, entry, capacity).len() >= 1,
        recent_insert(list, entry, capacity)[0] == entry,
{
    let id = entry.result.id;
    lemma_first_with_identity(list, id);
    let at = first_with_identity(list, id) as int;
    let rest = without_identity(list, id);
    let grown = seq![entry] + rest;
    assert forall|j: int| 0 <= j < rest.len() implies (#[trigger] rest[j]).result.id != id by {
        if at < list.len() {
            if j < at {
                assert(rest[j] == list[j]);
            } else {
                assert(rest[j] == list[j + 1]);
                assert(list[at].result.id != list[j + 1].result.id);
            }
        }
    }
    assert forall|a: int, b: int| 0 <= a < b < rest.len() implies (#[trigger] rest[a]).result.id
        != (#[trigger] rest[b]).result.id by {
        if at < list.len() {
            let la = if a < at { a } else { a + 1 };
            let lb = if b < at { b } else { b + 1 };
            assert(rest[a] == list[la] && rest[b] == list[lb]);
        }
    }
    assert forall|a: int, b: int| 0 <= a < b < grown.len() implies (#[trigger] grown[a]).result.id
        != (#[trigger] grown[b]).result.id by {
        if a == 0 {
            assert(grown[b] == rest[b - 1]);
        } else {
            assert(grown[a] == rest[a - 1] && grown[b] == rest[b - 1]);
        }
    }
    let after = recent_insert(list, entry, capacity);
    assert forall|a: int, b: int| 0 <= a < b < after.len() implies (#[trigger] after[a]).result.id
        != (#[trigger] after[b]).result.id by {
        assert(after[a] == grown[a] && after[b] == grown[b]);
    }
}

/// The most recently executed results, newest first.
pub struct RecentList {
    capacity: usize,
    entries: VecDeque<RecentEntry>,
}

impl View for RecentList {
    type V = Seq<RecentView>;

    closed spec fn view(&self) -> Seq<RecentView> {
        recent_views(self.entries@)
    }
}

impl RecentList {
    #[verifier::type_invariant]
    spec fn inv(self) -> bool {
        &&& self.capacity >= 1
        &&& self.entries@.len() <= self.capacity
        &&& distinct_results(recent_views(self.entries@))
    }

    /// The most entries that the list holds.
    pub closed spec fn limit(&self) -> nat {
        self.capacity as nat
    }

    /// An empty list that holds up to `capacity` entries, and at least one.
    pub fn new(capacity: usize) -> (r: Self)
        ensures
            r@ == Seq::<RecentView>::empty(),
            r.limit() == if capacity >= 1 {
                capacity as nat
            } else {
                1nat
            },
    {
        let r = RecentList {
            capacity: if capacity >= 1 {
                capacity
            } else {
                1
            },
            entries: VecDeque::new(),
        };
        assert(recent_views(r.entries@) =~= Seq::<RecentView>::empty());
        r
    }

    /// The most entries that the list holds.
    pub fn capacity(&self) -> (r: usize)
        ensures
            r == self.limit(),
            r >= 1,
    {
        proof {
            use_type_invariant(self);
        }
        self.capacity
    }

    /// Puts `entry` in front, removes any earlier entry of the same result
    /// identity, and drops entries from the back beyond the capacity.
    pub fn insert(&mut self, entry: RecentEntry)
        ensures
            final(self)@ == recent_insert(old(self)@, entry@, old(self).limit()),
            final(self).limit() == old(self).limit(),
    {
        proof {
            use_type_invariant(&*self);
        }
        let mut taken = RecentList::new(1);
        std::mem::swap(&mut taken, self);
        proof {
            use_type_invariant(&taken);
        }
        let RecentList { capacity, entries } = taken;
        let mut entries = entries;
        let ghost list = recent_views(entries@);
        let ghost id = entry@.result.id;
        proof {
            lemma_first_with_identity(list, id);
            lemma_recent_insert(list, entry@, capacity as nat);
        }
        let mut at: usize = 0;
        assert(list.skip(0) =~= list);
        while at < entries.len() && !(entries[at].result.id == entry.result.id)
            invariant
                at <= entries.len(),
                list == recent_views(entries@),
                id == entry@.result.id,
                first_with_identity(list, id) == at + first_with_identity(list.skip(at as int), id),
            decreases entries.len() - at,
        {
            proof {
                assert(list.skip(at as int)[0] == entries@[at as int]@);
                assert(list.skip(at as int).drop_first() =~= list.skip(at + 1));
            }
            at += 1;
        }
        proof {
            if at < entries.len() {
                assert(list.skip(at as int)[0] == entries@[at as int]@);
            }
            assert(first_with_identity(list, id) == at);
        }
        if at < entries.len() {
            entries.remove(at);
        }
        assert(recent_views(entries@) =~= without_identity(list, id));
        entries.push_front(entry);
        let ghost grown = seq![entry@] + without_identity(list, id);
        assert(recent_views(entries@) =~= grown);
        while entries.len() > capacity
            invariant
                capacity >= 1,
                entries@.len() <= grown.len(),
                entries@.len() >= capacity || entries@.len() == grown.len(),
                recent_views(entries@) == grown.take(entries@.len() as int),
            decreases entries.len(),
        {
            let ghost before = entries@;
            entries.pop_back();
            assert(recent_views(entries@) =~= grown.take(entries@.len() as int));
        }
        proof {
            assert(grown.take(grown.len() as int) =~= grown);
            assert(recent_views(entries@) == recent_insert(list, entry@, capacity as nat));
        }
        *self = RecentList { capacity, entries };
    }

    /// The entries, most recent first.
    pub fn items(&self) -> (r: &VecDeque<RecentEntry>)
        ensures
            recent_views(r@) == self@,
            r@.len() <= self.limit(),
            distinct_results(self@),
    {
        proof {
            use_type_invariant(self);
        }
        &self.entries
    }

    /// The number of entries.
    pub fn len(&self) -> (r: usize)
        ensures
            r == self@.len(),
            r <= self.limit(),
    {
        proof {
            use_type_invariant(self);
        }
        self.entries.len()
    }
}

/// One cached result set with its key.
struct CacheSlot {
    key: String,
    value: CachedSearch,
}

/// What a cache slot holds, as plain values.
pub struct SlotView {
    pub key: Seq<char>,
    pub value: CachedView,
}

/// The views of a sequence of slots.
spec fn slot_views(slots: Seq<CacheSlot>) -> Seq<SlotView> {
    Seq::new(slots.len(), |i: int| SlotView { key: slots[i].key@, value: slots[i].value@ })
}

/// Position of the slot with the key `key`, or the number of slots where no
/// slot has it.
pub open spec fn slot_of(cache: Seq<SlotView>, key: Seq<char>) -> nat
    decreases cache.len(),
{
    if cache.len() > 0 && cache[0].key != key {
        1 + slot_of(cache.drop_first(), key)
    } else {
        0
    }
}

/// Whether no two slots have the same key.
pub open spec fn distinct_keys(cache: Seq<SlotView>) -> bool {
    forall|a: int, b: int|
        0 <= a < b < cache.len() ==> (#[trigger] cache[a]).key != (#[trigger] cache[b]).key
}

/// The value cached under `key`, if there is one.
pub open spec fn cache_lookup(cache: Seq<SlotView>, key: Seq<char>) -> Option<CachedView> {
    let at = slot_of(cache, key) as int;
    if at < cache.len() {
        Some(cache[at].value)
    } else {
        None
    }
}

/// The cache after `key` was asked for: its slot, if there is one, has moved
/// to the most recently used end; the other slots keep their order.
pub open spec fn cache_promote(cache: Seq<SlotView>, key: Seq<char>) -> Seq<SlotView> {
    let at = slot_of(cache, key) as int;
    if at < cache.len() {
        cache.remove(at).push(cache[at])
    } else {
        cache
    }
}

/// The cache after `value` was stored under `key`: a slot that had the key is
/// replaced and moved to the most recently used end; else a new slot is added
/// at that end and the least recently used slots beyond `capacity` are dropped.
pub open spec fn cache_store(
    cache: Seq<SlotView>,
    key: Seq<char>,
    value: CachedView,
    capacity: nat,
) -> Seq<SlotView> {
    let at = slot_of(cache, key) as int;
    if at < cache.len() {
        cache.remove(at).push(SlotView { key, value })
    } else {
        let grown = cache.push(SlotView { key, value });
        if grown.len() > capacity {
            grown.skip(grown.len() - capacity)
        } else {
            grown
        }
    }
}

/// What `slot_of` finds.
pub proof fn lemma_slot_of(cache: Seq<SlotView>, key: Seq<char>)
    ensures
        slot_of(cache, key) <= cache.len(),
        slot_of(cache, key) < cache.len() ==> cache[slot_of(cache, key) as int].key == key,
        forall|j: int| 0 <= j < slot_of(cache, key) ==> (#[trigger] cache[j]).key != key,
    decreases cache.len(),
{
    if cache.len() > 0 && cache[0].key != key {
        let rest = cache.drop_first();
        lemma_slot_of(rest, key);
        assert forall|j: int| 0 <= j < slot_of(cache, key) implies (#[trigger] cache[j]).key
            != key by {
            if j > 0 {
                assert(cache[j] == rest[j - 1]);
            }
        }
        if slot_of(rest, key) < rest.len() {
            assert(cache[slot_of(cache, key) as int] == rest[slot_of(rest, key) as int]);
        }
    }
}

/// Where the keys are distinct, the slot with a key is where that key stands;
/// and a key that stands nowhere has no slot.
pub proof fn lemma_slot_at(cache: Seq<SlotView>, key: Seq<char>)
    requires
        distinct_keys(cache),
    ensures
        forall|i: int|
            0 <= i < cache.len() && (#[trigger] cache[i]).key == key ==> slot_of(cache, key) == i,
        (forall|i: int| 0 <= i < cache.len() ==> (#[trigger] cache[i]).key != key) ==> slot_of(
            cache,
            key,
        ) == cache.len(),
{
    lemma_slot_of(cache, key);
    assert forall|i: int| 0 <= i < cache.len() && (#[trigger] cache[i]).key == key implies slot_of(
        cache,
        key,
    ) == i by {
        let at = slot_of(cache, key) as int;
        if at < i {
            assert(cache[at].key != cache[i].key);
        }
    }
}

/// Asking for a key and storing a value keep the keys distinct and the cache
/// within its capacity.
pub proof fn lemma_cache_steps(
    cache: Seq<SlotView>,
    key: Seq<char>,
    value: CachedView,
    capacity: nat,
)
    requires
        distinct_keys(cache),
        cache.len() <= capacity,
        capacity >= 1,
    ensures
        distinct_keys(cache_promote(cache, key)),
        cache_promote(cache, key).len() == cache.len(),
        distinct_keys(cache_store(cache, key, value, capacity)),
        cache_store(cache, key, value, capacity).len() <= capacity,
        cache_lookup(cache_store(cache, key, value, capacity), key) == Some(value),
        cache_lookup(cache, key) is Some ==> cache_lookup(cache_promote(cache, key), key)
            == cache_lookup(cache, key),
{
    lemma_slot_of(cache, key);
    let at = slot_of(cache, key) as int;
    let slot = SlotView { key, value };
    if at < cache.len() {
        let rest = cache.remove(at);
        assert forall|j: int| 0 <= j < rest.len() implies (#[trigger] rest[j]).key != key by {
            if j < at {
                assert(rest[j] == cache[j]);
            } else {
                assert(rest[j] == cache[j + 1]);
                assert(cache[at].key != cache[j + 1].key);
            }
        }
        assert forall|a: int, b: int| 0 <= a < b < rest.len() implies (#[trigger] rest[a]).key != (
        #[trigger] rest[b]).key by {
            let la = if a < at { a } else { a + 1 };
            let lb = if b < at { b } else { b + 1 };
            assert(rest[a] == cache[la] && rest[b] == cache[lb]);
        }
        let promoted = rest.push(cache[at]);
        assert forall|a: int, b: int| 0 <= a < b < promoted.len() implies (
        #[trigger] promoted[a]).key != (#[trigger] promoted[b]).key by {
            if b == promoted.len() - 1 {
                assert(promoted[a] == rest[a]);
            } else {
                assert(promoted[a] == rest[a] && promoted[b] == rest[b]);
            }
        }
        let stored = rest.push(slot);
        assert forall|a: int, b: int| 0 <= a < b < stored.len() implies (#[trigger] stored[a]).key
            != (#[trigger] stored[b]).key by {
            if b == stored.len() - 1 {
                assert(stored[a] == rest[a]);
            } else {
                assert(stored[a] == rest[a] && stored[b] == rest[b]);
            }
        }
        lemma_slot_at(promoted, key);
        assert(promoted[promoted.len() - 1].key == key);
        lemma_slot_at(stored, key);
        assert(stored[stored.len() - 1].key == key);
    } else {
        let grown = cache.push(slot);
        assert forall|a: int, b: int| 0 <= a < b < grown.len() implies (#[trigger] grown[a]).key
            != (#[trigger] grown[b]).key by {
            if b == grown.len() - 1 {
                assert(grown[a] == cache[a]);
            } else {
                assert(grown[a] == cache[a] && grown[b] == cache[b]);
            }
        }
        let stored = cache_store(cache, key, value, capacity);
        let cut = grown.len() - stored.len();
        assert forall|a: int, b: int| 0 <= a < b < stored.len() implies (#[trigger] stored[a]).key
            != (#[trigger] stored[b]).key by {
            assert(stored[a] == grown[a + cut] && stored[b] == grown[b + cut]);
        }
        lemma_slot_at(stored, key);
        assert(stored[stored.len() - 1] == slot);
    }
}

/// A bounded cache of result sets by key; when it is full, the least recently
/// used result set makes room.
pub struct SearchCache {
    capacity: usize,
    slots: VecDeque<CacheSlot>,
}

impl View for SearchCache {
    type V = Seq<SlotView>;

    closed spec fn view(&self) -> Seq<SlotView> {
        slot_views(self.slots@)
    }
}

impl SearchCache {
    #[verifier::type_invariant]
    spec fn inv(self) -> bool {
        &&& self.capacity >= 1
        &&& self.slots@.len() <= self.capacity
        &&& distinct_keys(slot_views(self.slots@))
    }

    /// The most result sets that the cache holds.
    pub closed spec fn limit(&self) -> nat {
        self.capacity as nat
    }

    /// An empty cache that holds up to `capacity` result sets, and at least one.
    pub fn new(capacity: usize) -> (r: Self)
        ensures
            r@ == Seq::<SlotView>::empty(),
            r.limit() == if capacity >= 1 {
                capacity as nat
            } else {
                1nat
            },
    {
        let r = SearchCache {
            capacity: if capacity >= 1 {
                capacity
            } else {
                1
            },
            slots: VecDeque::new(),
        };
        assert(slot_views(r.slots@) =~= Seq::<SlotView>::empty());
        r
    }

    /// The most result sets that the cache holds.
    pub fn capacity(&self) -> (r: usize)
        ensures
            r == self.limit(),
            r >= 1,
    {
        proof {
            use_type_invariant(self);
        }
        self.capacity
    }

    /// The number of cached result sets.
    pub fn len(&self) -> (r: usize)
        ensures
            r == self@.len(),
            r <= self.limit(),
            distinct_keys(self@),
    {
        proof {
            use_type_invariant(self);
        }
        self.slots.len()
    }

    /// Position of the slot with the key, or the number of slots.
    fn find(slots: &VecDeque<CacheSlot>, key: &String) -> (at: usize)
        ensures
            at == slot_of(slot_views(slots@), key@),
            at <= slots@.len(),
    {
        let ghost cache = slot_views(slots@);
        let mut at: usize = 0;
        assert(cache.skip(0) =~= cache);
        while at < slots.len() && !(slots[at].key == *key)
            invariant
                at <= slots.len(),
                cache == slot_views(slots@),
                slot_of(cache, key@) == at + slot_of(cache.skip(at as int), key@),
            decreases slots.len() - at,
        {
            proof {
                assert(cache.skip(at as int)[0].key == slots@[at as int].key@);
                assert(cache.skip(at as int).drop_first() =~= cache.skip(at + 1));
            }
            at += 1;
        }
        proof {
            if at < slots.len() {
                assert(cache.skip(at as int)[0].key == slots@[at as int].key@);
            }
        }
        at
    }

    /// The result set cached under `key`, which thereby becomes the most
    /// recently used one.
    pub fn get(&mut self, key: &str) -> (r: Option<CachedSearch>)
        ensures
            cached_view(r) == cache_lookup(old(self)@, key@),
            final(self)@ == cache_promote(old(self)@, key@),
            final(self).limit() == old(self).limit(),
    {
        proof {
            use_type_invariant(&*self);
        }
        let mut taken = SearchCache::new(1);
        std::mem::swap(&mut taken, self);
        proof {
            use_type_invariant(&taken);
        }
        let SearchCache { capacity, slots } = taken;
        let mut slots = slots;
        let ghost cache = slot_views(slots@);
        let wanted = key.to_owned();
        let at = SearchCache::find(&slots, &wanted);
        proof {
            lemma_cache_steps(cache, key@, arbitrary(), capacity as nat);
        }
        let found = match slots.remove(at) {
            Some(slot) => {
                let value = slot.value.clone();
                slots.push_back(slot);
                assert(slot_views(slots@) =~= cache_promote(cache, key@));
                Some(value)
            },
            None => None,
        };
        *self = SearchCache { capacity, slots };
        found
    }

    /// Caches `value` under `key` as the most recently used result set.
    pub fn insert(&mut self, key: String, value: CachedSearch)
        ensures
            final(self)@ == cache_store(old(self)@, key@, value@, old(self).limit()),
            final(self).limit() == old(self).limit(),
    {
        proof {
            use_type_invariant(&*self);
        }
        let mut taken = SearchCache::new(1);
        std::mem::swap(&mut taken, self);
        proof {
            use_type_invariant(&taken);
        }
        let SearchCache { capacity, slots } = taken;
        let mut slots = slots;
        let ghost cache = slot_views(slots@);
        let ghost slot_view = SlotView { key: key@, value: value@ };
        let at = SearchCache::find(&slots, &key);
        proof {
            lemma_cache_steps(cache, key@, value@, capacity as nat);
        }
        if at < slots.len() {
            slots.remove(at);
            slots.push_back(CacheSlot { key, value });
            assert(slot_views(slots@) =~= cache.remove(at as int).push(slot_view));
        } else {
            slots.push_back(CacheSlot { key, value });
            let ghost grown = cache.push(slot_view);
            assert(slot_views(slots@) =~= grown);
            while slots.len() > capacity
                invariant
                    capacity >= 1,
                    slots@.len() <= grown.len(),
                    slots@.len() >= capacity || slots@.len() == grown.len(),
                    slot_views(slots@) == grown.skip(grown.len() - slots@.len()),
                decreases slots.len(),
            {
                let ghost before = slots@;
                let ghost views_before = slot_views(slots@);
                let dropped = slots.pop_front();
                assert(dropped is Some);
                assert(slots@ == before.subrange(1, before.len() as int));
                assert(slot_views(slots@) =~= views_before.skip(1));
                assert(views_before.skip(1) =~= grown.skip(grown.len() - slots@.len()));
            }
            assert(grown.skip(0) =~= grown);
        }
        *self = SearchCache { capacity, slots };
    }

    /// Drops every cached result set.
    pub fn clear(&mut self)
        ensures
            final(self)@ == Seq::<SlotView>::empty(),
            final(self).limit() == old(self).limit(),
    {
        proof {
            use_type_invariant(&*self);
        }
        let fresh = SearchCache::new(self.capacity);
        *self = fresh;
    }
}

/// What an optional cached result set holds.
pub open spec fn cached_view(o: Option<CachedSearch>) -> Option<CachedView> {
    match o {
        Some(cached) => Some(cached@),
        None => None,
    }
}

/// The text of a flag in a cache key.
pub open spec fn flag_text(flag: bool) -> Seq<char> {
    if flag {
        "true"@
    } else {
        "false"@
    }
}

/// The key under which the result set of a trimmed query is cached: the query
/// and the options that ranking depends on, with bars between them.
pub open spec fn cache_key_of(text: Seq<char>, config: ConfigView) -> Seq<char> {
    text + "|"@ + flag_text(config.enable_app_results) + "|"@ + flag_text(
        config.enable_bookmark_results,
    ) + "|"@ + decimal(config.max_results as nat)
}

/// The key under which the result set of a trimmed query is cached.
pub fn cache_key(text: &str, config: &AppConfig) -> (key: String)
    ensures
        key@ == cache_key_of(text@, config@),
{
    let apps = if config.enable_app_results {
        "true"
    } else {
        "false"
    };
    let bookmarks = if config.enable_bookmark_results {
        "true"
    } else {
        "false"
    };
    let limit = string_of(&decimal_chars(config.max_results as usize));
    let with_bar = concat_str(text, "|");
    let with_apps = concat_str(with_bar.as_str(), apps);
    let with_bar = concat_str(with_apps.as_str(), "|");
    let with_bookmarks = concat_str(with_bar.as_str(), bookmarks);
    let with_bar = concat_str(with_bookmarks.as_str(), "|");
    concat_str(with_bar.as_str(), limit.as_str())
}

/// The actions of the recent entries, by result identity.
pub open spec fn recent_actions(list: Seq<RecentView>) -> Map<Seq<char>, ActionView>
    decreases list.len(),
{
    if list.len() == 0 {
        Map::empty()
    } else {
        recent_actions(list.drop_last()).insert(list.last().result.id, list.last().action)
    }
}

/// The result set shown for an empty query: the recent results, newest first,
/// with their actions.
pub open spec fn recent_outcome(list: Seq<RecentView>) -> CachedView {
    CachedView {
        results: Seq::new(list.len(), |i: int| list[i].result),
        actions: recent_actions(list),
    }
}

/// The result set shown for an empty query.
pub fn recent_results(list: &RecentList) -> (r: CachedSearch)
    ensures
        r@ == recent_outcome(list@),
{
    let items = list.items();
    let ghost lv = recent_views(items@);
    let mut results: Vec<SearchResult> = Vec::new();
    let mut actions = ActionMap::new();
    let mut i: usize = 0;
    while i < items.len()
        invariant
            i <= items.len(),
            lv == recent_views(items@),
            results.len() == i,
            forall|j: int| 0 <= j < i ==> (#[trigger] results@[j])@ == lv[j].result,
            actions@ == recent_actions(lv.take(i as int)),
        decreases items.len() - i,
    {
        let entry = &items[i];
        proof {
            assert(lv.take(i + 1).drop_last() =~= lv.take(i as int));
            assert(lv.take(i + 1).last() == entry@);
        }
        results.push(entry.result.clone());
        actions.insert(entry.result.id.clone(), entry.action.clone());
        i += 1;
    }
    proof {
        assert(lv.take(items.len() as int) =~= lv);
        assert(result_views(results@) =~= recent_outcome(lv).results);
    }
    CachedSearch { results, pending_actions: actions }
}

/// Everything that a search session owns: the two indexes, the configuration,
/// the actions of the results last shown, and the two caches.
pub struct AppState {
    pub app_index: Vec<ApplicationInfo>,
    pub bookmark_index: Vec<BookmarkEntry>,
    pub config: AppConfig,
    pub pending_actions: ActionMap,
    pub search_cache: SearchCache,
    pub recent_actions: RecentList,
}

/// What an `AppState` holds, as plain values.
pub struct StateView {
    pub apps: Seq<ApplicationView>,
    pub bookmarks: Seq<BookmarkView>,
    pub config: ConfigView,
    pub pending: Map<Seq<char>, ActionView>,
    pub cache: Seq<SlotView>,
    pub cache_limit: nat,
    pub recents: Seq<RecentView>,
    pub recents_limit: nat,
}

impl View for AppState {
    type V = StateView;

    open spec fn view(&self) -> StateView {
        StateView {
            apps: app_views(self.app_index@),
            bookmarks: bookmark_views(self.bookmark_index@),
            config: self.config@,
            pending: self.pending_actions@,
            cache: self.search_cache@,
            cache_limit: self.search_cache.limit(),
            recents: self.recent_actions@,
            recents_limit: self.recent_actions.limit(),
        }
    }
}

/// Number of result sets that a new session caches.
pub const DEFAULT_CACHE_CAPACITY: usize = 8;

/// Number of recent results that a new session remembers.
pub const DEFAULT_RECENT_CAPACITY: usize = 12;

/// The result set that a search over the state's indexes gives for a trimmed
/// query that is not empty.
pub open spec fn fresh_answer(state: StateView, text: Seq<char>) -> CachedView {
    let outcome = search_outcome(text, QueryMode::All, state.apps, state.bookmarks, state.config);
    CachedView { results: outcome.results, actions: outcome.actions }
}

/// The result set that the state answers an input with: the recent results
/// for an input that is empty once trimmed; else what the cache holds for the
/// trimmed input and the configuration; else the result of a search.
pub open spec fn answer(state: StateView, input: Seq<char>) -> CachedView {
    let text = trim(input);
    if text.len() == 0 {
        recent_outcome(state.recents)
    } else {
        match cache_lookup(state.cache, cache_key_of(text, state.config)) {
            Some(cached) => cached,
            None => fresh_answer(state, text),
        }
    }
}

/// The state after it answered an input: the actions shown are those of the
/// answer; a cached answer has become the most recently used one, and a
/// searched one was cached.
pub open spec fn after_answer(state: StateView, input: Seq<char>) -> StateView {
    let text = trim(input);
    let key = cache_key_of(text, state.config);
    StateView {
        pending: answer(state, input).actions,
        cache: if text.len() == 0 {
            state.cache
        } else if cache_lookup(state.cache, key) is Some {
            cache_promote(state.cache, key)
        } else {
            cache_store(state.cache, key, fresh_answer(state, text), state.cache_limit)
        },
        ..state
    }
}

/// Whether a rebuilt application index replaces the current one: it does
/// exactly where it differs from it.
pub open spec fn refresh_changes(state: StateView, refreshed: Seq<ApplicationView>) -> bool {
    refreshed != state.apps
}

/// The state after a rebuilt application index arrived: where it replaces the
/// current one the cache is emptied; else nothing changes.
pub open spec fn after_refresh(state: StateView, refreshed: Seq<ApplicationView>) -> StateView {
    if refresh_changes(state, refreshed) {
        StateView { apps: refreshed, cache: Seq::empty(), ..state }
    } else {
        state
    }
}

/// The view of a session that holds the given parts and shows no actions.
pub open spec fn session_view(
    apps: Seq<ApplicationView>,
    bookmarks: Seq<BookmarkView>,
    config: ConfigView,
    cache: SearchCache,
    recents: RecentList,
) -> StateView {
    StateView {
        apps,
        bookmarks,
        config,
        pending: Map::empty(),
        cache: cache@,
        cache_limit: cache.limit(),
        recents: recents@,
        recents_limit: recents.limit(),
    }
}

/// Answers an input from the parts of a session: with the recent results for
/// an input that is empty once trimmed; else with what the cache holds for the
/// trimmed input and the configuration, which becomes the most recently used
/// result set; else with the result of a search, which is cached.
pub fn answer_input(
    input: &str,
    app_index: &[ApplicationInfo],
    bookmark_index: &[BookmarkEntry],
    config: &AppConfig,
    cache: &mut SearchCache,
    recents: &RecentList,
) -> (r: CachedSearch)
    requires
        searchable_inputs(input@, app_views(app_index@), bookmark_views(bookmark_index@)),
    ensures
        r@ == answer(
            session_view(
                app_views(app_index@),
                bookmark_views(bookmark_index@),
                config@,
                *old(cache),
                *recents,
            ),
            input@,
        ),
        final(cache)@ == after_answer(
            session_view(
                app_views(app_index@),
                bookmark_views(bookmark_index@),
                config@,
                *old(cache),
                *recents,
            ),
            input@,
        ).cache,
        final(cache).limit() == old(cache).limit(),
{
    let text_chars = trimmed(&chars_of(input));
    if text_chars.len() == 0 {
        return recent_results(recents);
    }
    let text = string_of(&text_chars);
    proof {
        lemma_trim_len(input@);
    }
    let key = cache_key(text.as_str(), config);
    match cache.get(key.as_str()) {
        Some(cached) => {
            return cached;
        },
        None => {},
    }
    let (results, actions) = search_in_mode(
        text.as_str(),
        QueryMode::All,
        app_index,
        bookmark_index,
        config,
    );
    let found = CachedSearch { results, pending_actions: actions };
    cache.insert(key, found.clone());
    found
}

/// Puts a rebuilt index in place of the current one where it differs from it;
/// says whether it did.
pub fn replace_if_changed(current: &mut Vec<ApplicationInfo>, refreshed: Vec<ApplicationInfo>) -> (changed:
    bool)
    ensures
        changed == (app_views(refreshed@) != app_views(old(current)@)),
        app_views(final(current)@) == app_views(refreshed@),
{
    if same_apps(current, &refreshed) {
        return false;
    }
    *current = refreshed;
    true
}

impl AppState {
    /// A session without entries, with the default configuration and caches
    /// of the default capacities.
    pub fn new() -> (r: Self)
        ensures
            r@.apps == Seq::<ApplicationView>::empty(),
            r@.bookmarks == Seq::<BookmarkView>::empty(),
            r.config@ == AppConfig::default_view(),
            r@.pending == Map::<Seq<char>, ActionView>::empty(),
            r@.cache == Seq::<SlotView>::empty(),
            r@.cache_limit == DEFAULT_CACHE_CAPACITY,
            r@.recents == Seq::<RecentView>::empty(),
            r@.recents_limit == DEFAULT_RECENT_CAPACITY,
    {
        let r = AppState {
            app_index: Vec::new(),
            bookmark_index: Vec::new(),
            config: AppConfig::default(),
            pending_actions: ActionMap::new(),
            search_cache: SearchCache::new(DEFAULT_CACHE_CAPACITY),
            recent_actions: RecentList::new(DEFAULT_RECENT_CAPACITY),
        };
        assert(app_views(r.app_index@) =~= Seq::<ApplicationView>::empty());
        assert(bookmark_views(r.bookmark_index@) =~= Seq::<BookmarkView>::empty());
        r
    }

    /// Answers an input with a result set, from the recent results, the cache
    /// or a search, and remembers the actions of the results.
    pub fn refresh_results(&mut self, input: &str) -> (r: CachedSearch)
        requires
            searchable_inputs(input@, old(self)@.apps, old(self)@.bookmarks),
        ensures
            r@ == answer(old(self)@, input@),
            final(self)@ == after_answer(old(self)@, input@),
    {
        let shown = answer_input(
            input,
            self.app_index.as_slice(),
            self.bookmark_index.as_slice(),
            &self.config,
            &mut self.search_cache,
            &self.recent_actions,
        );
        self.pending_actions = shown.pending_actions.clone();
        shown
    }

    /// Takes in a rebuilt application index. Where it differs from the current
    /// one, it replaces it and the cache is emptied; the result says whether
    /// it did, so that the caller can persist the index.
    pub fn apply_refresh(&mut self, refreshed: Vec<ApplicationInfo>) -> (changed: bool)
        ensures
            changed == refresh_changes(old(self)@, app_views(refreshed@)),
            final(self)@ == after_refresh(old(self)@, app_views(refreshed@)),
    {
        let changed = replace_if_changed(&mut self.app_index, refreshed);
        if changed {
            self.search_cache.clear();
        }
        changed
    }

    /// Remembers an executed result as the most recent one.
    pub fn record_action(&mut self, result: SearchResult, action: PendingAction)
        ensures
            final(self)@ == (StateView {
                recents: recent_insert(
                    old(self)@.recents,
                    RecentView { result: result@, action: action@ },
                    old(self)@.recents_limit,
                ),
                ..old(self)@
            }),
    {
        self.recent_actions.insert(RecentEntry { result, action });
    }

    /// Replaces the configuration and empties the cache.
    pub fn update_config(&mut self, config: AppConfig)
        ensures
            final(self)@ == (StateView { config: config@, cache: Seq::empty(), ..old(self)@ }),
    {
        self.config = config;
        self.search_cache.clear();
    }
}

} // verus!
