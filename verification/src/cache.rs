//! The prepared statements that the server holds, a bounded number of them.

use std::collections::VecDeque;
use vstd::hash_map::*;
use vstd::prelude::*;
use vstd::string::*;

verus! {

/// The most prepared statements that are held.
pub const MAX_PREPARED: usize = 512;

/// A prepared statement: the text of its query.
pub struct PreparedEntry {
    pub query: String,
}

/// What a cache holds: the query of each handle, and the handles in the order
/// in which they were inserted. A handle that was removed may still stand in
/// the order.
#[verifier::ext_equal]
pub struct CacheState {
    pub entries: Map<Seq<char>, Seq<char>>,
    pub order: Seq<Seq<char>>,
}

impl CacheState {
    /// No more entries than the limit, and each of them in the order.
    pub open spec fn wf(self) -> bool {
        &&& self.entries.dom().finite()
        &&& self.entries.len() <= MAX_PREPARED
        &&& forall|k: Seq<char>| #[trigger] self.entries.contains_key(k) ==> self.order.contains(k)
    }

    /// The index of the oldest handle that has an entry, or the length of the
    /// order where none has.
    pub open spec fn oldest(self) -> int
        decreases self.order.len(),
    {
        if self.order.len() == 0 || self.entries.contains_key(self.order[0]) {
            0
        } else {
            1 + CacheState { order: self.order.drop_first(), ..self }.oldest()
        }
    }

    /// No handle stands in the order twice, and at least half of the order
    /// has entries.
    pub open spec fn tidy(self) -> bool {
        &&& self.wf()
        &&& self.order.no_duplicates()
        &&& self.order.len() <= 2 * self.entries.len()
    }

    /// The state once handles are dropped, the oldest first, until no more
    /// entries than the limit are left.
    pub open spec fn evicted(self) -> CacheState
        decreases self.order.len(),
    {
        if self.entries.len() > MAX_PREPARED && self.order.len() > 0 {
            CacheState {
                entries: self.entries.remove(self.order[0]),
                order: self.order.drop_first(),
            }.evicted()
        } else {
            self
        }
    }

    /// The state with this handle as the youngest, before anything is dropped.
    pub open spec fn with_entry(self, key: Seq<char>, query: Seq<char>) -> CacheState {
        CacheState { entries: self.entries.insert(key, query), order: self.order.push(key) }
    }

    /// The state once this handle is inserted.
    pub open spec fn inserted(self, key: Seq<char>, query: Seq<char>) -> CacheState {
        self.with_entry(key, query).evicted()
    }

    /// The state once this handle is removed. The order is rid of the handles
    /// without an entry where these are more than half of it.
    pub open spec fn removed(self, key: Seq<char>) -> CacheState {
        let entries = self.entries.remove(key);
        CacheState {
            entries,
            order: if entries.len() * 2 < self.order.len() {
                self.order.filter(|k: Seq<char>| entries.contains_key(k))
            } else {
                self.order
            },
        }
    }
}

/// A bounded cache of prepared statements that drops the oldest first.
///
/// The order of insertion is kept beside the map, whose own order is
/// arbitrary: an arbitrary entry could be one whose ticket is still in flight.
pub struct PreparedCache {
    map: StringHashMap<PreparedEntry>,
    order: VecDeque<String>,
}

impl View for PreparedCache {
    type V = CacheState;

    closed spec fn view(&self) -> CacheState {
        CacheState {
            entries: Map::new(
                |k: Seq<char>| self.map@.contains_key(k),
                |k: Seq<char>| self.map@[k].query@,
            ),
            order: Seq::new(self.order@.len(), |i: int| self.order@[i]@),
        }
    }
}

impl PreparedCache {
    /// A cache that holds nothing.
    pub fn new() -> (cache: Self)
        ensures
            cache@.wf(),
            cache@.entries == Map::<Seq<char>, Seq<char>>::empty(),
            cache@.order == Seq::<Seq<char>>::empty(),
    {
        let cache = PreparedCache { map: StringHashMap::new(), order: VecDeque::new() };
        assert(cache@.entries =~= Map::<Seq<char>, Seq<char>>::empty());
        cache
    }

    /// Inserts an entry as the youngest, and drops the oldest where there are
    /// too many.
    pub fn insert(&mut self, key: String, entry: PreparedEntry)
        requires
            old(self)@.wf(),
        ensures
            final(self)@.wf(),
            final(self)@ == old(self)@.inserted(key@, entry.query@),
    {
        let ghost before = self@;
        let ghost query = entry.query@;
        let ghost full = before.with_entry(key@, query);
        self.order.push_back(key.clone());
        self.map.insert(key, entry);
        assert(self@ =~= full);
        assert(self.map@.dom() =~= self@.entries.dom());
        proof {
            assert forall|k: Seq<char>| #[trigger] full.entries.contains_key(k) implies
                full.order.contains(k) by {
                if k == key@ {
                    assert(full.order.last() == k);
                } else {
                    assert(before.entries.contains_key(k));
                    let i = choose|i: int| 0 <= i < before.order.len() && before.order[i] == k;
                    assert(full.order[i] == k);
                }
            }
        }
        while self.map.len() > MAX_PREPARED
            invariant
                self@.evicted() == full.evicted(),
                self@.entries.dom().finite(),
                self.map@.dom() == self@.entries.dom(),
                forall|k: Seq<char>| #[trigger]
                    self@.entries.contains_key(k) ==> self@.order.contains(k),
            ensures
                self@.entries.len() <= MAX_PREPARED,
            decreases self.order@.len(),
        {
            let ghost state = self@;
            match self.order.pop_front() {
                Some(old) => {
                    self.map.remove(old.as_str());
                    proof {
                        assert(self@.order =~= state.order.drop_first());
                        assert(self@.entries =~= state.entries.remove(state.order[0]));
                        assert(self@ =~= CacheState {
                            entries: state.entries.remove(state.order[0]),
                            order: state.order.drop_first(),
                        });
                        assert forall|k: Seq<char>| #[trigger]
                            self@.entries.contains_key(k) implies self@.order.contains(k) by {
                            let i = choose|i: int|
                                0 <= i < state.order.len() && state.order[i] == k;
                            assert(self@.order[i - 1] == k);
                        }
                        assert(self.map@.dom() =~= self@.entries.dom());
                    }
                },
                None => {
                    proof {
                        assert(state.order.len() == 0);
                        assert(state.entries.dom() =~= Set::<Seq<char>>::empty());
                    }
                    break;
                },
            }
        }
    }

    /// The entry of this handle.
    pub fn get(&self, key: &str) -> (r: Option<&PreparedEntry>)
        ensures
            match r {
                Some(entry) => self@.entries.contains_key(key@) && self@.entries[key@]
                    == entry.query@,
                None => !self@.entries.contains_key(key@),
            },
    {
        self.map.get(key)
    }

    /// Removes the entry of this handle, where there is one.
    pub fn remove(&mut self, key: &str)
        requires
            old(self)@.wf(),
        ensures
            final(self)@.wf(),
            final(self)@ == old(self)@.removed(key@),
    {
        let ghost before = self@;
        self.map.remove(key);
        let ghost entries = before.entries.remove(key@);
        let ghost live = |k: Seq<char>| entries.contains_key(k);
        assert(self@.entries =~= entries);
        assert(self@.order == before.order);
        assert(self.map@.dom() =~= self@.entries.dom());
        if self.map.len() * 2 < self.order.len() {
            let mut kept: VecDeque<String> = VecDeque::new();
            let mut i: usize = 0;
            assert(before.order.take(0).filter(live) =~= Seq::<Seq<char>>::empty()) by {
                reveal(Seq::filter);
            }
            while i < self.order.len()
                invariant
                    i <= self.order@.len(),
                    self@.order == before.order,
                    self@.entries == entries,
                    live == (|k: Seq<char>| entries.contains_key(k)),
                    Seq::new(kept@.len(), |j: int| kept@[j]@) =~= before.order.take(
                        i as int,
                    ).filter(live),
                decreases self.order@.len() - i,
            {
                let ghost next = before.order.take(i + 1);
                let ghost kept_before = kept@;
                proof {
                    reveal(Seq::filter);
                    assert(next.drop_last() =~= before.order.take(i as int));
                    assert(next.last() == self.order@[i as int]@);
                }
                if self.map.contains_key(self.order[i].as_str()) {
                    kept.push_back(self.order[i].clone());
                    assert(Seq::new(kept@.len(), |j: int| kept@[j]@) =~= Seq::new(
                        kept_before.len(),
                        |j: int| kept_before[j]@,
                    ).push(next.last()));
                }
                i = i + 1;
            }
            assert(before.order.take(i as int) =~= before.order);
            self.order = kept;
            assert(self@ =~= before.removed(key@));
            proof {
                assert forall|k: Seq<char>| #[trigger] self@.entries.contains_key(k) implies
                    self@.order.contains(k) by {
                    assert(before.entries.contains_key(k));
                    lemma_filter_keeps(before.order, live, k);
                }
            }
        } else {
            assert(self@ =~= before.removed(key@));
        }
    }
}

/// A handle that is inserted for the first time is held. Below the limit
/// nothing is dropped for it; at the limit exactly the oldest entry is.
pub proof fn fresh_insert(s: CacheState, key: Seq<char>, query: Seq<char>)
    requires
        s.wf(),
        !s.order.contains(key),
    ensures
        s.inserted(key, query).entries.contains_key(key),
        s.inserted(key, query).entries[key] == query,
        s.entries.len() < MAX_PREPARED ==> s.inserted(key, query) == s.with_entry(key, query),
        s.entries.len() == MAX_PREPARED ==> {
            &&& 0 <= s.oldest() < s.order.len()
            &&& s.entries.contains_key(s.order[s.oldest()])
            &&& s.inserted(key, query) == CacheState {
                entries: s.entries.remove(s.order[s.oldest()]).insert(key, query),
                order: s.order.skip(s.oldest() + 1).push(key),
            }
        },
{
    assert(!s.entries.contains_key(key));
    let full = s.with_entry(key, query);
    assert(full.entries.dom() =~= s.entries.dom().insert(key));
    if s.entries.len() == MAX_PREPARED {
        assert(exists|i: int|
            0 <= i < s.order.len() && s.entries.contains_key(#[trigger] s.order[i])) by {
            let k = s.entries.dom().choose();
            assert(s.entries.contains_key(k));
            let i = choose|i: int| 0 <= i < s.order.len() && s.order[i] == k;
            assert(s.entries.contains_key(s.order[i]));
        }
        lemma_oldest(s);
        lemma_oldest_with(s, key, query);
        assert forall|k: Seq<char>| #[trigger] full.entries.contains_key(k) implies
            full.order.contains(k) by {
            if k == key {
                assert(full.order.last() == k);
            } else {
                assert(s.entries.contains_key(k));
                let i = choose|i: int| 0 <= i < s.order.len() && s.order[i] == k;
                assert(full.order[i] == k);
            }
        }
        lemma_evicts_oldest(full);
        let old = s.order[s.oldest()];
        assert(full.order[s.oldest()] == old);
        assert(old != key);
        assert(full.entries.remove(old) =~= s.entries.remove(old).insert(key, query));
        assert(full.order.skip(s.oldest() + 1) =~= s.order.skip(s.oldest() + 1).push(key));
    }
}

/// A cache whose handles are never inserted twice stays tidy, so that the
/// handles without an entry never outgrow the others: the order is no longer
/// than twice the limit.
pub proof fn fresh_insert_keeps_tidy(s: CacheState, key: Seq<char>, query: Seq<char>)
    requires
        s.tidy(),
        !s.order.contains(key),
    ensures
        s.inserted(key, query).tidy(),
        s.inserted(key, query).order.len() <= 2 * MAX_PREPARED,
{
    let after = s.inserted(key, query);
    fresh_insert(s, key, query);
    assert(!s.entries.contains_key(key));
    if s.entries.len() < MAX_PREPARED {
        assert(after.entries.dom() =~= s.entries.dom().insert(key));
        assert forall|k: Seq<char>| #[trigger] after.entries.contains_key(k) implies
            after.order.contains(k) by {
            if k == key {
                assert(after.order.last() == k);
            } else {
                assert(s.entries.contains_key(k));
                let i = choose|i: int| 0 <= i < s.order.len() && s.order[i] == k;
                assert(after.order[i] == k);
            }
        }
    } else {
        let n = s.oldest();
        let old = s.order[n];
        assert(after.entries.dom() =~= s.entries.dom().remove(old).insert(key));
        lemma_oldest(s);
        assert forall|k: Seq<char>| #[trigger] after.entries.contains_key(k) implies
            after.order.contains(k) by {
            if k == key {
                assert(after.order.last() == k);
            } else {
                assert(s.entries.contains_key(k));
                let i = choose|i: int| 0 <= i < s.order.len() && s.order[i] == k;
                assert(i > n);
                assert(after.order[i - n - 1] == k);
            }
        }
    }
}

/// Removing a handle keeps a cache tidy.
pub proof fn remove_keeps_tidy(s: CacheState, key: Seq<char>)
    requires
        s.tidy(),
    ensures
        s.removed(key).tidy(),
{
    let after = s.removed(key);
    let entries = s.entries.remove(key);
    let live = |k: Seq<char>| entries.contains_key(k);
    assert(entries.dom() =~= s.entries.dom().remove(key));
    assert forall|k: Seq<char>| #[trigger] after.entries.contains_key(k) implies
        after.order.contains(k) by {
        assert(s.entries.contains_key(k));
        lemma_filter_keeps(s.order, live, k);
    }
    if entries.len() * 2 < s.order.len() {
        let f = s.order.filter(live);
        lemma_filter_distinct(s.order, live);
        assert(f.to_set().subset_of(entries.dom()));
        f.unique_seq_to_set();
        vstd::set_lib::lemma_len_subset(f.to_set(), entries.dom());
    }
}

/// Dropping handles adds no entry, and changes none.
pub proof fn evicting_adds_nothing(s: CacheState, key: Seq<char>)
    requires
        s.evicted().entries.contains_key(key),
    ensures
        s.entries.contains_key(key),
        s.evicted().entries[key] == s.entries[key],
    decreases s.order.len(),
{
    if s.entries.len() > MAX_PREPARED && s.order.len() > 0 {
        let next = CacheState {
            entries: s.entries.remove(s.order[0]),
            order: s.order.drop_first(),
        };
        evicting_adds_nothing(next, key);
    }
}

/// A handle that was removed has no entry, and every other handle keeps its
/// own.
pub proof fn removed_is_gone(s: CacheState, key: Seq<char>, other: Seq<char>)
    ensures
        !s.removed(key).entries.contains_key(key),
        other != key ==> s.removed(key).entries.contains_key(other) == s.entries.contains_key(
            other,
        ),
        other != key ==> s.removed(key).entries[other] == s.entries[other],
{
}

/// A change of a cache: a handle that is inserted with its query, or one that
/// is removed.
pub enum CacheStep {
    Insert(Seq<char>, Seq<char>),
    Remove(Seq<char>),
}

/// The state after the changes, one after the other.
pub open spec fn after_steps(s: CacheState, steps: Seq<CacheStep>) -> CacheState
    decreases steps.len(),
{
    if steps.len() == 0 {
        s
    } else {
        let before = after_steps(s, steps.drop_last());
        match steps.last() {
            CacheStep::Insert(key, query) => before.inserted(key, query),
            CacheStep::Remove(key) => before.removed(key),
        }
    }
}

/// Whether every handle is fresh when it is inserted.
pub open spec fn all_fresh(s: CacheState, steps: Seq<CacheStep>) -> bool
    decreases steps.len(),
{
    steps.len() > 0 ==> {
        &&& all_fresh(s, steps.drop_last())
        &&& steps.last() matches CacheStep::Insert(key, _) ==> !after_steps(
            s,
            steps.drop_last(),
        ).order.contains(key)
    }
}

/// How many handles are inserted.
pub open spec fn insertions(steps: Seq<CacheStep>) -> nat
    decreases steps.len(),
{
    if steps.len() == 0 {
        0
    } else {
        insertions(steps.drop_last()) + (if steps.last() is Insert {
            1nat
        } else {
            0nat
        })
    }
}

/// A statement that was just prepared stays until it is closed, or until as
/// many others were prepared after it as the cache holds: while a ticket is in
/// flight, its statement is not dropped for a few newer ones.
pub proof fn entry_outlives(s: CacheState, key: Seq<char>, steps: Seq<CacheStep>)
    requires
        s.tidy(),
        s.entries.contains_key(key),
        s.order.last() == key,
        all_fresh(s, steps),
        insertions(steps) < MAX_PREPARED,
        !steps.contains(CacheStep::Remove(key)),
    ensures
        after_steps(s, steps).tidy(),
        after_steps(s, steps).entries.contains_key(key),
        after_steps(s, steps).entries[key] == s.entries[key],
{
    assert(s.order.contains(key));
    assert(stands_behind(s, key, s.order.len() - 1, 0));
    lemma_outlives(s, key, steps);
}

/// Whether the handle `key` stands in the order at `at`, with no more than
/// `newer` handles behind it.
spec fn stands_behind(s: CacheState, key: Seq<char>, at: int, newer: nat) -> bool {
    0 <= at < s.order.len() && s.order[at] == key && s.order.len() - 1 - at <= newer
}

/// A handle stays, and no more stand behind it than were inserted.
proof fn lemma_outlives(s: CacheState, key: Seq<char>, steps: Seq<CacheStep>)
    requires
        s.tidy(),
        s.entries.contains_key(key),
        stands_behind(s, key, s.order.len() - 1, 0),
        all_fresh(s, steps),
        insertions(steps) < MAX_PREPARED,
        !steps.contains(CacheStep::Remove(key)),
    ensures
        after_steps(s, steps).tidy(),
        after_steps(s, steps).entries.contains_key(key),
        after_steps(s, steps).entries[key] == s.entries[key],
        exists|at: int| stands_behind(after_steps(s, steps), key, at, insertions(steps)),
    decreases steps.len(),
{
    if steps.len() > 0 {
        let less = steps.drop_last();
        assert(!less.contains(CacheStep::Remove(key))) by {
            if less.contains(CacheStep::Remove(key)) {
                let i = choose|i: int| 0 <= i < less.len() && less[i] == CacheStep::Remove(key);
                assert(steps[i] == CacheStep::Remove(key));
            }
        }
        lemma_outlives(s, key, less);
        let before = after_steps(s, less);
        let after = after_steps(s, steps);
        let at = choose|at: int| stands_behind(before, key, at, insertions(less));
        match steps.last() {
            CacheStep::Insert(other, query) => {
                fresh_insert_keeps_tidy(before, other, query);
                let i = lemma_outlives_insert(before, key, at, insertions(less), other, query);
                assert(stands_behind(after, key, i, insertions(steps)));
            },
            CacheStep::Remove(other) => {
                assert(steps[steps.len() - 1] == CacheStep::Remove(other));
                remove_keeps_tidy(before, other);
                removed_is_gone(before, other, key);
                let i = lemma_outlives_remove(before, key, at, insertions(less), other);
                assert(stands_behind(after, key, i, insertions(steps)));
            },
        }
    }
}

/// A fresh handle does not push out one that few handles stand behind.
proof fn lemma_outlives_insert(
    s: CacheState,
    key: Seq<char>,
    at: int,
    newer: nat,
    other: Seq<char>,
    query: Seq<char>,
) -> (i: int)
    requires
        s.tidy(),
        s.entries.contains_key(key),
        stands_behind(s, key, at, newer),
        newer + 1 < MAX_PREPARED,
        !s.order.contains(other),
    ensures
        s.inserted(other, query).entries.contains_key(key),
        s.inserted(other, query).entries[key] == s.entries[key],
        stands_behind(s.inserted(other, query), key, i, newer + 1),
{
    fresh_insert(s, other, query);
    let after = s.inserted(other, query);
    assert(key != other) by {
        assert(s.order[at] == key);
    }
    if s.entries.len() < MAX_PREPARED {
        at
    } else {
        let n = s.oldest();
        lemma_oldest(s);
        lemma_entries_behind(s, n);
        assert(n < at);
        assert(s.order[n] != key);
        assert(after.order[at - n - 1] == key);
        at - n - 1
    }
}

/// Removing another handle lets no more stand behind a handle than before.
proof fn lemma_outlives_remove(
    s: CacheState,
    key: Seq<char>,
    at: int,
    newer: nat,
    other: Seq<char>,
) -> (i: int)
    requires
        s.entries.contains_key(key),
        stands_behind(s, key, at, newer),
        other != key,
    ensures
        stands_behind(s.removed(other), key, i, newer),
{
    let entries = s.entries.remove(other);
    let live = |k: Seq<char>| entries.contains_key(k);
    if entries.len() * 2 < s.order.len() {
        lemma_filter_behind(s.order, live, at)
    } else {
        at
    }
}

/// All entries stand in the order from the oldest on.
proof fn lemma_entries_behind(s: CacheState, n: int)
    requires
        s.wf(),
        0 <= n <= s.order.len(),
        forall|i: int| 0 <= i < n ==> !s.entries.contains_key(#[trigger] s.order[i]),
    ensures
        s.entries.len() <= s.order.len() - n,
{
    let tail = s.order.skip(n);
    assert forall|k: Seq<char>| s.entries.dom().contains(k) implies tail.to_set().contains(k) by {
        assert(s.entries.contains_key(k));
        let i = choose|i: int| 0 <= i < s.order.len() && s.order[i] == k;
        assert(tail[i - n] == k);
    }
    vstd::set_lib::lemma_len_subset(s.entries.dom(), tail.to_set());
    tail.lemma_cardinality_of_set();
}

/// What a filter lets through has no more behind it than before.
proof fn lemma_filter_behind<T>(s: Seq<T>, pred: spec_fn(T) -> bool, at: int) -> (i: int)
    requires
        0 <= at < s.len(),
        pred(s[at]),
    ensures
        0 <= i < s.filter(pred).len(),
        s.filter(pred)[i] == s[at],
        s.filter(pred).len() - i <= s.len() - at,
    decreases s.len(),
{
    reveal(Seq::filter);
    let less = s.drop_last();
    if at == s.len() - 1 {
        s.filter(pred).len() - 1
    } else {
        lemma_filter_behind(less, pred, at)
    }
}

/// The oldest handle with an entry, where there is one.
proof fn lemma_oldest(s: CacheState)
    requires
        exists|i: int| 0 <= i < s.order.len() && s.entries.contains_key(#[trigger] s.order[i]),
    ensures
        0 <= s.oldest() < s.order.len(),
        s.entries.contains_key(s.order[s.oldest()]),
        forall|i: int| 0 <= i < s.oldest() ==> !s.entries.contains_key(#[trigger] s.order[i]),
    decreases s.order.len(),
{
    if !s.entries.contains_key(s.order[0]) {
        let tail = CacheState { order: s.order.drop_first(), ..s };
        let i = choose|i: int|
            0 <= i < s.order.len() && s.entries.contains_key(#[trigger] s.order[i]);
        assert(tail.order[i - 1] == s.order[i]);
        lemma_oldest(tail);
        assert(s.order[s.oldest()] == tail.order[tail.oldest()]);
        assert forall|i: int| 0 <= i < s.oldest() implies !s.entries.contains_key(
            #[trigger] s.order[i],
        ) by {
            if i > 0 {
                assert(tail.order[i - 1] == s.order[i]);
            }
        }
    }
}

/// A further handle does not change which one is the oldest.
proof fn lemma_oldest_with(s: CacheState, key: Seq<char>, query: Seq<char>)
    requires
        exists|i: int| 0 <= i < s.order.len() && s.entries.contains_key(#[trigger] s.order[i]),
        !s.order.contains(key),
    ensures
        s.with_entry(key, query).oldest() == s.oldest(),
    decreases s.order.len(),
{
    let full = s.with_entry(key, query);
    assert(full.order[0] == s.order[0]);
    assert(s.order[0] != key);
    if !s.entries.contains_key(s.order[0]) {
        let tail = CacheState { order: s.order.drop_first(), ..s };
        let i = choose|i: int|
            0 <= i < s.order.len() && s.entries.contains_key(#[trigger] s.order[i]);
        assert(tail.order[i - 1] == s.order[i]);
        assert(!tail.order.contains(key)) by {
            if tail.order.contains(key) {
                let j = choose|j: int| 0 <= j < tail.order.len() && tail.order[j] == key;
                assert(s.order[j + 1] == key);
            }
        }
        lemma_oldest_with(tail, key, query);
        assert(CacheState { order: full.order.drop_first(), ..full } =~= tail.with_entry(
            key,
            query,
        ));
    }
}

/// With one entry too many, the oldest handle with an entry is the last to be
/// dropped.
proof fn lemma_evicts_oldest(s: CacheState)
    requires
        s.entries.dom().finite(),
        s.entries.len() == MAX_PREPARED + 1,
        forall|k: Seq<char>| #[trigger] s.entries.contains_key(k) ==> s.order.contains(k),
    ensures
        s.evicted() == (CacheState {
            entries: s.entries.remove(s.order[s.oldest()]),
            order: s.order.skip(s.oldest() + 1),
        }),
    decreases s.order.len(),
{
    assert(s.order.len() > 0) by {
        let k = s.entries.dom().choose();
        assert(s.entries.contains_key(k));
        assert(s.order.contains(k));
    }
    let next = CacheState {
        entries: s.entries.remove(s.order[0]),
        order: s.order.drop_first(),
    };
    if s.entries.contains_key(s.order[0]) {
        assert(next.entries.dom() =~= s.entries.dom().remove(s.order[0]));
        assert(next.order =~= s.order.skip(1));
        assert(next.evicted() == next);
    } else {
        assert(next.entries =~= s.entries);
        assert forall|k: Seq<char>| #[trigger] next.entries.contains_key(k) implies
            next.order.contains(k) by {
            let i = choose|i: int| 0 <= i < s.order.len() && s.order[i] == k;
            assert(next.order[i - 1] == k);
        }
        lemma_evicts_oldest(next);
        assert(next =~= CacheState { order: s.order.drop_first(), ..s });
        assert(0 <= next.oldest() < next.order.len()) by {
            let k = s.entries.dom().choose();
            assert(next.entries.contains_key(k));
            let i = choose|i: int| 0 <= i < next.order.len() && next.order[i] == k;
            assert(next.entries.contains_key(next.order[i]));
            lemma_oldest(next);
        }
        assert(next.order.skip(next.oldest() + 1) =~= s.order.skip(s.oldest() + 1));
        assert(next.order[next.oldest()] == s.order[s.oldest()]);
    }
}

/// A filter repeats nothing that was not repeated, and lets nothing else
/// through.
proof fn lemma_filter_distinct<T>(s: Seq<T>, pred: spec_fn(T) -> bool)
    requires
        s.no_duplicates(),
    ensures
        s.filter(pred).no_duplicates(),
        forall|i: int| 0 <= i < s.filter(pred).len() ==> pred(#[trigger] s.filter(pred)[i]),
        forall|x: T| s.filter(pred).contains(x) ==> s.contains(x),
    decreases s.len(),
{
    reveal(Seq::filter);
    if s.len() > 0 {
        let less = s.drop_last();
        lemma_filter_distinct(less, pred);
        let f = less.filter(pred);
        assert forall|x: T| s.filter(pred).contains(x) implies s.contains(x) by {
            if f.contains(x) {
                assert(less.contains(x));
                let i = choose|i: int| 0 <= i < less.len() && less[i] == x;
                assert(s[i] == x);
            } else {
                assert(s.last() == x);
            }
        }
        if pred(s.last()) {
            assert(!f.contains(s.last())) by {
                if f.contains(s.last()) {
                    assert(less.contains(s.last()));
                    let i = choose|i: int| 0 <= i < less.len() && less[i] == s.last();
                    assert(s[i] == s[s.len() - 1]);
                }
            }
        }
    }
}

/// What meets the predicate stays.
proof fn lemma_filter_keeps<T>(s: Seq<T>, pred: spec_fn(T) -> bool, x: T)
    requires
        s.contains(x),
        pred(x),
    ensures
        s.filter(pred).contains(x),
    decreases s.len(),
{
    reveal(Seq::filter);
    let less = s.drop_last();
    let i = choose|i: int| 0 <= i < s.len() && s[i] == x;
    if i == s.len() - 1 {
        assert(s.filter(pred).last() == x);
    } else {
        assert(less[i] == x);
        lemma_filter_keeps(less, pred, x);
        let f = less.filter(pred);
        let j = choose|j: int| 0 <= j < f.len() && f[j] == x;
        assert(s.filter(pred)[j] == x);
    }
}

/// At the limit of 512 statements a fresh one takes the place of the one that
/// was prepared first among those that are held, and of no other.
pub proof fn oldest_entry_is_dropped(
    cache: &mut PreparedCache,
    key: String,
    entry: PreparedEntry,
    first: int,
    other: Seq<char>,
)
    requires
        old(cache)@.wf(),
        old(cache)@.entries.len() == 512,
        !old(cache)@.order.contains(key@),
        0 <= first < old(cache)@.order.len(),
        old(cache)@.entries.contains_key(old(cache)@.order[first]),
        forall|i: int|
            0 <= i < first ==> !old(cache)@.entries.contains_key(
                #[trigger] old(cache)@.order[i],
            ),
        call_ensures(PreparedCache::insert, (cache, key, entry), ()),
    ensures
        !final(cache)@.entries.contains_key(old(cache)@.order[first]),
        final(cache)@.entries.contains_key(key@),
        final(cache)@.entries[key@] == entry.query@,
        old(cache)@.entries.contains_key(other) && other != old(cache)@.order[first]
            ==> final(cache)@.entries.contains_key(other) && final(cache)@.entries[other]
            == old(cache)@.entries[other],
        final(cache)@.entries.contains_key(other) ==> other == key@
            || old(cache)@.entries.contains_key(other),
        final(cache)@.entries.len() == 512,
        final(cache)@.order.last() == key@,
{
    let s = old(cache)@;
    fresh_insert(s, key@, entry.query@);
    lemma_oldest(s);
    let n = s.oldest();
    assert(n == first) by {
        if n < first {
            assert(!s.entries.contains_key(s.order[n]));
        }
        if first < n {
            assert(!s.entries.contains_key(s.order[first]));
        }
    }
    assert(s.order[first] != key@);
    assert(!s.entries.contains_key(key@));
    let after = s.inserted(key@, entry.query@);
    assert(after.entries.dom() =~= s.entries.dom().remove(s.order[first]).insert(key@));
}

/// Below the limit of 512 statements nothing is dropped for a fresh one.
pub proof fn nothing_is_dropped_below_the_limit(
    cache: &mut PreparedCache,
    key: String,
    entry: PreparedEntry,
)
    requires
        old(cache)@.wf(),
        old(cache)@.entries.len() < 512,
        call_ensures(PreparedCache::insert, (cache, key, entry), ()),
    ensures
        final(cache)@.entries == old(cache)@.entries.insert(key@, entry.query@),
        final(cache)@.order == old(cache)@.order.push(key@),
{
    let s = old(cache)@;
    let full = s.with_entry(key@, entry.query@);
    assert(full.entries.dom() =~= s.entries.dom().insert(key@));
}

/// A handle that is held already is given its new query, and nothing is dropped
/// for it.
pub proof fn held_handle_is_replaced(
    cache: &mut PreparedCache,
    key: String,
    entry: PreparedEntry,
)
    requires
        old(cache)@.wf(),
        old(cache)@.entries.contains_key(key@),
        call_ensures(PreparedCache::insert, (cache, key, entry), ()),
    ensures
        final(cache)@.entries == old(cache)@.entries.insert(key@, entry.query@),
        final(cache)@.entries.len() == old(cache)@.entries.len(),
{
    let s = old(cache)@;
    let full = s.with_entry(key@, entry.query@);
    assert(full.entries.dom() =~= s.entries.dom());
}

/// No more than 512 statements are held, whatever is inserted or removed, and
/// what is looked up is what is held.
pub proof fn limit_is_kept(
    cache: &mut PreparedCache,
    key: String,
    entry: PreparedEntry,
    other: &mut PreparedCache,
    gone: &str,
)
    requires
        call_ensures(PreparedCache::insert, (cache, key, entry), ()),
        call_ensures(PreparedCache::remove, (other, gone), ()),
    ensures
        final(cache)@.entries.len() <= 512,
        final(other)@.entries.len() <= 512,
        final(other)@.entries == old(other)@.entries.remove(gone@),
        MAX_PREPARED == 512,
{
}

/// What is looked up under a handle is what is held under it.
pub proof fn held_entry_is_got(cache: &PreparedCache, key: &str, r: Option<&PreparedEntry>)
    requires
        call_ensures(PreparedCache::get, (cache, key), r),
    ensures
        r is Some <==> cache@.entries.contains_key(key@),
        r matches Some(entry) ==> entry.query@ == cache@.entries[key@],
{
}

/// A cache starts without statements.
pub proof fn new_cache_is_empty(cache: PreparedCache, key: Seq<char>)
    requires
        call_ensures(PreparedCache::new, (), cache),
    ensures
        !cache@.entries.contains_key(key),
        cache@.order.len() == 0,
        cache@.tidy(),
{
}

/// Removing a handle leaves those that are still held in the order in which they
/// were inserted.
pub proof fn removing_keeps_the_order(s: CacheState, key: Seq<char>, i: int, j: int) -> (r: (
    int,
    int,
))
    requires
        0 <= i < j < s.order.len(),
        s.entries.contains_key(s.order[i]),
        s.entries.contains_key(s.order[j]),
        s.order[i] != key,
        s.order[j] != key,
    ensures
        0 <= r.0 < r.1 < s.removed(key).order.len(),
        s.removed(key).order[r.0] == s.order[i],
        s.removed(key).order[r.1] == s.order[j],
{
    let entries = s.entries.remove(key);
    let live = |k: Seq<char>| entries.contains_key(k);
    if entries.len() * 2 < s.order.len() {
        lemma_filter_order(s.order, live, i, j)
    } else {
        (i, j)
    }
}

/// What a filter lets through stays in its order.
proof fn lemma_filter_order<T>(s: Seq<T>, pred: spec_fn(T) -> bool, i: int, j: int) -> (r: (
    int,
    int,
))
    requires
        0 <= i < j < s.len(),
        pred(s[i]),
        pred(s[j]),
    ensures
        0 <= r.0 < r.1 < s.filter(pred).len(),
        s.filter(pred)[r.0] == s[i],
        s.filter(pred)[r.1] == s[j],
    decreases s.len(),
{
    reveal(Seq::filter);
    let less = s.drop_last();
    if j == s.len() - 1 {
        let a = lemma_filter_behind(less, pred, i);
        (a, s.filter(pred).len() - 1)
    } else {
        lemma_filter_order(less, pred, i, j)
    }
}

/// Removing a handle cleans the order where more than half of it is without an
/// entry, and else leaves it: what stands in it then is held.
pub proof fn order_is_cleaned(cache: &mut PreparedCache, key: &str, i: int)
    requires
        old(cache)@.order.no_duplicates(),
        call_ensures(PreparedCache::remove, (cache, key), ()),
        0 <= i < final(cache)@.order.len(),
    ensures
        2 * final(cache)@.entries.len() >= old(cache)@.order.len() ==> (final(cache)@.order
            == old(cache)@.order),
        2 * final(cache)@.entries.len() < old(cache)@.order.len()
            ==> final(cache)@.entries.contains_key(final(cache)@.order[i]),
{
    let s = old(cache)@;
    let entries = s.entries.remove(key@);
    let live = |k: Seq<char>| entries.contains_key(k);
    lemma_filter_distinct(s.order, live);
}

} // verus!
