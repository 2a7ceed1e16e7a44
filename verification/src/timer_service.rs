//! The in-memory working set of the timer service: timers keyed by fire time,
//! added and removed by key, handed out in fire-time order. The working set is
//! bounded; when it is full a timer later than everything held is dropped (the
//! backing storage still holds it), and an earlier one evicts the latest held.

use vstd::prelude::*;

verus! {

/// Key of a timer: its fire time, then a sequence number to tell apart timers
/// firing at the same instant.
#[derive(Clone, Copy, Debug, PartialEq, Eq, Structural)]
pub struct TimerKey {
    pub wake_up_time: u64,
    pub seq: u64,
}

/// Key order: fire time first, sequence number second.
pub open spec fn key_le(a: TimerKey, b: TimerKey) -> bool {
    a.wake_up_time < b.wake_up_time || (a.wake_up_time == b.wake_up_time && a.seq <= b.seq)
}

/// Strict key order.
pub open spec fn key_lt(a: TimerKey, b: TimerKey) -> bool {
    key_le(a, b) && a != b
}

/// Executable twin of [`key_lt`].
pub fn timer_key_lt(a: TimerKey, b: TimerKey) -> (r: bool)
    ensures
        r == key_lt(a, b),
{
    a.wake_up_time < b.wake_up_time || (a.wake_up_time == b.wake_up_time && a.seq < b.seq)
}

/// One timer: its key and the payload fired with it.
#[derive(Debug, PartialEq, Eq)]
pub struct TimerKeyValue {
    pub key: TimerKey,
    pub payload: Vec<u8>,
}

/// View of [`TimerKeyValue`].
#[verifier::ext_equal]
pub ghost struct TimerKeyValueView {
    pub key: TimerKey,
    pub payload: Seq<u8>,
}

impl View for TimerKeyValue {
    type V = TimerKeyValueView;

    open spec fn view(&self) -> TimerKeyValueView {
        TimerKeyValueView { key: self.key, payload: self.payload@ }
    }
}

impl Clone for TimerKeyValue {
    fn clone(&self) -> (r: Self)
        ensures
            r@ == self@,
    {
        TimerKeyValue { key: self.key, payload: self.payload.clone() }
    }
}

/// The greatest key of the table, under [`key_le`].
pub open spec fn is_max_key(m: Map<TimerKey, Seq<u8>>, k: TimerKey) -> bool {
    m.contains_key(k) && forall|k2: TimerKey| #[trigger] m.contains_key(k2) ==> key_le(k2, k)
}

/// The least key of the table, under [`key_le`].
pub open spec fn is_min_key(m: Map<TimerKey, Seq<u8>>, k: TimerKey) -> bool {
    m.contains_key(k) && forall|k2: TimerKey| #[trigger] m.contains_key(k2) ==> key_le(k, k2)
}

/// Law: timers leave the working set in nondecreasing fire-time order — the
/// earliest timer of what remains after one is taken is no earlier than it.
pub proof fn lemma_fire_order(m: Map<TimerKey, Seq<u8>>, k1: TimerKey, k2: TimerKey)
    requires
        is_min_key(m, k1),
        is_min_key(m.remove(k1), k2),
    ensures
        key_le(k1, k2),
{
    assert(m.remove(k1).contains_key(k2));
    assert(m.contains_key(k2));
}

/// Bounded in-memory timer table.
#[derive(Debug)]
pub struct TimerQueue {
    entries: Vec<TimerKeyValue>,
    limit: Option<usize>,
}

impl View for TimerQueue {
    type V = Map<TimerKey, Seq<u8>>;

    closed spec fn view(&self) -> Map<TimerKey, Seq<u8>> {
        Map::new(
            |k: TimerKey| exists|i: int| 0 <= i < self.entries@.len() && self.entries@[i].key == k,
            |k: TimerKey|
                {
                    let i = choose|i: int|
                        0 <= i < self.entries@.len() && self.entries@[i].key == k;
                    self.entries@[i].payload@
                },
        )
    }
}

impl TimerQueue {
    /// How many timers are held in memory.
    pub closed spec fn count(self) -> nat {
        self.entries@.len()
    }

    /// The bound this queue was made with.
    pub closed spec fn spec_limit(self) -> Option<usize> {
        self.limit
    }

    /// Whether the working set cannot take one more timer.
    pub open spec fn at_capacity(self) -> bool {
        match self.spec_limit() {
            Some(l) => self.count() >= l,
            None => false,
        }
    }

    /// Well-formed: one payload per key, and the bound is honored.
    #[verifier::type_invariant]
    closed spec fn wf(self) -> bool {
        &&& forall|i: int, j: int|
            0 <= i < j < self.entries@.len() ==> self.entries@[i].key != self.entries@[j].key
        &&& match self.limit {
            Some(l) => self.entries@.len() <= l,
            None => true,
        }
    }

    proof fn lemma_view_at(self, i: int)
        requires
            self.wf(),
            0 <= i < self.entries@.len(),
        ensures
            self@.contains_key(self.entries@[i].key),
            self@[self.entries@[i].key] == self.entries@[i].payload@,
    {
        let k = self.entries@[i].key;
        assert(self@.contains_key(k));
        let j = choose|j: int| 0 <= j < self.entries@.len() && self.entries@[j].key == k;
        if j < i {
            assert(self.entries@[j].key != self.entries@[i].key);
        } else if i < j {
            assert(self.entries@[i].key != self.entries@[j].key);
        }
    }

    /// An empty queue bounded by `limit`.
    pub fn new(limit: Option<usize>) -> (r: Self)
        ensures
            r@ == Map::<TimerKey, Seq<u8>>::empty(),
            r.spec_limit() == limit,
            r.count() == 0,
    {
        let r = TimerQueue { entries: Vec::new(), limit };
        proof {
            assert(r@ =~= Map::<TimerKey, Seq<u8>>::empty());
        }
        r
    }

    /// Index of the timer with this key, if held.
    fn index_of(&self, key: TimerKey) -> (r: Option<usize>)
        ensures
            match r {
                Some(i) => i < self.entries@.len() && self.entries@[i as int].key == key,
                None => !self@.contains_key(key),
            },
    {
        let n = self.entries.len();
        let mut i: usize = 0;
        while i < n
            invariant
                i <= n,
                n == self.entries@.len(),
                forall|j: int| 0 <= j < i ==> self.entries@[j].key != key,
            decreases n - i,
        {
            if self.entries[i].key == key {
                return Some(i);
            }
            i += 1;
        }
        None
    }

    /// Index of the latest timer held; `None` exactly when the queue is empty.
    fn index_of_max(&self) -> (r: Option<usize>)
        ensures
            match r {
                Some(i) => i < self.entries@.len() && is_max_key(self@, self.entries@[i as int].key),
                None => self.entries@.len() == 0,
            },
    {
        proof {
            use_type_invariant(&*self);
        }
        let n = self.entries.len();
        if n == 0 {
            return None;
        }
        let mut best: usize = 0;
        let mut i: usize = 1;
        while i < n
            invariant
                1 <= i <= n,
                best < i,
                n == self.entries@.len(),
                forall|j: int| 0 <= j < i ==> key_le(self.entries@[j].key, self.entries@[best as int].key),
            decreases n - i,
        {
            if timer_key_lt(self.entries[best].key, self.entries[i].key) {
                best = i;
            }
            i += 1;
        }
        proof {
            self.lemma_view_at(best as int);
            assert forall|k2: TimerKey| #[trigger] self@.contains_key(k2) implies key_le(
                k2,
                self.entries@[best as int].key,
            ) by {
                let j = choose|j: int| 0 <= j < self.entries@.len() && self.entries@[j].key == k2;
            }
        }
        Some(best)
    }

    /// Index of the earliest timer held; `None` exactly when the queue is
    /// empty.
    fn index_of_min(&self) -> (r: Option<usize>)
        ensures
            match r {
                Some(i) => i < self.entries@.len() && is_min_key(self@, self.entries@[i as int].key),
                None => self.entries@.len() == 0,
            },
    {
        proof {
            use_type_invariant(&*self);
        }
        let n = self.entries.len();
        if n == 0 {
            return None;
        }
        let mut best: usize = 0;
        let mut i: usize = 1;
        while i < n
            invariant
                1 <= i <= n,
                best < i,
                n == self.entries@.len(),
                forall|j: int| 0 <= j < i ==> key_le(self.entries@[best as int].key, self.entries@[j].key),
            decreases n - i,
        {
            if timer_key_lt(self.entries[i].key, self.entries[best].key) {
                best = i;
            }
            i += 1;
        }
        proof {
            self.lemma_view_at(best as int);
            assert forall|k2: TimerKey| #[trigger] self@.contains_key(k2) implies key_le(
                self.entries@[best as int].key,
                k2,
            ) by {
                let j = choose|j: int| 0 <= j < self.entries@.len() && self.entries@[j].key == k2;
            }
        }
        Some(best)
    }

    /// Delete the timer at this index.
    fn remove_at(&mut self, i: usize) -> (r: TimerKeyValue)
        requires
            i < old(self).count(),
        ensures
            r@.key == old(self).entries_key_at(i as int),
            old(self)@.contains_key(r@.key),
            r@.payload == old(self)@[r@.key],
            final(self)@ == old(self)@.remove(r@.key),
            final(self).count() == old(self).count() - 1,
            final(self).spec_limit() == old(self).spec_limit(),
    {
        proof {
            use_type_invariant(&*self);
        }
        let ghost pre = *self;
        let limit = self.limit;
        let mut tmp = TimerQueue { entries: Vec::new(), limit };
        core::mem::swap(&mut tmp, self);
        let TimerQueue { mut entries, limit } = tmp;
        let r = entries.remove(i);
        proof {
            assert forall|a: int, b: int|
                0 <= a < b < entries@.len() implies entries@[a].key != entries@[b].key by {
                let a0: int = if a < i { a } else { a + 1 };
                let b0: int = if b < i { b } else { b + 1 };
                assert(entries@[a] == pre.entries@[a0]);
                assert(entries@[b] == pre.entries@[b0]);
            }
        }
        *self = TimerQueue { entries, limit };
        proof {
            let k = r@.key;
            pre.lemma_view_at(i as int);
            assert forall|k2: TimerKey| #[trigger] self@.contains_key(k2) implies pre@.remove(
                k,
            ).contains_key(k2) && self@[k2] == pre@.remove(k)[k2] by {
                let j = choose|j: int| 0 <= j < self.entries@.len() && self.entries@[j].key == k2;
                let j0: int = if j < i { j } else { j + 1 };
                assert(self.entries@[j] == pre.entries@[j0]);
                pre.lemma_view_at(j0);
                self.lemma_view_at(j);
                if j0 < i {
                    assert(pre.entries@[j0].key != pre.entries@[i as int].key);
                } else {
                    assert(pre.entries@[i as int].key != pre.entries@[j0].key);
                }
            }
            assert forall|k2: TimerKey| pre@.remove(k).contains_key(k2) implies self@.contains_key(
                k2,
            ) by {
                let j0 = choose|j0: int|
                    0 <= j0 < pre.entries@.len() && pre.entries@[j0].key == k2;
                if j0 < i {
                    assert(pre.entries@[j0].key != pre.entries@[i as int].key);
                    assert(self.entries@[j0].key == k2);
                } else {
                    assert(pre.entries@[i as int].key != pre.entries@[j0].key);
                    assert(self.entries@[j0 - 1] == pre.entries@[j0]);
                }
            }
            assert(self@ =~= pre@.remove(k));
        }
        r
    }

    /// Key of the entry at this index (specification helper).
    closed spec fn entries_key_at(self, i: int) -> TimerKey {
        self.entries@[i].key
    }

    /// Add a timer. A timer under a held key replaces it. Otherwise, when the
    /// working set is full, a timer no earlier than everything held is dropped
    /// — the backing storage keeps it — and an earlier one evicts the latest
    /// held timer.
    pub fn add_timer(&mut self, timer: TimerKeyValue)
        ensures
            old(self)@.contains_key(timer@.key) ==> final(self)@ == old(self)@.insert(
                timer@.key,
                timer@.payload,
            ),
            !old(self)@.contains_key(timer@.key) && !old(self).at_capacity() ==> final(self)@ == old(
                self,
            )@.insert(timer@.key, timer@.payload),
            !old(self)@.contains_key(timer@.key) && old(self).at_capacity() ==> forall|m: TimerKey|
                is_max_key(old(self)@, m) ==> final(self)@ == (if key_lt(timer@.key, m) {
                    old(self)@.remove(m).insert(timer@.key, timer@.payload)
                } else {
                    old(self)@
                }),
            old(self)@.contains_key(timer@.key) ==> final(self).count() == old(self).count(),
            !old(self)@.contains_key(timer@.key) && !old(self).at_capacity() ==> final(self).count()
                == old(self).count() + 1,
            !old(self)@.contains_key(timer@.key) && old(self).at_capacity() ==> final(self).count()
                == old(self).count(),
            !old(self)@.contains_key(timer@.key) && old(self).at_capacity() && old(self).count()
                == 0 ==> *final(self) == *old(self),
            !old(self)@.contains_key(timer@.key) && old(self).at_capacity() && old(self).count()
                > 0 ==> exists|m: TimerKey| is_max_key(old(self)@, m),
            final(self).spec_limit() == old(self).spec_limit(),
    {
        proof {
            use_type_invariant(&*self);
        }
        let ghost pre = *self;
        match self.index_of(timer.key) {
            Some(i) => {
                let _ = self.remove_at(i);
                proof {
                    use_type_invariant(&*self);
                    assert(!self.at_capacity());
                }
                self.push_fresh(timer);
                proof {
                    assert(self@ =~= pre@.insert(timer@.key, timer@.payload));
                }
            },
            None => {
                let full = match self.limit {
                    Some(l) => self.entries.len() >= l,
                    None => false,
                };
                if !full {
                    self.push_fresh(timer);
                } else {
                    match self.index_of_max() {
                        None => {
                            proof {
                                assert(pre.at_capacity());
                                assert(pre.spec_limit() matches Some(l) && l == 0);
                                assert forall|m: TimerKey| is_max_key(pre@, m) implies false by {}
                            }
                        },
                        Some(mi) => {
                            let ghost maxk = self.entries@[mi as int].key;
                            if timer_key_lt(timer.key, self.entries[mi].key) {
                                let _ = self.remove_at(mi);
                                proof {
                                    use_type_invariant(&*self);
                                }
                                self.push_fresh(timer);
                                proof {
                                    assert forall|m: TimerKey| is_max_key(pre@, m) implies final_eq_evict(
                                        pre@,
                                        self@,
                                        timer@,
                                        m,
                                    ) by {
                                        assert(key_le(m, maxk) && key_le(maxk, m));
                                        assert(m == maxk) by {
                                            if m != maxk {
                                                assert(key_lt(m, maxk) && key_lt(maxk, m));
                                            }
                                        }
                                    }
                                }
                            } else {
                                proof {
                                    assert forall|m: TimerKey| is_max_key(pre@, m) implies !key_lt(
                                        timer@.key,
                                        m,
                                    ) by {
                                        assert(key_le(m, maxk) && key_le(maxk, m));
                                        assert(m == maxk) by {
                                            if m != maxk {
                                                assert(key_lt(m, maxk) && key_lt(maxk, m));
                                            }
                                        }
                                    }
                                }
                            }
                        },
                    }
                }
            },
        }
    }

    /// Append a timer whose key is fresh and for which room exists.
    fn push_fresh(&mut self, timer: TimerKeyValue)
        requires
            !old(self)@.contains_key(timer@.key),
            !old(self).at_capacity(),
        ensures
            final(self)@ == old(self)@.insert(timer@.key, timer@.payload),
            final(self).count() == old(self).count() + 1,
            final(self).spec_limit() == old(self).spec_limit(),
    {
        proof {
            use_type_invariant(&*self);
        }
        let ghost pre = *self;
        let limit = self.limit;
        let mut tmp = TimerQueue { entries: Vec::new(), limit };
        core::mem::swap(&mut tmp, self);
        let TimerQueue { mut entries, limit } = tmp;
        let ghost kview = timer@.key;
        entries.push(timer);
        proof {
            let n = pre.entries@.len() as int;
            assert forall|a: int, b: int|
                0 <= a < b < entries@.len() implies entries@[a].key != entries@[b].key by {
                if b == n {
                    pre.lemma_view_at(a);
                    assert(pre@.contains_key(pre.entries@[a].key));
                }
            }
        }
        *self = TimerQueue { entries, limit };
        proof {
            let n = pre.entries@.len() as int;
            assert forall|k2: TimerKey| #[trigger] self@.contains_key(k2) implies pre@.insert(
                kview,
                timer@.payload,
            ).contains_key(k2) && self@[k2] == pre@.insert(kview, timer@.payload)[k2] by {
                if k2 == kview {
                    assert(self.entries@[n].key == k2);
                    self.lemma_view_at(n);
                } else {
                    let j = choose|j: int|
                        0 <= j < self.entries@.len() && self.entries@[j].key == k2;
                    assert(j != n);
                    assert(pre.entries@[j].key == k2);
                    pre.lemma_view_at(j);
                    self.lemma_view_at(j);
                }
            }
            assert forall|k2: TimerKey| pre@.insert(kview, timer@.payload).contains_key(
                k2,
            ) implies self@.contains_key(k2) by {
                if k2 == kview {
                    assert(self.entries@[n].key == k2);
                } else {
                    let j = choose|j: int|
                        0 <= j < pre.entries@.len() && pre.entries@[j].key == k2;
                    assert(self.entries@[j].key == k2);
                }
            }
            assert(self@ =~= pre@.insert(kview, timer@.payload));
        }
    }

    /// Delete the timer with this key, if held.
    pub fn remove_timer(&mut self, key: TimerKey)
        ensures
            final(self)@ == old(self)@.remove(key),
            old(self)@.contains_key(key) ==> final(self).count() == old(self).count() - 1,
            !old(self)@.contains_key(key) ==> *final(self) == *old(self),
            final(self).spec_limit() == old(self).spec_limit(),
    {
        proof {
            use_type_invariant(&*self);
        }
        let ghost pre = *self;
        match self.index_of(key) {
            Some(i) => {
                let _ = self.remove_at(i);
            },
            None => {
                proof {
                    assert(self@ =~= pre@.remove(key));
                }
            },
        }
    }

    /// Take the earliest timer, if any: the one every held timer is no earlier
    /// than, leaving the rest.
    pub fn pop_next(&mut self) -> (r: Option<TimerKeyValue>)
        ensures
            match r {
                Some(timer) => {
                    &&& is_min_key(old(self)@, timer@.key)
                    &&& timer@.payload == old(self)@[timer@.key]
                    &&& final(self)@ == old(self)@.remove(timer@.key)
                    &&& final(self).count() == old(self).count() - 1
                },
                None => old(self)@ =~= Map::<TimerKey, Seq<u8>>::empty() && *final(self) == *old(
                    self,
                ),
            },
            final(self).spec_limit() == old(self).spec_limit(),
    {
        proof {
            use_type_invariant(&*self);
        }
        match self.index_of_min() {
            None => {
                proof {
                    assert forall|k: TimerKey| !(#[trigger] self@.contains_key(k)) by {}
                    assert(self@ =~= Map::<TimerKey, Seq<u8>>::empty());
                }
                None
            },
            Some(i) => Some(self.remove_at(i)),
        }
    }
}

/// Shape of the working set after an eviction (specification helper).
pub open spec fn final_eq_evict(
    pre: Map<TimerKey, Seq<u8>>,
    post: Map<TimerKey, Seq<u8>>,
    timer: TimerKeyValueView,
    m: TimerKey,
) -> bool {
    post == (if key_lt(timer.key, m) {
        pre.remove(m).insert(timer.key, timer.payload)
    } else {
        pre
    })
}

} // verus!
