//! Association maps keyed by string content, with a deterministic iteration
//! order (insertion order). The schema catalog needs ordered walks over its
//! entries — endpoint searches and handler diffs — which rules out hash maps,
//! so the entries live in a pair of vectors.

use vstd::prelude::*;

verus! {

/// Map from strings to values. Keys are compared by content; entries keep
/// their insertion order, which [`StrMap::key_seq`] exposes.
#[derive(Debug)]
pub struct StrMap<V> {
    keys: Vec<String>,
    vals: Vec<V>,
}

impl<V: View> View for StrMap<V> {
    type V = Map<Seq<char>, V::V>;

    closed spec fn view(&self) -> Map<Seq<char>, V::V> {
        Map::new(
            |k: Seq<char>| exists|i: int| 0 <= i < self.keys@.len() && self.keys@[i]@ == k,
            |k: Seq<char>|
                {
                    let i = choose|i: int| 0 <= i < self.keys@.len() && self.keys@[i]@ == k;
                    self.vals@[i]@
                },
        )
    }
}

impl<V> StrMap<V> {
    /// Keys in insertion order.
    pub closed spec fn key_seq(self) -> Seq<Seq<char>> {
        self.keys@.map_values(|k: String| k@)
    }

    /// Well-formed: one value per key, all keys distinct.
    #[verifier::type_invariant]
    pub closed spec fn wf(self) -> bool {
        &&& self.keys@.len() == self.vals@.len()
        &&& forall|i: int, j: int|
            0 <= i < j < self.keys@.len() ==> self.keys@[i]@ != self.keys@[j]@
    }
}

impl<V: View> StrMap<V> {

    proof fn lemma_view_at(self, i: int)
        requires
            self.wf(),
            0 <= i < self.keys@.len(),
        ensures
            self@.contains_key(self.keys@[i]@),
            self@[self.keys@[i]@] == self.vals@[i]@,
    {
        let k = self.keys@[i]@;
        assert(self@.contains_key(k));
        let j = choose|j: int| 0 <= j < self.keys@.len() && self.keys@[j]@ == k;
        if j < i {
            assert(self.keys@[j]@ != self.keys@[i]@);
        } else if i < j {
            assert(self.keys@[i]@ != self.keys@[j]@);
        }
        assert(j == i);
    }

    /// Every position of `key_seq` holds a distinct key of the view, and every
    /// key of the view stands somewhere in `key_seq`.
    pub proof fn lemma_key_seq(self)
        requires
            self.wf(),
        ensures
            forall|i: int, j: int|
                0 <= i < j < self.key_seq().len() ==> self.key_seq()[i] != self.key_seq()[j],
            forall|i: int|
                0 <= i < self.key_seq().len() ==> #[trigger] self@.contains_key(self.key_seq()[i]),
            forall|k: Seq<char>| #[trigger] self@.contains_key(k) ==> self.key_seq().contains(k),
    {
        assert forall|i: int| 0 <= i < self.key_seq().len() implies #[trigger] self@.contains_key(
            self.key_seq()[i],
        ) by {
            self.lemma_view_at(i);
        }
        assert forall|k: Seq<char>| #[trigger] self@.contains_key(k) implies self.key_seq().contains(
            k,
        ) by {
            let i = choose|i: int| 0 <= i < self.keys@.len() && self.keys@[i]@ == k;
            assert(self.key_seq()[i] == k);
        }
    }

    /// Empty map.
    pub fn new() -> (r: Self)
        ensures
            r@ == Map::<Seq<char>, V::V>::empty(),
            r.key_seq() == Seq::<Seq<char>>::empty(),
    {
        let r = StrMap { keys: Vec::new(), vals: Vec::new() };
        proof {
            assert(r@ =~= Map::<Seq<char>, V::V>::empty());
            assert(r.key_seq() =~= Seq::<Seq<char>>::empty());
        }
        r
    }

    /// Index of the entry whose key equals `k`, if one exists.
    fn index_of(&self, k: &String) -> (r: Option<usize>)
        ensures
            match r {
                Some(i) => i < self.keys@.len() && self.keys@[i as int]@ == k@,
                None => !self@.contains_key(k@),
            },
    {
        let n = self.keys.len();
        let mut i: usize = 0;
        while i < n
            invariant
                n == self.keys@.len(),
                i <= n,
                forall|j: int| 0 <= j < i ==> self.keys@[j]@ != k@,
            decreases n - i,
        {
            if self.keys[i] == *k {
                return Some(i);
            }
            i += 1;
        }
        None
    }

    /// Number of entries.
    pub fn len(&self) -> (n: usize)
        ensures
            n == self.key_seq().len(),
    {
        self.keys.len()
    }

    /// Key of the entry at position `i` of the insertion order.
    pub fn key_at(&self, i: usize) -> (r: &String)
        requires
            i < self.key_seq().len(),
        ensures
            r@ == self.key_seq()[i as int],
    {
        &self.keys[i]
    }

    /// Value of the entry at position `i` of the insertion order.
    pub fn val_at(&self, i: usize) -> (r: &V)
        requires
            i < self.key_seq().len(),
        ensures
            self@.contains_key(self.key_seq()[i as int]),
            r@ == self@[self.key_seq()[i as int]],
    {
        proof {
            use_type_invariant(&*self);
            self.lemma_view_at(i as int);
        }
        &self.vals[i]
    }

    /// Whether an entry with key `k` exists.
    pub fn contains_key(&self, k: &String) -> (r: bool)
        ensures
            r == self@.contains_key(k@),
    {
        match self.index_of(k) {
            Some(i) => {
                proof {
                    use_type_invariant(&*self);
                    self.lemma_view_at(i as int);
                }
                true
            },
            None => false,
        }
    }

    /// The value stored under `k`, if any.
    pub fn get<'a>(&'a self, k: &String) -> (r: Option<&'a V>)
        ensures
            match r {
                Some(v) => self@.contains_key(k@) && v@ == self@[k@],
                None => !self@.contains_key(k@),
            },
    {
        match self.index_of(k) {
            Some(i) => {
                proof {
                    use_type_invariant(&*self);
                    self.lemma_view_at(i as int);
                }
                Some(&self.vals[i])
            },
            None => None,
        }
    }

    /// Store `v` under `k`, replacing any previous value. A replaced key keeps
    /// its position; a new key goes to the end of the order.
    pub fn insert(&mut self, k: String, v: V)
        ensures
            final(self)@ == old(self)@.insert(k@, v@),
            old(self)@.contains_key(k@) ==> final(self).key_seq() == old(self).key_seq(),
            !old(self)@.contains_key(k@) ==> final(self).key_seq() == old(self).key_seq().push(k@),
    {
        proof {
            use_type_invariant(&*self);
        }
        let ghost pre = *self;
        let ghost kview = k@;
        let idx = self.index_of(&k);
        let mut tmp = StrMap { keys: Vec::new(), vals: Vec::new() };
        core::mem::swap(&mut tmp, self);
        let StrMap { mut keys, mut vals } = tmp;
        match idx {
            Some(i) => {
                vals[i] = v;
            },
            None => {
                keys.push(k);
                vals.push(v);
            },
        }
        *self = StrMap { keys, vals };
        proof {
            match idx {
                Some(i) => {
                    pre.lemma_view_at(i as int);
                    assert(self.key_seq() =~= pre.key_seq());
                    assert forall|k2: Seq<char>| #[trigger] self@.contains_key(k2) implies self@[k2]
                        == pre@.insert(kview, v@)[k2] by {
                        if k2 == kview {
                            self.lemma_view_at(i as int);
                        } else {
                            let j = choose|j: int|
                                0 <= j < pre.keys@.len() && pre.keys@[j]@ == k2;
                            pre.lemma_view_at(j);
                            self.lemma_view_at(j);
                            if j < i {
                                assert(pre.keys@[j]@ != pre.keys@[i as int]@);
                            } else if i < j {
                                assert(pre.keys@[i as int]@ != pre.keys@[j]@);
                            }
                            assert(j != i);
                        }
                    }
                    assert(self@ =~= pre@.insert(kview, v@));
                },
                None => {
                    let n = pre.keys@.len() as int;
                    assert(self.key_seq() =~= pre.key_seq().push(kview));
                    assert forall|k2: Seq<char>| #[trigger] self@.contains_key(k2) implies pre@.insert(
                        kview,
                        v@,
                    ).contains_key(k2) && self@[k2] == pre@.insert(kview, v@)[k2] by {
                        if k2 == kview {
                            assert(self.keys@[n]@ == k2);
                            self.lemma_view_at(n);
                        } else {
                            let j = choose|j: int|
                                0 <= j < self.keys@.len() && self.keys@[j]@ == k2;
                            assert(j != n);
                            assert(pre.keys@[j]@ == k2);
                            pre.lemma_view_at(j);
                            self.lemma_view_at(j);
                        }
                    }
                    assert forall|k2: Seq<char>| pre@.insert(kview, v@).contains_key(k2) implies
                        self@.contains_key(k2) by {
                        if k2 == kview {
                            assert(self.keys@[n]@ == k2);
                        } else {
                            let j = choose|j: int|
                                0 <= j < pre.keys@.len() && pre.keys@[j]@ == k2;
                            assert(self.keys@[j]@ == k2);
                        }
                    }
                    assert(self@ =~= pre@.insert(kview, v@));
                },
            }
        }
    }

    /// Delete the entry with key `k` and hand its value back. The remaining
    /// entries keep their relative order.
    pub fn remove(&mut self, k: &String) -> (r: Option<V>)
        ensures
            final(self)@ == old(self)@.remove(k@),
            match r {
                Some(v) => old(self)@.contains_key(k@) && v@ == old(self)@[k@],
                None => !old(self)@.contains_key(k@) && *final(self) == *old(self),
            },
    {
        proof {
            use_type_invariant(&*self);
        }
        let ghost pre = *self;
        let idx = self.index_of(k);
        match idx {
            Some(i) => {
                let mut tmp = StrMap { keys: Vec::new(), vals: Vec::new() };
                core::mem::swap(&mut tmp, self);
                let StrMap { mut keys, mut vals } = tmp;
                let _removed_key = keys.remove(i);
                let v = vals.remove(i);
                proof {
                    assert forall|a: int, b: int|
                        0 <= a < b < keys@.len() implies keys@[a]@ != keys@[b]@ by {
                        let a0: int = if a < i { a } else { a + 1 };
                        let b0: int = if b < i { b } else { b + 1 };
                        assert(keys@[a] == pre.keys@[a0]);
                        assert(keys@[b] == pre.keys@[b0]);
                    }
                }
                *self = StrMap { keys, vals };
                proof {
                    pre.lemma_view_at(i as int);
                    assert forall|k2: Seq<char>| #[trigger] self@.contains_key(k2) implies pre@.remove(
                        k@,
                    ).contains_key(k2) && self@[k2] == pre@.remove(k@)[k2] by {
                        let j = choose|j: int| 0 <= j < self.keys@.len() && self.keys@[j]@ == k2;
                        let j0: int = if j < i { j } else { j + 1 };
                        assert(self.keys@[j] == pre.keys@[j0]);
                        assert(self.vals@[j] == pre.vals@[j0]);
                        pre.lemma_view_at(j0);
                        self.lemma_view_at(j);
                        if j0 < i {
                            assert(pre.keys@[j0]@ != pre.keys@[i as int]@);
                        } else {
                            assert(pre.keys@[i as int]@ != pre.keys@[j0]@);
                        }
                    }
                    assert forall|k2: Seq<char>| pre@.remove(k@).contains_key(k2) implies
                        self@.contains_key(k2) by {
                        let j0 = choose|j0: int|
                            0 <= j0 < pre.keys@.len() && pre.keys@[j0]@ == k2;
                        if j0 < i {
                            assert(pre.keys@[j0]@ != pre.keys@[i as int]@);
                            assert(self.keys@[j0]@ == k2);
                        } else {
                            assert(pre.keys@[i as int]@ != pre.keys@[j0]@);
                            assert(j0 != i);
                            assert(self.keys@[j0 - 1] == pre.keys@[j0]);
                            assert(self.keys@[j0 - 1]@ == k2);
                        }
                    }
                    assert(self@ =~= pre@.remove(k@));
                }
                Some(v)
            },
            None => {
                proof {
                    assert(self@ =~= pre@.remove(k@));
                }
                None
            },
        }
    }
}

} // verus!
