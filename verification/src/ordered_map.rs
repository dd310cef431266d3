//! A map keyed by object identifier that keeps its keys in ascending order.
//!
//! The standard ordered map finds its keys through their `Ord`, and what it
//! holds is known to the verifier only for keys whose `Ord` it knows. The
//! derived `Ord` of [`ObjectId`] is not read, so this map compares with
//! [`ObjectId::less_than`] and carries the order as its own invariant.
use vstd::prelude::*;
use crate::object::ObjectId;

verus! {

/// Whether every identifier of `s` comes strictly before those after it.
pub open spec fn strictly_ascending(s: Seq<ObjectId>) -> bool {
    forall|i: int, j: int| 0 <= i < j < s.len() ==> s[i].precedes(s[j])
}

/// In a strictly ascending sequence each identifier stands at one place only.
pub proof fn lemma_ascending_index(s: Seq<ObjectId>, i: int)
    requires
        strictly_ascending(s),
        0 <= i < s.len(),
    ensures
        s.contains(s[i]),
        s.index_of(s[i]) == i,
{
    let j = s.index_of(s[i]);
    assert(0 <= j < s.len() && s[j] == s[i]);
    if j < i {
        assert(s[j].precedes(s[i]));
    } else if i < j {
        assert(s[i].precedes(s[j]));
    }
}

/// A map from object identifiers to values, held as two columns of equal
/// length with the keys in strictly ascending order.
pub struct OrderedMap<T> {
    pub keys: Vec<ObjectId>,
    pub vals: Vec<T>,
}

impl<T> View for OrderedMap<T> {
    type V = Map<ObjectId, T>;

    open spec fn view(&self) -> Map<ObjectId, T> {
        Map::new(
            |k: ObjectId| self.keys@.contains(k),
            |k: ObjectId| self.vals@[self.keys@.index_of(k)],
        )
    }
}

impl<T> OrderedMap<T> {
    /// The invariant: one value per key, keys strictly ascending.
    pub open spec fn wf(&self) -> bool {
        &&& self.keys@.len() == self.vals@.len()
        &&& strictly_ascending(self.keys@)
    }

    /// The empty map.
    pub fn new() -> (m: Self)
        ensures
            m.wf(),
            m@ == Map::<ObjectId, T>::empty(),
            m.keys@.len() == 0,
    {
        let m = OrderedMap { keys: Vec::new(), vals: Vec::new() };
        assert(m@ =~= Map::<ObjectId, T>::empty());
        m
    }

    /// Looks `key` up by bisection. Returns its place and `true` where the
    /// map holds it, else the place where it would have to be put, and `false`.
    pub fn search(&self, key: &ObjectId) -> (r: (usize, bool))
        requires
            self.wf(),
        ensures
            r.0 <= self.keys@.len(),
            r.1 ==> r.0 < self.keys@.len() && self.keys@[r.0 as int] == *key,
            !r.1 ==> !self.keys@.contains(*key),
            !r.1 ==> forall|i: int| 0 <= i < r.0 ==> self.keys@[i].precedes(*key),
            !r.1 ==> forall|i: int| r.0 <= i < self.keys@.len() ==> key.precedes(self.keys@[i]),
            r.1 == self@.contains_key(*key),
    {
        let mut lo: usize = 0;
        let mut hi: usize = self.keys.len();
        while lo < hi
            invariant
                self.wf(),
                lo <= hi <= self.keys@.len(),
                forall|i: int| 0 <= i < lo ==> self.keys@[i].precedes(*key),
                forall|i: int| hi <= i < self.keys@.len() ==> key.precedes(self.keys@[i]),
            decreases hi - lo,
        {
            let mid: usize = lo + (hi - lo) / 2;
            let probe: ObjectId = self.keys[mid];
            if probe == *key {
                return (mid, true);
            } else if probe.less_than(key) {
                assert forall|i: int| 0 <= i < mid + 1 implies self.keys@[i].precedes(*key) by {
                    if i < mid {
                        assert(self.keys@[i].precedes(self.keys@[mid as int]));
                    }
                }
                lo = mid + 1;
            } else {
                assert forall|i: int| mid <= i < self.keys@.len() implies key.precedes(self.keys@[i]) by {
                    if mid < i {
                        assert(self.keys@[mid as int].precedes(self.keys@[i]));
                    }
                }
                hi = mid;
            }
        }
        (lo, false)
    }

    /// Whether the map holds `key`.
    pub fn contains_key(&self, key: &ObjectId) -> (r: bool)
        requires
            self.wf(),
        ensures
            r == self@.contains_key(*key),
    {
        self.search(key).1
    }

    /// The value under `key`, if the map holds it.
    pub fn get(&self, key: &ObjectId) -> (r: Option<&T>)
        requires
            self.wf(),
        ensures
            r.is_some() == self@.contains_key(*key),
            r.is_some() ==> *r.unwrap() == self@[*key],
    {
        let (at, found) = self.search(key);
        if found {
            proof {
                lemma_ascending_index(self.keys@, at as int);
            }
            Some(&self.vals[at])
        } else {
            None
        }
    }

    /// Puts `value` under `key`, in place of what stood there if anything did.
    pub fn insert(&mut self, key: ObjectId, value: T)
        requires
            old(self).wf(),
        ensures
            final(self).wf(),
            final(self)@ == old(self)@.insert(key, value),
            final(self).keys@.len() == old(self).keys@.len() + (if old(self)@.contains_key(key) {
                0int
            } else {
                1int
            }),
    {
        let (at, found) = self.search(&key);
        let ghost before = *self;
        if found {
            self.vals.set(at, value);
            proof {
                assert forall|k: ObjectId| self.keys@.contains(k) implies #[trigger] self@[k]
                    == before@.insert(key, value)[k] by {
                    let i = self.keys@.index_of(k);
                    lemma_ascending_index(self.keys@, i);
                    lemma_ascending_index(self.keys@, at as int);
                }
                assert(self@ =~= before@.insert(key, value));
            }
        } else {
            self.keys.insert(at, key);
            self.vals.insert(at, value);
            proof {
                let old_keys = before.keys@;
                let new_keys = self.keys@;
                assert(new_keys.len() == old_keys.len() + 1);
                assert(forall|i: int| 0 <= i < at ==> new_keys[i] == old_keys[i]);
                assert(new_keys[at as int] == key);
                assert(forall|i: int| at < i < new_keys.len() ==> new_keys[i] == old_keys[i - 1]);
                assert forall|i: int, j: int| 0 <= i < j < new_keys.len() implies new_keys[i].precedes(
                    new_keys[j],
                ) by {
                    if j < at {
                        assert(old_keys[i].precedes(old_keys[j]));
                    } else if j == at {
                        assert(old_keys[i].precedes(key));
                    } else if i < at {
                        assert(old_keys[i].precedes(old_keys[j - 1]));
                    } else if i == at {
                        assert(key.precedes(old_keys[j - 1]));
                    } else {
                        assert(old_keys[i - 1].precedes(old_keys[j - 1]));
                    }
                }
                assert forall|k: ObjectId| old_keys.contains(k) implies new_keys.contains(k) by {
                    let i = old_keys.index_of(k);
                    if i < at {
                        assert(new_keys[i] == k);
                    } else {
                        assert(new_keys[i + 1] == k);
                    }
                }
                assert forall|k: ObjectId| new_keys.contains(k) implies k == key
                    || old_keys.contains(k) by {
                    let i = new_keys.index_of(k);
                    if i < at {
                        assert(old_keys[i] == k);
                    } else if i > at {
                        assert(old_keys[i - 1] == k);
                    }
                }
                assert(new_keys.contains(key));
                assert forall|k: ObjectId| new_keys.contains(k) implies #[trigger] self@[k]
                    == before@.insert(key, value)[k] by {
                    let i = new_keys.index_of(k);
                    lemma_ascending_index(new_keys, i);
                    if i < at {
                        lemma_ascending_index(old_keys, i);
                    } else if i > at {
                        lemma_ascending_index(old_keys, i - 1);
                    }
                }
                assert(self@ =~= before@.insert(key, value));
            }
        }
    }

    /// The values, in ascending order of their keys.
    pub fn into_values(self) -> (v: Vec<T>)
        ensures
            v@ == self.vals@,
            self.wf() ==> forall|i: int|
                0 <= i < v@.len() ==> #[trigger] v@[i] == self@[self.keys@[i]],
    {
        proof {
            if self.wf() {
                assert forall|i: int| 0 <= i < self.vals@.len() implies #[trigger] self.vals@[i]
                    == self@[self.keys@[i]] by {
                    lemma_ascending_index(self.keys@, i);
                }
            }
        }
        self.vals
    }
}

} // verus!
