//! A map from public keys, held in the order of the keys' bytes.

use vstd::prelude::*;
use vstd::set_lib::*;

use crate::key::{PubKey, bytes_before, key_len, key_order_is_total, key_order_is_transitive};

verus! {

broadcast use key_len;

/// A map from public keys to values of type `V`.
pub struct KeyMap<V> {
    entries: Vec<(PubKey, V)>,
}

/// Keys in strictly ascending order.
pub open spec fn ascending(ks: Seq<Seq<u8>>) -> bool {
    forall|i: int, j: int|
        0 <= i < j < ks.len() ==> bytes_before(#[trigger] ks[i], #[trigger] ks[j])
}

/// Every key is 32 bytes long.
pub open spec fn all_keys(ks: Seq<Seq<u8>>) -> bool {
    forall|i: int| 0 <= i < ks.len() ==> (#[trigger] ks[i]).len() == 32
}

/// The map that pairs each key with the value at its position.
pub open spec fn paired<V>(ks: Seq<Seq<u8>>, vs: Seq<V>) -> Map<Seq<u8>, V> {
    Map::new(|k: Seq<u8>| ks.contains(k), |k: Seq<u8>| vs[position(ks, k)])
}

/// Where a key stands in a list of keys.
pub open spec fn position(ks: Seq<Seq<u8>>, k: Seq<u8>) -> int {
    choose|i: int| 0 <= i < ks.len() && ks[i] == k
}

/// In an ascending list a key stands in one place only.
pub proof fn position_is_unique(ks: Seq<Seq<u8>>, i: int)
    requires
        ascending(ks),
        0 <= i < ks.len(),
    ensures
        position(ks, ks[i]) == i,
        ks.contains(ks[i]),
{
    let j = position(ks, ks[i]);
    assert(0 <= j < ks.len() && ks[j] == ks[i]) by {
        assert(0 <= i < ks.len() && ks[i] == ks[i]);
    }
    key_order_is_total(ks[i], ks[i]);
    if i < j {
        assert(bytes_before(ks[i], ks[j]));
    }
    if j < i {
        assert(bytes_before(ks[j], ks[i]));
    }
}

impl<V> KeyMap<V> {
    /// The keys in ascending order.
    pub closed spec fn keys(&self) -> Seq<Seq<u8>> {
        Seq::new(self.entries@.len(), |i: int| self.entries@[i].0@)
    }

    /// The values, in the order of their keys.
    pub closed spec fn values(&self) -> Seq<V> {
        Seq::new(self.entries@.len(), |i: int| self.entries@[i].1)
    }

    /// The keys are in ascending order, so none occurs twice.
    pub open spec fn wf(&self) -> bool {
        &&& ascending(self.keys())
        &&& all_keys(self.keys())
        &&& self.keys().len() == self.values().len()
    }
}

impl<V> View for KeyMap<V> {
    type V = Map<Seq<u8>, V>;

    open spec fn view(&self) -> Map<Seq<u8>, V> {
        paired(self.keys(), self.values())
    }
}

impl<V> KeyMap<V> {
    /// An empty map.
    pub fn new() -> (m: Self)
        ensures
            m.wf(),
            m@ == Map::<Seq<u8>, V>::empty(),
    {
        let m = KeyMap { entries: Vec::new() };
        proof {
            assert(m@ =~= Map::<Seq<u8>, V>::empty());
        }
        m
    }

    /// How many keys there are.
    pub fn len(&self) -> (n: usize)
        requires
            self.wf(),
        ensures
            n == self.keys().len(),
            n == self@.len(),
            self@.dom().finite(),
    {
        proof {
            self.lemma_len();
        }
        self.entries.len()
    }

    /// The map has as many keys as the list of them is long.
    pub proof fn lemma_len(&self)
        requires
            self.wf(),
        ensures
            self@.len() == self.keys().len(),
            self@.dom().finite(),
    {
        let ks = self.keys();
        assert(self@.dom() =~= ks.to_set());
        assert(ks.no_duplicates()) by {
            assert forall|i: int, j: int| 0 <= i < ks.len() && 0 <= j < ks.len() && i != j implies ks[i]
                != ks[j] by {
                position_is_unique(ks, i);
                position_is_unique(ks, j);
            }
        }
        ks.unique_seq_to_set();
    }

    /// What the map holds under the key at a position.
    pub proof fn lemma_at(&self, i: int)
        requires
            self.wf(),
            0 <= i < self.keys().len(),
        ensures
            self@.dom().contains(self.keys()[i]),
            self@[self.keys()[i]] == self.values()[i],
    {
        position_is_unique(self.keys(), i);
    }

    /// Where a key of the map stands.
    pub proof fn lemma_position(&self, k: Seq<u8>) -> (i: int)
        requires
            self.wf(),
            self@.dom().contains(k),
        ensures
            0 <= i < self.keys().len(),
            self.keys()[i] == k,
            self.values()[i] == self@[k],
    {
        position(self.keys(), k)
    }

    /// The key at a position.
    pub fn key_at(&self, i: usize) -> (k: PubKey)
        requires
            i < self.keys().len(),
        ensures
            k@ == self.keys()[i as int],
    {
        self.entries[i].0
    }

    /// The value at a position.
    pub fn value_at(&self, i: usize) -> (v: &V)
        requires
            self.wf(),
            i < self.keys().len(),
        ensures
            *v == self.values()[i as int],
            *v == self@[self.keys()[i as int]],
            self@.dom().contains(self.keys()[i as int]),
    {
        proof {
            self.lemma_at(i as int);
        }
        &self.entries[i].1
    }

    /// The first position whose key is not before `k`.
    fn slot(&self, k: &PubKey) -> (at: usize)
        requires
            self.wf(),
        ensures
            at <= self.keys().len(),
            forall|i: int| 0 <= i < at ==> bytes_before(#[trigger] self.keys()[i], k@),
            forall|i: int|
                at <= i < self.keys().len() ==> !bytes_before(#[trigger] self.keys()[i], k@),
    {
        let mut lo: usize = 0;
        let mut hi: usize = self.entries.len();
        while lo < hi
            invariant
                lo <= hi <= self.keys().len(),
                self.keys().len() == self.entries@.len(),
                self.wf(),
                forall|i: int| 0 <= i < lo ==> bytes_before(#[trigger] self.keys()[i], k@),
                forall|i: int|
                    hi <= i < self.keys().len() ==> !bytes_before(#[trigger] self.keys()[i], k@),
            decreases hi - lo,
        {
            let mid: usize = lo + (hi - lo) / 2;
            if self.entries[mid].0.before(k) {
                proof {
                    assert forall|i: int| 0 <= i < mid + 1 implies bytes_before(
                        #[trigger] self.keys()[i],
                        k@,
                    ) by {
                        if i < mid {
                            key_order_is_transitive(self.keys()[i], self.keys()[mid as int], k@);
                        }
                    }
                }
                lo = mid + 1;
            } else {
                proof {
                    assert forall|i: int| mid <= i < self.keys().len() implies !bytes_before(
                        #[trigger] self.keys()[i],
                        k@,
                    ) by {
                        if i > mid && bytes_before(self.keys()[i], k@) {
                            key_order_is_transitive(self.keys()[mid as int], self.keys()[i], k@);
                        }
                    }
                }
                hi = mid;
            }
        }
        lo
    }

    /// The value under a key.
    pub fn get(&self, k: &PubKey) -> (v: Option<&V>)
        requires
            self.wf(),
        ensures
            match v {
                Some(v) => self@.dom().contains(k@) && self@[k@] == *v,
                None => !self@.dom().contains(k@),
            },
    {
        let at: usize = self.slot(k);
        if at < self.entries.len() && self.entries[at].0 == *k {
            proof {
                self.lemma_at(at as int);
            }
            Some(&self.entries[at].1)
        } else {
            proof {
                if self@.dom().contains(k@) {
                    let i = self.lemma_position(k@);
                    key_order_is_total(k@, k@);
                    if i < at {
                        assert(bytes_before(self.keys()[i], k@));
                    } else {
                        assert(at < self.keys().len());
                        key_order_is_total(self.keys()[at as int], k@);
                        if at < i {
                            assert(bytes_before(self.keys()[at as int], self.keys()[i]));
                        }
                    }
                }
            }
            None
        }
    }

    /// Put a value under a key, in place of the one there.
    pub fn insert(&mut self, k: PubKey, v: V)
        requires
            old(self).wf(),
        ensures
            final(self).wf(),
            final(self)@ == old(self)@.insert(k@, v),
    {
        let ghost before = *self;
        let ghost (ks, vs) = (self.keys(), self.values());
        let at: usize = self.slot(&k);
        if at < self.entries.len() && self.entries[at].0 == k {
            self.entries[at] = (k, v);
            proof {
                assert(self.keys() =~= ks);
                assert(self.values() =~= vs.update(at as int, v));
                assert forall|q: Seq<u8>| ks.contains(q) implies self@[q] == before@.insert(
                    k@,
                    v,
                )[q] by {
                    let i = before.lemma_position(q);
                    self.lemma_at(i);
                    if q == k@ {
                        position_is_unique(ks, at as int);
                        position_is_unique(ks, i);
                    }
                }
                position_is_unique(ks, at as int);
                assert(self@ =~= before@.insert(k@, v));
            }
        } else {
            proof {
                assert(!ks.contains(k@)) by {
                    if ks.contains(k@) {
                        let i = before.lemma_position(k@);
                        key_order_is_total(k@, k@);
                        if i < at {
                            assert(bytes_before(ks[i], k@));
                        } else {
                            key_order_is_total(ks[at as int], k@);
                            if at < i {
                                assert(bytes_before(ks[at as int], ks[i]));
                            }
                        }
                    }
                }
            }
            self.entries.insert(at, (k, v));
            proof {
                let (ks2, vs2) = (self.keys(), self.values());
                assert(ks2 =~= ks.insert(at as int, k@));
                assert(vs2 =~= vs.insert(at as int, v));
                assert forall|i: int, j: int| 0 <= i < j < ks2.len() implies bytes_before(
                    #[trigger] ks2[i],
                    #[trigger] ks2[j],
                ) by {
                    if i == at {
                        assert(!bytes_before(ks[j - 1], k@));
                        assert(ks[j - 1] != k@) by {
                            assert(ks.contains(ks[j - 1]));
                        }
                        key_order_is_total(ks[j - 1], k@);
                    } else if j == at {
                        assert(bytes_before(ks[i], k@));
                    } else {
                        let a = if i < at { i } else { i - 1 };
                        let b = if j < at { j } else { j - 1 };
                        assert(bytes_before(ks[a], ks[b]));
                    }
                }
                assert(self.wf());
                assert forall|q: Seq<u8>| ks2.contains(q) <==> (q == k@ || ks.contains(q)) by {
                    if ks2.contains(q) {
                        let i = choose|i: int| 0 <= i < ks2.len() && ks2[i] == q;
                        if i < at {
                            assert(ks[i] == q);
                        } else if i > at {
                            assert(ks[i - 1] == q);
                        }
                    }
                    if q == k@ {
                        assert(ks2[at as int] == q);
                    }
                    if ks.contains(q) {
                        let i = choose|i: int| 0 <= i < ks.len() && ks[i] == q;
                        if i < at {
                            assert(ks2[i] == q);
                        } else {
                            assert(ks2[i + 1] == q);
                        }
                    }
                }
                assert forall|q: Seq<u8>| ks2.contains(q) implies self@[q] == before@.insert(
                    k@,
                    v,
                )[q] by {
                    let i = self.lemma_position(q);
                    if i < at {
                        before.lemma_at(i);
                    } else if i > at {
                        before.lemma_at(i - 1);
                    }
                }
                assert(self@ =~= before@.insert(k@, v));
            }
        }
    }

    /// Take a key out of the map.
    pub fn remove(&mut self, k: &PubKey)
        requires
            old(self).wf(),
        ensures
            final(self).wf(),
            final(self)@ == old(self)@.remove(k@),
    {
        let ghost before = *self;
        let ghost (ks, vs) = (self.keys(), self.values());
        let at: usize = self.slot(k);
        if at < self.entries.len() && self.entries[at].0 == *k {
            self.entries.remove(at);
            proof {
                let (ks2, vs2) = (self.keys(), self.values());
                assert(ks2 =~= ks.remove(at as int));
                assert(vs2 =~= vs.remove(at as int));
                assert forall|i: int, j: int| 0 <= i < j < ks2.len() implies bytes_before(
                    #[trigger] ks2[i],
                    #[trigger] ks2[j],
                ) by {
                    let a = if i < at { i } else { i + 1 };
                    let b = if j < at { j } else { j + 1 };
                    assert(bytes_before(ks[a], ks[b]));
                }
                assert(self.wf());
                assert forall|q: Seq<u8>| ks2.contains(q) <==> (q != k@ && ks.contains(q)) by {
                    if ks2.contains(q) {
                        let i = choose|i: int| 0 <= i < ks2.len() && ks2[i] == q;
                        let a = if i < at { i } else { i + 1 };
                        assert(ks[a] == q);
                        position_is_unique(ks, a);
                        position_is_unique(ks, at as int);
                    }
                    if q != k@ && ks.contains(q) {
                        let i = choose|i: int| 0 <= i < ks.len() && ks[i] == q;
                        if i < at {
                            assert(ks2[i] == q);
                        } else {
                            assert(ks2[i - 1] == q);
                        }
                    }
                }
                assert forall|q: Seq<u8>| ks2.contains(q) implies self@[q] == before@[q] by {
                    let i = self.lemma_position(q);
                    before.lemma_at(if i < at { i } else { i + 1 });
                }
                assert(self@ =~= before@.remove(k@));
            }
        } else {
            proof {
                assert(!ks.contains(k@)) by {
                    if ks.contains(k@) {
                        let i = before.lemma_position(k@);
                        key_order_is_total(k@, k@);
                        if i < at {
                            assert(bytes_before(ks[i], k@));
                        } else {
                            key_order_is_total(ks[at as int], k@);
                            if at < i {
                                assert(bytes_before(ks[at as int], ks[i]));
                            }
                        }
                    }
                }
                assert(self@ =~= before@.remove(k@));
            }
        }
    }
}

} // verus!
