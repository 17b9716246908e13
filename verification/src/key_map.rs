//! 32-byte identifiers (account keys, message hashes) and a map keyed by them.

use std::collections::HashMap;
use vstd::prelude::*;

verus! {

/// An opaque 32-byte identifier, held as its two 16-byte halves. Two
/// identifiers are equal when all their bytes are.
#[derive(Copy, Clone, Debug, PartialEq, Eq, Hash, PartialOrd, Ord, Structural)]
pub struct Bytes32 {
    /// The first 16 bytes, read as a big-endian number.
    pub hi: u128,
    /// The last 16 bytes, read as a big-endian number.
    pub lo: u128,
}

/// Key of an account.
pub type Pubkey = Bytes32;

/// Hash of a transaction's signed message.
pub type MessageHash = Bytes32;

impl Bytes32 {
    /// The identifier made of the two given halves.
    pub fn new(hi: u128, lo: u128) -> (key: Self)
        ensures
            key.hi == hi,
            key.lo == lo,
    {
        Bytes32 { hi, lo }
    }
}

/// A map from 32-byte identifiers to values: a hash map keyed by the first
/// half of the identifier, of hash maps keyed by the second half.
pub struct KeyMap<V> {
    halves: HashMap<u128, HashMap<u128, V>>,
}

impl<V> View for KeyMap<V> {
    type V = Map<Bytes32, V>;

    closed spec fn view(&self) -> Map<Bytes32, V> {
        Map::new(
            |k: Bytes32| self.halves@.contains_key(k.hi) && self.halves@[k.hi]@.contains_key(k.lo),
            |k: Bytes32| self.halves@[k.hi]@[k.lo],
        )
    }
}

impl<V> KeyMap<V> {
    /// No inner map is kept once its last entry has left.
    pub closed spec fn wf(&self) -> bool {
        forall|hi: u128| #[trigger]
            self.halves@.contains_key(hi) ==> Self::populated(self.halves@[hi]@)
    }

    spec fn populated(inner: Map<u128, V>) -> bool {
        exists|lo: u128| inner.contains_key(lo)
    }

    /// An empty map.
    pub fn new() -> (map: Self)
        ensures
            map.wf(),
            map@ == Map::<Bytes32, V>::empty(),
    {
        let map = KeyMap { halves: HashMap::new() };
        assert(map@ =~= Map::<Bytes32, V>::empty());
        map
    }

    /// Whether the map holds no entry.
    pub fn is_empty(&self) -> (empty: bool)
        requires
            self.wf(),
        ensures
            empty == (self@ == Map::<Bytes32, V>::empty()),
    {
        let empty = self.halves.is_empty();
        proof {
            if empty {
                assert(self@ =~= Map::<Bytes32, V>::empty());
            } else {
                assert(!(self.halves@.dom() =~= Set::<u128>::empty()));
                let hi = choose|hi: u128| self.halves@.contains_key(hi);
                assert(self.halves@.contains_key(hi));
                assert(Self::populated(self.halves@[hi]@));
                let lo = choose|lo: u128| self.halves@[hi]@.contains_key(lo);
                assert(self@.contains_key(Bytes32 { hi, lo }));
            }
        }
        empty
    }

    /// Whether `key` has an entry.
    pub fn contains_key(&self, key: &Bytes32) -> (found: bool)
        ensures
            found == self@.contains_key(*key),
    {
        match self.halves.get(&key.hi) {
            Some(inner) => inner.contains_key(&key.lo),
            None => false,
        }
    }

    /// The value stored under `key`, if any.
    pub fn get(&self, key: &Bytes32) -> (value: Option<&V>)
        ensures
            match value {
                Some(v) => self@.contains_key(*key) && *v == self@[*key],
                None => !self@.contains_key(*key),
            },
    {
        match self.halves.get(&key.hi) {
            Some(inner) => inner.get(&key.lo),
            None => None,
        }
    }

    /// Stores `value` under `key` and returns the value it replaces, if any.
    pub fn insert(&mut self, key: Bytes32, value: V) -> (previous: Option<V>)
        requires
            old(self).wf(),
        ensures
            final(self).wf(),
            final(self)@ == old(self)@.insert(key, value),
            previous == old(self)@.get(key),
    {
        let mut inner = match self.halves.remove(&key.hi) {
            Some(inner) => inner,
            None => HashMap::new(),
        };
        let previous = inner.insert(key.lo, value);
        self.halves.insert(key.hi, inner);
        proof {
            assert forall|hi: u128| #[trigger]
                self.halves@.contains_key(hi) implies Self::populated(self.halves@[hi]@) by {
                if hi != key.hi {
                    assert(old(self).halves@.contains_key(hi));
                    assert(self.halves@[hi] == old(self).halves@[hi]);
                } else {
                    assert(self.halves@[hi]@.contains_key(key.lo));
                }
            }
            assert(self@ =~= old(self)@.insert(key, value));
        }
        previous
    }

    /// Removes the entry of `key` and returns its value, if there was one.
    pub fn remove(&mut self, key: &Bytes32) -> (removed: Option<V>)
        requires
            old(self).wf(),
        ensures
            final(self).wf(),
            final(self)@ == old(self)@.remove(*key),
            removed == old(self)@.get(*key),
    {
        match self.halves.remove(&key.hi) {
            Some(inner) => {
                let mut inner = inner;
                let removed = inner.remove(&key.lo);
                if !inner.is_empty() {
                    proof {
                        assert(!(inner@.dom() =~= Set::<u128>::empty()));
                        let lo = choose|lo: u128| inner@.contains_key(lo);
                        assert(inner@.contains_key(lo));
                        assert(Self::populated(inner@));
                    }
                    self.halves.insert(key.hi, inner);
                } else {
                    assert(inner@.dom() =~= Set::<u128>::empty());
                }
                proof {
                    assert forall|hi: u128| #[trigger]
                        self.halves@.contains_key(hi) implies Self::populated(
                        self.halves@[hi]@,
                    ) by {
                        if hi != key.hi {
                            assert(old(self).halves@.contains_key(hi));
                            assert(self.halves@[hi] == old(self).halves@[hi]);
                        }
                    }
                    assert(self@ =~= old(self)@.remove(*key));
                }
                removed
            },
            None => {
                proof {
                    assert(self.halves@ =~= old(self).halves@);
                    assert(self@ =~= old(self)@.remove(*key));
                }
                None
            },
        }
    }
}

} // verus!
