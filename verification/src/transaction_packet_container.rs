//! A bounded container of pending transactions: a priority queue of
//! `(priority, id)` pairs, with the packet and the sanitized transaction of
//! each id kept beside it.

use crate::heap::{
    heap_items, heap_len, heap_pop_max, heap_push, heap_push_pop_min, heap_with_capacity,
    is_greatest, is_least, pair_le,
};
use crate::packet::{DeserializedPacket, ImmutableDeserializedPacket, SanitizedTransaction,
    SanitizedTransactionTTL, Slot};
use crate::transaction_priority_id::{pairs_of, TransactionId, TransactionPriorityId};
use min_max_heap::MinMaxHeap;
use std::collections::hash_map::{Entry, OccupiedEntry};
use std::collections::HashMap;
use vstd::multiset::Multiset;
use vstd::prelude::*;
use vstd::std_specs::hash::*;

verus! {

/// Whether each pair of `pairs` is at most the pairs before it.
pub open spec fn sorted_descending(pairs: Seq<(u64, u64)>) -> bool {
    forall|i: int, j: int| 0 <= i < j < pairs.len() ==> pair_le(pairs[j], pairs[i])
}

/// The least pair of `items`.
pub open spec fn least(items: Multiset<(u64, u64)>) -> (u64, u64) {
    choose|x: (u64, u64)| is_least(items, x)
}

/// The ids of the pairs in `items`.
pub open spec fn ids_of(items: Multiset<(u64, u64)>) -> Set<u64> {
    Set::new(|id: u64| exists|priority: u64| items.count((priority, id)) > 0)
}

/// Whether no id occurs in two pairs of `items`, or twice in one.
pub open spec fn distinct_ids(items: Multiset<(u64, u64)>) -> bool {
    forall|x: (u64, u64), y: (u64, u64)|
        items.count(x) > 0 && items.count(y) > 0 && x.1 == y.1 ==> x == y && items.count(x) == 1
}

/// A multiset has one least pair at most.
pub proof fn lemma_least_is_unique(items: Multiset<(u64, u64)>, x: (u64, u64))
    requires
        is_least(items, x),
    ensures
        least(items) == x,
{
    let y = least(items);
    assert(is_least(items, y));
    assert(pair_le(x, y) && pair_le(y, x));
}

pub struct TransactionPacketContainer {
    capacity: usize,
    priority_queue: MinMaxHeap<(u64, u64)>,
    id_to_transaction_ttl: HashMap<u64, SanitizedTransactionTTL>,
    id_to_packet: HashMap<u64, DeserializedPacket>,
}

impl TransactionPacketContainer {
    /// The number of ids that the priority queue may hold.
    pub closed spec fn capacity(&self) -> nat {
        self.capacity as nat
    }

    /// The `(priority, id)` pairs in the priority queue.
    pub closed spec fn queue(&self) -> Multiset<(u64, u64)> {
        heap_items(self.priority_queue)
    }

    /// The packets, by id.
    pub closed spec fn packets(&self) -> Map<u64, DeserializedPacket> {
        self.id_to_packet@
    }

    /// The sanitized transactions, by id.
    pub closed spec fn transactions(&self) -> Map<u64, SanitizedTransactionTTL> {
        self.id_to_transaction_ttl@
    }

    /// The priority queue never holds more than its capacity.
    pub open spec fn inv(&self) -> bool {
        self.queue().len() <= self.capacity()
    }

    /// Whether the queue and the two maps hold the same ids.
    pub open spec fn synced(&self) -> bool {
        &&& ids_of(self.queue()) == self.packets().dom()
        &&& self.packets().dom() == self.transactions().dom()
    }

    /// Whether nothing but the priority queue differs between the two containers.
    pub open spec fn same_maps(&self, other: &Self) -> bool {
        &&& self.capacity() == other.capacity()
        &&& self.packets() == other.packets()
        &&& self.transactions() == other.transactions()
    }

    pub fn with_capacity(capacity: usize) -> (container: Self)
        requires
            capacity * 16 <= isize::MAX,
        ensures
            container.inv(),
            container.capacity() == capacity,
            container.queue() == Multiset::<(u64, u64)>::empty(),
            container.packets() == Map::<u64, DeserializedPacket>::empty(),
            container.transactions() == Map::<u64, SanitizedTransactionTTL>::empty(),
    {
        TransactionPacketContainer {
            capacity,
            priority_queue: heap_with_capacity(capacity),
            id_to_transaction_ttl: HashMap::with_capacity(capacity),
            id_to_packet: HashMap::with_capacity(capacity),
        }
    }

    /// Returns true if the queue is empty.
    pub fn is_empty(&self) -> (empty: bool)
        ensures
            empty == (self.queue().len() == 0),
    {
        heap_len(&self.priority_queue) == 0
    }

    /// Number of ids in the priority queue.
    pub fn queue_len(&self) -> (len: usize)
        ensures
            len == self.queue().len(),
    {
        heap_len(&self.priority_queue)
    }

    /// Number of packets held.
    pub fn num_packets(&self) -> (len: usize)
        ensures
            len == self.packets().len(),
    {
        self.id_to_packet.len()
    }

    /// Number of sanitized transactions held.
    pub fn num_transactions(&self) -> (len: usize)
        ensures
            len == self.transactions().len(),
    {
        self.id_to_transaction_ttl.len()
    }

    /// Returns the remaining capacity of the queue
    pub fn remaining_queue_capacity(&self) -> (remaining: usize)
        requires
            self.inv(),
        ensures
            remaining == self.capacity() - self.queue().len(),
    {
        self.capacity - heap_len(&self.priority_queue)
    }

    /// Drains the queue: returns its ids from the highest priority to the
    /// lowest, and leaves the queue empty.
    pub fn drain_queue(&mut self) -> (drained: Vec<TransactionPriorityId>)
        ensures
            final(self).inv(),
            final(self).queue() == Multiset::<(u64, u64)>::empty(),
            final(self).same_maps(old(self)),
            pairs_of(drained@).to_multiset() == old(self).queue(),
            sorted_descending(pairs_of(drained@)),
            forall|i: int, j: int|
                0 <= i < j < drained.len() ==> drained[i].priority >= drained[j].priority,
    {
        let mut drained: Vec<TransactionPriorityId> = Vec::new();
        proof {
            assert(pairs_of(drained@) =~= Seq::<(u64, u64)>::empty());
            broadcast use vstd::seq_lib::group_to_multiset_ensures;

            assert(pairs_of(drained@).to_multiset() =~= Multiset::<(u64, u64)>::empty());
            assert(pairs_of(drained@).to_multiset().add(self.queue()) =~= old(self).queue());
        }
        loop
            invariant
                self.same_maps(old(self)),
                pairs_of(drained@).to_multiset().add(self.queue()) == old(self).queue(),
                sorted_descending(pairs_of(drained@)),
                forall|y: (u64, u64), i: int|
                    self.queue().count(y) > 0 && 0 <= i < drained.len() ==> #[trigger] pair_le(y, pairs_of(drained@)[i]),
            ensures
                self.queue().len() == 0,
            decreases self.queue().len(),
        {
            let ghost before = self.queue();
            let ghost taken = pairs_of(drained@);
            match heap_pop_max(&mut self.priority_queue) {
                Some(pair) => {
                    drained.push(TransactionPriorityId::from_pair(pair));
                    proof {
                        Self::lemma_take_one(old(self).queue(), before, taken, pair);
                        assert(pairs_of(drained@) =~= taken.push(pair));
                    }
                },
                None => {
                    break ;
                },
            }
        }
        proof {
            assert(self.queue() =~= Multiset::<(u64, u64)>::empty());
            assert(pairs_of(drained@).to_multiset().add(self.queue()) =~= pairs_of(
                drained@,
            ).to_multiset());
            assert forall|i: int, j: int| 0 <= i < j < drained.len() implies drained[i].priority
                >= drained[j].priority by {
                assert(pair_le(pairs_of(drained@)[j], pairs_of(drained@)[i]));
            }
        }
        drained
    }

    /// Moving the greatest pair of what is left to the end of what was taken
    /// keeps the taken pairs in descending order and the whole unchanged.
    proof fn lemma_take_one(
        all: Multiset<(u64, u64)>,
        left: Multiset<(u64, u64)>,
        taken: Seq<(u64, u64)>,
        pair: (u64, u64),
    )
        requires
            taken.to_multiset().add(left) == all,
            sorted_descending(taken),
            forall|y: (u64, u64), i: int|
                left.count(y) > 0 && 0 <= i < taken.len() ==> #[trigger] pair_le(y, taken[i]),
            is_greatest(left, pair),
        ensures
            taken.push(pair).to_multiset().add(left.remove(pair)) == all,
            sorted_descending(taken.push(pair)),
            forall|y: (u64, u64), i: int|
                left.remove(pair).count(y) > 0 && 0 <= i < taken.push(pair).len() ==> #[trigger] pair_le(y, taken.push(pair)[i]),
            left.remove(pair).len() < left.len(),
    {
        broadcast use vstd::seq_lib::group_to_multiset_ensures;

        assert(taken.push(pair).to_multiset() =~= taken.to_multiset().insert(pair));
        assert(taken.push(pair).to_multiset().add(left.remove(pair)) =~= all);
        assert forall|y: (u64, u64), i: int|
            left.remove(pair).count(y) > 0 && 0 <= i < taken.push(pair).len() implies #[trigger] pair_le(y, taken.push(pair)[i]) by {
            assert(left.count(y) > 0);
            if i < taken.len() {
                assert(taken.push(pair)[i] == taken[i]);
            }
        }
        assert forall|i: int, j: int| 0 <= i < j < taken.push(pair).len() implies pair_le(
            taken.push(pair)[j],
            taken.push(pair)[i],
        ) by {
            if j < taken.len() {
                assert(pair_le(taken[j], taken[i]));
            } else {
                assert(pair_le(pair, taken[i]));
            }
        }
    }

    /// Takes the `n` ids of highest priority out of the queue, or all of them
    /// where there are fewer, and returns them from the highest priority down.
    pub fn take_top_n(&mut self, n: usize) -> (taken: Vec<TransactionPriorityId>)
        ensures
            old(self).inv() ==> final(self).inv(),
            final(self).same_maps(old(self)),
            taken.len() == if n <= old(self).queue().len() {
                n as nat
            } else {
                old(self).queue().len()
            },
            pairs_of(taken@).to_multiset().add(final(self).queue()) == old(self).queue(),
            sorted_descending(pairs_of(taken@)),
            forall|y: (u64, u64), i: int|
                final(self).queue().count(y) > 0 && 0 <= i < taken.len() ==> #[trigger] pair_le(y, pairs_of(taken@)[i]),
    {
        let mut taken: Vec<TransactionPriorityId> = Vec::new();
        proof {
            broadcast use vstd::seq_lib::group_to_multiset_ensures;

            assert(pairs_of(taken@) =~= Seq::<(u64, u64)>::empty());
            assert(pairs_of(taken@).to_multiset() =~= Multiset::<(u64, u64)>::empty());
            assert(pairs_of(taken@).to_multiset().add(self.queue()) =~= old(self).queue());
        }
        let mut i: usize = 0;
        while i < n
            invariant
                self.same_maps(old(self)),
                i <= n,
                taken.len() == i,
                taken.len() + self.queue().len() == old(self).queue().len(),
                pairs_of(taken@).to_multiset().add(self.queue()) == old(self).queue(),
                sorted_descending(pairs_of(taken@)),
                forall|y: (u64, u64), k: int|
                    self.queue().count(y) > 0 && 0 <= k < taken.len() ==> #[trigger] pair_le(y, pairs_of(taken@)[k]),
            ensures
                i == n || self.queue().len() == 0,
                taken.len() + self.queue().len() == old(self).queue().len(),
                taken.len() <= n,
            decreases n - i,
        {
            let ghost before = self.queue();
            let ghost pairs = pairs_of(taken@);
            match heap_pop_max(&mut self.priority_queue) {
                Some(pair) => {
                    taken.push(TransactionPriorityId::from_pair(pair));
                    proof {
                        Self::lemma_take_one(old(self).queue(), before, pairs, pair);
                        assert(pairs_of(taken@) =~= pairs.push(pair));
                        assert(before.remove(pair).len() == before.len() - 1);
                    }
                },
                None => {
                    break ;
                },
            }
            i += 1;
        }
        taken
    }

    /// Get packet by id.
    pub fn get_packet_entry(&mut self, id: TransactionId) -> (entry: Option<
        OccupiedEntry<'_, u64, DeserializedPacket>,
    >)
        ensures
            final(self).capacity() == old(self).capacity(),
            final(self).queue() == old(self).queue(),
            final(self).transactions() == old(self).transactions(),
            match entry {
                Some(e) => {
                    &&& old(self).packets().contains_key(id.0)
                    &&& e.spec_key() == id.0
                    &&& e.value() == old(self).packets()[id.0]
                    &&& final(self).packets() == match e.final_value() {
                        Some(packet) => old(self).packets().insert(id.0, packet),
                        None => old(self).packets().remove(id.0),
                    }
                },
                None => !old(self).packets().contains_key(id.0) && final(self).packets() == old(
                    self,
                ).packets(),
            },
    {
        match self.id_to_packet.entry(id.0) {
            Entry::Occupied(entry) => Some(entry),
            Entry::Vacant(_) => None,
        }
    }

    /// Get transaction by id. The transaction must exist.
    pub fn get_transaction_entry(&mut self, id: TransactionId) -> (entry: OccupiedEntry<
        '_,
        u64,
        SanitizedTransactionTTL,
    >)
        requires
            old(self).transactions().contains_key(id.0),
        ensures
            final(self).capacity() == old(self).capacity(),
            final(self).queue() == old(self).queue(),
            final(self).packets() == old(self).packets(),
            entry.spec_key() == id.0,
            entry.value() == old(self).transactions()[id.0],
            final(self).transactions() == match entry.final_value() {
                Some(transaction) => old(self).transactions().insert(id.0, transaction),
                None => old(self).transactions().remove(id.0),
            },
    {
        match self.id_to_transaction_ttl.entry(id.0) {
            Entry::Occupied(entry) => entry,
            Entry::Vacant(_) => vstd::pervasive::unreached(),
        }
    }

    /// Get transaction and packet entries by id. Both must exist.
    pub fn get_transaction_and_packet_entries(&mut self, id: TransactionId) -> (entries: (
        OccupiedEntry<'_, u64, SanitizedTransactionTTL>,
        OccupiedEntry<'_, u64, DeserializedPacket>,
    ))
        requires
            old(self).transactions().contains_key(id.0),
            old(self).packets().contains_key(id.0),
        ensures
            final(self).capacity() == old(self).capacity(),
            final(self).queue() == old(self).queue(),
            entries.0.spec_key() == id.0,
            entries.0.value() == old(self).transactions()[id.0],
            final(self).transactions() == match entries.0.final_value() {
                Some(transaction) => old(self).transactions().insert(id.0, transaction),
                None => old(self).transactions().remove(id.0),
            },
            entries.1.spec_key() == id.0,
            entries.1.value() == old(self).packets()[id.0],
            final(self).packets() == match entries.1.final_value() {
                Some(packet) => old(self).packets().insert(id.0, packet),
                None => old(self).packets().remove(id.0),
            },
    {
        let transaction_entry = match self.id_to_transaction_ttl.entry(id.0) {
            Entry::Occupied(entry) => entry,
            Entry::Vacant(_) => vstd::pervasive::unreached(),
        };
        let packet_entry = match self.id_to_packet.entry(id.0) {
            Entry::Occupied(entry) => entry,
            Entry::Vacant(_) => vstd::pervasive::unreached(),
        };
        (transaction_entry, packet_entry)
    }

    /// Insert a new transaction into the container's queues and maps.
    pub fn insert_new_transaction(
        &mut self,
        transaction_id: TransactionId,
        packet: ImmutableDeserializedPacket,
        transaction_ttl: SanitizedTransactionTTL,
    )
        requires
            old(self).inv(),
        ensures
            final(self).inv(),
            final(self).capacity() == old(self).capacity(),
            Self::push_result(
                old(self).capacity(),
                old(self).queue(),
                (packet.priority, transaction_id.0),
            ) matches Some(queue) ==> {
                &&& final(self).queue() == queue
                &&& final(self).packets() == Self::push_evicts(
                    old(self).capacity(),
                    old(self).queue(),
                    (packet.priority, transaction_id.0),
                    old(self).packets(),
                ).insert(transaction_id.0, DeserializedPacket { immutable_section: packet, forwarded: false })
                &&& final(self).transactions() == Self::push_evicts(
                    old(self).capacity(),
                    old(self).queue(),
                    (packet.priority, transaction_id.0),
                    old(self).transactions(),
                ).insert(transaction_id.0, transaction_ttl)
            },
            Self::push_result(
                old(self).capacity(),
                old(self).queue(),
                (packet.priority, transaction_id.0),
            ) is None ==> final(self).queue() == old(self).queue() && final(self).same_maps(
                old(self),
            ),
            old(self).synced() && distinct_ids(old(self).queue()) && !old(
                self,
            ).packets().contains_key(transaction_id.0) ==> final(self).synced() && distinct_ids(
                final(self).queue(),
            ),
    {
        let priority_id = TransactionPriorityId::new(packet.priority(), transaction_id);
        if self.push_id_into_queue(priority_id) {
            self.id_to_packet.insert(
                transaction_id.0,
                DeserializedPacket::from_immutable_section(packet),
            );
            self.id_to_transaction_ttl.insert(transaction_id.0, transaction_ttl);
            proof {
                if old(self).synced() && distinct_ids(old(self).queue()) && !old(
                    self,
                ).packets().contains_key(transaction_id.0) {
                    Self::lemma_push_keeps_ids(
                        old(self).capacity(),
                        old(self).queue(),
                        priority_id.pair(),
                    );
                    assert(ids_of(self.queue()) =~= self.packets().dom());
                    assert(self.packets().dom() =~= self.transactions().dom());
                }
            }
        }
    }

    /// Retries a transaction - inserts transaction back into map (but not packet).
    pub fn retry_transaction(
        &mut self,
        transaction_id: TransactionId,
        transaction: SanitizedTransaction,
        max_age_slot: Slot,
    )
        requires
            old(self).inv(),
            old(self).packets().contains_key(transaction_id.0),
        ensures
            final(self).inv(),
            final(self).capacity() == old(self).capacity(),
            ({
                let pair = (
                    old(self).packets()[transaction_id.0].immutable_section.priority,
                    transaction_id.0,
                );
                match Self::push_result(old(self).capacity(), old(self).queue(), pair) {
                    Some(queue) => {
                        &&& final(self).queue() == queue
                        &&& final(self).packets() == Self::push_evicts(
                            old(self).capacity(),
                            old(self).queue(),
                            pair,
                            old(self).packets(),
                        )
                        &&& final(self).transactions() == Self::push_evicts(
                            old(self).capacity(),
                            old(self).queue(),
                            pair,
                            old(self).transactions(),
                        ).insert(
                            transaction_id.0,
                            SanitizedTransactionTTL { transaction, max_age_slot },
                        )
                    },
                    None => final(self).queue() == old(self).queue() && final(self).same_maps(
                        old(self),
                    ),
                }
            }),
    {
        let priority = match self.id_to_packet.get(&transaction_id.0) {
            Some(packet) => packet.immutable_section().priority(),
            None => vstd::pervasive::unreached(),
        };
        let priority_id = TransactionPriorityId::new(priority, transaction_id);
        if self.push_id_into_queue(priority_id) {
            self.id_to_transaction_ttl.insert(
                transaction_id.0,
                SanitizedTransactionTTL { transaction, max_age_slot },
            );
        }
    }

    /// The pair that leaves the queue when `pair` is pushed into a queue that
    /// holds `queue` and has room for `capacity` pairs; `None` where no pair
    /// leaves, or `pair` itself is turned away.
    pub open spec fn push_evicted(capacity: nat, queue: Multiset<(u64, u64)>, pair: (u64, u64)) -> Option<
        (u64, u64),
    > {
        if queue.len() < capacity || least(queue.insert(pair)) == pair {
            None
        } else {
            Some(least(queue.insert(pair)))
        }
    }

    /// The queue after `pair` is pushed into a queue that holds `queue` and
    /// has room for `capacity` pairs; `None` where `pair` is turned away: the
    /// queue is full and `pair` is not above its least pair.
    pub open spec fn push_result(capacity: nat, queue: Multiset<(u64, u64)>, pair: (u64, u64)) -> Option<
        Multiset<(u64, u64)>,
    > {
        if queue.len() < capacity {
            Some(queue.insert(pair))
        } else if least(queue.insert(pair)) == pair {
            None
        } else {
            Some(queue.insert(pair).remove(least(queue.insert(pair))))
        }
    }

    /// A map by id after the push of `pair`: without the id that the push evicts.
    pub open spec fn push_evicts<V>(
        capacity: nat,
        queue: Multiset<(u64, u64)>,
        pair: (u64, u64),
        map: Map<u64, V>,
    ) -> Map<u64, V> {
        match Self::push_evicted(capacity, queue, pair) {
            Some(evicted) => map.remove(evicted.1),
            None => map,
        }
    }

    /// A pair that is below every pair of a full queue is turned away.
    pub proof fn lemma_lower_priority_is_dropped(
        capacity: nat,
        queue: Multiset<(u64, u64)>,
        pair: (u64, u64),
    )
        requires
            queue.len() == capacity,
            forall|y: (u64, u64)| queue.count(y) > 0 ==> pair.0 < y.0,
        ensures
            Self::push_result(capacity, queue, pair) is None,
    {
        assert(is_least(queue.insert(pair), pair));
        lemma_least_is_unique(queue.insert(pair), pair);
    }

    /// Where the ids of the queue are distinct and the pushed id is new, the
    /// ids after the push are the old ones and the new one, without the one
    /// evicted, and they are distinct again.
    proof fn lemma_push_keeps_ids(capacity: nat, queue: Multiset<(u64, u64)>, pair: (u64, u64))
        requires
            queue.len() <= capacity,
            distinct_ids(queue),
            !ids_of(queue).contains(pair.1),
            Self::push_result(capacity, queue, pair) is Some,
        ensures
            distinct_ids(Self::push_result(capacity, queue, pair)->0),
            ids_of(Self::push_result(capacity, queue, pair)->0) == match Self::push_evicted(
                capacity,
                queue,
                pair,
            ) {
                Some(evicted) => ids_of(queue).remove(evicted.1).insert(pair.1),
                None => ids_of(queue).insert(pair.1),
            },
    {
        let after = Self::push_result(capacity, queue, pair)->0;
        let pushed = queue.insert(pair);
        assert forall|y: (u64, u64)| queue.count(y) > 0 implies y.1 != pair.1 by {
            assert(queue.count((y.0, y.1)) > 0);
            assert(ids_of(queue).contains(y.1));
        }
        assert(queue.count(pair) == 0) by {
            if queue.count(pair) > 0 {
                assert(queue.count((pair.0, pair.1)) > 0);
                assert(ids_of(queue).contains(pair.1));
            }
        }
        assert(distinct_ids(pushed));
        if queue.len() < capacity {
            assert forall|id: u64| ids_of(after).contains(id) == ids_of(queue).insert(
                pair.1,
            ).contains(id) by {
                if ids_of(after).contains(id) {
                    let p = choose|p: u64| after.count((p, id)) > 0;
                    if (p, id) != pair {
                        assert(queue.count((p, id)) > 0);
                    }
                }
                if ids_of(queue).contains(id) {
                    let p = choose|p: u64| queue.count((p, id)) > 0;
                    assert(after.count((p, id)) > 0);
                }
                if id == pair.1 {
                    assert(after.count((pair.0, id)) > 0);
                }
            }
            assert(ids_of(after) =~= ids_of(queue).insert(pair.1));
        } else {
            let evicted = least(pushed);
            assert(pushed.count(pair) > 0);
            Self::lemma_least_exists(pushed);
            assert(is_least(pushed, evicted));
            assert(evicted != pair);
            assert(queue.count(evicted) > 0);
            assert(pushed.count(evicted) == 1);
            assert(distinct_ids(after));
            assert forall|id: u64| ids_of(after).contains(id) == ids_of(queue).remove(
                evicted.1,
            ).insert(pair.1).contains(id) by {
                if ids_of(after).contains(id) {
                    let p = choose|p: u64| after.count((p, id)) > 0;
                    assert(pushed.count((p, id)) > 0);
                    if (p, id) != pair {
                        assert(queue.count((p, id)) > 0);
                        assert(ids_of(queue).contains(id));
                        if id == evicted.1 {
                            assert((p, id) == evicted);
                        }
                    }
                }
                if ids_of(queue).remove(evicted.1).contains(id) {
                    let p = choose|p: u64| queue.count((p, id)) > 0;
                    assert(after.count((p, id)) > 0);
                }
                if id == pair.1 {
                    assert(after.count((pair.0, id)) > 0);
                }
            }
            assert(ids_of(after) =~= ids_of(queue).remove(evicted.1).insert(pair.1));
        }
    }

    /// Where the ids of the queue are distinct, taking a pair out of the
    /// queue takes its id out of the ids, and the ids stay distinct: once the
    /// packet and the transaction of that id are removed too, the queue and
    /// the maps hold the same ids again.
    pub proof fn lemma_take_removes_id(queue: Multiset<(u64, u64)>, pair: (u64, u64))
        requires
            distinct_ids(queue),
            queue.count(pair) > 0,
        ensures
            distinct_ids(queue.remove(pair)),
            ids_of(queue.remove(pair)) == ids_of(queue).remove(pair.1),
    {
        let after = queue.remove(pair);
        assert(queue.count(pair) == 1);
        assert forall|id: u64| ids_of(after).contains(id) == ids_of(queue).remove(
            pair.1,
        ).contains(id) by {
            if ids_of(after).contains(id) {
                let p = choose|p: u64| after.count((p, id)) > 0;
                assert(queue.count((p, id)) > 0);
                if id == pair.1 {
                    assert((p, id) == pair);
                }
            }
            if ids_of(queue).remove(pair.1).contains(id) {
                let p = choose|p: u64| queue.count((p, id)) > 0;
                assert(after.count((p, id)) > 0);
            }
        }
        assert(ids_of(after) =~= ids_of(queue).remove(pair.1));
    }

    /// A multiset that is not empty has a least pair.
    pub proof fn lemma_least_exists(items: Multiset<(u64, u64)>)
        requires
            items.len() > 0,
        ensures
            is_least(items, least(items)),
        decreases items.len(),
    {
        let x = items.choose();
        assert(items.count(x) > 0);
        let rest = items.remove(x);
        if rest.len() == 0 {
            assert forall|y: (u64, u64)| items.count(y) > 0 implies pair_le(x, y) by {
                if y != x {
                    assert(rest.count(y) > 0);
                }
                if items.count(x) > 1 {
                    assert(rest.count(x) > 0);
                }
            }
            assert(is_least(items, x));
        } else {
            Self::lemma_least_exists(rest);
            let m = least(rest);
            let w = if pair_le(x, m) {
                x
            } else {
                m
            };
            assert forall|y: (u64, u64)| items.count(y) > 0 implies pair_le(w, y) by {
                if y != x {
                    assert(rest.count(y) > 0);
                    assert(pair_le(m, y));
                }
            }
            assert(items.count(m) > 0);
            assert(is_least(items, w));
        }
    }

    /// Pushes a transaction id into the priority queue, without inserting the
    /// packet or transaction. Where the queue is full the lowest id leaves it,
    /// and its packet and transaction with it; where that lowest id is the new
    /// one, nothing changes. Returns true if the id was successfully pushed
    /// into the priority queue.
    pub fn push_id_into_queue(&mut self, priority_id: TransactionPriorityId) -> (pushed: bool)
        requires
            old(self).inv(),
        ensures
            final(self).inv(),
            final(self).capacity() == old(self).capacity(),
            pushed == (Self::push_result(old(self).capacity(), old(self).queue(), priority_id.pair())
                is Some),
            match Self::push_result(old(self).capacity(), old(self).queue(), priority_id.pair()) {
                Some(queue) => {
                    &&& final(self).queue() == queue
                    &&& final(self).packets() == Self::push_evicts(
                        old(self).capacity(),
                        old(self).queue(),
                        priority_id.pair(),
                        old(self).packets(),
                    )
                    &&& final(self).transactions() == Self::push_evicts(
                        old(self).capacity(),
                        old(self).queue(),
                        priority_id.pair(),
                        old(self).transactions(),
                    )
                },
                None => final(self).queue() == old(self).queue() && final(self).same_maps(
                    old(self),
                ),
            },
    {
        if heap_len(&self.priority_queue) == self.capacity {
            let popped = heap_push_pop_min(&mut self.priority_queue, priority_id.to_pair());
            proof {
                lemma_least_is_unique(old(self).queue().insert(priority_id.pair()), popped);
            }
            let popped_id = TransactionPriorityId::from_pair(popped);
            if popped_id == priority_id {
                proof {
                    assert(self.queue() =~= old(self).queue());
                }
                return false;
            } else {
                self.remove_by_id(&popped_id.id);
            }
        } else {
            heap_push(&mut self.priority_queue, priority_id.to_pair());
        }
        true
    }

    /// Remove packet and transaction by id.
    pub fn remove_by_id(&mut self, id: &TransactionId)
        ensures
            old(self).inv() ==> final(self).inv(),
            final(self).capacity() == old(self).capacity(),
            final(self).queue() == old(self).queue(),
            final(self).packets() == old(self).packets().remove(id.0),
            final(self).transactions() == old(self).transactions().remove(id.0),
    {
        self.id_to_packet.remove(&id.0);
        self.id_to_transaction_ttl.remove(&id.0);
    }
}

} // verus!
