//! A scheduler that prepares batches of transactions based on priority
//! ordering and without conflict between batches. This file holds what the
//! scheduler decides; the caller owns the channels, the bank and the threads,
//! performs what the scheduler asks for, and hands back what came of it.

use crate::packet::{
    DeserializedPacket, ImmutableDeserializedPacket, SanitizedTransaction, MAX_TX_ACCOUNT_LOCKS,
};
use crate::queue_state::{QueueState, SanitizedTransactionPriority, TrackedTransaction};
use crate::transaction_priority_id::{TransactionId, TransactionPriorityId};
use crate::transaction_queue::{ForwardFilter, TransactionQueue};
use std::collections::HashMap;
use vstd::prelude::*;

verus! {

/// How the scheduler should handle packets currently.
#[derive(Copy, Clone, Debug, PartialEq, Eq, Structural)]
pub enum BankPacketProcessingDecision {
    Consume,
    Forward,
    ForwardAndHold,
    Hold,
}

/// What the workers are to do with a batch.
#[derive(Copy, Clone, Debug, PartialEq, Eq, Structural)]
pub enum ProcessingInstruction {
    Consume,
    Forward,
    ForwardAndHold,
}

/// Identifier of a scheduled batch.
pub type ScheduledPacketBatchId = u64;

/// Generator for unique batch identifiers.
#[derive(Copy, Clone, Debug, PartialEq, Eq, Structural)]
pub struct ScheduledPacketBatchIdGenerator {
    pub next_id: u64,
}

impl ScheduledPacketBatchIdGenerator {
    pub fn new() -> (generator: Self)
        ensures
            generator.next_id == 0,
    {
        ScheduledPacketBatchIdGenerator { next_id: 0 }
    }

    /// The next identifier. Identifiers count up from zero, and start again
    /// only after all of `u64` has been handed out.
    pub fn generate_id(&mut self) -> (id: ScheduledPacketBatchId)
        ensures
            id == old(self).next_id,
            final(self).next_id == if old(self).next_id == u64::MAX {
                0
            } else {
                (old(self).next_id + 1) as u64
            },
    {
        let id = self.next_id;
        self.next_id = if id == u64::MAX {
            0
        } else {
            id + 1
        };
        id
    }
}

/// A batch of packets on its way to the workers.
#[derive(Debug)]
pub struct ScheduledPacketBatch {
    pub id: ScheduledPacketBatchId,
    pub processing_instruction: ProcessingInstruction,
    pub deserialized_packets: Vec<ImmutableDeserializedPacket>,
}

/// A scheduled batch as a value.
pub struct BatchView {
    pub id: ScheduledPacketBatchId,
    pub processing_instruction: ProcessingInstruction,
    pub packets: Seq<ImmutableDeserializedPacket>,
}

impl View for ScheduledPacketBatch {
    type V = BatchView;

    open spec fn view(&self) -> BatchView {
        BatchView {
            id: self.id,
            processing_instruction: self.processing_instruction,
            packets: self.deserialized_packets@,
        }
    }
}

/// The report of a worker on a batch: for each packet, in the order of the
/// batch, whether it is to be retried.
#[derive(Debug)]
pub struct ProcessedPacketBatch {
    pub id: ScheduledPacketBatchId,
    pub retryable_packets: Vec<bool>,
}

/// Why nothing was received.
#[derive(Copy, Clone, Debug, PartialEq, Eq, Structural)]
pub enum RecvTimeoutError {
    Timeout,
    Disconnected,
}

/// A packet as it arrives at the scheduler, with the transaction that
/// sanitizing it against the working bank gave, or `None` where that failed.
#[derive(Debug)]
pub struct IngressPacket {
    pub packet: ImmutableDeserializedPacket,
    pub transaction: Option<SanitizedTransaction>,
}

/// What the caller hands to the scheduler: the outcome of what it was asked to do.
#[derive(Debug)]
pub enum SchedulerEvent {
    /// The receive of deserialized packets has ended.
    Packets(Result<Vec<IngressPacket>, RecvTimeoutError>),
    /// The receive of a processed batch has ended.
    Processed(Result<ProcessedPacketBatch, RecvTimeoutError>),
    /// The decision maker has decided.
    Decision(BankPacketProcessingDecision),
    /// The send of a batch has ended; `true` where the batch was sent.
    Sent(bool),
}

/// What the scheduler asks the caller to do next.
#[derive(Debug)]
pub enum SchedulerAction {
    /// Receive deserialized packets, `capacity` at most, with the timeout.
    ReceivePackets { capacity: usize },
    /// Receive one processed batch, with the timeout.
    ReceiveProcessed,
    /// Ask the decision maker.
    MakeDecision,
    /// Send the batch to the workers.
    Send(ScheduledPacketBatch),
    /// Leave the loop.
    Stop,
}

/// The scheduler as a value.
pub struct SchedulerState {
    /// Transactions held after forwarding, to be pending again when consuming.
    pub held: Seq<TransactionPriorityId>,
    /// The transaction queue.
    pub queue: QueueState,
    /// The batches that are with the workers, by batch id.
    pub batches: Map<u64, BatchView>,
    /// The id of the next batch.
    pub next_batch_id: u64,
    /// The id of the next transaction.
    pub next_transaction_id: u64,
}

/// The batch id after `id`.
pub open spec fn following_id(id: u64) -> u64 {
    if id == u64::MAX {
        0
    } else {
        (id + 1) as u64
    }
}

/// What instruction a decision gives to the workers; none for `Hold`.
pub open spec fn instruction_of(decision: BankPacketProcessingDecision) -> Option<
    ProcessingInstruction,
> {
    match decision {
        BankPacketProcessingDecision::Consume => Some(ProcessingInstruction::Consume),
        BankPacketProcessingDecision::Forward => Some(ProcessingInstruction::Forward),
        BankPacketProcessingDecision::ForwardAndHold => Some(ProcessingInstruction::ForwardAndHold),
        BankPacketProcessingDecision::Hold => None,
    }
}

impl SchedulerState {
    /// The scheduler that holds nothing.
    pub open spec fn empty(capacity: nat) -> SchedulerState {
        SchedulerState {
            held: Seq::empty(),
            queue: QueueState::empty(capacity),
            batches: Map::empty(),
            next_batch_id: 0,
            next_transaction_id: 0,
        }
    }

    /// Whether a new packet is taken in: its message hash is not tracked yet,
    /// sanitizing it gave the transaction of that hash, the account locks of
    /// the transaction are valid, and an id is left for it.
    pub open spec fn admits(self, ingress: IngressPacket) -> bool {
        &&& !self.queue.hashes.contains_key(ingress.packet.message_hash)
        &&& ingress.transaction matches Some(transaction) && transaction.message_hash
            == ingress.packet.message_hash && transaction.valid_account_locks(MAX_TX_ACCOUNT_LOCKS)
        &&& self.next_transaction_id < u64::MAX
        &&& !self.queue.tracking.contains_key(self.next_transaction_id)
    }

    /// The scheduler after a new packet has arrived: taken into the queue
    /// under the next transaction id, or dropped.
    pub open spec fn insert_new_packet(self, ingress: IngressPacket) -> SchedulerState {
        if self.admits(ingress) {
            SchedulerState {
                queue: self.queue.insert_transaction(
                    TrackedTransaction {
                        transaction: SanitizedTransactionPriority {
                            id: TransactionId(self.next_transaction_id),
                            priority: ingress.packet.priority,
                            transaction: ingress.transaction->0,
                        },
                        packet: DeserializedPacket {
                            immutable_section: ingress.packet,
                            forwarded: false,
                        },
                    },
                ),
                next_transaction_id: (self.next_transaction_id + 1) as u64,
                ..self
            }
        } else {
            self
        }
    }

    /// The scheduler after each of `packets` has arrived, front to back.
    pub open spec fn insert_new_packets(self, packets: Seq<IngressPacket>) -> SchedulerState
        decreases packets.len(),
    {
        if packets.len() == 0 {
            self
        } else {
            self.insert_new_packets(packets.drop_last()).insert_new_packet(packets.last())
        }
    }

    /// The scheduler after the held transactions have been made pending again.
    pub open spec fn move_held_packets(self) -> SchedulerState {
        SchedulerState { held: Seq::empty(), queue: self.queue.push_all_pending(self.held), ..self }
    }

    /// The scheduler after a batch of `packets` has been given the next batch
    /// id and been noted as being with the workers.
    pub open spec fn create_scheduled_batch(
        self,
        packets: Seq<ImmutableDeserializedPacket>,
        instruction: ProcessingInstruction,
    ) -> SchedulerState {
        SchedulerState {
            batches: self.batches.insert(
                self.next_batch_id,
                BatchView { id: self.next_batch_id, processing_instruction: instruction, packets },
            ),
            next_batch_id: following_id(self.next_batch_id),
            ..self
        }
    }

    /// The scheduler after a worker has reported on one packet of a batch.
    /// Of a batch that was consumed or forwarded, the transaction is completed
    /// or retried. Of a batch that was forwarded and held, the transaction is
    /// marked as forwarded unless it is to be retried, and held for the next
    /// time of consuming. A packet whose hash is not tracked changes nothing.
    pub open spec fn complete_packet(
        self,
        instruction: ProcessingInstruction,
        packet: ImmutableDeserializedPacket,
        retry: bool,
    ) -> SchedulerState {
        if self.queue.hashes.contains_key(packet.message_hash) && self.queue.tracking.contains_key(
            self.queue.hashes[packet.message_hash],
        ) {
            let id = self.queue.hashes[packet.message_hash];
            match instruction {
                ProcessingInstruction::ForwardAndHold => SchedulerState {
                    queue: if retry {
                        self.queue
                    } else {
                        self.queue.mark_forwarded(id)
                    },
                    held: self.held.push(self.queue.tracking[id].transaction.handle()),
                    ..self
                },
                _ => SchedulerState { queue: self.queue.complete_or_retry(id, retry), ..self },
            }
        } else {
            self
        }
    }

    /// The scheduler after a worker has reported on the first `n` packets of a batch.
    pub open spec fn complete_packets(
        self,
        instruction: ProcessingInstruction,
        packets: Seq<ImmutableDeserializedPacket>,
        retryable: Seq<bool>,
        n: nat,
    ) -> SchedulerState
        decreases n,
    {
        if n == 0 || n > packets.len() || n > retryable.len() {
            self
        } else {
            self.complete_packets(instruction, packets, retryable, (n - 1) as nat).complete_packet(
                instruction,
                packets[n - 1],
                retryable[n - 1],
            )
        }
    }

    /// The scheduler after a worker has reported on the batch `id`: the
    /// batch is no longer with the workers, and each of its packets that the
    /// report speaks of is settled.
    pub open spec fn complete_batch(self, id: u64, retryable: Seq<bool>) -> SchedulerState {
        let batch = self.batches[id];
        let n = if batch.packets.len() <= retryable.len() {
            batch.packets.len()
        } else {
            retryable.len()
        };
        SchedulerState { batches: self.batches.remove(id), ..self }.complete_packets(
            batch.processing_instruction,
            batch.packets,
            retryable,
            n,
        )
    }

    /// The scheduler after a forwarding batch has been asked for, and the
    /// packets of the batch, where `verdicts` are the answers of the filter;
    /// there is no batch where the packets are none.
    pub open spec fn forward_batch(self, verdicts: Seq<bool>, instruction: ProcessingInstruction) -> (
        SchedulerState,
        Seq<ImmutableDeserializedPacket>,
    ) {
        let packets = self.queue.forward(verdicts).1;
        let after = SchedulerState { queue: self.queue.forward(verdicts).0, ..self };
        if packets.len() == 0 {
            (after, packets)
        } else {
            (after.create_scheduled_batch(packets, instruction), packets)
        }
    }

    /// The scheduler after a consume batch has been asked for, and the
    /// packets of the batch; there is no batch where the packets are none.
    pub open spec fn consume_batch(self) -> (SchedulerState, Seq<ImmutableDeserializedPacket>) {
        let moved = self.move_held_packets();
        let taken = moved.queue.consume(Seq::empty()).1;
        let packets = moved.queue.packets_of(taken);
        let after = SchedulerState { queue: moved.queue.after_consume_batch(), ..moved };
        if taken.len() == 0 {
            (after, packets)
        } else {
            (after.create_scheduled_batch(packets, ProcessingInstruction::Consume), packets)
        }
    }
}

/// Central scheduler: the queue of transactions, the batches that are with
/// the workers, and what is held after forwarding.
pub struct CentralNonConflictingScheduler {
    /// Packets to be held after forwarding
    held_packets: Vec<TransactionPriorityId>,
    /// Queue structure for ordering and keeping track of transactions
    transaction_queue: TransactionQueue,
    /// Scheduled batches currently being processed.
    current_batches: HashMap<u64, ScheduledPacketBatch>,
    /// Generator for unique batch identifiers.
    batch_id_generator: ScheduledPacketBatchIdGenerator,
    /// The identifier of the next transaction.
    next_transaction_id: u64,
}

impl View for CentralNonConflictingScheduler {
    type V = SchedulerState;

    closed spec fn view(&self) -> SchedulerState {
        SchedulerState {
            held: self.held_packets@,
            queue: self.transaction_queue@,
            batches: self.current_batches@.map_values(|batch: ScheduledPacketBatch| batch@),
            next_batch_id: self.batch_id_generator.next_id,
            next_transaction_id: self.next_transaction_id,
        }
    }
}

impl CentralNonConflictingScheduler {
    /// The invariant of the scheduler: that of its queue.
    pub closed spec fn inv(&self) -> bool {
        self.transaction_queue.inv()
    }

    /// The pending transactions stay within the capacity of the queue.
    pub proof fn lemma_pending_within_capacity(&self)
        requires
            self.inv(),
        ensures
            self@.queue.pending.len() <= self@.queue.capacity,
    {
        self.transaction_queue.lemma_pending_within_capacity();
    }

    /// Create a new scheduler
    pub fn new(capacity: usize) -> (scheduler: Self)
        requires
            capacity * 16 <= isize::MAX,
        ensures
            scheduler.inv(),
            scheduler@ == SchedulerState::empty(capacity as nat),
    {
        let scheduler = CentralNonConflictingScheduler {
            held_packets: Vec::new(),
            transaction_queue: TransactionQueue::with_capacity(capacity),
            current_batches: HashMap::new(),
            batch_id_generator: ScheduledPacketBatchIdGenerator::new(),
            next_transaction_id: 0,
        };
        proof {
            assert(scheduler@.batches =~= Map::<u64, BatchView>::empty());
            assert(scheduler@.held =~= Seq::<TransactionPriorityId>::empty());
        }
        scheduler
    }

    /// The transaction queue of the scheduler.
    pub fn transaction_queue(&self) -> (queue: &TransactionQueue)
        ensures
            queue@ == self@.queue,
            self.inv() ==> queue.inv(),
    {
        &self.transaction_queue
    }

    /// Number of batches that are with the workers.
    pub fn num_current_batches(&self) -> (len: usize)
        ensures
            len == self@.batches.len(),
    {
        proof {
            let batches = self.current_batches@;
            assert(self@.batches.dom() =~= batches.dom());
        }
        self.current_batches.len()
    }

    /// Whether the batch `id` is with the workers.
    pub fn has_current_batch(&self, id: ScheduledPacketBatchId) -> (found: bool)
        ensures
            found == self@.batches.contains_key(id),
    {
        self.current_batches.contains_key(&id)
    }

    /// Number of transactions that are held after forwarding.
    pub fn num_held_packets(&self) -> (len: usize)
        ensures
            len == self@.held.len(),
    {
        self.held_packets.len()
    }

    /// Insert a new packet into the scheduler
    pub fn insert_new_packet(&mut self, ingress: IngressPacket) -> (inserted: bool)
        requires
            old(self).inv(),
        ensures
            final(self).inv(),
            inserted == old(self)@.admits(ingress),
            final(self)@ == old(self)@.insert_new_packet(ingress),
    {
        let IngressPacket { packet, transaction } = ingress;
        if self.transaction_queue.get_id_by_hash(packet.message_hash()).is_some() {
            return false;
        }
        let id = TransactionId::new(self.next_transaction_id);
        match SanitizedTransactionPriority::try_new(id, &packet, transaction) {
            Some(transaction) => {
                if transaction.get_account_locks().is_none() {
                    false
                } else if self.next_transaction_id == u64::MAX || self.transaction_queue.is_tracked(
                    &id,
                ) {
                    false
                } else {
                    self.transaction_queue.insert_transaction(
                        transaction,
                        DeserializedPacket::from_immutable_section(packet),
                    );
                    self.next_transaction_id = self.next_transaction_id + 1;
                    true
                }
            },
            None => false,
        }
    }

    /// Buffers the packets that were received from the deserializer, if any were.
    pub fn receive_and_buffer_packets(
        &mut self,
        received: Result<Vec<IngressPacket>, RecvTimeoutError>,
    ) -> (result: Result<(), RecvTimeoutError>)
        requires
            old(self).inv(),
        ensures
            final(self).inv(),
            match received {
                Ok(packets) => result == Ok::<(), RecvTimeoutError>(()) && final(self)@ == old(
                    self,
                )@.insert_new_packets(packets@),
                Err(error) => result == Err::<(), RecvTimeoutError>(error) && final(self)@ == old(
                    self,
                )@,
            },
    {
        match received {
            Ok(deserialized_packets) => {
                let ghost all = deserialized_packets@;
                for packet in iter: deserialized_packets
                    invariant
                        self.inv(),
                        iter.seq() == all,
                        self@ == old(self)@.insert_new_packets(all.take(iter.index() as int)),
                {
                    proof {
                        assert(all.take(iter.index() + 1).drop_last() =~= all.take(
                            iter.index() as int,
                        ));
                    }
                    self.insert_new_packet(packet);
                }
                proof {
                    assert(all.take(all.len() as int) =~= all);
                }
                Ok(())
            },
            Err(error) => Err(error),
        }
    }

    /// Move held packets back into the queues
    pub fn move_held_packets(&mut self)
        requires
            old(self).inv(),
        ensures
            final(self).inv(),
            final(self)@ == old(self)@.move_held_packets(),
    {
        let mut i: usize = 0;
        proof {
            assert(self.held_packets@.take(0) =~= Seq::<TransactionPriorityId>::empty());
        }
        while i < self.held_packets.len()
            invariant
                self.inv(),
                i <= self.held_packets.len(),
                self.held_packets == old(self).held_packets,
                self.current_batches == old(self).current_batches,
                self.batch_id_generator == old(self).batch_id_generator,
                self.next_transaction_id == old(self).next_transaction_id,
                self.transaction_queue@ == old(self)@.queue.push_all_pending(
                    self.held_packets@.take(i as int),
                ),
            decreases self.held_packets.len() - i,
        {
            let transaction = self.held_packets[i];
            self.transaction_queue.insert_transaction_into_pending_queue(&transaction);
            proof {
                assert(self.held_packets@.take(i + 1).drop_last() =~= self.held_packets@.take(
                    i as int,
                ));
            }
            i += 1;
        }
        proof {
            assert(self.held_packets@.take(i as int) =~= self.held_packets@);
        }
        self.held_packets.clear();
    }

    /// Create scheduled batch from deserialized packets and decision. Insert into the current
    /// batches map.
    pub fn create_scheduled_batch(
        &mut self,
        deserialized_packets: Vec<ImmutableDeserializedPacket>,
        instruction: ProcessingInstruction,
    ) -> (batch: ScheduledPacketBatch)
        requires
            old(self).inv(),
        ensures
            final(self).inv(),
            final(self)@ == old(self)@.create_scheduled_batch(deserialized_packets@, instruction),
            batch@ == (BatchView {
                id: old(self)@.next_batch_id,
                processing_instruction: instruction,
                packets: deserialized_packets@,
            }),
    {
        let id = self.batch_id_generator.generate_id();
        let mut packets: Vec<ImmutableDeserializedPacket> = Vec::new();
        let mut i: usize = 0;
        while i < deserialized_packets.len()
            invariant
                i <= deserialized_packets.len(),
                packets@ == deserialized_packets@.take(i as int),
            decreases deserialized_packets.len() - i,
        {
            packets.push(deserialized_packets[i]);
            proof {
                assert(deserialized_packets@.take(i + 1) =~= deserialized_packets@.take(
                    i as int,
                ).push(deserialized_packets@[i as int]));
            }
            i += 1;
        }
        proof {
            assert(deserialized_packets@.take(i as int) =~= deserialized_packets@);
        }
        self.current_batches.insert(
            id,
            ScheduledPacketBatch {
                id,
                processing_instruction: instruction,
                deserialized_packets: packets,
            },
        );
        proof {
            assert(self@.batches =~= old(self)@.create_scheduled_batch(
                deserialized_packets@,
                instruction,
            ).batches);
        }
        ScheduledPacketBatch { id, processing_instruction: instruction, deserialized_packets }
    }

    /// Settles one packet of a batch that a worker has reported on.
    pub fn complete_packet(
        &mut self,
        instruction: ProcessingInstruction,
        packet: &ImmutableDeserializedPacket,
        retry: bool,
    )
        requires
            old(self).inv(),
        ensures
            final(self).inv(),
            final(self)@ == old(self)@.complete_packet(instruction, *packet, retry),
    {
        match self.transaction_queue.get_id_by_hash(packet.message_hash()) {
            Some(id) => {
                if self.transaction_queue.is_tracked(&id) {
                    match instruction {
                        ProcessingInstruction::ForwardAndHold => {
                            let handle = self.transaction_queue.get_handle(&id);
                            if !retry {
                                self.transaction_queue.mark_forwarded(&id);
                            }
                            match handle {
                                Some(handle) => {
                                    self.held_packets.push(handle);
                                },
                                None => {},
                            }
                        },
                        _ => {
                            self.transaction_queue.complete_or_retry(&id, retry);
                        },
                    }
                }
            },
            None => {},
        }
    }

    /// Complete the processing of a batch of transactions. This function will remove the transactions
    /// from tracking and unblock any transactions that were waiting on the results of these.
    pub fn complete_batch(&mut self, batch: ProcessedPacketBatch)
        requires
            old(self).inv(),
            old(self)@.batches.contains_key(batch.id),
        ensures
            final(self).inv(),
            final(self)@ == old(self)@.complete_batch(batch.id, batch.retryable_packets@),
    {
        let current_batch = match self.current_batches.remove(&batch.id) {
            Some(current_batch) => current_batch,
            None => vstd::pervasive::unreached(),
        };
        let ghost start = SchedulerState { batches: old(self)@.batches.remove(batch.id), ..old(self)@ };
        proof {
            assert(self@.batches =~= start.batches);
            assert(current_batch@ == old(self)@.batches[batch.id]);
        }
        let n = if current_batch.deserialized_packets.len() <= batch.retryable_packets.len() {
            current_batch.deserialized_packets.len()
        } else {
            batch.retryable_packets.len()
        };
        let mut i: usize = 0;
        while i < n
            invariant
                self.inv(),
                i <= n,
                n <= current_batch.deserialized_packets.len(),
                n <= batch.retryable_packets.len(),
                self@ == start.complete_packets(
                    current_batch.processing_instruction,
                    current_batch.deserialized_packets@,
                    batch.retryable_packets@,
                    i as nat,
                ),
            decreases n - i,
        {
            self.complete_packet(
                current_batch.processing_instruction,
                &current_batch.deserialized_packets[i],
                batch.retryable_packets[i],
            );
            i += 1;
        }
    }

    /// Get the next batch of transactions to be processed by banking stage.
    /// When consuming, the held transactions are made pending again and a
    /// batch without conflicts is assembled. When forwarding, the batch holds
    /// what the filter takes of the pending transactions. When holding, there
    /// is no batch.
    pub fn get_next_transaction_batch<F: ForwardFilter>(
        &mut self,
        decision: BankPacketProcessingDecision,
        forward_filter: &mut F,
    ) -> (batch: Option<ScheduledPacketBatch>)
        requires
            old(self).inv(),
        ensures
            final(self).inv(),
            decision == BankPacketProcessingDecision::Hold ==> batch is None && final(self)@ == old(
                self,
            )@,
            decision == BankPacketProcessingDecision::Consume ==> {
                &&& final(self)@ == old(self)@.consume_batch().0
                &&& match batch {
                    Some(scheduled) => scheduled@ == (BatchView {
                        id: old(self)@.next_batch_id,
                        processing_instruction: ProcessingInstruction::Consume,
                        packets: old(self)@.consume_batch().1,
                    }) && scheduled@.packets.len() > 0,
                    None => old(self)@.consume_batch().1.len() == 0,
                }
            },
            decision == BankPacketProcessingDecision::Forward || decision
                == BankPacketProcessingDecision::ForwardAndHold ==> {
                &&& exists|verdicts: Seq<bool>|
                    old(self)@.queue.forwards_to_the_end(verdicts) && #[trigger] old(
                        self,
                    )@.forward_batch(verdicts, instruction_of(decision)->0) == (
                        final(self)@,
                        match batch {
                            Some(scheduled) => scheduled@.packets,
                            None => Seq::empty(),
                        },
                    )
                &&& match batch {
                    Some(scheduled) => {
                        &&& scheduled@.id == old(self)@.next_batch_id
                        &&& Some(scheduled@.processing_instruction) == instruction_of(decision)
                        &&& scheduled@.packets.len() > 0
                    },
                    None => true,
                }
            },
    {
        match decision {
            BankPacketProcessingDecision::Consume => {
                self.move_held_packets();
                match self.transaction_queue.get_consume_batch() {
                    Some(deserialized_packets) => {
                        proof {
                            let moved = old(self)@.move_held_packets().queue;
                            moved.lemma_consume_keeps(Seq::empty());
                            moved.consume(Seq::empty()).0.lemma_lock_batch_keeps(
                                moved.consume(Seq::empty()).1,
                            );
                            assert(deserialized_packets@ =~= old(self)@.consume_batch().1);
                        }
                        Some(
                            self.create_scheduled_batch(
                                deserialized_packets,
                                ProcessingInstruction::Consume,
                            ),
                        )
                    },
                    None => {
                        proof {
                            assert(old(self)@.consume_batch().1 =~= Seq::empty());
                        }
                        None
                    },
                }
            },
            BankPacketProcessingDecision::Forward | BankPacketProcessingDecision::ForwardAndHold => {
                let instruction = match decision {
                    BankPacketProcessingDecision::Forward => ProcessingInstruction::Forward,
                    _ => ProcessingInstruction::ForwardAndHold,
                };
                let ghost start = self.transaction_queue@;
                let forwarded = self.transaction_queue.get_forwarding_batch(forward_filter);
                let ghost packets = if forwarded is Some {
                    forwarded->0@
                } else {
                    Seq::empty()
                };
                let ghost verdicts = choose|verdicts: Seq<bool>|
                    start.forwards_to_the_end(verdicts) && #[trigger] start.forward(verdicts) == (
                        self.transaction_queue@,
                        packets,
                    );
                proof {
                    assert(start == old(self)@.queue);
                    assert(start.forwards_to_the_end(verdicts));
                    assert(start.forward(verdicts) == (self.transaction_queue@, packets));
                }
                let batch = match forwarded {
                    Some(deserialized_packets) => Some(
                        self.create_scheduled_batch(deserialized_packets, instruction),
                    ),
                    None => None,
                };
                proof {
                    assert(instruction_of(decision) == Some(instruction));
                    assert(old(self)@.forward_batch(verdicts, instruction_of(decision)->0) == (
                        self@,
                        match batch {
                            Some(scheduled) => scheduled@.packets,
                            None => Seq::empty(),
                        },
                    ));
                }
                batch
            },
            BankPacketProcessingDecision::Hold => None,
        }
    }

    /// One step of the scheduler loop: takes in what came of the last action
    /// and says what to do next. An iteration receives packets, receives one
    /// processed batch, asks for the decision, and sends the batch if there
    /// is one. The loop ends when a channel is disconnected. A processed
    /// batch whose id is not that of a batch with the workers is ignored here;
    /// `complete_batch` does not accept it.
    pub fn handle_event<F: ForwardFilter>(&mut self, event: SchedulerEvent, forward_filter: &mut F) -> (
    action: SchedulerAction)
        requires
            old(self).inv(),
        ensures
            final(self).inv(),
            match event {
                SchedulerEvent::Packets(Ok(packets)) => action is ReceiveProcessed && final(self)@
                    == old(self)@.insert_new_packets(packets@),
                SchedulerEvent::Packets(Err(RecvTimeoutError::Timeout)) => action
                    is ReceiveProcessed && final(self)@ == old(self)@,
                SchedulerEvent::Packets(Err(RecvTimeoutError::Disconnected)) => action is Stop
                    && final(self)@ == old(self)@,
                SchedulerEvent::Processed(Ok(batch)) => action is MakeDecision && final(self)@
                    == if old(self)@.batches.contains_key(batch.id) {
                    old(self)@.complete_batch(batch.id, batch.retryable_packets@)
                } else {
                    old(self)@
                },
                SchedulerEvent::Processed(Err(RecvTimeoutError::Timeout)) => action is MakeDecision
                    && final(self)@ == old(self)@,
                SchedulerEvent::Processed(Err(RecvTimeoutError::Disconnected)) => action is Stop
                    && final(self)@ == old(self)@,
                SchedulerEvent::Decision(decision) => {
                    &&& match action {
                        SchedulerAction::Send(batch) => batch@.id == old(self)@.next_batch_id
                            && Some(batch@.processing_instruction) == instruction_of(decision)
                            && batch@.packets.len() > 0 && final(self)@.batches.contains_key(
                            batch@.id,
                        ) && final(self)@.batches[batch@.id] == batch@,
                        SchedulerAction::ReceivePackets { capacity } => capacity == final(self)@.queue.capacity - final(self)@.queue.pending.len() && final(self)@.batches == old(self)@.batches,
                        _ => false,
                    }
                    &&& decision == BankPacketProcessingDecision::Hold ==> final(self)@ == old(
                        self,
                    )@ && action is ReceivePackets
                    &&& decision == BankPacketProcessingDecision::Consume ==> final(self)@ == old(
                        self,
                    )@.consume_batch().0 && match action {
                        SchedulerAction::Send(batch) => batch@.packets == old(
                            self,
                        )@.consume_batch().1,
                        _ => old(self)@.consume_batch().1.len() == 0,
                    }
                    &&& decision == BankPacketProcessingDecision::Forward || decision
                        == BankPacketProcessingDecision::ForwardAndHold ==> exists|
                        verdicts: Seq<bool>,
                    |
                        old(self)@.queue.forwards_to_the_end(verdicts) && #[trigger] old(
                            self,
                        )@.forward_batch(verdicts, instruction_of(decision)->0) == (
                            final(self)@,
                            match action {
                                SchedulerAction::Send(batch) => batch@.packets,
                                _ => Seq::empty(),
                            },
                        )
                },
                SchedulerEvent::Sent(sent) => final(self)@ == old(self)@ && if sent {
                    action == (SchedulerAction::ReceivePackets {
                        capacity: (old(self)@.queue.capacity - old(self)@.queue.pending.len()) as usize,
                    })
                } else {
                    action is Stop
                },
            },
    {
        match event {
            SchedulerEvent::Packets(received) => {
                match self.receive_and_buffer_packets(received) {
                    Err(RecvTimeoutError::Disconnected) => SchedulerAction::Stop,
                    _ => SchedulerAction::ReceiveProcessed,
                }
            },
            SchedulerEvent::Processed(received) => {
                match received {
                    Err(RecvTimeoutError::Disconnected) => SchedulerAction::Stop,
                    Err(RecvTimeoutError::Timeout) => SchedulerAction::MakeDecision,
                    Ok(processed_batch) => {
                        if self.current_batches.contains_key(&processed_batch.id) {
                            proof {
                                assert(self@.batches.contains_key(processed_batch.id));
                            }
                            self.complete_batch(processed_batch);
                        } else {
                            proof {
                                assert(!self@.batches.contains_key(processed_batch.id));
                            }
                        }
                        SchedulerAction::MakeDecision
                    },
                }
            },
            SchedulerEvent::Decision(decision) => {
                match self.get_next_transaction_batch(decision, forward_filter) {
                    Some(batch) => SchedulerAction::Send(batch),
                    None => SchedulerAction::ReceivePackets {
                        capacity: self.transaction_queue.remaining_capacity(),
                    },
                }
            },
            SchedulerEvent::Sent(sent) => {
                if sent {
                    SchedulerAction::ReceivePackets {
                        capacity: self.transaction_queue.remaining_capacity(),
                    }
                } else {
                    SchedulerAction::Stop
                }
            },
        }
    }
}

} // verus!
