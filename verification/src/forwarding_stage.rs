//! The rules of the forwarding stage that do not touch the network: which
//! packets are forwarded, whether a batch came from the vote port, and how
//! the outbound data budget is refilled.

use vstd::prelude::*;

verus! {

/// Length of the interval after which the data budget is refilled.
pub const INTERVAL_MS: u64 = 100;

/// 12 MB outbound limit per second
pub const MAX_BYTES_PER_SECOND: usize = 12_000_000;

/// What one interval adds to the budget.
pub const MAX_BYTES_PER_INTERVAL: usize = 1_200_000;

/// The most the budget can hold: what five intervals add.
pub const MAX_BYTES_BUDGET: usize = 6_000_000;

/// What the forwarding stage reads of a packet.
#[derive(Copy, Clone, Debug, PartialEq, Eq, Structural)]
pub struct PacketMeta {
    pub size: usize,
    pub forwarded: bool,
    pub from_staked_node: bool,
    pub simple_vote_tx: bool,
}

/// The budget after a refill: one interval's worth more, up to the most the
/// budget can hold.
pub open spec fn refilled(bytes: usize) -> usize {
    if bytes + MAX_BYTES_PER_INTERVAL <= MAX_BYTES_BUDGET {
        (bytes + MAX_BYTES_PER_INTERVAL) as usize
    } else {
        MAX_BYTES_BUDGET
    }
}

/// Re-fill the data budget once an interval has passed
pub fn update_data_budget(bytes: usize) -> (budget: usize)
    ensures
        budget == refilled(bytes),
        budget <= MAX_BYTES_BUDGET,
{
    let added = bytes.saturating_add(MAX_BYTES_PER_INTERVAL);
    if added < MAX_BYTES_BUDGET {
        added
    } else {
        MAX_BYTES_BUDGET
    }
}

/// Whether a packet is forwarded, as far as the packet itself decides: it has
/// not been forwarded before, and it came from a staked node.
pub fn is_forwardable(meta: &PacketMeta) -> (forwardable: bool)
    ensures
        forwardable == (!meta.forwarded && meta.from_staked_node),
{
    !meta.forwarded && meta.from_staked_node
}

/// The first packet of the first batch, if it has one.
pub open spec fn first_packet(packet_batches: Seq<Vec<PacketMeta>>) -> Option<PacketMeta> {
    if packet_batches.len() > 0 && packet_batches[0].len() > 0 {
        Some(packet_batches[0][0])
    } else {
        None
    }
}

/// Check if `packet_batches` came from tpu_vote or tpu.
/// Returns true if the packets are from tpu_vote, false if from tpu.
pub fn is_tpu_vote(packet_batches: &[Vec<PacketMeta>]) -> (vote: bool)
    ensures
        vote == match first_packet(packet_batches@) {
            Some(packet) => packet.simple_vote_tx,
            None => false,
        },
{
    if packet_batches.len() > 0 && packet_batches[0].len() > 0 {
        packet_batches[0][0].simple_vote_tx
    } else {
        false
    }
}

} // verus!
