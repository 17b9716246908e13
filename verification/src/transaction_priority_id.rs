//! Identifiers of pending transactions, and the order in which they are served.

use vstd::prelude::*;

verus! {

/// Identifier of a transaction inside the scheduler.
#[derive(Copy, Clone, Debug, PartialEq, Eq, Hash, PartialOrd, Ord, Structural)]
pub struct TransactionId(pub u64);

impl TransactionId {
    /// The identifier with the given number.
    pub fn new(id: u64) -> (transaction_id: Self)
        ensures
            transaction_id.0 == id,
    {
        TransactionId(id)
    }
}

/// A transaction identifier together with the priority of the transaction.
/// Higher priorities are served first; among equal priorities the identifier
/// decides.
#[derive(Copy, Clone, Debug, PartialEq, Eq, Hash, PartialOrd, Ord, Structural)]
pub struct TransactionPriorityId {
    pub priority: u64,
    pub id: TransactionId,
}

impl TransactionPriorityId {
    /// The pair `(priority, id)` by which the transaction is ordered.
    pub open spec fn pair(self) -> (u64, u64) {
        (self.priority, self.id.0)
    }

    /// The transaction that is ordered by the given pair.
    pub open spec fn of_pair(pair: (u64, u64)) -> TransactionPriorityId {
        TransactionPriorityId { priority: pair.0, id: TransactionId(pair.1) }
    }

    pub fn new(priority: u64, id: TransactionId) -> (priority_id: Self)
        ensures
            priority_id.priority == priority,
            priority_id.id == id,
    {
        TransactionPriorityId { priority, id }
    }

    /// The pair `(priority, id)` by which the transaction is ordered.
    pub fn to_pair(&self) -> (pair: (u64, u64))
        ensures
            pair == self.pair(),
    {
        (self.priority, self.id.0)
    }

    /// The transaction that is ordered by the given pair.
    pub fn from_pair(pair: (u64, u64)) -> (priority_id: Self)
        ensures
            priority_id == Self::of_pair(pair),
            priority_id.pair() == pair,
    {
        TransactionPriorityId { priority: pair.0, id: TransactionId(pair.1) }
    }
}

/// The ordering pairs of a sequence of transactions.
pub open spec fn pairs_of(ids: Seq<TransactionPriorityId>) -> Seq<(u64, u64)> {
    ids.map_values(|p: TransactionPriorityId| p.pair())
}

} // verus!
