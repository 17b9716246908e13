//! What the scheduler reads of a packet and of a sanitized transaction.
//!
//! The on-wire bytes of a packet stay with the caller, who finds them again by
//! the message hash; the scheduler decides by the values below alone.

use crate::key_map::{MessageHash, Pubkey};
use vstd::prelude::*;

verus! {

/// Slot number of the ledger.
pub type Slot = u64;

/// Largest number of accounts that a transaction may lock.
pub const MAX_TX_ACCOUNT_LOCKS: usize = 128;

/// The immutable part of a deserialized packet.
#[derive(Copy, Clone, Debug, PartialEq, Eq, Structural)]
pub struct ImmutableDeserializedPacket {
    pub message_hash: MessageHash,
    pub priority: u64,
    pub is_simple_vote: bool,
    pub size: usize,
    pub from_staked_node: bool,
}

impl ImmutableDeserializedPacket {
    pub fn new(
        message_hash: MessageHash,
        priority: u64,
        is_simple_vote: bool,
        size: usize,
        from_staked_node: bool,
    ) -> (packet: Self)
        ensures
            packet == (ImmutableDeserializedPacket {
                message_hash,
                priority,
                is_simple_vote,
                size,
                from_staked_node,
            }),
    {
        ImmutableDeserializedPacket { message_hash, priority, is_simple_vote, size, from_staked_node }
    }

    pub fn message_hash(&self) -> (hash: &MessageHash)
        ensures
            *hash == self.message_hash,
    {
        &self.message_hash
    }

    pub fn priority(&self) -> (priority: u64)
        ensures
            priority == self.priority,
    {
        self.priority
    }

    pub fn is_simple_vote(&self) -> (vote: bool)
        ensures
            vote == self.is_simple_vote,
    {
        self.is_simple_vote
    }
}

/// A deserialized packet as the scheduler holds it: the immutable part, and
/// whether the packet has been forwarded.
#[derive(Copy, Clone, Debug, PartialEq, Eq, Structural)]
pub struct DeserializedPacket {
    pub immutable_section: ImmutableDeserializedPacket,
    pub forwarded: bool,
}

impl DeserializedPacket {
    /// A packet that has not been forwarded.
    pub fn from_immutable_section(immutable_section: ImmutableDeserializedPacket) -> (packet: Self)
        ensures
            packet == (DeserializedPacket { immutable_section, forwarded: false }),
    {
        DeserializedPacket { immutable_section, forwarded: false }
    }

    pub fn immutable_section(&self) -> (section: &ImmutableDeserializedPacket)
        ensures
            *section == self.immutable_section,
    {
        &self.immutable_section
    }
}

/// The accounts that a transaction locks.
pub struct TransactionAccountLocks<'a> {
    /// Accounts that the transaction reads.
    pub readonly: &'a [Pubkey],
    /// Accounts that the transaction writes.
    pub writable: &'a [Pubkey],
}

/// A sanitized transaction: its message hash and the accounts it declares.
#[derive(Debug)]
pub struct SanitizedTransaction {
    pub message_hash: MessageHash,
    pub writable: Vec<Pubkey>,
    pub readonly: Vec<Pubkey>,
}

impl SanitizedTransaction {
    pub fn new(message_hash: MessageHash, writable: Vec<Pubkey>, readonly: Vec<Pubkey>) -> (transaction:
        Self)
        ensures
            transaction.message_hash == message_hash,
            transaction.writable == writable,
            transaction.readonly == readonly,
    {
        SanitizedTransaction { message_hash, writable, readonly }
    }

    /// All accounts of the transaction: those it writes, then those it reads.
    pub open spec fn account_keys(&self) -> Seq<Pubkey> {
        self.writable@ + self.readonly@
    }

    /// Whether the account locks can be taken: no account is listed twice, and
    /// there are at most `tx_account_lock_limit` of them.
    pub open spec fn valid_account_locks(&self, tx_account_lock_limit: usize) -> bool {
        self.account_keys().no_duplicates() && self.account_keys().len() <= tx_account_lock_limit
    }

    pub fn message_hash(&self) -> (hash: &MessageHash)
        ensures
            *hash == self.message_hash,
    {
        &self.message_hash
    }

    /// The account at position `i` of `account_keys`.
    fn account_key(&self, i: usize) -> (key: &Pubkey)
        requires
            i < self.account_keys().len(),
        ensures
            *key == self.account_keys()[i as int],
    {
        if i < self.writable.len() {
            &self.writable[i]
        } else {
            &self.readonly[i - self.writable.len()]
        }
    }

    /// Whether an account is listed twice.
    fn has_duplicates(&self) -> (found: bool)
        requires
            self.account_keys().len() <= usize::MAX,
        ensures
            found == !self.account_keys().no_duplicates(),
    {
        let n = self.writable.len() + self.readonly.len();
        let mut i: usize = 0;
        while i < n
            invariant
                n == self.account_keys().len(),
                i <= n,
                forall|a: int, b: int|
                    0 <= a < i && a < b < n ==> self.account_keys()[a] != self.account_keys()[b],
            decreases n - i,
        {
            let mut j: usize = i + 1;
            while j < n
                invariant
                    n == self.account_keys().len(),
                    i < n,
                    i < j <= n,
                    forall|a: int, b: int|
                        0 <= a < i && a < b < n ==> self.account_keys()[a]
                            != self.account_keys()[b],
                    forall|b: int| i < b < j ==> self.account_keys()[i as int]
                        != self.account_keys()[b],
                decreases n - j,
            {
                let first = self.account_key(i);
                let second = self.account_key(j);
                if first.hi == second.hi && first.lo == second.lo {
                    assert(self.account_keys()[i as int] == self.account_keys()[j as int]);
                    return true;
                }
                j += 1;
            }
            i += 1;
        }
        assert forall|a: int, b: int|
            0 <= a < self.account_keys().len() && 0 <= b < self.account_keys().len() && a
                != b implies self.account_keys()[a] != self.account_keys()[b] by {
            if a < b {
            } else {
                assert(self.account_keys()[b] != self.account_keys()[a]);
            }
        }
        false
    }

    /// Validate and return the account keys locked by this transaction.
    pub fn get_account_locks(&self, tx_account_lock_limit: usize) -> (locks: Option<
        TransactionAccountLocks<'_>,
    >)
        ensures
            locks.is_some() == self.valid_account_locks(tx_account_lock_limit),
            match locks {
                Some(l) => l.writable@ == self.writable@ && l.readonly@ == self.readonly@,
                None => true,
            },
    {
        if self.readonly.len() > tx_account_lock_limit || self.writable.len()
            > tx_account_lock_limit - self.readonly.len() {
            None
        } else if self.has_duplicates() {
            None
        } else {
            Some(self.get_account_locks_unchecked())
        }
    }

    /// Return the account keys locked by this transaction without validation.
    pub fn get_account_locks_unchecked(&self) -> (locks: TransactionAccountLocks<'_>)
        ensures
            locks.writable@ == self.writable@,
            locks.readonly@ == self.readonly@,
    {
        TransactionAccountLocks {
            readonly: self.readonly.as_slice(),
            writable: self.writable.as_slice(),
        }
    }
}

/// A sanitized transaction and the last slot in which it may be processed.
#[derive(Debug)]
pub struct SanitizedTransactionTTL {
    pub transaction: SanitizedTransaction,
    pub max_age_slot: Slot,
}

} // verus!
