//! Core of a transaction scheduler: a thread-aware account-lock table, a
//! bounded priority container for pending transactions, and the queue and
//! control decisions that assemble non-conflicting batches for worker threads.

pub mod account_transaction_queue;
pub mod central_nonconflicting_scheduler;
pub mod forwarding_stage;
pub mod heap;
pub mod key_map;
pub mod lock_table;
pub mod packet;
pub mod queue_laws;
pub mod queue_state;
pub mod thread_aware_account_locks;
pub mod thread_set;
pub mod transaction_packet_container;
pub mod transaction_priority_id;
pub mod transaction_queue;
