//! Soft deletion of key-value metadata.
//!
//! A value is "tombstoned" by moving it, atomically, from its key to a
//! prefixed key in the same store, and restored by moving it back. The store
//! is reached through [`kv_backend::KvBackend`]; every move is a conditional
//! transaction that only fires when the source still holds the value that was
//! last observed, and is retried with a refreshed value otherwise.
//!
//! - [`txn`]: conditional transactions, merged transactions, and what a store
//!   does with them.
//! - [`kv_backend`]: the interface of the store; [`memory`]: a store in
//!   memory.
//! - [`extract`]: reading the outcome of every key out of a flat response.
//! - [`working_set`]: the items of a move and the steps between two calls of
//!   the store; [`rounds`]: the same steps as a state machine.
//! - [`manager`]: the tombstone manager itself.
//! - [`moves`], [`run`], [`laws`]: what a move means, what the manager does
//!   on a store of its own, and what follows from it.
//! - [`error`]: the errors, and what they say.

pub mod bytes;
pub mod txn;
pub mod kv_backend;
pub mod memory;
pub mod error;
pub mod extract;
pub mod working_set;
pub mod rounds;
pub mod moves;
pub mod run;
pub mod manager;
pub mod laws;
