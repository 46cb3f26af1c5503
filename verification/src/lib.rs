//! A small proof-of-work blockchain node core.
//!
//! The library holds everything the node decides: the block and chain
//! model with proof-of-work and chain verification, the canonical
//! serialization used both for hashing and on the wire, the account
//! ledger rebuilt deterministically from the chain, the transaction
//! pool, the mining worker's state machine, and the node loop's
//! event-handling decisions. The program around it only moves bytes:
//! stdin, the gossip transport, and the worker task's channels.

pub mod address;
pub mod blockchain;
pub mod codec;
pub mod crypto;
pub mod hex;
pub mod mining;
pub mod node;
pub mod settlement;
