//! Core of a permissioned ledger node: the Byzantine-fault-tolerant consensus
//! engine, the transaction admission queue, the block lifecycle, the rotating
//! network topology and the view-change proofs that hold them together.
//!
//! Every function in this crate is verified with Verus. Cryptographic
//! primitives, the lock-free collections and the byte encoding of integers
//! come from other crates and are reached through a handful of trusted
//! wrappers, each documented where it is declared.

pub mod block;
pub mod bytes;
pub mod collections;
pub mod config;
pub mod crypto;
pub mod error;
pub mod isi;
pub mod merkle;
pub mod message;
pub mod network_topology;
pub mod peer;
pub mod permissions;
pub mod queue;
pub mod seqs;
pub mod signatures;
pub mod sumeragi;
pub mod time;
pub mod tx;
pub mod view_change;
pub mod wsv;
