//! What can go wrong.

use vstd::prelude::*;

verus! {

/// The errors of this crate.
#[derive(Clone, Copy, Debug, PartialEq, Eq, Structural)]
pub enum Error {
    /// A topology was asked for with fewer peers than its faults allow.
    TooFewPeers,
    /// A signature does not verify for what it claims to sign.
    InvalidSignature,
    /// The signer does not hold the role that was asked for.
    RoleMismatch,
    /// A transaction holds more instructions than it may.
    TooManyInstructions,
    /// A transaction does not meet the signature threshold of its account.
    InsufficientSignatures,
    /// No transaction of a block that is not the first turned out valid.
    NoValidTransactions,
    /// An instruction names an account that the world state does not hold.
    AccountNotFound,
    /// An instruction registers an account that the world state already holds.
    AccountExists,
    /// An instruction adds a peer that is already trusted.
    PeerExists,
    /// An instruction takes more from an account than it holds.
    InsufficientFunds,
    /// An instruction gives an account more than it can hold.
    Overflow,
    /// An instruction registers a kind of asset that is registered already.
    AssetDefinitionExists,
    /// An instruction names a kind of asset that is not registered.
    AssetDefinitionNotFound,
    /// An instruction is refused by the permission policy.
    NotPermitted,
    /// A genesis round was asked for without transactions.
    EmptyGenesis,
    /// A genesis round was asked of a peer that does not lead the genesis topology.
    NotLeader,
    /// A genesis round was asked for behind a block that is not the first.
    NotGenesisHeight,
}

} // verus!
