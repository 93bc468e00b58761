//! The messages that peers send each other in the course of the consensus.

use crate::block::{BlockView, ValidBlock};
use crate::crypto;
use crate::crypto::{KeyPair, Signature};
use crate::network_topology::{key_has_role, Role, Topology};
use crate::peer::{PeerId, PeerIdView};
use crate::time::current_time_ms;
use crate::tx::{AcceptedTransaction, TransactionView};
use crate::view_change::{Proof, ProofView, TransactionReceipt};
use vstd::prelude::*;

verus! {

/// Sent by the leader to all peers when it has created a block.
#[derive(Debug)]
pub struct BlockCreated {
    /// The block that was created.
    pub block: ValidBlock,
}

impl From<ValidBlock> for BlockCreated {
    fn from(block: ValidBlock) -> (r: Self) {
        BlockCreated { block }
    }
}

impl vstd::std_specs::convert::FromSpecImpl<ValidBlock> for BlockCreated {
    open spec fn obeys_from_spec() -> bool {
        true
    }

    open spec fn from_spec(block: ValidBlock) -> Self {
        BlockCreated { block }
    }
}

/// Sent by a validating peer to the proxy tail when it has signed a block.
#[derive(Debug)]
pub struct BlockSigned {
    /// The block that was signed.
    pub block: ValidBlock,
}

impl From<ValidBlock> for BlockSigned {
    fn from(block: ValidBlock) -> (r: Self) {
        BlockSigned { block }
    }
}

impl vstd::std_specs::convert::FromSpecImpl<ValidBlock> for BlockSigned {
    open spec fn obeys_from_spec() -> bool {
        true
    }

    open spec fn from_spec(block: ValidBlock) -> Self {
        BlockSigned { block }
    }
}

/// Sent by the proxy tail to the other peers when a block has its votes.
#[derive(Debug)]
pub struct BlockCommitted {
    /// The block that is to be committed.
    pub block: ValidBlock,
}

impl From<ValidBlock> for BlockCommitted {
    fn from(block: ValidBlock) -> (r: Self) {
        BlockCommitted { block }
    }
}

impl vstd::std_specs::convert::FromSpecImpl<ValidBlock> for BlockCommitted {
    open spec fn obeys_from_spec() -> bool {
        true
    }

    open spec fn from_spec(block: ValidBlock) -> Self {
        BlockCommitted { block }
    }
}

/// A transaction that a peer passes on, to the leader or as gossip.
#[derive(Debug)]
pub struct TransactionForwarded {
    /// The transaction that is passed on.
    pub transaction: AcceptedTransaction,
    /// The peer that passes it on.
    pub peer: PeerId,
}

impl TransactionForwarded {
    /// The message by which `peer` passes `transaction` on.
    pub fn new(transaction: &AcceptedTransaction, peer: &PeerId) -> (r: TransactionForwarded)
        ensures
            r.transaction@ == transaction@,
            r.peer@ == peer@,
    {
        TransactionForwarded { transaction: transaction.clone(), peer: peer.clone() }
    }
}

/// A proof of a view change that is passed round for signatures.
#[derive(Debug)]
pub struct ViewChangeSuggested {
    /// The proof; every peer that agrees with it signs it.
    pub proof: Proof,
}

impl From<Proof> for ViewChangeSuggested {
    fn from(proof: Proof) -> (r: Self) {
        ViewChangeSuggested { proof }
    }
}

impl vstd::std_specs::convert::FromSpecImpl<Proof> for ViewChangeSuggested {
    open spec fn obeys_from_spec() -> bool {
        true
    }

    open spec fn from_spec(proof: Proof) -> Self {
        ViewChangeSuggested { proof }
    }
}

impl TransactionReceipt {
    /// Whether the receipt was signed by the leader: by a key that the
    /// leader of `peers` holds, validly over the transaction hash.
    pub open spec fn valid_in(self, peers: Seq<PeerIdView>, max_faults: int) -> bool {
        key_has_role(peers, max_faults, seq![Role::Leader], self.signature.public_key)
            && self.signature.valid_for(self.transaction_hash.0@)
    }

    /// Whether at `now` the block is overdue: `block_time_ms` or more have
    /// passed since the receipt was given.
    pub open spec fn overdue(self, block_time_ms: u64, now: u128) -> bool {
        now - self.received_at >= block_time_ms
    }

    /// The receipt that the leader with `key_pair` gives for the
    /// transaction with hash `transaction_hash` at `received_at`.
    pub open spec fn given(
        transaction_hash: crypto::Hash,
        key_pair: KeyPair,
        received_at: u128,
    ) -> TransactionReceipt {
        TransactionReceipt {
            transaction_hash,
            received_at,
            signature: Signature::of(key_pair, transaction_hash.0@),
        }
    }

    /// A receipt for `transaction`, signed with `key_pair` and stamped
    /// with the time of the clock.
    pub fn new(transaction: &AcceptedTransaction, key_pair: &KeyPair) -> (r: TransactionReceipt)
        ensures
            r.transaction_hash == transaction@.hash(),
            r.signature == Signature::of(*key_pair, transaction@.hash().0@),
    {
        TransactionReceipt::new_at(transaction, key_pair, current_time_ms())
    }

    /// A receipt for `transaction`, signed with `key_pair` and stamped
    /// with `received_at`.
    pub fn new_at(transaction: &AcceptedTransaction, key_pair: &KeyPair, received_at: u128) -> (r:
        TransactionReceipt)
        ensures
            r == TransactionReceipt::given(transaction@.hash(), *key_pair, received_at),
    {
        let transaction_hash = transaction.hash();
        TransactionReceipt {
            transaction_hash,
            received_at,
            signature: Signature::new(key_pair, transaction_hash.0.as_slice()),
        }
    }

    /// Whether the receipt was signed by the leader of `network_topology`.
    pub fn is_valid(&self, network_topology: &Topology) -> (r: bool)
        ensures
            r == self.valid_in(
                network_topology@.sorted_peers,
                network_topology@.max_faults as int,
            ),
    {
        network_topology.verify_signature_with_role(
            &self.signature,
            Role::Leader,
            self.transaction_hash.0.as_slice(),
        ).is_ok()
    }

    /// Whether at `now` the leader should have created the block.
    pub fn is_block_should_be_created_at(&self, block_time_ms: u64, now: u128) -> (r: bool)
        ensures
            r == self.overdue(block_time_ms, now),
    {
        now >= self.received_at && now - self.received_at >= block_time_ms as u128
    }

    /// Whether by the clock of this machine the leader should have created the block.
    pub fn is_block_should_be_created(&self, block_time_ms: u64) -> (r: bool)
        ensures
            exists|now: u128| r == #[trigger] self.overdue(block_time_ms, now),
    {
        self.is_block_should_be_created_at(block_time_ms, current_time_ms())
    }
}

/// The messages of the consensus.
#[derive(Debug)]
pub enum Message {
    /// The leader created a block.
    BlockCreated(BlockCreated),
    /// A validating peer signed a block.
    BlockSigned(BlockSigned),
    /// The proxy tail found a block to have its votes.
    BlockCommitted(BlockCommitted),
    /// The leader acknowledges a transaction.
    TransactionReceived(TransactionReceipt),
    /// A peer passes a transaction on.
    TransactionForwarded(TransactionForwarded),
    /// A peer suggests a view change.
    ViewChangeSuggested(ViewChangeSuggested),
}

/// What a `Message` stands for in contracts.
pub enum MessageView {
    /// The leader created a block.
    BlockCreated(BlockView),
    /// A validating peer signed a block.
    BlockSigned(BlockView),
    /// The proxy tail found a block to have its votes.
    BlockCommitted(BlockView),
    /// The leader acknowledges a transaction.
    TransactionReceived(TransactionReceipt),
    /// A peer passes a transaction on.
    TransactionForwarded(TransactionView, PeerIdView),
    /// A peer suggests a view change.
    ViewChangeSuggested(ProofView),
}

impl View for Message {
    type V = MessageView;

    open spec fn view(&self) -> MessageView {
        match self {
            Message::BlockCreated(m) => MessageView::BlockCreated(m.block@),
            Message::BlockSigned(m) => MessageView::BlockSigned(m.block@),
            Message::BlockCommitted(m) => MessageView::BlockCommitted(m.block@),
            Message::TransactionReceived(receipt) => MessageView::TransactionReceived(*receipt),
            Message::TransactionForwarded(m) => MessageView::TransactionForwarded(
                m.transaction@,
                m.peer@,
            ),
            Message::ViewChangeSuggested(m) => MessageView::ViewChangeSuggested(m.proof@),
        }
    }
}

impl Clone for Message {
    fn clone(&self) -> (r: Self)
        ensures
            r@ == self@,
            self.wf() ==> r.wf(),
    {
        match self {
            Message::BlockCreated(m) => Message::BlockCreated(
                BlockCreated { block: m.block.clone() },
            ),
            Message::BlockSigned(m) => Message::BlockSigned(BlockSigned { block: m.block.clone() }),
            Message::BlockCommitted(m) => Message::BlockCommitted(
                BlockCommitted { block: m.block.clone() },
            ),
            Message::TransactionReceived(receipt) => Message::TransactionReceived(*receipt),
            Message::TransactionForwarded(m) => Message::TransactionForwarded(
                TransactionForwarded { transaction: m.transaction.clone(), peer: m.peer.clone() },
            ),
            Message::ViewChangeSuggested(m) => Message::ViewChangeSuggested(
                ViewChangeSuggested { proof: m.proof.clone() },
            ),
        }
    }
}

impl Message {
    /// The invariant of a message: what it carries is well formed.
    pub open spec fn wf(&self) -> bool {
        match self {
            Message::BlockCreated(m) => m.block.wf(),
            Message::BlockSigned(m) => m.block.wf(),
            Message::BlockCommitted(m) => m.block.wf(),
            Message::TransactionReceived(_) => true,
            Message::TransactionForwarded(m) => m.transaction.wf(),
            Message::ViewChangeSuggested(m) => m.proof.wf(),
        }
    }
}

/// A message together with the version of the protocol it belongs to.
#[derive(Debug)]
pub enum VersionedMessage {
    /// The first version.
    V1(Message),
}

impl View for VersionedMessage {
    type V = MessageView;

    open spec fn view(&self) -> MessageView {
        self.inner()@
    }
}

impl VersionedMessage {
    /// The message inside.
    pub open spec fn inner(&self) -> Message {
        match self {
            VersionedMessage::V1(message) => *message,
        }
    }

    /// The invariant of a message: what it carries is well formed.
    pub open spec fn wf(&self) -> bool {
        self.inner().wf()
    }

    /// The message of the first version.
    pub fn as_inner_v1(&self) -> (r: &Message)
        ensures
            *r == self.inner(),
    {
        match self {
            VersionedMessage::V1(message) => message,
        }
    }

    /// The message of the first version, to be changed in place.
    pub fn as_mut_inner_v1(&mut self) -> (r: &mut Message)
        ensures
            *r == old(self).inner(),
            final(self).inner() == *final(r),
    {
        match self {
            VersionedMessage::V1(message) => message,
        }
    }

    /// The message of the first version.
    pub fn into_inner_v1(self) -> (r: Message)
        ensures
            r == self.inner(),
    {
        match self {
            VersionedMessage::V1(message) => message,
        }
    }
}

impl From<Message> for VersionedMessage {
    fn from(message: Message) -> (r: Self) {
        VersionedMessage::V1(message)
    }
}

impl vstd::std_specs::convert::FromSpecImpl<Message> for VersionedMessage {
    open spec fn obeys_from_spec() -> bool {
        true
    }

    open spec fn from_spec(message: Message) -> Self {
        VersionedMessage::V1(message)
    }
}

} // verus!
