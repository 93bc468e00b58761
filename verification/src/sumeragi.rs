//! The consensus engine.
//!
//! The engine is a state machine. Each of its functions takes what has
//! happened (a message, a tick, a timer that ran out) together with the
//! world state and the time, changes the state of the engine, and hands back
//! what is to be done: messages to send, timers to start, a block to store.
//! Doing it is left to the caller.

use crate::block::{
    accepted_views, all_wf, valid_transactions, BlockHeader, BlockView, ChainedBlock,
    CommittedBlock, HeaderView, PendingBlock, ValidBlock,
};
use crate::queue::{tx_views, Queue};
use crate::collections::{
    members, noted, notes_clear, notes_contains, notes_get, notes_insert, notes_new, notes_remove,
    set_clear, set_contains, set_insert, set_new,
};
use crate::crypto;
use crate::crypto::{KeyPair, Signature};
use crate::error::Error;
use crate::message::{
    BlockCommitted, BlockCreated, BlockSigned, Message, MessageView, TransactionForwarded,
    ViewChangeSuggested,
};
use crate::network_topology::{Role, Topology, TopologyView};
use crate::peer::{copy_peers, distinct_peers, peer_views, PeerId, PeerIdView};
use crate::permissions::PermissionsValidatorBox;
use crate::time::{current_time_ms, saturated};
use crate::tx::{AcceptedTransaction, TransactionView};
use crate::seqs::{distinct, lemma_distinct, lemma_position, position};
use crate::signatures::{has_key, merged, signatures_from, with_signature};
use crate::view_change::{
    chain_verified, payload_hash, BlockCreationTimeout, CommitTimeout,
    NoTransactionReceiptReceived, Proof, ProofChain, ProofPayload, ProofView, Reason,
    TransactionReceipt,
};
use crate::wsv::{copy_hashes, WorldStateView, WsvView};
use dashmap::{DashMap, DashSet};
use std::collections::hash_map::RandomState;
use vstd::prelude::*;

verus! {

/// How often, in milliseconds, the engine looks into the queue.
pub const TX_RETRIEVAL_INTERVAL_MS: u64 = 100;

/// What an event is about.
#[derive(Clone, Copy, Debug, PartialEq, Eq, Structural)]
pub enum EntityType {
    /// A block.
    Block,
    /// A transaction.
    Transaction,
}

/// How far the block or transaction has come.
#[derive(Clone, Copy, Debug, PartialEq, Eq, Structural)]
pub enum Status {
    /// A leader created it.
    Created,
    /// A peer received it for validation.
    Validated,
    /// It was committed.
    Committed,
}

/// A step in the life of a block or a transaction, for those who listen.
#[derive(Clone, Copy, Debug)]
pub struct Event {
    /// What the event is about.
    pub entity_type: EntityType,
    /// How far it has come.
    pub status: Status,
    /// Its hash.
    pub hash: crypto::Hash,
}

/// The events that tell of `block` and its transactions reaching `status`:
/// one for each transaction in their order, then one for the block.
pub open spec fn block_events(block: BlockView, status: Status) -> Seq<Event> {
    block.transactions.map_values(
        |t: TransactionView| Event { entity_type: EntityType::Transaction, status, hash: t.hash() },
    ).push(Event { entity_type: EntityType::Block, status, hash: block.hash() })
}

/// The events that tell of `block` and its transactions reaching `status`.
pub fn events_of(block: &ValidBlock, status: Status) -> (r: Vec<Event>)
    ensures
        r@ == block_events(block@, status),
{
    let mut r: Vec<Event> = Vec::new();
    let mut i: usize = 0;
    while i < block.transactions.len()
        invariant
            i <= block.transactions.len(),
            r@.len() == i,
            forall|j: int|
                0 <= j < i ==> r@[j] == (Event {
                    entity_type: EntityType::Transaction,
                    status,
                    hash: block@.transactions[j].hash(),
                }),
        decreases block.transactions.len() - i,
    {
        r.push(
            Event {
                entity_type: EntityType::Transaction,
                status,
                hash: block.transactions[i].hash(),
            },
        );
        i += 1;
    }
    r.push(Event { entity_type: EntityType::Block, status, hash: block.hash() });
    assert(r@ =~= block_events(block@, status));
    r
}

/// A timer that the caller is asked to start. When it has run out, the
/// caller hands it back to `Sumeragi::on_timer`.
#[derive(Debug)]
pub enum Timer {
    /// The time that the leader has to acknowledge a transaction.
    Receipt {
        /// How long the timer runs, in milliseconds.
        after_ms: u64,
        /// The hash of the transaction.
        transaction_hash: crypto::Hash,
        /// The proof to pass round if no receipt has come.
        proof: Proof,
        /// The peers as they were when the timer was started.
        peers: Vec<PeerId>,
    },
    /// The time that the leader has to create a block after a receipt.
    BlockCreation {
        /// How long the timer runs, in milliseconds.
        after_ms: u64,
        /// The hash of the transaction that the receipt was for.
        transaction_hash: crypto::Hash,
        /// The proof to pass round if no block has come.
        proof: Proof,
        /// The peers as they were when the timer was started.
        peers: Vec<PeerId>,
    },
    /// The time that the proxy tail has to commit a block.
    Commit {
        /// How long the timer runs, in milliseconds.
        after_ms: u64,
        /// The hash of the block that is voted on.
        voting_block_hash: crypto::Hash,
        /// The hash of the latest block when the timer was started.
        latest_block_hash: crypto::Hash,
        /// The hash of the latest view change when the timer was started.
        latest_view_change_hash: crypto::Hash,
        /// The peers as they were when the timer was started.
        peers: Vec<PeerId>,
    },
}

/// What a `Timer` stands for in contracts.
pub enum TimerView {
    /// The time that the leader has to acknowledge a transaction.
    Receipt {
        /// How long the timer runs, in milliseconds.
        after_ms: u64,
        /// The hash of the transaction.
        transaction_hash: crypto::Hash,
        /// The proof to pass round if no receipt has come.
        proof: ProofView,
        /// The peers as they were when the timer was started.
        peers: Seq<PeerIdView>,
    },
    /// The time that the leader has to create a block after a receipt.
    BlockCreation {
        /// How long the timer runs, in milliseconds.
        after_ms: u64,
        /// The hash of the transaction that the receipt was for.
        transaction_hash: crypto::Hash,
        /// The proof to pass round if no block has come.
        proof: ProofView,
        /// The peers as they were when the timer was started.
        peers: Seq<PeerIdView>,
    },
    /// The time that the proxy tail has to commit a block.
    Commit {
        /// How long the timer runs, in milliseconds.
        after_ms: u64,
        /// The hash of the block that is voted on.
        voting_block_hash: crypto::Hash,
        /// The hash of the latest block when the timer was started.
        latest_block_hash: crypto::Hash,
        /// The hash of the latest view change when the timer was started.
        latest_view_change_hash: crypto::Hash,
        /// The peers as they were when the timer was started.
        peers: Seq<PeerIdView>,
    },
}

impl View for Timer {
    type V = TimerView;

    open spec fn view(&self) -> TimerView {
        match self {
            Timer::Receipt { after_ms, transaction_hash, proof, peers } => TimerView::Receipt {
                after_ms: *after_ms,
                transaction_hash: *transaction_hash,
                proof: proof@,
                peers: peer_views(peers@),
            },
            Timer::BlockCreation {
                after_ms,
                transaction_hash,
                proof,
                peers,
            } => TimerView::BlockCreation {
                after_ms: *after_ms,
                transaction_hash: *transaction_hash,
                proof: proof@,
                peers: peer_views(peers@),
            },
            Timer::Commit {
                after_ms,
                voting_block_hash,
                latest_block_hash,
                latest_view_change_hash,
                peers,
            } => TimerView::Commit {
                after_ms: *after_ms,
                voting_block_hash: *voting_block_hash,
                latest_block_hash: *latest_block_hash,
                latest_view_change_hash: *latest_view_change_hash,
                peers: peer_views(peers@),
            },
        }
    }
}

impl Timer {
    /// The invariant of a timer: the proof it carries is well formed.
    pub open spec fn wf(&self) -> bool {
        match self {
            Timer::Receipt { proof, .. } => proof.wf(),
            Timer::BlockCreation { proof, .. } => proof.wf(),
            Timer::Commit { .. } => true,
        }
    }
}

/// Something that the engine asks its caller to do.
#[derive(Debug)]
pub enum Action {
    /// Send the message to each of the peers. A send that fails is no
    /// reason to hold back the others.
    Send {
        /// The peers to send to.
        peers: Vec<PeerId>,
        /// The message to send.
        message: Message,
    },
    /// Start the timer.
    Start(Timer),
    /// Hand the block to the block store.
    Store(CommittedBlock),
    /// Put the transaction in the queue.
    Enqueue(AcceptedTransaction),
    /// Tell those who listen of the event.
    Publish(Event),
    /// Call `Sumeragi::on_tick` every so many milliseconds from now on.
    TickEvery(u64),
}

/// What an `Action` stands for in contracts.
pub enum ActionView {
    /// Send the message to each of the peers.
    Send {
        /// The peers to send to.
        peers: Seq<PeerIdView>,
        /// The message to send.
        message: MessageView,
    },
    /// Start the timer.
    Start(TimerView),
    /// Hand the block to the block store.
    Store(BlockView),
    /// Put the transaction in the queue.
    Enqueue(TransactionView),
    /// Tell those who listen of the event.
    Publish(Event),
    /// Call `Sumeragi::on_tick` every so many milliseconds from now on.
    TickEvery(u64),
}

impl View for Action {
    type V = ActionView;

    open spec fn view(&self) -> ActionView {
        match self {
            Action::Send { peers, message } => ActionView::Send {
                peers: peer_views(peers@),
                message: message@,
            },
            Action::Start(timer) => ActionView::Start(timer@),
            Action::Store(block) => ActionView::Store(block@),
            Action::Enqueue(transaction) => ActionView::Enqueue(transaction@),
            Action::Publish(event) => ActionView::Publish(*event),
            Action::TickEvery(interval_ms) => ActionView::TickEvery(*interval_ms),
        }
    }
}

impl Action {
    /// The invariant of an action: what it carries is well formed.
    pub open spec fn wf(&self) -> bool {
        match self {
            Action::Send { message, .. } => message.wf(),
            Action::Start(timer) => timer.wf(),
            Action::Store(block) => block.wf(),
            Action::Enqueue(transaction) => transaction.wf(),
            Action::Publish(_) => true,
            Action::TickEvery(_) => true,
        }
    }
}

/// What a list of actions stands for in contracts.
pub open spec fn action_views(actions: Seq<Action>) -> Seq<ActionView> {
    actions.map_values(|a: Action| a@)
}

/// Whether every action of a list is well formed.
pub open spec fn actions_wf(actions: Seq<Action>) -> bool {
    forall|i: int| 0 <= i < actions.len() ==> (#[trigger] actions[i]).wf()
}

/// The actions that publish `events`, in their order.
pub open spec fn publish_all(events: Seq<Event>) -> Seq<ActionView> {
    events.map_values(|e: Event| ActionView::Publish(e))
}

/// Appends to `actions` the actions that publish `events`.
pub fn publish(actions: &mut Vec<Action>, events: &[Event])
    requires
        actions_wf(old(actions)@),
    ensures
        action_views(final(actions)@) == action_views(old(actions)@) + publish_all(events@),
        actions_wf(final(actions)@),
{
    let mut i: usize = 0;
    while i < events.len()
        invariant
            i <= events.len(),
            actions_wf(actions@),
            action_views(actions@) == action_views(old(actions)@) + publish_all(
                events@.take(i as int),
            ),
        decreases events.len() - i,
    {
        let ghost before = actions@;
        actions.push(Action::Publish(events[i]));
        proof {
            assert(events@.take(i as int + 1) =~= events@.take(i as int).push(events@[i as int]));
            assert(action_views(actions@) =~= action_views(before).push(
                ActionView::Publish(events@[i as int]),
            ));
            assert(action_views(actions@) =~= action_views(old(actions)@) + publish_all(
                events@.take(i as int + 1),
            ));
        }
        i += 1;
    }
    assert(events@.take(events@.len() as int) =~= events@);
}

/// The peers of `peers` other than `peer`, in their order.
pub open spec fn others(peers: Seq<PeerIdView>, peer: PeerIdView) -> Seq<PeerIdView> {
    peers.filter(|p: PeerIdView| p != peer)
}

/// The peers of `peers` other than `peer`.
pub fn peers_other_than(peers: &[PeerId], peer: &PeerId) -> (r: Vec<PeerId>)
    ensures
        peer_views(r@) == others(peer_views(peers@), peer@),
{
    let ghost keep = |p: PeerIdView| p != peer@;
    let ghost views = peer_views(peers@);
    let mut r: Vec<PeerId> = Vec::new();
    let mut i: usize = 0;
    proof {
        assert(views.take(0) =~= Seq::<PeerIdView>::empty());
        crate::seqs::lemma_filter_empty(keep);
        assert(peer_views(r@) =~= Seq::<PeerIdView>::empty());
    }
    while i < peers.len()
        invariant
            i <= peers.len(),
            views == peer_views(peers@),
            keep == |p: PeerIdView| p != peer@,
            peer_views(r@) == views.take(i as int).filter(keep),
        decreases peers.len() - i,
    {
        let ghost before = peer_views(r@);
        proof {
            crate::seqs::lemma_filter_take_step(views, i as int, keep);
        }
        if peers[i] != *peer {
            r.push(peers[i].clone());
            assert(peer_views(r@) =~= before.push(views[i as int]));
        }
        i += 1;
    }
    assert(views.take(views.len() as int) =~= views);
    r
}

/// The block that is voted on in the current round.
#[derive(Debug)]
pub struct VotingBlock {
    /// When this peer took the block up, in milliseconds since the epoch.
    pub voted_at: u128,
    /// The block.
    pub block: ValidBlock,
}

/// What a `VotingBlock` stands for in contracts.
pub struct VotingBlockView {
    /// When this peer took the block up, in milliseconds since the epoch.
    pub voted_at: u128,
    /// The block.
    pub block: BlockView,
}

impl View for VotingBlock {
    type V = VotingBlockView;

    open spec fn view(&self) -> VotingBlockView {
        VotingBlockView { voted_at: self.voted_at, block: self.block@ }
    }
}

impl Clone for VotingBlock {
    fn clone(&self) -> (r: Self)
        ensures
            r@ == self@,
    {
        VotingBlock { voted_at: self.voted_at, block: self.block.clone() }
    }
}

impl VotingBlock {
    /// The voting block for `block`, taken up at the time of the clock.
    pub fn new(block: ValidBlock) -> (r: VotingBlock)
        ensures
            r.block == block,
    {
        VotingBlock::new_at(block, current_time_ms())
    }

    /// The voting block for `block`, taken up at `voted_at`.
    pub fn new_at(block: ValidBlock, voted_at: u128) -> (r: VotingBlock)
        ensures
            r.block == block,
            r.voted_at == voted_at,
    {
        VotingBlock { voted_at, block }
    }
}

/// The proof with `payload` that bears the signature of `key_pair` and no other.
pub open spec fn signed_proof(payload: ProofPayload, key_pair: KeyPair) -> ProofView {
    ProofView {
        payload,
        signatures: with_signature(
            Seq::empty(),
            Signature::of(key_pair, payload_hash(payload).0@),
        ),
    }
}

/// Whether validating `block` against `wsv` under `policy` leaves it
/// without transactions although it is no genesis block.
pub open spec fn is_void(block: BlockView, wsv: WsvView, policy: PermissionsValidatorBox) -> bool {
    valid_transactions(block.transactions, wsv, policy).len() == 0 && !block.header.is_genesis()
}

/// `block` with those of its transactions that are valid against `wsv`
/// under `policy`.
pub open spec fn validated(
    block: BlockView,
    wsv: WsvView,
    policy: PermissionsValidatorBox,
) -> BlockView {
    BlockView { transactions: valid_transactions(block.transactions, wsv, policy), ..block }
}

/// The peers to whom the proxy tail sends a committed block: the
/// validating peers, the leader, and the observing peers.
pub open spec fn commit_recipients(topology: TopologyView) -> Seq<PeerIdView> {
    topology.sorted_peers.subrange(1, 2 * topology.max_faults + 1) + seq![topology.leader()] + (
    if topology.sorted_peers.len() > 2 * topology.max_faults + 2 {
        topology.sorted_peers.subrange(
            2 * topology.max_faults + 2,
            topology.sorted_peers.len() as int,
        )
    } else {
        Seq::empty()
    })
}

/// The times of a map, under hashes in place of their bytes.
pub open spec fn times_by_hash(map: Map<[u8; 32], u128>) -> Map<crypto::Hash, u128> {
    Map::new(|h: crypto::Hash| map.dom().contains(h.0), |h: crypto::Hash| map[h.0])
}

/// The hashes whose bytes a set holds.
pub open spec fn hashes_in(set: Set<[u8; 32]>) -> Set<crypto::Hash> {
    Set::new(|h: crypto::Hash| set.contains(h.0))
}

/// What a list of blocks stands for in contracts.
pub open spec fn block_views(blocks: Seq<ValidBlock>) -> Seq<BlockView> {
    blocks.map_values(|b: ValidBlock| b@)
}

/// The consensus engine of one peer.
#[derive(Debug)]
pub struct Sumeragi {
    key_pair: KeyPair,
    /// The topology of the current view.
    pub topology: Topology,
    /// The identity of this peer.
    pub peer_id: PeerId,
    voting_block: Option<VotingBlock>,
    votes_for_blocks: Vec<ValidBlock>,
    txs_awaiting_receipts: DashMap<[u8; 32], u128, RandomState>,
    txs_awaiting_created_block: DashSet<[u8; 32], RandomState>,
    commit_time_ms: u64,
    tx_receipt_time_ms: u64,
    block_time_ms: u64,
    block_height: u64,
    /// The hashes of the blocks that view changes set aside in this round.
    pub invalidated_blocks_hashes: Vec<crypto::Hash>,
    is_instruction_allowed: PermissionsValidatorBox,
    max_instruction_number: u64,
}

/// What a `Sumeragi` stands for in contracts.
pub struct SumeragiView {
    /// The keys of this peer.
    pub key_pair: KeyPair,
    /// The topology of the current view.
    pub topology: TopologyView,
    /// The identity of this peer.
    pub peer_id: PeerIdView,
    /// The block that is voted on in this round, if there is one.
    pub voting_block: Option<VotingBlockView>,
    /// The blocks for which the proxy tail collects votes, oldest first.
    pub votes_for_blocks: Seq<BlockView>,
    /// The transactions that were forwarded to the leader and have no
    /// receipt yet, each with the time at which it was forwarded.
    pub txs_awaiting_receipts: Map<crypto::Hash, u128>,
    /// The transactions that have a receipt and no block yet.
    pub txs_awaiting_created_block: Set<crypto::Hash>,
    /// How long a peer waits for the commit of a block, in milliseconds.
    pub commit_time_ms: u64,
    /// How long a peer waits for the receipt of a transaction, in milliseconds.
    pub tx_receipt_time_ms: u64,
    /// How long a peer waits for a block after a receipt, in milliseconds.
    pub block_time_ms: u64,
    /// The height of the latest committed block.
    pub block_height: u64,
    /// The hashes of the blocks that view changes set aside in this round.
    pub invalidated_blocks_hashes: Seq<crypto::Hash>,
    /// The validator that instructions are held against.
    pub is_instruction_allowed: PermissionsValidatorBox,
    /// How many instructions a transaction may hold.
    pub max_instruction_number: u64,
}

impl SumeragiView {
    /// The invariant of the engine: a well-formed topology, voting block
    /// and votes.
    pub open spec fn wf(self) -> bool {
        &&& self.topology.wf()
        &&& self.voting_block is Some ==> self.voting_block->Some_0.block.wf()
        &&& forall|i: int|
            0 <= i < self.votes_for_blocks.len() ==> (#[trigger] self.votes_for_blocks[i]).wf()
    }

    /// The hash of the latest committed block.
    pub open spec fn latest_block_hash(self) -> crypto::Hash {
        self.topology.at_block
    }

    /// The hash of the latest view change, or the zero hash.
    pub open spec fn latest_view_change_hash(self) -> crypto::Hash {
        self.topology.latest_view_change_hash()
    }

    /// The role of this peer.
    pub open spec fn role(self) -> Role {
        self.topology.role(self.peer_id)
    }

    /// Whether this peer is the leader.
    pub open spec fn is_leader(self) -> bool {
        self.role() == Role::Leader
    }

    /// The topology by which a block with `header` is judged: the one
    /// that a genesis block brings, as long as no block was committed, and
    /// else the current one.
    pub open spec fn topology_for(self, header: HeaderView) -> TopologyView {
        if header.is_genesis() && self.block_height == 0 {
            header.genesis_topology->Some_0
        } else {
            self.topology
        }
    }

    /// The peers to whom transactions are gossiped: all but the leader
    /// and this peer.
    pub open spec fn gossip_peers(self) -> Seq<PeerIdView> {
        self.topology.sorted_peers.filter(
            |p: PeerIdView| p != self.topology.leader() && p != self.peer_id,
        )
    }

    /// The actions that gossip `transactions`: one message for each, to
    /// all the gossip peers.
    pub open spec fn gossip_actions(self, transactions: Seq<TransactionView>) -> Seq<ActionView> {
        transactions.map_values(
            |t: TransactionView|
                ActionView::Send {
                    peers: self.gossip_peers(),
                    message: MessageView::TransactionForwarded(t, self.peer_id),
                },
        )
    }

    /// The proof with the given reason that this peer makes in its current
    /// state and signs.
    pub open spec fn own_proof(self, reason: Reason) -> ProofView {
        signed_proof(
            ProofPayload {
                reason,
                latest_view_change_hash: self.latest_view_change_hash(),
                latest_block_hash: self.latest_block_hash(),
            },
            self.key_pair,
        )
    }

    /// The timer that is started when `transaction` is forwarded to the leader.
    pub open spec fn receipt_timer(self, transaction: TransactionView) -> TimerView {
        TimerView::Receipt {
            after_ms: self.tx_receipt_time_ms,
            transaction_hash: transaction.hash(),
            proof: self.own_proof(
                Reason::NoTransactionReceiptReceived(
                    NoTransactionReceiptReceived { transaction_hash: transaction.hash() },
                ),
            ),
            peers: self.topology.sorted_peers,
        }
    }

    /// The transactions that await a receipt once `transactions` were
    /// forwarded to the leader at `now`, one after the other. A transaction
    /// that awaits a receipt already is passed over; one that is forwarded
    /// awaits a receipt from `now` on if its signature condition is met.
    pub open spec fn awaited_after_forwarding(
        self,
        transactions: Seq<TransactionView>,
        wsv: WsvView,
        now: u128,
    ) -> Map<crypto::Hash, u128>
        decreases transactions.len(),
    {
        if transactions.len() == 0 {
            self.txs_awaiting_receipts
        } else {
            let before = self.awaited_after_forwarding(transactions.drop_last(), wsv, now);
            let t = transactions.last();
            if !before.dom().contains(t.hash()) && t.signature_condition(wsv) == Ok::<bool, Error>(
                true,
            ) {
                before.insert(t.hash(), now)
            } else {
                before
            }
        }
    }

    /// The actions that forward `transactions` to the leader: for each
    /// that does not await a receipt already, the message to the leader and
    /// the timer for the receipt.
    pub open spec fn forwarding_actions(
        self,
        transactions: Seq<TransactionView>,
        wsv: WsvView,
        now: u128,
    ) -> Seq<ActionView>
        decreases transactions.len(),
    {
        if transactions.len() == 0 {
            Seq::empty()
        } else {
            let before = self.awaited_after_forwarding(transactions.drop_last(), wsv, now);
            let actions = self.forwarding_actions(transactions.drop_last(), wsv, now);
            let t = transactions.last();
            if before.dom().contains(t.hash()) {
                actions
            } else {
                actions.push(
                    ActionView::Send {
                        peers: seq![self.topology.leader()],
                        message: MessageView::TransactionForwarded(t, self.peer_id),
                    },
                ).push(ActionView::Start(self.receipt_timer(t)))
            }
        }
    }

    /// The timer that is started when the block with hash
    /// `voting_block_hash` is taken up for a vote.
    pub open spec fn commit_timer(
        self,
        voting_block_hash: crypto::Hash,
        latest_block_hash: crypto::Hash,
        latest_view_change_hash: crypto::Hash,
    ) -> TimerView {
        TimerView::Commit {
            after_ms: self.commit_time_ms,
            voting_block_hash,
            latest_block_hash,
            latest_view_change_hash,
            peers: self.topology.sorted_peers,
        }
    }

    /// What is to be done when `timer` has run out. A receipt timer whose
    /// transaction still awaits its receipt has its proof sent to the other
    /// peers of the timer. A block timer whose transaction still awaits its
    /// block has its proof sent to all peers of the timer. A commit timer
    /// whose block is still voted on has a signed proof of the commit timeout,
    /// made in the state that the timer was started in, sent to the other
    /// peers of the timer. Any other timer asks for nothing.
    pub open spec fn timer_actions(self, timer: TimerView) -> Seq<ActionView> {
        match timer {
            TimerView::Receipt { after_ms, transaction_hash, proof, peers } => {
                if self.txs_awaiting_receipts.dom().contains(transaction_hash) {
                    seq![
                        ActionView::Send {
                            peers: others(peers, self.peer_id),
                            message: MessageView::ViewChangeSuggested(proof),
                        },
                    ]
                } else {
                    Seq::empty()
                }
            },
            TimerView::BlockCreation { after_ms, transaction_hash, proof, peers } => {
                if self.txs_awaiting_created_block.contains(transaction_hash) {
                    seq![
                        ActionView::Send {
                            peers,
                            message: MessageView::ViewChangeSuggested(proof),
                        },
                    ]
                } else {
                    Seq::empty()
                }
            },
            TimerView::Commit {
                after_ms,
                voting_block_hash,
                latest_block_hash,
                latest_view_change_hash,
                peers,
            } => {
                if self.voting_block is Some && self.voting_block->Some_0.block.hash()
                    == voting_block_hash {
                    seq![
                        ActionView::Send {
                            peers: others(peers, self.peer_id),
                            message: MessageView::ViewChangeSuggested(
                                signed_proof(
                                    ProofPayload {
                                        reason: Reason::CommitTimeout(
                                            CommitTimeout { voting_block_hash },
                                        ),
                                        latest_view_change_hash,
                                        latest_block_hash,
                                    },
                                    self.key_pair,
                                ),
                            ),
                        },
                    ]
                } else {
                    Seq::empty()
                }
            },
        }
    }

    /// The block that the leader builds of `transactions` at `now`: at the
    /// block height of the engine, behind the latest block, or behind none if
    /// none was committed, with the view changes and the blocks set aside so
    /// far.
    pub open spec fn round_block(self, transactions: Seq<TransactionView>, now: u128) -> BlockView {
        BlockView {
            header: HeaderView {
                timestamp: now,
                height: self.block_height,
                previous_block_hash: if self.latest_block_hash() == crypto::Hash::zero() {
                    None
                } else {
                    Some(self.latest_block_hash())
                },
                view_change_proofs: self.topology.view_change_proofs,
                invalidated_blocks_hashes: self.invalidated_blocks_hashes,
                genesis_topology: None,
            },
            transactions,
            signatures: Seq::empty(),
        }
    }

    /// Whether `after` and `actions` are what publishing the valid block
    /// `block` at `now` makes of this engine. The events of its creation
    /// come first. Where the topology of the block has one peer only, the
    /// block is committed at once. Else it is taken up for the vote, sent
    /// with the signature of this peer to all other peers of that topology,
    /// and the timer for its commit is started.
    pub open spec fn published(
        self,
        after: SumeragiView,
        actions: Seq<ActionView>,
        block: BlockView,
        now: u128,
    ) -> bool {
        let topology = self.topology_for(block.header);
        let created = publish_all(block_events(block, Status::Created));
        if topology.sorted_peers.len() <= 1 {
            self.committed(after, block) && actions == created + SumeragiView::commit_actions(
                block,
            )
        } else {
            &&& after == SumeragiView {
                voting_block: Some(VotingBlockView { voted_at: now, block }),
                ..self
            }
            &&& actions == created.push(
                ActionView::Send {
                    peers: others(topology.sorted_peers, self.peer_id),
                    message: MessageView::BlockCreated(block.signed_by(self.key_pair)),
                },
            ).push(
                ActionView::Start(
                    self.commit_timer(
                        block.hash(),
                        self.latest_block_hash(),
                        self.latest_view_change_hash(),
                    ),
                ),
            )
        }
    }

    /// Whether `after`, `actions` and `result` are what a round with
    /// `transactions` at `now` makes of this engine. Without transactions
    /// nothing happens. Else the transactions are gossiped. The leader then
    /// builds a block of them, validates and publishes it; it fails, having
    /// done no more than gossip, when no transaction of the block is valid.
    /// Any other peer forwards the transactions to the leader.
    pub open spec fn round_done(
        self,
        after: SumeragiView,
        actions: Seq<ActionView>,
        result: Result<(), Error>,
        transactions: Seq<TransactionView>,
        wsv: WsvView,
        now: u128,
    ) -> bool {
        let gossip = self.gossip_actions(transactions);
        if transactions.len() == 0 {
            after == self && actions == Seq::<ActionView>::empty() && result is Ok
        } else if !self.is_leader() {
            &&& result is Ok
            &&& after == SumeragiView {
                txs_awaiting_receipts: self.awaited_after_forwarding(transactions, wsv, now),
                ..self
            }
            &&& actions == gossip + self.forwarding_actions(transactions, wsv, now)
        } else {
            let block = self.round_block(transactions, now);
            if is_void(block, wsv, self.is_instruction_allowed) {
                after == self && actions == gossip && result == Err::<(), Error>(
                    Error::NoValidTransactions,
                )
            } else {
                &&& result is Ok
                &&& actions.len() >= gossip.len()
                &&& actions.take(gossip.len() as int) == gossip
                &&& self.published(
                    after,
                    actions.skip(gossip.len() as int),
                    validated(block, wsv, self.is_instruction_allowed),
                    now,
                )
            }
        }
    }

    /// Whether a block that the proxy tail declares committed is taken:
    /// it has `2f + 1` valid signatures or more from the leader, the
    /// validating peers and the proxy tail of its topology, exactly one of
    /// them from the proxy tail, and it follows the latest block.
    pub open spec fn accepts_commit(self, block: BlockView) -> bool {
        let topology = self.topology_for(block.header);
        &&& topology.signatures_of_roles(
            seq![Role::ValidatingPeer, Role::Leader, Role::ProxyTail],
            block.verified_signatures(),
        ).len() >= 2 * topology.max_faults + 1
        &&& topology.signatures_of_roles(seq![Role::ProxyTail], block.verified_signatures()).len()
            == 1
        &&& self.latest_block_hash() == block.header.previous_or_zero()
    }

    /// The block that is committed when `block` is taken: `block` with
    /// those of its signatures that count.
    pub open spec fn commit_of(self, block: BlockView) -> BlockView {
        BlockView {
            signatures: merged(
                Seq::empty(),
                self.topology_for(block.header).signatures_of_roles(
                    seq![Role::ValidatingPeer, Role::Leader, Role::ProxyTail],
                    block.verified_signatures(),
                ),
            ),
            ..block
        }
    }

    /// Whether `after` and `actions` are what the message that `block` is
    /// committed makes of this engine: a block that is taken is committed, any
    /// other changes nothing.
    pub open spec fn block_committed(
        self,
        after: SumeragiView,
        actions: Seq<ActionView>,
        block: BlockView,
    ) -> bool {
        if self.accepts_commit(block) {
            self.committed(after, self.commit_of(block)) && actions == SumeragiView::commit_actions(
                self.commit_of(block),
            )
        } else {
            after == self && actions == Seq::<ActionView>::empty()
        }
    }

    /// Where the proxy tail keeps the votes for the block with hash
    /// `hash`, or the number of blocks it keeps votes for if it keeps none.
    pub open spec fn vote_position(self, hash: crypto::Hash) -> int {
        position(self.votes_for_blocks.map_values(|b: BlockView| b.hash()), hash)
    }

    /// The votes for `block` once those that `block` brings are counted in.
    pub open spec fn votes_with(self, block: BlockView) -> BlockView {
        let at = self.vote_position(block.hash());
        let kept = if at < self.votes_for_blocks.len() {
            self.votes_for_blocks[at]
        } else {
            block
        };
        BlockView { signatures: merged(kept.signatures, block.verified_signatures()), ..kept }
    }

    /// The block that the proxy tail declares committed once `block` has
    /// brought the last vote needed: the votes of the leader and the
    /// validating peers, and its own signature.
    pub open spec fn declared(self, block: BlockView) -> BlockView {
        let votes = self.votes_with(block);
        let topology = self.topology_for(block.header);
        BlockView {
            signatures: merged(
                Seq::empty(),
                topology.signatures_of_roles(
                    seq![Role::ValidatingPeer, Role::Leader],
                    votes.verified_signatures(),
                ),
            ),
            ..votes
        }.signed_by(self.key_pair)
    }

    /// Whether `after` and `actions` are what the message that `block` was
    /// signed makes of this engine. Only the proxy tail of the topology of
    /// the block acts. It counts the valid signatures that the block brings
    /// in with those it keeps for it. Once `2f` of them come from the leader
    /// and the validating peers, it signs, has the block sent as committed to
    /// the validating peers, the leader and the observing peers, and commits
    /// it. Until then it keeps the votes.
    pub open spec fn block_signed(
        self,
        after: SumeragiView,
        actions: Seq<ActionView>,
        block: BlockView,
    ) -> bool {
        let topology = self.topology_for(block.header);
        let at = self.vote_position(block.hash());
        let votes = self.votes_with(block);
        if topology.role(self.peer_id) != Role::ProxyTail {
            after == self && actions == Seq::<ActionView>::empty()
        } else if topology.signatures_of_roles(
            seq![Role::ValidatingPeer, Role::Leader],
            votes.verified_signatures(),
        ).len() >= 2 * topology.max_faults {
            &&& self.committed(after, self.declared(block))
            &&& actions == seq![
                ActionView::Send {
                    peers: commit_recipients(topology),
                    message: MessageView::BlockCommitted(self.declared(block)),
                },
            ] + SumeragiView::commit_actions(self.declared(block))
        } else {
            &&& after == SumeragiView {
                votes_for_blocks: if at < self.votes_for_blocks.len() {
                    self.votes_for_blocks.update(at, votes)
                } else {
                    self.votes_for_blocks.push(votes)
                },
                ..self
            }
            &&& actions == Seq::<ActionView>::empty()
        }
    }

    /// What is to be done when `peer` has forwarded `transaction` at
    /// `now`: the leader acknowledges it with a receipt, and every peer
    /// puts it in its queue.
    pub open spec fn transaction_forwarded(
        self,
        transaction: TransactionView,
        peer: PeerIdView,
        now: u128,
    ) -> Seq<ActionView> {
        if self.is_leader() {
            seq![
                ActionView::Send {
                    peers: seq![peer],
                    message: MessageView::TransactionReceived(
                        TransactionReceipt::given(transaction.hash(), self.key_pair, now),
                    ),
                },
                ActionView::Enqueue(transaction),
            ]
        } else {
            seq![ActionView::Enqueue(transaction)]
        }
    }

    /// Whether a receipt that comes in at `now` counts: this peer is not
    /// the leader, the receipt is not from the future, it is signed by the
    /// leader, and its transaction awaits a receipt.
    pub open spec fn accepts_receipt(self, receipt: TransactionReceipt, now: u128) -> bool {
        &&& self.role() != Role::Leader
        &&& receipt.received_at <= now
        &&& receipt.valid_in(self.topology.sorted_peers, self.topology.max_faults as int)
        &&& self.txs_awaiting_receipts.dom().contains(receipt.transaction_hash)
    }

    /// Whether `after` and `actions` are what `receipt`, coming in at
    /// `now`, makes of this engine. A receipt that counts moves its
    /// transaction from those that await a receipt to those that await a
    /// block, and starts the timer for the block. Any other changes nothing.
    pub open spec fn receipt_received(
        self,
        after: SumeragiView,
        actions: Seq<ActionView>,
        receipt: TransactionReceipt,
        now: u128,
    ) -> bool {
        if self.accepts_receipt(receipt, now) {
            &&& after == SumeragiView {
                txs_awaiting_receipts: self.txs_awaiting_receipts.remove(receipt.transaction_hash),
                txs_awaiting_created_block: self.txs_awaiting_created_block.insert(
                    receipt.transaction_hash,
                ),
                ..self
            }
            &&& actions == seq![
                ActionView::Start(
                    TimerView::BlockCreation {
                        after_ms: self.block_time_ms,
                        transaction_hash: receipt.transaction_hash,
                        proof: self.own_proof(
                            Reason::BlockCreationTimeout(
                                BlockCreationTimeout { transaction_receipt: receipt },
                            ),
                        ),
                        peers: self.topology.sorted_peers,
                    },
                ),
            ]
        } else {
            after == self && actions == Seq::<ActionView>::empty()
        }
    }

    /// Whether this peer sees at `now` what `reason` accuses. A commit
    /// timeout: the accused block is voted on here for the commit time or
    /// longer. A missing receipt: the transaction awaits its receipt here for
    /// the receipt time or longer. A missing block: the receipt is signed by
    /// the leader, the block time has passed since, and no block is voted on.
    pub open spec fn agrees_with(self, reason: Reason, now: u128) -> bool {
        match reason {
            Reason::CommitTimeout(r) => {
                &&& self.voting_block is Some
                &&& self.voting_block->Some_0.block.hash() == r.voting_block_hash
                &&& now - self.voting_block->Some_0.voted_at >= self.commit_time_ms
            },
            Reason::NoTransactionReceiptReceived(r) => {
                &&& self.txs_awaiting_receipts.dom().contains(r.transaction_hash)
                &&& now - self.txs_awaiting_receipts[r.transaction_hash] >= self.tx_receipt_time_ms
            },
            Reason::BlockCreationTimeout(r) => {
                &&& r.transaction_receipt.valid_in(
                    self.topology.sorted_peers,
                    self.topology.max_faults as int,
                )
                &&& r.transaction_receipt.overdue(self.block_time_ms, now)
                &&& self.voting_block is None
            },
        }
    }

    /// Whether this peer adds its signature to `proof` at `now`: it sees
    /// what the proof accuses and has not signed it yet.
    pub open spec fn votes_for(self, proof: ProofView, now: u128) -> bool {
        self.agrees_with(proof.payload.reason, now) && !has_key(
            proof.signatures,
            self.key_pair.public_key,
        )
    }

    /// `proof` as it leaves this peer at `now`: with its signature, if it
    /// adds it.
    pub open spec fn seconded(self, proof: ProofView, now: u128) -> ProofView {
        if self.votes_for(proof, now) {
            ProofView {
                signatures: with_signature(
                    proof.signatures,
                    Signature::of(self.key_pair, proof.hash().0@),
                ),
                ..proof
            }
        } else {
            proof
        }
    }

    /// Whether `after` and `actions` are what the suggestion of a view
    /// change by `proof`, coming in at `now`, makes of this engine. A proof
    /// made in another state than that of this peer changes nothing. Else
    /// this peer signs it if it sees what the proof accuses and has not
    /// signed yet, and has the signed proof sent to all other peers. If the
    /// proof, as it then stands, has its quorum, the view changes; a commit
    /// timeout sets the accused block aside.
    pub open spec fn view_change_suggested(
        self,
        after: SumeragiView,
        actions: Seq<ActionView>,
        proof: ProofView,
        now: u128,
    ) -> bool {
        let seconded = self.seconded(proof, now);
        if !proof.has_same_state(self.latest_block_hash(), self.latest_view_change_hash()) {
            after == self && actions == Seq::<ActionView>::empty()
        } else {
            &&& actions == if self.votes_for(proof, now) {
                seq![
                    ActionView::Send {
                        peers: others(self.topology.sorted_peers, self.peer_id),
                        message: MessageView::ViewChangeSuggested(seconded),
                    },
                ]
            } else {
                Seq::empty()
            }
            &&& if seconded.verified_by(self.topology.sorted_peers, self.topology.max_faults) {
                self.changed_view(
                    after,
                    seconded,
                    match proof.payload.reason {
                        Reason::CommitTimeout(r) => Some(r.voting_block_hash),
                        _ => None,
                    },
                )
            } else {
                after == self
            }
        }
    }

    /// Whether a block that the leader sends brings view changes that
    /// this peer takes over: more than it knows of, each with its quorum
    /// among the peers and made on top of the latest block.
    pub open spec fn adopts(self, header: HeaderView) -> bool {
        header.view_change_proofs.len() > self.topology.view_change_proofs.len() && chain_verified(
            header.view_change_proofs,
            self.topology.sorted_peers,
            self.topology.max_faults,
            self.latest_block_hash(),
        )
    }

    /// Whether `topology` is the topology of this engine once it has seen
    /// `header`: built anew with the view changes of the header if it takes
    /// them over, and else as it was.
    pub open spec fn adopted(self, topology: TopologyView, header: HeaderView) -> bool {
        if self.adopts(header) {
            Topology::built_from(
                topology,
                self.topology.sorted_peers,
                self.topology.max_faults,
                self.topology.at_block,
                self.topology.reshuffle_after,
                header.view_change_proofs,
            )
        } else {
            topology == self.topology
        }
    }

    /// Whether this peer, as a validating peer of the topology of `block`,
    /// finds `block` to be what is expected: behind the latest block and the
    /// latest view change, at the block height of the engine, and with no
    /// transaction over the limit of instructions.
    pub open spec fn approves(self, block: BlockView) -> bool {
        &&& self.topology_for(block.header).role(self.peer_id) == Role::ValidatingPeer
        &&& block.as_expected(
            self.latest_block_hash(),
            self.latest_view_change_hash(),
            self.block_height,
            self.max_instruction_number,
        )
    }

    /// Whether `after`, `actions` and `result` are what a block that the
    /// leader created, coming in at `now`, makes of this engine.
    ///
    /// While a block is voted on, nothing happens. Else the events of the
    /// block are published and the view changes of the block are taken over
    /// if they hold. A block that the leader of its topology did not sign
    /// validly ends there. Else no transaction awaits a block any more. A
    /// validating peer that approves of the block validates it anew: if no
    /// transaction of it is valid, that is the error and the end; else the
    /// peer signs what is valid and has it sent to the proxy tail. Last, the
    /// block is taken up for the vote and the timer for its commit is started.
    pub open spec fn block_created(
        self,
        after: SumeragiView,
        actions: Seq<ActionView>,
        result: Result<(), Error>,
        block: BlockView,
        wsv: WsvView,
        now: u128,
    ) -> bool {
        let events = publish_all(block_events(block, Status::Validated));
        let seen = SumeragiView { topology: after.topology, ..self };
        let cleared = SumeragiView { txs_awaiting_created_block: Set::empty(), ..seen };
        let topology = seen.topology_for(block.header);
        let timer = ActionView::Start(
            seen.commit_timer(
                block.hash(),
                seen.latest_block_hash(),
                seen.latest_view_change_hash(),
            ),
        );
        let voting = SumeragiView {
            voting_block: Some(VotingBlockView { voted_at: now, block }),
            ..cleared
        };
        if self.voting_block is Some {
            after == self && actions == Seq::<ActionView>::empty() && result is Ok
        } else if !self.adopted(after.topology, block.header) {
            false
        } else if topology.signatures_of_roles(
            seq![Role::Leader],
            block.verified_signatures(),
        ).len() == 0 {
            after == seen && actions == events && result is Ok
        } else if !seen.approves(block) {
            after == voting && actions == events.push(timer) && result is Ok
        } else if is_void(block, wsv, self.is_instruction_allowed) {
            after == cleared && actions == events && result == Err::<(), Error>(
                Error::NoValidTransactions,
            )
        } else if topology.proxy_tail_index() < topology.sorted_peers.len() {
            &&& after == voting
            &&& result is Ok
            &&& actions == events.push(
                ActionView::Send {
                    peers: seq![topology.sorted_peers[topology.proxy_tail_index()]],
                    message: MessageView::BlockSigned(
                        validated(block, wsv, self.is_instruction_allowed).signed_by(self.key_pair),
                    ),
                },
            ).push(timer)
        } else {
            after == voting && actions == events.push(timer) && result is Ok
        }
    }

    /// Whether `after`, `actions` and `result` are what `message`, coming
    /// in at `now`, makes of this engine: what its kind of message makes
    /// of it.
    pub open spec fn handled(
        self,
        after: SumeragiView,
        actions: Seq<ActionView>,
        result: Result<(), Error>,
        message: MessageView,
        wsv: WsvView,
        now: u128,
    ) -> bool {
        match message {
            MessageView::BlockCreated(block) => self.block_created(
                after,
                actions,
                result,
                block,
                wsv,
                now,
            ),
            MessageView::BlockSigned(block) => self.block_signed(after, actions, block)
                && result is Ok,
            MessageView::BlockCommitted(block) => self.block_committed(after, actions, block)
                && result is Ok,
            MessageView::TransactionReceived(receipt) => self.receipt_received(
                after,
                actions,
                receipt,
                now,
            ) && result is Ok,
            MessageView::TransactionForwarded(transaction, peer) => after == self && actions
                == self.transaction_forwarded(transaction, peer, now) && result is Ok,
            MessageView::ViewChangeSuggested(proof) => self.view_change_suggested(
                after,
                actions,
                proof,
                now,
            ) && result is Ok,
        }
    }

    /// Whether `after` is this engine once it has looked at the trusted
    /// peers of `wsv`: with a topology built anew of those peers if they
    /// are other peers than its own and enough for the tolerated faults, and
    /// else unchanged.
    pub open spec fn topology_updated(self, after: SumeragiView, wsv: WsvView) -> bool {
        &&& after == SumeragiView { topology: after.topology, ..self }
        &&& if wsv.trusted_peers_ids.to_set() != self.topology.sorted_peers.to_set() && distinct(
            wsv.trusted_peers_ids,
        ).len() >= 3 * self.topology.max_faults + 1 {
            Topology::built_from(
                after.topology,
                distinct(wsv.trusted_peers_ids),
                self.topology.max_faults,
                self.topology.at_block,
                self.topology.reshuffle_after,
                self.topology.view_change_proofs,
            )
        } else {
            after.topology == self.topology
        }
    }

    /// Whether `after`, `actions` and `result` are the first step of the
    /// start of this engine at `now`. Behind a block other than the first
    /// it is set up behind that block. Else, if a genesis is given, the
    /// genesis round is started; its failure is the result. Else nothing
    /// happens.
    pub open spec fn started(
        self,
        after: SumeragiView,
        actions: Seq<ActionView>,
        result: Result<(), Error>,
        latest_block_hash: crypto::Hash,
        height: u64,
        genesis: Option<(Seq<TransactionView>, TopologyView)>,
        wsv: WsvView,
        now: u128,
    ) -> bool {
        if height != 0 && latest_block_hash != crypto::Hash::zero() {
            &&& after == SumeragiView { topology: after.topology, block_height: height, ..self }
            &&& after.topology.moved_to_block(self.topology, latest_block_hash)
            &&& actions == Seq::<ActionView>::empty()
            &&& result is Ok
        } else if genesis is None {
            after == self && actions == Seq::<ActionView>::empty() && result is Ok
        } else {
            let transactions = genesis->Some_0.0;
            let topology = genesis->Some_0.1;
            let block = BlockView {
                header: HeaderView {
                    genesis_topology: Some(topology),
                    ..PendingBlock::header_of(now)
                },
                transactions,
                signatures: Seq::empty(),
            };
            if transactions.len() == 0 {
                after == self && actions == Seq::<ActionView>::empty() && result == Err::<
                    (),
                    Error,
                >(Error::EmptyGenesis)
            } else if topology.leader() != self.peer_id {
                after == self && actions == Seq::<ActionView>::empty() && result == Err::<
                    (),
                    Error,
                >(Error::NotLeader)
            } else if self.block_height > 0 {
                after == self && actions == Seq::<ActionView>::empty() && result == Err::<
                    (),
                    Error,
                >(Error::NotGenesisHeight)
            } else {
                result is Ok && self.published(
                    after,
                    actions,
                    validated(block, wsv, self.is_instruction_allowed),
                    now,
                )
            }
        }
    }

    /// Whether `after` is this engine once `block` is committed: nothing is
    /// awaited or voted on any more, no block is set aside, the height is
    /// that of the block, and the topology has moved to the block.
    pub open spec fn committed(self, after: SumeragiView, block: BlockView) -> bool {
        &&& after == SumeragiView {
            topology: after.topology,
            voting_block: None,
            votes_for_blocks: Seq::empty(),
            txs_awaiting_receipts: Map::empty(),
            txs_awaiting_created_block: Set::empty(),
            block_height: block.header.height,
            invalidated_blocks_hashes: Seq::empty(),
            ..self
        }
        &&& after.topology.moved_to_block(self.topology, block.hash())
    }

    /// The actions that go with the commit of `block`: its events, then
    /// the block for the store.
    pub open spec fn commit_actions(block: BlockView) -> Seq<ActionView> {
        publish_all(block_events(block, Status::Committed)).push(ActionView::Store(block))
    }

    /// Whether `after` is this engine once the view has changed by
    /// `proof`: nothing is awaited or voted on any more, the block that the
    /// proof sets aside, if any, is noted, and the topology has changed view.
    pub open spec fn changed_view(
        self,
        after: SumeragiView,
        proof: ProofView,
        invalidated_block_hash: Option<crypto::Hash>,
    ) -> bool {
        &&& after == SumeragiView {
            topology: after.topology,
            voting_block: None,
            txs_awaiting_receipts: Map::empty(),
            txs_awaiting_created_block: Set::empty(),
            invalidated_blocks_hashes: match invalidated_block_hash {
                Some(h) => self.invalidated_blocks_hashes.push(h),
                None => self.invalidated_blocks_hashes,
            },
            ..self
        }
        &&& after.topology.changed_view(self.topology, proof)
    }
}

impl View for Sumeragi {
    type V = SumeragiView;

    closed spec fn view(&self) -> SumeragiView {
        SumeragiView {
            key_pair: self.key_pair,
            topology: self.topology@,
            peer_id: self.peer_id@,
            voting_block: match self.voting_block {
                Some(voting_block) => Some(voting_block@),
                None => None,
            },
            votes_for_blocks: block_views(self.votes_for_blocks@),
            txs_awaiting_receipts: times_by_hash(noted(&self.txs_awaiting_receipts)),
            txs_awaiting_created_block: hashes_in(members(&self.txs_awaiting_created_block)),
            commit_time_ms: self.commit_time_ms,
            tx_receipt_time_ms: self.tx_receipt_time_ms,
            block_time_ms: self.block_time_ms,
            block_height: self.block_height,
            invalidated_blocks_hashes: self.invalidated_blocks_hashes@,
            is_instruction_allowed: self.is_instruction_allowed,
            max_instruction_number: self.max_instruction_number,
        }
    }
}

impl Sumeragi {
    /// The invariant of the engine.
    pub open spec fn wf(&self) -> bool {
        self@.wf()
    }

    /// The engine that `configuration` describes, before any block: the
    /// topology of the trusted peers at the zero hash. Instructions will be
    /// held against `is_instruction_allowed`.
    ///
    /// Fails with `TooFewPeers` when fewer peers are trusted than the
    /// tolerated faults need. A peer that is named more than once counts once.
    pub fn from_configuration(
        configuration: &crate::config::SumeragiConfiguration,
        is_instruction_allowed: PermissionsValidatorBox,
    ) -> (r: Result<Sumeragi, Error>)
        ensures
            distinct(peer_views(configuration.trusted_peers.peers@)).len() < 3
                * configuration.max_faulty_peers + 1 ==> r is Err && r->Err_0
                == Error::TooFewPeers,
            distinct(peer_views(configuration.trusted_peers.peers@)).len() >= 3
                * configuration.max_faulty_peers + 1 ==> {
                &&& r is Ok
                &&& r->Ok_0.wf()
                &&& Topology::built_from(
                    r->Ok_0@.topology,
                    distinct(peer_views(configuration.trusted_peers.peers@)),
                    configuration.max_faulty_peers,
                    crypto::Hash::zero(),
                    configuration.n_topology_shifts_before_reshuffle,
                    Seq::empty(),
                )
                &&& r->Ok_0@ == SumeragiView {
                    key_pair: configuration.key_pair,
                    topology: r->Ok_0@.topology,
                    peer_id: configuration.peer_id@,
                    voting_block: None,
                    votes_for_blocks: Seq::empty(),
                    txs_awaiting_receipts: Map::empty(),
                    txs_awaiting_created_block: Set::empty(),
                    commit_time_ms: configuration.commit_time_ms,
                    tx_receipt_time_ms: configuration.tx_receipt_time_ms,
                    block_time_ms: configuration.block_time_ms,
                    block_height: 0,
                    invalidated_blocks_hashes: Seq::empty(),
                    is_instruction_allowed,
                    max_instruction_number: configuration.max_instruction_number,
                }
            },
    {
        let topology = match Topology::new(
            configuration.trusted_peers.peers.as_slice(),
            configuration.max_faulty_peers,
            crypto::Hash::zeroed(),
            configuration.n_topology_shifts_before_reshuffle,
        ) {
            Ok(topology) => topology,
            Err(error) => {
                return Err(error);
            },
        };
        let r = Sumeragi {
            key_pair: configuration.key_pair,
            topology,
            peer_id: configuration.peer_id.clone(),
            voting_block: None,
            votes_for_blocks: Vec::new(),
            txs_awaiting_receipts: notes_new(),
            txs_awaiting_created_block: set_new(),
            commit_time_ms: configuration.commit_time_ms,
            tx_receipt_time_ms: configuration.tx_receipt_time_ms,
            block_time_ms: configuration.block_time_ms,
            block_height: 0,
            invalidated_blocks_hashes: Vec::new(),
            is_instruction_allowed,
            max_instruction_number: configuration.max_instruction_number,
        };
        proof {
            assert(r@.votes_for_blocks =~= Seq::<BlockView>::empty());
            assert(r@.txs_awaiting_receipts =~= Map::<crypto::Hash, u128>::empty());
            assert(r@.txs_awaiting_created_block =~= Set::<crypto::Hash>::empty());
        }
        Ok(r)
    }

    /// Sets the engine up behind the block with hash `latest_block_hash`
    /// and height `block_height`, as the block store found it.
    pub fn init(&mut self, latest_block_hash: crypto::Hash, block_height: u64)
        requires
            old(self).wf(),
        ensures
            final(self).wf(),
            final(self)@ == (SumeragiView {
                topology: final(self)@.topology,
                block_height,
                ..old(self)@
            }),
            final(self)@.topology.moved_to_block(old(self)@.topology, latest_block_hash),
    {
        self.block_height = block_height;
        self.topology.apply_block(latest_block_hash);
    }

    /// Takes the trusted peers of the world state for the peers of the
    /// topology, unless they are the same peers already; see
    /// `SumeragiView::topology_updated`. A set of peers that is too small for
    /// the tolerated faults is not taken.
    pub fn update_network_topology(&mut self, wsv: &WorldStateView)
        requires
            old(self).wf(),
        ensures
            final(self).wf(),
            old(self)@.topology_updated(final(self)@, wsv@),
    {
        let wsv_peers = distinct_peers(wsv.trusted_peers_ids());
        proof {
            lemma_distinct(wsv@.trusted_peers_ids);
            lemma_distinct(distinct(wsv@.trusted_peers_ids));
        }
        let ghost start = self@;
        assert(start.topology.sorted_peers.no_duplicates());
        if !same_peers(wsv_peers.as_slice(), self.topology.sorted_peers()) {
            match self.topology.with_peers(wsv_peers.as_slice()) {
                Ok(topology) => {
                    self.topology = topology;
                },
                Err(_) => {},
            }
        }
        assert(self@.voting_block == start.voting_block);
        assert(self@.votes_for_blocks == start.votes_for_blocks);
    }

    /// Whether a block is voted on.
    pub fn voting_in_progress(&self) -> (r: bool)
        ensures
            r == (self@.voting_block is Some),
    {
        self.voting_block.is_some()
    }

    /// The hash of the latest committed block.
    pub fn latest_block_hash(&self) -> (r: crypto::Hash)
        ensures
            r == self@.latest_block_hash(),
    {
        self.topology.at_block()
    }

    /// How many view changes took place since the latest block.
    pub fn number_of_view_changes(&self) -> (r: u64)
        ensures
            r == self@.topology.view_change_proofs.len(),
    {
        self.topology.view_change_proofs().len() as u64
    }

    /// The proofs of the view changes since the latest block.
    pub fn view_change_proofs(&self) -> (r: &ProofChain)
        ensures
            r@ == self@.topology.view_change_proofs,
            self.wf() ==> r.wf(),
    {
        self.topology.view_change_proofs()
    }

    /// The hash of the latest view change, or the zero hash.
    pub fn latest_view_change_hash(&self) -> (r: crypto::Hash)
        ensures
            r == self@.latest_view_change_hash(),
    {
        self.topology.view_change_proofs().latest_hash()
    }

    /// The peers of the topology.
    pub fn peers(&self) -> (r: Vec<PeerId>)
        ensures
            peer_views(r@) == self@.topology.sorted_peers,
    {
        copy_peers(self.topology.sorted_peers())
    }

    /// Whether this peer is the leader of the view.
    pub fn is_leader(&self) -> (r: bool)
        ensures
            r == self@.is_leader(),
    {
        self.topology.role(&self.peer_id) == Role::Leader
    }

    /// The height of the latest committed block.
    pub fn block_height(&self) -> (r: u64)
        ensures
            r == self@.block_height,
    {
        self.block_height
    }

    /// A copy of the block that is voted on, if there is one.
    pub fn voting_block(&self) -> (r: Option<VotingBlock>)
        ensures
            r is Some == self@.voting_block is Some,
            r is Some ==> r->Some_0@ == self@.voting_block->Some_0,
    {
        match &self.voting_block {
            Some(voting_block) => Some(voting_block.clone()),
            None => None,
        }
    }

    fn clear_awaited(&mut self)
        ensures
            final(self)@ == (SumeragiView {
                txs_awaiting_receipts: Map::empty(),
                txs_awaiting_created_block: Set::empty(),
                ..old(self)@
            }),
    {
        set_clear(&mut self.txs_awaiting_created_block);
        notes_clear(&mut self.txs_awaiting_receipts);
        proof {
            assert(self@.txs_awaiting_receipts =~= Map::<crypto::Hash, u128>::empty());
            assert(self@.txs_awaiting_created_block =~= Set::<crypto::Hash>::empty());
        }
    }

    /// Commits `block`: nothing is awaited or voted on any more, the
    /// height is that of the block, and the topology moves to the block. The
    /// events of the commit are to be published and the block is to be stored.
    pub fn commit_block(&mut self, block: ValidBlock) -> (r: Vec<Action>)
        requires
            old(self).wf(),
            block.wf(),
        ensures
            final(self).wf(),
            old(self)@.committed(final(self)@, block@),
            action_views(r@) == SumeragiView::commit_actions(block@),
            actions_wf(r@),
    {
        let block_hash = block.hash();
        self.invalidated_blocks_hashes = Vec::new();
        self.clear_awaited();
        self.block_height = block.header.height;
        let events = events_of(&block, Status::Committed);
        let block = block.commit();
        let mut actions: Vec<Action> = Vec::new();
        proof {
            assert(action_views(actions@) =~= Seq::<ActionView>::empty());
        }
        publish(&mut actions, events.as_slice());
        let ghost published = actions@;
        actions.push(Action::Store(block));
        self.topology.apply_block(block_hash);
        self.voting_block = None;
        self.votes_for_blocks = Vec::new();
        proof {
            assert(action_views(actions@) =~= action_views(published).push(
                ActionView::Store(block@),
            ));
            assert(action_views(published) =~= publish_all(events@));
            assert(self@.votes_for_blocks =~= Seq::<BlockView>::empty());
            assert(self@.invalidated_blocks_hashes =~= Seq::<crypto::Hash>::empty());
        }
        actions
    }

    /// Changes the view by `proof`: nothing is awaited or voted on any
    /// more, the block that the view change sets aside, if any, is noted,
    /// and the topology changes view.
    pub fn change_view(&mut self, proof: Proof, invalidated_block_hash: Option<crypto::Hash>)
        requires
            old(self).wf(),
            proof.wf(),
        ensures
            final(self).wf(),
            old(self)@.changed_view(final(self)@, proof@, invalidated_block_hash),
    {
        self.clear_awaited();
        match invalidated_block_hash {
            Some(h) => {
                self.invalidated_blocks_hashes.push(h);
            },
            None => {},
        }
        self.topology.apply_view_change(proof);
        self.voting_block = None;
    }
}

/// Whether two lists of peers, in neither of which a peer occurs twice,
/// hold the same peers.
pub fn same_peers(a: &[PeerId], b: &[PeerId]) -> (r: bool)
    requires
        peer_views(a@).no_duplicates(),
        peer_views(b@).no_duplicates(),
    ensures
        r == (peer_views(a@).to_set() == peer_views(b@).to_set()),
{
    let ghost va = peer_views(a@);
    let ghost vb = peer_views(b@);
    proof {
        va.unique_seq_to_set();
        vb.unique_seq_to_set();
    }
    if a.len() != b.len() {
        return false;
    }
    let mut i: usize = 0;
    while i < a.len()
        invariant
            i <= a.len(),
            va == peer_views(a@),
            vb == peer_views(b@),
            a@.len() == b@.len(),
            va.no_duplicates(),
            vb.no_duplicates(),
            forall|j: int| 0 <= j < i ==> vb.contains(#[trigger] va[j]),
        decreases a.len() - i,
    {
        let at = crate::peer::position_of(b, &a[i]);
        proof {
            crate::seqs::lemma_position(vb, va[i as int]);
        }
        if at >= b.len() {
            proof {
                assert(va.contains(va[i as int]));
                assert(va.to_set().contains(va[i as int]));
                assert(!vb.to_set().contains(va[i as int]));
            }
            return false;
        }
        i += 1;
    }
    proof {
        assert(va.to_set().subset_of(vb.to_set())) by {
            assert forall|p: PeerIdView| va.to_set().contains(p) implies vb.to_set().contains(
                p,
            ) by {
                let j = choose|j: int| 0 <= j < va.len() && va[j] == p;
                assert(vb.contains(va[j]));
            }
        }
        vstd::set_lib::lemma_subset_equality(va.to_set(), vb.to_set());
    }
    true
}

impl Sumeragi {
    /// The topology by which a block with `header` is judged: the one that
    /// a genesis block brings, as long as no block was committed, and else
    /// the current one.
    pub fn network_topology_current_or_genesis(&self, header: &BlockHeader) -> (r: Topology)
        ensures
            r@ == self@.topology_for(header@),
            self.wf() && header@.wf() ==> r.wf(),
    {
        if self.block_height == 0 {
            match &header.genesis_topology {
                Some(genesis_topology) => {
                    return genesis_topology.clone();
                },
                None => {},
            }
        }
        self.topology.clone()
    }

    fn gossip_peers(&self) -> (r: Vec<PeerId>)
        requires
            self.wf(),
        ensures
            peer_views(r@) == self@.gossip_peers(),
    {
        let peers = self.topology.sorted_peers();
        let leader = self.topology.leader();
        let ghost views = peer_views(peers@);
        let ghost keep = |p: PeerIdView| p != self@.topology.leader() && p != self@.peer_id;
        let mut r: Vec<PeerId> = Vec::new();
        let mut i: usize = 0;
        proof {
            assert(views.take(0) =~= Seq::<PeerIdView>::empty());
            crate::seqs::lemma_filter_empty(keep);
            assert(peer_views(r@) =~= Seq::<PeerIdView>::empty());
        }
        while i < peers.len()
            invariant
                i <= peers.len(),
                views == peer_views(peers@),
                views == self@.topology.sorted_peers,
                leader@ == self@.topology.leader(),
                keep == |p: PeerIdView| p != self@.topology.leader() && p != self@.peer_id,
                peer_views(r@) == views.take(i as int).filter(keep),
            decreases peers.len() - i,
        {
            let ghost before = peer_views(r@);
            proof {
                crate::seqs::lemma_filter_take_step(views, i as int, keep);
            }
            if peers[i] != *leader && peers[i] != self.peer_id {
                r.push(peers[i].clone());
                assert(peer_views(r@) =~= before.push(views[i as int]));
            }
            i += 1;
        }
        assert(views.take(views.len() as int) =~= views);
        r
    }

    /// Gossips `transactions`: each is to be sent to all peers but the
    /// leader and this peer.
    pub fn gossip_transactions(&self, transactions: &[AcceptedTransaction]) -> (r: Vec<Action>)
        requires
            self.wf(),
            crate::block::all_wf(accepted_views(transactions@)),
        ensures
            action_views(r@) == self@.gossip_actions(accepted_views(transactions@)),
            actions_wf(r@),
    {
        let mut r: Vec<Action> = Vec::new();
        let mut i: usize = 0;
        while i < transactions.len()
            invariant
                i <= transactions.len(),
                self.wf(),
                crate::block::all_wf(accepted_views(transactions@)),
                r@.len() == i,
                actions_wf(r@),
                forall|j: int|
                    0 <= j < i ==> (#[trigger] r@[j])@ == (ActionView::Send {
                        peers: self@.gossip_peers(),
                        message: MessageView::TransactionForwarded(
                            transactions@[j]@,
                            self@.peer_id,
                        ),
                    }),
            decreases transactions.len() - i,
        {
            let message = Message::TransactionForwarded(
                TransactionForwarded::new(&transactions[i], &self.peer_id),
            );
            assert(accepted_views(transactions@)[i as int] == transactions@[i as int]@);
            r.push(Action::Send { peers: self.gossip_peers(), message });
            i += 1;
        }
        assert(action_views(r@) =~= self@.gossip_actions(accepted_views(transactions@)));
        r
    }

    fn sign_proof(&self, reason: Reason) -> (r: Proof)
        ensures
            r@ == self@.own_proof(reason),
            r.wf(),
    {
        let proof = Proof::new(
            reason,
            self.topology.view_change_proofs().latest_hash(),
            self.topology.at_block(),
        );
        proof {
            crate::signatures::lemma_with_signature(
                Seq::empty(),
                Signature::of(self.key_pair, proof@.hash().0@),
            );
        }
        proof.sign(&self.key_pair)
    }

    /// Forwards `transactions` to the leader at the time `now`. A
    /// transaction that awaits a receipt already is passed over. For each
    /// other the message to the leader and the timer for its receipt are
    /// asked for, and it awaits a receipt from `now` on if its signature
    /// condition is met.
    pub fn forward_transactions_to_leader(
        &mut self,
        transactions: &[AcceptedTransaction],
        wsv: &WorldStateView,
        now: u128,
    ) -> (r: Vec<Action>)
        requires
            old(self).wf(),
            crate::block::all_wf(accepted_views(transactions@)),
        ensures
            final(self).wf(),
            final(self)@ == (SumeragiView {
                txs_awaiting_receipts: old(self)@.awaited_after_forwarding(
                    accepted_views(transactions@),
                    wsv@,
                    now,
                ),
                ..old(self)@
            }),
            action_views(r@) == old(self)@.forwarding_actions(
                accepted_views(transactions@),
                wsv@,
                now,
            ),
            actions_wf(r@),
    {
        let ghost start = self@;
        let ghost views = accepted_views(transactions@);
        let mut r: Vec<Action> = Vec::new();
        let mut i: usize = 0;
        proof {
            assert(views.take(0) =~= Seq::<TransactionView>::empty());
            assert(action_views(r@) =~= Seq::<ActionView>::empty());
        }
        while i < transactions.len()
            invariant
                i <= transactions.len(),
                start == old(self)@,
                start.wf(),
                views == accepted_views(transactions@),
                crate::block::all_wf(views),
                self@ == (SumeragiView {
                    txs_awaiting_receipts: start.awaited_after_forwarding(
                        views.take(i as int),
                        wsv@,
                        now,
                    ),
                    ..start
                }),
                action_views(r@) == start.forwarding_actions(views.take(i as int), wsv@, now),
                actions_wf(r@),
            decreases transactions.len() - i,
        {
            let transaction = &transactions[i];
            let transaction_hash = transaction.hash();
            let ghost before = self@;
            let ghost before_actions = action_views(r@);
            proof {
                let next = views.take(i as int + 1);
                assert(next.drop_last() =~= views.take(i as int));
                assert(next.last() == views[i as int]);
                assert(views[i as int] == transaction@);
                assert(forall|h: crypto::Hash|
                    (h.0 == transaction_hash.0) == (h == transaction_hash));
            }
            if notes_contains(&self.txs_awaiting_receipts, &transaction_hash.0) {
                i += 1;
                continue;
            }
            let leader = self.topology.leader().clone();
            let mut to: Vec<PeerId> = Vec::new();
            to.push(leader);
            assert(peer_views(to@) =~= seq![start.topology.leader()]);
            r.push(
                Action::Send {
                    peers: to,
                    message: Message::TransactionForwarded(
                        TransactionForwarded::new(transaction, &self.peer_id),
                    ),
                },
            );
            let proof = self.sign_proof(
                Reason::NoTransactionReceiptReceived(
                    NoTransactionReceiptReceived { transaction_hash },
                ),
            );
            let timer = Timer::Receipt {
                after_ms: self.tx_receipt_time_ms,
                transaction_hash,
                proof,
                peers: copy_peers(self.topology.sorted_peers()),
            };
            assert(timer@ == start.receipt_timer(transaction@));
            r.push(Action::Start(timer));
            match transaction.check_signature_condition(wsv) {
                Ok(met) => {
                    if met {
                        notes_insert(&mut self.txs_awaiting_receipts, transaction_hash.0, now);
                    }
                },
                Err(_) => {},
            }
            proof {
                assert(self@.txs_awaiting_receipts =~= start.awaited_after_forwarding(
                    views.take(i as int + 1),
                    wsv@,
                    now,
                ));
                assert(action_views(r@) =~= before_actions.push(
                    ActionView::Send {
                        peers: seq![start.topology.leader()],
                        message: MessageView::TransactionForwarded(transaction@, start.peer_id),
                    },
                ).push(ActionView::Start(start.receipt_timer(transaction@))));
            }
            i += 1;
        }
        assert(views.take(views.len() as int) =~= views);
        r
    }

    /// The timer for the commit of `voting_block`, which is to be started
    /// when the block is taken up for a vote.
    pub fn start_commit_countdown(
        &self,
        voting_block: &VotingBlock,
        latest_block_hash: crypto::Hash,
        latest_view_change_hash: crypto::Hash,
    ) -> (r: Action)
        ensures
            r@ == ActionView::Start(
                self@.commit_timer(
                    voting_block@.block.hash(),
                    latest_block_hash,
                    latest_view_change_hash,
                ),
            ),
            r.wf(),
    {
        Action::Start(
            Timer::Commit {
                after_ms: self.commit_time_ms,
                voting_block_hash: voting_block.block.hash(),
                latest_block_hash,
                latest_view_change_hash,
                peers: copy_peers(self.topology.sorted_peers()),
            },
        )
    }

    /// What is to be done when `timer` has run out; see
    /// `SumeragiView::timer_actions`.
    pub fn on_timer(&self, timer: &Timer) -> (r: Vec<Action>)
        requires
            timer.wf(),
        ensures
            action_views(r@) == self@.timer_actions(timer@),
            actions_wf(r@),
    {
        let mut r: Vec<Action> = Vec::new();
        proof {
            assert(action_views(r@) =~= Seq::<ActionView>::empty());
        }
        match timer {
            Timer::Receipt { after_ms, transaction_hash, proof, peers } => {
                if notes_contains(&self.txs_awaiting_receipts, &transaction_hash.0) {
                    let action = Action::Send {
                        peers: peers_other_than(peers.as_slice(), &self.peer_id),
                        message: Message::ViewChangeSuggested(
                            ViewChangeSuggested { proof: proof.clone() },
                        ),
                    };
                    r.push(action);
                    assert(action_views(r@) =~= seq![action@]);
                }
            },
            Timer::BlockCreation { after_ms, transaction_hash, proof, peers } => {
                if set_contains(&self.txs_awaiting_created_block, &transaction_hash.0) {
                    let action = Action::Send {
                        peers: copy_peers(peers.as_slice()),
                        message: Message::ViewChangeSuggested(
                            ViewChangeSuggested { proof: proof.clone() },
                        ),
                    };
                    r.push(action);
                    assert(action_views(r@) =~= seq![action@]);
                }
            },
            Timer::Commit {
                after_ms,
                voting_block_hash,
                latest_block_hash,
                latest_view_change_hash,
                peers,
            } => {
                let still = match &self.voting_block {
                    Some(voting_block) => voting_block.block.hash() == *voting_block_hash,
                    None => false,
                };
                if still {
                    let unsigned = Proof::commit_timeout(
                        *voting_block_hash,
                        *latest_view_change_hash,
                        *latest_block_hash,
                    );
                    proof {
                        crate::signatures::lemma_with_signature(
                            Seq::empty(),
                            Signature::of(self.key_pair, unsigned@.hash().0@),
                        );
                    }
                    let action = Action::Send {
                        peers: peers_other_than(peers.as_slice(), &self.peer_id),
                        message: Message::ViewChangeSuggested(
                            ViewChangeSuggested { proof: unsigned.sign(&self.key_pair) },
                        ),
                    };
                    r.push(action);
                    assert(action_views(r@) =~= seq![action@]);
                }
            },
        }
        r
    }
}

impl Sumeragi {
    /// Validates `block` against `wsv` and publishes it at the time `now`;
    /// see `SumeragiView::published`.
    ///
    /// Fails with `NoValidTransactions`, and does nothing, when no
    /// transaction of the block is valid and the block is no genesis block.
    pub fn validate_and_publish_created_block(
        &mut self,
        block: ChainedBlock,
        wsv: &WorldStateView,
        now: u128,
    ) -> (r: Result<Vec<Action>, Error>)
        requires
            old(self).wf(),
            block.wf(),
        ensures
            final(self).wf(),
            is_void(block@, wsv@, old(self)@.is_instruction_allowed) ==> r is Err && r->Err_0
                == Error::NoValidTransactions && final(self)@ == old(self)@,
            !is_void(block@, wsv@, old(self)@.is_instruction_allowed) ==> r is Ok && actions_wf(
                r->Ok_0@,
            ) && old(self)@.published(
                final(self)@,
                action_views(r->Ok_0@),
                validated(block@, wsv@, old(self)@.is_instruction_allowed),
                now,
            ),
    {
        let block = match block.validate(wsv, &self.is_instruction_allowed) {
            Ok(block) => block,
            Err(error) => {
                return Err(error);
            },
        };
        let network_topology = self.network_topology_current_or_genesis(&block.header);
        let mut actions: Vec<Action> = Vec::new();
        proof {
            assert(action_views(actions@) =~= Seq::<ActionView>::empty());
        }
        let events = events_of(&block, Status::Created);
        publish(&mut actions, events.as_slice());
        let ghost created = action_views(actions@);
        assert(created =~= publish_all(events@));
        if !network_topology.is_consensus_required() {
            let ghost view = block@;
            let mut more = self.commit_block(block);
            let ghost commit = action_views(more@);
            let ghost first = actions@;
            let ghost second = more@;
            actions.append(&mut more);
            proof {
                assert(actions@ =~= first + second);
                assert(action_views(actions@) =~= created + commit);
            }
            return Ok(actions);
        }
        let signed = block.clone().sign(&self.key_pair);
        let voting_block = VotingBlock::new_at(block, now);
        let countdown = self.start_commit_countdown(
            &voting_block,
            self.latest_block_hash(),
            self.latest_view_change_hash(),
        );
        let send = Action::Send {
            peers: peers_other_than(network_topology.sorted_peers(), &self.peer_id),
            message: Message::BlockCreated(BlockCreated { block: signed }),
        };
        let ghost first = actions@;
        actions.push(send);
        actions.push(countdown);
        assert(voting_block@.block.wf());
        self.voting_block = Some(voting_block);
        proof {
            assert(action_views(actions@) =~= created.push(send@).push(countdown@));
            assert(self@.topology.wf());
            assert(self@.voting_block->Some_0.block.wf());
            assert(self@.votes_for_blocks == old(self)@.votes_for_blocks);
        }
        Ok(actions)
    }

    /// Runs a round with `transactions` at the time `now`; see
    /// `SumeragiView::round_done`. The actions are to be carried out even
    /// where the round failed.
    pub fn round(
        &mut self,
        transactions: Vec<AcceptedTransaction>,
        wsv: &WorldStateView,
        now: u128,
    ) -> (r: (Vec<Action>, Result<(), Error>))
        requires
            old(self).wf(),
            all_wf(accepted_views(transactions@)),
        ensures
            final(self).wf(),
            actions_wf(r.0@),
            old(self)@.round_done(
                final(self)@,
                action_views(r.0@),
                r.1,
                accepted_views(transactions@),
                wsv@,
                now,
            ),
    {
        if transactions.len() == 0 {
            let actions: Vec<Action> = Vec::new();
            assert(action_views(actions@) =~= Seq::<ActionView>::empty());
            return (actions, Ok(()));
        }
        let ghost views = accepted_views(transactions@);
        let mut actions = self.gossip_transactions(transactions.as_slice());
        let ghost gossip = action_views(actions@);
        if !self.is_leader() {
            let mut more = self.forward_transactions_to_leader(transactions.as_slice(), wsv, now);
            let ghost first = actions@;
            let ghost second = more@;
            actions.append(&mut more);
            proof {
                assert(actions@ =~= first + second);
                assert(action_views(actions@) =~= gossip + action_views(second));
            }
            return (actions, Ok(()));
        }
        let latest = self.latest_block_hash();
        let mut block = PendingBlock::new_at(transactions, now).chain(
            self.block_height,
            latest,
            self.topology.view_change_proofs().clone(),
            copy_hashes(self.invalidated_blocks_hashes.as_slice()),
        );
        if latest == crypto::Hash::zeroed() {
            block.header.previous_block_hash = None;
        }
        assert(block@ == old(self)@.round_block(views, now));
        match self.validate_and_publish_created_block(block, wsv, now) {
            Ok(more) => {
                let mut more = more;
                let ghost first = actions@;
                let ghost second = more@;
                actions.append(&mut more);
                proof {
                    assert(actions@ =~= first + second);
                    assert(action_views(actions@) =~= gossip + action_views(second));
                    assert(action_views(actions@).take(gossip.len() as int) =~= gossip);
                    assert(action_views(actions@).skip(gossip.len() as int) =~= action_views(
                        second,
                    ));
                }
                (actions, Ok(()))
            },
            Err(error) => (actions, Err(error)),
        }
    }

    /// Starts the chain with a genesis block of `transactions` that brings
    /// `genesis_topology` with it.
    ///
    /// Fails, and does nothing, with `EmptyGenesis` when there are no
    /// transactions, else with `NotLeader` when this peer does not lead the
    /// genesis topology, else with `NotGenesisHeight` when a block above
    /// height zero was committed.
    pub fn start_genesis_round(
        &mut self,
        transactions: Vec<AcceptedTransaction>,
        genesis_topology: Topology,
        wsv: &WorldStateView,
        now: u128,
    ) -> (r: Result<Vec<Action>, Error>)
        requires
            old(self).wf(),
            genesis_topology.wf(),
            all_wf(accepted_views(transactions@)),
        ensures
            final(self).wf(),
            transactions@.len() == 0 ==> r is Err && r->Err_0 == Error::EmptyGenesis,
            transactions@.len() > 0 && genesis_topology@.leader() != old(self)@.peer_id ==> r is Err
                && r->Err_0 == Error::NotLeader,
            transactions@.len() > 0 && genesis_topology@.leader() == old(self)@.peer_id
                && old(self)@.block_height > 0 ==> r is Err && r->Err_0
                == Error::NotGenesisHeight,
            r is Err ==> final(self)@ == old(self)@,
            transactions@.len() > 0 && genesis_topology@.leader() == old(self)@.peer_id
                && old(self)@.block_height == 0 ==> r is Ok && actions_wf(r->Ok_0@) && old(
                self,
            )@.published(
                final(self)@,
                action_views(r->Ok_0@),
                validated(
                    BlockView {
                        header: HeaderView {
                            genesis_topology: Some(genesis_topology@),
                            ..PendingBlock::header_of(now)
                        },
                        transactions: accepted_views(transactions@),
                        signatures: Seq::empty(),
                    },
                    wsv@,
                    old(self)@.is_instruction_allowed,
                ),
                now,
            ),
    {
        if transactions.len() == 0 {
            return Err(Error::EmptyGenesis);
        }
        if *genesis_topology.leader() != self.peer_id {
            return Err(Error::NotLeader);
        }
        if self.block_height > 0 {
            return Err(Error::NotGenesisHeight);
        }
        let block = PendingBlock::new_at(transactions, now).chain_first_with_genesis_topology(
            genesis_topology,
        );
        self.validate_and_publish_created_block(block, wsv, now)
    }

    /// Looks into the queue at the time `now`: unless a block is voted
    /// on, the transactions that are due are popped from `queue` and a round
    /// is run with them.
    pub fn on_tick(&mut self, queue: &mut Queue, wsv: &WorldStateView, now: u128) -> (r: (
        Vec<Action>,
        Result<(), Error>,
    ))
        requires
            old(self).wf(),
            old(queue).wf(),
        ensures
            final(self).wf(),
            final(queue).wf(),
            actions_wf(r.0@),
            old(self)@.voting_block is Some ==> final(self)@ == old(self)@ && final(queue)@
                == old(queue)@ && r.0@.len() == 0 && r.1 is Ok,
            old(self)@.voting_block is None ==> {
                let time = if now > u64::MAX {
                    u64::MAX
                } else {
                    now as u64
                };
                &&& final(queue)@ == old(queue)@.left_behind(old(self)@.is_leader(), wsv@, time)
                &&& old(self)@.round_done(
                    final(self)@,
                    action_views(r.0@),
                    r.1,
                    old(queue)@.handed_out(old(self)@.is_leader(), wsv@, time),
                    wsv@,
                    now,
                )
            },
    {
        if self.voting_in_progress() {
            return (Vec::new(), Ok(()));
        }
        let is_leader = self.is_leader();
        let transactions = queue.pop_avaliable_at(is_leader, wsv, saturated(now));
        proof {
            assert(accepted_views(transactions@) =~= tx_views(transactions@));
            assert forall|i: int|
                0 <= i < transactions@.len() implies crate::signatures::distinct_keys(
                (#[trigger] accepted_views(transactions@)[i]).signatures,
            ) by {
                assert(transactions@[i].wf());
            }
        }
        self.round(transactions, wsv, now)
    }
}

impl BlockCommitted {
    /// Handles the message that a block is committed; see
    /// `SumeragiView::block_committed`. A block that does not follow the
    /// latest block is not committed.
    pub fn handle(&self, sumeragi: &mut Sumeragi) -> (r: Vec<Action>)
        requires
            old(sumeragi).wf(),
            self.block.wf(),
        ensures
            final(sumeragi).wf(),
            actions_wf(r@),
            old(sumeragi)@.block_committed(final(sumeragi)@, action_views(r@), self.block@),
            old(sumeragi)@.latest_block_hash() != self.block@.header.previous_or_zero()
                ==> final(sumeragi)@ == old(sumeragi)@ && r@.len() == 0,
    {
        let network_topology = sumeragi.network_topology_current_or_genesis(&self.block.header);
        let verified_signatures = self.block.verified_signatures();
        let all = [Role::ValidatingPeer, Role::Leader, Role::ProxyTail];
        let tail = [Role::ProxyTail];
        proof {
            assert(all@ =~= seq![Role::ValidatingPeer, Role::Leader, Role::ProxyTail]);
            assert(tail@ =~= seq![Role::ProxyTail]);
        }
        let valid_signatures = network_topology.filter_signatures_by_roles(
            all.as_slice(),
            verified_signatures.as_slice(),
        );
        let proxy_tail_signatures = network_topology.filter_signatures_by_roles(
            tail.as_slice(),
            verified_signatures.as_slice(),
        );
        let previous = match self.block.header.previous_block_hash {
            Some(h) => h,
            None => crypto::Hash::zeroed(),
        };
        if valid_signatures.len() as u64 >= network_topology.min_votes_for_commit()
            && proxy_tail_signatures.len() == 1 && sumeragi.latest_block_hash() == previous {
            let mut block = self.block.clone();
            block.signatures = signatures_from(valid_signatures.as_slice());
            sumeragi.commit_block(block)
        } else {
            let r: Vec<Action> = Vec::new();
            assert(action_views(r@) =~= Seq::<ActionView>::empty());
            r
        }
    }
}

impl Sumeragi {
    fn vote_position(&self, hash: &crypto::Hash) -> (at: usize)
        ensures
            at == self@.vote_position(*hash),
            at <= self.votes_for_blocks@.len(),
    {
        let ghost hashes = self@.votes_for_blocks.map_values(|b: BlockView| b.hash());
        proof {
            lemma_position(hashes, *hash);
        }
        let mut i: usize = 0;
        while i < self.votes_for_blocks.len()
            invariant
                i <= self.votes_for_blocks.len(),
                hashes == self@.votes_for_blocks.map_values(|b: BlockView| b.hash()),
                hashes.len() == self.votes_for_blocks@.len(),
                forall|j: int| 0 <= j < i ==> hashes[j] != *hash,
                0 <= position(hashes, *hash) <= hashes.len(),
                position(hashes, *hash) < hashes.len() ==> hashes[position(hashes, *hash)] == *hash,
                forall|j: int| 0 <= j < position(hashes, *hash) ==> hashes[j] != *hash,
            decreases self.votes_for_blocks.len() - i,
        {
            if self.votes_for_blocks[i].hash() == *hash {
                assert(hashes[i as int] == *hash);
                return i;
            }
            assert(hashes[i as int] != *hash);
            i += 1;
        }
        i
    }
}

/// The peers to whom the proxy tail sends a committed block.
pub fn peers_for_commit(topology: &Topology) -> (r: Vec<PeerId>)
    requires
        topology.wf(),
    ensures
        peer_views(r@) == commit_recipients(topology@),
{
    let mut r = topology.validating_peers();
    let ghost first = peer_views(r@);
    r.push(topology.leader().clone());
    let ghost second = peer_views(r@);
    assert(second =~= first.push(topology@.leader()));
    let mut rest = topology.peers_set_b();
    let ghost third = peer_views(rest@);
    let ghost a = r@;
    let ghost b = rest@;
    r.append(&mut rest);
    proof {
        assert(r@ =~= a + b);
        assert(peer_views(r@) =~= second + third);
        assert(third =~= (if topology@.sorted_peers.len() > 2 * topology@.max_faults + 2 {
            topology@.sorted_peers.subrange(
                2 * topology@.max_faults + 2,
                topology@.sorted_peers.len() as int,
            )
        } else {
            Seq::empty()
        }));
        assert(peer_views(r@) =~= commit_recipients(topology@));
    }
    r
}

impl BlockSigned {
    /// Handles the message that a block was signed; see
    /// `SumeragiView::block_signed`.
    pub fn handle(&self, sumeragi: &mut Sumeragi) -> (r: Vec<Action>)
        requires
            old(sumeragi).wf(),
            self.block.wf(),
        ensures
            final(sumeragi).wf(),
            actions_wf(r@),
            old(sumeragi)@.block_signed(final(sumeragi)@, action_views(r@), self.block@),
    {
        let ghost start = sumeragi@;
        let network_topology = sumeragi.network_topology_current_or_genesis(&self.block.header);
        let mut actions: Vec<Action> = Vec::new();
        proof {
            assert(action_views(actions@) =~= Seq::<ActionView>::empty());
        }
        if network_topology.role(&sumeragi.peer_id) != Role::ProxyTail {
            return actions;
        }
        let block_hash = self.block.hash();
        let at = sumeragi.vote_position(&block_hash);
        let found = at < sumeragi.votes_for_blocks.len();
        let mut entry = if found {
            sumeragi.votes_for_blocks[at].clone()
        } else {
            self.block.clone()
        };
        proof {
            if found {
                assert(entry@ == start.votes_for_blocks[at as int]);
                assert(entry.wf());
            }
        }
        let votes = self.block.verified_signatures();
        entry.signatures.append(votes.as_slice());
        assert(entry@ == start.votes_with(self.block@));
        let counted = [Role::ValidatingPeer, Role::Leader];
        proof {
            assert(counted@ =~= seq![Role::ValidatingPeer, Role::Leader]);
        }
        let entry_votes = entry.verified_signatures();
        let valid_signatures = network_topology.filter_signatures_by_roles(
            counted.as_slice(),
            entry_votes.as_slice(),
        );
        if valid_signatures.len() as u64 >= network_topology.min_votes_for_commit() - 1 {
            let mut block = entry;
            block.signatures = signatures_from(valid_signatures.as_slice());
            let block = block.sign(&sumeragi.key_pair);
            assert(block@ == start.declared(self.block@));
            let send = Action::Send {
                peers: peers_for_commit(&network_topology),
                message: Message::BlockCommitted(BlockCommitted { block: block.clone() }),
            };
            actions.push(send);
            let ghost first = actions@;
            sumeragi.votes_for_blocks = Vec::new();
            let mut more = sumeragi.commit_block(block);
            let ghost second = more@;
            actions.append(&mut more);
            proof {
                assert(actions@ =~= first + second);
                assert(action_views(actions@) =~= seq![send@] + action_views(second));
            }
            actions
        } else {
            if found {
                sumeragi.votes_for_blocks[at] = entry;
                assert(sumeragi@.votes_for_blocks =~= start.votes_for_blocks.update(
                    at as int,
                    entry@,
                ));
            } else {
                sumeragi.votes_for_blocks.push(entry);
                assert(sumeragi@.votes_for_blocks =~= start.votes_for_blocks.push(entry@));
            }
            actions
        }
    }
}

impl TransactionForwarded {
    /// Handles a forwarded transaction at the time `now`: the leader
    /// acknowledges it to the peer that forwarded it, and every peer has
    /// it put in its queue.
    pub fn handle(&self, sumeragi: &Sumeragi, now: u128) -> (r: Vec<Action>)
        requires
            self.transaction.wf(),
        ensures
            actions_wf(r@),
            action_views(r@) == sumeragi@.transaction_forwarded(
                self.transaction@,
                self.peer@,
                now,
            ),
    {
        let mut actions: Vec<Action> = Vec::new();
        if sumeragi.is_leader() {
            let receipt = TransactionReceipt::new_at(&self.transaction, &sumeragi.key_pair, now);
            let mut to: Vec<PeerId> = Vec::new();
            to.push(self.peer.clone());
            assert(peer_views(to@) =~= seq![self.peer@]);
            actions.push(
                Action::Send { peers: to, message: Message::TransactionReceived(receipt) },
            );
        }
        actions.push(Action::Enqueue(self.transaction.clone()));
        assert(action_views(actions@) =~= sumeragi@.transaction_forwarded(
            self.transaction@,
            self.peer@,
            now,
        ));
        actions
    }
}

impl TransactionReceipt {
    /// Handles the receipt at the time `now`; see
    /// `SumeragiView::receipt_received`.
    pub fn handle(&self, sumeragi: &mut Sumeragi, now: u128) -> (r: Vec<Action>)
        requires
            old(sumeragi).wf(),
        ensures
            final(sumeragi).wf(),
            actions_wf(r@),
            old(sumeragi)@.receipt_received(final(sumeragi)@, action_views(r@), *self, now),
    {
        let ghost start = sumeragi@;
        let mut actions: Vec<Action> = Vec::new();
        proof {
            assert(action_views(actions@) =~= Seq::<ActionView>::empty());
            let wanted = self.transaction_hash;
            assert(forall|h: crypto::Hash| (h.0 == wanted.0) == (h == wanted));
        }
        if sumeragi.topology.role(&sumeragi.peer_id) != Role::Leader && self.received_at <= now
            && self.is_valid(&sumeragi.topology) && notes_contains(
            &sumeragi.txs_awaiting_receipts,
            &self.transaction_hash.0,
        ) {
            let proof = sumeragi.sign_proof(
                Reason::BlockCreationTimeout(BlockCreationTimeout { transaction_receipt: *self }),
            );
            let timer = Timer::BlockCreation {
                after_ms: sumeragi.block_time_ms,
                transaction_hash: self.transaction_hash,
                proof,
                peers: copy_peers(sumeragi.topology.sorted_peers()),
            };
            notes_remove(&mut sumeragi.txs_awaiting_receipts, &self.transaction_hash.0);
            set_insert(&mut sumeragi.txs_awaiting_created_block, self.transaction_hash.0);
            let action = Action::Start(timer);
            actions.push(action);
            proof {
                assert(sumeragi@.txs_awaiting_receipts =~= start.txs_awaiting_receipts.remove(
                    self.transaction_hash,
                ));
                assert(sumeragi@.txs_awaiting_created_block
                    =~= start.txs_awaiting_created_block.insert(self.transaction_hash));
                assert(action_views(actions@) =~= seq![action@]);
                assert(sumeragi@.topology == start.topology);
                assert(sumeragi@.voting_block == start.voting_block);
                assert(sumeragi@.votes_for_blocks == start.votes_for_blocks);
            }
        }
        actions
    }
}

impl ViewChangeSuggested {
    /// Whether this peer sees at `now` that the block of `reason` is
    /// voted on for the commit time or longer.
    pub fn is_commit_timeout(reason: &CommitTimeout, sumeragi: &Sumeragi, now: u128) -> (r: bool)
        ensures
            r == sumeragi@.agrees_with(Reason::CommitTimeout(*reason), now),
    {
        match &sumeragi.voting_block {
            Some(voting_block) => {
                voting_block.block.hash() == reason.voting_block_hash && now
                    >= voting_block.voted_at && now - voting_block.voted_at
                    >= sumeragi.commit_time_ms as u128
            },
            None => false,
        }
    }

    /// Whether this peer sees at `now` that the receipt of `reason` is
    /// from the leader, that the block time has passed since, and that no
    /// block is voted on.
    pub fn is_block_creation_timeout(
        reason: &BlockCreationTimeout,
        sumeragi: &Sumeragi,
        now: u128,
    ) -> (r: bool)
        ensures
            r == sumeragi@.agrees_with(Reason::BlockCreationTimeout(*reason), now),
    {
        reason.transaction_receipt.is_valid(&sumeragi.topology)
            && reason.transaction_receipt.is_block_should_be_created_at(
            sumeragi.block_time_ms,
            now,
        ) && sumeragi.voting_block.is_none()
    }

    /// Whether this peer sees at `now` that the transaction of `reason`
    /// awaits its receipt for the receipt time or longer.
    pub fn is_no_transaction_receipt_recieved(
        reason: &NoTransactionReceiptReceived,
        sumeragi: &Sumeragi,
        now: u128,
    ) -> (r: bool)
        ensures
            r == sumeragi@.agrees_with(Reason::NoTransactionReceiptReceived(*reason), now),
    {
        proof {
            let wanted = reason.transaction_hash;
            assert(forall|h: crypto::Hash| (h.0 == wanted.0) == (h == wanted));
        }
        match notes_get(&sumeragi.txs_awaiting_receipts, &reason.transaction_hash.0) {
            Some(sent_at) => now >= sent_at && now - sent_at >= sumeragi.tx_receipt_time_ms as u128,
            None => false,
        }
    }

    /// The suggestion with the signature of `key_pair` put in.
    pub fn sign(self, key_pair: &KeyPair) -> (r: ViewChangeSuggested)
        requires
            self.proof.wf(),
        ensures
            r.proof@ == (ProofView {
                signatures: with_signature(
                    self.proof@.signatures,
                    Signature::of(*key_pair, self.proof@.hash().0@),
                ),
                ..self.proof@
            }),
            r.proof.wf(),
    {
        ViewChangeSuggested { proof: self.proof.sign(key_pair) }
    }

    /// Handles the suggestion at the time `now`; see
    /// `SumeragiView::view_change_suggested`.
    pub fn handle(&self, sumeragi: &mut Sumeragi, now: u128) -> (r: Vec<Action>)
        requires
            old(sumeragi).wf(),
            self.proof.wf(),
        ensures
            final(sumeragi).wf(),
            actions_wf(r@),
            old(sumeragi)@.view_change_suggested(
                final(sumeragi)@,
                action_views(r@),
                self.proof@,
                now,
            ),
    {
        let ghost start = sumeragi@;
        let mut actions: Vec<Action> = Vec::new();
        proof {
            assert(action_views(actions@) =~= Seq::<ActionView>::empty());
        }
        if !self.proof.has_same_state(
            sumeragi.latest_block_hash(),
            sumeragi.latest_view_change_hash(),
        ) {
            return actions;
        }
        let reason = self.proof.reason();
        let (should_vote, invalidated_block_hash) = match reason {
            Reason::CommitTimeout(reason) => (
                ViewChangeSuggested::is_commit_timeout(&reason, sumeragi, now),
                Some(reason.voting_block_hash),
            ),
            Reason::NoTransactionReceiptReceived(reason) => (
                ViewChangeSuggested::is_no_transaction_receipt_recieved(&reason, sumeragi, now),
                None,
            ),
            Reason::BlockCreationTimeout(reason) => (
                ViewChangeSuggested::is_block_creation_timeout(&reason, sumeragi, now),
                None,
            ),
        };
        let already_voted = self.proof.signatures().contains(&sumeragi.key_pair.public_key);
        let proof = if should_vote && !already_voted {
            let signed = self.proof.clone().sign(&sumeragi.key_pair);
            let action = Action::Send {
                peers: peers_other_than(sumeragi.topology.sorted_peers(), &sumeragi.peer_id),
                message: Message::ViewChangeSuggested(
                    ViewChangeSuggested { proof: signed.clone() },
                ),
            };
            actions.push(action);
            assert(action_views(actions@) =~= seq![action@]);
            signed
        } else {
            self.proof.clone()
        };
        assert(proof@ == start.seconded(self.proof@, now));
        if proof.verify(sumeragi.topology.sorted_peers(), sumeragi.topology.max_faults()) {
            sumeragi.change_view(proof, invalidated_block_hash);
        }
        actions
    }
}

impl BlockCreated {
    /// Takes over the view changes that the block brings, if they are
    /// more than this peer knows of and hold; see `SumeragiView::adopted`.
    pub fn update_view_changes(&self, sumeragi: &mut Sumeragi)
        requires
            old(sumeragi).wf(),
            self.block.wf(),
        ensures
            final(sumeragi).wf(),
            final(sumeragi)@ == (SumeragiView {
                topology: final(sumeragi)@.topology,
                ..old(sumeragi)@
            }),
            old(sumeragi)@.adopted(final(sumeragi)@.topology, self.block@.header),
    {
        let leader_view_changes = &self.block.header.view_change_proofs;
        if leader_view_changes.len() > sumeragi.topology.view_change_proofs().len()
            && leader_view_changes.verify_with_state(
            sumeragi.topology.sorted_peers(),
            sumeragi.topology.max_faults(),
            &sumeragi.latest_block_hash(),
        ) {
            sumeragi.topology = sumeragi.topology.with_view_changes(leader_view_changes);
        }
    }

    /// Handles a block that the leader created, at the time `now`; see
    /// `SumeragiView::block_created`. The actions are to be carried out
    /// even where the handling failed.
    pub fn handle(&self, sumeragi: &mut Sumeragi, wsv: &WorldStateView, now: u128) -> (r: (
        Vec<Action>,
        Result<(), Error>,
    ))
        requires
            old(sumeragi).wf(),
            self.block.wf(),
        ensures
            final(sumeragi).wf(),
            actions_wf(r.0@),
            old(sumeragi)@.block_created(
                final(sumeragi)@,
                action_views(r.0@),
                r.1,
                self.block@,
                wsv@,
                now,
            ),
    {
        let ghost start = sumeragi@;
        let mut actions: Vec<Action> = Vec::new();
        proof {
            assert(action_views(actions@) =~= Seq::<ActionView>::empty());
        }
        if sumeragi.voting_block.is_some() {
            return (actions, Ok(()));
        }
        let events = events_of(&self.block, Status::Validated);
        publish(&mut actions, events.as_slice());
        let ghost published = action_views(actions@);
        assert(published =~= publish_all(events@));
        self.update_view_changes(sumeragi);
        let ghost seen = sumeragi@;
        let network_topology = sumeragi.network_topology_current_or_genesis(&self.block.header);
        let leader = [Role::Leader];
        proof {
            assert(leader@ =~= seq![Role::Leader]);
        }
        let verified = self.block.verified_signatures();
        if network_topology.filter_signatures_by_roles(leader.as_slice(), verified.as_slice()).len()
            == 0 {
            return (actions, Ok(()));
        }
        set_clear(&mut sumeragi.txs_awaiting_created_block);
        proof {
            assert(sumeragi@.txs_awaiting_created_block =~= Set::<crypto::Hash>::empty());
        }
        let ghost cleared = sumeragi@;
        let approves = network_topology.role(&sumeragi.peer_id) == Role::ValidatingPeer
            && self.block.validation_check(
            &sumeragi.latest_block_hash(),
            &sumeragi.latest_view_change_hash(),
            sumeragi.block_height,
            sumeragi.max_instruction_number,
        );
        assert(approves == seen.approves(self.block@));
        if approves {
            let revalidated = self.block.clone().revalidate(
                wsv,
                &sumeragi.is_instruction_allowed,
            );
            let signed = match revalidated {
                Ok(block) => block.sign(&sumeragi.key_pair),
                Err(error) => {
                    return (actions, Err(error));
                },
            };
            match network_topology.proxy_tail() {
                Some(proxy_tail) => {
                    let mut to: Vec<PeerId> = Vec::new();
                    to.push(proxy_tail.clone());
                    assert(peer_views(to@) =~= seq![proxy_tail@]);
                    let ghost before = action_views(actions@);
                    let send = Action::Send {
                        peers: to,
                        message: Message::BlockSigned(BlockSigned { block: signed }),
                    };
                    actions.push(send);
                    assert(action_views(actions@) =~= before.push(send@));
                },
                None => {},
            }
        }
        let voting_block = VotingBlock::new_at(self.block.clone(), now);
        let countdown = sumeragi.start_commit_countdown(
            &voting_block,
            sumeragi.latest_block_hash(),
            sumeragi.latest_view_change_hash(),
        );
        let ghost before = action_views(actions@);
        actions.push(countdown);
        assert(action_views(actions@) =~= before.push(countdown@));
        assert(voting_block@.block.wf());
        sumeragi.voting_block = Some(voting_block);
        (actions, Ok(()))
    }
}

impl Message {
    /// Handles the message at the time `now`, each kind in its own way;
    /// see `SumeragiView::handled`. The actions are to be carried out even
    /// where the handling failed.
    pub fn handle(&self, sumeragi: &mut Sumeragi, wsv: &WorldStateView, now: u128) -> (r: (
        Vec<Action>,
        Result<(), Error>,
    ))
        requires
            old(sumeragi).wf(),
            self.wf(),
        ensures
            final(sumeragi).wf(),
            actions_wf(r.0@),
            old(sumeragi)@.handled(final(sumeragi)@, action_views(r.0@), r.1, self@, wsv@, now),
    {
        match self {
            Message::BlockCreated(block_created) => block_created.handle(sumeragi, wsv, now),
            Message::BlockSigned(block_signed) => (block_signed.handle(sumeragi), Ok(())),
            Message::BlockCommitted(block_committed) => (block_committed.handle(sumeragi), Ok(())),
            Message::TransactionReceived(transaction_receipt) => (
                transaction_receipt.handle(sumeragi, now),
                Ok(()),
            ),
            Message::TransactionForwarded(transaction_forwarded) => (
                transaction_forwarded.handle(sumeragi, now),
                Ok(()),
            ),
            Message::ViewChangeSuggested(view_change_suggested) => (
                view_change_suggested.handle(sumeragi, now),
                Ok(()),
            ),
        }
    }
}

impl crate::message::VersionedMessage {
    /// Handles the message at the time `now`; see `Message::handle`.
    pub fn handle(&self, sumeragi: &mut Sumeragi, wsv: &WorldStateView, now: u128) -> (r: (
        Vec<Action>,
        Result<(), Error>,
    ))
        requires
            old(sumeragi).wf(),
            self.wf(),
        ensures
            final(sumeragi).wf(),
            actions_wf(r.0@),
            old(sumeragi)@.handled(final(sumeragi)@, action_views(r.0@), r.1, self@, wsv@, now),
    {
        self.as_inner_v1().handle(sumeragi, wsv, now)
    }
}

/// The transactions of a genesis block and the topology that the block
/// is to bring with it.
#[derive(Debug)]
pub struct GenesisRound {
    /// The transactions of the genesis block.
    pub transactions: Vec<AcceptedTransaction>,
    /// The topology in which the genesis block is voted on.
    pub topology: Topology,
}

impl GenesisRound {
    /// What the genesis stands for in contracts.
    pub open spec fn view(&self) -> (Seq<TransactionView>, TopologyView) {
        (accepted_views(self.transactions@), self.topology@)
    }

    /// The invariant of a genesis: a well-formed topology and transactions.
    pub open spec fn wf(&self) -> bool {
        self.topology.wf() && all_wf(accepted_views(self.transactions@))
    }
}

/// What an optional genesis stands for in contracts.
pub open spec fn genesis_view(genesis: Option<GenesisRound>) -> Option<
    (Seq<TransactionView>, TopologyView),
> {
    match genesis {
        Some(g) => Some(g.view()),
        None => None,
    }
}

impl Sumeragi {
    /// The leader of the view.
    pub fn get_leader(&self) -> (r: PeerId)
        requires
            self.wf(),
        ensures
            r@ == self@.topology.leader(),
    {
        self.topology.leader().clone()
    }

    /// The peers in the order that gives them their roles.
    pub fn sorted_peers(&self) -> (r: Vec<PeerId>)
        ensures
            peer_views(r@) == self@.topology.sorted_peers,
    {
        copy_peers(self.topology.sorted_peers())
    }

    /// Starts the engine at the time `now`, once the block store has
    /// said which block is the latest. First the engine is set up behind
    /// that block or, where there is none and a genesis is given, starts the
    /// genesis round; see `SumeragiView::started`. Then it takes the trusted
    /// peers of the world state for its peers; see
    /// `SumeragiView::topology_updated`. Last it asks to be ticked.
    ///
    /// A genesis round that fails is the error; the engine starts all the same.
    pub fn on_init(
        &mut self,
        latest_block_hash: crypto::Hash,
        height: u64,
        genesis: Option<GenesisRound>,
        wsv: &WorldStateView,
        now: u128,
    ) -> (r: (Vec<Action>, Result<(), Error>))
        requires
            old(self).wf(),
            genesis is Some ==> genesis->Some_0.wf(),
        ensures
            final(self).wf(),
            actions_wf(r.0@),
            r.0@.len() > 0,
            action_views(r.0@).last() == ActionView::TickEvery(TX_RETRIEVAL_INTERVAL_MS),
            exists|mid: SumeragiView| #[trigger]
                mid.topology_updated(final(self)@, wsv@) && old(self)@.started(
                    mid,
                    action_views(r.0@).drop_last(),
                    r.1,
                    latest_block_hash,
                    height,
                    genesis_view(genesis),
                    wsv@,
                    now,
                ),
    {
        let mut actions: Vec<Action> = Vec::new();
        let mut result: Result<(), Error> = Ok(());
        proof {
            assert(action_views(actions@) =~= Seq::<ActionView>::empty());
        }
        if height != 0 && latest_block_hash != crypto::Hash::zeroed() {
            self.init(latest_block_hash, height);
        } else {
            match genesis {
                Some(genesis) => {
                    match self.start_genesis_round(
                        genesis.transactions,
                        genesis.topology,
                        wsv,
                        now,
                    ) {
                        Ok(more) => {
                            actions = more;
                        },
                        Err(error) => {
                            result = Err(error);
                        },
                    }
                },
                None => {},
            }
        }
        let ghost mid = self@;
        let ghost first = action_views(actions@);
        assert(old(self)@.started(
            mid,
            first,
            result,
            latest_block_hash,
            height,
            genesis_view(genesis),
            wsv@,
            now,
        ));
        self.update_network_topology(wsv);
        actions.push(Action::TickEvery(TX_RETRIEVAL_INTERVAL_MS));
        proof {
            assert(action_views(actions@) =~= first.push(
                ActionView::TickEvery(TX_RETRIEVAL_INTERVAL_MS),
            ));
            assert(action_views(actions@).drop_last() =~= first);
            assert(mid.topology_updated(self@, wsv@));
        }
        (actions, result)
    }
}

/// The order in which the signatures of a proof are listed makes no
/// difference to what the suggestion of a view change does. Two proofs with
/// the same signed part and the same signatures in another order, handled
/// at the same time from the same state: this peer signs both or neither,
/// the proofs as they leave it have the same hash and the same signatures,
/// both have their quorum or neither has, and the two states that result
/// differ at most in the topology, which has the same number of view changes
/// and the same order of the peers. For a view change that reshuffles, the
/// order is the same provided that the order tells the peers apart.
pub proof fn lemma_view_change_order_independent(
    s: SumeragiView,
    first: ProofView,
    second: ProofView,
    now: u128,
    after_first: SumeragiView,
    actions_first: Seq<ActionView>,
    after_second: SumeragiView,
    actions_second: Seq<ActionView>,
)
    requires
        crate::signatures::distinct_keys(first.signatures),
        crate::signatures::distinct_keys(second.signatures),
        first.payload == second.payload,
        first.signatures.to_multiset() == second.signatures.to_multiset(),
        s.view_change_suggested(after_first, actions_first, first, now),
        s.view_change_suggested(after_second, actions_second, second, now),
    ensures
        s.votes_for(first, now) == s.votes_for(second, now),
        s.seconded(first, now).hash() == s.seconded(second, now).hash(),
        s.seconded(first, now).signatures.to_multiset() == s.seconded(
            second,
            now,
        ).signatures.to_multiset(),
        s.seconded(first, now).verified_by(s.topology.sorted_peers, s.topology.max_faults)
            == s.seconded(second, now).verified_by(s.topology.sorted_peers, s.topology.max_faults),
        actions_first.len() == actions_second.len(),
        after_first == (SumeragiView { topology: after_first.topology, ..after_second }),
        after_first.topology.view_change_proofs.len()
            == after_second.topology.view_change_proofs.len(),
        after_first.topology.at_block == after_second.topology.at_block,
        after_first.topology.max_faults == after_second.topology.max_faults,
        after_first.topology.reshuffle_after == after_second.topology.reshuffle_after,
        s.topology.view_change_proofs.len() + 1 <= s.topology.reshuffle_after
            || crate::network_topology::told_apart(
            s.topology.sorted_peers,
            crate::network_topology::reshuffle_seed(s.topology.at_block, first.hash()),
        ) ==> after_first.topology.sorted_peers == after_second.topology.sorted_peers,
{
    let key = s.key_pair.public_key;
    let one = s.seconded(first, now);
    let two = s.seconded(second, now);
    crate::signatures::lemma_has_key_rearranged(first.signatures, second.signatures, key);
    assert(first.hash() == second.hash());
    if s.votes_for(first, now) {
        let signature = Signature::of(s.key_pair, first.hash().0@);
        crate::signatures::lemma_with_signature(first.signatures, signature);
        crate::signatures::lemma_with_signature(second.signatures, signature);
        vstd::seq_lib::to_multiset_build(first.signatures, signature);
        vstd::seq_lib::to_multiset_build(second.signatures, signature);
    }
    crate::view_change::lemma_quorum_order_independent(
        one.signatures,
        two.signatures,
        one.hash().0@,
        s.topology.sorted_peers,
        s.topology.max_faults,
    );
    if first.has_same_state(s.latest_block_hash(), s.latest_view_change_hash())
        && one.verified_by(s.topology.sorted_peers, s.topology.max_faults) {
        let count = s.topology.view_change_proofs.len() as int + 1;
        if count > s.topology.reshuffle_after && crate::network_topology::told_apart(
            s.topology.sorted_peers,
            crate::network_topology::reshuffle_seed(s.topology.at_block, first.hash()),
        ) {
            crate::network_topology::lemma_arrangement_unique(
                after_first.topology.sorted_peers,
                after_second.topology.sorted_peers,
                s.topology.sorted_peers,
                crate::network_topology::reshuffle_seed(s.topology.at_block, first.hash()),
            );
        }
    }
}

} // verus!
