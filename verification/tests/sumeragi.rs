use iroha::block::{CommittedBlock, PendingBlock, ValidBlock};
use iroha::config::{SumeragiConfiguration, TrustedPeers};
use iroha::crypto::{KeyPair, PrivateKey, PublicKey};
use iroha::error::Error;
use iroha::message::{
    BlockCommitted, BlockCreated, BlockSigned, Message, TransactionForwarded, VersionedMessage,
    ViewChangeSuggested,
};
use iroha::network_topology::{Role, Topology};
use iroha::peer::PeerId;
use iroha::permissions::PermissionsValidatorBox;
use iroha::queue::{Queue, QueueConfiguration};
use iroha::sumeragi::{
    Action, EntityType, Event, GenesisRound, Status, Sumeragi, Timer, TX_RETRIEVAL_INTERVAL_MS,
};
use iroha::tx::{AcceptedTransaction, Transaction};
use iroha::view_change::{Proof, ProofChain, Reason, TransactionReceipt};
use iroha::wsv::{Account, AccountId, WorldStateView};

fn key_pair(seed: u8) -> KeyPair {
    let signing = ed25519_dalek::SigningKey::from_bytes(&[seed; 32]);
    KeyPair {
        public_key: PublicKey(signing.verifying_key().to_bytes()),
        private_key: PrivateKey([seed; 32]),
    }
}

fn peer(seed: u8) -> PeerId {
    PeerId::new(&format!("127.0.0.1:{}", 1300 + seed as u32), &key_pair(seed).public_key)
}

fn zero() -> iroha::crypto::Hash {
    iroha::crypto::Hash([0; 32])
}

fn alice_key() -> KeyPair {
    key_pair(100)
}

fn tx(created: u64) -> AcceptedTransaction {
    Transaction::new_at(vec![], AccountId::new("alice", "wonderland"), 100_000, created)
        .sign(&alice_key())
        .accept(4096)
        .unwrap()
}

fn world(n: u8) -> WorldStateView {
    let mut wsv = WorldStateView::new();
    wsv.accounts
        .push(Account::new(AccountId::new("alice", "wonderland"), alice_key().public_key));
    for seed in 1..=n {
        wsv.trusted_peers_ids.push(peer(seed));
    }
    wsv
}

fn configuration(seed: u8, n: u8, faults: u32) -> SumeragiConfiguration {
    let mut cfg = SumeragiConfiguration::default();
    cfg.key_pair = key_pair(seed);
    cfg.peer_id = peer(seed);
    cfg.trusted_peers((1..=n).map(peer).collect());
    cfg.max_faulty_peers(faults);
    cfg
}

struct Node {
    engine: Sumeragi,
    queue: Queue,
    wsv: WorldStateView,
    id: PeerId,
    stored: Vec<CommittedBlock>,
    timers: Vec<Timer>,
    events: Vec<Event>,
    /// A deaf node handles no message.
    deaf: bool,
}

struct Net {
    nodes: Vec<Node>,
    inbox: Vec<(usize, Message)>,
    sent: Vec<(usize, usize, Message)>,
}

impl Net {
    fn new(n: u8, faults: u32) -> Net {
        let nodes = (1..=n)
            .map(|seed| Node {
                engine: Sumeragi::from_configuration(&configuration(seed, n, faults), PermissionsValidatorBox::AllowAll).unwrap(),
                queue: Queue::from_configuration(&QueueConfiguration {
                    maximum_transactions_in_block: 10,
                    maximum_transactions_in_queue: 100,
                    transaction_time_to_live_ms: 100_000,
                }),
                wsv: world(n),
                id: peer(seed),
                stored: vec![],
                timers: vec![],
                events: vec![],
                deaf: false,
            })
            .collect();
        Net { nodes, inbox: vec![], sent: vec![] }
    }

    fn index_of(&self, id: &PeerId) -> usize {
        self.nodes.iter().position(|node| node.id == *id).unwrap()
    }

    /// The nodes in the order of the topology of node 0.
    fn by_role(&self) -> Vec<usize> {
        self.nodes[0].engine.sorted_peers().iter().map(|id| self.index_of(id)).collect()
    }

    fn perform(&mut self, from: usize, actions: Vec<Action>) {
        for action in actions {
            match action {
                Action::Send { peers, message } => {
                    for to in peers {
                        let to = self.index_of(&to);
                        self.sent.push((from, to, message.clone()));
                        self.inbox.push((to, message.clone()));
                    }
                }
                Action::Start(timer) => self.nodes[from].timers.push(timer),
                Action::Store(block) => {
                    self.nodes[from].wsv.apply(&block);
                    self.nodes[from].stored.push(block);
                }
                Action::Enqueue(transaction) => {
                    let _ = self.nodes[from].queue.push(transaction);
                }
                Action::Publish(event) => self.nodes[from].events.push(event),
                Action::TickEvery(_) => {}
            }
        }
    }

    fn deliver_all(&mut self, now: u128) {
        while !self.inbox.is_empty() {
            let (to, message) = self.inbox.remove(0);
            if self.nodes[to].deaf {
                continue;
            }
            let node = &mut self.nodes[to];
            let (actions, _) = message.handle(&mut node.engine, &node.wsv, now);
            self.perform(to, actions);
        }
    }

    fn tick(&mut self, at: usize, now: u128) -> Result<(), Error> {
        let node = &mut self.nodes[at];
        let (actions, result) = node.engine.on_tick(&mut node.queue, &node.wsv, now);
        self.perform(at, actions);
        result
    }

    fn fire_timers(&mut self, at: usize) {
        let timers: Vec<Timer> = self.nodes[at].timers.drain(..).collect();
        for timer in timers {
            let actions = self.nodes[at].engine.on_timer(&timer);
            self.perform(at, actions);
        }
    }
}

#[test]
fn an_engine_starts_with_the_topology_of_its_trusted_peers() {
    let engine = Sumeragi::from_configuration(&configuration(1, 4, 1), PermissionsValidatorBox::AllowAll).unwrap();
    assert_eq!(engine.peers().len(), 4);
    assert_eq!(engine.latest_block_hash(), zero());
    assert_eq!(engine.latest_view_change_hash(), zero());
    assert_eq!(engine.number_of_view_changes(), 0);
    assert_eq!(engine.view_change_proofs().len(), 0);
    assert_eq!(engine.block_height(), 0);
    assert!(!engine.voting_in_progress());
    assert!(engine.voting_block().is_none());
    assert_eq!(engine.get_leader(), engine.sorted_peers()[0]);
    assert_eq!(engine.is_leader(), engine.get_leader() == peer(1));
    assert!(engine.invalidated_blocks_hashes.is_empty());
    assert_eq!(
        Sumeragi::from_configuration(&configuration(1, 3, 1), PermissionsValidatorBox::AllowAll).err(),
        Some(Error::TooFewPeers)
    );
    assert_eq!(TX_RETRIEVAL_INTERVAL_MS, 100);
}

#[test]
fn the_default_configuration_has_the_documented_values() {
    let mut cfg = SumeragiConfiguration::default();
    assert_eq!(cfg.block_time_ms, 1000);
    assert_eq!(cfg.commit_time_ms, 1000);
    assert_eq!(cfg.tx_receipt_time_ms, 200);
    assert_eq!(cfg.max_faulty_peers, 0);
    assert_eq!(cfg.n_topology_shifts_before_reshuffle, 1);
    assert_eq!(cfg.max_instruction_number, 4096);
    assert!(cfg.trusted_peers.peers.is_empty());
    assert_eq!(cfg.peer_id.address, "");
    assert_eq!(cfg.pipeline_time_ms(), 2200);
    cfg.max_faulty_peers(3);
    cfg.trusted_peers(vec![peer(1)]);
    assert_eq!(cfg.max_faulty_peers, 3);
    assert_eq!(cfg.trusted_peers.peers, vec![peer(1)]);
    assert_eq!(iroha::config::default_peer_id().address, "");
    assert_eq!(iroha::config::default_peer_id().public_key, PublicKey([0; 32]));
    assert!(iroha::config::default_empty_trusted_peers().peers.is_empty());
    let trusted = TrustedPeers { peers: vec![peer(2)] };
    assert_eq!(trusted.peers.len(), 1);
}

#[test]
fn single_peer_fast_path() {
    let mut net = Net::new(1, 0);
    let t1 = tx(1);
    net.nodes[0].queue.push(t1.clone()).unwrap();
    assert_eq!(net.tick(0, 50), Ok(()));
    assert!(net.sent.is_empty());
    assert_eq!(net.nodes[0].stored.len(), 1);
    let block = &net.nodes[0].stored[0];
    assert_eq!(block.header.height, 0);
    assert_eq!(block.header.previous_block_hash, None);
    assert_eq!(block.header.timestamp, 50);
    assert_eq!(block.transactions.len(), 1);
    assert_eq!(block.transactions[0].hash(), t1.hash());
    assert_eq!(net.nodes[0].engine.latest_block_hash(), block.hash());
    assert_eq!(net.nodes[0].queue.len(), 0);
    assert!(!net.nodes[0].engine.voting_in_progress());
    assert!(net.nodes[0].timers.is_empty());
    let events = &net.nodes[0].events;
    assert_eq!(events.len(), 4);
    assert_eq!(events[0].entity_type, EntityType::Transaction);
    assert_eq!(events[0].status, Status::Created);
    assert_eq!(events[0].hash, t1.hash());
    assert_eq!(events[1].entity_type, EntityType::Block);
    assert_eq!(events[1].status, Status::Created);
    assert_eq!(events[3].status, Status::Committed);
    assert_eq!(events[3].hash, block.hash());
    assert!(net.nodes[0].wsv.has_transaction(&t1.hash()));

    // The next block follows the first, at the block height of the engine.
    let t2 = tx(2);
    net.nodes[0].queue.push(t2).unwrap();
    let first = net.nodes[0].engine.latest_block_hash();
    assert_eq!(net.nodes[0].engine.block_height(), 0);
    assert_eq!(net.tick(0, 150), Ok(()));
    let block = &net.nodes[0].stored[1];
    assert_eq!(block.header.height, 0);
    assert_eq!(block.header.previous_block_hash, Some(first));
    assert_eq!(net.nodes[0].engine.block_height(), 0);
    assert_eq!(net.nodes[0].engine.latest_block_hash(), block.hash());
}

#[test]
fn a_round_without_transactions_does_nothing() {
    let mut net = Net::new(1, 0);
    assert_eq!(net.tick(0, 50), Ok(()));
    assert!(net.nodes[0].stored.is_empty());
    assert!(net.nodes[0].events.is_empty());
    let (actions, result) = net.nodes[0].engine.round(vec![], &world(1), 60);
    assert!(actions.is_empty());
    assert_eq!(result, Ok(()));
}

#[test]
fn a_round_fails_when_no_transaction_is_valid() {
    let mut net = Net::new(1, 0);
    let stranger = Transaction::new_at(vec![], AccountId::new("bob", "wonderland"), 100_000, 1)
        .sign(&key_pair(7))
        .accept(4096)
        .unwrap();
    let wsv = world(1);
    let (actions, result) = net.nodes[0].engine.round(vec![stranger], &wsv, 60);
    assert_eq!(result, Err(Error::NoValidTransactions));
    assert!(actions.iter().all(|a| matches!(a, Action::Send { .. })));
    assert_eq!(net.nodes[0].engine.latest_block_hash(), zero());
}

#[test]
fn four_peer_happy_commit() {
    let mut net = Net::new(4, 1);
    let genesis_hash = iroha::crypto::Hash([42; 32]);
    for node in &mut net.nodes {
        node.engine.init(genesis_hash, 1);
    }
    let order = net.by_role();
    let (leader, tail) = (order[0], order[3]);
    for i in 0..4 {
        assert_eq!(net.nodes[i].engine.sorted_peers(), net.nodes[0].engine.sorted_peers());
    }
    assert!(net.nodes[leader].engine.is_leader());
    let txs = vec![tx(1), tx(2), tx(3)];
    for t in &txs {
        net.nodes[leader].queue.push(t.clone()).unwrap();
    }
    assert_eq!(net.tick(leader, 1000), Ok(()));
    assert!(net.nodes[leader].engine.voting_in_progress());
    // The leader gossips each transaction to the three others and sends them the block.
    let created: Vec<_> = net
        .sent
        .iter()
        .filter(|(_, _, m)| matches!(m, Message::BlockCreated(_)))
        .collect();
    assert_eq!(created.len(), 3);
    let gossip = net
        .sent
        .iter()
        .filter(|(_, _, m)| matches!(m, Message::TransactionForwarded(_)))
        .count();
    assert_eq!(gossip, 9);
    net.deliver_all(1010);

    for node in &net.nodes {
        assert_eq!(node.engine.block_height(), 1);
        assert_eq!(node.stored.len(), 1);
        assert_eq!(node.engine.latest_block_hash(), net.nodes[0].engine.latest_block_hash());
        assert!(!node.engine.voting_in_progress());
        assert_eq!(node.engine.number_of_view_changes(), 0);
    }
    let block = &net.nodes[leader].stored[0];
    assert_eq!(block.header.height, 1);
    assert_eq!(block.header.previous_block_hash, Some(genesis_hash));
    assert_eq!(block.transactions.len(), 3);
    assert!(block.signatures.len() >= 3);
    assert_eq!(net.nodes[0].engine.latest_block_hash(), block.hash());
    // The proxy tail declared the commit.
    let committed: Vec<_> = net
        .sent
        .iter()
        .filter(|(_, _, m)| matches!(m, Message::BlockCommitted(_)))
        .collect();
    assert_eq!(committed.len(), 3);
    assert!(committed.iter().all(|(from, _, _)| *from == tail));
    let signed: Vec<_> = net
        .sent
        .iter()
        .filter(|(_, _, m)| matches!(m, Message::BlockSigned(_)))
        .collect();
    assert_eq!(signed.len(), 2);
    assert!(signed.iter().all(|(_, to, _)| *to == tail));
    // The peers are sorted anew by the hash of the block.
    let again = Topology::new(
        &net.nodes[0].wsv.trusted_peers_ids().to_vec(),
        1,
        block.hash(),
        1,
    )
    .unwrap();
    assert_eq!(net.nodes[0].engine.sorted_peers(), again.sorted_peers().to_vec());
}

#[test]
fn a_commit_that_does_not_follow_the_latest_block_is_refused() {
    let mut net = Net::new(4, 1);
    let order = net.by_role();
    let keys: Vec<KeyPair> = order.iter().map(|i| key_pair(*i as u8 + 1)).collect();
    let wsv = world(4);
    let build = |previous: Option<iroha::crypto::Hash>| -> ValidBlock {
        let pending = PendingBlock::new_at(vec![tx(1)], 10);
        let chained = match previous {
            Some(h) => pending.chain(1, h, ProofChain::empty(), vec![]),
            None => pending.chain_first(),
        };
        let mut block = chained.validate(&wsv, &PermissionsValidatorBox::AllowAll).unwrap();
        for key in &keys {
            block = block.sign(key);
        }
        block
    };
    let observer = order[1];
    let stray = BlockCommitted::from(build(Some(iroha::crypto::Hash([9; 32]))));
    let actions = stray.handle(&mut net.nodes[observer].engine);
    assert!(actions.is_empty());
    assert_eq!(net.nodes[observer].engine.latest_block_hash(), zero());
    assert_eq!(net.nodes[observer].engine.block_height(), 0);

    let fitting = BlockCommitted::from(build(None));
    let hash = fitting.block.hash();
    let actions = fitting.handle(&mut net.nodes[observer].engine);
    assert!(matches!(actions.last(), Some(Action::Store(_))));
    assert_eq!(net.nodes[observer].engine.latest_block_hash(), hash);

    // The same block again no longer follows the latest block.
    let again = BlockCommitted::from(build(None));
    assert!(again.handle(&mut net.nodes[observer].engine).is_empty());
    assert_eq!(net.nodes[observer].engine.latest_block_hash(), hash);
}

#[test]
fn a_commit_needs_its_votes_and_the_proxy_tail() {
    let mut net = Net::new(4, 1);
    let order = net.by_role();
    let wsv = world(4);
    let signed_by = |signers: &[usize]| -> BlockCommitted {
        let mut block = PendingBlock::new_at(vec![tx(1)], 10)
            .chain_first()
            .validate(&wsv, &PermissionsValidatorBox::AllowAll)
            .unwrap();
        for i in signers {
            block = block.sign(&key_pair(order[*i] as u8 + 1));
        }
        BlockCommitted::from(block)
    };
    let at = order[1];
    // Two votes are too few.
    assert!(signed_by(&[0, 3]).handle(&mut net.nodes[at].engine).is_empty());
    // Three votes without the proxy tail do not count.
    assert!(signed_by(&[0, 1, 2]).handle(&mut net.nodes[at].engine).is_empty());
    // A signature from outside the topology does not count.
    let mut padded = signed_by(&[0, 3]);
    padded.block = padded.block.sign(&key_pair(77));
    assert!(padded.handle(&mut net.nodes[at].engine).is_empty());
    assert_eq!(net.nodes[at].engine.latest_block_hash(), zero());
    // Leader, one validating peer and the proxy tail are enough.
    let good = signed_by(&[0, 1, 3]);
    let hash = good.block.hash();
    assert!(!good.handle(&mut net.nodes[at].engine).is_empty());
    assert_eq!(net.nodes[at].engine.latest_block_hash(), hash);
}

#[test]
fn tx_receipt_timeout_triggers_view_change() {
    let mut net = Net::new(4, 1);
    let order = net.by_role();
    let (leader, submitter) = (order[0], order[1]);
    net.nodes[leader].deaf = true;
    let t1 = tx(1);
    net.nodes[submitter].queue.push(t1.clone()).unwrap();
    assert_eq!(net.tick(submitter, 1000), Ok(()));
    // Gossip to the two others, and the transaction itself to the leader.
    assert_eq!(net.sent.len(), 3);
    assert_eq!(net.sent.iter().filter(|(_, to, _)| *to == leader).count(), 1);
    assert_eq!(net.nodes[submitter].timers.len(), 1);
    net.deliver_all(1010);
    // The others have the transaction now and forward it as well.
    for i in [order[2], order[3]] {
        assert_eq!(net.nodes[i].queue.len(), 1);
        assert_eq!(net.tick(i, 1020), Ok(()));
        assert_eq!(net.nodes[i].timers.len(), 1);
    }
    net.deliver_all(1030);
    // A second forward of the same transaction is held back.
    net.nodes[submitter].queue.push(t1.clone()).unwrap();
    let before = net.sent.iter().filter(|(from, to, _)| *from == submitter && *to == leader).count();
    assert_eq!(net.tick(submitter, 1040), Ok(()));
    let after = net.sent.iter().filter(|(from, to, _)| *from == submitter && *to == leader).count();
    assert_eq!(before, after);
    net.deliver_all(1050);

    let old_peers = net.nodes[submitter].engine.sorted_peers();
    // 200 ms later the submitter suspects the leader.
    net.fire_timers(submitter);
    let suggestions: Vec<_> = net
        .inbox
        .iter()
        .filter(|(_, m)| matches!(m, Message::ViewChangeSuggested(_)))
        .collect();
    assert_eq!(suggestions.len(), 3);
    match &suggestions[0].1 {
        Message::ViewChangeSuggested(s) => {
            assert_eq!(s.proof.signatures().len(), 1);
            assert!(matches!(
                s.proof.reason(),
                Reason::NoTransactionReceiptReceived(r) if r.transaction_hash == t1.hash()
            ));
        }
        _ => unreachable!(),
    }
    net.deliver_all(1250);
    for i in [order[1], order[2], order[3]] {
        let engine = &net.nodes[i].engine;
        assert_eq!(engine.number_of_view_changes(), 1);
        let mut rotated = old_peers.clone();
        rotated.rotate_left(1);
        assert_eq!(engine.sorted_peers(), rotated);
        assert_eq!(engine.get_leader(), old_peers[1]);
        assert!(engine.invalidated_blocks_hashes.is_empty());
        assert_ne!(engine.latest_view_change_hash(), zero());
        assert!(engine.view_change_proofs().get(0).verify(&old_peers, 1));
    }
    assert_eq!(net.nodes[leader].engine.number_of_view_changes(), 0);
    assert!(net.nodes[submitter].engine.is_leader());
    // Timers that run out after the view change ask for nothing.
    net.fire_timers(order[2]);
    assert!(net.inbox.is_empty());
}

#[test]
fn a_suggestion_too_early_or_from_another_state_finds_no_second() {
    let mut net = Net::new(4, 1);
    let order = net.by_role();
    let (submitter, other) = (order[1], order[2]);
    net.nodes[order[0]].deaf = true;
    net.nodes[submitter].queue.push(tx(1)).unwrap();
    net.tick(submitter, 1000).unwrap();
    net.deliver_all(1010);
    net.tick(other, 1020).unwrap();
    net.deliver_all(1030);
    let timer = net.nodes[submitter].timers.remove(0);
    let proof = match timer {
        Timer::Receipt { proof, after_ms, .. } => {
            assert_eq!(after_ms, 200);
            proof
        }
        _ => panic!("a receipt timer was expected"),
    };
    // At 1219 the other peer has waited for 199 ms only.
    let early = ViewChangeSuggested::from(proof.clone());
    let actions = early.handle(&mut net.nodes[other].engine, 1219);
    assert!(actions.is_empty());
    assert_eq!(net.nodes[other].engine.number_of_view_changes(), 0);
    // A proof made on top of another block is not looked at.
    let elsewhere = ViewChangeSuggested::from(
        Proof::new(proof.reason(), zero(), iroha::crypto::Hash([1; 32]))
            .sign(&key_pair(submitter as u8 + 1))
            .sign(&key_pair(order[3] as u8 + 1)),
    );
    assert!(elsewhere.handle(&mut net.nodes[other].engine, 1300).is_empty());
    assert_eq!(net.nodes[other].engine.number_of_view_changes(), 0);
    // At 1220 it seconds the proof, which then has its quorum.
    let due = ViewChangeSuggested::from(proof);
    let actions = due.handle(&mut net.nodes[other].engine, 1220);
    assert_eq!(actions.len(), 1);
    assert_eq!(net.nodes[other].engine.number_of_view_changes(), 1);
}

#[test]
fn block_creation_timeout() {
    let mut net = Net::new(4, 1);
    let order = net.by_role();
    let (leader, submitter) = (order[0], order[1]);
    let t1 = tx(1);
    net.nodes[submitter].queue.push(t1.clone()).unwrap();
    net.tick(submitter, 1000).unwrap();
    net.deliver_all(1010);
    for i in [order[2], order[3]] {
        net.tick(i, 1020).unwrap();
    }
    net.deliver_all(1030);
    // The leader has acknowledged the transaction to all three and never ticks.
    let receipts = net
        .sent
        .iter()
        .filter(|(from, _, m)| *from == leader && matches!(m, Message::TransactionReceived(_)))
        .count();
    assert_eq!(receipts, 3);
    assert!(net.nodes[leader].queue.len() >= 1);
    for i in [order[1], order[2], order[3]] {
        let timers = &net.nodes[i].timers;
        assert_eq!(timers.len(), 2);
        assert!(matches!(timers[1], Timer::BlockCreation { after_ms: 1000, .. }));
    }
    // The receipt timers find the receipts in place.
    let old_peers = net.nodes[submitter].engine.sorted_peers();
    for i in [order[1], order[2], order[3]] {
        let timer = net.nodes[i].timers.remove(0);
        assert!(net.nodes[i].engine.on_timer(&timer).is_empty());
    }
    // One second after the receipts the peers suspect the leader.
    net.fire_timers(submitter);
    assert_eq!(net.inbox.len(), 4);
    net.deliver_all(2010 + 30);
    for i in [order[1], order[2], order[3]] {
        let engine = &net.nodes[i].engine;
        assert_eq!(engine.number_of_view_changes(), 1);
        assert!(engine.invalidated_blocks_hashes.is_empty());
        assert_eq!(engine.get_leader(), old_peers[1]);
        assert!(matches!(
            engine.view_change_proofs().get(0).reason(),
            Reason::BlockCreationTimeout(r) if r.transaction_receipt.transaction_hash == t1.hash()
        ));
    }
}

#[test]
fn a_receipt_counts_only_if_it_is_awaited_signed_by_the_leader_and_not_from_the_future() {
    let mut net = Net::new(4, 1);
    let order = net.by_role();
    let (leader, submitter) = (order[0], order[1]);
    let t1 = tx(1);
    let leader_key = key_pair(leader as u8 + 1);
    let receipt = TransactionReceipt::new_at(&t1, &leader_key, 1005);
    // Nothing is awaited yet.
    assert!(receipt.handle(&mut net.nodes[submitter].engine, 1010).is_empty());
    net.nodes[leader].deaf = true;
    net.nodes[submitter].queue.push(t1.clone()).unwrap();
    net.tick(submitter, 1000).unwrap();
    // From the future.
    assert!(receipt.handle(&mut net.nodes[submitter].engine, 1004).is_empty());
    // Signed by another peer than the leader.
    let forged = TransactionReceipt::new_at(&t1, &key_pair(order[2] as u8 + 1), 1005);
    assert!(forged.handle(&mut net.nodes[submitter].engine, 1010).is_empty());
    // For another transaction.
    let other = TransactionReceipt::new_at(&tx(2), &leader_key, 1005);
    assert!(other.handle(&mut net.nodes[submitter].engine, 1010).is_empty());
    // The leader itself does not wait for receipts.
    assert!(receipt.handle(&mut net.nodes[leader].engine, 1010).is_empty());
    let actions = receipt.handle(&mut net.nodes[submitter].engine, 1010);
    assert_eq!(actions.len(), 1);
    assert!(matches!(&actions[0], Action::Start(Timer::BlockCreation { .. })));
    // It counts once.
    assert!(receipt.handle(&mut net.nodes[submitter].engine, 1011).is_empty());
    let now_receipt = TransactionReceipt::new(&t1, &leader_key);
    assert!(now_receipt.received_at > 1_600_000_000_000);
    assert!(!now_receipt.is_block_should_be_created(1_000_000));
}

#[test]
fn commit_timeout_with_invalidation() {
    let mut net = Net::new(4, 1);
    let order = net.by_role();
    let (leader, tail) = (order[0], order[3]);
    let t1 = tx(1);
    net.nodes[leader].queue.push(t1.clone()).unwrap();
    net.tick(leader, 1000).unwrap();
    // The proxy tail gets the block and then goes deaf: no commit is declared.
    let to_tail: Vec<(usize, Message)> = net
        .inbox
        .iter()
        .filter(|(to, _)| *to == tail)
        .map(|(to, message)| (*to, message.clone()))
        .collect();
    for (to, message) in to_tail {
        let node = &mut net.nodes[to];
        let (actions, _) = message.handle(&mut node.engine, &node.wsv, 1005);
        net.perform(to, actions);
    }
    net.inbox.retain(|(to, _)| *to != tail);
    net.nodes[tail].deaf = true;
    net.deliver_all(1010);
    let voting = net.nodes[leader].engine.voting_block().unwrap();
    assert_eq!(voting.voted_at, 1000);
    let voting_hash = voting.block.hash();
    for i in 0..4 {
        assert!(net.nodes[i].engine.voting_in_progress());
        assert_eq!(net.nodes[i].engine.voting_block().unwrap().block.hash(), voting_hash);
        assert!(net.nodes[i].stored.is_empty());
    }
    // While a block is voted on, no new round starts and no second block is taken up.
    net.nodes[leader].queue.push(tx(2)).unwrap();
    net.tick(leader, 1100).unwrap();
    assert_eq!(net.nodes[leader].queue.len(), 1);
    assert!(net.inbox.is_empty());

    let old_peers = net.nodes[leader].engine.sorted_peers();
    for i in [order[0], order[1], order[2]] {
        net.fire_timers(i);
    }
    net.nodes[tail].deaf = false;
    net.fire_timers(tail);
    net.deliver_all(2010);
    for i in 0..4 {
        let engine = &net.nodes[i].engine;
        assert_eq!(engine.number_of_view_changes(), 1, "node {}", i);
        assert_eq!(engine.invalidated_blocks_hashes, vec![voting_hash]);
        assert!(!engine.voting_in_progress());
        assert_eq!(engine.get_leader(), old_peers[1]);
        assert_eq!(engine.latest_block_hash(), zero());
    }
    // The new leader builds the next block with the invalidated hash in its header.
    let new_leader = order[1];
    assert!(net.nodes[new_leader].engine.is_leader());
    assert!(net.nodes[new_leader].queue.len() >= 1);
    net.tick(new_leader, 2100).unwrap();
    let created = net
        .inbox
        .iter()
        .find_map(|(_, m)| match m {
            Message::BlockCreated(created) => Some(created.block.clone()),
            _ => None,
        })
        .unwrap();
    assert_eq!(created.header.invalidated_blocks_hashes, vec![voting_hash]);
    assert_eq!(created.header.view_change_proofs.len(), 1);
    assert_eq!(created.header.height, 0);
    assert_eq!(created.header.previous_block_hash, None);
    net.deliver_all(2110);
    for i in 0..4 {
        let engine = &net.nodes[i].engine;
        assert_eq!(engine.latest_block_hash(), created.hash(), "node {}", i);
        assert!(engine.invalidated_blocks_hashes.is_empty());
        assert_eq!(engine.number_of_view_changes(), 0);
        assert_eq!(net.nodes[i].stored.len(), 1);
    }
}

#[test]
fn a_block_that_the_leader_did_not_sign_is_not_taken_up() {
    let mut net = Net::new(4, 1);
    let order = net.by_role();
    let wsv = world(4);
    let block = PendingBlock::new_at(vec![tx(1)], 10)
        .chain_first()
        .validate(&wsv, &PermissionsValidatorBox::AllowAll)
        .unwrap()
        .sign(&key_pair(order[2] as u8 + 1));
    let message = BlockCreated::from(block);
    let at = order[1];
    let (actions, result) = message.handle(&mut net.nodes[at].engine, &wsv, 20);
    assert_eq!(result, Ok(()));
    assert!(actions.iter().all(|a| matches!(a, Action::Publish(_))));
    assert_eq!(actions.len(), 2);
    assert!(!net.nodes[at].engine.voting_in_progress());
}

#[test]
fn a_validating_peer_signs_what_it_approves_of() {
    let mut net = Net::new(4, 1);
    let order = net.by_role();
    let wsv = world(4);
    let leader_key = key_pair(order[0] as u8 + 1);
    let at = order[1];
    // A block of the wrong height is taken up for the vote but not signed.
    let wrong = PendingBlock::new_at(vec![tx(1)], 10)
        .chain(5, zero(), ProofChain::empty(), vec![])
        .validate(&wsv, &PermissionsValidatorBox::AllowAll)
        .unwrap()
        .sign(&leader_key);
    let (actions, result) = BlockCreated::from(wrong).handle(&mut net.nodes[at].engine, &wsv, 20);
    assert_eq!(result, Ok(()));
    assert!(!actions.iter().any(|a| matches!(a, Action::Send { .. })));
    assert!(matches!(actions.last(), Some(Action::Start(Timer::Commit { after_ms: 1000, .. }))));
    assert!(net.nodes[at].engine.voting_in_progress());

    // A block that is as expected is signed and sent to the proxy tail.
    let at = order[2];
    let right = PendingBlock::new_at(vec![tx(1)], 10)
        .chain_first()
        .validate(&wsv, &PermissionsValidatorBox::AllowAll)
        .unwrap()
        .sign(&leader_key);
    let hash = right.hash();
    let (actions, result) = BlockCreated::from(right).handle(&mut net.nodes[at].engine, &wsv, 20);
    assert_eq!(result, Ok(()));
    let sends: Vec<_> = actions
        .iter()
        .filter_map(|a| match a {
            Action::Send { peers, message: Message::BlockSigned(signed) } => {
                Some((peers.clone(), signed.block.clone()))
            }
            _ => None,
        })
        .collect();
    assert_eq!(sends.len(), 1);
    assert_eq!(sends[0].0, vec![net.nodes[order[3]].id.clone()]);
    assert_eq!(sends[0].1.hash(), hash);
    assert_eq!(sends[0].1.verified_signatures().len(), 2);
    assert_eq!(net.nodes[at].engine.voting_block().unwrap().voted_at, 20);

    // A validating peer to whom nothing of the block is valid fails.
    let at = order[1];
    let mut fresh = Net::new(4, 1);
    let mut poor = WorldStateView::new();
    for seed in 1..=4 {
        poor.trusted_peers_ids.push(peer(seed));
    }
    let block = PendingBlock::new_at(vec![tx(1)], 10)
        .chain_first()
        .validate(&wsv, &PermissionsValidatorBox::AllowAll)
        .unwrap()
        .sign(&leader_key);
    let (_, result) = BlockCreated::from(block).handle(&mut fresh.nodes[at].engine, &poor, 20);
    assert_eq!(result, Err(Error::NoValidTransactions));
    assert!(!fresh.nodes[at].engine.voting_in_progress());
}

#[test]
fn the_proxy_tail_counts_votes_until_there_are_enough() {
    let mut net = Net::new(7, 2);
    let order = net.by_role();
    let wsv = world(7);
    let tail = order[5];
    let block = PendingBlock::new_at(vec![tx(1)], 10).chain_first().validate(&wsv, &PermissionsValidatorBox::AllowAll).unwrap();
    let vote = |signers: &[usize]| {
        let mut block = block.clone();
        for i in signers {
            block = block.sign(&key_pair(order[*i] as u8 + 1));
        }
        BlockSigned::from(block)
    };
    // Another peer than the proxy tail does not count votes.
    assert!(vote(&[0, 1, 2, 3]).handle(&mut net.nodes[order[1]].engine).is_empty());
    assert_eq!(net.nodes[order[1]].engine.latest_block_hash(), zero());

    assert!(vote(&[0, 1]).handle(&mut net.nodes[tail].engine).is_empty());
    assert!(vote(&[0, 2]).handle(&mut net.nodes[tail].engine).is_empty());
    // An observing peer and a stranger do not count.
    let mut foreign = vote(&[6]);
    foreign.block = foreign.block.sign(&key_pair(99));
    assert!(foreign.handle(&mut net.nodes[tail].engine).is_empty());
    assert_eq!(net.nodes[tail].engine.latest_block_hash(), zero());
    // The fourth vote is the last one needed.
    let actions = vote(&[3]).handle(&mut net.nodes[tail].engine);
    assert_eq!(net.nodes[tail].engine.latest_block_hash(), block.hash());
    match &actions[0] {
        Action::Send { peers, message: Message::BlockCommitted(committed) } => {
            let mut expected: Vec<PeerId> =
                (1..=4).map(|i| net.nodes[order[i]].id.clone()).collect();
            expected.push(net.nodes[order[0]].id.clone());
            expected.push(net.nodes[order[6]].id.clone());
            assert_eq!(peers, &expected);
            assert_eq!(committed.block.signatures.len(), 5);
            assert_eq!(committed.block.verified_signatures().len(), 5);
        }
        _ => panic!("the commit was to be sent first"),
    }
    assert!(matches!(actions.last(), Some(Action::Store(_))));
}

#[test]
fn the_leader_acknowledges_what_is_forwarded_and_everyone_queues_it() {
    let net = Net::new(4, 1);
    let order = net.by_role();
    let t1 = tx(1);
    let forwarded = TransactionForwarded::new(&t1, &net.nodes[order[2]].id);
    let actions = forwarded.handle(&net.nodes[order[0]].engine, 77);
    assert_eq!(actions.len(), 2);
    match &actions[0] {
        Action::Send { peers, message: Message::TransactionReceived(receipt) } => {
            assert_eq!(peers, &vec![net.nodes[order[2]].id.clone()]);
            assert_eq!(receipt.transaction_hash, t1.hash());
            assert_eq!(receipt.received_at, 77);
            assert!(receipt.is_valid(&net.nodes[order[1]].engine.topology));
        }
        _ => panic!("a receipt was expected"),
    }
    assert!(matches!(&actions[1], Action::Enqueue(queued) if queued.hash() == t1.hash()));
    let actions = forwarded.handle(&net.nodes[order[1]].engine, 77);
    assert_eq!(actions.len(), 1);
    assert!(matches!(&actions[0], Action::Enqueue(_)));
}

#[test]
fn view_changes_of_a_block_are_taken_over_if_they_hold() {
    let mut net = Net::new(4, 1);
    let order = net.by_role();
    let wsv = world(4);
    let old_peers = net.nodes[0].engine.sorted_peers();
    let proof = Proof::commit_timeout(iroha::crypto::Hash([9; 32]), zero(), zero())
        .sign(&key_pair(order[1] as u8 + 1))
        .sign(&key_pair(order[2] as u8 + 1));
    let mut chain = ProofChain::empty();
    chain.push(proof);
    // After the view change the peer at position 1 leads.
    let new_leader_key = key_pair(order[1] as u8 + 1);
    let block = PendingBlock::new_at(vec![tx(1)], 10)
        .chain(0, zero(), chain, vec![])
        .validate(&wsv, &PermissionsValidatorBox::AllowAll)
        .unwrap()
        .sign(&new_leader_key);
    let at = order[3];
    let (_, result) = BlockCreated::from(block).handle(&mut net.nodes[at].engine, &wsv, 20);
    assert_eq!(result, Ok(()));
    assert_eq!(net.nodes[at].engine.number_of_view_changes(), 1);
    assert_eq!(net.nodes[at].engine.get_leader(), old_peers[1]);
    assert!(net.nodes[at].engine.voting_in_progress());

    // View changes without a quorum are not taken over.
    let weak = Proof::commit_timeout(iroha::crypto::Hash([9; 32]), zero(), zero())
        .sign(&key_pair(order[1] as u8 + 1));
    let mut chain = ProofChain::empty();
    chain.push(weak);
    let block = PendingBlock::new_at(vec![tx(1)], 10)
        .chain(0, zero(), chain, vec![])
        .validate(&wsv, &PermissionsValidatorBox::AllowAll)
        .unwrap()
        .sign(&new_leader_key);
    let at = order[2];
    let created = BlockCreated::from(block);
    created.update_view_changes(&mut net.nodes[at].engine);
    assert_eq!(net.nodes[at].engine.number_of_view_changes(), 0);
    let (_, result) = created.handle(&mut net.nodes[at].engine, &wsv, 20);
    assert_eq!(result, Ok(()));
    assert!(!net.nodes[at].engine.voting_in_progress());
}

#[test]
fn the_engine_takes_the_trusted_peers_of_the_world_state() {
    let mut engine = Sumeragi::from_configuration(&configuration(1, 4, 1), PermissionsValidatorBox::AllowAll).unwrap();
    let before = engine.sorted_peers();
    engine.update_network_topology(&world(4));
    assert_eq!(engine.sorted_peers(), before);
    engine.update_network_topology(&world(5));
    assert_eq!(engine.sorted_peers().len(), 5);
    engine.update_network_topology(&world(3));
    assert_eq!(engine.sorted_peers().len(), 5);
}

#[test]
fn a_genesis_round_needs_transactions_the_lead_and_an_empty_chain() {
    let topology = |leader: u8| {
        let mut found = None;
        for seed_byte in 0..=255u8 {
            let t = Topology::new(
                &(1..=4).map(peer).collect::<Vec<_>>(),
                1,
                iroha::crypto::Hash([seed_byte; 32]),
                1,
            )
            .unwrap();
            if *t.leader() == peer(leader) {
                found = Some(t);
                break;
            }
        }
        found.unwrap()
    };
    let wsv = world(4);
    let mut engine = Sumeragi::from_configuration(&configuration(1, 4, 1), PermissionsValidatorBox::AllowAll).unwrap();
    assert_eq!(
        engine.start_genesis_round(vec![], topology(1), &wsv, 10).err(),
        Some(Error::EmptyGenesis)
    );
    assert_eq!(
        engine.start_genesis_round(vec![tx(1)], topology(2), &wsv, 10).err(),
        Some(Error::NotLeader)
    );
    let actions = engine.start_genesis_round(vec![tx(1)], topology(1), &wsv, 10).unwrap();
    let sends: Vec<_> = actions
        .iter()
        .filter_map(|a| match a {
            Action::Send { peers, message: Message::BlockCreated(created) } => {
                Some((peers.len(), created.block.header.genesis_topology.is_some()))
            }
            _ => None,
        })
        .collect();
    assert_eq!(sends, vec![(3, true)]);
    assert!(engine.voting_in_progress());

    let mut later = Sumeragi::from_configuration(&configuration(1, 4, 1), PermissionsValidatorBox::AllowAll).unwrap();
    later.init(iroha::crypto::Hash([5; 32]), 3);
    assert_eq!(later.block_height(), 3);
    assert_eq!(
        later.start_genesis_round(vec![tx(1)], topology(1), &wsv, 10).err(),
        Some(Error::NotGenesisHeight)
    );
}

#[test]
fn the_leader_chains_its_block_at_the_block_height() {
    let mut net = Net::new(4, 1);
    let latest = iroha::crypto::Hash([42; 32]);
    for node in &mut net.nodes {
        node.engine.init(latest, 7);
    }
    let leader = net.by_role()[0];
    net.nodes[leader].engine.invalidated_blocks_hashes.push(iroha::crypto::Hash([8; 32]));
    net.nodes[leader].queue.push(tx(1)).unwrap();
    net.tick(leader, 1000).unwrap();
    let created = net
        .inbox
        .iter()
        .find_map(|(_, m)| match m {
            Message::BlockCreated(created) => Some(created.block.clone()),
            _ => None,
        })
        .unwrap();
    assert_eq!(created.header.height, 7);
    assert_eq!(created.header.previous_block_hash, Some(latest));
    assert_eq!(created.header.invalidated_blocks_hashes, vec![iroha::crypto::Hash([8; 32])]);
    assert_eq!(created.header.view_change_proofs.len(), 0);
    assert_eq!(created.header.timestamp, 1000);
    assert_eq!(net.nodes[leader].engine.block_height(), 7);
}

#[test]
fn a_validating_peer_checks_the_height_against_its_block_height() {
    let wsv = world(4);
    let latest = iroha::crypto::Hash([42; 32]);
    let at_height = |height: u64| -> (Vec<Action>, bool) {
        let mut net = Net::new(4, 1);
        for node in &mut net.nodes {
            node.engine.init(latest, 7);
        }
        let order = net.by_role();
        let block = PendingBlock::new_at(vec![tx(1)], 10)
            .chain(height, latest, ProofChain::empty(), vec![])
            .validate(&wsv, &PermissionsValidatorBox::AllowAll)
            .unwrap()
            .sign(&key_pair(order[0] as u8 + 1));
        let at = order[1];
        let (actions, result) =
            BlockCreated::from(block).handle(&mut net.nodes[at].engine, &wsv, 20);
        assert_eq!(result, Ok(()));
        assert_eq!(net.nodes[at].engine.block_height(), 7);
        (actions, net.nodes[at].engine.voting_in_progress())
    };
    let signed = |actions: &[Action]| {
        actions
            .iter()
            .filter(|a| matches!(a, Action::Send { message: Message::BlockSigned(_), .. }))
            .count()
    };
    let (actions, voting) = at_height(7);
    assert_eq!(signed(&actions), 1);
    assert!(voting);
    let (actions, voting) = at_height(8);
    assert_eq!(signed(&actions), 0);
    assert!(voting);
    let (actions, voting) = at_height(6);
    assert_eq!(signed(&actions), 0);
    assert!(voting);
}

#[test]
fn the_start_of_an_engine_sets_it_up_and_asks_for_ticks() {
    let wsv = world(4);
    let mut engine = Sumeragi::from_configuration(&configuration(1, 4, 1), PermissionsValidatorBox::AllowAll).unwrap();
    let (actions, result) = engine.on_init(iroha::crypto::Hash([5; 32]), 3, None, &wsv, 10);
    assert_eq!(result, Ok(()));
    assert_eq!(actions.len(), 1);
    assert!(matches!(actions[0], Action::TickEvery(100)));
    assert_eq!(engine.block_height(), 3);
    assert_eq!(engine.latest_block_hash(), iroha::crypto::Hash([5; 32]));

    let mut fresh = Sumeragi::from_configuration(&configuration(1, 1, 0), PermissionsValidatorBox::AllowAll).unwrap();
    let genesis = GenesisRound {
        transactions: vec![tx(1)],
        topology: Topology::new(&[peer(1)], 0, zero(), 1).unwrap(),
    };
    let (actions, result) = fresh.on_init(zero(), 0, Some(genesis), &world(1), 10);
    assert_eq!(result, Ok(()));
    assert!(actions.iter().any(|a| matches!(a, Action::Store(_))));
    assert!(matches!(actions.last(), Some(Action::TickEvery(100))));
    assert_ne!(fresh.latest_block_hash(), zero());

    let mut follower = Sumeragi::from_configuration(&configuration(1, 1, 0), PermissionsValidatorBox::AllowAll).unwrap();
    let genesis = GenesisRound { transactions: vec![], topology: Topology::new(&[peer(1)], 0, zero(), 1).unwrap() };
    let (actions, result) = follower.on_init(zero(), 0, Some(genesis), &world(1), 10);
    assert_eq!(result, Err(Error::EmptyGenesis));
    assert_eq!(actions.len(), 1);
}

#[test]
fn messages_are_handled_by_their_kind() {
    let mut net = Net::new(4, 1);
    let order = net.by_role();
    let wsv = world(4);
    let t1 = tx(1);
    let forwarded = Message::TransactionForwarded(TransactionForwarded::new(&t1, &net.nodes[order[1]].id));
    let versioned = VersionedMessage::from(forwarded);
    assert!(matches!(versioned.as_inner_v1(), Message::TransactionForwarded(_)));
    let (actions, result) = versioned.handle(&mut net.nodes[order[0]].engine, &wsv, 10);
    assert_eq!(result, Ok(()));
    assert_eq!(actions.len(), 2);
    let mut versioned = versioned;
    *versioned.as_mut_inner_v1() = Message::TransactionReceived(TransactionReceipt::new_at(
        &t1,
        &key_pair(1),
        5,
    ));
    let inner = versioned.into_inner_v1();
    assert!(matches!(inner, Message::TransactionReceived(r) if r.received_at == 5));
    let (actions, result) = inner.handle(&mut net.nodes[order[1]].engine, &wsv, 10);
    assert_eq!(result, Ok(()));
    assert!(actions.is_empty());
    assert_eq!(net.nodes[order[1]].engine.topology.role(&net.nodes[order[1]].id), Role::ValidatingPeer);
}
