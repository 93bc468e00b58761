use iroha::crypto::{KeyPair, PrivateKey, PublicKey};
use iroha::queue::{Queue, QueueConfiguration};
use iroha::tx::{AcceptedTransaction, Transaction};
use iroha::wsv::{Account, AccountId, WorldStateView};

fn key_pair(seed: u8) -> KeyPair {
    let signing = ed25519_dalek::SigningKey::from_bytes(&[seed; 32]);
    KeyPair {
        public_key: PublicKey(signing.verifying_key().to_bytes()),
        private_key: PrivateKey([seed; 32]),
    }
}

/// A transaction of `account` made at `created`, signed with `key`, or
/// with a key of its own if none is given.
fn accepted_tx(
    account: &str,
    domain: &str,
    proposed_ttl_ms: u64,
    key: Option<&KeyPair>,
    created: u64,
) -> AcceptedTransaction {
    let key = key.copied().unwrap_or_else(|| key_pair(200 + (created % 50) as u8));
    let tx = Transaction::new_at(Vec::new(), AccountId::new(account, domain), proposed_ttl_ms, created)
        .sign(&key);
    AcceptedTransaction::from_transaction(tx, 4096).expect("Failed to accept Transaction.")
}

fn world_with_test_domains(public_key: PublicKey) -> WorldStateView {
    let mut wsv = WorldStateView::new();
    wsv.accounts.push(Account::new(AccountId::new("alice", "wonderland"), public_key));
    wsv
}

fn queue(in_block: u32, ttl: u64, in_queue: u32) -> Queue {
    Queue::from_configuration(&QueueConfiguration {
        maximum_transactions_in_block: in_block,
        transaction_time_to_live_ms: ttl,
        maximum_transactions_in_queue: in_queue,
    })
}

#[test]
fn push_available_tx() {
    let mut queue = queue(2, 100_000, 100);
    queue
        .push(accepted_tx("account", "domain", 100_000, None, 0))
        .expect("Failed to push tx into queue");
}

#[test]
fn push_available_tx_overflow() {
    let max_txs_in_queue = 10;
    let mut queue = queue(2, 100_000, max_txs_in_queue);
    for i in 0..max_txs_in_queue {
        queue
            .push(accepted_tx("account", "domain", 100_000, None, 10 * i as u64))
            .expect("Failed to push tx into queue");
    }
    assert!(queue
        .push(accepted_tx("account", "domain", 100_000, None, 100))
        .is_err());
}

#[test]
fn a_refused_transaction_comes_back_and_the_queue_stays_as_it_was() {
    let mut queue = queue(2, 100_000, 1);
    queue.push(accepted_tx("account", "domain", 100_000, None, 0)).unwrap();
    let refused = accepted_tx("account", "domain", 100_000, None, 1);
    let back = queue.push(refused.clone()).unwrap_err();
    assert_eq!(back.hash(), refused.hash());
    assert_eq!(queue.len(), 1);
    assert!(queue.get(&refused.hash()).is_none());
    // A transaction that waits already is merged, however full the queue is.
    queue.push(accepted_tx("account", "domain", 100_000, None, 0)).unwrap();
    assert_eq!(queue.len(), 1);
}

#[test]
fn push_multisignature_tx() {
    let mut queue = queue(2, 100_000, 100);
    let tx = Transaction::new_at(Vec::new(), AccountId::new("account", "domain"), 100_000, 0);
    let get_tx = |seed: u8| {
        AcceptedTransaction::from_transaction(tx.clone().sign(&key_pair(seed)), 4096)
            .expect("Failed to accept Transaction.")
    };

    queue.push(get_tx(1)).expect("Failed to push tx into queue");
    queue.push(get_tx(2)).expect("Failed to push tx into queue");

    assert_eq!(queue.len(), 1);
    let signature_count = queue.get(&tx.hash()).unwrap().signatures.len();
    assert_eq!(signature_count, 2);
}

#[test]
fn pushing_a_hash_again_unites_the_signatures() {
    let mut queue = queue(2, 100_000, 100);
    let tx = Transaction::new_at(Vec::new(), AccountId::new("account", "domain"), 100_000, 0);
    let signed_by = |seeds: &[u8]| {
        let mut tx = tx.clone();
        for seed in seeds {
            tx = tx.sign(&key_pair(*seed));
        }
        AcceptedTransaction::from_transaction(tx, 4096).unwrap()
    };
    queue.push(signed_by(&[1, 2])).unwrap();
    queue.push(signed_by(&[2, 3])).unwrap();
    let stored = queue.get(&tx.hash()).unwrap();
    assert_eq!(stored.signatures.len(), 3);
    for seed in [1, 2, 3] {
        assert!(stored.signatures.contains(&key_pair(seed).public_key));
    }
    assert_eq!(queue.waiting().len(), 1);
    assert_eq!(queue.waiting()[0].hash(), tx.hash());
}

#[test]
fn every_waiting_transaction_is_listed_once() {
    let mut queue = queue(2, 100_000, 100);
    let txs: Vec<AcceptedTransaction> =
        (0..5).map(|i| accepted_tx("alice", "wonderland", 100_000, None, 10 * i)).collect();
    for tx in &txs {
        queue.push(tx.clone()).unwrap();
    }
    let mut listed: Vec<Vec<u8>> = queue.waiting().iter().map(|tx| tx.hash().0.to_vec()).collect();
    let mut expected: Vec<Vec<u8>> = txs.iter().map(|tx| tx.hash().0.to_vec()).collect();
    listed.sort();
    expected.sort();
    assert_eq!(listed, expected);
    assert_eq!(queue.waiting().len(), queue.len());
}

#[test]
fn get_available_txs() {
    let max_block_tx = 2;
    let alice_key = key_pair(1);
    let wsv = world_with_test_domains(alice_key.public_key);
    let mut queue = queue(max_block_tx, 100_000, 100);
    for i in 0..5 {
        queue
            .push(accepted_tx("alice", "wonderland", 100_000, Some(&alice_key), 10 * i))
            .expect("Failed to push tx into queue");
    }

    let available = queue.pop_avaliable_at(false, &wsv, 50);
    assert_eq!(available.len(), max_block_tx as usize);
    assert_eq!(queue.len(), 3);
}

#[test]
fn transactions_leave_in_the_order_in_which_they_came() {
    let alice_key = key_pair(1);
    let wsv = world_with_test_domains(alice_key.public_key);
    let mut queue = queue(2, 100_000, 100);
    let txs: Vec<AcceptedTransaction> = (0..5)
        .map(|i| accepted_tx("alice", "wonderland", 100_000, Some(&alice_key), 10 * i))
        .collect();
    for tx in &txs {
        queue.push(tx.clone()).unwrap();
    }
    let mut out = Vec::new();
    for _ in 0..4 {
        for tx in queue.pop_avaliable_at(false, &wsv, 50) {
            out.push(tx.hash());
        }
    }
    let expected: Vec<_> = txs.iter().map(|tx| tx.hash()).collect();
    assert_eq!(out, expected);
    assert_eq!(queue.len(), 0);
    assert!(queue.waiting().is_empty());
}

#[test]
fn get_available_txs_by_the_clock() {
    let alice_key = key_pair(1);
    let wsv = world_with_test_domains(alice_key.public_key);
    let mut queue = queue(2, 100_000, 100);
    let tx = AcceptedTransaction::from_transaction(
        Transaction::new(Vec::new(), AccountId::new("alice", "wonderland"), 100_000)
            .sign(&alice_key),
        4096,
    )
    .unwrap();
    queue.push(tx.clone()).unwrap();
    let available = queue.pop_avaliable(false, &wsv);
    assert_eq!(available.len(), 1);
    assert_eq!(available[0].hash(), tx.hash());
}

#[test]
fn drop_tx_if_in_blockchain() {
    let max_block_tx = 2;
    let alice_key = key_pair(1);
    let mut wsv = world_with_test_domains(alice_key.public_key);
    let tx = accepted_tx("alice", "wonderland", 100_000, Some(&alice_key), 0);
    wsv.transactions.push(tx.hash());
    let mut queue = queue(max_block_tx, 100_000, 100);
    queue.push(tx).expect("Failed to push tx into queue");
    assert_eq!(queue.pop_avaliable_at(false, &wsv, 1).len(), 0);
    assert_eq!(queue.len(), 0);
    assert!(queue.waiting().is_empty());
}

#[test]
fn get_available_txs_with_timeout() {
    let max_block_tx = 6;
    let alice_key = key_pair(1);
    let wsv = world_with_test_domains(alice_key.public_key);
    let mut queue = queue(max_block_tx, 200, 100);
    for i in 0..(max_block_tx - 1) {
        queue
            .push(accepted_tx("alice", "wonderland", 100, Some(&alice_key), 10 * i as u64))
            .expect("Failed to push tx into queue");
    }

    queue
        .push(accepted_tx("alice", "wonderland", 200, Some(&alice_key), 50))
        .expect("Failed to push tx into queue");
    assert_eq!(queue.pop_avaliable_at(false, &wsv, 151).len(), 1);

    let wsv = WorldStateView::new();

    queue
        .push(accepted_tx("alice", "wonderland", 300, Some(&alice_key), 151))
        .expect("Failed to push tx into queue");
    assert_eq!(queue.pop_avaliable_at(false, &wsv, 252).len(), 0);
    assert_eq!(queue.len(), 0);
}

#[test]
fn get_available_txs_on_leader() {
    let max_block_tx = 2;

    let alice_key_1 = key_pair(1);
    let alice_key_2 = key_pair(2);
    let mut account = Account::new(AccountId::new("alice", "wonderland"), alice_key_1.public_key);
    account.signatories.push(alice_key_2.public_key);
    let mut wsv = WorldStateView::new();
    wsv.accounts.push(account);
    let mut queue = queue(max_block_tx, 100_000, 100);

    let bob_key = key_pair(3);
    let alice_tx_1 = accepted_tx("alice", "wonderland", 100_000, Some(&alice_key_1), 0);
    let alice_tx_2 = accepted_tx("alice", "wonderland", 100_000, Some(&alice_key_2), 10);
    let alice_tx_3 = accepted_tx("alice", "wonderland", 100_000, Some(&bob_key), 20);
    let alice_tx_4 = accepted_tx("alice", "wonderland", 100_000, Some(&alice_key_1), 30);
    queue.push(alice_tx_1.clone()).unwrap();
    queue.push(alice_tx_2.clone()).unwrap();
    queue.push(alice_tx_3).unwrap();
    queue.push(alice_tx_4).unwrap();
    let output_txs: Vec<_> = queue
        .pop_avaliable_at(true, &wsv, 40)
        .into_iter()
        .map(|tx| tx.hash())
        .collect();
    assert_eq!(output_txs, vec![alice_tx_1.hash(), alice_tx_2.hash()]);
    assert_eq!(queue.len(), 2);
}

#[test]
fn the_leader_puts_aside_what_lacks_signatures_and_others_hand_it_out() {
    let alice_key = key_pair(1);
    let wsv = world_with_test_domains(alice_key.public_key);
    let stranger = accepted_tx("alice", "wonderland", 100_000, Some(&key_pair(3)), 0);
    let signed = accepted_tx("alice", "wonderland", 100_000, Some(&alice_key), 10);
    let later = accepted_tx("alice", "wonderland", 100_000, Some(&alice_key), 20);

    let mut on_leader = queue(5, 100_000, 100);
    on_leader.push(stranger.clone()).unwrap();
    on_leader.push(signed.clone()).unwrap();
    on_leader.push(later.clone()).unwrap();
    let out: Vec<_> = on_leader
        .pop_avaliable_at(true, &wsv, 30)
        .into_iter()
        .map(|tx| tx.hash())
        .collect();
    assert_eq!(out, vec![signed.hash(), later.hash()]);
    assert_eq!(on_leader.len(), 1);
    assert!(on_leader.get(&stranger.hash()).is_some());
    // It is tried again at the next pop, and again put aside.
    assert!(on_leader.pop_avaliable_at(true, &wsv, 31).is_empty());
    assert_eq!(on_leader.len(), 1);

    let mut elsewhere = queue(5, 100_000, 100);
    elsewhere.push(stranger.clone()).unwrap();
    elsewhere.push(signed.clone()).unwrap();
    let out: Vec<_> = elsewhere
        .pop_avaliable_at(false, &wsv, 30)
        .into_iter()
        .map(|tx| tx.hash())
        .collect();
    assert_eq!(out, vec![stranger.hash(), signed.hash()]);
    assert_eq!(elsewhere.len(), 0);
}

#[test]
fn what_was_put_aside_waits_behind_what_had_no_turn() {
    let alice_key = key_pair(1);
    let wsv = world_with_test_domains(alice_key.public_key);
    let stranger = accepted_tx("alice", "wonderland", 100_000, Some(&key_pair(3)), 0);
    let first = accepted_tx("alice", "wonderland", 100_000, Some(&alice_key), 10);
    let second = accepted_tx("alice", "wonderland", 100_000, Some(&alice_key), 20);
    let mut queue = queue(1, 100_000, 100);
    queue.push(stranger.clone()).unwrap();
    queue.push(first.clone()).unwrap();
    queue.push(second.clone()).unwrap();
    let out = queue.pop_avaliable_at(true, &wsv, 30);
    assert_eq!(out.len(), 1);
    assert_eq!(out[0].hash(), first.hash());
    // Now the order is: second, stranger. A peer that is no leader sees it.
    let rest: Vec<_> = queue
        .pop_avaliable_at(false, &wsv, 30)
        .into_iter()
        .map(|tx| tx.hash())
        .collect();
    assert_eq!(rest, vec![second.hash()]);
    let rest: Vec<_> = queue
        .pop_avaliable_at(false, &wsv, 30)
        .into_iter()
        .map(|tx| tx.hash())
        .collect();
    assert_eq!(rest, vec![stranger.hash()]);
}

#[test]
fn a_multisignature_transaction_waits_on_the_leader_for_its_signatures() {
    let key_a = key_pair(1);
    let key_b = key_pair(2);
    let mut account = Account::new(AccountId::new("alice", "wonderland"), key_a.public_key);
    account.signatories.push(key_b.public_key);
    account.signature_threshold = 2;
    let mut wsv = WorldStateView::new();
    wsv.accounts.push(account);

    let tx = Transaction::new_at(Vec::new(), AccountId::new("alice", "wonderland"), 100_000, 0);
    let by = |key: &KeyPair| {
        AcceptedTransaction::from_transaction(tx.clone().sign(key), 4096).unwrap()
    };
    let mut queue = queue(2, 100_000, 100);
    queue.push(by(&key_a)).unwrap();
    assert!(queue.pop_avaliable_at(true, &wsv, 1).is_empty());
    assert_eq!(queue.len(), 1);
    queue.push(by(&key_b)).unwrap();
    assert_eq!(queue.len(), 1);
    let stored = queue.get(&tx.hash()).unwrap();
    assert_eq!(stored.signatures.len(), 2);
    let out = queue.pop_avaliable_at(true, &wsv, 2);
    assert_eq!(out.len(), 1);
    assert_eq!(out[0].hash(), tx.hash());
    assert_eq!(out[0].signatures.len(), 2);
    assert_eq!(queue.len(), 0);
    assert!(queue.pop_avaliable_at(true, &wsv, 3).is_empty());
}

#[test]
fn a_block_that_takes_nothing_leaves_the_queue_alone() {
    let alice_key = key_pair(1);
    let wsv = world_with_test_domains(alice_key.public_key);
    let mut queue = queue(0, 100, 100);
    queue
        .push(accepted_tx("alice", "wonderland", 100, Some(&alice_key), 0))
        .unwrap();
    assert!(queue.pop_avaliable_at(false, &wsv, 1000).is_empty());
    assert_eq!(queue.len(), 1);
}

#[test]
fn the_default_limits_are_those_of_the_configuration() {
    let cfg = QueueConfiguration::default();
    assert_eq!(cfg.maximum_transactions_in_block, 8192);
    assert_eq!(cfg.maximum_transactions_in_queue, 65536);
    assert_eq!(cfg.transaction_time_to_live_ms, 24 * 60 * 60 * 1000);
    let queue = Queue::from_configuration(&cfg);
    assert_eq!(queue.len(), 0);
}
