use iroha::crypto::{KeyPair, PrivateKey, PublicKey, Signature};
use iroha::peer::PeerId;
use iroha::signatures::signatures_from;
use iroha::view_change::{
    count_approvals, is_peer_key, Proof, ProofChain, Reason, TransactionReceipt,
};

fn key_pair(seed: u8) -> KeyPair {
    let signing = ed25519_dalek::SigningKey::from_bytes(&[seed; 32]);
    KeyPair {
        public_key: PublicKey(signing.verifying_key().to_bytes()),
        private_key: PrivateKey([seed; 32]),
    }
}

fn peer(seed: u8) -> PeerId {
    PeerId::new(&format!("127.0.0.1:{}", 1300 + seed as u32), &key_pair(seed).public_key)
}

fn peers(n: u8) -> Vec<PeerId> {
    (1..=n).map(peer).collect()
}

fn hash(byte: u8) -> iroha::crypto::Hash {
    iroha::crypto::Hash([byte; 32])
}

#[test]
fn a_new_proof_has_no_signatures() {
    let proof = Proof::commit_timeout(hash(1), hash(2), hash(3));
    assert_eq!(proof.signatures().len(), 0);
    assert!(matches!(proof.reason(), Reason::CommitTimeout(r) if r.voting_block_hash == hash(1)));
    assert_eq!(proof.payload().latest_view_change_hash, hash(2));
    assert_eq!(proof.payload().latest_block_hash, hash(3));
    assert!(!proof.verify(&peers(4), 0));
}

#[test]
fn the_payload_of_a_proof_is_laid_out_field_by_field() {
    let proof = Proof::no_transaction_receipt_received(hash(1), hash(2), hash(3));
    let mut expected = vec![1u8];
    expected.extend_from_slice(&[1; 32]);
    expected.extend_from_slice(&[2; 32]);
    expected.extend_from_slice(&[3; 32]);
    assert_eq!(proof.payload_bytes(), expected);
    assert_eq!(proof.hash(), iroha::crypto::hash(expected));

    let receipt = TransactionReceipt {
        transaction_hash: hash(4),
        received_at: 0x0102,
        signature: Signature { public_key: PublicKey([5; 32]), signature: [6; 64] },
    };
    let proof = Proof::block_creation_timeout(receipt, hash(2), hash(3));
    let mut expected = vec![2u8];
    expected.extend_from_slice(&[4; 32]);
    expected.extend_from_slice(&[2, 1, 0, 0, 0, 0, 0, 0, 0, 0, 0, 0, 0, 0, 0, 0]);
    expected.extend_from_slice(&[5; 32]);
    expected.extend_from_slice(&[6; 64]);
    expected.extend_from_slice(&[2; 32]);
    expected.extend_from_slice(&[3; 32]);
    assert_eq!(proof.payload_bytes(), expected);

    let proof = Proof::commit_timeout(hash(1), hash(2), hash(3));
    assert_eq!(proof.payload_bytes()[0], 0);
    assert_eq!(proof.payload_bytes().len(), 97);
}

#[test]
fn the_hash_of_a_proof_does_not_cover_its_signatures() {
    let proof = Proof::commit_timeout(hash(1), hash(2), hash(3));
    let unsigned = proof.hash();
    let signed = proof.sign(&key_pair(1)).sign(&key_pair(2));
    assert_eq!(signed.hash(), unsigned);
    assert_eq!(signed.signatures().len(), 2);
}

#[test]
fn signing_twice_with_one_key_counts_once() {
    let proof = Proof::commit_timeout(hash(1), hash(2), hash(3))
        .sign(&key_pair(1))
        .sign(&key_pair(1));
    assert_eq!(proof.signatures().len(), 1);
    assert!(proof.verify(&peers(4), 0));
    assert!(!proof.verify(&peers(4), 1));
}

#[test]
fn a_proof_needs_more_valid_signatures_of_peers_than_faults() {
    let proof = Proof::commit_timeout(hash(1), hash(2), hash(3))
        .sign(&key_pair(1))
        .sign(&key_pair(2));
    assert!(proof.verify(&peers(4), 1));
    assert!(!proof.verify(&peers(4), 2));
    // One of the two signers is no peer.
    assert!(!proof.verify(&peers(1), 1));
    // A signature that does not verify does not count.
    let payload = proof.payload();
    let forged = Signature {
        public_key: key_pair(3).public_key,
        signature: proof.signatures().values()[0].signature,
    };
    let mut signatures = proof.signatures().clone();
    signatures.add(forged);
    let padded = Proof::from_parts(payload, signatures);
    assert_eq!(padded.signatures().len(), 3);
    assert!(!padded.verify(&peers(4), 2));
    assert!(padded.verify(&peers(4), 1));
}

#[test]
fn the_verdict_on_a_proof_does_not_depend_on_the_order_of_its_signatures() {
    let proof = Proof::commit_timeout(hash(1), hash(2), hash(3))
        .sign(&key_pair(1))
        .sign(&key_pair(2))
        .sign(&key_pair(3));
    let mut values = proof.signatures().values();
    values.reverse();
    let reordered = Proof::from_parts(proof.payload(), signatures_from(&values));
    assert_eq!(reordered.hash(), proof.hash());
    for faults in 0..4 {
        assert_eq!(reordered.verify(&peers(4), faults), proof.verify(&peers(4), faults));
    }
    assert!(reordered.verify(&peers(4), 2));
    assert!(!reordered.verify(&peers(4), 3));
    let h = proof.hash();
    assert_eq!(count_approvals(proof.signatures(), &h.0, &peers(4)), 3);
    assert_eq!(count_approvals(reordered.signatures(), &h.0, &peers(2)), 2);
    assert!(is_peer_key(&peers(4), &key_pair(4).public_key));
    assert!(!is_peer_key(&peers(4), &key_pair(5).public_key));
}

#[test]
fn a_proof_belongs_to_the_state_it_was_made_in() {
    let proof = Proof::commit_timeout(hash(1), hash(2), hash(3));
    assert!(proof.has_same_state(hash(3), hash(2)));
    assert!(!proof.has_same_state(hash(2), hash(3)));
    assert!(!proof.has_same_state(hash(3), hash(0)));
}

#[test]
fn the_latest_hash_of_a_chain_is_that_of_its_last_proof() {
    let mut chain = ProofChain::empty();
    assert_eq!(chain.latest_hash(), hash(0));
    assert_eq!(chain.len(), 0);
    let first = Proof::commit_timeout(hash(1), hash(0), hash(3)).sign(&key_pair(1));
    let first_hash = first.hash();
    chain.push(first);
    assert_eq!(chain.latest_hash(), first_hash);
    let second = Proof::commit_timeout(hash(2), first_hash, hash(3)).sign(&key_pair(2));
    let second_hash = second.hash();
    chain.push(second);
    assert_eq!(chain.latest_hash(), second_hash);
    assert_eq!(chain.len(), 2);
    assert_eq!(chain.get(0).hash(), first_hash);
    assert_eq!(chain.clone().latest_hash(), second_hash);
}

#[test]
fn a_chain_holds_if_each_proof_is_linked_and_has_its_quorum() {
    let block = hash(3);
    let first = Proof::commit_timeout(hash(1), hash(0), block)
        .sign(&key_pair(1))
        .sign(&key_pair(2));
    let second = Proof::commit_timeout(hash(2), first.hash(), block)
        .sign(&key_pair(2))
        .sign(&key_pair(3));
    let mut chain = ProofChain::empty();
    assert!(chain.verify_with_state(&peers(4), 1, &block));
    chain.push(first.clone());
    chain.push(second);
    assert!(chain.verify_with_state(&peers(4), 1, &block));
    assert!(!chain.verify_with_state(&peers(4), 2, &block));
    assert!(!chain.verify_with_state(&peers(4), 1, &hash(4)));

    let unlinked = Proof::commit_timeout(hash(2), hash(7), block)
        .sign(&key_pair(2))
        .sign(&key_pair(3));
    let mut broken = ProofChain::empty();
    broken.push(first);
    broken.push(unlinked);
    assert!(!broken.verify_with_state(&peers(4), 1, &block));
}
