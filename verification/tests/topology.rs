use blake2::Digest;
use iroha::crypto::{KeyPair, PrivateKey, PublicKey, Signature};
use iroha::error::Error;
use iroha::network_topology::{role_at_index, sort_peers, Role, Topology};
use iroha::peer::{all_distinct, distinct_peers, position_of, PeerId};
use iroha::view_change::{Proof, ProofChain, TransactionReceipt};

fn key_pair(seed: u8) -> KeyPair {
    let signing = ed25519_dalek::SigningKey::from_bytes(&[seed; 32]);
    KeyPair {
        public_key: PublicKey(signing.verifying_key().to_bytes()),
        private_key: PrivateKey([seed; 32]),
    }
}

fn peer(seed: u8) -> PeerId {
    PeerId::new(&format!("127.0.0.1:{}", 1300 + seed as u32), &key_pair(seed).public_key)
}

fn peers(n: u8) -> Vec<PeerId> {
    (1..=n).map(peer).collect()
}

fn sort_key(peer: &PeerId, seed: &[u8]) -> Vec<u8> {
    let mut bytes = peer.public_key.0.to_vec();
    bytes.extend_from_slice(seed);
    blake2::Blake2b::<blake2::digest::consts::U32>::digest(&bytes).to_vec()
}

fn zero() -> iroha::crypto::Hash {
    iroha::crypto::Hash([0; 32])
}

fn signed_proof(signers: &[u8], latest_block: iroha::crypto::Hash) -> Proof {
    let mut proof = Proof::commit_timeout(iroha::crypto::Hash([9; 32]), zero(), latest_block);
    for seed in signers {
        proof = proof.sign(&key_pair(*seed));
    }
    proof
}

#[test]
fn too_few_peers_are_refused() {
    let result = Topology::new(&peers(3), 1, zero(), 1);
    assert_eq!(result.err(), Some(Error::TooFewPeers));
    assert!(Topology::new(&peers(4), 1, zero(), 1).is_ok());
    assert!(Topology::new(&[], 0, zero(), 1).is_err());
    assert!(Topology::new(&peers(1), 0, zero(), 1).is_ok());
}

#[test]
fn a_peer_that_is_named_twice_counts_once() {
    let mut given = peers(3);
    given.push(peer(1));
    assert_eq!(distinct_peers(&given), peers(3));
    assert_eq!(Topology::new(&given, 1, zero(), 1).err(), Some(Error::TooFewPeers));
    given.push(peer(4));
    given.push(peer(4));
    let topology = Topology::new(&given, 1, zero(), 1).unwrap();
    assert_eq!(topology.sorted_peers().len(), 4);
    let plain = Topology::new(&peers(4), 1, zero(), 1).unwrap();
    assert_eq!(topology.sorted_peers(), plain.sorted_peers());
}

#[test]
fn peers_are_sorted_by_the_hash_of_key_and_seed() {
    let seed = [7u8; 32];
    let sorted = sort_peers(&peers(7), &seed);
    assert_eq!(sorted.len(), 7);
    for pair in sorted.windows(2) {
        assert!(sort_key(&pair[0], &seed) < sort_key(&pair[1], &seed));
    }
    for p in peers(7) {
        assert!(position_of(&sorted, &p) < 7);
    }
}

#[test]
fn equal_keys_are_sorted_by_address() {
    let key = key_pair(1).public_key;
    let given = vec![
        PeerId::new("c", &key),
        PeerId::new("a", &key),
        PeerId::new("b", &key),
    ];
    let sorted = sort_peers(&given, &[0u8; 32]);
    assert_eq!(sorted[0].address, "a");
    assert_eq!(sorted[1].address, "b");
    assert_eq!(sorted[2].address, "c");
}

#[test]
fn the_order_does_not_depend_on_the_order_given() {
    let mut reversed = peers(7);
    reversed.reverse();
    let one = Topology::new(&peers(7), 2, iroha::crypto::Hash([3; 32]), 1).unwrap();
    let other = Topology::new(&reversed, 2, iroha::crypto::Hash([3; 32]), 1).unwrap();
    assert_eq!(one.sorted_peers(), other.sorted_peers());
}

#[test]
fn roles_follow_the_positions() {
    let topology = Topology::new(&peers(7), 2, zero(), 1).unwrap();
    let sorted = topology.sorted_peers().to_vec();
    assert_eq!(topology.role(&sorted[0]), Role::Leader);
    for i in 1..=4 {
        assert_eq!(topology.role(&sorted[i]), Role::ValidatingPeer);
    }
    assert_eq!(topology.role(&sorted[5]), Role::ProxyTail);
    assert_eq!(topology.role(&sorted[6]), Role::ObservingPeer);
    assert_eq!(topology.role(&peer(9)), Role::OutsideTopology);
    assert_eq!(topology.leader(), &sorted[0]);
    assert_eq!(topology.proxy_tail(), Some(&sorted[5]));
    assert_eq!(topology.validating_peers(), sorted[1..5].to_vec());
    assert_eq!(topology.peers_set_b(), sorted[6..].to_vec());
    assert_eq!(topology.min_votes_for_commit(), 5);
    assert_eq!(topology.max_faults(), 2);
    assert!(topology.is_consensus_required());
}

#[test]
fn role_counts_for_four_peers() {
    let topology = Topology::new(&peers(4), 1, zero(), 1).unwrap();
    let mut leaders = 0;
    let mut validators = 0;
    let mut tails = 0;
    for p in topology.sorted_peers() {
        match topology.role(p) {
            Role::Leader => leaders += 1,
            Role::ValidatingPeer => validators += 1,
            Role::ProxyTail => tails += 1,
            _ => {}
        }
    }
    assert_eq!((leaders, validators, tails), (1, 2, 1));
    assert_eq!(topology.min_votes_for_commit(), 3);
    assert!(topology.peers_set_b().is_empty());
}

#[test]
fn a_single_peer_leads_and_has_no_proxy_tail() {
    let topology = Topology::new(&peers(1), 0, zero(), 1).unwrap();
    assert_eq!(topology.role(&peer(1)), Role::Leader);
    assert_eq!(topology.proxy_tail(), None);
    assert!(topology.validating_peers().is_empty());
    assert!(!topology.is_consensus_required());
    assert_eq!(topology.min_votes_for_commit(), 1);
}

#[test]
fn role_at_index_covers_the_edges() {
    assert_eq!(role_at_index(0, 4, 1), Role::Leader);
    assert_eq!(role_at_index(1, 4, 1), Role::ValidatingPeer);
    assert_eq!(role_at_index(2, 4, 1), Role::ValidatingPeer);
    assert_eq!(role_at_index(3, 4, 1), Role::ProxyTail);
    assert_eq!(role_at_index(4, 4, 1), Role::OutsideTopology);
    assert_eq!(role_at_index(4, 5, 1), Role::ObservingPeer);
    assert_eq!(role_at_index(1, 2, 0), Role::ProxyTail);
    assert_eq!(role_at_index(0, 0, 0), Role::OutsideTopology);
}

#[test]
fn a_block_sorts_the_peers_anew_and_forgets_the_view_changes() {
    let mut topology = Topology::new(&peers(4), 1, zero(), 1).unwrap();
    topology.apply_view_change(signed_proof(&[1, 2], zero()));
    assert_eq!(topology.view_change_proofs().len(), 1);
    let block_hash = iroha::crypto::Hash([5; 32]);
    topology.apply_block(block_hash);
    assert_eq!(topology.at_block(), block_hash);
    assert_eq!(topology.view_change_proofs().len(), 0);
    let sorted = topology.sorted_peers();
    for pair in sorted.windows(2) {
        assert!(sort_key(&pair[0], &[5; 32]) < sort_key(&pair[1], &[5; 32]));
    }
}

#[test]
fn the_first_view_changes_rotate_and_later_ones_reshuffle() {
    let mut topology = Topology::new(&peers(4), 1, zero(), 2).unwrap();
    let start = topology.sorted_peers().to_vec();
    topology.apply_view_change(signed_proof(&[1, 2], zero()));
    let mut rotated = start.clone();
    rotated.rotate_left(1);
    assert_eq!(topology.sorted_peers(), &rotated[..]);
    topology.apply_view_change(signed_proof(&[1, 3], zero()));
    rotated.rotate_left(1);
    assert_eq!(topology.sorted_peers(), &rotated[..]);
    let third = signed_proof(&[2, 3], zero());
    let mut seed_input = topology.at_block().0.to_vec();
    seed_input.extend_from_slice(&third.hash().0);
    let seed = blake2::Blake2b::<blake2::digest::consts::U32>::digest(&seed_input).to_vec();
    topology.apply_view_change(third);
    assert_eq!(topology.view_change_proofs().len(), 3);
    for pair in topology.sorted_peers().windows(2) {
        assert!(sort_key(&pair[0], &seed) < sort_key(&pair[1], &seed));
    }
}

#[test]
fn a_topology_is_built_anew_with_other_peers_or_view_changes() {
    let topology = Topology::new(&peers(4), 1, iroha::crypto::Hash([1; 32]), 5).unwrap();
    let bigger = topology.with_peers(&peers(5)).unwrap();
    assert_eq!(bigger.sorted_peers().len(), 5);
    assert_eq!(bigger.at_block(), iroha::crypto::Hash([1; 32]));
    assert_eq!(topology.with_peers(&peers(2)).err(), Some(Error::TooFewPeers));
    let mut chain = ProofChain::empty();
    chain.push(signed_proof(&[1, 2], iroha::crypto::Hash([1; 32])));
    let changed = topology.with_view_changes(&chain);
    let mut rotated = topology.sorted_peers().to_vec();
    rotated.rotate_left(1);
    assert_eq!(changed.sorted_peers(), &rotated[..]);
    assert_eq!(changed.view_change_proofs().len(), 1);
    let copy = changed.clone();
    assert_eq!(copy.sorted_peers(), changed.sorted_peers());
}

#[test]
fn signatures_are_filtered_by_the_role_of_their_signer() {
    let topology = Topology::new(&peers(4), 1, zero(), 1).unwrap();
    let sorted = topology.sorted_peers().to_vec();
    let seed_of = |p: &PeerId| (1..=4u8).find(|s| peer(*s) == *p).unwrap();
    let all: Vec<Signature> = sorted
        .iter()
        .map(|p| Signature::new(&key_pair(seed_of(p)), b"block"))
        .collect();
    let outsider = Signature::new(&key_pair(9), b"block");
    let mut given = all.clone();
    given.push(outsider);
    let leaders = topology.filter_signatures_by_roles(&[Role::Leader], &given);
    assert_eq!(leaders.len(), 1);
    assert_eq!(leaders[0].public_key, sorted[0].public_key);
    let voters =
        topology.filter_signatures_by_roles(&[Role::ValidatingPeer, Role::Leader], &given);
    assert_eq!(voters.len(), 3);
    let tails = topology.filter_signatures_by_roles(&[Role::ProxyTail], &given);
    assert_eq!(tails.len(), 1);
    assert_eq!(tails[0].public_key, sorted[3].public_key);
    assert!(topology.filter_signatures_by_roles(&[], &given).is_empty());
    assert!(topology.has_role(&[Role::Leader], &sorted[0].public_key));
    assert!(!topology.has_role(&[Role::Leader], &sorted[1].public_key));
}

#[test]
fn a_signature_is_checked_with_the_role_of_its_signer() {
    let topology = Topology::new(&peers(4), 1, zero(), 1).unwrap();
    let sorted = topology.sorted_peers().to_vec();
    let leader_seed = (1..=4u8).find(|s| peer(*s) == sorted[0]).unwrap();
    let other_seed = (1..=4u8).find(|s| peer(*s) == sorted[1]).unwrap();
    let good = Signature::new(&key_pair(leader_seed), b"payload");
    assert_eq!(topology.verify_signature_with_role(&good, Role::Leader, b"payload"), Ok(()));
    assert_eq!(
        topology.verify_signature_with_role(&good, Role::Leader, b"other"),
        Err(Error::InvalidSignature)
    );
    assert_eq!(
        topology.verify_signature_with_role(&good, Role::ProxyTail, b"payload"),
        Err(Error::RoleMismatch)
    );
    let not_leader = Signature::new(&key_pair(other_seed), b"payload");
    assert_eq!(
        topology.verify_signature_with_role(&not_leader, Role::Leader, b"payload"),
        Err(Error::RoleMismatch)
    );
    let receipt = TransactionReceipt {
        transaction_hash: iroha::crypto::Hash([4; 32]),
        received_at: 10,
        signature: Signature::new(&key_pair(leader_seed), &[4; 32]),
    };
    assert!(receipt.is_valid(&topology));
    let forged = TransactionReceipt {
        signature: Signature::new(&key_pair(other_seed), &[4; 32]),
        ..receipt
    };
    assert!(!forged.is_valid(&topology));
    assert!(receipt.is_block_should_be_created_at(1000, 1010));
    assert!(!receipt.is_block_should_be_created_at(1000, 1009));
    assert!(!receipt.is_block_should_be_created_at(1000, 5));
}

#[test]
fn peers_are_told_apart_by_address_and_key() {
    let a = PeerId::new("a", &key_pair(1).public_key);
    let b = PeerId::new("b", &key_pair(1).public_key);
    let c = PeerId::new("a", &key_pair(2).public_key);
    assert_eq!(a, a.clone());
    assert_ne!(a, b);
    assert_ne!(a, c);
    assert!(all_distinct(&[a.clone(), b.clone(), c.clone()]));
    assert!(!all_distinct(&[a.clone(), b, a.clone()]));
    assert_eq!(position_of(&[c.clone(), a.clone()], &a), 1);
    assert_eq!(position_of(&[c], &a), 1);
}
