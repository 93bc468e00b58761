//! The settings of the consensus engine.

use crate::crypto::{KeyPair, PrivateKey, PublicKey};
use crate::peer::{peer_views, PeerId, PeerIdView};
use vstd::prelude::*;

verus! {

/// The peers that are trusted from the start.
#[derive(Debug)]
pub struct TrustedPeers {
    /// The peers; none occurs twice.
    pub peers: Vec<PeerId>,
}

/// The settings of the consensus engine.
#[derive(Debug)]
pub struct SumeragiConfiguration {
    /// The keys of this peer.
    pub key_pair: KeyPair,
    /// The identity of this peer.
    pub peer_id: PeerId,
    /// How long a peer waits for a block after a receipt, in milliseconds.
    pub block_time_ms: u64,
    /// The peers that are trusted from the start.
    pub trusted_peers: TrustedPeers,
    /// How many faulty peers the network tolerates.
    pub max_faulty_peers: u32,
    /// How long a peer waits for the commit of a block, in milliseconds.
    pub commit_time_ms: u64,
    /// How long a peer waits for the receipt of a transaction, in milliseconds.
    pub tx_receipt_time_ms: u64,
    /// After how many view changes the topology reshuffles instead of shifting.
    pub n_topology_shifts_before_reshuffle: u64,
    /// How many instructions a transaction may hold.
    pub max_instruction_number: u64,
}

impl Default for SumeragiConfiguration {
    fn default() -> (r: Self)
        ensures
            r.block_time_ms == 1000,
            r.max_faulty_peers == 0,
            r.commit_time_ms == 1000,
            r.tx_receipt_time_ms == 200,
            r.n_topology_shifts_before_reshuffle == 1,
            r.max_instruction_number == 4096,
            r.trusted_peers.peers@.len() == 0,
            r.peer_id@.address.len() == 0,
    {
        let r = SumeragiConfiguration {
            key_pair: KeyPair {
                public_key: PublicKey([0u8; 32]),
                private_key: PrivateKey([0u8; 32]),
            },
            trusted_peers: default_empty_trusted_peers(),
            peer_id: default_peer_id(),
            block_time_ms: 1000,
            max_faulty_peers: 0,
            commit_time_ms: 1000,
            tx_receipt_time_ms: 200,
            n_topology_shifts_before_reshuffle: 1,
            max_instruction_number: 4096,
        };
        r
    }
}

impl SumeragiConfiguration {
    /// Sets the trusted peers in place of those that were set.
    pub fn trusted_peers(&mut self, trusted_peers: Vec<PeerId>)
        ensures
            final(self).trusted_peers.peers == trusted_peers,
            final(self).key_pair == old(self).key_pair,
            final(self).peer_id == old(self).peer_id,
            final(self).block_time_ms == old(self).block_time_ms,
            final(self).max_faulty_peers == old(self).max_faulty_peers,
            final(self).commit_time_ms == old(self).commit_time_ms,
            final(self).tx_receipt_time_ms == old(self).tx_receipt_time_ms,
            final(self).n_topology_shifts_before_reshuffle == old(
                self,
            ).n_topology_shifts_before_reshuffle,
            final(self).max_instruction_number == old(self).max_instruction_number,
    {
        self.trusted_peers.peers = trusted_peers;
    }

    /// Sets the number of faulty peers that the network tolerates.
    pub fn max_faulty_peers(&mut self, max_faulty_peers: u32)
        ensures
            final(self).max_faulty_peers == max_faulty_peers,
            final(self).trusted_peers == old(self).trusted_peers,
            final(self).key_pair == old(self).key_pair,
            final(self).peer_id == old(self).peer_id,
            final(self).block_time_ms == old(self).block_time_ms,
            final(self).commit_time_ms == old(self).commit_time_ms,
            final(self).tx_receipt_time_ms == old(self).tx_receipt_time_ms,
            final(self).n_topology_shifts_before_reshuffle == old(
                self,
            ).n_topology_shifts_before_reshuffle,
            final(self).max_instruction_number == old(self).max_instruction_number,
    {
        self.max_faulty_peers = max_faulty_peers;
    }

    /// How long it takes at most from a transaction coming in to its block
    /// being stored on all peers: the three waiting times together.
    pub fn pipeline_time_ms(&self) -> (r: u64)
        requires
            self.tx_receipt_time_ms + self.block_time_ms + self.commit_time_ms <= u64::MAX,
        ensures
            r == self.tx_receipt_time_ms + self.block_time_ms + self.commit_time_ms,
    {
        self.tx_receipt_time_ms + self.block_time_ms + self.commit_time_ms
    }
}

/// The identity that a peer has before it is given one: no address and a
/// key of zeroes.
pub fn default_peer_id() -> (r: PeerId)
    ensures
        r@ == (PeerIdView { address: Seq::<char>::empty(), public_key: PublicKey::zero() }),
{
    let r = PeerId { address: String::new(), public_key: PublicKey([0u8; 32]) };
    assert(r.public_key.0 =~= PublicKey::zero().0);
    r
}

/// No trusted peers.
pub fn default_empty_trusted_peers() -> (r: TrustedPeers)
    ensures
        r.peers@.len() == 0,
{
    TrustedPeers { peers: Vec::new() }
}

} // verus!
