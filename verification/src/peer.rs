//! The identity of a peer.

use crate::crypto::PublicKey;
use crate::seqs::{distinct, lemma_position, position};
use vstd::prelude::*;

verus! {

/// A peer of the network: where it listens and the key it signs with.
#[derive(Debug, Eq)]
pub struct PeerId {
    /// The address at which the peer listens.
    pub address: String,
    /// The public key of the peer.
    pub public_key: PublicKey,
}

/// What a `PeerId` stands for in contracts.
pub struct PeerIdView {
    /// The characters of the address.
    pub address: Seq<char>,
    /// The public key of the peer.
    pub public_key: PublicKey,
}

impl View for PeerId {
    type V = PeerIdView;

    open spec fn view(&self) -> PeerIdView {
        PeerIdView { address: self.address@, public_key: self.public_key }
    }
}

impl Clone for PeerId {
    fn clone(&self) -> (r: Self)
        ensures
            r@ == self@,
    {
        PeerId { address: self.address.clone(), public_key: self.public_key }
    }
}

impl PartialEq for PeerId {
    fn eq(&self, other: &Self) -> (r: bool) {
        self.address == other.address && self.public_key == other.public_key
    }
}

impl vstd::std_specs::cmp::PartialEqSpecImpl for PeerId {
    open spec fn obeys_eq_spec() -> bool {
        true
    }

    open spec fn eq_spec(&self, other: &Self) -> bool {
        self@ == other@
    }
}

impl PeerId {
    /// The peer that listens at `address` and signs with `public_key`.
    pub fn new(address: &str, public_key: &PublicKey) -> (r: PeerId)
        ensures
            r@ == (PeerIdView { address: address@, public_key: *public_key }),
    {
        PeerId { address: address.to_owned(), public_key: *public_key }
    }
}

/// What a list of peers stands for in contracts.
pub open spec fn peer_views(peers: Seq<PeerId>) -> Seq<PeerIdView> {
    peers.map_values(|p: PeerId| p@)
}

/// The public keys of a list of peers, in its order.
pub open spec fn peer_keys(peers: Seq<PeerIdView>) -> Seq<PublicKey> {
    peers.map_values(|p: PeerIdView| p.public_key)
}

/// A copy of a list of peers.
pub fn copy_peers(peers: &[PeerId]) -> (r: Vec<PeerId>)
    ensures
        peer_views(r@) == peer_views(peers@),
{
    let mut r: Vec<PeerId> = Vec::new();
    let mut i: usize = 0;
    while i < peers.len()
        invariant
            i <= peers.len(),
            r@.len() == i,
            forall|j: int| 0 <= j < i ==> r@[j]@ == peers@[j]@,
        decreases peers.len() - i,
    {
        r.push(peers[i].clone());
        i += 1;
    }
    assert(peer_views(r@) =~= peer_views(peers@));
    r
}

/// The first position of `peer` in `peers`, or their number if it is absent.
pub fn position_of(peers: &[PeerId], peer: &PeerId) -> (i: usize)
    ensures
        i == position(peer_views(peers@), peer@),
{
    let ghost views = peer_views(peers@);
    proof {
        lemma_position(views, peer@);
    }
    let mut i: usize = 0;
    while i < peers.len()
        invariant
            i <= peers.len(),
            views == peer_views(peers@),
            forall|j: int| 0 <= j < i ==> views[j] != peer@,
            0 <= position(views, peer@) <= views.len(),
            position(views, peer@) < views.len() ==> views[position(views, peer@)] == peer@,
            forall|j: int| 0 <= j < position(views, peer@) ==> views[j] != peer@,
        decreases peers.len() - i,
    {
        if peers[i] == *peer {
            assert(views[i as int] == peer@);
            return i;
        }
        assert(views[i as int] != peer@);
        i += 1;
    }
    i
}

/// The peers of `peers`, each where it stands first.
pub fn distinct_peers(peers: &[PeerId]) -> (r: Vec<PeerId>)
    ensures
        peer_views(r@) == distinct(peer_views(peers@)),
{
    let ghost views = peer_views(peers@);
    let mut r: Vec<PeerId> = Vec::new();
    let mut i: usize = 0;
    proof {
        assert(views.take(0) =~= Seq::<PeerIdView>::empty());
        assert(peer_views(r@) =~= Seq::<PeerIdView>::empty());
    }
    while i < peers.len()
        invariant
            i <= peers.len(),
            views == peer_views(peers@),
            peer_views(r@) == distinct(views.take(i as int)),
        decreases peers.len() - i,
    {
        let ghost before = peer_views(r@);
        let at = position_of(r.as_slice(), &peers[i]);
        proof {
            lemma_position(before, views[i as int]);
            let next = views.take(i as int + 1);
            assert(next.drop_last() =~= views.take(i as int));
            assert(next.last() == views[i as int]);
        }
        if at >= r.len() {
            r.push(peers[i].clone());
            assert(peer_views(r@) =~= before.push(views[i as int]));
        }
        i += 1;
    }
    assert(views.take(views.len() as int) =~= views);
    r
}

/// Whether no peer occurs twice in `peers`.
pub fn all_distinct(peers: &[PeerId]) -> (r: bool)
    ensures
        r == peer_views(peers@).no_duplicates(),
{
    let ghost views = peer_views(peers@);
    let mut i: usize = 0;
    while i < peers.len()
        invariant
            i <= peers.len(),
            views == peer_views(peers@),
            forall|a: int, b: int| 0 <= a < b < i ==> views[a] != views[b],
        decreases peers.len() - i,
    {
        let p = position_of(peers, &peers[i]);
        proof {
            lemma_position(views, views[i as int]);
        }
        if p < i {
            assert(views[p as int] == views[i as int]);
            return false;
        }
        assert forall|a: int, b: int| 0 <= a < b < i + 1 implies views[a] != views[b] by {
            if b == i {
                assert(views[a] != views[i as int]);
            }
        }
        i += 1;
    }
    true
}

} // verus!
