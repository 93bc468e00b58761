//! The order of the peers for the current view, and the role that each
//! position of it gives.

use crate::bytes::{
    append_bytes, bytes_less, lemma_lex_irreflexive, lemma_lex_transitive, lex_lt,
};
use crate::crypto;
use crate::crypto::{hash, hash_of, PublicKey, Signature};
use crate::error::Error;
use crate::peer::{copy_peers, distinct_peers, peer_views, position_of, PeerId, PeerIdView};
use crate::seqs::{
    distinct, lemma_distinct, lemma_filter_empty, lemma_filter_take_step, lemma_position,
    position,
};
use crate::view_change::{Proof, ProofChain, ProofView};
use vstd::prelude::*;
use vstd::utf8::encode_utf8;

verus! {

/// What a peer does in a round.
#[derive(Clone, Copy, Debug, PartialEq, Eq, Structural, Hash)]
pub enum Role {
    /// Builds the candidate block.
    Leader,
    /// Revalidates the candidate block and signs it.
    ValidatingPeer,
    /// Collects the signatures and declares the commit.
    ProxyTail,
    /// Witnesses the commit.
    ObservingPeer,
    /// No part of the topology.
    OutsideTopology,
}

/// The role of the position `index` among `len` peers that tolerate
/// `max_faults` faults.
pub open spec fn role_at(index: int, len: int, max_faults: int) -> Role {
    if index < 0 || index >= len {
        Role::OutsideTopology
    } else if index == 0 {
        Role::Leader
    } else if index <= 2 * max_faults {
        Role::ValidatingPeer
    } else if index == 2 * max_faults + 1 {
        Role::ProxyTail
    } else {
        Role::ObservingPeer
    }
}

/// The role of `peer` in the order `peers`.
pub open spec fn role_of(peers: Seq<PeerIdView>, max_faults: int, peer: PeerIdView) -> Role {
    role_at(position(peers, peer), peers.len() as int, max_faults)
}

/// Whether `key` belongs to a peer of `peers` whose role is one of `roles`.
pub open spec fn key_has_role(
    peers: Seq<PeerIdView>,
    max_faults: int,
    roles: Seq<Role>,
    key: PublicKey,
) -> bool {
    exists|i: int|
        0 <= i < peers.len() && (#[trigger] peers[i]).public_key == key && roles.contains(
            role_at(i, peers.len() as int, max_faults),
        )
}

/// The signatures of `signatures` whose key belongs to a peer with one of `roles`.
pub open spec fn signatures_of_roles(
    peers: Seq<PeerIdView>,
    max_faults: int,
    roles: Seq<Role>,
    signatures: Seq<Signature>,
) -> Seq<Signature> {
    signatures.filter(|s: Signature| key_has_role(peers, max_faults, roles, s.public_key))
}

/// The key by which a peer is sorted: the hash of its public key followed by the seed.
pub open spec fn sort_key(public_key: PublicKey, seed: Seq<u8>) -> crypto::Hash {
    hash_of(public_key.0@ + seed)
}

/// Whether `a` is sorted strictly before `b`: by sort key, and among equal
/// sort keys by address.
pub open spec fn comes_before(a: PeerIdView, b: PeerIdView, seed: Seq<u8>) -> bool {
    let ka = sort_key(a.public_key, seed).0@;
    let kb = sort_key(b.public_key, seed).0@;
    lex_lt(ka, kb) || (ka == kb && lex_lt(encode_utf8(a.address), encode_utf8(b.address)))
}

/// Whether no peer of `peers` stands behind one that it is sorted before.
pub open spec fn in_order(peers: Seq<PeerIdView>, seed: Seq<u8>) -> bool {
    forall|i: int, j: int| 0 <= i < j < peers.len() ==> !comes_before(peers[j], peers[i], seed)
}

/// Whether `out` holds the peers of `input`, sorted by `seed`.
pub open spec fn arranged(out: Seq<PeerIdView>, input: Seq<PeerIdView>, seed: Seq<u8>) -> bool {
    out.to_multiset() == input.to_multiset() && in_order(out, seed)
}

/// The order `peers` with its first peer moved to the end.
pub open spec fn rotated(peers: Seq<PeerIdView>) -> Seq<PeerIdView> {
    if peers.len() == 0 {
        peers
    } else {
        peers.drop_first().push(peers[0])
    }
}

/// The seed of a reshuffle: the hash of the latest block hash followed by
/// the hash of the proof that causes it.
pub open spec fn reshuffle_seed(at_block: crypto::Hash, proof_hash: crypto::Hash) -> Seq<u8> {
    hash_of(at_block.0@ + proof_hash.0@).0@
}

/// Whether `after` is what the view change number `count` (counted from
/// one) makes of `before`: the rotation by one as long as `count` is at most
/// `reshuffle_after`, and else the order sorted by the reshuffle seed.
pub open spec fn view_changed(
    before: Seq<PeerIdView>,
    after: Seq<PeerIdView>,
    at_block: crypto::Hash,
    proof_hash: crypto::Hash,
    count: int,
    reshuffle_after: u64,
) -> bool {
    if count <= reshuffle_after {
        after == rotated(before)
    } else {
        arranged(after, before, reshuffle_seed(at_block, proof_hash))
    }
}

/// Whether `out` is what the view changes of `proofs`, applied in their
/// order, make of the order `start`.
pub open spec fn view_changes_applied(
    start: Seq<PeerIdView>,
    out: Seq<PeerIdView>,
    at_block: crypto::Hash,
    proofs: Seq<ProofView>,
    reshuffle_after: u64,
) -> bool
    decreases proofs.len(),
{
    if proofs.len() == 0 {
        out == start
    } else {
        exists|mid: Seq<PeerIdView>|
            view_changes_applied(start, mid, at_block, proofs.drop_last(), reshuffle_after)
                && #[trigger] view_changed(
                mid,
                out,
                at_block,
                proofs.last().hash(),
                proofs.len() as int,
                reshuffle_after,
            )
    }
}

/// Being sorted before is transitive.
pub proof fn lemma_comes_before_transitive(
    a: PeerIdView,
    b: PeerIdView,
    c: PeerIdView,
    seed: Seq<u8>,
)
    requires
        comes_before(a, b, seed),
        comes_before(b, c, seed),
    ensures
        comes_before(a, c, seed),
{
    let ka = sort_key(a.public_key, seed).0@;
    let kb = sort_key(b.public_key, seed).0@;
    let kc = sort_key(c.public_key, seed).0@;
    if lex_lt(ka, kb) && lex_lt(kb, kc) {
        lemma_lex_transitive(ka, kb, kc);
    } else if ka == kb && kb == kc {
        lemma_lex_transitive(
            encode_utf8(a.address),
            encode_utf8(b.address),
            encode_utf8(c.address),
        );
    }
}

/// No peer is sorted before itself.
pub proof fn lemma_comes_before_irreflexive(a: PeerIdView, seed: Seq<u8>)
    ensures
        !comes_before(a, a, seed),
{
    lemma_lex_irreflexive(sort_key(a.public_key, seed).0@);
    lemma_lex_irreflexive(encode_utf8(a.address));
}

/// The role that the position `index` gives.
pub fn role_at_index(index: usize, len: usize, max_faults: u32) -> (r: Role)
    ensures
        r == role_at(index as int, len as int, max_faults as int),
{
    let bound: u64 = 2 * (max_faults as u64);
    let at: u64 = index as u64;
    if index >= len {
        Role::OutsideTopology
    } else if index == 0 {
        Role::Leader
    } else if at <= bound {
        Role::ValidatingPeer
    } else if at == bound + 1 {
        Role::ProxyTail
    } else {
        Role::ObservingPeer
    }
}

/// Whether `role` is one of `roles`.
pub fn is_one_of(roles: &[Role], role: Role) -> (r: bool)
    ensures
        r == roles@.contains(role),
{
    let mut i: usize = 0;
    while i < roles.len()
        invariant
            i <= roles.len(),
            forall|j: int| 0 <= j < i ==> roles@[j] != role,
        decreases roles.len() - i,
    {
        if roles[i] == role {
            return true;
        }
        i += 1;
    }
    false
}

/// The sort key of `peer` under `seed`.
pub fn peer_sort_key(peer: &PeerId, seed: &[u8]) -> (h: crypto::Hash)
    ensures
        h == sort_key(peer@.public_key, seed@),
{
    let mut bytes: Vec<u8> = Vec::new();
    append_bytes(&mut bytes, peer.public_key.0.as_slice());
    append_bytes(&mut bytes, seed);
    assert(bytes@ =~= peer@.public_key.0@ + seed@);
    hash(bytes)
}

/// Whether `a` is sorted strictly before `b` under `seed`.
pub fn peer_comes_before(a: &PeerId, b: &PeerId, seed: &[u8]) -> (r: bool)
    ensures
        r == comes_before(a@, b@, seed@),
{
    let ka = peer_sort_key(a, seed);
    let kb = peer_sort_key(b, seed);
    if bytes_less(ka.0.as_slice(), kb.0.as_slice()) {
        true
    } else if ka == kb {
        bytes_less(a.address.as_str().as_bytes(), b.address.as_str().as_bytes())
    } else {
        assert(ka.0@ != kb.0@) by {
            if ka.0@ == kb.0@ {
                assert(ka.0 =~= kb.0);
            }
        }
        false
    }
}

/// Sorts `peers` by `seed`. Peers that the order does not tell apart keep
/// the order in which they were given.
pub fn sort_peers(peers: &[PeerId], seed: &[u8]) -> (out: Vec<PeerId>)
    ensures
        arranged(peer_views(out@), peer_views(peers@), seed@),
{
    let ghost input = peer_views(peers@);
    let mut out: Vec<PeerId> = Vec::new();
    let mut i: usize = 0;
    proof {
        assert(peer_views(out@) =~= Seq::<PeerIdView>::empty());
        assert(input.take(0) =~= Seq::<PeerIdView>::empty());
    }
    while i < peers.len()
        invariant
            i <= peers.len(),
            input == peer_views(peers@),
            out@.len() == i,
            peer_views(out@).to_multiset() == input.take(i as int).to_multiset(),
            in_order(peer_views(out@), seed@),
        decreases peers.len() - i,
    {
        let peer = peers[i].clone();
        let ghost before = peer_views(out@);
        let mut j: usize = 0;
        while j < out.len() && !peer_comes_before(&peer, &out[j], seed)
            invariant
                j <= out.len(),
                before == peer_views(out@),
                forall|k: int| 0 <= k < j ==> !comes_before(peer@, before[k], seed@),
            decreases out.len() - j,
        {
            j += 1;
        }
        out.insert(j, peer);
        proof {
            let after = peer_views(out@);
            let x = input[i as int];
            assert(after =~= before.insert(j as int, x));
            vstd::seq_lib::to_multiset_insert(before, j as int, x);
            assert(input.take(i as int + 1) =~= input.take(i as int).push(x));
            vstd::seq_lib::to_multiset_build(input.take(i as int), x);
            assert forall|a: int, b: int| 0 <= a < b < after.len() implies !comes_before(
                after[b],
                after[a],
                seed@,
            ) by {
                if b == j {
                    assert(after[a] == before[a]);
                } else if a == j {
                    assert(after[b] == before[b - 1]);
                    assert(comes_before(x, before[j as int], seed@));
                    if comes_before(before[b - 1], x, seed@) {
                        lemma_comes_before_transitive(before[b - 1], x, before[j as int], seed@);
                        if b - 1 == j {
                            lemma_comes_before_irreflexive(before[j as int], seed@);
                        }
                    }
                } else {
                    let a0 = if a < j { a } else { a - 1 };
                    let b0 = if b < j { b } else { b - 1 };
                    assert(after[a] == before[a0]);
                    assert(after[b] == before[b0]);
                }
            }
        }
        i += 1;
    }
    assert(input.take(peers.len() as int) =~= input);
    out
}

/// Whether the order tells any two different peers of `peers` apart: they
/// differ in their sort key or in the bytes of their address.
pub open spec fn told_apart(peers: Seq<PeerIdView>, seed: Seq<u8>) -> bool {
    forall|i: int, j: int|
        0 <= i < peers.len() && 0 <= j < peers.len() && peers[i] != peers[j] ==> sort_key(
            peers[i].public_key,
            seed,
        ) != sort_key(peers[j].public_key, seed) || encode_utf8(peers[i].address) != encode_utf8(
            peers[j].address,
        )
}

/// Of two peers that the order tells apart, one is sorted before the other.
proof fn lemma_one_comes_first(a: PeerIdView, b: PeerIdView, seed: Seq<u8>)
    requires
        sort_key(a.public_key, seed) != sort_key(b.public_key, seed) || encode_utf8(a.address)
            != encode_utf8(b.address),
    ensures
        comes_before(a, b, seed) || comes_before(b, a, seed),
{
    let ka = sort_key(a.public_key, seed);
    let kb = sort_key(b.public_key, seed);
    crate::bytes::lemma_lex_total(ka.0@, kb.0@);
    crate::bytes::lemma_lex_total(encode_utf8(a.address), encode_utf8(b.address));
    if ka.0@ == kb.0@ {
        assert(ka.0 =~= kb.0);
    }
}

/// The order of the peers is determined by the peers and the seed alone:
/// two sorted orders of the same peers are the same order, provided that
/// the order tells any two different peers apart. So all peers that know the
/// same peers and the same seed derive the same roles.
pub proof fn lemma_arrangement_unique(
    a: Seq<PeerIdView>,
    b: Seq<PeerIdView>,
    input: Seq<PeerIdView>,
    seed: Seq<u8>,
)
    requires
        arranged(a, input, seed),
        arranged(b, input, seed),
        told_apart(input, seed),
    ensures
        a == b,
    decreases a.len(),
{
    broadcast use vstd::seq_lib::group_to_multiset_ensures;

    vstd::seq_lib::to_multiset_len(a);
    vstd::seq_lib::to_multiset_len(b);
    vstd::seq_lib::to_multiset_len(input);
    if a.len() == 0 {
        assert(a =~= b);
    } else {
        // The first peer of either order stands somewhere in the other.
        let x = a[0];
        let y = b[0];
        assert(a.contains(x));
        assert(b.contains(y));
        vstd::seq_lib::to_multiset_contains(a, x);
        vstd::seq_lib::to_multiset_contains(b, x);
        vstd::seq_lib::to_multiset_contains(a, y);
        vstd::seq_lib::to_multiset_contains(b, y);
        vstd::seq_lib::to_multiset_contains(input, x);
        vstd::seq_lib::to_multiset_contains(input, y);
        let kx = choose|k: int| 0 <= k < b.len() && b[k] == x;
        let ky = choose|k: int| 0 <= k < a.len() && a[k] == y;
        if x != y {
            let ix = choose|k: int| 0 <= k < input.len() && input[k] == x;
            let iy = choose|k: int| 0 <= k < input.len() && input[k] == y;
            lemma_one_comes_first(x, y, seed);
            if comes_before(x, y, seed) {
                assert(!comes_before(b[kx], b[0], seed));
            } else {
                assert(!comes_before(a[ky], a[0], seed));
            }
        }
        let ra = a.drop_first();
        let rb = b.drop_first();
        assert(ra =~= a.remove(0));
        assert(rb =~= b.remove(0));
        vstd::seq_lib::to_multiset_remove(a, 0);
        vstd::seq_lib::to_multiset_remove(b, 0);
        assert(in_order(ra, seed)) by {
            assert forall|i: int, j: int| 0 <= i < j < ra.len() implies !comes_before(
                ra[j],
                ra[i],
                seed,
            ) by {
                assert(ra[i] == a[i + 1]);
                assert(ra[j] == a[j + 1]);
            }
        }
        assert(in_order(rb, seed)) by {
            assert forall|i: int, j: int| 0 <= i < j < rb.len() implies !comes_before(
                rb[j],
                rb[i],
                seed,
            ) by {
                assert(rb[i] == b[i + 1]);
                assert(rb[j] == b[j + 1]);
            }
        }
        assert(told_apart(ra, seed)) by {
            assert forall|i: int, j: int|
                0 <= i < ra.len() && 0 <= j < ra.len() && ra[i] != ra[j] implies sort_key(
                ra[i].public_key,
                seed,
            ) != sort_key(ra[j].public_key, seed) || encode_utf8(ra[i].address) != encode_utf8(
                ra[j].address,
            ) by {
                assert(a.contains(a[i + 1]));
                assert(a.contains(a[j + 1]));
                vstd::seq_lib::to_multiset_contains(a, a[i + 1]);
                vstd::seq_lib::to_multiset_contains(input, a[i + 1]);
                vstd::seq_lib::to_multiset_contains(a, a[j + 1]);
                vstd::seq_lib::to_multiset_contains(input, a[j + 1]);
                let ii = choose|k: int| 0 <= k < input.len() && input[k] == a[i + 1];
                let jj = choose|k: int| 0 <= k < input.len() && input[k] == a[j + 1];
                assert(input[ii] != input[jj]);
            }
        }
        lemma_arrangement_unique(ra, rb, ra, seed);
        assert(a =~= seq![x] + ra);
        assert(b =~= seq![y] + rb);
    }
}

/// A rearrangement of peers among which none occurs twice has as many
/// peers, and none occurs twice in it.
pub proof fn lemma_rearranged_distinct(out: Seq<PeerIdView>, input: Seq<PeerIdView>)
    requires
        out.to_multiset() == input.to_multiset(),
        input.no_duplicates(),
    ensures
        out.no_duplicates(),
        out.len() == input.len(),
{
    vstd::seq_lib::to_multiset_len(out);
    vstd::seq_lib::to_multiset_len(input);
    input.lemma_multiset_has_no_duplicates();
    out.lemma_multiset_has_no_duplicates_conv();
}

/// The rotation of an order holds the same peers.
pub proof fn lemma_rotated_same_peers(peers: Seq<PeerIdView>)
    ensures
        rotated(peers).to_multiset() == peers.to_multiset(),
{
    if peers.len() > 0 {
        assert(peers.drop_first() =~= peers.remove(0));
        vstd::seq_lib::to_multiset_remove(peers, 0);
        vstd::seq_lib::to_multiset_build(peers.drop_first(), peers[0]);
        vstd::seq_lib::to_multiset_contains(peers, peers[0]);
        assert(peers.contains(peers[0]));
        assert(rotated(peers).to_multiset() =~= peers.to_multiset());
    }
}

/// The positions of an order of `len` peers that give `role`.
pub open spec fn positions_with(len: int, max_faults: int, role: Role) -> Set<int> {
    Set::new(|i: int| 0 <= i < len && role_at(i, len, max_faults) == role)
}

/// Among at least `3f + 1` peers, and more than `2f + 1`, exactly one
/// position is the leader, exactly one is the proxy tail, and exactly `2f`
/// are validating peers.
pub proof fn lemma_role_counts(len: int, max_faults: int)
    requires
        max_faults >= 0,
        len >= 3 * max_faults + 1,
        len > 2 * max_faults + 1,
    ensures
        positions_with(len, max_faults, Role::Leader) == set![0int],
        positions_with(len, max_faults, Role::ProxyTail) == set![2 * max_faults + 1],
        positions_with(len, max_faults, Role::ValidatingPeer) == vstd::set_lib::set_int_range(
            1,
            2 * max_faults + 1,
        ),
        positions_with(len, max_faults, Role::Leader).len() == 1,
        positions_with(len, max_faults, Role::ProxyTail).len() == 1,
        positions_with(len, max_faults, Role::ValidatingPeer).len() == 2 * max_faults,
{
    assert(positions_with(len, max_faults, Role::Leader) =~= set![0int]);
    assert(positions_with(len, max_faults, Role::ProxyTail) =~= set![2 * max_faults + 1]);
    assert(positions_with(len, max_faults, Role::ValidatingPeer)
        =~= vstd::set_lib::set_int_range(1, 2 * max_faults + 1));
    vstd::set_lib::lemma_int_range(1, 2 * max_faults + 1);
}

/// The order of the peers for the current view.
#[derive(Debug)]
pub struct Topology {
    sorted_peers: Vec<PeerId>,
    max_faults: u32,
    reshuffle_after_n_view_changes: u64,
    at_block: crypto::Hash,
    view_change_proofs: ProofChain,
}

/// What a `Topology` stands for in contracts.
pub struct TopologyView {
    /// The peers in the order that gives them their roles.
    pub sorted_peers: Seq<PeerIdView>,
    /// How many faulty peers the network tolerates.
    pub max_faults: u32,
    /// After how many view changes a view change reshuffles instead of rotating.
    pub reshuffle_after: u64,
    /// The hash of the latest committed block.
    pub at_block: crypto::Hash,
    /// The proofs of the view changes since that block.
    pub view_change_proofs: Seq<ProofView>,
}

impl TopologyView {
    /// The invariant of a topology: enough peers for its faults, no peer
    /// twice, and well-formed proofs.
    pub open spec fn wf(self) -> bool {
        &&& self.sorted_peers.len() >= 3 * self.max_faults + 1
        &&& self.sorted_peers.no_duplicates()
        &&& forall|i: int|
            0 <= i < self.view_change_proofs.len() ==> crate::signatures::distinct_keys(
                (#[trigger] self.view_change_proofs[i]).signatures,
            )
    }

    /// The role of `peer`.
    pub open spec fn role(self, peer: PeerIdView) -> Role {
        role_of(self.sorted_peers, self.max_faults as int, peer)
    }

    /// The signatures of `signatures` whose key belongs to a peer with one of `roles`.
    pub open spec fn signatures_of_roles(
        self,
        roles: Seq<Role>,
        signatures: Seq<Signature>,
    ) -> Seq<Signature> {
        signatures_of_roles(self.sorted_peers, self.max_faults as int, roles, signatures)
    }

    /// Whether `self` is what `before` becomes at the block with hash
    /// `block_hash`: the same peers sorted by that hash, no view changes.
    pub open spec fn moved_to_block(self, before: TopologyView, block_hash: crypto::Hash) -> bool {
        &&& self.at_block == block_hash
        &&& self.view_change_proofs == Seq::<ProofView>::empty()
        &&& arranged(self.sorted_peers, before.sorted_peers, block_hash.0@)
        &&& self.max_faults == before.max_faults
        &&& self.reshuffle_after == before.reshuffle_after
    }

    /// Whether `self` is what `before` becomes by the view change that
    /// `proof` stands for.
    pub open spec fn changed_view(self, before: TopologyView, proof: ProofView) -> bool {
        &&& self.view_change_proofs == before.view_change_proofs.push(proof)
        &&& view_changed(
            before.sorted_peers,
            self.sorted_peers,
            before.at_block,
            proof.hash(),
            before.view_change_proofs.len() as int + 1,
            before.reshuffle_after,
        )
        &&& self.max_faults == before.max_faults
        &&& self.reshuffle_after == before.reshuffle_after
        &&& self.at_block == before.at_block
    }

    /// The hash of the latest view change, or the zero hash.
    pub open spec fn latest_view_change_hash(self) -> crypto::Hash {
        crate::view_change::chain_latest_hash(self.view_change_proofs)
    }

    /// The leader.
    pub open spec fn leader(self) -> PeerIdView {
        self.sorted_peers[0]
    }

    /// Where the proxy tail stands.
    pub open spec fn proxy_tail_index(self) -> int {
        2 * self.max_faults + 1
    }
}

/// In a well-formed topology each peer has the role of the position at
/// which it stands; with more than `2f + 1` peers exactly one position is
/// the leader, exactly one the proxy tail, and exactly `2f` are validating
/// peers.
pub proof fn lemma_topology_roles(t: TopologyView)
    requires
        t.wf(),
    ensures
        forall|i: int|
            0 <= i < t.sorted_peers.len() ==> t.role(#[trigger] t.sorted_peers[i]) == role_at(
                i,
                t.sorted_peers.len() as int,
                t.max_faults as int,
            ),
        t.sorted_peers.len() > 2 * t.max_faults + 1 ==> {
            &&& positions_with(
                t.sorted_peers.len() as int,
                t.max_faults as int,
                Role::Leader,
            ).len() == 1
            &&& positions_with(
                t.sorted_peers.len() as int,
                t.max_faults as int,
                Role::ProxyTail,
            ).len() == 1
            &&& positions_with(
                t.sorted_peers.len() as int,
                t.max_faults as int,
                Role::ValidatingPeer,
            ).len() == 2 * t.max_faults
        },
{
    assert forall|i: int| 0 <= i < t.sorted_peers.len() implies t.role(
        #[trigger] t.sorted_peers[i],
    ) == role_at(i, t.sorted_peers.len() as int, t.max_faults as int) by {
        crate::seqs::lemma_position_unique(t.sorted_peers, i);
    }
    if t.sorted_peers.len() > 2 * t.max_faults + 1 {
        lemma_role_counts(t.sorted_peers.len() as int, t.max_faults as int);
    }
}

impl View for Topology {
    type V = TopologyView;

    closed spec fn view(&self) -> TopologyView {
        TopologyView {
            sorted_peers: peer_views(self.sorted_peers@),
            max_faults: self.max_faults,
            reshuffle_after: self.reshuffle_after_n_view_changes,
            at_block: self.at_block,
            view_change_proofs: self.view_change_proofs@,
        }
    }
}

impl Clone for Topology {
    fn clone(&self) -> (r: Self)
        ensures
            r@ == self@,
    {
        Topology {
            sorted_peers: copy_peers(self.sorted_peers.as_slice()),
            max_faults: self.max_faults,
            reshuffle_after_n_view_changes: self.reshuffle_after_n_view_changes,
            at_block: self.at_block,
            view_change_proofs: self.view_change_proofs.clone(),
        }
    }
}

impl Topology {
    /// The invariant of a topology.
    pub open spec fn wf(&self) -> bool {
        self@.wf()
    }

    /// Whether `t` is what `peers` make at `at_block` once the view changes
    /// of `proofs` are applied: sorted by the block hash, then changed by
    /// each proof in turn.
    pub open spec fn built_from(
        t: TopologyView,
        peers: Seq<PeerIdView>,
        max_faults: u32,
        at_block: crypto::Hash,
        reshuffle_after: u64,
        proofs: Seq<ProofView>,
    ) -> bool {
        &&& t.max_faults == max_faults
        &&& t.at_block == at_block
        &&& t.reshuffle_after == reshuffle_after
        &&& t.view_change_proofs == proofs
        &&& exists|start: Seq<PeerIdView>| #[trigger]
            arranged(start, peers, at_block.0@) && view_changes_applied(
                start,
                t.sorted_peers,
                at_block,
                proofs,
                reshuffle_after,
            )
    }

    fn build(
        peers: &[PeerId],
        max_faults: u32,
        at_block: crypto::Hash,
        reshuffle_after: u64,
        proofs: &ProofChain,
    ) -> (r: Result<Topology, Error>)
        requires
            proofs.wf(),
        ensures
            distinct(peer_views(peers@)).len() < 3 * max_faults + 1 ==> r is Err && r->Err_0
                == Error::TooFewPeers,
            distinct(peer_views(peers@)).len() >= 3 * max_faults + 1 ==> r is Ok && r->Ok_0.wf()
                && Topology::built_from(
                r->Ok_0@,
                distinct(peer_views(peers@)),
                max_faults,
                at_block,
                reshuffle_after,
                proofs@,
            ),
    {
        let ghost given = peer_views(peers@);
        let peers = distinct_peers(peers);
        proof {
            lemma_distinct(given);
        }
        let min_peers: u64 = 3 * (max_faults as u64) + 1;
        if (peers.len() as u64) < min_peers {
            return Err(Error::TooFewPeers);
        }
        let sorted = sort_peers(peers.as_slice(), at_block.0.as_slice());
        let ghost start = peer_views(sorted@);
        proof {
            lemma_rearranged_distinct(start, peer_views(peers@));
        }
        let mut topology = Topology {
            sorted_peers: sorted,
            max_faults,
            reshuffle_after_n_view_changes: reshuffle_after,
            at_block,
            view_change_proofs: ProofChain::empty(),
        };
        let mut i: usize = 0;
        proof {
            assert(proofs@.take(0) =~= Seq::<ProofView>::empty());
        }
        while i < proofs.len()
            invariant
                i <= proofs@.len(),
                proofs.wf(),
                topology.wf(),
                topology@.max_faults == max_faults,
                topology@.at_block == at_block,
                topology@.reshuffle_after == reshuffle_after,
                topology@.view_change_proofs == proofs@.take(i as int),
                arranged(start, distinct(given), at_block.0@),
                view_changes_applied(
                    start,
                    topology@.sorted_peers,
                    at_block,
                    proofs@.take(i as int),
                    reshuffle_after,
                ),
            decreases proofs@.len() - i,
        {
            let ghost before = topology@.sorted_peers;
            let proof = proofs.get(i).clone();
            assert(proof@ == proofs@[i as int]);
            topology.apply_view_change(proof);
            proof {
                let next = proofs@.take(i as int + 1);
                assert(next.drop_last() =~= proofs@.take(i as int));
                assert(next =~= proofs@.take(i as int).push(proofs@[i as int]));
                assert(view_changed(
                    before,
                    topology@.sorted_peers,
                    at_block,
                    next.last().hash(),
                    next.len() as int,
                    reshuffle_after,
                ));
            }
            i += 1;
        }
        assert(proofs@.take(proofs@.len() as int) =~= proofs@);
        Ok(topology)
    }

    /// The topology of `peers` at the block `at_block`, before any view
    /// change. A peer that is named more than once counts once.
    ///
    /// Fails with `TooFewPeers` when there are fewer than `3f + 1` peers.
    pub fn new(
        peers: &[PeerId],
        max_faults: u32,
        at_block: crypto::Hash,
        reshuffle_after: u64,
    ) -> (r: Result<Topology, Error>)
        ensures
            distinct(peer_views(peers@)).len() < 3 * max_faults + 1 ==> r is Err && r->Err_0
                == Error::TooFewPeers,
            distinct(peer_views(peers@)).len() >= 3 * max_faults + 1 ==> r is Ok && r->Ok_0.wf()
                && Topology::built_from(
                r->Ok_0@,
                distinct(peer_views(peers@)),
                max_faults,
                at_block,
                reshuffle_after,
                Seq::<ProofView>::empty(),
            ),
    {
        let proofs = ProofChain::empty();
        Topology::build(peers, max_faults, at_block, reshuffle_after, &proofs)
    }

    /// This topology with `peers` in place of its own: built anew at the
    /// same block, with the same view changes applied. A peer that is named
    /// more than once counts once.
    ///
    /// Fails with `TooFewPeers` when there are fewer than `3f + 1` peers.
    pub fn with_peers(&self, peers: &[PeerId]) -> (r: Result<Topology, Error>)
        requires
            self.wf(),
        ensures
            distinct(peer_views(peers@)).len() < 3 * self@.max_faults + 1 ==> r is Err
                && r->Err_0 == Error::TooFewPeers,
            distinct(peer_views(peers@)).len() >= 3 * self@.max_faults + 1 ==> r is Ok
                && r->Ok_0.wf() && Topology::built_from(
                r->Ok_0@,
                distinct(peer_views(peers@)),
                self@.max_faults,
                self@.at_block,
                self@.reshuffle_after,
                self@.view_change_proofs,
            ),
    {
        Topology::build(
            peers,
            self.max_faults,
            self.at_block,
            self.reshuffle_after_n_view_changes,
            &self.view_change_proofs,
        )
    }

    /// This topology with the view changes of `proofs` in place of its own:
    /// built anew from its peers at the same block.
    pub fn with_view_changes(&self, proofs: &ProofChain) -> (r: Topology)
        requires
            self.wf(),
            proofs.wf(),
        ensures
            r.wf(),
            Topology::built_from(
                r@,
                self@.sorted_peers,
                self@.max_faults,
                self@.at_block,
                self@.reshuffle_after,
                proofs@,
            ),
    {
        proof {
            lemma_distinct(self@.sorted_peers);
        }
        let built = Topology::build(
            self.sorted_peers.as_slice(),
            self.max_faults,
            self.at_block,
            self.reshuffle_after_n_view_changes,
            proofs,
        );
        match built {
            Ok(topology) => topology,
            Err(_) => self.clone(),
        }
    }

    /// Moves the topology to the block with hash `block_hash`: the peers are
    /// sorted anew with that hash as the seed and the view changes are forgotten.
    pub fn apply_block(&mut self, block_hash: crypto::Hash)
        requires
            old(self).wf(),
        ensures
            final(self).wf(),
            final(self)@.moved_to_block(old(self)@, block_hash),
            final(self)@.at_block == block_hash,
            final(self)@.view_change_proofs == Seq::<ProofView>::empty(),
            arranged(final(self)@.sorted_peers, old(self)@.sorted_peers, block_hash.0@),
            final(self)@.max_faults == old(self)@.max_faults,
            final(self)@.reshuffle_after == old(self)@.reshuffle_after,
    {
        let sorted = sort_peers(self.sorted_peers.as_slice(), block_hash.0.as_slice());
        proof {
            lemma_rearranged_distinct(peer_views(sorted@), peer_views(self.sorted_peers@));
        }
        self.sorted_peers = sorted;
        self.at_block = block_hash;
        self.view_change_proofs = ProofChain::empty();
    }

    /// Records the view change that `proof` stands for. As long as no more
    /// than `reshuffle_after` view changes took place since the last block,
    /// the first peer moves to the end; after that the peers are sorted anew,
    /// seeded by the hash of the latest block hash and the hash of `proof`.
    ///
    /// Whether `proof` is valid is for the caller to check.
    pub fn apply_view_change(&mut self, proof: Proof)
        requires
            old(self).wf(),
            proof.wf(),
        ensures
            final(self).wf(),
            final(self)@.changed_view(old(self)@, proof@),
            final(self)@.view_change_proofs == old(self)@.view_change_proofs.push(proof@),
            view_changed(
                old(self)@.sorted_peers,
                final(self)@.sorted_peers,
                old(self)@.at_block,
                proof@.hash(),
                old(self)@.view_change_proofs.len() as int + 1,
                old(self)@.reshuffle_after,
            ),
            final(self)@.max_faults == old(self)@.max_faults,
            final(self)@.reshuffle_after == old(self)@.reshuffle_after,
            final(self)@.at_block == old(self)@.at_block,
    {
        let proof_hash = proof.hash();
        self.view_change_proofs.push(proof);
        let ghost before = peer_views(self.sorted_peers@);
        if (self.view_change_proofs.len() as u64) <= self.reshuffle_after_n_view_changes {
            let first = self.sorted_peers.remove(0);
            self.sorted_peers.push(first);
            proof {
                assert(peer_views(self.sorted_peers@) =~= rotated(before));
                lemma_rotated_same_peers(before);
                lemma_rearranged_distinct(rotated(before), before);
            }
        } else {
            let mut bytes: Vec<u8> = Vec::new();
            append_bytes(&mut bytes, self.at_block.0.as_slice());
            append_bytes(&mut bytes, proof_hash.0.as_slice());
            assert(bytes@ =~= self.at_block.0@ + proof_hash.0@);
            let seed = hash(bytes);
            let sorted = sort_peers(self.sorted_peers.as_slice(), seed.0.as_slice());
            proof {
                lemma_rearranged_distinct(peer_views(sorted@), before);
            }
            self.sorted_peers = sorted;
        }
    }

    /// The role of `peer`.
    pub fn role(&self, peer: &PeerId) -> (r: Role)
        ensures
            r == self@.role(peer@),
    {
        let i = position_of(self.sorted_peers.as_slice(), peer);
        role_at_index(i, self.sorted_peers.len(), self.max_faults)
    }

    /// The leader of the view.
    pub fn leader(&self) -> (r: &PeerId)
        requires
            self.wf(),
        ensures
            r@ == self@.sorted_peers[0],
    {
        &self.sorted_peers[0]
    }

    /// The proxy tail of the view, if the topology has a peer at its place.
    pub fn proxy_tail(&self) -> (r: Option<&PeerId>)
        ensures
            self@.proxy_tail_index() < self@.sorted_peers.len() ==> r is Some && r->Some_0@
                == self@.sorted_peers[self@.proxy_tail_index()],
            self@.proxy_tail_index() >= self@.sorted_peers.len() ==> r is None,
    {
        let at: u64 = 2 * (self.max_faults as u64) + 1;
        if at < self.sorted_peers.len() as u64 {
            Some(&self.sorted_peers[at as usize])
        } else {
            None
        }
    }

    fn copy_range(&self, from: usize, to: usize) -> (r: Vec<PeerId>)
        requires
            from <= to <= self.sorted_peers@.len(),
        ensures
            peer_views(r@) == self@.sorted_peers.subrange(from as int, to as int),
            r@.len() == to - from,
    {
        let mut r: Vec<PeerId> = Vec::new();
        let mut i: usize = from;
        while i < to
            invariant
                from <= i <= to,
                to <= self.sorted_peers@.len(),
                r@.len() == i - from,
                forall|j: int| 0 <= j < i - from ==> r@[j]@ == self.sorted_peers@[from + j]@,
            decreases to - i,
        {
            r.push(self.sorted_peers[i].clone());
            i += 1;
        }
        assert(peer_views(r@) =~= self@.sorted_peers.subrange(from as int, to as int));
        r
    }

    /// The validating peers of the view: the `2f` peers behind the leader.
    pub fn validating_peers(&self) -> (r: Vec<PeerId>)
        requires
            self.wf(),
        ensures
            peer_views(r@) == self@.sorted_peers.subrange(1, 2 * self@.max_faults + 1),
            r@.len() == 2 * self@.max_faults,
    {
        let len = self.sorted_peers.len();
        assert(self@.sorted_peers.len() == len);
        let faults: usize = self.max_faults as usize;
        let to: usize = 2 * faults + 1;
        self.copy_range(1, to)
    }

    /// The observing peers of the view: those behind the proxy tail.
    pub fn peers_set_b(&self) -> (r: Vec<PeerId>)
        requires
            self.wf(),
        ensures
            self@.sorted_peers.len() > 2 * self@.max_faults + 2 ==> peer_views(r@)
                == self@.sorted_peers.subrange(
                2 * self@.max_faults + 2,
                self@.sorted_peers.len() as int,
            ),
            self@.sorted_peers.len() <= 2 * self@.max_faults + 2 ==> r@.len() == 0,
    {
        let from: u64 = 2 * (self.max_faults as u64) + 2;
        let len = self.sorted_peers.len();
        if from < len as u64 {
            self.copy_range(from as usize, len)
        } else {
            Vec::new()
        }
    }

    /// The peers in the order that gives them their roles.
    pub fn sorted_peers(&self) -> (r: &[PeerId])
        ensures
            peer_views(r@) == self@.sorted_peers,
    {
        self.sorted_peers.as_slice()
    }

    /// How many faulty peers the network tolerates.
    pub fn max_faults(&self) -> (r: u32)
        ensures
            r == self@.max_faults,
    {
        self.max_faults
    }

    /// After how many view changes a view change reshuffles instead of rotating.
    pub fn reshuffle_after(&self) -> (r: u64)
        ensures
            r == self@.reshuffle_after,
    {
        self.reshuffle_after_n_view_changes
    }

    /// The hash of the latest committed block.
    pub fn at_block(&self) -> (r: crypto::Hash)
        ensures
            r == self@.at_block,
    {
        self.at_block
    }

    /// The proofs of the view changes since the latest committed block.
    pub fn view_change_proofs(&self) -> (r: &ProofChain)
        ensures
            r@ == self@.view_change_proofs,
            self.wf() ==> r.wf(),
    {
        &self.view_change_proofs
    }

    /// How many signatures a block needs to be committed: `2f + 1`.
    pub fn min_votes_for_commit(&self) -> (r: u64)
        ensures
            r == 2 * self@.max_faults + 1,
    {
        2 * (self.max_faults as u64) + 1
    }

    /// Whether there is more than one peer, so that a block needs votes.
    pub fn is_consensus_required(&self) -> (r: bool)
        ensures
            r == (self@.sorted_peers.len() > 1),
    {
        self.sorted_peers.len() > 1
    }

    /// Whether `key` belongs to a peer that holds one of `roles`.
    pub fn has_role(&self, roles: &[Role], key: &PublicKey) -> (r: bool)
        ensures
            r == key_has_role(self@.sorted_peers, self@.max_faults as int, roles@, *key),
    {
        let ghost views = peer_views(self.sorted_peers@);
        let len = self.sorted_peers.len();
        let mut i: usize = 0;
        while i < len
            invariant
                i <= len,
                len == self.sorted_peers@.len(),
                views == peer_views(self.sorted_peers@),
                forall|j: int|
                    0 <= j < i ==> !((#[trigger] views[j]).public_key == *key && roles@.contains(
                        role_at(j, len as int, self.max_faults as int),
                    )),
            decreases len - i,
        {
            if self.sorted_peers[i].public_key == *key && is_one_of(
                roles,
                role_at_index(i, len, self.max_faults),
            ) {
                assert(views[i as int].public_key == *key);
                return true;
            }
            i += 1;
        }
        false
    }

    /// The signatures of `signatures` whose key belongs to a peer that holds
    /// one of `roles`, in their order.
    pub fn filter_signatures_by_roles(&self, roles: &[Role], signatures: &[Signature]) -> (r: Vec<
        Signature,
    >)
        ensures
            r@ == self@.signatures_of_roles(roles@, signatures@),
    {
        let ghost keep = |s: Signature|
            key_has_role(self@.sorted_peers, self@.max_faults as int, roles@, s.public_key);
        let mut r: Vec<Signature> = Vec::new();
        let mut i: usize = 0;
        proof {
            assert(signatures@.take(0) =~= Seq::<Signature>::empty());
            lemma_filter_empty(keep);
        }
        while i < signatures.len()
            invariant
                i <= signatures.len(),
                keep == |s: Signature|
                    key_has_role(self@.sorted_peers, self@.max_faults as int, roles@, s.public_key),
                r@ == signatures@.take(i as int).filter(keep),
            decreases signatures.len() - i,
        {
            proof {
                lemma_filter_take_step(signatures@, i as int, keep);
            }
            let s = signatures[i];
            if self.has_role(roles, &s.public_key) {
                r.push(s);
            }
            i += 1;
        }
        assert(signatures@.take(signatures@.len() as int) =~= signatures@);
        r
    }

    /// Checks that the signer of `signature` holds `role` and that the
    /// signature verifies for `payload`.
    ///
    /// Fails with `RoleMismatch` when no peer with that role has the key of
    /// the signature, and else with `InvalidSignature` when the signature
    /// does not verify.
    pub fn verify_signature_with_role(
        &self,
        signature: &Signature,
        role: Role,
        payload: &[u8],
    ) -> (r: Result<(), Error>)
        ensures
            !key_has_role(
                self@.sorted_peers,
                self@.max_faults as int,
                seq![role],
                signature.public_key,
            ) ==> r == Err::<(), Error>(Error::RoleMismatch),
            key_has_role(
                self@.sorted_peers,
                self@.max_faults as int,
                seq![role],
                signature.public_key,
            ) && !signature.valid_for(payload@) ==> r == Err::<(), Error>(Error::InvalidSignature),
            key_has_role(
                self@.sorted_peers,
                self@.max_faults as int,
                seq![role],
                signature.public_key,
            ) && signature.valid_for(payload@) ==> r == Ok::<(), Error>(()),
    {
        let roles = [role];
        assert(roles@ =~= seq![role]);
        if !self.has_role(roles.as_slice(), &signature.public_key) {
            Err(Error::RoleMismatch)
        } else if !signature.verify(payload) {
            Err(Error::InvalidSignature)
        } else {
            Ok(())
        }
    }
}

} // verus!
