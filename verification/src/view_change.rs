//! Proofs that a view change is due, and the chain of those that were
//! accepted since the last block was committed.

use crate::bytes::{append_bytes, encode_u128, encoded_u128};
use crate::crypto;
use crate::crypto::{hash, hash_of, KeyPair, PublicKey, Signature};
use crate::peer::{peer_keys, peer_views, PeerId, PeerIdView};
use crate::signatures::{distinct_keys, with_signature, Signatures};
use vstd::prelude::*;

verus! {

/// What a leader hands back for a transaction that was forwarded to it.
#[derive(Clone, Copy, Debug)]
pub struct TransactionReceipt {
    /// The hash of the transaction that the leader received.
    pub transaction_hash: crypto::Hash,
    /// When the leader claims to have received it, in milliseconds since the epoch.
    pub received_at: u128,
    /// The signature of the leader over the transaction hash.
    pub signature: Signature,
}

/// The proxy tail did not commit a signed block in time.
#[derive(Clone, Copy, Debug)]
pub struct CommitTimeout {
    /// The hash of the block that was being voted on.
    pub voting_block_hash: crypto::Hash,
}

/// The leader did not acknowledge a forwarded transaction in time.
#[derive(Clone, Copy, Debug)]
pub struct NoTransactionReceiptReceived {
    /// The hash of the transaction that went unacknowledged.
    pub transaction_hash: crypto::Hash,
}

/// The leader acknowledged a transaction and then created no block in time.
#[derive(Clone, Copy, Debug)]
pub struct BlockCreationTimeout {
    /// The receipt by which the leader acknowledged the transaction.
    pub transaction_receipt: TransactionReceipt,
}

/// Why a view change is asked for.
#[derive(Clone, Copy, Debug)]
pub enum Reason {
    /// The proxy tail is accused.
    CommitTimeout(CommitTimeout),
    /// The leader is accused of ignoring a transaction.
    NoTransactionReceiptReceived(NoTransactionReceiptReceived),
    /// The leader is accused of withholding a block.
    BlockCreationTimeout(BlockCreationTimeout),
}

/// The signed part of a proof.
#[derive(Clone, Copy, Debug)]
pub struct ProofPayload {
    /// Why the view change is asked for.
    pub reason: Reason,
    /// The hash of the latest view change that the signer knew of.
    pub latest_view_change_hash: crypto::Hash,
    /// The hash of the latest committed block that the signer knew of.
    pub latest_block_hash: crypto::Hash,
}

/// The bytes that stand for a reason in the hash of a proof.
pub open spec fn reason_bytes(reason: Reason) -> Seq<u8> {
    match reason {
        Reason::CommitTimeout(r) => seq![0u8] + r.voting_block_hash.0@,
        Reason::NoTransactionReceiptReceived(r) => seq![1u8] + r.transaction_hash.0@,
        Reason::BlockCreationTimeout(r) => seq![2u8] + r.transaction_receipt.transaction_hash.0@
            + encoded_u128(r.transaction_receipt.received_at)
            + r.transaction_receipt.signature.public_key.0@
            + r.transaction_receipt.signature.signature@,
    }
}

/// The bytes over which a proof is hashed: the reason, then the two hashes
/// of the state it was made in. Signatures are no part of them.
pub open spec fn payload_bytes(payload: ProofPayload) -> Seq<u8> {
    reason_bytes(payload.reason) + payload.latest_view_change_hash.0@
        + payload.latest_block_hash.0@
}

/// The hash of a proof.
pub open spec fn payload_hash(payload: ProofPayload) -> crypto::Hash {
    hash_of(payload_bytes(payload))
}

/// The public keys of `peers` that have a signature in `signatures` which
/// verifies for `message`.
pub open spec fn approvals(
    signatures: Seq<Signature>,
    message: Seq<u8>,
    peers: Seq<PeerIdView>,
) -> Set<PublicKey> {
    Set::new(
        |key: PublicKey|
            peer_keys(peers).contains(key) && exists|i: int|
                0 <= i < signatures.len() && #[trigger] signatures[i].public_key == key
                    && signatures[i].valid_for(message),
    )
}

/// Whether more than `max_faults` peers approve: the quorum of a view change.
pub open spec fn has_quorum(
    signatures: Seq<Signature>,
    message: Seq<u8>,
    peers: Seq<PeerIdView>,
    max_faults: u32,
) -> bool {
    approvals(signatures, message, peers).len() >= max_faults + 1
}

/// The approvals of a list of signatures are finitely many.
pub proof fn lemma_approvals_finite(
    signatures: Seq<Signature>,
    message: Seq<u8>,
    peers: Seq<PeerIdView>,
)
    ensures
        approvals(signatures, message, peers).finite(),
        approvals(signatures, message, peers).len() <= signatures.len(),
    decreases signatures.len(),
{
    let all = approvals(signatures, message, peers);
    if signatures.len() == 0 {
        assert(all =~= Set::empty());
    } else {
        let rest = signatures.drop_last();
        let last = signatures.last();
        lemma_approvals_finite(rest, message, peers);
        let before = approvals(rest, message, peers);
        assert forall|key: PublicKey| all.contains(key) implies before.insert(
            last.public_key,
        ).contains(key) by {
            let i = choose|i: int|
                0 <= i < signatures.len() && #[trigger] signatures[i].public_key == key
                    && signatures[i].valid_for(message);
            if i < rest.len() {
                assert(rest[i].public_key == key);
            }
        }
        vstd::set_lib::lemma_len_subset(all, before.insert(last.public_key));
    }
}

/// One more signature adds its key to the approvals if it verifies and
/// comes from a peer, and changes nothing otherwise.
proof fn lemma_approvals_step(
    signatures: Seq<Signature>,
    i: int,
    message: Seq<u8>,
    peers: Seq<PeerIdView>,
)
    requires
        0 <= i < signatures.len(),
        distinct_keys(signatures),
    ensures
        approvals(signatures.take(i + 1), message, peers) == if signatures[i].valid_for(message)
            && peer_keys(peers).contains(signatures[i].public_key) {
            approvals(signatures.take(i), message, peers).insert(signatures[i].public_key)
        } else {
            approvals(signatures.take(i), message, peers)
        },
        !approvals(signatures.take(i), message, peers).contains(signatures[i].public_key),
{
    let before = approvals(signatures.take(i), message, peers);
    let after = approvals(signatures.take(i + 1), message, peers);
    let s = signatures[i];
    let counts = s.valid_for(message) && peer_keys(peers).contains(s.public_key);
    if before.contains(s.public_key) {
        let j = choose|j: int|
            0 <= j < signatures.take(i).len() && #[trigger] signatures.take(i)[j].public_key
                == s.public_key && signatures.take(i)[j].valid_for(message);
        assert(signatures[j].public_key == signatures[i].public_key);
    }
    assert forall|key: PublicKey| after.contains(key) == (before.contains(key) || (counts && key
        == s.public_key)) by {
        if after.contains(key) {
            let j = choose|j: int|
                0 <= j < signatures.take(i + 1).len() && #[trigger] signatures.take(
                    i + 1,
                )[j].public_key == key && signatures.take(i + 1)[j].valid_for(message);
            if j < i {
                assert(signatures.take(i)[j].public_key == key);
            }
        }
        if before.contains(key) {
            let j = choose|j: int|
                0 <= j < signatures.take(i).len() && #[trigger] signatures.take(i)[j].public_key
                    == key && signatures.take(i)[j].valid_for(message);
            assert(signatures.take(i + 1)[j].public_key == key);
        }
        if counts && key == s.public_key {
            assert(signatures.take(i + 1)[i].public_key == key);
        }
    }
    if counts {
        assert(after =~= before.insert(s.public_key));
    } else {
        assert(after =~= before);
    }
}

/// Whether `key` is the public key of one of `peers`.
pub fn is_peer_key(peers: &[PeerId], key: &PublicKey) -> (r: bool)
    ensures
        r == peer_keys(peer_views(peers@)).contains(*key),
{
    let ghost keys = peer_keys(peer_views(peers@));
    let mut i: usize = 0;
    while i < peers.len()
        invariant
            i <= peers.len(),
            keys == peer_keys(peer_views(peers@)),
            forall|j: int| 0 <= j < i ==> keys[j] != *key,
        decreases peers.len() - i,
    {
        if peers[i].public_key == *key {
            assert(keys[i as int] == *key);
            return true;
        }
        i += 1;
    }
    false
}

/// How many peers approve: the number of signatures of `signatures` that
/// verify for `message` and come from one of `peers`.
pub fn count_approvals(signatures: &Signatures, message: &[u8], peers: &[PeerId]) -> (n: usize)
    requires
        signatures.wf(),
    ensures
        n == approvals(signatures@, message@, peer_views(peers@)).len(),
{
    let all = signatures.values();
    let ghost views = peer_views(peers@);
    let mut n: usize = 0;
    let mut i: usize = 0;
    proof {
        assert(all@.take(0) =~= Seq::<Signature>::empty());
        assert(approvals(all@.take(0), message@, views) =~= Set::empty());
    }
    while i < all.len()
        invariant
            i <= all.len(),
            all@ == signatures@,
            distinct_keys(all@),
            views == peer_views(peers@),
            n <= i,
            approvals(all@.take(i as int), message@, views).finite(),
            n == approvals(all@.take(i as int), message@, views).len(),
        decreases all.len() - i,
    {
        proof {
            lemma_approvals_step(all@, i as int, message@, views);
            lemma_approvals_finite(all@.take(i as int + 1), message@, views);
        }
        let s = all[i];
        if s.verify(message) && is_peer_key(peers, &s.public_key) {
            n += 1;
        }
        i += 1;
    }
    assert(all@.take(all.len() as int) =~= all@);
    n
}

/// A reason for a view change, the state it refers to, and the signatures
/// of the peers that agree with it.
#[derive(Debug)]
pub struct Proof {
    payload: ProofPayload,
    signatures: Signatures,
}

/// What a `Proof` stands for in contracts.
pub struct ProofView {
    /// The signed part.
    pub payload: ProofPayload,
    /// The signatures, in the order in which their keys came in.
    pub signatures: Seq<Signature>,
}

impl ProofView {
    /// The hash of the proof.
    pub open spec fn hash(self) -> crypto::Hash {
        payload_hash(self.payload)
    }

    /// Whether the proof was made in the state given by the two hashes.
    pub open spec fn has_same_state(
        self,
        block_hash: crypto::Hash,
        view_change_hash: crypto::Hash,
    ) -> bool {
        self.payload.latest_block_hash == block_hash && self.payload.latest_view_change_hash
            == view_change_hash
    }

    /// Whether more than `max_faults` of `peers` signed the proof validly.
    pub open spec fn verified_by(self, peers: Seq<PeerIdView>, max_faults: u32) -> bool {
        has_quorum(self.signatures, self.hash().0@, peers, max_faults)
    }
}

impl View for Proof {
    type V = ProofView;

    closed spec fn view(&self) -> ProofView {
        ProofView { payload: self.payload, signatures: self.signatures@ }
    }
}

impl Clone for Proof {
    fn clone(&self) -> (r: Self)
        ensures
            r@ == self@,
    {
        Proof { payload: self.payload, signatures: self.signatures.clone() }
    }
}

impl Proof {
    /// The invariant of a proof: no public key signed twice.
    pub open spec fn wf(&self) -> bool {
        distinct_keys(self@.signatures)
    }

    /// A proof without signatures.
    pub fn new(
        reason: Reason,
        latest_view_change_hash: crypto::Hash,
        latest_block_hash: crypto::Hash,
    ) -> (r: Proof)
        ensures
            r@.payload == (ProofPayload { reason, latest_view_change_hash, latest_block_hash }),
            r@.signatures == Seq::<Signature>::empty(),
            r.wf(),
    {
        Proof {
            payload: ProofPayload { reason, latest_view_change_hash, latest_block_hash },
            signatures: Signatures::new(),
        }
    }

    /// An unsigned proof that the block with `voting_block_hash` was not committed in time.
    pub fn commit_timeout(
        voting_block_hash: crypto::Hash,
        latest_view_change_hash: crypto::Hash,
        latest_block_hash: crypto::Hash,
    ) -> (r: Proof)
        ensures
            r@.payload == (ProofPayload {
                reason: Reason::CommitTimeout(CommitTimeout { voting_block_hash }),
                latest_view_change_hash,
                latest_block_hash,
            }),
            r@.signatures == Seq::<Signature>::empty(),
            r.wf(),
    {
        Proof::new(
            Reason::CommitTimeout(CommitTimeout { voting_block_hash }),
            latest_view_change_hash,
            latest_block_hash,
        )
    }

    /// An unsigned proof that the transaction with `transaction_hash` got no receipt in time.
    pub fn no_transaction_receipt_received(
        transaction_hash: crypto::Hash,
        latest_view_change_hash: crypto::Hash,
        latest_block_hash: crypto::Hash,
    ) -> (r: Proof)
        ensures
            r@.payload == (ProofPayload {
                reason: Reason::NoTransactionReceiptReceived(
                    NoTransactionReceiptReceived { transaction_hash },
                ),
                latest_view_change_hash,
                latest_block_hash,
            }),
            r@.signatures == Seq::<Signature>::empty(),
            r.wf(),
    {
        Proof::new(
            Reason::NoTransactionReceiptReceived(NoTransactionReceiptReceived { transaction_hash }),
            latest_view_change_hash,
            latest_block_hash,
        )
    }

    /// An unsigned proof that no block followed `transaction_receipt` in time.
    pub fn block_creation_timeout(
        transaction_receipt: TransactionReceipt,
        latest_view_change_hash: crypto::Hash,
        latest_block_hash: crypto::Hash,
    ) -> (r: Proof)
        ensures
            r@.payload == (ProofPayload {
                reason: Reason::BlockCreationTimeout(BlockCreationTimeout { transaction_receipt }),
                latest_view_change_hash,
                latest_block_hash,
            }),
            r@.signatures == Seq::<Signature>::empty(),
            r.wf(),
    {
        Proof::new(
            Reason::BlockCreationTimeout(BlockCreationTimeout { transaction_receipt }),
            latest_view_change_hash,
            latest_block_hash,
        )
    }

    /// The bytes over which the proof is hashed.
    pub fn payload_bytes(&self) -> (r: Vec<u8>)
        ensures
            r@ == payload_bytes(self@.payload),
    {
        let mut r: Vec<u8> = Vec::new();
        match self.payload.reason {
            Reason::CommitTimeout(reason) => {
                r.push(0u8);
                append_bytes(&mut r, reason.voting_block_hash.0.as_slice());
            },
            Reason::NoTransactionReceiptReceived(reason) => {
                r.push(1u8);
                append_bytes(&mut r, reason.transaction_hash.0.as_slice());
            },
            Reason::BlockCreationTimeout(reason) => {
                r.push(2u8);
                let receipt = reason.transaction_receipt;
                append_bytes(&mut r, receipt.transaction_hash.0.as_slice());
                let at = encode_u128(receipt.received_at);
                append_bytes(&mut r, at.as_slice());
                append_bytes(&mut r, receipt.signature.public_key.0.as_slice());
                append_bytes(&mut r, receipt.signature.signature.as_slice());
            },
        }
        assert(r@ =~= reason_bytes(self.payload.reason));
        append_bytes(&mut r, self.payload.latest_view_change_hash.0.as_slice());
        append_bytes(&mut r, self.payload.latest_block_hash.0.as_slice());
        r
    }

    /// The hash of the proof. It covers the reason and the state, not the signatures.
    pub fn hash(&self) -> (h: crypto::Hash)
        ensures
            h == self@.hash(),
    {
        hash(self.payload_bytes())
    }

    /// The proof with the signature of `key_pair` over its hash put in.
    pub fn sign(self, key_pair: &KeyPair) -> (r: Proof)
        requires
            self.wf(),
        ensures
            r@.payload == self@.payload,
            r@.signatures == with_signature(
                self@.signatures,
                Signature::of(*key_pair, self@.hash().0@),
            ),
            r.wf(),
    {
        let h = self.hash();
        let signature = Signature::new(key_pair, h.0.as_slice());
        let mut signatures = self.signatures;
        signatures.add(signature);
        Proof { payload: self.payload, signatures }
    }

    /// Whether the proof was made in the state given by the two hashes.
    pub fn has_same_state(
        &self,
        latest_block_hash: crypto::Hash,
        latest_view_change_hash: crypto::Hash,
    ) -> (r: bool)
        ensures
            r == self@.has_same_state(latest_block_hash, latest_view_change_hash),
    {
        self.payload.latest_block_hash == latest_block_hash && self.payload.latest_view_change_hash
            == latest_view_change_hash
    }

    /// Whether more than `max_faults` of `peers` signed the proof validly.
    pub fn verify(&self, peers: &[PeerId], max_faults: u32) -> (r: bool)
        requires
            self.wf(),
        ensures
            r == self@.verified_by(peer_views(peers@), max_faults),
    {
        let h = self.hash();
        let n = count_approvals(&self.signatures, h.0.as_slice(), peers);
        n > max_faults as usize
    }

    /// Why the view change is asked for.
    pub fn reason(&self) -> (r: Reason)
        ensures
            r == self@.payload.reason,
    {
        self.payload.reason
    }

    /// The signed part of the proof.
    pub fn payload(&self) -> (r: ProofPayload)
        ensures
            r == self@.payload,
    {
        self.payload
    }

    /// The signatures that the proof carries.
    pub fn signatures(&self) -> (r: &Signatures)
        ensures
            r@ == self@.signatures,
    {
        &self.signatures
    }

    /// A proof with the given signed part and signatures, as it comes off the wire.
    pub fn from_parts(payload: ProofPayload, signatures: Signatures) -> (r: Proof)
        requires
            signatures.wf(),
        ensures
            r@ == (ProofView { payload, signatures: signatures@ }),
            r.wf(),
    {
        Proof { payload, signatures }
    }
}

/// Whether a proof has its quorum does not depend on the order in which its
/// signatures are listed: two lists that hold the same signatures, each as
/// often as the other, give the same approvals.
pub proof fn lemma_quorum_order_independent(
    a: Seq<Signature>,
    b: Seq<Signature>,
    message: Seq<u8>,
    peers: Seq<PeerIdView>,
    max_faults: u32,
)
    requires
        a.to_multiset() == b.to_multiset(),
    ensures
        approvals(a, message, peers) == approvals(b, message, peers),
        has_quorum(a, message, peers, max_faults) == has_quorum(b, message, peers, max_faults),
{
    lemma_approvals_subset(a, b, message, peers);
    lemma_approvals_subset(b, a, message, peers);
    assert(approvals(a, message, peers) =~= approvals(b, message, peers));
}

/// Every approval found in `a` is found in any list that holds all of `a`.
proof fn lemma_approvals_subset(
    a: Seq<Signature>,
    b: Seq<Signature>,
    message: Seq<u8>,
    peers: Seq<PeerIdView>,
)
    requires
        a.to_multiset() == b.to_multiset(),
    ensures
        approvals(a, message, peers).subset_of(approvals(b, message, peers)),
{
    assert forall|key: PublicKey| approvals(a, message, peers).contains(key) implies approvals(
        b,
        message,
        peers,
    ).contains(key) by {
        let i = choose|i: int|
            0 <= i < a.len() && #[trigger] a[i].public_key == key && a[i].valid_for(message);
        assert(a.contains(a[i]));
        vstd::seq_lib::to_multiset_contains(a, a[i]);
        vstd::seq_lib::to_multiset_contains(b, a[i]);
        let j = choose|j: int| 0 <= j < b.len() && b[j] == a[i];
        assert(b[j].public_key == key);
    }
}

/// What a list of proofs stands for in contracts.
pub open spec fn proof_views(proofs: Seq<Proof>) -> Seq<ProofView> {
    proofs.map_values(|p: Proof| p@)
}

/// The hash of the last proof of a chain, or the zero hash for the empty chain.
pub open spec fn chain_latest_hash(chain: Seq<ProofView>) -> crypto::Hash {
    if chain.len() == 0 {
        crypto::Hash::zero()
    } else {
        chain.last().hash()
    }
}

/// Whether every proof of `chain` was made on top of `latest_block` and of
/// the proofs before it, and has its quorum among `peers`.
pub open spec fn chain_verified(
    chain: Seq<ProofView>,
    peers: Seq<PeerIdView>,
    max_faults: u32,
    latest_block: crypto::Hash,
) -> bool {
    forall|i: int|
        0 <= i < chain.len() ==> (#[trigger] chain[i]).has_same_state(
            latest_block,
            chain_latest_hash(chain.take(i)),
        ) && chain[i].verified_by(peers, max_faults)
}

/// The proofs of the view changes that took place since the last block was
/// committed, oldest first.
#[derive(Debug)]
pub struct ProofChain {
    proofs: Vec<Proof>,
}

impl View for ProofChain {
    type V = Seq<ProofView>;

    closed spec fn view(&self) -> Seq<ProofView> {
        proof_views(self.proofs@)
    }
}

impl Clone for ProofChain {
    fn clone(&self) -> (r: Self)
        ensures
            r@ == self@,
    {
        let mut proofs: Vec<Proof> = Vec::new();
        let mut i: usize = 0;
        while i < self.proofs.len()
            invariant
                i <= self.proofs.len(),
                proofs@.len() == i,
                forall|j: int| 0 <= j < i ==> proofs@[j]@ == self.proofs@[j]@,
            decreases self.proofs.len() - i,
        {
            proofs.push(self.proofs[i].clone());
            i += 1;
        }
        assert(proof_views(proofs@) =~= proof_views(self.proofs@));
        ProofChain { proofs }
    }
}

impl ProofChain {
    /// The invariant of a chain: each of its proofs is well formed.
    pub open spec fn wf(&self) -> bool {
        forall|i: int| 0 <= i < self@.len() ==> distinct_keys((#[trigger] self@[i]).signatures)
    }

    /// The chain without proofs.
    pub fn empty() -> (r: ProofChain)
        ensures
            r@ == Seq::<ProofView>::empty(),
            r.wf(),
    {
        let r = ProofChain { proofs: Vec::new() };
        assert(r@ =~= Seq::<ProofView>::empty());
        r
    }

    /// How many proofs the chain holds.
    pub fn len(&self) -> (n: usize)
        ensures
            n == self@.len(),
    {
        self.proofs.len()
    }

    /// The proof at position `index`.
    pub fn get(&self, index: usize) -> (r: &Proof)
        requires
            index < self@.len(),
        ensures
            r@ == self@[index as int],
    {
        &self.proofs[index]
    }

    /// Puts `proof` at the end of the chain.
    pub fn push(&mut self, proof: Proof)
        requires
            old(self).wf(),
            proof.wf(),
        ensures
            final(self)@ == old(self)@.push(proof@),
            final(self).wf(),
    {
        self.proofs.push(proof);
        assert(self@ =~= old(self)@.push(proof@));
    }

    /// The hash of the latest view change, or the zero hash if there was none.
    pub fn latest_hash(&self) -> (h: crypto::Hash)
        ensures
            h == chain_latest_hash(self@),
    {
        let n = self.proofs.len();
        if n == 0 {
            crypto::Hash::zeroed()
        } else {
            self.proofs[n - 1].hash()
        }
    }

    /// Whether every proof of the chain was made on top of `latest_block` and
    /// of the proofs before it, and has its quorum among `peers`.
    pub fn verify_with_state(
        &self,
        peers: &[PeerId],
        max_faults: u32,
        latest_block: &crypto::Hash,
    ) -> (r: bool)
        requires
            self.wf(),
        ensures
            r == chain_verified(self@, peer_views(peers@), max_faults, *latest_block),
    {
        let mut previous = crypto::Hash::zeroed();
        let mut i: usize = 0;
        assert(self@.take(0) =~= Seq::<ProofView>::empty());
        while i < self.proofs.len()
            invariant
                i <= self.proofs.len(),
                self.wf(),
                previous == chain_latest_hash(self@.take(i as int)),
                forall|j: int|
                    0 <= j < i ==> (#[trigger] self@[j]).has_same_state(
                        *latest_block,
                        chain_latest_hash(self@.take(j)),
                    ) && self@[j].verified_by(peer_views(peers@), max_faults),
            decreases self.proofs.len() - i,
        {
            let proof = &self.proofs[i];
            assert(proof@ == self@[i as int]);
            assert(proof.wf());
            if !proof.has_same_state(*latest_block, previous) || !proof.verify(peers, max_faults) {
                return false;
            }
            previous = proof.hash();
            assert(self@.take(i as int + 1).last() == self@[i as int]);
            i += 1;
        }
        true
    }
}

} // verus!
