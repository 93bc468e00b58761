//! Blocks and the states they pass through: pending, chained, signed, valid
//! and committed.

use crate::bytes::{append_bytes, encode_u128, encode_u64, encoded_u128, encoded_u64};
use crate::crypto;
use crate::crypto::{hash, hash_of, KeyPair, Signature};
use crate::error::Error;
use crate::merkle::{merkle_root, root};
use crate::network_topology::{Topology, TopologyView};
use crate::permissions::PermissionsValidatorBox;
use crate::signatures::{distinct_keys, verified, with_signature, Signatures};
use crate::time::current_time_ms;
use crate::tx::{AcceptedTransaction, TransactionView, ValidTransaction};
use crate::view_change::{chain_latest_hash, ProofChain, ProofView};
use crate::wsv::{copy_hashes, WorldStateView, WsvView};
use vstd::prelude::*;

verus! {

/// What a block says of itself, apart from its transactions and signatures.
#[derive(Debug)]
pub struct BlockHeader {
    /// When the block was formed, in milliseconds since the epoch.
    pub timestamp: u128,
    /// The number of the block in the chain; zero for the first.
    pub height: u64,
    /// The hash of the block before it; `None` for the first.
    pub previous_block_hash: Option<crypto::Hash>,
    /// The proofs of the view changes since the block before it.
    pub view_change_proofs: ProofChain,
    /// The hashes of the blocks that those view changes set aside.
    pub invalidated_blocks_hashes: Vec<crypto::Hash>,
    /// The topology that a genesis block brings with it.
    pub genesis_topology: Option<Topology>,
}

/// What a `BlockHeader` stands for in contracts.
pub struct HeaderView {
    /// When the block was formed, in milliseconds since the epoch.
    pub timestamp: u128,
    /// The number of the block in the chain; zero for the first.
    pub height: u64,
    /// The hash of the block before it; `None` for the first.
    pub previous_block_hash: Option<crypto::Hash>,
    /// The proofs of the view changes since the block before it.
    pub view_change_proofs: Seq<ProofView>,
    /// The hashes of the blocks that those view changes set aside.
    pub invalidated_blocks_hashes: Seq<crypto::Hash>,
    /// The topology that a genesis block brings with it.
    pub genesis_topology: Option<TopologyView>,
}

impl HeaderView {
    /// The invariant of a header: well-formed proofs and genesis topology.
    pub open spec fn wf(self) -> bool {
        &&& forall|i: int|
            0 <= i < self.view_change_proofs.len() ==> distinct_keys(
                (#[trigger] self.view_change_proofs[i]).signatures,
            )
        &&& self.genesis_topology is Some ==> self.genesis_topology->Some_0.wf()
    }

    /// Whether the block is a genesis block: one that brings its topology.
    pub open spec fn is_genesis(self) -> bool {
        self.genesis_topology is Some
    }

    /// The hash of the block before, or the zero hash for the first block.
    pub open spec fn previous_or_zero(self) -> crypto::Hash {
        match self.previous_block_hash {
            Some(h) => h,
            None => crypto::Hash::zero(),
        }
    }
}

impl View for BlockHeader {
    type V = HeaderView;

    open spec fn view(&self) -> HeaderView {
        HeaderView {
            timestamp: self.timestamp,
            height: self.height,
            previous_block_hash: self.previous_block_hash,
            view_change_proofs: self.view_change_proofs@,
            invalidated_blocks_hashes: self.invalidated_blocks_hashes@,
            genesis_topology: match self.genesis_topology {
                Some(topology) => Some(topology@),
                None => None,
            },
        }
    }
}

impl Clone for BlockHeader {
    fn clone(&self) -> (r: Self)
        ensures
            r@ == self@,
    {
        BlockHeader {
            timestamp: self.timestamp,
            height: self.height,
            previous_block_hash: self.previous_block_hash,
            view_change_proofs: self.view_change_proofs.clone(),
            invalidated_blocks_hashes: copy_hashes(self.invalidated_blocks_hashes.as_slice()),
            genesis_topology: match &self.genesis_topology {
                Some(topology) => Some(topology.clone()),
                None => None,
            },
        }
    }
}

/// The bytes of a list of hashes, one after the other.
pub open spec fn hashes_bytes(hashes: Seq<crypto::Hash>) -> Seq<u8>
    decreases hashes.len(),
{
    if hashes.len() == 0 {
        Seq::empty()
    } else {
        hashes_bytes(hashes.drop_last()) + hashes.last().0@
    }
}

/// The bytes that stand for the hash of the block before.
pub open spec fn previous_bytes(previous: Option<crypto::Hash>) -> Seq<u8> {
    match previous {
        Some(h) => seq![1u8] + h.0@,
        None => seq![0u8],
    }
}

/// The bytes over which a block is hashed: the timestamp, the height, the
/// hash of the block before, the Merkle root of the transactions, the hash
/// of the latest view change, and the invalidated hashes behind their
/// number. Signatures are no part of them.
pub open spec fn header_bytes(header: HeaderView, transactions_root: crypto::Hash) -> Seq<u8> {
    encoded_u128(header.timestamp) + encoded_u64(header.height) + previous_bytes(
        header.previous_block_hash,
    ) + transactions_root.0@ + chain_latest_hash(header.view_change_proofs).0@ + encoded_u64(
        header.invalidated_blocks_hashes.len() as u64,
    ) + hashes_bytes(header.invalidated_blocks_hashes)
}

/// The hashes of a list of transactions.
pub open spec fn tx_hashes(transactions: Seq<TransactionView>) -> Seq<crypto::Hash> {
    transactions.map_values(|t: TransactionView| t.hash())
}

/// The hash of the block with the given header and transactions.
pub open spec fn block_hash(
    header: HeaderView,
    transactions: Seq<TransactionView>,
) -> crypto::Hash {
    hash_of(header_bytes(header, merkle_root(tx_hashes(transactions))))
}

/// What a list of accepted transactions stands for in contracts.
pub open spec fn accepted_views(transactions: Seq<AcceptedTransaction>) -> Seq<TransactionView> {
    transactions.map_values(|t: AcceptedTransaction| t@)
}

/// What a list of valid transactions stands for in contracts.
pub open spec fn valid_views(transactions: Seq<ValidTransaction>) -> Seq<TransactionView> {
    transactions.map_values(|t: ValidTransaction| t@)
}

/// Whether no transaction of the list is signed twice by one key.
pub open spec fn all_wf(transactions: Seq<TransactionView>) -> bool {
    forall|i: int|
        0 <= i < transactions.len() ==> distinct_keys((#[trigger] transactions[i]).signatures)
}

/// The world state after the transactions of `transactions` were validated
/// one after the other, each against what those before it left.
pub open spec fn wsv_after(
    transactions: Seq<TransactionView>,
    wsv: WsvView,
    policy: PermissionsValidatorBox,
) -> WsvView
    decreases transactions.len(),
{
    if transactions.len() == 0 {
        wsv
    } else {
        transactions.last().validation(
            wsv_after(transactions.drop_last(), wsv, policy),
            policy,
        ).wsv
    }
}

/// The transactions of `transactions` that are valid, each against the
/// world state that the valid ones before it left, in their order.
pub open spec fn valid_transactions(
    transactions: Seq<TransactionView>,
    wsv: WsvView,
    policy: PermissionsValidatorBox,
) -> Seq<TransactionView>
    decreases transactions.len(),
{
    if transactions.len() == 0 {
        Seq::empty()
    } else {
        let before = valid_transactions(transactions.drop_last(), wsv, policy);
        let state = wsv_after(transactions.drop_last(), wsv, policy);
        if transactions.last().validation(state, policy).result is Ok {
            before.push(transactions.last())
        } else {
            before
        }
    }
}

/// What a block, in any of its states, stands for in contracts.
pub struct BlockView {
    /// The header.
    pub header: HeaderView,
    /// The transactions.
    pub transactions: Seq<TransactionView>,
    /// The signatures of the peers that approve of the block.
    pub signatures: Seq<Signature>,
}

impl BlockView {
    /// The hash of the block. It covers the header and the transactions,
    /// not the signatures.
    pub open spec fn hash(self) -> crypto::Hash {
        block_hash(self.header, self.transactions)
    }

    /// The invariant of a block: a well-formed header, and no key that
    /// signed the block or one of its transactions twice.
    pub open spec fn wf(self) -> bool {
        &&& self.header.wf()
        &&& all_wf(self.transactions)
        &&& distinct_keys(self.signatures)
    }

    /// The signatures of the block that verify for its hash.
    pub open spec fn verified_signatures(self) -> Seq<Signature> {
        verified(self.signatures, self.hash().0@)
    }

    /// The block with `signature` put in.
    pub open spec fn signed_with(self, signature: Signature) -> BlockView {
        BlockView { signatures: with_signature(self.signatures, signature), ..self }
    }

    /// The block signed by `key_pair`.
    pub open spec fn signed_by(self, key_pair: KeyPair) -> BlockView {
        self.signed_with(Signature::of(key_pair, self.hash().0@))
    }

    /// Whether the block is what is expected next: it follows the block
    /// with hash `latest_block_hash` and the view change with hash
    /// `latest_view_change_hash`, has the height `height`, and none of its
    /// transactions holds more than `max_instruction_number` instructions.
    pub open spec fn as_expected(
        self,
        latest_block_hash: crypto::Hash,
        latest_view_change_hash: crypto::Hash,
        height: u64,
        max_instruction_number: u64,
    ) -> bool {
        &&& self.header.previous_or_zero() == latest_block_hash
        &&& chain_latest_hash(self.header.view_change_proofs) == latest_view_change_hash
        &&& self.header.height == height
        &&& forall|i: int|
            0 <= i < self.transactions.len() ==> (
            #[trigger] self.transactions[i]).payload.instructions.len() <= max_instruction_number
    }
}

/// The bytes over which a block with `header` is hashed.
pub fn header_to_bytes(header: &BlockHeader, transactions_root: &crypto::Hash) -> (r: Vec<u8>)
    ensures
        r@ == header_bytes(header@, *transactions_root),
{
    let mut r = encode_u128(header.timestamp);
    let height = encode_u64(header.height);
    append_bytes(&mut r, height.as_slice());
    match header.previous_block_hash {
        Some(h) => {
            r.push(1u8);
            append_bytes(&mut r, h.0.as_slice());
        },
        None => {
            r.push(0u8);
        },
    }
    append_bytes(&mut r, transactions_root.0.as_slice());
    let latest = header.view_change_proofs.latest_hash();
    append_bytes(&mut r, latest.0.as_slice());
    let count = encode_u64(header.invalidated_blocks_hashes.len() as u64);
    append_bytes(&mut r, count.as_slice());
    let ghost head = r@;
    let ghost hashes = header.invalidated_blocks_hashes@;
    assert(head =~= encoded_u128(header.timestamp) + encoded_u64(header.height) + previous_bytes(
        header.previous_block_hash,
    ) + transactions_root.0@ + chain_latest_hash(header@.view_change_proofs).0@ + encoded_u64(
        hashes.len() as u64,
    ));
    let mut i: usize = 0;
    assert(hashes.take(0) =~= Seq::<crypto::Hash>::empty());
    while i < header.invalidated_blocks_hashes.len()
        invariant
            i <= header.invalidated_blocks_hashes.len(),
            hashes == header.invalidated_blocks_hashes@,
            r@ == head + hashes_bytes(hashes.take(i as int)),
        decreases header.invalidated_blocks_hashes.len() - i,
    {
        append_bytes(&mut r, header.invalidated_blocks_hashes[i].0.as_slice());
        proof {
            let next = hashes.take(i as int + 1);
            assert(next.drop_last() =~= hashes.take(i as int));
            assert(next.last() == hashes[i as int]);
            assert(r@ =~= head + hashes_bytes(next));
        }
        i += 1;
    }
    assert(hashes.take(hashes.len() as int) =~= hashes);
    r
}

/// The hashes of a list of accepted transactions.
pub fn hashes_of_accepted(transactions: &[AcceptedTransaction]) -> (r: Vec<crypto::Hash>)
    ensures
        r@ == tx_hashes(accepted_views(transactions@)),
{
    let mut r: Vec<crypto::Hash> = Vec::new();
    let mut i: usize = 0;
    while i < transactions.len()
        invariant
            i <= transactions.len(),
            r@.len() == i,
            forall|j: int| 0 <= j < i ==> r@[j] == transactions@[j]@.hash(),
        decreases transactions.len() - i,
    {
        r.push(transactions[i].hash());
        i += 1;
    }
    assert(r@ =~= tx_hashes(accepted_views(transactions@)));
    r
}

/// The hashes of a list of valid transactions.
pub fn hashes_of_valid(transactions: &[ValidTransaction]) -> (r: Vec<crypto::Hash>)
    ensures
        r@ == tx_hashes(valid_views(transactions@)),
{
    let mut r: Vec<crypto::Hash> = Vec::new();
    let mut i: usize = 0;
    while i < transactions.len()
        invariant
            i <= transactions.len(),
            r@.len() == i,
            forall|j: int| 0 <= j < i ==> r@[j] == transactions@[j]@.hash(),
        decreases transactions.len() - i,
    {
        r.push(transactions[i].hash());
        i += 1;
    }
    assert(r@ =~= tx_hashes(valid_views(transactions@)));
    r
}

/// A copy of a list of valid transactions.
pub fn copy_valid(transactions: &[ValidTransaction]) -> (r: Vec<ValidTransaction>)
    ensures
        valid_views(r@) == valid_views(transactions@),
{
    let mut r: Vec<ValidTransaction> = Vec::new();
    let mut i: usize = 0;
    while i < transactions.len()
        invariant
            i <= transactions.len(),
            r@.len() == i,
            forall|j: int| 0 <= j < i ==> r@[j]@ == transactions@[j]@,
        decreases transactions.len() - i,
    {
        r.push(transactions[i].clone());
        i += 1;
    }
    assert(valid_views(r@) =~= valid_views(transactions@));
    r
}

/// The valid transactions as they were before they were validated.
pub fn accepted_again(transactions: &[ValidTransaction]) -> (r: Vec<AcceptedTransaction>)
    ensures
        accepted_views(r@) == valid_views(transactions@),
{
    let mut r: Vec<AcceptedTransaction> = Vec::new();
    let mut i: usize = 0;
    while i < transactions.len()
        invariant
            i <= transactions.len(),
            r@.len() == i,
            forall|j: int| 0 <= j < i ==> r@[j]@ == transactions@[j]@,
        decreases transactions.len() - i,
    {
        r.push(transactions[i].clone().into_accepted());
        i += 1;
    }
    assert(accepted_views(r@) =~= valid_views(transactions@));
    r
}

/// Validates `transactions` under `policy`, one after the other on a copy
/// of `wsv`, and gives back those that are valid.
pub fn validate_transactions(
    transactions: &[AcceptedTransaction],
    wsv: &WorldStateView,
    policy: &PermissionsValidatorBox,
) -> (r: Vec<ValidTransaction>)
    requires
        all_wf(accepted_views(transactions@)),
    ensures
        valid_views(r@) == valid_transactions(accepted_views(transactions@), wsv@, *policy),
        all_wf(valid_views(r@)),
{
    let ghost views = accepted_views(transactions@);
    let mut state = wsv.clone();
    let mut r: Vec<ValidTransaction> = Vec::new();
    let mut i: usize = 0;
    proof {
        assert(views.take(0) =~= Seq::<TransactionView>::empty());
        assert(valid_views(r@) =~= Seq::<TransactionView>::empty());
    }
    while i < transactions.len()
        invariant
            i <= transactions.len(),
            views == accepted_views(transactions@),
            all_wf(views),
            state@ == wsv_after(views.take(i as int), wsv@, *policy),
            valid_views(r@) == valid_transactions(views.take(i as int), wsv@, *policy),
            all_wf(valid_views(r@)),
        decreases transactions.len() - i,
    {
        let transaction = transactions[i].clone();
        assert(transaction@ == views[i as int]);
        let ghost before = valid_views(r@);
        proof {
            let next = views.take(i as int + 1);
            assert(next.drop_last() =~= views.take(i as int));
            assert(next.last() == views[i as int]);
        }
        match transaction.validate(&mut state, policy) {
            Ok(valid) => {
                r.push(valid);
                assert(valid_views(r@) =~= before.push(valid@));
            },
            Err(_) => {},
        }
        i += 1;
    }
    assert(views.take(views.len() as int) =~= views);
    r
}

/// A block that a leader is putting together.
#[derive(Debug)]
pub struct PendingBlock {
    /// When the block was formed, in milliseconds since the epoch.
    pub timestamp: u128,
    /// The transactions of the block.
    pub transactions: Vec<AcceptedTransaction>,
}

impl PendingBlock {
    /// The header that a pending block is hashed with: its timestamp and
    /// nothing else.
    pub open spec fn header_of(timestamp: u128) -> HeaderView {
        HeaderView {
            timestamp,
            height: 0,
            previous_block_hash: None,
            view_change_proofs: Seq::empty(),
            invalidated_blocks_hashes: Seq::empty(),
            genesis_topology: None,
        }
    }

    /// A pending block of `transactions`, stamped with the time of the clock.
    pub fn new(transactions: Vec<AcceptedTransaction>) -> (r: PendingBlock)
        ensures
            r.transactions == transactions,
    {
        PendingBlock::new_at(transactions, current_time_ms())
    }

    /// A pending block of `transactions`, stamped with `timestamp`.
    pub fn new_at(transactions: Vec<AcceptedTransaction>, timestamp: u128) -> (r: PendingBlock)
        ensures
            r.transactions == transactions,
            r.timestamp == timestamp,
    {
        PendingBlock { timestamp, transactions }
    }

    /// Chains the block behind the block with hash `previous_block_hash`.
    pub fn chain(
        self,
        height: u64,
        previous_block_hash: crypto::Hash,
        view_change_proofs: ProofChain,
        invalidated_blocks_hashes: Vec<crypto::Hash>,
    ) -> (r: ChainedBlock)
        ensures
            r.transactions == self.transactions,
            r@.header == (HeaderView {
                timestamp: self.timestamp,
                height,
                previous_block_hash: Some(previous_block_hash),
                view_change_proofs: view_change_proofs@,
                invalidated_blocks_hashes: invalidated_blocks_hashes@,
                genesis_topology: None,
            }),
    {
        ChainedBlock {
            header: BlockHeader {
                timestamp: self.timestamp,
                height,
                previous_block_hash: Some(previous_block_hash),
                view_change_proofs,
                invalidated_blocks_hashes,
                genesis_topology: None,
            },
            transactions: self.transactions,
        }
    }

    /// Makes the block the first of a chain: height zero and no block before it.
    pub fn chain_first(self) -> (r: ChainedBlock)
        ensures
            r.transactions == self.transactions,
            r@.header == PendingBlock::header_of(self.timestamp),
    {
        ChainedBlock {
            header: BlockHeader {
                timestamp: self.timestamp,
                height: 0,
                previous_block_hash: None,
                view_change_proofs: ProofChain::empty(),
                invalidated_blocks_hashes: Vec::new(),
                genesis_topology: None,
            },
            transactions: self.transactions,
        }
    }

    /// Makes the block the first of a chain and gives it the topology that
    /// the network starts with.
    pub fn chain_first_with_genesis_topology(self, genesis_topology: Topology) -> (r: ChainedBlock)
        ensures
            r.transactions == self.transactions,
            r@.header == (HeaderView {
                genesis_topology: Some(genesis_topology@),
                ..PendingBlock::header_of(self.timestamp)
            }),
    {
        ChainedBlock {
            header: BlockHeader {
                timestamp: self.timestamp,
                height: 0,
                previous_block_hash: None,
                view_change_proofs: ProofChain::empty(),
                invalidated_blocks_hashes: Vec::new(),
                genesis_topology: Some(genesis_topology),
            },
            transactions: self.transactions,
        }
    }

    /// The hash of the block.
    pub fn hash(&self) -> (h: crypto::Hash)
        ensures
            h == block_hash(
                PendingBlock::header_of(self.timestamp),
                accepted_views(self.transactions@),
            ),
    {
        let header = BlockHeader {
            timestamp: self.timestamp,
            height: 0,
            previous_block_hash: None,
            view_change_proofs: ProofChain::empty(),
            invalidated_blocks_hashes: Vec::new(),
            genesis_topology: None,
        };
        let hashes = hashes_of_accepted(self.transactions.as_slice());
        let transactions_root = root(hashes.as_slice());
        hash(header_to_bytes(&header, &transactions_root))
    }
}

/// A block that has its place in the chain.
#[derive(Debug)]
pub struct ChainedBlock {
    /// The header.
    pub header: BlockHeader,
    /// The transactions of the block.
    pub transactions: Vec<AcceptedTransaction>,
}

impl View for ChainedBlock {
    type V = BlockView;

    open spec fn view(&self) -> BlockView {
        BlockView {
            header: self.header@,
            transactions: accepted_views(self.transactions@),
            signatures: Seq::empty(),
        }
    }
}

impl ChainedBlock {
    /// The invariant of a block.
    pub open spec fn wf(&self) -> bool {
        self@.wf()
    }

    /// The hash of the block.
    pub fn hash(&self) -> (h: crypto::Hash)
        ensures
            h == self@.hash(),
    {
        let hashes = hashes_of_accepted(self.transactions.as_slice());
        let transactions_root = root(hashes.as_slice());
        hash(header_to_bytes(&self.header, &transactions_root))
    }

    /// The block with the signature of `key_pair` over its hash.
    pub fn sign(self, key_pair: &KeyPair) -> (r: SignedBlock)
        ensures
            r@ == self@.signed_by(*key_pair),
            self.wf() ==> r.wf(),
    {
        let h = self.hash();
        let mut signatures = Signatures::new();
        signatures.add(Signature::new(key_pair, h.0.as_slice()));
        SignedBlock { header: self.header, transactions: self.transactions, signatures }
    }

    /// Validates the transactions of the block under `policy`, one after
    /// the other on a copy of `wsv`, and keeps those that are valid.
    ///
    /// Fails with `NoValidTransactions` when none is valid and the block is
    /// no genesis block.
    pub fn validate(self, wsv: &WorldStateView, policy: &PermissionsValidatorBox) -> (r: Result<
        ValidBlock,
        Error,
    >)
        requires
            self.wf(),
        ensures
            valid_transactions(self@.transactions, wsv@, *policy).len() == 0
                && !self@.header.is_genesis() ==> r is Err && r->Err_0
                == Error::NoValidTransactions,
            valid_transactions(self@.transactions, wsv@, *policy).len() > 0
                || self@.header.is_genesis() ==> r is Ok && r->Ok_0.wf() && r->Ok_0@ == (BlockView {
                transactions: valid_transactions(self@.transactions, wsv@, *policy),
                ..self@
            }),
    {
        let transactions = validate_transactions(self.transactions.as_slice(), wsv, policy);
        if transactions.len() == 0 && self.header.genesis_topology.is_none() {
            return Err(Error::NoValidTransactions);
        }
        Ok(ValidBlock { header: self.header, transactions, signatures: Signatures::new() })
    }
}

/// A block that at least one peer signed.
#[derive(Debug)]
pub struct SignedBlock {
    /// The header.
    pub header: BlockHeader,
    /// The transactions of the block.
    pub transactions: Vec<AcceptedTransaction>,
    /// The signatures of the peers that approve of the block.
    pub signatures: Signatures,
}

impl View for SignedBlock {
    type V = BlockView;

    open spec fn view(&self) -> BlockView {
        BlockView {
            header: self.header@,
            transactions: accepted_views(self.transactions@),
            signatures: self.signatures@,
        }
    }
}

impl SignedBlock {
    /// The invariant of a block.
    pub open spec fn wf(&self) -> bool {
        self@.wf()
    }

    /// The hash of the block.
    pub fn hash(&self) -> (h: crypto::Hash)
        ensures
            h == self@.hash(),
    {
        let hashes = hashes_of_accepted(self.transactions.as_slice());
        let transactions_root = root(hashes.as_slice());
        hash(header_to_bytes(&self.header, &transactions_root))
    }

    /// The block with one more signature: that of `key_pair` over its hash.
    /// A key that signed already signs anew in the same place.
    pub fn sign(self, key_pair: &KeyPair) -> (r: SignedBlock)
        requires
            self.wf(),
        ensures
            r@ == self@.signed_by(*key_pair),
            r.wf(),
    {
        let h = self.hash();
        let mut signatures = self.signatures;
        proof {
            crate::signatures::lemma_with_signature(
                signatures@,
                Signature::of(*key_pair, h.0@),
            );
        }
        signatures.add(Signature::new(key_pair, h.0.as_slice()));
        SignedBlock { header: self.header, transactions: self.transactions, signatures }
    }

    /// Validates the transactions of the block under `policy`, one after
    /// the other on a copy of `world_state_view`, and keeps those that are
    /// valid.
    ///
    /// Fails with `NoValidTransactions` when none is valid and the block is
    /// no genesis block.
    pub fn validate(
        self,
        world_state_view: &WorldStateView,
        policy: &PermissionsValidatorBox,
    ) -> (r: Result<ValidBlock, Error>)
        requires
            self.wf(),
        ensures
            valid_transactions(self@.transactions, world_state_view@, *policy).len() == 0
                && !self@.header.is_genesis() ==> r == Err::<ValidBlock, Error>(
                Error::NoValidTransactions,
            ),
            valid_transactions(self@.transactions, world_state_view@, *policy).len() > 0
                || self@.header.is_genesis() ==> r is Ok && r->Ok_0.wf() && r->Ok_0@ == (BlockView {
                transactions: valid_transactions(self@.transactions, world_state_view@, *policy),
                ..self@
            }),
    {
        let transactions = validate_transactions(
            self.transactions.as_slice(),
            world_state_view,
            policy,
        );
        if transactions.len() == 0 && self.header.genesis_topology.is_none() {
            return Err(Error::NoValidTransactions);
        }
        Ok(ValidBlock { header: self.header, transactions, signatures: self.signatures })
    }
}

/// A block whose transactions were all carried out without error.
#[derive(Debug)]
pub struct ValidBlock {
    /// The header.
    pub header: BlockHeader,
    /// The transactions of the block.
    pub transactions: Vec<ValidTransaction>,
    /// The signatures of the peers that approve of the block.
    pub signatures: Signatures,
}

impl View for ValidBlock {
    type V = BlockView;

    open spec fn view(&self) -> BlockView {
        BlockView {
            header: self.header@,
            transactions: valid_views(self.transactions@),
            signatures: self.signatures@,
        }
    }
}

impl Clone for ValidBlock {
    fn clone(&self) -> (r: Self)
        ensures
            r@ == self@,
    {
        ValidBlock {
            header: self.header.clone(),
            transactions: copy_valid(self.transactions.as_slice()),
            signatures: self.signatures.clone(),
        }
    }
}

impl ValidBlock {
    /// The invariant of a block.
    pub open spec fn wf(&self) -> bool {
        self@.wf()
    }

    /// The hash of the block.
    pub fn hash(&self) -> (h: crypto::Hash)
        ensures
            h == self@.hash(),
    {
        let hashes = hashes_of_valid(self.transactions.as_slice());
        let transactions_root = root(hashes.as_slice());
        hash(header_to_bytes(&self.header, &transactions_root))
    }

    /// Commits the block: the same header, transactions and signatures,
    /// and so the same hash.
    pub fn commit(self) -> (r: CommittedBlock)
        ensures
            r@ == self@,
            r@.hash() == self@.hash(),
    {
        CommittedBlock {
            header: self.header,
            transactions: self.transactions,
            signatures: self.signatures,
        }
    }

    /// The block with one more signature: that of `key_pair` over its hash.
    /// A key that signed already signs anew in the same place.
    pub fn sign(self, key_pair: &KeyPair) -> (r: ValidBlock)
        requires
            self.wf(),
        ensures
            r@ == self@.signed_by(*key_pair),
            r.wf(),
    {
        let h = self.hash();
        let mut signatures = self.signatures;
        proof {
            crate::signatures::lemma_with_signature(
                signatures@,
                Signature::of(*key_pair, h.0@),
            );
        }
        signatures.add(Signature::new(key_pair, h.0.as_slice()));
        ValidBlock { header: self.header, transactions: self.transactions, signatures }
    }

    /// The signatures of the block that verify for its hash.
    pub fn verified_signatures(&self) -> (r: Vec<Signature>)
        ensures
            r@ == self@.verified_signatures(),
    {
        let h = self.hash();
        self.signatures.verified(h.0.as_slice())
    }

    /// Whether the block is what is expected next; see `BlockView::as_expected`.
    pub fn validation_check(
        &self,
        latest_block_hash: &crypto::Hash,
        latest_view_change_hash: &crypto::Hash,
        height: u64,
        max_instruction_number: u64,
    ) -> (r: bool)
        ensures
            r == self@.as_expected(
                *latest_block_hash,
                *latest_view_change_hash,
                height,
                max_instruction_number,
            ),
    {
        let previous = match self.header.previous_block_hash {
            Some(h) => h,
            None => crypto::Hash::zeroed(),
        };
        if previous != *latest_block_hash {
            return false;
        }
        if self.header.view_change_proofs.latest_hash() != *latest_view_change_hash {
            return false;
        }
        if self.header.height != height {
            return false;
        }
        let mut i: usize = 0;
        while i < self.transactions.len()
            invariant
                i <= self.transactions.len(),
                forall|j: int|
                    0 <= j < i ==> (#[trigger] self@.transactions[j]).payload.instructions.len()
                        <= max_instruction_number,
            decreases self.transactions.len() - i,
        {
            if self.transactions[i].payload.instructions.len() as u64 > max_instruction_number {
                assert(self@.transactions[i as int].payload.instructions.len()
                    > max_instruction_number);
                return false;
            }
            assert(self@.transactions[i as int].payload.instructions.len()
                <= max_instruction_number);
            i += 1;
        }
        true
    }

    /// Validates the transactions of the block anew under `policy` on a
    /// copy of `wsv` and keeps those that are valid; the signatures stay.
    ///
    /// Fails with `NoValidTransactions` when none is valid and the block is
    /// no genesis block.
    pub fn revalidate(self, wsv: &WorldStateView, policy: &PermissionsValidatorBox) -> (r: Result<
        ValidBlock,
        Error,
    >)
        requires
            self.wf(),
        ensures
            valid_transactions(self@.transactions, wsv@, *policy).len() == 0
                && !self@.header.is_genesis() ==> r is Err && r->Err_0
                == Error::NoValidTransactions,
            valid_transactions(self@.transactions, wsv@, *policy).len() > 0
                || self@.header.is_genesis() ==> r is Ok && r->Ok_0.wf() && r->Ok_0@ == (BlockView {
                transactions: valid_transactions(self@.transactions, wsv@, *policy),
                ..self@
            }),
    {
        let accepted = accepted_again(self.transactions.as_slice());
        let transactions = validate_transactions(accepted.as_slice(), wsv, policy);
        if transactions.len() == 0 && self.header.genesis_topology.is_none() {
            return Err(Error::NoValidTransactions);
        }
        Ok(ValidBlock { header: self.header, transactions, signatures: self.signatures })
    }
}

/// A block that was committed to the chain.
#[derive(Debug)]
pub struct CommittedBlock {
    /// The header.
    pub header: BlockHeader,
    /// The transactions of the block.
    pub transactions: Vec<ValidTransaction>,
    /// The signatures of the peers that approved of the block.
    pub signatures: Signatures,
}

impl View for CommittedBlock {
    type V = BlockView;

    open spec fn view(&self) -> BlockView {
        BlockView {
            header: self.header@,
            transactions: valid_views(self.transactions@),
            signatures: self.signatures@,
        }
    }
}

impl Clone for CommittedBlock {
    fn clone(&self) -> (r: Self)
        ensures
            r@ == self@,
    {
        CommittedBlock {
            header: self.header.clone(),
            transactions: copy_valid(self.transactions.as_slice()),
            signatures: self.signatures.clone(),
        }
    }
}

impl CommittedBlock {
    /// The invariant of a block.
    pub open spec fn wf(&self) -> bool {
        self@.wf()
    }

    /// The hash of the block: that of the valid block it was committed from.
    pub fn hash(&self) -> (h: crypto::Hash)
        ensures
            h == self@.hash(),
    {
        let hashes = hashes_of_valid(self.transactions.as_slice());
        let transactions_root = root(hashes.as_slice());
        hash(header_to_bytes(&self.header, &transactions_root))
    }
}

/// The world state once the transactions of `transactions` were carried
/// out on it one after the other, with nothing refused for want of
/// permission, and recorded as committed. One that fails changes nothing but
/// is recorded all the same.
pub open spec fn wsv_applied(transactions: Seq<TransactionView>, wsv: WsvView) -> WsvView
    decreases transactions.len(),
{
    if transactions.len() == 0 {
        wsv
    } else {
        let before = wsv_applied(transactions.drop_last(), wsv);
        let after = transactions.last().validation(
            before,
            PermissionsValidatorBox::AllowAll,
        ).wsv;
        WsvView { transactions: after.transactions.push(transactions.last().hash()), ..after }
    }
}

impl WorldStateView {
    /// Applies a committed block: its transactions are carried out one
    /// after the other and their hashes are recorded as committed.
    pub fn apply(&mut self, block: &CommittedBlock)
        requires
            block.wf(),
        ensures
            final(self)@ == wsv_applied(block@.transactions, old(self)@),
    {
        let ghost views = block@.transactions;
        let mut i: usize = 0;
        assert(views.take(0) =~= Seq::<TransactionView>::empty());
        while i < block.transactions.len()
            invariant
                i <= block.transactions.len(),
                views == block@.transactions,
                all_wf(views),
                self@ == wsv_applied(views.take(i as int), old(self)@),
            decreases block.transactions.len() - i,
        {
            let transaction = block.transactions[i].clone().into_accepted();
            let h = transaction.hash();
            assert(transaction@ == views[i as int]);
            proof {
                let next = views.take(i as int + 1);
                assert(next.drop_last() =~= views.take(i as int));
                assert(next.last() == views[i as int]);
            }
            let _ = transaction.validate(self, &PermissionsValidatorBox::AllowAll);
            self.transactions.push(h);
            i += 1;
        }
        assert(views.take(views.len() as int) =~= views);
    }
}

} // verus!
