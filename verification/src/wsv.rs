//! The world state: the accounts, the kinds of asset, the trusted peers and
//! the hashes of the transactions that were committed.

use crate::bytes::{append_framed, framed};
use crate::crypto;
use crate::crypto::PublicKey;
use crate::peer::{copy_peers, peer_views, PeerId, PeerIdView};
use crate::seqs::{lemma_position, position};
use vstd::prelude::*;
use vstd::utf8::encode_utf8;

verus! {

/// The name of an account and of the domain it belongs to.
#[derive(Debug, Eq)]
pub struct AccountId {
    /// The name of the account within its domain.
    pub name: String,
    /// The name of the domain.
    pub domain_name: String,
}

/// What an `AccountId` stands for in contracts.
pub struct AccountIdView {
    /// The characters of the account name.
    pub name: Seq<char>,
    /// The characters of the domain name.
    pub domain_name: Seq<char>,
}

impl View for AccountId {
    type V = AccountIdView;

    open spec fn view(&self) -> AccountIdView {
        AccountIdView { name: self.name@, domain_name: self.domain_name@ }
    }
}

impl Clone for AccountId {
    fn clone(&self) -> (r: Self)
        ensures
            r@ == self@,
    {
        AccountId { name: self.name.clone(), domain_name: self.domain_name.clone() }
    }
}

impl PartialEq for AccountId {
    fn eq(&self, other: &Self) -> (r: bool) {
        self.name == other.name && self.domain_name == other.domain_name
    }
}

impl vstd::std_specs::cmp::PartialEqSpecImpl for AccountId {
    open spec fn obeys_eq_spec() -> bool {
        true
    }

    open spec fn eq_spec(&self, other: &Self) -> bool {
        self@ == other@
    }
}

impl AccountId {
    /// The account `name` of the domain `domain_name`.
    pub fn new(name: &str, domain_name: &str) -> (r: AccountId)
        ensures
            r@ == (AccountIdView { name: name@, domain_name: domain_name@ }),
    {
        AccountId { name: name.to_owned(), domain_name: domain_name.to_owned() }
    }
}

/// The name of a kind of asset and of the domain it belongs to.
#[derive(Debug, Eq)]
pub struct AssetDefinitionId {
    /// The name of the kind of asset within its domain.
    pub name: String,
    /// The name of the domain.
    pub domain_name: String,
}

/// What an `AssetDefinitionId` stands for in contracts.
pub struct AssetDefinitionIdView {
    /// The characters of the name.
    pub name: Seq<char>,
    /// The characters of the domain name.
    pub domain_name: Seq<char>,
}

impl View for AssetDefinitionId {
    type V = AssetDefinitionIdView;

    open spec fn view(&self) -> AssetDefinitionIdView {
        AssetDefinitionIdView { name: self.name@, domain_name: self.domain_name@ }
    }
}

impl Clone for AssetDefinitionId {
    fn clone(&self) -> (r: Self)
        ensures
            r@ == self@,
    {
        AssetDefinitionId { name: self.name.clone(), domain_name: self.domain_name.clone() }
    }
}

impl PartialEq for AssetDefinitionId {
    fn eq(&self, other: &Self) -> (r: bool) {
        self.name == other.name && self.domain_name == other.domain_name
    }
}

impl vstd::std_specs::cmp::PartialEqSpecImpl for AssetDefinitionId {
    open spec fn obeys_eq_spec() -> bool {
        true
    }

    open spec fn eq_spec(&self, other: &Self) -> bool {
        self@ == other@
    }
}

impl AssetDefinitionId {
    /// The kind of asset `name` of the domain `domain_name`.
    pub fn new(name: &str, domain_name: &str) -> (r: AssetDefinitionId)
        ensures
            r@ == (AssetDefinitionIdView { name: name@, domain_name: domain_name@ }),
    {
        AssetDefinitionId { name: name.to_owned(), domain_name: domain_name.to_owned() }
    }
}

/// A kind of asset, and the account that registered it.
#[derive(Debug)]
pub struct AssetDefinitionEntry {
    /// The name of the kind of asset.
    pub id: AssetDefinitionId,
    /// The account that registered it.
    pub registered_by: AccountId,
}

/// What an `AssetDefinitionEntry` stands for in contracts.
pub struct AssetDefinitionEntryView {
    /// The name of the kind of asset.
    pub id: AssetDefinitionIdView,
    /// The account that registered it.
    pub registered_by: AccountIdView,
}

impl View for AssetDefinitionEntry {
    type V = AssetDefinitionEntryView;

    open spec fn view(&self) -> AssetDefinitionEntryView {
        AssetDefinitionEntryView { id: self.id@, registered_by: self.registered_by@ }
    }
}

impl Clone for AssetDefinitionEntry {
    fn clone(&self) -> (r: Self)
        ensures
            r@ == self@,
    {
        AssetDefinitionEntry { id: self.id.clone(), registered_by: self.registered_by.clone() }
    }
}

/// What a list of asset definitions stands for in contracts.
pub open spec fn definition_views(entries: Seq<AssetDefinitionEntry>) -> Seq<
    AssetDefinitionEntryView,
> {
    entries.map_values(|e: AssetDefinitionEntry| e@)
}

/// The names of a list of asset definitions, in its order.
pub open spec fn definition_ids(entries: Seq<AssetDefinitionEntryView>) -> Seq<
    AssetDefinitionIdView,
> {
    entries.map_values(|e: AssetDefinitionEntryView| e.id)
}

/// The bytes that stand for the name of a kind of asset in a hashed payload.
pub open spec fn definition_id_bytes(id: AssetDefinitionIdView) -> Seq<u8> {
    framed(encode_utf8(id.name)) + framed(encode_utf8(id.domain_name))
}

/// Appends the bytes that stand for `id` in a hashed payload.
pub fn append_definition_id(dst: &mut Vec<u8>, id: &AssetDefinitionId)
    ensures
        final(dst)@ == old(dst)@ + definition_id_bytes(id@),
{
    append_framed(dst, id.name.as_str().as_bytes());
    append_framed(dst, id.domain_name.as_str().as_bytes());
    assert(dst@ =~= old(dst)@ + definition_id_bytes(id@));
}

/// The bytes that stand for an account name in a hashed payload.
pub open spec fn account_id_bytes_of(id: AccountIdView) -> Seq<u8> {
    framed(encode_utf8(id.name)) + framed(encode_utf8(id.domain_name))
}

/// Appends the bytes that stand for `id` in a hashed payload.
pub fn append_account_id(dst: &mut Vec<u8>, id: &AccountId)
    ensures
        final(dst)@ == old(dst)@ + account_id_bytes_of(id@),
{
    append_framed(dst, id.name.as_str().as_bytes());
    append_framed(dst, id.domain_name.as_str().as_bytes());
    assert(dst@ =~= old(dst)@ + account_id_bytes_of(id@));
}

/// An account: who may sign for it, how many of them must, and what it holds.
#[derive(Debug)]
pub struct Account {
    /// The name of the account.
    pub id: AccountId,
    /// The public keys that may sign for the account.
    pub signatories: Vec<PublicKey>,
    /// How many signatories must sign a transaction of the account.
    pub signature_threshold: u32,
    /// What the account holds.
    pub balance: u64,
}

/// What an `Account` stands for in contracts.
pub struct AccountView {
    /// The name of the account.
    pub id: AccountIdView,
    /// The public keys that may sign for the account.
    pub signatories: Seq<PublicKey>,
    /// How many signatories must sign a transaction of the account.
    pub signature_threshold: u32,
    /// What the account holds.
    pub balance: u64,
}

impl View for Account {
    type V = AccountView;

    open spec fn view(&self) -> AccountView {
        AccountView {
            id: self.id@,
            signatories: self.signatories@,
            signature_threshold: self.signature_threshold,
            balance: self.balance,
        }
    }
}

impl Clone for Account {
    fn clone(&self) -> (r: Self)
        ensures
            r@ == self@,
    {
        Account {
            id: self.id.clone(),
            signatories: copy_keys(self.signatories.as_slice()),
            signature_threshold: self.signature_threshold,
            balance: self.balance,
        }
    }
}

impl Account {
    /// A new account with one signatory, a threshold of one and nothing to its name.
    pub fn new(id: AccountId, signatory: PublicKey) -> (r: Account)
        ensures
            r@ == (AccountView {
                id: id@,
                signatories: seq![signatory],
                signature_threshold: 1,
                balance: 0,
            }),
    {
        let mut signatories: Vec<PublicKey> = Vec::new();
        signatories.push(signatory);
        assert(signatories@ =~= seq![signatory]);
        Account { id, signatories, signature_threshold: 1, balance: 0 }
    }
}

/// A copy of a list of keys.
pub fn copy_keys(keys: &[PublicKey]) -> (r: Vec<PublicKey>)
    ensures
        r@ == keys@,
{
    let mut r: Vec<PublicKey> = Vec::new();
    let mut i: usize = 0;
    while i < keys.len()
        invariant
            i <= keys.len(),
            r@ == keys@.take(i as int),
        decreases keys.len() - i,
    {
        r.push(keys[i]);
        assert(keys@.take(i as int + 1) =~= keys@.take(i as int).push(keys@[i as int]));
        i += 1;
    }
    assert(keys@.take(keys@.len() as int) =~= keys@);
    r
}

/// A copy of a list of hashes.
pub fn copy_hashes(hashes: &[crypto::Hash]) -> (r: Vec<crypto::Hash>)
    ensures
        r@ == hashes@,
{
    let mut r: Vec<crypto::Hash> = Vec::new();
    let mut i: usize = 0;
    while i < hashes.len()
        invariant
            i <= hashes.len(),
            r@ == hashes@.take(i as int),
        decreases hashes.len() - i,
    {
        r.push(hashes[i]);
        assert(hashes@.take(i as int + 1) =~= hashes@.take(i as int).push(hashes@[i as int]));
        i += 1;
    }
    assert(hashes@.take(hashes@.len() as int) =~= hashes@);
    r
}

/// Whether `key` is one of `keys`.
pub fn holds_key(keys: &[PublicKey], key: &PublicKey) -> (r: bool)
    ensures
        r == keys@.contains(*key),
{
    let mut i: usize = 0;
    while i < keys.len()
        invariant
            i <= keys.len(),
            forall|j: int| 0 <= j < i ==> keys@[j] != *key,
        decreases keys.len() - i,
    {
        if keys[i] == *key {
            return true;
        }
        i += 1;
    }
    false
}

/// Whether `hash` is one of `hashes`.
pub fn holds_hash(hashes: &[crypto::Hash], hash: &crypto::Hash) -> (r: bool)
    ensures
        r == hashes@.contains(*hash),
{
    let mut i: usize = 0;
    while i < hashes.len()
        invariant
            i <= hashes.len(),
            forall|j: int| 0 <= j < i ==> hashes@[j] != *hash,
        decreases hashes.len() - i,
    {
        if hashes[i] == *hash {
            return true;
        }
        i += 1;
    }
    false
}

/// What a list of accounts stands for in contracts.
pub open spec fn account_views(accounts: Seq<Account>) -> Seq<AccountView> {
    accounts.map_values(|a: Account| a@)
}

/// The names of a list of accounts, in its order.
pub open spec fn account_ids(accounts: Seq<AccountView>) -> Seq<AccountIdView> {
    accounts.map_values(|a: AccountView| a.id)
}

/// The world state as the consensus sees it.
#[derive(Debug)]
pub struct WorldStateView {
    /// The accounts.
    pub accounts: Vec<Account>,
    /// The kinds of asset that were registered.
    pub asset_definitions: Vec<AssetDefinitionEntry>,
    /// The peers that are trusted to take part in the consensus.
    pub trusted_peers_ids: Vec<PeerId>,
    /// The hashes of the transactions that were committed.
    pub transactions: Vec<crypto::Hash>,
}

/// What a `WorldStateView` stands for in contracts.
pub struct WsvView {
    /// The accounts.
    pub accounts: Seq<AccountView>,
    /// The kinds of asset that were registered.
    pub asset_definitions: Seq<AssetDefinitionEntryView>,
    /// The peers that are trusted to take part in the consensus.
    pub trusted_peers_ids: Seq<PeerIdView>,
    /// The hashes of the transactions that were committed.
    pub transactions: Seq<crypto::Hash>,
}

impl WsvView {
    /// Where the account `id` stands among the accounts, or their number if
    /// there is no such account.
    pub open spec fn account_position(self, id: AccountIdView) -> int {
        position(account_ids(self.accounts), id)
    }

    /// Whether there is an account `id`.
    pub open spec fn has_account(self, id: AccountIdView) -> bool {
        self.account_position(id) < self.accounts.len()
    }

    /// Where the kind of asset `id` stands among those registered, or
    /// their number if there is no such kind.
    pub open spec fn definition_position(self, id: AssetDefinitionIdView) -> int {
        position(definition_ids(self.asset_definitions), id)
    }

    /// Whether the kind of asset `id` is registered.
    pub open spec fn has_definition(self, id: AssetDefinitionIdView) -> bool {
        self.definition_position(id) < self.asset_definitions.len()
    }

    /// The world state with `account` in place of the account at `index`.
    pub open spec fn with_account(self, index: int, account: AccountView) -> WsvView {
        WsvView { accounts: self.accounts.update(index, account), ..self }
    }
}

impl View for WorldStateView {
    type V = WsvView;

    open spec fn view(&self) -> WsvView {
        WsvView {
            accounts: account_views(self.accounts@),
            asset_definitions: definition_views(self.asset_definitions@),
            trusted_peers_ids: peer_views(self.trusted_peers_ids@),
            transactions: self.transactions@,
        }
    }
}

impl Clone for WorldStateView {
    fn clone(&self) -> (r: Self)
        ensures
            r@ == self@,
    {
        let mut accounts: Vec<Account> = Vec::new();
        let mut i: usize = 0;
        while i < self.accounts.len()
            invariant
                i <= self.accounts.len(),
                accounts@.len() == i,
                forall|j: int| 0 <= j < i ==> accounts@[j]@ == self.accounts@[j]@,
            decreases self.accounts.len() - i,
        {
            accounts.push(self.accounts[i].clone());
            i += 1;
        }
        assert(account_views(accounts@) =~= account_views(self.accounts@));
        let mut asset_definitions: Vec<AssetDefinitionEntry> = Vec::new();
        let mut k: usize = 0;
        while k < self.asset_definitions.len()
            invariant
                k <= self.asset_definitions.len(),
                asset_definitions@.len() == k,
                forall|j: int|
                    0 <= j < k ==> asset_definitions@[j]@ == self.asset_definitions@[j]@,
            decreases self.asset_definitions.len() - k,
        {
            asset_definitions.push(self.asset_definitions[k].clone());
            k += 1;
        }
        assert(definition_views(asset_definitions@) =~= definition_views(
            self.asset_definitions@,
        ));
        WorldStateView {
            accounts,
            asset_definitions,
            trusted_peers_ids: copy_peers(self.trusted_peers_ids.as_slice()),
            transactions: copy_hashes(self.transactions.as_slice()),
        }
    }
}

impl WorldStateView {
    /// The world state without accounts, peers or transactions.
    pub fn new() -> (r: WorldStateView)
        ensures
            r@.accounts == Seq::<AccountView>::empty(),
            r@.asset_definitions == Seq::<AssetDefinitionEntryView>::empty(),
            r@.trusted_peers_ids == Seq::<PeerIdView>::empty(),
            r@.transactions == Seq::<crypto::Hash>::empty(),
    {
        let r = WorldStateView {
            accounts: Vec::new(),
            asset_definitions: Vec::new(),
            trusted_peers_ids: Vec::new(),
            transactions: Vec::new(),
        };
        assert(r@.accounts =~= Seq::<AccountView>::empty());
        assert(r@.asset_definitions =~= Seq::<AssetDefinitionEntryView>::empty());
        assert(r@.trusted_peers_ids =~= Seq::<PeerIdView>::empty());
        r
    }

    /// Whether the transaction with `hash` was committed.
    pub fn has_transaction(&self, hash: &crypto::Hash) -> (r: bool)
        ensures
            r == self@.transactions.contains(*hash),
    {
        holds_hash(self.transactions.as_slice(), hash)
    }

    /// The peers that are trusted to take part in the consensus.
    pub fn trusted_peers_ids(&self) -> (r: &[PeerId])
        ensures
            peer_views(r@) == self@.trusted_peers_ids,
    {
        self.trusted_peers_ids.as_slice()
    }

    /// Where the account `id` stands among the accounts, or their number if
    /// there is no such account.
    pub fn account_position(&self, id: &AccountId) -> (i: usize)
        ensures
            i == self@.account_position(id@),
            i <= self.accounts@.len(),
            i < self.accounts@.len() ==> self.accounts@[i as int]@.id == id@,
    {
        let ghost ids = account_ids(self@.accounts);
        proof {
            lemma_position(ids, id@);
        }
        let mut i: usize = 0;
        while i < self.accounts.len()
            invariant
                i <= self.accounts.len(),
                ids == account_ids(self@.accounts),
                forall|j: int| 0 <= j < i ==> ids[j] != id@,
                0 <= position(ids, id@) <= ids.len(),
                position(ids, id@) < ids.len() ==> ids[position(ids, id@)] == id@,
                forall|j: int| 0 <= j < position(ids, id@) ==> ids[j] != id@,
            decreases self.accounts.len() - i,
        {
            if self.accounts[i].id == *id {
                assert(ids[i as int] == id@);
                return i;
            }
            assert(ids[i as int] != id@);
            i += 1;
        }
        i
    }

    /// Where the kind of asset `id` stands among those registered, or
    /// their number if there is no such kind.
    pub fn definition_position(&self, id: &AssetDefinitionId) -> (i: usize)
        ensures
            i == self@.definition_position(id@),
            i <= self.asset_definitions@.len(),
            i < self.asset_definitions@.len() ==> self.asset_definitions@[i as int]@.id == id@,
    {
        let ghost ids = definition_ids(self@.asset_definitions);
        proof {
            lemma_position(ids, id@);
        }
        let mut i: usize = 0;
        while i < self.asset_definitions.len()
            invariant
                i <= self.asset_definitions.len(),
                ids == definition_ids(self@.asset_definitions),
                forall|j: int| 0 <= j < i ==> ids[j] != id@,
                0 <= position(ids, id@) <= ids.len(),
                position(ids, id@) < ids.len() ==> ids[position(ids, id@)] == id@,
                forall|j: int| 0 <= j < position(ids, id@) ==> ids[j] != id@,
            decreases self.asset_definitions.len() - i,
        {
            if self.asset_definitions[i].id == *id {
                assert(ids[i as int] == id@);
                return i;
            }
            assert(ids[i as int] != id@);
            i += 1;
        }
        i
    }

    /// The kind of asset `id` as it was registered, if it was.
    pub fn read_asset_definition_entry(&self, id: &AssetDefinitionId) -> (r: Option<
        &AssetDefinitionEntry,
    >)
        ensures
            r is Some == self@.has_definition(id@),
            r is Some ==> r->Some_0@ == self@.asset_definitions[self@.definition_position(id@)],
    {
        let at = self.definition_position(id);
        if at < self.asset_definitions.len() {
            Some(&self.asset_definitions[at])
        } else {
            None
        }
    }
}

} // verus!
