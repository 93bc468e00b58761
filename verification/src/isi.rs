//! The instructions that a transaction carries, and what each does to the
//! world state.

use crate::bytes::{append_bytes, append_framed, encode_u64, encoded_u64, framed};
use crate::crypto::PublicKey;
use crate::error::Error;
use crate::peer::{peer_views, position_of, PeerId, PeerIdView};
use crate::seqs::lemma_position;
use crate::wsv::{
    account_id_bytes_of, account_views, append_account_id, append_definition_id,
    definition_id_bytes, definition_views, holds_key, Account, AccountId, AccountIdView,
    AccountView, AssetDefinitionEntry, AssetDefinitionEntryView, AssetDefinitionId,
    AssetDefinitionIdView, WorldStateView, WsvView,
};
use vstd::prelude::*;
use vstd::utf8::encode_utf8;

verus! {

/// Instructions on the peers of the network.
#[derive(Debug)]
pub enum PeerInstruction {
    /// Trust one more peer.
    AddPeer(PeerId),
}

/// Instructions on a domain.
#[derive(Debug)]
pub enum DomainInstruction {
    /// Register an account with its first signatory.
    RegisterAccount(AccountId, PublicKey),
}

/// Instructions on what accounts hold.
#[derive(Debug)]
pub enum AssetInstruction {
    /// Give an amount to an account.
    Mint(u64, AccountId),
    /// Move an amount from the first account to the second.
    Transfer(AccountId, u64, AccountId),
    /// Register a kind of asset in the name of an account.
    RegisterDefinition(AssetDefinitionId, AccountId),
    /// Unregister a kind of asset.
    UnregisterDefinition(AssetDefinitionId),
}

/// Instructions on an account.
#[derive(Debug)]
pub enum AccountInstruction {
    /// Let one more key sign for an account.
    AddSignatory(AccountId, PublicKey),
}

/// Every instruction that a transaction may carry.
#[derive(Debug)]
pub enum Instruction {
    /// An instruction on the peers.
    Peer(PeerInstruction),
    /// An instruction on a domain.
    Domain(DomainInstruction),
    /// An instruction on what accounts hold.
    Asset(AssetInstruction),
    /// An instruction on an account.
    Account(AccountInstruction),
    /// Two instructions, the second to be executed if the first succeeds.
    Compose(Box<Instruction>, Box<Instruction>),
}

/// What an `Instruction` stands for in contracts.
pub enum InstructionView {
    /// Trust one more peer.
    AddPeer(PeerIdView),
    /// Register an account with its first signatory.
    RegisterAccount(AccountIdView, PublicKey),
    /// Give an amount to an account.
    Mint(u64, AccountIdView),
    /// Move an amount from the first account to the second.
    Transfer(AccountIdView, u64, AccountIdView),
    /// Let one more key sign for an account.
    AddSignatory(AccountIdView, PublicKey),
    /// Register a kind of asset in the name of an account.
    RegisterDefinition(AssetDefinitionIdView, AccountIdView),
    /// Unregister a kind of asset.
    UnregisterDefinition(AssetDefinitionIdView),
    /// Two instructions, the second to be executed if the first succeeds.
    Compose(Box<InstructionView>, Box<InstructionView>),
}

impl View for Instruction {
    type V = InstructionView;

    open spec fn view(&self) -> InstructionView
        decreases self,
    {
        match self {
            Instruction::Peer(PeerInstruction::AddPeer(peer)) => InstructionView::AddPeer(peer@),
            Instruction::Domain(DomainInstruction::RegisterAccount(id, key)) => {
                InstructionView::RegisterAccount(id@, *key)
            },
            Instruction::Asset(AssetInstruction::Mint(amount, id)) => {
                InstructionView::Mint(*amount, id@)
            },
            Instruction::Asset(AssetInstruction::Transfer(source, amount, destination)) => {
                InstructionView::Transfer(source@, *amount, destination@)
            },
            Instruction::Account(AccountInstruction::AddSignatory(id, key)) => {
                InstructionView::AddSignatory(id@, *key)
            },
            Instruction::Asset(AssetInstruction::RegisterDefinition(id, by)) => {
                InstructionView::RegisterDefinition(id@, by@)
            },
            Instruction::Asset(AssetInstruction::UnregisterDefinition(id)) => {
                InstructionView::UnregisterDefinition(id@)
            },
            Instruction::Compose(first, second) => {
                InstructionView::Compose(Box::new((**first).view()), Box::new((**second).view()))
            },
        }
    }
}

/// What a list of instructions stands for in contracts.
pub open spec fn instruction_views(instructions: Seq<Instruction>) -> Seq<InstructionView> {
    instructions.map_values(|i: Instruction| i@)
}

/// The bytes that stand for an instruction in a hashed payload.
pub open spec fn instruction_bytes(instruction: InstructionView) -> Seq<u8>
    decreases instruction,
{
    match instruction {
        InstructionView::AddPeer(peer) => seq![0u8] + framed(encode_utf8(peer.address))
            + peer.public_key.0@,
        InstructionView::RegisterAccount(id, key) => seq![1u8] + account_id_bytes_of(id) + key.0@,
        InstructionView::Mint(amount, id) => seq![2u8] + encoded_u64(amount) + account_id_bytes_of(
            id,
        ),
        InstructionView::Transfer(source, amount, destination) => seq![3u8] + account_id_bytes_of(
            source,
        ) + encoded_u64(amount) + account_id_bytes_of(destination),
        InstructionView::AddSignatory(id, key) => seq![4u8] + account_id_bytes_of(id) + key.0@,
        InstructionView::Compose(first, second) => seq![5u8] + instruction_bytes(*first)
            + instruction_bytes(*second),
        InstructionView::RegisterDefinition(id, by) => seq![6u8] + definition_id_bytes(id)
            + account_id_bytes_of(by),
        InstructionView::UnregisterDefinition(id) => seq![7u8] + definition_id_bytes(id),
    }
}

/// The world state that an instruction leaves, and whether it succeeded.
pub struct Outcome {
    /// The world state after the instruction.
    pub wsv: WsvView,
    /// `Ok` if the instruction was carried out, or why it was not.
    pub result: Result<(), Error>,
}

/// The outcome of an instruction that changes nothing and fails.
pub open spec fn refused(wsv: WsvView, error: Error) -> Outcome {
    Outcome { wsv, result: Err(error) }
}

/// The outcome of an instruction that succeeds and leaves `wsv`.
pub open spec fn done(wsv: WsvView) -> Outcome {
    Outcome { wsv, result: Ok(()) }
}

/// What `instruction` does to the world state `wsv`.
///
/// A peer is added unless it is trusted already. An account is registered
/// unless one of its name exists. Minting needs the account and room for
/// the amount. A transfer needs both accounts, the amount in the first and
/// room for it in the second; onto the same account it changes nothing. A
/// signatory is added to an existing account unless it signs for it already.
/// A kind of asset is registered unless one of its name is, and
/// unregistered if it is registered.
/// Of two composed instructions the second runs on what the first left, if
/// the first succeeded; what the first did stays done if the second fails.
pub open spec fn run(instruction: InstructionView, wsv: WsvView) -> Outcome
    decreases instruction,
{
    match instruction {
        InstructionView::AddPeer(peer) => {
            if wsv.trusted_peers_ids.contains(peer) {
                refused(wsv, Error::PeerExists)
            } else {
                done(WsvView { trusted_peers_ids: wsv.trusted_peers_ids.push(peer), ..wsv })
            }
        },
        InstructionView::RegisterAccount(id, key) => {
            if wsv.has_account(id) {
                refused(wsv, Error::AccountExists)
            } else {
                done(
                    WsvView {
                        accounts: wsv.accounts.push(
                            AccountView {
                                id,
                                signatories: seq![key],
                                signature_threshold: 1,
                                balance: 0,
                            },
                        ),
                        ..wsv
                    },
                )
            }
        },
        InstructionView::Mint(amount, id) => {
            let k = wsv.account_position(id);
            if !wsv.has_account(id) {
                refused(wsv, Error::AccountNotFound)
            } else if wsv.accounts[k].balance + amount > u64::MAX {
                refused(wsv, Error::Overflow)
            } else {
                done(
                    wsv.with_account(
                        k,
                        AccountView {
                            balance: (wsv.accounts[k].balance + amount) as u64,
                            ..wsv.accounts[k]
                        },
                    ),
                )
            }
        },
        InstructionView::Transfer(source, amount, destination) => {
            let s = wsv.account_position(source);
            let d = wsv.account_position(destination);
            if !wsv.has_account(source) || !wsv.has_account(destination) {
                refused(wsv, Error::AccountNotFound)
            } else if wsv.accounts[s].balance < amount {
                refused(wsv, Error::InsufficientFunds)
            } else if s == d {
                done(wsv)
            } else if wsv.accounts[d].balance + amount > u64::MAX {
                refused(wsv, Error::Overflow)
            } else {
                done(
                    wsv.with_account(
                        s,
                        AccountView {
                            balance: (wsv.accounts[s].balance - amount) as u64,
                            ..wsv.accounts[s]
                        },
                    ).with_account(
                        d,
                        AccountView {
                            balance: (wsv.accounts[d].balance + amount) as u64,
                            ..wsv.accounts[d]
                        },
                    ),
                )
            }
        },
        InstructionView::AddSignatory(id, key) => {
            let k = wsv.account_position(id);
            if !wsv.has_account(id) {
                refused(wsv, Error::AccountNotFound)
            } else if wsv.accounts[k].signatories.contains(key) {
                done(wsv)
            } else {
                done(
                    wsv.with_account(
                        k,
                        AccountView {
                            signatories: wsv.accounts[k].signatories.push(key),
                            ..wsv.accounts[k]
                        },
                    ),
                )
            }
        },
        InstructionView::RegisterDefinition(id, by) => {
            if wsv.has_definition(id) {
                refused(wsv, Error::AssetDefinitionExists)
            } else {
                done(
                    WsvView {
                        asset_definitions: wsv.asset_definitions.push(
                            AssetDefinitionEntryView { id, registered_by: by },
                        ),
                        ..wsv
                    },
                )
            }
        },
        InstructionView::UnregisterDefinition(id) => {
            if !wsv.has_definition(id) {
                refused(wsv, Error::AssetDefinitionNotFound)
            } else {
                done(
                    WsvView {
                        asset_definitions: wsv.asset_definitions.remove(
                            wsv.definition_position(id),
                        ),
                        ..wsv
                    },
                )
            }
        },
        InstructionView::Compose(first, second) => {
            let half = run(*first, wsv);
            if half.result is Ok {
                run(*second, half.wsv)
            } else {
                half
            }
        },
    }
}

fn set_account(wsv: &mut WorldStateView, index: usize, account: Account)
    requires
        index < old(wsv).accounts@.len(),
    ensures
        final(wsv)@ == old(wsv)@.with_account(index as int, account@),
        final(wsv).accounts@.len() == old(wsv).accounts@.len(),
{
    wsv.accounts[index] = account;
    assert(account_views(wsv.accounts@) =~= account_views(old(wsv).accounts@).update(
        index as int,
        account@,
    ));
}

impl Instruction {
    /// Appends the bytes that stand for the instruction in a hashed payload.
    pub fn append_bytes_to(&self, dst: &mut Vec<u8>)
        ensures
            final(dst)@ == old(dst)@ + instruction_bytes(self@),
        decreases self,
    {
        match self {
            Instruction::Peer(PeerInstruction::AddPeer(peer)) => {
                dst.push(0u8);
                append_framed(dst, peer.address.as_str().as_bytes());
                append_bytes(dst, peer.public_key.0.as_slice());
            },
            Instruction::Domain(DomainInstruction::RegisterAccount(id, key)) => {
                dst.push(1u8);
                append_account_id(dst, id);
                append_bytes(dst, key.0.as_slice());
            },
            Instruction::Asset(AssetInstruction::Mint(amount, id)) => {
                dst.push(2u8);
                let encoded = encode_u64(*amount);
                append_bytes(dst, encoded.as_slice());
                append_account_id(dst, id);
            },
            Instruction::Asset(AssetInstruction::Transfer(source, amount, destination)) => {
                dst.push(3u8);
                append_account_id(dst, source);
                let encoded = encode_u64(*amount);
                append_bytes(dst, encoded.as_slice());
                append_account_id(dst, destination);
            },
            Instruction::Account(AccountInstruction::AddSignatory(id, key)) => {
                dst.push(4u8);
                append_account_id(dst, id);
                append_bytes(dst, key.0.as_slice());
            },
            Instruction::Compose(first, second) => {
                dst.push(5u8);
                first.append_bytes_to(dst);
                second.append_bytes_to(dst);
            },
            Instruction::Asset(AssetInstruction::RegisterDefinition(id, by)) => {
                dst.push(6u8);
                append_definition_id(dst, id);
                append_account_id(dst, by);
            },
            Instruction::Asset(AssetInstruction::UnregisterDefinition(id)) => {
                dst.push(7u8);
                append_definition_id(dst, id);
            },
        }
        assert(dst@ =~= old(dst)@ + instruction_bytes(self@));
    }

    /// A copy of the instruction.
    pub fn duplicate(&self) -> (r: Instruction)
        ensures
            r@ == self@,
        decreases self,
    {
        match self {
            Instruction::Peer(PeerInstruction::AddPeer(peer)) => {
                Instruction::Peer(PeerInstruction::AddPeer(peer.clone()))
            },
            Instruction::Domain(DomainInstruction::RegisterAccount(id, key)) => {
                Instruction::Domain(DomainInstruction::RegisterAccount(id.clone(), *key))
            },
            Instruction::Asset(AssetInstruction::Mint(amount, id)) => {
                Instruction::Asset(AssetInstruction::Mint(*amount, id.clone()))
            },
            Instruction::Asset(AssetInstruction::Transfer(source, amount, destination)) => {
                Instruction::Asset(
                    AssetInstruction::Transfer(source.clone(), *amount, destination.clone()),
                )
            },
            Instruction::Account(AccountInstruction::AddSignatory(id, key)) => {
                Instruction::Account(AccountInstruction::AddSignatory(id.clone(), *key))
            },
            Instruction::Compose(first, second) => {
                Instruction::Compose(Box::new(first.duplicate()), Box::new(second.duplicate()))
            },
            Instruction::Asset(AssetInstruction::RegisterDefinition(id, by)) => {
                Instruction::Asset(AssetInstruction::RegisterDefinition(id.clone(), by.clone()))
            },
            Instruction::Asset(AssetInstruction::UnregisterDefinition(id)) => {
                Instruction::Asset(AssetInstruction::UnregisterDefinition(id.clone()))
            },
        }
    }

    /// Carries the instruction out on `world_state_view`.
    ///
    /// What it does and when it fails is `run`.
    pub fn execute(&self, world_state_view: &mut WorldStateView) -> (r: Result<(), Error>)
        ensures
            final(world_state_view)@ == run(self@, old(world_state_view)@).wsv,
            r == run(self@, old(world_state_view)@).result,
        decreases self,
    {
        match self {
            Instruction::Peer(PeerInstruction::AddPeer(peer)) => {
                let at = position_of(world_state_view.trusted_peers_ids.as_slice(), peer);
                proof {
                    lemma_position(world_state_view@.trusted_peers_ids, peer@);
                }
                if at < world_state_view.trusted_peers_ids.len() {
                    Err(Error::PeerExists)
                } else {
                    world_state_view.trusted_peers_ids.push(peer.clone());
                    assert(world_state_view@.trusted_peers_ids =~= old(
                        world_state_view,
                    )@.trusted_peers_ids.push(peer@));
                    Ok(())
                }
            },
            Instruction::Domain(DomainInstruction::RegisterAccount(id, key)) => {
                let at = world_state_view.account_position(id);
                if at < world_state_view.accounts.len() {
                    Err(Error::AccountExists)
                } else {
                    let account = Account::new(id.clone(), *key);
                    world_state_view.accounts.push(account);
                    assert(world_state_view@.accounts =~= old(world_state_view)@.accounts.push(
                        account@,
                    ));
                    Ok(())
                }
            },
            Instruction::Asset(AssetInstruction::Mint(amount, id)) => {
                let at = world_state_view.account_position(id);
                if at >= world_state_view.accounts.len() {
                    return Err(Error::AccountNotFound);
                }
                let mut account = world_state_view.accounts[at].clone();
                if *amount > u64::MAX - account.balance {
                    return Err(Error::Overflow);
                }
                account.balance = account.balance + *amount;
                set_account(world_state_view, at, account);
                Ok(())
            },
            Instruction::Asset(AssetInstruction::Transfer(source, amount, destination)) => {
                let from = world_state_view.account_position(source);
                let to = world_state_view.account_position(destination);
                let len = world_state_view.accounts.len();
                if from >= len || to >= len {
                    return Err(Error::AccountNotFound);
                }
                let mut giver = world_state_view.accounts[from].clone();
                let mut taker = world_state_view.accounts[to].clone();
                if giver.balance < *amount {
                    return Err(Error::InsufficientFunds);
                }
                if from == to {
                    return Ok(());
                }
                if *amount > u64::MAX - taker.balance {
                    return Err(Error::Overflow);
                }
                giver.balance = giver.balance - *amount;
                taker.balance = taker.balance + *amount;
                set_account(world_state_view, from, giver);
                set_account(world_state_view, to, taker);
                Ok(())
            },
            Instruction::Account(AccountInstruction::AddSignatory(id, key)) => {
                let at = world_state_view.account_position(id);
                if at >= world_state_view.accounts.len() {
                    return Err(Error::AccountNotFound);
                }
                let mut account = world_state_view.accounts[at].clone();
                if holds_key(account.signatories.as_slice(), key) {
                    return Ok(());
                }
                account.signatories.push(*key);
                set_account(world_state_view, at, account);
                Ok(())
            },
            Instruction::Asset(AssetInstruction::RegisterDefinition(id, by)) => {
                let at = world_state_view.definition_position(id);
                if at < world_state_view.asset_definitions.len() {
                    Err(Error::AssetDefinitionExists)
                } else {
                    let entry = AssetDefinitionEntry { id: id.clone(), registered_by: by.clone() };
                    world_state_view.asset_definitions.push(entry);
                    assert(world_state_view@.asset_definitions =~= old(
                        world_state_view,
                    )@.asset_definitions.push(entry@));
                    Ok(())
                }
            },
            Instruction::Asset(AssetInstruction::UnregisterDefinition(id)) => {
                let at = world_state_view.definition_position(id);
                if at >= world_state_view.asset_definitions.len() {
                    Err(Error::AssetDefinitionNotFound)
                } else {
                    let _ = world_state_view.asset_definitions.remove(at);
                    assert(world_state_view@.asset_definitions =~= old(
                        world_state_view,
                    )@.asset_definitions.remove(at as int));
                    Ok(())
                }
            },
            Instruction::Compose(first, second) => {
                match first.execute(world_state_view) {
                    Ok(()) => second.execute(world_state_view),
                    Err(error) => Err(error),
                }
            },
        }
    }
}

/// A copy of a list of instructions.
pub fn copy_instructions(instructions: &[Instruction]) -> (r: Vec<Instruction>)
    ensures
        instruction_views(r@) == instruction_views(instructions@),
{
    let mut r: Vec<Instruction> = Vec::new();
    let mut i: usize = 0;
    while i < instructions.len()
        invariant
            i <= instructions.len(),
            r@.len() == i,
            forall|j: int| 0 <= j < i ==> r@[j]@ == instructions@[j]@,
        decreases instructions.len() - i,
    {
        r.push(instructions[i].duplicate());
        i += 1;
    }
    assert(instruction_views(r@) =~= instruction_views(instructions@));
    r
}

/// Something that is found by an identification of its own kind.
pub trait Identifiable {
    /// The kind of identification.
    type Id;
}

impl Identifiable for Account {
    type Id = AccountId;
}

/// An addition of an object to what `destination_id` names.
pub struct Add<D: Identifiable, O> {
    /// What is added.
    pub object: O,
    /// To what it is added.
    pub destination_id: D::Id,
}

impl<D: Identifiable, O> Add<D, O> {
    /// The addition of `object` to what `destination_id` names.
    pub fn new(object: O, destination_id: D::Id) -> (r: Self)
        ensures
            r.object == object,
            r.destination_id == destination_id,
    {
        Add { object, destination_id }
    }
}

/// A registration of an object with what `destination_id` names.
pub struct Register<D: Identifiable, O> {
    /// What is registered.
    pub object: O,
    /// With what it is registered.
    pub destination_id: D::Id,
}

impl<D: Identifiable, O> Register<D, O> {
    /// The registration of `object` with what `destination_id` names.
    pub fn new(object: O, destination_id: D::Id) -> (r: Self)
        ensures
            r.object == object,
            r.destination_id == destination_id,
    {
        Register { object, destination_id }
    }
}

/// A minting of an object for what `destination_id` names.
pub struct Mint<D: Identifiable, O> {
    /// What is minted.
    pub object: O,
    /// For what it is minted.
    pub destination_id: D::Id,
}

impl<D: Identifiable, O> Mint<D, O> {
    /// The minting of `object` for what `destination_id` names.
    pub fn new(object: O, destination_id: D::Id) -> (r: Self)
        ensures
            r.object == object,
            r.destination_id == destination_id,
    {
        Mint { object, destination_id }
    }
}

/// A transfer of an object from what `source_id` names to what
/// `destination_id` names.
pub struct Transfer<Src: Identifiable, Obj, Dst: Identifiable> {
    /// From what the object is taken.
    pub source_id: Src::Id,
    /// What is transferred.
    pub object: Obj,
    /// To what the object is given.
    pub destination_id: Dst::Id,
}

impl<Src: Identifiable, Obj, Dst: Identifiable> Transfer<Src, Obj, Dst> {
    /// The transfer of `object` from what `source_id` names to what
    /// `destination_id` names.
    pub fn new(source_id: Src::Id, object: Obj, destination_id: Dst::Id) -> (r: Self)
        ensures
            r.source_id == source_id,
            r.object == object,
            r.destination_id == destination_id,
    {
        Transfer { source_id, object, destination_id }
    }
}

impl From<Mint<Account, u64>> for Instruction {
    fn from(mint: Mint<Account, u64>) -> (r: Self) {
        Instruction::Asset(AssetInstruction::Mint(mint.object, mint.destination_id))
    }
}

impl vstd::std_specs::convert::FromSpecImpl<Mint<Account, u64>> for Instruction {
    open spec fn obeys_from_spec() -> bool {
        true
    }

    open spec fn from_spec(mint: Mint<Account, u64>) -> Self {
        Instruction::Asset(AssetInstruction::Mint(mint.object, mint.destination_id))
    }
}

impl From<Transfer<Account, u64, Account>> for Instruction {
    fn from(transfer: Transfer<Account, u64, Account>) -> (r: Self) {
        Instruction::Asset(
            AssetInstruction::Transfer(
                transfer.source_id,
                transfer.object,
                transfer.destination_id,
            ),
        )
    }
}

impl vstd::std_specs::convert::FromSpecImpl<Transfer<Account, u64, Account>> for Instruction {
    open spec fn obeys_from_spec() -> bool {
        true
    }

    open spec fn from_spec(transfer: Transfer<Account, u64, Account>) -> Self {
        Instruction::Asset(
            AssetInstruction::Transfer(
                transfer.source_id,
                transfer.object,
                transfer.destination_id,
            ),
        )
    }
}

impl From<Add<Account, PublicKey>> for Instruction {
    fn from(add: Add<Account, PublicKey>) -> (r: Self) {
        Instruction::Account(AccountInstruction::AddSignatory(add.destination_id, add.object))
    }
}

impl vstd::std_specs::convert::FromSpecImpl<Add<Account, PublicKey>> for Instruction {
    open spec fn obeys_from_spec() -> bool {
        true
    }

    open spec fn from_spec(add: Add<Account, PublicKey>) -> Self {
        Instruction::Account(AccountInstruction::AddSignatory(add.destination_id, add.object))
    }
}

impl From<Register<Account, PublicKey>> for Instruction {
    fn from(register: Register<Account, PublicKey>) -> (r: Self) {
        Instruction::Domain(
            DomainInstruction::RegisterAccount(register.destination_id, register.object),
        )
    }
}

impl vstd::std_specs::convert::FromSpecImpl<Register<Account, PublicKey>> for Instruction {
    open spec fn obeys_from_spec() -> bool {
        true
    }

    open spec fn from_spec(register: Register<Account, PublicKey>) -> Self {
        Instruction::Domain(
            DomainInstruction::RegisterAccount(register.destination_id, register.object),
        )
    }
}

} // verus!
