//! Who may do what: the validators that instructions are held against
//! before they are carried out.

use crate::error::Error;
use crate::isi::{AssetInstruction, Instruction, InstructionView};
use crate::wsv::{AccountId, AccountIdView, WorldStateView, WsvView};
use vstd::prelude::*;

verus! {

/// Whether `instruction`, if it is a transfer, takes from the account
/// `authority`.
pub open spec fn transfers_own(authority: AccountIdView, instruction: InstructionView) -> bool {
    match instruction {
        InstructionView::Transfer(source, _, _) => source == authority,
        _ => true,
    }
}

/// Whether `instruction`, if it unregisters a registered kind of asset,
/// unregisters one that the account `authority` registered.
pub open spec fn unregisters_own(
    authority: AccountIdView,
    instruction: InstructionView,
    wsv: WsvView,
) -> bool {
    match instruction {
        InstructionView::UnregisterDefinition(id) => wsv.has_definition(id)
            ==> wsv.asset_definitions[wsv.definition_position(id)].registered_by == authority,
        _ => true,
    }
}

/// The validator that refuses nothing.
#[derive(Clone, Copy, Debug)]
pub struct AllowAll;

impl AllowAll {
    /// Lets every instruction pass.
    pub fn check_instruction(
        &self,
        authority: &AccountId,
        instruction: &Instruction,
        wsv: &WorldStateView,
    ) -> (r: Result<(), Error>)
        ensures
            r is Ok,
    {
        Ok(())
    }
}

/// The validator that lets an account transfer only what it holds itself.
#[derive(Clone, Copy, Debug)]
pub struct TransferOnlyOwnedAssets;

impl TransferOnlyOwnedAssets {
    /// Refuses, with `NotPermitted`, a transfer from another account than
    /// `authority`, and lets everything else pass.
    pub fn check_instruction(
        &self,
        authority: &AccountId,
        instruction: &Instruction,
        wsv: &WorldStateView,
    ) -> (r: Result<(), Error>)
        ensures
            transfers_own(authority@, instruction@) ==> r is Ok,
            !transfers_own(authority@, instruction@) ==> r is Err && r->Err_0
                == Error::NotPermitted,
    {
        match instruction {
            Instruction::Asset(AssetInstruction::Transfer(source, _, _)) => {
                if *source == *authority {
                    Ok(())
                } else {
                    Err(Error::NotPermitted)
                }
            },
            _ => Ok(()),
        }
    }
}

/// The validator that lets an account unregister only the kinds of asset
/// that it registered itself.
#[derive(Clone, Copy, Debug)]
pub struct UnregisterOnlyAssetsCreatedByThisAccount;

impl UnregisterOnlyAssetsCreatedByThisAccount {
    /// Refuses, with `NotPermitted`, to unregister a kind of asset that
    /// another account than `authority` registered, and lets everything
    /// else pass.
    pub fn check_instruction(
        &self,
        authority: &AccountId,
        instruction: &Instruction,
        wsv: &WorldStateView,
    ) -> (r: Result<(), Error>)
        ensures
            unregisters_own(authority@, instruction@, wsv@) ==> r is Ok,
            !unregisters_own(authority@, instruction@, wsv@) ==> r is Err && r->Err_0
                == Error::NotPermitted,
    {
        match instruction {
            Instruction::Asset(AssetInstruction::UnregisterDefinition(id)) => {
                match wsv.read_asset_definition_entry(id) {
                    Some(entry) => {
                        if entry.registered_by == *authority {
                            Ok(())
                        } else {
                            Err(Error::NotPermitted)
                        }
                    },
                    None => Ok(()),
                }
            },
            _ => Ok(()),
        }
    }
}

/// Any one of the validators.
#[derive(Clone, Copy, Debug)]
pub enum PermissionsValidatorBox {
    /// Nothing is refused.
    AllowAll,
    /// Transfers from other accounts are refused.
    TransferOnlyOwnedAssets,
    /// Unregistering what other accounts registered is refused.
    UnregisterOnlyAssetsCreatedByThisAccount,
}

impl PermissionsValidatorBox {
    /// Whether the validator lets `instruction` pass when `authority` asks
    /// for it in the world state `wsv`.
    pub open spec fn permits(
        self,
        authority: AccountIdView,
        instruction: InstructionView,
        wsv: WsvView,
    ) -> bool {
        match self {
            PermissionsValidatorBox::AllowAll => true,
            PermissionsValidatorBox::TransferOnlyOwnedAssets => transfers_own(
                authority,
                instruction,
            ),
            PermissionsValidatorBox::UnregisterOnlyAssetsCreatedByThisAccount => unregisters_own(
                authority,
                instruction,
                wsv,
            ),
        }
    }

    /// Holds `instruction` against the validator: `Ok` if it passes, and
    /// `NotPermitted` if it does not.
    pub fn check_instruction(
        &self,
        authority: &AccountId,
        instruction: &Instruction,
        wsv: &WorldStateView,
    ) -> (r: Result<(), Error>)
        ensures
            self.permits(authority@, instruction@, wsv@) ==> r is Ok,
            !self.permits(authority@, instruction@, wsv@) ==> r is Err && r->Err_0
                == Error::NotPermitted,
    {
        match self {
            PermissionsValidatorBox::AllowAll => AllowAll.check_instruction(
                authority,
                instruction,
                wsv,
            ),
            PermissionsValidatorBox::TransferOnlyOwnedAssets => {
                TransferOnlyOwnedAssets.check_instruction(authority, instruction, wsv)
            },
            PermissionsValidatorBox::UnregisterOnlyAssetsCreatedByThisAccount => {
                UnregisterOnlyAssetsCreatedByThisAccount.check_instruction(
                    authority,
                    instruction,
                    wsv,
                )
            },
        }
    }
}

impl From<AllowAll> for PermissionsValidatorBox {
    fn from(validator: AllowAll) -> (r: Self) {
        PermissionsValidatorBox::AllowAll
    }
}

impl vstd::std_specs::convert::FromSpecImpl<AllowAll> for PermissionsValidatorBox {
    open spec fn obeys_from_spec() -> bool {
        true
    }

    open spec fn from_spec(validator: AllowAll) -> Self {
        PermissionsValidatorBox::AllowAll
    }
}

impl From<TransferOnlyOwnedAssets> for PermissionsValidatorBox {
    fn from(validator: TransferOnlyOwnedAssets) -> (r: Self) {
        PermissionsValidatorBox::TransferOnlyOwnedAssets
    }
}

impl vstd::std_specs::convert::FromSpecImpl<TransferOnlyOwnedAssets> for PermissionsValidatorBox {
    open spec fn obeys_from_spec() -> bool {
        true
    }

    open spec fn from_spec(validator: TransferOnlyOwnedAssets) -> Self {
        PermissionsValidatorBox::TransferOnlyOwnedAssets
    }
}

impl From<UnregisterOnlyAssetsCreatedByThisAccount> for PermissionsValidatorBox {
    fn from(validator: UnregisterOnlyAssetsCreatedByThisAccount) -> (r: Self) {
        PermissionsValidatorBox::UnregisterOnlyAssetsCreatedByThisAccount
    }
}

impl vstd::std_specs::convert::FromSpecImpl<UnregisterOnlyAssetsCreatedByThisAccount> for PermissionsValidatorBox {
    open spec fn obeys_from_spec() -> bool {
        true
    }

    open spec fn from_spec(validator: UnregisterOnlyAssetsCreatedByThisAccount) -> Self {
        PermissionsValidatorBox::UnregisterOnlyAssetsCreatedByThisAccount
    }
}

} // verus!
