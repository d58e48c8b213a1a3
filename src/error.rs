use vstd::prelude::*;

verus! {

/// Every way an operation of the orchestrator can fail.
#[derive(Debug, PartialEq, Eq)]
pub enum ContractError {
    /// A collaborator or host failure, carried as text.
    Generic(String),
    /// An amount computation left the range of `u128`.
    Overflow {},
    /// A privileged step was invoked by someone else than the orchestrator,
    /// or a lock was referenced by someone else than its owner.
    Unauthorized {},
    /// The vault's deposit asset cannot be handled.
    UnsupportedVault {},
    /// Multiple assets were asked for, but the vault's base token is no pool share.
    UnsupportedWithdrawal {},
    /// The funds sent were not exactly the vault's share token.
    InvalidVaultToken {},
    /// A minimum output floor was not reached.
    MinOutNotMet { min_out: u128, actual: u128 },
    /// No lock record exists for the given owner, vault and id.
    LockupNotFound {},
    /// The unlocking position has not yet reached its release point.
    LockupNotMatured {},
    /// A lock identifier arrived while no unlock request was pending.
    NoPendingUnlock {},
    /// An unlock request is already waiting for its identifier.
    UnlockAlreadyPending {},
    /// The vault's reply holds no event of the expected type.
    EventNotFound {},
    /// The expected event holds no attribute with the expected key.
    AttributeNotFound {},
    /// The attribute's value is no decimal `u64`.
    InvalidAttributeValue {},
    /// A cursor named a lock id without naming its vault.
    InvalidCursor {},
}

} // verus!
