use vstd::prelude::*;

verus! {

/// Failures reported by the access-control engine and the token gateway.
#[derive(Copy, Clone, Debug, PartialEq, Eq, Structural)]
pub enum AccessControlError {
    InternalError,
    /// `initialize` was called on an instance that is already initialized.
    AlreadyInitializedError,
    /// The caller does not hold the role that the operation requires.
    UnauthorizedError,
    /// A token amount below zero was passed.
    NegativeAmountError,
    BalanceError,
    OverflowError,
    OnlyRoleAdmin,
    UnAuhtorizedRole,
    /// The role has no administering role defined.
    UndefinedRole,
}

/// Failures reported by the capability registry.
#[derive(Copy, Clone, Debug, PartialEq, Eq, Structural)]
pub enum YieldAdapterRegistryError {
    /// The access-control check of a mutating operation failed.
    AccessControl(AccessControlError),
    /// `get_adapter` on a (category, provider) pair that is not registered.
    InvalidYieldAdapter,
    /// `remove_adapter` on a (category, provider) pair that is not registered.
    NotFound,
}

} // verus!
