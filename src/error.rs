use vstd::prelude::*;

verus! {

/// Every way an operation of this library can fail.
#[derive(Clone, Copy, Debug, PartialEq, Eq, Structural)]
pub enum RebaseMintError {
    /// An argument was malformed or out of range.
    InvalidArgument,
    /// Instruction bytes could not be decoded.
    InvalidInstructionData,
    /// An expected account was not supplied.
    NotEnoughAccountKeys,
    /// The base mint has not been initialized yet.
    UninitializedState,
    /// The base mint is already initialized, so extensions can no longer be added.
    AlreadyInUse,
    /// The rebase extension already holds data.
    ExtensionAlreadyInitialized,
    /// The mint carries no rebase extension.
    ExtensionNotFound,
    /// No rebase authority is configured: rebasing is disabled for good.
    NoAuthorityExists,
    /// The presented owner is not the configured authority.
    OwnerMismatch,
    /// The authority did not sign.
    MissingRequiredSignature,
    /// The requested supply is zero.
    InvalidSupply,
    /// The new share count does not fit in 64 bits.
    Overflow,
}

} // verus!
