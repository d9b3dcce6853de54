//! Errors the program reports to its runtime.
use vstd::prelude::*;

verus! {

/// Why an operation was refused.
#[derive(Clone, Copy, Debug, PartialEq, Eq)]
pub enum ProgramError {
    /// A program-specific error code.
    Custom(u32),
    /// An argument was out of range or inconsistent with the state.
    InvalidArgument,
    /// Instruction data was malformed.
    InvalidInstructionData,
    /// Account data was malformed.
    InvalidAccountData,
    /// A check on an account, its owner or a signature failed.
    InvalidAccountOwner,
    /// An address is not the one its seeds derive.
    InvalidSeeds,
    /// An account that must sign did not.
    MissingRequiredSignature,
    /// An account that must be empty holds data.
    AccountAlreadyInitialized,
}

/// `std::io::Error`, the error type that `to_struct` and the unpacking of
/// virtual account records declare; values of it are carried, never looked
/// into.
#[verifier::external_type_specification]
#[verifier::external_body]
pub struct ExIoError(std::io::Error);

/// Fails with `InvalidArgument` unless `condition` holds.
pub fn check_condition(condition: bool) -> (r: Result<(), ProgramError>)
    ensures
        condition ==> r is Ok,
        !condition ==> r == Err::<(), ProgramError>(ProgramError::InvalidArgument),
{
    if !condition {
        return Err(ProgramError::InvalidArgument);
    }
    Ok(())
}

} // verus!
