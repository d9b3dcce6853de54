//! Error codes of the timelock program.
use vstd::prelude::*;
use crate::error::ProgramError;

verus! {

/// Errors the timelock program reports, each under a numeric code.
#[derive(Clone, Copy, Debug, PartialEq, Eq)]
pub enum TimelockError {
    InvalidTimeLockState,
    InvalidTimeLockDuration,
    InvalidVaultAccount,
    InsufficientTimeElapsed,
    InsufficientVaultBalance,
    InvalidTimeAuthority,
    InvalidVaultOwner,
    InvalidCloseAuthority,
    NonZeroTokenBalance,
    InvalidDustBurn,
    InvalidTokenMint,
}

impl TimelockError {
    /// The numeric code of the error.
    pub open spec fn spec_code(self) -> u32 {
        match self {
            TimelockError::InvalidTimeLockState => 6000,
            TimelockError::InvalidTimeLockDuration => 6001,
            TimelockError::InvalidVaultAccount => 6002,
            TimelockError::InsufficientTimeElapsed => 6003,
            TimelockError::InsufficientVaultBalance => 6004,
            TimelockError::InvalidTimeAuthority => 6005,
            TimelockError::InvalidVaultOwner => 6006,
            TimelockError::InvalidCloseAuthority => 6007,
            TimelockError::NonZeroTokenBalance => 6008,
            TimelockError::InvalidDustBurn => 6009,
            TimelockError::InvalidTokenMint => 6010,
        }
    }

    /// The error whose code is `code`, if there is one.
    pub open spec fn spec_from_code(code: u32) -> Option<Self> {
        if code == 6000 {
            Some(TimelockError::InvalidTimeLockState)
        } else if code == 6001 {
            Some(TimelockError::InvalidTimeLockDuration)
        } else if code == 6002 {
            Some(TimelockError::InvalidVaultAccount)
        } else if code == 6003 {
            Some(TimelockError::InsufficientTimeElapsed)
        } else if code == 6004 {
            Some(TimelockError::InsufficientVaultBalance)
        } else if code == 6005 {
            Some(TimelockError::InvalidTimeAuthority)
        } else if code == 6006 {
            Some(TimelockError::InvalidVaultOwner)
        } else if code == 6007 {
            Some(TimelockError::InvalidCloseAuthority)
        } else if code == 6008 {
            Some(TimelockError::NonZeroTokenBalance)
        } else if code == 6009 {
            Some(TimelockError::InvalidDustBurn)
        } else if code == 6010 {
            Some(TimelockError::InvalidTokenMint)
        } else {
            None
        }
    }

    /// Human-readable description of the error.
    pub open spec fn spec_message(self) -> &'static str {
        match self {
            TimelockError::InvalidTimeLockState => "Invalid timelock state for this instruction",
            TimelockError::InvalidTimeLockDuration => "Invalid timelock duration provided",
            TimelockError::InvalidVaultAccount => "Invalid vault account",
            TimelockError::InsufficientTimeElapsed => "The timelock period has not yet been reached",
            TimelockError::InsufficientVaultBalance => "Insufficient vault funds",
            TimelockError::InvalidTimeAuthority => "Invalid time authority",
            TimelockError::InvalidVaultOwner => "Invalid vault owner",
            TimelockError::InvalidCloseAuthority => "Invalid close authority",
            TimelockError::NonZeroTokenBalance => "Invalid token balance. Token balance must be zero.",
            TimelockError::InvalidDustBurn => "Invalid dust burn.",
            TimelockError::InvalidTokenMint => "Invalid token mint.",
        }
    }

    pub fn code(&self) -> (r: u32)
        ensures
            r == self.spec_code(),
    {
        match self {
            TimelockError::InvalidTimeLockState => 6000,
            TimelockError::InvalidTimeLockDuration => 6001,
            TimelockError::InvalidVaultAccount => 6002,
            TimelockError::InsufficientTimeElapsed => 6003,
            TimelockError::InsufficientVaultBalance => 6004,
            TimelockError::InvalidTimeAuthority => 6005,
            TimelockError::InvalidVaultOwner => 6006,
            TimelockError::InvalidCloseAuthority => 6007,
            TimelockError::NonZeroTokenBalance => 6008,
            TimelockError::InvalidDustBurn => 6009,
            TimelockError::InvalidTokenMint => 6010,
        }
    }

    pub fn from_code(code: u32) -> (r: Option<Self>)
        ensures
            r == Self::spec_from_code(code),
    {
        if code == 6000 {
            Some(TimelockError::InvalidTimeLockState)
        } else if code == 6001 {
            Some(TimelockError::InvalidTimeLockDuration)
        } else if code == 6002 {
            Some(TimelockError::InvalidVaultAccount)
        } else if code == 6003 {
            Some(TimelockError::InsufficientTimeElapsed)
        } else if code == 6004 {
            Some(TimelockError::InsufficientVaultBalance)
        } else if code == 6005 {
            Some(TimelockError::InvalidTimeAuthority)
        } else if code == 6006 {
            Some(TimelockError::InvalidVaultOwner)
        } else if code == 6007 {
            Some(TimelockError::InvalidCloseAuthority)
        } else if code == 6008 {
            Some(TimelockError::NonZeroTokenBalance)
        } else if code == 6009 {
            Some(TimelockError::InvalidDustBurn)
        } else if code == 6010 {
            Some(TimelockError::InvalidTokenMint)
        } else {
            None
        }
    }

    pub fn message(&self) -> (r: &'static str)
        ensures
            r == self.spec_message(),
    {
        match self {
            TimelockError::InvalidTimeLockState => "Invalid timelock state for this instruction",
            TimelockError::InvalidTimeLockDuration => "Invalid timelock duration provided",
            TimelockError::InvalidVaultAccount => "Invalid vault account",
            TimelockError::InsufficientTimeElapsed => "The timelock period has not yet been reached",
            TimelockError::InsufficientVaultBalance => "Insufficient vault funds",
            TimelockError::InvalidTimeAuthority => "Invalid time authority",
            TimelockError::InvalidVaultOwner => "Invalid vault owner",
            TimelockError::InvalidCloseAuthority => "Invalid close authority",
            TimelockError::NonZeroTokenBalance => "Invalid token balance. Token balance must be zero.",
            TimelockError::InvalidDustBurn => "Invalid dust burn.",
            TimelockError::InvalidTokenMint => "Invalid token mint.",
        }
    }

    /// Name of the error type.
    pub fn type_of() -> (r: &'static str)
        ensures
            r == "TimelockError",
    {
        "TimelockError"
    }

    /// The program error that carries this error's code.
    pub fn to_program_error(&self) -> (r: ProgramError)
        ensures
            r == ProgramError::Custom(self.spec_code()),
    {
        ProgramError::Custom(self.code())
    }

    /// Every error is found again from its code.
    pub proof fn lemma_code_roundtrip(self)
        ensures
            Self::spec_from_code(self.spec_code()) == Some(self),
    {
    }
}

} // verus!
