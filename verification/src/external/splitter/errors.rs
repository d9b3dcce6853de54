//! Error codes of the splitter program.
use vstd::prelude::*;
use crate::error::ProgramError;

verus! {

/// Errors the splitter program reports, each under a numeric code.
#[derive(Clone, Copy, Debug, PartialEq, Eq)]
pub enum SplitterError {
    InvalidPoolState,
    InvalidCommitmentState,
    InvalidRecentRoot,
    InvalidVaultAccount,
    InsufficientVaultBalance,
    InvalidAuthority,
    InvalidVaultOwner,
    MerkleTreeFull,
    InvalidMerkleTreeDepth,
    ProofAlreadyVerified,
    ProofNotVerified,
    InvalidProofSize,
    InvalidProof,
}

impl SplitterError {
    /// The numeric code of the error.
    pub open spec fn spec_code(self) -> u32 {
        match self {
            SplitterError::InvalidPoolState => 6000,
            SplitterError::InvalidCommitmentState => 6001,
            SplitterError::InvalidRecentRoot => 6002,
            SplitterError::InvalidVaultAccount => 6003,
            SplitterError::InsufficientVaultBalance => 6004,
            SplitterError::InvalidAuthority => 6005,
            SplitterError::InvalidVaultOwner => 6006,
            SplitterError::MerkleTreeFull => 6007,
            SplitterError::InvalidMerkleTreeDepth => 6008,
            SplitterError::ProofAlreadyVerified => 6009,
            SplitterError::ProofNotVerified => 6010,
            SplitterError::InvalidProofSize => 6011,
            SplitterError::InvalidProof => 6012,
        }
    }

    /// The error whose code is `code`, if there is one.
    pub open spec fn spec_from_code(code: u32) -> Option<Self> {
        if code == 6000 {
            Some(SplitterError::InvalidPoolState)
        } else if code == 6001 {
            Some(SplitterError::InvalidCommitmentState)
        } else if code == 6002 {
            Some(SplitterError::InvalidRecentRoot)
        } else if code == 6003 {
            Some(SplitterError::InvalidVaultAccount)
        } else if code == 6004 {
            Some(SplitterError::InsufficientVaultBalance)
        } else if code == 6005 {
            Some(SplitterError::InvalidAuthority)
        } else if code == 6006 {
            Some(SplitterError::InvalidVaultOwner)
        } else if code == 6007 {
            Some(SplitterError::MerkleTreeFull)
        } else if code == 6008 {
            Some(SplitterError::InvalidMerkleTreeDepth)
        } else if code == 6009 {
            Some(SplitterError::ProofAlreadyVerified)
        } else if code == 6010 {
            Some(SplitterError::ProofNotVerified)
        } else if code == 6011 {
            Some(SplitterError::InvalidProofSize)
        } else if code == 6012 {
            Some(SplitterError::InvalidProof)
        } else {
            None
        }
    }

    /// Human-readable description of the error.
    pub open spec fn spec_message(self) -> &'static str {
        match self {
            SplitterError::InvalidPoolState => "Invalid pool state for this instruction",
            SplitterError::InvalidCommitmentState => "Invalid commitment state for this instruction",
            SplitterError::InvalidRecentRoot => "Invalid recent root value",
            SplitterError::InvalidVaultAccount => "Invalid token account",
            SplitterError::InsufficientVaultBalance => "Insufficient vault funds",
            SplitterError::InvalidAuthority => "Invalid authority",
            SplitterError::InvalidVaultOwner => "Invalid vault owner",
            SplitterError::MerkleTreeFull => "Merkle tree full",
            SplitterError::InvalidMerkleTreeDepth => "Invalid merkle tree depth",
            SplitterError::ProofAlreadyVerified => "Proof already verified",
            SplitterError::ProofNotVerified => "Proof not verified",
            SplitterError::InvalidProofSize => "Invalid proof size",
            SplitterError::InvalidProof => "Invalid proof",
        }
    }

    pub fn code(&self) -> (r: u32)
        ensures
            r == self.spec_code(),
    {
        match self {
            SplitterError::InvalidPoolState => 6000,
            SplitterError::InvalidCommitmentState => 6001,
            SplitterError::InvalidRecentRoot => 6002,
            SplitterError::InvalidVaultAccount => 6003,
            SplitterError::InsufficientVaultBalance => 6004,
            SplitterError::InvalidAuthority => 6005,
            SplitterError::InvalidVaultOwner => 6006,
            SplitterError::MerkleTreeFull => 6007,
            SplitterError::InvalidMerkleTreeDepth => 6008,
            SplitterError::ProofAlreadyVerified => 6009,
            SplitterError::ProofNotVerified => 6010,
            SplitterError::InvalidProofSize => 6011,
            SplitterError::InvalidProof => 6012,
        }
    }

    pub fn from_code(code: u32) -> (r: Option<Self>)
        ensures
            r == Self::spec_from_code(code),
    {
        if code == 6000 {
            Some(SplitterError::InvalidPoolState)
        } else if code == 6001 {
            Some(SplitterError::InvalidCommitmentState)
        } else if code == 6002 {
            Some(SplitterError::InvalidRecentRoot)
        } else if code == 6003 {
            Some(SplitterError::InvalidVaultAccount)
        } else if code == 6004 {
            Some(SplitterError::InsufficientVaultBalance)
        } else if code == 6005 {
            Some(SplitterError::InvalidAuthority)
        } else if code == 6006 {
            Some(SplitterError::InvalidVaultOwner)
        } else if code == 6007 {
            Some(SplitterError::MerkleTreeFull)
        } else if code == 6008 {
            Some(SplitterError::InvalidMerkleTreeDepth)
        } else if code == 6009 {
            Some(SplitterError::ProofAlreadyVerified)
        } else if code == 6010 {
            Some(SplitterError::ProofNotVerified)
        } else if code == 6011 {
            Some(SplitterError::InvalidProofSize)
        } else if code == 6012 {
            Some(SplitterError::InvalidProof)
        } else {
            None
        }
    }

    pub fn message(&self) -> (r: &'static str)
        ensures
            r == self.spec_message(),
    {
        match self {
            SplitterError::InvalidPoolState => "Invalid pool state for this instruction",
            SplitterError::InvalidCommitmentState => "Invalid commitment state for this instruction",
            SplitterError::InvalidRecentRoot => "Invalid recent root value",
            SplitterError::InvalidVaultAccount => "Invalid token account",
            SplitterError::InsufficientVaultBalance => "Insufficient vault funds",
            SplitterError::InvalidAuthority => "Invalid authority",
            SplitterError::InvalidVaultOwner => "Invalid vault owner",
            SplitterError::MerkleTreeFull => "Merkle tree full",
            SplitterError::InvalidMerkleTreeDepth => "Invalid merkle tree depth",
            SplitterError::ProofAlreadyVerified => "Proof already verified",
            SplitterError::ProofNotVerified => "Proof not verified",
            SplitterError::InvalidProofSize => "Invalid proof size",
            SplitterError::InvalidProof => "Invalid proof",
        }
    }

    /// Name of the error type.
    pub fn type_of() -> (r: &'static str)
        ensures
            r == "SplitterError",
    {
        "SplitterError"
    }

    /// The program error that carries this error's code.
    pub fn to_program_error(&self) -> (r: ProgramError)
        ensures
            r == ProgramError::Custom(self.spec_code()),
    {
        ProgramError::Custom(self.code())
    }

    /// Every error is found again from its code.
    pub proof fn lemma_code_roundtrip(self)
        ensures
            Self::spec_from_code(self.spec_code()) == Some(self),
    {
    }
}

} // verus!
