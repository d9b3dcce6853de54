//! The VM program's instructions: a `CodeInstruction` byte, then either
//! fixed-size fields (integers packed as little-endian bytes) or, for the
//! variable-size ones, a borsh-encoded payload.
use vstd::prelude::*;

use crate::codec::{copy_array, enc_bytes, enc_u16, enc_u32, enc_u64, enc_vec32, enc_vec_u16, u16s_bytes, lemma_array_ext, lemma_bytes_vec_unique, lemma_enc_injective, lemma_le_bytes, lemma_split_prefix, lemma_u16s_len, lemma_vec32_prefix_unique, lemma_vec_u16_unique, prefix_at, read_byte_vec, read_u16, read_u8, read_vec32, read_vec_u16, u16_from_array, u16_to_array, u32_from_array, u32_to_array, u64_from_array, u64_to_array, write_byte_vec, write_bytes, write_u16, write_vec_u16, arrays_bytes, lemma_flatten32, CodecError};
use crate::error::ProgramError;
use crate::types::hash;
use crate::types::signature::{lemma_signature_ext, Signature};
use vstd::bytes::{spec_u16_from_le_bytes, spec_u32_from_le_bytes, spec_u64_from_le_bytes};

verus! {

/// The instructions of the VM program.
#[derive(Clone, Copy, Debug, PartialEq, Eq, Structural)]
pub enum CodeInstruction {
    Unknown,
    InitVmIx,
    InitMemoryIx,
    InitStorageIx,
    InitRelayIx,
    InitNonceIx,
    InitTimelockIx,
    InitUnlockIx,
    ExecIx,
    CompressIx,
    DecompressIx,
    ResizeMemoryIx,
    SnapshotIx,
    DepositIx,
    WithdrawIx,
    UnlockIx,
}

impl CodeInstruction {
    /// The byte that stands for the variant.
    pub open spec fn code(self) -> u8 {
        match self {
            CodeInstruction::Unknown => 0,
            CodeInstruction::InitVmIx => 1,
            CodeInstruction::InitMemoryIx => 2,
            CodeInstruction::InitStorageIx => 3,
            CodeInstruction::InitRelayIx => 4,
            CodeInstruction::InitNonceIx => 5,
            CodeInstruction::InitTimelockIx => 6,
            CodeInstruction::InitUnlockIx => 7,
            CodeInstruction::ExecIx => 8,
            CodeInstruction::CompressIx => 9,
            CodeInstruction::DecompressIx => 10,
            CodeInstruction::ResizeMemoryIx => 11,
            CodeInstruction::SnapshotIx => 12,
            CodeInstruction::DepositIx => 13,
            CodeInstruction::WithdrawIx => 14,
            CodeInstruction::UnlockIx => 15,
        }
    }

    /// The byte of each instruction on the wire, in the order the program
    /// declares them: 1 for `InitVmIx` up to 15 for `UnlockIx`; 0 is unknown.
    pub proof fn lemma_wire_codes()
        ensures
            CodeInstruction::Unknown.code() == 0,
            CodeInstruction::InitVmIx.code() == 1,
            CodeInstruction::InitMemoryIx.code() == 2,
            CodeInstruction::InitStorageIx.code() == 3,
            CodeInstruction::InitRelayIx.code() == 4,
            CodeInstruction::InitNonceIx.code() == 5,
            CodeInstruction::InitTimelockIx.code() == 6,
            CodeInstruction::InitUnlockIx.code() == 7,
            CodeInstruction::ExecIx.code() == 8,
            CodeInstruction::CompressIx.code() == 9,
            CodeInstruction::DecompressIx.code() == 10,
            CodeInstruction::ResizeMemoryIx.code() == 11,
            CodeInstruction::SnapshotIx.code() == 12,
            CodeInstruction::DepositIx.code() == 13,
            CodeInstruction::WithdrawIx.code() == 14,
            CodeInstruction::UnlockIx.code() == 15,
    {
    }

    pub fn to_u8(self) -> (r: u8)
        ensures
            r == self.code(),
    {
        match self {
            CodeInstruction::Unknown => 0,
            CodeInstruction::InitVmIx => 1,
            CodeInstruction::InitMemoryIx => 2,
            CodeInstruction::InitStorageIx => 3,
            CodeInstruction::InitRelayIx => 4,
            CodeInstruction::InitNonceIx => 5,
            CodeInstruction::InitTimelockIx => 6,
            CodeInstruction::InitUnlockIx => 7,
            CodeInstruction::ExecIx => 8,
            CodeInstruction::CompressIx => 9,
            CodeInstruction::DecompressIx => 10,
            CodeInstruction::ResizeMemoryIx => 11,
            CodeInstruction::SnapshotIx => 12,
            CodeInstruction::DepositIx => 13,
            CodeInstruction::WithdrawIx => 14,
            CodeInstruction::UnlockIx => 15,
        }
    }

    /// The variant a byte stands for, if any.
    pub fn try_from_u8(v: u8) -> (r: Option<Self>)
        ensures
            r matches Some(x) ==> x.code() == v,
            r is None ==> forall|x: Self| x.code() != v,
    {
        match v {
            0 => Some(CodeInstruction::Unknown),
            1 => Some(CodeInstruction::InitVmIx),
            2 => Some(CodeInstruction::InitMemoryIx),
            3 => Some(CodeInstruction::InitStorageIx),
            4 => Some(CodeInstruction::InitRelayIx),
            5 => Some(CodeInstruction::InitNonceIx),
            6 => Some(CodeInstruction::InitTimelockIx),
            7 => Some(CodeInstruction::InitUnlockIx),
            8 => Some(CodeInstruction::ExecIx),
            9 => Some(CodeInstruction::CompressIx),
            10 => Some(CodeInstruction::DecompressIx),
            11 => Some(CodeInstruction::ResizeMemoryIx),
            12 => Some(CodeInstruction::SnapshotIx),
            13 => Some(CodeInstruction::DepositIx),
            14 => Some(CodeInstruction::WithdrawIx),
            15 => Some(CodeInstruction::UnlockIx),
            _ => {
                proof {
                    assert forall|x: Self| x.code() != v by {
                        match x {
                            CodeInstruction::Unknown => {},
                            CodeInstruction::InitVmIx => {},
                            CodeInstruction::InitMemoryIx => {},
                            CodeInstruction::InitStorageIx => {},
                            CodeInstruction::InitRelayIx => {},
                            CodeInstruction::InitNonceIx => {},
                            CodeInstruction::InitTimelockIx => {},
                            CodeInstruction::InitUnlockIx => {},
                            CodeInstruction::ExecIx => {},
                            CodeInstruction::CompressIx => {},
                            CodeInstruction::DecompressIx => {},
                            CodeInstruction::ResizeMemoryIx => {},
                            CodeInstruction::SnapshotIx => {},
                            CodeInstruction::DepositIx => {},
                            CodeInstruction::WithdrawIx => {},
                            CodeInstruction::UnlockIx => {},
                        }
                    }
                }
                None
            },
        }
    }

    /// Distinct variants have distinct bytes, so reading back the byte
    /// of a variant gives the variant.
    pub proof fn lemma_code_injective(self, other: Self)
        ensures
            self.code() == other.code() ==> self == other,
    {
    }
}

/// Creates a VM.
#[derive(Clone, Copy, Debug, PartialEq, Eq)]
pub struct InitVmIx {
    pub lock_duration: u8,
    pub vm_bump: u8,
    pub vm_omnibus_bump: u8,
}

impl InitVmIx {
    /// The fields' bytes, one after another.
    pub open spec fn spec_bytes(self) -> Seq<u8> {
        seq![self.lock_duration] + seq![self.vm_bump] + seq![self.vm_omnibus_bump]
    }

    /// Where each field lies in the encoding: lock_duration at byte 0, vm_bump at byte
    /// 1, vm_omnibus_bump at byte 2.
    pub proof fn lemma_field_offsets(self)
        ensures
            self.spec_bytes().len() == 3,
            self.spec_bytes()[0] == self.lock_duration,
            self.spec_bytes()[1] == self.vm_bump,
            self.spec_bytes()[2] == self.vm_omnibus_bump,
    {
        crate::codec::lemma_le_bytes();
        vstd::bytes::lemma_auto_spec_u64_to_from_le_bytes();
    }

    /// The CodeInstruction that leads the encoding.
    pub fn discriminator() -> (r: u8)
        ensures
            r == CodeInstruction::InitVmIx.code(),
    {
        CodeInstruction::InitVmIx.to_u8()
    }

    /// Bytes of the fields.
    pub fn size() -> (r: usize)
        ensures
            r == 3,
    {
        3
    }

    /// The discriminator, then the fields' bytes.
    pub fn to_bytes(&self) -> (r: Vec<u8>)
        ensures
            r@ == seq![CodeInstruction::InitVmIx.code()] + self.spec_bytes(),
    {
        let mut w: Vec<u8> = Vec::new();
        w.push(Self::discriminator());
        w.push(self.lock_duration);
        w.push(self.vm_bump);
        w.push(self.vm_omnibus_bump);
        assert(w@ =~= seq![CodeInstruction::InitVmIx.code()] + self.spec_bytes());
        w
    }

    /// Reads the fields from `data`, which must be exactly their size.
    pub fn try_from_bytes(data: &[u8]) -> (r: Result<Self, ProgramError>)
        ensures
            r is Ok <==> data@.len() == 3,
            r matches Ok(x) ==> x.spec_bytes() == data@,
            r is Err ==> r == Err::<Self, ProgramError>(ProgramError::InvalidInstructionData),
    {
        if data.len() != 3 {
            return Err(ProgramError::InvalidInstructionData);
        }
        let lock_duration = data[0];
        let vm_bump = data[1];
        let vm_omnibus_bump = data[2];
        let x = InitVmIx { lock_duration, vm_bump, vm_omnibus_bump };
        assert(x.spec_bytes() =~= data@);
        Ok(x)
    }

    /// A value is fixed by its bytes, so reading back what `to_bytes`
    /// wrote after its discriminator gives the value.
    pub proof fn lemma_bytes_determine(self, other: Self)
        requires
            self.spec_bytes() == other.spec_bytes(),
        ensures
            self == other,
    {
        let b = self.spec_bytes();
        assert(self.lock_duration == b[0] && other.lock_duration == b[0]);
        assert(self.vm_bump == b[1] && other.vm_bump == b[1]);
        assert(self.vm_omnibus_bump == b[2] && other.vm_omnibus_bump == b[2]);
    }
}

/// Creates a memory account of the VM.
#[derive(Clone, Copy, Debug, PartialEq, Eq)]
pub struct InitMemoryIx {
    pub name: [u8; 32],
    pub num_accounts: [u8; 4],
    pub account_size: [u8; 2],
    pub vm_memory_bump: u8,
}

impl InitMemoryIx {
    /// The fields' bytes, one after another.
    pub open spec fn spec_bytes(self) -> Seq<u8> {
        self.name@ + self.num_accounts@ + self.account_size@ + seq![self.vm_memory_bump]
    }

    /// Where each field lies in the encoding: name in bytes 0..32, num_accounts in
    /// bytes 32..36, account_size in bytes 36..38, vm_memory_bump at byte 38.
    pub proof fn lemma_field_offsets(self)
        ensures
            self.spec_bytes().len() == 39,
            self.spec_bytes().subrange(0, 32) == self.name@,
            self.spec_bytes().subrange(32, 36) == self.num_accounts@,
            self.spec_bytes().subrange(36, 38) == self.account_size@,
            self.spec_bytes()[38] == self.vm_memory_bump,
    {
        crate::codec::lemma_le_bytes();
        vstd::bytes::lemma_auto_spec_u64_to_from_le_bytes();
        assert(self.spec_bytes().subrange(0, 32) =~= self.name@);
        assert(self.spec_bytes().subrange(32, 36) =~= self.num_accounts@);
        assert(self.spec_bytes().subrange(36, 38) =~= self.account_size@);
    }

    /// The CodeInstruction that leads the encoding.
    pub fn discriminator() -> (r: u8)
        ensures
            r == CodeInstruction::InitMemoryIx.code(),
    {
        CodeInstruction::InitMemoryIx.to_u8()
    }

    /// Bytes of the fields.
    pub fn size() -> (r: usize)
        ensures
            r == 39,
    {
        39
    }

    /// The discriminator, then the fields' bytes.
    pub fn to_bytes(&self) -> (r: Vec<u8>)
        ensures
            r@ == seq![CodeInstruction::InitMemoryIx.code()] + self.spec_bytes(),
    {
        let mut w: Vec<u8> = Vec::new();
        w.push(Self::discriminator());
        write_bytes(&mut w, self.name.as_slice());
        write_bytes(&mut w, self.num_accounts.as_slice());
        write_bytes(&mut w, self.account_size.as_slice());
        w.push(self.vm_memory_bump);
        assert(w@ =~= seq![CodeInstruction::InitMemoryIx.code()] + self.spec_bytes());
        w
    }

    /// Reads the fields from `data`, which must be exactly their size.
    pub fn try_from_bytes(data: &[u8]) -> (r: Result<Self, ProgramError>)
        ensures
            r is Ok <==> data@.len() == 39,
            r matches Ok(x) ==> x.spec_bytes() == data@,
            r is Err ==> r == Err::<Self, ProgramError>(ProgramError::InvalidInstructionData),
    {
        if data.len() != 39 {
            return Err(ProgramError::InvalidInstructionData);
        }
        let name = copy_array::<32>(data, 0);
        let num_accounts = copy_array::<4>(data, 32);
        let account_size = copy_array::<2>(data, 36);
        let vm_memory_bump = data[38];
        let x = InitMemoryIx { name, num_accounts, account_size, vm_memory_bump };
        assert(x.spec_bytes() =~= data@);
        Ok(x)
    }

    /// A value is fixed by its bytes, so reading back what `to_bytes`
    /// wrote after its discriminator gives the value.
    pub proof fn lemma_bytes_determine(self, other: Self)
        requires
            self.spec_bytes() == other.spec_bytes(),
        ensures
            self == other,
    {
        let b = self.spec_bytes();
        assert(self.name@ =~= b.subrange(0, 32));
        assert(other.name@ =~= b.subrange(0, 32));
        lemma_array_ext(self.name, other.name);
        assert(self.num_accounts@ =~= b.subrange(32, 36));
        assert(other.num_accounts@ =~= b.subrange(32, 36));
        lemma_array_ext(self.num_accounts, other.num_accounts);
        assert(self.account_size@ =~= b.subrange(36, 38));
        assert(other.account_size@ =~= b.subrange(36, 38));
        lemma_array_ext(self.account_size, other.account_size);
        assert(self.vm_memory_bump == b[38] && other.vm_memory_bump == b[38]);
    }

    /// The fields with their packed integers read as numbers.
    pub open spec fn parsed(self) -> ParsedInitMemoryIx {
        ParsedInitMemoryIx { name: self.name, num_accounts: spec_u32_from_le_bytes(self.num_accounts@), account_size: spec_u16_from_le_bytes(self.account_size@), vm_memory_bump: self.vm_memory_bump }
    }

    /// Whether these fields pack the values of `p`.
    pub open spec fn packs(self, p: ParsedInitMemoryIx) -> bool {
        &&& self.name == p.name
        &&& self.num_accounts@ == enc_u32(p.num_accounts)
        &&& self.account_size@ == enc_u16(p.account_size)
        &&& self.vm_memory_bump == p.vm_memory_bump
    }

    /// Reads the packed integers.
    pub fn to_struct(&self) -> (r: Result<ParsedInitMemoryIx, std::io::Error>)
        ensures
            r == Ok::<ParsedInitMemoryIx, std::io::Error>(self.parsed()),
    {
        proof {
            lemma_le_bytes();
        }
        Ok(ParsedInitMemoryIx { name: self.name, num_accounts: u32_from_array(self.num_accounts), account_size: u16_from_array(self.account_size), vm_memory_bump: self.vm_memory_bump })
    }

    /// Packs the integers of `parsed` into bytes.
    pub fn from_struct(parsed: ParsedInitMemoryIx) -> (r: Self)
        ensures
            r.packs(parsed),
    {
        InitMemoryIx { name: parsed.name, num_accounts: u32_to_array(parsed.num_accounts), account_size: u16_to_array(parsed.account_size), vm_memory_bump: parsed.vm_memory_bump }
    }

    /// Packing and reading are inverse: these fields pack `p` exactly
    /// when reading them gives `p`.
    pub proof fn lemma_struct_roundtrip(self, p: ParsedInitMemoryIx)
        ensures
            self.packs(p) <==> self.parsed() == p,
    {
        lemma_le_bytes();
        lemma_enc_injective();
        if self.parsed() == p {
            assert(enc_u32(spec_u32_from_le_bytes(self.num_accounts@)) == self.num_accounts@);
        }
        if self.parsed() == p {
            assert(enc_u16(spec_u16_from_le_bytes(self.account_size@)) == self.account_size@);
        }
    }
}

/// `InitMemoryIx` with its packed integers as numbers.
#[derive(Clone, Copy, Debug, PartialEq, Eq)]
pub struct ParsedInitMemoryIx {
    pub name: [u8; 32],
    pub num_accounts: u32,
    pub account_size: u16,
    pub vm_memory_bump: u8,
}

/// Grows a memory account.
#[derive(Clone, Copy, Debug, PartialEq, Eq)]
pub struct ResizeMemoryIx {
    pub account_size: [u8; 4],
}

impl ResizeMemoryIx {
    /// The fields' bytes, one after another.
    pub open spec fn spec_bytes(self) -> Seq<u8> {
        self.account_size@
    }

    /// The CodeInstruction that leads the encoding.
    pub fn discriminator() -> (r: u8)
        ensures
            r == CodeInstruction::ResizeMemoryIx.code(),
    {
        CodeInstruction::ResizeMemoryIx.to_u8()
    }

    /// Bytes of the fields.
    pub fn size() -> (r: usize)
        ensures
            r == 4,
    {
        4
    }

    /// The discriminator, then the fields' bytes.
    pub fn to_bytes(&self) -> (r: Vec<u8>)
        ensures
            r@ == seq![CodeInstruction::ResizeMemoryIx.code()] + self.spec_bytes(),
    {
        let mut w: Vec<u8> = Vec::new();
        w.push(Self::discriminator());
        write_bytes(&mut w, self.account_size.as_slice());
        assert(w@ =~= seq![CodeInstruction::ResizeMemoryIx.code()] + self.spec_bytes());
        w
    }

    /// Reads the fields from `data`, which must be exactly their size.
    pub fn try_from_bytes(data: &[u8]) -> (r: Result<Self, ProgramError>)
        ensures
            r is Ok <==> data@.len() == 4,
            r matches Ok(x) ==> x.spec_bytes() == data@,
            r is Err ==> r == Err::<Self, ProgramError>(ProgramError::InvalidInstructionData),
    {
        if data.len() != 4 {
            return Err(ProgramError::InvalidInstructionData);
        }
        let account_size = copy_array::<4>(data, 0);
        let x = ResizeMemoryIx { account_size };
        assert(x.spec_bytes() =~= data@);
        Ok(x)
    }

    /// A value is fixed by its bytes, so reading back what `to_bytes`
    /// wrote after its discriminator gives the value.
    pub proof fn lemma_bytes_determine(self, other: Self)
        requires
            self.spec_bytes() == other.spec_bytes(),
        ensures
            self == other,
    {
        let b = self.spec_bytes();
        assert(self.account_size@ =~= b.subrange(0, 4));
        assert(other.account_size@ =~= b.subrange(0, 4));
        lemma_array_ext(self.account_size, other.account_size);
    }

    /// The fields with their packed integers read as numbers.
    pub open spec fn parsed(self) -> ParsedResizeMemoryIx {
        ParsedResizeMemoryIx { account_size: spec_u32_from_le_bytes(self.account_size@) }
    }

    /// Whether these fields pack the values of `p`.
    pub open spec fn packs(self, p: ParsedResizeMemoryIx) -> bool {
        &&& self.account_size@ == enc_u32(p.account_size)
    }

    /// Reads the packed integers.
    pub fn to_struct(&self) -> (r: Result<ParsedResizeMemoryIx, std::io::Error>)
        ensures
            r == Ok::<ParsedResizeMemoryIx, std::io::Error>(self.parsed()),
    {
        proof {
            lemma_le_bytes();
        }
        Ok(ParsedResizeMemoryIx { account_size: u32_from_array(self.account_size) })
    }

    /// Packs the integers of `parsed` into bytes.
    pub fn from_struct(parsed: ParsedResizeMemoryIx) -> (r: Self)
        ensures
            r.packs(parsed),
    {
        ResizeMemoryIx { account_size: u32_to_array(parsed.account_size) }
    }

    /// Packing and reading are inverse: these fields pack `p` exactly
    /// when reading them gives `p`.
    pub proof fn lemma_struct_roundtrip(self, p: ParsedResizeMemoryIx)
        ensures
            self.packs(p) <==> self.parsed() == p,
    {
        lemma_le_bytes();
        lemma_enc_injective();
        if self.parsed() == p {
            assert(enc_u32(spec_u32_from_le_bytes(self.account_size@)) == self.account_size@);
        }
    }
}

/// `ResizeMemoryIx` with its packed integers as numbers.
#[derive(Clone, Copy, Debug, PartialEq, Eq)]
pub struct ParsedResizeMemoryIx {
    pub account_size: u32,
}

/// Creates a storage account of the VM.
#[derive(Clone, Copy, Debug, PartialEq, Eq)]
pub struct InitStorageIx {
    pub name: [u8; 32],
    pub vm_storage_bump: u8,
}

impl InitStorageIx {
    /// The fields' bytes, one after another.
    pub open spec fn spec_bytes(self) -> Seq<u8> {
        self.name@ + seq![self.vm_storage_bump]
    }

    /// Where each field lies in the encoding: name in bytes 0..32, vm_storage_bump at
    /// byte 32.
    pub proof fn lemma_field_offsets(self)
        ensures
            self.spec_bytes().len() == 33,
            self.spec_bytes().subrange(0, 32) == self.name@,
            self.spec_bytes()[32] == self.vm_storage_bump,
    {
        crate::codec::lemma_le_bytes();
        vstd::bytes::lemma_auto_spec_u64_to_from_le_bytes();
        assert(self.spec_bytes().subrange(0, 32) =~= self.name@);
    }

    /// The CodeInstruction that leads the encoding.
    pub fn discriminator() -> (r: u8)
        ensures
            r == CodeInstruction::InitStorageIx.code(),
    {
        CodeInstruction::InitStorageIx.to_u8()
    }

    /// Bytes of the fields.
    pub fn size() -> (r: usize)
        ensures
            r == 33,
    {
        33
    }

    /// The discriminator, then the fields' bytes.
    pub fn to_bytes(&self) -> (r: Vec<u8>)
        ensures
            r@ == seq![CodeInstruction::InitStorageIx.code()] + self.spec_bytes(),
    {
        let mut w: Vec<u8> = Vec::new();
        w.push(Self::discriminator());
        write_bytes(&mut w, self.name.as_slice());
        w.push(self.vm_storage_bump);
        assert(w@ =~= seq![CodeInstruction::InitStorageIx.code()] + self.spec_bytes());
        w
    }

    /// Reads the fields from `data`, which must be exactly their size.
    pub fn try_from_bytes(data: &[u8]) -> (r: Result<Self, ProgramError>)
        ensures
            r is Ok <==> data@.len() == 33,
            r matches Ok(x) ==> x.spec_bytes() == data@,
            r is Err ==> r == Err::<Self, ProgramError>(ProgramError::InvalidInstructionData),
    {
        if data.len() != 33 {
            return Err(ProgramError::InvalidInstructionData);
        }
        let name = copy_array::<32>(data, 0);
        let vm_storage_bump = data[32];
        let x = InitStorageIx { name, vm_storage_bump };
        assert(x.spec_bytes() =~= data@);
        Ok(x)
    }

    /// A value is fixed by its bytes, so reading back what `to_bytes`
    /// wrote after its discriminator gives the value.
    pub proof fn lemma_bytes_determine(self, other: Self)
        requires
            self.spec_bytes() == other.spec_bytes(),
        ensures
            self == other,
    {
        let b = self.spec_bytes();
        assert(self.name@ =~= b.subrange(0, 32));
        assert(other.name@ =~= b.subrange(0, 32));
        lemma_array_ext(self.name, other.name);
        assert(self.vm_storage_bump == b[32] && other.vm_storage_bump == b[32]);
    }
}

/// Creates a virtual durable nonce.
#[derive(Clone, Copy, Debug, PartialEq, Eq)]
pub struct InitNonceIx {
    pub account_index: [u8; 2],
}

impl InitNonceIx {
    /// The fields' bytes, one after another.
    pub open spec fn spec_bytes(self) -> Seq<u8> {
        self.account_index@
    }

    /// The CodeInstruction that leads the encoding.
    pub fn discriminator() -> (r: u8)
        ensures
            r == CodeInstruction::InitNonceIx.code(),
    {
        CodeInstruction::InitNonceIx.to_u8()
    }

    /// Bytes of the fields.
    pub fn size() -> (r: usize)
        ensures
            r == 2,
    {
        2
    }

    /// The discriminator, then the fields' bytes.
    pub fn to_bytes(&self) -> (r: Vec<u8>)
        ensures
            r@ == seq![CodeInstruction::InitNonceIx.code()] + self.spec_bytes(),
    {
        let mut w: Vec<u8> = Vec::new();
        w.push(Self::discriminator());
        write_bytes(&mut w, self.account_index.as_slice());
        assert(w@ =~= seq![CodeInstruction::InitNonceIx.code()] + self.spec_bytes());
        w
    }

    /// Reads the fields from `data`, which must be exactly their size.
    pub fn try_from_bytes(data: &[u8]) -> (r: Result<Self, ProgramError>)
        ensures
            r is Ok <==> data@.len() == 2,
            r matches Ok(x) ==> x.spec_bytes() == data@,
            r is Err ==> r == Err::<Self, ProgramError>(ProgramError::InvalidInstructionData),
    {
        if data.len() != 2 {
            return Err(ProgramError::InvalidInstructionData);
        }
        let account_index = copy_array::<2>(data, 0);
        let x = InitNonceIx { account_index };
        assert(x.spec_bytes() =~= data@);
        Ok(x)
    }

    /// A value is fixed by its bytes, so reading back what `to_bytes`
    /// wrote after its discriminator gives the value.
    pub proof fn lemma_bytes_determine(self, other: Self)
        requires
            self.spec_bytes() == other.spec_bytes(),
        ensures
            self == other,
    {
        let b = self.spec_bytes();
        assert(self.account_index@ =~= b.subrange(0, 2));
        assert(other.account_index@ =~= b.subrange(0, 2));
        lemma_array_ext(self.account_index, other.account_index);
    }

    /// The fields with their packed integers read as numbers.
    pub open spec fn parsed(self) -> ParsedInitNonceIx {
        ParsedInitNonceIx { account_index: spec_u16_from_le_bytes(self.account_index@) }
    }

    /// Whether these fields pack the values of `p`.
    pub open spec fn packs(self, p: ParsedInitNonceIx) -> bool {
        &&& self.account_index@ == enc_u16(p.account_index)
    }

    /// Reads the packed integers.
    pub fn to_struct(&self) -> (r: Result<ParsedInitNonceIx, std::io::Error>)
        ensures
            r == Ok::<ParsedInitNonceIx, std::io::Error>(self.parsed()),
    {
        proof {
            lemma_le_bytes();
        }
        Ok(ParsedInitNonceIx { account_index: u16_from_array(self.account_index) })
    }

    /// Packs the integers of `parsed` into bytes.
    pub fn from_struct(parsed: ParsedInitNonceIx) -> (r: Self)
        ensures
            r.packs(parsed),
    {
        InitNonceIx { account_index: u16_to_array(parsed.account_index) }
    }

    /// Packing and reading are inverse: these fields pack `p` exactly
    /// when reading them gives `p`.
    pub proof fn lemma_struct_roundtrip(self, p: ParsedInitNonceIx)
        ensures
            self.packs(p) <==> self.parsed() == p,
    {
        lemma_le_bytes();
        lemma_enc_injective();
        if self.parsed() == p {
            assert(enc_u16(spec_u16_from_le_bytes(self.account_index@)) == self.account_index@);
        }
    }
}

/// `InitNonceIx` with its packed integers as numbers.
#[derive(Clone, Copy, Debug, PartialEq, Eq)]
pub struct ParsedInitNonceIx {
    pub account_index: u16,
}

/// Creates a virtual timelock account.
#[derive(Clone, Copy, Debug, PartialEq, Eq)]
pub struct InitTimelockIx {
    pub account_index: [u8; 2],
    pub virtual_timelock_bump: u8,
    pub virtual_vault_bump: u8,
    pub unlock_pda_bump: u8,
}

impl InitTimelockIx {
    /// The fields' bytes, one after another.
    pub open spec fn spec_bytes(self) -> Seq<u8> {
        self.account_index@ + seq![self.virtual_timelock_bump] + seq![self.virtual_vault_bump] + seq![self.unlock_pda_bump]
    }

    /// Where each field lies in the encoding: account_index in bytes 0..2,
    /// virtual_timelock_bump at byte 2, virtual_vault_bump at byte 3, unlock_pda_bump
    /// at byte 4.
    pub proof fn lemma_field_offsets(self)
        ensures
            self.spec_bytes().len() == 5,
            self.spec_bytes().subrange(0, 2) == self.account_index@,
            self.spec_bytes()[2] == self.virtual_timelock_bump,
            self.spec_bytes()[3] == self.virtual_vault_bump,
            self.spec_bytes()[4] == self.unlock_pda_bump,
    {
        crate::codec::lemma_le_bytes();
        vstd::bytes::lemma_auto_spec_u64_to_from_le_bytes();
        assert(self.spec_bytes().subrange(0, 2) =~= self.account_index@);
    }

    /// The CodeInstruction that leads the encoding.
    pub fn discriminator() -> (r: u8)
        ensures
            r == CodeInstruction::InitTimelockIx.code(),
    {
        CodeInstruction::InitTimelockIx.to_u8()
    }

    /// Bytes of the fields.
    pub fn size() -> (r: usize)
        ensures
            r == 5,
    {
        5
    }

    /// The discriminator, then the fields' bytes.
    pub fn to_bytes(&self) -> (r: Vec<u8>)
        ensures
            r@ == seq![CodeInstruction::InitTimelockIx.code()] + self.spec_bytes(),
    {
        let mut w: Vec<u8> = Vec::new();
        w.push(Self::discriminator());
        write_bytes(&mut w, self.account_index.as_slice());
        w.push(self.virtual_timelock_bump);
        w.push(self.virtual_vault_bump);
        w.push(self.unlock_pda_bump);
        assert(w@ =~= seq![CodeInstruction::InitTimelockIx.code()] + self.spec_bytes());
        w
    }

    /// Reads the fields from `data`, which must be exactly their size.
    pub fn try_from_bytes(data: &[u8]) -> (r: Result<Self, ProgramError>)
        ensures
            r is Ok <==> data@.len() == 5,
            r matches Ok(x) ==> x.spec_bytes() == data@,
            r is Err ==> r == Err::<Self, ProgramError>(ProgramError::InvalidInstructionData),
    {
        if data.len() != 5 {
            return Err(ProgramError::InvalidInstructionData);
        }
        let account_index = copy_array::<2>(data, 0);
        let virtual_timelock_bump = data[2];
        let virtual_vault_bump = data[3];
        let unlock_pda_bump = data[4];
        let x = InitTimelockIx { account_index, virtual_timelock_bump, virtual_vault_bump, unlock_pda_bump };
        assert(x.spec_bytes() =~= data@);
        Ok(x)
    }

    /// A value is fixed by its bytes, so reading back what `to_bytes`
    /// wrote after its discriminator gives the value.
    pub proof fn lemma_bytes_determine(self, other: Self)
        requires
            self.spec_bytes() == other.spec_bytes(),
        ensures
            self == other,
    {
        let b = self.spec_bytes();
        assert(self.account_index@ =~= b.subrange(0, 2));
        assert(other.account_index@ =~= b.subrange(0, 2));
        lemma_array_ext(self.account_index, other.account_index);
        assert(self.virtual_timelock_bump == b[2] && other.virtual_timelock_bump == b[2]);
        assert(self.virtual_vault_bump == b[3] && other.virtual_vault_bump == b[3]);
        assert(self.unlock_pda_bump == b[4] && other.unlock_pda_bump == b[4]);
    }

    /// The fields with their packed integers read as numbers.
    pub open spec fn parsed(self) -> ParsedInitTimelockIx {
        ParsedInitTimelockIx { account_index: spec_u16_from_le_bytes(self.account_index@), virtual_timelock_bump: self.virtual_timelock_bump, virtual_vault_bump: self.virtual_vault_bump, unlock_pda_bump: self.unlock_pda_bump }
    }

    /// Whether these fields pack the values of `p`.
    pub open spec fn packs(self, p: ParsedInitTimelockIx) -> bool {
        &&& self.account_index@ == enc_u16(p.account_index)
        &&& self.virtual_timelock_bump == p.virtual_timelock_bump
        &&& self.virtual_vault_bump == p.virtual_vault_bump
        &&& self.unlock_pda_bump == p.unlock_pda_bump
    }

    /// Reads the packed integers.
    pub fn to_struct(&self) -> (r: Result<ParsedInitTimelockIx, std::io::Error>)
        ensures
            r == Ok::<ParsedInitTimelockIx, std::io::Error>(self.parsed()),
    {
        proof {
            lemma_le_bytes();
        }
        Ok(ParsedInitTimelockIx { account_index: u16_from_array(self.account_index), virtual_timelock_bump: self.virtual_timelock_bump, virtual_vault_bump: self.virtual_vault_bump, unlock_pda_bump: self.unlock_pda_bump })
    }

    /// Packs the integers of `parsed` into bytes.
    pub fn from_struct(parsed: ParsedInitTimelockIx) -> (r: Self)
        ensures
            r.packs(parsed),
    {
        InitTimelockIx { account_index: u16_to_array(parsed.account_index), virtual_timelock_bump: parsed.virtual_timelock_bump, virtual_vault_bump: parsed.virtual_vault_bump, unlock_pda_bump: parsed.unlock_pda_bump }
    }

    /// Packing and reading are inverse: these fields pack `p` exactly
    /// when reading them gives `p`.
    pub proof fn lemma_struct_roundtrip(self, p: ParsedInitTimelockIx)
        ensures
            self.packs(p) <==> self.parsed() == p,
    {
        lemma_le_bytes();
        lemma_enc_injective();
        if self.parsed() == p {
            assert(enc_u16(spec_u16_from_le_bytes(self.account_index@)) == self.account_index@);
        }
    }
}

/// `InitTimelockIx` with its packed integers as numbers.
#[derive(Clone, Copy, Debug, PartialEq, Eq)]
pub struct ParsedInitTimelockIx {
    pub account_index: u16,
    pub virtual_timelock_bump: u8,
    pub virtual_vault_bump: u8,
    pub unlock_pda_bump: u8,
}

/// Moves a virtual account from memory into storage.
#[derive(Clone, Copy, Debug, PartialEq, Eq)]
pub struct CompressIx {
    pub account_index: [u8; 2],
    pub signature: Signature,
}

impl CompressIx {
    /// The fields' bytes, one after another.
    pub open spec fn spec_bytes(self) -> Seq<u8> {
        self.account_index@ + self.signature@
    }

    /// Where each field lies in the encoding: account_index in bytes 0..2, signature in
    /// bytes 2..66.
    pub proof fn lemma_field_offsets(self)
        ensures
            self.spec_bytes().len() == 66,
            self.spec_bytes().subrange(0, 2) == self.account_index@,
            self.spec_bytes().subrange(2, 66) == self.signature@,
    {
        crate::codec::lemma_le_bytes();
        vstd::bytes::lemma_auto_spec_u64_to_from_le_bytes();
        assert(self.spec_bytes().subrange(0, 2) =~= self.account_index@);
        assert(self.spec_bytes().subrange(2, 66) =~= self.signature@);
    }

    /// The CodeInstruction that leads the encoding.
    pub fn discriminator() -> (r: u8)
        ensures
            r == CodeInstruction::CompressIx.code(),
    {
        CodeInstruction::CompressIx.to_u8()
    }

    /// Bytes of the fields.
    pub fn size() -> (r: usize)
        ensures
            r == 66,
    {
        66
    }

    /// The discriminator, then the fields' bytes.
    pub fn to_bytes(&self) -> (r: Vec<u8>)
        ensures
            r@ == seq![CodeInstruction::CompressIx.code()] + self.spec_bytes(),
    {
        let mut w: Vec<u8> = Vec::new();
        w.push(Self::discriminator());
        write_bytes(&mut w, self.account_index.as_slice());
        write_bytes(&mut w, self.signature.value.as_slice());
        assert(w@ =~= seq![CodeInstruction::CompressIx.code()] + self.spec_bytes());
        w
    }

    /// Reads the fields from `data`, which must be exactly their size.
    pub fn try_from_bytes(data: &[u8]) -> (r: Result<Self, ProgramError>)
        ensures
            r is Ok <==> data@.len() == 66,
            r matches Ok(x) ==> x.spec_bytes() == data@,
            r is Err ==> r == Err::<Self, ProgramError>(ProgramError::InvalidInstructionData),
    {
        if data.len() != 66 {
            return Err(ProgramError::InvalidInstructionData);
        }
        let account_index = copy_array::<2>(data, 0);
        let signature = Signature { value: copy_array::<64>(data, 2) };
        let x = CompressIx { account_index, signature };
        assert(x.spec_bytes() =~= data@);
        Ok(x)
    }

    /// A value is fixed by its bytes, so reading back what `to_bytes`
    /// wrote after its discriminator gives the value.
    pub proof fn lemma_bytes_determine(self, other: Self)
        requires
            self.spec_bytes() == other.spec_bytes(),
        ensures
            self == other,
    {
        let b = self.spec_bytes();
        assert(self.account_index@ =~= b.subrange(0, 2));
        assert(other.account_index@ =~= b.subrange(0, 2));
        lemma_array_ext(self.account_index, other.account_index);
        assert(self.signature@ =~= b.subrange(2, 66));
        assert(other.signature@ =~= b.subrange(2, 66));
        lemma_signature_ext(self.signature, other.signature);
    }

    /// The fields with their packed integers read as numbers.
    pub open spec fn parsed(self) -> ParsedCompressIx {
        ParsedCompressIx { account_index: spec_u16_from_le_bytes(self.account_index@), signature: self.signature }
    }

    /// Whether these fields pack the values of `p`.
    pub open spec fn packs(self, p: ParsedCompressIx) -> bool {
        &&& self.account_index@ == enc_u16(p.account_index)
        &&& self.signature == p.signature
    }

    /// Reads the packed integers.
    pub fn to_struct(&self) -> (r: Result<ParsedCompressIx, std::io::Error>)
        ensures
            r == Ok::<ParsedCompressIx, std::io::Error>(self.parsed()),
    {
        proof {
            lemma_le_bytes();
        }
        Ok(ParsedCompressIx { account_index: u16_from_array(self.account_index), signature: self.signature })
    }

    /// Packs the integers of `parsed` into bytes.
    pub fn from_struct(parsed: ParsedCompressIx) -> (r: Self)
        ensures
            r.packs(parsed),
    {
        CompressIx { account_index: u16_to_array(parsed.account_index), signature: parsed.signature }
    }

    /// Packing and reading are inverse: these fields pack `p` exactly
    /// when reading them gives `p`.
    pub proof fn lemma_struct_roundtrip(self, p: ParsedCompressIx)
        ensures
            self.packs(p) <==> self.parsed() == p,
    {
        lemma_le_bytes();
        lemma_enc_injective();
        if self.parsed() == p {
            assert(enc_u16(spec_u16_from_le_bytes(self.account_index@)) == self.account_index@);
        }
    }
}

/// `CompressIx` with its packed integers as numbers.
#[derive(Clone, Copy, Debug, PartialEq, Eq)]
pub struct ParsedCompressIx {
    pub account_index: u16,
    pub signature: Signature,
}

/// Creates a relay of the VM.
#[derive(Clone, Copy, Debug, PartialEq, Eq)]
pub struct InitRelayIx {
    pub name: [u8; 32],
    pub relay_bump: u8,
    pub relay_vault_bump: u8,
}

impl InitRelayIx {
    /// The fields' bytes, one after another.
    pub open spec fn spec_bytes(self) -> Seq<u8> {
        self.name@ + seq![self.relay_bump] + seq![self.relay_vault_bump]
    }

    /// Where each field lies in the encoding: name in bytes 0..32, relay_bump at byte
    /// 32, relay_vault_bump at byte 33.
    pub proof fn lemma_field_offsets(self)
        ensures
            self.spec_bytes().len() == 34,
            self.spec_bytes().subrange(0, 32) == self.name@,
            self.spec_bytes()[32] == self.relay_bump,
            self.spec_bytes()[33] == self.relay_vault_bump,
    {
        crate::codec::lemma_le_bytes();
        vstd::bytes::lemma_auto_spec_u64_to_from_le_bytes();
        assert(self.spec_bytes().subrange(0, 32) =~= self.name@);
    }

    /// The CodeInstruction that leads the encoding.
    pub fn discriminator() -> (r: u8)
        ensures
            r == CodeInstruction::InitRelayIx.code(),
    {
        CodeInstruction::InitRelayIx.to_u8()
    }

    /// Bytes of the fields.
    pub fn size() -> (r: usize)
        ensures
            r == 34,
    {
        34
    }

    /// The discriminator, then the fields' bytes.
    pub fn to_bytes(&self) -> (r: Vec<u8>)
        ensures
            r@ == seq![CodeInstruction::InitRelayIx.code()] + self.spec_bytes(),
    {
        let mut w: Vec<u8> = Vec::new();
        w.push(Self::discriminator());
        write_bytes(&mut w, self.name.as_slice());
        w.push(self.relay_bump);
        w.push(self.relay_vault_bump);
        assert(w@ =~= seq![CodeInstruction::InitRelayIx.code()] + self.spec_bytes());
        w
    }

    /// Reads the fields from `data`, which must be exactly their size.
    pub fn try_from_bytes(data: &[u8]) -> (r: Result<Self, ProgramError>)
        ensures
            r is Ok <==> data@.len() == 34,
            r matches Ok(x) ==> x.spec_bytes() == data@,
            r is Err ==> r == Err::<Self, ProgramError>(ProgramError::InvalidInstructionData),
    {
        if data.len() != 34 {
            return Err(ProgramError::InvalidInstructionData);
        }
        let name = copy_array::<32>(data, 0);
        let relay_bump = data[32];
        let relay_vault_bump = data[33];
        let x = InitRelayIx { name, relay_bump, relay_vault_bump };
        assert(x.spec_bytes() =~= data@);
        Ok(x)
    }

    /// A value is fixed by its bytes, so reading back what `to_bytes`
    /// wrote after its discriminator gives the value.
    pub proof fn lemma_bytes_determine(self, other: Self)
        requires
            self.spec_bytes() == other.spec_bytes(),
        ensures
            self == other,
    {
        let b = self.spec_bytes();
        assert(self.name@ =~= b.subrange(0, 32));
        assert(other.name@ =~= b.subrange(0, 32));
        lemma_array_ext(self.name, other.name);
        assert(self.relay_bump == b[32] && other.relay_bump == b[32]);
        assert(self.relay_vault_bump == b[33] && other.relay_vault_bump == b[33]);
    }
}

/// Saves the relay's current root among its recent roots.
#[derive(Clone, Copy, Debug, PartialEq, Eq)]
pub struct SnapshotIx {}

impl SnapshotIx {
    /// The fields' bytes, one after another.
    pub open spec fn spec_bytes(self) -> Seq<u8> {
        Seq::empty()
    }

    /// The CodeInstruction that leads the encoding.
    pub fn discriminator() -> (r: u8)
        ensures
            r == CodeInstruction::SnapshotIx.code(),
    {
        CodeInstruction::SnapshotIx.to_u8()
    }

    /// Bytes of the fields.
    pub fn size() -> (r: usize)
        ensures
            r == 0,
    {
        0
    }

    /// The discriminator, then the fields' bytes.
    pub fn to_bytes(&self) -> (r: Vec<u8>)
        ensures
            r@ == seq![CodeInstruction::SnapshotIx.code()] + self.spec_bytes(),
    {
        let mut w: Vec<u8> = Vec::new();
        w.push(Self::discriminator());
        assert(w@ =~= seq![CodeInstruction::SnapshotIx.code()] + self.spec_bytes());
        w
    }

    /// Reads the fields from `data`, which must be exactly their size.
    pub fn try_from_bytes(data: &[u8]) -> (r: Result<Self, ProgramError>)
        ensures
            r is Ok <==> data@.len() == 0,
            r matches Ok(x) ==> x.spec_bytes() == data@,
            r is Err ==> r == Err::<Self, ProgramError>(ProgramError::InvalidInstructionData),
    {
        if data.len() != 0 {
            return Err(ProgramError::InvalidInstructionData);
        }
        let x = SnapshotIx {  };
        assert(x.spec_bytes() =~= data@);
        Ok(x)
    }

    /// A value is fixed by its bytes, so reading back what `to_bytes`
    /// wrote after its discriminator gives the value.
    pub proof fn lemma_bytes_determine(self, other: Self)
        requires
            self.spec_bytes() == other.spec_bytes(),
        ensures
            self == other,
    {
    }
}

/// Moves tokens from a deposit account into a virtual timelock account.
#[derive(Clone, Copy, Debug, PartialEq, Eq)]
pub struct DepositIx {
    pub account_index: [u8; 2],
    pub amount: [u8; 8],
    pub bump: u8,
}

impl DepositIx {
    /// The fields' bytes, one after another.
    pub open spec fn spec_bytes(self) -> Seq<u8> {
        self.account_index@ + self.amount@ + seq![self.bump]
    }

    /// Where each field lies in the encoding: account_index in bytes 0..2, amount in
    /// bytes 2..10, bump at byte 10.
    pub proof fn lemma_field_offsets(self)
        ensures
            self.spec_bytes().len() == 11,
            self.spec_bytes().subrange(0, 2) == self.account_index@,
            self.spec_bytes().subrange(2, 10) == self.amount@,
            self.spec_bytes()[10] == self.bump,
    {
        crate::codec::lemma_le_bytes();
        vstd::bytes::lemma_auto_spec_u64_to_from_le_bytes();
        assert(self.spec_bytes().subrange(0, 2) =~= self.account_index@);
        assert(self.spec_bytes().subrange(2, 10) =~= self.amount@);
    }

    /// The CodeInstruction that leads the encoding.
    pub fn discriminator() -> (r: u8)
        ensures
            r == CodeInstruction::DepositIx.code(),
    {
        CodeInstruction::DepositIx.to_u8()
    }

    /// Bytes of the fields.
    pub fn size() -> (r: usize)
        ensures
            r == 11,
    {
        11
    }

    /// The discriminator, then the fields' bytes.
    pub fn to_bytes(&self) -> (r: Vec<u8>)
        ensures
            r@ == seq![CodeInstruction::DepositIx.code()] + self.spec_bytes(),
    {
        let mut w: Vec<u8> = Vec::new();
        w.push(Self::discriminator());
        write_bytes(&mut w, self.account_index.as_slice());
        write_bytes(&mut w, self.amount.as_slice());
        w.push(self.bump);
        assert(w@ =~= seq![CodeInstruction::DepositIx.code()] + self.spec_bytes());
        w
    }

    /// Reads the fields from `data`, which must be exactly their size.
    pub fn try_from_bytes(data: &[u8]) -> (r: Result<Self, ProgramError>)
        ensures
            r is Ok <==> data@.len() == 11,
            r matches Ok(x) ==> x.spec_bytes() == data@,
            r is Err ==> r == Err::<Self, ProgramError>(ProgramError::InvalidInstructionData),
    {
        if data.len() != 11 {
            return Err(ProgramError::InvalidInstructionData);
        }
        let account_index = copy_array::<2>(data, 0);
        let amount = copy_array::<8>(data, 2);
        let bump = data[10];
        let x = DepositIx { account_index, amount, bump };
        assert(x.spec_bytes() =~= data@);
        Ok(x)
    }

    /// A value is fixed by its bytes, so reading back what `to_bytes`
    /// wrote after its discriminator gives the value.
    pub proof fn lemma_bytes_determine(self, other: Self)
        requires
            self.spec_bytes() == other.spec_bytes(),
        ensures
            self == other,
    {
        let b = self.spec_bytes();
        assert(self.account_index@ =~= b.subrange(0, 2));
        assert(other.account_index@ =~= b.subrange(0, 2));
        lemma_array_ext(self.account_index, other.account_index);
        assert(self.amount@ =~= b.subrange(2, 10));
        assert(other.amount@ =~= b.subrange(2, 10));
        lemma_array_ext(self.amount, other.amount);
        assert(self.bump == b[10] && other.bump == b[10]);
    }

    /// The fields with their packed integers read as numbers.
    pub open spec fn parsed(self) -> ParsedDepositIx {
        ParsedDepositIx { account_index: spec_u16_from_le_bytes(self.account_index@), amount: spec_u64_from_le_bytes(self.amount@), bump: self.bump }
    }

    /// Whether these fields pack the values of `p`.
    pub open spec fn packs(self, p: ParsedDepositIx) -> bool {
        &&& self.account_index@ == enc_u16(p.account_index)
        &&& self.amount@ == enc_u64(p.amount)
        &&& self.bump == p.bump
    }

    /// Reads the packed integers.
    pub fn to_struct(&self) -> (r: Result<ParsedDepositIx, std::io::Error>)
        ensures
            r == Ok::<ParsedDepositIx, std::io::Error>(self.parsed()),
    {
        proof {
            lemma_le_bytes();
        }
        Ok(ParsedDepositIx { account_index: u16_from_array(self.account_index), amount: u64_from_array(self.amount), bump: self.bump })
    }

    /// Packs the integers of `parsed` into bytes.
    pub fn from_struct(parsed: ParsedDepositIx) -> (r: Self)
        ensures
            r.packs(parsed),
    {
        DepositIx { account_index: u16_to_array(parsed.account_index), amount: u64_to_array(parsed.amount), bump: parsed.bump }
    }

    /// Packing and reading are inverse: these fields pack `p` exactly
    /// when reading them gives `p`.
    pub proof fn lemma_struct_roundtrip(self, p: ParsedDepositIx)
        ensures
            self.packs(p) <==> self.parsed() == p,
    {
        lemma_le_bytes();
        lemma_enc_injective();
        if self.parsed() == p {
            assert(enc_u16(spec_u16_from_le_bytes(self.account_index@)) == self.account_index@);
        }
        if self.parsed() == p {
            assert(enc_u64(spec_u64_from_le_bytes(self.amount@)) == self.amount@);
        }
    }
}

/// `DepositIx` with its packed integers as numbers.
#[derive(Clone, Copy, Debug, PartialEq, Eq)]
pub struct ParsedDepositIx {
    pub account_index: u16,
    pub amount: u64,
    pub bump: u8,
}

/// Starts the unlock of a timelock account.
#[derive(Clone, Copy, Debug, PartialEq, Eq)]
pub struct InitUnlockIx {}

impl InitUnlockIx {
    /// The fields' bytes, one after another.
    pub open spec fn spec_bytes(self) -> Seq<u8> {
        Seq::empty()
    }

    /// The CodeInstruction that leads the encoding.
    pub fn discriminator() -> (r: u8)
        ensures
            r == CodeInstruction::InitUnlockIx.code(),
    {
        CodeInstruction::InitUnlockIx.to_u8()
    }

    /// Bytes of the fields.
    pub fn size() -> (r: usize)
        ensures
            r == 0,
    {
        0
    }

    /// The discriminator, then the fields' bytes.
    pub fn to_bytes(&self) -> (r: Vec<u8>)
        ensures
            r@ == seq![CodeInstruction::InitUnlockIx.code()] + self.spec_bytes(),
    {
        let mut w: Vec<u8> = Vec::new();
        w.push(Self::discriminator());
        assert(w@ =~= seq![CodeInstruction::InitUnlockIx.code()] + self.spec_bytes());
        w
    }

    /// Reads the fields from `data`, which must be exactly their size.
    pub fn try_from_bytes(data: &[u8]) -> (r: Result<Self, ProgramError>)
        ensures
            r is Ok <==> data@.len() == 0,
            r matches Ok(x) ==> x.spec_bytes() == data@,
            r is Err ==> r == Err::<Self, ProgramError>(ProgramError::InvalidInstructionData),
    {
        if data.len() != 0 {
            return Err(ProgramError::InvalidInstructionData);
        }
        let x = InitUnlockIx {  };
        assert(x.spec_bytes() =~= data@);
        Ok(x)
    }

    /// A value is fixed by its bytes, so reading back what `to_bytes`
    /// wrote after its discriminator gives the value.
    pub proof fn lemma_bytes_determine(self, other: Self)
        requires
            self.spec_bytes() == other.spec_bytes(),
        ensures
            self == other,
    {
    }
}

/// Completes the unlock of a timelock account.
#[derive(Clone, Copy, Debug, PartialEq, Eq)]
pub struct UnlockIx {}

impl UnlockIx {
    /// The fields' bytes, one after another.
    pub open spec fn spec_bytes(self) -> Seq<u8> {
        Seq::empty()
    }

    /// The CodeInstruction that leads the encoding.
    pub fn discriminator() -> (r: u8)
        ensures
            r == CodeInstruction::UnlockIx.code(),
    {
        CodeInstruction::UnlockIx.to_u8()
    }

    /// Bytes of the fields.
    pub fn size() -> (r: usize)
        ensures
            r == 0,
    {
        0
    }

    /// The discriminator, then the fields' bytes.
    pub fn to_bytes(&self) -> (r: Vec<u8>)
        ensures
            r@ == seq![CodeInstruction::UnlockIx.code()] + self.spec_bytes(),
    {
        let mut w: Vec<u8> = Vec::new();
        w.push(Self::discriminator());
        assert(w@ =~= seq![CodeInstruction::UnlockIx.code()] + self.spec_bytes());
        w
    }

    /// Reads the fields from `data`, which must be exactly their size.
    pub fn try_from_bytes(data: &[u8]) -> (r: Result<Self, ProgramError>)
        ensures
            r is Ok <==> data@.len() == 0,
            r matches Ok(x) ==> x.spec_bytes() == data@,
            r is Err ==> r == Err::<Self, ProgramError>(ProgramError::InvalidInstructionData),
    {
        if data.len() != 0 {
            return Err(ProgramError::InvalidInstructionData);
        }
        let x = UnlockIx {  };
        assert(x.spec_bytes() =~= data@);
        Ok(x)
    }

    /// A value is fixed by its bytes, so reading back what `to_bytes`
    /// wrote after its discriminator gives the value.
    pub proof fn lemma_bytes_determine(self, other: Self)
        requires
            self.spec_bytes() == other.spec_bytes(),
        ensures
            self == other,
    {
    }
}

/// The payload of an `ExecIx`: an opcode, the memory slots and banks the
/// operation touches, and the operation's bytes.
#[derive(Clone, Debug, PartialEq, Eq)]
pub struct ExecIxData {
    pub opcode: u8,
    pub mem_indicies: Vec<u16>,
    pub mem_banks: Vec<u8>,
    pub data: Vec<u8>,
}

impl ExecIxData {
    /// Borsh encoding: the opcode, then each vector with its `u32` count.
    pub open spec fn spec_bytes(self) -> Seq<u8> {
        seq![self.opcode] + (enc_vec_u16(self.mem_indicies@) + (enc_bytes(self.mem_banks@) + enc_bytes(
            self.data@,
        )))
    }

    /// Where each part lies in the encoding: the opcode at byte 0, the count
    /// of memory indices as four little-endian bytes in 1..5 and the indices
    /// after it, two bytes each; then the count of banks and the banks; then
    /// the length of the data and the data.
    pub proof fn lemma_field_offsets(self)
        requires
            self.serializable(),
        ensures
            ({
                let b = self.spec_bytes();
                let n = self.mem_indicies@.len() as int;
                let m = self.mem_banks@.len() as int;
                let d = self.data@.len() as int;
                &&& b.len() == 13 + 2 * n + m + d
                &&& b[0] == self.opcode
                &&& spec_u32_from_le_bytes(b.subrange(1, 5)) == n
                &&& b.subrange(5, 5 + 2 * n) == u16s_bytes(self.mem_indicies@)
                &&& spec_u32_from_le_bytes(b.subrange(5 + 2 * n, 9 + 2 * n)) == m
                &&& b.subrange(9 + 2 * n, 9 + 2 * n + m) == self.mem_banks@
                &&& spec_u32_from_le_bytes(b.subrange(9 + 2 * n + m, 13 + 2 * n + m)) == d
                &&& b.subrange(13 + 2 * n + m, 13 + 2 * n + m + d) == self.data@
            }),
    {
        lemma_le_bytes();
        lemma_u16s_len(self.mem_indicies@);
        let b = self.spec_bytes();
        let n = self.mem_indicies@.len() as int;
        let m = self.mem_banks@.len() as int;
        let d = self.data@.len() as int;
        assert(b.subrange(1, 5) =~= enc_u32(n as u32));
        assert(b.subrange(5, 5 + 2 * n) =~= u16s_bytes(self.mem_indicies@));
        assert(b.subrange(5 + 2 * n, 9 + 2 * n) =~= enc_u32(m as u32));
        assert(b.subrange(9 + 2 * n, 9 + 2 * n + m) =~= self.mem_banks@);
        assert(b.subrange(9 + 2 * n + m, 13 + 2 * n + m) =~= enc_u32(d as u32));
        assert(b.subrange(13 + 2 * n + m, 13 + 2 * n + m + d) =~= self.data@);
    }

    /// Every vector's length fits its `u32` count.
    pub open spec fn serializable(self) -> bool {
        &&& self.mem_indicies@.len() <= u32::MAX
        &&& self.mem_banks@.len() <= u32::MAX
        &&& self.data@.len() <= u32::MAX
    }

    /// Both hold the same values.
    pub open spec fn same(self, other: Self) -> bool {
        &&& self.opcode == other.opcode
        &&& self.mem_indicies@ == other.mem_indicies@
        &&& self.mem_banks@ == other.mem_banks@
        &&& self.data@ == other.data@
    }

    /// Where the banks' count stands in `buf`.
    pub open spec fn banks_at(buf: Seq<u8>) -> int {
        5 + 2 * prefix_at(buf, 1)
    }

    /// Where the data's count stands in `buf`.
    pub open spec fn data_at(buf: Seq<u8>) -> int {
        Self::banks_at(buf) + 4 + prefix_at(buf, Self::banks_at(buf))
    }

    /// Where the encoding in `buf` ends.
    pub open spec fn end_at(buf: Seq<u8>) -> int {
        Self::data_at(buf) + 4 + prefix_at(buf, Self::data_at(buf))
    }

    /// Whether `buf` is long enough for the counts it holds.
    pub open spec fn fits(buf: Seq<u8>) -> bool {
        &&& 5 <= buf.len()
        &&& Self::banks_at(buf) + 4 <= buf.len()
        &&& Self::data_at(buf) + 4 <= buf.len()
        &&& Self::end_at(buf) <= buf.len()
    }

    /// Reads the payload from all of `buf`: too short is `UnexpectedEnd`,
    /// bytes left over are `InvalidData`.
    pub fn try_from_slice(buf: &[u8]) -> (r: Result<Self, CodecError>)
        ensures
            !Self::fits(buf@) ==> r == Err::<Self, CodecError>(CodecError::UnexpectedEnd),
            Self::fits(buf@) && Self::end_at(buf@) != buf@.len() ==> r == Err::<Self, CodecError>(
                CodecError::InvalidData,
            ),
            Self::fits(buf@) && Self::end_at(buf@) == buf@.len() ==> (r matches Ok(x)
                && x.serializable() && x.spec_bytes() == buf@),
    {
        let opcode = read_u8(buf, 0)?;
        let (mem_indicies, e1) = read_vec_u16(buf, 1)?;
        let (mem_banks, e2) = read_byte_vec(buf, e1)?;
        let (data, e3) = read_byte_vec(buf, e2)?;
        if e3 != buf.len() {
            return Err(CodecError::InvalidData);
        }
        let x = ExecIxData { opcode, mem_indicies, mem_banks, data };
        assert(buf@ =~= seq![opcode] + (buf@.subrange(1, e1 as int) + (buf@.subrange(
            e1 as int,
            e2 as int,
        ) + buf@.subrange(e2 as int, e3 as int))));
        Ok(x)
    }

    /// Appends the encoding to `w`; a vector too long for its count is
    /// refused and nothing is written.
    pub fn serialize(&self, w: &mut Vec<u8>) -> (r: Result<(), CodecError>)
        ensures
            self.serializable() ==> r is Ok && final(w)@ == old(w)@ + self.spec_bytes(),
            !self.serializable() ==> r == Err::<(), CodecError>(CodecError::InvalidData)
                && final(w)@ == old(w)@,
    {
        if self.mem_indicies.len() > u32::MAX as usize || self.mem_banks.len() > u32::MAX as usize
            || self.data.len() > u32::MAX as usize {
            return Err(CodecError::InvalidData);
        }
        w.push(self.opcode);
        let _ = write_vec_u16(w, &self.mem_indicies);
        let _ = write_byte_vec(w, &self.mem_banks);
        let _ = write_byte_vec(w, &self.data);
        assert(final(w)@ =~= old(w)@ + self.spec_bytes());
        Ok(())
    }

    /// The encoding as a fresh vector.
    pub fn try_to_vec(&self) -> (r: Result<Vec<u8>, CodecError>)
        ensures
            self.serializable() ==> (r matches Ok(v) && v@ == self.spec_bytes()),
            !self.serializable() ==> r == Err::<Vec<u8>, CodecError>(CodecError::InvalidData),
    {
        let mut v: Vec<u8> = Vec::new();
        self.serialize(&mut v)?;
        Ok(v)
    }

    /// What `try_to_vec` writes, `try_from_slice` reads back whole.
    pub proof fn lemma_roundtrip(self, other: Self)
        requires
            self.serializable(),
        ensures
            Self::fits(self.spec_bytes()),
            Self::end_at(self.spec_bytes()) == self.spec_bytes().len(),
            other.serializable() && other.spec_bytes() == self.spec_bytes() ==> other.same(self),
    {
        lemma_le_bytes();
        let b = self.spec_bytes();
        let n1 = self.mem_indicies@.len() as int;
        let n2 = self.mem_banks@.len() as int;
        let n3 = self.data@.len() as int;
        lemma_u16s_len(self.mem_indicies@);
        assert(b.subrange(1, 5) =~= enc_u32(n1 as u32));
        assert(Self::banks_at(b) == 5 + 2 * n1);
        assert(b.subrange(5 + 2 * n1, 9 + 2 * n1) =~= enc_u32(n2 as u32));
        assert(Self::data_at(b) == 9 + 2 * n1 + n2);
        assert(b.subrange(9 + 2 * n1 + n2, 13 + 2 * n1 + n2) =~= enc_u32(n3 as u32));
        if other.serializable() && other.spec_bytes() == b {
            let ro = enc_vec_u16(other.mem_indicies@) + (enc_bytes(other.mem_banks@) + enc_bytes(
                other.data@,
            ));
            let rs = enc_vec_u16(self.mem_indicies@) + (enc_bytes(self.mem_banks@) + enc_bytes(
                self.data@,
            ));
            lemma_split_prefix(seq![other.opcode], seq![self.opcode], ro, rs);
            assert(seq![other.opcode][0] == seq![self.opcode][0]);
            lemma_vec_u16_unique(
                other.mem_indicies@,
                self.mem_indicies@,
                enc_bytes(other.mem_banks@) + enc_bytes(other.data@),
                enc_bytes(self.mem_banks@) + enc_bytes(self.data@),
            );
            lemma_bytes_vec_unique(
                other.mem_banks@,
                self.mem_banks@,
                enc_bytes(other.data@),
                enc_bytes(self.data@),
            );
            assert(enc_bytes(other.data@) + Seq::empty() =~= enc_bytes(self.data@) + Seq::empty());
            lemma_bytes_vec_unique(other.data@, self.data@, Seq::empty(), Seq::empty());
        }
    }
}

/// Executes an operation on virtual accounts in memory.
#[derive(Clone, Copy, Debug, PartialEq, Eq)]
pub struct ExecIx {}

impl ExecIx {
    pub fn try_from_slice(data: &[u8]) -> (r: Result<ExecIxData, CodecError>)
        ensures
            !ExecIxData::fits(data@) ==> r == Err::<ExecIxData, CodecError>(CodecError::UnexpectedEnd),
            ExecIxData::fits(data@) && ExecIxData::end_at(data@) != data@.len() ==> r == Err::<
                ExecIxData,
                CodecError,
            >(CodecError::InvalidData),
            ExecIxData::fits(data@) && ExecIxData::end_at(data@) == data@.len() ==> (r matches Ok(x)
                && x.serializable() && x.spec_bytes() == data@),
    {
        ExecIxData::try_from_slice(data)
    }

    /// The instruction's discriminator, then the payload.
    pub fn try_to_bytes(args: ExecIxData) -> (r: Result<Vec<u8>, CodecError>)
        ensures
            args.serializable() ==> (r matches Ok(v) && v@ == seq![CodeInstruction::ExecIx.code()]
                + args.spec_bytes()),
            !args.serializable() ==> r == Err::<Vec<u8>, CodecError>(CodecError::InvalidData),
    {
        let mut result: Vec<u8> = Vec::new();
        result.push(CodeInstruction::ExecIx.to_u8());
        args.serialize(&mut result)?;
        Ok(result)
    }
}

/// The 32-byte values of the digests, in order.
pub open spec fn hash_values(s: Seq<hash::Hash>) -> Seq<[u8; 32]> {
    s.map_values(|h: hash::Hash| h.value)
}

/// A packed virtual account, its Merkle proof and a signature, as borsh
/// writes them: the bytes and the proof each with a `u32` count, then the
/// 64 signature bytes.
pub open spec fn payload_bytes(packed_va: Seq<u8>, proof: Seq<hash::Hash>, signature: Signature) -> Seq<
    u8,
> {
    enc_bytes(packed_va) + (enc_vec32(hash_values(proof)) + signature@)
}

/// Where each part of a stored account's payload lies: the packed account's
/// length as four little-endian bytes, the packed account, the number of
/// proof nodes as four bytes, node `i` in the 32 bytes after `32 * i` of
/// them, then the 64-byte signature.
pub proof fn lemma_payload_offsets(packed_va: Seq<u8>, proof: Seq<hash::Hash>, signature: Signature)
    requires
        packed_va.len() <= u32::MAX,
        proof.len() <= u32::MAX,
    ensures
        ({
            let b = payload_bytes(packed_va, proof, signature);
            let p = packed_va.len() as int;
            let k = proof.len() as int;
            &&& b.len() == 72 + p + 32 * k
            &&& spec_u32_from_le_bytes(b.subrange(0, 4)) == p
            &&& b.subrange(4, 4 + p) == packed_va
            &&& spec_u32_from_le_bytes(b.subrange(4 + p, 8 + p)) == k
            &&& forall|i: int| 0 <= i < k ==> #[trigger] b.subrange(8 + p + 32 * i, 40 + p + 32 * i) == proof[i]@
            &&& b.subrange(8 + p + 32 * k, 72 + p + 32 * k) == signature@
        }),
{
    lemma_le_bytes();
    let b = payload_bytes(packed_va, proof, signature);
    let p = packed_va.len() as int;
    let k = proof.len() as int;
    let hv = hash_values(proof);
    lemma_flatten32(hv);
    let a = arrays_bytes(hv);
    assert(b.subrange(0, 4) =~= enc_u32(p as u32));
    assert(b.subrange(4, 4 + p) =~= packed_va);
    assert(b.subrange(4 + p, 8 + p) =~= enc_u32(k as u32));
    assert forall|i: int| 0 <= i < k implies #[trigger] b.subrange(8 + p + 32 * i, 40 + p + 32 * i) == proof[i]@ by {
        assert(b.subrange(8 + p + 32 * i, 40 + p + 32 * i) =~= a.subrange(32 * i, 32 * i + 32));
        assert(hv[i]@ == proof[i]@);
    }
    assert(b.subrange(8 + p + 32 * k, 72 + p + 32 * k) =~= signature@);
}

/// Where the proof's count stands, for a payload at `pos`.
pub open spec fn proof_at(buf: Seq<u8>, pos: int) -> int {
    pos + 4 + prefix_at(buf, pos)
}

/// Where the signature stands, for a payload at `pos`.
pub open spec fn sig_at(buf: Seq<u8>, pos: int) -> int {
    proof_at(buf, pos) + 4 + 32 * prefix_at(buf, proof_at(buf, pos))
}

/// Whether `buf` is long enough for a payload at `pos`.
pub open spec fn payload_fits(buf: Seq<u8>, pos: int) -> bool {
    &&& pos + 4 <= buf.len()
    &&& proof_at(buf, pos) + 4 <= buf.len()
    &&& sig_at(buf, pos) + 64 <= buf.len()
}

fn read_payload(buf: &[u8], pos: usize) -> (r: Result<
    (Vec<u8>, Vec<hash::Hash>, Signature, usize),
    CodecError,
>)
    requires
        pos <= buf@.len(),
    ensures
        !payload_fits(buf@, pos as int) ==> r == Err::<
            (Vec<u8>, Vec<hash::Hash>, Signature, usize),
            CodecError,
        >(CodecError::UnexpectedEnd),
        payload_fits(buf@, pos as int) ==> (r matches Ok((v, p, s, e)) && e == sig_at(buf@, pos as int)
            + 64 && v@.len() <= u32::MAX && p@.len() <= u32::MAX && payload_bytes(v@, p@, s)
            == buf@.subrange(pos as int, e as int)),
{
    let (packed_va, e1) = read_byte_vec(buf, pos)?;
    let (values, e2) = read_vec32(buf, e1)?;
    if buf.len() - e2 < 64 {
        return Err(CodecError::UnexpectedEnd);
    }
    let signature = Signature { value: copy_array::<64>(buf, e2) };
    let mut proof: Vec<hash::Hash> = Vec::new();
    let mut i: usize = 0;
    while i < values.len()
        invariant
            i <= values@.len(),
            proof@.len() == i,
            hash_values(proof@) == values@.take(i as int),
        decreases values@.len() - i,
    {
        proof.push(hash::Hash { value: values[i] });
        i = i + 1;
        assert(hash_values(proof@) =~= values@.take(i as int));
    }
    assert(values@.take(i as int) =~= values@);
    let e3 = e2 + 64;
    assert(buf@.subrange(pos as int, e3 as int) =~= buf@.subrange(pos as int, e1 as int) + (
    buf@.subrange(e1 as int, e2 as int) + buf@.subrange(e2 as int, e3 as int)));
    Ok((packed_va, proof, signature, e3))
}

fn write_payload(w: &mut Vec<u8>, packed_va: &Vec<u8>, proof: &Vec<hash::Hash>, signature: &Signature)
    requires
        packed_va@.len() <= u32::MAX,
        proof@.len() <= u32::MAX,
    ensures
        final(w)@ == old(w)@ + payload_bytes(packed_va@, proof@, *signature),
{
    let _ = write_byte_vec(w, packed_va);
    let mut values: Vec<[u8; 32]> = Vec::new();
    let mut i: usize = 0;
    while i < proof.len()
        invariant
            i <= proof@.len(),
            values@.len() == i,
            values@ == hash_values(proof@).take(i as int),
        decreases proof@.len() - i,
    {
        values.push(proof[i].value);
        i = i + 1;
        assert(values@ =~= hash_values(proof@).take(i as int));
    }
    assert(hash_values(proof@).take(i as int) =~= hash_values(proof@));
    let _ = crate::codec::write_vec32(w, &values);
    write_bytes(w, signature.value.as_slice());
    assert(final(w)@ =~= old(w)@ + payload_bytes(packed_va@, proof@, *signature));
}

/// A payload fits wherever it stands, and ends where its bytes do.
proof fn lemma_payload_fits(
    packed_va: Seq<u8>,
    proof: Seq<hash::Hash>,
    signature: Signature,
    head: Seq<u8>,
)
    requires
        packed_va.len() <= u32::MAX,
        proof.len() <= u32::MAX,
    ensures
        payload_fits(head + payload_bytes(packed_va, proof, signature), head.len() as int),
        sig_at(head + payload_bytes(packed_va, proof, signature), head.len() as int) + 64 == (head
            + payload_bytes(packed_va, proof, signature)).len(),
{
    lemma_le_bytes();
    let b = head + payload_bytes(packed_va, proof, signature);
    let p = head.len() as int;
    let n1 = packed_va.len() as int;
    let n2 = proof.len() as int;
    lemma_flatten32(hash_values(proof));
    assert(b.subrange(p, p + 4) =~= enc_u32(n1 as u32));
    assert(b.subrange(p + 4 + n1, p + 8 + n1) =~= enc_u32(n2 as u32));
    assert(arrays_bytes(hash_values(proof)).len() == 32 * n2);
}

/// A payload is read back from its encoding, whatever follows.
proof fn lemma_payload_unique(
    va: Seq<u8>,
    pa: Seq<hash::Hash>,
    sa: Signature,
    vb: Seq<u8>,
    pb: Seq<hash::Hash>,
    sb: Signature,
    ta: Seq<u8>,
    tb: Seq<u8>,
)
    requires
        va.len() <= u32::MAX,
        pa.len() <= u32::MAX,
        vb.len() <= u32::MAX,
        pb.len() <= u32::MAX,
        payload_bytes(va, pa, sa) + ta == payload_bytes(vb, pb, sb) + tb,
    ensures
        va == vb,
        pa == pb,
        sa == sb,
        ta == tb,
{
    assert(payload_bytes(va, pa, sa) + ta =~= enc_bytes(va) + (enc_vec32(hash_values(pa)) + (sa@
        + ta)));
    assert(payload_bytes(vb, pb, sb) + tb =~= enc_bytes(vb) + (enc_vec32(hash_values(pb)) + (sb@
        + tb)));
    lemma_bytes_vec_unique(
        va,
        vb,
        enc_vec32(hash_values(pa)) + (sa@ + ta),
        enc_vec32(hash_values(pb)) + (sb@ + tb),
    );
    lemma_vec32_prefix_unique(hash_values(pa), hash_values(pb), sa@ + ta, sb@ + tb);
    lemma_split_prefix(sa@, sb@, ta, tb);
    lemma_signature_ext(sa, sb);
    assert(pa =~= pb) by {
        assert forall|i: int| 0 <= i < pa.len() implies pa[i] == pb[i] by {
            assert(hash_values(pa)[i] == hash_values(pb)[i]);
        }
    }
}

/// The payload of a `DecompressIx`: the memory slot to fill, and the
/// packed account with its proof and signature.
#[derive(Clone, Debug, PartialEq, Eq)]
pub struct DecompressIxData {
    pub account_index: u16,
    pub packed_va: Vec<u8>,
    pub proof: Vec<hash::Hash>,
    pub signature: Signature,
}

impl DecompressIxData {
    /// Borsh encoding: the slot, then the payload.
    pub open spec fn spec_bytes(self) -> Seq<u8> {
        enc_u16(self.account_index) + payload_bytes(self.packed_va@, self.proof@, self.signature)
    }

    /// Where each field lies in the encoding: account_index in bytes 0..2, the payload
    /// from byte 2 on.
    pub proof fn lemma_field_offsets(self)
        ensures
            self.spec_bytes().subrange(0, 2) == enc_u16(self.account_index),
            self.spec_bytes().subrange(2, self.spec_bytes().len() as int) == payload_bytes(self.packed_va@, self.proof@, self.signature),
    {
        crate::codec::lemma_le_bytes();
        vstd::bytes::lemma_auto_spec_u64_to_from_le_bytes();
        assert(self.spec_bytes().subrange(0, 2) =~= enc_u16(self.account_index));
        assert(self.spec_bytes().subrange(2, self.spec_bytes().len() as int) =~= payload_bytes(self.packed_va@, self.proof@, self.signature));
    }

    pub open spec fn serializable(self) -> bool {
        &&& self.packed_va@.len() <= u32::MAX
        &&& self.proof@.len() <= u32::MAX
    }

    /// Both hold the same values.
    pub open spec fn same(self, other: Self) -> bool {
        &&& self.account_index == other.account_index
        &&& self.packed_va@ == other.packed_va@
        &&& self.proof@ == other.proof@
        &&& self.signature == other.signature
    }

    pub open spec fn fits(buf: Seq<u8>) -> bool {
        2 <= buf.len() && payload_fits(buf, 2)
    }

    pub open spec fn end_at(buf: Seq<u8>) -> int {
        sig_at(buf, 2) + 64
    }

    /// Reads the payload from all of `buf`: too short is `UnexpectedEnd`,
    /// bytes left over are `InvalidData`.
    pub fn try_from_slice(buf: &[u8]) -> (r: Result<Self, CodecError>)
        ensures
            !Self::fits(buf@) ==> r == Err::<Self, CodecError>(CodecError::UnexpectedEnd),
            Self::fits(buf@) && Self::end_at(buf@) != buf@.len() ==> r == Err::<Self, CodecError>(
                CodecError::InvalidData,
            ),
            Self::fits(buf@) && Self::end_at(buf@) == buf@.len() ==> (r matches Ok(x)
                && x.serializable() && x.spec_bytes() == buf@),
    {
        let account_index = read_u16(buf, 0)?;
        let (packed_va, proof, signature, end) = read_payload(buf, 2)?;
        if end != buf.len() {
            return Err(CodecError::InvalidData);
        }
        assert(buf@ =~= buf@.subrange(0, 2) + buf@.subrange(2, end as int));
        Ok(DecompressIxData { account_index, packed_va, proof, signature })
    }

    /// Appends the encoding to `w`; a vector too long for its count is
    /// refused and nothing is written.
    pub fn serialize(&self, w: &mut Vec<u8>) -> (r: Result<(), CodecError>)
        ensures
            self.serializable() ==> r is Ok && final(w)@ == old(w)@ + self.spec_bytes(),
            !self.serializable() ==> r == Err::<(), CodecError>(CodecError::InvalidData)
                && final(w)@ == old(w)@,
    {
        if self.packed_va.len() > u32::MAX as usize || self.proof.len() > u32::MAX as usize {
            return Err(CodecError::InvalidData);
        }
        write_u16(w, self.account_index);
        write_payload(w, &self.packed_va, &self.proof, &self.signature);
        assert(final(w)@ =~= old(w)@ + self.spec_bytes());
        Ok(())
    }

    /// The encoding as a fresh vector.
    pub fn try_to_vec(&self) -> (r: Result<Vec<u8>, CodecError>)
        ensures
            self.serializable() ==> (r matches Ok(v) && v@ == self.spec_bytes()),
            !self.serializable() ==> r == Err::<Vec<u8>, CodecError>(CodecError::InvalidData),
    {
        let mut v: Vec<u8> = Vec::new();
        self.serialize(&mut v)?;
        Ok(v)
    }

    /// What `try_to_vec` writes, `try_from_slice` reads back whole.
    pub proof fn lemma_roundtrip(self, other: Self)
        requires
            self.serializable(),
        ensures
            Self::fits(self.spec_bytes()),
            Self::end_at(self.spec_bytes()) == self.spec_bytes().len(),
            other.serializable() && other.spec_bytes() == self.spec_bytes() ==> other.same(self),
    {
        lemma_le_bytes();
        lemma_enc_injective();
        lemma_payload_fits(self.packed_va@, self.proof@, self.signature, enc_u16(self.account_index));
        if other.serializable() && other.spec_bytes() == self.spec_bytes() {
            lemma_split_prefix(
                enc_u16(other.account_index),
                enc_u16(self.account_index),
                payload_bytes(other.packed_va@, other.proof@, other.signature),
                payload_bytes(self.packed_va@, self.proof@, self.signature),
            );
            assert(payload_bytes(other.packed_va@, other.proof@, other.signature) + Seq::empty()
                =~= payload_bytes(self.packed_va@, self.proof@, self.signature) + Seq::empty());
            lemma_payload_unique(
                other.packed_va@,
                other.proof@,
                other.signature,
                self.packed_va@,
                self.proof@,
                self.signature,
                Seq::empty(),
                Seq::empty(),
            );
        }
    }
}

/// Moves a virtual account from storage back into memory.
#[derive(Clone, Copy, Debug, PartialEq, Eq)]
pub struct DecompressIx {}

impl DecompressIx {
    pub fn try_from_slice(data: &[u8]) -> (r: Result<DecompressIxData, CodecError>)
        ensures
            !DecompressIxData::fits(data@) ==> r == Err::<DecompressIxData, CodecError>(
                CodecError::UnexpectedEnd,
            ),
            DecompressIxData::fits(data@) && DecompressIxData::end_at(data@) != data@.len() ==> r
                == Err::<DecompressIxData, CodecError>(CodecError::InvalidData),
            DecompressIxData::fits(data@) && DecompressIxData::end_at(data@) == data@.len() ==> (r matches Ok(
                x,
            ) && x.serializable() && x.spec_bytes() == data@),
    {
        DecompressIxData::try_from_slice(data)
    }

    /// The instruction's discriminator, then the payload.
    pub fn try_to_bytes(args: DecompressIxData) -> (r: Result<Vec<u8>, CodecError>)
        ensures
            args.serializable() ==> (r matches Ok(v) && v@ == seq![CodeInstruction::DecompressIx.code()]
                + args.spec_bytes()),
            !args.serializable() ==> r == Err::<Vec<u8>, CodecError>(CodecError::InvalidData),
    {
        let mut result: Vec<u8> = Vec::new();
        result.push(CodeInstruction::DecompressIx.to_u8());
        args.serialize(&mut result)?;
        Ok(result)
    }
}

/// Where a withdrawal takes its funds from.
#[derive(Clone, Debug, PartialEq, Eq)]
pub enum WithdrawIxData {
    /// A virtual account in memory.
    FromMemory { account_index: u16 },
    /// A virtual account in storage, proven by its packed bytes.
    FromStorage { packed_va: Vec<u8>, proof: Vec<hash::Hash>, signature: Signature },
    /// A deposit account.
    FromDeposit { bump: u8 },
}

impl WithdrawIxData {
    /// Borsh encoding: the variant's index, then its fields.
    pub open spec fn spec_bytes(self) -> Seq<u8> {
        match self {
            WithdrawIxData::FromMemory { account_index } => seq![0u8] + enc_u16(account_index),
            WithdrawIxData::FromStorage { packed_va, proof, signature } => seq![1u8] + payload_bytes(
                packed_va@,
                proof@,
                signature,
            ),
            WithdrawIxData::FromDeposit { bump } => seq![2u8, bump],
        }
    }

    /// The variant's index leads the encoding: 0 and the slot index as two
    /// little-endian bytes for a withdrawal from memory, 1 and the payload for
    /// one from storage, 2 and the bump for one from a deposit.
    pub proof fn lemma_field_offsets(self)
        ensures
            match self {
                WithdrawIxData::FromMemory { account_index } => self.spec_bytes().len() == 3 && self.spec_bytes()[0]
                    == 0 && spec_u16_from_le_bytes(self.spec_bytes().subrange(1, 3)) == account_index,
                WithdrawIxData::FromStorage { packed_va, proof, signature } => self.spec_bytes()[0] == 1
                    && self.spec_bytes().subrange(1, self.spec_bytes().len() as int) == payload_bytes(
                    packed_va@,
                    proof@,
                    signature,
                ),
                WithdrawIxData::FromDeposit { bump } => self.spec_bytes() == seq![2u8, bump],
            },
    {
        lemma_le_bytes();
        let b = self.spec_bytes();
        match self {
            WithdrawIxData::FromMemory { account_index } => {
                assert(b.subrange(1, 3) =~= enc_u16(account_index));
            },
            WithdrawIxData::FromStorage { packed_va, proof, signature } => {
                assert(b.subrange(1, b.len() as int) =~= payload_bytes(packed_va@, proof@, signature));
            },
            WithdrawIxData::FromDeposit { bump } => {},
        }
    }

    pub open spec fn serializable(self) -> bool {
        match self {
            WithdrawIxData::FromStorage { packed_va, proof, .. } => packed_va@.len() <= u32::MAX
                && proof@.len() <= u32::MAX,
            _ => true,
        }
    }

    /// Both hold the same values.
    pub open spec fn same(self, other: Self) -> bool {
        match (self, other) {
            (
                WithdrawIxData::FromMemory { account_index: a },
                WithdrawIxData::FromMemory { account_index: b },
            ) => a == b,
            (
                WithdrawIxData::FromStorage { packed_va: va, proof: pa, signature: sa },
                WithdrawIxData::FromStorage { packed_va: vb, proof: pb, signature: sb },
            ) => va@ == vb@ && pa@ == pb@ && sa == sb,
            (WithdrawIxData::FromDeposit { bump: a }, WithdrawIxData::FromDeposit { bump: b }) => a
                == b,
            _ => false,
        }
    }

    /// Whether `buf` is long enough for the variant it names; an unknown
    /// index needs nothing more.
    pub open spec fn fits(buf: Seq<u8>) -> bool {
        &&& 1 <= buf.len()
        &&& buf[0] == 0 ==> 3 <= buf.len()
        &&& buf[0] == 1 ==> payload_fits(buf, 1)
        &&& buf[0] == 2 ==> 2 <= buf.len()
    }

    pub open spec fn end_at(buf: Seq<u8>) -> int {
        if buf[0] == 0 {
            3
        } else if buf[0] == 1 {
            sig_at(buf, 1) + 64
        } else {
            2
        }
    }

    /// Reads the payload from all of `buf`: too short is `UnexpectedEnd`,
    /// an unknown variant or bytes left over are `InvalidData`.
    pub fn try_from_slice(buf: &[u8]) -> (r: Result<Self, CodecError>)
        ensures
            !Self::fits(buf@) ==> r == Err::<Self, CodecError>(CodecError::UnexpectedEnd),
            Self::fits(buf@) && buf@[0] > 2 ==> r == Err::<Self, CodecError>(CodecError::InvalidData),
            Self::fits(buf@) && buf@[0] <= 2 && Self::end_at(buf@) != buf@.len() ==> r == Err::<
                Self,
                CodecError,
            >(CodecError::InvalidData),
            Self::fits(buf@) && buf@[0] <= 2 && Self::end_at(buf@) == buf@.len() ==> (r matches Ok(x)
                && x.serializable() && x.spec_bytes() == buf@),
    {
        let tag = read_u8(buf, 0)?;
        if tag == 0 {
            let account_index = read_u16(buf, 1)?;
            if buf.len() != 3 {
                return Err(CodecError::InvalidData);
            }
            assert(buf@ =~= seq![0u8] + buf@.subrange(1, 3));
            Ok(WithdrawIxData::FromMemory { account_index })
        } else if tag == 1 {
            let (packed_va, proof, signature, end) = read_payload(buf, 1)?;
            if end != buf.len() {
                return Err(CodecError::InvalidData);
            }
            assert(buf@ =~= seq![1u8] + buf@.subrange(1, end as int));
            Ok(WithdrawIxData::FromStorage { packed_va, proof, signature })
        } else if tag == 2 {
            let bump = read_u8(buf, 1)?;
            if buf.len() != 2 {
                return Err(CodecError::InvalidData);
            }
            assert(buf@ =~= seq![2u8, bump]);
            Ok(WithdrawIxData::FromDeposit { bump })
        } else {
            Err(CodecError::InvalidData)
        }
    }

    /// Appends the encoding to `w`; a vector too long for its count is
    /// refused and nothing is written.
    pub fn serialize(&self, w: &mut Vec<u8>) -> (r: Result<(), CodecError>)
        ensures
            self.serializable() ==> r is Ok && final(w)@ == old(w)@ + self.spec_bytes(),
            !self.serializable() ==> r == Err::<(), CodecError>(CodecError::InvalidData)
                && final(w)@ == old(w)@,
    {
        match self {
            WithdrawIxData::FromMemory { account_index } => {
                w.push(0);
                write_u16(w, *account_index);
                assert(final(w)@ =~= old(w)@ + self.spec_bytes());
            },
            WithdrawIxData::FromStorage { packed_va, proof, signature } => {
                if packed_va.len() > u32::MAX as usize || proof.len() > u32::MAX as usize {
                    return Err(CodecError::InvalidData);
                }
                w.push(1);
                write_payload(w, packed_va, proof, signature);
                assert(final(w)@ =~= old(w)@ + self.spec_bytes());
            },
            WithdrawIxData::FromDeposit { bump } => {
                w.push(2);
                w.push(*bump);
                assert(final(w)@ =~= old(w)@ + self.spec_bytes());
            },
        }
        Ok(())
    }

    /// The encoding as a fresh vector.
    pub fn try_to_vec(&self) -> (r: Result<Vec<u8>, CodecError>)
        ensures
            self.serializable() ==> (r matches Ok(v) && v@ == self.spec_bytes()),
            !self.serializable() ==> r == Err::<Vec<u8>, CodecError>(CodecError::InvalidData),
    {
        let mut v: Vec<u8> = Vec::new();
        self.serialize(&mut v)?;
        Ok(v)
    }

    /// What `try_to_vec` writes, `try_from_slice` reads back whole.
    pub proof fn lemma_roundtrip(self, other: Self)
        requires
            self.serializable(),
        ensures
            Self::fits(self.spec_bytes()),
            self.spec_bytes()[0] <= 2,
            Self::end_at(self.spec_bytes()) == self.spec_bytes().len(),
            other.serializable() && other.spec_bytes() == self.spec_bytes() ==> other.same(self),
    {
        lemma_le_bytes();
        lemma_enc_injective();
        let b = self.spec_bytes();
        match self {
            WithdrawIxData::FromMemory { account_index } => {},
            WithdrawIxData::FromStorage { packed_va, proof, signature } => {
                lemma_payload_fits(packed_va@, proof@, signature, seq![1u8]);
            },
            WithdrawIxData::FromDeposit { bump } => {},
        }
        if other.serializable() && other.spec_bytes() == b {
            assert(other.spec_bytes()[0] == b[0]);
            match (self, other) {
                (
                    WithdrawIxData::FromMemory { account_index: a },
                    WithdrawIxData::FromMemory { account_index: c },
                ) => {
                    lemma_split_prefix(seq![0u8], seq![0u8], enc_u16(a), enc_u16(c));
                },
                (
                    WithdrawIxData::FromStorage { packed_va: va, proof: pa, signature: sa },
                    WithdrawIxData::FromStorage { packed_va: vb, proof: pb, signature: sb },
                ) => {
                    lemma_split_prefix(
                        seq![1u8],
                        seq![1u8],
                        payload_bytes(va@, pa@, sa),
                        payload_bytes(vb@, pb@, sb),
                    );
                    assert(payload_bytes(va@, pa@, sa) + Seq::empty() =~= payload_bytes(vb@, pb@, sb)
                        + Seq::empty());
                    lemma_payload_unique(va@, pa@, sa, vb@, pb@, sb, Seq::empty(), Seq::empty());
                },
                (WithdrawIxData::FromDeposit { bump: a }, WithdrawIxData::FromDeposit { bump: c }) => {
                    assert(b[1] == a);
                    assert(other.spec_bytes()[1] == c);
                },
                _ => {},
            }
        }
    }
}

/// Withdraws the tokens of a virtual account.
#[derive(Clone, Copy, Debug, PartialEq, Eq)]
pub struct WithdrawIx {}

impl WithdrawIx {
    pub fn try_from_slice(data: &[u8]) -> (r: Result<WithdrawIxData, CodecError>)
        ensures
            !WithdrawIxData::fits(data@) ==> r == Err::<WithdrawIxData, CodecError>(
                CodecError::UnexpectedEnd,
            ),
            WithdrawIxData::fits(data@) && data@[0] > 2 ==> r == Err::<WithdrawIxData, CodecError>(
                CodecError::InvalidData,
            ),
            WithdrawIxData::fits(data@) && data@[0] <= 2 && WithdrawIxData::end_at(data@) != data@.len()
                ==> r == Err::<WithdrawIxData, CodecError>(CodecError::InvalidData),
            WithdrawIxData::fits(data@) && data@[0] <= 2 && WithdrawIxData::end_at(data@) == data@.len()
                ==> (r matches Ok(x) && x.serializable() && x.spec_bytes() == data@),
    {
        WithdrawIxData::try_from_slice(data)
    }

    /// The instruction's discriminator, then the payload.
    pub fn try_to_bytes(args: WithdrawIxData) -> (r: Result<Vec<u8>, CodecError>)
        ensures
            args.serializable() ==> (r matches Ok(v) && v@ == seq![CodeInstruction::WithdrawIx.code()]
                + args.spec_bytes()),
            !args.serializable() ==> r == Err::<Vec<u8>, CodecError>(CodecError::InvalidData),
    {
        let mut result: Vec<u8> = Vec::new();
        result.push(CodeInstruction::WithdrawIx.to_u8());
        args.serialize(&mut result)?;
        Ok(result)
    }
}

} // verus!
