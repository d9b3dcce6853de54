//! The operations that an `ExecIx` carries: an opcode byte, then the
//! operation's fixed-size fields, integers packed as little-endian bytes.
use vstd::prelude::*;

use crate::codec::{
    copy_array, enc_u64, lemma_array_ext, lemma_enc_injective, lemma_le_bytes, u64_from_array,
    u64_to_array, write_bytes,
};
use crate::error::ProgramError;
use crate::types::hash::{self, lemma_hash_ext};
use crate::types::Pubkey;
use vstd::bytes::spec_u64_from_le_bytes;

verus! {


/// The operations the VM executes.
#[derive(Clone, Copy, Debug, PartialEq, Eq, Structural)]
pub enum Opcode {
    Unknown,
    /// Transfer between two virtual accounts.
    TransferOp,
    /// Withdraw a whole virtual account into another.
    WithdrawOp,
    /// Pay into a virtual account from the relay.
    RelayOp,
    /// Transfer to a real token account.
    ExternalTransferOp,
    /// Withdraw a whole virtual account to a real token account.
    ExternalWithdrawOp,
    /// Pay into a real token account from the relay.
    ExternalRelayOp,
    /// Transfer to the relay against a commitment.
    ConditionalTransferOp,
    /// Pay the same amount to several virtual accounts.
    AirdropOp,
}

impl Opcode {
    /// The byte that stands for the variant.
    pub open spec fn code(self) -> u8 {
        match self {
            Opcode::Unknown => 0,
            Opcode::TransferOp => 11,
            Opcode::WithdrawOp => 14,
            Opcode::RelayOp => 21,
            Opcode::ExternalTransferOp => 10,
            Opcode::ExternalWithdrawOp => 13,
            Opcode::ExternalRelayOp => 20,
            Opcode::ConditionalTransferOp => 12,
            Opcode::AirdropOp => 30,
        }
    }

    /// The byte of each operation on the wire: external transfer 10, transfer
    /// 11, conditional transfer 12, external withdrawal 13, withdrawal 14,
    /// external relay payment 20, relay payment 21, airdrop 30; 0 is unknown.
    pub proof fn lemma_wire_codes()
        ensures
            Opcode::Unknown.code() == 0,
            Opcode::ExternalTransferOp.code() == 10,
            Opcode::TransferOp.code() == 11,
            Opcode::ConditionalTransferOp.code() == 12,
            Opcode::ExternalWithdrawOp.code() == 13,
            Opcode::WithdrawOp.code() == 14,
            Opcode::ExternalRelayOp.code() == 20,
            Opcode::RelayOp.code() == 21,
            Opcode::AirdropOp.code() == 30,
    {
    }

    pub fn to_u8(self) -> (r: u8)
        ensures
            r == self.code(),
    {
        match self {
            Opcode::Unknown => 0,
            Opcode::TransferOp => 11,
            Opcode::WithdrawOp => 14,
            Opcode::RelayOp => 21,
            Opcode::ExternalTransferOp => 10,
            Opcode::ExternalWithdrawOp => 13,
            Opcode::ExternalRelayOp => 20,
            Opcode::ConditionalTransferOp => 12,
            Opcode::AirdropOp => 30,
        }
    }

    /// The variant a byte stands for, if any.
    pub fn try_from_u8(v: u8) -> (r: Option<Self>)
        ensures
            r matches Some(x) ==> x.code() == v,
            r is None ==> forall|x: Self| x.code() != v,
    {
        match v {
            0 => Some(Opcode::Unknown),
            11 => Some(Opcode::TransferOp),
            14 => Some(Opcode::WithdrawOp),
            21 => Some(Opcode::RelayOp),
            10 => Some(Opcode::ExternalTransferOp),
            13 => Some(Opcode::ExternalWithdrawOp),
            20 => Some(Opcode::ExternalRelayOp),
            12 => Some(Opcode::ConditionalTransferOp),
            30 => Some(Opcode::AirdropOp),
            _ => {
                proof {
                    assert forall|x: Self| x.code() != v by {
                        match x {
                            Opcode::Unknown => {},
                            Opcode::TransferOp => {},
                            Opcode::WithdrawOp => {},
                            Opcode::RelayOp => {},
                            Opcode::ExternalTransferOp => {},
                            Opcode::ExternalWithdrawOp => {},
                            Opcode::ExternalRelayOp => {},
                            Opcode::ConditionalTransferOp => {},
                            Opcode::AirdropOp => {},
                        }
                    }
                }
                None
            },
        }
    }

    /// Distinct variants have distinct bytes, so reading back the byte
    /// of a variant gives the variant.
    pub proof fn lemma_code_injective(self, other: Self)
        ensures
            self.code() == other.code() ==> self == other,
    {
    }
}

/// Transfer between two virtual accounts.
#[derive(Clone, Copy, Debug, PartialEq, Eq)]
pub struct TransferOp {
    pub signature: [u8; 64],
    pub amount: [u8; 8],
}

impl TransferOp {
    /// The fields' bytes, one after another.
    pub open spec fn spec_bytes(self) -> Seq<u8> {
        self.signature@ + self.amount@
    }

    /// Where each field lies in the encoding: signature in bytes 0..64, amount in bytes
    /// 64..72.
    pub proof fn lemma_field_offsets(self)
        ensures
            self.spec_bytes().len() == 72,
            self.spec_bytes().subrange(0, 64) == self.signature@,
            self.spec_bytes().subrange(64, 72) == self.amount@,
            spec_u64_from_le_bytes(self.spec_bytes().subrange(64, 72)) == self.parsed().amount,
    {
        crate::codec::lemma_le_bytes();
        vstd::bytes::lemma_auto_spec_u64_to_from_le_bytes();
        assert(self.spec_bytes().subrange(0, 64) =~= self.signature@);
        assert(self.spec_bytes().subrange(64, 72) =~= self.amount@);
    }

    /// The Opcode that leads the encoding.
    pub fn discriminator() -> (r: u8)
        ensures
            r == Opcode::TransferOp.code(),
    {
        Opcode::TransferOp.to_u8()
    }

    /// Bytes of the fields.
    pub fn size() -> (r: usize)
        ensures
            r == 72,
    {
        72
    }

    /// The discriminator, then the fields' bytes.
    pub fn to_bytes(&self) -> (r: Vec<u8>)
        ensures
            r@ == seq![Opcode::TransferOp.code()] + self.spec_bytes(),
    {
        let mut w: Vec<u8> = Vec::new();
        w.push(Self::discriminator());
        write_bytes(&mut w, self.signature.as_slice());
        write_bytes(&mut w, self.amount.as_slice());
        assert(w@ =~= seq![Opcode::TransferOp.code()] + self.spec_bytes());
        w
    }

    /// Reads the fields from `data`, which must be exactly their size.
    pub fn try_from_bytes(data: &[u8]) -> (r: Result<Self, ProgramError>)
        ensures
            r is Ok <==> data@.len() == 72,
            r matches Ok(x) ==> x.spec_bytes() == data@,
            r is Err ==> r == Err::<Self, ProgramError>(ProgramError::InvalidInstructionData),
    {
        if data.len() != 72 {
            return Err(ProgramError::InvalidInstructionData);
        }
        let signature = copy_array::<64>(data, 0);
        let amount = copy_array::<8>(data, 64);
        let x = TransferOp { signature, amount };
        assert(x.spec_bytes() =~= data@);
        Ok(x)
    }

    /// A value is fixed by its bytes, so reading back what `to_bytes`
    /// wrote after its discriminator gives the value.
    pub proof fn lemma_bytes_determine(self, other: Self)
        requires
            self.spec_bytes() == other.spec_bytes(),
        ensures
            self == other,
    {
        let b = self.spec_bytes();
        assert(self.signature@ =~= b.subrange(0, 64));
        assert(other.signature@ =~= b.subrange(0, 64));
        lemma_array_ext(self.signature, other.signature);
        assert(self.amount@ =~= b.subrange(64, 72));
        assert(other.amount@ =~= b.subrange(64, 72));
        lemma_array_ext(self.amount, other.amount);
    }

    /// The fields with their packed integers read as numbers.
    pub open spec fn parsed(self) -> ParsedTransferOp {
        ParsedTransferOp { signature: self.signature, amount: spec_u64_from_le_bytes(self.amount@) }
    }

    /// Whether these fields pack the values of `p`.
    pub open spec fn packs(self, p: ParsedTransferOp) -> bool {
        &&& self.signature == p.signature
        &&& self.amount@ == enc_u64(p.amount)
    }

    /// Reads the packed integers.
    pub fn to_struct(&self) -> (r: Result<ParsedTransferOp, std::io::Error>)
        ensures
            r == Ok::<ParsedTransferOp, std::io::Error>(self.parsed()),
    {
        proof {
            lemma_le_bytes();
        }
        Ok(ParsedTransferOp { signature: self.signature, amount: u64_from_array(self.amount) })
    }

    /// Packs the integers of `parsed` into bytes.
    pub fn from_struct(parsed: ParsedTransferOp) -> (r: Self)
        ensures
            r.packs(parsed),
    {
        TransferOp { signature: parsed.signature, amount: u64_to_array(parsed.amount) }
    }

    /// Packing and reading are inverse: these fields pack `p` exactly
    /// when reading them gives `p`.
    pub proof fn lemma_struct_roundtrip(self, p: ParsedTransferOp)
        ensures
            self.packs(p) <==> self.parsed() == p,
    {
        lemma_le_bytes();
        lemma_enc_injective();
        if self.parsed() == p {
            assert(enc_u64(spec_u64_from_le_bytes(self.amount@)) == self.amount@);
        }
    }
}

/// `TransferOp` with its packed integers as numbers.
#[derive(Clone, Copy, Debug, PartialEq, Eq)]
pub struct ParsedTransferOp {
    pub signature: [u8; 64],
    pub amount: u64,
}

/// Withdraw a whole virtual account into another.
#[derive(Clone, Copy, Debug, PartialEq, Eq)]
pub struct WithdrawOp {
    pub signature: [u8; 64],
}

impl WithdrawOp {
    /// The fields' bytes, one after another.
    pub open spec fn spec_bytes(self) -> Seq<u8> {
        self.signature@
    }

    /// The Opcode that leads the encoding.
    pub fn discriminator() -> (r: u8)
        ensures
            r == Opcode::WithdrawOp.code(),
    {
        Opcode::WithdrawOp.to_u8()
    }

    /// Bytes of the fields.
    pub fn size() -> (r: usize)
        ensures
            r == 64,
    {
        64
    }

    /// The discriminator, then the fields' bytes.
    pub fn to_bytes(&self) -> (r: Vec<u8>)
        ensures
            r@ == seq![Opcode::WithdrawOp.code()] + self.spec_bytes(),
    {
        let mut w: Vec<u8> = Vec::new();
        w.push(Self::discriminator());
        write_bytes(&mut w, self.signature.as_slice());
        assert(w@ =~= seq![Opcode::WithdrawOp.code()] + self.spec_bytes());
        w
    }

    /// Reads the fields from `data`, which must be exactly their size.
    pub fn try_from_bytes(data: &[u8]) -> (r: Result<Self, ProgramError>)
        ensures
            r is Ok <==> data@.len() == 64,
            r matches Ok(x) ==> x.spec_bytes() == data@,
            r is Err ==> r == Err::<Self, ProgramError>(ProgramError::InvalidInstructionData),
    {
        if data.len() != 64 {
            return Err(ProgramError::InvalidInstructionData);
        }
        let signature = copy_array::<64>(data, 0);
        let x = WithdrawOp { signature };
        assert(x.spec_bytes() =~= data@);
        Ok(x)
    }

    /// A value is fixed by its bytes, so reading back what `to_bytes`
    /// wrote after its discriminator gives the value.
    pub proof fn lemma_bytes_determine(self, other: Self)
        requires
            self.spec_bytes() == other.spec_bytes(),
        ensures
            self == other,
    {
        let b = self.spec_bytes();
        assert(self.signature@ =~= b.subrange(0, 64));
        assert(other.signature@ =~= b.subrange(0, 64));
        lemma_array_ext(self.signature, other.signature);
    }
}

/// Pay into a virtual account from the relay.
#[derive(Clone, Copy, Debug, PartialEq, Eq)]
pub struct RelayOp {
    pub amount: [u8; 8],
    pub transcript: hash::Hash,
    pub recent_root: hash::Hash,
    pub commitment: Pubkey,
}

impl RelayOp {
    /// The fields' bytes, one after another.
    pub open spec fn spec_bytes(self) -> Seq<u8> {
        self.amount@ + self.transcript@ + self.recent_root@ + self.commitment@
    }

    /// Where each field lies in the encoding: amount in bytes 0..8, transcript in bytes
    /// 8..40, recent_root in bytes 40..72, commitment in bytes 72..104.
    pub proof fn lemma_field_offsets(self)
        ensures
            self.spec_bytes().len() == 104,
            self.spec_bytes().subrange(0, 8) == self.amount@,
            spec_u64_from_le_bytes(self.spec_bytes().subrange(0, 8)) == self.parsed().amount,
            self.spec_bytes().subrange(8, 40) == self.transcript@,
            self.spec_bytes().subrange(40, 72) == self.recent_root@,
            self.spec_bytes().subrange(72, 104) == self.commitment@,
    {
        crate::codec::lemma_le_bytes();
        vstd::bytes::lemma_auto_spec_u64_to_from_le_bytes();
        assert(self.spec_bytes().subrange(0, 8) =~= self.amount@);
        assert(self.spec_bytes().subrange(8, 40) =~= self.transcript@);
        assert(self.spec_bytes().subrange(40, 72) =~= self.recent_root@);
        assert(self.spec_bytes().subrange(72, 104) =~= self.commitment@);
    }

    /// The Opcode that leads the encoding.
    pub fn discriminator() -> (r: u8)
        ensures
            r == Opcode::RelayOp.code(),
    {
        Opcode::RelayOp.to_u8()
    }

    /// Bytes of the fields.
    pub fn size() -> (r: usize)
        ensures
            r == 104,
    {
        104
    }

    /// The discriminator, then the fields' bytes.
    pub fn to_bytes(&self) -> (r: Vec<u8>)
        ensures
            r@ == seq![Opcode::RelayOp.code()] + self.spec_bytes(),
    {
        let mut w: Vec<u8> = Vec::new();
        w.push(Self::discriminator());
        write_bytes(&mut w, self.amount.as_slice());
        write_bytes(&mut w, self.transcript.value.as_slice());
        write_bytes(&mut w, self.recent_root.value.as_slice());
        write_bytes(&mut w, self.commitment.as_slice());
        assert(w@ =~= seq![Opcode::RelayOp.code()] + self.spec_bytes());
        w
    }

    /// Reads the fields from `data`, which must be exactly their size.
    pub fn try_from_bytes(data: &[u8]) -> (r: Result<Self, ProgramError>)
        ensures
            r is Ok <==> data@.len() == 104,
            r matches Ok(x) ==> x.spec_bytes() == data@,
            r is Err ==> r == Err::<Self, ProgramError>(ProgramError::InvalidInstructionData),
    {
        if data.len() != 104 {
            return Err(ProgramError::InvalidInstructionData);
        }
        let amount = copy_array::<8>(data, 0);
        let transcript = hash::Hash { value: copy_array::<32>(data, 8) };
        let recent_root = hash::Hash { value: copy_array::<32>(data, 40) };
        let commitment = copy_array::<32>(data, 72);
        let x = RelayOp { amount, transcript, recent_root, commitment };
        assert(x.spec_bytes() =~= data@);
        Ok(x)
    }

    /// A value is fixed by its bytes, so reading back what `to_bytes`
    /// wrote after its discriminator gives the value.
    pub proof fn lemma_bytes_determine(self, other: Self)
        requires
            self.spec_bytes() == other.spec_bytes(),
        ensures
            self == other,
    {
        let b = self.spec_bytes();
        assert(self.amount@ =~= b.subrange(0, 8));
        assert(other.amount@ =~= b.subrange(0, 8));
        lemma_array_ext(self.amount, other.amount);
        assert(self.transcript@ =~= b.subrange(8, 40));
        assert(other.transcript@ =~= b.subrange(8, 40));
        lemma_hash_ext(self.transcript, other.transcript);
        assert(self.recent_root@ =~= b.subrange(40, 72));
        assert(other.recent_root@ =~= b.subrange(40, 72));
        lemma_hash_ext(self.recent_root, other.recent_root);
        assert(self.commitment@ =~= b.subrange(72, 104));
        assert(other.commitment@ =~= b.subrange(72, 104));
        lemma_array_ext(self.commitment, other.commitment);
    }

    /// The fields with their packed integers read as numbers.
    pub open spec fn parsed(self) -> ParsedRelayOp {
        ParsedRelayOp { amount: spec_u64_from_le_bytes(self.amount@), transcript: self.transcript, recent_root: self.recent_root, commitment: self.commitment }
    }

    /// Whether these fields pack the values of `p`.
    pub open spec fn packs(self, p: ParsedRelayOp) -> bool {
        &&& self.amount@ == enc_u64(p.amount)
        &&& self.transcript == p.transcript
        &&& self.recent_root == p.recent_root
        &&& self.commitment == p.commitment
    }

    /// Reads the packed integers.
    pub fn to_struct(&self) -> (r: Result<ParsedRelayOp, std::io::Error>)
        ensures
            r == Ok::<ParsedRelayOp, std::io::Error>(self.parsed()),
    {
        proof {
            lemma_le_bytes();
        }
        Ok(ParsedRelayOp { amount: u64_from_array(self.amount), transcript: self.transcript, recent_root: self.recent_root, commitment: self.commitment })
    }

    /// Packs the integers of `parsed` into bytes.
    pub fn from_struct(parsed: ParsedRelayOp) -> (r: Self)
        ensures
            r.packs(parsed),
    {
        RelayOp { amount: u64_to_array(parsed.amount), transcript: parsed.transcript, recent_root: parsed.recent_root, commitment: parsed.commitment }
    }

    /// Packing and reading are inverse: these fields pack `p` exactly
    /// when reading them gives `p`.
    pub proof fn lemma_struct_roundtrip(self, p: ParsedRelayOp)
        ensures
            self.packs(p) <==> self.parsed() == p,
    {
        lemma_le_bytes();
        lemma_enc_injective();
        if self.parsed() == p {
            assert(enc_u64(spec_u64_from_le_bytes(self.amount@)) == self.amount@);
        }
    }
}

/// `RelayOp` with its packed integers as numbers.
#[derive(Clone, Copy, Debug, PartialEq, Eq)]
pub struct ParsedRelayOp {
    pub amount: u64,
    pub transcript: hash::Hash,
    pub recent_root: hash::Hash,
    pub commitment: Pubkey,
}

/// Transfer to a real token account.
#[derive(Clone, Copy, Debug, PartialEq, Eq)]
pub struct ExternalTransferOp {
    pub signature: [u8; 64],
    pub amount: [u8; 8],
}

impl ExternalTransferOp {
    /// The fields' bytes, one after another.
    pub open spec fn spec_bytes(self) -> Seq<u8> {
        self.signature@ + self.amount@
    }

    /// Where each field lies in the encoding: signature in bytes 0..64, amount in bytes
    /// 64..72.
    pub proof fn lemma_field_offsets(self)
        ensures
            self.spec_bytes().len() == 72,
            self.spec_bytes().subrange(0, 64) == self.signature@,
            self.spec_bytes().subrange(64, 72) == self.amount@,
            spec_u64_from_le_bytes(self.spec_bytes().subrange(64, 72)) == self.parsed().amount,
    {
        crate::codec::lemma_le_bytes();
        vstd::bytes::lemma_auto_spec_u64_to_from_le_bytes();
        assert(self.spec_bytes().subrange(0, 64) =~= self.signature@);
        assert(self.spec_bytes().subrange(64, 72) =~= self.amount@);
    }

    /// The Opcode that leads the encoding.
    pub fn discriminator() -> (r: u8)
        ensures
            r == Opcode::ExternalTransferOp.code(),
    {
        Opcode::ExternalTransferOp.to_u8()
    }

    /// Bytes of the fields.
    pub fn size() -> (r: usize)
        ensures
            r == 72,
    {
        72
    }

    /// The discriminator, then the fields' bytes.
    pub fn to_bytes(&self) -> (r: Vec<u8>)
        ensures
            r@ == seq![Opcode::ExternalTransferOp.code()] + self.spec_bytes(),
    {
        let mut w: Vec<u8> = Vec::new();
        w.push(Self::discriminator());
        write_bytes(&mut w, self.signature.as_slice());
        write_bytes(&mut w, self.amount.as_slice());
        assert(w@ =~= seq![Opcode::ExternalTransferOp.code()] + self.spec_bytes());
        w
    }

    /// Reads the fields from `data`, which must be exactly their size.
    pub fn try_from_bytes(data: &[u8]) -> (r: Result<Self, ProgramError>)
        ensures
            r is Ok <==> data@.len() == 72,
            r matches Ok(x) ==> x.spec_bytes() == data@,
            r is Err ==> r == Err::<Self, ProgramError>(ProgramError::InvalidInstructionData),
    {
        if data.len() != 72 {
            return Err(ProgramError::InvalidInstructionData);
        }
        let signature = copy_array::<64>(data, 0);
        let amount = copy_array::<8>(data, 64);
        let x = ExternalTransferOp { signature, amount };
        assert(x.spec_bytes() =~= data@);
        Ok(x)
    }

    /// A value is fixed by its bytes, so reading back what `to_bytes`
    /// wrote after its discriminator gives the value.
    pub proof fn lemma_bytes_determine(self, other: Self)
        requires
            self.spec_bytes() == other.spec_bytes(),
        ensures
            self == other,
    {
        let b = self.spec_bytes();
        assert(self.signature@ =~= b.subrange(0, 64));
        assert(other.signature@ =~= b.subrange(0, 64));
        lemma_array_ext(self.signature, other.signature);
        assert(self.amount@ =~= b.subrange(64, 72));
        assert(other.amount@ =~= b.subrange(64, 72));
        lemma_array_ext(self.amount, other.amount);
    }

    /// The fields with their packed integers read as numbers.
    pub open spec fn parsed(self) -> ParsedExternalTransferOp {
        ParsedExternalTransferOp { signature: self.signature, amount: spec_u64_from_le_bytes(self.amount@) }
    }

    /// Whether these fields pack the values of `p`.
    pub open spec fn packs(self, p: ParsedExternalTransferOp) -> bool {
        &&& self.signature == p.signature
        &&& self.amount@ == enc_u64(p.amount)
    }

    /// Reads the packed integers.
    pub fn to_struct(&self) -> (r: Result<ParsedExternalTransferOp, std::io::Error>)
        ensures
            r == Ok::<ParsedExternalTransferOp, std::io::Error>(self.parsed()),
    {
        proof {
            lemma_le_bytes();
        }
        Ok(ParsedExternalTransferOp { signature: self.signature, amount: u64_from_array(self.amount) })
    }

    /// Packs the integers of `parsed` into bytes.
    pub fn from_struct(parsed: ParsedExternalTransferOp) -> (r: Self)
        ensures
            r.packs(parsed),
    {
        ExternalTransferOp { signature: parsed.signature, amount: u64_to_array(parsed.amount) }
    }

    /// Packing and reading are inverse: these fields pack `p` exactly
    /// when reading them gives `p`.
    pub proof fn lemma_struct_roundtrip(self, p: ParsedExternalTransferOp)
        ensures
            self.packs(p) <==> self.parsed() == p,
    {
        lemma_le_bytes();
        lemma_enc_injective();
        if self.parsed() == p {
            assert(enc_u64(spec_u64_from_le_bytes(self.amount@)) == self.amount@);
        }
    }
}

/// `ExternalTransferOp` with its packed integers as numbers.
#[derive(Clone, Copy, Debug, PartialEq, Eq)]
pub struct ParsedExternalTransferOp {
    pub signature: [u8; 64],
    pub amount: u64,
}

/// Withdraw a whole virtual account to a real token account.
#[derive(Clone, Copy, Debug, PartialEq, Eq)]
pub struct ExternalWithdrawOp {
    pub signature: [u8; 64],
}

impl ExternalWithdrawOp {
    /// The fields' bytes, one after another.
    pub open spec fn spec_bytes(self) -> Seq<u8> {
        self.signature@
    }

    /// The Opcode that leads the encoding.
    pub fn discriminator() -> (r: u8)
        ensures
            r == Opcode::ExternalWithdrawOp.code(),
    {
        Opcode::ExternalWithdrawOp.to_u8()
    }

    /// Bytes of the fields.
    pub fn size() -> (r: usize)
        ensures
            r == 64,
    {
        64
    }

    /// The discriminator, then the fields' bytes.
    pub fn to_bytes(&self) -> (r: Vec<u8>)
        ensures
            r@ == seq![Opcode::ExternalWithdrawOp.code()] + self.spec_bytes(),
    {
        let mut w: Vec<u8> = Vec::new();
        w.push(Self::discriminator());
        write_bytes(&mut w, self.signature.as_slice());
        assert(w@ =~= seq![Opcode::ExternalWithdrawOp.code()] + self.spec_bytes());
        w
    }

    /// Reads the fields from `data`, which must be exactly their size.
    pub fn try_from_bytes(data: &[u8]) -> (r: Result<Self, ProgramError>)
        ensures
            r is Ok <==> data@.len() == 64,
            r matches Ok(x) ==> x.spec_bytes() == data@,
            r is Err ==> r == Err::<Self, ProgramError>(ProgramError::InvalidInstructionData),
    {
        if data.len() != 64 {
            return Err(ProgramError::InvalidInstructionData);
        }
        let signature = copy_array::<64>(data, 0);
        let x = ExternalWithdrawOp { signature };
        assert(x.spec_bytes() =~= data@);
        Ok(x)
    }

    /// A value is fixed by its bytes, so reading back what `to_bytes`
    /// wrote after its discriminator gives the value.
    pub proof fn lemma_bytes_determine(self, other: Self)
        requires
            self.spec_bytes() == other.spec_bytes(),
        ensures
            self == other,
    {
        let b = self.spec_bytes();
        assert(self.signature@ =~= b.subrange(0, 64));
        assert(other.signature@ =~= b.subrange(0, 64));
        lemma_array_ext(self.signature, other.signature);
    }
}

/// Pay into a real token account from the relay.
#[derive(Clone, Copy, Debug, PartialEq, Eq)]
pub struct ExternalRelayOp {
    pub amount: [u8; 8],
    pub transcript: hash::Hash,
    pub recent_root: hash::Hash,
    pub commitment: Pubkey,
}

impl ExternalRelayOp {
    /// The fields' bytes, one after another.
    pub open spec fn spec_bytes(self) -> Seq<u8> {
        self.amount@ + self.transcript@ + self.recent_root@ + self.commitment@
    }

    /// Where each field lies in the encoding: amount in bytes 0..8, transcript in bytes
    /// 8..40, recent_root in bytes 40..72, commitment in bytes 72..104.
    pub proof fn lemma_field_offsets(self)
        ensures
            self.spec_bytes().len() == 104,
            self.spec_bytes().subrange(0, 8) == self.amount@,
            spec_u64_from_le_bytes(self.spec_bytes().subrange(0, 8)) == self.parsed().amount,
            self.spec_bytes().subrange(8, 40) == self.transcript@,
            self.spec_bytes().subrange(40, 72) == self.recent_root@,
            self.spec_bytes().subrange(72, 104) == self.commitment@,
    {
        crate::codec::lemma_le_bytes();
        vstd::bytes::lemma_auto_spec_u64_to_from_le_bytes();
        assert(self.spec_bytes().subrange(0, 8) =~= self.amount@);
        assert(self.spec_bytes().subrange(8, 40) =~= self.transcript@);
        assert(self.spec_bytes().subrange(40, 72) =~= self.recent_root@);
        assert(self.spec_bytes().subrange(72, 104) =~= self.commitment@);
    }

    /// The Opcode that leads the encoding.
    pub fn discriminator() -> (r: u8)
        ensures
            r == Opcode::ExternalRelayOp.code(),
    {
        Opcode::ExternalRelayOp.to_u8()
    }

    /// Bytes of the fields.
    pub fn size() -> (r: usize)
        ensures
            r == 104,
    {
        104
    }

    /// The discriminator, then the fields' bytes.
    pub fn to_bytes(&self) -> (r: Vec<u8>)
        ensures
            r@ == seq![Opcode::ExternalRelayOp.code()] + self.spec_bytes(),
    {
        let mut w: Vec<u8> = Vec::new();
        w.push(Self::discriminator());
        write_bytes(&mut w, self.amount.as_slice());
        write_bytes(&mut w, self.transcript.value.as_slice());
        write_bytes(&mut w, self.recent_root.value.as_slice());
        write_bytes(&mut w, self.commitment.as_slice());
        assert(w@ =~= seq![Opcode::ExternalRelayOp.code()] + self.spec_bytes());
        w
    }

    /// Reads the fields from `data`, which must be exactly their size.
    pub fn try_from_bytes(data: &[u8]) -> (r: Result<Self, ProgramError>)
        ensures
            r is Ok <==> data@.len() == 104,
            r matches Ok(x) ==> x.spec_bytes() == data@,
            r is Err ==> r == Err::<Self, ProgramError>(ProgramError::InvalidInstructionData),
    {
        if data.len() != 104 {
            return Err(ProgramError::InvalidInstructionData);
        }
        let amount = copy_array::<8>(data, 0);
        let transcript = hash::Hash { value: copy_array::<32>(data, 8) };
        let recent_root = hash::Hash { value: copy_array::<32>(data, 40) };
        let commitment = copy_array::<32>(data, 72);
        let x = ExternalRelayOp { amount, transcript, recent_root, commitment };
        assert(x.spec_bytes() =~= data@);
        Ok(x)
    }

    /// A value is fixed by its bytes, so reading back what `to_bytes`
    /// wrote after its discriminator gives the value.
    pub proof fn lemma_bytes_determine(self, other: Self)
        requires
            self.spec_bytes() == other.spec_bytes(),
        ensures
            self == other,
    {
        let b = self.spec_bytes();
        assert(self.amount@ =~= b.subrange(0, 8));
        assert(other.amount@ =~= b.subrange(0, 8));
        lemma_array_ext(self.amount, other.amount);
        assert(self.transcript@ =~= b.subrange(8, 40));
        assert(other.transcript@ =~= b.subrange(8, 40));
        lemma_hash_ext(self.transcript, other.transcript);
        assert(self.recent_root@ =~= b.subrange(40, 72));
        assert(other.recent_root@ =~= b.subrange(40, 72));
        lemma_hash_ext(self.recent_root, other.recent_root);
        assert(self.commitment@ =~= b.subrange(72, 104));
        assert(other.commitment@ =~= b.subrange(72, 104));
        lemma_array_ext(self.commitment, other.commitment);
    }

    /// The fields with their packed integers read as numbers.
    pub open spec fn parsed(self) -> ParsedExternalRelayOp {
        ParsedExternalRelayOp { amount: spec_u64_from_le_bytes(self.amount@), transcript: self.transcript, recent_root: self.recent_root, commitment: self.commitment }
    }

    /// Whether these fields pack the values of `p`.
    pub open spec fn packs(self, p: ParsedExternalRelayOp) -> bool {
        &&& self.amount@ == enc_u64(p.amount)
        &&& self.transcript == p.transcript
        &&& self.recent_root == p.recent_root
        &&& self.commitment == p.commitment
    }

    /// Reads the packed integers.
    pub fn to_struct(&self) -> (r: Result<ParsedExternalRelayOp, std::io::Error>)
        ensures
            r == Ok::<ParsedExternalRelayOp, std::io::Error>(self.parsed()),
    {
        proof {
            lemma_le_bytes();
        }
        Ok(ParsedExternalRelayOp { amount: u64_from_array(self.amount), transcript: self.transcript, recent_root: self.recent_root, commitment: self.commitment })
    }

    /// Packs the integers of `parsed` into bytes.
    pub fn from_struct(parsed: ParsedExternalRelayOp) -> (r: Self)
        ensures
            r.packs(parsed),
    {
        ExternalRelayOp { amount: u64_to_array(parsed.amount), transcript: parsed.transcript, recent_root: parsed.recent_root, commitment: parsed.commitment }
    }

    /// Packing and reading are inverse: these fields pack `p` exactly
    /// when reading them gives `p`.
    pub proof fn lemma_struct_roundtrip(self, p: ParsedExternalRelayOp)
        ensures
            self.packs(p) <==> self.parsed() == p,
    {
        lemma_le_bytes();
        lemma_enc_injective();
        if self.parsed() == p {
            assert(enc_u64(spec_u64_from_le_bytes(self.amount@)) == self.amount@);
        }
    }
}

/// `ExternalRelayOp` with its packed integers as numbers.
#[derive(Clone, Copy, Debug, PartialEq, Eq)]
pub struct ParsedExternalRelayOp {
    pub amount: u64,
    pub transcript: hash::Hash,
    pub recent_root: hash::Hash,
    pub commitment: Pubkey,
}

/// Transfer to the relay against a commitment.
#[derive(Clone, Copy, Debug, PartialEq, Eq)]
pub struct ConditionalTransferOp {
    pub signature: [u8; 64],
    pub amount: [u8; 8],
}

impl ConditionalTransferOp {
    /// The fields' bytes, one after another.
    pub open spec fn spec_bytes(self) -> Seq<u8> {
        self.signature@ + self.amount@
    }

    /// Where each field lies in the encoding: signature in bytes 0..64, amount in bytes
    /// 64..72.
    pub proof fn lemma_field_offsets(self)
        ensures
            self.spec_bytes().len() == 72,
            self.spec_bytes().subrange(0, 64) == self.signature@,
            self.spec_bytes().subrange(64, 72) == self.amount@,
            spec_u64_from_le_bytes(self.spec_bytes().subrange(64, 72)) == self.parsed().amount,
    {
        crate::codec::lemma_le_bytes();
        vstd::bytes::lemma_auto_spec_u64_to_from_le_bytes();
        assert(self.spec_bytes().subrange(0, 64) =~= self.signature@);
        assert(self.spec_bytes().subrange(64, 72) =~= self.amount@);
    }

    /// The Opcode that leads the encoding.
    pub fn discriminator() -> (r: u8)
        ensures
            r == Opcode::ConditionalTransferOp.code(),
    {
        Opcode::ConditionalTransferOp.to_u8()
    }

    /// Bytes of the fields.
    pub fn size() -> (r: usize)
        ensures
            r == 72,
    {
        72
    }

    /// The discriminator, then the fields' bytes.
    pub fn to_bytes(&self) -> (r: Vec<u8>)
        ensures
            r@ == seq![Opcode::ConditionalTransferOp.code()] + self.spec_bytes(),
    {
        let mut w: Vec<u8> = Vec::new();
        w.push(Self::discriminator());
        write_bytes(&mut w, self.signature.as_slice());
        write_bytes(&mut w, self.amount.as_slice());
        assert(w@ =~= seq![Opcode::ConditionalTransferOp.code()] + self.spec_bytes());
        w
    }

    /// Reads the fields from `data`, which must be exactly their size.
    pub fn try_from_bytes(data: &[u8]) -> (r: Result<Self, ProgramError>)
        ensures
            r is Ok <==> data@.len() == 72,
            r matches Ok(x) ==> x.spec_bytes() == data@,
            r is Err ==> r == Err::<Self, ProgramError>(ProgramError::InvalidInstructionData),
    {
        if data.len() != 72 {
            return Err(ProgramError::InvalidInstructionData);
        }
        let signature = copy_array::<64>(data, 0);
        let amount = copy_array::<8>(data, 64);
        let x = ConditionalTransferOp { signature, amount };
        assert(x.spec_bytes() =~= data@);
        Ok(x)
    }

    /// A value is fixed by its bytes, so reading back what `to_bytes`
    /// wrote after its discriminator gives the value.
    pub proof fn lemma_bytes_determine(self, other: Self)
        requires
            self.spec_bytes() == other.spec_bytes(),
        ensures
            self == other,
    {
        let b = self.spec_bytes();
        assert(self.signature@ =~= b.subrange(0, 64));
        assert(other.signature@ =~= b.subrange(0, 64));
        lemma_array_ext(self.signature, other.signature);
        assert(self.amount@ =~= b.subrange(64, 72));
        assert(other.amount@ =~= b.subrange(64, 72));
        lemma_array_ext(self.amount, other.amount);
    }

    /// The fields with their packed integers read as numbers.
    pub open spec fn parsed(self) -> ParsedConditionalTransferOp {
        ParsedConditionalTransferOp { signature: self.signature, amount: spec_u64_from_le_bytes(self.amount@) }
    }

    /// Whether these fields pack the values of `p`.
    pub open spec fn packs(self, p: ParsedConditionalTransferOp) -> bool {
        &&& self.signature == p.signature
        &&& self.amount@ == enc_u64(p.amount)
    }

    /// Reads the packed integers.
    pub fn to_struct(&self) -> (r: Result<ParsedConditionalTransferOp, std::io::Error>)
        ensures
            r == Ok::<ParsedConditionalTransferOp, std::io::Error>(self.parsed()),
    {
        proof {
            lemma_le_bytes();
        }
        Ok(ParsedConditionalTransferOp { signature: self.signature, amount: u64_from_array(self.amount) })
    }

    /// Packs the integers of `parsed` into bytes.
    pub fn from_struct(parsed: ParsedConditionalTransferOp) -> (r: Self)
        ensures
            r.packs(parsed),
    {
        ConditionalTransferOp { signature: parsed.signature, amount: u64_to_array(parsed.amount) }
    }

    /// Packing and reading are inverse: these fields pack `p` exactly
    /// when reading them gives `p`.
    pub proof fn lemma_struct_roundtrip(self, p: ParsedConditionalTransferOp)
        ensures
            self.packs(p) <==> self.parsed() == p,
    {
        lemma_le_bytes();
        lemma_enc_injective();
        if self.parsed() == p {
            assert(enc_u64(spec_u64_from_le_bytes(self.amount@)) == self.amount@);
        }
    }
}

/// `ConditionalTransferOp` with its packed integers as numbers.
#[derive(Clone, Copy, Debug, PartialEq, Eq)]
pub struct ParsedConditionalTransferOp {
    pub signature: [u8; 64],
    pub amount: u64,
}

/// Pay `amount` to each of `count` virtual accounts.
#[derive(Clone, Copy, Debug, PartialEq, Eq)]
pub struct AirdropOp {
    pub signature: [u8; 64],
    pub amount: [u8; 8],
    pub count: u8,
}

impl AirdropOp {
    /// The fields' bytes, one after another.
    pub open spec fn spec_bytes(self) -> Seq<u8> {
        self.signature@ + self.amount@ + seq![self.count]
    }

    /// Where each field lies in the encoding: signature in bytes 0..64, amount in bytes
    /// 64..72, count at byte 72.
    pub proof fn lemma_field_offsets(self)
        ensures
            self.spec_bytes().len() == 73,
            self.spec_bytes().subrange(0, 64) == self.signature@,
            self.spec_bytes().subrange(64, 72) == self.amount@,
            spec_u64_from_le_bytes(self.spec_bytes().subrange(64, 72)) == self.parsed().amount,
            self.spec_bytes()[72] == self.count,
    {
        crate::codec::lemma_le_bytes();
        vstd::bytes::lemma_auto_spec_u64_to_from_le_bytes();
        assert(self.spec_bytes().subrange(0, 64) =~= self.signature@);
        assert(self.spec_bytes().subrange(64, 72) =~= self.amount@);
    }

    /// The Opcode that leads the encoding.
    pub fn discriminator() -> (r: u8)
        ensures
            r == Opcode::AirdropOp.code(),
    {
        Opcode::AirdropOp.to_u8()
    }

    /// Bytes of the fields.
    pub fn size() -> (r: usize)
        ensures
            r == 73,
    {
        73
    }

    /// The discriminator, then the fields' bytes.
    pub fn to_bytes(&self) -> (r: Vec<u8>)
        ensures
            r@ == seq![Opcode::AirdropOp.code()] + self.spec_bytes(),
    {
        let mut w: Vec<u8> = Vec::new();
        w.push(Self::discriminator());
        write_bytes(&mut w, self.signature.as_slice());
        write_bytes(&mut w, self.amount.as_slice());
        w.push(self.count);
        assert(w@ =~= seq![Opcode::AirdropOp.code()] + self.spec_bytes());
        w
    }

    /// Reads the fields from `data`, which must be exactly their size.
    pub fn try_from_bytes(data: &[u8]) -> (r: Result<Self, ProgramError>)
        ensures
            r is Ok <==> data@.len() == 73,
            r matches Ok(x) ==> x.spec_bytes() == data@,
            r is Err ==> r == Err::<Self, ProgramError>(ProgramError::InvalidInstructionData),
    {
        if data.len() != 73 {
            return Err(ProgramError::InvalidInstructionData);
        }
        let signature = copy_array::<64>(data, 0);
        let amount = copy_array::<8>(data, 64);
        let count = data[72];
        let x = AirdropOp { signature, amount, count };
        assert(x.spec_bytes() =~= data@);
        Ok(x)
    }

    /// A value is fixed by its bytes, so reading back what `to_bytes`
    /// wrote after its discriminator gives the value.
    pub proof fn lemma_bytes_determine(self, other: Self)
        requires
            self.spec_bytes() == other.spec_bytes(),
        ensures
            self == other,
    {
        let b = self.spec_bytes();
        assert(self.signature@ =~= b.subrange(0, 64));
        assert(other.signature@ =~= b.subrange(0, 64));
        lemma_array_ext(self.signature, other.signature);
        assert(self.amount@ =~= b.subrange(64, 72));
        assert(other.amount@ =~= b.subrange(64, 72));
        lemma_array_ext(self.amount, other.amount);
        assert(self.count == b[72] && other.count == b[72]);
    }

    /// The fields with their packed integers read as numbers.
    pub open spec fn parsed(self) -> ParsedAirdropOp {
        ParsedAirdropOp { signature: self.signature, amount: spec_u64_from_le_bytes(self.amount@), count: self.count }
    }

    /// Whether these fields pack the values of `p`.
    pub open spec fn packs(self, p: ParsedAirdropOp) -> bool {
        &&& self.signature == p.signature
        &&& self.amount@ == enc_u64(p.amount)
        &&& self.count == p.count
    }

    /// Reads the packed integers.
    pub fn to_struct(&self) -> (r: Result<ParsedAirdropOp, std::io::Error>)
        ensures
            r == Ok::<ParsedAirdropOp, std::io::Error>(self.parsed()),
    {
        proof {
            lemma_le_bytes();
        }
        Ok(ParsedAirdropOp { signature: self.signature, amount: u64_from_array(self.amount), count: self.count })
    }

    /// Packs the integers of `parsed` into bytes.
    pub fn from_struct(parsed: ParsedAirdropOp) -> (r: Self)
        ensures
            r.packs(parsed),
    {
        AirdropOp { signature: parsed.signature, amount: u64_to_array(parsed.amount), count: parsed.count }
    }

    /// Packing and reading are inverse: these fields pack `p` exactly
    /// when reading them gives `p`.
    pub proof fn lemma_struct_roundtrip(self, p: ParsedAirdropOp)
        ensures
            self.packs(p) <==> self.parsed() == p,
    {
        lemma_le_bytes();
        lemma_enc_injective();
        if self.parsed() == p {
            assert(enc_u64(spec_u64_from_le_bytes(self.amount@)) == self.amount@);
        }
    }
}

/// `AirdropOp` with its packed integers as numbers.
#[derive(Clone, Copy, Debug, PartialEq, Eq)]
pub struct ParsedAirdropOp {
    pub signature: [u8; 64],
    pub amount: u64,
    pub count: u8,
}

} // verus!
