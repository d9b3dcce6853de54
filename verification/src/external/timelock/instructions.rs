//! Instruction data of the timelock program.
use vstd::prelude::*;
use crate::bytes::bytes_eq;
use crate::codec::{enc_u64, lemma_enc_injective, lemma_le_bytes, read_discriminator, read_u64, read_u8, write_array8, write_u64, write_u8, CodecError};

use crate::error::ProgramError;
use crate::external::checks::{
    check_keys, check_signers, check_writable, first_key_mismatch, first_not_signer, first_not_writable, lemma_all_signed,
    lemma_all_writable, lemma_keys_all_match, AccountView,
};
use crate::sdk::{meta, meta_list, AccountMeta, Instruction};
use crate::types::Pubkey;
use super::ID;

verus! {

pub const INITIALIZE_IX_DISCM: [u8; 8] = [175, 175, 109, 31, 13, 152, 155, 237];

#[derive(Clone, Debug, PartialEq, Eq)]
pub struct InitializeIxArgs {
    pub num_days_locked: u8,
}

impl InitializeIxArgs {
    /// Wire encoding of the arguments.
    pub open spec fn spec_bytes(self) -> Seq<u8> {
        seq![self.num_days_locked]
    }

    /// Whether `buf` holds the arguments at `pos`.
    pub open spec fn fits(buf: Seq<u8>, pos: int) -> bool {
        pos + 1 <= buf.len()
    }

    /// The error that reading the arguments at `pos` gives where they do not fit.
    pub open spec fn read_error(buf: Seq<u8>, pos: int) -> CodecError {
        CodecError::UnexpectedEnd
    }

    /// What writing the arguments leaves behind when it fails: nothing, as
    /// it never fails.
    pub open spec fn partial_bytes(self) -> Seq<u8> {
        Seq::empty()
    }

    /// Every value of this type has an encoding.
    pub open spec fn serializable(self) -> bool {
        true
    }

    /// The encoding fits wherever it stands.
    pub proof fn lemma_fits(self, head: Seq<u8>, tail: Seq<u8>)
        requires
            self.serializable(),
        ensures
            Self::fits(head + self.spec_bytes() + tail, head.len() as int),
    {
        lemma_le_bytes();
    }

    /// Reads the arguments at `pos`; on success also returns the position
    /// just past them.
    pub fn read(buf: &[u8], pos: usize) -> (r: Result<(Self, usize), CodecError>)
        requires
            pos <= buf@.len(),
        ensures
            Self::fits(buf@, pos as int) <==> r is Ok,
            r matches Ok((x, e)) ==> pos <= e <= buf@.len() && x.serializable()
                && x.spec_bytes() == buf@.subrange(pos as int, e as int),
            !Self::fits(buf@, pos as int) ==> r == Err::<(Self, usize), CodecError>(Self::read_error(buf@, pos as int)),
    {
        if buf.len() - pos < 1 {
            return Err(CodecError::UnexpectedEnd);
        }
        let num_days_locked = read_u8(buf, pos + 0)?;
        let x = InitializeIxArgs { num_days_locked };
        assert(buf@.subrange(pos as int, pos + 1) =~= buf@.subrange(pos + 0, pos + 1));
        Ok((x, pos + 1))
    }

    /// Appends the encoding of the arguments to `w`.
    pub fn write(&self, w: &mut Vec<u8>) -> (r: Result<(), CodecError>)
        ensures
            r is Ok,
            final(w)@ == old(w)@ + self.spec_bytes(),
    {
        write_u8(w, self.num_days_locked);
        assert(final(w)@ =~= old(w)@ + self.spec_bytes());
        Ok(())
    }

    /// Two arguments whose encodings both open `buf` are the same.
    pub proof fn lemma_unique(x: Self, y: Self, buf: Seq<u8>)
        requires
            x.serializable(),
            y.serializable(),
            x.spec_bytes().is_prefix_of(buf),
            y.spec_bytes().is_prefix_of(buf),
        ensures
            x == y,
    {
        broadcast use vstd::array::axiom_array_ext_equal;
        lemma_le_bytes();
        lemma_enc_injective();
        let sx = x.spec_bytes();
        let sy = y.spec_bytes();
        assert(sx =~= buf.take(1));
        assert(sy =~= buf.take(1));
        assert(sx[0] == x.num_days_locked && sy[0] == y.num_days_locked);
    }
}

#[derive(Clone, Debug, PartialEq, Eq)]
pub struct InitializeIxData(pub InitializeIxArgs);

impl InitializeIxData {
    /// Wire encoding: the discriminator, then the arguments.
    pub open spec fn spec_bytes(self) -> Seq<u8> {
        INITIALIZE_IX_DISCM@ + self.0.spec_bytes()
    }

    /// The encoding is the instruction's eight discriminator bytes
    /// [175, 175, 109, 31, 13, 152, 155, 237], then its arguments.
    pub proof fn lemma_field_offsets(self)
        ensures
            self.spec_bytes().subrange(0, 8) == seq![175u8, 175, 109, 31, 13, 152, 155, 237],
            self.spec_bytes().subrange(8, self.spec_bytes().len() as int) == self.0.spec_bytes(),
    {
        assert(INITIALIZE_IX_DISCM@ =~= seq![175u8, 175, 109, 31, 13, 152, 155, 237]);
        assert(self.spec_bytes().subrange(0, 8) =~= INITIALIZE_IX_DISCM@);
        assert(self.spec_bytes().subrange(8, self.spec_bytes().len() as int) =~= self.0.spec_bytes());
    }

    pub fn deserialize(buf: &[u8]) -> (r: Result<Self, CodecError>)
        ensures
            buf@.len() < 8 ==> r == Err::<Self, CodecError>(CodecError::UnexpectedEnd),
            buf@.len() >= 8 && buf@.take(8) != INITIALIZE_IX_DISCM@ ==> r == Err::<Self, CodecError>(
                CodecError::UnknownDiscriminator,
            ),
            buf@.len() >= 8 && buf@.take(8) == INITIALIZE_IX_DISCM@ ==> {
                &&& InitializeIxArgs::fits(buf@, 8) <==> r is Ok
                &&& r matches Ok(d) ==> d.0.serializable() && d.spec_bytes().is_prefix_of(buf@)
                &&& !InitializeIxArgs::fits(buf@, 8) ==> r == Err::<Self, CodecError>(InitializeIxArgs::read_error(buf@, 8))
            },
    {
        read_discriminator(buf, &INITIALIZE_IX_DISCM)?;
        let (args, end) = InitializeIxArgs::read(buf, 8)?;
        proof {
            assert(buf@.take(end as int) =~= buf@.take(8) + buf@.subrange(8, end as int));
        }
        Ok(InitializeIxData(args))
    }

    /// Appends the encoding to `writer`.
    pub fn serialize(&self, writer: &mut Vec<u8>) -> (r: Result<(), CodecError>)
        ensures
            InitializeIxArgs::serializable(self.0) ==> r is Ok && final(writer)@ == old(writer)@ + self.spec_bytes(),
            !InitializeIxArgs::serializable(self.0) ==> r == Err::<(), CodecError>(CodecError::InvalidData)
                && final(writer)@ == old(writer)@ + INITIALIZE_IX_DISCM@ + self.0.partial_bytes(),
    {
        write_array8(writer, &INITIALIZE_IX_DISCM);
        let r = self.0.write(writer);
        assert(r is Ok ==> final(writer)@ =~= old(writer)@ + self.spec_bytes());
        assert(r is Err ==> final(writer)@ =~= old(writer)@ + INITIALIZE_IX_DISCM@ + self.0.partial_bytes());
        r
    }

    /// The encoding as a fresh vector.
    pub fn try_to_vec(&self) -> (r: Result<Vec<u8>, CodecError>)
        ensures
            InitializeIxArgs::serializable(self.0) ==> (r matches Ok(v) && v@ == self.spec_bytes()),
            !InitializeIxArgs::serializable(self.0) ==> r == Err::<Vec<u8>, CodecError>(CodecError::InvalidData),
    {
        let mut data: Vec<u8> = Vec::new();
        self.serialize(&mut data)?;
        Ok(data)
    }

    /// What `try_to_vec` writes, `deserialize` reads back, whatever follows it.
    pub proof fn lemma_roundtrip(self, tail: Seq<u8>)
        requires
            self.0.serializable(),
        ensures
            (self.spec_bytes() + tail).len() >= 8,
            (self.spec_bytes() + tail).take(8) == INITIALIZE_IX_DISCM@,
            InitializeIxArgs::fits(self.spec_bytes() + tail, 8),
            forall|x: Self| x.0.serializable() && #[trigger] x.spec_bytes().is_prefix_of(self.spec_bytes() + tail) ==> x == self,
    {
        let buf = self.spec_bytes() + tail;
        assert(buf.take(8) =~= INITIALIZE_IX_DISCM@);
        self.0.lemma_fits(INITIALIZE_IX_DISCM@, tail);
        assert(buf =~= INITIALIZE_IX_DISCM@ + self.0.spec_bytes() + tail);
        assert forall|x: Self| x.0.serializable() && #[trigger] x.spec_bytes().is_prefix_of(buf) implies x == self by {
            let rest = buf.subrange(8, buf.len() as int);
            assert(x.0.spec_bytes() =~= x.spec_bytes().subrange(8, x.spec_bytes().len() as int));
            assert(x.0.spec_bytes().is_prefix_of(rest));
            assert(self.0.spec_bytes().is_prefix_of(rest));
            InitializeIxArgs::lemma_unique(x.0, self.0, rest);
        }
    }
}

pub const ACTIVATE_IX_DISCM: [u8; 8] = [194, 203, 35, 100, 151, 55, 170, 82];

#[derive(Clone, Debug, PartialEq, Eq)]
pub struct ActivateIxArgs {
    pub timelock_bump: u8,
}

impl ActivateIxArgs {
    /// Wire encoding of the arguments.
    pub open spec fn spec_bytes(self) -> Seq<u8> {
        seq![self.timelock_bump]
    }

    /// Whether `buf` holds the arguments at `pos`.
    pub open spec fn fits(buf: Seq<u8>, pos: int) -> bool {
        pos + 1 <= buf.len()
    }

    /// The error that reading the arguments at `pos` gives where they do not fit.
    pub open spec fn read_error(buf: Seq<u8>, pos: int) -> CodecError {
        CodecError::UnexpectedEnd
    }

    /// What writing the arguments leaves behind when it fails: nothing, as
    /// it never fails.
    pub open spec fn partial_bytes(self) -> Seq<u8> {
        Seq::empty()
    }

    /// Every value of this type has an encoding.
    pub open spec fn serializable(self) -> bool {
        true
    }

    /// The encoding fits wherever it stands.
    pub proof fn lemma_fits(self, head: Seq<u8>, tail: Seq<u8>)
        requires
            self.serializable(),
        ensures
            Self::fits(head + self.spec_bytes() + tail, head.len() as int),
    {
        lemma_le_bytes();
    }

    /// Reads the arguments at `pos`; on success also returns the position
    /// just past them.
    pub fn read(buf: &[u8], pos: usize) -> (r: Result<(Self, usize), CodecError>)
        requires
            pos <= buf@.len(),
        ensures
            Self::fits(buf@, pos as int) <==> r is Ok,
            r matches Ok((x, e)) ==> pos <= e <= buf@.len() && x.serializable()
                && x.spec_bytes() == buf@.subrange(pos as int, e as int),
            !Self::fits(buf@, pos as int) ==> r == Err::<(Self, usize), CodecError>(Self::read_error(buf@, pos as int)),
    {
        if buf.len() - pos < 1 {
            return Err(CodecError::UnexpectedEnd);
        }
        let timelock_bump = read_u8(buf, pos + 0)?;
        let x = ActivateIxArgs { timelock_bump };
        assert(buf@.subrange(pos as int, pos + 1) =~= buf@.subrange(pos + 0, pos + 1));
        Ok((x, pos + 1))
    }

    /// Appends the encoding of the arguments to `w`.
    pub fn write(&self, w: &mut Vec<u8>) -> (r: Result<(), CodecError>)
        ensures
            r is Ok,
            final(w)@ == old(w)@ + self.spec_bytes(),
    {
        write_u8(w, self.timelock_bump);
        assert(final(w)@ =~= old(w)@ + self.spec_bytes());
        Ok(())
    }

    /// Two arguments whose encodings both open `buf` are the same.
    pub proof fn lemma_unique(x: Self, y: Self, buf: Seq<u8>)
        requires
            x.serializable(),
            y.serializable(),
            x.spec_bytes().is_prefix_of(buf),
            y.spec_bytes().is_prefix_of(buf),
        ensures
            x == y,
    {
        broadcast use vstd::array::axiom_array_ext_equal;
        lemma_le_bytes();
        lemma_enc_injective();
        let sx = x.spec_bytes();
        let sy = y.spec_bytes();
        assert(sx =~= buf.take(1));
        assert(sy =~= buf.take(1));
        assert(sx[0] == x.timelock_bump && sy[0] == y.timelock_bump);
    }
}

#[derive(Clone, Debug, PartialEq, Eq)]
pub struct ActivateIxData(pub ActivateIxArgs);

impl ActivateIxData {
    /// Wire encoding: the discriminator, then the arguments.
    pub open spec fn spec_bytes(self) -> Seq<u8> {
        ACTIVATE_IX_DISCM@ + self.0.spec_bytes()
    }

    /// The encoding is the instruction's eight discriminator bytes
    /// [194, 203, 35, 100, 151, 55, 170, 82], then its arguments.
    pub proof fn lemma_field_offsets(self)
        ensures
            self.spec_bytes().subrange(0, 8) == seq![194u8, 203, 35, 100, 151, 55, 170, 82],
            self.spec_bytes().subrange(8, self.spec_bytes().len() as int) == self.0.spec_bytes(),
    {
        assert(ACTIVATE_IX_DISCM@ =~= seq![194u8, 203, 35, 100, 151, 55, 170, 82]);
        assert(self.spec_bytes().subrange(0, 8) =~= ACTIVATE_IX_DISCM@);
        assert(self.spec_bytes().subrange(8, self.spec_bytes().len() as int) =~= self.0.spec_bytes());
    }

    pub fn deserialize(buf: &[u8]) -> (r: Result<Self, CodecError>)
        ensures
            buf@.len() < 8 ==> r == Err::<Self, CodecError>(CodecError::UnexpectedEnd),
            buf@.len() >= 8 && buf@.take(8) != ACTIVATE_IX_DISCM@ ==> r == Err::<Self, CodecError>(
                CodecError::UnknownDiscriminator,
            ),
            buf@.len() >= 8 && buf@.take(8) == ACTIVATE_IX_DISCM@ ==> {
                &&& ActivateIxArgs::fits(buf@, 8) <==> r is Ok
                &&& r matches Ok(d) ==> d.0.serializable() && d.spec_bytes().is_prefix_of(buf@)
                &&& !ActivateIxArgs::fits(buf@, 8) ==> r == Err::<Self, CodecError>(ActivateIxArgs::read_error(buf@, 8))
            },
    {
        read_discriminator(buf, &ACTIVATE_IX_DISCM)?;
        let (args, end) = ActivateIxArgs::read(buf, 8)?;
        proof {
            assert(buf@.take(end as int) =~= buf@.take(8) + buf@.subrange(8, end as int));
        }
        Ok(ActivateIxData(args))
    }

    /// Appends the encoding to `writer`.
    pub fn serialize(&self, writer: &mut Vec<u8>) -> (r: Result<(), CodecError>)
        ensures
            ActivateIxArgs::serializable(self.0) ==> r is Ok && final(writer)@ == old(writer)@ + self.spec_bytes(),
            !ActivateIxArgs::serializable(self.0) ==> r == Err::<(), CodecError>(CodecError::InvalidData)
                && final(writer)@ == old(writer)@ + ACTIVATE_IX_DISCM@ + self.0.partial_bytes(),
    {
        write_array8(writer, &ACTIVATE_IX_DISCM);
        let r = self.0.write(writer);
        assert(r is Ok ==> final(writer)@ =~= old(writer)@ + self.spec_bytes());
        assert(r is Err ==> final(writer)@ =~= old(writer)@ + ACTIVATE_IX_DISCM@ + self.0.partial_bytes());
        r
    }

    /// The encoding as a fresh vector.
    pub fn try_to_vec(&self) -> (r: Result<Vec<u8>, CodecError>)
        ensures
            ActivateIxArgs::serializable(self.0) ==> (r matches Ok(v) && v@ == self.spec_bytes()),
            !ActivateIxArgs::serializable(self.0) ==> r == Err::<Vec<u8>, CodecError>(CodecError::InvalidData),
    {
        let mut data: Vec<u8> = Vec::new();
        self.serialize(&mut data)?;
        Ok(data)
    }

    /// What `try_to_vec` writes, `deserialize` reads back, whatever follows it.
    pub proof fn lemma_roundtrip(self, tail: Seq<u8>)
        requires
            self.0.serializable(),
        ensures
            (self.spec_bytes() + tail).len() >= 8,
            (self.spec_bytes() + tail).take(8) == ACTIVATE_IX_DISCM@,
            ActivateIxArgs::fits(self.spec_bytes() + tail, 8),
            forall|x: Self| x.0.serializable() && #[trigger] x.spec_bytes().is_prefix_of(self.spec_bytes() + tail) ==> x == self,
    {
        let buf = self.spec_bytes() + tail;
        assert(buf.take(8) =~= ACTIVATE_IX_DISCM@);
        self.0.lemma_fits(ACTIVATE_IX_DISCM@, tail);
        assert(buf =~= ACTIVATE_IX_DISCM@ + self.0.spec_bytes() + tail);
        assert forall|x: Self| x.0.serializable() && #[trigger] x.spec_bytes().is_prefix_of(buf) implies x == self by {
            let rest = buf.subrange(8, buf.len() as int);
            assert(x.0.spec_bytes() =~= x.spec_bytes().subrange(8, x.spec_bytes().len() as int));
            assert(x.0.spec_bytes().is_prefix_of(rest));
            assert(self.0.spec_bytes().is_prefix_of(rest));
            ActivateIxArgs::lemma_unique(x.0, self.0, rest);
        }
    }
}

pub const DEACTIVATE_IX_DISCM: [u8; 8] = [44, 112, 33, 172, 113, 28, 142, 13];

#[derive(Clone, Debug, PartialEq, Eq)]
pub struct DeactivateIxArgs {
    pub timelock_bump: u8,
}

impl DeactivateIxArgs {
    /// Wire encoding of the arguments.
    pub open spec fn spec_bytes(self) -> Seq<u8> {
        seq![self.timelock_bump]
    }

    /// Whether `buf` holds the arguments at `pos`.
    pub open spec fn fits(buf: Seq<u8>, pos: int) -> bool {
        pos + 1 <= buf.len()
    }

    /// The error that reading the arguments at `pos` gives where they do not fit.
    pub open spec fn read_error(buf: Seq<u8>, pos: int) -> CodecError {
        CodecError::UnexpectedEnd
    }

    /// What writing the arguments leaves behind when it fails: nothing, as
    /// it never fails.
    pub open spec fn partial_bytes(self) -> Seq<u8> {
        Seq::empty()
    }

    /// Every value of this type has an encoding.
    pub open spec fn serializable(self) -> bool {
        true
    }

    /// The encoding fits wherever it stands.
    pub proof fn lemma_fits(self, head: Seq<u8>, tail: Seq<u8>)
        requires
            self.serializable(),
        ensures
            Self::fits(head + self.spec_bytes() + tail, head.len() as int),
    {
        lemma_le_bytes();
    }

    /// Reads the arguments at `pos`; on success also returns the position
    /// just past them.
    pub fn read(buf: &[u8], pos: usize) -> (r: Result<(Self, usize), CodecError>)
        requires
            pos <= buf@.len(),
        ensures
            Self::fits(buf@, pos as int) <==> r is Ok,
            r matches Ok((x, e)) ==> pos <= e <= buf@.len() && x.serializable()
                && x.spec_bytes() == buf@.subrange(pos as int, e as int),
            !Self::fits(buf@, pos as int) ==> r == Err::<(Self, usize), CodecError>(Self::read_error(buf@, pos as int)),
    {
        if buf.len() - pos < 1 {
            return Err(CodecError::UnexpectedEnd);
        }
        let timelock_bump = read_u8(buf, pos + 0)?;
        let x = DeactivateIxArgs { timelock_bump };
        assert(buf@.subrange(pos as int, pos + 1) =~= buf@.subrange(pos + 0, pos + 1));
        Ok((x, pos + 1))
    }

    /// Appends the encoding of the arguments to `w`.
    pub fn write(&self, w: &mut Vec<u8>) -> (r: Result<(), CodecError>)
        ensures
            r is Ok,
            final(w)@ == old(w)@ + self.spec_bytes(),
    {
        write_u8(w, self.timelock_bump);
        assert(final(w)@ =~= old(w)@ + self.spec_bytes());
        Ok(())
    }

    /// Two arguments whose encodings both open `buf` are the same.
    pub proof fn lemma_unique(x: Self, y: Self, buf: Seq<u8>)
        requires
            x.serializable(),
            y.serializable(),
            x.spec_bytes().is_prefix_of(buf),
            y.spec_bytes().is_prefix_of(buf),
        ensures
            x == y,
    {
        broadcast use vstd::array::axiom_array_ext_equal;
        lemma_le_bytes();
        lemma_enc_injective();
        let sx = x.spec_bytes();
        let sy = y.spec_bytes();
        assert(sx =~= buf.take(1));
        assert(sy =~= buf.take(1));
        assert(sx[0] == x.timelock_bump && sy[0] == y.timelock_bump);
    }
}

#[derive(Clone, Debug, PartialEq, Eq)]
pub struct DeactivateIxData(pub DeactivateIxArgs);

impl DeactivateIxData {
    /// Wire encoding: the discriminator, then the arguments.
    pub open spec fn spec_bytes(self) -> Seq<u8> {
        DEACTIVATE_IX_DISCM@ + self.0.spec_bytes()
    }

    /// The encoding is the instruction's eight discriminator bytes
    /// [44, 112, 33, 172, 113, 28, 142, 13], then its arguments.
    pub proof fn lemma_field_offsets(self)
        ensures
            self.spec_bytes().subrange(0, 8) == seq![44u8, 112, 33, 172, 113, 28, 142, 13],
            self.spec_bytes().subrange(8, self.spec_bytes().len() as int) == self.0.spec_bytes(),
    {
        assert(DEACTIVATE_IX_DISCM@ =~= seq![44u8, 112, 33, 172, 113, 28, 142, 13]);
        assert(self.spec_bytes().subrange(0, 8) =~= DEACTIVATE_IX_DISCM@);
        assert(self.spec_bytes().subrange(8, self.spec_bytes().len() as int) =~= self.0.spec_bytes());
    }

    pub fn deserialize(buf: &[u8]) -> (r: Result<Self, CodecError>)
        ensures
            buf@.len() < 8 ==> r == Err::<Self, CodecError>(CodecError::UnexpectedEnd),
            buf@.len() >= 8 && buf@.take(8) != DEACTIVATE_IX_DISCM@ ==> r == Err::<Self, CodecError>(
                CodecError::UnknownDiscriminator,
            ),
            buf@.len() >= 8 && buf@.take(8) == DEACTIVATE_IX_DISCM@ ==> {
                &&& DeactivateIxArgs::fits(buf@, 8) <==> r is Ok
                &&& r matches Ok(d) ==> d.0.serializable() && d.spec_bytes().is_prefix_of(buf@)
                &&& !DeactivateIxArgs::fits(buf@, 8) ==> r == Err::<Self, CodecError>(DeactivateIxArgs::read_error(buf@, 8))
            },
    {
        read_discriminator(buf, &DEACTIVATE_IX_DISCM)?;
        let (args, end) = DeactivateIxArgs::read(buf, 8)?;
        proof {
            assert(buf@.take(end as int) =~= buf@.take(8) + buf@.subrange(8, end as int));
        }
        Ok(DeactivateIxData(args))
    }

    /// Appends the encoding to `writer`.
    pub fn serialize(&self, writer: &mut Vec<u8>) -> (r: Result<(), CodecError>)
        ensures
            DeactivateIxArgs::serializable(self.0) ==> r is Ok && final(writer)@ == old(writer)@ + self.spec_bytes(),
            !DeactivateIxArgs::serializable(self.0) ==> r == Err::<(), CodecError>(CodecError::InvalidData)
                && final(writer)@ == old(writer)@ + DEACTIVATE_IX_DISCM@ + self.0.partial_bytes(),
    {
        write_array8(writer, &DEACTIVATE_IX_DISCM);
        let r = self.0.write(writer);
        assert(r is Ok ==> final(writer)@ =~= old(writer)@ + self.spec_bytes());
        assert(r is Err ==> final(writer)@ =~= old(writer)@ + DEACTIVATE_IX_DISCM@ + self.0.partial_bytes());
        r
    }

    /// The encoding as a fresh vector.
    pub fn try_to_vec(&self) -> (r: Result<Vec<u8>, CodecError>)
        ensures
            DeactivateIxArgs::serializable(self.0) ==> (r matches Ok(v) && v@ == self.spec_bytes()),
            !DeactivateIxArgs::serializable(self.0) ==> r == Err::<Vec<u8>, CodecError>(CodecError::InvalidData),
    {
        let mut data: Vec<u8> = Vec::new();
        self.serialize(&mut data)?;
        Ok(data)
    }

    /// What `try_to_vec` writes, `deserialize` reads back, whatever follows it.
    pub proof fn lemma_roundtrip(self, tail: Seq<u8>)
        requires
            self.0.serializable(),
        ensures
            (self.spec_bytes() + tail).len() >= 8,
            (self.spec_bytes() + tail).take(8) == DEACTIVATE_IX_DISCM@,
            DeactivateIxArgs::fits(self.spec_bytes() + tail, 8),
            forall|x: Self| x.0.serializable() && #[trigger] x.spec_bytes().is_prefix_of(self.spec_bytes() + tail) ==> x == self,
    {
        let buf = self.spec_bytes() + tail;
        assert(buf.take(8) =~= DEACTIVATE_IX_DISCM@);
        self.0.lemma_fits(DEACTIVATE_IX_DISCM@, tail);
        assert(buf =~= DEACTIVATE_IX_DISCM@ + self.0.spec_bytes() + tail);
        assert forall|x: Self| x.0.serializable() && #[trigger] x.spec_bytes().is_prefix_of(buf) implies x == self by {
            let rest = buf.subrange(8, buf.len() as int);
            assert(x.0.spec_bytes() =~= x.spec_bytes().subrange(8, x.spec_bytes().len() as int));
            assert(x.0.spec_bytes().is_prefix_of(rest));
            assert(self.0.spec_bytes().is_prefix_of(rest));
            DeactivateIxArgs::lemma_unique(x.0, self.0, rest);
        }
    }
}

pub const REVOKE_LOCK_WITH_TIMEOUT_IX_DISCM: [u8; 8] = [19, 131, 47, 77, 60, 188, 120, 124];

#[derive(Clone, Debug, PartialEq, Eq)]
pub struct RevokeLockWithTimeoutIxArgs {
    pub timelock_bump: u8,
}

impl RevokeLockWithTimeoutIxArgs {
    /// Wire encoding of the arguments.
    pub open spec fn spec_bytes(self) -> Seq<u8> {
        seq![self.timelock_bump]
    }

    /// Whether `buf` holds the arguments at `pos`.
    pub open spec fn fits(buf: Seq<u8>, pos: int) -> bool {
        pos + 1 <= buf.len()
    }

    /// The error that reading the arguments at `pos` gives where they do not fit.
    pub open spec fn read_error(buf: Seq<u8>, pos: int) -> CodecError {
        CodecError::UnexpectedEnd
    }

    /// What writing the arguments leaves behind when it fails: nothing, as
    /// it never fails.
    pub open spec fn partial_bytes(self) -> Seq<u8> {
        Seq::empty()
    }

    /// Every value of this type has an encoding.
    pub open spec fn serializable(self) -> bool {
        true
    }

    /// The encoding fits wherever it stands.
    pub proof fn lemma_fits(self, head: Seq<u8>, tail: Seq<u8>)
        requires
            self.serializable(),
        ensures
            Self::fits(head + self.spec_bytes() + tail, head.len() as int),
    {
        lemma_le_bytes();
    }

    /// Reads the arguments at `pos`; on success also returns the position
    /// just past them.
    pub fn read(buf: &[u8], pos: usize) -> (r: Result<(Self, usize), CodecError>)
        requires
            pos <= buf@.len(),
        ensures
            Self::fits(buf@, pos as int) <==> r is Ok,
            r matches Ok((x, e)) ==> pos <= e <= buf@.len() && x.serializable()
                && x.spec_bytes() == buf@.subrange(pos as int, e as int),
            !Self::fits(buf@, pos as int) ==> r == Err::<(Self, usize), CodecError>(Self::read_error(buf@, pos as int)),
    {
        if buf.len() - pos < 1 {
            return Err(CodecError::UnexpectedEnd);
        }
        let timelock_bump = read_u8(buf, pos + 0)?;
        let x = RevokeLockWithTimeoutIxArgs { timelock_bump };
        assert(buf@.subrange(pos as int, pos + 1) =~= buf@.subrange(pos + 0, pos + 1));
        Ok((x, pos + 1))
    }

    /// Appends the encoding of the arguments to `w`.
    pub fn write(&self, w: &mut Vec<u8>) -> (r: Result<(), CodecError>)
        ensures
            r is Ok,
            final(w)@ == old(w)@ + self.spec_bytes(),
    {
        write_u8(w, self.timelock_bump);
        assert(final(w)@ =~= old(w)@ + self.spec_bytes());
        Ok(())
    }

    /// Two arguments whose encodings both open `buf` are the same.
    pub proof fn lemma_unique(x: Self, y: Self, buf: Seq<u8>)
        requires
            x.serializable(),
            y.serializable(),
            x.spec_bytes().is_prefix_of(buf),
            y.spec_bytes().is_prefix_of(buf),
        ensures
            x == y,
    {
        broadcast use vstd::array::axiom_array_ext_equal;
        lemma_le_bytes();
        lemma_enc_injective();
        let sx = x.spec_bytes();
        let sy = y.spec_bytes();
        assert(sx =~= buf.take(1));
        assert(sy =~= buf.take(1));
        assert(sx[0] == x.timelock_bump && sy[0] == y.timelock_bump);
    }
}

#[derive(Clone, Debug, PartialEq, Eq)]
pub struct RevokeLockWithTimeoutIxData(pub RevokeLockWithTimeoutIxArgs);

impl RevokeLockWithTimeoutIxData {
    /// Wire encoding: the discriminator, then the arguments.
    pub open spec fn spec_bytes(self) -> Seq<u8> {
        REVOKE_LOCK_WITH_TIMEOUT_IX_DISCM@ + self.0.spec_bytes()
    }

    /// The encoding is the instruction's eight discriminator bytes
    /// [19, 131, 47, 77, 60, 188, 120, 124], then its arguments.
    pub proof fn lemma_field_offsets(self)
        ensures
            self.spec_bytes().subrange(0, 8) == seq![19u8, 131, 47, 77, 60, 188, 120, 124],
            self.spec_bytes().subrange(8, self.spec_bytes().len() as int) == self.0.spec_bytes(),
    {
        assert(REVOKE_LOCK_WITH_TIMEOUT_IX_DISCM@ =~= seq![19u8, 131, 47, 77, 60, 188, 120, 124]);
        assert(self.spec_bytes().subrange(0, 8) =~= REVOKE_LOCK_WITH_TIMEOUT_IX_DISCM@);
        assert(self.spec_bytes().subrange(8, self.spec_bytes().len() as int) =~= self.0.spec_bytes());
    }

    pub fn deserialize(buf: &[u8]) -> (r: Result<Self, CodecError>)
        ensures
            buf@.len() < 8 ==> r == Err::<Self, CodecError>(CodecError::UnexpectedEnd),
            buf@.len() >= 8 && buf@.take(8) != REVOKE_LOCK_WITH_TIMEOUT_IX_DISCM@ ==> r == Err::<Self, CodecError>(
                CodecError::UnknownDiscriminator,
            ),
            buf@.len() >= 8 && buf@.take(8) == REVOKE_LOCK_WITH_TIMEOUT_IX_DISCM@ ==> {
                &&& RevokeLockWithTimeoutIxArgs::fits(buf@, 8) <==> r is Ok
                &&& r matches Ok(d) ==> d.0.serializable() && d.spec_bytes().is_prefix_of(buf@)
                &&& !RevokeLockWithTimeoutIxArgs::fits(buf@, 8) ==> r == Err::<Self, CodecError>(RevokeLockWithTimeoutIxArgs::read_error(buf@, 8))
            },
    {
        read_discriminator(buf, &REVOKE_LOCK_WITH_TIMEOUT_IX_DISCM)?;
        let (args, end) = RevokeLockWithTimeoutIxArgs::read(buf, 8)?;
        proof {
            assert(buf@.take(end as int) =~= buf@.take(8) + buf@.subrange(8, end as int));
        }
        Ok(RevokeLockWithTimeoutIxData(args))
    }

    /// Appends the encoding to `writer`.
    pub fn serialize(&self, writer: &mut Vec<u8>) -> (r: Result<(), CodecError>)
        ensures
            RevokeLockWithTimeoutIxArgs::serializable(self.0) ==> r is Ok && final(writer)@ == old(writer)@ + self.spec_bytes(),
            !RevokeLockWithTimeoutIxArgs::serializable(self.0) ==> r == Err::<(), CodecError>(CodecError::InvalidData)
                && final(writer)@ == old(writer)@ + REVOKE_LOCK_WITH_TIMEOUT_IX_DISCM@ + self.0.partial_bytes(),
    {
        write_array8(writer, &REVOKE_LOCK_WITH_TIMEOUT_IX_DISCM);
        let r = self.0.write(writer);
        assert(r is Ok ==> final(writer)@ =~= old(writer)@ + self.spec_bytes());
        assert(r is Err ==> final(writer)@ =~= old(writer)@ + REVOKE_LOCK_WITH_TIMEOUT_IX_DISCM@ + self.0.partial_bytes());
        r
    }

    /// The encoding as a fresh vector.
    pub fn try_to_vec(&self) -> (r: Result<Vec<u8>, CodecError>)
        ensures
            RevokeLockWithTimeoutIxArgs::serializable(self.0) ==> (r matches Ok(v) && v@ == self.spec_bytes()),
            !RevokeLockWithTimeoutIxArgs::serializable(self.0) ==> r == Err::<Vec<u8>, CodecError>(CodecError::InvalidData),
    {
        let mut data: Vec<u8> = Vec::new();
        self.serialize(&mut data)?;
        Ok(data)
    }

    /// What `try_to_vec` writes, `deserialize` reads back, whatever follows it.
    pub proof fn lemma_roundtrip(self, tail: Seq<u8>)
        requires
            self.0.serializable(),
        ensures
            (self.spec_bytes() + tail).len() >= 8,
            (self.spec_bytes() + tail).take(8) == REVOKE_LOCK_WITH_TIMEOUT_IX_DISCM@,
            RevokeLockWithTimeoutIxArgs::fits(self.spec_bytes() + tail, 8),
            forall|x: Self| x.0.serializable() && #[trigger] x.spec_bytes().is_prefix_of(self.spec_bytes() + tail) ==> x == self,
    {
        let buf = self.spec_bytes() + tail;
        assert(buf.take(8) =~= REVOKE_LOCK_WITH_TIMEOUT_IX_DISCM@);
        self.0.lemma_fits(REVOKE_LOCK_WITH_TIMEOUT_IX_DISCM@, tail);
        assert(buf =~= REVOKE_LOCK_WITH_TIMEOUT_IX_DISCM@ + self.0.spec_bytes() + tail);
        assert forall|x: Self| x.0.serializable() && #[trigger] x.spec_bytes().is_prefix_of(buf) implies x == self by {
            let rest = buf.subrange(8, buf.len() as int);
            assert(x.0.spec_bytes() =~= x.spec_bytes().subrange(8, x.spec_bytes().len() as int));
            assert(x.0.spec_bytes().is_prefix_of(rest));
            assert(self.0.spec_bytes().is_prefix_of(rest));
            RevokeLockWithTimeoutIxArgs::lemma_unique(x.0, self.0, rest);
        }
    }
}

pub const REVOKE_LOCK_WITH_AUTHORITY_IX_DISCM: [u8; 8] = [229, 181, 58, 242, 171, 8, 201, 144];

#[derive(Clone, Debug, PartialEq, Eq)]
pub struct RevokeLockWithAuthorityIxArgs {
    pub timelock_bump: u8,
}

impl RevokeLockWithAuthorityIxArgs {
    /// Wire encoding of the arguments.
    pub open spec fn spec_bytes(self) -> Seq<u8> {
        seq![self.timelock_bump]
    }

    /// Whether `buf` holds the arguments at `pos`.
    pub open spec fn fits(buf: Seq<u8>, pos: int) -> bool {
        pos + 1 <= buf.len()
    }

    /// The error that reading the arguments at `pos` gives where they do not fit.
    pub open spec fn read_error(buf: Seq<u8>, pos: int) -> CodecError {
        CodecError::UnexpectedEnd
    }

    /// What writing the arguments leaves behind when it fails: nothing, as
    /// it never fails.
    pub open spec fn partial_bytes(self) -> Seq<u8> {
        Seq::empty()
    }

    /// Every value of this type has an encoding.
    pub open spec fn serializable(self) -> bool {
        true
    }

    /// The encoding fits wherever it stands.
    pub proof fn lemma_fits(self, head: Seq<u8>, tail: Seq<u8>)
        requires
            self.serializable(),
        ensures
            Self::fits(head + self.spec_bytes() + tail, head.len() as int),
    {
        lemma_le_bytes();
    }

    /// Reads the arguments at `pos`; on success also returns the position
    /// just past them.
    pub fn read(buf: &[u8], pos: usize) -> (r: Result<(Self, usize), CodecError>)
        requires
            pos <= buf@.len(),
        ensures
            Self::fits(buf@, pos as int) <==> r is Ok,
            r matches Ok((x, e)) ==> pos <= e <= buf@.len() && x.serializable()
                && x.spec_bytes() == buf@.subrange(pos as int, e as int),
            !Self::fits(buf@, pos as int) ==> r == Err::<(Self, usize), CodecError>(Self::read_error(buf@, pos as int)),
    {
        if buf.len() - pos < 1 {
            return Err(CodecError::UnexpectedEnd);
        }
        let timelock_bump = read_u8(buf, pos + 0)?;
        let x = RevokeLockWithAuthorityIxArgs { timelock_bump };
        assert(buf@.subrange(pos as int, pos + 1) =~= buf@.subrange(pos + 0, pos + 1));
        Ok((x, pos + 1))
    }

    /// Appends the encoding of the arguments to `w`.
    pub fn write(&self, w: &mut Vec<u8>) -> (r: Result<(), CodecError>)
        ensures
            r is Ok,
            final(w)@ == old(w)@ + self.spec_bytes(),
    {
        write_u8(w, self.timelock_bump);
        assert(final(w)@ =~= old(w)@ + self.spec_bytes());
        Ok(())
    }

    /// Two arguments whose encodings both open `buf` are the same.
    pub proof fn lemma_unique(x: Self, y: Self, buf: Seq<u8>)
        requires
            x.serializable(),
            y.serializable(),
            x.spec_bytes().is_prefix_of(buf),
            y.spec_bytes().is_prefix_of(buf),
        ensures
            x == y,
    {
        broadcast use vstd::array::axiom_array_ext_equal;
        lemma_le_bytes();
        lemma_enc_injective();
        let sx = x.spec_bytes();
        let sy = y.spec_bytes();
        assert(sx =~= buf.take(1));
        assert(sy =~= buf.take(1));
        assert(sx[0] == x.timelock_bump && sy[0] == y.timelock_bump);
    }
}

#[derive(Clone, Debug, PartialEq, Eq)]
pub struct RevokeLockWithAuthorityIxData(pub RevokeLockWithAuthorityIxArgs);

impl RevokeLockWithAuthorityIxData {
    /// Wire encoding: the discriminator, then the arguments.
    pub open spec fn spec_bytes(self) -> Seq<u8> {
        REVOKE_LOCK_WITH_AUTHORITY_IX_DISCM@ + self.0.spec_bytes()
    }

    /// The encoding is the instruction's eight discriminator bytes
    /// [229, 181, 58, 242, 171, 8, 201, 144], then its arguments.
    pub proof fn lemma_field_offsets(self)
        ensures
            self.spec_bytes().subrange(0, 8) == seq![229u8, 181, 58, 242, 171, 8, 201, 144],
            self.spec_bytes().subrange(8, self.spec_bytes().len() as int) == self.0.spec_bytes(),
    {
        assert(REVOKE_LOCK_WITH_AUTHORITY_IX_DISCM@ =~= seq![229u8, 181, 58, 242, 171, 8, 201, 144]);
        assert(self.spec_bytes().subrange(0, 8) =~= REVOKE_LOCK_WITH_AUTHORITY_IX_DISCM@);
        assert(self.spec_bytes().subrange(8, self.spec_bytes().len() as int) =~= self.0.spec_bytes());
    }

    pub fn deserialize(buf: &[u8]) -> (r: Result<Self, CodecError>)
        ensures
            buf@.len() < 8 ==> r == Err::<Self, CodecError>(CodecError::UnexpectedEnd),
            buf@.len() >= 8 && buf@.take(8) != REVOKE_LOCK_WITH_AUTHORITY_IX_DISCM@ ==> r == Err::<Self, CodecError>(
                CodecError::UnknownDiscriminator,
            ),
            buf@.len() >= 8 && buf@.take(8) == REVOKE_LOCK_WITH_AUTHORITY_IX_DISCM@ ==> {
                &&& RevokeLockWithAuthorityIxArgs::fits(buf@, 8) <==> r is Ok
                &&& r matches Ok(d) ==> d.0.serializable() && d.spec_bytes().is_prefix_of(buf@)
                &&& !RevokeLockWithAuthorityIxArgs::fits(buf@, 8) ==> r == Err::<Self, CodecError>(RevokeLockWithAuthorityIxArgs::read_error(buf@, 8))
            },
    {
        read_discriminator(buf, &REVOKE_LOCK_WITH_AUTHORITY_IX_DISCM)?;
        let (args, end) = RevokeLockWithAuthorityIxArgs::read(buf, 8)?;
        proof {
            assert(buf@.take(end as int) =~= buf@.take(8) + buf@.subrange(8, end as int));
        }
        Ok(RevokeLockWithAuthorityIxData(args))
    }

    /// Appends the encoding to `writer`.
    pub fn serialize(&self, writer: &mut Vec<u8>) -> (r: Result<(), CodecError>)
        ensures
            RevokeLockWithAuthorityIxArgs::serializable(self.0) ==> r is Ok && final(writer)@ == old(writer)@ + self.spec_bytes(),
            !RevokeLockWithAuthorityIxArgs::serializable(self.0) ==> r == Err::<(), CodecError>(CodecError::InvalidData)
                && final(writer)@ == old(writer)@ + REVOKE_LOCK_WITH_AUTHORITY_IX_DISCM@ + self.0.partial_bytes(),
    {
        write_array8(writer, &REVOKE_LOCK_WITH_AUTHORITY_IX_DISCM);
        let r = self.0.write(writer);
        assert(r is Ok ==> final(writer)@ =~= old(writer)@ + self.spec_bytes());
        assert(r is Err ==> final(writer)@ =~= old(writer)@ + REVOKE_LOCK_WITH_AUTHORITY_IX_DISCM@ + self.0.partial_bytes());
        r
    }

    /// The encoding as a fresh vector.
    pub fn try_to_vec(&self) -> (r: Result<Vec<u8>, CodecError>)
        ensures
            RevokeLockWithAuthorityIxArgs::serializable(self.0) ==> (r matches Ok(v) && v@ == self.spec_bytes()),
            !RevokeLockWithAuthorityIxArgs::serializable(self.0) ==> r == Err::<Vec<u8>, CodecError>(CodecError::InvalidData),
    {
        let mut data: Vec<u8> = Vec::new();
        self.serialize(&mut data)?;
        Ok(data)
    }

    /// What `try_to_vec` writes, `deserialize` reads back, whatever follows it.
    pub proof fn lemma_roundtrip(self, tail: Seq<u8>)
        requires
            self.0.serializable(),
        ensures
            (self.spec_bytes() + tail).len() >= 8,
            (self.spec_bytes() + tail).take(8) == REVOKE_LOCK_WITH_AUTHORITY_IX_DISCM@,
            RevokeLockWithAuthorityIxArgs::fits(self.spec_bytes() + tail, 8),
            forall|x: Self| x.0.serializable() && #[trigger] x.spec_bytes().is_prefix_of(self.spec_bytes() + tail) ==> x == self,
    {
        let buf = self.spec_bytes() + tail;
        assert(buf.take(8) =~= REVOKE_LOCK_WITH_AUTHORITY_IX_DISCM@);
        self.0.lemma_fits(REVOKE_LOCK_WITH_AUTHORITY_IX_DISCM@, tail);
        assert(buf =~= REVOKE_LOCK_WITH_AUTHORITY_IX_DISCM@ + self.0.spec_bytes() + tail);
        assert forall|x: Self| x.0.serializable() && #[trigger] x.spec_bytes().is_prefix_of(buf) implies x == self by {
            let rest = buf.subrange(8, buf.len() as int);
            assert(x.0.spec_bytes() =~= x.spec_bytes().subrange(8, x.spec_bytes().len() as int));
            assert(x.0.spec_bytes().is_prefix_of(rest));
            assert(self.0.spec_bytes().is_prefix_of(rest));
            RevokeLockWithAuthorityIxArgs::lemma_unique(x.0, self.0, rest);
        }
    }
}

pub const CANCEL_LOCK_TIMEOUT_IX_DISCM: [u8; 8] = [207, 206, 169, 241, 34, 199, 123, 249];

#[derive(Clone, Debug, PartialEq, Eq)]
pub struct CancelLockTimeoutIxArgs {
    pub timelock_bump: u8,
}

impl CancelLockTimeoutIxArgs {
    /// Wire encoding of the arguments.
    pub open spec fn spec_bytes(self) -> Seq<u8> {
        seq![self.timelock_bump]
    }

    /// Whether `buf` holds the arguments at `pos`.
    pub open spec fn fits(buf: Seq<u8>, pos: int) -> bool {
        pos + 1 <= buf.len()
    }

    /// The error that reading the arguments at `pos` gives where they do not fit.
    pub open spec fn read_error(buf: Seq<u8>, pos: int) -> CodecError {
        CodecError::UnexpectedEnd
    }

    /// What writing the arguments leaves behind when it fails: nothing, as
    /// it never fails.
    pub open spec fn partial_bytes(self) -> Seq<u8> {
        Seq::empty()
    }

    /// Every value of this type has an encoding.
    pub open spec fn serializable(self) -> bool {
        true
    }

    /// The encoding fits wherever it stands.
    pub proof fn lemma_fits(self, head: Seq<u8>, tail: Seq<u8>)
        requires
            self.serializable(),
        ensures
            Self::fits(head + self.spec_bytes() + tail, head.len() as int),
    {
        lemma_le_bytes();
    }

    /// Reads the arguments at `pos`; on success also returns the position
    /// just past them.
    pub fn read(buf: &[u8], pos: usize) -> (r: Result<(Self, usize), CodecError>)
        requires
            pos <= buf@.len(),
        ensures
            Self::fits(buf@, pos as int) <==> r is Ok,
            r matches Ok((x, e)) ==> pos <= e <= buf@.len() && x.serializable()
                && x.spec_bytes() == buf@.subrange(pos as int, e as int),
            !Self::fits(buf@, pos as int) ==> r == Err::<(Self, usize), CodecError>(Self::read_error(buf@, pos as int)),
    {
        if buf.len() - pos < 1 {
            return Err(CodecError::UnexpectedEnd);
        }
        let timelock_bump = read_u8(buf, pos + 0)?;
        let x = CancelLockTimeoutIxArgs { timelock_bump };
        assert(buf@.subrange(pos as int, pos + 1) =~= buf@.subrange(pos + 0, pos + 1));
        Ok((x, pos + 1))
    }

    /// Appends the encoding of the arguments to `w`.
    pub fn write(&self, w: &mut Vec<u8>) -> (r: Result<(), CodecError>)
        ensures
            r is Ok,
            final(w)@ == old(w)@ + self.spec_bytes(),
    {
        write_u8(w, self.timelock_bump);
        assert(final(w)@ =~= old(w)@ + self.spec_bytes());
        Ok(())
    }

    /// Two arguments whose encodings both open `buf` are the same.
    pub proof fn lemma_unique(x: Self, y: Self, buf: Seq<u8>)
        requires
            x.serializable(),
            y.serializable(),
            x.spec_bytes().is_prefix_of(buf),
            y.spec_bytes().is_prefix_of(buf),
        ensures
            x == y,
    {
        broadcast use vstd::array::axiom_array_ext_equal;
        lemma_le_bytes();
        lemma_enc_injective();
        let sx = x.spec_bytes();
        let sy = y.spec_bytes();
        assert(sx =~= buf.take(1));
        assert(sy =~= buf.take(1));
        assert(sx[0] == x.timelock_bump && sy[0] == y.timelock_bump);
    }
}

#[derive(Clone, Debug, PartialEq, Eq)]
pub struct CancelLockTimeoutIxData(pub CancelLockTimeoutIxArgs);

impl CancelLockTimeoutIxData {
    /// Wire encoding: the discriminator, then the arguments.
    pub open spec fn spec_bytes(self) -> Seq<u8> {
        CANCEL_LOCK_TIMEOUT_IX_DISCM@ + self.0.spec_bytes()
    }

    /// The encoding is the instruction's eight discriminator bytes
    /// [207, 206, 169, 241, 34, 199, 123, 249], then its arguments.
    pub proof fn lemma_field_offsets(self)
        ensures
            self.spec_bytes().subrange(0, 8) == seq![207u8, 206, 169, 241, 34, 199, 123, 249],
            self.spec_bytes().subrange(8, self.spec_bytes().len() as int) == self.0.spec_bytes(),
    {
        assert(CANCEL_LOCK_TIMEOUT_IX_DISCM@ =~= seq![207u8, 206, 169, 241, 34, 199, 123, 249]);
        assert(self.spec_bytes().subrange(0, 8) =~= CANCEL_LOCK_TIMEOUT_IX_DISCM@);
        assert(self.spec_bytes().subrange(8, self.spec_bytes().len() as int) =~= self.0.spec_bytes());
    }

    pub fn deserialize(buf: &[u8]) -> (r: Result<Self, CodecError>)
        ensures
            buf@.len() < 8 ==> r == Err::<Self, CodecError>(CodecError::UnexpectedEnd),
            buf@.len() >= 8 && buf@.take(8) != CANCEL_LOCK_TIMEOUT_IX_DISCM@ ==> r == Err::<Self, CodecError>(
                CodecError::UnknownDiscriminator,
            ),
            buf@.len() >= 8 && buf@.take(8) == CANCEL_LOCK_TIMEOUT_IX_DISCM@ ==> {
                &&& CancelLockTimeoutIxArgs::fits(buf@, 8) <==> r is Ok
                &&& r matches Ok(d) ==> d.0.serializable() && d.spec_bytes().is_prefix_of(buf@)
                &&& !CancelLockTimeoutIxArgs::fits(buf@, 8) ==> r == Err::<Self, CodecError>(CancelLockTimeoutIxArgs::read_error(buf@, 8))
            },
    {
        read_discriminator(buf, &CANCEL_LOCK_TIMEOUT_IX_DISCM)?;
        let (args, end) = CancelLockTimeoutIxArgs::read(buf, 8)?;
        proof {
            assert(buf@.take(end as int) =~= buf@.take(8) + buf@.subrange(8, end as int));
        }
        Ok(CancelLockTimeoutIxData(args))
    }

    /// Appends the encoding to `writer`.
    pub fn serialize(&self, writer: &mut Vec<u8>) -> (r: Result<(), CodecError>)
        ensures
            CancelLockTimeoutIxArgs::serializable(self.0) ==> r is Ok && final(writer)@ == old(writer)@ + self.spec_bytes(),
            !CancelLockTimeoutIxArgs::serializable(self.0) ==> r == Err::<(), CodecError>(CodecError::InvalidData)
                && final(writer)@ == old(writer)@ + CANCEL_LOCK_TIMEOUT_IX_DISCM@ + self.0.partial_bytes(),
    {
        write_array8(writer, &CANCEL_LOCK_TIMEOUT_IX_DISCM);
        let r = self.0.write(writer);
        assert(r is Ok ==> final(writer)@ =~= old(writer)@ + self.spec_bytes());
        assert(r is Err ==> final(writer)@ =~= old(writer)@ + CANCEL_LOCK_TIMEOUT_IX_DISCM@ + self.0.partial_bytes());
        r
    }

    /// The encoding as a fresh vector.
    pub fn try_to_vec(&self) -> (r: Result<Vec<u8>, CodecError>)
        ensures
            CancelLockTimeoutIxArgs::serializable(self.0) ==> (r matches Ok(v) && v@ == self.spec_bytes()),
            !CancelLockTimeoutIxArgs::serializable(self.0) ==> r == Err::<Vec<u8>, CodecError>(CodecError::InvalidData),
    {
        let mut data: Vec<u8> = Vec::new();
        self.serialize(&mut data)?;
        Ok(data)
    }

    /// What `try_to_vec` writes, `deserialize` reads back, whatever follows it.
    pub proof fn lemma_roundtrip(self, tail: Seq<u8>)
        requires
            self.0.serializable(),
        ensures
            (self.spec_bytes() + tail).len() >= 8,
            (self.spec_bytes() + tail).take(8) == CANCEL_LOCK_TIMEOUT_IX_DISCM@,
            CancelLockTimeoutIxArgs::fits(self.spec_bytes() + tail, 8),
            forall|x: Self| x.0.serializable() && #[trigger] x.spec_bytes().is_prefix_of(self.spec_bytes() + tail) ==> x == self,
    {
        let buf = self.spec_bytes() + tail;
        assert(buf.take(8) =~= CANCEL_LOCK_TIMEOUT_IX_DISCM@);
        self.0.lemma_fits(CANCEL_LOCK_TIMEOUT_IX_DISCM@, tail);
        assert(buf =~= CANCEL_LOCK_TIMEOUT_IX_DISCM@ + self.0.spec_bytes() + tail);
        assert forall|x: Self| x.0.serializable() && #[trigger] x.spec_bytes().is_prefix_of(buf) implies x == self by {
            let rest = buf.subrange(8, buf.len() as int);
            assert(x.0.spec_bytes() =~= x.spec_bytes().subrange(8, x.spec_bytes().len() as int));
            assert(x.0.spec_bytes().is_prefix_of(rest));
            assert(self.0.spec_bytes().is_prefix_of(rest));
            CancelLockTimeoutIxArgs::lemma_unique(x.0, self.0, rest);
        }
    }
}

pub const TRANSFER_WITH_AUTHORITY_IX_DISCM: [u8; 8] = [68, 128, 222, 192, 129, 69, 71, 165];

#[derive(Clone, Debug, PartialEq, Eq)]
pub struct TransferWithAuthorityIxArgs {
    pub timelock_bump: u8,
    pub amount: u64,
}

impl TransferWithAuthorityIxArgs {
    /// Wire encoding of the arguments.
    pub open spec fn spec_bytes(self) -> Seq<u8> {
        seq![self.timelock_bump] + enc_u64(self.amount)
    }

    /// Where each field lies in the encoding: timelock_bump at byte 0, amount in bytes
    /// 1..9.
    pub proof fn lemma_field_offsets(self)
        ensures
            self.spec_bytes().len() == 9,
            self.spec_bytes()[0] == self.timelock_bump,
            self.spec_bytes().subrange(1, 9) == enc_u64(self.amount),
    {
        crate::codec::lemma_le_bytes();
        vstd::bytes::lemma_auto_spec_u64_to_from_le_bytes();
        assert(self.spec_bytes().subrange(1, 9) =~= enc_u64(self.amount));
    }

    /// Whether `buf` holds the arguments at `pos`.
    pub open spec fn fits(buf: Seq<u8>, pos: int) -> bool {
        pos + 9 <= buf.len()
    }

    /// The error that reading the arguments at `pos` gives where they do not fit.
    pub open spec fn read_error(buf: Seq<u8>, pos: int) -> CodecError {
        CodecError::UnexpectedEnd
    }

    /// What writing the arguments leaves behind when it fails: nothing, as
    /// it never fails.
    pub open spec fn partial_bytes(self) -> Seq<u8> {
        Seq::empty()
    }

    /// Every value of this type has an encoding.
    pub open spec fn serializable(self) -> bool {
        true
    }

    /// The encoding fits wherever it stands.
    pub proof fn lemma_fits(self, head: Seq<u8>, tail: Seq<u8>)
        requires
            self.serializable(),
        ensures
            Self::fits(head + self.spec_bytes() + tail, head.len() as int),
    {
        lemma_le_bytes();
    }

    /// Reads the arguments at `pos`; on success also returns the position
    /// just past them.
    pub fn read(buf: &[u8], pos: usize) -> (r: Result<(Self, usize), CodecError>)
        requires
            pos <= buf@.len(),
        ensures
            Self::fits(buf@, pos as int) <==> r is Ok,
            r matches Ok((x, e)) ==> pos <= e <= buf@.len() && x.serializable()
                && x.spec_bytes() == buf@.subrange(pos as int, e as int),
            !Self::fits(buf@, pos as int) ==> r == Err::<(Self, usize), CodecError>(Self::read_error(buf@, pos as int)),
    {
        if buf.len() - pos < 9 {
            return Err(CodecError::UnexpectedEnd);
        }
        let timelock_bump = read_u8(buf, pos + 0)?;
        let amount = read_u64(buf, pos + 1)?;
        let x = TransferWithAuthorityIxArgs { timelock_bump, amount };
        assert(buf@.subrange(pos as int, pos + 9) =~= buf@.subrange(pos + 0, pos + 1) + buf@.subrange(pos + 1, pos + 9));
        Ok((x, pos + 9))
    }

    /// Appends the encoding of the arguments to `w`.
    pub fn write(&self, w: &mut Vec<u8>) -> (r: Result<(), CodecError>)
        ensures
            r is Ok,
            final(w)@ == old(w)@ + self.spec_bytes(),
    {
        write_u8(w, self.timelock_bump);
        write_u64(w, self.amount);
        assert(final(w)@ =~= old(w)@ + self.spec_bytes());
        Ok(())
    }

    /// Two arguments whose encodings both open `buf` are the same.
    pub proof fn lemma_unique(x: Self, y: Self, buf: Seq<u8>)
        requires
            x.serializable(),
            y.serializable(),
            x.spec_bytes().is_prefix_of(buf),
            y.spec_bytes().is_prefix_of(buf),
        ensures
            x == y,
    {
        broadcast use vstd::array::axiom_array_ext_equal;
        lemma_le_bytes();
        lemma_enc_injective();
        let sx = x.spec_bytes();
        let sy = y.spec_bytes();
        assert(sx =~= buf.take(9));
        assert(sy =~= buf.take(9));
        assert(sx[0] == x.timelock_bump && sy[0] == y.timelock_bump);
        assert(sx.subrange(1, 9) =~= enc_u64(x.amount));
        assert(sy.subrange(1, 9) =~= enc_u64(y.amount));
    }
}

#[derive(Clone, Debug, PartialEq, Eq)]
pub struct TransferWithAuthorityIxData(pub TransferWithAuthorityIxArgs);

impl TransferWithAuthorityIxData {
    /// Wire encoding: the discriminator, then the arguments.
    pub open spec fn spec_bytes(self) -> Seq<u8> {
        TRANSFER_WITH_AUTHORITY_IX_DISCM@ + self.0.spec_bytes()
    }

    /// The encoding is the instruction's eight discriminator bytes
    /// [68, 128, 222, 192, 129, 69, 71, 165], then its arguments.
    pub proof fn lemma_field_offsets(self)
        ensures
            self.spec_bytes().subrange(0, 8) == seq![68u8, 128, 222, 192, 129, 69, 71, 165],
            self.spec_bytes().subrange(8, self.spec_bytes().len() as int) == self.0.spec_bytes(),
    {
        assert(TRANSFER_WITH_AUTHORITY_IX_DISCM@ =~= seq![68u8, 128, 222, 192, 129, 69, 71, 165]);
        assert(self.spec_bytes().subrange(0, 8) =~= TRANSFER_WITH_AUTHORITY_IX_DISCM@);
        assert(self.spec_bytes().subrange(8, self.spec_bytes().len() as int) =~= self.0.spec_bytes());
    }

    pub fn deserialize(buf: &[u8]) -> (r: Result<Self, CodecError>)
        ensures
            buf@.len() < 8 ==> r == Err::<Self, CodecError>(CodecError::UnexpectedEnd),
            buf@.len() >= 8 && buf@.take(8) != TRANSFER_WITH_AUTHORITY_IX_DISCM@ ==> r == Err::<Self, CodecError>(
                CodecError::UnknownDiscriminator,
            ),
            buf@.len() >= 8 && buf@.take(8) == TRANSFER_WITH_AUTHORITY_IX_DISCM@ ==> {
                &&& TransferWithAuthorityIxArgs::fits(buf@, 8) <==> r is Ok
                &&& r matches Ok(d) ==> d.0.serializable() && d.spec_bytes().is_prefix_of(buf@)
                &&& !TransferWithAuthorityIxArgs::fits(buf@, 8) ==> r == Err::<Self, CodecError>(TransferWithAuthorityIxArgs::read_error(buf@, 8))
            },
    {
        read_discriminator(buf, &TRANSFER_WITH_AUTHORITY_IX_DISCM)?;
        let (args, end) = TransferWithAuthorityIxArgs::read(buf, 8)?;
        proof {
            assert(buf@.take(end as int) =~= buf@.take(8) + buf@.subrange(8, end as int));
        }
        Ok(TransferWithAuthorityIxData(args))
    }

    /// Appends the encoding to `writer`.
    pub fn serialize(&self, writer: &mut Vec<u8>) -> (r: Result<(), CodecError>)
        ensures
            TransferWithAuthorityIxArgs::serializable(self.0) ==> r is Ok && final(writer)@ == old(writer)@ + self.spec_bytes(),
            !TransferWithAuthorityIxArgs::serializable(self.0) ==> r == Err::<(), CodecError>(CodecError::InvalidData)
                && final(writer)@ == old(writer)@ + TRANSFER_WITH_AUTHORITY_IX_DISCM@ + self.0.partial_bytes(),
    {
        write_array8(writer, &TRANSFER_WITH_AUTHORITY_IX_DISCM);
        let r = self.0.write(writer);
        assert(r is Ok ==> final(writer)@ =~= old(writer)@ + self.spec_bytes());
        assert(r is Err ==> final(writer)@ =~= old(writer)@ + TRANSFER_WITH_AUTHORITY_IX_DISCM@ + self.0.partial_bytes());
        r
    }

    /// The encoding as a fresh vector.
    pub fn try_to_vec(&self) -> (r: Result<Vec<u8>, CodecError>)
        ensures
            TransferWithAuthorityIxArgs::serializable(self.0) ==> (r matches Ok(v) && v@ == self.spec_bytes()),
            !TransferWithAuthorityIxArgs::serializable(self.0) ==> r == Err::<Vec<u8>, CodecError>(CodecError::InvalidData),
    {
        let mut data: Vec<u8> = Vec::new();
        self.serialize(&mut data)?;
        Ok(data)
    }

    /// What `try_to_vec` writes, `deserialize` reads back, whatever follows it.
    pub proof fn lemma_roundtrip(self, tail: Seq<u8>)
        requires
            self.0.serializable(),
        ensures
            (self.spec_bytes() + tail).len() >= 8,
            (self.spec_bytes() + tail).take(8) == TRANSFER_WITH_AUTHORITY_IX_DISCM@,
            TransferWithAuthorityIxArgs::fits(self.spec_bytes() + tail, 8),
            forall|x: Self| x.0.serializable() && #[trigger] x.spec_bytes().is_prefix_of(self.spec_bytes() + tail) ==> x == self,
    {
        let buf = self.spec_bytes() + tail;
        assert(buf.take(8) =~= TRANSFER_WITH_AUTHORITY_IX_DISCM@);
        self.0.lemma_fits(TRANSFER_WITH_AUTHORITY_IX_DISCM@, tail);
        assert(buf =~= TRANSFER_WITH_AUTHORITY_IX_DISCM@ + self.0.spec_bytes() + tail);
        assert forall|x: Self| x.0.serializable() && #[trigger] x.spec_bytes().is_prefix_of(buf) implies x == self by {
            let rest = buf.subrange(8, buf.len() as int);
            assert(x.0.spec_bytes() =~= x.spec_bytes().subrange(8, x.spec_bytes().len() as int));
            assert(x.0.spec_bytes().is_prefix_of(rest));
            assert(self.0.spec_bytes().is_prefix_of(rest));
            TransferWithAuthorityIxArgs::lemma_unique(x.0, self.0, rest);
        }
    }
}

pub const BURN_DUST_WITH_AUTHORITY_IX_DISCM: [u8; 8] = [39, 42, 255, 218, 14, 124, 78, 45];

#[derive(Clone, Debug, PartialEq, Eq)]
pub struct BurnDustWithAuthorityIxArgs {
    pub timelock_bump: u8,
    pub max_amount: u64,
}

impl BurnDustWithAuthorityIxArgs {
    /// Wire encoding of the arguments.
    pub open spec fn spec_bytes(self) -> Seq<u8> {
        seq![self.timelock_bump] + enc_u64(self.max_amount)
    }

    /// Where each field lies in the encoding: timelock_bump at byte 0, max_amount in
    /// bytes 1..9.
    pub proof fn lemma_field_offsets(self)
        ensures
            self.spec_bytes().len() == 9,
            self.spec_bytes()[0] == self.timelock_bump,
            self.spec_bytes().subrange(1, 9) == enc_u64(self.max_amount),
    {
        crate::codec::lemma_le_bytes();
        vstd::bytes::lemma_auto_spec_u64_to_from_le_bytes();
        assert(self.spec_bytes().subrange(1, 9) =~= enc_u64(self.max_amount));
    }

    /// Whether `buf` holds the arguments at `pos`.
    pub open spec fn fits(buf: Seq<u8>, pos: int) -> bool {
        pos + 9 <= buf.len()
    }

    /// The error that reading the arguments at `pos` gives where they do not fit.
    pub open spec fn read_error(buf: Seq<u8>, pos: int) -> CodecError {
        CodecError::UnexpectedEnd
    }

    /// What writing the arguments leaves behind when it fails: nothing, as
    /// it never fails.
    pub open spec fn partial_bytes(self) -> Seq<u8> {
        Seq::empty()
    }

    /// Every value of this type has an encoding.
    pub open spec fn serializable(self) -> bool {
        true
    }

    /// The encoding fits wherever it stands.
    pub proof fn lemma_fits(self, head: Seq<u8>, tail: Seq<u8>)
        requires
            self.serializable(),
        ensures
            Self::fits(head + self.spec_bytes() + tail, head.len() as int),
    {
        lemma_le_bytes();
    }

    /// Reads the arguments at `pos`; on success also returns the position
    /// just past them.
    pub fn read(buf: &[u8], pos: usize) -> (r: Result<(Self, usize), CodecError>)
        requires
            pos <= buf@.len(),
        ensures
            Self::fits(buf@, pos as int) <==> r is Ok,
            r matches Ok((x, e)) ==> pos <= e <= buf@.len() && x.serializable()
                && x.spec_bytes() == buf@.subrange(pos as int, e as int),
            !Self::fits(buf@, pos as int) ==> r == Err::<(Self, usize), CodecError>(Self::read_error(buf@, pos as int)),
    {
        if buf.len() - pos < 9 {
            return Err(CodecError::UnexpectedEnd);
        }
        let timelock_bump = read_u8(buf, pos + 0)?;
        let max_amount = read_u64(buf, pos + 1)?;
        let x = BurnDustWithAuthorityIxArgs { timelock_bump, max_amount };
        assert(buf@.subrange(pos as int, pos + 9) =~= buf@.subrange(pos + 0, pos + 1) + buf@.subrange(pos + 1, pos + 9));
        Ok((x, pos + 9))
    }

    /// Appends the encoding of the arguments to `w`.
    pub fn write(&self, w: &mut Vec<u8>) -> (r: Result<(), CodecError>)
        ensures
            r is Ok,
            final(w)@ == old(w)@ + self.spec_bytes(),
    {
        write_u8(w, self.timelock_bump);
        write_u64(w, self.max_amount);
        assert(final(w)@ =~= old(w)@ + self.spec_bytes());
        Ok(())
    }

    /// Two arguments whose encodings both open `buf` are the same.
    pub proof fn lemma_unique(x: Self, y: Self, buf: Seq<u8>)
        requires
            x.serializable(),
            y.serializable(),
            x.spec_bytes().is_prefix_of(buf),
            y.spec_bytes().is_prefix_of(buf),
        ensures
            x == y,
    {
        broadcast use vstd::array::axiom_array_ext_equal;
        lemma_le_bytes();
        lemma_enc_injective();
        let sx = x.spec_bytes();
        let sy = y.spec_bytes();
        assert(sx =~= buf.take(9));
        assert(sy =~= buf.take(9));
        assert(sx[0] == x.timelock_bump && sy[0] == y.timelock_bump);
        assert(sx.subrange(1, 9) =~= enc_u64(x.max_amount));
        assert(sy.subrange(1, 9) =~= enc_u64(y.max_amount));
    }
}

#[derive(Clone, Debug, PartialEq, Eq)]
pub struct BurnDustWithAuthorityIxData(pub BurnDustWithAuthorityIxArgs);

impl BurnDustWithAuthorityIxData {
    /// Wire encoding: the discriminator, then the arguments.
    pub open spec fn spec_bytes(self) -> Seq<u8> {
        BURN_DUST_WITH_AUTHORITY_IX_DISCM@ + self.0.spec_bytes()
    }

    /// The encoding is the instruction's eight discriminator bytes
    /// [39, 42, 255, 218, 14, 124, 78, 45], then its arguments.
    pub proof fn lemma_field_offsets(self)
        ensures
            self.spec_bytes().subrange(0, 8) == seq![39u8, 42, 255, 218, 14, 124, 78, 45],
            self.spec_bytes().subrange(8, self.spec_bytes().len() as int) == self.0.spec_bytes(),
    {
        assert(BURN_DUST_WITH_AUTHORITY_IX_DISCM@ =~= seq![39u8, 42, 255, 218, 14, 124, 78, 45]);
        assert(self.spec_bytes().subrange(0, 8) =~= BURN_DUST_WITH_AUTHORITY_IX_DISCM@);
        assert(self.spec_bytes().subrange(8, self.spec_bytes().len() as int) =~= self.0.spec_bytes());
    }

    pub fn deserialize(buf: &[u8]) -> (r: Result<Self, CodecError>)
        ensures
            buf@.len() < 8 ==> r == Err::<Self, CodecError>(CodecError::UnexpectedEnd),
            buf@.len() >= 8 && buf@.take(8) != BURN_DUST_WITH_AUTHORITY_IX_DISCM@ ==> r == Err::<Self, CodecError>(
                CodecError::UnknownDiscriminator,
            ),
            buf@.len() >= 8 && buf@.take(8) == BURN_DUST_WITH_AUTHORITY_IX_DISCM@ ==> {
                &&& BurnDustWithAuthorityIxArgs::fits(buf@, 8) <==> r is Ok
                &&& r matches Ok(d) ==> d.0.serializable() && d.spec_bytes().is_prefix_of(buf@)
                &&& !BurnDustWithAuthorityIxArgs::fits(buf@, 8) ==> r == Err::<Self, CodecError>(BurnDustWithAuthorityIxArgs::read_error(buf@, 8))
            },
    {
        read_discriminator(buf, &BURN_DUST_WITH_AUTHORITY_IX_DISCM)?;
        let (args, end) = BurnDustWithAuthorityIxArgs::read(buf, 8)?;
        proof {
            assert(buf@.take(end as int) =~= buf@.take(8) + buf@.subrange(8, end as int));
        }
        Ok(BurnDustWithAuthorityIxData(args))
    }

    /// Appends the encoding to `writer`.
    pub fn serialize(&self, writer: &mut Vec<u8>) -> (r: Result<(), CodecError>)
        ensures
            BurnDustWithAuthorityIxArgs::serializable(self.0) ==> r is Ok && final(writer)@ == old(writer)@ + self.spec_bytes(),
            !BurnDustWithAuthorityIxArgs::serializable(self.0) ==> r == Err::<(), CodecError>(CodecError::InvalidData)
                && final(writer)@ == old(writer)@ + BURN_DUST_WITH_AUTHORITY_IX_DISCM@ + self.0.partial_bytes(),
    {
        write_array8(writer, &BURN_DUST_WITH_AUTHORITY_IX_DISCM);
        let r = self.0.write(writer);
        assert(r is Ok ==> final(writer)@ =~= old(writer)@ + self.spec_bytes());
        assert(r is Err ==> final(writer)@ =~= old(writer)@ + BURN_DUST_WITH_AUTHORITY_IX_DISCM@ + self.0.partial_bytes());
        r
    }

    /// The encoding as a fresh vector.
    pub fn try_to_vec(&self) -> (r: Result<Vec<u8>, CodecError>)
        ensures
            BurnDustWithAuthorityIxArgs::serializable(self.0) ==> (r matches Ok(v) && v@ == self.spec_bytes()),
            !BurnDustWithAuthorityIxArgs::serializable(self.0) ==> r == Err::<Vec<u8>, CodecError>(CodecError::InvalidData),
    {
        let mut data: Vec<u8> = Vec::new();
        self.serialize(&mut data)?;
        Ok(data)
    }

    /// What `try_to_vec` writes, `deserialize` reads back, whatever follows it.
    pub proof fn lemma_roundtrip(self, tail: Seq<u8>)
        requires
            self.0.serializable(),
        ensures
            (self.spec_bytes() + tail).len() >= 8,
            (self.spec_bytes() + tail).take(8) == BURN_DUST_WITH_AUTHORITY_IX_DISCM@,
            BurnDustWithAuthorityIxArgs::fits(self.spec_bytes() + tail, 8),
            forall|x: Self| x.0.serializable() && #[trigger] x.spec_bytes().is_prefix_of(self.spec_bytes() + tail) ==> x == self,
    {
        let buf = self.spec_bytes() + tail;
        assert(buf.take(8) =~= BURN_DUST_WITH_AUTHORITY_IX_DISCM@);
        self.0.lemma_fits(BURN_DUST_WITH_AUTHORITY_IX_DISCM@, tail);
        assert(buf =~= BURN_DUST_WITH_AUTHORITY_IX_DISCM@ + self.0.spec_bytes() + tail);
        assert forall|x: Self| x.0.serializable() && #[trigger] x.spec_bytes().is_prefix_of(buf) implies x == self by {
            let rest = buf.subrange(8, buf.len() as int);
            assert(x.0.spec_bytes() =~= x.spec_bytes().subrange(8, x.spec_bytes().len() as int));
            assert(x.0.spec_bytes().is_prefix_of(rest));
            assert(self.0.spec_bytes().is_prefix_of(rest));
            BurnDustWithAuthorityIxArgs::lemma_unique(x.0, self.0, rest);
        }
    }
}

pub const WITHDRAW_IX_DISCM: [u8; 8] = [183, 18, 70, 156, 148, 109, 161, 34];

#[derive(Clone, Debug, PartialEq, Eq)]
pub struct WithdrawIxArgs {
    pub timelock_bump: u8,
}

impl WithdrawIxArgs {
    /// Wire encoding of the arguments.
    pub open spec fn spec_bytes(self) -> Seq<u8> {
        seq![self.timelock_bump]
    }

    /// Whether `buf` holds the arguments at `pos`.
    pub open spec fn fits(buf: Seq<u8>, pos: int) -> bool {
        pos + 1 <= buf.len()
    }

    /// The error that reading the arguments at `pos` gives where they do not fit.
    pub open spec fn read_error(buf: Seq<u8>, pos: int) -> CodecError {
        CodecError::UnexpectedEnd
    }

    /// What writing the arguments leaves behind when it fails: nothing, as
    /// it never fails.
    pub open spec fn partial_bytes(self) -> Seq<u8> {
        Seq::empty()
    }

    /// Every value of this type has an encoding.
    pub open spec fn serializable(self) -> bool {
        true
    }

    /// The encoding fits wherever it stands.
    pub proof fn lemma_fits(self, head: Seq<u8>, tail: Seq<u8>)
        requires
            self.serializable(),
        ensures
            Self::fits(head + self.spec_bytes() + tail, head.len() as int),
    {
        lemma_le_bytes();
    }

    /// Reads the arguments at `pos`; on success also returns the position
    /// just past them.
    pub fn read(buf: &[u8], pos: usize) -> (r: Result<(Self, usize), CodecError>)
        requires
            pos <= buf@.len(),
        ensures
            Self::fits(buf@, pos as int) <==> r is Ok,
            r matches Ok((x, e)) ==> pos <= e <= buf@.len() && x.serializable()
                && x.spec_bytes() == buf@.subrange(pos as int, e as int),
            !Self::fits(buf@, pos as int) ==> r == Err::<(Self, usize), CodecError>(Self::read_error(buf@, pos as int)),
    {
        if buf.len() - pos < 1 {
            return Err(CodecError::UnexpectedEnd);
        }
        let timelock_bump = read_u8(buf, pos + 0)?;
        let x = WithdrawIxArgs { timelock_bump };
        assert(buf@.subrange(pos as int, pos + 1) =~= buf@.subrange(pos + 0, pos + 1));
        Ok((x, pos + 1))
    }

    /// Appends the encoding of the arguments to `w`.
    pub fn write(&self, w: &mut Vec<u8>) -> (r: Result<(), CodecError>)
        ensures
            r is Ok,
            final(w)@ == old(w)@ + self.spec_bytes(),
    {
        write_u8(w, self.timelock_bump);
        assert(final(w)@ =~= old(w)@ + self.spec_bytes());
        Ok(())
    }

    /// Two arguments whose encodings both open `buf` are the same.
    pub proof fn lemma_unique(x: Self, y: Self, buf: Seq<u8>)
        requires
            x.serializable(),
            y.serializable(),
            x.spec_bytes().is_prefix_of(buf),
            y.spec_bytes().is_prefix_of(buf),
        ensures
            x == y,
    {
        broadcast use vstd::array::axiom_array_ext_equal;
        lemma_le_bytes();
        lemma_enc_injective();
        let sx = x.spec_bytes();
        let sy = y.spec_bytes();
        assert(sx =~= buf.take(1));
        assert(sy =~= buf.take(1));
        assert(sx[0] == x.timelock_bump && sy[0] == y.timelock_bump);
    }
}

#[derive(Clone, Debug, PartialEq, Eq)]
pub struct WithdrawIxData(pub WithdrawIxArgs);

impl WithdrawIxData {
    /// Wire encoding: the discriminator, then the arguments.
    pub open spec fn spec_bytes(self) -> Seq<u8> {
        WITHDRAW_IX_DISCM@ + self.0.spec_bytes()
    }

    /// The encoding is the instruction's eight discriminator bytes
    /// [183, 18, 70, 156, 148, 109, 161, 34], then its arguments.
    pub proof fn lemma_field_offsets(self)
        ensures
            self.spec_bytes().subrange(0, 8) == seq![183u8, 18, 70, 156, 148, 109, 161, 34],
            self.spec_bytes().subrange(8, self.spec_bytes().len() as int) == self.0.spec_bytes(),
    {
        assert(WITHDRAW_IX_DISCM@ =~= seq![183u8, 18, 70, 156, 148, 109, 161, 34]);
        assert(self.spec_bytes().subrange(0, 8) =~= WITHDRAW_IX_DISCM@);
        assert(self.spec_bytes().subrange(8, self.spec_bytes().len() as int) =~= self.0.spec_bytes());
    }

    pub fn deserialize(buf: &[u8]) -> (r: Result<Self, CodecError>)
        ensures
            buf@.len() < 8 ==> r == Err::<Self, CodecError>(CodecError::UnexpectedEnd),
            buf@.len() >= 8 && buf@.take(8) != WITHDRAW_IX_DISCM@ ==> r == Err::<Self, CodecError>(
                CodecError::UnknownDiscriminator,
            ),
            buf@.len() >= 8 && buf@.take(8) == WITHDRAW_IX_DISCM@ ==> {
                &&& WithdrawIxArgs::fits(buf@, 8) <==> r is Ok
                &&& r matches Ok(d) ==> d.0.serializable() && d.spec_bytes().is_prefix_of(buf@)
                &&& !WithdrawIxArgs::fits(buf@, 8) ==> r == Err::<Self, CodecError>(WithdrawIxArgs::read_error(buf@, 8))
            },
    {
        read_discriminator(buf, &WITHDRAW_IX_DISCM)?;
        let (args, end) = WithdrawIxArgs::read(buf, 8)?;
        proof {
            assert(buf@.take(end as int) =~= buf@.take(8) + buf@.subrange(8, end as int));
        }
        Ok(WithdrawIxData(args))
    }

    /// Appends the encoding to `writer`.
    pub fn serialize(&self, writer: &mut Vec<u8>) -> (r: Result<(), CodecError>)
        ensures
            WithdrawIxArgs::serializable(self.0) ==> r is Ok && final(writer)@ == old(writer)@ + self.spec_bytes(),
            !WithdrawIxArgs::serializable(self.0) ==> r == Err::<(), CodecError>(CodecError::InvalidData)
                && final(writer)@ == old(writer)@ + WITHDRAW_IX_DISCM@ + self.0.partial_bytes(),
    {
        write_array8(writer, &WITHDRAW_IX_DISCM);
        let r = self.0.write(writer);
        assert(r is Ok ==> final(writer)@ =~= old(writer)@ + self.spec_bytes());
        assert(r is Err ==> final(writer)@ =~= old(writer)@ + WITHDRAW_IX_DISCM@ + self.0.partial_bytes());
        r
    }

    /// The encoding as a fresh vector.
    pub fn try_to_vec(&self) -> (r: Result<Vec<u8>, CodecError>)
        ensures
            WithdrawIxArgs::serializable(self.0) ==> (r matches Ok(v) && v@ == self.spec_bytes()),
            !WithdrawIxArgs::serializable(self.0) ==> r == Err::<Vec<u8>, CodecError>(CodecError::InvalidData),
    {
        let mut data: Vec<u8> = Vec::new();
        self.serialize(&mut data)?;
        Ok(data)
    }

    /// What `try_to_vec` writes, `deserialize` reads back, whatever follows it.
    pub proof fn lemma_roundtrip(self, tail: Seq<u8>)
        requires
            self.0.serializable(),
        ensures
            (self.spec_bytes() + tail).len() >= 8,
            (self.spec_bytes() + tail).take(8) == WITHDRAW_IX_DISCM@,
            WithdrawIxArgs::fits(self.spec_bytes() + tail, 8),
            forall|x: Self| x.0.serializable() && #[trigger] x.spec_bytes().is_prefix_of(self.spec_bytes() + tail) ==> x == self,
    {
        let buf = self.spec_bytes() + tail;
        assert(buf.take(8) =~= WITHDRAW_IX_DISCM@);
        self.0.lemma_fits(WITHDRAW_IX_DISCM@, tail);
        assert(buf =~= WITHDRAW_IX_DISCM@ + self.0.spec_bytes() + tail);
        assert forall|x: Self| x.0.serializable() && #[trigger] x.spec_bytes().is_prefix_of(buf) implies x == self by {
            let rest = buf.subrange(8, buf.len() as int);
            assert(x.0.spec_bytes() =~= x.spec_bytes().subrange(8, x.spec_bytes().len() as int));
            assert(x.0.spec_bytes().is_prefix_of(rest));
            assert(self.0.spec_bytes().is_prefix_of(rest));
            WithdrawIxArgs::lemma_unique(x.0, self.0, rest);
        }
    }
}

pub const CLOSE_ACCOUNTS_IX_DISCM: [u8; 8] = [171, 222, 94, 233, 34, 250, 202, 1];

#[derive(Clone, Debug, PartialEq, Eq)]
pub struct CloseAccountsIxArgs {
    pub timelock_bump: u8,
}

impl CloseAccountsIxArgs {
    /// Wire encoding of the arguments.
    pub open spec fn spec_bytes(self) -> Seq<u8> {
        seq![self.timelock_bump]
    }

    /// Whether `buf` holds the arguments at `pos`.
    pub open spec fn fits(buf: Seq<u8>, pos: int) -> bool {
        pos + 1 <= buf.len()
    }

    /// The error that reading the arguments at `pos` gives where they do not fit.
    pub open spec fn read_error(buf: Seq<u8>, pos: int) -> CodecError {
        CodecError::UnexpectedEnd
    }

    /// What writing the arguments leaves behind when it fails: nothing, as
    /// it never fails.
    pub open spec fn partial_bytes(self) -> Seq<u8> {
        Seq::empty()
    }

    /// Every value of this type has an encoding.
    pub open spec fn serializable(self) -> bool {
        true
    }

    /// The encoding fits wherever it stands.
    pub proof fn lemma_fits(self, head: Seq<u8>, tail: Seq<u8>)
        requires
            self.serializable(),
        ensures
            Self::fits(head + self.spec_bytes() + tail, head.len() as int),
    {
        lemma_le_bytes();
    }

    /// Reads the arguments at `pos`; on success also returns the position
    /// just past them.
    pub fn read(buf: &[u8], pos: usize) -> (r: Result<(Self, usize), CodecError>)
        requires
            pos <= buf@.len(),
        ensures
            Self::fits(buf@, pos as int) <==> r is Ok,
            r matches Ok((x, e)) ==> pos <= e <= buf@.len() && x.serializable()
                && x.spec_bytes() == buf@.subrange(pos as int, e as int),
            !Self::fits(buf@, pos as int) ==> r == Err::<(Self, usize), CodecError>(Self::read_error(buf@, pos as int)),
    {
        if buf.len() - pos < 1 {
            return Err(CodecError::UnexpectedEnd);
        }
        let timelock_bump = read_u8(buf, pos + 0)?;
        let x = CloseAccountsIxArgs { timelock_bump };
        assert(buf@.subrange(pos as int, pos + 1) =~= buf@.subrange(pos + 0, pos + 1));
        Ok((x, pos + 1))
    }

    /// Appends the encoding of the arguments to `w`.
    pub fn write(&self, w: &mut Vec<u8>) -> (r: Result<(), CodecError>)
        ensures
            r is Ok,
            final(w)@ == old(w)@ + self.spec_bytes(),
    {
        write_u8(w, self.timelock_bump);
        assert(final(w)@ =~= old(w)@ + self.spec_bytes());
        Ok(())
    }

    /// Two arguments whose encodings both open `buf` are the same.
    pub proof fn lemma_unique(x: Self, y: Self, buf: Seq<u8>)
        requires
            x.serializable(),
            y.serializable(),
            x.spec_bytes().is_prefix_of(buf),
            y.spec_bytes().is_prefix_of(buf),
        ensures
            x == y,
    {
        broadcast use vstd::array::axiom_array_ext_equal;
        lemma_le_bytes();
        lemma_enc_injective();
        let sx = x.spec_bytes();
        let sy = y.spec_bytes();
        assert(sx =~= buf.take(1));
        assert(sy =~= buf.take(1));
        assert(sx[0] == x.timelock_bump && sy[0] == y.timelock_bump);
    }
}

#[derive(Clone, Debug, PartialEq, Eq)]
pub struct CloseAccountsIxData(pub CloseAccountsIxArgs);

impl CloseAccountsIxData {
    /// Wire encoding: the discriminator, then the arguments.
    pub open spec fn spec_bytes(self) -> Seq<u8> {
        CLOSE_ACCOUNTS_IX_DISCM@ + self.0.spec_bytes()
    }

    /// The encoding is the instruction's eight discriminator bytes
    /// [171, 222, 94, 233, 34, 250, 202, 1], then its arguments.
    pub proof fn lemma_field_offsets(self)
        ensures
            self.spec_bytes().subrange(0, 8) == seq![171u8, 222, 94, 233, 34, 250, 202, 1],
            self.spec_bytes().subrange(8, self.spec_bytes().len() as int) == self.0.spec_bytes(),
    {
        assert(CLOSE_ACCOUNTS_IX_DISCM@ =~= seq![171u8, 222, 94, 233, 34, 250, 202, 1]);
        assert(self.spec_bytes().subrange(0, 8) =~= CLOSE_ACCOUNTS_IX_DISCM@);
        assert(self.spec_bytes().subrange(8, self.spec_bytes().len() as int) =~= self.0.spec_bytes());
    }

    pub fn deserialize(buf: &[u8]) -> (r: Result<Self, CodecError>)
        ensures
            buf@.len() < 8 ==> r == Err::<Self, CodecError>(CodecError::UnexpectedEnd),
            buf@.len() >= 8 && buf@.take(8) != CLOSE_ACCOUNTS_IX_DISCM@ ==> r == Err::<Self, CodecError>(
                CodecError::UnknownDiscriminator,
            ),
            buf@.len() >= 8 && buf@.take(8) == CLOSE_ACCOUNTS_IX_DISCM@ ==> {
                &&& CloseAccountsIxArgs::fits(buf@, 8) <==> r is Ok
                &&& r matches Ok(d) ==> d.0.serializable() && d.spec_bytes().is_prefix_of(buf@)
                &&& !CloseAccountsIxArgs::fits(buf@, 8) ==> r == Err::<Self, CodecError>(CloseAccountsIxArgs::read_error(buf@, 8))
            },
    {
        read_discriminator(buf, &CLOSE_ACCOUNTS_IX_DISCM)?;
        let (args, end) = CloseAccountsIxArgs::read(buf, 8)?;
        proof {
            assert(buf@.take(end as int) =~= buf@.take(8) + buf@.subrange(8, end as int));
        }
        Ok(CloseAccountsIxData(args))
    }

    /// Appends the encoding to `writer`.
    pub fn serialize(&self, writer: &mut Vec<u8>) -> (r: Result<(), CodecError>)
        ensures
            CloseAccountsIxArgs::serializable(self.0) ==> r is Ok && final(writer)@ == old(writer)@ + self.spec_bytes(),
            !CloseAccountsIxArgs::serializable(self.0) ==> r == Err::<(), CodecError>(CodecError::InvalidData)
                && final(writer)@ == old(writer)@ + CLOSE_ACCOUNTS_IX_DISCM@ + self.0.partial_bytes(),
    {
        write_array8(writer, &CLOSE_ACCOUNTS_IX_DISCM);
        let r = self.0.write(writer);
        assert(r is Ok ==> final(writer)@ =~= old(writer)@ + self.spec_bytes());
        assert(r is Err ==> final(writer)@ =~= old(writer)@ + CLOSE_ACCOUNTS_IX_DISCM@ + self.0.partial_bytes());
        r
    }

    /// The encoding as a fresh vector.
    pub fn try_to_vec(&self) -> (r: Result<Vec<u8>, CodecError>)
        ensures
            CloseAccountsIxArgs::serializable(self.0) ==> (r matches Ok(v) && v@ == self.spec_bytes()),
            !CloseAccountsIxArgs::serializable(self.0) ==> r == Err::<Vec<u8>, CodecError>(CodecError::InvalidData),
    {
        let mut data: Vec<u8> = Vec::new();
        self.serialize(&mut data)?;
        Ok(data)
    }

    /// What `try_to_vec` writes, `deserialize` reads back, whatever follows it.
    pub proof fn lemma_roundtrip(self, tail: Seq<u8>)
        requires
            self.0.serializable(),
        ensures
            (self.spec_bytes() + tail).len() >= 8,
            (self.spec_bytes() + tail).take(8) == CLOSE_ACCOUNTS_IX_DISCM@,
            CloseAccountsIxArgs::fits(self.spec_bytes() + tail, 8),
            forall|x: Self| x.0.serializable() && #[trigger] x.spec_bytes().is_prefix_of(self.spec_bytes() + tail) ==> x == self,
    {
        let buf = self.spec_bytes() + tail;
        assert(buf.take(8) =~= CLOSE_ACCOUNTS_IX_DISCM@);
        self.0.lemma_fits(CLOSE_ACCOUNTS_IX_DISCM@, tail);
        assert(buf =~= CLOSE_ACCOUNTS_IX_DISCM@ + self.0.spec_bytes() + tail);
        assert forall|x: Self| x.0.serializable() && #[trigger] x.spec_bytes().is_prefix_of(buf) implies x == self by {
            let rest = buf.subrange(8, buf.len() as int);
            assert(x.0.spec_bytes() =~= x.spec_bytes().subrange(8, x.spec_bytes().len() as int));
            assert(x.0.spec_bytes().is_prefix_of(rest));
            assert(self.0.spec_bytes().is_prefix_of(rest));
            CloseAccountsIxArgs::lemma_unique(x.0, self.0, rest);
        }
    }
}

#[derive(Clone, Debug, PartialEq, Eq)]
pub enum TimelockProgramIx {
    Initialize(InitializeIxArgs),
    Activate(ActivateIxArgs),
    Deactivate(DeactivateIxArgs),
    RevokeLockWithTimeout(RevokeLockWithTimeoutIxArgs),
    RevokeLockWithAuthority(RevokeLockWithAuthorityIxArgs),
    CancelLockTimeout(CancelLockTimeoutIxArgs),
    TransferWithAuthority(TransferWithAuthorityIxArgs),
    BurnDustWithAuthority(BurnDustWithAuthorityIxArgs),
    Withdraw(WithdrawIxArgs),
    CloseAccounts(CloseAccountsIxArgs),
}

impl TimelockProgramIx {
    /// Wire encoding: the variant's discriminator, then its arguments.
    pub open spec fn spec_bytes(self) -> Seq<u8> {
        match self {
            TimelockProgramIx::Initialize(a) => INITIALIZE_IX_DISCM@ + a.spec_bytes(),
            TimelockProgramIx::Activate(a) => ACTIVATE_IX_DISCM@ + a.spec_bytes(),
            TimelockProgramIx::Deactivate(a) => DEACTIVATE_IX_DISCM@ + a.spec_bytes(),
            TimelockProgramIx::RevokeLockWithTimeout(a) => REVOKE_LOCK_WITH_TIMEOUT_IX_DISCM@ + a.spec_bytes(),
            TimelockProgramIx::RevokeLockWithAuthority(a) => REVOKE_LOCK_WITH_AUTHORITY_IX_DISCM@ + a.spec_bytes(),
            TimelockProgramIx::CancelLockTimeout(a) => CANCEL_LOCK_TIMEOUT_IX_DISCM@ + a.spec_bytes(),
            TimelockProgramIx::TransferWithAuthority(a) => TRANSFER_WITH_AUTHORITY_IX_DISCM@ + a.spec_bytes(),
            TimelockProgramIx::BurnDustWithAuthority(a) => BURN_DUST_WITH_AUTHORITY_IX_DISCM@ + a.spec_bytes(),
            TimelockProgramIx::Withdraw(a) => WITHDRAW_IX_DISCM@ + a.spec_bytes(),
            TimelockProgramIx::CloseAccounts(a) => CLOSE_ACCOUNTS_IX_DISCM@ + a.spec_bytes(),
        }
    }

    pub open spec fn serializable(self) -> bool {
        match self {
            TimelockProgramIx::Initialize(a) => a.serializable(),
            TimelockProgramIx::Activate(a) => a.serializable(),
            TimelockProgramIx::Deactivate(a) => a.serializable(),
            TimelockProgramIx::RevokeLockWithTimeout(a) => a.serializable(),
            TimelockProgramIx::RevokeLockWithAuthority(a) => a.serializable(),
            TimelockProgramIx::CancelLockTimeout(a) => a.serializable(),
            TimelockProgramIx::TransferWithAuthority(a) => a.serializable(),
            TimelockProgramIx::BurnDustWithAuthority(a) => a.serializable(),
            TimelockProgramIx::Withdraw(a) => a.serializable(),
            TimelockProgramIx::CloseAccounts(a) => a.serializable(),
        }
    }

    /// Whether `d` is the discriminator of one of the instructions.
    pub open spec fn known_discriminator(d: Seq<u8>) -> bool {
        d == INITIALIZE_IX_DISCM@ || d == ACTIVATE_IX_DISCM@ || d == DEACTIVATE_IX_DISCM@ || d == REVOKE_LOCK_WITH_TIMEOUT_IX_DISCM@ || d == REVOKE_LOCK_WITH_AUTHORITY_IX_DISCM@ || d == CANCEL_LOCK_TIMEOUT_IX_DISCM@ || d == TRANSFER_WITH_AUTHORITY_IX_DISCM@ || d == BURN_DUST_WITH_AUTHORITY_IX_DISCM@ || d == WITHDRAW_IX_DISCM@ || d == CLOSE_ACCOUNTS_IX_DISCM@
    }

    /// The two instructions carry the same arguments.
    pub open spec fn same(self, other: Self) -> bool {
        match (self, other) {
            (TimelockProgramIx::Initialize(a), TimelockProgramIx::Initialize(b)) => a == b,
            (TimelockProgramIx::Activate(a), TimelockProgramIx::Activate(b)) => a == b,
            (TimelockProgramIx::Deactivate(a), TimelockProgramIx::Deactivate(b)) => a == b,
            (TimelockProgramIx::RevokeLockWithTimeout(a), TimelockProgramIx::RevokeLockWithTimeout(b)) => a == b,
            (TimelockProgramIx::RevokeLockWithAuthority(a), TimelockProgramIx::RevokeLockWithAuthority(b)) => a == b,
            (TimelockProgramIx::CancelLockTimeout(a), TimelockProgramIx::CancelLockTimeout(b)) => a == b,
            (TimelockProgramIx::TransferWithAuthority(a), TimelockProgramIx::TransferWithAuthority(b)) => a == b,
            (TimelockProgramIx::BurnDustWithAuthority(a), TimelockProgramIx::BurnDustWithAuthority(b)) => a == b,
            (TimelockProgramIx::Withdraw(a), TimelockProgramIx::Withdraw(b)) => a == b,
            (TimelockProgramIx::CloseAccounts(a), TimelockProgramIx::CloseAccounts(b)) => a == b,
            _ => false,
        }
    }

    pub fn deserialize(buf: &[u8]) -> (r: Result<Self, CodecError>)
        ensures
            buf@.len() < 8 ==> r == Err::<Self, CodecError>(CodecError::UnexpectedEnd),
            buf@.len() >= 8 && !Self::known_discriminator(buf@.take(8)) ==> r == Err::<Self, CodecError>(
                CodecError::UnknownDiscriminator,
            ),
            buf@.len() >= 8 && buf@.take(8) == INITIALIZE_IX_DISCM@ ==> {
                &&& InitializeIxArgs::fits(buf@, 8) <==> r is Ok
                &&& r matches Ok(ix) ==> ix is Initialize && ix.serializable() && ix.spec_bytes().is_prefix_of(buf@)
                &&& !InitializeIxArgs::fits(buf@, 8) ==> r == Err::<Self, CodecError>(InitializeIxArgs::read_error(buf@, 8))
            },
            buf@.len() >= 8 && buf@.take(8) == ACTIVATE_IX_DISCM@ ==> {
                &&& ActivateIxArgs::fits(buf@, 8) <==> r is Ok
                &&& r matches Ok(ix) ==> ix is Activate && ix.serializable() && ix.spec_bytes().is_prefix_of(buf@)
                &&& !ActivateIxArgs::fits(buf@, 8) ==> r == Err::<Self, CodecError>(ActivateIxArgs::read_error(buf@, 8))
            },
            buf@.len() >= 8 && buf@.take(8) == DEACTIVATE_IX_DISCM@ ==> {
                &&& DeactivateIxArgs::fits(buf@, 8) <==> r is Ok
                &&& r matches Ok(ix) ==> ix is Deactivate && ix.serializable() && ix.spec_bytes().is_prefix_of(buf@)
                &&& !DeactivateIxArgs::fits(buf@, 8) ==> r == Err::<Self, CodecError>(DeactivateIxArgs::read_error(buf@, 8))
            },
            buf@.len() >= 8 && buf@.take(8) == REVOKE_LOCK_WITH_TIMEOUT_IX_DISCM@ ==> {
                &&& RevokeLockWithTimeoutIxArgs::fits(buf@, 8) <==> r is Ok
                &&& r matches Ok(ix) ==> ix is RevokeLockWithTimeout && ix.serializable() && ix.spec_bytes().is_prefix_of(buf@)
                &&& !RevokeLockWithTimeoutIxArgs::fits(buf@, 8) ==> r == Err::<Self, CodecError>(RevokeLockWithTimeoutIxArgs::read_error(buf@, 8))
            },
            buf@.len() >= 8 && buf@.take(8) == REVOKE_LOCK_WITH_AUTHORITY_IX_DISCM@ ==> {
                &&& RevokeLockWithAuthorityIxArgs::fits(buf@, 8) <==> r is Ok
                &&& r matches Ok(ix) ==> ix is RevokeLockWithAuthority && ix.serializable() && ix.spec_bytes().is_prefix_of(buf@)
                &&& !RevokeLockWithAuthorityIxArgs::fits(buf@, 8) ==> r == Err::<Self, CodecError>(RevokeLockWithAuthorityIxArgs::read_error(buf@, 8))
            },
            buf@.len() >= 8 && buf@.take(8) == CANCEL_LOCK_TIMEOUT_IX_DISCM@ ==> {
                &&& CancelLockTimeoutIxArgs::fits(buf@, 8) <==> r is Ok
                &&& r matches Ok(ix) ==> ix is CancelLockTimeout && ix.serializable() && ix.spec_bytes().is_prefix_of(buf@)
                &&& !CancelLockTimeoutIxArgs::fits(buf@, 8) ==> r == Err::<Self, CodecError>(CancelLockTimeoutIxArgs::read_error(buf@, 8))
            },
            buf@.len() >= 8 && buf@.take(8) == TRANSFER_WITH_AUTHORITY_IX_DISCM@ ==> {
                &&& TransferWithAuthorityIxArgs::fits(buf@, 8) <==> r is Ok
                &&& r matches Ok(ix) ==> ix is TransferWithAuthority && ix.serializable() && ix.spec_bytes().is_prefix_of(buf@)
                &&& !TransferWithAuthorityIxArgs::fits(buf@, 8) ==> r == Err::<Self, CodecError>(TransferWithAuthorityIxArgs::read_error(buf@, 8))
            },
            buf@.len() >= 8 && buf@.take(8) == BURN_DUST_WITH_AUTHORITY_IX_DISCM@ ==> {
                &&& BurnDustWithAuthorityIxArgs::fits(buf@, 8) <==> r is Ok
                &&& r matches Ok(ix) ==> ix is BurnDustWithAuthority && ix.serializable() && ix.spec_bytes().is_prefix_of(buf@)
                &&& !BurnDustWithAuthorityIxArgs::fits(buf@, 8) ==> r == Err::<Self, CodecError>(BurnDustWithAuthorityIxArgs::read_error(buf@, 8))
            },
            buf@.len() >= 8 && buf@.take(8) == WITHDRAW_IX_DISCM@ ==> {
                &&& WithdrawIxArgs::fits(buf@, 8) <==> r is Ok
                &&& r matches Ok(ix) ==> ix is Withdraw && ix.serializable() && ix.spec_bytes().is_prefix_of(buf@)
                &&& !WithdrawIxArgs::fits(buf@, 8) ==> r == Err::<Self, CodecError>(WithdrawIxArgs::read_error(buf@, 8))
            },
            buf@.len() >= 8 && buf@.take(8) == CLOSE_ACCOUNTS_IX_DISCM@ ==> {
                &&& CloseAccountsIxArgs::fits(buf@, 8) <==> r is Ok
                &&& r matches Ok(ix) ==> ix is CloseAccounts && ix.serializable() && ix.spec_bytes().is_prefix_of(buf@)
                &&& !CloseAccountsIxArgs::fits(buf@, 8) ==> r == Err::<Self, CodecError>(CloseAccountsIxArgs::read_error(buf@, 8))
            },
    {
        if buf.len() < 8 {
            return Err(CodecError::UnexpectedEnd);
        }
        let d = &buf[0..8];
        assert(d@ == buf@.take(8));
        if bytes_eq(d, INITIALIZE_IX_DISCM.as_slice()) {
            let (a, end) = InitializeIxArgs::read(buf, 8)?;
            proof {
                assert(buf@.take(end as int) =~= buf@.take(8) + buf@.subrange(8, end as int));
            }
            return Ok(TimelockProgramIx::Initialize(a));
        }
        if bytes_eq(d, ACTIVATE_IX_DISCM.as_slice()) {
            let (a, end) = ActivateIxArgs::read(buf, 8)?;
            proof {
                assert(buf@.take(end as int) =~= buf@.take(8) + buf@.subrange(8, end as int));
            }
            return Ok(TimelockProgramIx::Activate(a));
        }
        if bytes_eq(d, DEACTIVATE_IX_DISCM.as_slice()) {
            let (a, end) = DeactivateIxArgs::read(buf, 8)?;
            proof {
                assert(buf@.take(end as int) =~= buf@.take(8) + buf@.subrange(8, end as int));
            }
            return Ok(TimelockProgramIx::Deactivate(a));
        }
        if bytes_eq(d, REVOKE_LOCK_WITH_TIMEOUT_IX_DISCM.as_slice()) {
            let (a, end) = RevokeLockWithTimeoutIxArgs::read(buf, 8)?;
            proof {
                assert(buf@.take(end as int) =~= buf@.take(8) + buf@.subrange(8, end as int));
            }
            return Ok(TimelockProgramIx::RevokeLockWithTimeout(a));
        }
        if bytes_eq(d, REVOKE_LOCK_WITH_AUTHORITY_IX_DISCM.as_slice()) {
            let (a, end) = RevokeLockWithAuthorityIxArgs::read(buf, 8)?;
            proof {
                assert(buf@.take(end as int) =~= buf@.take(8) + buf@.subrange(8, end as int));
            }
            return Ok(TimelockProgramIx::RevokeLockWithAuthority(a));
        }
        if bytes_eq(d, CANCEL_LOCK_TIMEOUT_IX_DISCM.as_slice()) {
            let (a, end) = CancelLockTimeoutIxArgs::read(buf, 8)?;
            proof {
                assert(buf@.take(end as int) =~= buf@.take(8) + buf@.subrange(8, end as int));
            }
            return Ok(TimelockProgramIx::CancelLockTimeout(a));
        }
        if bytes_eq(d, TRANSFER_WITH_AUTHORITY_IX_DISCM.as_slice()) {
            let (a, end) = TransferWithAuthorityIxArgs::read(buf, 8)?;
            proof {
                assert(buf@.take(end as int) =~= buf@.take(8) + buf@.subrange(8, end as int));
            }
            return Ok(TimelockProgramIx::TransferWithAuthority(a));
        }
        if bytes_eq(d, BURN_DUST_WITH_AUTHORITY_IX_DISCM.as_slice()) {
            let (a, end) = BurnDustWithAuthorityIxArgs::read(buf, 8)?;
            proof {
                assert(buf@.take(end as int) =~= buf@.take(8) + buf@.subrange(8, end as int));
            }
            return Ok(TimelockProgramIx::BurnDustWithAuthority(a));
        }
        if bytes_eq(d, WITHDRAW_IX_DISCM.as_slice()) {
            let (a, end) = WithdrawIxArgs::read(buf, 8)?;
            proof {
                assert(buf@.take(end as int) =~= buf@.take(8) + buf@.subrange(8, end as int));
            }
            return Ok(TimelockProgramIx::Withdraw(a));
        }
        if bytes_eq(d, CLOSE_ACCOUNTS_IX_DISCM.as_slice()) {
            let (a, end) = CloseAccountsIxArgs::read(buf, 8)?;
            proof {
                assert(buf@.take(end as int) =~= buf@.take(8) + buf@.subrange(8, end as int));
            }
            return Ok(TimelockProgramIx::CloseAccounts(a));
        }
        Err(CodecError::UnknownDiscriminator)
    }

    /// Appends the encoding to `writer`.
    pub fn serialize(&self, writer: &mut Vec<u8>) -> (r: Result<(), CodecError>)
        ensures
            self.serializable() ==> r is Ok && final(writer)@ == old(writer)@ + self.spec_bytes(),
            !self.serializable() ==> r == Err::<(), CodecError>(CodecError::InvalidData),
    {
        let ghost start = writer@;
        let r = match self {
            TimelockProgramIx::Initialize(a) => {
                write_array8(writer, &INITIALIZE_IX_DISCM);
                a.write(writer)
            },
            TimelockProgramIx::Activate(a) => {
                write_array8(writer, &ACTIVATE_IX_DISCM);
                a.write(writer)
            },
            TimelockProgramIx::Deactivate(a) => {
                write_array8(writer, &DEACTIVATE_IX_DISCM);
                a.write(writer)
            },
            TimelockProgramIx::RevokeLockWithTimeout(a) => {
                write_array8(writer, &REVOKE_LOCK_WITH_TIMEOUT_IX_DISCM);
                a.write(writer)
            },
            TimelockProgramIx::RevokeLockWithAuthority(a) => {
                write_array8(writer, &REVOKE_LOCK_WITH_AUTHORITY_IX_DISCM);
                a.write(writer)
            },
            TimelockProgramIx::CancelLockTimeout(a) => {
                write_array8(writer, &CANCEL_LOCK_TIMEOUT_IX_DISCM);
                a.write(writer)
            },
            TimelockProgramIx::TransferWithAuthority(a) => {
                write_array8(writer, &TRANSFER_WITH_AUTHORITY_IX_DISCM);
                a.write(writer)
            },
            TimelockProgramIx::BurnDustWithAuthority(a) => {
                write_array8(writer, &BURN_DUST_WITH_AUTHORITY_IX_DISCM);
                a.write(writer)
            },
            TimelockProgramIx::Withdraw(a) => {
                write_array8(writer, &WITHDRAW_IX_DISCM);
                a.write(writer)
            },
            TimelockProgramIx::CloseAccounts(a) => {
                write_array8(writer, &CLOSE_ACCOUNTS_IX_DISCM);
                a.write(writer)
            },
        };
        assert(r is Ok ==> writer@ =~= start + self.spec_bytes());
        r
    }

    /// The encoding as a fresh vector.
    pub fn try_to_vec(&self) -> (r: Result<Vec<u8>, CodecError>)
        ensures
            self.serializable() ==> (r matches Ok(v) && v@ == self.spec_bytes()),
            !self.serializable() ==> r == Err::<Vec<u8>, CodecError>(CodecError::InvalidData),
    {
        let mut data: Vec<u8> = Vec::new();
        self.serialize(&mut data)?;
        Ok(data)
    }

    /// An instruction is written exactly as the data type of its variant
    /// writes its arguments: the same discriminator, then the same bytes.
    pub proof fn lemma_bytes_as_data(self)
        ensures
            match self {
                TimelockProgramIx::Initialize(a) => self.spec_bytes() == (InitializeIxData(a)).spec_bytes(),
                TimelockProgramIx::Activate(a) => self.spec_bytes() == (ActivateIxData(a)).spec_bytes(),
                TimelockProgramIx::Deactivate(a) => self.spec_bytes() == (DeactivateIxData(a)).spec_bytes(),
                TimelockProgramIx::RevokeLockWithTimeout(a) => self.spec_bytes() == (RevokeLockWithTimeoutIxData(a)).spec_bytes(),
                TimelockProgramIx::RevokeLockWithAuthority(a) => self.spec_bytes() == (RevokeLockWithAuthorityIxData(a)).spec_bytes(),
                TimelockProgramIx::CancelLockTimeout(a) => self.spec_bytes() == (CancelLockTimeoutIxData(a)).spec_bytes(),
                TimelockProgramIx::TransferWithAuthority(a) => self.spec_bytes() == (TransferWithAuthorityIxData(a)).spec_bytes(),
                TimelockProgramIx::BurnDustWithAuthority(a) => self.spec_bytes() == (BurnDustWithAuthorityIxData(a)).spec_bytes(),
                TimelockProgramIx::Withdraw(a) => self.spec_bytes() == (WithdrawIxData(a)).spec_bytes(),
                TimelockProgramIx::CloseAccounts(a) => self.spec_bytes() == (CloseAccountsIxData(a)).spec_bytes(),
            },
    {
    }

    /// What `try_to_vec` writes, `deserialize` reads back as the same
    /// instruction, whatever follows it.
    pub proof fn lemma_roundtrip(self, tail: Seq<u8>)
        requires
            self.serializable(),
        ensures
            Self::known_discriminator((self.spec_bytes() + tail).take(8)),
            forall|x: Self| x.serializable() && #[trigger] x.spec_bytes().is_prefix_of(self.spec_bytes() + tail) ==> x.same(self),
    {
        let buf = self.spec_bytes() + tail;
        match self {
            TimelockProgramIx::Initialize(a) => {
                a.lemma_fits(INITIALIZE_IX_DISCM@, tail);
                assert(buf =~= INITIALIZE_IX_DISCM@ + a.spec_bytes() + tail);
                assert(buf.take(8) =~= INITIALIZE_IX_DISCM@);
            },
            TimelockProgramIx::Activate(a) => {
                a.lemma_fits(ACTIVATE_IX_DISCM@, tail);
                assert(buf =~= ACTIVATE_IX_DISCM@ + a.spec_bytes() + tail);
                assert(buf.take(8) =~= ACTIVATE_IX_DISCM@);
            },
            TimelockProgramIx::Deactivate(a) => {
                a.lemma_fits(DEACTIVATE_IX_DISCM@, tail);
                assert(buf =~= DEACTIVATE_IX_DISCM@ + a.spec_bytes() + tail);
                assert(buf.take(8) =~= DEACTIVATE_IX_DISCM@);
            },
            TimelockProgramIx::RevokeLockWithTimeout(a) => {
                a.lemma_fits(REVOKE_LOCK_WITH_TIMEOUT_IX_DISCM@, tail);
                assert(buf =~= REVOKE_LOCK_WITH_TIMEOUT_IX_DISCM@ + a.spec_bytes() + tail);
                assert(buf.take(8) =~= REVOKE_LOCK_WITH_TIMEOUT_IX_DISCM@);
            },
            TimelockProgramIx::RevokeLockWithAuthority(a) => {
                a.lemma_fits(REVOKE_LOCK_WITH_AUTHORITY_IX_DISCM@, tail);
                assert(buf =~= REVOKE_LOCK_WITH_AUTHORITY_IX_DISCM@ + a.spec_bytes() + tail);
                assert(buf.take(8) =~= REVOKE_LOCK_WITH_AUTHORITY_IX_DISCM@);
            },
            TimelockProgramIx::CancelLockTimeout(a) => {
                a.lemma_fits(CANCEL_LOCK_TIMEOUT_IX_DISCM@, tail);
                assert(buf =~= CANCEL_LOCK_TIMEOUT_IX_DISCM@ + a.spec_bytes() + tail);
                assert(buf.take(8) =~= CANCEL_LOCK_TIMEOUT_IX_DISCM@);
            },
            TimelockProgramIx::TransferWithAuthority(a) => {
                a.lemma_fits(TRANSFER_WITH_AUTHORITY_IX_DISCM@, tail);
                assert(buf =~= TRANSFER_WITH_AUTHORITY_IX_DISCM@ + a.spec_bytes() + tail);
                assert(buf.take(8) =~= TRANSFER_WITH_AUTHORITY_IX_DISCM@);
            },
            TimelockProgramIx::BurnDustWithAuthority(a) => {
                a.lemma_fits(BURN_DUST_WITH_AUTHORITY_IX_DISCM@, tail);
                assert(buf =~= BURN_DUST_WITH_AUTHORITY_IX_DISCM@ + a.spec_bytes() + tail);
                assert(buf.take(8) =~= BURN_DUST_WITH_AUTHORITY_IX_DISCM@);
            },
            TimelockProgramIx::Withdraw(a) => {
                a.lemma_fits(WITHDRAW_IX_DISCM@, tail);
                assert(buf =~= WITHDRAW_IX_DISCM@ + a.spec_bytes() + tail);
                assert(buf.take(8) =~= WITHDRAW_IX_DISCM@);
            },
            TimelockProgramIx::CloseAccounts(a) => {
                a.lemma_fits(CLOSE_ACCOUNTS_IX_DISCM@, tail);
                assert(buf =~= CLOSE_ACCOUNTS_IX_DISCM@ + a.spec_bytes() + tail);
                assert(buf.take(8) =~= CLOSE_ACCOUNTS_IX_DISCM@);
            },
        }
        assert forall|x: Self| x.serializable() && #[trigger] x.spec_bytes().is_prefix_of(buf) implies x.same(self) by {
            assert(x.spec_bytes()[0] == buf[0]);
            match self {
            TimelockProgramIx::Initialize(a) => {
                match x {
                    TimelockProgramIx::Initialize(b) => {
                        let rest = buf.subrange(8, buf.len() as int);
                        assert(b.spec_bytes() =~= x.spec_bytes().subrange(8, x.spec_bytes().len() as int));
                        assert(b.spec_bytes().is_prefix_of(rest));
                        assert(a.spec_bytes().is_prefix_of(rest));
                        InitializeIxArgs::lemma_unique(b, a, rest);
                    },
                    _ => {},
                }
            },
            TimelockProgramIx::Activate(a) => {
                match x {
                    TimelockProgramIx::Activate(b) => {
                        let rest = buf.subrange(8, buf.len() as int);
                        assert(b.spec_bytes() =~= x.spec_bytes().subrange(8, x.spec_bytes().len() as int));
                        assert(b.spec_bytes().is_prefix_of(rest));
                        assert(a.spec_bytes().is_prefix_of(rest));
                        ActivateIxArgs::lemma_unique(b, a, rest);
                    },
                    _ => {},
                }
            },
            TimelockProgramIx::Deactivate(a) => {
                match x {
                    TimelockProgramIx::Deactivate(b) => {
                        let rest = buf.subrange(8, buf.len() as int);
                        assert(b.spec_bytes() =~= x.spec_bytes().subrange(8, x.spec_bytes().len() as int));
                        assert(b.spec_bytes().is_prefix_of(rest));
                        assert(a.spec_bytes().is_prefix_of(rest));
                        DeactivateIxArgs::lemma_unique(b, a, rest);
                    },
                    _ => {},
                }
            },
            TimelockProgramIx::RevokeLockWithTimeout(a) => {
                match x {
                    TimelockProgramIx::RevokeLockWithTimeout(b) => {
                        let rest = buf.subrange(8, buf.len() as int);
                        assert(b.spec_bytes() =~= x.spec_bytes().subrange(8, x.spec_bytes().len() as int));
                        assert(b.spec_bytes().is_prefix_of(rest));
                        assert(a.spec_bytes().is_prefix_of(rest));
                        RevokeLockWithTimeoutIxArgs::lemma_unique(b, a, rest);
                    },
                    _ => {},
                }
            },
            TimelockProgramIx::RevokeLockWithAuthority(a) => {
                match x {
                    TimelockProgramIx::RevokeLockWithAuthority(b) => {
                        let rest = buf.subrange(8, buf.len() as int);
                        assert(b.spec_bytes() =~= x.spec_bytes().subrange(8, x.spec_bytes().len() as int));
                        assert(b.spec_bytes().is_prefix_of(rest));
                        assert(a.spec_bytes().is_prefix_of(rest));
                        RevokeLockWithAuthorityIxArgs::lemma_unique(b, a, rest);
                    },
                    _ => {},
                }
            },
            TimelockProgramIx::CancelLockTimeout(a) => {
                match x {
                    TimelockProgramIx::CancelLockTimeout(b) => {
                        let rest = buf.subrange(8, buf.len() as int);
                        assert(b.spec_bytes() =~= x.spec_bytes().subrange(8, x.spec_bytes().len() as int));
                        assert(b.spec_bytes().is_prefix_of(rest));
                        assert(a.spec_bytes().is_prefix_of(rest));
                        CancelLockTimeoutIxArgs::lemma_unique(b, a, rest);
                    },
                    _ => {},
                }
            },
            TimelockProgramIx::TransferWithAuthority(a) => {
                match x {
                    TimelockProgramIx::TransferWithAuthority(b) => {
                        let rest = buf.subrange(8, buf.len() as int);
                        assert(b.spec_bytes() =~= x.spec_bytes().subrange(8, x.spec_bytes().len() as int));
                        assert(b.spec_bytes().is_prefix_of(rest));
                        assert(a.spec_bytes().is_prefix_of(rest));
                        TransferWithAuthorityIxArgs::lemma_unique(b, a, rest);
                    },
                    _ => {},
                }
            },
            TimelockProgramIx::BurnDustWithAuthority(a) => {
                match x {
                    TimelockProgramIx::BurnDustWithAuthority(b) => {
                        let rest = buf.subrange(8, buf.len() as int);
                        assert(b.spec_bytes() =~= x.spec_bytes().subrange(8, x.spec_bytes().len() as int));
                        assert(b.spec_bytes().is_prefix_of(rest));
                        assert(a.spec_bytes().is_prefix_of(rest));
                        BurnDustWithAuthorityIxArgs::lemma_unique(b, a, rest);
                    },
                    _ => {},
                }
            },
            TimelockProgramIx::Withdraw(a) => {
                match x {
                    TimelockProgramIx::Withdraw(b) => {
                        let rest = buf.subrange(8, buf.len() as int);
                        assert(b.spec_bytes() =~= x.spec_bytes().subrange(8, x.spec_bytes().len() as int));
                        assert(b.spec_bytes().is_prefix_of(rest));
                        assert(a.spec_bytes().is_prefix_of(rest));
                        WithdrawIxArgs::lemma_unique(b, a, rest);
                    },
                    _ => {},
                }
            },
            TimelockProgramIx::CloseAccounts(a) => {
                match x {
                    TimelockProgramIx::CloseAccounts(b) => {
                        let rest = buf.subrange(8, buf.len() as int);
                        assert(b.spec_bytes() =~= x.spec_bytes().subrange(8, x.spec_bytes().len() as int));
                        assert(b.spec_bytes().is_prefix_of(rest));
                        assert(a.spec_bytes().is_prefix_of(rest));
                        CloseAccountsIxArgs::lemma_unique(b, a, rest);
                    },
                    _ => {},
                }
            },
            }
        }
    }
}

pub const INITIALIZE_IX_ACCOUNTS_LEN: usize = 9;

/// The accounts handed to the instruction.
#[derive(Clone, Copy, Debug, PartialEq, Eq)]
pub struct InitializeAccounts {
    pub timelock: AccountView,
    pub vault: AccountView,
    pub vault_owner: AccountView,
    pub mint: AccountView,
    pub time_authority: AccountView,
    pub payer: AccountView,
    pub token_program: AccountView,
    pub system_program: AccountView,
    pub rent: AccountView,
}

/// The addresses of the instruction's accounts.
#[derive(Clone, Copy, Debug, PartialEq, Eq)]
pub struct InitializeKeys {
    pub timelock: Pubkey,
    pub vault: Pubkey,
    pub vault_owner: Pubkey,
    pub mint: Pubkey,
    pub time_authority: Pubkey,
    pub payer: Pubkey,
    pub token_program: Pubkey,
    pub system_program: Pubkey,
    pub rent: Pubkey,
}

impl InitializeKeys {
    /// The instruction's account list: each key with the privileges the
    /// instruction asks for it.
    pub open spec fn spec_metas(self) -> Seq<AccountMeta> {
        seq![meta(self.timelock, false, true), meta(self.vault, false, true), meta(self.vault_owner, false, false), meta(self.mint, false, false), meta(self.time_authority, true, false), meta(self.payer, true, true), meta(self.token_program, false, false), meta(self.system_program, false, false), meta(self.rent, false, false)]
    }

    /// The instruction's account list.
    pub fn account_metas(&self) -> (r: [AccountMeta; INITIALIZE_IX_ACCOUNTS_LEN])
        ensures
            r@ == self.spec_metas(),
    {
        let r = [
            AccountMeta { pubkey: self.timelock, is_signer: false, is_writable: true },
            AccountMeta { pubkey: self.vault, is_signer: false, is_writable: true },
            AccountMeta { pubkey: self.vault_owner, is_signer: false, is_writable: false },
            AccountMeta { pubkey: self.mint, is_signer: false, is_writable: false },
            AccountMeta { pubkey: self.time_authority, is_signer: true, is_writable: false },
            AccountMeta { pubkey: self.payer, is_signer: true, is_writable: true },
            AccountMeta { pubkey: self.token_program, is_signer: false, is_writable: false },
            AccountMeta { pubkey: self.system_program, is_signer: false, is_writable: false },
            AccountMeta { pubkey: self.rent, is_signer: false, is_writable: false },
        ];
        assert(r@ =~= self.spec_metas());
        r
    }
}

impl From<[Pubkey; INITIALIZE_IX_ACCOUNTS_LEN]> for InitializeKeys {
    fn from(pubkeys: [Pubkey; INITIALIZE_IX_ACCOUNTS_LEN]) -> (r: Self) {
        InitializeKeys { timelock: pubkeys[0], vault: pubkeys[1], vault_owner: pubkeys[2], mint: pubkeys[3], time_authority: pubkeys[4], payer: pubkeys[5], token_program: pubkeys[6], system_program: pubkeys[7], rent: pubkeys[8] }
    }
}

impl vstd::std_specs::convert::FromSpecImpl<[Pubkey; INITIALIZE_IX_ACCOUNTS_LEN]> for InitializeKeys {
    open spec fn obeys_from_spec() -> bool {
        true
    }

    open spec fn from_spec(pubkeys: [Pubkey; INITIALIZE_IX_ACCOUNTS_LEN]) -> Self {
        InitializeKeys { timelock: pubkeys[0], vault: pubkeys[1], vault_owner: pubkeys[2], mint: pubkeys[3], time_authority: pubkeys[4], payer: pubkeys[5], token_program: pubkeys[6], system_program: pubkeys[7], rent: pubkeys[8] }
    }
}

impl From<InitializeAccounts> for InitializeKeys {
    fn from(accounts: InitializeAccounts) -> (r: Self) {
        InitializeKeys { timelock: accounts.timelock.key, vault: accounts.vault.key, vault_owner: accounts.vault_owner.key, mint: accounts.mint.key, time_authority: accounts.time_authority.key, payer: accounts.payer.key, token_program: accounts.token_program.key, system_program: accounts.system_program.key, rent: accounts.rent.key }
    }
}

impl vstd::std_specs::convert::FromSpecImpl<InitializeAccounts> for InitializeKeys {
    open spec fn obeys_from_spec() -> bool {
        true
    }

    open spec fn from_spec(accounts: InitializeAccounts) -> Self {
        InitializeKeys { timelock: accounts.timelock.key, vault: accounts.vault.key, vault_owner: accounts.vault_owner.key, mint: accounts.mint.key, time_authority: accounts.time_authority.key, payer: accounts.payer.key, token_program: accounts.token_program.key, system_program: accounts.system_program.key, rent: accounts.rent.key }
    }
}

impl From<[AccountView; INITIALIZE_IX_ACCOUNTS_LEN]> for InitializeAccounts {
    fn from(views: [AccountView; INITIALIZE_IX_ACCOUNTS_LEN]) -> (r: Self) {
        InitializeAccounts { timelock: views[0], vault: views[1], vault_owner: views[2], mint: views[3], time_authority: views[4], payer: views[5], token_program: views[6], system_program: views[7], rent: views[8] }
    }
}

impl vstd::std_specs::convert::FromSpecImpl<[AccountView; INITIALIZE_IX_ACCOUNTS_LEN]> for InitializeAccounts {
    open spec fn obeys_from_spec() -> bool {
        true
    }

    open spec fn from_spec(views: [AccountView; INITIALIZE_IX_ACCOUNTS_LEN]) -> Self {
        InitializeAccounts { timelock: views[0], vault: views[1], vault_owner: views[2], mint: views[3], time_authority: views[4], payer: views[5], token_program: views[6], system_program: views[7], rent: views[8] }
    }
}

impl InitializeAccounts {
    /// The accounts in the instruction's order.
    pub open spec fn spec_list(self) -> Seq<AccountView> {
        seq![self.timelock, self.vault, self.vault_owner, self.mint, self.time_authority, self.payer, self.token_program, self.system_program, self.rent]
    }
}

/// Builds the instruction for the program at `program_id`; arguments that
/// cannot be encoded are refused.
pub fn initialize_ix_with_program_id(program_id: Pubkey, keys: InitializeKeys, args: InitializeIxArgs) -> (r: Result<Instruction, CodecError>)
    ensures
        args.serializable() ==> (r matches Ok(ix) && ix.program_id == program_id && ix.accounts@ == keys.spec_metas()
            && ix.data@ == InitializeIxData(args).spec_bytes()),
        !args.serializable() ==> r == Err::<Instruction, CodecError>(CodecError::InvalidData),
{
    let metas = keys.account_metas();
    let data = InitializeIxData(args).try_to_vec()?;
    Ok(Instruction { program_id, accounts: meta_list(metas.as_slice()), data })
}

/// Builds the instruction for the program at its own address.
pub fn initialize_ix(keys: InitializeKeys, args: InitializeIxArgs) -> (r: Result<Instruction, CodecError>)
    ensures
        args.serializable() ==> (r matches Ok(ix) && ix.program_id == ID && ix.accounts@ == keys.spec_metas()
            && ix.data@ == InitializeIxData(args).spec_bytes()),
        !args.serializable() ==> r == Err::<Instruction, CodecError>(CodecError::InvalidData),
{
    initialize_ix_with_program_id(ID, keys, args)
}

/// An instruction built from `keys` passes the checks of its accounts when
/// each account arrives in the order of the keys with the privileges its
/// account meta asks for: every key matches, every account whose write
/// access is checked is writable and every account whose signature is
/// checked signed.
pub proof fn lemma_initialize_metas_pass_checks(keys: InitializeKeys, accounts: InitializeAccounts)
    requires
        accounts.timelock.key == keys.spec_metas()[0].pubkey,
        accounts.timelock.is_writable == keys.spec_metas()[0].is_writable,
        accounts.timelock.is_signer == keys.spec_metas()[0].is_signer,
        accounts.vault.key == keys.spec_metas()[1].pubkey,
        accounts.vault.is_writable == keys.spec_metas()[1].is_writable,
        accounts.vault.is_signer == keys.spec_metas()[1].is_signer,
        accounts.vault_owner.key == keys.spec_metas()[2].pubkey,
        accounts.vault_owner.is_writable == keys.spec_metas()[2].is_writable,
        accounts.vault_owner.is_signer == keys.spec_metas()[2].is_signer,
        accounts.mint.key == keys.spec_metas()[3].pubkey,
        accounts.mint.is_writable == keys.spec_metas()[3].is_writable,
        accounts.mint.is_signer == keys.spec_metas()[3].is_signer,
        accounts.time_authority.key == keys.spec_metas()[4].pubkey,
        accounts.time_authority.is_writable == keys.spec_metas()[4].is_writable,
        accounts.time_authority.is_signer == keys.spec_metas()[4].is_signer,
        accounts.payer.key == keys.spec_metas()[5].pubkey,
        accounts.payer.is_writable == keys.spec_metas()[5].is_writable,
        accounts.payer.is_signer == keys.spec_metas()[5].is_signer,
        accounts.token_program.key == keys.spec_metas()[6].pubkey,
        accounts.token_program.is_writable == keys.spec_metas()[6].is_writable,
        accounts.token_program.is_signer == keys.spec_metas()[6].is_signer,
        accounts.system_program.key == keys.spec_metas()[7].pubkey,
        accounts.system_program.is_writable == keys.spec_metas()[7].is_writable,
        accounts.system_program.is_signer == keys.spec_metas()[7].is_signer,
        accounts.rent.key == keys.spec_metas()[8].pubkey,
        accounts.rent.is_writable == keys.spec_metas()[8].is_writable,
        accounts.rent.is_signer == keys.spec_metas()[8].is_signer,
    ensures
        first_key_mismatch(seq![(accounts.timelock.key, keys.timelock), (accounts.vault.key, keys.vault), (accounts.vault_owner.key, keys.vault_owner), (accounts.mint.key, keys.mint), (accounts.time_authority.key, keys.time_authority), (accounts.payer.key, keys.payer), (accounts.token_program.key, keys.token_program), (accounts.system_program.key, keys.system_program), (accounts.rent.key, keys.rent)]) is Ok,
        first_not_writable(seq![accounts.timelock, accounts.vault, accounts.payer]) is Ok,
        first_not_signer(seq![accounts.time_authority, accounts.payer]) is Ok,
{
    lemma_keys_all_match(seq![(accounts.timelock.key, keys.timelock), (accounts.vault.key, keys.vault), (accounts.vault_owner.key, keys.vault_owner), (accounts.mint.key, keys.mint), (accounts.time_authority.key, keys.time_authority), (accounts.payer.key, keys.payer), (accounts.token_program.key, keys.token_program), (accounts.system_program.key, keys.system_program), (accounts.rent.key, keys.rent)]);
    lemma_all_writable(seq![accounts.timelock, accounts.vault, accounts.payer]);
    lemma_all_signed(seq![accounts.time_authority, accounts.payer]);
}

/// Checks each account's address against the expected one, in order;
/// the first that differs is reported as (actual, expected).
pub fn initialize_verify_account_keys(accounts: InitializeAccounts, keys: InitializeKeys) -> (r: Result<(), (Pubkey, Pubkey)>)
    ensures
        r == first_key_mismatch(seq![(accounts.timelock.key, keys.timelock), (accounts.vault.key, keys.vault), (accounts.vault_owner.key, keys.vault_owner), (accounts.mint.key, keys.mint), (accounts.time_authority.key, keys.time_authority), (accounts.payer.key, keys.payer), (accounts.token_program.key, keys.token_program), (accounts.system_program.key, keys.system_program), (accounts.rent.key, keys.rent)]),
{
    let pairs = [(accounts.timelock.key, keys.timelock), (accounts.vault.key, keys.vault), (accounts.vault_owner.key, keys.vault_owner), (accounts.mint.key, keys.mint), (accounts.time_authority.key, keys.time_authority), (accounts.payer.key, keys.payer), (accounts.token_program.key, keys.token_program), (accounts.system_program.key, keys.system_program), (accounts.rent.key, keys.rent)];
    let r = check_keys(pairs.as_slice());
    assert(pairs@ =~= seq![(accounts.timelock.key, keys.timelock), (accounts.vault.key, keys.vault), (accounts.vault_owner.key, keys.vault_owner), (accounts.mint.key, keys.mint), (accounts.time_authority.key, keys.time_authority), (accounts.payer.key, keys.payer), (accounts.token_program.key, keys.token_program), (accounts.system_program.key, keys.system_program), (accounts.rent.key, keys.rent)]);
    r
}

/// Checks that the accounts the instruction writes to are writable; the first account that fails is reported.
pub fn initialize_verify_writable_privileges(accounts: InitializeAccounts) -> (r: Result<(), (AccountView, ProgramError)>)
    ensures
        r == first_not_writable(seq![accounts.timelock, accounts.vault, accounts.payer]),
{
    let list = [accounts.timelock, accounts.vault, accounts.payer];
    let r = check_writable(list.as_slice());
    assert(list@ =~= seq![accounts.timelock, accounts.vault, accounts.payer]);
    r
}

/// Checks that the accounts the instruction needs signatures from signed; the first account that fails is reported.
pub fn initialize_verify_signer_privileges(accounts: InitializeAccounts) -> (r: Result<(), (AccountView, ProgramError)>)
    ensures
        r == first_not_signer(seq![accounts.time_authority, accounts.payer]),
{
    let list = [accounts.time_authority, accounts.payer];
    let r = check_signers(list.as_slice());
    assert(list@ =~= seq![accounts.time_authority, accounts.payer]);
    r
}

/// Checks write access, then signatures.
pub fn initialize_verify_account_privileges(accounts: InitializeAccounts) -> (r: Result<(), (AccountView, ProgramError)>)
    ensures
        r == (match first_not_writable(seq![accounts.timelock, accounts.vault, accounts.payer]) {
            Err(e) => Err(e),
            Ok(()) => first_not_signer(seq![accounts.time_authority, accounts.payer]),
        }),
{
    initialize_verify_writable_privileges(accounts)?;
    initialize_verify_signer_privileges(accounts)?;
    Ok(())
}

pub const ACTIVATE_IX_ACCOUNTS_LEN: usize = 3;

/// The accounts handed to the instruction.
#[derive(Clone, Copy, Debug, PartialEq, Eq)]
pub struct ActivateAccounts {
    pub timelock: AccountView,
    pub vault_owner: AccountView,
    pub payer: AccountView,
}

/// The addresses of the instruction's accounts.
#[derive(Clone, Copy, Debug, PartialEq, Eq)]
pub struct ActivateKeys {
    pub timelock: Pubkey,
    pub vault_owner: Pubkey,
    pub payer: Pubkey,
}

impl ActivateKeys {
    /// The instruction's account list: each key with the privileges the
    /// instruction asks for it.
    pub open spec fn spec_metas(self) -> Seq<AccountMeta> {
        seq![meta(self.timelock, false, true), meta(self.vault_owner, true, false), meta(self.payer, true, true)]
    }

    /// The instruction's account list.
    pub fn account_metas(&self) -> (r: [AccountMeta; ACTIVATE_IX_ACCOUNTS_LEN])
        ensures
            r@ == self.spec_metas(),
    {
        let r = [
            AccountMeta { pubkey: self.timelock, is_signer: false, is_writable: true },
            AccountMeta { pubkey: self.vault_owner, is_signer: true, is_writable: false },
            AccountMeta { pubkey: self.payer, is_signer: true, is_writable: true },
        ];
        assert(r@ =~= self.spec_metas());
        r
    }
}

impl From<[Pubkey; ACTIVATE_IX_ACCOUNTS_LEN]> for ActivateKeys {
    fn from(pubkeys: [Pubkey; ACTIVATE_IX_ACCOUNTS_LEN]) -> (r: Self) {
        ActivateKeys { timelock: pubkeys[0], vault_owner: pubkeys[1], payer: pubkeys[2] }
    }
}

impl vstd::std_specs::convert::FromSpecImpl<[Pubkey; ACTIVATE_IX_ACCOUNTS_LEN]> for ActivateKeys {
    open spec fn obeys_from_spec() -> bool {
        true
    }

    open spec fn from_spec(pubkeys: [Pubkey; ACTIVATE_IX_ACCOUNTS_LEN]) -> Self {
        ActivateKeys { timelock: pubkeys[0], vault_owner: pubkeys[1], payer: pubkeys[2] }
    }
}

impl From<ActivateAccounts> for ActivateKeys {
    fn from(accounts: ActivateAccounts) -> (r: Self) {
        ActivateKeys { timelock: accounts.timelock.key, vault_owner: accounts.vault_owner.key, payer: accounts.payer.key }
    }
}

impl vstd::std_specs::convert::FromSpecImpl<ActivateAccounts> for ActivateKeys {
    open spec fn obeys_from_spec() -> bool {
        true
    }

    open spec fn from_spec(accounts: ActivateAccounts) -> Self {
        ActivateKeys { timelock: accounts.timelock.key, vault_owner: accounts.vault_owner.key, payer: accounts.payer.key }
    }
}

impl From<[AccountView; ACTIVATE_IX_ACCOUNTS_LEN]> for ActivateAccounts {
    fn from(views: [AccountView; ACTIVATE_IX_ACCOUNTS_LEN]) -> (r: Self) {
        ActivateAccounts { timelock: views[0], vault_owner: views[1], payer: views[2] }
    }
}

impl vstd::std_specs::convert::FromSpecImpl<[AccountView; ACTIVATE_IX_ACCOUNTS_LEN]> for ActivateAccounts {
    open spec fn obeys_from_spec() -> bool {
        true
    }

    open spec fn from_spec(views: [AccountView; ACTIVATE_IX_ACCOUNTS_LEN]) -> Self {
        ActivateAccounts { timelock: views[0], vault_owner: views[1], payer: views[2] }
    }
}

impl ActivateAccounts {
    /// The accounts in the instruction's order.
    pub open spec fn spec_list(self) -> Seq<AccountView> {
        seq![self.timelock, self.vault_owner, self.payer]
    }
}

/// Builds the instruction for the program at `program_id`; arguments that
/// cannot be encoded are refused.
pub fn activate_ix_with_program_id(program_id: Pubkey, keys: ActivateKeys, args: ActivateIxArgs) -> (r: Result<Instruction, CodecError>)
    ensures
        args.serializable() ==> (r matches Ok(ix) && ix.program_id == program_id && ix.accounts@ == keys.spec_metas()
            && ix.data@ == ActivateIxData(args).spec_bytes()),
        !args.serializable() ==> r == Err::<Instruction, CodecError>(CodecError::InvalidData),
{
    let metas = keys.account_metas();
    let data = ActivateIxData(args).try_to_vec()?;
    Ok(Instruction { program_id, accounts: meta_list(metas.as_slice()), data })
}

/// Builds the instruction for the program at its own address.
pub fn activate_ix(keys: ActivateKeys, args: ActivateIxArgs) -> (r: Result<Instruction, CodecError>)
    ensures
        args.serializable() ==> (r matches Ok(ix) && ix.program_id == ID && ix.accounts@ == keys.spec_metas()
            && ix.data@ == ActivateIxData(args).spec_bytes()),
        !args.serializable() ==> r == Err::<Instruction, CodecError>(CodecError::InvalidData),
{
    activate_ix_with_program_id(ID, keys, args)
}

/// An instruction built from `keys` passes the checks of its accounts when
/// each account arrives in the order of the keys with the privileges its
/// account meta asks for: every key matches, every account whose write
/// access is checked is writable and every account whose signature is
/// checked signed.
pub proof fn lemma_activate_metas_pass_checks(keys: ActivateKeys, accounts: ActivateAccounts)
    requires
        accounts.timelock.key == keys.spec_metas()[0].pubkey,
        accounts.timelock.is_writable == keys.spec_metas()[0].is_writable,
        accounts.timelock.is_signer == keys.spec_metas()[0].is_signer,
        accounts.vault_owner.key == keys.spec_metas()[1].pubkey,
        accounts.vault_owner.is_writable == keys.spec_metas()[1].is_writable,
        accounts.vault_owner.is_signer == keys.spec_metas()[1].is_signer,
        accounts.payer.key == keys.spec_metas()[2].pubkey,
        accounts.payer.is_writable == keys.spec_metas()[2].is_writable,
        accounts.payer.is_signer == keys.spec_metas()[2].is_signer,
    ensures
        first_key_mismatch(seq![(accounts.timelock.key, keys.timelock), (accounts.vault_owner.key, keys.vault_owner), (accounts.payer.key, keys.payer)]) is Ok,
        first_not_writable(seq![accounts.timelock, accounts.payer]) is Ok,
        first_not_signer(seq![accounts.vault_owner, accounts.payer]) is Ok,
{
    lemma_keys_all_match(seq![(accounts.timelock.key, keys.timelock), (accounts.vault_owner.key, keys.vault_owner), (accounts.payer.key, keys.payer)]);
    lemma_all_writable(seq![accounts.timelock, accounts.payer]);
    lemma_all_signed(seq![accounts.vault_owner, accounts.payer]);
}

/// Checks each account's address against the expected one, in order;
/// the first that differs is reported as (actual, expected).
pub fn activate_verify_account_keys(accounts: ActivateAccounts, keys: ActivateKeys) -> (r: Result<(), (Pubkey, Pubkey)>)
    ensures
        r == first_key_mismatch(seq![(accounts.timelock.key, keys.timelock), (accounts.vault_owner.key, keys.vault_owner), (accounts.payer.key, keys.payer)]),
{
    let pairs = [(accounts.timelock.key, keys.timelock), (accounts.vault_owner.key, keys.vault_owner), (accounts.payer.key, keys.payer)];
    let r = check_keys(pairs.as_slice());
    assert(pairs@ =~= seq![(accounts.timelock.key, keys.timelock), (accounts.vault_owner.key, keys.vault_owner), (accounts.payer.key, keys.payer)]);
    r
}

/// Checks that the accounts the instruction writes to are writable; the first account that fails is reported.
pub fn activate_verify_writable_privileges(accounts: ActivateAccounts) -> (r: Result<(), (AccountView, ProgramError)>)
    ensures
        r == first_not_writable(seq![accounts.timelock, accounts.payer]),
{
    let list = [accounts.timelock, accounts.payer];
    let r = check_writable(list.as_slice());
    assert(list@ =~= seq![accounts.timelock, accounts.payer]);
    r
}

/// Checks that the accounts the instruction needs signatures from signed; the first account that fails is reported.
pub fn activate_verify_signer_privileges(accounts: ActivateAccounts) -> (r: Result<(), (AccountView, ProgramError)>)
    ensures
        r == first_not_signer(seq![accounts.vault_owner, accounts.payer]),
{
    let list = [accounts.vault_owner, accounts.payer];
    let r = check_signers(list.as_slice());
    assert(list@ =~= seq![accounts.vault_owner, accounts.payer]);
    r
}

/// Checks write access, then signatures.
pub fn activate_verify_account_privileges(accounts: ActivateAccounts) -> (r: Result<(), (AccountView, ProgramError)>)
    ensures
        r == (match first_not_writable(seq![accounts.timelock, accounts.payer]) {
            Err(e) => Err(e),
            Ok(()) => first_not_signer(seq![accounts.vault_owner, accounts.payer]),
        }),
{
    activate_verify_writable_privileges(accounts)?;
    activate_verify_signer_privileges(accounts)?;
    Ok(())
}

pub const DEACTIVATE_IX_ACCOUNTS_LEN: usize = 3;

/// The accounts handed to the instruction.
#[derive(Clone, Copy, Debug, PartialEq, Eq)]
pub struct DeactivateAccounts {
    pub timelock: AccountView,
    pub vault_owner: AccountView,
    pub payer: AccountView,
}

/// The addresses of the instruction's accounts.
#[derive(Clone, Copy, Debug, PartialEq, Eq)]
pub struct DeactivateKeys {
    pub timelock: Pubkey,
    pub vault_owner: Pubkey,
    pub payer: Pubkey,
}

impl DeactivateKeys {
    /// The instruction's account list: each key with the privileges the
    /// instruction asks for it.
    pub open spec fn spec_metas(self) -> Seq<AccountMeta> {
        seq![meta(self.timelock, false, true), meta(self.vault_owner, true, false), meta(self.payer, true, true)]
    }

    /// The instruction's account list.
    pub fn account_metas(&self) -> (r: [AccountMeta; DEACTIVATE_IX_ACCOUNTS_LEN])
        ensures
            r@ == self.spec_metas(),
    {
        let r = [
            AccountMeta { pubkey: self.timelock, is_signer: false, is_writable: true },
            AccountMeta { pubkey: self.vault_owner, is_signer: true, is_writable: false },
            AccountMeta { pubkey: self.payer, is_signer: true, is_writable: true },
        ];
        assert(r@ =~= self.spec_metas());
        r
    }
}

impl From<[Pubkey; DEACTIVATE_IX_ACCOUNTS_LEN]> for DeactivateKeys {
    fn from(pubkeys: [Pubkey; DEACTIVATE_IX_ACCOUNTS_LEN]) -> (r: Self) {
        DeactivateKeys { timelock: pubkeys[0], vault_owner: pubkeys[1], payer: pubkeys[2] }
    }
}

impl vstd::std_specs::convert::FromSpecImpl<[Pubkey; DEACTIVATE_IX_ACCOUNTS_LEN]> for DeactivateKeys {
    open spec fn obeys_from_spec() -> bool {
        true
    }

    open spec fn from_spec(pubkeys: [Pubkey; DEACTIVATE_IX_ACCOUNTS_LEN]) -> Self {
        DeactivateKeys { timelock: pubkeys[0], vault_owner: pubkeys[1], payer: pubkeys[2] }
    }
}

impl From<DeactivateAccounts> for DeactivateKeys {
    fn from(accounts: DeactivateAccounts) -> (r: Self) {
        DeactivateKeys { timelock: accounts.timelock.key, vault_owner: accounts.vault_owner.key, payer: accounts.payer.key }
    }
}

impl vstd::std_specs::convert::FromSpecImpl<DeactivateAccounts> for DeactivateKeys {
    open spec fn obeys_from_spec() -> bool {
        true
    }

    open spec fn from_spec(accounts: DeactivateAccounts) -> Self {
        DeactivateKeys { timelock: accounts.timelock.key, vault_owner: accounts.vault_owner.key, payer: accounts.payer.key }
    }
}

impl From<[AccountView; DEACTIVATE_IX_ACCOUNTS_LEN]> for DeactivateAccounts {
    fn from(views: [AccountView; DEACTIVATE_IX_ACCOUNTS_LEN]) -> (r: Self) {
        DeactivateAccounts { timelock: views[0], vault_owner: views[1], payer: views[2] }
    }
}

impl vstd::std_specs::convert::FromSpecImpl<[AccountView; DEACTIVATE_IX_ACCOUNTS_LEN]> for DeactivateAccounts {
    open spec fn obeys_from_spec() -> bool {
        true
    }

    open spec fn from_spec(views: [AccountView; DEACTIVATE_IX_ACCOUNTS_LEN]) -> Self {
        DeactivateAccounts { timelock: views[0], vault_owner: views[1], payer: views[2] }
    }
}

impl DeactivateAccounts {
    /// The accounts in the instruction's order.
    pub open spec fn spec_list(self) -> Seq<AccountView> {
        seq![self.timelock, self.vault_owner, self.payer]
    }
}

/// Builds the instruction for the program at `program_id`; arguments that
/// cannot be encoded are refused.
pub fn deactivate_ix_with_program_id(program_id: Pubkey, keys: DeactivateKeys, args: DeactivateIxArgs) -> (r: Result<Instruction, CodecError>)
    ensures
        args.serializable() ==> (r matches Ok(ix) && ix.program_id == program_id && ix.accounts@ == keys.spec_metas()
            && ix.data@ == DeactivateIxData(args).spec_bytes()),
        !args.serializable() ==> r == Err::<Instruction, CodecError>(CodecError::InvalidData),
{
    let metas = keys.account_metas();
    let data = DeactivateIxData(args).try_to_vec()?;
    Ok(Instruction { program_id, accounts: meta_list(metas.as_slice()), data })
}

/// Builds the instruction for the program at its own address.
pub fn deactivate_ix(keys: DeactivateKeys, args: DeactivateIxArgs) -> (r: Result<Instruction, CodecError>)
    ensures
        args.serializable() ==> (r matches Ok(ix) && ix.program_id == ID && ix.accounts@ == keys.spec_metas()
            && ix.data@ == DeactivateIxData(args).spec_bytes()),
        !args.serializable() ==> r == Err::<Instruction, CodecError>(CodecError::InvalidData),
{
    deactivate_ix_with_program_id(ID, keys, args)
}

/// An instruction built from `keys` passes the checks of its accounts when
/// each account arrives in the order of the keys with the privileges its
/// account meta asks for: every key matches, every account whose write
/// access is checked is writable and every account whose signature is
/// checked signed.
pub proof fn lemma_deactivate_metas_pass_checks(keys: DeactivateKeys, accounts: DeactivateAccounts)
    requires
        accounts.timelock.key == keys.spec_metas()[0].pubkey,
        accounts.timelock.is_writable == keys.spec_metas()[0].is_writable,
        accounts.timelock.is_signer == keys.spec_metas()[0].is_signer,
        accounts.vault_owner.key == keys.spec_metas()[1].pubkey,
        accounts.vault_owner.is_writable == keys.spec_metas()[1].is_writable,
        accounts.vault_owner.is_signer == keys.spec_metas()[1].is_signer,
        accounts.payer.key == keys.spec_metas()[2].pubkey,
        accounts.payer.is_writable == keys.spec_metas()[2].is_writable,
        accounts.payer.is_signer == keys.spec_metas()[2].is_signer,
    ensures
        first_key_mismatch(seq![(accounts.timelock.key, keys.timelock), (accounts.vault_owner.key, keys.vault_owner), (accounts.payer.key, keys.payer)]) is Ok,
        first_not_writable(seq![accounts.timelock, accounts.payer]) is Ok,
        first_not_signer(seq![accounts.vault_owner, accounts.payer]) is Ok,
{
    lemma_keys_all_match(seq![(accounts.timelock.key, keys.timelock), (accounts.vault_owner.key, keys.vault_owner), (accounts.payer.key, keys.payer)]);
    lemma_all_writable(seq![accounts.timelock, accounts.payer]);
    lemma_all_signed(seq![accounts.vault_owner, accounts.payer]);
}

/// Checks each account's address against the expected one, in order;
/// the first that differs is reported as (actual, expected).
pub fn deactivate_verify_account_keys(accounts: DeactivateAccounts, keys: DeactivateKeys) -> (r: Result<(), (Pubkey, Pubkey)>)
    ensures
        r == first_key_mismatch(seq![(accounts.timelock.key, keys.timelock), (accounts.vault_owner.key, keys.vault_owner), (accounts.payer.key, keys.payer)]),
{
    let pairs = [(accounts.timelock.key, keys.timelock), (accounts.vault_owner.key, keys.vault_owner), (accounts.payer.key, keys.payer)];
    let r = check_keys(pairs.as_slice());
    assert(pairs@ =~= seq![(accounts.timelock.key, keys.timelock), (accounts.vault_owner.key, keys.vault_owner), (accounts.payer.key, keys.payer)]);
    r
}

/// Checks that the accounts the instruction writes to are writable; the first account that fails is reported.
pub fn deactivate_verify_writable_privileges(accounts: DeactivateAccounts) -> (r: Result<(), (AccountView, ProgramError)>)
    ensures
        r == first_not_writable(seq![accounts.timelock, accounts.payer]),
{
    let list = [accounts.timelock, accounts.payer];
    let r = check_writable(list.as_slice());
    assert(list@ =~= seq![accounts.timelock, accounts.payer]);
    r
}

/// Checks that the accounts the instruction needs signatures from signed; the first account that fails is reported.
pub fn deactivate_verify_signer_privileges(accounts: DeactivateAccounts) -> (r: Result<(), (AccountView, ProgramError)>)
    ensures
        r == first_not_signer(seq![accounts.vault_owner, accounts.payer]),
{
    let list = [accounts.vault_owner, accounts.payer];
    let r = check_signers(list.as_slice());
    assert(list@ =~= seq![accounts.vault_owner, accounts.payer]);
    r
}

/// Checks write access, then signatures.
pub fn deactivate_verify_account_privileges(accounts: DeactivateAccounts) -> (r: Result<(), (AccountView, ProgramError)>)
    ensures
        r == (match first_not_writable(seq![accounts.timelock, accounts.payer]) {
            Err(e) => Err(e),
            Ok(()) => first_not_signer(seq![accounts.vault_owner, accounts.payer]),
        }),
{
    deactivate_verify_writable_privileges(accounts)?;
    deactivate_verify_signer_privileges(accounts)?;
    Ok(())
}

pub const REVOKE_LOCK_WITH_TIMEOUT_IX_ACCOUNTS_LEN: usize = 6;

/// The accounts handed to the instruction.
#[derive(Clone, Copy, Debug, PartialEq, Eq)]
pub struct RevokeLockWithTimeoutAccounts {
    pub timelock: AccountView,
    pub vault: AccountView,
    pub vault_owner: AccountView,
    pub payer: AccountView,
    pub token_program: AccountView,
    pub system_program: AccountView,
}

/// The addresses of the instruction's accounts.
#[derive(Clone, Copy, Debug, PartialEq, Eq)]
pub struct RevokeLockWithTimeoutKeys {
    pub timelock: Pubkey,
    pub vault: Pubkey,
    pub vault_owner: Pubkey,
    pub payer: Pubkey,
    pub token_program: Pubkey,
    pub system_program: Pubkey,
}

impl RevokeLockWithTimeoutKeys {
    /// The instruction's account list: each key with the privileges the
    /// instruction asks for it.
    pub open spec fn spec_metas(self) -> Seq<AccountMeta> {
        seq![meta(self.timelock, false, true), meta(self.vault, false, false), meta(self.vault_owner, true, false), meta(self.payer, true, true), meta(self.token_program, false, false), meta(self.system_program, false, false)]
    }

    /// The instruction's account list.
    pub fn account_metas(&self) -> (r: [AccountMeta; REVOKE_LOCK_WITH_TIMEOUT_IX_ACCOUNTS_LEN])
        ensures
            r@ == self.spec_metas(),
    {
        let r = [
            AccountMeta { pubkey: self.timelock, is_signer: false, is_writable: true },
            AccountMeta { pubkey: self.vault, is_signer: false, is_writable: false },
            AccountMeta { pubkey: self.vault_owner, is_signer: true, is_writable: false },
            AccountMeta { pubkey: self.payer, is_signer: true, is_writable: true },
            AccountMeta { pubkey: self.token_program, is_signer: false, is_writable: false },
            AccountMeta { pubkey: self.system_program, is_signer: false, is_writable: false },
        ];
        assert(r@ =~= self.spec_metas());
        r
    }
}

impl From<[Pubkey; REVOKE_LOCK_WITH_TIMEOUT_IX_ACCOUNTS_LEN]> for RevokeLockWithTimeoutKeys {
    fn from(pubkeys: [Pubkey; REVOKE_LOCK_WITH_TIMEOUT_IX_ACCOUNTS_LEN]) -> (r: Self) {
        RevokeLockWithTimeoutKeys { timelock: pubkeys[0], vault: pubkeys[1], vault_owner: pubkeys[2], payer: pubkeys[3], token_program: pubkeys[4], system_program: pubkeys[5] }
    }
}

impl vstd::std_specs::convert::FromSpecImpl<[Pubkey; REVOKE_LOCK_WITH_TIMEOUT_IX_ACCOUNTS_LEN]> for RevokeLockWithTimeoutKeys {
    open spec fn obeys_from_spec() -> bool {
        true
    }

    open spec fn from_spec(pubkeys: [Pubkey; REVOKE_LOCK_WITH_TIMEOUT_IX_ACCOUNTS_LEN]) -> Self {
        RevokeLockWithTimeoutKeys { timelock: pubkeys[0], vault: pubkeys[1], vault_owner: pubkeys[2], payer: pubkeys[3], token_program: pubkeys[4], system_program: pubkeys[5] }
    }
}

impl From<RevokeLockWithTimeoutAccounts> for RevokeLockWithTimeoutKeys {
    fn from(accounts: RevokeLockWithTimeoutAccounts) -> (r: Self) {
        RevokeLockWithTimeoutKeys { timelock: accounts.timelock.key, vault: accounts.vault.key, vault_owner: accounts.vault_owner.key, payer: accounts.payer.key, token_program: accounts.token_program.key, system_program: accounts.system_program.key }
    }
}

impl vstd::std_specs::convert::FromSpecImpl<RevokeLockWithTimeoutAccounts> for RevokeLockWithTimeoutKeys {
    open spec fn obeys_from_spec() -> bool {
        true
    }

    open spec fn from_spec(accounts: RevokeLockWithTimeoutAccounts) -> Self {
        RevokeLockWithTimeoutKeys { timelock: accounts.timelock.key, vault: accounts.vault.key, vault_owner: accounts.vault_owner.key, payer: accounts.payer.key, token_program: accounts.token_program.key, system_program: accounts.system_program.key }
    }
}

impl From<[AccountView; REVOKE_LOCK_WITH_TIMEOUT_IX_ACCOUNTS_LEN]> for RevokeLockWithTimeoutAccounts {
    fn from(views: [AccountView; REVOKE_LOCK_WITH_TIMEOUT_IX_ACCOUNTS_LEN]) -> (r: Self) {
        RevokeLockWithTimeoutAccounts { timelock: views[0], vault: views[1], vault_owner: views[2], payer: views[3], token_program: views[4], system_program: views[5] }
    }
}

impl vstd::std_specs::convert::FromSpecImpl<[AccountView; REVOKE_LOCK_WITH_TIMEOUT_IX_ACCOUNTS_LEN]> for RevokeLockWithTimeoutAccounts {
    open spec fn obeys_from_spec() -> bool {
        true
    }

    open spec fn from_spec(views: [AccountView; REVOKE_LOCK_WITH_TIMEOUT_IX_ACCOUNTS_LEN]) -> Self {
        RevokeLockWithTimeoutAccounts { timelock: views[0], vault: views[1], vault_owner: views[2], payer: views[3], token_program: views[4], system_program: views[5] }
    }
}

impl RevokeLockWithTimeoutAccounts {
    /// The accounts in the instruction's order.
    pub open spec fn spec_list(self) -> Seq<AccountView> {
        seq![self.timelock, self.vault, self.vault_owner, self.payer, self.token_program, self.system_program]
    }
}

/// Builds the instruction for the program at `program_id`; arguments that
/// cannot be encoded are refused.
pub fn revoke_lock_with_timeout_ix_with_program_id(program_id: Pubkey, keys: RevokeLockWithTimeoutKeys, args: RevokeLockWithTimeoutIxArgs) -> (r: Result<Instruction, CodecError>)
    ensures
        args.serializable() ==> (r matches Ok(ix) && ix.program_id == program_id && ix.accounts@ == keys.spec_metas()
            && ix.data@ == RevokeLockWithTimeoutIxData(args).spec_bytes()),
        !args.serializable() ==> r == Err::<Instruction, CodecError>(CodecError::InvalidData),
{
    let metas = keys.account_metas();
    let data = RevokeLockWithTimeoutIxData(args).try_to_vec()?;
    Ok(Instruction { program_id, accounts: meta_list(metas.as_slice()), data })
}

/// Builds the instruction for the program at its own address.
pub fn revoke_lock_with_timeout_ix(keys: RevokeLockWithTimeoutKeys, args: RevokeLockWithTimeoutIxArgs) -> (r: Result<Instruction, CodecError>)
    ensures
        args.serializable() ==> (r matches Ok(ix) && ix.program_id == ID && ix.accounts@ == keys.spec_metas()
            && ix.data@ == RevokeLockWithTimeoutIxData(args).spec_bytes()),
        !args.serializable() ==> r == Err::<Instruction, CodecError>(CodecError::InvalidData),
{
    revoke_lock_with_timeout_ix_with_program_id(ID, keys, args)
}

/// An instruction built from `keys` passes the checks of its accounts when
/// each account arrives in the order of the keys with the privileges its
/// account meta asks for: every key matches, every account whose write
/// access is checked is writable and every account whose signature is
/// checked signed.
pub proof fn lemma_revoke_lock_with_timeout_metas_pass_checks(keys: RevokeLockWithTimeoutKeys, accounts: RevokeLockWithTimeoutAccounts)
    requires
        accounts.timelock.key == keys.spec_metas()[0].pubkey,
        accounts.timelock.is_writable == keys.spec_metas()[0].is_writable,
        accounts.timelock.is_signer == keys.spec_metas()[0].is_signer,
        accounts.vault.key == keys.spec_metas()[1].pubkey,
        accounts.vault.is_writable == keys.spec_metas()[1].is_writable,
        accounts.vault.is_signer == keys.spec_metas()[1].is_signer,
        accounts.vault_owner.key == keys.spec_metas()[2].pubkey,
        accounts.vault_owner.is_writable == keys.spec_metas()[2].is_writable,
        accounts.vault_owner.is_signer == keys.spec_metas()[2].is_signer,
        accounts.payer.key == keys.spec_metas()[3].pubkey,
        accounts.payer.is_writable == keys.spec_metas()[3].is_writable,
        accounts.payer.is_signer == keys.spec_metas()[3].is_signer,
        accounts.token_program.key == keys.spec_metas()[4].pubkey,
        accounts.token_program.is_writable == keys.spec_metas()[4].is_writable,
        accounts.token_program.is_signer == keys.spec_metas()[4].is_signer,
        accounts.system_program.key == keys.spec_metas()[5].pubkey,
        accounts.system_program.is_writable == keys.spec_metas()[5].is_writable,
        accounts.system_program.is_signer == keys.spec_metas()[5].is_signer,
    ensures
        first_key_mismatch(seq![(accounts.timelock.key, keys.timelock), (accounts.vault.key, keys.vault), (accounts.vault_owner.key, keys.vault_owner), (accounts.payer.key, keys.payer), (accounts.token_program.key, keys.token_program), (accounts.system_program.key, keys.system_program)]) is Ok,
        first_not_writable(seq![accounts.timelock, accounts.payer]) is Ok,
        first_not_signer(seq![accounts.vault_owner, accounts.payer]) is Ok,
{
    lemma_keys_all_match(seq![(accounts.timelock.key, keys.timelock), (accounts.vault.key, keys.vault), (accounts.vault_owner.key, keys.vault_owner), (accounts.payer.key, keys.payer), (accounts.token_program.key, keys.token_program), (accounts.system_program.key, keys.system_program)]);
    lemma_all_writable(seq![accounts.timelock, accounts.payer]);
    lemma_all_signed(seq![accounts.vault_owner, accounts.payer]);
}

/// Checks each account's address against the expected one, in order;
/// the first that differs is reported as (actual, expected).
pub fn revoke_lock_with_timeout_verify_account_keys(accounts: RevokeLockWithTimeoutAccounts, keys: RevokeLockWithTimeoutKeys) -> (r: Result<(), (Pubkey, Pubkey)>)
    ensures
        r == first_key_mismatch(seq![(accounts.timelock.key, keys.timelock), (accounts.vault.key, keys.vault), (accounts.vault_owner.key, keys.vault_owner), (accounts.payer.key, keys.payer), (accounts.token_program.key, keys.token_program), (accounts.system_program.key, keys.system_program)]),
{
    let pairs = [(accounts.timelock.key, keys.timelock), (accounts.vault.key, keys.vault), (accounts.vault_owner.key, keys.vault_owner), (accounts.payer.key, keys.payer), (accounts.token_program.key, keys.token_program), (accounts.system_program.key, keys.system_program)];
    let r = check_keys(pairs.as_slice());
    assert(pairs@ =~= seq![(accounts.timelock.key, keys.timelock), (accounts.vault.key, keys.vault), (accounts.vault_owner.key, keys.vault_owner), (accounts.payer.key, keys.payer), (accounts.token_program.key, keys.token_program), (accounts.system_program.key, keys.system_program)]);
    r
}

/// Checks that the accounts the instruction writes to are writable; the first account that fails is reported.
pub fn revoke_lock_with_timeout_verify_writable_privileges(accounts: RevokeLockWithTimeoutAccounts) -> (r: Result<(), (AccountView, ProgramError)>)
    ensures
        r == first_not_writable(seq![accounts.timelock, accounts.payer]),
{
    let list = [accounts.timelock, accounts.payer];
    let r = check_writable(list.as_slice());
    assert(list@ =~= seq![accounts.timelock, accounts.payer]);
    r
}

/// Checks that the accounts the instruction needs signatures from signed; the first account that fails is reported.
pub fn revoke_lock_with_timeout_verify_signer_privileges(accounts: RevokeLockWithTimeoutAccounts) -> (r: Result<(), (AccountView, ProgramError)>)
    ensures
        r == first_not_signer(seq![accounts.vault_owner, accounts.payer]),
{
    let list = [accounts.vault_owner, accounts.payer];
    let r = check_signers(list.as_slice());
    assert(list@ =~= seq![accounts.vault_owner, accounts.payer]);
    r
}

/// Checks write access, then signatures.
pub fn revoke_lock_with_timeout_verify_account_privileges(accounts: RevokeLockWithTimeoutAccounts) -> (r: Result<(), (AccountView, ProgramError)>)
    ensures
        r == (match first_not_writable(seq![accounts.timelock, accounts.payer]) {
            Err(e) => Err(e),
            Ok(()) => first_not_signer(seq![accounts.vault_owner, accounts.payer]),
        }),
{
    revoke_lock_with_timeout_verify_writable_privileges(accounts)?;
    revoke_lock_with_timeout_verify_signer_privileges(accounts)?;
    Ok(())
}

pub const REVOKE_LOCK_WITH_AUTHORITY_IX_ACCOUNTS_LEN: usize = 6;

/// The accounts handed to the instruction.
#[derive(Clone, Copy, Debug, PartialEq, Eq)]
pub struct RevokeLockWithAuthorityAccounts {
    pub timelock: AccountView,
    pub vault: AccountView,
    pub time_authority: AccountView,
    pub payer: AccountView,
    pub token_program: AccountView,
    pub system_program: AccountView,
}

/// The addresses of the instruction's accounts.
#[derive(Clone, Copy, Debug, PartialEq, Eq)]
pub struct RevokeLockWithAuthorityKeys {
    pub timelock: Pubkey,
    pub vault: Pubkey,
    pub time_authority: Pubkey,
    pub payer: Pubkey,
    pub token_program: Pubkey,
    pub system_program: Pubkey,
}

impl RevokeLockWithAuthorityKeys {
    /// The instruction's account list: each key with the privileges the
    /// instruction asks for it.
    pub open spec fn spec_metas(self) -> Seq<AccountMeta> {
        seq![meta(self.timelock, false, true), meta(self.vault, false, false), meta(self.time_authority, true, false), meta(self.payer, true, true), meta(self.token_program, false, false), meta(self.system_program, false, false)]
    }

    /// The instruction's account list.
    pub fn account_metas(&self) -> (r: [AccountMeta; REVOKE_LOCK_WITH_AUTHORITY_IX_ACCOUNTS_LEN])
        ensures
            r@ == self.spec_metas(),
    {
        let r = [
            AccountMeta { pubkey: self.timelock, is_signer: false, is_writable: true },
            AccountMeta { pubkey: self.vault, is_signer: false, is_writable: false },
            AccountMeta { pubkey: self.time_authority, is_signer: true, is_writable: false },
            AccountMeta { pubkey: self.payer, is_signer: true, is_writable: true },
            AccountMeta { pubkey: self.token_program, is_signer: false, is_writable: false },
            AccountMeta { pubkey: self.system_program, is_signer: false, is_writable: false },
        ];
        assert(r@ =~= self.spec_metas());
        r
    }
}

impl From<[Pubkey; REVOKE_LOCK_WITH_AUTHORITY_IX_ACCOUNTS_LEN]> for RevokeLockWithAuthorityKeys {
    fn from(pubkeys: [Pubkey; REVOKE_LOCK_WITH_AUTHORITY_IX_ACCOUNTS_LEN]) -> (r: Self) {
        RevokeLockWithAuthorityKeys { timelock: pubkeys[0], vault: pubkeys[1], time_authority: pubkeys[2], payer: pubkeys[3], token_program: pubkeys[4], system_program: pubkeys[5] }
    }
}

impl vstd::std_specs::convert::FromSpecImpl<[Pubkey; REVOKE_LOCK_WITH_AUTHORITY_IX_ACCOUNTS_LEN]> for RevokeLockWithAuthorityKeys {
    open spec fn obeys_from_spec() -> bool {
        true
    }

    open spec fn from_spec(pubkeys: [Pubkey; REVOKE_LOCK_WITH_AUTHORITY_IX_ACCOUNTS_LEN]) -> Self {
        RevokeLockWithAuthorityKeys { timelock: pubkeys[0], vault: pubkeys[1], time_authority: pubkeys[2], payer: pubkeys[3], token_program: pubkeys[4], system_program: pubkeys[5] }
    }
}

impl From<RevokeLockWithAuthorityAccounts> for RevokeLockWithAuthorityKeys {
    fn from(accounts: RevokeLockWithAuthorityAccounts) -> (r: Self) {
        RevokeLockWithAuthorityKeys { timelock: accounts.timelock.key, vault: accounts.vault.key, time_authority: accounts.time_authority.key, payer: accounts.payer.key, token_program: accounts.token_program.key, system_program: accounts.system_program.key }
    }
}

impl vstd::std_specs::convert::FromSpecImpl<RevokeLockWithAuthorityAccounts> for RevokeLockWithAuthorityKeys {
    open spec fn obeys_from_spec() -> bool {
        true
    }

    open spec fn from_spec(accounts: RevokeLockWithAuthorityAccounts) -> Self {
        RevokeLockWithAuthorityKeys { timelock: accounts.timelock.key, vault: accounts.vault.key, time_authority: accounts.time_authority.key, payer: accounts.payer.key, token_program: accounts.token_program.key, system_program: accounts.system_program.key }
    }
}

impl From<[AccountView; REVOKE_LOCK_WITH_AUTHORITY_IX_ACCOUNTS_LEN]> for RevokeLockWithAuthorityAccounts {
    fn from(views: [AccountView; REVOKE_LOCK_WITH_AUTHORITY_IX_ACCOUNTS_LEN]) -> (r: Self) {
        RevokeLockWithAuthorityAccounts { timelock: views[0], vault: views[1], time_authority: views[2], payer: views[3], token_program: views[4], system_program: views[5] }
    }
}

impl vstd::std_specs::convert::FromSpecImpl<[AccountView; REVOKE_LOCK_WITH_AUTHORITY_IX_ACCOUNTS_LEN]> for RevokeLockWithAuthorityAccounts {
    open spec fn obeys_from_spec() -> bool {
        true
    }

    open spec fn from_spec(views: [AccountView; REVOKE_LOCK_WITH_AUTHORITY_IX_ACCOUNTS_LEN]) -> Self {
        RevokeLockWithAuthorityAccounts { timelock: views[0], vault: views[1], time_authority: views[2], payer: views[3], token_program: views[4], system_program: views[5] }
    }
}

impl RevokeLockWithAuthorityAccounts {
    /// The accounts in the instruction's order.
    pub open spec fn spec_list(self) -> Seq<AccountView> {
        seq![self.timelock, self.vault, self.time_authority, self.payer, self.token_program, self.system_program]
    }
}

/// Builds the instruction for the program at `program_id`; arguments that
/// cannot be encoded are refused.
pub fn revoke_lock_with_authority_ix_with_program_id(program_id: Pubkey, keys: RevokeLockWithAuthorityKeys, args: RevokeLockWithAuthorityIxArgs) -> (r: Result<Instruction, CodecError>)
    ensures
        args.serializable() ==> (r matches Ok(ix) && ix.program_id == program_id && ix.accounts@ == keys.spec_metas()
            && ix.data@ == RevokeLockWithAuthorityIxData(args).spec_bytes()),
        !args.serializable() ==> r == Err::<Instruction, CodecError>(CodecError::InvalidData),
{
    let metas = keys.account_metas();
    let data = RevokeLockWithAuthorityIxData(args).try_to_vec()?;
    Ok(Instruction { program_id, accounts: meta_list(metas.as_slice()), data })
}

/// Builds the instruction for the program at its own address.
pub fn revoke_lock_with_authority_ix(keys: RevokeLockWithAuthorityKeys, args: RevokeLockWithAuthorityIxArgs) -> (r: Result<Instruction, CodecError>)
    ensures
        args.serializable() ==> (r matches Ok(ix) && ix.program_id == ID && ix.accounts@ == keys.spec_metas()
            && ix.data@ == RevokeLockWithAuthorityIxData(args).spec_bytes()),
        !args.serializable() ==> r == Err::<Instruction, CodecError>(CodecError::InvalidData),
{
    revoke_lock_with_authority_ix_with_program_id(ID, keys, args)
}

/// An instruction built from `keys` passes the checks of its accounts when
/// each account arrives in the order of the keys with the privileges its
/// account meta asks for: every key matches, every account whose write
/// access is checked is writable and every account whose signature is
/// checked signed.
pub proof fn lemma_revoke_lock_with_authority_metas_pass_checks(keys: RevokeLockWithAuthorityKeys, accounts: RevokeLockWithAuthorityAccounts)
    requires
        accounts.timelock.key == keys.spec_metas()[0].pubkey,
        accounts.timelock.is_writable == keys.spec_metas()[0].is_writable,
        accounts.timelock.is_signer == keys.spec_metas()[0].is_signer,
        accounts.vault.key == keys.spec_metas()[1].pubkey,
        accounts.vault.is_writable == keys.spec_metas()[1].is_writable,
        accounts.vault.is_signer == keys.spec_metas()[1].is_signer,
        accounts.time_authority.key == keys.spec_metas()[2].pubkey,
        accounts.time_authority.is_writable == keys.spec_metas()[2].is_writable,
        accounts.time_authority.is_signer == keys.spec_metas()[2].is_signer,
        accounts.payer.key == keys.spec_metas()[3].pubkey,
        accounts.payer.is_writable == keys.spec_metas()[3].is_writable,
        accounts.payer.is_signer == keys.spec_metas()[3].is_signer,
        accounts.token_program.key == keys.spec_metas()[4].pubkey,
        accounts.token_program.is_writable == keys.spec_metas()[4].is_writable,
        accounts.token_program.is_signer == keys.spec_metas()[4].is_signer,
        accounts.system_program.key == keys.spec_metas()[5].pubkey,
        accounts.system_program.is_writable == keys.spec_metas()[5].is_writable,
        accounts.system_program.is_signer == keys.spec_metas()[5].is_signer,
    ensures
        first_key_mismatch(seq![(accounts.timelock.key, keys.timelock), (accounts.vault.key, keys.vault), (accounts.time_authority.key, keys.time_authority), (accounts.payer.key, keys.payer), (accounts.token_program.key, keys.token_program), (accounts.system_program.key, keys.system_program)]) is Ok,
        first_not_writable(seq![accounts.timelock, accounts.payer]) is Ok,
        first_not_signer(seq![accounts.time_authority, accounts.payer]) is Ok,
{
    lemma_keys_all_match(seq![(accounts.timelock.key, keys.timelock), (accounts.vault.key, keys.vault), (accounts.time_authority.key, keys.time_authority), (accounts.payer.key, keys.payer), (accounts.token_program.key, keys.token_program), (accounts.system_program.key, keys.system_program)]);
    lemma_all_writable(seq![accounts.timelock, accounts.payer]);
    lemma_all_signed(seq![accounts.time_authority, accounts.payer]);
}

/// Checks each account's address against the expected one, in order;
/// the first that differs is reported as (actual, expected).
pub fn revoke_lock_with_authority_verify_account_keys(accounts: RevokeLockWithAuthorityAccounts, keys: RevokeLockWithAuthorityKeys) -> (r: Result<(), (Pubkey, Pubkey)>)
    ensures
        r == first_key_mismatch(seq![(accounts.timelock.key, keys.timelock), (accounts.vault.key, keys.vault), (accounts.time_authority.key, keys.time_authority), (accounts.payer.key, keys.payer), (accounts.token_program.key, keys.token_program), (accounts.system_program.key, keys.system_program)]),
{
    let pairs = [(accounts.timelock.key, keys.timelock), (accounts.vault.key, keys.vault), (accounts.time_authority.key, keys.time_authority), (accounts.payer.key, keys.payer), (accounts.token_program.key, keys.token_program), (accounts.system_program.key, keys.system_program)];
    let r = check_keys(pairs.as_slice());
    assert(pairs@ =~= seq![(accounts.timelock.key, keys.timelock), (accounts.vault.key, keys.vault), (accounts.time_authority.key, keys.time_authority), (accounts.payer.key, keys.payer), (accounts.token_program.key, keys.token_program), (accounts.system_program.key, keys.system_program)]);
    r
}

/// Checks that the accounts the instruction writes to are writable; the first account that fails is reported.
pub fn revoke_lock_with_authority_verify_writable_privileges(accounts: RevokeLockWithAuthorityAccounts) -> (r: Result<(), (AccountView, ProgramError)>)
    ensures
        r == first_not_writable(seq![accounts.timelock, accounts.payer]),
{
    let list = [accounts.timelock, accounts.payer];
    let r = check_writable(list.as_slice());
    assert(list@ =~= seq![accounts.timelock, accounts.payer]);
    r
}

/// Checks that the accounts the instruction needs signatures from signed; the first account that fails is reported.
pub fn revoke_lock_with_authority_verify_signer_privileges(accounts: RevokeLockWithAuthorityAccounts) -> (r: Result<(), (AccountView, ProgramError)>)
    ensures
        r == first_not_signer(seq![accounts.time_authority, accounts.payer]),
{
    let list = [accounts.time_authority, accounts.payer];
    let r = check_signers(list.as_slice());
    assert(list@ =~= seq![accounts.time_authority, accounts.payer]);
    r
}

/// Checks write access, then signatures.
pub fn revoke_lock_with_authority_verify_account_privileges(accounts: RevokeLockWithAuthorityAccounts) -> (r: Result<(), (AccountView, ProgramError)>)
    ensures
        r == (match first_not_writable(seq![accounts.timelock, accounts.payer]) {
            Err(e) => Err(e),
            Ok(()) => first_not_signer(seq![accounts.time_authority, accounts.payer]),
        }),
{
    revoke_lock_with_authority_verify_writable_privileges(accounts)?;
    revoke_lock_with_authority_verify_signer_privileges(accounts)?;
    Ok(())
}

pub const CANCEL_LOCK_TIMEOUT_IX_ACCOUNTS_LEN: usize = 4;

/// The accounts handed to the instruction.
#[derive(Clone, Copy, Debug, PartialEq, Eq)]
pub struct CancelLockTimeoutAccounts {
    pub timelock: AccountView,
    pub time_authority: AccountView,
    pub payer: AccountView,
    pub system_program: AccountView,
}

/// The addresses of the instruction's accounts.
#[derive(Clone, Copy, Debug, PartialEq, Eq)]
pub struct CancelLockTimeoutKeys {
    pub timelock: Pubkey,
    pub time_authority: Pubkey,
    pub payer: Pubkey,
    pub system_program: Pubkey,
}

impl CancelLockTimeoutKeys {
    /// The instruction's account list: each key with the privileges the
    /// instruction asks for it.
    pub open spec fn spec_metas(self) -> Seq<AccountMeta> {
        seq![meta(self.timelock, false, true), meta(self.time_authority, true, false), meta(self.payer, true, true), meta(self.system_program, false, false)]
    }

    /// The instruction's account list.
    pub fn account_metas(&self) -> (r: [AccountMeta; CANCEL_LOCK_TIMEOUT_IX_ACCOUNTS_LEN])
        ensures
            r@ == self.spec_metas(),
    {
        let r = [
            AccountMeta { pubkey: self.timelock, is_signer: false, is_writable: true },
            AccountMeta { pubkey: self.time_authority, is_signer: true, is_writable: false },
            AccountMeta { pubkey: self.payer, is_signer: true, is_writable: true },
            AccountMeta { pubkey: self.system_program, is_signer: false, is_writable: false },
        ];
        assert(r@ =~= self.spec_metas());
        r
    }
}

impl From<[Pubkey; CANCEL_LOCK_TIMEOUT_IX_ACCOUNTS_LEN]> for CancelLockTimeoutKeys {
    fn from(pubkeys: [Pubkey; CANCEL_LOCK_TIMEOUT_IX_ACCOUNTS_LEN]) -> (r: Self) {
        CancelLockTimeoutKeys { timelock: pubkeys[0], time_authority: pubkeys[1], payer: pubkeys[2], system_program: pubkeys[3] }
    }
}

impl vstd::std_specs::convert::FromSpecImpl<[Pubkey; CANCEL_LOCK_TIMEOUT_IX_ACCOUNTS_LEN]> for CancelLockTimeoutKeys {
    open spec fn obeys_from_spec() -> bool {
        true
    }

    open spec fn from_spec(pubkeys: [Pubkey; CANCEL_LOCK_TIMEOUT_IX_ACCOUNTS_LEN]) -> Self {
        CancelLockTimeoutKeys { timelock: pubkeys[0], time_authority: pubkeys[1], payer: pubkeys[2], system_program: pubkeys[3] }
    }
}

impl From<CancelLockTimeoutAccounts> for CancelLockTimeoutKeys {
    fn from(accounts: CancelLockTimeoutAccounts) -> (r: Self) {
        CancelLockTimeoutKeys { timelock: accounts.timelock.key, time_authority: accounts.time_authority.key, payer: accounts.payer.key, system_program: accounts.system_program.key }
    }
}

impl vstd::std_specs::convert::FromSpecImpl<CancelLockTimeoutAccounts> for CancelLockTimeoutKeys {
    open spec fn obeys_from_spec() -> bool {
        true
    }

    open spec fn from_spec(accounts: CancelLockTimeoutAccounts) -> Self {
        CancelLockTimeoutKeys { timelock: accounts.timelock.key, time_authority: accounts.time_authority.key, payer: accounts.payer.key, system_program: accounts.system_program.key }
    }
}

impl From<[AccountView; CANCEL_LOCK_TIMEOUT_IX_ACCOUNTS_LEN]> for CancelLockTimeoutAccounts {
    fn from(views: [AccountView; CANCEL_LOCK_TIMEOUT_IX_ACCOUNTS_LEN]) -> (r: Self) {
        CancelLockTimeoutAccounts { timelock: views[0], time_authority: views[1], payer: views[2], system_program: views[3] }
    }
}

impl vstd::std_specs::convert::FromSpecImpl<[AccountView; CANCEL_LOCK_TIMEOUT_IX_ACCOUNTS_LEN]> for CancelLockTimeoutAccounts {
    open spec fn obeys_from_spec() -> bool {
        true
    }

    open spec fn from_spec(views: [AccountView; CANCEL_LOCK_TIMEOUT_IX_ACCOUNTS_LEN]) -> Self {
        CancelLockTimeoutAccounts { timelock: views[0], time_authority: views[1], payer: views[2], system_program: views[3] }
    }
}

impl CancelLockTimeoutAccounts {
    /// The accounts in the instruction's order.
    pub open spec fn spec_list(self) -> Seq<AccountView> {
        seq![self.timelock, self.time_authority, self.payer, self.system_program]
    }
}

/// Builds the instruction for the program at `program_id`; arguments that
/// cannot be encoded are refused.
pub fn cancel_lock_timeout_ix_with_program_id(program_id: Pubkey, keys: CancelLockTimeoutKeys, args: CancelLockTimeoutIxArgs) -> (r: Result<Instruction, CodecError>)
    ensures
        args.serializable() ==> (r matches Ok(ix) && ix.program_id == program_id && ix.accounts@ == keys.spec_metas()
            && ix.data@ == CancelLockTimeoutIxData(args).spec_bytes()),
        !args.serializable() ==> r == Err::<Instruction, CodecError>(CodecError::InvalidData),
{
    let metas = keys.account_metas();
    let data = CancelLockTimeoutIxData(args).try_to_vec()?;
    Ok(Instruction { program_id, accounts: meta_list(metas.as_slice()), data })
}

/// Builds the instruction for the program at its own address.
pub fn cancel_lock_timeout_ix(keys: CancelLockTimeoutKeys, args: CancelLockTimeoutIxArgs) -> (r: Result<Instruction, CodecError>)
    ensures
        args.serializable() ==> (r matches Ok(ix) && ix.program_id == ID && ix.accounts@ == keys.spec_metas()
            && ix.data@ == CancelLockTimeoutIxData(args).spec_bytes()),
        !args.serializable() ==> r == Err::<Instruction, CodecError>(CodecError::InvalidData),
{
    cancel_lock_timeout_ix_with_program_id(ID, keys, args)
}

/// An instruction built from `keys` passes the checks of its accounts when
/// each account arrives in the order of the keys with the privileges its
/// account meta asks for: every key matches, every account whose write
/// access is checked is writable and every account whose signature is
/// checked signed.
pub proof fn lemma_cancel_lock_timeout_metas_pass_checks(keys: CancelLockTimeoutKeys, accounts: CancelLockTimeoutAccounts)
    requires
        accounts.timelock.key == keys.spec_metas()[0].pubkey,
        accounts.timelock.is_writable == keys.spec_metas()[0].is_writable,
        accounts.timelock.is_signer == keys.spec_metas()[0].is_signer,
        accounts.time_authority.key == keys.spec_metas()[1].pubkey,
        accounts.time_authority.is_writable == keys.spec_metas()[1].is_writable,
        accounts.time_authority.is_signer == keys.spec_metas()[1].is_signer,
        accounts.payer.key == keys.spec_metas()[2].pubkey,
        accounts.payer.is_writable == keys.spec_metas()[2].is_writable,
        accounts.payer.is_signer == keys.spec_metas()[2].is_signer,
        accounts.system_program.key == keys.spec_metas()[3].pubkey,
        accounts.system_program.is_writable == keys.spec_metas()[3].is_writable,
        accounts.system_program.is_signer == keys.spec_metas()[3].is_signer,
    ensures
        first_key_mismatch(seq![(accounts.timelock.key, keys.timelock), (accounts.time_authority.key, keys.time_authority), (accounts.payer.key, keys.payer), (accounts.system_program.key, keys.system_program)]) is Ok,
        first_not_writable(seq![accounts.timelock, accounts.payer]) is Ok,
        first_not_signer(seq![accounts.time_authority, accounts.payer]) is Ok,
{
    lemma_keys_all_match(seq![(accounts.timelock.key, keys.timelock), (accounts.time_authority.key, keys.time_authority), (accounts.payer.key, keys.payer), (accounts.system_program.key, keys.system_program)]);
    lemma_all_writable(seq![accounts.timelock, accounts.payer]);
    lemma_all_signed(seq![accounts.time_authority, accounts.payer]);
}

/// Checks each account's address against the expected one, in order;
/// the first that differs is reported as (actual, expected).
pub fn cancel_lock_timeout_verify_account_keys(accounts: CancelLockTimeoutAccounts, keys: CancelLockTimeoutKeys) -> (r: Result<(), (Pubkey, Pubkey)>)
    ensures
        r == first_key_mismatch(seq![(accounts.timelock.key, keys.timelock), (accounts.time_authority.key, keys.time_authority), (accounts.payer.key, keys.payer), (accounts.system_program.key, keys.system_program)]),
{
    let pairs = [(accounts.timelock.key, keys.timelock), (accounts.time_authority.key, keys.time_authority), (accounts.payer.key, keys.payer), (accounts.system_program.key, keys.system_program)];
    let r = check_keys(pairs.as_slice());
    assert(pairs@ =~= seq![(accounts.timelock.key, keys.timelock), (accounts.time_authority.key, keys.time_authority), (accounts.payer.key, keys.payer), (accounts.system_program.key, keys.system_program)]);
    r
}

/// Checks that the accounts the instruction writes to are writable; the first account that fails is reported.
pub fn cancel_lock_timeout_verify_writable_privileges(accounts: CancelLockTimeoutAccounts) -> (r: Result<(), (AccountView, ProgramError)>)
    ensures
        r == first_not_writable(seq![accounts.timelock, accounts.payer]),
{
    let list = [accounts.timelock, accounts.payer];
    let r = check_writable(list.as_slice());
    assert(list@ =~= seq![accounts.timelock, accounts.payer]);
    r
}

/// Checks that the accounts the instruction needs signatures from signed; the first account that fails is reported.
pub fn cancel_lock_timeout_verify_signer_privileges(accounts: CancelLockTimeoutAccounts) -> (r: Result<(), (AccountView, ProgramError)>)
    ensures
        r == first_not_signer(seq![accounts.time_authority, accounts.payer]),
{
    let list = [accounts.time_authority, accounts.payer];
    let r = check_signers(list.as_slice());
    assert(list@ =~= seq![accounts.time_authority, accounts.payer]);
    r
}

/// Checks write access, then signatures.
pub fn cancel_lock_timeout_verify_account_privileges(accounts: CancelLockTimeoutAccounts) -> (r: Result<(), (AccountView, ProgramError)>)
    ensures
        r == (match first_not_writable(seq![accounts.timelock, accounts.payer]) {
            Err(e) => Err(e),
            Ok(()) => first_not_signer(seq![accounts.time_authority, accounts.payer]),
        }),
{
    cancel_lock_timeout_verify_writable_privileges(accounts)?;
    cancel_lock_timeout_verify_signer_privileges(accounts)?;
    Ok(())
}

pub const TRANSFER_WITH_AUTHORITY_IX_ACCOUNTS_LEN: usize = 8;

/// The accounts handed to the instruction.
#[derive(Clone, Copy, Debug, PartialEq, Eq)]
pub struct TransferWithAuthorityAccounts {
    pub timelock: AccountView,
    pub vault: AccountView,
    pub vault_owner: AccountView,
    pub time_authority: AccountView,
    pub destination: AccountView,
    pub payer: AccountView,
    pub token_program: AccountView,
    pub system_program: AccountView,
}

/// The addresses of the instruction's accounts.
#[derive(Clone, Copy, Debug, PartialEq, Eq)]
pub struct TransferWithAuthorityKeys {
    pub timelock: Pubkey,
    pub vault: Pubkey,
    pub vault_owner: Pubkey,
    pub time_authority: Pubkey,
    pub destination: Pubkey,
    pub payer: Pubkey,
    pub token_program: Pubkey,
    pub system_program: Pubkey,
}

impl TransferWithAuthorityKeys {
    /// The instruction's account list: each key with the privileges the
    /// instruction asks for it.
    pub open spec fn spec_metas(self) -> Seq<AccountMeta> {
        seq![meta(self.timelock, false, false), meta(self.vault, false, true), meta(self.vault_owner, true, false), meta(self.time_authority, true, false), meta(self.destination, false, true), meta(self.payer, true, true), meta(self.token_program, false, false), meta(self.system_program, false, false)]
    }

    /// The instruction's account list.
    pub fn account_metas(&self) -> (r: [AccountMeta; TRANSFER_WITH_AUTHORITY_IX_ACCOUNTS_LEN])
        ensures
            r@ == self.spec_metas(),
    {
        let r = [
            AccountMeta { pubkey: self.timelock, is_signer: false, is_writable: false },
            AccountMeta { pubkey: self.vault, is_signer: false, is_writable: true },
            AccountMeta { pubkey: self.vault_owner, is_signer: true, is_writable: false },
            AccountMeta { pubkey: self.time_authority, is_signer: true, is_writable: false },
            AccountMeta { pubkey: self.destination, is_signer: false, is_writable: true },
            AccountMeta { pubkey: self.payer, is_signer: true, is_writable: true },
            AccountMeta { pubkey: self.token_program, is_signer: false, is_writable: false },
            AccountMeta { pubkey: self.system_program, is_signer: false, is_writable: false },
        ];
        assert(r@ =~= self.spec_metas());
        r
    }
}

impl From<[Pubkey; TRANSFER_WITH_AUTHORITY_IX_ACCOUNTS_LEN]> for TransferWithAuthorityKeys {
    fn from(pubkeys: [Pubkey; TRANSFER_WITH_AUTHORITY_IX_ACCOUNTS_LEN]) -> (r: Self) {
        TransferWithAuthorityKeys { timelock: pubkeys[0], vault: pubkeys[1], vault_owner: pubkeys[2], time_authority: pubkeys[3], destination: pubkeys[4], payer: pubkeys[5], token_program: pubkeys[6], system_program: pubkeys[7] }
    }
}

impl vstd::std_specs::convert::FromSpecImpl<[Pubkey; TRANSFER_WITH_AUTHORITY_IX_ACCOUNTS_LEN]> for TransferWithAuthorityKeys {
    open spec fn obeys_from_spec() -> bool {
        true
    }

    open spec fn from_spec(pubkeys: [Pubkey; TRANSFER_WITH_AUTHORITY_IX_ACCOUNTS_LEN]) -> Self {
        TransferWithAuthorityKeys { timelock: pubkeys[0], vault: pubkeys[1], vault_owner: pubkeys[2], time_authority: pubkeys[3], destination: pubkeys[4], payer: pubkeys[5], token_program: pubkeys[6], system_program: pubkeys[7] }
    }
}

impl From<TransferWithAuthorityAccounts> for TransferWithAuthorityKeys {
    fn from(accounts: TransferWithAuthorityAccounts) -> (r: Self) {
        TransferWithAuthorityKeys { timelock: accounts.timelock.key, vault: accounts.vault.key, vault_owner: accounts.vault_owner.key, time_authority: accounts.time_authority.key, destination: accounts.destination.key, payer: accounts.payer.key, token_program: accounts.token_program.key, system_program: accounts.system_program.key }
    }
}

impl vstd::std_specs::convert::FromSpecImpl<TransferWithAuthorityAccounts> for TransferWithAuthorityKeys {
    open spec fn obeys_from_spec() -> bool {
        true
    }

    open spec fn from_spec(accounts: TransferWithAuthorityAccounts) -> Self {
        TransferWithAuthorityKeys { timelock: accounts.timelock.key, vault: accounts.vault.key, vault_owner: accounts.vault_owner.key, time_authority: accounts.time_authority.key, destination: accounts.destination.key, payer: accounts.payer.key, token_program: accounts.token_program.key, system_program: accounts.system_program.key }
    }
}

impl From<[AccountView; TRANSFER_WITH_AUTHORITY_IX_ACCOUNTS_LEN]> for TransferWithAuthorityAccounts {
    fn from(views: [AccountView; TRANSFER_WITH_AUTHORITY_IX_ACCOUNTS_LEN]) -> (r: Self) {
        TransferWithAuthorityAccounts { timelock: views[0], vault: views[1], vault_owner: views[2], time_authority: views[3], destination: views[4], payer: views[5], token_program: views[6], system_program: views[7] }
    }
}

impl vstd::std_specs::convert::FromSpecImpl<[AccountView; TRANSFER_WITH_AUTHORITY_IX_ACCOUNTS_LEN]> for TransferWithAuthorityAccounts {
    open spec fn obeys_from_spec() -> bool {
        true
    }

    open spec fn from_spec(views: [AccountView; TRANSFER_WITH_AUTHORITY_IX_ACCOUNTS_LEN]) -> Self {
        TransferWithAuthorityAccounts { timelock: views[0], vault: views[1], vault_owner: views[2], time_authority: views[3], destination: views[4], payer: views[5], token_program: views[6], system_program: views[7] }
    }
}

impl TransferWithAuthorityAccounts {
    /// The accounts in the instruction's order.
    pub open spec fn spec_list(self) -> Seq<AccountView> {
        seq![self.timelock, self.vault, self.vault_owner, self.time_authority, self.destination, self.payer, self.token_program, self.system_program]
    }
}

/// Builds the instruction for the program at `program_id`; arguments that
/// cannot be encoded are refused.
pub fn transfer_with_authority_ix_with_program_id(program_id: Pubkey, keys: TransferWithAuthorityKeys, args: TransferWithAuthorityIxArgs) -> (r: Result<Instruction, CodecError>)
    ensures
        args.serializable() ==> (r matches Ok(ix) && ix.program_id == program_id && ix.accounts@ == keys.spec_metas()
            && ix.data@ == TransferWithAuthorityIxData(args).spec_bytes()),
        !args.serializable() ==> r == Err::<Instruction, CodecError>(CodecError::InvalidData),
{
    let metas = keys.account_metas();
    let data = TransferWithAuthorityIxData(args).try_to_vec()?;
    Ok(Instruction { program_id, accounts: meta_list(metas.as_slice()), data })
}

/// Builds the instruction for the program at its own address.
pub fn transfer_with_authority_ix(keys: TransferWithAuthorityKeys, args: TransferWithAuthorityIxArgs) -> (r: Result<Instruction, CodecError>)
    ensures
        args.serializable() ==> (r matches Ok(ix) && ix.program_id == ID && ix.accounts@ == keys.spec_metas()
            && ix.data@ == TransferWithAuthorityIxData(args).spec_bytes()),
        !args.serializable() ==> r == Err::<Instruction, CodecError>(CodecError::InvalidData),
{
    transfer_with_authority_ix_with_program_id(ID, keys, args)
}

/// An instruction built from `keys` passes the checks of its accounts when
/// each account arrives in the order of the keys with the privileges its
/// account meta asks for: every key matches, every account whose write
/// access is checked is writable and every account whose signature is
/// checked signed.
pub proof fn lemma_transfer_with_authority_metas_pass_checks(keys: TransferWithAuthorityKeys, accounts: TransferWithAuthorityAccounts)
    requires
        accounts.timelock.key == keys.spec_metas()[0].pubkey,
        accounts.timelock.is_writable == keys.spec_metas()[0].is_writable,
        accounts.timelock.is_signer == keys.spec_metas()[0].is_signer,
        accounts.vault.key == keys.spec_metas()[1].pubkey,
        accounts.vault.is_writable == keys.spec_metas()[1].is_writable,
        accounts.vault.is_signer == keys.spec_metas()[1].is_signer,
        accounts.vault_owner.key == keys.spec_metas()[2].pubkey,
        accounts.vault_owner.is_writable == keys.spec_metas()[2].is_writable,
        accounts.vault_owner.is_signer == keys.spec_metas()[2].is_signer,
        accounts.time_authority.key == keys.spec_metas()[3].pubkey,
        accounts.time_authority.is_writable == keys.spec_metas()[3].is_writable,
        accounts.time_authority.is_signer == keys.spec_metas()[3].is_signer,
        accounts.destination.key == keys.spec_metas()[4].pubkey,
        accounts.destination.is_writable == keys.spec_metas()[4].is_writable,
        accounts.destination.is_signer == keys.spec_metas()[4].is_signer,
        accounts.payer.key == keys.spec_metas()[5].pubkey,
        accounts.payer.is_writable == keys.spec_metas()[5].is_writable,
        accounts.payer.is_signer == keys.spec_metas()[5].is_signer,
        accounts.token_program.key == keys.spec_metas()[6].pubkey,
        accounts.token_program.is_writable == keys.spec_metas()[6].is_writable,
        accounts.token_program.is_signer == keys.spec_metas()[6].is_signer,
        accounts.system_program.key == keys.spec_metas()[7].pubkey,
        accounts.system_program.is_writable == keys.spec_metas()[7].is_writable,
        accounts.system_program.is_signer == keys.spec_metas()[7].is_signer,
    ensures
        first_key_mismatch(seq![(accounts.timelock.key, keys.timelock), (accounts.vault.key, keys.vault), (accounts.vault_owner.key, keys.vault_owner), (accounts.time_authority.key, keys.time_authority), (accounts.destination.key, keys.destination), (accounts.payer.key, keys.payer), (accounts.token_program.key, keys.token_program), (accounts.system_program.key, keys.system_program)]) is Ok,
        first_not_writable(seq![accounts.vault, accounts.destination, accounts.payer]) is Ok,
        first_not_signer(seq![accounts.vault_owner, accounts.time_authority, accounts.payer]) is Ok,
{
    lemma_keys_all_match(seq![(accounts.timelock.key, keys.timelock), (accounts.vault.key, keys.vault), (accounts.vault_owner.key, keys.vault_owner), (accounts.time_authority.key, keys.time_authority), (accounts.destination.key, keys.destination), (accounts.payer.key, keys.payer), (accounts.token_program.key, keys.token_program), (accounts.system_program.key, keys.system_program)]);
    lemma_all_writable(seq![accounts.vault, accounts.destination, accounts.payer]);
    lemma_all_signed(seq![accounts.vault_owner, accounts.time_authority, accounts.payer]);
}

/// Checks each account's address against the expected one, in order;
/// the first that differs is reported as (actual, expected).
pub fn transfer_with_authority_verify_account_keys(accounts: TransferWithAuthorityAccounts, keys: TransferWithAuthorityKeys) -> (r: Result<(), (Pubkey, Pubkey)>)
    ensures
        r == first_key_mismatch(seq![(accounts.timelock.key, keys.timelock), (accounts.vault.key, keys.vault), (accounts.vault_owner.key, keys.vault_owner), (accounts.time_authority.key, keys.time_authority), (accounts.destination.key, keys.destination), (accounts.payer.key, keys.payer), (accounts.token_program.key, keys.token_program), (accounts.system_program.key, keys.system_program)]),
{
    let pairs = [(accounts.timelock.key, keys.timelock), (accounts.vault.key, keys.vault), (accounts.vault_owner.key, keys.vault_owner), (accounts.time_authority.key, keys.time_authority), (accounts.destination.key, keys.destination), (accounts.payer.key, keys.payer), (accounts.token_program.key, keys.token_program), (accounts.system_program.key, keys.system_program)];
    let r = check_keys(pairs.as_slice());
    assert(pairs@ =~= seq![(accounts.timelock.key, keys.timelock), (accounts.vault.key, keys.vault), (accounts.vault_owner.key, keys.vault_owner), (accounts.time_authority.key, keys.time_authority), (accounts.destination.key, keys.destination), (accounts.payer.key, keys.payer), (accounts.token_program.key, keys.token_program), (accounts.system_program.key, keys.system_program)]);
    r
}

/// Checks that the accounts the instruction writes to are writable; the first account that fails is reported.
pub fn transfer_with_authority_verify_writable_privileges(accounts: TransferWithAuthorityAccounts) -> (r: Result<(), (AccountView, ProgramError)>)
    ensures
        r == first_not_writable(seq![accounts.vault, accounts.destination, accounts.payer]),
{
    let list = [accounts.vault, accounts.destination, accounts.payer];
    let r = check_writable(list.as_slice());
    assert(list@ =~= seq![accounts.vault, accounts.destination, accounts.payer]);
    r
}

/// Checks that the accounts the instruction needs signatures from signed; the first account that fails is reported.
pub fn transfer_with_authority_verify_signer_privileges(accounts: TransferWithAuthorityAccounts) -> (r: Result<(), (AccountView, ProgramError)>)
    ensures
        r == first_not_signer(seq![accounts.vault_owner, accounts.time_authority, accounts.payer]),
{
    let list = [accounts.vault_owner, accounts.time_authority, accounts.payer];
    let r = check_signers(list.as_slice());
    assert(list@ =~= seq![accounts.vault_owner, accounts.time_authority, accounts.payer]);
    r
}

/// Checks write access, then signatures.
pub fn transfer_with_authority_verify_account_privileges(accounts: TransferWithAuthorityAccounts) -> (r: Result<(), (AccountView, ProgramError)>)
    ensures
        r == (match first_not_writable(seq![accounts.vault, accounts.destination, accounts.payer]) {
            Err(e) => Err(e),
            Ok(()) => first_not_signer(seq![accounts.vault_owner, accounts.time_authority, accounts.payer]),
        }),
{
    transfer_with_authority_verify_writable_privileges(accounts)?;
    transfer_with_authority_verify_signer_privileges(accounts)?;
    Ok(())
}

pub const BURN_DUST_WITH_AUTHORITY_IX_ACCOUNTS_LEN: usize = 8;

/// The accounts handed to the instruction.
#[derive(Clone, Copy, Debug, PartialEq, Eq)]
pub struct BurnDustWithAuthorityAccounts {
    pub timelock: AccountView,
    pub vault: AccountView,
    pub vault_owner: AccountView,
    pub time_authority: AccountView,
    pub mint: AccountView,
    pub payer: AccountView,
    pub token_program: AccountView,
    pub system_program: AccountView,
}

/// The addresses of the instruction's accounts.
#[derive(Clone, Copy, Debug, PartialEq, Eq)]
pub struct BurnDustWithAuthorityKeys {
    pub timelock: Pubkey,
    pub vault: Pubkey,
    pub vault_owner: Pubkey,
    pub time_authority: Pubkey,
    pub mint: Pubkey,
    pub payer: Pubkey,
    pub token_program: Pubkey,
    pub system_program: Pubkey,
}

impl BurnDustWithAuthorityKeys {
    /// The instruction's account list: each key with the privileges the
    /// instruction asks for it.
    pub open spec fn spec_metas(self) -> Seq<AccountMeta> {
        seq![meta(self.timelock, false, false), meta(self.vault, false, true), meta(self.vault_owner, true, false), meta(self.time_authority, true, false), meta(self.mint, false, true), meta(self.payer, true, true), meta(self.token_program, false, false), meta(self.system_program, false, false)]
    }

    /// The instruction's account list.
    pub fn account_metas(&self) -> (r: [AccountMeta; BURN_DUST_WITH_AUTHORITY_IX_ACCOUNTS_LEN])
        ensures
            r@ == self.spec_metas(),
    {
        let r = [
            AccountMeta { pubkey: self.timelock, is_signer: false, is_writable: false },
            AccountMeta { pubkey: self.vault, is_signer: false, is_writable: true },
            AccountMeta { pubkey: self.vault_owner, is_signer: true, is_writable: false },
            AccountMeta { pubkey: self.time_authority, is_signer: true, is_writable: false },
            AccountMeta { pubkey: self.mint, is_signer: false, is_writable: true },
            AccountMeta { pubkey: self.payer, is_signer: true, is_writable: true },
            AccountMeta { pubkey: self.token_program, is_signer: false, is_writable: false },
            AccountMeta { pubkey: self.system_program, is_signer: false, is_writable: false },
        ];
        assert(r@ =~= self.spec_metas());
        r
    }
}

impl From<[Pubkey; BURN_DUST_WITH_AUTHORITY_IX_ACCOUNTS_LEN]> for BurnDustWithAuthorityKeys {
    fn from(pubkeys: [Pubkey; BURN_DUST_WITH_AUTHORITY_IX_ACCOUNTS_LEN]) -> (r: Self) {
        BurnDustWithAuthorityKeys { timelock: pubkeys[0], vault: pubkeys[1], vault_owner: pubkeys[2], time_authority: pubkeys[3], mint: pubkeys[4], payer: pubkeys[5], token_program: pubkeys[6], system_program: pubkeys[7] }
    }
}

impl vstd::std_specs::convert::FromSpecImpl<[Pubkey; BURN_DUST_WITH_AUTHORITY_IX_ACCOUNTS_LEN]> for BurnDustWithAuthorityKeys {
    open spec fn obeys_from_spec() -> bool {
        true
    }

    open spec fn from_spec(pubkeys: [Pubkey; BURN_DUST_WITH_AUTHORITY_IX_ACCOUNTS_LEN]) -> Self {
        BurnDustWithAuthorityKeys { timelock: pubkeys[0], vault: pubkeys[1], vault_owner: pubkeys[2], time_authority: pubkeys[3], mint: pubkeys[4], payer: pubkeys[5], token_program: pubkeys[6], system_program: pubkeys[7] }
    }
}

impl From<BurnDustWithAuthorityAccounts> for BurnDustWithAuthorityKeys {
    fn from(accounts: BurnDustWithAuthorityAccounts) -> (r: Self) {
        BurnDustWithAuthorityKeys { timelock: accounts.timelock.key, vault: accounts.vault.key, vault_owner: accounts.vault_owner.key, time_authority: accounts.time_authority.key, mint: accounts.mint.key, payer: accounts.payer.key, token_program: accounts.token_program.key, system_program: accounts.system_program.key }
    }
}

impl vstd::std_specs::convert::FromSpecImpl<BurnDustWithAuthorityAccounts> for BurnDustWithAuthorityKeys {
    open spec fn obeys_from_spec() -> bool {
        true
    }

    open spec fn from_spec(accounts: BurnDustWithAuthorityAccounts) -> Self {
        BurnDustWithAuthorityKeys { timelock: accounts.timelock.key, vault: accounts.vault.key, vault_owner: accounts.vault_owner.key, time_authority: accounts.time_authority.key, mint: accounts.mint.key, payer: accounts.payer.key, token_program: accounts.token_program.key, system_program: accounts.system_program.key }
    }
}

impl From<[AccountView; BURN_DUST_WITH_AUTHORITY_IX_ACCOUNTS_LEN]> for BurnDustWithAuthorityAccounts {
    fn from(views: [AccountView; BURN_DUST_WITH_AUTHORITY_IX_ACCOUNTS_LEN]) -> (r: Self) {
        BurnDustWithAuthorityAccounts { timelock: views[0], vault: views[1], vault_owner: views[2], time_authority: views[3], mint: views[4], payer: views[5], token_program: views[6], system_program: views[7] }
    }
}

impl vstd::std_specs::convert::FromSpecImpl<[AccountView; BURN_DUST_WITH_AUTHORITY_IX_ACCOUNTS_LEN]> for BurnDustWithAuthorityAccounts {
    open spec fn obeys_from_spec() -> bool {
        true
    }

    open spec fn from_spec(views: [AccountView; BURN_DUST_WITH_AUTHORITY_IX_ACCOUNTS_LEN]) -> Self {
        BurnDustWithAuthorityAccounts { timelock: views[0], vault: views[1], vault_owner: views[2], time_authority: views[3], mint: views[4], payer: views[5], token_program: views[6], system_program: views[7] }
    }
}

impl BurnDustWithAuthorityAccounts {
    /// The accounts in the instruction's order.
    pub open spec fn spec_list(self) -> Seq<AccountView> {
        seq![self.timelock, self.vault, self.vault_owner, self.time_authority, self.mint, self.payer, self.token_program, self.system_program]
    }
}

/// Builds the instruction for the program at `program_id`; arguments that
/// cannot be encoded are refused.
pub fn burn_dust_with_authority_ix_with_program_id(program_id: Pubkey, keys: BurnDustWithAuthorityKeys, args: BurnDustWithAuthorityIxArgs) -> (r: Result<Instruction, CodecError>)
    ensures
        args.serializable() ==> (r matches Ok(ix) && ix.program_id == program_id && ix.accounts@ == keys.spec_metas()
            && ix.data@ == BurnDustWithAuthorityIxData(args).spec_bytes()),
        !args.serializable() ==> r == Err::<Instruction, CodecError>(CodecError::InvalidData),
{
    let metas = keys.account_metas();
    let data = BurnDustWithAuthorityIxData(args).try_to_vec()?;
    Ok(Instruction { program_id, accounts: meta_list(metas.as_slice()), data })
}

/// Builds the instruction for the program at its own address.
pub fn burn_dust_with_authority_ix(keys: BurnDustWithAuthorityKeys, args: BurnDustWithAuthorityIxArgs) -> (r: Result<Instruction, CodecError>)
    ensures
        args.serializable() ==> (r matches Ok(ix) && ix.program_id == ID && ix.accounts@ == keys.spec_metas()
            && ix.data@ == BurnDustWithAuthorityIxData(args).spec_bytes()),
        !args.serializable() ==> r == Err::<Instruction, CodecError>(CodecError::InvalidData),
{
    burn_dust_with_authority_ix_with_program_id(ID, keys, args)
}

/// An instruction built from `keys` passes the checks of its accounts when
/// each account arrives in the order of the keys with the privileges its
/// account meta asks for: every key matches, every account whose write
/// access is checked is writable and every account whose signature is
/// checked signed.
pub proof fn lemma_burn_dust_with_authority_metas_pass_checks(keys: BurnDustWithAuthorityKeys, accounts: BurnDustWithAuthorityAccounts)
    requires
        accounts.timelock.key == keys.spec_metas()[0].pubkey,
        accounts.timelock.is_writable == keys.spec_metas()[0].is_writable,
        accounts.timelock.is_signer == keys.spec_metas()[0].is_signer,
        accounts.vault.key == keys.spec_metas()[1].pubkey,
        accounts.vault.is_writable == keys.spec_metas()[1].is_writable,
        accounts.vault.is_signer == keys.spec_metas()[1].is_signer,
        accounts.vault_owner.key == keys.spec_metas()[2].pubkey,
        accounts.vault_owner.is_writable == keys.spec_metas()[2].is_writable,
        accounts.vault_owner.is_signer == keys.spec_metas()[2].is_signer,
        accounts.time_authority.key == keys.spec_metas()[3].pubkey,
        accounts.time_authority.is_writable == keys.spec_metas()[3].is_writable,
        accounts.time_authority.is_signer == keys.spec_metas()[3].is_signer,
        accounts.mint.key == keys.spec_metas()[4].pubkey,
        accounts.mint.is_writable == keys.spec_metas()[4].is_writable,
        accounts.mint.is_signer == keys.spec_metas()[4].is_signer,
        accounts.payer.key == keys.spec_metas()[5].pubkey,
        accounts.payer.is_writable == keys.spec_metas()[5].is_writable,
        accounts.payer.is_signer == keys.spec_metas()[5].is_signer,
        accounts.token_program.key == keys.spec_metas()[6].pubkey,
        accounts.token_program.is_writable == keys.spec_metas()[6].is_writable,
        accounts.token_program.is_signer == keys.spec_metas()[6].is_signer,
        accounts.system_program.key == keys.spec_metas()[7].pubkey,
        accounts.system_program.is_writable == keys.spec_metas()[7].is_writable,
        accounts.system_program.is_signer == keys.spec_metas()[7].is_signer,
    ensures
        first_key_mismatch(seq![(accounts.timelock.key, keys.timelock), (accounts.vault.key, keys.vault), (accounts.vault_owner.key, keys.vault_owner), (accounts.time_authority.key, keys.time_authority), (accounts.mint.key, keys.mint), (accounts.payer.key, keys.payer), (accounts.token_program.key, keys.token_program), (accounts.system_program.key, keys.system_program)]) is Ok,
        first_not_writable(seq![accounts.vault, accounts.mint, accounts.payer]) is Ok,
        first_not_signer(seq![accounts.vault_owner, accounts.time_authority, accounts.payer]) is Ok,
{
    lemma_keys_all_match(seq![(accounts.timelock.key, keys.timelock), (accounts.vault.key, keys.vault), (accounts.vault_owner.key, keys.vault_owner), (accounts.time_authority.key, keys.time_authority), (accounts.mint.key, keys.mint), (accounts.payer.key, keys.payer), (accounts.token_program.key, keys.token_program), (accounts.system_program.key, keys.system_program)]);
    lemma_all_writable(seq![accounts.vault, accounts.mint, accounts.payer]);
    lemma_all_signed(seq![accounts.vault_owner, accounts.time_authority, accounts.payer]);
}

/// Checks each account's address against the expected one, in order;
/// the first that differs is reported as (actual, expected).
pub fn burn_dust_with_authority_verify_account_keys(accounts: BurnDustWithAuthorityAccounts, keys: BurnDustWithAuthorityKeys) -> (r: Result<(), (Pubkey, Pubkey)>)
    ensures
        r == first_key_mismatch(seq![(accounts.timelock.key, keys.timelock), (accounts.vault.key, keys.vault), (accounts.vault_owner.key, keys.vault_owner), (accounts.time_authority.key, keys.time_authority), (accounts.mint.key, keys.mint), (accounts.payer.key, keys.payer), (accounts.token_program.key, keys.token_program), (accounts.system_program.key, keys.system_program)]),
{
    let pairs = [(accounts.timelock.key, keys.timelock), (accounts.vault.key, keys.vault), (accounts.vault_owner.key, keys.vault_owner), (accounts.time_authority.key, keys.time_authority), (accounts.mint.key, keys.mint), (accounts.payer.key, keys.payer), (accounts.token_program.key, keys.token_program), (accounts.system_program.key, keys.system_program)];
    let r = check_keys(pairs.as_slice());
    assert(pairs@ =~= seq![(accounts.timelock.key, keys.timelock), (accounts.vault.key, keys.vault), (accounts.vault_owner.key, keys.vault_owner), (accounts.time_authority.key, keys.time_authority), (accounts.mint.key, keys.mint), (accounts.payer.key, keys.payer), (accounts.token_program.key, keys.token_program), (accounts.system_program.key, keys.system_program)]);
    r
}

/// Checks that the accounts the instruction writes to are writable; the first account that fails is reported.
pub fn burn_dust_with_authority_verify_writable_privileges(accounts: BurnDustWithAuthorityAccounts) -> (r: Result<(), (AccountView, ProgramError)>)
    ensures
        r == first_not_writable(seq![accounts.vault, accounts.mint, accounts.payer]),
{
    let list = [accounts.vault, accounts.mint, accounts.payer];
    let r = check_writable(list.as_slice());
    assert(list@ =~= seq![accounts.vault, accounts.mint, accounts.payer]);
    r
}

/// Checks that the accounts the instruction needs signatures from signed; the first account that fails is reported.
pub fn burn_dust_with_authority_verify_signer_privileges(accounts: BurnDustWithAuthorityAccounts) -> (r: Result<(), (AccountView, ProgramError)>)
    ensures
        r == first_not_signer(seq![accounts.vault_owner, accounts.time_authority, accounts.payer]),
{
    let list = [accounts.vault_owner, accounts.time_authority, accounts.payer];
    let r = check_signers(list.as_slice());
    assert(list@ =~= seq![accounts.vault_owner, accounts.time_authority, accounts.payer]);
    r
}

/// Checks write access, then signatures.
pub fn burn_dust_with_authority_verify_account_privileges(accounts: BurnDustWithAuthorityAccounts) -> (r: Result<(), (AccountView, ProgramError)>)
    ensures
        r == (match first_not_writable(seq![accounts.vault, accounts.mint, accounts.payer]) {
            Err(e) => Err(e),
            Ok(()) => first_not_signer(seq![accounts.vault_owner, accounts.time_authority, accounts.payer]),
        }),
{
    burn_dust_with_authority_verify_writable_privileges(accounts)?;
    burn_dust_with_authority_verify_signer_privileges(accounts)?;
    Ok(())
}

pub const WITHDRAW_IX_ACCOUNTS_LEN: usize = 7;

/// The accounts handed to the instruction.
#[derive(Clone, Copy, Debug, PartialEq, Eq)]
pub struct WithdrawAccounts {
    pub timelock: AccountView,
    pub vault: AccountView,
    pub vault_owner: AccountView,
    pub destination: AccountView,
    pub payer: AccountView,
    pub token_program: AccountView,
    pub system_program: AccountView,
}

/// The addresses of the instruction's accounts.
#[derive(Clone, Copy, Debug, PartialEq, Eq)]
pub struct WithdrawKeys {
    pub timelock: Pubkey,
    pub vault: Pubkey,
    pub vault_owner: Pubkey,
    pub destination: Pubkey,
    pub payer: Pubkey,
    pub token_program: Pubkey,
    pub system_program: Pubkey,
}

impl WithdrawKeys {
    /// The instruction's account list: each key with the privileges the
    /// instruction asks for it.
    pub open spec fn spec_metas(self) -> Seq<AccountMeta> {
        seq![meta(self.timelock, false, false), meta(self.vault, false, true), meta(self.vault_owner, true, false), meta(self.destination, false, true), meta(self.payer, true, true), meta(self.token_program, false, false), meta(self.system_program, false, false)]
    }

    /// The instruction's account list.
    pub fn account_metas(&self) -> (r: [AccountMeta; WITHDRAW_IX_ACCOUNTS_LEN])
        ensures
            r@ == self.spec_metas(),
    {
        let r = [
            AccountMeta { pubkey: self.timelock, is_signer: false, is_writable: false },
            AccountMeta { pubkey: self.vault, is_signer: false, is_writable: true },
            AccountMeta { pubkey: self.vault_owner, is_signer: true, is_writable: false },
            AccountMeta { pubkey: self.destination, is_signer: false, is_writable: true },
            AccountMeta { pubkey: self.payer, is_signer: true, is_writable: true },
            AccountMeta { pubkey: self.token_program, is_signer: false, is_writable: false },
            AccountMeta { pubkey: self.system_program, is_signer: false, is_writable: false },
        ];
        assert(r@ =~= self.spec_metas());
        r
    }
}

impl From<[Pubkey; WITHDRAW_IX_ACCOUNTS_LEN]> for WithdrawKeys {
    fn from(pubkeys: [Pubkey; WITHDRAW_IX_ACCOUNTS_LEN]) -> (r: Self) {
        WithdrawKeys { timelock: pubkeys[0], vault: pubkeys[1], vault_owner: pubkeys[2], destination: pubkeys[3], payer: pubkeys[4], token_program: pubkeys[5], system_program: pubkeys[6] }
    }
}

impl vstd::std_specs::convert::FromSpecImpl<[Pubkey; WITHDRAW_IX_ACCOUNTS_LEN]> for WithdrawKeys {
    open spec fn obeys_from_spec() -> bool {
        true
    }

    open spec fn from_spec(pubkeys: [Pubkey; WITHDRAW_IX_ACCOUNTS_LEN]) -> Self {
        WithdrawKeys { timelock: pubkeys[0], vault: pubkeys[1], vault_owner: pubkeys[2], destination: pubkeys[3], payer: pubkeys[4], token_program: pubkeys[5], system_program: pubkeys[6] }
    }
}

impl From<WithdrawAccounts> for WithdrawKeys {
    fn from(accounts: WithdrawAccounts) -> (r: Self) {
        WithdrawKeys { timelock: accounts.timelock.key, vault: accounts.vault.key, vault_owner: accounts.vault_owner.key, destination: accounts.destination.key, payer: accounts.payer.key, token_program: accounts.token_program.key, system_program: accounts.system_program.key }
    }
}

impl vstd::std_specs::convert::FromSpecImpl<WithdrawAccounts> for WithdrawKeys {
    open spec fn obeys_from_spec() -> bool {
        true
    }

    open spec fn from_spec(accounts: WithdrawAccounts) -> Self {
        WithdrawKeys { timelock: accounts.timelock.key, vault: accounts.vault.key, vault_owner: accounts.vault_owner.key, destination: accounts.destination.key, payer: accounts.payer.key, token_program: accounts.token_program.key, system_program: accounts.system_program.key }
    }
}

impl From<[AccountView; WITHDRAW_IX_ACCOUNTS_LEN]> for WithdrawAccounts {
    fn from(views: [AccountView; WITHDRAW_IX_ACCOUNTS_LEN]) -> (r: Self) {
        WithdrawAccounts { timelock: views[0], vault: views[1], vault_owner: views[2], destination: views[3], payer: views[4], token_program: views[5], system_program: views[6] }
    }
}

impl vstd::std_specs::convert::FromSpecImpl<[AccountView; WITHDRAW_IX_ACCOUNTS_LEN]> for WithdrawAccounts {
    open spec fn obeys_from_spec() -> bool {
        true
    }

    open spec fn from_spec(views: [AccountView; WITHDRAW_IX_ACCOUNTS_LEN]) -> Self {
        WithdrawAccounts { timelock: views[0], vault: views[1], vault_owner: views[2], destination: views[3], payer: views[4], token_program: views[5], system_program: views[6] }
    }
}

impl WithdrawAccounts {
    /// The accounts in the instruction's order.
    pub open spec fn spec_list(self) -> Seq<AccountView> {
        seq![self.timelock, self.vault, self.vault_owner, self.destination, self.payer, self.token_program, self.system_program]
    }
}

/// Builds the instruction for the program at `program_id`; arguments that
/// cannot be encoded are refused.
pub fn withdraw_ix_with_program_id(program_id: Pubkey, keys: WithdrawKeys, args: WithdrawIxArgs) -> (r: Result<Instruction, CodecError>)
    ensures
        args.serializable() ==> (r matches Ok(ix) && ix.program_id == program_id && ix.accounts@ == keys.spec_metas()
            && ix.data@ == WithdrawIxData(args).spec_bytes()),
        !args.serializable() ==> r == Err::<Instruction, CodecError>(CodecError::InvalidData),
{
    let metas = keys.account_metas();
    let data = WithdrawIxData(args).try_to_vec()?;
    Ok(Instruction { program_id, accounts: meta_list(metas.as_slice()), data })
}

/// Builds the instruction for the program at its own address.
pub fn withdraw_ix(keys: WithdrawKeys, args: WithdrawIxArgs) -> (r: Result<Instruction, CodecError>)
    ensures
        args.serializable() ==> (r matches Ok(ix) && ix.program_id == ID && ix.accounts@ == keys.spec_metas()
            && ix.data@ == WithdrawIxData(args).spec_bytes()),
        !args.serializable() ==> r == Err::<Instruction, CodecError>(CodecError::InvalidData),
{
    withdraw_ix_with_program_id(ID, keys, args)
}

/// An instruction built from `keys` passes the checks of its accounts when
/// each account arrives in the order of the keys with the privileges its
/// account meta asks for: every key matches, every account whose write
/// access is checked is writable and every account whose signature is
/// checked signed.
pub proof fn lemma_withdraw_metas_pass_checks(keys: WithdrawKeys, accounts: WithdrawAccounts)
    requires
        accounts.timelock.key == keys.spec_metas()[0].pubkey,
        accounts.timelock.is_writable == keys.spec_metas()[0].is_writable,
        accounts.timelock.is_signer == keys.spec_metas()[0].is_signer,
        accounts.vault.key == keys.spec_metas()[1].pubkey,
        accounts.vault.is_writable == keys.spec_metas()[1].is_writable,
        accounts.vault.is_signer == keys.spec_metas()[1].is_signer,
        accounts.vault_owner.key == keys.spec_metas()[2].pubkey,
        accounts.vault_owner.is_writable == keys.spec_metas()[2].is_writable,
        accounts.vault_owner.is_signer == keys.spec_metas()[2].is_signer,
        accounts.destination.key == keys.spec_metas()[3].pubkey,
        accounts.destination.is_writable == keys.spec_metas()[3].is_writable,
        accounts.destination.is_signer == keys.spec_metas()[3].is_signer,
        accounts.payer.key == keys.spec_metas()[4].pubkey,
        accounts.payer.is_writable == keys.spec_metas()[4].is_writable,
        accounts.payer.is_signer == keys.spec_metas()[4].is_signer,
        accounts.token_program.key == keys.spec_metas()[5].pubkey,
        accounts.token_program.is_writable == keys.spec_metas()[5].is_writable,
        accounts.token_program.is_signer == keys.spec_metas()[5].is_signer,
        accounts.system_program.key == keys.spec_metas()[6].pubkey,
        accounts.system_program.is_writable == keys.spec_metas()[6].is_writable,
        accounts.system_program.is_signer == keys.spec_metas()[6].is_signer,
    ensures
        first_key_mismatch(seq![(accounts.timelock.key, keys.timelock), (accounts.vault.key, keys.vault), (accounts.vault_owner.key, keys.vault_owner), (accounts.destination.key, keys.destination), (accounts.payer.key, keys.payer), (accounts.token_program.key, keys.token_program), (accounts.system_program.key, keys.system_program)]) is Ok,
        first_not_writable(seq![accounts.vault, accounts.destination, accounts.payer]) is Ok,
        first_not_signer(seq![accounts.vault_owner, accounts.payer]) is Ok,
{
    lemma_keys_all_match(seq![(accounts.timelock.key, keys.timelock), (accounts.vault.key, keys.vault), (accounts.vault_owner.key, keys.vault_owner), (accounts.destination.key, keys.destination), (accounts.payer.key, keys.payer), (accounts.token_program.key, keys.token_program), (accounts.system_program.key, keys.system_program)]);
    lemma_all_writable(seq![accounts.vault, accounts.destination, accounts.payer]);
    lemma_all_signed(seq![accounts.vault_owner, accounts.payer]);
}

/// Checks each account's address against the expected one, in order;
/// the first that differs is reported as (actual, expected).
pub fn withdraw_verify_account_keys(accounts: WithdrawAccounts, keys: WithdrawKeys) -> (r: Result<(), (Pubkey, Pubkey)>)
    ensures
        r == first_key_mismatch(seq![(accounts.timelock.key, keys.timelock), (accounts.vault.key, keys.vault), (accounts.vault_owner.key, keys.vault_owner), (accounts.destination.key, keys.destination), (accounts.payer.key, keys.payer), (accounts.token_program.key, keys.token_program), (accounts.system_program.key, keys.system_program)]),
{
    let pairs = [(accounts.timelock.key, keys.timelock), (accounts.vault.key, keys.vault), (accounts.vault_owner.key, keys.vault_owner), (accounts.destination.key, keys.destination), (accounts.payer.key, keys.payer), (accounts.token_program.key, keys.token_program), (accounts.system_program.key, keys.system_program)];
    let r = check_keys(pairs.as_slice());
    assert(pairs@ =~= seq![(accounts.timelock.key, keys.timelock), (accounts.vault.key, keys.vault), (accounts.vault_owner.key, keys.vault_owner), (accounts.destination.key, keys.destination), (accounts.payer.key, keys.payer), (accounts.token_program.key, keys.token_program), (accounts.system_program.key, keys.system_program)]);
    r
}

/// Checks that the accounts the instruction writes to are writable; the first account that fails is reported.
pub fn withdraw_verify_writable_privileges(accounts: WithdrawAccounts) -> (r: Result<(), (AccountView, ProgramError)>)
    ensures
        r == first_not_writable(seq![accounts.vault, accounts.destination, accounts.payer]),
{
    let list = [accounts.vault, accounts.destination, accounts.payer];
    let r = check_writable(list.as_slice());
    assert(list@ =~= seq![accounts.vault, accounts.destination, accounts.payer]);
    r
}

/// Checks that the accounts the instruction needs signatures from signed; the first account that fails is reported.
pub fn withdraw_verify_signer_privileges(accounts: WithdrawAccounts) -> (r: Result<(), (AccountView, ProgramError)>)
    ensures
        r == first_not_signer(seq![accounts.vault_owner, accounts.payer]),
{
    let list = [accounts.vault_owner, accounts.payer];
    let r = check_signers(list.as_slice());
    assert(list@ =~= seq![accounts.vault_owner, accounts.payer]);
    r
}

/// Checks write access, then signatures.
pub fn withdraw_verify_account_privileges(accounts: WithdrawAccounts) -> (r: Result<(), (AccountView, ProgramError)>)
    ensures
        r == (match first_not_writable(seq![accounts.vault, accounts.destination, accounts.payer]) {
            Err(e) => Err(e),
            Ok(()) => first_not_signer(seq![accounts.vault_owner, accounts.payer]),
        }),
{
    withdraw_verify_writable_privileges(accounts)?;
    withdraw_verify_signer_privileges(accounts)?;
    Ok(())
}

pub const CLOSE_ACCOUNTS_IX_ACCOUNTS_LEN: usize = 6;

/// The accounts handed to the instruction.
#[derive(Clone, Copy, Debug, PartialEq, Eq)]
pub struct CloseAccountsAccounts {
    pub timelock: AccountView,
    pub vault: AccountView,
    pub close_authority: AccountView,
    pub payer: AccountView,
    pub token_program: AccountView,
    pub system_program: AccountView,
}

/// The addresses of the instruction's accounts.
#[derive(Clone, Copy, Debug, PartialEq, Eq)]
pub struct CloseAccountsKeys {
    pub timelock: Pubkey,
    pub vault: Pubkey,
    pub close_authority: Pubkey,
    pub payer: Pubkey,
    pub token_program: Pubkey,
    pub system_program: Pubkey,
}

impl CloseAccountsKeys {
    /// The instruction's account list: each key with the privileges the
    /// instruction asks for it.
    pub open spec fn spec_metas(self) -> Seq<AccountMeta> {
        seq![meta(self.timelock, false, true), meta(self.vault, false, true), meta(self.close_authority, true, false), meta(self.payer, true, true), meta(self.token_program, false, false), meta(self.system_program, false, false)]
    }

    /// The instruction's account list.
    pub fn account_metas(&self) -> (r: [AccountMeta; CLOSE_ACCOUNTS_IX_ACCOUNTS_LEN])
        ensures
            r@ == self.spec_metas(),
    {
        let r = [
            AccountMeta { pubkey: self.timelock, is_signer: false, is_writable: true },
            AccountMeta { pubkey: self.vault, is_signer: false, is_writable: true },
            AccountMeta { pubkey: self.close_authority, is_signer: true, is_writable: false },
            AccountMeta { pubkey: self.payer, is_signer: true, is_writable: true },
            AccountMeta { pubkey: self.token_program, is_signer: false, is_writable: false },
            AccountMeta { pubkey: self.system_program, is_signer: false, is_writable: false },
        ];
        assert(r@ =~= self.spec_metas());
        r
    }
}

impl From<[Pubkey; CLOSE_ACCOUNTS_IX_ACCOUNTS_LEN]> for CloseAccountsKeys {
    fn from(pubkeys: [Pubkey; CLOSE_ACCOUNTS_IX_ACCOUNTS_LEN]) -> (r: Self) {
        CloseAccountsKeys { timelock: pubkeys[0], vault: pubkeys[1], close_authority: pubkeys[2], payer: pubkeys[3], token_program: pubkeys[4], system_program: pubkeys[5] }
    }
}

impl vstd::std_specs::convert::FromSpecImpl<[Pubkey; CLOSE_ACCOUNTS_IX_ACCOUNTS_LEN]> for CloseAccountsKeys {
    open spec fn obeys_from_spec() -> bool {
        true
    }

    open spec fn from_spec(pubkeys: [Pubkey; CLOSE_ACCOUNTS_IX_ACCOUNTS_LEN]) -> Self {
        CloseAccountsKeys { timelock: pubkeys[0], vault: pubkeys[1], close_authority: pubkeys[2], payer: pubkeys[3], token_program: pubkeys[4], system_program: pubkeys[5] }
    }
}

impl From<CloseAccountsAccounts> for CloseAccountsKeys {
    fn from(accounts: CloseAccountsAccounts) -> (r: Self) {
        CloseAccountsKeys { timelock: accounts.timelock.key, vault: accounts.vault.key, close_authority: accounts.close_authority.key, payer: accounts.payer.key, token_program: accounts.token_program.key, system_program: accounts.system_program.key }
    }
}

impl vstd::std_specs::convert::FromSpecImpl<CloseAccountsAccounts> for CloseAccountsKeys {
    open spec fn obeys_from_spec() -> bool {
        true
    }

    open spec fn from_spec(accounts: CloseAccountsAccounts) -> Self {
        CloseAccountsKeys { timelock: accounts.timelock.key, vault: accounts.vault.key, close_authority: accounts.close_authority.key, payer: accounts.payer.key, token_program: accounts.token_program.key, system_program: accounts.system_program.key }
    }
}

impl From<[AccountView; CLOSE_ACCOUNTS_IX_ACCOUNTS_LEN]> for CloseAccountsAccounts {
    fn from(views: [AccountView; CLOSE_ACCOUNTS_IX_ACCOUNTS_LEN]) -> (r: Self) {
        CloseAccountsAccounts { timelock: views[0], vault: views[1], close_authority: views[2], payer: views[3], token_program: views[4], system_program: views[5] }
    }
}

impl vstd::std_specs::convert::FromSpecImpl<[AccountView; CLOSE_ACCOUNTS_IX_ACCOUNTS_LEN]> for CloseAccountsAccounts {
    open spec fn obeys_from_spec() -> bool {
        true
    }

    open spec fn from_spec(views: [AccountView; CLOSE_ACCOUNTS_IX_ACCOUNTS_LEN]) -> Self {
        CloseAccountsAccounts { timelock: views[0], vault: views[1], close_authority: views[2], payer: views[3], token_program: views[4], system_program: views[5] }
    }
}

impl CloseAccountsAccounts {
    /// The accounts in the instruction's order.
    pub open spec fn spec_list(self) -> Seq<AccountView> {
        seq![self.timelock, self.vault, self.close_authority, self.payer, self.token_program, self.system_program]
    }
}

/// Builds the instruction for the program at `program_id`; arguments that
/// cannot be encoded are refused.
pub fn close_accounts_ix_with_program_id(program_id: Pubkey, keys: CloseAccountsKeys, args: CloseAccountsIxArgs) -> (r: Result<Instruction, CodecError>)
    ensures
        args.serializable() ==> (r matches Ok(ix) && ix.program_id == program_id && ix.accounts@ == keys.spec_metas()
            && ix.data@ == CloseAccountsIxData(args).spec_bytes()),
        !args.serializable() ==> r == Err::<Instruction, CodecError>(CodecError::InvalidData),
{
    let metas = keys.account_metas();
    let data = CloseAccountsIxData(args).try_to_vec()?;
    Ok(Instruction { program_id, accounts: meta_list(metas.as_slice()), data })
}

/// Builds the instruction for the program at its own address.
pub fn close_accounts_ix(keys: CloseAccountsKeys, args: CloseAccountsIxArgs) -> (r: Result<Instruction, CodecError>)
    ensures
        args.serializable() ==> (r matches Ok(ix) && ix.program_id == ID && ix.accounts@ == keys.spec_metas()
            && ix.data@ == CloseAccountsIxData(args).spec_bytes()),
        !args.serializable() ==> r == Err::<Instruction, CodecError>(CodecError::InvalidData),
{
    close_accounts_ix_with_program_id(ID, keys, args)
}

/// An instruction built from `keys` passes the checks of its accounts when
/// each account arrives in the order of the keys with the privileges its
/// account meta asks for: every key matches, every account whose write
/// access is checked is writable and every account whose signature is
/// checked signed.
pub proof fn lemma_close_accounts_metas_pass_checks(keys: CloseAccountsKeys, accounts: CloseAccountsAccounts)
    requires
        accounts.timelock.key == keys.spec_metas()[0].pubkey,
        accounts.timelock.is_writable == keys.spec_metas()[0].is_writable,
        accounts.timelock.is_signer == keys.spec_metas()[0].is_signer,
        accounts.vault.key == keys.spec_metas()[1].pubkey,
        accounts.vault.is_writable == keys.spec_metas()[1].is_writable,
        accounts.vault.is_signer == keys.spec_metas()[1].is_signer,
        accounts.close_authority.key == keys.spec_metas()[2].pubkey,
        accounts.close_authority.is_writable == keys.spec_metas()[2].is_writable,
        accounts.close_authority.is_signer == keys.spec_metas()[2].is_signer,
        accounts.payer.key == keys.spec_metas()[3].pubkey,
        accounts.payer.is_writable == keys.spec_metas()[3].is_writable,
        accounts.payer.is_signer == keys.spec_metas()[3].is_signer,
        accounts.token_program.key == keys.spec_metas()[4].pubkey,
        accounts.token_program.is_writable == keys.spec_metas()[4].is_writable,
        accounts.token_program.is_signer == keys.spec_metas()[4].is_signer,
        accounts.system_program.key == keys.spec_metas()[5].pubkey,
        accounts.system_program.is_writable == keys.spec_metas()[5].is_writable,
        accounts.system_program.is_signer == keys.spec_metas()[5].is_signer,
    ensures
        first_key_mismatch(seq![(accounts.timelock.key, keys.timelock), (accounts.vault.key, keys.vault), (accounts.close_authority.key, keys.close_authority), (accounts.payer.key, keys.payer), (accounts.token_program.key, keys.token_program), (accounts.system_program.key, keys.system_program)]) is Ok,
        first_not_writable(seq![accounts.timelock, accounts.vault, accounts.payer]) is Ok,
        first_not_signer(seq![accounts.close_authority, accounts.payer]) is Ok,
{
    lemma_keys_all_match(seq![(accounts.timelock.key, keys.timelock), (accounts.vault.key, keys.vault), (accounts.close_authority.key, keys.close_authority), (accounts.payer.key, keys.payer), (accounts.token_program.key, keys.token_program), (accounts.system_program.key, keys.system_program)]);
    lemma_all_writable(seq![accounts.timelock, accounts.vault, accounts.payer]);
    lemma_all_signed(seq![accounts.close_authority, accounts.payer]);
}

/// Checks each account's address against the expected one, in order;
/// the first that differs is reported as (actual, expected).
pub fn close_accounts_verify_account_keys(accounts: CloseAccountsAccounts, keys: CloseAccountsKeys) -> (r: Result<(), (Pubkey, Pubkey)>)
    ensures
        r == first_key_mismatch(seq![(accounts.timelock.key, keys.timelock), (accounts.vault.key, keys.vault), (accounts.close_authority.key, keys.close_authority), (accounts.payer.key, keys.payer), (accounts.token_program.key, keys.token_program), (accounts.system_program.key, keys.system_program)]),
{
    let pairs = [(accounts.timelock.key, keys.timelock), (accounts.vault.key, keys.vault), (accounts.close_authority.key, keys.close_authority), (accounts.payer.key, keys.payer), (accounts.token_program.key, keys.token_program), (accounts.system_program.key, keys.system_program)];
    let r = check_keys(pairs.as_slice());
    assert(pairs@ =~= seq![(accounts.timelock.key, keys.timelock), (accounts.vault.key, keys.vault), (accounts.close_authority.key, keys.close_authority), (accounts.payer.key, keys.payer), (accounts.token_program.key, keys.token_program), (accounts.system_program.key, keys.system_program)]);
    r
}

/// Checks that the accounts the instruction writes to are writable; the first account that fails is reported.
pub fn close_accounts_verify_writable_privileges(accounts: CloseAccountsAccounts) -> (r: Result<(), (AccountView, ProgramError)>)
    ensures
        r == first_not_writable(seq![accounts.timelock, accounts.vault, accounts.payer]),
{
    let list = [accounts.timelock, accounts.vault, accounts.payer];
    let r = check_writable(list.as_slice());
    assert(list@ =~= seq![accounts.timelock, accounts.vault, accounts.payer]);
    r
}

/// Checks that the accounts the instruction needs signatures from signed; the first account that fails is reported.
pub fn close_accounts_verify_signer_privileges(accounts: CloseAccountsAccounts) -> (r: Result<(), (AccountView, ProgramError)>)
    ensures
        r == first_not_signer(seq![accounts.close_authority, accounts.payer]),
{
    let list = [accounts.close_authority, accounts.payer];
    let r = check_signers(list.as_slice());
    assert(list@ =~= seq![accounts.close_authority, accounts.payer]);
    r
}

/// Checks write access, then signatures.
pub fn close_accounts_verify_account_privileges(accounts: CloseAccountsAccounts) -> (r: Result<(), (AccountView, ProgramError)>)
    ensures
        r == (match first_not_writable(seq![accounts.timelock, accounts.vault, accounts.payer]) {
            Err(e) => Err(e),
            Ok(()) => first_not_signer(seq![accounts.close_authority, accounts.payer]),
        }),
{
    close_accounts_verify_writable_privileges(accounts)?;
    close_accounts_verify_signer_privileges(accounts)?;
    Ok(())
}

} // verus!
