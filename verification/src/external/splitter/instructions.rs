//! Instruction data of the splitter program.
use vstd::prelude::*;
use crate::bytes::bytes_eq;
use crate::codec::{
    enc_u64, lemma_enc_injective, lemma_le_bytes, read_array32, read_discriminator, read_u64,
    read_u8, write_array32, write_array8, write_u64, write_u8, CodecError,
};
use crate::codec::{enc_string, enc_u32, enc_vec32, arrays_bytes, lemma_flatten32, lemma_vec32_unique, prefix_at, read_string, read_vec32, write_string, write_vec32};
use crate::types::Pubkey;
use vstd::utf8::{encode_utf8, valid_utf8};

use crate::error::ProgramError;
use crate::external::checks::{
    check_keys, check_signers, check_writable, first_key_mismatch, first_not_signer, first_not_writable, lemma_all_signed,
    lemma_all_writable, lemma_keys_all_match, AccountView,
};
use crate::sdk::{meta, meta_list, AccountMeta, Instruction};
use super::ID;

verus! {


pub const INITIALIZE_POOL_IX_DISCM: [u8; 8] = [95, 180, 10, 172, 84, 174, 232, 40];

#[derive(Clone, Debug, PartialEq, Eq)]
pub struct InitializePoolIxArgs {
    pub name: String,
    pub levels: u8,
}

impl InitializePoolIxArgs {
    /// Wire encoding of the arguments.
    pub open spec fn spec_bytes(self) -> Seq<u8> {
        enc_string(self.name@) + seq![self.levels]
    }

    /// The name, with its `u32` length, comes first and the number of levels
    /// is the last byte.
    pub proof fn lemma_field_offsets(self)
        ensures
            self.spec_bytes().len() == enc_string(self.name@).len() + 1,
            self.spec_bytes().subrange(0, enc_string(self.name@).len() as int) == enc_string(self.name@),
            self.spec_bytes().last() == self.levels,
    {
        assert(self.spec_bytes().subrange(0, enc_string(self.name@).len() as int) =~= enc_string(self.name@));
    }

    /// The name's UTF-8 length fits the `u32` prefix.
    pub open spec fn serializable(self) -> bool {
        encode_utf8(self.name@).len() <= u32::MAX
    }

    /// What writing the arguments leaves behind when it fails: nothing.
    pub open spec fn partial_bytes(self) -> Seq<u8> {
        Seq::empty()
    }

    /// Both hold the same name and depth.
    pub open spec fn same(self, other: Self) -> bool {
        self.name@ == other.name@ && self.levels == other.levels
    }

    /// End of the name found at `pos`.
    pub open spec fn name_end(buf: Seq<u8>, pos: int) -> int {
        pos + 4 + prefix_at(buf, pos)
    }

    /// Whether `buf` holds the arguments at `pos`.
    pub open spec fn fits(buf: Seq<u8>, pos: int) -> bool {
        &&& pos + 4 <= buf.len()
        &&& Self::name_end(buf, pos) + 1 <= buf.len()
        &&& valid_utf8(buf.subrange(pos + 4, Self::name_end(buf, pos)))
    }

    /// The error that reading the arguments at `pos` gives where they do not fit.
    pub open spec fn read_error(buf: Seq<u8>, pos: int) -> CodecError {
        if pos + 4 <= buf.len() && Self::name_end(buf, pos) <= buf.len() && !valid_utf8(
            buf.subrange(pos + 4, Self::name_end(buf, pos)),
        ) {
            CodecError::InvalidData
        } else {
            CodecError::UnexpectedEnd
        }
    }

    /// The encoding fits wherever it stands.
    pub proof fn lemma_fits(self, head: Seq<u8>, tail: Seq<u8>)
        requires
            self.serializable(),
        ensures
            Self::fits(head + self.spec_bytes() + tail, head.len() as int),
    {
        let buf = head + self.spec_bytes() + tail;
        let pos = head.len() as int;
        let body = encode_utf8(self.name@);
        lemma_le_bytes();
        assert(buf.subrange(pos, pos + 4) =~= enc_u32(body.len() as u32));
        assert(buf.subrange(pos + 4, pos + 4 + body.len()) =~= body);
        vstd::utf8::encode_utf8_valid_utf8(self.name@);
    }

    /// Reads the arguments at `pos`; on success also returns the position
    /// just past them.
    pub fn read(buf: &[u8], pos: usize) -> (r: Result<(Self, usize), CodecError>)
        requires
            pos <= buf@.len(),
        ensures
            Self::fits(buf@, pos as int) <==> r is Ok,
            r matches Ok((x, e)) ==> pos <= e <= buf@.len() && x.serializable()
                && x.spec_bytes() == buf@.subrange(pos as int, e as int),
            !Self::fits(buf@, pos as int) ==> r == Err::<(Self, usize), CodecError>(Self::read_error(buf@, pos as int)),
    {
        let (name, end) = read_string(buf, pos)?;
        if end >= buf.len() {
            return Err(CodecError::UnexpectedEnd);
        }
        let levels = read_u8(buf, end)?;
        proof {
            lemma_le_bytes();
            vstd::utf8::decode_utf8_encode_utf8(buf@.subrange(pos + 4, end as int));
            assert(buf@.subrange(pos as int, end + 1) =~= buf@.subrange(pos as int, end as int) + seq![levels]);
        }
        Ok((InitializePoolIxArgs { name, levels }, end + 1))
    }

    /// Appends the encoding of the arguments to `w`; a name too long for
    /// its prefix is refused and nothing is written.
    pub fn write(&self, w: &mut Vec<u8>) -> (r: Result<(), CodecError>)
        ensures
            self.serializable() ==> r is Ok && final(w)@ == old(w)@ + self.spec_bytes(),
            !self.serializable() ==> r == Err::<(), CodecError>(CodecError::InvalidData) && final(w)@ == old(w)@,
    {
        write_string(w, &self.name)?;
        write_u8(w, self.levels);
        assert(final(w)@ =~= old(w)@ + self.spec_bytes());
        Ok(())
    }

    /// Two arguments whose encodings both open `buf` hold the same values.
    pub proof fn lemma_unique(x: Self, y: Self, buf: Seq<u8>)
        requires
            x.serializable(),
            y.serializable(),
            x.spec_bytes().is_prefix_of(buf),
            y.spec_bytes().is_prefix_of(buf),
        ensures
            x.same(y),
    {
        lemma_le_bytes();
        lemma_enc_injective();
        let bx = encode_utf8(x.name@);
        let by = encode_utf8(y.name@);
        let sx = x.spec_bytes();
        let sy = y.spec_bytes();
        assert(sx.take(4) =~= enc_u32(bx.len() as u32));
        assert(sy.take(4) =~= enc_u32(by.len() as u32));
        assert(sx.take(4) =~= buf.take(4));
        assert(sy.take(4) =~= buf.take(4));
        assert(sx.subrange(4, 4 + bx.len() as int) =~= bx);
        assert(sy.subrange(4, 4 + by.len() as int) =~= by);
        assert(bx =~= buf.subrange(4, 4 + bx.len() as int));
        assert(by =~= buf.subrange(4, 4 + by.len() as int));
        assert(sx[4 + bx.len() as int] == x.levels);
        assert(sy[4 + by.len() as int] == y.levels);
        vstd::utf8::encode_utf8_decode_utf8(x.name@);
        vstd::utf8::encode_utf8_decode_utf8(y.name@);
        assert(x.levels == buf[4 + bx.len() as int]);
        assert(y.levels == buf[4 + by.len() as int]);
    }
}

#[derive(Clone, Debug, PartialEq, Eq)]
pub struct InitializePoolIxData(pub InitializePoolIxArgs);

impl InitializePoolIxData {
    /// Wire encoding: the discriminator, then the arguments.
    pub open spec fn spec_bytes(self) -> Seq<u8> {
        INITIALIZE_POOL_IX_DISCM@ + self.0.spec_bytes()
    }

    /// The encoding is the instruction's eight discriminator bytes
    /// [95, 180, 10, 172, 84, 174, 232, 40], then its arguments.
    pub proof fn lemma_field_offsets(self)
        ensures
            self.spec_bytes().subrange(0, 8) == seq![95u8, 180, 10, 172, 84, 174, 232, 40],
            self.spec_bytes().subrange(8, self.spec_bytes().len() as int) == self.0.spec_bytes(),
    {
        assert(INITIALIZE_POOL_IX_DISCM@ =~= seq![95u8, 180, 10, 172, 84, 174, 232, 40]);
        assert(self.spec_bytes().subrange(0, 8) =~= INITIALIZE_POOL_IX_DISCM@);
        assert(self.spec_bytes().subrange(8, self.spec_bytes().len() as int) =~= self.0.spec_bytes());
    }

    pub fn deserialize(buf: &[u8]) -> (r: Result<Self, CodecError>)
        ensures
            buf@.len() < 8 ==> r == Err::<Self, CodecError>(CodecError::UnexpectedEnd),
            buf@.len() >= 8 && buf@.take(8) != INITIALIZE_POOL_IX_DISCM@ ==> r == Err::<Self, CodecError>(
                CodecError::UnknownDiscriminator,
            ),
            buf@.len() >= 8 && buf@.take(8) == INITIALIZE_POOL_IX_DISCM@ ==> {
                &&& InitializePoolIxArgs::fits(buf@, 8) <==> r is Ok
                &&& r matches Ok(d) ==> d.0.serializable() && d.spec_bytes().is_prefix_of(buf@)
                &&& !InitializePoolIxArgs::fits(buf@, 8) ==> r == Err::<Self, CodecError>(InitializePoolIxArgs::read_error(buf@, 8))
            },
    {
        read_discriminator(buf, &INITIALIZE_POOL_IX_DISCM)?;
        let (args, end) = InitializePoolIxArgs::read(buf, 8)?;
        proof {
            assert(buf@.take(end as int) =~= buf@.take(8) + buf@.subrange(8, end as int));
        }
        Ok(InitializePoolIxData(args))
    }

    /// Appends the encoding to `writer`.
    pub fn serialize(&self, writer: &mut Vec<u8>) -> (r: Result<(), CodecError>)
        ensures
            InitializePoolIxArgs::serializable(self.0) ==> r is Ok && final(writer)@ == old(writer)@ + self.spec_bytes(),
            !InitializePoolIxArgs::serializable(self.0) ==> r == Err::<(), CodecError>(CodecError::InvalidData)
                && final(writer)@ == old(writer)@ + INITIALIZE_POOL_IX_DISCM@ + self.0.partial_bytes(),
    {
        write_array8(writer, &INITIALIZE_POOL_IX_DISCM);
        let r = self.0.write(writer);
        assert(r is Ok ==> final(writer)@ =~= old(writer)@ + self.spec_bytes());
        assert(r is Err ==> final(writer)@ =~= old(writer)@ + INITIALIZE_POOL_IX_DISCM@ + self.0.partial_bytes());
        r
    }

    /// The encoding as a fresh vector.
    pub fn try_to_vec(&self) -> (r: Result<Vec<u8>, CodecError>)
        ensures
            InitializePoolIxArgs::serializable(self.0) ==> (r matches Ok(v) && v@ == self.spec_bytes()),
            !InitializePoolIxArgs::serializable(self.0) ==> r == Err::<Vec<u8>, CodecError>(CodecError::InvalidData),
    {
        let mut data: Vec<u8> = Vec::new();
        self.serialize(&mut data)?;
        Ok(data)
    }

    /// What `try_to_vec` writes, `deserialize` reads back, whatever follows it.
    pub proof fn lemma_roundtrip(self, tail: Seq<u8>)
        requires
            self.0.serializable(),
        ensures
            (self.spec_bytes() + tail).len() >= 8,
            (self.spec_bytes() + tail).take(8) == INITIALIZE_POOL_IX_DISCM@,
            InitializePoolIxArgs::fits(self.spec_bytes() + tail, 8),
            forall|x: Self| x.0.serializable() && #[trigger] x.spec_bytes().is_prefix_of(self.spec_bytes() + tail) ==> x.0.same(self.0),
    {
        let buf = self.spec_bytes() + tail;
        assert(buf.take(8) =~= INITIALIZE_POOL_IX_DISCM@);
        self.0.lemma_fits(INITIALIZE_POOL_IX_DISCM@, tail);
        assert(buf =~= INITIALIZE_POOL_IX_DISCM@ + self.0.spec_bytes() + tail);
        assert forall|x: Self| x.0.serializable() && #[trigger] x.spec_bytes().is_prefix_of(buf) implies x.0.same(self.0) by {
            let rest = buf.subrange(8, buf.len() as int);
            assert(x.0.spec_bytes() =~= x.spec_bytes().subrange(8, x.spec_bytes().len() as int));
            assert(x.0.spec_bytes().is_prefix_of(rest));
            assert(self.0.spec_bytes().is_prefix_of(rest));
            InitializePoolIxArgs::lemma_unique(x.0, self.0, rest);
        }
    }
}

pub const SAVE_RECENT_ROOT_IX_DISCM: [u8; 8] = [163, 45, 123, 32, 127, 86, 42, 189];

#[derive(Clone, Debug, PartialEq, Eq)]
pub struct SaveRecentRootIxArgs {
    pub pool_bump: u8,
}

impl SaveRecentRootIxArgs {
    /// Wire encoding of the arguments.
    pub open spec fn spec_bytes(self) -> Seq<u8> {
        seq![self.pool_bump]
    }

    /// Whether `buf` holds the arguments at `pos`.
    pub open spec fn fits(buf: Seq<u8>, pos: int) -> bool {
        pos + 1 <= buf.len()
    }

    /// The error that reading the arguments at `pos` gives where they do not fit.
    pub open spec fn read_error(buf: Seq<u8>, pos: int) -> CodecError {
        CodecError::UnexpectedEnd
    }

    /// What writing the arguments leaves behind when it fails: nothing, as
    /// it never fails.
    pub open spec fn partial_bytes(self) -> Seq<u8> {
        Seq::empty()
    }

    /// Every value of this type has an encoding.
    pub open spec fn serializable(self) -> bool {
        true
    }

    /// The encoding fits wherever it stands.
    pub proof fn lemma_fits(self, head: Seq<u8>, tail: Seq<u8>)
        requires
            self.serializable(),
        ensures
            Self::fits(head + self.spec_bytes() + tail, head.len() as int),
    {
        lemma_le_bytes();
    }

    /// Reads the arguments at `pos`; on success also returns the position
    /// just past them.
    pub fn read(buf: &[u8], pos: usize) -> (r: Result<(Self, usize), CodecError>)
        requires
            pos <= buf@.len(),
        ensures
            Self::fits(buf@, pos as int) <==> r is Ok,
            r matches Ok((x, e)) ==> pos <= e <= buf@.len() && x.serializable()
                && x.spec_bytes() == buf@.subrange(pos as int, e as int),
            !Self::fits(buf@, pos as int) ==> r == Err::<(Self, usize), CodecError>(Self::read_error(buf@, pos as int)),
    {
        if buf.len() - pos < 1 {
            return Err(CodecError::UnexpectedEnd);
        }
        let pool_bump = read_u8(buf, pos + 0)?;
        let x = SaveRecentRootIxArgs { pool_bump };
        assert(buf@.subrange(pos as int, pos + 1) =~= buf@.subrange(pos + 0, pos + 1));
        Ok((x, pos + 1))
    }

    /// Appends the encoding of the arguments to `w`.
    pub fn write(&self, w: &mut Vec<u8>) -> (r: Result<(), CodecError>)
        ensures
            r is Ok,
            final(w)@ == old(w)@ + self.spec_bytes(),
    {
        write_u8(w, self.pool_bump);
        assert(final(w)@ =~= old(w)@ + self.spec_bytes());
        Ok(())
    }

    /// Two arguments whose encodings both open `buf` are the same.
    pub proof fn lemma_unique(x: Self, y: Self, buf: Seq<u8>)
        requires
            x.serializable(),
            y.serializable(),
            x.spec_bytes().is_prefix_of(buf),
            y.spec_bytes().is_prefix_of(buf),
        ensures
            x == y,
    {
        broadcast use vstd::array::axiom_array_ext_equal;
        lemma_le_bytes();
        lemma_enc_injective();
        let sx = x.spec_bytes();
        let sy = y.spec_bytes();
        assert(sx =~= buf.take(1));
        assert(sy =~= buf.take(1));
        assert(sx[0] == x.pool_bump && sy[0] == y.pool_bump);
    }
}

#[derive(Clone, Debug, PartialEq, Eq)]
pub struct SaveRecentRootIxData(pub SaveRecentRootIxArgs);

impl SaveRecentRootIxData {
    /// Wire encoding: the discriminator, then the arguments.
    pub open spec fn spec_bytes(self) -> Seq<u8> {
        SAVE_RECENT_ROOT_IX_DISCM@ + self.0.spec_bytes()
    }

    /// The encoding is the instruction's eight discriminator bytes
    /// [163, 45, 123, 32, 127, 86, 42, 189], then its arguments.
    pub proof fn lemma_field_offsets(self)
        ensures
            self.spec_bytes().subrange(0, 8) == seq![163u8, 45, 123, 32, 127, 86, 42, 189],
            self.spec_bytes().subrange(8, self.spec_bytes().len() as int) == self.0.spec_bytes(),
    {
        assert(SAVE_RECENT_ROOT_IX_DISCM@ =~= seq![163u8, 45, 123, 32, 127, 86, 42, 189]);
        assert(self.spec_bytes().subrange(0, 8) =~= SAVE_RECENT_ROOT_IX_DISCM@);
        assert(self.spec_bytes().subrange(8, self.spec_bytes().len() as int) =~= self.0.spec_bytes());
    }

    pub fn deserialize(buf: &[u8]) -> (r: Result<Self, CodecError>)
        ensures
            buf@.len() < 8 ==> r == Err::<Self, CodecError>(CodecError::UnexpectedEnd),
            buf@.len() >= 8 && buf@.take(8) != SAVE_RECENT_ROOT_IX_DISCM@ ==> r == Err::<Self, CodecError>(
                CodecError::UnknownDiscriminator,
            ),
            buf@.len() >= 8 && buf@.take(8) == SAVE_RECENT_ROOT_IX_DISCM@ ==> {
                &&& SaveRecentRootIxArgs::fits(buf@, 8) <==> r is Ok
                &&& r matches Ok(d) ==> d.0.serializable() && d.spec_bytes().is_prefix_of(buf@)
                &&& !SaveRecentRootIxArgs::fits(buf@, 8) ==> r == Err::<Self, CodecError>(SaveRecentRootIxArgs::read_error(buf@, 8))
            },
    {
        read_discriminator(buf, &SAVE_RECENT_ROOT_IX_DISCM)?;
        let (args, end) = SaveRecentRootIxArgs::read(buf, 8)?;
        proof {
            assert(buf@.take(end as int) =~= buf@.take(8) + buf@.subrange(8, end as int));
        }
        Ok(SaveRecentRootIxData(args))
    }

    /// Appends the encoding to `writer`.
    pub fn serialize(&self, writer: &mut Vec<u8>) -> (r: Result<(), CodecError>)
        ensures
            SaveRecentRootIxArgs::serializable(self.0) ==> r is Ok && final(writer)@ == old(writer)@ + self.spec_bytes(),
            !SaveRecentRootIxArgs::serializable(self.0) ==> r == Err::<(), CodecError>(CodecError::InvalidData)
                && final(writer)@ == old(writer)@ + SAVE_RECENT_ROOT_IX_DISCM@ + self.0.partial_bytes(),
    {
        write_array8(writer, &SAVE_RECENT_ROOT_IX_DISCM);
        let r = self.0.write(writer);
        assert(r is Ok ==> final(writer)@ =~= old(writer)@ + self.spec_bytes());
        assert(r is Err ==> final(writer)@ =~= old(writer)@ + SAVE_RECENT_ROOT_IX_DISCM@ + self.0.partial_bytes());
        r
    }

    /// The encoding as a fresh vector.
    pub fn try_to_vec(&self) -> (r: Result<Vec<u8>, CodecError>)
        ensures
            SaveRecentRootIxArgs::serializable(self.0) ==> (r matches Ok(v) && v@ == self.spec_bytes()),
            !SaveRecentRootIxArgs::serializable(self.0) ==> r == Err::<Vec<u8>, CodecError>(CodecError::InvalidData),
    {
        let mut data: Vec<u8> = Vec::new();
        self.serialize(&mut data)?;
        Ok(data)
    }

    /// What `try_to_vec` writes, `deserialize` reads back, whatever follows it.
    pub proof fn lemma_roundtrip(self, tail: Seq<u8>)
        requires
            self.0.serializable(),
        ensures
            (self.spec_bytes() + tail).len() >= 8,
            (self.spec_bytes() + tail).take(8) == SAVE_RECENT_ROOT_IX_DISCM@,
            SaveRecentRootIxArgs::fits(self.spec_bytes() + tail, 8),
            forall|x: Self| x.0.serializable() && #[trigger] x.spec_bytes().is_prefix_of(self.spec_bytes() + tail) ==> x == self,
    {
        let buf = self.spec_bytes() + tail;
        assert(buf.take(8) =~= SAVE_RECENT_ROOT_IX_DISCM@);
        self.0.lemma_fits(SAVE_RECENT_ROOT_IX_DISCM@, tail);
        assert(buf =~= SAVE_RECENT_ROOT_IX_DISCM@ + self.0.spec_bytes() + tail);
        assert forall|x: Self| x.0.serializable() && #[trigger] x.spec_bytes().is_prefix_of(buf) implies x == self by {
            let rest = buf.subrange(8, buf.len() as int);
            assert(x.0.spec_bytes() =~= x.spec_bytes().subrange(8, x.spec_bytes().len() as int));
            assert(x.0.spec_bytes().is_prefix_of(rest));
            assert(self.0.spec_bytes().is_prefix_of(rest));
            SaveRecentRootIxArgs::lemma_unique(x.0, self.0, rest);
        }
    }
}

pub const TRANSFER_WITH_COMMITMENT_IX_DISCM: [u8; 8] = [177, 247, 125, 208, 153, 166, 205, 120];

#[derive(Clone, Debug, PartialEq, Eq)]
pub struct TransferWithCommitmentIxArgs {
    pub pool_bump: u8,
    pub amount: u64,
    pub transcript: [u8; 32],
    pub recent_root: [u8; 32],
}

impl TransferWithCommitmentIxArgs {
    /// Wire encoding of the arguments.
    pub open spec fn spec_bytes(self) -> Seq<u8> {
        seq![self.pool_bump] + enc_u64(self.amount) + self.transcript@ + self.recent_root@
    }

    /// Where each field lies in the encoding: pool_bump at byte 0, amount in bytes
    /// 1..9, transcript in bytes 9..41, recent_root in bytes 41..73.
    pub proof fn lemma_field_offsets(self)
        ensures
            self.spec_bytes().len() == 73,
            self.spec_bytes()[0] == self.pool_bump,
            self.spec_bytes().subrange(1, 9) == enc_u64(self.amount),
            self.spec_bytes().subrange(9, 41) == self.transcript@,
            self.spec_bytes().subrange(41, 73) == self.recent_root@,
    {
        crate::codec::lemma_le_bytes();
        vstd::bytes::lemma_auto_spec_u64_to_from_le_bytes();
        assert(self.spec_bytes().subrange(1, 9) =~= enc_u64(self.amount));
        assert(self.spec_bytes().subrange(9, 41) =~= self.transcript@);
        assert(self.spec_bytes().subrange(41, 73) =~= self.recent_root@);
    }

    /// Whether `buf` holds the arguments at `pos`.
    pub open spec fn fits(buf: Seq<u8>, pos: int) -> bool {
        pos + 73 <= buf.len()
    }

    /// The error that reading the arguments at `pos` gives where they do not fit.
    pub open spec fn read_error(buf: Seq<u8>, pos: int) -> CodecError {
        CodecError::UnexpectedEnd
    }

    /// What writing the arguments leaves behind when it fails: nothing, as
    /// it never fails.
    pub open spec fn partial_bytes(self) -> Seq<u8> {
        Seq::empty()
    }

    /// Every value of this type has an encoding.
    pub open spec fn serializable(self) -> bool {
        true
    }

    /// The encoding fits wherever it stands.
    pub proof fn lemma_fits(self, head: Seq<u8>, tail: Seq<u8>)
        requires
            self.serializable(),
        ensures
            Self::fits(head + self.spec_bytes() + tail, head.len() as int),
    {
        lemma_le_bytes();
    }

    /// Reads the arguments at `pos`; on success also returns the position
    /// just past them.
    pub fn read(buf: &[u8], pos: usize) -> (r: Result<(Self, usize), CodecError>)
        requires
            pos <= buf@.len(),
        ensures
            Self::fits(buf@, pos as int) <==> r is Ok,
            r matches Ok((x, e)) ==> pos <= e <= buf@.len() && x.serializable()
                && x.spec_bytes() == buf@.subrange(pos as int, e as int),
            !Self::fits(buf@, pos as int) ==> r == Err::<(Self, usize), CodecError>(Self::read_error(buf@, pos as int)),
    {
        if buf.len() - pos < 73 {
            return Err(CodecError::UnexpectedEnd);
        }
        let pool_bump = read_u8(buf, pos + 0)?;
        let amount = read_u64(buf, pos + 1)?;
        let transcript = read_array32(buf, pos + 9)?;
        let recent_root = read_array32(buf, pos + 41)?;
        let x = TransferWithCommitmentIxArgs { pool_bump, amount, transcript, recent_root };
        assert(buf@.subrange(pos as int, pos + 73) =~= buf@.subrange(pos + 0, pos + 1) + buf@.subrange(pos + 1, pos + 9) + buf@.subrange(pos + 9, pos + 41) + buf@.subrange(pos + 41, pos + 73));
        Ok((x, pos + 73))
    }

    /// Appends the encoding of the arguments to `w`.
    pub fn write(&self, w: &mut Vec<u8>) -> (r: Result<(), CodecError>)
        ensures
            r is Ok,
            final(w)@ == old(w)@ + self.spec_bytes(),
    {
        write_u8(w, self.pool_bump);
        write_u64(w, self.amount);
        write_array32(w, &self.transcript);
        write_array32(w, &self.recent_root);
        assert(final(w)@ =~= old(w)@ + self.spec_bytes());
        Ok(())
    }

    /// Two arguments whose encodings both open `buf` are the same.
    pub proof fn lemma_unique(x: Self, y: Self, buf: Seq<u8>)
        requires
            x.serializable(),
            y.serializable(),
            x.spec_bytes().is_prefix_of(buf),
            y.spec_bytes().is_prefix_of(buf),
        ensures
            x == y,
    {
        broadcast use vstd::array::axiom_array_ext_equal;
        lemma_le_bytes();
        lemma_enc_injective();
        let sx = x.spec_bytes();
        let sy = y.spec_bytes();
        assert(sx =~= buf.take(73));
        assert(sy =~= buf.take(73));
        assert(sx[0] == x.pool_bump && sy[0] == y.pool_bump);
        assert(sx.subrange(1, 9) =~= enc_u64(x.amount));
        assert(sy.subrange(1, 9) =~= enc_u64(y.amount));
        assert(sx.subrange(9, 41) =~= x.transcript@);
        assert(sy.subrange(9, 41) =~= y.transcript@);
        assert(x.transcript =~= y.transcript);
        assert(sx.subrange(41, 73) =~= x.recent_root@);
        assert(sy.subrange(41, 73) =~= y.recent_root@);
        assert(x.recent_root =~= y.recent_root);
    }
}

#[derive(Clone, Debug, PartialEq, Eq)]
pub struct TransferWithCommitmentIxData(pub TransferWithCommitmentIxArgs);

impl TransferWithCommitmentIxData {
    /// Wire encoding: the discriminator, then the arguments.
    pub open spec fn spec_bytes(self) -> Seq<u8> {
        TRANSFER_WITH_COMMITMENT_IX_DISCM@ + self.0.spec_bytes()
    }

    /// The encoding is the instruction's eight discriminator bytes
    /// [177, 247, 125, 208, 153, 166, 205, 120], then its arguments.
    pub proof fn lemma_field_offsets(self)
        ensures
            self.spec_bytes().subrange(0, 8) == seq![177u8, 247, 125, 208, 153, 166, 205, 120],
            self.spec_bytes().subrange(8, self.spec_bytes().len() as int) == self.0.spec_bytes(),
    {
        assert(TRANSFER_WITH_COMMITMENT_IX_DISCM@ =~= seq![177u8, 247, 125, 208, 153, 166, 205, 120]);
        assert(self.spec_bytes().subrange(0, 8) =~= TRANSFER_WITH_COMMITMENT_IX_DISCM@);
        assert(self.spec_bytes().subrange(8, self.spec_bytes().len() as int) =~= self.0.spec_bytes());
    }

    pub fn deserialize(buf: &[u8]) -> (r: Result<Self, CodecError>)
        ensures
            buf@.len() < 8 ==> r == Err::<Self, CodecError>(CodecError::UnexpectedEnd),
            buf@.len() >= 8 && buf@.take(8) != TRANSFER_WITH_COMMITMENT_IX_DISCM@ ==> r == Err::<Self, CodecError>(
                CodecError::UnknownDiscriminator,
            ),
            buf@.len() >= 8 && buf@.take(8) == TRANSFER_WITH_COMMITMENT_IX_DISCM@ ==> {
                &&& TransferWithCommitmentIxArgs::fits(buf@, 8) <==> r is Ok
                &&& r matches Ok(d) ==> d.0.serializable() && d.spec_bytes().is_prefix_of(buf@)
                &&& !TransferWithCommitmentIxArgs::fits(buf@, 8) ==> r == Err::<Self, CodecError>(TransferWithCommitmentIxArgs::read_error(buf@, 8))
            },
    {
        read_discriminator(buf, &TRANSFER_WITH_COMMITMENT_IX_DISCM)?;
        let (args, end) = TransferWithCommitmentIxArgs::read(buf, 8)?;
        proof {
            assert(buf@.take(end as int) =~= buf@.take(8) + buf@.subrange(8, end as int));
        }
        Ok(TransferWithCommitmentIxData(args))
    }

    /// Appends the encoding to `writer`.
    pub fn serialize(&self, writer: &mut Vec<u8>) -> (r: Result<(), CodecError>)
        ensures
            TransferWithCommitmentIxArgs::serializable(self.0) ==> r is Ok && final(writer)@ == old(writer)@ + self.spec_bytes(),
            !TransferWithCommitmentIxArgs::serializable(self.0) ==> r == Err::<(), CodecError>(CodecError::InvalidData)
                && final(writer)@ == old(writer)@ + TRANSFER_WITH_COMMITMENT_IX_DISCM@ + self.0.partial_bytes(),
    {
        write_array8(writer, &TRANSFER_WITH_COMMITMENT_IX_DISCM);
        let r = self.0.write(writer);
        assert(r is Ok ==> final(writer)@ =~= old(writer)@ + self.spec_bytes());
        assert(r is Err ==> final(writer)@ =~= old(writer)@ + TRANSFER_WITH_COMMITMENT_IX_DISCM@ + self.0.partial_bytes());
        r
    }

    /// The encoding as a fresh vector.
    pub fn try_to_vec(&self) -> (r: Result<Vec<u8>, CodecError>)
        ensures
            TransferWithCommitmentIxArgs::serializable(self.0) ==> (r matches Ok(v) && v@ == self.spec_bytes()),
            !TransferWithCommitmentIxArgs::serializable(self.0) ==> r == Err::<Vec<u8>, CodecError>(CodecError::InvalidData),
    {
        let mut data: Vec<u8> = Vec::new();
        self.serialize(&mut data)?;
        Ok(data)
    }

    /// What `try_to_vec` writes, `deserialize` reads back, whatever follows it.
    pub proof fn lemma_roundtrip(self, tail: Seq<u8>)
        requires
            self.0.serializable(),
        ensures
            (self.spec_bytes() + tail).len() >= 8,
            (self.spec_bytes() + tail).take(8) == TRANSFER_WITH_COMMITMENT_IX_DISCM@,
            TransferWithCommitmentIxArgs::fits(self.spec_bytes() + tail, 8),
            forall|x: Self| x.0.serializable() && #[trigger] x.spec_bytes().is_prefix_of(self.spec_bytes() + tail) ==> x == self,
    {
        let buf = self.spec_bytes() + tail;
        assert(buf.take(8) =~= TRANSFER_WITH_COMMITMENT_IX_DISCM@);
        self.0.lemma_fits(TRANSFER_WITH_COMMITMENT_IX_DISCM@, tail);
        assert(buf =~= TRANSFER_WITH_COMMITMENT_IX_DISCM@ + self.0.spec_bytes() + tail);
        assert forall|x: Self| x.0.serializable() && #[trigger] x.spec_bytes().is_prefix_of(buf) implies x == self by {
            let rest = buf.subrange(8, buf.len() as int);
            assert(x.0.spec_bytes() =~= x.spec_bytes().subrange(8, x.spec_bytes().len() as int));
            assert(x.0.spec_bytes().is_prefix_of(rest));
            assert(self.0.spec_bytes().is_prefix_of(rest));
            TransferWithCommitmentIxArgs::lemma_unique(x.0, self.0, rest);
        }
    }
}

pub const INITIALIZE_PROOF_IX_DISCM: [u8; 8] = [165, 188, 188, 88, 25, 248, 86, 93];

#[derive(Clone, Debug, PartialEq, Eq)]
pub struct InitializeProofIxArgs {
    pub pool_bump: u8,
    pub merkle_root: [u8; 32],
    pub commitment: Pubkey,
}

impl InitializeProofIxArgs {
    /// Wire encoding of the arguments.
    pub open spec fn spec_bytes(self) -> Seq<u8> {
        seq![self.pool_bump] + self.merkle_root@ + self.commitment@
    }

    /// Where each field lies in the encoding: pool_bump at byte 0, merkle_root in bytes
    /// 1..33, commitment in bytes 33..65.
    pub proof fn lemma_field_offsets(self)
        ensures
            self.spec_bytes().len() == 65,
            self.spec_bytes()[0] == self.pool_bump,
            self.spec_bytes().subrange(1, 33) == self.merkle_root@,
            self.spec_bytes().subrange(33, 65) == self.commitment@,
    {
        crate::codec::lemma_le_bytes();
        vstd::bytes::lemma_auto_spec_u64_to_from_le_bytes();
        assert(self.spec_bytes().subrange(1, 33) =~= self.merkle_root@);
        assert(self.spec_bytes().subrange(33, 65) =~= self.commitment@);
    }

    /// Whether `buf` holds the arguments at `pos`.
    pub open spec fn fits(buf: Seq<u8>, pos: int) -> bool {
        pos + 65 <= buf.len()
    }

    /// The error that reading the arguments at `pos` gives where they do not fit.
    pub open spec fn read_error(buf: Seq<u8>, pos: int) -> CodecError {
        CodecError::UnexpectedEnd
    }

    /// What writing the arguments leaves behind when it fails: nothing, as
    /// it never fails.
    pub open spec fn partial_bytes(self) -> Seq<u8> {
        Seq::empty()
    }

    /// Every value of this type has an encoding.
    pub open spec fn serializable(self) -> bool {
        true
    }

    /// The encoding fits wherever it stands.
    pub proof fn lemma_fits(self, head: Seq<u8>, tail: Seq<u8>)
        requires
            self.serializable(),
        ensures
            Self::fits(head + self.spec_bytes() + tail, head.len() as int),
    {
        lemma_le_bytes();
    }

    /// Reads the arguments at `pos`; on success also returns the position
    /// just past them.
    pub fn read(buf: &[u8], pos: usize) -> (r: Result<(Self, usize), CodecError>)
        requires
            pos <= buf@.len(),
        ensures
            Self::fits(buf@, pos as int) <==> r is Ok,
            r matches Ok((x, e)) ==> pos <= e <= buf@.len() && x.serializable()
                && x.spec_bytes() == buf@.subrange(pos as int, e as int),
            !Self::fits(buf@, pos as int) ==> r == Err::<(Self, usize), CodecError>(Self::read_error(buf@, pos as int)),
    {
        if buf.len() - pos < 65 {
            return Err(CodecError::UnexpectedEnd);
        }
        let pool_bump = read_u8(buf, pos + 0)?;
        let merkle_root = read_array32(buf, pos + 1)?;
        let commitment = read_array32(buf, pos + 33)?;
        let x = InitializeProofIxArgs { pool_bump, merkle_root, commitment };
        assert(buf@.subrange(pos as int, pos + 65) =~= buf@.subrange(pos + 0, pos + 1) + buf@.subrange(pos + 1, pos + 33) + buf@.subrange(pos + 33, pos + 65));
        Ok((x, pos + 65))
    }

    /// Appends the encoding of the arguments to `w`.
    pub fn write(&self, w: &mut Vec<u8>) -> (r: Result<(), CodecError>)
        ensures
            r is Ok,
            final(w)@ == old(w)@ + self.spec_bytes(),
    {
        write_u8(w, self.pool_bump);
        write_array32(w, &self.merkle_root);
        write_array32(w, &self.commitment);
        assert(final(w)@ =~= old(w)@ + self.spec_bytes());
        Ok(())
    }

    /// Two arguments whose encodings both open `buf` are the same.
    pub proof fn lemma_unique(x: Self, y: Self, buf: Seq<u8>)
        requires
            x.serializable(),
            y.serializable(),
            x.spec_bytes().is_prefix_of(buf),
            y.spec_bytes().is_prefix_of(buf),
        ensures
            x == y,
    {
        broadcast use vstd::array::axiom_array_ext_equal;
        lemma_le_bytes();
        lemma_enc_injective();
        let sx = x.spec_bytes();
        let sy = y.spec_bytes();
        assert(sx =~= buf.take(65));
        assert(sy =~= buf.take(65));
        assert(sx[0] == x.pool_bump && sy[0] == y.pool_bump);
        assert(sx.subrange(1, 33) =~= x.merkle_root@);
        assert(sy.subrange(1, 33) =~= y.merkle_root@);
        assert(x.merkle_root =~= y.merkle_root);
        assert(sx.subrange(33, 65) =~= x.commitment@);
        assert(sy.subrange(33, 65) =~= y.commitment@);
        assert(x.commitment =~= y.commitment);
    }
}

#[derive(Clone, Debug, PartialEq, Eq)]
pub struct InitializeProofIxData(pub InitializeProofIxArgs);

impl InitializeProofIxData {
    /// Wire encoding: the discriminator, then the arguments.
    pub open spec fn spec_bytes(self) -> Seq<u8> {
        INITIALIZE_PROOF_IX_DISCM@ + self.0.spec_bytes()
    }

    /// The encoding is the instruction's eight discriminator bytes
    /// [165, 188, 188, 88, 25, 248, 86, 93], then its arguments.
    pub proof fn lemma_field_offsets(self)
        ensures
            self.spec_bytes().subrange(0, 8) == seq![165u8, 188, 188, 88, 25, 248, 86, 93],
            self.spec_bytes().subrange(8, self.spec_bytes().len() as int) == self.0.spec_bytes(),
    {
        assert(INITIALIZE_PROOF_IX_DISCM@ =~= seq![165u8, 188, 188, 88, 25, 248, 86, 93]);
        assert(self.spec_bytes().subrange(0, 8) =~= INITIALIZE_PROOF_IX_DISCM@);
        assert(self.spec_bytes().subrange(8, self.spec_bytes().len() as int) =~= self.0.spec_bytes());
    }

    pub fn deserialize(buf: &[u8]) -> (r: Result<Self, CodecError>)
        ensures
            buf@.len() < 8 ==> r == Err::<Self, CodecError>(CodecError::UnexpectedEnd),
            buf@.len() >= 8 && buf@.take(8) != INITIALIZE_PROOF_IX_DISCM@ ==> r == Err::<Self, CodecError>(
                CodecError::UnknownDiscriminator,
            ),
            buf@.len() >= 8 && buf@.take(8) == INITIALIZE_PROOF_IX_DISCM@ ==> {
                &&& InitializeProofIxArgs::fits(buf@, 8) <==> r is Ok
                &&& r matches Ok(d) ==> d.0.serializable() && d.spec_bytes().is_prefix_of(buf@)
                &&& !InitializeProofIxArgs::fits(buf@, 8) ==> r == Err::<Self, CodecError>(InitializeProofIxArgs::read_error(buf@, 8))
            },
    {
        read_discriminator(buf, &INITIALIZE_PROOF_IX_DISCM)?;
        let (args, end) = InitializeProofIxArgs::read(buf, 8)?;
        proof {
            assert(buf@.take(end as int) =~= buf@.take(8) + buf@.subrange(8, end as int));
        }
        Ok(InitializeProofIxData(args))
    }

    /// Appends the encoding to `writer`.
    pub fn serialize(&self, writer: &mut Vec<u8>) -> (r: Result<(), CodecError>)
        ensures
            InitializeProofIxArgs::serializable(self.0) ==> r is Ok && final(writer)@ == old(writer)@ + self.spec_bytes(),
            !InitializeProofIxArgs::serializable(self.0) ==> r == Err::<(), CodecError>(CodecError::InvalidData)
                && final(writer)@ == old(writer)@ + INITIALIZE_PROOF_IX_DISCM@ + self.0.partial_bytes(),
    {
        write_array8(writer, &INITIALIZE_PROOF_IX_DISCM);
        let r = self.0.write(writer);
        assert(r is Ok ==> final(writer)@ =~= old(writer)@ + self.spec_bytes());
        assert(r is Err ==> final(writer)@ =~= old(writer)@ + INITIALIZE_PROOF_IX_DISCM@ + self.0.partial_bytes());
        r
    }

    /// The encoding as a fresh vector.
    pub fn try_to_vec(&self) -> (r: Result<Vec<u8>, CodecError>)
        ensures
            InitializeProofIxArgs::serializable(self.0) ==> (r matches Ok(v) && v@ == self.spec_bytes()),
            !InitializeProofIxArgs::serializable(self.0) ==> r == Err::<Vec<u8>, CodecError>(CodecError::InvalidData),
    {
        let mut data: Vec<u8> = Vec::new();
        self.serialize(&mut data)?;
        Ok(data)
    }

    /// What `try_to_vec` writes, `deserialize` reads back, whatever follows it.
    pub proof fn lemma_roundtrip(self, tail: Seq<u8>)
        requires
            self.0.serializable(),
        ensures
            (self.spec_bytes() + tail).len() >= 8,
            (self.spec_bytes() + tail).take(8) == INITIALIZE_PROOF_IX_DISCM@,
            InitializeProofIxArgs::fits(self.spec_bytes() + tail, 8),
            forall|x: Self| x.0.serializable() && #[trigger] x.spec_bytes().is_prefix_of(self.spec_bytes() + tail) ==> x == self,
    {
        let buf = self.spec_bytes() + tail;
        assert(buf.take(8) =~= INITIALIZE_PROOF_IX_DISCM@);
        self.0.lemma_fits(INITIALIZE_PROOF_IX_DISCM@, tail);
        assert(buf =~= INITIALIZE_PROOF_IX_DISCM@ + self.0.spec_bytes() + tail);
        assert forall|x: Self| x.0.serializable() && #[trigger] x.spec_bytes().is_prefix_of(buf) implies x == self by {
            let rest = buf.subrange(8, buf.len() as int);
            assert(x.0.spec_bytes() =~= x.spec_bytes().subrange(8, x.spec_bytes().len() as int));
            assert(x.0.spec_bytes().is_prefix_of(rest));
            assert(self.0.spec_bytes().is_prefix_of(rest));
            InitializeProofIxArgs::lemma_unique(x.0, self.0, rest);
        }
    }
}

pub const UPLOAD_PROOF_IX_DISCM: [u8; 8] = [57, 235, 171, 213, 237, 91, 79, 2];

#[derive(Clone, Debug, PartialEq, Eq)]
pub struct UploadProofIxArgs {
    pub pool_bump: u8,
    pub proof_bump: u8,
    pub current_size: u8,
    pub data_size: u8,
    pub data: Vec<[u8; 32]>,
}

impl UploadProofIxArgs {
    /// Wire encoding of the arguments.
    pub open spec fn spec_bytes(self) -> Seq<u8> {
        seq![self.pool_bump, self.proof_bump, self.current_size, self.data_size] + enc_vec32(self.data@)
    }

    /// Where each field lies in the encoding: pool_bump at byte 0, proof_bump at byte
    /// 1, current_size at byte 2, data_size at byte 3, data from byte 4 on.
    pub proof fn lemma_field_offsets(self)
        ensures
            self.spec_bytes()[0] == self.pool_bump,
            self.spec_bytes()[1] == self.proof_bump,
            self.spec_bytes()[2] == self.current_size,
            self.spec_bytes()[3] == self.data_size,
            self.spec_bytes().subrange(4, self.spec_bytes().len() as int) == enc_vec32(self.data@),
    {
        crate::codec::lemma_le_bytes();
        vstd::bytes::lemma_auto_spec_u64_to_from_le_bytes();
        assert(self.spec_bytes().subrange(4, self.spec_bytes().len() as int) =~= enc_vec32(self.data@));
    }

    /// The number of entries fits the `u32` prefix.
    pub open spec fn serializable(self) -> bool {
        self.data@.len() <= u32::MAX
    }

    /// What writing the arguments leaves behind when it fails: the four
    /// leading bytes.
    pub open spec fn partial_bytes(self) -> Seq<u8> {
        seq![self.pool_bump, self.proof_bump, self.current_size, self.data_size]
    }

    /// Both hold the same values.
    pub open spec fn same(self, other: Self) -> bool {
        &&& self.pool_bump == other.pool_bump
        &&& self.proof_bump == other.proof_bump
        &&& self.current_size == other.current_size
        &&& self.data_size == other.data_size
        &&& self.data@ == other.data@
    }

    /// Whether `buf` holds the arguments at `pos`.
    pub open spec fn fits(buf: Seq<u8>, pos: int) -> bool {
        &&& pos + 8 <= buf.len()
        &&& pos + 8 + 32 * prefix_at(buf, pos + 4) <= buf.len()
    }

    /// The error that reading the arguments at `pos` gives where they do not fit.
    pub open spec fn read_error(buf: Seq<u8>, pos: int) -> CodecError {
        CodecError::UnexpectedEnd
    }

    /// The encoding fits wherever it stands.
    pub proof fn lemma_fits(self, head: Seq<u8>, tail: Seq<u8>)
        requires
            self.serializable(),
        ensures
            Self::fits(head + self.spec_bytes() + tail, head.len() as int),
    {
        let buf = head + self.spec_bytes() + tail;
        let pos = head.len() as int;
        lemma_le_bytes();
        lemma_flatten32(self.data@);
        assert(buf.subrange(pos + 4, pos + 8) =~= enc_u32(self.data@.len() as u32));
    }

    /// Reads the arguments at `pos`; on success also returns the position
    /// just past them.
    pub fn read(buf: &[u8], pos: usize) -> (r: Result<(Self, usize), CodecError>)
        requires
            pos <= buf@.len(),
        ensures
            Self::fits(buf@, pos as int) <==> r is Ok,
            r matches Ok((x, e)) ==> pos <= e <= buf@.len() && x.serializable()
                && x.spec_bytes() == buf@.subrange(pos as int, e as int),
            !Self::fits(buf@, pos as int) ==> r == Err::<(Self, usize), CodecError>(Self::read_error(buf@, pos as int)),
    {
        if buf.len() - pos < 4 {
            return Err(CodecError::UnexpectedEnd);
        }
        let pool_bump = read_u8(buf, pos)?;
        let proof_bump = read_u8(buf, pos + 1)?;
        let current_size = read_u8(buf, pos + 2)?;
        let data_size = read_u8(buf, pos + 3)?;
        let (data, end) = read_vec32(buf, pos + 4)?;
        proof {
            lemma_le_bytes();
            assert(buf@.subrange(pos as int, end as int) =~= seq![pool_bump, proof_bump, current_size, data_size]
                + buf@.subrange(pos + 4, end as int));
        }
        Ok((UploadProofIxArgs { pool_bump, proof_bump, current_size, data_size, data }, end))
    }

    /// Appends the encoding of the arguments to `w`; a vector too long for
    /// its prefix is refused after the four leading bytes.
    pub fn write(&self, w: &mut Vec<u8>) -> (r: Result<(), CodecError>)
        ensures
            self.serializable() ==> r is Ok && final(w)@ == old(w)@ + self.spec_bytes(),
            !self.serializable() ==> r == Err::<(), CodecError>(CodecError::InvalidData)
                && final(w)@ == old(w)@ + self.partial_bytes(),
    {
        write_u8(w, self.pool_bump);
        write_u8(w, self.proof_bump);
        write_u8(w, self.current_size);
        write_u8(w, self.data_size);
        let r = write_vec32(w, &self.data);
        assert(r is Ok ==> final(w)@ =~= old(w)@ + self.spec_bytes());
        assert(r is Err ==> final(w)@ =~= old(w)@ + self.partial_bytes());
        r
    }

    /// Two arguments whose encodings both open `buf` hold the same values.
    pub proof fn lemma_unique(x: Self, y: Self, buf: Seq<u8>)
        requires
            x.serializable(),
            y.serializable(),
            x.spec_bytes().is_prefix_of(buf),
            y.spec_bytes().is_prefix_of(buf),
        ensures
            x.same(y),
    {
        lemma_le_bytes();
        lemma_enc_injective();
        lemma_flatten32(x.data@);
        lemma_flatten32(y.data@);
        let sx = x.spec_bytes();
        let sy = y.spec_bytes();
        assert(sx.take(8) =~= buf.take(8));
        assert(sy.take(8) =~= buf.take(8));
        assert(sx.subrange(4, 8) =~= enc_u32(x.data@.len() as u32));
        assert(sy.subrange(4, 8) =~= enc_u32(y.data@.len() as u32));
        assert(sx.subrange(4, 8) =~= sy.subrange(4, 8));
        assert(x.data@.len() as u32 == y.data@.len() as u32);
        assert(x.data@.len() == y.data@.len());
        assert(sx[0] == x.pool_bump && sx[1] == x.proof_bump && sx[2] == x.current_size && sx[3] == x.data_size);
        assert(sy[0] == y.pool_bump && sy[1] == y.proof_bump && sy[2] == y.current_size && sy[3] == y.data_size);
        let n = x.data@.len();
        assert(sx.subrange(8, 8 + 32 * n as int) =~= arrays_bytes(x.data@));
        assert(sy.subrange(8, 8 + 32 * n as int) =~= arrays_bytes(y.data@));
        assert(sx.subrange(8, 8 + 32 * n as int) =~= buf.subrange(8, 8 + 32 * n as int));
        assert(sy.subrange(8, 8 + 32 * n as int) =~= buf.subrange(8, 8 + 32 * n as int));
        lemma_vec32_unique(x.data@, y.data@);
    }
}

#[derive(Clone, Debug, PartialEq, Eq)]
pub struct UploadProofIxData(pub UploadProofIxArgs);

impl UploadProofIxData {
    /// Wire encoding: the discriminator, then the arguments.
    pub open spec fn spec_bytes(self) -> Seq<u8> {
        UPLOAD_PROOF_IX_DISCM@ + self.0.spec_bytes()
    }

    /// The encoding is the instruction's eight discriminator bytes
    /// [57, 235, 171, 213, 237, 91, 79, 2], then its arguments.
    pub proof fn lemma_field_offsets(self)
        ensures
            self.spec_bytes().subrange(0, 8) == seq![57u8, 235, 171, 213, 237, 91, 79, 2],
            self.spec_bytes().subrange(8, self.spec_bytes().len() as int) == self.0.spec_bytes(),
    {
        assert(UPLOAD_PROOF_IX_DISCM@ =~= seq![57u8, 235, 171, 213, 237, 91, 79, 2]);
        assert(self.spec_bytes().subrange(0, 8) =~= UPLOAD_PROOF_IX_DISCM@);
        assert(self.spec_bytes().subrange(8, self.spec_bytes().len() as int) =~= self.0.spec_bytes());
    }

    pub fn deserialize(buf: &[u8]) -> (r: Result<Self, CodecError>)
        ensures
            buf@.len() < 8 ==> r == Err::<Self, CodecError>(CodecError::UnexpectedEnd),
            buf@.len() >= 8 && buf@.take(8) != UPLOAD_PROOF_IX_DISCM@ ==> r == Err::<Self, CodecError>(
                CodecError::UnknownDiscriminator,
            ),
            buf@.len() >= 8 && buf@.take(8) == UPLOAD_PROOF_IX_DISCM@ ==> {
                &&& UploadProofIxArgs::fits(buf@, 8) <==> r is Ok
                &&& r matches Ok(d) ==> d.0.serializable() && d.spec_bytes().is_prefix_of(buf@)
                &&& !UploadProofIxArgs::fits(buf@, 8) ==> r == Err::<Self, CodecError>(UploadProofIxArgs::read_error(buf@, 8))
            },
    {
        read_discriminator(buf, &UPLOAD_PROOF_IX_DISCM)?;
        let (args, end) = UploadProofIxArgs::read(buf, 8)?;
        proof {
            assert(buf@.take(end as int) =~= buf@.take(8) + buf@.subrange(8, end as int));
        }
        Ok(UploadProofIxData(args))
    }

    /// Appends the encoding to `writer`.
    pub fn serialize(&self, writer: &mut Vec<u8>) -> (r: Result<(), CodecError>)
        ensures
            UploadProofIxArgs::serializable(self.0) ==> r is Ok && final(writer)@ == old(writer)@ + self.spec_bytes(),
            !UploadProofIxArgs::serializable(self.0) ==> r == Err::<(), CodecError>(CodecError::InvalidData)
                && final(writer)@ == old(writer)@ + UPLOAD_PROOF_IX_DISCM@ + self.0.partial_bytes(),
    {
        write_array8(writer, &UPLOAD_PROOF_IX_DISCM);
        let r = self.0.write(writer);
        assert(r is Ok ==> final(writer)@ =~= old(writer)@ + self.spec_bytes());
        assert(r is Err ==> final(writer)@ =~= old(writer)@ + UPLOAD_PROOF_IX_DISCM@ + self.0.partial_bytes());
        r
    }

    /// The encoding as a fresh vector.
    pub fn try_to_vec(&self) -> (r: Result<Vec<u8>, CodecError>)
        ensures
            UploadProofIxArgs::serializable(self.0) ==> (r matches Ok(v) && v@ == self.spec_bytes()),
            !UploadProofIxArgs::serializable(self.0) ==> r == Err::<Vec<u8>, CodecError>(CodecError::InvalidData),
    {
        let mut data: Vec<u8> = Vec::new();
        self.serialize(&mut data)?;
        Ok(data)
    }

    /// What `try_to_vec` writes, `deserialize` reads back, whatever follows it.
    pub proof fn lemma_roundtrip(self, tail: Seq<u8>)
        requires
            self.0.serializable(),
        ensures
            (self.spec_bytes() + tail).len() >= 8,
            (self.spec_bytes() + tail).take(8) == UPLOAD_PROOF_IX_DISCM@,
            UploadProofIxArgs::fits(self.spec_bytes() + tail, 8),
            forall|x: Self| x.0.serializable() && #[trigger] x.spec_bytes().is_prefix_of(self.spec_bytes() + tail) ==> x.0.same(self.0),
    {
        let buf = self.spec_bytes() + tail;
        assert(buf.take(8) =~= UPLOAD_PROOF_IX_DISCM@);
        self.0.lemma_fits(UPLOAD_PROOF_IX_DISCM@, tail);
        assert(buf =~= UPLOAD_PROOF_IX_DISCM@ + self.0.spec_bytes() + tail);
        assert forall|x: Self| x.0.serializable() && #[trigger] x.spec_bytes().is_prefix_of(buf) implies x.0.same(self.0) by {
            let rest = buf.subrange(8, buf.len() as int);
            assert(x.0.spec_bytes() =~= x.spec_bytes().subrange(8, x.spec_bytes().len() as int));
            assert(x.0.spec_bytes().is_prefix_of(rest));
            assert(self.0.spec_bytes().is_prefix_of(rest));
            UploadProofIxArgs::lemma_unique(x.0, self.0, rest);
        }
    }
}

pub const VERIFY_PROOF_IX_DISCM: [u8; 8] = [217, 211, 191, 110, 144, 13, 186, 98];

#[derive(Clone, Debug, PartialEq, Eq)]
pub struct VerifyProofIxArgs {
    pub pool_bump: u8,
    pub proof_bump: u8,
}

impl VerifyProofIxArgs {
    /// Wire encoding of the arguments.
    pub open spec fn spec_bytes(self) -> Seq<u8> {
        seq![self.pool_bump] + seq![self.proof_bump]
    }

    /// Where each field lies in the encoding: pool_bump at byte 0, proof_bump at byte
    /// 1.
    pub proof fn lemma_field_offsets(self)
        ensures
            self.spec_bytes().len() == 2,
            self.spec_bytes()[0] == self.pool_bump,
            self.spec_bytes()[1] == self.proof_bump,
    {
        crate::codec::lemma_le_bytes();
        vstd::bytes::lemma_auto_spec_u64_to_from_le_bytes();
    }

    /// Whether `buf` holds the arguments at `pos`.
    pub open spec fn fits(buf: Seq<u8>, pos: int) -> bool {
        pos + 2 <= buf.len()
    }

    /// The error that reading the arguments at `pos` gives where they do not fit.
    pub open spec fn read_error(buf: Seq<u8>, pos: int) -> CodecError {
        CodecError::UnexpectedEnd
    }

    /// What writing the arguments leaves behind when it fails: nothing, as
    /// it never fails.
    pub open spec fn partial_bytes(self) -> Seq<u8> {
        Seq::empty()
    }

    /// Every value of this type has an encoding.
    pub open spec fn serializable(self) -> bool {
        true
    }

    /// The encoding fits wherever it stands.
    pub proof fn lemma_fits(self, head: Seq<u8>, tail: Seq<u8>)
        requires
            self.serializable(),
        ensures
            Self::fits(head + self.spec_bytes() + tail, head.len() as int),
    {
        lemma_le_bytes();
    }

    /// Reads the arguments at `pos`; on success also returns the position
    /// just past them.
    pub fn read(buf: &[u8], pos: usize) -> (r: Result<(Self, usize), CodecError>)
        requires
            pos <= buf@.len(),
        ensures
            Self::fits(buf@, pos as int) <==> r is Ok,
            r matches Ok((x, e)) ==> pos <= e <= buf@.len() && x.serializable()
                && x.spec_bytes() == buf@.subrange(pos as int, e as int),
            !Self::fits(buf@, pos as int) ==> r == Err::<(Self, usize), CodecError>(Self::read_error(buf@, pos as int)),
    {
        if buf.len() - pos < 2 {
            return Err(CodecError::UnexpectedEnd);
        }
        let pool_bump = read_u8(buf, pos + 0)?;
        let proof_bump = read_u8(buf, pos + 1)?;
        let x = VerifyProofIxArgs { pool_bump, proof_bump };
        assert(buf@.subrange(pos as int, pos + 2) =~= buf@.subrange(pos + 0, pos + 1) + buf@.subrange(pos + 1, pos + 2));
        Ok((x, pos + 2))
    }

    /// Appends the encoding of the arguments to `w`.
    pub fn write(&self, w: &mut Vec<u8>) -> (r: Result<(), CodecError>)
        ensures
            r is Ok,
            final(w)@ == old(w)@ + self.spec_bytes(),
    {
        write_u8(w, self.pool_bump);
        write_u8(w, self.proof_bump);
        assert(final(w)@ =~= old(w)@ + self.spec_bytes());
        Ok(())
    }

    /// Two arguments whose encodings both open `buf` are the same.
    pub proof fn lemma_unique(x: Self, y: Self, buf: Seq<u8>)
        requires
            x.serializable(),
            y.serializable(),
            x.spec_bytes().is_prefix_of(buf),
            y.spec_bytes().is_prefix_of(buf),
        ensures
            x == y,
    {
        broadcast use vstd::array::axiom_array_ext_equal;
        lemma_le_bytes();
        lemma_enc_injective();
        let sx = x.spec_bytes();
        let sy = y.spec_bytes();
        assert(sx =~= buf.take(2));
        assert(sy =~= buf.take(2));
        assert(sx[0] == x.pool_bump && sy[0] == y.pool_bump);
        assert(sx[1] == x.proof_bump && sy[1] == y.proof_bump);
    }
}

#[derive(Clone, Debug, PartialEq, Eq)]
pub struct VerifyProofIxData(pub VerifyProofIxArgs);

impl VerifyProofIxData {
    /// Wire encoding: the discriminator, then the arguments.
    pub open spec fn spec_bytes(self) -> Seq<u8> {
        VERIFY_PROOF_IX_DISCM@ + self.0.spec_bytes()
    }

    /// The encoding is the instruction's eight discriminator bytes
    /// [217, 211, 191, 110, 144, 13, 186, 98], then its arguments.
    pub proof fn lemma_field_offsets(self)
        ensures
            self.spec_bytes().subrange(0, 8) == seq![217u8, 211, 191, 110, 144, 13, 186, 98],
            self.spec_bytes().subrange(8, self.spec_bytes().len() as int) == self.0.spec_bytes(),
    {
        assert(VERIFY_PROOF_IX_DISCM@ =~= seq![217u8, 211, 191, 110, 144, 13, 186, 98]);
        assert(self.spec_bytes().subrange(0, 8) =~= VERIFY_PROOF_IX_DISCM@);
        assert(self.spec_bytes().subrange(8, self.spec_bytes().len() as int) =~= self.0.spec_bytes());
    }

    pub fn deserialize(buf: &[u8]) -> (r: Result<Self, CodecError>)
        ensures
            buf@.len() < 8 ==> r == Err::<Self, CodecError>(CodecError::UnexpectedEnd),
            buf@.len() >= 8 && buf@.take(8) != VERIFY_PROOF_IX_DISCM@ ==> r == Err::<Self, CodecError>(
                CodecError::UnknownDiscriminator,
            ),
            buf@.len() >= 8 && buf@.take(8) == VERIFY_PROOF_IX_DISCM@ ==> {
                &&& VerifyProofIxArgs::fits(buf@, 8) <==> r is Ok
                &&& r matches Ok(d) ==> d.0.serializable() && d.spec_bytes().is_prefix_of(buf@)
                &&& !VerifyProofIxArgs::fits(buf@, 8) ==> r == Err::<Self, CodecError>(VerifyProofIxArgs::read_error(buf@, 8))
            },
    {
        read_discriminator(buf, &VERIFY_PROOF_IX_DISCM)?;
        let (args, end) = VerifyProofIxArgs::read(buf, 8)?;
        proof {
            assert(buf@.take(end as int) =~= buf@.take(8) + buf@.subrange(8, end as int));
        }
        Ok(VerifyProofIxData(args))
    }

    /// Appends the encoding to `writer`.
    pub fn serialize(&self, writer: &mut Vec<u8>) -> (r: Result<(), CodecError>)
        ensures
            VerifyProofIxArgs::serializable(self.0) ==> r is Ok && final(writer)@ == old(writer)@ + self.spec_bytes(),
            !VerifyProofIxArgs::serializable(self.0) ==> r == Err::<(), CodecError>(CodecError::InvalidData)
                && final(writer)@ == old(writer)@ + VERIFY_PROOF_IX_DISCM@ + self.0.partial_bytes(),
    {
        write_array8(writer, &VERIFY_PROOF_IX_DISCM);
        let r = self.0.write(writer);
        assert(r is Ok ==> final(writer)@ =~= old(writer)@ + self.spec_bytes());
        assert(r is Err ==> final(writer)@ =~= old(writer)@ + VERIFY_PROOF_IX_DISCM@ + self.0.partial_bytes());
        r
    }

    /// The encoding as a fresh vector.
    pub fn try_to_vec(&self) -> (r: Result<Vec<u8>, CodecError>)
        ensures
            VerifyProofIxArgs::serializable(self.0) ==> (r matches Ok(v) && v@ == self.spec_bytes()),
            !VerifyProofIxArgs::serializable(self.0) ==> r == Err::<Vec<u8>, CodecError>(CodecError::InvalidData),
    {
        let mut data: Vec<u8> = Vec::new();
        self.serialize(&mut data)?;
        Ok(data)
    }

    /// What `try_to_vec` writes, `deserialize` reads back, whatever follows it.
    pub proof fn lemma_roundtrip(self, tail: Seq<u8>)
        requires
            self.0.serializable(),
        ensures
            (self.spec_bytes() + tail).len() >= 8,
            (self.spec_bytes() + tail).take(8) == VERIFY_PROOF_IX_DISCM@,
            VerifyProofIxArgs::fits(self.spec_bytes() + tail, 8),
            forall|x: Self| x.0.serializable() && #[trigger] x.spec_bytes().is_prefix_of(self.spec_bytes() + tail) ==> x == self,
    {
        let buf = self.spec_bytes() + tail;
        assert(buf.take(8) =~= VERIFY_PROOF_IX_DISCM@);
        self.0.lemma_fits(VERIFY_PROOF_IX_DISCM@, tail);
        assert(buf =~= VERIFY_PROOF_IX_DISCM@ + self.0.spec_bytes() + tail);
        assert forall|x: Self| x.0.serializable() && #[trigger] x.spec_bytes().is_prefix_of(buf) implies x == self by {
            let rest = buf.subrange(8, buf.len() as int);
            assert(x.0.spec_bytes() =~= x.spec_bytes().subrange(8, x.spec_bytes().len() as int));
            assert(x.0.spec_bytes().is_prefix_of(rest));
            assert(self.0.spec_bytes().is_prefix_of(rest));
            VerifyProofIxArgs::lemma_unique(x.0, self.0, rest);
        }
    }
}

pub const CLOSE_PROOF_IX_DISCM: [u8; 8] = [64, 76, 168, 8, 126, 109, 164, 179];

#[derive(Clone, Debug, PartialEq, Eq)]
pub struct CloseProofIxArgs {
    pub pool_bump: u8,
    pub proof_bump: u8,
}

impl CloseProofIxArgs {
    /// Wire encoding of the arguments.
    pub open spec fn spec_bytes(self) -> Seq<u8> {
        seq![self.pool_bump] + seq![self.proof_bump]
    }

    /// Where each field lies in the encoding: pool_bump at byte 0, proof_bump at byte
    /// 1.
    pub proof fn lemma_field_offsets(self)
        ensures
            self.spec_bytes().len() == 2,
            self.spec_bytes()[0] == self.pool_bump,
            self.spec_bytes()[1] == self.proof_bump,
    {
        crate::codec::lemma_le_bytes();
        vstd::bytes::lemma_auto_spec_u64_to_from_le_bytes();
    }

    /// Whether `buf` holds the arguments at `pos`.
    pub open spec fn fits(buf: Seq<u8>, pos: int) -> bool {
        pos + 2 <= buf.len()
    }

    /// The error that reading the arguments at `pos` gives where they do not fit.
    pub open spec fn read_error(buf: Seq<u8>, pos: int) -> CodecError {
        CodecError::UnexpectedEnd
    }

    /// What writing the arguments leaves behind when it fails: nothing, as
    /// it never fails.
    pub open spec fn partial_bytes(self) -> Seq<u8> {
        Seq::empty()
    }

    /// Every value of this type has an encoding.
    pub open spec fn serializable(self) -> bool {
        true
    }

    /// The encoding fits wherever it stands.
    pub proof fn lemma_fits(self, head: Seq<u8>, tail: Seq<u8>)
        requires
            self.serializable(),
        ensures
            Self::fits(head + self.spec_bytes() + tail, head.len() as int),
    {
        lemma_le_bytes();
    }

    /// Reads the arguments at `pos`; on success also returns the position
    /// just past them.
    pub fn read(buf: &[u8], pos: usize) -> (r: Result<(Self, usize), CodecError>)
        requires
            pos <= buf@.len(),
        ensures
            Self::fits(buf@, pos as int) <==> r is Ok,
            r matches Ok((x, e)) ==> pos <= e <= buf@.len() && x.serializable()
                && x.spec_bytes() == buf@.subrange(pos as int, e as int),
            !Self::fits(buf@, pos as int) ==> r == Err::<(Self, usize), CodecError>(Self::read_error(buf@, pos as int)),
    {
        if buf.len() - pos < 2 {
            return Err(CodecError::UnexpectedEnd);
        }
        let pool_bump = read_u8(buf, pos + 0)?;
        let proof_bump = read_u8(buf, pos + 1)?;
        let x = CloseProofIxArgs { pool_bump, proof_bump };
        assert(buf@.subrange(pos as int, pos + 2) =~= buf@.subrange(pos + 0, pos + 1) + buf@.subrange(pos + 1, pos + 2));
        Ok((x, pos + 2))
    }

    /// Appends the encoding of the arguments to `w`.
    pub fn write(&self, w: &mut Vec<u8>) -> (r: Result<(), CodecError>)
        ensures
            r is Ok,
            final(w)@ == old(w)@ + self.spec_bytes(),
    {
        write_u8(w, self.pool_bump);
        write_u8(w, self.proof_bump);
        assert(final(w)@ =~= old(w)@ + self.spec_bytes());
        Ok(())
    }

    /// Two arguments whose encodings both open `buf` are the same.
    pub proof fn lemma_unique(x: Self, y: Self, buf: Seq<u8>)
        requires
            x.serializable(),
            y.serializable(),
            x.spec_bytes().is_prefix_of(buf),
            y.spec_bytes().is_prefix_of(buf),
        ensures
            x == y,
    {
        broadcast use vstd::array::axiom_array_ext_equal;
        lemma_le_bytes();
        lemma_enc_injective();
        let sx = x.spec_bytes();
        let sy = y.spec_bytes();
        assert(sx =~= buf.take(2));
        assert(sy =~= buf.take(2));
        assert(sx[0] == x.pool_bump && sy[0] == y.pool_bump);
        assert(sx[1] == x.proof_bump && sy[1] == y.proof_bump);
    }
}

#[derive(Clone, Debug, PartialEq, Eq)]
pub struct CloseProofIxData(pub CloseProofIxArgs);

impl CloseProofIxData {
    /// Wire encoding: the discriminator, then the arguments.
    pub open spec fn spec_bytes(self) -> Seq<u8> {
        CLOSE_PROOF_IX_DISCM@ + self.0.spec_bytes()
    }

    /// The encoding is the instruction's eight discriminator bytes
    /// [64, 76, 168, 8, 126, 109, 164, 179], then its arguments.
    pub proof fn lemma_field_offsets(self)
        ensures
            self.spec_bytes().subrange(0, 8) == seq![64u8, 76, 168, 8, 126, 109, 164, 179],
            self.spec_bytes().subrange(8, self.spec_bytes().len() as int) == self.0.spec_bytes(),
    {
        assert(CLOSE_PROOF_IX_DISCM@ =~= seq![64u8, 76, 168, 8, 126, 109, 164, 179]);
        assert(self.spec_bytes().subrange(0, 8) =~= CLOSE_PROOF_IX_DISCM@);
        assert(self.spec_bytes().subrange(8, self.spec_bytes().len() as int) =~= self.0.spec_bytes());
    }

    pub fn deserialize(buf: &[u8]) -> (r: Result<Self, CodecError>)
        ensures
            buf@.len() < 8 ==> r == Err::<Self, CodecError>(CodecError::UnexpectedEnd),
            buf@.len() >= 8 && buf@.take(8) != CLOSE_PROOF_IX_DISCM@ ==> r == Err::<Self, CodecError>(
                CodecError::UnknownDiscriminator,
            ),
            buf@.len() >= 8 && buf@.take(8) == CLOSE_PROOF_IX_DISCM@ ==> {
                &&& CloseProofIxArgs::fits(buf@, 8) <==> r is Ok
                &&& r matches Ok(d) ==> d.0.serializable() && d.spec_bytes().is_prefix_of(buf@)
                &&& !CloseProofIxArgs::fits(buf@, 8) ==> r == Err::<Self, CodecError>(CloseProofIxArgs::read_error(buf@, 8))
            },
    {
        read_discriminator(buf, &CLOSE_PROOF_IX_DISCM)?;
        let (args, end) = CloseProofIxArgs::read(buf, 8)?;
        proof {
            assert(buf@.take(end as int) =~= buf@.take(8) + buf@.subrange(8, end as int));
        }
        Ok(CloseProofIxData(args))
    }

    /// Appends the encoding to `writer`.
    pub fn serialize(&self, writer: &mut Vec<u8>) -> (r: Result<(), CodecError>)
        ensures
            CloseProofIxArgs::serializable(self.0) ==> r is Ok && final(writer)@ == old(writer)@ + self.spec_bytes(),
            !CloseProofIxArgs::serializable(self.0) ==> r == Err::<(), CodecError>(CodecError::InvalidData)
                && final(writer)@ == old(writer)@ + CLOSE_PROOF_IX_DISCM@ + self.0.partial_bytes(),
    {
        write_array8(writer, &CLOSE_PROOF_IX_DISCM);
        let r = self.0.write(writer);
        assert(r is Ok ==> final(writer)@ =~= old(writer)@ + self.spec_bytes());
        assert(r is Err ==> final(writer)@ =~= old(writer)@ + CLOSE_PROOF_IX_DISCM@ + self.0.partial_bytes());
        r
    }

    /// The encoding as a fresh vector.
    pub fn try_to_vec(&self) -> (r: Result<Vec<u8>, CodecError>)
        ensures
            CloseProofIxArgs::serializable(self.0) ==> (r matches Ok(v) && v@ == self.spec_bytes()),
            !CloseProofIxArgs::serializable(self.0) ==> r == Err::<Vec<u8>, CodecError>(CodecError::InvalidData),
    {
        let mut data: Vec<u8> = Vec::new();
        self.serialize(&mut data)?;
        Ok(data)
    }

    /// What `try_to_vec` writes, `deserialize` reads back, whatever follows it.
    pub proof fn lemma_roundtrip(self, tail: Seq<u8>)
        requires
            self.0.serializable(),
        ensures
            (self.spec_bytes() + tail).len() >= 8,
            (self.spec_bytes() + tail).take(8) == CLOSE_PROOF_IX_DISCM@,
            CloseProofIxArgs::fits(self.spec_bytes() + tail, 8),
            forall|x: Self| x.0.serializable() && #[trigger] x.spec_bytes().is_prefix_of(self.spec_bytes() + tail) ==> x == self,
    {
        let buf = self.spec_bytes() + tail;
        assert(buf.take(8) =~= CLOSE_PROOF_IX_DISCM@);
        self.0.lemma_fits(CLOSE_PROOF_IX_DISCM@, tail);
        assert(buf =~= CLOSE_PROOF_IX_DISCM@ + self.0.spec_bytes() + tail);
        assert forall|x: Self| x.0.serializable() && #[trigger] x.spec_bytes().is_prefix_of(buf) implies x == self by {
            let rest = buf.subrange(8, buf.len() as int);
            assert(x.0.spec_bytes() =~= x.spec_bytes().subrange(8, x.spec_bytes().len() as int));
            assert(x.0.spec_bytes().is_prefix_of(rest));
            assert(self.0.spec_bytes().is_prefix_of(rest));
            CloseProofIxArgs::lemma_unique(x.0, self.0, rest);
        }
    }
}

pub const OPEN_TOKEN_ACCOUNT_IX_DISCM: [u8; 8] = [77, 240, 240, 35, 150, 89, 234, 157];

#[derive(Clone, Debug, PartialEq, Eq)]
pub struct OpenTokenAccountIxArgs {
    pub pool_bump: u8,
    pub proof_bump: u8,
}

impl OpenTokenAccountIxArgs {
    /// Wire encoding of the arguments.
    pub open spec fn spec_bytes(self) -> Seq<u8> {
        seq![self.pool_bump] + seq![self.proof_bump]
    }

    /// Where each field lies in the encoding: pool_bump at byte 0, proof_bump at byte
    /// 1.
    pub proof fn lemma_field_offsets(self)
        ensures
            self.spec_bytes().len() == 2,
            self.spec_bytes()[0] == self.pool_bump,
            self.spec_bytes()[1] == self.proof_bump,
    {
        crate::codec::lemma_le_bytes();
        vstd::bytes::lemma_auto_spec_u64_to_from_le_bytes();
    }

    /// Whether `buf` holds the arguments at `pos`.
    pub open spec fn fits(buf: Seq<u8>, pos: int) -> bool {
        pos + 2 <= buf.len()
    }

    /// The error that reading the arguments at `pos` gives where they do not fit.
    pub open spec fn read_error(buf: Seq<u8>, pos: int) -> CodecError {
        CodecError::UnexpectedEnd
    }

    /// What writing the arguments leaves behind when it fails: nothing, as
    /// it never fails.
    pub open spec fn partial_bytes(self) -> Seq<u8> {
        Seq::empty()
    }

    /// Every value of this type has an encoding.
    pub open spec fn serializable(self) -> bool {
        true
    }

    /// The encoding fits wherever it stands.
    pub proof fn lemma_fits(self, head: Seq<u8>, tail: Seq<u8>)
        requires
            self.serializable(),
        ensures
            Self::fits(head + self.spec_bytes() + tail, head.len() as int),
    {
        lemma_le_bytes();
    }

    /// Reads the arguments at `pos`; on success also returns the position
    /// just past them.
    pub fn read(buf: &[u8], pos: usize) -> (r: Result<(Self, usize), CodecError>)
        requires
            pos <= buf@.len(),
        ensures
            Self::fits(buf@, pos as int) <==> r is Ok,
            r matches Ok((x, e)) ==> pos <= e <= buf@.len() && x.serializable()
                && x.spec_bytes() == buf@.subrange(pos as int, e as int),
            !Self::fits(buf@, pos as int) ==> r == Err::<(Self, usize), CodecError>(Self::read_error(buf@, pos as int)),
    {
        if buf.len() - pos < 2 {
            return Err(CodecError::UnexpectedEnd);
        }
        let pool_bump = read_u8(buf, pos + 0)?;
        let proof_bump = read_u8(buf, pos + 1)?;
        let x = OpenTokenAccountIxArgs { pool_bump, proof_bump };
        assert(buf@.subrange(pos as int, pos + 2) =~= buf@.subrange(pos + 0, pos + 1) + buf@.subrange(pos + 1, pos + 2));
        Ok((x, pos + 2))
    }

    /// Appends the encoding of the arguments to `w`.
    pub fn write(&self, w: &mut Vec<u8>) -> (r: Result<(), CodecError>)
        ensures
            r is Ok,
            final(w)@ == old(w)@ + self.spec_bytes(),
    {
        write_u8(w, self.pool_bump);
        write_u8(w, self.proof_bump);
        assert(final(w)@ =~= old(w)@ + self.spec_bytes());
        Ok(())
    }

    /// Two arguments whose encodings both open `buf` are the same.
    pub proof fn lemma_unique(x: Self, y: Self, buf: Seq<u8>)
        requires
            x.serializable(),
            y.serializable(),
            x.spec_bytes().is_prefix_of(buf),
            y.spec_bytes().is_prefix_of(buf),
        ensures
            x == y,
    {
        broadcast use vstd::array::axiom_array_ext_equal;
        lemma_le_bytes();
        lemma_enc_injective();
        let sx = x.spec_bytes();
        let sy = y.spec_bytes();
        assert(sx =~= buf.take(2));
        assert(sy =~= buf.take(2));
        assert(sx[0] == x.pool_bump && sy[0] == y.pool_bump);
        assert(sx[1] == x.proof_bump && sy[1] == y.proof_bump);
    }
}

#[derive(Clone, Debug, PartialEq, Eq)]
pub struct OpenTokenAccountIxData(pub OpenTokenAccountIxArgs);

impl OpenTokenAccountIxData {
    /// Wire encoding: the discriminator, then the arguments.
    pub open spec fn spec_bytes(self) -> Seq<u8> {
        OPEN_TOKEN_ACCOUNT_IX_DISCM@ + self.0.spec_bytes()
    }

    /// The encoding is the instruction's eight discriminator bytes
    /// [77, 240, 240, 35, 150, 89, 234, 157], then its arguments.
    pub proof fn lemma_field_offsets(self)
        ensures
            self.spec_bytes().subrange(0, 8) == seq![77u8, 240, 240, 35, 150, 89, 234, 157],
            self.spec_bytes().subrange(8, self.spec_bytes().len() as int) == self.0.spec_bytes(),
    {
        assert(OPEN_TOKEN_ACCOUNT_IX_DISCM@ =~= seq![77u8, 240, 240, 35, 150, 89, 234, 157]);
        assert(self.spec_bytes().subrange(0, 8) =~= OPEN_TOKEN_ACCOUNT_IX_DISCM@);
        assert(self.spec_bytes().subrange(8, self.spec_bytes().len() as int) =~= self.0.spec_bytes());
    }

    pub fn deserialize(buf: &[u8]) -> (r: Result<Self, CodecError>)
        ensures
            buf@.len() < 8 ==> r == Err::<Self, CodecError>(CodecError::UnexpectedEnd),
            buf@.len() >= 8 && buf@.take(8) != OPEN_TOKEN_ACCOUNT_IX_DISCM@ ==> r == Err::<Self, CodecError>(
                CodecError::UnknownDiscriminator,
            ),
            buf@.len() >= 8 && buf@.take(8) == OPEN_TOKEN_ACCOUNT_IX_DISCM@ ==> {
                &&& OpenTokenAccountIxArgs::fits(buf@, 8) <==> r is Ok
                &&& r matches Ok(d) ==> d.0.serializable() && d.spec_bytes().is_prefix_of(buf@)
                &&& !OpenTokenAccountIxArgs::fits(buf@, 8) ==> r == Err::<Self, CodecError>(OpenTokenAccountIxArgs::read_error(buf@, 8))
            },
    {
        read_discriminator(buf, &OPEN_TOKEN_ACCOUNT_IX_DISCM)?;
        let (args, end) = OpenTokenAccountIxArgs::read(buf, 8)?;
        proof {
            assert(buf@.take(end as int) =~= buf@.take(8) + buf@.subrange(8, end as int));
        }
        Ok(OpenTokenAccountIxData(args))
    }

    /// Appends the encoding to `writer`.
    pub fn serialize(&self, writer: &mut Vec<u8>) -> (r: Result<(), CodecError>)
        ensures
            OpenTokenAccountIxArgs::serializable(self.0) ==> r is Ok && final(writer)@ == old(writer)@ + self.spec_bytes(),
            !OpenTokenAccountIxArgs::serializable(self.0) ==> r == Err::<(), CodecError>(CodecError::InvalidData)
                && final(writer)@ == old(writer)@ + OPEN_TOKEN_ACCOUNT_IX_DISCM@ + self.0.partial_bytes(),
    {
        write_array8(writer, &OPEN_TOKEN_ACCOUNT_IX_DISCM);
        let r = self.0.write(writer);
        assert(r is Ok ==> final(writer)@ =~= old(writer)@ + self.spec_bytes());
        assert(r is Err ==> final(writer)@ =~= old(writer)@ + OPEN_TOKEN_ACCOUNT_IX_DISCM@ + self.0.partial_bytes());
        r
    }

    /// The encoding as a fresh vector.
    pub fn try_to_vec(&self) -> (r: Result<Vec<u8>, CodecError>)
        ensures
            OpenTokenAccountIxArgs::serializable(self.0) ==> (r matches Ok(v) && v@ == self.spec_bytes()),
            !OpenTokenAccountIxArgs::serializable(self.0) ==> r == Err::<Vec<u8>, CodecError>(CodecError::InvalidData),
    {
        let mut data: Vec<u8> = Vec::new();
        self.serialize(&mut data)?;
        Ok(data)
    }

    /// What `try_to_vec` writes, `deserialize` reads back, whatever follows it.
    pub proof fn lemma_roundtrip(self, tail: Seq<u8>)
        requires
            self.0.serializable(),
        ensures
            (self.spec_bytes() + tail).len() >= 8,
            (self.spec_bytes() + tail).take(8) == OPEN_TOKEN_ACCOUNT_IX_DISCM@,
            OpenTokenAccountIxArgs::fits(self.spec_bytes() + tail, 8),
            forall|x: Self| x.0.serializable() && #[trigger] x.spec_bytes().is_prefix_of(self.spec_bytes() + tail) ==> x == self,
    {
        let buf = self.spec_bytes() + tail;
        assert(buf.take(8) =~= OPEN_TOKEN_ACCOUNT_IX_DISCM@);
        self.0.lemma_fits(OPEN_TOKEN_ACCOUNT_IX_DISCM@, tail);
        assert(buf =~= OPEN_TOKEN_ACCOUNT_IX_DISCM@ + self.0.spec_bytes() + tail);
        assert forall|x: Self| x.0.serializable() && #[trigger] x.spec_bytes().is_prefix_of(buf) implies x == self by {
            let rest = buf.subrange(8, buf.len() as int);
            assert(x.0.spec_bytes() =~= x.spec_bytes().subrange(8, x.spec_bytes().len() as int));
            assert(x.0.spec_bytes().is_prefix_of(rest));
            assert(self.0.spec_bytes().is_prefix_of(rest));
            OpenTokenAccountIxArgs::lemma_unique(x.0, self.0, rest);
        }
    }
}

pub const CLOSE_TOKEN_ACCOUNT_IX_DISCM: [u8; 8] = [132, 172, 24, 60, 100, 156, 135, 97];

#[derive(Clone, Debug, PartialEq, Eq)]
pub struct CloseTokenAccountIxArgs {
    pub pool_bump: u8,
    pub proof_bump: u8,
    pub vault_bump: u8,
}

impl CloseTokenAccountIxArgs {
    /// Wire encoding of the arguments.
    pub open spec fn spec_bytes(self) -> Seq<u8> {
        seq![self.pool_bump] + seq![self.proof_bump] + seq![self.vault_bump]
    }

    /// Where each field lies in the encoding: pool_bump at byte 0, proof_bump at byte
    /// 1, vault_bump at byte 2.
    pub proof fn lemma_field_offsets(self)
        ensures
            self.spec_bytes().len() == 3,
            self.spec_bytes()[0] == self.pool_bump,
            self.spec_bytes()[1] == self.proof_bump,
            self.spec_bytes()[2] == self.vault_bump,
    {
        crate::codec::lemma_le_bytes();
        vstd::bytes::lemma_auto_spec_u64_to_from_le_bytes();
    }

    /// Whether `buf` holds the arguments at `pos`.
    pub open spec fn fits(buf: Seq<u8>, pos: int) -> bool {
        pos + 3 <= buf.len()
    }

    /// The error that reading the arguments at `pos` gives where they do not fit.
    pub open spec fn read_error(buf: Seq<u8>, pos: int) -> CodecError {
        CodecError::UnexpectedEnd
    }

    /// What writing the arguments leaves behind when it fails: nothing, as
    /// it never fails.
    pub open spec fn partial_bytes(self) -> Seq<u8> {
        Seq::empty()
    }

    /// Every value of this type has an encoding.
    pub open spec fn serializable(self) -> bool {
        true
    }

    /// The encoding fits wherever it stands.
    pub proof fn lemma_fits(self, head: Seq<u8>, tail: Seq<u8>)
        requires
            self.serializable(),
        ensures
            Self::fits(head + self.spec_bytes() + tail, head.len() as int),
    {
        lemma_le_bytes();
    }

    /// Reads the arguments at `pos`; on success also returns the position
    /// just past them.
    pub fn read(buf: &[u8], pos: usize) -> (r: Result<(Self, usize), CodecError>)
        requires
            pos <= buf@.len(),
        ensures
            Self::fits(buf@, pos as int) <==> r is Ok,
            r matches Ok((x, e)) ==> pos <= e <= buf@.len() && x.serializable()
                && x.spec_bytes() == buf@.subrange(pos as int, e as int),
            !Self::fits(buf@, pos as int) ==> r == Err::<(Self, usize), CodecError>(Self::read_error(buf@, pos as int)),
    {
        if buf.len() - pos < 3 {
            return Err(CodecError::UnexpectedEnd);
        }
        let pool_bump = read_u8(buf, pos + 0)?;
        let proof_bump = read_u8(buf, pos + 1)?;
        let vault_bump = read_u8(buf, pos + 2)?;
        let x = CloseTokenAccountIxArgs { pool_bump, proof_bump, vault_bump };
        assert(buf@.subrange(pos as int, pos + 3) =~= buf@.subrange(pos + 0, pos + 1) + buf@.subrange(pos + 1, pos + 2) + buf@.subrange(pos + 2, pos + 3));
        Ok((x, pos + 3))
    }

    /// Appends the encoding of the arguments to `w`.
    pub fn write(&self, w: &mut Vec<u8>) -> (r: Result<(), CodecError>)
        ensures
            r is Ok,
            final(w)@ == old(w)@ + self.spec_bytes(),
    {
        write_u8(w, self.pool_bump);
        write_u8(w, self.proof_bump);
        write_u8(w, self.vault_bump);
        assert(final(w)@ =~= old(w)@ + self.spec_bytes());
        Ok(())
    }

    /// Two arguments whose encodings both open `buf` are the same.
    pub proof fn lemma_unique(x: Self, y: Self, buf: Seq<u8>)
        requires
            x.serializable(),
            y.serializable(),
            x.spec_bytes().is_prefix_of(buf),
            y.spec_bytes().is_prefix_of(buf),
        ensures
            x == y,
    {
        broadcast use vstd::array::axiom_array_ext_equal;
        lemma_le_bytes();
        lemma_enc_injective();
        let sx = x.spec_bytes();
        let sy = y.spec_bytes();
        assert(sx =~= buf.take(3));
        assert(sy =~= buf.take(3));
        assert(sx[0] == x.pool_bump && sy[0] == y.pool_bump);
        assert(sx[1] == x.proof_bump && sy[1] == y.proof_bump);
        assert(sx[2] == x.vault_bump && sy[2] == y.vault_bump);
    }
}

#[derive(Clone, Debug, PartialEq, Eq)]
pub struct CloseTokenAccountIxData(pub CloseTokenAccountIxArgs);

impl CloseTokenAccountIxData {
    /// Wire encoding: the discriminator, then the arguments.
    pub open spec fn spec_bytes(self) -> Seq<u8> {
        CLOSE_TOKEN_ACCOUNT_IX_DISCM@ + self.0.spec_bytes()
    }

    /// The encoding is the instruction's eight discriminator bytes
    /// [132, 172, 24, 60, 100, 156, 135, 97], then its arguments.
    pub proof fn lemma_field_offsets(self)
        ensures
            self.spec_bytes().subrange(0, 8) == seq![132u8, 172, 24, 60, 100, 156, 135, 97],
            self.spec_bytes().subrange(8, self.spec_bytes().len() as int) == self.0.spec_bytes(),
    {
        assert(CLOSE_TOKEN_ACCOUNT_IX_DISCM@ =~= seq![132u8, 172, 24, 60, 100, 156, 135, 97]);
        assert(self.spec_bytes().subrange(0, 8) =~= CLOSE_TOKEN_ACCOUNT_IX_DISCM@);
        assert(self.spec_bytes().subrange(8, self.spec_bytes().len() as int) =~= self.0.spec_bytes());
    }

    pub fn deserialize(buf: &[u8]) -> (r: Result<Self, CodecError>)
        ensures
            buf@.len() < 8 ==> r == Err::<Self, CodecError>(CodecError::UnexpectedEnd),
            buf@.len() >= 8 && buf@.take(8) != CLOSE_TOKEN_ACCOUNT_IX_DISCM@ ==> r == Err::<Self, CodecError>(
                CodecError::UnknownDiscriminator,
            ),
            buf@.len() >= 8 && buf@.take(8) == CLOSE_TOKEN_ACCOUNT_IX_DISCM@ ==> {
                &&& CloseTokenAccountIxArgs::fits(buf@, 8) <==> r is Ok
                &&& r matches Ok(d) ==> d.0.serializable() && d.spec_bytes().is_prefix_of(buf@)
                &&& !CloseTokenAccountIxArgs::fits(buf@, 8) ==> r == Err::<Self, CodecError>(CloseTokenAccountIxArgs::read_error(buf@, 8))
            },
    {
        read_discriminator(buf, &CLOSE_TOKEN_ACCOUNT_IX_DISCM)?;
        let (args, end) = CloseTokenAccountIxArgs::read(buf, 8)?;
        proof {
            assert(buf@.take(end as int) =~= buf@.take(8) + buf@.subrange(8, end as int));
        }
        Ok(CloseTokenAccountIxData(args))
    }

    /// Appends the encoding to `writer`.
    pub fn serialize(&self, writer: &mut Vec<u8>) -> (r: Result<(), CodecError>)
        ensures
            CloseTokenAccountIxArgs::serializable(self.0) ==> r is Ok && final(writer)@ == old(writer)@ + self.spec_bytes(),
            !CloseTokenAccountIxArgs::serializable(self.0) ==> r == Err::<(), CodecError>(CodecError::InvalidData)
                && final(writer)@ == old(writer)@ + CLOSE_TOKEN_ACCOUNT_IX_DISCM@ + self.0.partial_bytes(),
    {
        write_array8(writer, &CLOSE_TOKEN_ACCOUNT_IX_DISCM);
        let r = self.0.write(writer);
        assert(r is Ok ==> final(writer)@ =~= old(writer)@ + self.spec_bytes());
        assert(r is Err ==> final(writer)@ =~= old(writer)@ + CLOSE_TOKEN_ACCOUNT_IX_DISCM@ + self.0.partial_bytes());
        r
    }

    /// The encoding as a fresh vector.
    pub fn try_to_vec(&self) -> (r: Result<Vec<u8>, CodecError>)
        ensures
            CloseTokenAccountIxArgs::serializable(self.0) ==> (r matches Ok(v) && v@ == self.spec_bytes()),
            !CloseTokenAccountIxArgs::serializable(self.0) ==> r == Err::<Vec<u8>, CodecError>(CodecError::InvalidData),
    {
        let mut data: Vec<u8> = Vec::new();
        self.serialize(&mut data)?;
        Ok(data)
    }

    /// What `try_to_vec` writes, `deserialize` reads back, whatever follows it.
    pub proof fn lemma_roundtrip(self, tail: Seq<u8>)
        requires
            self.0.serializable(),
        ensures
            (self.spec_bytes() + tail).len() >= 8,
            (self.spec_bytes() + tail).take(8) == CLOSE_TOKEN_ACCOUNT_IX_DISCM@,
            CloseTokenAccountIxArgs::fits(self.spec_bytes() + tail, 8),
            forall|x: Self| x.0.serializable() && #[trigger] x.spec_bytes().is_prefix_of(self.spec_bytes() + tail) ==> x == self,
    {
        let buf = self.spec_bytes() + tail;
        assert(buf.take(8) =~= CLOSE_TOKEN_ACCOUNT_IX_DISCM@);
        self.0.lemma_fits(CLOSE_TOKEN_ACCOUNT_IX_DISCM@, tail);
        assert(buf =~= CLOSE_TOKEN_ACCOUNT_IX_DISCM@ + self.0.spec_bytes() + tail);
        assert forall|x: Self| x.0.serializable() && #[trigger] x.spec_bytes().is_prefix_of(buf) implies x == self by {
            let rest = buf.subrange(8, buf.len() as int);
            assert(x.0.spec_bytes() =~= x.spec_bytes().subrange(8, x.spec_bytes().len() as int));
            assert(x.0.spec_bytes().is_prefix_of(rest));
            assert(self.0.spec_bytes().is_prefix_of(rest));
            CloseTokenAccountIxArgs::lemma_unique(x.0, self.0, rest);
        }
    }
}

#[derive(Clone, Debug, PartialEq, Eq)]
pub enum SplitterProgramIx {
    InitializePool(InitializePoolIxArgs),
    SaveRecentRoot(SaveRecentRootIxArgs),
    TransferWithCommitment(TransferWithCommitmentIxArgs),
    InitializeProof(InitializeProofIxArgs),
    UploadProof(UploadProofIxArgs),
    VerifyProof(VerifyProofIxArgs),
    CloseProof(CloseProofIxArgs),
    OpenTokenAccount(OpenTokenAccountIxArgs),
    CloseTokenAccount(CloseTokenAccountIxArgs),
}

impl SplitterProgramIx {
    /// Wire encoding: the variant's discriminator, then its arguments.
    pub open spec fn spec_bytes(self) -> Seq<u8> {
        match self {
            SplitterProgramIx::InitializePool(a) => INITIALIZE_POOL_IX_DISCM@ + a.spec_bytes(),
            SplitterProgramIx::SaveRecentRoot(a) => SAVE_RECENT_ROOT_IX_DISCM@ + a.spec_bytes(),
            SplitterProgramIx::TransferWithCommitment(a) => TRANSFER_WITH_COMMITMENT_IX_DISCM@ + a.spec_bytes(),
            SplitterProgramIx::InitializeProof(a) => INITIALIZE_PROOF_IX_DISCM@ + a.spec_bytes(),
            SplitterProgramIx::UploadProof(a) => UPLOAD_PROOF_IX_DISCM@ + a.spec_bytes(),
            SplitterProgramIx::VerifyProof(a) => VERIFY_PROOF_IX_DISCM@ + a.spec_bytes(),
            SplitterProgramIx::CloseProof(a) => CLOSE_PROOF_IX_DISCM@ + a.spec_bytes(),
            SplitterProgramIx::OpenTokenAccount(a) => OPEN_TOKEN_ACCOUNT_IX_DISCM@ + a.spec_bytes(),
            SplitterProgramIx::CloseTokenAccount(a) => CLOSE_TOKEN_ACCOUNT_IX_DISCM@ + a.spec_bytes(),
        }
    }

    pub open spec fn serializable(self) -> bool {
        match self {
            SplitterProgramIx::InitializePool(a) => a.serializable(),
            SplitterProgramIx::SaveRecentRoot(a) => a.serializable(),
            SplitterProgramIx::TransferWithCommitment(a) => a.serializable(),
            SplitterProgramIx::InitializeProof(a) => a.serializable(),
            SplitterProgramIx::UploadProof(a) => a.serializable(),
            SplitterProgramIx::VerifyProof(a) => a.serializable(),
            SplitterProgramIx::CloseProof(a) => a.serializable(),
            SplitterProgramIx::OpenTokenAccount(a) => a.serializable(),
            SplitterProgramIx::CloseTokenAccount(a) => a.serializable(),
        }
    }

    /// Whether `d` is the discriminator of one of the instructions.
    pub open spec fn known_discriminator(d: Seq<u8>) -> bool {
        d == INITIALIZE_POOL_IX_DISCM@ || d == SAVE_RECENT_ROOT_IX_DISCM@ || d == TRANSFER_WITH_COMMITMENT_IX_DISCM@ || d == INITIALIZE_PROOF_IX_DISCM@ || d == UPLOAD_PROOF_IX_DISCM@ || d == VERIFY_PROOF_IX_DISCM@ || d == CLOSE_PROOF_IX_DISCM@ || d == OPEN_TOKEN_ACCOUNT_IX_DISCM@ || d == CLOSE_TOKEN_ACCOUNT_IX_DISCM@
    }

    /// The two instructions carry the same arguments.
    pub open spec fn same(self, other: Self) -> bool {
        match (self, other) {
            (SplitterProgramIx::InitializePool(a), SplitterProgramIx::InitializePool(b)) => a.same(b),
            (SplitterProgramIx::SaveRecentRoot(a), SplitterProgramIx::SaveRecentRoot(b)) => a == b,
            (SplitterProgramIx::TransferWithCommitment(a), SplitterProgramIx::TransferWithCommitment(b)) => a == b,
            (SplitterProgramIx::InitializeProof(a), SplitterProgramIx::InitializeProof(b)) => a == b,
            (SplitterProgramIx::UploadProof(a), SplitterProgramIx::UploadProof(b)) => a.same(b),
            (SplitterProgramIx::VerifyProof(a), SplitterProgramIx::VerifyProof(b)) => a == b,
            (SplitterProgramIx::CloseProof(a), SplitterProgramIx::CloseProof(b)) => a == b,
            (SplitterProgramIx::OpenTokenAccount(a), SplitterProgramIx::OpenTokenAccount(b)) => a == b,
            (SplitterProgramIx::CloseTokenAccount(a), SplitterProgramIx::CloseTokenAccount(b)) => a == b,
            _ => false,
        }
    }

    pub fn deserialize(buf: &[u8]) -> (r: Result<Self, CodecError>)
        ensures
            buf@.len() < 8 ==> r == Err::<Self, CodecError>(CodecError::UnexpectedEnd),
            buf@.len() >= 8 && !Self::known_discriminator(buf@.take(8)) ==> r == Err::<Self, CodecError>(
                CodecError::UnknownDiscriminator,
            ),
            buf@.len() >= 8 && buf@.take(8) == INITIALIZE_POOL_IX_DISCM@ ==> {
                &&& InitializePoolIxArgs::fits(buf@, 8) <==> r is Ok
                &&& r matches Ok(ix) ==> ix is InitializePool && ix.serializable() && ix.spec_bytes().is_prefix_of(buf@)
                &&& !InitializePoolIxArgs::fits(buf@, 8) ==> r == Err::<Self, CodecError>(InitializePoolIxArgs::read_error(buf@, 8))
            },
            buf@.len() >= 8 && buf@.take(8) == SAVE_RECENT_ROOT_IX_DISCM@ ==> {
                &&& SaveRecentRootIxArgs::fits(buf@, 8) <==> r is Ok
                &&& r matches Ok(ix) ==> ix is SaveRecentRoot && ix.serializable() && ix.spec_bytes().is_prefix_of(buf@)
                &&& !SaveRecentRootIxArgs::fits(buf@, 8) ==> r == Err::<Self, CodecError>(SaveRecentRootIxArgs::read_error(buf@, 8))
            },
            buf@.len() >= 8 && buf@.take(8) == TRANSFER_WITH_COMMITMENT_IX_DISCM@ ==> {
                &&& TransferWithCommitmentIxArgs::fits(buf@, 8) <==> r is Ok
                &&& r matches Ok(ix) ==> ix is TransferWithCommitment && ix.serializable() && ix.spec_bytes().is_prefix_of(buf@)
                &&& !TransferWithCommitmentIxArgs::fits(buf@, 8) ==> r == Err::<Self, CodecError>(TransferWithCommitmentIxArgs::read_error(buf@, 8))
            },
            buf@.len() >= 8 && buf@.take(8) == INITIALIZE_PROOF_IX_DISCM@ ==> {
                &&& InitializeProofIxArgs::fits(buf@, 8) <==> r is Ok
                &&& r matches Ok(ix) ==> ix is InitializeProof && ix.serializable() && ix.spec_bytes().is_prefix_of(buf@)
                &&& !InitializeProofIxArgs::fits(buf@, 8) ==> r == Err::<Self, CodecError>(InitializeProofIxArgs::read_error(buf@, 8))
            },
            buf@.len() >= 8 && buf@.take(8) == UPLOAD_PROOF_IX_DISCM@ ==> {
                &&& UploadProofIxArgs::fits(buf@, 8) <==> r is Ok
                &&& r matches Ok(ix) ==> ix is UploadProof && ix.serializable() && ix.spec_bytes().is_prefix_of(buf@)
                &&& !UploadProofIxArgs::fits(buf@, 8) ==> r == Err::<Self, CodecError>(UploadProofIxArgs::read_error(buf@, 8))
            },
            buf@.len() >= 8 && buf@.take(8) == VERIFY_PROOF_IX_DISCM@ ==> {
                &&& VerifyProofIxArgs::fits(buf@, 8) <==> r is Ok
                &&& r matches Ok(ix) ==> ix is VerifyProof && ix.serializable() && ix.spec_bytes().is_prefix_of(buf@)
                &&& !VerifyProofIxArgs::fits(buf@, 8) ==> r == Err::<Self, CodecError>(VerifyProofIxArgs::read_error(buf@, 8))
            },
            buf@.len() >= 8 && buf@.take(8) == CLOSE_PROOF_IX_DISCM@ ==> {
                &&& CloseProofIxArgs::fits(buf@, 8) <==> r is Ok
                &&& r matches Ok(ix) ==> ix is CloseProof && ix.serializable() && ix.spec_bytes().is_prefix_of(buf@)
                &&& !CloseProofIxArgs::fits(buf@, 8) ==> r == Err::<Self, CodecError>(CloseProofIxArgs::read_error(buf@, 8))
            },
            buf@.len() >= 8 && buf@.take(8) == OPEN_TOKEN_ACCOUNT_IX_DISCM@ ==> {
                &&& OpenTokenAccountIxArgs::fits(buf@, 8) <==> r is Ok
                &&& r matches Ok(ix) ==> ix is OpenTokenAccount && ix.serializable() && ix.spec_bytes().is_prefix_of(buf@)
                &&& !OpenTokenAccountIxArgs::fits(buf@, 8) ==> r == Err::<Self, CodecError>(OpenTokenAccountIxArgs::read_error(buf@, 8))
            },
            buf@.len() >= 8 && buf@.take(8) == CLOSE_TOKEN_ACCOUNT_IX_DISCM@ ==> {
                &&& CloseTokenAccountIxArgs::fits(buf@, 8) <==> r is Ok
                &&& r matches Ok(ix) ==> ix is CloseTokenAccount && ix.serializable() && ix.spec_bytes().is_prefix_of(buf@)
                &&& !CloseTokenAccountIxArgs::fits(buf@, 8) ==> r == Err::<Self, CodecError>(CloseTokenAccountIxArgs::read_error(buf@, 8))
            },
    {
        if buf.len() < 8 {
            return Err(CodecError::UnexpectedEnd);
        }
        let d = &buf[0..8];
        assert(d@ == buf@.take(8));
        if bytes_eq(d, INITIALIZE_POOL_IX_DISCM.as_slice()) {
            let (a, end) = InitializePoolIxArgs::read(buf, 8)?;
            proof {
                assert(buf@.take(end as int) =~= buf@.take(8) + buf@.subrange(8, end as int));
            }
            return Ok(SplitterProgramIx::InitializePool(a));
        }
        if bytes_eq(d, SAVE_RECENT_ROOT_IX_DISCM.as_slice()) {
            let (a, end) = SaveRecentRootIxArgs::read(buf, 8)?;
            proof {
                assert(buf@.take(end as int) =~= buf@.take(8) + buf@.subrange(8, end as int));
            }
            return Ok(SplitterProgramIx::SaveRecentRoot(a));
        }
        if bytes_eq(d, TRANSFER_WITH_COMMITMENT_IX_DISCM.as_slice()) {
            let (a, end) = TransferWithCommitmentIxArgs::read(buf, 8)?;
            proof {
                assert(buf@.take(end as int) =~= buf@.take(8) + buf@.subrange(8, end as int));
            }
            return Ok(SplitterProgramIx::TransferWithCommitment(a));
        }
        if bytes_eq(d, INITIALIZE_PROOF_IX_DISCM.as_slice()) {
            let (a, end) = InitializeProofIxArgs::read(buf, 8)?;
            proof {
                assert(buf@.take(end as int) =~= buf@.take(8) + buf@.subrange(8, end as int));
            }
            return Ok(SplitterProgramIx::InitializeProof(a));
        }
        if bytes_eq(d, UPLOAD_PROOF_IX_DISCM.as_slice()) {
            let (a, end) = UploadProofIxArgs::read(buf, 8)?;
            proof {
                assert(buf@.take(end as int) =~= buf@.take(8) + buf@.subrange(8, end as int));
            }
            return Ok(SplitterProgramIx::UploadProof(a));
        }
        if bytes_eq(d, VERIFY_PROOF_IX_DISCM.as_slice()) {
            let (a, end) = VerifyProofIxArgs::read(buf, 8)?;
            proof {
                assert(buf@.take(end as int) =~= buf@.take(8) + buf@.subrange(8, end as int));
            }
            return Ok(SplitterProgramIx::VerifyProof(a));
        }
        if bytes_eq(d, CLOSE_PROOF_IX_DISCM.as_slice()) {
            let (a, end) = CloseProofIxArgs::read(buf, 8)?;
            proof {
                assert(buf@.take(end as int) =~= buf@.take(8) + buf@.subrange(8, end as int));
            }
            return Ok(SplitterProgramIx::CloseProof(a));
        }
        if bytes_eq(d, OPEN_TOKEN_ACCOUNT_IX_DISCM.as_slice()) {
            let (a, end) = OpenTokenAccountIxArgs::read(buf, 8)?;
            proof {
                assert(buf@.take(end as int) =~= buf@.take(8) + buf@.subrange(8, end as int));
            }
            return Ok(SplitterProgramIx::OpenTokenAccount(a));
        }
        if bytes_eq(d, CLOSE_TOKEN_ACCOUNT_IX_DISCM.as_slice()) {
            let (a, end) = CloseTokenAccountIxArgs::read(buf, 8)?;
            proof {
                assert(buf@.take(end as int) =~= buf@.take(8) + buf@.subrange(8, end as int));
            }
            return Ok(SplitterProgramIx::CloseTokenAccount(a));
        }
        Err(CodecError::UnknownDiscriminator)
    }

    /// Appends the encoding to `writer`.
    pub fn serialize(&self, writer: &mut Vec<u8>) -> (r: Result<(), CodecError>)
        ensures
            self.serializable() ==> r is Ok && final(writer)@ == old(writer)@ + self.spec_bytes(),
            !self.serializable() ==> r == Err::<(), CodecError>(CodecError::InvalidData),
    {
        let ghost start = writer@;
        let r = match self {
            SplitterProgramIx::InitializePool(a) => {
                write_array8(writer, &INITIALIZE_POOL_IX_DISCM);
                a.write(writer)
            },
            SplitterProgramIx::SaveRecentRoot(a) => {
                write_array8(writer, &SAVE_RECENT_ROOT_IX_DISCM);
                a.write(writer)
            },
            SplitterProgramIx::TransferWithCommitment(a) => {
                write_array8(writer, &TRANSFER_WITH_COMMITMENT_IX_DISCM);
                a.write(writer)
            },
            SplitterProgramIx::InitializeProof(a) => {
                write_array8(writer, &INITIALIZE_PROOF_IX_DISCM);
                a.write(writer)
            },
            SplitterProgramIx::UploadProof(a) => {
                write_array8(writer, &UPLOAD_PROOF_IX_DISCM);
                a.write(writer)
            },
            SplitterProgramIx::VerifyProof(a) => {
                write_array8(writer, &VERIFY_PROOF_IX_DISCM);
                a.write(writer)
            },
            SplitterProgramIx::CloseProof(a) => {
                write_array8(writer, &CLOSE_PROOF_IX_DISCM);
                a.write(writer)
            },
            SplitterProgramIx::OpenTokenAccount(a) => {
                write_array8(writer, &OPEN_TOKEN_ACCOUNT_IX_DISCM);
                a.write(writer)
            },
            SplitterProgramIx::CloseTokenAccount(a) => {
                write_array8(writer, &CLOSE_TOKEN_ACCOUNT_IX_DISCM);
                a.write(writer)
            },
        };
        assert(r is Ok ==> writer@ =~= start + self.spec_bytes());
        r
    }

    /// The encoding as a fresh vector.
    pub fn try_to_vec(&self) -> (r: Result<Vec<u8>, CodecError>)
        ensures
            self.serializable() ==> (r matches Ok(v) && v@ == self.spec_bytes()),
            !self.serializable() ==> r == Err::<Vec<u8>, CodecError>(CodecError::InvalidData),
    {
        let mut data: Vec<u8> = Vec::new();
        self.serialize(&mut data)?;
        Ok(data)
    }

    /// An instruction is written exactly as the data type of its variant
    /// writes its arguments: the same discriminator, then the same bytes.
    pub proof fn lemma_bytes_as_data(self)
        ensures
            match self {
                SplitterProgramIx::InitializePool(a) => self.spec_bytes() == (InitializePoolIxData(a)).spec_bytes(),
                SplitterProgramIx::SaveRecentRoot(a) => self.spec_bytes() == (SaveRecentRootIxData(a)).spec_bytes(),
                SplitterProgramIx::TransferWithCommitment(a) => self.spec_bytes() == (TransferWithCommitmentIxData(a)).spec_bytes(),
                SplitterProgramIx::InitializeProof(a) => self.spec_bytes() == (InitializeProofIxData(a)).spec_bytes(),
                SplitterProgramIx::UploadProof(a) => self.spec_bytes() == (UploadProofIxData(a)).spec_bytes(),
                SplitterProgramIx::VerifyProof(a) => self.spec_bytes() == (VerifyProofIxData(a)).spec_bytes(),
                SplitterProgramIx::CloseProof(a) => self.spec_bytes() == (CloseProofIxData(a)).spec_bytes(),
                SplitterProgramIx::OpenTokenAccount(a) => self.spec_bytes() == (OpenTokenAccountIxData(a)).spec_bytes(),
                SplitterProgramIx::CloseTokenAccount(a) => self.spec_bytes() == (CloseTokenAccountIxData(a)).spec_bytes(),
            },
    {
    }

    /// What `try_to_vec` writes, `deserialize` reads back as the same
    /// instruction, whatever follows it.
    pub proof fn lemma_roundtrip(self, tail: Seq<u8>)
        requires
            self.serializable(),
        ensures
            Self::known_discriminator((self.spec_bytes() + tail).take(8)),
            forall|x: Self| x.serializable() && #[trigger] x.spec_bytes().is_prefix_of(self.spec_bytes() + tail) ==> x.same(self),
    {
        let buf = self.spec_bytes() + tail;
        match self {
            SplitterProgramIx::InitializePool(a) => {
                a.lemma_fits(INITIALIZE_POOL_IX_DISCM@, tail);
                assert(buf =~= INITIALIZE_POOL_IX_DISCM@ + a.spec_bytes() + tail);
                assert(buf.take(8) =~= INITIALIZE_POOL_IX_DISCM@);
            },
            SplitterProgramIx::SaveRecentRoot(a) => {
                a.lemma_fits(SAVE_RECENT_ROOT_IX_DISCM@, tail);
                assert(buf =~= SAVE_RECENT_ROOT_IX_DISCM@ + a.spec_bytes() + tail);
                assert(buf.take(8) =~= SAVE_RECENT_ROOT_IX_DISCM@);
            },
            SplitterProgramIx::TransferWithCommitment(a) => {
                a.lemma_fits(TRANSFER_WITH_COMMITMENT_IX_DISCM@, tail);
                assert(buf =~= TRANSFER_WITH_COMMITMENT_IX_DISCM@ + a.spec_bytes() + tail);
                assert(buf.take(8) =~= TRANSFER_WITH_COMMITMENT_IX_DISCM@);
            },
            SplitterProgramIx::InitializeProof(a) => {
                a.lemma_fits(INITIALIZE_PROOF_IX_DISCM@, tail);
                assert(buf =~= INITIALIZE_PROOF_IX_DISCM@ + a.spec_bytes() + tail);
                assert(buf.take(8) =~= INITIALIZE_PROOF_IX_DISCM@);
            },
            SplitterProgramIx::UploadProof(a) => {
                a.lemma_fits(UPLOAD_PROOF_IX_DISCM@, tail);
                assert(buf =~= UPLOAD_PROOF_IX_DISCM@ + a.spec_bytes() + tail);
                assert(buf.take(8) =~= UPLOAD_PROOF_IX_DISCM@);
            },
            SplitterProgramIx::VerifyProof(a) => {
                a.lemma_fits(VERIFY_PROOF_IX_DISCM@, tail);
                assert(buf =~= VERIFY_PROOF_IX_DISCM@ + a.spec_bytes() + tail);
                assert(buf.take(8) =~= VERIFY_PROOF_IX_DISCM@);
            },
            SplitterProgramIx::CloseProof(a) => {
                a.lemma_fits(CLOSE_PROOF_IX_DISCM@, tail);
                assert(buf =~= CLOSE_PROOF_IX_DISCM@ + a.spec_bytes() + tail);
                assert(buf.take(8) =~= CLOSE_PROOF_IX_DISCM@);
            },
            SplitterProgramIx::OpenTokenAccount(a) => {
                a.lemma_fits(OPEN_TOKEN_ACCOUNT_IX_DISCM@, tail);
                assert(buf =~= OPEN_TOKEN_ACCOUNT_IX_DISCM@ + a.spec_bytes() + tail);
                assert(buf.take(8) =~= OPEN_TOKEN_ACCOUNT_IX_DISCM@);
            },
            SplitterProgramIx::CloseTokenAccount(a) => {
                a.lemma_fits(CLOSE_TOKEN_ACCOUNT_IX_DISCM@, tail);
                assert(buf =~= CLOSE_TOKEN_ACCOUNT_IX_DISCM@ + a.spec_bytes() + tail);
                assert(buf.take(8) =~= CLOSE_TOKEN_ACCOUNT_IX_DISCM@);
            },
        }
        assert forall|x: Self| x.serializable() && #[trigger] x.spec_bytes().is_prefix_of(buf) implies x.same(self) by {
            assert(x.spec_bytes()[0] == buf[0]);
            match self {
            SplitterProgramIx::InitializePool(a) => {
                match x {
                    SplitterProgramIx::InitializePool(b) => {
                        let rest = buf.subrange(8, buf.len() as int);
                        assert(b.spec_bytes() =~= x.spec_bytes().subrange(8, x.spec_bytes().len() as int));
                        assert(b.spec_bytes().is_prefix_of(rest));
                        assert(a.spec_bytes().is_prefix_of(rest));
                        InitializePoolIxArgs::lemma_unique(b, a, rest);
                    },
                    _ => {},
                }
            },
            SplitterProgramIx::SaveRecentRoot(a) => {
                match x {
                    SplitterProgramIx::SaveRecentRoot(b) => {
                        let rest = buf.subrange(8, buf.len() as int);
                        assert(b.spec_bytes() =~= x.spec_bytes().subrange(8, x.spec_bytes().len() as int));
                        assert(b.spec_bytes().is_prefix_of(rest));
                        assert(a.spec_bytes().is_prefix_of(rest));
                        SaveRecentRootIxArgs::lemma_unique(b, a, rest);
                    },
                    _ => {},
                }
            },
            SplitterProgramIx::TransferWithCommitment(a) => {
                match x {
                    SplitterProgramIx::TransferWithCommitment(b) => {
                        let rest = buf.subrange(8, buf.len() as int);
                        assert(b.spec_bytes() =~= x.spec_bytes().subrange(8, x.spec_bytes().len() as int));
                        assert(b.spec_bytes().is_prefix_of(rest));
                        assert(a.spec_bytes().is_prefix_of(rest));
                        TransferWithCommitmentIxArgs::lemma_unique(b, a, rest);
                    },
                    _ => {},
                }
            },
            SplitterProgramIx::InitializeProof(a) => {
                match x {
                    SplitterProgramIx::InitializeProof(b) => {
                        let rest = buf.subrange(8, buf.len() as int);
                        assert(b.spec_bytes() =~= x.spec_bytes().subrange(8, x.spec_bytes().len() as int));
                        assert(b.spec_bytes().is_prefix_of(rest));
                        assert(a.spec_bytes().is_prefix_of(rest));
                        InitializeProofIxArgs::lemma_unique(b, a, rest);
                    },
                    _ => {},
                }
            },
            SplitterProgramIx::UploadProof(a) => {
                match x {
                    SplitterProgramIx::UploadProof(b) => {
                        let rest = buf.subrange(8, buf.len() as int);
                        assert(b.spec_bytes() =~= x.spec_bytes().subrange(8, x.spec_bytes().len() as int));
                        assert(b.spec_bytes().is_prefix_of(rest));
                        assert(a.spec_bytes().is_prefix_of(rest));
                        UploadProofIxArgs::lemma_unique(b, a, rest);
                    },
                    _ => {},
                }
            },
            SplitterProgramIx::VerifyProof(a) => {
                match x {
                    SplitterProgramIx::VerifyProof(b) => {
                        let rest = buf.subrange(8, buf.len() as int);
                        assert(b.spec_bytes() =~= x.spec_bytes().subrange(8, x.spec_bytes().len() as int));
                        assert(b.spec_bytes().is_prefix_of(rest));
                        assert(a.spec_bytes().is_prefix_of(rest));
                        VerifyProofIxArgs::lemma_unique(b, a, rest);
                    },
                    _ => {},
                }
            },
            SplitterProgramIx::CloseProof(a) => {
                match x {
                    SplitterProgramIx::CloseProof(b) => {
                        let rest = buf.subrange(8, buf.len() as int);
                        assert(b.spec_bytes() =~= x.spec_bytes().subrange(8, x.spec_bytes().len() as int));
                        assert(b.spec_bytes().is_prefix_of(rest));
                        assert(a.spec_bytes().is_prefix_of(rest));
                        CloseProofIxArgs::lemma_unique(b, a, rest);
                    },
                    _ => {},
                }
            },
            SplitterProgramIx::OpenTokenAccount(a) => {
                match x {
                    SplitterProgramIx::OpenTokenAccount(b) => {
                        let rest = buf.subrange(8, buf.len() as int);
                        assert(b.spec_bytes() =~= x.spec_bytes().subrange(8, x.spec_bytes().len() as int));
                        assert(b.spec_bytes().is_prefix_of(rest));
                        assert(a.spec_bytes().is_prefix_of(rest));
                        OpenTokenAccountIxArgs::lemma_unique(b, a, rest);
                    },
                    _ => {},
                }
            },
            SplitterProgramIx::CloseTokenAccount(a) => {
                match x {
                    SplitterProgramIx::CloseTokenAccount(b) => {
                        let rest = buf.subrange(8, buf.len() as int);
                        assert(b.spec_bytes() =~= x.spec_bytes().subrange(8, x.spec_bytes().len() as int));
                        assert(b.spec_bytes().is_prefix_of(rest));
                        assert(a.spec_bytes().is_prefix_of(rest));
                        CloseTokenAccountIxArgs::lemma_unique(b, a, rest);
                    },
                    _ => {},
                }
            },
            }
        }
    }
}

pub const INITIALIZE_POOL_IX_ACCOUNTS_LEN: usize = 8;

/// The accounts handed to the instruction.
#[derive(Clone, Copy, Debug, PartialEq, Eq)]
pub struct InitializePoolAccounts {
    pub pool: AccountView,
    pub vault: AccountView,
    pub mint: AccountView,
    pub authority: AccountView,
    pub payer: AccountView,
    pub token_program: AccountView,
    pub system_program: AccountView,
    pub rent: AccountView,
}

/// The addresses of the instruction's accounts.
#[derive(Clone, Copy, Debug, PartialEq, Eq)]
pub struct InitializePoolKeys {
    pub pool: Pubkey,
    pub vault: Pubkey,
    pub mint: Pubkey,
    pub authority: Pubkey,
    pub payer: Pubkey,
    pub token_program: Pubkey,
    pub system_program: Pubkey,
    pub rent: Pubkey,
}

impl InitializePoolKeys {
    /// The instruction's account list: each key with the privileges the
    /// instruction asks for it.
    pub open spec fn spec_metas(self) -> Seq<AccountMeta> {
        seq![meta(self.pool, false, true), meta(self.vault, false, true), meta(self.mint, false, false), meta(self.authority, true, false), meta(self.payer, true, true), meta(self.token_program, false, false), meta(self.system_program, false, false), meta(self.rent, false, false)]
    }

    /// The instruction's account list.
    pub fn account_metas(&self) -> (r: [AccountMeta; INITIALIZE_POOL_IX_ACCOUNTS_LEN])
        ensures
            r@ == self.spec_metas(),
    {
        let r = [
            AccountMeta { pubkey: self.pool, is_signer: false, is_writable: true },
            AccountMeta { pubkey: self.vault, is_signer: false, is_writable: true },
            AccountMeta { pubkey: self.mint, is_signer: false, is_writable: false },
            AccountMeta { pubkey: self.authority, is_signer: true, is_writable: false },
            AccountMeta { pubkey: self.payer, is_signer: true, is_writable: true },
            AccountMeta { pubkey: self.token_program, is_signer: false, is_writable: false },
            AccountMeta { pubkey: self.system_program, is_signer: false, is_writable: false },
            AccountMeta { pubkey: self.rent, is_signer: false, is_writable: false },
        ];
        assert(r@ =~= self.spec_metas());
        r
    }
}

impl From<[Pubkey; INITIALIZE_POOL_IX_ACCOUNTS_LEN]> for InitializePoolKeys {
    fn from(pubkeys: [Pubkey; INITIALIZE_POOL_IX_ACCOUNTS_LEN]) -> (r: Self) {
        InitializePoolKeys { pool: pubkeys[0], vault: pubkeys[1], mint: pubkeys[2], authority: pubkeys[3], payer: pubkeys[4], token_program: pubkeys[5], system_program: pubkeys[6], rent: pubkeys[7] }
    }
}

impl vstd::std_specs::convert::FromSpecImpl<[Pubkey; INITIALIZE_POOL_IX_ACCOUNTS_LEN]> for InitializePoolKeys {
    open spec fn obeys_from_spec() -> bool {
        true
    }

    open spec fn from_spec(pubkeys: [Pubkey; INITIALIZE_POOL_IX_ACCOUNTS_LEN]) -> Self {
        InitializePoolKeys { pool: pubkeys[0], vault: pubkeys[1], mint: pubkeys[2], authority: pubkeys[3], payer: pubkeys[4], token_program: pubkeys[5], system_program: pubkeys[6], rent: pubkeys[7] }
    }
}

impl From<InitializePoolAccounts> for InitializePoolKeys {
    fn from(accounts: InitializePoolAccounts) -> (r: Self) {
        InitializePoolKeys { pool: accounts.pool.key, vault: accounts.vault.key, mint: accounts.mint.key, authority: accounts.authority.key, payer: accounts.payer.key, token_program: accounts.token_program.key, system_program: accounts.system_program.key, rent: accounts.rent.key }
    }
}

impl vstd::std_specs::convert::FromSpecImpl<InitializePoolAccounts> for InitializePoolKeys {
    open spec fn obeys_from_spec() -> bool {
        true
    }

    open spec fn from_spec(accounts: InitializePoolAccounts) -> Self {
        InitializePoolKeys { pool: accounts.pool.key, vault: accounts.vault.key, mint: accounts.mint.key, authority: accounts.authority.key, payer: accounts.payer.key, token_program: accounts.token_program.key, system_program: accounts.system_program.key, rent: accounts.rent.key }
    }
}

impl From<[AccountView; INITIALIZE_POOL_IX_ACCOUNTS_LEN]> for InitializePoolAccounts {
    fn from(views: [AccountView; INITIALIZE_POOL_IX_ACCOUNTS_LEN]) -> (r: Self) {
        InitializePoolAccounts { pool: views[0], vault: views[1], mint: views[2], authority: views[3], payer: views[4], token_program: views[5], system_program: views[6], rent: views[7] }
    }
}

impl vstd::std_specs::convert::FromSpecImpl<[AccountView; INITIALIZE_POOL_IX_ACCOUNTS_LEN]> for InitializePoolAccounts {
    open spec fn obeys_from_spec() -> bool {
        true
    }

    open spec fn from_spec(views: [AccountView; INITIALIZE_POOL_IX_ACCOUNTS_LEN]) -> Self {
        InitializePoolAccounts { pool: views[0], vault: views[1], mint: views[2], authority: views[3], payer: views[4], token_program: views[5], system_program: views[6], rent: views[7] }
    }
}

impl InitializePoolAccounts {
    /// The accounts in the instruction's order.
    pub open spec fn spec_list(self) -> Seq<AccountView> {
        seq![self.pool, self.vault, self.mint, self.authority, self.payer, self.token_program, self.system_program, self.rent]
    }
}

/// Builds the instruction for the program at `program_id`; arguments that
/// cannot be encoded are refused.
pub fn initialize_pool_ix_with_program_id(program_id: Pubkey, keys: InitializePoolKeys, args: InitializePoolIxArgs) -> (r: Result<Instruction, CodecError>)
    ensures
        args.serializable() ==> (r matches Ok(ix) && ix.program_id == program_id && ix.accounts@ == keys.spec_metas()
            && ix.data@ == InitializePoolIxData(args).spec_bytes()),
        !args.serializable() ==> r == Err::<Instruction, CodecError>(CodecError::InvalidData),
{
    let metas = keys.account_metas();
    let data = InitializePoolIxData(args).try_to_vec()?;
    Ok(Instruction { program_id, accounts: meta_list(metas.as_slice()), data })
}

/// Builds the instruction for the program at its own address.
pub fn initialize_pool_ix(keys: InitializePoolKeys, args: InitializePoolIxArgs) -> (r: Result<Instruction, CodecError>)
    ensures
        args.serializable() ==> (r matches Ok(ix) && ix.program_id == ID && ix.accounts@ == keys.spec_metas()
            && ix.data@ == InitializePoolIxData(args).spec_bytes()),
        !args.serializable() ==> r == Err::<Instruction, CodecError>(CodecError::InvalidData),
{
    initialize_pool_ix_with_program_id(ID, keys, args)
}

/// An instruction built from `keys` passes the checks of its accounts when
/// each account arrives in the order of the keys with the privileges its
/// account meta asks for: every key matches, every account whose write
/// access is checked is writable and every account whose signature is
/// checked signed.
pub proof fn lemma_initialize_pool_metas_pass_checks(keys: InitializePoolKeys, accounts: InitializePoolAccounts)
    requires
        accounts.pool.key == keys.spec_metas()[0].pubkey,
        accounts.pool.is_writable == keys.spec_metas()[0].is_writable,
        accounts.pool.is_signer == keys.spec_metas()[0].is_signer,
        accounts.vault.key == keys.spec_metas()[1].pubkey,
        accounts.vault.is_writable == keys.spec_metas()[1].is_writable,
        accounts.vault.is_signer == keys.spec_metas()[1].is_signer,
        accounts.mint.key == keys.spec_metas()[2].pubkey,
        accounts.mint.is_writable == keys.spec_metas()[2].is_writable,
        accounts.mint.is_signer == keys.spec_metas()[2].is_signer,
        accounts.authority.key == keys.spec_metas()[3].pubkey,
        accounts.authority.is_writable == keys.spec_metas()[3].is_writable,
        accounts.authority.is_signer == keys.spec_metas()[3].is_signer,
        accounts.payer.key == keys.spec_metas()[4].pubkey,
        accounts.payer.is_writable == keys.spec_metas()[4].is_writable,
        accounts.payer.is_signer == keys.spec_metas()[4].is_signer,
        accounts.token_program.key == keys.spec_metas()[5].pubkey,
        accounts.token_program.is_writable == keys.spec_metas()[5].is_writable,
        accounts.token_program.is_signer == keys.spec_metas()[5].is_signer,
        accounts.system_program.key == keys.spec_metas()[6].pubkey,
        accounts.system_program.is_writable == keys.spec_metas()[6].is_writable,
        accounts.system_program.is_signer == keys.spec_metas()[6].is_signer,
        accounts.rent.key == keys.spec_metas()[7].pubkey,
        accounts.rent.is_writable == keys.spec_metas()[7].is_writable,
        accounts.rent.is_signer == keys.spec_metas()[7].is_signer,
    ensures
        first_key_mismatch(seq![(accounts.pool.key, keys.pool), (accounts.vault.key, keys.vault), (accounts.mint.key, keys.mint), (accounts.authority.key, keys.authority), (accounts.payer.key, keys.payer), (accounts.token_program.key, keys.token_program), (accounts.system_program.key, keys.system_program), (accounts.rent.key, keys.rent)]) is Ok,
        first_not_writable(seq![accounts.pool, accounts.vault, accounts.payer]) is Ok,
        first_not_signer(seq![accounts.authority, accounts.payer]) is Ok,
{
    lemma_keys_all_match(seq![(accounts.pool.key, keys.pool), (accounts.vault.key, keys.vault), (accounts.mint.key, keys.mint), (accounts.authority.key, keys.authority), (accounts.payer.key, keys.payer), (accounts.token_program.key, keys.token_program), (accounts.system_program.key, keys.system_program), (accounts.rent.key, keys.rent)]);
    lemma_all_writable(seq![accounts.pool, accounts.vault, accounts.payer]);
    lemma_all_signed(seq![accounts.authority, accounts.payer]);
}

/// Checks each account's address against the expected one, in order;
/// the first that differs is reported as (actual, expected).
pub fn initialize_pool_verify_account_keys(accounts: InitializePoolAccounts, keys: InitializePoolKeys) -> (r: Result<(), (Pubkey, Pubkey)>)
    ensures
        r == first_key_mismatch(seq![(accounts.pool.key, keys.pool), (accounts.vault.key, keys.vault), (accounts.mint.key, keys.mint), (accounts.authority.key, keys.authority), (accounts.payer.key, keys.payer), (accounts.token_program.key, keys.token_program), (accounts.system_program.key, keys.system_program), (accounts.rent.key, keys.rent)]),
{
    let pairs = [(accounts.pool.key, keys.pool), (accounts.vault.key, keys.vault), (accounts.mint.key, keys.mint), (accounts.authority.key, keys.authority), (accounts.payer.key, keys.payer), (accounts.token_program.key, keys.token_program), (accounts.system_program.key, keys.system_program), (accounts.rent.key, keys.rent)];
    let r = check_keys(pairs.as_slice());
    assert(pairs@ =~= seq![(accounts.pool.key, keys.pool), (accounts.vault.key, keys.vault), (accounts.mint.key, keys.mint), (accounts.authority.key, keys.authority), (accounts.payer.key, keys.payer), (accounts.token_program.key, keys.token_program), (accounts.system_program.key, keys.system_program), (accounts.rent.key, keys.rent)]);
    r
}

/// Checks that the accounts the instruction writes to are writable; the first account that fails is reported.
pub fn initialize_pool_verify_writable_privileges(accounts: InitializePoolAccounts) -> (r: Result<(), (AccountView, ProgramError)>)
    ensures
        r == first_not_writable(seq![accounts.pool, accounts.vault, accounts.payer]),
{
    let list = [accounts.pool, accounts.vault, accounts.payer];
    let r = check_writable(list.as_slice());
    assert(list@ =~= seq![accounts.pool, accounts.vault, accounts.payer]);
    r
}

/// Checks that the accounts the instruction needs signatures from signed; the first account that fails is reported.
pub fn initialize_pool_verify_signer_privileges(accounts: InitializePoolAccounts) -> (r: Result<(), (AccountView, ProgramError)>)
    ensures
        r == first_not_signer(seq![accounts.authority, accounts.payer]),
{
    let list = [accounts.authority, accounts.payer];
    let r = check_signers(list.as_slice());
    assert(list@ =~= seq![accounts.authority, accounts.payer]);
    r
}

/// Checks write access, then signatures.
pub fn initialize_pool_verify_account_privileges(accounts: InitializePoolAccounts) -> (r: Result<(), (AccountView, ProgramError)>)
    ensures
        r == (match first_not_writable(seq![accounts.pool, accounts.vault, accounts.payer]) {
            Err(e) => Err(e),
            Ok(()) => first_not_signer(seq![accounts.authority, accounts.payer]),
        }),
{
    initialize_pool_verify_writable_privileges(accounts)?;
    initialize_pool_verify_signer_privileges(accounts)?;
    Ok(())
}

pub const SAVE_RECENT_ROOT_IX_ACCOUNTS_LEN: usize = 3;

/// The accounts handed to the instruction.
#[derive(Clone, Copy, Debug, PartialEq, Eq)]
pub struct SaveRecentRootAccounts {
    pub pool: AccountView,
    pub authority: AccountView,
    pub payer: AccountView,
}

/// The addresses of the instruction's accounts.
#[derive(Clone, Copy, Debug, PartialEq, Eq)]
pub struct SaveRecentRootKeys {
    pub pool: Pubkey,
    pub authority: Pubkey,
    pub payer: Pubkey,
}

impl SaveRecentRootKeys {
    /// The instruction's account list: each key with the privileges the
    /// instruction asks for it.
    pub open spec fn spec_metas(self) -> Seq<AccountMeta> {
        seq![meta(self.pool, false, true), meta(self.authority, true, false), meta(self.payer, true, true)]
    }

    /// The instruction's account list.
    pub fn account_metas(&self) -> (r: [AccountMeta; SAVE_RECENT_ROOT_IX_ACCOUNTS_LEN])
        ensures
            r@ == self.spec_metas(),
    {
        let r = [
            AccountMeta { pubkey: self.pool, is_signer: false, is_writable: true },
            AccountMeta { pubkey: self.authority, is_signer: true, is_writable: false },
            AccountMeta { pubkey: self.payer, is_signer: true, is_writable: true },
        ];
        assert(r@ =~= self.spec_metas());
        r
    }
}

impl From<[Pubkey; SAVE_RECENT_ROOT_IX_ACCOUNTS_LEN]> for SaveRecentRootKeys {
    fn from(pubkeys: [Pubkey; SAVE_RECENT_ROOT_IX_ACCOUNTS_LEN]) -> (r: Self) {
        SaveRecentRootKeys { pool: pubkeys[0], authority: pubkeys[1], payer: pubkeys[2] }
    }
}

impl vstd::std_specs::convert::FromSpecImpl<[Pubkey; SAVE_RECENT_ROOT_IX_ACCOUNTS_LEN]> for SaveRecentRootKeys {
    open spec fn obeys_from_spec() -> bool {
        true
    }

    open spec fn from_spec(pubkeys: [Pubkey; SAVE_RECENT_ROOT_IX_ACCOUNTS_LEN]) -> Self {
        SaveRecentRootKeys { pool: pubkeys[0], authority: pubkeys[1], payer: pubkeys[2] }
    }
}

impl From<SaveRecentRootAccounts> for SaveRecentRootKeys {
    fn from(accounts: SaveRecentRootAccounts) -> (r: Self) {
        SaveRecentRootKeys { pool: accounts.pool.key, authority: accounts.authority.key, payer: accounts.payer.key }
    }
}

impl vstd::std_specs::convert::FromSpecImpl<SaveRecentRootAccounts> for SaveRecentRootKeys {
    open spec fn obeys_from_spec() -> bool {
        true
    }

    open spec fn from_spec(accounts: SaveRecentRootAccounts) -> Self {
        SaveRecentRootKeys { pool: accounts.pool.key, authority: accounts.authority.key, payer: accounts.payer.key }
    }
}

impl From<[AccountView; SAVE_RECENT_ROOT_IX_ACCOUNTS_LEN]> for SaveRecentRootAccounts {
    fn from(views: [AccountView; SAVE_RECENT_ROOT_IX_ACCOUNTS_LEN]) -> (r: Self) {
        SaveRecentRootAccounts { pool: views[0], authority: views[1], payer: views[2] }
    }
}

impl vstd::std_specs::convert::FromSpecImpl<[AccountView; SAVE_RECENT_ROOT_IX_ACCOUNTS_LEN]> for SaveRecentRootAccounts {
    open spec fn obeys_from_spec() -> bool {
        true
    }

    open spec fn from_spec(views: [AccountView; SAVE_RECENT_ROOT_IX_ACCOUNTS_LEN]) -> Self {
        SaveRecentRootAccounts { pool: views[0], authority: views[1], payer: views[2] }
    }
}

impl SaveRecentRootAccounts {
    /// The accounts in the instruction's order.
    pub open spec fn spec_list(self) -> Seq<AccountView> {
        seq![self.pool, self.authority, self.payer]
    }
}

/// Builds the instruction for the program at `program_id`; arguments that
/// cannot be encoded are refused.
pub fn save_recent_root_ix_with_program_id(program_id: Pubkey, keys: SaveRecentRootKeys, args: SaveRecentRootIxArgs) -> (r: Result<Instruction, CodecError>)
    ensures
        args.serializable() ==> (r matches Ok(ix) && ix.program_id == program_id && ix.accounts@ == keys.spec_metas()
            && ix.data@ == SaveRecentRootIxData(args).spec_bytes()),
        !args.serializable() ==> r == Err::<Instruction, CodecError>(CodecError::InvalidData),
{
    let metas = keys.account_metas();
    let data = SaveRecentRootIxData(args).try_to_vec()?;
    Ok(Instruction { program_id, accounts: meta_list(metas.as_slice()), data })
}

/// Builds the instruction for the program at its own address.
pub fn save_recent_root_ix(keys: SaveRecentRootKeys, args: SaveRecentRootIxArgs) -> (r: Result<Instruction, CodecError>)
    ensures
        args.serializable() ==> (r matches Ok(ix) && ix.program_id == ID && ix.accounts@ == keys.spec_metas()
            && ix.data@ == SaveRecentRootIxData(args).spec_bytes()),
        !args.serializable() ==> r == Err::<Instruction, CodecError>(CodecError::InvalidData),
{
    save_recent_root_ix_with_program_id(ID, keys, args)
}

/// An instruction built from `keys` passes the checks of its accounts when
/// each account arrives in the order of the keys with the privileges its
/// account meta asks for: every key matches, every account whose write
/// access is checked is writable and every account whose signature is
/// checked signed.
pub proof fn lemma_save_recent_root_metas_pass_checks(keys: SaveRecentRootKeys, accounts: SaveRecentRootAccounts)
    requires
        accounts.pool.key == keys.spec_metas()[0].pubkey,
        accounts.pool.is_writable == keys.spec_metas()[0].is_writable,
        accounts.pool.is_signer == keys.spec_metas()[0].is_signer,
        accounts.authority.key == keys.spec_metas()[1].pubkey,
        accounts.authority.is_writable == keys.spec_metas()[1].is_writable,
        accounts.authority.is_signer == keys.spec_metas()[1].is_signer,
        accounts.payer.key == keys.spec_metas()[2].pubkey,
        accounts.payer.is_writable == keys.spec_metas()[2].is_writable,
        accounts.payer.is_signer == keys.spec_metas()[2].is_signer,
    ensures
        first_key_mismatch(seq![(accounts.pool.key, keys.pool), (accounts.authority.key, keys.authority), (accounts.payer.key, keys.payer)]) is Ok,
        first_not_writable(seq![accounts.pool, accounts.payer]) is Ok,
        first_not_signer(seq![accounts.authority, accounts.payer]) is Ok,
{
    lemma_keys_all_match(seq![(accounts.pool.key, keys.pool), (accounts.authority.key, keys.authority), (accounts.payer.key, keys.payer)]);
    lemma_all_writable(seq![accounts.pool, accounts.payer]);
    lemma_all_signed(seq![accounts.authority, accounts.payer]);
}

/// Checks each account's address against the expected one, in order;
/// the first that differs is reported as (actual, expected).
pub fn save_recent_root_verify_account_keys(accounts: SaveRecentRootAccounts, keys: SaveRecentRootKeys) -> (r: Result<(), (Pubkey, Pubkey)>)
    ensures
        r == first_key_mismatch(seq![(accounts.pool.key, keys.pool), (accounts.authority.key, keys.authority), (accounts.payer.key, keys.payer)]),
{
    let pairs = [(accounts.pool.key, keys.pool), (accounts.authority.key, keys.authority), (accounts.payer.key, keys.payer)];
    let r = check_keys(pairs.as_slice());
    assert(pairs@ =~= seq![(accounts.pool.key, keys.pool), (accounts.authority.key, keys.authority), (accounts.payer.key, keys.payer)]);
    r
}

/// Checks that the accounts the instruction writes to are writable; the first account that fails is reported.
pub fn save_recent_root_verify_writable_privileges(accounts: SaveRecentRootAccounts) -> (r: Result<(), (AccountView, ProgramError)>)
    ensures
        r == first_not_writable(seq![accounts.pool, accounts.payer]),
{
    let list = [accounts.pool, accounts.payer];
    let r = check_writable(list.as_slice());
    assert(list@ =~= seq![accounts.pool, accounts.payer]);
    r
}

/// Checks that the accounts the instruction needs signatures from signed; the first account that fails is reported.
pub fn save_recent_root_verify_signer_privileges(accounts: SaveRecentRootAccounts) -> (r: Result<(), (AccountView, ProgramError)>)
    ensures
        r == first_not_signer(seq![accounts.authority, accounts.payer]),
{
    let list = [accounts.authority, accounts.payer];
    let r = check_signers(list.as_slice());
    assert(list@ =~= seq![accounts.authority, accounts.payer]);
    r
}

/// Checks write access, then signatures.
pub fn save_recent_root_verify_account_privileges(accounts: SaveRecentRootAccounts) -> (r: Result<(), (AccountView, ProgramError)>)
    ensures
        r == (match first_not_writable(seq![accounts.pool, accounts.payer]) {
            Err(e) => Err(e),
            Ok(()) => first_not_signer(seq![accounts.authority, accounts.payer]),
        }),
{
    save_recent_root_verify_writable_privileges(accounts)?;
    save_recent_root_verify_signer_privileges(accounts)?;
    Ok(())
}

pub const TRANSFER_WITH_COMMITMENT_IX_ACCOUNTS_LEN: usize = 9;

/// The accounts handed to the instruction.
#[derive(Clone, Copy, Debug, PartialEq, Eq)]
pub struct TransferWithCommitmentAccounts {
    pub pool: AccountView,
    pub vault: AccountView,
    pub destination: AccountView,
    pub commitment: AccountView,
    pub authority: AccountView,
    pub payer: AccountView,
    pub token_program: AccountView,
    pub system_program: AccountView,
    pub rent: AccountView,
}

/// The addresses of the instruction's accounts.
#[derive(Clone, Copy, Debug, PartialEq, Eq)]
pub struct TransferWithCommitmentKeys {
    pub pool: Pubkey,
    pub vault: Pubkey,
    pub destination: Pubkey,
    pub commitment: Pubkey,
    pub authority: Pubkey,
    pub payer: Pubkey,
    pub token_program: Pubkey,
    pub system_program: Pubkey,
    pub rent: Pubkey,
}

impl TransferWithCommitmentKeys {
    /// The instruction's account list: each key with the privileges the
    /// instruction asks for it.
    pub open spec fn spec_metas(self) -> Seq<AccountMeta> {
        seq![meta(self.pool, false, true), meta(self.vault, false, true), meta(self.destination, false, true), meta(self.commitment, false, false), meta(self.authority, true, false), meta(self.payer, true, true), meta(self.token_program, false, false), meta(self.system_program, false, false), meta(self.rent, false, false)]
    }

    /// The instruction's account list.
    pub fn account_metas(&self) -> (r: [AccountMeta; TRANSFER_WITH_COMMITMENT_IX_ACCOUNTS_LEN])
        ensures
            r@ == self.spec_metas(),
    {
        let r = [
            AccountMeta { pubkey: self.pool, is_signer: false, is_writable: true },
            AccountMeta { pubkey: self.vault, is_signer: false, is_writable: true },
            AccountMeta { pubkey: self.destination, is_signer: false, is_writable: true },
            AccountMeta { pubkey: self.commitment, is_signer: false, is_writable: false },
            AccountMeta { pubkey: self.authority, is_signer: true, is_writable: false },
            AccountMeta { pubkey: self.payer, is_signer: true, is_writable: true },
            AccountMeta { pubkey: self.token_program, is_signer: false, is_writable: false },
            AccountMeta { pubkey: self.system_program, is_signer: false, is_writable: false },
            AccountMeta { pubkey: self.rent, is_signer: false, is_writable: false },
        ];
        assert(r@ =~= self.spec_metas());
        r
    }
}

impl From<[Pubkey; TRANSFER_WITH_COMMITMENT_IX_ACCOUNTS_LEN]> for TransferWithCommitmentKeys {
    fn from(pubkeys: [Pubkey; TRANSFER_WITH_COMMITMENT_IX_ACCOUNTS_LEN]) -> (r: Self) {
        TransferWithCommitmentKeys { pool: pubkeys[0], vault: pubkeys[1], destination: pubkeys[2], commitment: pubkeys[3], authority: pubkeys[4], payer: pubkeys[5], token_program: pubkeys[6], system_program: pubkeys[7], rent: pubkeys[8] }
    }
}

impl vstd::std_specs::convert::FromSpecImpl<[Pubkey; TRANSFER_WITH_COMMITMENT_IX_ACCOUNTS_LEN]> for TransferWithCommitmentKeys {
    open spec fn obeys_from_spec() -> bool {
        true
    }

    open spec fn from_spec(pubkeys: [Pubkey; TRANSFER_WITH_COMMITMENT_IX_ACCOUNTS_LEN]) -> Self {
        TransferWithCommitmentKeys { pool: pubkeys[0], vault: pubkeys[1], destination: pubkeys[2], commitment: pubkeys[3], authority: pubkeys[4], payer: pubkeys[5], token_program: pubkeys[6], system_program: pubkeys[7], rent: pubkeys[8] }
    }
}

impl From<TransferWithCommitmentAccounts> for TransferWithCommitmentKeys {
    fn from(accounts: TransferWithCommitmentAccounts) -> (r: Self) {
        TransferWithCommitmentKeys { pool: accounts.pool.key, vault: accounts.vault.key, destination: accounts.destination.key, commitment: accounts.commitment.key, authority: accounts.authority.key, payer: accounts.payer.key, token_program: accounts.token_program.key, system_program: accounts.system_program.key, rent: accounts.rent.key }
    }
}

impl vstd::std_specs::convert::FromSpecImpl<TransferWithCommitmentAccounts> for TransferWithCommitmentKeys {
    open spec fn obeys_from_spec() -> bool {
        true
    }

    open spec fn from_spec(accounts: TransferWithCommitmentAccounts) -> Self {
        TransferWithCommitmentKeys { pool: accounts.pool.key, vault: accounts.vault.key, destination: accounts.destination.key, commitment: accounts.commitment.key, authority: accounts.authority.key, payer: accounts.payer.key, token_program: accounts.token_program.key, system_program: accounts.system_program.key, rent: accounts.rent.key }
    }
}

impl From<[AccountView; TRANSFER_WITH_COMMITMENT_IX_ACCOUNTS_LEN]> for TransferWithCommitmentAccounts {
    fn from(views: [AccountView; TRANSFER_WITH_COMMITMENT_IX_ACCOUNTS_LEN]) -> (r: Self) {
        TransferWithCommitmentAccounts { pool: views[0], vault: views[1], destination: views[2], commitment: views[3], authority: views[4], payer: views[5], token_program: views[6], system_program: views[7], rent: views[8] }
    }
}

impl vstd::std_specs::convert::FromSpecImpl<[AccountView; TRANSFER_WITH_COMMITMENT_IX_ACCOUNTS_LEN]> for TransferWithCommitmentAccounts {
    open spec fn obeys_from_spec() -> bool {
        true
    }

    open spec fn from_spec(views: [AccountView; TRANSFER_WITH_COMMITMENT_IX_ACCOUNTS_LEN]) -> Self {
        TransferWithCommitmentAccounts { pool: views[0], vault: views[1], destination: views[2], commitment: views[3], authority: views[4], payer: views[5], token_program: views[6], system_program: views[7], rent: views[8] }
    }
}

impl TransferWithCommitmentAccounts {
    /// The accounts in the instruction's order.
    pub open spec fn spec_list(self) -> Seq<AccountView> {
        seq![self.pool, self.vault, self.destination, self.commitment, self.authority, self.payer, self.token_program, self.system_program, self.rent]
    }
}

/// Builds the instruction for the program at `program_id`; arguments that
/// cannot be encoded are refused.
pub fn transfer_with_commitment_ix_with_program_id(program_id: Pubkey, keys: TransferWithCommitmentKeys, args: TransferWithCommitmentIxArgs) -> (r: Result<Instruction, CodecError>)
    ensures
        args.serializable() ==> (r matches Ok(ix) && ix.program_id == program_id && ix.accounts@ == keys.spec_metas()
            && ix.data@ == TransferWithCommitmentIxData(args).spec_bytes()),
        !args.serializable() ==> r == Err::<Instruction, CodecError>(CodecError::InvalidData),
{
    let metas = keys.account_metas();
    let data = TransferWithCommitmentIxData(args).try_to_vec()?;
    Ok(Instruction { program_id, accounts: meta_list(metas.as_slice()), data })
}

/// Builds the instruction for the program at its own address.
pub fn transfer_with_commitment_ix(keys: TransferWithCommitmentKeys, args: TransferWithCommitmentIxArgs) -> (r: Result<Instruction, CodecError>)
    ensures
        args.serializable() ==> (r matches Ok(ix) && ix.program_id == ID && ix.accounts@ == keys.spec_metas()
            && ix.data@ == TransferWithCommitmentIxData(args).spec_bytes()),
        !args.serializable() ==> r == Err::<Instruction, CodecError>(CodecError::InvalidData),
{
    transfer_with_commitment_ix_with_program_id(ID, keys, args)
}

/// An instruction built from `keys` passes the checks of its accounts when
/// each account arrives in the order of the keys with the privileges its
/// account meta asks for: every key matches, every account whose write
/// access is checked is writable and every account whose signature is
/// checked signed.
pub proof fn lemma_transfer_with_commitment_metas_pass_checks(keys: TransferWithCommitmentKeys, accounts: TransferWithCommitmentAccounts)
    requires
        accounts.pool.key == keys.spec_metas()[0].pubkey,
        accounts.pool.is_writable == keys.spec_metas()[0].is_writable,
        accounts.pool.is_signer == keys.spec_metas()[0].is_signer,
        accounts.vault.key == keys.spec_metas()[1].pubkey,
        accounts.vault.is_writable == keys.spec_metas()[1].is_writable,
        accounts.vault.is_signer == keys.spec_metas()[1].is_signer,
        accounts.destination.key == keys.spec_metas()[2].pubkey,
        accounts.destination.is_writable == keys.spec_metas()[2].is_writable,
        accounts.destination.is_signer == keys.spec_metas()[2].is_signer,
        accounts.commitment.key == keys.spec_metas()[3].pubkey,
        accounts.commitment.is_writable == keys.spec_metas()[3].is_writable,
        accounts.commitment.is_signer == keys.spec_metas()[3].is_signer,
        accounts.authority.key == keys.spec_metas()[4].pubkey,
        accounts.authority.is_writable == keys.spec_metas()[4].is_writable,
        accounts.authority.is_signer == keys.spec_metas()[4].is_signer,
        accounts.payer.key == keys.spec_metas()[5].pubkey,
        accounts.payer.is_writable == keys.spec_metas()[5].is_writable,
        accounts.payer.is_signer == keys.spec_metas()[5].is_signer,
        accounts.token_program.key == keys.spec_metas()[6].pubkey,
        accounts.token_program.is_writable == keys.spec_metas()[6].is_writable,
        accounts.token_program.is_signer == keys.spec_metas()[6].is_signer,
        accounts.system_program.key == keys.spec_metas()[7].pubkey,
        accounts.system_program.is_writable == keys.spec_metas()[7].is_writable,
        accounts.system_program.is_signer == keys.spec_metas()[7].is_signer,
        accounts.rent.key == keys.spec_metas()[8].pubkey,
        accounts.rent.is_writable == keys.spec_metas()[8].is_writable,
        accounts.rent.is_signer == keys.spec_metas()[8].is_signer,
    ensures
        first_key_mismatch(seq![(accounts.pool.key, keys.pool), (accounts.vault.key, keys.vault), (accounts.destination.key, keys.destination), (accounts.commitment.key, keys.commitment), (accounts.authority.key, keys.authority), (accounts.payer.key, keys.payer), (accounts.token_program.key, keys.token_program), (accounts.system_program.key, keys.system_program), (accounts.rent.key, keys.rent)]) is Ok,
        first_not_writable(seq![accounts.pool, accounts.vault, accounts.destination, accounts.payer]) is Ok,
        first_not_signer(seq![accounts.authority, accounts.payer]) is Ok,
{
    lemma_keys_all_match(seq![(accounts.pool.key, keys.pool), (accounts.vault.key, keys.vault), (accounts.destination.key, keys.destination), (accounts.commitment.key, keys.commitment), (accounts.authority.key, keys.authority), (accounts.payer.key, keys.payer), (accounts.token_program.key, keys.token_program), (accounts.system_program.key, keys.system_program), (accounts.rent.key, keys.rent)]);
    lemma_all_writable(seq![accounts.pool, accounts.vault, accounts.destination, accounts.payer]);
    lemma_all_signed(seq![accounts.authority, accounts.payer]);
}

/// Checks each account's address against the expected one, in order;
/// the first that differs is reported as (actual, expected).
pub fn transfer_with_commitment_verify_account_keys(accounts: TransferWithCommitmentAccounts, keys: TransferWithCommitmentKeys) -> (r: Result<(), (Pubkey, Pubkey)>)
    ensures
        r == first_key_mismatch(seq![(accounts.pool.key, keys.pool), (accounts.vault.key, keys.vault), (accounts.destination.key, keys.destination), (accounts.commitment.key, keys.commitment), (accounts.authority.key, keys.authority), (accounts.payer.key, keys.payer), (accounts.token_program.key, keys.token_program), (accounts.system_program.key, keys.system_program), (accounts.rent.key, keys.rent)]),
{
    let pairs = [(accounts.pool.key, keys.pool), (accounts.vault.key, keys.vault), (accounts.destination.key, keys.destination), (accounts.commitment.key, keys.commitment), (accounts.authority.key, keys.authority), (accounts.payer.key, keys.payer), (accounts.token_program.key, keys.token_program), (accounts.system_program.key, keys.system_program), (accounts.rent.key, keys.rent)];
    let r = check_keys(pairs.as_slice());
    assert(pairs@ =~= seq![(accounts.pool.key, keys.pool), (accounts.vault.key, keys.vault), (accounts.destination.key, keys.destination), (accounts.commitment.key, keys.commitment), (accounts.authority.key, keys.authority), (accounts.payer.key, keys.payer), (accounts.token_program.key, keys.token_program), (accounts.system_program.key, keys.system_program), (accounts.rent.key, keys.rent)]);
    r
}

/// Checks that the accounts the instruction writes to are writable; the first account that fails is reported.
pub fn transfer_with_commitment_verify_writable_privileges(accounts: TransferWithCommitmentAccounts) -> (r: Result<(), (AccountView, ProgramError)>)
    ensures
        r == first_not_writable(seq![accounts.pool, accounts.vault, accounts.destination, accounts.payer]),
{
    let list = [accounts.pool, accounts.vault, accounts.destination, accounts.payer];
    let r = check_writable(list.as_slice());
    assert(list@ =~= seq![accounts.pool, accounts.vault, accounts.destination, accounts.payer]);
    r
}

/// Checks that the accounts the instruction needs signatures from signed; the first account that fails is reported.
pub fn transfer_with_commitment_verify_signer_privileges(accounts: TransferWithCommitmentAccounts) -> (r: Result<(), (AccountView, ProgramError)>)
    ensures
        r == first_not_signer(seq![accounts.authority, accounts.payer]),
{
    let list = [accounts.authority, accounts.payer];
    let r = check_signers(list.as_slice());
    assert(list@ =~= seq![accounts.authority, accounts.payer]);
    r
}

/// Checks write access, then signatures.
pub fn transfer_with_commitment_verify_account_privileges(accounts: TransferWithCommitmentAccounts) -> (r: Result<(), (AccountView, ProgramError)>)
    ensures
        r == (match first_not_writable(seq![accounts.pool, accounts.vault, accounts.destination, accounts.payer]) {
            Err(e) => Err(e),
            Ok(()) => first_not_signer(seq![accounts.authority, accounts.payer]),
        }),
{
    transfer_with_commitment_verify_writable_privileges(accounts)?;
    transfer_with_commitment_verify_signer_privileges(accounts)?;
    Ok(())
}

pub const INITIALIZE_PROOF_IX_ACCOUNTS_LEN: usize = 6;

/// The accounts handed to the instruction.
#[derive(Clone, Copy, Debug, PartialEq, Eq)]
pub struct InitializeProofAccounts {
    pub pool: AccountView,
    pub proof: AccountView,
    pub authority: AccountView,
    pub payer: AccountView,
    pub system_program: AccountView,
    pub rent: AccountView,
}

/// The addresses of the instruction's accounts.
#[derive(Clone, Copy, Debug, PartialEq, Eq)]
pub struct InitializeProofKeys {
    pub pool: Pubkey,
    pub proof: Pubkey,
    pub authority: Pubkey,
    pub payer: Pubkey,
    pub system_program: Pubkey,
    pub rent: Pubkey,
}

impl InitializeProofKeys {
    /// The instruction's account list: each key with the privileges the
    /// instruction asks for it.
    pub open spec fn spec_metas(self) -> Seq<AccountMeta> {
        seq![meta(self.pool, false, false), meta(self.proof, false, true), meta(self.authority, true, false), meta(self.payer, true, true), meta(self.system_program, false, false), meta(self.rent, false, false)]
    }

    /// The instruction's account list.
    pub fn account_metas(&self) -> (r: [AccountMeta; INITIALIZE_PROOF_IX_ACCOUNTS_LEN])
        ensures
            r@ == self.spec_metas(),
    {
        let r = [
            AccountMeta { pubkey: self.pool, is_signer: false, is_writable: false },
            AccountMeta { pubkey: self.proof, is_signer: false, is_writable: true },
            AccountMeta { pubkey: self.authority, is_signer: true, is_writable: false },
            AccountMeta { pubkey: self.payer, is_signer: true, is_writable: true },
            AccountMeta { pubkey: self.system_program, is_signer: false, is_writable: false },
            AccountMeta { pubkey: self.rent, is_signer: false, is_writable: false },
        ];
        assert(r@ =~= self.spec_metas());
        r
    }
}

impl From<[Pubkey; INITIALIZE_PROOF_IX_ACCOUNTS_LEN]> for InitializeProofKeys {
    fn from(pubkeys: [Pubkey; INITIALIZE_PROOF_IX_ACCOUNTS_LEN]) -> (r: Self) {
        InitializeProofKeys { pool: pubkeys[0], proof: pubkeys[1], authority: pubkeys[2], payer: pubkeys[3], system_program: pubkeys[4], rent: pubkeys[5] }
    }
}

impl vstd::std_specs::convert::FromSpecImpl<[Pubkey; INITIALIZE_PROOF_IX_ACCOUNTS_LEN]> for InitializeProofKeys {
    open spec fn obeys_from_spec() -> bool {
        true
    }

    open spec fn from_spec(pubkeys: [Pubkey; INITIALIZE_PROOF_IX_ACCOUNTS_LEN]) -> Self {
        InitializeProofKeys { pool: pubkeys[0], proof: pubkeys[1], authority: pubkeys[2], payer: pubkeys[3], system_program: pubkeys[4], rent: pubkeys[5] }
    }
}

impl From<InitializeProofAccounts> for InitializeProofKeys {
    fn from(accounts: InitializeProofAccounts) -> (r: Self) {
        InitializeProofKeys { pool: accounts.pool.key, proof: accounts.proof.key, authority: accounts.authority.key, payer: accounts.payer.key, system_program: accounts.system_program.key, rent: accounts.rent.key }
    }
}

impl vstd::std_specs::convert::FromSpecImpl<InitializeProofAccounts> for InitializeProofKeys {
    open spec fn obeys_from_spec() -> bool {
        true
    }

    open spec fn from_spec(accounts: InitializeProofAccounts) -> Self {
        InitializeProofKeys { pool: accounts.pool.key, proof: accounts.proof.key, authority: accounts.authority.key, payer: accounts.payer.key, system_program: accounts.system_program.key, rent: accounts.rent.key }
    }
}

impl From<[AccountView; INITIALIZE_PROOF_IX_ACCOUNTS_LEN]> for InitializeProofAccounts {
    fn from(views: [AccountView; INITIALIZE_PROOF_IX_ACCOUNTS_LEN]) -> (r: Self) {
        InitializeProofAccounts { pool: views[0], proof: views[1], authority: views[2], payer: views[3], system_program: views[4], rent: views[5] }
    }
}

impl vstd::std_specs::convert::FromSpecImpl<[AccountView; INITIALIZE_PROOF_IX_ACCOUNTS_LEN]> for InitializeProofAccounts {
    open spec fn obeys_from_spec() -> bool {
        true
    }

    open spec fn from_spec(views: [AccountView; INITIALIZE_PROOF_IX_ACCOUNTS_LEN]) -> Self {
        InitializeProofAccounts { pool: views[0], proof: views[1], authority: views[2], payer: views[3], system_program: views[4], rent: views[5] }
    }
}

impl InitializeProofAccounts {
    /// The accounts in the instruction's order.
    pub open spec fn spec_list(self) -> Seq<AccountView> {
        seq![self.pool, self.proof, self.authority, self.payer, self.system_program, self.rent]
    }
}

/// Builds the instruction for the program at `program_id`; arguments that
/// cannot be encoded are refused.
pub fn initialize_proof_ix_with_program_id(program_id: Pubkey, keys: InitializeProofKeys, args: InitializeProofIxArgs) -> (r: Result<Instruction, CodecError>)
    ensures
        args.serializable() ==> (r matches Ok(ix) && ix.program_id == program_id && ix.accounts@ == keys.spec_metas()
            && ix.data@ == InitializeProofIxData(args).spec_bytes()),
        !args.serializable() ==> r == Err::<Instruction, CodecError>(CodecError::InvalidData),
{
    let metas = keys.account_metas();
    let data = InitializeProofIxData(args).try_to_vec()?;
    Ok(Instruction { program_id, accounts: meta_list(metas.as_slice()), data })
}

/// Builds the instruction for the program at its own address.
pub fn initialize_proof_ix(keys: InitializeProofKeys, args: InitializeProofIxArgs) -> (r: Result<Instruction, CodecError>)
    ensures
        args.serializable() ==> (r matches Ok(ix) && ix.program_id == ID && ix.accounts@ == keys.spec_metas()
            && ix.data@ == InitializeProofIxData(args).spec_bytes()),
        !args.serializable() ==> r == Err::<Instruction, CodecError>(CodecError::InvalidData),
{
    initialize_proof_ix_with_program_id(ID, keys, args)
}

/// An instruction built from `keys` passes the checks of its accounts when
/// each account arrives in the order of the keys with the privileges its
/// account meta asks for: every key matches, every account whose write
/// access is checked is writable and every account whose signature is
/// checked signed.
pub proof fn lemma_initialize_proof_metas_pass_checks(keys: InitializeProofKeys, accounts: InitializeProofAccounts)
    requires
        accounts.pool.key == keys.spec_metas()[0].pubkey,
        accounts.pool.is_writable == keys.spec_metas()[0].is_writable,
        accounts.pool.is_signer == keys.spec_metas()[0].is_signer,
        accounts.proof.key == keys.spec_metas()[1].pubkey,
        accounts.proof.is_writable == keys.spec_metas()[1].is_writable,
        accounts.proof.is_signer == keys.spec_metas()[1].is_signer,
        accounts.authority.key == keys.spec_metas()[2].pubkey,
        accounts.authority.is_writable == keys.spec_metas()[2].is_writable,
        accounts.authority.is_signer == keys.spec_metas()[2].is_signer,
        accounts.payer.key == keys.spec_metas()[3].pubkey,
        accounts.payer.is_writable == keys.spec_metas()[3].is_writable,
        accounts.payer.is_signer == keys.spec_metas()[3].is_signer,
        accounts.system_program.key == keys.spec_metas()[4].pubkey,
        accounts.system_program.is_writable == keys.spec_metas()[4].is_writable,
        accounts.system_program.is_signer == keys.spec_metas()[4].is_signer,
        accounts.rent.key == keys.spec_metas()[5].pubkey,
        accounts.rent.is_writable == keys.spec_metas()[5].is_writable,
        accounts.rent.is_signer == keys.spec_metas()[5].is_signer,
    ensures
        first_key_mismatch(seq![(accounts.pool.key, keys.pool), (accounts.proof.key, keys.proof), (accounts.authority.key, keys.authority), (accounts.payer.key, keys.payer), (accounts.system_program.key, keys.system_program), (accounts.rent.key, keys.rent)]) is Ok,
        first_not_writable(seq![accounts.proof, accounts.payer]) is Ok,
        first_not_signer(seq![accounts.authority, accounts.payer]) is Ok,
{
    lemma_keys_all_match(seq![(accounts.pool.key, keys.pool), (accounts.proof.key, keys.proof), (accounts.authority.key, keys.authority), (accounts.payer.key, keys.payer), (accounts.system_program.key, keys.system_program), (accounts.rent.key, keys.rent)]);
    lemma_all_writable(seq![accounts.proof, accounts.payer]);
    lemma_all_signed(seq![accounts.authority, accounts.payer]);
}

/// Checks each account's address against the expected one, in order;
/// the first that differs is reported as (actual, expected).
pub fn initialize_proof_verify_account_keys(accounts: InitializeProofAccounts, keys: InitializeProofKeys) -> (r: Result<(), (Pubkey, Pubkey)>)
    ensures
        r == first_key_mismatch(seq![(accounts.pool.key, keys.pool), (accounts.proof.key, keys.proof), (accounts.authority.key, keys.authority), (accounts.payer.key, keys.payer), (accounts.system_program.key, keys.system_program), (accounts.rent.key, keys.rent)]),
{
    let pairs = [(accounts.pool.key, keys.pool), (accounts.proof.key, keys.proof), (accounts.authority.key, keys.authority), (accounts.payer.key, keys.payer), (accounts.system_program.key, keys.system_program), (accounts.rent.key, keys.rent)];
    let r = check_keys(pairs.as_slice());
    assert(pairs@ =~= seq![(accounts.pool.key, keys.pool), (accounts.proof.key, keys.proof), (accounts.authority.key, keys.authority), (accounts.payer.key, keys.payer), (accounts.system_program.key, keys.system_program), (accounts.rent.key, keys.rent)]);
    r
}

/// Checks that the accounts the instruction writes to are writable; the first account that fails is reported.
pub fn initialize_proof_verify_writable_privileges(accounts: InitializeProofAccounts) -> (r: Result<(), (AccountView, ProgramError)>)
    ensures
        r == first_not_writable(seq![accounts.proof, accounts.payer]),
{
    let list = [accounts.proof, accounts.payer];
    let r = check_writable(list.as_slice());
    assert(list@ =~= seq![accounts.proof, accounts.payer]);
    r
}

/// Checks that the accounts the instruction needs signatures from signed; the first account that fails is reported.
pub fn initialize_proof_verify_signer_privileges(accounts: InitializeProofAccounts) -> (r: Result<(), (AccountView, ProgramError)>)
    ensures
        r == first_not_signer(seq![accounts.authority, accounts.payer]),
{
    let list = [accounts.authority, accounts.payer];
    let r = check_signers(list.as_slice());
    assert(list@ =~= seq![accounts.authority, accounts.payer]);
    r
}

/// Checks write access, then signatures.
pub fn initialize_proof_verify_account_privileges(accounts: InitializeProofAccounts) -> (r: Result<(), (AccountView, ProgramError)>)
    ensures
        r == (match first_not_writable(seq![accounts.proof, accounts.payer]) {
            Err(e) => Err(e),
            Ok(()) => first_not_signer(seq![accounts.authority, accounts.payer]),
        }),
{
    initialize_proof_verify_writable_privileges(accounts)?;
    initialize_proof_verify_signer_privileges(accounts)?;
    Ok(())
}

pub const UPLOAD_PROOF_IX_ACCOUNTS_LEN: usize = 4;

/// The accounts handed to the instruction.
#[derive(Clone, Copy, Debug, PartialEq, Eq)]
pub struct UploadProofAccounts {
    pub pool: AccountView,
    pub proof: AccountView,
    pub authority: AccountView,
    pub payer: AccountView,
}

/// The addresses of the instruction's accounts.
#[derive(Clone, Copy, Debug, PartialEq, Eq)]
pub struct UploadProofKeys {
    pub pool: Pubkey,
    pub proof: Pubkey,
    pub authority: Pubkey,
    pub payer: Pubkey,
}

impl UploadProofKeys {
    /// The instruction's account list: each key with the privileges the
    /// instruction asks for it.
    pub open spec fn spec_metas(self) -> Seq<AccountMeta> {
        seq![meta(self.pool, false, false), meta(self.proof, false, true), meta(self.authority, true, false), meta(self.payer, true, true)]
    }

    /// The instruction's account list.
    pub fn account_metas(&self) -> (r: [AccountMeta; UPLOAD_PROOF_IX_ACCOUNTS_LEN])
        ensures
            r@ == self.spec_metas(),
    {
        let r = [
            AccountMeta { pubkey: self.pool, is_signer: false, is_writable: false },
            AccountMeta { pubkey: self.proof, is_signer: false, is_writable: true },
            AccountMeta { pubkey: self.authority, is_signer: true, is_writable: false },
            AccountMeta { pubkey: self.payer, is_signer: true, is_writable: true },
        ];
        assert(r@ =~= self.spec_metas());
        r
    }
}

impl From<[Pubkey; UPLOAD_PROOF_IX_ACCOUNTS_LEN]> for UploadProofKeys {
    fn from(pubkeys: [Pubkey; UPLOAD_PROOF_IX_ACCOUNTS_LEN]) -> (r: Self) {
        UploadProofKeys { pool: pubkeys[0], proof: pubkeys[1], authority: pubkeys[2], payer: pubkeys[3] }
    }
}

impl vstd::std_specs::convert::FromSpecImpl<[Pubkey; UPLOAD_PROOF_IX_ACCOUNTS_LEN]> for UploadProofKeys {
    open spec fn obeys_from_spec() -> bool {
        true
    }

    open spec fn from_spec(pubkeys: [Pubkey; UPLOAD_PROOF_IX_ACCOUNTS_LEN]) -> Self {
        UploadProofKeys { pool: pubkeys[0], proof: pubkeys[1], authority: pubkeys[2], payer: pubkeys[3] }
    }
}

impl From<UploadProofAccounts> for UploadProofKeys {
    fn from(accounts: UploadProofAccounts) -> (r: Self) {
        UploadProofKeys { pool: accounts.pool.key, proof: accounts.proof.key, authority: accounts.authority.key, payer: accounts.payer.key }
    }
}

impl vstd::std_specs::convert::FromSpecImpl<UploadProofAccounts> for UploadProofKeys {
    open spec fn obeys_from_spec() -> bool {
        true
    }

    open spec fn from_spec(accounts: UploadProofAccounts) -> Self {
        UploadProofKeys { pool: accounts.pool.key, proof: accounts.proof.key, authority: accounts.authority.key, payer: accounts.payer.key }
    }
}

impl From<[AccountView; UPLOAD_PROOF_IX_ACCOUNTS_LEN]> for UploadProofAccounts {
    fn from(views: [AccountView; UPLOAD_PROOF_IX_ACCOUNTS_LEN]) -> (r: Self) {
        UploadProofAccounts { pool: views[0], proof: views[1], authority: views[2], payer: views[3] }
    }
}

impl vstd::std_specs::convert::FromSpecImpl<[AccountView; UPLOAD_PROOF_IX_ACCOUNTS_LEN]> for UploadProofAccounts {
    open spec fn obeys_from_spec() -> bool {
        true
    }

    open spec fn from_spec(views: [AccountView; UPLOAD_PROOF_IX_ACCOUNTS_LEN]) -> Self {
        UploadProofAccounts { pool: views[0], proof: views[1], authority: views[2], payer: views[3] }
    }
}

impl UploadProofAccounts {
    /// The accounts in the instruction's order.
    pub open spec fn spec_list(self) -> Seq<AccountView> {
        seq![self.pool, self.proof, self.authority, self.payer]
    }
}

/// Builds the instruction for the program at `program_id`; arguments that
/// cannot be encoded are refused.
pub fn upload_proof_ix_with_program_id(program_id: Pubkey, keys: UploadProofKeys, args: UploadProofIxArgs) -> (r: Result<Instruction, CodecError>)
    ensures
        args.serializable() ==> (r matches Ok(ix) && ix.program_id == program_id && ix.accounts@ == keys.spec_metas()
            && ix.data@ == UploadProofIxData(args).spec_bytes()),
        !args.serializable() ==> r == Err::<Instruction, CodecError>(CodecError::InvalidData),
{
    let metas = keys.account_metas();
    let data = UploadProofIxData(args).try_to_vec()?;
    Ok(Instruction { program_id, accounts: meta_list(metas.as_slice()), data })
}

/// Builds the instruction for the program at its own address.
pub fn upload_proof_ix(keys: UploadProofKeys, args: UploadProofIxArgs) -> (r: Result<Instruction, CodecError>)
    ensures
        args.serializable() ==> (r matches Ok(ix) && ix.program_id == ID && ix.accounts@ == keys.spec_metas()
            && ix.data@ == UploadProofIxData(args).spec_bytes()),
        !args.serializable() ==> r == Err::<Instruction, CodecError>(CodecError::InvalidData),
{
    upload_proof_ix_with_program_id(ID, keys, args)
}

/// An instruction built from `keys` passes the checks of its accounts when
/// each account arrives in the order of the keys with the privileges its
/// account meta asks for: every key matches, every account whose write
/// access is checked is writable and every account whose signature is
/// checked signed.
pub proof fn lemma_upload_proof_metas_pass_checks(keys: UploadProofKeys, accounts: UploadProofAccounts)
    requires
        accounts.pool.key == keys.spec_metas()[0].pubkey,
        accounts.pool.is_writable == keys.spec_metas()[0].is_writable,
        accounts.pool.is_signer == keys.spec_metas()[0].is_signer,
        accounts.proof.key == keys.spec_metas()[1].pubkey,
        accounts.proof.is_writable == keys.spec_metas()[1].is_writable,
        accounts.proof.is_signer == keys.spec_metas()[1].is_signer,
        accounts.authority.key == keys.spec_metas()[2].pubkey,
        accounts.authority.is_writable == keys.spec_metas()[2].is_writable,
        accounts.authority.is_signer == keys.spec_metas()[2].is_signer,
        accounts.payer.key == keys.spec_metas()[3].pubkey,
        accounts.payer.is_writable == keys.spec_metas()[3].is_writable,
        accounts.payer.is_signer == keys.spec_metas()[3].is_signer,
    ensures
        first_key_mismatch(seq![(accounts.pool.key, keys.pool), (accounts.proof.key, keys.proof), (accounts.authority.key, keys.authority), (accounts.payer.key, keys.payer)]) is Ok,
        first_not_writable(seq![accounts.proof, accounts.payer]) is Ok,
        first_not_signer(seq![accounts.authority, accounts.payer]) is Ok,
{
    lemma_keys_all_match(seq![(accounts.pool.key, keys.pool), (accounts.proof.key, keys.proof), (accounts.authority.key, keys.authority), (accounts.payer.key, keys.payer)]);
    lemma_all_writable(seq![accounts.proof, accounts.payer]);
    lemma_all_signed(seq![accounts.authority, accounts.payer]);
}

/// Checks each account's address against the expected one, in order;
/// the first that differs is reported as (actual, expected).
pub fn upload_proof_verify_account_keys(accounts: UploadProofAccounts, keys: UploadProofKeys) -> (r: Result<(), (Pubkey, Pubkey)>)
    ensures
        r == first_key_mismatch(seq![(accounts.pool.key, keys.pool), (accounts.proof.key, keys.proof), (accounts.authority.key, keys.authority), (accounts.payer.key, keys.payer)]),
{
    let pairs = [(accounts.pool.key, keys.pool), (accounts.proof.key, keys.proof), (accounts.authority.key, keys.authority), (accounts.payer.key, keys.payer)];
    let r = check_keys(pairs.as_slice());
    assert(pairs@ =~= seq![(accounts.pool.key, keys.pool), (accounts.proof.key, keys.proof), (accounts.authority.key, keys.authority), (accounts.payer.key, keys.payer)]);
    r
}

/// Checks that the accounts the instruction writes to are writable; the first account that fails is reported.
pub fn upload_proof_verify_writable_privileges(accounts: UploadProofAccounts) -> (r: Result<(), (AccountView, ProgramError)>)
    ensures
        r == first_not_writable(seq![accounts.proof, accounts.payer]),
{
    let list = [accounts.proof, accounts.payer];
    let r = check_writable(list.as_slice());
    assert(list@ =~= seq![accounts.proof, accounts.payer]);
    r
}

/// Checks that the accounts the instruction needs signatures from signed; the first account that fails is reported.
pub fn upload_proof_verify_signer_privileges(accounts: UploadProofAccounts) -> (r: Result<(), (AccountView, ProgramError)>)
    ensures
        r == first_not_signer(seq![accounts.authority, accounts.payer]),
{
    let list = [accounts.authority, accounts.payer];
    let r = check_signers(list.as_slice());
    assert(list@ =~= seq![accounts.authority, accounts.payer]);
    r
}

/// Checks write access, then signatures.
pub fn upload_proof_verify_account_privileges(accounts: UploadProofAccounts) -> (r: Result<(), (AccountView, ProgramError)>)
    ensures
        r == (match first_not_writable(seq![accounts.proof, accounts.payer]) {
            Err(e) => Err(e),
            Ok(()) => first_not_signer(seq![accounts.authority, accounts.payer]),
        }),
{
    upload_proof_verify_writable_privileges(accounts)?;
    upload_proof_verify_signer_privileges(accounts)?;
    Ok(())
}

pub const VERIFY_PROOF_IX_ACCOUNTS_LEN: usize = 4;

/// The accounts handed to the instruction.
#[derive(Clone, Copy, Debug, PartialEq, Eq)]
pub struct VerifyProofAccounts {
    pub pool: AccountView,
    pub proof: AccountView,
    pub authority: AccountView,
    pub payer: AccountView,
}

/// The addresses of the instruction's accounts.
#[derive(Clone, Copy, Debug, PartialEq, Eq)]
pub struct VerifyProofKeys {
    pub pool: Pubkey,
    pub proof: Pubkey,
    pub authority: Pubkey,
    pub payer: Pubkey,
}

impl VerifyProofKeys {
    /// The instruction's account list: each key with the privileges the
    /// instruction asks for it.
    pub open spec fn spec_metas(self) -> Seq<AccountMeta> {
        seq![meta(self.pool, false, false), meta(self.proof, false, true), meta(self.authority, true, false), meta(self.payer, true, true)]
    }

    /// The instruction's account list.
    pub fn account_metas(&self) -> (r: [AccountMeta; VERIFY_PROOF_IX_ACCOUNTS_LEN])
        ensures
            r@ == self.spec_metas(),
    {
        let r = [
            AccountMeta { pubkey: self.pool, is_signer: false, is_writable: false },
            AccountMeta { pubkey: self.proof, is_signer: false, is_writable: true },
            AccountMeta { pubkey: self.authority, is_signer: true, is_writable: false },
            AccountMeta { pubkey: self.payer, is_signer: true, is_writable: true },
        ];
        assert(r@ =~= self.spec_metas());
        r
    }
}

impl From<[Pubkey; VERIFY_PROOF_IX_ACCOUNTS_LEN]> for VerifyProofKeys {
    fn from(pubkeys: [Pubkey; VERIFY_PROOF_IX_ACCOUNTS_LEN]) -> (r: Self) {
        VerifyProofKeys { pool: pubkeys[0], proof: pubkeys[1], authority: pubkeys[2], payer: pubkeys[3] }
    }
}

impl vstd::std_specs::convert::FromSpecImpl<[Pubkey; VERIFY_PROOF_IX_ACCOUNTS_LEN]> for VerifyProofKeys {
    open spec fn obeys_from_spec() -> bool {
        true
    }

    open spec fn from_spec(pubkeys: [Pubkey; VERIFY_PROOF_IX_ACCOUNTS_LEN]) -> Self {
        VerifyProofKeys { pool: pubkeys[0], proof: pubkeys[1], authority: pubkeys[2], payer: pubkeys[3] }
    }
}

impl From<VerifyProofAccounts> for VerifyProofKeys {
    fn from(accounts: VerifyProofAccounts) -> (r: Self) {
        VerifyProofKeys { pool: accounts.pool.key, proof: accounts.proof.key, authority: accounts.authority.key, payer: accounts.payer.key }
    }
}

impl vstd::std_specs::convert::FromSpecImpl<VerifyProofAccounts> for VerifyProofKeys {
    open spec fn obeys_from_spec() -> bool {
        true
    }

    open spec fn from_spec(accounts: VerifyProofAccounts) -> Self {
        VerifyProofKeys { pool: accounts.pool.key, proof: accounts.proof.key, authority: accounts.authority.key, payer: accounts.payer.key }
    }
}

impl From<[AccountView; VERIFY_PROOF_IX_ACCOUNTS_LEN]> for VerifyProofAccounts {
    fn from(views: [AccountView; VERIFY_PROOF_IX_ACCOUNTS_LEN]) -> (r: Self) {
        VerifyProofAccounts { pool: views[0], proof: views[1], authority: views[2], payer: views[3] }
    }
}

impl vstd::std_specs::convert::FromSpecImpl<[AccountView; VERIFY_PROOF_IX_ACCOUNTS_LEN]> for VerifyProofAccounts {
    open spec fn obeys_from_spec() -> bool {
        true
    }

    open spec fn from_spec(views: [AccountView; VERIFY_PROOF_IX_ACCOUNTS_LEN]) -> Self {
        VerifyProofAccounts { pool: views[0], proof: views[1], authority: views[2], payer: views[3] }
    }
}

impl VerifyProofAccounts {
    /// The accounts in the instruction's order.
    pub open spec fn spec_list(self) -> Seq<AccountView> {
        seq![self.pool, self.proof, self.authority, self.payer]
    }
}

/// Builds the instruction for the program at `program_id`; arguments that
/// cannot be encoded are refused.
pub fn verify_proof_ix_with_program_id(program_id: Pubkey, keys: VerifyProofKeys, args: VerifyProofIxArgs) -> (r: Result<Instruction, CodecError>)
    ensures
        args.serializable() ==> (r matches Ok(ix) && ix.program_id == program_id && ix.accounts@ == keys.spec_metas()
            && ix.data@ == VerifyProofIxData(args).spec_bytes()),
        !args.serializable() ==> r == Err::<Instruction, CodecError>(CodecError::InvalidData),
{
    let metas = keys.account_metas();
    let data = VerifyProofIxData(args).try_to_vec()?;
    Ok(Instruction { program_id, accounts: meta_list(metas.as_slice()), data })
}

/// Builds the instruction for the program at its own address.
pub fn verify_proof_ix(keys: VerifyProofKeys, args: VerifyProofIxArgs) -> (r: Result<Instruction, CodecError>)
    ensures
        args.serializable() ==> (r matches Ok(ix) && ix.program_id == ID && ix.accounts@ == keys.spec_metas()
            && ix.data@ == VerifyProofIxData(args).spec_bytes()),
        !args.serializable() ==> r == Err::<Instruction, CodecError>(CodecError::InvalidData),
{
    verify_proof_ix_with_program_id(ID, keys, args)
}

/// An instruction built from `keys` passes the checks of its accounts when
/// each account arrives in the order of the keys with the privileges its
/// account meta asks for: every key matches, every account whose write
/// access is checked is writable and every account whose signature is
/// checked signed.
pub proof fn lemma_verify_proof_metas_pass_checks(keys: VerifyProofKeys, accounts: VerifyProofAccounts)
    requires
        accounts.pool.key == keys.spec_metas()[0].pubkey,
        accounts.pool.is_writable == keys.spec_metas()[0].is_writable,
        accounts.pool.is_signer == keys.spec_metas()[0].is_signer,
        accounts.proof.key == keys.spec_metas()[1].pubkey,
        accounts.proof.is_writable == keys.spec_metas()[1].is_writable,
        accounts.proof.is_signer == keys.spec_metas()[1].is_signer,
        accounts.authority.key == keys.spec_metas()[2].pubkey,
        accounts.authority.is_writable == keys.spec_metas()[2].is_writable,
        accounts.authority.is_signer == keys.spec_metas()[2].is_signer,
        accounts.payer.key == keys.spec_metas()[3].pubkey,
        accounts.payer.is_writable == keys.spec_metas()[3].is_writable,
        accounts.payer.is_signer == keys.spec_metas()[3].is_signer,
    ensures
        first_key_mismatch(seq![(accounts.pool.key, keys.pool), (accounts.proof.key, keys.proof), (accounts.authority.key, keys.authority), (accounts.payer.key, keys.payer)]) is Ok,
        first_not_writable(seq![accounts.proof, accounts.payer]) is Ok,
        first_not_signer(seq![accounts.authority, accounts.payer]) is Ok,
{
    lemma_keys_all_match(seq![(accounts.pool.key, keys.pool), (accounts.proof.key, keys.proof), (accounts.authority.key, keys.authority), (accounts.payer.key, keys.payer)]);
    lemma_all_writable(seq![accounts.proof, accounts.payer]);
    lemma_all_signed(seq![accounts.authority, accounts.payer]);
}

/// Checks each account's address against the expected one, in order;
/// the first that differs is reported as (actual, expected).
pub fn verify_proof_verify_account_keys(accounts: VerifyProofAccounts, keys: VerifyProofKeys) -> (r: Result<(), (Pubkey, Pubkey)>)
    ensures
        r == first_key_mismatch(seq![(accounts.pool.key, keys.pool), (accounts.proof.key, keys.proof), (accounts.authority.key, keys.authority), (accounts.payer.key, keys.payer)]),
{
    let pairs = [(accounts.pool.key, keys.pool), (accounts.proof.key, keys.proof), (accounts.authority.key, keys.authority), (accounts.payer.key, keys.payer)];
    let r = check_keys(pairs.as_slice());
    assert(pairs@ =~= seq![(accounts.pool.key, keys.pool), (accounts.proof.key, keys.proof), (accounts.authority.key, keys.authority), (accounts.payer.key, keys.payer)]);
    r
}

/// Checks that the accounts the instruction writes to are writable; the first account that fails is reported.
pub fn verify_proof_verify_writable_privileges(accounts: VerifyProofAccounts) -> (r: Result<(), (AccountView, ProgramError)>)
    ensures
        r == first_not_writable(seq![accounts.proof, accounts.payer]),
{
    let list = [accounts.proof, accounts.payer];
    let r = check_writable(list.as_slice());
    assert(list@ =~= seq![accounts.proof, accounts.payer]);
    r
}

/// Checks that the accounts the instruction needs signatures from signed; the first account that fails is reported.
pub fn verify_proof_verify_signer_privileges(accounts: VerifyProofAccounts) -> (r: Result<(), (AccountView, ProgramError)>)
    ensures
        r == first_not_signer(seq![accounts.authority, accounts.payer]),
{
    let list = [accounts.authority, accounts.payer];
    let r = check_signers(list.as_slice());
    assert(list@ =~= seq![accounts.authority, accounts.payer]);
    r
}

/// Checks write access, then signatures.
pub fn verify_proof_verify_account_privileges(accounts: VerifyProofAccounts) -> (r: Result<(), (AccountView, ProgramError)>)
    ensures
        r == (match first_not_writable(seq![accounts.proof, accounts.payer]) {
            Err(e) => Err(e),
            Ok(()) => first_not_signer(seq![accounts.authority, accounts.payer]),
        }),
{
    verify_proof_verify_writable_privileges(accounts)?;
    verify_proof_verify_signer_privileges(accounts)?;
    Ok(())
}

pub const CLOSE_PROOF_IX_ACCOUNTS_LEN: usize = 6;

/// The accounts handed to the instruction.
#[derive(Clone, Copy, Debug, PartialEq, Eq)]
pub struct CloseProofAccounts {
    pub pool: AccountView,
    pub proof: AccountView,
    pub authority: AccountView,
    pub payer: AccountView,
    pub system_program: AccountView,
    pub rent: AccountView,
}

/// The addresses of the instruction's accounts.
#[derive(Clone, Copy, Debug, PartialEq, Eq)]
pub struct CloseProofKeys {
    pub pool: Pubkey,
    pub proof: Pubkey,
    pub authority: Pubkey,
    pub payer: Pubkey,
    pub system_program: Pubkey,
    pub rent: Pubkey,
}

impl CloseProofKeys {
    /// The instruction's account list: each key with the privileges the
    /// instruction asks for it.
    pub open spec fn spec_metas(self) -> Seq<AccountMeta> {
        seq![meta(self.pool, false, false), meta(self.proof, false, true), meta(self.authority, true, false), meta(self.payer, true, true), meta(self.system_program, false, false), meta(self.rent, false, false)]
    }

    /// The instruction's account list.
    pub fn account_metas(&self) -> (r: [AccountMeta; CLOSE_PROOF_IX_ACCOUNTS_LEN])
        ensures
            r@ == self.spec_metas(),
    {
        let r = [
            AccountMeta { pubkey: self.pool, is_signer: false, is_writable: false },
            AccountMeta { pubkey: self.proof, is_signer: false, is_writable: true },
            AccountMeta { pubkey: self.authority, is_signer: true, is_writable: false },
            AccountMeta { pubkey: self.payer, is_signer: true, is_writable: true },
            AccountMeta { pubkey: self.system_program, is_signer: false, is_writable: false },
            AccountMeta { pubkey: self.rent, is_signer: false, is_writable: false },
        ];
        assert(r@ =~= self.spec_metas());
        r
    }
}

impl From<[Pubkey; CLOSE_PROOF_IX_ACCOUNTS_LEN]> for CloseProofKeys {
    fn from(pubkeys: [Pubkey; CLOSE_PROOF_IX_ACCOUNTS_LEN]) -> (r: Self) {
        CloseProofKeys { pool: pubkeys[0], proof: pubkeys[1], authority: pubkeys[2], payer: pubkeys[3], system_program: pubkeys[4], rent: pubkeys[5] }
    }
}

impl vstd::std_specs::convert::FromSpecImpl<[Pubkey; CLOSE_PROOF_IX_ACCOUNTS_LEN]> for CloseProofKeys {
    open spec fn obeys_from_spec() -> bool {
        true
    }

    open spec fn from_spec(pubkeys: [Pubkey; CLOSE_PROOF_IX_ACCOUNTS_LEN]) -> Self {
        CloseProofKeys { pool: pubkeys[0], proof: pubkeys[1], authority: pubkeys[2], payer: pubkeys[3], system_program: pubkeys[4], rent: pubkeys[5] }
    }
}

impl From<CloseProofAccounts> for CloseProofKeys {
    fn from(accounts: CloseProofAccounts) -> (r: Self) {
        CloseProofKeys { pool: accounts.pool.key, proof: accounts.proof.key, authority: accounts.authority.key, payer: accounts.payer.key, system_program: accounts.system_program.key, rent: accounts.rent.key }
    }
}

impl vstd::std_specs::convert::FromSpecImpl<CloseProofAccounts> for CloseProofKeys {
    open spec fn obeys_from_spec() -> bool {
        true
    }

    open spec fn from_spec(accounts: CloseProofAccounts) -> Self {
        CloseProofKeys { pool: accounts.pool.key, proof: accounts.proof.key, authority: accounts.authority.key, payer: accounts.payer.key, system_program: accounts.system_program.key, rent: accounts.rent.key }
    }
}

impl From<[AccountView; CLOSE_PROOF_IX_ACCOUNTS_LEN]> for CloseProofAccounts {
    fn from(views: [AccountView; CLOSE_PROOF_IX_ACCOUNTS_LEN]) -> (r: Self) {
        CloseProofAccounts { pool: views[0], proof: views[1], authority: views[2], payer: views[3], system_program: views[4], rent: views[5] }
    }
}

impl vstd::std_specs::convert::FromSpecImpl<[AccountView; CLOSE_PROOF_IX_ACCOUNTS_LEN]> for CloseProofAccounts {
    open spec fn obeys_from_spec() -> bool {
        true
    }

    open spec fn from_spec(views: [AccountView; CLOSE_PROOF_IX_ACCOUNTS_LEN]) -> Self {
        CloseProofAccounts { pool: views[0], proof: views[1], authority: views[2], payer: views[3], system_program: views[4], rent: views[5] }
    }
}

impl CloseProofAccounts {
    /// The accounts in the instruction's order.
    pub open spec fn spec_list(self) -> Seq<AccountView> {
        seq![self.pool, self.proof, self.authority, self.payer, self.system_program, self.rent]
    }
}

/// Builds the instruction for the program at `program_id`; arguments that
/// cannot be encoded are refused.
pub fn close_proof_ix_with_program_id(program_id: Pubkey, keys: CloseProofKeys, args: CloseProofIxArgs) -> (r: Result<Instruction, CodecError>)
    ensures
        args.serializable() ==> (r matches Ok(ix) && ix.program_id == program_id && ix.accounts@ == keys.spec_metas()
            && ix.data@ == CloseProofIxData(args).spec_bytes()),
        !args.serializable() ==> r == Err::<Instruction, CodecError>(CodecError::InvalidData),
{
    let metas = keys.account_metas();
    let data = CloseProofIxData(args).try_to_vec()?;
    Ok(Instruction { program_id, accounts: meta_list(metas.as_slice()), data })
}

/// Builds the instruction for the program at its own address.
pub fn close_proof_ix(keys: CloseProofKeys, args: CloseProofIxArgs) -> (r: Result<Instruction, CodecError>)
    ensures
        args.serializable() ==> (r matches Ok(ix) && ix.program_id == ID && ix.accounts@ == keys.spec_metas()
            && ix.data@ == CloseProofIxData(args).spec_bytes()),
        !args.serializable() ==> r == Err::<Instruction, CodecError>(CodecError::InvalidData),
{
    close_proof_ix_with_program_id(ID, keys, args)
}

/// An instruction built from `keys` passes the checks of its accounts when
/// each account arrives in the order of the keys with the privileges its
/// account meta asks for: every key matches, every account whose write
/// access is checked is writable and every account whose signature is
/// checked signed.
pub proof fn lemma_close_proof_metas_pass_checks(keys: CloseProofKeys, accounts: CloseProofAccounts)
    requires
        accounts.pool.key == keys.spec_metas()[0].pubkey,
        accounts.pool.is_writable == keys.spec_metas()[0].is_writable,
        accounts.pool.is_signer == keys.spec_metas()[0].is_signer,
        accounts.proof.key == keys.spec_metas()[1].pubkey,
        accounts.proof.is_writable == keys.spec_metas()[1].is_writable,
        accounts.proof.is_signer == keys.spec_metas()[1].is_signer,
        accounts.authority.key == keys.spec_metas()[2].pubkey,
        accounts.authority.is_writable == keys.spec_metas()[2].is_writable,
        accounts.authority.is_signer == keys.spec_metas()[2].is_signer,
        accounts.payer.key == keys.spec_metas()[3].pubkey,
        accounts.payer.is_writable == keys.spec_metas()[3].is_writable,
        accounts.payer.is_signer == keys.spec_metas()[3].is_signer,
        accounts.system_program.key == keys.spec_metas()[4].pubkey,
        accounts.system_program.is_writable == keys.spec_metas()[4].is_writable,
        accounts.system_program.is_signer == keys.spec_metas()[4].is_signer,
        accounts.rent.key == keys.spec_metas()[5].pubkey,
        accounts.rent.is_writable == keys.spec_metas()[5].is_writable,
        accounts.rent.is_signer == keys.spec_metas()[5].is_signer,
    ensures
        first_key_mismatch(seq![(accounts.pool.key, keys.pool), (accounts.proof.key, keys.proof), (accounts.authority.key, keys.authority), (accounts.payer.key, keys.payer), (accounts.system_program.key, keys.system_program), (accounts.rent.key, keys.rent)]) is Ok,
        first_not_writable(seq![accounts.proof, accounts.payer]) is Ok,
        first_not_signer(seq![accounts.authority, accounts.payer]) is Ok,
{
    lemma_keys_all_match(seq![(accounts.pool.key, keys.pool), (accounts.proof.key, keys.proof), (accounts.authority.key, keys.authority), (accounts.payer.key, keys.payer), (accounts.system_program.key, keys.system_program), (accounts.rent.key, keys.rent)]);
    lemma_all_writable(seq![accounts.proof, accounts.payer]);
    lemma_all_signed(seq![accounts.authority, accounts.payer]);
}

/// Checks each account's address against the expected one, in order;
/// the first that differs is reported as (actual, expected).
pub fn close_proof_verify_account_keys(accounts: CloseProofAccounts, keys: CloseProofKeys) -> (r: Result<(), (Pubkey, Pubkey)>)
    ensures
        r == first_key_mismatch(seq![(accounts.pool.key, keys.pool), (accounts.proof.key, keys.proof), (accounts.authority.key, keys.authority), (accounts.payer.key, keys.payer), (accounts.system_program.key, keys.system_program), (accounts.rent.key, keys.rent)]),
{
    let pairs = [(accounts.pool.key, keys.pool), (accounts.proof.key, keys.proof), (accounts.authority.key, keys.authority), (accounts.payer.key, keys.payer), (accounts.system_program.key, keys.system_program), (accounts.rent.key, keys.rent)];
    let r = check_keys(pairs.as_slice());
    assert(pairs@ =~= seq![(accounts.pool.key, keys.pool), (accounts.proof.key, keys.proof), (accounts.authority.key, keys.authority), (accounts.payer.key, keys.payer), (accounts.system_program.key, keys.system_program), (accounts.rent.key, keys.rent)]);
    r
}

/// Checks that the accounts the instruction writes to are writable; the first account that fails is reported.
pub fn close_proof_verify_writable_privileges(accounts: CloseProofAccounts) -> (r: Result<(), (AccountView, ProgramError)>)
    ensures
        r == first_not_writable(seq![accounts.proof, accounts.payer]),
{
    let list = [accounts.proof, accounts.payer];
    let r = check_writable(list.as_slice());
    assert(list@ =~= seq![accounts.proof, accounts.payer]);
    r
}

/// Checks that the accounts the instruction needs signatures from signed; the first account that fails is reported.
pub fn close_proof_verify_signer_privileges(accounts: CloseProofAccounts) -> (r: Result<(), (AccountView, ProgramError)>)
    ensures
        r == first_not_signer(seq![accounts.authority, accounts.payer]),
{
    let list = [accounts.authority, accounts.payer];
    let r = check_signers(list.as_slice());
    assert(list@ =~= seq![accounts.authority, accounts.payer]);
    r
}

/// Checks write access, then signatures.
pub fn close_proof_verify_account_privileges(accounts: CloseProofAccounts) -> (r: Result<(), (AccountView, ProgramError)>)
    ensures
        r == (match first_not_writable(seq![accounts.proof, accounts.payer]) {
            Err(e) => Err(e),
            Ok(()) => first_not_signer(seq![accounts.authority, accounts.payer]),
        }),
{
    close_proof_verify_writable_privileges(accounts)?;
    close_proof_verify_signer_privileges(accounts)?;
    Ok(())
}

pub const OPEN_TOKEN_ACCOUNT_IX_ACCOUNTS_LEN: usize = 9;

/// The accounts handed to the instruction.
#[derive(Clone, Copy, Debug, PartialEq, Eq)]
pub struct OpenTokenAccountAccounts {
    pub pool: AccountView,
    pub proof: AccountView,
    pub commitment_vault: AccountView,
    pub mint: AccountView,
    pub authority: AccountView,
    pub payer: AccountView,
    pub token_program: AccountView,
    pub system_program: AccountView,
    pub rent: AccountView,
}

/// The addresses of the instruction's accounts.
#[derive(Clone, Copy, Debug, PartialEq, Eq)]
pub struct OpenTokenAccountKeys {
    pub pool: Pubkey,
    pub proof: Pubkey,
    pub commitment_vault: Pubkey,
    pub mint: Pubkey,
    pub authority: Pubkey,
    pub payer: Pubkey,
    pub token_program: Pubkey,
    pub system_program: Pubkey,
    pub rent: Pubkey,
}

impl OpenTokenAccountKeys {
    /// The instruction's account list: each key with the privileges the
    /// instruction asks for it.
    pub open spec fn spec_metas(self) -> Seq<AccountMeta> {
        seq![meta(self.pool, false, false), meta(self.proof, false, false), meta(self.commitment_vault, false, true), meta(self.mint, false, false), meta(self.authority, true, false), meta(self.payer, true, true), meta(self.token_program, false, false), meta(self.system_program, false, false), meta(self.rent, false, false)]
    }

    /// The instruction's account list.
    pub fn account_metas(&self) -> (r: [AccountMeta; OPEN_TOKEN_ACCOUNT_IX_ACCOUNTS_LEN])
        ensures
            r@ == self.spec_metas(),
    {
        let r = [
            AccountMeta { pubkey: self.pool, is_signer: false, is_writable: false },
            AccountMeta { pubkey: self.proof, is_signer: false, is_writable: false },
            AccountMeta { pubkey: self.commitment_vault, is_signer: false, is_writable: true },
            AccountMeta { pubkey: self.mint, is_signer: false, is_writable: false },
            AccountMeta { pubkey: self.authority, is_signer: true, is_writable: false },
            AccountMeta { pubkey: self.payer, is_signer: true, is_writable: true },
            AccountMeta { pubkey: self.token_program, is_signer: false, is_writable: false },
            AccountMeta { pubkey: self.system_program, is_signer: false, is_writable: false },
            AccountMeta { pubkey: self.rent, is_signer: false, is_writable: false },
        ];
        assert(r@ =~= self.spec_metas());
        r
    }
}

impl From<[Pubkey; OPEN_TOKEN_ACCOUNT_IX_ACCOUNTS_LEN]> for OpenTokenAccountKeys {
    fn from(pubkeys: [Pubkey; OPEN_TOKEN_ACCOUNT_IX_ACCOUNTS_LEN]) -> (r: Self) {
        OpenTokenAccountKeys { pool: pubkeys[0], proof: pubkeys[1], commitment_vault: pubkeys[2], mint: pubkeys[3], authority: pubkeys[4], payer: pubkeys[5], token_program: pubkeys[6], system_program: pubkeys[7], rent: pubkeys[8] }
    }
}

impl vstd::std_specs::convert::FromSpecImpl<[Pubkey; OPEN_TOKEN_ACCOUNT_IX_ACCOUNTS_LEN]> for OpenTokenAccountKeys {
    open spec fn obeys_from_spec() -> bool {
        true
    }

    open spec fn from_spec(pubkeys: [Pubkey; OPEN_TOKEN_ACCOUNT_IX_ACCOUNTS_LEN]) -> Self {
        OpenTokenAccountKeys { pool: pubkeys[0], proof: pubkeys[1], commitment_vault: pubkeys[2], mint: pubkeys[3], authority: pubkeys[4], payer: pubkeys[5], token_program: pubkeys[6], system_program: pubkeys[7], rent: pubkeys[8] }
    }
}

impl From<OpenTokenAccountAccounts> for OpenTokenAccountKeys {
    fn from(accounts: OpenTokenAccountAccounts) -> (r: Self) {
        OpenTokenAccountKeys { pool: accounts.pool.key, proof: accounts.proof.key, commitment_vault: accounts.commitment_vault.key, mint: accounts.mint.key, authority: accounts.authority.key, payer: accounts.payer.key, token_program: accounts.token_program.key, system_program: accounts.system_program.key, rent: accounts.rent.key }
    }
}

impl vstd::std_specs::convert::FromSpecImpl<OpenTokenAccountAccounts> for OpenTokenAccountKeys {
    open spec fn obeys_from_spec() -> bool {
        true
    }

    open spec fn from_spec(accounts: OpenTokenAccountAccounts) -> Self {
        OpenTokenAccountKeys { pool: accounts.pool.key, proof: accounts.proof.key, commitment_vault: accounts.commitment_vault.key, mint: accounts.mint.key, authority: accounts.authority.key, payer: accounts.payer.key, token_program: accounts.token_program.key, system_program: accounts.system_program.key, rent: accounts.rent.key }
    }
}

impl From<[AccountView; OPEN_TOKEN_ACCOUNT_IX_ACCOUNTS_LEN]> for OpenTokenAccountAccounts {
    fn from(views: [AccountView; OPEN_TOKEN_ACCOUNT_IX_ACCOUNTS_LEN]) -> (r: Self) {
        OpenTokenAccountAccounts { pool: views[0], proof: views[1], commitment_vault: views[2], mint: views[3], authority: views[4], payer: views[5], token_program: views[6], system_program: views[7], rent: views[8] }
    }
}

impl vstd::std_specs::convert::FromSpecImpl<[AccountView; OPEN_TOKEN_ACCOUNT_IX_ACCOUNTS_LEN]> for OpenTokenAccountAccounts {
    open spec fn obeys_from_spec() -> bool {
        true
    }

    open spec fn from_spec(views: [AccountView; OPEN_TOKEN_ACCOUNT_IX_ACCOUNTS_LEN]) -> Self {
        OpenTokenAccountAccounts { pool: views[0], proof: views[1], commitment_vault: views[2], mint: views[3], authority: views[4], payer: views[5], token_program: views[6], system_program: views[7], rent: views[8] }
    }
}

impl OpenTokenAccountAccounts {
    /// The accounts in the instruction's order.
    pub open spec fn spec_list(self) -> Seq<AccountView> {
        seq![self.pool, self.proof, self.commitment_vault, self.mint, self.authority, self.payer, self.token_program, self.system_program, self.rent]
    }
}

/// Builds the instruction for the program at `program_id`; arguments that
/// cannot be encoded are refused.
pub fn open_token_account_ix_with_program_id(program_id: Pubkey, keys: OpenTokenAccountKeys, args: OpenTokenAccountIxArgs) -> (r: Result<Instruction, CodecError>)
    ensures
        args.serializable() ==> (r matches Ok(ix) && ix.program_id == program_id && ix.accounts@ == keys.spec_metas()
            && ix.data@ == OpenTokenAccountIxData(args).spec_bytes()),
        !args.serializable() ==> r == Err::<Instruction, CodecError>(CodecError::InvalidData),
{
    let metas = keys.account_metas();
    let data = OpenTokenAccountIxData(args).try_to_vec()?;
    Ok(Instruction { program_id, accounts: meta_list(metas.as_slice()), data })
}

/// Builds the instruction for the program at its own address.
pub fn open_token_account_ix(keys: OpenTokenAccountKeys, args: OpenTokenAccountIxArgs) -> (r: Result<Instruction, CodecError>)
    ensures
        args.serializable() ==> (r matches Ok(ix) && ix.program_id == ID && ix.accounts@ == keys.spec_metas()
            && ix.data@ == OpenTokenAccountIxData(args).spec_bytes()),
        !args.serializable() ==> r == Err::<Instruction, CodecError>(CodecError::InvalidData),
{
    open_token_account_ix_with_program_id(ID, keys, args)
}

/// An instruction built from `keys` passes the checks of its accounts when
/// each account arrives in the order of the keys with the privileges its
/// account meta asks for: every key matches, every account whose write
/// access is checked is writable and every account whose signature is
/// checked signed.
pub proof fn lemma_open_token_account_metas_pass_checks(keys: OpenTokenAccountKeys, accounts: OpenTokenAccountAccounts)
    requires
        accounts.pool.key == keys.spec_metas()[0].pubkey,
        accounts.pool.is_writable == keys.spec_metas()[0].is_writable,
        accounts.pool.is_signer == keys.spec_metas()[0].is_signer,
        accounts.proof.key == keys.spec_metas()[1].pubkey,
        accounts.proof.is_writable == keys.spec_metas()[1].is_writable,
        accounts.proof.is_signer == keys.spec_metas()[1].is_signer,
        accounts.commitment_vault.key == keys.spec_metas()[2].pubkey,
        accounts.commitment_vault.is_writable == keys.spec_metas()[2].is_writable,
        accounts.commitment_vault.is_signer == keys.spec_metas()[2].is_signer,
        accounts.mint.key == keys.spec_metas()[3].pubkey,
        accounts.mint.is_writable == keys.spec_metas()[3].is_writable,
        accounts.mint.is_signer == keys.spec_metas()[3].is_signer,
        accounts.authority.key == keys.spec_metas()[4].pubkey,
        accounts.authority.is_writable == keys.spec_metas()[4].is_writable,
        accounts.authority.is_signer == keys.spec_metas()[4].is_signer,
        accounts.payer.key == keys.spec_metas()[5].pubkey,
        accounts.payer.is_writable == keys.spec_metas()[5].is_writable,
        accounts.payer.is_signer == keys.spec_metas()[5].is_signer,
        accounts.token_program.key == keys.spec_metas()[6].pubkey,
        accounts.token_program.is_writable == keys.spec_metas()[6].is_writable,
        accounts.token_program.is_signer == keys.spec_metas()[6].is_signer,
        accounts.system_program.key == keys.spec_metas()[7].pubkey,
        accounts.system_program.is_writable == keys.spec_metas()[7].is_writable,
        accounts.system_program.is_signer == keys.spec_metas()[7].is_signer,
        accounts.rent.key == keys.spec_metas()[8].pubkey,
        accounts.rent.is_writable == keys.spec_metas()[8].is_writable,
        accounts.rent.is_signer == keys.spec_metas()[8].is_signer,
    ensures
        first_key_mismatch(seq![(accounts.pool.key, keys.pool), (accounts.proof.key, keys.proof), (accounts.commitment_vault.key, keys.commitment_vault), (accounts.mint.key, keys.mint), (accounts.authority.key, keys.authority), (accounts.payer.key, keys.payer), (accounts.token_program.key, keys.token_program), (accounts.system_program.key, keys.system_program), (accounts.rent.key, keys.rent)]) is Ok,
        first_not_writable(seq![accounts.commitment_vault, accounts.payer]) is Ok,
        first_not_signer(seq![accounts.authority, accounts.payer]) is Ok,
{
    lemma_keys_all_match(seq![(accounts.pool.key, keys.pool), (accounts.proof.key, keys.proof), (accounts.commitment_vault.key, keys.commitment_vault), (accounts.mint.key, keys.mint), (accounts.authority.key, keys.authority), (accounts.payer.key, keys.payer), (accounts.token_program.key, keys.token_program), (accounts.system_program.key, keys.system_program), (accounts.rent.key, keys.rent)]);
    lemma_all_writable(seq![accounts.commitment_vault, accounts.payer]);
    lemma_all_signed(seq![accounts.authority, accounts.payer]);
}

/// Checks each account's address against the expected one, in order;
/// the first that differs is reported as (actual, expected).
pub fn open_token_account_verify_account_keys(accounts: OpenTokenAccountAccounts, keys: OpenTokenAccountKeys) -> (r: Result<(), (Pubkey, Pubkey)>)
    ensures
        r == first_key_mismatch(seq![(accounts.pool.key, keys.pool), (accounts.proof.key, keys.proof), (accounts.commitment_vault.key, keys.commitment_vault), (accounts.mint.key, keys.mint), (accounts.authority.key, keys.authority), (accounts.payer.key, keys.payer), (accounts.token_program.key, keys.token_program), (accounts.system_program.key, keys.system_program), (accounts.rent.key, keys.rent)]),
{
    let pairs = [(accounts.pool.key, keys.pool), (accounts.proof.key, keys.proof), (accounts.commitment_vault.key, keys.commitment_vault), (accounts.mint.key, keys.mint), (accounts.authority.key, keys.authority), (accounts.payer.key, keys.payer), (accounts.token_program.key, keys.token_program), (accounts.system_program.key, keys.system_program), (accounts.rent.key, keys.rent)];
    let r = check_keys(pairs.as_slice());
    assert(pairs@ =~= seq![(accounts.pool.key, keys.pool), (accounts.proof.key, keys.proof), (accounts.commitment_vault.key, keys.commitment_vault), (accounts.mint.key, keys.mint), (accounts.authority.key, keys.authority), (accounts.payer.key, keys.payer), (accounts.token_program.key, keys.token_program), (accounts.system_program.key, keys.system_program), (accounts.rent.key, keys.rent)]);
    r
}

/// Checks that the accounts the instruction writes to are writable; the first account that fails is reported.
pub fn open_token_account_verify_writable_privileges(accounts: OpenTokenAccountAccounts) -> (r: Result<(), (AccountView, ProgramError)>)
    ensures
        r == first_not_writable(seq![accounts.commitment_vault, accounts.payer]),
{
    let list = [accounts.commitment_vault, accounts.payer];
    let r = check_writable(list.as_slice());
    assert(list@ =~= seq![accounts.commitment_vault, accounts.payer]);
    r
}

/// Checks that the accounts the instruction needs signatures from signed; the first account that fails is reported.
pub fn open_token_account_verify_signer_privileges(accounts: OpenTokenAccountAccounts) -> (r: Result<(), (AccountView, ProgramError)>)
    ensures
        r == first_not_signer(seq![accounts.authority, accounts.payer]),
{
    let list = [accounts.authority, accounts.payer];
    let r = check_signers(list.as_slice());
    assert(list@ =~= seq![accounts.authority, accounts.payer]);
    r
}

/// Checks write access, then signatures.
pub fn open_token_account_verify_account_privileges(accounts: OpenTokenAccountAccounts) -> (r: Result<(), (AccountView, ProgramError)>)
    ensures
        r == (match first_not_writable(seq![accounts.commitment_vault, accounts.payer]) {
            Err(e) => Err(e),
            Ok(()) => first_not_signer(seq![accounts.authority, accounts.payer]),
        }),
{
    open_token_account_verify_writable_privileges(accounts)?;
    open_token_account_verify_signer_privileges(accounts)?;
    Ok(())
}

pub const CLOSE_TOKEN_ACCOUNT_IX_ACCOUNTS_LEN: usize = 8;

/// The accounts handed to the instruction.
#[derive(Clone, Copy, Debug, PartialEq, Eq)]
pub struct CloseTokenAccountAccounts {
    pub pool: AccountView,
    pub proof: AccountView,
    pub commitment_vault: AccountView,
    pub pool_vault: AccountView,
    pub authority: AccountView,
    pub payer: AccountView,
    pub token_program: AccountView,
    pub system_program: AccountView,
}

/// The addresses of the instruction's accounts.
#[derive(Clone, Copy, Debug, PartialEq, Eq)]
pub struct CloseTokenAccountKeys {
    pub pool: Pubkey,
    pub proof: Pubkey,
    pub commitment_vault: Pubkey,
    pub pool_vault: Pubkey,
    pub authority: Pubkey,
    pub payer: Pubkey,
    pub token_program: Pubkey,
    pub system_program: Pubkey,
}

impl CloseTokenAccountKeys {
    /// The instruction's account list: each key with the privileges the
    /// instruction asks for it.
    pub open spec fn spec_metas(self) -> Seq<AccountMeta> {
        seq![meta(self.pool, false, true), meta(self.proof, false, false), meta(self.commitment_vault, false, true), meta(self.pool_vault, false, true), meta(self.authority, true, false), meta(self.payer, true, true), meta(self.token_program, false, false), meta(self.system_program, false, false)]
    }

    /// The instruction's account list.
    pub fn account_metas(&self) -> (r: [AccountMeta; CLOSE_TOKEN_ACCOUNT_IX_ACCOUNTS_LEN])
        ensures
            r@ == self.spec_metas(),
    {
        let r = [
            AccountMeta { pubkey: self.pool, is_signer: false, is_writable: true },
            AccountMeta { pubkey: self.proof, is_signer: false, is_writable: false },
            AccountMeta { pubkey: self.commitment_vault, is_signer: false, is_writable: true },
            AccountMeta { pubkey: self.pool_vault, is_signer: false, is_writable: true },
            AccountMeta { pubkey: self.authority, is_signer: true, is_writable: false },
            AccountMeta { pubkey: self.payer, is_signer: true, is_writable: true },
            AccountMeta { pubkey: self.token_program, is_signer: false, is_writable: false },
            AccountMeta { pubkey: self.system_program, is_signer: false, is_writable: false },
        ];
        assert(r@ =~= self.spec_metas());
        r
    }
}

impl From<[Pubkey; CLOSE_TOKEN_ACCOUNT_IX_ACCOUNTS_LEN]> for CloseTokenAccountKeys {
    fn from(pubkeys: [Pubkey; CLOSE_TOKEN_ACCOUNT_IX_ACCOUNTS_LEN]) -> (r: Self) {
        CloseTokenAccountKeys { pool: pubkeys[0], proof: pubkeys[1], commitment_vault: pubkeys[2], pool_vault: pubkeys[3], authority: pubkeys[4], payer: pubkeys[5], token_program: pubkeys[6], system_program: pubkeys[7] }
    }
}

impl vstd::std_specs::convert::FromSpecImpl<[Pubkey; CLOSE_TOKEN_ACCOUNT_IX_ACCOUNTS_LEN]> for CloseTokenAccountKeys {
    open spec fn obeys_from_spec() -> bool {
        true
    }

    open spec fn from_spec(pubkeys: [Pubkey; CLOSE_TOKEN_ACCOUNT_IX_ACCOUNTS_LEN]) -> Self {
        CloseTokenAccountKeys { pool: pubkeys[0], proof: pubkeys[1], commitment_vault: pubkeys[2], pool_vault: pubkeys[3], authority: pubkeys[4], payer: pubkeys[5], token_program: pubkeys[6], system_program: pubkeys[7] }
    }
}

impl From<CloseTokenAccountAccounts> for CloseTokenAccountKeys {
    fn from(accounts: CloseTokenAccountAccounts) -> (r: Self) {
        CloseTokenAccountKeys { pool: accounts.pool.key, proof: accounts.proof.key, commitment_vault: accounts.commitment_vault.key, pool_vault: accounts.pool_vault.key, authority: accounts.authority.key, payer: accounts.payer.key, token_program: accounts.token_program.key, system_program: accounts.system_program.key }
    }
}

impl vstd::std_specs::convert::FromSpecImpl<CloseTokenAccountAccounts> for CloseTokenAccountKeys {
    open spec fn obeys_from_spec() -> bool {
        true
    }

    open spec fn from_spec(accounts: CloseTokenAccountAccounts) -> Self {
        CloseTokenAccountKeys { pool: accounts.pool.key, proof: accounts.proof.key, commitment_vault: accounts.commitment_vault.key, pool_vault: accounts.pool_vault.key, authority: accounts.authority.key, payer: accounts.payer.key, token_program: accounts.token_program.key, system_program: accounts.system_program.key }
    }
}

impl From<[AccountView; CLOSE_TOKEN_ACCOUNT_IX_ACCOUNTS_LEN]> for CloseTokenAccountAccounts {
    fn from(views: [AccountView; CLOSE_TOKEN_ACCOUNT_IX_ACCOUNTS_LEN]) -> (r: Self) {
        CloseTokenAccountAccounts { pool: views[0], proof: views[1], commitment_vault: views[2], pool_vault: views[3], authority: views[4], payer: views[5], token_program: views[6], system_program: views[7] }
    }
}

impl vstd::std_specs::convert::FromSpecImpl<[AccountView; CLOSE_TOKEN_ACCOUNT_IX_ACCOUNTS_LEN]> for CloseTokenAccountAccounts {
    open spec fn obeys_from_spec() -> bool {
        true
    }

    open spec fn from_spec(views: [AccountView; CLOSE_TOKEN_ACCOUNT_IX_ACCOUNTS_LEN]) -> Self {
        CloseTokenAccountAccounts { pool: views[0], proof: views[1], commitment_vault: views[2], pool_vault: views[3], authority: views[4], payer: views[5], token_program: views[6], system_program: views[7] }
    }
}

impl CloseTokenAccountAccounts {
    /// The accounts in the instruction's order.
    pub open spec fn spec_list(self) -> Seq<AccountView> {
        seq![self.pool, self.proof, self.commitment_vault, self.pool_vault, self.authority, self.payer, self.token_program, self.system_program]
    }
}

/// Builds the instruction for the program at `program_id`; arguments that
/// cannot be encoded are refused.
pub fn close_token_account_ix_with_program_id(program_id: Pubkey, keys: CloseTokenAccountKeys, args: CloseTokenAccountIxArgs) -> (r: Result<Instruction, CodecError>)
    ensures
        args.serializable() ==> (r matches Ok(ix) && ix.program_id == program_id && ix.accounts@ == keys.spec_metas()
            && ix.data@ == CloseTokenAccountIxData(args).spec_bytes()),
        !args.serializable() ==> r == Err::<Instruction, CodecError>(CodecError::InvalidData),
{
    let metas = keys.account_metas();
    let data = CloseTokenAccountIxData(args).try_to_vec()?;
    Ok(Instruction { program_id, accounts: meta_list(metas.as_slice()), data })
}

/// Builds the instruction for the program at its own address.
pub fn close_token_account_ix(keys: CloseTokenAccountKeys, args: CloseTokenAccountIxArgs) -> (r: Result<Instruction, CodecError>)
    ensures
        args.serializable() ==> (r matches Ok(ix) && ix.program_id == ID && ix.accounts@ == keys.spec_metas()
            && ix.data@ == CloseTokenAccountIxData(args).spec_bytes()),
        !args.serializable() ==> r == Err::<Instruction, CodecError>(CodecError::InvalidData),
{
    close_token_account_ix_with_program_id(ID, keys, args)
}

/// An instruction built from `keys` passes the checks of its accounts when
/// each account arrives in the order of the keys with the privileges its
/// account meta asks for: every key matches, every account whose write
/// access is checked is writable and every account whose signature is
/// checked signed.
pub proof fn lemma_close_token_account_metas_pass_checks(keys: CloseTokenAccountKeys, accounts: CloseTokenAccountAccounts)
    requires
        accounts.pool.key == keys.spec_metas()[0].pubkey,
        accounts.pool.is_writable == keys.spec_metas()[0].is_writable,
        accounts.pool.is_signer == keys.spec_metas()[0].is_signer,
        accounts.proof.key == keys.spec_metas()[1].pubkey,
        accounts.proof.is_writable == keys.spec_metas()[1].is_writable,
        accounts.proof.is_signer == keys.spec_metas()[1].is_signer,
        accounts.commitment_vault.key == keys.spec_metas()[2].pubkey,
        accounts.commitment_vault.is_writable == keys.spec_metas()[2].is_writable,
        accounts.commitment_vault.is_signer == keys.spec_metas()[2].is_signer,
        accounts.pool_vault.key == keys.spec_metas()[3].pubkey,
        accounts.pool_vault.is_writable == keys.spec_metas()[3].is_writable,
        accounts.pool_vault.is_signer == keys.spec_metas()[3].is_signer,
        accounts.authority.key == keys.spec_metas()[4].pubkey,
        accounts.authority.is_writable == keys.spec_metas()[4].is_writable,
        accounts.authority.is_signer == keys.spec_metas()[4].is_signer,
        accounts.payer.key == keys.spec_metas()[5].pubkey,
        accounts.payer.is_writable == keys.spec_metas()[5].is_writable,
        accounts.payer.is_signer == keys.spec_metas()[5].is_signer,
        accounts.token_program.key == keys.spec_metas()[6].pubkey,
        accounts.token_program.is_writable == keys.spec_metas()[6].is_writable,
        accounts.token_program.is_signer == keys.spec_metas()[6].is_signer,
        accounts.system_program.key == keys.spec_metas()[7].pubkey,
        accounts.system_program.is_writable == keys.spec_metas()[7].is_writable,
        accounts.system_program.is_signer == keys.spec_metas()[7].is_signer,
    ensures
        first_key_mismatch(seq![(accounts.pool.key, keys.pool), (accounts.proof.key, keys.proof), (accounts.commitment_vault.key, keys.commitment_vault), (accounts.pool_vault.key, keys.pool_vault), (accounts.authority.key, keys.authority), (accounts.payer.key, keys.payer), (accounts.token_program.key, keys.token_program), (accounts.system_program.key, keys.system_program)]) is Ok,
        first_not_writable(seq![accounts.pool, accounts.commitment_vault, accounts.pool_vault, accounts.payer]) is Ok,
        first_not_signer(seq![accounts.authority, accounts.payer]) is Ok,
{
    lemma_keys_all_match(seq![(accounts.pool.key, keys.pool), (accounts.proof.key, keys.proof), (accounts.commitment_vault.key, keys.commitment_vault), (accounts.pool_vault.key, keys.pool_vault), (accounts.authority.key, keys.authority), (accounts.payer.key, keys.payer), (accounts.token_program.key, keys.token_program), (accounts.system_program.key, keys.system_program)]);
    lemma_all_writable(seq![accounts.pool, accounts.commitment_vault, accounts.pool_vault, accounts.payer]);
    lemma_all_signed(seq![accounts.authority, accounts.payer]);
}

/// Checks each account's address against the expected one, in order;
/// the first that differs is reported as (actual, expected).
pub fn close_token_account_verify_account_keys(accounts: CloseTokenAccountAccounts, keys: CloseTokenAccountKeys) -> (r: Result<(), (Pubkey, Pubkey)>)
    ensures
        r == first_key_mismatch(seq![(accounts.pool.key, keys.pool), (accounts.proof.key, keys.proof), (accounts.commitment_vault.key, keys.commitment_vault), (accounts.pool_vault.key, keys.pool_vault), (accounts.authority.key, keys.authority), (accounts.payer.key, keys.payer), (accounts.token_program.key, keys.token_program), (accounts.system_program.key, keys.system_program)]),
{
    let pairs = [(accounts.pool.key, keys.pool), (accounts.proof.key, keys.proof), (accounts.commitment_vault.key, keys.commitment_vault), (accounts.pool_vault.key, keys.pool_vault), (accounts.authority.key, keys.authority), (accounts.payer.key, keys.payer), (accounts.token_program.key, keys.token_program), (accounts.system_program.key, keys.system_program)];
    let r = check_keys(pairs.as_slice());
    assert(pairs@ =~= seq![(accounts.pool.key, keys.pool), (accounts.proof.key, keys.proof), (accounts.commitment_vault.key, keys.commitment_vault), (accounts.pool_vault.key, keys.pool_vault), (accounts.authority.key, keys.authority), (accounts.payer.key, keys.payer), (accounts.token_program.key, keys.token_program), (accounts.system_program.key, keys.system_program)]);
    r
}

/// Checks that the accounts the instruction writes to are writable; the first account that fails is reported.
pub fn close_token_account_verify_writable_privileges(accounts: CloseTokenAccountAccounts) -> (r: Result<(), (AccountView, ProgramError)>)
    ensures
        r == first_not_writable(seq![accounts.pool, accounts.commitment_vault, accounts.pool_vault, accounts.payer]),
{
    let list = [accounts.pool, accounts.commitment_vault, accounts.pool_vault, accounts.payer];
    let r = check_writable(list.as_slice());
    assert(list@ =~= seq![accounts.pool, accounts.commitment_vault, accounts.pool_vault, accounts.payer]);
    r
}

/// Checks that the accounts the instruction needs signatures from signed; the first account that fails is reported.
pub fn close_token_account_verify_signer_privileges(accounts: CloseTokenAccountAccounts) -> (r: Result<(), (AccountView, ProgramError)>)
    ensures
        r == first_not_signer(seq![accounts.authority, accounts.payer]),
{
    let list = [accounts.authority, accounts.payer];
    let r = check_signers(list.as_slice());
    assert(list@ =~= seq![accounts.authority, accounts.payer]);
    r
}

/// Checks write access, then signatures.
pub fn close_token_account_verify_account_privileges(accounts: CloseTokenAccountAccounts) -> (r: Result<(), (AccountView, ProgramError)>)
    ensures
        r == (match first_not_writable(seq![accounts.pool, accounts.commitment_vault, accounts.pool_vault, accounts.payer]) {
            Err(e) => Err(e),
            Ok(()) => first_not_signer(seq![accounts.authority, accounts.payer]),
        }),
{
    close_token_account_verify_writable_privileges(accounts)?;
    close_token_account_verify_signer_privileges(accounts)?;
    Ok(())
}

} // verus!
