//! Enumerations stored in the timelock program's accounts.
use vstd::prelude::*;
use crate::codec::{read_u8, write_u8, CodecError};

verus! {

/// Lifecycle state of a timelock.
#[derive(Clone, Copy, Debug, PartialEq, Eq)]
pub enum TimeLockState {
    Unknown,
    Unlocked,
    WaitingForTimeout,
    Locked,
    Closed,
}

impl TimeLockState {
    /// The variant's one-byte tag.
    pub open spec fn tag(self) -> u8 {
        match self {
            TimeLockState::Unknown => 0,
            TimeLockState::Unlocked => 1,
            TimeLockState::WaitingForTimeout => 2,
            TimeLockState::Locked => 3,
            TimeLockState::Closed => 4,
        }
    }

    /// The tag of each vault state on the wire: unknown 0, unlocked 1, waiting
    /// for the timeout 2, locked 3, closed 4.
    pub proof fn lemma_wire_codes()
        ensures
            TimeLockState::Unknown.tag() == 0,
            TimeLockState::Unlocked.tag() == 1,
            TimeLockState::WaitingForTimeout.tag() == 2,
            TimeLockState::Locked.tag() == 3,
            TimeLockState::Closed.tag() == 4,
    {
    }

    /// Wire encoding: the tag.
    pub open spec fn spec_bytes(self) -> Seq<u8> {
        seq![self.tag()]
    }

    /// Reads the variant at `pos`: the tag must name one.
    pub fn read(buf: &[u8], pos: usize) -> (r: Result<(Self, usize), CodecError>)
        ensures
            pos >= buf@.len() ==> r == Err::<(Self, usize), CodecError>(CodecError::UnexpectedEnd),
            pos < buf@.len() && buf@[pos as int] >= 5 ==> r == Err::<(Self, usize), CodecError>(CodecError::InvalidData),
            pos < buf@.len() && buf@[pos as int] < 5 ==> (r matches Ok((x, e)) && e == pos + 1 && x.tag() == buf@[pos as int]),
    {
        if pos >= buf.len() {
            return Err(CodecError::UnexpectedEnd);
        }
        let t = read_u8(buf, pos)?;
        if t == 0 {
            return Ok((TimeLockState::Unknown, pos + 1));
        }
        if t == 1 {
            return Ok((TimeLockState::Unlocked, pos + 1));
        }
        if t == 2 {
            return Ok((TimeLockState::WaitingForTimeout, pos + 1));
        }
        if t == 3 {
            return Ok((TimeLockState::Locked, pos + 1));
        }
        if t == 4 {
            return Ok((TimeLockState::Closed, pos + 1));
        }
        Err(CodecError::InvalidData)
    }

    /// Reads the variant at `pos` as a field of a larger value: it succeeds
    /// exactly where a variant's tag stands there, and gives that variant.
    pub fn read_field(buf: &[u8], pos: usize) -> (r: Result<(Self, usize), CodecError>)
        requires
            pos <= buf@.len(),
        ensures
            r matches Ok((v, e)) ==> e == pos + 1 && e <= buf@.len() && v.spec_bytes() == buf@.subrange(pos as int, e as int),
            forall|x: Self| #[trigger] x.spec_bytes().is_prefix_of(buf@.skip(pos as int)) ==> r == Ok::<(Self, usize), CodecError>(
                (x, (pos + 1) as usize),
            ),
            r is Err ==> r == Err::<(Self, usize), CodecError>(CodecError::UnexpectedEnd) || r == Err::<(Self, usize), CodecError>(CodecError::InvalidData),
    {
        proof {
            assert forall|x: Self| #[trigger] x.spec_bytes().is_prefix_of(buf@.skip(pos as int)) implies pos < buf@.len()
                && buf@[pos as int] == x.tag() by {
                assert(buf@.skip(pos as int)[0] == x.spec_bytes()[0]);
            }
        }
        let r = Self::read(buf, pos);
        proof {
            if r is Ok {
                let pair = r->Ok_0;
                assert(pair.0.spec_bytes() =~= buf@.subrange(pos as int, pos + 1));
                assert forall|x: Self| #[trigger] x.spec_bytes().is_prefix_of(buf@.skip(pos as int)) implies x == pair.0 by {
                    Self::lemma_tag_injective(x, pair.0);
                }
            }
        }
        r
    }

    /// Appends the tag to `w`.
    pub fn write(&self, w: &mut Vec<u8>)
        ensures
            final(w)@ == old(w)@ + self.spec_bytes(),
    {
        let t: u8 = match self {
            TimeLockState::Unknown => 0,
            TimeLockState::Unlocked => 1,
            TimeLockState::WaitingForTimeout => 2,
            TimeLockState::Locked => 3,
            TimeLockState::Closed => 4,
        };
        write_u8(w, t);
        assert(final(w)@ =~= old(w)@ + self.spec_bytes());
    }

    /// Variants are told apart by their tags.
    pub proof fn lemma_tag_injective(x: Self, y: Self)
        requires
            x.tag() == y.tag(),
        ensures
            x == y,
    {
    }
}

/// Layout version of a timelock account.
#[derive(Clone, Copy, Debug, PartialEq, Eq)]
pub enum DataVersion {
    Unknown,
    Legacy,
    Closed,
    Version1,
}

impl DataVersion {
    /// The variant's one-byte tag.
    pub open spec fn tag(self) -> u8 {
        match self {
            DataVersion::Unknown => 0,
            DataVersion::Legacy => 1,
            DataVersion::Closed => 2,
            DataVersion::Version1 => 3,
        }
    }

    /// The tag of each data version on the wire: unknown 0, legacy 1, closed 2,
    /// version one 3.
    pub proof fn lemma_wire_codes()
        ensures
            DataVersion::Unknown.tag() == 0,
            DataVersion::Legacy.tag() == 1,
            DataVersion::Closed.tag() == 2,
            DataVersion::Version1.tag() == 3,
    {
    }

    /// Wire encoding: the tag.
    pub open spec fn spec_bytes(self) -> Seq<u8> {
        seq![self.tag()]
    }

    /// Reads the variant at `pos`: the tag must name one.
    pub fn read(buf: &[u8], pos: usize) -> (r: Result<(Self, usize), CodecError>)
        ensures
            pos >= buf@.len() ==> r == Err::<(Self, usize), CodecError>(CodecError::UnexpectedEnd),
            pos < buf@.len() && buf@[pos as int] >= 4 ==> r == Err::<(Self, usize), CodecError>(CodecError::InvalidData),
            pos < buf@.len() && buf@[pos as int] < 4 ==> (r matches Ok((x, e)) && e == pos + 1 && x.tag() == buf@[pos as int]),
    {
        if pos >= buf.len() {
            return Err(CodecError::UnexpectedEnd);
        }
        let t = read_u8(buf, pos)?;
        if t == 0 {
            return Ok((DataVersion::Unknown, pos + 1));
        }
        if t == 1 {
            return Ok((DataVersion::Legacy, pos + 1));
        }
        if t == 2 {
            return Ok((DataVersion::Closed, pos + 1));
        }
        if t == 3 {
            return Ok((DataVersion::Version1, pos + 1));
        }
        Err(CodecError::InvalidData)
    }

    /// Reads the variant at `pos` as a field of a larger value: it succeeds
    /// exactly where a variant's tag stands there, and gives that variant.
    pub fn read_field(buf: &[u8], pos: usize) -> (r: Result<(Self, usize), CodecError>)
        requires
            pos <= buf@.len(),
        ensures
            r matches Ok((v, e)) ==> e == pos + 1 && e <= buf@.len() && v.spec_bytes() == buf@.subrange(pos as int, e as int),
            forall|x: Self| #[trigger] x.spec_bytes().is_prefix_of(buf@.skip(pos as int)) ==> r == Ok::<(Self, usize), CodecError>(
                (x, (pos + 1) as usize),
            ),
            r is Err ==> r == Err::<(Self, usize), CodecError>(CodecError::UnexpectedEnd) || r == Err::<(Self, usize), CodecError>(CodecError::InvalidData),
    {
        proof {
            assert forall|x: Self| #[trigger] x.spec_bytes().is_prefix_of(buf@.skip(pos as int)) implies pos < buf@.len()
                && buf@[pos as int] == x.tag() by {
                assert(buf@.skip(pos as int)[0] == x.spec_bytes()[0]);
            }
        }
        let r = Self::read(buf, pos);
        proof {
            if r is Ok {
                let pair = r->Ok_0;
                assert(pair.0.spec_bytes() =~= buf@.subrange(pos as int, pos + 1));
                assert forall|x: Self| #[trigger] x.spec_bytes().is_prefix_of(buf@.skip(pos as int)) implies x == pair.0 by {
                    Self::lemma_tag_injective(x, pair.0);
                }
            }
        }
        r
    }

    /// Appends the tag to `w`.
    pub fn write(&self, w: &mut Vec<u8>)
        ensures
            final(w)@ == old(w)@ + self.spec_bytes(),
    {
        let t: u8 = match self {
            DataVersion::Unknown => 0,
            DataVersion::Legacy => 1,
            DataVersion::Closed => 2,
            DataVersion::Version1 => 3,
        };
        write_u8(w, t);
        assert(final(w)@ =~= old(w)@ + self.spec_bytes());
    }

    /// Variants are told apart by their tags.
    pub proof fn lemma_tag_injective(x: Self, y: Self)
        requires
            x.tag() == y.tag(),
        ensures
            x == y,
    {
    }
}

} // verus!
