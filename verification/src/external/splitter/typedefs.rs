//! Enumerations stored in the splitter program's accounts.
use vstd::prelude::*;
use crate::codec::{enc_u64, enc_vec32, lemma_vec32_prefix_unique, read_u8, write_array32, write_u64, write_u8, write_vec32, CodecError};
use crate::fields::{enc_u8, key_field, lemma_key_unique, lemma_prefix_split, lemma_u64_unique, lemma_u8_unique, u64_field, u8_field, vec32_field};

verus! {

/// Layout version of a splitter account.
#[derive(Clone, Copy, Debug, PartialEq, Eq)]
pub enum DataVersion {
    Unknown,
    Version1,
}

impl DataVersion {
    /// The variant's one-byte tag.
    pub open spec fn tag(self) -> u8 {
        match self {
            DataVersion::Unknown => 0,
            DataVersion::Version1 => 1,
        }
    }

    /// The tag of each data version on the wire: unknown 0, version one 1.
    pub proof fn lemma_wire_codes()
        ensures
            DataVersion::Unknown.tag() == 0,
            DataVersion::Version1.tag() == 1,
    {
    }

    /// Wire encoding: the tag.
    pub open spec fn spec_bytes(self) -> Seq<u8> {
        seq![self.tag()]
    }

    /// Reads the variant at `pos`: the tag must name one.
    pub fn read(buf: &[u8], pos: usize) -> (r: Result<(Self, usize), CodecError>)
        ensures
            pos >= buf@.len() ==> r == Err::<(Self, usize), CodecError>(CodecError::UnexpectedEnd),
            pos < buf@.len() && buf@[pos as int] >= 2 ==> r == Err::<(Self, usize), CodecError>(CodecError::InvalidData),
            pos < buf@.len() && buf@[pos as int] < 2 ==> (r matches Ok((x, e)) && e == pos + 1 && x.tag() == buf@[pos as int]),
    {
        if pos >= buf.len() {
            return Err(CodecError::UnexpectedEnd);
        }
        let t = read_u8(buf, pos)?;
        if t == 0 {
            return Ok((DataVersion::Unknown, pos + 1));
        }
        if t == 1 {
            return Ok((DataVersion::Version1, pos + 1));
        }
        Err(CodecError::InvalidData)
    }

    /// Reads the variant at `pos` as a field of a larger value: it succeeds
    /// exactly where a variant's tag stands there, and gives that variant.
    pub fn read_field(buf: &[u8], pos: usize) -> (r: Result<(Self, usize), CodecError>)
        requires
            pos <= buf@.len(),
        ensures
            r matches Ok((v, e)) ==> e == pos + 1 && e <= buf@.len() && v.spec_bytes() == buf@.subrange(pos as int, e as int),
            forall|x: Self| #[trigger] x.spec_bytes().is_prefix_of(buf@.skip(pos as int)) ==> r == Ok::<(Self, usize), CodecError>(
                (x, (pos + 1) as usize),
            ),
            r is Err ==> r == Err::<(Self, usize), CodecError>(CodecError::UnexpectedEnd) || r == Err::<(Self, usize), CodecError>(CodecError::InvalidData),
    {
        proof {
            assert forall|x: Self| #[trigger] x.spec_bytes().is_prefix_of(buf@.skip(pos as int)) implies pos < buf@.len()
                && buf@[pos as int] == x.tag() by {
                assert(buf@.skip(pos as int)[0] == x.spec_bytes()[0]);
            }
        }
        let r = Self::read(buf, pos);
        proof {
            if r is Ok {
                let pair = r->Ok_0;
                assert(pair.0.spec_bytes() =~= buf@.subrange(pos as int, pos + 1));
                assert forall|x: Self| #[trigger] x.spec_bytes().is_prefix_of(buf@.skip(pos as int)) implies x == pair.0 by {
                    Self::lemma_tag_injective(x, pair.0);
                }
            }
        }
        r
    }

    /// Appends the tag to `w`.
    pub fn write(&self, w: &mut Vec<u8>)
        ensures
            final(w)@ == old(w)@ + self.spec_bytes(),
    {
        let t: u8 = match self {
            DataVersion::Unknown => 0,
            DataVersion::Version1 => 1,
        };
        write_u8(w, t);
        assert(final(w)@ =~= old(w)@ + self.spec_bytes());
    }

    /// Variants are told apart by their tags.
    pub proof fn lemma_tag_injective(x: Self, y: Self)
        requires
            x.tag() == y.tag(),
        ensures
            x == y,
    {
    }
}

/// The merkle tree a pool keeps of its commitments.
#[derive(Clone, Debug, PartialEq, Eq)]
pub struct MerkleTree {
    pub levels: u8,
    pub next_index: u64,
    pub root: [u8; 32],
    pub filled_subtrees: Vec<[u8; 32]>,
    pub zero_values: Vec<[u8; 32]>,
}

impl MerkleTree {
    /// Borsh encoding: the fields in order.
    pub open spec fn spec_bytes(self) -> Seq<u8> {
        enc_u8(self.levels) + (enc_u64(self.next_index) + (self.root@ + (enc_vec32(self.filled_subtrees@) + enc_vec32(self.zero_values@))))
    }

    /// Where each field lies in the encoding: levels in bytes 0..1, next_index in bytes
    /// 1..9, root in bytes 9..41.
    pub proof fn lemma_field_offsets(self)
        ensures
            self.spec_bytes().subrange(0, 1) == enc_u8(self.levels),
            self.spec_bytes().subrange(1, 9) == enc_u64(self.next_index),
            self.spec_bytes().subrange(9, 41) == self.root@,
    {
        crate::codec::lemma_le_bytes();
        vstd::bytes::lemma_auto_spec_u64_to_from_le_bytes();
        assert(self.spec_bytes().subrange(0, 1) =~= enc_u8(self.levels));
        assert(self.spec_bytes().subrange(1, 9) =~= enc_u64(self.next_index));
        assert(self.spec_bytes().subrange(9, 41) =~= self.root@);
    }

    /// Every length prefix fits in a `u32`.
    pub open spec fn serializable(self) -> bool {
        self.filled_subtrees@.len() <= u32::MAX && self.zero_values@.len() <= u32::MAX
    }

    /// Both hold the same values.
    pub open spec fn same(self, other: Self) -> bool {
        self.levels == other.levels
        && self.next_index == other.next_index
        && self.root == other.root
        && self.filled_subtrees@ == other.filled_subtrees@
        && self.zero_values@ == other.zero_values@
    }

    /// Reads the value at `pos` as a field of a larger value: it succeeds
    /// exactly where the encoding of some value opens the bytes there, and
    /// gives that value.
    #[verifier::spinoff_prover]
    #[verifier::rlimit(50)]
    pub fn read_field(buf: &[u8], pos: usize) -> (r: Result<(Self, usize), CodecError>)
        requires
            pos <= buf@.len(),
        ensures
            r matches Ok((v, e)) ==> pos <= e <= buf@.len() && v.serializable() && v.spec_bytes() == buf@.subrange(
                pos as int,
                e as int,
            ),
            forall|x: Self| x.serializable() && #[trigger] x.spec_bytes().is_prefix_of(buf@.skip(pos as int)) ==> (r matches Ok(
                (v, e),
            ) && v.same(x) && e == pos + x.spec_bytes().len()),
            r is Err ==> r == Err::<(Self, usize), CodecError>(CodecError::UnexpectedEnd) || r == Err::<(Self, usize), CodecError>(
                CodecError::InvalidData,
            ),
    {
        let ghost b = buf@;
        let ghost p0 = pos as int;
        proof {
            assert forall|x: Self| x.serializable() && #[trigger] x.spec_bytes().is_prefix_of(b.skip(p0)) implies enc_u8(x.levels).is_prefix_of(
                b.skip(p0),
            ) && (enc_u64(x.next_index) + (x.root@ + (enc_vec32(x.filled_subtrees@) + enc_vec32(x.zero_values@)))).is_prefix_of(b.skip(p0 + enc_u8(x.levels).len())) by {
                lemma_prefix_split(enc_u8(x.levels), enc_u64(x.next_index) + (x.root@ + (enc_vec32(x.filled_subtrees@) + enc_vec32(x.zero_values@))), b, p0);
            }
        }
        let (levels, e_levels) = match u8_field(buf, pos) {
            Ok(t) => t,
            Err(err) => {
                return Err(err);
            },
        };
        proof {
            assert forall|x: Self| x.serializable() && #[trigger] x.spec_bytes().is_prefix_of(b.skip(p0)) implies levels == x.levels
                && e_levels == p0 + enc_u8(x.levels).len() && (enc_u64(x.next_index) + (x.root@ + (enc_vec32(x.filled_subtrees@) + enc_vec32(x.zero_values@)))).is_prefix_of(b.skip(e_levels as int)) by {
            }
        }
        proof {
            assert forall|x: Self| x.serializable() && #[trigger] x.spec_bytes().is_prefix_of(b.skip(p0)) implies enc_u64(x.next_index).is_prefix_of(
                b.skip(e_levels as int),
            ) && (x.root@ + (enc_vec32(x.filled_subtrees@) + enc_vec32(x.zero_values@))).is_prefix_of(b.skip(e_levels as int + enc_u64(x.next_index).len())) by {
                lemma_prefix_split(enc_u64(x.next_index), x.root@ + (enc_vec32(x.filled_subtrees@) + enc_vec32(x.zero_values@)), b, e_levels as int);
            }
        }
        let (next_index, e_next_index) = match u64_field(buf, e_levels) {
            Ok(t) => t,
            Err(err) => {
                return Err(err);
            },
        };
        proof {
            assert forall|x: Self| x.serializable() && #[trigger] x.spec_bytes().is_prefix_of(b.skip(p0)) implies next_index == x.next_index
                && e_next_index == e_levels as int + enc_u64(x.next_index).len() && (x.root@ + (enc_vec32(x.filled_subtrees@) + enc_vec32(x.zero_values@))).is_prefix_of(b.skip(e_next_index as int)) by {
            }
        }
        proof {
            assert forall|x: Self| x.serializable() && #[trigger] x.spec_bytes().is_prefix_of(b.skip(p0)) implies x.root@.is_prefix_of(
                b.skip(e_next_index as int),
            ) && (enc_vec32(x.filled_subtrees@) + enc_vec32(x.zero_values@)).is_prefix_of(b.skip(e_next_index as int + x.root@.len())) by {
                lemma_prefix_split(x.root@, enc_vec32(x.filled_subtrees@) + enc_vec32(x.zero_values@), b, e_next_index as int);
            }
        }
        let (root, e_root) = match key_field(buf, e_next_index) {
            Ok(t) => t,
            Err(err) => {
                return Err(err);
            },
        };
        proof {
            assert forall|x: Self| x.serializable() && #[trigger] x.spec_bytes().is_prefix_of(b.skip(p0)) implies root == x.root
                && e_root == e_next_index as int + x.root@.len() && (enc_vec32(x.filled_subtrees@) + enc_vec32(x.zero_values@)).is_prefix_of(b.skip(e_root as int)) by {
            }
        }
        proof {
            assert forall|x: Self| x.serializable() && #[trigger] x.spec_bytes().is_prefix_of(b.skip(p0)) implies enc_vec32(x.filled_subtrees@).is_prefix_of(
                b.skip(e_root as int),
            ) && (enc_vec32(x.zero_values@)).is_prefix_of(b.skip(e_root as int + enc_vec32(x.filled_subtrees@).len())) by {
                lemma_prefix_split(enc_vec32(x.filled_subtrees@), enc_vec32(x.zero_values@), b, e_root as int);
            }
        }
        let (filled_subtrees, e_filled_subtrees) = match vec32_field(buf, e_root) {
            Ok(t) => t,
            Err(err) => {
                return Err(err);
            },
        };
        proof {
            assert forall|x: Self| x.serializable() && #[trigger] x.spec_bytes().is_prefix_of(b.skip(p0)) implies filled_subtrees@ == x.filled_subtrees@
                && e_filled_subtrees == e_root as int + enc_vec32(x.filled_subtrees@).len() && (enc_vec32(x.zero_values@)).is_prefix_of(b.skip(e_filled_subtrees as int)) by {
            }
        }
        proof {
            assert forall|x: Self| x.serializable() && #[trigger] x.spec_bytes().is_prefix_of(b.skip(p0)) implies enc_vec32(x.zero_values@).is_prefix_of(
                b.skip(e_filled_subtrees as int),
            ) by {
                assert(enc_vec32(x.zero_values@) + Seq::<u8>::empty() =~= enc_vec32(x.zero_values@));
                lemma_prefix_split(enc_vec32(x.zero_values@), Seq::<u8>::empty(), b, e_filled_subtrees as int);
            }
        }
        let (zero_values, e_zero_values) = match vec32_field(buf, e_filled_subtrees) {
            Ok(t) => t,
            Err(err) => {
                return Err(err);
            },
        };
        proof {
            assert forall|x: Self| x.serializable() && #[trigger] x.spec_bytes().is_prefix_of(b.skip(p0)) implies zero_values@ == x.zero_values@
                && e_zero_values == e_filled_subtrees as int + enc_vec32(x.zero_values@).len() by {
            }
        }
        let v = MerkleTree { levels, next_index, root, filled_subtrees, zero_values };
        proof {
            assert(b.subrange(e_root as int, e_zero_values as int) =~= b.subrange(e_root as int, e_filled_subtrees as int) + b.subrange(e_filled_subtrees as int, e_zero_values as int));
            assert(b.subrange(e_next_index as int, e_zero_values as int) =~= b.subrange(e_next_index as int, e_root as int) + b.subrange(e_root as int, e_zero_values as int));
            assert(b.subrange(e_levels as int, e_zero_values as int) =~= b.subrange(e_levels as int, e_next_index as int) + b.subrange(e_next_index as int, e_zero_values as int));
            assert(b.subrange(p0, e_zero_values as int) =~= b.subrange(p0, e_levels as int) + b.subrange(e_levels as int, e_zero_values as int));
            assert(v.spec_bytes() == b.subrange(p0, e_zero_values as int));
        }
        Ok((v, e_zero_values))
    }

    /// A value is read back from its encoding, whatever follows it.
    #[verifier::spinoff_prover]
    #[verifier::rlimit(50)]
    pub proof fn lemma_unique(x: Self, y: Self, tx: Seq<u8>, ty: Seq<u8>)
        requires
            x.serializable(),
            y.serializable(),
            x.spec_bytes() + tx == y.spec_bytes() + ty,
        ensures
            x.same(y),
            tx == ty,
    {
        assert(enc_u8(x.levels) + ((enc_u64(x.next_index) + (x.root@ + (enc_vec32(x.filled_subtrees@) + enc_vec32(x.zero_values@)))) + tx) =~= x.spec_bytes() + tx);
        assert(enc_u8(y.levels) + ((enc_u64(y.next_index) + (y.root@ + (enc_vec32(y.filled_subtrees@) + enc_vec32(y.zero_values@)))) + ty) =~= y.spec_bytes() + ty);
        lemma_u8_unique(x.levels, y.levels, (enc_u64(x.next_index) + (x.root@ + (enc_vec32(x.filled_subtrees@) + enc_vec32(x.zero_values@)))) + tx, (enc_u64(y.next_index) + (y.root@ + (enc_vec32(y.filled_subtrees@) + enc_vec32(y.zero_values@)))) + ty);
        assert(enc_u64(x.next_index) + ((x.root@ + (enc_vec32(x.filled_subtrees@) + enc_vec32(x.zero_values@))) + tx) =~= (enc_u64(x.next_index) + (x.root@ + (enc_vec32(x.filled_subtrees@) + enc_vec32(x.zero_values@)))) + tx);
        assert(enc_u64(y.next_index) + ((y.root@ + (enc_vec32(y.filled_subtrees@) + enc_vec32(y.zero_values@))) + ty) =~= (enc_u64(y.next_index) + (y.root@ + (enc_vec32(y.filled_subtrees@) + enc_vec32(y.zero_values@)))) + ty);
        lemma_u64_unique(x.next_index, y.next_index, (x.root@ + (enc_vec32(x.filled_subtrees@) + enc_vec32(x.zero_values@))) + tx, (y.root@ + (enc_vec32(y.filled_subtrees@) + enc_vec32(y.zero_values@))) + ty);
        assert(x.root@ + ((enc_vec32(x.filled_subtrees@) + enc_vec32(x.zero_values@)) + tx) =~= (x.root@ + (enc_vec32(x.filled_subtrees@) + enc_vec32(x.zero_values@))) + tx);
        assert(y.root@ + ((enc_vec32(y.filled_subtrees@) + enc_vec32(y.zero_values@)) + ty) =~= (y.root@ + (enc_vec32(y.filled_subtrees@) + enc_vec32(y.zero_values@))) + ty);
        lemma_key_unique(x.root, y.root, (enc_vec32(x.filled_subtrees@) + enc_vec32(x.zero_values@)) + tx, (enc_vec32(y.filled_subtrees@) + enc_vec32(y.zero_values@)) + ty);
        assert(enc_vec32(x.filled_subtrees@) + ((enc_vec32(x.zero_values@)) + tx) =~= (enc_vec32(x.filled_subtrees@) + enc_vec32(x.zero_values@)) + tx);
        assert(enc_vec32(y.filled_subtrees@) + ((enc_vec32(y.zero_values@)) + ty) =~= (enc_vec32(y.filled_subtrees@) + enc_vec32(y.zero_values@)) + ty);
        lemma_vec32_prefix_unique(x.filled_subtrees@, y.filled_subtrees@, (enc_vec32(x.zero_values@)) + tx, (enc_vec32(y.zero_values@)) + ty);
        assert(enc_vec32(x.zero_values@) + (tx) =~= (enc_vec32(x.zero_values@)) + tx);
        assert(enc_vec32(y.zero_values@) + (ty) =~= (enc_vec32(y.zero_values@)) + ty);
        lemma_vec32_prefix_unique(x.zero_values@, y.zero_values@, tx, ty);
    }

    /// Appends the encoding to `w`; a length prefix that does not fit in a
    /// `u32` is refused.
    pub fn write(&self, w: &mut Vec<u8>) -> (r: Result<(), CodecError>)
        ensures
            self.serializable() ==> r is Ok && final(w)@ == old(w)@ + self.spec_bytes(),
            !self.serializable() ==> r == Err::<(), CodecError>(CodecError::InvalidData),
    {
        write_u8(w, self.levels);
        write_u64(w, self.next_index);
        write_array32(w, &self.root);
        write_vec32(w, &self.filled_subtrees)?;
        write_vec32(w, &self.zero_values)?;
        assert(final(w)@ =~= old(w)@ + self.spec_bytes());
        Ok(())
    }
}

} // verus!
