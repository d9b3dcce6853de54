//! Little-endian, length-prefixed wire format of instruction and account
//! data: integers in little-endian order, fixed arrays as their bytes,
//! strings and vectors as a `u32` count followed by their contents, and
//! instruction data led by an eight-byte discriminator.
use vstd::prelude::*;
use vstd::bytes::{
    spec_u16_from_le_bytes, spec_u16_to_le_bytes, spec_u32_from_le_bytes, spec_u32_to_le_bytes,
    spec_u64_from_le_bytes, spec_u64_to_le_bytes,
};
use vstd::utf8::{decode_utf8, encode_utf8, valid_utf8};
use vstd::string::StringSliceAdditionalSpecFns;

verus! {

/// Why a byte string could not be read or written.
#[derive(Clone, Copy, Debug, PartialEq, Eq)]
pub enum CodecError {
    /// The input ended before the value did.
    UnexpectedEnd,
    /// The leading discriminator names no known instruction or account.
    UnknownDiscriminator,
    /// The bytes do not form a value (a string that is not UTF-8, an
    /// unknown enum tag), or a length does not fit its `u32` prefix.
    InvalidData,
}

pub open spec fn enc_u16(x: u16) -> Seq<u8> {
    spec_u16_to_le_bytes(x)
}

pub open spec fn enc_u32(x: u32) -> Seq<u8> {
    spec_u32_to_le_bytes(x)
}

pub open spec fn enc_u64(x: u64) -> Seq<u8> {
    spec_u64_to_le_bytes(x)
}

pub open spec fn enc_i64(x: i64) -> Seq<u8> {
    spec_u64_to_le_bytes(x as u64)
}

/// A string: its UTF-8 byte length as `u32`, then its UTF-8 bytes.
pub open spec fn enc_string(s: Seq<char>) -> Seq<u8> {
    enc_u32(encode_utf8(s).len() as u32) + encode_utf8(s)
}

/// Concatenation of a sequence of byte strings.
pub open spec fn flatten(parts: Seq<Seq<u8>>) -> Seq<u8>
    decreases parts.len(),
{
    if parts.len() == 0 {
        Seq::empty()
    } else {
        flatten(parts.drop_last()) + parts.last()
    }
}

/// The bytes of each array in turn.
pub open spec fn arrays_bytes(s: Seq<[u8; 32]>) -> Seq<u8> {
    flatten(s.map_values(|a: [u8; 32]| a@))
}

/// A vector of 32-byte arrays: the count as `u32`, then each array.
pub open spec fn enc_vec32(v: Seq<[u8; 32]>) -> Seq<u8> {
    enc_u32(v.len() as u32) + arrays_bytes(v)
}

/// The concatenated arrays sit side by side, 32 bytes apart.
#[verifier::spinoff_prover]
#[verifier::rlimit(40)]
pub proof fn lemma_flatten32(s: Seq<[u8; 32]>)
    ensures
        arrays_bytes(s).len() == 32 * s.len(),
        forall|i: int|
            0 <= i < s.len() ==> #[trigger] arrays_bytes(s).subrange(
                32 * i,
                32 * i + 32,
            ) == s[i]@,
    decreases s.len(),
{
    let f = arrays_bytes(s);
    if s.len() > 0 {
        let p = s.drop_last();
        lemma_flatten32(p);
        assert(s.map_values(|a: [u8; 32]| a@).drop_last() =~= p.map_values(|a: [u8; 32]| a@));
        let fp = arrays_bytes(p);
        assert(f == fp + s.last()@);
        assert forall|i: int| 0 <= i < s.len() implies #[trigger] f.subrange(32 * i, 32 * i + 32) == s[i]@ by {
            if i < s.len() - 1 {
                assert(f.subrange(32 * i, 32 * i + 32) =~= fp.subrange(32 * i, 32 * i + 32));
                assert(p[i] == s[i]);
            } else {
                assert(f.subrange(32 * i, 32 * i + 32) =~= s.last()@);
            }
        }
    }
}

/// Equal concatenations of equally many arrays hold the same arrays.
pub proof fn lemma_vec32_unique(x: Seq<[u8; 32]>, y: Seq<[u8; 32]>)
    requires
        x.len() == y.len(),
        arrays_bytes(x) == arrays_bytes(y),
    ensures
        x == y,
{
    broadcast use vstd::array::axiom_array_ext_equal;
    lemma_flatten32(x);
    lemma_flatten32(y);
    let f = arrays_bytes(x);
    assert forall|i: int| 0 <= i < x.len() implies x[i] == y[i] by {
        assert(f.subrange(32 * i, 32 * i + 32) == x[i]@);
        assert(f.subrange(32 * i, 32 * i + 32) == y[i]@);
        assert(x[i] =~= y[i]);
    }
    assert(x =~= y);
}

pub proof fn lemma_le_bytes()
    ensures
        forall|x: u16| #![trigger enc_u16(x)] enc_u16(x).len() == 2 && spec_u16_from_le_bytes(enc_u16(x)) == x,
        forall|x: u32| #![trigger enc_u32(x)] enc_u32(x).len() == 4 && spec_u32_from_le_bytes(enc_u32(x)) == x,
        forall|x: u64| #![trigger enc_u64(x)] enc_u64(x).len() == 8 && spec_u64_from_le_bytes(enc_u64(x)) == x,
        forall|s: Seq<u8>| s.len() == 2 ==> #[trigger] enc_u16(spec_u16_from_le_bytes(s)) == s,
        forall|s: Seq<u8>| s.len() == 4 ==> #[trigger] enc_u32(spec_u32_from_le_bytes(s)) == s,
        forall|s: Seq<u8>| s.len() == 8 ==> #[trigger] enc_u64(spec_u64_from_le_bytes(s)) == s,
{
    vstd::bytes::lemma_auto_spec_u16_to_from_le_bytes();
    vstd::bytes::lemma_auto_spec_u32_to_from_le_bytes();
    vstd::bytes::lemma_auto_spec_u64_to_from_le_bytes();
    assert forall|x: u16| #![trigger enc_u16(x)] enc_u16(x).len() == 2 && spec_u16_from_le_bytes(enc_u16(x)) == x by {
        assert(spec_u16_to_le_bytes(x).len() == 2);
    }
    assert forall|x: u32| #![trigger enc_u32(x)] enc_u32(x).len() == 4 && spec_u32_from_le_bytes(enc_u32(x)) == x by {
        assert(spec_u32_to_le_bytes(x).len() == 4);
    }
    assert forall|x: u64| #![trigger enc_u64(x)] enc_u64(x).len() == 8 && spec_u64_from_le_bytes(enc_u64(x)) == x by {
        assert(spec_u64_to_le_bytes(x).len() == 8);
    }
    assert forall|s: Seq<u8>| s.len() == 2 implies #[trigger] enc_u16(spec_u16_from_le_bytes(s)) == s by {
        assert(spec_u16_to_le_bytes(spec_u16_from_le_bytes(s)) == s);
    }
    assert forall|s: Seq<u8>| s.len() == 4 implies #[trigger] enc_u32(spec_u32_from_le_bytes(s)) == s by {
        assert(spec_u32_to_le_bytes(spec_u32_from_le_bytes(s)) == s);
    }
    assert forall|s: Seq<u8>| s.len() == 8 implies #[trigger] enc_u64(spec_u64_from_le_bytes(s)) == s by {
        assert(spec_u64_to_le_bytes(spec_u64_from_le_bytes(s)) == s);
    }
}

/// Integers are told apart by their encodings.
pub proof fn lemma_enc_injective()
    ensures
        forall|x: u16, y: u16| #[trigger] enc_u16(x) == #[trigger] enc_u16(y) ==> x == y,
        forall|x: u32, y: u32| #[trigger] enc_u32(x) == #[trigger] enc_u32(y) ==> x == y,
        forall|x: u64, y: u64| #[trigger] enc_u64(x) == #[trigger] enc_u64(y) ==> x == y,
{
    lemma_le_bytes();
    assert forall|x: u16, y: u16| #[trigger] enc_u16(x) == #[trigger] enc_u16(y) implies x == y by {
        assert(spec_u16_from_le_bytes(enc_u16(x)) == x);
        assert(spec_u16_from_le_bytes(enc_u16(y)) == y);
    }
    assert forall|x: u32, y: u32| #[trigger] enc_u32(x) == #[trigger] enc_u32(y) implies x == y by {
        assert(spec_u32_from_le_bytes(enc_u32(x)) == x);
        assert(spec_u32_from_le_bytes(enc_u32(y)) == y);
    }
    assert forall|x: u64, y: u64| #[trigger] enc_u64(x) == #[trigger] enc_u64(y) implies x == y by {
        assert(spec_u64_from_le_bytes(enc_u64(x)) == x);
        assert(spec_u64_from_le_bytes(enc_u64(y)) == y);
    }
}

/// Appends `b` to `w`.
pub fn write_bytes(w: &mut Vec<u8>, b: &[u8])
    ensures
        final(w)@ == old(w)@ + b@,
{
    let mut i: usize = 0;
    while i < b.len()
        invariant
            i <= b.len(),
            w@ == old(w)@ + b@.take(i as int),
        decreases b.len() - i,
    {
        w.push(b[i]);
        i = i + 1;
        assert(w@ =~= old(w)@ + b@.take(i as int));
    }
    assert(b@.take(i as int) =~= b@);
}

pub fn write_u8(w: &mut Vec<u8>, x: u8)
    ensures
        final(w)@ == old(w)@.push(x),
{
    w.push(x);
}

pub fn write_u16(w: &mut Vec<u8>, x: u16)
    ensures
        final(w)@ == old(w)@ + enc_u16(x),
{
    let b = vstd::bytes::u16_to_le_bytes(x);
    write_bytes(w, b.as_slice());
}

pub fn write_u32(w: &mut Vec<u8>, x: u32)
    ensures
        final(w)@ == old(w)@ + enc_u32(x),
{
    let b = vstd::bytes::u32_to_le_bytes(x);
    write_bytes(w, b.as_slice());
}

pub fn write_u64(w: &mut Vec<u8>, x: u64)
    ensures
        final(w)@ == old(w)@ + enc_u64(x),
{
    let b = vstd::bytes::u64_to_le_bytes(x);
    write_bytes(w, b.as_slice());
}

pub fn write_array8(w: &mut Vec<u8>, a: &[u8; 8])
    ensures
        final(w)@ == old(w)@ + a@,
{
    write_bytes(w, a.as_slice());
}

pub fn write_array32(w: &mut Vec<u8>, a: &[u8; 32])
    ensures
        final(w)@ == old(w)@ + a@,
{
    write_bytes(w, a.as_slice());
}

/// Writes a string; a string of 2^32 bytes or more is refused and nothing
/// is written.
pub fn write_string(w: &mut Vec<u8>, s: &String) -> (r: Result<(), CodecError>)
    ensures
        encode_utf8(s@).len() <= u32::MAX ==> r is Ok && final(w)@ == old(w)@ + enc_string(s@),
        encode_utf8(s@).len() > u32::MAX ==> r == Err::<(), CodecError>(CodecError::InvalidData)
            && final(w)@ == old(w)@,
{
    let bytes = s.as_str().as_bytes();
    if bytes.len() > u32::MAX as usize {
        return Err(CodecError::InvalidData);
    }
    write_u32(w, bytes.len() as u32);
    write_bytes(w, bytes);
    Ok(())
}

/// Writes a vector of 32-byte arrays; one of 2^32 entries or more is
/// refused and nothing is written.
pub fn write_vec32(w: &mut Vec<u8>, v: &Vec<[u8; 32]>) -> (r: Result<(), CodecError>)
    ensures
        v@.len() <= u32::MAX ==> r is Ok && final(w)@ == old(w)@ + enc_vec32(v@),
        v@.len() > u32::MAX ==> r == Err::<(), CodecError>(CodecError::InvalidData)
            && final(w)@ == old(w)@,
{
    if v.len() > u32::MAX as usize {
        return Err(CodecError::InvalidData);
    }
    write_u32(w, v.len() as u32);
    let ghost start = w@;
    let mut i: usize = 0;
    while i < v.len()
        invariant
            i <= v.len(),
            w@ == start + arrays_bytes(v@.take(i as int)),
        decreases v.len() - i,
    {
        write_array32(w, &v[i]);
        proof {
            let ghost m = v@.take(i + 1).map_values(|a: [u8; 32]| a@);
            assert(m.drop_last() =~= v@.take(i as int).map_values(|a: [u8; 32]| a@));
        }
        i = i + 1;
    }
    assert(v@.take(i as int) =~= v@);
    Ok(())
}

pub fn read_u8(buf: &[u8], pos: usize) -> (r: Result<u8, CodecError>)
    ensures
        pos < buf@.len() ==> r == Ok::<u8, CodecError>(buf@[pos as int]),
        pos >= buf@.len() ==> r == Err::<u8, CodecError>(CodecError::UnexpectedEnd),
{
    if pos < buf.len() {
        Ok(buf[pos])
    } else {
        Err(CodecError::UnexpectedEnd)
    }
}

pub fn read_u16(buf: &[u8], pos: usize) -> (r: Result<u16, CodecError>)
    ensures
        pos + 2 <= buf@.len() ==> (r matches Ok(x) && enc_u16(x) == buf@.subrange(pos as int, pos + 2)),
        pos + 2 > buf@.len() ==> r == Err::<u16, CodecError>(CodecError::UnexpectedEnd),
{
    if pos <= buf.len() && 2 <= buf.len() - pos {
        let x = vstd::bytes::u16_from_le_bytes(&buf[pos..pos + 2]);
        proof {
            lemma_le_bytes();
        }
        Ok(x)
    } else {
        Err(CodecError::UnexpectedEnd)
    }
}

pub fn read_u32(buf: &[u8], pos: usize) -> (r: Result<u32, CodecError>)
    ensures
        pos + 4 <= buf@.len() ==> (r matches Ok(x) && enc_u32(x) == buf@.subrange(pos as int, pos + 4)),
        pos + 4 > buf@.len() ==> r == Err::<u32, CodecError>(CodecError::UnexpectedEnd),
{
    if pos <= buf.len() && 4 <= buf.len() - pos {
        let x = vstd::bytes::u32_from_le_bytes(&buf[pos..pos + 4]);
        proof {
            lemma_le_bytes();
        }
        Ok(x)
    } else {
        Err(CodecError::UnexpectedEnd)
    }
}

pub fn read_u64(buf: &[u8], pos: usize) -> (r: Result<u64, CodecError>)
    ensures
        pos + 8 <= buf@.len() ==> (r matches Ok(x) && enc_u64(x) == buf@.subrange(pos as int, pos + 8)),
        pos + 8 > buf@.len() ==> r == Err::<u64, CodecError>(CodecError::UnexpectedEnd),
{
    if pos <= buf.len() && 8 <= buf.len() - pos {
        let x = vstd::bytes::u64_from_le_bytes(&buf[pos..pos + 8]);
        proof {
            lemma_le_bytes();
        }
        Ok(x)
    } else {
        Err(CodecError::UnexpectedEnd)
    }
}

pub fn read_array32(buf: &[u8], pos: usize) -> (r: Result<[u8; 32], CodecError>)
    ensures
        pos + 32 <= buf@.len() ==> (r matches Ok(a) && a@ == buf@.subrange(pos as int, pos + 32)),
        pos + 32 > buf@.len() ==> r == Err::<[u8; 32], CodecError>(CodecError::UnexpectedEnd),
{
    if pos <= buf.len() && 32 <= buf.len() - pos {
        let mut a = [0u8; 32];
        let mut i: usize = 0;
        while i < 32
            invariant
                pos + 32 <= buf@.len(),
                buf@.len() == buf.len(),
                i <= 32,
                forall|j: int| 0 <= j < i ==> a[j] == buf@[pos + j],
            decreases 32 - i,
        {
            a[i] = buf[pos + i];
            i = i + 1;
        }
        assert(a@ =~= buf@.subrange(pos as int, pos + 32));
        Ok(a)
    } else {
        Err(CodecError::UnexpectedEnd)
    }
}

/// Checks that `buf` opens with the discriminator `d`.
pub fn read_discriminator(buf: &[u8], d: &[u8; 8]) -> (r: Result<(), CodecError>)
    ensures
        buf@.len() < 8 ==> r == Err::<(), CodecError>(CodecError::UnexpectedEnd),
        buf@.len() >= 8 && buf@.take(8) != d@ ==> r == Err::<(), CodecError>(CodecError::UnknownDiscriminator),
        buf@.len() >= 8 && buf@.take(8) == d@ ==> r is Ok,
{
    if buf.len() < 8 {
        return Err(CodecError::UnexpectedEnd);
    }
    if crate::bytes::bytes_eq(&buf[0..8], d.as_slice()) {
        Ok(())
    } else {
        Err(CodecError::UnknownDiscriminator)
    }
}

/// `std::string::String::from_utf8`: the string whose UTF-8 encoding is
/// `bytes`, or `None` where `bytes` is not valid UTF-8.
#[verifier::external_body]
fn string_from_utf8(bytes: Vec<u8>) -> (r: Option<String>)
    ensures
        r is Some <==> valid_utf8(bytes@),
        r matches Some(s) ==> s@ == decode_utf8(bytes@),
{
    String::from_utf8(bytes).ok()
}

/// The `u32` length prefix found at `pos`.
pub open spec fn prefix_at(buf: Seq<u8>, pos: int) -> int {
    spec_u32_from_le_bytes(buf.subrange(pos, pos + 4)) as int
}

/// Reads a length-prefixed UTF-8 string at `pos`; on success also returns
/// the position just past it.
pub fn read_string(buf: &[u8], pos: usize) -> (r: Result<(String, usize), CodecError>)
    ensures
        pos + 4 > buf@.len() ==> r == Err::<(String, usize), CodecError>(CodecError::UnexpectedEnd),
        pos + 4 <= buf@.len() ==> {
            let end = pos + 4 + prefix_at(buf@, pos as int);
            let body = buf@.subrange(pos + 4, end);
            &&& end > buf@.len() ==> r == Err::<(String, usize), CodecError>(CodecError::UnexpectedEnd)
            &&& end <= buf@.len() && !valid_utf8(body) ==> r == Err::<(String, usize), CodecError>(CodecError::InvalidData)
            &&& end <= buf@.len() && valid_utf8(body) ==> (r matches Ok((s, e)) && e == end
                && s@ == decode_utf8(body) && enc_string(s@) == buf@.subrange(pos as int, end))
        },
{
    if pos > buf.len() || buf.len() - pos < 4 {
        return Err(CodecError::UnexpectedEnd);
    }
    let len = read_u32(buf, pos)?;
    proof {
        lemma_le_bytes();
        assert(spec_u32_from_le_bytes(enc_u32(len)) == len);
    }
    let start = pos + 4;
    if (len as usize) > buf.len() - start {
        return Err(CodecError::UnexpectedEnd);
    }
    let end = start + len as usize;
    let body = crate::bytes::to_vec(&buf[start..end]);
    match string_from_utf8(body) {
        Some(s) => {
            proof {
                vstd::utf8::decode_utf8_encode_utf8(buf@.subrange(start as int, end as int));
                assert(buf@.subrange(pos as int, end as int) =~= buf@.subrange(pos as int, start as int)
                    + buf@.subrange(start as int, end as int));
            }
            Ok((s, end))
        },
        None => Err(CodecError::InvalidData),
    }
}

/// Reads a length-prefixed vector of 32-byte arrays at `pos`; on success
/// also returns the position just past it.
pub fn read_vec32(buf: &[u8], pos: usize) -> (r: Result<(Vec<[u8; 32]>, usize), CodecError>)
    ensures
        pos + 4 > buf@.len() ==> r == Err::<(Vec<[u8; 32]>, usize), CodecError>(CodecError::UnexpectedEnd),
        pos + 4 <= buf@.len() ==> {
            let end = pos + 4 + 32 * prefix_at(buf@, pos as int);
            &&& end > buf@.len() ==> r == Err::<(Vec<[u8; 32]>, usize), CodecError>(CodecError::UnexpectedEnd)
            &&& end <= buf@.len() ==> (r matches Ok((v, e)) && e == end
                && v@.len() == prefix_at(buf@, pos as int)
                && enc_vec32(v@) == buf@.subrange(pos as int, end))
        },
{
    if pos > buf.len() || buf.len() - pos < 4 {
        return Err(CodecError::UnexpectedEnd);
    }
    let count = read_u32(buf, pos)?;
    proof {
        lemma_le_bytes();
        assert(spec_u32_from_le_bytes(enc_u32(count)) == count);
    }
    let start = pos + 4;
    let mut v: Vec<[u8; 32]> = Vec::new();
    let mut cur = start;
    let mut i: u32 = 0;
    while i < count
        invariant
            start == pos + 4,
            start <= buf@.len(),
            buf@.len() == buf.len(),
            enc_u32(count) == buf@.subrange(pos as int, start as int),
            count == prefix_at(buf@, pos as int),
            i <= count,
            v@.len() == i,
            cur == start + 32 * i,
            cur <= buf@.len(),
            arrays_bytes(v@) == buf@.subrange(start as int, cur as int),
        decreases count - i,
    {
        let a = match read_array32(buf, cur) {
            Ok(a) => a,
            Err(e) => {
                return Err(e);
            },
        };
        let ghost prev = v@;
        v.push(a);
        proof {
            assert(v@.map_values(|a: [u8; 32]| a@).drop_last() =~= prev.map_values(|a: [u8; 32]| a@));
            assert(buf@.subrange(start as int, cur + 32) =~= buf@.subrange(start as int, cur as int)
                + buf@.subrange(cur as int, cur + 32));
        }
        cur = cur + 32;
        i = i + 1;
    }
    proof {
        assert(buf@.subrange(pos as int, cur as int) =~= buf@.subrange(pos as int, start as int)
            + buf@.subrange(start as int, cur as int));
    }
    Ok((v, cur))
}

/// Arrays of bytes are equal when their bytes are.
pub proof fn lemma_array_ext<const N: usize>(a: [u8; N], b: [u8; N])
    requires
        a@ == b@,
    ensures
        a == b,
{
    assert(a =~= b) by {
        assert forall|i: int| 0 <= i < N implies a[i] == b[i] by {
            assert(a@[i] == b@[i]);
        }
    }
}

/// The `N` bytes of `buf` from `pos`.
pub fn copy_array<const N: usize>(buf: &[u8], pos: usize) -> (r: [u8; N])
    requires
        pos + N <= buf@.len(),
    ensures
        r@ == buf@.subrange(pos as int, pos + N),
{
    let mut a = [0u8; N];
    let mut i: usize = 0;
    while i < N
        invariant
            i <= N,
            pos + N <= buf@.len(),
            buf@.len() == buf.len(),
            forall|j: int| 0 <= j < i ==> a@[j] == buf@[pos + j],
        decreases N - i,
    {
        a[i] = buf[pos + i];
        i = i + 1;
    }
    assert(a@ =~= buf@.subrange(pos as int, pos + N));
    a
}

/// The `u16` whose little-endian bytes are `a`.
pub fn u16_from_array(a: [u8; 2]) -> (x: u16)
    ensures
        enc_u16(x) == a@,
{
    let x = vstd::bytes::u16_from_le_bytes(a.as_slice());
    proof {
        lemma_le_bytes();
    }
    x
}

/// The little-endian bytes of `x`.
pub fn u16_to_array(x: u16) -> (a: [u8; 2])
    ensures
        a@ == enc_u16(x),
{
    let v = vstd::bytes::u16_to_le_bytes(x);
    let a = copy_array::<2>(v.as_slice(), 0);
    assert(a@ =~= enc_u16(x));
    a
}

/// The `u32` whose little-endian bytes are `a`.
pub fn u32_from_array(a: [u8; 4]) -> (x: u32)
    ensures
        enc_u32(x) == a@,
{
    let x = vstd::bytes::u32_from_le_bytes(a.as_slice());
    proof {
        lemma_le_bytes();
    }
    x
}

/// The little-endian bytes of `x`.
pub fn u32_to_array(x: u32) -> (a: [u8; 4])
    ensures
        a@ == enc_u32(x),
{
    let v = vstd::bytes::u32_to_le_bytes(x);
    let a = copy_array::<4>(v.as_slice(), 0);
    assert(a@ =~= enc_u32(x));
    a
}

/// The `u64` whose little-endian bytes are `a`.
pub fn u64_from_array(a: [u8; 8]) -> (x: u64)
    ensures
        enc_u64(x) == a@,
{
    let x = vstd::bytes::u64_from_le_bytes(a.as_slice());
    proof {
        lemma_le_bytes();
    }
    x
}

/// The little-endian bytes of `x`.
pub fn u64_to_array(x: u64) -> (a: [u8; 8])
    ensures
        a@ == enc_u64(x),
{
    let v = vstd::bytes::u64_to_le_bytes(x);
    proof {
        lemma_le_bytes();
    }
    let a = copy_array::<8>(v.as_slice(), 0);
    assert(a@ =~= enc_u64(x));
    a
}

/// A byte vector: its length as `u32`, then its bytes.
pub open spec fn enc_bytes(b: Seq<u8>) -> Seq<u8> {
    enc_u32(b.len() as u32) + b
}

/// The little-endian bytes of each `u16` in turn.
pub open spec fn u16s_bytes(s: Seq<u16>) -> Seq<u8> {
    flatten(s.map_values(|x: u16| enc_u16(x)))
}

/// A vector of `u16`: the count as `u32`, then each value.
pub open spec fn enc_vec_u16(v: Seq<u16>) -> Seq<u8> {
    enc_u32(v.len() as u32) + u16s_bytes(v)
}

/// Two equal sequences that start with parts of one length start with the
/// same part and go on alike.
pub proof fn lemma_split_prefix(a: Seq<u8>, b: Seq<u8>, ta: Seq<u8>, tb: Seq<u8>)
    requires
        a + ta == b + tb,
        a.len() == b.len(),
    ensures
        a == b,
        ta == tb,
{
    assert(a =~= (a + ta).subrange(0, a.len() as int));
    assert(b =~= (b + tb).subrange(0, b.len() as int));
    assert(ta =~= (a + ta).subrange(a.len() as int, (a + ta).len() as int));
    assert(tb =~= (b + tb).subrange(b.len() as int, (b + tb).len() as int));
}

/// A length prefix and what it counts are read back alike.
pub proof fn lemma_prefix_len(la: nat, lb: nat, pa: Seq<u8>, pb: Seq<u8>)
    requires
        la <= u32::MAX,
        lb <= u32::MAX,
        enc_u32(la as u32) + pa == enc_u32(lb as u32) + pb,
    ensures
        la == lb,
        pa == pb,
{
    lemma_le_bytes();
    lemma_enc_injective();
    lemma_split_prefix(enc_u32(la as u32), enc_u32(lb as u32), pa, pb);
}

/// A byte vector is read back from its encoding, whatever follows.
pub proof fn lemma_bytes_vec_unique(a: Seq<u8>, b: Seq<u8>, ta: Seq<u8>, tb: Seq<u8>)
    requires
        a.len() <= u32::MAX,
        b.len() <= u32::MAX,
        enc_bytes(a) + ta == enc_bytes(b) + tb,
    ensures
        a == b,
        ta == tb,
{
    assert(enc_bytes(a) + ta =~= enc_u32(a.len() as u32) + (a + ta));
    assert(enc_bytes(b) + tb =~= enc_u32(b.len() as u32) + (b + tb));
    lemma_prefix_len(a.len(), b.len(), a + ta, b + tb);
    lemma_split_prefix(a, b, ta, tb);
}

pub proof fn lemma_u16s_len(s: Seq<u16>)
    ensures
        u16s_bytes(s).len() == 2 * s.len(),
    decreases s.len(),
{
    lemma_le_bytes();
    if s.len() > 0 {
        lemma_u16s_len(s.drop_last());
        assert(s.drop_last().map_values(|x: u16| enc_u16(x)) =~= s.map_values(|x: u16| enc_u16(x)).drop_last());
    }
}

proof fn lemma_u16s_unique(x: Seq<u16>, y: Seq<u16>)
    requires
        x.len() == y.len(),
        u16s_bytes(x) == u16s_bytes(y),
    ensures
        x == y,
    decreases x.len(),
{
    lemma_le_bytes();
    lemma_enc_injective();
    if x.len() > 0 {
        let fx = x.map_values(|v: u16| enc_u16(v));
        let fy = y.map_values(|v: u16| enc_u16(v));
        assert(x.drop_last().map_values(|v: u16| enc_u16(v)) =~= fx.drop_last());
        assert(y.drop_last().map_values(|v: u16| enc_u16(v)) =~= fy.drop_last());
        lemma_u16s_len(x.drop_last());
        lemma_u16s_len(y.drop_last());
        lemma_split_prefix(
            u16s_bytes(x.drop_last()),
            u16s_bytes(y.drop_last()),
            enc_u16(x.last()),
            enc_u16(y.last()),
        );
        lemma_u16s_unique(x.drop_last(), y.drop_last());
        assert(x =~= y) by {
            assert forall|i: int| 0 <= i < x.len() implies x[i] == y[i] by {
                if i < x.len() - 1 {
                    assert(x.drop_last()[i] == y.drop_last()[i]);
                }
            }
        }
    }
}

/// A vector of `u16` is read back from its encoding, whatever follows.
pub proof fn lemma_vec_u16_unique(a: Seq<u16>, b: Seq<u16>, ta: Seq<u8>, tb: Seq<u8>)
    requires
        a.len() <= u32::MAX,
        b.len() <= u32::MAX,
        enc_vec_u16(a) + ta == enc_vec_u16(b) + tb,
    ensures
        a == b,
        ta == tb,
{
    assert(enc_vec_u16(a) + ta =~= enc_u32(a.len() as u32) + (u16s_bytes(a) + ta));
    assert(enc_vec_u16(b) + tb =~= enc_u32(b.len() as u32) + (u16s_bytes(b) + tb));
    lemma_prefix_len(a.len(), b.len(), u16s_bytes(a) + ta, u16s_bytes(b) + tb);
    lemma_u16s_len(a);
    lemma_u16s_len(b);
    lemma_split_prefix(u16s_bytes(a), u16s_bytes(b), ta, tb);
    lemma_u16s_unique(a, b);
}

/// A vector of 32-byte arrays is read back from its encoding, whatever
/// follows.
pub proof fn lemma_vec32_prefix_unique(a: Seq<[u8; 32]>, b: Seq<[u8; 32]>, ta: Seq<u8>, tb: Seq<u8>)
    requires
        a.len() <= u32::MAX,
        b.len() <= u32::MAX,
        enc_vec32(a) + ta == enc_vec32(b) + tb,
    ensures
        a == b,
        ta == tb,
{
    assert(enc_vec32(a) + ta =~= enc_u32(a.len() as u32) + (arrays_bytes(a) + ta));
    assert(enc_vec32(b) + tb =~= enc_u32(b.len() as u32) + (arrays_bytes(b) + tb));
    lemma_prefix_len(a.len(), b.len(), arrays_bytes(a) + ta, arrays_bytes(b) + tb);
    lemma_flatten32(a);
    lemma_flatten32(b);
    lemma_split_prefix(arrays_bytes(a), arrays_bytes(b), ta, tb);
    lemma_vec32_unique(a, b);
}

/// Writes a byte vector; one of 2^32 bytes or more is refused and nothing
/// is written.
pub fn write_byte_vec(w: &mut Vec<u8>, v: &Vec<u8>) -> (r: Result<(), CodecError>)
    ensures
        v@.len() <= u32::MAX ==> r is Ok && final(w)@ == old(w)@ + enc_bytes(v@),
        v@.len() > u32::MAX ==> r == Err::<(), CodecError>(CodecError::InvalidData)
            && final(w)@ == old(w)@,
{
    if v.len() > u32::MAX as usize {
        return Err(CodecError::InvalidData);
    }
    write_u32(w, v.len() as u32);
    write_bytes(w, v.as_slice());
    assert(final(w)@ =~= old(w)@ + enc_bytes(v@));
    Ok(())
}

/// Reads a length-prefixed byte vector at `pos`; on success also returns
/// the position just past it.
pub fn read_byte_vec(buf: &[u8], pos: usize) -> (r: Result<(Vec<u8>, usize), CodecError>)
    ensures
        pos + 4 > buf@.len() ==> r == Err::<(Vec<u8>, usize), CodecError>(CodecError::UnexpectedEnd),
        pos + 4 <= buf@.len() ==> {
            let end = pos + 4 + prefix_at(buf@, pos as int);
            &&& end > buf@.len() ==> r == Err::<(Vec<u8>, usize), CodecError>(CodecError::UnexpectedEnd)
            &&& end <= buf@.len() ==> (r matches Ok((v, e)) && e == end
                && v@.len() == prefix_at(buf@, pos as int)
                && enc_bytes(v@) == buf@.subrange(pos as int, end))
        },
{
    if pos > buf.len() || buf.len() - pos < 4 {
        return Err(CodecError::UnexpectedEnd);
    }
    let count = read_u32(buf, pos)?;
    proof {
        lemma_le_bytes();
        assert(spec_u32_from_le_bytes(enc_u32(count)) == count);
    }
    let start = pos + 4;
    if buf.len() - start < count as usize {
        return Err(CodecError::UnexpectedEnd);
    }
    let end = start + count as usize;
    let v = crate::bytes::to_vec(&buf[start..end]);
    proof {
        assert(buf@.subrange(pos as int, end as int) =~= buf@.subrange(pos as int, start as int)
            + buf@.subrange(start as int, end as int));
    }
    Ok((v, end))
}

/// Writes a vector of `u16`; one of 2^32 entries or more is refused and
/// nothing is written.
pub fn write_vec_u16(w: &mut Vec<u8>, v: &Vec<u16>) -> (r: Result<(), CodecError>)
    ensures
        v@.len() <= u32::MAX ==> r is Ok && final(w)@ == old(w)@ + enc_vec_u16(v@),
        v@.len() > u32::MAX ==> r == Err::<(), CodecError>(CodecError::InvalidData)
            && final(w)@ == old(w)@,
{
    if v.len() > u32::MAX as usize {
        return Err(CodecError::InvalidData);
    }
    write_u32(w, v.len() as u32);
    let ghost start = w@;
    let mut i: usize = 0;
    while i < v.len()
        invariant
            i <= v.len(),
            w@ == start + u16s_bytes(v@.take(i as int)),
        decreases v.len() - i,
    {
        write_u16(w, v[i]);
        proof {
            let ghost m = v@.take(i + 1).map_values(|x: u16| enc_u16(x));
            assert(m.drop_last() =~= v@.take(i as int).map_values(|x: u16| enc_u16(x)));
        }
        i = i + 1;
    }
    assert(v@.take(i as int) =~= v@);
    Ok(())
}

/// Reads a length-prefixed vector of `u16` at `pos`; on success also
/// returns the position just past it.
pub fn read_vec_u16(buf: &[u8], pos: usize) -> (r: Result<(Vec<u16>, usize), CodecError>)
    ensures
        pos + 4 > buf@.len() ==> r == Err::<(Vec<u16>, usize), CodecError>(CodecError::UnexpectedEnd),
        pos + 4 <= buf@.len() ==> {
            let end = pos + 4 + 2 * prefix_at(buf@, pos as int);
            &&& end > buf@.len() ==> r == Err::<(Vec<u16>, usize), CodecError>(CodecError::UnexpectedEnd)
            &&& end <= buf@.len() ==> (r matches Ok((v, e)) && e == end
                && v@.len() == prefix_at(buf@, pos as int)
                && enc_vec_u16(v@) == buf@.subrange(pos as int, end))
        },
{
    if pos > buf.len() || buf.len() - pos < 4 {
        return Err(CodecError::UnexpectedEnd);
    }
    let count = read_u32(buf, pos)?;
    proof {
        lemma_le_bytes();
        assert(spec_u32_from_le_bytes(enc_u32(count)) == count);
    }
    let start = pos + 4;
    let mut v: Vec<u16> = Vec::new();
    let mut cur = start;
    let mut i: u32 = 0;
    while i < count
        invariant
            start == pos + 4,
            start <= buf@.len(),
            buf@.len() == buf.len(),
            enc_u32(count) == buf@.subrange(pos as int, start as int),
            count == prefix_at(buf@, pos as int),
            i <= count,
            v@.len() == i,
            cur == start + 2 * i,
            cur <= buf@.len(),
            u16s_bytes(v@) == buf@.subrange(start as int, cur as int),
        decreases count - i,
    {
        let x = match read_u16(buf, cur) {
            Ok(x) => x,
            Err(e) => {
                return Err(e);
            },
        };
        let ghost prev = v@;
        v.push(x);
        proof {
            assert(v@.map_values(|a: u16| enc_u16(a)).drop_last() =~= prev.map_values(|a: u16| enc_u16(a)));
            assert(buf@.subrange(start as int, cur + 2) =~= buf@.subrange(start as int, cur as int)
                + buf@.subrange(cur as int, cur + 2));
        }
        cur = cur + 2;
        i = i + 1;
    }
    proof {
        assert(buf@.subrange(pos as int, cur as int) =~= buf@.subrange(pos as int, start as int)
            + buf@.subrange(start as int, cur as int));
    }
    Ok((v, cur))
}

/// Writes `x` as its eight little-endian two's-complement bytes.
pub fn write_i64(w: &mut Vec<u8>, x: i64)
    ensures
        final(w)@ == old(w)@ + enc_i64(x),
{
    write_u64(w, x as u64);
}

/// The `i64` whose little-endian two's-complement bytes are `a`.
pub fn i64_from_array(a: [u8; 8]) -> (x: i64)
    ensures
        enc_i64(x) == a@,
{
    let u = u64_from_array(a);
    let x = u as i64;
    assert(x as u64 == u) by (bit_vector)
        requires
            x == u as i64,
    ;
    x
}

/// Two `i64` with the same bytes are equal.
pub proof fn lemma_i64_injective(x: i64, y: i64)
    requires
        enc_i64(x) == enc_i64(y),
    ensures
        x == y,
{
    lemma_enc_injective();
    assert(enc_u64(x as u64) == enc_i64(x));
    assert(enc_u64(y as u64) == enc_i64(y));
    assert(x as u64 == y as u64);
    assert(x == y) by (bit_vector)
        requires
            x as u64 == y as u64,
    ;
}

} // verus!

verus! {

/// Appends each array of `arrays` in turn.
pub fn write_arrays32(w: &mut Vec<u8>, arrays: &[[u8; 32]])
    ensures
        final(w)@ == old(w)@ + arrays_bytes(arrays@),
{
    let ghost start = w@;
    let mut i: usize = 0;
    while i < arrays.len()
        invariant
            i <= arrays@.len(),
            w@ == start + arrays_bytes(arrays@.take(i as int)),
        decreases arrays.len() - i,
    {
        write_array32(w, &arrays[i]);
        proof {
            let m = arrays@.take(i + 1).map_values(|a: [u8; 32]| a@);
            assert(m.drop_last() =~= arrays@.take(i as int).map_values(|a: [u8; 32]| a@));
        }
        i = i + 1;
    }
    assert(arrays@.take(i as int) =~= arrays@);
}

/// Reads `N` arrays of 32 bytes laid side by side at `pos`.
pub fn read_arrays32<const N: usize>(data: &[u8], pos: usize) -> (r: [[u8; 32]; N])
    requires
        pos + 32 * N <= data@.len(),
    ensures
        arrays_bytes(r@) == data@.subrange(pos as int, pos + 32 * N),
{
    let mut arr: [[u8; 32]; N] = [[0u8; 32]; N];
    let mut i: usize = 0;
    while i < N
        invariant
            i <= N,
            pos + 32 * N <= data@.len(),
            data@.len() == data.len(),
            arrays_bytes(arr@.take(i as int)) == data@.subrange(pos as int, pos + 32 * i),
        decreases N - i,
    {
        let v = copy_array::<32>(data, pos + 32 * i);
        let ghost before = arr@;
        arr[i] = v;
        proof {
            assert(arr@.take(i as int) =~= before.take(i as int));
            let m = arr@.take(i + 1).map_values(|a: [u8; 32]| a@);
            assert(m.drop_last() =~= arr@.take(i as int).map_values(|a: [u8; 32]| a@));
            assert(data@.subrange(pos as int, pos + 32 * (i + 1)) =~= data@.subrange(pos as int, pos + 32 * i)
                + data@.subrange(pos + 32 * i, pos + 32 * i + 32));
        }
        i = i + 1;
    }
    assert(arr@.take(N as int) =~= arr@);
    arr
}

} // verus!
