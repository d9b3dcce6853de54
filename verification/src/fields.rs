//! Readers for single borsh fields that also report where the field ends.
//! Each succeeds exactly where the bytes at its position open the encoding
//! of some value, and then gives back that value.
use vstd::prelude::*;
use vstd::utf8::{encode_utf8, valid_utf8, decode_utf8};

use crate::codec::{
    enc_bytes, lemma_bytes_vec_unique, lemma_i64_injective, lemma_split_prefix,
    enc_i64, enc_string, enc_u32, enc_u64, enc_vec32, i64_from_array, lemma_array_ext, lemma_enc_injective,
    lemma_le_bytes, lemma_vec32_prefix_unique, copy_array, prefix_at, read_string, read_vec32, u64_from_array,
    CodecError,
};

verus! {

/// A byte as borsh writes it.
pub open spec fn enc_u8(x: u8) -> Seq<u8> {
    seq![x]
}

/// A `bool` as borsh writes it: one byte, 0 or 1.
pub open spec fn enc_bool(b: bool) -> Seq<u8> {
    seq![if b { 1u8 } else { 0u8 }]
}

/// An optional `i64` as borsh writes it: 0, or 1 and the value.
pub open spec fn enc_opt_i64(o: Option<i64>) -> Seq<u8> {
    match o {
        None => seq![0u8],
        Some(v) => seq![1u8] + enc_i64(v),
    }
}

/// Where `a` opens what stands at `p`, its bytes are those at `p` and what
/// follows `a` opens what stands past it.
pub proof fn lemma_prefix_split(a: Seq<u8>, b: Seq<u8>, buf: Seq<u8>, p: int)
    requires
        0 <= p <= buf.len(),
        (a + b).is_prefix_of(buf.skip(p)),
    ensures
        a.is_prefix_of(buf.skip(p)),
        p + a.len() <= buf.len(),
        a == buf.subrange(p, p + a.len()),
        b.is_prefix_of(buf.skip(p + a.len())),
{
    assert(a =~= (a + b).take(a.len() as int));
    assert(a =~= buf.subrange(p, p + a.len()));
    assert forall|i: int| 0 <= i < b.len() implies b[i] == buf.skip(p + a.len())[i] by {
        assert(b[i] == (a + b)[a.len() + i]);
    }
}

pub fn u8_field(buf: &[u8], pos: usize) -> (r: Result<(u8, usize), CodecError>)
    requires
        pos <= buf@.len(),
    ensures
        r matches Ok((v, e)) ==> e == pos + 1 && e <= buf@.len() && enc_u8(v) == buf@.subrange(pos as int, e as int),
        forall|x: u8| #[trigger] enc_u8(x).is_prefix_of(buf@.skip(pos as int)) ==> r == Ok::<(u8, usize), CodecError>(
            (x, (pos + 1) as usize),
        ),
        r is Err ==> r == Err::<(u8, usize), CodecError>(CodecError::UnexpectedEnd),
{
    proof {
        assert forall|x: u8| #[trigger] enc_u8(x).is_prefix_of(buf@.skip(pos as int)) implies pos < buf@.len() && buf@[pos as int] == x by {
            assert(buf@.skip(pos as int)[0] == enc_u8(x)[0]);
        }
    }
    if pos >= buf.len() {
        return Err(CodecError::UnexpectedEnd);
    }
    let v = buf[pos];
    assert(enc_u8(v) =~= buf@.subrange(pos as int, pos + 1));
    Ok((v, pos + 1))
}

pub fn bool_field(buf: &[u8], pos: usize) -> (r: Result<(bool, usize), CodecError>)
    requires
        pos <= buf@.len(),
    ensures
        r matches Ok((v, e)) ==> e == pos + 1 && e <= buf@.len() && enc_bool(v) == buf@.subrange(pos as int, e as int),
        forall|x: bool| #[trigger] enc_bool(x).is_prefix_of(buf@.skip(pos as int)) ==> r == Ok::<(bool, usize), CodecError>(
            (x, (pos + 1) as usize),
        ),
        r is Err ==> r == Err::<(bool, usize), CodecError>(CodecError::UnexpectedEnd) || r == Err::<(bool, usize), CodecError>(CodecError::InvalidData),
{
    proof {
        assert forall|x: bool| #[trigger] enc_bool(x).is_prefix_of(buf@.skip(pos as int)) implies pos < buf@.len() && buf@[pos as int] == (if x { 1u8 } else { 0u8 }) by {
            assert(buf@.skip(pos as int)[0] == enc_bool(x)[0]);
        }
    }
    if pos >= buf.len() {
        return Err(CodecError::UnexpectedEnd);
    }
    let t = buf[pos];
    if t > 1 {
        return Err(CodecError::InvalidData);
    }
    let v = t == 1;
    assert(enc_bool(v) =~= buf@.subrange(pos as int, pos + 1));
    Ok((v, pos + 1))
}

pub fn u64_field(buf: &[u8], pos: usize) -> (r: Result<(u64, usize), CodecError>)
    requires
        pos <= buf@.len(),
    ensures
        r matches Ok((v, e)) ==> e == pos + 8 && e <= buf@.len() && enc_u64(v) == buf@.subrange(pos as int, e as int),
        forall|x: u64| #[trigger] enc_u64(x).is_prefix_of(buf@.skip(pos as int)) ==> r == Ok::<(u64, usize), CodecError>(
            (x, (pos + 8) as usize),
        ),
        r is Err ==> r == Err::<(u64, usize), CodecError>(CodecError::UnexpectedEnd),
{
    proof {
        lemma_le_bytes();
        lemma_enc_injective();
        assert forall|x: u64| #[trigger] enc_u64(x).is_prefix_of(buf@.skip(pos as int)) implies pos + 8 <= buf@.len()
            && enc_u64(x) == buf@.subrange(pos as int, pos + 8) by {
            assert(enc_u64(x) =~= buf@.subrange(pos as int, pos + 8));
        }
    }
    if buf.len() - pos < 8 {
        return Err(CodecError::UnexpectedEnd);
    }
    let v = u64_from_array(copy_array::<8>(buf, pos));
    Ok((v, pos + 8))
}

pub fn key_field(buf: &[u8], pos: usize) -> (r: Result<([u8; 32], usize), CodecError>)
    requires
        pos <= buf@.len(),
    ensures
        r matches Ok((v, e)) ==> e == pos + 32 && e <= buf@.len() && v@ == buf@.subrange(pos as int, e as int),
        forall|x: [u8; 32]| #[trigger] x@.is_prefix_of(buf@.skip(pos as int)) ==> r == Ok::<([u8; 32], usize), CodecError>(
            (x, (pos + 32) as usize),
        ),
        r is Err ==> r == Err::<([u8; 32], usize), CodecError>(CodecError::UnexpectedEnd),
{
    proof {
        assert forall|x: [u8; 32]| #[trigger] x@.is_prefix_of(buf@.skip(pos as int)) implies pos + 32 <= buf@.len()
            && x@ == buf@.subrange(pos as int, pos + 32) by {
            assert(x@ =~= buf@.subrange(pos as int, pos + 32));
        }
    }
    if buf.len() - pos < 32 {
        return Err(CodecError::UnexpectedEnd);
    }
    let v = copy_array::<32>(buf, pos);
    proof {
        assert forall|x: [u8; 32]| #[trigger] x@.is_prefix_of(buf@.skip(pos as int)) implies x == v by {
            lemma_array_ext(x, v);
        }
    }
    Ok((v, pos + 32))
}

pub fn opt_i64_field(buf: &[u8], pos: usize) -> (r: Result<(Option<i64>, usize), CodecError>)
    requires
        pos <= buf@.len(),
    ensures
        r matches Ok((v, e)) ==> pos <= e <= buf@.len() && enc_opt_i64(v) == buf@.subrange(pos as int, e as int),
        forall|x: Option<i64>| #[trigger] enc_opt_i64(x).is_prefix_of(buf@.skip(pos as int)) ==> r == Ok::<(Option<i64>, usize), CodecError>(
            (x, (pos + enc_opt_i64(x).len()) as usize),
        ),
        r is Err ==> r == Err::<(Option<i64>, usize), CodecError>(CodecError::UnexpectedEnd) || r == Err::<(Option<i64>, usize), CodecError>(CodecError::InvalidData),
{
    proof {
        lemma_le_bytes();
        assert forall|x: Option<i64>| #[trigger] enc_opt_i64(x).is_prefix_of(buf@.skip(pos as int)) implies pos < buf@.len()
            && buf@[pos as int] == (if x is Some { 1u8 } else { 0u8 })
            && pos + enc_opt_i64(x).len() <= buf@.len()
            && enc_opt_i64(x) == buf@.subrange(pos as int, pos + enc_opt_i64(x).len())
            && enc_opt_i64(x).len() == (if x is Some { 9int } else { 1int }) by {
            if let Some(y) = x {
                assert(enc_u64(y as u64).len() == 8);
            }
            assert(buf@.skip(pos as int)[0] == enc_opt_i64(x)[0]);
            assert(enc_opt_i64(x) =~= buf@.subrange(pos as int, pos + enc_opt_i64(x).len()));
        }
    }
    if pos >= buf.len() {
        return Err(CodecError::UnexpectedEnd);
    }
    let t = buf[pos];
    if t == 0 {
        assert(enc_opt_i64(None) =~= buf@.subrange(pos as int, pos + 1));
        return Ok((None, pos + 1));
    }
    if t != 1 {
        return Err(CodecError::InvalidData);
    }
    if buf.len() - pos - 1 < 8 {
        return Err(CodecError::UnexpectedEnd);
    }
    let v = i64_from_array(copy_array::<8>(buf, pos + 1));
    proof {
        assert(enc_opt_i64(Some(v)) =~= buf@.subrange(pos as int, pos + 9));
        assert forall|x: Option<i64>| #[trigger] enc_opt_i64(x).is_prefix_of(buf@.skip(pos as int)) implies x == Some(v) by {
            let y = x->0;
            assert(enc_u64(y as u64).len() == 8);
            assert(enc_u64(v as u64).len() == 8);
            assert(enc_i64(y) =~= enc_opt_i64(x).subrange(1, 9));
            assert(enc_i64(v) =~= enc_opt_i64(Some(v)).subrange(1, 9));
            crate::codec::lemma_i64_injective(y, v);
        }
    }
    Ok((Some(v), pos + 9))
}

pub fn string_field(buf: &[u8], pos: usize) -> (r: Result<(String, usize), CodecError>)
    requires
        pos <= buf@.len(),
    ensures
        r matches Ok((v, e)) ==> pos <= e <= buf@.len() && encode_utf8(v@).len() <= u32::MAX
            && enc_string(v@) == buf@.subrange(pos as int, e as int),
        forall|x: Seq<char>| encode_utf8(x).len() <= u32::MAX && #[trigger] enc_string(x).is_prefix_of(buf@.skip(pos as int))
            ==> (r matches Ok((v, e)) && v@ == x && e == pos + enc_string(x).len()),
        r is Err ==> r == Err::<(String, usize), CodecError>(CodecError::UnexpectedEnd) || r == Err::<(String, usize), CodecError>(CodecError::InvalidData),
{
    proof {
        lemma_le_bytes();
        assert forall|x: Seq<char>| encode_utf8(x).len() <= u32::MAX && #[trigger] enc_string(x).is_prefix_of(buf@.skip(pos as int))
            implies pos + 4 <= buf@.len() && prefix_at(buf@, pos as int) == encode_utf8(x).len()
                && pos + 4 + encode_utf8(x).len() <= buf@.len()
                && buf@.subrange(pos + 4, pos + 4 + encode_utf8(x).len()) == encode_utf8(x)
                && valid_utf8(encode_utf8(x)) && decode_utf8(encode_utf8(x)) == x
                && enc_string(x).len() == 4 + encode_utf8(x).len() by {
            let n = encode_utf8(x).len();
            lemma_prefix_split(enc_u32(n as u32), encode_utf8(x), buf@, pos as int);
            assert(encode_utf8(x) + Seq::<u8>::empty() =~= encode_utf8(x));
            lemma_prefix_split(encode_utf8(x), Seq::<u8>::empty(), buf@, pos + 4);
            vstd::utf8::encode_utf8_valid_utf8(x);
            vstd::utf8::encode_utf8_decode_utf8(x);
        }
    }
    let r = read_string(buf, pos);
    proof {
        if r is Ok {
            let pair = r->Ok_0;
            let e = pair.1;
            vstd::utf8::decode_utf8_encode_utf8(buf@.subrange(pos + 4, e as int));
        }
    }
    r
}

pub fn vec32_field(buf: &[u8], pos: usize) -> (r: Result<(Vec<[u8; 32]>, usize), CodecError>)
    requires
        pos <= buf@.len(),
    ensures
        r matches Ok((v, e)) ==> pos <= e <= buf@.len() && v@.len() <= u32::MAX && enc_vec32(v@) == buf@.subrange(
            pos as int,
            e as int,
        ),
        forall|x: Seq<[u8; 32]>| x.len() <= u32::MAX && #[trigger] enc_vec32(x).is_prefix_of(buf@.skip(pos as int))
            ==> (r matches Ok((v, e)) && v@ == x && e == pos + enc_vec32(x).len()),
        r is Err ==> r == Err::<(Vec<[u8; 32]>, usize), CodecError>(CodecError::UnexpectedEnd),
{
    proof {
        lemma_le_bytes();
    }
    let r = read_vec32(buf, pos);
    proof {
        assert forall|x: Seq<[u8; 32]>| x.len() <= u32::MAX && #[trigger] enc_vec32(x).is_prefix_of(buf@.skip(pos as int))
            implies (r matches Ok((v, e)) && v@ == x && e == pos + enc_vec32(x).len()) by {
            let n = enc_vec32(x).len();
            crate::codec::lemma_flatten32(x);
            lemma_prefix_split(enc_u32(x.len() as u32), crate::codec::arrays_bytes(x), buf@, pos as int);
            assert(enc_vec32(x) + Seq::<u8>::empty() =~= enc_vec32(x));
            lemma_prefix_split(enc_vec32(x), Seq::<u8>::empty(), buf@, pos as int);
            if r is Ok {
                let pair = r->Ok_0;
                let v = pair.0;
                assert(enc_vec32(v@) + Seq::<u8>::empty() =~= enc_vec32(x) + Seq::<u8>::empty());
                lemma_vec32_prefix_unique(v@, x, Seq::<u8>::empty(), Seq::<u8>::empty());
            }
        }
    }
    r
}


/// A byte, then whatever follows, is read back as that byte.
pub proof fn lemma_u8_unique(a: u8, b: u8, ta: Seq<u8>, tb: Seq<u8>)
    requires
        enc_u8(a) + ta == enc_u8(b) + tb,
    ensures
        a == b,
        ta == tb,
{
    lemma_split_prefix(enc_u8(a), enc_u8(b), ta, tb);
    assert(enc_u8(a)[0] == a);
}

pub proof fn lemma_bool_unique(a: bool, b: bool, ta: Seq<u8>, tb: Seq<u8>)
    requires
        enc_bool(a) + ta == enc_bool(b) + tb,
    ensures
        a == b,
        ta == tb,
{
    lemma_split_prefix(enc_bool(a), enc_bool(b), ta, tb);
    assert(enc_bool(a)[0] == enc_bool(b)[0]);
}

pub proof fn lemma_u64_unique(a: u64, b: u64, ta: Seq<u8>, tb: Seq<u8>)
    requires
        enc_u64(a) + ta == enc_u64(b) + tb,
    ensures
        a == b,
        ta == tb,
{
    lemma_le_bytes();
    lemma_enc_injective();
    lemma_split_prefix(enc_u64(a), enc_u64(b), ta, tb);
}

pub proof fn lemma_key_unique(a: [u8; 32], b: [u8; 32], ta: Seq<u8>, tb: Seq<u8>)
    requires
        a@ + ta == b@ + tb,
    ensures
        a == b,
        ta == tb,
{
    lemma_split_prefix(a@, b@, ta, tb);
    lemma_array_ext(a, b);
}

pub proof fn lemma_opt_i64_unique(a: Option<i64>, b: Option<i64>, ta: Seq<u8>, tb: Seq<u8>)
    requires
        enc_opt_i64(a) + ta == enc_opt_i64(b) + tb,
    ensures
        a == b,
        ta == tb,
{
    lemma_le_bytes();
    assert((enc_opt_i64(a) + ta)[0] == enc_opt_i64(a)[0]);
    assert((enc_opt_i64(b) + tb)[0] == enc_opt_i64(b)[0]);
    if let (Some(x), Some(y)) = (a, b) {
        assert(enc_u64(x as u64).len() == 8);
        assert(enc_u64(y as u64).len() == 8);
        lemma_split_prefix(enc_opt_i64(a), enc_opt_i64(b), ta, tb);
        assert(enc_i64(x) =~= enc_opt_i64(a).subrange(1, 9));
        assert(enc_i64(y) =~= enc_opt_i64(b).subrange(1, 9));
        lemma_i64_injective(x, y);
    } else {
        lemma_split_prefix(enc_opt_i64(a), enc_opt_i64(b), ta, tb);
    }
}

pub proof fn lemma_string_unique(a: Seq<char>, b: Seq<char>, ta: Seq<u8>, tb: Seq<u8>)
    requires
        encode_utf8(a).len() <= u32::MAX,
        encode_utf8(b).len() <= u32::MAX,
        enc_string(a) + ta == enc_string(b) + tb,
    ensures
        a == b,
        ta == tb,
{
    assert(enc_string(a) =~= enc_bytes(encode_utf8(a)));
    assert(enc_string(b) =~= enc_bytes(encode_utf8(b)));
    lemma_bytes_vec_unique(encode_utf8(a), encode_utf8(b), ta, tb);
    vstd::utf8::encode_utf8_decode_utf8(a);
    vstd::utf8::encode_utf8_decode_utf8(b);
}

} // verus!
