//! Hashing helpers.
use vstd::prelude::*;

pub mod signature;

verus! {

/// The SHA-256 digest of the concatenation of `parts`, as
/// `solana_program::hash::hashv` computes it.
pub uninterp spec fn sha256v(parts: Seq<Seq<u8>>) -> Seq<u8>;

/// `solana_program::hash::hashv(vals)`: the SHA-256 digest of the byte
/// strings of `vals` fed to one hasher in turn. Its result depends on the
/// bytes of `vals` alone.
#[verifier::external_body]
fn sha256_parts(vals: &[&[u8]]) -> (r: crate::types::hash::Hash)
    ensures
        r@ == sha256v(vals.deep_view()),
{
    crate::types::hash::Hash { value: solana_program::hash::hashv(vals).to_bytes() }
}

/// The digest of the byte strings of `vals` taken one after another.
pub fn hashv(vals: &[&[u8]]) -> (r: crate::types::hash::Hash)
    ensures
        r@ == sha256v(vals.deep_view()),
{
    sha256_parts(vals)
}

/// The digest of one byte string.
pub fn hash(val: &[u8]) -> (r: crate::types::hash::Hash)
    ensures
        r@ == sha256v(seq![val@]),
{
    let parts: [&[u8]; 1] = [val];
    let s = parts.as_slice();
    assert(s@[0] == val);
    assert(val.deep_view() =~= val@);
    assert(s.deep_view() =~= seq![val@]);
    sha256_parts(s)
}

} // verus!
