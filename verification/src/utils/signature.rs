//! Ed25519 signature verification, with the curve arithmetic done by
//! `solana_curve25519` and `curve25519_dalek` and the challenge hashed by
//! `solana_ed25519_sha512` (one block, for a 32-byte message) or `sha2`.
use vstd::prelude::*;
use vstd::bytes::spec_u64_to_le_bytes;

use crate::error::ProgramError;

verus! {

const ED25519_SIG_LEN: usize = 64;

const ED25519_PUBKEY_LEN: usize = 32;

/// The compressed ed25519 base point.
pub const G: [u8; 32] = [
    88, 102, 102, 102, 102, 102, 102, 102, 102, 102, 102, 102, 102, 102, 102, 102,
    102, 102, 102, 102, 102, 102, 102, 102, 102, 102, 102, 102, 102, 102, 102, 102,
];

/// The order ℓ of the prime-order subgroup of the ed25519 curve.
pub open spec fn group_order() -> nat {
    7237005577332262213973186563042994240857116359379907606001950938285454250989nat
}

/// The number whose little-endian bytes are `b`.
pub open spec fn le_value(b: Seq<u8>) -> nat
    decreases b.len(),
{
    if b.len() == 0 {
        0
    } else {
        b[0] as nat + 256 * le_value(b.drop_first())
    }
}

/// The `len` little-endian bytes of `n`, higher bytes dropped.
pub open spec fn le_bytes(n: nat, len: nat) -> Seq<u8>
    decreases len,
{
    if len == 0 {
        Seq::empty()
    } else {
        seq![(n % 256) as u8] + le_bytes(n / 256, (len - 1) as nat)
    }
}

pub open spec fn pow256(len: nat) -> nat
    decreases len,
{
    if len == 0 {
        1
    } else {
        256 * pow256((len - 1) as nat)
    }
}

/// Whether `b` is the canonical encoding of a scalar: a number below ℓ.
pub open spec fn scalar_canonical(b: Seq<u8>) -> bool {
    le_value(b) < group_order()
}

/// Whether the 32 bytes `point` decompress to a point of the curve.
pub uninterp spec fn edwards_valid(point: Seq<u8>) -> bool;

/// The compressed product of the scalar `scalar` and the point `point`.
pub uninterp spec fn edwards_mul(scalar: Seq<u8>, point: Seq<u8>) -> Seq<u8>;

/// The compressed difference of the points `left` and `right`.
pub uninterp spec fn edwards_sub(left: Seq<u8>, right: Seq<u8>) -> Seq<u8>;

/// The SHA-512 digest of `r`, `pubkey` and `digest` in a row, as
/// `solana_ed25519_sha512::hash` computes it in one block.
pub uninterp spec fn challenge_hash(r: Seq<u8>, pubkey: Seq<u8>, digest: Seq<u8>) -> Seq<u8>;

/// The SHA-512 digest of `r`, `pubkey` and `message` in a row, as `sha2`
/// computes it for a message of any length.
pub uninterp spec fn sha512_hash(r: Seq<u8>, pubkey: Seq<u8>, message: Seq<u8>) -> Seq<u8>;

/// The challenge digest `H(R ‖ A ‖ M)`: one SHA-512 block where the message
/// is 32 bytes long, the general SHA-512 otherwise.
pub open spec fn challenge_digest(r: Seq<u8>, pubkey: Seq<u8>, message: Seq<u8>) -> Seq<u8> {
    if message.len() == 32 {
        challenge_hash(r, pubkey, message)
    } else {
        sha512_hash(r, pubkey, message)
    }
}

/// `Scalar::from_canonical_bytes(bytes)` then `to_bytes`: the scalar exists
/// exactly when the bytes encode a number below ℓ, and it gives back the
/// same bytes.
#[verifier::external_body]
fn scalar_from_canonical(bytes: [u8; 32]) -> (r: Option<[u8; 32]>)
    ensures
        r is Some <==> scalar_canonical(bytes@),
        r matches Some(b) ==> b == bytes,
{
    match curve25519_dalek::scalar::Scalar::from_canonical_bytes(bytes).into_option() {
        Some(s) => Some(s.to_bytes()),
        None => None,
    }
}

/// `Scalar::from_bytes_mod_order_wide(input)` then `to_bytes`: the 64
/// bytes read as a little-endian number, reduced modulo ℓ, written as 32
/// little-endian bytes.
#[verifier::external_body]
fn scalar_reduce_wide(input: &[u8; 64]) -> (r: [u8; 32])
    ensures
        r@ == le_bytes(le_value(input@) % group_order(), 32),
{
    curve25519_dalek::scalar::Scalar::from_bytes_mod_order_wide(input).to_bytes()
}

/// `solana_curve25519::edwards::validate_edwards`: whether the bytes
/// decompress to a curve point.
#[verifier::external_body]
fn validate_point(point: [u8; 32]) -> (r: bool)
    ensures
        r == edwards_valid(point@),
{
    solana_curve25519::edwards::validate_edwards(&solana_curve25519::edwards::PodEdwardsPoint(point))
}

/// `solana_curve25519::edwards::multiply_edwards`: fails exactly when the
/// scalar is not canonical or the point does not decompress; a product is
/// the compression of a curve point, so it decompresses again.
#[verifier::external_body]
fn multiply_point(scalar: [u8; 32], point: [u8; 32]) -> (r: Option<[u8; 32]>)
    ensures
        r is Some <==> (scalar_canonical(scalar@) && edwards_valid(point@)),
        r matches Some(q) ==> q@ == edwards_mul(scalar@, point@) && edwards_valid(q@),
{
    solana_curve25519::edwards::multiply_edwards(
        &solana_curve25519::scalar::PodScalar(scalar),
        &solana_curve25519::edwards::PodEdwardsPoint(point),
    ).map(|p| p.0)
}

/// `solana_curve25519::edwards::subtract_edwards`: fails exactly when one of
/// the points does not decompress.
#[verifier::external_body]
fn subtract_points(left: [u8; 32], right: [u8; 32]) -> (r: Option<[u8; 32]>)
    ensures
        r is Some <==> (edwards_valid(left@) && edwards_valid(right@)),
        r matches Some(q) ==> q@ == edwards_sub(left@, right@),
{
    solana_curve25519::edwards::subtract_edwards(
        &solana_curve25519::edwards::PodEdwardsPoint(left),
        &solana_curve25519::edwards::PodEdwardsPoint(right),
    ).map(|p| p.0)
}

/// `solana_ed25519_sha512::hash(r, pubkey, digest)`.
#[verifier::external_body]
fn challenge(r: &[u8; 32], pubkey: &[u8; 32], digest: &[u8; 32]) -> (h: [u8; 64])
    ensures
        h@ == challenge_hash(r@, pubkey@, digest@),
{
    solana_ed25519_sha512::hash(r, pubkey, digest)
}

/// `sha2::Sha512` fed with `r`, `pubkey` and `message` in turn, then
/// finalised: the 64-byte SHA-512 digest of the three in a row.
#[verifier::external_body]
fn sha512(r: &[u8; 32], pubkey: &[u8; 32], message: &[u8]) -> (h: [u8; 64])
    ensures
        h@ == sha512_hash(r@, pubkey@, message@),
{
    let mut hasher = <sha2::Sha512 as sha2::Digest>::new();
    sha2::Digest::update(&mut hasher, r);
    sha2::Digest::update(&mut hasher, pubkey);
    sha2::Digest::update(&mut hasher, message);
    sha2::Digest::finalize(hasher).into()
}

/// The 32-byte scalar encoding of `n`.
pub open spec fn scalar_of(n: u64) -> Seq<u8> {
    spec_u64_to_le_bytes(n) + Seq::new(24, |i: int| 0u8)
}

/// The compressed identity point.
pub open spec fn identity_point() -> Seq<u8> {
    Seq::new(32, |i: int| if i == 0 { 1u8 } else { 0u8 })
}

/// Whether eight times the point is the identity: the point lies in the
/// torsion subgroup of order eight.
pub open spec fn small_order(point: Seq<u8>) -> bool {
    &&& scalar_canonical(scalar_of(8))
    &&& edwards_valid(point)
    &&& edwards_mul(scalar_of(8), point) == identity_point()
}

/// The outcome of verifying `sig` by `pubkey` over `message`:
/// malformed lengths are an argument error; a small-order or undecodable
/// point, or a signature whose `R` differs from `s·B − k·A` with
/// `k = H(R ‖ A ‖ M) mod ℓ`, is refused.
pub open spec fn verify_outcome(pubkey: Seq<u8>, sig: Seq<u8>, message: Seq<u8>) -> Result<
    (),
    ProgramError,
> {
    if pubkey.len() != 32 || sig.len() != 64 {
        Err(ProgramError::InvalidArgument)
    } else {
        let r = sig.subrange(0, 32);
        let s = sig.subrange(32, 64);
        if small_order(r) || small_order(pubkey) {
            Err(ProgramError::InvalidAccountOwner)
        } else if !edwards_valid(pubkey) || !edwards_valid(r) {
            Err(ProgramError::InvalidAccountOwner)
        } else if !edwards_valid(G@) {
            Err(ProgramError::InvalidAccountOwner)
        } else {
            let k = le_bytes(le_value(challenge_digest(r, pubkey, message)) % group_order(), 32);
            let computed = edwards_sub(edwards_mul(s, G@), edwards_mul(k, pubkey));
            if computed == r {
                Ok(())
            } else {
                Err(ProgramError::InvalidAccountOwner)
            }
        }
    }
}

proof fn lemma_le_bytes_len(n: nat, len: nat)
    ensures
        le_bytes(n, len).len() == len,
    decreases len,
{
    if len > 0 {
        lemma_le_bytes_len(n / 256, (len - 1) as nat);
    }
}

/// Writing a number below `256^len` in `len` bytes and reading it back
/// gives the number.
proof fn lemma_le_roundtrip(n: nat, len: nat)
    requires
        n < pow256(len),
    ensures
        le_value(le_bytes(n, len)) == n,
    decreases len,
{
    if len > 0 {
        let p = pow256((len - 1) as nat);
        assert(n / 256 < p) by (nonlinear_arith)
            requires
                n < 256 * p,
        ;
        lemma_le_roundtrip(n / 256, (len - 1) as nat);
        let b = le_bytes(n, len);
        assert(b.drop_first() =~= le_bytes(n / 256, (len - 1) as nat));
        assert(n == n % 256 + 256 * (n / 256)) by (nonlinear_arith);
    } else {
        assert(le_bytes(n, 0) =~= Seq::<u8>::empty());
    }
}

/// A reduced scalar is canonical.
proof fn lemma_reduced_is_canonical(x: nat)
    ensures
        scalar_canonical(le_bytes(x % group_order(), 32)),
{
    reveal_with_fuel(pow256, 33);
    assert(group_order() < pow256(32));
    lemma_le_roundtrip(x % group_order(), 32);
}

/// Splits a signature into its point `R` and its scalar `s`.
pub fn split_signature(sig: &[u8; 64]) -> (r: ([u8; 32], [u8; 32]))
    ensures
        r.0@ == sig@.subrange(0, 32),
        r.1@ == sig@.subrange(32, 64),
{
    let mut lower = [0u8; 32];
    let mut upper = [0u8; 32];
    let mut i: usize = 0;
    while i < 32
        invariant
            i <= 32,
            sig@.len() == 64,
            forall|j: int| 0 <= j < i ==> lower@[j] == sig@[j] && upper@[j] == sig@[j + 32],
        decreases 32 - i,
    {
        lower[i] = sig[i];
        upper[i] = sig[i + 32];
        i = i + 1;
    }
    assert(lower@ =~= sig@.subrange(0, 32));
    assert(upper@ =~= sig@.subrange(32, 64));
    (lower, upper)
}

/// The compressed identity point: one, then zeros.
fn identity() -> (r: [u8; 32])
    ensures
        r@ == identity_point(),
{
    let mut bytes = [0u8; 32];
    bytes[0] = 1;
    assert(bytes@ =~= identity_point());
    bytes
}

/// The 32-byte scalar encoding of `n`: its eight little-endian bytes, then
/// zeros.
pub fn scalar_from_u64(n: u64) -> (r: [u8; 32])
    ensures
        r@ == scalar_of(n),
{
    let le = vstd::bytes::u64_to_le_bytes(n);
    proof {
        vstd::bytes::lemma_auto_spec_u64_to_from_le_bytes();
    }
    let mut bytes = [0u8; 32];
    let mut i: usize = 0;
    while i < 8
        invariant
            i <= 8,
            le@ == spec_u64_to_le_bytes(n),
            le@.len() == 8,
            forall|j: int| 0 <= j < i ==> bytes@[j] == le@[j],
            forall|j: int| 8 <= j < 32 ==> bytes@[j] == 0,
        decreases 8 - i,
    {
        bytes[i] = le[i];
        i = i + 1;
    }
    assert(bytes@ =~= scalar_of(n));
    bytes
}

/// Whether eight times `point` is the identity; a point that does not
/// decompress is not of small order.
pub fn is_small_order(point: &[u8; 32]) -> (r: bool)
    ensures
        r == small_order(point@),
{
    let scalar_8 = scalar_from_u64(8);
    match multiply_point(scalar_8, *point) {
        Some(result_point) => {
            let id = identity();
            crate::bytes::bytes_eq(result_point.as_slice(), id.as_slice())
        },
        None => false,
    }
}

/// Verifies the ed25519 signature `sig` by `pubkey` over `message`; a
/// 32-byte message is hashed in one SHA-512 block.
pub fn sig_verify(pubkey: &[u8], sig: &[u8], message: &[u8]) -> (r: Result<(), ProgramError>)
    requires
        pubkey@.len() == 32 && sig@.len() == 64 ==> scalar_canonical(sig@.subrange(32, 64)),
    ensures
        r == verify_outcome(pubkey@, sig@, message@),
{
    if pubkey.len() != ED25519_PUBKEY_LEN {
        return Err(ProgramError::InvalidArgument);
    }
    if sig.len() != ED25519_SIG_LEN {
        return Err(ProgramError::InvalidArgument);
    }
    let mut pubkey_bytes = [0u8; 32];
    let mut sig_bytes = [0u8; 64];
    let mut i: usize = 0;
    while i < 64
        invariant
            i <= 64,
            pubkey@.len() == 32,
            sig@.len() == 64,
            forall|j: int| 0 <= j < i ==> sig_bytes@[j] == sig@[j],
            forall|j: int| 0 <= j < i && j < 32 ==> pubkey_bytes@[j] == pubkey@[j],
        decreases 64 - i,
    {
        sig_bytes[i] = sig[i];
        if i < 32 {
            pubkey_bytes[i] = pubkey[i];
        }
        i = i + 1;
    }
    assert(sig_bytes@ =~= sig@);
    assert(pubkey_bytes@ =~= pubkey@);

    let (sig_lower, sig_upper) = split_signature(&sig_bytes);
    let sig_s = match scalar_from_canonical(sig_upper) {
        Some(s) => s,
        None => {
            return Err(ProgramError::InvalidArgument);
        },
    };
    if is_small_order(&sig_lower) || is_small_order(&pubkey_bytes) {
        return Err(ProgramError::InvalidAccountOwner);
    }
    let pubkey_on_curve = validate_point(pubkey_bytes);
    let sig_r_on_curve = validate_point(sig_lower);
    if !pubkey_on_curve || !sig_r_on_curve {
        return Err(ProgramError::InvalidAccountOwner);
    }

    let f = if message.len() == 32 {
        let mut message_bytes = [0u8; 32];
        let mut j: usize = 0;
        while j < 32
            invariant
                j <= 32,
                message@.len() == 32,
                forall|m: int| 0 <= m < j ==> message_bytes@[m] == message@[m],
            decreases 32 - j,
        {
            message_bytes[j] = message[j];
            j = j + 1;
        }
        assert(message_bytes@ =~= message@);
        challenge(&sig_lower, &pubkey_bytes, &message_bytes)
    } else {
        sha512(&sig_lower, &pubkey_bytes, message)
    };
    let k_bytes = scalar_reduce_wide(&f);
    proof {
        lemma_reduced_is_canonical(le_value(f@));
    }
    let s_b = match multiply_point(sig_s, G) {
        Some(p) => p,
        None => {
            return Err(ProgramError::InvalidAccountOwner);
        },
    };
    let k_a = match multiply_point(k_bytes, pubkey_bytes) {
        Some(p) => p,
        None => {
            return Err(ProgramError::InvalidAccountOwner);
        },
    };
    let computed = match subtract_points(s_b, k_a) {
        Some(p) => p,
        None => {
            return Err(ProgramError::InvalidAccountOwner);
        },
    };
    if crate::bytes::bytes_eq(sig_lower.as_slice(), computed.as_slice()) {
        Ok(())
    } else {
        Err(ProgramError::InvalidAccountOwner)
    }
}

} // verus!
