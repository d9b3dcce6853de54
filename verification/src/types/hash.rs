//! A 32-byte digest.
use vstd::prelude::*;

verus! {

/// Length in bytes of a digest.
pub const HASH_BYTES: usize = 32;

/// The digits of the default (Bitcoin) base-58 alphabet, by value.
pub open spec fn base58_alphabet() -> Seq<char> {
    seq![
        '1', '2', '3', '4', '5', '6', '7', '8', '9', 'A', 'B', 'C', 'D', 'E', 'F',
        'G', 'H', 'J', 'K', 'L', 'M', 'N', 'P', 'Q', 'R', 'S', 'T', 'U', 'V', 'W',
        'X', 'Y', 'Z', 'a', 'b', 'c', 'd', 'e', 'f', 'g', 'h', 'i', 'j', 'k', 'm',
        'n', 'o', 'p', 'q', 'r', 's', 't', 'u', 'v', 'w', 'x', 'y', 'z',
    ]
}

/// The number whose big-endian bytes are `b`.
pub open spec fn be_value(b: Seq<u8>) -> nat
    decreases b.len(),
{
    if b.len() == 0 {
        0
    } else {
        be_value(b.drop_last()) * 256 + b.last() as nat
    }
}

/// How many zero bytes `b` starts with.
pub open spec fn leading_zeros(b: Seq<u8>) -> nat
    decreases b.len(),
{
    if b.len() > 0 && b[0] == 0 {
        1 + leading_zeros(b.drop_first())
    } else {
        0
    }
}

/// The base-58 digits of `n`, most significant first; none for zero.
pub open spec fn base58_digits(n: nat) -> Seq<char>
    decreases n,
{
    if n == 0 {
        Seq::empty()
    } else {
        base58_digits(n / 58) + seq![base58_alphabet()[(n % 58) as int]]
    }
}

/// The base-58 text of a byte string: a `1` for each leading zero byte,
/// then the digits of the bytes read as a big-endian number.
pub open spec fn base58(bytes: Seq<u8>) -> Seq<char> {
    Seq::new(leading_zeros(bytes), |_i: int| '1') + base58_digits(be_value(bytes))
}

/// `bs58::encode(bytes).into_string()`: the base-58 text of `bytes` in the
/// default alphabet, as `base58` states it.
#[verifier::external_body]
fn base58_encode(bytes: &[u8]) -> (s: String)
    ensures
        s@ == base58(bytes@),
{
    bs58::encode(bytes).into_string()
}

/// A 32-byte digest, such as a SHA-256 hash or a Merkle node.
#[derive(Clone, Copy, Debug, Eq)]
pub struct Hash {
    pub value: [u8; 32],
}

impl View for Hash {
    type V = Seq<u8>;

    open spec fn view(&self) -> Seq<u8> {
        self.value@
    }
}

/// Two digests with the same bytes are the same digest.
pub proof fn lemma_hash_ext(a: Hash, b: Hash)
    requires
        a@ == b@,
    ensures
        a == b,
{
    assert(a.value =~= b.value) by {
        assert forall|i: int| 0 <= i < 32 implies a.value[i] == b.value[i] by {
            assert(a.value@[i] == b.value@[i]);
        }
    }
}

impl PartialEq for Hash {
    fn eq(&self, other: &Hash) -> (r: bool) {
        crate::bytes::bytes_eq(self.value.as_slice(), other.value.as_slice())
    }
}

impl vstd::std_specs::cmp::PartialEqSpecImpl for Hash {
    open spec fn obeys_eq_spec() -> bool {
        true
    }

    open spec fn eq_spec(&self, other: &Hash) -> bool {
        self@ == other@
    }
}

impl Default for Hash {
    fn default() -> (r: Hash)
        ensures
            forall|i: int| 0 <= i < 32 ==> r@[i] == 0,
    {
        Hash { value: [0u8; 32] }
    }
}

impl From<[u8; 32]> for Hash {
    fn from(from: [u8; 32]) -> (r: Hash) {
        Hash { value: from }
    }
}

impl vstd::std_specs::convert::FromSpecImpl<[u8; 32]> for Hash {
    open spec fn obeys_from_spec() -> bool {
        true
    }

    open spec fn from_spec(v: [u8; 32]) -> Hash {
        Hash { value: v }
    }
}

impl From<Hash> for [u8; 32] {
    fn from(from: Hash) -> (r: [u8; 32]) {
        from.value
    }
}

impl vstd::std_specs::convert::FromSpecImpl<Hash> for [u8; 32] {
    open spec fn obeys_from_spec() -> bool {
        true
    }

    open spec fn from_spec(v: Hash) -> [u8; 32] {
        v.value
    }
}

impl Hash {
    pub const LEN: usize = 32;

    /// The digest whose bytes are `hash_slice`, which must be 32 bytes long.
    pub fn new(hash_slice: &[u8]) -> (r: Hash)
        requires
            hash_slice@.len() == 32,
        ensures
            r@ == hash_slice@,
    {
        let mut value = [0u8; 32];
        let mut i: usize = 0;
        while i < 32
            invariant
                hash_slice@.len() == 32,
                i <= 32,
                forall|j: int| 0 <= j < i ==> value@[j] == hash_slice@[j],
            decreases 32 - i,
        {
            value[i] = hash_slice[i];
            i = i + 1;
        }
        assert(value@ =~= hash_slice@);
        Hash { value }
    }

    pub fn new_from_array(hash_array: [u8; 32]) -> (r: Hash)
        ensures
            r.value == hash_array,
    {
        Hash { value: hash_array }
    }

    pub fn to_bytes(self) -> (r: [u8; 32])
        ensures
            r == self.value,
    {
        self.value
    }

    /// The digest's bytes.
    pub fn as_ref(&self) -> (r: &[u8])
        ensures
            r@ == self@,
    {
        self.value.as_slice()
    }

    /// The digest written in base 58.
    pub fn to_string(&self) -> (s: String)
        ensures
            s@ == base58(self@),
    {
        base58_encode(self.value.as_slice())
    }
}

} // verus!
