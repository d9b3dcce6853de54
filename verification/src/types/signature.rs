//! A 64-byte ed25519 signature.
use vstd::prelude::*;

verus! {

/// A 64-byte ed25519 signature: the point `R`, then the scalar `s`.
#[derive(Clone, Copy, Debug, Eq)]
pub struct Signature {
    pub value: [u8; 64],
}

impl View for Signature {
    type V = Seq<u8>;

    open spec fn view(&self) -> Seq<u8> {
        self.value@
    }
}

/// Two signatures with the same bytes are the same signature.
pub proof fn lemma_signature_ext(a: Signature, b: Signature)
    requires
        a@ == b@,
    ensures
        a == b,
{
    crate::codec::lemma_array_ext(a.value, b.value);
}

impl PartialEq for Signature {
    fn eq(&self, other: &Signature) -> (r: bool) {
        crate::bytes::bytes_eq(self.value.as_slice(), other.value.as_slice())
    }
}

impl vstd::std_specs::cmp::PartialEqSpecImpl for Signature {
    open spec fn obeys_eq_spec() -> bool {
        true
    }

    open spec fn eq_spec(&self, other: &Signature) -> bool {
        self@ == other@
    }
}

impl Signature {
    pub const LEN: usize = 64;

    pub fn new(value: [u8; 64]) -> (r: Signature)
        ensures
            r.value == value,
    {
        Signature { value }
    }

    pub fn to_bytes(self) -> (r: [u8; 64])
        ensures
            r == self.value,
    {
        self.value
    }
}

} // verus!
