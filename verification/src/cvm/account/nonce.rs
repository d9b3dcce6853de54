//! A virtual durable nonce.
use vstd::prelude::*;

use crate::codec::{copy_array, lemma_array_ext, lemma_enc_injective, lemma_le_bytes, write_bytes};
use crate::types::hash::{self, lemma_hash_ext};
use crate::types::Pubkey;

verus! {

/// A nonce kept by the VM in place of a real durable nonce account.
#[derive(Clone, Copy, Debug, PartialEq, Eq)]
pub struct VirtualDurableNonce {
    /// Off the curve and owned by the VM authority, unlike a real nonce account.
    pub address: Pubkey,
    /// The current nonce value, advanced on each use.
    pub value: hash::Hash,
}

impl VirtualDurableNonce {
    pub const LEN: usize = 64;

    /// Borsh encoding: the fields in order, integers little-endian.
    pub open spec fn spec_bytes(self) -> Seq<u8> {
        self.address@ + self.value@
    }

    /// Where each field lies in the encoding: the address in bytes 0..32, the
    /// nonce value in bytes 32..64.
    pub proof fn lemma_field_offsets(self)
        ensures
            self.spec_bytes().len() == 64,
            self.spec_bytes().subrange(0, 32) == self.address@,
            self.spec_bytes().subrange(32, 64) == self.value@,
    {
        assert(self.spec_bytes().subrange(0, 32) =~= self.address@);
        assert(self.spec_bytes().subrange(32, 64) =~= self.value@);
    }

    /// Appends the encoding to `w`.
    pub fn pack(&self, w: &mut Vec<u8>)
        ensures
            final(w)@ == old(w)@ + self.spec_bytes(),
    {
        write_bytes(w, self.address.as_slice());
        write_bytes(w, self.value.value.as_slice());
        assert(final(w)@ =~= old(w)@ + self.spec_bytes());
    }

    /// Reads the account from the first `LEN` bytes of `buf`.
    pub fn unpack(buf: &[u8]) -> (r: Result<Self, std::io::Error>)
        requires
            buf@.len() >= 64,
        ensures
            r matches Ok(x) && x.spec_bytes() == buf@.take(64),
    {
        proof {
            lemma_le_bytes();
        }
        let address = copy_array::<32>(buf, 0);
        let value = hash::Hash { value: copy_array::<32>(buf, 32) };
        let x = VirtualDurableNonce { address, value };
        assert(x.spec_bytes() =~= buf@.take(64));
        Ok(x)
    }

    pub proof fn lemma_len(self)
        ensures
            self.spec_bytes().len() == 64,
    {
        lemma_le_bytes();
    }

    /// An account is fixed by its bytes, so `unpack` reads back what
    /// `pack` wrote.
    pub proof fn lemma_bytes_determine(self, other: Self)
        requires
            self.spec_bytes() == other.spec_bytes(),
        ensures
            self == other,
    {
        lemma_le_bytes();
        lemma_enc_injective();
        let b = self.spec_bytes();
        assert(self.address@ =~= b.subrange(0, 32));
        assert(other.address@ =~= b.subrange(0, 32));
        lemma_array_ext(self.address, other.address);
        assert(self.value@ =~= b.subrange(32, 64));
        assert(other.value@ =~= b.subrange(32, 64));
        lemma_hash_ext(self.value, other.value);
    }
}
} // verus!
