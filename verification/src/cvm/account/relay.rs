//! A virtual relay account.
use vstd::prelude::*;

use crate::codec::{copy_array, lemma_array_ext, lemma_enc_injective, lemma_le_bytes, write_bytes};
use crate::types::Pubkey;

verus! {

/// An account through which the relay pays a destination.
#[derive(Clone, Copy, Debug, PartialEq, Eq)]
pub struct VirtualRelayAccount {
    pub target: Pubkey,
    pub destination: Pubkey,
}

impl VirtualRelayAccount {
    pub const LEN: usize = 64;

    /// Borsh encoding: the fields in order, integers little-endian.
    pub open spec fn spec_bytes(self) -> Seq<u8> {
        self.target@ + self.destination@
    }

    /// Where each field lies in the encoding: the target in bytes 0..32, the
    /// destination in bytes 32..64.
    pub proof fn lemma_field_offsets(self)
        ensures
            self.spec_bytes().len() == 64,
            self.spec_bytes().subrange(0, 32) == self.target@,
            self.spec_bytes().subrange(32, 64) == self.destination@,
    {
        assert(self.spec_bytes().subrange(0, 32) =~= self.target@);
        assert(self.spec_bytes().subrange(32, 64) =~= self.destination@);
    }

    /// Appends the encoding to `w`.
    pub fn pack(&self, w: &mut Vec<u8>)
        ensures
            final(w)@ == old(w)@ + self.spec_bytes(),
    {
        write_bytes(w, self.target.as_slice());
        write_bytes(w, self.destination.as_slice());
        assert(final(w)@ =~= old(w)@ + self.spec_bytes());
    }

    /// Reads the account from the first `LEN` bytes of `buf`.
    pub fn unpack(buf: &[u8]) -> (r: Result<Self, std::io::Error>)
        requires
            buf@.len() >= 64,
        ensures
            r matches Ok(x) && x.spec_bytes() == buf@.take(64),
    {
        proof {
            lemma_le_bytes();
        }
        let target = copy_array::<32>(buf, 0);
        let destination = copy_array::<32>(buf, 32);
        let x = VirtualRelayAccount { target, destination };
        assert(x.spec_bytes() =~= buf@.take(64));
        Ok(x)
    }

    pub proof fn lemma_len(self)
        ensures
            self.spec_bytes().len() == 64,
    {
        lemma_le_bytes();
    }

    /// An account is fixed by its bytes, so `unpack` reads back what
    /// `pack` wrote.
    pub proof fn lemma_bytes_determine(self, other: Self)
        requires
            self.spec_bytes() == other.spec_bytes(),
        ensures
            self == other,
    {
        lemma_le_bytes();
        lemma_enc_injective();
        let b = self.spec_bytes();
        assert(self.target@ =~= b.subrange(0, 32));
        assert(other.target@ =~= b.subrange(0, 32));
        lemma_array_ext(self.target, other.target);
        assert(self.destination@ =~= b.subrange(32, 64));
        assert(other.destination@ =~= b.subrange(32, 64));
        lemma_array_ext(self.destination, other.destination);
    }
}
} // verus!
