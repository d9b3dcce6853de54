//! A token account held by a program-derived address.
use vstd::prelude::*;

use crate::codec::write_bytes;
use crate::types::Pubkey;

verus! {

/// A token vault and the bump of its address.
#[derive(Clone, Copy, Debug, PartialEq, Eq)]
pub struct TokenPool {
    pub vault: Pubkey,
    pub vault_bump: u8,
}

impl TokenPool {
    /// The vault, then its bump.
    pub open spec fn spec_bytes(self) -> Seq<u8> {
        self.vault@ + seq![self.vault_bump]
    }

    /// Where each field lies in the encoding: vault in bytes 0..32, vault_bump at byte
    /// 32.
    pub proof fn lemma_field_offsets(self)
        ensures
            self.spec_bytes().len() == 33,
            self.spec_bytes().subrange(0, 32) == self.vault@,
            self.spec_bytes()[32] == self.vault_bump,
    {
        crate::codec::lemma_le_bytes();
        vstd::bytes::lemma_auto_spec_u64_to_from_le_bytes();
        assert(self.spec_bytes().subrange(0, 32) =~= self.vault@);
    }

    /// Appends the pool's bytes.
    pub fn pack(&self, w: &mut Vec<u8>)
        ensures
            final(w)@ == old(w)@ + self.spec_bytes(),
    {
        write_bytes(w, self.vault.as_slice());
        w.push(self.vault_bump);
        assert(final(w)@ =~= old(w)@ + self.spec_bytes());
    }
}

} // verus!
