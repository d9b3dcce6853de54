//! A storage account: the Merkle tree of the virtual accounts compressed
//! out of memory.
use vstd::prelude::*;

use crate::codec::{copy_array, lemma_array_ext, lemma_le_bytes, write_bytes};
use crate::consts::COMPRESSED_STATE_DEPTH;
use crate::state::{account_discriminator, write_discriminator, AccountType};
use crate::types::merkle_tree::MerkleTree;
use crate::types::Pubkey;

verus! {

/// The state of a storage account.
#[derive(Clone, Copy, Debug)]
pub struct StorageAccount {
    pub vm: Pubkey,
    pub name: [u8; 32],
    pub bump: u8,
    pub depth: u8,
    pub padding: [u8; 6],
    pub compressed_state: MerkleTree<24>,
}

impl StorageAccount {
    pub const MERKLE_TREE_DEPTH: usize = COMPRESSED_STATE_DEPTH;

    /// Bytes of account data: the discriminator, the header and the tree.
    pub fn get_size() -> (r: usize)
        ensures
            r == 8 + 72 + (64 * 24 + 40),
    {
        8 + 72 + (64 * COMPRESSED_STATE_DEPTH + 40)
    }

    /// The account's data after its eight-byte discriminator, as laid out
    /// in memory.
    pub open spec fn spec_bytes(self) -> Seq<u8> {
        self.vm@ + self.name@ + seq![self.bump, self.depth] + self.padding@ + self.compressed_state.spec_bytes()
    }

    /// Where each field lies in the encoding: the VM in bytes 0..32, the name
    /// in 32..64, the bump at 64, the depth at 65, the padding in 66..72, the
    /// compressed state from byte 72 on.
    pub proof fn lemma_field_offsets(self)
        ensures
            self.spec_bytes().subrange(0, 32) == self.vm@,
            self.spec_bytes().subrange(32, 64) == self.name@,
            self.spec_bytes()[64] == self.bump,
            self.spec_bytes()[65] == self.depth,
            self.spec_bytes().subrange(66, 72) == self.padding@,
            self.spec_bytes().subrange(72, self.spec_bytes().len() as int) == self.compressed_state.spec_bytes(),
    {
        let b = self.spec_bytes();
        assert(b.subrange(0, 32) =~= self.vm@);
        assert(b.subrange(32, 64) =~= self.name@);
        assert(b.subrange(66, 72) =~= self.padding@);
        assert(b.subrange(72, b.len() as int) =~= self.compressed_state.spec_bytes());
    }

    /// The account data: the discriminator, then the fields.
    pub fn pack(&self) -> (r: Vec<u8>)
        ensures
            r@ == account_discriminator(AccountType::StorageAccount) + self.spec_bytes(),
    {
        let mut w: Vec<u8> = Vec::new();
        write_discriminator(&mut w, AccountType::StorageAccount);
        write_bytes(&mut w, self.vm.as_slice());
        write_bytes(&mut w, self.name.as_slice());
        w.push(self.bump);
        w.push(self.depth);
        write_bytes(&mut w, self.padding.as_slice());
        self.compressed_state.pack(&mut w);
        assert(w@ =~= account_discriminator(AccountType::StorageAccount) + self.spec_bytes());
        w
    }

    /// An account is fixed by its bytes, so `unpack` reads back what
    /// `pack` wrote.
    pub proof fn lemma_bytes_determine(self, other: Self)
        requires
            self.spec_bytes() == other.spec_bytes(),
        ensures
            self == other,
    {
        lemma_le_bytes();
        let b = self.spec_bytes();
        assert(self.vm@ =~= b.subrange(0, 32));
        assert(other.vm@ =~= b.subrange(0, 32));
        lemma_array_ext(self.vm, other.vm);
        assert(self.name@ =~= b.subrange(32, 64));
        assert(other.name@ =~= b.subrange(32, 64));
        lemma_array_ext(self.name, other.name);
        assert(b[64] == self.bump && b[64] == other.bump);
        assert(b[65] == self.depth && b[65] == other.depth);
        assert(self.padding@ =~= b.subrange(66, 72));
        assert(other.padding@ =~= b.subrange(66, 72));
        lemma_array_ext(self.padding, other.padding);
        assert(self.compressed_state.spec_bytes() =~= b.subrange(72, b.len() as int));
        assert(other.compressed_state.spec_bytes() =~= b.subrange(72, b.len() as int));
        self.compressed_state.lemma_bytes_determine(other.compressed_state);
    }

    /// Reads the account from the front of `data`, which must be long
    /// enough and lead with this account type.
    pub fn unpack(data: &[u8]) -> (r: Self)
        requires
            data@.len() >= 8 + 72 + (64 * 24 + 40),
            data@[0] == AccountType::StorageAccount.code(),
        ensures
            r.spec_bytes() == data@.subrange(8, 1656),
    {
        let vm = copy_array::<32>(data, 8);
        let name = copy_array::<32>(data, 40);
        let bump = data[72];
        let depth = data[73];
        let padding = copy_array::<6>(data, 74);
        let compressed_state = MerkleTree::<24>::unpack_at(data, 80);
        let r = StorageAccount { vm, name, bump, depth, padding, compressed_state };
        assert(r.spec_bytes() =~= data@.subrange(8, 1656));
        r
    }
}

} // verus!
