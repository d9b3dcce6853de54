//! The relay: a treasury that pays out against commitments, recorded in a
//! Merkle tree whose recent roots it remembers.
use vstd::prelude::*;

use crate::codec::{copy_array, lemma_array_ext, lemma_le_bytes, write_bytes};
use crate::consts::{RELAY_HISTORY_ITEMS, RELAY_STATE_DEPTH};
use crate::state::{account_discriminator, write_discriminator, AccountType};
use crate::cvm::pool::TokenPool;
use crate::error::ProgramError;
use crate::types::circular_buffer::{padded, CircularBuffer};
use crate::types::hash;
use crate::types::merkle_tree::{has_room, leaf_of, MerkleTree};
use crate::types::Pubkey;

verus! {

/// The state of a relay.
#[derive(Clone, Copy, Debug)]
pub struct RelayAccount {
    pub vm: Pubkey,
    pub name: [u8; 32],
    pub treasury: TokenPool,
    pub bump: u8,
    pub num_levels: u8,
    pub num_history: u8,
    pub padding: [u8; 4],
    /// The roots the relay accepts proofs against, oldest first.
    pub recent_roots: CircularBuffer<32, 32>,
    /// The commitments paid so far.
    pub history: MerkleTree<64>,
}

impl RelayAccount {
    /// Bytes of account data: the discriminator, the header, the recent
    /// roots and the history tree.
    pub fn get_size() -> (r: usize)
        ensures
            r == 8 + 104 + (32 * 32 + 8) + (64 * 64 + 40),
    {
        8 + 104 + (RELAY_HISTORY_ITEMS * 32 + 8) + (64 * RELAY_STATE_DEPTH + 40)
    }

    /// The account's data after its eight-byte discriminator, as laid out
    /// in memory.
    pub open spec fn spec_bytes(self) -> Seq<u8> {
        self.vm@ + self.name@ + self.treasury.spec_bytes() + seq![self.bump, self.num_levels, self.num_history]
            + self.padding@ + self.recent_roots.spec_bytes() + self.history.spec_bytes()
    }

    /// Where each field lies in the encoding: the VM in bytes 0..32, the name
    /// in 32..64, the treasury vault in 64..96 and its bump at 96, the bump at
    /// 97, the number of levels at 98, the history size at 99, the padding in
    /// 100..104, the recent roots in 104..1136, the history tree after them.
    pub proof fn lemma_field_offsets(self)
        ensures
            self.spec_bytes().subrange(0, 32) == self.vm@,
            self.spec_bytes().subrange(32, 64) == self.name@,
            self.spec_bytes().subrange(64, 96) == self.treasury.vault@,
            self.spec_bytes()[96] == self.treasury.vault_bump,
            self.spec_bytes()[97] == self.bump,
            self.spec_bytes()[98] == self.num_levels,
            self.spec_bytes()[99] == self.num_history,
            self.spec_bytes().subrange(100, 104) == self.padding@,
            self.spec_bytes().subrange(104, 1136) == self.recent_roots.spec_bytes(),
            self.spec_bytes().subrange(1136, self.spec_bytes().len() as int) == self.history.spec_bytes(),
    {
        crate::types::circular_buffer::lemma_ring_len(self.recent_roots);
        let b = self.spec_bytes();
        assert(b.subrange(0, 32) =~= self.vm@);
        assert(b.subrange(32, 64) =~= self.name@);
        assert(b.subrange(64, 96) =~= self.treasury.vault@);
        assert(b.subrange(100, 104) =~= self.padding@);
        assert(b.subrange(104, 1136) =~= self.recent_roots.spec_bytes());
        assert(b.subrange(1136, b.len() as int) =~= self.history.spec_bytes());
    }

    /// The account data: the discriminator, then the fields.
    pub fn pack(&self) -> (r: Vec<u8>)
        ensures
            r@ == account_discriminator(AccountType::RelayAccount) + self.spec_bytes(),
    {
        let mut w: Vec<u8> = Vec::new();
        write_discriminator(&mut w, AccountType::RelayAccount);
        write_bytes(&mut w, self.vm.as_slice());
        write_bytes(&mut w, self.name.as_slice());
        self.treasury.pack(&mut w);
        w.push(self.bump);
        w.push(self.num_levels);
        w.push(self.num_history);
        write_bytes(&mut w, self.padding.as_slice());
        self.recent_roots.pack(&mut w);
        self.history.pack(&mut w);
        assert(w@ =~= account_discriminator(AccountType::RelayAccount) + self.spec_bytes());
        w
    }

    /// An account is fixed by its bytes, so `unpack` reads back what
    /// `pack` wrote.
    pub proof fn lemma_bytes_determine(self, other: Self)
        requires
            self.spec_bytes() == other.spec_bytes(),
        ensures
            self == other,
    {
        lemma_le_bytes();
        let b = self.spec_bytes();
        assert(self.vm@ =~= b.subrange(0, 32));
        assert(other.vm@ =~= b.subrange(0, 32));
        lemma_array_ext(self.vm, other.vm);
        assert(self.name@ =~= b.subrange(32, 64));
        assert(other.name@ =~= b.subrange(32, 64));
        lemma_array_ext(self.name, other.name);
        assert(self.treasury.vault@ =~= b.subrange(64, 96));
        assert(other.treasury.vault@ =~= b.subrange(64, 96));
        lemma_array_ext(self.treasury.vault, other.treasury.vault);
        assert(b[96] == self.treasury.vault_bump && b[96] == other.treasury.vault_bump);
        assert(b[97] == self.bump && b[97] == other.bump);
        assert(b[98] == self.num_levels && b[98] == other.num_levels);
        assert(b[99] == self.num_history && b[99] == other.num_history);
        assert(self.padding@ =~= b.subrange(100, 104));
        assert(other.padding@ =~= b.subrange(100, 104));
        lemma_array_ext(self.padding, other.padding);
        crate::types::circular_buffer::lemma_ring_len(self.recent_roots);
        crate::types::circular_buffer::lemma_ring_len(other.recent_roots);
        assert(self.recent_roots.spec_bytes() =~= b.subrange(104, 1136));
        assert(other.recent_roots.spec_bytes() =~= b.subrange(104, 1136));
        self.recent_roots.lemma_bytes_determine(other.recent_roots);
        assert(self.history.spec_bytes() =~= b.subrange(1136, b.len() as int));
        assert(other.history.spec_bytes() =~= b.subrange(1136, b.len() as int));
        self.history.lemma_bytes_determine(other.history);
    }

    /// Reads the account from the front of `data`, which must be long
    /// enough and lead with this account type.
    pub fn unpack(data: &[u8]) -> (r: Self)
        requires
            data@.len() >= 8 + 104 + (32 * 32 + 8) + (64 * 64 + 40),
            data@[0] == AccountType::RelayAccount.code(),
        ensures
            r.spec_bytes() == data@.subrange(8, 5280),
    {
        let vm = copy_array::<32>(data, 8);
        let name = copy_array::<32>(data, 40);
        let treasury = TokenPool { vault: copy_array::<32>(data, 72), vault_bump: data[104] };
        let bump = data[105];
        let num_levels = data[106];
        let num_history = data[107];
        let padding = copy_array::<4>(data, 108);
        let recent_roots = CircularBuffer::<32, 32>::unpack_at(data, 112);
        let history = MerkleTree::<64>::unpack_at(data, 112 + 32 * 32 + 8);
        let r = RelayAccount { vm, name, treasury, bump, num_levels, num_history, padding, recent_roots, history };
        assert(r.spec_bytes() =~= data@.subrange(8, 5280));
        r
    }

    /// The oldest root the relay still accepts.
    pub fn get_recent_root(&self) -> (r: hash::Hash)
        requires
            self.recent_roots.wf(),
            self.recent_roots.view().len() > 0,
        ensures
            r.value == self.recent_roots.view()[0],
    {
        let first = self.recent_roots.first();
        match first {
            Some(item) => hash::Hash { value: *item },
            None => hash::Hash { value: [0u8; 32] },
        }
    }

    /// Records the tree's current root among the recent roots, unless it is
    /// already the latest one; the oldest is dropped when the list is full.
    pub fn save_recent_root(&mut self)
        requires
            old(self).recent_roots.wf(),
        ensures
            final(self).recent_roots.wf(),
            final(self).recent_roots.view().len() > 0,
            final(self).recent_roots.view().last()@ == old(self).history.root@,
            old(self).recent_roots.view().len() > 0 && old(self).recent_roots.view().last()@
                == old(self).history.root@ ==> final(self).recent_roots == old(self).recent_roots,
            !(old(self).recent_roots.view().len() > 0 && old(self).recent_roots.view().last()@
                == old(self).history.root@) ==> {
                &&& old(self).recent_roots.num_items < 32 ==> final(self).recent_roots.view().drop_last()
                    == old(self).recent_roots.view()
                &&& old(self).recent_roots.num_items == 32 ==> final(self).recent_roots.view().drop_last()
                    == old(self).recent_roots.view().drop_first()
                &&& old(self).recent_roots.pushed(final(self).recent_roots, old(self).history.root@)
            },
            final(self).history == old(self).history,
            final(self).vm == old(self).vm,
            final(self).treasury == old(self).treasury,
            final(self).name == old(self).name,
            final(self).bump == old(self).bump,
            final(self).num_levels == old(self).num_levels,
            final(self).num_history == old(self).num_history,
            final(self).padding == old(self).padding,
    {
        let current = self.history.get_root();
        let last = self.recent_roots.last();
        match last {
            None => {},
            Some(last) => {
                if crate::bytes::bytes_eq(current.as_ref(), last.as_slice()) {
                    return;
                }
            },
        }
        self.recent_roots.push(current.as_ref());
        assert(padded(current@, 32) =~= current@);
    }

    /// Appends a commitment to the history tree.
    pub fn add_commitment(&mut self, commitment: &Pubkey) -> (r: Result<(), ProgramError>)
        ensures
            r is Ok <==> has_room(old(self).history.next_index, 64),
            r is Ok ==> old(self).history.inserted(final(self).history, leaf_of(commitment@)),
            r is Err ==> final(self).history == old(self).history,
            final(self).recent_roots == old(self).recent_roots,
            final(self).vm == old(self).vm,
            final(self).treasury == old(self).treasury,
            final(self).name == old(self).name,
            final(self).bump == old(self).bump,
            final(self).num_levels == old(self).num_levels,
            final(self).num_history == old(self).num_history,
            final(self).padding == old(self).padding,
    {
        self.history.try_insert(hash::Hash { value: *commitment })
    }
}

} // verus!
