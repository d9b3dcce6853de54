//! The digest a virtual account's owner signs to pay several accounts.
use vstd::prelude::*;

use crate::codec::{enc_u64, u64_to_array};
use crate::cvm::account::nonce::VirtualDurableNonce;
use crate::cvm::account::timelock::VirtualTimelockAccount;
use crate::cvm::messages::transfer::{token_address, token_address_of};
use crate::cvm::state::vm::CodeVmAccount;
use crate::types::hash;
use crate::types::Pubkey;
use crate::utils::sha256v;

verus! {

/// The tag that opens an airdrop message.
pub const AIRDROP_TAG: [u8; 7] = [97, 105, 114, 100, 114, 111, 112];

/// The digest of an airdrop of `amount` from `src` to each of `dsts`.
pub open spec fn airdrop_digest(src: Seq<u8>, dsts: Seq<Pubkey>, amount: u64, vdn: VirtualDurableNonce) -> Seq<
    u8,
> {
    sha256v(
        seq![AIRDROP_TAG@, src, vdn.address@, vdn.value@, enc_u64(amount)] + dsts.map_values(
            |d: Pubkey| d@,
        ),
    )
}

/// The signed airdrop message is, in order: the bytes of `airdrop`, the
/// source vault, the nonce's address, the nonce's value, the amount as eight
/// little-endian bytes, then each destination in the order given.
pub proof fn lemma_airdrop_message_parts(
    src: Seq<u8>,
    dsts: Seq<Pubkey>,
    amount: u64,
    vdn: VirtualDurableNonce,
    parts: Seq<Seq<u8>>,
)
    requires
        parts.len() == 5 + dsts.len(),
        parts[0] == seq![97u8, 105, 114, 100, 114, 111, 112],
        parts[1] == src,
        parts[2] == vdn.address@,
        parts[3] == vdn.value@,
        parts[4] == vstd::bytes::spec_u64_to_le_bytes(amount),
        forall|i: int| 0 <= i < dsts.len() ==> #[trigger] parts[5 + i] == dsts[i]@,
    ensures
        airdrop_digest(src, dsts, amount, vdn) == sha256v(parts),
{
    assert(AIRDROP_TAG@ =~= seq![97u8, 105, 114, 100, 114, 111, 112]);
    let expected = seq![AIRDROP_TAG@, src, vdn.address@, vdn.value@, enc_u64(amount)] + dsts.map_values(|d: Pubkey| d@);
    assert(expected.len() == parts.len());
    assert forall|k: int| 0 <= k < parts.len() implies expected[k] == parts[k] by {
        if k >= 5 {
            assert(parts[5 + (k - 5)] == dsts[k - 5]@);
        }
    }
    assert(expected =~= parts);
}

/// The digest of an airdrop from a token account to several others.
pub fn compact_airdrop_message(
    src_timelock_address: &Pubkey,
    dst_timelock_addresses: &[Pubkey],
    amount: u64,
    vdn: &VirtualDurableNonce,
) -> (r: hash::Hash)
    ensures
        r@ == airdrop_digest(src_timelock_address@, dst_timelock_addresses@, amount, *vdn),
{
    let tag = AIRDROP_TAG;
    let amount_bytes = u64_to_array(amount);
    let mut msg: Vec<&[u8]> = Vec::new();
    msg.push(tag.as_slice());
    msg.push(src_timelock_address.as_slice());
    msg.push(vdn.address.as_slice());
    msg.push(vdn.value.as_ref());
    msg.push(amount_bytes.as_slice());
    let ghost head = seq![AIRDROP_TAG@, src_timelock_address@, vdn.address@, vdn.value@, enc_u64(amount)];
    assert(msg.deep_view() =~= head) by {
        assert(msg@[0].deep_view() =~= AIRDROP_TAG@);
        assert(msg@[1].deep_view() =~= src_timelock_address@);
        assert(msg@[2].deep_view() =~= vdn.address@);
        assert(msg@[3].deep_view() =~= vdn.value@);
        assert(msg@[4].deep_view() =~= enc_u64(amount));
    }
    let mut i: usize = 0;
    while i < dst_timelock_addresses.len()
        invariant
            i <= dst_timelock_addresses@.len(),
            msg.deep_view() == head + dst_timelock_addresses@.take(i as int).map_values(|d: Pubkey| d@),
        decreases dst_timelock_addresses@.len() - i,
    {
        let ghost before = msg.deep_view();
        let d = dst_timelock_addresses[i].as_slice();
        assert(d.deep_view() =~= dst_timelock_addresses@[i as int]@);
        msg.push(d);
        assert(msg.deep_view() =~= before.push(dst_timelock_addresses@[i as int]@)) by {
            assert(msg@.last() == d);
        }
        i = i + 1;
        assert(msg.deep_view() =~= head + dst_timelock_addresses@.take(i as int).map_values(|d: Pubkey| d@));
    }
    assert(dst_timelock_addresses@.take(i as int) =~= dst_timelock_addresses@);
    crate::utils::hashv(msg.as_slice())
}

/// The digest that the owner of `src_vta` signs to pay `amount` to each of
/// `destinations`; `None` where an address does not exist.
pub fn create_airdrop_message(
    vm: &CodeVmAccount,
    src_vta: &VirtualTimelockAccount,
    destinations: &[Pubkey],
    amount: u64,
    vdn: &VirtualDurableNonce,
) -> (r: Option<hash::Hash>)
    ensures
        match token_address_of(*vm, *src_vta) {
            Some(s) => r matches Some(h) && h@ == airdrop_digest(s, destinations@, amount, *vdn),
            None => r is None,
        },
{
    let src_token_address = match token_address(vm, src_vta) {
        Some(a) => a,
        None => {
            return None;
        },
    };
    Some(compact_airdrop_message(&src_token_address, destinations, amount, vdn))
}

} // verus!
