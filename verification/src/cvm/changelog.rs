//! The change log: events the VM records for off-chain indexers, in their
//! borsh encoding.
use vstd::prelude::*;
use vstd::bytes::spec_u64_from_le_bytes;

use crate::codec::{
    copy_array, enc_u64, lemma_array_ext, lemma_enc_injective, lemma_le_bytes, lemma_split_prefix,
    u64_from_array, write_bytes, write_u64, CodecError,
};
use crate::cvm::account::virtual_account::{variant_size, VirtualAccount};
use crate::types::hash::{self, lemma_hash_ext};
use crate::types::signature::{lemma_signature_ext, Signature};
use crate::types::Pubkey;

verus! {

/// Where `a` opens `s`, what follows `a` opens `s` past it.
proof fn lemma_prefix_parts(a: Seq<u8>, b: Seq<u8>, s: Seq<u8>)
    requires
        (a + b).is_prefix_of(s),
    ensures
        a.is_prefix_of(s),
        b.is_prefix_of(s.skip(a.len() as int)),
{
    assert(a =~= (a + b).take(a.len() as int));
    assert forall|i: int| 0 <= i < b.len() implies b[i] == s.skip(a.len() as int)[i] by {
        assert(b[i] == (a + b)[a.len() + i]);
    }
}

/// Two packed virtual accounts that open the same bytes are the same, and
/// what follows them is the same.
proof fn lemma_account_unique(a: VirtualAccount, b: VirtualAccount, ta: Seq<u8>, tb: Seq<u8>)
    requires
        a.spec_bytes() + ta == b.spec_bytes() + tb,
    ensures
        a == b,
        ta == tb,
{
    a.lemma_pack_unpack(b);
    b.lemma_pack_unpack(a);
    assert((a.spec_bytes() + ta)[0] == a.spec_bytes()[0]);
    assert((b.spec_bytes() + tb)[0] == b.spec_bytes()[0]);
    lemma_split_prefix(a.spec_bytes(), b.spec_bytes(), ta, tb);
}

/// Reads a packed virtual account at `pos`; on success also returns the
/// position just past it.
pub fn read_virtual_account(buf: &[u8], pos: usize) -> (r: Result<(VirtualAccount, usize), CodecError>)
    requires
        pos <= buf@.len(),
    ensures
        r matches Ok((v, e)) ==> pos <= e <= buf@.len() && v.spec_bytes() == buf@.subrange(
            pos as int,
            e as int,
        ),
        forall|x: VirtualAccount| #[trigger] x.spec_bytes().is_prefix_of(buf@.skip(pos as int)) ==> r is Ok,
        r is Err ==> r == Err::<(VirtualAccount, usize), CodecError>(CodecError::UnexpectedEnd) || r
            == Err::<(VirtualAccount, usize), CodecError>(CodecError::InvalidData),
{
    proof {
        assert forall|x: VirtualAccount| #[trigger] x.spec_bytes().is_prefix_of(buf@.skip(pos as int)) implies (
        pos < buf@.len() && buf@[pos as int] == x.tag() && x.tag() <= 2 && buf@.len() - pos >= 1
            + variant_size(x.tag())) by {
            x.lemma_pack_unpack(x);
            assert(buf@.skip(pos as int)[0] == x.spec_bytes()[0]);
        }
    }
    if pos >= buf.len() {
        return Err(CodecError::UnexpectedEnd);
    }
    let tag = buf[pos];
    if tag > 2 {
        return Err(CodecError::InvalidData);
    }
    let rest = &buf[pos..buf.len()];
    match VirtualAccount::unpack(rest) {
        Ok(v) => {
            let size = v.get_size();
            proof {
                v.lemma_pack_unpack(v);
                assert(rest@.take(1 + variant_size(rest@[0]) as int) =~= buf@.subrange(
                    pos as int,
                    pos + size,
                ));
            }
            Ok((v, pos + size))
        },
        Err(_) => Err(CodecError::UnexpectedEnd),
    }
}

/// What an event records of the accounts it touched.
#[derive(Clone, Copy, Debug, PartialEq, Eq)]
pub enum ChangeLogData {
    Create(VirtualAccount),
    Compress { storage: Pubkey, account: VirtualAccount, signature: Signature },
    Decompress { storage: Pubkey, account: VirtualAccount, signature: Signature },
    Transfer { src: VirtualAccount, dst: Pubkey, amount: u64 },
    Withdraw { src: VirtualAccount, dst: Pubkey },
    TimelockUnlock { address: Pubkey, owner: Pubkey },
    TimelockDeposit { account: VirtualAccount, amount: u64 },
    TimelockWithdraw { owner: Pubkey, dst: Pubkey, amount: u64 },
}

impl ChangeLogData {
    /// Borsh encoding: the variant's index, then its fields.
    pub open spec fn spec_bytes(self) -> Seq<u8> {
        match self {
            ChangeLogData::Create(a) => seq![0u8] + a.spec_bytes(),
            ChangeLogData::Compress { storage, account, signature } => seq![1u8] + (storage@ + (
            account.spec_bytes() + signature@)),
            ChangeLogData::Decompress { storage, account, signature } => seq![2u8] + (storage@ + (
            account.spec_bytes() + signature@)),
            ChangeLogData::Transfer { src, dst, amount } => seq![3u8] + (src.spec_bytes() + (dst@
                + enc_u64(amount))),
            ChangeLogData::Withdraw { src, dst } => seq![4u8] + (src.spec_bytes() + dst@),
            ChangeLogData::TimelockUnlock { address, owner } => seq![5u8] + (address@ + owner@),
            ChangeLogData::TimelockDeposit { account, amount } => seq![6u8] + (account.spec_bytes()
                + enc_u64(amount)),
            ChangeLogData::TimelockWithdraw { owner, dst, amount } => seq![7u8] + (owner@ + (dst@
                + enc_u64(amount))),
        }
    }

    /// Where each field lies in the encoding: the variant's index at byte 0
    /// (0 create, 1 compress, 2 decompress, 3 transfer, 4 withdraw, 5 unlock,
    /// 6 deposit, 7 timelock withdrawal), then its fields in order, keys 32
    /// bytes long, signatures 64, amounts eight little-endian bytes, and an
    /// account its packed form.
    pub proof fn lemma_field_offsets(self)
        ensures
            match self {
                ChangeLogData::Create(a) => self.spec_bytes() == seq![0u8] + a.spec_bytes(),
                ChangeLogData::Compress { storage, account, signature } => {
                    let l = account.spec_bytes().len() as int;
                    &&& self.spec_bytes().len() == 97 + l
                    &&& self.spec_bytes()[0] == 1
                    &&& self.spec_bytes().subrange(1, 33) == storage@
                    &&& self.spec_bytes().subrange(33, 33 + l) == account.spec_bytes()
                    &&& self.spec_bytes().subrange(33 + l, 97 + l) == signature@
                },
                ChangeLogData::Decompress { storage, account, signature } => {
                    let l = account.spec_bytes().len() as int;
                    &&& self.spec_bytes().len() == 97 + l
                    &&& self.spec_bytes()[0] == 2
                    &&& self.spec_bytes().subrange(1, 33) == storage@
                    &&& self.spec_bytes().subrange(33, 33 + l) == account.spec_bytes()
                    &&& self.spec_bytes().subrange(33 + l, 97 + l) == signature@
                },
                ChangeLogData::Transfer { src, dst, amount } => {
                    let l = src.spec_bytes().len() as int;
                    &&& self.spec_bytes().len() == 41 + l
                    &&& self.spec_bytes()[0] == 3
                    &&& self.spec_bytes().subrange(1, 1 + l) == src.spec_bytes()
                    &&& self.spec_bytes().subrange(1 + l, 33 + l) == dst@
                    &&& spec_u64_from_le_bytes(self.spec_bytes().subrange(33 + l, 41 + l)) == amount
                },
                ChangeLogData::Withdraw { src, dst } => {
                    let l = src.spec_bytes().len() as int;
                    &&& self.spec_bytes().len() == 33 + l
                    &&& self.spec_bytes()[0] == 4
                    &&& self.spec_bytes().subrange(1, 1 + l) == src.spec_bytes()
                    &&& self.spec_bytes().subrange(1 + l, 33 + l) == dst@
                },
                ChangeLogData::TimelockUnlock { address, owner } => {
                    &&& self.spec_bytes().len() == 65
                    &&& self.spec_bytes()[0] == 5
                    &&& self.spec_bytes().subrange(1, 33) == address@
                    &&& self.spec_bytes().subrange(33, 65) == owner@
                },
                ChangeLogData::TimelockDeposit { account, amount } => {
                    let l = account.spec_bytes().len() as int;
                    &&& self.spec_bytes().len() == 9 + l
                    &&& self.spec_bytes()[0] == 6
                    &&& self.spec_bytes().subrange(1, 1 + l) == account.spec_bytes()
                    &&& spec_u64_from_le_bytes(self.spec_bytes().subrange(1 + l, 9 + l)) == amount
                },
                ChangeLogData::TimelockWithdraw { owner, dst, amount } => {
                    &&& self.spec_bytes().len() == 73
                    &&& self.spec_bytes()[0] == 7
                    &&& self.spec_bytes().subrange(1, 33) == owner@
                    &&& self.spec_bytes().subrange(33, 65) == dst@
                    &&& spec_u64_from_le_bytes(self.spec_bytes().subrange(65, 73)) == amount
                },
            },
    {
        lemma_le_bytes();
        let b = self.spec_bytes();
        match self {
            ChangeLogData::Create(a) => {},
            ChangeLogData::Compress { storage, account, signature } => {
                let l = account.spec_bytes().len() as int;
                assert(b.subrange(1, 33) =~= storage@);
                assert(b.subrange(33, 33 + l) =~= account.spec_bytes());
                assert(b.subrange(33 + l, 97 + l) =~= signature@);
            },
            ChangeLogData::Decompress { storage, account, signature } => {
                let l = account.spec_bytes().len() as int;
                assert(b.subrange(1, 33) =~= storage@);
                assert(b.subrange(33, 33 + l) =~= account.spec_bytes());
                assert(b.subrange(33 + l, 97 + l) =~= signature@);
            },
            ChangeLogData::Transfer { src, dst, amount } => {
                let l = src.spec_bytes().len() as int;
                assert(b.subrange(1, 1 + l) =~= src.spec_bytes());
                assert(b.subrange(1 + l, 33 + l) =~= dst@);
                assert(b.subrange(33 + l, 41 + l) =~= enc_u64(amount));
            },
            ChangeLogData::Withdraw { src, dst } => {
                let l = src.spec_bytes().len() as int;
                assert(b.subrange(1, 1 + l) =~= src.spec_bytes());
                assert(b.subrange(1 + l, 33 + l) =~= dst@);
            },
            ChangeLogData::TimelockUnlock { address, owner } => {
                assert(b.subrange(1, 33) =~= address@);
                assert(b.subrange(33, 65) =~= owner@);
            },
            ChangeLogData::TimelockDeposit { account, amount } => {
                let l = account.spec_bytes().len() as int;
                assert(b.subrange(1, 1 + l) =~= account.spec_bytes());
                assert(b.subrange(1 + l, 9 + l) =~= enc_u64(amount));
            },
            ChangeLogData::TimelockWithdraw { owner, dst, amount } => {
                assert(b.subrange(1, 33) =~= owner@);
                assert(b.subrange(33, 65) =~= dst@);
                assert(b.subrange(65, 73) =~= enc_u64(amount));
            },
        }
    }

    /// Appends the encoding to `w`.
    pub fn pack(&self, w: &mut Vec<u8>)
        ensures
            final(w)@ == old(w)@ + self.spec_bytes(),
    {
        match self {
            ChangeLogData::Create(a) => {
                w.push(0);
                write_bytes(w, a.pack().as_slice());
            },
            ChangeLogData::Compress { storage, account, signature } => {
                w.push(1);
                write_bytes(w, storage.as_slice());
                write_bytes(w, account.pack().as_slice());
                write_bytes(w, signature.value.as_slice());
            },
            ChangeLogData::Decompress { storage, account, signature } => {
                w.push(2);
                write_bytes(w, storage.as_slice());
                write_bytes(w, account.pack().as_slice());
                write_bytes(w, signature.value.as_slice());
            },
            ChangeLogData::Transfer { src, dst, amount } => {
                w.push(3);
                write_bytes(w, src.pack().as_slice());
                write_bytes(w, dst.as_slice());
                write_u64(w, *amount);
            },
            ChangeLogData::Withdraw { src, dst } => {
                w.push(4);
                write_bytes(w, src.pack().as_slice());
                write_bytes(w, dst.as_slice());
            },
            ChangeLogData::TimelockUnlock { address, owner } => {
                w.push(5);
                write_bytes(w, address.as_slice());
                write_bytes(w, owner.as_slice());
            },
            ChangeLogData::TimelockDeposit { account, amount } => {
                w.push(6);
                write_bytes(w, account.pack().as_slice());
                write_u64(w, *amount);
            },
            ChangeLogData::TimelockWithdraw { owner, dst, amount } => {
                w.push(7);
                write_bytes(w, owner.as_slice());
                write_bytes(w, dst.as_slice());
                write_u64(w, *amount);
            },
        }
        assert(final(w)@ =~= old(w)@ + self.spec_bytes());
    }
}

/// Reads 32 bytes at `pos`.
fn read_key_at(buf: &[u8], pos: usize) -> (r: Result<([u8; 32], usize), CodecError>)
    requires
        pos <= buf@.len(),
    ensures
        r matches Ok((v, e)) ==> e == pos + 32 && e <= buf@.len() && v@ == buf@.subrange(pos as int, e as int),
        forall|x: [u8; 32]| #[trigger] x@.is_prefix_of(buf@.skip(pos as int)) ==> r is Ok,
        r is Err ==> r == Err::<([u8; 32], usize), CodecError>(CodecError::UnexpectedEnd),
{
    if buf.len() - pos < 32 {
        return Err(CodecError::UnexpectedEnd);
    }
    Ok((copy_array::<32>(buf, pos), pos + 32))
}

/// Reads 64 signature bytes at `pos`.
fn read_sig_at(buf: &[u8], pos: usize) -> (r: Result<(Signature, usize), CodecError>)
    requires
        pos <= buf@.len(),
    ensures
        r matches Ok((v, e)) ==> e == pos + 64 && e <= buf@.len() && v@ == buf@.subrange(pos as int, e as int),
        forall|x: Signature| #[trigger] x@.is_prefix_of(buf@.skip(pos as int)) ==> r is Ok,
        r is Err ==> r == Err::<(Signature, usize), CodecError>(CodecError::UnexpectedEnd),
{
    if buf.len() - pos < 64 {
        return Err(CodecError::UnexpectedEnd);
    }
    Ok((Signature { value: copy_array::<64>(buf, pos) }, pos + 64))
}

/// Reads a little-endian `u64` at `pos`.
fn read_u64_at(buf: &[u8], pos: usize) -> (r: Result<(u64, usize), CodecError>)
    requires
        pos <= buf@.len(),
    ensures
        r matches Ok((v, e)) ==> e == pos + 8 && e <= buf@.len() && enc_u64(v) == buf@.subrange(pos as int, e as int),
        forall|x: u64| #[trigger] enc_u64(x).is_prefix_of(buf@.skip(pos as int)) ==> r is Ok,
        r is Err ==> r == Err::<(u64, usize), CodecError>(CodecError::UnexpectedEnd),
{
    proof {
        lemma_le_bytes();
    }
    if buf.len() - pos < 8 {
        return Err(CodecError::UnexpectedEnd);
    }
    Ok((u64_from_array(copy_array::<8>(buf, pos)), pos + 8))
}

/// Where a packed account opens `buf` at `q` and the reader found `v`
/// ending at `e` there, `v` is that account and what follows it starts at `e`.
proof fn lemma_read_account_is(buf: Seq<u8>, q: int, e: int, v: VirtualAccount, x: VirtualAccount, rest: Seq<u8>)
    requires
        0 <= q <= e <= buf.len(),
        v.spec_bytes() == buf.subrange(q, e),
        (x.spec_bytes() + rest).is_prefix_of(buf.skip(q)),
    ensures
        v == x,
        rest.is_prefix_of(buf.skip(e)),
{
    lemma_prefix_parts(x.spec_bytes(), rest, buf.skip(q));
    x.lemma_pack_unpack(v);
    v.lemma_pack_unpack(x);
    let a = x.spec_bytes();
    assert(a.len() <= buf.len() - q);
    let vb = v.spec_bytes();
    assert(vb + buf.skip(e) =~= buf.skip(q));
    assert(a + buf.skip(q + a.len()) =~= buf.skip(q));
    lemma_account_unique(v, x, buf.skip(e), buf.skip(q + a.len()));
}

/// Data that opens `b` at `p` leads with its tag, and its fields open `b`
/// just past it.
proof fn lemma_data_prefix(x: ChangeLogData, b: Seq<u8>, p: int)
    requires
        0 <= p <= b.len(),
        x.spec_bytes().is_prefix_of(b.skip(p)),
    ensures
        p < b.len(),
        b[p] == x.spec_bytes()[0],
        x.spec_bytes().drop_first().is_prefix_of(b.skip(p + 1)),
{
    assert(x.spec_bytes().len() >= 1) by {
        match x {
            ChangeLogData::Create(a) => {},
            ChangeLogData::Compress { .. } => {},
            ChangeLogData::Decompress { .. } => {},
            ChangeLogData::Transfer { .. } => {},
            ChangeLogData::Withdraw { .. } => {},
            ChangeLogData::TimelockUnlock { .. } => {},
            ChangeLogData::TimelockDeposit { .. } => {},
            ChangeLogData::TimelockWithdraw { .. } => {},
        }
    }
    assert(b.skip(p)[0] == x.spec_bytes()[0]);
    assert forall|i: int| 0 <= i < x.spec_bytes().drop_first().len() implies x.spec_bytes().drop_first()[i]
        == b.skip(p + 1)[i] by {
        assert(x.spec_bytes()[i + 1] == b.skip(p)[i + 1]);
    }
}

#[verifier::spinoff_prover]
fn read_create(buf: &[u8], pos: usize) -> (r: Result<(ChangeLogData, usize), CodecError>)
    requires
        pos < buf@.len(),
        buf@[pos as int] == 0,
    ensures
        r matches Ok((v, e)) ==> pos <= e <= buf@.len() && v.spec_bytes() == buf@.subrange(
            pos as int,
            e as int,
        ),
        forall|x: ChangeLogData| #[trigger] x.spec_bytes().is_prefix_of(buf@.skip(pos as int)) ==> r is Ok,
        r is Err ==> r == Err::<(ChangeLogData, usize), CodecError>(CodecError::UnexpectedEnd) || r
            == Err::<(ChangeLogData, usize), CodecError>(CodecError::InvalidData),
{
    let ghost b = buf@;
    let ghost p = pos as int;
    let tag = buf[pos];
    let p1 = pos + 1;
    proof {
        assert forall|x: ChangeLogData| #[trigger] x.spec_bytes().is_prefix_of(b.skip(p)) implies (
        x.spec_bytes()[0] == tag && x.spec_bytes().drop_first().is_prefix_of(b.skip(p + 1))) by {
            lemma_data_prefix(x, b, p);
        }
    }
    let (a, e) = match read_virtual_account(buf, p1) {
        Ok(v) => v,
        Err(err) => {
            proof {
                assert forall|x: ChangeLogData| #[trigger] x.spec_bytes().is_prefix_of(b.skip(p)) implies false by {
                    if let ChangeLogData::Create(y) = x {
                        assert(x.spec_bytes().drop_first() =~= y.spec_bytes());
                        assert(y.spec_bytes().is_prefix_of(b.skip(p + 1)));
                    }
                }
            }
            return Err(err);
        },
    };
    let d = ChangeLogData::Create(a);
    assert(d.spec_bytes() =~= b.subrange(p, e as int));
    Ok((d, e))
}

#[verifier::spinoff_prover]
fn read_storage_move(buf: &[u8], pos: usize) -> (r: Result<(ChangeLogData, usize), CodecError>)
    requires
        pos < buf@.len(),
        buf@[pos as int] == 1 || buf@[pos as int] == 2,
    ensures
        r matches Ok((v, e)) ==> pos <= e <= buf@.len() && v.spec_bytes() == buf@.subrange(
            pos as int,
            e as int,
        ),
        forall|x: ChangeLogData| #[trigger] x.spec_bytes().is_prefix_of(buf@.skip(pos as int)) ==> r is Ok,
        r is Err ==> r == Err::<(ChangeLogData, usize), CodecError>(CodecError::UnexpectedEnd) || r
            == Err::<(ChangeLogData, usize), CodecError>(CodecError::InvalidData),
{
    let ghost b = buf@;
    let ghost p = pos as int;
    let tag = buf[pos];
    let p1 = pos + 1;
    proof {
        assert forall|x: ChangeLogData| #[trigger] x.spec_bytes().is_prefix_of(b.skip(p)) implies (
        x.spec_bytes()[0] == tag && x.spec_bytes().drop_first().is_prefix_of(b.skip(p + 1))) by {
            lemma_data_prefix(x, b, p);
        }
    }
    let (storage, e1) = match read_key_at(buf, p1) {
        Ok(v) => v,
        Err(err) => {
            proof {
                assert forall|x: ChangeLogData| #[trigger] x.spec_bytes().is_prefix_of(b.skip(p)) implies false by {
                    match x {
                        ChangeLogData::Compress { storage, account, signature } => {
                            lemma_prefix_parts(storage@, account.spec_bytes() + signature@, b.skip(p + 1));
                        },
                        ChangeLogData::Decompress { storage, account, signature } => {
                            lemma_prefix_parts(storage@, account.spec_bytes() + signature@, b.skip(p + 1));
                        },
                        _ => {},
                    }
                }
            }
            return Err(err);
        },
    };
    let (account, e2) = match read_virtual_account(buf, e1) {
        Ok(v) => v,
        Err(err) => {
            proof {
                assert forall|x: ChangeLogData| #[trigger] x.spec_bytes().is_prefix_of(b.skip(p)) implies false by {
                    match x {
                        ChangeLogData::Compress { storage, account, signature } => {
                            lemma_prefix_parts(storage@, account.spec_bytes() + signature@, b.skip(p + 1));
                            assert(b.skip(p + 1).skip(32) =~= b.skip(e1 as int));
                            lemma_prefix_parts(account.spec_bytes(), signature@, b.skip(e1 as int));
                        },
                        ChangeLogData::Decompress { storage, account, signature } => {
                            lemma_prefix_parts(storage@, account.spec_bytes() + signature@, b.skip(p + 1));
                            assert(b.skip(p + 1).skip(32) =~= b.skip(e1 as int));
                            lemma_prefix_parts(account.spec_bytes(), signature@, b.skip(e1 as int));
                        },
                        _ => {},
                    }
                }
            }
            return Err(err);
        },
    };
    let (signature, e3) = match read_sig_at(buf, e2) {
        Ok(v) => v,
        Err(err) => {
            proof {
                assert forall|x: ChangeLogData| #[trigger] x.spec_bytes().is_prefix_of(b.skip(p)) implies false by {
                    match x {
                        ChangeLogData::Compress { storage, account: y, signature } => {
                            lemma_prefix_parts(storage@, y.spec_bytes() + signature@, b.skip(p + 1));
                            assert(b.skip(p + 1).skip(32) =~= b.skip(e1 as int));
                            lemma_read_account_is(b, e1 as int, e2 as int, account, y, signature@);
                        },
                        ChangeLogData::Decompress { storage, account: y, signature } => {
                            lemma_prefix_parts(storage@, y.spec_bytes() + signature@, b.skip(p + 1));
                            assert(b.skip(p + 1).skip(32) =~= b.skip(e1 as int));
                            lemma_read_account_is(b, e1 as int, e2 as int, account, y, signature@);
                        },
                        _ => {},
                    }
                }
            }
            return Err(err);
        },
    };
    let d = if tag == 1 {
        ChangeLogData::Compress { storage, account, signature }
    } else {
        ChangeLogData::Decompress { storage, account, signature }
    };
    assert(d.spec_bytes() =~= b.subrange(p, e3 as int));
    Ok((d, e3))
}

#[verifier::spinoff_prover]
fn read_account_move(buf: &[u8], pos: usize) -> (r: Result<(ChangeLogData, usize), CodecError>)
    requires
        pos < buf@.len(),
        buf@[pos as int] == 3 || buf@[pos as int] == 4 || buf@[pos as int] == 6,
    ensures
        r matches Ok((v, e)) ==> pos <= e <= buf@.len() && v.spec_bytes() == buf@.subrange(
            pos as int,
            e as int,
        ),
        forall|x: ChangeLogData| #[trigger] x.spec_bytes().is_prefix_of(buf@.skip(pos as int)) ==> r is Ok,
        r is Err ==> r == Err::<(ChangeLogData, usize), CodecError>(CodecError::UnexpectedEnd) || r
            == Err::<(ChangeLogData, usize), CodecError>(CodecError::InvalidData),
{
    let ghost b = buf@;
    let ghost p = pos as int;
    let tag = buf[pos];
    let p1 = pos + 1;
    proof {
        assert forall|x: ChangeLogData| #[trigger] x.spec_bytes().is_prefix_of(b.skip(p)) implies (
        x.spec_bytes()[0] == tag && x.spec_bytes().drop_first().is_prefix_of(b.skip(p + 1))) by {
            lemma_data_prefix(x, b, p);
        }
    }
    let (account, e1) = match read_virtual_account(buf, p1) {
        Ok(v) => v,
        Err(err) => {
            proof {
                assert forall|x: ChangeLogData| #[trigger] x.spec_bytes().is_prefix_of(b.skip(p)) implies false by {
                    match x {
                        ChangeLogData::Transfer { src, dst, amount } => {
                            lemma_prefix_parts(src.spec_bytes(), dst@ + enc_u64(amount), b.skip(p + 1));
                        },
                        ChangeLogData::Withdraw { src, dst } => {
                            lemma_prefix_parts(src.spec_bytes(), dst@, b.skip(p + 1));
                        },
                        ChangeLogData::TimelockDeposit { account, amount } => {
                            lemma_prefix_parts(account.spec_bytes(), enc_u64(amount), b.skip(p + 1));
                        },
                        _ => {},
                    }
                }
            }
            return Err(err);
        },
    };
    if tag == 6 {
        let (amount, e2) = match read_u64_at(buf, e1) {
            Ok(v) => v,
            Err(err) => {
                proof {
                    assert forall|x: ChangeLogData| #[trigger] x.spec_bytes().is_prefix_of(b.skip(p)) implies false by {
                        if let ChangeLogData::TimelockDeposit { account: y, amount } = x {
                            lemma_read_account_is(b, p + 1, e1 as int, account, y, enc_u64(amount));
                        }
                    }
                }
                return Err(err);
            },
        };
        let d = ChangeLogData::TimelockDeposit { account, amount };
        assert(d.spec_bytes() =~= b.subrange(p, e2 as int));
        return Ok((d, e2));
    }
    let (dst, e2) = match read_key_at(buf, e1) {
        Ok(v) => v,
        Err(err) => {
            proof {
                assert forall|x: ChangeLogData| #[trigger] x.spec_bytes().is_prefix_of(b.skip(p)) implies false by {
                    match x {
                        ChangeLogData::Transfer { src, dst, amount } => {
                            lemma_read_account_is(b, p + 1, e1 as int, account, src, dst@ + enc_u64(amount));
                            lemma_prefix_parts(dst@, enc_u64(amount), b.skip(e1 as int));
                        },
                        ChangeLogData::Withdraw { src, dst } => {
                            lemma_read_account_is(b, p + 1, e1 as int, account, src, dst@);
                        },
                        _ => {},
                    }
                }
            }
            return Err(err);
        },
    };
    if tag == 4 {
        let d = ChangeLogData::Withdraw { src: account, dst };
        assert(d.spec_bytes() =~= b.subrange(p, e2 as int));
        return Ok((d, e2));
    }
    let (amount, e3) = match read_u64_at(buf, e2) {
        Ok(v) => v,
        Err(err) => {
            proof {
                assert forall|x: ChangeLogData| #[trigger] x.spec_bytes().is_prefix_of(b.skip(p)) implies false by {
                    if let ChangeLogData::Transfer { src, dst: k, amount } = x {
                        lemma_read_account_is(b, p + 1, e1 as int, account, src, k@ + enc_u64(amount));
                        lemma_prefix_parts(k@, enc_u64(amount), b.skip(e1 as int));
                        assert(b.skip(e1 as int).skip(32) =~= b.skip(e2 as int));
                    }
                }
            }
            return Err(err);
        },
    };
    let d = ChangeLogData::Transfer { src: account, dst, amount };
    assert(d.spec_bytes() =~= b.subrange(p, e3 as int));
    Ok((d, e3))
}

#[verifier::spinoff_prover]
fn read_timelock_event(buf: &[u8], pos: usize) -> (r: Result<(ChangeLogData, usize), CodecError>)
    requires
        pos < buf@.len(),
        buf@[pos as int] == 5 || buf@[pos as int] == 7,
    ensures
        r matches Ok((v, e)) ==> pos <= e <= buf@.len() && v.spec_bytes() == buf@.subrange(
            pos as int,
            e as int,
        ),
        forall|x: ChangeLogData| #[trigger] x.spec_bytes().is_prefix_of(buf@.skip(pos as int)) ==> r is Ok,
        r is Err ==> r == Err::<(ChangeLogData, usize), CodecError>(CodecError::UnexpectedEnd) || r
            == Err::<(ChangeLogData, usize), CodecError>(CodecError::InvalidData),
{
    let ghost b = buf@;
    let ghost p = pos as int;
    let tag = buf[pos];
    let p1 = pos + 1;
    proof {
        assert forall|x: ChangeLogData| #[trigger] x.spec_bytes().is_prefix_of(b.skip(p)) implies (
        x.spec_bytes()[0] == tag && x.spec_bytes().drop_first().is_prefix_of(b.skip(p + 1))) by {
            lemma_data_prefix(x, b, p);
        }
    }
    let (first, e1) = match read_key_at(buf, p1) {
        Ok(v) => v,
        Err(err) => {
            proof {
                assert forall|x: ChangeLogData| #[trigger] x.spec_bytes().is_prefix_of(b.skip(p)) implies false by {
                    match x {
                        ChangeLogData::TimelockUnlock { address, owner } => {
                            lemma_prefix_parts(address@, owner@, b.skip(p + 1));
                        },
                        ChangeLogData::TimelockWithdraw { owner, dst, amount } => {
                            lemma_prefix_parts(owner@, dst@ + enc_u64(amount), b.skip(p + 1));
                        },
                        _ => {},
                    }
                }
            }
            return Err(err);
        },
    };
    let (second, e2) = match read_key_at(buf, e1) {
        Ok(v) => v,
        Err(err) => {
            proof {
                assert forall|x: ChangeLogData| #[trigger] x.spec_bytes().is_prefix_of(b.skip(p)) implies false by {
                    assert(b.skip(p + 1).skip(32) =~= b.skip(e1 as int));
                    match x {
                        ChangeLogData::TimelockUnlock { address, owner } => {
                            lemma_prefix_parts(address@, owner@, b.skip(p + 1));
                        },
                        ChangeLogData::TimelockWithdraw { owner, dst, amount } => {
                            lemma_prefix_parts(owner@, dst@ + enc_u64(amount), b.skip(p + 1));
                            lemma_prefix_parts(dst@, enc_u64(amount), b.skip(e1 as int));
                        },
                        _ => {},
                    }
                }
            }
            return Err(err);
        },
    };
    if tag == 5 {
        let d = ChangeLogData::TimelockUnlock { address: first, owner: second };
        assert(d.spec_bytes() =~= b.subrange(p, e2 as int));
        return Ok((d, e2));
    }
    let (amount, e3) = match read_u64_at(buf, e2) {
        Ok(v) => v,
        Err(err) => {
            proof {
                assert forall|x: ChangeLogData| #[trigger] x.spec_bytes().is_prefix_of(b.skip(p)) implies false by {
                    if let ChangeLogData::TimelockWithdraw { owner, dst, amount } = x {
                        lemma_prefix_parts(owner@, dst@ + enc_u64(amount), b.skip(p + 1));
                        assert(b.skip(p + 1).skip(32) =~= b.skip(e1 as int));
                        lemma_prefix_parts(dst@, enc_u64(amount), b.skip(e1 as int));
                        assert(b.skip(e1 as int).skip(32) =~= b.skip(e2 as int));
                    }
                }
            }
            return Err(err);
        },
    };
    let d = ChangeLogData::TimelockWithdraw { owner: first, dst: second, amount };
    assert(d.spec_bytes() =~= b.subrange(p, e3 as int));
    Ok((d, e3))
}

/// Reads change-log data at `pos`; on success also returns the position
/// just past it.
pub fn read_changelog_data(buf: &[u8], pos: usize) -> (r: Result<(ChangeLogData, usize), CodecError>)
    requires
        pos <= buf@.len(),
    ensures
        r matches Ok((v, e)) ==> pos <= e <= buf@.len() && v.spec_bytes() == buf@.subrange(
            pos as int,
            e as int,
        ),
        forall|x: ChangeLogData| #[trigger] x.spec_bytes().is_prefix_of(buf@.skip(pos as int)) ==> r is Ok,
        r is Err ==> r == Err::<(ChangeLogData, usize), CodecError>(CodecError::UnexpectedEnd) || r
            == Err::<(ChangeLogData, usize), CodecError>(CodecError::InvalidData),
{
    proof {
        assert forall|x: ChangeLogData| #[trigger] x.spec_bytes().is_prefix_of(buf@.skip(pos as int)) implies pos
            < buf@.len() && buf@[pos as int] == x.spec_bytes()[0] by {
            lemma_data_prefix(x, buf@, pos as int);
        }
    }
    if pos >= buf.len() {
        return Err(CodecError::UnexpectedEnd);
    }
    let tag = buf[pos];
    if tag == 0 {
        read_create(buf, pos)
    } else if tag == 1 || tag == 2 {
        read_storage_move(buf, pos)
    } else if tag == 3 || tag == 4 || tag == 6 {
        read_account_move(buf, pos)
    } else if tag == 5 || tag == 7 {
        read_timelock_event(buf, pos)
    } else {
        Err(CodecError::InvalidData)
    }
}

impl ChangeLogData {
    /// The variant's index, which leads the encoding.
    pub open spec fn tag(self) -> u8 {
        match self {
            ChangeLogData::Create(_) => 0,
            ChangeLogData::Compress { .. } => 1,
            ChangeLogData::Decompress { .. } => 2,
            ChangeLogData::Transfer { .. } => 3,
            ChangeLogData::Withdraw { .. } => 4,
            ChangeLogData::TimelockUnlock { .. } => 5,
            ChangeLogData::TimelockDeposit { .. } => 6,
            ChangeLogData::TimelockWithdraw { .. } => 7,
        }
    }

    /// The encoding after the tag.
    pub open spec fn field_bytes(self) -> Seq<u8> {
        match self {
            ChangeLogData::Create(a) => a.spec_bytes(),
            ChangeLogData::Compress { storage, account, signature } => storage@ + (
            account.spec_bytes() + signature@),
            ChangeLogData::Decompress { storage, account, signature } => storage@ + (
            account.spec_bytes() + signature@),
            ChangeLogData::Transfer { src, dst, amount } => src.spec_bytes() + (dst@ + enc_u64(
                amount,
            )),
            ChangeLogData::Withdraw { src, dst } => src.spec_bytes() + dst@,
            ChangeLogData::TimelockUnlock { address, owner } => address@ + owner@,
            ChangeLogData::TimelockDeposit { account, amount } => account.spec_bytes() + enc_u64(
                amount,
            ),
            ChangeLogData::TimelockWithdraw { owner, dst, amount } => owner@ + (dst@ + enc_u64(
                amount,
            )),
        }
    }
}

proof fn lemma_tag_fields(d: ChangeLogData)
    ensures
        d.spec_bytes() == seq![d.tag()] + d.field_bytes(),
{
}

proof fn lemma_storage_unique(
    s1: Pubkey,
    x: VirtualAccount,
    g1: Signature,
    s2: Pubkey,
    y: VirtualAccount,
    g2: Signature,
    ta: Seq<u8>,
    tb: Seq<u8>,
)
    requires
        (s1@ + (x.spec_bytes() + g1@)) + ta == (s2@ + (y.spec_bytes() + g2@)) + tb,
    ensures
        s1 == s2,
        x == y,
        g1 == g2,
        ta == tb,
{
    assert((s1@ + (x.spec_bytes() + g1@)) + ta =~= s1@ + (x.spec_bytes() + (g1@ + ta)));
    assert((s2@ + (y.spec_bytes() + g2@)) + tb =~= s2@ + (y.spec_bytes() + (g2@ + tb)));
    lemma_split_prefix(s1@, s2@, x.spec_bytes() + (g1@ + ta), y.spec_bytes() + (g2@ + tb));
    lemma_array_ext(s1, s2);
    lemma_account_unique(x, y, g1@ + ta, g2@ + tb);
    lemma_split_prefix(g1@, g2@, ta, tb);
    lemma_signature_ext(g1, g2);
}

proof fn lemma_transfer_unique(
    x: VirtualAccount,
    d1: Pubkey,
    m1: u64,
    y: VirtualAccount,
    d2: Pubkey,
    m2: u64,
    ta: Seq<u8>,
    tb: Seq<u8>,
)
    requires
        (x.spec_bytes() + (d1@ + enc_u64(m1))) + ta == (y.spec_bytes() + (d2@ + enc_u64(m2))) + tb,
    ensures
        x == y,
        d1 == d2,
        m1 == m2,
        ta == tb,
{
    lemma_le_bytes();
    lemma_enc_injective();
    assert((x.spec_bytes() + (d1@ + enc_u64(m1))) + ta =~= x.spec_bytes() + (d1@ + (enc_u64(m1) + ta)));
    assert((y.spec_bytes() + (d2@ + enc_u64(m2))) + tb =~= y.spec_bytes() + (d2@ + (enc_u64(m2) + tb)));
    lemma_account_unique(x, y, d1@ + (enc_u64(m1) + ta), d2@ + (enc_u64(m2) + tb));
    lemma_split_prefix(d1@, d2@, enc_u64(m1) + ta, enc_u64(m2) + tb);
    lemma_array_ext(d1, d2);
    lemma_split_prefix(enc_u64(m1), enc_u64(m2), ta, tb);
}

proof fn lemma_withdraw_unique(x: VirtualAccount, d1: Pubkey, y: VirtualAccount, d2: Pubkey, ta: Seq<u8>, tb: Seq<u8>)
    requires
        (x.spec_bytes() + d1@) + ta == (y.spec_bytes() + d2@) + tb,
    ensures
        x == y,
        d1 == d2,
        ta == tb,
{
    assert((x.spec_bytes() + d1@) + ta =~= x.spec_bytes() + (d1@ + ta));
    assert((y.spec_bytes() + d2@) + tb =~= y.spec_bytes() + (d2@ + tb));
    lemma_account_unique(x, y, d1@ + ta, d2@ + tb);
    lemma_split_prefix(d1@, d2@, ta, tb);
    lemma_array_ext(d1, d2);
}

proof fn lemma_key_pair_unique(a1: Pubkey, o1: Pubkey, a2: Pubkey, o2: Pubkey, ta: Seq<u8>, tb: Seq<u8>)
    requires
        (a1@ + o1@) + ta == (a2@ + o2@) + tb,
    ensures
        a1 == a2,
        o1 == o2,
        ta == tb,
{
    assert((a1@ + o1@) + ta =~= a1@ + (o1@ + ta));
    assert((a2@ + o2@) + tb =~= a2@ + (o2@ + tb));
    lemma_split_prefix(a1@, a2@, o1@ + ta, o2@ + tb);
    lemma_split_prefix(o1@, o2@, ta, tb);
    lemma_array_ext(a1, a2);
    lemma_array_ext(o1, o2);
}

proof fn lemma_deposit_unique(x: VirtualAccount, m1: u64, y: VirtualAccount, m2: u64, ta: Seq<u8>, tb: Seq<u8>)
    requires
        (x.spec_bytes() + enc_u64(m1)) + ta == (y.spec_bytes() + enc_u64(m2)) + tb,
    ensures
        x == y,
        m1 == m2,
        ta == tb,
{
    lemma_le_bytes();
    lemma_enc_injective();
    assert((x.spec_bytes() + enc_u64(m1)) + ta =~= x.spec_bytes() + (enc_u64(m1) + ta));
    assert((y.spec_bytes() + enc_u64(m2)) + tb =~= y.spec_bytes() + (enc_u64(m2) + tb));
    lemma_account_unique(x, y, enc_u64(m1) + ta, enc_u64(m2) + tb);
    lemma_split_prefix(enc_u64(m1), enc_u64(m2), ta, tb);
}

proof fn lemma_timelock_withdraw_unique(
    o1: Pubkey,
    d1: Pubkey,
    m1: u64,
    o2: Pubkey,
    d2: Pubkey,
    m2: u64,
    ta: Seq<u8>,
    tb: Seq<u8>,
)
    requires
        (o1@ + (d1@ + enc_u64(m1))) + ta == (o2@ + (d2@ + enc_u64(m2))) + tb,
    ensures
        o1 == o2,
        d1 == d2,
        m1 == m2,
        ta == tb,
{
    lemma_le_bytes();
    lemma_enc_injective();
    assert((o1@ + (d1@ + enc_u64(m1))) + ta =~= o1@ + (d1@ + (enc_u64(m1) + ta)));
    assert((o2@ + (d2@ + enc_u64(m2))) + tb =~= o2@ + (d2@ + (enc_u64(m2) + tb)));
    lemma_split_prefix(o1@, o2@, d1@ + (enc_u64(m1) + ta), d2@ + (enc_u64(m2) + tb));
    lemma_split_prefix(d1@, d2@, enc_u64(m1) + ta, enc_u64(m2) + tb);
    lemma_split_prefix(enc_u64(m1), enc_u64(m2), ta, tb);
    lemma_array_ext(o1, o2);
    lemma_array_ext(d1, d2);
}

/// Change-log data is read back from its encoding, whatever follows.
pub proof fn lemma_data_unique(a: ChangeLogData, b: ChangeLogData, ta: Seq<u8>, tb: Seq<u8>)
    requires
        a.spec_bytes() + ta == b.spec_bytes() + tb,
    ensures
        a == b,
        ta == tb,
{
    lemma_tag_fields(a);
    lemma_tag_fields(b);
    let sa = a.spec_bytes();
    let sb = b.spec_bytes();
    assert((sa + ta)[0] == a.tag());
    assert((sb + tb)[0] == b.tag());
    let ra = a.field_bytes() + ta;
    let rb = b.field_bytes() + tb;
    assert(ra =~= (sa + ta).drop_first());
    assert(rb =~= (sb + tb).drop_first());
    assert(ra == rb);
    match a {
        ChangeLogData::Create(x) => {
            if let ChangeLogData::Create(y) = b {
                lemma_account_unique(x, y, ta, tb);
            }
        },
        ChangeLogData::Compress { storage: s1, account: x, signature: g1 } => {
            if let ChangeLogData::Compress { storage: s2, account: y, signature: g2 } = b {
                lemma_storage_unique(s1, x, g1, s2, y, g2, ta, tb);
            }
        },
        ChangeLogData::Decompress { storage: s1, account: x, signature: g1 } => {
            if let ChangeLogData::Decompress { storage: s2, account: y, signature: g2 } = b {
                lemma_storage_unique(s1, x, g1, s2, y, g2, ta, tb);
            }
        },
        ChangeLogData::Transfer { src: x, dst: d1, amount: m1 } => {
            if let ChangeLogData::Transfer { src: y, dst: d2, amount: m2 } = b {
                lemma_transfer_unique(x, d1, m1, y, d2, m2, ta, tb);
            }
        },
        ChangeLogData::Withdraw { src: x, dst: d1 } => {
            if let ChangeLogData::Withdraw { src: y, dst: d2 } = b {
                lemma_withdraw_unique(x, d1, y, d2, ta, tb);
            }
        },
        ChangeLogData::TimelockUnlock { address: a1, owner: o1 } => {
            if let ChangeLogData::TimelockUnlock { address: a2, owner: o2 } = b {
                lemma_key_pair_unique(a1, o1, a2, o2, ta, tb);
            }
        },
        ChangeLogData::TimelockDeposit { account: x, amount: m1 } => {
            if let ChangeLogData::TimelockDeposit { account: y, amount: m2 } = b {
                lemma_deposit_unique(x, m1, y, m2, ta, tb);
            }
        },
        ChangeLogData::TimelockWithdraw { owner: o1, dst: d1, amount: m1 } => {
            if let ChangeLogData::TimelockWithdraw { owner: o2, dst: d2, amount: m2 } = b {
                lemma_timelock_withdraw_unique(o1, d1, m1, o2, d2, m2, ta, tb);
            }
        },
    }
}

/// An event the VM records.
#[derive(Clone, Copy, Debug, PartialEq, Eq)]
pub struct ChangeLogEvent {
    /// The proof-of-history hash of the event.
    pub id: hash::Hash,
    /// The number of successful operations of the VM, so that indexers see
    /// gaps.
    pub seq: u64,
    /// The accounts the event changed, if any.
    pub data: Option<ChangeLogData>,
}

impl ChangeLogEvent {
    /// Borsh encoding: the id, the sequence number, then the data as an
    /// option.
    pub open spec fn spec_bytes(self) -> Seq<u8> {
        self.id@ + (enc_u64(self.seq) + match self.data {
            None => seq![0u8],
            Some(d) => seq![1u8] + d.spec_bytes(),
        })
    }

    /// Where each field lies in the encoding: id in bytes 0..32, seq in bytes 32..40.
    pub proof fn lemma_field_offsets(self)
        ensures
            self.spec_bytes().subrange(0, 32) == self.id@,
            self.spec_bytes().subrange(32, 40) == enc_u64(self.seq),
    {
        crate::codec::lemma_le_bytes();
        vstd::bytes::lemma_auto_spec_u64_to_from_le_bytes();
        assert(self.spec_bytes().subrange(0, 32) =~= self.id@);
        assert(self.spec_bytes().subrange(32, 40) =~= enc_u64(self.seq));
    }

    /// Appends the encoding to `w`.
    pub fn pack(&self, w: &mut Vec<u8>)
        ensures
            final(w)@ == old(w)@ + self.spec_bytes(),
    {
        write_bytes(w, self.id.value.as_slice());
        write_u64(w, self.seq);
        match &self.data {
            None => w.push(0),
            Some(d) => {
                w.push(1);
                d.pack(w);
            },
        }
        assert(final(w)@ =~= old(w)@ + self.spec_bytes());
    }

    /// The encoding.
    pub fn to_bytes(&self) -> (r: Vec<u8>)
        ensures
            r@ == self.spec_bytes(),
    {
        let mut w: Vec<u8> = Vec::new();
        self.pack(&mut w);
        w
    }

    /// Reads an event from all of `buf`: it succeeds exactly where `buf` is
    /// the encoding of an event; otherwise the input ends early
    /// (`UnexpectedEnd`), or holds an unknown tag or bytes left over
    /// (`InvalidData`).
    pub fn unpack(buf: &[u8]) -> (r: Result<Self, CodecError>)
        ensures
            r matches Ok(x) ==> x.spec_bytes() == buf@,
            (exists|x: Self| #[trigger] x.spec_bytes() == buf@) ==> r is Ok,
            r is Err ==> r == Err::<Self, CodecError>(CodecError::UnexpectedEnd) || r == Err::<
                Self,
                CodecError,
            >(CodecError::InvalidData),
    {
        let ghost b = buf@;
        proof {
            lemma_le_bytes();
        }
        let (id_bytes, e1) = match read_key_at(buf, 0) {
            Ok(v) => v,
            Err(err) => {
                proof {
                    assert forall|x: Self| #[trigger] x.spec_bytes() == b implies false by {
                        assert(x.id.value@ =~= b.take(32));
                        assert(x.id.value@.is_prefix_of(b.skip(0)));
                    }
                }
                return Err(err);
            },
        };
        let (seq, e2) = match read_u64_at(buf, e1) {
            Ok(v) => v,
            Err(err) => {
                proof {
                    assert forall|x: Self| #[trigger] x.spec_bytes() == b implies false by {
                        assert(enc_u64(x.seq) =~= b.subrange(32, 40));
                        assert(enc_u64(x.seq).is_prefix_of(b.skip(32)));
                    }
                }
                return Err(err);
            },
        };
        let id = hash::Hash { value: id_bytes };
        proof {
            assert forall|x: Self| #[trigger] x.spec_bytes() == b implies b.len() > 40 && b[40] == (if x.data is None {
                0u8
            } else {
                1u8
            }) && x.id == id && x.seq == seq by {
                assert(x.id@ =~= b.subrange(0, 32));
                lemma_hash_ext(x.id, id);
                assert(enc_u64(x.seq) =~= b.subrange(32, 40));
                lemma_enc_injective();
            }
        }
        if e2 >= buf.len() {
            return Err(CodecError::UnexpectedEnd);
        }
        let flag = buf[e2];
        if flag == 0 {
            if buf.len() != e2 + 1 {
                return Err(CodecError::InvalidData);
            }
            let x = ChangeLogEvent { id, seq, data: None };
            assert(x.spec_bytes() =~= b);
            Ok(x)
        } else if flag == 1 {
            let (d, e3) = match read_changelog_data(buf, e2 + 1) {
                Ok(v) => v,
                Err(err) => {
                    proof {
                        assert forall|x: Self| #[trigger] x.spec_bytes() == b implies false by {
                            assert(b.len() > 40 && b[40] == (if x.data is None { 0u8 } else { 1u8 }));
                            if let Some(dx) = x.data {
                                assert(dx.spec_bytes() =~= b.skip(41));
                                assert(dx.spec_bytes().is_prefix_of(b.skip((e2 + 1) as int)));
                            }
                        }
                    }
                    return Err(err);
                },
            };
            proof {
                assert forall|x: Self| #[trigger] x.spec_bytes() == b implies e3 == b.len() by {
                    if let Some(dx) = x.data {
                        assert(dx.spec_bytes() + Seq::<u8>::empty() =~= b.skip(41));
                        assert(d.spec_bytes() + b.skip(e3 as int) =~= b.skip(41));
                        lemma_data_unique(dx, d, Seq::<u8>::empty(), b.skip(e3 as int));
                    }
                }
            }
            if e3 != buf.len() {
                return Err(CodecError::InvalidData);
            }
            let x = ChangeLogEvent { id, seq, data: Some(d) };
            assert(x.spec_bytes() =~= b);
            Ok(x)
        } else {
            Err(CodecError::InvalidData)
        }
    }
}

/// An event is fixed by its encoding: `unpack` gives back what `to_bytes`
/// wrote.
pub proof fn lemma_event_roundtrip(a: ChangeLogEvent, b: ChangeLogEvent)
    requires
        a.spec_bytes() == b.spec_bytes(),
    ensures
        a == b,
{
    lemma_le_bytes();
    lemma_enc_injective();
    let s = a.spec_bytes();
    assert(a.id@ =~= s.subrange(0, 32));
    assert(b.id@ =~= s.subrange(0, 32));
    lemma_hash_ext(a.id, b.id);
    assert(enc_u64(a.seq) =~= s.subrange(32, 40));
    assert(enc_u64(b.seq) =~= s.subrange(32, 40));
    match (a.data, b.data) {
        (Some(x), Some(y)) => {
            assert(x.spec_bytes() + Seq::<u8>::empty() =~= s.skip(41));
            assert(y.spec_bytes() + Seq::<u8>::empty() =~= s.skip(41));
            lemma_data_unique(x, y, Seq::<u8>::empty(), Seq::<u8>::empty());
        },
        _ => {
            assert(s[40] == b.spec_bytes()[40]);
        },
    }
}

} // verus!
