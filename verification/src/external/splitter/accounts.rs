//! Accounts of the splitter program.
use vstd::prelude::*;

use crate::codec::{enc_string, enc_vec32, lemma_split_prefix, lemma_vec32_prefix_unique, write_array32, write_array8, write_string, write_u8, write_vec32, read_discriminator, CodecError};
use crate::fields::{bool_field, enc_bool, enc_u8, key_field, lemma_bool_unique, lemma_key_unique, lemma_prefix_split, lemma_string_unique, lemma_u8_unique, string_field, u8_field, vec32_field};
use crate::types::Pubkey;
use vstd::utf8::encode_utf8;
use super::typedefs::{DataVersion, MerkleTree};

verus! {

/// State of a pool account.
#[derive(Clone, Debug, PartialEq, Eq)]
pub struct Pool {
    pub data_version: DataVersion,
    pub authority: Pubkey,
    pub mint: Pubkey,
    pub vault: Pubkey,
    pub vault_bump: u8,
    pub name: String,
    pub history_list: Vec<[u8; 32]>,
    pub current_index: u8,
    pub merkle_tree: MerkleTree,
}

impl Pool {
    /// Borsh encoding: the fields in order.
    pub open spec fn spec_bytes(self) -> Seq<u8> {
        self.data_version.spec_bytes() + (self.authority@ + (self.mint@ + (self.vault@ + (enc_u8(self.vault_bump) + (enc_string(self.name@) + (enc_vec32(self.history_list@) + (enc_u8(self.current_index) + self.merkle_tree.spec_bytes())))))))
    }

    /// Where the leading fields lie in the encoding: the data version's tag
    /// at byte 0, the authority in 1..33, the mint in 33..65, the vault in
    /// 65..97, the vault bump at 97, then the name with its `u32` length and
    /// the fields after it.
    pub proof fn lemma_field_offsets(self)
        ensures
            self.spec_bytes()[0] == self.data_version.tag(),
            self.spec_bytes().subrange(1, 33) == self.authority@,
            self.spec_bytes().subrange(33, 65) == self.mint@,
            self.spec_bytes().subrange(65, 97) == self.vault@,
            self.spec_bytes()[97] == self.vault_bump,
            self.spec_bytes().subrange(98, 98 + enc_string(self.name@).len() as int) == enc_string(self.name@),
    {
        let b = self.spec_bytes();
        assert(b.subrange(1, 33) =~= self.authority@);
        assert(b.subrange(33, 65) =~= self.mint@);
        assert(b.subrange(65, 97) =~= self.vault@);
        assert(b.subrange(98, 98 + enc_string(self.name@).len() as int) =~= enc_string(self.name@));
    }

    /// Every length prefix fits in a `u32`.
    pub open spec fn serializable(self) -> bool {
        encode_utf8(self.name@).len() <= u32::MAX && self.history_list@.len() <= u32::MAX && self.merkle_tree.serializable()
    }

    /// Both hold the same values.
    pub open spec fn same(self, other: Self) -> bool {
        self.data_version == other.data_version
        && self.authority == other.authority
        && self.mint == other.mint
        && self.vault == other.vault
        && self.vault_bump == other.vault_bump
        && self.name@ == other.name@
        && self.history_list@ == other.history_list@
        && self.current_index == other.current_index
        && self.merkle_tree.same(other.merkle_tree)
    }

    /// Reads the value at `pos` as a field of a larger value: it succeeds
    /// exactly where the encoding of some value opens the bytes there, and
    /// gives that value.
    #[verifier::spinoff_prover]
    #[verifier::rlimit(50)]
    pub fn read_field(buf: &[u8], pos: usize) -> (r: Result<(Self, usize), CodecError>)
        requires
            pos <= buf@.len(),
        ensures
            r matches Ok((v, e)) ==> pos <= e <= buf@.len() && v.serializable() && v.spec_bytes() == buf@.subrange(
                pos as int,
                e as int,
            ),
            forall|x: Self| x.serializable() && #[trigger] x.spec_bytes().is_prefix_of(buf@.skip(pos as int)) ==> (r matches Ok(
                (v, e),
            ) && v.same(x) && e == pos + x.spec_bytes().len()),
            r is Err ==> r == Err::<(Self, usize), CodecError>(CodecError::UnexpectedEnd) || r == Err::<(Self, usize), CodecError>(
                CodecError::InvalidData,
            ),
    {
        let ghost b = buf@;
        let ghost p0 = pos as int;
        proof {
            assert forall|x: Self| x.serializable() && #[trigger] x.spec_bytes().is_prefix_of(b.skip(p0)) implies x.data_version.spec_bytes().is_prefix_of(
                b.skip(p0),
            ) && (x.authority@ + (x.mint@ + (x.vault@ + (enc_u8(x.vault_bump) + (enc_string(x.name@) + (enc_vec32(x.history_list@) + (enc_u8(x.current_index) + x.merkle_tree.spec_bytes()))))))).is_prefix_of(b.skip(p0 + x.data_version.spec_bytes().len())) by {
                lemma_prefix_split(x.data_version.spec_bytes(), x.authority@ + (x.mint@ + (x.vault@ + (enc_u8(x.vault_bump) + (enc_string(x.name@) + (enc_vec32(x.history_list@) + (enc_u8(x.current_index) + x.merkle_tree.spec_bytes())))))), b, p0);
            }
        }
        let (data_version, e_data_version) = match DataVersion::read_field(buf, pos) {
            Ok(t) => t,
            Err(err) => {
                return Err(err);
            },
        };
        proof {
            assert forall|x: Self| x.serializable() && #[trigger] x.spec_bytes().is_prefix_of(b.skip(p0)) implies data_version == x.data_version
                && e_data_version == p0 + x.data_version.spec_bytes().len() && (x.authority@ + (x.mint@ + (x.vault@ + (enc_u8(x.vault_bump) + (enc_string(x.name@) + (enc_vec32(x.history_list@) + (enc_u8(x.current_index) + x.merkle_tree.spec_bytes()))))))).is_prefix_of(b.skip(e_data_version as int)) by {
            }
        }
        proof {
            assert forall|x: Self| x.serializable() && #[trigger] x.spec_bytes().is_prefix_of(b.skip(p0)) implies x.authority@.is_prefix_of(
                b.skip(e_data_version as int),
            ) && (x.mint@ + (x.vault@ + (enc_u8(x.vault_bump) + (enc_string(x.name@) + (enc_vec32(x.history_list@) + (enc_u8(x.current_index) + x.merkle_tree.spec_bytes())))))).is_prefix_of(b.skip(e_data_version as int + x.authority@.len())) by {
                lemma_prefix_split(x.authority@, x.mint@ + (x.vault@ + (enc_u8(x.vault_bump) + (enc_string(x.name@) + (enc_vec32(x.history_list@) + (enc_u8(x.current_index) + x.merkle_tree.spec_bytes()))))), b, e_data_version as int);
            }
        }
        let (authority, e_authority) = match key_field(buf, e_data_version) {
            Ok(t) => t,
            Err(err) => {
                return Err(err);
            },
        };
        proof {
            assert forall|x: Self| x.serializable() && #[trigger] x.spec_bytes().is_prefix_of(b.skip(p0)) implies authority == x.authority
                && e_authority == e_data_version as int + x.authority@.len() && (x.mint@ + (x.vault@ + (enc_u8(x.vault_bump) + (enc_string(x.name@) + (enc_vec32(x.history_list@) + (enc_u8(x.current_index) + x.merkle_tree.spec_bytes())))))).is_prefix_of(b.skip(e_authority as int)) by {
            }
        }
        proof {
            assert forall|x: Self| x.serializable() && #[trigger] x.spec_bytes().is_prefix_of(b.skip(p0)) implies x.mint@.is_prefix_of(
                b.skip(e_authority as int),
            ) && (x.vault@ + (enc_u8(x.vault_bump) + (enc_string(x.name@) + (enc_vec32(x.history_list@) + (enc_u8(x.current_index) + x.merkle_tree.spec_bytes()))))).is_prefix_of(b.skip(e_authority as int + x.mint@.len())) by {
                lemma_prefix_split(x.mint@, x.vault@ + (enc_u8(x.vault_bump) + (enc_string(x.name@) + (enc_vec32(x.history_list@) + (enc_u8(x.current_index) + x.merkle_tree.spec_bytes())))), b, e_authority as int);
            }
        }
        let (mint, e_mint) = match key_field(buf, e_authority) {
            Ok(t) => t,
            Err(err) => {
                return Err(err);
            },
        };
        proof {
            assert forall|x: Self| x.serializable() && #[trigger] x.spec_bytes().is_prefix_of(b.skip(p0)) implies mint == x.mint
                && e_mint == e_authority as int + x.mint@.len() && (x.vault@ + (enc_u8(x.vault_bump) + (enc_string(x.name@) + (enc_vec32(x.history_list@) + (enc_u8(x.current_index) + x.merkle_tree.spec_bytes()))))).is_prefix_of(b.skip(e_mint as int)) by {
            }
        }
        proof {
            assert forall|x: Self| x.serializable() && #[trigger] x.spec_bytes().is_prefix_of(b.skip(p0)) implies x.vault@.is_prefix_of(
                b.skip(e_mint as int),
            ) && (enc_u8(x.vault_bump) + (enc_string(x.name@) + (enc_vec32(x.history_list@) + (enc_u8(x.current_index) + x.merkle_tree.spec_bytes())))).is_prefix_of(b.skip(e_mint as int + x.vault@.len())) by {
                lemma_prefix_split(x.vault@, enc_u8(x.vault_bump) + (enc_string(x.name@) + (enc_vec32(x.history_list@) + (enc_u8(x.current_index) + x.merkle_tree.spec_bytes()))), b, e_mint as int);
            }
        }
        let (vault, e_vault) = match key_field(buf, e_mint) {
            Ok(t) => t,
            Err(err) => {
                return Err(err);
            },
        };
        proof {
            assert forall|x: Self| x.serializable() && #[trigger] x.spec_bytes().is_prefix_of(b.skip(p0)) implies vault == x.vault
                && e_vault == e_mint as int + x.vault@.len() && (enc_u8(x.vault_bump) + (enc_string(x.name@) + (enc_vec32(x.history_list@) + (enc_u8(x.current_index) + x.merkle_tree.spec_bytes())))).is_prefix_of(b.skip(e_vault as int)) by {
            }
        }
        proof {
            assert forall|x: Self| x.serializable() && #[trigger] x.spec_bytes().is_prefix_of(b.skip(p0)) implies enc_u8(x.vault_bump).is_prefix_of(
                b.skip(e_vault as int),
            ) && (enc_string(x.name@) + (enc_vec32(x.history_list@) + (enc_u8(x.current_index) + x.merkle_tree.spec_bytes()))).is_prefix_of(b.skip(e_vault as int + enc_u8(x.vault_bump).len())) by {
                lemma_prefix_split(enc_u8(x.vault_bump), enc_string(x.name@) + (enc_vec32(x.history_list@) + (enc_u8(x.current_index) + x.merkle_tree.spec_bytes())), b, e_vault as int);
            }
        }
        let (vault_bump, e_vault_bump) = match u8_field(buf, e_vault) {
            Ok(t) => t,
            Err(err) => {
                return Err(err);
            },
        };
        proof {
            assert forall|x: Self| x.serializable() && #[trigger] x.spec_bytes().is_prefix_of(b.skip(p0)) implies vault_bump == x.vault_bump
                && e_vault_bump == e_vault as int + enc_u8(x.vault_bump).len() && (enc_string(x.name@) + (enc_vec32(x.history_list@) + (enc_u8(x.current_index) + x.merkle_tree.spec_bytes()))).is_prefix_of(b.skip(e_vault_bump as int)) by {
            }
        }
        proof {
            assert forall|x: Self| x.serializable() && #[trigger] x.spec_bytes().is_prefix_of(b.skip(p0)) implies enc_string(x.name@).is_prefix_of(
                b.skip(e_vault_bump as int),
            ) && (enc_vec32(x.history_list@) + (enc_u8(x.current_index) + x.merkle_tree.spec_bytes())).is_prefix_of(b.skip(e_vault_bump as int + enc_string(x.name@).len())) by {
                lemma_prefix_split(enc_string(x.name@), enc_vec32(x.history_list@) + (enc_u8(x.current_index) + x.merkle_tree.spec_bytes()), b, e_vault_bump as int);
            }
        }
        let (name, e_name) = match string_field(buf, e_vault_bump) {
            Ok(t) => t,
            Err(err) => {
                return Err(err);
            },
        };
        proof {
            assert forall|x: Self| x.serializable() && #[trigger] x.spec_bytes().is_prefix_of(b.skip(p0)) implies name@ == x.name@
                && e_name == e_vault_bump as int + enc_string(x.name@).len() && (enc_vec32(x.history_list@) + (enc_u8(x.current_index) + x.merkle_tree.spec_bytes())).is_prefix_of(b.skip(e_name as int)) by {
            }
        }
        proof {
            assert forall|x: Self| x.serializable() && #[trigger] x.spec_bytes().is_prefix_of(b.skip(p0)) implies enc_vec32(x.history_list@).is_prefix_of(
                b.skip(e_name as int),
            ) && (enc_u8(x.current_index) + x.merkle_tree.spec_bytes()).is_prefix_of(b.skip(e_name as int + enc_vec32(x.history_list@).len())) by {
                lemma_prefix_split(enc_vec32(x.history_list@), enc_u8(x.current_index) + x.merkle_tree.spec_bytes(), b, e_name as int);
            }
        }
        let (history_list, e_history_list) = match vec32_field(buf, e_name) {
            Ok(t) => t,
            Err(err) => {
                return Err(err);
            },
        };
        proof {
            assert forall|x: Self| x.serializable() && #[trigger] x.spec_bytes().is_prefix_of(b.skip(p0)) implies history_list@ == x.history_list@
                && e_history_list == e_name as int + enc_vec32(x.history_list@).len() && (enc_u8(x.current_index) + x.merkle_tree.spec_bytes()).is_prefix_of(b.skip(e_history_list as int)) by {
            }
        }
        proof {
            assert forall|x: Self| x.serializable() && #[trigger] x.spec_bytes().is_prefix_of(b.skip(p0)) implies enc_u8(x.current_index).is_prefix_of(
                b.skip(e_history_list as int),
            ) && (x.merkle_tree.spec_bytes()).is_prefix_of(b.skip(e_history_list as int + enc_u8(x.current_index).len())) by {
                lemma_prefix_split(enc_u8(x.current_index), x.merkle_tree.spec_bytes(), b, e_history_list as int);
            }
        }
        let (current_index, e_current_index) = match u8_field(buf, e_history_list) {
            Ok(t) => t,
            Err(err) => {
                return Err(err);
            },
        };
        proof {
            assert forall|x: Self| x.serializable() && #[trigger] x.spec_bytes().is_prefix_of(b.skip(p0)) implies current_index == x.current_index
                && e_current_index == e_history_list as int + enc_u8(x.current_index).len() && (x.merkle_tree.spec_bytes()).is_prefix_of(b.skip(e_current_index as int)) by {
            }
        }
        proof {
            assert forall|x: Self| x.serializable() && #[trigger] x.spec_bytes().is_prefix_of(b.skip(p0)) implies x.merkle_tree.spec_bytes().is_prefix_of(
                b.skip(e_current_index as int),
            ) by {
                assert(x.merkle_tree.spec_bytes() + Seq::<u8>::empty() =~= x.merkle_tree.spec_bytes());
                lemma_prefix_split(x.merkle_tree.spec_bytes(), Seq::<u8>::empty(), b, e_current_index as int);
            }
        }
        let (merkle_tree, e_merkle_tree) = match MerkleTree::read_field(buf, e_current_index) {
            Ok(t) => t,
            Err(err) => {
                return Err(err);
            },
        };
        proof {
            assert forall|x: Self| x.serializable() && #[trigger] x.spec_bytes().is_prefix_of(b.skip(p0)) implies merkle_tree.same(x.merkle_tree)
                && e_merkle_tree == e_current_index as int + x.merkle_tree.spec_bytes().len() by {
            }
        }
        let v = Pool { data_version, authority, mint, vault, vault_bump, name, history_list, current_index, merkle_tree };
        proof {
            assert(b.subrange(e_history_list as int, e_merkle_tree as int) =~= b.subrange(e_history_list as int, e_current_index as int) + b.subrange(e_current_index as int, e_merkle_tree as int));
            assert(b.subrange(e_name as int, e_merkle_tree as int) =~= b.subrange(e_name as int, e_history_list as int) + b.subrange(e_history_list as int, e_merkle_tree as int));
            assert(b.subrange(e_vault_bump as int, e_merkle_tree as int) =~= b.subrange(e_vault_bump as int, e_name as int) + b.subrange(e_name as int, e_merkle_tree as int));
            assert(b.subrange(e_vault as int, e_merkle_tree as int) =~= b.subrange(e_vault as int, e_vault_bump as int) + b.subrange(e_vault_bump as int, e_merkle_tree as int));
            assert(b.subrange(e_mint as int, e_merkle_tree as int) =~= b.subrange(e_mint as int, e_vault as int) + b.subrange(e_vault as int, e_merkle_tree as int));
            assert(b.subrange(e_authority as int, e_merkle_tree as int) =~= b.subrange(e_authority as int, e_mint as int) + b.subrange(e_mint as int, e_merkle_tree as int));
            assert(b.subrange(e_data_version as int, e_merkle_tree as int) =~= b.subrange(e_data_version as int, e_authority as int) + b.subrange(e_authority as int, e_merkle_tree as int));
            assert(b.subrange(p0, e_merkle_tree as int) =~= b.subrange(p0, e_data_version as int) + b.subrange(e_data_version as int, e_merkle_tree as int));
            assert(v.spec_bytes() == b.subrange(p0, e_merkle_tree as int));
        }
        Ok((v, e_merkle_tree))
    }

    /// A value is read back from its encoding, whatever follows it.
    #[verifier::spinoff_prover]
    #[verifier::rlimit(50)]
    pub proof fn lemma_unique(x: Self, y: Self, tx: Seq<u8>, ty: Seq<u8>)
        requires
            x.serializable(),
            y.serializable(),
            x.spec_bytes() + tx == y.spec_bytes() + ty,
        ensures
            x.same(y),
            tx == ty,
    {
        assert(x.data_version.spec_bytes() + ((x.authority@ + (x.mint@ + (x.vault@ + (enc_u8(x.vault_bump) + (enc_string(x.name@) + (enc_vec32(x.history_list@) + (enc_u8(x.current_index) + x.merkle_tree.spec_bytes()))))))) + tx) =~= x.spec_bytes() + tx);
        assert(y.data_version.spec_bytes() + ((y.authority@ + (y.mint@ + (y.vault@ + (enc_u8(y.vault_bump) + (enc_string(y.name@) + (enc_vec32(y.history_list@) + (enc_u8(y.current_index) + y.merkle_tree.spec_bytes()))))))) + ty) =~= y.spec_bytes() + ty);
        lemma_u8_unique(x.data_version.tag(), y.data_version.tag(), (x.authority@ + (x.mint@ + (x.vault@ + (enc_u8(x.vault_bump) + (enc_string(x.name@) + (enc_vec32(x.history_list@) + (enc_u8(x.current_index) + x.merkle_tree.spec_bytes()))))))) + tx, (y.authority@ + (y.mint@ + (y.vault@ + (enc_u8(y.vault_bump) + (enc_string(y.name@) + (enc_vec32(y.history_list@) + (enc_u8(y.current_index) + y.merkle_tree.spec_bytes()))))))) + ty);
        DataVersion::lemma_tag_injective(x.data_version, y.data_version);
        assert(x.authority@ + ((x.mint@ + (x.vault@ + (enc_u8(x.vault_bump) + (enc_string(x.name@) + (enc_vec32(x.history_list@) + (enc_u8(x.current_index) + x.merkle_tree.spec_bytes())))))) + tx) =~= (x.authority@ + (x.mint@ + (x.vault@ + (enc_u8(x.vault_bump) + (enc_string(x.name@) + (enc_vec32(x.history_list@) + (enc_u8(x.current_index) + x.merkle_tree.spec_bytes()))))))) + tx);
        assert(y.authority@ + ((y.mint@ + (y.vault@ + (enc_u8(y.vault_bump) + (enc_string(y.name@) + (enc_vec32(y.history_list@) + (enc_u8(y.current_index) + y.merkle_tree.spec_bytes())))))) + ty) =~= (y.authority@ + (y.mint@ + (y.vault@ + (enc_u8(y.vault_bump) + (enc_string(y.name@) + (enc_vec32(y.history_list@) + (enc_u8(y.current_index) + y.merkle_tree.spec_bytes()))))))) + ty);
        lemma_key_unique(x.authority, y.authority, (x.mint@ + (x.vault@ + (enc_u8(x.vault_bump) + (enc_string(x.name@) + (enc_vec32(x.history_list@) + (enc_u8(x.current_index) + x.merkle_tree.spec_bytes())))))) + tx, (y.mint@ + (y.vault@ + (enc_u8(y.vault_bump) + (enc_string(y.name@) + (enc_vec32(y.history_list@) + (enc_u8(y.current_index) + y.merkle_tree.spec_bytes())))))) + ty);
        assert(x.mint@ + ((x.vault@ + (enc_u8(x.vault_bump) + (enc_string(x.name@) + (enc_vec32(x.history_list@) + (enc_u8(x.current_index) + x.merkle_tree.spec_bytes()))))) + tx) =~= (x.mint@ + (x.vault@ + (enc_u8(x.vault_bump) + (enc_string(x.name@) + (enc_vec32(x.history_list@) + (enc_u8(x.current_index) + x.merkle_tree.spec_bytes())))))) + tx);
        assert(y.mint@ + ((y.vault@ + (enc_u8(y.vault_bump) + (enc_string(y.name@) + (enc_vec32(y.history_list@) + (enc_u8(y.current_index) + y.merkle_tree.spec_bytes()))))) + ty) =~= (y.mint@ + (y.vault@ + (enc_u8(y.vault_bump) + (enc_string(y.name@) + (enc_vec32(y.history_list@) + (enc_u8(y.current_index) + y.merkle_tree.spec_bytes())))))) + ty);
        lemma_key_unique(x.mint, y.mint, (x.vault@ + (enc_u8(x.vault_bump) + (enc_string(x.name@) + (enc_vec32(x.history_list@) + (enc_u8(x.current_index) + x.merkle_tree.spec_bytes()))))) + tx, (y.vault@ + (enc_u8(y.vault_bump) + (enc_string(y.name@) + (enc_vec32(y.history_list@) + (enc_u8(y.current_index) + y.merkle_tree.spec_bytes()))))) + ty);
        assert(x.vault@ + ((enc_u8(x.vault_bump) + (enc_string(x.name@) + (enc_vec32(x.history_list@) + (enc_u8(x.current_index) + x.merkle_tree.spec_bytes())))) + tx) =~= (x.vault@ + (enc_u8(x.vault_bump) + (enc_string(x.name@) + (enc_vec32(x.history_list@) + (enc_u8(x.current_index) + x.merkle_tree.spec_bytes()))))) + tx);
        assert(y.vault@ + ((enc_u8(y.vault_bump) + (enc_string(y.name@) + (enc_vec32(y.history_list@) + (enc_u8(y.current_index) + y.merkle_tree.spec_bytes())))) + ty) =~= (y.vault@ + (enc_u8(y.vault_bump) + (enc_string(y.name@) + (enc_vec32(y.history_list@) + (enc_u8(y.current_index) + y.merkle_tree.spec_bytes()))))) + ty);
        lemma_key_unique(x.vault, y.vault, (enc_u8(x.vault_bump) + (enc_string(x.name@) + (enc_vec32(x.history_list@) + (enc_u8(x.current_index) + x.merkle_tree.spec_bytes())))) + tx, (enc_u8(y.vault_bump) + (enc_string(y.name@) + (enc_vec32(y.history_list@) + (enc_u8(y.current_index) + y.merkle_tree.spec_bytes())))) + ty);
        assert(enc_u8(x.vault_bump) + ((enc_string(x.name@) + (enc_vec32(x.history_list@) + (enc_u8(x.current_index) + x.merkle_tree.spec_bytes()))) + tx) =~= (enc_u8(x.vault_bump) + (enc_string(x.name@) + (enc_vec32(x.history_list@) + (enc_u8(x.current_index) + x.merkle_tree.spec_bytes())))) + tx);
        assert(enc_u8(y.vault_bump) + ((enc_string(y.name@) + (enc_vec32(y.history_list@) + (enc_u8(y.current_index) + y.merkle_tree.spec_bytes()))) + ty) =~= (enc_u8(y.vault_bump) + (enc_string(y.name@) + (enc_vec32(y.history_list@) + (enc_u8(y.current_index) + y.merkle_tree.spec_bytes())))) + ty);
        lemma_u8_unique(x.vault_bump, y.vault_bump, (enc_string(x.name@) + (enc_vec32(x.history_list@) + (enc_u8(x.current_index) + x.merkle_tree.spec_bytes()))) + tx, (enc_string(y.name@) + (enc_vec32(y.history_list@) + (enc_u8(y.current_index) + y.merkle_tree.spec_bytes()))) + ty);
        assert(enc_string(x.name@) + ((enc_vec32(x.history_list@) + (enc_u8(x.current_index) + x.merkle_tree.spec_bytes())) + tx) =~= (enc_string(x.name@) + (enc_vec32(x.history_list@) + (enc_u8(x.current_index) + x.merkle_tree.spec_bytes()))) + tx);
        assert(enc_string(y.name@) + ((enc_vec32(y.history_list@) + (enc_u8(y.current_index) + y.merkle_tree.spec_bytes())) + ty) =~= (enc_string(y.name@) + (enc_vec32(y.history_list@) + (enc_u8(y.current_index) + y.merkle_tree.spec_bytes()))) + ty);
        lemma_string_unique(x.name@, y.name@, (enc_vec32(x.history_list@) + (enc_u8(x.current_index) + x.merkle_tree.spec_bytes())) + tx, (enc_vec32(y.history_list@) + (enc_u8(y.current_index) + y.merkle_tree.spec_bytes())) + ty);
        assert(enc_vec32(x.history_list@) + ((enc_u8(x.current_index) + x.merkle_tree.spec_bytes()) + tx) =~= (enc_vec32(x.history_list@) + (enc_u8(x.current_index) + x.merkle_tree.spec_bytes())) + tx);
        assert(enc_vec32(y.history_list@) + ((enc_u8(y.current_index) + y.merkle_tree.spec_bytes()) + ty) =~= (enc_vec32(y.history_list@) + (enc_u8(y.current_index) + y.merkle_tree.spec_bytes())) + ty);
        lemma_vec32_prefix_unique(x.history_list@, y.history_list@, (enc_u8(x.current_index) + x.merkle_tree.spec_bytes()) + tx, (enc_u8(y.current_index) + y.merkle_tree.spec_bytes()) + ty);
        assert(enc_u8(x.current_index) + ((x.merkle_tree.spec_bytes()) + tx) =~= (enc_u8(x.current_index) + x.merkle_tree.spec_bytes()) + tx);
        assert(enc_u8(y.current_index) + ((y.merkle_tree.spec_bytes()) + ty) =~= (enc_u8(y.current_index) + y.merkle_tree.spec_bytes()) + ty);
        lemma_u8_unique(x.current_index, y.current_index, (x.merkle_tree.spec_bytes()) + tx, (y.merkle_tree.spec_bytes()) + ty);
        assert(x.merkle_tree.spec_bytes() + (tx) =~= (x.merkle_tree.spec_bytes()) + tx);
        assert(y.merkle_tree.spec_bytes() + (ty) =~= (y.merkle_tree.spec_bytes()) + ty);
        MerkleTree::lemma_unique(x.merkle_tree, y.merkle_tree, tx, ty);
    }

    /// Appends the encoding to `w`; a length prefix that does not fit in a
    /// `u32` is refused.
    pub fn write(&self, w: &mut Vec<u8>) -> (r: Result<(), CodecError>)
        ensures
            self.serializable() ==> r is Ok && final(w)@ == old(w)@ + self.spec_bytes(),
            !self.serializable() ==> r == Err::<(), CodecError>(CodecError::InvalidData),
    {
        self.data_version.write(w);
        write_array32(w, &self.authority);
        write_array32(w, &self.mint);
        write_array32(w, &self.vault);
        write_u8(w, self.vault_bump);
        write_string(w, &self.name)?;
        write_vec32(w, &self.history_list)?;
        write_u8(w, self.current_index);
        self.merkle_tree.write(w)?;
        assert(final(w)@ =~= old(w)@ + self.spec_bytes());
        Ok(())
    }
}

pub const POOL_ACCOUNT_DISCM: [u8; 8] = [241, 154, 109, 4, 17, 177, 109, 188];

/// The account as stored: its discriminator, then its state.
#[derive(Clone, Debug, PartialEq, Eq)]
pub struct PoolAccount(pub Pool);

impl PoolAccount {
    /// The stored bytes: the discriminator, then the state.
    pub open spec fn spec_bytes(self) -> Seq<u8> {
        POOL_ACCOUNT_DISCM@ + self.0.spec_bytes()
    }

    /// Reads an account from the start of `buf`; bytes after the state are
    /// ignored. It succeeds exactly where `buf` opens with the
    /// discriminator and the encoding of some state, and gives that state.
    pub fn deserialize(buf: &[u8]) -> (r: Result<Self, CodecError>)
        ensures
            buf@.len() < 8 ==> r == Err::<Self, CodecError>(CodecError::UnexpectedEnd),
            buf@.len() >= 8 && buf@.take(8) != POOL_ACCOUNT_DISCM@ ==> r == Err::<Self, CodecError>(CodecError::UnknownDiscriminator),
            r matches Ok(a) ==> a.0.serializable() && a.spec_bytes().is_prefix_of(buf@),
            forall|x: Self| x.0.serializable() && #[trigger] x.spec_bytes().is_prefix_of(buf@) ==> (r matches Ok(a) && a.0.same(x.0)),
            r is Err ==> r == Err::<Self, CodecError>(CodecError::UnexpectedEnd) || r == Err::<Self, CodecError>(CodecError::InvalidData)
                || r == Err::<Self, CodecError>(CodecError::UnknownDiscriminator),
    {
        proof {
            assert forall|x: Self| x.0.serializable() && #[trigger] x.spec_bytes().is_prefix_of(buf@) implies buf@.len() >= 8
                && buf@.take(8) == POOL_ACCOUNT_DISCM@ && x.0.spec_bytes().is_prefix_of(buf@.skip(8)) by {
                lemma_prefix_split(POOL_ACCOUNT_DISCM@, x.0.spec_bytes(), buf@, 0);
                assert(buf@.skip(0) =~= buf@);
                assert(buf@.take(8) =~= buf@.subrange(0, 8));
            }
        }
        read_discriminator(buf, &POOL_ACCOUNT_DISCM)?;
        let (state, end) = Pool::read_field(buf, 8)?;
        proof {
            assert(buf@.take(end as int) =~= POOL_ACCOUNT_DISCM@ + state.spec_bytes());
        }
        Ok(PoolAccount(state))
    }

    /// The stored bytes determine the state: what `serialize` writes,
    /// `deserialize` reads back, whatever follows it.
    pub proof fn lemma_stored_unique(x: Self, y: Self, tx: Seq<u8>, ty: Seq<u8>)
        requires
            x.0.serializable(),
            y.0.serializable(),
            x.spec_bytes() + tx == y.spec_bytes() + ty,
        ensures
            x.0.same(y.0),
            tx == ty,
    {
        assert(x.spec_bytes() + tx =~= POOL_ACCOUNT_DISCM@ + (x.0.spec_bytes() + tx));
        assert(y.spec_bytes() + ty =~= POOL_ACCOUNT_DISCM@ + (y.0.spec_bytes() + ty));
        lemma_split_prefix(POOL_ACCOUNT_DISCM@, POOL_ACCOUNT_DISCM@, x.0.spec_bytes() + tx, y.0.spec_bytes() + ty);
        Pool::lemma_unique(x.0, y.0, tx, ty);
    }

    /// Appends the stored bytes to `writer`.
    pub fn serialize(&self, writer: &mut Vec<u8>) -> (r: Result<(), CodecError>)
        ensures
            self.0.serializable() ==> r is Ok && final(writer)@ == old(writer)@ + self.spec_bytes(),
            !self.0.serializable() ==> r == Err::<(), CodecError>(CodecError::InvalidData),
    {
        write_array8(writer, &POOL_ACCOUNT_DISCM);
        let r = self.0.write(writer);
        assert(r is Ok ==> final(writer)@ =~= old(writer)@ + self.spec_bytes());
        r
    }

    /// The stored bytes as a fresh vector.
    pub fn try_to_vec(&self) -> (r: Result<Vec<u8>, CodecError>)
        ensures
            self.0.serializable() ==> (r matches Ok(v) && v@ == self.spec_bytes()),
            !self.0.serializable() ==> r == Err::<Vec<u8>, CodecError>(CodecError::InvalidData),
    {
        let mut data: Vec<u8> = Vec::new();
        self.serialize(&mut data)?;
        Ok(data)
    }
}

/// State of a proof account.
#[derive(Clone, Debug, PartialEq, Eq)]
pub struct Proof {
    pub data_version: DataVersion,
    pub pool: Pubkey,
    pub pool_bump: u8,
    pub merkle_root: [u8; 32],
    pub commitment: Pubkey,
    pub verified: bool,
    pub size: u8,
    pub data: Vec<[u8; 32]>,
}

impl Proof {
    /// Borsh encoding: the fields in order.
    pub open spec fn spec_bytes(self) -> Seq<u8> {
        self.data_version.spec_bytes() + (self.pool@ + (enc_u8(self.pool_bump) + (self.merkle_root@ + (self.commitment@ + (enc_bool(self.verified) + (enc_u8(self.size) + enc_vec32(self.data@)))))))
    }

    /// Where each field lies in the encoding: the data version's tag at byte
    /// 0, the pool in 1..33, the pool bump at 33, the Merkle root in 34..66,
    /// the commitment in 66..98, whether it is verified (1 or 0) at 98, the
    /// size at 99, then the data with its `u32` count.
    pub proof fn lemma_field_offsets(self)
        ensures
            self.spec_bytes()[0] == self.data_version.tag(),
            self.spec_bytes().subrange(1, 33) == self.pool@,
            self.spec_bytes()[33] == self.pool_bump,
            self.spec_bytes().subrange(34, 66) == self.merkle_root@,
            self.spec_bytes().subrange(66, 98) == self.commitment@,
            self.spec_bytes()[98] == (if self.verified { 1u8 } else { 0u8 }),
            self.spec_bytes()[99] == self.size,
            self.spec_bytes().subrange(100, self.spec_bytes().len() as int) == enc_vec32(self.data@),
    {
        let b = self.spec_bytes();
        assert(b.subrange(1, 33) =~= self.pool@);
        assert(b.subrange(34, 66) =~= self.merkle_root@);
        assert(b.subrange(66, 98) =~= self.commitment@);
        assert(b.subrange(100, b.len() as int) =~= enc_vec32(self.data@));
    }

    /// Every length prefix fits in a `u32`.
    pub open spec fn serializable(self) -> bool {
        self.data@.len() <= u32::MAX
    }

    /// Both hold the same values.
    pub open spec fn same(self, other: Self) -> bool {
        self.data_version == other.data_version
        && self.pool == other.pool
        && self.pool_bump == other.pool_bump
        && self.merkle_root == other.merkle_root
        && self.commitment == other.commitment
        && self.verified == other.verified
        && self.size == other.size
        && self.data@ == other.data@
    }

    /// Reads the value at `pos` as a field of a larger value: it succeeds
    /// exactly where the encoding of some value opens the bytes there, and
    /// gives that value.
    #[verifier::spinoff_prover]
    #[verifier::rlimit(50)]
    pub fn read_field(buf: &[u8], pos: usize) -> (r: Result<(Self, usize), CodecError>)
        requires
            pos <= buf@.len(),
        ensures
            r matches Ok((v, e)) ==> pos <= e <= buf@.len() && v.serializable() && v.spec_bytes() == buf@.subrange(
                pos as int,
                e as int,
            ),
            forall|x: Self| x.serializable() && #[trigger] x.spec_bytes().is_prefix_of(buf@.skip(pos as int)) ==> (r matches Ok(
                (v, e),
            ) && v.same(x) && e == pos + x.spec_bytes().len()),
            r is Err ==> r == Err::<(Self, usize), CodecError>(CodecError::UnexpectedEnd) || r == Err::<(Self, usize), CodecError>(
                CodecError::InvalidData,
            ),
    {
        let ghost b = buf@;
        let ghost p0 = pos as int;
        proof {
            assert forall|x: Self| x.serializable() && #[trigger] x.spec_bytes().is_prefix_of(b.skip(p0)) implies x.data_version.spec_bytes().is_prefix_of(
                b.skip(p0),
            ) && (x.pool@ + (enc_u8(x.pool_bump) + (x.merkle_root@ + (x.commitment@ + (enc_bool(x.verified) + (enc_u8(x.size) + enc_vec32(x.data@))))))).is_prefix_of(b.skip(p0 + x.data_version.spec_bytes().len())) by {
                lemma_prefix_split(x.data_version.spec_bytes(), x.pool@ + (enc_u8(x.pool_bump) + (x.merkle_root@ + (x.commitment@ + (enc_bool(x.verified) + (enc_u8(x.size) + enc_vec32(x.data@)))))), b, p0);
            }
        }
        let (data_version, e_data_version) = match DataVersion::read_field(buf, pos) {
            Ok(t) => t,
            Err(err) => {
                return Err(err);
            },
        };
        proof {
            assert forall|x: Self| x.serializable() && #[trigger] x.spec_bytes().is_prefix_of(b.skip(p0)) implies data_version == x.data_version
                && e_data_version == p0 + x.data_version.spec_bytes().len() && (x.pool@ + (enc_u8(x.pool_bump) + (x.merkle_root@ + (x.commitment@ + (enc_bool(x.verified) + (enc_u8(x.size) + enc_vec32(x.data@))))))).is_prefix_of(b.skip(e_data_version as int)) by {
            }
        }
        proof {
            assert forall|x: Self| x.serializable() && #[trigger] x.spec_bytes().is_prefix_of(b.skip(p0)) implies x.pool@.is_prefix_of(
                b.skip(e_data_version as int),
            ) && (enc_u8(x.pool_bump) + (x.merkle_root@ + (x.commitment@ + (enc_bool(x.verified) + (enc_u8(x.size) + enc_vec32(x.data@)))))).is_prefix_of(b.skip(e_data_version as int + x.pool@.len())) by {
                lemma_prefix_split(x.pool@, enc_u8(x.pool_bump) + (x.merkle_root@ + (x.commitment@ + (enc_bool(x.verified) + (enc_u8(x.size) + enc_vec32(x.data@))))), b, e_data_version as int);
            }
        }
        let (pool, e_pool) = match key_field(buf, e_data_version) {
            Ok(t) => t,
            Err(err) => {
                return Err(err);
            },
        };
        proof {
            assert forall|x: Self| x.serializable() && #[trigger] x.spec_bytes().is_prefix_of(b.skip(p0)) implies pool == x.pool
                && e_pool == e_data_version as int + x.pool@.len() && (enc_u8(x.pool_bump) + (x.merkle_root@ + (x.commitment@ + (enc_bool(x.verified) + (enc_u8(x.size) + enc_vec32(x.data@)))))).is_prefix_of(b.skip(e_pool as int)) by {
            }
        }
        proof {
            assert forall|x: Self| x.serializable() && #[trigger] x.spec_bytes().is_prefix_of(b.skip(p0)) implies enc_u8(x.pool_bump).is_prefix_of(
                b.skip(e_pool as int),
            ) && (x.merkle_root@ + (x.commitment@ + (enc_bool(x.verified) + (enc_u8(x.size) + enc_vec32(x.data@))))).is_prefix_of(b.skip(e_pool as int + enc_u8(x.pool_bump).len())) by {
                lemma_prefix_split(enc_u8(x.pool_bump), x.merkle_root@ + (x.commitment@ + (enc_bool(x.verified) + (enc_u8(x.size) + enc_vec32(x.data@)))), b, e_pool as int);
            }
        }
        let (pool_bump, e_pool_bump) = match u8_field(buf, e_pool) {
            Ok(t) => t,
            Err(err) => {
                return Err(err);
            },
        };
        proof {
            assert forall|x: Self| x.serializable() && #[trigger] x.spec_bytes().is_prefix_of(b.skip(p0)) implies pool_bump == x.pool_bump
                && e_pool_bump == e_pool as int + enc_u8(x.pool_bump).len() && (x.merkle_root@ + (x.commitment@ + (enc_bool(x.verified) + (enc_u8(x.size) + enc_vec32(x.data@))))).is_prefix_of(b.skip(e_pool_bump as int)) by {
            }
        }
        proof {
            assert forall|x: Self| x.serializable() && #[trigger] x.spec_bytes().is_prefix_of(b.skip(p0)) implies x.merkle_root@.is_prefix_of(
                b.skip(e_pool_bump as int),
            ) && (x.commitment@ + (enc_bool(x.verified) + (enc_u8(x.size) + enc_vec32(x.data@)))).is_prefix_of(b.skip(e_pool_bump as int + x.merkle_root@.len())) by {
                lemma_prefix_split(x.merkle_root@, x.commitment@ + (enc_bool(x.verified) + (enc_u8(x.size) + enc_vec32(x.data@))), b, e_pool_bump as int);
            }
        }
        let (merkle_root, e_merkle_root) = match key_field(buf, e_pool_bump) {
            Ok(t) => t,
            Err(err) => {
                return Err(err);
            },
        };
        proof {
            assert forall|x: Self| x.serializable() && #[trigger] x.spec_bytes().is_prefix_of(b.skip(p0)) implies merkle_root == x.merkle_root
                && e_merkle_root == e_pool_bump as int + x.merkle_root@.len() && (x.commitment@ + (enc_bool(x.verified) + (enc_u8(x.size) + enc_vec32(x.data@)))).is_prefix_of(b.skip(e_merkle_root as int)) by {
            }
        }
        proof {
            assert forall|x: Self| x.serializable() && #[trigger] x.spec_bytes().is_prefix_of(b.skip(p0)) implies x.commitment@.is_prefix_of(
                b.skip(e_merkle_root as int),
            ) && (enc_bool(x.verified) + (enc_u8(x.size) + enc_vec32(x.data@))).is_prefix_of(b.skip(e_merkle_root as int + x.commitment@.len())) by {
                lemma_prefix_split(x.commitment@, enc_bool(x.verified) + (enc_u8(x.size) + enc_vec32(x.data@)), b, e_merkle_root as int);
            }
        }
        let (commitment, e_commitment) = match key_field(buf, e_merkle_root) {
            Ok(t) => t,
            Err(err) => {
                return Err(err);
            },
        };
        proof {
            assert forall|x: Self| x.serializable() && #[trigger] x.spec_bytes().is_prefix_of(b.skip(p0)) implies commitment == x.commitment
                && e_commitment == e_merkle_root as int + x.commitment@.len() && (enc_bool(x.verified) + (enc_u8(x.size) + enc_vec32(x.data@))).is_prefix_of(b.skip(e_commitment as int)) by {
            }
        }
        proof {
            assert forall|x: Self| x.serializable() && #[trigger] x.spec_bytes().is_prefix_of(b.skip(p0)) implies enc_bool(x.verified).is_prefix_of(
                b.skip(e_commitment as int),
            ) && (enc_u8(x.size) + enc_vec32(x.data@)).is_prefix_of(b.skip(e_commitment as int + enc_bool(x.verified).len())) by {
                lemma_prefix_split(enc_bool(x.verified), enc_u8(x.size) + enc_vec32(x.data@), b, e_commitment as int);
            }
        }
        let (verified, e_verified) = match bool_field(buf, e_commitment) {
            Ok(t) => t,
            Err(err) => {
                return Err(err);
            },
        };
        proof {
            assert forall|x: Self| x.serializable() && #[trigger] x.spec_bytes().is_prefix_of(b.skip(p0)) implies verified == x.verified
                && e_verified == e_commitment as int + enc_bool(x.verified).len() && (enc_u8(x.size) + enc_vec32(x.data@)).is_prefix_of(b.skip(e_verified as int)) by {
            }
        }
        proof {
            assert forall|x: Self| x.serializable() && #[trigger] x.spec_bytes().is_prefix_of(b.skip(p0)) implies enc_u8(x.size).is_prefix_of(
                b.skip(e_verified as int),
            ) && (enc_vec32(x.data@)).is_prefix_of(b.skip(e_verified as int + enc_u8(x.size).len())) by {
                lemma_prefix_split(enc_u8(x.size), enc_vec32(x.data@), b, e_verified as int);
            }
        }
        let (size, e_size) = match u8_field(buf, e_verified) {
            Ok(t) => t,
            Err(err) => {
                return Err(err);
            },
        };
        proof {
            assert forall|x: Self| x.serializable() && #[trigger] x.spec_bytes().is_prefix_of(b.skip(p0)) implies size == x.size
                && e_size == e_verified as int + enc_u8(x.size).len() && (enc_vec32(x.data@)).is_prefix_of(b.skip(e_size as int)) by {
            }
        }
        proof {
            assert forall|x: Self| x.serializable() && #[trigger] x.spec_bytes().is_prefix_of(b.skip(p0)) implies enc_vec32(x.data@).is_prefix_of(
                b.skip(e_size as int),
            ) by {
                assert(enc_vec32(x.data@) + Seq::<u8>::empty() =~= enc_vec32(x.data@));
                lemma_prefix_split(enc_vec32(x.data@), Seq::<u8>::empty(), b, e_size as int);
            }
        }
        let (data, e_data) = match vec32_field(buf, e_size) {
            Ok(t) => t,
            Err(err) => {
                return Err(err);
            },
        };
        proof {
            assert forall|x: Self| x.serializable() && #[trigger] x.spec_bytes().is_prefix_of(b.skip(p0)) implies data@ == x.data@
                && e_data == e_size as int + enc_vec32(x.data@).len() by {
            }
        }
        let v = Proof { data_version, pool, pool_bump, merkle_root, commitment, verified, size, data };
        proof {
            assert(b.subrange(e_verified as int, e_data as int) =~= b.subrange(e_verified as int, e_size as int) + b.subrange(e_size as int, e_data as int));
            assert(b.subrange(e_commitment as int, e_data as int) =~= b.subrange(e_commitment as int, e_verified as int) + b.subrange(e_verified as int, e_data as int));
            assert(b.subrange(e_merkle_root as int, e_data as int) =~= b.subrange(e_merkle_root as int, e_commitment as int) + b.subrange(e_commitment as int, e_data as int));
            assert(b.subrange(e_pool_bump as int, e_data as int) =~= b.subrange(e_pool_bump as int, e_merkle_root as int) + b.subrange(e_merkle_root as int, e_data as int));
            assert(b.subrange(e_pool as int, e_data as int) =~= b.subrange(e_pool as int, e_pool_bump as int) + b.subrange(e_pool_bump as int, e_data as int));
            assert(b.subrange(e_data_version as int, e_data as int) =~= b.subrange(e_data_version as int, e_pool as int) + b.subrange(e_pool as int, e_data as int));
            assert(b.subrange(p0, e_data as int) =~= b.subrange(p0, e_data_version as int) + b.subrange(e_data_version as int, e_data as int));
            assert(v.spec_bytes() == b.subrange(p0, e_data as int));
        }
        Ok((v, e_data))
    }

    /// A value is read back from its encoding, whatever follows it.
    #[verifier::spinoff_prover]
    #[verifier::rlimit(50)]
    pub proof fn lemma_unique(x: Self, y: Self, tx: Seq<u8>, ty: Seq<u8>)
        requires
            x.serializable(),
            y.serializable(),
            x.spec_bytes() + tx == y.spec_bytes() + ty,
        ensures
            x.same(y),
            tx == ty,
    {
        assert(x.data_version.spec_bytes() + ((x.pool@ + (enc_u8(x.pool_bump) + (x.merkle_root@ + (x.commitment@ + (enc_bool(x.verified) + (enc_u8(x.size) + enc_vec32(x.data@))))))) + tx) =~= x.spec_bytes() + tx);
        assert(y.data_version.spec_bytes() + ((y.pool@ + (enc_u8(y.pool_bump) + (y.merkle_root@ + (y.commitment@ + (enc_bool(y.verified) + (enc_u8(y.size) + enc_vec32(y.data@))))))) + ty) =~= y.spec_bytes() + ty);
        lemma_u8_unique(x.data_version.tag(), y.data_version.tag(), (x.pool@ + (enc_u8(x.pool_bump) + (x.merkle_root@ + (x.commitment@ + (enc_bool(x.verified) + (enc_u8(x.size) + enc_vec32(x.data@))))))) + tx, (y.pool@ + (enc_u8(y.pool_bump) + (y.merkle_root@ + (y.commitment@ + (enc_bool(y.verified) + (enc_u8(y.size) + enc_vec32(y.data@))))))) + ty);
        DataVersion::lemma_tag_injective(x.data_version, y.data_version);
        assert(x.pool@ + ((enc_u8(x.pool_bump) + (x.merkle_root@ + (x.commitment@ + (enc_bool(x.verified) + (enc_u8(x.size) + enc_vec32(x.data@)))))) + tx) =~= (x.pool@ + (enc_u8(x.pool_bump) + (x.merkle_root@ + (x.commitment@ + (enc_bool(x.verified) + (enc_u8(x.size) + enc_vec32(x.data@))))))) + tx);
        assert(y.pool@ + ((enc_u8(y.pool_bump) + (y.merkle_root@ + (y.commitment@ + (enc_bool(y.verified) + (enc_u8(y.size) + enc_vec32(y.data@)))))) + ty) =~= (y.pool@ + (enc_u8(y.pool_bump) + (y.merkle_root@ + (y.commitment@ + (enc_bool(y.verified) + (enc_u8(y.size) + enc_vec32(y.data@))))))) + ty);
        lemma_key_unique(x.pool, y.pool, (enc_u8(x.pool_bump) + (x.merkle_root@ + (x.commitment@ + (enc_bool(x.verified) + (enc_u8(x.size) + enc_vec32(x.data@)))))) + tx, (enc_u8(y.pool_bump) + (y.merkle_root@ + (y.commitment@ + (enc_bool(y.verified) + (enc_u8(y.size) + enc_vec32(y.data@)))))) + ty);
        assert(enc_u8(x.pool_bump) + ((x.merkle_root@ + (x.commitment@ + (enc_bool(x.verified) + (enc_u8(x.size) + enc_vec32(x.data@))))) + tx) =~= (enc_u8(x.pool_bump) + (x.merkle_root@ + (x.commitment@ + (enc_bool(x.verified) + (enc_u8(x.size) + enc_vec32(x.data@)))))) + tx);
        assert(enc_u8(y.pool_bump) + ((y.merkle_root@ + (y.commitment@ + (enc_bool(y.verified) + (enc_u8(y.size) + enc_vec32(y.data@))))) + ty) =~= (enc_u8(y.pool_bump) + (y.merkle_root@ + (y.commitment@ + (enc_bool(y.verified) + (enc_u8(y.size) + enc_vec32(y.data@)))))) + ty);
        lemma_u8_unique(x.pool_bump, y.pool_bump, (x.merkle_root@ + (x.commitment@ + (enc_bool(x.verified) + (enc_u8(x.size) + enc_vec32(x.data@))))) + tx, (y.merkle_root@ + (y.commitment@ + (enc_bool(y.verified) + (enc_u8(y.size) + enc_vec32(y.data@))))) + ty);
        assert(x.merkle_root@ + ((x.commitment@ + (enc_bool(x.verified) + (enc_u8(x.size) + enc_vec32(x.data@)))) + tx) =~= (x.merkle_root@ + (x.commitment@ + (enc_bool(x.verified) + (enc_u8(x.size) + enc_vec32(x.data@))))) + tx);
        assert(y.merkle_root@ + ((y.commitment@ + (enc_bool(y.verified) + (enc_u8(y.size) + enc_vec32(y.data@)))) + ty) =~= (y.merkle_root@ + (y.commitment@ + (enc_bool(y.verified) + (enc_u8(y.size) + enc_vec32(y.data@))))) + ty);
        lemma_key_unique(x.merkle_root, y.merkle_root, (x.commitment@ + (enc_bool(x.verified) + (enc_u8(x.size) + enc_vec32(x.data@)))) + tx, (y.commitment@ + (enc_bool(y.verified) + (enc_u8(y.size) + enc_vec32(y.data@)))) + ty);
        assert(x.commitment@ + ((enc_bool(x.verified) + (enc_u8(x.size) + enc_vec32(x.data@))) + tx) =~= (x.commitment@ + (enc_bool(x.verified) + (enc_u8(x.size) + enc_vec32(x.data@)))) + tx);
        assert(y.commitment@ + ((enc_bool(y.verified) + (enc_u8(y.size) + enc_vec32(y.data@))) + ty) =~= (y.commitment@ + (enc_bool(y.verified) + (enc_u8(y.size) + enc_vec32(y.data@)))) + ty);
        lemma_key_unique(x.commitment, y.commitment, (enc_bool(x.verified) + (enc_u8(x.size) + enc_vec32(x.data@))) + tx, (enc_bool(y.verified) + (enc_u8(y.size) + enc_vec32(y.data@))) + ty);
        assert(enc_bool(x.verified) + ((enc_u8(x.size) + enc_vec32(x.data@)) + tx) =~= (enc_bool(x.verified) + (enc_u8(x.size) + enc_vec32(x.data@))) + tx);
        assert(enc_bool(y.verified) + ((enc_u8(y.size) + enc_vec32(y.data@)) + ty) =~= (enc_bool(y.verified) + (enc_u8(y.size) + enc_vec32(y.data@))) + ty);
        lemma_bool_unique(x.verified, y.verified, (enc_u8(x.size) + enc_vec32(x.data@)) + tx, (enc_u8(y.size) + enc_vec32(y.data@)) + ty);
        assert(enc_u8(x.size) + ((enc_vec32(x.data@)) + tx) =~= (enc_u8(x.size) + enc_vec32(x.data@)) + tx);
        assert(enc_u8(y.size) + ((enc_vec32(y.data@)) + ty) =~= (enc_u8(y.size) + enc_vec32(y.data@)) + ty);
        lemma_u8_unique(x.size, y.size, (enc_vec32(x.data@)) + tx, (enc_vec32(y.data@)) + ty);
        assert(enc_vec32(x.data@) + (tx) =~= (enc_vec32(x.data@)) + tx);
        assert(enc_vec32(y.data@) + (ty) =~= (enc_vec32(y.data@)) + ty);
        lemma_vec32_prefix_unique(x.data@, y.data@, tx, ty);
    }

    /// Appends the encoding to `w`; a length prefix that does not fit in a
    /// `u32` is refused.
    pub fn write(&self, w: &mut Vec<u8>) -> (r: Result<(), CodecError>)
        ensures
            self.serializable() ==> r is Ok && final(w)@ == old(w)@ + self.spec_bytes(),
            !self.serializable() ==> r == Err::<(), CodecError>(CodecError::InvalidData),
    {
        self.data_version.write(w);
        write_array32(w, &self.pool);
        write_u8(w, self.pool_bump);
        write_array32(w, &self.merkle_root);
        write_array32(w, &self.commitment);
        write_u8(w, if self.verified { 1u8 } else { 0u8 });
        write_u8(w, self.size);
        write_vec32(w, &self.data)?;
        assert(final(w)@ =~= old(w)@ + self.spec_bytes());
        Ok(())
    }
}

pub const PROOF_ACCOUNT_DISCM: [u8; 8] = [163, 35, 13, 71, 15, 128, 63, 82];

/// The account as stored: its discriminator, then its state.
#[derive(Clone, Debug, PartialEq, Eq)]
pub struct ProofAccount(pub Proof);

impl ProofAccount {
    /// The stored bytes: the discriminator, then the state.
    pub open spec fn spec_bytes(self) -> Seq<u8> {
        PROOF_ACCOUNT_DISCM@ + self.0.spec_bytes()
    }

    /// Reads an account from the start of `buf`; bytes after the state are
    /// ignored. It succeeds exactly where `buf` opens with the
    /// discriminator and the encoding of some state, and gives that state.
    pub fn deserialize(buf: &[u8]) -> (r: Result<Self, CodecError>)
        ensures
            buf@.len() < 8 ==> r == Err::<Self, CodecError>(CodecError::UnexpectedEnd),
            buf@.len() >= 8 && buf@.take(8) != PROOF_ACCOUNT_DISCM@ ==> r == Err::<Self, CodecError>(CodecError::UnknownDiscriminator),
            r matches Ok(a) ==> a.0.serializable() && a.spec_bytes().is_prefix_of(buf@),
            forall|x: Self| x.0.serializable() && #[trigger] x.spec_bytes().is_prefix_of(buf@) ==> (r matches Ok(a) && a.0.same(x.0)),
            r is Err ==> r == Err::<Self, CodecError>(CodecError::UnexpectedEnd) || r == Err::<Self, CodecError>(CodecError::InvalidData)
                || r == Err::<Self, CodecError>(CodecError::UnknownDiscriminator),
    {
        proof {
            assert forall|x: Self| x.0.serializable() && #[trigger] x.spec_bytes().is_prefix_of(buf@) implies buf@.len() >= 8
                && buf@.take(8) == PROOF_ACCOUNT_DISCM@ && x.0.spec_bytes().is_prefix_of(buf@.skip(8)) by {
                lemma_prefix_split(PROOF_ACCOUNT_DISCM@, x.0.spec_bytes(), buf@, 0);
                assert(buf@.skip(0) =~= buf@);
                assert(buf@.take(8) =~= buf@.subrange(0, 8));
            }
        }
        read_discriminator(buf, &PROOF_ACCOUNT_DISCM)?;
        let (state, end) = Proof::read_field(buf, 8)?;
        proof {
            assert(buf@.take(end as int) =~= PROOF_ACCOUNT_DISCM@ + state.spec_bytes());
        }
        Ok(ProofAccount(state))
    }

    /// The stored bytes determine the state: what `serialize` writes,
    /// `deserialize` reads back, whatever follows it.
    pub proof fn lemma_stored_unique(x: Self, y: Self, tx: Seq<u8>, ty: Seq<u8>)
        requires
            x.0.serializable(),
            y.0.serializable(),
            x.spec_bytes() + tx == y.spec_bytes() + ty,
        ensures
            x.0.same(y.0),
            tx == ty,
    {
        assert(x.spec_bytes() + tx =~= PROOF_ACCOUNT_DISCM@ + (x.0.spec_bytes() + tx));
        assert(y.spec_bytes() + ty =~= PROOF_ACCOUNT_DISCM@ + (y.0.spec_bytes() + ty));
        lemma_split_prefix(PROOF_ACCOUNT_DISCM@, PROOF_ACCOUNT_DISCM@, x.0.spec_bytes() + tx, y.0.spec_bytes() + ty);
        Proof::lemma_unique(x.0, y.0, tx, ty);
    }

    /// Appends the stored bytes to `writer`.
    pub fn serialize(&self, writer: &mut Vec<u8>) -> (r: Result<(), CodecError>)
        ensures
            self.0.serializable() ==> r is Ok && final(writer)@ == old(writer)@ + self.spec_bytes(),
            !self.0.serializable() ==> r == Err::<(), CodecError>(CodecError::InvalidData),
    {
        write_array8(writer, &PROOF_ACCOUNT_DISCM);
        let r = self.0.write(writer);
        assert(r is Ok ==> final(writer)@ =~= old(writer)@ + self.spec_bytes());
        r
    }

    /// The stored bytes as a fresh vector.
    pub fn try_to_vec(&self) -> (r: Result<Vec<u8>, CodecError>)
        ensures
            self.0.serializable() ==> (r matches Ok(v) && v@ == self.spec_bytes()),
            !self.0.serializable() ==> r == Err::<Vec<u8>, CodecError>(CodecError::InvalidData),
    {
        let mut data: Vec<u8> = Vec::new();
        self.serialize(&mut data)?;
        Ok(data)
    }
}

} // verus!
