//! Accounts of the timelock program.
use vstd::prelude::*;

use crate::codec::{lemma_split_prefix, write_array32, write_array8, write_i64, write_u8, read_discriminator, CodecError};
use crate::fields::{enc_opt_i64, enc_u8, key_field, lemma_key_unique, lemma_opt_i64_unique, lemma_prefix_split, lemma_u8_unique, opt_i64_field, u8_field};
use crate::types::Pubkey;

use super::typedefs::{DataVersion, TimeLockState};

verus! {

/// State of a timelock account.
#[derive(Clone, Copy, Debug, PartialEq, Eq)]
pub struct TimeLockAccount {
    pub data_version: DataVersion,
    pub time_authority: Pubkey,
    pub close_authority: Pubkey,
    pub mint: Pubkey,
    pub vault: Pubkey,
    pub vault_bump: u8,
    pub vault_state: TimeLockState,
    pub vault_owner: Pubkey,
    pub unlock_at: Option<i64>,
    pub num_days_locked: u8,
}

impl TimeLockAccount {
    /// Borsh encoding: the fields in order.
    pub open spec fn spec_bytes(self) -> Seq<u8> {
        self.data_version.spec_bytes() + (self.time_authority@ + (self.close_authority@ + (self.mint@ + (self.vault@ + (enc_u8(self.vault_bump) + (self.vault_state.spec_bytes() + (self.vault_owner@ + (enc_opt_i64(self.unlock_at) + enc_u8(self.num_days_locked)))))))))
    }

    /// Where each field lies in the encoding: the data version's tag at byte
    /// 0, the time authority in 1..33, the close authority in 33..65, the mint
    /// in 65..97, the vault in 97..129, the vault bump at 129, the vault
    /// state's tag at 130, the vault owner in 131..163; then the unlock time,
    /// a 0 where it is absent or a 1 and its eight little-endian bytes; the
    /// number of days locked last.
    pub proof fn lemma_field_offsets(self)
        ensures
            self.spec_bytes()[0] == self.data_version.tag(),
            self.spec_bytes().subrange(1, 33) == self.time_authority@,
            self.spec_bytes().subrange(33, 65) == self.close_authority@,
            self.spec_bytes().subrange(65, 97) == self.mint@,
            self.spec_bytes().subrange(97, 129) == self.vault@,
            self.spec_bytes()[129] == self.vault_bump,
            self.spec_bytes()[130] == self.vault_state.tag(),
            self.spec_bytes().subrange(131, 163) == self.vault_owner@,
            self.unlock_at is None ==> self.spec_bytes().len() == 165 && self.spec_bytes()[163] == 0,
            self.unlock_at matches Some(t) ==> self.spec_bytes().len() == 173 && self.spec_bytes()[163] == 1
                && self.spec_bytes().subrange(164, 172) == vstd::bytes::spec_u64_to_le_bytes(t as u64),
            self.spec_bytes().last() == self.num_days_locked,
    {
        crate::codec::lemma_le_bytes();
        vstd::bytes::lemma_auto_spec_u64_to_from_le_bytes();
        let b = self.spec_bytes();
        assert(b.subrange(1, 33) =~= self.time_authority@);
        assert(b.subrange(33, 65) =~= self.close_authority@);
        assert(b.subrange(65, 97) =~= self.mint@);
        assert(b.subrange(97, 129) =~= self.vault@);
        assert(b.subrange(131, 163) =~= self.vault_owner@);
        if let Some(t) = self.unlock_at {
            assert(vstd::bytes::spec_u64_to_le_bytes(t as u64).len() == 8);
            assert(b.subrange(164, 172) =~= vstd::bytes::spec_u64_to_le_bytes(t as u64));
        }
    }

    /// Every length prefix fits in a `u32`.
    pub open spec fn serializable(self) -> bool {
        true
    }

    /// Both hold the same values.
    pub open spec fn same(self, other: Self) -> bool {
        self.data_version == other.data_version
        && self.time_authority == other.time_authority
        && self.close_authority == other.close_authority
        && self.mint == other.mint
        && self.vault == other.vault
        && self.vault_bump == other.vault_bump
        && self.vault_state == other.vault_state
        && self.vault_owner == other.vault_owner
        && self.unlock_at == other.unlock_at
        && self.num_days_locked == other.num_days_locked
    }

    /// Reads the value at `pos` as a field of a larger value: it succeeds
    /// exactly where the encoding of some value opens the bytes there, and
    /// gives that value.
    #[verifier::spinoff_prover]
    #[verifier::rlimit(50)]
    pub fn read_field(buf: &[u8], pos: usize) -> (r: Result<(Self, usize), CodecError>)
        requires
            pos <= buf@.len(),
        ensures
            r matches Ok((v, e)) ==> pos <= e <= buf@.len() && v.serializable() && v.spec_bytes() == buf@.subrange(
                pos as int,
                e as int,
            ),
            forall|x: Self| x.serializable() && #[trigger] x.spec_bytes().is_prefix_of(buf@.skip(pos as int)) ==> (r matches Ok(
                (v, e),
            ) && v.same(x) && e == pos + x.spec_bytes().len()),
            r is Err ==> r == Err::<(Self, usize), CodecError>(CodecError::UnexpectedEnd) || r == Err::<(Self, usize), CodecError>(
                CodecError::InvalidData,
            ),
    {
        let ghost b = buf@;
        let ghost p0 = pos as int;
        proof {
            assert forall|x: Self| x.serializable() && #[trigger] x.spec_bytes().is_prefix_of(b.skip(p0)) implies x.data_version.spec_bytes().is_prefix_of(
                b.skip(p0),
            ) && (x.time_authority@ + (x.close_authority@ + (x.mint@ + (x.vault@ + (enc_u8(x.vault_bump) + (x.vault_state.spec_bytes() + (x.vault_owner@ + (enc_opt_i64(x.unlock_at) + enc_u8(x.num_days_locked))))))))).is_prefix_of(b.skip(p0 + x.data_version.spec_bytes().len())) by {
                lemma_prefix_split(x.data_version.spec_bytes(), x.time_authority@ + (x.close_authority@ + (x.mint@ + (x.vault@ + (enc_u8(x.vault_bump) + (x.vault_state.spec_bytes() + (x.vault_owner@ + (enc_opt_i64(x.unlock_at) + enc_u8(x.num_days_locked)))))))), b, p0);
            }
        }
        let (data_version, e_data_version) = match DataVersion::read_field(buf, pos) {
            Ok(t) => t,
            Err(err) => {
                return Err(err);
            },
        };
        proof {
            assert forall|x: Self| x.serializable() && #[trigger] x.spec_bytes().is_prefix_of(b.skip(p0)) implies data_version == x.data_version
                && e_data_version == p0 + x.data_version.spec_bytes().len() && (x.time_authority@ + (x.close_authority@ + (x.mint@ + (x.vault@ + (enc_u8(x.vault_bump) + (x.vault_state.spec_bytes() + (x.vault_owner@ + (enc_opt_i64(x.unlock_at) + enc_u8(x.num_days_locked))))))))).is_prefix_of(b.skip(e_data_version as int)) by {
            }
        }
        proof {
            assert forall|x: Self| x.serializable() && #[trigger] x.spec_bytes().is_prefix_of(b.skip(p0)) implies x.time_authority@.is_prefix_of(
                b.skip(e_data_version as int),
            ) && (x.close_authority@ + (x.mint@ + (x.vault@ + (enc_u8(x.vault_bump) + (x.vault_state.spec_bytes() + (x.vault_owner@ + (enc_opt_i64(x.unlock_at) + enc_u8(x.num_days_locked)))))))).is_prefix_of(b.skip(e_data_version as int + x.time_authority@.len())) by {
                lemma_prefix_split(x.time_authority@, x.close_authority@ + (x.mint@ + (x.vault@ + (enc_u8(x.vault_bump) + (x.vault_state.spec_bytes() + (x.vault_owner@ + (enc_opt_i64(x.unlock_at) + enc_u8(x.num_days_locked))))))), b, e_data_version as int);
            }
        }
        let (time_authority, e_time_authority) = match key_field(buf, e_data_version) {
            Ok(t) => t,
            Err(err) => {
                return Err(err);
            },
        };
        proof {
            assert forall|x: Self| x.serializable() && #[trigger] x.spec_bytes().is_prefix_of(b.skip(p0)) implies time_authority == x.time_authority
                && e_time_authority == e_data_version as int + x.time_authority@.len() && (x.close_authority@ + (x.mint@ + (x.vault@ + (enc_u8(x.vault_bump) + (x.vault_state.spec_bytes() + (x.vault_owner@ + (enc_opt_i64(x.unlock_at) + enc_u8(x.num_days_locked)))))))).is_prefix_of(b.skip(e_time_authority as int)) by {
            }
        }
        proof {
            assert forall|x: Self| x.serializable() && #[trigger] x.spec_bytes().is_prefix_of(b.skip(p0)) implies x.close_authority@.is_prefix_of(
                b.skip(e_time_authority as int),
            ) && (x.mint@ + (x.vault@ + (enc_u8(x.vault_bump) + (x.vault_state.spec_bytes() + (x.vault_owner@ + (enc_opt_i64(x.unlock_at) + enc_u8(x.num_days_locked))))))).is_prefix_of(b.skip(e_time_authority as int + x.close_authority@.len())) by {
                lemma_prefix_split(x.close_authority@, x.mint@ + (x.vault@ + (enc_u8(x.vault_bump) + (x.vault_state.spec_bytes() + (x.vault_owner@ + (enc_opt_i64(x.unlock_at) + enc_u8(x.num_days_locked)))))), b, e_time_authority as int);
            }
        }
        let (close_authority, e_close_authority) = match key_field(buf, e_time_authority) {
            Ok(t) => t,
            Err(err) => {
                return Err(err);
            },
        };
        proof {
            assert forall|x: Self| x.serializable() && #[trigger] x.spec_bytes().is_prefix_of(b.skip(p0)) implies close_authority == x.close_authority
                && e_close_authority == e_time_authority as int + x.close_authority@.len() && (x.mint@ + (x.vault@ + (enc_u8(x.vault_bump) + (x.vault_state.spec_bytes() + (x.vault_owner@ + (enc_opt_i64(x.unlock_at) + enc_u8(x.num_days_locked))))))).is_prefix_of(b.skip(e_close_authority as int)) by {
            }
        }
        proof {
            assert forall|x: Self| x.serializable() && #[trigger] x.spec_bytes().is_prefix_of(b.skip(p0)) implies x.mint@.is_prefix_of(
                b.skip(e_close_authority as int),
            ) && (x.vault@ + (enc_u8(x.vault_bump) + (x.vault_state.spec_bytes() + (x.vault_owner@ + (enc_opt_i64(x.unlock_at) + enc_u8(x.num_days_locked)))))).is_prefix_of(b.skip(e_close_authority as int + x.mint@.len())) by {
                lemma_prefix_split(x.mint@, x.vault@ + (enc_u8(x.vault_bump) + (x.vault_state.spec_bytes() + (x.vault_owner@ + (enc_opt_i64(x.unlock_at) + enc_u8(x.num_days_locked))))), b, e_close_authority as int);
            }
        }
        let (mint, e_mint) = match key_field(buf, e_close_authority) {
            Ok(t) => t,
            Err(err) => {
                return Err(err);
            },
        };
        proof {
            assert forall|x: Self| x.serializable() && #[trigger] x.spec_bytes().is_prefix_of(b.skip(p0)) implies mint == x.mint
                && e_mint == e_close_authority as int + x.mint@.len() && (x.vault@ + (enc_u8(x.vault_bump) + (x.vault_state.spec_bytes() + (x.vault_owner@ + (enc_opt_i64(x.unlock_at) + enc_u8(x.num_days_locked)))))).is_prefix_of(b.skip(e_mint as int)) by {
            }
        }
        proof {
            assert forall|x: Self| x.serializable() && #[trigger] x.spec_bytes().is_prefix_of(b.skip(p0)) implies x.vault@.is_prefix_of(
                b.skip(e_mint as int),
            ) && (enc_u8(x.vault_bump) + (x.vault_state.spec_bytes() + (x.vault_owner@ + (enc_opt_i64(x.unlock_at) + enc_u8(x.num_days_locked))))).is_prefix_of(b.skip(e_mint as int + x.vault@.len())) by {
                lemma_prefix_split(x.vault@, enc_u8(x.vault_bump) + (x.vault_state.spec_bytes() + (x.vault_owner@ + (enc_opt_i64(x.unlock_at) + enc_u8(x.num_days_locked)))), b, e_mint as int);
            }
        }
        let (vault, e_vault) = match key_field(buf, e_mint) {
            Ok(t) => t,
            Err(err) => {
                return Err(err);
            },
        };
        proof {
            assert forall|x: Self| x.serializable() && #[trigger] x.spec_bytes().is_prefix_of(b.skip(p0)) implies vault == x.vault
                && e_vault == e_mint as int + x.vault@.len() && (enc_u8(x.vault_bump) + (x.vault_state.spec_bytes() + (x.vault_owner@ + (enc_opt_i64(x.unlock_at) + enc_u8(x.num_days_locked))))).is_prefix_of(b.skip(e_vault as int)) by {
            }
        }
        proof {
            assert forall|x: Self| x.serializable() && #[trigger] x.spec_bytes().is_prefix_of(b.skip(p0)) implies enc_u8(x.vault_bump).is_prefix_of(
                b.skip(e_vault as int),
            ) && (x.vault_state.spec_bytes() + (x.vault_owner@ + (enc_opt_i64(x.unlock_at) + enc_u8(x.num_days_locked)))).is_prefix_of(b.skip(e_vault as int + enc_u8(x.vault_bump).len())) by {
                lemma_prefix_split(enc_u8(x.vault_bump), x.vault_state.spec_bytes() + (x.vault_owner@ + (enc_opt_i64(x.unlock_at) + enc_u8(x.num_days_locked))), b, e_vault as int);
            }
        }
        let (vault_bump, e_vault_bump) = match u8_field(buf, e_vault) {
            Ok(t) => t,
            Err(err) => {
                return Err(err);
            },
        };
        proof {
            assert forall|x: Self| x.serializable() && #[trigger] x.spec_bytes().is_prefix_of(b.skip(p0)) implies vault_bump == x.vault_bump
                && e_vault_bump == e_vault as int + enc_u8(x.vault_bump).len() && (x.vault_state.spec_bytes() + (x.vault_owner@ + (enc_opt_i64(x.unlock_at) + enc_u8(x.num_days_locked)))).is_prefix_of(b.skip(e_vault_bump as int)) by {
            }
        }
        proof {
            assert forall|x: Self| x.serializable() && #[trigger] x.spec_bytes().is_prefix_of(b.skip(p0)) implies x.vault_state.spec_bytes().is_prefix_of(
                b.skip(e_vault_bump as int),
            ) && (x.vault_owner@ + (enc_opt_i64(x.unlock_at) + enc_u8(x.num_days_locked))).is_prefix_of(b.skip(e_vault_bump as int + x.vault_state.spec_bytes().len())) by {
                lemma_prefix_split(x.vault_state.spec_bytes(), x.vault_owner@ + (enc_opt_i64(x.unlock_at) + enc_u8(x.num_days_locked)), b, e_vault_bump as int);
            }
        }
        let (vault_state, e_vault_state) = match TimeLockState::read_field(buf, e_vault_bump) {
            Ok(t) => t,
            Err(err) => {
                return Err(err);
            },
        };
        proof {
            assert forall|x: Self| x.serializable() && #[trigger] x.spec_bytes().is_prefix_of(b.skip(p0)) implies vault_state == x.vault_state
                && e_vault_state == e_vault_bump as int + x.vault_state.spec_bytes().len() && (x.vault_owner@ + (enc_opt_i64(x.unlock_at) + enc_u8(x.num_days_locked))).is_prefix_of(b.skip(e_vault_state as int)) by {
            }
        }
        proof {
            assert forall|x: Self| x.serializable() && #[trigger] x.spec_bytes().is_prefix_of(b.skip(p0)) implies x.vault_owner@.is_prefix_of(
                b.skip(e_vault_state as int),
            ) && (enc_opt_i64(x.unlock_at) + enc_u8(x.num_days_locked)).is_prefix_of(b.skip(e_vault_state as int + x.vault_owner@.len())) by {
                lemma_prefix_split(x.vault_owner@, enc_opt_i64(x.unlock_at) + enc_u8(x.num_days_locked), b, e_vault_state as int);
            }
        }
        let (vault_owner, e_vault_owner) = match key_field(buf, e_vault_state) {
            Ok(t) => t,
            Err(err) => {
                return Err(err);
            },
        };
        proof {
            assert forall|x: Self| x.serializable() && #[trigger] x.spec_bytes().is_prefix_of(b.skip(p0)) implies vault_owner == x.vault_owner
                && e_vault_owner == e_vault_state as int + x.vault_owner@.len() && (enc_opt_i64(x.unlock_at) + enc_u8(x.num_days_locked)).is_prefix_of(b.skip(e_vault_owner as int)) by {
            }
        }
        proof {
            assert forall|x: Self| x.serializable() && #[trigger] x.spec_bytes().is_prefix_of(b.skip(p0)) implies enc_opt_i64(x.unlock_at).is_prefix_of(
                b.skip(e_vault_owner as int),
            ) && (enc_u8(x.num_days_locked)).is_prefix_of(b.skip(e_vault_owner as int + enc_opt_i64(x.unlock_at).len())) by {
                lemma_prefix_split(enc_opt_i64(x.unlock_at), enc_u8(x.num_days_locked), b, e_vault_owner as int);
            }
        }
        let (unlock_at, e_unlock_at) = match opt_i64_field(buf, e_vault_owner) {
            Ok(t) => t,
            Err(err) => {
                return Err(err);
            },
        };
        proof {
            assert forall|x: Self| x.serializable() && #[trigger] x.spec_bytes().is_prefix_of(b.skip(p0)) implies unlock_at == x.unlock_at
                && e_unlock_at == e_vault_owner as int + enc_opt_i64(x.unlock_at).len() && (enc_u8(x.num_days_locked)).is_prefix_of(b.skip(e_unlock_at as int)) by {
            }
        }
        proof {
            assert forall|x: Self| x.serializable() && #[trigger] x.spec_bytes().is_prefix_of(b.skip(p0)) implies enc_u8(x.num_days_locked).is_prefix_of(
                b.skip(e_unlock_at as int),
            ) by {
                assert(enc_u8(x.num_days_locked) + Seq::<u8>::empty() =~= enc_u8(x.num_days_locked));
                lemma_prefix_split(enc_u8(x.num_days_locked), Seq::<u8>::empty(), b, e_unlock_at as int);
            }
        }
        let (num_days_locked, e_num_days_locked) = match u8_field(buf, e_unlock_at) {
            Ok(t) => t,
            Err(err) => {
                return Err(err);
            },
        };
        proof {
            assert forall|x: Self| x.serializable() && #[trigger] x.spec_bytes().is_prefix_of(b.skip(p0)) implies num_days_locked == x.num_days_locked
                && e_num_days_locked == e_unlock_at as int + enc_u8(x.num_days_locked).len() by {
            }
        }
        let v = TimeLockAccount { data_version, time_authority, close_authority, mint, vault, vault_bump, vault_state, vault_owner, unlock_at, num_days_locked };
        proof {
            assert(b.subrange(e_vault_owner as int, e_num_days_locked as int) =~= b.subrange(e_vault_owner as int, e_unlock_at as int) + b.subrange(e_unlock_at as int, e_num_days_locked as int));
            assert(b.subrange(e_vault_state as int, e_num_days_locked as int) =~= b.subrange(e_vault_state as int, e_vault_owner as int) + b.subrange(e_vault_owner as int, e_num_days_locked as int));
            assert(b.subrange(e_vault_bump as int, e_num_days_locked as int) =~= b.subrange(e_vault_bump as int, e_vault_state as int) + b.subrange(e_vault_state as int, e_num_days_locked as int));
            assert(b.subrange(e_vault as int, e_num_days_locked as int) =~= b.subrange(e_vault as int, e_vault_bump as int) + b.subrange(e_vault_bump as int, e_num_days_locked as int));
            assert(b.subrange(e_mint as int, e_num_days_locked as int) =~= b.subrange(e_mint as int, e_vault as int) + b.subrange(e_vault as int, e_num_days_locked as int));
            assert(b.subrange(e_close_authority as int, e_num_days_locked as int) =~= b.subrange(e_close_authority as int, e_mint as int) + b.subrange(e_mint as int, e_num_days_locked as int));
            assert(b.subrange(e_time_authority as int, e_num_days_locked as int) =~= b.subrange(e_time_authority as int, e_close_authority as int) + b.subrange(e_close_authority as int, e_num_days_locked as int));
            assert(b.subrange(e_data_version as int, e_num_days_locked as int) =~= b.subrange(e_data_version as int, e_time_authority as int) + b.subrange(e_time_authority as int, e_num_days_locked as int));
            assert(b.subrange(p0, e_num_days_locked as int) =~= b.subrange(p0, e_data_version as int) + b.subrange(e_data_version as int, e_num_days_locked as int));
            assert(v.spec_bytes() == b.subrange(p0, e_num_days_locked as int));
        }
        Ok((v, e_num_days_locked))
    }

    /// A value is read back from its encoding, whatever follows it.
    #[verifier::spinoff_prover]
    #[verifier::rlimit(50)]
    pub proof fn lemma_unique(x: Self, y: Self, tx: Seq<u8>, ty: Seq<u8>)
        requires
            x.serializable(),
            y.serializable(),
            x.spec_bytes() + tx == y.spec_bytes() + ty,
        ensures
            x.same(y),
            tx == ty,
    {
        assert(x.data_version.spec_bytes() + ((x.time_authority@ + (x.close_authority@ + (x.mint@ + (x.vault@ + (enc_u8(x.vault_bump) + (x.vault_state.spec_bytes() + (x.vault_owner@ + (enc_opt_i64(x.unlock_at) + enc_u8(x.num_days_locked))))))))) + tx) =~= x.spec_bytes() + tx);
        assert(y.data_version.spec_bytes() + ((y.time_authority@ + (y.close_authority@ + (y.mint@ + (y.vault@ + (enc_u8(y.vault_bump) + (y.vault_state.spec_bytes() + (y.vault_owner@ + (enc_opt_i64(y.unlock_at) + enc_u8(y.num_days_locked))))))))) + ty) =~= y.spec_bytes() + ty);
        lemma_u8_unique(x.data_version.tag(), y.data_version.tag(), (x.time_authority@ + (x.close_authority@ + (x.mint@ + (x.vault@ + (enc_u8(x.vault_bump) + (x.vault_state.spec_bytes() + (x.vault_owner@ + (enc_opt_i64(x.unlock_at) + enc_u8(x.num_days_locked))))))))) + tx, (y.time_authority@ + (y.close_authority@ + (y.mint@ + (y.vault@ + (enc_u8(y.vault_bump) + (y.vault_state.spec_bytes() + (y.vault_owner@ + (enc_opt_i64(y.unlock_at) + enc_u8(y.num_days_locked))))))))) + ty);
        DataVersion::lemma_tag_injective(x.data_version, y.data_version);
        assert(x.time_authority@ + ((x.close_authority@ + (x.mint@ + (x.vault@ + (enc_u8(x.vault_bump) + (x.vault_state.spec_bytes() + (x.vault_owner@ + (enc_opt_i64(x.unlock_at) + enc_u8(x.num_days_locked)))))))) + tx) =~= (x.time_authority@ + (x.close_authority@ + (x.mint@ + (x.vault@ + (enc_u8(x.vault_bump) + (x.vault_state.spec_bytes() + (x.vault_owner@ + (enc_opt_i64(x.unlock_at) + enc_u8(x.num_days_locked))))))))) + tx);
        assert(y.time_authority@ + ((y.close_authority@ + (y.mint@ + (y.vault@ + (enc_u8(y.vault_bump) + (y.vault_state.spec_bytes() + (y.vault_owner@ + (enc_opt_i64(y.unlock_at) + enc_u8(y.num_days_locked)))))))) + ty) =~= (y.time_authority@ + (y.close_authority@ + (y.mint@ + (y.vault@ + (enc_u8(y.vault_bump) + (y.vault_state.spec_bytes() + (y.vault_owner@ + (enc_opt_i64(y.unlock_at) + enc_u8(y.num_days_locked))))))))) + ty);
        lemma_key_unique(x.time_authority, y.time_authority, (x.close_authority@ + (x.mint@ + (x.vault@ + (enc_u8(x.vault_bump) + (x.vault_state.spec_bytes() + (x.vault_owner@ + (enc_opt_i64(x.unlock_at) + enc_u8(x.num_days_locked)))))))) + tx, (y.close_authority@ + (y.mint@ + (y.vault@ + (enc_u8(y.vault_bump) + (y.vault_state.spec_bytes() + (y.vault_owner@ + (enc_opt_i64(y.unlock_at) + enc_u8(y.num_days_locked)))))))) + ty);
        assert(x.close_authority@ + ((x.mint@ + (x.vault@ + (enc_u8(x.vault_bump) + (x.vault_state.spec_bytes() + (x.vault_owner@ + (enc_opt_i64(x.unlock_at) + enc_u8(x.num_days_locked))))))) + tx) =~= (x.close_authority@ + (x.mint@ + (x.vault@ + (enc_u8(x.vault_bump) + (x.vault_state.spec_bytes() + (x.vault_owner@ + (enc_opt_i64(x.unlock_at) + enc_u8(x.num_days_locked)))))))) + tx);
        assert(y.close_authority@ + ((y.mint@ + (y.vault@ + (enc_u8(y.vault_bump) + (y.vault_state.spec_bytes() + (y.vault_owner@ + (enc_opt_i64(y.unlock_at) + enc_u8(y.num_days_locked))))))) + ty) =~= (y.close_authority@ + (y.mint@ + (y.vault@ + (enc_u8(y.vault_bump) + (y.vault_state.spec_bytes() + (y.vault_owner@ + (enc_opt_i64(y.unlock_at) + enc_u8(y.num_days_locked)))))))) + ty);
        lemma_key_unique(x.close_authority, y.close_authority, (x.mint@ + (x.vault@ + (enc_u8(x.vault_bump) + (x.vault_state.spec_bytes() + (x.vault_owner@ + (enc_opt_i64(x.unlock_at) + enc_u8(x.num_days_locked))))))) + tx, (y.mint@ + (y.vault@ + (enc_u8(y.vault_bump) + (y.vault_state.spec_bytes() + (y.vault_owner@ + (enc_opt_i64(y.unlock_at) + enc_u8(y.num_days_locked))))))) + ty);
        assert(x.mint@ + ((x.vault@ + (enc_u8(x.vault_bump) + (x.vault_state.spec_bytes() + (x.vault_owner@ + (enc_opt_i64(x.unlock_at) + enc_u8(x.num_days_locked)))))) + tx) =~= (x.mint@ + (x.vault@ + (enc_u8(x.vault_bump) + (x.vault_state.spec_bytes() + (x.vault_owner@ + (enc_opt_i64(x.unlock_at) + enc_u8(x.num_days_locked))))))) + tx);
        assert(y.mint@ + ((y.vault@ + (enc_u8(y.vault_bump) + (y.vault_state.spec_bytes() + (y.vault_owner@ + (enc_opt_i64(y.unlock_at) + enc_u8(y.num_days_locked)))))) + ty) =~= (y.mint@ + (y.vault@ + (enc_u8(y.vault_bump) + (y.vault_state.spec_bytes() + (y.vault_owner@ + (enc_opt_i64(y.unlock_at) + enc_u8(y.num_days_locked))))))) + ty);
        lemma_key_unique(x.mint, y.mint, (x.vault@ + (enc_u8(x.vault_bump) + (x.vault_state.spec_bytes() + (x.vault_owner@ + (enc_opt_i64(x.unlock_at) + enc_u8(x.num_days_locked)))))) + tx, (y.vault@ + (enc_u8(y.vault_bump) + (y.vault_state.spec_bytes() + (y.vault_owner@ + (enc_opt_i64(y.unlock_at) + enc_u8(y.num_days_locked)))))) + ty);
        assert(x.vault@ + ((enc_u8(x.vault_bump) + (x.vault_state.spec_bytes() + (x.vault_owner@ + (enc_opt_i64(x.unlock_at) + enc_u8(x.num_days_locked))))) + tx) =~= (x.vault@ + (enc_u8(x.vault_bump) + (x.vault_state.spec_bytes() + (x.vault_owner@ + (enc_opt_i64(x.unlock_at) + enc_u8(x.num_days_locked)))))) + tx);
        assert(y.vault@ + ((enc_u8(y.vault_bump) + (y.vault_state.spec_bytes() + (y.vault_owner@ + (enc_opt_i64(y.unlock_at) + enc_u8(y.num_days_locked))))) + ty) =~= (y.vault@ + (enc_u8(y.vault_bump) + (y.vault_state.spec_bytes() + (y.vault_owner@ + (enc_opt_i64(y.unlock_at) + enc_u8(y.num_days_locked)))))) + ty);
        lemma_key_unique(x.vault, y.vault, (enc_u8(x.vault_bump) + (x.vault_state.spec_bytes() + (x.vault_owner@ + (enc_opt_i64(x.unlock_at) + enc_u8(x.num_days_locked))))) + tx, (enc_u8(y.vault_bump) + (y.vault_state.spec_bytes() + (y.vault_owner@ + (enc_opt_i64(y.unlock_at) + enc_u8(y.num_days_locked))))) + ty);
        assert(enc_u8(x.vault_bump) + ((x.vault_state.spec_bytes() + (x.vault_owner@ + (enc_opt_i64(x.unlock_at) + enc_u8(x.num_days_locked)))) + tx) =~= (enc_u8(x.vault_bump) + (x.vault_state.spec_bytes() + (x.vault_owner@ + (enc_opt_i64(x.unlock_at) + enc_u8(x.num_days_locked))))) + tx);
        assert(enc_u8(y.vault_bump) + ((y.vault_state.spec_bytes() + (y.vault_owner@ + (enc_opt_i64(y.unlock_at) + enc_u8(y.num_days_locked)))) + ty) =~= (enc_u8(y.vault_bump) + (y.vault_state.spec_bytes() + (y.vault_owner@ + (enc_opt_i64(y.unlock_at) + enc_u8(y.num_days_locked))))) + ty);
        lemma_u8_unique(x.vault_bump, y.vault_bump, (x.vault_state.spec_bytes() + (x.vault_owner@ + (enc_opt_i64(x.unlock_at) + enc_u8(x.num_days_locked)))) + tx, (y.vault_state.spec_bytes() + (y.vault_owner@ + (enc_opt_i64(y.unlock_at) + enc_u8(y.num_days_locked)))) + ty);
        assert(x.vault_state.spec_bytes() + ((x.vault_owner@ + (enc_opt_i64(x.unlock_at) + enc_u8(x.num_days_locked))) + tx) =~= (x.vault_state.spec_bytes() + (x.vault_owner@ + (enc_opt_i64(x.unlock_at) + enc_u8(x.num_days_locked)))) + tx);
        assert(y.vault_state.spec_bytes() + ((y.vault_owner@ + (enc_opt_i64(y.unlock_at) + enc_u8(y.num_days_locked))) + ty) =~= (y.vault_state.spec_bytes() + (y.vault_owner@ + (enc_opt_i64(y.unlock_at) + enc_u8(y.num_days_locked)))) + ty);
        lemma_u8_unique(x.vault_state.tag(), y.vault_state.tag(), (x.vault_owner@ + (enc_opt_i64(x.unlock_at) + enc_u8(x.num_days_locked))) + tx, (y.vault_owner@ + (enc_opt_i64(y.unlock_at) + enc_u8(y.num_days_locked))) + ty);
        TimeLockState::lemma_tag_injective(x.vault_state, y.vault_state);
        assert(x.vault_owner@ + ((enc_opt_i64(x.unlock_at) + enc_u8(x.num_days_locked)) + tx) =~= (x.vault_owner@ + (enc_opt_i64(x.unlock_at) + enc_u8(x.num_days_locked))) + tx);
        assert(y.vault_owner@ + ((enc_opt_i64(y.unlock_at) + enc_u8(y.num_days_locked)) + ty) =~= (y.vault_owner@ + (enc_opt_i64(y.unlock_at) + enc_u8(y.num_days_locked))) + ty);
        lemma_key_unique(x.vault_owner, y.vault_owner, (enc_opt_i64(x.unlock_at) + enc_u8(x.num_days_locked)) + tx, (enc_opt_i64(y.unlock_at) + enc_u8(y.num_days_locked)) + ty);
        assert(enc_opt_i64(x.unlock_at) + ((enc_u8(x.num_days_locked)) + tx) =~= (enc_opt_i64(x.unlock_at) + enc_u8(x.num_days_locked)) + tx);
        assert(enc_opt_i64(y.unlock_at) + ((enc_u8(y.num_days_locked)) + ty) =~= (enc_opt_i64(y.unlock_at) + enc_u8(y.num_days_locked)) + ty);
        lemma_opt_i64_unique(x.unlock_at, y.unlock_at, (enc_u8(x.num_days_locked)) + tx, (enc_u8(y.num_days_locked)) + ty);
        assert(enc_u8(x.num_days_locked) + (tx) =~= (enc_u8(x.num_days_locked)) + tx);
        assert(enc_u8(y.num_days_locked) + (ty) =~= (enc_u8(y.num_days_locked)) + ty);
        lemma_u8_unique(x.num_days_locked, y.num_days_locked, tx, ty);
    }

    /// Appends the encoding to `w`; a length prefix that does not fit in a
    /// `u32` is refused.
    pub fn write(&self, w: &mut Vec<u8>) -> (r: Result<(), CodecError>)
        ensures
            self.serializable() ==> r is Ok && final(w)@ == old(w)@ + self.spec_bytes(),
            !self.serializable() ==> r == Err::<(), CodecError>(CodecError::InvalidData),
    {
        self.data_version.write(w);
        write_array32(w, &self.time_authority);
        write_array32(w, &self.close_authority);
        write_array32(w, &self.mint);
        write_array32(w, &self.vault);
        write_u8(w, self.vault_bump);
        self.vault_state.write(w);
        write_array32(w, &self.vault_owner);
        match self.unlock_at {
            None => write_u8(w, 0),
            Some(v) => {
                write_u8(w, 1);
                write_i64(w, v);
            },
        }
        write_u8(w, self.num_days_locked);
        assert(final(w)@ =~= old(w)@ + self.spec_bytes());
        Ok(())
    }
}

pub const TIME_LOCK_ACCOUNT_ACCOUNT_DISCM: [u8; 8] = [112, 63, 106, 231, 182, 101, 88, 158];

/// The account as stored: its discriminator, then its state.
#[derive(Clone, Debug, PartialEq, Eq)]
pub struct TimeLockAccountAccount(pub TimeLockAccount);

impl TimeLockAccountAccount {
    /// The stored bytes: the discriminator, then the state.
    pub open spec fn spec_bytes(self) -> Seq<u8> {
        TIME_LOCK_ACCOUNT_ACCOUNT_DISCM@ + self.0.spec_bytes()
    }

    /// Reads an account from the start of `buf`; bytes after the state are
    /// ignored. It succeeds exactly where `buf` opens with the
    /// discriminator and the encoding of some state, and gives that state.
    pub fn deserialize(buf: &[u8]) -> (r: Result<Self, CodecError>)
        ensures
            buf@.len() < 8 ==> r == Err::<Self, CodecError>(CodecError::UnexpectedEnd),
            buf@.len() >= 8 && buf@.take(8) != TIME_LOCK_ACCOUNT_ACCOUNT_DISCM@ ==> r == Err::<Self, CodecError>(CodecError::UnknownDiscriminator),
            r matches Ok(a) ==> a.0.serializable() && a.spec_bytes().is_prefix_of(buf@),
            forall|x: Self| x.0.serializable() && #[trigger] x.spec_bytes().is_prefix_of(buf@) ==> (r matches Ok(a) && a.0.same(x.0)),
            r is Err ==> r == Err::<Self, CodecError>(CodecError::UnexpectedEnd) || r == Err::<Self, CodecError>(CodecError::InvalidData)
                || r == Err::<Self, CodecError>(CodecError::UnknownDiscriminator),
    {
        proof {
            assert forall|x: Self| x.0.serializable() && #[trigger] x.spec_bytes().is_prefix_of(buf@) implies buf@.len() >= 8
                && buf@.take(8) == TIME_LOCK_ACCOUNT_ACCOUNT_DISCM@ && x.0.spec_bytes().is_prefix_of(buf@.skip(8)) by {
                lemma_prefix_split(TIME_LOCK_ACCOUNT_ACCOUNT_DISCM@, x.0.spec_bytes(), buf@, 0);
                assert(buf@.skip(0) =~= buf@);
                assert(buf@.take(8) =~= buf@.subrange(0, 8));
            }
        }
        read_discriminator(buf, &TIME_LOCK_ACCOUNT_ACCOUNT_DISCM)?;
        let (state, end) = TimeLockAccount::read_field(buf, 8)?;
        proof {
            assert(buf@.take(end as int) =~= TIME_LOCK_ACCOUNT_ACCOUNT_DISCM@ + state.spec_bytes());
        }
        Ok(TimeLockAccountAccount(state))
    }

    /// The stored bytes determine the state: what `serialize` writes,
    /// `deserialize` reads back, whatever follows it.
    pub proof fn lemma_stored_unique(x: Self, y: Self, tx: Seq<u8>, ty: Seq<u8>)
        requires
            x.0.serializable(),
            y.0.serializable(),
            x.spec_bytes() + tx == y.spec_bytes() + ty,
        ensures
            x.0.same(y.0),
            tx == ty,
    {
        assert(x.spec_bytes() + tx =~= TIME_LOCK_ACCOUNT_ACCOUNT_DISCM@ + (x.0.spec_bytes() + tx));
        assert(y.spec_bytes() + ty =~= TIME_LOCK_ACCOUNT_ACCOUNT_DISCM@ + (y.0.spec_bytes() + ty));
        lemma_split_prefix(TIME_LOCK_ACCOUNT_ACCOUNT_DISCM@, TIME_LOCK_ACCOUNT_ACCOUNT_DISCM@, x.0.spec_bytes() + tx, y.0.spec_bytes() + ty);
        TimeLockAccount::lemma_unique(x.0, y.0, tx, ty);
    }

    /// Appends the stored bytes to `writer`.
    pub fn serialize(&self, writer: &mut Vec<u8>) -> (r: Result<(), CodecError>)
        ensures
            self.0.serializable() ==> r is Ok && final(writer)@ == old(writer)@ + self.spec_bytes(),
            !self.0.serializable() ==> r == Err::<(), CodecError>(CodecError::InvalidData),
    {
        write_array8(writer, &TIME_LOCK_ACCOUNT_ACCOUNT_DISCM);
        let r = self.0.write(writer);
        assert(r is Ok ==> final(writer)@ =~= old(writer)@ + self.spec_bytes());
        r
    }

    /// The stored bytes as a fresh vector.
    pub fn try_to_vec(&self) -> (r: Result<Vec<u8>, CodecError>)
        ensures
            self.0.serializable() ==> (r matches Ok(v) && v@ == self.spec_bytes()),
            !self.0.serializable() ==> r == Err::<Vec<u8>, CodecError>(CodecError::InvalidData),
    {
        let mut data: Vec<u8> = Vec::new();
        self.serialize(&mut data)?;
        Ok(data)
    }
}

} // verus!
