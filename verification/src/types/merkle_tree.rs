//! An append-only Merkle tree of fixed depth that keeps only its frontier:
//! the root, the last left node of each level and the empty node of each
//! level. Inner nodes hash their two children in byte order, so a proof is
//! the list of siblings from the leaf up, with no left/right flags.
use vstd::prelude::*;

use crate::codec::{arrays_bytes, copy_array, flatten, lemma_enc_injective, lemma_flatten32, lemma_vec32_unique, enc_u64, lemma_le_bytes, read_arrays32, u64_from_array, write_array32, write_bytes, write_u64};
use crate::error::{check_condition, ProgramError};
use crate::types::hash;
use crate::utils::sha256v;
use vstd::arithmetic::power2::{lemma2_to64, lemma_pow2_strictly_increases, pow2};
use vstd::bits::lemma_u64_shl_is_mul;
use vstd::bytes::spec_u64_from_le_bytes;

verus! {

/// Lexicographic order on byte strings, as Rust orders byte arrays.
pub open spec fn lex_le(a: Seq<u8>, b: Seq<u8>) -> bool
    decreases a.len(),
{
    if a.len() == 0 {
        true
    } else if b.len() == 0 {
        false
    } else if a[0] != b[0] {
        a[0] < b[0]
    } else {
        lex_le(a.drop_first(), b.drop_first())
    }
}

/// Two byte strings of one length that each precede the other are equal.
pub proof fn lemma_lex_antisymmetric(a: Seq<u8>, b: Seq<u8>)
    requires
        a.len() == b.len(),
        lex_le(a, b),
        lex_le(b, a),
    ensures
        a == b,
    decreases a.len(),
{
    if a.len() > 0 {
        lemma_lex_antisymmetric(a.drop_first(), b.drop_first());
        assert forall|i: int| 0 <= i < a.len() implies a[i] == b[i] by {
            if i > 0 {
                assert(a[i] == a.drop_first()[i - 1]);
                assert(b[i] == b.drop_first()[i - 1]);
            }
        }
    }
    assert(a =~= b);
}

/// Of two byte strings of one length, one precedes the other.
pub proof fn lemma_lex_total(a: Seq<u8>, b: Seq<u8>)
    requires
        a.len() == b.len(),
    ensures
        lex_le(a, b) || lex_le(b, a),
    decreases a.len(),
{
    if a.len() > 0 && a[0] == b[0] {
        lemma_lex_total(a.drop_first(), b.drop_first());
    }
}

/// Whether `a` sorts before or equal to `b`, byte by byte.
pub fn bytes_le(a: &[u8; 32], b: &[u8; 32]) -> (r: bool)
    ensures
        r == lex_le(a@, b@),
{
    let mut i: usize = 0;
    assert(a@.skip(0) =~= a@);
    assert(b@.skip(0) =~= b@);
    while i < 32
        invariant
            i <= 32,
            a@.len() == 32,
            b@.len() == 32,
            lex_le(a@, b@) == lex_le(a@.skip(i as int), b@.skip(i as int)),
        decreases 32 - i,
    {
        if a[i] != b[i] {
            assert(a@.skip(i as int)[0] == a@[i as int]);
            assert(b@.skip(i as int)[0] == b@[i as int]);
            return a[i] < b[i];
        }
        assert(a@.skip(i as int).drop_first() =~= a@.skip(i + 1));
        assert(b@.skip(i as int).drop_first() =~= b@.skip(i + 1));
        i = i + 1;
    }
    assert(a@.skip(32).len() == 0);
    true
}

/// The digests' bytes, one by one.
pub open spec fn hviews(s: Seq<hash::Hash>) -> Seq<Seq<u8>> {
    s.map_values(|h: hash::Hash| h@)
}

/// The leaf that stands for a value: the digest of its bytes.
pub open spec fn leaf_of(v: Seq<u8>) -> Seq<u8> {
    sha256v(seq![v])
}

/// The parent of two nodes: the digest of the smaller, then the larger.
pub open spec fn combine(l: Seq<u8>, r: Seq<u8>) -> Seq<u8> {
    if lex_le(l, r) {
        sha256v(seq![l, r])
    } else {
        sha256v(seq![r, l])
    }
}

/// The nodes met when climbing from `leaf` with the siblings `proof`:
/// the leaf, then each parent in turn.
pub open spec fn climb(proof: Seq<Seq<u8>>, leaf: Seq<u8>) -> Seq<Seq<u8>>
    decreases proof.len(),
{
    if proof.len() == 0 {
        seq![leaf]
    } else {
        let p = climb(proof.drop_last(), leaf);
        p.push(combine(p.last(), proof.last()))
    }
}

pub proof fn lemma_climb_len(proof: Seq<Seq<u8>>, leaf: Seq<u8>)
    ensures
        climb(proof, leaf).len() == proof.len() + 1,
    decreases proof.len(),
{
    if proof.len() > 0 {
        lemma_climb_len(proof.drop_last(), leaf);
    }
}

/// The root reached from `leaf` with the siblings `proof`.
pub open spec fn root_from(proof: Seq<Seq<u8>>, leaf: Seq<u8>) -> Seq<u8> {
    climb(proof, leaf).last()
}

/// The parent of two nodes does not depend on their order.
pub proof fn lemma_combine_commutes(a: hash::Hash, b: hash::Hash)
    ensures
        combine(a@, b@) == combine(b@, a@),
{
    lemma_lex_total(a@, b@);
    if lex_le(a@, b@) && lex_le(b@, a@) {
        lemma_lex_antisymmetric(a@, b@);
    }
}

/// The empty node of each level above the digest of the seeds: each is the
/// parent of two copies of the one below.
pub open spec fn zero_node(seed: Seq<u8>, level: nat) -> Seq<u8>
    decreases level,
{
    if level == 0 {
        seed
    } else {
        let z = zero_node(seed, (level - 1) as nat);
        sha256v(seq![z, z])
    }
}

/// Inserting `h` at position `index` of `level`, from `level` to the top:
/// a left child is kept as the level's frontier node and paired with the
/// level's empty node; a right child is paired with the frontier node.
/// Gives the new frontier and the node reached at the top.
pub open spec fn insert_from(
    zeros: Seq<Seq<u8>>,
    filled: Seq<Seq<u8>>,
    index: nat,
    h: Seq<u8>,
    level: nat,
) -> (Seq<Seq<u8>>, Seq<u8>)
    decreases zeros.len() - level,
{
    if level >= zeros.len() {
        (filled, h)
    } else if index % 2 == 0 {
        insert_from(
            zeros,
            filled.update(level as int, h),
            index / 2,
            combine(h, zeros[level as int]),
            level + 1,
        )
    } else {
        insert_from(zeros, filled, index / 2, combine(filled[level as int], h), level + 1)
    }
}

/// A tree of depth `N` holds at most `2^N` leaves, and its count must stay
/// within a `u64`.
pub open spec fn has_room(next_index: u64, n: nat) -> bool {
    next_index + 1 <= pow2(n) && next_index < u64::MAX
}

/// A Merkle tree of depth `N`.
#[derive(Clone, Copy, Debug)]
pub struct MerkleTree<const N: usize> {
    pub root: hash::Hash,
    pub filled_subtrees: [hash::Hash; N],
    pub zero_values: [hash::Hash; N],
    pub next_index: u64,
}

impl<const N: usize> MerkleTree<N> {
    /// The state after a successful replacement of `original` by `new_leaf`
    /// along `proof`: the root is the one climbed from the new leaf, and each
    /// frontier node that lay on the old path is swapped for the node of the
    /// new path at its level.
    pub open spec fn replaced(
        self,
        after: Self,
        proof: Seq<Seq<u8>>,
        original: Seq<u8>,
        new_leaf: Seq<u8>,
    ) -> bool {
        let old_path = climb(proof, original);
        let new_path = climb(proof, new_leaf);
        &&& after.root@ == new_path.last()
        &&& after.zero_values == self.zero_values
        &&& after.next_index == self.next_index
        &&& forall|i: int|
            0 <= i < N ==> (#[trigger] after.filled_subtrees[i])@ == (if self.filled_subtrees[i]@
                == old_path[i] {
                new_path[i]
            } else {
                self.filled_subtrees[i]@
            })
    }

    /// The state after appending `leaf`: the frontier and root that
    /// `insert_from` gives from the bottom level, one more leaf counted.
    pub open spec fn inserted(self, after: Self, leaf: Seq<u8>) -> bool {
        let (f, h) = insert_from(
            hviews(self.zero_values@),
            hviews(self.filled_subtrees@),
            self.next_index as nat,
            leaf,
            0,
        );
        &&& hviews(after.filled_subtrees@) == f
        &&& after.root@ == h
        &&& after.zero_values == self.zero_values
        &&& after.next_index == self.next_index + 1
    }

    /// An empty tree over the seed digest `seed`: no leaf counted, every
    /// frontier node empty, the root the top level's empty node.
    pub open spec fn starts_empty(self, seed: Seq<u8>) -> bool {
        &&& self.next_index == 0
        &&& self.filled_subtrees == self.zero_values
        &&& N >= 1 ==> self.root == self.zero_values[N - 1]
        &&& forall|i: int| 0 <= i < N ==> (#[trigger] self.zero_values[i])@ == zero_node(seed, i as nat)
    }

    /// Whether `proof` leads from `leaf` to this tree's root.
    pub open spec fn holds_leaf(self, proof: Seq<Seq<u8>>, leaf: Seq<u8>) -> bool {
        proof.len() == N && root_from(proof, leaf) == self.root@
    }
}

impl<const N: usize> MerkleTree<N> {
    pub fn get_depth(&self) -> (r: u8)
        ensures
            r == N as u8,
    {
        N as u8
    }

    /// Bytes the tree takes in account data: the root, two digests per
    /// level and the eight-byte count.
    pub fn get_size() -> (r: usize)
        requires
            64 * N + 40 <= usize::MAX,
        ensures
            r == 64 * N + 40,
    {
        64 * N + 40
    }

    pub fn get_root(&self) -> (r: hash::Hash)
        ensures
            r == self.root,
    {
        self.root
    }

    /// The empty leaf: the node that fills each position not yet inserted.
    pub fn get_empty_leaf(&self) -> (r: hash::Hash)
        requires
            N >= 1,
        ensures
            r == self.zero_values[0],
    {
        self.zero_values[0]
    }

    /// The leaf that stands for `val`.
    pub fn as_leaf(val: hash::Hash) -> (r: hash::Hash)
        ensures
            r@ == leaf_of(val@),
    {
        crate::utils::hash(val.as_ref())
    }

    /// The parent of `left` and `right`: the digest of the two in byte order.
    pub fn hash_left_right(left: hash::Hash, right: hash::Hash) -> (r: hash::Hash)
        ensures
            r@ == combine(left@, right@),
    {
        if bytes_le(&left.value, &right.value) {
            let parts: [&[u8]; 2] = [left.as_ref(), right.as_ref()];
            let s = parts.as_slice();
            assert(s.deep_view() =~= seq![left@, right@]) by {
                assert(s@[0].deep_view() =~= left@);
                assert(s@[1].deep_view() =~= right@);
            }
            crate::utils::hashv(s)
        } else {
            let parts: [&[u8]; 2] = [right.as_ref(), left.as_ref()];
            let s = parts.as_slice();
            assert(s.deep_view() =~= seq![right@, left@]) by {
                assert(s@[0].deep_view() =~= right@);
                assert(s@[1].deep_view() =~= left@);
            }
            crate::utils::hashv(s)
        }
    }

    /// The nodes from `leaf` up, climbing with the siblings `proof`.
    pub fn compute_path(proof: &[hash::Hash], leaf: hash::Hash) -> (r: Vec<hash::Hash>)
        ensures
            hviews(r@) == climb(hviews(proof@), leaf@),
    {
        let mut computed_path: Vec<hash::Hash> = Vec::new();
        let mut computed_hash = leaf;
        computed_path.push(computed_hash);
        let mut i: usize = 0;
        assert(hviews(proof@).take(0) =~= Seq::<Seq<u8>>::empty());
        assert(hviews(computed_path@) =~= seq![leaf@]);
        while i < proof.len()
            invariant
                i <= proof@.len(),
                hviews(computed_path@) == climb(hviews(proof@).take(i as int), leaf@),
                computed_hash == computed_path@.last(),
                computed_path@.len() == i + 1,
            decreases proof.len() - i,
        {
            let ghost before = computed_path@;
            computed_hash = Self::hash_left_right(computed_hash, proof[i]);
            computed_path.push(computed_hash);
            proof {
                let p = hviews(proof@);
                assert(p.take(i + 1).drop_last() =~= p.take(i as int));
                assert(p.take(i + 1).last() == proof@[i as int]@);
                assert(hviews(before).last() == before.last()@);
                assert(hviews(computed_path@) =~= hviews(before).push(computed_hash@));
            }
            i = i + 1;
        }
        assert(hviews(proof@).take(i as int) =~= hviews(proof@));
        computed_path
    }

    /// Whether `path` is non-empty and ends at `root`.
    pub fn is_valid_path(path: &[hash::Hash], root: hash::Hash) -> (r: bool)
        ensures
            r == (path@.len() > 0 && path@.last()@ == root@),
    {
        if path.len() == 0 {
            return false;
        }
        path[path.len() - 1] == root
    }

    /// Whether `proof` leads from `leaf` to `root`.
    pub fn is_valid_leaf(proof: &[hash::Hash], root: hash::Hash, leaf: hash::Hash) -> (r: bool)
        ensures
            r == (root_from(hviews(proof@), leaf@) == root@),
    {
        let computed_path = Self::compute_path(proof, leaf);
        proof {
            lemma_climb_len(hviews(proof@), leaf@);
            assert(hviews(computed_path@).last() == computed_path@.last()@);
        }
        Self::is_valid_path(computed_path.as_slice(), root)
    }

    fn check_length(proof: &[hash::Hash]) -> (r: Result<(), ProgramError>)
        ensures
            r is Ok <==> proof@.len() == N,
            r is Err ==> r == Err::<(), ProgramError>(ProgramError::InvalidArgument),
    {
        check_condition(proof.len() == N)
    }

    /// Whether `proof` leads from `leaf` to this tree's root; a proof whose
    /// length is not the tree's depth leads nowhere.
    pub fn contains_leaf(&self, proof: &[hash::Hash], leaf: hash::Hash) -> (r: bool)
        ensures
            r == self.holds_leaf(hviews(proof@), leaf@),
    {
        if Self::check_length(proof).is_err() {
            return false;
        }
        let root = self.get_root();
        Self::is_valid_leaf(proof, root, leaf)
    }

    /// Whether `proof` leads from the leaf of `val` to this tree's root.
    pub fn contains(&self, proof: &[hash::Hash], val: hash::Hash) -> (r: bool)
        ensures
            r == self.holds_leaf(hviews(proof@), leaf_of(val@)),
    {
        if Self::check_length(proof).is_err() {
            return false;
        }
        let leaf = Self::as_leaf(val);
        self.contains_leaf(proof, leaf)
    }
}

impl<const N: usize> MerkleTree<N> {
    /// Replaces `original_leaf` by `new_leaf`, given the siblings `proof` of
    /// its position. Refused, with the tree unchanged, when the proof is not
    /// as long as the tree is deep or does not lead from `original_leaf` to
    /// the root.
    pub fn try_replace_leaf(
        &mut self,
        proof: &[hash::Hash],
        original_leaf: hash::Hash,
        new_leaf: hash::Hash,
    ) -> (r: Result<(), ProgramError>)
        ensures
            r is Ok <==> old(self).holds_leaf(hviews(proof@), original_leaf@),
            r is Ok ==> old(self).replaced(*final(self), hviews(proof@), original_leaf@, new_leaf@),
            r is Err ==> *final(self) == *old(self) && r == Err::<(), ProgramError>(
                ProgramError::InvalidArgument,
            ),
    {
        Self::check_length(proof)?;
        let original_path = Self::compute_path(proof, original_leaf);
        let new_path = Self::compute_path(proof, new_leaf);
        proof {
            lemma_climb_len(hviews(proof@), original_leaf@);
            lemma_climb_len(hviews(proof@), new_leaf@);
            assert(hviews(original_path@).last() == original_path@.last()@);
            assert(hviews(new_path@).last() == new_path@.last()@);
        }
        let valid = Self::is_valid_path(original_path.as_slice(), self.root);
        if !valid {
            return Err(ProgramError::InvalidArgument);
        }
        let ghost before = *self;
        let mut i: usize = 0;
        while i < N
            invariant
                i <= N,
                original_path@.len() == N + 1,
                new_path@.len() == N + 1,
                self.root == before.root,
                self.zero_values == before.zero_values,
                self.next_index == before.next_index,
                forall|j: int|
                    0 <= j < i ==> (#[trigger] self.filled_subtrees[j])@ == (if before.filled_subtrees[j]@
                        == original_path@[j]@ {
                        new_path@[j]@
                    } else {
                        before.filled_subtrees[j]@
                    }),
                forall|j: int| i <= j < N ==> #[trigger] self.filled_subtrees[j] == before.filled_subtrees[j],
            decreases N - i,
        {
            if original_path[i] == self.filled_subtrees[i] {
                self.filled_subtrees[i] = new_path[i];
            }
            i = i + 1;
        }
        self.root = new_path[new_path.len() - 1];
        proof {
            let op = climb(hviews(proof@), original_leaf@);
            let np = climb(hviews(proof@), new_leaf@);
            assert forall|j: int| 0 <= j < N implies (#[trigger] self.filled_subtrees[j])@ == (
            if before.filled_subtrees[j]@ == op[j] {
                np[j]
            } else {
                before.filled_subtrees[j]@
            }) by {
                assert(op[j] == hviews(original_path@)[j]);
                assert(np[j] == hviews(new_path@)[j]);
            }
        }
        Ok(())
    }

    /// Empties the position of `val`: its leaf becomes the empty leaf.
    pub fn try_remove(&mut self, proof: &[hash::Hash], val: hash::Hash) -> (r: Result<
        (),
        ProgramError,
    >)
        requires
            N >= 1,
        ensures
            r is Ok <==> old(self).holds_leaf(hviews(proof@), leaf_of(val@)),
            r is Ok ==> old(self).replaced(
                *final(self),
                hviews(proof@),
                leaf_of(val@),
                old(self).zero_values[0]@,
            ),
            r is Err ==> *final(self) == *old(self) && r == Err::<(), ProgramError>(
                ProgramError::InvalidArgument,
            ),
    {
        Self::check_length(proof)?;
        let leaf = Self::as_leaf(val);
        let empty = self.get_empty_leaf();
        self.try_replace_leaf(proof, leaf, empty)
    }

    /// Replaces the leaf of `original_val` by that of `new_val`.
    pub fn try_replace(
        &mut self,
        proof: &[hash::Hash],
        original_val: hash::Hash,
        new_val: hash::Hash,
    ) -> (r: Result<(), ProgramError>)
        ensures
            r is Ok <==> old(self).holds_leaf(hviews(proof@), leaf_of(original_val@)),
            r is Ok ==> old(self).replaced(
                *final(self),
                hviews(proof@),
                leaf_of(original_val@),
                leaf_of(new_val@),
            ),
            r is Err ==> *final(self) == *old(self) && r == Err::<(), ProgramError>(
                ProgramError::InvalidArgument,
            ),
    {
        Self::check_length(proof)?;
        let original_leaf = Self::as_leaf(original_val);
        let new_leaf = Self::as_leaf(new_val);
        self.try_replace_leaf(proof, original_leaf, new_leaf)
    }
}

/// After a successful replacement, the new leaf is in the tree under the
/// same proof.
pub proof fn lemma_replaced_leaf_is_held<const N: usize>(
    before: MerkleTree<N>,
    after: MerkleTree<N>,
    proof: Seq<Seq<u8>>,
    original: Seq<u8>,
    new_leaf: Seq<u8>,
)
    requires
        before.holds_leaf(proof, original),
        before.replaced(after, proof, original, new_leaf),
    ensures
        after.holds_leaf(proof, new_leaf),
{
}

/// After a successful replacement, the original leaf is no longer held
/// under the same proof, unless the two leaves climb to the same root, which
/// takes two different inputs of the hash with one digest on that path.
pub proof fn lemma_replaced_leaf_is_gone<const N: usize>(
    before: MerkleTree<N>,
    after: MerkleTree<N>,
    proof: Seq<Seq<u8>>,
    original: Seq<u8>,
    new_leaf: Seq<u8>,
)
    requires
        before.holds_leaf(proof, original),
        before.replaced(after, proof, original, new_leaf),
        root_from(proof, original) != root_from(proof, new_leaf),
    ensures
        !after.holds_leaf(proof, original),
        after.holds_leaf(proof, new_leaf),
{
}

impl<const N: usize> MerkleTree<N> {
    /// The empty node of each level: the digest of the seeds, then the
    /// parent of two copies of the level below.
    fn calc_zeros(seeds: &[&[u8]]) -> (r: [hash::Hash; N])
        ensures
            forall|i: int|
                0 <= i < N ==> (#[trigger] r[i])@ == zero_node(
                    sha256v(seeds.deep_view()),
                    i as nat,
                ),
    {
        let mut zeros: [hash::Hash; N] = [hash::Hash { value: [0u8; 32] }; N];
        let mut current = crate::utils::hashv(seeds);
        let ghost seed = sha256v(seeds.deep_view());
        let mut i: usize = 0;
        while i < N
            invariant
                i <= N,
                current@ == zero_node(seed, i as nat),
                forall|j: int| 0 <= j < i ==> (#[trigger] zeros[j])@ == zero_node(seed, j as nat),
            decreases N - i,
        {
            zeros[i] = current;
            let parts: [&[u8]; 2] = [current.as_ref(), current.as_ref()];
            let s = parts.as_slice();
            assert(s.deep_view() =~= seq![current@, current@]) by {
                assert(s@[0].deep_view() =~= current@);
                assert(s@[1].deep_view() =~= current@);
            }
            current = crate::utils::hashv(s);
            i = i + 1;
        }
        zeros
    }

    /// An empty tree whose empty nodes grow from the digest of `seeds`; its
    /// root is the empty node of the top level.
    pub fn new(seeds: &[&[u8]]) -> (r: Self)
        requires
            N >= 1,
        ensures
            r.starts_empty(sha256v(seeds.deep_view())),
    {
        let zeros = Self::calc_zeros(seeds);
        MerkleTree { next_index: 0, root: zeros[N - 1], filled_subtrees: zeros, zero_values: zeros }
    }

    /// Empties the tree in place, as `new` builds it.
    pub fn init(&mut self, seeds: &[&[u8]])
        requires
            N >= 1,
        ensures
            final(self).starts_empty(sha256v(seeds.deep_view())),
    {
        let zeros = Self::calc_zeros(seeds);
        self.next_index = 0;
        self.root = zeros[N - 1];
        self.filled_subtrees = zeros;
        self.zero_values = zeros;
    }

    fn room_left(next_index: u64) -> (r: bool)
        ensures
            r == has_room(next_index, N as nat),
    {
        proof {
            lemma2_to64();
        }
        if N < 64 {
            proof {
                vstd::arithmetic::power2::lemma2_to64_rest();
                if N < 63 {
                    lemma_pow2_strictly_increases(N as nat, 63);
                }
                lemma_u64_shl_is_mul(1, N as u64);
            }
            next_index < (1u64 << (N as u64))
        } else {
            proof {
                if N > 64 {
                    lemma_pow2_strictly_increases(64, N as nat);
                }
            }
            next_index < u64::MAX
        }
    }

    /// Appends the leaf of `val` at the next free position, updating the
    /// frontier and the root. Refused, with the tree unchanged, when the
    /// tree is full.
    pub fn try_insert(&mut self, val: hash::Hash) -> (r: Result<(), ProgramError>)
        ensures
            r is Ok <==> has_room(old(self).next_index, N as nat),
            r is Err ==> *final(self) == *old(self) && r == Err::<(), ProgramError>(
                ProgramError::InvalidArgument,
            ),
            r is Ok ==> old(self).inserted(*final(self), leaf_of(val@)),
    {
        if !Self::room_left(self.next_index) {
            return Err(ProgramError::InvalidArgument);
        }
        let ghost zeros = hviews(self.zero_values@);
        let ghost target = insert_from(
            zeros,
            hviews(self.filled_subtrees@),
            self.next_index as nat,
            leaf_of(val@),
            0,
        );
        let mut current_index = self.next_index;
        let mut current_hash = Self::as_leaf(val);
        let mut i: usize = 0;
        while i < N
            invariant
                i <= N,
                zeros == hviews(self.zero_values@),
                zeros.len() == N,
                self.zero_values == old(self).zero_values,
                self.next_index == old(self).next_index,
                self.next_index < u64::MAX,
                target == insert_from(
                    zeros,
                    hviews(self.filled_subtrees@),
                    current_index as nat,
                    current_hash@,
                    i as nat,
                ),
            decreases N - i,
        {
            let left;
            let right;
            let ghost filled_before = hviews(self.filled_subtrees@);
            if current_index % 2 == 0 {
                left = current_hash;
                right = self.zero_values[i];
                self.filled_subtrees[i] = current_hash;
                assert(hviews(self.filled_subtrees@) =~= filled_before.update(i as int, current_hash@));
            } else {
                left = self.filled_subtrees[i];
                right = current_hash;
            }
            current_hash = Self::hash_left_right(left, right);
            current_index = current_index / 2;
            i = i + 1;
        }
        self.root = current_hash;
        self.next_index = self.next_index + 1;
        Ok(())
    }
}

/// The parents of consecutive pairs of nodes.
pub open spec fn pair_up(s: Seq<Seq<u8>>) -> Seq<Seq<u8>> {
    Seq::new(s.len() / 2, |k: int| combine(s[2 * k], s[2 * k + 1]))
}

/// A level made even by the level's empty node where it is odd.
pub open spec fn pad(s: Seq<Seq<u8>>, z: Seq<u8>) -> Seq<Seq<u8>> {
    if s.len() % 2 != 0 {
        s.push(z)
    } else {
        s
    }
}

/// The nodes of level `k` built over `values`, before padding.
pub open spec fn raw_layer(values: Seq<Seq<u8>>, zeros: Seq<Seq<u8>>, k: nat) -> Seq<Seq<u8>>
    decreases k,
{
    if k == 0 {
        values
    } else {
        pair_up(pad(raw_layer(values, zeros, (k - 1) as nat), zeros[k - 1]))
    }
}

/// The position above `index` after `k` levels.
pub open spec fn shr(index: nat, k: nat) -> nat
    decreases k,
{
    if k == 0 {
        index
    } else {
        shr(index, (k - 1) as nat) / 2
    }
}

/// The other child of the parent of position `c`.
pub open spec fn sibling(c: nat) -> nat {
    if c % 2 == 0 {
        c + 1
    } else {
        (c - 1) as nat
    }
}

/// The siblings of position `index` from the bottom level up, in the tree
/// built over `values` with empty nodes `zeros`.
pub open spec fn proof_for(values: Seq<Seq<u8>>, zeros: Seq<Seq<u8>>, index: nat, n: nat) -> Seq<
    Seq<u8>,
> {
    Seq::new(
        n,
        |k: int| pad(raw_layer(values, zeros, k as nat), zeros[k])[sibling(shr(index, k as nat)) as int],
    )
}

impl<const N: usize> MerkleTree<N> {
    /// The parents of consecutive pairs of `pairs`.
    fn hash_pairs(pairs: Vec<hash::Hash>) -> (r: Vec<hash::Hash>)
        requires
            pairs@.len() % 2 == 0,
        ensures
            hviews(r@) == pair_up(hviews(pairs@)),
    {
        let mut res: Vec<hash::Hash> = Vec::new();
        let mut i: usize = 0;
        while i < pairs.len()
            invariant
                pairs@.len() % 2 == 0,
                i % 2 == 0,
                i <= pairs@.len(),
                res@.len() == i / 2,
                forall|k: int|
                    0 <= k < i / 2 ==> (#[trigger] res@[k])@ == combine(
                        pairs@[2 * k]@,
                        pairs@[2 * k + 1]@,
                    ),
            decreases pairs@.len() - i,
        {
            let left = pairs[i];
            let right = pairs[i + 1];
            let hashed = Self::hash_left_right(left, right);
            res.push(hashed);
            i = i + 2;
        }
        assert(hviews(res@) =~= pair_up(hviews(pairs@)));
        res
    }

    /// The siblings of position `index` from the bottom level up, in the
    /// tree whose leaves are `values` followed by empty leaves; `index` may
    /// also be the empty position that pads an odd number of values.
    pub fn get_merkle_proof(&self, values: &[hash::Hash], index: usize) -> (r: Vec<hash::Hash>)
        requires
            N > 0 ==> index < values@.len() + values@.len() % 2,
        ensures
            hviews(r@) == proof_for(hviews(values@), hviews(self.zero_values@), index as nat, N as nat),
    {
        let ghost vals = hviews(values@);
        let ghost zeros = hviews(self.zero_values@);
        let mut current_layer: Vec<hash::Hash> = Vec::new();
        let mut j: usize = 0;
        while j < values.len()
            invariant
                j <= values@.len(),
                current_layer@ == values@.take(j as int),
            decreases values@.len() - j,
        {
            current_layer.push(values[j]);
            j = j + 1;
            assert(current_layer@ =~= values@.take(j as int));
        }
        assert(values@.take(j as int) =~= values@);
        let mut proof: Vec<hash::Hash> = Vec::new();
        let mut current_index = index;
        let mut i: usize = 0;
        while i < N
            invariant
                i <= N,
                vals == hviews(values@),
                zeros == hviews(self.zero_values@),
                zeros.len() == N,
                hviews(current_layer@) == raw_layer(vals, zeros, i as nat),
                current_index == shr(index as nat, i as nat),
                i < N ==> current_index < current_layer@.len() + current_layer@.len() % 2,
                hviews(proof@) == proof_for(vals, zeros, index as nat, i as nat),
            decreases N - i,
        {
            let ghost raw = hviews(current_layer@);
            if current_layer.len() % 2 != 0 {
                current_layer.push(self.zero_values[i]);
            }
            assert(hviews(current_layer@) =~= pad(raw, zeros[i as int]));
            let sibling_node;
            if current_index % 2 == 0 {
                sibling_node = current_layer[current_index + 1];
            } else {
                sibling_node = current_layer[current_index - 1];
            }
            let ghost proof_before = hviews(proof@);
            proof.push(sibling_node);
            assert(hviews(proof@) =~= proof_before.push(sibling_node@));
            assert(hviews(proof@) =~= proof_for(vals, zeros, index as nat, (i + 1) as nat));
            let ghost padded_len = current_layer@.len();
            current_layer = Self::hash_pairs(current_layer);
            current_index = current_index / 2;
            i = i + 1;
            assert(hviews(current_layer@).len() == current_layer@.len());
            assert(current_layer@.len() == padded_len / 2);
        }
        proof
    }
}


/// The bytes of each hash in turn.
pub open spec fn hashes_bytes(s: Seq<hash::Hash>) -> Seq<u8> {
    flatten(s.map_values(|h: hash::Hash| h@))
}

impl<const N: usize> MerkleTree<N> {
    /// The tree as laid out in account data: the root, the frontier, the
    /// empty nodes, then the leaf count.
    pub open spec fn spec_bytes(self) -> Seq<u8> {
        self.root@ + hashes_bytes(self.filled_subtrees@) + hashes_bytes(self.zero_values@) + enc_u64(self.next_index)
    }

    fn write_hashes(w: &mut Vec<u8>, hashes: &[hash::Hash; N])
        ensures
            final(w)@ == old(w)@ + hashes_bytes(hashes@),
    {
        let ghost start = w@;
        let mut i: usize = 0;
        while i < N
            invariant
                i <= N,
                w@ == start + hashes_bytes(hashes@.take(i as int)),
            decreases N - i,
        {
            write_array32(w, &hashes[i].value);
            proof {
                let m = hashes@.take(i + 1).map_values(|h: hash::Hash| h@);
                assert(m.drop_last() =~= hashes@.take(i as int).map_values(|h: hash::Hash| h@));
                assert(m.last() == hashes[i as int].value@);
            }
            i = i + 1;
        }
        assert(hashes@.take(i as int) =~= hashes@);
    }

    fn read_hashes(data: &[u8], pos: usize) -> (r: [hash::Hash; N])
        requires
            pos + 32 * N <= data@.len(),
        ensures
            hashes_bytes(r@) == data@.subrange(pos as int, pos + 32 * N),
    {
        let raw: [[u8; 32]; N] = read_arrays32::<N>(data, pos);
        let mut out: [hash::Hash; N] = [hash::Hash { value: [0u8; 32] }; N];
        let mut i: usize = 0;
        while i < N
            invariant
                i <= N,
                forall|j: int| 0 <= j < i ==> (#[trigger] out[j]).value == raw[j],
            decreases N - i,
        {
            out[i] = hash::Hash { value: raw[i] };
            i = i + 1;
        }
        assert(out@.map_values(|h: hash::Hash| h@) =~= raw@.map_values(|a: [u8; 32]| a@));
        out
    }

    /// Appends the tree's bytes.
    pub fn pack(&self, w: &mut Vec<u8>)
        ensures
            final(w)@ == old(w)@ + self.spec_bytes(),
    {
        write_bytes(w, self.root.value.as_slice());
        Self::write_hashes(w, &self.filled_subtrees);
        Self::write_hashes(w, &self.zero_values);
        write_u64(w, self.next_index);
        assert(final(w)@ =~= old(w)@ + self.spec_bytes());
    }

    /// Reads a tree laid out at `pos`.
    pub fn unpack_at(data: &[u8], pos: usize) -> (r: Self)
        requires
            pos + 64 * N + 40 <= data@.len(),
        ensures
            r.spec_bytes() == data@.subrange(pos as int, pos + 64 * N + 40),
    {
        proof {
            lemma_le_bytes();
        }
        assert(data@.len() == data.len());
        let root = hash::Hash { value: copy_array::<32>(data, pos) };
        let filled_subtrees = Self::read_hashes(data, pos + 32);
        let zero_values = Self::read_hashes(data, pos + 32 + 32 * N);
        let next_index = u64_from_array(copy_array::<8>(data, pos + 32 + 64 * N));
        let r = MerkleTree { root, filled_subtrees, zero_values, next_index };
        assert(r.spec_bytes() =~= data@.subrange(pos as int, pos + 64 * N + 40));
        r
    }
}


/// Hashes laid side by side are told apart by their bytes.
proof fn lemma_hashes_unique(x: Seq<hash::Hash>, y: Seq<hash::Hash>)
    requires
        x.len() == y.len(),
        hashes_bytes(x) == hashes_bytes(y),
    ensures
        x == y,
{
    let vx = x.map_values(|h: hash::Hash| h.value);
    let vy = y.map_values(|h: hash::Hash| h.value);
    assert(x.map_values(|h: hash::Hash| h@) =~= vx.map_values(|a: [u8; 32]| a@));
    assert(y.map_values(|h: hash::Hash| h@) =~= vy.map_values(|a: [u8; 32]| a@));
    lemma_vec32_unique(vx, vy);
    assert forall|i: int| 0 <= i < x.len() implies x[i] == y[i] by {
        assert(vx[i] == vy[i]);
    }
    assert(x =~= y);
}

/// The bytes of `N` hashes.
proof fn lemma_hashes_len(x: Seq<hash::Hash>)
    ensures
        hashes_bytes(x).len() == 32 * x.len(),
{
    let vx = x.map_values(|h: hash::Hash| h.value);
    assert(x.map_values(|h: hash::Hash| h@) =~= vx.map_values(|a: [u8; 32]| a@));
    lemma_flatten32(vx);
}

/// Hashes laid side by side: hash `i` in bytes `32 * i` up to `32 * i + 32`.
proof fn lemma_hashes_at(x: Seq<hash::Hash>)
    ensures
        hashes_bytes(x).len() == 32 * x.len(),
        forall|i: int| 0 <= i < x.len() ==> #[trigger] hashes_bytes(x).subrange(32 * i, 32 * i + 32) == x[i]@,
{
    let vx = x.map_values(|h: hash::Hash| h.value);
    assert(x.map_values(|h: hash::Hash| h@) =~= vx.map_values(|a: [u8; 32]| a@));
    lemma_flatten32(vx);
    assert forall|i: int| 0 <= i < x.len() implies #[trigger] hashes_bytes(x).subrange(32 * i, 32 * i + 32) == x[i]@ by {
        assert(arrays_bytes(vx).subrange(32 * i, 32 * i + 32) == vx[i]@);
    }
}

impl<const N: usize> MerkleTree<N> {
    /// Where each field lies in the encoding: the root in bytes 0..32, frontier
    /// node `i` at `32 + 32 * i`, empty node `i` at `32 + 32 * N + 32 * i`, each
    /// 32 bytes long, then the leaf count as eight little-endian bytes.
    pub proof fn lemma_field_offsets(self)
        ensures
            self.spec_bytes().len() == 64 * N + 40,
            self.spec_bytes().subrange(0, 32) == self.root@,
            forall|i: int| 0 <= i < N ==> #[trigger] self.spec_bytes().subrange(32 + 32 * i, 64 + 32 * i)
                == self.filled_subtrees[i]@,
            forall|i: int| 0 <= i < N ==> #[trigger] self.spec_bytes().subrange(32 + 32 * N + 32 * i, 64 + 32 * N + 32 * i)
                == self.zero_values[i]@,
            spec_u64_from_le_bytes(self.spec_bytes().subrange(32 + 64 * N, 40 + 64 * N)) == self.next_index,
    {
        lemma_le_bytes();
        lemma_hashes_at(self.filled_subtrees@);
        lemma_hashes_at(self.zero_values@);
        let b = self.spec_bytes();
        let n = N as int;
        let f = hashes_bytes(self.filled_subtrees@);
        let z = hashes_bytes(self.zero_values@);
        assert(b.subrange(0, 32) =~= self.root@);
        assert forall|i: int| 0 <= i < N implies #[trigger] b.subrange(32 + 32 * i, 64 + 32 * i) == self.filled_subtrees[i]@ by {
            assert(b.subrange(32 + 32 * i, 64 + 32 * i) =~= f.subrange(32 * i, 32 * i + 32));
        }
        assert forall|i: int| 0 <= i < N implies #[trigger] b.subrange(32 + 32 * n + 32 * i, 64 + 32 * n + 32 * i) == self.zero_values[i]@ by {
            assert(b.subrange(32 + 32 * n + 32 * i, 64 + 32 * n + 32 * i) =~= z.subrange(32 * i, 32 * i + 32));
        }
        assert(b.subrange(32 + 64 * n, 40 + 64 * n) =~= enc_u64(self.next_index));
    }

    /// A tree is fixed by its bytes, so `unpack_at` reads back what `pack`
    /// wrote.
    pub proof fn lemma_bytes_determine(self, other: Self)
        requires
            self.spec_bytes() == other.spec_bytes(),
        ensures
            self == other,
    {
        broadcast use vstd::array::axiom_array_ext_equal;
        lemma_le_bytes();
        lemma_enc_injective();
        lemma_hashes_len(self.filled_subtrees@);
        lemma_hashes_len(self.zero_values@);
        lemma_hashes_len(other.filled_subtrees@);
        lemma_hashes_len(other.zero_values@);
        let b = self.spec_bytes();
        let n = N as int;
        assert(self.root@ =~= b.subrange(0, 32));
        assert(other.root@ =~= b.subrange(0, 32));
        crate::codec::lemma_array_ext(self.root.value, other.root.value);
        assert(hashes_bytes(self.filled_subtrees@) =~= b.subrange(32, 32 + 32 * n));
        assert(hashes_bytes(other.filled_subtrees@) =~= b.subrange(32, 32 + 32 * n));
        lemma_hashes_unique(self.filled_subtrees@, other.filled_subtrees@);
        assert(hashes_bytes(self.zero_values@) =~= b.subrange(32 + 32 * n, 32 + 64 * n));
        assert(hashes_bytes(other.zero_values@) =~= b.subrange(32 + 32 * n, 32 + 64 * n));
        lemma_hashes_unique(self.zero_values@, other.zero_values@);
        assert(enc_u64(self.next_index) =~= b.subrange(32 + 64 * n, 40 + 64 * n));
        assert(enc_u64(other.next_index) =~= b.subrange(32 + 64 * n, 40 + 64 * n));
        assert(self.filled_subtrees =~= other.filled_subtrees);
        assert(self.zero_values =~= other.zero_values);
    }
}

} // verus!
