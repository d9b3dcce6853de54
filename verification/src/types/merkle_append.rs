//! What the frontier of `MerkleTree` stands for: after each insertion, its
//! root is the root of the full tree whose leaves are the inserted ones, in
//! order, followed by empty leaves.
use vstd::prelude::*;
use vstd::arithmetic::div_mod::{lemma_div_denominator, lemma_fundamental_div_mod, lemma_fundamental_div_mod_converse_div, lemma_mod_pos_bound};
use vstd::arithmetic::power2::{lemma2_to64, lemma_pow2_pos, lemma_pow2_unfold, pow2};

use crate::types::merkle_tree::{climb, combine, has_room, hviews, insert_from, leaf_of, lex_le, pad, pair_up, proof_for, raw_layer, shr, sibling, zero_node, MerkleTree};

verus! {

/// Node `idx` of `level` in the full tree whose leaves are `leaves`
/// followed by empty leaves (`zeros[0]`).
pub open spec fn node(leaves: Seq<Seq<u8>>, zeros: Seq<Seq<u8>>, level: nat, idx: nat) -> Seq<u8>
    decreases level,
{
    if level == 0 {
        if idx < leaves.len() {
            leaves[idx as int]
        } else {
            zeros[0]
        }
    } else {
        combine(
            node(leaves, zeros, (level - 1) as nat, 2 * idx),
            node(leaves, zeros, (level - 1) as nat, 2 * idx + 1),
        )
    }
}

/// The empty node of each level grows from `seed`.
pub open spec fn zeros_from(zeros: Seq<Seq<u8>>, seed: Seq<u8>) -> bool {
    forall|i: int| 0 <= i < zeros.len() ==> #[trigger] zeros[i] == zero_node(seed, i as nat)
}

proof fn lemma_lex_reflexive(a: Seq<u8>)
    ensures
        lex_le(a, a),
    decreases a.len(),
{
    if a.len() > 0 {
        lemma_lex_reflexive(a.drop_first());
    }
}

proof fn lemma_shr_is_div(m: nat, k: nat)
    ensures
        shr(m, k) == m / pow2(k),
    decreases k,
{
    lemma_pow2_pos(k);
    if k == 0 {
        lemma2_to64();
    } else {
        lemma_shr_is_div(m, (k - 1) as nat);
        lemma_pow2_unfold(k);
        lemma_pow2_pos((k - 1) as nat);
        lemma_div_denominator(m as int, pow2((k - 1) as nat) as int, 2);
        assert(pow2((k - 1) as nat) * 2 == pow2(k));
    }
}

/// A node all of whose leaves lie at or past the end of `leaves` is the
/// empty node of its level.
proof fn lemma_node_empty(leaves: Seq<Seq<u8>>, zeros: Seq<Seq<u8>>, seed: Seq<u8>, k: nat, idx: nat)
    requires
        zeros_from(zeros, seed),
        zeros.len() >= 1,
        idx * pow2(k) >= leaves.len(),
    ensures
        node(leaves, zeros, k, idx) == zero_node(seed, k),
    decreases k,
{
    if k == 0 {
        assert(zeros[0] == zero_node(seed, 0));
        lemma2_to64();
    } else {
        lemma_pow2_unfold(k);
        let p = pow2((k - 1) as nat);
        assert((2 * idx) * p == idx * (2 * p)) by (nonlinear_arith);
        assert((2 * idx + 1) * p >= (2 * idx) * p) by (nonlinear_arith);
        lemma_node_empty(leaves, zeros, seed, (k - 1) as nat, 2 * idx);
        lemma_node_empty(leaves, zeros, seed, (k - 1) as nat, 2 * idx + 1);
        lemma_lex_reflexive(zero_node(seed, (k - 1) as nat));
    }
}

/// A node all of whose leaves lie before the end of `leaves` does not
/// change when a leaf is appended.
proof fn lemma_node_frame(leaves: Seq<Seq<u8>>, x: Seq<u8>, zeros: Seq<Seq<u8>>, k: nat, idx: nat)
    requires
        (idx + 1) * pow2(k) <= leaves.len(),
    ensures
        node(leaves.push(x), zeros, k, idx) == node(leaves, zeros, k, idx),
    decreases k,
{
    if k == 0 {
        lemma2_to64();
    } else {
        lemma_pow2_unfold(k);
        let p = pow2((k - 1) as nat);
        assert((2 * idx + 2) * p == (idx + 1) * (2 * p)) by (nonlinear_arith);
        assert((2 * idx + 1) * p <= (2 * idx + 2) * p) by (nonlinear_arith);
        lemma_node_frame(leaves, x, zeros, (k - 1) as nat, 2 * idx);
        lemma_node_frame(leaves, x, zeros, (k - 1) as nat, 2 * idx + 1);
    }
}

/// `idx = m / p` places `m` in the block `[idx * p, (idx + 1) * p)`.
proof fn lemma_block(m: nat, p: nat)
    requires
        p > 0,
    ensures
        (m / p) * p <= m < (m / p + 1) * p,
{
    lemma_fundamental_div_mod(m as int, p as int);
    lemma_mod_pos_bound(m as int, p as int);
    let q = m / p;
    assert(q * p == p * q) by (nonlinear_arith);
    assert((q + 1) * p == q * p + p) by (nonlinear_arith);
}

/// Below an odd position at `level`, the last leaf before `m` sits in the
/// block to its left or in its own block; either way the even position of
/// its pair is the left neighbour.
proof fn lemma_odd_left(m: nat, level: nat)
    requires
        m >= 1,
        shr(m, level) % 2 == 1,
    ensures
        2 * (shr((m - 1) as nat, level) / 2) == shr(m, level) - 1,
{
    lemma_shr_is_div(m, level);
    lemma_shr_is_div((m - 1) as nat, level);
    let p = pow2(level);
    lemma_pow2_pos(level);
    let q = m / p;
    lemma_fundamental_div_mod(m as int, p as int);
    lemma_mod_pos_bound(m as int, p as int);
    let r = m % p;
    assert(m == q * p + r) by (nonlinear_arith)
        requires
            m == p * q + r,
    ;
    if r >= 1 {
        assert((m - 1) as int == q * p + (r - 1));
        lemma_fundamental_div_mod_converse_div((m - 1) as int, p as int, q as int, (r - 1) as int);
    } else {
        assert(q >= 1);
        assert((m - 1) as int == (q - 1) * p + (p - 1)) by (nonlinear_arith)
            requires
                m == q * p + r,
                r == 0,
        ;
        lemma_fundamental_div_mod_converse_div(
            (m - 1) as int,
            p as int,
            (q - 1) as int,
            (p - 1) as int,
        );
    }
}

/// `insert_from` run from `level` on a frontier whose odd positions hold
/// their left neighbours computes the nodes of the tree with `x` appended:
/// the top node, and the new frontier (even positions take the new node).
proof fn lemma_insert_from_nodes(
    leaves: Seq<Seq<u8>>,
    x: Seq<u8>,
    zeros: Seq<Seq<u8>>,
    seed: Seq<u8>,
    filled: Seq<Seq<u8>>,
    level: nat,
    h: Seq<u8>,
)
    requires
        zeros_from(zeros, seed),
        zeros.len() >= 1,
        level <= zeros.len(),
        leaves.len() + 1 <= pow2(zeros.len()),
        filled.len() == zeros.len(),
        h == node(leaves.push(x), zeros, level, shr(leaves.len(), level)),
        forall|i: int|
            level <= i < zeros.len() && #[trigger] shr(leaves.len(), i as nat) % 2 == 1 ==> filled[i]
                == node(leaves, zeros, i as nat, (shr(leaves.len(), i as nat) - 1) as nat),
    ensures
        ({
            let (f, r) = insert_from(zeros, filled, shr(leaves.len(), level), h, level);
            &&& r == node(leaves.push(x), zeros, zeros.len(), 0)
            &&& f.len() == zeros.len()
            &&& forall|i: int|
                0 <= i < zeros.len() ==> #[trigger] f[i] == (if i < level {
                    filled[i]
                } else if shr(leaves.len(), i as nat) % 2 == 0 {
                    node(leaves.push(x), zeros, i as nat, shr(leaves.len(), i as nat))
                } else {
                    filled[i]
                })
        }),
    decreases zeros.len() - level,
{
    let m = leaves.len();
    let lx = leaves.push(x);
    let n = zeros.len();
    let idx = shr(m, level);
    lemma_shr_is_div(m, level);
    lemma_pow2_pos(level);
    lemma_block(m, pow2(level));
    if level >= n {
        lemma_shr_is_div(m, n);
        lemma_pow2_pos(n);
        assert(m / pow2(n) == 0) by {
            lemma_fundamental_div_mod_converse_div(m as int, pow2(n) as int, 0, m as int);
        }
    } else if idx % 2 == 0 {
        let h2 = combine(h, zeros[level as int]);
        assert(zeros[level as int] == zero_node(seed, level));
        lemma_node_empty(lx, zeros, seed, level, idx + 1);
        assert(2 * (idx / 2) == idx);
        assert(h2 == node(lx, zeros, level + 1, shr(m, level + 1)));
        lemma_insert_from_nodes(
            leaves,
            x,
            zeros,
            seed,
            filled.update(level as int, h),
            level + 1,
            h2,
        );
    } else {
        let h2 = combine(filled[level as int], h);
        let li = level as int;
        assert(li as nat == level);
        assert(level <= li < zeros.len() && shr(leaves.len(), li as nat) % 2 == 1);
        assert(filled[li] == node(leaves, zeros, li as nat, (shr(leaves.len(), li as nat) - 1) as nat));
        assert(filled[level as int] == node(leaves, zeros, level, (idx - 1) as nat));
        assert(((idx - 1) as nat + 1) * pow2(level) <= m);
        lemma_node_frame(leaves, x, zeros, level, (idx - 1) as nat);
        assert(2 * (idx / 2) == idx - 1);
        assert(h2 == node(lx, zeros, level + 1, shr(m, level + 1)));
        lemma_insert_from_nodes(leaves, x, zeros, seed, filled, level + 1, h2);
    }
}

impl<const N: usize> MerkleTree<N> {
    /// This tree is the frontier of the full tree whose leaves are `leaves`
    /// followed by empty leaves, with empty nodes grown from `seed`: it
    /// counts the leaves, and once one is in, its root is that tree's root
    /// and each frontier node is the last left node of its level.
    pub open spec fn tracks(self, leaves: Seq<Seq<u8>>, seed: Seq<u8>) -> bool {
        let zeros = hviews(self.zero_values@);
        let m = leaves.len();
        &&& N >= 1
        &&& forall|i: int| 0 <= i < N ==> (#[trigger] self.zero_values[i])@ == zero_node(seed, i as nat)
        &&& self.next_index == m
        &&& m >= 1 ==> self.root@ == node(leaves, zeros, N as nat, 0)
        &&& m >= 1 ==> forall|i: int|
            0 <= i < N ==> (#[trigger] self.filled_subtrees[i])@ == node(
                leaves,
                zeros,
                i as nat,
                2 * (shr((m - 1) as nat, i as nat) / 2),
            )
    }
}

/// A new tree tracks the empty sequence of leaves.
pub proof fn lemma_new_tree_tracks<const N: usize>(tree: MerkleTree<N>, seed: Seq<u8>)
    requires
        N >= 1,
        tree.starts_empty(seed),
    ensures
        tree.tracks(Seq::empty(), seed),
{
}

/// Appending a leaf to a tree that tracks `leaves` gives a tree that tracks
/// `leaves` with that leaf at the end; in particular its root is the root of
/// the full tree over the leaves inserted so far.
pub proof fn lemma_insert_tracks<const N: usize>(
    before: MerkleTree<N>,
    after: MerkleTree<N>,
    leaves: Seq<Seq<u8>>,
    seed: Seq<u8>,
    leaf: Seq<u8>,
)
    requires
        before.tracks(leaves, seed),
        has_room(before.next_index, N as nat),
        before.inserted(after, leaf),
    ensures
        after.tracks(leaves.push(leaf), seed),
{
    let zeros = hviews(before.zero_values@);
    let filled = hviews(before.filled_subtrees@);
    let m = leaves.len();
    assert(zeros_from(zeros, seed)) by {
        assert forall|i: int| 0 <= i < zeros.len() implies #[trigger] zeros[i] == zero_node(
            seed,
            i as nat,
        ) by {
            assert(zeros[i] == before.zero_values[i]@);
        }
    }
    assert forall|i: int|
        0 <= i < zeros.len() && #[trigger] shr(m, i as nat) % 2 == 1 implies filled[i] == node(
        leaves,
        zeros,
        i as nat,
        (shr(m, i as nat) - 1) as nat,
    ) by {
        if m == 0 {
            lemma_shr_is_div(0, i as nat);
            lemma_pow2_pos(i as nat);
        }
        lemma_odd_left(m, i as nat);
        assert(filled[i] == before.filled_subtrees[i]@);
    }
    assert(shr(m, 0) == m);
    lemma_insert_from_nodes(leaves, leaf, zeros, seed, filled, 0, leaf);
    let lx = leaves.push(leaf);
    assert(hviews(after.zero_values@) == zeros);
    assert forall|i: int| 0 <= i < N implies (#[trigger] after.filled_subtrees[i])@ == node(
        lx,
        zeros,
        i as nat,
        2 * (shr(m, i as nat) / 2),
    ) by {
        assert(after.filled_subtrees[i]@ == hviews(after.filled_subtrees@)[i]);
        if shr(m, i as nat) % 2 == 1 {
            lemma_shr_is_div(m, i as nat);
            lemma_pow2_pos(i as nat);
            lemma_block(m, pow2(i as nat));
            let idx = shr(m, i as nat);
            assert(((idx - 1) as nat + 1) * pow2(i as nat) <= m);
            lemma_node_frame(leaves, leaf, zeros, i as nat, (idx - 1) as nat);
            lemma_odd_left(m, i as nat);
            assert(filled[i] == before.filled_subtrees[i]@);
        }
    }
}

proof fn lemma_lex_total_any(a: Seq<u8>, b: Seq<u8>)
    ensures
        lex_le(a, b) || lex_le(b, a),
    decreases a.len(),
{
    if a.len() > 0 && b.len() > 0 && a[0] == b[0] {
        lemma_lex_total_any(a.drop_first(), b.drop_first());
    }
}

proof fn lemma_lex_antisymmetric_any(a: Seq<u8>, b: Seq<u8>)
    requires
        lex_le(a, b),
        lex_le(b, a),
    ensures
        a == b,
    decreases a.len(),
{
    if a.len() > 0 && b.len() > 0 {
        assert(a[0] == b[0]);
        assert(lex_le(a.drop_first(), b.drop_first()));
        assert(lex_le(b.drop_first(), a.drop_first()));
        lemma_lex_antisymmetric_any(a.drop_first(), b.drop_first());
        assert(a.drop_first().len() == b.drop_first().len());
        assert(a.len() == b.len());
        assert forall|i: int| 0 <= i < a.len() implies a[i] == b[i] by {
            if i > 0 {
                assert(a[i] == a.drop_first()[i - 1]);
                assert(b[i] == b.drop_first()[i - 1]);
            }
        }
    }
    assert(a =~= b);
}

/// The parent of two nodes does not depend on their order.
proof fn lemma_combine_symmetric(a: Seq<u8>, b: Seq<u8>)
    ensures
        combine(a, b) == combine(b, a),
{
    lemma_lex_total_any(a, b);
    if lex_le(a, b) && lex_le(b, a) {
        lemma_lex_antisymmetric_any(a, b);
    }
}

/// `j < l * p` puts `j / p` below `l`.
proof fn lemma_div_below(j: nat, l: nat, p: nat)
    requires
        p > 0,
        j < l * p,
    ensures
        j / p < l,
{
    lemma_fundamental_div_mod(j as int, p as int);
    lemma_mod_pos_bound(j as int, p as int);
    let q = j / p;
    assert(p * q <= j);
    assert(q < l) by (nonlinear_arith)
        requires
            p > 0,
            p * q < l * p,
    ;
}

/// Level `k` of the tree built over `values`, padded with the level's empty
/// node, holds the nodes of the full tree, and covers all the values.
proof fn lemma_layer_nodes(values: Seq<Seq<u8>>, zeros: Seq<Seq<u8>>, seed: Seq<u8>, k: nat)
    requires
        zeros_from(zeros, seed),
        k < zeros.len(),
    ensures
        raw_layer(values, zeros, k).len() * pow2(k) >= values.len(),
        forall|t: int|
            0 <= t < pad(raw_layer(values, zeros, k), zeros[k as int]).len() ==> #[trigger] pad(
                raw_layer(values, zeros, k),
                zeros[k as int],
            )[t] == node(values, zeros, k, t as nat),
    decreases k,
{
    let l = raw_layer(values, zeros, k);
    lemma_pow2_pos(k);
    if k == 0 {
        lemma2_to64();
    } else {
        let k1 = (k - 1) as nat;
        lemma_layer_nodes(values, zeros, seed, k1);
        let below = raw_layer(values, zeros, k1);
        let padded = pad(below, zeros[k1 as int]);
        assert(l == pair_up(padded));
        assert forall|t: int| 0 <= t < l.len() implies #[trigger] l[t] == node(values, zeros, k, t as nat) by {
            assert(padded[2 * t] == node(values, zeros, k1, (2 * t) as nat));
            assert(padded[2 * t + 1] == node(values, zeros, k1, (2 * t + 1) as nat));
        }
        lemma_pow2_unfold(k);
        let p = pow2(k1);
        assert(padded.len() >= below.len());
        assert(l.len() * 2 == padded.len());
        assert(l.len() * pow2(k) == padded.len() * p) by (nonlinear_arith)
            requires
                l.len() * 2 == padded.len(),
                pow2(k) == 2 * p,
        ;
        assert(padded.len() * p >= below.len() * p) by (nonlinear_arith)
            requires
                padded.len() >= below.len(),
                p > 0,
        ;
    }
    assert forall|t: int| 0 <= t < pad(l, zeros[k as int]).len() implies #[trigger] pad(l, zeros[k as int])[t] == node(
        values,
        zeros,
        k,
        t as nat,
    ) by {
        if t >= l.len() {
            assert(t == l.len());
            lemma_node_empty(values, zeros, seed, k, t as nat);
            assert(zeros[k as int] == zero_node(seed, k));
        } else if k == 0 {
        }
    }
}

/// Climbing from leaf `j` with the siblings the proof gathers over `n`
/// levels reaches node `j >> n` of level `n`.
proof fn lemma_climb_nodes(values: Seq<Seq<u8>>, zeros: Seq<Seq<u8>>, seed: Seq<u8>, j: nat, n: nat)
    requires
        zeros_from(zeros, seed),
        n <= zeros.len(),
        j < values.len(),
    ensures
        climb(proof_for(values, zeros, j, n), values[j as int]).last() == node(values, zeros, n, shr(j, n)),
    decreases n,
{
    let p = proof_for(values, zeros, j, n);
    if n > 0 {
        let k = (n - 1) as nat;
        lemma_climb_nodes(values, zeros, seed, j, k);
        assert(p.drop_last() =~= proof_for(values, zeros, j, k));
        crate::types::merkle_tree::lemma_climb_len(p.drop_last(), values[j as int]);
        let c = shr(j, k);
        lemma_layer_nodes(values, zeros, seed, k);
        let l = raw_layer(values, zeros, k);
        lemma_shr_is_div(j, k);
        lemma_pow2_pos(k);
        lemma_div_below(j, l.len(), pow2(k));
        let padded = pad(l, zeros[k as int]);
        assert(sibling(c) < padded.len());
        assert(p.last() == padded[sibling(c) as int]);
        let cur = climb(p.drop_last(), values[j as int]).last();
        assert(cur == node(values, zeros, k, c));
        if c % 2 == 1 {
            lemma_combine_symmetric(node(values, zeros, k, c), node(values, zeros, k, (c - 1) as nat));
            assert(2 * (c / 2) == c - 1);
        } else {
            assert(2 * (c / 2) == c);
        }
    }
}

/// Every leaf of a tree built by insertions is proven by the siblings that
/// `get_merkle_proof` gathers over the inserted leaves: climbing from the
/// leaf with them reaches the tree's root, so `contains` accepts it.
pub proof fn lemma_proof_reaches_root<const N: usize>(
    tree: MerkleTree<N>,
    leaves: Seq<Seq<u8>>,
    seed: Seq<u8>,
    j: nat,
)
    requires
        tree.tracks(leaves, seed),
        leaves.len() <= pow2(N as nat),
        j < leaves.len(),
    ensures
        tree.holds_leaf(proof_for(leaves, hviews(tree.zero_values@), j, N as nat), leaves[j as int]),
{
    let zeros = hviews(tree.zero_values@);
    assert(zeros_from(zeros, seed)) by {
        assert forall|i: int| 0 <= i < zeros.len() implies #[trigger] zeros[i] == zero_node(seed, i as nat) by {
            assert(zeros[i] == tree.zero_values[i]@);
        }
    }
    lemma_climb_nodes(leaves, zeros, seed, j, N as nat);
    lemma_shr_is_div(j, N as nat);
    lemma_pow2_pos(N as nat);
    lemma_div_below(j, 1, pow2(N as nat));
}

/// Each step of `trees` is a successful `try_insert` of the next value.
pub open spec fn inserts_each<const N: usize>(trees: Seq<MerkleTree<N>>, values: Seq<Seq<u8>>) -> bool {
    &&& trees.len() == values.len() + 1
    &&& forall|k: int|
        0 <= k < values.len() ==> has_room(#[trigger] trees[k].next_index, N as nat) && trees[k].inserted(
            trees[k + 1],
            leaf_of(values[k]),
        )
}

/// The leaves of `values`, in order.
pub open spec fn leaves_of(values: Seq<Seq<u8>>) -> Seq<Seq<u8>> {
    values.map_values(|v: Seq<u8>| leaf_of(v))
}

proof fn lemma_trees_track<const N: usize>(trees: Seq<MerkleTree<N>>, values: Seq<Seq<u8>>, seed: Seq<u8>, k: nat)
    requires
        N >= 1,
        trees[0].starts_empty(seed),
        inserts_each(trees, values),
        k <= values.len(),
    ensures
        trees[k as int].tracks(leaves_of(values).take(k as int), seed),
    decreases k,
{
    if k == 0 {
        lemma_new_tree_tracks(trees[0], seed);
        assert(leaves_of(values).take(0) =~= Seq::<Seq<u8>>::empty());
    } else {
        let p = (k - 1) as nat;
        lemma_trees_track(trees, values, seed, p);
        assert(has_room(trees[p as int].next_index, N as nat));
        lemma_insert_tracks(trees[p as int], trees[k as int], leaves_of(values).take(p as int), seed, leaf_of(values[p as int]));
        assert(leaves_of(values).take(p as int).push(leaf_of(values[p as int])) =~= leaves_of(values).take(k as int));
    }
}

/// A tree built by `new` and then successful insertions of `values`, in
/// order, proves every inserted value: the siblings that
/// `get_merkle_proof` gathers over the values' leaves lead from the value's
/// leaf to the root, so `contains` accepts the value with them.
pub proof fn lemma_inserted_values_are_proven<const N: usize>(
    trees: Seq<MerkleTree<N>>,
    values: Seq<Seq<u8>>,
    seed: Seq<u8>,
    j: nat,
)
    requires
        N >= 1,
        trees[0].starts_empty(seed),
        inserts_each(trees, values),
        j < values.len(),
    ensures
        trees.last().holds_leaf(
            proof_for(leaves_of(values), hviews(trees.last().zero_values@), j, N as nat),
            leaf_of(values[j as int]),
        ),
{
    let n = values.len();
    lemma_trees_track(trees, values, seed, n);
    assert(leaves_of(values).take(n as int) =~= leaves_of(values));
    let p = (n - 1) as nat;
    lemma_trees_track(trees, values, seed, p);
    assert(has_room(trees[p as int].next_index, N as nat));
    lemma_proof_reaches_root(trees[n as int], leaves_of(values), seed, j);
}

} // verus!
