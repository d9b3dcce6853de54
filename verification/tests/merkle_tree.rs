use code_vm_api::types::merkle_tree::MerkleTree;
use code_vm_api::utils;

type TestTree = MerkleTree<3>;
type Digest = code_vm_api::types::hash::Hash;

#[test]
fn test_create_tree() {
    let seeds: &[&[u8]] = &[b"test"];
    let tree = TestTree::new(seeds);

    assert_eq!(tree.get_depth(), 3);
    assert_eq!(tree.get_root(), tree.zero_values.last().unwrap().clone());
}

#[test]
fn test_insert_and_remove() {
    let seeds: &[&[u8]] = &[b"test"];

    let mut tree = TestTree::new(seeds);
    let empty = tree.zero_values.first().unwrap().clone();

    let val1 = utils::hash(b"val_1");
    let val2 = utils::hash(b"val_2");
    let val3 = utils::hash(b"val_3");
    let val4 = utils::hash(b"val_4");

    let a = TestTree::as_leaf(val1);
    let b = TestTree::as_leaf(val2);
    let c = TestTree::as_leaf(val3);

    let d = empty.clone();
    let e = empty.clone();
    let f = empty.clone();
    let g = empty.clone();
    let h = empty.clone();

    let i = TestTree::hash_left_right(a, b);
    let j: Digest = TestTree::hash_left_right(c, d);
    let k: Digest = TestTree::hash_left_right(e, f);
    let l: Digest = TestTree::hash_left_right(g, h);
    let m: Digest = TestTree::hash_left_right(i, j);
    let n: Digest = TestTree::hash_left_right(k, l);
    let root = TestTree::hash_left_right(m, n);

    assert!(tree.try_insert(val1.clone()).is_ok());
    assert!(tree.filled_subtrees[0].eq(&a));

    assert!(tree.try_insert(val2.clone()).is_ok());
    assert!(tree.filled_subtrees[0].eq(&a));

    assert!(tree.try_insert(val3.clone()).is_ok());
    assert!(tree.filled_subtrees[0].eq(&c));

    assert_eq!(tree.filled_subtrees[0], c);
    assert_eq!(tree.filled_subtrees[1], i);
    assert_eq!(tree.filled_subtrees[2], m);
    assert_eq!(root, tree.get_root());

    let val1_proof = vec![b.clone(), j.clone(), n.clone()];
    let val2_proof = vec![a.clone(), j.clone(), n.clone()];
    let val3_proof = vec![d.clone(), i.clone(), n.clone()];

    assert!(tree.contains(&val1_proof, val1));
    assert!(tree.contains(&val2_proof, val2));
    assert!(tree.contains(&val3_proof, val3));

    assert!(tree.contains_leaf(&vec![c.clone(), i.clone(), n.clone()], empty));
    assert!(tree.contains_leaf(&vec![f.clone(), l.clone(), m.clone()], empty));
    assert!(tree.contains_leaf(&vec![e.clone(), l.clone(), m.clone()], empty));
    assert!(tree.contains_leaf(&vec![h.clone(), k.clone(), m.clone()], empty));
    assert!(tree.contains_leaf(&vec![g.clone(), k.clone(), m.clone()], empty));

    assert!(tree.try_remove(&val2_proof, val2).is_ok());

    let i = TestTree::hash_left_right(a, empty);
    let m: Digest = TestTree::hash_left_right(i, j);
    let root = TestTree::hash_left_right(m, n);

    assert_eq!(root, tree.get_root());

    let val1_proof = vec![empty.clone(), j.clone(), n.clone()];
    let val3_proof = vec![d.clone(), i.clone(), n.clone()];

    assert!(tree.contains_leaf(&val1_proof, a));
    assert!(tree.contains_leaf(&val2_proof, empty));
    assert!(tree.contains_leaf(&val3_proof, c));

    assert!(!tree.contains_leaf(&val2_proof, b));

    assert!(tree.try_insert(val4.clone()).is_ok());
    assert!(tree.filled_subtrees[0].eq(&c));

    let d = TestTree::as_leaf(val4.clone());
    let j = TestTree::hash_left_right(c, d);
    let m = TestTree::hash_left_right(i, j);
    let root = TestTree::hash_left_right(m, n);

    assert_eq!(root, tree.get_root());
}

#[test]
fn test_proof() {
    let seeds: &[&[u8]] = &[b"test"];

    let mut tree = TestTree::new(seeds);

    let val1 = utils::hash(b"val_1");
    let val2 = utils::hash(b"val_2");
    let val3 = utils::hash(b"val_3");

    let leaves = [
        TestTree::as_leaf(val1),
        TestTree::as_leaf(val2),
        TestTree::as_leaf(val3),
    ];

    assert!(tree.try_insert(val1.clone()).is_ok());
    assert!(tree.try_insert(val2.clone()).is_ok());
    assert!(tree.try_insert(val3.clone()).is_ok());

    let val1_proof = tree.get_merkle_proof(&leaves, 0);
    let val2_proof = tree.get_merkle_proof(&leaves, 1);
    let val3_proof = tree.get_merkle_proof(&leaves, 2);

    assert!(tree.contains(&val1_proof, val1));
    assert!(tree.contains(&val2_proof, val2));
    assert!(tree.contains(&val3_proof, val3));

    let invalid_proof_short = &val1_proof[..2];
    let invalid_proof_long = [&val1_proof[..], &val1_proof[..]].concat();

    assert!(!tree.contains(&invalid_proof_short, val1));
    assert!(!tree.contains(&invalid_proof_long, val1));

    let empty_proof: Vec<Digest> = Vec::new();
    assert!(!tree.contains(&empty_proof, val1));
}

#[test]
fn hash_left_right_ignores_order() {
    let a = utils::hash(b"left");
    let b = utils::hash(b"right");
    assert_eq!(TestTree::hash_left_right(a, b), TestTree::hash_left_right(b, a));
    assert_ne!(TestTree::hash_left_right(a, b), TestTree::hash_left_right(a, a));
}

#[test]
fn hash_matches_sha256_of_known_input() {
    // SHA-256 of the empty string.
    let h = utils::hash(b"");
    assert_eq!(
        h.to_string(),
        "GKot5hBsd81kMupNCXHaqbhv3huEbxAFMLnpcX2hniwn"
    );
    assert_eq!(h.value[0], 0xe3);
    assert_eq!(h.value[31], 0x55);
}

#[test]
fn tree_refuses_insert_when_full() {
    let seeds: &[&[u8]] = &[b"full"];
    let mut tree = MerkleTree::<1>::new(seeds);
    let v = utils::hash(b"v");
    assert!(tree.try_insert(v).is_ok());
    assert!(tree.try_insert(v).is_ok());
    let before = tree;
    assert!(tree.try_insert(v).is_err());
    assert_eq!(tree.get_root(), before.get_root());
    assert_eq!(tree.next_index, 2);
}

#[test]
fn replaced_leaf_is_contained() {
    let seeds: &[&[u8]] = &[b"test"];
    let mut tree = TestTree::new(seeds);
    let empty = tree.get_empty_leaf();
    let val1 = utils::hash(b"val_1");
    let val2 = utils::hash(b"val_2");
    assert!(tree.try_insert(val1).is_ok());
    let leaves = [TestTree::as_leaf(val1)];
    let proof = tree.get_merkle_proof(&leaves, 0);
    assert!(tree.try_replace(&proof, val1, val2).is_ok());
    assert!(tree.contains(&proof, val2));
    assert!(!tree.contains(&proof, val1));
    // A wrong proof is refused and changes nothing.
    let root = tree.get_root();
    let bad = vec![empty, empty, empty];
    assert!(tree.try_replace(&bad, val2, val1).is_err());
    assert_eq!(tree.get_root(), root);
    assert!(tree.try_replace(&proof[..2], val2, val1).is_err());
}

#[test]
fn hash_new_and_conversions() {
    let bytes = [7u8; 32];
    let h = Digest::new(&bytes);
    assert_eq!(h.to_bytes(), bytes);
    assert_eq!(Digest::new_from_array(bytes), h);
    let back: [u8; 32] = h.into();
    assert_eq!(back, bytes);
    let again: Digest = bytes.into();
    assert_eq!(again, h);
    assert_eq!(h.as_ref(), &bytes[..]);
    assert_eq!(Digest::default().value, [0u8; 32]);
    assert_eq!(Digest::LEN, 32);
}

#[test]
fn every_inserted_value_is_proven() {
    let seeds: &[&[u8]] = &[b"proof", b"law"];
    let mut tree: MerkleTree<4> = MerkleTree::new(seeds);
    let mut values = Vec::new();
    let mut leaves = Vec::new();
    for i in 0..11u8 {
        let v = utils::hash(&[i, 7, i]);
        assert!(tree.try_insert(v).is_ok());
        values.push(v);
        leaves.push(MerkleTree::<4>::as_leaf(v));
        for (j, value) in values.iter().enumerate() {
            let proof = tree.get_merkle_proof(&leaves, j);
            assert_eq!(proof.len(), 4);
            assert!(tree.contains(&proof, *value), "value {} after {} inserts", j, i + 1);
            let other = utils::hash(b"not inserted");
            assert!(!tree.contains(&proof, other));
        }
    }
}

#[test]
fn proof_for_the_padding_position_of_an_odd_layer() {
    let seeds: &[&[u8]] = &[b"test"];
    let mut tree = TestTree::new(seeds);
    let values = [utils::hash(b"val_1"), utils::hash(b"val_2"), utils::hash(b"val_3")];
    let leaves: Vec<Digest> = values.iter().map(|v| TestTree::as_leaf(*v)).collect();
    for v in values.iter() {
        assert!(tree.try_insert(*v).is_ok());
    }
    let proof = tree.get_merkle_proof(&leaves, 3);
    assert_eq!(proof.len(), 3);
    assert_eq!(proof[0], leaves[2]);
    assert!(tree.contains_leaf(&proof, tree.get_empty_leaf()));
}
