use zk_recovery::merkle_tree::{Branch, MerkleTree, MixHasher};
use zk_recovery::Error;
use zk_recovery::u256::U256;

fn u(v: u64) -> U256 {
    U256 { w0: v, w1: 0, w2: 0, w3: 0 }
}

#[test]
fn tree_has_expected_shape() {
    let tree = MerkleTree::<MixHasher>::new(4, U256::zero());
    assert_eq!(tree.depth(), 4);
    assert_eq!(tree.num_leaves(), 8);
    assert_eq!(tree.leaves().len(), 8);
    let empty = MerkleTree::<MixHasher>::new(0, U256::zero());
    assert_eq!(empty.depth(), 0);
    assert_eq!(empty.num_leaves(), 0);
}

#[test]
fn inclusion_proofs_reproduce_the_root_for_every_leaf() {
    let mut tree = MerkleTree::<MixHasher>::new(4, U256::zero());
    for i in 0..8usize {
        tree.set(i, u(100 + i as u64)).unwrap();
    }
    let leaves = tree.leaves();
    for i in 0..8usize {
        let proof = tree.inclusion_proof(i).expect("leaf in range");
        assert_eq!(proof.0.len(), 3);
        assert_eq!(proof.root(leaves[i]), tree.root());
        assert!(tree.verify(leaves[i], &proof));
        assert!(!tree.verify(u(999), &proof));
    }
}

#[test]
fn proof_out_of_range_is_absent() {
    let tree = MerkleTree::<MixHasher>::new(3, U256::zero());
    assert!(tree.inclusion_proof(4).is_none());
    let empty = MerkleTree::<MixHasher>::new(0, U256::zero());
    assert!(empty.inclusion_proof(0).is_none());
}

#[test]
fn point_update_touches_exactly_the_root_path() {
    let mut tree = MerkleTree::<MixHasher>::new(4, U256::zero());
    for i in 0..8usize {
        tree.set(i, u(7 + i as u64)).unwrap();
    }
    let before = tree.clone();
    tree.set(5, u(4242)).unwrap();
    let mut changed = 0;
    for j in 0..tree.nodes.len() {
        if tree.nodes[j] != before.nodes[j] {
            changed += 1;
        }
    }
    // depth nodes on the root path of leaf 5, and no others
    assert_eq!(changed, 4);
    assert_eq!(tree.nodes[7 + 5], u(4242));
    assert_ne!(tree.root(), before.root());
}

#[test]
fn set_range_agrees_with_single_sets() {
    let mut a = MerkleTree::<MixHasher>::new(4, U256::zero());
    let mut b = MerkleTree::<MixHasher>::new(4, U256::zero());
    a.set_range(2, vec![u(11), u(12), u(13)]).unwrap();
    b.set(2, u(11)).unwrap();
    b.set(3, u(12)).unwrap();
    b.set(4, u(13)).unwrap();
    assert_eq!(a.root(), b.root());
    assert_eq!(a.leaves(), b.leaves());
}

#[test]
fn leaf_index_and_path_index_recover_the_position() {
    let mut tree = MerkleTree::<MixHasher>::new(4, U256::zero());
    for i in 0..8usize {
        tree.set(i, u(50 + i as u64)).unwrap();
    }
    for i in 0..8usize {
        let proof = tree.inclusion_proof(i).unwrap();
        assert_eq!(proof.leaf_index(), i);
        let bits = proof.path_index();
        assert_eq!(bits.len(), 3);
        for (k, b) in proof.0.iter().enumerate() {
            let expect = match b {
                Branch::Left(_) => 0,
                Branch::Right(_) => 1,
            };
            assert_eq!(bits[k], u(expect));
        }
    }
}

#[test]
fn depth_one_tree_has_an_empty_proof() {
    let mut tree = MerkleTree::<MixHasher>::new(1, U256::zero());
    tree.set(0, u(77)).unwrap();
    let proof = tree.inclusion_proof(0).unwrap();
    assert_eq!(proof.0.len(), 0);
    assert_eq!(proof.root(u(77)), tree.root());
    assert_eq!(tree.root(), u(77));
}

#[test]
fn out_of_range_updates_fail_closed() {
    let mut tree = MerkleTree::<MixHasher>::new(3, U256::zero());
    let before = tree.clone();
    // capacity of a depth-3 tree is 4 leaves
    assert_eq!(tree.set(4, u(1)), Err(Error::NotFound));
    assert_eq!(tree.set_range(3, vec![u(1), u(2)]), Err(Error::NotFound));
    assert_eq!(tree.nodes, before.nodes);
    // a depth-0 tree rejects every leaf operation
    let mut empty = MerkleTree::<MixHasher>::new(0, U256::zero());
    assert_eq!(empty.set(0, u(1)), Err(Error::NotFound));
    assert_eq!(empty.set_range(0, vec![u(1)]), Err(Error::NotFound));
    assert_eq!(empty.num_leaves(), 0);
}
