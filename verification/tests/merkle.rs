use stark17::field::BaseField;
use stark17::merkle::{MerklePath, MerkleTree};

#[test]
fn test_proof() {
    let leaves: Vec<BaseField> = vec![1.into(), 2.into(), 3.into(), 4.into()];

    let tree = MerkleTree::new(&leaves);

    let merkle_path = MerklePath::new(&tree, 3).unwrap();

    assert!(tree.verify_inclusion(4.into(), &merkle_path));
}

#[test]
fn merkle_roundtrip_all_leaves() {
    let leaves: Vec<BaseField> =
        vec![3.into(), 10.into(), 5.into(), 11.into(), 14.into(), 7.into(), 12.into(), 6.into()];

    let tree = MerkleTree::new(&leaves);

    for (i, leaf) in leaves.iter().enumerate() {
        let path = MerklePath::new(&tree, i).unwrap();
        assert!(tree.verify_inclusion(*leaf, &path));
    }
}

#[test]
fn merkle_rejects_wrong_value() {
    let leaves: Vec<BaseField> = vec![1.into(), 2.into(), 3.into(), 4.into()];
    let tree = MerkleTree::new(&leaves);

    let path = MerklePath::new(&tree, 2).unwrap();
    // the committed value at index 2 is 3, not 5
    assert!(!tree.verify_inclusion(5.into(), &path));
}

#[test]
fn merkle_rejects_tampered_path() {
    let leaves: Vec<BaseField> = vec![1.into(), 2.into(), 3.into(), 4.into()];
    let tree = MerkleTree::new(&leaves);

    let mut path = MerklePath::new(&tree, 1).unwrap();
    path.path[0].0[0] ^= 1;
    assert!(!tree.verify_inclusion(2.into(), &path));
}

#[test]
fn merkle_path_index_out_of_bounds() {
    let leaves: Vec<BaseField> = vec![1.into(), 2.into()];
    let tree = MerkleTree::new(&leaves);

    assert!(MerklePath::new(&tree, 2).is_err());
}

#[test]
fn merkle_root_matches_direct_blake3() {
    // pins the hashing to real blake3: leaves are H(byte), the root is
    // H(left || right)
    let leaves: Vec<BaseField> = vec![1.into(), 2.into()];
    let tree = MerkleTree::new(&leaves);

    let left = blake3::hash(&[1u8]);
    let right = blake3::hash(&[2u8]);
    let mut concatenated = Vec::new();
    concatenated.extend_from_slice(left.as_bytes());
    concatenated.extend_from_slice(right.as_bytes());
    let expected_root = blake3::hash(&concatenated);

    assert_eq!(tree.root, expected_root.as_bytes().to_vec());
}
