use dusk_bls12_381::BlsScalar;
use ff::Field;
use poseidon252::composer::{append_witness, composer_init};
use poseidon252::field::Scalar;
use poseidon252::tree::zk;
use poseidon252::tree::{PoseidonBranch, PoseidonTree};
use rand::rngs::OsRng;

const DEPTH: usize = 17;
type Tree = PoseidonTree<DEPTH>;

fn random_scalar() -> Scalar {
    Scalar::from_bls(&BlsScalar::random(&mut OsRng))
}

fn setup() -> (Tree, Scalar, PoseidonBranch<DEPTH>) {
    let mut tree = Tree::new();
    let leaf = random_scalar();
    let pos = tree.push(leaf);
    let branch = tree
        .branch(pos)
        .expect("Failed to fetch the branch of the created leaf from the tree");
    (tree, leaf, branch)
}

fn opening_root(branch: &PoseidonBranch<DEPTH>, leaf: Scalar) -> [u8; 32] {
    let mut composer = composer_init();
    let leaf_w = append_witness(&mut composer, &leaf);
    let root_w = zk::merkle_opening(&mut composer, branch, leaf_w);
    composer[root_w].to_bytes()
}

#[test]
fn merkle_opening() {
    let (tree, leaf, branch) = setup();

    let recomputed = opening_root(&branch, leaf);

    assert!(branch.is_consistent(&leaf));
    assert_eq!(recomputed, tree.root().to_bytes());
    assert_eq!(branch.root().to_bytes(), tree.root().to_bytes());
}

#[test]
fn merkle_opening_invalid_hash() {
    let (tree, leaf, mut branch) = setup();

    branch.path[3].level[3] = random_scalar();

    // With an incorrect path we can not generate a valid proof: the
    // opening's constraints are no longer satisfiable
    assert!(!branch.is_consistent(&leaf));
    let _ = tree.root();
    let _ = opening_root(&branch, leaf);
}

#[test]
fn merkle_opening_invalid_path() {
    let (tree, leaf, mut branch) = setup();

    for depth in 0..DEPTH {
        for offset in 1..poseidon252::WIDTH {
            branch.path[depth].level[offset] = random_scalar();
        }
    }

    // With an incorrect path we can not generate a valid proof
    assert!(!branch.is_consistent(&leaf));
    // the corrupted bottom level no longer carries the leaf, and the
    // recomputed root differs from the tree's root
    let recomputed = opening_root(&branch, leaf);
    assert_ne!(recomputed, tree.root().to_bytes());
}

#[test]
fn merkle_end_to_end_scenario() {
    // depth seventeen, one leaf inserted, branch fetched, opening recomputes
    // the tree's root
    let mut tree = Tree::new();
    let v = Scalar::from_bls(&BlsScalar::from(0xdeadbeefu64));
    let pos = tree.push(v);
    let branch = tree.branch(pos).expect("branch of a stored leaf");

    assert_eq!(branch.leaf().to_bytes(), v.to_bytes());
    assert!(branch.is_consistent(&v));
    assert_eq!(opening_root(&branch, v), tree.root().to_bytes());

    // a corrupted stored hash must break the opening
    let mut corrupted = tree.branch(pos).expect("branch of a stored leaf");
    corrupted.path[8].level[2] = random_scalar();
    assert!(!corrupted.is_consistent(&v));
}

#[test]
fn branch_of_missing_position_is_none() {
    let mut tree = Tree::new();
    assert!(tree.branch(0).is_none());
    let pos = tree.push(random_scalar());
    assert!(tree.branch(pos).is_some());
    assert!(tree.branch(pos + 1).is_none());
}

#[test]
fn two_leaves_share_root() {
    let mut tree = Tree::new();
    let a = random_scalar();
    let b = random_scalar();
    let pa = tree.push(a);
    let pb = tree.push(b);

    let ba = tree.branch(pa).expect("branch of a stored leaf");
    let bb = tree.branch(pb).expect("branch of a stored leaf");

    assert_eq!(opening_root(&ba, a), tree.root().to_bytes());
    assert_eq!(opening_root(&bb, b), tree.root().to_bytes());
}
