use dusk_bls12_381::BlsScalar;
use dusk_hades::{ScalarStrategy, Strategy};
use ff::Field;
use poseidon252::field::Scalar;
use poseidon252::perm_uses::two_outputs;
use rand::rngs::OsRng;

#[test]
fn hash_two_outputs() {
    let m = BlsScalar::random(&mut OsRng);
    let ms = Scalar::from_bls(&m);

    let h = two_outputs(ms);

    assert_eq!(h.len(), 2);
    assert_ne!(ms, Scalar::zero());
    assert_ne!(h[0], Scalar::zero());
    assert_ne!(h[1], Scalar::zero());
}

#[test]
fn same_result() {
    for _i in 0..100 {
        let m = BlsScalar::random(&mut OsRng);
        let ms = Scalar::from_bls(&m);

        let h = two_outputs(ms);
        let h_1 = two_outputs(ms);

        assert_eq!(h, h_1);
    }
}

#[test]
fn two_outputs_matches_direct_permutation() {
    let m = BlsScalar::from(42u64);

    let mut words = [BlsScalar::zero(); dusk_hades::WIDTH];
    words[0] = BlsScalar::from_raw([0, 1, 0, 0]);
    words[1] = m;
    ScalarStrategy::new().perm(&mut words);

    let h = two_outputs(Scalar::from_bls(&m));
    assert_eq!(h[0].to_bytes(), words[1].to_bytes());
    assert_eq!(h[1].to_bytes(), words[2].to_bytes());
}

#[test]
fn width_matches_permutation_crate() {
    assert_eq!(poseidon252::WIDTH, dusk_hades::WIDTH);
}
