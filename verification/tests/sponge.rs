use dusk_bls12_381::BlsScalar;
use dusk_hades::{ScalarStrategy, Strategy};
use ff::Field;
use poseidon252::field::Scalar;
use rand::rngs::OsRng;

fn random_scalar() -> Scalar {
    Scalar::from_bls(&BlsScalar::random(&mut OsRng))
}

fn bls_of(s: &Scalar) -> BlsScalar {
    BlsScalar::from_bytes(&s.to_bytes()).unwrap()
}

#[test]
fn sponge_matches_direct_computation_partial_chunk() {
    let m = random_scalar();
    let digest = poseidon252::sponge::hash(&[m]);

    // one message element: absorb into slot one, pad with one in slot two,
    // permute once, read slot one
    let mut state = [BlsScalar::zero(); dusk_hades::WIDTH];
    state[1] += bls_of(&m);
    state[2] += BlsScalar::one();
    ScalarStrategy::new().perm(&mut state);

    assert_eq!(digest.to_bytes(), state[1].to_bytes());
}

#[test]
fn sponge_matches_direct_computation_full_chunk() {
    let msgs: Vec<Scalar> = (0..4).map(|_| random_scalar()).collect();
    let digest = poseidon252::sponge::hash(&msgs);

    // a full chunk: absorb, permute, pad with one in slot one, permute again
    let mut state = [BlsScalar::zero(); dusk_hades::WIDTH];
    for (i, m) in msgs.iter().enumerate() {
        state[i + 1] += bls_of(m);
    }
    ScalarStrategy::new().perm(&mut state);
    state[1] += BlsScalar::one();
    ScalarStrategy::new().perm(&mut state);

    assert_eq!(digest.to_bytes(), state[1].to_bytes());
}

#[test]
fn sponge_empty_input_is_accepted() {
    let a = poseidon252::sponge::hash(&[]);
    let b = poseidon252::sponge::hash(&[]);
    assert_eq!(a, b);
}

#[test]
fn padding_boundary() {
    let msgs: Vec<Scalar> = (0..3).map(|_| random_scalar()).collect();
    let mut with_zero = msgs.clone();
    with_zero.push(Scalar::zero());
    let mut with_two_zeros = with_zero.clone();
    with_two_zeros.push(Scalar::zero());

    // length four is an exact multiple of the rate: dropping or appending a
    // trailing zero element must change the digest
    let h4 = poseidon252::sponge::hash(&with_zero);
    let h3 = poseidon252::sponge::hash(&msgs);
    let h5 = poseidon252::sponge::hash(&with_two_zeros);

    assert_ne!(h4, h3);
    assert_ne!(h4, h5);
}

#[test]
fn gadget_equivalence() {
    for n in [0usize, 1, 3, 4, 5, 8] {
        let msgs: Vec<Scalar> = (0..n).map(|_| random_scalar()).collect();
        let digest = poseidon252::sponge::hash(&msgs);

        let mut composer = poseidon252::composer::composer_init();
        let ws: Vec<dusk_plonk::prelude::Witness> = msgs
            .iter()
            .map(|m| poseidon252::composer::append_witness(&mut composer, m))
            .collect();
        let out = poseidon252::sponge::gadget::gadget(&mut composer, &ws);

        assert_eq!(composer[out].to_bytes(), digest.to_bytes());
    }
}

#[test]
fn truncated_hash_matches_masked_digest() {
    let msgs: Vec<Scalar> = (0..5).map(|_| random_scalar()).collect();
    let truncated = poseidon252::sponge::truncated::hash(&msgs);

    let digest = poseidon252::sponge::hash(&msgs).to_bytes();
    let mask = BlsScalar::from_raw([
        0x432667a3f7cfca74,
        0x7905486e121a84be,
        0x19c02884cfe90d12,
        0xa62ffba6a1323be,
    ])
    .to_bytes();
    let mut masked = [0u8; 32];
    for i in 0..32 {
        masked[i] = digest[i] & mask[i];
    }

    let expected = dusk_jubjub::JubJubScalar::from_bytes(&masked);
    assert!(bool::from(expected.is_some()));
    assert_eq!(expected.unwrap(), truncated);
}

#[test]
fn truncated_hash_fits_target_field() {
    for n in [0usize, 1, 4, 7] {
        let msgs: Vec<Scalar> = (0..n).map(|_| random_scalar()).collect();
        let truncated = poseidon252::sponge::truncated::hash(&msgs);
        // a round trip through the canonical encoding must succeed
        let bytes = truncated.to_bytes();
        let back = dusk_jubjub::JubJubScalar::from_bytes(&bytes);
        assert!(bool::from(back.is_some()));
        assert_eq!(back.unwrap(), truncated);
    }
}
