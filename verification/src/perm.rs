use vstd::prelude::*;

use crate::field::{canon, views, Scalar};
use dusk_hades::Strategy;

verus! {

pub open spec fn state_wf(s: Seq<Seq<u8>>) -> bool {
    s.len() == 5 && forall|i: int| 0 <= i < 5 ==> canon(#[trigger] s[i])
}

/// A well-formed state of five scalars is well formed slot by slot.
pub proof fn lemma_state_scalars_wf(s: Seq<Scalar>)
    requires
        s.len() == 5,
        state_wf(views(s)),
    ensures
        forall|i: int| 0 <= i < 5 ==> (#[trigger] s[i]).wf(),
{
    assert forall|i: int| 0 <= i < 5 implies (#[trigger] s[i]).wf() by {
        crate::field::lemma_views_index(s, i);
        assert(canon(views(s)[i]));
    }
}

/// The Hades permutation over five BLS scalar field elements, as a function
/// of the canonical encodings of the state slots.
pub uninterp spec fn perm_bytes(state: Seq<Seq<u8>>) -> Seq<Seq<u8>>;

/// Relies on `dusk_hades::ScalarStrategy::perm`: the Hades permutation of
/// the five-element state, a pure function of the state alone.
#[verifier::external_body]
pub fn perm(state: &mut [Scalar; 5])
    requires
        state_wf(views(old(state)@)),
    ensures
        views(final(state)@) == perm_bytes(views(old(state)@)),
        state_wf(views(final(state)@)),
{
    let mut words = [dusk_bls12_381::BlsScalar::zero(); 5];
    for i in 0..5 {
        words[i] = dusk_bls12_381::BlsScalar::from_bytes(&state[i].to_bytes()).unwrap();
    }
    dusk_hades::ScalarStrategy::new().perm(&mut words);
    for i in 0..5 {
        state[i] = Scalar::from_bls(&words[i]);
    }
}

} // verus!
