use vstd::prelude::*;

use crate::field::{views, zero_bytes, Scalar};
use crate::perm::{perm, perm_bytes};

verus! {

broadcast use crate::field::lemma_views_index;

/// The fixed capacity tag of the two-output mode: the field element with
/// value `2^64`, canonically encoded (byte eight is one).
pub open spec fn capacity_bytes() -> Seq<u8> {
    zero_bytes().update(8, 1u8)
}

/// The two outputs of the fixed-block compressor: permute the state holding
/// the capacity tag, the message and three zeros, and read slots one and two.
pub open spec fn two_outputs_bytes(m: Seq<u8>) -> Seq<Seq<u8>> {
    let s = perm_bytes(seq![capacity_bytes(), m, zero_bytes(), zero_bytes(), zero_bytes()]);
    seq![s[1], s[2]]
}

pub proof fn lemma_capacity_canon()
    ensures
        crate::field::canon(capacity_bytes()),
{
    let c = capacity_bytes();
    let r = crate::field::bls_r_bytes();
    assert(c.last() == 0 && r.last() == 0x73);
    crate::field::lemma_le_val_top_byte(c, r);
}

fn capacity() -> (r: Scalar)
    ensures
        r@ == capacity_bytes(),
        r.wf(),
{
    let mut bytes = [0u8; 32];
    bytes[8] = 1;
    proof {
        assert(bytes@ =~= capacity_bytes());
        lemma_capacity_canon();
    }
    let r = Scalar::from_bytes(&bytes);
    match r {
        Some(s) => s,
        None => {
            proof {
                assert(false);
            }
            Scalar::zero()
        },
    }
}

/// Compress one field element into exactly two, with the fixed capacity tag.
pub fn two_outputs(message: Scalar) -> (r: [Scalar; 2])
    requires
        message.wf(),
    ensures
        views(r@) == two_outputs_bytes(message@),
        r@.len() == 2,
        r@[0].wf(),
        r@[1].wf(),
{
    let mut words: [Scalar; 5] = [
        capacity(),
        message,
        Scalar::zero(),
        Scalar::zero(),
        Scalar::zero(),
    ];
    proof {
        crate::field::lemma_zero_lt_bls_r();
        assert(views(words@) =~= seq![
            capacity_bytes(),
            message@,
            zero_bytes(),
            zero_bytes(),
            zero_bytes(),
        ]);
    }
    perm(&mut words);
    proof {
        crate::perm::lemma_state_scalars_wf(words@);
    }
    let r = [words[1], words[2]];
    proof {
        assert(views(r@) =~= two_outputs_bytes(message@));
    }
    r
}

/// Determinism of the fixed-block compressor: any two results of compressing
/// the same message are equal, since each is pinned to `two_outputs_bytes`.
pub proof fn lemma_two_outputs_deterministic(m: Seq<u8>, r1: Seq<Seq<u8>>, r2: Seq<Seq<u8>>)
    requires
        r1 == two_outputs_bytes(m),
        r2 == two_outputs_bytes(m),
    ensures
        r1 == r2,
{
}

} // verus!
