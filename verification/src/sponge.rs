use vstd::prelude::*;

use crate::field::{add_bytes, fe_add, one_bytes, views, zero_bytes, Scalar};
use crate::perm::{perm, perm_bytes, state_wf};

pub mod gadget;
pub mod truncated;

verus! {

broadcast use crate::field::lemma_views_index;

/// The all-zero starting state of the sponge.
pub open spec fn zero_state() -> Seq<Seq<u8>> {
    Seq::new(5, |i: int| zero_bytes())
}

/// Add a chunk of at most four message elements into the rate slots:
/// slot `j + 1` accumulates chunk element `j` by field addition.
pub open spec fn absorb_chunk(state: Seq<Seq<u8>>, chunk: Seq<Seq<u8>>) -> Seq<Seq<u8>> {
    Seq::new(
        5,
        |i: int|
            if 1 <= i <= chunk.len() {
                add_bytes(state[i], chunk[i - 1])
            } else {
                state[i]
            },
    )
}

/// Add the padding constant one into slot `j` by field addition.
pub open spec fn pad_one(state: Seq<Seq<u8>>, j: int) -> Seq<Seq<u8>> {
    state.update(j, add_bytes(state[j], one_bytes()))
}

/// Absorb a message made of whole four-element chunks, permuting the state
/// after each chunk.
pub open spec fn absorb_full(state: Seq<Seq<u8>>, msgs: Seq<Seq<u8>>) -> Seq<Seq<u8>>
    decreases msgs.len(),
{
    if msgs.len() < 4 {
        state
    } else {
        absorb_full(perm_bytes(absorb_chunk(state, msgs.take(4))), msgs.skip(4))
    }
}

/// The final sponge state for a message: absorb all full chunks; if the
/// message length is an exact multiple of the rate, the state is permuted
/// once more implicitly by the chunk loop, then the padding one is added to
/// slot one and the state is permuted a final time; otherwise the trailing
/// partial chunk and the padding one (in the first unused rate slot) are
/// absorbed together before the final permutation.
pub open spec fn sponge_state(msgs: Seq<Seq<u8>>) -> Seq<Seq<u8>> {
    let full = absorb_full(zero_state(), msgs.take(4 * (msgs.len() as int / 4)));
    let rem = msgs.len() as int % 4;
    if rem == 0 {
        perm_bytes(pad_one(full, 1))
    } else {
        perm_bytes(
            pad_one(absorb_chunk(full, msgs.skip(4 * (msgs.len() as int / 4))), rem + 1),
        )
    }
}

/// The sponge digest of a message: slot one of the final state.
pub open spec fn sponge_bytes(msgs: Seq<Seq<u8>>) -> Seq<u8> {
    sponge_state(msgs)[1]
}

pub proof fn lemma_absorb_full_snoc(state: Seq<Seq<u8>>, msgs: Seq<Seq<u8>>, chunk: Seq<Seq<u8>>)
    requires
        msgs.len() % 4 == 0,
        chunk.len() == 4,
    ensures
        absorb_full(state, msgs + chunk) == perm_bytes(
            absorb_chunk(absorb_full(state, msgs), chunk),
        ),
    decreases msgs.len(),
{
    if msgs.len() == 0 {
        reveal_with_fuel(absorb_full, 2);
        assert((msgs + chunk).take(4) =~= chunk);
        assert((msgs + chunk).skip(4) =~= Seq::<Seq<u8>>::empty());
    } else {
        assert((msgs + chunk).take(4) =~= msgs.take(4));
        assert((msgs + chunk).skip(4) =~= msgs.skip(4) + chunk);
        assert(msgs.skip(4).len() % 4 == 0);
        lemma_absorb_full_snoc(perm_bytes(absorb_chunk(state, msgs.take(4))), msgs.skip(4), chunk);
    }
}

/// Absorb a variable-length sequence of field elements and squeeze one
/// digest, with the deterministic padding rule stated by `sponge_state`.
pub fn hash(messages: &[Scalar]) -> (r: Scalar)
    requires
        forall|i: int| 0 <= i < messages@.len() ==> (#[trigger] messages@[i]).wf(),
    ensures
        r@ == sponge_bytes(views(messages@)),
        r.wf(),
{
    let n = messages.len();
    let full = n / 4;
    let mut state: [Scalar; 5] = [
        Scalar::zero(),
        Scalar::zero(),
        Scalar::zero(),
        Scalar::zero(),
        Scalar::zero(),
    ];
    proof {
        assert(views(state@) =~= zero_state());
        crate::field::lemma_zero_lt_bls_r();
    }
    let mut k: usize = 0;
    while k < full
        invariant
            k <= full,
            full == n / 4,
            n == messages@.len(),
            forall|i: int| 0 <= i < messages@.len() ==> (#[trigger] messages@[i]).wf(),
            views(state@) == absorb_full(zero_state(), views(messages@).take(4 * k as int)),
            state_wf(views(state@)),
            forall|i: int| 0 <= i < 5 ==> (#[trigger] state@[i]).wf(),
        decreases full - k,
    {
        let base = 4 * k;
        let ghost pre = views(state@);
        let ghost chunk = views(messages@).subrange(base as int, base as int + 4);
        state[1] = fe_add(&state[1], &messages[base]);
        state[2] = fe_add(&state[2], &messages[base + 1]);
        state[3] = fe_add(&state[3], &messages[base + 2]);
        state[4] = fe_add(&state[4], &messages[base + 3]);
        proof {
            assert(views(state@) =~= absorb_chunk(pre, chunk));
        }
        perm(&mut state);
        proof {
            let ghost m = views(messages@);
            lemma_absorb_full_snoc(zero_state(), m.take(4 * k as int), chunk);
            assert(m.take(4 * k as int) + chunk =~= m.take(4 * (k + 1) as int));
            crate::perm::lemma_state_scalars_wf(state@);
        }
        k = k + 1;
    }
    let rem = n - 4 * full;
    let ghost m = views(messages@);
    proof {
        assert(4 * (k as int) == 4 * (m.len() as int / 4));
    }
    if rem == 0 {
        let ghost pre = views(state@);
        state[1] = fe_add(&state[1], &Scalar::one());
        proof {
            crate::field::lemma_one_lt_bls_r();
            assert(views(state@) =~= pad_one(pre, 1));
        }
        perm(&mut state);
        proof {
            crate::perm::lemma_state_scalars_wf(state@);
        }
    } else {
        let base = 4 * full;
        let ghost pre = views(state@);
        let ghost tail = m.skip(4 * (m.len() as int / 4));
        proof {
            assert(tail =~= m.subrange(base as int, n as int));
            assert(tail.len() == rem);
        }
        if rem >= 1 {
            state[1] = fe_add(&state[1], &messages[base]);
        }
        if rem >= 2 {
            state[2] = fe_add(&state[2], &messages[base + 1]);
        }
        if rem >= 3 {
            state[3] = fe_add(&state[3], &messages[base + 2]);
        }
        proof {
            assert(views(state@) =~= absorb_chunk(pre, tail));
        }
        let ghost absorbed = views(state@);
        let pad_slot = rem + 1;
        state[pad_slot] = fe_add(&state[pad_slot], &Scalar::one());
        proof {
            crate::field::lemma_one_lt_bls_r();
            assert(views(state@) =~= pad_one(absorbed, rem as int + 1));
        }
        perm(&mut state);
        proof {
            crate::perm::lemma_state_scalars_wf(state@);
        }
    }
    state[1]
}

} // verus!
