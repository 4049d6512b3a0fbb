use vstd::prelude::*;

use crate::composer::{
    allocated, csat, cvals, cwf, extends, gate_add_one, gate_add_pair, hades_gadget,
    lemma_extends_trans, lemma_extends_wvals, lemma_push_preserves, wval, wvals, zero_witness,
};
use crate::field::{add_bytes, one_bytes, zero_bytes};
use crate::sponge::{absorb_chunk, absorb_full, lemma_absorb_full_snoc, pad_one, sponge_bytes,
    sponge_state, zero_state};
use dusk_plonk::prelude::{Composer, Witness};

verus! {

/// The values held by the five state handles under a composer.
pub open spec fn svals(c: Composer, s: Seq<Witness>) -> Seq<Seq<u8>> {
    Seq::new(5, |i: int| wval(c, s[i]))
}

/// Absorb the message handle `m` into rate slot `slot` of the state: the
/// slot's handle becomes the sum witness of an addition constraint.
fn absorb_into(composer: &mut Composer, state: &mut [Witness; 5], slot: usize, m: Witness)
    requires
        1 <= slot < 5,
        forall|i: int| 0 <= i < 5 ==> allocated(*old(composer), #[trigger] old(state)@[i]),
        allocated(*old(composer), m),
        cwf(*old(composer)),
    ensures
        cvals(*final(composer)) == cvals(*old(composer)).push(
            add_bytes(wval(*old(composer), old(state)@[slot as int]), wval(*old(composer), m)),
        ),
        extends(*final(composer), *old(composer)),
        cwf(*final(composer)),
        csat(*final(composer)) == csat(*old(composer)),
        forall|i: int| 0 <= i < 5 ==> allocated(*final(composer), #[trigger] final(state)@[i]),
        svals(*final(composer), final(state)@) == svals(*old(composer), old(state)@).update(
            slot as int,
            add_bytes(wval(*old(composer), old(state)@[slot as int]), wval(*old(composer), m)),
        ),
{
    let ghost c0 = *composer;
    let ghost s0 = state@;
    let w = gate_add_pair(composer, state[slot], m);
    proof {
        lemma_push_preserves(
            *composer,
            c0,
            add_bytes(wval(c0, s0[slot as int]), wval(c0, m)),
            s0,
        );
    }
    state[slot] = w;
    proof {
        assert(svals(*composer, state@) =~= svals(c0, s0).update(
            slot as int,
            add_bytes(wval(c0, s0[slot as int]), wval(c0, m)),
        ));
    }
}

/// Mirror of the native sponge inside a circuit: the same chunking, padding
/// and permutation sequence over witness handles. The returned handle is
/// assigned exactly the native digest of the values assigned to the message
/// handles: this is the native/gadget equivalence.
pub fn gadget(composer: &mut Composer, messages: &[Witness]) -> (w: Witness)
    requires
        forall|i: int|
            0 <= i < messages@.len() ==> allocated(*old(composer), #[trigger] messages@[i]),
        cwf(*old(composer)),
        cvals(*old(composer)).len() >= 1,
        cvals(*old(composer))[0] == zero_bytes(),
    ensures
        extends(*final(composer), *old(composer)),
        cwf(*final(composer)),
        csat(*final(composer)) == csat(*old(composer)),
        allocated(*final(composer), w),
        wval(*final(composer), w) == sponge_bytes(wvals(*old(composer), messages@)),
{
    let ghost c0 = *composer;
    let ghost mv = wvals(c0, messages@);
    let n = messages.len();
    let full = n / 4;
    let z = zero_witness();
    let mut state: [Witness; 5] = [z, z, z, z, z];
    proof {
        assert(cvals(*composer).take(cvals(c0).len() as int) =~= cvals(c0));
        assert(svals(*composer, state@) =~= zero_state());
        assert(mv.take(0) =~= Seq::<Seq<u8>>::empty());
    }
    let mut k: usize = 0;
    while k < full
        invariant
            k <= full,
            full == n / 4,
            n == messages@.len(),
            extends(*composer, c0),
            cwf(*composer),
            csat(*composer) == csat(c0),
            mv == wvals(c0, messages@),
            forall|i: int| 0 <= i < n ==> allocated(c0, #[trigger] messages@[i]),
            forall|i: int|
                0 <= i < n ==> allocated(*composer, #[trigger] messages@[i]) && wval(
                    *composer,
                    messages@[i],
                ) == mv[i],
            forall|i: int| 0 <= i < 5 ==> allocated(*composer, #[trigger] state@[i]),
            svals(*composer, state@) == absorb_full(zero_state(), mv.take(4 * k as int)),
        decreases full - k,
    {
        let base = 4 * k;
        proof {
            assert(4 * full <= n) by (nonlinear_arith)
                requires full == n / 4;
            assert(4 * k + 4 <= 4 * full) by (nonlinear_arith)
                requires k < full;
        }
        let ghost cpre = *composer;
        let ghost st0 = state@;
        let ghost pre = svals(cpre, state@);
        let ghost chunk = mv.subrange(base as int, base as int + 4);
        let ghost v1 = pre.update(1, add_bytes(pre[1], chunk[0]));
        let ghost v2 = v1.update(2, add_bytes(pre[2], chunk[1]));
        let ghost v3 = v2.update(3, add_bytes(pre[3], chunk[2]));
        let ghost v4 = v3.update(4, add_bytes(pre[4], chunk[3]));
        absorb_into(composer, &mut state, 1, messages[base]);
        proof {
            lemma_extends_wvals(*composer, cpre, messages@);
            assert(wval(cpre, st0[1]) == svals(cpre, st0)[1]);
            assert(wval(cpre, messages@[base as int]) == mv[base as int]);
            assert(svals(*composer, state@) == v1);
        }
        let ghost c1 = *composer;
        let ghost st1 = state@;
        absorb_into(composer, &mut state, 2, messages[base + 1]);
        proof {
            lemma_extends_wvals(*composer, c1, messages@);
            lemma_extends_trans(*composer, c1, cpre);
            assert(wval(c1, st1[2]) == svals(c1, st1)[2] && svals(c1, st1)[2] == v1[2] && v1[2]
                == pre[2]);
            assert(wval(c1, messages@[base as int + 1]) == mv[base as int + 1]);
            assert(svals(*composer, state@) == v2);
        }
        let ghost c2 = *composer;
        let ghost st2 = state@;
        absorb_into(composer, &mut state, 3, messages[base + 2]);
        proof {
            lemma_extends_wvals(*composer, c2, messages@);
            lemma_extends_trans(*composer, c2, cpre);
            assert(wval(c2, st2[3]) == svals(c2, st2)[3] && svals(c2, st2)[3] == v2[3] && v2[3]
                == pre[3]);
            assert(wval(c2, messages@[base as int + 2]) == mv[base as int + 2]);
            assert(svals(*composer, state@) == v3);
        }
        let ghost c3 = *composer;
        let ghost st3 = state@;
        absorb_into(composer, &mut state, 4, messages[base + 3]);
        proof {
            lemma_extends_wvals(*composer, c3, messages@);
            lemma_extends_trans(*composer, c3, cpre);
            assert(wval(c3, st3[4]) == svals(c3, st3)[4] && svals(c3, st3)[4] == v3[4] && v3[4]
                == pre[4]);
            assert(wval(c3, messages@[base as int + 3]) == mv[base as int + 3]);
            assert(svals(*composer, state@) == v4);
            assert(v4 =~= absorb_chunk(pre, chunk));
        }
        let ghost c4 = *composer;
        hades_gadget(composer, &mut state);
        proof {
            lemma_extends_wvals(*composer, c4, messages@);
            lemma_extends_trans(*composer, c4, cpre);
            lemma_extends_trans(*composer, cpre, c0);
            assert(svals(*composer, state@) =~= Seq::new(
                5,
                |i: int| wval(*composer, state@[i]),
            ));
            assert(svals(*composer, state@) == crate::perm::perm_bytes(absorb_chunk(pre, chunk)));
            lemma_absorb_full_snoc(zero_state(), mv.take(4 * k as int), chunk);
            assert(mv.take(4 * k as int) + chunk =~= mv.take(4 * (k + 1) as int));
        }
        k = k + 1;
    }
    let rem = n - 4 * full;
    proof {
        assert(4 * (k as int) == 4 * (mv.len() as int / 4));
    }
    if rem >= 1 {
        let base = 4 * full;
        let ghost cpre = *composer;
        let ghost pre = svals(cpre, state@);
        let ghost tail = mv.skip(4 * (mv.len() as int / 4));
        proof {
            assert(tail =~= mv.subrange(base as int, n as int));
        }
        let ghost st0 = state@;
        let ghost v1 = pre.update(1, add_bytes(pre[1], tail[0]));
        let ghost v2 = if rem >= 2 { v1.update(2, add_bytes(pre[2], tail[1])) } else { v1 };
        let ghost v3 = if rem >= 3 { v2.update(3, add_bytes(pre[3], tail[2])) } else { v2 };
        absorb_into(composer, &mut state, 1, messages[base]);
        proof {
            lemma_extends_wvals(*composer, cpre, messages@);
            assert(wval(cpre, st0[1]) == svals(cpre, st0)[1]);
            assert(wval(cpre, messages@[base as int]) == mv[base as int]);
            assert(mv[base as int] == tail[0]);
            assert(svals(*composer, state@) == v1);
        }
        if rem >= 2 {
            let ghost c1 = *composer;
            let ghost st1 = state@;
            absorb_into(composer, &mut state, 2, messages[base + 1]);
            proof {
                lemma_extends_wvals(*composer, c1, messages@);
                lemma_extends_trans(*composer, c1, cpre);
                assert(wval(c1, st1[2]) == svals(c1, st1)[2] && svals(c1, st1)[2] == v1[2]
                    && v1[2] == pre[2]);
                assert(wval(c1, messages@[base as int + 1]) == mv[base as int + 1]);
                assert(mv[base as int + 1] == tail[1]);
                assert(svals(*composer, state@) == v2);
            }
        }
        if rem >= 3 {
            let ghost c2 = *composer;
            let ghost st2 = state@;
            absorb_into(composer, &mut state, 3, messages[base + 2]);
            proof {
                lemma_extends_wvals(*composer, c2, messages@);
                lemma_extends_trans(*composer, c2, cpre);
                assert(wval(c2, st2[3]) == svals(c2, st2)[3] && svals(c2, st2)[3] == v2[3]
                    && v2[3] == pre[3]);
                assert(wval(c2, messages@[base as int + 2]) == mv[base as int + 2]);
                assert(mv[base as int + 2] == tail[2]);
                assert(svals(*composer, state@) == v3);
            }
        }
        proof {
            assert(svals(*composer, state@) =~= absorb_chunk(pre, tail));
        }
        let ghost cpad = *composer;
        let ghost absorbed = svals(cpad, state@);
        let pad_slot = rem + 1;
        let wpad = gate_add_one(composer, state[pad_slot]);
        proof {
            lemma_push_preserves(
                *composer,
                cpad,
                add_bytes(wval(cpad, state@[pad_slot as int]), one_bytes()),
                state@,
            );
            lemma_extends_trans(*composer, cpad, cpre);
            lemma_extends_trans(*composer, cpre, c0);
        }
        state[pad_slot] = wpad;
        proof {
            assert(svals(*composer, state@) =~= pad_one(absorbed, pad_slot as int));
        }
        let ghost cph = *composer;
        hades_gadget(composer, &mut state);
        proof {
            lemma_extends_trans(*composer, cph, cpad);
            lemma_extends_trans(*composer, cpad, cpre);
            lemma_extends_trans(*composer, cpre, c0);
        }
    } else {
        let ghost cpre = *composer;
        let ghost pre = svals(cpre, state@);
        let wpad = gate_add_one(composer, state[1]);
        proof {
            lemma_push_preserves(
                *composer,
                cpre,
                add_bytes(wval(cpre, state@[1]), one_bytes()),
                state@,
            );
            lemma_extends_trans(*composer, cpre, c0);
        }
        state[1] = wpad;
        proof {
            assert(svals(*composer, state@) =~= pad_one(pre, 1));
        }
        let ghost cph = *composer;
        hades_gadget(composer, &mut state);
        proof {
            lemma_extends_trans(*composer, cph, cpre);
            lemma_extends_trans(*composer, cpre, c0);
        }
    }
    proof {
        assert(svals(*composer, state@) == sponge_state(mv));
        assert(wval(*composer, state@[1]) == svals(*composer, state@)[1]);
    }
    state[1]
}

} // verus!
