use vstd::prelude::*;

use crate::composer::{
    allocated, append_witness, assert_equal, assert_equal_one, csat, cvals, cwf, extends,
    gate_add_pair, gate_mul_pair, hades_gadget, lemma_extends_trans, lemma_extends_wval,
    lemma_push_preserves, mul_bytes, wval, zero_witness,
};
use crate::field::{add_bytes, one_bytes, zero_bytes, Scalar};
use crate::perm::perm_bytes;
use crate::tree::{
    branch_consistent, flag_offset, level_flags, level_views, opening_cur, Level, PoseidonBranch,
};
use dusk_plonk::prelude::{Composer, Witness};

verus! {

broadcast use crate::tree::lemma_level_views_index, crate::tree::lemma_level_flags_index;

/// One level of the opening: append the offset bits and constrain them to a
/// one-hot selection, load the level into a fresh container, constrain the
/// selected slot to equal the running hash, and permute the container.
#[verifier::rlimit(100)]
fn opening_level(composer: &mut Composer, lvl: &Level, root: Witness) -> (r: Witness)
    requires
        lvl.wf(),
        allocated(*old(composer), root),
        cwf(*old(composer)),
        cvals(*old(composer)).len() >= 1,
        cvals(*old(composer))[0] == zero_bytes(),
    ensures
        extends(*final(composer), *old(composer)),
        cwf(*final(composer)),
        allocated(*final(composer), r),
        wval(*final(composer), r) == perm_bytes(lvl.lv())[1],
        csat(*final(composer)) ==> csat(*old(composer)),
        flag_offset(lvl.offset) >= 0 ==> csat(*final(composer)) == (csat(*old(composer))
            && lvl.lv()[flag_offset(lvl.offset) + 1] == wval(*old(composer), root)),
{
    let ghost c0 = *composer;
    let ghost rv = wval(c0, root);
    let ghost lview = lvl.lv();
    let flag = lvl.offset_flag();
    proof {
        crate::perm::lemma_state_scalars_wf(lvl.level@);
        crate::field::lemma_one_lt_bls_r();
        crate::field::lemma_zero_lt_bls_r();
        assert(one_bytes() != zero_bytes()) by {
            assert(one_bytes()[0] == 1 && zero_bytes()[0] == 0);
        }
    }
    // offset bits, one per rate slot
    let bv0 = if flag & 1 != 0 { Scalar::one() } else { Scalar::zero() };
    let bv1 = if flag & 2 != 0 { Scalar::one() } else { Scalar::zero() };
    let bv2 = if flag & 4 != 0 { Scalar::one() } else { Scalar::zero() };
    let bv3 = if flag & 8 != 0 { Scalar::one() } else { Scalar::zero() };
    let b0 = append_witness(composer, &bv0);
    proof {
        lemma_push_preserves(*composer, c0, bv0@, seq![root]);
    }
    let ghost c1 = *composer;
    let b1 = append_witness(composer, &bv1);
    proof {
        lemma_push_preserves(*composer, c1, bv1@, seq![root, b0]);
        lemma_extends_trans(*composer, c1, c0);
    }
    let ghost c2 = *composer;
    let b2 = append_witness(composer, &bv2);
    proof {
        lemma_push_preserves(*composer, c2, bv2@, seq![root, b0, b1]);
        lemma_extends_trans(*composer, c2, c0);
    }
    let ghost c3 = *composer;
    let b3 = append_witness(composer, &bv3);
    proof {
        lemma_push_preserves(*composer, c3, bv3@, seq![root, b0, b1, b2]);
        lemma_extends_trans(*composer, c3, c0);
    }
    // their sum, constrained to one
    let s0 = zero_witness();
    proof {
        lemma_extends_wval(*composer, c0, s0);
    }
    let ghost c4 = *composer;
    let s1 = gate_add_pair(composer, s0, b0);
    proof {
        lemma_push_preserves(*composer, c4, add_bytes(wval(c4, s0), wval(c4, b0)), seq![root,
            b0, b1, b2, b3]);
        lemma_extends_trans(*composer, c4, c0);
    }
    let ghost c5 = *composer;
    let s2 = gate_add_pair(composer, s1, b1);
    proof {
        lemma_push_preserves(*composer, c5, add_bytes(wval(c5, s1), wval(c5, b1)), seq![root,
            b0, b1, b2, b3]);
        lemma_extends_trans(*composer, c5, c0);
    }
    let ghost c6 = *composer;
    let s3 = gate_add_pair(composer, s2, b2);
    proof {
        lemma_push_preserves(*composer, c6, add_bytes(wval(c6, s2), wval(c6, b2)), seq![root,
            b0, b1, b2, b3]);
        lemma_extends_trans(*composer, c6, c0);
    }
    let ghost c7 = *composer;
    let s4 = gate_add_pair(composer, s3, b3);
    proof {
        lemma_push_preserves(*composer, c7, add_bytes(wval(c7, s3), wval(c7, b3)), seq![root,
            b0, b1, b2, b3]);
        lemma_extends_trans(*composer, c7, c0);
    }
    assert_equal_one(composer, s4);
    let ghost c8 = *composer;
    // the container holding the level
    let cw0 = append_witness(composer, &lvl.level[0]);
    proof {
        lemma_push_preserves(*composer, c8, lvl.level@[0]@, seq![root, b0, b1, b2, b3]);
        lemma_extends_trans(*composer, c8, c0);
    }
    let ghost c9 = *composer;
    let cw1 = append_witness(composer, &lvl.level[1]);
    proof {
        lemma_push_preserves(*composer, c9, lvl.level@[1]@, seq![root, b0, b1, b2, b3, cw0]);
        lemma_extends_trans(*composer, c9, c0);
    }
    let ghost c10 = *composer;
    let cw2 = append_witness(composer, &lvl.level[2]);
    proof {
        lemma_push_preserves(*composer, c10, lvl.level@[2]@, seq![root, b0, b1, b2, b3, cw0,
            cw1]);
        lemma_extends_trans(*composer, c10, c0);
    }
    let ghost c11 = *composer;
    let cw3 = append_witness(composer, &lvl.level[3]);
    proof {
        lemma_push_preserves(*composer, c11, lvl.level@[3]@, seq![root, b0, b1, b2, b3, cw0,
            cw1, cw2]);
        lemma_extends_trans(*composer, c11, c0);
    }
    let ghost c12 = *composer;
    let cw4 = append_witness(composer, &lvl.level[4]);
    proof {
        lemma_push_preserves(*composer, c12, lvl.level@[4]@, seq![root, b0, b1, b2, b3, cw0,
            cw1, cw2, cw3]);
        lemma_extends_trans(*composer, c12, c0);
    }
    // selection products: for each rate slot, bit * slot must equal bit * root
    let ghost hs = seq![root, b0, b1, b2, b3, cw0, cw1, cw2, cw3, cw4];
    let ghost c13 = *composer;
    let e1 = gate_mul_pair(composer, b0, cw1);
    proof {
        lemma_push_preserves(*composer, c13, mul_bytes(wval(c13, b0), wval(c13, cw1)), hs);
        lemma_extends_trans(*composer, c13, c0);
    }
    let ghost c14 = *composer;
    let q1 = gate_mul_pair(composer, b0, root);
    proof {
        lemma_push_preserves(*composer, c14, mul_bytes(wval(c14, b0), wval(c14, root)), hs.push(
            e1,
        ));
        lemma_extends_trans(*composer, c14, c0);
    }
    assert_equal(composer, e1, q1);
    let ghost c15 = *composer;
    let e2 = gate_mul_pair(composer, b1, cw2);
    proof {
        lemma_push_preserves(*composer, c15, mul_bytes(wval(c15, b1), wval(c15, cw2)), hs);
        lemma_extends_trans(*composer, c15, c0);
    }
    let ghost c16 = *composer;
    let q2 = gate_mul_pair(composer, b1, root);
    proof {
        lemma_push_preserves(*composer, c16, mul_bytes(wval(c16, b1), wval(c16, root)), hs.push(
            e2,
        ));
        lemma_extends_trans(*composer, c16, c0);
    }
    assert_equal(composer, e2, q2);
    let ghost c17 = *composer;
    let e3 = gate_mul_pair(composer, b2, cw3);
    proof {
        lemma_push_preserves(*composer, c17, mul_bytes(wval(c17, b2), wval(c17, cw3)), hs);
        lemma_extends_trans(*composer, c17, c0);
    }
    let ghost c18 = *composer;
    let q3 = gate_mul_pair(composer, b2, root);
    proof {
        lemma_push_preserves(*composer, c18, mul_bytes(wval(c18, b2), wval(c18, root)), hs.push(
            e3,
        ));
        lemma_extends_trans(*composer, c18, c0);
    }
    assert_equal(composer, e3, q3);
    let ghost c19 = *composer;
    let e4 = gate_mul_pair(composer, b3, cw4);
    proof {
        lemma_push_preserves(*composer, c19, mul_bytes(wval(c19, b3), wval(c19, cw4)), hs);
        lemma_extends_trans(*composer, c19, c0);
    }
    let ghost c20 = *composer;
    let q4 = gate_mul_pair(composer, b3, root);
    proof {
        lemma_push_preserves(*composer, c20, mul_bytes(wval(c20, b3), wval(c20, root)), hs.push(
            e4,
        ));
        lemma_extends_trans(*composer, c20, c0);
    }
    assert_equal(composer, e4, q4);
    let ghost c21 = *composer;
    // permute the container; the new running hash is slot one
    let mut cont: [Witness; 5] = [cw0, cw1, cw2, cw3, cw4];
    proof {
        assert(Seq::new(5, |i: int| wval(*composer, cont@[i])) =~= lview);
    }
    hades_gadget(composer, &mut cont);
    proof {
        lemma_extends_trans(*composer, c21, c0);
        assert(wval(*composer, cont@[1]) == Seq::new(5, |i: int| wval(*composer, cont@[i]))[1]);
        // the satisfaction factors of this level
        let sat = csat(*composer);
        assert(sat == (csat(c0) && wval(c8, s4) == one_bytes() && mul_bytes(wval(c13, b0), wval(
            c13, cw1)) == mul_bytes(wval(c14, b0), wval(c14, root)) && mul_bytes(wval(c15, b1),
            wval(c15, cw2)) == mul_bytes(wval(c16, b1), wval(c16, root)) && mul_bytes(wval(c17,
            b2), wval(c17, cw3)) == mul_bytes(wval(c18, b2), wval(c18, root)) && mul_bytes(wval(
            c19, b3), wval(c19, cw4)) == mul_bytes(wval(c20, b3), wval(c20, root))));
        if flag_offset(lvl.offset) >= 0 {
            assert((flag == 1 || flag == 2 || flag == 4 || flag == 8) ==> (((flag & 1 != 0)
                <==> (flag == 1)) && ((flag & 2 != 0) <==> (flag == 2)) && ((flag & 4 != 0)
                <==> (flag == 4)) && ((flag & 8 != 0) <==> (flag == 8)))) by (bit_vector);
            assert(wval(c8, s4) == one_bytes());
            let off = flag_offset(lvl.offset);
            assert(lview[off + 1] == wval(c13, cw1) || lview[off + 1] == wval(c15, cw2) || lview[
                off + 1] == wval(c17, cw3) || lview[off + 1] == wval(c19, cw4));
            assert(sat == (csat(c0) && lview[off + 1] == rv));
        }
    }
    cont[1]
}

/// Recompute the root of a branch opening inside the circuit, constraining
/// every level's selected slot to carry the running hash. The returned
/// handle holds the fold of the permutation over the branch levels; the
/// appended constraints are satisfiable exactly when the branch is
/// consistent with the leaf witness.
pub fn merkle_opening<const DEPTH: usize>(
    composer: &mut Composer,
    branch: &PoseidonBranch<DEPTH>,
    leaf: Witness,
) -> (root: Witness)
    requires
        branch.wf(),
        allocated(*old(composer), leaf),
        cwf(*old(composer)),
        cvals(*old(composer)).len() >= 1,
        cvals(*old(composer))[0] == zero_bytes(),
    ensures
        extends(*final(composer), *old(composer)),
        cwf(*final(composer)),
        allocated(*final(composer), root),
        wval(*final(composer), root) == opening_cur(
            wval(*old(composer), leaf),
            level_views(branch.path@),
            DEPTH as int,
        ),
        csat(*final(composer)) ==> csat(*old(composer)),
        branch_consistent(
            wval(*old(composer), leaf),
            level_views(branch.path@),
            level_flags(branch.path@),
        ) ==> csat(*final(composer)) == csat(*old(composer)),
        (exists|l: int|
            0 <= l < DEPTH && flag_offset(level_flags(branch.path@)[l]) >= 0 && level_views(
                branch.path@,
            )[l][flag_offset(level_flags(branch.path@)[l]) + 1] != opening_cur(
                wval(*old(composer), leaf),
                level_views(branch.path@),
                l,
            )) ==> !csat(*final(composer)),
{
    let ghost c0 = *composer;
    let ghost lv = wval(c0, leaf);
    let ghost levels = level_views(branch.path@);
    let ghost flags = level_flags(branch.path@);
    let mut root = leaf;
    let mut l: usize = 0;
    proof {
        assert(cvals(*composer).take(cvals(c0).len() as int) =~= cvals(c0));
    }
    while l < DEPTH
        invariant
            l <= DEPTH,
            branch.wf(),
            levels == level_views(branch.path@),
            flags == level_flags(branch.path@),
            extends(*composer, c0),
            cwf(*composer),
            cvals(c0).len() >= 1,
            cvals(c0)[0] == zero_bytes(),
            allocated(c0, leaf),
            lv == wval(c0, leaf),
            allocated(*composer, root),
            wval(*composer, root) == opening_cur(lv, levels, l as int),
            csat(*composer) ==> csat(c0),
            (forall|k: int|
                0 <= k < l ==> flag_offset(#[trigger] flags[k]) >= 0 && levels[k][flag_offset(
                    flags[k],
                ) + 1] == opening_cur(lv, levels, k)) ==> csat(*composer) == csat(c0),
            (exists|k: int|
                0 <= k < l && flag_offset(#[trigger] flags[k]) >= 0 && levels[k][flag_offset(
                    flags[k],
                ) + 1] != opening_cur(lv, levels, k)) ==> !csat(*composer),
        decreases DEPTH - l,
    {
        let ghost cpre = *composer;
        let lvl = &branch.path[l];
        proof {
            assert(branch.path@[l as int].wf());
            assert(lvl.lv() == levels[l as int]);
            assert(lvl.offset == flags[l as int]);
            lemma_extends_wval(*composer, c0, leaf);
        }
        let new_root = opening_level(composer, lvl, root);
        proof {
            lemma_extends_trans(*composer, cpre, c0);
        }
        root = new_root;
        l = l + 1;
    }
    root
}

/// Merkle soundness, positive direction: a branch fetched from the tree is
/// consistent with its leaf, so by `merkle_opening`'s contract the appended
/// constraints stay satisfiable, and the recomputed root is the branch's
/// stored root, which is the tree's actual root.
pub proof fn lemma_merkle_soundness_positive<const DEPTH: usize>(b: PoseidonBranch<DEPTH>)
    requires
        b.wf(),
        b.sound(),
    ensures
        branch_consistent(b.leaf@, level_views(b.path@), level_flags(b.path@)),
        opening_cur(b.leaf@, level_views(b.path@), DEPTH as int) == b.root@,
{
    assert(b.levels() =~= level_views(b.path@));
    assert(b.flags() =~= level_flags(b.path@));
}

} // verus!
