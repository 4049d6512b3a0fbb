use vstd::prelude::*;

use crate::field::{add_bytes, canon, one_bytes, zero_bytes, Scalar};
use crate::perm::perm_bytes;
use dusk_plonk::prelude::{Composer, Constraint, Witness};

verus! {

/// The outside circuit builder, opaque here.
#[verifier::external_type_specification]
#[verifier::external_body]
pub struct ExComposer(Composer);

/// A handle to a witness allocated in a circuit builder, opaque here.
#[verifier::external_type_specification]
#[verifier::external_body]
pub struct ExWitness(Witness);

/// The assigned values of a composer's witnesses, in allocation order, each
/// the canonical encoding of a BLS scalar.
pub uninterp spec fn cvals(c: Composer) -> Seq<Seq<u8>>;

/// Whether every constraint appended to the composer so far is satisfied by
/// its witness assignment.
pub uninterp spec fn csat(c: Composer) -> bool;

/// The index of a witness handle: a pure function of the handle.
pub uninterp spec fn widx(w: Witness) -> int;

/// Field multiplication in the BLS scalar field, as a function of the
/// canonical encodings of the operands.
pub uninterp spec fn mul_bytes(a: Seq<u8>, b: Seq<u8>) -> Seq<u8>;

/// Every witness value of the composer is a canonical encoding.
pub open spec fn cwf(c: Composer) -> bool {
    forall|i: int| 0 <= i < cvals(c).len() ==> canon(#[trigger] cvals(c)[i])
}

/// The assigned value of a witness handle.
pub open spec fn wval(c: Composer, w: Witness) -> Seq<u8> {
    cvals(c)[widx(w)]
}

/// The handle points at an allocated witness.
pub open spec fn allocated(c: Composer, w: Witness) -> bool {
    0 <= widx(w) < cvals(c).len()
}

/// `c2` carries every witness of `c1`, with the same values.
pub open spec fn extends(c2: Composer, c1: Composer) -> bool {
    cvals(c2).len() >= cvals(c1).len() && cvals(c2).take(cvals(c1).len() as int) == cvals(c1)
}

/// The assigned values of a sequence of witness handles.
pub open spec fn wvals(c: Composer, ws: Seq<Witness>) -> Seq<Seq<u8>> {
    Seq::new(ws.len(), |i: int| wval(c, ws[i]))
}

pub proof fn lemma_extends_wval(c2: Composer, c1: Composer, w: Witness)
    requires
        extends(c2, c1),
        allocated(c1, w),
    ensures
        allocated(c2, w),
        wval(c2, w) == wval(c1, w),
{
    let n = cvals(c1).len() as int;
    assert(cvals(c2).take(n)[widx(w)] == cvals(c2)[widx(w)]);
}

pub proof fn lemma_extends_trans(c3: Composer, c2: Composer, c1: Composer)
    requires
        extends(c3, c2),
        extends(c2, c1),
    ensures
        extends(c3, c1),
{
    let n1 = cvals(c1).len() as int;
    let n2 = cvals(c2).len() as int;
    assert forall|i: int| 0 <= i < n1 implies cvals(c3).take(n1)[i] == cvals(c1)[i] by {
        assert(cvals(c3).take(n2)[i] == cvals(c2)[i]);
        assert(cvals(c2).take(n1)[i] == cvals(c1)[i]);
    }
    assert(cvals(c3).take(n1) =~= cvals(c1));
}

/// Appending one witness keeps every allocated handle and its value.
pub proof fn lemma_push_preserves(c2: Composer, c1: Composer, x: Seq<u8>, ws: Seq<Witness>)
    requires
        cvals(c2) == cvals(c1).push(x),
        forall|i: int| 0 <= i < ws.len() ==> allocated(c1, #[trigger] ws[i]),
    ensures
        extends(c2, c1),
        forall|i: int|
            0 <= i < ws.len() ==> allocated(c2, #[trigger] ws[i]) && wval(c2, ws[i]) == wval(
                c1,
                ws[i],
            ),
{
    assert(cvals(c2).take(cvals(c1).len() as int) =~= cvals(c1));
    assert forall|i: int| 0 <= i < ws.len() implies allocated(c2, #[trigger] ws[i]) && wval(
        c2,
        ws[i],
    ) == wval(c1, ws[i]) by {
        assert(cvals(c2)[widx(ws[i])] == cvals(c1)[widx(ws[i])]);
    }
}

/// An extension keeps every allocated handle and its value.
pub proof fn lemma_extends_wvals(c2: Composer, c1: Composer, ws: Seq<Witness>)
    requires
        extends(c2, c1),
        forall|i: int| 0 <= i < ws.len() ==> allocated(c1, #[trigger] ws[i]),
    ensures
        forall|i: int|
            0 <= i < ws.len() ==> allocated(c2, #[trigger] ws[i]) && wval(c2, ws[i]) == wval(
                c1,
                ws[i],
            ),
{
    assert forall|i: int| 0 <= i < ws.len() implies allocated(c2, #[trigger] ws[i]) && wval(
        c2,
        ws[i],
    ) == wval(c1, ws[i]) by {
        lemma_extends_wval(c2, c1, ws[i]);
    }
}

/// Relies on `Composer::initialized`: it preallocates six witnesses (the
/// constants zero and one, then four blinding values) and appends only
/// constraints that its own assignment satisfies.
#[verifier::external_body]
pub fn composer_init() -> (c: Composer)
    ensures
        cvals(c).len() == 6,
        cvals(c)[0] == zero_bytes(),
        cvals(c)[1] == one_bytes(),
        csat(c),
        cwf(c),
{
    Composer::initialized()
}

/// Relies on `Composer::ZERO`: the handle of the first witness.
#[verifier::external_body]
pub fn zero_witness() -> (w: Witness)
    ensures
        widx(w) == 0,
{
    Composer::ZERO
}

/// Relies on `Composer::append_witness`: it appends exactly one witness
/// holding the given value and no constraint.
#[verifier::external_body]
pub fn append_witness(c: &mut Composer, v: &Scalar) -> (w: Witness)
    requires
        v.wf(),
    ensures
        cvals(*final(c)) == cvals(*old(c)).push(v@),
        widx(w) == cvals(*old(c)).len(),
        csat(*final(c)) == csat(*old(c)),
        cwf(*old(c)) ==> cwf(*final(c)),
{
    c.append_witness(dusk_bls12_381::BlsScalar::from_bytes(&v.to_bytes()).unwrap())
}

/// Relies on `Composer::gate_add` with the constraint `a + b - o = 0`: it
/// appends one witness assigned the field sum of the operands' values, and
/// one gate that this assignment satisfies by construction; the sum with a
/// zero operand is the other operand.
#[verifier::external_body]
pub fn gate_add_pair(c: &mut Composer, a: Witness, b: Witness) -> (w: Witness)
    requires
        allocated(*old(c), a),
        allocated(*old(c), b),
    ensures
        cvals(*final(c)) == cvals(*old(c)).push(
            add_bytes(wval(*old(c), a), wval(*old(c), b)),
        ),
        widx(w) == cvals(*old(c)).len(),
        csat(*final(c)) == csat(*old(c)),
        cwf(*old(c)) ==> cwf(*final(c)),
        wval(*old(c), a) == zero_bytes() ==> cvals(*final(c)).last() == wval(*old(c), b),
        wval(*old(c), b) == zero_bytes() ==> cvals(*final(c)).last() == wval(*old(c), a),
{
    let s = Constraint::new().left(1).a(a).right(1).b(b);
    c.gate_add(s)
}

/// Relies on `Composer::gate_add` with the constraint `a + 1 - o = 0` (the
/// one is a circuit-description constant): it appends one witness assigned
/// the operand's value plus one, and one gate satisfied by construction.
#[verifier::external_body]
pub fn gate_add_one(c: &mut Composer, a: Witness) -> (w: Witness)
    requires
        allocated(*old(c), a),
    ensures
        cvals(*final(c)) == cvals(*old(c)).push(add_bytes(wval(*old(c), a), one_bytes())),
        widx(w) == cvals(*old(c)).len(),
        csat(*final(c)) == csat(*old(c)),
        cwf(*old(c)) ==> cwf(*final(c)),
{
    let s = Constraint::new().left(1).a(a).constant(1);
    c.gate_add(s)
}

/// Relies on `Composer::gate_mul` with the constraint `a * b - o = 0`: it
/// appends one witness assigned the field product of the operands' values,
/// and one gate satisfied by construction; the product with a zero operand
/// is zero, and with a one operand the other operand.
#[verifier::external_body]
pub fn gate_mul_pair(c: &mut Composer, a: Witness, b: Witness) -> (w: Witness)
    requires
        allocated(*old(c), a),
        allocated(*old(c), b),
    ensures
        cvals(*final(c)) == cvals(*old(c)).push(
            mul_bytes(wval(*old(c), a), wval(*old(c), b)),
        ),
        widx(w) == cvals(*old(c)).len(),
        csat(*final(c)) == csat(*old(c)),
        cwf(*old(c)) ==> cwf(*final(c)),
        wval(*old(c), a) == zero_bytes() ==> cvals(*final(c)).last() == zero_bytes(),
        wval(*old(c), a) == one_bytes() ==> cvals(*final(c)).last() == wval(*old(c), b),
{
    let s = Constraint::new().mult(1).a(a).b(b);
    c.gate_mul(s)
}

/// Relies on `Composer::assert_equal`: one constraint `a - b = 0` and no
/// witness are added; the assignment satisfies the constraint exactly when
/// the two values are equal.
#[verifier::external_body]
pub fn assert_equal(c: &mut Composer, a: Witness, b: Witness)
    requires
        allocated(*old(c), a),
        allocated(*old(c), b),
    ensures
        cvals(*final(c)) == cvals(*old(c)),
        csat(*final(c)) == (csat(*old(c)) && wval(*old(c), a) == wval(*old(c), b)),
{
    c.assert_equal(a, b);
}

/// Relies on `Composer::assert_equal_constant` with constant one: one
/// constraint `a - 1 = 0` and no witness are added; the assignment satisfies
/// the constraint exactly when the value is one.
#[verifier::external_body]
pub fn assert_equal_one(c: &mut Composer, a: Witness)
    requires
        allocated(*old(c), a),
    ensures
        cvals(*final(c)) == cvals(*old(c)),
        csat(*final(c)) == (csat(*old(c)) && wval(*old(c), a) == one_bytes()),
{
    c.assert_equal_constant(a, dusk_bls12_381::BlsScalar::one(), None);
}

/// Relies on `dusk_hades::GadgetStrategy::gadget`, the in-circuit mirror of
/// `ScalarStrategy::perm`: it replaces the five state handles with handles
/// assigned exactly the permuted values, keeps every earlier witness, and
/// appends only gates that its own assignment satisfies by construction.
#[verifier::external_body]
pub fn hades_gadget(c: &mut Composer, state: &mut [Witness; 5])
    requires
        forall|i: int| 0 <= i < 5 ==> allocated(*old(c), #[trigger] old(state)@[i]),
        cwf(*old(c)),
    ensures
        extends(*final(c), *old(c)),
        forall|i: int| 0 <= i < 5 ==> allocated(*final(c), #[trigger] final(state)@[i]),
        Seq::new(5, |i: int| wval(*final(c), final(state)@[i])) == perm_bytes(
            Seq::new(5, |i: int| wval(*old(c), old(state)@[i])),
        ),
        csat(*final(c)) == csat(*old(c)),
        cwf(*final(c)),
{
    dusk_hades::GadgetStrategy::gadget(c, state);
}

} // verus!
