use vstd::prelude::*;

verus! {

/// Little-endian value of a byte string: `le_val(s) = sum s[i] * 256^i`,
/// defined by recursion on the most significant byte.
pub open spec fn pow256(n: nat) -> nat
    decreases n,
{
    if n == 0 {
        1
    } else {
        256 * pow256((n - 1) as nat)
    }
}

pub open spec fn le_val(s: Seq<u8>) -> nat
    decreases s.len(),
{
    if s.len() == 0 {
        0
    } else {
        (le_val(s.drop_last()) + s.last() * pow256((s.len() - 1) as nat)) as nat
    }
}

/// Canonical little-endian encoding of the BLS scalar field modulus
/// `0x73eda753299d7d483339d80809a1d80553bda402fffe5bfeffffffff00000001`.
pub open spec fn bls_r_bytes() -> Seq<u8> {
    seq![
        0x01u8, 0x00, 0x00, 0x00, 0xff, 0xff, 0xff, 0xff,
        0xfe, 0x5b, 0xfe, 0xff, 0x02, 0xa4, 0xbd, 0x53,
        0x05, 0xd8, 0xa1, 0x09, 0x08, 0xd8, 0x39, 0x33,
        0x48, 0x7d, 0x9d, 0x29, 0x53, 0xa7, 0xed, 0x73,
    ]
}

/// The BLS scalar field modulus as an integer.
pub open spec fn bls_r() -> nat {
    le_val(bls_r_bytes())
}

/// Canonical little-endian encoding of the Jubjub scalar field modulus
/// `0x0e7db4ea6533afa906673b0101343b00a6682093ccc81082d0970e5ed6f72cb7`.
pub open spec fn jub_r_bytes() -> Seq<u8> {
    seq![
        0xb7u8, 0x2c, 0xf7, 0xd6, 0x5e, 0x0e, 0x97, 0xd0,
        0x82, 0x10, 0xc8, 0xcc, 0x93, 0x20, 0x68, 0xa6,
        0x00, 0x3b, 0x34, 0x01, 0x01, 0x3b, 0x67, 0x06,
        0xa9, 0xaf, 0x33, 0x65, 0xea, 0xb4, 0x7d, 0x0e,
    ]
}

/// The Jubjub scalar field modulus as an integer.
pub open spec fn jub_r() -> nat {
    le_val(jub_r_bytes())
}

/// A byte string is a canonical field-element encoding when it is 32 bytes
/// long and its value lies below the BLS scalar field modulus.
pub open spec fn canon(s: Seq<u8>) -> bool {
    s.len() == 32 && le_val(s) < bls_r()
}

pub open spec fn zero_bytes() -> Seq<u8> {
    Seq::new(32, |i: int| 0u8)
}

pub open spec fn one_bytes() -> Seq<u8> {
    zero_bytes().update(0, 1u8)
}

/// The views of a sequence of scalars, element by element.
pub open spec fn views(s: Seq<Scalar>) -> Seq<Seq<u8>> {
    s.map_values(|x: Scalar| x@)
}

pub broadcast proof fn lemma_views_index(s: Seq<Scalar>, i: int)
    requires
        0 <= i < s.len(),
    ensures
        #[trigger] views(s)[i] == s[i]@,
{
}

/// The scalar type of the outside field-arithmetic crate, opaque here.
#[verifier::external_type_specification]
#[verifier::external_body]
pub struct ExBlsScalar(dusk_bls12_381::BlsScalar);

/// An element of the BLS scalar field, carried as its canonical
/// little-endian byte encoding.
#[derive(Clone, Copy, PartialEq, Eq, Debug)]
pub struct Scalar {
    bytes: [u8; 32],
}

impl View for Scalar {
    type V = Seq<u8>;

    closed spec fn view(&self) -> Seq<u8> {
        self.bytes@
    }
}

impl Scalar {
    /// A scalar is well formed when its bytes are a canonical encoding.
    pub open spec fn wf(self) -> bool {
        canon(self@)
    }

    pub fn zero() -> (r: Scalar)
        ensures
            r@ == zero_bytes(),
            r.wf(),
    {
        let bytes = [0u8; 32];
        proof {
            assert(bytes@ =~= zero_bytes());
            lemma_zero_lt_bls_r();
        }
        Scalar { bytes }
    }

    pub fn one() -> (r: Scalar)
        ensures
            r@ == one_bytes(),
            r.wf(),
    {
        let mut bytes = [0u8; 32];
        bytes[0] = 1;
        proof {
            assert(bytes@ =~= one_bytes());
            lemma_one_lt_bls_r();
        }
        Scalar { bytes }
    }

    /// Byte-for-byte equality of the canonical encodings.
    pub fn eq_bytes(&self, o: &Scalar) -> (b: bool)
        ensures
            b == (self@ == o@),
    {
        let mut i: usize = 0;
        while i < 32
            invariant
                i <= 32,
                forall|j: int| 0 <= j < i ==> self@[j] == o@[j],
            decreases 32 - i,
        {
            if self.bytes[i] != o.bytes[i] {
                return false;
            }
            i = i + 1;
        }
        proof {
            assert(self@ =~= o@);
        }
        true
    }

    pub fn to_bytes(&self) -> (r: [u8; 32])
        ensures
            r@ == self@,
    {
        self.bytes
    }

    /// Relies on `dusk_bls12_381::BlsScalar::from_bytes`, which succeeds
    /// exactly on canonical (below-modulus) little-endian encodings.
    #[verifier::external_body]
    pub fn from_bytes(b: &[u8; 32]) -> (r: Option<Scalar>)
        ensures
            r is Some <==> canon(b@),
            r is Some ==> r->0@ == b@ && r->0.wf(),
    {
        let ct = dusk_bls12_381::BlsScalar::from_bytes(b);
        if bool::from(ct.is_some()) {
            Some(Scalar { bytes: *b })
        } else {
            None
        }
    }

    /// Relies on `dusk_bls12_381::BlsScalar::to_bytes` returning the
    /// canonical little-endian encoding of a field element.
    #[verifier::external_body]
    pub fn from_bls(s: &dusk_bls12_381::BlsScalar) -> (r: Scalar)
        ensures
            r.wf(),
    {
        Scalar { bytes: s.to_bytes() }
    }
}

/// Field addition in the BLS scalar field, as a function of the canonical
/// encodings of the operands.
pub uninterp spec fn add_bytes(a: Seq<u8>, b: Seq<u8>) -> Seq<u8>;

/// Relies on `dusk_bls12_381::BlsScalar`'s `Add`: field addition of the two
/// operands; adding the zero element returns the other operand unchanged.
#[verifier::external_body]
pub fn fe_add(a: &Scalar, b: &Scalar) -> (r: Scalar)
    requires
        a.wf(),
        b.wf(),
    ensures
        r@ == add_bytes(a@, b@),
        r.wf(),
        a@ == zero_bytes() ==> r@ == b@,
        b@ == zero_bytes() ==> r@ == a@,
{
    let x = dusk_bls12_381::BlsScalar::from_bytes(&a.bytes).unwrap();
    let y = dusk_bls12_381::BlsScalar::from_bytes(&b.bytes).unwrap();
    Scalar { bytes: (x + y).to_bytes() }
}

pub proof fn lemma_zero_lt_bls_r()
    ensures
        le_val(zero_bytes()) == 0,
        0 < bls_r(),
{
    lemma_le_val_zero(zero_bytes());
    lemma_le_val_first(bls_r_bytes());
}

pub proof fn lemma_one_lt_bls_r()
    ensures
        le_val(one_bytes()) == 1,
        1 < bls_r(),
{
    lemma_le_val_zero_except_first(one_bytes());
    lemma_le_val_first(bls_r_bytes());
    assert(le_val(one_bytes()) == 1);
    assert(bls_r() >= bls_r_bytes()[0] == 1) by {
        assert(bls_r_bytes()[0] == 0x01);
    }
    lemma_le_val_top_byte(one_bytes(), bls_r_bytes());
}

/// A byte string of zeros has value zero.
pub proof fn lemma_le_val_zero(s: Seq<u8>)
    requires
        forall|i: int| 0 <= i < s.len() ==> s[i] == 0,
    ensures
        le_val(s) == 0,
    decreases s.len(),
{
    if s.len() > 0 {
        lemma_le_val_zero(s.drop_last());
    }
}

/// A byte string that is zero except in its first byte has that byte's value.
pub proof fn lemma_le_val_zero_except_first(s: Seq<u8>)
    requires
        s.len() >= 1,
        forall|i: int| 1 <= i < s.len() ==> s[i] == 0,
    ensures
        le_val(s) == s[0],
    decreases s.len(),
{
    if s.len() == 1 {
        assert(s.drop_last().len() == 0);
        assert(le_val(s.drop_last()) == 0);
        assert(pow256(0) == 1);
        assert(s.last() == s[0]);
        assert(s.last() * pow256((s.len() - 1) as nat) == s[0]) by (nonlinear_arith)
            requires pow256((s.len() - 1) as nat) == 1, s.last() == s[0];
    } else {
        lemma_le_val_zero_except_first(s.drop_last());
        assert(s.drop_last()[0] == s[0]);
        assert(s.last() == 0);
        let n = (s.len() - 1) as nat;
        assert(s.last() * pow256(n) == 0) by (nonlinear_arith)
            requires s.last() == 0;
    }
}

/// The value of a byte string is at least its first byte.
pub proof fn lemma_le_val_first(s: Seq<u8>)
    requires
        s.len() >= 1,
    ensures
        le_val(s) >= s[0],
    decreases s.len(),
{
    lemma_pow256_pos((s.len() - 1) as nat);
    if s.len() == 1 {
    } else {
        lemma_le_val_first(s.drop_last());
    }
}

pub proof fn lemma_pow256_pos(n: nat)
    ensures
        pow256(n) >= 1,
    decreases n,
{
    if n > 0 {
        lemma_pow256_pos((n - 1) as nat);
    }
}

/// The value of a byte string is below 256^len.
pub proof fn lemma_le_val_bound(s: Seq<u8>)
    ensures
        le_val(s) < pow256(s.len()),
    decreases s.len(),
{
    if s.len() == 0 {
    } else {
        let n = (s.len() - 1) as nat;
        lemma_le_val_bound(s.drop_last());
        assert(le_val(s) == le_val(s.drop_last()) + s.last() * pow256(n));
        assert(s.last() * pow256(n) <= 255 * pow256(n)) by (nonlinear_arith)
            requires s.last() <= 255, pow256(n) >= 0;
        lemma_pow256_pos(n);
        assert(pow256(s.len()) == 256 * pow256(n));
    }
}

/// Bytewise dominance implies value dominance.
pub proof fn lemma_le_val_bytewise(a: Seq<u8>, b: Seq<u8>)
    requires
        a.len() == b.len(),
        forall|i: int| 0 <= i < a.len() ==> a[i] <= b[i],
    ensures
        le_val(a) <= le_val(b),
    decreases a.len(),
{
    if a.len() > 0 {
        let n = (a.len() - 1) as nat;
        lemma_le_val_bytewise(a.drop_last(), b.drop_last());
        lemma_pow256_pos(n);
        assert(a.last() * pow256(n) <= b.last() * pow256(n)) by (nonlinear_arith)
            requires a.last() <= b.last(), pow256(n) >= 1;
    }
}

/// If the top byte of `a` is strictly below the top byte of `b`, the value
/// of `a` is strictly below the value of `b`.
pub proof fn lemma_le_val_top_byte(a: Seq<u8>, b: Seq<u8>)
    requires
        a.len() == b.len(),
        a.len() >= 1,
        a.last() < b.last(),
    ensures
        le_val(a) < le_val(b),
{
    let n = (a.len() - 1) as nat;
    lemma_le_val_bound(a.drop_last());
    assert(le_val(a) < pow256(n) + a.last() * pow256(n));
    assert(pow256(n) + a.last() * pow256(n) == (a.last() + 1) * pow256(n)) by (nonlinear_arith);
    assert((a.last() + 1) * pow256(n) <= b.last() * pow256(n)) by (nonlinear_arith)
        requires a.last() + 1 <= b.last(), pow256(n) >= 0;
    lemma_pow256_pos(n);
    assert(le_val(b) >= b.last() * pow256(n));
}

} // verus!
