use vstd::prelude::*;

use crate::field::{jub_r, jub_r_bytes, le_val, views, Scalar};
use crate::sponge::sponge_bytes;

verus! {

/// The scalar type of the smaller (Jubjub) field, opaque here.
#[verifier::external_type_specification]
#[verifier::external_body]
pub struct ExJubJubScalar(dusk_jubjub::Fr);

/// Canonical little-endian encoding of the fixed truncation mask. Its top
/// byte is `0x0a`, strictly below the top byte `0x0e` of the Jubjub scalar
/// field modulus, so any digest masked with it parses as a Jubjub scalar.
pub open spec fn mask_bytes() -> Seq<u8> {
    seq![
        0x74u8, 0xca, 0xcf, 0xf7, 0xa3, 0x67, 0x26, 0x43,
        0xbe, 0x84, 0x1a, 0x12, 0x6e, 0x48, 0x05, 0x79,
        0x12, 0x0d, 0xe9, 0xcf, 0x84, 0x28, 0xc0, 0x19,
        0xbe, 0x23, 0x13, 0x6a, 0xba, 0xff, 0x62, 0x0a,
    ]
}

/// A digest masked byte by byte with the truncation mask.
pub open spec fn masked(d: Seq<u8>) -> Seq<u8> {
    Seq::new(32, |i: int| d[i] & mask_bytes()[i])
}

/// Truncation range: whatever the digest, the masked bytes hold a value
/// strictly below the Jubjub scalar field modulus.
pub proof fn lemma_truncation_range(d: Seq<u8>)
    requires
        d.len() == 32,
    ensures
        le_val(masked(d)) < jub_r(),
{
    let m = masked(d);
    assert forall|i: int| 0 <= i < 32 implies m[i] <= mask_bytes()[i] by {
        let x = d[i];
        let y = mask_bytes()[i];
        assert((x & y) <= y) by (bit_vector);
    }
    crate::field::lemma_le_val_bytewise(m, mask_bytes());
    assert(mask_bytes().last() == 0x0a && jub_r_bytes().last() == 0x0e);
    crate::field::lemma_le_val_top_byte(mask_bytes(), jub_r_bytes());
}

/// What `dusk_jubjub::Fr::from_bytes` returns on a canonical encoding: a
/// pure function of the bytes alone.
pub uninterp spec fn jub_decode(b: Seq<u8>) -> dusk_jubjub::Fr;

/// Relies on `dusk_jubjub::Fr::from_bytes`, which succeeds exactly on
/// little-endian encodings strictly below the Jubjub modulus.
#[verifier::external_body]
fn jub_from_bytes(b: &[u8; 32]) -> (r: Option<dusk_jubjub::Fr>)
    ensures
        r is Some <==> le_val(b@) < jub_r(),
        r is Some ==> r->0 == jub_decode(b@),
{
    let ct = dusk_jubjub::Fr::from_bytes(b);
    if bool::from(ct.is_some()) {
        Some(ct.unwrap())
    } else {
        None
    }
}

/// Hash the message with the sponge, then truncate the digest with the
/// fixed mask so it always parses as a scalar of the smaller field.
pub fn hash(messages: &[Scalar]) -> (r: dusk_jubjub::Fr)
    requires
        forall|i: int| 0 <= i < messages@.len() ==> (#[trigger] messages@[i]).wf(),
    ensures
        r == jub_decode(masked(sponge_bytes(views(messages@)))),
{
    let digest = crate::sponge::hash(messages);
    let db = digest.to_bytes();
    let mb: [u8; 32] = [
        0x74u8, 0xca, 0xcf, 0xf7, 0xa3, 0x67, 0x26, 0x43,
        0xbe, 0x84, 0x1a, 0x12, 0x6e, 0x48, 0x05, 0x79,
        0x12, 0x0d, 0xe9, 0xcf, 0x84, 0x28, 0xc0, 0x19,
        0xbe, 0x23, 0x13, 0x6a, 0xba, 0xff, 0x62, 0x0a,
    ];
    proof {
        assert(mb@ =~= mask_bytes());
    }
    let mut out = [0u8; 32];
    let mut i: usize = 0;
    while i < 32
        invariant
            i <= 32,
            db@.len() == 32,
            mb@ == mask_bytes(),
            forall|j: int| 0 <= j < i ==> out@[j] == (db@[j] & mask_bytes()[j]),
        decreases 32 - i,
    {
        out[i] = db[i] & mb[i];
        i = i + 1;
    }
    proof {
        assert(out@ =~= masked(db@));
        lemma_truncation_range(db@);
    }
    let r = jub_from_bytes(&out);
    match r {
        Some(s) => s,
        None => {
            proof {
                assert(false);
            }
            jub_from_bytes(&out).unwrap()
        },
    }
}

} // verus!
