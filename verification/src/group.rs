//! Group algebra of the P-256 curve, seen through byte encodings.
//!
//! A point is its 33-byte SEC1 compressed encoding; a scalar is its
//! 32-byte big-endian encoding, canonical (below the group order). All
//! arithmetic is done by the `p256` crate behind the trusted wrappers of
//! this module; their contracts speak of the uninterpreted functions
//! below and of the group laws that scalar multiplication obeys.

use vstd::prelude::*;

use p256::elliptic_curve::hash2curve::{ExpandMsgXmd, GroupDigest};
use p256::elliptic_curve::ops::ReduceNonZero;
use p256::elliptic_curve::sec1::{FromEncodedPoint, ToEncodedPoint};
use p256::elliptic_curve::{Field, PrimeField};

use crate::CdsError;

verus! {

/// Whether `b` is the SEC1 compressed encoding (tag byte 2 or 3, then the
/// 32-byte x-coordinate) of a point of the P-256 curve.
pub uninterp spec fn is_point(b: Seq<u8>) -> bool;

/// The compressed encoding of the point encoded by `p` multiplied by the
/// scalar encoded by `s`.
pub uninterp spec fn smul(p: Seq<u8>, s: Seq<u8>) -> Seq<u8>;

/// Whether `b` is the canonical 32-byte big-endian encoding of a scalar,
/// that is, of an integer below the order of the P-256 group.
pub uninterp spec fn is_scalar(b: Seq<u8>) -> bool;

/// Whether `b` encodes the zero scalar.
pub uninterp spec fn scalar_zero(b: Seq<u8>) -> bool;

/// The encoding of the multiplicative inverse of the scalar encoded by `s`.
pub uninterp spec fn scalar_inv(s: Seq<u8>) -> Seq<u8>;

/// The compressed encoding of the point that the RFC 9380 hash-to-curve
/// construction (SHA-256 based, with this crate's fixed domain-separation
/// tag) assigns to the byte string `m`.
pub uninterp spec fn curve_hash(m: Seq<u8>) -> Seq<u8>;

/// Whether the hash-to-curve construction succeeds on `m`.
pub uninterp spec fn curve_hash_ok(m: Seq<u8>) -> bool;

/// The encoding of the nonzero scalar that a 32-byte digest `d` reduces to.
pub uninterp spec fn hash_scalar(d: Seq<u8>) -> Seq<u8>;

/// Whether SEC1 decoding succeeds on the 33-byte buffer `b`: for a
/// compact-form buffer, whether its x-coordinate lies on the curve.
pub uninterp spec fn compact_ok(b: Seq<u8>) -> bool;

/// The compressed encoding of the point that decoding the buffer `b`
/// yields.
pub uninterp spec fn compact_point(b: Seq<u8>) -> Seq<u8>;

/// Multiplication by the scalar `s` commutes with multiplication by any
/// other nonzero scalar.
pub open spec fn commutes(s: Seq<u8>) -> bool {
    forall|p: Seq<u8>, t: Seq<u8>|
        is_point(p) && is_scalar(t) && !scalar_zero(t) ==> #[trigger] smul(smul(p, s), t) == smul(
            smul(p, t),
            s,
        )
}

/// Multiplication by the scalar `s` sends curve points to curve points.
pub open spec fn point_preserving(s: Seq<u8>) -> bool {
    forall|p: Seq<u8>|
        is_point(p) ==> is_point(#[trigger] smul(p, s)) && smul(p, s).len() == 33
}

/// Multiplying by `s` and then by `si` (or the other way round) gives back
/// the point one started with: `si` undoes `s`.
pub open spec fn inverse_pair(s: Seq<u8>, si: Seq<u8>) -> bool {
    forall|p: Seq<u8>|
        #![trigger smul(smul(p, s), si)]
        #![trigger smul(smul(p, si), s)]
        is_point(p) ==> smul(smul(p, s), si) == p && smul(smul(p, si), s) == p
}

/// A canonical, nonzero scalar encoding, with the group laws that this
/// crate's proofs lean on.
pub open spec fn good_scalar(s: Seq<u8>) -> bool {
    &&& is_scalar(s)
    &&& !scalar_zero(s)
    &&& s.len() == 32
    &&& commutes(s)
    &&& point_preserving(s)
}

/// A good scalar whose inverse is also good and really undoes it.
pub open spec fn invertible(s: Seq<u8>) -> bool {
    &&& good_scalar(s)
    &&& good_scalar(scalar_inv(s))
    &&& inverse_pair(s, scalar_inv(s))
}

/// Relies on `p256::EncodedPoint::from_bytes` and
/// `p256::AffinePoint::from_encoded_point`: returns whether the bytes are
/// the SEC1 compressed encoding of a point on the curve.
#[verifier::external_body]
pub(crate) fn point_valid(b: &Vec<u8>) -> (r: bool)
    ensures
        r == is_point(b@),
        r ==> b@.len() == 33,
{
    match p256::EncodedPoint::from_bytes(b.as_slice()) {
        Ok(e) if e.is_compressed() => Option::<p256::AffinePoint>::from(
            p256::AffinePoint::from_encoded_point(&e),
        ).is_some(),
        _ => false,
    }
}

/// Relies on the scalar multiplication of `p256` (`ProjectivePoint * Scalar`)
/// and on its SEC1 codecs. The result is a deterministic function of the two
/// encodings, a curve point again, and multiplication by a further nonzero
/// scalar commutes with this one.
#[verifier::external_body]
pub(crate) fn point_mul(p: &Vec<u8>, s: &Vec<u8>) -> (r: Vec<u8>)
    requires
        is_point(p@),
        is_scalar(s@),
        !scalar_zero(s@),
    ensures
        r@ == smul(p@, s@),
        is_point(r@),
        r@.len() == 33,
{
    let e = p256::EncodedPoint::from_bytes(p.as_slice()).expect("compressed point bytes");
    let a = Option::<p256::AffinePoint>::from(p256::AffinePoint::from_encoded_point(&e))
        .expect("point on the curve");
    let arr: [u8; 32] = s.as_slice().try_into().expect("32 bytes");
    let sc = Option::<p256::Scalar>::from(p256::Scalar::from_repr(arr.into()))
        .expect("canonical scalar bytes");
    let m = p256::ProjectivePoint::from(a) * sc;
    m.to_affine().to_encoded_point(true).as_bytes().to_vec()
}

/// Relies on `p256::EncodedPoint::from_bytes` and
/// `p256::AffinePoint::from_encoded_point` accepting the SEC1 compact form
/// (tag byte 5, then an x-coordinate): when the x-coordinate lies on the
/// curve, returns the compressed encoding of a point with that same
/// x-coordinate, and `None` when it does not. Success and result are
/// deterministic functions of the buffer's bytes.
#[verifier::external_body]
pub(crate) fn compact_decode(buf: &Vec<u8>) -> (r: Option<Vec<u8>>)
    requires
        buf@.len() == 33,
    ensures
        r matches Some(c) ==> is_point(c@) && c@.len() == 33 && c@.subrange(1, 33)
            == buf@.subrange(1, 33) && c@ == compact_point(buf@),
        r is Some <==> compact_ok(buf@),
{
    let e = match p256::EncodedPoint::from_bytes(buf.as_slice()) {
        Ok(e) => e,
        Err(_) => return None,
    };
    let a = Option::<p256::AffinePoint>::from(p256::AffinePoint::from_encoded_point(&e))?;
    Some(a.to_encoded_point(true).as_bytes().to_vec())
}

/// Relies on `p256::Scalar::random`, which samples a scalar uniformly from
/// the operating system's secure generator and returns its canonical
/// encoding. Nothing is promised of the value itself: two calls may
/// differ. Any scalar commutes with any other under multiplication, and a
/// nonzero one maps curve points to curve points.
#[verifier::external_body]
pub(crate) fn scalar_random() -> (r: Vec<u8>)
    ensures
        is_scalar(r@),
        r@.len() == 32,
        commutes(r@),
        !scalar_zero(r@) ==> point_preserving(r@),
{
    let s = p256::Scalar::random(&mut rand::rngs::OsRng);
    s.to_bytes().to_vec()
}

/// Relies on `p256::Scalar::is_zero`.
#[verifier::external_body]
pub(crate) fn scalar_is_zero(s: &Vec<u8>) -> (r: bool)
    requires
        is_scalar(s@),
    ensures
        r == scalar_zero(s@),
{
    let arr: [u8; 32] = s.as_slice().try_into().expect("32 bytes");
    let sc = Option::<p256::Scalar>::from(p256::Scalar::from_repr(arr.into()))
        .expect("canonical scalar bytes");
    bool::from(sc.is_zero())
}

/// Relies on `p256::Scalar::invert`: for a nonzero scalar it returns the
/// multiplicative inverse, which is itself nonzero, and multiplying a
/// point by the scalar and then by this inverse (in either order) gives
/// the point back.
#[verifier::external_body]
pub(crate) fn scalar_invert(s: &Vec<u8>) -> (r: Vec<u8>)
    requires
        is_scalar(s@),
        !scalar_zero(s@),
    ensures
        r@ == scalar_inv(s@),
        good_scalar(r@),
        inverse_pair(s@, r@),
{
    let arr: [u8; 32] = s.as_slice().try_into().expect("32 bytes");
    let sc = Option::<p256::Scalar>::from(p256::Scalar::from_repr(arr.into()))
        .expect("canonical scalar bytes");
    let inv = Option::<p256::Scalar>::from(sc.invert()).expect("nonzero scalar");
    inv.to_bytes().to_vec()
}

/// Relies on `p256::Scalar::reduce_nonzero_bytes`: a 32-byte digest is
/// reduced deterministically to a scalar in `[1, n-1]`, so the result is
/// nonzero and has an inverse that undoes it.
#[verifier::external_body]
pub(crate) fn hash_to_scalar(d: &Vec<u8>) -> (r: Vec<u8>)
    requires
        d@.len() == 32,
    ensures
        r@ == hash_scalar(d@),
        invertible(r@),
{
    let arr: [u8; 32] = d.as_slice().try_into().expect("32 bytes");
    let sc = p256::Scalar::reduce_nonzero_bytes(&arr.into());
    sc.to_bytes().to_vec()
}

/// Relies on `p256::NistP256::hash_from_bytes` with `ExpandMsgXmd<Sha256>`,
/// the RFC 9380 hash-to-curve for P-256, under this crate's fixed
/// domain-separation tag. The mapping is a deterministic function of the
/// message; it fails, or yields an encoding other than the 33-byte
/// compressed form, only in cases that are not expected to occur.
#[verifier::external_body]
pub(crate) fn hash_to_curve(m: &Vec<u8>) -> (r: Option<Vec<u8>>)
    ensures
        r matches Some(b) ==> b@ == curve_hash(m@) && (b@.len() == 33 ==> is_point(b@)),
        r is Some <==> curve_hash_ok(m@),
{
    let p = match p256::NistP256::hash_from_bytes::<ExpandMsgXmd<sha2::Sha256>>(
        &[m.as_slice()],
        &[b"zk-cds-prototype"],
    ) {
        Ok(p) => p,
        Err(_) => return None,
    };
    Some(p.to_affine().to_encoded_point(true).as_bytes().to_vec())
}

/// Sample a uniformly random nonzero scalar, retrying the negligible zero
/// outcome a bounded number of times.
pub(crate) fn fresh_scalar() -> (r: Result<Vec<u8>, CdsError>)
    ensures
        r matches Ok(b) ==> good_scalar(b@),
        r matches Err(e) ==> e == CdsError::NonInvertibleScalar,
{
    let mut tries: usize = 0;
    while tries < 64
        invariant
            tries <= 64,
        decreases 64 - tries,
    {
        let s = scalar_random();
        if !scalar_is_zero(&s) {
            return Ok(s);
        }
        tries = tries + 1;
    }
    Err(CdsError::NonInvertibleScalar)
}

} // verus!
