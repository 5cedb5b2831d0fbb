//! Hashing of phone numbers: the SHA-256 digest, the 8-byte bucket
//! prefix cut from it, the scalar it reduces to, and the curve point the
//! number hashes to. All of these are deterministic, so the client and
//! the server always derive the same values from the same number.

use vstd::prelude::*;

use sha2::Digest;

use crate::group::{curve_hash, curve_hash_ok, hash_scalar, is_point};
use crate::Prefix;

verus! {

/// The SHA-256 digest of the byte string `m`.
pub uninterp spec fn digest256(m: Seq<u8>) -> Seq<u8>;

/// Relies on `sha2::Sha256`: the 32-byte digest is a deterministic
/// function of the input bytes.
#[verifier::external_body]
pub(crate) fn sha256(m: &Vec<u8>) -> (r: Vec<u8>)
    ensures
        r@ == digest256(m@),
        r@.len() == 32,
{
    let d = sha2::Sha256::new().chain_update(m.as_slice()).finalize();
    d.to_vec()
}

/// The big-endian bytes of a phone number.
pub open spec fn phone_bytes(p: u64) -> Seq<u8> {
    seq![
        (p >> 56) as u8,
        (p >> 48) as u8,
        (p >> 40) as u8,
        (p >> 32) as u8,
        (p >> 24) as u8,
        (p >> 16) as u8,
        (p >> 8) as u8,
        p as u8,
    ]
}

/// The SHA-256 digest of a phone number's big-endian bytes.
pub open spec fn phone_hash(p: u64) -> Seq<u8> {
    digest256(phone_bytes(p))
}

/// The 8-byte bucket prefix of a phone number: the leading bytes of its
/// digest.
pub open spec fn phone_prefix(p: u64) -> Seq<u8> {
    phone_hash(p).subrange(0, 8)
}

/// The curve point a phone number hashes to.
pub open spec fn phone_point(p: u64) -> Seq<u8> {
    curve_hash(phone_bytes(p))
}

/// The nonzero scalar a phone number's digest reduces to.
pub open spec fn phone_scalar(p: u64) -> Seq<u8> {
    hash_scalar(phone_hash(p))
}

/// Whether hashing this phone number onto the curve succeeds with a
/// compressed point encoding. This holds for every input that can occur
/// in practice.
pub open spec fn query_ok(p: u64) -> bool {
    curve_hash_ok(phone_bytes(p)) && curve_hash(phone_bytes(p)).len() == 33
}

/// A phone number whose hash onto the curve succeeds and is a curve
/// point.
pub open spec fn valid_query(p: u64) -> bool {
    query_ok(p) && is_point(phone_point(p))
}

/// The big-endian bytes of a phone number, as a vector.
pub fn phone_to_bytes(p: u64) -> (r: Vec<u8>)
    ensures
        r@ == phone_bytes(p),
{
    let mut r: Vec<u8> = Vec::new();
    r.push((p >> 56) as u8);
    r.push((p >> 48) as u8);
    r.push((p >> 40) as u8);
    r.push((p >> 32) as u8);
    r.push((p >> 24) as u8);
    r.push((p >> 16) as u8);
    r.push((p >> 8) as u8);
    r.push(p as u8);
    proof {
        assert(r@ =~= phone_bytes(p));
    }
    r
}

/// The 8-byte prefix of a hash.
pub fn prefix(b: &Vec<u8>) -> (r: Prefix)
    requires
        b@.len() >= 8,
    ensures
        r@ == b@.subrange(0, 8),
{
    let r: Prefix = [b[0], b[1], b[2], b[3], b[4], b[5], b[6], b[7]];
    proof {
        assert(r@ =~= b@.subrange(0, 8));
    }
    r
}

} // verus!
