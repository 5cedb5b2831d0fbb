//! The protocol's guarantees, stated over the specification-level images
//! of the exchanged values and proved from the contracts of the server,
//! the client and the group algebra.

use vstd::prelude::*;

use crate::client::Client;
use crate::codec::{decoded_id, encoded_point};
use crate::group::{is_point, scalar_inv, smul};
use crate::hashing::{phone_point, phone_prefix, phone_scalar, valid_query};
use crate::server::{key_enrolled, value_shape, Server};
use crate::table::spec_lookup;

verus! {

/// The query point the client sends: the phone number's hash point
/// blinded by the client secret.
pub open spec fn blinded_query(c: &Client, p: u64) -> Seq<u8> {
    smul(phone_point(p), c.secret())
}

/// The double-blinded point the server returns for that query.
pub open spec fn double_blinded(s: &Server, c: &Client, p: u64) -> Seq<u8> {
    smul(blinded_query(c, p), s.secret())
}

/// The key the client looks up after removing its own blinding layer
/// from the double-blinded point.
pub open spec fn unblinded_key(s: &Server, c: &Client, p: u64) -> Seq<u8> {
    smul(double_blinded(s, c, p), scalar_inv(c.secret()))
}

/// Some enrolled phone number shares `p`'s hash point.
pub open spec fn point_enrolled(s: &Server, p: u64) -> bool {
    exists|j: int|
        0 <= j < s.enrollment().len() && phone_point(#[trigger] s.enrollment()[j].0) == phone_point(
            p,
        )
}

/// A full run for an enrolled phone number recovers its identifier.
///
/// For any server and client, and any phone number `p` whose row for the
/// identifier bytes `u` stands in the server's table: the key the client
/// derives from the double-blinded answer equals the row's key, the
/// bucket lookup therefore finds the row's value, and removing first the
/// hash-scalar layer and then the server's layer uncovers exactly `u`.
pub proof fn lemma_round_trip(s: &Server, c: &Client, p: u64, u: Seq<u8>)
    requires
        s.wf(),
        c.wf(),
        s.has_row(p, u),
    ensures
        unblinded_key(s, c, p) == smul(phone_point(p), s.secret()),
        match spec_lookup(s.bucket_entries(phone_prefix(p)), unblinded_key(s, c, p)) {
            Option::Some(v) => is_point(v) && decoded_id(
                smul(smul(v, scalar_inv(phone_scalar(p))), scalar_inv(s.secret())),
            ) == u,
            Option::None => false,
        },
{
    s.lemma_wf();
    c.lemma_wf();
    let pp = phone_point(p);
    let ds = s.secret();
    let dc = c.secret();
    let dsi = scalar_inv(ds);
    let dci = scalar_inv(dc);
    let h = phone_scalar(p);
    assert(is_point(pp));
    assert(is_point(smul(pp, dc)));
    // Blinding by the two secrets commutes.
    assert(smul(smul(pp, dc), ds) == smul(smul(pp, ds), dc));
    let kk = smul(pp, ds);
    assert(is_point(kk));
    // The client's layer comes off, leaving the row key.
    assert(smul(smul(kk, dc), dci) == kk);
    assert(unblinded_key(s, c, p) == kk);
    match spec_lookup(s.bucket_entries(phone_prefix(p)), kk) {
        Option::Some(v) => {
            assert(value_shape(v, u, ds, h));
            let e = encoded_point(u);
            assert(is_point(e));
            assert(is_point(smul(e, ds)));
            assert(is_point(v));
            // The hash-scalar layer comes off.
            assert(smul(smul(smul(e, ds), h), scalar_inv(h)) == smul(e, ds));
            // The server's layer comes off, uncovering the encoded point.
            assert(smul(smul(e, ds), dsi) == e);
            assert(decoded_id(e) == u);
        },
        Option::None => {
            assert(false);
        },
    }
}

/// A query for a phone number no enrolled number shares a hash point
/// with finds nothing: the lookup misses, so no identifier, right or
/// wrong, is ever returned for it.
pub proof fn lemma_negative_match(s: &Server, c: &Client, p: u64)
    requires
        s.wf(),
        c.wf(),
        valid_query(p),
        !point_enrolled(s, p),
    ensures
        spec_lookup(s.bucket_entries(phone_prefix(p)), unblinded_key(s, c, p)) is None,
{
    s.lemma_wf();
    c.lemma_wf();
    let pp = phone_point(p);
    let ds = s.secret();
    let dc = c.secret();
    let dci = scalar_inv(dc);
    let dsi = scalar_inv(ds);
    assert(is_point(pp));
    assert(is_point(smul(pp, dc)));
    assert(smul(smul(pp, dc), ds) == smul(smul(pp, ds), dc));
    let kk = smul(pp, ds);
    assert(is_point(kk));
    assert(smul(smul(kk, dc), dci) == kk);
    assert(unblinded_key(s, c, p) == kk);
    if spec_lookup(s.bucket_entries(phone_prefix(p)), kk) is Some {
        s.lemma_key_origin(phone_prefix(p), kk);
        let j = choose|j: int|
            0 <= j < s.enrollment().len() && kk == smul(
                phone_point(#[trigger] s.enrollment()[j].0),
                ds,
            ) && is_point(phone_point(s.enrollment()[j].0));
        // Blinding by the secret is injective, so the enrolled number
        // would share p's hash point.
        assert(smul(smul(phone_point(s.enrollment()[j].0), ds), dsi) == phone_point(
            s.enrollment()[j].0,
        ));
        assert(smul(smul(pp, ds), dsi) == pp);
        assert(phone_point(s.enrollment()[j].0) == pp);
        assert(false);
    }
}

/// Two distinct enrolled phone numbers may share a bucket prefix; each
/// still resolves to its own identifier, and neither lookup can return
/// the other's.
pub proof fn lemma_prefix_collision_safety(
    s: &Server,
    c: &Client,
    p1: u64,
    p2: u64,
    u1: Seq<u8>,
    u2: Seq<u8>,
)
    requires
        s.wf(),
        c.wf(),
        p1 != p2,
        phone_prefix(p1) == phone_prefix(p2),
        s.has_row(p1, u1),
        s.has_row(p2, u2),
    ensures
        match spec_lookup(s.bucket_entries(phone_prefix(p1)), unblinded_key(s, c, p1)) {
            Option::Some(v) => decoded_id(
                smul(smul(v, scalar_inv(phone_scalar(p1))), scalar_inv(s.secret())),
            ) == u1,
            Option::None => false,
        },
        match spec_lookup(s.bucket_entries(phone_prefix(p2)), unblinded_key(s, c, p2)) {
            Option::Some(v) => decoded_id(
                smul(smul(v, scalar_inv(phone_scalar(p2))), scalar_inv(s.secret())),
            ) == u2,
            Option::None => false,
        },
{
    lemma_round_trip(s, c, p1, u1);
    lemma_round_trip(s, c, p2, u2);
}

/// Blinding a point by the server secret and unblinding by its inverse
/// gives the point back, bit for bit, and the two layers can come off in
/// either order.
pub proof fn lemma_blind_unblind(s: &Server)
    requires
        s.wf(),
    ensures
        forall|pt: Seq<u8>|
            is_point(pt) ==> #[trigger] smul(smul(pt, s.secret()), scalar_inv(s.secret())) == pt
                && smul(smul(pt, scalar_inv(s.secret())), s.secret()) == pt,
{
    s.lemma_wf();
}

/// The client's blinding layer is likewise undone exactly by its
/// inverse.
pub proof fn lemma_blind_unblind_client(c: &Client)
    requires
        c.wf(),
    ensures
        forall|pt: Seq<u8>|
            is_point(pt) ==> #[trigger] smul(smul(pt, c.secret()), scalar_inv(c.secret())) == pt
                && smul(smul(pt, scalar_inv(c.secret())), c.secret()) == pt,
{
    c.lemma_wf();
}

} // verus!
