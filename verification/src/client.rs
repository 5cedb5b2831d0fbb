//! The client side of the lookup: an ephemeral secret scalar, fresh per
//! client, used to blind one query and to unblind the server's answer.

use vstd::prelude::*;

use crate::group::{
    fresh_scalar, good_scalar, hash_to_curve, hash_to_scalar, inverse_pair, invertible, is_point,
    point_mul, point_valid, scalar_inv, scalar_invert, smul,
};
use crate::hashing::{phone_point, phone_prefix, phone_scalar, phone_to_bytes, prefix, query_ok, sha256};
use crate::table::{find_row, rows_model, spec_lookup, Bucket};
use crate::{CdsError, Prefix};

verus! {

/// A client in a contact-discovery service: one ephemeral secret scalar
/// and its inverse. The secret must stay fixed between building a
/// request and matching its answer, so one client serves one query at a
/// time.
pub struct Client {
    d_c: Vec<u8>,
    d_c_inv: Vec<u8>,
}

impl Client {
    #[verifier::type_invariant]
    spec fn type_inv(&self) -> bool {
        &&& good_scalar(self.d_c@)
        &&& good_scalar(self.d_c_inv@)
        &&& self.d_c_inv@ == scalar_inv(self.d_c@)
        &&& inverse_pair(self.d_c@, self.d_c_inv@)
    }

    /// The client is well formed: its secret is invertible. Holds of
    /// every client value ever constructed.
    pub closed spec fn wf(&self) -> bool {
        self.type_inv()
    }

    /// The secret scalar's encoding (ghost).
    pub closed spec fn secret(&self) -> Seq<u8> {
        self.d_c@
    }

    /// The client is well formed.
    pub proof fn lemma_wf(&self)
        requires
            self.wf(),
        ensures
            invertible(self.secret()),
    {
    }

    /// Create a client with a fresh random secret, drawn from the
    /// operating system's secure generator (no caller-supplied source is
    /// taken). The secret of a returned client is invertible, so the
    /// protocol laws apply to it; it never changes, since no method
    /// mutates a client.
    pub fn new() -> (r: Result<Client, CdsError>)
        ensures
            r matches Ok(c) ==> c.wf(),
            r matches Err(e) ==> e == CdsError::NonInvertibleScalar,
    {
        let d_c = match fresh_scalar() {
            Ok(s) => s,
            Err(e) => { return Err(e) },
        };
        let d_c_inv = scalar_invert(&d_c);
        let c = Client { d_c, d_c_inv };
        proof {
            assert(c.wf());
        }
        Ok(c)
    }

    /// Build the query for a phone number: its bucket prefix and its
    /// hash point blinded by the client secret. This pair is all the
    /// server observes of the query.
    pub fn request_phone_number(&self, p: u64) -> (r: Result<(Prefix, Vec<u8>), CdsError>)
        ensures
            query_ok(p) ==> (r matches Ok(pq) && pq.0@ == phone_prefix(p) && pq.1@ == smul(
                phone_point(p),
                self.secret(),
            ) && is_point(phone_point(p)) && is_point(pq.1@)),
            !query_ok(p) ==> r == Err::<(Prefix, Vec<u8>), CdsError>(CdsError::HashToCurveFailure),
    {
        let pb = phone_to_bytes(p);
        let h = sha256(&pb);
        let pre = prefix(&h);
        let hp = match hash_to_curve(&pb) {
            Some(b) => b,
            None => { return Err(CdsError::HashToCurveFailure) },
        };
        if hp.len() != 33 {
            return Err(CdsError::HashToCurveFailure);
        }
        proof {
            use_type_invariant(&*self);
        }
        let q = point_mul(&hp, &self.d_c);
        Ok((pre, q))
    }

    /// Match the server's answer against a bucket.
    ///
    /// Removes the client's blinding layer from the double-blinded query
    /// point, looks the result up as a key among the bucket's rows, and
    /// on a hit removes the phone number's hash-scalar layer from the
    /// stored value, leaving only the server's layer for the server to
    /// finish. A miss is the expected outcome for an unregistered
    /// number and is reported as `None`, distinct from malformed bytes.
    pub fn find_user_id(&self, sc_p: &Vec<u8>, bucket: &Bucket, p: u64) -> (r: Result<
        Option<Vec<u8>>,
        CdsError,
    >)
        ensures
            !is_point(sc_p@) ==> r == Err::<Option<Vec<u8>>, CdsError>(CdsError::MalformedPoint),
            is_point(sc_p@) ==> (match spec_lookup(
                rows_model(bucket.rows@),
                smul(sc_p@, scalar_inv(self.secret())),
            ) {
                Option::None => (r matches Ok(o) && o is None),
                Option::Some(v) => {
                    if is_point(v) {
                        r matches Ok(o) && (o matches Some(m) && m@ == smul(
                            v,
                            scalar_inv(phone_scalar(p)),
                        ) && is_point(m@))
                    } else {
                        r == Err::<Option<Vec<u8>>, CdsError>(CdsError::MalformedPoint)
                    }
                },
            }),
    {
        if !point_valid(sc_p) {
            return Err(CdsError::MalformedPoint);
        }
        proof {
            use_type_invariant(&*self);
        }
        let s_p = point_mul(sc_p, &self.d_c_inv);
        match find_row(&bucket.rows, &s_p) {
            None => Ok(None),
            Some(i) => {
                let val = &bucket.rows[i].value;
                proof {
                    assert(rows_model(bucket.rows@)[i as int].1 == val@);
                }
                if !point_valid(val) {
                    return Err(CdsError::MalformedPoint);
                }
                let pb = phone_to_bytes(p);
                let h = sha256(&pb);
                let hs = hash_to_scalar(&h);
                let hi = scalar_invert(&hs);
                let m = point_mul(val, &hi);
                Ok(Some(m))
            },
        }
    }
}

} // verus!
