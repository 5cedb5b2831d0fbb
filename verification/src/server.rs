//! The server side of the lookup: a long-lived secret scalar and a
//! bucket table built once from the enrollment, immutable afterwards.
//!
//! For each enrolled pair of phone number `p` and identifier `u`, the
//! table holds, under the bucket prefix of `p`, a row whose key is the
//! hash point of `p` blinded by the server secret, and whose value is the
//! encoded identifier point blinded first by the secret and then by the
//! scalar `p`'s digest reduces to. That exact order is what the client's
//! and the server's unblinding steps undo.

use vstd::prelude::*;

use crate::codec::{
    candidate, decode_user_id, decoded_id, encode_user_id, encoded_point, UserId,
};
use crate::group::{
    compact_ok, fresh_scalar, good_scalar, hash_to_curve, hash_to_scalar, inverse_pair,
    invertible, is_point, point_mul, point_valid, scalar_inv, scalar_invert, smul,
};
use crate::hashing::{
    phone_point, phone_prefix, phone_scalar, phone_to_bytes, prefix, query_ok, sha256,
};
use crate::table::{
    copy_rows, lemma_entries_at, lemma_entries_none, lemma_entries_nonempty_bucket,
    lemma_entries_push, lemma_entries_update, lemma_lookup_front, lemma_lookup_none,
    lemma_total_rows_push, lemma_total_rows_update, prefix_eq, rows_model, rows_with_front,
    spec_lookup, table_entries, total_rows, Bucket, Row,
};
use crate::{CdsError, Prefix};

verus! {

/// The enrollment as ghost data: each pair of phone number and
/// identifier bytes.
pub open spec fn user_models(users: Seq<(u64, UserId)>) -> Seq<(u64, Seq<u8>)> {
    users.map_values(|pr: (u64, UserId)| (pr.0, pr.1@))
}

/// The stored value is exactly the point the identifier encodes to,
/// blinded by the server secret and then by the phone number's hash
/// scalar.
pub open spec fn value_shape(v: Seq<u8>, u: Seq<u8>, ds: Seq<u8>, h: Seq<u8>) -> bool {
    &&& is_point(encoded_point(u))
    &&& encoded_point(u).len() == 33
    &&& decoded_id(encoded_point(u)) == u
    &&& v == smul(smul(encoded_point(u), ds), h)
}

/// The key `k` is the blinded hash point of some enrolled phone number.
pub open spec fn key_enrolled(k: Seq<u8>, ds: Seq<u8>, users: Seq<(u64, Seq<u8>)>) -> bool {
    exists|j: int|
        0 <= j < users.len() && k == smul(phone_point(#[trigger] users[j].0), ds) && is_point(
            phone_point(users[j].0),
        )
}

/// Every key anywhere in the table comes from an enrolled phone number.
spec fn table_sound(
    table: Seq<(Prefix, Bucket)>,
    ds: Seq<u8>,
    users: Seq<(u64, Seq<u8>)>,
) -> bool {
    forall|q: Seq<u8>, k: Seq<u8>|
        #[trigger] spec_lookup(table_entries(table, q), k) is Some ==> key_enrolled(k, ds, users)
}

/// Every bucket stands under the prefix of some enrolled phone number.
spec fn prefixes_sound(table: Seq<(Prefix, Bucket)>, users: Seq<(u64, Seq<u8>)>) -> bool {
    forall|bi: int|
        #![trigger table[bi]]
        0 <= bi < table.len() ==> exists|j: int|
            #![trigger users[j]]
            0 <= j < users.len() && table[bi].0@ == phone_prefix(users[j].0)
}

/// The table holds, under `p`'s bucket prefix and the key blinding `p`'s
/// hash point with `ds`, a value of the right shape for the identifier
/// bytes `u`.
spec fn table_has_row(
    table: Seq<(Prefix, Bucket)>,
    ds: Seq<u8>,
    p: u64,
    u: Seq<u8>,
) -> bool {
    &&& is_point(phone_point(p))
    &&& invertible(phone_scalar(p))
    &&& (spec_lookup(table_entries(table, phone_prefix(p)), smul(phone_point(p), ds))
        matches Some(v) && value_shape(v, u, ds, phone_scalar(p)))
}

/// No other enrolled phone number collides with slot `i` in both bucket
/// prefix and hash point; then slot `i`'s row is never shadowed.
pub open spec fn unique_slot(us: Seq<(u64, Seq<u8>)>, i: int) -> bool {
    forall|j: int|
        0 <= j < us.len() && j != i ==> !(phone_prefix(#[trigger] us[j].0) == phone_prefix(us[i].0)
            && phone_point(us[j].0) == phone_point(us[i].0))
}

/// A server in a contact-discovery service: a secret scalar, its inverse,
/// and the bucket table built once from the enrollment.
pub struct Server {
    d_s: Vec<u8>,
    d_s_inv: Vec<u8>,
    table: Vec<(Prefix, Bucket)>,
    users: Ghost<Seq<(u64, Seq<u8>)>>,
}

impl Server {
    #[verifier::type_invariant]
    spec fn type_inv(&self) -> bool {
        &&& good_scalar(self.d_s@)
        &&& good_scalar(self.d_s_inv@)
        &&& self.d_s_inv@ == scalar_inv(self.d_s@)
        &&& inverse_pair(self.d_s@, self.d_s_inv@)
        &&& table_sound(self.table@, self.d_s@, self.users@)
        &&& prefixes_sound(self.table@, self.users@)
    }

    /// The server is well formed: its secret is invertible, every table
    /// key stems from an enrolled number, and every bucket stands under
    /// an enrolled number's prefix. Holds of every server value ever
    /// constructed.
    pub closed spec fn wf(&self) -> bool {
        self.type_inv()
    }

    /// The number of rows across all buckets (ghost).
    pub closed spec fn row_count(&self) -> int {
        total_rows(self.table@)
    }

    /// The secret scalar's encoding (ghost).
    pub closed spec fn secret(&self) -> Seq<u8> {
        self.d_s@
    }

    /// The enrollment the table was built from (ghost).
    pub closed spec fn enrollment(&self) -> Seq<(u64, Seq<u8>)> {
        self.users@
    }

    /// The blinded rows stored under a bucket prefix (ghost).
    pub closed spec fn bucket_entries(&self, pre: Seq<u8>) -> Seq<(Seq<u8>, Seq<u8>)> {
        table_entries(self.table@, pre)
    }

    /// The table holds the row for phone number `p` and identifier bytes
    /// `u`, and `p`'s hash point and hash scalar behave.
    pub open spec fn has_row(&self, p: u64, u: Seq<u8>) -> bool {
        &&& is_point(phone_point(p))
        &&& invertible(phone_scalar(p))
        &&& (spec_lookup(self.bucket_entries(phone_prefix(p)), smul(phone_point(p), self.secret()))
            matches Some(v) && value_shape(v, u, self.secret(), phone_scalar(p)))
    }

    /// The server is well formed.
    pub proof fn lemma_wf(&self)
        requires
            self.wf(),
        ensures
            invertible(self.secret()),
    {
    }

    /// Every key a bucket lookup can find blinds the hash point of some
    /// enrolled phone number.
    pub proof fn lemma_key_origin(&self, pre: Seq<u8>, k: Seq<u8>)
        requires
            self.wf(),
            spec_lookup(self.bucket_entries(pre), k) is Some,
        ensures
            key_enrolled(k, self.secret(), self.enrollment()),
    {
    }

    /// A prefix that no enrolled phone number hashes to indexes no
    /// bucket: its entries are empty.
    pub proof fn lemma_unenrolled_prefix_empty(&self, pre: Seq<u8>)
        requires
            self.wf(),
            forall|j: int|
                0 <= j < self.enrollment().len() ==> phone_prefix(
                    (#[trigger] self.enrollment()[j]).0,
                ) != pre,
        ensures
            self.bucket_entries(pre).len() == 0,
    {
        if self.bucket_entries(pre).len() > 0 {
            let bi = lemma_entries_nonempty_bucket(self.table@, pre);
            assert(exists|j: int|
                #![trigger self.users@[j]]
                0 <= j < self.users@.len() && self.table@[bi].0@ == phone_prefix(
                    self.users@[j].0,
                ));
            let j = choose|j: int|
                0 <= j < self.users@.len() && self.table@[bi].0@ == phone_prefix(
                    self.users@[j].0,
                );
            assert(phone_prefix(self.enrollment()[j].0) == pre);
            assert(false);
        }
    }

    /// Build a server from an enrollment: sample a fresh secret from the
    /// operating system's secure generator (no caller-supplied source is
    /// taken), then blind every pair into its bucket row.
    ///
    /// On success the table holds one row per enrolled pair and nothing
    /// else, every bucket stands under an enrolled number's prefix (part
    /// of `wf`), and every pair whose bucket prefix and hash point are
    /// not both shared by another pair has its row in place. Errors are
    /// fatal configuration failures, not expected outcomes, and each
    /// points at an enrolled entry that caused it; only the zero-scalar
    /// resampling gives up without one.
    pub fn new(users: &Vec<(u64, UserId)>) -> (r: Result<Server, CdsError>)
        ensures
            r matches Ok(s) ==> ({
                &&& s.wf()
                &&& s.enrollment() == user_models(users@)
                &&& s.row_count() == users@.len()
                &&& forall|i: int|
                    0 <= i < users@.len() && unique_slot(user_models(users@), i) ==> s.has_row(
                        user_models(users@)[i].0,
                        user_models(users@)[i].1,
                    )
            }),
            r matches Err(e) ==> ({
                &&& (e == CdsError::NonInvertibleScalar || e == CdsError::HashToCurveFailure || e
                    == CdsError::PointEncodingFailure)
                &&& (e == CdsError::HashToCurveFailure ==> exists|i: int|
                    0 <= i < users@.len() && !query_ok((#[trigger] users@[i]).0))
                &&& (e == CdsError::PointEncodingFailure ==> exists|i: int|
                    0 <= i < users@.len() && (forall|j: u64|
                        j < u64::MAX ==> !compact_ok(candidate((#[trigger] users@[i]).1@, j))))
            }),
    {
        let d_s = match fresh_scalar() {
            Ok(s) => s,
            Err(e) => { return Err(e) },
        };
        let d_s_inv = scalar_invert(&d_s);
        let ghost us = user_models(users@);
        let mut table: Vec<(Prefix, Bucket)> = Vec::new();
        proof {
            assert(table_entries(table@, Seq::<u8>::empty()) =~= Seq::<(Seq<u8>, Seq<u8>)>::empty());
            assert(total_rows(table@) == 0);
        }
        let n = users.len();
        let mut idx: usize = 0;
        while idx < n
            invariant
                n == users@.len(),
                idx <= n,
                us == user_models(users@),
                us.len() == users@.len(),
                good_scalar(d_s@),
                good_scalar(d_s_inv@),
                d_s_inv@ == scalar_inv(d_s@),
                inverse_pair(d_s@, d_s_inv@),
                table_sound(table@, d_s@, us),
                prefixes_sound(table@, us),
                total_rows(table@) == idx,
                forall|i: int|
                    0 <= i < idx && unique_slot(us, i) ==> table_has_row(
                        table@,
                        d_s@,
                        #[trigger] us[i].0,
                        us[i].1,
                    ),
            decreases n - idx,
        {
            let p = users[idx].0;
            let uid = &users[idx].1;
            proof {
                assert(us[idx as int] == (p, uid@));
            }
            let pb = phone_to_bytes(p);
            let h = sha256(&pb);
            let hp = match hash_to_curve(&pb) {
                Some(b) => b,
                None => {
                    proof {
                        assert(!query_ok((users@[idx as int]).0));
                    }
                    return Err(CdsError::HashToCurveFailure);
                },
            };
            if hp.len() != 33 {
                proof {
                    assert(!query_ok((users@[idx as int]).0));
                }
                return Err(CdsError::HashToCurveFailure);
            }
            let key = point_mul(&hp, &d_s);
            let e = match encode_user_id(uid) {
                Ok(e) => e,
                Err(err) => {
                    proof {
                        assert(forall|j: u64|
                            j < u64::MAX ==> !compact_ok(
                                candidate((users@[idx as int]).1@, j),
                            ));
                    }
                    return Err(err);
                },
            };
            let hs = hash_to_scalar(&h);
            let v1 = point_mul(&e, &d_s);
            let value = point_mul(&v1, &hs);
            let pre = prefix(&h);
            let ghost old_table = table@;
            let ghost key_v = key@;
            let ghost value_v = value@;
            table_upsert(&mut table, pre, key, value);
            proof {
                assert(pre@ == phone_prefix(p));
                assert(hp@ == phone_point(p));
                assert(key_v == smul(phone_point(p), d_s@));
                assert(hs@ == phone_scalar(p));
                assert(e@ == encoded_point(uid@));
                assert(value_v == smul(smul(encoded_point(uid@), d_s@), phone_scalar(p)));
                assert(value_shape(value_v, uid@, d_s@, phone_scalar(p)));
                // The new slot's row is in place.
                assert(table_has_row(table@, d_s@, p, uid@));
                // One row was added, under an enrolled prefix.
                assert(total_rows(table@) == idx + 1);
                assert forall|bi: int|
                    #![trigger table@[bi]]
                    0 <= bi < table@.len() implies exists|j: int|
                    #![trigger us[j]]
                    0 <= j < us.len() && table@[bi].0@ == phone_prefix(us[j].0) by {
                    if table@[bi].0@ == pre@ {
                        assert(us[idx as int].0 == p);
                        assert(table@[bi].0@ == phone_prefix(us[idx as int].0));
                    } else {
                        let bj = choose|bj: int|
                            0 <= bj < old_table.len() && table@[bi].0@ == old_table[bj].0@;
                        assert(0 <= bj < old_table.len());
                        assert(exists|j: int|
                            #![trigger us[j]]
                            0 <= j < us.len() && old_table[bj].0@ == phone_prefix(us[j].0));
                    }
                }
                assert(prefixes_sound(table@, us));
                // Earlier rows survive: their keys differ from the new one
                // whenever their slot is unique.
                assert forall|i: int|
                    0 <= i < idx + 1 && unique_slot(us, i) implies table_has_row(
                    table@,
                    d_s@,
                    us[i].0,
                    us[i].1,
                ) by {
                    if i < idx {
                        let pi = us[i].0;
                        let ki = smul(phone_point(pi), d_s@);
                        if phone_prefix(pi) == pre@ {
                            // Same bucket: the unique slot promises a
                            // different hash point, so the keys differ,
                            // because blinding by the secret is injective.
                            assert(!(phone_prefix(us[idx as int].0) == phone_prefix(pi)
                                && phone_point(us[idx as int].0) == phone_point(pi)));
                            assert(phone_point(pi) != phone_point(p));
                            assert(is_point(phone_point(pi)));
                            if ki == key_v {
                                assert(smul(smul(phone_point(pi), d_s@), d_s_inv@) == phone_point(
                                    pi,
                                ));
                                assert(smul(smul(phone_point(p), d_s@), d_s_inv@) == phone_point(
                                    p,
                                ));
                                assert(false);
                            }
                            assert(spec_lookup(table_entries(table@, phone_prefix(pi)), ki)
                                == spec_lookup(table_entries(old_table, phone_prefix(pi)), ki));
                        } else {
                            assert(table_entries(table@, phone_prefix(pi)) == table_entries(
                                old_table,
                                phone_prefix(pi),
                            ));
                        }
                    }
                }
                // Every key still stems from the enrollment.
                assert forall|q: Seq<u8>, k: Seq<u8>|
                    #[trigger] spec_lookup(table_entries(table@, q), k) is Some implies key_enrolled(
                    k,
                    d_s@,
                    us,
                ) by {
                    if q == pre@ {
                        if k == key_v {
                            assert(us[idx as int].0 == p);
                            assert(key_enrolled(k, d_s@, us));
                        } else {
                            assert(spec_lookup(table_entries(table@, q), k) == spec_lookup(
                                table_entries(old_table, q),
                                k,
                            ));
                        }
                    } else {
                        assert(table_entries(table@, q) == table_entries(old_table, q));
                    }
                }
            }
            idx = idx + 1;
        }
        let s = Server { d_s, d_s_inv, table, users: Ghost(us) };
        proof {
            assert forall|i: int|
                0 <= i < users@.len() && unique_slot(user_models(users@), i) implies s.has_row(
                user_models(users@)[i].0,
                user_models(users@)[i].1,
            ) by {
                assert(table_has_row(s.table@, s.d_s@, us[i].0, us[i].1));
            }
        }
        Ok(s)
    }

    /// The bucket of blinded rows stored under a prefix; empty when the
    /// prefix indexes no bucket.
    pub fn find_bucket(&self, prefix: Prefix) -> (r: Bucket)
        ensures
            rows_model(r.rows@) == self.bucket_entries(prefix@),
    {
        let n = self.table.len();
        let mut i: usize = 0;
        while i < n
            invariant
                n == self.table@.len(),
                i <= n,
                forall|j: int| 0 <= j < i ==> self.table@[j].0@ != prefix@,
            decreases n - i,
        {
            if prefix_eq(&self.table[i].0, &prefix) {
                proof {
                    lemma_entries_at(self.table@, prefix@, i as int);
                }
                return Bucket { rows: copy_rows(&self.table[i].1.rows) };
            }
            i = i + 1;
        }
        proof {
            lemma_entries_none(self.table@, prefix@);
            assert(rows_model(Seq::<Row>::empty()) =~= Seq::<(Seq<u8>, Seq<u8>)>::empty());
        }
        Bucket { rows: Vec::new() }
    }

    /// Blind a client's query point with the server secret, producing the
    /// double-blinded point. Bytes that are not a curve point are
    /// rejected as malformed.
    pub fn blind_phone_number(&self, c_p: &Vec<u8>) -> (r: Result<Vec<u8>, CdsError>)
        ensures
            is_point(c_p@) ==> (r matches Ok(b) && b@ == smul(c_p@, self.secret()) && is_point(
                b@,
            )),
            !is_point(c_p@) ==> r == Err::<Vec<u8>, CdsError>(CdsError::MalformedPoint),
    {
        if !point_valid(c_p) {
            return Err(CdsError::MalformedPoint);
        }
        proof {
            use_type_invariant(&*self);
        }
        Ok(point_mul(c_p, &self.d_s))
    }

    /// Remove the server's blinding layer from a matched identifier point
    /// and read the identifier out of it. Bytes that are not a curve
    /// point are rejected as malformed; any curve point yields the 16
    /// bytes at positions 1..17 of the unblinded encoding, unvalidated.
    pub fn unblind_user_id(&self, s_u: &Vec<u8>) -> (r: Result<UserId, CdsError>)
        ensures
            is_point(s_u@) ==> (r matches Ok(u) && u@ == decoded_id(
                smul(s_u@, scalar_inv(self.secret())),
            )),
            !is_point(s_u@) ==> r == Err::<UserId, CdsError>(CdsError::MalformedPoint),
    {
        if !point_valid(s_u) {
            return Err(CdsError::MalformedPoint);
        }
        proof {
            use_type_invariant(&*self);
        }
        let m = point_mul(s_u, &self.d_s_inv);
        match decode_user_id(&m) {
            Some(u) => Ok(u),
            None => vstd::pervasive::unreached(),
        }
    }
}

/// Put the row `(key, value)` into the bucket for `pre`, in front of any
/// older rows, creating the bucket if the prefix is new. Only the lookup
/// of `key` under `pre` changes; exactly one row is added, and every
/// bucket prefix afterwards is `pre` or one that was already there.
fn table_upsert(table: &mut Vec<(Prefix, Bucket)>, pre: Prefix, key: Vec<u8>, value: Vec<u8>)
    ensures
        spec_lookup(table_entries(final(table)@, pre@), key@) == Some(value@),
        forall|k: Seq<u8>|
            k != key@ ==> spec_lookup(table_entries(final(table)@, pre@), k) == spec_lookup(
                table_entries(old(table)@, pre@),
                k,
            ),
        forall|q: Seq<u8>|
            q != pre@ ==> table_entries(final(table)@, q) == table_entries(old(table)@, q),
        total_rows(final(table)@) == total_rows(old(table)@) + 1,
        forall|bi: int|
            0 <= bi < final(table)@.len() ==> (#[trigger] final(table)@[bi].0@) == pre@ || (
            exists|bj: int|
                #![trigger old(table)@[bj]]
                0 <= bj < old(table)@.len() && final(table)@[bi].0@ == old(table)@[bj].0@),
{
    let n = table.len();
    let mut i: usize = 0;
    while i < n
        invariant
            n == table@.len(),
            i <= n,
            table@ == old(table)@,
            forall|j: int| 0 <= j < i ==> table@[j].0@ != pre@,
        decreases n - i,
    {
        if prefix_eq(&table[i].0, &pre) {
            let p0 = table[i].0;
            let ghost old_rows = table@[i as int].1.rows@;
            let new_rows = rows_with_front(&table[i].1.rows, &key, &value);
            let nb = Bucket { rows: new_rows };
            let ghost old_table = table@;
            let ghost nb_v = nb;
            table.set(i, (p0, nb));
            proof {
                assert(table@ == old_table.update(i as int, (old_table[i as int].0, nb_v)));
                lemma_entries_at(old_table, pre@, i as int);
                lemma_entries_update(old_table, i as int, nb_v, pre@);
                assert(table_entries(table@, pre@) == rows_model(old_rows).insert(
                    0,
                    (key@, value@),
                ));
                lemma_lookup_front(rows_model(old_rows), key@, value@, key@);
                assert forall|k: Seq<u8>| k != key@ implies spec_lookup(
                    table_entries(table@, pre@),
                    k,
                ) == spec_lookup(table_entries(old_table, pre@), k) by {
                    lemma_lookup_front(rows_model(old_rows), key@, value@, k);
                }
                assert forall|q: Seq<u8>| q != pre@ implies table_entries(table@, q)
                    == table_entries(old_table, q) by {
                    lemma_entries_update(old_table, i as int, nb_v, q);
                }
                lemma_total_rows_update(old_table, i as int, nb_v);
                assert(rows_model(nb_v.rows@).len() == rows_model(old_rows).len() + 1);
                assert(nb_v.rows@.len() == old_rows.len() + 1);
                assert forall|bi: int| 0 <= bi < table@.len() implies (
                #[trigger] table@[bi].0@) == pre@ || (exists|bj: int|
                    #![trigger old_table[bj]]
                    0 <= bj < old_table.len() && table@[bi].0@ == old_table[bj].0@) by {
                    assert(table@[bi].0@ == old_table[bi].0@);
                }
            }
            return;
        }
        i = i + 1;
    }
    let mut rows: Vec<Row> = Vec::new();
    rows.push(Row { key, value });
    let b = Bucket { rows };
    let ghost entry = (pre, b);
    let ghost old_table = table@;
    table.push((pre, b));
    proof {
        assert(table@ == old_table.push(entry));
        assert(rows_model(entry.1.rows@) =~= seq![(key@, value@)]);
        lemma_entries_push(old_table, entry, pre@);
        assert(table_entries(table@, pre@) == seq![(key@, value@)]);
        assert(seq![(key@, value@)].drop_first() =~= Seq::<(Seq<u8>, Seq<u8>)>::empty());
        assert(spec_lookup(table_entries(table@, pre@), key@) == Some(value@));
        lemma_entries_none(old_table, pre@);
        assert forall|k: Seq<u8>| k != key@ implies spec_lookup(table_entries(table@, pre@), k)
            == spec_lookup(table_entries(old_table, pre@), k) by {
            assert(spec_lookup(table_entries(table@, pre@), k) is None);
            assert(spec_lookup(table_entries(old_table, pre@), k) is None);
        }
        assert forall|q: Seq<u8>| q != pre@ implies table_entries(table@, q) == table_entries(
            old_table,
            q,
        ) by {
            lemma_entries_push(old_table, entry, q);
        }
        lemma_total_rows_push(old_table, entry);
        assert(entry.1.rows@.len() == 1);
        assert forall|bi: int| 0 <= bi < table@.len() implies (#[trigger] table@[bi].0@) == pre@
            || (exists|bj: int|
            #![trigger old_table[bj]]
            0 <= bj < old_table.len() && table@[bi].0@ == old_table[bj].0@) by {
            if bi < old_table.len() {
                assert(table@[bi] == old_table[bi]);
            } else {
                assert(table@[bi] == entry);
            }
        }
    }
}

} // verus!
