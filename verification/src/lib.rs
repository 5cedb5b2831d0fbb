//! Core of a privacy-preserving contact-discovery lookup.
//!
//! A server holds an enrollment of phone numbers and 128-bit user
//! identifiers. A client can learn whether a phone number is enrolled, and
//! if so its identifier, through a double-blind Diffie-Hellman style
//! exchange: the server only sees a blinded query point (plus a coarse
//! 8-byte hash prefix), and the client only sees blinded rows.
//!
//! Points of the P-256 curve travel through this crate as their 33-byte
//! SEC1 compressed encodings, and scalars as their 32-byte big-endian
//! encodings; the curve arithmetic itself is delegated to the `p256` crate
//! behind a small set of trusted wrappers in `group`.

use vstd::prelude::*;

mod client;
mod codec;
mod group;
mod hashing;
mod laws;
mod server;
mod table;

pub use client::Client;
pub use codec::{
    bytes_eq, candidate, counter_bytes, decode_user_id, decoded_id, encode_user_id, encoded_point,
    least_counter, lemma_least_counter_unique, UserId,
};
pub use group::{
    commutes, compact_ok, compact_point, curve_hash, curve_hash_ok, good_scalar, hash_scalar,
    inverse_pair, invertible, is_point, is_scalar, point_preserving, scalar_inv, scalar_zero, smul,
};
pub use hashing::{
    digest256, phone_bytes, phone_hash, phone_point, phone_prefix, phone_scalar, prefix, query_ok,
    valid_query,
};
pub use laws::{
    blinded_query, double_blinded, lemma_blind_unblind, lemma_blind_unblind_client,
    lemma_negative_match, lemma_prefix_collision_safety, lemma_round_trip, point_enrolled,
    unblinded_key,
};
pub use server::{key_enrolled, unique_slot, user_models, value_shape, Server};
pub use table::{rows_model, spec_lookup, table_entries, total_rows, Bucket, Row};

verus! {

/// An 8-byte bucket index: the leading bytes of a SHA-256 hash.
pub type Prefix = [u8; 8];

/// Failures of the protocol core.
///
/// A missing match is not an error: lookups report it as `None`.
#[derive(Debug, Clone, Copy, PartialEq, Eq, Structural)]
pub enum CdsError {
    /// Supplied bytes are not the compressed encoding of a curve point.
    MalformedPoint,
    /// The random sampler kept returning the zero scalar, which has no
    /// multiplicative inverse. The probability of this is negligible.
    NonInvertibleScalar,
    /// Hashing a byte string onto the curve did not yield a usable point.
    /// This is a fatal configuration error, not an expected outcome.
    HashToCurveFailure,
    /// No counter value embedded an identifier into a curve point.
    PointEncodingFailure,
}

} // verus!
