//! Embedding of 128-bit user identifiers into curve points.
//!
//! An identifier is placed in bytes 1..17 of a candidate SEC1 compact
//! encoding (tag byte, 16 identifier bytes, 16 counter bytes) and the
//! counter is incremented until the candidate's x-coordinate lies on the
//! curve. Decoding just reads bytes 1..17 of a compressed encoding back;
//! it never validates, so a point that was not produced by `encode_user_id`
//! decodes to arbitrary bytes, as the construction intends.

use vstd::prelude::*;

use crate::group::{compact_decode, compact_ok, compact_point, is_point};
use crate::CdsError;

verus! {

/// An opaque 128-bit identifier associated with a phone number.
#[derive(Debug)]
pub struct UserId {
    bytes: Vec<u8>,
}

impl View for UserId {
    type V = Seq<u8>;

    closed spec fn view(&self) -> Seq<u8> {
        self.bytes@
    }
}

impl UserId {
    #[verifier::type_invariant]
    spec fn type_inv(&self) -> bool {
        self.bytes@.len() == 16
    }

    /// Wrap 16 bytes as an identifier; any other length is refused.
    pub fn new(bytes: Vec<u8>) -> (r: Option<UserId>)
        ensures
            bytes@.len() == 16 ==> (r matches Some(u) && u@ == bytes@),
            bytes@.len() != 16 ==> r is None,
    {
        if bytes.len() == 16 {
            Some(UserId { bytes })
        } else {
            None
        }
    }

    /// The 16 identifier bytes.
    pub fn as_bytes(&self) -> (r: &Vec<u8>)
        ensures
            r@ == self@,
    {
        &self.bytes
    }
}

impl PartialEq for UserId {
    fn eq(&self, other: &UserId) -> (r: bool) {
        bytes_eq(&self.bytes, &other.bytes)
    }
}

impl vstd::std_specs::cmp::PartialEqSpecImpl for UserId {
    open spec fn obeys_eq_spec() -> bool {
        true
    }

    open spec fn eq_spec(&self, other: &UserId) -> bool {
        self@ == other@
    }
}

/// Whether two byte vectors hold the same bytes.
pub fn bytes_eq(a: &Vec<u8>, b: &Vec<u8>) -> (r: bool)
    ensures
        r == (a@ == b@),
{
    if a.len() != b.len() {
        proof {
            assert(a@ != b@);
        }
        return false;
    }
    let n = a.len();
    let mut i: usize = 0;
    while i < n
        invariant
            n == a@.len() && n == b@.len(),
            i <= n,
            forall|j: int| 0 <= j < i ==> a@[j] == b@[j],
        decreases n - i,
    {
        if a[i] != b[i] {
            proof {
                assert(a@[i as int] != b@[i as int]);
            }
            return false;
        }
        i = i + 1;
    }
    proof {
        assert(a@ =~= b@);
    }
    true
}

/// The identifier bytes held in a point encoding: bytes 1..17.
pub open spec fn decoded_id(b: Seq<u8>) -> Seq<u8> {
    b.subrange(1, 17)
}

/// The sixteen counter bytes of a candidate buffer: the counter's bytes,
/// little-endian, then eight zero bytes.
pub open spec fn counter_bytes(i: u64) -> Seq<u8> {
    Seq::new(8, |m: int| (i >> ((8 * m) as u64)) as u8) + Seq::new(8, |m: int| 0u8)
}

/// The candidate compact buffer for identifier bytes `id` and counter
/// `i`: the compact tag byte, the identifier, the counter.
pub open spec fn candidate(id: Seq<u8>, i: u64) -> Seq<u8> {
    seq![5u8] + id + counter_bytes(i)
}

/// `i` is the least counter whose candidate decodes to a curve point.
pub open spec fn least_counter(id: Seq<u8>, i: u64) -> bool {
    compact_ok(candidate(id, i)) && (forall|j: u64| j < i ==> !compact_ok(candidate(id, j)))
}

/// The point encoding an identifier embeds into: the decode of the least
/// working candidate. Encoding is deterministic because that counter is
/// unique.
pub open spec fn encoded_point(id: Seq<u8>) -> Seq<u8> {
    compact_point(candidate(id, choose|i: u64| least_counter(id, i)))
}

/// At most one counter is least.
pub proof fn lemma_least_counter_unique(id: Seq<u8>, i1: u64, i2: u64)
    requires
        least_counter(id, i1),
        least_counter(id, i2),
    ensures
        i1 == i2,
{
    if i1 < i2 {
        assert(!compact_ok(candidate(id, i1)));
    }
    if i2 < i1 {
        assert(!compact_ok(candidate(id, i2)));
    }
}

/// Embed an identifier into a curve point by try-and-increment.
///
/// Counters are tried from zero upwards, so the result is the decode of
/// the least candidate whose x-coordinate lies on the curve: the same
/// identifier always encodes to the same point, `encoded_point(id@)`.
/// Its bytes 1..17 are the identifier, so decoding yields it again.
/// Failure means no counter worked, which for a random-looking
/// identifier has negligible probability. The iteration count depends on
/// the identifier's bits, so this is a variable-time, enrollment-time
/// operation; it must not run on a path where timing could leak a query.
pub fn encode_user_id(id: &UserId) -> (r: Result<Vec<u8>, CdsError>)
    ensures
        r matches Ok(pt) ==> ({
            &&& is_point(pt@) && pt@.len() == 33 && decoded_id(pt@) == id@
            &&& pt@ == encoded_point(id@)
            &&& exists|i: u64| least_counter(id@, i)
        }),
        r matches Err(e) ==> e == CdsError::PointEncodingFailure && (forall|i: u64|
            i < u64::MAX ==> !compact_ok(candidate(id@, i))),
{
    proof {
        use_type_invariant(&*id);
    }
    let mut buf: Vec<u8> = Vec::new();
    // SEC1 compact tag byte.
    buf.push(5u8);
    let mut i: usize = 0;
    while i < 16
        invariant
            i <= 16,
            id@.len() == 16,
            buf@.len() == 1 + i,
            buf@[0] == 5u8,
            buf@.subrange(1, 1 + i as int) == id@.subrange(0, i as int),
        decreases 16 - i,
    {
        buf.push(id.bytes[i]);
        proof {
            assert(buf@.subrange(1, 1 + (i + 1) as int) =~= id@.subrange(0, (i + 1) as int));
        }
        i = i + 1;
    }
    proof {
        assert(buf@.subrange(1, 17) =~= id@);
    }
    let mut j: usize = 0;
    while j < 16
        invariant
            j <= 16,
            buf@.len() == 17 + j,
            buf@[0] == 5u8,
            buf@.subrange(1, 17) == id@,
            forall|m: int| 17 <= m < buf@.len() ==> buf@[m] == 0u8,
        decreases 16 - j,
    {
        buf.push(0u8);
        proof {
            assert(buf@.subrange(1, 17) =~= id@);
        }
        j = j + 1;
    }
    let mut counter: u64 = 0;
    while counter < u64::MAX
        invariant
            id@.len() == 16,
            buf@.len() == 33,
            buf@[0] == 5u8,
            buf@.subrange(1, 17) == id@,
            forall|m: int| 25 <= m < 33 ==> buf@[m] == 0u8,
            forall|j2: u64| j2 < counter ==> !compact_ok(candidate(id@, j2)),
        decreases u64::MAX - counter,
    {
        // Write the counter into bytes 17..25, little-endian; the last
        // eight counter bytes stay zero.
        let mut k: usize = 0;
        while k < 8
            invariant
                k <= 8,
                id@.len() == 16,
                buf@.len() == 33,
                buf@[0] == 5u8,
                buf@.subrange(1, 17) == id@,
                forall|m: int| 25 <= m < 33 ==> buf@[m] == 0u8,
                forall|m: int| 0 <= m < k ==> buf@[17 + m] == counter_bytes(counter)[m],
            decreases 8 - k,
        {
            let ghost prev = buf@;
            buf.set(17 + k, (counter >> (8 * k as u64)) as u8);
            proof {
                assert(buf@.subrange(1, 17) =~= prev.subrange(1, 17));
            }
            k = k + 1;
        }
        proof {
            assert forall|t: int| 0 <= t < 33 implies buf@[t] == candidate(id@, counter)[t] by {
                if 1 <= t < 17 {
                    assert(buf@.subrange(1, 17)[t - 1] == buf@[t]);
                    assert(candidate(id@, counter)[t] == id@[t - 1]);
                } else if 17 <= t < 25 {
                    assert(buf@[t] == counter_bytes(counter)[t - 17]);
                } else if 25 <= t {
                    assert(candidate(id@, counter)[t] == counter_bytes(counter)[t - 17]);
                    assert(counter_bytes(counter)[t - 17] == 0u8);
                }
            }
            assert(buf@ =~= candidate(id@, counter));
        }
        if let Some(pt) = compact_decode(&buf) {
            proof {
                assert(decoded_id(pt@) =~= buf@.subrange(1, 17));
                assert(least_counter(id@, counter));
                let ch = choose|i2: u64| least_counter(id@, i2);
                lemma_least_counter_unique(id@, ch, counter);
                assert(pt@ == encoded_point(id@));
            }
            return Ok(pt);
        }
        counter = counter + 1;
    }
    Err(CdsError::PointEncodingFailure)
}

/// Read the identifier bytes back out of a point encoding.
///
/// Succeeds for every encoding long enough to hold them; no validation is
/// done beyond the byte extraction.
pub fn decode_user_id(pt: &Vec<u8>) -> (r: Option<UserId>)
    ensures
        pt@.len() >= 17 ==> (r matches Some(u) && u@ == decoded_id(pt@)),
        pt@.len() < 17 ==> r is None,
{
    if pt.len() < 17 {
        return None;
    }
    let mut b: Vec<u8> = Vec::new();
    let mut i: usize = 1;
    while i < 17
        invariant
            1 <= i <= 17,
            pt@.len() >= 17,
            b@.len() == i - 1,
            b@ == pt@.subrange(1, i as int),
        decreases 17 - i,
    {
        b.push(pt[i]);
        proof {
            assert(b@ =~= pt@.subrange(1, (i + 1) as int));
        }
        i = i + 1;
    }
    Some(UserId { bytes: b })
}

} // verus!
