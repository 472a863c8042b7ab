//! Universally Unique Lexicographically Sortable Identifiers.
//!
//! A `Ulid` is a 128-bit value: the high 48 bits are a millisecond
//! timestamp, the low 80 bits a random payload. Its canonical text form
//! is a 26-character Crockford Base32 string that sorts exactly like the
//! underlying integer.

use vstd::prelude::*;
use vstd::string::StringSliceAdditionalSpecFns;

pub mod base32;
pub mod generator;
mod rng;
mod time;

pub use crate::base32::{DecodeError, EncodeError, ULID_LEN};
pub use crate::generator::{Generator, MonotonicError};

verus! {

/// The number of bits in a Ulid's time portion.
pub const TIME_BITS: u64 = 48;

/// The number of bits in a Ulid's random portion.
pub const RAND_BITS: u64 = 80;

/// The largest value the time portion can hold.
pub const MAX_TIMESTAMP: u64 = 0xFFFF_FFFF_FFFF;

/// The largest value the random portion can hold.
pub const MAX_RANDOM: u128 = 0xFFFF_FFFF_FFFF_FFFF_FFFF;

/// A Ulid is a unique 128-bit lexicographically sortable identifier.
///
/// Canonically, it is represented as a 26 character Crockford Base32
/// encoded string.
///
/// Of the 128 bits, the first 48 are a unix timestamp in milliseconds.
/// The remaining 80 are random. The first 48 provide for lexicographic
/// sorting and the remaining 80 ensure that the identifier is unique.
#[derive(Debug, PartialEq, Eq, Hash, Clone, Copy, Structural)]
pub struct Ulid(pub u128);

/// The 128-bit value assembled from a truncated timestamp (low 48 bits
/// kept) and a truncated random payload (low 80 bits kept).
pub open spec fn spec_from_parts(timestamp_ms: u64, random: u128) -> u128 {
    (((timestamp_ms & 0xFFFF_FFFF_FFFFu64) as u128) << 80) | (random & MAX_RANDOM)
}

impl Ulid {
    /// The timestamp section: the high 48 bits, in milliseconds.
    pub open spec fn spec_timestamp_ms(&self) -> u64 {
        (self.0 >> 80) as u64
    }

    /// The random section: the low 80 bits.
    pub open spec fn spec_random(&self) -> u128 {
        self.0 & MAX_RANDOM
    }

    /// Create a Ulid from separated parts.
    ///
    /// Overflow bits in the given args are discarded: the timestamp
    /// keeps its low 48 bits, the random payload its low 80.
    pub fn from_parts(timestamp_ms: u64, random: u128) -> (r: Ulid)
        ensures
            r.0 == spec_from_parts(timestamp_ms, random),
            r.spec_timestamp_ms() == timestamp_ms & 0xFFFF_FFFF_FFFFu64,
            r.spec_random() == random & MAX_RANDOM,
    {
        let time_part = (timestamp_ms & 0xFFFF_FFFF_FFFF) as u128;
        let rand_part = random & MAX_RANDOM;
        proof {
            lemma_parts_fields(timestamp_ms, random);
        }
        Ulid((time_part << 80) | rand_part)
    }

    /// Creates a Ulid from a Crockford Base32 encoded string.
    ///
    /// A `DecodeError` is returned when the given string is not
    /// formatted properly: `InvalidLength` unless it is exactly 26
    /// bytes, `InvalidChar` if any byte is outside the alphabet.
    pub fn from_string(encoded: &str) -> (r: Result<Ulid, DecodeError>)
        ensures
            r is Ok <==> base32::is_valid_encoding(encoded.spec_bytes()),
            r is Ok ==> r->Ok_0.0 == base32::folded_value(encoded.spec_bytes()),
            r == Err::<Ulid, DecodeError>(DecodeError::InvalidLength) <==> encoded.spec_bytes().len() != 26,
            r == Err::<Ulid, DecodeError>(DecodeError::InvalidChar) <==> (encoded.spec_bytes().len() == 26
                && exists|i: int| 0 <= i < 26 && !base32::is_symbol(#[trigger] encoded.spec_bytes()[i])),
    {
        match base32::decode(encoded) {
            Ok(int_val) => Ok(Ulid(int_val)),
            Err(err) => Err(err),
        }
    }

    /// The nil Ulid: all 128 bits set to zero.
    pub fn nil() -> (r: Ulid)
        ensures
            r.0 == 0,
    {
        Ulid(0)
    }

    /// Gets the timestamp section of this ulid, in milliseconds since
    /// the Unix epoch. It always fits in 48 bits.
    pub fn timestamp_ms(&self) -> (r: u64)
        ensures
            r == self.spec_timestamp_ms(),
            r <= MAX_TIMESTAMP,
    {
        proof {
            lemma_field_bounds(self.0);
        }
        (self.0 >> 80) as u64
    }

    /// Gets the random section of this ulid. It always fits in 80 bits.
    pub fn random(&self) -> (r: u128)
        ensures
            r == self.spec_random(),
            r <= MAX_RANDOM,
    {
        proof {
            lemma_field_bounds(self.0);
        }
        self.0 & MAX_RANDOM
    }

    /// Creates the canonical Crockford Base32 string for this Ulid:
    /// 26 uppercase symbols, most significant digit first.
    pub fn to_string(&self) -> (r: String)
        ensures
            r@ == base32::encoding_chars(self.0),
            r@.len() == ULID_LEN,
    {
        base32::encode(self.0)
    }

    /// Test if the Ulid is nil.
    pub fn is_nil(&self) -> (r: bool)
        ensures
            r <==> self.0 == 0,
    {
        self.0 == 0u128
    }

    /// Increment the random section, leaving the timestamp untouched.
    /// Returns `None` exactly when the random section is already at its
    /// maximum (all 80 bits set), so the successor never carries into
    /// the timestamp.
    pub fn increment(&self) -> (r: Option<Ulid>)
        ensures
            r is Some <==> self.spec_random() < MAX_RANDOM,
            r is Some ==> r->Some_0.0 == self.0 + 1,
            r is Some ==> r->Some_0.spec_timestamp_ms() == self.spec_timestamp_ms(),
            r is Some ==> r->Some_0.spec_random() == self.spec_random() + 1,
    {
        proof {
            lemma_field_bounds(self.0);
        }
        if (self.0 & MAX_RANDOM) == MAX_RANDOM {
            None
        } else {
            proof {
                lemma_increment_fields(self.0);
            }
            Some(Ulid(self.0 + 1))
        }
    }

    /// Increment the whole 128-bit value, carrying from the random
    /// section into the timestamp when the former is saturated. The
    /// all-ones identifier has no successor and is excluded.
    pub(crate) fn increment_overflowing(&self) -> (r: Ulid)
        requires
            self.0 < u128::MAX,
        ensures
            r.0 == self.0 + 1,
    {
        Ulid(self.0 + 1)
    }
}

/// The fields of an assembled value are the truncated arguments.
pub(crate) proof fn lemma_parts_fields(t: u64, r: u128)
    ensures
        spec_from_parts(t, r) >> 80 == (t & 0xFFFF_FFFF_FFFFu64) as u128,
        spec_from_parts(t, r) & MAX_RANDOM == r & MAX_RANDOM,
        ((t & 0xFFFF_FFFF_FFFFu64) as u128) << 80 <= u128::MAX - MAX_RANDOM,
{
    assert(((((t & 0xFFFF_FFFF_FFFFu64) as u128) << 80) | (r & 0xFFFF_FFFF_FFFF_FFFF_FFFFu128))
        >> 80 == (t & 0xFFFF_FFFF_FFFFu64) as u128) by (bit_vector);
    assert(((((t & 0xFFFF_FFFF_FFFFu64) as u128) << 80) | (r & 0xFFFF_FFFF_FFFF_FFFF_FFFFu128))
        & 0xFFFF_FFFF_FFFF_FFFF_FFFFu128 == r & 0xFFFF_FFFF_FFFF_FFFF_FFFFu128) by (bit_vector);
    assert(((t & 0xFFFF_FFFF_FFFFu64) as u128) << 80 <= u128::MAX - 0xFFFF_FFFF_FFFF_FFFF_FFFFu128)
        by (bit_vector);
}

/// The timestamp section fits in 48 bits, the random section in 80.
pub(crate) proof fn lemma_field_bounds(v: u128)
    ensures
        v >> 80 <= 0xFFFF_FFFF_FFFFu128,
        v & MAX_RANDOM <= MAX_RANDOM,
{
    assert(v >> 80 <= 0xFFFF_FFFF_FFFFu128) by (bit_vector);
    assert(v & 0xFFFF_FFFF_FFFF_FFFF_FFFFu128 <= 0xFFFF_FFFF_FFFF_FFFF_FFFFu128) by (bit_vector);
}

/// Adding one to a value whose low 80 bits are not saturated bumps the
/// random section and leaves the timestamp section alone.
pub(crate) proof fn lemma_increment_fields(v: u128)
    requires
        v & MAX_RANDOM < MAX_RANDOM,
    ensures
        v < u128::MAX,
        (v + 1) as u128 >> 80 == v >> 80,
        (v + 1) as u128 & MAX_RANDOM == (v & MAX_RANDOM) + 1,
{
    assert(v & 0xFFFF_FFFF_FFFF_FFFF_FFFFu128 < 0xFFFF_FFFF_FFFF_FFFF_FFFFu128 ==> v < u128::MAX
        && ((v + 1) as u128) >> 80 == v >> 80
        && ((v + 1) as u128) & 0xFFFF_FFFF_FFFF_FFFF_FFFFu128 == ((v & 0xFFFF_FFFF_FFFF_FFFF_FFFFu128) + 1) as u128)
        by (bit_vector);
}

/// Identifiers order by timestamp first: one built from an earlier
/// in-range timestamp is strictly below one built from a later
/// timestamp, whatever the two random payloads.
pub proof fn lemma_order_by_timestamp(t1: u64, r1: u128, t2: u64, r2: u128)
    requires
        t1 < t2,
        t2 <= MAX_TIMESTAMP,
    ensures
        spec_from_parts(t1, r1) < spec_from_parts(t2, r2),
{
    assert((((t1 & 0xFFFF_FFFF_FFFFu64) as u128) << 80) | (r1 & 0xFFFF_FFFF_FFFF_FFFF_FFFFu128)
        < (((t2 & 0xFFFF_FFFF_FFFFu64) as u128) << 80) | (r2 & 0xFFFF_FFFF_FFFF_FFFF_FFFFu128)) by (bit_vector)
        requires
            t1 < t2,
            t2 <= 0xFFFF_FFFF_FFFFu64,
    ;
}

impl Default for Ulid {
    /// The default identifier is the nil identifier.
    fn default() -> (r: Self)
        ensures
            r.0 == 0,
    {
        Ulid::nil()
    }
}

impl PartialOrd for Ulid {
    /// Identifiers order exactly as their raw 128-bit values.
    fn partial_cmp(&self, other: &Self) -> (r: Option<core::cmp::Ordering>)
    {
        if self.0 < other.0 {
            Some(core::cmp::Ordering::Less)
        } else if self.0 == other.0 {
            Some(core::cmp::Ordering::Equal)
        } else {
            Some(core::cmp::Ordering::Greater)
        }
    }
}

impl vstd::std_specs::cmp::PartialOrdSpecImpl for Ulid {
    open spec fn obeys_partial_cmp_spec() -> bool {
        true
    }

    open spec fn partial_cmp_spec(&self, other: &Self) -> Option<core::cmp::Ordering> {
        if self.0 < other.0 {
            Some(core::cmp::Ordering::Less)
        } else if self.0 == other.0 {
            Some(core::cmp::Ordering::Equal)
        } else {
            Some(core::cmp::Ordering::Greater)
        }
    }
}

impl From<u128> for Ulid {
    /// Wraps a raw 128-bit value.
    fn from(value: u128) -> (r: Ulid) {
        Ulid(value)
    }
}

impl vstd::std_specs::convert::FromSpecImpl<u128> for Ulid {
    open spec fn obeys_from_spec() -> bool {
        true
    }

    open spec fn from_spec(value: u128) -> Ulid {
        Ulid(value)
    }
}

impl From<Ulid> for u128 {
    /// The raw 128-bit value.
    fn from(ulid: Ulid) -> (r: u128) {
        ulid.0
    }
}

impl vstd::std_specs::convert::FromSpecImpl<Ulid> for u128 {
    open spec fn obeys_from_spec() -> bool {
        true
    }

    open spec fn from_spec(ulid: Ulid) -> u128 {
        ulid.0
    }
}

impl From<(u64, u64)> for Ulid {
    /// Assembles the value from its high and low 64-bit halves.
    fn from(halves: (u64, u64)) -> (r: Ulid) {
        Ulid(((halves.0 as u128) << 64) | (halves.1 as u128))
    }
}

impl vstd::std_specs::convert::FromSpecImpl<(u64, u64)> for Ulid {
    open spec fn obeys_from_spec() -> bool {
        true
    }

    open spec fn from_spec(halves: (u64, u64)) -> Ulid {
        Ulid(((halves.0 as u128) << 64) | (halves.1 as u128))
    }
}

impl From<Ulid> for (u64, u64) {
    /// The high and low 64-bit halves of the value.
    fn from(ulid: Ulid) -> (r: (u64, u64)) {
        proof {
            let v = ulid.0;
            assert(v >> 64 <= 0xFFFF_FFFF_FFFF_FFFFu128) by (bit_vector);
        }
        (((ulid.0 >> 64) as u64), ((ulid.0 & 0xFFFF_FFFF_FFFF_FFFF) as u64))
    }
}

impl vstd::std_specs::convert::FromSpecImpl<Ulid> for (u64, u64) {
    open spec fn obeys_from_spec() -> bool {
        true
    }

    open spec fn from_spec(ulid: Ulid) -> (u64, u64) {
        (((ulid.0 >> 64) as u64), ((ulid.0 & 0xFFFF_FFFF_FFFF_FFFF) as u64))
    }
}

impl From<Ulid> for String {
    /// The canonical 26-character string of the identifier.
    fn from(ulid: Ulid) -> (r: String) {
        ulid.to_string()
    }
}

impl vstd::std_specs::convert::FromSpecImpl<Ulid> for String {
    open spec fn obeys_from_spec() -> bool {
        // Two `String` values with the same characters need not be one
        // spec value, so no single result can be promised here; what the
        // string holds is stated by `Ulid::to_string`.
        false
    }

    open spec fn from_spec(ulid: Ulid) -> String {
        arbitrary()
    }
}

impl core::str::FromStr for Ulid {
    type Err = DecodeError;

    /// Parses the canonical 26-character form, as `from_string` does.
    fn from_str(s: &str) -> (r: Result<Ulid, DecodeError>) {
        Ulid::from_string(s)
    }
}

} // verus!
