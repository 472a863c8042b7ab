//! Monotonic identifier generation.
//!
//! A generator remembers the last identifier it handed out and
//! guarantees that each call produces a strictly greater one, even when
//! several identifiers are requested within the same millisecond or the
//! clock briefly runs backward: within a millisecond the random section
//! is incremented instead of redrawn, and when it is saturated the call
//! fails with a typed error rather than repeating or reordering.

use crate::{
    lemma_increment_fields, lemma_parts_fields, spec_from_parts, Ulid, MAX_RANDOM, MAX_TIMESTAMP,
};
use std::time::SystemTime;
use vstd::prelude::*;

verus! {

/// Error while trying to generate a monotonic increment in the same
/// millisecond.
#[derive(Debug, PartialEq, Eq, Hash, Copy, Clone, Structural)]
pub enum MonotonicError {
    /// Would overflow into the next millisecond.
    Overflow,
}

impl MonotonicError {
    /// A short description of the error.
    pub fn message(&self) -> (r: &'static str)
        ensures
            r@ == "Ulid random bits would overflow"@,
    {
        "Ulid random bits would overflow"
    }
}

/// A Ulid generator that provides monotonically increasing Ulids.
pub struct Generator {
    previous: Ulid,
}

/// What one monotonic generation step decides, given the previous
/// identifier, a clock reading in milliseconds, and a fresh random
/// payload: a fresh identifier when the clock moved past the previous
/// timestamp, the increment of the previous identifier when it did not,
/// and an overflow error when that increment does not exist.
pub open spec fn spec_next(prev: Ulid, now_ms: u128, random: u128) -> Result<Ulid, MonotonicError> {
    if now_ms <= prev.spec_timestamp_ms() as u128 {
        if prev.spec_random() < MAX_RANDOM {
            Ok(Ulid((prev.0 + 1) as u128))
        } else {
            Err(MonotonicError::Overflow)
        }
    } else {
        Ok(Ulid(spec_from_parts((now_ms & 0xFFFF_FFFF_FFFF) as u64, random)))
    }
}

/// The state a generator is left in by one step: the identifier it
/// handed out, or the old state when the step failed.
pub open spec fn spec_next_state(prev: Ulid, now_ms: u128, random: u128) -> Ulid {
    match spec_next(prev, now_ms, random) {
        Ok(u) => u,
        Err(_) => prev,
    }
}

impl Generator {
    /// The identifier most recently handed out; nil before any call.
    pub closed spec fn previous(&self) -> Ulid {
        self.previous
    }

    /// Create a new ulid generator for monotonically ordered ulids.
    /// It starts from the nil identifier, whose timestamp 0 lies before
    /// any real clock reading.
    pub fn new() -> (r: Generator)
        ensures
            r.previous().0 == 0,
    {
        Generator { previous: Ulid::nil() }
    }

    /// One monotonic generation step against an explicit clock reading
    /// (in milliseconds since the Unix epoch) and an explicit random
    /// payload (truncated to 80 bits).
    ///
    /// When the reading is past the stored timestamp, a fresh
    /// identifier is built from the reading and the payload. Otherwise
    /// the stored identifier's random section is incremented; if it is
    /// already saturated, the call fails with `Overflow` and the state
    /// is left unchanged.
    pub fn generate_from_millis(&mut self, now_ms: u128, random: u128) -> (r: Result<
        Ulid,
        MonotonicError,
    >)
        ensures
            r == spec_next(old(self).previous(), now_ms, random),
            final(self).previous() == spec_next_state(old(self).previous(), now_ms, random),
            r is Ok ==> final(self).previous() == r->Ok_0,
            r is Err ==> *final(self) == *old(self),
    {
        let last_ms = self.previous.timestamp_ms();
        // maybe time went backward, or it is the same ms:
        // increment instead of drawing fresh bits, so that the
        // sequence stays monotonic
        if now_ms <= last_ms as u128 {
            match self.previous.increment() {
                Some(next) => {
                    self.previous = next;
                    Ok(next)
                },
                None => Err(MonotonicError::Overflow),
            }
        } else {
            let timebits = (now_ms & 0xFFFF_FFFF_FFFF) as u64;
            let next = Ulid::from_parts(timebits, random);
            self.previous = next;
            Ok(next)
        }
    }

    /// Generate a new Ulid from the current wall clock. Within one
    /// millisecond successive calls count up through the random
    /// section; when it is exhausted the call returns `Overflow` and
    /// leaves the generator unchanged, so a later call can succeed once
    /// time advances.
    pub fn generate(&mut self) -> (r: Result<Ulid, MonotonicError>)
        ensures
            exists|t: u128, rand: u128|
                {
                    &&& r == #[trigger] spec_next(old(self).previous(), t, rand)
                    &&& final(self).previous() == spec_next_state(old(self).previous(), t, rand)
                },
            r is Ok ==> final(self).previous() == r->Ok_0,
            r is Err ==> *final(self) == *old(self) && old(self).previous().spec_random()
                == MAX_RANDOM,
    {
        let now = crate::time::now_ms();
        self.generate_with_millis(now)
    }

    /// Generate a new Ulid matching the given datetime, with the same
    /// monotonic policy as `generate`.
    pub fn generate_from_datetime(&mut self, datetime: SystemTime) -> (r: Result<
        Ulid,
        MonotonicError,
    >)
        ensures
            exists|t: u128, rand: u128|
                {
                    &&& r == #[trigger] spec_next(old(self).previous(), t, rand)
                    &&& final(self).previous() == spec_next_state(old(self).previous(), t, rand)
                },
            r is Ok ==> final(self).previous() == r->Ok_0,
            r is Err ==> *final(self) == *old(self) && old(self).previous().spec_random()
                == MAX_RANDOM,
    {
        let now = crate::time::systemtime_millis(datetime);
        self.generate_with_millis(now)
    }

    /// One step against a clock reading already in hand, drawing the
    /// random payload from the thread's generator.
    fn generate_with_millis(&mut self, now_ms: u128) -> (r: Result<Ulid, MonotonicError>)
        ensures
            exists|t: u128, rand: u128|
                {
                    &&& r == #[trigger] spec_next(old(self).previous(), t, rand)
                    &&& final(self).previous() == spec_next_state(old(self).previous(), t, rand)
                },
            r is Ok ==> final(self).previous() == r->Ok_0,
            r is Err ==> *final(self) == *old(self) && old(self).previous().spec_random()
                == MAX_RANDOM,
    {
        let random = ((crate::rng::random_u16() as u128) << 64) | (crate::rng::random_u64()
            as u128);
        let r = self.generate_from_millis(now_ms, random);
        proof {
            assert(r == spec_next(old(self).previous(), now_ms, random));
            if r is Err {
                crate::lemma_field_bounds(old(self).previous().0);
            }
        }
        r
    }

    /// Generate a new Ulid that is strictly greater than the last one,
    /// never failing: when the random section is saturated within a
    /// millisecond the increment carries into the timestamp, borrowing
    /// from the future instead of erroring. The one excluded state is a
    /// previous identifier of all ones, which has no successor at all.
    pub fn generate_overflowing(&mut self) -> (r: Ulid)
        requires
            old(self).previous().0 < u128::MAX,
        ensures
            final(self).previous() == r,
            r.0 > old(self).previous().0,
    {
        let next = Ulid::new();
        if next.0 > self.previous.0 {
            self.previous = next;
            next
        } else {
            let bumped = self.previous.increment_overflowing();
            self.previous = bumped;
            bumped
        }
    }
}

impl Default for Generator {
    /// A fresh generator, starting from the nil identifier.
    fn default() -> (r: Self)
        ensures
            r.previous().0 == 0,
    {
        Generator::new()
    }
}

/// Under an unchanging in-range clock a second step hands out exactly
/// the increment of the first step's identifier, or fails with its
/// state kept when the random section has reached its maximum.
pub proof fn lemma_same_millisecond(prev: Ulid, t: u128, r1: u128, r2: u128)
    requires
        t <= MAX_TIMESTAMP as u128,
        spec_next(prev, t, r1) is Ok,
    ensures
        ({
            let u1 = spec_next(prev, t, r1)->Ok_0;
            &&& (spec_next(u1, t, r2) is Ok <==> u1.spec_random() < MAX_RANDOM)
            &&& (spec_next(u1, t, r2) is Ok ==> spec_next(u1, t, r2)->Ok_0.0 == u1.0 + 1)
        }),
{
    let u1 = spec_next(prev, t, r1)->Ok_0;
    if t <= prev.spec_timestamp_ms() as u128 {
        // the first step incremented: the timestamp section is prev's
        lemma_increment_fields(prev.0);
        assert(u1.spec_timestamp_ms() == prev.spec_timestamp_ms());
    } else {
        // the first step advanced: its timestamp section is the reading
        let tt = (t & 0xFFFF_FFFF_FFFF) as u64;
        lemma_parts_fields(tt, r1);
        assert(t & 0xFFFF_FFFF_FFFF == t && (tt & 0xFFFF_FFFF_FFFFu64) as u128 == t)
            by (bit_vector)
            requires
                t <= 0xFFFF_FFFF_FFFFu128,
                tt == (t & 0xFFFF_FFFF_FFFF) as u64,
        ;
        assert(u1.spec_timestamp_ms() as u128 == t);
    }
    assert(t <= u1.spec_timestamp_ms() as u128);
    if u1.spec_random() < MAX_RANDOM {
        lemma_increment_fields(u1.0);
    }
}

/// A saturated random section blocks the same-millisecond path: a step
/// whose clock reading is at or before the stored timestamp fails with
/// `Overflow` and leaves the state exactly as it was.
pub proof fn lemma_overflow(prev: Ulid, t: u128, random: u128)
    requires
        prev.spec_random() == MAX_RANDOM,
        t <= prev.spec_timestamp_ms() as u128,
    ensures
        spec_next(prev, t, random) == Err::<Ulid, MonotonicError>(MonotonicError::Overflow),
        spec_next_state(prev, t, random) == prev,
{
}

/// A strictly later in-range clock reading always advances: the step
/// succeeds, the new identifier carries that reading as its timestamp,
/// and it is strictly greater than the previous identifier.
pub proof fn lemma_advancing_clock(prev: Ulid, t: u128, random: u128)
    requires
        (prev.spec_timestamp_ms() as u128) < t,
        t <= MAX_TIMESTAMP as u128,
    ensures
        spec_next(prev, t, random) is Ok,
        spec_next(prev, t, random)->Ok_0.spec_timestamp_ms() as u128 == t,
        spec_next(prev, t, random)->Ok_0.0 > prev.0,
{
    let tt = (t & 0xFFFF_FFFF_FFFF) as u64;
    lemma_parts_fields(tt, random);
    assert(t & 0xFFFF_FFFF_FFFF == t && (tt & 0xFFFF_FFFF_FFFFu64) as u128 == t) by (bit_vector)
        requires
            t <= 0xFFFF_FFFF_FFFFu128,
            tt == (t & 0xFFFF_FFFF_FFFF) as u64,
    ;
    let v = prev.0;
    let u = spec_from_parts(tt, random);
    crate::lemma_field_bounds(v);
    assert((v >> 80) == prev.spec_timestamp_ms() as u128);
    assert(u > v) by (bit_vector)
        requires
            u >> 80 == (tt & 0xFFFF_FFFF_FFFFu64) as u128,
            (v >> 80) < (tt & 0xFFFF_FFFF_FFFFu64) as u128,
    ;
}

} // verus!
