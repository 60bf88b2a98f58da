//! Absolute UTC instants and their order.

use vstd::prelude::*;

verus! {

/// A point on the UTC time line: whole seconds since the Unix epoch, and the
/// nanoseconds elapsed within that second.
///
/// Instants are ordered by `secs` first and by `nanos` second. Every pair of
/// field values is a valid instant, so the order is total on the whole type.
#[derive(Clone, Copy, Debug, PartialEq, Eq, Structural)]
pub struct Instant {
    pub secs: i64,
    pub nanos: u32,
}

impl Instant {
    /// `self` is not later than `other`.
    pub open spec fn spec_le(&self, other: &Instant) -> bool {
        self.secs < other.secs || (self.secs == other.secs && self.nanos <= other.nanos)
    }

    /// `self` is strictly earlier than `other`.
    pub open spec fn spec_lt(&self, other: &Instant) -> bool {
        self.secs < other.secs || (self.secs == other.secs && self.nanos < other.nanos)
    }

    /// The later of two instants.
    pub open spec fn spec_later(self, other: Instant) -> Instant {
        if self.spec_le(&other) {
            other
        } else {
            self
        }
    }

    /// The earlier of two instants.
    pub open spec fn spec_earlier(self, other: Instant) -> Instant {
        if self.spec_le(&other) {
            self
        } else {
            other
        }
    }

    /// The greatest instant: no instant is later.
    pub open spec fn spec_latest() -> Instant {
        Instant { secs: i64::MAX, nanos: u32::MAX }
    }

    /// An instant on a whole second.
    pub fn from_secs(secs: i64) -> (r: Instant)
        ensures
            r == (Instant { secs, nanos: 0 }),
    {
        Instant { secs, nanos: 0 }
    }

    #[verifier::when_used_as_spec(spec_le)]
    pub fn le(&self, other: &Instant) -> (b: bool)
        ensures
            b == self.spec_le(other),
    {
        self.secs < other.secs || (self.secs == other.secs && self.nanos <= other.nanos)
    }

    #[verifier::when_used_as_spec(spec_lt)]
    pub fn lt(&self, other: &Instant) -> (b: bool)
        ensures
            b == self.spec_lt(other),
    {
        self.secs < other.secs || (self.secs == other.secs && self.nanos < other.nanos)
    }

    #[verifier::when_used_as_spec(spec_later)]
    pub fn later(self, other: Instant) -> (r: Instant)
        ensures
            r == self.spec_later(other),
    {
        if self.le(&other) {
            other
        } else {
            self
        }
    }

    #[verifier::when_used_as_spec(spec_earlier)]
    pub fn earlier(self, other: Instant) -> (r: Instant)
        ensures
            r == self.spec_earlier(other),
    {
        if self.le(&other) {
            self
        } else {
            other
        }
    }

    #[verifier::when_used_as_spec(spec_latest)]
    pub fn latest() -> (r: Instant)
        ensures
            r == Instant::spec_latest(),
    {
        Instant { secs: i64::MAX, nanos: u32::MAX }
    }
}

/// The order on instants is a total order, and `lt` is its strict part.
pub proof fn instant_order_is_total(a: Instant, b: Instant, c: Instant)
    ensures
        a.le(&a),
        a.le(&b) || b.le(&a),
        a.le(&b) && b.le(&a) ==> a == b,
        a.le(&b) && b.le(&c) ==> a.le(&c),
        a.lt(&b) <==> a.le(&b) && a != b,
        a.lt(&b) <==> !b.le(&a),
        a.le(&Instant::latest()),
{
}

} // verus!
