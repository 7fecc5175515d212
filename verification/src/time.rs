//! Points in time as plain values.

use vstd::prelude::*;

verus! {

/// Nanoseconds in a second.
pub const NANOS_PER_SEC: u32 = 1_000_000_000;

/// A wall-clock time, to the nanosecond, before or after the Unix epoch.
///
/// Its view is the number of nanoseconds since the epoch.
#[derive(Clone, Copy, PartialEq, Eq, Debug, Structural)]
pub struct SystemTime {
    secs: i64,
    nanos: u32,
}

/// The Unix epoch in nanoseconds since itself.
pub open spec fn epoch() -> int {
    0
}

impl View for SystemTime {
    type V = int;

    closed spec fn view(&self) -> int {
        self.secs as int * NANOS_PER_SEC as int + self.nanos as int
    }
}

impl SystemTime {
    #[verifier::type_invariant]
    closed spec fn nanos_within_second(self) -> bool {
        self.nanos < NANOS_PER_SEC
    }

    /// The time `secs` seconds after the epoch (before it, when negative) and
    /// `nanos` nanoseconds on.
    pub fn new(secs: i64, nanos: u32) -> (t: Self)
        requires
            nanos < NANOS_PER_SEC,
        ensures
            t@ == secs as int * NANOS_PER_SEC as int + nanos as int,
    {
        SystemTime { secs, nanos }
    }

    /// The nanoseconds since the epoch.
    pub fn unix_nanos(&self) -> (n: i128)
        ensures
            n == self@,
    {
        proof {
            use_type_invariant(self);
        }
        self.secs as i128 * 1_000_000_000i128 + self.nanos as i128
    }

    /// The nanoseconds from `earlier` to this time, or `None` when `earlier`
    /// is the later of the two.
    pub fn nanos_since(&self, earlier: SystemTime) -> (d: Option<u128>)
        ensures
            d is None <==> self@ < earlier@,
            d is Some ==> d->Some_0 == self@ - earlier@,
    {
        proof {
            use_type_invariant(self);
            use_type_invariant(&earlier);
        }
        let a: i128 = self.unix_nanos();
        let b: i128 = earlier.unix_nanos();
        if a < b {
            None
        } else {
            Some((a - b) as u128)
        }
    }

    /// The time `nanos` nanoseconds earlier, or `None` when it lies before the
    /// earliest time there is.
    pub fn minus(&self, nanos: u128) -> (t: Option<SystemTime>)
        ensures
            t is Some <==> self@ - nanos >= i64::MIN as int * NANOS_PER_SEC as int,
            t matches Some(x) ==> x@ == self@ - nanos,
    {
        proof {
            use_type_invariant(self);
        }
        let whole: u128 = nanos / 1_000_000_000u128;
        let rest: u32 = (nanos % 1_000_000_000u128) as u32;
        let borrow: bool = self.nanos < rest;
        let left: u32 = if borrow {
            self.nanos + NANOS_PER_SEC - rest
        } else {
            self.nanos - rest
        };
        if whole > 0x1_0000_0000_0000_0000u128 {
            return None;
        }
        let secs: i128 = self.secs as i128 - whole as i128 - if borrow {
            1i128
        } else {
            0i128
        };
        if secs < -0x8000_0000_0000_0000i128 {
            None
        } else {
            Some(SystemTime { secs: secs as i64, nanos: left })
        }
    }

    /// The whole seconds since the epoch; zero for a time before it.
    pub fn unix_secs(&self) -> (s: u64)
        ensures
            s == if self@ < epoch() {
                0
            } else {
                self@ / NANOS_PER_SEC as int
            },
    {
        proof {
            use_type_invariant(self);
        }
        if self.secs < 0 {
            0
        } else {
            self.secs as u64
        }
    }
}

/// A reading of a monotonic clock, in nanoseconds from an origin of the
/// caller's choice.
#[derive(Clone, Copy, PartialEq, Eq, Debug, Structural)]
pub struct Instant {
    /// Nanoseconds since the origin.
    pub nanos: u64,
}

impl View for Instant {
    type V = int;

    open spec fn view(&self) -> int {
        self.nanos as int
    }
}

/// The nanoseconds from `earlier` to `now`, zero when the clock ran backwards.
pub open spec fn elapsed(now: int, earlier: int) -> int {
    if now < earlier {
        0
    } else {
        now - earlier
    }
}

impl Instant {
    /// The nanoseconds since `earlier`, zero when `earlier` is the later.
    pub fn nanos_since(&self, earlier: Instant) -> (d: u64)
        ensures
            d == elapsed(self@, earlier@),
    {
        if self.nanos < earlier.nanos {
            0
        } else {
            self.nanos - earlier.nanos
        }
    }

    /// The reading `nanos` nanoseconds later, capped at the clock's end.
    pub fn plus(&self, nanos: u64) -> (t: Instant)
        ensures
            t@ == if self@ + nanos > u64::MAX {
                u64::MAX as int
            } else {
                self@ + nanos
            },
    {
        Instant { nanos: self.nanos.saturating_add(nanos) }
    }
}

/// The time that passed is never negative, and exact while the clock runs
/// forward.
pub proof fn law_elapsed(now: int, earlier: int)
    ensures
        elapsed(now, earlier) >= 0,
        earlier <= now ==> earlier + elapsed(now, earlier) == now,
        now < earlier ==> elapsed(now, earlier) == 0,
{
}

} // verus!
