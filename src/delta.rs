use vstd::prelude::*;

verus! {

pub const NANOS_PER_SEC: i64 = 1_000_000_000;

/// Largest number of whole seconds a span may hold, either way.
pub const MAX_DELTA_SECS: i64 = 9_223_372_036_854_776;

/// A signed span of time, stored as whole seconds and a nanosecond part
/// in `[0, 10^9)`; the sign is carried by the seconds.
#[derive(Clone, Copy, Debug, PartialEq, Eq, Structural)]
pub struct TimeDelta {
    secs: i64,
    nanos: i32,
}

/// A number of calendar days.
#[derive(Clone, Copy, Debug, PartialEq, Eq, Structural)]
pub struct Days(pub u64);

impl Days {
    pub fn new(num: u64) -> (r: Days)
        ensures
            r.0 == num,
    {
        Days(num)
    }
}

pub open spec fn delta_in_range(n: int) -> bool {
    -MAX_DELTA_SECS * NANOS_PER_SEC <= n <= MAX_DELTA_SECS * NANOS_PER_SEC
}

impl TimeDelta {
    pub closed spec fn wf(self) -> bool {
        0 <= self.nanos < NANOS_PER_SEC && -MAX_DELTA_SECS <= self.secs < MAX_DELTA_SECS
            || self.secs == MAX_DELTA_SECS && self.nanos == 0
    }

    /// The span in nanoseconds.
    pub closed spec fn view_nanos(self) -> int {
        self.secs * NANOS_PER_SEC + self.nanos
    }

    /// A well-formed span lies in the representable range, and the span
    /// determines its representation.
    pub proof fn lemma_wf(self, other: TimeDelta)
        requires
            self.wf(),
        ensures
            delta_in_range(self.view_nanos()),
            other.wf() && other.view_nanos() == self.view_nanos() ==> other == self,
    {
        if other.wf() && other.view_nanos() == self.view_nanos() {
            assert(other.secs == self.secs) by (nonlinear_arith)
                requires
                    other.secs * 1_000_000_000 + other.nanos == self.secs * 1_000_000_000 + self.nanos,
                    0 <= other.nanos < 1_000_000_000,
                    0 <= self.nanos < 1_000_000_000,
            ;
        }
    }

    /// Whole seconds (rounded down) and the nanosecond part.
    pub fn parts(&self) -> (r: (i64, i32))
        requires
            self.wf(),
        ensures
            r.0 * NANOS_PER_SEC + r.1 == self.view_nanos(),
            0 <= r.1 < NANOS_PER_SEC,
            -MAX_DELTA_SECS <= r.0 <= MAX_DELTA_SECS,
    {
        (self.secs, self.nanos)
    }

    /// The span of `n` nanoseconds.
    pub fn from_total_nanos(n: i128) -> (r: TimeDelta)
        requires
            delta_in_range(n as int),
        ensures
            r.wf(),
            r.view_nanos() == n,
    {
        let b: i128 = 1_000_000_000;
        let shifted: i128 = n + (MAX_DELTA_SECS as i128 + 1) * b;
        let s: i128 = shifted / b;
        let f: i128 = shifted % b;
        TimeDelta { secs: (s - (MAX_DELTA_SECS as i128 + 1)) as i64, nanos: f as i32 }
    }

    pub fn zero() -> (r: TimeDelta)
        ensures
            r.wf(),
            r.view_nanos() == 0,
    {
        TimeDelta { secs: 0, nanos: 0 }
    }

    pub fn seconds(n: i64) -> (r: TimeDelta)
        requires
            -MAX_DELTA_SECS <= n <= MAX_DELTA_SECS,
        ensures
            r.wf(),
            r.view_nanos() == n * NANOS_PER_SEC,
    {
        TimeDelta { secs: n, nanos: 0 }
    }

    pub fn minutes(n: i64) -> (r: TimeDelta)
        requires
            -MAX_DELTA_SECS <= n * 60 <= MAX_DELTA_SECS,
        ensures
            r.wf(),
            r.view_nanos() == n * 60 * NANOS_PER_SEC,
    {
        TimeDelta::seconds(n * 60)
    }

    pub fn hours(n: i64) -> (r: TimeDelta)
        requires
            -MAX_DELTA_SECS <= n * 3600 <= MAX_DELTA_SECS,
        ensures
            r.wf(),
            r.view_nanos() == n * 3600 * NANOS_PER_SEC,
    {
        TimeDelta::seconds(n * 3600)
    }

    pub fn days(n: i64) -> (r: TimeDelta)
        requires
            -MAX_DELTA_SECS <= n * 86400 <= MAX_DELTA_SECS,
        ensures
            r.wf(),
            r.view_nanos() == n * 86400 * NANOS_PER_SEC,
    {
        TimeDelta::seconds(n * 86400)
    }

    pub fn weeks(n: i64) -> (r: TimeDelta)
        requires
            -MAX_DELTA_SECS <= n * 604800 <= MAX_DELTA_SECS,
        ensures
            r.wf(),
            r.view_nanos() == n * 604800 * NANOS_PER_SEC,
    {
        TimeDelta::seconds(n * 604800)
    }

    pub fn milliseconds(n: i64) -> (r: TimeDelta)
        ensures
            r.wf(),
            r.view_nanos() == n * 1_000_000,
    {
        TimeDelta::from_total_nanos(n as i128 * 1_000_000)
    }

    pub fn microseconds(n: i64) -> (r: TimeDelta)
        ensures
            r.wf(),
            r.view_nanos() == n * 1_000,
    {
        TimeDelta::from_total_nanos(n as i128 * 1_000)
    }

    pub fn nanoseconds(n: i64) -> (r: TimeDelta)
        ensures
            r.wf(),
            r.view_nanos() == n,
    {
        TimeDelta::from_total_nanos(n as i128)
    }

    /// The span in nanoseconds.
    pub fn total_nanos(&self) -> (r: i128)
        requires
            self.wf(),
        ensures
            r == self.view_nanos(),
    {
        self.secs as i128 * 1_000_000_000 + self.nanos as i128
    }

    pub fn negated(&self) -> (r: TimeDelta)
        requires
            self.wf(),
        ensures
            r.wf(),
            r.view_nanos() == -self.view_nanos(),
    {
        TimeDelta::from_total_nanos(-self.total_nanos())
    }
}

} // verus!
