use vstd::prelude::*;

use std::time::{Duration, SystemTime, UNIX_EPOCH};

use crate::datetime::{DateTime, UNIX_EPOCH_SECS};
use crate::day::Day;
use crate::naive::{lemma_shift_zero, reading_at, timeline_end, timeline_start, NaiveDateTime};
use crate::offset::Utc;

verus! {

#[verifier::external_type_specification]
#[verifier::external_body]
pub struct ExSystemTime(std::time::SystemTime);

/// Relies on `SystemTime::now`: the wall clock of the machine.
#[verifier::external_body]
fn system_now() -> SystemTime {
    SystemTime::now()
}

/// Relies on `SystemTime::duration_since(UNIX_EPOCH)`: the span between the
/// epoch and `t` as whole seconds and nanoseconds below a second, and
/// whether `t` lies before the epoch.
#[verifier::external_body]
fn since_epoch(t: &SystemTime) -> (r: (bool, u64, u32))
    ensures
        r.2 < 1_000_000_000,
{
    match t.duration_since(UNIX_EPOCH) {
        Ok(d) => (false, d.as_secs(), d.subsec_nanos()),
        Err(e) => (true, e.duration().as_secs(), e.duration().subsec_nanos()),
    }
}

/// Relies on `SystemTime::checked_sub` with `Duration::new(secs, 0)`: the
/// epoch `secs` seconds earlier, absent where the platform's clock cannot
/// hold it.
#[verifier::external_body]
fn epoch_minus(secs: u64) -> Option<SystemTime> {
    UNIX_EPOCH.checked_sub(Duration::new(secs, 0))
}

/// Relies on `SystemTime::checked_add` with `Duration::new(secs, nanos)`:
/// `t` that much later, absent where the platform's clock cannot hold it.
/// `Duration::new` panics only where carrying the nanoseconds overflows the
/// seconds.
#[verifier::external_body]
fn time_plus(t: &SystemTime, secs: u64, nanos: u32) -> Option<SystemTime>
    requires
        secs < 10_000_000_000_000,
{
    t.checked_add(Duration::new(secs, nanos))
}

/// Nanoseconds from the epoch of a clock reading: `secs` seconds and
/// `nanos` nanoseconds after it, or before it when `before` is set.
pub open spec fn unix_nanos(before: bool, secs: int, nanos: int) -> int {
    if before {
        -(secs * 1_000_000_000 + nanos)
    } else {
        secs * 1_000_000_000 + nanos
    }
}

/// The representable timeline position nearest to `t`.
pub open spec fn clamp_timeline(t: int) -> int {
    if t < timeline_start() {
        timeline_start()
    } else if t >= timeline_end() {
        timeline_end() - 1
    } else {
        t
    }
}

impl DateTime<Utc> {
    /// The instant `secs` seconds and `nanos` nanoseconds after the epoch
    /// (before it when `before` is set), saturated at the representable
    /// range.
    pub fn from_unix_parts(before: bool, secs: u64, nanos: u32) -> (r: DateTime<Utc>)
        requires
            nanos < 1_000_000_000,
        ensures
            r@ == reading_at(
                clamp_timeline(
                    UNIX_EPOCH_SECS * 1_000_000_000 + unix_nanos(before, secs as int, nanos as int),
                ),
            ),
    {
        let n: i128 = secs as i128 * 1_000_000_000 + nanos as i128;
        let t: i128 = if before {
            UNIX_EPOCH_SECS as i128 * 1_000_000_000 - n
        } else {
            UNIX_EPOCH_SECS as i128 * 1_000_000_000 + n
        };
        let lo: i128 = NaiveDateTime::timeline_first();
        let hi: i128 = NaiveDateTime::timeline_after_last();
        let c: i128 = if t < lo {
            lo
        } else if t >= hi {
            hi - 1
        } else {
            t
        };
        let v = NaiveDateTime::from_timeline(c);
        let _parts = v.parts();
        proof {
            lemma_shift_zero(v@);
        }
        DateTime::from_utc(v, Utc)
    }

    /// The instant a clock reading denotes, saturated at the representable
    /// range.
    pub fn from_system_time(t: SystemTime) -> (r: DateTime<Utc>)
        ensures
            exists|before: bool, secs: u64, nanos: u32|
                nanos < 1_000_000_000 && r@ == reading_at(
                    clamp_timeline(
                        UNIX_EPOCH_SECS * 1_000_000_000 + unix_nanos(
                            before,
                            secs as int,
                            nanos as int,
                        ),
                    ),
                ),
    {
        let (before, secs, nanos) = since_epoch(&t);
        DateTime::from_unix_parts(before, secs, nanos)
    }
}

impl Utc {
    /// The instant the machine's clock shows, saturated at the representable
    /// range.
    pub fn now() -> (r: DateTime<Utc>)
        ensures
            exists|before: bool, secs: u64, nanos: u32|
                nanos < 1_000_000_000 && r@ == reading_at(
                    clamp_timeline(
                        UNIX_EPOCH_SECS * 1_000_000_000 + unix_nanos(
                            before,
                            secs as int,
                            nanos as int,
                        ),
                    ),
                ),
    {
        DateTime::from_system_time(system_now())
    }

    /// The UTC date the machine's clock shows, saturated at the
    /// representable range.
    pub fn today() -> (r: Day<Utc>)
        ensures
            r.spec_tz() == Utc,
            exists|before: bool, secs: u64, nanos: u32|
                nanos < 1_000_000_000 && r.spec_date() == reading_at(
                    clamp_timeline(
                        UNIX_EPOCH_SECS * 1_000_000_000 + unix_nanos(
                            before,
                            secs as int,
                            nanos as int,
                        ),
                    ),
                ).0,
    {
        let now = Utc::now();
        let _parts = now.naive_utc().parts();
        let _off = now.offset();
        proof {
            lemma_shift_zero(now@);
        }
        Day::from_datetime(now)
    }
}

/// Seconds since 1970-01-01T00:00:00Z of a UTC reading, leap seconds not
/// counted.
pub open spec fn unix_seconds(u: (int, int, int)) -> int {
    u.0 * 86400 + u.1 - UNIX_EPOCH_SECS
}

impl<Tz: crate::offset::TimeZone> DateTime<Tz> {
    /// What the clock reading of this instant is built from: whole seconds
    /// to go back from the epoch, whole seconds to go forward after that,
    /// and the nanosecond part (10^9 or more during a leap second).
    pub fn unix_parts(&self) -> (r: (u64, u64, u32))
        ensures
            r.0 == (if unix_seconds(self@) < 0 { -unix_seconds(self@) } else { 0 }),
            r.1 == (if unix_seconds(self@) >= 0 { unix_seconds(self@) } else { 0 }),
            r.2 == self@.2,
            r.1 < 10_000_000_000_000,
    {
        let ts = self.timestamp();
        let nanos = self.timestamp_subsec_nanos();
        let _parts = self.naive_utc().parts();
        if ts >= 0 {
            (0, ts as u64, nanos)
        } else {
            ((-ts) as u64, 0, nanos)
        }
    }

    /// The clock reading of this instant: the epoch, moved back by the first
    /// and forward by the second and third of `unix_parts`; a leap second
    /// reads as the second after it. Absent where the platform's clock cannot
    /// hold the instant.
    pub fn to_system_time(&self) -> Option<SystemTime> {
        let (back, fwd, nanos) = self.unix_parts();
        match epoch_minus(back) {
            Some(t) => time_plus(&t, fwd, nanos),
            None => None,
        }
    }
}

} // verus!
