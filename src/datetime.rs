use vstd::prelude::*;
use vstd::std_specs::cmp::PartialEqSpec;

use crate::delta::{TimeDelta, NANOS_PER_SEC};
use crate::naive::{
    date_in_range, lemma_shift_back, lemma_shift_zero, reading_at, reading_lt, shift_reading, timeline_end, timeline_nanos, timeline_start,
    NaiveDate, NaiveDateTime, NaiveTime,
};
use crate::offset::{FixedOffset, LocalResult, TimeZone, Utc};

verus! {

/// An instant: a UTC reading together with a time zone and the offset the
/// zone has at that instant.
#[derive(Copy, Debug)]
pub struct DateTime<Tz: TimeZone> {
    utc: NaiveDateTime,
    offset: FixedOffset,
    tz: Tz,
}

/// Whether the UTC reading `u` seen at offset `off` gives a representable
/// wall-clock reading.
pub open spec fn local_ok(u: (int, int, int), off: int) -> bool {
    date_in_range(shift_reading(u, off).0)
}

/// Seconds from 0001-01-01 to 1970-01-01.
pub const UNIX_EPOCH_SECS: i64 = 62_135_596_800;

impl<Tz: TimeZone> View for DateTime<Tz> {
    type V = (int, int, int);

    /// The UTC reading.
    closed spec fn view(&self) -> (int, int, int) {
        self.utc@
    }
}

impl<Tz: TimeZone> DateTime<Tz> {
    #[verifier::type_invariant]
    spec fn inv(self) -> bool {
        &&& self.offset@ == self.tz.spec_offset_at_utc(self.utc@)
        &&& local_ok(self.utc@, self.offset@)
    }

    /// Offset from UTC in seconds.
    pub closed spec fn spec_offset(&self) -> int {
        self.offset@
    }

    pub closed spec fn spec_tz(&self) -> Tz {
        self.tz
    }

    /// The wall-clock reading.
    pub open spec fn spec_local(&self) -> (int, int, int) {
        shift_reading(self@, self.spec_offset())
    }

    /// The instant whose UTC reading is `utc`, in zone `tz`.
    pub fn from_utc(utc: NaiveDateTime, tz: Tz) -> (r: DateTime<Tz>)
        requires
            local_ok(utc@, tz.spec_offset_at_utc(utc@)),
        ensures
            r@ == utc@,
            r.spec_tz() == tz,
            r.spec_offset() == tz.spec_offset_at_utc(utc@),
    {
        let offset = tz.offset_from_utc_datetime(&utc);
        DateTime { utc, offset, tz }
    }

    /// The instant whose UTC reading is `utc`, in zone `tz`, if its
    /// wall-clock reading is representable.
    pub fn from_utc_opt(utc: NaiveDateTime, tz: Tz) -> (r: Option<DateTime<Tz>>)
        ensures
            r is Some <==> local_ok(utc@, tz.spec_offset_at_utc(utc@)),
            r matches Some(v) ==> v@ == utc@ && v.spec_tz() == tz && v.spec_offset()
                == tz.spec_offset_at_utc(utc@),
    {
        let offset = tz.offset_from_utc_datetime(&utc);
        let off = offset.local_minus_utc();
        match utc.checked_add_secs_keep_frac(off as i64) {
            Some(_) => Some(DateTime { utc, offset, tz }),
            None => None,
        }
    }

    pub fn naive_utc(&self) -> (r: NaiveDateTime)
        ensures
            r@ == self@,
    {
        self.utc
    }

    pub fn naive_local(&self) -> (r: NaiveDateTime)
        ensures
            r@ == self.spec_local(),
    {
        proof {
            use_type_invariant(self);
        }
        let off = self.offset.local_minus_utc();
        match self.utc.checked_add_secs_keep_frac(off as i64) {
            Some(v) => v,
            None => self.utc,
        }
    }

    pub fn offset(&self) -> (r: FixedOffset)
        ensures
            r@ == self.spec_offset(),
            r@ == self.spec_tz().spec_offset_at_utc(self@),
    {
        proof {
            use_type_invariant(self);
        }
        self.offset
    }

    pub fn timezone(&self) -> (r: Tz)
        ensures
            r == self.spec_tz(),
    {
        self.tz
    }

    /// The date of the wall-clock reading.
    pub fn date_naive(&self) -> (r: NaiveDate)
        ensures
            r@ == self.spec_local().0,
    {
        self.naive_local().date()
    }

    /// The time of day of the wall-clock reading.
    pub fn time(&self) -> (r: NaiveTime)
        ensures
            r@ == (self.spec_local().1, self.spec_local().2),
    {
        self.naive_local().time()
    }

    /// The same instant in UTC.
    pub fn to_utc(&self) -> (r: DateTime<Utc>)
        ensures
            r@ == self@,
    {
        let (_d, _s, _f) = self.utc.parts();
        proof {
            lemma_shift_zero(self@);
        }
        DateTime::from_utc(self.utc, Utc)
    }

    /// The same instant seen in zone `tz`.
    pub fn with_timezone<Tz2: TimeZone>(&self, tz: &Tz2) -> (r: DateTime<Tz2>)
        requires
            local_ok(self@, tz.spec_offset_at_utc(self@)),
        ensures
            r@ == self@,
            r.spec_tz() == *tz,
    {
        DateTime::from_utc(self.utc, *tz)
    }

    /// The instant `d` later, if it and its wall-clock reading are
    /// representable. The result is never a leap second.
    pub fn checked_add_signed(&self, d: TimeDelta) -> (r: Option<DateTime<Tz>>)
        requires
            d.wf(),
        ensures
            r is Some <==> {
                let t = timeline_nanos(self@.0, self@.1, self@.2) + d.view_nanos();
                timeline_start() <= t < timeline_end() && local_ok(
                    reading_at(t),
                    self.spec_tz().spec_offset_at_utc(reading_at(t)),
                )
            },
            r matches Some(v) ==> timeline_nanos(v@.0, v@.1, v@.2) == timeline_nanos(
                self@.0,
                self@.1,
                self@.2,
            ) + d.view_nanos() && v@.2 < NANOS_PER_SEC && v.spec_tz() == self.spec_tz(),
    {
        match self.utc.checked_add_signed(d) {
            Some(u) => DateTime::from_utc_opt(u, self.tz),
            None => None,
        }
    }

    /// The instant `d` earlier, if it and its wall-clock reading are
    /// representable. The result is never a leap second.
    pub fn checked_sub_signed(&self, d: TimeDelta) -> (r: Option<DateTime<Tz>>)
        requires
            d.wf(),
        ensures
            r is Some <==> {
                let t = timeline_nanos(self@.0, self@.1, self@.2) - d.view_nanos();
                timeline_start() <= t < timeline_end() && local_ok(
                    reading_at(t),
                    self.spec_tz().spec_offset_at_utc(reading_at(t)),
                )
            },
            r matches Some(v) ==> timeline_nanos(v@.0, v@.1, v@.2) == timeline_nanos(
                self@.0,
                self@.1,
                self@.2,
            ) - d.view_nanos() && v@.2 < NANOS_PER_SEC && v.spec_tz() == self.spec_tz(),
    {
        self.checked_add_signed(d.negated())
    }

    /// Elapsed time from `rhs` to `self`, whatever their zones.
    pub fn signed_duration_since<Tz2: TimeZone>(&self, rhs: &DateTime<Tz2>) -> (r: TimeDelta)
        ensures
            r.wf(),
            r.view_nanos() == timeline_nanos(self@.0, self@.1, self@.2) - timeline_nanos(
                rhs@.0,
                rhs@.1,
                rhs@.2,
            ),
    {
        self.utc.signed_duration_since(rhs.utc)
    }

    /// Seconds since 1970-01-01T00:00:00Z, leap seconds not counted.
    pub fn timestamp(&self) -> (r: i64)
        ensures
            r == self@.0 * 86400 + self@.1 - UNIX_EPOCH_SECS,
    {
        let (d, s, _f) = self.utc.parts();
        d * 86400 + s as i64 - UNIX_EPOCH_SECS
    }

    /// Milliseconds of the nanosecond part; 1000 or more during a leap second.
    pub fn timestamp_subsec_millis(&self) -> (r: u32)
        ensures
            r == self@.2 / 1_000_000,
    {
        self.utc.time().nanosecond() / 1_000_000
    }

    /// Microseconds of the nanosecond part; 10^6 or more during a leap second.
    pub fn timestamp_subsec_micros(&self) -> (r: u32)
        ensures
            r == self@.2 / 1_000,
    {
        self.utc.time().nanosecond() / 1_000
    }

    /// The nanosecond part; 10^9 or more during a leap second.
    pub fn timestamp_subsec_nanos(&self) -> (r: u32)
        ensures
            r == self@.2,
    {
        self.utc.time().nanosecond()
    }
}

/// The UTC reading of wall-clock reading `l` taken at offset `o`.
pub open spec fn utc_of(l: (int, int, int), o: int) -> (int, int, int) {
    shift_reading(l, -o)
}

/// Whether the instant of reading `l` at offset `o` is representable in `tz`.
pub open spec fn instant_ok<Tz: TimeZone>(tz: Tz, l: (int, int, int), o: int) -> bool {
    &&& date_in_range(utc_of(l, o).0)
    &&& local_ok(utc_of(l, o), tz.spec_offset_at_utc(utc_of(l, o)))
}

/// Whether every instant that `tz` gives for reading `l` is representable.
pub open spec fn resolution_ok<Tz: TimeZone>(tz: Tz, l: (int, int, int)) -> bool {
    match tz.spec_offsets_at_local(l) {
        LocalResult::Gap => true,
        LocalResult::Single(o) => instant_ok(tz, l, o),
        LocalResult::Ambiguous(a, b) => instant_ok(tz, l, a) && instant_ok(tz, l, b),
    }
}

/// Whether `r` holds the instants of the offsets in `offsets` for reading `l`.
pub open spec fn instants_match<Tz: TimeZone>(
    l: (int, int, int),
    offsets: LocalResult<int>,
    r: LocalResult<DateTime<Tz>>,
) -> bool {
    match (offsets, r) {
        (LocalResult::Gap, LocalResult::Gap) => true,
        (LocalResult::Single(o), LocalResult::Single(x)) => x@ == utc_of(l, o),
        (LocalResult::Ambiguous(a, b), LocalResult::Ambiguous(x, y)) => x@ == utc_of(l, a) && y@
            == utc_of(l, b),
        _ => false,
    }
}

/// The instant of wall-clock reading `local` at offset `o`, in zone `tz`, if
/// representable.
fn instant_at<Tz: TimeZone>(tz: Tz, local: &NaiveDateTime, o: FixedOffset) -> (r: Option<DateTime<Tz>>)
    ensures
        r is Some <==> instant_ok(tz, local@, o@),
        r matches Some(x) ==> x@ == utc_of(local@, o@) && x.spec_tz() == tz && x.spec_offset()
            == tz.spec_offset_at_utc(x@),
{
    let off = o.local_minus_utc();
    match local.checked_add_secs_keep_frac(-(off as i64)) {
        Some(u) => DateTime::from_utc_opt(u, tz),
        None => None,
    }
}

/// The instants that wall-clock reading `local` denotes in zone `tz`; absent
/// where one of them is not representable.
pub fn from_local_datetime<Tz: TimeZone>(tz: &Tz, local: &NaiveDateTime) -> (r: Option<
    LocalResult<DateTime<Tz>>,
>)
    ensures
        r is Some <==> resolution_ok(*tz, local@),
        r matches Some(v) ==> instants_match(local@, tz.spec_offsets_at_local(local@), v),
        r matches Some(v) ==> match v {
            LocalResult::Single(x) => x.spec_tz() == *tz,
            LocalResult::Ambiguous(x, y) => x.spec_tz() == *tz && y.spec_tz() == *tz,
            LocalResult::Gap => true,
        },
        r matches Some(v) ==> match v {
            LocalResult::Single(x) => x.spec_local() == local@,
            LocalResult::Ambiguous(x, y) => x.spec_local() == local@ && y.spec_local() == local@,
            LocalResult::Gap => true,
        },
{
    let _parts = local.parts();
    proof {
        tz.lemma_resolution_consistent(local@);
        match tz.spec_offsets_at_local(local@) {
            LocalResult::Single(o) => lemma_shift_back(local@, -o),
            LocalResult::Ambiguous(a, b) => {
                lemma_shift_back(local@, -a);
                lemma_shift_back(local@, -b);
            },
            LocalResult::Gap => {},
        }
    }
    match tz.offset_from_local_datetime(local) {
        LocalResult::Gap => Some(LocalResult::Gap),
        LocalResult::Single(o) => match instant_at(*tz, local, o) {
            Some(x) => Some(LocalResult::Single(x)),
            None => None,
        },
        LocalResult::Ambiguous(a, b) => match (instant_at(*tz, local, a), instant_at(*tz, local, b)) {
            (Some(x), Some(y)) => Some(LocalResult::Ambiguous(x, y)),
            _ => None,
        },
    }
}

/// Two instants at the same moment are equal and no time passes between
/// them, whatever zones they are seen in.
pub proof fn lemma_same_moment<Tz: TimeZone, Tz2: TimeZone>(a: DateTime<Tz>, b: DateTime<Tz2>)
    requires
        a@ == b@,
    ensures
        a.eq_spec(&b),
        b.eq_spec(&a),
        timeline_nanos(a@.0, a@.1, a@.2) - timeline_nanos(b@.0, b@.1, b@.2) == 0,
{
}

impl DateTime<FixedOffset> {
    /// The instant whose wall-clock reading at `offset` is `local`.
    pub fn from_local(local: NaiveDateTime, offset: FixedOffset) -> (r: DateTime<FixedOffset>)
        requires
            date_in_range(shift_reading(local@, -offset@).0),
        ensures
            r@ == shift_reading(local@, -offset@),
            r.spec_tz() == offset,
            r.spec_offset() == offset@,
    {
        let off = offset.local_minus_utc();
        let _parts = local.parts();
        match local.checked_add_secs_keep_frac(-(off as i64)) {
            Some(u) => {
                proof {
                    lemma_shift_back(local@, -offset@);
                }
                DateTime::from_utc(u, offset)
            },
            None => {
                proof {
                    assert(false);
                }
                DateTime::from_utc(local, offset)
            },
        }
    }
}

impl<Tz: TimeZone, Tz2: TimeZone> PartialEq<DateTime<Tz2>> for DateTime<Tz> {
    /// Instants are equal when they are the same moment, whatever their zones.
    fn eq(&self, other: &DateTime<Tz2>) -> (r: bool) {
        let a = self.utc.parts();
        let b = other.utc.parts();
        a.0 == b.0 && a.1 == b.1 && a.2 == b.2
    }
}

/// Order of UTC readings: by date, then second, then nanosecond.
pub open spec fn reading_cmp(a: (int, int, int), b: (int, int, int)) -> core::cmp::Ordering {
    if reading_lt(a, b) {
        core::cmp::Ordering::Less
    } else if a == b {
        core::cmp::Ordering::Equal
    } else {
        core::cmp::Ordering::Greater
    }
}

impl<Tz: TimeZone, Tz2: TimeZone> PartialOrd<DateTime<Tz2>> for DateTime<Tz> {
    /// Instants are ordered on the UTC timeline, whatever their zones.
    fn partial_cmp(&self, other: &DateTime<Tz2>) -> (r: Option<core::cmp::Ordering>) {
        let a = self.utc.parts();
        let b = other.utc.parts();
        if a.0 < b.0 || (a.0 == b.0 && (a.1 < b.1 || (a.1 == b.1 && a.2 < b.2))) {
            Some(core::cmp::Ordering::Less)
        } else if a.0 == b.0 && a.1 == b.1 && a.2 == b.2 {
            Some(core::cmp::Ordering::Equal)
        } else {
            Some(core::cmp::Ordering::Greater)
        }
    }
}

impl<Tz: TimeZone, Tz2: TimeZone> vstd::std_specs::cmp::PartialOrdSpecImpl<DateTime<Tz2>> for DateTime<Tz> {
    open spec fn obeys_partial_cmp_spec() -> bool {
        true
    }

    open spec fn partial_cmp_spec(&self, other: &DateTime<Tz2>) -> Option<core::cmp::Ordering> {
        Some(reading_cmp(self@, other@))
    }
}

impl<Tz: TimeZone> Clone for DateTime<Tz> {
    fn clone(&self) -> (r: Self)
        ensures
            r == *self,
    {
        *self
    }
}

impl<Tz: TimeZone, Tz2: TimeZone> vstd::std_specs::cmp::PartialEqSpecImpl<DateTime<Tz2>> for DateTime<Tz> {
    open spec fn obeys_eq_spec() -> bool {
        true
    }

    open spec fn eq_spec(&self, other: &DateTime<Tz2>) -> bool {
        self@ == other@
    }
}

} // verus!
