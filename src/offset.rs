use vstd::prelude::*;

use crate::naive::{date_in_range, shift_reading, timeline_nanos, NaiveDateTime};

verus! {

/// An offset from UTC in seconds, east positive, less than a day either way.
#[derive(Clone, Copy, Debug, PartialEq, Eq, Structural)]
pub struct FixedOffset {
    local_minus_utc: i32,
}

/// The UTC time zone.
#[derive(Clone, Copy, Debug, PartialEq, Eq, Structural)]
pub struct Utc;

/// What a wall-clock reading denotes in a time zone: nothing (it falls in a
/// gap), one instant, or two (it falls in an overlap).
#[derive(Clone, Copy, Debug, PartialEq, Eq)]
pub enum LocalResult<T> {
    /// The reading falls in a gap and denotes no instant.
    Gap,
    Single(T),
    Ambiguous(T, T),
}

impl<T> LocalResult<T> {
    /// The instant of a result known to be unambiguous.
    pub fn unwrap(self) -> (r: T)
        requires
            self is Single,
        ensures
            self == LocalResult::Single(r),
    {
        self.single().unwrap()
    }

    /// The instant of an unambiguous result.
    pub fn single(self) -> (r: Option<T>)
        ensures
            r == (match self {
                LocalResult::Single(v) => Some(v),
                _ => None,
            }),
    {
        match self {
            LocalResult::Single(v) => Some(v),
            _ => None,
        }
    }
}

pub open spec fn offset_valid(secs: int) -> bool {
    -86400 < secs < 86400
}

impl View for FixedOffset {
    type V = int;

    closed spec fn view(&self) -> int {
        self.local_minus_utc as int
    }
}

impl FixedOffset {
    #[verifier::type_invariant]
    spec fn inv(self) -> bool {
        offset_valid(self.local_minus_utc as int)
    }

    /// The offset `secs` seconds east of UTC.
    pub fn east_opt(secs: i32) -> (r: Option<FixedOffset>)
        ensures
            r is Some <==> offset_valid(secs as int),
            r matches Some(o) ==> o@ == secs,
    {
        if -86400 < secs && secs < 86400 {
            Some(FixedOffset { local_minus_utc: secs })
        } else {
            None
        }
    }

    /// The offset `secs` seconds west of UTC.
    pub fn west_opt(secs: i32) -> (r: Option<FixedOffset>)
        ensures
            r is Some <==> offset_valid(secs as int),
            r matches Some(o) ==> o@ == -secs,
    {
        if -86400 < secs && secs < 86400 {
            Some(FixedOffset { local_minus_utc: -secs })
        } else {
            None
        }
    }

    pub fn local_minus_utc(&self) -> (r: i32)
        ensures
            r == self@,
            offset_valid(r as int),
    {
        proof {
            use_type_invariant(self);
        }
        self.local_minus_utc
    }

    pub fn utc_minus_local(&self) -> (r: i32)
        ensures
            r == -self@,
    {
        -self.local_minus_utc()
    }
}

/// The offsets of a resolution, in seconds.
pub open spec fn offsets_view(r: LocalResult<FixedOffset>) -> LocalResult<int> {
    match r {
        LocalResult::Gap => LocalResult::Gap,
        LocalResult::Single(a) => LocalResult::Single(a@),
        LocalResult::Ambiguous(a, b) => LocalResult::Ambiguous(a@, b@),
    }
}

/// A rule that gives the offset from UTC at each instant, and the offsets a
/// wall-clock reading may have been taken at.
pub trait TimeZone: Sized + Copy {
    /// Offset in effect at the UTC reading `utc`.
    spec fn spec_offset_at_utc(&self, utc: (int, int, int)) -> int;

    /// Offsets under which the wall-clock reading `local` occurs.
    spec fn spec_offsets_at_local(&self, local: (int, int, int)) -> LocalResult<int>;

    /// Whether this is the UTC zone itself, which is written `UTC` or `Z`.
    spec fn spec_is_utc(&self) -> bool;

    fn offset_from_utc_datetime(&self, utc: &NaiveDateTime) -> (r: FixedOffset)
        ensures
            r@ == self.spec_offset_at_utc(utc@),
    ;

    fn offset_from_local_datetime(&self, local: &NaiveDateTime) -> (r: LocalResult<FixedOffset>)
        ensures
            offsets_view(r) == self.spec_offsets_at_local(local@),
            r matches LocalResult::Ambiguous(a, b) ==> a@ != b@,
    ;

    fn is_utc(&self) -> (r: bool)
        ensures
            r == self.spec_is_utc(),
    ;

    /// The two offsets of an ambiguous reading differ.
    /// Each offset a reading resolves to is the offset in effect at the
    /// instant it gives.
    proof fn lemma_resolution_consistent(&self, local: (int, int, int))
        ensures
            match self.spec_offsets_at_local(local) {
                LocalResult::Single(o) => self.spec_offset_at_utc(shift_reading(local, -o)) == o,
                LocalResult::Ambiguous(a, b) => self.spec_offset_at_utc(shift_reading(local, -a)) == a
                    && self.spec_offset_at_utc(shift_reading(local, -b)) == b,
                LocalResult::Gap => true,
            },
    ;

    proof fn lemma_ambiguous_offsets_differ(&self, local: (int, int, int))
        ensures
            self.spec_offsets_at_local(local) matches LocalResult::Ambiguous(a, b) ==> a != b,
    ;
}

impl TimeZone for Utc {
    open spec fn spec_offset_at_utc(&self, utc: (int, int, int)) -> int {
        0
    }

    open spec fn spec_offsets_at_local(&self, local: (int, int, int)) -> LocalResult<int> {
        LocalResult::Single(0)
    }

    open spec fn spec_is_utc(&self) -> bool {
        true
    }

    fn offset_from_utc_datetime(&self, utc: &NaiveDateTime) -> (r: FixedOffset) {
        FixedOffset { local_minus_utc: 0 }
    }

    fn offset_from_local_datetime(&self, local: &NaiveDateTime) -> (r: LocalResult<FixedOffset>) {
        LocalResult::Single(FixedOffset { local_minus_utc: 0 })
    }

    fn is_utc(&self) -> (r: bool) {
        true
    }

    proof fn lemma_ambiguous_offsets_differ(&self, local: (int, int, int)) {
    }

    proof fn lemma_resolution_consistent(&self, local: (int, int, int)) {
    }
}

impl TimeZone for FixedOffset {
    open spec fn spec_offset_at_utc(&self, utc: (int, int, int)) -> int {
        self@
    }

    open spec fn spec_offsets_at_local(&self, local: (int, int, int)) -> LocalResult<int> {
        LocalResult::Single(self@)
    }

    open spec fn spec_is_utc(&self) -> bool {
        false
    }

    fn offset_from_utc_datetime(&self, utc: &NaiveDateTime) -> (r: FixedOffset) {
        *self
    }

    fn offset_from_local_datetime(&self, local: &NaiveDateTime) -> (r: LocalResult<FixedOffset>) {
        LocalResult::Single(*self)
    }

    fn is_utc(&self) -> (r: bool) {
        false
    }

    proof fn lemma_ambiguous_offsets_differ(&self, local: (int, int, int)) {
    }

    proof fn lemma_resolution_consistent(&self, local: (int, int, int)) {
    }
}

/// A zone whose offset changes once: `before` until the UTC reading `at`,
/// `after` from then on. Moving the clocks back leaves an overlap of
/// readings that occur twice; moving them forward, a gap of readings that
/// never occur.
#[derive(Clone, Copy, Debug, PartialEq, Eq, Structural)]
pub struct TransitionZone {
    before: FixedOffset,
    after: FixedOffset,
    at: NaiveDateTime,
}

/// Timeline position of a reading.
pub open spec fn position(v: (int, int, int)) -> int {
    timeline_nanos(v.0, v.1, v.2)
}

/// Whether wall-clock reading `l` occurs at offset `o` while that offset is
/// in effect: on `o`'s side of the UTC reading `at`.
pub open spec fn occurs_at(l: (int, int, int), o: int, at: (int, int, int), early: bool) -> bool {
    &&& date_in_range(shift_reading(l, -o).0)
    &&& if early {
        position(shift_reading(l, -o)) < position(at)
    } else {
        position(shift_reading(l, -o)) >= position(at)
    }
}

impl TransitionZone {
    pub fn new(before: FixedOffset, after: FixedOffset, at: NaiveDateTime) -> (r: TransitionZone)
        ensures
            r.spec_before() == before@,
            r.spec_after() == after@,
            r.spec_at() == at@,
    {
        TransitionZone { before, after, at }
    }

    pub closed spec fn spec_before(&self) -> int {
        self.before@
    }

    pub closed spec fn spec_after(&self) -> int {
        self.after@
    }

    /// The UTC reading at which the offset changes.
    pub closed spec fn spec_at(&self) -> (int, int, int) {
        self.at@
    }

    /// Whether `l` occurs at `o` on the given side of the change.
    fn occurs(&self, l: &NaiveDateTime, o: FixedOffset, early: bool) -> (r: bool)
        ensures
            r == occurs_at(l@, o@, self.at@, early),
    {
        let off = o.local_minus_utc();
        match l.checked_add_secs_keep_frac(-(off as i64)) {
            Some(u) => if early {
                u.timeline() < self.at.timeline()
            } else {
                u.timeline() >= self.at.timeline()
            },
            None => false,
        }
    }
}

impl TimeZone for TransitionZone {
    open spec fn spec_offset_at_utc(&self, utc: (int, int, int)) -> int {
        if position(utc) < position(self.spec_at()) {
            self.spec_before()
        } else {
            self.spec_after()
        }
    }

    /// Both offsets where the reading occurs on both sides of the change,
    /// the earlier instant first.
    open spec fn spec_offsets_at_local(&self, local: (int, int, int)) -> LocalResult<int> {
        let b = occurs_at(local, self.spec_before(), self.spec_at(), true);
        let a = occurs_at(local, self.spec_after(), self.spec_at(), false);
        if b && a {
            LocalResult::Ambiguous(self.spec_before(), self.spec_after())
        } else if b {
            LocalResult::Single(self.spec_before())
        } else if a {
            LocalResult::Single(self.spec_after())
        } else {
            LocalResult::Gap
        }
    }

    open spec fn spec_is_utc(&self) -> bool {
        false
    }

    fn offset_from_utc_datetime(&self, utc: &NaiveDateTime) -> (r: FixedOffset) {
        if utc.timeline() < self.at.timeline() {
            self.before
        } else {
            self.after
        }
    }

    fn offset_from_local_datetime(&self, local: &NaiveDateTime) -> (r: LocalResult<FixedOffset>) {
        let b = self.occurs(local, self.before, true);
        let a = self.occurs(local, self.after, false);
        if b && a {
            LocalResult::Ambiguous(self.before, self.after)
        } else if b {
            LocalResult::Single(self.before)
        } else if a {
            LocalResult::Single(self.after)
        } else {
            LocalResult::Gap
        }
    }

    fn is_utc(&self) -> (r: bool) {
        false
    }

    proof fn lemma_ambiguous_offsets_differ(&self, local: (int, int, int)) {
    }

    proof fn lemma_resolution_consistent(&self, local: (int, int, int)) {
    }
}

} // verus!
