//! Instants and their texts.
use vstd::prelude::*;

use crate::text::is_trimmed;

verus! {

/// A completed task is hidden after this many days.
pub const HIDE_COMPLETED_AFTER_DAYS: i64 = 14;

/// The seconds of a day.
pub const DAY_SECONDS: i64 = 86_400;

/// The nanoseconds of a second.
pub const SECOND_NANOS: u32 = 1_000_000_000;

/// The first and the last second that an instant can have.
pub const MIN_SECONDS: i64 = -8_334_601_228_800;

pub const MAX_SECONDS: i64 = 8_210_266_876_799;

/// The first and the last second of the years 0 to 9999.
pub const FIRST_YEAR_SECONDS: i64 = -62_167_219_200;

pub const LAST_YEAR_SECONDS: i64 = 253_402_300_799;

/// An instant: the seconds since the beginning of 1970 in UTC, and nanoseconds.
/// In a leap second these go beyond a second.
#[derive(Debug, Clone, Copy, PartialEq, Eq, Structural)]
pub struct UtcInstant {
    pub secs: i64,
    pub nanos: u32,
}

/// Whether nanoseconds are those of a second, or of a leap second at the end of a minute.
pub open spec fn valid_nanos(secs: int, nanos: int) -> bool {
    0 <= nanos < SECOND_NANOS || (secs % 60 == 59 && SECOND_NANOS <= nanos < 2 * SECOND_NANOS)
}

impl UtcInstant {
    /// Whether the instant can be had.
    pub open spec fn wf(self) -> bool {
        MIN_SECONDS <= self.secs <= MAX_SECONDS && valid_nanos(self.secs as int, self.nanos as int)
    }

    /// Whether one instant comes before another.
    pub open spec fn before(self, other: UtcInstant) -> bool {
        self.secs < other.secs || (self.secs == other.secs && self.nanos < other.nanos)
    }

    /// The second that the instant belongs to, days earlier; a leap second
    /// counts as the one that follows.
    pub open spec fn days_earlier(self, days: int) -> (int, int) {
        if self.nanos >= SECOND_NANOS {
            (self.secs + 1 - days * DAY_SECONDS, self.nanos - SECOND_NANOS)
        } else {
            (self.secs - days * DAY_SECONDS, self.nanos as int)
        }
    }

    /// Whether there is an instant two weeks earlier.
    pub open spec fn has_cutoff(self) -> bool {
        self.wf() && self.days_earlier(HIDE_COMPLETED_AFTER_DAYS as int).0 >= MIN_SECONDS
    }

    /// The instant two weeks earlier.
    pub open spec fn cutoff_spec(self) -> UtcInstant {
        let earlier = self.days_earlier(HIDE_COMPLETED_AFTER_DAYS as int);
        UtcInstant { secs: earlier.0 as i64, nanos: earlier.1 as u32 }
    }

    /// The instant two weeks earlier.
    pub fn cutoff(self) -> (r: UtcInstant)
        requires
            self.has_cutoff(),
        ensures
            r == self.cutoff_spec(),
            r.wf(),
    {
        let back: i64 = HIDE_COMPLETED_AFTER_DAYS * DAY_SECONDS;
        if self.nanos >= SECOND_NANOS {
            UtcInstant { secs: self.secs + 1 - back, nanos: self.nanos - SECOND_NANOS }
        } else {
            UtcInstant { secs: self.secs - back, nanos: self.nanos }
        }
    }

    /// Whether one instant comes before another.
    pub fn is_before(self, other: UtcInstant) -> (r: bool)
        ensures
            r == self.before(other),
    {
        self.secs < other.secs || (self.secs == other.secs && self.nanos < other.nanos)
    }
}

/// An instant with an offset from UTC in seconds.
#[derive(Debug, Clone, Copy, PartialEq, Eq, Structural)]
pub struct OffsetInstant {
    pub secs: i64,
    pub nanos: u32,
    pub offset: i32,
}

impl OffsetInstant {
    /// Whether a text can state the instant: less than a day from UTC, by
    /// whole minutes, in one of the years 0 to 9999 where it is stated.
    pub open spec fn wf(self) -> bool {
        &&& -DAY_SECONDS < self.offset < DAY_SECONDS
        &&& self.offset as int % 60 == 0
        &&& FIRST_YEAR_SECONDS <= self.secs + self.offset <= LAST_YEAR_SECONDS
        &&& valid_nanos(self.secs as int, self.nanos as int)
    }

    /// The instant in UTC.
    pub open spec fn utc_spec(self) -> UtcInstant {
        UtcInstant { secs: self.secs, nanos: self.nanos }
    }

    /// The instant in UTC.
    pub fn utc(self) -> (r: UtcInstant)
        ensures
            r == self.utc_spec(),
    {
        UtcInstant { secs: self.secs, nanos: self.nanos }
    }
}

/// What `DateTime::parse_from_rfc3339` reads in a text.
pub uninterp spec fn rfc3339(text: Seq<char>) -> Option<OffsetInstant>;

/// How `DateTime::to_rfc3339` states an instant with an offset.
pub uninterp spec fn rfc3339_of(secs: int, nanos: int, offset: int) -> Seq<char>;

/// How `DateTime::to_rfc3339_opts` states an instant in UTC, to the second.
pub uninterp spec fn utc_second_of(secs: int, nanos: int) -> Seq<char>;

/// Calls `Utc::now` of `chrono`: an instant after the beginning of 1970, in
/// no leap second.
#[verifier::external_body]
fn utc_now() -> (r: UtcInstant)
    ensures
        0 <= r.secs <= MAX_SECONDS,
        r.nanos < SECOND_NANOS,
{
    let now = chrono::Utc::now();
    UtcInstant { secs: now.timestamp(), nanos: now.timestamp_subsec_nanos() }
}

/// Calls `DateTime::parse_from_rfc3339` of `chrono`: the instant that the text
/// states, which is named `rfc3339`. A year has four digits and an offset is
/// given in hours and minutes, which bounds both.
#[verifier::external_body]
pub(crate) fn parse_rfc3339(text: &str) -> (r: Option<OffsetInstant>)
    ensures
        r == rfc3339(text@),
        r matches Some(instant) ==> instant.wf(),
{
    let d = chrono::DateTime::parse_from_rfc3339(text).ok()?;
    Some(
        OffsetInstant {
            secs: d.timestamp(),
            nanos: d.timestamp_subsec_nanos(),
            offset: d.offset().local_minus_utc(),
        },
    )
}

/// Calls `DateTime::to_rfc3339` of `chrono`: the text that it states an
/// instant by, which is named `rfc3339_of`. It has no whitespace at its ends,
/// and is read back as that instant.
#[verifier::external_body]
pub(crate) fn format_rfc3339(instant: OffsetInstant) -> (r: String)
    requires
        instant.wf(),
    ensures
        r@ == rfc3339_of(instant.secs as int, instant.nanos as int, instant.offset as int),
        rfc3339(r@) == Some(instant),
        r@.len() > 0 && is_trimmed(r@),
{
    let offset = chrono::FixedOffset::east_opt(instant.offset).unwrap();
    let utc = chrono::DateTime::from_timestamp(instant.secs, instant.nanos).unwrap();
    utc.with_timezone(&offset).to_rfc3339()
}

/// Calls `DateTime::to_rfc3339_opts` of `chrono` for an instant in UTC, to the
/// second and with a `Z`: the text is named `utc_second_of`. It has no
/// whitespace at its ends. Within the years 0 to 9999, and outside of leap
/// seconds, it is read back as the second of that instant.
#[verifier::external_body]
fn format_utc_second(instant: UtcInstant) -> (r: String)
    requires
        instant.wf(),
    ensures
        r@ == utc_second_of(instant.secs as int, instant.nanos as int),
        r@.len() > 0 && is_trimmed(r@),
        FIRST_YEAR_SECONDS <= instant.secs <= LAST_YEAR_SECONDS && instant.nanos < SECOND_NANOS
            ==> rfc3339(r@) == Some(OffsetInstant { secs: instant.secs, nanos: 0, offset: 0 }),
{
    let utc = chrono::DateTime::from_timestamp(instant.secs, instant.nanos).unwrap();
    utc.to_rfc3339_opts(chrono::SecondsFormat::Secs, true)
}

/// The present instant.
pub fn current_instant() -> (r: UtcInstant)
    ensures
        r.has_cutoff(),
        0 <= r.secs,
        r.nanos < SECOND_NANOS,
{
    utc_now()
}

/// What is stored for an instant: its second, in UTC.
pub fn timestamp(instant: UtcInstant) -> (r: String)
    requires
        instant.wf(),
    ensures
        r@ == utc_second_of(instant.secs as int, instant.nanos as int),
        r@.len() > 0 && is_trimmed(r@),
        FIRST_YEAR_SECONDS <= instant.secs <= LAST_YEAR_SECONDS && instant.nanos < SECOND_NANOS
            ==> rfc3339(r@) == Some(OffsetInstant { secs: instant.secs, nanos: 0, offset: 0 }),
{
    format_utc_second(instant)
}

/// Whether something completed at the instant that `completed_at` states, if
/// it states one, was completed more than two weeks before `now`.
pub open spec fn long_done(completed_at: Option<OffsetInstant>, now: UtcInstant) -> bool {
    match completed_at {
        Some(instant) => instant.utc_spec().before(now.cutoff_spec()),
        None => false,
    }
}

/// Whether something completed at an instant was completed more than two weeks
/// before `now`.
pub fn is_long_done(completed_at: Option<OffsetInstant>, now: UtcInstant) -> (r: bool)
    requires
        now.has_cutoff(),
    ensures
        r == long_done(completed_at, now),
{
    match completed_at {
        Some(instant) => instant.utc().is_before(now.cutoff()),
        None => false,
    }
}

/// What was completed within the last two weeks, to the second, is not long
/// done; what was completed before that is.
pub proof fn law_long_done_after_two_weeks(completed: OffsetInstant, now: UtcInstant)
    requires
        completed.wf(),
        now.has_cutoff(),
        now.nanos < SECOND_NANOS,
    ensures
        now.secs - completed.secs < 14 * 24 * 60 * 60 ==> !long_done(
            Some(completed),
            now,
        ),
        now.secs - completed.secs > 14 * 24 * 60 * 60 ==> long_done(
            Some(completed),
            now,
        ),
        !long_done(None, now),
{
}

/// What is long done stays so.
pub proof fn law_long_done_stays(completed: Option<OffsetInstant>, now: UtcInstant, later: UtcInstant)
    requires
        now.has_cutoff(),
        later.has_cutoff(),
        now.nanos < SECOND_NANOS,
        now.before(later),
        long_done(completed, now),
    ensures
        long_done(completed, later),
{
}

/// Two weeks are counted to the nanosecond.
pub proof fn law_two_weeks_to_the_nanosecond(completed: OffsetInstant, now: UtcInstant)
    requires
        completed.wf(),
        now.has_cutoff(),
        now.nanos < SECOND_NANOS,
        now.secs - completed.secs == 14 * 24 * 60 * 60,
    ensures
        long_done(Some(completed), now) <==> completed.nanos < now.nanos,
{
}

/// Of two instants that differ, one comes before the other, and not the other way
/// round; what comes before what comes before a third comes before that.
pub proof fn law_instants_are_ordered(a: UtcInstant, b: UtcInstant, c: UtcInstant)
    ensures
        a != b ==> (a.before(b) <==> !b.before(a)),
        !a.before(a),
        a.before(b) && b.before(c) ==> a.before(c),
        a.secs < b.secs ==> a.before(b),
{
}

} // verus!
