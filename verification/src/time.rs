//! Instants in UTC, held as seconds and nanoseconds since the Unix epoch, with
//! the proleptic Gregorian calendar that `chrono` uses for them.

use chrono::Datelike;
use chrono::TimeZone;
use vstd::prelude::*;

verus! {

/// The earliest year that `chrono` represents.
pub const MIN_UTC_YEAR: i32 = -262143i32;

/// The latest year that `chrono` represents.
pub const MAX_UTC_YEAR: i32 = 262142i32;

/// Whether `y` is a leap year of the proleptic Gregorian calendar.
pub open spec fn is_leap_year(y: int) -> bool {
    (y % 4 == 0 && y % 100 != 0) || y % 400 == 0
}

/// The number of days of month `m` (1 to 12) of year `y`.
pub open spec fn days_in_month(y: int, m: int) -> int {
    if m == 2 {
        if is_leap_year(y) {
            29
        } else {
            28
        }
    } else if m == 4 || m == 6 || m == 9 || m == 11 {
        30
    } else {
        31
    }
}

/// The number of days from 1970-01-01 to the date `y`-`m`-`d` of the
/// proleptic Gregorian calendar (negative before it).
pub open spec fn days_from_civil(y: int, m: int, d: int) -> int {
    let yy = if m <= 2 {
        y - 1
    } else {
        y
    };
    let era = yy / 400;
    let yoe = yy - era * 400;
    let mp = if m > 2 {
        m - 3
    } else {
        m + 9
    };
    let doy = (153 * mp + 2) / 5 + d - 1;
    let doe = yoe * 365 + yoe / 4 - yoe / 100 + doy;
    era * 146097 + doe - 719468
}

/// The Unix time of the first second of year `y`.
pub open spec fn year_start(y: int) -> int {
    days_from_civil(y, 1, 1) * 86400
}

/// Whether `chrono` holds the instant `secs` seconds and `nsecs` nanoseconds
/// after the epoch as a `DateTime<Utc>`: its year is in range and `nsecs` is a
/// fraction of a second, or of a leap second when the second is the 59th of
/// its minute.
pub open spec fn utc_valid(secs: int, nsecs: int) -> bool {
    &&& year_start(MIN_UTC_YEAR as int) <= secs < year_start(MAX_UTC_YEAR + 1)
    &&& 0 <= nsecs < 2_000_000_000
    &&& (nsecs >= 1_000_000_000 ==> secs % 60 == 59)
}

/// Whether year, month, day, hour, minute and second name an instant that
/// `chrono` holds.
pub open spec fn ymdhms_valid(y: int, mo: int, d: int, h: int, mi: int, s: int) -> bool {
    &&& MIN_UTC_YEAR <= y <= MAX_UTC_YEAR
    &&& 1 <= mo <= 12
    &&& 1 <= d <= days_in_month(y, mo)
    &&& 0 <= h < 24
    &&& 0 <= mi < 60
    &&& 0 <= s < 60
}

/// The Unix time of that date and time.
pub open spec fn ymdhms_secs(y: int, mo: int, d: int, h: int, mi: int, s: int) -> int {
    days_from_civil(y, mo, d) * 86400 + h * 3600 + mi * 60 + s
}

/// The nanoseconds since the epoch of an instant, when they fit in an `i64`.
pub open spec fn nanos_of(secs: int, nsecs: int) -> Option<i64> {
    let n = secs * 1_000_000_000 + nsecs;
    if i64::MIN <= n <= i64::MAX {
        Some(n as i64)
    } else {
        None
    }
}

/// An instant in UTC.
pub struct UtcDateTime {
    secs: i64,
    nsecs: u32,
}

/// Whether `chrono` holds this instant (`DateTime::from_timestamp` gives it).
#[verifier::external_body]
fn chrono_accepts(secs: i64, nsecs: u32) -> (r: bool)
    ensures
        r == utc_valid(secs as int, nsecs as int),
{
    chrono::DateTime::from_timestamp(secs, nsecs).is_some()
}

/// The calendar year of an instant, as `chrono`'s `DateTime::year` gives it:
/// the year whose first second is at or before the instant and whose
/// successor's first second is after it.
#[verifier::external_body]
fn chrono_year(secs: i64, nsecs: u32) -> (r: i32)
    requires
        utc_valid(secs as int, nsecs as int),
    ensures
        MIN_UTC_YEAR <= r <= MAX_UTC_YEAR,
        year_start(r as int) <= secs < year_start(r + 1),
{
    chrono::DateTime::from_timestamp(secs, nsecs).unwrap().year()
}

/// The instant of a date and time in UTC, as `chrono`'s `Utc.with_ymd_and_hms`
/// makes it, in seconds and nanoseconds since the epoch: `None` where no such
/// date or time exists or the year is out of range. An instant it makes is
/// one that `chrono` holds.
#[verifier::external_body]
fn chrono_with_ymd_and_hms(y: i32, mo: u32, d: u32, h: u32, mi: u32, s: u32) -> (r: Option<(i64, u32)>)
    ensures
        match r {
            Some(t) => ymdhms_valid(y as int, mo as int, d as int, h as int, mi as int, s as int)
                && t.0 == ymdhms_secs(y as int, mo as int, d as int, h as int, mi as int, s as int)
                && t.1 == 0 && utc_valid(t.0 as int, t.1 as int),
            None => !ymdhms_valid(y as int, mo as int, d as int, h as int, mi as int, s as int),
        },
{
    match chrono::Utc.with_ymd_and_hms(y, mo, d, h, mi, s) {
        chrono::LocalResult::Single(t) => Some((t.timestamp(), t.timestamp_subsec_nanos())),
        chrono::LocalResult::Ambiguous(_, _) => None,
        chrono::LocalResult::None => None,
    }
}

impl UtcDateTime {
    #[verifier::type_invariant]
    spec fn holds(self) -> bool {
        utc_valid(self.secs as int, self.nsecs as int)
    }

    /// Whole seconds since the Unix epoch.
    pub closed spec fn secs(self) -> int {
        self.secs as int
    }

    /// Nanoseconds past the whole second (beyond a billion in a leap second).
    pub closed spec fn nsecs(self) -> int {
        self.nsecs as int
    }

    /// The instant `secs` seconds and `nsecs` nanoseconds after the epoch, if
    /// `chrono` holds it.
    pub fn from_timestamp(secs: i64, nsecs: u32) -> (r: Option<Self>)
        ensures
            match r {
                Some(t) => utc_valid(secs as int, nsecs as int) && t.secs() == secs && t.nsecs()
                    == nsecs,
                None => !utc_valid(secs as int, nsecs as int),
            },
    {
        if chrono_accepts(secs, nsecs) {
            Some(UtcDateTime { secs, nsecs })
        } else {
            None
        }
    }

    /// The instant of a date and time in UTC; `None` where that date or time
    /// does not exist.
    pub fn with_ymd_and_hms(y: i32, mo: u32, d: u32, h: u32, mi: u32, s: u32) -> (r: Option<Self>)
        ensures
            match r {
                Some(t) => ymdhms_valid(y as int, mo as int, d as int, h as int, mi as int, s as int)
                    && t.secs() == ymdhms_secs(
                    y as int,
                    mo as int,
                    d as int,
                    h as int,
                    mi as int,
                    s as int,
                ) && t.nsecs() == 0,
                None => !ymdhms_valid(y as int, mo as int, d as int, h as int, mi as int, s as int),
            },
    {
        match chrono_with_ymd_and_hms(y, mo, d, h, mi, s) {
            Some((secs, nsecs)) => Some(UtcDateTime { secs, nsecs }),
            None => None,
        }
    }

    /// Whole seconds since the Unix epoch; every instant is one that `chrono` holds.
    pub fn timestamp(&self) -> (r: i64)
        ensures
            r == self.secs(),
            utc_valid(self.secs(), self.nsecs()),
    {
        proof {
            use_type_invariant(self);
        }
        self.secs
    }

    pub fn timestamp_subsec_nanos(&self) -> (r: u32)
        ensures
            r == self.nsecs(),
    {
        self.nsecs
    }

    /// The calendar year of this instant.
    pub fn year(&self) -> (r: i32)
        ensures
            MIN_UTC_YEAR <= r <= MAX_UTC_YEAR,
            year_start(r as int) <= self.secs() < year_start(r + 1),
    {
        proof {
            use_type_invariant(self);
        }
        chrono_year(self.secs, self.nsecs)
    }

    /// Nanoseconds since the epoch, or `None` where they do not fit in an `i64`.
    pub fn timestamp_nanos_opt(&self) -> (r: Option<i64>)
        ensures
            r == nanos_of(self.secs(), self.nsecs()),
    {
        let n: i128 = (self.secs as i128) * 1_000_000_000i128 + (self.nsecs as i128);
        if (i64::MIN as i128) <= n && n <= (i64::MAX as i128) {
            Some(n as i64)
        } else {
            None
        }
    }
}


/// Each year starts after the one before it.
pub proof fn lemma_year_start_step(y: int)
    ensures
        year_start(y) < year_start(y + 1),
{
    let x = y - 1;
    let era = x / 400;
    let yoe = x - era * 400;
    assert(0 <= yoe < 400);
    if yoe < 399 {
        assert(y / 400 == era);
    } else {
        assert(y / 400 == era + 1);
    }
}

/// Later years start later.
pub proof fn lemma_year_start_grows(a: int, b: int)
    requires
        a < b,
    ensures
        year_start(a) < year_start(b),
    decreases b - a,
{
    lemma_year_start_step(a);
    if a + 1 < b {
        lemma_year_start_grows(a + 1, b);
    }
}

/// The Unix epoch is the first second of 1970.
pub proof fn lemma_epoch_year()
    ensures
        year_start(1970) == 0,
{
}

} // verus!
