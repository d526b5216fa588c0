//! Calendar arithmetic: UTC date and time to Unix seconds, and UTC offsets.
use vstd::prelude::*;

verus! {

pub open spec fn is_leap(y: int) -> bool {
    (y % 4 == 0 && y % 100 != 0) || y % 400 == 0
}

pub open spec fn days_in_month(y: int, m: int) -> int {
    if m == 2 {
        if is_leap(y) {
            29
        } else {
            28
        }
    } else if m == 4 || m == 6 || m == 9 || m == 11 {
        30
    } else {
        31
    }
}

/// Leap years in `1..=y`.
pub open spec fn leaps_through(y: int) -> int {
    y / 4 - y / 100 + y / 400
}

/// Days from 1970-01-01 to January 1st of `y`.
pub open spec fn days_before_year(y: int) -> int {
    (y - 1970) * 365 + leaps_through(y - 1) - leaps_through(1969)
}

/// Days from January 1st to the first of month `m` in year `y`.
pub open spec fn days_before_month(y: int, m: int) -> int
    decreases m,
{
    if m <= 1 {
        0
    } else {
        days_before_month(y, m - 1) + days_in_month(y, m - 1)
    }
}

/// The inputs name a second of the years 1970 to 2100.
pub open spec fn valid_date_time(year: u16, month: u8, day: u8, hour: u8, minute: u8, second: u8) -> bool {
    &&& 1970 <= year <= 2100
    &&& 1 <= month <= 12
    &&& 1 <= day <= days_in_month(year as int, month as int)
    &&& hour < 24 && minute < 60 && second < 60
}

pub open spec fn unix_seconds(year: u16, month: u8, day: u8, hour: u8, minute: u8, second: u8) -> int {
    (days_before_year(year as int) + days_before_month(year as int, month as int) + day - 1)
        * 86400 + hour * 3600 + minute * 60 + second
}

fn month_length(year: u16, m: u8) -> (r: u8)
    requires
        1 <= m <= 12,
    ensures
        r == days_in_month(year as int, m as int),
{
    let leap = (year % 4 == 0 && year % 100 != 0) || (year % 400 == 0);
    if m == 2 {
        if leap {
            29
        } else {
            28
        }
    } else if m == 4 || m == 6 || m == 9 || m == 11 {
        30
    } else {
        31
    }
}

proof fn lemma_days_before_month_bound(y: int, m: int)
    requires
        1 <= m <= 13,
    ensures
        0 <= days_before_month(y, m) <= 31 * (m - 1),
    decreases m,
{
    if m > 1 {
        lemma_days_before_month_bound(y, m - 1);
    }
}

/// Seconds since the Unix epoch of a UTC date and time, or `None` when a field
/// is out of range or the year is outside 1970 to 2100.
pub fn date_time_to_unix_timestamp(
    year: u16,
    month: u8,
    day: u8,
    hour: u8,
    minute: u8,
    second: u8,
) -> (r: Option<u32>)
    ensures
        r is Some <==> valid_date_time(year, month, day, hour, minute, second),
        r matches Some(v) ==> v == unix_seconds(year, month, day, hour, minute, second),
{
    if year < 1970 || year > 2100 {
        return None;
    }
    if month == 0 || month > 12 {
        return None;
    }
    if hour >= 24 || minute >= 60 || second >= 60 {
        return None;
    }
    let year_minus_one = (year - 1) as u32;
    let leap_years = year_minus_one / 4 - year_minus_one / 100 + year_minus_one / 400;
    let base_year_minus_one: u32 = 1969;
    let base_leaps = base_year_minus_one / 4 - base_year_minus_one / 100 + base_year_minus_one
        / 400;
    let mut days: u32 = (year as u32 - 1970) * 365 + (leap_years - base_leaps);
    let dim = month_length(year, month);
    if day == 0 || day > dim {
        return None;
    }
    assert(days == days_before_year(year as int));
    let mut m: u8 = 1;
    proof {
        lemma_days_before_month_bound(year as int, month as int);
    }
    while m < month
        invariant
            1 <= m <= month <= 12,
            1970 <= year <= 2100,
            days == days_before_year(year as int) + days_before_month(year as int, m as int),
            days_before_year(year as int) <= 47847,
        decreases month - m,
    {
        proof {
            lemma_days_before_month_bound(year as int, m as int);
        }
        days = days + month_length(year, m) as u32;
        m = m + 1;
    }
    proof {
        lemma_days_before_month_bound(year as int, month as int);
    }
    days = days + (day as u32 - 1);
    let mut seconds_val: u32 = days * 86_400;
    seconds_val = seconds_val + hour as u32 * 3_600;
    seconds_val = seconds_val + minute as u32 * 60;
    seconds_val = seconds_val + second as u32;
    Some(seconds_val)
}

/// An offset from UTC in whole minutes.
#[derive(Clone, Copy, Debug)]
pub struct UtcOffset {
    pub total_minutes: i16,
}

impl UtcOffset {
    pub fn from_minutes(minutes: i16) -> (r: Self)
        ensures
            r.total_minutes == minutes,
    {
        UtcOffset { total_minutes: minutes }
    }

    /// Whole hours, rounded toward zero.
    pub fn hours(&self) -> (r: i8)
        requires
            -7680 < self.total_minutes < 7680,
        ensures
            r as int == (if self.total_minutes >= 0 {
                self.total_minutes / 60
            } else {
                -((-self.total_minutes) / 60)
            }),
    {
        let t = self.total_minutes as i32;
        let h: i32 = if t >= 0 {
            t / 60
        } else {
            -((-t) / 60)
        };
        h as i8
    }

    /// The minutes past the whole hours, without sign.
    pub fn minutes(&self) -> (r: u8)
        ensures
            r as int == (if self.total_minutes >= 0 {
                self.total_minutes as int
            } else {
                -self.total_minutes
            }) % 60,
    {
        let t = self.total_minutes as i32;
        let a: i32 = if t < 0 {
            -t
        } else {
            t
        };
        (a % 60) as u8
    }

    pub fn is_positive(&self) -> (r: bool)
        ensures
            r == (self.total_minutes >= 0),
    {
        self.total_minutes >= 0
    }
}

} // verus!
