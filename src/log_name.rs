//! Daily log files: the UTC date of a timestamp and the `YYYYMMDD.gpz` name.
use vstd::prelude::*;
use crate::timezone::{days_before_month, days_before_year, days_in_month, is_leap, leaps_through};

verus! {

pub fn is_leap_year(year: u16) -> (r: bool)
    ensures
        r == is_leap(year as int),
{
    (year % 4 == 0 && year % 100 != 0) || year % 400 == 0
}

/// `y / d` steps up by one exactly at multiples of `d`.
proof fn lemma_div_step(y: int, d: int)
    requires
        y >= 1,
        d > 0,
    ensures
        y / d - (y - 1) / d == (if y % d == 0 {
            1int
        } else {
            0
        }),
{
    vstd::arithmetic::div_mod::lemma_fundamental_div_mod(y, d);
    let q = y / d;
    let r = y % d;
    if r == 0 {
        assert(y - 1 == (q - 1) * d + (d - 1)) by (nonlinear_arith)
            requires
                y == d * q + r,
                r == 0,
        ;
        vstd::arithmetic::div_mod::lemma_fundamental_div_mod_converse(y - 1, d, q - 1, d - 1);
    } else {
        assert(y - 1 == q * d + (r - 1)) by (nonlinear_arith)
            requires
                y == d * q + r,
        ;
        vstd::arithmetic::div_mod::lemma_fundamental_div_mod_converse(y - 1, d, q, r - 1);
    }
}

/// Leap years add one day.
proof fn lemma_year_length(y: int)
    requires
        y >= 1970,
    ensures
        days_before_year(y + 1) == days_before_year(y) + (if is_leap(y) {
            366int
        } else {
            365
        }),
{
    let a = y - 1;
    lemma_div_step(y, 4);
    lemma_div_step(y, 100);
    lemma_div_step(y, 400);
    if y % 400 == 0 {
        vstd::arithmetic::div_mod::lemma_fundamental_div_mod(y, 400);
        assert(y == (4 * (y / 400)) * 100) by (nonlinear_arith)
            requires
                y == 400 * (y / 400) + y % 400,
                y % 400 == 0,
        ;
        vstd::arithmetic::div_mod::lemma_mod_multiples_basic(4 * (y / 400), 100);
    }
    if y % 100 == 0 {
        vstd::arithmetic::div_mod::lemma_fundamental_div_mod(y, 100);
        assert(y == (25 * (y / 100)) * 4) by (nonlinear_arith)
            requires
                y == 100 * (y / 100) + y % 100,
                y % 100 == 0,
        ;
        vstd::arithmetic::div_mod::lemma_mod_multiples_basic(25 * (y / 100), 4);
    }
    assert(leaps_through(y) - leaps_through(a) == (if y % 4 == 0 {
        1int
    } else {
        0
    }) - (if y % 100 == 0 {
        1int
    } else {
        0
    }) + (if y % 400 == 0 {
        1int
    } else {
        0
    }));
}

/// The UTC calendar date of a Unix timestamp.
pub fn unix_to_date(timestamp: u32) -> (r: (u16, u8, u8))
    ensures
        r.0 >= 1970,
        1 <= r.1 <= 12,
        1 <= r.2 <= days_in_month(r.0 as int, r.1 as int),
        timestamp / 86400 == days_before_year(r.0 as int) + days_before_month(r.0 as int, r.1 as int)
            + r.2 - 1,
{
    let total = timestamp / 86_400;
    let mut days = total;
    let mut year: u16 = 1970;
    while days >= year_days(year)
        invariant
            1970 <= year,
            days as int + days_before_year(year as int) == total,
            days_before_year(year as int) >= (year - 1970) * 365,
            total <= 49710,
        decreases days,
    {
        proof {
            lemma_year_length(year as int);
        }
        days = days - year_days(year);
        year = year + 1;
    }
    assert(days < 366);
    proof {
        reveal_with_fuel(days_before_month, 13);
        assert(days_before_month(year as int, 12) + 31 == (if is_leap(year as int) {
            366int
        } else {
            365
        }));
    }
    let mut month: u8 = 1;
    while month < 12 && days >= month_days(year, month)
        invariant
            1970 <= year,
            1 <= month <= 12,
            days as int + days_before_month(year as int, month as int) + days_before_year(
                year as int,
            ) == total,
            days < (if is_leap(year as int) {
                366int
            } else {
                365
            }) - days_before_month(year as int, month as int),
        decreases 12 - month,
    {
        days = days - month_days(year, month);
        month = month + 1;
    }
    (year, month, (days + 1) as u8)
}

fn year_days(year: u16) -> (r: u32)
    ensures
        r == (if is_leap(year as int) {
            366int
        } else {
            365
        }),
{
    if is_leap_year(year) {
        366
    } else {
        365
    }
}

fn month_days(year: u16, m: u8) -> (r: u32)
    requires
        1 <= m <= 12,
    ensures
        r == days_in_month(year as int, m as int),
{
    if m == 2 {
        if is_leap_year(year) {
            29
        } else {
            28
        }
    } else if m == 4 || m == 6 || m == 9 || m == 11 {
        30
    } else {
        31
    }
}

pub open spec fn digit(v: int) -> u8 {
    (0x30 + v % 10) as u8
}

pub fn year_to_digits(year: u16) -> (r: [u8; 4])
    ensures
        r@ == seq![digit(year as int / 1000), digit(year as int / 100), digit(year as int / 10), digit(year as int)],
{
    let y = year as u32;
    let mut out = [0u8; 4];
    out[0] = 0x30 + ((y / 1000) % 10) as u8;
    out[1] = 0x30 + ((y / 100) % 10) as u8;
    out[2] = 0x30 + ((y / 10) % 10) as u8;
    out[3] = 0x30 + (y % 10) as u8;
    assert(out@ =~= seq![digit(year as int / 1000), digit(year as int / 100), digit(year as int / 10), digit(year as int)]);
    out
}

pub fn two_digits(value: u8) -> (r: [u8; 2])
    ensures
        r@ == seq![digit(value as int / 10), digit(value as int)],
{
    let v = value as u32;
    let mut out = [0u8; 2];
    out[0] = 0x30 + ((v / 10) % 10) as u8;
    out[1] = 0x30 + (v % 10) as u8;
    assert(out@ =~= seq![digit(value as int / 10), digit(value as int)]);
    out
}

/// `YYYYMMDD.gpz`.
pub open spec fn log_filename(year: u16, month: u8, day: u8) -> Seq<u8> {
    seq![digit(year as int / 1000), digit(year as int / 100), digit(year as int / 10), digit(year as int)] + seq![
        digit(month as int / 10),
        digit(month as int),
    ] + seq![digit(day as int / 10), digit(day as int)] + seq![0x2Eu8, 0x67, 0x70, 0x7A]
}

pub fn build_log_filename(year: u16, month: u8, day: u8) -> (r: [u8; 12])
    ensures
        r@ == log_filename(year, month, day),
{
    let mut buf = [0u8; 12];
    let y = year_to_digits(year);
    buf[0] = y[0];
    buf[1] = y[1];
    buf[2] = y[2];
    buf[3] = y[3];
    let m = two_digits(month);
    buf[4] = m[0];
    buf[5] = m[1];
    let d = two_digits(day);
    buf[6] = d[0];
    buf[7] = d[1];
    buf[8] = 0x2E;
    buf[9] = 0x67;
    buf[10] = 0x70;
    buf[11] = 0x7A;
    assert(buf@ =~= log_filename(year, month, day));
    buf
}

} // verus!
