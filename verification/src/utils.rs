//! Calendar arithmetic: the non-negative remainder used to place days on a
//! monthly cycle, calendar dates, and the lengths of the Gregorian months.

use vstd::arithmetic::div_mod::{lemma_fundamental_div_mod, lemma_fundamental_div_mod_converse};
use vstd::prelude::*;

verus! {

/// The mathematical remainder of `a` by a positive `b`: the one value in
/// `[0, b)` that differs from `a` by a multiple of `b`.
pub open spec fn spec_modulo(a: int, b: int) -> int {
    a % b
}

/// The remainder as the machine's `%` computes it: it has the sign of `a`,
/// so it is negative or zero for a negative `a`.
pub open spec fn spec_rem(a: int, b: int) -> int {
    if a >= 0 {
        a % b
    } else {
        -((-a) % b)
    }
}

/// The Gregorian leap-year rule: every fourth year, except the centuries
/// that are not multiples of 400.
pub open spec fn spec_is_leap_year(year: int) -> bool {
    year % 4 == 0 && (year % 100 != 0 || year % 400 == 0)
}

/// Number of days of `month` (1 = January) in `year` of the Gregorian
/// calendar. Outside `1..=12` there is no such month and the length is 0.
pub open spec fn spec_days_in_month(year: int, month: int) -> int {
    if month == 2 {
        if spec_is_leap_year(year) {
            29
        } else {
            28
        }
    } else if month == 4 || month == 6 || month == 9 || month == 11 {
        30
    } else if 1 <= month <= 12 {
        31
    } else {
        0
    }
}

/// Number of days of `year`: the lengths of its twelve months added up.
pub open spec fn spec_days_in_year(year: int) -> int {
    spec_days_in_month(year, 1) + spec_days_in_month(year, 2) + spec_days_in_month(year, 3)
        + spec_days_in_month(year, 4) + spec_days_in_month(year, 5) + spec_days_in_month(year, 6)
        + spec_days_in_month(year, 7) + spec_days_in_month(year, 8) + spec_days_in_month(year, 9)
        + spec_days_in_month(year, 10) + spec_days_in_month(year, 11) + spec_days_in_month(
        year,
        12,
    )
}

/// Whether `year`, `month`, `day` name a day of the Gregorian calendar.
pub open spec fn spec_valid_ymd(year: int, month: int, day: int) -> bool {
    1 <= month <= 12 && 1 <= day <= spec_days_in_month(year, month)
}

/// What a [`Date`] stands for: a year, a month and a day of that month.
pub struct DateView {
    pub year: int,
    pub month: int,
    pub day: int,
}

/// A day of the proleptic Gregorian calendar. Every value is a day that
/// exists: the month is in `1..=12` and the day in `1..=` the month's length.
#[derive(Clone, Copy, Debug, PartialEq, Eq, Structural)]
pub struct Date {
    year: i32,
    month: u32,
    day: u32,
}

impl View for Date {
    type V = DateView;

    closed spec fn view(&self) -> DateView {
        DateView { year: self.year as int, month: self.month as int, day: self.day as int }
    }
}

impl Date {
    #[verifier::type_invariant]
    spec fn exists_in_calendar(self) -> bool {
        spec_valid_ymd(self.year as int, self.month as int, self.day as int)
    }

    /// The date with the given year, month and day, if there is such a day.
    pub fn from_ymd_opt(year: i32, month: u32, day: u32) -> (r: Option<Date>)
        ensures
            r is Some <==> spec_valid_ymd(year as int, month as int, day as int),
            r matches Some(d) ==> d@ == (DateView {
                year: year as int,
                month: month as int,
                day: day as int,
            }),
    {
        if month < 1 || month > 12 || day < 1 {
            return None;
        }
        let length: u32 = month_length(year, month);
        if day > length {
            None
        } else {
            Some(Date { year, month, day })
        }
    }

    /// The year; negative for years before 1 BCE.
    pub fn year(&self) -> (r: i32)
        ensures
            r == self@.year,
    {
        self.year
    }

    /// The month, 1 for January to 12 for December.
    pub fn month(&self) -> (r: u32)
        ensures
            r == self@.month,
            1 <= r <= 12,
    {
        proof {
            use_type_invariant(self);
        }
        self.month
    }

    /// The day of the month, from 1.
    pub fn day(&self) -> (r: u32)
        ensures
            r == self@.day,
            1 <= r <= spec_days_in_month(self@.year, self@.month),
    {
        proof {
            use_type_invariant(self);
        }
        self.day
    }
}

/// Length of a month that exists, from its number and the year's rule.
fn month_length(year: i32, month: u32) -> (r: u32)
    requires
        1 <= month <= 12,
    ensures
        r == spec_days_in_month(year as int, month as int),
        28 <= r <= 31,
{
    if month == 2 {
        if leap(year) {
            29
        } else {
            28
        }
    } else if month == 4 || month == 6 || month == 9 || month == 11 {
        30
    } else {
        31
    }
}

/// For a negative `a`, the remainder of `a` follows from the remainder of
/// `-a`: zero stays zero, anything else is reflected into `(0, b)`.
proof fn lemma_remainder_of_negative(a: int, b: int)
    requires
        a < 0,
        b > 0,
    ensures
        a % b == if (-a) % b == 0 {
            0
        } else {
            b - (-a) % b
        },
{
    let q = (-a) / b;
    let m = (-a) % b;
    lemma_fundamental_div_mod(-a, b);
    assert(-a == b * q + m);
    if m == 0 {
        assert(a == (-q) * b + 0) by (nonlinear_arith)
            requires
                -a == b * q + m,
                m == 0,
        ;
        lemma_fundamental_div_mod_converse(a, b, -q, 0);
    } else {
        assert(a == (-q - 1) * b + (b - m)) by (nonlinear_arith)
            requires
                -a == b * q + m,
        ;
        lemma_fundamental_div_mod_converse(a, b, -q - 1, b - m);
    }
}

/// The non-negative remainder lies in `[0, b)`, differs from `a` by a
/// multiple of `b`, is the machine's remainder where `a` is not negative,
/// and is for every `a` what the machine gives for `((a % b) + b) % b`.
pub proof fn lemma_modulo(a: int, b: int)
    requires
        b > 0,
    ensures
        0 <= spec_modulo(a, b) < b,
        (a - spec_modulo(a, b)) % b == 0,
        a >= 0 ==> spec_modulo(a, b) == spec_rem(a, b),
        spec_modulo(a, b) == spec_rem(spec_rem(a, b) + b, b),
{
    let r = a % b;
    lemma_fundamental_div_mod(a, b);
    assert(a - r == (a / b) * b + 0) by (nonlinear_arith)
        requires
            a == b * (a / b) + r,
    ;
    lemma_fundamental_div_mod_converse(a - r, b, a / b, 0);
    if a >= 0 {
        lemma_fundamental_div_mod_converse(r + b, b, 1, r);
    } else {
        lemma_remainder_of_negative(a, b);
        let m = (-a) % b;
        if m == 0 {
            lemma_fundamental_div_mod_converse(b, b, 1, 0);
        } else {
            lemma_fundamental_div_mod_converse(b - m, b, 0, b - m);
        }
    }
}

/// A year has 365 days, and one more if it is a leap year.
pub proof fn lemma_days_in_year(year: int)
    ensures
        spec_days_in_year(year) == if spec_is_leap_year(year) {
            366int
        } else {
            365int
        },
{
}

/// The calendar repeats every 400 years: a year and the year 400 years
/// later are both leap years or both not, and their months are as long.
pub proof fn lemma_calendar_repeats(year: int, month: int)
    ensures
        spec_is_leap_year(year + 400) == spec_is_leap_year(year),
        spec_days_in_month(year + 400, month) == spec_days_in_month(year, month),
{
}

/// Every month that exists has 28 to 31 days, and only February has fewer
/// than 30.
pub proof fn lemma_month_lengths(year: int, month: int)
    requires
        1 <= month <= 12,
    ensures
        28 <= spec_days_in_month(year, month) <= 31,
        spec_days_in_month(year, month) < 30 <==> month == 2,
{
}

/// Whether `year` leaves no remainder when divided by the positive `d`.
fn divides(year: i32, d: i32) -> (r: bool)
    requires
        d > 0,
    ensures
        r == (year as int % d as int == 0),
{
    proof {
        if year < 0 {
            lemma_remainder_of_negative(year as int, d as int);
        }
    }
    year % d == 0
}

/// The leap-year rule on a year number.
fn leap(year: i32) -> (r: bool)
    ensures
        r == spec_is_leap_year(year as int),
{
    divides(year, 4) && (!divides(year, 100) || divides(year, 400))
}

/// Non-negative remainder of `a` by `b`, for every `a` and every positive
/// `b`. Unlike the `%` of the machine it never yields a negative value.
pub fn modulo(a: isize, b: isize) -> (r: isize)
    requires
        b > 0,
    ensures
        r == spec_modulo(a as int, b as int),
        0 <= r < b,
{
    let t: isize = a % b;
    proof {
        if a < 0 {
            lemma_remainder_of_negative(a as int, b as int);
        }
    }
    if t < 0 {
        t + b
    } else {
        t
    }
}

/// Whether the year of `date` is a leap year.
pub fn is_leap_year(date: Date) -> (r: bool)
    ensures
        r == spec_is_leap_year(date@.year),
{
    leap(date.year)
}

/// Number of days in the month of `date`: 31, 30, or for February 29 in a
/// leap year and 28 otherwise.
pub fn days_in_month(date: Date) -> (r: isize)
    ensures
        r == spec_days_in_month(date@.year, date@.month),
        28 <= r <= 31,
        date@.day <= r,
{
    proof {
        use_type_invariant(date);
    }
    let month: u32 = date.month;
    if month == 2 {
        if is_leap_year(date) {
            29
        } else {
            28
        }
    } else if month == 4 || month == 6 || month == 9 || month == 11 {
        30
    } else {
        31
    }
}

} // verus!
