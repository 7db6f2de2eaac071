use vstd::arithmetic::div_mod::lemma_fundamental_div_mod;
use vstd::arithmetic::div_mod::lemma_fundamental_div_mod_converse;
use vstd::prelude::*;

verus! {

/// Smallest year a date may have.
pub const MIN_YEAR: i32 = -262144;

/// Largest year a date may have.
pub const MAX_YEAR: i32 = 262143;

/// Gregorian leap-year rule.
pub open spec fn is_leap(y: int) -> bool {
    (y % 4 == 0 && y % 100 != 0) || y % 400 == 0
}

pub open spec fn days_in_month(y: int, m: int) -> int {
    if m == 2 {
        if is_leap(y) { 29 } else { 28 }
    } else if m == 4 || m == 6 || m == 9 || m == 11 {
        30
    } else {
        31
    }
}

/// Days of the months of year `y` that come before month `m`.
pub open spec fn days_before_month(y: int, m: int) -> int {
    let base: int = if m <= 1 { 0 }
        else if m == 2 { 31 }
        else if m == 3 { 59 }
        else if m == 4 { 90 }
        else if m == 5 { 120 }
        else if m == 6 { 151 }
        else if m == 7 { 181 }
        else if m == 8 { 212 }
        else if m == 9 { 243 }
        else if m == 10 { 273 }
        else if m == 11 { 304 }
        else { 334 };
    if m > 2 && is_leap(y) { base + 1 } else { base }
}

/// Days from 0001-01-01 (day zero) to January 1st of year `y`.
pub open spec fn days_before_year(y: int) -> int {
    365 * (y - 1) + (y - 1) / 4 - (y - 1) / 100 + (y - 1) / 400
}

/// The day number of a calendar date, counted from 0001-01-01.
pub open spec fn day_number(y: int, m: int, d: int) -> int {
    days_before_year(y) + days_before_month(y, m) + d - 1
}

pub open spec fn valid_ymd(y: int, m: int, d: int) -> bool {
    MIN_YEAR <= y <= MAX_YEAR && 1 <= m <= 12 && 1 <= d <= days_in_month(y, m)
}

pub open spec fn min_day_number() -> int {
    day_number(MIN_YEAR as int, 1, 1)
}

pub open spec fn max_day_number() -> int {
    day_number(MAX_YEAR as int, 12, 31)
}

proof fn lemma_quarter_step(a: int, k: int)
    requires
        k > 0,
    ensures
        (a + 1) / k == a / k + (if (a + 1) % k == 0 { 1int } else { 0int }),
{
    lemma_fundamental_div_mod(a, k);
    let q = a / k;
    let r = a % k;
    assert(q * k == k * q) by (nonlinear_arith);
    assert((q + 1) * k == q * k + k) by (nonlinear_arith);
    if r == k - 1 {
        lemma_fundamental_div_mod_converse(a + 1, k, q + 1, 0);
    } else {
        lemma_fundamental_div_mod_converse(a + 1, k, q, r + 1);
    }
}

proof fn lemma_divides_chain(y: int)
    ensures
        y % 400 == 0 ==> y % 100 == 0,
        y % 100 == 0 ==> y % 4 == 0,
{
    lemma_fundamental_div_mod(y, 400);
    lemma_fundamental_div_mod(y, 100);
    if y % 400 == 0 {
        lemma_fundamental_div_mod_converse(y, 100, 4 * (y / 400), 0);
    }
    if y % 100 == 0 {
        lemma_fundamental_div_mod_converse(y, 4, 25 * (y / 100), 0);
    }
}

/// A year has 365 days, 366 in a leap year.
pub proof fn lemma_year_length(y: int)
    ensures
        days_before_year(y + 1) == days_before_year(y) + 365 + (if is_leap(y) { 1int } else { 0int }),
{
    lemma_quarter_step(y - 1, 4);
    lemma_quarter_step(y - 1, 100);
    lemma_quarter_step(y - 1, 400);
    lemma_divides_chain(y);
}

/// Day number of January 1st of `y`, computed without overflow.
pub fn year_start(y: i32) -> (r: i64)
    requires
        MIN_YEAR <= y <= MAX_YEAR + 1,
    ensures
        r == days_before_year(y as int),
{
    let a: i64 = y as i64 - 1;
    let q4: i64 = if a >= 0 { a / 4 } else { -((-a + 3) / 4) };
    let q100: i64 = if a >= 0 { a / 100 } else { -((-a + 99) / 100) };
    let q400: i64 = if a >= 0 { a / 400 } else { -((-a + 399) / 400) };
    proof {
        let ai = a as int;
        lemma_fundamental_div_mod(ai, 4);
        lemma_fundamental_div_mod(ai, 100);
        lemma_fundamental_div_mod(ai, 400);
        if ai < 0 {
            lemma_fundamental_div_mod(-ai + 3, 4);
            lemma_fundamental_div_mod(-ai + 99, 100);
            lemma_fundamental_div_mod(-ai + 399, 400);
            lemma_fundamental_div_mod_converse(ai, 4, q4 as int, ai - 4 * q4);
            lemma_fundamental_div_mod_converse(ai, 100, q100 as int, ai - 100 * q100);
            lemma_fundamental_div_mod_converse(ai, 400, q400 as int, ai - 400 * q400);
        }
    }
    365 * a + q4 - q100 + q400
}

pub fn is_leap_year(y: i32) -> (r: bool)
    ensures
        r == is_leap(y as int),
{
    (y % 4 == 0 && y % 100 != 0) || y % 400 == 0
}

pub fn month_length(y: i32, m: u32) -> (r: u32)
    requires
        1 <= m <= 12,
    ensures
        r == days_in_month(y as int, m as int),
{
    if m == 2 {
        if is_leap_year(y) { 29 } else { 28 }
    } else if m == 4 || m == 6 || m == 9 || m == 11 {
        30
    } else {
        31
    }
}

pub fn month_start(y: i32, m: u32) -> (r: u32)
    requires
        1 <= m <= 12,
    ensures
        r == days_before_month(y as int, m as int),
{
    let base: u32 = if m <= 1 { 0 }
        else if m == 2 { 31 }
        else if m == 3 { 59 }
        else if m == 4 { 90 }
        else if m == 5 { 120 }
        else if m == 6 { 151 }
        else if m == 7 { 181 }
        else if m == 8 { 212 }
        else if m == 9 { 243 }
        else if m == 10 { 273 }
        else if m == 11 { 304 }
        else { 334 };
    if m > 2 && is_leap_year(y) { base + 1 } else { base }
}

/// Day number of a valid date.
pub fn ymd_to_days(y: i32, m: u32, d: u32) -> (r: i64)
    requires
        valid_ymd(y as int, m as int, d as int),
    ensures
        r == day_number(y as int, m as int, d as int),
{
    year_start(y) + month_start(y, m) as i64 + d as i64 - 1
}

pub fn min_days() -> (r: i64)
    ensures
        r == min_day_number(),
{
    ymd_to_days(MIN_YEAR, 1, 1)
}

pub fn max_days() -> (r: i64)
    ensures
        r == max_day_number(),
{
    ymd_to_days(MAX_YEAR, 12, 31)
}

/// The calendar date of a day number.
pub fn days_to_ymd(n: i64) -> (r: (i32, u32, u32))
    requires
        min_day_number() <= n <= max_day_number(),
    ensures
        valid_ymd(r.0 as int, r.1 as int, r.2 as int),
        day_number(r.0 as int, r.1 as int, r.2 as int) == n,
{
    let est: i64 = if n >= 0 { n / 366 } else { -((-n) / 365) - 1 };
    let mut y: i32 = if est < MIN_YEAR as i64 {
        MIN_YEAR
    } else if est > MAX_YEAR as i64 {
        MAX_YEAR
    } else {
        est as i32
    };
    while y > MIN_YEAR && year_start(y) > n
        invariant
            MIN_YEAR <= y <= MAX_YEAR,
        decreases y - MIN_YEAR,
    {
        y = y - 1;
    }
    assert(days_before_year(y as int) <= n);
    while y < MAX_YEAR && year_start(y + 1) <= n
        invariant
            MIN_YEAR <= y <= MAX_YEAR,
            days_before_year(y as int) <= n,
        decreases MAX_YEAR - y,
    {
        y = y + 1;
    }
    proof {
        lemma_year_length(y as int);
        lemma_year_length(MAX_YEAR as int);
    }
    let r: i64 = n - year_start(y);
    assert(r < 365 + (if is_leap(y as int) { 1int } else { 0int }));
    let mut m: u32 = 1;
    while m < 12 && (month_start(y, m + 1) as i64) <= r
        invariant
            1 <= m <= 12,
            days_before_month(y as int, m as int) <= r,
        decreases 12 - m,
    {
        m = m + 1;
    }
    let d: u32 = (r - month_start(y, m) as i64 + 1) as u32;
    (y, m, d)
}

/// Day of the week of a day number, 0 for Monday up to 6 for Sunday.
pub open spec fn weekday_of(n: int) -> int {
    n % 7
}

pub fn weekday_from_days(n: i64) -> (r: u32)
    requires
        min_day_number() <= n <= max_day_number(),
    ensures
        r == weekday_of(n as int),
        r < 7,
{
    let k: i64 = n - min_days();
    let w: i64 = (k + 1) % 7;
    proof {
        assert(min_day_number() == 7 * (-13678071) + 1);
        lemma_fundamental_div_mod(k + 1, 7);
        lemma_fundamental_div_mod_converse(n as int, 7, (k + 1) / 7 - 13678071, w as int);
    }
    w as u32
}

} // verus!
