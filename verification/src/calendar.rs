//! Dates in the proleptic Gregorian calendar, counted in days from 1970-01-01.

use vstd::prelude::*;

use vstd::arithmetic::div_mod::{
    lemma_fundamental_div_mod, lemma_fundamental_div_mod_converse_div,
    lemma_fundamental_div_mod_converse_mod,
};

verus! {

/// Days in 400 Gregorian years.
pub const DAYS_PER_400_YEARS: u64 = 146_097;

/// A Gregorian leap year.
pub open spec fn is_leap(y: int) -> bool {
    y % 4 == 0 && (y % 100 != 0 || y % 400 == 0)
}

/// Days in year `y`.
pub open spec fn year_len(y: int) -> nat {
    if is_leap(y) { 366 } else { 365 }
}

/// Days in month `m` (1 to 12) of year `y`.
pub open spec fn month_len(y: int, m: int) -> nat {
    if m == 2 {
        if is_leap(y) { 29 } else { 28 }
    } else if m == 4 || m == 6 || m == 9 || m == 11 {
        30
    } else {
        31
    }
}

/// Counting `days` forward from the first day of year `y`: the year reached
/// and the day within it (0 for its first day).
pub open spec fn year_and_day(days: nat, y: int) -> (int, nat)
    decreases days,
{
    if days < year_len(y) {
        (y, days)
    } else {
        year_and_day((days - year_len(y)) as nat, y + 1)
    }
}

/// Counting `doy` days forward from the first day of month `m` of year `y`:
/// the month reached and the day within it (0 for its first day).
pub open spec fn month_and_day(doy: nat, y: int, m: int) -> (int, nat)
    decreases 12 - m,
{
    if m >= 12 || doy < month_len(y, m) {
        (m, doy)
    } else {
        month_and_day((doy - month_len(y, m)) as nat, y, m + 1)
    }
}

/// The calendar date (year, month 1 to 12, day of month from 1) of the day
/// `days` days after 1970-01-01.
pub open spec fn civil_date(days: nat) -> (int, int, int) {
    let (y, doy) = year_and_day(days, 1970);
    let (m, dom) = month_and_day(doy, y, 1);
    (y, m, dom + 1int)
}

/// Days in the `k` years from year `y` on.
pub open spec fn span(y: int, k: nat) -> nat
    decreases k,
{
    if k == 0 {
        0
    } else {
        span(y, (k - 1) as nat) + year_len(y + k - 1)
    }
}

/// Days in the months from `m` to the end of year `y`.
pub open spec fn rest_of_year(y: int, m: int) -> nat
    decreases 13 - m,
{
    if m > 12 {
        0
    } else {
        month_len(y, m) + rest_of_year(y, m + 1)
    }
}

/// Leap years among the years 1 to `n`.
pub open spec fn leaps_upto(n: int) -> int {
    n / 4 - n / 100 + n / 400
}

proof fn lemma_div_step(n: int, d: int)
    requires
        n >= 1,
        d > 0,
    ensures
        n / d - (n - 1) / d == if n % d == 0 { 1int } else { 0int },
{
    let q = (n - 1) / d;
    let r = (n - 1) % d;
    lemma_fundamental_div_mod(n - 1, d);
    assert(0 <= r < d);
    if r + 1 == d {
        assert(n == (q + 1) * d + 0) by (nonlinear_arith)
            requires
                n - 1 == d * q + r,
                r + 1 == d,
        ;
        lemma_fundamental_div_mod_converse_div(n, d, q + 1, 0);
        lemma_fundamental_div_mod_converse_mod(n, d, q + 1, 0);
    } else {
        assert(n == q * d + (r + 1)) by (nonlinear_arith)
            requires
                n - 1 == d * q + r,
        ;
        lemma_fundamental_div_mod_converse_div(n, d, q, r + 1);
        lemma_fundamental_div_mod_converse_mod(n, d, q, r + 1);
    }
}

proof fn lemma_divides_smaller(n: int, big: int, small: int, f: int)
    requires
        n >= 0,
        small > 0,
        f > 0,
        big == small * f,
        n % big == 0,
    ensures
        n % small == 0,
{
    assert(big > 0) by (nonlinear_arith)
        requires
            big == small * f,
            small > 0,
            f > 0,
    ;
    lemma_fundamental_div_mod(n, big);
    let q = n / big;
    assert(n == q * f * small) by (nonlinear_arith)
        requires
            n == big * q + 0,
            big == small * f,
    ;
    assert(n >= 0);
    assert(q * f >= 0) by (nonlinear_arith)
        requires
            n == q * f * small,
            n >= 0,
            small > 0,
    ;
    lemma_fundamental_div_mod_converse_mod(n, small, q * f, 0);
}

proof fn lemma_leaps_step(n: int)
    requires
        n >= 1,
    ensures
        leaps_upto(n) - leaps_upto(n - 1) == if is_leap(n) { 1int } else { 0int },
{
    lemma_div_step(n, 4);
    lemma_div_step(n, 100);
    lemma_div_step(n, 400);
    if n % 400 == 0 {
        lemma_divides_smaller(n, 400, 100, 4);
    }
    if n % 100 == 0 {
        lemma_divides_smaller(n, 100, 4, 25);
    }
}

proof fn lemma_span_closed(y: int, k: nat)
    requires
        y >= 1,
    ensures
        span(y, k) == 365 * k + leaps_upto(y + k - 1) - leaps_upto(y - 1),
    decreases k,
{
    if k > 0 {
        lemma_span_closed(y, (k - 1) as nat);
        lemma_leaps_step(y + k - 1);
    }
}

proof fn lemma_div_shift(n: int, d: int, c: int)
    requires
        n >= 0,
        d > 0,
    ensures
        (n + c * d) / d == n / d + c,
{
    lemma_fundamental_div_mod(n, d);
    assert(n + c * d == (n / d + c) * d + n % d) by (nonlinear_arith)
        requires
            n == d * (n / d) + n % d,
    ;
    lemma_fundamental_div_mod_converse_div(n + c * d, d, n / d + c, n % d);
}

/// Every 400 consecutive years hold the same number of days.
pub proof fn lemma_span_400(y: int)
    requires
        y >= 1,
    ensures
        span(y, 400) == DAYS_PER_400_YEARS,
{
    lemma_span_closed(y, 400);
    let n = y - 1;
    lemma_div_shift(n, 4, 100);
    lemma_div_shift(n, 100, 4);
    lemma_div_shift(n, 400, 1);
}

proof fn lemma_year_and_day_skip(days: nat, y: int, k: nat)
    requires
        days >= span(y, k),
    ensures
        year_and_day(days, y) == year_and_day((days - span(y, k)) as nat, y + k),
    decreases k,
{
    if k > 0 {
        let k1 = (k - 1) as nat;
        lemma_year_and_day_skip(days, y, k1);
        let d1 = (days - span(y, k1)) as nat;
        assert(d1 >= year_len(y + k1));
        assert(year_and_day(d1, y + k1) == year_and_day((d1 - year_len(y + k1)) as nat, y + k1 + 1));
    }
}

proof fn lemma_year_and_day_cycles(days: nat, c: nat)
    requires
        days >= c * DAYS_PER_400_YEARS,
    ensures
        year_and_day(days, 1970) == year_and_day((days - c * DAYS_PER_400_YEARS) as nat, 1970 + 400 * (c as int)),
    decreases c,
{
    if c > 0 {
        let c1 = (c - 1) as nat;
        assert(c * DAYS_PER_400_YEARS == c1 * DAYS_PER_400_YEARS + DAYS_PER_400_YEARS) by (nonlinear_arith)
            requires
                c1 == c - 1,
        ;
        lemma_year_and_day_cycles(days, c1);
        let d1 = (days - c1 * DAYS_PER_400_YEARS) as nat;
        lemma_span_400(1970 + 400 * (c1 as int));
        lemma_year_and_day_skip(d1, 1970 + 400 * (c1 as int), 400);
    }
}

proof fn lemma_year_and_day_range(days: nat, y: int)
    ensures
        year_and_day(days, y).0 >= y,
        year_and_day(days, y).1 < year_len(year_and_day(days, y).0),
    decreases days,
{
    if days >= year_len(y) {
        lemma_year_and_day_range((days - year_len(y)) as nat, y + 1);
    }
}

proof fn lemma_month_and_day_range(doy: nat, y: int, m: int)
    requires
        1 <= m <= 12,
        doy < rest_of_year(y, m),
    ensures
        m <= month_and_day(doy, y, m).0 <= 12,
        month_and_day(doy, y, m).1 < month_len(y, month_and_day(doy, y, m).0),
    decreases 12 - m,
{
    if m < 12 && doy >= month_len(y, m) {
        lemma_month_and_day_range((doy - month_len(y, m)) as nat, y, m + 1);
    } else if m == 12 {
        assert(rest_of_year(y, 13) == 0);
    }
}

/// A calendar date always has a month from 1 to 12 and a day that exists in
/// that month, in a year from 1970 on.
pub proof fn lemma_civil_date_valid(days: nat)
    ensures
        ({
            let (y, m, d) = civil_date(days);
            &&& y >= 1970
            &&& 1 <= m <= 12
            &&& 1 <= d <= month_len(y, m)
        }),
{
    let (y, doy) = year_and_day(days, 1970);
    lemma_year_and_day_range(days, 1970);
    reveal_with_fuel(rest_of_year, 14);
    assert(rest_of_year(y, 1) == year_len(y));
    lemma_month_and_day_range(doy, y, 1);
}

fn is_leap_exec(y: u64) -> (b: bool)
    ensures
        b == is_leap(y as int),
{
    y % 4 == 0 && (y % 100 != 0 || y % 400 == 0)
}

fn year_len_exec(y: u64) -> (n: u64)
    ensures
        n == year_len(y as int),
{
    if is_leap_exec(y) { 366 } else { 365 }
}

fn month_len_exec(y: u64, m: u64) -> (n: u64)
    ensures
        n == month_len(y as int, m as int),
{
    if m == 2 {
        if is_leap_exec(y) { 29 } else { 28 }
    } else if m == 4 || m == 6 || m == 9 || m == 11 {
        30
    } else {
        31
    }
}

/// The calendar date of the day `days` days after 1970-01-01.
pub fn civil_from_days(days: u64) -> (ymd: (u64, u64, u64))
    ensures
        (ymd.0 as int, ymd.1 as int, ymd.2 as int) == civil_date(days as nat),
{
    let cycles = days / DAYS_PER_400_YEARS;
    let mut rem = days % DAYS_PER_400_YEARS;
    proof {
        assert(days == cycles * DAYS_PER_400_YEARS + rem) by (nonlinear_arith)
            requires
                cycles == days / DAYS_PER_400_YEARS,
                rem == days % DAYS_PER_400_YEARS,
        {
            lemma_fundamental_div_mod(days as int, DAYS_PER_400_YEARS as int);
        }
        assert(cycles < 0x8000_0000_0000) by (nonlinear_arith)
            requires
                days == cycles * DAYS_PER_400_YEARS + rem,
                rem >= 0,
                days < 0x1_0000_0000_0000_0000,
        ;
    }
    let y0: u64 = 1970 + 400 * cycles;
    proof {
        lemma_year_and_day_cycles(days as nat, cycles as nat);
        lemma_span_400(y0 as int);
    }
    let ghost rem0 = rem;
    let mut y: u64 = y0;
    while rem >= year_len_exec(y)
        invariant
            y0 <= y <= y0 + 400,
            y0 < 0x1000_0000_0000_0000,
            rem0 < DAYS_PER_400_YEARS,
            span(y0 as int, 400) == DAYS_PER_400_YEARS,
            rem + span(y0 as int, (y - y0) as nat) == rem0,
            year_and_day(days as nat, 1970) == year_and_day(rem as nat, y as int),
        decreases rem,
    {
        let len = year_len_exec(y);
        proof {
            if y - y0 == 400 {
                assert(false);
            }
            assert(span(y0 as int, (y + 1 - y0) as nat) == span(y0 as int, (y - y0) as nat) + year_len(y as int));
        }
        rem = rem - len;
        y = y + 1;
    }
    let ghost doy = rem;
    let mut m: u64 = 1;
    while m < 12 && rem >= month_len_exec(y, m)
        invariant
            1 <= m <= 12,
            rem <= doy,
            month_and_day(doy as nat, y as int, 1) == month_and_day(rem as nat, y as int, m as int),
        decreases 12 - m,
    {
        let len = month_len_exec(y, m);
        rem = rem - len;
        m = m + 1;
    }
    assert(rem < 366) by {
        lemma_year_and_day_range(days as nat, 1970);
    }
    (y, m, rem + 1)
}

} // verus!
