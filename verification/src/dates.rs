//! The calendar model behind the date-range flow: proleptic Gregorian
//! dates held as plain year/month/day numbers, a day-number measure that
//! orders them, the successor function, ISO rendering, and the expansion
//! of a start/end pair into every day between them, ascending and
//! inclusive of both endpoints.

use vstd::prelude::*;
use vstd::arithmetic::div_mod::{
    lemma_div_is_ordered, lemma_div_is_ordered_by_denominator, lemma_fundamental_div_mod,
    lemma_fundamental_div_mod_converse, lemma_mod_division_less_than_divisor,
};

verus! {

/// A calendar date as plain numbers. Years are kept to four digits so
/// that the ISO rendering is always ten characters, `YYYY-MM-DD`.
#[derive(Clone, Copy, PartialEq, Eq, Structural, Debug)]
pub struct Date {
    pub year: u32,
    pub month: u32,
    pub day: u32,
}

pub open spec fn is_leap_year(year: int) -> bool {
    year % 4 == 0 && (year % 100 != 0 || year % 400 == 0)
}

pub open spec fn spec_days_in_month(year: int, month: int) -> int {
    if month == 2 {
        if is_leap_year(year) {
            29
        } else {
            28
        }
    } else if month == 4 || month == 6 || month == 9 || month == 11 {
        30
    } else {
        31
    }
}

impl Date {
    /// The dates the library accepts: a four-digit year and a day that
    /// exists in its month.
    pub open spec fn valid(self) -> bool {
        &&& 1 <= self.year <= 9999
        &&& 1 <= self.month <= 12
        &&& 1 <= self.day <= spec_days_in_month(self.year as int, self.month as int)
    }
}

/// The last date the library can represent.
pub open spec fn last_date() -> Date {
    Date { year: 9999, month: 12, day: 31 }
}

/// Days in all years before `year`, counting years from 1.
pub open spec fn days_before_year(year: int) -> int {
    365 * (year - 1) + (year - 1) / 4 - (year - 1) / 100 + (year - 1) / 400
}

/// Days in the months of `year` strictly before `month`.
pub open spec fn days_before_month(year: int, month: int) -> int
    decreases month,
{
    if month <= 1 {
        0
    } else {
        days_before_month(year, month - 1) + spec_days_in_month(year, month - 1)
    }
}

/// The date's ordinal day number; day 1 is the first day of year 1. Two
/// valid dates stand in calendar order exactly as their day numbers do,
/// and consecutive days have consecutive numbers.
pub open spec fn spec_day_number(d: Date) -> int {
    days_before_year(d.year as int) + days_before_month(d.year as int, d.month as int)
        + d.day as int
}

/// The day after `d`, as a value; callers establish that it stays valid.
pub open spec fn spec_next_date(d: Date) -> Date {
    if d.day < spec_days_in_month(d.year as int, d.month as int) {
        Date { year: d.year, month: d.month, day: (d.day + 1) as u32 }
    } else if d.month < 12 {
        Date { year: d.year, month: (d.month + 1) as u32, day: 1 }
    } else {
        Date { year: (d.year + 1) as u32, month: 1, day: 1 }
    }
}

/// The date `k` days after `d`.
pub open spec fn date_after(d: Date, k: nat) -> Date
    decreases k,
{
    if k == 0 {
        d
    } else {
        spec_next_date(date_after(d, (k - 1) as nat))
    }
}

/// How one year's quotient by `k` grows over the previous year's: by one
/// exactly at the multiples of `k`.
proof fn lemma_div_step(y: int, k: int)
    requires
        y >= 1,
        k >= 1,
    ensures
        y / k == (y - 1) / k + if y % k == 0 { 1int } else { 0int },
{
    let q = (y - 1) / k;
    let r = (y - 1) % k;
    lemma_fundamental_div_mod(y - 1, k);
    lemma_mod_division_less_than_divisor(y - 1, k);
    if r + 1 < k {
        lemma_fundamental_div_mod_converse(y, k, q, r + 1);
    } else {
        assert(y == (q + 1) * k + 0) by (nonlinear_arith)
            requires y - 1 == q * k + r && r + 1 == k;
        lemma_fundamental_div_mod_converse(y, k, q + 1, 0);
    }
}

/// A year holds 365 days, or 366 in a leap year, counted month by month.
proof fn lemma_year_days(y: int)
    ensures
        days_before_month(y, 13) == if is_leap_year(y) { 366int } else { 365int },
{
    reveal_with_fuel(days_before_month, 14);
}

/// `days_before_year` grows by exactly one year's worth of days.
proof fn lemma_days_before_year_step(y: int)
    requires
        y >= 1,
    ensures
        days_before_year(y + 1) == days_before_year(y) + if is_leap_year(y) {
            366int
        } else {
            365int
        },
{
    lemma_div_step(y, 4);
    lemma_div_step(y, 100);
    lemma_div_step(y, 400);
    assert(y % 400 == 0 ==> y % 4 == 0 && y % 100 == 0) by (nonlinear_arith);
    assert(y % 100 == 0 ==> y % 4 == 0) by (nonlinear_arith);
}

/// Later years begin no earlier.
proof fn lemma_days_before_year_ordered(y1: int, y2: int)
    requires
        1 <= y1 <= y2,
    ensures
        days_before_year(y1) <= days_before_year(y2),
    decreases y2 - y1,
{
    if y1 < y2 {
        lemma_days_before_year_ordered(y1, y2 - 1);
        lemma_days_before_year_step(y2 - 1);
    }
}

/// Later months of one year begin no earlier.
proof fn lemma_days_before_month_ordered(y: int, m1: int, m2: int)
    requires
        1 <= m1 <= m2,
    ensures
        days_before_month(y, m1) <= days_before_month(y, m2),
    decreases m2 - m1,
{
    if m1 < m2 {
        lemma_days_before_month_ordered(y, m1, m2 - 1);
    }
}

/// The count of days before a year is nonnegative.
proof fn lemma_days_before_year_nonneg(y: int)
    requires
        y >= 1,
    ensures
        days_before_year(y) >= 0,
{
    lemma_div_is_ordered(0, y - 1, 4);
    lemma_div_is_ordered(0, y - 1, 400);
    assert((y - 1) / 100 <= y - 1) by {
        lemma_div_is_ordered_by_denominator(y - 1, 1, 100);
        assert((y - 1) / 1 == y - 1);
    }
}

/// The last date's number is the count of days before year 10000.
proof fn lemma_last_day_number()
    ensures
        spec_day_number(last_date()) == days_before_year(10000),
        days_before_year(10000) == 3652059,
{
    lemma_year_days(9999);
    assert(days_before_month(9999, 13) == days_before_month(9999, 12) + 31);
    lemma_days_before_year_step(9999);
}

/// Every valid date's number lies between day one and the last date's.
pub proof fn lemma_day_number_bounds(d: Date)
    requires
        d.valid(),
    ensures
        1 <= spec_day_number(d) <= spec_day_number(last_date()),
        spec_day_number(last_date()) == 3652059,
{
    let y = d.year as int;
    let m = d.month as int;
    lemma_days_before_year_nonneg(y);
    lemma_days_before_month_ordered(y, 1, m);
    assert(spec_day_number(d) >= 1);
    // Within the year: the date lies before the next month begins, and
    // the year's months together hold at most 366 days.
    assert(days_before_month(y, m + 1) == days_before_month(y, m) + spec_days_in_month(y, m));
    lemma_days_before_month_ordered(y, m + 1, 13);
    lemma_year_days(y);
    // Across the years: the next year begins no later than year 10000.
    lemma_days_before_year_step(y);
    lemma_days_before_year_ordered(y + 1, 10000);
    lemma_last_day_number();
}

/// The successor of a valid date other than the last is valid and has
/// the next day number.
pub proof fn lemma_next_date(d: Date)
    requires
        d.valid(),
        d != last_date(),
    ensures
        spec_next_date(d).valid(),
        spec_day_number(spec_next_date(d)) == spec_day_number(d) + 1,
{
    let y = d.year as int;
    let m = d.month as int;
    if d.day < spec_days_in_month(y, m) {
        // same month
    } else if d.month < 12 {
        assert(days_before_month(y, m + 1) == days_before_month(y, m) + spec_days_in_month(y, m));
    } else {
        assert(d.year < 9999);
        lemma_year_days(y);
        lemma_days_before_year_step(y);
        assert(days_before_month(y, 12) == days_before_month(y, 13) - 31) by {
            assert(days_before_month(y, 13) == days_before_month(y, 12) + spec_days_in_month(y, 12));
        }
    }
}

/// How many days the month has; February follows the leap-year rule.
pub fn days_in_month(year: u32, month: u32) -> (n: u32)
    requires
        1 <= month <= 12,
    ensures
        n == spec_days_in_month(year as int, month as int),
{
    if month == 2 {
        if year % 4 == 0 && (year % 100 != 0 || year % 400 == 0) {
            29
        } else {
            28
        }
    } else if month == 4 || month == 6 || month == 9 || month == 11 {
        30
    } else {
        31
    }
}

/// Days of the year before the month, summed month by month.
fn days_before_month_exec(year: u32, month: u32) -> (n: u32)
    requires
        1 <= month <= 12,
    ensures
        n == days_before_month(year as int, month as int),
{
    let mut n: u32 = 0;
    let mut m: u32 = 1;
    while m < month
        invariant
            1 <= m <= month <= 12,
            n == days_before_month(year as int, m as int),
            n <= 31 * (m - 1),
        decreases month - m,
    {
        n = n + days_in_month(year, m);
        m = m + 1;
    }
    n
}

/// The date's ordinal day number, as a machine integer.
pub fn day_number(d: Date) -> (n: u64)
    requires
        d.valid(),
    ensures
        n == spec_day_number(d),
{
    proof {
        lemma_day_number_bounds(d);
    }
    let y: u64 = (d.year - 1) as u64;
    proof {
        lemma_div_is_ordered(0, y as int, 4);
        lemma_div_is_ordered(0, y as int, 400);
        assert((y as int) / 100 <= 365 * (y as int)) by {
            lemma_div_is_ordered_by_denominator(y as int, 1, 100);
            assert((y as int) / 1 == y as int);
            assert(y as int <= 365 * (y as int));
        }
    }
    let before_years: u64 = 365 * y + y / 4 - y / 100 + y / 400;
    let before_months: u64 = days_before_month_exec(d.year, d.month) as u64;
    before_years + before_months + d.day as u64
}

/// The day after `d`.
pub fn next_date(d: Date) -> (n: Date)
    requires
        d.valid(),
        d != last_date(),
    ensures
        n == spec_next_date(d),
        n.valid(),
        spec_day_number(n) == spec_day_number(d) + 1,
{
    proof {
        lemma_next_date(d);
    }
    if d.day < days_in_month(d.year, d.month) {
        Date { year: d.year, month: d.month, day: d.day + 1 }
    } else if d.month < 12 {
        Date { year: d.year, month: d.month + 1, day: 1 }
    } else {
        Date { year: d.year + 1, month: 1, day: 1 }
    }
}

/// The date `k` days after a valid date is valid and `k` further along,
/// as long as it does not pass the last representable date; with
/// `date_after`'s definition this makes the expanded range consecutive
/// and strictly ascending by day number.
pub proof fn lemma_date_after(d: Date, k: nat)
    requires
        d.valid(),
        spec_day_number(d) + k <= spec_day_number(last_date()),
    ensures
        date_after(d, k).valid(),
        spec_day_number(date_after(d, k)) == spec_day_number(d) + k,
    decreases k,
{
    if k > 0 {
        lemma_date_after(d, (k - 1) as nat);
        let prev = date_after(d, (k - 1) as nat);
        if prev == last_date() {
            assert(spec_day_number(prev) == spec_day_number(last_date()));
            assert(false);
        }
        lemma_next_date(prev);
    }
}

/// With `start` at most `i` days before `end`, the range's day at
/// position `i` is a valid date exactly `i` days after `start`, and the
/// next position holds its immediate successor: the expanded range runs
/// over consecutive calendar days, ascending by day number.
pub proof fn lemma_range_consecutive(start: Date, end: Date, i: nat)
    requires
        start.valid(),
        end.valid(),
        spec_day_number(start) + i <= spec_day_number(end),
    ensures
        date_after(start, i).valid(),
        spec_day_number(date_after(start, i)) == spec_day_number(start) + i,
        date_after(start, i + 1) == spec_next_date(date_after(start, i)),
{
    lemma_day_number_bounds(end);
    lemma_date_after(start, i);
}

/// The character for one decimal digit.
pub open spec fn digit_char(d: int) -> char {
    if d == 0 {
        '0'
    } else if d == 1 {
        '1'
    } else if d == 2 {
        '2'
    } else if d == 3 {
        '3'
    } else if d == 4 {
        '4'
    } else if d == 5 {
        '5'
    } else if d == 6 {
        '6'
    } else if d == 7 {
        '7'
    } else if d == 8 {
        '8'
    } else {
        '9'
    }
}

/// The ISO rendering of a date: four year digits, a dash, two month
/// digits, a dash, two day digits.
pub open spec fn spec_format_date(d: Date) -> Seq<char> {
    let y = d.year as int;
    let m = d.month as int;
    let dd = d.day as int;
    seq![
        digit_char(y / 1000),
        digit_char((y / 100) % 10),
        digit_char((y / 10) % 10),
        digit_char(y % 10),
        '-',
        digit_char(m / 10),
        digit_char(m % 10),
        '-',
        digit_char(dd / 10),
        digit_char(dd % 10),
    ]
}

pub open spec fn is_decimal_digit(c: char) -> bool {
    c == '0' || c == '1' || c == '2' || c == '3' || c == '4' || c == '5' || c == '6' || c == '7'
        || c == '8' || c == '9'
}

/// The rendering of a valid date always has the shape `YYYY-MM-DD`: ten
/// characters, digits everywhere but the two dashes.
pub proof fn lemma_format_date_shape(d: Date)
    requires
        d.valid(),
    ensures
        spec_format_date(d).len() == 10,
        spec_format_date(d)[4] == '-',
        spec_format_date(d)[7] == '-',
        forall|i: int|
            0 <= i < 10 && i != 4 && i != 7 ==> is_decimal_digit(#[trigger] spec_format_date(d)[i]),
{
    let y = d.year as int;
    let m = d.month as int;
    let dd = d.day as int;
    lemma_div_is_ordered(y, 9999, 1000);
    lemma_div_is_ordered(0, y, 1000);
    lemma_mod_division_less_than_divisor(y / 100, 10);
    lemma_mod_division_less_than_divisor(y / 10, 10);
    lemma_mod_division_less_than_divisor(y, 10);
    lemma_div_is_ordered(0, y / 100, 10);
    lemma_div_is_ordered(m, 12, 10);
    lemma_div_is_ordered(0, m, 10);
    lemma_mod_division_less_than_divisor(m, 10);
    lemma_div_is_ordered(dd, 31, 10);
    lemma_div_is_ordered(0, dd, 10);
    lemma_mod_division_less_than_divisor(dd, 10);
}

/// One decimal digit as a string slice.
fn digit_str(d: u32) -> (s: &'static str)
    requires
        d <= 9,
    ensures
        s@ =~= seq![digit_char(d as int)],
{
    proof {
        reveal_strlit("0");
        reveal_strlit("1");
        reveal_strlit("2");
        reveal_strlit("3");
        reveal_strlit("4");
        reveal_strlit("5");
        reveal_strlit("6");
        reveal_strlit("7");
        reveal_strlit("8");
        reveal_strlit("9");
    }
    if d == 0 {
        "0"
    } else if d == 1 {
        "1"
    } else if d == 2 {
        "2"
    } else if d == 3 {
        "3"
    } else if d == 4 {
        "4"
    } else if d == 5 {
        "5"
    } else if d == 6 {
        "6"
    } else if d == 7 {
        "7"
    } else if d == 8 {
        "8"
    } else {
        "9"
    }
}

/// Renders the date as `YYYY-MM-DD`.
pub fn format_date(d: Date) -> (s: String)
    requires
        d.valid(),
    ensures
        s@ == spec_format_date(d),
{
    proof {
        reveal_strlit("-");
        lemma_div_is_ordered(d.year as int, 9999, 1000);
        lemma_div_is_ordered(0, d.year as int, 1000);
        lemma_mod_division_less_than_divisor(d.year as int / 100, 10);
        lemma_mod_division_less_than_divisor(d.year as int / 10, 10);
        lemma_mod_division_less_than_divisor(d.year as int, 10);
        lemma_mod_division_less_than_divisor(d.month as int, 10);
        lemma_mod_division_less_than_divisor(d.day as int, 10);
        lemma_div_is_ordered(d.month as int, 12, 10);
        lemma_div_is_ordered(0, d.month as int, 10);
        lemma_div_is_ordered(d.day as int, 31, 10);
        lemma_div_is_ordered(0, d.day as int, 10);
    }
    let mut s = String::new();
    s.append(digit_str(d.year / 1000));
    s.append(digit_str((d.year / 100) % 10));
    s.append(digit_str((d.year / 10) % 10));
    s.append(digit_str(d.year % 10));
    s.append("-");
    s.append(digit_str(d.month / 10));
    s.append(digit_str(d.month % 10));
    s.append("-");
    s.append(digit_str(d.day / 10));
    s.append(digit_str(d.day % 10));
    proof {
        assert(s@ =~= spec_format_date(d));
    }
    s
}

/// Expands a start/end pair into every day from `start` through `end`,
/// ascending and inclusive; an `end` before `start` gives no days.
pub fn date_range(start: Date, end: Date) -> (r: Vec<String>)
    requires
        start.valid(),
        end.valid(),
    ensures
        spec_day_number(start) > spec_day_number(end) ==> r@.len() == 0,
        spec_day_number(start) <= spec_day_number(end) ==> r@.len() == spec_day_number(end)
            - spec_day_number(start) + 1,
        forall|i: int|
            0 <= i < r@.len() ==> #[trigger] r@[i]@ == spec_format_date(date_after(start, i as nat)),
{
    proof {
        lemma_day_number_bounds(start);
        lemma_day_number_bounds(end);
    }
    let start_number = day_number(start);
    let end_number = day_number(end);
    let mut r: Vec<String> = Vec::new();
    if end_number < start_number {
        return r;
    }
    let total: usize = (end_number - start_number + 1) as usize;
    let mut cur = start;
    while r.len() < total
        invariant
            start.valid(),
            end.valid(),
            start_number == spec_day_number(start),
            end_number == spec_day_number(end),
            start_number <= end_number,
            spec_day_number(end) <= spec_day_number(last_date()),
            total == end_number - start_number + 1,
            r@.len() <= total,
            r@.len() < total ==> {
                &&& cur.valid()
                &&& cur == date_after(start, r@.len() as nat)
                &&& spec_day_number(cur) == start_number + r@.len()
            },
            forall|i: int|
                0 <= i < r@.len() ==> #[trigger] r@[i]@ == spec_format_date(
                    date_after(start, i as nat),
                ),
        decreases total - r.len(),
    {
        let rendered = format_date(cur);
        r.push(rendered);
        if r.len() < total {
            cur = next_date(cur);
        }
    }
    r
}

} // verus!
