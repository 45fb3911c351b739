//! Civil (proleptic Gregorian) calendar dates and the next-occurrence
//! arithmetic of the recurring-payment scheduler.
//!
//! The store keeps dates as year / month / day triples.  The calendar the
//! library reasons about runs from year 0 through year 9999 (the range that a
//! four-digit date column can hold); stepping past either end of that range
//! sticks at the boundary day.

use vstd::arithmetic::div_mod::{
    lemma_fundamental_div_mod, lemma_fundamental_div_mod_converse, lemma_mod_bound,
};
use vstd::prelude::*;

verus! {

pub const MIN_YEAR: i32 = 0;

pub const MAX_YEAR: i32 = 9999;

/// A civil calendar date, as stored in the date columns of the store.
#[derive(Clone, Copy, Debug, PartialEq, Eq, Structural)]
pub struct Date {
    pub year: i32,
    pub month: u8,
    pub day: u8,
}

/// How often a recurring payment fires.  `Other` stands for a frequency
/// string the store does not recognise; such payments advance day by day,
/// like daily ones.
#[derive(Clone, Copy, Debug, PartialEq, Eq, Structural)]
pub enum Frequency {
    Daily,
    Weekly,
    Monthly,
    Yearly,
    Other,
}

pub open spec fn is_leap_year(y: int) -> bool {
    y % 4 == 0 && (y % 100 != 0 || y % 400 == 0)
}

/// Length of month `m` of year `y`; months outside 1..=12 are given a
/// nominal 30 days so that the calendar functions are total.
pub open spec fn days_in_month(y: int, m: int) -> int {
    if m == 1 || m == 3 || m == 5 || m == 7 || m == 8 || m == 10 || m == 12 {
        31
    } else if m == 4 || m == 6 || m == 9 || m == 11 {
        30
    } else if m == 2 {
        if is_leap_year(y) {
            29
        } else {
            28
        }
    } else {
        30
    }
}

/// A date the calendar of this library can represent.
pub open spec fn date_valid(d: Date) -> bool {
    &&& MIN_YEAR <= d.year <= MAX_YEAR
    &&& 1 <= d.month <= 12
    &&& 1 <= d.day
    &&& d.day as int <= days_in_month(d.year as int, d.month as int)
}

/// The day after `d`, sticking at the end of the calendar.
pub open spec fn next_date_spec(d: Date) -> Date {
    if (d.day as int) < days_in_month(d.year as int, d.month as int) {
        Date { day: (d.day + 1) as u8, ..d }
    } else if d.month < 12 {
        Date { month: (d.month + 1) as u8, day: 1, ..d }
    } else if d.year < MAX_YEAR {
        Date { year: (d.year + 1) as i32, month: 1, day: 1 }
    } else {
        d
    }
}

/// The day before `d`, sticking at the start of the calendar.
pub open spec fn prev_date_spec(d: Date) -> Date {
    if d.day > 1 {
        Date { day: (d.day - 1) as u8, ..d }
    } else if d.month > 1 {
        Date {
            month: (d.month - 1) as u8,
            day: days_in_month(d.year as int, d.month - 1) as u8,
            ..d
        }
    } else if d.year > MIN_YEAR {
        Date { year: (d.year - 1) as i32, month: 12, day: 31 }
    } else {
        d
    }
}

/// `d` moved by `n` days (backwards for negative `n`), within the bounded
/// calendar.
pub open spec fn plus_days_spec(d: Date, n: int) -> Date
    decreases (if n >= 0 { n } else { -n }),
{
    if n > 0 {
        plus_days_spec(next_date_spec(d), n - 1)
    } else if n < 0 {
        plus_days_spec(prev_date_spec(d), n + 1)
    } else {
        d
    }
}

/// Stepping a valid date keeps it valid.
pub proof fn lemma_next_date_valid(d: Date)
    requires
        date_valid(d),
    ensures
        date_valid(next_date_spec(d)),
{
}

/// Stepping a valid date backwards keeps it valid.
pub proof fn lemma_prev_date_valid(d: Date)
    requires
        date_valid(d),
    ensures
        date_valid(prev_date_spec(d)),
{
}

/// Moving a valid date by any number of days keeps it valid.
pub proof fn lemma_plus_days_valid(d: Date, n: int)
    requires
        date_valid(d),
    ensures
        date_valid(plus_days_spec(d, n)),
    decreases (if n >= 0 { n } else { -n }),
{
    if n > 0 {
        lemma_next_date_valid(d);
        lemma_plus_days_valid(next_date_spec(d), n - 1);
    } else if n < 0 {
        lemma_prev_date_valid(d);
        lemma_plus_days_valid(prev_date_spec(d), n + 1);
    }
}

impl Date {
    /// Whether this triple names a day of the bounded calendar.
    pub fn is_valid(&self) -> (r: bool)
        ensures
            r == date_valid(*self),
    {
        MIN_YEAR <= self.year && self.year <= MAX_YEAR && 1 <= self.month && self.month <= 12
            && 1 <= self.day && self.day <= days_in_month_exec(self.year, self.month)
    }
}

/// Executable counterpart of `is_leap_year`.
pub fn is_leap_year_exec(y: i32) -> (r: bool)
    ensures
        r == is_leap_year(y as int),
{
    y % 4 == 0 && (y % 100 != 0 || y % 400 == 0)
}

/// Executable counterpart of `days_in_month`.
pub fn days_in_month_exec(y: i32, m: u8) -> (r: u8)
    ensures
        r as int == days_in_month(y as int, m as int),
{
    if m == 1 || m == 3 || m == 5 || m == 7 || m == 8 || m == 10 || m == 12 {
        31
    } else if m == 4 || m == 6 || m == 9 || m == 11 {
        30
    } else if m == 2 {
        if is_leap_year_exec(y) {
            29
        } else {
            28
        }
    } else {
        30
    }
}

/// The day after `d`; the end of the calendar is its own successor.
pub fn next_date(d: Date) -> (r: Date)
    ensures
        r == next_date_spec(d),
{
    if d.day < days_in_month_exec(d.year, d.month) {
        Date { day: d.day + 1, ..d }
    } else if d.month < 12 {
        Date { month: d.month + 1, day: 1, ..d }
    } else if d.year < MAX_YEAR {
        Date { year: d.year + 1, month: 1, day: 1 }
    } else {
        d
    }
}

/// The day before `d`; the start of the calendar is its own predecessor.
pub fn prev_date(d: Date) -> (r: Date)
    ensures
        r == prev_date_spec(d),
{
    if d.day > 1 {
        Date { day: d.day - 1, ..d }
    } else if d.month > 1 {
        Date { month: d.month - 1, day: days_in_month_exec(d.year, d.month - 1), ..d }
    } else if d.year > MIN_YEAR {
        Date { year: d.year - 1, month: 12, day: 31 }
    } else {
        d
    }
}

/// `d` moved by `n` days, backwards for negative `n`.
pub fn add_days(d: Date, n: i64) -> (r: Date)
    ensures
        r == plus_days_spec(d, n as int),
{
    let mut cur = d;
    let mut k: i64 = n;
    while k > 0
        invariant
            plus_days_spec(cur, k as int) == plus_days_spec(d, n as int),
        decreases k,
    {
        cur = next_date(cur);
        k = k - 1;
    }
    while k < 0
        invariant
            k <= 0,
            plus_days_spec(cur, k as int) == plus_days_spec(d, n as int),
        decreases -k,
    {
        cur = prev_date(cur);
        k = k + 1;
    }
    cur
}


/// A monotone ordinal for calendar order: later days map to larger
/// numbers (the coefficients dominate the month and day ranges).
pub open spec fn date_ord(d: Date) -> int {
    d.year * 1000 + d.month * 50 + d.day
}

/// Stepping a valid day other than the calendar's last strictly raises
/// its ordinal.
pub proof fn lemma_next_date_ord(d: Date)
    requires
        date_valid(d),
        d != (Date { year: MAX_YEAR, month: 12, day: 31 }),
    ensures
        date_ord(next_date_spec(d)) > date_ord(d),
        date_valid(next_date_spec(d)),
{
    lemma_next_date_valid(d);
}


/// No valid day lies strictly between a valid day and its successor.
pub proof fn lemma_next_date_tight(d: Date, dd: Date)
    requires
        date_valid(d),
        date_valid(dd),
        d != (Date { year: MAX_YEAR, month: 12, day: 31 }),
        date_le_spec(d, dd),
        !date_le_spec(next_date_spec(d), dd),
    ensures
        dd == d,
{
}

/// Calendar order agrees with the ordinal on valid days.
pub proof fn lemma_date_ord_le(a: Date, b: Date)
    requires
        date_valid(a),
        date_valid(b),
    ensures
        date_le_spec(a, b) <==> date_ord(a) <= date_ord(b),
{
}

/// `a` is on or before `b` in calendar order.
pub open spec fn date_le_spec(a: Date, b: Date) -> bool {
    ||| a.year < b.year
    ||| (a.year == b.year && a.month < b.month)
    ||| (a.year == b.year && a.month == b.month && a.day <= b.day)
}

/// Executable calendar-order comparison.
pub fn date_le(a: Date, b: Date) -> (r: bool)
    ensures
        r == date_le_spec(a, b),
{
    a.year < b.year || (a.year == b.year && a.month < b.month) || (a.year == b.year && a.month
        == b.month && a.day <= b.day)
}

/// The day-of-month a monthly payment aims at: the explicit anchor if one is
/// given, else the day of the date it advances from, clamped to 28 so that
/// every month of every year can hold it.
pub open spec fn monthly_target_day(day_of_period: Option<i32>, from: Date) -> int {
    match day_of_period {
        Some(x) => if x <= 28 {
            x as int
        } else {
            28
        },
        None => if from.day <= 28 {
            from.day as int
        } else {
            28
        },
    }
}

/// A monthly payment advanced by `value` months: the month index moves by
/// `value` with the year carrying, and the day is the clamped target day.
/// If no such day exists (a non-positive anchor) or the year leaves the
/// calendar, the payment falls back to thirty plain days ahead.
pub open spec fn monthly_next_spec(value: int, day_of_period: Option<i32>, from: Date) -> Date {
    let day = monthly_target_day(day_of_period, from);
    let t = from.month - 1 + value;
    let m2 = t % 12 + 1;
    let y2 = from.year + t / 12;
    if 1 <= day && MIN_YEAR <= y2 <= MAX_YEAR {
        Date { year: y2 as i32, month: m2 as u8, day: day as u8 }
    } else {
        plus_days_spec(from, 30)
    }
}

/// A yearly payment advanced by `value` years: the same month and day with
/// the year moved, falling back to 365 plain days ahead when that date does
/// not exist (a leap day in a common year, or a year outside the calendar).
pub open spec fn yearly_next_spec(value: int, from: Date) -> Date {
    let y2 = from.year + value;
    if MIN_YEAR <= y2 <= MAX_YEAR && 1 <= from.month <= 12 && 1 <= from.day && from.day as int
        <= days_in_month(y2, from.month as int) {
        Date { year: y2 as i32, month: from.month, day: from.day }
    } else {
        plus_days_spec(from, 365)
    }
}

/// The next occurrence of a payment with the given frequency, multiplier and
/// optional day-of-period anchor, advancing from `from`.  Daily payments and
/// payments of unrecognised frequency move by `value` days, weekly ones by
/// `value` weeks.
pub open spec fn next_occurrence_spec(
    frequency: Frequency,
    value: int,
    day_of_period: Option<i32>,
    from: Date,
) -> Date {
    match frequency {
        Frequency::Daily => plus_days_spec(from, value),
        Frequency::Weekly => plus_days_spec(from, 7 * value),
        Frequency::Monthly => monthly_next_spec(value, day_of_period, from),
        Frequency::Yearly => yearly_next_spec(value, from),
        Frequency::Other => plus_days_spec(from, value),
    }
}

fn monthly_next(value: i32, day_of_period: Option<i32>, from: Date) -> (r: Date)
    ensures
        r == monthly_next_spec(value as int, day_of_period, from),
        date_valid(from) ==> date_valid(r),
{
    let day: i32 = match day_of_period {
        Some(x) => if x <= 28 {
            x
        } else {
            28
        },
        None => if from.day <= 28 {
            from.day as i32
        } else {
            28
        },
    };
    let t: i64 = (from.month as i64) - 1 + (value as i64);
    // Shift into nonnegative territory by a multiple of 12 so that the
    // machine remainder agrees with the mathematical one.
    let shift: i64 = 178956971;
    let t2: i64 = t + 12 * shift;
    let m2: i64 = t2 % 12 + 1;
    let y2: i64 = (from.year as i64) + t2 / 12 - shift;
    proof {
        lemma_mod_bound(t as int, 12);
        lemma_fundamental_div_mod(t as int, 12);
        lemma_fundamental_div_mod_converse(
            t2 as int,
            12,
            (t as int) / 12 + shift as int,
            (t as int) % 12,
        );
    }
    if 1 <= day && (MIN_YEAR as i64) <= y2 && y2 <= (MAX_YEAR as i64) {
        let r = Date { year: y2 as i32, month: m2 as u8, day: day as u8 };
        r
    } else {
        let r = add_days(from, 30);
        proof {
            if date_valid(from) {
                lemma_plus_days_valid(from, 30);
            }
        }
        r
    }
}

fn yearly_next(value: i32, from: Date) -> (r: Date)
    ensures
        r == yearly_next_spec(value as int, from),
        date_valid(from) ==> date_valid(r),
{
    let y2: i64 = (from.year as i64) + (value as i64);
    if (MIN_YEAR as i64) <= y2 && y2 <= (MAX_YEAR as i64) && 1 <= from.month && from.month <= 12
        && 1 <= from.day && from.day <= days_in_month_exec(y2 as i32, from.month) {
        Date { year: y2 as i32, month: from.month, day: from.day }
    } else {
        let r = add_days(from, 365);
        proof {
            if date_valid(from) {
                lemma_plus_days_valid(from, 365);
            }
        }
        r
    }
}

/// Next execution date of a recurring payment, advancing from `from`.
pub fn calculate_next_execution_date(
    frequency: Frequency,
    frequency_value: i32,
    day_of_period: Option<i32>,
    from: Date,
) -> (r: Date)
    ensures
        r == next_occurrence_spec(frequency, frequency_value as int, day_of_period, from),
        date_valid(from) ==> date_valid(r),
{
    match frequency {
        Frequency::Daily => {
            let r = add_days(from, frequency_value as i64);
            proof {
                if date_valid(from) {
                    lemma_plus_days_valid(from, frequency_value as int);
                }
            }
            r
        },
        Frequency::Weekly => {
            let r = add_days(from, 7 * (frequency_value as i64));
            proof {
                if date_valid(from) {
                    lemma_plus_days_valid(from, 7 * (frequency_value as int));
                }
            }
            r
        },
        Frequency::Monthly => monthly_next(frequency_value, day_of_period, from),
        Frequency::Yearly => yearly_next(frequency_value, from),
        Frequency::Other => {
            let r = add_days(from, frequency_value as i64);
            proof {
                if date_valid(from) {
                    lemma_plus_days_valid(from, frequency_value as int);
                }
            }
            r
        },
    }
}

/// Which frequency a stored frequency string names; anything unrecognised
/// is `Other`.
pub open spec fn frequency_of(s: Seq<char>) -> Frequency {
    if s == "daily"@ {
        Frequency::Daily
    } else if s == "weekly"@ {
        Frequency::Weekly
    } else if s == "monthly"@ {
        Frequency::Monthly
    } else if s == "yearly"@ {
        Frequency::Yearly
    } else {
        Frequency::Other
    }
}

/// Parse a frequency string as the store understands it.
pub fn parse_frequency(s: &String) -> (r: Frequency)
    ensures
        r == frequency_of(s@),
{
    if *s == "daily".to_owned() {
        Frequency::Daily
    } else if *s == "weekly".to_owned() {
        Frequency::Weekly
    } else if *s == "monthly".to_owned() {
        Frequency::Monthly
    } else if *s == "yearly".to_owned() {
        Frequency::Yearly
    } else {
        Frequency::Other
    }
}

} // verus!
