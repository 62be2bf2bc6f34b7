//! A plain civil date-time: the slice planner's model of time.
//!
//! A value holds year, month, day and time-of-day fields; its meaning is its
//! total count of seconds since the start of year zero of the proleptic
//! Gregorian calendar, `dt_secs`. Planner arithmetic is bounded to years
//! within the four-digit range that the wire format carries.

use crate::fails::Failed;
use crate::helpers::{all_digits, char_run, contains_sub, dec_str, digits_val, fill_len};
use crate::helpers::{
    append, find_first, from_chars, lemma_digits_val_upper, lpad_0, parse_digits, subvec, to_chars,
    u64_to_string,
};
use vstd::prelude::*;

verus! {

/// One civil timestamp, second precision.
#[derive(Clone, Copy)]
pub struct DateTime {
    pub year: u64,
    pub month: u64,
    pub day: u64,
    pub hour: u64,
    pub minute: u64,
    pub second: u64,
}

/// A leap year of the Gregorian calendar.
pub open spec fn is_leap(y: int) -> bool {
    y % 4 == 0 && (y % 100 != 0 || y % 400 == 0)
}

/// Days in one month.
pub open spec fn days_in_month(y: int, m: int) -> int {
    if m == 2 {
        if is_leap(y) {
            29
        } else {
            28
        }
    } else if m == 4 || m == 6 || m == 9 || m == 11 {
        30
    } else {
        31
    }
}

/// Days in one year.
pub open spec fn days_in_year(y: int) -> int {
    if is_leap(y) {
        366
    } else {
        365
    }
}

/// Days in all years before `y`, counted from year zero.
pub open spec fn days_before_year(y: int) -> int
    decreases y,
{
    if y <= 0 {
        0
    } else {
        days_before_year(y - 1) + days_in_year(y - 1)
    }
}

/// Days in all months of year `y` before month `m`.
pub open spec fn days_before_month(y: int, m: int) -> int
    decreases m,
{
    if m <= 1 {
        0
    } else {
        days_before_month(y, m - 1) + days_in_month(y, m - 1)
    }
}

/// The day number of a civil date, counted from year zero, January first.
pub open spec fn day_number(y: int, m: int, d: int) -> int {
    days_before_year(y) + days_before_month(y, m) + (d - 1)
}

impl DateTime {
    /// The fields name a real calendar date and time of day.
    pub open spec fn wf(self) -> bool {
        1 <= self.month <= 12 && 1 <= self.day <= days_in_month(
            self.year as int,
            self.month as int,
        ) && self.hour < 24 && self.minute < 60 && self.second < 60
    }

    /// The day number of the date part.
    pub open spec fn day_num(self) -> int {
        day_number(self.year as int, self.month as int, self.day as int)
    }

    /// The timestamp as seconds since year zero.
    pub open spec fn dt_secs(self) -> int {
        self.day_num() * 86400 + self.hour * 3600 + self.minute * 60 + self.second
    }
}

/// The planner never carries a date past this day number (a little over the
/// four-digit years).
pub open spec fn day_cap() -> int {
    3_700_000
}

/// The seconds counterpart of `day_cap`.
pub open spec fn sec_cap() -> int {
    319_680_000_000
}

/// The full twelve months of a year hold exactly its days.
proof fn lemma_months_sum(y: int)
    ensures
        days_before_month(y, 13) == days_in_year(y),
{
    reveal_with_fuel(days_before_month, 13);
}

/// Day counts never shrink as years pass, and grow at least 365 a year.
proof fn lemma_dby_lower(y: int)
    requires
        y >= 0,
    ensures
        days_before_year(y) >= 365 * y,
    decreases y,
{
    if y > 0 {
        lemma_dby_lower(y - 1);
    }
}

/// Day counts for the four-digit years stay under the planner's cap.
proof fn lemma_dby_upper(y: int)
    requires
        0 <= y,
    ensures
        days_before_year(y) <= 366 * y,
    decreases y,
{
    if y > 0 {
        lemma_dby_upper(y - 1);
    }
}

fn leap_year(y: u64) -> (r: bool)
    ensures
        r == is_leap(y as int),
{
    y % 4 == 0 && (y % 100 != 0 || y % 400 == 0)
}

fn month_days(y: u64, m: u64) -> (r: u64)
    ensures
        r == days_in_month(y as int, m as int),
{
    if m == 2 {
        if leap_year(y) {
            29
        } else {
            28
        }
    } else if m == 4 || m == 6 || m == 9 || m == 11 {
        30
    } else {
        31
    }
}

fn year_days(y: u64) -> (r: u64)
    ensures
        r == days_in_year(y as int),
{
    if leap_year(y) {
        366
    } else {
        365
    }
}

/// Computes the day number of a date, walking the years and months.
fn day_number_of(y: u64, m: u64, d: u64) -> (r: u64)
    requires
        y <= 10200,
        1 <= m <= 12,
        1 <= d <= days_in_month(y as int, m as int),
    ensures
        r == day_number(y as int, m as int, d as int),
        r <= 366 * y + 403,
{
    let mut acc: u64 = 0;
    let mut i: u64 = 0;
    while i < y
        invariant
            i <= y <= 10200,
            acc == days_before_year(i as int),
            acc <= 366 * i,
        decreases y - i,
    {
        acc = acc + year_days(i);
        i += 1;
    }
    let mut mm: u64 = 1;
    while mm < m
        invariant
            1 <= mm <= m <= 12,
            y <= 10200,
            acc == days_before_year(y as int) + days_before_month(y as int, mm as int),
            acc <= 366 * y + 31 * mm,
        decreases m - mm,
    {
        acc = acc + month_days(y, mm);
        mm += 1;
    }
    acc + (d - 1)
}

/// Computes the total seconds of a timestamp.
pub fn secs_of(dt: &DateTime) -> (r: u64)
    requires
        dt.wf(),
        dt.year <= 10200,
    ensures
        r == dt.dt_secs(),
{
    let days = day_number_of(dt.year, dt.month, dt.day);
    days * 86400 + dt.hour * 3600 + dt.minute * 60 + dt.second
}

proof fn lemma_dbm_bounds(y: int, m: int)
    requires
        1 <= m <= 13,
    ensures
        0 <= days_before_month(y, m) <= 31 * (m - 1),
    decreases m,
{
    if m > 1 {
        lemma_dbm_bounds(y, m - 1);
    }
}

/// A timestamp with a four-digit year stays well below the planner's
/// seconds cap.
pub proof fn lemma_four_digit_secs(dt: DateTime)
    requires
        dt.wf(),
        dt.year <= 9999,
    ensures
        0 <= dt.dt_secs() < 316_400_000_000,
{
    lemma_dby_upper(dt.year as int);
    lemma_dby_lower(dt.year as int);
    lemma_dbm_bounds(dt.year as int, dt.month as int);
    vstd::arithmetic::mul::lemma_mul_nonnegative(dt.day_num(), 86400);
    vstd::arithmetic::mul::lemma_mul_inequality(dt.day_num(), 3_660_100, 86400);
}

/// Moves a timestamp forward by whole days, rolling months and years over.
fn add_days(dt: DateTime, k: u64) -> (r: DateTime)
    requires
        dt.wf(),
        dt.day_num() + k < day_cap(),
    ensures
        r.wf(),
        r.day_num() == dt.day_num() + k,
        r.hour == dt.hour,
        r.minute == dt.minute,
        r.second == dt.second,
        r.year <= 10140,
{
    proof {
        lemma_dbm_bounds(dt.year as int, dt.month as int);
        lemma_dby_lower(dt.year as int);
    }
    let ghost target = dt.day_num() + k;
    let mut y = dt.year;
    let mut m = dt.month;
    let mut dd: u64 = dt.day - 1 + k;
    while dd >= month_days(y, m)
        invariant
            1 <= m <= 12,
            days_before_year(y as int) + days_before_month(y as int, m as int) + dd == target,
            target < day_cap(),
            y <= 10140,
        decreases dd,
    {
        let md = month_days(y, m);
        dd = dd - md;
        if m == 12 {
            proof {
                lemma_months_sum(y as int);
            }
            m = 1;
            y = y + 1;
            proof {
                lemma_dbm_bounds(y as int, 1);
                lemma_dby_lower(y as int);
            }
        } else {
            m = m + 1;
            proof {
                lemma_dbm_bounds(y as int, m as int);
            }
        }
    }
    DateTime { year: y, month: m, day: dd + 1, hour: dt.hour, minute: dt.minute, second: dt.second }
}

/// Moves a timestamp forward by `k` seconds.
pub fn add_seconds(dt: DateTime, k: u64) -> (r: DateTime)
    requires
        dt.wf(),
        dt.dt_secs() + k < sec_cap(),
    ensures
        r.wf(),
        r.dt_secs() == dt.dt_secs() + k,
        r.year <= 10140,
{
    proof {
        lemma_dbm_bounds(dt.year as int, dt.month as int);
        lemma_dby_lower(dt.year as int);
        vstd::arithmetic::mul::lemma_mul_nonnegative(dt.day_num(), 86400);
    }
    let s_total = dt.second + k;
    let sec = s_total % 60;
    let c1 = s_total / 60;
    proof {
        vstd::arithmetic::div_mod::lemma_fundamental_div_mod(s_total as int, 60);
    }
    let m_total = dt.minute + c1;
    let min = m_total % 60;
    let c2 = m_total / 60;
    proof {
        vstd::arithmetic::div_mod::lemma_fundamental_div_mod(m_total as int, 60);
    }
    let h_total = dt.hour + c2;
    let hour = h_total % 24;
    let c3 = h_total / 24;
    proof {
        vstd::arithmetic::div_mod::lemma_fundamental_div_mod(h_total as int, 24);
    }
    let base = DateTime {
        year: dt.year,
        month: dt.month,
        day: dt.day,
        hour,
        minute: min,
        second: sec,
    };
    proof {
        assert(base.dt_secs() + c3 * 86400 == dt.dt_secs() + k);
        assert(base.day_num() * 86400 + c3 * 86400 <= base.dt_secs() + c3 * 86400);
        assert((base.day_num() + c3) * 86400 < day_cap() * 86400) by {
            vstd::arithmetic::mul::lemma_mul_is_distributive_add_other_way(
                86400,
                base.day_num(),
                c3 as int,
            );
        }
        assert(base.day_num() + c3 < day_cap()) by {
            vstd::arithmetic::mul::lemma_mul_strict_inequality_converse(
                base.day_num() + c3,
                day_cap(),
                86400,
            );
        }
    }
    let r = add_days(base, c3);
    proof {
        vstd::arithmetic::mul::lemma_mul_is_distributive_add_other_way(
            86400,
            base.day_num(),
            c3 as int,
        );
    }
    r
}

// region text form

/// The shape of a plain date: `yyyy-mm-dd`.
pub open spec fn date_text_ok(s: Seq<char>) -> bool {
    &&& s.len() == 10
    &&& all_digits(s.subrange(0, 4))
    &&& s[4] == '-'
    &&& all_digits(s.subrange(5, 7))
    &&& s[7] == '-'
    &&& all_digits(s.subrange(8, 10))
}

/// The shape of a date with a time of day: `yyyy-mm-ddTHH:MM:SS`.
pub open spec fn datetime_text_ok(s: Seq<char>) -> bool {
    &&& s.len() == 19
    &&& date_text_ok(s.subrange(0, 10))
    &&& s[10] == 'T'
    &&& all_digits(s.subrange(11, 13))
    &&& s[13] == ':'
    &&& all_digits(s.subrange(14, 16))
    &&& s[16] == ':'
    &&& all_digits(s.subrange(17, 19))
}

/// The fields a plain date text denotes, at the start of its day.
pub open spec fn date_fields(s: Seq<char>) -> DateTime {
    DateTime {
        year: digits_val(s.subrange(0, 4)) as u64,
        month: digits_val(s.subrange(5, 7)) as u64,
        day: digits_val(s.subrange(8, 10)) as u64,
        hour: 0,
        minute: 0,
        second: 0,
    }
}

/// The fields a date-with-time text denotes.
pub open spec fn datetime_fields(s: Seq<char>) -> DateTime {
    DateTime {
        year: digits_val(s.subrange(0, 4)) as u64,
        month: digits_val(s.subrange(5, 7)) as u64,
        day: digits_val(s.subrange(8, 10)) as u64,
        hour: digits_val(s.subrange(11, 13)) as u64,
        minute: digits_val(s.subrange(14, 16)) as u64,
        second: digits_val(s.subrange(17, 19)) as u64,
    }
}

/// What a range-bound text denotes: a full timestamp when it holds a `T`,
/// else a date at midnight; nothing when the shape is wrong or the fields
/// name no real date.
pub open spec fn parsed_date_time(s: Seq<char>) -> Option<DateTime> {
    if contains_sub(s, seq!['T']) {
        if datetime_text_ok(s) && datetime_fields(s).wf() {
            Some(datetime_fields(s))
        } else {
            None
        }
    } else {
        if date_text_ok(s) && date_fields(s).wf() {
            Some(date_fields(s))
        } else {
            None
        }
    }
}

fn parse_two(v: &Vec<char>, at: usize) -> (r: Option<u64>)
    requires
        at + 2 <= v@.len(),
    ensures
        match r {
            Some(x) => all_digits(v@.subrange(at as int, at + 2)) && x == digits_val(
                v@.subrange(at as int, at + 2),
            ) && x <= 99,
            None => !all_digits(v@.subrange(at as int, at + 2)),
        },
{
    let n = v.len();
    proof {
        assert(at + 2 <= n);
    }
    let part = subvec(v, at, at + 2);
    let r = parse_digits(&part);
    proof {
        reveal_with_fuel(crate::helpers::pow10, 3);
        if all_digits(part@) {
            lemma_digits_val_upper(part@);
        }
    }
    r
}

fn parse_four(v: &Vec<char>, at: usize) -> (r: Option<u64>)
    requires
        at + 4 <= v@.len(),
    ensures
        match r {
            Some(x) => all_digits(v@.subrange(at as int, at + 4)) && x == digits_val(
                v@.subrange(at as int, at + 4),
            ) && x <= 9999,
            None => !all_digits(v@.subrange(at as int, at + 4)),
        },
{
    let n = v.len();
    proof {
        assert(at + 4 <= n);
    }
    let part = subvec(v, at, at + 4);
    let r = parse_digits(&part);
    proof {
        reveal_with_fuel(crate::helpers::pow10, 5);
        if all_digits(part@) {
            lemma_digits_val_upper(part@);
        }
    }
    r
}

/// Reads a range bound: a date `yyyy-mm-dd` or a timestamp
/// `yyyy-mm-ddTHH:MM:SS`.
pub fn parse_date_time(value: &str) -> (r: Result<DateTime, Failed>)
    ensures
        match parsed_date_time(value@) {
            Some(dt) => r is Ok && r->Ok_0 == dt && dt.year <= 9999,
            None => r is Err,
        },
{
    let v = to_chars(value);
    let tpat: Vec<char> = vec!['T'];
    proof {
        assert(tpat@ =~= seq!['T']);
    }
    let has_time = match find_first(&v, &tpat) {
        Some(_) => true,
        None => false,
    };
    let n = v.len();
    if has_time {
        if n != 19 {
            return Err(Failed::from(append("Wrong value for datetime: ", value)));
        }
        proof {
            assert(v@.subrange(0, 10).subrange(0, 4) =~= v@.subrange(0, 4));
            assert(v@.subrange(0, 10).subrange(5, 7) =~= v@.subrange(5, 7));
            assert(v@.subrange(0, 10).subrange(8, 10) =~= v@.subrange(8, 10));
        }
        if !(v[4] == '-' && v[7] == '-' && v[10] == 'T' && v[13] == ':' && v[16] == ':') {
            return Err(Failed::from(append("Wrong value for datetime: ", value)));
        }
        let year = match parse_four(&v, 0) {
            Some(x) => x,
            None => {
                return Err(Failed::from(append("Wrong value for datetime: ", value)));
            },
        };
        let month = match parse_two(&v, 5) {
            Some(x) => x,
            None => {
                return Err(Failed::from(append("Wrong value for datetime: ", value)));
            },
        };
        let day = match parse_two(&v, 8) {
            Some(x) => x,
            None => {
                return Err(Failed::from(append("Wrong value for datetime: ", value)));
            },
        };
        let hour = match parse_two(&v, 11) {
            Some(x) => x,
            None => {
                return Err(Failed::from(append("Wrong value for datetime: ", value)));
            },
        };
        let minute = match parse_two(&v, 14) {
            Some(x) => x,
            None => {
                return Err(Failed::from(append("Wrong value for datetime: ", value)));
            },
        };
        let second = match parse_two(&v, 17) {
            Some(x) => x,
            None => {
                return Err(Failed::from(append("Wrong value for datetime: ", value)));
            },
        };
        let dt = DateTime { year, month, day, hour, minute, second };
        proof {
            assert(v@.subrange(0, 10).subrange(0, 4) =~= v@.subrange(0, 4));
            assert(v@.subrange(0, 10).subrange(5, 7) =~= v@.subrange(5, 7));
            assert(v@.subrange(0, 10).subrange(8, 10) =~= v@.subrange(8, 10));
        }
        let ok = 1 <= month && month <= 12 && 1 <= day && day <= month_days(year, month) && hour
            < 24 && minute < 60 && second < 60;
        if ok {
            Ok(dt)
        } else {
            Err(Failed::from(append("Wrong value for datetime: ", value)))
        }
    } else {
        if n != 10 {
            return Err(Failed::from(append("Wrong value for date: ", value)));
        }
        if !(v[4] == '-' && v[7] == '-') {
            return Err(Failed::from(append("Wrong value for date: ", value)));
        }
        let year = match parse_four(&v, 0) {
            Some(x) => x,
            None => {
                return Err(Failed::from(append("Wrong value for date: ", value)));
            },
        };
        let month = match parse_two(&v, 5) {
            Some(x) => x,
            None => {
                return Err(Failed::from(append("Wrong value for date: ", value)));
            },
        };
        let day = match parse_two(&v, 8) {
            Some(x) => x,
            None => {
                return Err(Failed::from(append("Wrong value for date: ", value)));
            },
        };
        let dt = DateTime { year, month, day, hour: 0, minute: 0, second: 0 };
        let ok = 1 <= month && month <= 12 && 1 <= day && day <= month_days(year, month);
        if ok {
            Ok(dt)
        } else {
            Err(Failed::from(append("Wrong value for date: ", value)))
        }
    }
}

/// A number in decimal, left-padded with zeroes to width `w`.
pub open spec fn zero_pad(n: nat, w: int) -> Seq<char> {
    char_run('0', fill_len(dec_str(n).len() as int, w)) + dec_str(n)
}

/// The wire form of a timestamp: `yyyy-mm-ddTHH:MM:SSZ`.
pub open spec fn solr_time_text(dt: DateTime) -> Seq<char> {
    zero_pad(dt.year as nat, 4) + "-"@ + zero_pad(dt.month as nat, 2) + "-"@ + zero_pad(
        dt.day as nat,
        2,
    ) + "T"@ + zero_pad(dt.hour as nat, 2) + ":"@ + zero_pad(dt.minute as nat, 2) + ":"@
        + zero_pad(dt.second as nat, 2) + "Z"@
}

/// Formats a timestamp the way the query template expects it.
pub fn format_solr_time(date_time: &DateTime) -> (r: String)
    ensures
        r@ == solr_time_text(*date_time),
{
    let y = u64_to_string(date_time.year);
    let mo = u64_to_string(date_time.month);
    let d = u64_to_string(date_time.day);
    let h = u64_to_string(date_time.hour);
    let mi = u64_to_string(date_time.minute);
    let se = u64_to_string(date_time.second);
    let mut out = lpad_0(y.as_str(), 4);
    out.append("-");
    out.append(lpad_0(mo.as_str(), 2).as_str());
    out.append("-");
    out.append(lpad_0(d.as_str(), 2).as_str());
    out.append("T");
    out.append(lpad_0(h.as_str(), 2).as_str());
    out.append(":");
    out.append(lpad_0(mi.as_str(), 2).as_str());
    out.append(":");
    out.append(lpad_0(se.as_str(), 2).as_str());
    out.append("Z");
    proof {
        assert(out@ =~= solr_time_text(*date_time));
    }
    out
}

// endregion

} // verus!
