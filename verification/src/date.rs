//! Calendar dates and timestamps as plain values.
//!
//! Stored rows carry their creation time as a calendar date plus a
//! time-of-day, so that "last run" markers can be compared and turned back
//! into the `YYYY-MM-DD HH:MM:SS` text the rest of the system exchanges.

use vstd::prelude::*;

use crate::text::{digit_val, fmt_2digits, fmt_year, spec_dec2, spec_dec_year, spec_digit_val};

verus! {

/// A calendar date in the proleptic Gregorian calendar.
#[derive(Clone, Copy, Debug, PartialEq, Eq, Structural)]
pub struct Date {
    pub year: i32,
    pub month: u8,
    pub day: u8,
}

/// A calendar date with a time of day, the precision the record store keeps.
#[derive(Clone, Copy, Debug, PartialEq, Eq, Structural)]
pub struct Stamp {
    pub date: Date,
    pub hour: u8,
    pub minute: u8,
    pub second: u8,
}

/// Gregorian leap-year rule.
pub open spec fn spec_is_leap_year(y: int) -> bool {
    y % 4 == 0 && (y % 100 != 0 || y % 400 == 0)
}

/// Number of days in the given month of the given year.
pub open spec fn spec_days_in_month(y: int, m: int) -> int {
    if m == 2 {
        if spec_is_leap_year(y) {
            29
        } else {
            28
        }
    } else if m == 4 || m == 6 || m == 9 || m == 11 {
        30
    } else {
        31
    }
}

/// A date is valid when its month exists and its day exists in that month.
pub open spec fn valid_date(d: Date) -> bool {
    &&& 1 <= d.month <= 12
    &&& 1 <= d.day <= spec_days_in_month(d.year as int, d.month as int)
}

/// A stamp is valid when its date is and its time of day is in range.
pub open spec fn valid_stamp(s: Stamp) -> bool {
    &&& valid_date(s.date)
    &&& s.hour < 24
    &&& s.minute < 60
    &&& s.second < 60
}

/// Chronological order on dates, as a key: year, then month, then day.
pub open spec fn spec_date_le(a: Date, b: Date) -> bool {
    if a.year != b.year {
        a.year < b.year
    } else if a.month != b.month {
        a.month < b.month
    } else {
        a.day <= b.day
    }
}

/// Strict chronological order on dates.
pub open spec fn spec_date_lt(a: Date, b: Date) -> bool {
    spec_date_le(a, b) && a != b
}

/// Chronological order on stamps: date, then time of day.
pub open spec fn spec_stamp_le(a: Stamp, b: Stamp) -> bool {
    if a.date != b.date {
        spec_date_le(a.date, b.date)
    } else if a.hour != b.hour {
        a.hour < b.hour
    } else if a.minute != b.minute {
        a.minute < b.minute
    } else {
        a.second <= b.second
    }
}

impl Date {
    /// Whether this date falls on or after `other`.
    pub fn on_or_after(&self, other: &Date) -> (r: bool)
        ensures
            r == spec_date_le(*other, *self),
    {
        if self.year != other.year {
            other.year < self.year
        } else if self.month != other.month {
            other.month < self.month
        } else {
            other.day <= self.day
        }
    }
}

impl Stamp {
    /// Whether this stamp is no later than `other`.
    pub fn le(&self, other: &Stamp) -> (r: bool)
        ensures
            r == spec_stamp_le(*self, *other),
    {
        if self.date.year != other.date.year || self.date.month != other.date.month
            || self.date.day != other.date.day {
            self.date.on_or_after(&other.date) == false
        } else if self.hour != other.hour {
            self.hour < other.hour
        } else if self.minute != other.minute {
            self.minute < other.minute
        } else {
            self.second <= other.second
        }
    }
}

/// `YYYY-MM-DD` notation of a date.
pub open spec fn spec_fmt_ymd(d: Date) -> Seq<char> {
    spec_dec_year(d.year as int) + seq!['-'] + spec_dec2(d.month as int) + seq!['-'] + spec_dec2(
        d.day as int,
    )
}

/// `YYYY-MM-DD HH:MM:SS` notation of a stamp.
pub open spec fn spec_fmt_stamp(s: Stamp) -> Seq<char> {
    spec_fmt_ymd(s.date) + seq![' '] + spec_dec2(s.hour as int) + seq![':'] + spec_dec2(
        s.minute as int,
    ) + seq![':'] + spec_dec2(s.second as int)
}

/// `YYYYMMDDHHMMSS` notation of a stamp, as image file names use it.
pub open spec fn spec_fmt_compact(s: Stamp) -> Seq<char> {
    spec_dec_year(s.date.year as int) + spec_dec2(s.date.month as int) + spec_dec2(
        s.date.day as int,
    ) + spec_dec2(s.hour as int) + spec_dec2(s.minute as int) + spec_dec2(s.second as int)
}

/// The date a ten-character `YYYY-MM-DD` text denotes, if it is one and the
/// date exists in the calendar.
pub open spec fn spec_parse_ymd(s: Seq<char>) -> Option<Date> {
    if s.len() == 10 && s[4] == '-' && s[7] == '-' && spec_digit_val(s[0]) is Some
        && spec_digit_val(s[1]) is Some && spec_digit_val(s[2]) is Some && spec_digit_val(s[3])
        is Some && spec_digit_val(s[5]) is Some && spec_digit_val(s[6]) is Some && spec_digit_val(
        s[8],
    ) is Some && spec_digit_val(s[9]) is Some {
        let y = 1000 * spec_digit_val(s[0])->Some_0 + 100 * spec_digit_val(s[1])->Some_0 + 10
            * spec_digit_val(s[2])->Some_0 + spec_digit_val(s[3])->Some_0;
        let m = 10 * spec_digit_val(s[5])->Some_0 + spec_digit_val(s[6])->Some_0;
        let day = 10 * spec_digit_val(s[8])->Some_0 + spec_digit_val(s[9])->Some_0;
        let date = Date { year: y as i32, month: m as u8, day: day as u8 };
        if valid_date(date) {
            Some(date)
        } else {
            None
        }
    } else {
        None
    }
}

/// The text before the first space, or all of it if there is none.
pub open spec fn spec_space_prefix(s: Seq<char>) -> Seq<char>
    decreases s.len(),
{
    if s.len() == 0 || s[0] == ' ' {
        Seq::empty()
    } else {
        seq![s[0]] + spec_space_prefix(s.drop_first())
    }
}

/// The date denoted by the part of a `YYYY-MM-DD HH:MM:SS`-style text that
/// precedes its first space.
pub open spec fn spec_parse_date_prefix(s: Seq<char>) -> Option<Date> {
    spec_parse_ymd(spec_space_prefix(s))
}

/// The previous calendar day.
pub open spec fn spec_date_pred(d: Date) -> Date {
    if d.day > 1 {
        Date { year: d.year, month: d.month, day: (d.day - 1) as u8 }
    } else if d.month > 1 {
        Date {
            year: d.year,
            month: (d.month - 1) as u8,
            day: spec_days_in_month(d.year as int, d.month as int - 1) as u8,
        }
    } else {
        Date { year: (d.year - 1) as i32, month: 12, day: 31 }
    }
}

/// The date `n` days earlier, `None` when the calendar runs out.
pub open spec fn spec_date_minus_days(d: Date, n: int) -> Option<Date>
    decreases n,
{
    if n <= 0 {
        Some(d)
    } else if d.year == i32::MIN && d.month == 1 && d.day == 1 {
        None
    } else {
        spec_date_minus_days(spec_date_pred(d), n - 1)
    }
}

/// Days in `month` of `year`, executable form.
pub fn days_in_month(year: i32, month: u8) -> (r: u8)
    requires
        1 <= month <= 12,
    ensures
        r as int == spec_days_in_month(year as int, month as int),
{
    if month == 2 {
        if year % 4 == 0 && (year % 100 != 0 || year % 400 == 0) {
            29
        } else {
            28
        }
    } else if month == 4 || month == 6 || month == 9 || month == 11 {
        30
    } else {
        31
    }
}

/// Renders a date as `YYYY-MM-DD`.
pub fn format_ymd(d: &Date) -> (r: String)
    requires
        valid_date(*d),
    ensures
        r@ == spec_fmt_ymd(*d),
{
    proof {
        reveal_strlit("-");
    }
    let mut out = fmt_year(d.year);
    out.append("-");
    out.append(fmt_2digits(d.month).as_str());
    out.append("-");
    out.append(fmt_2digits(d.day).as_str());
    out
}

/// Renders a stamp as `YYYY-MM-DD HH:MM:SS`.
pub fn format_stamp(s: &Stamp) -> (r: String)
    requires
        valid_stamp(*s),
    ensures
        r@ == spec_fmt_stamp(*s),
{
    proof {
        reveal_strlit(" ");
        reveal_strlit(":");
    }
    let mut out = format_ymd(&s.date);
    out.append(" ");
    out.append(fmt_2digits(s.hour).as_str());
    out.append(":");
    out.append(fmt_2digits(s.minute).as_str());
    out.append(":");
    out.append(fmt_2digits(s.second).as_str());
    out
}

/// Renders a stamp as `YYYYMMDDHHMMSS`.
pub fn format_compact(s: &Stamp) -> (r: String)
    requires
        valid_stamp(*s),
    ensures
        r@ == spec_fmt_compact(*s),
{
    let mut out = fmt_year(s.date.year);
    out.append(fmt_2digits(s.date.month).as_str());
    out.append(fmt_2digits(s.date.day).as_str());
    out.append(fmt_2digits(s.hour).as_str());
    out.append(fmt_2digits(s.minute).as_str());
    out.append(fmt_2digits(s.second).as_str());
    out
}

/// Reads a `YYYY-MM-DD` text; rejects anything else, including dates that do
/// not exist in the calendar.
pub fn parse_ymd(s: &str) -> (r: Option<Date>)
    ensures
        r == spec_parse_ymd(s@),
{
    proof {
        reveal_strlit("-");
    }
    if s.unicode_len() != 10 {
        return None;
    }
    if s.get_char(4) != '-' || s.get_char(7) != '-' {
        return None;
    }
    let d0 = digit_val(s.get_char(0));
    let d1 = digit_val(s.get_char(1));
    let d2 = digit_val(s.get_char(2));
    let d3 = digit_val(s.get_char(3));
    let d5 = digit_val(s.get_char(5));
    let d6 = digit_val(s.get_char(6));
    let d8 = digit_val(s.get_char(8));
    let d9 = digit_val(s.get_char(9));
    match (d0, d1, d2, d3, d5, d6, d8, d9) {
        (
            Some(v0),
            Some(v1),
            Some(v2),
            Some(v3),
            Some(v5),
            Some(v6),
            Some(v8),
            Some(v9),
        ) => {
            let year: i32 = 1000 * (v0 as i32) + 100 * (v1 as i32) + 10 * (v2 as i32) + (v3 as i32);
            let month: u8 = 10 * v5 + v6;
            let day: u8 = 10 * v8 + v9;
            let date = Date { year, month, day };
            if 1 <= month && month <= 12 && 1 <= day && day <= days_in_month(year, month) {
                Some(date)
            } else {
                None
            }
        },
        _ => None,
    }
}

proof fn lemma_space_prefix_take(s: Seq<char>, i: int)
    requires
        0 <= i <= s.len(),
        forall|j: int| 0 <= j < i ==> s[j] != ' ',
        i == s.len() || s[i] == ' ',
    ensures
        spec_space_prefix(s) == s.take(i),
    decreases i,
{
    if i == 0 {
        assert(spec_space_prefix(s) =~= s.take(0));
    } else {
        lemma_space_prefix_take(s.drop_first(), i - 1);
        assert(forall|j: int| 0 <= j < i - 1 ==> s.drop_first()[j] == s[j + 1]);
        assert(seq![s[0]] + s.drop_first().take(i - 1) =~= s.take(i));
    }
}

/// Reads the date written before the first space of a timestamp-style text,
/// as the sync markers store it.
pub fn parse_date_prefix(s: &str) -> (r: Option<Date>)
    ensures
        r == spec_parse_date_prefix(s@),
{
    let len = s.unicode_len();
    let mut i: usize = 0;
    while i < len
        invariant
            0 <= i <= len == s@.len(),
            forall|j: int| 0 <= j < i ==> s@[j] != ' ',
        ensures
            0 <= i <= len,
            forall|j: int| 0 <= j < i ==> s@[j] != ' ',
            i == len || s@[i as int] == ' ',
        decreases len - i,
    {
        if s.get_char(i) == ' ' {
            break ;
        }
        i = i + 1;
    }
    proof {
        lemma_space_prefix_take(s@, i as int);
    }
    let prefix = s.substring_char(0, i);
    assert(prefix@ == spec_space_prefix(s@));
    parse_ymd(prefix)
}

/// The previous calendar day, executable form.
pub fn date_pred(d: &Date) -> (r: Date)
    requires
        valid_date(*d),
        !(d.year == i32::MIN && d.month == 1 && d.day == 1),
    ensures
        r == spec_date_pred(*d),
        valid_date(r),
{
    if d.day > 1 {
        Date { year: d.year, month: d.month, day: d.day - 1 }
    } else if d.month > 1 {
        Date { year: d.year, month: d.month - 1, day: days_in_month(d.year, d.month - 1) }
    } else {
        Date { year: d.year - 1, month: 12, day: 31 }
    }
}

/// The date `n` days earlier; `None` only when the calendar runs out.
pub fn date_minus_days(d: &Date, n: u32) -> (r: Option<Date>)
    requires
        valid_date(*d),
    ensures
        r == spec_date_minus_days(*d, n as int),
        r matches Some(x) ==> valid_date(x),
{
    let mut cur = *d;
    let mut i: u32 = 0;
    while i < n
        invariant
            0 <= i <= n,
            valid_date(cur),
            spec_date_minus_days(*d, n as int) == spec_date_minus_days(cur, n as int - i as int),
        decreases n - i,
    {
        if cur.year == i32::MIN && cur.month == 1 && cur.day == 1 {
            return None;
        }
        cur = date_pred(&cur);
        i = i + 1;
    }
    Some(cur)
}

} // verus!
