//! Calendar dates and the dump's header timestamp: strict `YYYY-MM-DD` and
//! `Updated: YYYY-MM-DD HH:MM:SS +HHMM` parsing, with normalization of the
//! offset-qualified local time to naive UTC.

use vstd::prelude::*;

use crate::ipv4::digit_val;
use crate::ipv4::is_digit;
use crate::ipv4::is_digit_exec;
use crate::ipv4::digit_val_exec;
use crate::text::first_occ;
use crate::text::trim_spec;

verus! {

/// One calendar date.
#[derive(Clone, Copy, Debug, PartialEq, Eq, Structural, Hash, PartialOrd, Ord)]
pub struct Date {
    pub year: u32,
    pub month: u8,
    pub day: u8,
}

/// One naive (zone-free) date and time of day.
#[derive(Clone, Copy, Debug, PartialEq, Eq, Structural, Hash, PartialOrd, Ord)]
pub struct DateTime {
    pub date: Date,
    pub hour: u8,
    pub minute: u8,
    pub second: u8,
}

pub open spec fn is_leap_year(y: u32) -> bool {
    y % 4 == 0 && (y % 100 != 0 || y % 400 == 0)
}

pub open spec fn days_in_month(y: u32, m: u8) -> u8 {
    if m == 2 {
        if is_leap_year(y) {
            29
        } else {
            28
        }
    } else if m == 4 || m == 6 || m == 9 || m == 11 {
        30
    } else {
        31
    }
}

impl Date {
    /// A real calendar date with a four-digit year.
    pub open spec fn wf(&self) -> bool {
        self.year <= 9999 && 1 <= self.month <= 12 && 1 <= self.day <= days_in_month(
            self.year,
            self.month,
        )
    }

    /// Build a date from its fields.
    pub fn from_ymd(year: u32, month: u8, day: u8) -> (r: Date)
        requires
            (Date { year, month, day }).wf(),
        ensures
            r == (Date { year, month, day }),
    {
        Date { year, month, day }
    }

    /// Attach a time of day.
    pub fn and_hms(self, hour: u8, minute: u8, second: u8) -> (r: DateTime)
        requires
            hour < 24,
            minute < 60,
            second < 60,
        ensures
            r == (DateTime { date: self, hour, minute, second }),
    {
        DateTime { date: self, hour, minute, second }
    }
}

impl DateTime {
    pub open spec fn wf(&self) -> bool {
        self.date.wf() && self.hour < 24 && self.minute < 60 && self.second < 60
    }
}

/// The date one day later.
pub open spec fn next_date(d: Date) -> Date {
    if d.day < days_in_month(d.year, d.month) {
        Date { day: (d.day + 1) as u8, ..d }
    } else if d.month < 12 {
        Date { month: (d.month + 1) as u8, day: 1, ..d }
    } else {
        Date { year: (d.year + 1) as u32, month: 1, day: 1 }
    }
}

/// The date one day earlier (meaningful except at the calendar's origin).
pub open spec fn prev_date(d: Date) -> Date {
    if d.day > 1 {
        Date { day: (d.day - 1) as u8, ..d }
    } else if d.month > 1 {
        Date { month: (d.month - 1) as u8, day: days_in_month(d.year, (d.month - 1) as u8), ..d }
    } else {
        Date { year: (d.year - 1) as u32, month: 12, day: 31 }
    }
}

/// Shift a local datetime east-of-UTC by `off_min` minutes back to UTC.
/// Fails only when the result would precede the calendar's origin.
pub open spec fn utc_normalize(dt: DateTime, off_min: int) -> Option<DateTime> {
    let total = dt.hour * 60 + dt.minute - off_min;
    if total < 0 {
        if dt.date.year == 0 && dt.date.month == 1 && dt.date.day == 1 {
            None
        } else {
            Some(
                DateTime {
                    date: prev_date(dt.date),
                    hour: ((total + 1440) / 60) as u8,
                    minute: ((total + 1440) % 60) as u8,
                    second: dt.second,
                },
            )
        }
    } else if total >= 1440 {
        Some(
            DateTime {
                date: next_date(dt.date),
                hour: ((total - 1440) / 60) as u8,
                minute: ((total - 1440) % 60) as u8,
                second: dt.second,
            },
        )
    } else {
        Some(DateTime { date: dt.date, hour: (total / 60) as u8, minute: (total % 60) as u8, second: dt.second })
    }
}

/// Strict `YYYY-MM-DD`.
pub open spec fn spec_parse_date(s: Seq<char>) -> Option<Date> {
    if s.len() == 10 && is_digit(s[0]) && is_digit(s[1]) && is_digit(s[2]) && is_digit(s[3])
        && s[4] == '-' && is_digit(s[5]) && is_digit(s[6]) && s[7] == '-' && is_digit(s[8])
        && is_digit(s[9]) {
        let y = (1000 * digit_val(s[0]) + 100 * digit_val(s[1]) + 10 * digit_val(s[2]) + digit_val(
            s[3],
        )) as u32;
        let m = (10 * digit_val(s[5]) + digit_val(s[6])) as u8;
        let d = (10 * digit_val(s[8]) + digit_val(s[9])) as u8;
        if (Date { year: y, month: m, day: d }).wf() {
            Some(Date { year: y, month: m, day: d })
        } else {
            None
        }
    } else {
        None
    }
}

/// Strict `YYYY-MM-DD HH:MM:SS +HHMM` (or `-HHMM`), normalized to UTC.
pub open spec fn spec_parse_stamp(s: Seq<char>) -> Option<DateTime> {
    if s.len() == 25 && spec_parse_date(s.take(10)) is Some && s[10] == ' ' && is_digit(s[11])
        && is_digit(s[12]) && s[13] == ':' && is_digit(s[14]) && is_digit(s[15]) && s[16] == ':'
        && is_digit(s[17]) && is_digit(s[18]) && s[19] == ' ' && (s[20] == '+' || s[20] == '-')
        && is_digit(s[21]) && is_digit(s[22]) && is_digit(s[23]) && is_digit(s[24]) {
        let date = spec_parse_date(s.take(10))->0;
        let h = (10 * digit_val(s[11]) + digit_val(s[12])) as u8;
        let mi = (10 * digit_val(s[14]) + digit_val(s[15])) as u8;
        let sec = (10 * digit_val(s[17]) + digit_val(s[18])) as u8;
        let oh = 10 * digit_val(s[21]) + digit_val(s[22]);
        let om = 10 * digit_val(s[23]) + digit_val(s[24]);
        if h < 24 && mi < 60 && sec < 60 && oh <= 23 && om <= 59 {
            let off: int = if s[20] == '+' {
                oh * 60 + om
            } else {
                -(oh * 60 + om)
            };
            utc_normalize(DateTime { date, hour: h, minute: mi, second: sec }, off)
        } else {
            None
        }
    } else {
        None
    }
}

/// The header line: everything after the first `:`, trimmed, parsed as an
/// offset-qualified timestamp.
pub open spec fn spec_parse_header(line: Seq<char>) -> Option<DateTime> {
    match first_occ(line, ':') {
        None => None,
        Some(i) => if 0 <= i && i < line.len() {
            spec_parse_stamp(trim_spec(line.skip(i + 1)))
        } else {
            None
        },
    }
}

pub fn days_in_month_exec(y: u32, m: u8) -> (r: u8)
    ensures
        r == days_in_month(y, m),
{
    if m == 2 {
        if y % 4 == 0 && (y % 100 != 0 || y % 400 == 0) {
            29
        } else {
            28
        }
    } else if m == 4 || m == 6 || m == 9 || m == 11 {
        30
    } else {
        31
    }
}

/// Parse a strict `YYYY-MM-DD` date.
pub fn parse_date(s: &Vec<char>) -> (r: Option<Date>)
    ensures
        r == spec_parse_date(s@),
        r matches Some(d) ==> d.wf(),
{
    if s.len() != 10 {
        return None;
    }
    if !(is_digit_exec(s[0]) && is_digit_exec(s[1]) && is_digit_exec(s[2]) && is_digit_exec(s[3])
        && s[4] == '-' && is_digit_exec(s[5]) && is_digit_exec(s[6]) && s[7] == '-'
        && is_digit_exec(s[8]) && is_digit_exec(s[9])) {
        return None;
    }
    let y = 1000 * digit_val_exec(s[0]) + 100 * digit_val_exec(s[1]) + 10 * digit_val_exec(s[2])
        + digit_val_exec(s[3]);
    let m = (10 * digit_val_exec(s[5]) + digit_val_exec(s[6])) as u8;
    let d = (10 * digit_val_exec(s[8]) + digit_val_exec(s[9])) as u8;
    if 1 <= m && m <= 12 && 1 <= d && d <= days_in_month_exec(y, m) {
        assert(y <= 9999);
        Some(Date { year: y, month: m, day: d })
    } else {
        None
    }
}

/// Parse a strict offset-qualified timestamp and normalize it to UTC.
pub fn parse_stamp(s: &Vec<char>) -> (r: Option<DateTime>)
    ensures
        r == spec_parse_stamp(s@),
        r matches Some(dt) ==> dt.hour < 24 && dt.minute < 60 && dt.second < 60,
{
    if s.len() != 25 {
        return None;
    }
    let mut date_part: Vec<char> = Vec::new();
    for i in 0..10usize
        invariant
            s@.len() == 25,
            date_part@ == s@.subrange(0, i as int),
    {
        date_part.push(s[i]);
        assert(s@.subrange(0, i + 1) =~= s@.subrange(0, i as int).push(s@[i as int]));
    }
    assert(date_part@ =~= s@.take(10));
    let date = match parse_date(&date_part) {
        Some(d) => d,
        None => {
            return None;
        },
    };
    if !(s[10] == ' ' && is_digit_exec(s[11]) && is_digit_exec(s[12]) && s[13] == ':'
        && is_digit_exec(s[14]) && is_digit_exec(s[15]) && s[16] == ':' && is_digit_exec(s[17])
        && is_digit_exec(s[18]) && s[19] == ' ' && (s[20] == '+' || s[20] == '-')
        && is_digit_exec(s[21]) && is_digit_exec(s[22]) && is_digit_exec(s[23]) && is_digit_exec(
        s[24],
    )) {
        return None;
    }
    let h = (10 * digit_val_exec(s[11]) + digit_val_exec(s[12])) as u8;
    let mi = (10 * digit_val_exec(s[14]) + digit_val_exec(s[15])) as u8;
    let sec = (10 * digit_val_exec(s[17]) + digit_val_exec(s[18])) as u8;
    let oh = 10 * digit_val_exec(s[21]) + digit_val_exec(s[22]);
    let om = 10 * digit_val_exec(s[23]) + digit_val_exec(s[24]);
    if !(h < 24 && mi < 60 && sec < 60 && oh <= 23 && om <= 59) {
        return None;
    }
    let local = DateTime { date, hour: h, minute: mi, second: sec };
    let neg = s[20] == '-';
    let off_abs = oh * 60 + om;
    let ghost off: int = if s@[20] == '+' { off_abs as int } else { -(off_abs as int) };
    let total: i32 = (h as i32) * 60 + (mi as i32) + if neg {
        off_abs as i32
    } else {
        -(off_abs as i32)
    };
    assert(total == local.hour * 60 + local.minute - off);
    if total < 0 {
        if date.year == 0 && date.month == 1 && date.day == 1 {
            return None;
        }
        let t = total + 1440;
        assert(0 <= t < 1440);
        let th = t / 60;
        let tm = t % 60;
        assert(0 <= th < 24 && 0 <= tm < 60) by (nonlinear_arith)
            requires
                0 <= t < 1440,
                th == t / 60,
                tm == t % 60,
        ;
        Some(DateTime { date: prev_date_exec(&date), hour: th as u8, minute: tm as u8, second: sec })
    } else if total >= 1440 {
        let t = total - 1440;
        assert(0 <= t < 1440);
        let th = t / 60;
        let tm = t % 60;
        assert(0 <= th < 24 && 0 <= tm < 60) by (nonlinear_arith)
            requires
                0 <= t < 1440,
                th == t / 60,
                tm == t % 60,
        ;
        Some(DateTime { date: next_date_exec(&date), hour: th as u8, minute: tm as u8, second: sec })
    } else {
        let th = total / 60;
        let tm = total % 60;
        assert(0 <= th < 24 && 0 <= tm < 60) by (nonlinear_arith)
            requires
                0 <= total < 1440,
                th == total / 60,
                tm == total % 60,
        ;
        Some(DateTime { date, hour: th as u8, minute: tm as u8, second: sec })
    }
}

pub fn next_date_exec(d: &Date) -> (r: Date)
    requires
        d.wf(),
    ensures
        r == next_date(*d),
{
    if d.day < days_in_month_exec(d.year, d.month) {
        Date { day: d.day + 1, ..*d }
    } else if d.month < 12 {
        Date { month: d.month + 1, day: 1, ..*d }
    } else {
        Date { year: d.year + 1, month: 1, day: 1 }
    }
}

pub fn prev_date_exec(d: &Date) -> (r: Date)
    requires
        d.wf(),
        !(d.year == 0 && d.month == 1 && d.day == 1),
    ensures
        r == prev_date(*d),
{
    if d.day > 1 {
        Date { day: d.day - 1, ..*d }
    } else if d.month > 1 {
        Date { month: d.month - 1, day: days_in_month_exec(d.year, d.month - 1), ..*d }
    } else {
        Date { year: d.year - 1, month: 12, day: 31 }
    }
}

/// Parse the dump's first line: `Updated:` followed by a timestamp.
pub fn parse_header(line: &Vec<char>) -> (r: Option<DateTime>)
    ensures
        r == spec_parse_header(line@),
        r matches Some(dt) ==> dt.hour < 24 && dt.minute < 60 && dt.second < 60,
{
    match crate::text::find_char(line, ':') {
        None => None,
        Some(i) => {
            proof {
                crate::text::lemma_first_occ(line@, ':');
            }
            let mut rest: Vec<char> = Vec::new();
            let n = line.len();
            for j in (i + 1)..n
                invariant
                    i < n == line@.len(),
                    rest@ == line@.subrange(i + 1, j as int),
            {
                rest.push(line[j]);
                assert(line@.subrange(i + 1, j + 1) =~= line@.subrange(i + 1, j as int).push(
                    line@[j as int],
                ));
            }
            assert(rest@ =~= line@.skip(i + 1));
            let trimmed = crate::text::trim(&rest);
            parse_stamp(&trimmed)
        },
    }
}

/// Zero-padded `YYYY-MM-DD` rendering of a date.
pub open spec fn date_chars(d: Date) -> Seq<char> {
    seq![
        crate::ipv4::digit_char((d.year / 1000) as u32),
        crate::ipv4::digit_char(((d.year / 100) % 10) as u32),
        crate::ipv4::digit_char(((d.year / 10) % 10) as u32),
        crate::ipv4::digit_char((d.year % 10) as u32),
        '-',
        crate::ipv4::digit_char((d.month / 10) as u32),
        crate::ipv4::digit_char((d.month % 10) as u32),
        '-',
        crate::ipv4::digit_char((d.day / 10) as u32),
        crate::ipv4::digit_char((d.day % 10) as u32),
    ]
}

/// Render a date as zero-padded `YYYY-MM-DD`.
pub fn date_to_chars(d: &Date) -> (r: Vec<char>)
    requires
        d.wf(),
    ensures
        r@ == date_chars(*d),
{
    let y = d.year;
    let m = d.month as u32;
    let day = d.day as u32;
    assert(y / 1000 < 10 && (y / 100) % 10 < 10 && (y / 10) % 10 < 10 && y % 10 < 10)
        by (nonlinear_arith)
        requires
            y <= 9999,
    ;
    assert(m / 10 < 10 && m % 10 < 10 && day / 10 < 10 && day % 10 < 10) by (nonlinear_arith)
        requires
            m <= 12 && day <= 31,
    ;
    let mut r: Vec<char> = Vec::new();
    r.push(((y / 1000 + 48) as u8) as char);
    r.push((((y / 100) % 10 + 48) as u8) as char);
    r.push((((y / 10) % 10 + 48) as u8) as char);
    r.push(((y % 10 + 48) as u8) as char);
    r.push('-');
    r.push(((m / 10 + 48) as u8) as char);
    r.push(((m % 10 + 48) as u8) as char);
    r.push('-');
    r.push(((day / 10 + 48) as u8) as char);
    r.push(((day % 10 + 48) as u8) as char);
    assert(r@ =~= date_chars(*d));
    r
}

/// Stepping one day forward and then one day back returns to the same
/// date, and the step stays inside the calendar (except past its very last
/// day, where the year would need a fifth digit).
pub proof fn lemma_date_step_inverse(d: Date)
    requires
        d.wf(),
        !(d.year == 9999 && d.month == 12 && d.day == 31),
    ensures
        next_date(d).wf(),
        prev_date(next_date(d)) == d,
{
}

/// Stepping one day back and then one day forward returns to the same
/// date, except at the calendar's origin.
pub proof fn lemma_date_step_inverse_back(d: Date)
    requires
        d.wf(),
        !(d.year == 0 && d.month == 1 && d.day == 1),
    ensures
        prev_date(d).wf(),
        next_date(prev_date(d)) == d,
{
}

} // verus!
