//! Calendar arithmetic: the wire carries dates as packed fields or plain
//! YYYYMMDD numbers, and timestamps are seconds from the Unix epoch.

use vstd::prelude::*;
use vstd::string::*;
use crate::text::{pad2_chars, pad4_chars, pad2_string, pad4_string};
use crate::types::Timestamp;

verus! {

/// Whether `y` is a Gregorian leap year.
pub open spec fn is_leap(y: int) -> bool {
    (y % 4 == 0 && y % 100 != 0) || y % 400 == 0
}

/// The number of days in year `y`.
pub open spec fn days_in_year_spec(y: int) -> int {
    if is_leap(y) {
        366
    } else {
        365
    }
}

/// The number of days in month `m` of year `y` (1 through 12).
pub open spec fn month_len(y: int, m: int) -> int {
    if m == 1 {
        31
    } else if m == 2 {
        if is_leap(y) {
            29
        } else {
            28
        }
    } else if m == 3 {
        31
    } else if m == 4 {
        30
    } else if m == 5 {
        31
    } else if m == 6 {
        30
    } else if m == 7 {
        31
    } else if m == 8 {
        31
    } else if m == 9 {
        30
    } else if m == 10 {
        31
    } else if m == 11 {
        30
    } else {
        31
    }
}

/// Days from 1970-01-01 to the given civil date (Julian-day formula;
/// January and February count as months 13 and 14 of the previous year).
pub open spec fn days_from_civil(y: int, m: int, d: int) -> int {
    let y2 = if m <= 2 {
        y - 1
    } else {
        y
    };
    let m2 = if m <= 2 {
        m + 12
    } else {
        m
    };
    365 * y2 + y2 / 4 - y2 / 100 + y2 / 400 + (153 * m2 - 457) / 5 + d - 306 - 719163
}

/// Whether `year` is a leap year.
pub fn is_leap_year(year: i32) -> (r: bool)
    requires
        year >= 0,
    ensures
        r == is_leap(year as int),
{
    (year % 4 == 0 && year % 100 != 0) || year % 400 == 0
}

/// Days from 1970-01-01 to the given civil date. Out-of-range months and
/// days are extrapolated linearly, as the formula does.
pub fn days_from_date(year: i32, month: u32, day: u32) -> (r: i64)
    requires
        0 <= year <= 1_000_000,
        month <= 1000,
        day <= 1000,
    ensures
        r as int == days_from_civil(year as int, month as int, day as int),
{
    let y: i64 = year as i64;
    let m: i64 = month as i64;
    let d: i64 = day as i64;
    let y2: i64 = if m <= 2 {
        y - 1
    } else {
        y
    };
    let m2: i64 = if m <= 2 {
        m + 12
    } else {
        m
    };
    // Shift the year by 400 so every quotient is of a nonnegative number,
    // then drop the shift's contribution of 146097 days again.
    let ys: i64 = y2 + 400;
    let jd: i64 = 365 * ys + ys / 4 - ys / 100 + ys / 400 + (153 * m2 - 457) / 5 + d - 306;
    proof {
        vstd::arithmetic::div_mod::lemma_hoist_over_denominator(y2 as int, 100, 4nat);
        vstd::arithmetic::div_mod::lemma_hoist_over_denominator(y2 as int, 4, 100nat);
        vstd::arithmetic::div_mod::lemma_hoist_over_denominator(y2 as int, 1, 400nat);
    }
    jd - 146097 - 719163
}

/// The timestamp of the given civil date and time of day.
pub fn timestamp_of(year: i32, month: u32, day: u32, hour: u32, minute: u32, second: u32) -> (r:
    Timestamp)
    requires
        0 <= year <= 1_000_000,
        month <= 1000,
        day <= 1000,
        hour <= 100000,
        minute <= 100000,
        second <= 100000,
    ensures
        r.secs as int == 86400 * days_from_civil(year as int, month as int, day as int) + 3600
            * hour + 60 * minute + second,
{
    let days: i64 = days_from_date(year, month, day);
    Timestamp {
        secs: days * 86400 + (hour as i64) * 3600 + (minute as i64) * 60 + second as i64,
    }
}

/// The year and day-of-year remainder after peeling whole years off a
/// day count, starting from year `y`.
pub open spec fn split_year(y: int, rem: int) -> (int, int)
    decreases rem,
{
    if rem >= days_in_year_spec(y) && rem >= 0 {
        split_year(y + 1, rem - days_in_year_spec(y))
    } else {
        (y, rem)
    }
}

/// The month and day-of-month remainder after peeling whole months off a
/// day-of-year count, starting from month `m` of year `y`.
pub open spec fn split_month(y: int, m: int, rem: int) -> (int, int)
    decreases 13 - m,
{
    if 1 <= m <= 12 && rem >= month_len(y, m) {
        split_month(y, m + 1, rem - month_len(y, m))
    } else {
        (m, rem)
    }
}

/// The civil rendering of a timestamp, "YYYY-MM-DD HH:MM:SS"; timestamps
/// before the epoch render as the epoch.
pub open spec fn format_time_chars(secs: int) -> Seq<char> {
    let s = if secs < 0 {
        0
    } else {
        secs
    };
    let days = s / 86400;
    let tod = s % 86400;
    let ys = split_year(1970, days);
    let ms = split_month(ys.0, 1, ys.1);
    pad4_chars(ys.0) + seq!['-'] + pad2_chars(ms.0) + seq!['-'] + pad2_chars(ms.1 + 1) + seq![' ']
        + pad2_chars(tod / 3600) + seq![':'] + pad2_chars(tod % 3600 / 60) + seq![':']
        + pad2_chars(tod % 60)
}

/// The number of days in year `y`.
fn days_in_year(y: i64) -> (r: i64)
    requires
        y >= 0,
    ensures
        r as int == days_in_year_spec(y as int),
{
    if (y % 4 == 0 && y % 100 != 0) || y % 400 == 0 {
        366
    } else {
        365
    }
}

/// The number of days in month `m` of year `y`.
fn month_len_exec(y: i64, m: i64) -> (r: i64)
    requires
        y >= 0,
        1 <= m <= 12,
    ensures
        r as int == month_len(y as int, m as int),
{
    match m {
        1 => 31,
        2 => {
            if (y % 4 == 0 && y % 100 != 0) || y % 400 == 0 {
                29
            } else {
                28
            }
        },
        3 => 31,
        4 => 30,
        5 => 31,
        6 => 30,
        7 => 31,
        8 => 31,
        9 => 30,
        10 => 31,
        11 => 30,
        _ => 31,
    }
}

/// Renders a timestamp as "YYYY-MM-DD HH:MM:SS" in the naive calendar
/// the wire uses (no zone shifts; the server's clock is local).
pub fn format_time(time: &Timestamp) -> (r: String)
    ensures
        r@ == format_time_chars(time.secs as int),
{
    proof {
        reveal_strlit("-");
        reveal_strlit(" ");
        reveal_strlit(":");
    }
    let s: u64 = if time.secs < 0 {
        0
    } else {
        time.secs as u64
    };
    let days0: u64 = s / 86400;
    let tod: u64 = s % 86400;
    let mut year: u64 = 1970;
    let mut rem: u64 = days0;
    while rem >= days_in_year(year as i64) as u64
        invariant
            1970 <= year,
            year - 1970 <= days0 - rem,
            days0 <= 0x10_0000_0000_0000,
            rem <= days0,
            split_year(1970, days0 as int) == split_year(year as int, rem as int),
        decreases rem,
    {
        let len: u64 = days_in_year(year as i64) as u64;
        rem = rem - len;
        year = year + 1;
    }
    let mut month: u64 = 1;
    while month <= 12 && rem >= month_len_exec(year as i64, month as i64) as u64
        invariant
            1970 <= year <= 0x20_0000_0000_0000,
            1 <= month <= 13,
            rem <= 0x10_0000_0000_0000,
            split_month(year as int, 1, split_year(1970, days0 as int).1) == split_month(
                year as int,
                month as int,
                rem as int,
            ),
            split_year(1970, days0 as int).0 == year as int,
            days0 <= 0x10_0000_0000_0000,
        decreases 13 - month,
    {
        let len: u64 = month_len_exec(year as i64, month as i64) as u64;
        rem = rem - len;
        month = month + 1;
    }
    let day: u64 = rem + 1;
    let mut out: String = pad4_string(year);
    out.append("-");
    out.append(pad2_string(month).as_str());
    out.append("-");
    out.append(pad2_string(day).as_str());
    out.append(" ");
    out.append(pad2_string(tod / 3600).as_str());
    out.append(":");
    out.append(pad2_string(tod % 3600 / 60).as_str());
    out.append(":");
    out.append(pad2_string(tod % 60).as_str());
    proof {
        assert(out@ =~= format_time_chars(time.secs as int));
    }
    out
}

/// The value of a run of decimal digits; None when the run is empty or
/// holds any other character.
pub open spec fn parse_digits(s: Seq<char>) -> Option<int>
    decreases s.len(),
{
    if s.len() == 0 {
        None
    } else {
        let c = s[s.len() - 1] as int;
        if c < 0x30 || c > 0x39 {
            None
        } else if s.len() == 1 {
            Some(c - 0x30)
        } else {
            match parse_digits(s.drop_last()) {
                None => None,
                Some(head) => Some(10 * head + (c - 0x30)),
            }
        }
    }
}

/// Reads an unsigned decimal number from `s`: all characters must be
/// digits and the value must fit 32 bits.
pub fn parse_u32_digits(s: &str) -> (r: Option<u32>)
    ensures
        r matches Some(v) ==> parse_digits(s@) == Some(v as int),
        r is None ==> (parse_digits(s@) is None || parse_digits(s@)->Some_0 > u32::MAX),
{
    let n: usize = s.unicode_len();
    if n == 0 {
        return None;
    }
    let mut value: u64 = 0;
    let mut i: usize = 0;
    while i < n
        invariant
            0 < n == s@.len(),
            i <= n,
            parse_digits(s@.subrange(0, i as int)) == if i == 0 {
                None::<int>
            } else {
                Some(value as int)
            },
            value <= 0xFFFF_FFFF,
            i == 0 ==> value == 0,
        decreases n - i,
    {
        let c: char = s.get_char(i);
        let cu: u32 = c as u32;
        if cu < 0x30 || cu > 0x39 {
            proof {
                lemma_parse_digits_bad(s@, i as int);
            }
            return None;
        }
        let d: u64 = (cu - 0x30) as u64;
        let next: u64 = 10 * value + d;
        proof {
            assert(s@.subrange(0, i as int + 1).drop_last() =~= s@.subrange(0, i as int));
            assert(parse_digits(s@.subrange(0, i as int + 1)) == Some(next as int));
        }
        if next > 0xFFFF_FFFF {
            proof {
                lemma_parse_digits_grows(s@, i as int + 1);
            }
            return None;
        }
        value = next;
        i = i + 1;
    }
    proof {
        assert(s@.subrange(0, n as int) =~= s@);
    }
    Some(value as u32)
}

/// A non-digit anywhere makes the whole run unparseable.
proof fn lemma_parse_digits_bad(s: Seq<char>, i: int)
    requires
        0 <= i < s.len(),
        (s[i] as int) < 0x30 || (s[i] as int) > 0x39,
    ensures
        parse_digits(s) is None,
    decreases s.len(),
{
    if s.len() > 0 && i < s.len() - 1 {
        lemma_parse_digits_bad(s.drop_last(), i);
    }
}

/// A longer digit run never has a smaller value: whatever follows a
/// prefix worth more than fits 32 bits keeps the run out of range.
proof fn lemma_parse_digits_grows(s: Seq<char>, i: int)
    requires
        1 <= i <= s.len(),
    ensures
        ({
            let head = parse_digits(s.subrange(0, i));
            let full = parse_digits(s);
            head is None ==> full is None
        }),
        ({
            let head = parse_digits(s.subrange(0, i));
            let full = parse_digits(s);
            head is Some && full is Some ==> full->Some_0 >= head->Some_0
        }),
    decreases s.len() - i,
{
    lemma_parse_digits_nonneg(s);
    if i == s.len() {
        assert(s.subrange(0, i) =~= s);
    } else {
        lemma_parse_digits_grows(s, i + 1);
        assert(s.subrange(0, i + 1).drop_last() =~= s.subrange(0, i));
        lemma_parse_digits_nonneg(s.subrange(0, i));
        lemma_parse_digits_nonneg(s.subrange(0, i + 1));
    }
}

/// A digit run is never worth a negative value.
proof fn lemma_parse_digits_nonneg(s: Seq<char>)
    ensures
        parse_digits(s) matches Some(v) ==> v >= 0,
    decreases s.len(),
{
    if s.len() > 1 {
        lemma_parse_digits_nonneg(s.drop_last());
    }
}

/// The timestamp `parse_datetime` yields: the named day at the given
/// time, with the epoch's year, month or day standing in for a field
/// that does not parse, and the epoch itself for a date of the wrong
/// length.
pub open spec fn datetime_secs(date: Seq<char>, hour: int, minute: int, second: int) -> int {
    if date.len() != 8 {
        0
    } else {
        let y = match parse_digits(date.subrange(0, 4)) {
            Some(v) => if v <= 9999 {
                v
            } else {
                1970int
            },
            None => 1970int,
        };
        let mo = match parse_digits(date.subrange(4, 6)) {
            Some(v) => if v <= 99 {
                v
            } else {
                1int
            },
            None => 1int,
        };
        let d = match parse_digits(date.subrange(6, 8)) {
            Some(v) => if v <= 99 {
                v
            } else {
                1int
            },
            None => 1int,
        };
        86400 * days_from_civil(y, mo, d) + 3600 * hour + 60 * minute + second
    }
}

/// Builds the timestamp of `hour:minute:second` on the day the
/// "YYYYMMDD" string names. A malformed date falls back to the epoch
/// date, field by field: year 1970, month 1, day 1.
pub fn parse_datetime(date: &str, hour: u32, minute: u32, second: u32) -> (r: Timestamp)
    requires
        hour <= 100000,
        minute <= 100000,
        second <= 100000,
    ensures
        r.secs as int == datetime_secs(date@, hour as int, minute as int, second as int),
{
    let n: usize = date.unicode_len();
    if n != 8 {
        return Timestamp { secs: 0 };
    }
    let year: u32 = match parse_u32_digits(date.substring_char(0, 4)) {
        Some(v) => if v <= 9999 {
            v
        } else {
            1970
        },
        None => 1970,
    };
    let month: u32 = match parse_u32_digits(date.substring_char(4, 6)) {
        Some(v) => if v <= 99 {
            v
        } else {
            1
        },
        None => 1,
    };
    let day: u32 = match parse_u32_digits(date.substring_char(6, 8)) {
        Some(v) => if v <= 99 {
            v
        } else {
            1
        },
        None => 1,
    };
    proof {
        lemma_parse_digits_bounds(date@.subrange(0, 4));
        lemma_parse_digits_bounds(date@.subrange(4, 6));
        lemma_parse_digits_bounds(date@.subrange(6, 8));
    }
    timestamp_of(year as i32, month, day, hour, minute, second)
}

/// A digit run is worth less than ten to its length.
proof fn lemma_parse_digits_bounds(s: Seq<char>)
    ensures
        parse_digits(s) matches Some(v) ==> 0 <= v,
        s.len() <= 1 ==> (parse_digits(s) matches Some(v) ==> v <= 9),
        s.len() <= 2 ==> (parse_digits(s) matches Some(v) ==> v <= 99),
        s.len() <= 3 ==> (parse_digits(s) matches Some(v) ==> v <= 999),
        s.len() <= 4 ==> (parse_digits(s) matches Some(v) ==> v <= 9999),
    decreases s.len(),
{
    if s.len() > 1 {
        lemma_parse_digits_bounds(s.drop_last());
    }
}

} // verus!
