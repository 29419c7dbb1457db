//! Wall-clock date-times for document metadata.
//!
//! Frontmatter date fields accept, in priority order:
//! `YYYY-MM-DD HH:MM`, `YYYY-MM-DDTHH:MM:SS`, `YYYY-MM-DDTHH:MM:SSZ`,
//! a full RFC 3339 timestamp (whose zone offset is discarded), and a bare
//! `YYYY-MM-DD` (midnight).  The first matching format wins.  The four
//! fixed-layout formats are parsed and verified here; the general RFC 3339
//! form is delegated to the `time` crate.

use crate::text::chars_vec;
use vstd::prelude::*;

verus! {

/// A wall-clock date and time, without a zone offset.
#[derive(Clone, Copy, Debug, PartialEq, Eq, Structural)]
pub struct DateTime {
    pub year: u16,
    pub month: u8,
    pub day: u8,
    pub hour: u8,
    pub minute: u8,
    pub second: u8,
}

/// The proleptic Gregorian leap-year rule.
pub open spec fn spec_is_leap_year(y: int) -> bool {
    y % 4 == 0 && (y % 100 != 0 || y % 400 == 0)
}

/// Number of days of month `m` in year `y`, for `1 <= m <= 12`.
pub open spec fn spec_days_in_month(y: int, m: int) -> int {
    if m == 2 {
        if spec_is_leap_year(y) {
            29
        } else {
            28
        }
    } else if m == 4 || m == 6 || m == 9 || m == 11 {
        30
    } else {
        31
    }
}

/// A calendar date that exists: four-digit year, and a day that the month
/// actually has.
pub open spec fn spec_valid_date(y: int, m: int, d: int) -> bool {
    0 <= y <= 9999 && 1 <= m <= 12 && 1 <= d <= spec_days_in_month(y, m)
}

/// A time of day on the 24-hour clock.
pub open spec fn spec_valid_time(h: int, mi: int, s: int) -> bool {
    0 <= h < 24 && 0 <= mi < 60 && 0 <= s < 60
}

impl DateTime {
    /// The fields form an existing calendar date and a valid time of day.
    pub open spec fn wf(self) -> bool {
        spec_valid_date(self.year as int, self.month as int, self.day as int)
            && spec_valid_time(self.hour as int, self.minute as int, self.second as int)
    }
}

/// A decimal digit.
pub open spec fn spec_is_digit(c: char) -> bool {
    '0' <= c && c <= '9'
}

/// Numeric value of a decimal digit.
pub open spec fn spec_digit(c: char) -> int {
    c as int - 48
}

/// Every position of `s` in `[from, to)` holds a decimal digit.
pub open spec fn spec_all_digits(s: Seq<char>, from: int, to: int) -> bool {
    forall|i: int| from <= i < to ==> spec_is_digit(#[trigger] s[i])
}

/// Value of the two digits of `s` at positions `i`, `i + 1`.
pub open spec fn spec_num2(s: Seq<char>, i: int) -> int {
    spec_digit(s[i]) * 10 + spec_digit(s[i + 1])
}

/// Value of the four digits of `s` at positions `i` .. `i + 3`.
pub open spec fn spec_num4(s: Seq<char>, i: int) -> int {
    spec_digit(s[i]) * 1000 + spec_digit(s[i + 1]) * 100 + spec_digit(s[i + 2]) * 10 + spec_digit(
        s[i + 3],
    )
}

/// Positions 0..10 of `s` spell `YYYY-MM-DD`.
pub open spec fn spec_date_shape(s: Seq<char>) -> bool {
    spec_all_digits(s, 0, 4) && s[4] == '-' && spec_all_digits(s, 5, 7) && s[7] == '-'
        && spec_all_digits(s, 8, 10)
}

/// Positions `i..i + 5` of `s` spell `HH:MM`.
pub open spec fn spec_hm_shape(s: Seq<char>, i: int) -> bool {
    spec_all_digits(s, i, i + 2) && s[i + 2] == ':' && spec_all_digits(s, i + 3, i + 5)
}

/// Builds the date-time when all fields are in range; `None` otherwise.
pub open spec fn spec_make(y: int, m: int, d: int, h: int, mi: int, sec: int) -> Option<DateTime> {
    if spec_valid_date(y, m, d) && spec_valid_time(h, mi, sec) {
        Some(
            DateTime {
                year: y as u16,
                month: m as u8,
                day: d as u8,
                hour: h as u8,
                minute: mi as u8,
                second: sec as u8,
            },
        )
    } else {
        None
    }
}

/// Date and `HH:MM` time of a 16-character `YYYY-MM-DD HH:MM` string;
/// seconds default to zero.
pub open spec fn spec_parse_ymd_hm(s: Seq<char>) -> Option<DateTime> {
    if s.len() == 16 && spec_date_shape(s) && s[10] == ' ' && spec_hm_shape(s, 11) {
        spec_make(spec_num4(s, 0), spec_num2(s, 5), spec_num2(s, 8), spec_num2(s, 11), spec_num2(s, 14), 0)
    } else {
        None
    }
}

/// Date and `HH:MM:SS` time of a 19-character `YYYY-MM-DDTHH:MM:SS` string.
pub open spec fn spec_parse_ymd_hms(s: Seq<char>) -> Option<DateTime> {
    if s.len() == 19 && spec_date_shape(s) && s[10] == 'T' && spec_hm_shape(s, 11) && s[16] == ':'
        && spec_all_digits(s, 17, 19) {
        spec_make(
            spec_num4(s, 0),
            spec_num2(s, 5),
            spec_num2(s, 8),
            spec_num2(s, 11),
            spec_num2(s, 14),
            spec_num2(s, 17),
        )
    } else {
        None
    }
}

/// As `spec_parse_ymd_hms`, with a literal `Z` appended (20 characters).
pub open spec fn spec_parse_ymd_hms_z(s: Seq<char>) -> Option<DateTime> {
    if s.len() == 20 && s[19] == 'Z' {
        spec_parse_ymd_hms(s.subrange(0, 19))
    } else {
        None
    }
}

/// Bare 10-character `YYYY-MM-DD`; the time defaults to midnight.
pub open spec fn spec_parse_ymd(s: Seq<char>) -> Option<DateTime> {
    if s.len() == 10 && spec_date_shape(s) {
        spec_make(spec_num4(s, 0), spec_num2(s, 5), spec_num2(s, 8), 0, 0, 0)
    } else {
        None
    }
}

/// The three fixed date-time layouts, in priority order.
pub open spec fn spec_parse_fixed(s: Seq<char>) -> Option<DateTime> {
    if spec_parse_ymd_hm(s) is Some {
        spec_parse_ymd_hm(s)
    } else if spec_parse_ymd_hms(s) is Some {
        spec_parse_ymd_hms(s)
    } else {
        spec_parse_ymd_hms_z(s)
    }
}

/// Wall-clock fields of the RFC 3339 timestamp `s`, with the zone offset
/// discarded; `None` where `s` is not a complete RFC 3339 timestamp.
pub uninterp spec fn rfc3339_wallclock(s: Seq<char>) -> Option<DateTime>;

/// The full date-time grammar: the three fixed layouts, then RFC 3339
/// (whose timestamps spell at least 20 characters), then the bare date.
pub open spec fn spec_parse_datetime(s: Seq<char>) -> Option<DateTime> {
    if spec_parse_fixed(s) is Some {
        spec_parse_fixed(s)
    } else if s.len() >= 20 && rfc3339_wallclock(s) is Some {
        rfc3339_wallclock(s)
    } else {
        spec_parse_ymd(s)
    }
}

/// Relies on `time::OffsetDateTime::parse` with the RFC 3339 well-known
/// format: it accepts exactly the complete RFC 3339 timestamps, validates
/// the calendar date and the time of day, and returns the wall-clock fields
/// as written (the zone offset is discarded).  An accepted timestamp spells
/// at least date, separator, time and a zone: 20 characters.
#[verifier::external_body]
fn parse_rfc3339(s: &str) -> (r: Option<DateTime>)
    ensures
        r == rfc3339_wallclock(s@),
        r matches Some(dt) ==> dt.wf(),
        s@.len() < 20 ==> r is None,
{
    match time::OffsetDateTime::parse(s, &time::format_description::well_known::Rfc3339) {
        Ok(o) => Some(
            DateTime {
                year: o.year() as u16,
                month: u8::from(o.month()),
                day: o.day(),
                hour: o.hour(),
                minute: o.minute(),
                second: o.second(),
            },
        ),
        Err(_) => None,
    }
}

/// Number of days of month `m` in year `y`.
fn days_in_month(y: u32, m: u32) -> (r: u32)
    requires
        1 <= m <= 12,
    ensures
        r == spec_days_in_month(y as int, m as int),
{
    if m == 2 {
        if y % 4 == 0 && (y % 100 != 0 || y % 400 == 0) {
            29
        } else {
            28
        }
    } else if m == 4 || m == 6 || m == 9 || m == 11 {
        30
    } else {
        31
    }
}

/// Range-checks the fields and builds the date-time.
fn make_datetime(y: u32, m: u32, d: u32, h: u32, mi: u32, sec: u32) -> (r: Option<DateTime>)
    ensures
        r == spec_make(y as int, m as int, d as int, h as int, mi as int, sec as int),
{
    if y <= 9999 && 1 <= m && m <= 12 && 1 <= d && d <= days_in_month(y, m) && h < 24 && mi < 60
        && sec < 60 {
        Some(
            DateTime {
                year: y as u16,
                month: m as u8,
                day: d as u8,
                hour: h as u8,
                minute: mi as u8,
                second: sec as u8,
            },
        )
    } else {
        None
    }
}

/// Is `c` a decimal digit?
fn is_digit(c: char) -> (r: bool)
    ensures
        r == spec_is_digit(c),
{
    '0' <= c && c <= '9'
}

/// Value of the two digits at positions `i`, `i + 1`, if digits they are.
fn num2_at(cs: &Vec<char>, i: usize) -> (r: Option<u32>)
    requires
        i + 2 <= cs@.len() <= usize::MAX,
    ensures
        r is Some <==> spec_all_digits(cs@, i as int, i + 2),
        r matches Some(v) ==> v == spec_num2(cs@, i as int) && v <= 99,
{
    let c0 = cs[i];
    let c1 = cs[i + 1];
    if is_digit(c0) && is_digit(c1) {
        let v = (c0 as u32 - 48) * 10 + (c1 as u32 - 48);
        proof {
            assert forall|j: int| i <= j < i + 2 implies spec_is_digit(#[trigger] cs@[j]) by {
                if j == i {
                    assert(cs@[j] == c0);
                } else {
                    assert(cs@[j] == c1);
                }
            }
        }
        Some(v)
    } else {
        None
    }
}

/// Value of the four digits at positions `i` .. `i + 3`, if digits they are.
fn num4_at(cs: &Vec<char>, i: usize) -> (r: Option<u32>)
    requires
        i + 4 <= cs@.len() <= usize::MAX,
    ensures
        r is Some <==> spec_all_digits(cs@, i as int, i + 4),
        r matches Some(v) ==> v == spec_num4(cs@, i as int) && v <= 9999,
{
    let c0 = cs[i];
    let c1 = cs[i + 1];
    let c2 = cs[i + 2];
    let c3 = cs[i + 3];
    if is_digit(c0) && is_digit(c1) && is_digit(c2) && is_digit(c3) {
        let v = (c0 as u32 - 48) * 1000 + (c1 as u32 - 48) * 100 + (c2 as u32 - 48) * 10 + (
        c3 as u32 - 48);
        proof {
            assert forall|j: int| i <= j < i + 4 implies spec_is_digit(#[trigger] cs@[j]) by {
                if j == i {
                    assert(cs@[j] == c0);
                } else if j == i + 1 {
                    assert(cs@[j] == c1);
                } else if j == i + 2 {
                    assert(cs@[j] == c2);
                } else {
                    assert(cs@[j] == c3);
                }
            }
        }
        Some(v)
    } else {
        None
    }
}

/// Reads the `YYYY-MM-DD` shape at the start of `cs`.
fn date_at(cs: &Vec<char>) -> (r: Option<(u32, u32, u32)>)
    requires
        10 <= cs@.len() <= usize::MAX,
    ensures
        r is Some <==> spec_date_shape(cs@),
        r matches Some(v) ==> v.0 == spec_num4(cs@, 0) && v.1 == spec_num2(cs@, 5) && v.2
            == spec_num2(cs@, 8) && v.0 <= 9999 && v.1 <= 99 && v.2 <= 99,
{
    let y = match num4_at(cs, 0) {
        Some(v) => v,
        None => {
            return None;
        },
    };
    if cs[4] != '-' {
        return None;
    }
    let m = match num2_at(cs, 5) {
        Some(v) => v,
        None => {
            return None;
        },
    };
    if cs[7] != '-' {
        return None;
    }
    let d = match num2_at(cs, 8) {
        Some(v) => v,
        None => {
            return None;
        },
    };
    Some((y, m, d))
}

/// Reads the `HH:MM` shape at position `i` of `cs`.
fn hm_at(cs: &Vec<char>, i: usize) -> (r: Option<(u32, u32)>)
    requires
        i + 5 <= cs@.len() <= usize::MAX,
    ensures
        r is Some <==> spec_hm_shape(cs@, i as int),
        r matches Some(v) ==> v.0 == spec_num2(cs@, i as int) && v.1 == spec_num2(cs@, i + 3) && v.0
            <= 99 && v.1 <= 99,
{
    let h = match num2_at(cs, i) {
        Some(v) => v,
        None => {
            return None;
        },
    };
    if cs[i + 2] != ':' {
        return None;
    }
    let mi = match num2_at(cs, i + 3) {
        Some(v) => v,
        None => {
            return None;
        },
    };
    Some((h, mi))
}

/// Parses `YYYY-MM-DD HH:MM`.
fn parse_ymd_hm(cs: &Vec<char>) -> (r: Option<DateTime>)
    ensures
        r == spec_parse_ymd_hm(cs@),
{
    if cs.len() != 16 {
        return None;
    }
    let (y, m, d) = match date_at(cs) {
        Some(v) => v,
        None => {
            return None;
        },
    };
    if cs[10] != ' ' {
        return None;
    }
    let (h, mi) = match hm_at(cs, 11) {
        Some(v) => v,
        None => {
            return None;
        },
    };
    make_datetime(y, m, d, h, mi, 0)
}

/// Parses `YYYY-MM-DDTHH:MM:SS`.
fn parse_ymd_hms(cs: &Vec<char>) -> (r: Option<DateTime>)
    ensures
        r == spec_parse_ymd_hms(cs@),
{
    if cs.len() != 19 {
        return None;
    }
    let (y, m, d) = match date_at(cs) {
        Some(v) => v,
        None => {
            return None;
        },
    };
    if cs[10] != 'T' {
        return None;
    }
    let (h, mi) = match hm_at(cs, 11) {
        Some(v) => v,
        None => {
            return None;
        },
    };
    if cs[16] != ':' {
        return None;
    }
    let sec = match num2_at(cs, 17) {
        Some(v) => v,
        None => {
            return None;
        },
    };
    make_datetime(y, m, d, h, mi, sec)
}

/// Parses `YYYY-MM-DDTHH:MM:SSZ`.
fn parse_ymd_hms_z(cs: &Vec<char>) -> (r: Option<DateTime>)
    ensures
        r == spec_parse_ymd_hms_z(cs@),
{
    if cs.len() != 20 {
        return None;
    }
    if cs[19] != 'Z' {
        return None;
    }
    let head = crate::text::sub_chars(cs, 0, 19);
    parse_ymd_hms(&head)
}

/// Parses bare `YYYY-MM-DD` as midnight.
fn parse_ymd(cs: &Vec<char>) -> (r: Option<DateTime>)
    ensures
        r == spec_parse_ymd(cs@),
{
    if cs.len() != 10 {
        return None;
    }
    let (y, m, d) = match date_at(cs) {
        Some(v) => v,
        None => {
            return None;
        },
    };
    make_datetime(y, m, d, 0, 0, 0)
}

/// Parses a frontmatter date-time string, trying the supported formats in
/// priority order: `YYYY-MM-DD HH:MM`, `YYYY-MM-DDTHH:MM:SS`,
/// `YYYY-MM-DDTHH:MM:SSZ`, full RFC 3339 (offset discarded), bare
/// `YYYY-MM-DD`.  `None` means no format matched.
pub fn parse_datetime(s: &str) -> (r: Option<DateTime>)
    ensures
        r == spec_parse_datetime(s@),
        r matches Some(dt) ==> dt.wf(),
{
    let cs = chars_vec(s);
    if let Some(dt) = parse_ymd_hm(&cs) {
        return Some(dt);
    }
    if let Some(dt) = parse_ymd_hms(&cs) {
        return Some(dt);
    }
    if let Some(dt) = parse_ymd_hms_z(&cs) {
        return Some(dt);
    }
    if let Some(dt) = parse_rfc3339(s) {
        return Some(dt);
    }
    parse_ymd(&cs)
}

} // verus!
