//! Checks on a decoded certificate: field constraints and validity period.
use vstd::prelude::*;

use crate::x509::cert::{Certificate, CertificateModel, Time, TimeModel, TbsModel, Version};

verus! {

/// A UTC date and time, to the second.
#[derive(Debug, Clone, Copy, PartialEq, Eq, Structural)]
pub struct UtcDateTime {
    pub year: u16,
    pub month: u8,
    pub day: u8,
    pub hour: u8,
    pub minute: u8,
    pub second: u8,
}

/// `a` comes strictly before `b`.
pub open spec fn earlier(a: UtcDateTime, b: UtcDateTime) -> bool {
    ||| a.year < b.year
    ||| a.year == b.year && a.month < b.month
    ||| a.year == b.year && a.month == b.month && a.day < b.day
    ||| a.year == b.year && a.month == b.month && a.day == b.day && a.hour < b.hour
    ||| a.year == b.year && a.month == b.month && a.day == b.day && a.hour == b.hour && a.minute
        < b.minute
    ||| a.year == b.year && a.month == b.month && a.day == b.day && a.hour == b.hour && a.minute
        == b.minute && a.second < b.second
}

pub open spec fn is_digit(b: u8) -> bool {
    0x30 <= b <= 0x39
}

/// The number written by the two ASCII digits at `i`.
pub open spec fn two_digits(s: Seq<u8>, i: int) -> int {
    (s[i] - 0x30) * 10 + (s[i + 1] - 0x30)
}

/// Gregorian leap years: every fourth, but not centuries unless divisible by 400.
pub open spec fn is_leap_year(year: u16) -> bool {
    year % 4 == 0 && (year % 100 != 0 || year % 400 == 0)
}

/// The number of days in `month` (1 to 12) of `year`.
pub open spec fn days_in_month(year: u16, month: u8) -> u8 {
    if month == 2 {
        if is_leap_year(year) {
            29
        } else {
            28
        }
    } else if month == 4 || month == 6 || month == 9 || month == 11 {
        30
    } else {
        31
    }
}

pub open spec fn fields_in_range(t: UtcDateTime) -> bool {
    &&& 1 <= t.month <= 12
    &&& 1 <= t.day <= days_in_month(t.year, t.month)
    &&& t.hour <= 23
    &&& t.minute <= 59
    &&& t.second <= 59
}

/// `YYMMDDHHMMSSZ` or, with `long_year`, `YYYYMMDDHHMMSSZ`.
pub open spec fn time_value_of(s: Seq<u8>, long_year: bool) -> Option<UtcDateTime> {
    let y = if long_year {
        4int
    } else {
        2int
    };
    if s.len() == y + 11 && s[y + 10] == 0x5a && forall|i: int|
        0 <= i < y + 10 ==> is_digit(#[trigger] s[i]) {
        let year = if long_year {
            two_digits(s, 0) * 100 + two_digits(s, 2)
        } else if two_digits(s, 0) < 50 {
            2000 + two_digits(s, 0)
        } else {
            1900 + two_digits(s, 0)
        };
        let t = UtcDateTime {
            year: year as u16,
            month: two_digits(s, y) as u8,
            day: two_digits(s, y + 2) as u8,
            hour: two_digits(s, y + 4) as u8,
            minute: two_digits(s, y + 6) as u8,
            second: two_digits(s, y + 8) as u8,
        };
        if fields_in_range(t) {
            Some(t)
        } else {
            None
        }
    } else {
        None
    }
}

/// The instant a Time names; a two-digit year below 50 is in the 2000s.
pub open spec fn time_value(t: TimeModel) -> Option<UtcDateTime> {
    match t {
        TimeModel::UtcTime(s) => time_value_of(s, false),
        TimeModel::GeneralizedTime(s) => time_value_of(s, true),
    }
}

/// Why a certificate was refused.
#[derive(Debug, Clone, Copy, PartialEq, Eq, Structural)]
pub enum CertError {
    /// A field is malformed or not allowed in the certificate's version.
    InvalidField,
    /// The certificate has expired or is not valid yet.
    InvalidPeriod,
}

/// Unique identifiers need version 2 or 3; extensions need version 3.
pub open spec fn fields_allowed(t: TbsModel) -> bool {
    &&& (t.issuer_unique_id is Some || t.subject_unique_id is Some) ==> t.version
        != Version::Version1
    &&& t.extensions.len() > 0 ==> t.version == Version::Version3
}

/// The outcome of checking the validity period `(notBefore, notAfter)` at
/// time `now`: a time that does not parse is an invalid field; otherwise the
/// certificate is valid exactly when `notBefore < now < notAfter`.
pub open spec fn period_outcome(now: UtcDateTime, validity: (TimeModel, TimeModel)) -> Result<
    (),
    CertError,
> {
    match (time_value(validity.0), time_value(validity.1)) {
        (Some(not_before), Some(not_after)) => if earlier(not_before, now) && earlier(
            now,
            not_after,
        ) {
            Ok(())
        } else {
            Err(CertError::InvalidPeriod)
        },
        _ => Err(CertError::InvalidField),
    }
}

/// The outcome of checking certificate `c` at time `now`.
pub open spec fn check_outcome(now: UtcDateTime, c: CertificateModel) -> Result<(), CertError> {
    if !fields_allowed(c.tbs_cert) {
        Err(CertError::InvalidField)
    } else {
        period_outcome(now, c.tbs_cert.validity)
    }
}

fn is_earlier(a: &UtcDateTime, b: &UtcDateTime) -> (r: bool)
    ensures
        r == earlier(*a, *b),
{
    if a.year != b.year {
        return a.year < b.year;
    }
    if a.month != b.month {
        return a.month < b.month;
    }
    if a.day != b.day {
        return a.day < b.day;
    }
    if a.hour != b.hour {
        return a.hour < b.hour;
    }
    if a.minute != b.minute {
        return a.minute < b.minute;
    }
    a.second < b.second
}

fn digits_at(s: &Vec<u8>, i: usize) -> (r: u8)
    requires
        i + 1 < s.len(),
        is_digit(s[i as int]),
        is_digit(s[i + 1]),
    ensures
        r == two_digits(s@, i as int),
{
    (s[i] - 0x30) * 10 + (s[i + 1] - 0x30)
}

/// The instant written in a UTCTime (`long_year` false) or GeneralizedTime.
fn parse_time_value(s: &Vec<u8>, long_year: bool) -> (r: Option<UtcDateTime>)
    ensures
        r == time_value_of(s@, long_year),
{
    let y: usize = if long_year {
        4
    } else {
        2
    };
    if s.len() != y + 11 || s[y + 10] != 0x5a {
        return None;
    }
    let mut i: usize = 0;
    while i < y + 10
        invariant
            i <= y + 10,
            s.len() == y + 11,
            forall|j: int| 0 <= j < i ==> is_digit(#[trigger] s@[j]),
        decreases y + 10 - i,
    {
        if s[i] < 0x30 || s[i] > 0x39 {
            return None;
        }
        i = i + 1;
    }
    let hi = digits_at(s, 0) as u16;
    let year: u16 = if long_year {
        hi * 100 + digits_at(s, 2) as u16
    } else if hi < 50 {
        2000 + hi
    } else {
        1900 + hi
    };
    let t = UtcDateTime {
        year,
        month: digits_at(s, y),
        day: digits_at(s, y + 2),
        hour: digits_at(s, y + 4),
        minute: digits_at(s, y + 6),
        second: digits_at(s, y + 8),
    };
    if 1 <= t.month && t.month <= 12 && 1 <= t.day && t.day <= month_length(t.year, t.month)
        && t.hour <= 23 && t.minute <= 59 && t.second <= 59 {
        Some(t)
    } else {
        None
    }
}

fn month_length(year: u16, month: u8) -> (r: u8)
    ensures
        r == days_in_month(year, month),
{
    if month == 2 {
        if year % 4 == 0 && (year % 100 != 0 || year % 400 == 0) {
            29
        } else {
            28
        }
    } else if month == 4 || month == 6 || month == 9 || month == 11 {
        30
    } else {
        31
    }
}

fn time_of_day(t: &Time) -> (r: Option<UtcDateTime>)
    ensures
        r == time_value(t@),
{
    match t {
        Time::UtcTime(s) => parse_time_value(s, false),
        Time::GeneralizedTime(s) => parse_time_value(s, true),
    }
}

/// What a certificate is checked against.
#[derive(Debug)]
pub struct ValidationContext {
    pub current_time: UtcDateTime,
}

impl ValidationContext {
    /// Field constraints first, then the validity period.
    pub fn check_cert(&self, c: &Certificate) -> (r: Result<(), CertError>)
        ensures
            r == check_outcome(self.current_time, c@),
    {
        match self.check_field_constraints(c) {
            Ok(()) => {},
            Err(e) => {
                return Err(e);
            },
        }
        self.check_validity_time(c)
    }

    fn check_field_constraints(&self, c: &Certificate) -> (r: Result<(), CertError>)
        ensures
            r == (if fields_allowed(c@.tbs_cert) {
                Ok::<(), CertError>(())
            } else {
                Err(CertError::InvalidField)
            }),
    {
        let t = &c.tbs_cert;
        let has_unique_id = t.issuer_unique_id.is_some() || t.subject_unique_id.is_some();
        if has_unique_id && t.version == Version::Version1 {
            return Err(CertError::InvalidField);
        }
        if t.extensions.len() > 0 && t.version != Version::Version3 {
            return Err(CertError::InvalidField);
        }
        Ok(())
    }

    /// Ok exactly when notBefore < now < notAfter; InvalidPeriod when the
    /// certificate has expired or is not valid yet; InvalidField when a time
    /// does not parse.
    fn check_validity_time(&self, c: &Certificate) -> (r: Result<(), CertError>)
        ensures
            r == period_outcome(self.current_time, c@.tbs_cert.validity),
    {
        let v = &c.tbs_cert.validity;
        let not_before = match time_of_day(&v.not_before) {
            Some(t) => t,
            None => {
                return Err(CertError::InvalidField);
            },
        };
        let not_after = match time_of_day(&v.not_after) {
            Some(t) => t,
            None => {
                return Err(CertError::InvalidField);
            },
        };
        if !is_earlier(&self.current_time, &not_after) {
            // expired
            return Err(CertError::InvalidPeriod);
        }
        if !is_earlier(&not_before, &self.current_time) {
            // not valid yet, or the clock is wrong
            return Err(CertError::InvalidPeriod);
        }
        Ok(())
    }
}

} // verus!
