//! Event dates: the text a user types, read by chrono into plain fields, and
//! the form in which a date and time are stored.
use crate::decimal::{padded, padded_digits};
use chrono::{Datelike, NaiveDateTime, ParseError, Timelike};
use vstd::prelude::*;
use vstd::string::StringExecFns;

verus! {

#[verifier::external_type_specification]
#[verifier::external_body]
pub struct ExParseError(ParseError);

/// How users write an event's date and time.
pub const DATETIME_FORMAT: &'static str = "%Y-%m-%d %H:%M";

/// A date and time to the minute.
#[derive(Debug, Clone, Copy, PartialEq, Eq, Structural)]
pub struct DateTime {
    pub year: i32,
    pub month: u32,
    pub day: u32,
    pub hour: u32,
    pub minute: u32,
}

/// The year, month, day, hour and minute that chrono reads from `s` in
/// `DATETIME_FORMAT`, or none where it does not accept `s`.
pub uninterp spec fn parsed_datetime(s: Seq<char>) -> Option<(int, int, int, int, int)>;

/// The year as stored: four digits from 0 to 9999, otherwise a sign and at
/// least four digits.
pub open spec fn year_text(year: int) -> Seq<char> {
    if 0 <= year <= 9999 {
        padded(year as nat, 4)
    } else if year < 0 {
        seq!['-'] + padded((-year) as nat, 4)
    } else {
        seq!['+'] + padded(year as nat, 4)
    }
}

/// The stored form of a date and time: `YYYY-MM-DD HH:MM`.
pub open spec fn stored_form(f: (int, int, int, int, int)) -> Seq<char> {
    year_text(f.0) + seq!['-'] + padded(f.1 as nat, 2) + seq!['-'] + padded(f.2 as nat, 2) + seq![' ']
        + padded(f.3 as nat, 2) + seq![':'] + padded(f.4 as nat, 2)
}

impl DateTime {
    pub open spec fn fields(self) -> (int, int, int, int, int) {
        (self.year as int, self.month as int, self.day as int, self.hour as int, self.minute as int)
    }

    /// The ranges chrono gives each field.
    pub open spec fn in_range(self) -> bool {
        &&& 1 <= self.month <= 12
        &&& 1 <= self.day <= 31
        &&& self.hour <= 23
        &&& self.minute <= 59
    }

    /// The text under which the date and time are stored.
    pub fn stored_text(&self) -> (r: String)
        ensures
            r@ == stored_form(self.fields()),
    {
        let mut r = String::new();
        let year = self.year as i64;
        if 0 <= year && year <= 9999 {
            r.append(padded_digits(year as u64, 4).as_str());
        } else {
            if year < 0 {
                r.append("-");
            } else {
                r.append("+");
            }
            let magnitude = if year < 0 {
                (0 - year) as u64
            } else {
                year as u64
            };
            r.append(padded_digits(magnitude, 4).as_str());
        }
        r.append("-");
        r.append(padded_digits(self.month as u64, 2).as_str());
        r.append("-");
        r.append(padded_digits(self.day as u64, 2).as_str());
        r.append(" ");
        r.append(padded_digits(self.hour as u64, 2).as_str());
        r.append(":");
        r.append(padded_digits(self.minute as u64, 2).as_str());
        proof {
            reveal_strlit("-");
            reveal_strlit("+");
            reveal_strlit(" ");
            reveal_strlit(":");
        }
        assert(r@ =~= stored_form(self.fields()));
        r
    }
}

/// Relies on chrono's `NaiveDateTime::parse_from_str` with `DATETIME_FORMAT`,
/// which depends on the text alone, and on `Datelike` and `Timelike`, whose
/// month, day, hour and minute stay in the documented ranges.
#[verifier::external_body]
pub fn parse_datetime_string(datetime_str: &str) -> (r: Result<DateTime, ParseError>)
    ensures
        match r {
            Ok(dt) => parsed_datetime(datetime_str@) == Some(dt.fields()) && dt.in_range(),
            Err(_) => parsed_datetime(datetime_str@) is None,
        },
{
    match NaiveDateTime::parse_from_str(datetime_str, DATETIME_FORMAT) {
        Ok(dt) => Ok(
            DateTime {
                year: dt.year(),
                month: dt.month(),
                day: dt.day(),
                hour: dt.hour(),
                minute: dt.minute(),
            },
        ),
        Err(e) => Err(e),
    }
}

} // verus!
