use vstd::prelude::*;

use chrono::Datelike;
use std::fmt::Write;

verus! {

/// A calendar date as year, month (1 to 12) and day (1 to 31).
#[derive(Debug, Clone, Copy, PartialEq, Eq, Structural)]
pub struct Date {
    pub year: i32,
    pub month: u32,
    pub day: u32,
}

/// What chrono's `NaiveDate::parse_from_str` yields for a text and a format,
/// as year, month and day.
pub uninterp spec fn parsed_date(text: Seq<char>, format: Seq<char>) -> Option<(i32, u32, u32)>;

/// What chrono renders for a year, month and day under a format, where the
/// date exists and the format can render it.
pub uninterp spec fn formatted_date(year: i32, month: u32, day: u32, format: Seq<char>) -> Option<
    Seq<char>,
>;

/// The integer that keys a date in the rate cache.
pub open spec fn date_key(year: i32, month: u32, day: u32) -> u64 {
    ((year as int + 2147483648) * 512 + month as int * 32 + day as int) as u64
}

impl Date {
    /// Month and day lie in their ranges.
    pub open spec fn wf(&self) -> bool {
        1 <= self.month <= 12 && 1 <= self.day <= 31
    }

    pub open spec fn key_spec(&self) -> u64 {
        date_key(self.year, self.month, self.day)
    }

    /// The date's cache key; distinct dates have distinct keys.
    pub fn key(&self) -> (r: u64)
        requires
            self.wf(),
        ensures
            r == self.key_spec(),
    {
        ((self.year as i64 + 2147483648i64) as u64) * 512 + (self.month as u64) * 32
            + self.day as u64
    }
}

/// Two well-formed dates share a cache key only when they are the same date.
pub proof fn lemma_date_key_injective(a: Date, b: Date)
    requires
        a.wf(),
        b.wf(),
        a.key_spec() == b.key_spec(),
    ensures
        a == b,
{
    let ya = a.year as int + 2147483648;
    let yb = b.year as int + 2147483648;
    assert(ya * 512 + a.month * 32 + a.day == yb * 512 + b.month * 32 + b.day);
    assert(ya == yb) by (nonlinear_arith)
        requires
            ya * 512 + a.month * 32 + a.day == yb * 512 + b.month * 32 + b.day,
            1 <= a.month <= 12,
            1 <= a.day <= 31,
            1 <= b.month <= 12,
            1 <= b.day <= 31,
    ;
    assert(a.month == b.month) by (nonlinear_arith)
        requires
            a.month * 32 + a.day == b.month * 32 + b.day,
            1 <= a.day <= 31,
            1 <= b.day <= 31,
    ;
}

/// Relies on chrono's `NaiveDate::parse_from_str`, which reads a date from
/// `text` under the strftime-style `format`; a parsed date has a month in
/// 1..=12 and a day in 1..=31 (`Datelike::month`, `Datelike::day`).
#[verifier::external_body]
pub(crate) fn parse_date(text: &str, format: &str) -> (r: Option<Date>)
    ensures
        match r {
            Some(d) => d.wf() && parsed_date(text@, format@) == Some((d.year, d.month, d.day)),
            None => parsed_date(text@, format@) is None,
        },
{
    match chrono::NaiveDate::parse_from_str(text, format) {
        Ok(d) => Some(Date { year: d.year(), month: d.month(), day: d.day() }),
        Err(_) => None,
    }
}

/// Relies on chrono's `NaiveDate::from_ymd_opt` and `NaiveDate::format`:
/// renders the date under the strftime-style `format`; `None` where the
/// date does not exist or the format cannot be rendered.
#[verifier::external_body]
pub(crate) fn format_date(d: &Date, format: &str) -> (r: Option<String>)
    ensures
        match r {
            Some(s) => formatted_date(d.year, d.month, d.day, format@) == Some(s@),
            None => formatted_date(d.year, d.month, d.day, format@) is None,
        },
{
    let nd = chrono::NaiveDate::from_ymd_opt(d.year, d.month, d.day)?;
    let mut out = String::new();
    match write!(out, "{}", nd.format(format)) {
        Ok(()) => Some(out),
        Err(_) => None,
    }
}

} // verus!
