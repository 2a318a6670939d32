//! Calendar dates through `chrono`: reading `YYYY-MM-DD` and writing the
//! short form `Mon, Jan 01` shown on the confirmation pages.

use chrono::Datelike;
use vstd::prelude::*;

verus! {

/// The year, month and day that `chrono::NaiveDate::parse_from_str(s, "%Y-%m-%d")`
/// reads from `s`, or `None` when it reports an error.
pub uninterp spec fn chrono_ymd(s: Seq<char>) -> Option<(i32, u32, u32)>;

/// The text `chrono` writes for the date with the format `%a, %b %d`, or
/// `None` when `NaiveDate::from_ymd_opt` finds no such date.
pub uninterp spec fn chrono_short_date(year: i32, month: u32, day: u32) -> Option<Seq<char>>;

/// Calls `chrono::NaiveDate::parse_from_str` with the format `%Y-%m-%d` and
/// reads the year, month and day of the date. What it accepts is named
/// `chrono_ymd`; beyond that, the contract states only what `Datelike`
/// documents: the month lies in 1..=12 and the day in 1..=31.
#[verifier::external_body]
fn parse_iso_date(s: &str) -> (r: Option<(i32, u32, u32)>)
    ensures
        r == chrono_ymd(s@),
        r matches Some(d) ==> 1 <= d.1 <= 12 && 1 <= d.2 <= 31,
{
    chrono::NaiveDate::parse_from_str(s, "%Y-%m-%d").ok().map(|d| (d.year(), d.month(), d.day()))
}

/// Calls `chrono::NaiveDate::from_ymd_opt` and, for a date that exists,
/// formats it with `%a, %b %d`. The result is named `chrono_short_date`.
#[verifier::external_body]
fn short_date(year: i32, month: u32, day: u32) -> (r: Option<String>)
    ensures
        match r {
            Some(s) => chrono_short_date(year, month, day) == Some(s@),
            None => chrono_short_date(year, month, day) is None,
        },
{
    chrono::NaiveDate::from_ymd_opt(year, month, day).map(|d| d.format("%a, %b %d").to_string())
}

/// The date a `YYYY-MM-DD` text names, as (year, month, day), the year
/// taken as an unsigned number.
pub open spec fn parse_date_spec(s: Seq<char>) -> Option<(u32, u32, u32)> {
    match chrono_ymd(s) {
        Some(d) => Some((d.0 as u32, d.1, d.2)),
        None => None,
    }
}

/// Reads a `YYYY-MM-DD` date.
pub fn parse_date(date_str: &str) -> (r: Option<(u32, u32, u32)>)
    ensures
        r == parse_date_spec(date_str@),
{
    match parse_iso_date(date_str) {
        Some(d) => Some((d.0 as u32, d.1, d.2)),
        None => None,
    }
}

/// The short form of a date, or the empty text when there is no such date.
pub open spec fn format_date_spec(date: (u32, u32, u32)) -> Seq<char> {
    match chrono_short_date(date.0 as i32, date.1, date.2) {
        Some(s) => s,
        None => Seq::<char>::empty(),
    }
}

/// Writes a date as `Mon, Jan 01`; the empty text for a date that does not exist.
pub fn format_date_fn(date_tuple: (u32, u32, u32)) -> (r: String)
    ensures
        r@ == format_date_spec(date_tuple),
{
    match short_date(date_tuple.0 as i32, date_tuple.1, date_tuple.2) {
        Some(s) => s,
        None => String::new(),
    }
}

} // verus!
