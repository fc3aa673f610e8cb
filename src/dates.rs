//! Purchase dates: parsed through chrono into UTC-midnight Unix timestamps.

use vstd::prelude::*;
use crate::text::{trim, trimmed};

verus! {

/// Seconds in one day.
pub const DAY_SECONDS: i64 = 86_400;

/// The UTC-midnight timestamp chrono reads from `s` under the strftime
/// pattern `fmt`, if it reads a valid date.
pub uninterp spec fn date_parsed(s: Seq<char>, fmt: Seq<char>) -> Option<i64>;

/// Relies on chrono's `NaiveDate::parse_from_str`, then midnight UTC of the
/// parsed day as seconds since the Unix epoch.
#[verifier::external_body]
fn parse_date(s: &str, fmt: &str) -> (r: Option<i64>)
    ensures
        r == date_parsed(s@, fmt@),
{
    match chrono::NaiveDate::parse_from_str(s, fmt) {
        Ok(d) => Some(d.and_time(chrono::NaiveTime::MIN).and_utc().timestamp()),
        Err(_) => None,
    }
}

/// The first pattern that reads the trimmed text: `%Y-%m-%d`, then
/// `%Y/%m/%d`, then `%d-%m-%Y`.
pub open spec fn purchase_date_of(s: Seq<char>) -> Option<i64> {
    let t = trimmed(s);
    if date_parsed(t, "%Y-%m-%d"@) is Some {
        date_parsed(t, "%Y-%m-%d"@)
    } else if date_parsed(t, "%Y/%m/%d"@) is Some {
        date_parsed(t, "%Y/%m/%d"@)
    } else {
        date_parsed(t, "%d-%m-%Y"@)
    }
}

/// Reads a purchase date in one of the accepted layouts.
pub fn parse_purchase_date(date_str: &str) -> (r: Option<i64>)
    ensures
        r == purchase_date_of(date_str@),
{
    let s = trim(date_str);
    let iso = parse_date(s, "%Y-%m-%d");
    if iso.is_some() {
        return iso;
    }
    let slashed = parse_date(s, "%Y/%m/%d");
    if slashed.is_some() {
        return slashed;
    }
    parse_date(s, "%d-%m-%Y")
}

} // verus!
