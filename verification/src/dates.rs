//! The date of a message as milliseconds since 1970, written in decimal.
use vstd::prelude::*;

use crate::text::{decimal, decimal_text};

verus! {

/// What `chrono` reads from a text as an RFC 3339 timestamp, in milliseconds
/// since 1970.
pub uninterp spec fn rfc3339_millis(text: Seq<char>) -> Option<i64>;

/// What `mailparse` reads from a text as the value of a mail's `Date` header,
/// in seconds since 1970.
pub uninterp spec fn mail_date_seconds(text: Seq<char>) -> Option<i64>;

/// `chrono::DateTime::parse_from_rfc3339`, with the `timestamp_millis` of what
/// it reads, or none where it reads nothing.
#[verifier::external_body]
fn read_rfc3339(text: &str) -> (r: Option<i64>)
    ensures
        r == rfc3339_millis(text@),
{
    chrono::DateTime::parse_from_rfc3339(text).ok().map(|date| date.timestamp_millis())
}

/// `mailparse::dateparse`: the seconds that it reads, or none where it reads
/// nothing.
#[verifier::external_body]
fn read_mail_date(text: &str) -> (r: Option<i64>)
    ensures
        r == mail_date_seconds(text@),
{
    mailparse::dateparse(text).ok()
}

/// The milliseconds of a date: those of a timestamp, or else a thousand for
/// each second of a mail date, where 64 bits hold them.
pub open spec fn millis(timestamp: Option<i64>, seconds: Option<i64>) -> Option<int> {
    match timestamp {
        Some(v) => Some(v as int),
        None => match seconds {
            Some(v) => if i64::MIN <= v * 1000 <= i64::MAX {
                Some(v * 1000)
            } else {
                None
            },
            None => None,
        },
    }
}

/// The milliseconds in decimal; empty where there are none, or where the date
/// is not after the start of 1970.
pub open spec fn millis_text(timestamp: Option<i64>, seconds: Option<i64>) -> Seq<char> {
    match millis(timestamp, seconds) {
        Some(v) => if v > 0 {
            decimal(v as nat)
        } else {
            Seq::empty()
        },
        None => Seq::empty(),
    }
}

/// The milliseconds of a date that was read as a timestamp or as a mail date.
pub fn date_text(timestamp: Option<i64>, seconds: Option<i64>) -> (r: String)
    ensures
        r@ == millis_text(timestamp, seconds),
{
    let v = match timestamp {
        Some(v) => Some(v),
        None => match seconds {
            Some(v) => v.checked_mul(1000),
            None => None,
        },
    };
    match v {
        Some(v) => if v > 0 {
            decimal_text(v as u64)
        } else {
            String::new()
        },
        None => String::new(),
    }
}

/// The date of a message: an RFC 3339 timestamp, or else a mail's own `Date`
/// header, since both are seen in practice.
pub fn internal_date(date: &str) -> (r: String)
    ensures
        r@ == millis_text(rfc3339_millis(date@), mail_date_seconds(date@)),
{
    match read_rfc3339(date) {
        Some(v) => date_text(Some(v), None),
        None => date_text(None, read_mail_date(date)),
    }
}

} // verus!
