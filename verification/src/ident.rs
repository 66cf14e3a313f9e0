//! Identifiers and points in time, and their texts.

use crate::json::hex_digit;
use crate::text::opt_view;
use vstd::prelude::*;

verus! {

/// The last `digits` hexadecimal digits of a number.
pub open spec fn hex(n: nat, digits: nat) -> Seq<char>
    decreases digits,
{
    if digits == 0 {
        Seq::empty()
    } else {
        hex(n / 16, (digits - 1) as nat).push(hex_digit((n % 16) as int))
    }
}

/// The text of a UUID: its 32 hexadecimal digits in groups of 8, 4, 4, 4 and 12.
pub open spec fn uuid_text(id: u128) -> Seq<char> {
    let n = id as nat;
    hex(n / 0x1_0000_0000_0000_0000_0000_0000, 8) + "-"@ + hex(
        n / 0x1_0000_0000_0000_0000_0000,
        4,
    ) + "-"@ + hex(n / 0x1_0000_0000_0000_0000, 4) + "-"@ + hex(n / 0x1_0000_0000_0000, 4) + "-"@
        + hex(n, 12)
}

/// Calls `uuid::Uuid::from_u128` and the `Display` of the result, which writes
/// the hyphenated form with lower-case digits.
#[verifier::external_body]
pub(crate) fn uuid_to_text(id: u128) -> (r: String)
    ensures
        r@ == uuid_text(id),
{
    uuid::Uuid::from_u128(id).to_string()
}

/// A point in time: whole seconds since the start of 1970, UTC, and nanoseconds.
#[derive(Debug, Clone, Copy, PartialEq, Eq, Structural)]
pub struct Timestamp {
    pub secs: i64,
    pub nanos: u32,
}

/// The RFC 3339 text of a point in time, with a numeric offset; `None` where
/// `chrono` cannot represent the point.
pub uninterp spec fn rfc3339(secs: i64, nanos: u32) -> Option<Seq<char>>;

/// Calls `chrono::DateTime::from_timestamp` and `to_rfc3339`. The result is
/// named, not described: it is a function of the point in time.
#[verifier::external_body]
fn format_rfc3339(secs: i64, nanos: u32) -> (r: Option<String>)
    ensures
        opt_view(r) == rfc3339(secs, nanos),
{
    chrono::DateTime::from_timestamp(secs, nanos).map(|t| t.to_rfc3339())
}

/// The text of a point in time inside JSON; `None` where `chrono` cannot
/// represent the point.
pub uninterp spec fn json_time(secs: i64, nanos: u32) -> Option<Seq<char>>;

/// Calls `chrono::DateTime::from_timestamp` and serialises the result with
/// `serde_json::to_value`, which gives a string. The string is named, not
/// described: it is a function of the point in time.
#[verifier::external_body]
fn format_json_time(secs: i64, nanos: u32) -> (r: Option<String>)
    ensures
        opt_view(r) == json_time(secs, nanos),
{
    let time = chrono::DateTime::from_timestamp(secs, nanos)?;
    serde_json::to_value(time).ok()?.as_str().map(|s| s.to_owned())
}

impl Timestamp {
    /// The RFC 3339 text, empty where there is none.
    pub open spec fn rfc3339_text(self) -> Seq<char> {
        match rfc3339(self.secs, self.nanos) {
            Some(t) => t,
            None => Seq::empty(),
        }
    }

    /// The text inside JSON, empty where there is none.
    pub open spec fn json_time_text(self) -> Seq<char> {
        match json_time(self.secs, self.nanos) {
            Some(t) => t,
            None => Seq::empty(),
        }
    }

    /// The RFC 3339 text, empty where there is none.
    pub fn to_rfc3339(&self) -> (r: String)
        ensures
            r@ == self.rfc3339_text(),
    {
        match format_rfc3339(self.secs, self.nanos) {
            Some(t) => t,
            None => String::new(),
        }
    }

    /// The text inside JSON, empty where there is none.
    pub fn to_json_time(&self) -> (r: String)
        ensures
            r@ == self.json_time_text(),
    {
        match format_json_time(self.secs, self.nanos) {
            Some(t) => t,
            None => String::new(),
        }
    }
}

} // verus!
