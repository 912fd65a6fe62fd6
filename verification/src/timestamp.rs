//! Points in time, held as seconds and nanoseconds since the Unix epoch.
//! Calendar arithmetic and RFC 3339 text are chrono's; the library only
//! carries the two numbers and hands them to chrono.

use vstd::prelude::*;
use chrono::DateTime;

verus! {

/// Earliest second chrono can represent: -262143-01-01T00:00:00 UTC.
pub const MIN_UNIX_SECS: i64 = -8_334_601_228_800;

/// Latest second chrono can represent: +262142-12-31T23:59:59 UTC.
pub const MAX_UNIX_SECS: i64 = 8_210_266_876_799;

/// The pairs `(secs, nanos)` that name an instant chrono can represent:
/// the second lies in chrono's date range and the nanoseconds are below one
/// second, or below two seconds on the last second of a minute (a leap
/// second).
pub open spec fn timestamp_in_range(secs: int, nanos: int) -> bool {
    &&& MIN_UNIX_SECS <= secs <= MAX_UNIX_SECS
    &&& 0 <= nanos
    &&& (nanos < 1_000_000_000 || (nanos < 2_000_000_000 && secs % 60 == 59))
}

/// The characters chrono's RFC 3339 rendering is made of.
pub open spec fn is_rfc3339_char(c: char) -> bool {
    ('0' <= c && c <= '9') || c == '-' || c == '+' || c == ':' || c == 'T' || c == '.'
}

/// The characters chrono's `%Y%m%d%H%M%S` rendering is made of.
pub open spec fn is_compact_char(c: char) -> bool {
    ('0' <= c && c <= '9') || c == '-' || c == '+'
}

/// What chrono's `DateTime::parse_from_rfc3339` yields for a text, as the
/// instant's Unix seconds and sub-second nanoseconds.
pub uninterp spec fn rfc3339_parse(text: Seq<char>) -> Option<(i64, u32)>;

/// chrono's `to_rfc3339` rendering of the UTC instant `(secs, nanos)`.
pub uninterp spec fn rfc3339_text(secs: i64, nanos: u32) -> Seq<char>;

/// chrono's `%Y%m%d%H%M%S` rendering of the UTC instant `(secs, nanos)`.
pub uninterp spec fn compact_text(secs: i64, nanos: u32) -> Seq<char>;

/// Calls chrono's `DateTime::parse_from_rfc3339` and reads the parsed
/// instant's `timestamp()` and `timestamp_subsec_nanos()`. Claimed: the
/// outcome is `rfc3339_parse` of the text, and a parsed instant is one chrono
/// can represent. The error text is chrono's message; nothing is said of it.
#[verifier::external_body]
fn chrono_parse_rfc3339(text: &str) -> (res: Result<(i64, u32), String>)
    ensures
        match res {
            Ok(p) => rfc3339_parse(text@) == Some(p) && timestamp_in_range(p.0 as int, p.1 as int),
            Err(_) => rfc3339_parse(text@) is None,
        },
{
    match DateTime::parse_from_rfc3339(text) {
        Ok(parsed) => Ok((parsed.timestamp(), parsed.timestamp_subsec_nanos())),
        Err(error) => Err(error.to_string()),
    }
}

/// Calls chrono's `DateTime::to_rfc3339` on the UTC instant `(secs, nanos)`
/// (built with `DateTime::from_timestamp`, which succeeds on every pair in
/// range). Claimed: the text is `rfc3339_text(secs, nanos)` and is made of
/// digits and `-+:T.` only, as chrono's `write_rfc3339` writes it.
#[verifier::external_body]
fn chrono_to_rfc3339(secs: i64, nanos: u32) -> (res: String)
    requires
        timestamp_in_range(secs as int, nanos as int),
    ensures
        res@ == rfc3339_text(secs, nanos),
        forall|i: int| 0 <= i < res@.len() ==> is_rfc3339_char(#[trigger] res@[i]),
{
    match DateTime::from_timestamp(secs, nanos) {
        Some(instant) => instant.to_rfc3339(),
        None => String::new(),
    }
}

/// Calls chrono's `DateTime::format("%Y%m%d%H%M%S")` on the UTC instant
/// `(secs, nanos)` and renders it with `to_string`. Claimed: the text is
/// `compact_text(secs, nanos)` and is made of digits and signs only, as
/// chrono's numeric formatting writes them with zero padding.
#[verifier::external_body]
fn chrono_format_compact(secs: i64, nanos: u32) -> (res: String)
    requires
        timestamp_in_range(secs as int, nanos as int),
    ensures
        res@ == compact_text(secs, nanos),
        forall|i: int| 0 <= i < res@.len() ==> is_compact_char(#[trigger] res@[i]),
{
    match DateTime::from_timestamp(secs, nanos) {
        Some(instant) => instant.format("%Y%m%d%H%M%S").to_string(),
        None => String::new(),
    }
}

/// An instant, as Unix seconds and sub-second nanoseconds, always one that
/// chrono can represent.
#[derive(Clone, Copy, Debug, PartialEq, Eq)]
pub struct Timestamp {
    secs: i64,
    nanos: u32,
}

impl View for Timestamp {
    type V = (i64, u32);

    closed spec fn view(&self) -> (i64, u32) {
        (self.secs, self.nanos)
    }
}

/// RFC 3339 text of an instant.
pub open spec fn rfc3339_of(t: (i64, u32)) -> Seq<char> {
    rfc3339_text(t.0, t.1)
}

impl Timestamp {
    #[verifier::type_invariant]
    spec fn in_range(self) -> bool {
        timestamp_in_range(self.secs as int, self.nanos as int)
    }

    /// The instant `secs` seconds and `nanos` nanoseconds after the Unix
    /// epoch, if chrono can represent it.
    pub fn from_unix(secs: i64, nanos: u32) -> (res: Option<Timestamp>)
        ensures
            res is Some <==> timestamp_in_range(secs as int, nanos as int),
            res matches Some(t) ==> t@ == (secs, nanos),
    {
        let within_minute = if secs % 60 < 0 {
            secs % 60 + 60
        } else {
            secs % 60
        };
        assert(within_minute == secs as int % 60);
        if MIN_UNIX_SECS <= secs && secs <= MAX_UNIX_SECS && (nanos < 1_000_000_000 || (nanos
            < 2_000_000_000 && within_minute == 59)) {
            Some(Timestamp { secs, nanos })
        } else {
            None
        }
    }

    /// Seconds since the Unix epoch.
    pub fn unix_secs(&self) -> (res: i64)
        ensures
            res == self@.0,
    {
        self.secs
    }

    /// Nanoseconds past the second.
    pub fn subsec_nanos(&self) -> (res: u32)
        ensures
            res == self@.1,
    {
        self.nanos
    }

    /// The instant an RFC 3339 text names, or chrono's message on why it
    /// names none.
    pub fn parse_rfc3339(text: &str) -> (res: Result<Timestamp, String>)
        ensures
            match res {
                Ok(t) => rfc3339_parse(text@) == Some(t@),
                Err(_) => rfc3339_parse(text@) is None,
            },
    {
        match chrono_parse_rfc3339(text) {
            Ok((secs, nanos)) => Ok(Timestamp { secs, nanos }),
            Err(message) => Err(message),
        }
    }

    /// RFC 3339 text of the instant, in UTC.
    pub fn to_rfc3339(&self) -> (res: String)
        ensures
            res@ == rfc3339_of(self@),
            forall|i: int| 0 <= i < res@.len() ==> is_rfc3339_char(#[trigger] res@[i]),
    {
        proof {
            use_type_invariant(self);
        }
        chrono_to_rfc3339(self.secs, self.nanos)
    }

    /// The instant as `YYYYMMDDhhmmss`, in UTC.
    pub fn compact(&self) -> (res: String)
        ensures
            res@ == compact_text(self@.0, self@.1),
            forall|i: int| 0 <= i < res@.len() ==> is_compact_char(#[trigger] res@[i]),
    {
        proof {
            use_type_invariant(self);
        }
        chrono_format_compact(self.secs, self.nanos)
    }
}

} // verus!
