//! RFC 3339 timestamps, as chrono parses them.

use vstd::prelude::*;

verus! {

/// The UTC instant `(seconds since the epoch, nanoseconds)` that chrono's
/// `DateTime::parse_from_rfc3339` reads from `s`, or `None` when it rejects `s`.
pub uninterp spec fn rfc3339_instant(s: Seq<char>) -> Option<(i64, u32)>;

/// Seconds since the epoch below every instant chrono represents (its
/// dates run from the year -262143 to 262142, that is from about
/// -8.33e12 to 8.22e12 seconds).
pub const CHRONO_MIN_SECS: i64 = -8_400_000_000_000;

/// Seconds since the epoch above every instant chrono represents.
pub const CHRONO_MAX_SECS: i64 = 8_400_000_000_000;

/// An instant within chrono's range.
pub open spec fn in_chrono_range(t: (i64, u32)) -> bool {
    CHRONO_MIN_SECS <= t.0 <= CHRONO_MAX_SECS
}

/// `chrono::DateTime::parse_from_rfc3339(s)`, converted to UTC and read as
/// `(timestamp(), timestamp_subsec_nanos())`; a parsed instant is one
/// chrono represents.
#[verifier::external_body]
pub(crate) fn parse_rfc3339(s: &str) -> (r: Option<(i64, u32)>)
    ensures
        r == rfc3339_instant(s@),
        r matches Some(i) ==> in_chrono_range(i),
{
    match chrono::DateTime::parse_from_rfc3339(s) {
        Ok(t) => {
            let u = t.with_timezone(&chrono::Utc);
            Some((u.timestamp(), u.timestamp_subsec_nanos()))
        },
        Err(_) => None,
    }
}

/// `a` is strictly earlier than `b` (instants ordered by seconds, then nanoseconds).
pub open spec fn instant_before(a: (i64, u32), b: (i64, u32)) -> bool {
    a.0 < b.0 || (a.0 == b.0 && a.1 < b.1)
}

/// `a` is strictly earlier than `b`.
pub fn is_before(a: (i64, u32), b: (i64, u32)) -> (r: bool)
    ensures
        r == instant_before(a, b),
{
    a.0 < b.0 || (a.0 == b.0 && a.1 < b.1)
}

/// What `days_before` returns for `now` and `days`.
pub uninterp spec fn days_before_of(now: (i64, u32), days: i64) -> Option<(i64, u32)>;

/// `DateTime::<Utc>::from_timestamp(now)` minus `TimeDelta::try_days(days)`
/// (`checked_sub_signed`), read back as seconds and nanoseconds.  `None`
/// when chrono rejects the instant, the span or the difference as out of
/// its range (years -262143 to 262142, spans of up to `i64::MAX`
/// milliseconds); the claim below promises success only well inside that
/// range, within 2^41 seconds of the epoch and 2^24 days of span.  For an
/// instant that is not a leap second the difference is exact.
#[verifier::external_body]
pub(crate) fn days_before(now: (i64, u32), days: i64) -> (r: Option<(i64, u32)>)
    ensures
        r == days_before_of(now, days),
        now.1 < 1_000_000_000 ==> (r matches Some(c) ==> c.0 == now.0 - days * 86400 && c.1 == now.1),
        within_clock_range(now, days) ==> r is Some,
        r matches Some(c) ==> in_chrono_range(c),
{
    let t = chrono::DateTime::from_timestamp(now.0, now.1)?;
    let span = chrono::TimeDelta::try_days(days)?;
    let c = t.checked_sub_signed(span)?;
    Some((c.timestamp(), c.timestamp_subsec_nanos()))
}

/// The text chrono's `DateTime::to_rfc3339` writes for the UTC instant `t`
/// (seconds and nanoseconds since the epoch), or `None` when
/// `DateTime::from_timestamp` rejects `t`.
pub uninterp spec fn rfc3339_text_of(t: (i64, u32)) -> Option<Seq<char>>;

/// `DateTime::<Utc>::from_timestamp(t)` written with `to_rfc3339`; an
/// instant that is not a leap second, within 2^41 seconds of the epoch, is
/// always written.
#[verifier::external_body]
pub(crate) fn format_rfc3339(t: (i64, u32)) -> (r: Option<String>)
    ensures
        match r {
            Some(s) => rfc3339_text_of(t) == Some(s@),
            None => rfc3339_text_of(t) is None,
        },
        t.1 < 1_000_000_000 && -0x200_0000_0000 <= t.0 <= 0x200_0000_0000 ==> r is Some,
{
    match chrono::DateTime::from_timestamp(t.0, t.1) {
        Some(d) => Some(d.to_rfc3339()),
        None => None,
    }
}

/// An instant within 2^41 seconds of the epoch, not a leap second, and a
/// span within 2^24 days: well inside chrono's range of dates and spans.
pub open spec fn within_clock_range(now: (i64, u32), days: i64) -> bool {
    &&& now.1 < 1_000_000_000
    &&& -0x200_0000_0000 <= now.0 <= 0x200_0000_0000
    &&& -0x100_0000 <= days <= 0x100_0000
}

} // verus!
