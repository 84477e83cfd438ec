//! Points in time with a fixed UTC offset, the signed span between two of
//! them, and the calendar work that is left to `chrono`.
use vstd::prelude::*;
use chrono::{DateTime, FixedOffset, SecondsFormat};

verus! {

/// Earliest second since the Unix epoch that `chrono` represents.
pub const MIN_UNIX_SECS: i64 = -8_334_601_228_800;

/// Latest second since the Unix epoch that `chrono` represents.
pub const MAX_UNIX_SECS: i64 = 8_210_266_876_799;

/// Nanoseconds in one second.
pub const NANOS_PER_SEC: i128 = 1_000_000_000;

/// Largest number of whole seconds a time span may hold (`i64::MAX` milliseconds).
pub const MAX_SPAN_SECS: i64 = 9_223_372_036_854_775;

/// A point in time: whole seconds since the Unix epoch (UTC), the fraction
/// in nanoseconds (from one second on it marks a leap second), and the
/// offset of the local time from UTC in seconds.
#[derive(Clone, Copy, Debug, PartialEq, Eq, Structural)]
pub struct Instant {
    pub secs: i64,
    pub nanos: u32,
    pub offset: i32,
}

/// Whether `(secs, nanos)` names a representable UTC instant.
pub open spec fn timestamp_ok(secs: int, nanos: int) -> bool {
    &&& MIN_UNIX_SECS <= secs <= MAX_UNIX_SECS
    &&& 0 <= nanos < 2_000_000_000
    &&& nanos >= 1_000_000_000 ==> secs % 60 == 59
}

impl Instant {
    pub open spec fn wf(&self) -> bool {
        &&& timestamp_ok(self.secs as int, self.nanos as int)
        &&& -86_400 < self.offset < 86_400
        &&& MIN_UNIX_SECS <= self.secs + self.offset <= MAX_UNIX_SECS
    }

    /// Whether this instant falls in a leap second.
    pub open spec fn is_leap(&self) -> bool {
        self.nanos >= 1_000_000_000
    }
}

/// The instant that an RFC 3339 text denotes, if any.
pub uninterp spec fn rfc3339_instant(s: Seq<char>) -> Option<Instant>;

/// The RFC 3339 rendering of an instant: local time with its offset, `Z`
/// for UTC, and no fraction when it is zero, else 3, 6 or 9 fractional
/// digits.
pub uninterp spec fn rfc3339_text(t: Instant) -> Seq<char>;

/// Relies on `chrono::DateTime::from_timestamp`: `Some` exactly for a
/// representable second count with a nanosecond part below two seconds that
/// only exceeds one second in the last second of a minute.
#[verifier::external_body]
pub(crate) fn utc_from_timestamp(secs: i64, nanos: u32) -> (r: Option<Instant>)
    ensures
        r == (if timestamp_ok(secs as int, nanos as int) {
            Some(Instant { secs, nanos, offset: 0 })
        } else {
            None
        }),
{
    match DateTime::from_timestamp(secs, nanos) {
        Some(t) => Some(Instant { secs: t.timestamp(), nanos: t.timestamp_subsec_nanos(), offset: 0 }),
        None => None,
    }
}

/// The reason `chrono` gives for refusing a text as RFC 3339.
pub uninterp spec fn rfc3339_error(s: Seq<char>) -> Seq<char>;

/// Relies on `chrono::DateTime::parse_from_rfc3339`: the result and the
/// error's text depend on the text alone, and a parsed
/// `DateTime<FixedOffset>` holds a representable instant, an offset in whole
/// minutes under one day, and a local time in the years 0000 to 9999.
#[verifier::external_body]
pub(crate) fn parse_rfc3339(s: &str) -> (r: Result<Instant, String>)
    ensures
        r is Ok <==> rfc3339_instant(s@) is Some,
        r matches Ok(t) ==> rfc3339_instant(s@) == Some(t) && t.wf(),
        r matches Err(e) ==> e@ == rfc3339_error(s@),
{
    match DateTime::parse_from_rfc3339(s) {
        Ok(t) => Ok(Instant {
            secs: t.timestamp(),
            nanos: t.timestamp_subsec_nanos(),
            offset: t.offset().local_minus_utc(),
        }),
        Err(e) => Err(e.to_string()),
    }
}

/// Relies on `chrono::DateTime::to_rfc3339_opts` with `SecondsFormat::AutoSi`
/// and `Z` for UTC; the instant is rebuilt with `DateTime::from_timestamp`
/// and `FixedOffset::east_opt`, which succeed on a well-formed instant;
/// its local time lies in `chrono`'s range, so rendering does not panic.
#[verifier::external_body]
pub(crate) fn format_rfc3339(t: &Instant) -> (r: String)
    requires
        t.wf(),
    ensures
        r@ == rfc3339_text(*t),
{
    let utc = DateTime::from_timestamp(t.secs, t.nanos).expect("representable instant");
    let offset = FixedOffset::east_opt(t.offset).expect("offset under one day");
    utc.with_timezone(&offset).to_rfc3339_opts(SecondsFormat::AutoSi, true)
}

/// The signed span `a - b` in nanoseconds. An instant in a leap second
/// lies after every instant of the second before it, so it adds one second
/// against any earlier second count.
pub open spec fn span_nanos(a: Instant, b: Instant) -> int {
    let adjust = if a.secs > b.secs && b.is_leap() {
        1int
    } else if a.secs < b.secs && a.is_leap() {
        -1int
    } else {
        0int
    };
    (a.secs - b.secs + adjust) * 1_000_000_000 + a.nanos - b.nanos
}

/// Whether `a` lies before `b` on the time line: by seconds, then by the
/// fraction (a leap second's fraction continues its second).
pub open spec fn before(a: Instant, b: Instant) -> bool {
    a.secs < b.secs || (a.secs == b.secs && a.nanos < b.nanos)
}

/// Computes the span `a - b` in nanoseconds.
pub fn span_between(a: &Instant, b: &Instant) -> (r: i128)
    ensures
        r == span_nanos(*a, *b),
{
    let adjust: i128 = if a.secs > b.secs && b.nanos >= 1_000_000_000 {
        1
    } else if a.secs < b.secs && a.nanos >= 1_000_000_000 {
        -1
    } else {
        0
    };
    (a.secs as i128 - b.secs as i128 + adjust) * NANOS_PER_SEC + a.nanos as i128 - b.nanos as i128
}

/// `count` units of `unit_secs` seconds, in nanoseconds, when the span fits
/// in `i64::MAX` milliseconds.
pub open spec fn span_of_units(count: int, unit_secs: int) -> Option<int> {
    let secs = count * unit_secs;
    if -MAX_SPAN_SECS <= secs <= MAX_SPAN_SECS {
        Some(secs * 1_000_000_000)
    } else {
        None
    }
}

/// Builds the span of `count` units of `unit_secs` seconds.
pub fn span_from_units(count: i64, unit_secs: i64) -> (r: Option<i128>)
    requires
        1 <= unit_secs <= 604_800,
    ensures
        r matches Some(x) ==> span_of_units(count as int, unit_secs as int) == Some(x as int),
        r is None ==> span_of_units(count as int, unit_secs as int) is None,
{
    assert(-0x8000_0000_0000_0000 * 604_800 <= count * unit_secs <= 0x7fff_ffff_ffff_ffff * 604_800) by (nonlinear_arith)
        requires
            i64::MIN <= count <= i64::MAX,
            1 <= unit_secs <= 604_800;
    let secs: i128 = count as i128 * unit_secs as i128;
    if -(MAX_SPAN_SECS as i128) <= secs && secs <= MAX_SPAN_SECS as i128 {
        Some(secs * NANOS_PER_SEC)
    } else {
        None
    }
}

/// The span between two instants has the sign of their order on the time
/// line: positive when the first is later, zero when they are the same
/// instant, negative when it is earlier; swapping them negates it.
pub proof fn lemma_span_sign(a: Instant, b: Instant)
    requires
        a.wf(),
        b.wf(),
    ensures
        span_nanos(a, b) > 0 <==> before(b, a),
        span_nanos(a, b) < 0 <==> before(a, b),
        span_nanos(a, b) == 0 <==> (a.secs == b.secs && a.nanos == b.nanos),
        span_nanos(a, b) == -span_nanos(b, a),
{
    if a.secs > b.secs {
        assert((a.secs - b.secs) * 1_000_000_000 >= 1_000_000_000) by (nonlinear_arith)
            requires a.secs - b.secs >= 1;
    } else if a.secs < b.secs {
        assert((b.secs - a.secs) * 1_000_000_000 >= 1_000_000_000) by (nonlinear_arith)
            requires b.secs - a.secs >= 1;
    }
}

/// A later instant minus an earlier one is never negative.
pub proof fn lemma_span_ordered(earlier: Instant, later: Instant)
    requires
        earlier.wf(),
        later.wf(),
        !before(later, earlier),
    ensures
        span_nanos(later, earlier) >= 0,
{
    lemma_span_sign(later, earlier);
}

} // verus!
