//! The input formats: how a field becomes a value and how a threshold text
//! becomes a difference.
use vstd::prelude::*;
use crate::decimal::{IntErrorKind, all_digits, is_digit, digits_value, lemma_u64_literal_round_trip,
    scan_digits, strip_zeros, i64_literal, u64_literal, int_error_text, parse_i64, parse_u64};
use crate::text::{all_space, append_chars, is_space, lemma_trim_around, chars_of, same_chars, string_of, trim, trimmed, unquote, unquoted};
use crate::time::{Instant, parse_rfc3339, rfc3339_error, rfc3339_instant, span_from_units, span_of_units,
    timestamp_ok, utc_from_timestamp};
use crate::value::{Difference, Value};

verus! {

/// How the selected field is read.
#[derive(Clone, Copy, Debug, PartialEq, Eq, Structural)]
pub enum Format {
    UInt,
    Int,
    Unix,
    UnixMs,
    RFC3339,
}

/// Why a field could not be read as a value.
#[derive(Clone, Copy, Debug, PartialEq, Eq, Structural)]
pub enum ValueError {
    /// The text is no integer literal of the needed kind.
    Int(IntErrorKind),
    /// An unsigned literal above the largest signed 64-bit integer.
    TooLarge,
    /// A count since the epoch that names no representable instant.
    BadTimestamp,
    /// The text is no RFC 3339 timestamp.
    Rfc3339,
}

/// Why a threshold text could not be read as a difference.
#[derive(Clone, Copy, Debug, PartialEq, Eq, Structural)]
pub enum DiffError {
    /// The integer threshold is no signed 64-bit literal.
    Number(IntErrorKind),
    /// The duration text is empty.
    Empty,
    /// The duration text is a unit with no count before it.
    NoCount,
    /// The count before the unit is no signed 64-bit literal.
    Count(IntErrorKind),
    /// The last character is no known unit.
    Unit(char),
    /// The span exceeds `i64::MAX` milliseconds.
    Range,
}

/// The field text that a format reads: surrounding whitespace and one pair
/// of enclosing double quotes removed.
pub open spec fn field_text(raw: Seq<char>) -> Seq<char> {
    unquote(trim(raw))
}

/// `s` with each underscore replaced by the date/time separator `T`.
pub open spec fn underscores_to_t(s: Seq<char>) -> Seq<char> {
    s.map_values(|c: char| if c == '_' { 'T' } else { c })
}

/// Seconds in one duration unit.
pub open spec fn unit_seconds(c: char) -> Option<int> {
    if c == 's' {
        Some(1)
    } else if c == 'm' {
        Some(60)
    } else if c == 'h' {
        Some(3_600)
    } else if c == 'd' {
        Some(86_400)
    } else if c == 'w' {
        Some(604_800)
    } else {
        None
    }
}

/// A signed 64-bit literal as a value, or its error.
pub open spec fn int_value(s: Seq<char>) -> Result<i64, IntErrorKind> {
    match i64_literal(s) {
        Ok(i) => Ok(i as i64),
        Err(e) => Err(e),
    }
}

/// The instant `ms` milliseconds after the epoch, if representable.
pub open spec fn unix_ms_instant(ms: int) -> Option<Instant> {
    let secs = ms / 1000;
    let nanos = (ms % 1000) * 1_000_000;
    if timestamp_ok(secs, nanos) {
        Some(Instant { secs: secs as i64, nanos: nanos as u32, offset: 0 })
    } else {
        None
    }
}

impl Format {
    /// The format named `s`, if any.
    pub open spec fn named(s: Seq<char>) -> Option<Format> {
        if s == "uint"@ {
            Some(Format::UInt)
        } else if s == "int"@ {
            Some(Format::Int)
        } else if s == "unix"@ {
            Some(Format::Unix)
        } else if s == "unix_ms"@ {
            Some(Format::UnixMs)
        } else if s == "rfc-3339"@ {
            Some(Format::RFC3339)
        } else {
            None
        }
    }

    /// Whether values of this format are instants.
    pub open spec fn is_temporal(&self) -> bool {
        !(self is UInt || self is Int)
    }

    /// What reading the field `raw` gives.
    pub open spec fn value_of(&self, raw: Seq<char>) -> Result<Value, ValueError> {
        let s = field_text(raw);
        match self {
            Format::UInt => match u64_literal(s) {
                Ok(u) => if u > i64::MAX {
                    Err(ValueError::TooLarge)
                } else {
                    Ok(Value::Number(u as i64))
                },
                Err(e) => Err(ValueError::Int(e)),
            },
            Format::Int => match int_value(s) {
                Ok(i) => Ok(Value::Number(i)),
                Err(e) => Err(ValueError::Int(e)),
            },
            Format::Unix => match int_value(s) {
                Ok(t) => if timestamp_ok(t as int, 0) {
                    Ok(Value::Timestamp(Instant { secs: t, nanos: 0, offset: 0 }))
                } else {
                    Err(ValueError::BadTimestamp)
                },
                Err(e) => Err(ValueError::Int(e)),
            },
            Format::UnixMs => match int_value(s) {
                Ok(ms) => match unix_ms_instant(ms as int) {
                    Some(t) => Ok(Value::Timestamp(t)),
                    None => Err(ValueError::BadTimestamp),
                },
                Err(e) => Err(ValueError::Int(e)),
            },
            Format::RFC3339 => match rfc3339_instant(underscores_to_t(s)) {
                Some(t) => Ok(Value::Timestamp(t)),
                None => Err(ValueError::Rfc3339),
            },
        }
    }

    /// The duration text after the default `1` is read as one hour.
    pub open spec fn duration_text(s: Seq<char>) -> Seq<char> {
        if s == "1"@ {
            "1h"@
        } else {
            s
        }
    }

    /// What reading the threshold text `s` gives.
    pub open spec fn diff_of(&self, s: Seq<char>) -> Result<Difference, DiffError> {
        if !self.is_temporal() {
            match int_value(s) {
                Ok(n) => Ok(Difference::Number(n as i128)),
                Err(e) => Err(DiffError::Number(e)),
            }
        } else {
            let t = Format::duration_text(s);
            if t.len() == 0 {
                Err(DiffError::Empty)
            } else if t.len() == 1 {
                Err(DiffError::NoCount)
            } else {
                match int_value(t.drop_last()) {
                    Err(e) => Err(DiffError::Count(e)),
                    Ok(v) => match unit_seconds(t.last()) {
                        None => Err(DiffError::Unit(t.last())),
                        Some(u) => match span_of_units(v as int, u) {
                            Some(x) => Ok(Difference::Duration(x as i128)),
                            None => Err(DiffError::Range),
                        },
                    },
                }
            }
        }
    }
}

/// The message for the field `raw` that could not be read; a timestamp
/// text that `chrono` refused carries `chrono`'s own reason.
pub open spec fn value_error_text(raw: Seq<char>, e: ValueError) -> Seq<char> {
    match e {
        ValueError::Int(k) => "could not be parsed: "@ + int_error_text(k),
        ValueError::TooLarge => "could not be parsed: number too large (>2^63-1)"@,
        ValueError::BadTimestamp => "could not be parsed: invalid timestamp"@,
        ValueError::Rfc3339 => "could not be parsed: "@ + rfc3339_error(underscores_to_t(field_text(raw))),
    }
}

/// The message for a threshold text that could not be read.
pub open spec fn diff_error_text(s: Seq<char>, e: DiffError) -> Seq<char> {
    let base = "invalid rfc-3339 gap '"@ + Format::duration_text(s) + "'"@;
    match e {
        DiffError::Number(k) => "invalid numeric gap '"@ + s + "': "@ + int_error_text(k),
        DiffError::Empty => base + ": empty"@,
        DiffError::NoCount => base + ": invalid value or timebase"@,
        DiffError::Count(k) => base + ": "@ + int_error_text(k),
        DiffError::Unit(c) => base + ": unexpected character '"@ + seq![c] + "'"@,
        DiffError::Range => base + ": out of range"@,
    }
}

fn replace_underscores(s: &Vec<char>) -> (r: Vec<char>)
    ensures
        r@ == underscores_to_t(s@),
{
    let mut r: Vec<char> = Vec::new();
    let mut i: usize = 0;
    while i < s.len()
        invariant
            i <= s.len(),
            r@ == underscores_to_t(s@.take(i as int)),
        decreases s.len() - i,
    {
        let c = if s[i] == '_' { 'T' } else { s[i] };
        r.push(c);
        i += 1;
        assert(r@ =~= underscores_to_t(s@.take(i as int)));
    }
    assert(s@.take(i as int) =~= s@);
    r
}

fn text_error(prefix: &str, e: IntErrorKind) -> (r: String)
    ensures
        r@ == prefix@ + int_error_text(e),
{
    let mut out = String::from_str(prefix);
    let m = e.message();
    out.append(m.as_str());
    out
}

fn value_error(e: ValueError) -> (r: String)
    requires
        !(e is Rfc3339),
    ensures
        forall|raw: Seq<char>| r@ == #[trigger] value_error_text(raw, e),
{
    match e {
        ValueError::Int(k) => text_error("could not be parsed: ", k),
        ValueError::TooLarge => String::from_str("could not be parsed: number too large (>2^63-1)"),
        _ => String::from_str("could not be parsed: invalid timestamp"),
    }
}

impl Format {
    /// The format named `s`; any other name is refused.
    pub fn try_from(s: String) -> (r: Result<Format, String>)
        ensures
            match Format::named(s@) {
                Some(f) => r == Ok::<Format, String>(f),
                None => r matches Err(m) && m@ == "invalid format string: '"@ + s@ + "'"@,
            },
    {
        let c = chars_of(s.as_str());
        if same_chars(&c, &chars_of("uint")) {
            Ok(Format::UInt)
        } else if same_chars(&c, &chars_of("int")) {
            Ok(Format::Int)
        } else if same_chars(&c, &chars_of("unix")) {
            Ok(Format::Unix)
        } else if same_chars(&c, &chars_of("unix_ms")) {
            Ok(Format::UnixMs)
        } else if same_chars(&c, &chars_of("rfc-3339")) {
            Ok(Format::RFC3339)
        } else {
            let mut m = String::from_str("invalid format string: '");
            m.append(s.as_str());
            m.append("'");
            Err(m)
        }
    }

    /// Reads the field `raw` as a value of this format.
    pub fn parse_value(&self, raw: &str) -> (r: Result<Value, String>)
        ensures
            match self.value_of(raw@) {
                Ok(v) => r == Ok::<Value, String>(v) && v.wf(),
                Err(e) => r matches Err(m) && m@ == value_error_text(raw@, e),
            },
    {
        let s = unquoted(&trimmed(&chars_of(raw)));
        match self {
            Format::UInt => match parse_u64(&s) {
                Ok(u) => if u > 0x7fff_ffff_ffff_ffff {
                    Err(value_error(ValueError::TooLarge))
                } else {
                    Ok(Value::Number(u as i64))
                },
                Err(e) => Err(value_error(ValueError::Int(e))),
            },
            Format::Int => match parse_i64(&s) {
                Ok(i) => Ok(Value::Number(i)),
                Err(e) => Err(value_error(ValueError::Int(e))),
            },
            Format::Unix => match parse_i64(&s) {
                Ok(t) => match utc_from_timestamp(t, 0) {
                    Some(i) => Ok(Value::Timestamp(i)),
                    None => Err(value_error(ValueError::BadTimestamp)),
                },
                Err(e) => Err(value_error(ValueError::Int(e))),
            },
            Format::UnixMs => match parse_i64(&s) {
                Ok(ms) => {
                    let q = ms / 1000;
                    let m = ms % 1000;
                    let (secs, rest) = if m < 0 { (q - 1, m + 1000) } else { (q, m) };
                    assert(secs == ms as int / 1000 && rest == ms as int % 1000);
                    match utc_from_timestamp(secs, (rest as u32) * 1_000_000) {
                        Some(i) => Ok(Value::Timestamp(i)),
                        None => Err(value_error(ValueError::BadTimestamp)),
                    }
                },
                Err(e) => Err(value_error(ValueError::Int(e))),
            },
            Format::RFC3339 => {
                let t = string_of(&replace_underscores(&s));
                match parse_rfc3339(t.as_str()) {
                    Ok(i) => Ok(Value::Timestamp(i)),
                    Err(e) => {
                        let mut m = String::from_str("could not be parsed: ");
                        m.append(e.as_str());
                        Err(m)
                    },
                }
            },
        }
    }

    /// Reads the threshold text `s` as a difference of this format's kind:
    /// a signed integer for integer formats, a signed count followed by a
    /// unit (`s`, `m`, `h`, `d`, `w`) for timestamp formats, where `1`
    /// alone stands for one hour.
    pub fn parse_diff(&self, s: String) -> (r: Result<Difference, String>)
        ensures
            match self.diff_of(s@) {
                Ok(d) => r == Ok::<Difference, String>(d),
                Err(e) => r matches Err(m) && m@ == diff_error_text(s@, e),
            },
    {
        let c = chars_of(s.as_str());
        match self {
            Format::UInt | Format::Int => {
                match parse_i64(&c) {
                    Ok(n) => Ok(Difference::Number(n as i128)),
                    Err(e) => {
                        let mut m = String::from_str("invalid numeric gap '");
                        m.append(s.as_str());
                        m.append("': ");
                        let k = e.message();
                        m.append(k.as_str());
                        Err(m)
                    },
                }
            },
            _ => {
                let t = if same_chars(&c, &chars_of("1")) { chars_of("1h") } else { c };
                let mut base = String::from_str("invalid rfc-3339 gap '");
                append_chars(&mut base, &t);
                base.append("'");
                let n = t.len();
                if n == 0 {
                    base.append(": empty");
                    return Err(base);
                }
                if n == 1 {
                    base.append(": invalid value or timebase");
                    return Err(base);
                }
                let unit = t[n - 1];
                let count = crate::text::slice_of(&t, 0, n - 1);
                assert(count@ == t@.drop_last());
                match parse_i64(&count) {
                    Err(e) => {
                        base.append(": ");
                        let k = e.message();
                        base.append(k.as_str());
                        Err(base)
                    },
                    Ok(v) => {
                        let secs: i64 = if unit == 's' {
                            1
                        } else if unit == 'm' {
                            60
                        } else if unit == 'h' {
                            3_600
                        } else if unit == 'd' {
                            86_400
                        } else if unit == 'w' {
                            604_800
                        } else {
                            base.append(": unexpected character '");
                            crate::text::push_char(&mut base, unit);
                            base.append("'");
                            assert(base@ =~= diff_error_text(s@, DiffError::Unit(unit)));
                            return Err(base);
                        };
                        match span_from_units(v, secs) {
                            Some(x) => Ok(Difference::Duration(x)),
                            None => {
                                base.append(": out of range");
                                Err(base)
                            },
                        }
                    },
                }
            },
        }
    }
}

/// A `uint` literal of digits with a value up to `i64::MAX` reads as that
/// number, and its display form gives back the digits without redundant
/// leading zeros: the literal itself when it has none.
pub proof fn lemma_uint_round_trip(s: Seq<char>)
    requires
        s.len() > 0,
        all_digits(s),
        digits_value(s) <= i64::MAX,
    ensures
        Format::UInt.value_of(s) matches Ok(Value::Number(n)) && n == digits_value(s)
            && Value::Number(n).text() == strip_zeros(s),
        s.len() == 1 || s[0] != '0' ==> Value::Number(digits_value(s) as i64).text() == s,
{
    assert(is_digit(s[0]) && is_digit(s.last()));
    lemma_trim_around(Seq::empty(), s, Seq::empty());
    assert(Seq::<char>::empty() + s + Seq::<char>::empty() =~= s);
    lemma_u64_literal_round_trip(s);
}

/// What a format makes of a field depends only on its text without
/// surrounding whitespace and one pair of enclosing quotes.
pub proof fn lemma_field_text_decides(f: Format, raw1: Seq<char>, raw2: Seq<char>)
    requires
        field_text(raw1) == field_text(raw2),
    ensures
        f.value_of(raw1) == f.value_of(raw2),
        forall|e: ValueError| value_error_text(raw1, e) == value_error_text(raw2, e),
{
}

/// Whitespace around a field, and one pair of double quotes inside that
/// whitespace, leave the field text unchanged.
pub proof fn lemma_field_text_unwraps(w1: Seq<char>, x: Seq<char>, w2: Seq<char>)
    requires
        all_space(w1),
        all_space(w2),
        x.len() > 0,
        !is_space(x[0]),
        !is_space(x.last()),
        x[0] != '"',
        x.last() != '"',
    ensures
        field_text(w1 + x + w2) == x,
        field_text(w1 + seq!['"'] + x + seq!['"'] + w2) == x,
{
    lemma_trim_around(w1, x, w2);
    let q = seq!['"'] + x + seq!['"'];
    assert(w1 + seq!['"'] + x + seq!['"'] + w2 =~= w1 + q + w2);
    assert(q[0] == '"' && q.last() == '"');
    lemma_trim_around(w1, q, w2);
    assert(q.subrange(1, q.len() - 1) =~= x);
}

/// The default threshold `1` of a timestamp format is one hour: it reads
/// exactly as `1h`.
pub proof fn lemma_default_threshold(f: Format)
    requires
        f.is_temporal(),
    ensures
        f.diff_of("1"@) == f.diff_of("1h"@),
        f.diff_of("1"@) == Ok::<Difference, DiffError>(Difference::Duration(3_600_000_000_000)),
{
    reveal_strlit("1");
    reveal_strlit("1h");
    assert("1h"@.drop_last() =~= "1"@);
    assert(scan_digits("1"@, 1) == 1);
    assert(scan_digits("1"@, 0) == 1);
    assert("1"@.take(1) =~= "1"@);
    assert(digits_value("1"@) == 1) by {
        assert("1"@.drop_last() =~= Seq::<char>::empty());
        assert(digits_value("1"@.drop_last()) == 0);
    }
}

} // verus!
