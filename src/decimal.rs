//! Decimal integer literals: parsing with the grammar and error kinds of the
//! standard library's integer `from_str`, and rendering in decimal.
use vstd::prelude::*;
use crate::text::push_char;

verus! {

/// Why a decimal literal was refused.
#[derive(Clone, Copy, Debug, PartialEq, Eq, Structural)]
pub enum IntErrorKind {
    Empty,
    InvalidDigit,
    PosOverflow,
    NegOverflow,
}

impl IntErrorKind {
    /// The reason in words.
    pub fn message(&self) -> (r: String)
        ensures
            r@ == int_error_text(*self),
    {
        match self {
            IntErrorKind::Empty => String::from_str("cannot parse integer from empty string"),
            IntErrorKind::InvalidDigit => String::from_str("invalid digit found in string"),
            IntErrorKind::PosOverflow => String::from_str("number too large to fit in target type"),
            IntErrorKind::NegOverflow => String::from_str("number too small to fit in target type"),
        }
    }
}

pub open spec fn int_error_text(k: IntErrorKind) -> Seq<char> {
    match k {
        IntErrorKind::Empty => "cannot parse integer from empty string"@,
        IntErrorKind::InvalidDigit => "invalid digit found in string"@,
        IntErrorKind::PosOverflow => "number too large to fit in target type"@,
        IntErrorKind::NegOverflow => "number too small to fit in target type"@,
    }
}

pub open spec fn is_digit(c: char) -> bool {
    '0' <= c && c <= '9'
}

pub open spec fn digit_val(c: char) -> int {
    (c as u32) as int - ('0' as u32) as int
}

pub open spec fn digit_char(d: int) -> char {
    if d == 0 { '0' }
    else if d == 1 { '1' }
    else if d == 2 { '2' }
    else if d == 3 { '3' }
    else if d == 4 { '4' }
    else if d == 5 { '5' }
    else if d == 6 { '6' }
    else if d == 7 { '7' }
    else if d == 8 { '8' }
    else { '9' }
}

pub open spec fn all_digits(s: Seq<char>) -> bool {
    forall|i: int| 0 <= i < s.len() ==> is_digit(#[trigger] s[i])
}

/// The number that the decimal digits `s` denote.
pub open spec fn digits_value(s: Seq<char>) -> int
    decreases s.len(),
{
    if s.len() == 0 {
        0
    } else {
        digits_value(s.drop_last()) * 10 + digit_val(s.last())
    }
}

/// The index of the first character at or after `i` that is not a digit.
pub open spec fn scan_digits(s: Seq<char>, i: int) -> int
    decreases s.len() - i,
{
    if 0 <= i < s.len() && is_digit(s[i]) {
        scan_digits(s, i + 1)
    } else {
        i
    }
}

/// The result of reading `s` as an integer literal in `[min, max]`: an
/// optional sign (`-` only when `signed`), then decimal digits. Digits are
/// read left to right, so an overflow before a bad character is reported
/// as the overflow.
pub open spec fn int_literal(s: Seq<char>, signed: bool, min: int, max: int) -> Result<int, IntErrorKind> {
    if s.len() == 0 {
        Err(IntErrorKind::Empty)
    } else if (s[0] == '+' || s[0] == '-') && s.len() == 1 {
        Err(IntErrorKind::InvalidDigit)
    } else {
        let neg = signed && s[0] == '-';
        let body = if s[0] == '+' || neg { s.drop_first() } else { s };
        let k = scan_digits(body, 0);
        let v = digits_value(body.take(k));
        if neg && -v < min {
            Err(IntErrorKind::NegOverflow)
        } else if !neg && v > max {
            Err(IntErrorKind::PosOverflow)
        } else if k < body.len() {
            Err(IntErrorKind::InvalidDigit)
        } else {
            Ok(if neg { -v } else { v })
        }
    }
}

/// `s` as a signed 64-bit literal.
pub open spec fn i64_literal(s: Seq<char>) -> Result<int, IntErrorKind> {
    int_literal(s, true, i64::MIN as int, i64::MAX as int)
}

/// `s` as an unsigned 64-bit literal.
pub open spec fn u64_literal(s: Seq<char>) -> Result<int, IntErrorKind> {
    int_literal(s, false, 0, u64::MAX as int)
}

/// The decimal digits of `n`, without leading zeros.
pub open spec fn decimal(n: nat) -> Seq<char>
    decreases n,
{
    if n < 10 {
        seq![digit_char(n as int)]
    } else {
        decimal(n / 10).push(digit_char((n % 10) as int))
    }
}

/// `i` in decimal, with a leading `-` when negative.
pub open spec fn show_int(i: int) -> Seq<char> {
    if i < 0 {
        seq!['-'] + decimal((-i) as nat)
    } else {
        decimal(i as nat)
    }
}

/// A digit string without its redundant leading zeros.
pub open spec fn strip_zeros(s: Seq<char>) -> Seq<char>
    decreases s.len(),
{
    if s.len() > 1 && s[0] == '0' {
        strip_zeros(s.drop_first())
    } else {
        s
    }
}

proof fn lemma_value_nonneg(s: Seq<char>)
    requires
        all_digits(s),
    ensures
        digits_value(s) >= 0,
    decreases s.len(),
{
    if s.len() > 0 {
        lemma_value_nonneg(s.drop_last());
    }
}

proof fn lemma_value_monotone(s: Seq<char>, j: int, k: int)
    requires
        0 <= j <= k <= s.len(),
        all_digits(s.take(k)),
    ensures
        digits_value(s.take(j)) <= digits_value(s.take(k)),
    decreases k - j,
{
    if j < k {
        lemma_value_monotone(s, j, k - 1);
        assert(s.take(k).drop_last() =~= s.take(k - 1));
        lemma_value_nonneg(s.take(k - 1));
    }
}

/// Reads a sign-free run of digits, failing on the first non-digit or once
/// the value exceeds `lim`.
fn parse_magnitude(body: &Vec<char>, lim: i128, over: IntErrorKind) -> (r: Result<i128, IntErrorKind>)
    requires
        0 <= lim <= u64::MAX,
    ensures
        ({
            let k = scan_digits(body@, 0);
            let v = digits_value(body@.take(k));
            match r {
                Ok(x) => 0 <= x <= lim && k == body@.len() && x == v,
                Err(e) => if v > lim { e == over } else { k < body@.len() && e == IntErrorKind::InvalidDigit },
            }
        }),
{
    let mut v: i128 = 0;
    let mut i: usize = 0;
    assert(body@.take(0) =~= Seq::<char>::empty());
    while i < body.len()
        invariant
            i <= body.len(),
            0 <= lim <= u64::MAX,
            v == digits_value(body@.take(i as int)),
            0 <= v <= lim,
            scan_digits(body@, 0) == scan_digits(body@, i as int),
            all_digits(body@.take(i as int)),
        decreases body.len() - i,
    {
        let c = body[i];
        if !('0' <= c && c <= '9') {
            return Err(IntErrorKind::InvalidDigit);
        }
        let nv = v * 10 + (c as u32 - '0' as u32) as i128;
        assert(body@.take(i + 1).drop_last() =~= body@.take(i as int));
        assert(all_digits(body@.take(i + 1)));
        if nv > lim {
            proof {
                let k = scan_digits(body@, 0);
                lemma_scan_bounds(body@, i + 1);
                lemma_scan_digits(body@, i + 1);
                lemma_value_monotone(body@, i + 1, k);
            }
            return Err(over);
        }
        v = nv;
        i += 1;
    }
    assert(body@.take(i as int) =~= body@);
    Ok(v)
}

proof fn lemma_scan_bounds(s: Seq<char>, i: int)
    requires
        0 <= i <= s.len(),
    ensures
        i <= scan_digits(s, i) <= s.len(),
    decreases s.len() - i,
{
    if i < s.len() && is_digit(s[i]) {
        lemma_scan_bounds(s, i + 1);
    }
}

proof fn lemma_scan_digits(s: Seq<char>, i: int)
    requires
        0 <= i <= s.len(),
        all_digits(s.take(i)),
    ensures
        all_digits(s.take(scan_digits(s, i))),
    decreases s.len() - i,
{
    if i < s.len() && is_digit(s[i]) {
        assert(all_digits(s.take(i + 1))) by {
            assert forall|j: int| 0 <= j < i + 1 implies is_digit(#[trigger] s.take(i + 1)[j]) by {
                if j < i {
                    assert(s.take(i)[j] == s[j]);
                }
            }
        }
        lemma_scan_digits(s, i + 1);
    }
}

/// Reads `s` as a decimal integer literal, signed or not.
fn parse_literal(s: &Vec<char>, signed: bool) -> (r: Result<i128, IntErrorKind>)
    ensures
        ({
            let spec_r = if signed { i64_literal(s@) } else { u64_literal(s@) };
            match r {
                Ok(x) => spec_r == Ok::<int, IntErrorKind>(x as int) && if signed {
                    i64::MIN <= x <= i64::MAX
                } else {
                    0 <= x <= u64::MAX
                },
                Err(e) => spec_r == Err::<int, IntErrorKind>(e),
            }
        }),
{
    let n = s.len();
    if n == 0 {
        return Err(IntErrorKind::Empty);
    }
    if (s[0] == '+' || s[0] == '-') && n == 1 {
        return Err(IntErrorKind::InvalidDigit);
    }
    let neg = signed && s[0] == '-';
    let body = if s[0] == '+' || neg { crate::text::slice_of(s, 1, n) } else { s.clone() };
    assert(s@.drop_first() =~= s@.subrange(1, n as int));
    if neg {
        match parse_magnitude(&body, 0x8000_0000_0000_0000, IntErrorKind::NegOverflow) {
            Ok(v) => Ok(-v),
            Err(e) => Err(e),
        }
    } else if signed {
        parse_magnitude(&body, 0x7fff_ffff_ffff_ffff, IntErrorKind::PosOverflow)
    } else {
        parse_magnitude(&body, 0xffff_ffff_ffff_ffff, IntErrorKind::PosOverflow)
    }
}

/// Reads `s` as a signed 64-bit decimal literal.
pub fn parse_i64(s: &Vec<char>) -> (r: Result<i64, IntErrorKind>)
    ensures
        match r {
            Ok(x) => i64_literal(s@) == Ok::<int, IntErrorKind>(x as int),
            Err(e) => i64_literal(s@) == Err::<int, IntErrorKind>(e),
        },
{
    match parse_literal(s, true) {
        Ok(x) => Ok(x as i64),
        Err(e) => Err(e),
    }
}

/// Reads `s` as an unsigned 64-bit decimal literal.
pub fn parse_u64(s: &Vec<char>) -> (r: Result<u64, IntErrorKind>)
    ensures
        match r {
            Ok(x) => u64_literal(s@) == Ok::<int, IntErrorKind>(x as int),
            Err(e) => u64_literal(s@) == Err::<int, IntErrorKind>(e),
        },
{
    match parse_literal(s, false) {
        Ok(x) => Ok(x as u64),
        Err(e) => Err(e),
    }
}

/// Appends `n` in decimal to `out`.
pub fn push_u64(out: &mut String, n: u64)
    ensures
        final(out)@ == old(out)@ + decimal(n as nat),
    decreases n,
{
    if n >= 10 {
        push_u64(out, n / 10);
    }
    let d = n % 10;
    let c = if d == 0 { '0' } else if d == 1 { '1' } else if d == 2 { '2' } else if d == 3 { '3' }
        else if d == 4 { '4' } else if d == 5 { '5' } else if d == 6 { '6' } else if d == 7 { '7' }
        else if d == 8 { '8' } else { '9' };
    push_char(out, c);
    if n >= 10 {
        assert(decimal(n as nat) == decimal((n / 10) as nat).push(c));
    } else {
        assert(decimal(n as nat) == seq![c]);
    }
}

/// Appends `i` in decimal to `out`.
pub fn push_int(out: &mut String, i: i64)
    ensures
        final(out)@ == old(out)@ + show_int(i as int),
{
    if i < 0 {
        push_char(out, '-');
        let m: u64 = if i == i64::MIN { 0x8000_0000_0000_0000 } else { (-i) as u64 };
        push_u64(out, m);
        assert(out@ =~= old(out)@ + show_int(i as int));
    } else {
        push_u64(out, i as u64);
    }
}

/// Rendering a digit string's value in decimal gives back the digits,
/// without redundant leading zeros.
pub proof fn lemma_decimal_of_digits(s: Seq<char>)
    requires
        s.len() > 0,
        all_digits(s),
    ensures
        decimal(digits_value(s) as nat) == strip_zeros(s),
    decreases s.len(),
{
    lemma_value_nonneg(s);
    if s.len() > 1 && s[0] == '0' {
        lemma_leading_zero(s);
        lemma_decimal_of_digits(s.drop_first());
    } else {
        lemma_no_leading_zero(s);
    }
}

proof fn lemma_leading_zero(s: Seq<char>)
    requires
        s.len() > 1,
        s[0] == '0',
        all_digits(s),
    ensures
        digits_value(s) == digits_value(s.drop_first()),
    decreases s.len(),
{
    if s.len() > 2 {
        lemma_leading_zero(s.drop_last());
        assert(s.drop_last().drop_first() =~= s.drop_first().drop_last());
        assert(s.drop_first().last() == s.last());
    } else {
        assert(s.drop_last().drop_last() =~= Seq::<char>::empty());
        assert(s.drop_last().last() == s[0]);
        assert(digits_value(s.drop_last().drop_last()) == 0);
        assert(digits_value(s.drop_last()) == digit_val(s[0]));
        assert(s.drop_first().drop_last() =~= Seq::<char>::empty());
        assert(s.drop_first().last() == s[1]);
        assert(digits_value(s.drop_first().drop_last()) == 0);
        assert(digits_value(s.drop_first()) == digit_val(s[1]));
    }
}

proof fn lemma_no_leading_zero(s: Seq<char>)
    requires
        s.len() > 0,
        s.len() == 1 || s[0] != '0',
        all_digits(s),
    ensures
        decimal(digits_value(s) as nat) == s,
        s.len() > 1 ==> digits_value(s) >= 10,
        s.len() == 1 || digits_value(s) >= 1,
    decreases s.len(),
{
    let t = s.drop_last();
    lemma_value_nonneg(t);
    if s.len() == 1 {
        assert(t =~= Seq::<char>::empty());
        assert(decimal(digits_value(s) as nat) =~= s);
    } else {
        lemma_no_leading_zero(t);
        let n = digits_value(s) as nat;
        assert(n / 10 == digits_value(t));
        assert(decimal(n) =~= s);
    }
}

/// Reading an unsigned literal made of digits alone, whose value fits in a
/// signed 64-bit integer, and rendering the number in decimal gives back
/// the digits without redundant leading zeros.
pub proof fn lemma_u64_literal_round_trip(s: Seq<char>)
    requires
        s.len() > 0,
        all_digits(s),
        digits_value(s) <= i64::MAX,
    ensures
        0 <= digits_value(s),
        u64_literal(s) == Ok::<int, IntErrorKind>(digits_value(s)),
        show_int(digits_value(s)) == strip_zeros(s),
{
    lemma_value_nonneg(s);
    lemma_all_digits_scan(s, 0);
    assert(s.take(s.len() as int) =~= s);
    lemma_decimal_of_digits(s);
}

proof fn lemma_all_digits_scan(s: Seq<char>, i: int)
    requires
        0 <= i <= s.len(),
        all_digits(s),
    ensures
        scan_digits(s, i) == s.len(),
    decreases s.len() - i,
{
    if i < s.len() {
        lemma_all_digits_scan(s, i + 1);
    }
}

} // verus!
