//! Character-level helpers: whitespace trimming, quote stripping and
//! splitting by a literal delimiter.
use vstd::prelude::*;

verus! {

/// Whether `c` has the Unicode `White_Space` property.
pub open spec fn is_space(c: char) -> bool {
    let u = c as u32;
    ||| 0x09 <= u <= 0x0d
    ||| u == 0x20
    ||| u == 0x85
    ||| u == 0xa0
    ||| u == 0x1680
    ||| 0x2000 <= u <= 0x200a
    ||| u == 0x2028
    ||| u == 0x2029
    ||| u == 0x202f
    ||| u == 0x205f
    ||| u == 0x3000
}

/// Relies on `char::is_whitespace`: true exactly for characters with the
/// Unicode `White_Space` property.
#[verifier::external_body]
fn whitespace(c: char) -> (r: bool)
    ensures
        r == is_space(c),
{
    c.is_whitespace()
}

/// Relies on `String::push`: appends one character.
#[verifier::external_body]
pub(crate) fn push_char(s: &mut String, c: char)
    ensures
        final(s)@ == old(s)@.push(c),
{
    s.push(c);
}

/// `s` without its leading whitespace.
pub open spec fn trim_start(s: Seq<char>) -> Seq<char>
    decreases s.len(),
{
    if s.len() > 0 && is_space(s[0]) {
        trim_start(s.drop_first())
    } else {
        s
    }
}

/// `s` without its trailing whitespace.
pub open spec fn trim_end(s: Seq<char>) -> Seq<char>
    decreases s.len(),
{
    if s.len() > 0 && is_space(s.last()) {
        trim_end(s.drop_last())
    } else {
        s
    }
}

/// `s` without surrounding whitespace.
pub open spec fn trim(s: Seq<char>) -> Seq<char> {
    trim_end(trim_start(s))
}

/// `s` without one pair of enclosing double quotes, when it has them.
pub open spec fn unquote(s: Seq<char>) -> Seq<char> {
    if s.len() >= 2 && s[0] == '"' && s.last() == '"' {
        s.subrange(1, s.len() - 1)
    } else {
        s
    }
}

/// Whether `d` occurs in `s` starting at position `p`.
pub open spec fn occurs_at(s: Seq<char>, d: Seq<char>, p: int) -> bool {
    0 <= p && p + d.len() <= s.len() && s.subrange(p, p + d.len()) == d
}

/// Whether `s` begins with `p`.
pub open spec fn starts_with(s: Seq<char>, p: Seq<char>) -> bool {
    occurs_at(s, p, 0)
}

/// The first position at or after `from` where `d` occurs in `s`.
pub open spec fn find_from(s: Seq<char>, d: Seq<char>, from: int) -> Option<int>
    decreases s.len() + 1 - from,
{
    if from < 0 || from + d.len() > s.len() {
        None
    } else if occurs_at(s, d, from) {
        Some(from)
    } else {
        find_from(s, d, from + 1)
    }
}

/// The field of index `k` (0-based) of the part of `s` from `from` on, when
/// it is split at each non-overlapping occurrence of `d`, left to right.
pub open spec fn field_from(s: Seq<char>, d: Seq<char>, k: nat, from: int) -> Option<Seq<char>>
    decreases k,
{
    match find_from(s, d, from) {
        None => if k == 0 {
            Some(s.subrange(from, s.len() as int))
        } else {
            None
        },
        Some(p) => if k == 0 {
            Some(s.subrange(from, p))
        } else {
            field_from(s, d, (k - 1) as nat, p + d.len())
        },
    }
}

/// The field of index `k` (0-based) of `s` split by the literal `d`.
pub open spec fn field(s: Seq<char>, d: Seq<char>, k: nat) -> Option<Seq<char>> {
    field_from(s, d, k, 0)
}

/// Copies the characters of `s` into a vector.
pub fn chars_of(s: &str) -> (r: Vec<char>)
    ensures
        r@ == s@,
{
    let mut v: Vec<char> = Vec::new();
    for c in it: s.chars()
        invariant
            v@ == it.seq().take(it.index() as int),
    {
        v.push(c);
    }
    assert(v@ =~= s@);
    v
}

/// Builds a string from a vector of characters.
pub fn string_of(v: &Vec<char>) -> (r: String)
    ensures
        r@ == v@,
{
    let mut s = String::new();
    let mut i: usize = 0;
    while i < v.len()
        invariant
            i <= v.len(),
            s@ == v@.take(i as int),
        decreases v.len() - i,
    {
        push_char(&mut s, v[i]);
        i += 1;
        assert(s@ =~= v@.take(i as int));
    }
    assert(v@.take(i as int) =~= v@);
    s
}

/// Appends the characters of `v` to `s`.
pub fn append_chars(s: &mut String, v: &Vec<char>)
    ensures
        final(s)@ == old(s)@ + v@,
{
    let ghost start = s@;
    let mut i: usize = 0;
    while i < v.len()
        invariant
            i <= v.len(),
            s@ == start + v@.take(i as int),
        decreases v.len() - i,
    {
        push_char(s, v[i]);
        i += 1;
        assert(s@ =~= start + v@.take(i as int));
    }
    assert(v@.take(i as int) =~= v@);
}

/// Removes surrounding whitespace.
pub fn trimmed(s: &Vec<char>) -> (r: Vec<char>)
    ensures
        r@ == trim(s@),
{
    let n = s.len();
    let mut a: usize = 0;
    assert(s@.subrange(0, n as int) =~= s@);
    while a < n && whitespace(s[a])
        invariant
            a <= n == s.len(),
            trim_start(s@) == trim_start(s@.subrange(a as int, n as int)),
        decreases n - a,
    {
        assert(s@.subrange(a as int, n as int).drop_first() =~= s@.subrange(a + 1, n as int));
        a += 1;
    }
    let ghost t = s@.subrange(a as int, n as int);
    assert(trim_start(t) == t);
    let mut b: usize = n;
    while b > a && whitespace(s[b - 1])
        invariant
            a <= b <= n == s.len(),
            trim_end(t) == trim_end(s@.subrange(a as int, b as int)),
        decreases b,
    {
        assert(s@.subrange(a as int, b as int).drop_last() =~= s@.subrange(a as int, b - 1));
        b -= 1;
    }
    let mut r: Vec<char> = Vec::new();
    let mut i: usize = a;
    while i < b
        invariant
            a <= i <= b <= n == s.len(),
            r@ == s@.subrange(a as int, i as int),
        decreases b - i,
    {
        r.push(s[i]);
        i += 1;
        assert(r@ =~= s@.subrange(a as int, i as int));
    }
    r
}

/// Copies `s[from..to]`.
pub fn slice_of(s: &Vec<char>, from: usize, to: usize) -> (r: Vec<char>)
    requires
        from <= to <= s.len(),
    ensures
        r@ == s@.subrange(from as int, to as int),
{
    let mut r: Vec<char> = Vec::new();
    let mut i: usize = from;
    while i < to
        invariant
            from <= i <= to <= s.len(),
            r@ == s@.subrange(from as int, i as int),
        decreases to - i,
    {
        r.push(s[i]);
        i += 1;
        assert(r@ =~= s@.subrange(from as int, i as int));
    }
    r
}

/// Removes one pair of enclosing double quotes, when present.
pub fn unquoted(s: &Vec<char>) -> (r: Vec<char>)
    ensures
        r@ == unquote(s@),
{
    let n = s.len();
    if n >= 2 && s[0] == '"' && s[n - 1] == '"' {
        slice_of(s, 1, n - 1)
    } else {
        s.clone()
    }
}

/// Whether `d` occurs in `s` at position `p`.
pub fn occurs_at_exec(s: &Vec<char>, d: &Vec<char>, p: usize) -> (r: bool)
    ensures
        r == occurs_at(s@, d@, p as int),
{
    if d.len() > s.len() || p > s.len() - d.len() {
        return false;
    }
    let mut j: usize = 0;
    while j < d.len()
        invariant
            j <= d.len(),
            p + d.len() <= s.len(),
            forall|k: int| 0 <= k < j ==> s@[p + k] == d@[k],
        decreases d.len() - j,
    {
        if s[p + j] != d[j] {
            assert(s@.subrange(p as int, p + d.len())[j as int] != d@[j as int]);
            return false;
        }
        j += 1;
    }
    assert(s@.subrange(p as int, p + d.len()) =~= d@);
    true
}

/// Finds the first occurrence of `d` in `s` at or after `from`.
pub fn find_from_exec(s: &Vec<char>, d: &Vec<char>, from: usize) -> (r: Option<usize>)
    requires
        d.len() > 0,
    ensures
        match r {
            Some(p) => find_from(s@, d@, from as int) == Some(p as int),
            None => find_from(s@, d@, from as int) is None,
        },
{
    if d.len() > s.len() {
        return None;
    }
    let mut i: usize = from;
    while i <= s.len() - d.len()
        invariant
            from <= i,
            0 < d.len() <= s.len(),
            find_from(s@, d@, from as int) == find_from(s@, d@, i as int),
        decreases s.len() - i,
    {
        if occurs_at_exec(s, d, i) {
            return Some(i);
        }
        i += 1;
    }
    None
}

/// The field of index `k` (0-based) of `s` split by the non-empty literal `d`.
pub fn field_exec(s: &Vec<char>, d: &Vec<char>, k: usize) -> (r: Option<Vec<char>>)
    requires
        d.len() > 0,
    ensures
        match r {
            Some(f) => field(s@, d@, k as nat) == Some(f@),
            None => field(s@, d@, k as nat) is None,
        },
{
    let mut from: usize = 0;
    let mut j: usize = k;
    loop
        invariant
            from <= s.len(),
            d.len() > 0,
            field(s@, d@, k as nat) == field_from(s@, d@, j as nat, from as int),
        decreases j,
    {
        match find_from_exec(s, d, from) {
            None => {
                if j == 0 {
                    return Some(slice_of(s, from, s.len()));
                } else {
                    return None;
                }
            },
            Some(p) => {
                proof {
                    find_from_bounds(s@, d@, from as int);
                }
                if j == 0 {
                    return Some(slice_of(s, from, p));
                }
                from = p + d.len();
                j -= 1;
            },
        }
    }
}

proof fn find_from_bounds(s: Seq<char>, d: Seq<char>, from: int)
    requires
        d.len() > 0,
    ensures
        find_from(s, d, from) matches Some(p) ==> from <= p && p + d.len() <= s.len(),
    decreases s.len() + 1 - from,
{
    if from >= 0 && from + d.len() <= s.len() && !occurs_at(s, d, from) {
        find_from_bounds(s, d, from + 1);
    }
}


/// Whether two character vectors are equal.
pub fn same_chars(a: &Vec<char>, b: &Vec<char>) -> (r: bool)
    ensures
        r == (a@ == b@),
{
    if a.len() != b.len() {
        return false;
    }
    let mut i: usize = 0;
    while i < a.len()
        invariant
            i <= a.len() == b.len(),
            forall|j: int| 0 <= j < i ==> a@[j] == b@[j],
        decreases a.len() - i,
    {
        if a[i] != b[i] {
            return false;
        }
        i += 1;
    }
    assert(a@ =~= b@);
    true
}

/// Whether every character of `w` is whitespace.
pub open spec fn all_space(w: Seq<char>) -> bool {
    forall|i: int| 0 <= i < w.len() ==> is_space(#[trigger] w[i])
}

proof fn lemma_trim_start_space(w: Seq<char>, t: Seq<char>)
    requires
        all_space(w),
        t.len() > 0,
        !is_space(t[0]),
    ensures
        trim_start(w + t) == t,
    decreases w.len(),
{
    if w.len() == 0 {
        assert(w + t =~= t);
    } else {
        assert((w + t).drop_first() =~= w.drop_first() + t);
        lemma_trim_start_space(w.drop_first(), t);
    }
}

proof fn lemma_trim_end_space(t: Seq<char>, w: Seq<char>)
    requires
        all_space(w),
        t.len() > 0,
        !is_space(t.last()),
    ensures
        trim_end(t + w) == t,
    decreases w.len(),
{
    if w.len() == 0 {
        assert(t + w =~= t);
    } else {
        assert((t + w).drop_last() =~= t + w.drop_last());
        lemma_trim_end_space(t, w.drop_last());
    }
}

/// Trimming removes exactly the whitespace around a text that neither
/// begins nor ends with whitespace.
pub proof fn lemma_trim_around(w1: Seq<char>, t: Seq<char>, w2: Seq<char>)
    requires
        all_space(w1),
        all_space(w2),
        t.len() > 0,
        !is_space(t[0]),
        !is_space(t.last()),
    ensures
        trim(w1 + t + w2) == t,
{
    assert(w1 + t + w2 =~= w1 + (t + w2));
    lemma_trim_start_space(w1, t + w2);
    lemma_trim_end_space(t, w2);
}

} // verus!
