//! Character-level text helpers used throughout the library: trimming,
//! prefix and substring tests, path segments and decimal formatting.
use vstd::prelude::*;

verus! {

broadcast use vstd::string::group_string_axioms;

/// Appends one character to a `String` (`String::push`).
#[verifier::external_body]
pub(crate) fn string_push(s: &mut String, c: char)
    ensures
        final(s)@ == old(s)@.push(c),
{
    s.push(c);
}

/// The characters of `s`, in order.
pub fn chars_of(s: &str) -> (r: Vec<char>)
    ensures
        r@ == s@,
{
    let mut out: Vec<char> = Vec::new();
    for c in it: s.chars()
        invariant
            out@ == it.seq().take(it.index() as int),
            it.seq() == s@,
    {
        out.push(c);
    }
    out
}

/// A `String` holding exactly the characters of `v`.
pub fn string_of(v: &[char]) -> (r: String)
    ensures
        r@ == v@,
{
    let mut out = String::new();
    let mut i: usize = 0;
    while i < v.len()
        invariant
            i <= v@.len(),
            out@ == v@.take(i as int),
        decreases v@.len() - i,
    {
        string_push(&mut out, v[i]);
        assert(v@.take(i as int).push(v@[i as int]) =~= v@.take(i + 1));
        i = i + 1;
    }
    assert(v@.take(v@.len() as int) =~= v@);
    out
}

/// A fresh copy of `s`, equal to it character for character.
pub fn copy_string(s: &String) -> (r: String)
    ensures
        r@ == s@,
{
    s.clone()
}

/// `s` followed by `t`.
pub fn concat(s: &str, t: &str) -> (r: String)
    ensures
        r@ == s@ + t@,
{
    let mut out = String::from_str(s);
    out.append(t);
    out
}

// ---------------------------------------------------------------------------
// Whitespace and trimming
// ---------------------------------------------------------------------------

/// The Unicode `White_Space` property, which is what `char::is_whitespace`
/// tests and what `str::trim` removes.
pub open spec fn is_white(c: char) -> bool {
    ('\u{9}' <= c && c <= '\u{d}') || c == ' ' || c == '\u{85}' || c == '\u{a0}'
        || c == '\u{1680}' || ('\u{2000}' <= c && c <= '\u{200a}') || c == '\u{2028}'
        || c == '\u{2029}' || c == '\u{202f}' || c == '\u{205f}' || c == '\u{3000}'
}

pub fn is_whitespace(c: char) -> (r: bool)
    ensures
        r == is_white(c),
{
    ('\u{9}' <= c && c <= '\u{d}') || c == ' ' || c == '\u{85}' || c == '\u{a0}'
        || c == '\u{1680}' || ('\u{2000}' <= c && c <= '\u{200a}') || c == '\u{2028}'
        || c == '\u{2029}' || c == '\u{202f}' || c == '\u{205f}' || c == '\u{3000}'
}

/// `s` without its leading whitespace.
pub open spec fn trim_start(s: Seq<char>) -> Seq<char>
    decreases s.len(),
{
    if s.len() > 0 && is_white(s[0]) {
        trim_start(s.drop_first())
    } else {
        s
    }
}

/// `s` without its trailing whitespace.
pub open spec fn trim_end(s: Seq<char>) -> Seq<char>
    decreases s.len(),
{
    if s.len() > 0 && is_white(s.last()) {
        trim_end(s.drop_last())
    } else {
        s
    }
}

/// `s` without leading and trailing whitespace (`str::trim`).
pub open spec fn trimmed(s: Seq<char>) -> Seq<char> {
    trim_end(trim_start(s))
}

proof fn lemma_trim_start_skip(s: Seq<char>, i: int)
    requires
        0 <= i < s.len(),
        is_white(s[i]),
    ensures
        trim_start(s.skip(i)) == trim_start(s.skip(i + 1)),
{
    assert(s.skip(i).drop_first() =~= s.skip(i + 1));
}

proof fn lemma_trim_end_take(s: Seq<char>, j: int)
    requires
        0 < j <= s.len(),
        is_white(s[j - 1]),
    ensures
        trim_end(s.take(j)) == trim_end(s.take(j - 1)),
{
    assert(s.take(j).drop_last() =~= s.take(j - 1));
}

/// Bounds `(a, b)` such that `s[a..b]` is `s` trimmed.
fn trim_bounds(s: &[char]) -> (r: (usize, usize))
    ensures
        r.0 <= r.1 <= s@.len(),
        s@.subrange(r.0 as int, r.1 as int) == trimmed(s@),
{
    let mut a: usize = 0;
    assert(s@.skip(0) =~= s@);
    while a < s.len() && is_whitespace(s[a])
        invariant
            a <= s@.len(),
            trim_start(s@) == trim_start(s@.skip(a as int)),
        decreases s@.len() - a,
    {
        proof {
            lemma_trim_start_skip(s@, a as int);
        }
        a = a + 1;
    }
    let ghost rest = s@.skip(a as int);
    assert(trim_start(s@) == rest) by {
        if a < s@.len() {
            assert(rest[0] == s@[a as int]);
        }
    }
    let mut b: usize = s.len();
    assert(rest.take(rest.len() as int) =~= rest);
    while b > a && is_whitespace(s[b - 1])
        invariant
            a <= b <= s@.len(),
            rest == s@.skip(a as int),
            trim_end(rest) == trim_end(rest.take(b - a)),
        decreases b,
    {
        proof {
            assert(rest[b - a - 1] == s@[b - 1]);
            lemma_trim_end_take(rest, (b - a) as int);
        }
        b = b - 1;
    }
    assert(trim_end(rest) == rest.take(b - a)) by {
        if b > a {
            assert(rest.take(b - a).last() == s@[b - 1]);
        }
    }
    assert(s@.subrange(a as int, b as int) =~= rest.take(b - a));
    (a, b)
}

/// The characters of `s` with leading and trailing whitespace removed.
pub fn trim_chars(s: &[char]) -> (r: Vec<char>)
    ensures
        r@ == trimmed(s@),
{
    let (a, b) = trim_bounds(s);
    slice_range(s, a, b)
}

/// `s.trim()` as a `String`.
pub fn trim(s: &str) -> (r: String)
    ensures
        r@ == trimmed(s@),
{
    let cs = chars_of(s);
    let t = trim_chars(cs.as_slice());
    string_of(t.as_slice())
}

/// `s.trim().is_empty()`: true when `s` holds only whitespace.
pub fn is_blank(s: &str) -> (r: bool)
    ensures
        r == (trimmed(s@).len() == 0),
{
    let cs = chars_of(s);
    let (a, b) = trim_bounds(cs.as_slice());
    a == b
}

/// The elements `s[a..b]`.
pub fn slice_range(s: &[char], a: usize, b: usize) -> (r: Vec<char>)
    requires
        a <= b <= s@.len(),
    ensures
        r@ == s@.subrange(a as int, b as int),
{
    let mut out: Vec<char> = Vec::new();
    let mut i = a;
    while i < b
        invariant
            a <= i <= b <= s@.len(),
            out@ == s@.subrange(a as int, i as int),
        decreases b - i,
    {
        out.push(s[i]);
        assert(s@.subrange(a as int, i as int).push(s@[i as int]) =~= s@.subrange(
            a as int,
            i + 1,
        ));
        i = i + 1;
    }
    out
}

// ---------------------------------------------------------------------------
// Comparison, prefixes and substrings
// ---------------------------------------------------------------------------

/// `a == b`, character by character.
pub fn chars_eq(a: &[char], b: &[char]) -> (r: bool)
    ensures
        r == (a@ == b@),
{
    if a.len() != b.len() {
        return false;
    }
    let mut i: usize = 0;
    while i < a.len()
        invariant
            a@.len() == b@.len(),
            i <= a@.len(),
            forall|k: int| 0 <= k < i ==> a@[k] == b@[k],
        decreases a@.len() - i,
    {
        if a[i] != b[i] {
            return false;
        }
        i = i + 1;
    }
    assert(a@ =~= b@);
    true
}

/// `s == t` for two string slices.
pub fn str_eq(s: &str, t: &str) -> (r: bool)
    ensures
        r == (s@ == t@),
{
    let a = chars_of(s);
    let b = chars_of(t);
    chars_eq(a.as_slice(), b.as_slice())
}

/// Whether `p` occurs in `s` starting at position `at`.
pub open spec fn occurs_at(s: Seq<char>, p: Seq<char>, at: int) -> bool {
    0 <= at && at + p.len() <= s.len() && s.subrange(at, at + p.len()) == p
}

/// Whether `p` occurs anywhere in `s` (`str::contains`).
pub open spec fn contains_seq(s: Seq<char>, p: Seq<char>) -> bool {
    exists|at: int| occurs_at(s, p, at)
}

/// Whether `p` occurs in `s` at position `at`.
pub fn occurs_at_exec(s: &[char], p: &[char], at: usize) -> (r: bool)
    ensures
        r == occurs_at(s@, p@, at as int),
{
    if at > s.len() || p.len() > s.len() - at {
        return false;
    }
    let mut k: usize = 0;
    while k < p.len()
        invariant
            at <= s@.len(),
            at + p@.len() <= s@.len(),
            k <= p@.len(),
            forall|j: int| 0 <= j < k ==> s@[at + j] == p@[j],
        decreases p@.len() - k,
    {
        assert(k < p@.len());
        let n = s.len();
        assert(at + k < n);
        if s[at + k] != p[k] {
            assert(s@.subrange(at as int, at + p@.len())[k as int] != p@[k as int]);
            return false;
        }
        k = k + 1;
    }
    assert(s@.subrange(at as int, at + p@.len()) =~= p@);
    true
}

/// `s.starts_with(p)`.
pub fn starts_with(s: &str, p: &str) -> (r: bool)
    ensures
        r == p@.is_prefix_of(s@),
{
    let a = chars_of(s);
    let b = chars_of(p);
    let r = occurs_at_exec(a.as_slice(), b.as_slice(), 0);
    assert(r == p@.is_prefix_of(s@)) by {
        if r {
            assert(s@.subrange(0, p@.len() as int) =~= p@);
        }
    }
    r
}

/// `s.contains(p)`.
pub fn contains(s: &str, p: &str) -> (r: bool)
    ensures
        r == contains_seq(s@, p@),
{
    let a = chars_of(s);
    let b = chars_of(p);
    if b.len() > a.len() {
        return false;
    }
    let last = a.len() - b.len();
    let mut at: usize = 0;
    loop
        invariant
            a@ == s@,
            b@ == p@,
            last == a@.len() - b@.len(),
            at <= last,
            forall|j: int| 0 <= j < at ==> !occurs_at(s@, p@, j),
        decreases last - at,
    {
        if occurs_at_exec(a.as_slice(), b.as_slice(), at) {
            return true;
        }
        if at == last {
            return false;
        }
        at = at + 1;
    }
}

// ---------------------------------------------------------------------------
// Path segments and '/' handling
// ---------------------------------------------------------------------------

/// The part of `s` after its last `c` (all of `s` when `c` does not occur):
/// the first item of `s.rsplit(c)`.
pub open spec fn after_last(s: Seq<char>, c: char) -> Seq<char>
    decreases s.len(),
{
    if s.len() == 0 {
        s
    } else if s.last() == c {
        Seq::empty()
    } else {
        after_last(s.drop_last(), c).push(s.last())
    }
}

proof fn lemma_after_last_take(s: Seq<char>, c: char, j: int)
    requires
        0 < j <= s.len(),
        s[j - 1] != c,
    ensures
        after_last(s.take(j), c) == after_last(s.take(j - 1), c).push(s[j - 1]),
{
    assert(s.take(j).drop_last() =~= s.take(j - 1));
}

/// `s.rsplit(c).next()`: the text after the last `c`.
pub fn last_segment(s: &[char], c: char) -> (r: Vec<char>)
    ensures
        r@ == after_last(s@, c),
{
    let mut j: usize = s.len();
    assert(s@.take(s@.len() as int) =~= s@);
    assert(s@.subrange(s@.len() as int, s@.len() as int) =~= Seq::<char>::empty());
    while j > 0 && s[j - 1] != c
        invariant
            j <= s@.len(),
            after_last(s@, c) == after_last(s@.take(j as int), c) + s@.subrange(
                j as int,
                s@.len() as int,
            ),
        decreases j,
    {
        proof {
            lemma_after_last_take(s@, c, j as int);
            assert(seq![s@[j - 1]] + s@.subrange(j as int, s@.len() as int) =~= s@.subrange(
                j - 1,
                s@.len() as int,
            ));
            assert(after_last(s@.take(j - 1), c).push(s@[j - 1]) + s@.subrange(
                j as int,
                s@.len() as int,
            ) =~= after_last(s@.take(j - 1), c) + s@.subrange(j - 1, s@.len() as int));
        }
        j = j - 1;
    }
    proof {
        if j > 0 {
            assert(s@.take(j as int).last() == c);
        }
        assert(after_last(s@.take(j as int), c) =~= Seq::<char>::empty());
    }
    let r = slice_range(s, j, s.len());
    assert(after_last(s@, c) =~= r@);
    r
}

/// `s` without any trailing `c` (`str::trim_end_matches(c)`).
pub open spec fn strip_end(s: Seq<char>, c: char) -> Seq<char>
    decreases s.len(),
{
    if s.len() > 0 && s.last() == c {
        strip_end(s.drop_last(), c)
    } else {
        s
    }
}

/// `s` without any leading `c` (`str::trim_start_matches(c)`).
pub open spec fn strip_start(s: Seq<char>, c: char) -> Seq<char>
    decreases s.len(),
{
    if s.len() > 0 && s[0] == c {
        strip_start(s.drop_first(), c)
    } else {
        s
    }
}

/// `s.trim_end_matches(c)`.
pub fn trim_end_char(s: &str, c: char) -> (r: String)
    ensures
        r@ == strip_end(s@, c),
{
    let v = chars_of(s);
    let mut b: usize = v.len();
    assert(v@.take(v@.len() as int) =~= v@);
    while b > 0 && v[b - 1] == c
        invariant
            b <= v@.len(),
            strip_end(s@, c) == strip_end(v@.take(b as int), c),
        decreases b,
    {
        assert(v@.take(b as int).drop_last() =~= v@.take(b - 1));
        b = b - 1;
    }
    let out = slice_range(v.as_slice(), 0, b);
    assert(out@ =~= v@.take(b as int));
    string_of(out.as_slice())
}

/// `s.trim_start_matches(c)`.
pub fn trim_start_char(s: &str, c: char) -> (r: String)
    ensures
        r@ == strip_start(s@, c),
{
    let v = chars_of(s);
    let mut a: usize = 0;
    assert(v@.skip(0) =~= v@);
    while a < v.len() && v[a] == c
        invariant
            a <= v@.len(),
            strip_start(s@, c) == strip_start(v@.skip(a as int), c),
        decreases v@.len() - a,
    {
        assert(v@.skip(a as int).drop_first() =~= v@.skip(a + 1));
        a = a + 1;
    }
    let out = slice_range(v.as_slice(), a, v.len());
    assert(out@ =~= v@.skip(a as int));
    string_of(out.as_slice())
}

/// `s` with `'/'` prepended unless it already starts with one.
pub open spec fn with_leading_slash(s: Seq<char>) -> Seq<char> {
    if s.len() > 0 && s[0] == '/' {
        s
    } else {
        seq!['/'] + s
    }
}

pub fn leading_slash(s: &str) -> (r: String)
    ensures
        r@ == with_leading_slash(s@),
{
    let v = chars_of(s);
    if v.len() > 0 && v[0] == '/' {
        string_of(v.as_slice())
    } else {
        let mut out: Vec<char> = Vec::new();
        out.push('/');
        let mut rest = v;
        out.append(&mut rest);
        string_of(out.as_slice())
    }
}

/// Every `'/'` of `s` written as `"%2F"` (`str::replace("/", "%2F")`).
pub open spec fn escape_slashes(s: Seq<char>) -> Seq<char>
    decreases s.len(),
{
    if s.len() == 0 {
        s
    } else if s.last() == '/' {
        escape_slashes(s.drop_last()) + seq!['%', '2', 'F']
    } else {
        escape_slashes(s.drop_last()).push(s.last())
    }
}

pub fn escape_slashes_exec(s: &str) -> (r: String)
    ensures
        r@ == escape_slashes(s@),
{
    let v = chars_of(s);
    let mut out: Vec<char> = Vec::new();
    let mut i: usize = 0;
    while i < v.len()
        invariant
            v@ == s@,
            i <= v@.len(),
            out@ == escape_slashes(v@.take(i as int)),
        decreases v@.len() - i,
    {
        assert(v@.take(i + 1).drop_last() =~= v@.take(i as int));
        if v[i] == '/' {
            out.push('%');
            out.push('2');
            out.push('F');
            assert(out@ =~= escape_slashes(v@.take(i as int)) + seq!['%', '2', 'F']);
        } else {
            out.push(v[i]);
        }
        i = i + 1;
    }
    assert(v@.take(v@.len() as int) =~= v@);
    string_of(out.as_slice())
}

// ---------------------------------------------------------------------------
// Decimal formatting
// ---------------------------------------------------------------------------

pub open spec fn digit_char(d: nat) -> char
    recommends
        d < 10,
{
    (('0' as nat) + d) as char
}

/// The decimal digits of `n`, most significant first, without leading zeros.
pub open spec fn decimal(n: nat) -> Seq<char>
    decreases n,
{
    if n < 10 {
        seq![digit_char(n)]
    } else {
        decimal(n / 10).push(digit_char(n % 10))
    }
}

/// How an `i64` is written by `to_string`.
pub open spec fn signed_decimal(n: int) -> Seq<char> {
    if n < 0 {
        seq!['-'] + decimal((-n) as nat)
    } else {
        decimal(n as nat)
    }
}

fn digit_exec(d: u64) -> (c: char)
    requires
        d < 10,
    ensures
        c == digit_char(d as nat),
{
    if d == 0 { '0' }
    else if d == 1 { '1' }
    else if d == 2 { '2' }
    else if d == 3 { '3' }
    else if d == 4 { '4' }
    else if d == 5 { '5' }
    else if d == 6 { '6' }
    else if d == 7 { '7' }
    else if d == 8 { '8' }
    else { '9' }
}

fn decimal_chars(n: u64) -> (r: Vec<char>)
    ensures
        r@ == decimal(n as nat),
    decreases n,
{
    if n < 10 {
        let mut v: Vec<char> = Vec::new();
        v.push(digit_exec(n));
        assert(v@ =~= decimal(n as nat));
        v
    } else {
        let mut v = decimal_chars(n / 10);
        v.push(digit_exec(n % 10));
        v
    }
}

/// `n.to_string()` for an unsigned integer.
pub fn u64_to_string(n: u64) -> (r: String)
    ensures
        r@ == decimal(n as nat),
{
    let v = decimal_chars(n);
    string_of(v.as_slice())
}

/// `n.to_string()` for a signed integer.
pub fn i64_to_string(n: i64) -> (r: String)
    ensures
        r@ == signed_decimal(n as int),
{
    if n < 0 {
        let m: u64 = if n == i64::MIN {
            0x8000_0000_0000_0000u64
        } else {
            (-n) as u64
        };
        let mut v: Vec<char> = Vec::new();
        v.push('-');
        let mut d = decimal_chars(m);
        v.append(&mut d);
        string_of(v.as_slice())
    } else {
        u64_to_string(n as u64)
    }
}


// ---------------------------------------------------------------------------
// Searching, suffixes and decimal integers
// ---------------------------------------------------------------------------

/// The first position at or after `start` that holds `c`.
pub open spec fn find_from(s: Seq<char>, c: char, start: int) -> Option<int>
    decreases s.len() - start,
{
    if start < 0 || start >= s.len() {
        None
    } else if s[start] == c {
        Some(start)
    } else {
        find_from(s, c, start + 1)
    }
}

/// `s[start..].find(c)`, counted from the start of `s`.
pub fn find_char_from(s: &[char], c: char, start: usize) -> (r: Option<usize>)
    ensures
        match r {
            Some(i) => find_from(s@, c, start as int) == Some(i as int) && start <= i < s@.len()
                && s@[i as int] == c,
            None => find_from(s@, c, start as int) is None,
        },
{
    let mut i: usize = start;
    while i < s.len()
        invariant
            start <= i,
            find_from(s@, c, start as int) == find_from(s@, c, i as int),
        decreases s@.len() - i,
    {
        if s[i] == c {
            return Some(i);
        }
        i = i + 1;
    }
    None
}

/// `s` without any number of trailing copies of `p`
/// (`str::trim_end_matches` with a string pattern).
pub open spec fn strip_end_seq(s: Seq<char>, p: Seq<char>) -> Seq<char>
    decreases s.len(),
{
    if p.len() > 0 && p.len() <= s.len() && s.subrange(s.len() - p.len(), s.len() as int) == p {
        strip_end_seq(s.take(s.len() - p.len()), p)
    } else {
        s
    }
}

/// `s.trim_end_matches(p)` for a string pattern `p`.
pub fn trim_end_str(s: &[char], p: &[char]) -> (r: Vec<char>)
    ensures
        r@ == strip_end_seq(s@, p@),
{
    let mut b: usize = s.len();
    assert(s@.take(s@.len() as int) =~= s@);
    if p.len() == 0 {
        return slice_range(s, 0, b);
    }
    while b >= p.len() && occurs_at_exec(s, p, b - p.len())
        invariant
            b <= s@.len(),
            p@.len() > 0,
            strip_end_seq(s@, p@) == strip_end_seq(s@.take(b as int), p@),
        decreases b,
    {
        proof {
            let t = s@.take(b as int);
            assert(t.subrange(t.len() - p@.len(), t.len() as int) =~= s@.subrange(b - p@.len(), b as int));
            assert(t.take(t.len() - p@.len()) =~= s@.take(b - p@.len()));
        }
        b = b - p.len();
    }
    proof {
        let t = s@.take(b as int);
        if p@.len() <= b {
            assert(t.subrange(t.len() - p@.len(), t.len() as int) =~= s@.subrange(b - p@.len(), b as int));
        }
    }
    slice_range(s, 0, b)
}

pub open spec fn is_digit(c: char) -> bool {
    '0' <= c && c <= '9'
}

pub open spec fn all_digits(s: Seq<char>) -> bool {
    forall|i: int| 0 <= i < s.len() ==> is_digit(s[i])
}

/// The number that the decimal digits `s` write.
pub open spec fn digits_value(s: Seq<char>) -> int
    decreases s.len(),
{
    if s.len() == 0 {
        0
    } else {
        digits_value(s.drop_last()) * 10 + ((s.last() as u32) as int - 48)
    }
}

/// What `str::parse::<i64>` reads from `s`: an optional `+` or `-`, then
/// one or more decimal digits, whose value fits in an `i64`.
pub open spec fn parsed_i64(s: Seq<char>) -> Option<i64> {
    let signed = s.len() > 0 && (s[0] == '-' || s[0] == '+');
    let body = if signed { s.drop_first() } else { s };
    let v = if s.len() > 0 && s[0] == '-' { -digits_value(body) } else { digits_value(body) };
    if body.len() > 0 && all_digits(body) && i64::MIN <= v <= i64::MAX {
        Some(v as i64)
    } else {
        None
    }
}

proof fn lemma_digits_nonneg(s: Seq<char>)
    requires
        all_digits(s),
    ensures
        digits_value(s) >= 0,
    decreases s.len(),
{
    if s.len() > 0 {
        lemma_digits_nonneg(s.drop_last());
    }
}

proof fn lemma_digits_prefix(s: Seq<char>, k: int)
    requires
        all_digits(s),
        0 <= k <= s.len(),
    ensures
        digits_value(s.take(k)) <= digits_value(s),
    decreases s.len(),
{
    if k < s.len() {
        lemma_digits_prefix(s.drop_last(), k);
        assert(s.drop_last().take(k) =~= s.take(k));
        lemma_digits_nonneg(s.drop_last());
    } else {
        assert(s.take(k) =~= s);
    }
}

/// `s.parse::<i64>().ok()`.
pub fn parse_i64(s: &[char]) -> (r: Option<i64>)
    ensures
        r == parsed_i64(s@),
{
    let n: usize = s.len();
    if n == 0 {
        return None;
    }
    let neg: bool = s[0] == '-';
    let start: usize = if s[0] == '-' || s[0] == '+' { 1 } else { 0 };
    let ghost body = if start == 1 { s@.drop_first() } else { s@ };
    assert(body =~= s@.subrange(start as int, n as int));
    if start >= n {
        return None;
    }
    let mut acc: u64 = 0;
    let mut i: usize = start;
    assert(s@.subrange(start as int, start as int) =~= Seq::<char>::empty());
    while i < n
        invariant
            n == s@.len(),
            n > 0,
            start <= i <= n,
            body == s@.subrange(start as int, n as int),
            body == (if s@[0] == '-' || s@[0] == '+' { s@.drop_first() } else { s@ }),
            neg == (s@[0] == '-'),
            all_digits(s@.subrange(start as int, i as int)),
            acc as int == digits_value(s@.subrange(start as int, i as int)),
            acc <= 0x8000_0000_0000_0000u64,
        decreases n - i,
    {
        let c: char = s[i];
        proof {
            assert(s@.subrange(start as int, i + 1).drop_last() =~= s@.subrange(start as int, i as int));
        }
        if !('0' <= c && c <= '9') {
            assert(body[i - start] == c);
            assert(!is_digit(body[i - start]));
            return None;
        }
        let d: u64 = ((c as u32) - 48u32) as u64;
        let next: u128 = (acc as u128) * 10 + (d as u128);
        proof {
            let sub = s@.subrange(start as int, i + 1);
            assert(sub.last() == c);
            assert(digits_value(sub) == next as int);
            assert(all_digits(sub));
        }
        if next > 0x8000_0000_0000_0000u128 {
            proof {
                if all_digits(body) {
                    lemma_digits_prefix(body, i + 1 - start);
                    assert(body.take(i + 1 - start) =~= s@.subrange(start as int, i + 1));
                }
            }
            return None;
        }
        acc = next as u64;
        i = i + 1;
    }
    if neg {
        if acc == 0x8000_0000_0000_0000u64 {
            Some(-0x7fff_ffff_ffff_ffffi64 - 1)
        } else {
            let m: i64 = acc as i64;
            Some(-m)
        }
    } else if acc > 0x7fff_ffff_ffff_ffffu64 {
        None
    } else {
        Some(acc as i64)
    }
}

// ---------------------------------------------------------------------------
// Lexicographic order
// ---------------------------------------------------------------------------

/// `a < b` in the order of `str`: character by character, a proper prefix
/// first. (UTF-8 keeps the order of code points, so this is the byte order
/// that `String`'s `Ord` uses.)
pub open spec fn lex_lt(a: Seq<char>, b: Seq<char>) -> bool
    decreases a.len(),
{
    if a.len() == 0 {
        b.len() > 0
    } else if b.len() == 0 {
        false
    } else if a[0] != b[0] {
        a[0] < b[0]
    } else {
        lex_lt(a.drop_first(), b.drop_first())
    }
}

/// No sequence comes before itself.
pub proof fn lemma_lex_lt_irreflexive(a: Seq<char>)
    ensures
        !lex_lt(a, a),
    decreases a.len(),
{
    if a.len() > 0 {
        lemma_lex_lt_irreflexive(a.drop_first());
    }
}

/// Of two different sequences, one comes first.
pub proof fn lemma_lex_lt_total(a: Seq<char>, b: Seq<char>)
    requires
        a != b,
    ensures
        lex_lt(a, b) || lex_lt(b, a),
    decreases a.len(),
{
    if a.len() > 0 && b.len() > 0 && a[0] == b[0] {
        if a.drop_first() == b.drop_first() {
            assert(a =~= seq![a[0]] + a.drop_first());
            assert(b =~= seq![b[0]] + b.drop_first());
        }
        lemma_lex_lt_total(a.drop_first(), b.drop_first());
    } else if a.len() == 0 && b.len() == 0 {
        assert(a =~= b);
    }
}

/// The order is transitive.
pub proof fn lemma_lex_lt_transitive(a: Seq<char>, b: Seq<char>, c: Seq<char>)
    requires
        lex_lt(a, b),
        lex_lt(b, c),
    ensures
        lex_lt(a, c),
    decreases a.len(),
{
    if a.len() > 0 && b.len() > 0 && c.len() > 0 && a[0] == b[0] && b[0] == c[0] {
        lemma_lex_lt_transitive(a.drop_first(), b.drop_first(), c.drop_first());
    }
}

/// `a < b` for two strings.
pub fn str_lt(a: &str, b: &str) -> (r: bool)
    ensures
        r == lex_lt(a@, b@),
{
    let x = chars_of(a);
    let y = chars_of(b);
    let mut i: usize = 0;
    assert(x@.skip(0) =~= x@);
    assert(y@.skip(0) =~= y@);
    while i < x.len() && i < y.len() && x[i] == y[i]
        invariant
            i <= x@.len(),
            i <= y@.len(),
            lex_lt(a@, b@) == lex_lt(x@.skip(i as int), y@.skip(i as int)),
        decreases x@.len() - i,
    {
        proof {
            assert(x@.skip(i as int).drop_first() =~= x@.skip(i + 1));
            assert(y@.skip(i as int).drop_first() =~= y@.skip(i + 1));
        }
        i = i + 1;
    }
    if i == x.len() {
        i < y.len()
    } else if i == y.len() {
        false
    } else {
        x[i] < y[i]
    }
}

// ---------------------------------------------------------------------------
// Trimming around a text
// ---------------------------------------------------------------------------

proof fn lemma_trim_start_white_prefix(pad: Seq<char>, x: Seq<char>)
    requires
        forall|i: int| 0 <= i < pad.len() ==> is_white(#[trigger] pad[i]),
    ensures
        trim_start(pad + x) == trim_start(x),
    decreases pad.len(),
{
    if pad.len() > 0 {
        assert((pad + x)[0] == pad[0]);
        assert((pad + x).drop_first() =~= pad.drop_first() + x);
        assert forall|i: int| 0 <= i < pad.drop_first().len() implies is_white(#[trigger] pad.drop_first()[i]) by {
            assert(pad.drop_first()[i] == pad[i + 1]);
        }
        lemma_trim_start_white_prefix(pad.drop_first(), x);
    } else {
        assert(pad + x =~= x);
    }
}

proof fn lemma_trim_end_white_suffix(x: Seq<char>, pad: Seq<char>)
    requires
        forall|i: int| 0 <= i < pad.len() ==> is_white(#[trigger] pad[i]),
    ensures
        trim_end(x + pad) == trim_end(x),
    decreases pad.len(),
{
    if pad.len() > 0 {
        assert((x + pad).last() == pad.last());
        assert((x + pad).drop_last() =~= x + pad.drop_last());
        assert forall|i: int| 0 <= i < pad.drop_last().len() implies is_white(#[trigger] pad.drop_last()[i]) by {
            assert(pad.drop_last()[i] == pad[i]);
        }
        lemma_trim_end_white_suffix(x, pad.drop_last());
    } else {
        assert(x + pad =~= x);
    }
}

/// Whitespace around a text that neither begins nor ends with whitespace
/// is exactly what trimming removes.
pub proof fn law_trim_removes_padding(pad: Seq<char>, x: Seq<char>, pad2: Seq<char>)
    requires
        forall|i: int| 0 <= i < pad.len() ==> is_white(#[trigger] pad[i]),
        forall|i: int| 0 <= i < pad2.len() ==> is_white(#[trigger] pad2[i]),
        x.len() > 0,
        !is_white(x[0]),
        !is_white(x.last()),
    ensures
        trimmed(pad + x + pad2) == x,
{
    assert(pad + x + pad2 =~= pad + (x + pad2));
    lemma_trim_start_white_prefix(pad, x + pad2);
    assert((x + pad2)[0] == x[0]);
    lemma_trim_end_white_suffix(x, pad2);
}


proof fn lemma_decimal_digits(n: nat)
    ensures
        decimal(n).len() > 0,
        all_digits(decimal(n)),
        digits_value(decimal(n)) == n,
        decimal(n)[0] != '-' && decimal(n)[0] != '+',
    decreases n,
{
    let c = digit_char(n % 10);
    assert(c as u32 as int == 48 + (n % 10));
    if n >= 10 {
        lemma_decimal_digits(n / 10);
        let d = decimal(n / 10).push(c);
        assert(d.drop_last() =~= decimal(n / 10));
        assert(d.last() == c);
        assert(digits_value(d) == digits_value(d.drop_last()) * 10 + ((d.last() as u32) as int - 48));
        assert(n == (n / 10) * 10 + n % 10);
        assert(d[0] == decimal(n / 10)[0]);
        assert forall|i: int| 0 <= i < d.len() implies is_digit(#[trigger] d[i]) by {
            if i < d.len() - 1 {
                assert(d[i] == decimal(n / 10)[i]);
            }
        }
    } else {
        let d = seq![c];
        assert(d.drop_last() =~= Seq::<char>::empty());
        assert(d.last() == c);
        assert(digits_value(d) == digits_value(d.drop_last()) * 10 + ((d.last() as u32) as int - 48));
        assert(n % 10 == n);
        assert(decimal(n) == d);
    }
}

/// Reading back what `i64::to_string` writes gives the number again.
pub proof fn law_parse_reads_back_decimal(n: i64)
    ensures
        parsed_i64(signed_decimal(n as int)) == Some(n),
{
    if n < 0 {
        let m = (-(n as int)) as nat;
        lemma_decimal_digits(m);
        let s = seq!['-'] + decimal(m);
        assert(s.drop_first() =~= decimal(m));
    } else {
        lemma_decimal_digits(n as nat);
    }
}


pub open spec fn all_white(s: Seq<char>) -> bool {
    forall|i: int| 0 <= i < s.len() ==> is_white(#[trigger] s[i])
}

proof fn lemma_trim_end_empty(t: Seq<char>)
    ensures
        (trim_end(t).len() == 0) == all_white(t),
    decreases t.len(),
{
    if t.len() > 0 {
        lemma_trim_end_empty(t.drop_last());
        if is_white(t.last()) {
            if all_white(t.drop_last()) {
                assert forall|i: int| 0 <= i < t.len() implies is_white(#[trigger] t[i]) by {
                    if i < t.len() - 1 {
                        assert(t[i] == t.drop_last()[i]);
                    }
                }
            }
            if all_white(t) {
                assert forall|i: int| 0 <= i < t.drop_last().len() implies is_white(#[trigger] t.drop_last()[i]) by {
                    assert(t.drop_last()[i] == t[i]);
                }
            }
        } else {
            assert(!is_white(t[t.len() - 1]));
        }
    }
}

proof fn lemma_trim_start_shape(s: Seq<char>)
    ensures
        (trim_start(s).len() == 0) == all_white(s),
        trim_start(s).len() > 0 ==> !is_white(trim_start(s)[0]),
    decreases s.len(),
{
    if s.len() > 0 {
        lemma_trim_start_shape(s.drop_first());
        if is_white(s[0]) {
            if all_white(s.drop_first()) {
                assert forall|i: int| 0 <= i < s.len() implies is_white(#[trigger] s[i]) by {
                    if i > 0 {
                        assert(s[i] == s.drop_first()[i - 1]);
                    }
                }
            }
            if all_white(s) {
                assert forall|i: int| 0 <= i < s.drop_first().len() implies is_white(#[trigger] s.drop_first()[i]) by {
                    assert(s.drop_first()[i] == s[i + 1]);
                }
            }
        } else {
            assert(!is_white(s[0]));
        }
    }
}

/// A text trims to nothing exactly when every character of it is whitespace.
pub proof fn law_blank_is_all_whitespace(s: Seq<char>)
    ensures
        (trimmed(s).len() == 0) == all_white(s),
{
    lemma_trim_start_shape(s);
    let t = trim_start(s);
    lemma_trim_end_empty(t);
    if t.len() > 0 {
        assert(!is_white(t[0]));
    }
}


/// Escaping leaves no `/` behind, keeps every text without `/` as it is,
/// and escapes the two parts of a concatenation separately.
pub proof fn law_escape_slashes(s: Seq<char>, t: Seq<char>)
    ensures
        !escape_slashes(s).contains('/'),
        !s.contains('/') ==> escape_slashes(s) == s,
        escape_slashes(s + t) == escape_slashes(s) + escape_slashes(t),
    decreases t.len(), s.len(),
{
    if s.len() > 0 {
        law_escape_slashes(s.drop_last(), Seq::empty());
        let e = escape_slashes(s.drop_last());
        if escape_slashes(s).contains('/') {
            let k = choose|k: int| 0 <= k < escape_slashes(s).len() && escape_slashes(s)[k] == '/';
            if s.last() == '/' {
                let w = e + seq!['%', '2', 'F'];
                if k < e.len() {
                    assert(w[k] == e[k]);
                    assert(e.contains('/'));
                }
            } else {
                if k < e.len() {
                    assert(e.push(s.last())[k] == e[k]);
                    assert(e.contains('/'));
                }
            }
        }
        if !s.contains('/') {
            assert(!s.drop_last().contains('/')) by {
                if s.drop_last().contains('/') {
                    let k = choose|k: int| 0 <= k < s.drop_last().len() && s.drop_last()[k] == '/';
                    assert(s[k] == '/');
                }
            }
            assert(s.last() != '/') by {
                assert(s[s.len() - 1] == s.last());
            }
            assert(s.drop_last().push(s.last()) =~= s);
        }
    }
    if t.len() > 0 {
        law_escape_slashes(s, t.drop_last());
        assert((s + t).drop_last() =~= s + t.drop_last());
        assert((s + t).last() == t.last());
        if t.last() == '/' {
            assert(escape_slashes(s) + escape_slashes(t.drop_last()) + seq!['%', '2', 'F'] =~= escape_slashes(s)
                + (escape_slashes(t.drop_last()) + seq!['%', '2', 'F']));
        } else {
            assert((escape_slashes(s) + escape_slashes(t.drop_last())).push(t.last()) =~= escape_slashes(s)
                + escape_slashes(t.drop_last()).push(t.last()));
        }
    } else {
        assert(s + t =~= s);
        assert(escape_slashes(s) + escape_slashes(t) =~= escape_slashes(s));
    }
}


/// The last segment of a path is what follows its last separator: of
/// `p + c + n`, with no `c` in `n`, it is `n`; of a text without `c`, the
/// whole text.
pub proof fn law_last_segment(p: Seq<char>, c: char, n: Seq<char>)
    requires
        !n.contains(c),
    ensures
        after_last(p + seq![c] + n, c) == n,
        after_last(n, c) == n,
    decreases n.len(),
{
    let s = p + seq![c] + n;
    if n.len() == 0 {
        assert(s =~= p.push(c));
        assert(s.drop_last() =~= p);
    } else {
        let init = n.drop_last();
        assert(!init.contains(c)) by {
            if init.contains(c) {
                let k = choose|k: int| 0 <= k < init.len() && init[k] == c;
                assert(n[k] == c);
            }
        }
        assert(n.last() != c) by {
            assert(n[n.len() - 1] == n.last());
        }
        law_last_segment(p, c, init);
        assert(s.drop_last() =~= p + seq![c] + init);
        assert(s.last() == n.last());
        assert(init.push(n.last()) =~= n);
        assert(n.drop_last() == init);
    }
}

} // verus!
