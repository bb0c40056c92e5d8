//! Building blocks for verified text handling: turning strings into character
//! vectors and back, decimal formatting of counts and totals, and trimming.

use vstd::prelude::*;
use vstd::string::*;

verus! {

/// The characters with Unicode's White_Space property: the ASCII white
/// space, the next-line and no-break-space controls, and the Unicode space
/// and separator characters.
pub open spec fn is_unicode_space(c: char) -> bool {
    c == ' ' || c == '\t' || c == '\n' || c == '\u{000B}' || c == '\u{000C}' || c == '\r'
        || c == '\u{0085}' || c == '\u{00A0}' || c == '\u{1680}' || ('\u{2000}' <= c && c
        <= '\u{200A}') || c == '\u{2028}' || c == '\u{2029}' || c == '\u{202F}' || c
        == '\u{205F}' || c == '\u{3000}'
}

/// Relies on char::is_whitespace: whether `c` has the Unicode White_Space
/// property, whose characters `is_unicode_space` lists.
#[verifier::external_body]
pub(crate) fn is_space(c: char) -> (r: bool)
    ensures
        r == is_unicode_space(c),
{
    c.is_whitespace()
}

/// Relies on String::push: appends the given character to the end of the
/// string.
#[verifier::external_body]
pub(crate) fn push_char(s: &mut String, c: char)
    ensures
        final(s)@ == old(s)@.push(c),
{
    s.push(c);
}

/// Relies on char::from_u32: returns `Some` exactly when `v` is a Unicode
/// scalar value (below the surrogate range, or past it and at most 0x10FFFF),
/// and then the character with that value.
#[verifier::external_body]
pub(crate) fn char_from_u32(v: u32) -> (r: Option<char>)
    ensures
        r is Some <==> (v < 0xD800 || (0xE000 <= v && v <= 0x10FFFF)),
        r matches Some(c) ==> c == (v as char),
{
    char::from_u32(v)
}

/// The characters of `s`, in order.
pub fn str_chars(s: &str) -> (r: Vec<char>)
    ensures
        r@ == s@,
{
    let n = s.unicode_len();
    let mut r: Vec<char> = Vec::new();
    for i in 0..n
        invariant
            n == s@.len(),
            r@.len() == i,
            forall|j: int| 0 <= j < i ==> r@[j] == s@[j],
    {
        r.push(s.get_char(i));
    }
    assert(r@ =~= s@);
    r
}

/// A string holding exactly the characters of `v`, in order.
pub fn chars_to_string(v: &Vec<char>) -> (r: String)
    ensures
        r@ == v@,
{
    let mut s = String::new();
    let n = v.len();
    for i in 0..n
        invariant
            n == v@.len(),
            s@ == v@.take(i as int),
    {
        push_char(&mut s, v[i]);
        assert(v@.take(i as int).push(v@[i as int]) =~= v@.take(i + 1));
    }
    assert(v@.take(n as int) =~= v@);
    s
}

/// The decimal digit character for `d`.
pub open spec fn spec_digit_char(d: int) -> char {
    if d == 0 {
        '0'
    } else if d == 1 {
        '1'
    } else if d == 2 {
        '2'
    } else if d == 3 {
        '3'
    } else if d == 4 {
        '4'
    } else if d == 5 {
        '5'
    } else if d == 6 {
        '6'
    } else if d == 7 {
        '7'
    } else if d == 8 {
        '8'
    } else {
        '9'
    }
}

/// The decimal digits of `n`, most significant first, with no sign and no
/// leading zero (except for `n == 0` itself).
pub open spec fn dec_chars(n: nat) -> Seq<char>
    decreases n,
{
    if n < 10 {
        seq![spec_digit_char(n as int)]
    } else {
        dec_chars(n / 10).push(spec_digit_char((n % 10) as int))
    }
}

/// The decimal writing of `i`, with a leading minus sign when `i` is negative.
pub open spec fn int_chars(i: int) -> Seq<char> {
    if i < 0 {
        seq!['-'] + dec_chars((-i) as nat)
    } else {
        dec_chars(i as nat)
    }
}

fn digit_char(d: u64) -> (c: char)
    requires
        d <= 9,
    ensures
        c == spec_digit_char(d as int),
{
    match d {
        0 => '0',
        1 => '1',
        2 => '2',
        3 => '3',
        4 => '4',
        5 => '5',
        6 => '6',
        7 => '7',
        8 => '8',
        _ => '9',
    }
}

/// Writes `n` in decimal.
pub fn fmt_u64(n: u64) -> (r: String)
    ensures
        r@ == dec_chars(n as nat),
    decreases n,
{
    if n < 10 {
        let mut s = String::new();
        push_char(&mut s, digit_char(n));
        assert(s@ =~= seq![spec_digit_char(n as int)]);
        s
    } else {
        let mut s = fmt_u64(n / 10);
        push_char(&mut s, digit_char(n % 10));
        s
    }
}

/// Writes `n` in decimal.
pub fn fmt_usize(n: usize) -> (r: String)
    ensures
        r@ == dec_chars(n as nat),
{
    fmt_u64(n as u64)
}

/// Writes `n` in decimal, with a minus sign when it is negative.
pub fn fmt_i64(n: i64) -> (r: String)
    ensures
        r@ == int_chars(n as int),
{
    if n < 0 {
        let mut s = String::from_str("-");
        let m: u64 = (-(n as i128)) as u64;
        assert(m as int == -(n as int));
        let digits = fmt_u64(m);
        s.append(digits.as_str());
        proof {
            reveal_strlit("-");
        }
        assert(s@ =~= int_chars(n as int));
        s
    } else {
        fmt_u64(n as u64)
    }
}

/// The first position at or past `i` whose character is not white space.
pub open spec fn ws_lo(s: Seq<char>, i: int) -> int
    decreases s.len() - i,
{
    if i < s.len() && (0 <= i && is_unicode_space(s[i])) {
        ws_lo(s, i + 1)
    } else {
        i
    }
}

/// The last position at or before `j` such that every character from there to
/// `j` is white space.
pub open spec fn ws_hi(s: Seq<char>, j: int) -> int
    decreases j,
{
    if 0 < j && j <= s.len() && is_unicode_space(s[j - 1]) {
        ws_hi(s, j - 1)
    } else {
        j
    }
}

/// `s` with leading and trailing white space removed.
pub open spec fn spec_trim(s: Seq<char>) -> Seq<char> {
    let lo = ws_lo(s, 0);
    if lo == s.len() {
        Seq::empty()
    } else {
        s.subrange(lo, ws_hi(s, s.len() as int))
    }
}

/// Removes leading and trailing white space from `s`.
pub fn trim_str(s: &str) -> (r: String)
    ensures
        r@ == spec_trim(s@),
{
    let cs = str_chars(s);
    let n = cs.len();
    let mut lo: usize = 0;
    while lo < n && is_space(cs[lo])
        invariant
            n == s@.len(),
            cs@ == s@,
            0 <= lo <= n,
            ws_lo(s@, 0) == ws_lo(s@, lo as int),
        decreases n - lo,
    {
        lo = lo + 1;
    }
    assert(ws_lo(s@, lo as int) == lo as int);
    if lo == n {
        let r = String::new();
        assert(r@ =~= spec_trim(s@));
        return r;
    }
    let mut hi: usize = n;
    while hi > lo + 1 && is_space(cs[hi - 1])
        invariant
            n == s@.len(),
            cs@ == s@,
            lo < n,
            !is_unicode_space(s@[lo as int]),
            lo + 1 <= hi <= n,
            ws_hi(s@, n as int) == ws_hi(s@, hi as int),
        decreases hi,
    {
        hi = hi - 1;
    }
    assert(ws_hi(s@, hi as int) == hi as int);
    let mut out: Vec<char> = Vec::new();
    let mut i: usize = lo;
    while i < hi
        invariant
            cs@ == s@,
            lo <= i <= hi <= n,
            n == s@.len(),
            out@ == s@.subrange(lo as int, i as int),
        decreases hi - i,
    {
        out.push(cs[i]);
        assert(s@.subrange(lo as int, i as int).push(s@[i as int]) =~= s@.subrange(
            lo as int,
            i + 1,
        ));
        i = i + 1;
    }
    let r = chars_to_string(&out);
    assert(r@ =~= spec_trim(s@));
    r
}

} // verus!
