//! Decoding the JSON answers of the GitHub client.
//!
//! An answer is an array of records: objects holding a `url` string member,
//! possibly among further members with any JSON values.  The decoder yields
//! the URL strings in order.  The grammar is stated as spec
//! functions over the character sequence, and the executable parser is proved
//! to return exactly what the grammar gives.

use vstd::prelude::*;
use vstd::string::*;
use crate::data::{Item, Items};
use crate::repo::url_views;
use crate::text::{char_from_u32, chars_to_string, str_chars};

verus! {

/// JSON white space: space, tab, line feed, carriage return.
pub open spec fn is_json_ws(c: char) -> bool {
    c == ' ' || c == '\t' || c == '\n' || c == '\r'
}

/// The first position at or past `i` that holds no JSON white space.
pub open spec fn spec_skip_ws(s: Seq<char>, i: int) -> int
    decreases s.len() - i,
{
    if 0 <= i < s.len() && is_json_ws(s[i]) {
        spec_skip_ws(s, i + 1)
    } else {
        i
    }
}

proof fn lemma_skip_ws_bounds(s: Seq<char>, i: int)
    requires
        0 <= i <= s.len(),
    ensures
        i <= spec_skip_ws(s, i) <= s.len(),
    decreases s.len() - i,
{
    if i < s.len() && is_json_ws(s[i]) {
        lemma_skip_ws_bounds(s, i + 1);
    }
}

/// The value of a hexadecimal digit, upper or lower case.
pub open spec fn hex_val(c: char) -> Option<int> {
    if '0' <= c && c <= '9' {
        Some(c as int - '0' as int)
    } else if 'a' <= c && c <= 'f' {
        Some(10 + c as int - 'a' as int)
    } else if 'A' <= c && c <= 'F' {
        Some(10 + c as int - 'A' as int)
    } else {
        None
    }
}

/// The value of the four hexadecimal digits at `i`.
pub open spec fn hex4(s: Seq<char>, i: int) -> Option<int> {
    if i < 0 || i + 4 > s.len() {
        None
    } else {
        match (hex_val(s[i]), hex_val(s[i + 1]), hex_val(s[i + 2]), hex_val(s[i + 3])) {
            (Some(a), Some(b), Some(c), Some(d)) => Some(4096 * a + 256 * b + 16 * c + d),
            _ => None,
        }
    }
}

/// The character written by a single-character escape, `\n` and the like.
pub open spec fn simple_escape(e: char) -> Option<char> {
    if e == '"' {
        Some('"')
    } else if e == '\\' {
        Some('\\')
    } else if e == '/' {
        Some('/')
    } else if e == 'b' {
        Some('\u{0008}')
    } else if e == 'f' {
        Some('\u{000C}')
    } else if e == 'n' {
        Some('\n')
    } else if e == 'r' {
        Some('\r')
    } else if e == 't' {
        Some('\t')
    } else {
        None
    }
}

/// The decoded body of a JSON string, read from `i` (just past the opening
/// quote): the position just past the closing quote and the decoded
/// characters, or `None` when the text is not a well-formed string body.
/// Escapes follow the JSON grammar, `\uXXXX` included, with a high surrogate
/// demanding a low surrogate escape right after it.
pub open spec fn spec_parse_str_body(s: Seq<char>, i: int) -> Option<(int, Seq<char>)>
    decreases s.len() - i,
{
    if i < 0 || i >= s.len() {
        None
    } else if s[i] == '"' {
        Some((i + 1, Seq::empty()))
    } else if s[i] == '\\' {
        if i + 1 >= s.len() {
            None
        } else if s[i + 1] == 'u' {
            match hex4(s, i + 2) {
                None => None,
                Some(v) => {
                    if v < 0xD800 || v >= 0xE000 {
                        match spec_parse_str_body(s, i + 6) {
                            None => None,
                            Some((j, t)) => Some((j, seq![((v as u32) as char)] + t)),
                        }
                    } else if v < 0xDC00 {
                        if i + 12 > s.len() || s[i + 6] != '\\' || s[i + 7] != 'u' {
                            None
                        } else {
                            match hex4(s, i + 8) {
                                None => None,
                                Some(w) => {
                                    if 0xDC00 <= w && w < 0xE000 {
                                        let code = 0x10000 + (v - 0xD800) * 0x400 + (w - 0xDC00);
                                        match spec_parse_str_body(s, i + 12) {
                                            None => None,
                                            Some((j, t)) => Some(
                                                (j, seq![((code as u32) as char)] + t),
                                            ),
                                        }
                                    } else {
                                        None
                                    }
                                },
                            }
                        }
                    } else {
                        None
                    }
                },
            }
        } else {
            match simple_escape(s[i + 1]) {
                None => None,
                Some(c) => match spec_parse_str_body(s, i + 2) {
                    None => None,
                    Some((j, t)) => Some((j, seq![c] + t)),
                },
            }
        }
    } else if s[i] >= ' ' {
        match spec_parse_str_body(s, i + 1) {
            None => None,
            Some((j, t)) => Some((j, seq![s[i]] + t)),
        }
    } else {
        None
    }
}

proof fn lemma_str_body_bounds(s: Seq<char>, i: int)
    ensures
        spec_parse_str_body(s, i) matches Some(p) ==> 0 <= i < p.0 <= s.len(),
    decreases s.len() - i,
{
    if 0 <= i < s.len() {
        lemma_str_body_bounds(s, i + 1);
        if i + 2 <= s.len() {
            lemma_str_body_bounds(s, i + 2);
        }
        if i + 6 <= s.len() {
            lemma_str_body_bounds(s, i + 6);
        }
        if i + 12 <= s.len() {
            lemma_str_body_bounds(s, i + 12);
        }
    }
}

/// A JSON string starting at `i`: an opening quote, a body, a closing quote.
pub open spec fn spec_parse_string(s: Seq<char>, i: int) -> Option<(int, Seq<char>)> {
    if 0 <= i < s.len() && s[i] == '"' {
        spec_parse_str_body(s, i + 1)
    } else {
        None
    }
}

proof fn lemma_string_bounds(s: Seq<char>, i: int)
    ensures
        spec_parse_string(s, i) matches Some(p) ==> 0 <= i < p.0 <= s.len(),
{
    lemma_str_body_bounds(s, i + 1);
}

/// A decimal digit.
pub open spec fn is_digit(c: char) -> bool {
    '0' <= c && c <= '9'
}

/// The first position at or past `i` that holds no decimal digit.
pub open spec fn digits_end(s: Seq<char>, i: int) -> int
    decreases s.len() - i,
{
    if 0 <= i < s.len() && is_digit(s[i]) {
        digits_end(s, i + 1)
    } else {
        i
    }
}

proof fn lemma_digits_end_bounds(s: Seq<char>, i: int)
    requires
        0 <= i <= s.len(),
    ensures
        i <= digits_end(s, i) <= s.len(),
    decreases s.len() - i,
{
    if i < s.len() && is_digit(s[i]) {
        lemma_digits_end_bounds(s, i + 1);
    }
}

/// The position just past the fraction part of a JSON number when one starts
/// at `b`, a bare `b` when none does, and `None` for a point without digits.
pub open spec fn spec_skip_fraction(s: Seq<char>, b: int) -> Option<int> {
    if 0 <= b < s.len() && s[b] == '.' {
        let d = digits_end(s, b + 1);
        if d == b + 1 {
            None
        } else {
            Some(d)
        }
    } else {
        Some(b)
    }
}

/// The position just past the exponent part of a JSON number when one starts
/// at `c`, a bare `c` when none does, and `None` for a marker without digits.
pub open spec fn spec_skip_exponent(s: Seq<char>, c: int) -> Option<int> {
    if 0 <= c < s.len() && (s[c] == 'e' || s[c] == 'E') {
        let e0 = if c + 1 < s.len() && (s[c + 1] == '+' || s[c + 1] == '-') {
            c + 2
        } else {
            c + 1
        };
        let e1 = digits_end(s, e0);
        if e1 == e0 {
            None
        } else {
            Some(e1)
        }
    } else {
        Some(c)
    }
}

/// The position just past the JSON number starting at `i`: an optional minus
/// sign, an integer part without a leading zero, and optional fraction and
/// exponent parts.
pub open spec fn spec_skip_number(s: Seq<char>, i: int) -> Option<int> {
    if i < 0 || i >= s.len() {
        None
    } else {
        let a = if s[i] == '-' {
            i + 1
        } else {
            i
        };
        if !(a < s.len() && is_digit(s[a])) {
            None
        } else {
            let b = if s[a] == '0' {
                a + 1
            } else {
                digits_end(s, a)
            };
            match spec_skip_fraction(s, b) {
                None => None,
                Some(c) => spec_skip_exponent(s, c),
            }
        }
    }
}

proof fn lemma_skip_number_bounds(s: Seq<char>, i: int)
    ensures
        spec_skip_number(s, i) matches Some(p) ==> 0 <= i < p <= s.len(),
{
    if 0 <= i < s.len() {
        let a = if s[i] == '-' {
            i + 1
        } else {
            i
        };
        if a < s.len() && is_digit(s[a]) {
            lemma_digits_end_bounds(s, a + 1);
            let b = if s[a] == '0' {
                a + 1
            } else {
                digits_end(s, a)
            };
            if 0 <= b < s.len() && s[b] == '.' {
                lemma_digits_end_bounds(s, b + 1);
            }
            match spec_skip_fraction(s, b) {
                None => {},
                Some(c) => {
                    if 0 <= c < s.len() && (s[c] == 'e' || s[c] == 'E') {
                        let e0 = if c + 1 < s.len() && (s[c + 1] == '+' || s[c + 1] == '-') {
                            c + 2
                        } else {
                            c + 1
                        };
                        lemma_digits_end_bounds(s, e0);
                    }
                },
            }
        }
    }
}

/// What the JSON value scanner expects next.
#[derive(Clone, Copy, PartialEq, Eq, Structural, Debug)]
pub enum ScanState {
    AtValue,
    AtValueOrClose,
    AtKeyOrClose,
    AtKey,
    AtColon,
    AtCommaOrClose,
}

/// The termination rank of a scanner state: reading a value where a close
/// would also do is the one step that stays in place.
pub open spec fn scan_rank(state: ScanState) -> int {
    if state is AtValueOrClose {
        1
    } else {
        0
    }
}

/// Walks one JSON value, character by character: `stack` holds the open
/// containers (`true` an object, `false` an array) and `state` what must come
/// next.  The result is the position just past the value — `Some` exactly
/// when the text at `i` begins with one well-formed JSON value.
pub open spec fn spec_scan_value(
    s: Seq<char>,
    i: int,
    stack: Seq<bool>,
    state: ScanState,
) -> Option<int>
    decreases s.len() - i, scan_rank(state),
    via spec_scan_value_dec
{
    if i < 0 || i >= s.len() {
        None
    } else if is_json_ws(s[i]) {
        spec_scan_value(s, i + 1, stack, state)
    } else {
        let c = s[i];
        match state {
            ScanState::AtValue => {
                if c == '"' {
                    match spec_parse_str_body(s, i + 1) {
                        None => None,
                        Some((j, t)) => if stack.len() == 0 {
                            Some(j)
                        } else {
                            spec_scan_value(s, j, stack, ScanState::AtCommaOrClose)
                        },
                    }
                } else if c == '{' {
                    spec_scan_value(s, i + 1, stack.push(true), ScanState::AtKeyOrClose)
                } else if c == '[' {
                    spec_scan_value(s, i + 1, stack.push(false), ScanState::AtValueOrClose)
                } else if c == 't' {
                    if i + 4 <= s.len() && s[i + 1] == 'r' && s[i + 2] == 'u' && s[i + 3] == 'e' {
                        if stack.len() == 0 {
                            Some(i + 4)
                        } else {
                            spec_scan_value(s, i + 4, stack, ScanState::AtCommaOrClose)
                        }
                    } else {
                        None
                    }
                } else if c == 'f' {
                    if i + 5 <= s.len() && s[i + 1] == 'a' && s[i + 2] == 'l' && s[i + 3] == 's'
                        && s[i + 4] == 'e' {
                        if stack.len() == 0 {
                            Some(i + 5)
                        } else {
                            spec_scan_value(s, i + 5, stack, ScanState::AtCommaOrClose)
                        }
                    } else {
                        None
                    }
                } else if c == 'n' {
                    if i + 4 <= s.len() && s[i + 1] == 'u' && s[i + 2] == 'l' && s[i + 3] == 'l' {
                        if stack.len() == 0 {
                            Some(i + 4)
                        } else {
                            spec_scan_value(s, i + 4, stack, ScanState::AtCommaOrClose)
                        }
                    } else {
                        None
                    }
                } else {
                    match spec_skip_number(s, i) {
                        None => None,
                        Some(j) => if stack.len() == 0 {
                            Some(j)
                        } else {
                            spec_scan_value(s, j, stack, ScanState::AtCommaOrClose)
                        },
                    }
                }
            },
            ScanState::AtValueOrClose => {
                if c == ']' && stack.len() > 0 && !stack.last() {
                    if stack.len() == 1 {
                        Some(i + 1)
                    } else {
                        spec_scan_value(s, i + 1, stack.drop_last(), ScanState::AtCommaOrClose)
                    }
                } else {
                    spec_scan_value(s, i, stack, ScanState::AtValue)
                }
            },
            ScanState::AtKeyOrClose => {
                if c == '}' && stack.len() > 0 && stack.last() {
                    if stack.len() == 1 {
                        Some(i + 1)
                    } else {
                        spec_scan_value(s, i + 1, stack.drop_last(), ScanState::AtCommaOrClose)
                    }
                } else if c == '"' {
                    match spec_parse_str_body(s, i + 1) {
                        None => None,
                        Some((j, t)) => spec_scan_value(s, j, stack, ScanState::AtColon),
                    }
                } else {
                    None
                }
            },
            ScanState::AtKey => {
                if c == '"' {
                    match spec_parse_str_body(s, i + 1) {
                        None => None,
                        Some((j, t)) => spec_scan_value(s, j, stack, ScanState::AtColon),
                    }
                } else {
                    None
                }
            },
            ScanState::AtColon => {
                if c == ':' {
                    spec_scan_value(s, i + 1, stack, ScanState::AtValue)
                } else {
                    None
                }
            },
            ScanState::AtCommaOrClose => {
                if stack.len() == 0 {
                    None
                } else if c == ',' {
                    spec_scan_value(
                        s,
                        i + 1,
                        stack,
                        if stack.last() {
                            ScanState::AtKey
                        } else {
                            ScanState::AtValue
                        },
                    )
                } else if (c == '}' && stack.last()) || (c == ']' && !stack.last()) {
                    if stack.len() == 1 {
                        Some(i + 1)
                    } else {
                        spec_scan_value(s, i + 1, stack.drop_last(), ScanState::AtCommaOrClose)
                    }
                } else {
                    None
                }
            },
        }
    }
}

#[via_fn]
proof fn spec_scan_value_dec(s: Seq<char>, i: int, stack: Seq<bool>, state: ScanState) {
    lemma_str_body_bounds(s, i + 1);
    lemma_skip_number_bounds(s, i);
}

/// The position just past the JSON value starting at `i`, or `None` when the
/// text there does not begin with a well-formed value.
pub open spec fn spec_skip_json_value(s: Seq<char>, i: int) -> Option<int> {
    spec_scan_value(s, i, Seq::empty(), ScanState::AtValue)
}

proof fn lemma_scan_value_bounds(s: Seq<char>, i: int, stack: Seq<bool>, state: ScanState)
    ensures
        spec_scan_value(s, i, stack, state) matches Some(p) ==> 0 <= i < p <= s.len(),
    decreases s.len() - i, scan_rank(state),
{
    if 0 <= i < s.len() {
        lemma_str_body_bounds(s, i + 1);
        lemma_skip_number_bounds(s, i);
        if is_json_ws(s[i]) {
            lemma_scan_value_bounds(s, i + 1, stack, state);
        } else {
            let c = s[i];
            match state {
                ScanState::AtValue => {
                    if c == '"' {
                        match spec_parse_str_body(s, i + 1) {
                            None => {},
                            Some((j, t)) => {
                                lemma_scan_value_bounds(s, j, stack, ScanState::AtCommaOrClose);
                            },
                        }
                    } else if c == '{' {
                        lemma_scan_value_bounds(s, i + 1, stack.push(true), ScanState::AtKeyOrClose);
                    } else if c == '[' {
                        lemma_scan_value_bounds(
                            s,
                            i + 1,
                            stack.push(false),
                            ScanState::AtValueOrClose,
                        );
                    } else if c == 't' || c == 'n' {
                        if i + 4 <= s.len() {
                            lemma_scan_value_bounds(s, i + 4, stack, ScanState::AtCommaOrClose);
                        }
                    } else if c == 'f' {
                        if i + 5 <= s.len() {
                            lemma_scan_value_bounds(s, i + 5, stack, ScanState::AtCommaOrClose);
                        }
                    } else {
                        match spec_skip_number(s, i) {
                            None => {},
                            Some(j) => {
                                lemma_scan_value_bounds(s, j, stack, ScanState::AtCommaOrClose);
                            },
                        }
                    }
                },
                ScanState::AtValueOrClose => {
                    if c == ']' && stack.len() > 0 && !stack.last() {
                        lemma_scan_value_bounds(
                            s,
                            i + 1,
                            stack.drop_last(),
                            ScanState::AtCommaOrClose,
                        );
                    } else {
                        lemma_scan_value_bounds(s, i, stack, ScanState::AtValue);
                    }
                },
                ScanState::AtKeyOrClose => {
                    if c == '}' && stack.len() > 0 && stack.last() {
                        lemma_scan_value_bounds(
                            s,
                            i + 1,
                            stack.drop_last(),
                            ScanState::AtCommaOrClose,
                        );
                    } else if c == '"' {
                        match spec_parse_str_body(s, i + 1) {
                            None => {},
                            Some((j, t)) => {
                                lemma_scan_value_bounds(s, j, stack, ScanState::AtColon);
                            },
                        }
                    }
                },
                ScanState::AtKey => {
                    if c == '"' {
                        match spec_parse_str_body(s, i + 1) {
                            None => {},
                            Some((j, t)) => {
                                lemma_scan_value_bounds(s, j, stack, ScanState::AtColon);
                            },
                        }
                    }
                },
                ScanState::AtColon => {
                    if c == ':' {
                        lemma_scan_value_bounds(s, i + 1, stack, ScanState::AtValue);
                    }
                },
                ScanState::AtCommaOrClose => {
                    if stack.len() > 0 {
                        if c == ',' {
                            lemma_scan_value_bounds(
                                s,
                                i + 1,
                                stack,
                                if stack.last() {
                                    ScanState::AtKey
                                } else {
                                    ScanState::AtValue
                                },
                            );
                        } else if (c == '}' && stack.last()) || (c == ']' && !stack.last()) {
                            lemma_scan_value_bounds(
                                s,
                                i + 1,
                                stack.drop_last(),
                                ScanState::AtCommaOrClose,
                            );
                        }
                    }
                },
            }
        }
    }
}

/// The members of a record, read with the cursor at a member's key.  Exactly
/// one member named `url` must hold a string, which becomes the record's URL;
/// every other member may pair any key with any JSON value.  `url` carries
/// the URL already seen, so a second `url` member refuses the record.
pub open spec fn spec_record_members(
    s: Seq<char>,
    i: int,
    url: Option<Seq<char>>,
) -> Option<(int, Seq<char>)>
    decreases s.len() - i,
    via spec_record_members_dec
{
    match spec_parse_string(s, i) {
        None => None,
        Some((k, key)) => {
            let l = spec_skip_ws(s, k);
            if !(l < s.len() && s[l] == ':') {
                None
            } else {
                let m = spec_skip_ws(s, l + 1);
                let stepped: Option<(Option<Seq<char>>, int)> = if key == "url"@ {
                    if url is Some {
                        None
                    } else {
                        match spec_parse_string(s, m) {
                            None => None,
                            Some((p, val)) => Some((Some(val), p)),
                        }
                    }
                } else {
                    match spec_skip_json_value(s, m) {
                        None => None,
                        Some(p) => Some((url, p)),
                    }
                };
                match stepped {
                    None => None,
                    Some((url2, p)) => {
                        let q = spec_skip_ws(s, p);
                        if q < s.len() && s[q] == '}' {
                            match url2 {
                                Some(v) => Some((q + 1, v)),
                                None => None,
                            }
                        } else if q < s.len() && s[q] == ',' {
                            spec_record_members(s, spec_skip_ws(s, q + 1), url2)
                        } else {
                            None
                        }
                    },
                }
            }
        },
    }
}

#[via_fn]
proof fn spec_record_members_dec(s: Seq<char>, i: int, url: Option<Seq<char>>) {
    lemma_string_bounds(s, i);
    match spec_parse_string(s, i) {
        None => {},
        Some((k, key)) => {
            lemma_skip_ws_bounds(s, k);
            let l = spec_skip_ws(s, k);
            if l < s.len() && s[l] == ':' {
                lemma_skip_ws_bounds(s, l + 1);
                let m = spec_skip_ws(s, l + 1);
                lemma_string_bounds(s, m);
                lemma_scan_value_bounds(s, m, Seq::empty(), ScanState::AtValue);
                let stepped: Option<(Option<Seq<char>>, int)> = if key == "url"@ {
                    if url is Some {
                        None
                    } else {
                        match spec_parse_string(s, m) {
                            None => None,
                            Some((p, val)) => Some((Some(val), p)),
                        }
                    }
                } else {
                    match spec_skip_json_value(s, m) {
                        None => None,
                        Some(p) => Some((url, p)),
                    }
                };
                match stepped {
                    None => {},
                    Some((url2, p)) => {
                        lemma_skip_ws_bounds(s, p);
                        let q = spec_skip_ws(s, p);
                        if q < s.len() && s[q] == ',' {
                            lemma_skip_ws_bounds(s, q + 1);
                        }
                    },
                }
            }
        },
    }
}

proof fn lemma_record_members_bounds(s: Seq<char>, i: int, url: Option<Seq<char>>)
    ensures
        spec_record_members(s, i, url) matches Some(p) ==> 0 <= i < p.0 <= s.len(),
    decreases s.len() - i,
{
    lemma_string_bounds(s, i);
    match spec_parse_string(s, i) {
        None => {},
        Some((k, key)) => {
            lemma_skip_ws_bounds(s, k);
            let l = spec_skip_ws(s, k);
            if l < s.len() && s[l] == ':' {
                lemma_skip_ws_bounds(s, l + 1);
                let m = spec_skip_ws(s, l + 1);
                lemma_string_bounds(s, m);
                lemma_scan_value_bounds(s, m, Seq::empty(), ScanState::AtValue);
                let stepped: Option<(Option<Seq<char>>, int)> = if key == "url"@ {
                    if url is Some {
                        None
                    } else {
                        match spec_parse_string(s, m) {
                            None => None,
                            Some((p, val)) => Some((Some(val), p)),
                        }
                    }
                } else {
                    match spec_skip_json_value(s, m) {
                        None => None,
                        Some(p) => Some((url, p)),
                    }
                };
                match stepped {
                    None => {},
                    Some((url2, p)) => {
                        lemma_skip_ws_bounds(s, p);
                        let q = spec_skip_ws(s, p);
                        if q < s.len() && s[q] == ',' {
                            lemma_skip_ws_bounds(s, q + 1);
                            lemma_record_members_bounds(s, spec_skip_ws(s, q + 1), url2);
                        }
                    },
                }
            }
        },
    }
}

/// One record starting at `i`: an object holding exactly one `url` member
/// whose value is a string — possibly among further members with any JSON
/// values — up to the position just past the closing brace, together with the
/// decoded URL.  An object without a `url` member, or with two, is no record.
pub open spec fn spec_parse_record(s: Seq<char>, i: int) -> Option<(int, Seq<char>)> {
    if !(0 <= i < s.len() && s[i] == '{') {
        None
    } else {
        spec_record_members(s, spec_skip_ws(s, i + 1), None)
    }
}

proof fn lemma_record_bounds(s: Seq<char>, i: int)
    ensures
        spec_parse_record(s, i) matches Some(p) ==> 0 <= i < p.0 <= s.len(),
{
    if 0 <= i < s.len() && s[i] == '{' {
        lemma_skip_ws_bounds(s, i + 1);
        lemma_record_members_bounds(s, spec_skip_ws(s, i + 1), None);
    }
}

/// The records of an array read from the first record at `i` up to and past
/// the closing bracket: the position just past the bracket and the URLs in
/// order.
pub open spec fn spec_parse_items(s: Seq<char>, i: int) -> Option<(int, Seq<Seq<char>>)>
    decreases s.len() - i,
    via spec_parse_items_dec
{
    match spec_parse_record(s, i) {
        None => None,
        Some((j, u)) => {
            let k = spec_skip_ws(s, j);
            if k < s.len() && s[k] == ']' {
                Some((k + 1, seq![u]))
            } else if k < s.len() && s[k] == ',' {
                let m = spec_skip_ws(s, k + 1);
                match spec_parse_items(s, m) {
                    None => None,
                    Some((e, rest)) => Some((e, seq![u] + rest)),
                }
            } else {
                None
            }
        },
    }
}

#[via_fn]
proof fn spec_parse_items_dec(s: Seq<char>, i: int) {
    lemma_record_bounds(s, i);
    match spec_parse_record(s, i) {
        None => {},
        Some((j, u)) => {
            lemma_skip_ws_bounds(s, j);
            let k = spec_skip_ws(s, j);
            if k < s.len() && s[k] == ',' {
                lemma_skip_ws_bounds(s, k + 1);
            }
        },
    }
}

/// The URL list of a whole JSON answer: white space, an array of records
/// (possibly empty), white space, end of text — or `None` for anything else.
pub open spec fn spec_url_list(s: Seq<char>) -> Option<Seq<Seq<char>>> {
    let i = spec_skip_ws(s, 0);
    if !(i < s.len() && s[i] == '[') {
        None
    } else {
        let j = spec_skip_ws(s, i + 1);
        if j < s.len() && s[j] == ']' {
            if spec_skip_ws(s, j + 1) == s.len() {
                Some(Seq::empty())
            } else {
                None
            }
        } else {
            match spec_parse_items(s, j) {
                None => None,
                Some((e, urls)) => {
                    if spec_skip_ws(s, e) == s.len() {
                        Some(urls)
                    } else {
                        None
                    }
                },
            }
        }
    }
}

fn skip_ws(cs: &Vec<char>, i: usize) -> (r: usize)
    requires
        i <= cs@.len(),
    ensures
        r as int == spec_skip_ws(cs@, i as int),
        i <= r <= cs@.len(),
{
    let n = cs.len();
    let mut k = i;
    while k < n && (cs[k] == ' ' || cs[k] == '\t' || cs[k] == '\n' || cs[k] == '\r')
        invariant
            n == cs@.len(),
            i <= k <= n,
            spec_skip_ws(cs@, i as int) == spec_skip_ws(cs@, k as int),
        decreases n - k,
    {
        k = k + 1;
    }
    k
}

fn hex_digit(c: char) -> (r: Option<u32>)
    ensures
        (r is Some) == (hex_val(c) is Some),
        r matches Some(v) ==> hex_val(c) == Some(v as int) && v < 16,
{
    if '0' <= c && c <= '9' {
        Some(c as u32 - '0' as u32)
    } else if 'a' <= c && c <= 'f' {
        Some(10 + (c as u32 - 'a' as u32))
    } else if 'A' <= c && c <= 'F' {
        Some(10 + (c as u32 - 'A' as u32))
    } else {
        None
    }
}

fn parse_hex4(cs: &Vec<char>, i: usize) -> (r: Option<u32>)
    requires
        i <= cs@.len(),
    ensures
        (r is Some) == (hex4(cs@, i as int) is Some),
        r matches Some(v) ==> hex4(cs@, i as int) == Some(v as int) && v < 0x10000,
{
    if cs.len() - i < 4 {
        return None;
    }
    let a = hex_digit(cs[i]);
    let b = hex_digit(cs[i + 1]);
    let c = hex_digit(cs[i + 2]);
    let d = hex_digit(cs[i + 3]);
    match (a, b, c, d) {
        (Some(a), Some(b), Some(c), Some(d)) => Some(4096 * a + 256 * b + 16 * c + d),
        _ => None,
    }
}

fn parse_str_body(cs: &Vec<char>, i: usize) -> (r: Option<(usize, Vec<char>)>)
    requires
        i <= cs@.len(),
    ensures
        (r is Some) == (spec_parse_str_body(cs@, i as int) is Some),
        r matches Some(p) ==> spec_parse_str_body(cs@, i as int) == Some((p.0 as int, p.1@)) && i
            < p.0 <= cs@.len(),
    decreases cs@.len() - i,
{
    if i >= cs.len() {
        return None;
    }
    let c = cs[i];
    if c == '"' {
        let v: Vec<char> = Vec::new();
        assert(v@ =~= Seq::<char>::empty());
        return Some((i + 1, v));
    }
    if c == '\\' {
        if i + 1 >= cs.len() {
            return None;
        }
        let e = cs[i + 1];
        if e == 'u' {
            match parse_hex4(cs, i + 2) {
                None => None,
                Some(v) => {
                    if v < 0xD800 || v >= 0xE000 {
                        let decoded = match char_from_u32(v) {
                            Some(d) => d,
                            None => {
                                proof {
                                    assert(false);
                                }
                                ' '
                            },
                        };
                        match parse_str_body(cs, i + 6) {
                            None => None,
                            Some((j, mut t)) => {
                                let ghost told = t@;
                                t.insert(0, decoded);
                                assert(t@ =~= seq![decoded] + told);
                                Some((j, t))
                            },
                        }
                    } else if v < 0xDC00 {
                        if cs.len() - i < 12 || cs[i + 6] != '\\' || cs[i + 7] != 'u' {
                            return None;
                        }
                        match parse_hex4(cs, i + 8) {
                            None => None,
                            Some(w) => {
                                if 0xDC00 <= w && w < 0xE000 {
                                    let code: u32 = 0x10000 + (v - 0xD800) * 0x400 + (w - 0xDC00);
                                    let decoded = match char_from_u32(code) {
                                        Some(d) => d,
                                        None => {
                                            proof {
                                                assert(false);
                                            }
                                            ' '
                                        },
                                    };
                                    match parse_str_body(cs, i + 12) {
                                        None => None,
                                        Some((j, mut t)) => {
                                            let ghost told = t@;
                                            t.insert(0, decoded);
                                            assert(t@ =~= seq![decoded] + told);
                                            Some((j, t))
                                        },
                                    }
                                } else {
                                    None
                                }
                            },
                        }
                    } else {
                        None
                    }
                },
            }
        } else {
            let decoded_opt: Option<char> = if e == '"' {
                Some('"')
            } else if e == '\\' {
                Some('\\')
            } else if e == '/' {
                Some('/')
            } else if e == 'b' {
                Some('\u{0008}')
            } else if e == 'f' {
                Some('\u{000C}')
            } else if e == 'n' {
                Some('\n')
            } else if e == 'r' {
                Some('\r')
            } else if e == 't' {
                Some('\t')
            } else {
                None
            };
            assert(decoded_opt == simple_escape(e));
            match decoded_opt {
                None => None,
                Some(decoded) => match parse_str_body(cs, i + 2) {
                    None => None,
                    Some((j, mut t)) => {
                        let ghost told = t@;
                        t.insert(0, decoded);
                        assert(t@ =~= seq![decoded] + told);
                        Some((j, t))
                    },
                },
            }
        }
    } else if c >= ' ' {
        match parse_str_body(cs, i + 1) {
            None => None,
            Some((j, mut t)) => {
                let ghost told = t@;
                t.insert(0, c);
                assert(t@ =~= seq![c] + told);
                Some((j, t))
            },
        }
    } else {
        None
    }
}

fn parse_string(cs: &Vec<char>, i: usize) -> (r: Option<(usize, Vec<char>)>)
    requires
        i <= cs@.len(),
    ensures
        (r is Some) == (spec_parse_string(cs@, i as int) is Some),
        r matches Some(p) ==> spec_parse_string(cs@, i as int) == Some((p.0 as int, p.1@)) && i
            < p.0 <= cs@.len(),
{
    if i < cs.len() && cs[i] == '"' {
        parse_str_body(cs, i + 1)
    } else {
        None
    }
}

fn is_digit_char(c: char) -> (r: bool)
    ensures
        r == is_digit(c),
{
    '0' <= c && c <= '9'
}

fn digits_end_from(cs: &Vec<char>, i: usize) -> (r: usize)
    requires
        i <= cs@.len(),
    ensures
        r as int == digits_end(cs@, i as int),
        i <= r <= cs@.len(),
{
    let n = cs.len();
    let mut k = i;
    while k < n && is_digit_char(cs[k])
        invariant
            n == cs@.len(),
            i <= k <= n,
            digits_end(cs@, i as int) == digits_end(cs@, k as int),
        decreases n - k,
    {
        k = k + 1;
    }
    k
}

fn skip_number(cs: &Vec<char>, i: usize) -> (r: Option<usize>)
    requires
        i <= cs@.len(),
    ensures
        (r is Some) == (spec_skip_number(cs@, i as int) is Some),
        r matches Some(p) ==> spec_skip_number(cs@, i as int) == Some(p as int) && i < p
            <= cs@.len(),
{
    if i >= cs.len() {
        return None;
    }
    let a = if cs[i] == '-' {
        i + 1
    } else {
        i
    };
    if !(a < cs.len() && is_digit_char(cs[a])) {
        return None;
    }
    let b = if cs[a] == '0' {
        a + 1
    } else {
        digits_end_from(cs, a)
    };
    proof {
        lemma_digits_end_bounds(cs@, a + 1);
    }
    let c_end = if b < cs.len() && cs[b] == '.' {
        let d = digits_end_from(cs, b + 1);
        if d == b + 1 {
            return None;
        }
        d
    } else {
        b
    };
    let p = if c_end < cs.len() && (cs[c_end] == 'e' || cs[c_end] == 'E') {
        let e0 = if c_end + 1 < cs.len() && (cs[c_end + 1] == '+' || cs[c_end + 1] == '-') {
            c_end + 2
        } else {
            c_end + 1
        };
        let e1 = digits_end_from(cs, e0);
        if e1 == e0 {
            return None;
        }
        e1
    } else {
        c_end
    };
    Some(p)
}

fn scan_value(cs: &Vec<char>, start: usize) -> (r: Option<usize>)
    requires
        start <= cs@.len(),
    ensures
        (r is Some) == (spec_skip_json_value(cs@, start as int) is Some),
        r matches Some(p) ==> spec_skip_json_value(cs@, start as int) == Some(p as int) && start
            < p <= cs@.len(),
    decreases cs@.len() - start,
{
    let mut i = start;
    let mut stack: Vec<bool> = Vec::new();
    let mut state = ScanState::AtValue;
    proof {
        assert(stack@ =~= Seq::<bool>::empty());
    }
    loop
        invariant
            start <= i <= cs@.len(),
            spec_skip_json_value(cs@, start as int) == spec_scan_value(
                cs@,
                i as int,
                stack@,
                state,
            ),
        decreases cs@.len() - i, scan_rank(state),
    {
        if i >= cs.len() {
            return None;
        }
        let c = cs[i];
        if c == ' ' || c == '\t' || c == '\n' || c == '\r' {
            i = i + 1;
        } else {
            match state {
                ScanState::AtValue => {
                    if c == '"' {
                        match parse_str_body(cs, i + 1) {
                            None => {
                                return None;
                            },
                            Some((j, _t)) => {
                                if stack.len() == 0 {
                                    return Some(j);
                                }
                                i = j;
                                state = ScanState::AtCommaOrClose;
                            },
                        }
                    } else if c == '{' {
                        stack.push(true);
                        state = ScanState::AtKeyOrClose;
                        i = i + 1;
                    } else if c == '[' {
                        stack.push(false);
                        state = ScanState::AtValueOrClose;
                        i = i + 1;
                    } else if c == 't' {
                        if cs.len() - i >= 4 && cs[i + 1] == 'r' && cs[i + 2] == 'u' && cs[i + 3]
                            == 'e' {
                            if stack.len() == 0 {
                                return Some(i + 4);
                            }
                            i = i + 4;
                            state = ScanState::AtCommaOrClose;
                        } else {
                            return None;
                        }
                    } else if c == 'f' {
                        if cs.len() - i >= 5 && cs[i + 1] == 'a' && cs[i + 2] == 'l' && cs[i + 3]
                            == 's' && cs[i + 4] == 'e' {
                            if stack.len() == 0 {
                                return Some(i + 5);
                            }
                            i = i + 5;
                            state = ScanState::AtCommaOrClose;
                        } else {
                            return None;
                        }
                    } else if c == 'n' {
                        if cs.len() - i >= 4 && cs[i + 1] == 'u' && cs[i + 2] == 'l' && cs[i + 3]
                            == 'l' {
                            if stack.len() == 0 {
                                return Some(i + 4);
                            }
                            i = i + 4;
                            state = ScanState::AtCommaOrClose;
                        } else {
                            return None;
                        }
                    } else {
                        match skip_number(cs, i) {
                            None => {
                                return None;
                            },
                            Some(j) => {
                                if stack.len() == 0 {
                                    return Some(j);
                                }
                                i = j;
                                state = ScanState::AtCommaOrClose;
                            },
                        }
                    }
                },
                ScanState::AtValueOrClose => {
                    if c == ']' && stack.len() > 0 && !stack[stack.len() - 1] {
                        let ghost old_stack = stack@;
                        let _popped = stack.pop();
                        proof {
                            assert(stack@ =~= old_stack.drop_last());
                        }
                        if stack.len() == 0 {
                            return Some(i + 1);
                        }
                        state = ScanState::AtCommaOrClose;
                        i = i + 1;
                    } else {
                        state = ScanState::AtValue;
                    }
                },
                ScanState::AtKeyOrClose => {
                    if c == '}' && stack.len() > 0 && stack[stack.len() - 1] {
                        let ghost old_stack = stack@;
                        let _popped = stack.pop();
                        proof {
                            assert(stack@ =~= old_stack.drop_last());
                        }
                        if stack.len() == 0 {
                            return Some(i + 1);
                        }
                        state = ScanState::AtCommaOrClose;
                        i = i + 1;
                    } else if c == '"' {
                        match parse_str_body(cs, i + 1) {
                            None => {
                                return None;
                            },
                            Some((j, _t)) => {
                                i = j;
                                state = ScanState::AtColon;
                            },
                        }
                    } else {
                        return None;
                    }
                },
                ScanState::AtKey => {
                    if c == '"' {
                        match parse_str_body(cs, i + 1) {
                            None => {
                                return None;
                            },
                            Some((j, _t)) => {
                                i = j;
                                state = ScanState::AtColon;
                            },
                        }
                    } else {
                        return None;
                    }
                },
                ScanState::AtColon => {
                    if c == ':' {
                        i = i + 1;
                        state = ScanState::AtValue;
                    } else {
                        return None;
                    }
                },
                ScanState::AtCommaOrClose => {
                    if stack.len() == 0 {
                        return None;
                    }
                    let top = stack[stack.len() - 1];
                    if c == ',' {
                        state = if top {
                            ScanState::AtKey
                        } else {
                            ScanState::AtValue
                        };
                        i = i + 1;
                    } else if (c == '}' && top) || (c == ']' && !top) {
                        let ghost old_stack = stack@;
                        let _popped = stack.pop();
                        proof {
                            assert(stack@ =~= old_stack.drop_last());
                        }
                        if stack.len() == 0 {
                            return Some(i + 1);
                        }
                        state = ScanState::AtCommaOrClose;
                        i = i + 1;
                    } else {
                        return None;
                    }
                },
            }
        }
    }
}

spec fn view_opt_chars(o: Option<Vec<char>>) -> Option<Seq<char>> {
    match o {
        Some(v) => Some(v@),
        None => None,
    }
}

fn parse_record(cs: &Vec<char>, i: usize) -> (r: Option<(usize, Vec<char>)>)
    requires
        i <= cs@.len(),
    ensures
        (r is Some) == (spec_parse_record(cs@, i as int) is Some),
        r matches Some(p) ==> spec_parse_record(cs@, i as int) == Some((p.0 as int, p.1@)) && i
            < p.0 <= cs@.len(),
{
    if !(i < cs.len() && cs[i] == '{') {
        return None;
    }
    let mut pos = skip_ws(cs, i + 1);
    let mut url: Option<Vec<char>> = None;
    loop
        invariant
            i < cs@.len(),
            cs@[i as int] == '{',
            i < pos <= cs@.len(),
            spec_parse_record(cs@, i as int) == spec_record_members(
                cs@,
                pos as int,
                view_opt_chars(url),
            ),
        decreases cs@.len() - pos,
    {
        match parse_string(cs, pos) {
            None => {
                return None;
            },
            Some((k, key)) => {
                let l = skip_ws(cs, k);
                if !(l < cs.len() && cs[l] == ':') {
                    return None;
                }
                let m = skip_ws(cs, l + 1);
                let key_is_url = key.len() == 3 && key[0] == 'u' && key[1] == 'r' && key[2] == 'l';
                proof {
                    reveal_strlit("url");
                    if key_is_url {
                        assert(key@ =~= "url"@);
                    } else {
                        assert(key@ != "url"@);
                    }
                }
                let p: usize;
                if key_is_url {
                    if url.is_some() {
                        return None;
                    }
                    match parse_string(cs, m) {
                        None => {
                            return None;
                        },
                        Some((p2, val)) => {
                            url = Some(val);
                            p = p2;
                        },
                    }
                } else {
                    match scan_value(cs, m) {
                        None => {
                            return None;
                        },
                        Some(p2) => {
                            p = p2;
                        },
                    }
                }
                let q = skip_ws(cs, p);
                if q < cs.len() && cs[q] == '}' {
                    match url {
                        Some(v) => {
                            return Some((q + 1, v));
                        },
                        None => {
                            return None;
                        },
                    }
                } else if q < cs.len() && cs[q] == ',' {
                    pos = skip_ws(cs, q + 1);
                } else {
                    return None;
                }
            },
        }
    }
}

fn parse_items(cs: &Vec<char>, i: usize) -> (r: Option<(usize, Vec<String>)>)
    requires
        i <= cs@.len(),
    ensures
        (r is Some) == (spec_parse_items(cs@, i as int) is Some),
        r matches Some(p) ==> spec_parse_items(cs@, i as int) matches Some(q) && p.0 as int == q.0
            && url_views(p.1@) == q.1 && i < p.0 <= cs@.len(),
    decreases cs@.len() - i,
{
    match parse_record(cs, i) {
        None => None,
        Some((j, u)) => {
            let k = skip_ws(cs, j);
            if k < cs.len() && cs[k] == ']' {
                let s = chars_to_string(&u);
                let mut v: Vec<String> = Vec::new();
                v.push(s);
                proof {
                    assert(url_views(v@) =~= seq![u@]);
                }
                Some((k + 1, v))
            } else if k < cs.len() && cs[k] == ',' {
                let m = skip_ws(cs, k + 1);
                match parse_items(cs, m) {
                    None => None,
                    Some((e, mut rest)) => {
                        let ghost rold = rest@;
                        let s = chars_to_string(&u);
                        rest.insert(0, s);
                        proof {
                            assert(url_views(rest@) =~= seq![u@] + url_views(rold));
                        }
                        Some((e, rest))
                    },
                }
            } else {
                None
            }
        },
    }
}

/// The message of a failed decode.
pub open spec fn parse_error_text() -> Seq<char> {
    "Failed to parse JSON: expected an array of url records"@
}

/// Decodes a whole JSON answer into its items.  The call returns `Ok` exactly
/// when the text is a well-formed array of `url` records, with the URLs in
/// their original order; any other text gives `Err` with the parse-error
/// message.
pub fn parse_url_items(raw: &str) -> (r: Result<Items, String>)
    ensures
        (r is Ok) == (spec_url_list(raw@) is Some),
        r matches Ok(items) ==> spec_url_list(raw@) matches Some(us) && items.0@.len() == us.len()
            && forall|i: int| 0 <= i < us.len() ==> #[trigger] items.0@[i].url@ == us[i],
        r matches Err(e) ==> e@ == parse_error_text(),
{
    let cs = str_chars(raw);
    let urls_opt = parse_url_vec(&cs);
    proof {
        assert(cs@ == raw@);
    }
    match urls_opt {
        None => Err(String::from_str(
            "Failed to parse JSON: expected an array of url records",
        )),
        Some(urls) => {
            let n = urls.len();
            let mut items: Vec<Item> = Vec::new();
            let mut i: usize = 0;
            while i < n
                invariant
                    n == urls@.len(),
                    i <= n,
                    items@.len() == i,
                    forall|j: int| 0 <= j < i ==> #[trigger] items@[j].url@ == urls@[j]@,
                decreases n - i,
            {
                let u = urls[i].clone();
                items.push(Item { url: u });
                i = i + 1;
            }
            Ok(Items(items))
        },
    }
}

fn parse_url_vec(cs: &Vec<char>) -> (r: Option<Vec<String>>)
    ensures
        (r is Some) == (spec_url_list(cs@) is Some),
        r matches Some(v) ==> spec_url_list(cs@) == Some(url_views(v@)),
{
    let i = skip_ws(cs, 0);
    if !(i < cs.len() && cs[i] == '[') {
        return None;
    }
    let j = skip_ws(cs, i + 1);
    if j < cs.len() && cs[j] == ']' {
        let e = skip_ws(cs, j + 1);
        if e == cs.len() {
            let v: Vec<String> = Vec::new();
            proof {
                assert(url_views(v@) =~= Seq::<Seq<char>>::empty());
            }
            Some(v)
        } else {
            None
        }
    } else {
        match parse_items(cs, j) {
            None => None,
            Some((e, urls)) => {
                let f = skip_ws(cs, e);
                if f == cs.len() {
                    Some(urls)
                } else {
                    None
                }
            },
        }
    }
}

} // verus!
