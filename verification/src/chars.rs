use vstd::prelude::*;

verus! {

/// The code point that stands for "end of input" when the tokenizer looks past the end.
/// Preprocessing replaces every NUL of the input, so it cannot be confused with one.
pub const EOF_CHAR: char = '\0';

/// The replacement character, U+FFFD.
pub const REPLACEMENT_CHAR: char = '\u{FFFD}';

/// The code point at index `i`, or `EOF_CHAR` past either end.
pub open spec fn cp(s: Seq<char>, i: int) -> char {
    if 0 <= i < s.len() {
        s[i]
    } else {
        EOF_CHAR
    }
}

/// The code point at index `i + k` of `s`, or `EOF_CHAR` past the end.
pub fn char_at(s: &Vec<char>, i: usize, k: usize) -> (c: char)
    ensures
        c == cp(s@, i + k),
{
    if i < s.len() && k < s.len() - i {
        s[i + k]
    } else {
        EOF_CHAR
    }
}

#[verifier::allow_in_spec]
pub fn is_digit(c: char) -> bool
    returns
        '0' <= c && c <= '9',
{
    '0' <= c && c <= '9'
}

#[verifier::allow_in_spec]
pub fn is_hex_digit(c: char) -> bool
    returns
        ('0' <= c && c <= '9') || ('a' <= c && c <= 'f') || ('A' <= c && c <= 'F'),
{
    ('0' <= c && c <= '9') || ('a' <= c && c <= 'f') || ('A' <= c && c <= 'F')
}

/// The value of a hexadecimal digit.
pub open spec fn hex_digit_value(c: char) -> int {
    if '0' <= c && c <= '9' {
        c as int - '0' as int
    } else if 'a' <= c && c <= 'f' {
        c as int - 'a' as int + 10
    } else {
        c as int - 'A' as int + 10
    }
}

pub fn hex_value(c: char) -> (v: u32)
    requires
        is_hex_digit(c),
    ensures
        v == hex_digit_value(c),
        v < 16,
{
    if '0' <= c && c <= '9' {
        (c as u32) - ('0' as u32)
    } else if 'a' <= c && c <= 'f' {
        (c as u32) - ('a' as u32) + 10
    } else {
        (c as u32) - ('A' as u32) + 10
    }
}

#[verifier::allow_in_spec]
pub fn is_letter(c: char) -> bool
    returns
        ('a' <= c && c <= 'z') || ('A' <= c && c <= 'Z'),
{
    ('a' <= c && c <= 'z') || ('A' <= c && c <= 'Z')
}

#[verifier::allow_in_spec]
pub fn is_non_ascii(c: char) -> bool
    returns
        c >= '\u{80}',
{
    c >= '\u{80}'
}

/// An ident-start code point: a letter, a non-ASCII code point or `_`.
#[verifier::allow_in_spec]
pub fn is_ident_start(c: char) -> bool
    returns
        is_letter(c) || is_non_ascii(c) || c == '_',
{
    is_letter(c) || is_non_ascii(c) || c == '_'
}

/// An ident code point: an ident-start code point, a digit or `-`.
#[verifier::allow_in_spec]
pub fn is_ident_char(c: char) -> bool
    returns
        is_ident_start(c) || is_digit(c) || c == '-',
{
    is_ident_start(c) || is_digit(c) || c == '-'
}

#[verifier::allow_in_spec]
pub fn is_non_printable(c: char) -> bool
    returns
        c <= '\u{8}' || c == '\u{B}' || ('\u{E}' <= c && c <= '\u{1F}') || c == '\u{7F}',
{
    c <= '\u{8}' || c == '\u{B}' || ('\u{E}' <= c && c <= '\u{1F}') || c == '\u{7F}'
}

#[verifier::allow_in_spec]
pub fn is_whitespace(c: char) -> bool
    returns
        c == '\n' || c == '\t' || c == ' ',
{
    c == '\n' || c == '\t' || c == ' '
}

/// Whether two code points are a valid escape.
#[verifier::allow_in_spec]
pub fn valid_escape(c1: char, c2: char) -> bool
    returns
        c1 == '\\' && c2 != '\n',
{
    c1 == '\\' && c2 != '\n'
}

/// Whether three code points would start an ident sequence.
#[verifier::allow_in_spec]
pub fn starts_ident(c1: char, c2: char, c3: char) -> bool
    returns
        if c1 == '-' {
            is_ident_start(c2) || c2 == '-' || valid_escape(c2, c3)
        } else if is_ident_start(c1) {
            true
        } else if c1 == '\\' {
            valid_escape(c1, c2)
        } else {
            false
        },
{
    if c1 == '-' {
        is_ident_start(c2) || c2 == '-' || valid_escape(c2, c3)
    } else if is_ident_start(c1) {
        true
    } else if c1 == '\\' {
        valid_escape(c1, c2)
    } else {
        false
    }
}

/// Whether three code points would start a number.
#[verifier::allow_in_spec]
pub fn starts_number(c1: char, c2: char, c3: char) -> bool
    returns
        if c1 == '+' || c1 == '-' {
            is_digit(c2) || (c2 == '.' && is_digit(c3))
        } else if c1 == '.' {
            is_digit(c2)
        } else {
            is_digit(c1)
        },
{
    if c1 == '+' || c1 == '-' {
        is_digit(c2) || (c2 == '.' && is_digit(c3))
    } else if c1 == '.' {
        is_digit(c2)
    } else {
        is_digit(c1)
    }
}

/// Whether `c` matches the lower-case ASCII letter or other code point `l`,
/// ignoring ASCII case.
#[verifier::allow_in_spec]
pub fn ascii_ci_char_eq(c: char, l: char) -> bool
    returns
        c == l || ('a' <= l && l <= 'z' && (c as u32) + 32 == (l as u32)),
{
    c == l || ('a' <= l && l <= 'z' && (c as u32) + 32 == (l as u32))
}

/// Whether `s` is an ASCII case-insensitive match for `lower`, a string of
/// lower-case letters.
pub open spec fn ascii_ci_eq(s: Seq<char>, lower: Seq<char>) -> bool {
    s.len() == lower.len() && forall|i: int| 0 <= i < s.len() ==> ascii_ci_char_eq(#[trigger] s[i], lower[i])
}

pub fn ascii_ci_eq_string(s: &String, lower: &[char]) -> (r: bool)
    ensures
        r == ascii_ci_eq(s@, lower@),
{
    let t = s.as_str();
    let n = t.unicode_len();
    if n != lower.len() {
        return false;
    }
    let mut i: usize = 0;
    while i < n
        invariant
            t@ == s@,
            n == s@.len(),
            s@.len() == lower@.len(),
            i <= n,
            forall|k: int| 0 <= k < i ==> ascii_ci_char_eq(#[trigger] s@[k], lower@[k]),
        decreases n - i,
    {
        if !ascii_ci_char_eq(t.get_char(i), lower[i]) {
            return false;
        }
        i = i + 1;
    }
    true
}

} // verus!
