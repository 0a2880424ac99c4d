use vstd::prelude::*;

use crate::chars::{
    ascii_ci_eq, cp, hex_digit_value, is_digit, is_hex_digit, is_ident_char, is_ident_start,
    is_non_printable, is_whitespace, starts_ident, starts_number, valid_escape, REPLACEMENT_CHAR,
};
use crate::token::{CssToken, SpecToken, Token};

verus! {

// ---------------------------------------------------------------------------
// The model of tokenization. Each `spec fn` below consumes code points of `s`
// starting at index `i` and returns what it read together with the index of
// the first code point it did not consume.
// ---------------------------------------------------------------------------

/// Filter code points: every CR LF pair, CR and FF becomes one LF, and every NUL
/// becomes U+FFFD.
pub open spec fn preprocess(s: Seq<char>) -> Seq<char>
    decreases s.len(),
{
    if s.len() == 0 {
        Seq::empty()
    } else if s[0] == '\r' && s.len() >= 2 && s[1] == '\n' {
        seq!['\n'] + preprocess(s.subrange(2, s.len() as int))
    } else if s[0] == '\r' || s[0] == '\u{C}' {
        seq!['\n'] + preprocess(s.subrange(1, s.len() as int))
    } else if s[0] == '\0' {
        seq![REPLACEMENT_CHAR] + preprocess(s.subrange(1, s.len() as int))
    } else {
        seq![s[0]] + preprocess(s.subrange(1, s.len() as int))
    }
}

/// The index after the run of whitespace that starts at `i`.
pub open spec fn ws_end(s: Seq<char>, i: int) -> int
    decreases s.len() - i,
{
    if 0 <= i < s.len() && is_whitespace(s[i]) {
        ws_end(s, i + 1)
    } else {
        i
    }
}

/// The index after the run of digits that starts at `i`.
pub open spec fn digits_end(s: Seq<char>, i: int) -> int
    decreases s.len() - i,
{
    if 0 <= i < s.len() && is_digit(s[i]) {
        digits_end(s, i + 1)
    } else {
        i
    }
}

/// Consume comments: the index after every comment that starts at `i`.
pub open spec fn skip_comments(s: Seq<char>, i: int) -> int
    decreases s.len() - i, 0int,
{
    if 0 <= i && i + 1 < s.len() && s[i] == '/' && s[i + 1] == '*' {
        comment_body(s, i + 2)
    } else {
        i
    }
}

/// Whether a comment starts at `i`.
pub open spec fn starts_comment(s: Seq<char>, i: int) -> bool {
    0 <= i && i + 1 < s.len() && s[i] == '/' && s[i + 1] == '*'
}

/// The rest of a comment whose `/*` ends before `i`.
pub open spec fn comment_body(s: Seq<char>, i: int) -> int
    decreases s.len() - i, 1int,
{
    if i < 0 || i >= s.len() {
        s.len() as int
    } else if s[i] == '*' && i + 1 < s.len() && s[i + 1] == '/' {
        skip_comments(s, i + 2)
    } else {
        comment_body(s, i + 1)
    }
}

/// The index after at most `k` hex digits that start at `i`.
pub open spec fn hex_end(s: Seq<char>, i: int, k: int) -> int
    decreases k,
{
    if k > 0 && 0 <= i < s.len() && is_hex_digit(s[i]) {
        hex_end(s, i + 1, k - 1)
    } else {
        i
    }
}

/// The number spelled by the hex digits at indices `i..j`.
pub open spec fn hex_number(s: Seq<char>, i: int, j: int) -> int
    decreases j - i,
{
    if i < j {
        hex_number(s, i, j - 1) * 16 + hex_digit_value(s[j - 1])
    } else {
        0
    }
}

/// The number `16^k` for `k <= 6`.
pub open spec fn pow16(k: int) -> int {
    if k <= 0 {
        1
    } else if k == 1 {
        16
    } else if k == 2 {
        256
    } else if k == 3 {
        4096
    } else if k == 4 {
        65536
    } else if k == 5 {
        1048576
    } else {
        16777216
    }
}

/// The number of a code point.
pub open spec fn code_of(c: char) -> int {
    c as int
}

/// The code point an escape with the given number stands for.
pub open spec fn char_of_code(v: int) -> char {
    if v == 0 || (0xD800 <= v && v <= 0xDFFF) || v > 0x10FFFF {
        REPLACEMENT_CHAR
    } else {
        choose|c: char| #[trigger] code_of(c) == v
    }
}

/// Consume an escaped code point; `i` is the index after the backslash.
pub open spec fn escaped(s: Seq<char>, i: int) -> (char, int) {
    if i < 0 || i >= s.len() {
        (REPLACEMENT_CHAR, i)
    } else if is_hex_digit(s[i]) {
        let j = hex_end(s, i, 6);
        let k = if is_whitespace(cp(s, j)) {
            j + 1
        } else {
            j
        };
        (char_of_code(hex_number(s, i, j)), k)
    } else {
        (s[i], i + 1)
    }
}

/// Consume an ident sequence, appending its code points to `acc`.
pub open spec fn ident_seq(s: Seq<char>, i: int, acc: Seq<char>) -> (Seq<char>, int)
    decreases s.len() - i,
{
    if 0 <= i < s.len() {
        if is_ident_char(s[i]) {
            ident_seq(s, i + 1, acc.push(s[i]))
        } else if valid_escape(s[i], cp(s, i + 1)) {
            let (c, j) = escaped(s, i + 1);
            proof {
                lemma_escaped_bounds(s, i + 1);
            }
            ident_seq(s, j, acc.push(c))
        } else {
            (acc, i)
        }
    } else {
        (acc, i)
    }
}

/// Consume a number: the index after it and its type flag (`true` for "integer").
pub open spec fn number_end(s: Seq<char>, i: int) -> (int, bool) {
    let a = if cp(s, i) == '+' || cp(s, i) == '-' {
        i + 1
    } else {
        i
    };
    let b = digits_end(s, a);
    let (c, int1) = if cp(s, b) == '.' && is_digit(cp(s, b + 1)) {
        (digits_end(s, b + 2), false)
    } else {
        (b, true)
    };
    let e = cp(s, c) == 'e' || cp(s, c) == 'E';
    let (d, int2) = if e && is_digit(cp(s, c + 1)) {
        (digits_end(s, c + 2), false)
    } else if e && (cp(s, c + 1) == '+' || cp(s, c + 1) == '-') && is_digit(cp(s, c + 2)) {
        (digits_end(s, c + 3), false)
    } else {
        (c, true)
    };
    (d, int1 && int2)
}

/// Consume a numeric token that starts at `i`.
pub open spec fn numeric(s: Seq<char>, i: int) -> (SpecToken, int) {
    let (j, is_integer) = number_end(s, i);
    let repr = s.subrange(i, j);
    if starts_ident(cp(s, j), cp(s, j + 1), cp(s, j + 2)) {
        let (unit, k) = ident_seq(s, j, Seq::empty());
        (Token::DimensionToken { repr, is_integer, unit }, k)
    } else if cp(s, j) == '%' {
        (Token::PercentageToken { repr, is_integer }, j + 1)
    } else {
        (Token::NumberToken { repr, is_integer }, j)
    }
}

/// Consume the rest of a string token ended by `ending`, appending to `acc`.
pub open spec fn string_body(s: Seq<char>, i: int, ending: char, acc: Seq<char>) -> (SpecToken, int)
    decreases s.len() - i,
{
    if i < 0 || i >= s.len() {
        (Token::StringToken(acc), i)
    } else if s[i] == ending {
        (Token::StringToken(acc), i + 1)
    } else if s[i] == '\n' {
        (Token::BadStringToken, i)
    } else if s[i] == '\\' {
        if i + 1 >= s.len() {
            string_body(s, i + 1, ending, acc)
        } else if s[i + 1] == '\n' {
            string_body(s, i + 2, ending, acc)
        } else {
            let (c, j) = escaped(s, i + 1);
            proof {
                lemma_escaped_bounds(s, i + 1);
            }
            string_body(s, j, ending, acc.push(c))
        }
    } else {
        string_body(s, i + 1, ending, acc.push(s[i]))
    }
}

/// Consume the remnants of a bad url.
pub open spec fn bad_url_rest(s: Seq<char>, i: int) -> int
    decreases s.len() - i,
{
    if i < 0 || i >= s.len() {
        i
    } else if s[i] == ')' {
        i + 1
    } else if valid_escape(s[i], cp(s, i + 1)) {
        proof {
            lemma_escaped_bounds(s, i + 1);
        }
        bad_url_rest(s, escaped(s, i + 1).1)
    } else {
        bad_url_rest(s, i + 1)
    }
}

/// Consume the rest of a url token, appending to `acc`.
pub open spec fn url_body(s: Seq<char>, i: int, acc: Seq<char>) -> (SpecToken, int)
    decreases s.len() - i,
{
    if i < 0 || i >= s.len() {
        (Token::UrlToken(acc), i)
    } else if s[i] == ')' {
        (Token::UrlToken(acc), i + 1)
    } else if is_whitespace(s[i]) {
        let j = ws_end(s, i);
        if j >= s.len() {
            (Token::UrlToken(acc), j)
        } else if s[j] == ')' {
            (Token::UrlToken(acc), j + 1)
        } else {
            (Token::BadUrlToken, bad_url_rest(s, j))
        }
    } else if s[i] == '"' || s[i] == '\'' || s[i] == '(' || is_non_printable(s[i]) {
        (Token::BadUrlToken, bad_url_rest(s, i + 1))
    } else if s[i] == '\\' {
        if valid_escape(s[i], cp(s, i + 1)) {
            let (c, j) = escaped(s, i + 1);
            proof {
                lemma_escaped_bounds(s, i + 1);
            }
            url_body(s, j, acc.push(c))
        } else {
            (Token::BadUrlToken, bad_url_rest(s, i + 1))
        }
    } else {
        url_body(s, i + 1, acc.push(s[i]))
    }
}

/// The index after whitespace code points that are followed by another whitespace code point.
pub open spec fn ws_pairs_end(s: Seq<char>, i: int) -> int
    decreases s.len() - i,
{
    if 0 <= i < s.len() && is_whitespace(s[i]) && is_whitespace(cp(s, i + 1)) {
        ws_pairs_end(s, i + 1)
    } else {
        i
    }
}

/// Consume an ident-like token that starts at `i`.
pub open spec fn ident_like(s: Seq<char>, i: int) -> (SpecToken, int) {
    let (name, j) = ident_seq(s, i, Seq::empty());
    if ascii_ci_eq(name, seq!['u', 'r', 'l']) && cp(s, j) == '(' {
        let k = ws_pairs_end(s, j + 1);
        let q1 = cp(s, k) == '"' || cp(s, k) == '\'';
        let q2 = is_whitespace(cp(s, k)) && (cp(s, k + 1) == '"' || cp(s, k + 1) == '\'');
        if q1 || q2 {
            (Token::FunctionToken(name), k)
        } else {
            url_body(s, ws_end(s, k), Seq::empty())
        }
    } else if cp(s, j) == '(' {
        (Token::FunctionToken(name), j + 1)
    } else {
        (Token::IdentToken(name), j)
    }
}

/// Consume the token that starts at index `i` (comments already consumed, `i` in range).
pub open spec fn token_at(s: Seq<char>, i: int) -> (SpecToken, int) {
    let c = cp(s, i);
    let c1 = cp(s, i + 1);
    let c2 = cp(s, i + 2);
    let c3 = cp(s, i + 3);
    if is_whitespace(c) {
        (Token::WhitespaceToken, ws_end(s, i))
    } else if c == '"' || c == '\'' {
        string_body(s, i + 1, c, Seq::empty())
    } else if c == '#' {
        if is_ident_char(c1) || valid_escape(c1, c2) {
            let (value, j) = ident_seq(s, i + 1, Seq::empty());
            (Token::HashToken { value, is_id: starts_ident(c1, c2, c3) }, j)
        } else {
            (Token::DelimToken(c), i + 1)
        }
    } else if c == '(' {
        (Token::ParenthOpToken, i + 1)
    } else if c == ')' {
        (Token::ParenthClToken, i + 1)
    } else if c == '+' || c == '.' {
        if starts_number(c, c1, c2) {
            numeric(s, i)
        } else {
            (Token::DelimToken(c), i + 1)
        }
    } else if c == ',' {
        (Token::CommaToken, i + 1)
    } else if c == '-' {
        if starts_number(c, c1, c2) {
            numeric(s, i)
        } else if c1 == '-' && c2 == '>' {
            (Token::CdcToken, i + 3)
        } else if starts_ident(c, c1, c2) {
            ident_like(s, i)
        } else {
            (Token::DelimToken(c), i + 1)
        }
    } else if c == ':' {
        (Token::ColonToken, i + 1)
    } else if c == ';' {
        (Token::SemicolonToken, i + 1)
    } else if c == '<' {
        if c1 == '!' && c2 == '-' && c3 == '-' {
            (Token::CdoToken, i + 4)
        } else {
            (Token::DelimToken(c), i + 1)
        }
    } else if c == '@' {
        if starts_ident(c1, c2, c3) {
            let (name, j) = ident_seq(s, i + 1, Seq::empty());
            (Token::AtKeywordToken(name), j)
        } else {
            (Token::DelimToken(c), i + 1)
        }
    } else if c == '[' {
        (Token::CrochetOpToken, i + 1)
    } else if c == '\\' {
        if valid_escape(c, c1) {
            ident_like(s, i)
        } else {
            (Token::DelimToken(c), i + 1)
        }
    } else if c == ']' {
        (Token::CrochetClToken, i + 1)
    } else if c == '{' {
        (Token::AcoladeOpToken, i + 1)
    } else if c == '}' {
        (Token::AcoladeClToken, i + 1)
    } else if is_digit(c) {
        numeric(s, i)
    } else if is_ident_start(c) {
        ident_like(s, i)
    } else {
        (Token::DelimToken(c), i + 1)
    }
}

/// Whether the input at `i` starts a unicode-range: `u` or `U`, then `+`, then `?` or a
/// hex digit.
pub open spec fn starts_unicode_range(s: Seq<char>, i: int) -> bool {
    &&& (cp(s, i) == 'u' || cp(s, i) == 'U')
    &&& cp(s, i + 1) == '+'
    &&& (cp(s, i + 2) == '?' || is_hex_digit(cp(s, i + 2)))
}

/// The index after at most `k` question marks that start at `i`.
pub open spec fn qmarks_end(s: Seq<char>, i: int, k: int) -> int
    decreases k,
{
    if k > 0 && 0 <= i < s.len() && s[i] == '?' {
        qmarks_end(s, i + 1, k - 1)
    } else {
        i
    }
}

/// Consume a unicode-range token that starts at `i`: `u+`, at most six hex digits, and
/// then either question marks up to six code points in all (each one standing for any
/// hex digit) or `-` and at most six hex digits.
pub open spec fn unicode_range(s: Seq<char>, i: int) -> (SpecToken, int) {
    let j0 = i + 2;
    let j1 = hex_end(s, j0, 6);
    let j2 = qmarks_end(s, j1, 6 - (j1 - j0));
    let value = hex_number(s, j0, j1);
    if j2 > j1 {
        let p = pow16(j2 - j1);
        (Token::UnicodeRangeToken { start: (value * p) as u32, end: (value * p + p - 1) as u32 }, j2)
    } else if cp(s, j1) == '-' && is_hex_digit(cp(s, j1 + 1)) {
        let k = hex_end(s, j1 + 1, 6);
        (Token::UnicodeRangeToken { start: value as u32, end: hex_number(s, j1 + 1, k) as u32 }, k)
    } else {
        (Token::UnicodeRangeToken { start: value as u32, end: value as u32 }, j1)
    }
}

/// Consume the token that starts at index `i`, with unicode ranges allowed when `urange`.
pub open spec fn token_at_u(s: Seq<char>, i: int, urange: bool) -> (SpecToken, int) {
    if urange && starts_unicode_range(s, i) {
        unicode_range(s, i)
    } else {
        token_at(s, i)
    }
}

/// The tokens of `s` from index `i` on, with unicode ranges allowed, appended to `acc`.
pub open spec fn urange_tokens_from(s: Seq<char>, i: int, acc: Seq<SpecToken>) -> Seq<SpecToken>
    decreases s.len() - i,
{
    let j = skip_comments(s, i);
    if 0 <= i && j < s.len() {
        proof {
            lemma_skip_comments_bounds(s, i);
            lemma_token_at_u_bounds(s, j, true);
        }
        let (t, k) = token_at_u(s, j, true);
        urange_tokens_from(s, k, acc.push(t))
    } else {
        acc
    }
}

/// Tokenization of a text with unicode ranges allowed.
pub open spec fn urange_tokenize(s: Seq<char>) -> Seq<SpecToken> {
    urange_tokens_from(s, 0, Seq::empty())
}

/// The tokens of `s` from index `i` on, appended to `acc`.
pub open spec fn tokens_from(s: Seq<char>, i: int, acc: Seq<SpecToken>) -> Seq<SpecToken>
    decreases s.len() - i,
{
    let j = skip_comments(s, i);
    if 0 <= i && j < s.len() {
        proof {
            lemma_skip_comments_bounds(s, i);
            lemma_token_at_bounds(s, j);
        }
        let (t, k) = token_at(s, j);
        tokens_from(s, k, acc.push(t))
    } else {
        acc
    }
}

/// Tokenization of a whole (preprocessed) input.
pub open spec fn tokenize(s: Seq<char>) -> Seq<SpecToken> {
    tokens_from(s, 0, Seq::empty())
}

/// Where each token of `s` from index `i` on lies in `s`: the index of its first code
/// point and the index after its last one, appended to `acc`.
pub open spec fn spans_from(s: Seq<char>, i: int, acc: Seq<(int, int)>) -> Seq<(int, int)>
    decreases s.len() - i,
{
    let j = skip_comments(s, i);
    if 0 <= i && j < s.len() {
        proof {
            lemma_skip_comments_bounds(s, i);
            lemma_token_at_bounds(s, j);
        }
        let k = token_at(s, j).1;
        spans_from(s, k, acc.push((j, k)))
    } else {
        acc
    }
}

/// Where each token of a whole (preprocessed) input lies in it.
pub open spec fn token_spans(s: Seq<char>) -> Seq<(int, int)> {
    spans_from(s, 0, Seq::empty())
}

/// The spans lie inside a text of length `n`, each one starts before it ends, and each
/// one ends before the next one starts.
pub open spec fn spans_ok(sp: Seq<(int, int)>, n: int) -> bool {
    &&& forall|a: int| 0 <= a < sp.len() ==> 0 <= #[trigger] sp[a].0 <= sp[a].1 <= n
    &&& forall|a: int, b: int| 0 <= a < b < sp.len() ==> #[trigger] sp[a].1 <= #[trigger] sp[b].0
}

// ---------------------------------------------------------------------------
// Each consumer moves forward and stays inside the input.
// ---------------------------------------------------------------------------

pub proof fn lemma_ws_end_bounds(s: Seq<char>, i: int)
    requires
        0 <= i <= s.len(),
    ensures
        i <= ws_end(s, i) <= s.len(),
    decreases s.len() - i,
{
    if i < s.len() && is_whitespace(s[i]) {
        lemma_ws_end_bounds(s, i + 1);
    }
}

pub proof fn lemma_digits_end_bounds(s: Seq<char>, i: int)
    requires
        0 <= i <= s.len(),
    ensures
        i <= digits_end(s, i) <= s.len(),
    decreases s.len() - i,
{
    if i < s.len() && is_digit(s[i]) {
        lemma_digits_end_bounds(s, i + 1);
    }
}

pub proof fn lemma_skip_comments_bounds(s: Seq<char>, i: int)
    requires
        0 <= i <= s.len(),
    ensures
        i <= skip_comments(s, i) <= s.len(),
        !starts_comment(s, skip_comments(s, i)),
    decreases s.len() - i, 0int,
{
    if i + 1 < s.len() && s[i] == '/' && s[i + 1] == '*' {
        lemma_comment_body_bounds(s, i + 2);
    }
}

pub proof fn lemma_comment_body_bounds(s: Seq<char>, i: int)
    requires
        0 <= i <= s.len(),
    ensures
        i <= comment_body(s, i) <= s.len(),
        !starts_comment(s, comment_body(s, i)),
    decreases s.len() - i, 1int,
{
    if i < s.len() {
        if s[i] == '*' && i + 1 < s.len() && s[i + 1] == '/' {
            lemma_skip_comments_bounds(s, i + 2);
        } else {
            lemma_comment_body_bounds(s, i + 1);
        }
    }
}

pub proof fn lemma_hex_end_bounds(s: Seq<char>, i: int, k: int)
    requires
        0 <= i <= s.len(),
        0 <= k,
    ensures
        i <= hex_end(s, i, k) <= s.len(),
        hex_end(s, i, k) <= i + k,
    decreases k,
{
    if k > 0 && i < s.len() && is_hex_digit(s[i]) {
        lemma_hex_end_bounds(s, i + 1, k - 1);
    }
}

pub proof fn lemma_escaped_bounds(s: Seq<char>, i: int)
    requires
        0 <= i <= s.len(),
    ensures
        i <= escaped(s, i).1 <= s.len(),
        i < s.len() ==> i < escaped(s, i).1,
{
    if i < s.len() && is_hex_digit(s[i]) {
        lemma_hex_end_bounds(s, i, 6);
        lemma_hex_end_bounds(s, i + 1, 5);
    }
}

pub proof fn lemma_ident_seq_bounds(s: Seq<char>, i: int, acc: Seq<char>)
    requires
        0 <= i <= s.len(),
    ensures
        i <= ident_seq(s, i, acc).1 <= s.len(),
    decreases s.len() - i,
{
    if i < s.len() {
        if is_ident_char(s[i]) {
            lemma_ident_seq_bounds(s, i + 1, acc.push(s[i]));
        } else if valid_escape(s[i], cp(s, i + 1)) {
            lemma_escaped_bounds(s, i + 1);
            let (c, j) = escaped(s, i + 1);
            lemma_ident_seq_bounds(s, j, acc.push(c));
        }
    }
}

pub proof fn lemma_number_end_bounds(s: Seq<char>, i: int)
    requires
        0 <= i < s.len(),
        starts_number(cp(s, i), cp(s, i + 1), cp(s, i + 2)),
    ensures
        i < number_end(s, i).0 <= s.len(),
{
    let a = if cp(s, i) == '+' || cp(s, i) == '-' {
        i + 1
    } else {
        i
    };
    lemma_digits_end_bounds(s, a);
    let b = digits_end(s, a);
    if a < s.len() && is_digit(s[a]) {
        lemma_digits_end_bounds(s, a + 1);
    }
    let c = if cp(s, b) == '.' && is_digit(cp(s, b + 1)) {
        lemma_digits_end_bounds(s, b + 2);
        digits_end(s, b + 2)
    } else {
        b
    };
    assert(a <= b <= c <= s.len());
    let e = cp(s, c) == 'e' || cp(s, c) == 'E';
    if e && is_digit(cp(s, c + 1)) {
        lemma_digits_end_bounds(s, c + 2);
    } else if e && (cp(s, c + 1) == '+' || cp(s, c + 1) == '-') && is_digit(cp(s, c + 2)) {
        lemma_digits_end_bounds(s, c + 3);
    }
    assert(i < c);
}

pub proof fn lemma_numeric_bounds(s: Seq<char>, i: int)
    requires
        0 <= i < s.len(),
        starts_number(cp(s, i), cp(s, i + 1), cp(s, i + 2)),
    ensures
        i < numeric(s, i).1 <= s.len(),
{
    lemma_number_end_bounds(s, i);
    let j = number_end(s, i).0;
    lemma_ident_seq_bounds(s, j, Seq::empty());
}

pub proof fn lemma_string_body_bounds(s: Seq<char>, i: int, ending: char, acc: Seq<char>)
    requires
        0 <= i <= s.len(),
    ensures
        i <= string_body(s, i, ending, acc).1 <= s.len(),
    decreases s.len() - i,
{
    if i < s.len() && s[i] != ending && s[i] != '\n' {
        if s[i] == '\\' {
            if i + 1 >= s.len() {
                lemma_string_body_bounds(s, i + 1, ending, acc);
            } else if s[i + 1] == '\n' {
                lemma_string_body_bounds(s, i + 2, ending, acc);
            } else {
                lemma_escaped_bounds(s, i + 1);
                let (c, j) = escaped(s, i + 1);
                lemma_string_body_bounds(s, j, ending, acc.push(c));
            }
        } else {
            lemma_string_body_bounds(s, i + 1, ending, acc.push(s[i]));
        }
    }
}

pub proof fn lemma_bad_url_rest_bounds(s: Seq<char>, i: int)
    requires
        0 <= i <= s.len(),
    ensures
        i <= bad_url_rest(s, i) <= s.len(),
    decreases s.len() - i,
{
    if i < s.len() && s[i] != ')' {
        if valid_escape(s[i], cp(s, i + 1)) {
            lemma_escaped_bounds(s, i + 1);
            lemma_bad_url_rest_bounds(s, escaped(s, i + 1).1);
        } else {
            lemma_bad_url_rest_bounds(s, i + 1);
        }
    }
}

pub proof fn lemma_url_body_bounds(s: Seq<char>, i: int, acc: Seq<char>)
    requires
        0 <= i <= s.len(),
    ensures
        i <= url_body(s, i, acc).1 <= s.len(),
    decreases s.len() - i,
{
    if i < s.len() && s[i] != ')' {
        if is_whitespace(s[i]) {
            lemma_ws_end_bounds(s, i);
            let j = ws_end(s, i);
            if j < s.len() && s[j] != ')' {
                lemma_bad_url_rest_bounds(s, j);
            }
        } else if s[i] == '"' || s[i] == '\'' || s[i] == '(' || is_non_printable(s[i]) {
            lemma_bad_url_rest_bounds(s, i + 1);
        } else if s[i] == '\\' {
            if valid_escape(s[i], cp(s, i + 1)) {
                lemma_escaped_bounds(s, i + 1);
                let (c, j) = escaped(s, i + 1);
                lemma_url_body_bounds(s, j, acc.push(c));
            } else {
                lemma_bad_url_rest_bounds(s, i + 1);
            }
        } else {
            lemma_url_body_bounds(s, i + 1, acc.push(s[i]));
        }
    }
}

pub proof fn lemma_ws_pairs_end_bounds(s: Seq<char>, i: int)
    requires
        0 <= i <= s.len(),
    ensures
        i <= ws_pairs_end(s, i) <= s.len(),
    decreases s.len() - i,
{
    if i < s.len() && is_whitespace(s[i]) && is_whitespace(cp(s, i + 1)) {
        lemma_ws_pairs_end_bounds(s, i + 1);
    }
}

pub proof fn lemma_ident_like_bounds(s: Seq<char>, i: int)
    requires
        0 <= i < s.len(),
        starts_ident(cp(s, i), cp(s, i + 1), cp(s, i + 2)),
    ensures
        i < ident_like(s, i).1 <= s.len(),
{
    lemma_ident_seq_first(s, i);
    lemma_ident_seq_bounds(s, i, Seq::empty());
    let (name, j) = ident_seq(s, i, Seq::empty());
    if ascii_ci_eq(name, seq!['u', 'r', 'l']) && cp(s, j) == '(' {
        lemma_ws_pairs_end_bounds(s, j + 1);
        let k = ws_pairs_end(s, j + 1);
        lemma_ws_end_bounds(s, k);
        lemma_url_body_bounds(s, ws_end(s, k), Seq::empty());
    }
}

/// An ident sequence that starts like one consumes at least one code point.
pub proof fn lemma_ident_seq_first(s: Seq<char>, i: int)
    requires
        0 <= i < s.len(),
        starts_ident(cp(s, i), cp(s, i + 1), cp(s, i + 2)),
    ensures
        i < ident_seq(s, i, Seq::empty()).1,
{
    if is_ident_char(s[i]) {
        lemma_ident_seq_bounds(s, i + 1, seq![s[i]]);
    } else {
        lemma_escaped_bounds(s, i + 1);
        let (c, j) = escaped(s, i + 1);
        lemma_ident_seq_bounds(s, j, seq![c]);
    }
}

/// Every token consumes at least one code point, and no code point past the end.
pub proof fn lemma_token_at_bounds(s: Seq<char>, i: int)
    requires
        0 <= i < s.len(),
    ensures
        i < token_at(s, i).1 <= s.len(),
{
    let c = cp(s, i);
    let c1 = cp(s, i + 1);
    let c2 = cp(s, i + 2);
    let c3 = cp(s, i + 3);
    if is_whitespace(c) {
        lemma_ws_end_bounds(s, i + 1);
    } else if c == '"' || c == '\'' {
        lemma_string_body_bounds(s, i + 1, c, Seq::empty());
    } else if c == '#' {
        if is_ident_char(c1) || valid_escape(c1, c2) {
            lemma_ident_seq_bounds(s, i + 1, Seq::empty());
        }
    } else if c == '+' || c == '.' {
        if starts_number(c, c1, c2) {
            lemma_numeric_bounds(s, i);
        }
    } else if c == '-' {
        if starts_number(c, c1, c2) {
            lemma_numeric_bounds(s, i);
        } else if c1 == '-' && c2 == '>' {
        } else if starts_ident(c, c1, c2) {
            lemma_ident_like_bounds(s, i);
        }
    } else if c == '@' {
        if starts_ident(c1, c2, c3) {
            lemma_ident_seq_bounds(s, i + 1, Seq::empty());
        }
    } else if c == '\\' {
        if valid_escape(c, c1) {
            lemma_ident_like_bounds(s, i);
        }
    } else if is_digit(c) {
        lemma_numeric_bounds(s, i);
    } else if is_ident_start(c) {
        lemma_ident_like_bounds(s, i);
    }
}

/// There is one span per token, and the spans of an input are in order inside it.
pub proof fn lemma_token_spans(s: Seq<char>)
    ensures
        token_spans(s).len() == tokenize(s).len(),
        spans_ok(token_spans(s), s.len() as int),
{
    lemma_spans_from(s, 0, Seq::empty(), Seq::empty());
}

proof fn lemma_spans_from(s: Seq<char>, i: int, acc: Seq<(int, int)>, tacc: Seq<SpecToken>)
    requires
        0 <= i <= s.len(),
        acc.len() == tacc.len(),
        spans_ok(acc, i),
    ensures
        spans_from(s, i, acc).len() == tokens_from(s, i, tacc).len(),
        spans_ok(spans_from(s, i, acc), s.len() as int),
    decreases s.len() - i,
{
    lemma_skip_comments_bounds(s, i);
    let j = skip_comments(s, i);
    if j < s.len() {
        lemma_token_at_bounds(s, j);
        let (t, k) = token_at(s, j);
        let acc2 = acc.push((j, k));
        assert forall|a: int| 0 <= a < acc2.len() implies 0 <= #[trigger] acc2[a].0 <= acc2[a].1
            <= k by {
            if a < acc.len() {
                assert(acc2[a] == acc[a]);
            }
        }
        assert forall|a: int, b: int| 0 <= a < b < acc2.len() implies #[trigger] acc2[a].1
            <= #[trigger] acc2[b].0 by {
            assert(acc2[a] == acc[a]);
            assert(0 <= acc[a].0 <= acc[a].1 <= i);
            if b < acc.len() {
                assert(acc2[b] == acc[b]);
            }
        }
        lemma_spans_from(s, k, acc2, tacc.push(t));
    } else {
        assert forall|a: int| 0 <= a < acc.len() implies 0 <= #[trigger] acc[a].0 <= acc[a].1
            <= s.len() by {}
    }
}

pub proof fn lemma_qmarks_end_bounds(s: Seq<char>, i: int, k: int)
    requires
        0 <= i <= s.len(),
    ensures
        i <= qmarks_end(s, i, k) <= s.len(),
        k >= 0 ==> qmarks_end(s, i, k) <= i + k,
    decreases k,
{
    if k > 0 && i < s.len() && s[i] == '?' {
        lemma_qmarks_end_bounds(s, i + 1, k - 1);
    }
}

/// A token consumes at least one code point, unicode ranges allowed or not.
pub proof fn lemma_token_at_u_bounds(s: Seq<char>, i: int, urange: bool)
    requires
        0 <= i < s.len(),
    ensures
        i < token_at_u(s, i, urange).1 <= s.len(),
{
    if urange && starts_unicode_range(s, i) {
        lemma_hex_end_bounds(s, i + 2, 6);
        let j1 = hex_end(s, i + 2, 6);
        lemma_qmarks_end_bounds(s, j1, 6 - (j1 - (i + 2)));
        if j1 + 1 < s.len() {
            lemma_hex_end_bounds(s, j1 + 1, 6);
        }
    } else {
        lemma_token_at_bounds(s, i);
    }
}

// ---------------------------------------------------------------------------
// Only whitespace starts a whitespace token.
// ---------------------------------------------------------------------------

proof fn lemma_string_body_not_ws(s: Seq<char>, i: int, ending: char, acc: Seq<char>)
    ensures
        !(string_body(s, i, ending, acc).0 is WhitespaceToken),
    decreases s.len() - i,
{
    if 0 <= i < s.len() && s[i] != ending && s[i] != '\n' {
        if s[i] == '\\' {
            if i + 1 >= s.len() {
                lemma_string_body_not_ws(s, i + 1, ending, acc);
            } else if s[i + 1] == '\n' {
                lemma_string_body_not_ws(s, i + 2, ending, acc);
            } else {
                lemma_escaped_bounds(s, i + 1);
                let (c, j) = escaped(s, i + 1);
                lemma_string_body_not_ws(s, j, ending, acc.push(c));
            }
        } else {
            lemma_string_body_not_ws(s, i + 1, ending, acc.push(s[i]));
        }
    }
}

proof fn lemma_url_body_not_ws(s: Seq<char>, i: int, acc: Seq<char>)
    ensures
        !(url_body(s, i, acc).0 is WhitespaceToken),
    decreases s.len() - i,
{
    if 0 <= i < s.len() && s[i] != ')' && !is_whitespace(s[i]) && !(s[i] == '"' || s[i] == '\''
        || s[i] == '(' || is_non_printable(s[i])) {
        if s[i] == '\\' {
            if valid_escape(s[i], cp(s, i + 1)) {
                lemma_escaped_bounds(s, i + 1);
                let (c, j) = escaped(s, i + 1);
                lemma_url_body_not_ws(s, j, acc.push(c));
            }
        } else {
            lemma_url_body_not_ws(s, i + 1, acc.push(s[i]));
        }
    }
}

/// A token that does not start with a whitespace code point is no whitespace token.
pub proof fn lemma_token_at_not_ws(s: Seq<char>, i: int)
    requires
        !is_whitespace(cp(s, i)),
    ensures
        !(token_at(s, i).0 is WhitespaceToken),
{
    let c = cp(s, i);
    if c == '"' || c == '\'' {
        lemma_string_body_not_ws(s, i + 1, c, Seq::empty());
    } else {
        let (name, j) = ident_seq(s, i, Seq::empty());
        let k = ws_pairs_end(s, j + 1);
        lemma_url_body_not_ws(s, ws_end(s, k), Seq::empty());
    }
}

/// Each token of an input is the token that starts where its span starts, no comment
/// starts there, and the span ends where the token ends.
pub proof fn lemma_spans_tokens(s: Seq<char>)
    ensures
        forall|a: int|
            0 <= a < tokenize(s).len() ==> {
                let j = (#[trigger] token_spans(s)[a]).0;
                &&& tokenize(s)[a] == token_at(s, j).0
                &&& token_spans(s)[a].1 == token_at(s, j).1
                &&& !starts_comment(s, j)
                &&& 0 <= j < s.len()
            },
{
    lemma_spans_tokens_from(s, 0, Seq::empty(), Seq::empty());
    lemma_token_spans(s);
}

pub open spec fn spans_match(s: Seq<char>, sp: Seq<(int, int)>, t: Seq<SpecToken>) -> bool {
    &&& sp.len() == t.len()
    &&& forall|a: int|
        0 <= a < t.len() ==> {
            let j = (#[trigger] sp[a]).0;
            &&& t[a] == token_at(s, j).0
            &&& sp[a].1 == token_at(s, j).1
            &&& !starts_comment(s, j)
            &&& 0 <= j < s.len()
        }
}

proof fn lemma_spans_tokens_from(s: Seq<char>, i: int, acc: Seq<(int, int)>, tacc: Seq<SpecToken>)
    requires
        0 <= i <= s.len(),
        spans_match(s, acc, tacc),
    ensures
        spans_match(s, spans_from(s, i, acc), tokens_from(s, i, tacc)),
    decreases s.len() - i,
{
    lemma_skip_comments_bounds(s, i);
    let j = skip_comments(s, i);
    if j < s.len() {
        lemma_token_at_bounds(s, j);
        let (t, k) = token_at(s, j);
        let acc2 = acc.push((j, k));
        let tacc2 = tacc.push(t);
        assert forall|a: int| 0 <= a < tacc2.len() implies {
            let jj = (#[trigger] acc2[a]).0;
            &&& tacc2[a] == token_at(s, jj).0
            &&& acc2[a].1 == token_at(s, jj).1
            &&& !starts_comment(s, jj)
            &&& 0 <= jj < s.len()
        } by {
            if a < acc.len() {
                assert(acc2[a] == acc[a]);
                assert(tacc2[a] == tacc[a]);
            }
        }
        lemma_spans_tokens_from(s, k, acc2, tacc2);
    }
}

} // verus!
