use vstd::prelude::*;

use crate::chars::{
    ascii_ci_eq_string, char_at, cp, hex_value, is_digit, is_hex_digit, is_ident_char,
    is_ident_start, is_non_printable, is_whitespace, starts_ident, starts_number, valid_escape,
    REPLACEMENT_CHAR,
};
use crate::token::{CssToken, Token};
use crate::token_spec::{
    bad_url_rest, char_of_code, code_of, comment_body, digits_end, escaped, hex_end, hex_number, ident_like, ident_seq,
    lemma_token_at_bounds, number_end, pow16, qmarks_end, starts_unicode_range,
    unicode_range, urange_tokenize, urange_tokens_from, spans_from, token_spans, numeric, preprocess, skip_comments, string_body, token_at,
    tokens_from, tokenize, url_body, ws_end, ws_pairs_end,
};

verus! {

/// `String::push`: appends the code point to the end of the string.
#[verifier::external_body]
fn push_char(s: &mut String, c: char)
    ensures
        final(s)@ == old(s)@.push(c),
{
    s.push(c);
}

/// `char::from_u32`: the code point with the given number; `None` for a
/// surrogate or a number above `char::MAX`.
#[verifier::external_body]
fn char_from_u32(v: u32) -> (r: Option<char>)
    ensures
        r is Some <==> (v <= 0x10FFFF && !(0xD800 <= v && v <= 0xDFFF)),
        r matches Some(c) ==> c as int == v as int,
{
    char::from_u32(v)
}

/// The view of a list of tokens.
pub open spec fn tokens_view(v: Seq<CssToken>) -> Seq<Token<Seq<char>>> {
    v.map_values(|t: CssToken| t@)
}

/// The code points of a string, one by one.
pub fn chars_of(input: &str) -> (v: Vec<char>)
    ensures
        v@ == input@,
{
    let mut v: Vec<char> = Vec::new();
    for c in it: input.chars()
        invariant
            v@ == it.seq().take(it.index() as int),
    {
        v.push(c);
        assert(v@ =~= it.seq().take(it.index() + 1));
    }
    v
}


/// Filter code points of the input (see `preprocess`).
pub fn preprocessing(input: &str) -> (r: Vec<char>)
    ensures
        r@ == preprocess(input@),
{
    let s = chars_of(input);
    let mut out: Vec<char> = Vec::new();
    let mut i: usize = 0;
    assert(s@.subrange(0, s@.len() as int) =~= s@);
    while i < s.len()
        invariant
            i <= s.len(),
            s@ == input@,
            preprocess(s@) == out@ + preprocess(s@.subrange(i as int, s@.len() as int)),
        decreases s.len() - i,
    {
        let ghost rest = s@.subrange(i as int, s@.len() as int);
        let c = s[i];
        if c == '\r' && i + 1 < s.len() && s[i + 1] == '\n' {
            assert(rest.subrange(2, rest.len() as int) =~= s@.subrange(i + 2, s@.len() as int));
            out.push('\n');
            i = i + 2;
        } else {
            assert(rest.subrange(1, rest.len() as int) =~= s@.subrange(i + 1, s@.len() as int));
            if c == '\r' || c == '\u{C}' {
                out.push('\n');
            } else if c == '\0' {
                out.push(REPLACEMENT_CHAR);
            } else {
                out.push(c);
            }
            i = i + 1;
        }
        assert(out@ + preprocess(s@.subrange(i as int, s@.len() as int)) =~= preprocess(s@));
    }
    assert(preprocess(s@.subrange(i as int, s@.len() as int)) =~= Seq::<char>::empty());
    assert(out@ =~= out@ + Seq::<char>::empty());
    out
}

/// The text at indices `i..j` of `s`.
pub(crate) fn string_of(s: &Vec<char>, i: usize, j: usize) -> (r: String)
    requires
        i <= j <= s.len(),
    ensures
        r@ == s@.subrange(i as int, j as int),
{
    let mut r = String::new();
    let mut k = i;
    while k < j
        invariant
            i <= k <= j <= s.len(),
            r@ == s@.subrange(i as int, k as int),
        decreases j - k,
    {
        push_char(&mut r, s[k]);
        k = k + 1;
        assert(r@ =~= s@.subrange(i as int, k as int));
    }
    r
}

fn consume_whitespace(s: &Vec<char>, i: usize) -> (j: usize)
    requires
        i <= s.len(),
    ensures
        j == ws_end(s@, i as int),
        i <= j <= s.len(),
{
    let mut j = i;
    while j < s.len() && is_whitespace(s[j])
        invariant
            i <= j <= s.len(),
            ws_end(s@, i as int) == ws_end(s@, j as int),
        decreases s.len() - j,
    {
        j = j + 1;
    }
    j
}

fn consume_ws_pairs(s: &Vec<char>, i: usize) -> (j: usize)
    requires
        i <= s.len(),
    ensures
        j == ws_pairs_end(s@, i as int),
        i <= j <= s.len(),
{
    let mut j = i;
    while j < s.len() && is_whitespace(s[j]) && is_whitespace(char_at(s, j, 1))
        invariant
            i <= j <= s.len(),
            ws_pairs_end(s@, i as int) == ws_pairs_end(s@, j as int),
        decreases s.len() - j,
    {
        j = j + 1;
    }
    j
}

fn consume_digits(s: &Vec<char>, i: usize) -> (j: usize)
    requires
        i <= s.len(),
    ensures
        j == digits_end(s@, i as int),
        i <= j <= s.len(),
{
    let mut j = i;
    while j < s.len() && is_digit(s[j])
        invariant
            i <= j <= s.len(),
            digits_end(s@, i as int) == digits_end(s@, j as int),
        decreases s.len() - j,
    {
        j = j + 1;
    }
    j
}

/// Consume comments (see `skip_comments`).
fn consume_comments(s: &Vec<char>, i: usize) -> (j: usize)
    requires
        i <= s.len(),
    ensures
        j == skip_comments(s@, i as int),
        i <= j <= s.len(),
{
    let mut j = i;
    while char_at(s, j, 0) == '/' && char_at(s, j, 1) == '*'
        invariant
            i <= j <= s.len(),
            skip_comments(s@, i as int) == skip_comments(s@, j as int),
        decreases s.len() - j,
    {
        let mut k = j + 2;
        while k < s.len() && !(s[k] == '*' && char_at(s, k, 1) == '/')
            invariant
                j + 2 <= k <= s.len(),
                comment_body(s@, j + 2) == comment_body(s@, k as int),
            decreases s.len() - k,
        {
            k = k + 1;
        }
        if k < s.len() {
            j = k + 2;
        } else {
            j = s.len();
        }
    }
    j
}

/// Consume an escaped code point; `i` is the index after the backslash.
fn consume_escaped(s: &Vec<char>, i: usize) -> (r: (char, usize))
    requires
        i <= s.len(),
    ensures
        (r.0, r.1 as int) == escaped(s@, i as int),
        i <= r.1 <= s.len(),
        i < s.len() ==> i < r.1,
{
    if i >= s.len() {
        return (REPLACEMENT_CHAR, i);
    }
    let c = s[i];
    if is_hex_digit(c) {
        let mut j = i;
        let mut v: u32 = 0;
        while j < s.len() && j - i < 6 && is_hex_digit(s[j])
            invariant
                i <= j <= s.len(),
                j - i <= 6,
                hex_end(s@, i as int, 6) == hex_end(s@, j as int, 6 - (j - i)),
                v == hex_number(s@, i as int, j as int),
                v < pow16(j - i),
            decreases s.len() - j,
        {
            v = v * 16 + hex_value(s[j]);
            j = j + 1;
        }
        let k = if is_whitespace(char_at(s, j, 0)) {
            j + 1
        } else {
            j
        };
        assert(j == hex_end(s@, i as int, 6));
        let ch = if v == 0 || (0xD800 <= v && v <= 0xDFFF) || v > 0x10FFFF {
            REPLACEMENT_CHAR
        } else {
            match char_from_u32(v) {
                Some(ch) => {
                    assert(code_of(ch) == v as int);
                    assert(ch == char_of_code(v as int));
                    ch
                },
                None => REPLACEMENT_CHAR,
            }
        };
        assert(ch == char_of_code(hex_number(s@, i as int, j as int)));
        (ch, k)
    } else {
        (c, i + 1)
    }
}

/// Consume an ident sequence that starts at `i`.
fn consume_ident_sequence(s: &Vec<char>, i: usize) -> (r: (String, usize))
    requires
        i <= s.len(),
    ensures
        (r.0@, r.1 as int) == ident_seq(s@, i as int, Seq::empty()),
        i <= r.1 <= s.len(),
{
    let mut acc = String::new();
    let mut j = i;
    loop
        invariant
            i <= j <= s.len(),
            ident_seq(s@, i as int, Seq::empty()) == ident_seq(s@, j as int, acc@),
        decreases s.len() - j,
    {
        if j >= s.len() {
            return (acc, j);
        }
        let c = s[j];
        if is_ident_char(c) {
            push_char(&mut acc, c);
            j = j + 1;
        } else if valid_escape(c, char_at(s, j, 1)) {
            let (e, k) = consume_escaped(s, j + 1);
            push_char(&mut acc, e);
            j = k;
        } else {
            return (acc, j);
        }
    }
}

/// Consume a number: the index after it and its type flag.
fn consume_number(s: &Vec<char>, i: usize) -> (r: (usize, bool))
    requires
        i <= s.len(),
    ensures
        (r.0 as int, r.1) == number_end(s@, i as int),
        i <= r.0 <= s.len(),
{
    let c0 = char_at(s, i, 0);
    let a = if c0 == '+' || c0 == '-' {
        i + 1
    } else {
        i
    };
    let b = consume_digits(s, a);
    let (c, int1) = if char_at(s, b, 0) == '.' && is_digit(char_at(s, b, 1)) {
        (consume_digits(s, b + 2), false)
    } else {
        (b, true)
    };
    let ce = char_at(s, c, 0);
    let c1 = char_at(s, c, 1);
    let c2 = char_at(s, c, 2);
    let e = ce == 'e' || ce == 'E';
    let (d, int2) = if e && is_digit(c1) {
        (consume_digits(s, c + 2), false)
    } else if e && (c1 == '+' || c1 == '-') && is_digit(c2) {
        (consume_digits(s, c + 3), false)
    } else {
        (c, true)
    };
    (d, int1 && int2)
}

/// Consume a numeric token that starts at `i`.
fn consume_numeric(s: &Vec<char>, i: usize) -> (r: (CssToken, usize))
    requires
        i <= s.len(),
    ensures
        (r.0@, r.1 as int) == numeric(s@, i as int),
        i <= r.1 <= s.len(),
{
    let (j, is_integer) = consume_number(s, i);
    let repr = string_of(s, i, j);
    if starts_ident(char_at(s, j, 0), char_at(s, j, 1), char_at(s, j, 2)) {
        let (unit, k) = consume_ident_sequence(s, j);
        (Token::DimensionToken { repr, is_integer, unit }, k)
    } else if char_at(s, j, 0) == '%' {
        (Token::PercentageToken { repr, is_integer }, j + 1)
    } else {
        (Token::NumberToken { repr, is_integer }, j)
    }
}

/// Consume the rest of a string token ended by `ending`.
fn consume_string(s: &Vec<char>, i: usize, ending: char) -> (r: (CssToken, usize))
    requires
        i <= s.len(),
    ensures
        (r.0@, r.1 as int) == string_body(s@, i as int, ending, Seq::empty()),
        i <= r.1 <= s.len(),
{
    let mut acc = String::new();
    let mut j = i;
    loop
        invariant
            i <= j <= s.len(),
            string_body(s@, i as int, ending, Seq::empty()) == string_body(
                s@,
                j as int,
                ending,
                acc@,
            ),
        decreases s.len() - j,
    {
        if j >= s.len() {
            return (Token::StringToken(acc), j);
        }
        let c = s[j];
        if c == ending {
            return (Token::StringToken(acc), j + 1);
        } else if c == '\n' {
            return (Token::BadStringToken, j);
        } else if c == '\\' {
            if j + 1 >= s.len() {
                j = j + 1;
            } else if s[j + 1] == '\n' {
                j = j + 2;
            } else {
                let (e, k) = consume_escaped(s, j + 1);
                push_char(&mut acc, e);
                j = k;
            }
        } else {
            push_char(&mut acc, c);
            j = j + 1;
        }
    }
}

/// Consume the remnants of a bad url.
fn consume_bad_url(s: &Vec<char>, i: usize) -> (j: usize)
    requires
        i <= s.len(),
    ensures
        j == bad_url_rest(s@, i as int),
        i <= j <= s.len(),
{
    let mut j = i;
    loop
        invariant
            i <= j <= s.len(),
            bad_url_rest(s@, i as int) == bad_url_rest(s@, j as int),
        decreases s.len() - j,
    {
        if j >= s.len() {
            return j;
        }
        let c = s[j];
        if c == ')' {
            return j + 1;
        } else if valid_escape(c, char_at(s, j, 1)) {
            let (_e, k) = consume_escaped(s, j + 1);
            j = k;
        } else {
            j = j + 1;
        }
    }
}

/// Consume the rest of a url token.
fn consume_url(s: &Vec<char>, i: usize) -> (r: (CssToken, usize))
    requires
        i <= s.len(),
    ensures
        (r.0@, r.1 as int) == url_body(s@, i as int, Seq::empty()),
        i <= r.1 <= s.len(),
{
    let mut acc = String::new();
    let mut j = i;
    loop
        invariant
            i <= j <= s.len(),
            url_body(s@, i as int, Seq::empty()) == url_body(s@, j as int, acc@),
        decreases s.len() - j,
    {
        if j >= s.len() {
            return (Token::UrlToken(acc), j);
        }
        let c = s[j];
        if c == ')' {
            return (Token::UrlToken(acc), j + 1);
        } else if is_whitespace(c) {
            let k = consume_whitespace(s, j);
            if k >= s.len() {
                return (Token::UrlToken(acc), k);
            } else if s[k] == ')' {
                return (Token::UrlToken(acc), k + 1);
            } else {
                return (Token::BadUrlToken, consume_bad_url(s, k));
            }
        } else if c == '"' || c == '\'' || c == '(' || is_non_printable(c) {
            return (Token::BadUrlToken, consume_bad_url(s, j + 1));
        } else if c == '\\' {
            if valid_escape(c, char_at(s, j, 1)) {
                let (e, k) = consume_escaped(s, j + 1);
                push_char(&mut acc, e);
                j = k;
            } else {
                return (Token::BadUrlToken, consume_bad_url(s, j + 1));
            }
        } else {
            push_char(&mut acc, c);
            j = j + 1;
        }
    }
}

/// Consume an ident-like token that starts at `i`.
fn consume_ident_like(s: &Vec<char>, i: usize) -> (r: (CssToken, usize))
    requires
        i <= s.len(),
    ensures
        (r.0@, r.1 as int) == ident_like(s@, i as int),
        i <= r.1 <= s.len(),
{
    let (name, j) = consume_ident_sequence(s, i);
    let url_name = ascii_ci_eq_string(&name, &['u', 'r', 'l']);
    assert(['u', 'r', 'l']@ =~= seq!['u', 'r', 'l']);
    if url_name && char_at(s, j, 0) == '(' {
        let k = consume_ws_pairs(s, j + 1);
        let ck = char_at(s, k, 0);
        let ck1 = char_at(s, k, 1);
        if ck == '"' || ck == '\'' || (is_whitespace(ck) && (ck1 == '"' || ck1 == '\'')) {
            (Token::FunctionToken(name), k)
        } else {
            let w = consume_whitespace(s, k);
            consume_url(s, w)
        }
    } else if char_at(s, j, 0) == '(' {
        (Token::FunctionToken(name), j + 1)
    } else {
        (Token::IdentToken(name), j)
    }
}

/// Consume the token that starts at index `i` (see `token_at`).
fn consume_token(s: &Vec<char>, i: usize) -> (r: (CssToken, usize))
    requires
        i < s.len(),
    ensures
        (r.0@, r.1 as int) == token_at(s@, i as int),
        i < r.1 <= s.len(),
{
    proof {
        lemma_token_at_bounds(s@, i as int);
    }
    let c = s[i];
    let c1 = char_at(s, i, 1);
    let c2 = char_at(s, i, 2);
    let c3 = char_at(s, i, 3);
    if is_whitespace(c) {
        (Token::WhitespaceToken, consume_whitespace(s, i))
    } else if c == '"' || c == '\'' {
        consume_string(s, i + 1, c)
    } else if c == '#' {
        if is_ident_char(c1) || valid_escape(c1, c2) {
            let (value, j) = consume_ident_sequence(s, i + 1);
            (Token::HashToken { value, is_id: starts_ident(c1, c2, c3) }, j)
        } else {
            (Token::DelimToken(c), i + 1)
        }
    } else if c == '(' {
        (Token::ParenthOpToken, i + 1)
    } else if c == ')' {
        (Token::ParenthClToken, i + 1)
    } else if c == '+' || c == '.' {
        if starts_number(c, c1, c2) {
            consume_numeric(s, i)
        } else {
            (Token::DelimToken(c), i + 1)
        }
    } else if c == ',' {
        (Token::CommaToken, i + 1)
    } else if c == '-' {
        if starts_number(c, c1, c2) {
            consume_numeric(s, i)
        } else if c1 == '-' && c2 == '>' {
            (Token::CdcToken, i + 3)
        } else if starts_ident(c, c1, c2) {
            consume_ident_like(s, i)
        } else {
            (Token::DelimToken(c), i + 1)
        }
    } else if c == ':' {
        (Token::ColonToken, i + 1)
    } else if c == ';' {
        (Token::SemicolonToken, i + 1)
    } else if c == '<' {
        if c1 == '!' && c2 == '-' && c3 == '-' {
            (Token::CdoToken, i + 4)
        } else {
            (Token::DelimToken(c), i + 1)
        }
    } else if c == '@' {
        if starts_ident(c1, c2, c3) {
            let (name, j) = consume_ident_sequence(s, i + 1);
            (Token::AtKeywordToken(name), j)
        } else {
            (Token::DelimToken(c), i + 1)
        }
    } else if c == '[' {
        (Token::CrochetOpToken, i + 1)
    } else if c == '\\' {
        if valid_escape(c, c1) {
            consume_ident_like(s, i)
        } else {
            (Token::DelimToken(c), i + 1)
        }
    } else if c == ']' {
        (Token::CrochetClToken, i + 1)
    } else if c == '{' {
        (Token::AcoladeOpToken, i + 1)
    } else if c == '}' {
        (Token::AcoladeClToken, i + 1)
    } else if is_digit(c) {
        consume_numeric(s, i)
    } else if is_ident_start(c) {
        consume_ident_like(s, i)
    } else {
        (Token::DelimToken(c), i + 1)
    }
}

/// The model of a list of spans.
pub open spec fn spans_view(v: Seq<(usize, usize)>) -> Seq<(int, int)> {
    v.map_values(|p: (usize, usize)| (p.0 as int, p.1 as int))
}

/// Tokenize an input as preprocessing gives it: the list of its tokens (see `tokenize`)
/// and where each of them lies in the input (see `token_spans`).
/// Tokenization never fails: what is not a token of another kind is a delim token.
pub fn tokenization_with_spans(s: &Vec<char>) -> (r: (Vec<CssToken>, Vec<(usize, usize)>))
    ensures
        tokens_view(r.0@) == tokenize(s@),
        spans_view(r.1@) == token_spans(s@),
{
    let mut out: Vec<CssToken> = Vec::new();
    let mut spans: Vec<(usize, usize)> = Vec::new();
    let mut i: usize = 0;
    assert(tokens_view(out@) =~= Seq::empty());
    assert(spans_view(spans@) =~= Seq::empty());
    loop
        invariant
            i <= s.len(),
            tokenize(s@) == tokens_from(s@, i as int, tokens_view(out@)),
            token_spans(s@) == spans_from(s@, i as int, spans_view(spans@)),
        decreases s.len() - i,
    {
        let j = consume_comments(s, i);
        if j >= s.len() {
            return (out, spans);
        }
        let (t, k) = consume_token(s, j);
        let ghost before = tokens_view(out@);
        let ghost before_spans = spans_view(spans@);
        out.push(t);
        spans.push((j, k));
        assert(tokens_view(out@) =~= before.push(t@));
        assert(spans_view(spans@) =~= before_spans.push((j as int, k as int)));
        i = k;
    }
}

/// Tokenize an input as preprocessing gives it: the list of its tokens (see `tokenize`).
/// Tokenization never fails: what is not a token of another kind is a delim token.
pub fn tokenization(s: &Vec<char>) -> (r: Vec<CssToken>)
    ensures
        tokens_view(r@) == tokenize(s@),
{
    tokenization_with_spans(s).0
}

/// At most `k` hex digits that start at `i`: their number and the index after them.
fn consume_hex_run(s: &Vec<char>, i: usize, k: usize) -> (r: (u32, usize))
    requires
        i <= s.len(),
        k <= 6,
    ensures
        r.1 as int == hex_end(s@, i as int, k as int),
        r.0 as int == hex_number(s@, i as int, r.1 as int),
        i <= r.1 <= s.len(),
        r.1 - i <= k,
        r.0 < pow16(r.1 - i),
{
    let mut j = i;
    let mut v: u32 = 0;
    while j < s.len() && j - i < k && is_hex_digit(s[j])
        invariant
            i <= j <= s.len(),
            j - i <= k <= 6,
            hex_end(s@, i as int, k as int) == hex_end(s@, j as int, k - (j - i)),
            v == hex_number(s@, i as int, j as int),
            v < pow16(j - i),
        decreases s.len() - j,
    {
        v = v * 16 + hex_value(s[j]);
        j = j + 1;
    }
    (v, j)
}

/// The number `16^k`.
fn pow16_of(k: usize) -> (p: u64)
    requires
        k <= 6,
    ensures
        p == pow16(k as int),
        1 <= p <= 0x1000000,
{
    let mut p: u64 = 1;
    let mut n: usize = 0;
    while n < k
        invariant
            n <= k <= 6,
            p == pow16(n as int),
        decreases k - n,
    {
        p = p * 16;
        n = n + 1;
    }
    p
}

fn starts_unicode_range_at(s: &Vec<char>, i: usize) -> (r: bool)
    ensures
        r == starts_unicode_range(s@, i as int),
{
    let c0 = char_at(s, i, 0);
    let c2 = char_at(s, i, 2);
    (c0 == 'u' || c0 == 'U') && char_at(s, i, 1) == '+' && (c2 == '?' || is_hex_digit(c2))
}

/// Consume a unicode-range token that starts at `i` (see `unicode_range`).
fn consume_unicode_range(s: &Vec<char>, i: usize) -> (r: (CssToken, usize))
    requires
        i <= s.len(),
        starts_unicode_range(s@, i as int),
    ensures
        (r.0@, r.1 as int) == unicode_range(s@, i as int),
        i < r.1 <= s.len(),
{
    let j0 = i + 2;
    let (value, j1) = consume_hex_run(s, j0, 6);
    let room = 6 - (j1 - j0);
    let mut j2 = j1;
    while j2 < s.len() && j2 - j1 < room && s[j2] == '?'
        invariant
            j1 <= j2 <= s.len(),
            j2 - j1 <= room,
            room == 6 - (j1 - j0),
            qmarks_end(s@, j1 as int, room as int) == qmarks_end(
                s@,
                j2 as int,
                room - (j2 - j1),
            ),
        decreases s.len() - j2,
    {
        j2 = j2 + 1;
    }
    assert(j2 == qmarks_end(s@, j1 as int, 6 - (j1 - j0)));
    if j2 > j1 {
        let p = pow16_of(j2 - j1);
        let v = value as u64;
        assert(v * p <= 0x1000000 * 0x1000000) by (nonlinear_arith)
            requires
                v <= 0x1000000,
                p <= 0x1000000,
        ;
        let start = (v * p) as u32;
        let end = (v * p + p - 1) as u32;
        (Token::UnicodeRangeToken { start, end }, j2)
    } else if char_at(s, j1, 0) == '-' && is_hex_digit(char_at(s, j1, 1)) {
        let (last, k) = consume_hex_run(s, j1 + 1, 6);
        (Token::UnicodeRangeToken { start: value, end: last }, k)
    } else {
        (Token::UnicodeRangeToken { start: value, end: value }, j1)
    }
}

/// Tokenize a text with unicode ranges allowed (see `urange_tokenize`).
pub fn tokenization_urange(s: &Vec<char>) -> (r: Vec<CssToken>)
    ensures
        tokens_view(r@) == urange_tokenize(s@),
{
    let mut out: Vec<CssToken> = Vec::new();
    let mut i: usize = 0;
    assert(tokens_view(out@) =~= Seq::empty());
    loop
        invariant
            i <= s.len(),
            urange_tokenize(s@) == urange_tokens_from(s@, i as int, tokens_view(out@)),
        decreases s.len() - i,
    {
        let j = consume_comments(s, i);
        if j >= s.len() {
            return out;
        }
        let (t, k) = if starts_unicode_range_at(s, j) {
            consume_unicode_range(s, j)
        } else {
            consume_token(s, j)
        };
        let ghost before = tokens_view(out@);
        out.push(t);
        assert(tokens_view(out@) =~= before.push(t@));
        i = k;
    }
}

} // verus!
