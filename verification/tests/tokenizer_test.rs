use css_parser::tokenizer::{preprocessing, tokenization, tokenization_urange};
use css_parser::{normalize, CssToken, Token};

fn tokens_of(input: &str) -> Vec<CssToken> {
    tokenization(&preprocessing(input))
}

fn debug_of(input: &str) -> String {
    format!("{:?}", tokens_of(input))
}

#[test]
fn preprocessing_replaces_newlines_and_nul() {
    let out: String = preprocessing("a\r\nb\rc\u{C}d\0e").into_iter().collect();
    assert_eq!(out, "a\nb\nc\nd\u{FFFD}e");
}

#[test]
fn preprocessing_twice_is_once() {
    let once: String = preprocessing("x\r\r\n\0").into_iter().collect();
    let twice: String = preprocessing(&once).into_iter().collect();
    assert_eq!(once, twice);
}

#[test]
fn tokenize_simple_rule() {
    assert_eq!(
        debug_of("a { color: red; }"),
        "[IdentToken(\"a\"), WhitespaceToken, AcoladeOpToken, WhitespaceToken, IdentToken(\"color\"), ColonToken, WhitespaceToken, IdentToken(\"red\"), SemicolonToken, WhitespaceToken, AcoladeClToken]"
    );
}

#[test]
fn tokenize_numbers() {
    let toks = tokens_of("10px 50% -3.5e2 +.5 7");
    assert_eq!(toks.len(), 9);
    match &toks[0] {
        Token::DimensionToken { repr, is_integer, unit } => {
            assert_eq!(repr, "10");
            assert!(*is_integer);
            assert_eq!(unit, "px");
        }
        other => panic!("unexpected {:?}", other),
    }
    match &toks[2] {
        Token::PercentageToken { repr, is_integer } => {
            assert_eq!(repr, "50");
            assert!(*is_integer);
        }
        other => panic!("unexpected {:?}", other),
    }
    match &toks[4] {
        Token::NumberToken { repr, is_integer } => {
            assert_eq!(repr, "-3.5e2");
            assert!(!*is_integer);
        }
        other => panic!("unexpected {:?}", other),
    }
    match &toks[6] {
        Token::NumberToken { repr, is_integer } => {
            assert_eq!(repr, "+.5");
            assert!(!*is_integer);
        }
        other => panic!("unexpected {:?}", other),
    }
    match &toks[8] {
        Token::NumberToken { repr, is_integer } => {
            assert_eq!(repr, "7");
            assert!(*is_integer);
        }
        other => panic!("unexpected {:?}", other),
    }
}

#[test]
fn tokenize_strings() {
    assert_eq!(debug_of("\"ab\\\"c\""), "[StringToken(\"ab\\\"c\")]");
    assert_eq!(debug_of("'abc"), "[StringToken(\"abc\")]");
    assert_eq!(debug_of("'ab\ncd'"), "[BadStringToken, WhitespaceToken, IdentToken(\"cd\"), StringToken(\"\")]");
    assert_eq!(debug_of("'a\\\nb'"), "[StringToken(\"ab\")]");
}

#[test]
fn tokenize_urls() {
    assert_eq!(debug_of("url(foo.png)"), "[UrlToken(\"foo.png\")]");
    assert_eq!(debug_of("URL(  foo.png  )"), "[UrlToken(\"foo.png\")]");
    assert_eq!(debug_of("url(a b)"), "[BadUrlToken]");
    assert_eq!(debug_of("url(a\"b) c"), "[BadUrlToken, WhitespaceToken, IdentToken(\"c\")]");
    assert_eq!(
        debug_of("url( 'x' )"),
        "[FunctionToken(\"url\"), WhitespaceToken, StringToken(\"x\"), WhitespaceToken, ParenthClToken]"
    );
}

#[test]
fn tokenize_hashes() {
    assert_eq!(
        debug_of("#fff #1a"),
        "[HashToken { value: \"fff\", is_id: true }, WhitespaceToken, HashToken { value: \"1a\", is_id: false }]"
    );
    assert_eq!(debug_of("# a"), "[DelimToken('#'), WhitespaceToken, IdentToken(\"a\")]");
}

#[test]
fn tokenize_escapes() {
    assert_eq!(debug_of("\\41 b"), "[IdentToken(\"Ab\")]");
    assert_eq!(debug_of("\\0 x"), "[IdentToken(\"\u{FFFD}x\")]");
    assert_eq!(debug_of("\\110000"), "[IdentToken(\"\u{FFFD}\")]");
    assert_eq!(debug_of("a\\:b"), "[IdentToken(\"a:b\")]");
    assert_eq!(debug_of("\\\n"), "[DelimToken('\\\\'), WhitespaceToken]");
}

#[test]
fn tokenize_comments_cdo_cdc() {
    assert_eq!(debug_of("a/* c */b"), "[IdentToken(\"a\"), IdentToken(\"b\")]");
    assert_eq!(debug_of("a/* never closed"), "[IdentToken(\"a\")]");
    assert_eq!(debug_of("<!-- -->"), "[CdoToken, WhitespaceToken, CdcToken]");
}

#[test]
fn tokenize_punctuation_and_delims() {
    assert_eq!(
        debug_of("@media [x],(y)*"),
        "[AtKeywordToken(\"media\"), WhitespaceToken, CrochetOpToken, IdentToken(\"x\"), CrochetClToken, CommaToken, ParenthOpToken, IdentToken(\"y\"), ParenthClToken, DelimToken('*')]"
    );
    assert_eq!(debug_of("@ -"), "[DelimToken('@'), WhitespaceToken, DelimToken('-')]");
    assert_eq!(debug_of("rotate(45deg)"), "[FunctionToken(\"rotate\"), DimensionToken { repr: \"45\", is_integer: true, unit: \"deg\" }, ParenthClToken]");
    assert_eq!(debug_of("-webkit-x --y"), "[IdentToken(\"-webkit-x\"), WhitespaceToken, IdentToken(\"--y\")]");
}

#[test]
fn tokenize_repeated_tokens_are_kept() {
    // Two equal tokens in a row do not end tokenization.
    assert_eq!(
        debug_of("f(g()) ;;"),
        "[FunctionToken(\"f\"), FunctionToken(\"g\"), ParenthClToken, ParenthClToken, WhitespaceToken, SemicolonToken, SemicolonToken]"
    );
}

#[test]
fn normalize_gives_a_stream_at_its_start() {
    let mut stream = normalize("a b".to_string());
    assert_eq!(stream.len(), 3);
    assert!(matches!(stream.peek(), Some(Token::IdentToken(_))));
    assert!(matches!(stream.next(), Some(Token::IdentToken(_))));
    assert!(matches!(stream.next(), Some(Token::WhitespaceToken)));
    assert!(matches!(stream.next(), Some(Token::IdentToken(_))));
    assert!(stream.next().is_none());
    assert!(stream.peek().is_none());
}

#[test]
fn restoring_a_mark_goes_back() {
    let mut stream = normalize("a b c".to_string());
    let _ = stream.next();
    stream.mark();
    let _ = stream.next();
    let _ = stream.next();
    stream.unmark();
    assert!(matches!(stream.peek(), Some(Token::WhitespaceToken)));
    stream.mark();
    let _ = stream.next();
    stream.discard_mark();
    assert!(matches!(stream.peek(), Some(Token::IdentToken(_))));
    // Without a mark, restoring does nothing.
    stream.unmark();
    assert!(matches!(stream.peek(), Some(Token::IdentToken(_))));
}

#[test]
fn same_token_compares_kind_and_text() {
    let a = Token::IdentToken("x".to_string());
    let b = Token::IdentToken("x".to_string());
    let c = Token::IdentToken("y".to_string());
    let d: CssToken = Token::FunctionToken("x".to_string());
    assert!(a.same_token(&b));
    assert!(!a.same_token(&c));
    assert!(!a.same_token(&d));
    assert!(a.clone_token().same_token(&a));
}

#[test]
fn never_more_tokens_than_code_points() {
    for input in ["", "a", ";;;", "a b c", "{}()[]", "1px 2% 3", "/**/x"] {
        let chars = preprocessing(input);
        assert!(tokenization(&chars).len() <= chars.len());
    }
    assert_eq!(tokens_of(";;;").len(), 3);
}

fn urange_tokens_of(input: &str) -> Vec<CssToken> {
    tokenization_urange(&preprocessing(input))
}

#[test]
fn unicode_range_with_an_end() {
    let toks = urange_tokens_of("U+0025-00FF");
    assert_eq!(toks.len(), 1);
    assert!(matches!(toks[0], Token::UnicodeRangeToken { start: 0x25, end: 0xFF }));
}

#[test]
fn unicode_range_with_question_marks() {
    let toks = urange_tokens_of("u+4??");
    assert_eq!(toks.len(), 1);
    assert!(matches!(toks[0], Token::UnicodeRangeToken { start: 0x400, end: 0x4FF }));
    let all = urange_tokens_of("U+??????");
    assert!(matches!(all[0], Token::UnicodeRangeToken { start: 0, end: 0xFFFFFF }));
}

#[test]
fn unicode_range_of_one_code_point() {
    let toks = urange_tokens_of("U+26, u+0-7f");
    assert_eq!(toks.len(), 4);
    assert!(matches!(toks[0], Token::UnicodeRangeToken { start: 0x26, end: 0x26 }));
    assert!(matches!(toks[1], Token::CommaToken));
    assert!(matches!(toks[2], Token::WhitespaceToken));
    assert!(matches!(toks[3], Token::UnicodeRangeToken { start: 0, end: 0x7F }));
}

#[test]
fn unicode_range_only_when_allowed() {
    // without unicode ranges, `U+26` is an ident and a number
    let toks = tokens_of("U+26");
    assert_eq!(toks.len(), 2);
    assert!(matches!(&toks[0], Token::IdentToken(u) if u == "U"));
    // with them, a `u` not followed by `+` and a hex digit stays an ident
    let plain = urange_tokens_of("u+x");
    assert!(matches!(&plain[0], Token::IdentToken(u) if u == "u"));
}
