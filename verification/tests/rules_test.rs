use css_parser::{
    consume_at_rule, consume_bad_declaration, consume_block, consume_block_content,
    consume_component_list_value, consume_component_value, consume_declaration, consume_function,
    consume_qualified_rule, consume_simple_bloc, discard_whitespace, normalize, parse_string,
    parse_stylesheet, ComponentValue, CssStyleSheet, ParseError, Rule, Token,
};

#[test]
fn simple_block_value_ends_at_mirror_token() {
    let mut tokens = normalize("{ color: white; } x".to_string());
    let res = consume_simple_bloc(&mut tokens).unwrap();
    match res {
        ComponentValue::SimpleBlock { associated_token, value } => {
            assert!(matches!(associated_token, Token::AcoladeOpToken));
            // whitespace, color, colon, whitespace, white, semicolon, whitespace
            assert_eq!(value.len(), 7);
        }
        other => panic!("unexpected {:?}", other),
    }
    // the closing brace is consumed; the rest is left
    assert!(matches!(tokens.next(), Some(Token::WhitespaceToken)));
    assert!(matches!(tokens.next(), Some(Token::IdentToken(_))));
    assert!(tokens.next().is_none());
}

#[test]
fn nested_simple_blocks() {
    let mut tokens = normalize("[a (b) [c]] d".to_string());
    let res = consume_component_value(&mut tokens).unwrap();
    match res {
        ComponentValue::SimpleBlock { associated_token, value } => {
            assert!(matches!(associated_token, Token::CrochetOpToken));
            assert_eq!(value.len(), 5);
            assert!(matches!(&value[2], ComponentValue::SimpleBlock { associated_token: Token::ParenthOpToken, .. }));
            assert!(matches!(&value[4], ComponentValue::SimpleBlock { associated_token: Token::CrochetOpToken, .. }));
        }
        other => panic!("unexpected {:?}", other),
    }
    assert!(matches!(tokens.peek(), Some(Token::WhitespaceToken)));
}

#[test]
fn simple_block_errors() {
    let mut tokens = normalize("a".to_string());
    match consume_simple_bloc(&mut tokens) {
        Err(ParseError::BadToken(message)) => assert_eq!(message, "No valid opening token"),
        other => panic!("unexpected {:?}", other),
    }
    assert!(matches!(tokens.peek(), Some(Token::IdentToken(_))));
    let mut empty = normalize(String::new());
    assert!(matches!(consume_simple_bloc(&mut empty), Err(ParseError::NoToken)));
}

#[test]
fn function_errors_and_end_of_input() {
    let mut tokens = normalize("a".to_string());
    match consume_function(&mut tokens) {
        Err(ParseError::ParseError(message)) => {
            assert_eq!(message, "consuming function without function token ??")
        }
        other => panic!("unexpected {:?}", other),
    }
    assert!(matches!(tokens.peek(), Some(Token::IdentToken(_))));
    let mut unclosed = normalize("f(1, 2".to_string());
    match consume_function(&mut unclosed).unwrap() {
        ComponentValue::Function { name, component_value } => {
            assert_eq!(name, "f");
            assert_eq!(component_value.len(), 4);
        }
        other => panic!("unexpected {:?}", other),
    }
}

#[test]
fn component_value_at_end_is_no_token() {
    let mut tokens = normalize("  ".to_string());
    assert!(consume_component_value(&mut tokens).is_ok());
    assert!(matches!(consume_component_value(&mut tokens), Err(ParseError::NoToken)));
}

#[test]
fn at_rule_with_block() {
    let mut tokens = normalize("@media screen { a { color: red } } b".to_string());
    match consume_at_rule(&mut tokens, false) {
        Some(Rule::BlockAtRule { name, component_value, declarations, child_rules }) => {
            assert_eq!(name, "media");
            assert_eq!(component_value.len(), 3); // whitespace, screen, whitespace
            assert_eq!(declarations.len(), 0);
            assert_eq!(child_rules.len(), 1);
            match &child_rules[0] {
                Rule::QualifiedRule { declarations, .. } => {
                    assert_eq!(declarations.len(), 1);
                    assert_eq!(declarations[0].name, "color");
                }
                other => panic!("unexpected {:?}", other),
            }
        }
        other => panic!("unexpected {:?}", other),
    }
    assert!(matches!(tokens.next(), Some(Token::WhitespaceToken)));
}

#[test]
fn at_rule_ends_at_an_empty_block() {
    let mut tokens = normalize("@font-face {} a".to_string());
    match consume_at_rule(&mut tokens, false) {
        Some(Rule::AtRule { name, component_value }) => {
            assert_eq!(name, "font-face");
            // the whitespace before the block
            assert_eq!(component_value.len(), 1);
        }
        other => panic!("unexpected {:?}", other),
    }
    assert!(matches!(tokens.next(), Some(Token::WhitespaceToken)));
    assert!(matches!(tokens.next(), Some(Token::IdentToken(_))));
    assert!(tokens.next().is_none());
}

#[test]
fn rule_after_an_empty_at_rule_block() {
    let sheet = parse_stylesheet("@x {} y;".to_string()).unwrap();
    // the at-rule ends with its block and keeps only the whitespace before it; `y;`
    // starts a qualified rule that the end of the input leaves without a block
    assert_eq!(sheet.rules.len(), 1);
    match &sheet.rules[0] {
        Rule::AtRule { name, component_value } => {
            assert_eq!(name, "x");
            assert_eq!(component_value.len(), 1);
        }
        other => panic!("unexpected {:?}", other),
    }
}

#[test]
fn nothing_is_skipped_after_a_rejected_rule() {
    // a qualified rule whose prelude starts like a custom property gives nothing, and
    // parsing goes on right after it
    let sheet = parse_stylesheet("--x:{}a{}".to_string()).unwrap();
    assert_eq!(sheet.rules.len(), 1);
    match &sheet.rules[0] {
        Rule::QualifiedRule { component_value, .. } => {
            assert!(matches!(&component_value[0], ComponentValue::PreservedToken(Token::IdentToken(a)) if a == "a"));
        }
        other => panic!("unexpected {:?}", other),
    }
}

#[test]
fn stylesheet_with_empty_at_rule() {
    let sheet = parse_stylesheet("@font-face {}".to_string()).unwrap();
    assert_eq!(sheet.rules.len(), 1);
    match &sheet.rules[0] {
        Rule::AtRule { name, .. } => assert_eq!(name, "font-face"),
        other => panic!("unexpected {:?}", other),
    }
}

#[test]
fn nested_at_rule_ended_by_brace() {
    let mut tokens = normalize("@x y }".to_string());
    assert!(consume_at_rule(&mut tokens, true).is_none());
    assert!(matches!(tokens.peek(), Some(Token::AcoladeClToken)));
    let mut top = normalize("@x y } z;".to_string());
    match consume_at_rule(&mut top, false) {
        Some(Rule::AtRule { name, component_value }) => {
            assert_eq!(name, "x");
            // whitespace, y, whitespace, }, whitespace, z
            assert_eq!(component_value.len(), 6);
        }
        other => panic!("unexpected {:?}", other),
    }
    assert!(top.peek().is_none());
}

#[test]
fn declaration_important_ignores_case_and_spaces() {
    let mut tokens = normalize("color : red ! IMPORTANT ;".to_string());
    let decl = consume_declaration(&mut tokens, false).unwrap();
    assert_eq!(decl.name, "color");
    assert!(decl.important);
    assert_eq!(decl.component_values.len(), 1);
    assert!(decl.original_text.is_none());
    assert!(matches!(tokens.peek(), Some(Token::SemicolonToken)));
}

#[test]
fn declaration_block_conflict() {
    let mut tokens = normalize("a: {b} c;".to_string());
    assert!(consume_declaration(&mut tokens, false).is_none());
    let mut alone = normalize("a: {b};".to_string());
    assert!(consume_declaration(&mut alone, false).is_some());
    let mut custom = normalize("--a: {b} c;".to_string());
    let decl = consume_declaration(&mut custom, false).unwrap();
    assert_eq!(decl.name, "--a");
    assert_eq!(decl.component_values.len(), 3);
}

#[test]
fn bad_declaration_stops_after_semicolon() {
    let mut tokens = normalize("color red; x: y".to_string());
    assert!(consume_declaration(&mut tokens, false).is_none());
    assert!(matches!(tokens.peek(), Some(Token::WhitespaceToken)));
    let mut nested = normalize("(a) } b".to_string());
    consume_bad_declaration(&mut nested, true);
    assert!(matches!(nested.peek(), Some(Token::AcoladeClToken)));
    let mut top = normalize("(a) } b".to_string());
    consume_bad_declaration(&mut top, false);
    assert!(top.peek().is_none());
}

#[test]
fn component_list_stops() {
    let mut tokens = normalize("a b; c".to_string());
    let values = consume_component_list_value(&mut tokens, Some(Token::SemicolonToken), false);
    assert_eq!(values.len(), 3);
    assert!(matches!(tokens.peek(), Some(Token::SemicolonToken)));
    let mut braces = normalize("a } b".to_string());
    let values = consume_component_list_value(&mut braces, None, true);
    assert_eq!(values.len(), 2);
    assert!(matches!(braces.peek(), Some(Token::AcoladeClToken)));
    let mut top = normalize("a } b".to_string());
    let values = consume_component_list_value(&mut top, None, false);
    assert_eq!(values.len(), 5);
    assert!(matches!(&values[2], ComponentValue::PreservedToken(Token::AcoladeClToken)));
}

#[test]
fn discard_whitespace_stops_at_other_token() {
    let mut tokens = normalize("   a".to_string());
    discard_whitespace(&mut tokens);
    assert!(matches!(tokens.peek(), Some(Token::IdentToken(_))));
}

#[test]
fn block_and_its_contents() {
    let mut tokens = normalize("{ a: b; @x; c { d: e } } f".to_string());
    let (declarations, rules) = consume_block(&mut tokens);
    assert_eq!(declarations.len(), 1);
    assert_eq!(rules.len(), 2);
    assert!(matches!(&rules[0], Rule::AtRule { .. }));
    assert!(matches!(&rules[1], Rule::QualifiedRule { .. }));
    assert!(matches!(tokens.next(), Some(Token::WhitespaceToken)));
    let mut contents = normalize("a: b } c".to_string());
    let (declarations, rules) = consume_block_content(&mut contents);
    assert_eq!(declarations.len(), 1);
    assert_eq!(rules.len(), 0);
    assert!(matches!(contents.peek(), Some(Token::AcoladeClToken)));
    let mut not_a_block = normalize("a".to_string());
    let (declarations, rules) = consume_block(&mut not_a_block);
    assert!(declarations.is_empty() && rules.is_empty());
    assert!(matches!(not_a_block.peek(), Some(Token::IdentToken(_))));
}

#[test]
fn nested_at_rule_in_block_is_dropped() {
    let mut tokens = normalize("{ @x }".to_string());
    let (declarations, rules) = consume_block(&mut tokens);
    assert!(declarations.is_empty() && rules.is_empty());
    assert!(tokens.peek().is_none());
}

#[test]
fn qualified_rules() {
    let mut tokens = normalize("a > b { c: d }".to_string());
    match consume_qualified_rule(&mut tokens, None, false) {
        Some(Rule::QualifiedRule { component_value, declarations, child_rules }) => {
            assert_eq!(component_value.len(), 6);
            assert_eq!(declarations.len(), 1);
            assert!(child_rules.is_empty());
        }
        other => panic!("unexpected {:?}", other),
    }
    let mut stopped = normalize("a; b {}".to_string());
    assert!(consume_qualified_rule(&mut stopped, Some(Token::SemicolonToken), true).is_none());
    assert!(matches!(stopped.peek(), Some(Token::SemicolonToken)));
    let mut eof = normalize("a b".to_string());
    assert!(consume_qualified_rule(&mut eof, None, false).is_none());
    assert!(eof.peek().is_none());
    let mut custom = normalize("--x: {a} b".to_string());
    assert!(consume_qualified_rule(&mut custom, None, false).is_none());
    assert!(matches!(custom.peek(), Some(Token::WhitespaceToken)));
}

#[test]
fn stylesheet_with_several_rules() {
    let css = "@charset \"utf-8\";\n<!-- a { color: white; } -->\nb { margin: 0 }";
    let sheet = parse_stylesheet(css.to_string()).unwrap();
    assert_eq!(sheet.type_sheet, "StyleSheet");
    assert_eq!(sheet.location, "");
    assert_eq!(sheet.title, "");
    assert_eq!(sheet.base_url, "");
    assert!(sheet.parent.is_none());
    assert!(!sheet.alternate && !sheet.disabled && !sheet.origin_clean);
    assert!(!sheet.constructed && !sheet.disallow_modification);
    assert_eq!(sheet.rules.len(), 3);
    assert!(matches!(&sheet.rules[0], Rule::AtRule { .. }));
    match &sheet.rules[1] {
        Rule::QualifiedRule { declarations, .. } => {
            assert_eq!(declarations.len(), 1);
            assert_eq!(declarations[0].name, "color");
        }
        other => panic!("unexpected {:?}", other),
    }
    match &sheet.rules[2] {
        Rule::QualifiedRule { declarations, .. } => {
            assert_eq!(declarations[0].name, "margin");
        }
        other => panic!("unexpected {:?}", other),
    }
}

#[test]
fn nested_qualified_rule_in_block() {
    let rules = parse_string("a { b { c: d } e: f }".to_string()).unwrap();
    assert_eq!(rules.len(), 1);
    match &rules[0] {
        Rule::QualifiedRule { declarations, child_rules, .. } => {
            assert_eq!(declarations.len(), 1);
            assert_eq!(declarations[0].name, "e");
            assert_eq!(child_rules.len(), 1);
        }
        other => panic!("unexpected {:?}", other),
    }
}

#[test]
fn stylesheet_of_nothing() {
    let sheet = parse_stylesheet("  /* only a comment */ ".to_string()).unwrap();
    assert!(sheet.rules.is_empty());
}

#[test]
fn from_rules_gives_an_unlocated_sheet() {
    let sheet: CssStyleSheet = CssStyleSheet::from(Vec::new());
    assert_eq!(sheet.type_sheet, "StyleSheet");
    assert!(sheet.rules.is_empty());
    assert_eq!(sheet.location, "");
}

#[test]
fn declaration_value_has_no_trailing_whitespace() {
    let mut tokens = normalize("a: b c   ;".to_string());
    let decl = consume_declaration(&mut tokens, false).unwrap();
    assert_eq!(decl.component_values.len(), 3);
    assert!(!matches!(
        decl.component_values.last(),
        Some(ComponentValue::PreservedToken(Token::WhitespaceToken))
    ));
}

#[test]
fn block_ends_after_closing_brace_or_at_end() {
    let mut closed = normalize("{ a: b } c".to_string());
    let _ = consume_block(&mut closed);
    assert!(matches!(closed.peek(), Some(Token::WhitespaceToken)));
    let mut open = normalize("{ a: b".to_string());
    let (declarations, _) = consume_block(&mut open);
    assert_eq!(declarations.len(), 1);
    assert!(open.peek().is_none());
}

#[test]
fn custom_property_keeps_its_text() {
    let mut tokens = normalize("--x: a;".to_string());
    let decl = consume_declaration(&mut tokens, false).unwrap();
    assert_eq!(decl.name, "--x");
    assert_eq!(decl.original_text, Some("a".to_string()));
    let mut spaced = normalize("--y:  b  (c)  !important ;".to_string());
    let decl = consume_declaration(&mut spaced, false).unwrap();
    assert!(decl.important);
    assert_eq!(decl.original_text, Some("b  (c)".to_string()));
    let mut empty = normalize("--z:;".to_string());
    let decl = consume_declaration(&mut empty, false).unwrap();
    assert_eq!(decl.original_text, Some(String::new()));
    let mut plain = normalize("color: red;".to_string());
    assert_eq!(consume_declaration(&mut plain, false).unwrap().original_text, None);
}

#[test]
fn custom_property_text_in_a_sheet() {
    let sheet = parse_stylesheet(":root { --main: #06c /* blue */ ; }".to_string()).unwrap();
    match &sheet.rules[0] {
        Rule::QualifiedRule { declarations, .. } => {
            assert_eq!(declarations[0].original_text, Some("#06c".to_string()));
        }
        other => panic!("unexpected {:?}", other),
    }
}

#[test]
fn declaration_value_does_not_start_with_whitespace() {
    let mut tokens = normalize("a:   b;".to_string());
    let decl = consume_declaration(&mut tokens, false).unwrap();
    assert!(!matches!(
        decl.component_values.first(),
        Some(ComponentValue::PreservedToken(Token::WhitespaceToken))
    ));
    let mut bang = normalize("a: ! important ;".to_string());
    let decl = consume_declaration(&mut bang, false).unwrap();
    assert!(decl.important);
    assert!(decl.component_values.is_empty());
}

#[test]
fn unicode_range_declaration_value() {
    let mut tokens = normalize("unicode-range: U+0025-00FF;".to_string());
    let decl = consume_declaration(&mut tokens, false).unwrap();
    assert_eq!(decl.name, "unicode-range");
    assert_eq!(decl.component_values.len(), 1);
    assert!(matches!(
        decl.component_values[0],
        ComponentValue::PreservedToken(Token::UnicodeRangeToken { start: 0x25, end: 0xFF })
    ));
    assert_eq!(decl.original_text, None);
    assert!(matches!(tokens.peek(), Some(Token::SemicolonToken)));
}

#[test]
fn unicode_range_value_is_read_from_the_source_text() {
    // the name matches without regard to ASCII case; the text read again is that of
    // every token of the list, the whitespace before `;` included
    let mut tokens = normalize("UNICODE-Range: u+4??, U+26 ;".to_string());
    let decl = consume_declaration(&mut tokens, false).unwrap();
    let v = &decl.component_values;
    assert_eq!(v.len(), 5);
    assert!(matches!(v[0], ComponentValue::PreservedToken(Token::UnicodeRangeToken { start: 0x400, end: 0x4FF })));
    assert!(matches!(v[1], ComponentValue::PreservedToken(Token::CommaToken)));
    assert!(matches!(v[2], ComponentValue::PreservedToken(Token::WhitespaceToken)));
    assert!(matches!(v[3], ComponentValue::PreservedToken(Token::UnicodeRangeToken { start: 0x26, end: 0x26 })));
    assert!(matches!(v[4], ComponentValue::PreservedToken(Token::WhitespaceToken)));
    // another descriptor keeps the ordinary tokens
    let mut other = normalize("src: U+26;".to_string());
    let decl = consume_declaration(&mut other, false).unwrap();
    assert!(matches!(&decl.component_values[0], ComponentValue::PreservedToken(Token::IdentToken(u)) if u == "U"));
}

#[test]
fn unicode_range_in_a_font_face_rule() {
    let sheet = parse_stylesheet("@font-face { unicode-range: U+0-7F !important; }".to_string()).unwrap();
    match &sheet.rules[0] {
        Rule::BlockAtRule { name, declarations, .. } => {
            assert_eq!(name, "font-face");
            assert!(declarations[0].important);
            assert!(matches!(
                declarations[0].component_values[0],
                ComponentValue::PreservedToken(Token::UnicodeRangeToken { start: 0, end: 0x7F })
            ));
        }
        other => panic!("unexpected {:?}", other),
    }
}

#[test]
fn unicode_range_value_after_a_comment() {
    let mut tokens = normalize("unicode-range:  /* latin */ U+1;".to_string());
    let decl = consume_declaration(&mut tokens, false).unwrap();
    assert_eq!(decl.component_values.len(), 1);
    assert!(matches!(
        decl.component_values[0],
        ComponentValue::PreservedToken(Token::UnicodeRangeToken { start: 1, end: 1 })
    ));
}
