use vstd::prelude::*;

use crate::chars::{ascii_ci_eq, ascii_ci_eq_string};
use crate::parse_spec::{
    at_rule, at_rule_rest, bad_declaration, block, block_contents, block_values, component_value,
    declaration, discard_ws, first_non_ws, function_value, has_block_conflict, important_name,
    is_block_opening, is_curly_block, is_custom_property_name, is_important_ident, is_non_ws,
    last_non_ws, lemma_at_rule_bounds, lemma_block_bounds, lemma_component_value_bounds, lemma_declaration_bounds,
    lemma_qualified_rule_rest_bounds, list_values, mirror, parse_rules, qualified_rule,
    qualified_rule_rest, simple_block, starts_custom_property, strip_important, stylesheet_rules,
    lemma_values_end_step, segment, source_map_of, tk, trim_trailing_ws, unicode_range_name,
    unicode_range_value, values_end, ws_value,
};
use crate::stream::TokenStream;
use crate::syntax::{
    cv_view, cvs_view, decls_view, lemma_cvs_view_drop_last, lemma_cvs_view_index,
    lemma_cvs_view_push, lemma_cvs_view_remove, lemma_decls_view_push, lemma_rules_view_push,
    rules_view, ComponentValue, Declaration, ParseError, Rule, SpecComponentValue,
    SpecDeclaration, SpecRule,
};
use crate::token::{CssToken, SpecToken, Token};
use crate::token_spec::{preprocess, tokenize};
use crate::tokenizer::{chars_of, preprocessing, tokenization_urange};

verus! {

/// `b` is the stream `a` after some tokens were consumed: same tokens, same text, same marks.
pub open spec fn same_tokens(a: TokenStream, b: TokenStream) -> bool {
    &&& b.wf()
    &&& b.toks() == a.toks()
    &&& b.source_map() == a.source_map()
    &&& b.marks() == a.marks()
}

fn is_opening(tok: &CssToken) -> (r: bool)
    ensures
        r == is_block_opening(tok@),
{
    match tok {
        Token::AcoladeOpToken | Token::CrochetOpToken | Token::ParenthOpToken => true,
        _ => false,
    }
}

/// The token that ends a simple block opened by `opening`.
fn mirror_token(opening: &CssToken) -> (r: CssToken)
    ensures
        r@ == mirror(opening@),
{
    match opening {
        Token::AcoladeOpToken => Token::AcoladeClToken,
        Token::CrochetOpToken => Token::CrochetClToken,
        _ => Token::ParenthClToken,
    }
}

/// <https://drafts.csswg.org/css-syntax/#consume-a-component-value>
///
/// * <{-token> <[-token> `<(-token>`: consume a simple block and return it.
/// * \<function-token>: consume a function and return it.
/// * anything else: consume a token and return it.
///
/// At the end of the input there is no component value: `Err(NoToken)`.
pub fn consume_component_value(tokens: &mut TokenStream) -> (r: Result<ComponentValue, ParseError>)
    requires
        old(tokens).wf(),
    ensures
        same_tokens(*old(tokens), *final(tokens)),
        match r {
            Ok(c) => component_value(old(tokens).toks(), old(tokens).position()) == Some(
                (c@, final(tokens).position()),
            ),
            Err(e) => component_value(old(tokens).toks(), old(tokens).position()) is None && e is NoToken
                && final(tokens).position() == old(tokens).position(),
        },
    decreases old(tokens).toks().len() - old(tokens).position(), 1int,
{
    proof {
        tokens.lemma_wf();
    }
    match tokens.peek() {
        Some(token) => {
            if is_opening(&token) {
                consume_simple_bloc(tokens)
            } else if let Token::FunctionToken(_) = token {
                consume_function(tokens)
            } else {
                let _ = tokens.next();
                Ok(ComponentValue::PreservedToken(token))
            }
        },
        None => Err(ParseError::NoToken),
    }
}


/// Consume component values up to and including the token `end`, or up to the end of the input.
fn consume_values_until(tokens: &mut TokenStream, end: &CssToken) -> (r: Vec<ComponentValue>)
    requires
        old(tokens).wf(),
    ensures
        same_tokens(*old(tokens), *final(tokens)),
        block_values(old(tokens).toks(), old(tokens).position(), end@, Seq::empty()) == (
            cvs_view(r@),
            final(tokens).position(),
        ),
    decreases old(tokens).toks().len() - old(tokens).position(), 2int,
{
    let ghost t = tokens.toks();
    let ghost m = tokens.source_map();
    let ghost start = tokens.position();
    let mut values: Vec<ComponentValue> = Vec::new();
    assert(cvs_view(values@) =~= Seq::empty());
    loop
        invariant
            same_tokens(*old(tokens), *tokens),
            t == old(tokens).toks(),
            m == old(tokens).source_map(),
            start == old(tokens).position(),
            start <= tokens.position(),
            block_values(t, start, end@, Seq::empty()) == block_values(
                t,
                tokens.position(),
                end@,
                cvs_view(values@),
            ),
        decreases t.len() - tokens.position(),
    {
        proof {
            tokens.lemma_wf();
        }
        match tokens.peek() {
            None => {
                return values;
            },
            Some(token) => {
                if token.same_token(end) {
                    let _ = tokens.next();
                    return values;
                }
                let ghost before = tokens.position();
                proof {
                    lemma_component_value_bounds(t, before);
                }
                match consume_component_value(tokens) {
                    Ok(v) => {
                        proof {
                            lemma_cvs_view_push(values@, v);
                        }
                        values.push(v);
                        assert(before < tokens.position());
                    },
                    Err(_) => {
                        return values;
                    },
                }
            },
        }
    }
}

/// <https://drafts.csswg.org/css-syntax/#consume-a-simple-block>
///
/// Assert: the next token of input is `<{-token>`, `<[-token>`, or `<(-token>`.
///
/// Let ending token be the mirror variant of the next token. (E.g. if it was called with
/// `<[-token>`, the ending token is `<]-token>`.)
///
/// Let block be a new simple block with its associated token set to the next token and with
/// its value initially set to an empty list.
///
/// Discard a token from input.
///
/// Process input:
/// * \<eof-token> ending token
///     * Discard a token from input. Return block.
/// * anything else
///     * Consume a component value from input and append the result to block's value.
pub fn consume_simple_bloc(tokens: &mut TokenStream) -> (r: Result<ComponentValue, ParseError>)
    requires
        old(tokens).wf(),
    ensures
        same_tokens(*old(tokens), *final(tokens)),
        match r {
            Ok(c) => {
                &&& tk(old(tokens).toks(), old(tokens).position()) matches Some(tok)
                    && is_block_opening(tok)
                &&& simple_block(old(tokens).toks(), old(tokens).position()) == (
                    c@,
                    final(tokens).position(),
                )
            },
            Err(e) => {
                &&& final(tokens).position() == old(tokens).position()
                &&& match tk(old(tokens).toks(), old(tokens).position()) {
                    Some(tok) => !is_block_opening(tok) && e is BadToken && e->BadToken_0@
                        == "No valid opening token"@,
                    None => e is NoToken,
                }
            },
        },
    decreases old(tokens).toks().len() - old(tokens).position(), 0int,
{
    proof {
        tokens.lemma_wf();
    }
    match tokens.peek() {
        Some(opening) => {
            if is_opening(&opening) {
                let end = mirror_token(&opening);
                let _ = tokens.next();
                let value = consume_values_until(tokens, &end);
                Ok(ComponentValue::SimpleBlock { associated_token: opening, value })
            } else {
                Err(ParseError::BadToken(String::from_str("No valid opening token")))
            }
        },
        None => Err(ParseError::NoToken),
    }
}

/// <https://drafts.csswg.org/css-syntax/#consume-a-function>
///
/// Assert: The next token is a `<function-token>`.
///
/// Consume a token from input, and let function be a new function with its name equal the
/// returned token's value, and a value set to an empty list.
///
/// Process input:
/// * \<eof-token> <)-token>
///     * Discard a token from input. Return function.
/// * anything else
///     * Consume a component value from input and append the result to function's value.
pub fn consume_function(tokens: &mut TokenStream) -> (r: Result<ComponentValue, ParseError>)
    requires
        old(tokens).wf(),
    ensures
        same_tokens(*old(tokens), *final(tokens)),
        match r {
            Ok(c) => {
                &&& tk(old(tokens).toks(), old(tokens).position()) matches Some(tok)
                    && tok is FunctionToken
                &&& function_value(old(tokens).toks(), old(tokens).position()) == (
                    c@,
                    final(tokens).position(),
                )
            },
            Err(e) => {
                &&& final(tokens).position() == old(tokens).position()
                &&& !(tk(old(tokens).toks(), old(tokens).position()) matches Some(tok)
                    && tok is FunctionToken)
                &&& e is ParseError
                &&& e->ParseError_0@ == "consuming function without function token ??"@
            },
        },
    decreases old(tokens).toks().len() - old(tokens).position(), 0int,
{
    proof {
        tokens.lemma_wf();
    }
    match tokens.peek() {
        Some(Token::FunctionToken(name)) => {
            let _ = tokens.next();
            let value = consume_values_until(tokens, &Token::ParenthClToken);
            Ok(ComponentValue::Function { name, component_value: value })
        },
        _ => Err(
            ParseError::ParseError(String::from_str("consuming function without function token ??")),
        ),
    }
}


/// The model of an optional token.
pub open spec fn opt_token_view(t: Option<CssToken>) -> Option<SpecToken> {
    match t {
        Some(t) => Some(t@),
        None => None,
    }
}

/// <https://drafts.csswg.org/css-syntax/#consume-a-list-of-component-values>
///
/// Let values be an empty list of component values.
///
/// Process input:
/// * \<eof-token>, stop token (if passed)
///
///     Return values.
/// * <}-token>
///
///     If nested is true, return values.
///
///     Otherwise, this is a parse error. Consume a token from input and append the result to values.
/// * anything else
///
///     Consume a component value from input, and append the result to values.
pub fn consume_component_list_value(
    tokens: &mut TokenStream,
    stop_token: Option<CssToken>,
    nested: bool,
) -> (r: Vec<ComponentValue>)
    requires
        old(tokens).wf(),
    ensures
        same_tokens(*old(tokens), *final(tokens)),
        list_values(
            old(tokens).toks(),
            old(tokens).position(),
            opt_token_view(stop_token),
            nested,
            Seq::empty(),
        ) == (cvs_view(r@), final(tokens).position()),
{
    consume_values_with_ends(tokens, stop_token, nested).0
}

/// Consume a list of component values (see `consume_component_list_value`); also give,
/// for each value, the index of the token after it.
fn consume_values_with_ends(
    tokens: &mut TokenStream,
    stop_token: Option<CssToken>,
    nested: bool,
) -> (r: (Vec<ComponentValue>, Vec<usize>))
    requires
        old(tokens).wf(),
    ensures
        same_tokens(*old(tokens), *final(tokens)),
        list_values(
            old(tokens).toks(),
            old(tokens).position(),
            opt_token_view(stop_token),
            nested,
            Seq::empty(),
        ) == (cvs_view(r.0@), final(tokens).position()),
        r.1@.len() == r.0@.len(),
        forall|k: int|
            0 <= k < r.1@.len() ==> #[trigger] r.1@[k] == values_end(
                old(tokens).toks(),
                old(tokens).position(),
                (k + 1) as nat,
            ) && old(tokens).position() <= r.1@[k] <= old(tokens).toks().len(),
{
    let ghost t = tokens.toks();
    let ghost m = tokens.source_map();
    let ghost start = tokens.position();
    let ghost stop = opt_token_view(stop_token);
    let mut res: Vec<ComponentValue> = Vec::new();
    let mut ends: Vec<usize> = Vec::new();
    assert(cvs_view(res@) =~= Seq::empty());
    loop
        invariant
            same_tokens(*old(tokens), *tokens),
            t == old(tokens).toks(),
            m == old(tokens).source_map(),
            start == old(tokens).position(),
            stop == opt_token_view(stop_token),
            start <= tokens.position(),
            list_values(t, start, stop, nested, Seq::empty()) == list_values(
                t,
                tokens.position(),
                stop,
                nested,
                cvs_view(res@),
            ),
            ends@.len() == res@.len(),
            tokens.position() == values_end(t, start, res@.len()),
            forall|k: int|
                0 <= k < ends@.len() ==> #[trigger] ends@[k] == values_end(t, start, (k + 1) as nat)
                    && start <= ends@[k] <= t.len(),
        decreases t.len() - tokens.position(),
    {
        proof {
            tokens.lemma_wf();
        }
        let ghost before = tokens.position();
        match tokens.peek() {
            None => {
                return (res, ends);
            },
            Some(token) => {
                let is_stop = match &stop_token {
                    Some(s) => token.same_token(s),
                    None => false,
                };
                if is_stop {
                    return (res, ends);
                }
                if let Token::AcoladeClToken = token {
                    if nested {
                        return (res, ends);
                    }
                    let _ = tokens.next();
                    proof {
                        lemma_cvs_view_push(res@, ComponentValue::PreservedToken(token));
                        lemma_values_end_step(t, start, res@.len());
                    }
                    res.push(ComponentValue::PreservedToken(token));
                    ends.push(tokens.pos());
                } else {
                    proof {
                        lemma_component_value_bounds(t, before);
                    }
                    match consume_component_value(tokens) {
                        Ok(v) => {
                            proof {
                                lemma_cvs_view_push(res@, v);
                                lemma_values_end_step(t, start, res@.len());
                            }
                            res.push(v);
                            ends.push(tokens.pos());
                        },
                        Err(_) => {
                            return (res, ends);
                        },
                    }
                }
            },
        }
    }
}

/// Discard the whitespace tokens at the front of the input.
pub fn discard_whitespace(tokens: &mut TokenStream)
    requires
        old(tokens).wf(),
    ensures
        same_tokens(*old(tokens), *final(tokens)),
        final(tokens).position() == discard_ws(old(tokens).toks(), old(tokens).position()),
{
    let ghost t = tokens.toks();
    let ghost m = tokens.source_map();
    let ghost start = tokens.position();
    loop
        invariant
            same_tokens(*old(tokens), *tokens),
            t == old(tokens).toks(),
            m == old(tokens).source_map(),
            start == old(tokens).position(),
            discard_ws(t, start) == discard_ws(t, tokens.position()),
        decreases t.len() - tokens.position(),
    {
        proof {
            tokens.lemma_wf();
        }
        match tokens.peek() {
            Some(Token::WhitespaceToken) => {
                let _ = tokens.next();
            },
            _ => {
                return;
            },
        }
    }
}

/// To consume the remnants of a bad declaration from a token stream input, given a bool nested:
///
/// Process input:
///
/// * \<eof-token>, \<semicolon-token>
///     Discard a token from input, and return nothing.
/// * <}-token>
///     If nested is true, return nothing. Otherwise, discard a token.
/// * anything else
///     Consume a component value from input, and do nothing.
pub fn consume_bad_declaration(tokens: &mut TokenStream, nested: bool)
    requires
        old(tokens).wf(),
    ensures
        same_tokens(*old(tokens), *final(tokens)),
        final(tokens).position() == bad_declaration(
            old(tokens).toks(),
            old(tokens).position(),
            nested,
        ),
{
    let ghost t = tokens.toks();
    let ghost m = tokens.source_map();
    let ghost start = tokens.position();
    loop
        invariant
            same_tokens(*old(tokens), *tokens),
            t == old(tokens).toks(),
            m == old(tokens).source_map(),
            start == old(tokens).position(),
            bad_declaration(t, start, nested) == bad_declaration(t, tokens.position(), nested),
        decreases t.len() - tokens.position(),
    {
        proof {
            tokens.lemma_wf();
        }
        let ghost before = tokens.position();
        match tokens.peek() {
            None => {
                return;
            },
            Some(Token::SemicolonToken) => {
                let _ = tokens.next();
                return;
            },
            Some(Token::AcoladeClToken) => {
                if nested {
                    return;
                }
                let _ = tokens.next();
            },
            Some(_) => {
                proof {
                    lemma_component_value_bounds(t, before);
                }
                let _ = consume_component_value(tokens);
            },
        }
    }
}


fn is_ws_value(c: &ComponentValue) -> (r: bool)
    ensures
        r == (c@ == ws_value()),
{
    match c {
        ComponentValue::PreservedToken(Token::WhitespaceToken) => true,
        _ => false,
    }
}

fn is_bang(c: &ComponentValue) -> (r: bool)
    ensures
        r == (c@ == SpecComponentValue::PreservedToken(Token::DelimToken('!'))),
{
    match c {
        ComponentValue::PreservedToken(Token::DelimToken(d)) => *d == '!',
        _ => false,
    }
}

fn is_important(c: &ComponentValue) -> (r: bool)
    ensures
        r == is_important_ident(c@),
{
    match c {
        ComponentValue::PreservedToken(Token::IdentToken(x)) => {
            assert(['i', 'm', 'p', 'o', 'r', 't', 'a', 'n', 't']@ =~= important_name());
            ascii_ci_eq_string(x, &['i', 'm', 'p', 'o', 'r', 't', 'a', 'n', 't'])
        },
        _ => false,
    }
}

fn is_curly(c: &ComponentValue) -> (r: bool)
    ensures
        r == is_curly_block(c@),
{
    match c {
        ComponentValue::SimpleBlock { associated_token: Token::AcoladeOpToken, .. } => true,
        _ => false,
    }
}

/// The index of the last value before index `k` that is not whitespace.
fn last_non_ws_before(v: &Vec<ComponentValue>, k: usize) -> (r: Option<usize>)
    requires
        k <= v.len(),
    ensures
        match r {
            Some(i) => i == last_non_ws(cvs_view(v@), k as int) && i < k,
            None => last_non_ws(cvs_view(v@), k as int) == -1,
        },
{
    proof {
        lemma_cvs_view_index(v@);
    }
    let mut j = k;
    while j > 0
        invariant
            j <= k <= v.len(),
            cvs_view(v@).len() == v@.len(),
            forall|i: int| 0 <= i < v@.len() ==> #[trigger] cvs_view(v@)[i] == cv_view(v@[i]),
            last_non_ws(cvs_view(v@), k as int) == last_non_ws(cvs_view(v@), j as int),
        decreases j,
    {
        if !is_ws_value(&v[j - 1]) {
            return Some(j - 1);
        }
        j = j - 1;
    }
    None
}

/// Remove a final `! important` (see `strip_important`); whether it was there.
fn strip_important_flag(v: &mut Vec<ComponentValue>) -> (important: bool)
    ensures
        (cvs_view(final(v)@), important) == strip_important(cvs_view(old(v)@)),
        final(v)@.len() <= old(v)@.len(),
{
    proof {
        lemma_cvs_view_index(v@);
    }
    let n = v.len();
    match last_non_ws_before(v, n) {
        None => false,
        Some(a) => match last_non_ws_before(v, a) {
            None => false,
            Some(b) => {
                if is_bang(&v[b]) && is_important(&v[a]) {
                    proof {
                        lemma_cvs_view_remove(v@, a as int);
                        lemma_cvs_view_remove(v@.remove(a as int), b as int);
                    }
                    let _ = v.remove(a);
                    let _ = v.remove(b);
                    true
                } else {
                    false
                }
            },
        },
    }
}

/// Remove the whitespace tokens at the end of the value.
fn trim_trailing_whitespace(v: &mut Vec<ComponentValue>)
    ensures
        cvs_view(final(v)@) == trim_trailing_ws(cvs_view(old(v)@)),
        final(v)@.len() <= old(v)@.len(),
{
    loop
        invariant
            trim_trailing_ws(cvs_view(old(v)@)) == trim_trailing_ws(cvs_view(v@)),
            v@.len() <= old(v)@.len(),
        decreases v.len(),
    {
        if v.len() == 0 {
            return;
        }
        proof {
            lemma_cvs_view_drop_last(v@);
        }
        if !is_ws_value(&v[v.len() - 1]) {
            return;
        }
        let _ = v.pop();
    }
}

/// Whether the value holds a `{}` block and another value that is not whitespace.
fn has_conflict(v: &Vec<ComponentValue>) -> (r: bool)
    ensures
        r == has_block_conflict(cvs_view(v@)),
{
    let ghost m = cvs_view(v@);
    proof {
        lemma_cvs_view_index(v@);
    }
    let mut i: usize = 0;
    while i < v.len() && !is_curly(&v[i])
        invariant
            i <= v.len(),
            m == cvs_view(v@),
            m.len() == v@.len(),
            forall|k: int| 0 <= k < v@.len() ==> #[trigger] m[k] == cv_view(v@[k]),
            forall|k: int| 0 <= k < i ==> !is_curly_block(#[trigger] m[k]),
        decreases v.len() - i,
    {
        i = i + 1;
    }
    if i == v.len() {
        return false;
    }
    let mut j: usize = 0;
    while j < v.len()
        invariant
            i < v.len(),
            j <= v.len(),
            m == cvs_view(v@),
            m.len() == v@.len(),
            forall|k: int| 0 <= k < v@.len() ==> #[trigger] m[k] == cv_view(v@[k]),
            forall|k: int| 0 <= k < i ==> !is_curly_block(#[trigger] m[k]),
            is_curly_block(m[i as int]),
            forall|k: int| 0 <= k < j && k != i ==> !is_non_ws(#[trigger] m[k]),
        decreases v.len() - j,
    {
        if j != i && !is_ws_value(&v[j]) {
            assert(is_curly_block(m[i as int]) && is_non_ws(m[j as int]));
            assert(has_block_conflict(m));
            return true;
        }
        j = j + 1;
    }
    assert(!has_block_conflict(m)) by {
        if has_block_conflict(m) {
            let (p, q) = choose|p: int, q: int|
                0 <= p < m.len() && 0 <= q < m.len() && p != q && #[trigger] is_curly_block(m[p])
                    && #[trigger] is_non_ws(m[q]);
            if q != i {
                assert(!is_non_ws(m[q]));
            } else {
                assert(!is_non_ws(m[p]));
            }
        }
    }
    false
}

/// Whether the name is a custom property name: it starts with two dashes.
fn is_custom_name(name: &String) -> (r: bool)
    ensures
        r == is_custom_property_name(name@),
{
    let t = name.as_str();
    t.unicode_len() >= 2 && t.get_char(0) == '-' && t.get_char(1) == '-'
}

/// Whether the name is "unicode-range", ignoring ASCII case.
fn is_unicode_range_name(name: &String) -> (r: bool)
    ensures
        r == ascii_ci_eq(name@, unicode_range_name()),
{
    let word = ['u', 'n', 'i', 'c', 'o', 'd', 'e', '-', 'r', 'a', 'n', 'g', 'e'];
    assert(word@ =~= unicode_range_name());
    ascii_ci_eq_string(name, &word)
}

/// The value of a unicode-range descriptor whose source text is `text`.
fn unicode_range_values(text: &String) -> (r: Vec<ComponentValue>)
    ensures
        cvs_view(r@) == unicode_range_value(text@),
{
    let chars = chars_of(text.as_str());
    let mut sub = TokenStream::new(tokenization_urange(&chars));
    consume_component_list_value(&mut sub, None, false)
}

/// The model of an optional declaration.
pub open spec fn opt_decl_view(d: Option<Declaration>) -> Option<SpecDeclaration> {
    match d {
        Some(d) => Some(d@),
        None => None,
    }
}

/// <https://drafts.csswg.org/css-syntax/#consume-a-declaration>
/// Let decl be a new declaration, with an initially empty name and a value set to an empty list.
/// 1. If the next token is an `<ident-token>`, consume a token from input and set decl's name to the token's value.
///
///     Otherwise, consume the remnants of a bad declaration from input, with nested, and return nothing.
/// 2. Discard whitespace from input.
/// 3. If the next token is a `<colon-token>`, discard a token from input.
///
///     Otherwise, consume the remnants of a bad declaration from input, with nested, and return nothing.
/// 4. Discard whitespace from input.
/// 5. Consume a list of component values from input, with nested, and with `<semicolon-token>` as the stop token, and set decl's value to the result.
/// 6. If the last two non-`<whitespace-token>`s in decl's value are a `<delim-token>` with the value "!" followed by an `<ident-token>` with a value that is an ASCII case-insensitive match for "important", remove them from decl's value and set decl's important flag.
/// 7. While the last item in decl's value is a `<whitespace-token>`, remove that token.
/// 8. If decl's name is a custom property name string, then set decl's original text to the segment of the original source text string corresponding to the tokens of decl's value.
///
///     Otherwise, if decl's value contains a top-level simple block with an associated token of `<{-token>`, and also contains any other non-<whitespace-token> value, return nothing. (That is, a top-level {}-block is only allowed as the entire value of a non-custom property.)
///
///     Otherwise, if decl's name is an ASCII case-insensitive match for "unicode-range", consume the value of a unicode-range descriptor from the segment of the original source text string corresponding to the tokens returned by the consume a list of component values call, and replace decl's value with the result.
/// 9. If decl is valid in the current context, return it; otherwise return nothing.
///
/// The original source text is the text of the stream, as preprocessing gave it; every
/// declaration is valid.
pub fn consume_declaration(tokens: &mut TokenStream, nested: bool) -> (r: Option<Declaration>)
    requires
        old(tokens).wf(),
    ensures
        same_tokens(*old(tokens), *final(tokens)),
        declaration(old(tokens).toks(), old(tokens).source_map(), old(tokens).position(), nested) == (
            opt_decl_view(r),
            final(tokens).position(),
        ),
{
    proof {
        tokens.lemma_wf();
    }
    let name = match tokens.peek() {
        Some(Token::IdentToken(n)) => {
            let _ = tokens.next();
            n
        },
        _ => {
            consume_bad_declaration(tokens, nested);
            return None;
        },
    };
    discard_whitespace(tokens);
    proof {
        tokens.lemma_wf();
    }
    match tokens.peek() {
        Some(Token::ColonToken) => {
            let _ = tokens.next();
        },
        _ => {
            consume_bad_declaration(tokens, nested);
            return None;
        },
    }
    discard_whitespace(tokens);
    proof {
        tokens.lemma_wf();
    }
    let start = tokens.pos();
    let (mut component_values, ends) = consume_values_with_ends(
        tokens,
        Some(Token::SemicolonToken),
        nested,
    );
    let ghost values_len = component_values@.len();
    proof {
        lemma_cvs_view_index(component_values@);
    }
    let important = strip_important_flag(&mut component_values);
    trim_trailing_whitespace(&mut component_values);
    if is_custom_name(&name) {
        let n = component_values.len();
        assert(n <= values_len);
        assert(ends@.len() == values_len);
        let end = if n == 0 {
            start
        } else {
            ends[n - 1]
        };
        assert(start <= end);
        assert(end <= tokens.toks().len());
        proof {
            lemma_cvs_view_index(component_values@);
        }
        assert(end == values_end(tokens.toks(), start as int, cvs_view(component_values@).len()));
        let original_text = tokens.source_text(start, end);
        return Some(
            Declaration { name, component_values, important, original_text: Some(original_text) },
        );
    }
    if has_conflict(&component_values) {
        return None;
    }
    if is_unicode_range_name(&name) {
        let n = ends.len();
        let end = if n == 0 {
            start
        } else {
            ends[n - 1]
        };
        assert(end == values_end(tokens.toks(), start as int, values_len));
        let text = tokens.source_text(start, end);
        let component_values = unicode_range_values(&text);
        return Some(Declaration { name, component_values, important, original_text: None });
    }
    Some(Declaration { name, component_values, important, original_text: None })
}


/// The model of an optional rule.
pub open spec fn opt_rule_view(r: Option<Rule>) -> Option<SpecRule> {
    match r {
        Some(r) => Some(r@),
        None => None,
    }
}

/// <https://drafts.csswg.org/css-syntax/#consume-a-block>
///
/// Assert: The next token is a `<{-token>`.
///
/// Discard a token from input. Consume a block's contents from input and assign the results to
/// decls and rules. Discard a token from input. Return decls and rules.
pub fn consume_block(tokens: &mut TokenStream) -> (r: (Vec<Declaration>, Vec<Rule>))
    requires
        old(tokens).wf(),
    ensures
        same_tokens(*old(tokens), *final(tokens)),
        block(old(tokens).toks(), old(tokens).source_map(), old(tokens).position()) == (
            decls_view(r.0@),
            rules_view(r.1@),
            final(tokens).position(),
        ),
    decreases old(tokens).toks().len() - old(tokens).position(), 0int,
{
    proof {
        tokens.lemma_wf();
    }
    match tokens.peek() {
        Some(Token::AcoladeOpToken) => {
            let _ = tokens.next();
            let (declarations, rules) = consume_block_content(tokens);
            proof {
                tokens.lemma_wf();
            }
            if let Some(Token::AcoladeClToken) = tokens.peek() {
                let _ = tokens.next();
            }
            (declarations, rules)
        },
        _ => {
            let declarations: Vec<Declaration> = Vec::new();
            let rules: Vec<Rule> = Vec::new();
            assert(decls_view(declarations@) =~= Seq::empty());
            assert(rules_view(rules@) =~= Seq::empty());
            (declarations, rules)
        },
    }
}

/// <https://drafts.csswg.org/css-syntax/#consume-block-contents>
///
/// Let decls be an empty list of declarations, and rules be an empty list of rules.
///
/// Process input:
///
/// * \<whitespace-token> \<semicolon-token>
///     * Discard a token from input.
/// * \<EOF-token> <}-token>
///     * Return decls and rules.
/// * \<at-keyword-token>
///     * Consume an at-rule from input, with nested set to true. If a rule was returned, append it to rules.
/// * anything else
///     * Mark input.
///     * Consume a declaration from input, with nested set to true. If a declaration was returned, append it to decls, and discard a mark from input.
///     * Otherwise, restore a mark from input, then consume a qualified rule from input, with nested set to true, and `<semicolon-token>` as the stop token. If a rule was returned, append it to rules.
pub fn consume_block_content(tokens: &mut TokenStream) -> (r: (Vec<Declaration>, Vec<Rule>))
    requires
        old(tokens).wf(),
    ensures
        same_tokens(*old(tokens), *final(tokens)),
        block_contents(old(tokens).toks(), old(tokens).source_map(), old(tokens).position(), Seq::empty(), Seq::empty()) == (
            decls_view(r.0@),
            rules_view(r.1@),
            final(tokens).position(),
        ),
    decreases old(tokens).toks().len() - old(tokens).position(), 3int,
{
    let ghost t = tokens.toks();
    let ghost m = tokens.source_map();
    let ghost start = tokens.position();
    let mut rules: Vec<Rule> = Vec::new();
    let mut declarations: Vec<Declaration> = Vec::new();
    assert(decls_view(declarations@) =~= Seq::empty());
    assert(rules_view(rules@) =~= Seq::empty());
    loop
        invariant
            same_tokens(*old(tokens), *tokens),
            t == old(tokens).toks(),
            m == old(tokens).source_map(),
            start == old(tokens).position(),
            start <= tokens.position(),
            block_contents(t, m, start, Seq::empty(), Seq::empty()) == block_contents(
                t,
                m,
                tokens.position(),
                decls_view(declarations@),
                rules_view(rules@),
            ),
        decreases t.len() - tokens.position(),
    {
        proof {
            tokens.lemma_wf();
        }
        let ghost i = tokens.position();
        match tokens.peek() {
            None => {
                return (declarations, rules);
            },
            Some(token) => {
                match token {
                    Token::WhitespaceToken | Token::SemicolonToken => {
                        let _ = tokens.next();
                    },
                    Token::AcoladeClToken => {
                        return (declarations, rules);
                    },
                    Token::AtKeywordToken(_) => {
                        proof {
                            lemma_at_rule_bounds(t, m, i, true);
                        }
                        let at_rule = consume_at_rule(tokens, true);
                        if let Some(rule) = at_rule {
                            proof {
                                lemma_rules_view_push(rules@, rule);
                            }
                            rules.push(rule);
                        }
                    },
                    _ => {
                        let ghost marks = tokens.marks();
                        tokens.mark();
                        assert(tokens.marks().drop_last() =~= marks);
                        proof {
                            lemma_declaration_bounds(t, m, i, true);
                        }
                        match consume_declaration(tokens, true) {
                            Some(decl) => {
                                proof {
                                    lemma_decls_view_push(declarations@, decl);
                                }
                                declarations.push(decl);
                                tokens.discard_mark();
                            },
                            None => {
                                tokens.unmark();
                                proof {
                                    lemma_qualified_rule_rest_bounds(
                                        t,
                                        m,
                                        i,
                                        Some(Token::SemicolonToken),
                                        true,
                                        Seq::empty(),
                                    );
                                }
                                if let Some(rule) = consume_qualified_rule(
                                    tokens,
                                    Some(Token::SemicolonToken),
                                    true,
                                ) {
                                    proof {
                                        lemma_rules_view_push(rules@, rule);
                                    }
                                    rules.push(rule);
                                }
                            },
                        }
                    },
                }
            },
        }
    }
}

/// <https://drafts.csswg.org/css-syntax/#consume-at-rule>
///
/// Assert: The next token is an `<at-keyword-token>`.
///
/// Consume a token from input, and let rule be a new at-rule with its name set to the returned token's value, its prelude initially set to an empty list, and no declarations or child rules.
///
/// Process input:
///
/// * \<semicolon-token> \<EOF-token>
///     * Discard a token from input. If rule is valid in the current context, return it; otherwise return nothing.
/// * <}-token>
///     * If nested is true:
///         * If rule is valid in the current context, return it.
///         * Otherwise, return nothing.
///     * Otherwise, consume a token and append the result to rule's prelude.
/// * <{-token>
///     * Consume a block from input, and assign the results to rule's lists of declarations and child rules.
///     If rule is valid in the current context, return it. Otherwise, return nothing.
/// * anything else
///     * Consume a component value from input and append the returned value to rule's prelude.
///
/// Validity: a rule ended by `;`, by the end of the input or by its `{}` block is valid; it
/// is a block at-rule when the block gave it declarations or child rules, and a plain
/// at-rule otherwise. A nested rule ended by a `}` has no block, and is not valid.
pub fn consume_at_rule(tokens: &mut TokenStream, nested: bool) -> (r: Option<Rule>)
    requires
        old(tokens).wf(),
    ensures
        same_tokens(*old(tokens), *final(tokens)),
        at_rule(old(tokens).toks(), old(tokens).source_map(), old(tokens).position(), nested) == (
            opt_rule_view(r),
            final(tokens).position(),
        ),
    decreases old(tokens).toks().len() - old(tokens).position(), 2int,
{
    let ghost t = tokens.toks();
    let ghost m = tokens.source_map();
    let ghost start = tokens.position();
    proof {
        tokens.lemma_wf();
    }
    let name = match tokens.peek() {
        Some(Token::AtKeywordToken(name)) => name,
        _ => {
            return None;
        },
    };
    let _ = tokens.next();
    let mut prelude: Vec<ComponentValue> = Vec::new();
    assert(cvs_view(prelude@) =~= Seq::empty());
    loop
        invariant
            same_tokens(*old(tokens), *tokens),
            t == old(tokens).toks(),
            m == old(tokens).source_map(),
            start == old(tokens).position(),
            start < tokens.position(),
            at_rule(t, m, start, nested) == at_rule_rest(
                t,
                m,
                tokens.position(),
                name@,
                nested,
                cvs_view(prelude@),
            ),
        decreases t.len() - tokens.position(),
    {
        proof {
            tokens.lemma_wf();
        }
        let ghost i = tokens.position();
        match tokens.peek() {
            None => {
                return Some(Rule::AtRule { name, component_value: prelude });
            },
            Some(token) => {
                match token {
                    Token::SemicolonToken => {
                        let _ = tokens.next();
                        return Some(Rule::AtRule { name, component_value: prelude });
                    },
                    Token::AcoladeClToken => {
                        if nested {
                            return None;
                        }
                        let _ = tokens.next();
                        proof {
                            lemma_cvs_view_push(prelude@, ComponentValue::PreservedToken(token));
                        }
                        prelude.push(ComponentValue::PreservedToken(token));
                    },
                    Token::AcoladeOpToken => {
                        proof {
                            lemma_block_bounds(t, m, i);
                        }
                        let (declarations, child_rules) = consume_block(tokens);
                        if declarations.len() > 0 || child_rules.len() > 0 {
                            return Some(
                                Rule::BlockAtRule {
                                    name,
                                    component_value: prelude,
                                    declarations,
                                    child_rules,
                                },
                            );
                        }
                        return Some(Rule::AtRule { name, component_value: prelude });
                    },
                    _ => {
                        proof {
                            lemma_component_value_bounds(t, i);
                        }
                        match consume_component_value(tokens) {
                            Ok(v) => {
                                proof {
                                    lemma_cvs_view_push(prelude@, v);
                                }
                                prelude.push(v);
                            },
                            Err(_) => {
                                return None;
                            },
                        }
                    },
                }
            },
        }
    }
}

/// The index of the first value at or after `k` that is not whitespace, or the length.
fn first_non_ws_from(v: &Vec<ComponentValue>, k: usize) -> (r: usize)
    requires
        k <= v.len(),
    ensures
        r == first_non_ws(cvs_view(v@), k as int),
        k <= r <= v.len(),
{
    proof {
        lemma_cvs_view_index(v@);
    }
    let mut j = k;
    while j < v.len() && is_ws_value(&v[j])
        invariant
            k <= j <= v.len(),
            cvs_view(v@).len() == v@.len(),
            forall|i: int| 0 <= i < v@.len() ==> #[trigger] cvs_view(v@)[i] == cv_view(v@[i]),
            first_non_ws(cvs_view(v@), k as int) == first_non_ws(cvs_view(v@), j as int),
        decreases v.len() - j,
    {
        j = j + 1;
    }
    j
}

/// Whether the first two values of the prelude that are not whitespace are an ident token
/// that starts with two dashes and a colon token.
fn prelude_starts_custom_property(prelude: &Vec<ComponentValue>) -> (r: bool)
    ensures
        r == starts_custom_property(cvs_view(prelude@)),
{
    proof {
        lemma_cvs_view_index(prelude@);
    }
    let a = first_non_ws_from(prelude, 0);
    if a >= prelude.len() {
        return false;
    }
    let b = first_non_ws_from(prelude, a + 1);
    if b >= prelude.len() {
        return false;
    }
    let first = match &prelude[a] {
        ComponentValue::PreservedToken(Token::IdentToken(x)) => is_custom_name(x),
        _ => false,
    };
    let second = match &prelude[b] {
        ComponentValue::PreservedToken(Token::ColonToken) => true,
        _ => false,
    };
    first && second
}

/// <https://drafts.csswg.org/css-syntax/#consume-qualified-rule>
///
/// Let rule be a new qualified rule with its prelude, declarations, and child rules all initially set to empty lists.
/// Process input:
/// * \<EOF-token> stop token (if passed)
///     * This is a parse error. Return nothing.
/// * <}-token>
///     * This is a parse error. If nested is true, return nothing. Otherwise, consume a token and append the result to rule's prelude.
/// * <{-token>
///     * If the first two non-<whitespace-token> values of rule's prelude are an \<ident-token> whose value starts with "--" followed by a `<colon-token>`, then:
///         * If nested is true, consume the remnants of a bad declaration from input, with nested set to true, and return nothing.
///         * If nested is false, consume a block from input, and return nothing.
///     * Otherwise, consume a block from input, assign the results to rule's lists of declarations and child rules, and return the rule.
/// * anything else
///     * Consume a component value from input and append the result to rule's prelude.
pub fn consume_qualified_rule(
    tokens: &mut TokenStream,
    stop_token: Option<CssToken>,
    nested: bool,
) -> (r: Option<Rule>)
    requires
        old(tokens).wf(),
    ensures
        same_tokens(*old(tokens), *final(tokens)),
        qualified_rule(old(tokens).toks(), old(tokens).source_map(), old(tokens).position(), opt_token_view(stop_token), nested)
            == (opt_rule_view(r), final(tokens).position()),
    decreases old(tokens).toks().len() - old(tokens).position(), 2int,
{
    let ghost t = tokens.toks();
    let ghost m = tokens.source_map();
    let ghost start = tokens.position();
    let ghost stop = opt_token_view(stop_token);
    let mut prelude: Vec<ComponentValue> = Vec::new();
    assert(cvs_view(prelude@) =~= Seq::empty());
    loop
        invariant
            same_tokens(*old(tokens), *tokens),
            t == old(tokens).toks(),
            m == old(tokens).source_map(),
            start == old(tokens).position(),
            stop == opt_token_view(stop_token),
            start <= tokens.position(),
            qualified_rule(t, m, start, stop, nested) == qualified_rule_rest(
                t,
                m,
                tokens.position(),
                stop,
                nested,
                cvs_view(prelude@),
            ),
        decreases t.len() - tokens.position(),
    {
        proof {
            tokens.lemma_wf();
        }
        let ghost i = tokens.position();
        match tokens.peek() {
            None => {
                return None;
            },
            Some(token) => {
                let is_stop = match &stop_token {
                    Some(s) => token.same_token(s),
                    None => false,
                };
                if is_stop {
                    return None;
                }
                match token {
                    Token::AcoladeClToken => {
                        if nested {
                            return None;
                        }
                        let _ = tokens.next();
                        proof {
                            lemma_cvs_view_push(prelude@, ComponentValue::PreservedToken(token));
                        }
                        prelude.push(ComponentValue::PreservedToken(token));
                    },
                    Token::AcoladeOpToken => {
                        if prelude_starts_custom_property(&prelude) {
                            if nested {
                                consume_bad_declaration(tokens, true);
                            } else {
                                let _ = consume_block(tokens);
                            }
                            return None;
                        }
                        let (declarations, child_rules) = consume_block(tokens);
                        return Some(
                            Rule::QualifiedRule { component_value: prelude, declarations, child_rules },
                        );
                    },
                    _ => {
                        proof {
                            lemma_component_value_bounds(t, i);
                        }
                        match consume_component_value(tokens) {
                            Ok(v) => {
                                proof {
                                    lemma_cvs_view_push(prelude@, v);
                                }
                                prelude.push(v);
                            },
                            Err(_) => {
                                return None;
                            },
                        }
                    },
                }
            },
        }
    }
}

/// <https://drafts.csswg.org/css-syntax/#normalize-into-a-token-stream>
/// To normalize into a token stream a given input:
///
/// If input is already a token stream, return it.
///
/// If input is a list of CSS tokens and/or component values, create a new token stream with input as its tokens, and return it.
///
/// If input is a string, then filter code points from input, tokenize the result, then create a new token stream with those tokens as its tokens, and return it.
///
/// Assert: Only the preceding types should be passed as input.
///
/// The stream also keeps the filtered text and where each token lies in it.
pub fn normalize(input: String) -> (s: TokenStream)
    ensures
        s.wf(),
        s.toks() == tokenize(preprocess(input@)),
        s.source_map() == source_map_of(preprocess(input@)),
        s.position() == 0,
        s.marks() == Seq::<int>::empty(),
{
    let chars = preprocessing(input.as_str());
    TokenStream::from_source(chars)
}

/// One step of the top level of a style sheet at a token that is there: whitespace, `<!--`
/// and `-->` are discarded, an at-keyword starts an at-rule and anything else starts a
/// qualified rule; a rule that comes back is appended to `rules`.
fn consume_top_level_step(tokens: &mut TokenStream, rules: &mut Vec<Rule>)
    requires
        old(tokens).wf(),
        old(tokens).position() < old(tokens).toks().len(),
    ensures
        same_tokens(*old(tokens), *final(tokens)),
        old(tokens).position() < final(tokens).position(),
        stylesheet_rules(
            old(tokens).toks(),
            old(tokens).source_map(),
            old(tokens).position(),
            rules_view(old(rules)@),
        ) == stylesheet_rules(
            final(tokens).toks(),
            final(tokens).source_map(),
            final(tokens).position(),
            rules_view(final(rules)@),
        ),
{
    proof {
        tokens.lemma_wf();
    }
    let ghost t = tokens.toks();
    let ghost m = tokens.source_map();
    let ghost i = tokens.position();
    let token = match tokens.peek() {
        Some(token) => token,
        None => {
            return;
        },
    };
    match token {
        Token::WhitespaceToken | Token::CdcToken | Token::CdoToken => {
            let _ = tokens.next();
        },
        Token::AtKeywordToken(_) => {
            proof {
                lemma_at_rule_bounds(t, m, i, false);
            }
            if let Some(rule) = consume_at_rule(tokens, false) {
                proof {
                    lemma_rules_view_push(rules@, rule);
                }
                rules.push(rule);
            }
        },
        _ => {
            proof {
                lemma_qualified_rule_rest_bounds(t, m, i, None, false, Seq::empty());
            }
            if let Some(rule) = consume_qualified_rule(tokens, None, false) {
                proof {
                    lemma_rules_view_push(rules@, rule);
                }
                rules.push(rule);
            }
        },
    }
}

/// The real parser brain: parse a style sheet stored in a string.
///
/// At the top level, whitespace, `<!--` and `-->` tokens are discarded, an at-keyword
/// starts an at-rule and anything else starts a qualified rule; a rule that comes back
/// is appended, and parsing goes on after the tokens it consumed.
pub fn parse_string(datastream: String) -> (r: Result<Vec<Rule>, ParseError>)
    ensures
        r matches Ok(rules) && rules_view(rules@) == parse_rules(datastream@),
{
    let mut token_stream = normalize(datastream);
    let ghost t = token_stream.toks();
    let ghost m = token_stream.source_map();
    let mut rules: Vec<Rule> = Vec::new();
    assert(rules_view(rules@) =~= Seq::empty());
    while token_stream.pos() < token_stream.len()
        invariant
            token_stream.wf(),
            t == token_stream.toks(),
            t == tokenize(preprocess(datastream@)),
            m == token_stream.source_map(),
            m == source_map_of(preprocess(datastream@)),
            parse_rules(datastream@) == stylesheet_rules(
                t,
                m,
                token_stream.position(),
                rules_view(rules@),
            ),
        decreases t.len() - token_stream.position(),
    {
        consume_top_level_step(&mut token_stream, &mut rules);
        proof {
            token_stream.lemma_wf();
        }
    }
    proof {
        token_stream.lemma_wf();
    }
    Ok(rules)
}

} // verus!
