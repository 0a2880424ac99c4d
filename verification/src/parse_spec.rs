use vstd::prelude::*;

use crate::chars::ascii_ci_eq;
use crate::syntax::{SpecComponentValue, SpecDeclaration, SpecRule};
use crate::token::{SpecToken, Token};
use crate::token_spec::{preprocess, token_spans, tokenize, urange_tokenize};

verus! {

// ---------------------------------------------------------------------------
// The model of parsing. Each `spec fn` below consumes tokens of `t` starting at
// index `i` and returns what it built together with the index of the first
// token it did not consume.
// ---------------------------------------------------------------------------

/// Where a list of tokens comes from: the text, and for each token the index of its first
/// code point and the index after its last one.
pub struct SourceMap {
    pub spans: Seq<(int, int)>,
    pub text: Seq<char>,
}

/// The text of the tokens at indices `a..b`: from the start of the first one to the end
/// of the last one; empty when there is no such token.
pub open spec fn segment(m: SourceMap, a: int, b: int) -> Seq<char> {
    if 0 <= a < b <= m.spans.len() {
        m.text.subrange(m.spans[a].0, m.spans[b - 1].1)
    } else {
        Seq::empty()
    }
}

/// The token at index `i`, if any.
pub open spec fn tk(t: Seq<SpecToken>, i: int) -> Option<SpecToken> {
    if 0 <= i < t.len() {
        Some(t[i])
    } else {
        None
    }
}

/// `{`, `[` or `(`.
pub open spec fn is_block_opening(tok: SpecToken) -> bool {
    tok is AcoladeOpToken || tok is CrochetOpToken || tok is ParenthOpToken
}

/// The token that ends a simple block opened by `tok`.
pub open spec fn mirror(tok: SpecToken) -> SpecToken {
    if tok is AcoladeOpToken {
        Token::AcoladeClToken
    } else if tok is CrochetOpToken {
        Token::CrochetClToken
    } else {
        Token::ParenthClToken
    }
}

/// Consume a simple block whose opening token is at `i`.
pub open spec fn simple_block(t: Seq<SpecToken>, i: int) -> (SpecComponentValue, int)
    decreases t.len() - i, 0int,
{
    if 0 <= i < t.len() {
        let (value, j) = block_values(t, i + 1, mirror(t[i]), Seq::empty());
        (SpecComponentValue::SimpleBlock { associated_token: t[i], value }, j)
    } else {
        (SpecComponentValue::SimpleBlock { associated_token: Token::AcoladeOpToken, value: Seq::empty() }, i)
    }
}

/// Consume a function whose function token is at `i`.
pub open spec fn function_value(t: Seq<SpecToken>, i: int) -> (SpecComponentValue, int)
    decreases t.len() - i, 0int,
{
    if 0 <= i < t.len() {
        let name = match t[i] {
            Token::FunctionToken(name) => name,
            _ => Seq::empty(),
        };
        let (value, j) = block_values(t, i + 1, Token::ParenthClToken, Seq::empty());
        (SpecComponentValue::Function { name, value }, j)
    } else {
        (SpecComponentValue::Function { name: Seq::empty(), value: Seq::empty() }, i)
    }
}

/// Consume a component value; `None` at the end of the input.
pub open spec fn component_value(t: Seq<SpecToken>, i: int) -> Option<(SpecComponentValue, int)>
    decreases t.len() - i, 1int,
{
    if 0 <= i < t.len() {
        if is_block_opening(t[i]) {
            Some(simple_block(t, i))
        } else if t[i] is FunctionToken {
            Some(function_value(t, i))
        } else {
            Some((SpecComponentValue::PreservedToken(t[i]), i + 1))
        }
    } else {
        None
    }
}

/// Consume component values up to and including the token `end`, or up to the end of the input.
pub open spec fn block_values(
    t: Seq<SpecToken>,
    i: int,
    end: SpecToken,
    acc: Seq<SpecComponentValue>,
) -> (Seq<SpecComponentValue>, int)
    decreases t.len() - i, 2int,
{
    if 0 <= i < t.len() {
        if t[i] == end {
            (acc, i + 1)
        } else {
            match component_value(t, i) {
                Some((c, j)) => if i < j <= t.len() {
                    block_values(t, j, end, acc.push(c))
                } else {
                    (acc, j)
                },
                None => (acc, i),
            }
        }
    } else {
        (acc, i)
    }
}

pub proof fn lemma_component_value_bounds(t: Seq<SpecToken>, i: int)
    requires
        0 <= i < t.len(),
    ensures
        component_value(t, i) is Some,
        i < component_value(t, i)->Some_0.1 <= t.len(),
    decreases t.len() - i, 1int,
{
    if is_block_opening(t[i]) {
        lemma_block_values_bounds(t, i + 1, mirror(t[i]), Seq::empty());
    } else if t[i] is FunctionToken {
        lemma_block_values_bounds(t, i + 1, Token::ParenthClToken, Seq::empty());
    }
}

pub proof fn lemma_block_values_bounds(
    t: Seq<SpecToken>,
    i: int,
    end: SpecToken,
    acc: Seq<SpecComponentValue>,
)
    requires
        0 <= i <= t.len(),
    ensures
        i <= block_values(t, i, end, acc).1 <= t.len(),
    decreases t.len() - i, 2int,
{
    if i < t.len() && t[i] != end {
        lemma_component_value_bounds(t, i);
        let (c, j) = component_value(t, i)->Some_0;
        lemma_block_values_bounds(t, j, end, acc.push(c));
    }
}

/// Consume a list of component values, stopping before `stop`, and before `}` when `nested`.
pub open spec fn list_values(
    t: Seq<SpecToken>,
    i: int,
    stop: Option<SpecToken>,
    nested: bool,
    acc: Seq<SpecComponentValue>,
) -> (Seq<SpecComponentValue>, int)
    decreases t.len() - i,
{
    if 0 <= i < t.len() {
        if stop == Some(t[i]) {
            (acc, i)
        } else if t[i] is AcoladeClToken {
            if nested {
                (acc, i)
            } else {
                list_values(t, i + 1, stop, nested, acc.push(SpecComponentValue::PreservedToken(t[i])))
            }
        } else {
            proof {
                lemma_component_value_bounds(t, i);
            }
            let (c, j) = component_value(t, i)->Some_0;
            list_values(t, j, stop, nested, acc.push(c))
        }
    } else {
        (acc, i)
    }
}

/// The index after the value that a list of component values takes at `i`.
pub open spec fn list_step(t: Seq<SpecToken>, i: int) -> int {
    if 0 <= i < t.len() && t[i] is AcoladeClToken {
        i + 1
    } else {
        match component_value(t, i) {
            Some((_, j)) => j,
            None => i,
        }
    }
}

/// The index after the first `k` values of a list of component values that starts at `i`.
pub open spec fn values_end(t: Seq<SpecToken>, i: int, k: nat) -> int
    decreases k,
{
    if k == 0 {
        i
    } else {
        values_end(t, list_step(t, i), (k - 1) as nat)
    }
}

pub proof fn lemma_values_end_step(t: Seq<SpecToken>, i: int, k: nat)
    ensures
        values_end(t, i, k + 1) == list_step(t, values_end(t, i, k)),
    decreases k,
{
    assert(values_end(t, i, k + 1) == values_end(t, list_step(t, i), k));
    if k > 0 {
        lemma_values_end_step(t, list_step(t, i), (k - 1) as nat);
        assert(values_end(t, i, k) == values_end(t, list_step(t, i), (k - 1) as nat));
    }
}

/// The index after the whitespace tokens that start at `i`.
pub open spec fn discard_ws(t: Seq<SpecToken>, i: int) -> int
    decreases t.len() - i,
{
    if 0 <= i < t.len() && t[i] is WhitespaceToken {
        discard_ws(t, i + 1)
    } else {
        i
    }
}

/// Consume the remnants of a bad declaration.
pub open spec fn bad_declaration(t: Seq<SpecToken>, i: int, nested: bool) -> int
    decreases t.len() - i,
{
    if 0 <= i < t.len() {
        if t[i] is SemicolonToken {
            i + 1
        } else if t[i] is AcoladeClToken {
            if nested {
                i
            } else {
                bad_declaration(t, i + 1, nested)
            }
        } else {
            proof {
                lemma_component_value_bounds(t, i);
            }
            bad_declaration(t, component_value(t, i)->Some_0.1, nested)
        }
    } else {
        i
    }
}

pub open spec fn ws_value() -> SpecComponentValue {
    SpecComponentValue::PreservedToken(Token::WhitespaceToken)
}

/// The index of the last value before index `k` that is not a whitespace token, or -1.
pub open spec fn last_non_ws(v: Seq<SpecComponentValue>, k: int) -> int
    decreases k,
{
    if k <= 0 {
        -1
    } else if v[k - 1] != ws_value() {
        k - 1
    } else {
        last_non_ws(v, k - 1)
    }
}

pub open spec fn important_name() -> Seq<char> {
    seq!['i', 'm', 'p', 'o', 'r', 't', 'a', 'n', 't']
}

/// Whether `c` is an ident token that matches "important", ignoring ASCII case.
pub open spec fn is_important_ident(c: SpecComponentValue) -> bool {
    match c {
        SpecComponentValue::PreservedToken(Token::IdentToken(x)) => ascii_ci_eq(x, important_name()),
        _ => false,
    }
}

/// When the last two values that are not whitespace are `!` and `important`, the
/// value without them and `true`; otherwise the value unchanged and `false`.
pub open spec fn strip_important(v: Seq<SpecComponentValue>) -> (Seq<SpecComponentValue>, bool) {
    let a = last_non_ws(v, v.len() as int);
    let b = last_non_ws(v, a);
    if 0 <= b && v[b] == SpecComponentValue::PreservedToken(Token::DelimToken('!'))
        && is_important_ident(v[a]) {
        (v.remove(a).remove(b), true)
    } else {
        (v, false)
    }
}

/// The value without its trailing whitespace tokens.
pub open spec fn trim_trailing_ws(v: Seq<SpecComponentValue>) -> Seq<SpecComponentValue>
    decreases v.len(),
{
    if v.len() > 0 && v.last() == ws_value() {
        trim_trailing_ws(v.drop_last())
    } else {
        v
    }
}

/// The descriptor name whose value is read again with unicode ranges allowed.
pub open spec fn unicode_range_name() -> Seq<char> {
    seq!['u', 'n', 'i', 'c', 'o', 'd', 'e', '-', 'r', 'a', 'n', 'g', 'e']
}

/// The value of a unicode-range descriptor whose source text is `text`: the list of
/// component values of its tokens, read with unicode ranges allowed.
pub open spec fn unicode_range_value(text: Seq<char>) -> Seq<SpecComponentValue> {
    list_values(urange_tokenize(text), 0, None, false, Seq::empty()).0
}

/// A custom property name starts with two dashes.
pub open spec fn is_custom_property_name(name: Seq<char>) -> bool {
    name.len() >= 2 && name[0] == '-' && name[1] == '-'
}

/// A simple block opened by `{`.
pub open spec fn is_curly_block(c: SpecComponentValue) -> bool {
    match c {
        SpecComponentValue::SimpleBlock { associated_token: Token::AcoladeOpToken, .. } => true,
        _ => false,
    }
}

/// A value that is not a whitespace token.
pub open spec fn is_non_ws(c: SpecComponentValue) -> bool {
    c != ws_value()
}

/// The value holds a `{}` block and another value that is not whitespace.
pub open spec fn has_block_conflict(v: Seq<SpecComponentValue>) -> bool {
    exists|i: int, j: int|
        0 <= i < v.len() && 0 <= j < v.len() && i != j && #[trigger] is_curly_block(v[i])
            && #[trigger] is_non_ws(v[j])
}

/// Consume a declaration. A custom property keeps, as its original text, the text of the
/// tokens of its value.
pub open spec fn declaration(t: Seq<SpecToken>, m: SourceMap, i: int, nested: bool) -> (
    Option<SpecDeclaration>,
    int,
) {
    match tk(t, i) {
        Some(Token::IdentToken(name)) => {
            let q = discard_ws(t, i + 1);
            if tk(t, q) == Some(Token::<Seq<char>>::ColonToken) {
                let r = discard_ws(t, q + 1);
                let (values, e) = list_values(t, r, Some(Token::SemicolonToken), nested, Seq::empty());
                let (stripped, important) = strip_important(values);
                let value = trim_trailing_ws(stripped);
                if is_custom_property_name(name) {
                    let original_text = Some(segment(m, r, values_end(t, r, value.len())));
                    (Some(SpecDeclaration { name, value, important, original_text }), e)
                } else if has_block_conflict(value) {
                    (None, e)
                } else if ascii_ci_eq(name, unicode_range_name()) {
                    let text = segment(m, r, values_end(t, r, values.len()));
                    let value = unicode_range_value(text);
                    (Some(SpecDeclaration { name, value, important, original_text: None }), e)
                } else {
                    (Some(SpecDeclaration { name, value, important, original_text: None }), e)
                }
            } else {
                (None, bad_declaration(t, q, nested))
            }
        },
        _ => (None, bad_declaration(t, i, nested)),
    }
}

/// The rule list with `r` appended when there is one.
pub open spec fn push_rule(rules: Seq<SpecRule>, r: Option<SpecRule>) -> Seq<SpecRule> {
    match r {
        Some(r) => rules.push(r),
        None => rules,
    }
}

/// Consume a block whose `{` is at `i`, with its closing `}`: its declarations and rules.
pub open spec fn block(t: Seq<SpecToken>, m: SourceMap, i: int) -> (Seq<SpecDeclaration>, Seq<SpecRule>, int)
    decreases t.len() - i, 0int,
{
    if 0 <= i < t.len() && t[i] is AcoladeOpToken {
        let (decls, rules, j) = block_contents(t, m, i + 1, Seq::empty(), Seq::empty());
        let k = if 0 <= j < t.len() && t[j] is AcoladeClToken {
            j + 1
        } else {
            j
        };
        (decls, rules, k)
    } else {
        (Seq::empty(), Seq::empty(), i)
    }
}

/// Consume the contents of a block, appending to `decls` and `rules`; stops before `}`.
pub open spec fn block_contents(
    t: Seq<SpecToken>,
    m: SourceMap,
    i: int,
    decls: Seq<SpecDeclaration>,
    rules: Seq<SpecRule>,
) -> (Seq<SpecDeclaration>, Seq<SpecRule>, int)
    decreases t.len() - i, 3int,
{
    if 0 <= i < t.len() {
        let tok = t[i];
        if tok is WhitespaceToken || tok is SemicolonToken {
            block_contents(t, m, i + 1, decls, rules)
        } else if tok is AcoladeClToken {
            (decls, rules, i)
        } else if tok is AtKeywordToken {
            let (r, j) = at_rule(t, m, i, true);
            if i < j <= t.len() {
                block_contents(t, m, j, decls, push_rule(rules, r))
            } else {
                (decls, rules, j)
            }
        } else {
            match declaration(t, m, i, true) {
                (Some(d), j) => if i < j <= t.len() {
                    block_contents(t, m, j, decls.push(d), rules)
                } else {
                    (decls, rules, j)
                },
                (None, _) => {
                    let (r, k) = qualified_rule(t, m, i, Some(Token::SemicolonToken), true);
                    if i < k <= t.len() {
                        block_contents(t, m, k, decls, push_rule(rules, r))
                    } else {
                        (decls, rules, k)
                    }
                },
            }
        }
    } else {
        (decls, rules, i)
    }
}

/// Consume an at-rule whose at-keyword token is at `i`.
pub open spec fn at_rule(t: Seq<SpecToken>, m: SourceMap, i: int, nested: bool) -> (Option<SpecRule>, int)
    decreases t.len() - i, 2int,
{
    match tk(t, i) {
        Some(Token::AtKeywordToken(name)) => at_rule_rest(t, m, i + 1, name, nested, Seq::empty()),
        _ => (None, i),
    }
}

/// Consume the rest of an at-rule named `name`, appending to its `prelude`.
pub open spec fn at_rule_rest(
    t: Seq<SpecToken>,
    m: SourceMap,
    i: int,
    name: Seq<char>,
    nested: bool,
    prelude: Seq<SpecComponentValue>,
) -> (Option<SpecRule>, int)
    decreases t.len() - i, 1int,
{
    if 0 <= i < t.len() {
        let tok = t[i];
        if tok is SemicolonToken {
            (Some(SpecRule::AtRule { name, prelude }), i + 1)
        } else if tok is AcoladeClToken {
            if nested {
                (None, i)
            } else {
                at_rule_rest(t, m, i + 1, name, nested, prelude.push(SpecComponentValue::PreservedToken(tok)))
            }
        } else if tok is AcoladeOpToken {
            let (declarations, child_rules, j) = block(t, m, i);
            if declarations.len() > 0 || child_rules.len() > 0 {
                (Some(SpecRule::BlockAtRule { name, prelude, declarations, child_rules }), j)
            } else {
                (Some(SpecRule::AtRule { name, prelude }), j)
            }
        } else {
            proof {
                lemma_component_value_bounds(t, i);
            }
            let (c, j) = component_value(t, i)->Some_0;
            at_rule_rest(t, m, j, name, nested, prelude.push(c))
        }
    } else {
        (Some(SpecRule::AtRule { name, prelude }), i)
    }
}

/// The first two values of the prelude that are not whitespace are an ident token
/// that starts with two dashes and a colon token.
pub open spec fn starts_custom_property(prelude: Seq<SpecComponentValue>) -> bool {
    let a = first_non_ws(prelude, 0);
    let b = first_non_ws(prelude, a + 1);
    &&& 0 <= a < prelude.len()
    &&& 0 <= b < prelude.len()
    &&& match prelude[a] {
        SpecComponentValue::PreservedToken(Token::IdentToken(x)) => is_custom_property_name(x),
        _ => false,
    }
    &&& prelude[b] == SpecComponentValue::PreservedToken(Token::ColonToken)
}

/// The index of the first value at or after `k` that is not a whitespace token,
/// or the length of the list.
pub open spec fn first_non_ws(v: Seq<SpecComponentValue>, k: int) -> int
    decreases v.len() - k,
{
    if k < 0 || k >= v.len() {
        v.len() as int
    } else if v[k] != ws_value() {
        k
    } else {
        first_non_ws(v, k + 1)
    }
}

/// Consume a qualified rule that starts at `i`.
pub open spec fn qualified_rule(t: Seq<SpecToken>, m: SourceMap, i: int, stop: Option<SpecToken>, nested: bool) -> (
    Option<SpecRule>,
    int,
)
    decreases t.len() - i, 2int,
{
    qualified_rule_rest(t, m, i, stop, nested, Seq::empty())
}

/// Consume the rest of a qualified rule, appending to its `prelude`.
pub open spec fn qualified_rule_rest(
    t: Seq<SpecToken>,
    m: SourceMap,
    i: int,
    stop: Option<SpecToken>,
    nested: bool,
    prelude: Seq<SpecComponentValue>,
) -> (Option<SpecRule>, int)
    decreases t.len() - i, 1int,
{
    if 0 <= i < t.len() {
        let tok = t[i];
        if stop == Some(tok) {
            (None, i)
        } else if tok is AcoladeClToken {
            if nested {
                (None, i)
            } else {
                qualified_rule_rest(
                    t,
                    m,
                    i + 1,
                    stop,
                    nested,
                    prelude.push(SpecComponentValue::PreservedToken(tok)),
                )
            }
        } else if tok is AcoladeOpToken {
            if starts_custom_property(prelude) {
                if nested {
                    (None, bad_declaration(t, i, true))
                } else {
                    (None, block(t, m, i).2)
                }
            } else {
                let (declarations, child_rules, j) = block(t, m, i);
                (Some(SpecRule::QualifiedRule { prelude, declarations, child_rules }), j)
            }
        } else {
            proof {
                lemma_component_value_bounds(t, i);
            }
            let (c, j) = component_value(t, i)->Some_0;
            qualified_rule_rest(t, m, j, stop, nested, prelude.push(c))
        }
    } else {
        (None, i)
    }
}

/// Consume the rules of a style sheet from index `i` on, appending to `rules`.
pub open spec fn stylesheet_rules(t: Seq<SpecToken>, m: SourceMap, i: int, rules: Seq<SpecRule>) -> Seq<SpecRule>
    decreases t.len() - i,
{
    if 0 <= i < t.len() {
        let tok = t[i];
        if tok is WhitespaceToken || tok is CdcToken || tok is CdoToken {
            stylesheet_rules(t, m, i + 1, rules)
        } else if tok is AtKeywordToken {
            proof {
                lemma_at_rule_bounds(t, m, i, false);
            }
            match at_rule(t, m, i, false) {
                (Some(r), j) => stylesheet_rules(t, m, j, rules.push(r)),
                (None, j) => stylesheet_rules(t, m, j, rules),
            }
        } else {
            proof {
                lemma_qualified_rule_rest_bounds(t, m, i, None, false, Seq::empty());
            }
            match qualified_rule(t, m, i, None, false) {
                (Some(r), j) => stylesheet_rules(t, m, j, rules.push(r)),
                (None, j) => stylesheet_rules(t, m, j, rules),
            }
        }
    } else {
        rules
    }
}

// ---------------------------------------------------------------------------
// Rule consumption moves forward and stays inside the input.
// ---------------------------------------------------------------------------

pub proof fn lemma_list_values_bounds(
    t: Seq<SpecToken>,
    i: int,
    stop: Option<SpecToken>,
    nested: bool,
    acc: Seq<SpecComponentValue>,
)
    requires
        0 <= i <= t.len(),
    ensures
        i <= list_values(t, i, stop, nested, acc).1 <= t.len(),
    decreases t.len() - i,
{
    if i < t.len() && stop != Some(t[i]) {
        if t[i] is AcoladeClToken {
            if !nested {
                lemma_list_values_bounds(
                    t,
                    i + 1,
                    stop,
                    nested,
                    acc.push(SpecComponentValue::PreservedToken(t[i])),
                );
            }
        } else {
            lemma_component_value_bounds(t, i);
            let (c, j) = component_value(t, i)->Some_0;
            lemma_list_values_bounds(t, j, stop, nested, acc.push(c));
        }
    }
}

pub proof fn lemma_discard_ws_bounds(t: Seq<SpecToken>, i: int)
    requires
        0 <= i <= t.len(),
    ensures
        i <= discard_ws(t, i) <= t.len(),
    decreases t.len() - i,
{
    if i < t.len() && t[i] is WhitespaceToken {
        lemma_discard_ws_bounds(t, i + 1);
    }
}

pub proof fn lemma_bad_declaration_bounds(t: Seq<SpecToken>, i: int, nested: bool)
    requires
        0 <= i <= t.len(),
    ensures
        i <= bad_declaration(t, i, nested) <= t.len(),
    decreases t.len() - i,
{
    if i < t.len() && !(t[i] is SemicolonToken) {
        if t[i] is AcoladeClToken {
            if !nested {
                lemma_bad_declaration_bounds(t, i + 1, nested);
            }
        } else {
            lemma_component_value_bounds(t, i);
            lemma_bad_declaration_bounds(t, component_value(t, i)->Some_0.1, nested);
        }
    }
}

pub proof fn lemma_block_bounds(t: Seq<SpecToken>, m: SourceMap, i: int)
    requires
        0 <= i <= t.len(),
    ensures
        i <= block(t, m, i).2 <= t.len(),
        i < t.len() && t[i] is AcoladeOpToken ==> i < block(t, m, i).2,
    decreases t.len() - i, 0int,
{
    if i < t.len() && t[i] is AcoladeOpToken {
        lemma_block_contents_bounds(t, m, i + 1, Seq::empty(), Seq::empty());
    }
}

pub proof fn lemma_block_contents_bounds(
    t: Seq<SpecToken>,
    m: SourceMap,
    i: int,
    decls: Seq<SpecDeclaration>,
    rules: Seq<SpecRule>,
)
    requires
        0 <= i <= t.len(),
    ensures
        i <= block_contents(t, m, i, decls, rules).2 <= t.len(),
    decreases t.len() - i, 3int,
{
    if i < t.len() {
        let tok = t[i];
        if tok is WhitespaceToken || tok is SemicolonToken {
            lemma_block_contents_bounds(t, m, i + 1, decls, rules);
        } else if tok is AcoladeClToken {
        } else if tok is AtKeywordToken {
            lemma_at_rule_bounds(t, m, i, true);
            let (r, j) = at_rule(t, m, i, true);
            lemma_block_contents_bounds(t, m, j, decls, push_rule(rules, r));
        } else {
            match declaration(t, m, i, true) {
                (Some(d), j) => {
                    lemma_declaration_bounds(t, m, i, true);
                    if i < j {
                        lemma_block_contents_bounds(t, m, j, decls.push(d), rules);
                    }
                },
                (None, _) => {
                    lemma_qualified_rule_rest_bounds(t, m, i, Some(Token::SemicolonToken), true, Seq::empty());
                    let (r, k) = qualified_rule(t, m, i, Some(Token::SemicolonToken), true);
                    if i < k {
                        lemma_block_contents_bounds(t, m, k, decls, push_rule(rules, r));
                    }
                },
            }
        }
    }
}

pub proof fn lemma_at_rule_bounds(t: Seq<SpecToken>, m: SourceMap, i: int, nested: bool)
    requires
        0 <= i < t.len(),
        t[i] is AtKeywordToken,
    ensures
        i < at_rule(t, m, i, nested).1 <= t.len(),
    decreases t.len() - i, 2int,
{
    let name = match t[i] {
        Token::AtKeywordToken(name) => name,
        _ => Seq::empty(),
    };
    lemma_at_rule_rest_bounds(t, m, i + 1, name, nested, Seq::empty());
}

pub proof fn lemma_at_rule_rest_bounds(
    t: Seq<SpecToken>,
    m: SourceMap,
    i: int,
    name: Seq<char>,
    nested: bool,
    prelude: Seq<SpecComponentValue>,
)
    requires
        0 <= i <= t.len(),
    ensures
        i <= at_rule_rest(t, m, i, name, nested, prelude).1 <= t.len(),
    decreases t.len() - i, 1int,
{
    if i < t.len() {
        let tok = t[i];
        if tok is SemicolonToken {
        } else if tok is AcoladeClToken {
            if !nested {
                lemma_at_rule_rest_bounds(
                    t,
                    m,
                    i + 1,
                    name,
                    nested,
                    prelude.push(SpecComponentValue::PreservedToken(tok)),
                );
            }
        } else if tok is AcoladeOpToken {
            lemma_block_bounds(t, m, i);
            let j = block(t, m, i).2;
            lemma_at_rule_rest_bounds(t, m, j, name, nested, prelude);
        } else {
            lemma_component_value_bounds(t, i);
            let (c, j) = component_value(t, i)->Some_0;
            lemma_at_rule_rest_bounds(t, m, j, name, nested, prelude.push(c));
        }
    }
}

pub proof fn lemma_qualified_rule_rest_bounds(
    t: Seq<SpecToken>,
    m: SourceMap,
    i: int,
    stop: Option<SpecToken>,
    nested: bool,
    prelude: Seq<SpecComponentValue>,
)
    requires
        0 <= i <= t.len(),
    ensures
        i <= qualified_rule_rest(t, m, i, stop, nested, prelude).1 <= t.len(),
        i < t.len() && stop != Some(t[i]) && !(nested && t[i] is AcoladeClToken) ==> i
            < qualified_rule_rest(t, m, i, stop, nested, prelude).1,
    decreases t.len() - i, 1int,
{
    if i < t.len() {
        let tok = t[i];
        if stop == Some(tok) {
        } else if tok is AcoladeClToken {
            if !nested {
                lemma_qualified_rule_rest_bounds(
                    t,
                    m,
                    i + 1,
                    stop,
                    nested,
                    prelude.push(SpecComponentValue::PreservedToken(tok)),
                );
            }
        } else if tok is AcoladeOpToken {
            lemma_block_bounds(t, m, i);
            lemma_bad_declaration_bounds(t, i, true);
            if starts_custom_property(prelude) && nested {
                lemma_component_value_bounds(t, i);
                lemma_bad_declaration_bounds(t, component_value(t, i)->Some_0.1, true);
            }
        } else {
            lemma_component_value_bounds(t, i);
            let (c, j) = component_value(t, i)->Some_0;
            lemma_qualified_rule_rest_bounds(t, m, j, stop, nested, prelude.push(c));
        }
    }
}

pub proof fn lemma_declaration_bounds(t: Seq<SpecToken>, m: SourceMap, i: int, nested: bool)
    requires
        0 <= i < t.len(),
    ensures
        i <= declaration(t, m, i, nested).1 <= t.len(),
        declaration(t, m, i, nested).0 is Some ==> i < declaration(t, m, i, nested).1,
{
    lemma_bad_declaration_bounds(t, i, nested);
    lemma_discard_ws_bounds(t, i + 1);
    let q = discard_ws(t, i + 1);
    lemma_bad_declaration_bounds(t, q, nested);
    if q < t.len() {
        lemma_discard_ws_bounds(t, q + 1);
        let r = discard_ws(t, q + 1);
        lemma_list_values_bounds(t, r, Some(Token::SemicolonToken), nested, Seq::empty());
    }
}

/// The rules of a style sheet given as text.
pub open spec fn parse_rules(text: Seq<char>) -> Seq<SpecRule> {
    let p = preprocess(text);
    stylesheet_rules(tokenize(p), source_map_of(p), 0, Seq::empty())
}

/// The source map of the tokens of a (preprocessed) text.
pub open spec fn source_map_of(p: Seq<char>) -> SourceMap {
    SourceMap { spans: token_spans(p), text: p }
}

} // verus!
