use vstd::prelude::*;

use crate::parse_spec::{
    at_rule, at_rule_rest, bad_declaration, block, block_contents, block_values, component_value,
    declaration, discard_ws, lemma_at_rule_bounds, lemma_component_value_bounds,
    lemma_declaration_bounds, lemma_qualified_rule_rest_bounds, push_rule, qualified_rule,
    last_non_ws, lemma_discard_ws_bounds, list_values, strip_important, tk, trim_trailing_ws,
    list_step, source_map_of, segment, unicode_range_name, unicode_range_value, values_end,
    ws_value,
};
use crate::chars::{ascii_ci_char_eq, ascii_ci_eq, cp, is_whitespace};
use crate::parse_spec::SourceMap;
use crate::syntax::{SpecComponentValue, SpecDeclaration, SpecRule};
use crate::token::{SpecToken, Token};
use crate::token_spec::{
    lemma_skip_comments_bounds, lemma_spans_tokens, lemma_token_at_bounds, lemma_token_at_not_ws,
    lemma_token_at_u_bounds, lemma_token_spans, preprocess, skip_comments, starts_comment,
    starts_unicode_range, token_at, token_at_u, tokenize, tokens_from, urange_tokenize,
    urange_tokens_from,
};

verus! {

/// A code point that preprocessing replaces: CR, FF or NUL.
pub open spec fn is_filtered(c: char) -> bool {
    c == '\r' || c == '\u{C}' || c == '\0'
}

/// Preprocessing leaves no CR, FF or NUL in its output.
pub proof fn law_preprocess_filters(s: Seq<char>)
    ensures
        forall|k: int| 0 <= k < preprocess(s).len() ==> !is_filtered(#[trigger] preprocess(s)[k]),
    decreases s.len(),
{
    if s.len() > 0 {
        if s[0] == '\r' && s.len() >= 2 && s[1] == '\n' {
            law_preprocess_filters(s.subrange(2, s.len() as int));
        } else {
            law_preprocess_filters(s.subrange(1, s.len() as int));
        }
        let p = preprocess(s);
        assert forall|k: int| 0 <= k < p.len() implies !is_filtered(#[trigger] p[k]) by {
            if k > 0 {
                if s[0] == '\r' && s.len() >= 2 && s[1] == '\n' {
                    assert(p[k] == preprocess(s.subrange(2, s.len() as int))[k - 1]);
                } else {
                    assert(p[k] == preprocess(s.subrange(1, s.len() as int))[k - 1]);
                }
            }
        }
    }
}

/// Preprocessing leaves an input without CR, FF and NUL unchanged.
pub proof fn law_preprocess_unchanged(s: Seq<char>)
    requires
        forall|k: int| 0 <= k < s.len() ==> !is_filtered(#[trigger] s[k]),
    ensures
        preprocess(s) == s,
    decreases s.len(),
{
    if s.len() > 0 {
        let rest = s.subrange(1, s.len() as int);
        assert forall|k: int| 0 <= k < rest.len() implies !is_filtered(#[trigger] rest[k]) by {
            assert(rest[k] == s[k + 1]);
        }
        law_preprocess_unchanged(rest);
        assert(s =~= seq![s[0]] + rest);
    }
}

/// Preprocessing twice is preprocessing once.
pub proof fn law_preprocess_idempotent(s: Seq<char>)
    ensures
        preprocess(preprocess(s)) == preprocess(s),
{
    law_preprocess_filters(s);
    law_preprocess_unchanged(preprocess(s));
}

/// The values of a simple block or a function end with their closing token, unless the
/// input ends first.
pub proof fn law_block_values_end(
    t: Seq<SpecToken>,
    i: int,
    end: SpecToken,
    acc: Seq<SpecComponentValue>,
)
    requires
        0 <= i <= t.len(),
    ensures
        ({
            let j = block_values(t, i, end, acc).1;
            j == t.len() || (i < j && t[j - 1] == end)
        }),
    decreases t.len() - i,
{
    if i < t.len() && t[i] != end {
        lemma_component_value_bounds(t, i);
        let (c, j) = component_value(t, i)->Some_0;
        law_block_values_end(t, j, end, acc.push(c));
    }
}

/// Discarding whitespace stops at a token that is not whitespace, or at the end.
pub proof fn law_discard_ws_end(t: Seq<SpecToken>, i: int)
    requires
        0 <= i <= t.len(),
    ensures
        discard_ws(t, i) == t.len() || !(t[discard_ws(t, i)] is WhitespaceToken),
    decreases t.len() - i,
{
    if i < t.len() && t[i] is WhitespaceToken {
        law_discard_ws_end(t, i + 1);
    }
}

/// The remnants of a bad declaration end right after a `;`, at a `}` when nested, or at
/// the end of the input.
pub proof fn law_bad_declaration_end(t: Seq<SpecToken>, i: int, nested: bool)
    requires
        0 <= i <= t.len(),
    ensures
        ({
            let j = bad_declaration(t, i, nested);
            ||| j == t.len()
            ||| (i < j && t[j - 1] is SemicolonToken)
            ||| (nested && j < t.len() && t[j] is AcoladeClToken)
        }),
    decreases t.len() - i,
{
    if i < t.len() && !(t[i] is SemicolonToken) {
        if t[i] is AcoladeClToken {
            if !nested {
                law_bad_declaration_end(t, i + 1, nested);
            }
        } else {
            lemma_component_value_bounds(t, i);
            law_bad_declaration_end(t, component_value(t, i)->Some_0.1, nested);
        }
    }
}

/// Trimming leaves no whitespace token at the end of a value.
pub proof fn law_trim_trailing_ws(v: Seq<SpecComponentValue>)
    ensures
        trim_trailing_ws(v).len() == 0 || trim_trailing_ws(v).last() != ws_value(),
    decreases v.len(),
{
    if v.len() > 0 && v.last() == ws_value() {
        law_trim_trailing_ws(v.drop_last());
    }
}

/// Whether the token at `i` is an ident that names the unicode-range descriptor.
pub open spec fn names_unicode_range(t: Seq<SpecToken>, i: int) -> bool {
    tk(t, i) matches Some(Token::IdentToken(name)) && ascii_ci_eq(name, unicode_range_name())
}

/// The value of a declaration never ends with a whitespace token, unless it names the
/// unicode-range descriptor, whose value is read again from its source text.
pub proof fn law_declaration_no_trailing_ws(t: Seq<SpecToken>, m: SourceMap, i: int, nested: bool)
    requires
        !names_unicode_range(t, i),
    ensures
        declaration(t, m, i, nested).0 matches Some(d) ==> d.value.len() == 0 || d.value.last()
            != ws_value(),
{
    match declaration(t, m, i, nested).0 {
        Some(d) => {
            let q = discard_ws(t, i + 1);
            let r = discard_ws(t, q + 1);
            let values = crate::parse_spec::list_values(
                t,
                r,
                Some(Token::SemicolonToken),
                nested,
                Seq::empty(),
            ).0;
            law_trim_trailing_ws(crate::parse_spec::strip_important(values).0);
        },
        None => {},
    }
}

/// A block at-rule is returned only when its block holds a declaration or a rule.
pub proof fn law_at_rule_block_not_empty(t: Seq<SpecToken>, m: SourceMap, i: int, nested: bool)
    ensures
        at_rule(t, m, i, nested).0 matches Some(SpecRule::BlockAtRule { declarations, child_rules, .. })
            ==> declarations.len() > 0 || child_rules.len() > 0,
{
    if 0 <= i < t.len() {
        match t[i] {
            Token::AtKeywordToken(name) => {
                lemma_at_rule_rest_block_not_empty(t, m, i + 1, name, nested, Seq::empty());
            },
            _ => {},
        }
    }
}

proof fn lemma_at_rule_rest_block_not_empty(
    t: Seq<SpecToken>,
    m: SourceMap,
    i: int,
    name: Seq<char>,
    nested: bool,
    prelude: Seq<SpecComponentValue>,
)
    ensures
        at_rule_rest(t, m, i, name, nested, prelude).0 matches Some(
            SpecRule::BlockAtRule { declarations, child_rules, .. },
        ) ==> declarations.len() > 0 || child_rules.len() > 0,
    decreases t.len() - i,
{
    if 0 <= i < t.len() {
        let tok = t[i];
        if tok is SemicolonToken {
        } else if tok is AcoladeOpToken {
            let (declarations, child_rules, j) = block(t, m, i);
            if !(declarations.len() > 0 || child_rules.len() > 0) && i < j <= t.len() {
                lemma_at_rule_rest_block_not_empty(t, m, j, name, nested, prelude);
            }
        } else if tok is AcoladeClToken {
            if !nested {
                lemma_at_rule_rest_block_not_empty(
                    t,
                    m,
                    i + 1,
                    name,
                    nested,
                    prelude.push(SpecComponentValue::PreservedToken(tok)),
                );
            }
        } else {
            lemma_component_value_bounds(t, i);
            let (c, j) = component_value(t, i)->Some_0;
            lemma_at_rule_rest_block_not_empty(t, m, j, name, nested, prelude.push(c));
        }
    }
}

/// The contents of a block end at a `}` token, or at the end of the input.
pub proof fn law_block_contents_end(
    t: Seq<SpecToken>,
    m: SourceMap,
    i: int,
    decls: Seq<SpecDeclaration>,
    rules: Seq<SpecRule>,
)
    requires
        0 <= i <= t.len(),
    ensures
        ({
            let j = block_contents(t, m, i, decls, rules).2;
            j == t.len() || (i <= j < t.len() && t[j] is AcoladeClToken)
        }),
    decreases t.len() - i,
{
    if i < t.len() {
        let tok = t[i];
        if tok is WhitespaceToken || tok is SemicolonToken {
            law_block_contents_end(t, m, i + 1, decls, rules);
        } else if tok is AcoladeClToken {
        } else if tok is AtKeywordToken {
            lemma_at_rule_bounds(t, m, i, true);
            let (r, j) = at_rule(t, m, i, true);
            law_block_contents_end(t, m, j, decls, push_rule(rules, r));
        } else {
            lemma_declaration_bounds(t, m, i, true);
            match declaration(t, m, i, true) {
                (Some(d), j) => {
                    law_block_contents_end(t, m, j, decls.push(d), rules);
                },
                (None, _) => {
                    lemma_qualified_rule_rest_bounds(t, m, i, Some(Token::SemicolonToken), true, Seq::empty());
                    let (r, k) = qualified_rule(t, m, i, Some(Token::SemicolonToken), true);
                    law_block_contents_end(t, m, k, decls, push_rule(rules, r));
                },
            }
        }
    }
}

/// A block ends right after its closing `}`, or at the end of the input.
pub proof fn law_block_end(t: Seq<SpecToken>, m: SourceMap, i: int)
    requires
        0 <= i < t.len(),
        t[i] is AcoladeOpToken,
    ensures
        ({
            let k = block(t, m, i).2;
            k == t.len() || (i + 1 < k && t[k - 1] is AcoladeClToken)
        }),
{
    law_block_contents_end(t, m, i + 1, Seq::empty(), Seq::empty());
}

/// Every token takes at least one code point: there are never more tokens than code points.
pub proof fn law_tokenize_length(s: Seq<char>)
    ensures
        tokenize(s).len() <= s.len(),
{
    lemma_tokens_from_length(s, 0, Seq::empty());
}

proof fn lemma_tokens_from_length(s: Seq<char>, i: int, acc: Seq<SpecToken>)
    requires
        0 <= i <= s.len(),
    ensures
        tokens_from(s, i, acc).len() <= acc.len() + s.len() - i,
    decreases s.len() - i,
{
    lemma_skip_comments_bounds(s, i);
    let j = skip_comments(s, i);
    if j < s.len() {
        lemma_token_at_bounds(s, j);
        let (t, k) = token_at(s, j);
        lemma_tokens_from_length(s, k, acc.push(t));
    }
}

/// A list of component values keeps what it already holds as its start.
proof fn lemma_list_values_prefix(
    t: Seq<SpecToken>,
    i: int,
    stop: Option<SpecToken>,
    nested: bool,
    acc: Seq<SpecComponentValue>,
)
    ensures
        list_values(t, i, stop, nested, acc).0.len() >= acc.len(),
        forall|k: int|
            0 <= k < acc.len() ==> #[trigger] list_values(t, i, stop, nested, acc).0[k] == acc[k],
    decreases t.len() - i,
{
    if 0 <= i < t.len() && stop != Some(t[i]) {
        if t[i] is AcoladeClToken {
            if !nested {
                let acc2 = acc.push(SpecComponentValue::PreservedToken(t[i]));
                lemma_list_values_prefix(t, i + 1, stop, nested, acc2);
                assert forall|k: int| 0 <= k < acc.len() implies #[trigger] list_values(
                    t,
                    i,
                    stop,
                    nested,
                    acc,
                ).0[k] == acc[k] by {
                    assert(acc2[k] == acc[k]);
                }
            }
        } else {
            lemma_component_value_bounds(t, i);
            let (c, j) = component_value(t, i)->Some_0;
            let acc2 = acc.push(c);
            lemma_list_values_prefix(t, j, stop, nested, acc2);
            assert forall|k: int| 0 <= k < acc.len() implies #[trigger] list_values(
                t,
                i,
                stop,
                nested,
                acc,
            ).0[k] == acc[k] by {
                assert(acc2[k] == acc[k]);
            }
        }
    }
}

/// A list of component values that starts at a token other than whitespace does not start
/// with whitespace.
proof fn lemma_list_values_first(t: Seq<SpecToken>, i: int, stop: Option<SpecToken>, nested: bool)
    requires
        0 <= i <= t.len(),
        i == t.len() || !(t[i] is WhitespaceToken),
    ensures
        ({
            let v = list_values(t, i, stop, nested, Seq::empty()).0;
            v.len() == 0 || v[0] != ws_value()
        }),
{
    if i < t.len() && stop != Some(t[i]) {
        if t[i] is AcoladeClToken {
            if !nested {
                lemma_list_values_prefix(
                    t,
                    i + 1,
                    stop,
                    nested,
                    seq![SpecComponentValue::PreservedToken(t[i])],
                );
            }
        } else {
            lemma_component_value_bounds(t, i);
            let (c, j) = component_value(t, i)->Some_0;
            lemma_list_values_prefix(t, j, stop, nested, seq![c]);
            assert(Seq::<SpecComponentValue>::empty().push(c) =~= seq![c]);
        }
    }
}

/// The values after the last value that is not whitespace, before `k`, are whitespace.
pub proof fn lemma_last_non_ws(v: Seq<SpecComponentValue>, k: int)
    requires
        k <= v.len(),
    ensures
        -1 <= last_non_ws(v, k) < k || (k <= 0 && last_non_ws(v, k) == -1),
        last_non_ws(v, k) >= 0 ==> v[last_non_ws(v, k)] != ws_value(),
        forall|l: int| last_non_ws(v, k) < l < k && 0 <= l ==> #[trigger] v[l] == ws_value(),
    decreases k,
{
    if k > 0 && v[k - 1] == ws_value() {
        lemma_last_non_ws(v, k - 1);
    }
}

/// Trimming keeps a start of the value.
proof fn lemma_trim_prefix(v: Seq<SpecComponentValue>)
    ensures
        trim_trailing_ws(v).len() <= v.len(),
        trim_trailing_ws(v) == v.subrange(0, trim_trailing_ws(v).len() as int),
    decreases v.len(),
{
    if v.len() > 0 && v.last() == ws_value() {
        lemma_trim_prefix(v.drop_last());
        assert(v.drop_last().subrange(0, trim_trailing_ws(v).len() as int) =~= v.subrange(
            0,
            trim_trailing_ws(v).len() as int,
        ));
    } else {
        assert(v.subrange(0, v.len() as int) =~= v);
    }
}

/// The value of a declaration never starts with a whitespace token; stated for names
/// other than the unicode-range descriptor.
pub proof fn law_declaration_no_leading_ws(t: Seq<SpecToken>, m: SourceMap, i: int, nested: bool)
    requires
        !names_unicode_range(t, i),
    ensures
        declaration(t, m, i, nested).0 matches Some(d) ==> d.value.len() == 0 || d.value[0]
            != ws_value(),
{
    match declaration(t, m, i, nested).0 {
        Some(d) => {
            let q = discard_ws(t, i + 1);
            lemma_discard_ws_bounds(t, i + 1);
            lemma_discard_ws_bounds(t, q + 1);
            let r = discard_ws(t, q + 1);
            law_discard_ws_end(t, q + 1);
            let values = list_values(t, r, Some(Token::SemicolonToken), nested, Seq::empty()).0;
            lemma_list_values_first(t, r, Some(Token::SemicolonToken), nested);
            let (stripped, important) = strip_important(values);
            let a = last_non_ws(values, values.len() as int);
            let b = last_non_ws(values, a);
            lemma_last_non_ws(values, values.len() as int);
            lemma_last_non_ws(values, a);
            lemma_trim_prefix(stripped);
            law_trim_trailing_ws(stripped);
            let value = trim_trailing_ws(stripped);
            if important && b == 0 {
                assert forall|l: int| 0 <= l < stripped.len() implies #[trigger] stripped[l]
                    == ws_value() by {
                    assert(stripped[l] == values.remove(a)[l + 1]);
                    if l + 1 < a {
                        assert(values.remove(a)[l + 1] == values[l + 1]);
                    } else {
                        assert(values.remove(a)[l + 1] == values[l + 2]);
                    }
                }
                if value.len() > 0 {
                    assert(value.last() == stripped[value.len() - 1]);
                }
            } else if important {
                assert(stripped[0] == values[0]);
                if value.len() > 0 {
                    assert(value[0] == stripped[0]);
                }
            } else {
                if value.len() > 0 {
                    assert(value[0] == stripped[0]);
                }
            }
        },
        None => {},
    }
}

proof fn lemma_values_end_bounds(t: Seq<SpecToken>, i: int, k: nat)
    requires
        0 <= i <= t.len(),
    ensures
        i <= values_end(t, i, k) <= t.len(),
        k > 0 && i < t.len() ==> i < values_end(t, i, k),
    decreases k,
{
    if k > 0 {
        if i < t.len() {
            lemma_component_value_bounds(t, i);
        }
        lemma_values_end_bounds(t, list_step(t, i), (k - 1) as nat);
    }
}

proof fn lemma_urange_tokens_prefix(s: Seq<char>, i: int, acc: Seq<SpecToken>)
    ensures
        acc.len() <= urange_tokens_from(s, i, acc).len(),
        forall|a: int| 0 <= a < acc.len() ==> #[trigger] urange_tokens_from(s, i, acc)[a] == acc[a],
    decreases s.len() - i,
{
    let j = skip_comments(s, i);
    if 0 <= i && j < s.len() {
        lemma_skip_comments_bounds(s, i);
        lemma_token_at_u_bounds(s, j, true);
        let (t, k) = token_at_u(s, j, true);
        lemma_urange_tokens_prefix(s, k, acc.push(t));
        assert forall|a: int| 0 <= a < acc.len() implies #[trigger] urange_tokens_from(s, i, acc)[a]
            == acc[a] by {
            assert(acc.push(t)[a] == acc[a]);
        }
    }
}

/// The value of a unicode-range descriptor read from a text that starts with a code point
/// other than whitespace, and with no comment, does not start with a whitespace token.
proof fn lemma_unicode_range_value_first(text: Seq<char>)
    requires
        text.len() > 0,
        !is_whitespace(text[0]),
        !starts_comment(text, 0),
    ensures
        unicode_range_value(text).len() == 0 || unicode_range_value(text)[0] != ws_value(),
{
    let u = urange_tokenize(text);
    let (t0, k) = token_at_u(text, 0, true);
    lemma_token_at_u_bounds(text, 0, true);
    lemma_urange_tokens_prefix(text, k, seq![t0]);
    assert(u == urange_tokens_from(text, k, seq![t0]));
    assert(u[0] == seq![t0][0]);
    if !starts_unicode_range(text, 0) {
        lemma_token_at_not_ws(text, 0);
    }
    lemma_list_values_first(u, 0, None, false);
}

/// In the tokens of a text, the value of a declaration never starts with a whitespace
/// token, whatever its name.
pub proof fn law_declaration_in_text_no_leading_ws(p: Seq<char>, i: int, nested: bool)
    ensures
        declaration(tokenize(p), source_map_of(p), i, nested).0 matches Some(d) ==> d.value.len()
            == 0 || d.value[0] != ws_value(),
{
    let t = tokenize(p);
    let m = source_map_of(p);
    if !names_unicode_range(t, i) {
        law_declaration_no_leading_ws(t, m, i, nested);
    } else if declaration(t, m, i, nested).0 is Some {
        let name = tk(t, i)->Some_0->IdentToken_0;
        assert(ascii_ci_char_eq(name[0], unicode_range_name()[0]));
        let q = discard_ws(t, i + 1);
        lemma_discard_ws_bounds(t, i + 1);
        lemma_discard_ws_bounds(t, q + 1);
        let r = discard_ws(t, q + 1);
        law_discard_ws_end(t, q + 1);
        let values = list_values(t, r, Some(Token::SemicolonToken), nested, Seq::empty()).0;
        let b = values_end(t, r, values.len());
        lemma_values_end_bounds(t, r, values.len());
        let text = segment(m, r, b);
        if values.len() == 0 {
            assert(text =~= Seq::<char>::empty());
            assert(urange_tokenize(text) =~= Seq::<SpecToken>::empty());
        } else {
            if r == t.len() {
                assert(values =~= Seq::<SpecComponentValue>::empty());
            }
            lemma_token_spans(p);
            lemma_spans_tokens(p);
            let sp = m.spans;
            let j = sp[r].0;
            let e = sp[b - 1].1;
            lemma_token_at_bounds(p, j);
            if r < b - 1 {
                assert(sp[r].1 <= sp[b - 1].0);
            }
            assert(text =~= p.subrange(j, e));
            assert(!is_whitespace(cp(p, j)));
            assert(text[0] == p[j]);
            if starts_comment(text, 0) {
                assert(text[1] == p[j + 1]);
                assert(starts_comment(p, j));
            }
            lemma_unicode_range_value_first(text);
        }
    }
}

} // verus!
