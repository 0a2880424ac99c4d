use vstd::prelude::*;

use crate::chars::ascii_ci_eq;
use crate::laws::lemma_last_non_ws;
use crate::parse_spec::{
    important_name, is_block_opening, last_non_ws, mirror, simple_block, at_rule, at_rule_rest, block, block_values, component_value, function_value,
    lemma_at_rule_bounds, lemma_component_value_bounds, lemma_qualified_rule_rest_bounds,
    declaration, tk, qualified_rule, qualified_rule_rest, starts_custom_property, strip_important,
    stylesheet_rules, ws_value, SourceMap,
};
use crate::syntax::{SpecComponentValue, SpecRule};
use crate::token::{SpecToken, Token};

verus! {

// ---------------------------------------------------------------------------
// The top level of a style sheet reads its rules one after another.
// ---------------------------------------------------------------------------

/// The rules read from index `i` on come after the rules already read.
pub proof fn law_stylesheet_rules_append(
    t: Seq<SpecToken>,
    m: SourceMap,
    i: int,
    rules: Seq<SpecRule>,
)
    ensures
        stylesheet_rules(t, m, i, rules) == rules + stylesheet_rules(t, m, i, Seq::empty()),
    decreases t.len() - i,
{
    if 0 <= i < t.len() {
        let tok = t[i];
        if tok is WhitespaceToken || tok is CdcToken || tok is CdoToken {
            law_stylesheet_rules_append(t, m, i + 1, rules);
        } else if tok is AtKeywordToken {
            lemma_at_rule_bounds(t, m, i, false);
            let (r, j) = at_rule(t, m, i, false);
            match r {
                Some(r) => {
                    law_stylesheet_rules_append(t, m, j, rules.push(r));
                    law_stylesheet_rules_append(t, m, j, seq![r]);
                    assert(rules.push(r) =~= rules + seq![r]);
                    assert(Seq::<SpecRule>::empty().push(r) =~= seq![r]);
                    assert(rules + (seq![r] + stylesheet_rules(t, m, j, Seq::empty())) =~= rules
                        + seq![r] + stylesheet_rules(t, m, j, Seq::empty()));
                },
                None => {
                    law_stylesheet_rules_append(t, m, j, rules);
                },
            }
        } else {
            lemma_qualified_rule_rest_bounds(t, m, i, None, false, Seq::empty());
            let (r, j) = qualified_rule(t, m, i, None, false);
            match r {
                Some(r) => {
                    law_stylesheet_rules_append(t, m, j, rules.push(r));
                    law_stylesheet_rules_append(t, m, j, seq![r]);
                    assert(rules.push(r) =~= rules + seq![r]);
                    assert(Seq::<SpecRule>::empty().push(r) =~= seq![r]);
                    assert(rules + (seq![r] + stylesheet_rules(t, m, j, Seq::empty())) =~= rules
                        + seq![r] + stylesheet_rules(t, m, j, Seq::empty()));
                },
                None => {
                    law_stylesheet_rules_append(t, m, j, rules);
                },
            }
        }
    } else {
        assert(rules + Seq::<SpecRule>::empty() =~= rules);
    }
}

/// At the top level a whitespace, `<!--` or `-->` token is dropped alone: the rules are
/// those read from the next token on.
pub proof fn law_top_level_token_dropped(t: Seq<SpecToken>, m: SourceMap, i: int)
    requires
        0 <= i < t.len(),
        t[i] is WhitespaceToken || t[i] is CdcToken || t[i] is CdoToken,
    ensures
        stylesheet_rules(t, m, i, Seq::empty()) == stylesheet_rules(t, m, i + 1, Seq::empty()),
{
}

/// No token is skipped between top-level rules: a qualified rule read at `i` that ends
/// at `j` is followed by the rules read from `j` on, and when it gives nothing the rules
/// read from `j` on are all there is.
pub proof fn law_qualified_rule_then_rest(t: Seq<SpecToken>, m: SourceMap, i: int)
    requires
        0 <= i < t.len(),
        !(t[i] is WhitespaceToken || t[i] is CdcToken || t[i] is CdoToken || t[i] is AtKeywordToken),
    ensures
        ({
            let (r, j) = qualified_rule(t, m, i, None, false);
            &&& i < j <= t.len()
            &&& stylesheet_rules(t, m, i, Seq::empty()) == match r {
                Some(r) => seq![r] + stylesheet_rules(t, m, j, Seq::empty()),
                None => stylesheet_rules(t, m, j, Seq::empty()),
            }
        }),
{
    lemma_qualified_rule_rest_bounds(t, m, i, None, false, Seq::empty());
    let (r, j) = qualified_rule(t, m, i, None, false);
    if let Some(r) = r {
        law_stylesheet_rules_append(t, m, j, seq![r]);
        assert(Seq::<SpecRule>::empty().push(r) =~= seq![r]);
    }
}

/// No token is skipped between top-level rules: an at-rule read at `i` that ends at `j` is
/// followed by the rules read from `j` on.
pub proof fn law_at_rule_then_rest(t: Seq<SpecToken>, m: SourceMap, i: int)
    requires
        0 <= i < t.len(),
        t[i] is AtKeywordToken,
    ensures
        ({
            let (r, j) = at_rule(t, m, i, false);
            &&& i < j <= t.len()
            &&& stylesheet_rules(t, m, i, Seq::empty()) == match r {
                Some(r) => seq![r] + stylesheet_rules(t, m, j, Seq::empty()),
                None => stylesheet_rules(t, m, j, Seq::empty()),
            }
        }),
{
    lemma_at_rule_bounds(t, m, i, false);
    let (r, j) = at_rule(t, m, i, false);
    if let Some(r) = r {
        law_stylesheet_rules_append(t, m, j, seq![r]);
        assert(Seq::<SpecRule>::empty().push(r) =~= seq![r]);
    }
}

// ---------------------------------------------------------------------------
// Functions nest.
// ---------------------------------------------------------------------------

/// Inside a function or a simple block, a function token starts a nested function: the
/// values get one `Function` value named after the token, whose own values run to the
/// matching `)`, and the values go on after that `)`.
pub proof fn law_block_values_nest_functions(
    t: Seq<SpecToken>,
    i: int,
    end: SpecToken,
    acc: Seq<SpecComponentValue>,
)
    requires
        0 <= i < t.len(),
        t[i] is FunctionToken,
        t[i] != end,
    ensures
        ({
            let (inner, j) = block_values(t, i + 1, Token::ParenthClToken, Seq::empty());
            let f = SpecComponentValue::Function { name: t[i]->FunctionToken_0, value: inner };
            &&& i < j <= t.len()
            &&& function_value(t, i) == (f, j)
            &&& block_values(t, i, end, acc) == block_values(t, j, end, acc.push(f))
        }),
{
    lemma_component_value_bounds(t, i);
}

/// Inside a function or a simple block, an opening token starts a nested simple block: the
/// values get one `SimpleBlock` value with that token, whose own values run to the
/// matching closing token, and the values go on after it.
pub proof fn law_block_values_nest_blocks(
    t: Seq<SpecToken>,
    i: int,
    end: SpecToken,
    acc: Seq<SpecComponentValue>,
)
    requires
        0 <= i < t.len(),
        is_block_opening(t[i]),
        t[i] != end,
    ensures
        ({
            let (inner, j) = block_values(t, i + 1, mirror(t[i]), Seq::empty());
            let b = SpecComponentValue::SimpleBlock { associated_token: t[i], value: inner };
            &&& i < j <= t.len()
            &&& simple_block(t, i) == (b, j)
            &&& block_values(t, i, end, acc) == block_values(t, j, end, acc.push(b))
        }),
{
    lemma_component_value_bounds(t, i);
}

/// A token that opens no block and starts no function is kept as it is, alone.
pub proof fn law_component_value_preserves_token(t: Seq<SpecToken>, i: int)
    requires
        0 <= i < t.len(),
        !is_block_opening(t[i]),
        !(t[i] is FunctionToken),
    ensures
        component_value(t, i) == Some((SpecComponentValue::PreservedToken(t[i]), i + 1)),
{
}

/// A declaration is named by the ident token it starts at.
pub proof fn law_declaration_name(t: Seq<SpecToken>, m: SourceMap, i: int, nested: bool)
    ensures
        declaration(t, m, i, nested).0 matches Some(d) ==> tk(t, i) == Some(
            Token::<Seq<char>>::IdentToken(d.name),
        ),
{
}

// ---------------------------------------------------------------------------
// An at-rule reads the same whether it is nested or not.
// ---------------------------------------------------------------------------

/// A nested at-rule that gives a rule gives the very rule, ending at the same token, that
/// it gives at the top level: nesting only decides what a `}` does.
pub proof fn law_at_rule_nested_agrees(t: Seq<SpecToken>, m: SourceMap, i: int)
    requires
        at_rule(t, m, i, true).0 is Some,
    ensures
        at_rule(t, m, i, true) == at_rule(t, m, i, false),
{
    if 0 <= i < t.len() {
        if let Token::AtKeywordToken(name) = t[i] {
            lemma_at_rule_rest_nested_agrees(t, m, i + 1, name, Seq::empty());
        }
    }
}

proof fn lemma_at_rule_rest_nested_agrees(
    t: Seq<SpecToken>,
    m: SourceMap,
    i: int,
    name: Seq<char>,
    prelude: Seq<SpecComponentValue>,
)
    requires
        at_rule_rest(t, m, i, name, true, prelude).0 is Some,
    ensures
        at_rule_rest(t, m, i, name, true, prelude) == at_rule_rest(t, m, i, name, false, prelude),
    decreases t.len() - i,
{
    if 0 <= i < t.len() {
        let tok = t[i];
        if !(tok is SemicolonToken) && !(tok is AcoladeClToken) && !(tok is AcoladeOpToken) {
            lemma_component_value_bounds(t, i);
            let (c, j) = component_value(t, i)->Some_0;
            lemma_at_rule_rest_nested_agrees(t, m, j, name, prelude.push(c));
        }
    }
}

/// An at-rule whose `{}` block gives declarations or rules is a block at-rule with exactly
/// them, nested or not, and it ends after the block.
pub proof fn law_at_rule_block_kept(
    t: Seq<SpecToken>,
    m: SourceMap,
    k: int,
    name: Seq<char>,
    nested: bool,
    prelude: Seq<SpecComponentValue>,
)
    requires
        0 <= k < t.len(),
        t[k] is AcoladeOpToken,
        block(t, m, k).0.len() > 0 || block(t, m, k).1.len() > 0,
    ensures
        at_rule_rest(t, m, k, name, nested, prelude) == (
            Some(
                SpecRule::BlockAtRule {
                    name,
                    prelude,
                    declarations: block(t, m, k).0,
                    child_rules: block(t, m, k).1,
                },
            ),
            block(t, m, k).2,
        ),
{
}

// ---------------------------------------------------------------------------
// Only a custom property name before a colon rejects a qualified rule.
// ---------------------------------------------------------------------------

/// A prelude that starts like a custom property has, before anything else but
/// whitespace, an ident token whose name starts with two dashes.
pub proof fn law_custom_property_prelude(p: Seq<SpecComponentValue>)
    requires
        starts_custom_property(p),
    ensures
        exists|a: int|
            #![trigger p[a]]
            0 <= a < p.len() && (forall|l: int| 0 <= l < a ==> p[l] == ws_value()) && (
            p[a] matches SpecComponentValue::PreservedToken(Token::IdentToken(x)) && x.len() >= 2
                && x[0] == '-' && x[1] == '-'),
{
    let a = crate::parse_spec::first_non_ws(p, 0);
    lemma_first_non_ws(p, 0);
    assert(p[a] == p[a]);
}

proof fn lemma_first_non_ws(v: Seq<SpecComponentValue>, k: int)
    requires
        0 <= k,
    ensures
        k <= crate::parse_spec::first_non_ws(v, k) <= v.len() || k > v.len(),
        forall|l: int|
            k <= l < crate::parse_spec::first_non_ws(v, k) && l < v.len() ==> #[trigger] v[l]
                == ws_value(),
    decreases v.len() - k,
{
    if k < v.len() && v[k] == ws_value() {
        lemma_first_non_ws(v, k + 1);
    }
}

/// A qualified rule whose prelude does not start with an ident token beginning with two
/// dashes (whitespace aside) keeps its `{}` block: it is the rule with that prelude and
/// the block's declarations and rules, and it ends after the block.
pub proof fn law_qualified_rule_block_kept(
    t: Seq<SpecToken>,
    m: SourceMap,
    k: int,
    stop: Option<SpecToken>,
    nested: bool,
    prelude: Seq<SpecComponentValue>,
)
    requires
        0 <= k < t.len(),
        t[k] is AcoladeOpToken,
        stop != Some(t[k]),
        forall|a: int|
            #![trigger prelude[a]]
            0 <= a < prelude.len() && (forall|l: int| 0 <= l < a ==> prelude[l] == ws_value())
                ==> !(prelude[a] matches SpecComponentValue::PreservedToken(Token::IdentToken(x))
                && x.len() >= 2 && x[0] == '-' && x[1] == '-'),
    ensures
        qualified_rule_rest(t, m, k, stop, nested, prelude) == (
            Some(
                SpecRule::QualifiedRule {
                    prelude,
                    declarations: block(t, m, k).0,
                    child_rules: block(t, m, k).1,
                },
            ),
            block(t, m, k).2,
        ),
{
    if starts_custom_property(prelude) {
        law_custom_property_prelude(prelude);
    }
}

// ---------------------------------------------------------------------------
// `!important` at the end of a value.
// ---------------------------------------------------------------------------

/// A value that ends with `!` and `important` is that value with the important flag,
/// whatever comes before the `!`.
pub proof fn law_strip_important_suffix(v: Seq<SpecComponentValue>)
    ensures
        strip_important(
            v.push(SpecComponentValue::PreservedToken(Token::DelimToken('!'))).push(
                SpecComponentValue::PreservedToken(
                    Token::IdentToken(seq!['i', 'm', 'p', 'o', 'r', 't', 'a', 'n', 't']),
                ),
            ),
        ) == (v, true),
{
    let bang = SpecComponentValue::PreservedToken(Token::DelimToken('!'));
    let word = seq!['i', 'm', 'p', 'o', 'r', 't', 'a', 'n', 't'];
    let imp = SpecComponentValue::PreservedToken(Token::IdentToken(word));
    let w = v.push(bang).push(imp);
    let n = w.len() as int;
    assert(w[n - 1] == imp);
    assert(w[n - 2] == bang);
    assert(crate::parse_spec::last_non_ws(w, n) == n - 1);
    assert(crate::parse_spec::last_non_ws(w, n - 1) == n - 2);
    assert(crate::chars::ascii_ci_eq(word, crate::parse_spec::important_name()));
    assert(w.remove(n - 1).remove(n - 2) =~= v);
}

/// The important flag depends only on the last two values that are not whitespace: a
/// value made of `v`, `!`, whitespace `w1`, an ident that matches "important" in any ASCII
/// case, and whitespace `w2`, is `v`, `w1` and `w2` with the flag set.
pub proof fn law_strip_important_last_two(
    v: Seq<SpecComponentValue>,
    w1: Seq<SpecComponentValue>,
    x: Seq<char>,
    w2: Seq<SpecComponentValue>,
)
    requires
        forall|l: int| 0 <= l < w1.len() ==> #[trigger] w1[l] == ws_value(),
        forall|l: int| 0 <= l < w2.len() ==> #[trigger] w2[l] == ws_value(),
        ascii_ci_eq(x, seq!['i', 'm', 'p', 'o', 'r', 't', 'a', 'n', 't']),
    ensures
        strip_important(
            v + seq![SpecComponentValue::PreservedToken(Token::DelimToken('!'))] + w1 + seq![
                SpecComponentValue::PreservedToken(Token::IdentToken(x)),
            ] + w2,
        ) == (v + w1 + w2, true),
{
    let bang = SpecComponentValue::PreservedToken(Token::DelimToken('!'));
    let imp = SpecComponentValue::PreservedToken(Token::IdentToken(x));
    let w = v + seq![bang] + w1 + seq![imp] + w2;
    let n = w.len() as int;
    let pb = v.len() as int;
    let pi = pb + 1 + w1.len();
    assert(w[pb] == bang);
    assert(w[pi] == imp);
    assert(important_name() =~= seq!['i', 'm', 'p', 'o', 'r', 't', 'a', 'n', 't']);
    assert forall|l: int| pi < l < n implies #[trigger] w[l] == ws_value() by {
        assert(w[l] == w2[l - pi - 1]);
    }
    assert forall|l: int| pb < l < pi implies #[trigger] w[l] == ws_value() by {
        assert(w[l] == w1[l - pb - 1]);
    }
    lemma_last_non_ws(w, n);
    let a = last_non_ws(w, n);
    if a < pi {
        assert(w[pi] == ws_value());
    }
    assert(a == pi);
    lemma_last_non_ws(w, a);
    let b = last_non_ws(w, a);
    if b < pb {
        assert(w[pb] == ws_value());
    }
    assert(b == pb);
    assert(w.remove(a).remove(b) =~= v + w1 + w2);
}

} // verus!
