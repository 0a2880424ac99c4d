use vstd::prelude::*;

use crate::token::{CssToken, SpecToken};

verus! {

/// A component value: a preserved token, a function or a simple block.
#[derive(Debug)]
pub enum ComponentValue {
    PreservedToken(CssToken),
    Function { name: String, component_value: Vec<ComponentValue> },
    SimpleBlock { associated_token: CssToken, value: Vec<ComponentValue> },
}

/// A declaration: `name: value [!important]`.
#[derive(Debug)]
pub struct Declaration {
    pub name: String,
    pub component_values: Vec<ComponentValue>,
    pub important: bool,
    pub original_text: Option<String>,
}

/// A rule of a style sheet or of a block.
#[derive(Debug)]
pub enum Rule {
    AtRule { name: String, component_value: Vec<ComponentValue> },
    BlockAtRule {
        name: String,
        component_value: Vec<ComponentValue>,
        declarations: Vec<Declaration>,
        child_rules: Vec<Rule>,
    },
    QualifiedRule {
        component_value: Vec<ComponentValue>,
        declarations: Vec<Declaration>,
        child_rules: Vec<Rule>,
    },
}

/// What can go wrong while parsing.
#[derive(Debug)]
pub enum ParseError {
    /// The style sheet could not be read; the message says why.
    GetFileError(String),
    UnknowToken(CssToken),
    ParseError(String),
    NoToken,
    BadToken(String),
}

/// The model of a component value.
pub enum SpecComponentValue {
    PreservedToken(SpecToken),
    Function { name: Seq<char>, value: Seq<SpecComponentValue> },
    SimpleBlock { associated_token: SpecToken, value: Seq<SpecComponentValue> },
}

/// The model of a declaration.
pub struct SpecDeclaration {
    pub name: Seq<char>,
    pub value: Seq<SpecComponentValue>,
    pub important: bool,
    pub original_text: Option<Seq<char>>,
}

/// The model of a rule.
pub enum SpecRule {
    AtRule { name: Seq<char>, prelude: Seq<SpecComponentValue> },
    BlockAtRule {
        name: Seq<char>,
        prelude: Seq<SpecComponentValue>,
        declarations: Seq<SpecDeclaration>,
        child_rules: Seq<SpecRule>,
    },
    QualifiedRule {
        prelude: Seq<SpecComponentValue>,
        declarations: Seq<SpecDeclaration>,
        child_rules: Seq<SpecRule>,
    },
}

pub open spec fn cv_view(c: ComponentValue) -> SpecComponentValue
    decreases c,
{
    match c {
        ComponentValue::PreservedToken(t) => SpecComponentValue::PreservedToken(t@),
        ComponentValue::Function { name, component_value } => SpecComponentValue::Function {
            name: name@,
            value: cvs_view(component_value@),
        },
        ComponentValue::SimpleBlock { associated_token, value } => SpecComponentValue::SimpleBlock {
            associated_token: associated_token@,
            value: cvs_view(value@),
        },
    }
}

/// The model of a list of component values.
pub open spec fn cvs_view(s: Seq<ComponentValue>) -> Seq<SpecComponentValue>
    decreases s,
{
    if s.len() == 0 {
        Seq::empty()
    } else {
        cvs_view(s.subrange(0, s.len() - 1)).push(cv_view(s[s.len() - 1]))
    }
}

impl View for ComponentValue {
    type V = SpecComponentValue;

    open spec fn view(&self) -> SpecComponentValue {
        cv_view(*self)
    }
}

pub open spec fn decl_view(d: Declaration) -> SpecDeclaration {
    SpecDeclaration {
        name: d.name@,
        value: cvs_view(d.component_values@),
        important: d.important,
        original_text: match d.original_text {
            Some(t) => Some(t@),
            None => None,
        },
    }
}

impl View for Declaration {
    type V = SpecDeclaration;

    open spec fn view(&self) -> SpecDeclaration {
        decl_view(*self)
    }
}

/// The model of a list of declarations.
pub open spec fn decls_view(s: Seq<Declaration>) -> Seq<SpecDeclaration> {
    s.map_values(|d: Declaration| decl_view(d))
}

pub open spec fn rule_view(r: Rule) -> SpecRule
    decreases r,
{
    match r {
        Rule::AtRule { name, component_value } => SpecRule::AtRule {
            name: name@,
            prelude: cvs_view(component_value@),
        },
        Rule::BlockAtRule { name, component_value, declarations, child_rules } => SpecRule::BlockAtRule {
            name: name@,
            prelude: cvs_view(component_value@),
            declarations: decls_view(declarations@),
            child_rules: rules_view(child_rules@),
        },
        Rule::QualifiedRule { component_value, declarations, child_rules } => SpecRule::QualifiedRule {
            prelude: cvs_view(component_value@),
            declarations: decls_view(declarations@),
            child_rules: rules_view(child_rules@),
        },
    }
}

/// The model of a list of rules.
pub open spec fn rules_view(s: Seq<Rule>) -> Seq<SpecRule>
    decreases s,
{
    if s.len() == 0 {
        Seq::empty()
    } else {
        rules_view(s.subrange(0, s.len() - 1)).push(rule_view(s[s.len() - 1]))
    }
}

impl View for Rule {
    type V = SpecRule;

    open spec fn view(&self) -> SpecRule {
        rule_view(*self)
    }
}

/// Pushing a value at the end of a list pushes its model at the end of the list's model.
pub proof fn lemma_cvs_view_push(s: Seq<ComponentValue>, c: ComponentValue)
    ensures
        cvs_view(s.push(c)) == cvs_view(s).push(cv_view(c)),
{
    assert(s.push(c).subrange(0, s.len() as int) =~= s);
}

pub proof fn lemma_rules_view_push(s: Seq<Rule>, r: Rule)
    ensures
        rules_view(s.push(r)) == rules_view(s).push(rule_view(r)),
{
    assert(s.push(r).subrange(0, s.len() as int) =~= s);
}

/// The model of a list has one element per element, each the element's model.
pub proof fn lemma_cvs_view_index(s: Seq<ComponentValue>)
    ensures
        cvs_view(s).len() == s.len(),
        forall|i: int| 0 <= i < s.len() ==> #[trigger] cvs_view(s)[i] == cv_view(s[i]),
    decreases s.len(),
{
    if s.len() > 0 {
        lemma_cvs_view_index(s.subrange(0, s.len() - 1));
    }
}

pub proof fn lemma_rules_view_index(s: Seq<Rule>)
    ensures
        rules_view(s).len() == s.len(),
        forall|i: int| 0 <= i < s.len() ==> #[trigger] rules_view(s)[i] == rule_view(s[i]),
    decreases s.len(),
{
    if s.len() > 0 {
        lemma_rules_view_index(s.subrange(0, s.len() - 1));
    }
}

/// Removing a value from a list removes its model from the list's model.
pub proof fn lemma_cvs_view_remove(s: Seq<ComponentValue>, i: int)
    requires
        0 <= i < s.len(),
    ensures
        cvs_view(s.remove(i)) == cvs_view(s).remove(i),
{
    lemma_cvs_view_index(s);
    lemma_cvs_view_index(s.remove(i));
    assert(cvs_view(s.remove(i)) =~= cvs_view(s).remove(i));
}

/// Dropping the last value of a list drops the last model of the list's model.
pub proof fn lemma_cvs_view_drop_last(s: Seq<ComponentValue>)
    requires
        s.len() > 0,
    ensures
        cvs_view(s.drop_last()) == cvs_view(s).drop_last(),
        cvs_view(s).last() == cv_view(s.last()),
{
    assert(s.drop_last() =~= s.subrange(0, s.len() - 1));
}

pub proof fn lemma_decls_view_push(s: Seq<Declaration>, d: Declaration)
    ensures
        decls_view(s.push(d)) == decls_view(s).push(decl_view(d)),
{
    assert(decls_view(s.push(d)) =~= decls_view(s).push(decl_view(d)));
}

} // verus!
