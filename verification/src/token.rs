use vstd::prelude::*;

verus! {

/// A CSS token. `S` is the type of the text that a token carries: `String` for
/// the tokens a program handles (`CssToken`), `Seq<char>` for their model
/// (`SpecToken`).
#[derive(Debug)]
pub enum Token<S> {
    IdentToken(S),
    FunctionToken(S),
    AtKeywordToken(S),
    /// `is_id` is the "id" type flag of a hash token.
    HashToken { value: S, is_id: bool },
    StringToken(S),
    BadStringToken,
    UrlToken(S),
    BadUrlToken,
    /// A unicode-range token: the code points `start..=end`. The tokenizer makes one only
    /// when unicode ranges are allowed.
    UnicodeRangeToken { start: u32, end: u32 },
    DelimToken(char),
    /// A number, kept as the text that spelled it; `is_integer` is its type flag.
    NumberToken { repr: S, is_integer: bool },
    PercentageToken { repr: S, is_integer: bool },
    DimensionToken { repr: S, is_integer: bool, unit: S },
    WhitespaceToken,
    CdoToken,
    CdcToken,
    ColonToken,
    SemicolonToken,
    CommaToken,
    CrochetOpToken,
    CrochetClToken,
    ParenthOpToken,
    ParenthClToken,
    AcoladeOpToken,
    AcoladeClToken,
}

pub type CssToken = Token<String>;

pub type SpecToken = Token<Seq<char>>;

impl View for Token<String> {
    type V = Token<Seq<char>>;

    open spec fn view(&self) -> Token<Seq<char>> {
        match self {
            Token::IdentToken(s) => Token::IdentToken(s@),
            Token::FunctionToken(s) => Token::FunctionToken(s@),
            Token::AtKeywordToken(s) => Token::AtKeywordToken(s@),
            Token::HashToken { value, is_id } => Token::HashToken { value: value@, is_id: *is_id },
            Token::StringToken(s) => Token::StringToken(s@),
            Token::BadStringToken => Token::BadStringToken,
            Token::UrlToken(s) => Token::UrlToken(s@),
            Token::BadUrlToken => Token::BadUrlToken,
            Token::UnicodeRangeToken { start, end } => Token::UnicodeRangeToken {
                start: *start,
                end: *end,
            },
            Token::DelimToken(c) => Token::DelimToken(*c),
            Token::NumberToken { repr, is_integer } => Token::NumberToken {
                repr: repr@,
                is_integer: *is_integer,
            },
            Token::PercentageToken { repr, is_integer } => Token::PercentageToken {
                repr: repr@,
                is_integer: *is_integer,
            },
            Token::DimensionToken { repr, is_integer, unit } => Token::DimensionToken {
                repr: repr@,
                is_integer: *is_integer,
                unit: unit@,
            },
            Token::WhitespaceToken => Token::WhitespaceToken,
            Token::CdoToken => Token::CdoToken,
            Token::CdcToken => Token::CdcToken,
            Token::ColonToken => Token::ColonToken,
            Token::SemicolonToken => Token::SemicolonToken,
            Token::CommaToken => Token::CommaToken,
            Token::CrochetOpToken => Token::CrochetOpToken,
            Token::CrochetClToken => Token::CrochetClToken,
            Token::ParenthOpToken => Token::ParenthOpToken,
            Token::ParenthClToken => Token::ParenthClToken,
            Token::AcoladeOpToken => Token::AcoladeOpToken,
            Token::AcoladeClToken => Token::AcoladeClToken,
        }
    }
}

impl Token<String> {
    /// A copy of the token.
    pub fn clone_token(&self) -> (t: CssToken)
        ensures
            t == *self,
    {
        match self {
            Token::IdentToken(s) => Token::IdentToken(s.clone()),
            Token::FunctionToken(s) => Token::FunctionToken(s.clone()),
            Token::AtKeywordToken(s) => Token::AtKeywordToken(s.clone()),
            Token::HashToken { value, is_id } => Token::HashToken { value: value.clone(), is_id: *is_id },
            Token::StringToken(s) => Token::StringToken(s.clone()),
            Token::BadStringToken => Token::BadStringToken,
            Token::UrlToken(s) => Token::UrlToken(s.clone()),
            Token::BadUrlToken => Token::BadUrlToken,
            Token::UnicodeRangeToken { start, end } => Token::UnicodeRangeToken {
                start: *start,
                end: *end,
            },
            Token::DelimToken(c) => Token::DelimToken(*c),
            Token::NumberToken { repr, is_integer } => Token::NumberToken {
                repr: repr.clone(),
                is_integer: *is_integer,
            },
            Token::PercentageToken { repr, is_integer } => Token::PercentageToken {
                repr: repr.clone(),
                is_integer: *is_integer,
            },
            Token::DimensionToken { repr, is_integer, unit } => Token::DimensionToken {
                repr: repr.clone(),
                is_integer: *is_integer,
                unit: unit.clone(),
            },
            Token::WhitespaceToken => Token::WhitespaceToken,
            Token::CdoToken => Token::CdoToken,
            Token::CdcToken => Token::CdcToken,
            Token::ColonToken => Token::ColonToken,
            Token::SemicolonToken => Token::SemicolonToken,
            Token::CommaToken => Token::CommaToken,
            Token::CrochetOpToken => Token::CrochetOpToken,
            Token::CrochetClToken => Token::CrochetClToken,
            Token::ParenthOpToken => Token::ParenthOpToken,
            Token::ParenthClToken => Token::ParenthClToken,
            Token::AcoladeOpToken => Token::AcoladeOpToken,
            Token::AcoladeClToken => Token::AcoladeClToken,
        }
    }
}

impl Token<String> {
    /// Whether two tokens are equal: same kind, same text, same flags.
    pub fn same_token(&self, other: &CssToken) -> (r: bool)
        ensures
            r == (self@ == other@),
    {
        match self {
            Token::IdentToken(x) => match other {
                Token::IdentToken(y) => *x == *y,
                _ => false,
            },
            Token::FunctionToken(x) => match other {
                Token::FunctionToken(y) => *x == *y,
                _ => false,
            },
            Token::AtKeywordToken(x) => match other {
                Token::AtKeywordToken(y) => *x == *y,
                _ => false,
            },
            Token::HashToken { value: x, is_id: a } => match other {
                Token::HashToken { value: y, is_id: b } => *x == *y && *a == *b,
                _ => false,
            },
            Token::StringToken(x) => match other {
                Token::StringToken(y) => *x == *y,
                _ => false,
            },
            Token::UrlToken(x) => match other {
                Token::UrlToken(y) => *x == *y,
                _ => false,
            },
            Token::DelimToken(x) => match other {
                Token::DelimToken(y) => *x == *y,
                _ => false,
            },
            Token::NumberToken { repr: x, is_integer: a } => match other {
                Token::NumberToken { repr: y, is_integer: b } => *x == *y && *a == *b,
                _ => false,
            },
            Token::PercentageToken { repr: x, is_integer: a } => match other {
                Token::PercentageToken { repr: y, is_integer: b } => *x == *y && *a == *b,
                _ => false,
            },
            Token::DimensionToken { repr: x, is_integer: a, unit: u } => match other {
                Token::DimensionToken { repr: y, is_integer: b, unit: v } => *x == *y && *a == *b && *u
                    == *v,
                _ => false,
            },
            Token::BadStringToken => matches!(other, Token::BadStringToken),
            Token::BadUrlToken => matches!(other, Token::BadUrlToken),
            Token::UnicodeRangeToken { start: a, end: b } => match other {
                Token::UnicodeRangeToken { start: c, end: d } => *a == *c && *b == *d,
                _ => false,
            },
            Token::WhitespaceToken => matches!(other, Token::WhitespaceToken),
            Token::CdoToken => matches!(other, Token::CdoToken),
            Token::CdcToken => matches!(other, Token::CdcToken),
            Token::ColonToken => matches!(other, Token::ColonToken),
            Token::SemicolonToken => matches!(other, Token::SemicolonToken),
            Token::CommaToken => matches!(other, Token::CommaToken),
            Token::CrochetOpToken => matches!(other, Token::CrochetOpToken),
            Token::CrochetClToken => matches!(other, Token::CrochetClToken),
            Token::ParenthOpToken => matches!(other, Token::ParenthOpToken),
            Token::ParenthClToken => matches!(other, Token::ParenthClToken),
            Token::AcoladeOpToken => matches!(other, Token::AcoladeOpToken),
            Token::AcoladeClToken => matches!(other, Token::AcoladeClToken),
        }
    }
}

} // verus!
