use vstd::prelude::*;

use url::Url;

use crate::parse_spec::parse_rules;
use crate::parser::parse_string;
use crate::syntax::{rules_view, ParseError, Rule};

verus! {

#[verifier::external_type_specification]
#[verifier::external_body]
pub struct ExUrl(Url);

/// The serialization of a URL: what `Url::to_string` gives.
pub uninterp spec fn url_serialization(u: Url) -> Seq<char>;

/// The path of a URL: what `Url::path` gives.
pub uninterp spec fn url_path(u: Url) -> Seq<char>;

/// The domain of a URL: what `Url::domain` gives.
pub uninterp spec fn url_domain(u: Url) -> Option<Seq<char>>;

/// `Url::to_string` (the `Display` of `Url`): the serialization of the URL. Its
/// result is named by `url_serialization`; nothing more is claimed of it.
#[verifier::external_body]
fn url_to_string(u: &Url) -> (s: String)
    ensures
        s@ == url_serialization(*u),
{
    u.to_string()
}

/// `Url::path`: the path of the URL. Its result is named by `url_path`, applied to the
/// URL value itself (the url crate stores the host apart from the serialization, so the path is
/// not claimed to follow from the serialization); nothing more is claimed of it.
#[verifier::external_body]
fn url_path_of(u: &Url) -> (s: String)
    ensures
        s@ == url_path(*u),
{
    u.path().to_string()
}

/// `Url::domain`: the host of the URL when it is a domain name, otherwise `None`. Its
/// result is named by `url_domain`, applied to the URL value itself; nothing more is
/// claimed of it.
#[verifier::external_body]
fn url_domain_of(u: &Url) -> (d: Option<String>)
    ensures
        match d {
            Some(x) => url_domain(*u) == Some(x@),
            None => url_domain(*u) is None,
        },
{
    match u.domain() {
        Some(x) => Some(x.to_string()),
        None => None,
    }
}

/// A parsed style sheet.
#[derive(Debug)]
pub struct CssStyleSheet {
    pub type_sheet: String,
    pub location: String,
    pub parent: Option<Box<CssStyleSheet>>,
    pub title: String,
    pub alternate: bool,
    pub disabled: bool,
    pub rules: Vec<Rule>,
    pub origin_clean: bool,
    pub constructed: bool,
    pub disallow_modification: bool,
    pub base_url: String,
}

/// The base URL of a style sheet whose location has no domain.
pub open spec fn no_host_text() -> Seq<char> {
    "Host not get in the url"@
}

impl CssStyleSheet {
    /// The flags every new style sheet has: no parent, not alternate, not disabled,
    /// not origin-clean, not constructed, modifiable.
    pub open spec fn fresh(&self) -> bool {
        &&& self.type_sheet@ == "StyleSheet"@
        &&& self.parent is None
        &&& !self.alternate
        &&& !self.disabled
        &&& !self.origin_clean
        &&& !self.constructed
        &&& !self.disallow_modification
    }

    /// A style sheet found at `location`: its title is the location's path and its
    /// base URL the location's domain (or a note that there is none).
    pub fn new(location: Url, rules: Vec<Rule>) -> (s: CssStyleSheet)
        ensures
            s.fresh(),
            s.rules == rules,
            s.location@ == url_serialization(location),
            s.title@ == url_path(location),
            s.base_url@ == match url_domain(location) {
                Some(d) => d,
                None => no_host_text(),
            },
    {
        let base_url = match url_domain_of(&location) {
            Some(d) => d,
            None => String::from_str("Host not get in the url"),
        };
        CssStyleSheet {
            type_sheet: String::from_str("StyleSheet"),
            location: url_to_string(&location),
            parent: None,
            title: url_path_of(&location),
            alternate: false,
            disabled: false,
            rules,
            origin_clean: false,
            constructed: false,
            disallow_modification: false,
            base_url,
        }
    }

    /// A style sheet that is not tied to a location: its location, title and base URL are empty.
    pub fn from_rules(rules: Vec<Rule>) -> (s: CssStyleSheet)
        ensures
            s.fresh(),
            s.rules == rules,
            s.location@ == Seq::<char>::empty(),
            s.title@ == Seq::<char>::empty(),
            s.base_url@ == Seq::<char>::empty(),
    {
        CssStyleSheet {
            type_sheet: String::from_str("StyleSheet"),
            location: String::new(),
            parent: None,
            title: String::new(),
            alternate: false,
            disabled: false,
            rules,
            origin_clean: false,
            constructed: false,
            disallow_modification: false,
            base_url: String::new(),
        }
    }
}

impl From<Vec<Rule>> for CssStyleSheet {
    /// Same as `CssStyleSheet::from_rules`.
    fn from(rules: Vec<Rule>) -> (s: CssStyleSheet)
        ensures
            s.fresh(),
            s.rules == rules,
            s.location@ == Seq::<char>::empty(),
            s.title@ == Seq::<char>::empty(),
            s.base_url@ == Seq::<char>::empty(),
    {
        CssStyleSheet::from_rules(rules)
    }
}

/// `from` is described by its own `ensures`; the trait-level description is not used,
/// since a spec function cannot build the text fields of a style sheet.
impl vstd::std_specs::convert::FromSpecImpl<Vec<Rule>> for CssStyleSheet {
    open spec fn obeys_from_spec() -> bool {
        false
    }

    open spec fn from_spec(v: Vec<Rule>) -> CssStyleSheet {
        vstd::pervasive::arbitrary()
    }
}

/// Parse a style sheet given as text. Parsing never fails: what cannot be read as a rule
/// is skipped.
pub fn parse_stylesheet(datastream: String) -> (r: Result<CssStyleSheet, ParseError>)
    ensures
        r matches Ok(sheet) && {
            &&& sheet.fresh()
            &&& sheet.location@ == Seq::<char>::empty()
            &&& sheet.title@ == Seq::<char>::empty()
            &&& sheet.base_url@ == Seq::<char>::empty()
            &&& rules_view(sheet.rules@) == parse_rules(datastream@)
        },
{
    match parse_string(datastream) {
        Ok(rules) => Ok(CssStyleSheet::from(rules)),
        Err(err) => Err(err),
    }
}

/// Parse a style sheet read from `location`; `datastream` is its text.
pub fn parse_stylesheet_from_url(location: Url, datastream: String) -> (r: Result<
    CssStyleSheet,
    ParseError,
>)
    ensures
        r matches Ok(sheet) && {
            &&& sheet.fresh()
            &&& sheet.location@ == url_serialization(location)
            &&& sheet.title@ == url_path(location)
            &&& sheet.base_url@ == match url_domain(location) {
                Some(d) => d,
                None => no_host_text(),
            }
            &&& rules_view(sheet.rules@) == parse_rules(datastream@)
        },
{
    match parse_string(datastream) {
        Ok(rules) => Ok(CssStyleSheet::new(location, rules)),
        Err(err) => Err(err),
    }
}

} // verus!
