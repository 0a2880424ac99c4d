//! A CSS parser following the CSS Syntax Module: a verified tokenizer and a
//! verified recursive-descent parser that builds rules, declarations and
//! component values from a style sheet.
pub mod chars;
pub mod laws;
pub mod rule_laws;
pub mod parse_spec;
pub mod parser;
pub mod stream;
pub mod stylesheet;
pub mod syntax;
pub mod token;
pub mod token_spec;
pub mod tokenizer;

pub use parser::{
    consume_at_rule, consume_block, consume_block_content, consume_bad_declaration,
    consume_component_list_value, consume_component_value, consume_declaration, consume_function,
    consume_qualified_rule, consume_simple_bloc, discard_whitespace, normalize, parse_string,
};
pub use stream::TokenStream;
pub use stylesheet::{parse_stylesheet, parse_stylesheet_from_url, CssStyleSheet};
pub use syntax::{ComponentValue, Declaration, ParseError, Rule};
pub use token::{CssToken, Token};
