//! A verified converter from a small line-oriented markup language to HTML.
//!
//! The library is a three-stage pipeline: a lexer turns the input characters
//! into tokens, a parser turns the tokens into a block/inline syntax tree,
//! and a renderer serializes the tree to HTML. Every stage is total: a
//! malformed construct degrades to literal text instead of failing.

use vstd::prelude::*;

pub mod ast;
pub mod token;
pub mod laws;
pub mod lexer;
pub mod parser;
pub mod render;
pub mod strings;

pub use ast::Node;
pub use lexer::lex;
pub use parser::parse;
pub use parser::parse_inlines;
pub use render::render;
pub use render::render_all;
pub use token::Token;

verus! {

/// The HTML produced for an input text: the composition of the three
/// pipeline stages.
pub open spec fn to_html_spec(s: Seq<char>) -> Seq<char> {
    render::render_node_spec(parser::parse_spec(lexer::lex_spec(s)))
}

/// Converts markup text to HTML: tokenize, parse, render. Total over all
/// inputs; malformed constructs degrade to literal text.
pub fn to_html(input: &str) -> (html: String)
    ensures
        html@ == to_html_spec(input@),
{
    let tokens = lexer::lex(input);
    let tree = parser::parse(&tokens);
    render::render(&tree)
}

/// The set of characters that start a lexical construct; a text run stops
/// before any of them.
pub open spec fn is_special_char(c: char) -> bool {
    c == '#' || c == '*' || c == '\n' || c == '[' || c == '-' || c == '`'
}

/// Executable test for [`is_special_char`].
pub(crate) fn is_special(c: char) -> (b: bool)
    ensures
        b == is_special_char(c),
{
    c == '#' || c == '*' || c == '\n' || c == '[' || c == '-' || c == '`'
}

/// Pushes an element, recording the effect on the deep view.
pub(crate) fn push_deep<T: DeepView>(v: &mut Vec<T>, t: T)
    ensures
        final(v).deep_view() == old(v).deep_view().push(t.deep_view()),
        final(v)@.len() == old(v)@.len() + 1,
{
    let ghost pre = v.deep_view();
    let ghost tm = t.deep_view();
    v.push(t);
    proof {
        assert(v.deep_view() =~= pre.push(tm));
    }
}

} // verus!
