use vstd::prelude::*;

verus! {

/// Lexical units produced by scanning the raw input characters.
///
/// The token sequence for an input is a total, order-preserving encoding of
/// it: every input character is accounted for either inside a token's payload
/// or by the token boundaries themselves (fence language specifiers are the
/// one thing dropped).
#[derive(Debug, PartialEq)]
pub enum Token {
    /// `level` consecutive `#` characters at the start of a line.
    Heading(usize),
    /// Opening `**` marker.
    BoldStart,
    /// Closing `**` marker.
    BoldEnd,
    /// Opening `*` marker.
    ItalicStart,
    /// Closing `*` marker.
    ItalicEnd,
    /// A run of characters with no other lexical meaning, including literal
    /// fallback fragments of malformed constructs.
    Text(String),
    /// A line separator, which the parser uses as the block boundary.
    NewLine,
    /// A fully matched `[text](url)` form.
    Link { text: String, url: String },
    /// A `- ` pair at the start of a line.
    ListItemStart,
    /// The verbatim body of a fenced code block, already extracted.
    CodeBlock(String),
}

/// The mathematical counterpart of [`Token`]: payloads are character
/// sequences and unbounded naturals, so contracts can speak of tokens
/// without reference to heap values.
#[verifier::ext_equal]
pub enum TokenModel {
    Heading(nat),
    BoldStart,
    BoldEnd,
    ItalicStart,
    ItalicEnd,
    Text(Seq<char>),
    NewLine,
    Link { text: Seq<char>, url: Seq<char> },
    ListItemStart,
    CodeBlock(Seq<char>),
}

impl DeepView for Token {
    type V = TokenModel;

    open spec fn deep_view(&self) -> TokenModel {
        match self {
            Token::Heading(level) => TokenModel::Heading(*level as nat),
            Token::BoldStart => TokenModel::BoldStart,
            Token::BoldEnd => TokenModel::BoldEnd,
            Token::ItalicStart => TokenModel::ItalicStart,
            Token::ItalicEnd => TokenModel::ItalicEnd,
            Token::Text(s) => TokenModel::Text(s@),
            Token::NewLine => TokenModel::NewLine,
            Token::Link { text, url } => (TokenModel::Link { text: text@, url: url@ }),
            Token::ListItemStart => TokenModel::ListItemStart,
            Token::CodeBlock(s) => TokenModel::CodeBlock(s@),
        }
    }
}

} // verus!
