use tinymark::{lex, Token};

#[test]
fn test_lex_heading() {
    let input = "## Heading 2";
    let expected = vec![Token::Heading(2), Token::Text("Heading 2".to_string())];
    assert_eq!(lex(input), expected);
}

#[test]
fn test_lex_bold() {
    let input = "**bold text**";
    let expected = vec![
        Token::BoldStart,
        Token::Text("bold text".to_string()),
        Token::BoldEnd,
    ];
    assert_eq!(lex(input), expected);
}

#[test]
fn test_lex_italic() {
    let input = "*italic text*";
    let expected = vec![
        Token::ItalicStart,
        Token::Text("italic text".to_string()),
        Token::ItalicEnd,
    ];
    assert_eq!(lex(input), expected);
}

#[test]
fn test_lex_mixed_and_multiline() {
    let input = "### Header\nHello **world** in *Rust*!";
    let expected = vec![
        Token::Heading(3),
        Token::Text("Header".to_string()),
        Token::NewLine,
        Token::Text("Hello ".to_string()),
        Token::BoldStart,
        Token::Text("world".to_string()),
        Token::BoldEnd,
        Token::Text(" in ".to_string()),
        Token::ItalicStart,
        Token::Text("Rust".to_string()),
        Token::ItalicEnd,
        Token::Text("!".to_string()),
    ];
    assert_eq!(lex(input), expected);
}

#[test]
fn test_lex_no_space_after_heading() {
    let input = "#Heading";
    let expected = vec![Token::Heading(1), Token::Text("Heading".to_string())];
    assert_eq!(lex(input), expected);
}

#[test]
fn test_lex_unordered_list() {
    let input = "- item one\n- item two";
    let expected = vec![
        Token::ListItemStart,
        Token::Text("item one".to_string()),
        Token::NewLine,
        Token::ListItemStart,
        Token::Text("item two".to_string()),
    ];
    assert_eq!(lex(input), expected);
}

#[test]
fn test_lex_code_block() {
    let input = "```rust\nlet x = 5;\n```";
    let expected = vec![Token::CodeBlock("let x = 5;\n".to_string())];
    assert_eq!(lex(input), expected);
}

#[test]
fn test_lex_link() {
    let input = "[github](https://github.com)";
    let expected = vec![Token::Link {
        text: "github".to_string(),
        url: "https://github.com".to_string(),
    }];
    assert_eq!(lex(input), expected);
}

#[test]
fn test_lex_link_without_url_part() {
    let input = "[text]";
    let expected = vec![
        Token::Text("[".to_string()),
        Token::Text("text".to_string()),
        Token::Text("]".to_string()),
    ];
    assert_eq!(lex(input), expected);
}

#[test]
fn test_lex_link_unterminated_url() {
    let input = "[a](b";
    let expected = vec![
        Token::Text("[".to_string()),
        Token::Text("a".to_string()),
        Token::Text("]".to_string()),
        Token::Text("(".to_string()),
        Token::Text("b".to_string()),
    ];
    assert_eq!(lex(input), expected);
}

#[test]
fn test_lex_bracket_never_closed() {
    let input = "[abc";
    let expected = vec![
        Token::Text("[".to_string()),
        Token::Text("abc".to_string()),
    ];
    assert_eq!(lex(input), expected);
}

#[test]
fn test_lex_dash_without_space() {
    let input = "-x";
    let expected = vec![Token::Text("-".to_string()), Token::Text("x".to_string())];
    assert_eq!(lex(input), expected);
}

#[test]
fn test_lex_lone_backtick() {
    let input = "`a";
    let expected = vec![Token::Text("`".to_string()), Token::Text("a".to_string())];
    assert_eq!(lex(input), expected);
}

#[test]
fn test_lex_unterminated_fence() {
    let input = "```\nlet y = 2;";
    let expected = vec![Token::CodeBlock("let y = 2;".to_string())];
    assert_eq!(lex(input), expected);
}

#[test]
fn test_lex_empty_input() {
    let expected: Vec<Token> = vec![];
    assert_eq!(lex(""), expected);
}

#[test]
fn test_lex_toggles_alternate() {
    let input = "**a**b**c**";
    let expected = vec![
        Token::BoldStart,
        Token::Text("a".to_string()),
        Token::BoldEnd,
        Token::Text("b".to_string()),
        Token::BoldStart,
        Token::Text("c".to_string()),
        Token::BoldEnd,
    ];
    assert_eq!(lex(input), expected);
}
