use tinymark::{parse, parse_inlines, Node, Token};

#[test]
fn test_parse_heading() {
    let tokens = vec![Token::Heading(1), Token::Text("Hello".to_string())];
    let expected = Node::Document(vec![Node::Heading(
        1,
        vec![Node::Text("Hello".to_string())],
    )]);
    assert_eq!(parse(&tokens), expected);
}

#[test]
fn test_parse_paragraph() {
    let tokens = vec![
        Token::Text("This is a ".to_string()),
        Token::BoldStart,
        Token::Text("test".to_string()),
        Token::BoldEnd,
        Token::Text(".".to_string()),
    ];
    let expected = Node::Document(vec![Node::Paragraph(vec![
        Node::Text("This is a ".to_string()),
        Node::Bold(vec![Node::Text("test".to_string())]),
        Node::Text(".".to_string()),
    ])]);
    assert_eq!(parse(&tokens), expected);
}

#[test]
fn test_parse_multiline() {
    let tokens = vec![
        Token::Heading(2),
        Token::Text("Title".to_string()),
        Token::NewLine,
        Token::Text("Some text.".to_string()),
    ];
    let expected = Node::Document(vec![
        Node::Heading(2, vec![Node::Text("Title".to_string())]),
        Node::Paragraph(vec![Node::Text("Some text.".to_string())]),
    ]);
    assert_eq!(parse(&tokens), expected);
}

#[test]
fn test_parse_nested_styles() {
    let tokens = vec![
        Token::BoldStart,
        Token::Text("bold and ".to_string()),
        Token::ItalicStart,
        Token::Text("italic".to_string()),
        Token::ItalicEnd,
        Token::BoldEnd,
    ];
    let expected = Node::Document(vec![Node::Paragraph(vec![Node::Bold(vec![
        Node::Text("bold and ".to_string()),
        Node::Italic(vec![Node::Text("italic".to_string())]),
    ])])]);
    assert_eq!(parse(&tokens), expected);
}

#[test]
fn test_parse_unordered_list() {
    let tokens = vec![
        Token::ListItemStart,
        Token::Text("item one".to_string()),
        Token::NewLine,
        Token::ListItemStart,
        Token::Text("item two".to_string()),
    ];
    let expected = Node::Document(vec![Node::UnorderedList(vec![
        Node::ListItem(vec![Node::Text("item one".to_string())]),
        Node::ListItem(vec![Node::Text("item two".to_string())]),
    ])]);
    assert_eq!(parse(&tokens), expected);
}

#[test]
fn test_parse_code_block() {
    let tokens = vec![
        Token::Text("Here is some code:".to_string()),
        Token::NewLine,
        Token::CodeBlock("let a = 1;".to_string()),
    ];
    let expected = Node::Document(vec![
        Node::Paragraph(vec![Node::Text("Here is some code:".to_string())]),
        Node::CodeBlock("let a = 1;".to_string()),
    ]);
    assert_eq!(parse(&tokens), expected);
}

#[test]
fn test_parse_inlines_unmatched_bold() {
    let tokens = vec![Token::BoldStart, Token::Text("open".to_string())];
    let expected = vec![Node::Bold(vec![Node::Text("open".to_string())])];
    assert_eq!(parse_inlines(&tokens), expected);
}

#[test]
fn test_parse_inlines_skips_structural_tokens() {
    let tokens = vec![
        Token::BoldEnd,
        Token::Text("a".to_string()),
        Token::ItalicEnd,
    ];
    let expected = vec![Node::Text("a".to_string())];
    assert_eq!(parse_inlines(&tokens), expected);
}

#[test]
fn test_parse_blank_line_between_paragraphs() {
    let tokens = vec![
        Token::Text("one".to_string()),
        Token::NewLine,
        Token::NewLine,
        Token::Text("two".to_string()),
    ];
    let expected = Node::Document(vec![
        Node::Paragraph(vec![Node::Text("one".to_string())]),
        Node::Paragraph(vec![Node::Text("two".to_string())]),
    ]);
    assert_eq!(parse(&tokens), expected);
}

#[test]
fn test_parse_list_ended_by_plain_line() {
    let tokens = vec![
        Token::ListItemStart,
        Token::Text("item".to_string()),
        Token::NewLine,
        Token::Text("after".to_string()),
    ];
    let expected = Node::Document(vec![
        Node::UnorderedList(vec![Node::ListItem(vec![Node::Text("item".to_string())])]),
        Node::Paragraph(vec![Node::Text("after".to_string())]),
    ]);
    assert_eq!(parse(&tokens), expected);
}

#[test]
fn test_parse_empty_tokens() {
    let tokens: Vec<Token> = vec![];
    assert_eq!(parse(&tokens), Node::Document(vec![]));
}
