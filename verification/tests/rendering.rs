use tinymark::{render, render_all, Node};

#[test]
fn test_render_heading() {
    let node = Node::Heading(1, vec![Node::Text("Test".to_string())]);
    assert_eq!(render(&node), "<h1>Test</h1>");
}

#[test]
fn test_render_paragraph() {
    let node = Node::Paragraph(vec![
        Node::Text("This is ".to_string()),
        Node::Bold(vec![Node::Text("bold".to_string())]),
        Node::Text(".".to_string()),
    ]);
    assert_eq!(render(&node), "<p>This is <strong>bold</strong>.</p>");
}

#[test]
fn test_render_document() {
    let node = Node::Document(vec![
        Node::Heading(1, vec![Node::Text("Title".to_string())]),
        Node::Paragraph(vec![Node::Text("Content.".to_string())]),
    ]);
    assert_eq!(render(&node), "<h1>Title</h1>\n<p>Content.</p>");
}

#[test]
fn test_render_text() {
    let node = Node::Document(vec![Node::Text("Text Data".to_string())]);
    assert_eq!(render(&node), "Text Data");
}

#[test]
fn test_render_all() {
    let node = vec![Node::Document(vec![
        Node::Heading(1, vec![Node::Text("Title".to_string())]),
        Node::Paragraph(vec![
            Node::Text("This is ".to_string()),
            Node::Bold(vec![Node::Text("bold".to_string())]),
            Node::Text(".".to_string()),
        ]),
    ])];

    assert_eq!(
        render_all(&node),
        "<h1>Title</h1>\n<p>This is <strong>bold</strong>.</p>"
    );
}

#[test]
fn test_render_link() {
    let node = Node::Document(vec![Node::Link {
        text: "github".to_string(),
        url: "https://github.com/Shivrajsoni".to_string(),
    }]);
    assert_eq!(
        render(&node),
        "<a href=\"https://github.com/Shivrajsoni\">github</a>",
    );
}

#[test]
fn test_render_unordered_list() {
    let node = Node::Document(vec![Node::UnorderedList(vec![
        Node::ListItem(vec![Node::Text("item one".to_string())]),
        Node::ListItem(vec![Node::Text("item two".to_string())]),
    ])]);
    let expected = "<ul>\n<li>item one</li>\n<li>item two</li>\n</ul>";
    assert_eq!(render(&node), expected);
}

#[test]
fn test_render_text_escaping() {
    let node = Node::Paragraph(vec![Node::Text("<script>".to_string())]);
    assert_eq!(render(&node), "<p>&lt;script&gt;</p>");
}

#[test]
fn test_render_escape_lt() {
    let node = Node::Text("<".to_string());
    assert_eq!(render(&node), "&lt;");
}

#[test]
fn test_render_escape_amp() {
    let node = Node::Text("&".to_string());
    assert_eq!(render(&node), "&amp;");
}

#[test]
fn test_render_escape_gt() {
    let node = Node::Text(">".to_string());
    assert_eq!(render(&node), "&gt;");
}

#[test]
fn test_render_escape_no_double_interpretation() {
    let node = Node::Text("&lt;".to_string());
    assert_eq!(render(&node), "&amp;lt;");
}

#[test]
fn test_render_escape_order() {
    let node = Node::Text("a<b&c>d".to_string());
    assert_eq!(render(&node), "a&lt;b&amp;c&gt;d");
}

#[test]
fn test_render_code_block_escaped() {
    let node = Node::CodeBlock("if a < b && b > c {}".to_string());
    assert_eq!(
        render(&node),
        "<pre><code>if a &lt; b &amp;&amp; b > c {}</code></pre>"
    );
}

#[test]
fn test_render_link_url_verbatim() {
    let node = Node::Link {
        text: "q".to_string(),
        url: "x?y=1&z=<2>".to_string(),
    };
    assert_eq!(render(&node), "<a href=\"x?y=1&z=<2>\">q</a>");
}

#[test]
fn test_render_heading_two_digit_level() {
    let node = Node::Heading(12, vec![Node::Text("deep".to_string())]);
    assert_eq!(render(&node), "<h12>deep</h12>");
}

#[test]
fn test_render_empty_document() {
    let node = Node::Document(vec![]);
    assert_eq!(render(&node), "");
}
