use tinymark::to_html;

#[test]
fn test_full_process_unordered_list() {
    let input = "- first item\n- second item";
    let expected_html = "<ul>\n<li>first item</li>\n<li>second item</li>\n</ul>";
    let html = to_html(input);
    assert_eq!(html, expected_html);
}

#[test]
fn test_full_process_code_block() {
    let input = "# Code Example\n\nHere is a block:\n\n```rust\nfn example() -> bool {\n    true\n}\n```\n\nThat was it.";
    let expected_html = "<h1>Code Example</h1>\n<p>Here is a block:</p>\n<pre><code>fn example() -> bool {\n    true\n}\n</code></pre>\n<p>That was it.</p>";
    let html = to_html(input);
    assert_eq!(html, expected_html);
}

#[test]
fn test_heading_round_trip_levels() {
    assert_eq!(to_html("# one"), "<h1>one</h1>");
    assert_eq!(to_html("### Header"), "<h3>Header</h3>");
    assert_eq!(to_html("###### six"), "<h6>six</h6>");
    assert_eq!(to_html("####### seven"), "<h7>seven</h7>");
}

#[test]
fn test_heading_two_digit_level_through_pipeline() {
    assert_eq!(to_html("############ deep"), "<h12>deep</h12>");
}

#[test]
fn test_bold_round_trip() {
    assert_eq!(to_html("**bold**"), "<p><strong>bold</strong></p>");
}

#[test]
fn test_bold_unmatched_still_renders() {
    assert_eq!(to_html("**bold"), "<p><strong>bold</strong></p>");
}

#[test]
fn test_italic_round_trip() {
    assert_eq!(to_html("*it*"), "<p><em>it</em></p>");
}

#[test]
fn test_link_round_trip() {
    assert_eq!(to_html("[a](b)"), "<p><a href=\"b\">a</a></p>");
}

#[test]
fn test_link_unterminated_is_literal() {
    let html = to_html("[a](b");
    assert_eq!(html, "<p>[a](b</p>");
    assert!(!html.contains("<a "));
}

#[test]
fn test_list_blank_line_starts_new_list() {
    let input = "- first item\n\n- second item";
    let expected = "<ul>\n<li>first item</li>\n</ul>\n<ul>\n<li>second item</li>\n</ul>";
    assert_eq!(to_html(input), expected);
}

#[test]
fn test_list_ends_at_plain_line() {
    let input = "- a\nb";
    let expected = "<ul>\n<li>a</li>\n</ul>\n<p>b</p>";
    assert_eq!(to_html(input), expected);
}

#[test]
fn test_empty_input() {
    assert_eq!(to_html(""), "");
}

#[test]
fn test_escaping_through_pipeline() {
    assert_eq!(to_html("a < b & c > d"), "<p>a &lt; b &amp; c &gt; d</p>");
}

#[test]
fn test_unterminated_fence_runs_to_end() {
    assert_eq!(to_html("```\ncode"), "<pre><code>code</code></pre>");
}

#[test]
fn test_interleaved_markers_use_positional_toggles() {
    assert_eq!(
        to_html("**a*b**c*"),
        "<p><strong>a<em>b</em></strong>c</p>"
    );
}

#[test]
fn test_bracket_only_is_literal() {
    assert_eq!(to_html("[text]"), "<p>[text]</p>");
}

#[test]
fn test_url_kept_verbatim_in_pipeline() {
    assert_eq!(
        to_html("[q](x?y=1&z=2)"),
        "<p><a href=\"x?y=1&z=2\">q</a></p>"
    );
}
