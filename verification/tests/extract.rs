use siteanalyzer::html::extract_text_from_html;

#[test]
fn test_extract_text_from_html() {
    let html = r#"
            <!DOCTYPE html>
            <html>
                <head>
                    <title>Test Page</title>
                </head>
                <body>
                    <h1>Hello World</h1>
                    <p>This is a test paragraph.</p>
                    <div>
                        Some <b>bold</b> text
                        <span>and some nested content</span>
                    </div>
                </body>
            </html>
        "#;

    let text = extract_text_from_html(html);
    assert_eq!(
        text,
        "Test Page\n\nHello World This is a test paragraph. Some bold text and some nested content"
    );
}

#[test]
fn extract_body_without_title() {
    let text = extract_text_from_html("<html><body>Test content</body></html>");
    assert_eq!(text, "Test content");
}

#[test]
fn extract_script_text_is_excluded() {
    let text = extract_text_from_html(
        "<html><body><p>Hello</p><script>var x = 1;</script><p>World</p></body></html>",
    );
    assert_eq!(text, "Hello World");
}

#[test]
fn extract_style_text_is_excluded() {
    let text = extract_text_from_html(
        "<html><body><style>p { color: red; }</style><p>Visible</p></body></html>",
    );
    assert_eq!(text, "Visible");
}

#[test]
fn extract_body_text_equal_to_script_text_is_dropped() {
    // The exclusion works by exact text equality: ordinary body text
    // that coincides with a script's text is dropped too.
    let text = extract_text_from_html("<html><body><p>dup</p><script>dup</script></body></html>");
    assert_eq!(text, "");
}

#[test]
fn extract_title_alone() {
    // A non-empty title is always followed by the blank line, even
    // when no body text follows it.
    let text = extract_text_from_html("<html><head><title>Only Title</title></head></html>");
    assert_eq!(text, "Only Title\n\n");
}

#[test]
fn extract_empty_document() {
    assert_eq!(extract_text_from_html(""), "");
}

#[test]
fn extract_decodes_entities() {
    let text = extract_text_from_html(
        "<html><head><title>A &amp; B</title></head><body>x &lt; y &#33;</body></html>",
    );
    assert_eq!(text, "A & B\n\nx < y !");
}

#[test]
fn extract_whitespace_only_title_counts_as_absent() {
    let text = extract_text_from_html(
        "<html><head><title>   </title></head><body>Body only</body></html>",
    );
    assert_eq!(text, "Body only");
}

#[test]
fn extract_text_outside_body_is_ignored() {
    let text = extract_text_from_html("<html><p>before</p><body>inside</body>after</html>");
    assert_eq!(text, "inside");
}

#[test]
fn extract_comment_is_ignored() {
    let text = extract_text_from_html("<html><body>a<!-- hidden -->b</body></html>");
    assert_eq!(text, "a b");
}

#[test]
fn extract_uppercase_tags_are_recognised() {
    let text = extract_text_from_html(
        "<HTML><HEAD><TITLE>Up</TITLE></HEAD><BODY>low</BODY></HTML>",
    );
    assert_eq!(text, "Up\n\nlow");
}
