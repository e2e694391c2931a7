use sift::formats::html::parse::DisplayHtmlTokenStream;
use sift::formats::html::tokens::{HtmlToken, HtmlTokenizer};

fn render(page: &str) -> String {
    let tokenizer = HtmlTokenizer::from(page.as_bytes());
    let mut stream = DisplayHtmlTokenStream::from(tokenizer);
    stream.render_tokens()
}

#[test]
fn renders_text_after_title_with_list_indentation() {
    let page = "<html><head><title>My Page</title><style>p{}</style></head><body><ul><li>One</li><li>  Two   words </li></ul><script>x()</script><p>End</p></body></html>";
    assert_eq!(render(page), "My Page\n    One\n    Two words\nEnd\n\n");
}

#[test]
fn text_before_title_is_not_rendered() {
    assert_eq!(render("<p>hidden</p><title>T</title><p>shown</p>"), "T\nshown\n\n");
}

#[test]
fn empty_page_renders_a_line_feed() {
    assert_eq!(render(""), "\n");
}

#[test]
fn html_tokens_of_a_tag_with_attributes() {
    let input = b"<a href=\"x\" hidden>t</a>";
    let mut t = HtmlTokenizer::from(input.as_slice());
    let mut out = Vec::new();
    while let Some(item) = t.next() {
        out.push(item.unwrap().to_string());
    }
    assert_eq!(
        out,
        vec![
            "StartTag(a)",
            "Attribute(name=href, value=x)",
            "Attribute(name=hidden)",
            "TagEnd(self_closing=false)",
            "Text(t)",
            "EndTag(a)",
        ]
    );
}

#[test]
fn html_raw_text_of_script() {
    let input = b"<script>if (a < b) {}</script>";
    let mut t = HtmlTokenizer::from(input.as_slice());
    assert!(matches!(t.next(), Some(Ok(HtmlToken::StartTag(b"script")))));
    assert!(matches!(t.next(), Some(Ok(HtmlToken::TagEnd { self_closing: false }))));
    assert!(matches!(t.next(), Some(Ok(HtmlToken::RawText(b"if (a < b) {}")))));
    assert!(matches!(t.next(), Some(Ok(HtmlToken::EndTag(b"script")))));
    assert!(t.next().is_none());
}

#[test]
fn html_unterminated_comment_is_an_error() {
    let input = b"<!-- open";
    let mut t = HtmlTokenizer::from(input.as_slice());
    let e = t.next().unwrap().err().unwrap();
    assert_eq!(e.to_string(), "Error ( kind: Unexpected end of file )");
}

fn render_within(page: &str, limit: usize) -> Option<String> {
    let tokenizer = HtmlTokenizer::from(page.as_bytes());
    let mut stream = DisplayHtmlTokenStream::from(tokenizer);
    stream.render_tokens_within(limit)
}

#[test]
fn rendering_within_a_limit() {
    let page = "<title>T</title><ul><li>x</li></ul>";
    assert_eq!(render_within(page, 100), Some(render(page)));
    assert_eq!(render_within(page, 2), None);
    assert_eq!(render_within("<title>T</title></ul>", 100), None);
    assert_eq!(render_within("", 0), None);
    assert_eq!(render_within("", 1), Some("\n".to_string()));
}
