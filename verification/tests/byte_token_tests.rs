use sift::xml::byte_token::{Error, XmlToken, XmlTokenizer};

fn render(input: &str) -> Vec<String> {
    let mut tokenizer = XmlTokenizer::from(input);
    let mut out = Vec::new();
    while !tokenizer.halts_next() {
        match tokenizer.next() {
            Some(Ok(token)) => out.push(token.to_string()),
            Some(Err(e)) => {
                out.push(e.to_string());
                break;
            }
            None => break,
        }
    }
    out
}

#[test]
fn byte_tokens_of_a_small_document() {
    let out = render("<?xml version=\"1.0\"?><a x=\"y\">t</a>");
    assert_eq!(
        out,
        vec![
            "Declaration(xml)",
            "Attribute (name=version, value=1.0)",
            "DeclarationTagEnd",
            "StartTag(a)",
            "Attribute (name=x, value=y)",
            "TagEnd(false)",
            "Text(t)",
        ]
    );
}

#[test]
fn end_tag_followed_by_more_input() {
    let out = render("<a></a>x<b>");
    assert_eq!(
        out,
        vec!["StartTag(a)", "TagEnd(false)", "EndTag(a)", "Text(x)", "StartTag(b)", "TagEnd(false)"]
    );
}

#[test]
fn trailing_text_stops_the_tokenizer() {
    let tokenizer = XmlTokenizer::from("<a>x");
    let mut tokenizer = tokenizer;
    assert!(matches!(tokenizer.next(), Some(Ok(XmlToken::StartTag(b"a")))));
    assert!(matches!(tokenizer.next(), Some(Ok(XmlToken::TagEnd { self_closing: false }))));
    assert!(tokenizer.halts_next());
}

#[test]
fn empty_attribute_value() {
    let out = render("<a x=\"\">");
    assert_eq!(out, vec!["StartTag(a)", "Encountered empty attribute value"]);
}

#[test]
fn unterminated_cdata() {
    let mut tokenizer = XmlTokenizer::from("<![CDATA[abc");
    assert!(matches!(tokenizer.next(), Some(Err(Error::UnterminatedCData))));
}

#[test]
fn byte_processing_instruction() {
    let mut tokenizer = XmlTokenizer::from("<?pi data?>");
    match tokenizer.next() {
        Some(Ok(XmlToken::ProcessingInstruction { target, data })) => {
            assert_eq!(target, b"pi");
            assert_eq!(data, b"data");
        }
        _ => panic!("expected a processing instruction"),
    }
}

#[test]
fn doctype_stops_the_tokenizer() {
    let mut tokenizer = XmlTokenizer::from("<!DOCTYPE html>");
    assert!(matches!(tokenizer.next(), Some(Ok(XmlToken::DocumentType(b"html")))));
    assert!(tokenizer.halts_next());
}

#[test]
fn string_reader_takes_feed_attributes() {
    let input = "<rss version=\"2.0\" xmlns:dc=\"x\"><channel></channel></rss>";
    let mut tokenizer = XmlTokenizer::from(input);
    let mut parser = sift::new_rss::RssParser::new();
    while !tokenizer.halts_next() {
        match tokenizer.next() {
            Some(Ok(token)) => {
                assert!(!parser.would_stop(&token));
                parser.handle_token(token);
            }
            _ => break,
        }
    }
}

#[test]
fn string_reader_stops_on_attribute_that_is_not_utf8() {
    let mut parser = sift::new_rss::RssParser::new();
    parser.handle_token(XmlToken::StartTag(b"rss"));
    let token = XmlToken::Attribute { name: b"version", value: b"\xff" };
    assert!(parser.would_stop(&token));
}
