use sift::xml::errors::ErrorKind;
use sift::xml::tokens::{ExternalIdentifier, XmlToken, XmlTokenizer};

fn render(input: &[u8]) -> Vec<String> {
    let mut tokenizer = XmlTokenizer::from(input);
    let mut out = Vec::new();
    while let Some(item) = tokenizer.next() {
        match item {
            Ok(token) => out.push(token.to_string()),
            Err(e) => {
                out.push(format!("error {:?} at {}", e.kind, e.pos));
                break;
            }
        }
    }
    out
}

#[test]
fn tokens_of_a_small_document() {
    let out = render(b"<?xml version=\"1.0\"?><rss a='b'><x/>hi</rss>");
    assert_eq!(
        out,
        vec![
            "Declaration(xml)",
            "Attribute(name=version, value=1.0)",
            "DeclarationTagEnd",
            "StartTag(rss)",
            "Attribute(name=a, value=b)",
            "TagEnd(false)",
            "StartTag(x)",
            "TagEnd(true)",
            "Text(hi)",
            "EndTag(rss)",
        ]
    );
}

#[test]
fn comment_and_character_data() {
    let out = render(b"<!--c--><![CDATA[d]]>");
    assert_eq!(out, vec!["Comment(c)", "CData(d)"]);
}

#[test]
fn processing_instruction() {
    let out = render(b"<?target some data?>");
    assert_eq!(out, vec!["ProcessingInstruction(target=target, data=some data)"]);
}

#[test]
fn document_type_name_stays_in_normal_state() {
    let out = render(b"<!DOCTYPE note>");
    assert_eq!(out, vec!["DocumentType(note)", "Text(>)"]);
}

#[test]
fn attribute_without_equals_sign() {
    let out = render(b"<a b>");
    assert_eq!(out, vec!["StartTag(a)".to_string(), "error UnexpectedAttributeFormat at 4".to_string()]);
}

#[test]
fn unterminated_comment() {
    let out = render(b"<!--abc");
    assert_eq!(out, vec!["error UnterminatedComment at 4"]);
}

#[test]
fn unterminated_tag_name() {
    let out = render(b"<abc");
    assert_eq!(out, vec!["error UnterminatedTagName at 1"]);
}

#[test]
fn unterminated_end_tag() {
    let out = render(b"</abc ");
    assert_eq!(out, vec!["error UnterminatedTag at 5"]);
}

#[test]
fn unterminated_attribute_value() {
    let out = render(b"<a b='c");
    assert_eq!(out, vec!["StartTag(a)".to_string(), "error UnterminatedAttributeValue at 6".to_string()]);
}

#[test]
fn exhausted_tokenizer_stays_exhausted() {
    let mut tokenizer = XmlTokenizer::from(b"x".as_slice());
    assert!(matches!(tokenizer.next(), Some(Ok(XmlToken::Text(b"x")))));
    assert!(tokenizer.next().is_none());
    assert!(tokenizer.next().is_none());
}

#[test]
fn halts_next_reports_what_the_tokenizer_cannot_read() {
    let tokenizer = XmlTokenizer::from(b"<a>".as_slice());
    assert!(!tokenizer.halts_next());
}

#[test]
fn token_text_replaces_invalid_utf8() {
    let token = XmlToken::Text(b"a\xffb");
    assert_eq!(token.to_string(), "Text(a\u{fffd}b)");
}

#[test]
fn external_identifier_and_entity_text() {
    assert_eq!(ExternalIdentifier::System.to_string(), "SYSTEM");
    let token = XmlToken::EntityDeclaration {
        name: b"e",
        identifier: ExternalIdentifier::Public,
        literal: b"\"x\"",
    };
    assert_eq!(token.to_string(), "EntityDeclaration(name=e, identifier=PUBLIC, literal=\"x\")");
    assert_eq!(ErrorKind::UnterminatedTag.to_string(), "Unterminated tag");
}
