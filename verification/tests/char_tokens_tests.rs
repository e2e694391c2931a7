use sift::xml::new_tokens::{Error, XmlToken, XmlTokenizer};

#[test]
fn char_tokenizer_reads_a_document() {
    let input = "<?xml version=\"1.0\" encoding=\"UTF-8\"?><rss a='b'>hi &amp; é</rss><!--c--><![CDATA[d]]>";
    let mut t = XmlTokenizer::new(input);
    assert!(matches!(
        t.next(),
        Some(Ok(XmlToken::Declaration { name: "xml", version: "1.0", encoding: Some("UTF-8"), standalone: None }))
    ));
    assert!(matches!(t.next(), Some(Ok(XmlToken::StartTag { name: "rss" }))));
    assert!(matches!(t.next(), Some(Ok(XmlToken::Attribute { name: "a", value: "b" }))));
    assert!(matches!(t.next(), Some(Ok(XmlToken::TagEnd { self_closing: false }))));
    assert!(matches!(t.next(), Some(Ok(XmlToken::Text("hi &amp; é")))));
    assert!(matches!(t.next(), Some(Ok(XmlToken::EndTag { name: "rss" }))));
    assert!(matches!(t.next(), Some(Ok(XmlToken::TagEnd { self_closing: false }))));
    assert!(matches!(t.next(), Some(Ok(XmlToken::Comment("c")))));
    assert!(matches!(t.next(), Some(Ok(XmlToken::CharacterData("d")))));
    assert!(t.next().is_none());
    assert!(t.next().is_none());
}

#[test]
fn char_tokenizer_self_closing_tag() {
    let mut t = XmlTokenizer::new("<br/>");
    assert!(matches!(t.next(), Some(Ok(XmlToken::StartTag { name: "br" }))));
    assert!(matches!(t.next(), Some(Ok(XmlToken::TagEnd { self_closing: true }))));
    assert!(t.next().is_none());
}

#[test]
fn char_tokenizer_errors() {
    let mut t = XmlTokenizer::new("<a b=c>");
    assert!(matches!(t.next(), Some(Ok(XmlToken::StartTag { name: "a" }))));
    assert!(matches!(t.next(), Some(Err(Error::UnquotedAttributeValue))));
    let mut t = XmlTokenizer::new("\0");
    assert!(matches!(t.next(), Some(Err(Error::UnexpectedNullCharacter))));
    let mut t = XmlTokenizer::new("<!--never closed");
    assert!(matches!(t.next(), Some(Err(Error::UnterminatedComment))));
    let mut t = XmlTokenizer::new("<![CDATA[x]>");
    assert!(matches!(t.next(), Some(Err(Error::UnterminatedCharacterData))));
    let mut t = XmlTokenizer::new("<?xml version=\"1\" other=\"2\"?>");
    assert!(matches!(t.next(), Some(Err(Error::UnexpectedXmlDeclarationAttribute))));
    assert_eq!(Error::UnterminatedCharacterData.to_string(), "Unterminated CData");
}

#[test]
fn char_tokenizer_knows_where_it_would_stop() {
    assert!(XmlTokenizer::new("<1>").halts_next());
    assert!(XmlTokenizer::new("<!DOCTYPE html>").halts_next());
    assert!(XmlTokenizer::new("<?php x ?>").halts_next());
    assert!(!XmlTokenizer::new("<a>").halts_next());
    assert!(!XmlTokenizer::new("").halts_next());
}
