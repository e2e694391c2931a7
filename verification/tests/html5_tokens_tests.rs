use sift::html::errors::Error;
use sift::html::tokens::{HtmlToken, HtmlTokenizer, TokenizationState};

fn text(c: &sift::html::tokens::CowStr) -> String {
    c.as_str().to_string()
}

fn describe(t: &HtmlToken) -> String {
    match t {
        HtmlToken::Doctype(d) => format!(
            "DOCTYPE {} {}",
            d.name.as_ref().map(text).unwrap_or_default(),
            d.force_quirks_flag
        ),
        HtmlToken::StartTag(tag) | HtmlToken::EndTag(tag) => {
            let kind = if matches!(t, HtmlToken::StartTag(_)) { "StartTag" } else { "EndTag" };
            let mut out = format!("{} {}", kind, tag.name.as_ref().map(text).unwrap_or_default());
            for a in &tag.attributes {
                out.push_str(&format!(
                    " {}={}",
                    a.name.as_ref().map(text).unwrap_or_default(),
                    a.value.as_ref().map(text).unwrap_or_default()
                ));
            }
            if tag.self_closing_tag == Some(true) {
                out.push_str(" /");
            }
            out
        }
        HtmlToken::Comment(c) => format!("Comment {}", text(c)),
        HtmlToken::Character(c) => format!("Character {}", text(c)),
        HtmlToken::EndOfFile => "EOF".to_string(),
    }
}

fn tokens_of(tokenizer: &mut HtmlTokenizer) -> Vec<String> {
    let mut out = Vec::new();
    loop {
        assert!(!tokenizer.halts_next());
        let token = tokenizer.next_token().unwrap();
        if token == HtmlToken::EndOfFile {
            break;
        }
        out.push(describe(&token));
    }
    out
}

#[test]
fn html5_tags_text_and_attributes() {
    let mut t = HtmlTokenizer::new("<h1 class='big' ID=x>Hi</h1><br/>");
    assert_eq!(
        tokens_of(&mut t),
        vec!["StartTag h1 class=big id=x", "Character Hi", "EndTag h1", "StartTag br /"]
    );
}

#[test]
fn html5_comment_and_doctype() {
    let mut t = HtmlTokenizer::new("<!DOCTYPE HTML><!-- note -->");
    assert_eq!(tokens_of(&mut t), vec!["DOCTYPE html false", "Comment  note "]);
}

#[test]
fn html5_character_reference() {
    let mut t = HtmlTokenizer::new("a&lt;b");
    assert_eq!(tokens_of(&mut t), vec!["Character a", "Character <", "Character b"]);
}

#[test]
fn html5_rcdata_end_tag() {
    let mut t = HtmlTokenizer::new("foo</xMp>bar");
    t.set_state(TokenizationState::RcData);
    t.set_last_start_tag_name("xmp");
    assert_eq!(tokens_of(&mut t), vec!["Character foo", "EndTag xmp", "Character bar"]);
}

#[test]
fn html5_rcdata_other_end_tag_is_text() {
    let mut t = HtmlTokenizer::new("a</b>");
    t.set_state(TokenizationState::RcData);
    t.set_last_start_tag_name("xmp");
    assert_eq!(tokens_of(&mut t), vec!["Character a", "Character </b", "Character >"]);
}

#[test]
fn html5_null_character_is_reported() {
    let mut t = HtmlTokenizer::new("\0");
    assert_eq!(describe(&t.next_token().unwrap()), "Character \0");
    assert_eq!(t.errors(), &vec![Error::UnexpectedNullCharacter]);
    assert_eq!(t.next_token(), Some(HtmlToken::EndOfFile));
}

#[test]
fn html5_duplicate_attribute_is_reported() {
    let mut t = HtmlTokenizer::new("<a x=1 X=2>");
    assert_eq!(tokens_of(&mut t), vec!["StartTag a x=2"]);
    assert_eq!(t.errors(), &vec![Error::DuplicateAttribute]);
}

#[test]
fn html5_knows_where_it_would_stop() {
    assert!(HtmlTokenizer::new("<![CDATA[x]]>").halts_next());
    assert!(HtmlTokenizer::new("<?php ?>").halts_next());
    assert!(HtmlTokenizer::new("<a\"").halts_next());
    assert!(!HtmlTokenizer::new("<a>").halts_next());
}

#[test]
fn html5_references_stay_in_attribute_values() {
    let mut t = HtmlTokenizer::new("<a href='x&amp;y' t=a& u=&>z&amp;");
    assert_eq!(
        tokens_of(&mut t),
        vec!["StartTag a href=x&amp;y t=a& u=&", "Character z", "Character &amp;"]
    );
}

#[test]
fn html5_less_than_reference_is_read_in_text() {
    let mut t = HtmlTokenizer::new("1&lt;2");
    assert_eq!(tokens_of(&mut t), vec!["Character 1", "Character <", "Character 2"]);
}

#[test]
fn html5_input_ending_inside_markup() {
    assert_eq!(tokens_of(&mut HtmlTokenizer::new("<")), vec!["Character <"]);
    assert_eq!(tokens_of(&mut HtmlTokenizer::new("a</")), vec!["Character a", "Character </"]);
    assert_eq!(tokens_of(&mut HtmlTokenizer::new("<!-- x -")), vec!["Comment  x "]);
    assert_eq!(tokens_of(&mut HtmlTokenizer::new("<!DOCTYPE")), vec!["DOCTYPE  true"]);
}

#[test]
fn html5_plain_text_is_one_token() {
    let mut t = HtmlTokenizer::new("plain text, é and \r\n lines");
    assert_eq!(tokens_of(&mut t), vec!["Character plain text, é and \r\n lines"]);
}
