use sift::html::errors::Error;
use sift::html::full_tokens::{CowStr, HtmlToken, HtmlTokenizer};

fn text(c: &CowStr) -> String {
    c.as_str().to_string()
}

fn describe(t: &HtmlToken) -> String {
    match t {
        HtmlToken::Doctype(d) => format!(
            "DOCTYPE {} {} {} {}",
            d.name.as_ref().map(text).unwrap_or_default(),
            d.public_identifier.as_ref().map(text).unwrap_or_else(|| "-".to_string()),
            d.system_identifier.as_ref().map(text).unwrap_or_else(|| "-".to_string()),
            d.force_quirks_flag
        ),
        HtmlToken::StartTag(tag) | HtmlToken::EndTag(tag) => {
            let kind = if matches!(t, HtmlToken::StartTag(_)) { "StartTag" } else { "EndTag" };
            let mut out = format!("{} {}", kind, tag.name.as_ref().map(text).unwrap_or_default());
            for a in &tag.attributes {
                out.push_str(&format!(
                    " [{}]=[{}]",
                    a.name.as_ref().map(text).unwrap_or_default(),
                    a.value.as_ref().map(text).unwrap_or_default()
                ));
            }
            if tag.self_closing_tag == Some(true) {
                out.push_str(" /");
            }
            out
        }
        HtmlToken::Comment(c) => format!("Comment {}", text(c)),
        HtmlToken::Character(c) => format!("Character {}", text(c)),
        HtmlToken::EndOfFile => "EOF".to_string(),
    }
}

fn tokens_of(tokenizer: &mut HtmlTokenizer) -> Vec<String> {
    let mut out = Vec::new();
    loop {
        assert!(!tokenizer.halts_next());
        let token = tokenizer.next_token().unwrap();
        if token == HtmlToken::EndOfFile {
            break;
        }
        out.push(describe(&token));
    }
    out
}

#[test]
fn full_tags_text_and_attributes() {
    let mut t = HtmlTokenizer::new("<h1 class='big' ID=x>Hi</h1>");
    assert_eq!(
        tokens_of(&mut t),
        vec!["StartTag h1 [class]=[big] [id]=[x]", "Character Hi", "EndTag h1"]
    );
    assert!(t.errors().is_empty());
}

#[test]
fn full_self_closing_tag() {
    let mut t = HtmlTokenizer::new("<br/>");
    assert_eq!(tokens_of(&mut t), vec!["StartTag br /"]);
}

#[test]
fn full_doctype_and_comment() {
    let mut t = HtmlTokenizer::new("<!DOCTYPE html><!-- hi -->");
    assert_eq!(tokens_of(&mut t), vec!["DOCTYPE html - - false", "Comment  hi "]);
}

#[test]
fn full_doctype_public_identifier() {
    let mut t = HtmlTokenizer::new("<!doctype HTML PUBLIC \"-//W3C//DTD\">");
    assert_eq!(tokens_of(&mut t), vec!["DOCTYPE html -//W3C//DTD - false"]);
}

#[test]
fn full_doctype_missing_quote_is_bogus() {
    let mut t = HtmlTokenizer::new("<!DOCTYPE html SYSTEM x>");
    assert_eq!(tokens_of(&mut t), vec!["DOCTYPE html - - true"]);
    assert_eq!(t.errors(), &vec![Error::MissingQuoteBeforeDoctypeSystemIdentifier]);
}

#[test]
fn full_numeric_and_named_references() {
    let mut t = HtmlTokenizer::new("a&#65;b&#x41;c&amp;d");
    assert_eq!(
        tokens_of(&mut t),
        vec![
            "Character a",
            "Character A",
            "Character b",
            "Character A",
            "Character c",
            "Character &amp;",
            "Character d"
        ]
    );
    assert_eq!(t.errors(), &vec![Error::UnknownNamedCharacterReference]);
}

#[test]
fn full_reference_errors() {
    let mut t = HtmlTokenizer::new("&#0;&#x80;&#xD800;&#x110000;&#xFFFE;&#65");
    assert_eq!(
        tokens_of(&mut t),
        vec![
            "Character \u{FFFD}",
            "Character \u{20AC}",
            "Character \u{FFFD}",
            "Character \u{FFFD}",
            "Character \u{FFFE}",
            "Character A"
        ]
    );
    assert_eq!(
        t.errors(),
        &vec![
            Error::NullCharacterReference,
            Error::ControlCharacterReference,
            Error::SurrogateCharacterReference,
            Error::CharacterReferenceOutsideUnicodeRange,
            Error::NoncharacterCharacterReference,
            Error::MissingSemicolonAfterCharacterReference
        ]
    );
}

#[test]
fn full_reference_without_digits() {
    let mut t = HtmlTokenizer::new("&#");
    assert_eq!(tokens_of(&mut t), vec!["Character &#"]);
    assert_eq!(t.errors(), &vec![Error::AbsenceOfDigitsInNumericCharacterReference]);
}

#[test]
fn full_processing_instructions() {
    let mut t = HtmlTokenizer::new("<?xml version?>a<?php echo?>b");
    assert_eq!(tokens_of(&mut t), vec!["Comment xml version?", "Character a", "Character b"]);
    assert_eq!(t.errors(), &vec![Error::DisallowedProcessingInstructionTarget]);
}

#[test]
fn full_cdata_and_bogus_comments() {
    let mut t = HtmlTokenizer::new("<![CDATA[x]]><!x>");
    assert_eq!(tokens_of(&mut t), vec!["Comment [CDATA[x]]", "Comment x"]);
    assert_eq!(t.errors(), &vec![Error::CdataInHtmlContent, Error::IncorrectlyOpenedComment]);
}

#[test]
fn full_nested_comment() {
    let mut t = HtmlTokenizer::new("<!--a<!--b-->");
    assert_eq!(tokens_of(&mut t), vec!["Comment a<!--b"]);
    assert_eq!(t.errors(), &vec![Error::NestedComment]);
}

#[test]
fn full_duplicate_attribute_is_dropped() {
    let mut t = HtmlTokenizer::new("<a x=1 x=2>");
    assert_eq!(tokens_of(&mut t), vec!["StartTag a [x]=[1]"]);
    assert_eq!(t.errors(), &vec![Error::DuplicateAttribute]);
}

#[test]
fn full_end_of_input_in_tag() {
    let mut t = HtmlTokenizer::new("<a");
    assert_eq!(tokens_of(&mut t), Vec::<String>::new());
    assert_eq!(t.errors(), &vec![Error::EofInTag]);
}

#[test]
fn full_null_in_text() {
    let mut t = HtmlTokenizer::new("a\0b");
    assert_eq!(tokens_of(&mut t), vec!["Character a", "Character \0", "Character b"]);
    assert_eq!(t.errors(), &vec![Error::UnexpectedNullCharacter]);
}

#[test]
fn full_halts_where_the_tokenizer_would_never_return() {
    assert!(HtmlTokenizer::new("<a b=").halts_next());
    assert!(HtmlTokenizer::new("<a \0>").halts_next());
    assert!(HtmlTokenizer::new("&#4294967299;").halts_next());
    assert!(!HtmlTokenizer::new("&#4294967295;").halts_next());
}

#[test]
fn full_end_of_file_in_data_repeats() {
    let mut t = HtmlTokenizer::new("");
    assert_eq!(t.next_token(), Some(HtmlToken::EndOfFile));
    assert_eq!(t.next_token(), Some(HtmlToken::EndOfFile));
}

#[test]
fn full_tag_names_start_after_the_angle_bracket() {
    let mut t = HtmlTokenizer::new("<h></h><H/>");
    assert_eq!(tokens_of(&mut t), vec!["StartTag h", "EndTag h", "StartTag h /"]);
}

#[test]
fn full_references_in_attribute_values() {
    let mut t = HtmlTokenizer::new("<a href='x&amp;y' t=a& u=&#38; v=\"p&#x3f;q\" w=&#>z&#x3f;");
    assert_eq!(
        tokens_of(&mut t),
        vec!["StartTag a [href]=[x&amp;y] [t]=[a&] [u]=[&] [v]=[p?q] [w]=[&#]", "Character z", "Character ?"]
    );
}

#[test]
fn full_input_ending_inside_markup() {
    assert_eq!(tokens_of(&mut HtmlTokenizer::new("<")), vec!["Character <"]);
    assert_eq!(tokens_of(&mut HtmlTokenizer::new("a</")), vec!["Character a", "Character </"]);
    assert_eq!(tokens_of(&mut HtmlTokenizer::new("<!--x")), vec!["Comment x"]);
    assert_eq!(tokens_of(&mut HtmlTokenizer::new("<!-")), vec!["Comment -"]);
    assert_eq!(tokens_of(&mut HtmlTokenizer::new("&#x")), vec!["Character &#x"]);
}

#[test]
fn full_plain_text_is_one_token() {
    let mut t = HtmlTokenizer::new("plain text, é and lines");
    assert_eq!(tokens_of(&mut t), vec!["Character plain text, é and lines"]);
}
