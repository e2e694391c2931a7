use sift::html::old_tokens::{Error, HtmlToken, HtmlTokenizer, TokenErrorKind};

fn all(input: &str) -> Vec<Result<HtmlToken<'_>, Error>> {
    let mut t = HtmlTokenizer::new(input);
    let mut out = Vec::new();
    loop {
        assert!(!t.halts_next());
        match t.next() {
            Some(r) => {
                let stop = r.is_err();
                out.push(r);
                if stop {
                    break;
                }
            }
            None => break,
        }
    }
    out
}

#[test]
fn old_tags_attributes_and_text() {
    assert_eq!(
        all("<p class='a' hidden>Hi</p>"),
        vec![
            Ok(HtmlToken::StartTag("p")),
            Ok(HtmlToken::Attribute { name: "class", value: "a" }),
            Ok(HtmlToken::BoolAttribute("hidden")),
            Ok(HtmlToken::TagEnd { self_closing: false }),
            Ok(HtmlToken::Text("Hi")),
            Ok(HtmlToken::EndTag("p")),
        ]
    );
}

#[test]
fn old_self_closing_tag() {
    assert_eq!(
        all("<br />"),
        vec![Ok(HtmlToken::StartTag("br")), Ok(HtmlToken::TagEnd { self_closing: true })]
    );
}

#[test]
fn old_attribute_name_runs_to_the_next_equals_sign() {
    assert_eq!(
        all("<a hidden x='1'>"),
        vec![
            Ok(HtmlToken::StartTag("a")),
            Ok(HtmlToken::Attribute { name: "hidden x", value: "1" }),
            Ok(HtmlToken::TagEnd { self_closing: false }),
        ]
    );
}

#[test]
fn old_declaration_and_comment() {
    assert_eq!(
        all("<?xml version='1.0'?><!-- c -->"),
        vec![Ok(HtmlToken::Declaration("xml version='1.0'")), Ok(HtmlToken::Comment(" c "))]
    );
}

#[test]
fn old_white_space_text_is_passed_over() {
    assert_eq!(
        all("<a>  \n <b>"),
        vec![
            Ok(HtmlToken::StartTag("a")),
            Ok(HtmlToken::TagEnd { self_closing: false }),
            Ok(HtmlToken::StartTag("b")),
            Ok(HtmlToken::TagEnd { self_closing: false }),
        ]
    );
    assert_eq!(all("   "), vec![]);
    assert_eq!(all(""), vec![]);
}

#[test]
fn old_unterminated_tokens() {
    let unterminated = |pos, kind| Err(Error::UnterminatedToken { pos, kind });
    assert_eq!(all("<a"), vec![unterminated(1, TokenErrorKind::Start)]);
    assert_eq!(all("text"), vec![unterminated(0, TokenErrorKind::Text)]);
    assert_eq!(all("<!-- x"), vec![unterminated(4, TokenErrorKind::Comment)]);
    assert_eq!(all("<?x"), vec![unterminated(0, TokenErrorKind::Declaration)]);
    assert_eq!(all("</a"), vec![unterminated(2, TokenErrorKind::End)]);
    assert_eq!(all("é<a"), vec![Ok(HtmlToken::Text("é")), unterminated(3, TokenErrorKind::Start)]);
}

#[test]
fn old_unquoted_value() {
    assert_eq!(
        all("<a b=c>"),
        vec![
            Ok(HtmlToken::StartTag("a")),
            Err(Error::UnquotedToken { pos: 5, kind: TokenErrorKind::Attribute })
        ]
    );
}

#[test]
fn old_errors_repeat() {
    let mut t = HtmlTokenizer::new("<!-- x");
    let e = Some(Err(Error::UnterminatedToken { pos: 4, kind: TokenErrorKind::Comment }));
    assert_eq!(t.next(), e);
    assert_eq!(t.next(), e);
}

#[test]
fn old_empty_declaration_would_panic() {
    assert!(HtmlTokenizer::new("<?>").halts_next());
    assert!(!HtmlTokenizer::new("<??>").halts_next());
}
