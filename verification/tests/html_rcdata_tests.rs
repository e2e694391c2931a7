use sift::html::byte_tokens::{Error, HtmlState, HtmlToken, HtmlTokenizer};

fn rcdata(input: &'static [u8], last: &'static [u8]) -> Vec<Result<HtmlToken<'static>, Error>> {
    let mut t = HtmlTokenizer::from(input);
    t.override_state(HtmlState::RcData);
    t.set_last_start_tag_name(last);
    let mut out = Vec::new();
    while let Some(item) = t.next() {
        out.push(item);
    }
    out
}

fn is_closing_xmp(token: &Result<HtmlToken<'static>, Error>) -> bool {
    match token {
        Ok(HtmlToken::EndTag(tag)) => {
            tag.name() == b"xmp".as_slice() && tag.self_closing() && tag.attribute_count() == 0
        }
        _ => false,
    }
}

#[test]
fn test_rcdata1() {
    let tokens = rcdata(b"foo</xmp>", b"xmp");
    assert_eq!(tokens.len(), 2);
    assert_eq!(tokens[0], Ok(HtmlToken::Character(b"foo")));
    assert!(is_closing_xmp(&tokens[1]));
}

#[test]
fn test_rcdata2() {
    let tokens = rcdata(b"foo</xMp>", b"xmp");
    assert_eq!(tokens.len(), 2);
    assert_eq!(tokens[0], Ok(HtmlToken::Character(b"foo")));
    assert!(is_closing_xmp(&tokens[1]));
}

#[test]
fn test_rcdata3() {
    assert_eq!(rcdata(b"foo</xmp ", b"xmp"), vec![Ok(HtmlToken::Character(b"foo"))]);
}

#[test]
fn test_rcdata4() {
    assert_eq!(rcdata(b"foo</xmp", b"xmp"), vec![Ok(HtmlToken::Character(b"foo</xmp"))]);
}

#[test]
fn test_rcdata5() {
    assert_eq!(rcdata(b"foo</xmp/", b"xmp"), vec![Ok(HtmlToken::Character(b"foo"))]);
}

#[test]
fn test_rcdata6() {
    assert_eq!(rcdata(b"foo</xmp<", b"xmp"), vec![Ok(HtmlToken::Character(b"foo</xmp<"))]);
}

#[test]
fn rcdata_plain_text_is_one_token() {
    assert_eq!(rcdata(b"just text", b"title"), vec![Ok(HtmlToken::Character(b"just text"))]);
}

#[test]
fn rcdata_other_end_tags_are_text() {
    assert_eq!(rcdata(b"a</b>c", b"title"), vec![Ok(HtmlToken::Character(b"a</b>c"))]);
    assert_eq!(rcdata(b"</abcd>", b"AB"), vec![Ok(HtmlToken::Character(b"</abcd>"))]);
}

#[test]
fn rcdata_closing_tag_first_gives_the_end_tag_and_goes_to_data() {
    let mut t = HtmlTokenizer::from(b"</TITLE  >rest".as_slice());
    t.override_state(HtmlState::RcData);
    t.set_last_start_tag_name(b"title");
    match t.next() {
        Some(Ok(HtmlToken::EndTag(tag))) => {
            assert_eq!(tag.name(), b"title".as_slice());
            assert!(tag.self_closing());
        }
        other => panic!("unexpected {:?}", other),
    }
}

#[test]
fn rcdata_error_message() {
    assert_eq!(Error::UnexpectedNullCharacter.to_string(), "Unexpected null character encountered");
}
