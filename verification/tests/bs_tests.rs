use sift::bs::{Error, Scanner};

#[test]
fn test_get_bytes_if1() {
    let input = b"hello darkness my old friend";
    let scanner = Scanner::from(input.as_slice());
    let bytes = scanner.get_bytes_if(b"hello darkness");
    assert_eq!(bytes, Some(b"hello darkness".as_slice()))
}

#[test]
fn test_get_bytes_if2() {
    let input = b"hello darkness my old friend";
    let scanner = Scanner::from(input.as_slice());
    let bytes = scanner.get_bytes_if(b"theo");
    assert_eq!(bytes, None)
}

#[test]
fn test_advance_past_whitespaces1() {
    let input = b" theo";
    let mut scanner = Scanner::from(input.as_slice());
    scanner.advance_past_whitespaces();
    assert_eq!(scanner.pos(), 1)
}

#[test]
fn test_advance_past_whitespaces2() {
    let input = b"  theo";
    let mut scanner = Scanner::from(input.as_slice());
    scanner.advance_past_whitespaces();
    assert_eq!(scanner.pos(), 2)
}

#[test]
fn test_advance_past_whitespaces3() {
    let input = b"theo";
    let mut scanner = Scanner::from(input.as_slice());
    scanner.advance_past_whitespaces();
    assert_eq!(scanner.pos(), 0)
}

#[test]
fn test_advance_past_whitespaces4() {
    let input = b"      \t      \n    \r  ";
    let mut scanner = Scanner::from(input.as_slice());
    scanner.advance_past_whitespaces();
    assert_eq!(scanner.pos(), input.len())
}

#[test]
fn test_consume_tag_name1() {
    let input = b"theo>";
    let mut scanner = Scanner::from(input.as_slice());
    let slice = scanner.consume_tag_name();
    assert_eq!(slice, Ok(b"theo".as_slice()))
}

#[test]
fn test_consume_tag_name2() {
    let input = b"<theo >";
    let mut scanner = Scanner::from(input.as_slice());
    let slice = scanner.consume_tag_name();
    assert_eq!(slice, Ok(b"<theo".as_slice()))
}

#[test]
fn test_consume_tag_name3() {
    let input = b"<theo";
    let mut scanner = Scanner::from(input.as_slice());
    let slice = scanner.consume_tag_name();
    assert_eq!(slice, Err(Error::UnexpectedEndOfFile))
}

#[test]
fn test_consume_attribute_name1() {}

#[test]
fn test_consume_quoted_attribute_value1() {}

#[test]
fn test_consume_unquoted_attribute_value1() {}

#[test]
fn test_consume_text1() {
    let input = b"hello world, my name is theo>      \t<";
    let mut scanner = Scanner::from(input.as_slice());
    let slice = scanner.consume_text();
    assert_eq!(slice, b"hello world, my name is theo>      \t".as_slice())
}

#[test]
fn test_consume_text2() {
    let input = b"hello world, my name is theo>      \t \n \r";
    let mut scanner = Scanner::from(input.as_slice());
    let slice = scanner.consume_text();
    assert_eq!(slice, b"hello world, my name is theo>      \t \n \r".as_slice())
}

#[test]
fn test_consume_comment1() {
    let input = b"hello world, my name is theo-->";
    let mut scanner = Scanner::from(input.as_slice());
    let slice = scanner.consume_comment();
    assert_eq!(slice, Ok(b"hello world, my name is theo".as_slice()))
}

#[test]
fn test_consume_comment2() {
    let input = b"hello world, my name is theo--";
    let mut scanner = Scanner::from(input.as_slice());
    let slice = scanner.consume_comment();
    assert_eq!(slice, Err(Error::UnexpectedEndOfFile))
}

#[test]
fn test_consume_cdata1() {
    let input = b"hello world, my name is theo]]>";
    let mut scanner = Scanner::from(input.as_slice());
    let slice = scanner.consume_cdata();
    assert_eq!(slice, Ok(b"hello world, my name is theo".as_slice()))
}

#[test]
fn test_consume_cdata2() {
    let input = b"hello world, my name is theo] ]>";
    let mut scanner = Scanner::from(input.as_slice());
    let slice = scanner.consume_cdata();
    assert_eq!(slice, Err(Error::UnexpectedEndOfFile))
}
