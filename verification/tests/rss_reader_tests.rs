use sift::formats::feeds::rss::RssParser;
use sift::xml::tokens::{XmlToken, XmlTokenizer};

fn read(input: &[u8]) -> RssParser<'_> {
    let mut parser = RssParser::new();
    let mut tokenizer = XmlTokenizer::from(input);
    while let Some(item) = tokenizer.next() {
        let token = item.expect("well-formed input");
        parser.handle_token(token).expect("UTF-8 text");
    }
    parser
}

#[test]
fn reads_titles_and_descriptions() {
    let parser = read(b"<rss version=\"2.0\"><channel><title>T</title><link>L</link><item><title>A</title><description>D</description></item><item><title>B</title></item></channel></rss>");
    let feed = parser.feed.as_ref().expect("a feed");
    assert_eq!(feed.get_channel_title(), Some("T"));
    assert_eq!(feed.get_channel_link(), Some("L"));
    assert_eq!(feed.get_item_titles(), vec!["A", "B"]);
    assert_eq!(feed.get_item_descriptions(), vec!["D"]);
    let channel = feed.channel.as_ref().expect("a channel");
    assert_eq!(channel.to_string(), "Channel\nTitle: T\nLink: L\n");
    assert_eq!(feed.items[0].to_string(), "Item\nTitle: A\nDescription: D\n");
}

#[test]
fn nothing_before_rss_start_tag() {
    let parser = read(b"<title>T</title>");
    assert!(parser.feed.is_none());
}

#[test]
fn smaller_reader_keeps_channel_title_and_item_titles() {
    let mut parser = sift::rss::RssParser::new();
    let input = b"<rss><channel><title>T</title><language>en</language><item><title>A</title><guid>g</guid></item><item><link>l</link></item></channel></rss>";
    let mut tokenizer = XmlTokenizer::from(input.as_slice());
    while let Some(item) = tokenizer.next() {
        parser.handle_token(item.expect("well-formed input")).expect("UTF-8 text");
    }
    let feed = parser.feed.as_ref().expect("a feed");
    assert_eq!(feed.get_channel_title(), Some("T"));
    assert_eq!(feed.get_item_titles(), vec!["A"]);
}

#[test]
fn smaller_reader_rejects_text_that_is_not_utf8() {
    let mut parser = sift::rss::RssParser::new();
    let input = b"<rss><channel><title>\xff</title></channel></rss>";
    let mut tokenizer = XmlTokenizer::from(input.as_slice());
    let mut failed = false;
    while let Some(item) = tokenizer.next() {
        if parser.handle_token(item.expect("well-formed input")).is_err() {
            failed = true;
        }
    }
    assert!(failed);
}

#[test]
fn read_feed_reads_a_whole_document() {
    let doc = b"<rss version=\"2.0\"><channel><title>T</title><item><title>A</title></item><item><title>B</title></item></channel></rss>";
    let parser = sift::formats::feeds::rss::feed::read_feed(doc.as_slice())
        .expect("a rule for every byte")
        .expect("a readable document");
    let feed = parser.feed().as_ref().expect("a feed");
    assert_eq!(feed.get_channel_title(), Some("T"));
    assert_eq!(feed.get_item_titles(), vec!["A", "B"]);
    let listed = sift::interface::interface_feed(feed);
    assert_eq!(listed.display_name(), "T");
    assert_eq!(listed.articles(), &vec!["A", "B"]);
    assert_eq!(listed.idx(), 0);
}

#[test]
fn interface_feed_without_title_is_untitled() {
    let doc = b"<rss><channel><item><title>A</title></item><item><link>l</link></item></channel></rss>";
    let parser = sift::formats::feeds::rss::feed::read_feed(doc.as_slice()).unwrap().unwrap();
    let listed = sift::interface::interface_feed(parser.feed().as_ref().unwrap());
    assert_eq!(listed.display_name(), "Untitled Feed");
    assert_eq!(listed.articles(), &vec!["A"]);
}

#[test]
fn read_feed_reports_a_token_error() {
    let r = sift::formats::feeds::rss::feed::read_feed(b"<rss><channel".as_slice());
    assert!(matches!(r, Some(Err(sift::formats::feeds::rss::feed::ReadError::Xml(_)))));
}

#[test]
fn tokens_before_rss_leave_the_reader_as_new() {
    let mut parser = RssParser::new();
    assert!(parser.handle_token(XmlToken::StartTag(b"channel")).is_ok());
    assert!(parser.handle_token(XmlToken::Text(b"\xff")).is_ok());
    assert!(parser.handle_token(XmlToken::EndTag(b"rss")).is_ok());
    assert!(parser.feed().is_none());
    assert!(parser.handle_token(XmlToken::StartTag(b"rss")).is_ok());
    let feed = parser.feed().as_ref().expect("a feed");
    assert!(feed.channel().is_none());
    assert!(feed.items().is_empty());
}

#[test]
fn text_that_is_not_utf8_fails_only_where_it_is_read() {
    let mut parser = RssParser::new();
    assert!(parser.handle_token(XmlToken::StartTag(b"rss")).is_ok());
    assert!(parser.handle_token(XmlToken::Attribute { name: b"version", value: b"\xff" }).is_err());
    assert!(parser.handle_token(XmlToken::Attribute { name: b"\xfe", value: b"x" }).is_err());
    assert!(parser.handle_token(XmlToken::Text(b"\xff")).is_ok());
    assert!(parser.handle_token(XmlToken::StartTag(b"channel")).is_ok());
    assert!(parser.handle_token(XmlToken::StartTag(b"title")).is_ok());
    assert!(parser.handle_token(XmlToken::Text(b"\xff")).is_err());
    assert!(parser.handle_token(XmlToken::Text(b"T")).is_ok());
    assert_eq!(parser.feed().as_ref().unwrap().get_channel_title(), Some("T"));
}
