use sift::formats::feeds::rss::{Error, RssFeedParser};
use sift::xml::tokens::XmlTokenizer;

const DOCUMENT: &[u8] = b"<?xml version=\"1.0\"?><rss xmlns:dc=\"http://purl.org/dc/elements/1.1/\"><channel><title>T</title><link>L</link><image><title>I</title><url>U</url></image><item><title>A</title><dc:creator>me</dc:creator><category>C</category></item></channel></rss>";

#[test]
fn reads_channel_and_items() {
    let mut parser = RssFeedParser::from(XmlTokenizer::from(DOCUMENT));
    assert!(parser.parse_rss_feed().is_ok());
    assert_eq!(
        parser.channel.to_string(),
        "Channel\nTitle: T\nLink: L\nImage: RssImageElement { url: Some(\"U\"), title: Some(\"I\"), link: None, width: None, height: None, description: None }\n"
    );
    assert_eq!(parser.items.len(), 1);
    assert_eq!(
        parser.items[0].to_string(),
        "Item\nTitle: A\nAuthor: me\nCategory: RssItemCategory { domain: None, value: Some(\"C\") }\n"
    );
}

#[test]
fn unbound_prefix_is_not_dublin_core() {
    let input = b"<rss><channel><item><dc:creator>me</dc:creator></item></channel></rss>";
    let mut parser = RssFeedParser::from(XmlTokenizer::from(input.as_slice()));
    assert!(parser.parse_rss_feed().is_ok());
    assert_eq!(parser.items[0].to_string(), "Item\n");
}

#[test]
fn mismatched_end_tag_fails() {
    let input = b"<rss><channel></rss>";
    let mut parser = RssFeedParser::from(XmlTokenizer::from(input.as_slice()));
    let r = parser.parse_rss_feed();
    match r {
        Err(e @ Error::ElementMismatch { .. }) => {
            assert_eq!(e.to_string(), "Element mismatch. Expected: channel, found: rss")
        }
        _ => panic!("expected a mismatch"),
    }
}

#[test]
fn text_that_is_not_utf8_fails() {
    let input = b"<rss><channel><title>\xff</title></channel></rss>";
    let mut parser = RssFeedParser::from(XmlTokenizer::from(input.as_slice()));
    assert!(matches!(parser.parse_rss_feed(), Err(Error::Utf8Parse(_))));
}

#[test]
fn self_closing_element_opens_and_closes() {
    let input = b"<rss><channel><item/><title>X</title></channel></rss>";
    let mut parser = RssFeedParser::from(XmlTokenizer::from(input.as_slice()));
    assert!(parser.parse_rss_feed().is_ok());
    assert_eq!(parser.items.len(), 1);
    assert_eq!(parser.items[0].to_string(), "Item\nTitle: X\n");
    assert_eq!(parser.channel.to_string(), "Channel\n");
}

#[test]
fn debug_text_is_escaped() {
    let input = b"<rss><channel><cloud>a\"b</cloud></channel></rss>";
    let mut parser = RssFeedParser::from(XmlTokenizer::from(input.as_slice()));
    assert!(parser.parse_rss_feed().is_ok());
    assert_eq!(parser.channel.to_string(), "Channel\nCloud: \"a\\\"b\"\n");
}

#[test]
fn reading_within_a_limit() {
    let mut parser = RssFeedParser::from(XmlTokenizer::from(DOCUMENT));
    assert!(matches!(parser.parse_rss_feed_within(1000), Some(Ok(()))));
    assert_eq!(parser.items.len(), 1);
    let mut short = RssFeedParser::from(XmlTokenizer::from(DOCUMENT));
    assert!(short.parse_rss_feed_within(3).is_none());
    let mut stray = RssFeedParser::from(XmlTokenizer::from(b"</rss>".as_slice()));
    assert!(stray.parse_rss_feed_within(1000).is_none());
    let mut mismatch = RssFeedParser::from(XmlTokenizer::from(b"<rss><channel></rss>".as_slice()));
    assert!(matches!(mismatch.parse_rss_feed_within(1000), Some(Err(Error::ElementMismatch { .. }))));
}
