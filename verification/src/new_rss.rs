//! An RSS reader over the tokens of the string tokenizer: it opens the feed
//! at `rss`, keeps the feed's version and other attributes, and opens the
//! channel at `channel`.
use vstd::prelude::*;
use crate::bs::{ascii, bytes_eq};
use crate::text::{decode, decode_str};
use crate::xml::byte_token::{XmlToken, TokenView};

verus! {

/// Which element the reader is in.
#[derive(Debug, PartialEq, Eq, Structural, Clone, Copy)]
pub enum XmlParseState {
    Declaration,
    Feed,
    Channel,
    Item,
}

/// A channel: its title, link, description and items.
#[derive(Debug)]
pub struct Channel<'a> {
    title: Option<&'a str>,
    link: Option<&'a str>,
    description: Option<&'a str>,
    items: Vec<Item<'a>>,
}

/// A field of an item that a namespace extension adds.
#[derive(Debug)]
pub struct ExtensionField<'a> {
    prefix: &'a str,
    local_name: &'a str,
    value: &'a str,
}

/// An item.
#[derive(Debug)]
pub struct Item<'a> {
    title: Option<&'a str>,
    link: Option<&'a str>,
    description: Option<&'a str>,
    author: Option<&'a str>,
    category: Option<&'a str>,
    comments: Option<&'a str>,
    enclosure: Option<&'a str>,
    guid: Option<&'a str>,
    pub_date: Option<&'a str>,
    source: Option<&'a str>,
    extensions: Vec<ExtensionField<'a>>,
}

/// A feed: its version, its other attributes and its channel.
#[derive(Debug)]
pub struct Feed<'a> {
    version: Option<&'a str>,
    namespaces: Vec<(&'a str, &'a str)>,
    channel: Option<Channel<'a>>,
}

/// The reader.
#[derive(Debug)]
pub struct RssParser<'a> {
    state: XmlParseState,
    feed: Option<Feed<'a>>,
}

/// A channel, taken as values.
pub struct ChannelView {
    pub title: Option<Seq<char>>,
    pub link: Option<Seq<char>>,
    pub description: Option<Seq<char>>,
    pub item_count: nat,
}

/// A feed, taken as values.
pub struct FeedView {
    pub version: Option<Seq<char>>,
    pub namespaces: Seq<(Seq<char>, Seq<char>)>,
    pub channel: Option<ChannelView>,
}

/// The reader, taken as values.
pub struct ParserView {
    pub state: XmlParseState,
    pub feed: Option<FeedView>,
}

/// A text that may be missing, taken as characters.
pub open spec fn text(o: Option<&str>) -> Option<Seq<char>> {
    match o {
        Some(s) => Some(s@),
        None => None,
    }
}

/// Pairs of texts taken as characters.
pub open spec fn pairs_view(p: Seq<(&str, &str)>) -> Seq<(Seq<char>, Seq<char>)> {
    p.map_values(|x: (&str, &str)| (x.0@, x.1@))
}

impl<'a> View for Channel<'a> {
    type V = ChannelView;

    closed spec fn view(&self) -> ChannelView {
        ChannelView {
            title: text(self.title),
            link: text(self.link),
            description: text(self.description),
            item_count: self.items@.len(),
        }
    }
}

impl<'a> View for Feed<'a> {
    type V = FeedView;

    closed spec fn view(&self) -> FeedView {
        FeedView {
            version: text(self.version),
            namespaces: pairs_view(self.namespaces@),
            channel: match self.channel {
                Some(c) => Some(c@),
                None => None,
            },
        }
    }
}

impl<'a> View for RssParser<'a> {
    type V = ParserView;

    closed spec fn view(&self) -> ParserView {
        ParserView {
            state: self.state,
            feed: match self.feed {
                Some(f) => Some(f@),
                None => None,
            },
        }
    }
}

/// A channel with nothing read yet.
pub open spec fn empty_channel() -> ChannelView {
    ChannelView { title: None, link: None, description: None, item_count: 0 }
}

/// A feed with nothing read yet.
pub open spec fn empty_feed() -> FeedView {
    FeedView { version: None, namespaces: Seq::empty(), channel: None }
}

/// The reader after token `t`; `None` when `t` is an attribute of `rss`
/// whose name or value is not UTF-8 (on which the reader stops the program).
pub open spec fn handle(p: ParserView, t: TokenView) -> Option<ParserView> {
    match p.state {
        XmlParseState::Declaration => match t {
            TokenView::StartTag(n) => if n == ascii("rss"@) {
                Some(ParserView { state: XmlParseState::Feed, feed: Some(empty_feed()) })
            } else {
                Some(p)
            },
            _ => Some(p),
        },
        XmlParseState::Feed => match t {
            TokenView::StartTag(n) => if n == ascii("channel"@) {
                Some(
                    ParserView {
                        state: XmlParseState::Channel,
                        feed: match p.feed {
                            Some(f) => Some(FeedView { channel: Some(empty_channel()), ..f }),
                            None => None,
                        },
                    },
                )
            } else {
                Some(p)
            },
            TokenView::Attribute { name, value } => match p.feed {
                None => Some(p),
                Some(f) => if name == ascii("version"@) {
                    match decode(value) {
                        Some(v) => Some(
                            ParserView { feed: Some(FeedView { version: Some(v), ..f }), ..p },
                        ),
                        None => None,
                    }
                } else {
                    match (decode(name), decode(value)) {
                        (Some(n), Some(v)) => Some(
                            ParserView {
                                feed: Some(FeedView { namespaces: f.namespaces.push((n, v)), ..f }),
                                ..p
                            },
                        ),
                        _ => None,
                    }
                },
            },
            _ => Some(p),
        },
        _ => Some(p),
    }
}

/// Decodes `bytes` as UTF-8 text that borrows from them.
fn bytes_to_cow_borrowed<'a>(bytes: &'a [u8]) -> (r: Result<&'a str, std::str::Utf8Error>)
    ensures
        r is Ok <==> decode(bytes@) is Some,
        r matches Ok(s) ==> decode(bytes@) == Some(s@),
{
    decode_str(bytes)
}

impl<'a> Channel<'a> {
    /// A channel with nothing read yet.
    pub fn new() -> (c: Self)
        ensures
            c@ == empty_channel(),
    {
        Channel { title: None, link: None, description: None, items: Vec::new() }
    }
}

impl<'a> Feed<'a> {
    /// A feed with nothing read yet.
    pub fn new() -> (f: Self)
        ensures
            f@ == empty_feed(),
    {
        let f = Feed { version: None, namespaces: Vec::new(), channel: None };
        proof {
            assert(f@.namespaces =~= Seq::<(Seq<char>, Seq<char>)>::empty());
        }
        f
    }
}

impl<'a> RssParser<'a> {
    /// A reader before the `rss` element, with no feed.
    pub fn new() -> (p: Self)
        ensures
            p@ == (ParserView { state: XmlParseState::Declaration, feed: None }),
    {
        RssParser { state: XmlParseState::Declaration, feed: None }
    }

    /// Whether taking `token` into account would stop the program: an
    /// attribute of `rss` whose name or value is not UTF-8.
    pub fn would_stop(&self, token: &XmlToken<'a>) -> (r: bool)
        ensures
            r == (handle(self@, token@) is None),
    {
        let version: [u8; 7] = [0x76, 0x65, 0x72, 0x73, 0x69, 0x6f, 0x6e];
        proof {
            reveal_strlit("version");
            assert(version@ =~= ascii("version"@));
        }
        match self.state {
            XmlParseState::Feed => match token {
                XmlToken::Attribute { name, value } => match &self.feed {
                    Some(_) => {
                        if bytes_eq(name, version.as_slice()) {
                            bytes_to_cow_borrowed(value).is_err()
                        } else {
                            bytes_to_cow_borrowed(name).is_err() || bytes_to_cow_borrowed(value).is_err()
                        }
                    },
                    None => false,
                },
                _ => false,
            },
            _ => false,
        }
    }

    /// Takes the next token into account (see `handle`).
    pub fn handle_token(&mut self, token: XmlToken<'a>)
        requires
            handle(old(self)@, token@) is Some,
        ensures
            handle(old(self)@, token@) == Some(final(self)@),
    {
        let rss: [u8; 3] = [0x72, 0x73, 0x73];
        let channel: [u8; 7] = [0x63, 0x68, 0x61, 0x6e, 0x6e, 0x65, 0x6c];
        let version: [u8; 7] = [0x76, 0x65, 0x72, 0x73, 0x69, 0x6f, 0x6e];
        proof {
            reveal_strlit("rss");
            reveal_strlit("channel");
            reveal_strlit("version");
            assert(rss@ =~= ascii("rss"@));
            assert(channel@ =~= ascii("channel"@));
            assert(version@ =~= ascii("version"@));
        }
        match self.state {
            XmlParseState::Declaration => {
                if let XmlToken::StartTag(name) = token {
                    if bytes_eq(name, rss.as_slice()) {
                        self.state = XmlParseState::Feed;
                        self.feed = Some(Feed::new());
                    }
                }
            },
            XmlParseState::Feed => match token {
                XmlToken::StartTag(name) => {
                    if bytes_eq(name, channel.as_slice()) {
                        self.state = XmlParseState::Channel;
                        match &mut self.feed {
                            Some(feed) => feed.channel = Some(Channel::new()),
                            None => {},
                        }
                    }
                },
                XmlToken::Attribute { name, value } => match &mut self.feed {
                    Some(feed) => {
                        if bytes_eq(name, version.as_slice()) {
                            match bytes_to_cow_borrowed(value) {
                                Ok(v) => feed.version = Some(v),
                                Err(_) => {},
                            }
                        } else {
                            match (bytes_to_cow_borrowed(name), bytes_to_cow_borrowed(value)) {
                                (Ok(n), Ok(v)) => {
                                    let ghost before = feed.namespaces@;
                                    feed.namespaces.push((n, v));
                                    proof {
                                        assert(pairs_view(feed.namespaces@) =~= pairs_view(
                                            before,
                                        ).push((n@, v@)));
                                    }
                                },
                                _ => {},
                            }
                        }
                    },
                    None => {},
                },
                _ => {},
            },
            _ => {},
        }
    }
}

} // verus!
