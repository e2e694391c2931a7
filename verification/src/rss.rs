//! A smaller RSS reader driven token by token: it follows the `rss`,
//! `channel` and `item` elements and keeps a channel's title, link and
//! description and an item's known elements.
use vstd::prelude::*;
use crate::bs::{ascii, bytes_eq};
use crate::text::{decode, decode_str, utf8_error_string};
use crate::formats::feeds::rss::text;
use crate::xml::tokens::{XmlToken, TokenView};

verus! {

/// The error the reader reports: a text or attribute that is not UTF-8.
#[derive(Debug)]
pub enum Error {
    Utf8Parse(std::str::Utf8Error),
}

/// Which element the reader is in.
#[derive(Debug, PartialEq, Eq, Structural, Clone, Copy)]
pub enum XmlParseState {
    Declaration,
    Feed,
    Channel,
    Item,
}

/// The elements of a channel or an item whose text is kept.
#[derive(Debug, PartialEq, Eq, Structural, Clone, Copy)]
pub enum RssTag {
    Title,
    Link,
    Description,
    Author,
    Category,
    Comments,
    Enclosure,
    Guid,
    PubDate,
    Source,
}

/// The elements a channel keeps the text of.
pub open spec fn is_channel_field(t: RssTag) -> bool {
    t == RssTag::Title || t == RssTag::Link || t == RssTag::Description
}

/// The elements an item keeps the text of.
pub open spec fn is_item_field(t: RssTag) -> bool {
    t == RssTag::Title || t == RssTag::Link || t == RssTag::Description || t == RssTag::Author
        || t == RssTag::Category || t == RssTag::Comments || t == RssTag::Enclosure || t
        == RssTag::Guid || t == RssTag::PubDate || t == RssTag::Source
}

/// A channel: the text of each of its known elements that was read.
pub struct Channel<'a> {
    title: Option<&'a str>,
    link: Option<&'a str>,
    description: Option<&'a str>,
}

/// A field of an item that a namespace extension adds.
pub struct ExtensionField<'a> {
    prefix: &'a str,
    local_name: &'a str,
    value: &'a str,
}

/// An item: the text of each of its known elements that was read.
pub struct Item<'a> {
    extensions: Vec<ExtensionField<'a>>,
    title: Option<&'a str>,
    link: Option<&'a str>,
    description: Option<&'a str>,
    author: Option<&'a str>,
    category: Option<&'a str>,
    comments: Option<&'a str>,
    enclosure: Option<&'a str>,
    guid: Option<&'a str>,
    pub_date: Option<&'a str>,
    source: Option<&'a str>,
}

/// A feed: its version, the other attributes of `rss`, its channel and items.
pub struct Feed<'a> {
    version: Option<&'a str>,
    namespaces: Vec<(&'a str, &'a str)>,
    channel: Option<Channel<'a>>,
    items: Vec<Item<'a>>,
}

/// The reader.
pub struct RssParser<'a> {
    state: XmlParseState,
    pub feed: Option<Feed<'a>>,
    current_tag: Option<RssTag>,
}

/// A feed, seen as values.
pub struct FeedView {
    pub version: Option<Seq<char>>,
    pub namespaces: Seq<(Seq<char>, Seq<char>)>,
    pub channel: Option<Map<RssTag, Seq<char>>>,
    pub items: Seq<Map<RssTag, Seq<char>>>,
}

/// The reader, seen as values.
pub struct ParserView {
    pub state: XmlParseState,
    pub feed: Option<FeedView>,
    pub current: Option<RssTag>,
}

impl<'a> Channel<'a> {
    /// The stored text of element `t`, if `t` belongs to a channel.
    pub closed spec fn slot(&self, t: RssTag) -> Option<&'a str> {
        match t {
            RssTag::Title => self.title,
            RssTag::Link => self.link,
            RssTag::Description => self.description,
            _ => None,
        }
    }

    /// The channel without any text.
    pub fn new() -> (c: Self)
        ensures
            c@ == Map::<RssTag, Seq<char>>::empty(),
    {
        let c = Channel { title: None, link: None, description: None };
        proof {
            assert(c@ =~= Map::<RssTag, Seq<char>>::empty());
        }
        c
    }

    /// Stores `v` as the text of element `t`; elements that do not belong to a
    /// channel are ignored.
    pub fn set(&mut self, t: RssTag, v: &'a str)
        ensures
            final(self)@ == if is_channel_field(t) {
                old(self)@.insert(t, v@)
            } else {
                old(self)@
            },
    {
        match t {
            RssTag::Title => self.title = Some(v),
            RssTag::Link => self.link = Some(v),
            RssTag::Description => self.description = Some(v),
            _ => {},
        }
        proof {
            if is_channel_field(t) {
                assert(self@ =~= old(self)@.insert(t, v@));
            } else {
                assert(self@ =~= old(self)@);
            }
        }
    }

    /// The title, if one was read.
    pub fn title(&self) -> (r: Option<&'a str>)
        ensures
            r.is_some() == self@.contains_key(RssTag::Title),
            r matches Some(s) ==> s@ == self@[RssTag::Title],
    {
        self.title
    }
}

impl<'a> View for Channel<'a> {
    type V = Map<RssTag, Seq<char>>;

    closed spec fn view(&self) -> Map<RssTag, Seq<char>> {
        Map::new(
            |t: RssTag| is_channel_field(t) && self.slot(t) is Some,
            |t: RssTag| self.slot(t)->0@,
        )
    }
}

impl<'a> Item<'a> {
    /// The stored text of element `t`, if `t` belongs to an item.
    pub closed spec fn slot(&self, t: RssTag) -> Option<&'a str> {
        match t {
            RssTag::Title => self.title,
            RssTag::Link => self.link,
            RssTag::Description => self.description,
            RssTag::Author => self.author,
            RssTag::Category => self.category,
            RssTag::Comments => self.comments,
            RssTag::Enclosure => self.enclosure,
            RssTag::Guid => self.guid,
            RssTag::PubDate => self.pub_date,
            RssTag::Source => self.source,
        }
    }

    /// The item without any text.
    pub fn new() -> (i: Self)
        ensures
            i@ == Map::<RssTag, Seq<char>>::empty(),
    {
        let i = Item {
            extensions: Vec::new(),
            title: None,
            link: None,
            description: None,
            author: None,
            category: None,
            comments: None,
            enclosure: None,
            guid: None,
            pub_date: None,
            source: None,
        };
        proof {
            assert(i@ =~= Map::<RssTag, Seq<char>>::empty());
        }
        i
    }

    /// Stores `v` as the text of element `t`; elements that do not belong to an
    /// item are ignored.
    #[verifier::rlimit(30)]
    pub fn set(&mut self, t: RssTag, v: &'a str)
        ensures
            final(self)@ == if is_item_field(t) {
                old(self)@.insert(t, v@)
            } else {
                old(self)@
            },
    {
        match t {
            RssTag::Title => self.title = Some(v),
            RssTag::Link => self.link = Some(v),
            RssTag::Description => self.description = Some(v),
            RssTag::Author => self.author = Some(v),
            RssTag::Category => self.category = Some(v),
            RssTag::Comments => self.comments = Some(v),
            RssTag::Enclosure => self.enclosure = Some(v),
            RssTag::Guid => self.guid = Some(v),
            RssTag::PubDate => self.pub_date = Some(v),
            RssTag::Source => self.source = Some(v),
        }
        proof {
            if is_item_field(t) {
                assert(self@ =~= old(self)@.insert(t, v@));
            } else {
                assert(self@ =~= old(self)@);
            }
        }
    }

    /// The title, if one was read.
    pub fn title(&self) -> (r: Option<&'a str>)
        ensures
            r.is_some() == self@.contains_key(RssTag::Title),
            r matches Some(s) ==> s@ == self@[RssTag::Title],
    {
        self.title
    }
}

impl<'a> View for Item<'a> {
    type V = Map<RssTag, Seq<char>>;

    closed spec fn view(&self) -> Map<RssTag, Seq<char>> {
        Map::new(
            |t: RssTag| is_item_field(t) && self.slot(t) is Some,
            |t: RssTag| self.slot(t)->0@,
        )
    }
}

/// The item maps of a sequence of items.
pub open spec fn items_view(items: Seq<Item>) -> Seq<Map<RssTag, Seq<char>>> {
    items.map_values(|i: Item| i@)
}

/// The attribute pairs of a sequence of borrowed pairs.
pub open spec fn pairs_view(p: Seq<(&str, &str)>) -> Seq<(Seq<char>, Seq<char>)> {
    p.map_values(|x: (&str, &str)| (x.0@, x.1@))
}

impl<'a> View for Feed<'a> {
    type V = FeedView;

    closed spec fn view(&self) -> FeedView {
        FeedView {
            version: match self.version {
                Some(v) => Some(v@),
                None => None,
            },
            namespaces: pairs_view(self.namespaces@),
            channel: match self.channel {
                Some(c) => Some(c@),
                None => None,
            },
            items: items_view(self.items@),
        }
    }
}

impl<'a> View for RssParser<'a> {
    type V = ParserView;

    closed spec fn view(&self) -> ParserView {
        ParserView {
            state: self.state,
            feed: match self.feed {
                Some(f) => Some(f@),
                None => None,
            },
            current: self.current_tag,
        }
    }
}

/// A feed with nothing read yet.
pub open spec fn empty_feed() -> FeedView {
    FeedView { version: None, namespaces: Seq::empty(), channel: None, items: Seq::empty() }
}

/// The channel element a start tag's name names, if any.
pub open spec fn channel_tag(name: Seq<u8>) -> Option<RssTag> {
    if name == ascii("title"@) {
        Some(RssTag::Title)
    } else if name == ascii("link"@) {
        Some(RssTag::Link)
    } else if name == ascii("description"@) {
        Some(RssTag::Description)
    } else {
        None
    }
}

/// The channel element a start tag's name names, if any.
pub fn channel_tag_of(name: &[u8]) -> (r: Option<RssTag>)
    ensures
        r == channel_tag(name@),
{
    let k0: [u8; 5] = [0x74, 0x69, 0x74, 0x6c, 0x65];
    proof {
        reveal_strlit("title");
        assert(k0@ =~= ascii("title"@));
    }
    if bytes_eq(name, k0.as_slice()) {
        return Some(RssTag::Title);
    }
    let k1: [u8; 4] = [0x6c, 0x69, 0x6e, 0x6b];
    proof {
        reveal_strlit("link");
        assert(k1@ =~= ascii("link"@));
    }
    if bytes_eq(name, k1.as_slice()) {
        return Some(RssTag::Link);
    }
    let k2: [u8; 11] = [0x64, 0x65, 0x73, 0x63, 0x72, 0x69, 0x70, 0x74, 0x69, 0x6f, 0x6e];
    proof {
        reveal_strlit("description");
        assert(k2@ =~= ascii("description"@));
    }
    if bytes_eq(name, k2.as_slice()) {
        return Some(RssTag::Description);
    }
    None
}

/// The item element a tag's name names, if any.
pub open spec fn item_tag(name: Seq<u8>) -> Option<RssTag> {
    if name == ascii("title"@) {
        Some(RssTag::Title)
    } else if name == ascii("link"@) {
        Some(RssTag::Link)
    } else if name == ascii("description"@) {
        Some(RssTag::Description)
    } else if name == ascii("author"@) {
        Some(RssTag::Author)
    } else if name == ascii("category"@) {
        Some(RssTag::Category)
    } else if name == ascii("comments"@) {
        Some(RssTag::Comments)
    } else if name == ascii("enclosure"@) {
        Some(RssTag::Enclosure)
    } else if name == ascii("guid"@) {
        Some(RssTag::Guid)
    } else if name == ascii("pubDate"@) {
        Some(RssTag::PubDate)
    } else if name == ascii("source"@) {
        Some(RssTag::Source)
    } else {
        None
    }
}

/// The item element a tag's name names, if any.
pub fn item_tag_of(name: &[u8]) -> (r: Option<RssTag>)
    ensures
        r == item_tag(name@),
{
    let k0: [u8; 5] = [0x74, 0x69, 0x74, 0x6c, 0x65];
    proof {
        reveal_strlit("title");
        assert(k0@ =~= ascii("title"@));
    }
    if bytes_eq(name, k0.as_slice()) {
        return Some(RssTag::Title);
    }
    let k1: [u8; 4] = [0x6c, 0x69, 0x6e, 0x6b];
    proof {
        reveal_strlit("link");
        assert(k1@ =~= ascii("link"@));
    }
    if bytes_eq(name, k1.as_slice()) {
        return Some(RssTag::Link);
    }
    let k2: [u8; 11] = [0x64, 0x65, 0x73, 0x63, 0x72, 0x69, 0x70, 0x74, 0x69, 0x6f, 0x6e];
    proof {
        reveal_strlit("description");
        assert(k2@ =~= ascii("description"@));
    }
    if bytes_eq(name, k2.as_slice()) {
        return Some(RssTag::Description);
    }
    let k3: [u8; 6] = [0x61, 0x75, 0x74, 0x68, 0x6f, 0x72];
    proof {
        reveal_strlit("author");
        assert(k3@ =~= ascii("author"@));
    }
    if bytes_eq(name, k3.as_slice()) {
        return Some(RssTag::Author);
    }
    let k4: [u8; 8] = [0x63, 0x61, 0x74, 0x65, 0x67, 0x6f, 0x72, 0x79];
    proof {
        reveal_strlit("category");
        assert(k4@ =~= ascii("category"@));
    }
    if bytes_eq(name, k4.as_slice()) {
        return Some(RssTag::Category);
    }
    let k5: [u8; 8] = [0x63, 0x6f, 0x6d, 0x6d, 0x65, 0x6e, 0x74, 0x73];
    proof {
        reveal_strlit("comments");
        assert(k5@ =~= ascii("comments"@));
    }
    if bytes_eq(name, k5.as_slice()) {
        return Some(RssTag::Comments);
    }
    let k6: [u8; 9] = [0x65, 0x6e, 0x63, 0x6c, 0x6f, 0x73, 0x75, 0x72, 0x65];
    proof {
        reveal_strlit("enclosure");
        assert(k6@ =~= ascii("enclosure"@));
    }
    if bytes_eq(name, k6.as_slice()) {
        return Some(RssTag::Enclosure);
    }
    let k7: [u8; 4] = [0x67, 0x75, 0x69, 0x64];
    proof {
        reveal_strlit("guid");
        assert(k7@ =~= ascii("guid"@));
    }
    if bytes_eq(name, k7.as_slice()) {
        return Some(RssTag::Guid);
    }
    let k8: [u8; 7] = [0x70, 0x75, 0x62, 0x44, 0x61, 0x74, 0x65];
    proof {
        reveal_strlit("pubDate");
        assert(k8@ =~= ascii("pubDate"@));
    }
    if bytes_eq(name, k8.as_slice()) {
        return Some(RssTag::PubDate);
    }
    let k9: [u8; 6] = [0x73, 0x6f, 0x75, 0x72, 0x63, 0x65];
    proof {
        reveal_strlit("source");
        assert(k9@ =~= ascii("source"@));
    }
    if bytes_eq(name, k9.as_slice()) {
        return Some(RssTag::Source);
    }
    None
}

/// The reader with `f` as its feed.
pub open spec fn with_feed(p: ParserView, f: FeedView) -> ParserView {
    ParserView { state: p.state, feed: Some(f), current: p.current }
}

/// The reader in state `s`.
pub open spec fn with_state(p: ParserView, s: XmlParseState) -> ParserView {
    ParserView { state: s, feed: p.feed, current: p.current }
}

/// The reader inside element `c` (or inside none).
pub open spec fn with_current(p: ParserView, c: Option<RssTag>) -> ParserView {
    ParserView { state: p.state, feed: p.feed, current: c }
}

/// Before the `rss` element: everything is skipped until it starts, and then
/// an empty feed is opened.
pub open spec fn handle_declaration(p: ParserView, t: TokenView) -> ParserView {
    match t {
        TokenView::StartTag(n) => if n == ascii("rss"@) {
            ParserView { state: XmlParseState::Feed, feed: Some(empty_feed()), current: p.current }
        } else {
            p
        },
        _ => p,
    }
}

/// Inside `rss`: `channel` opens an empty channel; `version` is kept as the
/// version; any other attribute is kept as a name and value pair.
pub open spec fn handle_feed(p: ParserView, t: TokenView) -> Option<ParserView> {
    match t {
        TokenView::StartTag(n) => if n == ascii("channel"@) {
            Some(
                ParserView {
                    state: XmlParseState::Channel,
                    feed: match p.feed {
                        Some(f) => Some(
                            FeedView {
                                version: f.version,
                                namespaces: f.namespaces,
                                channel: Some(Map::empty()),
                                items: f.items,
                            },
                        ),
                        None => None,
                    },
                    current: p.current,
                },
            )
        } else {
            Some(p)
        },
        TokenView::Attribute { name, value } => match p.feed {
            None => Some(p),
            Some(f) => if name == ascii("version"@) {
                match decode(value) {
                    None => None,
                    Some(v) => Some(
                        with_feed(
                            p,
                            FeedView {
                                version: Some(v),
                                namespaces: f.namespaces,
                                channel: f.channel,
                                items: f.items,
                            },
                        ),
                    ),
                }
            } else {
                match (decode(name), decode(value)) {
                    (Some(n), Some(v)) => Some(
                        with_feed(
                            p,
                            FeedView {
                                version: f.version,
                                namespaces: f.namespaces.push((n, v)),
                                channel: f.channel,
                                items: f.items,
                            },
                        ),
                    ),
                    _ => None,
                }
            },
        },
        _ => Some(p),
    }
}

/// Stores `v` as the text of the element the reader is in, in the channel.
pub open spec fn set_channel_text(p: ParserView, v: Seq<char>) -> ParserView {
    match (p.feed, p.current) {
        (Some(f), Some(tag)) => match f.channel {
            Some(c) => if is_channel_field(tag) {
                with_feed(
                    p,
                    FeedView {
                        version: f.version,
                        namespaces: f.namespaces,
                        channel: Some(c.insert(tag, v)),
                        items: f.items,
                    },
                )
            } else {
                p
            },
            None => p,
        },
        _ => p,
    }
}

/// Inside `channel`: `item` opens an empty item; the end of `channel` goes
/// back to the feed; a known element is entered; any end tag leaves the
/// element; text is stored for the element the reader is in.
pub open spec fn handle_channel(p: ParserView, t: TokenView) -> Option<ParserView> {
    match t {
        TokenView::StartTag(n) => if n == ascii("item"@) {
            Some(
                ParserView {
                    state: XmlParseState::Item,
                    feed: match p.feed {
                        Some(f) => Some(
                            FeedView {
                                version: f.version,
                                namespaces: f.namespaces,
                                channel: f.channel,
                                items: f.items.push(Map::empty()),
                            },
                        ),
                        None => None,
                    },
                    current: p.current,
                },
            )
        } else {
            match channel_tag(n) {
                Some(tag) => Some(with_current(p, Some(tag))),
                None => Some(p),
            }
        },
        TokenView::EndTag(n) => if n == ascii("channel"@) {
            Some(with_state(p, XmlParseState::Feed))
        } else {
            Some(with_current(p, None))
        },
        TokenView::Text(x) => match decode(x) {
            None => None,
            Some(v) => Some(set_channel_text(p, v)),
        },
        _ => Some(p),
    }
}

/// Stores `v` as the text of the element the reader is in, in the last item.
pub open spec fn set_item_text(p: ParserView, v: Seq<char>) -> ParserView {
    match (p.feed, p.current) {
        (Some(f), Some(tag)) => if f.items.len() > 0 && is_item_field(tag) {
            with_feed(
                p,
                FeedView {
                    version: f.version,
                    namespaces: f.namespaces,
                    channel: f.channel,
                    items: f.items.update(
                        f.items.len() - 1,
                        f.items[f.items.len() - 1].insert(tag, v),
                    ),
                },
            )
        } else {
            p
        },
        _ => p,
    }
}

/// Inside `item`: its end goes back to the channel; a known element is
/// entered and left; text and character data are stored for the element the
/// reader is in.
pub open spec fn handle_item(p: ParserView, t: TokenView) -> Option<ParserView> {
    match t {
        TokenView::EndTag(n) => if n == ascii("item"@) {
            Some(with_state(p, XmlParseState::Channel))
        } else {
            match item_tag(n) {
                Some(_) => Some(with_current(p, None)),
                None => Some(p),
            }
        },
        TokenView::StartTag(n) => match item_tag(n) {
            Some(tag) => Some(with_current(p, Some(tag))),
            None => Some(p),
        },
        TokenView::Text(x) => match decode(x) {
            None => None,
            Some(v) => Some(set_item_text(p, v)),
        },
        TokenView::CharacterData(x) => match decode(x) {
            None => None,
            Some(v) => Some(set_item_text(p, v)),
        },
        _ => Some(p),
    }
}

/// The reader after token `t`, or `None` when `t` carries bytes that are not
/// UTF-8 where text is read.
pub open spec fn handle(p: ParserView, t: TokenView) -> Option<ParserView> {
    match p.state {
        XmlParseState::Declaration => Some(handle_declaration(p, t)),
        XmlParseState::Feed => handle_feed(p, t),
        XmlParseState::Channel => handle_channel(p, t),
        XmlParseState::Item => handle_item(p, t),
    }
}

impl<'a> Feed<'a> {
    /// A feed with nothing read yet.
    pub fn new() -> (f: Self)
        ensures
            f@ == empty_feed(),
    {
        let f = Feed { version: None, namespaces: Vec::new(), channel: None, items: Vec::new() };
        proof {
            assert(f@.namespaces =~= Seq::<(Seq<char>, Seq<char>)>::empty());
            assert(f@.items =~= Seq::<Map<RssTag, Seq<char>>>::empty());
        }
        f
    }

    /// The channel's title, if there is a channel and it has one.
    pub fn get_channel_title(&self) -> (r: Option<&'a str>)
        ensures
            r.is_some() == (self@.channel matches Some(c) && c.contains_key(RssTag::Title)),
            r matches Some(s) ==> s@ == self@.channel->0[RssTag::Title],
    {
        match &self.channel {
            Some(c) => c.title(),
            None => None,
        }
    }

    /// The titles of the items that have one, in order.
    pub fn get_item_titles(&self) -> (r: Vec<&'a str>)
        ensures
            r@.map_values(|s: &str| s@) == present(self@.items, RssTag::Title),
    {
        let mut out: Vec<&'a str> = Vec::new();
        let mut i: usize = 0;
        while i < self.items.len()
            invariant
                i <= self.items@.len(),
                out@.map_values(|s: &str| s@) == present(
                    items_view(self.items@).take(i as int),
                    RssTag::Title,
                ),
            decreases self.items@.len() - i,
        {
            proof {
                assert(items_view(self.items@).take(i + 1).drop_last() =~= items_view(
                    self.items@,
                ).take(i as int));
            }
            if let Some(t) = self.items[i].title() {
                out.push(t);
            }
            i += 1;
            proof {
                assert(out@.map_values(|s: &str| s@) =~= present(
                    items_view(self.items@).take(i as int),
                    RssTag::Title,
                ));
            }
        }
        proof {
            assert(items_view(self.items@).take(i as int) =~= items_view(self.items@));
        }
        out
    }
}

/// The texts that the items hold for element `t`, in order, skipping the
/// items that hold none.
pub open spec fn present(items: Seq<Map<RssTag, Seq<char>>>, t: RssTag) -> Seq<Seq<char>>
    decreases items.len(),
{
    if items.len() == 0 {
        Seq::empty()
    } else {
        let rest = present(items.drop_last(), t);
        if items.last().contains_key(t) {
            rest.push(items.last()[t])
        } else {
            rest
        }
    }
}

impl<'a> RssParser<'a> {
    /// A reader before the `rss` element, with no feed.
    pub fn new() -> (p: Self)
        ensures
            p@ == (ParserView { state: XmlParseState::Declaration, feed: None, current: None }),
    {
        RssParser { state: XmlParseState::Declaration, feed: None, current_tag: None }
    }

    /// Decodes `bytes` as UTF-8.
    fn parse_str(bytes: &'a [u8]) -> (r: Result<&'a str, Error>)
        ensures
            r is Ok <==> decode(bytes@) is Some,
            r matches Ok(s) ==> decode(bytes@) == Some(s@),
    {
        match decode_str(bytes) {
            Ok(s) => Ok(s),
            Err(e) => Err(Error::Utf8Parse(e)),
        }
    }

    /// Takes the next token into account. On an error nothing changes.
    pub fn handle_token(&mut self, token: XmlToken<'a>) -> (r: Result<(), Error>)
        ensures
            match handle(old(self)@, token@) {
                Some(v) => r is Ok && final(self)@ == v,
                None => r is Err && final(self)@ == old(self)@,
            },
    {
        match self.state {
            XmlParseState::Declaration => {
                self.handle_declaration(token);
                Ok(())
            },
            XmlParseState::Feed => self.handle_feed(token),
            XmlParseState::Channel => self.handle_channel(token),
            XmlParseState::Item => self.handle_item(token),
        }
    }

    fn handle_declaration(&mut self, token: XmlToken<'a>)
        requires
            old(self).state == XmlParseState::Declaration,
        ensures
            final(self)@ == handle_declaration(old(self)@, token@),
    {
        let rss: [u8; 3] = [0x72, 0x73, 0x73];
        proof {
            reveal_strlit("rss");
            assert(rss@ =~= ascii("rss"@));
        }
        if let XmlToken::StartTag(name) = token {
            if bytes_eq(name, rss.as_slice()) {
                self.state = XmlParseState::Feed;
                self.feed = Some(Feed::new());
            }
        }
    }

    fn handle_feed(&mut self, token: XmlToken<'a>) -> (r: Result<(), Error>)
        requires
            old(self).state == XmlParseState::Feed,
        ensures
            match handle_feed(old(self)@, token@) {
                Some(v) => r is Ok && final(self)@ == v,
                None => r is Err && final(self)@ == old(self)@,
            },
    {
        let channel: [u8; 7] = [0x63, 0x68, 0x61, 0x6e, 0x6e, 0x65, 0x6c];
        let version: [u8; 7] = [0x76, 0x65, 0x72, 0x73, 0x69, 0x6f, 0x6e];
        proof {
            reveal_strlit("channel");
            reveal_strlit("version");
            assert(channel@ =~= ascii("channel"@));
            assert(version@ =~= ascii("version"@));
        }
        match token {
            XmlToken::StartTag(name) => {
                if bytes_eq(name, channel.as_slice()) {
                    self.state = XmlParseState::Channel;
                    match &mut self.feed {
                        Some(feed) => {
                            feed.channel = Some(Channel::new());
                        },
                        None => {},
                    }
                }
                Ok(())
            },
            XmlToken::Attribute { name, value } => {
                match &mut self.feed {
                    Some(feed) => {
                        if bytes_eq(name, version.as_slice()) {
                            let v = Self::parse_str(value)?;
                            feed.version = Some(v);
                        } else {
                            let n = Self::parse_str(name)?;
                            let v = Self::parse_str(value)?;
                            feed.namespaces.push((n, v));
                            proof {
                                assert(pairs_view(feed.namespaces@) =~= pairs_view(
                                    old(self).feed->0.namespaces@,
                                ).push((n@, v@)));
                            }
                        }
                        Ok(())
                    },
                    None => Ok(()),
                }
            },
            _ => Ok(()),
        }
    }

    fn handle_channel(&mut self, token: XmlToken<'a>) -> (r: Result<(), Error>)
        requires
            old(self).state == XmlParseState::Channel,
        ensures
            match handle_channel(old(self)@, token@) {
                Some(v) => r is Ok && final(self)@ == v,
                None => r is Err && final(self)@ == old(self)@,
            },
    {
        let item: [u8; 4] = [0x69, 0x74, 0x65, 0x6d];
        let channel: [u8; 7] = [0x63, 0x68, 0x61, 0x6e, 0x6e, 0x65, 0x6c];
        proof {
            reveal_strlit("item");
            reveal_strlit("channel");
            assert(item@ =~= ascii("item"@));
            assert(channel@ =~= ascii("channel"@));
        }
        match token {
            XmlToken::StartTag(name) => {
                if bytes_eq(name, item.as_slice()) {
                    self.state = XmlParseState::Item;
                    match &mut self.feed {
                        Some(feed) => {
                            feed.items.push(Item::new());
                            proof {
                                assert(items_view(feed.items@) =~= items_view(
                                    old(self).feed->0.items@,
                                ).push(Map::empty()));
                            }
                        },
                        None => {},
                    }
                } else if let Some(tag) = channel_tag_of(name) {
                    self.current_tag = Some(tag);
                }
                Ok(())
            },
            XmlToken::EndTag(name) => {
                if bytes_eq(name, channel.as_slice()) {
                    self.state = XmlParseState::Feed;
                } else {
                    self.current_tag = None;
                }
                Ok(())
            },
            XmlToken::Text(text) => {
                let parsed_text = Self::parse_str(text)?;
                match &mut self.feed {
                    Some(feed) => match &mut feed.channel {
                        Some(channel) => match self.current_tag {
                            Some(tag) => channel.set(tag, parsed_text),
                            None => {},
                        },
                        None => {},
                    },
                    None => {},
                }
                Ok(())
            },
            _ => Ok(()),
        }
    }

    fn handle_item(&mut self, token: XmlToken<'a>) -> (r: Result<(), Error>)
        requires
            old(self).state == XmlParseState::Item,
        ensures
            match handle_item(old(self)@, token@) {
                Some(v) => r is Ok && final(self)@ == v,
                None => r is Err && final(self)@ == old(self)@,
            },
    {
        let item: [u8; 4] = [0x69, 0x74, 0x65, 0x6d];
        proof {
            reveal_strlit("item");
            assert(item@ =~= ascii("item"@));
        }
        match token {
            XmlToken::EndTag(name) => {
                if bytes_eq(name, item.as_slice()) {
                    self.state = XmlParseState::Channel;
                } else if item_tag_of(name).is_some() {
                    self.current_tag = None;
                }
                Ok(())
            },
            XmlToken::StartTag(name) => {
                if let Some(tag) = item_tag_of(name) {
                    self.current_tag = Some(tag);
                }
                Ok(())
            },
            XmlToken::Text(text) => {
                let parsed_text = Self::parse_str(text)?;
                self.set_item_text(parsed_text);
                Ok(())
            },
            XmlToken::CharacterData(text) => {
                let parsed_text = Self::parse_str(text)?;
                self.set_item_text(parsed_text);
                Ok(())
            },
            _ => Ok(()),
        }
    }

    fn set_item_text(&mut self, v: &'a str)
        ensures
            final(self)@ == set_item_text(old(self)@, v@),
    {
        match &mut self.feed {
            Some(feed) => match self.current_tag {
                Some(tag) => {
                    if feed.items.len() > 0 {
                        let ghost before = items_view(feed.items@);
                        let mut last = feed.items.pop().unwrap();
                        last.set(tag, v);
                        feed.items.push(last);
                        proof {
                            if is_item_field(tag) {
                                assert(items_view(feed.items@) =~= before.update(
                                    before.len() - 1,
                                    before[before.len() - 1].insert(tag, v@),
                                ));
                            } else {
                                assert(items_view(feed.items@) =~= before);
                            }
                        }
                    }
                },
                None => {},
            },
            None => {},
        }
    }
}


impl Error {
    /// The decoder's message for the text that is not UTF-8 (not stated here).
    pub fn to_string(&self) -> (s: String) {
        match self {
            Error::Utf8Parse(e) => utf8_error_string(e),
        }
    }
}

/// Each channel element's name stands for that element, and no other name
/// does.
pub proof fn law_channel_tag_names(n: Seq<u8>)
    ensures
        (channel_tag(n) == Some(RssTag::Title)) == (n == seq![0x74u8, 0x69u8, 0x74u8, 0x6cu8, 0x65u8]),
        (channel_tag(n) == Some(RssTag::Link)) == (n == seq![0x6cu8, 0x69u8, 0x6eu8, 0x6bu8]),
        (channel_tag(n) == Some(RssTag::Description)) == (n == seq![0x64u8, 0x65u8, 0x73u8, 0x63u8, 0x72u8, 0x69u8, 0x70u8, 0x74u8, 0x69u8, 0x6fu8, 0x6eu8]),
{
    reveal_strlit("title");
    assert(ascii("title"@) =~= seq![0x74u8, 0x69u8, 0x74u8, 0x6cu8, 0x65u8]);
    reveal_strlit("link");
    assert(ascii("link"@) =~= seq![0x6cu8, 0x69u8, 0x6eu8, 0x6bu8]);
    reveal_strlit("description");
    assert(ascii("description"@) =~= seq![0x64u8, 0x65u8, 0x73u8, 0x63u8, 0x72u8, 0x69u8, 0x70u8, 0x74u8, 0x69u8, 0x6fu8, 0x6eu8]);
}

/// Each item element's name stands for that element, and no other name
/// does.
pub proof fn law_item_tag_names(n: Seq<u8>)
    ensures
        (item_tag(n) == Some(RssTag::Title)) == (n == seq![0x74u8, 0x69u8, 0x74u8, 0x6cu8, 0x65u8]),
        (item_tag(n) == Some(RssTag::Link)) == (n == seq![0x6cu8, 0x69u8, 0x6eu8, 0x6bu8]),
        (item_tag(n) == Some(RssTag::Description)) == (n == seq![0x64u8, 0x65u8, 0x73u8, 0x63u8, 0x72u8, 0x69u8, 0x70u8, 0x74u8, 0x69u8, 0x6fu8, 0x6eu8]),
        (item_tag(n) == Some(RssTag::Author)) == (n == seq![0x61u8, 0x75u8, 0x74u8, 0x68u8, 0x6fu8, 0x72u8]),
        (item_tag(n) == Some(RssTag::Category)) == (n == seq![0x63u8, 0x61u8, 0x74u8, 0x65u8, 0x67u8, 0x6fu8, 0x72u8, 0x79u8]),
        (item_tag(n) == Some(RssTag::Comments)) == (n == seq![0x63u8, 0x6fu8, 0x6du8, 0x6du8, 0x65u8, 0x6eu8, 0x74u8, 0x73u8]),
        (item_tag(n) == Some(RssTag::Enclosure)) == (n == seq![0x65u8, 0x6eu8, 0x63u8, 0x6cu8, 0x6fu8, 0x73u8, 0x75u8, 0x72u8, 0x65u8]),
        (item_tag(n) == Some(RssTag::Guid)) == (n == seq![0x67u8, 0x75u8, 0x69u8, 0x64u8]),
        (item_tag(n) == Some(RssTag::PubDate)) == (n == seq![0x70u8, 0x75u8, 0x62u8, 0x44u8, 0x61u8, 0x74u8, 0x65u8]),
        (item_tag(n) == Some(RssTag::Source)) == (n == seq![0x73u8, 0x6fu8, 0x75u8, 0x72u8, 0x63u8, 0x65u8]),
{
    reveal_strlit("title");
    assert(ascii("title"@) =~= seq![0x74u8, 0x69u8, 0x74u8, 0x6cu8, 0x65u8]);
    reveal_strlit("link");
    assert(ascii("link"@) =~= seq![0x6cu8, 0x69u8, 0x6eu8, 0x6bu8]);
    reveal_strlit("description");
    assert(ascii("description"@) =~= seq![0x64u8, 0x65u8, 0x73u8, 0x63u8, 0x72u8, 0x69u8, 0x70u8, 0x74u8, 0x69u8, 0x6fu8, 0x6eu8]);
    reveal_strlit("author");
    assert(ascii("author"@) =~= seq![0x61u8, 0x75u8, 0x74u8, 0x68u8, 0x6fu8, 0x72u8]);
    reveal_strlit("category");
    assert(ascii("category"@) =~= seq![0x63u8, 0x61u8, 0x74u8, 0x65u8, 0x67u8, 0x6fu8, 0x72u8, 0x79u8]);
    reveal_strlit("comments");
    assert(ascii("comments"@) =~= seq![0x63u8, 0x6fu8, 0x6du8, 0x6du8, 0x65u8, 0x6eu8, 0x74u8, 0x73u8]);
    reveal_strlit("enclosure");
    assert(ascii("enclosure"@) =~= seq![0x65u8, 0x6eu8, 0x63u8, 0x6cu8, 0x6fu8, 0x73u8, 0x75u8, 0x72u8, 0x65u8]);
    reveal_strlit("guid");
    assert(ascii("guid"@) =~= seq![0x67u8, 0x75u8, 0x69u8, 0x64u8]);
    reveal_strlit("pubDate");
    assert(ascii("pubDate"@) =~= seq![0x70u8, 0x75u8, 0x62u8, 0x44u8, 0x61u8, 0x74u8, 0x65u8]);
    reveal_strlit("source");
    assert(ascii("source"@) =~= seq![0x73u8, 0x6fu8, 0x75u8, 0x72u8, 0x63u8, 0x65u8]);
}

} // verus!
