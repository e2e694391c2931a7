//! An RSS reader driven token by token: it follows the `rss`, `channel` and
//! `item` elements and keeps the text of the elements it knows.
use vstd::prelude::*;
use crate::bs::{ascii, bytes_eq};
use crate::text::{decode, decode_str, utf8_error_string};
use crate::formats::feeds::rss::{line, push_line, text};
use crate::xml::tokens::{XmlToken, TokenView};

verus! {

/// The error the reader reports: a text or attribute that is not UTF-8.
#[derive(Debug)]
pub enum Error {
    Utf8Parse(std::str::Utf8Error),
}

/// Which element the reader is in.
#[derive(Debug, PartialEq, Eq, Structural, Clone, Copy)]
pub enum XmlParseState {
    Declaration,
    Feed,
    Channel,
    Item,
}

/// The elements of a channel or an item whose text is kept.
#[derive(Debug, PartialEq, Eq, Structural, Clone, Copy)]
pub enum RssTag {
    Title,
    Link,
    Description,
    Language,
    Copyright,
    ManagingEditor,
    WebMaster,
    PubDate,
    LastBuildDate,
    Category,
    Generator,
    Docs,
    Cloud,
    Ttl,
    Image,
    Rating,
    TextInput,
    SkipHours,
    SkipDays,
    Author,
    Comments,
    Enclosure,
    Guid,
    Source,
}

/// The elements a channel keeps the text of.
pub open spec fn is_channel_field(t: RssTag) -> bool {
    !(t == RssTag::Author || t == RssTag::Comments || t == RssTag::Enclosure || t == RssTag::Guid
        || t == RssTag::Source)
}

/// The elements an item keeps the text of.
pub open spec fn is_item_field(t: RssTag) -> bool {
    t == RssTag::Title || t == RssTag::Link || t == RssTag::Description || t == RssTag::Author
        || t == RssTag::Category || t == RssTag::Comments || t == RssTag::Enclosure || t
        == RssTag::Guid || t == RssTag::PubDate || t == RssTag::Source
}

/// A channel: the text of each of its known elements that was read.
pub struct Channel<'a> {
    title: Option<&'a str>,
    link: Option<&'a str>,
    description: Option<&'a str>,
    language: Option<&'a str>,
    copyright: Option<&'a str>,
    managing_editor: Option<&'a str>,
    web_master: Option<&'a str>,
    pub_date: Option<&'a str>,
    last_build_date: Option<&'a str>,
    category: Option<&'a str>,
    generator: Option<&'a str>,
    docs: Option<&'a str>,
    cloud: Option<&'a str>,
    ttl: Option<&'a str>,
    image: Option<&'a str>,
    rating: Option<&'a str>,
    text_input: Option<&'a str>,
    skip_hours: Option<&'a str>,
    skip_days: Option<&'a str>,
}

/// A field of an item that a namespace extension adds.
pub struct ExtensionField<'a> {
    prefix: &'a str,
    local_name: &'a str,
    value: &'a str,
}

/// An item: the text of each of its known elements that was read.
pub struct Item<'a> {
    extensions: Vec<ExtensionField<'a>>,
    title: Option<&'a str>,
    link: Option<&'a str>,
    description: Option<&'a str>,
    author: Option<&'a str>,
    category: Option<&'a str>,
    comments: Option<&'a str>,
    enclosure: Option<&'a str>,
    guid: Option<&'a str>,
    pub_date: Option<&'a str>,
    source: Option<&'a str>,
}

/// A feed: its version, the other attributes of `rss`, its channel and items.
pub struct Feed<'a> {
    version: Option<&'a str>,
    namespaces: Vec<(&'a str, &'a str)>,
    pub channel: Option<Channel<'a>>,
    pub items: Vec<Item<'a>>,
}

/// The reader.
pub struct RssParser<'a> {
    state: XmlParseState,
    pub feed: Option<Feed<'a>>,
    current_tag: Option<RssTag>,
}

/// A feed, seen as values.
pub struct FeedView {
    pub version: Option<Seq<char>>,
    pub namespaces: Seq<(Seq<char>, Seq<char>)>,
    pub channel: Option<Map<RssTag, Seq<char>>>,
    pub items: Seq<Map<RssTag, Seq<char>>>,
}

/// The reader, seen as values.
pub struct ParserView {
    pub state: XmlParseState,
    pub feed: Option<FeedView>,
    pub current: Option<RssTag>,
}

impl<'a> Channel<'a> {
    /// The stored text of element `t`, if `t` belongs to a channel.
    pub closed spec fn slot(&self, t: RssTag) -> Option<&'a str> {
        match t {
            RssTag::Title => self.title,
            RssTag::Link => self.link,
            RssTag::Description => self.description,
            RssTag::Language => self.language,
            RssTag::Copyright => self.copyright,
            RssTag::ManagingEditor => self.managing_editor,
            RssTag::WebMaster => self.web_master,
            RssTag::PubDate => self.pub_date,
            RssTag::LastBuildDate => self.last_build_date,
            RssTag::Category => self.category,
            RssTag::Generator => self.generator,
            RssTag::Docs => self.docs,
            RssTag::Cloud => self.cloud,
            RssTag::Ttl => self.ttl,
            RssTag::Image => self.image,
            RssTag::Rating => self.rating,
            RssTag::TextInput => self.text_input,
            RssTag::SkipHours => self.skip_hours,
            RssTag::SkipDays => self.skip_days,
            _ => None,
        }
    }

    /// The channel without any text.
    pub fn new() -> (c: Self)
        ensures
            c@ == Map::<RssTag, Seq<char>>::empty(),
    {
        let c = Channel {
            title: None,
            link: None,
            description: None,
            language: None,
            copyright: None,
            managing_editor: None,
            web_master: None,
            pub_date: None,
            last_build_date: None,
            category: None,
            generator: None,
            docs: None,
            cloud: None,
            ttl: None,
            image: None,
            rating: None,
            text_input: None,
            skip_hours: None,
            skip_days: None,
        };
        proof {
            assert(c@ =~= Map::<RssTag, Seq<char>>::empty());
        }
        c
    }

    /// Stores `v` as the text of element `t`; elements that do not belong to a
    /// channel are ignored.
    #[verifier::rlimit(30)]
    pub fn set(&mut self, t: RssTag, v: &'a str)
        ensures
            final(self)@ == if is_channel_field(t) {
                old(self)@.insert(t, v@)
            } else {
                old(self)@
            },
    {
        match t {
            RssTag::Title => self.title = Some(v),
            RssTag::Link => self.link = Some(v),
            RssTag::Description => self.description = Some(v),
            RssTag::Language => self.language = Some(v),
            RssTag::Copyright => self.copyright = Some(v),
            RssTag::ManagingEditor => self.managing_editor = Some(v),
            RssTag::WebMaster => self.web_master = Some(v),
            RssTag::PubDate => self.pub_date = Some(v),
            RssTag::LastBuildDate => self.last_build_date = Some(v),
            RssTag::Category => self.category = Some(v),
            RssTag::Generator => self.generator = Some(v),
            RssTag::Docs => self.docs = Some(v),
            RssTag::Cloud => self.cloud = Some(v),
            RssTag::Ttl => self.ttl = Some(v),
            RssTag::Image => self.image = Some(v),
            RssTag::Rating => self.rating = Some(v),
            RssTag::TextInput => self.text_input = Some(v),
            RssTag::SkipHours => self.skip_hours = Some(v),
            RssTag::SkipDays => self.skip_days = Some(v),
            _ => {},
        }
        proof {
            if is_channel_field(t) {
                assert(self@ =~= old(self)@.insert(t, v@));
            } else {
                assert(self@ =~= old(self)@);
            }
        }
    }

    /// The title, if one was read.
    pub fn title(&self) -> (r: Option<&'a str>)
        ensures
            r.is_some() == self@.contains_key(RssTag::Title),
            r matches Some(s) ==> s@ == self@[RssTag::Title],
    {
        self.title
    }

    /// The link, if one was read.
    pub fn link(&self) -> (r: Option<&'a str>)
        ensures
            r.is_some() == self@.contains_key(RssTag::Link),
            r matches Some(s) ==> s@ == self@[RssTag::Link],
    {
        self.link
    }
}

impl<'a> View for Channel<'a> {
    type V = Map<RssTag, Seq<char>>;

    closed spec fn view(&self) -> Map<RssTag, Seq<char>> {
        Map::new(
            |t: RssTag| is_channel_field(t) && self.slot(t) is Some,
            |t: RssTag| self.slot(t)->0@,
        )
    }
}

impl<'a> Item<'a> {
    /// The stored text of element `t`, if `t` belongs to an item.
    pub closed spec fn slot(&self, t: RssTag) -> Option<&'a str> {
        match t {
            RssTag::Title => self.title,
            RssTag::Link => self.link,
            RssTag::Description => self.description,
            RssTag::Author => self.author,
            RssTag::Category => self.category,
            RssTag::Comments => self.comments,
            RssTag::Enclosure => self.enclosure,
            RssTag::Guid => self.guid,
            RssTag::PubDate => self.pub_date,
            RssTag::Source => self.source,
            _ => None,
        }
    }

    /// The item without any text.
    pub fn new() -> (i: Self)
        ensures
            i@ == Map::<RssTag, Seq<char>>::empty(),
    {
        let i = Item {
            extensions: Vec::new(),
            title: None,
            link: None,
            description: None,
            author: None,
            category: None,
            comments: None,
            enclosure: None,
            guid: None,
            pub_date: None,
            source: None,
        };
        proof {
            assert(i@ =~= Map::<RssTag, Seq<char>>::empty());
        }
        i
    }

    /// Stores `v` as the text of element `t`; elements that do not belong to an
    /// item are ignored.
    #[verifier::rlimit(30)]
    pub fn set(&mut self, t: RssTag, v: &'a str)
        ensures
            final(self)@ == if is_item_field(t) {
                old(self)@.insert(t, v@)
            } else {
                old(self)@
            },
    {
        match t {
            RssTag::Title => self.title = Some(v),
            RssTag::Link => self.link = Some(v),
            RssTag::Description => self.description = Some(v),
            RssTag::Author => self.author = Some(v),
            RssTag::Category => self.category = Some(v),
            RssTag::Comments => self.comments = Some(v),
            RssTag::Enclosure => self.enclosure = Some(v),
            RssTag::Guid => self.guid = Some(v),
            RssTag::PubDate => self.pub_date = Some(v),
            RssTag::Source => self.source = Some(v),
            _ => {},
        }
        proof {
            if is_item_field(t) {
                assert(self@ =~= old(self)@.insert(t, v@));
            } else {
                assert(self@ =~= old(self)@);
            }
        }
    }

    /// The title, if one was read.
    pub fn title(&self) -> (r: Option<&'a str>)
        ensures
            r.is_some() == self@.contains_key(RssTag::Title),
            r matches Some(s) ==> s@ == self@[RssTag::Title],
    {
        self.title
    }

    /// The description, if one was read.
    pub fn description(&self) -> (r: Option<&'a str>)
        ensures
            r.is_some() == self@.contains_key(RssTag::Description),
            r matches Some(s) ==> s@ == self@[RssTag::Description],
    {
        self.description
    }
}

impl<'a> View for Item<'a> {
    type V = Map<RssTag, Seq<char>>;

    closed spec fn view(&self) -> Map<RssTag, Seq<char>> {
        Map::new(
            |t: RssTag| is_item_field(t) && self.slot(t) is Some,
            |t: RssTag| self.slot(t)->0@,
        )
    }
}

/// The item maps of a sequence of items.
pub open spec fn items_view(items: Seq<Item>) -> Seq<Map<RssTag, Seq<char>>> {
    items.map_values(|i: Item| i@)
}

/// The attribute pairs of a sequence of borrowed pairs.
pub open spec fn pairs_view(p: Seq<(&str, &str)>) -> Seq<(Seq<char>, Seq<char>)> {
    p.map_values(|x: (&str, &str)| (x.0@, x.1@))
}

impl<'a> View for Feed<'a> {
    type V = FeedView;

    closed spec fn view(&self) -> FeedView {
        FeedView {
            version: match self.version {
                Some(v) => Some(v@),
                None => None,
            },
            namespaces: pairs_view(self.namespaces@),
            channel: match self.channel {
                Some(c) => Some(c@),
                None => None,
            },
            items: items_view(self.items@),
        }
    }
}

impl<'a> View for RssParser<'a> {
    type V = ParserView;

    closed spec fn view(&self) -> ParserView {
        ParserView {
            state: self.state,
            feed: match self.feed {
                Some(f) => Some(f@),
                None => None,
            },
            current: self.current_tag,
        }
    }
}

/// A feed with nothing read yet.
pub open spec fn empty_feed() -> FeedView {
    FeedView { version: None, namespaces: Seq::empty(), channel: None, items: Seq::empty() }
}

/// The channel element a start tag's name names, if any.
pub open spec fn channel_tag(name: Seq<u8>) -> Option<RssTag> {
    if name == ascii("title"@) {
        Some(RssTag::Title)
    } else if name == ascii("link"@) {
        Some(RssTag::Link)
    } else if name == ascii("description"@) {
        Some(RssTag::Description)
    } else if name == ascii("language"@) {
        Some(RssTag::Language)
    } else if name == ascii("copyright"@) {
        Some(RssTag::Copyright)
    } else if name == ascii("managingEditor"@) {
        Some(RssTag::ManagingEditor)
    } else if name == ascii("webMaster"@) {
        Some(RssTag::WebMaster)
    } else if name == ascii("pubDate"@) {
        Some(RssTag::PubDate)
    } else if name == ascii("lastBuildDate"@) {
        Some(RssTag::LastBuildDate)
    } else if name == ascii("category"@) {
        Some(RssTag::Category)
    } else if name == ascii("generator"@) {
        Some(RssTag::Generator)
    } else if name == ascii("docs"@) {
        Some(RssTag::Docs)
    } else if name == ascii("cloud"@) {
        Some(RssTag::Cloud)
    } else if name == ascii("ttl"@) {
        Some(RssTag::Ttl)
    } else if name == ascii("image"@) {
        Some(RssTag::Image)
    } else if name == ascii("rating"@) {
        Some(RssTag::Rating)
    } else if name == ascii("textInput"@) {
        Some(RssTag::TextInput)
    } else if name == ascii("skipHours"@) {
        Some(RssTag::SkipHours)
    } else if name == ascii("skipDays"@) {
        Some(RssTag::SkipDays)
    } else {
        None
    }
}

/// The channel element a start tag's name names, if any.
pub fn channel_tag_of(name: &[u8]) -> (r: Option<RssTag>)
    ensures
        r == channel_tag(name@),
{
    let k0: [u8; 5] = [0x74, 0x69, 0x74, 0x6c, 0x65];
    proof {
        reveal_strlit("title");
        assert(k0@ =~= ascii("title"@));
    }
    if bytes_eq(name, k0.as_slice()) {
        return Some(RssTag::Title);
    }
    let k1: [u8; 4] = [0x6c, 0x69, 0x6e, 0x6b];
    proof {
        reveal_strlit("link");
        assert(k1@ =~= ascii("link"@));
    }
    if bytes_eq(name, k1.as_slice()) {
        return Some(RssTag::Link);
    }
    let k2: [u8; 11] = [0x64, 0x65, 0x73, 0x63, 0x72, 0x69, 0x70, 0x74, 0x69, 0x6f, 0x6e];
    proof {
        reveal_strlit("description");
        assert(k2@ =~= ascii("description"@));
    }
    if bytes_eq(name, k2.as_slice()) {
        return Some(RssTag::Description);
    }
    let k3: [u8; 8] = [0x6c, 0x61, 0x6e, 0x67, 0x75, 0x61, 0x67, 0x65];
    proof {
        reveal_strlit("language");
        assert(k3@ =~= ascii("language"@));
    }
    if bytes_eq(name, k3.as_slice()) {
        return Some(RssTag::Language);
    }
    let k4: [u8; 9] = [0x63, 0x6f, 0x70, 0x79, 0x72, 0x69, 0x67, 0x68, 0x74];
    proof {
        reveal_strlit("copyright");
        assert(k4@ =~= ascii("copyright"@));
    }
    if bytes_eq(name, k4.as_slice()) {
        return Some(RssTag::Copyright);
    }
    let k5: [u8; 14] = [0x6d, 0x61, 0x6e, 0x61, 0x67, 0x69, 0x6e, 0x67, 0x45, 0x64, 0x69, 0x74, 0x6f, 0x72];
    proof {
        reveal_strlit("managingEditor");
        assert(k5@ =~= ascii("managingEditor"@));
    }
    if bytes_eq(name, k5.as_slice()) {
        return Some(RssTag::ManagingEditor);
    }
    let k6: [u8; 9] = [0x77, 0x65, 0x62, 0x4d, 0x61, 0x73, 0x74, 0x65, 0x72];
    proof {
        reveal_strlit("webMaster");
        assert(k6@ =~= ascii("webMaster"@));
    }
    if bytes_eq(name, k6.as_slice()) {
        return Some(RssTag::WebMaster);
    }
    let k7: [u8; 7] = [0x70, 0x75, 0x62, 0x44, 0x61, 0x74, 0x65];
    proof {
        reveal_strlit("pubDate");
        assert(k7@ =~= ascii("pubDate"@));
    }
    if bytes_eq(name, k7.as_slice()) {
        return Some(RssTag::PubDate);
    }
    let k8: [u8; 13] = [0x6c, 0x61, 0x73, 0x74, 0x42, 0x75, 0x69, 0x6c, 0x64, 0x44, 0x61, 0x74, 0x65];
    proof {
        reveal_strlit("lastBuildDate");
        assert(k8@ =~= ascii("lastBuildDate"@));
    }
    if bytes_eq(name, k8.as_slice()) {
        return Some(RssTag::LastBuildDate);
    }
    let k9: [u8; 8] = [0x63, 0x61, 0x74, 0x65, 0x67, 0x6f, 0x72, 0x79];
    proof {
        reveal_strlit("category");
        assert(k9@ =~= ascii("category"@));
    }
    if bytes_eq(name, k9.as_slice()) {
        return Some(RssTag::Category);
    }
    let k10: [u8; 9] = [0x67, 0x65, 0x6e, 0x65, 0x72, 0x61, 0x74, 0x6f, 0x72];
    proof {
        reveal_strlit("generator");
        assert(k10@ =~= ascii("generator"@));
    }
    if bytes_eq(name, k10.as_slice()) {
        return Some(RssTag::Generator);
    }
    let k11: [u8; 4] = [0x64, 0x6f, 0x63, 0x73];
    proof {
        reveal_strlit("docs");
        assert(k11@ =~= ascii("docs"@));
    }
    if bytes_eq(name, k11.as_slice()) {
        return Some(RssTag::Docs);
    }
    let k12: [u8; 5] = [0x63, 0x6c, 0x6f, 0x75, 0x64];
    proof {
        reveal_strlit("cloud");
        assert(k12@ =~= ascii("cloud"@));
    }
    if bytes_eq(name, k12.as_slice()) {
        return Some(RssTag::Cloud);
    }
    let k13: [u8; 3] = [0x74, 0x74, 0x6c];
    proof {
        reveal_strlit("ttl");
        assert(k13@ =~= ascii("ttl"@));
    }
    if bytes_eq(name, k13.as_slice()) {
        return Some(RssTag::Ttl);
    }
    let k14: [u8; 5] = [0x69, 0x6d, 0x61, 0x67, 0x65];
    proof {
        reveal_strlit("image");
        assert(k14@ =~= ascii("image"@));
    }
    if bytes_eq(name, k14.as_slice()) {
        return Some(RssTag::Image);
    }
    let k15: [u8; 6] = [0x72, 0x61, 0x74, 0x69, 0x6e, 0x67];
    proof {
        reveal_strlit("rating");
        assert(k15@ =~= ascii("rating"@));
    }
    if bytes_eq(name, k15.as_slice()) {
        return Some(RssTag::Rating);
    }
    let k16: [u8; 9] = [0x74, 0x65, 0x78, 0x74, 0x49, 0x6e, 0x70, 0x75, 0x74];
    proof {
        reveal_strlit("textInput");
        assert(k16@ =~= ascii("textInput"@));
    }
    if bytes_eq(name, k16.as_slice()) {
        return Some(RssTag::TextInput);
    }
    let k17: [u8; 9] = [0x73, 0x6b, 0x69, 0x70, 0x48, 0x6f, 0x75, 0x72, 0x73];
    proof {
        reveal_strlit("skipHours");
        assert(k17@ =~= ascii("skipHours"@));
    }
    if bytes_eq(name, k17.as_slice()) {
        return Some(RssTag::SkipHours);
    }
    let k18: [u8; 8] = [0x73, 0x6b, 0x69, 0x70, 0x44, 0x61, 0x79, 0x73];
    proof {
        reveal_strlit("skipDays");
        assert(k18@ =~= ascii("skipDays"@));
    }
    if bytes_eq(name, k18.as_slice()) {
        return Some(RssTag::SkipDays);
    }
    None
}

/// The item element a tag's name names, if any.
pub open spec fn item_tag(name: Seq<u8>) -> Option<RssTag> {
    if name == ascii("title"@) {
        Some(RssTag::Title)
    } else if name == ascii("link"@) {
        Some(RssTag::Link)
    } else if name == ascii("description"@) {
        Some(RssTag::Description)
    } else if name == ascii("author"@) {
        Some(RssTag::Author)
    } else if name == ascii("category"@) {
        Some(RssTag::Category)
    } else if name == ascii("comments"@) {
        Some(RssTag::Comments)
    } else if name == ascii("enclosure"@) {
        Some(RssTag::Enclosure)
    } else if name == ascii("guid"@) {
        Some(RssTag::Guid)
    } else if name == ascii("pubDate"@) {
        Some(RssTag::PubDate)
    } else if name == ascii("source"@) {
        Some(RssTag::Source)
    } else {
        None
    }
}

/// The item element a tag's name names, if any.
pub fn item_tag_of(name: &[u8]) -> (r: Option<RssTag>)
    ensures
        r == item_tag(name@),
{
    let k0: [u8; 5] = [0x74, 0x69, 0x74, 0x6c, 0x65];
    proof {
        reveal_strlit("title");
        assert(k0@ =~= ascii("title"@));
    }
    if bytes_eq(name, k0.as_slice()) {
        return Some(RssTag::Title);
    }
    let k1: [u8; 4] = [0x6c, 0x69, 0x6e, 0x6b];
    proof {
        reveal_strlit("link");
        assert(k1@ =~= ascii("link"@));
    }
    if bytes_eq(name, k1.as_slice()) {
        return Some(RssTag::Link);
    }
    let k2: [u8; 11] = [0x64, 0x65, 0x73, 0x63, 0x72, 0x69, 0x70, 0x74, 0x69, 0x6f, 0x6e];
    proof {
        reveal_strlit("description");
        assert(k2@ =~= ascii("description"@));
    }
    if bytes_eq(name, k2.as_slice()) {
        return Some(RssTag::Description);
    }
    let k3: [u8; 6] = [0x61, 0x75, 0x74, 0x68, 0x6f, 0x72];
    proof {
        reveal_strlit("author");
        assert(k3@ =~= ascii("author"@));
    }
    if bytes_eq(name, k3.as_slice()) {
        return Some(RssTag::Author);
    }
    let k4: [u8; 8] = [0x63, 0x61, 0x74, 0x65, 0x67, 0x6f, 0x72, 0x79];
    proof {
        reveal_strlit("category");
        assert(k4@ =~= ascii("category"@));
    }
    if bytes_eq(name, k4.as_slice()) {
        return Some(RssTag::Category);
    }
    let k5: [u8; 8] = [0x63, 0x6f, 0x6d, 0x6d, 0x65, 0x6e, 0x74, 0x73];
    proof {
        reveal_strlit("comments");
        assert(k5@ =~= ascii("comments"@));
    }
    if bytes_eq(name, k5.as_slice()) {
        return Some(RssTag::Comments);
    }
    let k6: [u8; 9] = [0x65, 0x6e, 0x63, 0x6c, 0x6f, 0x73, 0x75, 0x72, 0x65];
    proof {
        reveal_strlit("enclosure");
        assert(k6@ =~= ascii("enclosure"@));
    }
    if bytes_eq(name, k6.as_slice()) {
        return Some(RssTag::Enclosure);
    }
    let k7: [u8; 4] = [0x67, 0x75, 0x69, 0x64];
    proof {
        reveal_strlit("guid");
        assert(k7@ =~= ascii("guid"@));
    }
    if bytes_eq(name, k7.as_slice()) {
        return Some(RssTag::Guid);
    }
    let k8: [u8; 7] = [0x70, 0x75, 0x62, 0x44, 0x61, 0x74, 0x65];
    proof {
        reveal_strlit("pubDate");
        assert(k8@ =~= ascii("pubDate"@));
    }
    if bytes_eq(name, k8.as_slice()) {
        return Some(RssTag::PubDate);
    }
    let k9: [u8; 6] = [0x73, 0x6f, 0x75, 0x72, 0x63, 0x65];
    proof {
        reveal_strlit("source");
        assert(k9@ =~= ascii("source"@));
    }
    if bytes_eq(name, k9.as_slice()) {
        return Some(RssTag::Source);
    }
    None
}

/// The reader with `f` as its feed.
pub open spec fn with_feed(p: ParserView, f: FeedView) -> ParserView {
    ParserView { state: p.state, feed: Some(f), current: p.current }
}

/// The reader in state `s`.
pub open spec fn with_state(p: ParserView, s: XmlParseState) -> ParserView {
    ParserView { state: s, feed: p.feed, current: p.current }
}

/// The reader inside element `c` (or inside none).
pub open spec fn with_current(p: ParserView, c: Option<RssTag>) -> ParserView {
    ParserView { state: p.state, feed: p.feed, current: c }
}

/// Before the `rss` element: everything is skipped until it starts, and then
/// an empty feed is opened.
pub open spec fn handle_declaration(p: ParserView, t: TokenView) -> ParserView {
    match t {
        TokenView::StartTag(n) => if n == ascii("rss"@) {
            ParserView { state: XmlParseState::Feed, feed: Some(empty_feed()), current: p.current }
        } else {
            p
        },
        _ => p,
    }
}

/// Inside `rss`: `channel` opens an empty channel; `version` is kept as the
/// version; any other attribute is kept as a name and value pair.
pub open spec fn handle_feed(p: ParserView, t: TokenView) -> Option<ParserView> {
    match t {
        TokenView::StartTag(n) => if n == ascii("channel"@) {
            Some(
                ParserView {
                    state: XmlParseState::Channel,
                    feed: match p.feed {
                        Some(f) => Some(
                            FeedView {
                                version: f.version,
                                namespaces: f.namespaces,
                                channel: Some(Map::empty()),
                                items: f.items,
                            },
                        ),
                        None => None,
                    },
                    current: p.current,
                },
            )
        } else {
            Some(p)
        },
        TokenView::Attribute { name, value } => match p.feed {
            None => Some(p),
            Some(f) => if name == ascii("version"@) {
                match decode(value) {
                    None => None,
                    Some(v) => Some(
                        with_feed(
                            p,
                            FeedView {
                                version: Some(v),
                                namespaces: f.namespaces,
                                channel: f.channel,
                                items: f.items,
                            },
                        ),
                    ),
                }
            } else {
                match (decode(name), decode(value)) {
                    (Some(n), Some(v)) => Some(
                        with_feed(
                            p,
                            FeedView {
                                version: f.version,
                                namespaces: f.namespaces.push((n, v)),
                                channel: f.channel,
                                items: f.items,
                            },
                        ),
                    ),
                    _ => None,
                }
            },
        },
        _ => Some(p),
    }
}

/// Stores `v` as the text of the element the reader is in, in the channel.
pub open spec fn set_channel_text(p: ParserView, v: Seq<char>) -> ParserView {
    match (p.feed, p.current) {
        (Some(f), Some(tag)) => match f.channel {
            Some(c) => if is_channel_field(tag) {
                with_feed(
                    p,
                    FeedView {
                        version: f.version,
                        namespaces: f.namespaces,
                        channel: Some(c.insert(tag, v)),
                        items: f.items,
                    },
                )
            } else {
                p
            },
            None => p,
        },
        _ => p,
    }
}

/// Inside `channel`: `item` opens an empty item; the end of `channel` goes
/// back to the feed; a known element is entered; any end tag leaves the
/// element; text is stored for the element the reader is in.
pub open spec fn handle_channel(p: ParserView, t: TokenView) -> Option<ParserView> {
    match t {
        TokenView::StartTag(n) => if n == ascii("item"@) {
            Some(
                ParserView {
                    state: XmlParseState::Item,
                    feed: match p.feed {
                        Some(f) => Some(
                            FeedView {
                                version: f.version,
                                namespaces: f.namespaces,
                                channel: f.channel,
                                items: f.items.push(Map::empty()),
                            },
                        ),
                        None => None,
                    },
                    current: p.current,
                },
            )
        } else {
            match channel_tag(n) {
                Some(tag) => Some(with_current(p, Some(tag))),
                None => Some(p),
            }
        },
        TokenView::EndTag(n) => if n == ascii("channel"@) {
            Some(with_state(p, XmlParseState::Feed))
        } else {
            Some(with_current(p, None))
        },
        TokenView::Text(x) => match decode(x) {
            None => None,
            Some(v) => Some(set_channel_text(p, v)),
        },
        _ => Some(p),
    }
}

/// Stores `v` as the text of the element the reader is in, in the last item.
pub open spec fn set_item_text(p: ParserView, v: Seq<char>) -> ParserView {
    match (p.feed, p.current) {
        (Some(f), Some(tag)) => if f.items.len() > 0 && is_item_field(tag) {
            with_feed(
                p,
                FeedView {
                    version: f.version,
                    namespaces: f.namespaces,
                    channel: f.channel,
                    items: f.items.update(
                        f.items.len() - 1,
                        f.items[f.items.len() - 1].insert(tag, v),
                    ),
                },
            )
        } else {
            p
        },
        _ => p,
    }
}

/// Inside `item`: its end goes back to the channel; a known element is
/// entered and left; text and character data are stored for the element the
/// reader is in.
pub open spec fn handle_item(p: ParserView, t: TokenView) -> Option<ParserView> {
    match t {
        TokenView::EndTag(n) => if n == ascii("item"@) {
            Some(with_state(p, XmlParseState::Channel))
        } else {
            match item_tag(n) {
                Some(_) => Some(with_current(p, None)),
                None => Some(p),
            }
        },
        TokenView::StartTag(n) => match item_tag(n) {
            Some(tag) => Some(with_current(p, Some(tag))),
            None => Some(p),
        },
        TokenView::Text(x) => match decode(x) {
            None => None,
            Some(v) => Some(set_item_text(p, v)),
        },
        TokenView::CharacterData(x) => match decode(x) {
            None => None,
            Some(v) => Some(set_item_text(p, v)),
        },
        _ => Some(p),
    }
}

/// The reader after token `t`, or `None` when `t` carries bytes that are not
/// UTF-8 where text is read.
pub open spec fn handle(p: ParserView, t: TokenView) -> Option<ParserView> {
    match p.state {
        XmlParseState::Declaration => Some(handle_declaration(p, t)),
        XmlParseState::Feed => handle_feed(p, t),
        XmlParseState::Channel => handle_channel(p, t),
        XmlParseState::Item => handle_item(p, t),
    }
}

impl<'a> Feed<'a> {
    /// The channel, if one was read.
    pub fn channel(&self) -> (r: &Option<Channel<'a>>)
        ensures
            self@.channel == (match *r {
                Some(c) => Some(c@),
                None => None,
            }),
    {
        &self.channel
    }

    /// The items read.
    pub fn items(&self) -> (r: &Vec<Item<'a>>)
        ensures
            self@.items == items_view(r@),
    {
        &self.items
    }

    /// A feed with nothing read yet.
    pub fn new() -> (f: Self)
        ensures
            f@ == empty_feed(),
    {
        let f = Feed { version: None, namespaces: Vec::new(), channel: None, items: Vec::new() };
        proof {
            assert(f@.namespaces =~= Seq::<(Seq<char>, Seq<char>)>::empty());
            assert(f@.items =~= Seq::<Map<RssTag, Seq<char>>>::empty());
        }
        f
    }

    /// The channel's title, if there is a channel and it has one.
    pub fn get_channel_title(&self) -> (r: Option<&'a str>)
        ensures
            r.is_some() == (self@.channel matches Some(c) && c.contains_key(RssTag::Title)),
            r matches Some(s) ==> s@ == self@.channel->0[RssTag::Title],
    {
        match &self.channel {
            Some(c) => c.title(),
            None => None,
        }
    }

    /// The channel's link, if there is a channel and it has one.
    pub fn get_channel_link(&self) -> (r: Option<&'a str>)
        ensures
            r.is_some() == (self@.channel matches Some(c) && c.contains_key(RssTag::Link)),
            r matches Some(s) ==> s@ == self@.channel->0[RssTag::Link],
    {
        match &self.channel {
            Some(c) => c.link(),
            None => None,
        }
    }

    /// The titles of the items that have one, in order.
    pub fn get_item_titles(&self) -> (r: Vec<&'a str>)
        ensures
            r@.map_values(|s: &str| s@) == present(self@.items, RssTag::Title),
    {
        let mut out: Vec<&'a str> = Vec::new();
        let mut i: usize = 0;
        while i < self.items.len()
            invariant
                i <= self.items@.len(),
                out@.map_values(|s: &str| s@) == present(
                    items_view(self.items@).take(i as int),
                    RssTag::Title,
                ),
            decreases self.items@.len() - i,
        {
            proof {
                assert(items_view(self.items@).take(i + 1).drop_last() =~= items_view(
                    self.items@,
                ).take(i as int));
            }
            if let Some(t) = self.items[i].title() {
                out.push(t);
            }
            i += 1;
            proof {
                assert(out@.map_values(|s: &str| s@) =~= present(
                    items_view(self.items@).take(i as int),
                    RssTag::Title,
                ));
            }
        }
        proof {
            assert(items_view(self.items@).take(i as int) =~= items_view(self.items@));
        }
        out
    }

    /// The descriptions of the items that have one, in order.
    pub fn get_item_descriptions(&self) -> (r: Vec<&'a str>)
        ensures
            r@.map_values(|s: &str| s@) == present(self@.items, RssTag::Description),
    {
        let mut out: Vec<&'a str> = Vec::new();
        let mut i: usize = 0;
        while i < self.items.len()
            invariant
                i <= self.items@.len(),
                out@.map_values(|s: &str| s@) == present(
                    items_view(self.items@).take(i as int),
                    RssTag::Description,
                ),
            decreases self.items@.len() - i,
        {
            proof {
                assert(items_view(self.items@).take(i + 1).drop_last() =~= items_view(
                    self.items@,
                ).take(i as int));
            }
            if let Some(t) = self.items[i].description() {
                out.push(t);
            }
            i += 1;
            proof {
                assert(out@.map_values(|s: &str| s@) =~= present(
                    items_view(self.items@).take(i as int),
                    RssTag::Description,
                ));
            }
        }
        proof {
            assert(items_view(self.items@).take(i as int) =~= items_view(self.items@));
        }
        out
    }
}

/// The texts that the items hold for element `t`, in order, skipping the
/// items that hold none.
pub open spec fn present(items: Seq<Map<RssTag, Seq<char>>>, t: RssTag) -> Seq<Seq<char>>
    decreases items.len(),
{
    if items.len() == 0 {
        Seq::empty()
    } else {
        let rest = present(items.drop_last(), t);
        if items.last().contains_key(t) {
            rest.push(items.last()[t])
        } else {
            rest
        }
    }
}

impl<'a> RssParser<'a> {
    /// The feed read so far, if any.
    pub fn feed(&self) -> (r: &Option<Feed<'a>>)
        ensures
            self@.feed == (match *r {
                Some(f) => Some(f@),
                None => None,
            }),
    {
        &self.feed
    }

    /// A reader before the `rss` element, with no feed.
    pub fn new() -> (p: Self)
        ensures
            p@ == (ParserView { state: XmlParseState::Declaration, feed: None, current: None }),
    {
        RssParser { state: XmlParseState::Declaration, feed: None, current_tag: None }
    }

    /// Decodes `bytes` as UTF-8.
    fn parse_str(bytes: &'a [u8]) -> (r: Result<&'a str, Error>)
        ensures
            r is Ok <==> decode(bytes@) is Some,
            r matches Ok(s) ==> decode(bytes@) == Some(s@),
    {
        match decode_str(bytes) {
            Ok(s) => Ok(s),
            Err(e) => Err(Error::Utf8Parse(e)),
        }
    }

    /// Takes the next token into account. On an error nothing changes.
    pub fn handle_token(&mut self, token: XmlToken<'a>) -> (r: Result<(), Error>)
        ensures
            match handle(old(self)@, token@) {
                Some(v) => r is Ok && final(self)@ == v,
                None => r is Err && final(self)@ == old(self)@,
            },
    {
        match self.state {
            XmlParseState::Declaration => {
                self.handle_declaration(token);
                Ok(())
            },
            XmlParseState::Feed => self.handle_feed(token),
            XmlParseState::Channel => self.handle_channel(token),
            XmlParseState::Item => self.handle_item(token),
        }
    }

    fn handle_declaration(&mut self, token: XmlToken<'a>)
        requires
            old(self).state == XmlParseState::Declaration,
        ensures
            final(self)@ == handle_declaration(old(self)@, token@),
    {
        let rss: [u8; 3] = [0x72, 0x73, 0x73];
        proof {
            reveal_strlit("rss");
            assert(rss@ =~= ascii("rss"@));
        }
        if let XmlToken::StartTag(name) = token {
            if bytes_eq(name, rss.as_slice()) {
                self.state = XmlParseState::Feed;
                self.feed = Some(Feed::new());
            }
        }
    }

    fn handle_feed(&mut self, token: XmlToken<'a>) -> (r: Result<(), Error>)
        requires
            old(self).state == XmlParseState::Feed,
        ensures
            match handle_feed(old(self)@, token@) {
                Some(v) => r is Ok && final(self)@ == v,
                None => r is Err && final(self)@ == old(self)@,
            },
    {
        let channel: [u8; 7] = [0x63, 0x68, 0x61, 0x6e, 0x6e, 0x65, 0x6c];
        let version: [u8; 7] = [0x76, 0x65, 0x72, 0x73, 0x69, 0x6f, 0x6e];
        proof {
            reveal_strlit("channel");
            reveal_strlit("version");
            assert(channel@ =~= ascii("channel"@));
            assert(version@ =~= ascii("version"@));
        }
        match token {
            XmlToken::StartTag(name) => {
                if bytes_eq(name, channel.as_slice()) {
                    self.state = XmlParseState::Channel;
                    match &mut self.feed {
                        Some(feed) => {
                            feed.channel = Some(Channel::new());
                        },
                        None => {},
                    }
                }
                Ok(())
            },
            XmlToken::Attribute { name, value } => {
                match &mut self.feed {
                    Some(feed) => {
                        if bytes_eq(name, version.as_slice()) {
                            let v = Self::parse_str(value)?;
                            feed.version = Some(v);
                        } else {
                            let n = Self::parse_str(name)?;
                            let v = Self::parse_str(value)?;
                            feed.namespaces.push((n, v));
                            proof {
                                assert(pairs_view(feed.namespaces@) =~= pairs_view(
                                    old(self).feed->0.namespaces@,
                                ).push((n@, v@)));
                            }
                        }
                        Ok(())
                    },
                    None => Ok(()),
                }
            },
            _ => Ok(()),
        }
    }

    fn handle_channel(&mut self, token: XmlToken<'a>) -> (r: Result<(), Error>)
        requires
            old(self).state == XmlParseState::Channel,
        ensures
            match handle_channel(old(self)@, token@) {
                Some(v) => r is Ok && final(self)@ == v,
                None => r is Err && final(self)@ == old(self)@,
            },
    {
        let item: [u8; 4] = [0x69, 0x74, 0x65, 0x6d];
        let channel: [u8; 7] = [0x63, 0x68, 0x61, 0x6e, 0x6e, 0x65, 0x6c];
        proof {
            reveal_strlit("item");
            reveal_strlit("channel");
            assert(item@ =~= ascii("item"@));
            assert(channel@ =~= ascii("channel"@));
        }
        match token {
            XmlToken::StartTag(name) => {
                if bytes_eq(name, item.as_slice()) {
                    self.state = XmlParseState::Item;
                    match &mut self.feed {
                        Some(feed) => {
                            feed.items.push(Item::new());
                            proof {
                                assert(items_view(feed.items@) =~= items_view(
                                    old(self).feed->0.items@,
                                ).push(Map::empty()));
                            }
                        },
                        None => {},
                    }
                } else if let Some(tag) = channel_tag_of(name) {
                    self.current_tag = Some(tag);
                }
                Ok(())
            },
            XmlToken::EndTag(name) => {
                if bytes_eq(name, channel.as_slice()) {
                    self.state = XmlParseState::Feed;
                } else {
                    self.current_tag = None;
                }
                Ok(())
            },
            XmlToken::Text(text) => {
                let parsed_text = Self::parse_str(text)?;
                match &mut self.feed {
                    Some(feed) => match &mut feed.channel {
                        Some(channel) => match self.current_tag {
                            Some(tag) => channel.set(tag, parsed_text),
                            None => {},
                        },
                        None => {},
                    },
                    None => {},
                }
                Ok(())
            },
            _ => Ok(()),
        }
    }

    fn handle_item(&mut self, token: XmlToken<'a>) -> (r: Result<(), Error>)
        requires
            old(self).state == XmlParseState::Item,
        ensures
            match handle_item(old(self)@, token@) {
                Some(v) => r is Ok && final(self)@ == v,
                None => r is Err && final(self)@ == old(self)@,
            },
    {
        let item: [u8; 4] = [0x69, 0x74, 0x65, 0x6d];
        proof {
            reveal_strlit("item");
            assert(item@ =~= ascii("item"@));
        }
        match token {
            XmlToken::EndTag(name) => {
                if bytes_eq(name, item.as_slice()) {
                    self.state = XmlParseState::Channel;
                } else if item_tag_of(name).is_some() {
                    self.current_tag = None;
                }
                Ok(())
            },
            XmlToken::StartTag(name) => {
                if let Some(tag) = item_tag_of(name) {
                    self.current_tag = Some(tag);
                }
                Ok(())
            },
            XmlToken::Text(text) => {
                let parsed_text = Self::parse_str(text)?;
                self.set_item_text(parsed_text);
                Ok(())
            },
            XmlToken::CharacterData(text) => {
                let parsed_text = Self::parse_str(text)?;
                self.set_item_text(parsed_text);
                Ok(())
            },
            _ => Ok(()),
        }
    }

    fn set_item_text(&mut self, v: &'a str)
        ensures
            final(self)@ == set_item_text(old(self)@, v@),
    {
        match &mut self.feed {
            Some(feed) => match self.current_tag {
                Some(tag) => {
                    if feed.items.len() > 0 {
                        let ghost before = items_view(feed.items@);
                        let mut last = feed.items.pop().unwrap();
                        last.set(tag, v);
                        feed.items.push(last);
                        proof {
                            if is_item_field(tag) {
                                assert(items_view(feed.items@) =~= before.update(
                                    before.len() - 1,
                                    before[before.len() - 1].insert(tag, v@),
                                ));
                            } else {
                                assert(items_view(feed.items@) =~= before);
                            }
                        }
                    }
                },
                None => {},
            },
            None => {},
        }
    }
}


/// The text kept for element `t`, if any.
pub open spec fn field(m: Map<RssTag, Seq<char>>, t: RssTag) -> Option<Seq<char>> {
    if m.contains_key(t) {
        Some(m[t])
    } else {
        None
    }
}

/// A channel as text: its name, then one line for each element whose text was
/// read.
pub open spec fn channel_rendering(m: Map<RssTag, Seq<char>>) -> Seq<char> {
    "Channel\n"@
        + line("Title: "@, field(m, RssTag::Title))
        + line("Link: "@, field(m, RssTag::Link))
        + line("Description: "@, field(m, RssTag::Description))
        + line("Language: "@, field(m, RssTag::Language))
        + line("Copyright: "@, field(m, RssTag::Copyright))
        + line("Managing editor: "@, field(m, RssTag::ManagingEditor))
        + line("Web master: "@, field(m, RssTag::WebMaster))
        + line("Pub date: "@, field(m, RssTag::PubDate))
        + line("Last build date: "@, field(m, RssTag::LastBuildDate))
        + line("Category: "@, field(m, RssTag::Category))
        + line("Generator: "@, field(m, RssTag::Generator))
        + line("Docs: "@, field(m, RssTag::Docs))
        + line("Cloud: "@, field(m, RssTag::Cloud))
        + line("Ttl: "@, field(m, RssTag::Ttl))
        + line("Image: "@, field(m, RssTag::Image))
        + line("Rating: "@, field(m, RssTag::Rating))
        + line("Text input: "@, field(m, RssTag::TextInput))
        + line("Skip hours: "@, field(m, RssTag::SkipHours))
        + line("Skip days: "@, field(m, RssTag::SkipDays))
}

/// An item as text: its name, then one line for each element whose text was
/// read.
pub open spec fn item_rendering(m: Map<RssTag, Seq<char>>) -> Seq<char> {
    "Item\n"@
        + line("Title: "@, field(m, RssTag::Title))
        + line("Link: "@, field(m, RssTag::Link))
        + line("Description: "@, field(m, RssTag::Description))
        + line("Author: "@, field(m, RssTag::Author))
        + line("Category: "@, field(m, RssTag::Category))
        + line("Comments: "@, field(m, RssTag::Comments))
        + line("Enclosure: "@, field(m, RssTag::Enclosure))
        + line("Guid: "@, field(m, RssTag::Guid))
        + line("Pub date: "@, field(m, RssTag::PubDate))
        + line("Source: "@, field(m, RssTag::Source))
}

impl<'a> Channel<'a> {
    proof fn lemma_field(c: &Self, t: RssTag)
        requires
            is_channel_field(t),
        ensures
            field(c@, t) == text(c.slot(t)),
    {
    }
}

impl<'a> Item<'a> {
    proof fn lemma_field(i: &Self, t: RssTag)
        requires
            is_item_field(t),
        ensures
            field(i@, t) == text(i.slot(t)),
    {
    }
}

impl<'a> Channel<'a> {
    /// The channel as text: its name, then one line for each element whose
    /// text was read.
    pub fn to_string(&self) -> (s: String)
        ensures
            s@ == channel_rendering(self@),
    {
        let mut s = String::from_str("Channel\n");
        proof {
            Self::lemma_field(self, RssTag::Title);
        }
        push_line(&mut s, "Title: ", self.title);
        proof {
            Self::lemma_field(self, RssTag::Link);
        }
        push_line(&mut s, "Link: ", self.link);
        proof {
            Self::lemma_field(self, RssTag::Description);
        }
        push_line(&mut s, "Description: ", self.description);
        proof {
            Self::lemma_field(self, RssTag::Language);
        }
        push_line(&mut s, "Language: ", self.language);
        proof {
            Self::lemma_field(self, RssTag::Copyright);
        }
        push_line(&mut s, "Copyright: ", self.copyright);
        proof {
            Self::lemma_field(self, RssTag::ManagingEditor);
        }
        push_line(&mut s, "Managing editor: ", self.managing_editor);
        proof {
            Self::lemma_field(self, RssTag::WebMaster);
        }
        push_line(&mut s, "Web master: ", self.web_master);
        proof {
            Self::lemma_field(self, RssTag::PubDate);
        }
        push_line(&mut s, "Pub date: ", self.pub_date);
        proof {
            Self::lemma_field(self, RssTag::LastBuildDate);
        }
        push_line(&mut s, "Last build date: ", self.last_build_date);
        proof {
            Self::lemma_field(self, RssTag::Category);
        }
        push_line(&mut s, "Category: ", self.category);
        proof {
            Self::lemma_field(self, RssTag::Generator);
        }
        push_line(&mut s, "Generator: ", self.generator);
        proof {
            Self::lemma_field(self, RssTag::Docs);
        }
        push_line(&mut s, "Docs: ", self.docs);
        proof {
            Self::lemma_field(self, RssTag::Cloud);
        }
        push_line(&mut s, "Cloud: ", self.cloud);
        proof {
            Self::lemma_field(self, RssTag::Ttl);
        }
        push_line(&mut s, "Ttl: ", self.ttl);
        proof {
            Self::lemma_field(self, RssTag::Image);
        }
        push_line(&mut s, "Image: ", self.image);
        proof {
            Self::lemma_field(self, RssTag::Rating);
        }
        push_line(&mut s, "Rating: ", self.rating);
        proof {
            Self::lemma_field(self, RssTag::TextInput);
        }
        push_line(&mut s, "Text input: ", self.text_input);
        proof {
            Self::lemma_field(self, RssTag::SkipHours);
        }
        push_line(&mut s, "Skip hours: ", self.skip_hours);
        proof {
            Self::lemma_field(self, RssTag::SkipDays);
        }
        push_line(&mut s, "Skip days: ", self.skip_days);
        s
    }
}

impl<'a> Item<'a> {
    /// The item as text: its name, then one line for each element whose
    /// text was read.
    pub fn to_string(&self) -> (s: String)
        ensures
            s@ == item_rendering(self@),
    {
        let mut s = String::from_str("Item\n");
        proof {
            Self::lemma_field(self, RssTag::Title);
        }
        push_line(&mut s, "Title: ", self.title);
        proof {
            Self::lemma_field(self, RssTag::Link);
        }
        push_line(&mut s, "Link: ", self.link);
        proof {
            Self::lemma_field(self, RssTag::Description);
        }
        push_line(&mut s, "Description: ", self.description);
        proof {
            Self::lemma_field(self, RssTag::Author);
        }
        push_line(&mut s, "Author: ", self.author);
        proof {
            Self::lemma_field(self, RssTag::Category);
        }
        push_line(&mut s, "Category: ", self.category);
        proof {
            Self::lemma_field(self, RssTag::Comments);
        }
        push_line(&mut s, "Comments: ", self.comments);
        proof {
            Self::lemma_field(self, RssTag::Enclosure);
        }
        push_line(&mut s, "Enclosure: ", self.enclosure);
        proof {
            Self::lemma_field(self, RssTag::Guid);
        }
        push_line(&mut s, "Guid: ", self.guid);
        proof {
            Self::lemma_field(self, RssTag::PubDate);
        }
        push_line(&mut s, "Pub date: ", self.pub_date);
        proof {
            Self::lemma_field(self, RssTag::Source);
        }
        push_line(&mut s, "Source: ", self.source);
        s
    }
}

impl Error {
    /// The decoder's message for the text that is not UTF-8 (not stated here).
    pub fn to_string(&self) -> (s: String) {
        match self {
            Error::Utf8Parse(e) => utf8_error_string(e),
        }
    }
}

impl<'a> Default for RssParser<'a> {
    /// The reader of `new`.
    fn default() -> (p: Self)
        ensures
            p@ == (ParserView { state: XmlParseState::Declaration, feed: None, current: None }),
    {
        RssParser::new()
    }
}

/// Why a feed document could not be read: the tokenizer reported an error,
/// or the reader did.
#[derive(Debug)]
pub enum ReadError {
    Xml(crate::xml::errors::Error),
    Feed(Error),
}

/// What reading a whole document gives: the tokenizer has no rule for the
/// input, the reader's state at the end of the input, the first error of the
/// tokenizer, or an error of the reader.
pub enum Reading {
    NoRule,
    Read(ParserView),
    XmlError(crate::xml::errors::Error),
    FeedError,
}

/// The reader with nothing read yet.
pub open spec fn start_view() -> ParserView {
    ParserView { state: XmlParseState::Declaration, feed: None, current: None }
}

/// What reading the tokens of `s` from position `p` in tokenizer state `st`
/// gives, the reader standing at `v`: each token is handed to the reader in
/// turn (`handle`) until the input is used up or an error comes.
pub open spec fn read_document(
    s: Seq<u8>,
    p: int,
    st: crate::xml::tokens::XmlState,
    v: ParserView,
) -> Reading
    decreases s.len() - p,
{
    if crate::xml::tokens::step_halts(s, p, st) {
        Reading::NoRule
    } else {
        let (p2, st2, item) = crate::xml::tokens::step(s, p, st);
        match item {
            None => Reading::Read(v),
            Some(Err(e)) => Reading::XmlError(e),
            Some(Ok(t)) => match handle(v, t) {
                None => Reading::FeedError,
                Some(v2) => if p < p2 <= s.len() {
                    read_document(s, p2, st2, v2)
                } else {
                    Reading::NoRule
                },
            },
        }
    }
}

/// Reads the document `bytes`: tokenizes it and hands every token to a new
/// reader, as `read_document` says; `None` where the tokenizer has no rule
/// for the input.
pub fn read_feed<'a>(bytes: &'a [u8]) -> (r: Option<Result<RssParser<'a>, ReadError>>)
    ensures
        match read_document(bytes@, 0, crate::xml::tokens::XmlState::Normal, start_view()) {
            Reading::NoRule => r is None,
            Reading::Read(v) => r matches Some(Ok(p)) && p@ == v,
            Reading::XmlError(e) => r matches Some(Err(ReadError::Xml(e2))) && e2 == e,
            Reading::FeedError => r matches Some(Err(ReadError::Feed(_))),
        },
{
    let mut tokenizer = crate::xml::tokens::XmlTokenizer::from(bytes);
    proof {
        crate::xml::tokens::XmlTokenizer::lemma_fresh(bytes);
    }
    let mut parser = RssParser::new();
    let ghost whole = read_document(bytes@, 0, crate::xml::tokens::XmlState::Normal, start_view());
    loop
        invariant
            tokenizer.wf(),
            tokenizer.input() == bytes@,
            read_document(bytes@, tokenizer.at(), tokenizer.current_state(), parser@) == whole,
            whole == read_document(bytes@, 0, crate::xml::tokens::XmlState::Normal, start_view()),
        decreases bytes@.len() - tokenizer.at(),
    {
        proof {
            tokenizer.lemma_wf();
        }
        if tokenizer.halts_next() {
            return None;
        }
        let ghost p0 = tokenizer.at();
        let ghost st0 = tokenizer.current_state();
        let ghost v0 = parser@;
        let item = tokenizer.next();
        proof {
            crate::xml::tokens::law_step_moves_forward(bytes@, p0, st0);
            tokenizer.lemma_wf();
        }
        match item {
            None => {
                return Some(Ok(parser));
            },
            Some(Err(e)) => {
                return Some(Err(ReadError::Xml(e)));
            },
            Some(Ok(token)) => {
                match parser.handle_token(token) {
                    Ok(()) => {},
                    Err(e) => {
                        return Some(Err(ReadError::Feed(e)));
                    },
                }
            },
        }
    }
}

/// Whether the reader in `p`, handed token `t`, would read as text bytes
/// that are not UTF-8: the text of an element of the channel; the text or
/// character data of an element of an item; the value of an attribute of
/// `rss`, or its name where it is not `version`.
pub open spec fn reads_bad_text(p: ParserView, t: TokenView) -> bool {
    match p.state {
        XmlParseState::Declaration => false,
        XmlParseState::Feed => p.feed is Some && (t matches TokenView::Attribute { name, value } && (
        decode(value) is None || (name != ascii("version"@) && decode(name) is None))),
        XmlParseState::Channel => t matches TokenView::Text(x) && decode(x) is None,
        XmlParseState::Item => (t matches TokenView::Text(x) && decode(x) is None) || (t matches TokenView::CharacterData(
            y,
        ) && decode(y) is None),
    }
}

/// `handle_token` fails exactly where the token carries, where the reader
/// reads it as text, bytes that are not UTF-8; on failure the reader is left
/// as it was (see `handle_token`).
pub proof fn law_fails_exactly_on_bad_text(p: ParserView, t: TokenView)
    ensures
        handle(p, t) is None <==> reads_bad_text(p, t),
{
}

/// Before the `rss` element, a start tag named `rss` opens an empty feed and
/// moves on to the feed; every other token leaves the reader as it is.
pub proof fn law_declaration_waits_for_rss(p: ParserView, t: TokenView)
    requires
        p.state == XmlParseState::Declaration,
    ensures
        handle(p, t) == Some(
            if t == TokenView::StartTag(ascii("rss"@)) {
                ParserView { state: XmlParseState::Feed, feed: Some(empty_feed()), current: p.current }
            } else {
                p
            },
        ),
{
}

/// The reader after the tokens `ts` in turn, or `None` where one fails.
pub open spec fn handle_all(p: ParserView, ts: Seq<TokenView>) -> Option<ParserView>
    decreases ts.len(),
{
    if ts.len() == 0 {
        Some(p)
    } else {
        match handle(p, ts[0]) {
            Some(q) => handle_all(q, ts.drop_first()),
            None => None,
        }
    }
}

/// A new reader handed any tokens but the start tag of `rss` stays as new:
/// no feed, in state `Declaration`.
pub proof fn law_tokens_before_rss_change_nothing(ts: Seq<TokenView>)
    requires
        forall|i: int| 0 <= i < ts.len() ==> #[trigger] ts[i] != TokenView::StartTag(ascii("rss"@)),
    ensures
        handle_all(start_view(), ts) == Some(start_view()),
    decreases ts.len(),
{
    if ts.len() > 0 {
        law_declaration_waits_for_rss(start_view(), ts[0]);
        assert forall|i: int| 0 <= i < ts.drop_first().len() implies #[trigger] ts.drop_first()[i]
            != TokenView::StartTag(ascii("rss"@)) by {
            assert(ts.drop_first()[i] == ts[i + 1]);
        }
        law_tokens_before_rss_change_nothing(ts.drop_first());
    }
}

/// Each channel element's name stands for that element, and no other name
/// does; a name not listed stands for none.
pub proof fn law_channel_tag_names(n: Seq<u8>)
    ensures
        (channel_tag(n) == Some(RssTag::Title)) == (n == seq![0x74u8, 0x69u8, 0x74u8, 0x6cu8, 0x65u8]),
        (channel_tag(n) == Some(RssTag::Link)) == (n == seq![0x6cu8, 0x69u8, 0x6eu8, 0x6bu8]),
        (channel_tag(n) == Some(RssTag::Description)) == (n == seq![0x64u8, 0x65u8, 0x73u8, 0x63u8, 0x72u8, 0x69u8, 0x70u8, 0x74u8, 0x69u8, 0x6fu8, 0x6eu8]),
        (channel_tag(n) == Some(RssTag::Language)) == (n == seq![0x6cu8, 0x61u8, 0x6eu8, 0x67u8, 0x75u8, 0x61u8, 0x67u8, 0x65u8]),
        (channel_tag(n) == Some(RssTag::Copyright)) == (n == seq![0x63u8, 0x6fu8, 0x70u8, 0x79u8, 0x72u8, 0x69u8, 0x67u8, 0x68u8, 0x74u8]),
        (channel_tag(n) == Some(RssTag::ManagingEditor)) == (n == seq![0x6du8, 0x61u8, 0x6eu8, 0x61u8, 0x67u8, 0x69u8, 0x6eu8, 0x67u8, 0x45u8, 0x64u8, 0x69u8, 0x74u8, 0x6fu8, 0x72u8]),
        (channel_tag(n) == Some(RssTag::WebMaster)) == (n == seq![0x77u8, 0x65u8, 0x62u8, 0x4du8, 0x61u8, 0x73u8, 0x74u8, 0x65u8, 0x72u8]),
        (channel_tag(n) == Some(RssTag::PubDate)) == (n == seq![0x70u8, 0x75u8, 0x62u8, 0x44u8, 0x61u8, 0x74u8, 0x65u8]),
        (channel_tag(n) == Some(RssTag::LastBuildDate)) == (n == seq![0x6cu8, 0x61u8, 0x73u8, 0x74u8, 0x42u8, 0x75u8, 0x69u8, 0x6cu8, 0x64u8, 0x44u8, 0x61u8, 0x74u8, 0x65u8]),
        (channel_tag(n) == Some(RssTag::Category)) == (n == seq![0x63u8, 0x61u8, 0x74u8, 0x65u8, 0x67u8, 0x6fu8, 0x72u8, 0x79u8]),
        (channel_tag(n) == Some(RssTag::Generator)) == (n == seq![0x67u8, 0x65u8, 0x6eu8, 0x65u8, 0x72u8, 0x61u8, 0x74u8, 0x6fu8, 0x72u8]),
        (channel_tag(n) == Some(RssTag::Docs)) == (n == seq![0x64u8, 0x6fu8, 0x63u8, 0x73u8]),
        (channel_tag(n) == Some(RssTag::Cloud)) == (n == seq![0x63u8, 0x6cu8, 0x6fu8, 0x75u8, 0x64u8]),
        (channel_tag(n) == Some(RssTag::Ttl)) == (n == seq![0x74u8, 0x74u8, 0x6cu8]),
        (channel_tag(n) == Some(RssTag::Image)) == (n == seq![0x69u8, 0x6du8, 0x61u8, 0x67u8, 0x65u8]),
        (channel_tag(n) == Some(RssTag::Rating)) == (n == seq![0x72u8, 0x61u8, 0x74u8, 0x69u8, 0x6eu8, 0x67u8]),
        (channel_tag(n) == Some(RssTag::TextInput)) == (n == seq![0x74u8, 0x65u8, 0x78u8, 0x74u8, 0x49u8, 0x6eu8, 0x70u8, 0x75u8, 0x74u8]),
        (channel_tag(n) == Some(RssTag::SkipHours)) == (n == seq![0x73u8, 0x6bu8, 0x69u8, 0x70u8, 0x48u8, 0x6fu8, 0x75u8, 0x72u8, 0x73u8]),
        (channel_tag(n) == Some(RssTag::SkipDays)) == (n == seq![0x73u8, 0x6bu8, 0x69u8, 0x70u8, 0x44u8, 0x61u8, 0x79u8, 0x73u8]),
        channel_tag(n) is None == (n != seq![0x74u8, 0x69u8, 0x74u8, 0x6cu8, 0x65u8] && n != seq![0x6cu8, 0x69u8, 0x6eu8, 0x6bu8] && n != seq![0x64u8, 0x65u8, 0x73u8, 0x63u8, 0x72u8, 0x69u8, 0x70u8, 0x74u8, 0x69u8, 0x6fu8, 0x6eu8] && n != seq![0x6cu8, 0x61u8, 0x6eu8, 0x67u8, 0x75u8, 0x61u8, 0x67u8, 0x65u8] && n != seq![0x63u8, 0x6fu8, 0x70u8, 0x79u8, 0x72u8, 0x69u8, 0x67u8, 0x68u8, 0x74u8] && n != seq![0x6du8, 0x61u8, 0x6eu8, 0x61u8, 0x67u8, 0x69u8, 0x6eu8, 0x67u8, 0x45u8, 0x64u8, 0x69u8, 0x74u8, 0x6fu8, 0x72u8] && n != seq![0x77u8, 0x65u8, 0x62u8, 0x4du8, 0x61u8, 0x73u8, 0x74u8, 0x65u8, 0x72u8] && n != seq![0x70u8, 0x75u8, 0x62u8, 0x44u8, 0x61u8, 0x74u8, 0x65u8] && n != seq![0x6cu8, 0x61u8, 0x73u8, 0x74u8, 0x42u8, 0x75u8, 0x69u8, 0x6cu8, 0x64u8, 0x44u8, 0x61u8, 0x74u8, 0x65u8] && n != seq![0x63u8, 0x61u8, 0x74u8, 0x65u8, 0x67u8, 0x6fu8, 0x72u8, 0x79u8] && n != seq![0x67u8, 0x65u8, 0x6eu8, 0x65u8, 0x72u8, 0x61u8, 0x74u8, 0x6fu8, 0x72u8] && n != seq![0x64u8, 0x6fu8, 0x63u8, 0x73u8] && n != seq![0x63u8, 0x6cu8, 0x6fu8, 0x75u8, 0x64u8] && n != seq![0x74u8, 0x74u8, 0x6cu8] && n != seq![0x69u8, 0x6du8, 0x61u8, 0x67u8, 0x65u8] && n != seq![0x72u8, 0x61u8, 0x74u8, 0x69u8, 0x6eu8, 0x67u8] && n != seq![0x74u8, 0x65u8, 0x78u8, 0x74u8, 0x49u8, 0x6eu8, 0x70u8, 0x75u8, 0x74u8] && n != seq![0x73u8, 0x6bu8, 0x69u8, 0x70u8, 0x48u8, 0x6fu8, 0x75u8, 0x72u8, 0x73u8] && n != seq![0x73u8, 0x6bu8, 0x69u8, 0x70u8, 0x44u8, 0x61u8, 0x79u8, 0x73u8]),
{
    reveal_strlit("title");
    assert(ascii("title"@) =~= seq![0x74u8, 0x69u8, 0x74u8, 0x6cu8, 0x65u8]);
    reveal_strlit("link");
    assert(ascii("link"@) =~= seq![0x6cu8, 0x69u8, 0x6eu8, 0x6bu8]);
    reveal_strlit("description");
    assert(ascii("description"@) =~= seq![0x64u8, 0x65u8, 0x73u8, 0x63u8, 0x72u8, 0x69u8, 0x70u8, 0x74u8, 0x69u8, 0x6fu8, 0x6eu8]);
    reveal_strlit("language");
    assert(ascii("language"@) =~= seq![0x6cu8, 0x61u8, 0x6eu8, 0x67u8, 0x75u8, 0x61u8, 0x67u8, 0x65u8]);
    reveal_strlit("copyright");
    assert(ascii("copyright"@) =~= seq![0x63u8, 0x6fu8, 0x70u8, 0x79u8, 0x72u8, 0x69u8, 0x67u8, 0x68u8, 0x74u8]);
    reveal_strlit("managingEditor");
    assert(ascii("managingEditor"@) =~= seq![0x6du8, 0x61u8, 0x6eu8, 0x61u8, 0x67u8, 0x69u8, 0x6eu8, 0x67u8, 0x45u8, 0x64u8, 0x69u8, 0x74u8, 0x6fu8, 0x72u8]);
    reveal_strlit("webMaster");
    assert(ascii("webMaster"@) =~= seq![0x77u8, 0x65u8, 0x62u8, 0x4du8, 0x61u8, 0x73u8, 0x74u8, 0x65u8, 0x72u8]);
    reveal_strlit("pubDate");
    assert(ascii("pubDate"@) =~= seq![0x70u8, 0x75u8, 0x62u8, 0x44u8, 0x61u8, 0x74u8, 0x65u8]);
    reveal_strlit("lastBuildDate");
    assert(ascii("lastBuildDate"@) =~= seq![0x6cu8, 0x61u8, 0x73u8, 0x74u8, 0x42u8, 0x75u8, 0x69u8, 0x6cu8, 0x64u8, 0x44u8, 0x61u8, 0x74u8, 0x65u8]);
    reveal_strlit("category");
    assert(ascii("category"@) =~= seq![0x63u8, 0x61u8, 0x74u8, 0x65u8, 0x67u8, 0x6fu8, 0x72u8, 0x79u8]);
    reveal_strlit("generator");
    assert(ascii("generator"@) =~= seq![0x67u8, 0x65u8, 0x6eu8, 0x65u8, 0x72u8, 0x61u8, 0x74u8, 0x6fu8, 0x72u8]);
    reveal_strlit("docs");
    assert(ascii("docs"@) =~= seq![0x64u8, 0x6fu8, 0x63u8, 0x73u8]);
    reveal_strlit("cloud");
    assert(ascii("cloud"@) =~= seq![0x63u8, 0x6cu8, 0x6fu8, 0x75u8, 0x64u8]);
    reveal_strlit("ttl");
    assert(ascii("ttl"@) =~= seq![0x74u8, 0x74u8, 0x6cu8]);
    reveal_strlit("image");
    assert(ascii("image"@) =~= seq![0x69u8, 0x6du8, 0x61u8, 0x67u8, 0x65u8]);
    reveal_strlit("rating");
    assert(ascii("rating"@) =~= seq![0x72u8, 0x61u8, 0x74u8, 0x69u8, 0x6eu8, 0x67u8]);
    reveal_strlit("textInput");
    assert(ascii("textInput"@) =~= seq![0x74u8, 0x65u8, 0x78u8, 0x74u8, 0x49u8, 0x6eu8, 0x70u8, 0x75u8, 0x74u8]);
    reveal_strlit("skipHours");
    assert(ascii("skipHours"@) =~= seq![0x73u8, 0x6bu8, 0x69u8, 0x70u8, 0x48u8, 0x6fu8, 0x75u8, 0x72u8, 0x73u8]);
    reveal_strlit("skipDays");
    assert(ascii("skipDays"@) =~= seq![0x73u8, 0x6bu8, 0x69u8, 0x70u8, 0x44u8, 0x61u8, 0x79u8, 0x73u8]);
}

/// Each item element's name stands for that element, and no other name
/// does; a name not listed stands for none.
pub proof fn law_item_tag_names(n: Seq<u8>)
    ensures
        (item_tag(n) == Some(RssTag::Title)) == (n == seq![0x74u8, 0x69u8, 0x74u8, 0x6cu8, 0x65u8]),
        (item_tag(n) == Some(RssTag::Link)) == (n == seq![0x6cu8, 0x69u8, 0x6eu8, 0x6bu8]),
        (item_tag(n) == Some(RssTag::Description)) == (n == seq![0x64u8, 0x65u8, 0x73u8, 0x63u8, 0x72u8, 0x69u8, 0x70u8, 0x74u8, 0x69u8, 0x6fu8, 0x6eu8]),
        (item_tag(n) == Some(RssTag::Author)) == (n == seq![0x61u8, 0x75u8, 0x74u8, 0x68u8, 0x6fu8, 0x72u8]),
        (item_tag(n) == Some(RssTag::Category)) == (n == seq![0x63u8, 0x61u8, 0x74u8, 0x65u8, 0x67u8, 0x6fu8, 0x72u8, 0x79u8]),
        (item_tag(n) == Some(RssTag::Comments)) == (n == seq![0x63u8, 0x6fu8, 0x6du8, 0x6du8, 0x65u8, 0x6eu8, 0x74u8, 0x73u8]),
        (item_tag(n) == Some(RssTag::Enclosure)) == (n == seq![0x65u8, 0x6eu8, 0x63u8, 0x6cu8, 0x6fu8, 0x73u8, 0x75u8, 0x72u8, 0x65u8]),
        (item_tag(n) == Some(RssTag::Guid)) == (n == seq![0x67u8, 0x75u8, 0x69u8, 0x64u8]),
        (item_tag(n) == Some(RssTag::PubDate)) == (n == seq![0x70u8, 0x75u8, 0x62u8, 0x44u8, 0x61u8, 0x74u8, 0x65u8]),
        (item_tag(n) == Some(RssTag::Source)) == (n == seq![0x73u8, 0x6fu8, 0x75u8, 0x72u8, 0x63u8, 0x65u8]),
        item_tag(n) is None == (n != seq![0x74u8, 0x69u8, 0x74u8, 0x6cu8, 0x65u8] && n != seq![0x6cu8, 0x69u8, 0x6eu8, 0x6bu8] && n != seq![0x64u8, 0x65u8, 0x73u8, 0x63u8, 0x72u8, 0x69u8, 0x70u8, 0x74u8, 0x69u8, 0x6fu8, 0x6eu8] && n != seq![0x61u8, 0x75u8, 0x74u8, 0x68u8, 0x6fu8, 0x72u8] && n != seq![0x63u8, 0x61u8, 0x74u8, 0x65u8, 0x67u8, 0x6fu8, 0x72u8, 0x79u8] && n != seq![0x63u8, 0x6fu8, 0x6du8, 0x6du8, 0x65u8, 0x6eu8, 0x74u8, 0x73u8] && n != seq![0x65u8, 0x6eu8, 0x63u8, 0x6cu8, 0x6fu8, 0x73u8, 0x75u8, 0x72u8, 0x65u8] && n != seq![0x67u8, 0x75u8, 0x69u8, 0x64u8] && n != seq![0x70u8, 0x75u8, 0x62u8, 0x44u8, 0x61u8, 0x74u8, 0x65u8] && n != seq![0x73u8, 0x6fu8, 0x75u8, 0x72u8, 0x63u8, 0x65u8]),
{
    reveal_strlit("title");
    assert(ascii("title"@) =~= seq![0x74u8, 0x69u8, 0x74u8, 0x6cu8, 0x65u8]);
    reveal_strlit("link");
    assert(ascii("link"@) =~= seq![0x6cu8, 0x69u8, 0x6eu8, 0x6bu8]);
    reveal_strlit("description");
    assert(ascii("description"@) =~= seq![0x64u8, 0x65u8, 0x73u8, 0x63u8, 0x72u8, 0x69u8, 0x70u8, 0x74u8, 0x69u8, 0x6fu8, 0x6eu8]);
    reveal_strlit("author");
    assert(ascii("author"@) =~= seq![0x61u8, 0x75u8, 0x74u8, 0x68u8, 0x6fu8, 0x72u8]);
    reveal_strlit("category");
    assert(ascii("category"@) =~= seq![0x63u8, 0x61u8, 0x74u8, 0x65u8, 0x67u8, 0x6fu8, 0x72u8, 0x79u8]);
    reveal_strlit("comments");
    assert(ascii("comments"@) =~= seq![0x63u8, 0x6fu8, 0x6du8, 0x6du8, 0x65u8, 0x6eu8, 0x74u8, 0x73u8]);
    reveal_strlit("enclosure");
    assert(ascii("enclosure"@) =~= seq![0x65u8, 0x6eu8, 0x63u8, 0x6cu8, 0x6fu8, 0x73u8, 0x75u8, 0x72u8, 0x65u8]);
    reveal_strlit("guid");
    assert(ascii("guid"@) =~= seq![0x67u8, 0x75u8, 0x69u8, 0x64u8]);
    reveal_strlit("pubDate");
    assert(ascii("pubDate"@) =~= seq![0x70u8, 0x75u8, 0x62u8, 0x44u8, 0x61u8, 0x74u8, 0x65u8]);
    reveal_strlit("source");
    assert(ascii("source"@) =~= seq![0x73u8, 0x6fu8, 0x75u8, 0x72u8, 0x63u8, 0x65u8]);
}

proof fn lemma_channel_rendering_title(t: Seq<char>)
    ensures
        channel_rendering(Map::<RssTag, Seq<char>>::empty().insert(RssTag::Title, t)) == "Channel\n"@ + "Title: "@ + t + "\n"@,
{
    reveal(crate::formats::feeds::rss::line);
    let m = Map::<RssTag, Seq<char>>::empty().insert(RssTag::Title, t);
    assert(!m.contains_key(RssTag::Link));
    assert(!m.contains_key(RssTag::Description));
    assert(!m.contains_key(RssTag::Language));
    assert(!m.contains_key(RssTag::Copyright));
    assert(!m.contains_key(RssTag::ManagingEditor));
    assert(!m.contains_key(RssTag::WebMaster));
    assert(!m.contains_key(RssTag::PubDate));
    assert(!m.contains_key(RssTag::LastBuildDate));
    assert(!m.contains_key(RssTag::Category));
    assert(!m.contains_key(RssTag::Generator));
    assert(!m.contains_key(RssTag::Docs));
    assert(!m.contains_key(RssTag::Cloud));
    assert(!m.contains_key(RssTag::Ttl));
    assert(!m.contains_key(RssTag::Image));
    assert(!m.contains_key(RssTag::Rating));
    assert(!m.contains_key(RssTag::TextInput));
    assert(!m.contains_key(RssTag::SkipHours));
    assert(!m.contains_key(RssTag::SkipDays));
    assert(channel_rendering(m) =~= "Channel\n"@ + "Title: "@ + t + "\n"@);
}

proof fn lemma_channel_rendering_link(t: Seq<char>)
    ensures
        channel_rendering(Map::<RssTag, Seq<char>>::empty().insert(RssTag::Link, t)) == "Channel\n"@ + "Link: "@ + t + "\n"@,
{
    reveal(crate::formats::feeds::rss::line);
    let m = Map::<RssTag, Seq<char>>::empty().insert(RssTag::Link, t);
    assert(!m.contains_key(RssTag::Title));
    assert(!m.contains_key(RssTag::Description));
    assert(!m.contains_key(RssTag::Language));
    assert(!m.contains_key(RssTag::Copyright));
    assert(!m.contains_key(RssTag::ManagingEditor));
    assert(!m.contains_key(RssTag::WebMaster));
    assert(!m.contains_key(RssTag::PubDate));
    assert(!m.contains_key(RssTag::LastBuildDate));
    assert(!m.contains_key(RssTag::Category));
    assert(!m.contains_key(RssTag::Generator));
    assert(!m.contains_key(RssTag::Docs));
    assert(!m.contains_key(RssTag::Cloud));
    assert(!m.contains_key(RssTag::Ttl));
    assert(!m.contains_key(RssTag::Image));
    assert(!m.contains_key(RssTag::Rating));
    assert(!m.contains_key(RssTag::TextInput));
    assert(!m.contains_key(RssTag::SkipHours));
    assert(!m.contains_key(RssTag::SkipDays));
    assert(channel_rendering(m) =~= "Channel\n"@ + "Link: "@ + t + "\n"@);
}

proof fn lemma_channel_rendering_description(t: Seq<char>)
    ensures
        channel_rendering(Map::<RssTag, Seq<char>>::empty().insert(RssTag::Description, t)) == "Channel\n"@ + "Description: "@ + t + "\n"@,
{
    reveal(crate::formats::feeds::rss::line);
    let m = Map::<RssTag, Seq<char>>::empty().insert(RssTag::Description, t);
    assert(!m.contains_key(RssTag::Title));
    assert(!m.contains_key(RssTag::Link));
    assert(!m.contains_key(RssTag::Language));
    assert(!m.contains_key(RssTag::Copyright));
    assert(!m.contains_key(RssTag::ManagingEditor));
    assert(!m.contains_key(RssTag::WebMaster));
    assert(!m.contains_key(RssTag::PubDate));
    assert(!m.contains_key(RssTag::LastBuildDate));
    assert(!m.contains_key(RssTag::Category));
    assert(!m.contains_key(RssTag::Generator));
    assert(!m.contains_key(RssTag::Docs));
    assert(!m.contains_key(RssTag::Cloud));
    assert(!m.contains_key(RssTag::Ttl));
    assert(!m.contains_key(RssTag::Image));
    assert(!m.contains_key(RssTag::Rating));
    assert(!m.contains_key(RssTag::TextInput));
    assert(!m.contains_key(RssTag::SkipHours));
    assert(!m.contains_key(RssTag::SkipDays));
    assert(channel_rendering(m) =~= "Channel\n"@ + "Description: "@ + t + "\n"@);
}

proof fn lemma_channel_rendering_language(t: Seq<char>)
    ensures
        channel_rendering(Map::<RssTag, Seq<char>>::empty().insert(RssTag::Language, t)) == "Channel\n"@ + "Language: "@ + t + "\n"@,
{
    reveal(crate::formats::feeds::rss::line);
    let m = Map::<RssTag, Seq<char>>::empty().insert(RssTag::Language, t);
    assert(!m.contains_key(RssTag::Title));
    assert(!m.contains_key(RssTag::Link));
    assert(!m.contains_key(RssTag::Description));
    assert(!m.contains_key(RssTag::Copyright));
    assert(!m.contains_key(RssTag::ManagingEditor));
    assert(!m.contains_key(RssTag::WebMaster));
    assert(!m.contains_key(RssTag::PubDate));
    assert(!m.contains_key(RssTag::LastBuildDate));
    assert(!m.contains_key(RssTag::Category));
    assert(!m.contains_key(RssTag::Generator));
    assert(!m.contains_key(RssTag::Docs));
    assert(!m.contains_key(RssTag::Cloud));
    assert(!m.contains_key(RssTag::Ttl));
    assert(!m.contains_key(RssTag::Image));
    assert(!m.contains_key(RssTag::Rating));
    assert(!m.contains_key(RssTag::TextInput));
    assert(!m.contains_key(RssTag::SkipHours));
    assert(!m.contains_key(RssTag::SkipDays));
    assert(channel_rendering(m) =~= "Channel\n"@ + "Language: "@ + t + "\n"@);
}

proof fn lemma_channel_rendering_copyright(t: Seq<char>)
    ensures
        channel_rendering(Map::<RssTag, Seq<char>>::empty().insert(RssTag::Copyright, t)) == "Channel\n"@ + "Copyright: "@ + t + "\n"@,
{
    reveal(crate::formats::feeds::rss::line);
    let m = Map::<RssTag, Seq<char>>::empty().insert(RssTag::Copyright, t);
    assert(!m.contains_key(RssTag::Title));
    assert(!m.contains_key(RssTag::Link));
    assert(!m.contains_key(RssTag::Description));
    assert(!m.contains_key(RssTag::Language));
    assert(!m.contains_key(RssTag::ManagingEditor));
    assert(!m.contains_key(RssTag::WebMaster));
    assert(!m.contains_key(RssTag::PubDate));
    assert(!m.contains_key(RssTag::LastBuildDate));
    assert(!m.contains_key(RssTag::Category));
    assert(!m.contains_key(RssTag::Generator));
    assert(!m.contains_key(RssTag::Docs));
    assert(!m.contains_key(RssTag::Cloud));
    assert(!m.contains_key(RssTag::Ttl));
    assert(!m.contains_key(RssTag::Image));
    assert(!m.contains_key(RssTag::Rating));
    assert(!m.contains_key(RssTag::TextInput));
    assert(!m.contains_key(RssTag::SkipHours));
    assert(!m.contains_key(RssTag::SkipDays));
    assert(channel_rendering(m) =~= "Channel\n"@ + "Copyright: "@ + t + "\n"@);
}

proof fn lemma_channel_rendering_managingeditor(t: Seq<char>)
    ensures
        channel_rendering(Map::<RssTag, Seq<char>>::empty().insert(RssTag::ManagingEditor, t)) == "Channel\n"@ + "Managing editor: "@ + t + "\n"@,
{
    reveal(crate::formats::feeds::rss::line);
    let m = Map::<RssTag, Seq<char>>::empty().insert(RssTag::ManagingEditor, t);
    assert(!m.contains_key(RssTag::Title));
    assert(!m.contains_key(RssTag::Link));
    assert(!m.contains_key(RssTag::Description));
    assert(!m.contains_key(RssTag::Language));
    assert(!m.contains_key(RssTag::Copyright));
    assert(!m.contains_key(RssTag::WebMaster));
    assert(!m.contains_key(RssTag::PubDate));
    assert(!m.contains_key(RssTag::LastBuildDate));
    assert(!m.contains_key(RssTag::Category));
    assert(!m.contains_key(RssTag::Generator));
    assert(!m.contains_key(RssTag::Docs));
    assert(!m.contains_key(RssTag::Cloud));
    assert(!m.contains_key(RssTag::Ttl));
    assert(!m.contains_key(RssTag::Image));
    assert(!m.contains_key(RssTag::Rating));
    assert(!m.contains_key(RssTag::TextInput));
    assert(!m.contains_key(RssTag::SkipHours));
    assert(!m.contains_key(RssTag::SkipDays));
    assert(channel_rendering(m) =~= "Channel\n"@ + "Managing editor: "@ + t + "\n"@);
}

proof fn lemma_channel_rendering_webmaster(t: Seq<char>)
    ensures
        channel_rendering(Map::<RssTag, Seq<char>>::empty().insert(RssTag::WebMaster, t)) == "Channel\n"@ + "Web master: "@ + t + "\n"@,
{
    reveal(crate::formats::feeds::rss::line);
    let m = Map::<RssTag, Seq<char>>::empty().insert(RssTag::WebMaster, t);
    assert(!m.contains_key(RssTag::Title));
    assert(!m.contains_key(RssTag::Link));
    assert(!m.contains_key(RssTag::Description));
    assert(!m.contains_key(RssTag::Language));
    assert(!m.contains_key(RssTag::Copyright));
    assert(!m.contains_key(RssTag::ManagingEditor));
    assert(!m.contains_key(RssTag::PubDate));
    assert(!m.contains_key(RssTag::LastBuildDate));
    assert(!m.contains_key(RssTag::Category));
    assert(!m.contains_key(RssTag::Generator));
    assert(!m.contains_key(RssTag::Docs));
    assert(!m.contains_key(RssTag::Cloud));
    assert(!m.contains_key(RssTag::Ttl));
    assert(!m.contains_key(RssTag::Image));
    assert(!m.contains_key(RssTag::Rating));
    assert(!m.contains_key(RssTag::TextInput));
    assert(!m.contains_key(RssTag::SkipHours));
    assert(!m.contains_key(RssTag::SkipDays));
    assert(channel_rendering(m) =~= "Channel\n"@ + "Web master: "@ + t + "\n"@);
}

proof fn lemma_channel_rendering_pubdate(t: Seq<char>)
    ensures
        channel_rendering(Map::<RssTag, Seq<char>>::empty().insert(RssTag::PubDate, t)) == "Channel\n"@ + "Pub date: "@ + t + "\n"@,
{
    reveal(crate::formats::feeds::rss::line);
    let m = Map::<RssTag, Seq<char>>::empty().insert(RssTag::PubDate, t);
    assert(!m.contains_key(RssTag::Title));
    assert(!m.contains_key(RssTag::Link));
    assert(!m.contains_key(RssTag::Description));
    assert(!m.contains_key(RssTag::Language));
    assert(!m.contains_key(RssTag::Copyright));
    assert(!m.contains_key(RssTag::ManagingEditor));
    assert(!m.contains_key(RssTag::WebMaster));
    assert(!m.contains_key(RssTag::LastBuildDate));
    assert(!m.contains_key(RssTag::Category));
    assert(!m.contains_key(RssTag::Generator));
    assert(!m.contains_key(RssTag::Docs));
    assert(!m.contains_key(RssTag::Cloud));
    assert(!m.contains_key(RssTag::Ttl));
    assert(!m.contains_key(RssTag::Image));
    assert(!m.contains_key(RssTag::Rating));
    assert(!m.contains_key(RssTag::TextInput));
    assert(!m.contains_key(RssTag::SkipHours));
    assert(!m.contains_key(RssTag::SkipDays));
    assert(channel_rendering(m) =~= "Channel\n"@ + "Pub date: "@ + t + "\n"@);
}

proof fn lemma_channel_rendering_lastbuilddate(t: Seq<char>)
    ensures
        channel_rendering(Map::<RssTag, Seq<char>>::empty().insert(RssTag::LastBuildDate, t)) == "Channel\n"@ + "Last build date: "@ + t + "\n"@,
{
    reveal(crate::formats::feeds::rss::line);
    let m = Map::<RssTag, Seq<char>>::empty().insert(RssTag::LastBuildDate, t);
    assert(!m.contains_key(RssTag::Title));
    assert(!m.contains_key(RssTag::Link));
    assert(!m.contains_key(RssTag::Description));
    assert(!m.contains_key(RssTag::Language));
    assert(!m.contains_key(RssTag::Copyright));
    assert(!m.contains_key(RssTag::ManagingEditor));
    assert(!m.contains_key(RssTag::WebMaster));
    assert(!m.contains_key(RssTag::PubDate));
    assert(!m.contains_key(RssTag::Category));
    assert(!m.contains_key(RssTag::Generator));
    assert(!m.contains_key(RssTag::Docs));
    assert(!m.contains_key(RssTag::Cloud));
    assert(!m.contains_key(RssTag::Ttl));
    assert(!m.contains_key(RssTag::Image));
    assert(!m.contains_key(RssTag::Rating));
    assert(!m.contains_key(RssTag::TextInput));
    assert(!m.contains_key(RssTag::SkipHours));
    assert(!m.contains_key(RssTag::SkipDays));
    assert(channel_rendering(m) =~= "Channel\n"@ + "Last build date: "@ + t + "\n"@);
}

proof fn lemma_channel_rendering_category(t: Seq<char>)
    ensures
        channel_rendering(Map::<RssTag, Seq<char>>::empty().insert(RssTag::Category, t)) == "Channel\n"@ + "Category: "@ + t + "\n"@,
{
    reveal(crate::formats::feeds::rss::line);
    let m = Map::<RssTag, Seq<char>>::empty().insert(RssTag::Category, t);
    assert(!m.contains_key(RssTag::Title));
    assert(!m.contains_key(RssTag::Link));
    assert(!m.contains_key(RssTag::Description));
    assert(!m.contains_key(RssTag::Language));
    assert(!m.contains_key(RssTag::Copyright));
    assert(!m.contains_key(RssTag::ManagingEditor));
    assert(!m.contains_key(RssTag::WebMaster));
    assert(!m.contains_key(RssTag::PubDate));
    assert(!m.contains_key(RssTag::LastBuildDate));
    assert(!m.contains_key(RssTag::Generator));
    assert(!m.contains_key(RssTag::Docs));
    assert(!m.contains_key(RssTag::Cloud));
    assert(!m.contains_key(RssTag::Ttl));
    assert(!m.contains_key(RssTag::Image));
    assert(!m.contains_key(RssTag::Rating));
    assert(!m.contains_key(RssTag::TextInput));
    assert(!m.contains_key(RssTag::SkipHours));
    assert(!m.contains_key(RssTag::SkipDays));
    assert(channel_rendering(m) =~= "Channel\n"@ + "Category: "@ + t + "\n"@);
}

proof fn lemma_channel_rendering_generator(t: Seq<char>)
    ensures
        channel_rendering(Map::<RssTag, Seq<char>>::empty().insert(RssTag::Generator, t)) == "Channel\n"@ + "Generator: "@ + t + "\n"@,
{
    reveal(crate::formats::feeds::rss::line);
    let m = Map::<RssTag, Seq<char>>::empty().insert(RssTag::Generator, t);
    assert(!m.contains_key(RssTag::Title));
    assert(!m.contains_key(RssTag::Link));
    assert(!m.contains_key(RssTag::Description));
    assert(!m.contains_key(RssTag::Language));
    assert(!m.contains_key(RssTag::Copyright));
    assert(!m.contains_key(RssTag::ManagingEditor));
    assert(!m.contains_key(RssTag::WebMaster));
    assert(!m.contains_key(RssTag::PubDate));
    assert(!m.contains_key(RssTag::LastBuildDate));
    assert(!m.contains_key(RssTag::Category));
    assert(!m.contains_key(RssTag::Docs));
    assert(!m.contains_key(RssTag::Cloud));
    assert(!m.contains_key(RssTag::Ttl));
    assert(!m.contains_key(RssTag::Image));
    assert(!m.contains_key(RssTag::Rating));
    assert(!m.contains_key(RssTag::TextInput));
    assert(!m.contains_key(RssTag::SkipHours));
    assert(!m.contains_key(RssTag::SkipDays));
    assert(channel_rendering(m) =~= "Channel\n"@ + "Generator: "@ + t + "\n"@);
}

proof fn lemma_channel_rendering_docs(t: Seq<char>)
    ensures
        channel_rendering(Map::<RssTag, Seq<char>>::empty().insert(RssTag::Docs, t)) == "Channel\n"@ + "Docs: "@ + t + "\n"@,
{
    reveal(crate::formats::feeds::rss::line);
    let m = Map::<RssTag, Seq<char>>::empty().insert(RssTag::Docs, t);
    assert(!m.contains_key(RssTag::Title));
    assert(!m.contains_key(RssTag::Link));
    assert(!m.contains_key(RssTag::Description));
    assert(!m.contains_key(RssTag::Language));
    assert(!m.contains_key(RssTag::Copyright));
    assert(!m.contains_key(RssTag::ManagingEditor));
    assert(!m.contains_key(RssTag::WebMaster));
    assert(!m.contains_key(RssTag::PubDate));
    assert(!m.contains_key(RssTag::LastBuildDate));
    assert(!m.contains_key(RssTag::Category));
    assert(!m.contains_key(RssTag::Generator));
    assert(!m.contains_key(RssTag::Cloud));
    assert(!m.contains_key(RssTag::Ttl));
    assert(!m.contains_key(RssTag::Image));
    assert(!m.contains_key(RssTag::Rating));
    assert(!m.contains_key(RssTag::TextInput));
    assert(!m.contains_key(RssTag::SkipHours));
    assert(!m.contains_key(RssTag::SkipDays));
    assert(channel_rendering(m) =~= "Channel\n"@ + "Docs: "@ + t + "\n"@);
}

proof fn lemma_channel_rendering_cloud(t: Seq<char>)
    ensures
        channel_rendering(Map::<RssTag, Seq<char>>::empty().insert(RssTag::Cloud, t)) == "Channel\n"@ + "Cloud: "@ + t + "\n"@,
{
    reveal(crate::formats::feeds::rss::line);
    let m = Map::<RssTag, Seq<char>>::empty().insert(RssTag::Cloud, t);
    assert(!m.contains_key(RssTag::Title));
    assert(!m.contains_key(RssTag::Link));
    assert(!m.contains_key(RssTag::Description));
    assert(!m.contains_key(RssTag::Language));
    assert(!m.contains_key(RssTag::Copyright));
    assert(!m.contains_key(RssTag::ManagingEditor));
    assert(!m.contains_key(RssTag::WebMaster));
    assert(!m.contains_key(RssTag::PubDate));
    assert(!m.contains_key(RssTag::LastBuildDate));
    assert(!m.contains_key(RssTag::Category));
    assert(!m.contains_key(RssTag::Generator));
    assert(!m.contains_key(RssTag::Docs));
    assert(!m.contains_key(RssTag::Ttl));
    assert(!m.contains_key(RssTag::Image));
    assert(!m.contains_key(RssTag::Rating));
    assert(!m.contains_key(RssTag::TextInput));
    assert(!m.contains_key(RssTag::SkipHours));
    assert(!m.contains_key(RssTag::SkipDays));
    assert(channel_rendering(m) =~= "Channel\n"@ + "Cloud: "@ + t + "\n"@);
}

proof fn lemma_channel_rendering_ttl(t: Seq<char>)
    ensures
        channel_rendering(Map::<RssTag, Seq<char>>::empty().insert(RssTag::Ttl, t)) == "Channel\n"@ + "Ttl: "@ + t + "\n"@,
{
    reveal(crate::formats::feeds::rss::line);
    let m = Map::<RssTag, Seq<char>>::empty().insert(RssTag::Ttl, t);
    assert(!m.contains_key(RssTag::Title));
    assert(!m.contains_key(RssTag::Link));
    assert(!m.contains_key(RssTag::Description));
    assert(!m.contains_key(RssTag::Language));
    assert(!m.contains_key(RssTag::Copyright));
    assert(!m.contains_key(RssTag::ManagingEditor));
    assert(!m.contains_key(RssTag::WebMaster));
    assert(!m.contains_key(RssTag::PubDate));
    assert(!m.contains_key(RssTag::LastBuildDate));
    assert(!m.contains_key(RssTag::Category));
    assert(!m.contains_key(RssTag::Generator));
    assert(!m.contains_key(RssTag::Docs));
    assert(!m.contains_key(RssTag::Cloud));
    assert(!m.contains_key(RssTag::Image));
    assert(!m.contains_key(RssTag::Rating));
    assert(!m.contains_key(RssTag::TextInput));
    assert(!m.contains_key(RssTag::SkipHours));
    assert(!m.contains_key(RssTag::SkipDays));
    assert(channel_rendering(m) =~= "Channel\n"@ + "Ttl: "@ + t + "\n"@);
}

proof fn lemma_channel_rendering_image(t: Seq<char>)
    ensures
        channel_rendering(Map::<RssTag, Seq<char>>::empty().insert(RssTag::Image, t)) == "Channel\n"@ + "Image: "@ + t + "\n"@,
{
    reveal(crate::formats::feeds::rss::line);
    let m = Map::<RssTag, Seq<char>>::empty().insert(RssTag::Image, t);
    assert(!m.contains_key(RssTag::Title));
    assert(!m.contains_key(RssTag::Link));
    assert(!m.contains_key(RssTag::Description));
    assert(!m.contains_key(RssTag::Language));
    assert(!m.contains_key(RssTag::Copyright));
    assert(!m.contains_key(RssTag::ManagingEditor));
    assert(!m.contains_key(RssTag::WebMaster));
    assert(!m.contains_key(RssTag::PubDate));
    assert(!m.contains_key(RssTag::LastBuildDate));
    assert(!m.contains_key(RssTag::Category));
    assert(!m.contains_key(RssTag::Generator));
    assert(!m.contains_key(RssTag::Docs));
    assert(!m.contains_key(RssTag::Cloud));
    assert(!m.contains_key(RssTag::Ttl));
    assert(!m.contains_key(RssTag::Rating));
    assert(!m.contains_key(RssTag::TextInput));
    assert(!m.contains_key(RssTag::SkipHours));
    assert(!m.contains_key(RssTag::SkipDays));
    assert(channel_rendering(m) =~= "Channel\n"@ + "Image: "@ + t + "\n"@);
}

proof fn lemma_channel_rendering_rating(t: Seq<char>)
    ensures
        channel_rendering(Map::<RssTag, Seq<char>>::empty().insert(RssTag::Rating, t)) == "Channel\n"@ + "Rating: "@ + t + "\n"@,
{
    reveal(crate::formats::feeds::rss::line);
    let m = Map::<RssTag, Seq<char>>::empty().insert(RssTag::Rating, t);
    assert(!m.contains_key(RssTag::Title));
    assert(!m.contains_key(RssTag::Link));
    assert(!m.contains_key(RssTag::Description));
    assert(!m.contains_key(RssTag::Language));
    assert(!m.contains_key(RssTag::Copyright));
    assert(!m.contains_key(RssTag::ManagingEditor));
    assert(!m.contains_key(RssTag::WebMaster));
    assert(!m.contains_key(RssTag::PubDate));
    assert(!m.contains_key(RssTag::LastBuildDate));
    assert(!m.contains_key(RssTag::Category));
    assert(!m.contains_key(RssTag::Generator));
    assert(!m.contains_key(RssTag::Docs));
    assert(!m.contains_key(RssTag::Cloud));
    assert(!m.contains_key(RssTag::Ttl));
    assert(!m.contains_key(RssTag::Image));
    assert(!m.contains_key(RssTag::TextInput));
    assert(!m.contains_key(RssTag::SkipHours));
    assert(!m.contains_key(RssTag::SkipDays));
    assert(channel_rendering(m) =~= "Channel\n"@ + "Rating: "@ + t + "\n"@);
}

proof fn lemma_channel_rendering_textinput(t: Seq<char>)
    ensures
        channel_rendering(Map::<RssTag, Seq<char>>::empty().insert(RssTag::TextInput, t)) == "Channel\n"@ + "Text input: "@ + t + "\n"@,
{
    reveal(crate::formats::feeds::rss::line);
    let m = Map::<RssTag, Seq<char>>::empty().insert(RssTag::TextInput, t);
    assert(!m.contains_key(RssTag::Title));
    assert(!m.contains_key(RssTag::Link));
    assert(!m.contains_key(RssTag::Description));
    assert(!m.contains_key(RssTag::Language));
    assert(!m.contains_key(RssTag::Copyright));
    assert(!m.contains_key(RssTag::ManagingEditor));
    assert(!m.contains_key(RssTag::WebMaster));
    assert(!m.contains_key(RssTag::PubDate));
    assert(!m.contains_key(RssTag::LastBuildDate));
    assert(!m.contains_key(RssTag::Category));
    assert(!m.contains_key(RssTag::Generator));
    assert(!m.contains_key(RssTag::Docs));
    assert(!m.contains_key(RssTag::Cloud));
    assert(!m.contains_key(RssTag::Ttl));
    assert(!m.contains_key(RssTag::Image));
    assert(!m.contains_key(RssTag::Rating));
    assert(!m.contains_key(RssTag::SkipHours));
    assert(!m.contains_key(RssTag::SkipDays));
    assert(channel_rendering(m) =~= "Channel\n"@ + "Text input: "@ + t + "\n"@);
}

proof fn lemma_channel_rendering_skiphours(t: Seq<char>)
    ensures
        channel_rendering(Map::<RssTag, Seq<char>>::empty().insert(RssTag::SkipHours, t)) == "Channel\n"@ + "Skip hours: "@ + t + "\n"@,
{
    reveal(crate::formats::feeds::rss::line);
    let m = Map::<RssTag, Seq<char>>::empty().insert(RssTag::SkipHours, t);
    assert(!m.contains_key(RssTag::Title));
    assert(!m.contains_key(RssTag::Link));
    assert(!m.contains_key(RssTag::Description));
    assert(!m.contains_key(RssTag::Language));
    assert(!m.contains_key(RssTag::Copyright));
    assert(!m.contains_key(RssTag::ManagingEditor));
    assert(!m.contains_key(RssTag::WebMaster));
    assert(!m.contains_key(RssTag::PubDate));
    assert(!m.contains_key(RssTag::LastBuildDate));
    assert(!m.contains_key(RssTag::Category));
    assert(!m.contains_key(RssTag::Generator));
    assert(!m.contains_key(RssTag::Docs));
    assert(!m.contains_key(RssTag::Cloud));
    assert(!m.contains_key(RssTag::Ttl));
    assert(!m.contains_key(RssTag::Image));
    assert(!m.contains_key(RssTag::Rating));
    assert(!m.contains_key(RssTag::TextInput));
    assert(!m.contains_key(RssTag::SkipDays));
    assert(channel_rendering(m) =~= "Channel\n"@ + "Skip hours: "@ + t + "\n"@);
}

proof fn lemma_channel_rendering_skipdays(t: Seq<char>)
    ensures
        channel_rendering(Map::<RssTag, Seq<char>>::empty().insert(RssTag::SkipDays, t)) == "Channel\n"@ + "Skip days: "@ + t + "\n"@,
{
    reveal(crate::formats::feeds::rss::line);
    let m = Map::<RssTag, Seq<char>>::empty().insert(RssTag::SkipDays, t);
    assert(!m.contains_key(RssTag::Title));
    assert(!m.contains_key(RssTag::Link));
    assert(!m.contains_key(RssTag::Description));
    assert(!m.contains_key(RssTag::Language));
    assert(!m.contains_key(RssTag::Copyright));
    assert(!m.contains_key(RssTag::ManagingEditor));
    assert(!m.contains_key(RssTag::WebMaster));
    assert(!m.contains_key(RssTag::PubDate));
    assert(!m.contains_key(RssTag::LastBuildDate));
    assert(!m.contains_key(RssTag::Category));
    assert(!m.contains_key(RssTag::Generator));
    assert(!m.contains_key(RssTag::Docs));
    assert(!m.contains_key(RssTag::Cloud));
    assert(!m.contains_key(RssTag::Ttl));
    assert(!m.contains_key(RssTag::Image));
    assert(!m.contains_key(RssTag::Rating));
    assert(!m.contains_key(RssTag::TextInput));
    assert(!m.contains_key(RssTag::SkipHours));
    assert(channel_rendering(m) =~= "Channel\n"@ + "Skip days: "@ + t + "\n"@);
}

proof fn lemma_item_rendering_title(t: Seq<char>)
    ensures
        item_rendering(Map::<RssTag, Seq<char>>::empty().insert(RssTag::Title, t)) == "Item\n"@ + "Title: "@ + t + "\n"@,
{
    reveal(crate::formats::feeds::rss::line);
    let m = Map::<RssTag, Seq<char>>::empty().insert(RssTag::Title, t);
    assert(!m.contains_key(RssTag::Link));
    assert(!m.contains_key(RssTag::Description));
    assert(!m.contains_key(RssTag::Author));
    assert(!m.contains_key(RssTag::Category));
    assert(!m.contains_key(RssTag::Comments));
    assert(!m.contains_key(RssTag::Enclosure));
    assert(!m.contains_key(RssTag::Guid));
    assert(!m.contains_key(RssTag::PubDate));
    assert(!m.contains_key(RssTag::Source));
    assert(item_rendering(m) =~= "Item\n"@ + "Title: "@ + t + "\n"@);
}

proof fn lemma_item_rendering_link(t: Seq<char>)
    ensures
        item_rendering(Map::<RssTag, Seq<char>>::empty().insert(RssTag::Link, t)) == "Item\n"@ + "Link: "@ + t + "\n"@,
{
    reveal(crate::formats::feeds::rss::line);
    let m = Map::<RssTag, Seq<char>>::empty().insert(RssTag::Link, t);
    assert(!m.contains_key(RssTag::Title));
    assert(!m.contains_key(RssTag::Description));
    assert(!m.contains_key(RssTag::Author));
    assert(!m.contains_key(RssTag::Category));
    assert(!m.contains_key(RssTag::Comments));
    assert(!m.contains_key(RssTag::Enclosure));
    assert(!m.contains_key(RssTag::Guid));
    assert(!m.contains_key(RssTag::PubDate));
    assert(!m.contains_key(RssTag::Source));
    assert(item_rendering(m) =~= "Item\n"@ + "Link: "@ + t + "\n"@);
}

proof fn lemma_item_rendering_description(t: Seq<char>)
    ensures
        item_rendering(Map::<RssTag, Seq<char>>::empty().insert(RssTag::Description, t)) == "Item\n"@ + "Description: "@ + t + "\n"@,
{
    reveal(crate::formats::feeds::rss::line);
    let m = Map::<RssTag, Seq<char>>::empty().insert(RssTag::Description, t);
    assert(!m.contains_key(RssTag::Title));
    assert(!m.contains_key(RssTag::Link));
    assert(!m.contains_key(RssTag::Author));
    assert(!m.contains_key(RssTag::Category));
    assert(!m.contains_key(RssTag::Comments));
    assert(!m.contains_key(RssTag::Enclosure));
    assert(!m.contains_key(RssTag::Guid));
    assert(!m.contains_key(RssTag::PubDate));
    assert(!m.contains_key(RssTag::Source));
    assert(item_rendering(m) =~= "Item\n"@ + "Description: "@ + t + "\n"@);
}

proof fn lemma_item_rendering_author(t: Seq<char>)
    ensures
        item_rendering(Map::<RssTag, Seq<char>>::empty().insert(RssTag::Author, t)) == "Item\n"@ + "Author: "@ + t + "\n"@,
{
    reveal(crate::formats::feeds::rss::line);
    let m = Map::<RssTag, Seq<char>>::empty().insert(RssTag::Author, t);
    assert(!m.contains_key(RssTag::Title));
    assert(!m.contains_key(RssTag::Link));
    assert(!m.contains_key(RssTag::Description));
    assert(!m.contains_key(RssTag::Category));
    assert(!m.contains_key(RssTag::Comments));
    assert(!m.contains_key(RssTag::Enclosure));
    assert(!m.contains_key(RssTag::Guid));
    assert(!m.contains_key(RssTag::PubDate));
    assert(!m.contains_key(RssTag::Source));
    assert(item_rendering(m) =~= "Item\n"@ + "Author: "@ + t + "\n"@);
}

proof fn lemma_item_rendering_category(t: Seq<char>)
    ensures
        item_rendering(Map::<RssTag, Seq<char>>::empty().insert(RssTag::Category, t)) == "Item\n"@ + "Category: "@ + t + "\n"@,
{
    reveal(crate::formats::feeds::rss::line);
    let m = Map::<RssTag, Seq<char>>::empty().insert(RssTag::Category, t);
    assert(!m.contains_key(RssTag::Title));
    assert(!m.contains_key(RssTag::Link));
    assert(!m.contains_key(RssTag::Description));
    assert(!m.contains_key(RssTag::Author));
    assert(!m.contains_key(RssTag::Comments));
    assert(!m.contains_key(RssTag::Enclosure));
    assert(!m.contains_key(RssTag::Guid));
    assert(!m.contains_key(RssTag::PubDate));
    assert(!m.contains_key(RssTag::Source));
    assert(item_rendering(m) =~= "Item\n"@ + "Category: "@ + t + "\n"@);
}

proof fn lemma_item_rendering_comments(t: Seq<char>)
    ensures
        item_rendering(Map::<RssTag, Seq<char>>::empty().insert(RssTag::Comments, t)) == "Item\n"@ + "Comments: "@ + t + "\n"@,
{
    reveal(crate::formats::feeds::rss::line);
    let m = Map::<RssTag, Seq<char>>::empty().insert(RssTag::Comments, t);
    assert(!m.contains_key(RssTag::Title));
    assert(!m.contains_key(RssTag::Link));
    assert(!m.contains_key(RssTag::Description));
    assert(!m.contains_key(RssTag::Author));
    assert(!m.contains_key(RssTag::Category));
    assert(!m.contains_key(RssTag::Enclosure));
    assert(!m.contains_key(RssTag::Guid));
    assert(!m.contains_key(RssTag::PubDate));
    assert(!m.contains_key(RssTag::Source));
    assert(item_rendering(m) =~= "Item\n"@ + "Comments: "@ + t + "\n"@);
}

proof fn lemma_item_rendering_enclosure(t: Seq<char>)
    ensures
        item_rendering(Map::<RssTag, Seq<char>>::empty().insert(RssTag::Enclosure, t)) == "Item\n"@ + "Enclosure: "@ + t + "\n"@,
{
    reveal(crate::formats::feeds::rss::line);
    let m = Map::<RssTag, Seq<char>>::empty().insert(RssTag::Enclosure, t);
    assert(!m.contains_key(RssTag::Title));
    assert(!m.contains_key(RssTag::Link));
    assert(!m.contains_key(RssTag::Description));
    assert(!m.contains_key(RssTag::Author));
    assert(!m.contains_key(RssTag::Category));
    assert(!m.contains_key(RssTag::Comments));
    assert(!m.contains_key(RssTag::Guid));
    assert(!m.contains_key(RssTag::PubDate));
    assert(!m.contains_key(RssTag::Source));
    assert(item_rendering(m) =~= "Item\n"@ + "Enclosure: "@ + t + "\n"@);
}

proof fn lemma_item_rendering_guid(t: Seq<char>)
    ensures
        item_rendering(Map::<RssTag, Seq<char>>::empty().insert(RssTag::Guid, t)) == "Item\n"@ + "Guid: "@ + t + "\n"@,
{
    reveal(crate::formats::feeds::rss::line);
    let m = Map::<RssTag, Seq<char>>::empty().insert(RssTag::Guid, t);
    assert(!m.contains_key(RssTag::Title));
    assert(!m.contains_key(RssTag::Link));
    assert(!m.contains_key(RssTag::Description));
    assert(!m.contains_key(RssTag::Author));
    assert(!m.contains_key(RssTag::Category));
    assert(!m.contains_key(RssTag::Comments));
    assert(!m.contains_key(RssTag::Enclosure));
    assert(!m.contains_key(RssTag::PubDate));
    assert(!m.contains_key(RssTag::Source));
    assert(item_rendering(m) =~= "Item\n"@ + "Guid: "@ + t + "\n"@);
}

proof fn lemma_item_rendering_pubdate(t: Seq<char>)
    ensures
        item_rendering(Map::<RssTag, Seq<char>>::empty().insert(RssTag::PubDate, t)) == "Item\n"@ + "Pub date: "@ + t + "\n"@,
{
    reveal(crate::formats::feeds::rss::line);
    let m = Map::<RssTag, Seq<char>>::empty().insert(RssTag::PubDate, t);
    assert(!m.contains_key(RssTag::Title));
    assert(!m.contains_key(RssTag::Link));
    assert(!m.contains_key(RssTag::Description));
    assert(!m.contains_key(RssTag::Author));
    assert(!m.contains_key(RssTag::Category));
    assert(!m.contains_key(RssTag::Comments));
    assert(!m.contains_key(RssTag::Enclosure));
    assert(!m.contains_key(RssTag::Guid));
    assert(!m.contains_key(RssTag::Source));
    assert(item_rendering(m) =~= "Item\n"@ + "Pub date: "@ + t + "\n"@);
}

proof fn lemma_item_rendering_source(t: Seq<char>)
    ensures
        item_rendering(Map::<RssTag, Seq<char>>::empty().insert(RssTag::Source, t)) == "Item\n"@ + "Source: "@ + t + "\n"@,
{
    reveal(crate::formats::feeds::rss::line);
    let m = Map::<RssTag, Seq<char>>::empty().insert(RssTag::Source, t);
    assert(!m.contains_key(RssTag::Title));
    assert(!m.contains_key(RssTag::Link));
    assert(!m.contains_key(RssTag::Description));
    assert(!m.contains_key(RssTag::Author));
    assert(!m.contains_key(RssTag::Category));
    assert(!m.contains_key(RssTag::Comments));
    assert(!m.contains_key(RssTag::Enclosure));
    assert(!m.contains_key(RssTag::Guid));
    assert(!m.contains_key(RssTag::PubDate));
    assert(item_rendering(m) =~= "Item\n"@ + "Source: "@ + t + "\n"@);
}

/// A channel holding the text of one element is rendered as `Channel`,
/// then that element's label, its text and a line feed.
pub proof fn law_channel_rendering_labels(t: Seq<char>)
    ensures
        channel_rendering(Map::empty().insert(RssTag::Title, t)) == "Channel\n"@ + "Title: "@ + t + "\n"@,
        channel_rendering(Map::empty().insert(RssTag::Link, t)) == "Channel\n"@ + "Link: "@ + t + "\n"@,
        channel_rendering(Map::empty().insert(RssTag::Description, t)) == "Channel\n"@ + "Description: "@ + t + "\n"@,
        channel_rendering(Map::empty().insert(RssTag::Language, t)) == "Channel\n"@ + "Language: "@ + t + "\n"@,
        channel_rendering(Map::empty().insert(RssTag::Copyright, t)) == "Channel\n"@ + "Copyright: "@ + t + "\n"@,
        channel_rendering(Map::empty().insert(RssTag::ManagingEditor, t)) == "Channel\n"@ + "Managing editor: "@ + t + "\n"@,
        channel_rendering(Map::empty().insert(RssTag::WebMaster, t)) == "Channel\n"@ + "Web master: "@ + t + "\n"@,
        channel_rendering(Map::empty().insert(RssTag::PubDate, t)) == "Channel\n"@ + "Pub date: "@ + t + "\n"@,
        channel_rendering(Map::empty().insert(RssTag::LastBuildDate, t)) == "Channel\n"@ + "Last build date: "@ + t + "\n"@,
        channel_rendering(Map::empty().insert(RssTag::Category, t)) == "Channel\n"@ + "Category: "@ + t + "\n"@,
        channel_rendering(Map::empty().insert(RssTag::Generator, t)) == "Channel\n"@ + "Generator: "@ + t + "\n"@,
        channel_rendering(Map::empty().insert(RssTag::Docs, t)) == "Channel\n"@ + "Docs: "@ + t + "\n"@,
        channel_rendering(Map::empty().insert(RssTag::Cloud, t)) == "Channel\n"@ + "Cloud: "@ + t + "\n"@,
        channel_rendering(Map::empty().insert(RssTag::Ttl, t)) == "Channel\n"@ + "Ttl: "@ + t + "\n"@,
        channel_rendering(Map::empty().insert(RssTag::Image, t)) == "Channel\n"@ + "Image: "@ + t + "\n"@,
        channel_rendering(Map::empty().insert(RssTag::Rating, t)) == "Channel\n"@ + "Rating: "@ + t + "\n"@,
        channel_rendering(Map::empty().insert(RssTag::TextInput, t)) == "Channel\n"@ + "Text input: "@ + t + "\n"@,
        channel_rendering(Map::empty().insert(RssTag::SkipHours, t)) == "Channel\n"@ + "Skip hours: "@ + t + "\n"@,
        channel_rendering(Map::empty().insert(RssTag::SkipDays, t)) == "Channel\n"@ + "Skip days: "@ + t + "\n"@,
{
    lemma_channel_rendering_title(t);
    lemma_channel_rendering_link(t);
    lemma_channel_rendering_description(t);
    lemma_channel_rendering_language(t);
    lemma_channel_rendering_copyright(t);
    lemma_channel_rendering_managingeditor(t);
    lemma_channel_rendering_webmaster(t);
    lemma_channel_rendering_pubdate(t);
    lemma_channel_rendering_lastbuilddate(t);
    lemma_channel_rendering_category(t);
    lemma_channel_rendering_generator(t);
    lemma_channel_rendering_docs(t);
    lemma_channel_rendering_cloud(t);
    lemma_channel_rendering_ttl(t);
    lemma_channel_rendering_image(t);
    lemma_channel_rendering_rating(t);
    lemma_channel_rendering_textinput(t);
    lemma_channel_rendering_skiphours(t);
    lemma_channel_rendering_skipdays(t);
}

/// An item holding the text of one element is rendered as `Item`, then
/// that element's label, its text and a line feed.
pub proof fn law_item_rendering_labels(t: Seq<char>)
    ensures
        item_rendering(Map::empty().insert(RssTag::Title, t)) == "Item\n"@ + "Title: "@ + t + "\n"@,
        item_rendering(Map::empty().insert(RssTag::Link, t)) == "Item\n"@ + "Link: "@ + t + "\n"@,
        item_rendering(Map::empty().insert(RssTag::Description, t)) == "Item\n"@ + "Description: "@ + t + "\n"@,
        item_rendering(Map::empty().insert(RssTag::Author, t)) == "Item\n"@ + "Author: "@ + t + "\n"@,
        item_rendering(Map::empty().insert(RssTag::Category, t)) == "Item\n"@ + "Category: "@ + t + "\n"@,
        item_rendering(Map::empty().insert(RssTag::Comments, t)) == "Item\n"@ + "Comments: "@ + t + "\n"@,
        item_rendering(Map::empty().insert(RssTag::Enclosure, t)) == "Item\n"@ + "Enclosure: "@ + t + "\n"@,
        item_rendering(Map::empty().insert(RssTag::Guid, t)) == "Item\n"@ + "Guid: "@ + t + "\n"@,
        item_rendering(Map::empty().insert(RssTag::PubDate, t)) == "Item\n"@ + "Pub date: "@ + t + "\n"@,
        item_rendering(Map::empty().insert(RssTag::Source, t)) == "Item\n"@ + "Source: "@ + t + "\n"@,
{
    lemma_item_rendering_title(t);
    lemma_item_rendering_link(t);
    lemma_item_rendering_description(t);
    lemma_item_rendering_author(t);
    lemma_item_rendering_category(t);
    lemma_item_rendering_comments(t);
    lemma_item_rendering_enclosure(t);
    lemma_item_rendering_guid(t);
    lemma_item_rendering_pubdate(t);
    lemma_item_rendering_source(t);
}

} // verus!
