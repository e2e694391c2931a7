//! An RSS reader that follows the element tree: it keeps the open elements,
//! the namespace bindings in scope, the channel and its items.
pub mod errors;
pub mod feed;

pub use errors::Error;
pub use feed::{Channel, Feed, Item, RssParser};

use vstd::prelude::*;
use crate::bs::{ascii, bytes_eq, until_byte, lemma_until_byte, byte_run_end, COLON};
use crate::text::{decode, decode_str, utf8_lossy, lossy_string, debug_text, debug_string};
use crate::formats::extensions::dublin_core::{DublinCoreLegacyNamespace, dublin_core_element};
use crate::formats::feeds::atom::{AtomElement, atom_element};
use crate::formats::feeds::rss::errors::ErrorView;
use crate::xml::errors::Error as XmlError;
use crate::xml::tokens::{XmlToken, XmlTokenizer, XmlState, TokenView, step, step_halts, view_item};

verus! {

/// A namespace an element can belong to.
#[derive(Debug, PartialEq, Eq, Structural, Clone, Copy)]
pub enum Namespace {
    Rss,
    Atom,
    DublinCore,
    Content,
    Media,
    Custom,
}

impl Namespace {
    /// The namespace that `uri` names (`Custom` for one not known here).
    fn from_uri(uri: &[u8]) -> (ns: Self)
        ensures
            ns == namespace_of(uri@),
    {
        namespace_of_uri(uri)
    }
}

/// A prefix bound to a namespace by an `xmlns:` attribute.
#[derive(Debug)]
pub struct NamespaceBinding<'a> {
    prefix: &'a [u8],
    ns: Namespace,
}

/// An element the reader knows.
#[derive(Debug, PartialEq, Eq, Structural, Clone, Copy)]
pub enum RssElement {
    Rss,
    Channel,
    Item,
    Title,
    Link,
    Description,
    Language,
    Copyright,
    ManagingEditor,
    WebMaster,
    PubDate,
    LastBuildDate,
    Category,
    Generator,
    Docs,
    Cloud,
    Ttl,
    Image,
    Rating,
    TextInput,
    SkipHours,
    SkipDays,
    Author,
    Comments,
    Enclosure,
    Guid,
    Source,
    Url,
    Width,
    Height,
    Name,
    Atom(AtomElement),
    DublinCore(DublinCoreLegacyNamespace),
    Unknown,
}

/// The RSS element a local name stands for.
pub open spec fn rss_element(name: Seq<u8>) -> RssElement {
    if name == ascii("rss"@) {
        RssElement::Rss
    } else if name == ascii("channel"@) {
        RssElement::Channel
    } else if name == ascii("item"@) {
        RssElement::Item
    } else if name == ascii("title"@) {
        RssElement::Title
    } else if name == ascii("link"@) {
        RssElement::Link
    } else if name == ascii("description"@) {
        RssElement::Description
    } else if name == ascii("language"@) {
        RssElement::Language
    } else if name == ascii("copyright"@) {
        RssElement::Copyright
    } else if name == ascii("managingEditor"@) {
        RssElement::ManagingEditor
    } else if name == ascii("webMaster"@) {
        RssElement::WebMaster
    } else if name == ascii("pubDate"@) {
        RssElement::PubDate
    } else if name == ascii("lastBuildDate"@) {
        RssElement::LastBuildDate
    } else if name == ascii("category"@) {
        RssElement::Category
    } else if name == ascii("generator"@) {
        RssElement::Generator
    } else if name == ascii("docs"@) {
        RssElement::Docs
    } else if name == ascii("cloud"@) {
        RssElement::Cloud
    } else if name == ascii("ttl"@) {
        RssElement::Ttl
    } else if name == ascii("image"@) {
        RssElement::Image
    } else if name == ascii("rating"@) {
        RssElement::Rating
    } else if name == ascii("textInput"@) {
        RssElement::TextInput
    } else if name == ascii("skipHours"@) {
        RssElement::SkipHours
    } else if name == ascii("skipDays"@) {
        RssElement::SkipDays
    } else if name == ascii("author"@) {
        RssElement::Author
    } else if name == ascii("comments"@) {
        RssElement::Comments
    } else if name == ascii("enclosure"@) {
        RssElement::Enclosure
    } else if name == ascii("guid"@) {
        RssElement::Guid
    } else if name == ascii("source"@) {
        RssElement::Source
    } else if name == ascii("url"@) {
        RssElement::Url
    } else if name == ascii("width"@) {
        RssElement::Width
    } else if name == ascii("height"@) {
        RssElement::Height
    } else if name == ascii("name"@) {
        RssElement::Name
    } else {
        RssElement::Unknown
    }
}

/// The RSS element a local name stands for.
fn rss_element_of(name: &[u8]) -> (r: RssElement)
    ensures
        r == rss_element(name@),
{
    let k0: [u8; 3] = [0x72, 0x73, 0x73];
    proof {
        reveal_strlit("rss");
        assert(k0@ =~= ascii("rss"@));
    }
    if bytes_eq(name, k0.as_slice()) {
        return RssElement::Rss;
    }
    let k1: [u8; 7] = [0x63, 0x68, 0x61, 0x6e, 0x6e, 0x65, 0x6c];
    proof {
        reveal_strlit("channel");
        assert(k1@ =~= ascii("channel"@));
    }
    if bytes_eq(name, k1.as_slice()) {
        return RssElement::Channel;
    }
    let k2: [u8; 4] = [0x69, 0x74, 0x65, 0x6d];
    proof {
        reveal_strlit("item");
        assert(k2@ =~= ascii("item"@));
    }
    if bytes_eq(name, k2.as_slice()) {
        return RssElement::Item;
    }
    let k3: [u8; 5] = [0x74, 0x69, 0x74, 0x6c, 0x65];
    proof {
        reveal_strlit("title");
        assert(k3@ =~= ascii("title"@));
    }
    if bytes_eq(name, k3.as_slice()) {
        return RssElement::Title;
    }
    let k4: [u8; 4] = [0x6c, 0x69, 0x6e, 0x6b];
    proof {
        reveal_strlit("link");
        assert(k4@ =~= ascii("link"@));
    }
    if bytes_eq(name, k4.as_slice()) {
        return RssElement::Link;
    }
    let k5: [u8; 11] = [0x64, 0x65, 0x73, 0x63, 0x72, 0x69, 0x70, 0x74, 0x69, 0x6f, 0x6e];
    proof {
        reveal_strlit("description");
        assert(k5@ =~= ascii("description"@));
    }
    if bytes_eq(name, k5.as_slice()) {
        return RssElement::Description;
    }
    let k6: [u8; 8] = [0x6c, 0x61, 0x6e, 0x67, 0x75, 0x61, 0x67, 0x65];
    proof {
        reveal_strlit("language");
        assert(k6@ =~= ascii("language"@));
    }
    if bytes_eq(name, k6.as_slice()) {
        return RssElement::Language;
    }
    let k7: [u8; 9] = [0x63, 0x6f, 0x70, 0x79, 0x72, 0x69, 0x67, 0x68, 0x74];
    proof {
        reveal_strlit("copyright");
        assert(k7@ =~= ascii("copyright"@));
    }
    if bytes_eq(name, k7.as_slice()) {
        return RssElement::Copyright;
    }
    let k8: [u8; 14] = [0x6d, 0x61, 0x6e, 0x61, 0x67, 0x69, 0x6e, 0x67, 0x45, 0x64, 0x69, 0x74, 0x6f, 0x72];
    proof {
        reveal_strlit("managingEditor");
        assert(k8@ =~= ascii("managingEditor"@));
    }
    if bytes_eq(name, k8.as_slice()) {
        return RssElement::ManagingEditor;
    }
    let k9: [u8; 9] = [0x77, 0x65, 0x62, 0x4d, 0x61, 0x73, 0x74, 0x65, 0x72];
    proof {
        reveal_strlit("webMaster");
        assert(k9@ =~= ascii("webMaster"@));
    }
    if bytes_eq(name, k9.as_slice()) {
        return RssElement::WebMaster;
    }
    let k10: [u8; 7] = [0x70, 0x75, 0x62, 0x44, 0x61, 0x74, 0x65];
    proof {
        reveal_strlit("pubDate");
        assert(k10@ =~= ascii("pubDate"@));
    }
    if bytes_eq(name, k10.as_slice()) {
        return RssElement::PubDate;
    }
    let k11: [u8; 13] = [0x6c, 0x61, 0x73, 0x74, 0x42, 0x75, 0x69, 0x6c, 0x64, 0x44, 0x61, 0x74, 0x65];
    proof {
        reveal_strlit("lastBuildDate");
        assert(k11@ =~= ascii("lastBuildDate"@));
    }
    if bytes_eq(name, k11.as_slice()) {
        return RssElement::LastBuildDate;
    }
    let k12: [u8; 8] = [0x63, 0x61, 0x74, 0x65, 0x67, 0x6f, 0x72, 0x79];
    proof {
        reveal_strlit("category");
        assert(k12@ =~= ascii("category"@));
    }
    if bytes_eq(name, k12.as_slice()) {
        return RssElement::Category;
    }
    let k13: [u8; 9] = [0x67, 0x65, 0x6e, 0x65, 0x72, 0x61, 0x74, 0x6f, 0x72];
    proof {
        reveal_strlit("generator");
        assert(k13@ =~= ascii("generator"@));
    }
    if bytes_eq(name, k13.as_slice()) {
        return RssElement::Generator;
    }
    let k14: [u8; 4] = [0x64, 0x6f, 0x63, 0x73];
    proof {
        reveal_strlit("docs");
        assert(k14@ =~= ascii("docs"@));
    }
    if bytes_eq(name, k14.as_slice()) {
        return RssElement::Docs;
    }
    let k15: [u8; 5] = [0x63, 0x6c, 0x6f, 0x75, 0x64];
    proof {
        reveal_strlit("cloud");
        assert(k15@ =~= ascii("cloud"@));
    }
    if bytes_eq(name, k15.as_slice()) {
        return RssElement::Cloud;
    }
    let k16: [u8; 3] = [0x74, 0x74, 0x6c];
    proof {
        reveal_strlit("ttl");
        assert(k16@ =~= ascii("ttl"@));
    }
    if bytes_eq(name, k16.as_slice()) {
        return RssElement::Ttl;
    }
    let k17: [u8; 5] = [0x69, 0x6d, 0x61, 0x67, 0x65];
    proof {
        reveal_strlit("image");
        assert(k17@ =~= ascii("image"@));
    }
    if bytes_eq(name, k17.as_slice()) {
        return RssElement::Image;
    }
    let k18: [u8; 6] = [0x72, 0x61, 0x74, 0x69, 0x6e, 0x67];
    proof {
        reveal_strlit("rating");
        assert(k18@ =~= ascii("rating"@));
    }
    if bytes_eq(name, k18.as_slice()) {
        return RssElement::Rating;
    }
    let k19: [u8; 9] = [0x74, 0x65, 0x78, 0x74, 0x49, 0x6e, 0x70, 0x75, 0x74];
    proof {
        reveal_strlit("textInput");
        assert(k19@ =~= ascii("textInput"@));
    }
    if bytes_eq(name, k19.as_slice()) {
        return RssElement::TextInput;
    }
    let k20: [u8; 9] = [0x73, 0x6b, 0x69, 0x70, 0x48, 0x6f, 0x75, 0x72, 0x73];
    proof {
        reveal_strlit("skipHours");
        assert(k20@ =~= ascii("skipHours"@));
    }
    if bytes_eq(name, k20.as_slice()) {
        return RssElement::SkipHours;
    }
    let k21: [u8; 8] = [0x73, 0x6b, 0x69, 0x70, 0x44, 0x61, 0x79, 0x73];
    proof {
        reveal_strlit("skipDays");
        assert(k21@ =~= ascii("skipDays"@));
    }
    if bytes_eq(name, k21.as_slice()) {
        return RssElement::SkipDays;
    }
    let k22: [u8; 6] = [0x61, 0x75, 0x74, 0x68, 0x6f, 0x72];
    proof {
        reveal_strlit("author");
        assert(k22@ =~= ascii("author"@));
    }
    if bytes_eq(name, k22.as_slice()) {
        return RssElement::Author;
    }
    let k23: [u8; 8] = [0x63, 0x6f, 0x6d, 0x6d, 0x65, 0x6e, 0x74, 0x73];
    proof {
        reveal_strlit("comments");
        assert(k23@ =~= ascii("comments"@));
    }
    if bytes_eq(name, k23.as_slice()) {
        return RssElement::Comments;
    }
    let k24: [u8; 9] = [0x65, 0x6e, 0x63, 0x6c, 0x6f, 0x73, 0x75, 0x72, 0x65];
    proof {
        reveal_strlit("enclosure");
        assert(k24@ =~= ascii("enclosure"@));
    }
    if bytes_eq(name, k24.as_slice()) {
        return RssElement::Enclosure;
    }
    let k25: [u8; 4] = [0x67, 0x75, 0x69, 0x64];
    proof {
        reveal_strlit("guid");
        assert(k25@ =~= ascii("guid"@));
    }
    if bytes_eq(name, k25.as_slice()) {
        return RssElement::Guid;
    }
    let k26: [u8; 6] = [0x73, 0x6f, 0x75, 0x72, 0x63, 0x65];
    proof {
        reveal_strlit("source");
        assert(k26@ =~= ascii("source"@));
    }
    if bytes_eq(name, k26.as_slice()) {
        return RssElement::Source;
    }
    let k27: [u8; 3] = [0x75, 0x72, 0x6c];
    proof {
        reveal_strlit("url");
        assert(k27@ =~= ascii("url"@));
    }
    if bytes_eq(name, k27.as_slice()) {
        return RssElement::Url;
    }
    let k28: [u8; 5] = [0x77, 0x69, 0x64, 0x74, 0x68];
    proof {
        reveal_strlit("width");
        assert(k28@ =~= ascii("width"@));
    }
    if bytes_eq(name, k28.as_slice()) {
        return RssElement::Width;
    }
    let k29: [u8; 6] = [0x68, 0x65, 0x69, 0x67, 0x68, 0x74];
    proof {
        reveal_strlit("height");
        assert(k29@ =~= ascii("height"@));
    }
    if bytes_eq(name, k29.as_slice()) {
        return RssElement::Height;
    }
    let k30: [u8; 4] = [0x6e, 0x61, 0x6d, 0x65];
    proof {
        reveal_strlit("name");
        assert(k30@ =~= ascii("name"@));
    }
    if bytes_eq(name, k30.as_slice()) {
        return RssElement::Name;
    }
    RssElement::Unknown
}

/// The namespace a URI names.
pub open spec fn namespace_of(name: Seq<u8>) -> Namespace {
    if name == ascii("http://purl.org/dc/elements/1.1/"@) {
        Namespace::DublinCore
    } else if name == ascii("http://www.w3.org/2005/Atom"@) {
        Namespace::Atom
    } else if name == ascii("http://purl.org/rss/1.0/modules/content/"@) {
        Namespace::Content
    } else if name == ascii("http://search.yahoo.com/mrss/"@) {
        Namespace::Media
    } else {
        Namespace::Custom
    }
}

/// The namespace a URI names.
fn namespace_of_uri(name: &[u8]) -> (r: Namespace)
    ensures
        r == namespace_of(name@),
{
    let k0: [u8; 32] = [0x68, 0x74, 0x74, 0x70, 0x3a, 0x2f, 0x2f, 0x70, 0x75, 0x72, 0x6c, 0x2e, 0x6f, 0x72, 0x67, 0x2f, 0x64, 0x63, 0x2f, 0x65, 0x6c, 0x65, 0x6d, 0x65, 0x6e, 0x74, 0x73, 0x2f, 0x31, 0x2e, 0x31, 0x2f];
    proof {
        reveal_strlit("http://purl.org/dc/elements/1.1/");
        assert(k0@ =~= ascii("http://purl.org/dc/elements/1.1/"@));
    }
    if bytes_eq(name, k0.as_slice()) {
        return Namespace::DublinCore;
    }
    let k1: [u8; 27] = [0x68, 0x74, 0x74, 0x70, 0x3a, 0x2f, 0x2f, 0x77, 0x77, 0x77, 0x2e, 0x77, 0x33, 0x2e, 0x6f, 0x72, 0x67, 0x2f, 0x32, 0x30, 0x30, 0x35, 0x2f, 0x41, 0x74, 0x6f, 0x6d];
    proof {
        reveal_strlit("http://www.w3.org/2005/Atom");
        assert(k1@ =~= ascii("http://www.w3.org/2005/Atom"@));
    }
    if bytes_eq(name, k1.as_slice()) {
        return Namespace::Atom;
    }
    let k2: [u8; 40] = [0x68, 0x74, 0x74, 0x70, 0x3a, 0x2f, 0x2f, 0x70, 0x75, 0x72, 0x6c, 0x2e, 0x6f, 0x72, 0x67, 0x2f, 0x72, 0x73, 0x73, 0x2f, 0x31, 0x2e, 0x30, 0x2f, 0x6d, 0x6f, 0x64, 0x75, 0x6c, 0x65, 0x73, 0x2f, 0x63, 0x6f, 0x6e, 0x74, 0x65, 0x6e, 0x74, 0x2f];
    proof {
        reveal_strlit("http://purl.org/rss/1.0/modules/content/");
        assert(k2@ =~= ascii("http://purl.org/rss/1.0/modules/content/"@));
    }
    if bytes_eq(name, k2.as_slice()) {
        return Namespace::Content;
    }
    let k3: [u8; 29] = [0x68, 0x74, 0x74, 0x70, 0x3a, 0x2f, 0x2f, 0x73, 0x65, 0x61, 0x72, 0x63, 0x68, 0x2e, 0x79, 0x61, 0x68, 0x6f, 0x6f, 0x2e, 0x63, 0x6f, 0x6d, 0x2f, 0x6d, 0x72, 0x73, 0x73, 0x2f];
    proof {
        reveal_strlit("http://search.yahoo.com/mrss/");
        assert(k3@ =~= ascii("http://search.yahoo.com/mrss/"@));
    }
    if bytes_eq(name, k3.as_slice()) {
        return Namespace::Media;
    }
    Namespace::Custom
}

impl<'a> From<&'a [u8]> for RssElement {
    fn from(value: &'a [u8]) -> Self {
        rss_element_of(value)
    }
}

impl<'a> vstd::std_specs::convert::FromSpecImpl<&'a [u8]> for RssElement {
    open spec fn obeys_from_spec() -> bool {
        true
    }

    open spec fn from_spec(v: &'a [u8]) -> Self {
        rss_element(v@)
    }
}

/// A text that may be missing, taken as characters.
pub open spec fn text(o: Option<&str>) -> Option<Seq<char>> {
    match o {
        Some(s) => Some(s@),
        None => None,
    }
}

/// A channel's image.
#[derive(Debug)]
pub struct RssImageElement<'a> {
    url: Option<&'a str>,
    title: Option<&'a str>,
    link: Option<&'a str>,
    width: Option<&'a str>,
    height: Option<&'a str>,
    description: Option<&'a str>,
}

/// A channel's text input box.
#[derive(Debug)]
pub struct RssTextInputElement<'a> {
    title: Option<&'a str>,
    description: Option<&'a str>,
    name: Option<&'a str>,
    link: Option<&'a str>,
}

/// A channel.
#[derive(Debug)]
pub struct RssChannel<'a> {
    title: Option<&'a str>,
    link: Option<&'a str>,
    description: Option<&'a str>,
    language: Option<&'a str>,
    copyright: Option<&'a str>,
    managing_editor: Option<&'a str>,
    web_master: Option<&'a str>,
    pub_date: Option<&'a str>,
    last_build_date: Option<&'a str>,
    category: Option<&'a str>,
    generator: Option<&'a str>,
    docs: Option<&'a str>,
    cloud: Option<&'a str>,
    ttl: Option<&'a str>,
    image: Option<RssImageElement<'a>>,
    rating: Option<&'a str>,
    text_input: Option<RssTextInputElement<'a>>,
    skip_hours: Option<&'a str>,
    skip_days: Option<&'a str>,
}

/// The source an item was taken from.
#[derive(Debug)]
pub struct RssItemSource<'a> {
    url: Option<&'a str>,
    value: Option<&'a str>,
}

/// A file attached to an item.
#[derive(Debug)]
pub struct RssItemEnclosure<'a> {
    url: Option<&'a str>,
    length: Option<&'a str>,
    enclosure_type: Option<&'a str>,
}

/// An item's category.
#[derive(Debug)]
pub struct RssItemCategory<'a> {
    domain: Option<&'a str>,
    value: Option<&'a str>,
}

/// An item's unique identifier.
#[derive(Debug)]
pub struct RssItemGuid<'a> {
    is_perma_link: Option<&'a str>,
    value: Option<&'a str>,
}

/// An item.
#[derive(Debug)]
pub struct RssItem<'a> {
    title: Option<&'a str>,
    link: Option<&'a str>,
    description: Option<&'a str>,
    author: Option<&'a str>,
    category: Option<RssItemCategory<'a>>,
    comments: Option<&'a str>,
    enclosure: Option<RssItemEnclosure<'a>>,
    guid: Option<RssItemGuid<'a>>,
    pub_date: Option<&'a str>,
    source: Option<RssItemSource<'a>>,
}

/// An image, taken as values.
pub struct ImageView {
    pub url: Option<Seq<char>>,
    pub title: Option<Seq<char>>,
    pub link: Option<Seq<char>>,
    pub width: Option<Seq<char>>,
    pub height: Option<Seq<char>>,
    pub description: Option<Seq<char>>,
}

/// A text input box, taken as values.
pub struct TextInputView {
    pub title: Option<Seq<char>>,
    pub description: Option<Seq<char>>,
    pub name: Option<Seq<char>>,
    pub link: Option<Seq<char>>,
}

/// A channel, taken as values.
pub struct ChannelView {
    pub title: Option<Seq<char>>,
    pub link: Option<Seq<char>>,
    pub description: Option<Seq<char>>,
    pub language: Option<Seq<char>>,
    pub copyright: Option<Seq<char>>,
    pub managing_editor: Option<Seq<char>>,
    pub web_master: Option<Seq<char>>,
    pub pub_date: Option<Seq<char>>,
    pub last_build_date: Option<Seq<char>>,
    pub category: Option<Seq<char>>,
    pub generator: Option<Seq<char>>,
    pub docs: Option<Seq<char>>,
    pub cloud: Option<Seq<char>>,
    pub ttl: Option<Seq<char>>,
    pub image: Option<ImageView>,
    pub rating: Option<Seq<char>>,
    pub text_input: Option<TextInputView>,
    pub skip_hours: Option<Seq<char>>,
    pub skip_days: Option<Seq<char>>,
}

/// A pair of optional texts (a source's URL and value, a category's domain
/// and value, a GUID's permalink flag and value).
pub struct PairView {
    pub first: Option<Seq<char>>,
    pub value: Option<Seq<char>>,
}

/// An enclosure, taken as values.
pub struct EnclosureView {
    pub url: Option<Seq<char>>,
    pub length: Option<Seq<char>>,
    pub enclosure_type: Option<Seq<char>>,
}

/// An item, taken as values.
pub struct ItemView {
    pub title: Option<Seq<char>>,
    pub link: Option<Seq<char>>,
    pub description: Option<Seq<char>>,
    pub author: Option<Seq<char>>,
    pub category: Option<PairView>,
    pub comments: Option<Seq<char>>,
    pub enclosure: Option<EnclosureView>,
    pub guid: Option<PairView>,
    pub pub_date: Option<Seq<char>>,
    pub source: Option<PairView>,
}

impl<'a> View for RssImageElement<'a> {
    type V = ImageView;

    closed spec fn view(&self) -> ImageView {
        ImageView {
            url: text(self.url),
            title: text(self.title),
            link: text(self.link),
            width: text(self.width),
            height: text(self.height),
            description: text(self.description),
        }
    }
}

impl<'a> View for RssTextInputElement<'a> {
    type V = TextInputView;

    closed spec fn view(&self) -> TextInputView {
        TextInputView {
            title: text(self.title),
            description: text(self.description),
            name: text(self.name),
            link: text(self.link),
        }
    }
}

impl<'a> View for RssChannel<'a> {
    type V = ChannelView;

    closed spec fn view(&self) -> ChannelView {
        ChannelView {
            title: text(self.title),
            link: text(self.link),
            description: text(self.description),
            language: text(self.language),
            copyright: text(self.copyright),
            managing_editor: text(self.managing_editor),
            web_master: text(self.web_master),
            pub_date: text(self.pub_date),
            last_build_date: text(self.last_build_date),
            category: text(self.category),
            generator: text(self.generator),
            docs: text(self.docs),
            cloud: text(self.cloud),
            ttl: text(self.ttl),
            image: match self.image {
                Some(i) => Some(i@),
                None => None,
            },
            rating: text(self.rating),
            text_input: match self.text_input {
                Some(t) => Some(t@),
                None => None,
            },
            skip_hours: text(self.skip_hours),
            skip_days: text(self.skip_days),
        }
    }
}

impl<'a> View for RssItemSource<'a> {
    type V = PairView;

    closed spec fn view(&self) -> PairView {
        PairView { first: text(self.url), value: text(self.value) }
    }
}

impl<'a> View for RssItemCategory<'a> {
    type V = PairView;

    closed spec fn view(&self) -> PairView {
        PairView { first: text(self.domain), value: text(self.value) }
    }
}

impl<'a> View for RssItemGuid<'a> {
    type V = PairView;

    closed spec fn view(&self) -> PairView {
        PairView { first: text(self.is_perma_link), value: text(self.value) }
    }
}

impl<'a> View for RssItemEnclosure<'a> {
    type V = EnclosureView;

    closed spec fn view(&self) -> EnclosureView {
        EnclosureView {
            url: text(self.url),
            length: text(self.length),
            enclosure_type: text(self.enclosure_type),
        }
    }
}

impl<'a> View for RssItem<'a> {
    type V = ItemView;

    closed spec fn view(&self) -> ItemView {
        ItemView {
            title: text(self.title),
            link: text(self.link),
            description: text(self.description),
            author: text(self.author),
            category: match self.category {
                Some(c) => Some(c@),
                None => None,
            },
            comments: text(self.comments),
            enclosure: match self.enclosure {
                Some(e) => Some(e@),
                None => None,
            },
            guid: match self.guid {
                Some(g) => Some(g@),
                None => None,
            },
            pub_date: text(self.pub_date),
            source: match self.source {
                Some(s) => Some(s@),
                None => None,
            },
        }
    }
}

/// A pair with neither text.
pub open spec fn empty_pair() -> PairView {
    PairView { first: None, value: None }
}

/// An image with no text.
pub open spec fn empty_image() -> ImageView {
    ImageView { url: None, title: None, link: None, width: None, height: None, description: None }
}

/// A text input box with no text.
pub open spec fn empty_text_input() -> TextInputView {
    TextInputView { title: None, description: None, name: None, link: None }
}

/// An enclosure with no text.
pub open spec fn empty_enclosure() -> EnclosureView {
    EnclosureView { url: None, length: None, enclosure_type: None }
}

/// A channel with no text, image or text input.
pub open spec fn empty_channel() -> ChannelView {
    ChannelView {
        title: None,
        link: None,
        description: None,
        language: None,
        copyright: None,
        managing_editor: None,
        web_master: None,
        pub_date: None,
        last_build_date: None,
        category: None,
        generator: None,
        docs: None,
        cloud: None,
        ttl: None,
        image: None,
        rating: None,
        text_input: None,
        skip_hours: None,
        skip_days: None,
    }
}

/// An item with no text.
pub open spec fn empty_item() -> ItemView {
    ItemView {
        title: None,
        link: None,
        description: None,
        author: None,
        category: None,
        comments: None,
        enclosure: None,
        guid: None,
        pub_date: None,
        source: None,
    }
}

impl<'a> Default for RssImageElement<'a> {
    fn default() -> (r: Self)
        ensures
            r@ == empty_image(),
    {
        RssImageElement { url: None, title: None, link: None, width: None, height: None, description: None }
    }
}

impl<'a> Default for RssTextInputElement<'a> {
    fn default() -> (r: Self)
        ensures
            r@ == empty_text_input(),
    {
        RssTextInputElement { title: None, description: None, name: None, link: None }
    }
}

impl<'a> Default for RssItemSource<'a> {
    fn default() -> (r: Self)
        ensures
            r@ == empty_pair(),
    {
        RssItemSource { url: None, value: None }
    }
}

impl<'a> Default for RssItemEnclosure<'a> {
    fn default() -> (r: Self)
        ensures
            r@ == empty_enclosure(),
    {
        RssItemEnclosure { url: None, length: None, enclosure_type: None }
    }
}

impl<'a> Default for RssItemCategory<'a> {
    fn default() -> (r: Self)
        ensures
            r@ == empty_pair(),
    {
        RssItemCategory { domain: None, value: None }
    }
}

impl<'a> Default for RssItemGuid<'a> {
    fn default() -> (r: Self)
        ensures
            r@ == empty_pair(),
    {
        RssItemGuid { is_perma_link: None, value: None }
    }
}

impl<'a> Default for RssChannel<'a> {
    fn default() -> (r: Self)
        ensures
            r@ == empty_channel(),
    {
        RssChannel {
            title: None,
            link: None,
            description: None,
            language: None,
            copyright: None,
            managing_editor: None,
            web_master: None,
            pub_date: None,
            last_build_date: None,
            category: None,
            generator: None,
            docs: None,
            cloud: None,
            ttl: None,
            image: None,
            rating: None,
            text_input: None,
            skip_hours: None,
            skip_days: None,
        }
    }
}

impl<'a> Default for RssItem<'a> {
    fn default() -> (r: Self)
        ensures
            r@ == empty_item(),
    {
        RssItem {
            title: None,
            link: None,
            description: None,
            author: None,
            category: None,
            comments: None,
            enclosure: None,
            guid: None,
            pub_date: None,
            source: None,
        }
    }
}

// ---------------------------------------------------------------------------
// Rendering as text.

/// `label` and `t` on a line of their own, or nothing when there is no `t`.
#[verifier::opaque]
pub open spec fn line(label: Seq<char>, t: Option<Seq<char>>) -> Seq<char> {
    match t {
        Some(x) => label + x + "\n"@,
        None => Seq::empty(),
    }
}

/// `label` and `t` as `{:?}` prints it, on a line of their own, or nothing.
#[verifier::opaque]
pub open spec fn debug_line(label: Seq<char>, t: Option<Seq<char>>) -> Seq<char> {
    match t {
        Some(x) => label + debug_text(x) + "\n"@,
        None => Seq::empty(),
    }
}

/// An optional text as `{:?}` prints it: `None`, or `Some(..)` around the
/// quoted text.
pub open spec fn option_debug(t: Option<Seq<char>>) -> Seq<char> {
    match t {
        Some(x) => "Some("@ + debug_text(x) + ")"@,
        None => "None"@,
    }
}


/// A RssImageElement as `{:?}` prints it.
pub open spec fn image_debug(v: ImageView) -> Seq<char> {
    "RssImageElement { url: "@ + option_debug(v.url) + ", title: "@ + option_debug(v.title) + ", link: "@ + option_debug(v.link) + ", width: "@ + option_debug(v.width) + ", height: "@ + option_debug(v.height) + ", description: "@ + option_debug(v.description) + " }"@
}


/// A RssTextInputElement as `{:?}` prints it.
pub open spec fn text_input_debug(v: TextInputView) -> Seq<char> {
    "RssTextInputElement { title: "@ + option_debug(v.title) + ", description: "@ + option_debug(v.description) + ", name: "@ + option_debug(v.name) + ", link: "@ + option_debug(v.link) + " }"@
}


/// A RssItemCategory as `{:?}` prints it.
pub open spec fn category_debug(v: PairView) -> Seq<char> {
    "RssItemCategory { domain: "@ + option_debug(v.first) + ", value: "@ + option_debug(v.value) + " }"@
}


/// A RssItemEnclosure as `{:?}` prints it.
pub open spec fn enclosure_debug(v: EnclosureView) -> Seq<char> {
    "RssItemEnclosure { url: "@ + option_debug(v.url) + ", length: "@ + option_debug(v.length) + ", enclosure_type: "@ + option_debug(v.enclosure_type) + " }"@
}


/// A RssItemGuid as `{:?}` prints it.
pub open spec fn guid_debug(v: PairView) -> Seq<char> {
    "RssItemGuid { is_perma_link: "@ + option_debug(v.first) + ", value: "@ + option_debug(v.value) + " }"@
}


/// A RssItemSource as `{:?}` prints it.
pub open spec fn source_debug(v: PairView) -> Seq<char> {
    "RssItemSource { url: "@ + option_debug(v.first) + ", value: "@ + option_debug(v.value) + " }"@
}


/// A channel as text: its name, then one line for each field that is present.
pub open spec fn channel_rendering(v: ChannelView) -> Seq<char> {
    "Channel\n"@
        + line("Title: "@, v.title)
        + line("Link: "@, v.link)
        + line("Description: "@, v.description)
        + line("Language: "@, v.language)
        + line("Copyright: "@, v.copyright)
        + line("Managing editor: "@, v.managing_editor)
        + line("Web master: "@, v.web_master)
        + line("Pub date: "@, v.pub_date)
        + line("Last build date: "@, v.last_build_date)
        + line("Category: "@, v.category)
        + line("Generator: "@, v.generator)
        + line("Docs: "@, v.docs)
        + debug_line("Cloud: "@, v.cloud)
        + debug_line("Ttl: "@, v.ttl)
        + line("Image: "@, match v.image { Some(x) => Some(image_debug(x)), None => None })
        + line("Rating: "@, v.rating)
        + line("Text input: "@, match v.text_input { Some(x) => Some(text_input_debug(x)), None => None })
        + line("Skip hours: "@, v.skip_hours)
        + line("Skip days: "@, v.skip_days)
}


/// An item as text: its name, then one line for each field that is present.
pub open spec fn item_rendering(v: ItemView) -> Seq<char> {
    "Item\n"@
        + line("Title: "@, v.title)
        + line("Link: "@, v.link)
        + line("Description: "@, v.description)
        + line("Author: "@, v.author)
        + line("Category: "@, match v.category { Some(x) => Some(category_debug(x)), None => None })
        + line("Comments: "@, v.comments)
        + line("Enclosure: "@, match v.enclosure { Some(x) => Some(enclosure_debug(x)), None => None })
        + line("Guid: "@, match v.guid { Some(x) => Some(guid_debug(x)), None => None })
        + line("Pub date: "@, v.pub_date)
        + line("Source: "@, match v.source { Some(x) => Some(source_debug(x)), None => None })
}


/// Appends `label`, `t` and a line feed when `t` is there.
pub(crate) fn push_line(out: &mut String, label: &str, t: Option<&str>)
    ensures
        final(out)@ == old(out)@ + line(label@, text(t)),
{
    reveal(line);
    match t {
        Some(x) => {
            out.append(label);
            out.append(x);
            out.append("\n");
        },
        None => {
            proof {
                assert(old(out)@ + Seq::<char>::empty() =~= old(out)@);
            }
        },
    }
}

/// Appends `label`, `t` as `{:?}` prints it and a line feed when `t` is there.
fn push_debug_line(out: &mut String, label: &str, t: Option<&str>)
    ensures
        final(out)@ == old(out)@ + debug_line(label@, text(t)),
{
    reveal(debug_line);
    match t {
        Some(x) => {
            out.append(label);
            let d = debug_string(x);
            out.append(d.as_str());
            out.append("\n");
        },
        None => {
            proof {
                assert(old(out)@ + Seq::<char>::empty() =~= old(out)@);
            }
        },
    }
}

/// Appends an optional text as `{:?}` prints it.
fn push_option_debug(out: &mut String, t: Option<&str>)
    ensures
        final(out)@ == old(out)@ + option_debug(text(t)),
{
    match t {
        Some(x) => {
            out.append("Some(");
            let d = debug_string(x);
            out.append(d.as_str());
            out.append(")");
        },
        None => {
            out.append("None");
        },
    }
}


impl<'a> RssImageElement<'a> {
    /// The value as `{:?}` prints it.
    pub fn to_debug_string(&self) -> (s: String)
        ensures
            s@ == image_debug(self@),
    {
        let mut s = String::from_str("RssImageElement { url: ");
        push_option_debug(&mut s, self.url);
        s.append(", title: ");
        push_option_debug(&mut s, self.title);
        s.append(", link: ");
        push_option_debug(&mut s, self.link);
        s.append(", width: ");
        push_option_debug(&mut s, self.width);
        s.append(", height: ");
        push_option_debug(&mut s, self.height);
        s.append(", description: ");
        push_option_debug(&mut s, self.description);
        s.append(" }");
        s
    }
}


impl<'a> RssTextInputElement<'a> {
    /// The value as `{:?}` prints it.
    pub fn to_debug_string(&self) -> (s: String)
        ensures
            s@ == text_input_debug(self@),
    {
        let mut s = String::from_str("RssTextInputElement { title: ");
        push_option_debug(&mut s, self.title);
        s.append(", description: ");
        push_option_debug(&mut s, self.description);
        s.append(", name: ");
        push_option_debug(&mut s, self.name);
        s.append(", link: ");
        push_option_debug(&mut s, self.link);
        s.append(" }");
        s
    }
}


impl<'a> RssItemCategory<'a> {
    /// The value as `{:?}` prints it.
    pub fn to_debug_string(&self) -> (s: String)
        ensures
            s@ == category_debug(self@),
    {
        let mut s = String::from_str("RssItemCategory { domain: ");
        push_option_debug(&mut s, self.domain);
        s.append(", value: ");
        push_option_debug(&mut s, self.value);
        s.append(" }");
        s
    }
}


impl<'a> RssItemEnclosure<'a> {
    /// The value as `{:?}` prints it.
    pub fn to_debug_string(&self) -> (s: String)
        ensures
            s@ == enclosure_debug(self@),
    {
        let mut s = String::from_str("RssItemEnclosure { url: ");
        push_option_debug(&mut s, self.url);
        s.append(", length: ");
        push_option_debug(&mut s, self.length);
        s.append(", enclosure_type: ");
        push_option_debug(&mut s, self.enclosure_type);
        s.append(" }");
        s
    }
}


impl<'a> RssItemGuid<'a> {
    /// The value as `{:?}` prints it.
    pub fn to_debug_string(&self) -> (s: String)
        ensures
            s@ == guid_debug(self@),
    {
        let mut s = String::from_str("RssItemGuid { is_perma_link: ");
        push_option_debug(&mut s, self.is_perma_link);
        s.append(", value: ");
        push_option_debug(&mut s, self.value);
        s.append(" }");
        s
    }
}


impl<'a> RssItemSource<'a> {
    /// The value as `{:?}` prints it.
    pub fn to_debug_string(&self) -> (s: String)
        ensures
            s@ == source_debug(self@),
    {
        let mut s = String::from_str("RssItemSource { url: ");
        push_option_debug(&mut s, self.url);
        s.append(", value: ");
        push_option_debug(&mut s, self.value);
        s.append(" }");
        s
    }
}


impl<'a> RssChannel<'a> {
    /// The channel as text: its name, then one line for each field that is
    /// present.
    pub fn to_string(&self) -> (s: String)
        ensures
            s@ == channel_rendering(self@),
    {
        let mut s = String::from_str("Channel\n");
        push_line(&mut s, "Title: ", self.title);
        push_line(&mut s, "Link: ", self.link);
        push_line(&mut s, "Description: ", self.description);
        push_line(&mut s, "Language: ", self.language);
        push_line(&mut s, "Copyright: ", self.copyright);
        push_line(&mut s, "Managing editor: ", self.managing_editor);
        push_line(&mut s, "Web master: ", self.web_master);
        push_line(&mut s, "Pub date: ", self.pub_date);
        push_line(&mut s, "Last build date: ", self.last_build_date);
        push_line(&mut s, "Category: ", self.category);
        push_line(&mut s, "Generator: ", self.generator);
        push_line(&mut s, "Docs: ", self.docs);
        push_debug_line(&mut s, "Cloud: ", self.cloud);
        push_debug_line(&mut s, "Ttl: ", self.ttl);
        let image_shown: Option<String> = match &self.image {
            Some(x) => Some(x.to_debug_string()),
            None => None,
        };
        push_line(
            &mut s,
            "Image: ",
            match &image_shown {
                Some(x) => Some(x.as_str()),
                None => None,
            },
        );
        push_line(&mut s, "Rating: ", self.rating);
        let text_input_shown: Option<String> = match &self.text_input {
            Some(x) => Some(x.to_debug_string()),
            None => None,
        };
        push_line(
            &mut s,
            "Text input: ",
            match &text_input_shown {
                Some(x) => Some(x.as_str()),
                None => None,
            },
        );
        push_line(&mut s, "Skip hours: ", self.skip_hours);
        push_line(&mut s, "Skip days: ", self.skip_days);
        s
    }
}


impl<'a> RssItem<'a> {
    /// The item as text: its name, then one line for each field that is
    /// present.
    pub fn to_string(&self) -> (s: String)
        ensures
            s@ == item_rendering(self@),
    {
        let mut s = String::from_str("Item\n");
        push_line(&mut s, "Title: ", self.title);
        push_line(&mut s, "Link: ", self.link);
        push_line(&mut s, "Description: ", self.description);
        push_line(&mut s, "Author: ", self.author);
        let category_shown: Option<String> = match &self.category {
            Some(x) => Some(x.to_debug_string()),
            None => None,
        };
        push_line(
            &mut s,
            "Category: ",
            match &category_shown {
                Some(x) => Some(x.as_str()),
                None => None,
            },
        );
        push_line(&mut s, "Comments: ", self.comments);
        let enclosure_shown: Option<String> = match &self.enclosure {
            Some(x) => Some(x.to_debug_string()),
            None => None,
        };
        push_line(
            &mut s,
            "Enclosure: ",
            match &enclosure_shown {
                Some(x) => Some(x.as_str()),
                None => None,
            },
        );
        let guid_shown: Option<String> = match &self.guid {
            Some(x) => Some(x.to_debug_string()),
            None => None,
        };
        push_line(
            &mut s,
            "Guid: ",
            match &guid_shown {
                Some(x) => Some(x.as_str()),
                None => None,
            },
        );
        push_line(&mut s, "Pub date: ", self.pub_date);
        let source_shown: Option<String> = match &self.source {
            Some(x) => Some(x.to_debug_string()),
            None => None,
        };
        push_line(
            &mut s,
            "Source: ",
            match &source_shown {
                Some(x) => Some(x.as_str()),
                None => None,
            },
        );
        s
    }
}

// ---------------------------------------------------------------------------
// The reader's rules, over values.

/// A start tag whose attributes are still being read: its raw name and its
/// attributes so far.
pub struct PendingView {
    pub name: Seq<u8>,
    pub attrs: Seq<(Seq<u8>, Seq<u8>)>,
}

/// What the reader has built: the open elements with their raw names, the
/// namespace bindings each open element brought, the channel and the items.
pub struct DocView {
    pub stack: Seq<(RssElement, Seq<u8>)>,
    pub scopes: Seq<Seq<(Seq<u8>, Namespace)>>,
    pub channel: ChannelView,
    pub items: Seq<ItemView>,
}

/// Why a token stops the reader: text that is not UTF-8, or an end tag whose
/// raw name is not that of the innermost open element (both raw names kept).
pub enum Failure {
    Utf8,
    Mismatch { expected: Seq<u8>, found: Seq<u8> },
}

/// The error value a failure is reported as.
pub open spec fn failure_error(f: Failure) -> ErrorView {
    match f {
        Failure::Utf8 => ErrorView::Utf8Parse,
        Failure::Mismatch { expected, found } => ErrorView::ElementMismatch {
            expected: utf8_lossy(expected),
            found: utf8_lossy(found),
        },
    }
}

/// What one token does: the reader goes on with a new document and pending
/// tag, it fails, or it stops the program (an attribute end with no start
/// tag, or an end tag with no open element).
pub enum Handled {
    Next(DocView, Option<PendingView>),
    Fail(Failure),
    Stuck,
}

/// `xmlns:`.
pub open spec fn xmlns_prefix() -> Seq<u8> {
    ascii("xmlns:"@)
}

/// Whether `name` begins with `xmlns:`.
pub open spec fn is_xmlns(name: Seq<u8>) -> bool {
    name.len() >= 6 && name.subrange(0, 6) == xmlns_prefix()
}

/// The bindings that the `xmlns:` attributes among `attrs` make, in order.
pub open spec fn bindings(attrs: Seq<(Seq<u8>, Seq<u8>)>) -> Seq<(Seq<u8>, Namespace)>
    decreases attrs.len(),
{
    if attrs.len() == 0 {
        Seq::empty()
    } else {
        let rest = bindings(attrs.drop_last());
        let (name, value) = attrs.last();
        if is_xmlns(name) {
            rest.push((name.subrange(6, name.len() as int), namespace_of(value)))
        } else {
            rest
        }
    }
}

/// The namespace the first binding of `prefix` in `scope` names, if any.
pub open spec fn find_in_scope(scope: Seq<(Seq<u8>, Namespace)>, prefix: Seq<u8>) -> Option<
    Namespace,
>
    decreases scope.len(),
{
    if scope.len() == 0 {
        None
    } else if scope[0].0 == prefix {
        Some(scope[0].1)
    } else {
        find_in_scope(scope.subrange(1, scope.len() as int), prefix)
    }
}

/// The namespace `prefix` is bound to by the innermost scope that binds it;
/// `Custom` when none does.
pub open spec fn lookup(scopes: Seq<Seq<(Seq<u8>, Namespace)>>, prefix: Seq<u8>) -> Namespace
    decreases scopes.len(),
{
    if scopes.len() == 0 {
        Namespace::Custom
    } else {
        match find_in_scope(scopes.last(), prefix) {
            Some(ns) => ns,
            None => lookup(scopes.drop_last(), prefix),
        }
    }
}

/// A raw name split at its first `:`: the namespace its prefix is bound to
/// and its local name; a name without `:` is an RSS name.
pub open spec fn resolved(scopes: Seq<Seq<(Seq<u8>, Namespace)>>, raw: Seq<u8>) -> (
    Namespace,
    Seq<u8>,
) {
    let c = until_byte(raw, 0, COLON);
    if c < raw.len() {
        (lookup(scopes, raw.subrange(0, c)), raw.subrange(c + 1, raw.len() as int))
    } else {
        (Namespace::Rss, raw)
    }
}

/// The element a local name stands for in namespace `ns`.
pub open spec fn element_in(name: Seq<u8>, ns: Namespace) -> RssElement {
    match ns {
        Namespace::Rss => rss_element(name),
        Namespace::Atom => RssElement::Atom(atom_element(name)),
        Namespace::DublinCore => RssElement::DublinCore(dublin_core_element(name)),
        _ => RssElement::Unknown,
    }
}

/// The channel and items after element `el` opens: an item starts a new item,
/// an image or a text input a new one in the channel, and a category, an
/// enclosure, a GUID or a source a new one in the last item, if there is one.
pub open spec fn opened(ch: ChannelView, items: Seq<ItemView>, el: RssElement) -> (
    ChannelView,
    Seq<ItemView>,
) {
    let n = items.len();
    match el {
        RssElement::Item => (ch, items.push(empty_item())),
        RssElement::Image => (ChannelView { image: Some(empty_image()), ..ch }, items),
        RssElement::TextInput => (ChannelView { text_input: Some(empty_text_input()), ..ch }, items),
        RssElement::Category => if n > 0 {
            (ch, items.update(n - 1, ItemView { category: Some(empty_pair()), ..items[n - 1] }))
        } else {
            (ch, items)
        },
        RssElement::Enclosure => if n > 0 {
            (ch, items.update(n - 1, ItemView { enclosure: Some(empty_enclosure()), ..items[n - 1] }))
        } else {
            (ch, items)
        },
        RssElement::Guid => if n > 0 {
            (ch, items.update(n - 1, ItemView { guid: Some(empty_pair()), ..items[n - 1] }))
        } else {
            (ch, items)
        },
        RssElement::Source => if n > 0 {
            (ch, items.update(n - 1, ItemView { source: Some(empty_pair()), ..items[n - 1] }))
        } else {
            (ch, items)
        },
        _ => (ch, items),
    }
}

/// The document once a start tag closes: the bindings its `xmlns:`
/// attributes make form a new scope, its raw name is resolved in it, and the
/// element opens; a self-closing tag closes again at once.
pub open spec fn close_start_tag(d: DocView, pt: PendingView, self_closing: bool) -> DocView {
    let scopes = d.scopes.push(bindings(pt.attrs));
    let (ns, local) = resolved(scopes, pt.name);
    let el = element_in(local, ns);
    let (channel, items) = opened(d.channel, d.items, el);
    if self_closing {
        DocView { stack: d.stack, scopes: d.scopes, channel, items }
    } else {
        DocView { stack: d.stack.push((el, pt.name)), scopes, channel, items }
    }
}

/// An image with text `t` in field `f` of the (innermost) element `last`.
pub open spec fn image_text(i: ImageView, last: RssElement, t: Seq<char>) -> ImageView {
    match last {
        RssElement::Title => ImageView { title: Some(t), ..i },
        RssElement::Link => ImageView { link: Some(t), ..i },
        RssElement::Description => ImageView { description: Some(t), ..i },
        RssElement::Url => ImageView { url: Some(t), ..i },
        RssElement::Width => ImageView { width: Some(t), ..i },
        RssElement::Height => ImageView { height: Some(t), ..i },
        _ => i,
    }
}

/// A text input box with text `t` in the field that element `last` names.
pub open spec fn text_input_text(x: TextInputView, last: RssElement, t: Seq<char>) -> TextInputView {
    match last {
        RssElement::Title => TextInputView { title: Some(t), ..x },
        RssElement::Link => TextInputView { link: Some(t), ..x },
        RssElement::Description => TextInputView { description: Some(t), ..x },
        RssElement::Name => TextInputView { name: Some(t), ..x },
        _ => x,
    }
}

/// The channel after text `t` is read inside element `last`, whose parent is
/// `parent`: inside an image or a text input, the title, link, description
/// (and for an image its URL, width and height, for a text input its name)
/// go there; otherwise each known element's text goes to the channel field
/// of that name.
pub open spec fn channel_text(
    c: ChannelView,
    last: RssElement,
    parent: Option<RssElement>,
    t: Seq<char>,
) -> ChannelView {
    let in_image = parent == Some(RssElement::Image) && (last == RssElement::Title || last
        == RssElement::Link || last == RssElement::Description || last == RssElement::Url || last
        == RssElement::Width || last == RssElement::Height);
    let in_text_input = parent == Some(RssElement::TextInput) && (last == RssElement::Title
        || last == RssElement::Link || last == RssElement::Description || last
        == RssElement::Name);
    if in_image {
        ChannelView {
            image: match c.image {
                Some(i) => Some(image_text(i, last, t)),
                None => None,
            },
            ..c
        }
    } else if in_text_input {
        ChannelView {
            text_input: match c.text_input {
                Some(x) => Some(text_input_text(x, last, t)),
                None => None,
            },
            ..c
        }
    } else {
        match last {
            RssElement::Title => ChannelView { title: Some(t), ..c },
            RssElement::Link => ChannelView { link: Some(t), ..c },
            RssElement::Description => ChannelView { description: Some(t), ..c },
            RssElement::Language => ChannelView { language: Some(t), ..c },
            RssElement::Copyright => ChannelView { copyright: Some(t), ..c },
            RssElement::ManagingEditor => ChannelView { managing_editor: Some(t), ..c },
            RssElement::WebMaster => ChannelView { web_master: Some(t), ..c },
            RssElement::PubDate => ChannelView { pub_date: Some(t), ..c },
            RssElement::LastBuildDate => ChannelView { last_build_date: Some(t), ..c },
            RssElement::Category => ChannelView { category: Some(t), ..c },
            RssElement::Generator => ChannelView { generator: Some(t), ..c },
            RssElement::Docs => ChannelView { docs: Some(t), ..c },
            RssElement::Cloud => ChannelView { cloud: Some(t), ..c },
            RssElement::Ttl => ChannelView { ttl: Some(t), ..c },
            RssElement::Rating => ChannelView { rating: Some(t), ..c },
            RssElement::SkipHours => ChannelView { skip_hours: Some(t), ..c },
            RssElement::SkipDays => ChannelView { skip_days: Some(t), ..c },
            _ => c,
        }
    }
}

/// A pair whose value is `t`, if there is a pair.
pub open spec fn pair_value(p: Option<PairView>, t: Seq<char>) -> Option<PairView> {
    match p {
        Some(x) => Some(PairView { value: Some(t), ..x }),
        None => None,
    }
}

/// An item after text `t` is read inside element `last`.
pub open spec fn item_text(i: ItemView, last: RssElement, t: Seq<char>) -> ItemView {
    match last {
        RssElement::Title => ItemView { title: Some(t), ..i },
        RssElement::Link => ItemView { link: Some(t), ..i },
        RssElement::Description => ItemView { description: Some(t), ..i },
        RssElement::Author => ItemView { author: Some(t), ..i },
        RssElement::DublinCore(DublinCoreLegacyNamespace::Creator) => ItemView { author: Some(t), ..i },
        RssElement::Category => ItemView { category: pair_value(i.category, t), ..i },
        RssElement::Comments => ItemView { comments: Some(t), ..i },
        RssElement::Guid => ItemView { guid: pair_value(i.guid, t), ..i },
        RssElement::PubDate => ItemView { pub_date: Some(t), ..i },
        RssElement::Source => ItemView { source: pair_value(i.source, t), ..i },
        _ => i,
    }
}

/// The document after text `t` is read: before the first item it goes to the
/// channel, after that to the last item, by the innermost open element.
pub open spec fn add_text(d: DocView, t: Seq<char>) -> DocView {
    let n = d.stack.len();
    if n == 0 {
        d
    } else {
        let last = d.stack[n - 1].0;
        let parent = if n > 1 {
            Some(d.stack[n - 2].0)
        } else {
            None
        };
        let k = d.items.len();
        if k == 0 {
            DocView { channel: channel_text(d.channel, last, parent, t), ..d }
        } else {
            DocView { items: d.items.update(k - 1, item_text(d.items[k - 1], last, t)), ..d }
        }
    }
}

/// What token `tok` does to the document `d` with pending start tag `pending`.
pub open spec fn handle(d: DocView, pending: Option<PendingView>, tok: Result<TokenView, XmlError>) -> Handled {
    match tok {
        Ok(TokenView::StartTag(name)) => Handled::Next(
            d,
            Some(PendingView { name, attrs: Seq::empty() }),
        ),
        Ok(TokenView::Attribute { name, value }) => match pending {
            Some(pt) => Handled::Next(
                d,
                Some(PendingView { name: pt.name, attrs: pt.attrs.push((name, value)) }),
            ),
            None => Handled::Next(d, None),
        },
        Ok(TokenView::TagEnd { self_closing }) => match pending {
            Some(pt) => Handled::Next(close_start_tag(d, pt, self_closing), None),
            None => Handled::Stuck,
        },
        Ok(TokenView::EndTag(name)) => {
            let n = d.stack.len();
            if n == 0 {
                Handled::Stuck
            } else if name == d.stack[n - 1].1 {
                Handled::Next(
                    DocView { stack: d.stack.drop_last(), scopes: d.scopes.drop_last(), ..d },
                    pending,
                )
            } else {
                Handled::Fail(Failure::Mismatch { expected: d.stack[n - 1].1, found: name })
            }
        },
        Ok(TokenView::Text(data)) => match decode(data) {
            Some(t) => Handled::Next(add_text(d, t), pending),
            None => Handled::Fail(Failure::Utf8),
        },
        Ok(TokenView::CharacterData(data)) => match decode(data) {
            Some(t) => Handled::Next(add_text(d, t), pending),
            None => Handled::Fail(Failure::Utf8),
        },
        _ => Handled::Next(d, pending),
    }
}

/// Where reading the rest of a document ends: at the end of the input with a
/// document, with a failure (the document as it was before the failing
/// token), stopping the program, or not within the given number of tokens.
pub enum Outcome {
    Done(DocView),
    Failed(DocView, Failure),
    Stuck,
    OutOfFuel,
}

/// Reading tokens from position `p` in state `st` of input `s`, at most
/// `fuel` of them.
pub open spec fn run(
    s: Seq<u8>,
    p: int,
    st: XmlState,
    d: DocView,
    pending: Option<PendingView>,
    fuel: nat,
) -> Outcome
    decreases fuel,
{
    if p >= s.len() {
        Outcome::Done(d)
    } else if fuel == 0 {
        Outcome::OutOfFuel
    } else if step_halts(s, p, st) {
        Outcome::Stuck
    } else {
        let (p2, st2, item) = step(s, p, st);
        match item {
            Some(tok) => match handle(d, pending, tok) {
                Handled::Next(d2, pending2) => run(s, p2, st2, d2, pending2, (fuel - 1) as nat),
                Handled::Fail(f) => Outcome::Failed(d, f),
                Handled::Stuck => Outcome::Stuck,
            },
            None => Outcome::Done(d),
        }
    }
}

/// Reading from there comes to an end within `fuel` tokens, with a document
/// or a failure.
pub open spec fn ends_within(
    s: Seq<u8>,
    p: int,
    st: XmlState,
    d: DocView,
    pending: Option<PendingView>,
    fuel: nat,
) -> bool {
    run(s, p, st, d, pending, fuel) is Done || run(s, p, st, d, pending, fuel) is Failed
}

// ---------------------------------------------------------------------------
// The reader.

/// The reader: a tokenizer, the open elements with their raw names, the
/// namespace bindings each open element brought, the channel and the items.
pub struct RssFeedParser<'a> {
    tokenizer: XmlTokenizer<'a>,
    open_element_stack: Vec<(RssElement, &'a [u8])>,
    namespace_stack: Vec<Vec<NamespaceBinding<'a>>>,
    pub channel: RssChannel<'a>,
    pub items: Vec<RssItem<'a>>,
}

/// A start tag whose attributes are still being read.
struct PendingTag<'a> {
    raw_name: &'a [u8],
    attrs: Vec<(&'a [u8], &'a [u8])>,
}

/// The bindings of a scope, taken as values.
pub closed spec fn scope_view(v: Vec<NamespaceBinding>) -> Seq<(Seq<u8>, Namespace)> {
    v@.map_values(|b: NamespaceBinding| (b.prefix@, b.ns))
}

/// The bindings of a scope held as a sequence, taken as values.
closed spec fn scope_view_of(v: Seq<NamespaceBinding>) -> Seq<(Seq<u8>, Namespace)> {
    v.map_values(|b: NamespaceBinding| (b.prefix@, b.ns))
}

/// Attributes taken as values.
pub open spec fn attrs_view(v: Seq<(&[u8], &[u8])>) -> Seq<(Seq<u8>, Seq<u8>)> {
    v.map_values(|a: (&[u8], &[u8])| (a.0@, a.1@))
}

/// A pending start tag taken as values.
closed spec fn pending_view(p: Option<PendingTag>) -> Option<PendingView> {
    match p {
        Some(t) => Some(PendingView { name: t.raw_name@, attrs: attrs_view(t.attrs@) }),
        None => None,
    }
}

/// A token taken as values.
pub open spec fn token_view(t: Result<XmlToken, XmlError>) -> Result<TokenView, XmlError> {
    match t {
        Ok(x) => Ok(x@),
        Err(e) => Err(e),
    }
}

/// The document with no open element, no channel text and no item.
pub open spec fn empty_doc() -> DocView {
    DocView { stack: Seq::empty(), scopes: Seq::empty(), channel: empty_channel(), items: Seq::empty() }
}

impl<'a> RssFeedParser<'a> {
    /// What the reader has built so far.
    pub closed spec fn doc(&self) -> DocView {
        DocView {
            stack: self.open_element_stack@.map_values(|e: (RssElement, &[u8])| (e.0, e.1@)),
            scopes: self.namespace_stack@.map_values(|v: Vec<NamespaceBinding>| scope_view(v)),
            channel: self.channel@,
            items: self.items@.map_values(|i: RssItem| i@),
        }
    }

    /// The input being read.
    pub closed spec fn input(&self) -> Seq<u8> {
        self.tokenizer.input()
    }

    /// The tokenizer's position.
    pub closed spec fn at(&self) -> int {
        self.tokenizer.at()
    }

    /// The tokenizer's state.
    pub closed spec fn tokenizer_state(&self) -> XmlState {
        self.tokenizer.current_state()
    }

    /// The tokenizer stands inside its input, and every open element has its
    /// scope of bindings.
    pub closed spec fn wf(&self) -> bool {
        &&& self.tokenizer.wf()
        &&& self.open_element_stack.len() == self.namespace_stack.len()
    }

    /// A reader that starts reading with tokenizer `tokenizer`: nothing open,
    /// an empty channel and no item.
    pub fn new(tokenizer: XmlTokenizer<'a>) -> (r: Self)
        ensures
            r.input() == tokenizer.input(),
            r.at() == tokenizer.at(),
            r.tokenizer_state() == tokenizer.current_state(),
            r.wf() == tokenizer.wf(),
            r.doc() == empty_doc(),
    {
        let r = RssFeedParser {
            tokenizer,
            open_element_stack: Vec::new(),
            namespace_stack: Vec::new(),
            channel: RssChannel::default(),
            items: Vec::new(),
        };
        proof {
            assert(r.doc().stack =~= Seq::<(RssElement, Seq<u8>)>::empty());
            assert(r.doc().scopes =~= Seq::<Seq<(Seq<u8>, Namespace)>>::empty());
            assert(r.doc().items =~= Seq::<ItemView>::empty());
        }
        r
    }
}

impl<'a> From<XmlTokenizer<'a>> for RssFeedParser<'a> {
    /// The reader of `new`.
    fn from(value: XmlTokenizer<'a>) -> (r: Self)
        ensures
            r.input() == value.input(),
            r.at() == value.at(),
            r.tokenizer_state() == value.current_state(),
            r.wf() == value.wf(),
            r.doc() == empty_doc(),
    {
        RssFeedParser::new(value)
    }
}

/// The reader holds `Vec`s, and two `Vec`s with the same contents are not
/// known to be one value, so no single reader is named here: what `from`
/// returns is stated in its own `ensures`.
impl<'a> vstd::std_specs::convert::FromSpecImpl<XmlTokenizer<'a>> for RssFeedParser<'a> {
    open spec fn obeys_from_spec() -> bool {
        false
    }

    open spec fn from_spec(v: XmlTokenizer<'a>) -> Self {
        choose|p: Self| p.input() == v.input()
    }
}

impl<'a> RssFeedParser<'a> {
    /// Decodes `bytes` as UTF-8 text.
    fn parse_str(bytes: &'a [u8]) -> (r: Result<&'a str, Error>)
        ensures
            match r {
                Ok(t) => decode(bytes@) == Some(t@),
                Err(e) => decode(bytes@) is None && e@ == ErrorView::Utf8Parse,
            },
    {
        match decode_str(bytes) {
            Ok(t) => Ok(t),
            Err(e) => Err(Error::from(e)),
        }
    }

    /// The namespace that `prefix` is bound to in the innermost scope that
    /// binds it.
    fn lookup_prefix(&self, prefix: &[u8]) -> (ns: Namespace)
        ensures
            ns == lookup(self.doc().scopes, prefix@),
    {
        let ghost scopes = self.doc().scopes;
        let mut k = self.namespace_stack.len();
        assert(scopes.take(k as int) =~= scopes);
        while k > 0
            invariant
                scopes == self.doc().scopes,
                k <= scopes.len(),
                lookup(scopes, prefix@) == lookup(scopes.take(k as int), prefix@),
            decreases k,
        {
            let scope = &self.namespace_stack[k - 1];
            let ghost sc = scope_view(*scope);
            assert(sc == scopes[k - 1]);
            assert(sc.subrange(0, sc.len() as int) =~= sc);
            assert(scopes.take(k as int).last() == sc) by {
                assert(scopes.take(k as int).len() == k);
                assert(scopes.take(k as int)[k - 1] == scopes[k - 1]);
            }
            let mut j: usize = 0;
            while j < scope.len()
                invariant
                    sc == scope_view(*scope),
                    scopes == self.doc().scopes,
                    0 < k <= scopes.len(),
                    scopes.take(k as int).last() == sc,
                    lookup(scopes, prefix@) == lookup(scopes.take(k as int), prefix@),
                    j <= scope.len(),
                    find_in_scope(sc, prefix@) == find_in_scope(sc.subrange(j as int, sc.len() as int), prefix@),
                decreases scope.len() - j,
            {
                let b = &scope[j];
                assert(sc[j as int] == (b.prefix@, b.ns));
                if bytes_eq(b.prefix, prefix) {
                    return b.ns;
                }
                assert(sc.subrange(j as int, sc.len() as int).subrange(1, sc.len() - j) =~= sc.subrange(
                    j + 1,
                    sc.len() as int,
                ));
                j += 1;
            }
            proof {
                assert(sc.subrange(sc.len() as int, sc.len() as int) =~= Seq::<(Seq<u8>, Namespace)>::empty());
                assert(scopes.take(k as int).drop_last() =~= scopes.take(k - 1));
            }
            k -= 1;
        }
        proof {
            assert(scopes.take(0) =~= Seq::<Seq<(Seq<u8>, Namespace)>>::empty());
        }
        Namespace::Custom
    }

    /// Splits a raw name at its first `:` into the namespace its prefix is
    /// bound to and its local name; a name without `:` is an RSS name.
    fn resolve_namespace<'b>(&self, raw_name: &'b [u8]) -> (r: (Namespace, &'b [u8]))
        ensures
            (r.0, r.1@) == resolved(self.doc().scopes, raw_name@),
    {
        let mut i: usize = 0;
        while i < raw_name.len() && raw_name[i] != COLON
            invariant
                i <= raw_name.len(),
                forall|k: int| 0 <= k < i ==> #[trigger] raw_name@[k] != COLON,
            decreases raw_name.len() - i,
        {
            i += 1;
        }
        proof {
            lemma_until_byte(raw_name@, 0, i as int, COLON);
        }
        if i < raw_name.len() {
            let prefix = &raw_name[0..i];
            let local = &raw_name[i + 1..raw_name.len()];
            let ns = self.lookup_prefix(prefix);
            (ns, local)
        } else {
            (Namespace::Rss, raw_name)
        }
    }

    /// The element that local name `name` stands for in namespace `ns`.
    fn parse_element_using_namespace(name: &'a [u8], ns: Namespace) -> (e: RssElement)
        ensures
            e == element_in(name@, ns),
    {
        match ns {
            Namespace::Rss => RssElement::from(name),
            Namespace::Atom => RssElement::Atom(AtomElement::from(name)),
            Namespace::DublinCore => RssElement::DublinCore(DublinCoreLegacyNamespace::from(name)),
            _ => RssElement::Unknown,
        }
    }
}

impl<'a> RssFeedParser<'a> {
    /// The bindings that the `xmlns:` attributes among `attrs` make.
    fn collect_bindings(attrs: &Vec<(&'a [u8], &'a [u8])>) -> (v: Vec<NamespaceBinding<'a>>)
        ensures
            scope_view(v) == bindings(attrs_view(attrs@)),
    {
        let x: [u8; 6] = [0x78, 0x6d, 0x6c, 0x6e, 0x73, COLON];
        proof {
            reveal_strlit("xmlns:");
            assert(x@ =~= xmlns_prefix());
        }
        let ghost all = attrs_view(attrs@);
        let mut v: Vec<NamespaceBinding<'a>> = Vec::new();
        let mut i: usize = 0;
        proof {
            assert(all.take(0) =~= Seq::<(Seq<u8>, Seq<u8>)>::empty());
            assert(scope_view(v) =~= Seq::<(Seq<u8>, Namespace)>::empty());
        }
        while i < attrs.len()
            invariant
                i <= attrs.len(),
                all == attrs_view(attrs@),
                x@ == xmlns_prefix(),
                scope_view(v) == bindings(all.take(i as int)),
            decreases attrs.len() - i,
        {
            let (name, value) = attrs[i];
            proof {
                assert(all.take(i + 1).drop_last() =~= all.take(i as int));
                assert(all.take(i + 1).last() == (name@, value@));
            }
            if name.len() >= 6 && bytes_eq(&name[0..6], x.as_slice()) {
                let b = NamespaceBinding { prefix: &name[6..name.len()], ns: Namespace::from_uri(value) };
                let ghost before = v@;
                v.push(b);
                proof {
                    assert(scope_view(v) =~= scope_view_of(before).push((b.prefix@, b.ns)));
                }
            }
            i += 1;
        }
        proof {
            assert(all.take(attrs.len() as int) =~= all);
        }
        v
    }

    /// Starts what element `el` starts: a new item, image or text input, or a
    /// new category, enclosure, GUID or source in the last item.
    fn open_element(&mut self, el: RssElement)
        ensures
            final(self).tokenizer == old(self).tokenizer,
            final(self).open_element_stack@ == old(self).open_element_stack@,
            final(self).namespace_stack@ == old(self).namespace_stack@,
            final(self).doc() == ({
                let (channel, items) = opened(old(self).doc().channel, old(self).doc().items, el);
                DocView { channel, items, ..old(self).doc() }
            }),
    {
        let ghost old_items = self.items@;
        match el {
            RssElement::Item => {
                self.items.push(RssItem::default());
                proof {
                    assert(self.doc().items =~= old(self).doc().items.push(empty_item()));
                }
            },
            RssElement::Image => {
                self.channel.image = Some(RssImageElement::default());
            },
            RssElement::TextInput => {
                self.channel.text_input = Some(RssTextInputElement::default());
            },
            RssElement::Category => {
                if self.items.len() > 0 {
                    let mut it = self.items.pop().unwrap();
                    it.category = Some(RssItemCategory::default());
                    self.items.push(it);
                    proof {
                        assert(self.doc().items =~= old(self).doc().items.update(
                            old_items.len() - 1,
                            ItemView { category: Some(empty_pair()), ..old(self).doc().items.last() },
                        ));
                    }
                }
            },
            RssElement::Enclosure => {
                if self.items.len() > 0 {
                    let mut it = self.items.pop().unwrap();
                    it.enclosure = Some(RssItemEnclosure::default());
                    self.items.push(it);
                    proof {
                        assert(self.doc().items =~= old(self).doc().items.update(
                            old_items.len() - 1,
                            ItemView { enclosure: Some(empty_enclosure()), ..old(self).doc().items.last() },
                        ));
                    }
                }
            },
            RssElement::Guid => {
                if self.items.len() > 0 {
                    let mut it = self.items.pop().unwrap();
                    it.guid = Some(RssItemGuid::default());
                    self.items.push(it);
                    proof {
                        assert(self.doc().items =~= old(self).doc().items.update(
                            old_items.len() - 1,
                            ItemView { guid: Some(empty_pair()), ..old(self).doc().items.last() },
                        ));
                    }
                }
            },
            RssElement::Source => {
                if self.items.len() > 0 {
                    let mut it = self.items.pop().unwrap();
                    it.source = Some(RssItemSource::default());
                    self.items.push(it);
                    proof {
                        assert(self.doc().items =~= old(self).doc().items.update(
                            old_items.len() - 1,
                            ItemView { source: Some(empty_pair()), ..old(self).doc().items.last() },
                        ));
                    }
                }
            },
            _ => {},
        }
    }
}

impl<'a> RssFeedParser<'a> {
    /// Closes a start tag: its `xmlns:` bindings form a new scope, its raw
    /// name is resolved and its element opens (and closes again at once when
    /// the tag closes itself).
    fn close_start_tag(&mut self, pt: PendingTag<'a>, self_closing: bool)
        ensures
            final(self).tokenizer == old(self).tokenizer,
            final(self).doc() == close_start_tag(
                old(self).doc(),
                PendingView { name: pt.raw_name@, attrs: attrs_view(pt.attrs@) },
                self_closing,
            ),
            final(self).open_element_stack.len() - final(self).namespace_stack.len()
                == old(self).open_element_stack.len() - old(self).namespace_stack.len(),
    {
        let ghost d = self.doc();
        let scope = Self::collect_bindings(&pt.attrs);
        let ghost sv = scope_view(scope);
        self.namespace_stack.push(scope);
        proof {
            assert(self.doc().scopes =~= d.scopes.push(sv));
        }
        let (ns, local) = self.resolve_namespace(pt.raw_name);
        let element = Self::parse_element_using_namespace(local, ns);
        self.open_element_stack.push((element, pt.raw_name));
        proof {
            assert(self.doc().stack =~= d.stack.push((element, pt.raw_name@)));
        }
        self.open_element(element);
        if self_closing {
            self.open_element_stack.pop();
            self.namespace_stack.pop();
            proof {
                assert(self.doc().stack =~= d.stack);
                assert(self.doc().scopes =~= d.scopes);
            }
        }
    }

    /// Puts text `t` into the image field that element `last` names.
    fn set_image_text(image: &mut RssImageElement<'a>, last: RssElement, t: &'a str)
        ensures
            final(image)@ == image_text(old(image)@, last, t@),
    {
        match last {
            RssElement::Title => image.title = Some(t),
            RssElement::Link => image.link = Some(t),
            RssElement::Description => image.description = Some(t),
            RssElement::Url => image.url = Some(t),
            RssElement::Width => image.width = Some(t),
            RssElement::Height => image.height = Some(t),
            _ => {},
        }
    }

    /// Puts text `t` into the text input field that element `last` names.
    fn set_text_input_text(x: &mut RssTextInputElement<'a>, last: RssElement, t: &'a str)
        ensures
            final(x)@ == text_input_text(old(x)@, last, t@),
    {
        match last {
            RssElement::Title => x.title = Some(t),
            RssElement::Link => x.link = Some(t),
            RssElement::Description => x.description = Some(t),
            RssElement::Name => x.name = Some(t),
            _ => {},
        }
    }

    /// Puts text `t`, read inside `last` (whose parent is `parent`), into the
    /// channel.
    fn set_channel_text(&mut self, last: RssElement, parent: Option<RssElement>, t: &'a str)
        ensures
            final(self).tokenizer == old(self).tokenizer,
            final(self).open_element_stack@ == old(self).open_element_stack@,
            final(self).namespace_stack@ == old(self).namespace_stack@,
            final(self).items@ == old(self).items@,
            final(self).channel@ == channel_text(old(self).channel@, last, parent, t@),
    {
        let parent_is_image = match parent {
            Some(RssElement::Image) => true,
            _ => false,
        };
        let parent_is_text_input = match parent {
            Some(RssElement::TextInput) => true,
            _ => false,
        };
        let in_image = parent_is_image && (last == RssElement::Title || last == RssElement::Link
            || last == RssElement::Description || last == RssElement::Url || last
            == RssElement::Width || last == RssElement::Height);
        let in_text_input = parent_is_text_input && (last == RssElement::Title || last
            == RssElement::Link || last == RssElement::Description || last == RssElement::Name);
        if in_image {
            match &mut self.channel.image {
                Some(image) => Self::set_image_text(image, last, t),
                None => {},
            }
        } else if in_text_input {
            match &mut self.channel.text_input {
                Some(x) => Self::set_text_input_text(x, last, t),
                None => {},
            }
        } else {
            match last {
                RssElement::Title => self.channel.title = Some(t),
                RssElement::Link => self.channel.link = Some(t),
                RssElement::Description => self.channel.description = Some(t),
                RssElement::Language => self.channel.language = Some(t),
                RssElement::Copyright => self.channel.copyright = Some(t),
                RssElement::ManagingEditor => self.channel.managing_editor = Some(t),
                RssElement::WebMaster => self.channel.web_master = Some(t),
                RssElement::PubDate => self.channel.pub_date = Some(t),
                RssElement::LastBuildDate => self.channel.last_build_date = Some(t),
                RssElement::Category => self.channel.category = Some(t),
                RssElement::Generator => self.channel.generator = Some(t),
                RssElement::Docs => self.channel.docs = Some(t),
                RssElement::Cloud => self.channel.cloud = Some(t),
                RssElement::Ttl => self.channel.ttl = Some(t),
                RssElement::Rating => self.channel.rating = Some(t),
                RssElement::SkipHours => self.channel.skip_hours = Some(t),
                RssElement::SkipDays => self.channel.skip_days = Some(t),
                _ => {},
            }
        }
    }

    /// Puts text `t`, read inside `last`, into item `item`.
    fn set_item_text(item: &mut RssItem<'a>, last: RssElement, t: &'a str)
        ensures
            final(item)@ == item_text(old(item)@, last, t@),
    {
        match last {
            RssElement::Title => item.title = Some(t),
            RssElement::Link => item.link = Some(t),
            RssElement::Description => item.description = Some(t),
            RssElement::Author => item.author = Some(t),
            RssElement::DublinCore(DublinCoreLegacyNamespace::Creator) => item.author = Some(t),
            RssElement::Category => match &mut item.category {
                Some(c) => c.value = Some(t),
                None => {},
            },
            RssElement::Comments => item.comments = Some(t),
            RssElement::Guid => match &mut item.guid {
                Some(g) => g.value = Some(t),
                None => {},
            },
            RssElement::PubDate => item.pub_date = Some(t),
            RssElement::Source => match &mut item.source {
                Some(x) => x.value = Some(t),
                None => {},
            },
            _ => {},
        }
    }

    /// Puts text `t` where the innermost open element says: into the channel
    /// before the first item, into the last item after it.
    fn add_text(&mut self, t: &'a str)
        ensures
            final(self).tokenizer == old(self).tokenizer,
            final(self).open_element_stack@ == old(self).open_element_stack@,
            final(self).namespace_stack@ == old(self).namespace_stack@,
            final(self).doc() == add_text(old(self).doc(), t@),
    {
        let n = self.open_element_stack.len();
        if n == 0 {
            return ;
        }
        let last = self.open_element_stack[n - 1].0;
        let parent = if n > 1 {
            Some(self.open_element_stack[n - 2].0)
        } else {
            None
        };
        if self.items.len() == 0 {
            self.set_channel_text(last, parent, t);
        } else {
            let ghost old_items = self.doc().items;
            let mut it = self.items.pop().unwrap();
            Self::set_item_text(&mut it, last, t);
            self.items.push(it);
            proof {
                assert(self.doc().items =~= old_items.update(
                    old_items.len() - 1,
                    item_text(old_items[old_items.len() - 1], last, t@),
                ));
            }
        }
    }
}

impl<'a> RssFeedParser<'a> {
    /// Applies one token to the reader, as `handle` says.
    fn handle_token(
        &mut self,
        pending: &mut Option<PendingTag<'a>>,
        token: Result<XmlToken<'a>, XmlError>,
    ) -> (r: Result<(), Error>)
        requires
            old(self).open_element_stack.len() == old(self).namespace_stack.len(),
            !(handle(old(self).doc(), pending_view(*old(pending)), token_view(token)) is Stuck),
        ensures
            final(self).tokenizer == old(self).tokenizer,
            final(self).open_element_stack.len() == final(self).namespace_stack.len(),
            match handle(old(self).doc(), pending_view(*old(pending)), token_view(token)) {
                Handled::Next(d, p) => r is Ok && final(self).doc() == d && pending_view(
                    *final(pending),
                ) == p,
                Handled::Fail(f) => r matches Err(e) && e@ == failure_error(f) && final(self).doc()
                    == old(self).doc(),
                Handled::Stuck => false,
            },
    {
        match token {
            Ok(XmlToken::StartTag(name)) => {
                *pending = Some(PendingTag { raw_name: name, attrs: Vec::new() });
                proof {
                    assert(attrs_view(pending->Some_0.attrs@) =~= Seq::<(Seq<u8>, Seq<u8>)>::empty());
                }
                Ok(())
            },
            Ok(XmlToken::Attribute { name, value }) => {
                match pending {
                    Some(pt) => {
                        let ghost before = pt.attrs@;
                        pt.attrs.push((name, value));
                        proof {
                            assert(attrs_view(pt.attrs@) =~= attrs_view(before).push((name@, value@)));
                        }
                    },
                    None => {},
                }
                Ok(())
            },
            Ok(XmlToken::TagEnd { self_closing }) => {
                match pending.take() {
                    Some(pt) => self.close_start_tag(pt, self_closing),
                    None => {},
                }
                Ok(())
            },
            Ok(XmlToken::EndTag(name)) => {
                let n = self.open_element_stack.len();
                if n == 0 {
                    return Ok(());
                }
                let previous = self.open_element_stack[n - 1].1;
                if bytes_eq(name, previous) {
                    let ghost d = self.doc();
                    self.open_element_stack.pop();
                    self.namespace_stack.pop();
                    proof {
                        assert(self.doc().stack =~= d.stack.drop_last());
                        assert(self.doc().scopes =~= d.scopes.drop_last());
                    }
                    Ok(())
                } else {
                    Err(
                        Error::ElementMismatch {
                            expected: lossy_string(previous),
                            found: lossy_string(name),
                        },
                    )
                }
            },
            Ok(XmlToken::Text(data)) => {
                let parsed = match Self::parse_str(data) {
                    Ok(t) => t,
                    Err(e) => return Err(e),
                };
                self.add_text(parsed);
                Ok(())
            },
            Ok(XmlToken::CharacterData(data)) => {
                let parsed = match Self::parse_str(data) {
                    Ok(t) => t,
                    Err(e) => return Err(e),
                };
                self.add_text(parsed);
                Ok(())
            },
            _ => Ok(()),
        }
    }
}

/// Some number of tokens within which reading from there comes to an end,
/// when there is one.
pub open spec fn fuel_for(
    s: Seq<u8>,
    p: int,
    st: XmlState,
    d: DocView,
    pending: Option<PendingView>,
) -> nat {
    choose|n: nat| ends_within(s, p, st, d, pending, n)
}

/// Reading from there comes to an end: the input is used up or a token
/// fails, and the program is never stopped on the way.
pub open spec fn ends(s: Seq<u8>, p: int, st: XmlState, d: DocView, pending: Option<PendingView>) -> bool {
    exists|n: nat| ends_within(s, p, st, d, pending, n)
}

impl<'a> RssFeedParser<'a> {
    /// Reading the rest of the input comes to an end (see `ends`).
    pub open spec fn reads_to_end(&self) -> bool {
        ends(self.input(), self.at(), self.tokenizer_state(), self.doc(), None)
    }

    /// Where reading the rest of the input ends.
    pub open spec fn outcome(&self) -> Outcome {
        run(
            self.input(),
            self.at(),
            self.tokenizer_state(),
            self.doc(),
            None,
            fuel_for(self.input(), self.at(), self.tokenizer_state(), self.doc(), None),
        )
    }

    /// Reads the rest of the input token by token (see `handle`), building
    /// the channel and the items. Tokens the tokenizer reports as errors are
    /// passed over. It stops with the first text that is not UTF-8 and with
    /// the first end tag that does not close the innermost open element.
    pub fn parse_rss_feed(&mut self) -> (r: Result<(), Error>)
        requires
            old(self).wf(),
            old(self).reads_to_end(),
        ensures
            final(self).wf(),
            final(self).input() == old(self).input(),
            match old(self).outcome() {
                Outcome::Done(d) => r is Ok && final(self).doc() == d && final(self).at()
                    == final(self).input().len(),
                Outcome::Failed(d, f) => r matches Err(e) && e@ == failure_error(f)
                    && final(self).doc() == d,
                _ => false,
            },
    {
        let ghost s = self.input();
        let ghost total = old(self).outcome();
        let ghost mut fuel: nat = fuel_for(s, self.at(), self.tokenizer_state(), self.doc(), None);
        let mut pending: Option<PendingTag<'a>> = None;
        proof {
            assert(pending_view(pending) == None::<PendingView>);
            assert(ends_within(s, self.at(), self.tokenizer_state(), self.doc(), None, fuel));
        }
        loop
            invariant
                self.wf(),
                self.input() == s,
                s == old(self).input(),
                total == old(self).outcome(),
                ends_within(s, self.at(), self.tokenizer_state(), self.doc(), pending_view(pending), fuel),
                run(s, self.at(), self.tokenizer_state(), self.doc(), pending_view(pending), fuel)
                    == total,
            decreases fuel,
        {
            let ghost p = self.at();
            let ghost st = self.tokenizer_state();
            let ghost d = self.doc();
            let ghost pv = pending_view(pending);
            proof {
                self.tokenizer.lemma_wf();
                crate::xml::tokens::law_exhausted_stays_exhausted(s, p, st);
            }
            let item = self.tokenizer.next();
            match item {
                None => {
                    return Ok(());
                },
                Some(token) => {
                    match self.handle_token(&mut pending, token) {
                        Ok(()) => {
                            proof {
                                fuel = (fuel - 1) as nat;
                            }
                        },
                        Err(e) => {
                            return Err(e);
                        },
                    }
                },
            }
        }
    }
}

impl<'a> RssFeedParser<'a> {
    /// Reads at most `limit` of the tokens left, as `parse_rss_feed` does;
    /// `None` where the tokenizer or the reader would stop the program, or
    /// the input is not used up within `limit` tokens (see `run`).
    pub fn parse_rss_feed_within(&mut self, limit: usize) -> (r: Option<Result<(), Error>>)
        requires
            old(self).wf(),
        ensures
            final(self).wf(),
            final(self).input() == old(self).input(),
            match run(old(self).input(), old(self).at(), old(self).tokenizer_state(), old(self).doc(), None, limit as nat) {
                Outcome::Done(d) => r matches Some(Ok(())) && final(self).doc() == d && final(self).at()
                    == final(self).input().len(),
                Outcome::Failed(d, f) => r matches Some(Err(e)) && e@ == failure_error(f)
                    && final(self).doc() == d,
                _ => r is None,
            },
    {
        let ghost s = self.input();
        let ghost total = run(s, self.at(), self.tokenizer_state(), self.doc(), None, limit as nat);
        let mut pending: Option<PendingTag<'a>> = None;
        let mut left = limit;
        proof {
            assert(pending_view(pending) == None::<PendingView>);
        }
        loop
            invariant
                self.wf(),
                self.input() == s,
                s == old(self).input(),
                total == run(s, old(self).at(), old(self).tokenizer_state(), old(self).doc(), None, limit as nat),
                run(s, self.at(), self.tokenizer_state(), self.doc(), pending_view(pending), left as nat)
                    == total,
            decreases left,
        {
            let ghost p = self.at();
            let ghost st = self.tokenizer_state();
            proof {
                self.tokenizer.lemma_wf();
                crate::xml::tokens::law_exhausted_stays_exhausted(s, p, st);
            }
            if self.tokenizer.halts_next() {
                return None;
            }
            let item = self.tokenizer.next();
            match item {
                None => {
                    return Some(Ok(()));
                },
                Some(token) => {
                    if left == 0 {
                        return None;
                    }
                    let stuck = match &token {
                        Ok(XmlToken::TagEnd { .. }) => pending.is_none(),
                        Ok(XmlToken::EndTag(_)) => self.open_element_stack.len() == 0,
                        _ => false,
                    };
                    if stuck {
                        return None;
                    }
                    match self.handle_token(&mut pending, token) {
                        Ok(()) => {
                            left = left - 1;
                        },
                        Err(e) => {
                            return Some(Err(e));
                        },
                    }
                },
            }
        }
    }
}

// ---------------------------------------------------------------------------
// Laws of the reader.

/// Every open element has its scope of namespace bindings: a token that the
/// reader goes on from keeps the open elements and the scopes equally many.
pub proof fn law_token_keeps_scopes_aligned(d: DocView, pending: Option<PendingView>, tok: Result<TokenView, XmlError>)
    requires
        d.stack.len() == d.scopes.len(),
    ensures
        handle(d, pending, tok) matches Handled::Next(d2, _) ==> d2.stack.len() == d2.scopes.len(),
{
}

/// An element opened by a start tag that does not close itself is closed
/// again by the end tag of the same raw name: the open elements and scopes
/// are those from before the start tag.
pub proof fn law_end_tag_closes_start_tag(d: DocView, pt: PendingView)
    requires
        d.stack.len() == d.scopes.len(),
    ensures
        ({
            let d1 = close_start_tag(d, pt, false);
            &&& handle(d1, None, Ok(TokenView::EndTag(pt.name))) matches Handled::Next(d2, p2)
            &&& d2.stack == d.stack
            &&& d2.scopes == d.scopes
            &&& p2 is None
        }),
{
    let d1 = close_start_tag(d, pt, false);
    assert(d1.stack.drop_last() =~= d.stack);
    assert(d1.scopes.drop_last() =~= d.scopes);
}

/// A self-closing start tag leaves the open elements and the scopes as they
/// were.
pub proof fn law_self_closing_tag_leaves_stack(d: DocView, pt: PendingView)
    ensures
        close_start_tag(d, pt, true).stack == d.stack,
        close_start_tag(d, pt, true).scopes == d.scopes,
{
}

/// An end tag whose raw name differs from that of the innermost open element
/// makes the reader fail with both names, and changes nothing.
pub proof fn law_mismatched_end_tag_fails(d: DocView, pending: Option<PendingView>, name: Seq<u8>)
    requires
        d.stack.len() > 0,
        name != d.stack.last().1,
    ensures
        handle(d, pending, Ok(TokenView::EndTag(name))) == Handled::Fail(
            Failure::Mismatch { expected: d.stack.last().1, found: name },
        ),
{
}

// ---------------------------------------------------------------------------
// Laws of where text goes.

/// Each local name stands for the RSS element of that name, and no other
/// name stands for it.
pub proof fn law_element_names(n: Seq<u8>)
    ensures
        (rss_element(n) == RssElement::Rss) == (n == seq![0x72u8, 0x73u8, 0x73u8]),
        (rss_element(n) == RssElement::Channel) == (n == seq![0x63u8, 0x68u8, 0x61u8, 0x6eu8, 0x6eu8, 0x65u8, 0x6cu8]),
        (rss_element(n) == RssElement::Item) == (n == seq![0x69u8, 0x74u8, 0x65u8, 0x6du8]),
        (rss_element(n) == RssElement::Title) == (n == seq![0x74u8, 0x69u8, 0x74u8, 0x6cu8, 0x65u8]),
        (rss_element(n) == RssElement::Link) == (n == seq![0x6cu8, 0x69u8, 0x6eu8, 0x6bu8]),
        (rss_element(n) == RssElement::Description) == (n == seq![0x64u8, 0x65u8, 0x73u8, 0x63u8, 0x72u8, 0x69u8, 0x70u8, 0x74u8, 0x69u8, 0x6fu8, 0x6eu8]),
        (rss_element(n) == RssElement::Language) == (n == seq![0x6cu8, 0x61u8, 0x6eu8, 0x67u8, 0x75u8, 0x61u8, 0x67u8, 0x65u8]),
        (rss_element(n) == RssElement::Copyright) == (n == seq![0x63u8, 0x6fu8, 0x70u8, 0x79u8, 0x72u8, 0x69u8, 0x67u8, 0x68u8, 0x74u8]),
        (rss_element(n) == RssElement::ManagingEditor) == (n == seq![0x6du8, 0x61u8, 0x6eu8, 0x61u8, 0x67u8, 0x69u8, 0x6eu8, 0x67u8, 0x45u8, 0x64u8, 0x69u8, 0x74u8, 0x6fu8, 0x72u8]),
        (rss_element(n) == RssElement::WebMaster) == (n == seq![0x77u8, 0x65u8, 0x62u8, 0x4du8, 0x61u8, 0x73u8, 0x74u8, 0x65u8, 0x72u8]),
        (rss_element(n) == RssElement::PubDate) == (n == seq![0x70u8, 0x75u8, 0x62u8, 0x44u8, 0x61u8, 0x74u8, 0x65u8]),
        (rss_element(n) == RssElement::LastBuildDate) == (n == seq![0x6cu8, 0x61u8, 0x73u8, 0x74u8, 0x42u8, 0x75u8, 0x69u8, 0x6cu8, 0x64u8, 0x44u8, 0x61u8, 0x74u8, 0x65u8]),
        (rss_element(n) == RssElement::Category) == (n == seq![0x63u8, 0x61u8, 0x74u8, 0x65u8, 0x67u8, 0x6fu8, 0x72u8, 0x79u8]),
        (rss_element(n) == RssElement::Generator) == (n == seq![0x67u8, 0x65u8, 0x6eu8, 0x65u8, 0x72u8, 0x61u8, 0x74u8, 0x6fu8, 0x72u8]),
        (rss_element(n) == RssElement::Docs) == (n == seq![0x64u8, 0x6fu8, 0x63u8, 0x73u8]),
        (rss_element(n) == RssElement::Cloud) == (n == seq![0x63u8, 0x6cu8, 0x6fu8, 0x75u8, 0x64u8]),
        (rss_element(n) == RssElement::Ttl) == (n == seq![0x74u8, 0x74u8, 0x6cu8]),
        (rss_element(n) == RssElement::Image) == (n == seq![0x69u8, 0x6du8, 0x61u8, 0x67u8, 0x65u8]),
        (rss_element(n) == RssElement::Rating) == (n == seq![0x72u8, 0x61u8, 0x74u8, 0x69u8, 0x6eu8, 0x67u8]),
        (rss_element(n) == RssElement::TextInput) == (n == seq![0x74u8, 0x65u8, 0x78u8, 0x74u8, 0x49u8, 0x6eu8, 0x70u8, 0x75u8, 0x74u8]),
        (rss_element(n) == RssElement::SkipHours) == (n == seq![0x73u8, 0x6bu8, 0x69u8, 0x70u8, 0x48u8, 0x6fu8, 0x75u8, 0x72u8, 0x73u8]),
        (rss_element(n) == RssElement::SkipDays) == (n == seq![0x73u8, 0x6bu8, 0x69u8, 0x70u8, 0x44u8, 0x61u8, 0x79u8, 0x73u8]),
        (rss_element(n) == RssElement::Author) == (n == seq![0x61u8, 0x75u8, 0x74u8, 0x68u8, 0x6fu8, 0x72u8]),
        (rss_element(n) == RssElement::Comments) == (n == seq![0x63u8, 0x6fu8, 0x6du8, 0x6du8, 0x65u8, 0x6eu8, 0x74u8, 0x73u8]),
        (rss_element(n) == RssElement::Enclosure) == (n == seq![0x65u8, 0x6eu8, 0x63u8, 0x6cu8, 0x6fu8, 0x73u8, 0x75u8, 0x72u8, 0x65u8]),
        (rss_element(n) == RssElement::Guid) == (n == seq![0x67u8, 0x75u8, 0x69u8, 0x64u8]),
        (rss_element(n) == RssElement::Source) == (n == seq![0x73u8, 0x6fu8, 0x75u8, 0x72u8, 0x63u8, 0x65u8]),
        (rss_element(n) == RssElement::Url) == (n == seq![0x75u8, 0x72u8, 0x6cu8]),
        (rss_element(n) == RssElement::Width) == (n == seq![0x77u8, 0x69u8, 0x64u8, 0x74u8, 0x68u8]),
        (rss_element(n) == RssElement::Height) == (n == seq![0x68u8, 0x65u8, 0x69u8, 0x67u8, 0x68u8, 0x74u8]),
        (rss_element(n) == RssElement::Name) == (n == seq![0x6eu8, 0x61u8, 0x6du8, 0x65u8]),
        rss_element(ascii("rss"@)) == RssElement::Rss,
        rss_element(ascii("channel"@)) == RssElement::Channel,
        rss_element(ascii("item"@)) == RssElement::Item,
        rss_element(ascii("title"@)) == RssElement::Title,
        rss_element(ascii("link"@)) == RssElement::Link,
        rss_element(ascii("description"@)) == RssElement::Description,
        rss_element(ascii("language"@)) == RssElement::Language,
        rss_element(ascii("copyright"@)) == RssElement::Copyright,
        rss_element(ascii("managingEditor"@)) == RssElement::ManagingEditor,
        rss_element(ascii("webMaster"@)) == RssElement::WebMaster,
        rss_element(ascii("pubDate"@)) == RssElement::PubDate,
        rss_element(ascii("lastBuildDate"@)) == RssElement::LastBuildDate,
        rss_element(ascii("category"@)) == RssElement::Category,
        rss_element(ascii("generator"@)) == RssElement::Generator,
        rss_element(ascii("docs"@)) == RssElement::Docs,
        rss_element(ascii("cloud"@)) == RssElement::Cloud,
        rss_element(ascii("ttl"@)) == RssElement::Ttl,
        rss_element(ascii("image"@)) == RssElement::Image,
        rss_element(ascii("rating"@)) == RssElement::Rating,
        rss_element(ascii("textInput"@)) == RssElement::TextInput,
        rss_element(ascii("skipHours"@)) == RssElement::SkipHours,
        rss_element(ascii("skipDays"@)) == RssElement::SkipDays,
        rss_element(ascii("author"@)) == RssElement::Author,
        rss_element(ascii("comments"@)) == RssElement::Comments,
        rss_element(ascii("enclosure"@)) == RssElement::Enclosure,
        rss_element(ascii("guid"@)) == RssElement::Guid,
        rss_element(ascii("source"@)) == RssElement::Source,
        rss_element(ascii("url"@)) == RssElement::Url,
        rss_element(ascii("width"@)) == RssElement::Width,
        rss_element(ascii("height"@)) == RssElement::Height,
        rss_element(ascii("name"@)) == RssElement::Name,
{
    reveal_strlit("rss");
    assert(ascii("rss"@) =~= seq![0x72u8, 0x73u8, 0x73u8]);
    reveal_strlit("channel");
    assert(ascii("channel"@) =~= seq![0x63u8, 0x68u8, 0x61u8, 0x6eu8, 0x6eu8, 0x65u8, 0x6cu8]);
    reveal_strlit("item");
    assert(ascii("item"@) =~= seq![0x69u8, 0x74u8, 0x65u8, 0x6du8]);
    reveal_strlit("title");
    assert(ascii("title"@) =~= seq![0x74u8, 0x69u8, 0x74u8, 0x6cu8, 0x65u8]);
    reveal_strlit("link");
    assert(ascii("link"@) =~= seq![0x6cu8, 0x69u8, 0x6eu8, 0x6bu8]);
    reveal_strlit("description");
    assert(ascii("description"@) =~= seq![0x64u8, 0x65u8, 0x73u8, 0x63u8, 0x72u8, 0x69u8, 0x70u8, 0x74u8, 0x69u8, 0x6fu8, 0x6eu8]);
    reveal_strlit("language");
    assert(ascii("language"@) =~= seq![0x6cu8, 0x61u8, 0x6eu8, 0x67u8, 0x75u8, 0x61u8, 0x67u8, 0x65u8]);
    reveal_strlit("copyright");
    assert(ascii("copyright"@) =~= seq![0x63u8, 0x6fu8, 0x70u8, 0x79u8, 0x72u8, 0x69u8, 0x67u8, 0x68u8, 0x74u8]);
    reveal_strlit("managingEditor");
    assert(ascii("managingEditor"@) =~= seq![0x6du8, 0x61u8, 0x6eu8, 0x61u8, 0x67u8, 0x69u8, 0x6eu8, 0x67u8, 0x45u8, 0x64u8, 0x69u8, 0x74u8, 0x6fu8, 0x72u8]);
    reveal_strlit("webMaster");
    assert(ascii("webMaster"@) =~= seq![0x77u8, 0x65u8, 0x62u8, 0x4du8, 0x61u8, 0x73u8, 0x74u8, 0x65u8, 0x72u8]);
    reveal_strlit("pubDate");
    assert(ascii("pubDate"@) =~= seq![0x70u8, 0x75u8, 0x62u8, 0x44u8, 0x61u8, 0x74u8, 0x65u8]);
    reveal_strlit("lastBuildDate");
    assert(ascii("lastBuildDate"@) =~= seq![0x6cu8, 0x61u8, 0x73u8, 0x74u8, 0x42u8, 0x75u8, 0x69u8, 0x6cu8, 0x64u8, 0x44u8, 0x61u8, 0x74u8, 0x65u8]);
    reveal_strlit("category");
    assert(ascii("category"@) =~= seq![0x63u8, 0x61u8, 0x74u8, 0x65u8, 0x67u8, 0x6fu8, 0x72u8, 0x79u8]);
    reveal_strlit("generator");
    assert(ascii("generator"@) =~= seq![0x67u8, 0x65u8, 0x6eu8, 0x65u8, 0x72u8, 0x61u8, 0x74u8, 0x6fu8, 0x72u8]);
    reveal_strlit("docs");
    assert(ascii("docs"@) =~= seq![0x64u8, 0x6fu8, 0x63u8, 0x73u8]);
    reveal_strlit("cloud");
    assert(ascii("cloud"@) =~= seq![0x63u8, 0x6cu8, 0x6fu8, 0x75u8, 0x64u8]);
    reveal_strlit("ttl");
    assert(ascii("ttl"@) =~= seq![0x74u8, 0x74u8, 0x6cu8]);
    reveal_strlit("image");
    assert(ascii("image"@) =~= seq![0x69u8, 0x6du8, 0x61u8, 0x67u8, 0x65u8]);
    reveal_strlit("rating");
    assert(ascii("rating"@) =~= seq![0x72u8, 0x61u8, 0x74u8, 0x69u8, 0x6eu8, 0x67u8]);
    reveal_strlit("textInput");
    assert(ascii("textInput"@) =~= seq![0x74u8, 0x65u8, 0x78u8, 0x74u8, 0x49u8, 0x6eu8, 0x70u8, 0x75u8, 0x74u8]);
    reveal_strlit("skipHours");
    assert(ascii("skipHours"@) =~= seq![0x73u8, 0x6bu8, 0x69u8, 0x70u8, 0x48u8, 0x6fu8, 0x75u8, 0x72u8, 0x73u8]);
    reveal_strlit("skipDays");
    assert(ascii("skipDays"@) =~= seq![0x73u8, 0x6bu8, 0x69u8, 0x70u8, 0x44u8, 0x61u8, 0x79u8, 0x73u8]);
    reveal_strlit("author");
    assert(ascii("author"@) =~= seq![0x61u8, 0x75u8, 0x74u8, 0x68u8, 0x6fu8, 0x72u8]);
    reveal_strlit("comments");
    assert(ascii("comments"@) =~= seq![0x63u8, 0x6fu8, 0x6du8, 0x6du8, 0x65u8, 0x6eu8, 0x74u8, 0x73u8]);
    reveal_strlit("enclosure");
    assert(ascii("enclosure"@) =~= seq![0x65u8, 0x6eu8, 0x63u8, 0x6cu8, 0x6fu8, 0x73u8, 0x75u8, 0x72u8, 0x65u8]);
    reveal_strlit("guid");
    assert(ascii("guid"@) =~= seq![0x67u8, 0x75u8, 0x69u8, 0x64u8]);
    reveal_strlit("source");
    assert(ascii("source"@) =~= seq![0x73u8, 0x6fu8, 0x75u8, 0x72u8, 0x63u8, 0x65u8]);
    reveal_strlit("url");
    assert(ascii("url"@) =~= seq![0x75u8, 0x72u8, 0x6cu8]);
    reveal_strlit("width");
    assert(ascii("width"@) =~= seq![0x77u8, 0x69u8, 0x64u8, 0x74u8, 0x68u8]);
    reveal_strlit("height");
    assert(ascii("height"@) =~= seq![0x68u8, 0x65u8, 0x69u8, 0x67u8, 0x68u8, 0x74u8]);
    reveal_strlit("name");
    assert(ascii("name"@) =~= seq![0x6eu8, 0x61u8, 0x6du8, 0x65u8]);
}

/// The text read inside an item's `title`, `link`, `description`,
/// `author` (or Dublin Core `creator`), `comments` or `pubDate` element goes to the item's field of
/// that name, and nowhere else; inside `category`, `guid` or `source` it is
/// the value of that pair, where the item has the pair.
pub proof fn law_item_text_goes_to_its_field(i: ItemView, t: Seq<char>)
    ensures
        item_text(i, RssElement::DublinCore(DublinCoreLegacyNamespace::Creator), t) == (ItemView {
            author: Some(t),
            ..i
        }),
        item_text(i, rss_element(ascii("title"@)), t) == (ItemView { title: Some(t), ..i }),
        item_text(i, rss_element(ascii("link"@)), t) == (ItemView { link: Some(t), ..i }),
        item_text(i, rss_element(ascii("description"@)), t) == (ItemView { description: Some(t), ..i }),
        item_text(i, rss_element(ascii("author"@)), t) == (ItemView { author: Some(t), ..i }),
        item_text(i, rss_element(ascii("comments"@)), t) == (ItemView { comments: Some(t), ..i }),
        item_text(i, rss_element(ascii("pubDate"@)), t) == (ItemView { pub_date: Some(t), ..i }),
        item_text(i, rss_element(ascii("category"@)), t) == (ItemView {
            category: match i.category {
                Some(x) => Some(PairView { value: Some(t), ..x }),
                None => None,
            },
            ..i
        }),
        item_text(i, rss_element(ascii("guid"@)), t) == (ItemView {
            guid: match i.guid {
                Some(x) => Some(PairView { value: Some(t), ..x }),
                None => None,
            },
            ..i
        }),
        item_text(i, rss_element(ascii("source"@)), t) == (ItemView {
            source: match i.source {
                Some(x) => Some(PairView { value: Some(t), ..x }),
                None => None,
            },
            ..i
        }),
{
    law_element_names(Seq::empty());
}

/// Outside an image and a text input, the text read inside a channel
/// element goes to the channel's field of the same name, and nowhere else.
pub proof fn law_channel_text_goes_to_its_field(c: ChannelView, parent: Option<RssElement>, t: Seq<char>)
    requires
        parent != Some(RssElement::Image),
        parent != Some(RssElement::TextInput),
    ensures
        channel_text(c, rss_element(ascii("title"@)), parent, t) == (ChannelView { title: Some(t), ..c }),
        channel_text(c, rss_element(ascii("link"@)), parent, t) == (ChannelView { link: Some(t), ..c }),
        channel_text(c, rss_element(ascii("description"@)), parent, t) == (ChannelView { description: Some(t), ..c }),
        channel_text(c, rss_element(ascii("language"@)), parent, t) == (ChannelView { language: Some(t), ..c }),
        channel_text(c, rss_element(ascii("copyright"@)), parent, t) == (ChannelView { copyright: Some(t), ..c }),
        channel_text(c, rss_element(ascii("managingEditor"@)), parent, t) == (ChannelView { managing_editor: Some(t), ..c }),
        channel_text(c, rss_element(ascii("webMaster"@)), parent, t) == (ChannelView { web_master: Some(t), ..c }),
        channel_text(c, rss_element(ascii("pubDate"@)), parent, t) == (ChannelView { pub_date: Some(t), ..c }),
        channel_text(c, rss_element(ascii("lastBuildDate"@)), parent, t) == (ChannelView { last_build_date: Some(t), ..c }),
        channel_text(c, rss_element(ascii("category"@)), parent, t) == (ChannelView { category: Some(t), ..c }),
        channel_text(c, rss_element(ascii("generator"@)), parent, t) == (ChannelView { generator: Some(t), ..c }),
        channel_text(c, rss_element(ascii("docs"@)), parent, t) == (ChannelView { docs: Some(t), ..c }),
        channel_text(c, rss_element(ascii("cloud"@)), parent, t) == (ChannelView { cloud: Some(t), ..c }),
        channel_text(c, rss_element(ascii("ttl"@)), parent, t) == (ChannelView { ttl: Some(t), ..c }),
        channel_text(c, rss_element(ascii("rating"@)), parent, t) == (ChannelView { rating: Some(t), ..c }),
        channel_text(c, rss_element(ascii("skipHours"@)), parent, t) == (ChannelView { skip_hours: Some(t), ..c }),
        channel_text(c, rss_element(ascii("skipDays"@)), parent, t) == (ChannelView { skip_days: Some(t), ..c }),
{
    law_element_names(Seq::empty());
}

/// Inside an image, the text of its `url`, `title`, `link`, `width`,
/// `height` and `description` goes to the image's field of that name, and
/// nowhere else.
pub proof fn law_image_text_goes_to_its_field(c: ChannelView, im: ImageView, t: Seq<char>)
    requires
        c.image == Some(im),
    ensures
        channel_text(c, rss_element(ascii("url"@)), Some(RssElement::Image), t) == (ChannelView { image: Some(ImageView { url: Some(t), ..im }), ..c }),
        channel_text(c, rss_element(ascii("title"@)), Some(RssElement::Image), t) == (ChannelView { image: Some(ImageView { title: Some(t), ..im }), ..c }),
        channel_text(c, rss_element(ascii("link"@)), Some(RssElement::Image), t) == (ChannelView { image: Some(ImageView { link: Some(t), ..im }), ..c }),
        channel_text(c, rss_element(ascii("width"@)), Some(RssElement::Image), t) == (ChannelView { image: Some(ImageView { width: Some(t), ..im }), ..c }),
        channel_text(c, rss_element(ascii("height"@)), Some(RssElement::Image), t) == (ChannelView { image: Some(ImageView { height: Some(t), ..im }), ..c }),
        channel_text(c, rss_element(ascii("description"@)), Some(RssElement::Image), t) == (ChannelView { image: Some(ImageView { description: Some(t), ..im }), ..c }),
{
    law_element_names(Seq::empty());
}

/// Inside a text input, the text of its `title`, `link`, `description` and
/// `name` goes to the text input's field of that name, and nowhere else.
pub proof fn law_text_input_text_goes_to_its_field(c: ChannelView, x: TextInputView, t: Seq<char>)
    requires
        c.text_input == Some(x),
    ensures
        channel_text(c, rss_element(ascii("title"@)), Some(RssElement::TextInput), t) == (ChannelView { text_input: Some(TextInputView { title: Some(t), ..x }), ..c }),
        channel_text(c, rss_element(ascii("link"@)), Some(RssElement::TextInput), t) == (ChannelView { text_input: Some(TextInputView { link: Some(t), ..x }), ..c }),
        channel_text(c, rss_element(ascii("description"@)), Some(RssElement::TextInput), t) == (ChannelView { text_input: Some(TextInputView { description: Some(t), ..x }), ..c }),
        channel_text(c, rss_element(ascii("name"@)), Some(RssElement::TextInput), t) == (ChannelView { text_input: Some(TextInputView { name: Some(t), ..x }), ..c }),
{
    law_element_names(Seq::empty());
}

/// A channel holding one plain text field is rendered as `Channel`, then
/// that field's label, its text and a line feed.
pub proof fn law_channel_rendering_labels(t: Seq<char>)
    ensures
        channel_rendering(ChannelView { title: Some(t), ..empty_channel() }) == "Channel\n"@ + "Title: "@ + t + "\n"@,
        channel_rendering(ChannelView { link: Some(t), ..empty_channel() }) == "Channel\n"@ + "Link: "@ + t + "\n"@,
        channel_rendering(ChannelView { description: Some(t), ..empty_channel() }) == "Channel\n"@ + "Description: "@ + t + "\n"@,
        channel_rendering(ChannelView { language: Some(t), ..empty_channel() }) == "Channel\n"@ + "Language: "@ + t + "\n"@,
        channel_rendering(ChannelView { copyright: Some(t), ..empty_channel() }) == "Channel\n"@ + "Copyright: "@ + t + "\n"@,
        channel_rendering(ChannelView { managing_editor: Some(t), ..empty_channel() }) == "Channel\n"@ + "Managing editor: "@ + t + "\n"@,
        channel_rendering(ChannelView { web_master: Some(t), ..empty_channel() }) == "Channel\n"@ + "Web master: "@ + t + "\n"@,
        channel_rendering(ChannelView { pub_date: Some(t), ..empty_channel() }) == "Channel\n"@ + "Pub date: "@ + t + "\n"@,
        channel_rendering(ChannelView { last_build_date: Some(t), ..empty_channel() }) == "Channel\n"@ + "Last build date: "@ + t + "\n"@,
        channel_rendering(ChannelView { category: Some(t), ..empty_channel() }) == "Channel\n"@ + "Category: "@ + t + "\n"@,
        channel_rendering(ChannelView { generator: Some(t), ..empty_channel() }) == "Channel\n"@ + "Generator: "@ + t + "\n"@,
        channel_rendering(ChannelView { docs: Some(t), ..empty_channel() }) == "Channel\n"@ + "Docs: "@ + t + "\n"@,
        channel_rendering(ChannelView { rating: Some(t), ..empty_channel() }) == "Channel\n"@ + "Rating: "@ + t + "\n"@,
        channel_rendering(ChannelView { skip_hours: Some(t), ..empty_channel() }) == "Channel\n"@ + "Skip hours: "@ + t + "\n"@,
        channel_rendering(ChannelView { skip_days: Some(t), ..empty_channel() }) == "Channel\n"@ + "Skip days: "@ + t + "\n"@,
{
    reveal(line);
    reveal(debug_line);
    assert(channel_rendering(ChannelView { title: Some(t), ..empty_channel() }) =~= "Channel\n"@ + "Title: "@ + t + "\n"@);
    assert(channel_rendering(ChannelView { link: Some(t), ..empty_channel() }) =~= "Channel\n"@ + "Link: "@ + t + "\n"@);
    assert(channel_rendering(ChannelView { description: Some(t), ..empty_channel() }) =~= "Channel\n"@ + "Description: "@ + t + "\n"@);
    assert(channel_rendering(ChannelView { language: Some(t), ..empty_channel() }) =~= "Channel\n"@ + "Language: "@ + t + "\n"@);
    assert(channel_rendering(ChannelView { copyright: Some(t), ..empty_channel() }) =~= "Channel\n"@ + "Copyright: "@ + t + "\n"@);
    assert(channel_rendering(ChannelView { managing_editor: Some(t), ..empty_channel() }) =~= "Channel\n"@ + "Managing editor: "@ + t + "\n"@);
    assert(channel_rendering(ChannelView { web_master: Some(t), ..empty_channel() }) =~= "Channel\n"@ + "Web master: "@ + t + "\n"@);
    assert(channel_rendering(ChannelView { pub_date: Some(t), ..empty_channel() }) =~= "Channel\n"@ + "Pub date: "@ + t + "\n"@);
    assert(channel_rendering(ChannelView { last_build_date: Some(t), ..empty_channel() }) =~= "Channel\n"@ + "Last build date: "@ + t + "\n"@);
    assert(channel_rendering(ChannelView { category: Some(t), ..empty_channel() }) =~= "Channel\n"@ + "Category: "@ + t + "\n"@);
    assert(channel_rendering(ChannelView { generator: Some(t), ..empty_channel() }) =~= "Channel\n"@ + "Generator: "@ + t + "\n"@);
    assert(channel_rendering(ChannelView { docs: Some(t), ..empty_channel() }) =~= "Channel\n"@ + "Docs: "@ + t + "\n"@);
    assert(channel_rendering(ChannelView { rating: Some(t), ..empty_channel() }) =~= "Channel\n"@ + "Rating: "@ + t + "\n"@);
    assert(channel_rendering(ChannelView { skip_hours: Some(t), ..empty_channel() }) =~= "Channel\n"@ + "Skip hours: "@ + t + "\n"@);
    assert(channel_rendering(ChannelView { skip_days: Some(t), ..empty_channel() }) =~= "Channel\n"@ + "Skip days: "@ + t + "\n"@);
}

/// An item holding one plain text field is rendered as `Item`, then that
/// field's label, its text and a line feed.
pub proof fn law_item_rendering_labels(t: Seq<char>)
    ensures
        item_rendering(ItemView { title: Some(t), ..empty_item() }) == "Item\n"@ + "Title: "@ + t + "\n"@,
        item_rendering(ItemView { link: Some(t), ..empty_item() }) == "Item\n"@ + "Link: "@ + t + "\n"@,
        item_rendering(ItemView { description: Some(t), ..empty_item() }) == "Item\n"@ + "Description: "@ + t + "\n"@,
        item_rendering(ItemView { author: Some(t), ..empty_item() }) == "Item\n"@ + "Author: "@ + t + "\n"@,
        item_rendering(ItemView { comments: Some(t), ..empty_item() }) == "Item\n"@ + "Comments: "@ + t + "\n"@,
        item_rendering(ItemView { pub_date: Some(t), ..empty_item() }) == "Item\n"@ + "Pub date: "@ + t + "\n"@,
{
    reveal(line);
    assert(item_rendering(ItemView { title: Some(t), ..empty_item() }) =~= "Item\n"@ + "Title: "@ + t + "\n"@);
    assert(item_rendering(ItemView { link: Some(t), ..empty_item() }) =~= "Item\n"@ + "Link: "@ + t + "\n"@);
    assert(item_rendering(ItemView { description: Some(t), ..empty_item() }) =~= "Item\n"@ + "Description: "@ + t + "\n"@);
    assert(item_rendering(ItemView { author: Some(t), ..empty_item() }) =~= "Item\n"@ + "Author: "@ + t + "\n"@);
    assert(item_rendering(ItemView { comments: Some(t), ..empty_item() }) =~= "Item\n"@ + "Comments: "@ + t + "\n"@);
    assert(item_rendering(ItemView { pub_date: Some(t), ..empty_item() }) =~= "Item\n"@ + "Pub date: "@ + t + "\n"@);
}

} // verus!
