//! A tokenizer with a state for each state of the HTML standard's
//! tokenization (<https://html.spec.whatwg.org/#tokenization>), over a
//! `&str`. As in `tokens`, runs of text are handed out as slices of the input
//! from a mark; the tokens and their values are those of `tokens`. Character
//! references by name are not looked up: their text is handed back as
//! written (inside an attribute's value, it is added to the value as
//! written).
//!
//! Each state is stated as a function from the tokenizer's state, taken as
//! values, to what the state does (`state_action`); `next_token` runs the
//! states as `run_states` says. Where the tokenizer would panic or never
//! return, the statement says `Stuck`.
use vstd::prelude::*;
use vstd::utf8::{encode_utf8, is_char_boundary};
use crate::bs::ascii;
use crate::html::byte_tokens::same_ignoring_case;
use crate::html::errors::Error;
use crate::cursor::StrCursor;
use vstd::std_specs::iter::IteratorSpec;
use crate::text::is_scalar;
use crate::html::tokens::{
    is_ws, is_alpha, lower_char, lower, fffd, Stop, stops, run_end, lemma_run_end, lt_text,
    lt_slash_text, replacement_text, chars_at, doctype_text, view_tag, view_doctype, view_text,
    peek_at, AttributeView, DoctypeView, TagView,
};
use crate::html::tokens::{map_chars, lower_cow, same_lower, stops_at, has_attribute_named};
use crate::html::tokens::{clone_text, clone_tag, clone_doctype, lower_char_exec};
pub use crate::html::state::TokenizationState;
pub use crate::html::tokens::{CowStr, Doctype, Attribute, Tag, HtmlToken, TokenView};

verus! {

// ---------------------------------------------------------------------------
// Characters and text.

/// An ASCII digit.
pub open spec fn is_digit(c: char) -> bool {
    '0' <= c && c <= '9'
}

/// An ASCII letter or digit.
pub open spec fn is_alnum(c: char) -> bool {
    is_alpha(c) || is_digit(c)
}

/// An ASCII hexadecimal digit.
pub open spec fn is_hex(c: char) -> bool {
    is_digit(c) || ('a' <= c && c <= 'f') || ('A' <= c && c <= 'F')
}

/// The value of hexadecimal digit `c`.
pub open spec fn hex_value(c: char) -> u32 {
    if is_digit(c) {
        ((c as u32) - 0x30) as u32
    } else if 'A' <= c && c <= 'F' {
        ((c as u32) - 0x37) as u32
    } else {
        ((c as u32) - 0x57) as u32
    }
}

/// How many characters at the end of `x` a run of kind `k` stops at.
pub open spec fn trail(x: Seq<char>, k: Stop) -> nat
    decreases x.len(),
{
    if x.len() > 0 && stops(k, x.last()) {
        1 + trail(x.drop_last(), k)
    } else {
        0
    }
}

/// `x` without the characters at its end that a run of kind `k` stops at,
/// as `trim_end_matches` leaves it.
pub open spec fn trimmed(x: Seq<char>, k: Stop) -> Seq<char> {
    x.take(x.len() - trail(x, k))
}

/// The number of characters `trail` counts is at most the length.
pub proof fn lemma_trail(x: Seq<char>, k: Stop)
    ensures
        trail(x, k) <= x.len(),
    decreases x.len(),
{
    if x.len() > 0 && stops(k, x.last()) {
        lemma_trail(x.drop_last(), k);
    }
}

/// What the scanning of a run reports for each character.
#[derive(PartialEq, Eq, Structural, Clone, Copy)]
pub enum Scan {
    /// Nothing.
    Quiet,
    /// A null character.
    Nuls,
    /// A quote or `<` in an attribute name.
    AttributeName,
    /// A null character, a quote, `<`, `=` or a backtick in an unquoted
    /// attribute value.
    Unquoted,
}

/// The error the scan `m` reports for `c`, if any.
pub open spec fn scan_error(m: Scan, c: char) -> Option<Error> {
    match m {
        Scan::Quiet => None,
        Scan::Nuls => if c == '\0' {
            Some(Error::UnexpectedNullCharacter)
        } else {
            None
        },
        Scan::AttributeName => if c == '"' || c == '\'' || c == '<' {
            Some(Error::UnexpectedCharacterInAttributeName)
        } else {
            None
        },
        Scan::Unquoted => if c == '\0' {
            Some(Error::UnexpectedNullCharacter)
        } else if c == '"' || c == '\'' || c == '<' || c == '=' || c == '`' {
            Some(Error::UnexpectedCharacterInUnquotedAttributeValue)
        } else {
            None
        },
    }
}

/// The errors the scan `m` reports over `s[i..j]`, in order.
pub open spec fn scan_errors(s: Seq<char>, i: int, j: int, m: Scan) -> Seq<Error>
    decreases j - i,
{
    if j <= i {
        Seq::empty()
    } else {
        match scan_error(m, s[j - 1]) {
            Some(e) => scan_errors(s, i, j - 1, m).push(e),
            None => scan_errors(s, i, j - 1, m),
        }
    }
}

/// `script`.
pub open spec fn script_text() -> Seq<char> {
    seq!['s', 'c', 'r', 'i', 'p', 't']
}

/// `xml`.
pub open spec fn xml_text() -> Seq<char> {
    seq!['x', 'm', 'l']
}

/// `xml-stylesheet`.
pub open spec fn xml_stylesheet_text() -> Seq<char> {
    seq!['x', 'm', 'l', '-', 's', 't', 'y', 'l', 'e', 's', 'h', 'e', 'e', 't']
}

/// `public`.
pub open spec fn public_text() -> Seq<char> {
    seq!['p', 'u', 'b', 'l', 'i', 'c']
}

/// `system`.
pub open spec fn system_text() -> Seq<char> {
    seq!['s', 'y', 's', 't', 'e', 'm']
}

/// `[CDATA[`.
pub open spec fn cdata_text() -> Seq<char> {
    seq!['[', 'C', 'D', 'A', 'T', 'A', '[']
}

/// Text of one character.
pub open spec fn one(c: char) -> Seq<char> {
    seq![c]
}

/// Whether the first `n` bytes of the input from position `i` spell the
/// ASCII word `w` in any case (and the input has `n` bytes there).
pub open spec fn keyword_at(s: Seq<char>, i: int, w: Seq<char>) -> bool {
    let b = encode_utf8(s.skip(i));
    b.len() >= w.len() && same_ignoring_case(b.take(w.len() as int), ascii(w))
}

/// Whether slicing the first `n` bytes of the input from position `i` would
/// cut a character (the slice panics there).
pub open spec fn cuts_char(s: Seq<char>, i: int, n: int) -> bool {
    let b = encode_utf8(s.skip(i));
    b.len() >= n && !is_char_boundary(b, n)
}

/// Bytes that spell an ASCII word in any case are as many ASCII characters.
pub proof fn lemma_keyword_chars(s: Seq<char>, i: int, w: Seq<char>)
    requires
        0 <= i <= s.len(),
        forall|k: int| 0 <= k < w.len() ==> #[trigger] ascii(w)[k] < 0x80,
        keyword_at(s, i, w),
    ensures
        i + w.len() <= s.len(),
        forall|k: int| 0 <= k < w.len() ==> (#[trigger] s[i + k] as u32) < 0x80,
{
    let b = encode_utf8(s.skip(i));
    let n = w.len() as int;
    let d = ascii(w);
    assert forall|k: int| 0 <= k < n implies b[k] < 0x80 by {
        assert(b.take(n)[k] == b[k]);
        assert(d[k] < 0x80);
    }
    crate::cursor::lemma_ascii_prefix(s.skip(i), n);
    assert forall|k: int| 0 <= k < n implies (#[trigger] s[i + k] as u32) < 0x80 by {
        assert(s.skip(i)[k] == s[i + k]);
    }
}

// ---------------------------------------------------------------------------
// The tokenizer's state, taken as values.

/// Everything the tokenizer remembers: the position, the state and the state
/// to return to after a character reference, the errors so far, the mark, the
/// tag being read and whether tags are read as end tags, the name of the last
/// start tag, the document type being read, and the code of a numeric
/// character reference. Positions count characters.
pub struct TokState {
    pub pos: int,
    pub state: TokenizationState,
    pub return_state: TokenizationState,
    pub errors: Seq<Error>,
    pub mark: int,
    pub tag: Option<TagView>,
    pub is_end: bool,
    pub last_start: Option<Seq<char>>,
    pub doctype: Option<DoctypeView>,
    pub code: u32,
}

/// What one state does: hand back a token and end the call, go on in the
/// state it leaves, or stop the program (a panic, or a loop that never ends).
pub enum Act {
    Return(TokState, TokenView),
    Goto(TokState),
    Stuck,
}

/// `t` moved to `pos` in state `st`.
pub open spec fn moved(t: TokState, pos: int, st: TokenizationState) -> TokState {
    TokState { pos, state: st, ..t }
}

/// `t` with error `e` recorded.
pub open spec fn erred(t: TokState, e: Error) -> TokState {
    TokState { errors: t.errors.push(e), ..t }
}

/// A fresh tag.
pub open spec fn new_tag(closing: Option<bool>) -> TagView {
    TagView { name: None, self_closing: closing, attributes: Seq::empty() }
}

/// A document type with no name or identifiers.
pub open spec fn bare_doctype(force: bool) -> DoctypeView {
    DoctypeView { name: None, public_identifier: None, system_identifier: None, force_quirks: force }
}

/// The tag with its name set to `name` if it has none yet.
pub open spec fn named(tag: Option<TagView>, name: Seq<char>) -> Option<TagView> {
    match tag {
        Some(g) => if g.name is None {
            Some(TagView { name: Some(name), ..g })
        } else {
            Some(g)
        },
        None => None,
    }
}

/// The name of a tag read from the mark to `end`: trailing white space, `/`
/// and `>` cut off, ASCII letters in lower case.
pub open spec fn tag_name_text(s: Seq<char>, t: TokState, end: int) -> Seq<char> {
    lower(trimmed(s.subrange(t.mark, end), Stop::TagName))
}

/// The tag with an attribute added.
pub open spec fn push_attribute(g: TagView, a: AttributeView) -> TagView {
    TagView { attributes: g.attributes.push(a), ..g }
}

/// The tag with `text` added to the value of its last attribute (an absent
/// value taken as empty), where it has attributes.
pub open spec fn appended(tag: Option<TagView>, text: Seq<char>) -> Option<TagView> {
    match tag {
        Some(g) => if g.attributes.len() > 0 {
            let before = match g.attributes.last().value {
                Some(v) => v,
                None => Seq::empty(),
            };
            valued(tag, before + text)
        } else {
            Some(g)
        },
        None => None,
    }
}

/// `t` back in the state it returns to, at `pos` with the mark there, the
/// text `text` a character reference stood for added to the value of the
/// attribute being read.
pub open spec fn back_in_value(t: TokState, pos: int, text: Seq<char>) -> TokState {
    TokState { pos, mark: pos, state: t.return_state, tag: appended(t.tag, text), ..t }
}

/// The tag with `value` as the value of its last attribute, where it has
/// attributes.
pub open spec fn valued(tag: Option<TagView>, value: Seq<char>) -> Option<TagView> {
    match tag {
        Some(g) => if g.attributes.len() > 0 {
            Some(
                TagView {
                    attributes: g.attributes.update(
                        g.attributes.len() - 1,
                        AttributeView { value: Some(value), ..g.attributes.last() },
                    ),
                    ..g
                },
            )
        } else {
            Some(g)
        },
        None => None,
    }
}

/// The tag as a start tag, or as an end tag where `end`.
pub open spec fn tag_token(end: bool, g: TagView) -> TokenView {
    let h = TagView { attributes: named_only(g.attributes), ..g };
    if end {
        TokenView::EndTag(h)
    } else {
        TokenView::StartTag(h)
    }
}

/// The attributes that have a name, in order. A repeated attribute is kept
/// without a name while its value is read, and so is left out of the tag.
pub open spec fn named_only(a: Seq<AttributeView>) -> Seq<AttributeView>
    decreases a.len(),
{
    if a.len() == 0 {
        Seq::empty()
    } else if a[0].name is Some {
        seq![a[0]] + named_only(a.drop_first())
    } else {
        named_only(a.drop_first())
    }
}

/// Whether the attributes have one named `name`.
pub open spec fn has_attribute(attributes: Seq<AttributeView>, name: Seq<char>) -> bool {
    exists|k: int| 0 <= k < attributes.len() && attributes[k].name == Some(name)
}

/// Whether the name read since the mark closes the last start tag.
pub open spec fn appropriate(s: Seq<char>, t: TokState) -> bool {
    match t.last_start {
        Some(l) => lower(s.subrange(t.mark, t.pos)) == lower(l),
        None => false,
    }
}

/// The states a character reference returns to.
pub open spec fn is_return_state(st: TokenizationState) -> bool {
    st == TokenizationState::Data || st == TokenizationState::RcData || st
        == TokenizationState::AttributeValueDoubleQuoted || st == TokenizationState::AttributeValueSingleQuoted
        || st == TokenizationState::AttributeValueUnquoted
}

/// The character at position `i` of `s`, if any.
pub open spec fn at(s: Seq<char>, i: int) -> Option<char> {
    peek_at(s, i)
}

// ---------------------------------------------------------------------------
// Text states.

/// `Data`, `RcData`, `RawText`, `ScriptData` and `PlainText`: a run of text
/// from the position, which becomes the mark, up to a character that changes
/// the state; `&` starts a character reference where `k` is `Data`, `lt` is
/// the state after `<` (none for `PlainText`), and `replace` tells whether a
/// null character becomes U+FFFD (else it is handed out as it is).
pub open spec fn text_state(
    s: Seq<char>,
    t: TokState,
    k: Stop,
    lt: Option<TokenizationState>,
    replace: bool,
) -> Act {
    let i = t.pos;
    let e = run_end(s, i, k);
    let t1 = TokState { mark: i, ..t };
    if e > i {
        Act::Return(TokState { pos: e, ..t1 }, TokenView::Character(s.subrange(i, e)))
    } else if e >= s.len() {
        Act::Return(t1, TokenView::EndOfFile)
    } else if s[e] == '&' && k == Stop::Data {
        Act::Goto(
            TokState {
                pos: e + 1,
                return_state: t.state,
                state: TokenizationState::CharacterReference,
                ..t1
            },
        )
    } else if s[e] == '<' && lt is Some {
        Act::Goto(TokState { pos: e + 1, state: lt.unwrap(), ..t1 })
    } else {
        let t2 = erred(TokState { pos: e + 1, ..t1 }, Error::UnexpectedNullCharacter);
        if replace {
            Act::Return(t2, TokenView::Character(replacement_text()))
        } else {
            Act::Return(t2, TokenView::Character(s.subrange(e, e + 1)))
        }
    }
}

/// `CdataSection`: a run of text up to `]`, the position becoming the mark.
pub open spec fn cdata_section(s: Seq<char>, t: TokState) -> Act {
    let i = t.pos;
    let j = run_end(s, i, Stop::Bracket);
    let t1 = TokState { mark: i, ..t };
    if j > i {
        Act::Return(TokState { pos: j, ..t1 }, TokenView::Character(s.subrange(i, j)))
    } else if j >= s.len() {
        Act::Return(erred(t1, Error::EofInCdata), TokenView::EndOfFile)
    } else {
        Act::Goto(moved(t1, j + 1, TokenizationState::CdataSectionBracket))
    }
}

/// `CdataSectionBracket` and `CdataSectionEnd`.
pub open spec fn cdata_brackets(s: Seq<char>, t: TokState) -> Act {
    let i = t.pos;
    let c = at(s, i);
    if t.state == TokenizationState::CdataSectionBracket {
        if c == Some(']') {
            Act::Goto(moved(t, i + 1, TokenizationState::CdataSectionEnd))
        } else {
            Act::Return(moved(t, i, TokenizationState::CdataSection), TokenView::Character(one(']')))
        }
    } else if c == Some(']') {
        Act::Return(moved(t, i + 1, TokenizationState::CdataSectionEnd), TokenView::Character(one(']')))
    } else if c == Some('>') {
        Act::Goto(moved(t, i + 1, TokenizationState::Data))
    } else {
        Act::Return(moved(t, i, TokenizationState::CdataSection), TokenView::Character(seq![']', ']']))
    }
}

// ---------------------------------------------------------------------------
// Tag states.

/// `TagOpen`.
pub open spec fn tag_open(s: Seq<char>, t: TokState) -> Act {
    let i = t.pos;
    if i >= s.len() {
        Act::Return(erred(moved(t, i, TokenizationState::Data), Error::EofBeforeTagName), TokenView::Character(lt_text()))
    } else if s[i] == '!' {
        Act::Goto(moved(t, i + 1, TokenizationState::MarkupDeclarationOpen))
    } else if s[i] == '/' {
        Act::Goto(moved(t, i + 1, TokenizationState::EndTagOpen))
    } else if is_alpha(s[i]) {
        Act::Goto(
            TokState { tag: Some(new_tag(None)), mark: i, is_end: false, state: TokenizationState::TagName, ..t },
        )
    } else if s[i] == '?' {
        Act::Goto(moved(t, i + 1, TokenizationState::ProcessingInstructionOpen))
    } else {
        Act::Return(
            erred(moved(t, i, TokenizationState::Data), Error::InvalidFirstCharacterOfTagName),
            TokenView::Character(lt_text()),
        )
    }
}

/// `EndTagOpen`.
pub open spec fn end_tag_open(s: Seq<char>, t: TokState) -> Act {
    let i = t.pos;
    if i >= s.len() {
        Act::Return(erred(moved(t, i, TokenizationState::Data), Error::EofBeforeTagName), TokenView::Character(lt_slash_text()))
    } else if is_alpha(s[i]) {
        Act::Goto(
            TokState { tag: Some(new_tag(None)), mark: i, is_end: true, state: TokenizationState::TagName, ..t },
        )
    } else if s[i] == '>' {
        Act::Goto(erred(moved(t, i + 1, TokenizationState::Data), Error::MissingEndTagName))
    } else {
        Act::Goto(erred(moved(t, i, TokenizationState::BogusComment), Error::InvalidFirstCharacterOfTagName))
    }
}

/// `TagName`: the name runs to white space, `/` or `>`, null characters in
/// it being errors; the tag takes as its name the text from the mark on.
/// After `>` the tag is handed out (a start tag, which the last start tag
/// name then follows, unless tags are read as end tags).
pub open spec fn tag_name(s: Seq<char>, t: TokState) -> Act {
    let i = t.pos;
    let j = run_end(s, i, Stop::TagName);
    let errors = t.errors + scan_errors(s, i, j, Scan::Nuls);
    if j >= s.len() {
        Act::Return(TokState { pos: j, errors: errors.push(Error::EofInTag), ..t }, TokenView::EndOfFile)
    } else {
        let st = if is_ws(s[j]) {
            TokenizationState::BeforeAttributeName
        } else if s[j] == '/' {
            TokenizationState::SelfClosingStartTag
        } else {
            TokenizationState::Data
        };
        let t1 = TokState {
            pos: j + 1,
            state: st,
            errors,
            tag: named(t.tag, tag_name_text(s, t, j + 1)),
            ..t
        };
        if s[j] == '>' && t1.tag is Some {
            let g = t1.tag.unwrap();
            if !t.is_end {
                Act::Return(TokState { tag: None, last_start: g.name, ..t1 }, TokenView::StartTag(g))
            } else {
                Act::Return(TokState { tag: None, ..t1 }, TokenView::EndTag(g))
            }
        } else {
            Act::Goto(t1)
        }
    }
}

/// `RcDataLessThanSign` and `RawTextLessThanSign`.
pub open spec fn less_than_sign(s: Seq<char>, t: TokState, back: TokenizationState, next: TokenizationState) -> Act {
    let i = t.pos;
    if at(s, i) == Some('/') {
        Act::Goto(moved(t, i + 1, next))
    } else {
        Act::Return(moved(t, i, back), TokenView::Character(lt_text()))
    }
}

/// `ScriptDataLessThanSign`.
pub open spec fn script_less_than_sign(s: Seq<char>, t: TokState) -> Act {
    let i = t.pos;
    if at(s, i) == Some('/') {
        Act::Goto(moved(t, i + 1, TokenizationState::ScriptDataEndTagOpen))
    } else if at(s, i) == Some('!') {
        Act::Return(moved(t, i + 1, TokenizationState::ScriptDataEscapeStart), TokenView::Character(seq!['<', '!']))
    } else {
        Act::Return(moved(t, i, TokenizationState::ScriptData), TokenView::Character(lt_text()))
    }
}

/// The end tag open states of raw text: a letter begins an end tag (with
/// `closing` as its self-closing flag), the mark set at it.
pub open spec fn end_tag_open_in(
    s: Seq<char>,
    t: TokState,
    back: TokenizationState,
    next: TokenizationState,
    closing: Option<bool>,
) -> Act {
    let i = t.pos;
    if i < s.len() && is_alpha(s[i]) {
        Act::Goto(TokState { tag: Some(new_tag(closing)), is_end: true, mark: i, state: next, ..t })
    } else {
        Act::Return(moved(t, i, back), TokenView::Character(lt_slash_text()))
    }
}

/// The end tag name states of raw text: letters, then white space, `/` or
/// `>` where the name closes the last start tag; anything else hands the
/// `</` and the letters back as text.
pub open spec fn end_tag_name_in(s: Seq<char>, t: TokState, back: TokenizationState) -> Act {
    let i = t.pos;
    let j = run_end(s, i, Stop::NotAlpha);
    let ok = appropriate(s, TokState { pos: j, ..t });
    if j < s.len() && ok && (is_ws(s[j]) || s[j] == '/' || s[j] == '>') {
        let st = if is_ws(s[j]) {
            TokenizationState::BeforeAttributeName
        } else if s[j] == '/' {
            TokenizationState::SelfClosingStartTag
        } else {
            TokenizationState::Data
        };
        let t1 = TokState { pos: j + 1, state: st, tag: named(t.tag, tag_name_text(s, t, j + 1)), ..t };
        if s[j] == '>' {
            match t1.tag {
                None => Act::Stuck,
                Some(g) => Act::Return(TokState { tag: None, ..t1 }, TokenView::EndTag(g)),
            }
        } else {
            Act::Goto(t1)
        }
    } else {
        Act::Return(
            TokState { pos: j, tag: None, state: back, ..t },
            TokenView::Character(s.subrange(t.mark - 2, j)),
        )
    }
}

// ---------------------------------------------------------------------------
// Script data escape states.

/// `ScriptDataEscapeStart` (`next` is `ScriptDataEscapeStartDash`) and
/// `ScriptDataEscapeStartDash` (`next` is `ScriptDataEscapedDashDash`).
pub open spec fn escape_start(s: Seq<char>, t: TokState, next: TokenizationState) -> Act {
    let i = t.pos;
    if at(s, i) == Some('-') {
        Act::Return(moved(t, i + 1, next), TokenView::Character(one('-')))
    } else {
        Act::Goto(moved(t, i, TokenizationState::ScriptData))
    }
}

/// The escaped state, single (`ScriptDataEscaped`) or double
/// (`ScriptDataDoubleEscaped`), its dash states and its less-than state.
pub open spec fn escaped_states(double: bool) -> (
    TokenizationState,
    TokenizationState,
    TokenizationState,
) {
    if double {
        (
            TokenizationState::ScriptDataDoubleEscaped,
            TokenizationState::ScriptDataDoubleEscapedDash,
            TokenizationState::ScriptDataDoubleEscapedDashDash,
        )
    } else {
        (
            TokenizationState::ScriptDataEscaped,
            TokenizationState::ScriptDataEscapedDash,
            TokenizationState::ScriptDataEscapedDashDash,
        )
    }
}

/// After `<` in an escaped state: the double one hands `<` out.
pub open spec fn escaped_less_than(s: Seq<char>, t: TokState, double: bool) -> Act {
    let i = t.pos;
    if double {
        Act::Return(
            moved(t, i + 1, TokenizationState::ScriptDataDoubleEscapedLessThanSign),
            TokenView::Character(lt_text()),
        )
    } else {
        Act::Goto(moved(t, i + 1, TokenizationState::ScriptDataEscapedLessThanSign))
    }
}

/// `ScriptDataEscaped` and `ScriptDataDoubleEscaped`: a run up to `-`, `<`
/// or a null character (the mark stays where it is).
pub open spec fn escaped_text(s: Seq<char>, t: TokState, double: bool) -> Act {
    let i = t.pos;
    let j = run_end(s, i, Stop::DashLtNul);
    let (plain, dash, _) = escaped_states(double);
    if j > i {
        Act::Return(TokState { pos: j, ..t }, TokenView::Character(s.subrange(i, j)))
    } else if j >= s.len() {
        Act::Return(erred(t, Error::EofInScriptHtmlCommentLikeText), TokenView::EndOfFile)
    } else if s[j] == '-' {
        Act::Return(moved(t, i + 1, dash), TokenView::Character(one('-')))
    } else if s[j] == '<' {
        escaped_less_than(s, t, double)
    } else {
        Act::Return(
            erred(moved(t, i + 1, plain), Error::UnexpectedNullCharacter),
            TokenView::Character(replacement_text()),
        )
    }
}

/// The dash states of the escaped states: one dash (`dashdash` false) or
/// two.
pub open spec fn escaped_dash(s: Seq<char>, t: TokState, double: bool, dashdash: bool) -> Act {
    let i = t.pos;
    let (plain, _, two) = escaped_states(double);
    if i >= s.len() {
        Act::Return(erred(t, Error::EofInScriptHtmlCommentLikeText), TokenView::EndOfFile)
    } else if s[i] == '-' {
        Act::Return(moved(t, i + 1, two), TokenView::Character(one('-')))
    } else if s[i] == '<' {
        escaped_less_than(s, t, double)
    } else if s[i] == '>' && dashdash {
        Act::Return(moved(t, i + 1, TokenizationState::ScriptData), TokenView::Character(one('>')))
    } else if s[i] == '\0' {
        Act::Return(
            erred(moved(t, i + 1, plain), Error::UnexpectedNullCharacter),
            TokenView::Character(replacement_text()),
        )
    } else {
        Act::Return(moved(t, i + 1, plain), TokenView::Character(s.subrange(i, i + 1)))
    }
}

/// `ScriptDataEscapedLessThanSign`.
pub open spec fn escaped_less_than_sign(s: Seq<char>, t: TokState) -> Act {
    let i = t.pos;
    if at(s, i) == Some('/') {
        Act::Goto(moved(t, i + 1, TokenizationState::ScriptDataEscapedEndTagOpen))
    } else if i < s.len() && is_alpha(s[i]) {
        Act::Return(
            TokState { mark: i, state: TokenizationState::ScriptDataDoubleEscapeStart, ..t },
            TokenView::Character(lt_text()),
        )
    } else {
        Act::Return(moved(t, i, TokenizationState::ScriptDataEscaped), TokenView::Character(lt_text()))
    }
}

/// `ScriptDataDoubleEscapedLessThanSign`.
pub open spec fn double_escaped_less_than_sign(s: Seq<char>, t: TokState) -> Act {
    let i = t.pos;
    if at(s, i) == Some('/') {
        Act::Return(
            TokState { pos: i + 1, mark: i + 1, state: TokenizationState::ScriptDataDoubleEscapeEnd, ..t },
            TokenView::Character(one('/')),
        )
    } else {
        Act::Goto(moved(t, i, TokenizationState::ScriptDataDoubleEscaped))
    }
}

/// `ScriptDataDoubleEscapeStart` (`end` false) and
/// `ScriptDataDoubleEscapeEnd`: letters, then white space, `/` or `>` end
/// the word since the mark, which decides the state by whether it is
/// `script`; the word (and that character) is handed out. Letters up to the
/// end of the input make the tokenizer go round forever.
pub open spec fn double_escape_switch(s: Seq<char>, t: TokState, end: bool) -> Act {
    let i = t.pos;
    let j = run_end(s, i, Stop::NotAlpha);
    let escaped = TokenizationState::ScriptDataEscaped;
    let double = TokenizationState::ScriptDataDoubleEscaped;
    if j >= s.len() {
        Act::Stuck
    } else if is_ws(s[j]) || s[j] == '/' || s[j] == '>' {
        let is_script = lower(s.subrange(t.mark, j)) == script_text();
        let st = if is_script != end {
            double
        } else {
            escaped
        };
        Act::Return(TokState { pos: j + 1, state: st, ..t }, TokenView::Character(s.subrange(t.mark, j + 1)))
    } else {
        let st = if end {
            double
        } else {
            escaped
        };
        Act::Return(TokState { pos: j, state: st, ..t }, TokenView::Character(s.subrange(t.mark, j)))
    }
}

// ---------------------------------------------------------------------------
// Attribute states.

/// `BeforeAttributeName`: a character other than white space, `/`, `>` or
/// `=` begins an attribute (the program stops where no tag is being read).
pub open spec fn before_attribute_name(s: Seq<char>, t: TokState) -> Act {
    let i = t.pos;
    if i < s.len() && is_ws(s[i]) {
        Act::Goto(moved(t, i + 1, TokenizationState::BeforeAttributeName))
    } else if i >= s.len() || s[i] == '/' || s[i] == '>' {
        Act::Goto(moved(t, i, TokenizationState::AfterAttributeName))
    } else {
        match t.tag {
            None => Act::Stuck,
            Some(g) => if s[i] == '=' {
                Act::Goto(
                    erred(
                        TokState {
                            pos: i + 1,
                            mark: i + 1,
                            state: TokenizationState::AttributeName,
                            tag: Some(
                                push_attribute(g, AttributeView { name: Some(one('=')), value: Some(Seq::empty()) }),
                            ),
                            ..t
                        },
                        Error::UnexpectedEqualsSignBeforeAttributeName,
                    ),
                )
            } else {
                Act::Goto(
                    TokState {
                        mark: i,
                        state: TokenizationState::AttributeName,
                        tag: Some(push_attribute(g, AttributeView { name: None, value: None })),
                        ..t
                    },
                )
            },
        }
    }
}

/// `AttributeName`: the name runs to white space, `/`, `>`, a null character
/// or `=` (which it takes in); a quote or `<` in it is an error. The last
/// attribute takes the name from the mark on, with an empty value, unless an
/// earlier attribute has that name: it then stays without a name, takes the
/// value that follows, and is left out of the tag.
pub open spec fn attribute_name(s: Seq<char>, t: TokState) -> Act {
    let i = t.pos;
    let j = run_end(s, i, Stop::AttributeEnd);
    let errors1 = t.errors + scan_errors(s, i, j, Scan::AttributeName);
    let equals = j < s.len() && s[j] == '=';
    let end = if equals {
        j + 1
    } else {
        j
    };
    let st = if equals {
        TokenizationState::BeforeAttributeValue
    } else {
        TokenizationState::AfterAttributeName
    };
    let errors2 = if j < s.len() && s[j] == '\0' {
        errors1.push(Error::UnexpectedNullCharacter)
    } else {
        errors1
    };
    match t.tag {
        None => Act::Stuck,
        Some(g) => if g.attributes.len() == 0 {
            Act::Stuck
        } else {
            let name = lower(fffd(s.subrange(t.mark, j)));
            if has_attribute(g.attributes.drop_last(), name) {
                Act::Goto(
                    TokState {
                        pos: end,
                        state: st,
                        errors: errors2.push(Error::DuplicateAttribute),
                        tag: Some(
                            TagView {
                                attributes: g.attributes.update(
                                    g.attributes.len() - 1,
                                    AttributeView { name: None, value: Some(Seq::empty()) },
                                ),
                                ..g
                            },
                        ),
                        ..t
                    },
                )
            } else {
                Act::Goto(
                    TokState {
                        pos: end,
                        state: st,
                        errors: errors2,
                        tag: Some(
                            TagView {
                                attributes: g.attributes.update(
                                    g.attributes.len() - 1,
                                    AttributeView { name: Some(name), value: Some(Seq::empty()) },
                                ),
                                ..g
                            },
                        ),
                        ..t
                    },
                )
            }
        },
    }
}

/// `AfterAttributeName`. A null character here makes the tokenizer go round
/// between this state and `AttributeName` forever.
pub open spec fn after_attribute_name(s: Seq<char>, t: TokState) -> Act {
    let i = t.pos;
    if i >= s.len() {
        Act::Return(erred(t, Error::EofInTag), TokenView::EndOfFile)
    } else if is_ws(s[i]) {
        Act::Goto(moved(t, i + 1, TokenizationState::AfterAttributeName))
    } else if s[i] == '/' {
        Act::Goto(moved(t, i + 1, TokenizationState::SelfClosingStartTag))
    } else if s[i] == '=' {
        Act::Goto(moved(t, i + 1, TokenizationState::BeforeAttributeValue))
    } else if s[i] == '\0' {
        Act::Stuck
    } else {
        match t.tag {
            None => Act::Stuck,
            Some(g) => if s[i] == '>' {
                Act::Return(
                    TokState { pos: i + 1, state: TokenizationState::Data, tag: None, ..t },
                    tag_token(t.is_end, g),
                )
            } else {
                Act::Goto(
                    TokState {
                        tag: Some(push_attribute(g, AttributeView { name: None, value: None })),
                        mark: i,
                        state: TokenizationState::AttributeName,
                        ..t
                    },
                )
            },
        }
    }
}

/// `BeforeAttributeValue`. At the end of the input nothing changes, and the
/// tokenizer goes round forever.
pub open spec fn before_attribute_value(s: Seq<char>, t: TokState) -> Act {
    let i = t.pos;
    if i >= s.len() {
        Act::Stuck
    } else if is_ws(s[i]) {
        Act::Goto(moved(t, i + 1, TokenizationState::BeforeAttributeValue))
    } else if s[i] == '"' {
        Act::Goto(TokState { pos: i + 1, mark: i + 1, state: TokenizationState::AttributeValueDoubleQuoted, ..t })
    } else if s[i] == '\'' {
        Act::Goto(TokState { pos: i + 1, mark: i + 1, state: TokenizationState::AttributeValueSingleQuoted, ..t })
    } else if s[i] == '>' {
        match t.tag {
            None => Act::Stuck,
            Some(g) => Act::Return(
                erred(
                    TokState { pos: i + 1, state: TokenizationState::Data, tag: None, ..t },
                    Error::MissingAttributeValue,
                ),
                tag_token(t.is_end, g),
            ),
        }
    } else {
        Act::Goto(TokState { mark: i, state: TokenizationState::AttributeValueUnquoted, ..t })
    }
}

/// `AttributeValueDoubleQuoted` and `AttributeValueSingleQuoted`: the value
/// runs to the quote `q` (null characters in it are errors and become
/// U+FFFD); `&` starts a character reference that returns here. The text
/// from the mark on is added to the value read so far.
pub open spec fn attribute_value_quoted(s: Seq<char>, t: TokState, q: char) -> Act {
    let i = t.pos;
    let j = run_end(s, i, Stop::Quoted(q));
    let errors = t.errors + scan_errors(s, i, j, Scan::Nuls);
    if j >= s.len() {
        Act::Return(TokState { pos: j, errors: errors.push(Error::EofInTag), ..t }, TokenView::EndOfFile)
    } else if s[j] == q {
        Act::Goto(
            TokState {
                pos: j + 1,
                state: TokenizationState::AfterAttributeValueQuoted,
                tag: appended(t.tag, fffd(s.subrange(t.mark, j))),
                errors,
                ..t
            },
        )
    } else {
        Act::Goto(
            TokState {
                pos: j + 1,
                return_state: t.state,
                state: TokenizationState::CharacterReference,
                tag: appended(t.tag, fffd(s.subrange(t.mark, j))),
                errors,
                ..t
            },
        )
    }
}

/// `AttributeValueUnquoted`: the value runs to white space, `&` or `>`; it
/// adds the text from the mark on (with trailing white space cut off, null
/// characters made U+FFFD) to the value read so far; after `>` the tag is
/// handed out.
pub open spec fn attribute_value_unquoted(s: Seq<char>, t: TokState) -> Act {
    let i = t.pos;
    let j = run_end(s, i, Stop::Unquoted);
    let errors = t.errors + scan_errors(s, i, j, Scan::Unquoted);
    if j >= s.len() {
        Act::Return(TokState { pos: j, errors: errors.push(Error::EofInTag), ..t }, TokenView::EndOfFile)
    } else if s[j] == '&' {
        Act::Goto(
            TokState {
                pos: j + 1,
                errors,
                return_state: TokenizationState::AttributeValueUnquoted,
                state: TokenizationState::CharacterReference,
                tag: appended(t.tag, fffd(s.subrange(t.mark, j))),
                ..t
            },
        )
    } else if is_ws(s[j]) {
        Act::Goto(
            TokState {
                pos: j + 1,
                errors,
                state: TokenizationState::BeforeAttributeName,
                tag: appended(t.tag, fffd(trimmed(s.subrange(t.mark, j + 1), Stop::Ws))),
                ..t
            },
        )
    } else {
        match appended(t.tag, fffd(trimmed(s.subrange(t.mark, j), Stop::Ws))) {
            None => Act::Stuck,
            Some(g) => Act::Return(
                TokState { pos: j + 1, errors, state: TokenizationState::Data, tag: None, ..t },
                tag_token(t.is_end, g),
            ),
        }
    }
}

/// `AfterAttributeValueQuoted`.
pub open spec fn after_attribute_value_quoted(s: Seq<char>, t: TokState) -> Act {
    let i = t.pos;
    if i >= s.len() {
        Act::Return(erred(t, Error::EofInTag), TokenView::EndOfFile)
    } else if is_ws(s[i]) {
        Act::Goto(moved(t, i + 1, TokenizationState::BeforeAttributeName))
    } else if s[i] == '/' {
        Act::Goto(moved(t, i + 1, TokenizationState::SelfClosingStartTag))
    } else if s[i] == '>' {
        match t.tag {
            None => Act::Stuck,
            Some(g) => Act::Return(
                TokState { pos: i + 1, state: TokenizationState::Data, tag: None, ..t },
                tag_token(t.is_end, g),
            ),
        }
    } else {
        Act::Goto(erred(moved(t, i, TokenizationState::BeforeAttributeName), Error::MissingWhitespaceBetweenAttributes))
    }
}

/// `SelfClosingStartTag`.
pub open spec fn self_closing_start_tag(s: Seq<char>, t: TokState) -> Act {
    let i = t.pos;
    if i >= s.len() {
        Act::Return(erred(t, Error::EofInTag), TokenView::EndOfFile)
    } else if s[i] == '>' {
        match t.tag {
            None => Act::Stuck,
            Some(g) => Act::Return(
                TokState { pos: i + 1, state: TokenizationState::Data, tag: None, ..t },
                tag_token(t.is_end, TagView { self_closing: Some(true), ..g }),
            ),
        }
    } else {
        Act::Goto(erred(moved(t, i, TokenizationState::BeforeAttributeName), Error::UnexpectedSolidusInTag))
    }
}

// ---------------------------------------------------------------------------
// Comment states.

/// `BogusComment`: up to `>` or to the end of the input, null characters in
/// it being errors; the comment is the text from the mark on, null characters
/// made U+FFFD.
pub open spec fn bogus_comment(s: Seq<char>, t: TokState) -> Act {
    let i = t.pos;
    let j = run_end(s, i, Stop::GreaterThan);
    let errors = t.errors + scan_errors(s, i, j, Scan::Nuls);
    let text = TokenView::Comment(fffd(s.subrange(t.mark, j)));
    if j < s.len() {
        Act::Return(TokState { pos: j + 1, state: TokenizationState::Data, errors, ..t }, text)
    } else {
        Act::Return(TokState { pos: j, state: TokenizationState::Data, errors, ..t }, text)
    }
}

/// `MarkupDeclarationOpen`: `--` opens a comment; the first seven bytes
/// spelling `doctype` in any case open a document type, the program
/// stopping where those seven bytes end inside a character; `[CDATA[` is an
/// error and becomes a bogus comment; anything else is a bogus comment.
pub open spec fn markup_declaration_open(s: Seq<char>, t: TokState) -> Act {
    let i = t.pos;
    if chars_at(s, i, seq!['-', '-']) {
        Act::Goto(TokState { pos: i + 2, mark: i + 2, state: TokenizationState::CommentStart, ..t })
    } else if cuts_char(s, i, 7) {
        Act::Stuck
    } else if keyword_at(s, i, doctype_text()) {
        Act::Goto(moved(t, i + 7, TokenizationState::Doctype))
    } else if chars_at(s, i, cdata_text()) {
        Act::Goto(
            erred(
                TokState { pos: i + 7, mark: i, state: TokenizationState::BogusComment, ..t },
                Error::CdataInHtmlContent,
            ),
        )
    } else {
        Act::Goto(erred(TokState { mark: i, state: TokenizationState::BogusComment, ..t }, Error::IncorrectlyOpenedComment))
    }
}

/// The states of a comment. A comment is the text from the mark to the
/// dashes (and `!`) that close it.
pub open spec fn comment_states(s: Seq<char>, t: TokState) -> Act {
    let i = t.pos;
    let c = at(s, i);
    let data = TokenizationState::Data;
    let comment = TokenizationState::Comment;
    match t.state {
        TokenizationState::CommentStart => if c == Some('-') {
            Act::Goto(moved(t, i + 1, TokenizationState::CommentStartDash))
        } else if c == Some('>') {
            Act::Return(
                erred(moved(t, i + 1, data), Error::AbruptClosingOfEmptyComment),
                TokenView::Comment(s.subrange(t.mark, i)),
            )
        } else {
            Act::Goto(moved(t, i, comment))
        },
        TokenizationState::CommentStartDash => if c == Some('-') {
            Act::Goto(moved(t, i + 1, TokenizationState::CommentEnd))
        } else if c == Some('>') {
            Act::Return(
                erred(moved(t, i + 1, data), Error::AbruptClosingOfEmptyComment),
                TokenView::Comment(s.subrange(t.mark, i - 1)),
            )
        } else if c is None {
            Act::Return(erred(moved(t, i, data), Error::EofInComment), TokenView::Comment(s.subrange(t.mark, i - 1)))
        } else {
            Act::Goto(moved(t, i, comment))
        },
        TokenizationState::Comment => {
            let j = run_end(s, i, Stop::DashLtNul);
            if j >= s.len() {
                Act::Return(
                    erred(moved(t, j, data), Error::EofInComment),
                    TokenView::Comment(fffd(s.subrange(t.mark, j))),
                )
            } else if s[j] == '<' {
                Act::Goto(moved(t, j + 1, TokenizationState::CommentLessThanSign))
            } else if s[j] == '-' {
                Act::Goto(moved(t, j + 1, TokenizationState::CommentEndDash))
            } else {
                Act::Goto(erred(moved(t, j + 1, comment), Error::UnexpectedNullCharacter))
            }
        },
        TokenizationState::CommentLessThanSign => if c == Some('!') {
            Act::Goto(moved(t, i + 1, TokenizationState::CommentLessThanSignBang))
        } else if c == Some('<') {
            Act::Goto(moved(t, i + 1, TokenizationState::CommentLessThanSign))
        } else {
            Act::Goto(moved(t, i, comment))
        },
        TokenizationState::CommentLessThanSignBang => if c == Some('-') {
            Act::Goto(moved(t, i + 1, TokenizationState::CommentLessThanSignBangDash))
        } else {
            Act::Goto(moved(t, i, comment))
        },
        TokenizationState::CommentLessThanSignBangDash => if c == Some('-') {
            Act::Goto(moved(t, i + 1, TokenizationState::CommentLessThanSignBangDashDash))
        } else {
            Act::Goto(moved(t, i, TokenizationState::CommentEndDash))
        },
        TokenizationState::CommentLessThanSignBangDashDash => if c == Some('>') || c is None {
            Act::Goto(moved(t, i, TokenizationState::CommentEnd))
        } else {
            Act::Goto(erred(moved(t, i, TokenizationState::CommentEnd), Error::NestedComment))
        },
        TokenizationState::CommentEndDash => if c == Some('-') {
            Act::Goto(moved(t, i + 1, TokenizationState::CommentEnd))
        } else if c is None {
            Act::Return(erred(moved(t, i, data), Error::EofInComment), TokenView::Comment(fffd(s.subrange(t.mark, i - 1))))
        } else {
            Act::Goto(moved(t, i, comment))
        },
        TokenizationState::CommentEnd => if c == Some('>') {
            Act::Return(moved(t, i + 1, data), TokenView::Comment(fffd(s.subrange(t.mark, i - 2))))
        } else if c == Some('!') {
            Act::Goto(moved(t, i + 1, TokenizationState::CommentEndBang))
        } else if c == Some('-') {
            Act::Goto(moved(t, i + 1, TokenizationState::CommentEnd))
        } else if c is None {
            Act::Return(erred(moved(t, i, data), Error::EofInComment), TokenView::Comment(fffd(s.subrange(t.mark, i - 2))))
        } else {
            Act::Goto(moved(t, i, comment))
        },
        _ => if c == Some('-') {
            Act::Goto(moved(t, i + 1, TokenizationState::CommentEndDash))
        } else if c == Some('>') {
            Act::Return(
                erred(moved(t, i + 1, data), Error::IncorrectlyClosedComment),
                TokenView::Comment(fffd(s.subrange(t.mark, i - 3))),
            )
        } else if c is None {
            Act::Return(erred(moved(t, i, data), Error::EofInComment), TokenView::Comment(fffd(s.subrange(t.mark, i - 3))))
        } else {
            Act::Goto(moved(t, i, comment))
        },
    }
}

// ---------------------------------------------------------------------------
// Document type states.

/// `t` with the document type, if any, forced into quirks mode.
pub open spec fn quirked(t: TokState) -> TokState {
    match t.doctype {
        Some(d) => TokState { doctype: Some(DoctypeView { force_quirks: true, ..d }), ..t },
        None => t,
    }
}

/// Hands out the document type being read (the program stops where there is
/// none).
pub open spec fn emit_doctype(t: TokState) -> Act {
    match t.doctype {
        Some(d) => Act::Return(TokState { doctype: None, ..t }, TokenView::Doctype(d)),
        None => Act::Stuck,
    }
}

/// Ends the document type at the end of the input: an error, quirks mode.
pub open spec fn doctype_at_end(t: TokState) -> Act {
    emit_doctype(TokState { state: TokenizationState::Data, ..quirked(erred(t, Error::EofInDoctype)) })
}

/// `t` with `c` added to the name of the document type, if any.
pub open spec fn push_name(t: TokState, c: char) -> TokState {
    match t.doctype {
        Some(d) => TokState {
            doctype: Some(
                DoctypeView {
                    name: Some(
                        match d.name {
                            Some(n) => n.push(c),
                            None => one(c),
                        },
                    ),
                    ..d
                },
            ),
            ..t
        },
        None => t,
    }
}

/// `t` with its public (`public`) or system identifier set to `v`, where
/// there is a document type.
pub open spec fn with_id(t: TokState, public: bool, v: Seq<char>) -> TokState {
    match t.doctype {
        Some(d) => if public {
            TokState { doctype: Some(DoctypeView { public_identifier: Some(v), ..d }), ..t }
        } else {
            TokState { doctype: Some(DoctypeView { system_identifier: Some(v), ..d }), ..t }
        },
        None => t,
    }
}

/// `t` with `c` added to the public or system identifier; the program stops
/// where the document type has no such identifier.
pub open spec fn push_id(t: TokState, public: bool, c: char) -> Act {
    match t.doctype {
        Some(d) => {
            let id = if public {
                d.public_identifier
            } else {
                d.system_identifier
            };
            match id {
                Some(v) => Act::Goto(with_id(t, public, v.push(c))),
                None => Act::Stuck,
            }
        },
        None => Act::Goto(t),
    }
}

/// `Doctype` and `BeforeDoctypeName`.
pub open spec fn doctype_start(s: Seq<char>, t: TokState) -> Act {
    let i = t.pos;
    let before = TokenizationState::BeforeDoctypeName;
    if i >= s.len() {
        Act::Return(erred(moved(t, i, TokenizationState::Data), Error::EofInDoctype), TokenView::Doctype(bare_doctype(true)))
    } else if is_ws(s[i]) {
        Act::Goto(moved(t, i + 1, before))
    } else if t.state == TokenizationState::Doctype {
        if s[i] == '>' {
            Act::Goto(moved(t, i, before))
        } else {
            Act::Goto(erred(moved(t, i, before), Error::MissingWhitespaceBeforeDoctypeName))
        }
    } else if s[i] == '>' {
        Act::Return(
            erred(moved(t, i + 1, TokenizationState::Data), Error::MissingDoctypeName),
            TokenView::Doctype(bare_doctype(true)),
        )
    } else {
        Act::Goto(
            TokState {
                doctype: Some(bare_doctype(false)),
                mark: i,
                state: TokenizationState::DoctypeName,
                ..t
            },
        )
    }
}

/// `DoctypeName`, one character at a time: the name takes the character in
/// lower case (a null character as U+FFFD).
pub open spec fn doctype_name(s: Seq<char>, t: TokState) -> Act {
    let i = t.pos;
    let st = TokenizationState::DoctypeName;
    if i >= s.len() {
        doctype_at_end(t)
    } else if is_ws(s[i]) {
        Act::Goto(moved(t, i + 1, TokenizationState::AfterDoctypeName))
    } else if s[i] == '>' {
        emit_doctype(moved(t, i + 1, TokenizationState::Data))
    } else if s[i] == '\0' {
        Act::Goto(push_name(erred(moved(t, i + 1, st), Error::UnexpectedNullCharacter), '\u{FFFD}'))
    } else {
        Act::Goto(push_name(moved(t, i + 1, st), lower_char(s[i])))
    }
}

/// `AfterDoctypeName`: `PUBLIC` or `SYSTEM` in any case, as six bytes (the
/// program stops where those bytes end inside a character), go on to the
/// identifiers; anything else makes the document type bogus.
pub open spec fn after_doctype_name(s: Seq<char>, t: TokState) -> Act {
    let i = t.pos;
    if i >= s.len() {
        doctype_at_end(t)
    } else if is_ws(s[i]) {
        Act::Goto(moved(t, i + 1, TokenizationState::AfterDoctypeName))
    } else if s[i] == '>' {
        emit_doctype(moved(t, i + 1, TokenizationState::Data))
    } else if cuts_char(s, i, 6) {
        Act::Stuck
    } else if keyword_at(s, i, public_text()) {
        Act::Goto(moved(t, i + 6, TokenizationState::AfterDoctypePublicKeyword))
    } else if keyword_at(s, i, system_text()) {
        Act::Goto(moved(t, i + 6, TokenizationState::AfterDoctypeSystemKeyword))
    } else {
        Act::Goto(
            quirked(erred(moved(t, i, TokenizationState::BogusDoctype), Error::InvalidCharacterSequenceAfterDoctypeName)),
        )
    }
}

/// `AfterDoctypePublicKeyword` and `BeforeDoctypePublicIdentifier`
/// (`public`), `AfterDoctypeSystemKeyword` and
/// `BeforeDoctypeSystemIdentifier`: a quote opens the identifier (straight
/// after the keyword, an error).
pub open spec fn doctype_id_open(s: Seq<char>, t: TokState, public: bool, keyword: bool) -> Act {
    let i = t.pos;
    let before = if public {
        TokenizationState::BeforeDoctypePublicIdentifier
    } else {
        TokenizationState::BeforeDoctypeSystemIdentifier
    };
    let dq = if public {
        TokenizationState::DoctypePublicIdentifierDoubleQuoted
    } else {
        TokenizationState::DoctypeSystemIdentifierDoubleQuoted
    };
    let sq = if public {
        TokenizationState::DoctypePublicIdentifierSingleQuoted
    } else {
        TokenizationState::DoctypeSystemIdentifierSingleQuoted
    };
    let missing_ws = if public {
        Error::MissingWhitespaceAfterDoctypePublicKeyword
    } else {
        Error::MissingWhitespaceAfterDoctypeSystemKeyword
    };
    let missing_id = if public {
        Error::MissingDoctypePublicIdentifier
    } else {
        Error::MissingDoctypeSystemIdentifier
    };
    let missing_quote = if public {
        Error::MissingQuoteBeforeDoctypePublicIdentifier
    } else {
        Error::MissingQuoteBeforeDoctypeSystemIdentifier
    };
    if i >= s.len() {
        doctype_at_end(t)
    } else if is_ws(s[i]) {
        Act::Goto(moved(t, i + 1, before))
    } else if s[i] == '"' || s[i] == '\'' {
        let st = if s[i] == '"' {
            dq
        } else {
            sq
        };
        let t1 = if keyword {
            erred(moved(t, i + 1, st), missing_ws)
        } else {
            moved(t, i + 1, st)
        };
        Act::Goto(with_id(t1, public, Seq::empty()))
    } else if s[i] == '>' {
        emit_doctype(quirked(erred(moved(t, i + 1, TokenizationState::Data), missing_id)))
    } else {
        Act::Goto(quirked(erred(moved(t, i, TokenizationState::BogusDoctype), missing_quote)))
    }
}

/// The quoted identifier states: up to the quote `q`, one character at a
/// time (a null character as U+FFFD).
pub open spec fn doctype_id_quoted(s: Seq<char>, t: TokState, public: bool, q: char) -> Act {
    let i = t.pos;
    let after = if public {
        TokenizationState::AfterDoctypePublicIdentifier
    } else {
        TokenizationState::AfterDoctypeSystemIdentifier
    };
    let abrupt = if public {
        Error::AbruptDoctypePublicIdentifier
    } else {
        Error::AbruptDoctypeSystemIdentifier
    };
    if i >= s.len() {
        doctype_at_end(t)
    } else if s[i] == q {
        Act::Goto(moved(t, i + 1, after))
    } else if s[i] == '\0' {
        push_id(erred(moved(t, i + 1, t.state), Error::UnexpectedNullCharacter), public, '\u{FFFD}')
    } else if s[i] == '>' {
        emit_doctype(quirked(erred(moved(t, i + 1, TokenizationState::Data), abrupt)))
    } else {
        push_id(moved(t, i + 1, t.state), public, s[i])
    }
}

/// `AfterDoctypePublicIdentifier` and
/// `BetweenDoctypePublicAndSystemIdentifiers` (`between`): a quote opens the
/// system identifier (straight after the public one, an error).
pub open spec fn after_public_id(s: Seq<char>, t: TokState, between: bool) -> Act {
    let i = t.pos;
    if i >= s.len() {
        doctype_at_end(t)
    } else if is_ws(s[i]) {
        Act::Goto(moved(t, i + 1, TokenizationState::BetweenDoctypePublicAndSystemIdentifiers))
    } else if s[i] == '>' {
        emit_doctype(moved(t, i + 1, TokenizationState::Data))
    } else if s[i] == '"' || s[i] == '\'' {
        let st = if s[i] == '"' {
            TokenizationState::DoctypeSystemIdentifierDoubleQuoted
        } else {
            TokenizationState::DoctypeSystemIdentifierSingleQuoted
        };
        let t1 = if between {
            moved(t, i + 1, st)
        } else {
            erred(moved(t, i + 1, st), Error::MissingWhitespaceBetweenDoctypePublicAndSystemIdentifiers)
        };
        Act::Goto(with_id(t1, false, Seq::empty()))
    } else {
        Act::Goto(
            quirked(
                erred(moved(t, i, TokenizationState::BogusDoctype), Error::MissingQuoteBeforeDoctypeSystemIdentifier),
            ),
        )
    }
}

/// `AfterDoctypeSystemIdentifier`.
pub open spec fn after_system_id(s: Seq<char>, t: TokState) -> Act {
    let i = t.pos;
    if i >= s.len() {
        doctype_at_end(t)
    } else if is_ws(s[i]) {
        Act::Goto(moved(t, i + 1, TokenizationState::AfterDoctypeSystemIdentifier))
    } else if s[i] == '>' {
        emit_doctype(moved(t, i + 1, TokenizationState::Data))
    } else {
        Act::Goto(
            erred(moved(t, i, TokenizationState::BogusDoctype), Error::UnexpectedCharacterAfterDoctypeSystemIdentifier),
        )
    }
}

/// `BogusDoctype`: up to `>`, one character at a time; at the end of the
/// input the document type is handed out as it is.
pub open spec fn bogus_doctype(s: Seq<char>, t: TokState) -> Act {
    let i = t.pos;
    let st = TokenizationState::BogusDoctype;
    if i >= s.len() {
        emit_doctype(t)
    } else if s[i] == '>' {
        emit_doctype(moved(t, i + 1, TokenizationState::Data))
    } else if s[i] == '\0' {
        Act::Goto(erred(moved(t, i + 1, st), Error::UnexpectedNullCharacter))
    } else {
        Act::Goto(moved(t, i + 1, st))
    }
}

// ---------------------------------------------------------------------------
// Processing instruction states.

/// The processing instruction states. What a processing instruction holds
/// is not handed out.
pub open spec fn processing_instruction(s: Seq<char>, t: TokState) -> Act {
    let i = t.pos;
    let c = at(s, i);
    let bogus = TokenizationState::BogusComment;
    match t.state {
        TokenizationState::ProcessingInstructionOpen => if c is None {
            Act::Return(erred(t, Error::EofInProcessingInstruction), TokenView::EndOfFile)
        } else if is_alpha(s[i]) || s[i] == '_' {
            Act::Goto(TokState { mark: i, state: TokenizationState::ProcessingInstructionTarget, ..t })
        } else {
            Act::Goto(erred(moved(t, i, bogus), Error::InvalidFirstCharacterOfProcessingInstructionTarget))
        },
        TokenizationState::ProcessingInstructionTarget => if c is None {
            Act::Return(erred(t, Error::EofInProcessingInstruction), TokenView::EndOfFile)
        } else if is_ws(s[i]) || s[i] == '?' || s[i] == '>' {
            let target = lower(s.subrange(t.mark, i));
            if target == xml_text() || target == xml_stylesheet_text() {
                Act::Goto(erred(moved(t, i, bogus), Error::DisallowedProcessingInstructionTarget))
            } else {
                Act::Goto(moved(t, i, TokenizationState::AfterProcessingInstructionTarget))
            }
        } else if is_alnum(s[i]) || s[i] == '-' || s[i] == '_' {
            Act::Goto(moved(t, i + 1, TokenizationState::ProcessingInstructionTarget))
        } else {
            Act::Goto(erred(moved(t, i, bogus), Error::InvalidProcessingInstructionTarget))
        },
        TokenizationState::AfterProcessingInstructionTarget => if c is Some && is_ws(s[i]) {
            Act::Goto(moved(t, i + 1, TokenizationState::AfterProcessingInstructionTarget))
        } else {
            Act::Goto(TokState { mark: i, state: TokenizationState::ProcessingInstructionData, ..t })
        },
        TokenizationState::ProcessingInstructionData => {
            let j = run_end(s, i, Stop::QuestionGt);
            if j >= s.len() {
                Act::Return(erred(TokState { pos: j, ..t }, Error::EofInProcessingInstruction), TokenView::EndOfFile)
            } else if s[j] == '?' {
                Act::Goto(moved(t, j + 1, TokenizationState::ProcessingInstructionQuestionable))
            } else {
                Act::Goto(moved(t, j + 1, TokenizationState::Data))
            }
        },
        _ => if c == Some('>') {
            Act::Goto(moved(t, i + 1, TokenizationState::Data))
        } else if c is None {
            Act::Return(erred(t, Error::EofInProcessingInstruction), TokenView::EndOfFile)
        } else {
            Act::Goto(moved(t, i, TokenizationState::ProcessingInstructionData))
        },
    }
}

// ---------------------------------------------------------------------------
// Character reference states.

/// A state that reads an attribute's value: what a character reference read
/// from it stands for is added to the value instead of being handed out.
pub open spec fn reads_attribute_value(st: TokenizationState) -> bool {
    st == TokenizationState::AttributeValueDoubleQuoted || st == TokenizationState::AttributeValueSingleQuoted
        || st == TokenizationState::AttributeValueUnquoted
}

/// `CharacterReference`: the mark goes back one byte, over the character
/// before the position (the `&`). The program stops where there is no
/// character before the position or it is not a single byte.
pub open spec fn character_reference(s: Seq<char>, t: TokState) -> Act {
    let i = t.pos;
    if i <= 0 || i > s.len() || !((s[i - 1] as u32) < 0x80) {
        Act::Stuck
    } else if reads_attribute_value(t.return_state) {
        let t1 = TokState { mark: i - 1, ..t };
        if i < s.len() && is_alnum(s[i]) {
            Act::Goto(TokState { state: TokenizationState::NamedCharacterReference, ..t1 })
        } else if i < s.len() && s[i] == '#' {
            Act::Goto(moved(t1, i + 1, TokenizationState::NumericCharacterReference))
        } else {
            Act::Goto(back_in_value(t, i, s.subrange(i - 1, i)))
        }
    } else {
        let t1 = TokState { mark: i - 1, ..t };
        if i < s.len() && is_alnum(s[i]) {
            Act::Goto(TokState { state: TokenizationState::NamedCharacterReference, ..t1 })
        } else if i < s.len() && s[i] == '#' {
            Act::Goto(moved(t1, i + 1, TokenizationState::NumericCharacterReference))
        } else {
            Act::Return(TokState { state: t.return_state, ..t1 }, TokenView::Character(s.subrange(i - 1, i)))
        }
    }
}

/// `NamedCharacterReference` and `AmbiguousAmpersand`: no name is looked
/// up; letters and digits are taken in (with `;`, an error), and the text
/// from the mark on is handed back, or, inside an attribute's value, added
/// to the value.
pub open spec fn named_reference(s: Seq<char>, t: TokState) -> Act {
    let i = t.pos;
    if t.state == TokenizationState::NamedCharacterReference {
        Act::Goto(moved(t, i, TokenizationState::AmbiguousAmpersand))
    } else if i < s.len() && is_alnum(s[i]) {
        Act::Goto(moved(t, i + 1, TokenizationState::AmbiguousAmpersand))
    } else if reads_attribute_value(t.return_state) {
        if i < s.len() && s[i] == ';' {
            Act::Goto(
                erred(back_in_value(t, i + 1, s.subrange(t.mark, i + 1)), Error::UnknownNamedCharacterReference),
            )
        } else {
            Act::Goto(back_in_value(t, i, s.subrange(t.mark, i)))
        }
    } else if i < s.len() && s[i] == ';' {
        Act::Return(
            erred(moved(t, i + 1, t.return_state), Error::UnknownNamedCharacterReference),
            TokenView::Character(s.subrange(t.mark, i + 1)),
        )
    } else {
        Act::Return(moved(t, i, t.return_state), TokenView::Character(s.subrange(t.mark, i)))
    }
}

/// `code` times `m`, as `wrapping_mul` computes it.
pub open spec fn times(code: u32, m: u32) -> u32 {
    vstd::wrapping::u32_specs::wrapping_mul(code, m)
}

/// The numeric character reference states.
pub open spec fn numeric_reference(s: Seq<char>, t: TokState) -> Act {
    let i = t.pos;
    let c = at(s, i);
    let end = TokenizationState::NumericCharacterReferenceEnd;
    match t.state {
        TokenizationState::NumericCharacterReference => {
            let t1 = TokState { code: 0, ..t };
            if c == Some('x') || c == Some('X') {
                Act::Goto(moved(t1, i + 1, TokenizationState::HexadecimalCharacterReferenceStart))
            } else if c is Some && is_digit(s[i]) {
                Act::Goto(moved(t1, i, TokenizationState::DecimalCharacterReference))
            } else if reads_attribute_value(t.return_state) {
                Act::Goto(
                    erred(back_in_value(t1, i, s.subrange(t.mark, i)), Error::AbsenceOfDigitsInNumericCharacterReference),
                )
            } else {
                Act::Return(
                    erred(moved(t1, i, t.return_state), Error::AbsenceOfDigitsInNumericCharacterReference),
                    TokenView::Character(s.subrange(t.mark, i)),
                )
            }
        },
        TokenizationState::HexadecimalCharacterReferenceStart => if c is Some && is_hex(s[i]) {
            Act::Goto(moved(t, i, TokenizationState::HexadecimalCharacterReference))
        } else if reads_attribute_value(t.return_state) {
            Act::Goto(
                erred(back_in_value(t, i, s.subrange(t.mark, i)), Error::AbsenceOfDigitsInNumericCharacterReference),
            )
        } else if is_return_state(t.return_state) {
            Act::Return(
                erred(moved(t, i, t.return_state), Error::AbsenceOfDigitsInNumericCharacterReference),
                TokenView::Character(s.subrange(t.mark, i)),
            )
        } else {
            Act::Stuck
        },
        TokenizationState::HexadecimalCharacterReference => if c is Some && is_hex(s[i]) {
            Act::Goto(
                TokState { pos: i + 1, code: (times(t.code, 16) + hex_value(s[i])) as u32, ..t },
            )
        } else if c == Some(';') {
            Act::Goto(moved(t, i + 1, end))
        } else {
            Act::Goto(erred(moved(t, i, end), Error::MissingSemicolonAfterCharacterReference))
        },
        _ => if c is Some && is_digit(s[i]) {
            let v = times(t.code, 10) + hex_value(s[i]);
            if v > u32::MAX {
                Act::Stuck
            } else {
                Act::Goto(TokState { pos: i + 1, code: v as u32, ..t })
            }
        } else if c == Some(';') {
            Act::Goto(moved(t, i + 1, end))
        } else {
            Act::Goto(erred(moved(t, i, end), Error::MissingSemicolonAfterCharacterReference))
        },
    }
}

/// The replacement of a C1 control code in a numeric character reference,
/// after Windows-1252.
pub open spec fn c1_replacement(code: u32) -> u32 {
    if code == 0x80 { 0x20AC }
    else if code == 0x82 { 0x201A }
    else if code == 0x83 { 0x0192 }
    else if code == 0x84 { 0x201E }
    else if code == 0x85 { 0x2026 }
    else if code == 0x86 { 0x2020 }
    else if code == 0x87 { 0x2021 }
    else if code == 0x88 { 0x02C6 }
    else if code == 0x89 { 0x2030 }
    else if code == 0x8A { 0x0160 }
    else if code == 0x8B { 0x2039 }
    else if code == 0x8C { 0x0152 }
    else if code == 0x8E { 0x017D }
    else if code == 0x91 { 0x2018 }
    else if code == 0x92 { 0x2019 }
    else if code == 0x93 { 0x201C }
    else if code == 0x94 { 0x201D }
    else if code == 0x95 { 0x2022 }
    else if code == 0x96 { 0x2013 }
    else if code == 0x97 { 0x2014 }
    else if code == 0x98 { 0x02DC }
    else if code == 0x99 { 0x2122 }
    else if code == 0x9A { 0x0161 }
    else if code == 0x9B { 0x203A }
    else if code == 0x9C { 0x0153 }
    else if code == 0x9E { 0x017E }
    else if code == 0x9F { 0x0178 }
    else { code }
}

/// Whether `code` is a noncharacter.
pub open spec fn is_noncharacter(code: u32) -> bool {
    (0xFDD0 <= code && code <= 0xFDEF) || code % 0x10000 == 0xFFFE || code % 0x10000 == 0xFFFF
}

/// Whether `code` is a control the standard reports: carriage return, or a
/// C0 or C1 control other than tab, line feed, form feed and space.
pub open spec fn is_reported_control(code: u32) -> bool {
    code == 0x0D || ((code <= 0x1F || (0x7F <= code && code <= 0x9F)) && !(code == 0x09 || code == 0x0A
        || code == 0x0C || code == 0x20))
}

/// The error a numeric character reference with `code` reports, if any, and
/// the code it stands for.
pub open spec fn resolve(code: u32) -> (Option<Error>, u32) {
    if code == 0 {
        (Some(Error::NullCharacterReference), 0xFFFD)
    } else if code > 0x10FFFF {
        (Some(Error::CharacterReferenceOutsideUnicodeRange), 0xFFFD)
    } else if 0xD800 <= code && code <= 0xDFFF {
        (Some(Error::SurrogateCharacterReference), 0xFFFD)
    } else if is_noncharacter(code) {
        (Some(Error::NoncharacterCharacterReference), code)
    } else if is_reported_control(code) {
        (Some(Error::ControlCharacterReference), c1_replacement(code))
    } else {
        (None, code)
    }
}

/// The character of `v`, U+FFFD where it is no Unicode scalar value.
pub open spec fn char_of(v: u32) -> char {
    if is_scalar(v) {
        v as char
    } else {
        '\u{FFFD}'
    }
}

/// `NumericCharacterReferenceEnd`: hands out the character the code stands
/// for, and returns; inside an attribute's value the character is added to
/// the value.
pub open spec fn reference_end(s: Seq<char>, t: TokState) -> Act {
    let (e, v) = resolve(t.code);
    let t1 = match e {
        Some(x) => erred(t, x),
        None => t,
    };
    if reads_attribute_value(t.return_state) {
        Act::Goto(back_in_value(t1, t.pos, one(char_of(v))))
    } else {
        Act::Return(TokState { state: t.return_state, ..t1 }, TokenView::Character(one(char_of(v))))
    }
}

// ---------------------------------------------------------------------------
// All the states.

/// What the current state does.
pub open spec fn state_action(s: Seq<char>, t: TokState) -> Act {
    match t.state {
        TokenizationState::Data => text_state(s, t, Stop::Data, Some(TokenizationState::TagOpen), false),
        TokenizationState::RcData => text_state(s, t, Stop::Data, Some(TokenizationState::RcDataLessThanSign), true),
        TokenizationState::RawText => text_state(s, t, Stop::RawText, Some(TokenizationState::RawTextLessThanSign), true),
        TokenizationState::ScriptData => text_state(
            s,
            t,
            Stop::RawText,
            Some(TokenizationState::ScriptDataLessThanSign),
            true,
        ),
        TokenizationState::PlainText => text_state(s, t, Stop::Nul, None, true),
        TokenizationState::TagOpen => tag_open(s, t),
        TokenizationState::EndTagOpen => end_tag_open(s, t),
        TokenizationState::TagName => tag_name(s, t),
        TokenizationState::RcDataLessThanSign => less_than_sign(
            s,
            t,
            TokenizationState::RcData,
            TokenizationState::RcDataEndTagOpen,
        ),
        TokenizationState::RcDataEndTagOpen => end_tag_open_in(
            s,
            t,
            TokenizationState::RcData,
            TokenizationState::RcDataEndTagName,
            None,
        ),
        TokenizationState::RcDataEndTagName => end_tag_name_in(s, t, TokenizationState::RcData),
        TokenizationState::RawTextLessThanSign => less_than_sign(
            s,
            t,
            TokenizationState::RawText,
            TokenizationState::RawTextEndTagOpen,
        ),
        TokenizationState::RawTextEndTagOpen => end_tag_open_in(
            s,
            t,
            TokenizationState::RawText,
            TokenizationState::RawTextEndTagName,
            Some(false),
        ),
        TokenizationState::RawTextEndTagName => end_tag_name_in(s, t, TokenizationState::RawText),
        TokenizationState::ScriptDataLessThanSign => script_less_than_sign(s, t),
        TokenizationState::ScriptDataEndTagOpen => end_tag_open_in(
            s,
            t,
            TokenizationState::ScriptData,
            TokenizationState::ScriptDataEndTagName,
            Some(false),
        ),
        TokenizationState::ScriptDataEndTagName => end_tag_name_in(s, t, TokenizationState::ScriptData),
        TokenizationState::ScriptDataEscapeStart => escape_start(s, t, TokenizationState::ScriptDataEscapeStartDash),
        TokenizationState::ScriptDataEscapeStartDash => escape_start(
            s,
            t,
            TokenizationState::ScriptDataEscapedDashDash,
        ),
        TokenizationState::ScriptDataEscaped => escaped_text(s, t, false),
        TokenizationState::ScriptDataEscapedDash => escaped_dash(s, t, false, false),
        TokenizationState::ScriptDataEscapedDashDash => escaped_dash(s, t, false, true),
        TokenizationState::ScriptDataEscapedLessThanSign => escaped_less_than_sign(s, t),
        TokenizationState::ScriptDataEscapedEndTagOpen => end_tag_open_in(
            s,
            t,
            TokenizationState::ScriptDataEscaped,
            TokenizationState::ScriptDataEscapedEndTagName,
            Some(false),
        ),
        TokenizationState::ScriptDataEscapedEndTagName => end_tag_name_in(s, t, TokenizationState::ScriptDataEscaped),
        TokenizationState::ScriptDataDoubleEscapeStart => double_escape_switch(s, t, false),
        TokenizationState::ScriptDataDoubleEscaped => escaped_text(s, t, true),
        TokenizationState::ScriptDataDoubleEscapedDash => escaped_dash(s, t, true, false),
        TokenizationState::ScriptDataDoubleEscapedDashDash => escaped_dash(s, t, true, true),
        TokenizationState::ScriptDataDoubleEscapedLessThanSign => double_escaped_less_than_sign(s, t),
        TokenizationState::ScriptDataDoubleEscapeEnd => double_escape_switch(s, t, true),
        TokenizationState::BeforeAttributeName => before_attribute_name(s, t),
        TokenizationState::AttributeName => attribute_name(s, t),
        TokenizationState::AfterAttributeName => after_attribute_name(s, t),
        TokenizationState::BeforeAttributeValue => before_attribute_value(s, t),
        TokenizationState::AttributeValueDoubleQuoted => attribute_value_quoted(s, t, '"'),
        TokenizationState::AttributeValueSingleQuoted => attribute_value_quoted(s, t, '\''),
        TokenizationState::AttributeValueUnquoted => attribute_value_unquoted(s, t),
        TokenizationState::AfterAttributeValueQuoted => after_attribute_value_quoted(s, t),
        TokenizationState::SelfClosingStartTag => self_closing_start_tag(s, t),
        TokenizationState::BogusComment => bogus_comment(s, t),
        TokenizationState::MarkupDeclarationOpen => markup_declaration_open(s, t),
        TokenizationState::CommentStart => comment_states(s, t),
        TokenizationState::CommentStartDash => comment_states(s, t),
        TokenizationState::Comment => comment_states(s, t),
        TokenizationState::CommentLessThanSign => comment_states(s, t),
        TokenizationState::CommentLessThanSignBang => comment_states(s, t),
        TokenizationState::CommentLessThanSignBangDash => comment_states(s, t),
        TokenizationState::CommentLessThanSignBangDashDash => comment_states(s, t),
        TokenizationState::CommentEndDash => comment_states(s, t),
        TokenizationState::CommentEnd => comment_states(s, t),
        TokenizationState::CommentEndBang => comment_states(s, t),
        TokenizationState::Doctype => doctype_start(s, t),
        TokenizationState::BeforeDoctypeName => doctype_start(s, t),
        TokenizationState::DoctypeName => doctype_name(s, t),
        TokenizationState::AfterDoctypeName => after_doctype_name(s, t),
        TokenizationState::AfterDoctypePublicKeyword => doctype_id_open(s, t, true, true),
        TokenizationState::BeforeDoctypePublicIdentifier => doctype_id_open(s, t, true, false),
        TokenizationState::DoctypePublicIdentifierDoubleQuoted => doctype_id_quoted(s, t, true, '"'),
        TokenizationState::DoctypePublicIdentifierSingleQuoted => doctype_id_quoted(s, t, true, '\''),
        TokenizationState::AfterDoctypePublicIdentifier => after_public_id(s, t, false),
        TokenizationState::BetweenDoctypePublicAndSystemIdentifiers => after_public_id(s, t, true),
        TokenizationState::AfterDoctypeSystemKeyword => doctype_id_open(s, t, false, true),
        TokenizationState::BeforeDoctypeSystemIdentifier => doctype_id_open(s, t, false, false),
        TokenizationState::DoctypeSystemIdentifierDoubleQuoted => doctype_id_quoted(s, t, false, '"'),
        TokenizationState::DoctypeSystemIdentifierSingleQuoted => doctype_id_quoted(s, t, false, '\''),
        TokenizationState::AfterDoctypeSystemIdentifier => after_system_id(s, t),
        TokenizationState::BogusDoctype => bogus_doctype(s, t),
        TokenizationState::CdataSection => cdata_section(s, t),
        TokenizationState::CdataSectionBracket => cdata_brackets(s, t),
        TokenizationState::CdataSectionEnd => cdata_brackets(s, t),
        TokenizationState::ProcessingInstructionOpen => processing_instruction(s, t),
        TokenizationState::ProcessingInstructionTarget => processing_instruction(s, t),
        TokenizationState::AfterProcessingInstructionTarget => processing_instruction(s, t),
        TokenizationState::ProcessingInstructionData => processing_instruction(s, t),
        TokenizationState::ProcessingInstructionQuestionable => processing_instruction(s, t),
        TokenizationState::CharacterReference => character_reference(s, t),
        TokenizationState::NamedCharacterReference => named_reference(s, t),
        TokenizationState::AmbiguousAmpersand => named_reference(s, t),
        TokenizationState::NumericCharacterReference => numeric_reference(s, t),
        TokenizationState::HexadecimalCharacterReferenceStart => numeric_reference(s, t),
        TokenizationState::HexadecimalCharacterReference => numeric_reference(s, t),
        TokenizationState::DecimalCharacterReference => numeric_reference(s, t),
        TokenizationState::NumericCharacterReferenceEnd => reference_end(s, t),
    }
}

/// What one round of the tokenizer's loop does: at the end of the input in
/// state `Data` it hands back `EndOfFile`, else the state acts.
pub open spec fn action(s: Seq<char>, t: TokState) -> Act {
    if t.pos >= s.len() && t.state == TokenizationState::Data {
        Act::Return(t, TokenView::EndOfFile)
    } else {
        state_action(s, t)
    }
}

/// The order in which states hand over without reading a character: each
/// hands over only to a lower one. `AttributeName` hands over without
/// reading only where the character at the position ends the name.
pub open spec fn rank(s: Seq<char>, t: TokState) -> nat {
    match t.state {
        TokenizationState::AfterAttributeValueQuoted => 4,
        TokenizationState::SelfClosingStartTag => 4,
        TokenizationState::BeforeAttributeValue => 4,
        TokenizationState::CharacterReference => 7,
        TokenizationState::NamedCharacterReference => 6,
        TokenizationState::NumericCharacterReference => 6,
        TokenizationState::HexadecimalCharacterReferenceStart => 6,
        TokenizationState::AmbiguousAmpersand => 5,
        TokenizationState::HexadecimalCharacterReference => 5,
        TokenizationState::DecimalCharacterReference => 5,
        TokenizationState::NumericCharacterReferenceEnd => 4,
        TokenizationState::BeforeAttributeName => 3,
        TokenizationState::AttributeValueDoubleQuoted => 3,
        TokenizationState::AttributeValueSingleQuoted => 3,
        TokenizationState::AttributeValueUnquoted => 3,
        TokenizationState::ProcessingInstructionOpen => 3,
        TokenizationState::AttributeName => if t.pos >= s.len() || stops(Stop::AttributeEnd, s[t.pos]) {
            2
        } else {
            0
        },
        TokenizationState::Doctype => 2,
        TokenizationState::CommentLessThanSignBangDash => 2,
        TokenizationState::CommentLessThanSignBangDashDash => 2,
        TokenizationState::ProcessingInstructionTarget => 2,
        TokenizationState::AfterAttributeName => 1,
        TokenizationState::TagOpen => 1,
        TokenizationState::EndTagOpen => 1,
        TokenizationState::RcDataEndTagOpen => 1,
        TokenizationState::RawTextEndTagOpen => 1,
        TokenizationState::ScriptDataEndTagOpen => 1,
        TokenizationState::ScriptDataEscapedEndTagOpen => 1,
        TokenizationState::ScriptDataEscapeStart => 1,
        TokenizationState::ScriptDataEscapeStartDash => 1,
        TokenizationState::ScriptDataDoubleEscapedLessThanSign => 1,
        TokenizationState::MarkupDeclarationOpen => 1,
        TokenizationState::CommentStart => 1,
        TokenizationState::CommentStartDash => 1,
        TokenizationState::CommentLessThanSign => 1,
        TokenizationState::CommentLessThanSignBang => 1,
        TokenizationState::CommentEndDash => 1,
        TokenizationState::CommentEnd => 1,
        TokenizationState::CommentEndBang => 1,
        TokenizationState::BeforeDoctypeName => 1,
        TokenizationState::AfterDoctypeName => 1,
        TokenizationState::AfterDoctypePublicKeyword => 1,
        TokenizationState::BeforeDoctypePublicIdentifier => 1,
        TokenizationState::AfterDoctypePublicIdentifier => 1,
        TokenizationState::BetweenDoctypePublicAndSystemIdentifiers => 1,
        TokenizationState::AfterDoctypeSystemKeyword => 1,
        TokenizationState::BeforeDoctypeSystemIdentifier => 1,
        TokenizationState::AfterDoctypeSystemIdentifier => 1,
        TokenizationState::AfterProcessingInstructionTarget => 1,
        TokenizationState::ProcessingInstructionQuestionable => 1,
        _ => 0,
    }
}

/// The words the tokenizer looks for byte by byte are ASCII.
pub proof fn lemma_words_ascii()
    ensures
        forall|k: int| 0 <= k < 7 ==> #[trigger] ascii(doctype_text())[k] < 0x80,
        forall|k: int| 0 <= k < 6 ==> #[trigger] ascii(public_text())[k] < 0x80,
        forall|k: int| 0 <= k < 6 ==> #[trigger] ascii(system_text())[k] < 0x80,
{
}

/// `lemma_goto_progress` for the text states.
proof fn lemma_progress_text(s: Seq<char>, t: TokState)
    requires
        0 <= t.pos <= s.len(),
        t.state == TokenizationState::Data || t.state == TokenizationState::RcData || t.state == TokenizationState::RawText || t.state == TokenizationState::ScriptData || t.state == TokenizationState::PlainText || t.state == TokenizationState::CdataSection || t.state == TokenizationState::CdataSectionBracket || t.state == TokenizationState::CdataSectionEnd,
    ensures
        action(s, t) matches Act::Goto(t2) ==> t.pos <= t2.pos <= s.len() && (t.pos < t2.pos || rank(s, t2)
            < rank(s, t)),
        action(s, t) matches Act::Return(t2, _) ==> t.pos <= t2.pos <= s.len(),
{
    let i = t.pos;
    match t.state {
        TokenizationState::Data => lemma_run_end(s, i, Stop::Data),
        TokenizationState::RcData => lemma_run_end(s, i, Stop::Data),
        TokenizationState::RawText => lemma_run_end(s, i, Stop::RawText),
        TokenizationState::ScriptData => lemma_run_end(s, i, Stop::RawText),
        TokenizationState::PlainText => lemma_run_end(s, i, Stop::Nul),
        TokenizationState::CdataSection => lemma_run_end(s, i, Stop::Bracket),
        _ => {},
    }
}

/// `lemma_goto_progress` for the tags states.
proof fn lemma_progress_tags(s: Seq<char>, t: TokState)
    requires
        0 <= t.pos <= s.len(),
        t.state == TokenizationState::TagOpen || t.state == TokenizationState::EndTagOpen || t.state == TokenizationState::TagName || t.state == TokenizationState::RcDataLessThanSign || t.state == TokenizationState::RawTextLessThanSign || t.state == TokenizationState::ScriptDataLessThanSign || t.state == TokenizationState::RcDataEndTagOpen || t.state == TokenizationState::RawTextEndTagOpen || t.state == TokenizationState::ScriptDataEndTagOpen || t.state == TokenizationState::ScriptDataEscapedEndTagOpen || t.state == TokenizationState::RcDataEndTagName || t.state == TokenizationState::RawTextEndTagName || t.state == TokenizationState::ScriptDataEndTagName || t.state == TokenizationState::ScriptDataEscapedEndTagName,
    ensures
        action(s, t) matches Act::Goto(t2) ==> t.pos <= t2.pos <= s.len() && (t.pos < t2.pos || rank(s, t2)
            < rank(s, t)),
        action(s, t) matches Act::Return(t2, _) ==> t.pos <= t2.pos <= s.len(),
{
    let i = t.pos;
    lemma_run_end(s, i, Stop::TagName);
    lemma_run_end(s, i, Stop::NotAlpha);
}

/// `lemma_goto_progress` for the script states.
proof fn lemma_progress_script(s: Seq<char>, t: TokState)
    requires
        0 <= t.pos <= s.len(),
        t.state == TokenizationState::ScriptDataEscapeStart || t.state == TokenizationState::ScriptDataEscapeStartDash || t.state == TokenizationState::ScriptDataEscaped || t.state == TokenizationState::ScriptDataEscapedDash || t.state == TokenizationState::ScriptDataEscapedDashDash || t.state == TokenizationState::ScriptDataEscapedLessThanSign || t.state == TokenizationState::ScriptDataDoubleEscapeStart || t.state == TokenizationState::ScriptDataDoubleEscaped || t.state == TokenizationState::ScriptDataDoubleEscapedDash || t.state == TokenizationState::ScriptDataDoubleEscapedDashDash || t.state == TokenizationState::ScriptDataDoubleEscapedLessThanSign || t.state == TokenizationState::ScriptDataDoubleEscapeEnd,
    ensures
        action(s, t) matches Act::Goto(t2) ==> t.pos <= t2.pos <= s.len() && (t.pos < t2.pos || rank(s, t2)
            < rank(s, t)),
        action(s, t) matches Act::Return(t2, _) ==> t.pos <= t2.pos <= s.len(),
{
    let i = t.pos;
    lemma_run_end(s, i, Stop::DashLtNul);
    lemma_run_end(s, i, Stop::NotAlpha);
}

/// `lemma_goto_progress` for the attributes states.
proof fn lemma_progress_attributes(s: Seq<char>, t: TokState)
    requires
        0 <= t.pos <= s.len(),
        t.state == TokenizationState::BeforeAttributeName || t.state == TokenizationState::AttributeName || t.state == TokenizationState::AfterAttributeName || t.state == TokenizationState::BeforeAttributeValue || t.state == TokenizationState::AttributeValueDoubleQuoted || t.state == TokenizationState::AttributeValueSingleQuoted || t.state == TokenizationState::AttributeValueUnquoted || t.state == TokenizationState::AfterAttributeValueQuoted || t.state == TokenizationState::SelfClosingStartTag,
    ensures
        action(s, t) matches Act::Goto(t2) ==> t.pos <= t2.pos <= s.len() && (t.pos < t2.pos || rank(s, t2)
            < rank(s, t)),
        action(s, t) matches Act::Return(t2, _) ==> t.pos <= t2.pos <= s.len(),
{
    let i = t.pos;
    match t.state {
        TokenizationState::AttributeName => lemma_run_end(s, i, Stop::AttributeEnd),
        TokenizationState::AttributeValueDoubleQuoted => lemma_run_end(s, i, Stop::Quoted('"')),
        TokenizationState::AttributeValueSingleQuoted => lemma_run_end(s, i, Stop::Quoted('\'')),
        TokenizationState::AttributeValueUnquoted => lemma_run_end(s, i, Stop::Unquoted),
        _ => {},
    }
}

/// `lemma_goto_progress` for the comments states.
proof fn lemma_progress_comments(s: Seq<char>, t: TokState)
    requires
        0 <= t.pos <= s.len(),
        t.state == TokenizationState::BogusComment || t.state == TokenizationState::MarkupDeclarationOpen || t.state == TokenizationState::CommentStart || t.state == TokenizationState::CommentStartDash || t.state == TokenizationState::Comment || t.state == TokenizationState::CommentLessThanSign || t.state == TokenizationState::CommentLessThanSignBang || t.state == TokenizationState::CommentLessThanSignBangDash || t.state == TokenizationState::CommentLessThanSignBangDashDash || t.state == TokenizationState::CommentEndDash || t.state == TokenizationState::CommentEnd || t.state == TokenizationState::CommentEndBang,
    ensures
        action(s, t) matches Act::Goto(t2) ==> t.pos <= t2.pos <= s.len() && (t.pos < t2.pos || rank(s, t2)
            < rank(s, t)),
        action(s, t) matches Act::Return(t2, _) ==> t.pos <= t2.pos <= s.len(),
{
    let i = t.pos;
    lemma_words_ascii();
    lemma_run_end(s, i, Stop::DashLtNul);
    lemma_run_end(s, i, Stop::GreaterThan);
    if t.state == TokenizationState::MarkupDeclarationOpen && !chars_at(s, i, seq!['-', '-']) && !cuts_char(s, i, 7)
        && keyword_at(s, i, doctype_text()) {
        lemma_keyword_chars(s, i, doctype_text());
    }
}

/// `lemma_goto_progress` for the doctype states.
proof fn lemma_progress_doctype(s: Seq<char>, t: TokState)
    requires
        0 <= t.pos <= s.len(),
        t.state == TokenizationState::Doctype || t.state == TokenizationState::BeforeDoctypeName || t.state == TokenizationState::DoctypeName || t.state == TokenizationState::AfterDoctypeName,
    ensures
        action(s, t) matches Act::Goto(t2) ==> t.pos <= t2.pos <= s.len() && (t.pos < t2.pos || rank(s, t2)
            < rank(s, t)),
        action(s, t) matches Act::Return(t2, _) ==> t.pos <= t2.pos <= s.len(),
{
    let i = t.pos;
    lemma_words_ascii();
    if t.state == TokenizationState::AfterDoctypeName && i < s.len() && !cuts_char(s, i, 6) {
        if keyword_at(s, i, public_text()) {
            lemma_keyword_chars(s, i, public_text());
        } else if keyword_at(s, i, system_text()) {
            lemma_keyword_chars(s, i, system_text());
        }
    }
}

/// `lemma_goto_progress` for the document type identifier states.
proof fn lemma_progress_identifiers(s: Seq<char>, t: TokState)
    requires
        0 <= t.pos <= s.len(),
        t.state == TokenizationState::AfterDoctypePublicKeyword || t.state == TokenizationState::BeforeDoctypePublicIdentifier || t.state == TokenizationState::DoctypePublicIdentifierDoubleQuoted || t.state == TokenizationState::DoctypePublicIdentifierSingleQuoted || t.state == TokenizationState::AfterDoctypePublicIdentifier || t.state == TokenizationState::BetweenDoctypePublicAndSystemIdentifiers || t.state == TokenizationState::AfterDoctypeSystemKeyword || t.state == TokenizationState::BeforeDoctypeSystemIdentifier || t.state == TokenizationState::DoctypeSystemIdentifierDoubleQuoted || t.state == TokenizationState::DoctypeSystemIdentifierSingleQuoted || t.state == TokenizationState::AfterDoctypeSystemIdentifier || t.state == TokenizationState::BogusDoctype,
    ensures
        action(s, t) matches Act::Goto(t2) ==> t.pos <= t2.pos <= s.len() && (t.pos < t2.pos || rank(s, t2)
            < rank(s, t)),
        action(s, t) matches Act::Return(t2, _) ==> t.pos <= t2.pos <= s.len(),
{
}

/// `lemma_goto_progress` for the references states.
proof fn lemma_progress_references(s: Seq<char>, t: TokState)
    requires
        0 <= t.pos <= s.len(),
        t.state == TokenizationState::ProcessingInstructionOpen || t.state == TokenizationState::ProcessingInstructionTarget || t.state == TokenizationState::AfterProcessingInstructionTarget || t.state == TokenizationState::ProcessingInstructionData || t.state == TokenizationState::ProcessingInstructionQuestionable || t.state == TokenizationState::CharacterReference || t.state == TokenizationState::NamedCharacterReference || t.state == TokenizationState::AmbiguousAmpersand || t.state == TokenizationState::NumericCharacterReference || t.state == TokenizationState::HexadecimalCharacterReferenceStart || t.state == TokenizationState::HexadecimalCharacterReference || t.state == TokenizationState::DecimalCharacterReference || t.state == TokenizationState::NumericCharacterReferenceEnd,
    ensures
        action(s, t) matches Act::Goto(t2) ==> t.pos <= t2.pos <= s.len() && (t.pos < t2.pos || rank(s, t2)
            < rank(s, t)),
        action(s, t) matches Act::Return(t2, _) ==> t.pos <= t2.pos <= s.len(),
{
    let i = t.pos;
    lemma_run_end(s, i, Stop::QuestionGt);
}

/// A state that hands over moves forward, or stays put and hands over to a
/// lower state, and stays inside the input; one that hands back a token
/// stays inside the input and never moves back.
pub proof fn lemma_goto_progress(s: Seq<char>, t: TokState)
    requires
        0 <= t.pos <= s.len(),
    ensures
        action(s, t) matches Act::Goto(t2) ==> t.pos <= t2.pos <= s.len() && (t.pos < t2.pos || rank(s, t2)
            < rank(s, t)),
        action(s, t) matches Act::Return(t2, _) ==> t.pos <= t2.pos <= s.len(),
{
    match t.state {
        TokenizationState::Data => lemma_progress_text(s, t),
        TokenizationState::RcData => lemma_progress_text(s, t),
        TokenizationState::RawText => lemma_progress_text(s, t),
        TokenizationState::ScriptData => lemma_progress_text(s, t),
        TokenizationState::PlainText => lemma_progress_text(s, t),
        TokenizationState::CdataSection => lemma_progress_text(s, t),
        TokenizationState::CdataSectionBracket => lemma_progress_text(s, t),
        TokenizationState::CdataSectionEnd => lemma_progress_text(s, t),
        TokenizationState::TagOpen => lemma_progress_tags(s, t),
        TokenizationState::EndTagOpen => lemma_progress_tags(s, t),
        TokenizationState::TagName => lemma_progress_tags(s, t),
        TokenizationState::RcDataLessThanSign => lemma_progress_tags(s, t),
        TokenizationState::RawTextLessThanSign => lemma_progress_tags(s, t),
        TokenizationState::ScriptDataLessThanSign => lemma_progress_tags(s, t),
        TokenizationState::RcDataEndTagOpen => lemma_progress_tags(s, t),
        TokenizationState::RawTextEndTagOpen => lemma_progress_tags(s, t),
        TokenizationState::ScriptDataEndTagOpen => lemma_progress_tags(s, t),
        TokenizationState::ScriptDataEscapedEndTagOpen => lemma_progress_tags(s, t),
        TokenizationState::RcDataEndTagName => lemma_progress_tags(s, t),
        TokenizationState::RawTextEndTagName => lemma_progress_tags(s, t),
        TokenizationState::ScriptDataEndTagName => lemma_progress_tags(s, t),
        TokenizationState::ScriptDataEscapedEndTagName => lemma_progress_tags(s, t),
        TokenizationState::ScriptDataEscapeStart => lemma_progress_script(s, t),
        TokenizationState::ScriptDataEscapeStartDash => lemma_progress_script(s, t),
        TokenizationState::ScriptDataEscaped => lemma_progress_script(s, t),
        TokenizationState::ScriptDataEscapedDash => lemma_progress_script(s, t),
        TokenizationState::ScriptDataEscapedDashDash => lemma_progress_script(s, t),
        TokenizationState::ScriptDataEscapedLessThanSign => lemma_progress_script(s, t),
        TokenizationState::ScriptDataDoubleEscapeStart => lemma_progress_script(s, t),
        TokenizationState::ScriptDataDoubleEscaped => lemma_progress_script(s, t),
        TokenizationState::ScriptDataDoubleEscapedDash => lemma_progress_script(s, t),
        TokenizationState::ScriptDataDoubleEscapedDashDash => lemma_progress_script(s, t),
        TokenizationState::ScriptDataDoubleEscapedLessThanSign => lemma_progress_script(s, t),
        TokenizationState::ScriptDataDoubleEscapeEnd => lemma_progress_script(s, t),
        TokenizationState::BeforeAttributeName => lemma_progress_attributes(s, t),
        TokenizationState::AttributeName => lemma_progress_attributes(s, t),
        TokenizationState::AfterAttributeName => lemma_progress_attributes(s, t),
        TokenizationState::BeforeAttributeValue => lemma_progress_attributes(s, t),
        TokenizationState::AttributeValueDoubleQuoted => lemma_progress_attributes(s, t),
        TokenizationState::AttributeValueSingleQuoted => lemma_progress_attributes(s, t),
        TokenizationState::AttributeValueUnquoted => lemma_progress_attributes(s, t),
        TokenizationState::AfterAttributeValueQuoted => lemma_progress_attributes(s, t),
        TokenizationState::SelfClosingStartTag => lemma_progress_attributes(s, t),
        TokenizationState::BogusComment => lemma_progress_comments(s, t),
        TokenizationState::MarkupDeclarationOpen => lemma_progress_comments(s, t),
        TokenizationState::CommentStart => lemma_progress_comments(s, t),
        TokenizationState::CommentStartDash => lemma_progress_comments(s, t),
        TokenizationState::Comment => lemma_progress_comments(s, t),
        TokenizationState::CommentLessThanSign => lemma_progress_comments(s, t),
        TokenizationState::CommentLessThanSignBang => lemma_progress_comments(s, t),
        TokenizationState::CommentLessThanSignBangDash => lemma_progress_comments(s, t),
        TokenizationState::CommentLessThanSignBangDashDash => lemma_progress_comments(s, t),
        TokenizationState::CommentEndDash => lemma_progress_comments(s, t),
        TokenizationState::CommentEnd => lemma_progress_comments(s, t),
        TokenizationState::CommentEndBang => lemma_progress_comments(s, t),
        TokenizationState::Doctype => lemma_progress_doctype(s, t),
        TokenizationState::BeforeDoctypeName => lemma_progress_doctype(s, t),
        TokenizationState::DoctypeName => lemma_progress_doctype(s, t),
        TokenizationState::AfterDoctypeName => lemma_progress_doctype(s, t),
        TokenizationState::AfterDoctypePublicKeyword => lemma_progress_identifiers(s, t),
        TokenizationState::BeforeDoctypePublicIdentifier => lemma_progress_identifiers(s, t),
        TokenizationState::DoctypePublicIdentifierDoubleQuoted => lemma_progress_identifiers(s, t),
        TokenizationState::DoctypePublicIdentifierSingleQuoted => lemma_progress_identifiers(s, t),
        TokenizationState::AfterDoctypePublicIdentifier => lemma_progress_identifiers(s, t),
        TokenizationState::BetweenDoctypePublicAndSystemIdentifiers => lemma_progress_identifiers(s, t),
        TokenizationState::AfterDoctypeSystemKeyword => lemma_progress_identifiers(s, t),
        TokenizationState::BeforeDoctypeSystemIdentifier => lemma_progress_identifiers(s, t),
        TokenizationState::DoctypeSystemIdentifierDoubleQuoted => lemma_progress_identifiers(s, t),
        TokenizationState::DoctypeSystemIdentifierSingleQuoted => lemma_progress_identifiers(s, t),
        TokenizationState::AfterDoctypeSystemIdentifier => lemma_progress_identifiers(s, t),
        TokenizationState::BogusDoctype => lemma_progress_identifiers(s, t),
        TokenizationState::ProcessingInstructionOpen => lemma_progress_references(s, t),
        TokenizationState::ProcessingInstructionTarget => lemma_progress_references(s, t),
        TokenizationState::AfterProcessingInstructionTarget => lemma_progress_references(s, t),
        TokenizationState::ProcessingInstructionData => lemma_progress_references(s, t),
        TokenizationState::ProcessingInstructionQuestionable => lemma_progress_references(s, t),
        TokenizationState::CharacterReference => lemma_progress_references(s, t),
        TokenizationState::NamedCharacterReference => lemma_progress_references(s, t),
        TokenizationState::AmbiguousAmpersand => lemma_progress_references(s, t),
        TokenizationState::NumericCharacterReference => lemma_progress_references(s, t),
        TokenizationState::HexadecimalCharacterReferenceStart => lemma_progress_references(s, t),
        TokenizationState::HexadecimalCharacterReference => lemma_progress_references(s, t),
        TokenizationState::DecimalCharacterReference => lemma_progress_references(s, t),
        TokenizationState::NumericCharacterReferenceEnd => lemma_progress_references(s, t),
    }
}

/// What one call of `next_token` does from `t`: the states hand over to each
/// other until one hands back a token or the program stops.
pub open spec fn run_states(s: Seq<char>, t: TokState) -> Act
    decreases s.len() - t.pos, rank(s, t),
    when 0 <= t.pos <= s.len()
{
    match action(s, t) {
        Act::Goto(t2) => {
            proof {
                lemma_goto_progress(s, t);
            }
            run_states(s, t2)
        },
        a => a,
    }
}

/// The states never end a call by handing over.
pub proof fn lemma_run_states_ends(s: Seq<char>, t: TokState)
    requires
        0 <= t.pos <= s.len(),
    ensures
        !(run_states(s, t) is Goto),
    decreases s.len() - t.pos, rank(s, t),
{
    lemma_goto_progress(s, t);
    if let Act::Goto(t2) = action(s, t) {
        lemma_run_states_ends(s, t2);
    }
}

// ---------------------------------------------------------------------------
// The tokenizer.

/// What the tokenizer's state must be for the states that look back at the
/// characters before the position or before the mark: the mark lies at or
/// before the position, the `<`, `</` or dashes that led to a state are
/// there, and a character reference returns to one of its return states.
pub open spec fn consistent(s: Seq<char>, t: TokState) -> bool {
    &&& 0 <= t.mark <= t.pos <= s.len()
    &&& (t.state == TokenizationState::RcDataLessThanSign || t.state == TokenizationState::RawTextLessThanSign
        || t.state == TokenizationState::ScriptDataLessThanSign || t.state
        == TokenizationState::ScriptDataEscapedLessThanSign) ==> t.pos >= 1 && s[t.pos - 1] == '<'
    &&& (t.state == TokenizationState::RcDataEndTagOpen || t.state == TokenizationState::RawTextEndTagOpen
        || t.state == TokenizationState::ScriptDataEndTagOpen || t.state
        == TokenizationState::ScriptDataEscapedEndTagOpen) ==> t.pos >= 2 && s[t.pos - 2] == '<' && s[t.pos
        - 1] == '/'
    &&& (t.state == TokenizationState::RcDataEndTagName || t.state == TokenizationState::RawTextEndTagName
        || t.state == TokenizationState::ScriptDataEndTagName || t.state
        == TokenizationState::ScriptDataEscapedEndTagName) ==> t.mark >= 2 && s[t.mark - 2] == '<' && s[t.mark
        - 1] == '/'
    &&& (t.state == TokenizationState::CommentStartDash || t.state == TokenizationState::CommentEndDash
        || t.state == TokenizationState::CommentLessThanSignBangDash) ==> t.pos >= t.mark + 1 && s[t.pos
        - 1] == '-'
    &&& (t.state == TokenizationState::CommentEnd || t.state
        == TokenizationState::CommentLessThanSignBangDashDash) ==> t.pos >= t.mark + 2 && s[t.pos - 2]
        == '-' && s[t.pos - 1] == '-'
    &&& t.state == TokenizationState::CommentEndBang ==> t.pos >= t.mark + 3 && s[t.pos - 3] == '-' && s[t.pos
        - 2] == '-' && s[t.pos - 1] == '!'
    &&& is_return_state(t.return_state)
}

/// The tokenizer.
pub struct HtmlTokenizer<'a> {
    cursor: StrCursor<'a>,
    state: TokenizationState,
    return_state: TokenizationState,
    errors: Vec<Error>,
    mark: StrCursor<'a>,
    current_tag: Option<Tag<'a>>,
    is_current_tag_end: bool,
    last_start_tag_name: Option<CowStr<'a>>,
    current_doctype: Option<Doctype<'a>>,
    character_reference_code: u32,
}

/// How a state went: it handed back a token, handed over, or would stop the
/// program.
enum Flow<'a> {
    Return(HtmlToken<'a>),
    Goto,
    Stop,
}

impl<'a> HtmlTokenizer<'a> {
    /// The characters of the input.
    pub closed spec fn input(&self) -> Seq<char> {
        self.cursor.input()
    }

    /// Everything the tokenizer remembers, taken as values.
    pub closed spec fn tok(&self) -> TokState {
        TokState {
            pos: self.cursor.at(),
            state: self.state,
            return_state: self.return_state,
            errors: self.errors@,
            mark: self.mark.at(),
            tag: view_tag(self.current_tag),
            is_end: self.is_current_tag_end,
            last_start: view_text(self.last_start_tag_name),
            doctype: view_doctype(self.current_doctype),
            code: self.character_reference_code,
        }
    }

    /// The cursors are well formed over the same input, the mark at or
    /// before the position.
    closed spec fn cursors_ok(&self) -> bool {
        &&& self.cursor.wf()
        &&& self.mark.wf()
        &&& self.mark.text() == self.cursor.text()
        &&& self.mark.input() == self.cursor.input()
        &&& self.mark.at() <= self.cursor.at()
    }

    /// The cursors are well formed over the same input, and the state is
    /// consistent (see `consistent`).
    pub closed spec fn wf(&self) -> bool {
        &&& self.cursors_ok()
        &&& consistent(self.cursor.input(), self.tok())
    }

    proof fn lemma_cursors(&self)
        requires
            self.cursors_ok(),
        ensures
            0 <= self.tok().mark <= self.tok().pos <= self.input().len(),
            self.input().len() <= usize::MAX,
    {
        self.cursor.lemma_wf();
        self.mark.lemma_wf();
    }

    proof fn lemma_wf(&self)
        requires
            self.wf(),
        ensures
            self.cursors_ok(),
            consistent(self.input(), self.tok()),
            0 <= self.tok().mark <= self.tok().pos <= self.input().len(),
            self.input().len() <= usize::MAX,
    {
        self.cursor.lemma_wf();
        self.mark.lemma_wf();
    }

    /// A tokenizer at the start of `input` in state `Data`, with nothing read.
    pub fn new(input: &'a str) -> (t: Self)
        ensures
            t.wf(),
            t.input() == input@,
            t.tok() == (TokState {
                pos: 0,
                state: TokenizationState::Data,
                return_state: TokenizationState::Data,
                errors: Seq::empty(),
                mark: 0,
                tag: None,
                is_end: false,
                last_start: None,
                doctype: None,
                code: 0,
            }),
    {
        let cursor = StrCursor::new(input);
        proof {
            cursor.lemma_wf();
        }
        HtmlTokenizer {
            cursor,
            state: TokenizationState::Data,
            return_state: TokenizationState::Data,
            errors: Vec::new(),
            mark: cursor,
            current_tag: None,
            is_current_tag_end: false,
            last_start_tag_name: None,
            current_doctype: None,
            character_reference_code: 0,
        }
    }

    /// The errors reported so far.
    pub fn errors(&self) -> (r: &Vec<Error>)
        ensures
            r@ == self.tok().errors,
    {
        &self.errors
    }

    /// The character at the position, if any.
    fn peek(&self) -> (r: Option<char>)
        requires
            self.cursors_ok(),
        ensures
            r == at(self.input(), self.tok().pos),
    {
        proof {
            self.cursor.lemma_wf();
        }
        self.cursor.peek()
    }

    /// Moves past one character, if any.
    fn consume(&mut self) -> (r: Option<char>)
        requires
            old(self).cursors_ok(),
        ensures
            final(self).cursor.text() == old(self).cursor.text(),
            final(self).cursors_ok(),
            final(self).input() == old(self).input(),
            r == at(old(self).input(), old(self).tok().pos),
            final(self).tok() == (TokState {
                pos: if old(self).tok().pos < old(self).input().len() {
                    old(self).tok().pos + 1
                } else {
                    old(self).tok().pos
                },
                ..old(self).tok()
            }),
    {
        proof {
            self.cursor.lemma_wf();
        }
        self.cursor.consume()
    }

    /// Sets the mark at the position.
    fn set_mark(&mut self)
        requires
            old(self).cursors_ok(),
        ensures
            final(self).cursor.text() == old(self).cursor.text(),
            final(self).cursors_ok(),
            final(self).input() == old(self).input(),
            final(self).tok() == (TokState { mark: old(self).tok().pos, ..old(self).tok() }),
    {
        self.mark = self.cursor;
    }

    /// Records error `e`.
    fn push_error(&mut self, e: Error)
        requires
            old(self).cursors_ok(),
        ensures
            final(self).cursor.text() == old(self).cursor.text(),
            final(self).cursors_ok(),
            final(self).input() == old(self).input(),
            final(self).tok() == erred(old(self).tok(), e),
    {
        self.errors.push(e);
    }

    /// The text from the mark to the position.
    fn slice_from_mark(&self) -> (r: &'a str)
        requires
            self.cursors_ok(),
        ensures
            r@ == self.input().subrange(self.tok().mark, self.tok().pos),
    {
        self.cursor.slice_from(&self.mark)
    }

    /// Reads the run of kind `k`, recording the errors the scan `m` reports.
    fn run(&mut self, k: Stop, m: Scan)
        requires
            old(self).cursors_ok(),
        ensures
            final(self).cursor.text() == old(self).cursor.text(),
            final(self).cursors_ok(),
            final(self).input() == old(self).input(),
            final(self).tok() == (TokState {
                pos: run_end(old(self).input(), old(self).tok().pos, k),
                errors: old(self).tok().errors + scan_errors(
                    old(self).input(),
                    old(self).tok().pos,
                    run_end(old(self).input(), old(self).tok().pos, k),
                    m,
                ),
                ..old(self).tok()
            }),
    {
        let ghost s = self.input();
        let ghost t0 = self.tok();
        proof {
            self.lemma_cursors();
            assert(scan_errors(s, t0.pos, t0.pos, m) =~= Seq::<Error>::empty());
            assert(t0.errors + Seq::<Error>::empty() =~= t0.errors);
        }
        loop
            invariant
                self.cursors_ok(),
                self.cursor.text() == old(self).cursor.text(),
                self.input() == s,
                s == old(self).input(),
                t0 == old(self).tok(),
                t0.pos <= self.tok().pos <= s.len(),
                run_end(s, t0.pos, k) == run_end(s, self.tok().pos, k),
                self.tok() == (TokState {
                    pos: self.tok().pos,
                    errors: t0.errors + scan_errors(s, t0.pos, self.tok().pos, m),
                    ..t0
                }),
            ensures
                self.cursors_ok(),
                self.cursor.text() == old(self).cursor.text(),
                self.input() == s,
                run_end(s, t0.pos, k) == self.tok().pos,
                self.tok() == (TokState {
                    pos: self.tok().pos,
                    errors: t0.errors + scan_errors(s, t0.pos, self.tok().pos, m),
                    ..t0
                }),
            decreases s.len() - self.tok().pos,
        {
            let ghost p = self.tok().pos;
            proof {
                self.lemma_cursors();
            }
            match self.peek() {
                Some(c) => {
                    if stops_at(k, c) {
                        break;
                    }
                    match scan_error_exec(m, c) {
                        Some(e) => {
                            self.errors.push(e);
                        },
                        None => {},
                    }
                    self.consume();
                    proof {
                        assert(t0.errors + scan_errors(s, t0.pos, p + 1, m) =~= (t0.errors + scan_errors(
                            s,
                            t0.pos,
                            p,
                            m,
                        )) + (match scan_error(m, c) {
                            Some(e) => seq![e],
                            None => Seq::<Error>::empty(),
                        }));
                    }
                },
                None => {
                    assert(run_end(s, p, k) == p);
                    break;
                },
            }
        }
    }

    /// Reads the run of kind `k`, reporting nothing.
    fn run_quiet(&mut self, k: Stop)
        requires
            old(self).cursors_ok(),
        ensures
            final(self).cursor.text() == old(self).cursor.text(),
            final(self).cursors_ok(),
            final(self).input() == old(self).input(),
            final(self).tok() == (TokState {
                pos: run_end(old(self).input(), old(self).tok().pos, k),
                ..old(self).tok()
            }),
    {
        let ghost s = self.input();
        let ghost t0 = self.tok();
        self.run(k, Scan::Quiet);
        proof {
            lemma_quiet(s, t0.pos, self.tok().pos);
            assert(self.tok().errors =~= t0.errors);
        }
    }

    /// Moves past `n` characters, which the input holds.
    fn consume_n(&mut self, n: usize)
        requires
            old(self).cursors_ok(),
            old(self).tok().pos + n <= old(self).input().len(),
        ensures
            final(self).cursors_ok(),
            final(self).cursor.text() == old(self).cursor.text(),
            final(self).input() == old(self).input(),
            final(self).tok() == (TokState { pos: old(self).tok().pos + n, ..old(self).tok() }),
    {
        let mut k: usize = 0;
        while k < n
            invariant
                self.cursors_ok(),
                self.cursor.text() == old(self).cursor.text(),
                self.input() == old(self).input(),
                k <= n,
                old(self).tok().pos + n <= old(self).input().len(),
                self.tok() == (TokState { pos: old(self).tok().pos + k, ..old(self).tok() }),
            decreases n - k,
        {
            self.consume();
            k += 1;
        }
    }

    /// The cursor `back` characters before the position; those characters
    /// are ASCII.
    fn back_from_pos(&self, back: usize) -> (c: StrCursor<'a>)
        requires
            self.cursors_ok(),
            back <= 3,
            self.tok().pos >= back,
            forall|k: int| 1 <= k <= back ==> (#[trigger] self.input()[self.tok().pos - k] as u32) < 0x80,
        ensures
            c.wf(),
            c.text() == self.cursor.text(),
            c.input() == self.input(),
            c.at() == self.tok().pos - back,
    {
        proof {
            self.lemma_cursors();
        }
        let mut end = self.cursor;
        let mut k: usize = 0;
        while k < back
            invariant
                end.wf(),
                end.text() == self.cursor.text(),
                end.input() == self.input(),
                end.at() == self.tok().pos - k,
                k <= back,
                back <= 3,
                self.cursors_ok(),
                self.tok().pos >= back,
                forall|j: int| 1 <= j <= back ==> (#[trigger] self.input()[self.tok().pos - j] as u32) < 0x80,
            decreases back - k,
        {
            proof {
                self.lemma_cursors();
            }
            assert((self.input()[self.tok().pos - (k + 1)] as u32) < 0x80);
            end = end.back_one();
            k += 1;
        }
        end
    }
}

/// The error the scan `m` reports for `c`, if any.
fn scan_error_exec(m: Scan, c: char) -> (r: Option<Error>)
    ensures
        r == scan_error(m, c),
{
    match m {
        Scan::Quiet => None,
        Scan::Nuls => if c == '\0' {
            Some(Error::UnexpectedNullCharacter)
        } else {
            None
        },
        Scan::AttributeName => if c == '"' || c == '\'' || c == '<' {
            Some(Error::UnexpectedCharacterInAttributeName)
        } else {
            None
        },
        Scan::Unquoted => if c == '\0' {
            Some(Error::UnexpectedNullCharacter)
        } else if c == '"' || c == '\'' || c == '<' || c == '=' || c == '`' {
            Some(Error::UnexpectedCharacterInUnquotedAttributeValue)
        } else {
            None
        },
    }
}

/// A state went as `a` says.
spec fn outcome(before: HtmlTokenizer, after: HtmlTokenizer, f: Flow, a: Act) -> bool {
    &&& after.wf()
    &&& after.input() == before.input()
    &&& match a {
        Act::Return(t2, tok) => f matches Flow::Return(r) && after.tok() == t2 && r@ == tok,
        Act::Goto(t2) => f is Goto && after.tok() == t2,
        Act::Stuck => f is Stop,
    }
}

/// A text of the input.
fn text<'a>(s: &'a str) -> (r: HtmlToken<'a>)
    ensures
        r@ == TokenView::Character(s@),
{
    HtmlToken::Character(CowStr::Borrowed(s))
}

/// The text `x` with trailing characters that a run of kind `k` stops at
/// cut off (all of which are ASCII).
fn trim_end<'a>(x: &'a str, k: Stop) -> (r: &'a str)
    requires
        k == Stop::TagName || k == Stop::Ws,
    ensures
        r@ == trimmed(x@, k),
{
    let ghost v = x@;
    let mut n: usize = 0;
    let mut chars = x.chars();
    let ghost mut i: int = 0;
    let cur = StrCursor::new(x);
    proof {
        lemma_trail(v, k);
        cur.lemma_wf();
        assert(v.take(0).len() == 0);
    }
    loop
        invariant
            0 <= i <= v.len(),
            v.len() <= usize::MAX,
            n <= i,
            v == x@,
            chars.remaining() == v.skip(i),
            n == trail(v.take(i), k),
            k == Stop::TagName || k == Stop::Ws,
        ensures
            i == v.len(),
            n == trail(v.take(i), k),
        decreases v.len() - i,
    {
        match chars.next() {
            Some(c) => {
                proof {
                    assert(v.skip(i)[0] == v[i]);
                    assert(v.skip(i).drop_first() =~= v.skip(i + 1));
                    assert(v.take(i + 1).drop_last() =~= v.take(i));
                    assert(v.take(i + 1).last() == c);
                    lemma_trail(v.take(i), k);
                }
                proof {
                    lemma_trail(v.take(i), k);
                }
                if stops_at(k, c) {
                    n = n + 1;
                } else {
                    n = 0;
                }
                proof {
                    i = i + 1;
                }
            },
            None => {
                proof {
                    if i < v.len() {
                        assert(v.skip(i).len() > 0);
                    }
                }
                break;
            },
        }
    }
    proof {
        assert(v.take(i) =~= v);
        lemma_trail(v, k);
    }
    trim_tail(x, n, k)
}

/// The last `n` characters `trail` counts are ones a run of kind `k` stops
/// at.
proof fn lemma_trail_stops(v: Seq<char>, k: Stop, j: int)
    requires
        0 <= j < trail(v, k),
    ensures
        stops(k, v[v.len() - 1 - j]),
    decreases v.len(),
{
    lemma_trail(v, k);
    if j > 0 {
        lemma_trail_stops(v.drop_last(), k, j - 1);
        assert(v.drop_last()[v.drop_last().len() - 1 - (j - 1)] == v[v.len() - 1 - j]);
    }
}

/// `x` without its last `n` characters, those `trail` counts.
fn trim_tail<'a>(x: &'a str, n: usize, k: Stop) -> (r: &'a str)
    requires
        k == Stop::TagName || k == Stop::Ws,
        n == trail(x@, k),
    ensures
        r@ == trimmed(x@, k),
{
    let ghost v = x@;
    proof {
        lemma_trail(v, k);
    }
    let start = StrCursor::new(x);
    let mut end = start;
    proof {
        start.lemma_wf();
    }
    loop
        invariant
            end.wf(),
            start.wf(),
            end.text() == x,
            end.input() == v,
            start.text() == x,
            start.input() == v,
            start.at() == 0,
        ensures
            end.wf(),
            end.text() == x,
            end.input() == v,
            end.at() == v.len(),
        decreases v.len() - end.at(),
    {
        proof {
            end.lemma_wf();
        }
        if end.consume().is_none() {
            break;
        }
    }
    let mut j: usize = 0;
    while j < n
        invariant
            end.wf(),
            end.text() == x,
            end.input() == v,
            end.at() == v.len() - j,
            j <= n,
            n == trail(v, k),
            n <= v.len(),
            k == Stop::TagName || k == Stop::Ws,
        decreases n - j,
    {
        proof {
            lemma_trail_stops(v, k, j as int);
        }
        end = end.back_one();
        j += 1;
    }
    end.slice_from(&start)
}

impl<'a> HtmlTokenizer<'a> {
    /// `Data`, `RcData`, `RawText`, `ScriptData` and `PlainText` (see
    /// `text_state`).
    fn text_state_exec(&mut self, k: Stop, lt: Option<TokenizationState>, replace: bool) -> (f: Flow<'a>)
        requires
            old(self).wf(),
            k == Stop::Data || k == Stop::RawText || k == Stop::Nul,
            lt == Some(TokenizationState::RcDataLessThanSign) || lt == Some(
                TokenizationState::RawTextLessThanSign,
            ) || lt == Some(TokenizationState::ScriptDataLessThanSign) || lt == Some(TokenizationState::TagOpen)
                || lt is None,
            old(self).tok().state == TokenizationState::Data || old(self).tok().state
                == TokenizationState::RcData || old(self).tok().state == TokenizationState::RawText
                || old(self).tok().state == TokenizationState::ScriptData || old(self).tok().state
                == TokenizationState::PlainText,
            k == Stop::Data ==> old(self).tok().state == TokenizationState::Data || old(self).tok().state
                == TokenizationState::RcData,
        ensures
            outcome(*old(self), *final(self), f, text_state(old(self).input(), old(self).tok(), k, lt, replace)),
    {
        let ghost s = self.input();
        proof {
            self.lemma_wf();
            lemma_run_end(s, self.tok().pos, k);
        }
        self.set_mark();
        self.run_quiet(k);
        if self.cursor.is_after(&self.mark) {
            let text = self.slice_from_mark();
            return Flow::Return(HtmlToken::Character(CowStr::Borrowed(text)));
        }
        let before = self.cursor;
        match self.consume() {
            Some(c) => {
                if c == '&' && k == Stop::Data {
                    self.return_state = self.state;
                    self.state = TokenizationState::CharacterReference;
                    Flow::Goto
                } else if c == '<' && lt.is_some() {
                    self.state = lt.unwrap();
                    Flow::Goto
                } else {
                    self.push_error(Error::UnexpectedNullCharacter);
                    if replace {
                        let r = "\u{FFFD}";
                        proof {
                            reveal_strlit("\u{FFFD}");
                            assert(r@ =~= replacement_text());
                        }
                        Flow::Return(HtmlToken::Character(CowStr::Borrowed(r)))
                    } else {
                        let text = self.cursor.slice_from(&before);
                        Flow::Return(HtmlToken::Character(CowStr::Borrowed(text)))
                    }
                }
            },
            None => Flow::Return(HtmlToken::EndOfFile),
        }
    }

    /// `CdataSection` (see `cdata_section`).
    fn cdata_section_exec(&mut self) -> (f: Flow<'a>)
        requires
            old(self).wf(),
            old(self).tok().state == TokenizationState::CdataSection,
        ensures
            outcome(*old(self), *final(self), f, cdata_section(old(self).input(), old(self).tok())),
    {
        let ghost s = self.input();
        proof {
            self.lemma_wf();
            lemma_run_end(s, self.tok().pos, Stop::Bracket);
        }
        self.set_mark();
        self.run_quiet(Stop::Bracket);
        if self.cursor.is_after(&self.mark) {
            let text = self.slice_from_mark();
            return Flow::Return(HtmlToken::Character(CowStr::Borrowed(text)));
        }
        match self.consume() {
            Some(_) => {
                self.state = TokenizationState::CdataSectionBracket;
                Flow::Goto
            },
            None => {
                self.push_error(Error::EofInCdata);
                Flow::Return(HtmlToken::EndOfFile)
            },
        }
    }

    /// `CdataSectionBracket` and `CdataSectionEnd` (see `cdata_brackets`).
    fn cdata_brackets_exec(&mut self) -> (f: Flow<'a>)
        requires
            old(self).wf(),
            old(self).tok().state == TokenizationState::CdataSectionBracket || old(self).tok().state
                == TokenizationState::CdataSectionEnd,
        ensures
            outcome(*old(self), *final(self), f, cdata_brackets(old(self).input(), old(self).tok())),
    {
        proof {
            self.lemma_wf();
        }
        let c = self.peek();
        let bracket = "]";
        proof {
            reveal_strlit("]");
            assert(bracket@ =~= one(']'));
        }
        if self.state == TokenizationState::CdataSectionBracket {
            if c == Some(']') {
                self.consume();
                self.state = TokenizationState::CdataSectionEnd;
                Flow::Goto
            } else {
                self.state = TokenizationState::CdataSection;
                Flow::Return(HtmlToken::Character(CowStr::Borrowed(bracket)))
            }
        } else if c == Some(']') {
            self.consume();
            Flow::Return(HtmlToken::Character(CowStr::Borrowed(bracket)))
        } else if c == Some('>') {
            self.consume();
            self.state = TokenizationState::Data;
            Flow::Goto
        } else {
            self.state = TokenizationState::CdataSection;
            let two = "]]";
            proof {
                reveal_strlit("]]");
                assert(two@ =~= seq![']', ']']);
            }
            Flow::Return(HtmlToken::Character(CowStr::Borrowed(two)))
        }
    }

    /// `TagOpen` (see `tag_open`).
    fn tag_open_exec(&mut self) -> (f: Flow<'a>)
        requires
            old(self).wf(),
            old(self).tok().state == TokenizationState::TagOpen,
        ensures
            outcome(*old(self), *final(self), f, tag_open(old(self).input(), old(self).tok())),
    {
        proof {
            self.lemma_wf();
        }
        match self.peek() {
            Some(c) => {
                if c == '!' {
                    self.consume();
                    self.state = TokenizationState::MarkupDeclarationOpen;
                    Flow::Goto
                } else if c == '/' {
                    self.consume();
                    self.state = TokenizationState::EndTagOpen;
                    Flow::Goto
                } else if ('a' <= c && c <= 'z') || ('A' <= c && c <= 'Z') {
                    self.current_tag = Some(Tag { name: None, self_closing_tag: None, attributes: Vec::new() });
                    self.set_mark();
                    self.is_current_tag_end = false;
                    self.state = TokenizationState::TagName;
                    proof {
                        assert(self.current_tag.unwrap()@.attributes =~= Seq::<AttributeView>::empty());
                    }
                    Flow::Goto
                } else if c == '?' {
                    self.consume();
                    self.state = TokenizationState::ProcessingInstructionOpen;
                    Flow::Goto
                } else {
                    self.push_error(Error::InvalidFirstCharacterOfTagName);
                    self.state = TokenizationState::Data;
                    let r = "<";
                    proof {
                        reveal_strlit("<");
                        assert(r@ =~= lt_text());
                    }
                    Flow::Return(HtmlToken::Character(CowStr::Borrowed(r)))
                }
            },
            None => {
                self.push_error(Error::EofBeforeTagName);
                self.state = TokenizationState::Data;
                let r = "<";
                proof {
                    reveal_strlit("<");
                    assert(r@ =~= lt_text());
                }
                Flow::Return(HtmlToken::Character(CowStr::Borrowed(r)))
            },
        }
    }

    /// `EndTagOpen` (see `end_tag_open`).
    fn end_tag_open_exec(&mut self) -> (f: Flow<'a>)
        requires
            old(self).wf(),
            old(self).tok().state == TokenizationState::EndTagOpen,
        ensures
            outcome(*old(self), *final(self), f, end_tag_open(old(self).input(), old(self).tok())),
    {
        proof {
            self.lemma_wf();
        }
        match self.peek() {
            Some(c) => {
                if ('a' <= c && c <= 'z') || ('A' <= c && c <= 'Z') {
                    self.current_tag = Some(Tag { name: None, self_closing_tag: None, attributes: Vec::new() });
                    self.set_mark();
                    self.is_current_tag_end = true;
                    self.state = TokenizationState::TagName;
                    proof {
                        assert(self.current_tag.unwrap()@.attributes =~= Seq::<AttributeView>::empty());
                    }
                    Flow::Goto
                } else if c == '>' {
                    self.consume();
                    self.push_error(Error::MissingEndTagName);
                    self.state = TokenizationState::Data;
                    Flow::Goto
                } else {
                    self.push_error(Error::InvalidFirstCharacterOfTagName);
                    self.state = TokenizationState::BogusComment;
                    Flow::Goto
                }
            },
            None => {
                self.push_error(Error::EofBeforeTagName);
                self.state = TokenizationState::Data;
                let r = "</";
                proof {
                    reveal_strlit("</");
                    assert(r@ =~= lt_slash_text());
                }
                Flow::Return(HtmlToken::Character(CowStr::Borrowed(r)))
            },
        }
    }

    /// Gives the tag being read its name, the text from the mark to the
    /// position trimmed and in lower case, if it has none yet.
    fn name_tag(&mut self)
        requires
            old(self).cursors_ok(),
        ensures
            final(self).cursor.text() == old(self).cursor.text(),
            final(self).cursors_ok(),
            final(self).input() == old(self).input(),
            final(self).tok() == (TokState {
                tag: named(old(self).tok().tag, tag_name_text(old(self).input(), old(self).tok(), old(self).tok().pos)),
                ..old(self).tok()
            }),
    {
        let slice = self.slice_from_mark();
        match self.current_tag.take() {
            Some(mut tag) => {
                if tag.name.is_none() {
                    let trimmed_name = trim_end(slice, Stop::TagName);
                    tag.name = Some(lower_cow(trimmed_name));
                }
                self.current_tag = Some(tag);
            },
            None => {},
        }
    }

    /// `TagName` (see `tag_name`).
    fn tag_name_exec(&mut self) -> (f: Flow<'a>)
        requires
            old(self).wf(),
            old(self).tok().state == TokenizationState::TagName,
        ensures
            outcome(*old(self), *final(self), f, tag_name(old(self).input(), old(self).tok())),
    {
        let ghost s = self.input();
        proof {
            self.lemma_wf();
            lemma_run_end(s, self.tok().pos, Stop::TagName);
        }
        self.run(Stop::TagName, Scan::Nuls);
        match self.consume() {
            Some(c) => {
                if c == '\t' || c == '\n' || c == '\x0C' || c == ' ' {
                    self.state = TokenizationState::BeforeAttributeName;
                } else if c == '/' {
                    self.state = TokenizationState::SelfClosingStartTag;
                } else {
                    self.state = TokenizationState::Data;
                }
                self.name_tag();
                if c == '>' && self.current_tag.is_some() {
                    let tag = self.current_tag.take().unwrap();
                    if !self.is_current_tag_end {
                        self.last_start_tag_name = clone_text(&tag.name);
                        Flow::Return(HtmlToken::StartTag(tag))
                    } else {
                        Flow::Return(HtmlToken::EndTag(tag))
                    }
                } else {
                    Flow::Goto
                }
            },
            None => {
                self.push_error(Error::EofInTag);
                Flow::Return(HtmlToken::EndOfFile)
            },
        }
    }

    /// `RcDataLessThanSign` and `RawTextLessThanSign` (see `less_than_sign`).
    fn less_than_sign_exec(&mut self, back: TokenizationState, next: TokenizationState) -> (f: Flow<'a>)
        requires
            old(self).wf(),
            (old(self).tok().state == TokenizationState::RcDataLessThanSign && back == TokenizationState::RcData
                && next == TokenizationState::RcDataEndTagOpen) || (old(self).tok().state
                == TokenizationState::RawTextLessThanSign && back == TokenizationState::RawText && next
                == TokenizationState::RawTextEndTagOpen),
        ensures
            outcome(*old(self), *final(self), f, less_than_sign(old(self).input(), old(self).tok(), back, next)),
    {
        proof {
            self.lemma_wf();
        }
        if self.peek() == Some('/') {
            self.consume();
            self.state = next;
            return Flow::Goto;
        }
        self.state = back;
        let r = "<";
        proof {
            reveal_strlit("<");
            assert(r@ =~= lt_text());
        }
        Flow::Return(HtmlToken::Character(CowStr::Borrowed(r)))
    }

    /// `ScriptDataLessThanSign` (see `script_less_than_sign`).
    fn script_less_than_sign_exec(&mut self) -> (f: Flow<'a>)
        requires
            old(self).wf(),
            old(self).tok().state == TokenizationState::ScriptDataLessThanSign,
        ensures
            outcome(*old(self), *final(self), f, script_less_than_sign(old(self).input(), old(self).tok())),
    {
        proof {
            self.lemma_wf();
        }
        let c = self.peek();
        if c == Some('/') {
            self.consume();
            self.state = TokenizationState::ScriptDataEndTagOpen;
            Flow::Goto
        } else if c == Some('!') {
            self.consume();
            self.state = TokenizationState::ScriptDataEscapeStart;
            let r = "<!";
            proof {
                reveal_strlit("<!");
                assert(r@ =~= seq!['<', '!']);
            }
            Flow::Return(HtmlToken::Character(CowStr::Borrowed(r)))
        } else {
            self.state = TokenizationState::ScriptData;
            let r = "<";
            proof {
                reveal_strlit("<");
                assert(r@ =~= lt_text());
            }
            Flow::Return(HtmlToken::Character(CowStr::Borrowed(r)))
        }
    }

    /// The end tag open states of raw text (see `end_tag_open_in`).
    fn end_tag_open_in_exec(
        &mut self,
        back: TokenizationState,
        next: TokenizationState,
        closing: Option<bool>,
    ) -> (f: Flow<'a>)
        requires
            old(self).wf(),
            (old(self).tok().state == TokenizationState::RcDataEndTagOpen && back == TokenizationState::RcData
                && next == TokenizationState::RcDataEndTagName) || (old(self).tok().state
                == TokenizationState::RawTextEndTagOpen && back == TokenizationState::RawText && next
                == TokenizationState::RawTextEndTagName) || (old(self).tok().state
                == TokenizationState::ScriptDataEndTagOpen && back == TokenizationState::ScriptData && next
                == TokenizationState::ScriptDataEndTagName) || (old(self).tok().state
                == TokenizationState::ScriptDataEscapedEndTagOpen && back == TokenizationState::ScriptDataEscaped
                && next == TokenizationState::ScriptDataEscapedEndTagName),
        ensures
            outcome(
                *old(self),
                *final(self),
                f,
                end_tag_open_in(old(self).input(), old(self).tok(), back, next, closing),
            ),
    {
        proof {
            self.lemma_wf();
        }
        match self.peek() {
            Some(c) => {
                if ('a' <= c && c <= 'z') || ('A' <= c && c <= 'Z') {
                    self.current_tag = Some(Tag { name: None, self_closing_tag: closing, attributes: Vec::new() });
                    self.is_current_tag_end = true;
                    self.set_mark();
                    self.state = next;
                    proof {
                        assert(self.current_tag.unwrap()@.attributes =~= Seq::<AttributeView>::empty());
                    }
                    return Flow::Goto;
                }
            },
            None => {},
        }
        self.state = back;
        let r = "</";
        proof {
            reveal_strlit("</");
            assert(r@ =~= lt_slash_text());
        }
        Flow::Return(HtmlToken::Character(CowStr::Borrowed(r)))
    }

    /// Whether the name read since the mark closes the last start tag.
    fn is_appropriate_end_tag(&self) -> (r: bool)
        requires
            self.cursors_ok(),
        ensures
            r == appropriate(self.input(), self.tok()),
    {
        match &self.last_start_tag_name {
            Some(last) => {
                let current = self.slice_from_mark();
                same_lower(current, last.as_str())
            },
            None => false,
        }
    }

    /// The end tag name states of raw text (see `end_tag_name_in`).
    fn end_tag_name_in_exec(&mut self, back: TokenizationState) -> (f: Flow<'a>)
        requires
            old(self).wf(),
            (old(self).tok().state == TokenizationState::RcDataEndTagName && back == TokenizationState::RcData)
                || (old(self).tok().state == TokenizationState::RawTextEndTagName && back
                == TokenizationState::RawText) || (old(self).tok().state == TokenizationState::ScriptDataEndTagName
                && back == TokenizationState::ScriptData) || (old(self).tok().state
                == TokenizationState::ScriptDataEscapedEndTagName && back == TokenizationState::ScriptDataEscaped),
        ensures
            outcome(*old(self), *final(self), f, end_tag_name_in(old(self).input(), old(self).tok(), back)),
    {
        let ghost s = self.input();
        proof {
            self.lemma_wf();
            lemma_run_end(s, self.tok().pos, Stop::NotAlpha);
        }
        self.run_quiet(Stop::NotAlpha);
        let ok = self.is_appropriate_end_tag();
        match self.peek() {
            Some(c) => {
                if ok && (c == '\t' || c == '\n' || c == '\x0C' || c == ' ' || c == '/' || c == '>') {
                    self.consume();
                    if c == '/' {
                        self.state = TokenizationState::SelfClosingStartTag;
                    } else if c == '>' {
                        self.state = TokenizationState::Data;
                    } else {
                        self.state = TokenizationState::BeforeAttributeName;
                    }
                    self.name_tag();
                    if c == '>' {
                        return match self.current_tag.take() {
                            Some(tag) => Flow::Return(HtmlToken::EndTag(tag)),
                            None => Flow::Stop,
                        };
                    }
                    return Flow::Goto;
                }
            },
            None => {},
        }
        proof {
            self.mark.lemma_wf();
        }
        let m1 = self.mark.back_one();
        proof {
            m1.lemma_wf();
        }
        let m2 = m1.back_one();
        let text = self.cursor.slice_from(&m2);
        self.current_tag = None;
        self.state = back;
        Flow::Return(HtmlToken::Character(CowStr::Borrowed(text)))
    }
}

/// A quiet scan reports nothing.
proof fn lemma_quiet(s: Seq<char>, i: int, j: int)
    ensures
        scan_errors(s, i, j, Scan::Quiet) =~= Seq::<Error>::empty(),
    decreases j - i,
{
    if j > i {
        lemma_quiet(s, i, j - 1);
    }
}

impl<'a> HtmlTokenizer<'a> {
    /// Hands out a character token of the literal `r`, whose text is `v`.
    fn literal(&self, r: &'static str, Ghost(v): Ghost<Seq<char>>) -> (f: Flow<'a>)
        requires
            r@ =~= v,
        ensures
            f matches Flow::Return(x) && x@ == TokenView::Character(v),
    {
        Flow::Return(HtmlToken::Character(CowStr::Borrowed(r)))
    }

    /// `ScriptDataEscapeStart` and `ScriptDataEscapeStartDash` (see
    /// `escape_start`).
    fn escape_start_exec(&mut self, next: TokenizationState) -> (f: Flow<'a>)
        requires
            old(self).wf(),
            (old(self).tok().state == TokenizationState::ScriptDataEscapeStart && next
                == TokenizationState::ScriptDataEscapeStartDash) || (old(self).tok().state
                == TokenizationState::ScriptDataEscapeStartDash && next == TokenizationState::ScriptDataEscapedDashDash),
        ensures
            outcome(*old(self), *final(self), f, escape_start(old(self).input(), old(self).tok(), next)),
    {
        proof {
            self.lemma_wf();
        }
        if self.peek() == Some('-') {
            self.consume();
            self.state = next;
            proof {
                reveal_strlit("-");
            }
            self.literal("-", Ghost(one('-')))
        } else {
            self.state = TokenizationState::ScriptData;
            Flow::Goto
        }
    }

    /// After `<` in an escaped state (see `escaped_less_than`).
    fn escaped_less_than_exec(&mut self, double: bool) -> (f: Flow<'a>)
        requires
            old(self).wf(),
            old(self).tok().pos < old(self).input().len(),
            old(self).input()[old(self).tok().pos] == '<',
            is_return_state(old(self).tok().return_state),
        ensures
            outcome(*old(self), *final(self), f, escaped_less_than(old(self).input(), old(self).tok(), double)),
    {
        proof {
            self.lemma_wf();
        }
        self.consume();
        if double {
            self.state = TokenizationState::ScriptDataDoubleEscapedLessThanSign;
            proof {
                reveal_strlit("<");
            }
            self.literal("<", Ghost(lt_text()))
        } else {
            self.state = TokenizationState::ScriptDataEscapedLessThanSign;
            Flow::Goto
        }
    }

    /// `ScriptDataEscaped` and `ScriptDataDoubleEscaped` (see
    /// `escaped_text`).
    fn escaped_text_exec(&mut self, double: bool) -> (f: Flow<'a>)
        requires
            old(self).wf(),
            (old(self).tok().state == TokenizationState::ScriptDataEscaped && !double) || (old(self).tok().state
                == TokenizationState::ScriptDataDoubleEscaped && double),
        ensures
            outcome(*old(self), *final(self), f, escaped_text(old(self).input(), old(self).tok(), double)),
    {
        let ghost s = self.input();
        proof {
            self.lemma_wf();
            lemma_run_end(s, self.tok().pos, Stop::DashLtNul);
        }
        let start = self.cursor;
        self.run_quiet(Stop::DashLtNul);
        if self.cursor.is_after(&start) {
            let text = self.cursor.slice_from(&start);
            return Flow::Return(HtmlToken::Character(CowStr::Borrowed(text)));
        }
        match self.peek() {
            Some(c) => {
                if c == '-' {
                    self.consume();
                    self.state = if double {
                        TokenizationState::ScriptDataDoubleEscapedDash
                    } else {
                        TokenizationState::ScriptDataEscapedDash
                    };
                    proof {
                        reveal_strlit("-");
                    }
                    self.literal("-", Ghost(one('-')))
                } else if c == '<' {
                    self.escaped_less_than_exec(double)
                } else {
                    self.push_error(Error::UnexpectedNullCharacter);
                    self.consume();
                    proof {
                        reveal_strlit("\u{FFFD}");
                    }
                    self.literal("\u{FFFD}", Ghost(replacement_text()))
                }
            },
            None => {
                self.push_error(Error::EofInScriptHtmlCommentLikeText);
                Flow::Return(HtmlToken::EndOfFile)
            },
        }
    }

    /// The dash states of the escaped states (see `escaped_dash`).
    fn escaped_dash_exec(&mut self, double: bool, dashdash: bool) -> (f: Flow<'a>)
        requires
            old(self).wf(),
            old(self).tok().state == (if double {
                if dashdash {
                    TokenizationState::ScriptDataDoubleEscapedDashDash
                } else {
                    TokenizationState::ScriptDataDoubleEscapedDash
                }
            } else if dashdash {
                TokenizationState::ScriptDataEscapedDashDash
            } else {
                TokenizationState::ScriptDataEscapedDash
            }),
        ensures
            outcome(*old(self), *final(self), f, escaped_dash(old(self).input(), old(self).tok(), double, dashdash)),
    {
        proof {
            self.lemma_wf();
        }
        let plain = if double {
            TokenizationState::ScriptDataDoubleEscaped
        } else {
            TokenizationState::ScriptDataEscaped
        };
        match self.peek() {
            Some(c) => {
                if c == '-' {
                    self.consume();
                    self.state = if double {
                        TokenizationState::ScriptDataDoubleEscapedDashDash
                    } else {
                        TokenizationState::ScriptDataEscapedDashDash
                    };
                    proof {
                        reveal_strlit("-");
                    }
                    self.literal("-", Ghost(one('-')))
                } else if c == '<' {
                    self.escaped_less_than_exec(double)
                } else if c == '>' && dashdash {
                    self.consume();
                    self.state = TokenizationState::ScriptData;
                    proof {
                        reveal_strlit(">");
                    }
                    self.literal(">", Ghost(one('>')))
                } else if c == '\0' {
                    self.push_error(Error::UnexpectedNullCharacter);
                    self.consume();
                    self.state = plain;
                    proof {
                        reveal_strlit("\u{FFFD}");
                    }
                    self.literal("\u{FFFD}", Ghost(replacement_text()))
                } else {
                    let start = self.cursor;
                    self.consume();
                    self.state = plain;
                    let text = self.cursor.slice_from(&start);
                    Flow::Return(HtmlToken::Character(CowStr::Borrowed(text)))
                }
            },
            None => {
                self.push_error(Error::EofInScriptHtmlCommentLikeText);
                Flow::Return(HtmlToken::EndOfFile)
            },
        }
    }

    /// `ScriptDataEscapedLessThanSign` (see `escaped_less_than_sign`).
    fn escaped_less_than_sign_exec(&mut self) -> (f: Flow<'a>)
        requires
            old(self).wf(),
            old(self).tok().state == TokenizationState::ScriptDataEscapedLessThanSign,
        ensures
            outcome(*old(self), *final(self), f, escaped_less_than_sign(old(self).input(), old(self).tok())),
    {
        proof {
            self.lemma_wf();
            reveal_strlit("<");
        }
        match self.peek() {
            Some(c) => {
                if c == '/' {
                    self.consume();
                    self.state = TokenizationState::ScriptDataEscapedEndTagOpen;
                    Flow::Goto
                } else if ('a' <= c && c <= 'z') || ('A' <= c && c <= 'Z') {
                    self.set_mark();
                    self.state = TokenizationState::ScriptDataDoubleEscapeStart;
                    self.literal("<", Ghost(lt_text()))
                } else {
                    self.state = TokenizationState::ScriptDataEscaped;
                    self.literal("<", Ghost(lt_text()))
                }
            },
            None => {
                self.state = TokenizationState::ScriptDataEscaped;
                self.literal("<", Ghost(lt_text()))
            },
        }
    }

    /// `ScriptDataDoubleEscapedLessThanSign` (see
    /// `double_escaped_less_than_sign`).
    fn double_escaped_less_than_sign_exec(&mut self) -> (f: Flow<'a>)
        requires
            old(self).wf(),
            old(self).tok().state == TokenizationState::ScriptDataDoubleEscapedLessThanSign,
        ensures
            outcome(*old(self), *final(self), f, double_escaped_less_than_sign(old(self).input(), old(self).tok())),
    {
        proof {
            self.lemma_wf();
        }
        if self.peek() == Some('/') {
            self.consume();
            self.set_mark();
            self.state = TokenizationState::ScriptDataDoubleEscapeEnd;
            proof {
                reveal_strlit("/");
            }
            self.literal("/", Ghost(one('/')))
        } else {
            self.state = TokenizationState::ScriptDataDoubleEscaped;
            Flow::Goto
        }
    }

    /// `ScriptDataDoubleEscapeStart` and `ScriptDataDoubleEscapeEnd` (see
    /// `double_escape_switch`).
    fn double_escape_switch_exec(&mut self, end: bool) -> (f: Flow<'a>)
        requires
            old(self).wf(),
            (old(self).tok().state == TokenizationState::ScriptDataDoubleEscapeStart && !end) || (old(self).tok().state
                == TokenizationState::ScriptDataDoubleEscapeEnd && end),
        ensures
            outcome(*old(self), *final(self), f, double_escape_switch(old(self).input(), old(self).tok(), end)),
    {
        let ghost s = self.input();
        proof {
            self.lemma_wf();
            lemma_run_end(s, self.tok().pos, Stop::NotAlpha);
        }
        self.run_quiet(Stop::NotAlpha);
        let word: [char; 6] = ['s', 'c', 'r', 'i', 'p', 't'];
        proof {
            assert(word@ =~= script_text());
        }
        match self.peek() {
            Some(c) => {
                if c == '\t' || c == '\n' || c == '\x0C' || c == ' ' || c == '/' || c == '>' {
                    let buffer = self.slice_from_mark();
                    let lowered = map_chars(buffer, false, true);
                    let is_script = crate::cursor::str_is(lowered.as_str(), word.as_slice());
                    self.consume();
                    self.state = if is_script != end {
                        TokenizationState::ScriptDataDoubleEscaped
                    } else {
                        TokenizationState::ScriptDataEscaped
                    };
                } else {
                    self.state = if end {
                        TokenizationState::ScriptDataDoubleEscaped
                    } else {
                        TokenizationState::ScriptDataEscaped
                    };
                }
                let text = self.slice_from_mark();
                Flow::Return(HtmlToken::Character(CowStr::Borrowed(text)))
            },
            None => Flow::Stop,
        }
    }
}

/// The tag as a start tag, or as an end tag where `end`.
fn tag_token_exec<'a>(end: bool, tag: Tag<'a>) -> (r: HtmlToken<'a>)
    ensures
        r@ == tag_token(end, tag@),
{
    let Tag { name, self_closing_tag, attributes } = tag;
    let mut rest = attributes;
    let ghost all = rest@.map_values(|x: Attribute<'a>| x@);
    let mut kept: Vec<Attribute<'a>> = Vec::new();
    while rest.len() > 0
        invariant
            kept@.map_values(|x: Attribute<'a>| x@) + named_only(rest@.map_values(|x: Attribute<'a>| x@))
                == named_only(all),
        decreases rest.len(),
    {
        let ghost before = rest@.map_values(|x: Attribute<'a>| x@);
        let ghost kept_before = kept@.map_values(|x: Attribute<'a>| x@);
        let a = rest.remove(0);
        proof {
            assert(rest@.map_values(|x: Attribute<'a>| x@) =~= before.drop_first());
            assert(before[0] == a@);
        }
        if a.name.is_some() {
            kept.push(a);
            proof {
                assert(kept@.map_values(|x: Attribute<'a>| x@) =~= kept_before.push(before[0]));
                assert(kept_before.push(before[0]) + named_only(before.drop_first()) =~= kept_before + (seq![
                    before[0],
                ] + named_only(before.drop_first())));
            }
        }
    }
    proof {
        assert(named_only(rest@.map_values(|x: Attribute<'a>| x@)) =~= Seq::<AttributeView>::empty());
        assert(kept@.map_values(|x: Attribute<'a>| x@) + Seq::<AttributeView>::empty() =~= kept@.map_values(
            |x: Attribute<'a>| x@,
        ));
    }
    let tag = Tag { name, self_closing_tag, attributes: kept };
    if end {
        HtmlToken::EndTag(tag)
    } else {
        HtmlToken::StartTag(tag)
    }
}

/// Whether `s` holds a null character.
fn has_nul(s: &str) -> (r: bool)
    ensures
        r == exists|k: int| 0 <= k < s@.len() && #[trigger] s@[k] == '\0',
{
    let mut chars = s.chars();
    let ghost mut i: int = 0;
    loop
        invariant
            0 <= i <= s@.len(),
            chars.remaining() == s@.skip(i),
            forall|k: int| 0 <= k < i ==> #[trigger] s@[k] != '\0',
        decreases s@.len() - i,
    {
        match chars.next() {
            Some(c) => {
                proof {
                    assert(s@.skip(i)[0] == s@[i]);
                    assert(s@.skip(i).drop_first() =~= s@.skip(i + 1));
                }
                if c == '\0' {
                    return true;
                }
                proof {
                    i = i + 1;
                }
            },
            None => {
                proof {
                    if i < s@.len() {
                        assert(s@.skip(i).len() > 0);
                    }
                }
                return false;
            },
        }
    }
}

/// Whether `s` is empty.
fn is_empty_text(s: &str) -> (r: bool)
    ensures
        r == (s@.len() == 0),
{
    let mut chars = s.chars();
    match chars.next() {
        Some(_) => false,
        None => true,
    }
}

/// The text of `a` followed by that of `b`: `b` itself where `a` is empty,
/// else a new string.
fn cow_concat<'a>(a: CowStr<'a>, b: CowStr<'a>) -> (r: CowStr<'a>)
    ensures
        r@ == a@ + b@,
{
    if is_empty_text(a.as_str()) {
        proof {
            assert(a@ + b@ =~= b@);
        }
        return b;
    }
    let mut joined = match a {
        CowStr::Borrowed(x) => x.to_owned(),
        CowStr::Owned(x) => x,
    };
    joined.append(b.as_str());
    CowStr::Owned(joined)
}

/// The text of `s` with null characters made U+FFFD: the slice itself where
/// it has none, else a new string.
fn fffd_cow<'a>(s: &'a str) -> (r: CowStr<'a>)
    ensures
        r@ == fffd(s@),
{
    if has_nul(s) {
        CowStr::Owned(map_chars(s, true, false))
    } else {
        proof {
            assert(fffd(s@) =~= s@);
        }
        CowStr::Borrowed(s)
    }
}

/// The text of `s` with null characters made U+FFFD and ASCII letters in
/// lower case: the slice itself where that changes nothing.
fn lower_fffd_cow<'a>(s: &'a str) -> (r: CowStr<'a>)
    ensures
        r@ == lower(fffd(s@)),
{
    if has_nul(s) {
        CowStr::Owned(map_chars(s, true, true))
    } else {
        proof {
            assert(fffd(s@) =~= s@);
        }
        lower_cow(s)
    }
}

/// Adds `a` to the attributes of `tag`.
fn push_attribute_exec<'a>(tag: &mut Tag<'a>, a: Attribute<'a>)
    ensures
        final(tag)@ == push_attribute(old(tag)@, a@),
{
    let ghost before = tag.attributes@;
    tag.attributes.push(a);
    proof {
        assert(tag.attributes@.map_values(|x: Attribute<'a>| x@) =~= before.map_values(|x: Attribute<'a>| x@).push(
            a@,
        ));
    }
}

impl<'a> HtmlTokenizer<'a> {
    /// Adds `text` to the value of the last attribute of the tag being read
    /// (see `appended`).
    fn append_value(&mut self, text: CowStr<'a>)
        requires
            old(self).cursors_ok(),
        ensures
            final(self).cursor.text() == old(self).cursor.text(),
            final(self).cursors_ok(),
            final(self).input() == old(self).input(),
            final(self).tok() == (TokState { tag: appended(old(self).tok().tag, text@), ..old(self).tok() }),
    {
        match self.current_tag.take() {
            Some(mut tag) => {
                let ghost before = tag.attributes@;
                if tag.attributes.len() > 0 {
                    let mut a = tag.attributes.pop().unwrap();
                    let ghost prior = match a@.value {
                        Some(v) => v,
                        None => Seq::<char>::empty(),
                    };
                    let joined = match a.value.take() {
                        Some(v) => cow_concat(v, text),
                        None => {
                            proof {
                                assert(Seq::<char>::empty() + text@ =~= text@);
                            }
                            text
                        },
                    };
                    a.value = Some(joined);
                    tag.attributes.push(a);
                    proof {
                        let v0 = before.map_values(|x: Attribute<'a>| x@);
                        assert(v0.last() == before.last()@);
                        assert(tag.attributes@.map_values(|x: Attribute<'a>| x@) =~= v0.update(
                            v0.len() - 1,
                            AttributeView { value: Some(prior + text@), ..v0.last() },
                        ));
                    }
                }
                self.current_tag = Some(tag);
            },
            None => {},
        }
    }

    /// Goes back to the state the reference returns to, with `text` added to
    /// the value of the attribute being read and the mark at the position
    /// (see `back_in_value`).
    fn back_in_value_exec(&mut self, text: CowStr<'a>)
        requires
            old(self).cursors_ok(),
        ensures
            final(self).cursor.text() == old(self).cursor.text(),
            final(self).cursors_ok(),
            final(self).input() == old(self).input(),
            final(self).tok() == back_in_value(old(self).tok(), old(self).tok().pos, text@),
    {
        self.append_value(text);
        self.set_mark();
        self.state = self.return_state;
    }

    /// Sets the value of the last attribute of the tag being read (see
    /// `valued`).
    fn set_value(&mut self, value: CowStr<'a>)
        requires
            old(self).cursors_ok(),
        ensures
            final(self).cursor.text() == old(self).cursor.text(),
            final(self).cursors_ok(),
            final(self).input() == old(self).input(),
            final(self).tok() == (TokState { tag: valued(old(self).tok().tag, value@), ..old(self).tok() }),
    {
        match self.current_tag.take() {
            Some(mut tag) => {
                let ghost before = tag.attributes@;
                if tag.attributes.len() > 0 {
                    let mut a = tag.attributes.pop().unwrap();
                    a.value = Some(value);
                    tag.attributes.push(a);
                    proof {
                        let v0 = before.map_values(|x: Attribute<'a>| x@);
                        assert(v0.last() == before.last()@);
                        assert(tag.attributes@.map_values(|x: Attribute<'a>| x@) =~= v0.update(
                            v0.len() - 1,
                            AttributeView { value: Some(value@), ..v0.last() },
                        ));
                    }
                }
                self.current_tag = Some(tag);
            },
            None => {},
        }
    }

    /// `BeforeAttributeName` (see `before_attribute_name`).
    fn before_attribute_name_exec(&mut self) -> (f: Flow<'a>)
        requires
            old(self).wf(),
            old(self).tok().state == TokenizationState::BeforeAttributeName,
        ensures
            outcome(*old(self), *final(self), f, before_attribute_name(old(self).input(), old(self).tok())),
    {
        proof {
            self.lemma_wf();
        }
        match self.peek() {
            Some(c) => {
                if c == '\t' || c == '\n' || c == '\x0C' || c == ' ' {
                    self.consume();
                    Flow::Goto
                } else if c == '/' || c == '>' {
                    self.state = TokenizationState::AfterAttributeName;
                    Flow::Goto
                } else {
                    match self.current_tag.take() {
                        None => Flow::Stop,
                        Some(mut tag) => {
                            if c == '=' {
                                self.push_error(Error::UnexpectedEqualsSignBeforeAttributeName);
                                self.consume();
                                let eq = "=";
                                let empty = "";
                                proof {
                                    reveal_strlit("=");
                                    reveal_strlit("");
                                    assert(eq@ =~= one('='));
                                    assert(empty@ =~= Seq::<char>::empty());
                                }
                                push_attribute_exec(
                                    &mut tag,
                                    Attribute { name: Some(CowStr::Borrowed(eq)), value: Some(CowStr::Borrowed(empty)) },
                                );
                            } else {
                                push_attribute_exec(&mut tag, Attribute { name: None, value: None });
                            }
                            self.current_tag = Some(tag);
                            self.set_mark();
                            self.state = TokenizationState::AttributeName;
                            Flow::Goto
                        },
                    }
                }
            },
            None => {
                self.state = TokenizationState::AfterAttributeName;
                Flow::Goto
            },
        }
    }

    /// `AttributeName` (see `attribute_name`).
    fn attribute_name_exec(&mut self) -> (f: Flow<'a>)
        requires
            old(self).wf(),
            old(self).tok().state == TokenizationState::AttributeName,
        ensures
            outcome(*old(self), *final(self), f, attribute_name(old(self).input(), old(self).tok())),
    {
        let ghost s = self.input();
        proof {
            self.lemma_wf();
            lemma_run_end(s, self.tok().pos, Stop::AttributeEnd);
        }
        self.run(Stop::AttributeEnd, Scan::AttributeName);
        let slice = self.slice_from_mark();
        match self.peek() {
            Some(c) => {
                if c == '\0' {
                    self.push_error(Error::UnexpectedNullCharacter);
                    self.state = TokenizationState::AfterAttributeName;
                } else if c == '=' {
                    self.consume();
                    self.state = TokenizationState::BeforeAttributeValue;
                } else {
                    self.state = TokenizationState::AfterAttributeName;
                }
            },
            None => {
                self.state = TokenizationState::AfterAttributeName;
            },
        }
        match self.current_tag.take() {
            None => Flow::Stop,
            Some(mut tag) => {
                if tag.attributes.len() == 0 {
                    return Flow::Stop;
                }
                let ghost before = tag.attributes@;
                let final_name = lower_fffd_cow(slice);
                let last = tag.attributes.pop().unwrap();
                proof {
                    assert(tag.attributes@.map_values(|x: Attribute<'a>| x@) =~= before.map_values(
                        |x: Attribute<'a>| x@,
                    ).drop_last());
                }
                if has_attribute_named(&tag.attributes, final_name.as_str()) {
                    self.push_error(Error::DuplicateAttribute);
                    let empty = "";
                    proof {
                        reveal_strlit("");
                        assert(empty@ =~= Seq::<char>::empty());
                    }
                    tag.attributes.push(Attribute { name: None, value: Some(CowStr::Borrowed(empty)) });
                    proof {
                        let v0 = before.map_values(|x: Attribute<'a>| x@);
                        assert(tag.attributes@.map_values(|x: Attribute<'a>| x@) =~= v0.update(
                            v0.len() - 1,
                            AttributeView { name: None, value: Some(Seq::empty()) },
                        ));
                    }
                } else {
                    let empty = "";
                    proof {
                        reveal_strlit("");
                        assert(empty@ =~= Seq::<char>::empty());
                    }
                    let ghost rest = tag.attributes@;
                    tag.attributes.push(Attribute { name: Some(final_name), value: Some(CowStr::Borrowed(empty)) });
                    proof {
                        let v0 = before.map_values(|x: Attribute<'a>| x@);
                        assert(tag.attributes@.map_values(|x: Attribute<'a>| x@) =~= v0.update(
                            v0.len() - 1,
                            AttributeView { name: Some(final_name@), value: Some(Seq::empty()) },
                        ));
                    }
                }
                self.current_tag = Some(tag);
                Flow::Goto
            },
        }
    }

    /// `AfterAttributeName` (see `after_attribute_name`).
    fn after_attribute_name_exec(&mut self) -> (f: Flow<'a>)
        requires
            old(self).wf(),
            old(self).tok().state == TokenizationState::AfterAttributeName,
        ensures
            outcome(*old(self), *final(self), f, after_attribute_name(old(self).input(), old(self).tok())),
    {
        proof {
            self.lemma_wf();
        }
        match self.peek() {
            Some(c) => {
                if c == '\t' || c == '\n' || c == '\x0C' || c == ' ' {
                    self.consume();
                    Flow::Goto
                } else if c == '/' {
                    self.consume();
                    self.state = TokenizationState::SelfClosingStartTag;
                    Flow::Goto
                } else if c == '=' {
                    self.consume();
                    self.state = TokenizationState::BeforeAttributeValue;
                    Flow::Goto
                } else if c == '\0' {
                    Flow::Stop
                } else {
                    match self.current_tag.take() {
                        None => Flow::Stop,
                        Some(mut tag) => {
                            if c == '>' {
                                self.consume();
                                self.state = TokenizationState::Data;
                                Flow::Return(tag_token_exec(self.is_current_tag_end, tag))
                            } else {
                                push_attribute_exec(&mut tag, Attribute { name: None, value: None });
                                self.current_tag = Some(tag);
                                self.set_mark();
                                self.state = TokenizationState::AttributeName;
                                Flow::Goto
                            }
                        },
                    }
                }
            },
            None => {
                self.push_error(Error::EofInTag);
                Flow::Return(HtmlToken::EndOfFile)
            },
        }
    }

    /// `BeforeAttributeValue` (see `before_attribute_value`).
    fn before_attribute_value_exec(&mut self) -> (f: Flow<'a>)
        requires
            old(self).wf(),
            old(self).tok().state == TokenizationState::BeforeAttributeValue,
        ensures
            outcome(*old(self), *final(self), f, before_attribute_value(old(self).input(), old(self).tok())),
    {
        proof {
            self.lemma_wf();
        }
        match self.peek() {
            Some(c) => {
                if c == '\t' || c == '\n' || c == '\x0C' || c == ' ' {
                    self.consume();
                    Flow::Goto
                } else if c == '"' {
                    self.consume();
                    self.set_mark();
                    self.state = TokenizationState::AttributeValueDoubleQuoted;
                    Flow::Goto
                } else if c == '\'' {
                    self.consume();
                    self.set_mark();
                    self.state = TokenizationState::AttributeValueSingleQuoted;
                    Flow::Goto
                } else if c == '>' {
                    match self.current_tag.take() {
                        None => Flow::Stop,
                        Some(tag) => {
                            self.push_error(Error::MissingAttributeValue);
                            self.consume();
                            self.state = TokenizationState::Data;
                            Flow::Return(tag_token_exec(self.is_current_tag_end, tag))
                        },
                    }
                } else {
                    self.set_mark();
                    self.state = TokenizationState::AttributeValueUnquoted;
                    Flow::Goto
                }
            },
            None => Flow::Stop,
        }
    }

    /// The quoted attribute value states (see `attribute_value_quoted`).
    fn attribute_value_quoted_exec(&mut self, q: char) -> (f: Flow<'a>)
        requires
            old(self).wf(),
            (old(self).tok().state == TokenizationState::AttributeValueDoubleQuoted && q == '"') || (old(
                self,
            ).tok().state == TokenizationState::AttributeValueSingleQuoted && q == '\''),
        ensures
            outcome(*old(self), *final(self), f, attribute_value_quoted(old(self).input(), old(self).tok(), q)),
    {
        let ghost s = self.input();
        proof {
            self.lemma_wf();
            lemma_run_end(s, self.tok().pos, Stop::Quoted(q));
        }
        self.run(Stop::Quoted(q), Scan::Nuls);
        match self.peek() {
            Some(c) => {
                let value = fffd_cow(self.slice_from_mark());
                if c == q {
                    self.consume();
                    self.state = TokenizationState::AfterAttributeValueQuoted;
                    self.append_value(value);
                } else {
                    self.consume();
                    self.return_state = self.state;
                    self.state = TokenizationState::CharacterReference;
                    self.append_value(value);
                }
                Flow::Goto
            },
            None => {
                self.push_error(Error::EofInTag);
                Flow::Return(HtmlToken::EndOfFile)
            },
        }
    }

    /// `AttributeValueUnquoted` (see `attribute_value_unquoted`).
    fn attribute_value_unquoted_exec(&mut self) -> (f: Flow<'a>)
        requires
            old(self).wf(),
            old(self).tok().state == TokenizationState::AttributeValueUnquoted,
        ensures
            outcome(*old(self), *final(self), f, attribute_value_unquoted(old(self).input(), old(self).tok())),
    {
        let ghost s = self.input();
        proof {
            self.lemma_wf();
            lemma_run_end(s, self.tok().pos, Stop::Unquoted);
        }
        self.run(Stop::Unquoted, Scan::Unquoted);
        match self.peek() {
            Some(c) => {
                if c == '&' {
                    let value = fffd_cow(self.slice_from_mark());
                    self.consume();
                    self.return_state = TokenizationState::AttributeValueUnquoted;
                    self.state = TokenizationState::CharacterReference;
                    self.append_value(value);
                    Flow::Goto
                } else if c == '>' {
                    let value = fffd_cow(trim_end(self.slice_from_mark(), Stop::Ws));
                    self.consume();
                    self.state = TokenizationState::Data;
                    self.append_value(value);
                    match self.current_tag.take() {
                        Some(tag) => Flow::Return(tag_token_exec(self.is_current_tag_end, tag)),
                        None => Flow::Stop,
                    }
                } else {
                    self.consume();
                    let value = fffd_cow(trim_end(self.slice_from_mark(), Stop::Ws));
                    self.state = TokenizationState::BeforeAttributeName;
                    self.append_value(value);
                    Flow::Goto
                }
            },
            None => {
                self.push_error(Error::EofInTag);
                Flow::Return(HtmlToken::EndOfFile)
            },
        }
    }

    /// `AfterAttributeValueQuoted` (see `after_attribute_value_quoted`).
    fn after_attribute_value_quoted_exec(&mut self) -> (f: Flow<'a>)
        requires
            old(self).wf(),
            old(self).tok().state == TokenizationState::AfterAttributeValueQuoted,
        ensures
            outcome(*old(self), *final(self), f, after_attribute_value_quoted(old(self).input(), old(self).tok())),
    {
        proof {
            self.lemma_wf();
        }
        match self.peek() {
            Some(c) => {
                if c == '\t' || c == '\n' || c == '\x0C' || c == ' ' {
                    self.consume();
                    self.state = TokenizationState::BeforeAttributeName;
                    Flow::Goto
                } else if c == '/' {
                    self.consume();
                    self.state = TokenizationState::SelfClosingStartTag;
                    Flow::Goto
                } else if c == '>' {
                    match self.current_tag.take() {
                        None => Flow::Stop,
                        Some(tag) => {
                            self.consume();
                            self.state = TokenizationState::Data;
                            Flow::Return(tag_token_exec(self.is_current_tag_end, tag))
                        },
                    }
                } else {
                    self.push_error(Error::MissingWhitespaceBetweenAttributes);
                    self.state = TokenizationState::BeforeAttributeName;
                    Flow::Goto
                }
            },
            None => {
                self.push_error(Error::EofInTag);
                Flow::Return(HtmlToken::EndOfFile)
            },
        }
    }

    /// `SelfClosingStartTag` (see `self_closing_start_tag`).
    fn self_closing_start_tag_exec(&mut self) -> (f: Flow<'a>)
        requires
            old(self).wf(),
            old(self).tok().state == TokenizationState::SelfClosingStartTag,
        ensures
            outcome(*old(self), *final(self), f, self_closing_start_tag(old(self).input(), old(self).tok())),
    {
        proof {
            self.lemma_wf();
        }
        match self.peek() {
            Some(c) => {
                if c == '>' {
                    match self.current_tag.take() {
                        None => Flow::Stop,
                        Some(mut tag) => {
                            self.consume();
                            tag.self_closing_tag = Some(true);
                            self.state = TokenizationState::Data;
                            Flow::Return(tag_token_exec(self.is_current_tag_end, tag))
                        },
                    }
                } else {
                    self.push_error(Error::UnexpectedSolidusInTag);
                    self.state = TokenizationState::BeforeAttributeName;
                    Flow::Goto
                }
            },
            None => {
                self.push_error(Error::EofInTag);
                Flow::Return(HtmlToken::EndOfFile)
            },
        }
    }
}

impl<'a> HtmlTokenizer<'a> {
    /// `BogusComment` (see `bogus_comment`).
    fn bogus_comment_exec(&mut self) -> (f: Flow<'a>)
        requires
            old(self).wf(),
            old(self).tok().state == TokenizationState::BogusComment,
        ensures
            outcome(*old(self), *final(self), f, bogus_comment(old(self).input(), old(self).tok())),
    {
        let ghost s = self.input();
        proof {
            self.lemma_wf();
            lemma_run_end(s, self.tok().pos, Stop::GreaterThan);
        }
        self.run(Stop::GreaterThan, Scan::Nuls);
        let data = fffd_cow(self.slice_from_mark());
        let _ = self.consume();
        self.state = TokenizationState::Data;
        Flow::Return(HtmlToken::Comment(data))
    }

    /// `MarkupDeclarationOpen` (see `markup_declaration_open`).
    fn markup_declaration_open_exec(&mut self) -> (f: Flow<'a>)
        requires
            old(self).wf(),
            old(self).tok().state == TokenizationState::MarkupDeclarationOpen,
        ensures
            outcome(*old(self), *final(self), f, markup_declaration_open(old(self).input(), old(self).tok())),
    {
        let ghost s = self.input();
        let ghost i = self.tok().pos;
        proof {
            self.lemma_wf();
            lemma_words_ascii();
        }
        let dashes: [char; 2] = ['-', '-'];
        let cdata: [char; 7] = ['[', 'C', 'D', 'A', 'T', 'A', '['];
        let doctype: [u8; 7] = [0x64, 0x6f, 0x63, 0x74, 0x79, 0x70, 0x65];
        proof {
            assert(dashes@ =~= seq!['-', '-']);
            assert(cdata@ =~= cdata_text());
            assert(doctype@ =~= ascii(doctype_text()));
        }
        if self.cursor.looking_at(dashes.as_slice()) {
            self.consume_n(2);
            self.set_mark();
            self.state = TokenizationState::CommentStart;
            return Flow::Goto;
        }
        let rest = self.cursor.rest();
        let bytes = self.cursor.rest_bytes();
        if bytes.len() >= 7 {
            if !rest.is_char_boundary(7) {
                return Flow::Stop;
            }
            let (first, _) = bytes.split_at(7);
            proof {
                assert(first@ =~= bytes@.take(7));
            }
            if crate::html::byte_tokens::eq_ignore_ascii_case(first, doctype.as_slice()) {
                proof {
                    lemma_keyword_chars(s, i, doctype_text());
                }
                self.consume_n(7);
                self.state = TokenizationState::Doctype;
                return Flow::Goto;
            }
        }
        if self.cursor.looking_at(cdata.as_slice()) {
            self.set_mark();
            self.consume_n(7);
            self.push_error(Error::CdataInHtmlContent);
            self.state = TokenizationState::BogusComment;
            return Flow::Goto;
        }
        self.push_error(Error::IncorrectlyOpenedComment);
        self.set_mark();
        self.state = TokenizationState::BogusComment;
        Flow::Goto
    }

    /// The text from the mark to `back` characters before the position; those
    /// characters are ASCII.
    fn text_before(&self, back: usize) -> (r: &'a str)
        requires
            self.cursors_ok(),
            back <= 3,
            self.tok().pos >= self.tok().mark + back,
            forall|k: int| 1 <= k <= back ==> (#[trigger] self.input()[self.tok().pos - k] as u32) < 0x80,
        ensures
            r@ == self.input().subrange(self.tok().mark, self.tok().pos - back),
    {
        proof {
            self.lemma_cursors();
        }
        let end = self.back_from_pos(back);
        end.slice_from(&self.mark)
    }

    /// Comment states (see `comment_states`).
    fn comment_start_exec(&mut self) -> (f: Flow<'a>)
        requires
            old(self).wf(),
            old(self).tok().state == TokenizationState::CommentStart || old(self).tok().state == TokenizationState::CommentStartDash,
        ensures
            outcome(*old(self), *final(self), f, comment_states(old(self).input(), old(self).tok())),
    {
        let ghost s = self.input();
        proof {
            self.lemma_wf();
            lemma_run_end(s, self.tok().pos, Stop::DashLtNul);
        }
        let c = self.peek();
        match self.state {
            TokenizationState::CommentStart => {
                if c == Some('-') {
                    self.consume();
                    self.state = TokenizationState::CommentStartDash;
                    Flow::Goto
                } else if c == Some('>') {
                    let text = self.slice_from_mark();
                    self.push_error(Error::AbruptClosingOfEmptyComment);
                    self.consume();
                    self.state = TokenizationState::Data;
                    Flow::Return(HtmlToken::Comment(CowStr::Borrowed(text)))
                } else {
                    self.state = TokenizationState::Comment;
                    Flow::Goto
                }
            },
            TokenizationState::CommentStartDash => {
                if c == Some('-') {
                    self.consume();
                    self.state = TokenizationState::CommentEnd;
                    Flow::Goto
                } else if c == Some('>') {
                    let text = self.text_before(1);
                    self.push_error(Error::AbruptClosingOfEmptyComment);
                    self.consume();
                    self.state = TokenizationState::Data;
                    Flow::Return(HtmlToken::Comment(CowStr::Borrowed(text)))
                } else if c.is_none() {
                    let text = self.text_before(1);
                    self.push_error(Error::EofInComment);
                    self.state = TokenizationState::Data;
                    Flow::Return(HtmlToken::Comment(CowStr::Borrowed(text)))
                } else {
                    self.state = TokenizationState::Comment;
                    Flow::Goto
                }
            },
            _ => Flow::Stop,
        }
    }

    /// Comment states (see `comment_states`).
    fn comment_body_exec(&mut self) -> (f: Flow<'a>)
        requires
            old(self).wf(),
            old(self).tok().state == TokenizationState::Comment,
        ensures
            outcome(*old(self), *final(self), f, comment_states(old(self).input(), old(self).tok())),
    {
        let ghost s = self.input();
        proof {
            self.lemma_wf();
            lemma_run_end(s, self.tok().pos, Stop::DashLtNul);
        }
        self.run_quiet(Stop::DashLtNul);
        let c = self.peek();
        match self.state {
            TokenizationState::Comment => {
                if c == Some('<') {
                    self.consume();
                    self.state = TokenizationState::CommentLessThanSign;
                    Flow::Goto
                } else if c == Some('-') {
                    self.consume();
                    self.state = TokenizationState::CommentEndDash;
                    Flow::Goto
                } else if c.is_some() {
                    self.push_error(Error::UnexpectedNullCharacter);
                    self.consume();
                    Flow::Goto
                } else {
                    self.push_error(Error::EofInComment);
                    let data = fffd_cow(self.slice_from_mark());
                    self.state = TokenizationState::Data;
                    Flow::Return(HtmlToken::Comment(data))
                }
            },
            _ => Flow::Stop,
        }
    }

    /// Comment states (see `comment_states`).
    fn comment_less_than_exec(&mut self) -> (f: Flow<'a>)
        requires
            old(self).wf(),
            old(self).tok().state == TokenizationState::CommentLessThanSign || old(self).tok().state == TokenizationState::CommentLessThanSignBang || old(self).tok().state == TokenizationState::CommentLessThanSignBangDash || old(self).tok().state == TokenizationState::CommentLessThanSignBangDashDash,
        ensures
            outcome(*old(self), *final(self), f, comment_states(old(self).input(), old(self).tok())),
    {
        let ghost s = self.input();
        proof {
            self.lemma_wf();
            lemma_run_end(s, self.tok().pos, Stop::DashLtNul);
        }
        let c = self.peek();
        match self.state {
            TokenizationState::CommentLessThanSign => {
                if c == Some('!') {
                    self.consume();
                    self.state = TokenizationState::CommentLessThanSignBang;
                } else if c == Some('<') {
                    self.consume();
                } else {
                    self.state = TokenizationState::Comment;
                }
                Flow::Goto
            },
            TokenizationState::CommentLessThanSignBang => {
                if c == Some('-') {
                    self.consume();
                    self.state = TokenizationState::CommentLessThanSignBangDash;
                } else {
                    self.state = TokenizationState::Comment;
                }
                Flow::Goto
            },
            TokenizationState::CommentLessThanSignBangDash => {
                if c == Some('-') {
                    self.consume();
                    self.state = TokenizationState::CommentLessThanSignBangDashDash;
                } else {
                    self.state = TokenizationState::CommentEndDash;
                }
                Flow::Goto
            },
            TokenizationState::CommentLessThanSignBangDashDash => {
                if !(c == Some('>') || c.is_none()) {
                    self.push_error(Error::NestedComment);
                }
                self.state = TokenizationState::CommentEnd;
                Flow::Goto
            },
            _ => Flow::Stop,
        }
    }

    /// Comment states (see `comment_states`).
    fn comment_end_exec(&mut self) -> (f: Flow<'a>)
        requires
            old(self).wf(),
            old(self).tok().state == TokenizationState::CommentEndDash || old(self).tok().state == TokenizationState::CommentEnd || old(self).tok().state == TokenizationState::CommentEndBang,
        ensures
            outcome(*old(self), *final(self), f, comment_states(old(self).input(), old(self).tok())),
    {
        let ghost s = self.input();
        proof {
            self.lemma_wf();
            lemma_run_end(s, self.tok().pos, Stop::DashLtNul);
        }
        let c = self.peek();
        match self.state {
            TokenizationState::CommentEndDash => {
                if c == Some('-') {
                    self.consume();
                    self.state = TokenizationState::CommentEnd;
                    Flow::Goto
                } else if c.is_none() {
                    self.push_error(Error::EofInComment);
                    let data = fffd_cow(self.text_before(1));
                    self.state = TokenizationState::Data;
                    Flow::Return(HtmlToken::Comment(data))
                } else {
                    self.state = TokenizationState::Comment;
                    Flow::Goto
                }
            },
            TokenizationState::CommentEnd => {
                if c == Some('>') {
                    let data = fffd_cow(self.text_before(2));
                    self.consume();
                    self.state = TokenizationState::Data;
                    Flow::Return(HtmlToken::Comment(data))
                } else if c == Some('!') {
                    self.consume();
                    self.state = TokenizationState::CommentEndBang;
                    Flow::Goto
                } else if c == Some('-') {
                    self.consume();
                    Flow::Goto
                } else if c.is_none() {
                    self.push_error(Error::EofInComment);
                    let data = fffd_cow(self.text_before(2));
                    self.state = TokenizationState::Data;
                    Flow::Return(HtmlToken::Comment(data))
                } else {
                    self.state = TokenizationState::Comment;
                    Flow::Goto
                }
            },
            TokenizationState::CommentEndBang => {
                if c == Some('-') {
                    self.consume();
                    self.state = TokenizationState::CommentEndDash;
                    Flow::Goto
                } else if c == Some('>') {
                    let data = fffd_cow(self.text_before(3));
                    self.push_error(Error::IncorrectlyClosedComment);
                    self.consume();
                    self.state = TokenizationState::Data;
                    Flow::Return(HtmlToken::Comment(data))
                } else if c.is_none() {
                    self.push_error(Error::EofInComment);
                    let data = fffd_cow(self.text_before(3));
                    self.state = TokenizationState::Data;
                    Flow::Return(HtmlToken::Comment(data))
                } else {
                    self.state = TokenizationState::Comment;
                    Flow::Goto
                }
            },
            _ => Flow::Stop,
        }
    }

}

/// The text of `t` with `c` added, as a new string.
fn cow_push<'a>(t: CowStr<'a>, c: char) -> (r: String)
    ensures
        r@ == t@.push(c),
{
    match t {
        CowStr::Owned(mut s) => {
            crate::text::push_char(&mut s, c);
            s
        },
        CowStr::Borrowed(b) => {
            let mut s = b.to_owned();
            crate::text::push_char(&mut s, c);
            s
        },
    }
}

impl<'a> HtmlTokenizer<'a> {
    /// Hands out the document type being read (see `emit_doctype`).
    fn emit_doctype_exec(&mut self) -> (f: Flow<'a>)
        requires
            old(self).cursors_ok(),
        ensures
            final(self).cursor.text() == old(self).cursor.text(),
            final(self).cursors_ok(),
            final(self).input() == old(self).input(),
            match emit_doctype(old(self).tok()) {
                Act::Return(t2, tok) => f matches Flow::Return(r) && final(self).tok() == t2 && r@ == tok,
                _ => f is Stop && final(self).tok() == old(self).tok(),
            },
    {
        match self.current_doctype.take() {
            Some(d) => Flow::Return(HtmlToken::Doctype(d)),
            None => Flow::Stop,
        }
    }

    /// Forces the document type being read, if any, into quirks mode.
    fn quirk(&mut self)
        requires
            old(self).cursors_ok(),
        ensures
            final(self).cursor.text() == old(self).cursor.text(),
            final(self).cursors_ok(),
            final(self).input() == old(self).input(),
            final(self).tok() == quirked(old(self).tok()),
    {
        match self.current_doctype.take() {
            Some(mut d) => {
                d.force_quirks_flag = true;
                self.current_doctype = Some(d);
            },
            None => {},
        }
    }

    /// Ends the document type at the end of the input (see `doctype_at_end`).
    fn doctype_at_end_exec(&mut self) -> (f: Flow<'a>)
        requires
            old(self).cursors_ok(),
        ensures
            final(self).cursor.text() == old(self).cursor.text(),
            final(self).cursors_ok(),
            final(self).input() == old(self).input(),
            match doctype_at_end(old(self).tok()) {
                Act::Return(t2, tok) => f matches Flow::Return(r) && final(self).tok() == t2 && r@ == tok,
                _ => f is Stop && final(self).tok() == (TokState {
                    state: TokenizationState::Data,
                    ..quirked(erred(old(self).tok(), Error::EofInDoctype))
                }),
            },
    {
        self.push_error(Error::EofInDoctype);
        self.quirk();
        self.state = TokenizationState::Data;
        self.emit_doctype_exec()
    }

    /// Adds `c` to the name of the document type (see `push_name`).
    fn push_name_exec(&mut self, c: char)
        requires
            old(self).cursors_ok(),
        ensures
            final(self).cursor.text() == old(self).cursor.text(),
            final(self).cursors_ok(),
            final(self).input() == old(self).input(),
            final(self).tok() == push_name(old(self).tok(), c),
    {
        match self.current_doctype.take() {
            Some(mut d) => {
                let name = match d.name.take() {
                    Some(n) => cow_push(n, c),
                    None => {
                        let mut s = String::new();
                        crate::text::push_char(&mut s, c);
                        proof {
                            assert(s@ =~= one(c));
                        }
                        s
                    },
                };
                d.name = Some(CowStr::Owned(name));
                self.current_doctype = Some(d);
            },
            None => {},
        }
    }

    /// Sets the public or system identifier to the empty text (see
    /// `with_id`).
    fn open_id(&mut self, public: bool)
        requires
            old(self).cursors_ok(),
        ensures
            final(self).cursor.text() == old(self).cursor.text(),
            final(self).cursors_ok(),
            final(self).input() == old(self).input(),
            final(self).tok() == with_id(old(self).tok(), public, Seq::empty()),
    {
        let empty = "";
        proof {
            reveal_strlit("");
            assert(empty@ =~= Seq::<char>::empty());
        }
        match self.current_doctype.take() {
            Some(mut d) => {
                if public {
                    d.public_identifier = Some(CowStr::Borrowed(empty));
                } else {
                    d.system_identifier = Some(CowStr::Borrowed(empty));
                }
                self.current_doctype = Some(d);
            },
            None => {},
        }
    }

    /// Adds `c` to the public or system identifier (see `push_id`); `false`
    /// where the program would stop.
    fn push_id_exec(&mut self, public: bool, c: char) -> (ok: bool)
        requires
            old(self).cursors_ok(),
        ensures
            final(self).cursor.text() == old(self).cursor.text(),
            final(self).cursors_ok(),
            final(self).input() == old(self).input(),
            match push_id(old(self).tok(), public, c) {
                Act::Goto(t2) => ok && final(self).tok() == t2,
                _ => !ok && final(self).tok() == (TokState { doctype: None, ..old(self).tok() }),
            },
    {
        match self.current_doctype.take() {
            Some(mut d) => {
                let id = if public {
                    d.public_identifier.take()
                } else {
                    d.system_identifier.take()
                };
                match id {
                    Some(v) => {
                        let pushed = CowStr::Owned(cow_push(v, c));
                        if public {
                            d.public_identifier = Some(pushed);
                        } else {
                            d.system_identifier = Some(pushed);
                        }
                        self.current_doctype = Some(d);
                        true
                    },
                    None => false,
                }
            },
            None => true,
        }
    }

    /// `Doctype` and `BeforeDoctypeName` (see `doctype_start`).
    fn doctype_start_exec(&mut self) -> (f: Flow<'a>)
        requires
            old(self).wf(),
            old(self).tok().state == TokenizationState::Doctype || old(self).tok().state
                == TokenizationState::BeforeDoctypeName,
        ensures
            outcome(*old(self), *final(self), f, doctype_start(old(self).input(), old(self).tok())),
    {
        proof {
            self.lemma_wf();
        }
        match self.peek() {
            None => {
                self.push_error(Error::EofInDoctype);
                self.state = TokenizationState::Data;
                Flow::Return(
                    HtmlToken::Doctype(
                        Doctype { name: None, public_identifier: None, system_identifier: None, force_quirks_flag: true },
                    ),
                )
            },
            Some(c) => {
                if c == '\t' || c == '\n' || c == '\x0C' || c == ' ' {
                    self.consume();
                    self.state = TokenizationState::BeforeDoctypeName;
                    Flow::Goto
                } else if self.state == TokenizationState::Doctype {
                    if c != '>' {
                        self.push_error(Error::MissingWhitespaceBeforeDoctypeName);
                    }
                    self.state = TokenizationState::BeforeDoctypeName;
                    Flow::Goto
                } else if c == '>' {
                    self.push_error(Error::MissingDoctypeName);
                    self.consume();
                    self.state = TokenizationState::Data;
                    Flow::Return(
                        HtmlToken::Doctype(
                            Doctype {
                                name: None,
                                public_identifier: None,
                                system_identifier: None,
                                force_quirks_flag: true,
                            },
                        ),
                    )
                } else {
                    self.current_doctype = Some(
                        Doctype { name: None, public_identifier: None, system_identifier: None, force_quirks_flag: false },
                    );
                    self.set_mark();
                    self.state = TokenizationState::DoctypeName;
                    Flow::Goto
                }
            },
        }
    }

    /// `DoctypeName` (see `doctype_name`).
    fn doctype_name_exec(&mut self) -> (f: Flow<'a>)
        requires
            old(self).wf(),
            old(self).tok().state == TokenizationState::DoctypeName,
        ensures
            outcome(*old(self), *final(self), f, doctype_name(old(self).input(), old(self).tok())),
    {
        proof {
            self.lemma_wf();
        }
        match self.peek() {
            None => self.doctype_at_end_exec(),
            Some(c) => {
                if c == '\t' || c == '\n' || c == '\x0C' || c == ' ' {
                    self.consume();
                    self.state = TokenizationState::AfterDoctypeName;
                    Flow::Goto
                } else if c == '>' {
                    self.consume();
                    self.state = TokenizationState::Data;
                    self.emit_doctype_exec()
                } else if c == '\0' {
                    self.push_error(Error::UnexpectedNullCharacter);
                    self.consume();
                    self.push_name_exec('\u{FFFD}');
                    Flow::Goto
                } else {
                    self.consume();
                    self.push_name_exec(lower_char_exec(c));
                    Flow::Goto
                }
            },
        }
    }

    /// `AfterDoctypeName` (see `after_doctype_name`).
    fn after_doctype_name_exec(&mut self) -> (f: Flow<'a>)
        requires
            old(self).wf(),
            old(self).tok().state == TokenizationState::AfterDoctypeName,
        ensures
            outcome(*old(self), *final(self), f, after_doctype_name(old(self).input(), old(self).tok())),
    {
        let ghost s = self.input();
        let ghost i = self.tok().pos;
        proof {
            self.lemma_wf();
            lemma_words_ascii();
        }
        match self.peek() {
            None => self.doctype_at_end_exec(),
            Some(c) => {
                if c == '\t' || c == '\n' || c == '\x0C' || c == ' ' {
                    self.consume();
                    Flow::Goto
                } else if c == '>' {
                    self.consume();
                    self.state = TokenizationState::Data;
                    self.emit_doctype_exec()
                } else {
                    let public: [u8; 6] = [0x70, 0x75, 0x62, 0x6c, 0x69, 0x63];
                    let system: [u8; 6] = [0x73, 0x79, 0x73, 0x74, 0x65, 0x6d];
                    proof {
                        assert(public@ =~= ascii(public_text()));
                        assert(system@ =~= ascii(system_text()));
                    }
                    let rest = self.cursor.rest();
                    let bytes = self.cursor.rest_bytes();
                    if bytes.len() >= 6 {
                        if !rest.is_char_boundary(6) {
                            return Flow::Stop;
                        }
                        let (first, _) = bytes.split_at(6);
                        proof {
                            assert(first@ =~= bytes@.take(6));
                        }
                        if crate::html::byte_tokens::eq_ignore_ascii_case(first, public.as_slice()) {
                            proof {
                                lemma_keyword_chars(s, i, public_text());
                            }
                            self.consume_n(6);
                            self.state = TokenizationState::AfterDoctypePublicKeyword;
                            return Flow::Goto;
                        }
                        if crate::html::byte_tokens::eq_ignore_ascii_case(first, system.as_slice()) {
                            proof {
                                lemma_keyword_chars(s, i, system_text());
                            }
                            self.consume_n(6);
                            self.state = TokenizationState::AfterDoctypeSystemKeyword;
                            return Flow::Goto;
                        }
                    }
                    self.push_error(Error::InvalidCharacterSequenceAfterDoctypeName);
                    self.quirk();
                    self.state = TokenizationState::BogusDoctype;
                    Flow::Goto
                }
            },
        }
    }

    /// The states that open an identifier (see `doctype_id_open`).
    fn doctype_id_open_exec(&mut self, public: bool, keyword: bool) -> (f: Flow<'a>)
        requires
            old(self).wf(),
            old(self).tok().state == (if public {
                if keyword {
                    TokenizationState::AfterDoctypePublicKeyword
                } else {
                    TokenizationState::BeforeDoctypePublicIdentifier
                }
            } else if keyword {
                TokenizationState::AfterDoctypeSystemKeyword
            } else {
                TokenizationState::BeforeDoctypeSystemIdentifier
            }),
        ensures
            outcome(*old(self), *final(self), f, doctype_id_open(old(self).input(), old(self).tok(), public, keyword)),
    {
        proof {
            self.lemma_wf();
        }
        match self.peek() {
            None => self.doctype_at_end_exec(),
            Some(c) => {
                if c == '\t' || c == '\n' || c == '\x0C' || c == ' ' {
                    self.consume();
                    self.state = if public {
                        TokenizationState::BeforeDoctypePublicIdentifier
                    } else {
                        TokenizationState::BeforeDoctypeSystemIdentifier
                    };
                    Flow::Goto
                } else if c == '"' || c == '\'' {
                    if keyword {
                        self.push_error(
                            if public {
                                Error::MissingWhitespaceAfterDoctypePublicKeyword
                            } else {
                                Error::MissingWhitespaceAfterDoctypeSystemKeyword
                            },
                        );
                    }
                    self.consume();
                    self.open_id(public);
                    self.state = if c == '"' {
                        if public {
                            TokenizationState::DoctypePublicIdentifierDoubleQuoted
                        } else {
                            TokenizationState::DoctypeSystemIdentifierDoubleQuoted
                        }
                    } else if public {
                        TokenizationState::DoctypePublicIdentifierSingleQuoted
                    } else {
                        TokenizationState::DoctypeSystemIdentifierSingleQuoted
                    };
                    Flow::Goto
                } else if c == '>' {
                    self.push_error(
                        if public {
                            Error::MissingDoctypePublicIdentifier
                        } else {
                            Error::MissingDoctypeSystemIdentifier
                        },
                    );
                    self.consume();
                    self.quirk();
                    self.state = TokenizationState::Data;
                    self.emit_doctype_exec()
                } else {
                    self.push_error(
                        if public {
                            Error::MissingQuoteBeforeDoctypePublicIdentifier
                        } else {
                            Error::MissingQuoteBeforeDoctypeSystemIdentifier
                        },
                    );
                    self.quirk();
                    self.state = TokenizationState::BogusDoctype;
                    Flow::Goto
                }
            },
        }
    }

    /// The quoted identifier states (see `doctype_id_quoted`).
    #[verifier::spinoff_prover]
    fn doctype_id_quoted_exec(&mut self, public: bool, q: char) -> (f: Flow<'a>)
        requires
            old(self).wf(),
            (q == '"' || q == '\''),
            old(self).tok().state == (if public {
                if q == '"' {
                    TokenizationState::DoctypePublicIdentifierDoubleQuoted
                } else {
                    TokenizationState::DoctypePublicIdentifierSingleQuoted
                }
            } else if q == '"' {
                TokenizationState::DoctypeSystemIdentifierDoubleQuoted
            } else {
                TokenizationState::DoctypeSystemIdentifierSingleQuoted
            }),
        ensures
            outcome(*old(self), *final(self), f, doctype_id_quoted(old(self).input(), old(self).tok(), public, q)),
    {
        proof {
            self.lemma_wf();
        }
        match self.peek() {
            None => self.doctype_at_end_exec(),
            Some(c) => {
                if c == q {
                    self.consume();
                    self.state = if public {
                        TokenizationState::AfterDoctypePublicIdentifier
                    } else {
                        TokenizationState::AfterDoctypeSystemIdentifier
                    };
                    Flow::Goto
                } else if c == '\0' {
                    self.push_error(Error::UnexpectedNullCharacter);
                    self.consume();
                    if self.push_id_exec(public, '\u{FFFD}') {
                        Flow::Goto
                    } else {
                        Flow::Stop
                    }
                } else if c == '>' {
                    self.push_error(
                        if public {
                            Error::AbruptDoctypePublicIdentifier
                        } else {
                            Error::AbruptDoctypeSystemIdentifier
                        },
                    );
                    self.consume();
                    self.quirk();
                    self.state = TokenizationState::Data;
                    self.emit_doctype_exec()
                } else {
                    self.consume();
                    if self.push_id_exec(public, c) {
                        Flow::Goto
                    } else {
                        Flow::Stop
                    }
                }
            },
        }
    }

    /// `AfterDoctypePublicIdentifier` and
    /// `BetweenDoctypePublicAndSystemIdentifiers` (see `after_public_id`).
    fn after_public_id_exec(&mut self, between: bool) -> (f: Flow<'a>)
        requires
            old(self).wf(),
            old(self).tok().state == (if between {
                TokenizationState::BetweenDoctypePublicAndSystemIdentifiers
            } else {
                TokenizationState::AfterDoctypePublicIdentifier
            }),
        ensures
            outcome(*old(self), *final(self), f, after_public_id(old(self).input(), old(self).tok(), between)),
    {
        proof {
            self.lemma_wf();
        }
        match self.peek() {
            None => self.doctype_at_end_exec(),
            Some(c) => {
                if c == '\t' || c == '\n' || c == '\x0C' || c == ' ' {
                    self.consume();
                    self.state = TokenizationState::BetweenDoctypePublicAndSystemIdentifiers;
                    Flow::Goto
                } else if c == '>' {
                    self.consume();
                    self.state = TokenizationState::Data;
                    self.emit_doctype_exec()
                } else if c == '"' || c == '\'' {
                    if !between {
                        self.push_error(Error::MissingWhitespaceBetweenDoctypePublicAndSystemIdentifiers);
                    }
                    self.consume();
                    self.open_id(false);
                    self.state = if c == '"' {
                        TokenizationState::DoctypeSystemIdentifierDoubleQuoted
                    } else {
                        TokenizationState::DoctypeSystemIdentifierSingleQuoted
                    };
                    Flow::Goto
                } else {
                    self.push_error(Error::MissingQuoteBeforeDoctypeSystemIdentifier);
                    self.quirk();
                    self.state = TokenizationState::BogusDoctype;
                    Flow::Goto
                }
            },
        }
    }

    /// `AfterDoctypeSystemIdentifier` and `BogusDoctype` (see
    /// `after_system_id` and `bogus_doctype`).
    fn doctype_end_exec(&mut self) -> (f: Flow<'a>)
        requires
            old(self).wf(),
            old(self).tok().state == TokenizationState::AfterDoctypeSystemIdentifier || old(self).tok().state
                == TokenizationState::BogusDoctype,
        ensures
            outcome(
                *old(self),
                *final(self),
                f,
                if old(self).tok().state == TokenizationState::BogusDoctype {
                    bogus_doctype(old(self).input(), old(self).tok())
                } else {
                    after_system_id(old(self).input(), old(self).tok())
                },
            ),
    {
        proof {
            self.lemma_wf();
        }
        let bogus = self.state == TokenizationState::BogusDoctype;
        match self.peek() {
            None => if bogus {
                self.emit_doctype_exec()
            } else {
                self.doctype_at_end_exec()
            },
            Some(c) => {
                if c == '>' {
                    self.consume();
                    self.state = TokenizationState::Data;
                    self.emit_doctype_exec()
                } else if bogus {
                    if c == '\0' {
                        self.push_error(Error::UnexpectedNullCharacter);
                    }
                    self.consume();
                    Flow::Goto
                } else if c == '\t' || c == '\n' || c == '\x0C' || c == ' ' {
                    self.consume();
                    Flow::Goto
                } else {
                    self.push_error(Error::UnexpectedCharacterAfterDoctypeSystemIdentifier);
                    self.state = TokenizationState::BogusDoctype;
                    Flow::Goto
                }
            },
        }
    }
}

/// Sixteen times any code, as `wrapping_mul` computes it, leaves room for one
/// more hexadecimal digit.
proof fn lemma_times16(x: u32)
    ensures
        times(x, 16) <= 0xFFFF_FFF0,
{
    let q = x / 0x1000_0000;
    let r = x % 0x1000_0000;
    assert(x == 0x1000_0000 * q + r);
    assert((x as nat * 16) == 0x1_0000_0000 * q + 16 * r);
    assert((x as nat * 16) % 0x1_0000_0000 == 16 * r) by (nonlinear_arith)
        requires
            (x as nat * 16) == 0x1_0000_0000 * q + 16 * r,
            0 <= r < 0x1000_0000,
            q >= 0,
    ;
}

/// The replacement of a C1 control code (see `c1_replacement`).
fn c1_replacement_exec(code: u32) -> (r: u32)
    ensures
        r == c1_replacement(code),
{
    match code {
        0x80 => 0x20AC,
        0x82 => 0x201A,
        0x83 => 0x0192,
        0x84 => 0x201E,
        0x85 => 0x2026,
        0x86 => 0x2020,
        0x87 => 0x2021,
        0x88 => 0x02C6,
        0x89 => 0x2030,
        0x8A => 0x0160,
        0x8B => 0x2039,
        0x8C => 0x0152,
        0x8E => 0x017D,
        0x91 => 0x2018,
        0x92 => 0x2019,
        0x93 => 0x201C,
        0x94 => 0x201D,
        0x95 => 0x2022,
        0x96 => 0x2013,
        0x97 => 0x2014,
        0x98 => 0x02DC,
        0x99 => 0x2122,
        0x9A => 0x0161,
        0x9B => 0x203A,
        0x9C => 0x0153,
        0x9E => 0x017E,
        0x9F => 0x0178,
        _ => code,
    }
}

/// The error a numeric character reference with `code` reports, if any, and
/// the code it stands for (see `resolve`).
fn resolve_exec(code: u32) -> (r: (Option<Error>, u32))
    ensures
        r == resolve(code),
{
    if code == 0 {
        (Some(Error::NullCharacterReference), 0xFFFD)
    } else if code > 0x10FFFF {
        (Some(Error::CharacterReferenceOutsideUnicodeRange), 0xFFFD)
    } else if 0xD800 <= code && code <= 0xDFFF {
        (Some(Error::SurrogateCharacterReference), 0xFFFD)
    } else if (0xFDD0 <= code && code <= 0xFDEF) || code % 0x10000 == 0xFFFE || code % 0x10000 == 0xFFFF {
        (Some(Error::NoncharacterCharacterReference), code)
    } else if code == 0x0D || ((code <= 0x1F || (0x7F <= code && code <= 0x9F)) && !(code == 0x09 || code
        == 0x0A || code == 0x0C || code == 0x20)) {
        (Some(Error::ControlCharacterReference), c1_replacement_exec(code))
    } else {
        (None, code)
    }
}

/// Whether `c` is an ASCII letter or digit.
fn is_alnum_exec(c: char) -> (r: bool)
    ensures
        r == is_alnum(c),
{
    ('a' <= c && c <= 'z') || ('A' <= c && c <= 'Z') || ('0' <= c && c <= '9')
}

impl<'a> HtmlTokenizer<'a> {
    /// `ProcessingInstructionOpen` and `ProcessingInstructionTarget` (see
    /// `processing_instruction`).
    fn processing_instruction_open_exec(&mut self) -> (f: Flow<'a>)
        requires
            old(self).wf(),
            old(self).tok().state == TokenizationState::ProcessingInstructionOpen || old(self).tok().state
                == TokenizationState::ProcessingInstructionTarget,
        ensures
            outcome(*old(self), *final(self), f, processing_instruction(old(self).input(), old(self).tok())),
    {
        proof {
            self.lemma_wf();
        }
        match self.peek() {
            None => {
                self.push_error(Error::EofInProcessingInstruction);
                Flow::Return(HtmlToken::EndOfFile)
            },
            Some(c) => {
                if self.state == TokenizationState::ProcessingInstructionOpen {
                    if ('a' <= c && c <= 'z') || ('A' <= c && c <= 'Z') || c == '_' {
                        self.set_mark();
                        self.state = TokenizationState::ProcessingInstructionTarget;
                    } else {
                        self.push_error(Error::InvalidFirstCharacterOfProcessingInstructionTarget);
                        self.state = TokenizationState::BogusComment;
                    }
                    Flow::Goto
                } else if c == '\t' || c == '\n' || c == '\x0C' || c == ' ' || c == '?' || c == '>' {
                    let xml: [char; 3] = ['x', 'm', 'l'];
                    let stylesheet: [char; 14] = [
                        'x',
                        'm',
                        'l',
                        '-',
                        's',
                        't',
                        'y',
                        'l',
                        'e',
                        's',
                        'h',
                        'e',
                        'e',
                        't',
                    ];
                    proof {
                        assert(xml@ =~= xml_text());
                        assert(stylesheet@ =~= xml_stylesheet_text());
                    }
                    let target = map_chars(self.slice_from_mark(), false, true);
                    if crate::cursor::str_is(target.as_str(), xml.as_slice()) || crate::cursor::str_is(
                        target.as_str(),
                        stylesheet.as_slice(),
                    ) {
                        self.push_error(Error::DisallowedProcessingInstructionTarget);
                        self.state = TokenizationState::BogusComment;
                    } else {
                        self.state = TokenizationState::AfterProcessingInstructionTarget;
                    }
                    Flow::Goto
                } else if is_alnum_exec(c) || c == '-' || c == '_' {
                    self.consume();
                    Flow::Goto
                } else {
                    self.push_error(Error::InvalidProcessingInstructionTarget);
                    self.state = TokenizationState::BogusComment;
                    Flow::Goto
                }
            },
        }
    }

    /// The other processing instruction states (see
    /// `processing_instruction`).
    fn processing_instruction_rest_exec(&mut self) -> (f: Flow<'a>)
        requires
            old(self).wf(),
            old(self).tok().state == TokenizationState::AfterProcessingInstructionTarget || old(self).tok().state
                == TokenizationState::ProcessingInstructionData || old(self).tok().state
                == TokenizationState::ProcessingInstructionQuestionable,
        ensures
            outcome(*old(self), *final(self), f, processing_instruction(old(self).input(), old(self).tok())),
    {
        let ghost s = self.input();
        proof {
            self.lemma_wf();
            lemma_run_end(s, self.tok().pos, Stop::QuestionGt);
        }
        if self.state == TokenizationState::AfterProcessingInstructionTarget {
            match self.peek() {
                Some(c) => {
                    if c == '\t' || c == '\n' || c == '\x0C' || c == ' ' {
                        self.consume();
                        return Flow::Goto;
                    }
                },
                None => {},
            }
            self.set_mark();
            self.state = TokenizationState::ProcessingInstructionData;
            Flow::Goto
        } else if self.state == TokenizationState::ProcessingInstructionData {
            self.run_quiet(Stop::QuestionGt);
            match self.consume() {
                Some(c) => {
                    if c == '?' {
                        self.state = TokenizationState::ProcessingInstructionQuestionable;
                    } else {
                        self.state = TokenizationState::Data;
                    }
                    Flow::Goto
                },
                None => {
                    self.push_error(Error::EofInProcessingInstruction);
                    Flow::Return(HtmlToken::EndOfFile)
                },
            }
        } else {
            match self.peek() {
                Some(c) => {
                    if c == '>' {
                        self.consume();
                        self.state = TokenizationState::Data;
                    } else {
                        self.state = TokenizationState::ProcessingInstructionData;
                    }
                    Flow::Goto
                },
                None => {
                    self.push_error(Error::EofInProcessingInstruction);
                    Flow::Return(HtmlToken::EndOfFile)
                },
            }
        }
    }

    /// Whether the state to return to reads an attribute's value.
    fn in_attribute_value(&self) -> (r: bool)
        ensures
            r == reads_attribute_value(self.return_state),
    {
        self.return_state == TokenizationState::AttributeValueDoubleQuoted || self.return_state
            == TokenizationState::AttributeValueSingleQuoted || self.return_state
            == TokenizationState::AttributeValueUnquoted
    }

    /// `CharacterReference` (see `character_reference`).
    fn character_reference_exec(&mut self) -> (f: Flow<'a>)
        requires
            old(self).wf(),
            old(self).tok().state == TokenizationState::CharacterReference,
        ensures
            outcome(*old(self), *final(self), f, character_reference(old(self).input(), old(self).tok())),
    {
        proof {
            self.lemma_wf();
            self.cursor.lemma_wf();
        }
        if !self.cursor.before_is_ascii() {
            return Flow::Stop;
        }
        let in_value = self.in_attribute_value();
        self.mark = self.cursor.back_one();
        match self.peek() {
            Some(c) => {
                if is_alnum_exec(c) {
                    self.state = TokenizationState::NamedCharacterReference;
                    return Flow::Goto;
                } else if c == '#' {
                    self.consume();
                    self.state = TokenizationState::NumericCharacterReference;
                    return Flow::Goto;
                }
            },
            None => {},
        }
        let text = self.slice_from_mark();
        self.state = self.return_state;
        if in_value {
            self.back_in_value_exec(CowStr::Borrowed(text));
            return Flow::Goto;
        }
        Flow::Return(HtmlToken::Character(CowStr::Borrowed(text)))
    }

    /// `NamedCharacterReference` and `AmbiguousAmpersand` (see
    /// `named_reference`).
    fn named_reference_exec(&mut self) -> (f: Flow<'a>)
        requires
            old(self).wf(),
            old(self).tok().state == TokenizationState::NamedCharacterReference || old(self).tok().state
                == TokenizationState::AmbiguousAmpersand,
        ensures
            outcome(*old(self), *final(self), f, named_reference(old(self).input(), old(self).tok())),
    {
        proof {
            self.lemma_wf();
        }
        if self.state == TokenizationState::NamedCharacterReference {
            self.state = TokenizationState::AmbiguousAmpersand;
            return Flow::Goto;
        }
        match self.peek() {
            Some(c) => {
                if is_alnum_exec(c) {
                    self.consume();
                    return Flow::Goto;
                } else if c == ';' {
                    self.push_error(Error::UnknownNamedCharacterReference);
                    self.consume();
                    let text = self.slice_from_mark();
                    if self.in_attribute_value() {
                        self.back_in_value_exec(CowStr::Borrowed(text));
                        return Flow::Goto;
                    }
                    self.state = self.return_state;
                    return Flow::Return(HtmlToken::Character(CowStr::Borrowed(text)));
                }
            },
            None => {},
        }
        let text = self.slice_from_mark();
        if self.in_attribute_value() {
            self.back_in_value_exec(CowStr::Borrowed(text));
            return Flow::Goto;
        }
        self.state = self.return_state;
        Flow::Return(HtmlToken::Character(CowStr::Borrowed(text)))
    }

    /// The numeric character reference states (see `numeric_reference`).
    fn numeric_reference_exec(&mut self) -> (f: Flow<'a>)
        requires
            old(self).wf(),
            old(self).tok().state == TokenizationState::NumericCharacterReference || old(self).tok().state
                == TokenizationState::HexadecimalCharacterReferenceStart || old(self).tok().state
                == TokenizationState::HexadecimalCharacterReference || old(self).tok().state
                == TokenizationState::DecimalCharacterReference,
        ensures
            outcome(*old(self), *final(self), f, numeric_reference(old(self).input(), old(self).tok())),
    {
        proof {
            self.lemma_wf();
        }
        let c = self.peek();
        let end = TokenizationState::NumericCharacterReferenceEnd;
        match self.state {
            TokenizationState::NumericCharacterReference => {
                self.character_reference_code = 0;
                if c == Some('x') || c == Some('X') {
                    self.consume();
                    self.state = TokenizationState::HexadecimalCharacterReferenceStart;
                    Flow::Goto
                } else if c.is_some() && '0' <= c.unwrap() && c.unwrap() <= '9' {
                    self.state = TokenizationState::DecimalCharacterReference;
                    Flow::Goto
                } else {
                    self.push_error(Error::AbsenceOfDigitsInNumericCharacterReference);
                    let text = self.slice_from_mark();
                    if self.in_attribute_value() {
                        self.back_in_value_exec(CowStr::Borrowed(text));
                        return Flow::Goto;
                    }
                    self.state = self.return_state;
                    Flow::Return(HtmlToken::Character(CowStr::Borrowed(text)))
                }
            },
            TokenizationState::HexadecimalCharacterReferenceStart => {
                match c {
                    Some(d) => {
                        if ('0' <= d && d <= '9') || ('a' <= d && d <= 'f') || ('A' <= d && d <= 'F') {
                            self.state = TokenizationState::HexadecimalCharacterReference;
                            return Flow::Goto;
                        }
                    },
                    None => {},
                }
                self.push_error(Error::AbsenceOfDigitsInNumericCharacterReference);
                let text = self.slice_from_mark();
                if self.in_attribute_value() {
                    self.back_in_value_exec(CowStr::Borrowed(text));
                    return Flow::Goto;
                }
                self.state = self.return_state;
                Flow::Return(HtmlToken::Character(CowStr::Borrowed(text)))
            },
            TokenizationState::HexadecimalCharacterReference => {
                match c {
                    Some(d) => {
                        if ('0' <= d && d <= '9') || ('a' <= d && d <= 'f') || ('A' <= d && d <= 'F') {
                            let value: u32 = if '0' <= d && d <= '9' {
                                (d as u32) - 0x30
                            } else if 'A' <= d && d <= 'F' {
                                (d as u32) - 0x37
                            } else {
                                (d as u32) - 0x57
                            };
                            proof {
                                lemma_times16(self.character_reference_code);
                            }
                            self.consume();
                            let m = self.character_reference_code.wrapping_mul(16);
                            self.character_reference_code = m + value;
                            return Flow::Goto;
                        } else if d == ';' {
                            self.consume();
                            self.state = end;
                            return Flow::Goto;
                        }
                    },
                    None => {},
                }
                self.push_error(Error::MissingSemicolonAfterCharacterReference);
                self.state = end;
                Flow::Goto
            },
            _ => {
                match c {
                    Some(d) => {
                        if '0' <= d && d <= '9' {
                            let value: u32 = (d as u32) - 0x30;
                            let m = self.character_reference_code.wrapping_mul(10);
                            if m > u32::MAX - value {
                                return Flow::Stop;
                            }
                            self.consume();
                            self.character_reference_code = m + value;
                            return Flow::Goto;
                        } else if d == ';' {
                            self.consume();
                            self.state = end;
                            return Flow::Goto;
                        }
                    },
                    None => {},
                }
                self.push_error(Error::MissingSemicolonAfterCharacterReference);
                self.state = end;
                Flow::Goto
            },
        }
    }

    /// `NumericCharacterReferenceEnd` (see `reference_end`).
    fn reference_end_exec(&mut self) -> (f: Flow<'a>)
        requires
            old(self).wf(),
            old(self).tok().state == TokenizationState::NumericCharacterReferenceEnd,
        ensures
            outcome(*old(self), *final(self), f, reference_end(old(self).input(), old(self).tok())),
    {
        proof {
            self.lemma_wf();
        }
        let (e, v) = resolve_exec(self.character_reference_code);
        match e {
            Some(x) => {
                self.push_error(x);
            },
            None => {},
        }
        let resolved = match crate::text::char_from_u32(v) {
            Some(ch) => ch,
            None => '\u{FFFD}',
        };
        let mut text = String::new();
        crate::text::push_char(&mut text, resolved);
        proof {
            assert(text@ =~= one(char_of(v)));
        }
        if self.in_attribute_value() {
            self.back_in_value_exec(CowStr::Owned(text));
            return Flow::Goto;
        }
        self.state = self.return_state;
        Flow::Return(HtmlToken::Character(CowStr::Owned(text)))
    }
}

impl<'a> HtmlTokenizer<'a> {
    /// One round of the tokenizer's loop (see `action`).
    fn act(&mut self) -> (f: Flow<'a>)
        requires
            old(self).wf(),
        ensures
            outcome(*old(self), *final(self), f, action(old(self).input(), old(self).tok())),
    {
        proof {
            self.lemma_wf();
        }
        if self.cursor.is_end() && self.state == TokenizationState::Data {
            return Flow::Return(HtmlToken::EndOfFile);
        }
        match self.state {
            TokenizationState::Data => self.text_state_exec(Stop::Data, Some(TokenizationState::TagOpen), false),
            TokenizationState::RcData => self.text_state_exec(
                Stop::Data,
                Some(TokenizationState::RcDataLessThanSign),
                true,
            ),
            TokenizationState::RawText => self.text_state_exec(
                Stop::RawText,
                Some(TokenizationState::RawTextLessThanSign),
                true,
            ),
            TokenizationState::ScriptData => self.text_state_exec(
                Stop::RawText,
                Some(TokenizationState::ScriptDataLessThanSign),
                true,
            ),
            TokenizationState::PlainText => self.text_state_exec(Stop::Nul, None, true),
            TokenizationState::TagOpen => self.tag_open_exec(),
            TokenizationState::EndTagOpen => self.end_tag_open_exec(),
            TokenizationState::TagName => self.tag_name_exec(),
            TokenizationState::RcDataLessThanSign => self.less_than_sign_exec(
                TokenizationState::RcData,
                TokenizationState::RcDataEndTagOpen,
            ),
            TokenizationState::RcDataEndTagOpen => self.end_tag_open_in_exec(
                TokenizationState::RcData,
                TokenizationState::RcDataEndTagName,
                None,
            ),
            TokenizationState::RcDataEndTagName => self.end_tag_name_in_exec(TokenizationState::RcData),
            TokenizationState::RawTextLessThanSign => self.less_than_sign_exec(
                TokenizationState::RawText,
                TokenizationState::RawTextEndTagOpen,
            ),
            TokenizationState::RawTextEndTagOpen => self.end_tag_open_in_exec(
                TokenizationState::RawText,
                TokenizationState::RawTextEndTagName,
                Some(false),
            ),
            TokenizationState::RawTextEndTagName => self.end_tag_name_in_exec(TokenizationState::RawText),
            TokenizationState::ScriptDataLessThanSign => self.script_less_than_sign_exec(),
            TokenizationState::ScriptDataEndTagOpen => self.end_tag_open_in_exec(
                TokenizationState::ScriptData,
                TokenizationState::ScriptDataEndTagName,
                Some(false),
            ),
            TokenizationState::ScriptDataEndTagName => self.end_tag_name_in_exec(TokenizationState::ScriptData),
            TokenizationState::ScriptDataEscapeStart => self.escape_start_exec(
                TokenizationState::ScriptDataEscapeStartDash,
            ),
            TokenizationState::ScriptDataEscapeStartDash => self.escape_start_exec(
                TokenizationState::ScriptDataEscapedDashDash,
            ),
            TokenizationState::ScriptDataEscaped => self.escaped_text_exec(false),
            TokenizationState::ScriptDataEscapedDash => self.escaped_dash_exec(false, false),
            TokenizationState::ScriptDataEscapedDashDash => self.escaped_dash_exec(false, true),
            TokenizationState::ScriptDataEscapedLessThanSign => self.escaped_less_than_sign_exec(),
            TokenizationState::ScriptDataEscapedEndTagOpen => self.end_tag_open_in_exec(
                TokenizationState::ScriptDataEscaped,
                TokenizationState::ScriptDataEscapedEndTagName,
                Some(false),
            ),
            TokenizationState::ScriptDataEscapedEndTagName => self.end_tag_name_in_exec(
                TokenizationState::ScriptDataEscaped,
            ),
            TokenizationState::ScriptDataDoubleEscapeStart => self.double_escape_switch_exec(false),
            TokenizationState::ScriptDataDoubleEscaped => self.escaped_text_exec(true),
            TokenizationState::ScriptDataDoubleEscapedDash => self.escaped_dash_exec(true, false),
            TokenizationState::ScriptDataDoubleEscapedDashDash => self.escaped_dash_exec(true, true),
            TokenizationState::ScriptDataDoubleEscapedLessThanSign => self.double_escaped_less_than_sign_exec(),
            TokenizationState::ScriptDataDoubleEscapeEnd => self.double_escape_switch_exec(true),
            TokenizationState::BeforeAttributeName => self.before_attribute_name_exec(),
            TokenizationState::AttributeName => self.attribute_name_exec(),
            TokenizationState::AfterAttributeName => self.after_attribute_name_exec(),
            TokenizationState::BeforeAttributeValue => self.before_attribute_value_exec(),
            TokenizationState::AttributeValueDoubleQuoted => self.attribute_value_quoted_exec('"'),
            TokenizationState::AttributeValueSingleQuoted => self.attribute_value_quoted_exec('\''),
            TokenizationState::AttributeValueUnquoted => self.attribute_value_unquoted_exec(),
            TokenizationState::AfterAttributeValueQuoted => self.after_attribute_value_quoted_exec(),
            TokenizationState::SelfClosingStartTag => self.self_closing_start_tag_exec(),
            TokenizationState::BogusComment => self.bogus_comment_exec(),
            TokenizationState::MarkupDeclarationOpen => self.markup_declaration_open_exec(),
            TokenizationState::CommentStart => self.comment_start_exec(),
            TokenizationState::CommentStartDash => self.comment_start_exec(),
            TokenizationState::Comment => self.comment_body_exec(),
            TokenizationState::CommentLessThanSign => self.comment_less_than_exec(),
            TokenizationState::CommentLessThanSignBang => self.comment_less_than_exec(),
            TokenizationState::CommentLessThanSignBangDash => self.comment_less_than_exec(),
            TokenizationState::CommentLessThanSignBangDashDash => self.comment_less_than_exec(),
            TokenizationState::CommentEndDash => self.comment_end_exec(),
            TokenizationState::CommentEnd => self.comment_end_exec(),
            TokenizationState::CommentEndBang => self.comment_end_exec(),
            TokenizationState::Doctype => self.doctype_start_exec(),
            TokenizationState::BeforeDoctypeName => self.doctype_start_exec(),
            TokenizationState::DoctypeName => self.doctype_name_exec(),
            TokenizationState::AfterDoctypeName => self.after_doctype_name_exec(),
            TokenizationState::AfterDoctypePublicKeyword => self.doctype_id_open_exec(true, true),
            TokenizationState::BeforeDoctypePublicIdentifier => self.doctype_id_open_exec(true, false),
            TokenizationState::DoctypePublicIdentifierDoubleQuoted => self.doctype_id_quoted_exec(true, '"'),
            TokenizationState::DoctypePublicIdentifierSingleQuoted => self.doctype_id_quoted_exec(true, '\''),
            TokenizationState::AfterDoctypePublicIdentifier => self.after_public_id_exec(false),
            TokenizationState::BetweenDoctypePublicAndSystemIdentifiers => self.after_public_id_exec(true),
            TokenizationState::AfterDoctypeSystemKeyword => self.doctype_id_open_exec(false, true),
            TokenizationState::BeforeDoctypeSystemIdentifier => self.doctype_id_open_exec(false, false),
            TokenizationState::DoctypeSystemIdentifierDoubleQuoted => self.doctype_id_quoted_exec(false, '"'),
            TokenizationState::DoctypeSystemIdentifierSingleQuoted => self.doctype_id_quoted_exec(false, '\''),
            TokenizationState::AfterDoctypeSystemIdentifier => self.doctype_end_exec(),
            TokenizationState::BogusDoctype => self.doctype_end_exec(),
            TokenizationState::CdataSection => self.cdata_section_exec(),
            TokenizationState::CdataSectionBracket => self.cdata_brackets_exec(),
            TokenizationState::CdataSectionEnd => self.cdata_brackets_exec(),
            TokenizationState::ProcessingInstructionOpen => self.processing_instruction_open_exec(),
            TokenizationState::ProcessingInstructionTarget => self.processing_instruction_open_exec(),
            TokenizationState::AfterProcessingInstructionTarget => self.processing_instruction_rest_exec(),
            TokenizationState::ProcessingInstructionData => self.processing_instruction_rest_exec(),
            TokenizationState::ProcessingInstructionQuestionable => self.processing_instruction_rest_exec(),
            TokenizationState::CharacterReference => self.character_reference_exec(),
            TokenizationState::NamedCharacterReference => self.named_reference_exec(),
            TokenizationState::AmbiguousAmpersand => self.named_reference_exec(),
            TokenizationState::NumericCharacterReference => self.numeric_reference_exec(),
            TokenizationState::HexadecimalCharacterReferenceStart => self.numeric_reference_exec(),
            TokenizationState::HexadecimalCharacterReference => self.numeric_reference_exec(),
            TokenizationState::DecimalCharacterReference => self.numeric_reference_exec(),
            TokenizationState::NumericCharacterReferenceEnd => self.reference_end_exec(),
        }
    }

    /// Runs rounds until one hands back a token (`Some`) or would stop the
    /// program (`None`).
    fn run_rounds(&mut self) -> (r: Option<HtmlToken<'a>>)
        requires
            old(self).wf(),
        ensures
            final(self).wf(),
            final(self).input() == old(self).input(),
            match run_states(old(self).input(), old(self).tok()) {
                Act::Return(t2, tok) => r matches Some(x) && final(self).tok() == t2 && x@ == tok,
                _ => r is None,
            },
    {
        let ghost s = self.input();
        let ghost total = run_states(s, self.tok());
        proof {
            self.lemma_wf();
        }
        loop
            invariant
                self.wf(),
                self.input() == s,
                s == old(self).input(),
                total == run_states(old(self).input(), old(self).tok()),
                0 <= self.tok().pos <= s.len(),
                run_states(s, self.tok()) == total,
            decreases s.len() - self.tok().pos, rank(s, self.tok()),
        {
            proof {
                lemma_goto_progress(s, self.tok());
            }
            match self.act() {
                Flow::Return(tok) => {
                    return Some(tok);
                },
                Flow::Goto => {
                    proof {
                        self.lemma_wf();
                    }
                },
                Flow::Stop => {
                    return None;
                },
            }
        }
    }

    /// Whether the next call of `next_token` would stop the program: a panic
    /// of the state machine or a loop that never ends.
    pub fn halts_next(&self) -> (r: bool)
        requires
            self.wf(),
        ensures
            r == (run_states(self.input(), self.tok()) is Stuck),
    {
        proof {
            self.lemma_wf();
            lemma_run_states_ends(self.input(), self.tok());
        }
        let mut copy = HtmlTokenizer {
            cursor: self.cursor,
            state: self.state,
            return_state: self.return_state,
            errors: Vec::new(),
            mark: self.mark,
            current_tag: None,
            is_current_tag_end: self.is_current_tag_end,
            last_start_tag_name: None,
            current_doctype: None,
            character_reference_code: self.character_reference_code,
        };
        copy.errors = self.errors.clone();
        copy.current_tag = clone_tag(&self.current_tag);
        copy.last_start_tag_name = clone_text(&self.last_start_tag_name);
        copy.current_doctype = clone_doctype(&self.current_doctype);
        proof {
            assert(copy.errors@ =~= self.errors@);
            assert(copy.tok() == self.tok());
        }
        copy.run_rounds().is_none()
    }

    /// Reads the next token. The states hand over to each other as
    /// `run_states` says until one hands back a token; at the end of the input
    /// in state `Data` that is `EndOfFile`.
    pub fn next_token(&mut self) -> (r: Option<HtmlToken<'a>>)
        requires
            old(self).wf(),
            !(run_states(old(self).input(), old(self).tok()) is Stuck),
        ensures
            final(self).wf(),
            final(self).input() == old(self).input(),
            run_states(old(self).input(), old(self).tok()) matches Act::Return(t2, tok) && r matches Some(x)
                && final(self).tok() == t2 && x@ == tok,
    {
        proof {
            self.lemma_wf();
            lemma_run_states_ends(self.input(), self.tok());
        }
        self.run_rounds()
    }
}

// ---------------------------------------------------------------------------
// Laws.

/// The rounds of one call stay inside the input and never move back.
pub proof fn lemma_run_states_bounds(s: Seq<char>, t: TokState)
    requires
        0 <= t.pos <= s.len(),
    ensures
        run_states(s, t) matches Act::Return(t2, _) ==> t.pos <= t2.pos <= s.len(),
    decreases s.len() - t.pos, rank(s, t),
{
    lemma_goto_progress(s, t);
    if let Act::Goto(t2) = action(s, t) {
        lemma_run_states_bounds(s, t2);
    }
}

/// Each call of `next_token` keeps the position inside the input and never
/// moves it back.
pub proof fn law_next_token_moves_forward(s: Seq<char>, t: TokState)
    requires
        0 <= t.pos <= s.len(),
    ensures
        run_states(s, t) matches Act::Return(t2, _) ==> t.pos <= t2.pos <= s.len(),
{
    lemma_run_states_bounds(s, t);
}

/// At the end of the input in state `Data`, `next_token` hands back
/// `EndOfFile` and changes nothing.
pub proof fn law_end_of_file_in_data(s: Seq<char>, t: TokState)
    requires
        t.pos == s.len(),
        t.state == TokenizationState::Data,
    ensures
        run_states(s, t) == Act::Return(t, TokenView::EndOfFile),
{
}

/// Within one call, a round that hands over to another state moves forward
/// or hands over to a state lower in `rank`: the states never go round in a
/// circle without reading.
pub proof fn law_rounds_make_progress(s: Seq<char>, t: TokState)
    requires
        0 <= t.pos <= s.len(),
    ensures
        action(s, t) matches Act::Goto(t2) ==> t.pos <= t2.pos <= s.len() && (t.pos < t2.pos || rank(s, t2)
            < rank(s, t)),
{
    lemma_goto_progress(s, t);
}

/// In state `Data`, a run of text holding no `&`, `<` or null character and
/// reaching the end of the input comes back whole as one token, after which
/// `next_token` hands back `EndOfFile`.
pub proof fn law_plain_text_is_one_token(s: Seq<char>, t: TokState)
    requires
        t.state == TokenizationState::Data,
        0 <= t.pos < s.len(),
        forall|j: int| t.pos <= j < s.len() ==> #[trigger] s[j] != '&' && s[j] != '<' && s[j] != '\0',
    ensures
        run_states(s, t) == Act::Return(
            TokState { pos: s.len() as int, mark: t.pos, ..t },
            TokenView::Character(s.subrange(t.pos, s.len() as int)),
        ),
        run_states(s, TokState { pos: s.len() as int, mark: t.pos, ..t }) == Act::Return(
            TokState { pos: s.len() as int, mark: t.pos, ..t },
            TokenView::EndOfFile,
        ),
{
    lemma_run_end(s, t.pos, Stop::Data);
    let e = run_end(s, t.pos, Stop::Data);
    if e < s.len() {
        assert(stops(Stop::Data, s[e]));
    }
    assert(e == s.len());
}

} // verus!
