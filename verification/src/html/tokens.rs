//! A tokenizer after the state machine of the HTML standard
//! (<https://html.spec.whatwg.org/#tokenization>), over a `&str`. Text is not
//! gathered in buffers: a mark is set where a run of text starts, and the run
//! is handed out as a slice of the input. Part of the standard's states are
//! read so far; on the others the tokenizer stops the program.
use vstd::prelude::*;
use vstd::utf8::{encode_utf8, is_char_boundary};
use crate::bs::ascii;
use crate::html::byte_tokens::same_ignoring_case;
use crate::html::errors::Error;
use crate::cursor::StrCursor;
use vstd::std_specs::iter::IteratorSpec;
pub use crate::html::state::TokenizationState;

verus! {

/// Text that borrows from the input or that the tokenizer made.
#[derive(Debug, PartialEq, Eq)]
pub enum CowStr<'a> {
    Borrowed(&'a str),
    Owned(String),
}

impl<'a> View for CowStr<'a> {
    type V = Seq<char>;

    open spec fn view(&self) -> Seq<char> {
        match self {
            CowStr::Borrowed(s) => s@,
            CowStr::Owned(s) => s@,
        }
    }
}

/// An optional text taken as an optional character sequence.
pub open spec fn view_text(o: Option<CowStr>) -> Option<Seq<char>> {
    match o {
        Some(t) => Some(t@),
        None => None,
    }
}

/// A document type declaration.
#[derive(Debug, PartialEq)]
pub struct Doctype<'a> {
    pub name: Option<CowStr<'a>>,
    pub public_identifier: Option<CowStr<'a>>,
    pub system_identifier: Option<CowStr<'a>>,
    pub force_quirks_flag: bool,
}

/// An attribute of a tag.
#[derive(Debug, PartialEq)]
pub struct Attribute<'a> {
    pub name: Option<CowStr<'a>>,
    pub value: Option<CowStr<'a>>,
}

/// A start or end tag.
#[derive(Debug, PartialEq)]
pub struct Tag<'a> {
    pub name: Option<CowStr<'a>>,
    pub self_closing_tag: Option<bool>,
    pub attributes: Vec<Attribute<'a>>,
}

/// A token.
#[derive(Debug, PartialEq)]
pub enum HtmlToken<'a> {
    Doctype(Doctype<'a>),
    StartTag(Tag<'a>),
    EndTag(Tag<'a>),
    Comment(CowStr<'a>),
    Character(CowStr<'a>),
    EndOfFile,
}

/// A document type declaration, taken as values.
pub struct DoctypeView {
    pub name: Option<Seq<char>>,
    pub public_identifier: Option<Seq<char>>,
    pub system_identifier: Option<Seq<char>>,
    pub force_quirks: bool,
}

/// An attribute, taken as values.
pub struct AttributeView {
    pub name: Option<Seq<char>>,
    pub value: Option<Seq<char>>,
}

/// A tag, taken as values.
pub struct TagView {
    pub name: Option<Seq<char>>,
    pub self_closing: Option<bool>,
    pub attributes: Seq<AttributeView>,
}

/// A token, taken as values.
pub enum TokenView {
    Doctype(DoctypeView),
    StartTag(TagView),
    EndTag(TagView),
    Comment(Seq<char>),
    Character(Seq<char>),
    EndOfFile,
}

impl<'a> View for Doctype<'a> {
    type V = DoctypeView;

    open spec fn view(&self) -> DoctypeView {
        DoctypeView {
            name: view_text(self.name),
            public_identifier: view_text(self.public_identifier),
            system_identifier: view_text(self.system_identifier),
            force_quirks: self.force_quirks_flag,
        }
    }
}

impl<'a> View for Attribute<'a> {
    type V = AttributeView;

    open spec fn view(&self) -> AttributeView {
        AttributeView { name: view_text(self.name), value: view_text(self.value) }
    }
}

impl<'a> View for Tag<'a> {
    type V = TagView;

    open spec fn view(&self) -> TagView {
        TagView {
            name: view_text(self.name),
            self_closing: self.self_closing_tag,
            attributes: self.attributes@.map_values(|a: Attribute<'a>| a@),
        }
    }
}

impl<'a> View for HtmlToken<'a> {
    type V = TokenView;

    open spec fn view(&self) -> TokenView {
        match self {
            HtmlToken::Doctype(d) => TokenView::Doctype(d@),
            HtmlToken::StartTag(t) => TokenView::StartTag(t@),
            HtmlToken::EndTag(t) => TokenView::EndTag(t@),
            HtmlToken::Comment(c) => TokenView::Comment(c@),
            HtmlToken::Character(c) => TokenView::Character(c@),
            HtmlToken::EndOfFile => TokenView::EndOfFile,
        }
    }
}

// ---------------------------------------------------------------------------
// Characters.

/// Tab, line feed, form feed or space.
pub open spec fn is_ws(c: char) -> bool {
    c == '\t' || c == '\n' || c == '\x0C' || c == ' '
}

/// An ASCII letter.
pub open spec fn is_alpha(c: char) -> bool {
    ('a' <= c && c <= 'z') || ('A' <= c && c <= 'Z')
}

/// An ASCII upper-case letter.
pub open spec fn is_upper(c: char) -> bool {
    'A' <= c && c <= 'Z'
}

/// `c` with ASCII upper-case letters made lower-case.
pub open spec fn lower_char(c: char) -> char {
    if is_upper(c) {
        ((c as u32) + 32) as char
    } else {
        c
    }
}

/// `s` with ASCII upper-case letters made lower-case, as
/// `to_ascii_lowercase` makes it.
pub open spec fn lower(s: Seq<char>) -> Seq<char> {
    s.map_values(|c: char| lower_char(c))
}

/// `s` with every null character replaced by U+FFFD.
pub open spec fn fffd(s: Seq<char>) -> Seq<char> {
    s.map_values(|c: char| if c == '\0' { '\u{FFFD}' } else { c })
}

/// The characters a run stops at.
#[derive(PartialEq, Eq, Structural, Clone, Copy)]
pub enum Stop {
    /// `&`, `<` or a null character.
    Data,
    /// `<` or a null character.
    RawText,
    /// A null character.
    Nul,
    /// `<`.
    LessThan,
    /// White space, `/` or `>`.
    TagName,
    /// Anything but an ASCII letter.
    NotAlpha,
    /// White space, `/`, `>`, `=`, a quote or `<`.
    AttributeName,
    /// The quote or `&`.
    Quoted(char),
    /// `>`.
    GreaterThan,
    /// `<` or `-`.
    Comment,
    /// White space or `>`.
    DoctypeName,
    /// Anything but an ASCII letter or digit.
    NotAlnum,
    /// `-`, `<` or a null character.
    DashLtNul,
    /// White space, `/`, `>`, a null character or `=`.
    AttributeEnd,
    /// White space, `&` or `>`.
    Unquoted,
    /// `]`.
    Bracket,
    /// `?` or `>`.
    QuestionGt,
    /// White space.
    Ws,
}

/// Whether a run of kind `k` stops at `c`.
pub open spec fn stops(k: Stop, c: char) -> bool {
    match k {
        Stop::Data => c == '&' || c == '<' || c == '\0',
        Stop::RawText => c == '<' || c == '\0',
        Stop::Nul => c == '\0',
        Stop::LessThan => c == '<',
        Stop::TagName => is_ws(c) || c == '/' || c == '>',
        Stop::NotAlpha => !is_alpha(c),
        Stop::AttributeName => is_ws(c) || c == '/' || c == '>' || c == '=' || c == '"' || c == '\''
            || c == '<',
        Stop::Quoted(q) => c == q || c == '&',
        Stop::GreaterThan => c == '>',
        Stop::Comment => c == '<' || c == '-',
        Stop::DoctypeName => is_ws(c) || c == '>',
        Stop::NotAlnum => !(is_alpha(c) || ('0' <= c && c <= '9')),
        Stop::DashLtNul => c == '-' || c == '<' || c == '\0',
        Stop::AttributeEnd => is_ws(c) || c == '/' || c == '>' || c == '\0' || c == '=',
        Stop::Unquoted => is_ws(c) || c == '&' || c == '>',
        Stop::Bracket => c == ']',
        Stop::QuestionGt => c == '?' || c == '>',
        Stop::Ws => is_ws(c),
    }
}

/// Where the run of kind `k` from position `i` of `s` ends.
pub open spec fn run_end(s: Seq<char>, i: int, k: Stop) -> int
    decreases s.len() - i,
{
    if i >= s.len() || stops(k, s[i]) {
        i
    } else {
        run_end(s, i + 1, k)
    }
}

/// A run ends between its start and the end of the input, at a character it
/// stops at, and passes over none.
pub proof fn lemma_run_end(s: Seq<char>, i: int, k: Stop)
    requires
        0 <= i <= s.len(),
    ensures
        i <= run_end(s, i, k) <= s.len(),
        run_end(s, i, k) < s.len() ==> stops(k, s[run_end(s, i, k)]),
        forall|j: int| i <= j < run_end(s, i, k) ==> !stops(k, #[trigger] s[j]),
    decreases s.len() - i,
{
    if i < s.len() && !stops(k, s[i]) {
        lemma_run_end(s, i + 1, k);
    }
}

/// An error for each null character in `s[i..j]`.
pub open spec fn nul_errors(s: Seq<char>, i: int, j: int) -> Seq<Error>
    decreases j - i,
{
    if j <= i {
        Seq::empty()
    } else if s[j - 1] == '\0' {
        nul_errors(s, i, j - 1).push(Error::UnexpectedNullCharacter)
    } else {
        nul_errors(s, i, j - 1)
    }
}

/// `<`.
pub open spec fn lt_text() -> Seq<char> {
    seq!['<']
}

/// `</`.
pub open spec fn lt_slash_text() -> Seq<char> {
    seq!['<', '/']
}

/// U+FFFD.
pub open spec fn replacement_text() -> Seq<char> {
    seq!['\u{FFFD}']
}

/// `&lt;`.
pub open spec fn lt_reference() -> Seq<char> {
    seq!['&', 'l', 't', ';']
}

/// `doctype`.
pub open spec fn doctype_text() -> Seq<char> {
    seq!['d', 'o', 'c', 't', 'y', 'p', 'e']
}

/// Whether `s` holds `pat` at position `i`.
pub open spec fn chars_at(s: Seq<char>, i: int, pat: Seq<char>) -> bool {
    0 <= i && i + pat.len() <= s.len() && s.subrange(i, i + pat.len()) == pat
}

// ---------------------------------------------------------------------------
// The tokenizer's state, taken as values.

/// Everything the tokenizer remembers: the position, the state and the state
/// to return to after a character reference, the errors so far, the mark, the
/// tag being read and whether it is an end tag, the name of the last start
/// tag, and the document type being read. Positions count characters.
pub struct TokState {
    pub pos: int,
    pub state: TokenizationState,
    pub return_state: TokenizationState,
    pub errors: Seq<Error>,
    pub mark: int,
    pub tag: Option<TagView>,
    pub is_end: bool,
    pub last_start: Option<Seq<char>>,
    pub doctype: Option<DoctypeView>,
}

/// What one state does: hand back a token and end the call, go on in the
/// state it leaves, or stop the program (a panic, or a loop that never ends).
pub enum Act {
    Return(TokState, TokenView),
    Goto(TokState),
    Stuck,
}

/// `t` moved to `pos` in state `st`.
pub open spec fn moved(t: TokState, pos: int, st: TokenizationState) -> TokState {
    TokState { pos, state: st, ..t }
}

/// `t` with error `e` recorded.
pub open spec fn erred(t: TokState, e: Error) -> TokState {
    TokState { errors: t.errors.push(e), ..t }
}

/// A fresh tag.
pub open spec fn new_tag() -> TagView {
    TagView { name: None, self_closing: None, attributes: Seq::empty() }
}

/// A document type with no name or identifiers.
pub open spec fn quirks_doctype(force: bool) -> DoctypeView {
    DoctypeView { name: None, public_identifier: None, system_identifier: None, force_quirks: force }
}

/// The tag with its name set to `name` if it has none yet.
pub open spec fn named(tag: Option<TagView>, name: Seq<char>) -> Option<TagView> {
    match tag {
        Some(g) => if g.name is None {
            Some(TagView { name: Some(name), ..g })
        } else {
            Some(g)
        },
        None => None,
    }
}

/// Hands out the tag being read at `pos`, state `Data`: as an end tag when
/// `end` (and `is_end` is then reset), else as a start tag; the program
/// stops when there is none.
pub open spec fn emit_tag(t: TokState, pos: int, end: bool) -> Act {
    match t.tag {
        None => Act::Stuck,
        Some(g) => if end {
            Act::Return(
                TokState { pos, state: TokenizationState::Data, tag: None, is_end: false, ..t },
                TokenView::EndTag(g),
            )
        } else {
            Act::Return(
                TokState { pos, state: TokenizationState::Data, tag: None, ..t },
                TokenView::StartTag(g),
            )
        },
    }
}

/// The tag with `value` as the value of its last attribute (only where that
/// has none yet, when `only_new`).
pub open spec fn valued(g: TagView, value: Seq<char>, only_new: bool) -> TagView {
    if g.attributes.len() > 0 && (!only_new || g.attributes.last().value is None) {
        TagView {
            attributes: g.attributes.update(
                g.attributes.len() - 1,
                AttributeView { value: Some(value), ..g.attributes.last() },
            ),
            ..g
        }
    } else {
        g
    }
}

/// Whether the attributes have one named `name`.
pub open spec fn has_attribute(attributes: Seq<AttributeView>, name: Seq<char>) -> bool {
    exists|k: int| 0 <= k < attributes.len() && attributes[k].name == Some(name)
}

/// Whether the name read since the mark closes the last start tag.
pub open spec fn appropriate(s: Seq<char>, t: TokState) -> bool {
    match t.last_start {
        Some(l) => lower(s.subrange(t.mark, t.pos)) == lower(l),
        None => false,
    }
}


// ---------------------------------------------------------------------------
// The states, one by one, at position `t.pos` of `s`.

/// `Data`, `RcData`, `RawText` and `PlainText`: a run of text up to a
/// character that changes the state; `amp` tells whether `&` starts a
/// character reference, `lt` is the state after `<` (none for `PlainText`),
/// and `fffd` whether a null character becomes U+FFFD (else it is handed out
/// as it is).
pub open spec fn text_state(
    s: Seq<char>,
    t: TokState,
    k: Stop,
    lt: Option<TokenizationState>,
    replace: bool,
) -> Act {
    let i = t.pos;
    let e = run_end(s, i, k);
    let t1 = TokState { mark: i, ..t };
    if e > i {
        Act::Return(TokState { pos: e, ..t1 }, TokenView::Character(s.subrange(i, e)))
    } else if e >= s.len() {
        Act::Return(t1, TokenView::EndOfFile)
    } else if s[e] == '&' && k == Stop::Data {
        Act::Goto(
            TokState {
                pos: e + 1,
                return_state: t.state,
                state: TokenizationState::CharacterReference,
                ..t1
            },
        )
    } else if s[e] == '<' && lt is Some {
        Act::Goto(TokState { pos: e + 1, state: lt.unwrap(), ..t1 })
    } else {
        let t2 = erred(TokState { pos: e + 1, ..t1 }, Error::UnexpectedNullCharacter);
        if replace {
            Act::Return(t2, TokenView::Character(replacement_text()))
        } else {
            Act::Return(t2, TokenView::Character(s.subrange(e, e + 1)))
        }
    }
}

/// `ScriptData`: everything up to `<`, passing over null characters with an
/// error; at the end of the input the text since the mark, nulls replaced.
pub open spec fn script_data(s: Seq<char>, t: TokState) -> Act {
    let i = t.pos;
    let j = run_end(s, i, Stop::LessThan);
    let errors = t.errors + nul_errors(s, i, j);
    if j < s.len() {
        Act::Goto(
            TokState {
                pos: j + 1,
                mark: j,
                state: TokenizationState::ScriptDataLessThanSign,
                errors,
                ..t
            },
        )
    } else {
        Act::Return(
            TokState { pos: j, state: TokenizationState::Data, errors, ..t },
            TokenView::Character(fffd(s.subrange(t.mark, j))),
        )
    }
}

/// `TagOpen`.
pub open spec fn tag_open(s: Seq<char>, t: TokState) -> Act {
    let i = t.pos;
    if i >= s.len() {
        Act::Return(erred(moved(t, i, TokenizationState::Data), Error::EofBeforeTagName), TokenView::Character(lt_text()))
    } else if s[i] == '!' {
        Act::Goto(moved(t, i + 1, TokenizationState::MarkupDeclarationOpen))
    } else if s[i] == '/' {
        Act::Goto(moved(t, i + 1, TokenizationState::EndTagOpen))
    } else if is_alpha(s[i]) {
        Act::Goto(TokState { tag: Some(new_tag()), mark: i, state: TokenizationState::TagName, ..t })
    } else if s[i] == '?' {
        Act::Goto(moved(t, i + 1, TokenizationState::ProcessingInstructionOpen))
    } else {
        Act::Return(
            erred(moved(t, i, TokenizationState::Data), Error::InvalidFirstCharacterOfTagName),
            TokenView::Character(lt_text()),
        )
    }
}

/// `EndTagOpen`.
pub open spec fn end_tag_open(s: Seq<char>, t: TokState) -> Act {
    let i = t.pos;
    if i >= s.len() {
        Act::Return(
            erred(moved(t, i, TokenizationState::Data), Error::EofBeforeTagName),
            TokenView::Character(lt_slash_text()),
        )
    } else if is_alpha(s[i]) {
        Act::Goto(
            TokState {
                tag: Some(new_tag()),
                mark: i,
                is_end: true,
                state: TokenizationState::TagName,
                ..t
            },
        )
    } else if s[i] == '>' {
        Act::Goto(erred(moved(t, i + 1, TokenizationState::Data), Error::MissingEndTagName))
    } else {
        Act::Goto(erred(moved(t, i, TokenizationState::BogusComment), Error::InvalidFirstCharacterOfTagName))
    }
}

/// `TagName`: the name runs to white space, `/` or `>`; null characters in
/// it are errors. At the end of the input the program never stops reading.
pub open spec fn tag_name(s: Seq<char>, t: TokState) -> Act {
    let i = t.pos;
    let j = run_end(s, i, Stop::TagName);
    let t1 = TokState { errors: t.errors + nul_errors(s, i, j), ..t };
    let name = lower(s.subrange(t.mark, j));
    if j >= s.len() {
        Act::Stuck
    } else if is_ws(s[j]) {
        Act::Goto(
            TokState { pos: j + 1, state: TokenizationState::BeforeAttributeName, tag: named(t.tag, name), ..t1 },
        )
    } else if s[j] == '/' {
        Act::Goto(
            TokState { pos: j + 1, state: TokenizationState::SelfClosingStartTag, tag: named(t.tag, name), ..t1 },
        )
    } else {
        emit_tag(TokState { tag: named(t.tag, name), ..t1 }, j + 1, t.is_end)
    }
}

/// `RcDataLessThanSign` and `RawTextLessThanSign`.
pub open spec fn less_than_sign(s: Seq<char>, t: TokState, back: TokenizationState, next: TokenizationState) -> Act {
    let i = t.pos;
    if i < s.len() && s[i] == '/' {
        Act::Goto(moved(t, i + 1, next))
    } else {
        Act::Return(moved(t, i, back), TokenView::Character(lt_text()))
    }
}

/// `RcDataEndTagOpen` and `RawTextEndTagOpen`.
pub open spec fn end_tag_open_in(s: Seq<char>, t: TokState, back: TokenizationState, next: TokenizationState) -> Act {
    let i = t.pos;
    if i < s.len() && is_alpha(s[i]) {
        Act::Goto(TokState { tag: Some(new_tag()), is_end: true, mark: i, state: next, ..t })
    } else {
        Act::Return(moved(t, i, back), TokenView::Character(lt_slash_text()))
    }
}

/// `RcDataEndTagName` and `RawTextEndTagName`: letters, then white space,
/// `/` or `>` where the name closes the last start tag; anything else hands
/// the `</` and the letters back as text.
pub open spec fn end_tag_name_in(s: Seq<char>, t: TokState, back: TokenizationState) -> Act {
    let i = t.pos;
    let j = run_end(s, i, Stop::NotAlpha);
    let tj = TokState { pos: j, ..t };
    let ok = appropriate(s, tj);
    if j < s.len() && is_ws(s[j]) && ok {
        Act::Goto(moved(t, j + 1, TokenizationState::BeforeAttributeName))
    } else if j < s.len() && s[j] == '/' && ok {
        Act::Goto(moved(t, j + 1, TokenizationState::SelfClosingStartTag))
    } else if j < s.len() && s[j] == '>' && ok {
        match named(t.tag, lower(s.subrange(t.mark, j))) {
            None => Act::Stuck,
            Some(g) => Act::Return(
                TokState { pos: j + 1, state: TokenizationState::Data, tag: None, ..t },
                TokenView::EndTag(g),
            ),
        }
    } else {
        Act::Return(
            TokState { pos: j, tag: None, state: back, ..t },
            TokenView::Character(s.subrange(t.mark - 2, j)),
        )
    }
}

/// `ScriptDataLessThanSign`, `ScriptDataEscapeStart`,
/// `ScriptDataEscapeStartDash` and `ScriptDataEscapedDashDash`.
pub open spec fn script_escapes(s: Seq<char>, t: TokState) -> Act {
    let i = t.pos;
    let c = if i < s.len() { Some(s[i]) } else { None };
    match t.state {
        TokenizationState::ScriptDataLessThanSign => if c == Some('/') {
            Act::Goto(TokState { pos: i + 1, mark: i + 1, state: TokenizationState::ScriptDataEndTagOpen, ..t })
        } else if c == Some('!') {
            Act::Goto(moved(t, i + 1, TokenizationState::ScriptDataEscapeStart))
        } else {
            Act::Goto(moved(t, i, TokenizationState::ScriptData))
        },
        TokenizationState::ScriptDataEscapeStart => if c == Some('-') {
            Act::Goto(moved(t, i + 1, TokenizationState::ScriptDataEscapeStartDash))
        } else {
            Act::Goto(moved(t, i, TokenizationState::ScriptData))
        },
        TokenizationState::ScriptDataEscapeStartDash => if c == Some('-') {
            Act::Goto(moved(t, i + 1, TokenizationState::ScriptDataEscapedDashDash))
        } else {
            Act::Goto(moved(t, i, TokenizationState::ScriptData))
        },
        _ => if c == Some('-') {
            Act::Goto(moved(t, i + 1, TokenizationState::ScriptDataEscapedDashDash))
        } else if c == Some('<') {
            Act::Goto(moved(t, i + 1, TokenizationState::ScriptDataEscapedLessThanSign))
        } else if c == Some('>') {
            Act::Goto(moved(t, i + 1, TokenizationState::ScriptData))
        } else if c == Some('\0') {
            Act::Goto(erred(moved(t, i, TokenizationState::ScriptDataEscaped), Error::UnexpectedNullCharacter))
        } else if c is None {
            Act::Stuck
        } else {
            Act::Goto(moved(t, i + 1, TokenizationState::ScriptDataEscaped))
        },
    }
}


/// `BeforeAttributeName`.
pub open spec fn before_attribute_name(s: Seq<char>, t: TokState) -> Act {
    let i = t.pos;
    if i < s.len() && is_ws(s[i]) {
        Act::Goto(moved(t, i + 1, TokenizationState::BeforeAttributeName))
    } else if i >= s.len() || s[i] == '/' || s[i] == '>' {
        Act::Goto(moved(t, i, TokenizationState::AfterAttributeName))
    } else if s[i] == '=' {
        Act::Goto(
            erred(
                TokState { mark: i, state: TokenizationState::AttributeName, ..t },
                Error::UnexpectedEqualsSignBeforeAttributeName,
            ),
        )
    } else {
        Act::Goto(TokState { mark: i, state: TokenizationState::AttributeName, ..t })
    }
}

/// The tag with attribute `name` added, unless it has one of that name; the
/// errors then get `DuplicateAttribute`.
pub open spec fn add_attribute(g: TagView, name: Seq<char>, errors: Seq<Error>) -> (TagView, Seq<Error>) {
    if has_attribute(g.attributes, name) {
        (g, errors.push(Error::DuplicateAttribute))
    } else {
        (TagView { attributes: g.attributes.push(AttributeView { name: Some(name), value: None }), ..g }, errors)
    }
}

/// `AttributeName`: the name runs to white space, `/`, `>`, `=` or the end;
/// null characters in it are errors; a quote or `<` makes the program read
/// on forever.
pub open spec fn attribute_name(s: Seq<char>, t: TokState) -> Act {
    let i = t.pos;
    let j = run_end(s, i, Stop::AttributeName);
    let errors = t.errors + nul_errors(s, i, j);
    if j < s.len() && (s[j] == '"' || s[j] == '\'' || s[j] == '<') {
        Act::Stuck
    } else {
        match t.tag {
            None => Act::Stuck,
            Some(g) => {
                let (g2, errors2) = add_attribute(g, lower(fffd(s.subrange(t.mark, j))), errors);
                if j < s.len() && s[j] == '=' {
                    Act::Goto(
                        TokState {
                            pos: j + 1,
                            state: TokenizationState::BeforeAttributeValue,
                            tag: Some(g2),
                            errors: errors2,
                            ..t
                        },
                    )
                } else {
                    Act::Goto(
                        TokState {
                            pos: j,
                            state: TokenizationState::AfterAttributeName,
                            tag: Some(g2),
                            errors: errors2,
                            ..t
                        },
                    )
                }
            },
        }
    }
}

/// `AfterAttributeName`.
pub open spec fn after_attribute_name(s: Seq<char>, t: TokState) -> Act {
    let i = t.pos;
    if i >= s.len() {
        Act::Return(erred(t, Error::EofInTag), TokenView::EndOfFile)
    } else if is_ws(s[i]) {
        Act::Goto(moved(t, i + 1, TokenizationState::AfterAttributeName))
    } else if s[i] == '/' {
        Act::Goto(moved(t, i + 1, TokenizationState::SelfClosingStartTag))
    } else if s[i] == '=' {
        Act::Goto(moved(t, i + 1, TokenizationState::BeforeAttributeValue))
    } else {
        match t.tag {
            None => Act::Stuck,
            Some(g) => if s[i] == '>' {
                Act::Return(
                    TokState { pos: i + 1, state: TokenizationState::Data, tag: None, ..t },
                    TokenView::StartTag(g),
                )
            } else {
                Act::Goto(
                    TokState {
                        tag: Some(
                            TagView {
                                attributes: g.attributes.push(AttributeView { name: None, value: None }),
                                ..g
                            },
                        ),
                        mark: i,
                        state: TokenizationState::AttributeName,
                        ..t
                    },
                )
            },
        }
    }
}

/// `BeforeAttributeValue`.
pub open spec fn before_attribute_value(s: Seq<char>, t: TokState) -> Act {
    let i = t.pos;
    if i < s.len() && is_ws(s[i]) {
        Act::Goto(moved(t, i + 1, TokenizationState::BeforeAttributeValue))
    } else if i < s.len() && s[i] == '"' {
        Act::Goto(TokState { pos: i + 1, mark: i + 1, state: TokenizationState::AttributeValueDoubleQuoted, ..t })
    } else if i < s.len() && s[i] == '\'' {
        Act::Goto(TokState { pos: i + 1, mark: i + 1, state: TokenizationState::AttributeValueSingleQuoted, ..t })
    } else if i < s.len() && s[i] == '>' {
        emit_tag(erred(t, Error::MissingAttributeValue), i + 1, t.is_end)
    } else {
        Act::Goto(TokState { mark: i, state: TokenizationState::AttributeValueUnquoted, ..t })
    }
}

/// `AttributeValueDoubleQuoted` and `AttributeValueSingleQuoted`: the value
/// runs to the quote `q` (null characters in it are errors); `&` starts a
/// character reference that returns to the single-quoted state.
pub open spec fn attribute_value_quoted(s: Seq<char>, t: TokState, q: char) -> Act {
    let i = t.pos;
    let j = run_end(s, i, Stop::Quoted(q));
    let errors = t.errors + nul_errors(s, i, j);
    if j >= s.len() {
        Act::Return(TokState { pos: j, errors: errors.push(Error::EofInTag), ..t }, TokenView::EndOfFile)
    } else if s[j] == q {
        match t.tag {
            None => Act::Stuck,
            Some(g) => Act::Goto(
                TokState {
                    pos: j + 1,
                    state: TokenizationState::AfterAttributeValueQuoted,
                    tag: Some(valued(g, s.subrange(t.mark, j), true)),
                    errors,
                    ..t
                },
            ),
        }
    } else {
        Act::Goto(
            TokState {
                pos: j + 1,
                return_state: TokenizationState::AttributeValueSingleQuoted,
                state: TokenizationState::CharacterReference,
                errors,
                ..t
            },
        )
    }
}

/// `AttributeValueUnquoted`, one character at a time.
pub open spec fn attribute_value_unquoted(s: Seq<char>, t: TokState) -> Act {
    let i = t.pos;
    let st = TokenizationState::AttributeValueUnquoted;
    if i >= s.len() {
        Act::Return(t, TokenView::EndOfFile)
    } else if is_ws(s[i]) {
        match t.tag {
            None => Act::Stuck,
            Some(g) => Act::Goto(
                TokState {
                    pos: i + 1,
                    state: TokenizationState::BeforeAttributeName,
                    tag: Some(valued(g, s.subrange(t.mark, i), false)),
                    ..t
                },
            ),
        }
    } else if s[i] == '&' {
        Act::Goto(TokState { pos: i + 1, return_state: st, state: TokenizationState::CharacterReference, ..t })
    } else if s[i] == '>' {
        let tag = match t.tag {
            Some(g) => Some(valued(g, s.subrange(t.mark, i), false)),
            None => None,
        };
        emit_tag(TokState { tag, ..t }, i + 1, t.is_end)
    } else if s[i] == '\0' {
        Act::Goto(erred(moved(t, i + 1, st), Error::UnexpectedNullCharacter))
    } else if s[i] == '"' || s[i] == '\'' || s[i] == '<' || s[i] == '=' || s[i] == '`' {
        Act::Goto(erred(moved(t, i + 1, st), Error::UnexpectedCharacterInUnquotedAttributeValue))
    } else {
        Act::Goto(moved(t, i + 1, st))
    }
}

/// `AfterAttributeValueQuoted`.
pub open spec fn after_attribute_value_quoted(s: Seq<char>, t: TokState) -> Act {
    let i = t.pos;
    if i >= s.len() {
        Act::Return(erred(t, Error::EofInTag), TokenView::EndOfFile)
    } else if is_ws(s[i]) {
        Act::Goto(moved(t, i + 1, TokenizationState::BeforeAttributeName))
    } else if s[i] == '/' {
        Act::Goto(moved(t, i + 1, TokenizationState::SelfClosingStartTag))
    } else if s[i] == '>' {
        emit_tag(t, i + 1, t.is_end)
    } else {
        Act::Goto(erred(moved(t, i, TokenizationState::BeforeAttributeName), Error::MissingWhitespaceBetweenAttributes))
    }
}

/// `SelfClosingStartTag`.
pub open spec fn self_closing_start_tag(s: Seq<char>, t: TokState) -> Act {
    let i = t.pos;
    if i >= s.len() {
        Act::Return(erred(t, Error::EofInTag), TokenView::EndOfFile)
    } else if s[i] == '>' {
        match t.tag {
            None => Act::Stuck,
            Some(g) => Act::Return(
                TokState { pos: i + 1, state: TokenizationState::Data, tag: None, ..t },
                TokenView::StartTag(TagView { self_closing: Some(true), ..g }),
            ),
        }
    } else {
        Act::Goto(erred(moved(t, i, TokenizationState::BeforeAttributeName), Error::UnexpectedSolidusInTag))
    }
}

/// `BogusComment`: up to `>` (nulls replaced) or to the end of the input
/// (nulls kept); null characters in it are errors.
pub open spec fn bogus_comment(s: Seq<char>, t: TokState) -> Act {
    let i = t.pos;
    let j = run_end(s, i, Stop::GreaterThan);
    let errors = t.errors + nul_errors(s, i, j);
    if j < s.len() {
        Act::Return(
            TokState { pos: j + 1, state: TokenizationState::Data, errors, ..t },
            TokenView::Comment(fffd(s.subrange(t.mark, j))),
        )
    } else {
        Act::Return(
            TokState { pos: j, state: TokenizationState::Data, errors, ..t },
            TokenView::Comment(s.subrange(t.mark, j)),
        )
    }
}

/// `MarkupDeclarationOpen`: `--` opens a comment; the first seven bytes
/// spelling `doctype` in any case (and more bytes following) open a document
/// type, the program stopping where those seven bytes end inside a
/// character; `[CDATA[` stops the program; anything else is a bogus comment.
pub open spec fn markup_declaration_open(s: Seq<char>, t: TokState) -> Act {
    let i = t.pos;
    let b = encode_utf8(s.skip(i));
    if chars_at(s, i, seq!['-', '-']) {
        Act::Goto(TokState { pos: i + 2, mark: i + 2, state: TokenizationState::CommentStart, ..t })
    } else if b.len() >= 7 && !is_char_boundary(b, 7) {
        Act::Stuck
    } else if b.len() >= 7 && same_ignoring_case(b.take(7), ascii(doctype_text())) {
        Act::Goto(moved(t, i + 7, TokenizationState::Doctype))
    } else if chars_at(s, i, seq!['[', 'C', 'D', 'A', 'T', 'A', '[']) {
        Act::Stuck
    } else {
        Act::Goto(erred(TokState { mark: i, state: TokenizationState::BogusComment, ..t }, Error::IncorrectlyOpenedComment))
    }
}

/// The states of a comment.
pub open spec fn comment_states(s: Seq<char>, t: TokState) -> Act {
    let i = t.pos;
    let c = if i < s.len() { Some(s[i]) } else { None };
    let data = TokenizationState::Data;
    match t.state {
        TokenizationState::CommentStart => if c == Some('-') {
            Act::Goto(moved(t, i + 1, TokenizationState::CommentStartDash))
        } else if c == Some('>') {
            Act::Return(
                erred(moved(t, i + 1, data), Error::AbruptClosingOfEmptyComment),
                TokenView::Comment(fffd(s.subrange(t.mark, i))),
            )
        } else {
            Act::Goto(moved(t, i, TokenizationState::Comment))
        },
        TokenizationState::CommentStartDash => if c == Some('-') {
            Act::Goto(moved(t, i + 1, TokenizationState::CommentEnd))
        } else if c == Some('>') {
            Act::Return(
                erred(moved(t, i + 1, data), Error::AbruptClosingOfEmptyComment),
                TokenView::Comment(fffd(s.subrange(t.mark, i - 1))),
            )
        } else if c is None {
            Act::Return(erred(moved(t, i, data), Error::EofInComment), TokenView::Comment(fffd(s.subrange(t.mark, i))))
        } else {
            Act::Goto(moved(t, i, TokenizationState::Comment))
        },
        TokenizationState::Comment => {
            let j = run_end(s, i, Stop::Comment);
            let errors = t.errors + nul_errors(s, i, j);
            if j >= s.len() {
                Act::Return(
                    TokState { pos: j, state: data, errors, ..t },
                    TokenView::Comment(fffd(s.subrange(t.mark, j))),
                )
            } else if s[j] == '<' {
                Act::Goto(TokState { pos: j + 1, state: TokenizationState::CommentLessThanSign, errors, ..t })
            } else {
                Act::Goto(TokState { pos: j + 1, state: TokenizationState::CommentEndDash, errors, ..t })
            }
        },
        TokenizationState::CommentLessThanSign => if c == Some('!') {
            Act::Goto(moved(t, i + 1, TokenizationState::CommentLessThanSignBang))
        } else if c == Some('<') {
            Act::Goto(moved(t, i + 1, TokenizationState::CommentLessThanSign))
        } else {
            Act::Goto(moved(t, i, TokenizationState::Comment))
        },
        TokenizationState::CommentLessThanSignBang => if c == Some('-') {
            Act::Goto(moved(t, i + 1, TokenizationState::CommentLessThanSignBangDash))
        } else {
            Act::Goto(moved(t, i, TokenizationState::Comment))
        },
        TokenizationState::CommentLessThanSignBangDash => if c == Some('-') {
            Act::Goto(moved(t, i + 1, TokenizationState::CommentLessThanSignBangDashDash))
        } else {
            Act::Goto(moved(t, i, TokenizationState::Comment))
        },
        TokenizationState::CommentLessThanSignBangDashDash => if c == Some('>') || c is None {
            Act::Goto(moved(t, i, TokenizationState::CommentEnd))
        } else {
            Act::Goto(erred(moved(t, i, TokenizationState::CommentEnd), Error::NestedComment))
        },
        TokenizationState::CommentEndDash => if c == Some('-') {
            Act::Goto(moved(t, i + 1, TokenizationState::CommentEnd))
        } else if c is None {
            Act::Return(erred(moved(t, i, TokenizationState::Data), Error::EofInComment), TokenView::Comment(fffd(s.subrange(t.mark, i - 1))))
        } else {
            Act::Goto(moved(t, i, TokenizationState::CommentStart))
        },
        _ => if c == Some('>') {
            Act::Return(moved(t, i + 1, data), TokenView::Comment(fffd(s.subrange(t.mark, i - 2))))
        } else if c == Some('!') {
            Act::Goto(moved(t, i + 1, TokenizationState::CommentEndBang))
        } else if c == Some('-') {
            Act::Goto(moved(t, i + 1, TokenizationState::CommentEnd))
        } else if c is None {
            Act::Return(erred(moved(t, i, data), Error::EofInComment), TokenView::Comment(fffd(s.subrange(t.mark, i - 2))))
        } else {
            Act::Goto(moved(t, i + 1, TokenizationState::Comment))
        },
    }
}

/// The states of a document type declaration.
pub open spec fn doctype_states(s: Seq<char>, t: TokState) -> Act {
    let i = t.pos;
    let c = if i < s.len() { Some(s[i]) } else { None };
    match t.state {
        TokenizationState::Doctype => if c is None {
            Act::Return(erred(moved(t, i, TokenizationState::Data), Error::EofInDoctype), TokenView::Doctype(quirks_doctype(true)))
        } else if is_ws(c.unwrap()) {
            Act::Goto(moved(t, i + 1, TokenizationState::BeforeDoctypeName))
        } else if c == Some('>') {
            Act::Goto(moved(t, i, TokenizationState::BeforeDoctypeName))
        } else {
            Act::Goto(erred(moved(t, i, TokenizationState::BeforeDoctypeName), Error::MissingWhitespaceBeforeDoctypeName))
        },
        TokenizationState::BeforeDoctypeName => if c is None {
            Act::Return(erred(moved(t, i, TokenizationState::Data), Error::EofInTag), TokenView::Doctype(quirks_doctype(true)))
        } else if is_ws(c.unwrap()) {
            Act::Goto(moved(t, i + 1, TokenizationState::BeforeDoctypeName))
        } else if c == Some('\0') {
            Act::Goto(
                erred(
                    TokState {
                        doctype: Some(quirks_doctype(false)),
                        mark: i,
                        state: TokenizationState::DoctypeName,
                        ..t
                    },
                    Error::UnexpectedNullCharacter,
                ),
            )
        } else if c == Some('>') {
            Act::Return(
                erred(moved(t, i + 1, TokenizationState::Data), Error::MissingDoctypeName),
                TokenView::Doctype(quirks_doctype(true)),
            )
        } else {
            Act::Goto(
                TokState { doctype: Some(quirks_doctype(false)), mark: i, state: TokenizationState::DoctypeName, ..t },
            )
        },
        _ => {
            let j = run_end(s, i, Stop::DoctypeName);
            let errors = t.errors + nul_errors(s, i, j);
            let name = lower(fffd(s.subrange(t.mark, j)));
            if j >= s.len() {
                match t.doctype {
                    Some(d) => if d.name is None {
                        Act::Return(
                            TokState { pos: j, errors: errors.push(Error::EofInDoctype), doctype: None, ..t },
                            TokenView::Doctype(DoctypeView { name: Some(name), force_quirks: true, ..d }),
                        )
                    } else {
                        Act::Return(
                            TokState { pos: j, errors: errors.push(Error::EofInDoctype), ..t },
                            TokenView::EndOfFile,
                        )
                    },
                    None => Act::Return(
                        TokState { pos: j, errors: errors.push(Error::EofInDoctype), ..t },
                        TokenView::EndOfFile,
                    ),
                }
            } else if is_ws(s[j]) {
                Act::Goto(TokState { pos: j + 1, state: TokenizationState::AfterDoctypeName, errors, ..t })
            } else {
                match t.doctype {
                    Some(d) => if d.name is None {
                        Act::Return(
                            TokState { pos: j + 1, state: TokenizationState::Data, errors, doctype: None, ..t },
                            TokenView::Doctype(DoctypeView { name: Some(name), ..d }),
                        )
                    } else {
                        Act::Stuck
                    },
                    None => Act::Stuck,
                }
            }
        },
    }
}

/// A state that reads an attribute's value: a character reference read from
/// it stays part of the value, which runs from the mark.
pub open spec fn reads_attribute_value(st: TokenizationState) -> bool {
    st == TokenizationState::AttributeValueDoubleQuoted || st == TokenizationState::AttributeValueSingleQuoted
        || st == TokenizationState::AttributeValueUnquoted
}

/// `CharacterReference`: outside an attribute's value the mark goes back
/// over the character before the position (the `&`); inside one it stays
/// where the value starts. The program stops where the character before the
/// position is not a single byte.
pub open spec fn character_reference(s: Seq<char>, t: TokState) -> Act {
    let i = t.pos;
    if i <= 0 || i > s.len() || !((s[i - 1] as u32) < 0x80) {
        Act::Stuck
    } else if reads_attribute_value(t.return_state) {
        if i < s.len() && is_alpha(s[i]) {
            Act::Goto(TokState { state: TokenizationState::NamedCharacterReference, ..t })
        } else if i < s.len() && s[i] == '#' {
            Act::Goto(TokState { pos: i + 1, state: TokenizationState::NumericCharacterReference, ..t })
        } else {
            Act::Goto(TokState { state: t.return_state, ..t })
        }
    } else if i < s.len() && is_alpha(s[i]) {
        Act::Goto(TokState { mark: i - 1, state: TokenizationState::NamedCharacterReference, ..t })
    } else if i < s.len() && s[i] == '#' {
        Act::Goto(TokState { pos: i + 1, mark: i - 1, state: TokenizationState::NumericCharacterReference, ..t })
    } else {
        Act::Return(TokState { mark: i - 1, state: t.return_state, ..t }, TokenView::Character(s.subrange(i - 1, i)))
    }
}

/// `NamedCharacterReference`: the letters and digits of the name, and a
/// `;` after them, are read. Inside an attribute's value they stay part of
/// the value; elsewhere they are handed back as text (`&lt;` as `<`). No
/// other name is looked up.
pub open spec fn named_character_reference(s: Seq<char>, t: TokState) -> Act {
    let i = t.pos;
    let j = run_end(s, i, Stop::NotAlnum);
    let end = if j < s.len() && s[j] == ';' {
        j + 1
    } else {
        j
    };
    let r = s.subrange(t.mark, end);
    if reads_attribute_value(t.return_state) {
        Act::Goto(TokState { pos: end, state: t.return_state, ..t })
    } else {
        Act::Return(
            TokState { pos: end, state: t.return_state, ..t },
            TokenView::Character(if r == lt_reference() { lt_text() } else { r }),
        )
    }
}

/// What the current state does.
pub open spec fn state_action(s: Seq<char>, t: TokState) -> Act {
    match t.state {
        TokenizationState::Data => text_state(s, t, Stop::Data, Some(TokenizationState::TagOpen), false),
        TokenizationState::RcData => text_state(s, t, Stop::Data, Some(TokenizationState::RcDataLessThanSign), true),
        TokenizationState::RawText => text_state(s, t, Stop::RawText, Some(TokenizationState::RawTextLessThanSign), true),
        TokenizationState::PlainText => text_state(s, t, Stop::Nul, None, true),
        TokenizationState::ScriptData => script_data(s, t),
        TokenizationState::TagOpen => tag_open(s, t),
        TokenizationState::EndTagOpen => end_tag_open(s, t),
        TokenizationState::TagName => tag_name(s, t),
        TokenizationState::RcDataLessThanSign => less_than_sign(s, t, TokenizationState::RcData, TokenizationState::RcDataEndTagOpen),
        TokenizationState::RcDataEndTagOpen => end_tag_open_in(s, t, TokenizationState::RcData, TokenizationState::RcDataEndTagName),
        TokenizationState::RcDataEndTagName => end_tag_name_in(s, t, TokenizationState::RcData),
        TokenizationState::RawTextLessThanSign => less_than_sign(s, t, TokenizationState::RawText, TokenizationState::RawTextEndTagOpen),
        TokenizationState::RawTextEndTagOpen => end_tag_open_in(s, t, TokenizationState::RawText, TokenizationState::RawTextEndTagName),
        TokenizationState::RawTextEndTagName => end_tag_name_in(s, t, TokenizationState::RawText),
        TokenizationState::ScriptDataLessThanSign => script_escapes(s, t),
        TokenizationState::ScriptDataEscapeStart => script_escapes(s, t),
        TokenizationState::ScriptDataEscapeStartDash => script_escapes(s, t),
        TokenizationState::ScriptDataEscapedDashDash => script_escapes(s, t),
        TokenizationState::BeforeAttributeName => before_attribute_name(s, t),
        TokenizationState::AttributeName => attribute_name(s, t),
        TokenizationState::AfterAttributeName => after_attribute_name(s, t),
        TokenizationState::BeforeAttributeValue => before_attribute_value(s, t),
        TokenizationState::AttributeValueDoubleQuoted => attribute_value_quoted(s, t, '"'),
        TokenizationState::AttributeValueSingleQuoted => attribute_value_quoted(s, t, '\''),
        TokenizationState::AttributeValueUnquoted => attribute_value_unquoted(s, t),
        TokenizationState::AfterAttributeValueQuoted => after_attribute_value_quoted(s, t),
        TokenizationState::SelfClosingStartTag => self_closing_start_tag(s, t),
        TokenizationState::BogusComment => bogus_comment(s, t),
        TokenizationState::MarkupDeclarationOpen => markup_declaration_open(s, t),
        TokenizationState::CommentStart => comment_states(s, t),
        TokenizationState::CommentStartDash => comment_states(s, t),
        TokenizationState::Comment => comment_states(s, t),
        TokenizationState::CommentLessThanSign => comment_states(s, t),
        TokenizationState::CommentLessThanSignBang => comment_states(s, t),
        TokenizationState::CommentLessThanSignBangDash => comment_states(s, t),
        TokenizationState::CommentLessThanSignBangDashDash => comment_states(s, t),
        TokenizationState::CommentEndDash => comment_states(s, t),
        TokenizationState::CommentEnd => comment_states(s, t),
        TokenizationState::Doctype => doctype_states(s, t),
        TokenizationState::BeforeDoctypeName => doctype_states(s, t),
        TokenizationState::DoctypeName => doctype_states(s, t),
        TokenizationState::CharacterReference => character_reference(s, t),
        TokenizationState::NamedCharacterReference => named_character_reference(s, t),
        _ => Act::Stuck,
    }
}

/// What one round of the tokenizer's loop does: at the end of the input in
/// state `Data` it hands back `EndOfFile`, else the state acts.
pub open spec fn action(s: Seq<char>, t: TokState) -> Act {
    if t.pos >= s.len() && t.state == TokenizationState::Data {
        Act::Return(t, TokenView::EndOfFile)
    } else {
        state_action(s, t)
    }
}


/// The order in which states hand over without reading a character: each
/// hands over only to a lower one. `AttributeName` hands over without
/// reading only where the character at the position ends the name.
pub open spec fn rank(s: Seq<char>, t: TokState) -> nat {
    match t.state {
        TokenizationState::AfterAttributeValueQuoted => 4,
        TokenizationState::SelfClosingStartTag => 4,
        TokenizationState::BeforeAttributeName => 3,
        TokenizationState::BeforeAttributeValue => 3,
        TokenizationState::AttributeName => if t.pos >= s.len() || is_ws(s[t.pos]) || s[t.pos] == '/'
            || s[t.pos] == '>' {
            2
        } else {
            0
        },
        TokenizationState::AttributeValueUnquoted => 2,
        TokenizationState::CommentEndDash => 2,
        TokenizationState::Doctype => 2,
        TokenizationState::AfterAttributeName => 1,
        TokenizationState::CharacterReference => 4,
        TokenizationState::NamedCharacterReference => 3,
        TokenizationState::TagOpen => 1,
        TokenizationState::EndTagOpen => 1,
        TokenizationState::RcDataEndTagOpen => 1,
        TokenizationState::RawTextEndTagOpen => 1,
        TokenizationState::ScriptDataLessThanSign => 1,
        TokenizationState::ScriptDataEscapeStart => 1,
        TokenizationState::ScriptDataEscapeStartDash => 1,
        TokenizationState::ScriptDataEscapedDashDash => 1,
        TokenizationState::MarkupDeclarationOpen => 1,
        TokenizationState::CommentStart => 1,
        TokenizationState::CommentStartDash => 1,
        TokenizationState::CommentLessThanSign => 1,
        TokenizationState::CommentLessThanSignBang => 1,
        TokenizationState::CommentLessThanSignBangDash => 1,
        TokenizationState::CommentLessThanSignBangDashDash => 1,
        TokenizationState::BeforeDoctypeName => 1,
        _ => 0,
    }
}

/// Seven bytes spelling `doctype` in any case are seven ASCII characters.
pub proof fn lemma_doctype_bytes(s: Seq<char>, i: int)
    requires
        0 <= i <= s.len(),
        encode_utf8(s.skip(i)).len() >= 7,
        same_ignoring_case(encode_utf8(s.skip(i)).take(7), ascii(doctype_text())),
    ensures
        i + 7 <= s.len(),
        forall|k: int| 0 <= k < 7 ==> (#[trigger] s[i + k] as u32) < 0x80,
{
    let b = encode_utf8(s.skip(i));
    let d = ascii(doctype_text());
    assert(d.len() == 7);
    assert forall|k: int| 0 <= k < 7 implies b[k] < 0x80 by {
        assert(b.take(7)[k] == b[k]);
        assert(d[k] < 0x80);
    }
    crate::cursor::lemma_ascii_prefix(s.skip(i), 7);
    assert forall|k: int| 0 <= k < 7 implies (#[trigger] s[i + k] as u32) < 0x80 by {
        assert(s.skip(i)[k] == s[i + k]);
    }
}

/// A state that hands over moves forward, or stays put and hands over to a
/// lower state, and stays inside the input.
pub proof fn lemma_goto_progress(s: Seq<char>, t: TokState)
    requires
        0 <= t.pos <= s.len(),
    ensures
        action(s, t) matches Act::Goto(t2) ==> t.pos <= t2.pos <= s.len() && (t.pos < t2.pos || rank(s, t2)
            < rank(s, t)),
{
    let i = t.pos;
    match t.state {
        TokenizationState::Data => lemma_run_end(s, i, Stop::Data),
        TokenizationState::RcData => lemma_run_end(s, i, Stop::Data),
        TokenizationState::RawText => lemma_run_end(s, i, Stop::RawText),
        TokenizationState::PlainText => lemma_run_end(s, i, Stop::Nul),
        TokenizationState::ScriptData => lemma_run_end(s, i, Stop::LessThan),
        TokenizationState::TagName => lemma_run_end(s, i, Stop::TagName),
        TokenizationState::RcDataEndTagName => lemma_run_end(s, i, Stop::NotAlpha),
        TokenizationState::RawTextEndTagName => lemma_run_end(s, i, Stop::NotAlpha),
        TokenizationState::AttributeName => {
            lemma_run_end(s, i, Stop::AttributeName);
        },
        TokenizationState::AttributeValueDoubleQuoted => lemma_run_end(s, i, Stop::Quoted('"')),
        TokenizationState::AttributeValueSingleQuoted => lemma_run_end(s, i, Stop::Quoted('\'')),
        TokenizationState::Comment => lemma_run_end(s, i, Stop::Comment),
        TokenizationState::DoctypeName => lemma_run_end(s, i, Stop::DoctypeName),
        TokenizationState::NamedCharacterReference => lemma_run_end(s, i, Stop::NotAlnum),
        TokenizationState::MarkupDeclarationOpen => {
            let b = encode_utf8(s.skip(i));
            if b.len() >= 7 && same_ignoring_case(b.take(7), ascii(doctype_text())) {
                lemma_doctype_bytes(s, i);
            }
        },
        _ => {},
    }
}

/// What one call of `next_token` does from `t`: the states hand over to each
/// other until one hands back a token or the program stops.
pub open spec fn run_states(s: Seq<char>, t: TokState) -> Act
    decreases s.len() - t.pos, rank(s, t),
    when 0 <= t.pos <= s.len()
{
    match action(s, t) {
        Act::Goto(t2) => {
            proof {
                lemma_goto_progress(s, t);
            }
            run_states(s, t2)
        },
        a => a,
    }
}

/// The states never end a call by handing over.
pub proof fn lemma_run_states_ends(s: Seq<char>, t: TokState)
    requires
        0 <= t.pos <= s.len(),
    ensures
        !(run_states(s, t) is Goto),
    decreases s.len() - t.pos, rank(s, t),
{
    lemma_goto_progress(s, t);
    if let Act::Goto(t2) = action(s, t) {
        lemma_run_states_ends(s, t2);
    }
}


/// What the tokenizer's state must be for the states that look back at the
/// characters before the position or before the mark: the mark lies at or
/// before the position, the `</` or dashes that led to a state are there, and
/// a document type name is read with a fresh document type at hand.
pub open spec fn consistent(s: Seq<char>, t: TokState) -> bool {
    &&& 0 <= t.mark <= t.pos <= s.len()
    &&& (t.state == TokenizationState::RcDataLessThanSign || t.state
        == TokenizationState::RawTextLessThanSign) ==> t.pos >= 1 && s[t.pos - 1] == '<'
    &&& (t.state == TokenizationState::RcDataEndTagOpen || t.state == TokenizationState::RawTextEndTagOpen)
        ==> t.pos >= 2 && s[t.pos - 2] == '<' && s[t.pos - 1] == '/'
    &&& (t.state == TokenizationState::RcDataEndTagName || t.state == TokenizationState::RawTextEndTagName)
        ==> t.mark >= 2 && s[t.mark - 2] == '<' && s[t.mark - 1] == '/'
    &&& (t.state == TokenizationState::CommentStartDash || t.state == TokenizationState::CommentEndDash
        || t.state == TokenizationState::CommentLessThanSignBangDash) ==> t.pos >= t.mark + 1 && s[t.pos
        - 1] == '-'
    &&& (t.state == TokenizationState::CommentEnd || t.state
        == TokenizationState::CommentLessThanSignBangDashDash) ==> t.pos >= t.mark + 2 && s[t.pos - 2]
        == '-' && s[t.pos - 1] == '-'
    &&& t.state == TokenizationState::DoctypeName ==> t.pos >= s.len() || (t.doctype matches Some(d)
        && d.name is None)
    &&& t.return_state == TokenizationState::Data || t.return_state == TokenizationState::RcData
        || t.return_state == TokenizationState::AttributeValueSingleQuoted || t.return_state
        == TokenizationState::AttributeValueUnquoted
}

/// The states a tree builder may start the tokenizer in.
pub open spec fn is_content_state(st: TokenizationState) -> bool {
    st == TokenizationState::Data || st == TokenizationState::RcData || st == TokenizationState::RawText
        || st == TokenizationState::ScriptData || st == TokenizationState::PlainText
}

/// An optional tag, taken as values.
pub open spec fn view_tag(t: Option<Tag>) -> Option<TagView> {
    match t {
        Some(g) => Some(g@),
        None => None,
    }
}

/// An optional document type, taken as values.
pub open spec fn view_doctype(d: Option<Doctype>) -> Option<DoctypeView> {
    match d {
        Some(x) => Some(x@),
        None => None,
    }
}

/// The tokenizer.
pub struct HtmlTokenizer<'a> {
    cursor: StrCursor<'a>,
    state: TokenizationState,
    return_state: TokenizationState,
    errors: Vec<Error>,
    mark: StrCursor<'a>,
    current_tag_buffer: Option<Tag<'a>>,
    is_current_tag_end: bool,
    last_start_tag_name: Option<CowStr<'a>>,
    current_doctype_buffer: Option<Doctype<'a>>,
}

/// How a state went: it handed back a token, handed over, or would stop the
/// program.
enum Flow<'a> {
    Return(HtmlToken<'a>),
    Goto,
    Stop,
}

impl<'a> HtmlTokenizer<'a> {
    /// The characters of the input.
    pub closed spec fn input(&self) -> Seq<char> {
        self.cursor.input()
    }

    /// Everything the tokenizer remembers, taken as values.
    pub closed spec fn tok(&self) -> TokState {
        TokState {
            pos: self.cursor.at(),
            state: self.state,
            return_state: self.return_state,
            errors: self.errors@,
            mark: self.mark.at(),
            tag: view_tag(self.current_tag_buffer),
            is_end: self.is_current_tag_end,
            last_start: view_text(self.last_start_tag_name),
            doctype: view_doctype(self.current_doctype_buffer),
        }
    }

    /// The cursors are well formed over the same input, and the state is
    /// consistent (see `consistent`).
    pub closed spec fn wf(&self) -> bool {
        &&& self.cursor.wf()
        &&& self.mark.wf()
        &&& self.mark.text() == self.cursor.text()
        &&& self.mark.input() == self.cursor.input()
        &&& consistent(self.cursor.input(), self.tok())
    }

    /// A tokenizer at the start of `input` in state `Data`, with nothing read.
    pub fn new(input: &'a str) -> (t: Self)
        ensures
            t.wf(),
            t.input() == input@,
            t.tok() == (TokState {
                pos: 0,
                state: TokenizationState::Data,
                return_state: TokenizationState::Data,
                errors: Seq::empty(),
                mark: 0,
                tag: None,
                is_end: false,
                last_start: None,
                doctype: None,
            }),
    {
        let cursor = StrCursor::new(input);
        proof {
            cursor.lemma_wf();
        }
        HtmlTokenizer {
            cursor,
            state: TokenizationState::Data,
            return_state: TokenizationState::Data,
            errors: Vec::new(),
            mark: cursor,
            current_tag_buffer: None,
            is_current_tag_end: false,
            last_start_tag_name: None,
            current_doctype_buffer: None,
        }
    }

    /// Makes the tokenizer go on in `state`, one that a tree builder starts
    /// the tokenizer in.
    pub fn set_state(&mut self, state: TokenizationState)
        requires
            old(self).wf(),
            is_content_state(state),
        ensures
            final(self).wf(),
            final(self).input() == old(self).input(),
            final(self).tok() == (TokState { state, ..old(self).tok() }),
    {
        self.state = state;
    }

    /// Records `last_start_tag_name` as the name of the last start tag.
    pub fn set_last_start_tag_name(&mut self, last_start_tag_name: &'a str)
        requires
            old(self).wf(),
        ensures
            final(self).wf(),
            final(self).input() == old(self).input(),
            final(self).tok() == (TokState { last_start: Some(last_start_tag_name@), ..old(self).tok() }),
    {
        self.last_start_tag_name = Some(CowStr::Borrowed(last_start_tag_name));
    }

    /// The errors reported so far.
    pub fn errors(&self) -> (r: &Vec<Error>)
        ensures
            r@ == self.tok().errors,
    {
        &self.errors
    }
}

/// A state went as `a` says.
spec fn outcome(before: HtmlTokenizer, after: HtmlTokenizer, f: Flow, a: Act) -> bool {
    &&& after.wf()
    &&& after.input() == before.input()
    &&& match a {
        Act::Return(t2, tok) => f matches Flow::Return(r) && after.tok() == t2 && r@ == tok,
        Act::Goto(t2) => f is Goto && after.tok() == t2,
        Act::Stuck => f is Stop,
    }
}

// ---------------------------------------------------------------------------
// Text helpers.

impl<'a> CowStr<'a> {
    /// The text.
    pub fn as_str(&self) -> (r: &str)
        ensures
            r@ == self@,
    {
        match self {
            CowStr::Borrowed(s) => s,
            CowStr::Owned(s) => s.as_str(),
        }
    }
}

/// `c` with ASCII upper-case letters made lower-case.
pub(crate) fn lower_char_exec(c: char) -> (r: char)
    ensures
        r == lower_char(c),
{
    if 'A' <= c && c <= 'Z' {
        let b = c as u8 + 32;
        proof {
            assert(b == (c as u32) + 32);
        }
        b as char
    } else {
        c
    }
}

/// A string of the characters `f` makes of those of `s`, one for one.
pub(crate) fn map_chars(s: &str, replace_nul: bool, lower_case: bool) -> (r: String)
    ensures
        r@ == (if lower_case {
            lower(if replace_nul { fffd(s@) } else { s@ })
        } else if replace_nul {
            fffd(s@)
        } else {
            s@
        }),
{
    let ghost target = if lower_case {
        lower(if replace_nul { fffd(s@) } else { s@ })
    } else if replace_nul {
        fffd(s@)
    } else {
        s@
    };
    let mut out = String::new();
    let mut chars = s.chars();
    let ghost mut i: int = 0;
    loop
        invariant
            0 <= i <= s@.len(),
            chars.remaining() == s@.skip(i),
            out@ == target.take(i),
            target.len() == s@.len(),
            target == (if lower_case {
                lower(if replace_nul { fffd(s@) } else { s@ })
            } else if replace_nul {
                fffd(s@)
            } else {
                s@
            }),
        decreases s@.len() - i,
    {
        match chars.next() {
            Some(c) => {
                proof {
                    assert(s@.skip(i)[0] == s@[i]);
                    assert(s@.skip(i).drop_first() =~= s@.skip(i + 1));
                }
                let mut d = c;
                if replace_nul && d == '\0' {
                    d = '\u{FFFD}';
                }
                if lower_case {
                    d = lower_char_exec(d);
                }
                crate::text::push_char(&mut out, d);
                proof {
                    assert(target[i] == d);
                    assert(out@ =~= target.take(i + 1));
                    i = i + 1;
                }
            },
            None => {
                proof {
                    assert(target.take(i) =~= target);
                }
                return out;
            },
        }
    }
}

/// The text of `s` with ASCII letters made lower-case: a slice of the input
/// where there is no upper-case letter, else a new string.
pub(crate) fn lower_cow<'a>(s: &'a str) -> (r: CowStr<'a>)
    ensures
        r@ == lower(s@),
{
    let mut upper = false;
    let mut chars = s.chars();
    let ghost mut i: int = 0;
    loop
        invariant
            0 <= i <= s@.len(),
            chars.remaining() == s@.skip(i),
            upper == exists|k: int| 0 <= k < i && is_upper(#[trigger] s@[k]),
        ensures
            i == s@.len(),
            upper == exists|k: int| 0 <= k < i && is_upper(#[trigger] s@[k]),
        decreases s@.len() - i,
    {
        match chars.next() {
            Some(c) => {
                proof {
                    assert(s@.skip(i)[0] == s@[i]);
                    assert(s@.skip(i).drop_first() =~= s@.skip(i + 1));
                }
                if 'A' <= c && c <= 'Z' {
                    upper = true;
                }
                proof {
                    i = i + 1;
                }
            },
            None => {
                proof {
                    if i < s@.len() {
                        assert(s@.skip(i).len() > 0);
                    }
                }
                break;
            },
        }
    }
    if upper {
        CowStr::Owned(map_chars(s, false, true))
    } else {
        proof {
            assert(lower(s@) =~= s@);
        }
        CowStr::Borrowed(s)
    }
}

/// Whether `a` and `b` are equal with ASCII letters compared without regard
/// to case.
pub(crate) fn same_lower(a: &str, b: &str) -> (r: bool)
    ensures
        r == (lower(a@) == lower(b@)),
{
    let la = map_chars(a, false, true);
    let lb = map_chars(b, false, true);
    let r = crate::text::same_text(la.as_str(), lb.as_str());
    r
}


/// The character at position `i`, if any.
pub open spec fn peek_at(s: Seq<char>, i: int) -> Option<char> {
    if 0 <= i < s.len() {
        Some(s[i])
    } else {
        None
    }
}

/// Whether a run of kind `k` stops at `c`.
pub(crate) fn stops_at(k: Stop, c: char) -> (r: bool)
    ensures
        r == stops(k, c),
{
    let ws = c == '\t' || c == '\n' || c == '\x0C' || c == ' ';
    match k {
        Stop::Data => c == '&' || c == '<' || c == '\0',
        Stop::RawText => c == '<' || c == '\0',
        Stop::Nul => c == '\0',
        Stop::LessThan => c == '<',
        Stop::TagName => ws || c == '/' || c == '>',
        Stop::NotAlpha => !(('a' <= c && c <= 'z') || ('A' <= c && c <= 'Z')),
        Stop::AttributeName => ws || c == '/' || c == '>' || c == '=' || c == '"' || c == '\'' || c
            == '<',
        Stop::Quoted(q) => c == q || c == '&',
        Stop::GreaterThan => c == '>',
        Stop::Comment => c == '<' || c == '-',
        Stop::DoctypeName => ws || c == '>',
        Stop::NotAlnum => !(('a' <= c && c <= 'z') || ('A' <= c && c <= 'Z') || ('0' <= c && c <= '9')),
        Stop::DashLtNul => c == '-' || c == '<' || c == '\0',
        Stop::AttributeEnd => ws || c == '/' || c == '>' || c == '\0' || c == '=',
        Stop::Unquoted => ws || c == '&' || c == '>',
        Stop::Bracket => c == ']',
        Stop::QuestionGt => c == '?' || c == '>',
        Stop::Ws => ws,
    }
}

impl<'a> HtmlTokenizer<'a> {
    /// The cursors are well formed over the same input, the mark at or
    /// before the position.
    closed spec fn cursors_ok(&self) -> bool {
        &&& self.cursor.wf()
        &&& self.mark.wf()
        &&& self.mark.text() == self.cursor.text()
        &&& self.mark.input() == self.cursor.input()
        &&& self.mark.at() <= self.cursor.at()
    }

    proof fn lemma_cursors(&self)
        requires
            self.cursors_ok(),
        ensures
            0 <= self.tok().mark <= self.tok().pos <= self.input().len(),
            self.input().len() <= usize::MAX,
    {
        self.cursor.lemma_wf();
        self.mark.lemma_wf();
    }

    proof fn lemma_wf(&self)
        requires
            self.wf(),
        ensures
            self.cursors_ok(),
            consistent(self.input(), self.tok()),
            0 <= self.tok().mark <= self.tok().pos <= self.input().len(),
            self.input().len() <= usize::MAX,
    {
        self.cursor.lemma_wf();
        self.mark.lemma_wf();
    }

    /// The character at the position, if any.
    fn peek(&self) -> (r: Option<char>)
        requires
            self.cursors_ok(),
        ensures
            r == peek_at(self.input(), self.tok().pos),
    {
        proof {
            self.cursor.lemma_wf();
        }
        self.cursor.peek()
    }

    /// Moves past one character, if any.
    fn consume(&mut self) -> (r: Option<char>)
        requires
            old(self).cursors_ok(),
        ensures
            final(self).cursor.text() == old(self).cursor.text(),
            final(self).cursors_ok(),
            final(self).input() == old(self).input(),
            r == peek_at(old(self).input(), old(self).tok().pos),
            final(self).tok() == (TokState {
                pos: if old(self).tok().pos < old(self).input().len() {
                    old(self).tok().pos + 1
                } else {
                    old(self).tok().pos
                },
                ..old(self).tok()
            }),
    {
        proof {
            self.cursor.lemma_wf();
        }
        self.cursor.consume()
    }

    /// Sets the mark at the position.
    fn set_mark(&mut self)
        requires
            old(self).cursors_ok(),
        ensures
            final(self).cursor.text() == old(self).cursor.text(),
            final(self).cursors_ok(),
            final(self).input() == old(self).input(),
            final(self).tok() == (TokState { mark: old(self).tok().pos, ..old(self).tok() }),
    {
        self.mark = self.cursor;
    }

    /// Records error `e`.
    fn push_error(&mut self, e: Error)
        requires
            old(self).cursors_ok(),
        ensures
            final(self).cursor.text() == old(self).cursor.text(),
            final(self).cursors_ok(),
            final(self).input() == old(self).input(),
            final(self).tok() == erred(old(self).tok(), e),
    {
        self.errors.push(e);
    }

    /// The text from the mark to the position.
    fn slice_from_mark(&self) -> (r: &'a str)
        requires
            self.cursors_ok(),
        ensures
            r@ == self.input().subrange(self.tok().mark, self.tok().pos),
    {
        self.cursor.slice_from(&self.mark)
    }

    /// Reads the run of kind `k`, recording an error for each null character
    /// in it when `count_nuls`.
    fn run(&mut self, k: Stop, count_nuls: bool)
        requires
            old(self).cursors_ok(),
        ensures
            final(self).cursor.text() == old(self).cursor.text(),
            final(self).cursors_ok(),
            final(self).input() == old(self).input(),
            final(self).tok() == (TokState {
                pos: run_end(old(self).input(), old(self).tok().pos, k),
                errors: if count_nuls {
                    old(self).tok().errors + nul_errors(
                        old(self).input(),
                        old(self).tok().pos,
                        run_end(old(self).input(), old(self).tok().pos, k),
                    )
                } else {
                    old(self).tok().errors
                },
                ..old(self).tok()
            }),
    {
        let ghost s = self.input();
        let ghost t0 = self.tok();
        proof {
            self.lemma_cursors();
            assert(nul_errors(s, t0.pos, t0.pos) =~= Seq::<Error>::empty());
            assert(t0.errors + Seq::<Error>::empty() =~= t0.errors);
        }
        loop
            invariant
                self.cursors_ok(),
                self.cursor.text() == old(self).cursor.text(),
                self.input() == s,
                s == old(self).input(),
                t0 == old(self).tok(),
                t0.pos <= self.tok().pos <= s.len(),
                run_end(s, t0.pos, k) == run_end(s, self.tok().pos, k),
                self.tok() == (TokState {
                    pos: self.tok().pos,
                    errors: if count_nuls {
                        t0.errors + nul_errors(s, t0.pos, self.tok().pos)
                    } else {
                        t0.errors
                    },
                    ..t0
                }),
            ensures
                self.cursors_ok(),
                self.cursor.text() == old(self).cursor.text(),
                self.input() == s,
                run_end(s, t0.pos, k) == self.tok().pos,
                self.tok() == (TokState {
                    pos: self.tok().pos,
                    errors: if count_nuls {
                        t0.errors + nul_errors(s, t0.pos, self.tok().pos)
                    } else {
                        t0.errors
                    },
                    ..t0
                }),
            decreases s.len() - self.tok().pos,
        {
            let ghost p = self.tok().pos;
            proof {
                self.lemma_cursors();
            }
            match self.peek() {
                Some(c) => {
                    if stops_at(k, c) {
                        break;
                    }
                    if count_nuls && c == '\0' {
                        self.errors.push(Error::UnexpectedNullCharacter);
                    }
                    self.consume();
                    proof {
                        if count_nuls {
                            assert(t0.errors + nul_errors(s, t0.pos, p + 1) =~= (t0.errors + nul_errors(
                                s,
                                t0.pos,
                                p,
                            )) + (if c == '\0' {
                                seq![Error::UnexpectedNullCharacter]
                            } else {
                                Seq::<Error>::empty()
                            }));
                        }
                    }
                },
                None => {
                    assert(run_end(s, p, k) == p);
                    break;
                },
            }
        }
    }
}


impl<'a> HtmlTokenizer<'a> {
    /// `Data`, `RcData`, `RawText` and `PlainText` (see `text_state`).
    fn text_state_exec(&mut self, k: Stop, lt: Option<TokenizationState>, replace: bool) -> (f: Flow<'a>)
        requires
            old(self).wf(),
            k == Stop::Data || k == Stop::RawText || k == Stop::Nul,
            lt == Some(TokenizationState::RcDataLessThanSign) || lt == Some(
                TokenizationState::RawTextLessThanSign,
            ) || lt == Some(TokenizationState::TagOpen) || lt is None,
            old(self).tok().state == TokenizationState::Data || old(self).tok().state
                == TokenizationState::RcData || old(self).tok().state == TokenizationState::RawText
                || old(self).tok().state == TokenizationState::PlainText,
            k == Stop::Data ==> old(self).tok().state == TokenizationState::Data || old(self).tok().state
                == TokenizationState::RcData,
        ensures
            outcome(*old(self), *final(self), f, text_state(old(self).input(), old(self).tok(), k, lt, replace)),
    {
        let ghost s = self.input();
        proof {
            self.lemma_wf();
            lemma_run_end(s, self.tok().pos, k);
        }
        self.set_mark();
        self.run(k, false);
        if self.cursor.is_after(&self.mark) {
            let text = self.slice_from_mark();
            return Flow::Return(HtmlToken::Character(CowStr::Borrowed(text)));
        }
        let before = self.cursor;
        match self.consume() {
            Some(c) => {
                if c == '&' && k == Stop::Data {
                    self.return_state = self.state;
                    self.state = TokenizationState::CharacterReference;
                    Flow::Goto
                } else if c == '<' && lt.is_some() {
                    self.state = lt.unwrap();
                    Flow::Goto
                } else {
                    self.push_error(Error::UnexpectedNullCharacter);
                    if replace {
                        let r = "\u{FFFD}";
                        proof {
                            reveal_strlit("\u{FFFD}");
                            assert(r@ =~= replacement_text());
                        }
                        Flow::Return(HtmlToken::Character(CowStr::Borrowed(r)))
                    } else {
                        let text = self.cursor.slice_from(&before);
                        Flow::Return(HtmlToken::Character(CowStr::Borrowed(text)))
                    }
                }
            },
            None => Flow::Return(HtmlToken::EndOfFile),
        }
    }

    /// `ScriptData` (see `script_data`).
    fn script_data_exec(&mut self) -> (f: Flow<'a>)
        requires
            old(self).wf(),
            old(self).tok().state == TokenizationState::ScriptData,
        ensures
            outcome(*old(self), *final(self), f, script_data(old(self).input(), old(self).tok())),
    {
        let ghost s = self.input();
        proof {
            self.lemma_wf();
            lemma_run_end(s, self.tok().pos, Stop::LessThan);
        }
        self.run(Stop::LessThan, true);
        match self.peek() {
            Some(_) => {
                self.set_mark();
                self.consume();
                self.state = TokenizationState::ScriptDataLessThanSign;
                Flow::Goto
            },
            None => {
                let slice = self.slice_from_mark();
                let text = map_chars(slice, true, false);
                self.state = TokenizationState::Data;
                Flow::Return(HtmlToken::Character(CowStr::Owned(text)))
            },
        }
    }

    /// `TagOpen` (see `tag_open`).
    fn tag_open_exec(&mut self) -> (f: Flow<'a>)
        requires
            old(self).wf(),
            old(self).tok().state == TokenizationState::TagOpen,
        ensures
            outcome(*old(self), *final(self), f, tag_open(old(self).input(), old(self).tok())),
    {
        proof {
            self.lemma_wf();
        }
        match self.peek() {
            Some(c) => {
                if c == '!' {
                    self.consume();
                    self.state = TokenizationState::MarkupDeclarationOpen;
                    Flow::Goto
                } else if c == '/' {
                    self.consume();
                    self.state = TokenizationState::EndTagOpen;
                    Flow::Goto
                } else if ('a' <= c && c <= 'z') || ('A' <= c && c <= 'Z') {
                    self.current_tag_buffer = Some(Tag { name: None, self_closing_tag: None, attributes: Vec::new() });
                    self.set_mark();
                    self.state = TokenizationState::TagName;
                    proof {
                        assert(self.current_tag_buffer.unwrap()@.attributes =~= Seq::<AttributeView>::empty());
                    }
                    Flow::Goto
                } else if c == '?' {
                    self.consume();
                    self.state = TokenizationState::ProcessingInstructionOpen;
                    Flow::Goto
                } else {
                    self.push_error(Error::InvalidFirstCharacterOfTagName);
                    self.state = TokenizationState::Data;
                    let r = "<";
                    proof {
                        reveal_strlit("<");
                        assert(r@ =~= lt_text());
                    }
                    Flow::Return(HtmlToken::Character(CowStr::Borrowed(r)))
                }
            },
            None => {
                self.push_error(Error::EofBeforeTagName);
                self.state = TokenizationState::Data;
                let r = "<";
                proof {
                    reveal_strlit("<");
                    assert(r@ =~= lt_text());
                }
                Flow::Return(HtmlToken::Character(CowStr::Borrowed(r)))
            },
        }
    }

    /// `EndTagOpen` (see `end_tag_open`).
    fn end_tag_open_exec(&mut self) -> (f: Flow<'a>)
        requires
            old(self).wf(),
            old(self).tok().state == TokenizationState::EndTagOpen,
        ensures
            outcome(*old(self), *final(self), f, end_tag_open(old(self).input(), old(self).tok())),
    {
        proof {
            self.lemma_wf();
        }
        match self.peek() {
            Some(c) => {
                if ('a' <= c && c <= 'z') || ('A' <= c && c <= 'Z') {
                    self.current_tag_buffer = Some(Tag { name: None, self_closing_tag: None, attributes: Vec::new() });
                    self.set_mark();
                    self.is_current_tag_end = true;
                    self.state = TokenizationState::TagName;
                    proof {
                        assert(self.current_tag_buffer.unwrap()@.attributes =~= Seq::<AttributeView>::empty());
                    }
                    Flow::Goto
                } else if c == '>' {
                    self.consume();
                    self.push_error(Error::MissingEndTagName);
                    self.state = TokenizationState::Data;
                    Flow::Goto
                } else {
                    self.push_error(Error::InvalidFirstCharacterOfTagName);
                    self.state = TokenizationState::BogusComment;
                    Flow::Goto
                }
            },
            None => {
                self.push_error(Error::EofBeforeTagName);
                self.state = TokenizationState::Data;
                let r = "</";
                proof {
                    reveal_strlit("</");
                    assert(r@ =~= lt_slash_text());
                }
                Flow::Return(HtmlToken::Character(CowStr::Borrowed(r)))
            },
        }
    }

    /// Gives the tag being read its name, the text from the mark to the
    /// position in lower case, if it has none yet.
    fn name_tag(&mut self)
        requires
            old(self).cursors_ok(),
        ensures
            final(self).cursor.text() == old(self).cursor.text(),
            final(self).cursors_ok(),
            final(self).input() == old(self).input(),
            final(self).tok() == (TokState {
                tag: named(
                    old(self).tok().tag,
                    lower(old(self).input().subrange(old(self).tok().mark, old(self).tok().pos)),
                ),
                ..old(self).tok()
            }),
    {
        let slice = self.slice_from_mark();
        match self.current_tag_buffer.take() {
            Some(mut tag) => {
                if tag.name.is_none() {
                    tag.name = Some(lower_cow(slice));
                }
                self.current_tag_buffer = Some(tag);
            },
            None => {},
        }
    }

    /// Hands out the tag being read (see `emit_tag`).
    fn emit_tag_exec(&mut self, end: bool) -> (f: Flow<'a>)
        requires
            old(self).cursors_ok(),
        ensures
            final(self).cursor.text() == old(self).cursor.text(),
            final(self).cursors_ok(),
            final(self).input() == old(self).input(),
            match emit_tag(old(self).tok(), old(self).tok().pos, end) {
                Act::Return(t2, tok) => f matches Flow::Return(r) && final(self).tok() == t2 && r@ == tok,
                Act::Stuck => f is Stop && final(self).tok() == (TokState {
                    state: TokenizationState::Data,
                    ..old(self).tok()
                }),
                Act::Goto(_) => false,
            },
    {
        self.state = TokenizationState::Data;
        match self.current_tag_buffer.take() {
            Some(tag) => {
                if end {
                    self.is_current_tag_end = false;
                    Flow::Return(HtmlToken::EndTag(tag))
                } else {
                    Flow::Return(HtmlToken::StartTag(tag))
                }
            },
            None => Flow::Stop,
        }
    }

    /// `TagName` (see `tag_name`).
    fn tag_name_exec(&mut self) -> (f: Flow<'a>)
        requires
            old(self).wf(),
            old(self).tok().state == TokenizationState::TagName,
        ensures
            outcome(*old(self), *final(self), f, tag_name(old(self).input(), old(self).tok())),
    {
        let ghost s = self.input();
        proof {
            self.lemma_wf();
            lemma_run_end(s, self.tok().pos, Stop::TagName);
        }
        self.run(Stop::TagName, true);
        match self.peek() {
            Some(c) => {
                if c == '\t' || c == '\n' || c == '\x0C' || c == ' ' {
                    self.name_tag();
                    self.consume();
                    self.state = TokenizationState::BeforeAttributeName;
                    Flow::Goto
                } else if c == '/' {
                    self.name_tag();
                    self.consume();
                    self.state = TokenizationState::SelfClosingStartTag;
                    Flow::Goto
                } else {
                    self.name_tag();
                    self.consume();
                    let end = self.is_current_tag_end;
                    self.emit_tag_exec(end)
                }
            },
            None => Flow::Stop,
        }
    }
}


/// Whether the attributes have one named `name`.
pub(crate) fn has_attribute_named(attributes: &Vec<Attribute>, name: &str) -> (r: bool)
    ensures
        r == has_attribute(attributes@.map_values(|a: Attribute| a@), name@),
{
    let ghost v = attributes@.map_values(|a: Attribute| a@);
    let mut k: usize = 0;
    while k < attributes.len()
        invariant
            k <= attributes.len(),
            v == attributes@.map_values(|a: Attribute| a@),
            forall|j: int| 0 <= j < k ==> v[j].name != Some(name@),
        decreases attributes.len() - k,
    {
        match &attributes[k].name {
            Some(n) => {
                if crate::text::same_text(n.as_str(), name) {
                    assert(v[k as int].name == Some(name@));
                    return true;
                }
            },
            None => {},
        }
        assert(v[k as int] == attributes@[k as int]@);
        k += 1;
    }
    false
}

/// Sets the value of the last attribute of `tag` (see `valued`).
fn set_last_value<'a>(tag: &mut Tag<'a>, value: &'a str, only_new: bool)
    ensures
        final(tag)@ == valued(old(tag)@, value@, only_new),
{
    let n = tag.attributes.len();
    if n > 0 {
        let ghost before = tag.attributes@;
        let mut a = tag.attributes.pop().unwrap();
        if !only_new || a.value.is_none() {
            a.value = Some(CowStr::Borrowed(value));
        }
        tag.attributes.push(a);
        proof {
            let v0 = before.map_values(|x: Attribute<'a>| x@);
            assert(v0.last() == before.last()@);
            if !only_new || before.last().value.is_none() {
                assert(tag.attributes@.map_values(|x: Attribute<'a>| x@) =~= v0.update(
                    v0.len() - 1,
                    AttributeView { value: Some(value@), ..v0.last() },
                ));
            } else {
                assert(tag.attributes@ =~= before);
            }
        }
    }
}

impl<'a> HtmlTokenizer<'a> {
    /// `RcDataLessThanSign` and `RawTextLessThanSign` (see `less_than_sign`).
    fn less_than_sign_exec(&mut self, back: TokenizationState, next: TokenizationState) -> (f: Flow<'a>)
        requires
            old(self).wf(),
            (old(self).tok().state == TokenizationState::RcDataLessThanSign && back == TokenizationState::RcData
                && next == TokenizationState::RcDataEndTagOpen) || (old(self).tok().state
                == TokenizationState::RawTextLessThanSign && back == TokenizationState::RawText && next
                == TokenizationState::RawTextEndTagOpen),
        ensures
            outcome(*old(self), *final(self), f, less_than_sign(old(self).input(), old(self).tok(), back, next)),
    {
        proof {
            self.lemma_wf();
        }
        match self.peek() {
            Some(c) => {
                if c == '/' {
                    self.consume();
                    self.state = next;
                    return Flow::Goto;
                }
            },
            None => {},
        }
        self.state = back;
        let r = "<";
        proof {
            reveal_strlit("<");
            assert(r@ =~= lt_text());
        }
        Flow::Return(HtmlToken::Character(CowStr::Borrowed(r)))
    }

    /// `RcDataEndTagOpen` and `RawTextEndTagOpen` (see `end_tag_open_in`).
    fn end_tag_open_in_exec(&mut self, back: TokenizationState, next: TokenizationState) -> (f: Flow<'a>)
        requires
            old(self).wf(),
            (old(self).tok().state == TokenizationState::RcDataEndTagOpen && back == TokenizationState::RcData
                && next == TokenizationState::RcDataEndTagName) || (old(self).tok().state
                == TokenizationState::RawTextEndTagOpen && back == TokenizationState::RawText && next
                == TokenizationState::RawTextEndTagName),
        ensures
            outcome(*old(self), *final(self), f, end_tag_open_in(old(self).input(), old(self).tok(), back, next)),
    {
        proof {
            self.lemma_wf();
        }
        match self.peek() {
            Some(c) => {
                if ('a' <= c && c <= 'z') || ('A' <= c && c <= 'Z') {
                    self.current_tag_buffer = Some(Tag { name: None, self_closing_tag: None, attributes: Vec::new() });
                    self.is_current_tag_end = true;
                    self.set_mark();
                    self.state = next;
                    proof {
                        assert(self.current_tag_buffer.unwrap()@.attributes =~= Seq::<AttributeView>::empty());
                    }
                    return Flow::Goto;
                }
            },
            None => {},
        }
        self.state = back;
        let r = "</";
        proof {
            reveal_strlit("</");
            assert(r@ =~= lt_slash_text());
        }
        Flow::Return(HtmlToken::Character(CowStr::Borrowed(r)))
    }

    /// Whether the name read since the mark closes the last start tag.
    fn is_appropriate_end_tag(&self) -> (r: bool)
        requires
            self.cursors_ok(),
        ensures
            r == appropriate(self.input(), self.tok()),
    {
        match &self.last_start_tag_name {
            Some(last) => {
                let current = self.slice_from_mark();
                same_lower(current, last.as_str())
            },
            None => false,
        }
    }

    /// `RcDataEndTagName` and `RawTextEndTagName` (see `end_tag_name_in`).
    fn end_tag_name_in_exec(&mut self, back: TokenizationState) -> (f: Flow<'a>)
        requires
            old(self).wf(),
            (old(self).tok().state == TokenizationState::RcDataEndTagName && back == TokenizationState::RcData)
                || (old(self).tok().state == TokenizationState::RawTextEndTagName && back
                == TokenizationState::RawText),
        ensures
            outcome(*old(self), *final(self), f, end_tag_name_in(old(self).input(), old(self).tok(), back)),
    {
        let ghost s = self.input();
        proof {
            self.lemma_wf();
            lemma_run_end(s, self.tok().pos, Stop::NotAlpha);
        }
        self.run(Stop::NotAlpha, false);
        let ok = self.is_appropriate_end_tag();
        match self.peek() {
            Some(c) => {
                if ok && (c == '\t' || c == '\n' || c == '\x0C' || c == ' ') {
                    self.consume();
                    self.state = TokenizationState::BeforeAttributeName;
                    return Flow::Goto;
                } else if ok && c == '/' {
                    self.consume();
                    self.state = TokenizationState::SelfClosingStartTag;
                    return Flow::Goto;
                } else if ok && c == '>' {
                    self.name_tag();
                    self.consume();
                    self.state = TokenizationState::Data;
                    return match self.current_tag_buffer.take() {
                        Some(tag) => Flow::Return(HtmlToken::EndTag(tag)),
                        None => Flow::Stop,
                    };
                }
            },
            None => {},
        }
        proof {
            self.mark.lemma_wf();
        }
        let m1 = self.mark.back_one();
        proof {
            m1.lemma_wf();
        }
        let m2 = m1.back_one();
        let text = self.cursor.slice_from(&m2);
        self.current_tag_buffer = None;
        self.state = back;
        Flow::Return(HtmlToken::Character(CowStr::Borrowed(text)))
    }

    /// The script data escape states (see `script_escapes`).
    fn script_escapes_exec(&mut self) -> (f: Flow<'a>)
        requires
            old(self).wf(),
            old(self).tok().state == TokenizationState::ScriptDataLessThanSign || old(self).tok().state
                == TokenizationState::ScriptDataEscapeStart || old(self).tok().state
                == TokenizationState::ScriptDataEscapeStartDash || old(self).tok().state
                == TokenizationState::ScriptDataEscapedDashDash,
        ensures
            outcome(*old(self), *final(self), f, script_escapes(old(self).input(), old(self).tok())),
    {
        proof {
            self.lemma_wf();
        }
        let c = self.peek();
        match self.state {
            TokenizationState::ScriptDataLessThanSign => {
                if c == Some('/') {
                    self.consume();
                    self.set_mark();
                    self.state = TokenizationState::ScriptDataEndTagOpen;
                } else if c == Some('!') {
                    self.consume();
                    self.state = TokenizationState::ScriptDataEscapeStart;
                } else {
                    self.state = TokenizationState::ScriptData;
                }
                Flow::Goto
            },
            TokenizationState::ScriptDataEscapeStart => {
                if c == Some('-') {
                    self.consume();
                    self.state = TokenizationState::ScriptDataEscapeStartDash;
                } else {
                    self.state = TokenizationState::ScriptData;
                }
                Flow::Goto
            },
            TokenizationState::ScriptDataEscapeStartDash => {
                if c == Some('-') {
                    self.consume();
                    self.state = TokenizationState::ScriptDataEscapedDashDash;
                } else {
                    self.state = TokenizationState::ScriptData;
                }
                Flow::Goto
            },
            _ => {
                if c == Some('-') {
                    self.consume();
                } else if c == Some('<') {
                    self.consume();
                    self.state = TokenizationState::ScriptDataEscapedLessThanSign;
                } else if c == Some('>') {
                    self.consume();
                    self.state = TokenizationState::ScriptData;
                } else if c == Some('\0') {
                    self.push_error(Error::UnexpectedNullCharacter);
                    self.state = TokenizationState::ScriptDataEscaped;
                } else if c.is_none() {
                    return Flow::Stop;
                } else {
                    self.consume();
                    self.state = TokenizationState::ScriptDataEscaped;
                }
                Flow::Goto
            },
        }
    }
}


impl<'a> HtmlTokenizer<'a> {
    /// `BeforeAttributeName` (see `before_attribute_name`).
    fn before_attribute_name_exec(&mut self) -> (f: Flow<'a>)
        requires
            old(self).wf(),
            old(self).tok().state == TokenizationState::BeforeAttributeName,
        ensures
            outcome(*old(self), *final(self), f, before_attribute_name(old(self).input(), old(self).tok())),
    {
        proof {
            self.lemma_wf();
        }
        match self.peek() {
            Some(c) => {
                if c == '\t' || c == '\n' || c == '\x0C' || c == ' ' {
                    self.consume();
                } else if c == '/' || c == '>' {
                    self.state = TokenizationState::AfterAttributeName;
                } else if c == '=' {
                    self.push_error(Error::UnexpectedEqualsSignBeforeAttributeName);
                    self.set_mark();
                    self.state = TokenizationState::AttributeName;
                } else {
                    self.set_mark();
                    self.state = TokenizationState::AttributeName;
                }
            },
            None => {
                self.state = TokenizationState::AfterAttributeName;
            },
        }
        Flow::Goto
    }

    /// `AttributeName` (see `attribute_name`).
    fn attribute_name_exec(&mut self) -> (f: Flow<'a>)
        requires
            old(self).wf(),
            old(self).tok().state == TokenizationState::AttributeName,
        ensures
            outcome(*old(self), *final(self), f, attribute_name(old(self).input(), old(self).tok())),
    {
        let ghost s = self.input();
        proof {
            self.lemma_wf();
            lemma_run_end(s, self.tok().pos, Stop::AttributeName);
        }
        self.run(Stop::AttributeName, true);
        let c = self.peek();
        if c == Some('"') || c == Some('\'') || c == Some('<') {
            return Flow::Stop;
        }
        let slice = self.slice_from_mark();
        let final_name = map_chars(slice, true, true);
        match self.current_tag_buffer.take() {
            None => {
                return Flow::Stop;
            },
            Some(mut tag) => {
                let ghost before = tag.attributes@;
                if has_attribute_named(&tag.attributes, final_name.as_str()) {
                    self.push_error(Error::DuplicateAttribute);
                } else {
                    let name = final_name;
                    tag.attributes.push(Attribute { name: Some(CowStr::Owned(name)), value: None });
                    proof {
                        assert(tag.attributes@.map_values(|a: Attribute<'a>| a@) =~= before.map_values(
                            |a: Attribute<'a>| a@,
                        ).push(AttributeView { name: Some(lower(fffd(s.subrange(self.tok().mark, self.tok().pos)))), value: None }));
                    }
                }
                self.current_tag_buffer = Some(tag);
            },
        }
        if c == Some('=') {
            self.consume();
            self.state = TokenizationState::BeforeAttributeValue;
        } else {
            self.state = TokenizationState::AfterAttributeName;
        }
        Flow::Goto
    }

    /// `AfterAttributeName` (see `after_attribute_name`).
    fn after_attribute_name_exec(&mut self) -> (f: Flow<'a>)
        requires
            old(self).wf(),
            old(self).tok().state == TokenizationState::AfterAttributeName,
        ensures
            outcome(*old(self), *final(self), f, after_attribute_name(old(self).input(), old(self).tok())),
    {
        proof {
            self.lemma_wf();
        }
        match self.peek() {
            Some(c) => {
                if c == '\t' || c == '\n' || c == '\x0C' || c == ' ' {
                    self.consume();
                    Flow::Goto
                } else if c == '/' {
                    self.consume();
                    self.state = TokenizationState::SelfClosingStartTag;
                    Flow::Goto
                } else if c == '=' {
                    self.consume();
                    self.state = TokenizationState::BeforeAttributeValue;
                    Flow::Goto
                } else if c == '>' {
                    self.consume();
                    self.state = TokenizationState::Data;
                    match self.current_tag_buffer.take() {
                        Some(tag) => Flow::Return(HtmlToken::StartTag(tag)),
                        None => Flow::Stop,
                    }
                } else {
                    match self.current_tag_buffer.take() {
                        Some(mut tag) => {
                            let ghost before = tag.attributes@;
                            tag.attributes.push(Attribute { name: None, value: None });
                            proof {
                                assert(tag.attributes@.map_values(|a: Attribute<'a>| a@) =~= before.map_values(
                                    |a: Attribute<'a>| a@,
                                ).push(AttributeView { name: None, value: None }));
                            }
                            self.current_tag_buffer = Some(tag);
                            self.set_mark();
                            self.state = TokenizationState::AttributeName;
                            Flow::Goto
                        },
                        None => Flow::Stop,
                    }
                }
            },
            None => {
                self.push_error(Error::EofInTag);
                Flow::Return(HtmlToken::EndOfFile)
            },
        }
    }

    /// `BeforeAttributeValue` (see `before_attribute_value`).
    fn before_attribute_value_exec(&mut self) -> (f: Flow<'a>)
        requires
            old(self).wf(),
            old(self).tok().state == TokenizationState::BeforeAttributeValue,
        ensures
            outcome(*old(self), *final(self), f, before_attribute_value(old(self).input(), old(self).tok())),
    {
        proof {
            self.lemma_wf();
        }
        let c = self.peek();
        if c == Some('\t') || c == Some('\n') || c == Some('\x0C') || c == Some(' ') {
            self.consume();
            Flow::Goto
        } else if c == Some('"') {
            self.consume();
            self.set_mark();
            self.state = TokenizationState::AttributeValueDoubleQuoted;
            Flow::Goto
        } else if c == Some('\'') {
            self.consume();
            self.set_mark();
            self.state = TokenizationState::AttributeValueSingleQuoted;
            Flow::Goto
        } else if c == Some('>') {
            self.consume();
            self.push_error(Error::MissingAttributeValue);
            let end = self.is_current_tag_end;
            self.emit_tag_exec(end)
        } else {
            self.set_mark();
            self.state = TokenizationState::AttributeValueUnquoted;
            Flow::Goto
        }
    }

    /// `AttributeValueDoubleQuoted` and `AttributeValueSingleQuoted` (see
    /// `attribute_value_quoted`).
    fn attribute_value_quoted_exec(&mut self, q: char) -> (f: Flow<'a>)
        requires
            old(self).wf(),
            (old(self).tok().state == TokenizationState::AttributeValueDoubleQuoted && q == '"') || (old(
                self,
            ).tok().state == TokenizationState::AttributeValueSingleQuoted && q == '\''),
        ensures
            outcome(*old(self), *final(self), f, attribute_value_quoted(old(self).input(), old(self).tok(), q)),
    {
        let ghost s = self.input();
        proof {
            self.lemma_wf();
            lemma_run_end(s, self.tok().pos, Stop::Quoted(q));
        }
        self.run(Stop::Quoted(q), true);
        match self.peek() {
            Some(c) => {
                if c == q {
                    let value = self.slice_from_mark();
                    match self.current_tag_buffer.take() {
                        Some(mut tag) => {
                            set_last_value(&mut tag, value, true);
                            self.current_tag_buffer = Some(tag);
                        },
                        None => {
                            return Flow::Stop;
                        },
                    }
                    self.consume();
                    self.state = TokenizationState::AfterAttributeValueQuoted;
                } else {
                    self.consume();
                    self.return_state = TokenizationState::AttributeValueSingleQuoted;
                    self.state = TokenizationState::CharacterReference;
                }
                Flow::Goto
            },
            None => {
                self.push_error(Error::EofInTag);
                Flow::Return(HtmlToken::EndOfFile)
            },
        }
    }

    /// `AttributeValueUnquoted` (see `attribute_value_unquoted`).
    fn attribute_value_unquoted_exec(&mut self) -> (f: Flow<'a>)
        requires
            old(self).wf(),
            old(self).tok().state == TokenizationState::AttributeValueUnquoted,
        ensures
            outcome(*old(self), *final(self), f, attribute_value_unquoted(old(self).input(), old(self).tok())),
    {
        proof {
            self.lemma_wf();
        }
        match self.peek() {
            Some(c) => {
                if c == '\t' || c == '\n' || c == '\x0C' || c == ' ' {
                    let value = self.slice_from_mark();
                    match self.current_tag_buffer.take() {
                        Some(mut tag) => {
                            set_last_value(&mut tag, value, false);
                            self.current_tag_buffer = Some(tag);
                        },
                        None => {
                            return Flow::Stop;
                        },
                    }
                    self.consume();
                    self.state = TokenizationState::BeforeAttributeName;
                    Flow::Goto
                } else if c == '&' {
                    self.consume();
                    self.return_state = TokenizationState::AttributeValueUnquoted;
                    self.state = TokenizationState::CharacterReference;
                    Flow::Goto
                } else if c == '>' {
                    let value = self.slice_from_mark();
                    match self.current_tag_buffer.take() {
                        Some(mut tag) => {
                            set_last_value(&mut tag, value, false);
                            self.current_tag_buffer = Some(tag);
                        },
                        None => {},
                    }
                    self.consume();
                    let end = self.is_current_tag_end;
                    self.emit_tag_exec(end)
                } else if c == '\0' {
                    self.consume();
                    self.push_error(Error::UnexpectedNullCharacter);
                    Flow::Goto
                } else if c == '"' || c == '\'' || c == '<' || c == '=' || c == '`' {
                    self.consume();
                    self.push_error(Error::UnexpectedCharacterInUnquotedAttributeValue);
                    Flow::Goto
                } else {
                    self.consume();
                    Flow::Goto
                }
            },
            None => Flow::Return(HtmlToken::EndOfFile),
        }
    }

    /// `AfterAttributeValueQuoted` (see `after_attribute_value_quoted`).
    fn after_attribute_value_quoted_exec(&mut self) -> (f: Flow<'a>)
        requires
            old(self).wf(),
            old(self).tok().state == TokenizationState::AfterAttributeValueQuoted,
        ensures
            outcome(*old(self), *final(self), f, after_attribute_value_quoted(old(self).input(), old(self).tok())),
    {
        proof {
            self.lemma_wf();
        }
        match self.peek() {
            Some(c) => {
                if c == '\t' || c == '\n' || c == '\x0C' || c == ' ' {
                    self.consume();
                    self.state = TokenizationState::BeforeAttributeName;
                    Flow::Goto
                } else if c == '/' {
                    self.consume();
                    self.state = TokenizationState::SelfClosingStartTag;
                    Flow::Goto
                } else if c == '>' {
                    self.consume();
                    let end = self.is_current_tag_end;
                    self.emit_tag_exec(end)
                } else {
                    self.push_error(Error::MissingWhitespaceBetweenAttributes);
                    self.state = TokenizationState::BeforeAttributeName;
                    Flow::Goto
                }
            },
            None => {
                self.push_error(Error::EofInTag);
                Flow::Return(HtmlToken::EndOfFile)
            },
        }
    }

    /// `SelfClosingStartTag` (see `self_closing_start_tag`).
    fn self_closing_start_tag_exec(&mut self) -> (f: Flow<'a>)
        requires
            old(self).wf(),
            old(self).tok().state == TokenizationState::SelfClosingStartTag,
        ensures
            outcome(*old(self), *final(self), f, self_closing_start_tag(old(self).input(), old(self).tok())),
    {
        proof {
            self.lemma_wf();
        }
        match self.peek() {
            Some(c) => {
                if c == '>' {
                    self.consume();
                    self.state = TokenizationState::Data;
                    match self.current_tag_buffer.take() {
                        Some(mut tag) => {
                            tag.self_closing_tag = Some(true);
                            Flow::Return(HtmlToken::StartTag(tag))
                        },
                        None => Flow::Stop,
                    }
                } else {
                    self.push_error(Error::UnexpectedSolidusInTag);
                    self.state = TokenizationState::BeforeAttributeName;
                    Flow::Goto
                }
            },
            None => {
                self.push_error(Error::EofInTag);
                Flow::Return(HtmlToken::EndOfFile)
            },
        }
    }

    /// `BogusComment` (see `bogus_comment`).
    fn bogus_comment_exec(&mut self) -> (f: Flow<'a>)
        requires
            old(self).wf(),
            old(self).tok().state == TokenizationState::BogusComment,
        ensures
            outcome(*old(self), *final(self), f, bogus_comment(old(self).input(), old(self).tok())),
    {
        let ghost s = self.input();
        proof {
            self.lemma_wf();
            lemma_run_end(s, self.tok().pos, Stop::GreaterThan);
        }
        self.run(Stop::GreaterThan, true);
        self.state = TokenizationState::Data;
        let slice = self.slice_from_mark();
        match self.consume() {
            Some(_) => Flow::Return(HtmlToken::Comment(CowStr::Owned(map_chars(slice, true, false)))),
            None => Flow::Return(HtmlToken::Comment(CowStr::Borrowed(slice))),
        }
    }
}


impl<'a> HtmlTokenizer<'a> {
    /// Moves past `n` characters, which the input holds.
    fn consume_n(&mut self, n: usize)
        requires
            old(self).cursors_ok(),
            old(self).tok().pos + n <= old(self).input().len(),
        ensures
            final(self).cursors_ok(),
            final(self).cursor.text() == old(self).cursor.text(),
            final(self).input() == old(self).input(),
            final(self).tok() == (TokState { pos: old(self).tok().pos + n, ..old(self).tok() }),
    {
        let mut k: usize = 0;
        while k < n
            invariant
                self.cursors_ok(),
                self.cursor.text() == old(self).cursor.text(),
                self.input() == old(self).input(),
                k <= n,
                old(self).tok().pos + n <= old(self).input().len(),
                self.tok() == (TokState { pos: old(self).tok().pos + k, ..old(self).tok() }),
            decreases n - k,
        {
            self.consume();
            k += 1;
        }
    }

    /// `MarkupDeclarationOpen` (see `markup_declaration_open`).
    fn markup_declaration_open_exec(&mut self) -> (f: Flow<'a>)
        requires
            old(self).wf(),
            old(self).tok().state == TokenizationState::MarkupDeclarationOpen,
        ensures
            outcome(*old(self), *final(self), f, markup_declaration_open(old(self).input(), old(self).tok())),
    {
        let ghost s = self.input();
        let ghost i = self.tok().pos;
        proof {
            self.lemma_wf();
        }
        let dashes: [char; 2] = ['-', '-'];
        let cdata: [char; 7] = ['[', 'C', 'D', 'A', 'T', 'A', '['];
        let doctype: [u8; 7] = [0x64, 0x6f, 0x63, 0x74, 0x79, 0x70, 0x65];
        proof {
            assert(dashes@ =~= seq!['-', '-']);
            assert(cdata@ =~= seq!['[', 'C', 'D', 'A', 'T', 'A', '[']);
            assert(doctype@ =~= ascii(doctype_text()));
        }
        if self.cursor.looking_at(dashes.as_slice()) {
            self.consume_n(2);
            self.set_mark();
            self.state = TokenizationState::CommentStart;
            return Flow::Goto;
        }
        let rest = self.cursor.rest();
        let bytes = self.cursor.rest_bytes();
        if bytes.len() >= 7 {
            if !rest.is_char_boundary(7) {
                return Flow::Stop;
            }
            let (first, _) = bytes.split_at(7);
            if crate::html::byte_tokens::eq_ignore_ascii_case(first, doctype.as_slice()) {
                proof {
                    assert(first@ =~= bytes@.take(7));
                    lemma_doctype_bytes(s, i);
                }
                self.consume_n(7);
                self.state = TokenizationState::Doctype;
                return Flow::Goto;
            }
            proof {
                assert(first@ =~= bytes@.take(7));
            }
        }
        if self.cursor.looking_at(cdata.as_slice()) {
            return Flow::Stop;
        }
        self.push_error(Error::IncorrectlyOpenedComment);
        self.set_mark();
        self.state = TokenizationState::BogusComment;
        Flow::Goto
    }

    /// The text from the mark to `back` characters before the position, nulls
    /// replaced; those characters are ASCII.
    fn comment_text(&self, back: usize) -> (r: String)
        requires
            self.cursors_ok(),
            back <= 2,
            self.tok().pos >= self.tok().mark + back,
            forall|k: int| 1 <= k <= back ==> (#[trigger] self.input()[self.tok().pos - k] as u32) < 0x80,
        ensures
            r@ == fffd(self.input().subrange(self.tok().mark, self.tok().pos - back)),
    {
        proof {
            self.lemma_cursors();
        }
        let mut end = self.cursor;
        let mut k: usize = 0;
        while k < back
            invariant
                end.wf(),
                end.text() == self.cursor.text(),
                end.input() == self.input(),
                end.at() == self.tok().pos - k,
                k <= back,
                back <= 2,
                self.cursors_ok(),
                self.tok().pos >= self.tok().mark + back,
                forall|j: int| 1 <= j <= back ==> (#[trigger] self.input()[self.tok().pos - j] as u32) < 0x80,
            decreases back - k,
        {
            proof {
                self.lemma_cursors();
            }
            assert((self.input()[self.tok().pos - (k + 1)] as u32) < 0x80);
            end = end.back_one();
            k += 1;
        }
        let slice = end.slice_from(&self.mark);
        map_chars(slice, true, false)
    }

    /// Comment states (see `comment_states`).
    fn comment_start_exec(&mut self) -> (f: Flow<'a>)
        requires
            old(self).wf(),
            old(self).tok().state == TokenizationState::CommentStart || old(self).tok().state == TokenizationState::CommentStartDash,
        ensures
            outcome(*old(self), *final(self), f, comment_states(old(self).input(), old(self).tok())),
    {
        let ghost s = self.input();
        proof {
            self.lemma_wf();
            lemma_run_end(s, self.tok().pos, Stop::Comment);
        }
        let c = self.peek();
        match self.state {
            TokenizationState::CommentStart => {
                if c == Some('-') {
                    self.consume();
                    self.state = TokenizationState::CommentStartDash;
                    Flow::Goto
                } else if c == Some('>') {
                    self.push_error(Error::AbruptClosingOfEmptyComment);
                    let text = self.comment_text(0);
                    self.consume();
                    self.state = TokenizationState::Data;
                    Flow::Return(HtmlToken::Comment(CowStr::Owned(text)))
                } else {
                    self.state = TokenizationState::Comment;
                    Flow::Goto
                }
            },
            TokenizationState::CommentStartDash => {
                if c == Some('-') {
                    self.consume();
                    self.state = TokenizationState::CommentEnd;
                    Flow::Goto
                } else if c == Some('>') {
                    self.push_error(Error::AbruptClosingOfEmptyComment);
                    let text = self.comment_text(1);
                    self.consume();
                    self.state = TokenizationState::Data;
                    Flow::Return(HtmlToken::Comment(CowStr::Owned(text)))
                } else if c.is_none() {
                    self.push_error(Error::EofInComment);
                    let text = self.comment_text(0);
                    self.state = TokenizationState::Data;
                    Flow::Return(HtmlToken::Comment(CowStr::Owned(text)))
                } else {
                    self.state = TokenizationState::Comment;
                    Flow::Goto
                }
            },
            _ => Flow::Stop,
        }
    }

    /// Comment states (see `comment_states`).
    fn comment_body_exec(&mut self) -> (f: Flow<'a>)
        requires
            old(self).wf(),
            old(self).tok().state == TokenizationState::Comment,
        ensures
            outcome(*old(self), *final(self), f, comment_states(old(self).input(), old(self).tok())),
    {
        let ghost s = self.input();
        proof {
            self.lemma_wf();
            lemma_run_end(s, self.tok().pos, Stop::Comment);
        }
        let c = self.peek();
        match self.state {
            TokenizationState::Comment => {
                self.run(Stop::Comment, true);
                match self.consume() {
                    Some(d) => {
                        if d == '<' {
                            self.state = TokenizationState::CommentLessThanSign;
                        } else {
                            self.state = TokenizationState::CommentEndDash;
                        }
                        Flow::Goto
                    },
                    None => {
                        let text = self.comment_text(0);
                        self.state = TokenizationState::Data;
                        Flow::Return(HtmlToken::Comment(CowStr::Owned(text)))
                    },
                }
            },
            _ => Flow::Stop,
        }
    }

    /// Comment states (see `comment_states`).
    fn comment_less_than_exec(&mut self) -> (f: Flow<'a>)
        requires
            old(self).wf(),
            old(self).tok().state == TokenizationState::CommentLessThanSign || old(self).tok().state == TokenizationState::CommentLessThanSignBang || old(self).tok().state == TokenizationState::CommentLessThanSignBangDash || old(self).tok().state == TokenizationState::CommentLessThanSignBangDashDash,
        ensures
            outcome(*old(self), *final(self), f, comment_states(old(self).input(), old(self).tok())),
    {
        let ghost s = self.input();
        proof {
            self.lemma_wf();
            lemma_run_end(s, self.tok().pos, Stop::Comment);
        }
        let c = self.peek();
        match self.state {
            TokenizationState::CommentLessThanSign => {
                if c == Some('!') {
                    self.consume();
                    self.state = TokenizationState::CommentLessThanSignBang;
                } else if c == Some('<') {
                    self.consume();
                } else {
                    self.state = TokenizationState::Comment;
                }
                Flow::Goto
            },
            TokenizationState::CommentLessThanSignBang => {
                if c == Some('-') {
                    self.consume();
                    self.state = TokenizationState::CommentLessThanSignBangDash;
                } else {
                    self.state = TokenizationState::Comment;
                }
                Flow::Goto
            },
            TokenizationState::CommentLessThanSignBangDash => {
                if c == Some('-') {
                    self.consume();
                    self.state = TokenizationState::CommentLessThanSignBangDashDash;
                } else {
                    self.state = TokenizationState::Comment;
                }
                Flow::Goto
            },
            TokenizationState::CommentLessThanSignBangDashDash => {
                if !(c == Some('>') || c.is_none()) {
                    self.push_error(Error::NestedComment);
                }
                self.state = TokenizationState::CommentEnd;
                Flow::Goto
            },
            _ => Flow::Stop,
        }
    }

    /// Comment states (see `comment_states`).
    fn comment_end_exec(&mut self) -> (f: Flow<'a>)
        requires
            old(self).wf(),
            old(self).tok().state == TokenizationState::CommentEndDash || old(self).tok().state == TokenizationState::CommentEnd,
        ensures
            outcome(*old(self), *final(self), f, comment_states(old(self).input(), old(self).tok())),
    {
        let ghost s = self.input();
        proof {
            self.lemma_wf();
            lemma_run_end(s, self.tok().pos, Stop::Comment);
        }
        let c = self.peek();
        match self.state {
            TokenizationState::CommentEndDash => {
                if c == Some('-') {
                    self.consume();
                    self.state = TokenizationState::CommentEnd;
                    Flow::Goto
                } else if c.is_none() {
                    self.push_error(Error::EofInComment);
                    let text = self.comment_text(1);
                    self.state = TokenizationState::Data;
                    Flow::Return(HtmlToken::Comment(CowStr::Owned(text)))
                } else {
                    self.state = TokenizationState::CommentStart;
                    Flow::Goto
                }
            },
            _ => {
                if c == Some('>') {
                    let text = self.comment_text(2);
                    self.consume();
                    self.state = TokenizationState::Data;
                    Flow::Return(HtmlToken::Comment(CowStr::Owned(text)))
                } else if c == Some('!') {
                    self.consume();
                    self.state = TokenizationState::CommentEndBang;
                    Flow::Goto
                } else if c == Some('-') {
                    self.consume();
                    Flow::Goto
                } else if c.is_none() {
                    self.push_error(Error::EofInComment);
                    let text = self.comment_text(2);
                    self.state = TokenizationState::Data;
                    Flow::Return(HtmlToken::Comment(CowStr::Owned(text)))
                } else {
                    self.consume();
                    self.state = TokenizationState::Comment;
                    Flow::Goto
                }
            },
        }
    }
}


impl<'a> HtmlTokenizer<'a> {
    /// `Doctype` and `BeforeDoctypeName` (see `doctype_states`).
    fn doctype_start_exec(&mut self) -> (f: Flow<'a>)
        requires
            old(self).wf(),
            old(self).tok().state == TokenizationState::Doctype || old(self).tok().state
                == TokenizationState::BeforeDoctypeName,
        ensures
            outcome(*old(self), *final(self), f, doctype_states(old(self).input(), old(self).tok())),
    {
        proof {
            self.lemma_wf();
        }
        let quirks = Doctype { name: None, public_identifier: None, system_identifier: None, force_quirks_flag: true };
        match self.peek() {
            None => {
                if self.state == TokenizationState::Doctype {
                    self.push_error(Error::EofInDoctype);
                } else {
                    self.push_error(Error::EofInTag);
                }
                self.state = TokenizationState::Data;
                Flow::Return(HtmlToken::Doctype(quirks))
            },
            Some(c) => {
                let ws = c == '\t' || c == '\n' || c == '\x0C' || c == ' ';
                if self.state == TokenizationState::Doctype {
                    if ws {
                        self.consume();
                    } else if c != '>' {
                        self.push_error(Error::MissingWhitespaceBeforeDoctypeName);
                    }
                    self.state = TokenizationState::BeforeDoctypeName;
                    Flow::Goto
                } else if ws {
                    self.consume();
                    Flow::Goto
                } else if c == '>' {
                    self.consume();
                    self.push_error(Error::MissingDoctypeName);
                    self.state = TokenizationState::Data;
                    Flow::Return(HtmlToken::Doctype(quirks))
                } else {
                    if c == '\0' {
                        self.push_error(Error::UnexpectedNullCharacter);
                    }
                    self.current_doctype_buffer = Some(
                        Doctype { name: None, public_identifier: None, system_identifier: None, force_quirks_flag: false },
                    );
                    self.set_mark();
                    self.state = TokenizationState::DoctypeName;
                    Flow::Goto
                }
            },
        }
    }

    /// `DoctypeName` (see `doctype_states`).
    fn doctype_name_exec(&mut self) -> (f: Flow<'a>)
        requires
            old(self).wf(),
            old(self).tok().state == TokenizationState::DoctypeName,
        ensures
            outcome(*old(self), *final(self), f, doctype_states(old(self).input(), old(self).tok())),
    {
        let ghost s = self.input();
        proof {
            self.lemma_wf();
            lemma_run_end(s, self.tok().pos, Stop::DoctypeName);
        }
        self.run(Stop::DoctypeName, true);
        let slice = self.slice_from_mark();
        match self.consume() {
            None => {
                self.push_error(Error::EofInDoctype);
                match self.current_doctype_buffer.take() {
                    Some(mut d) => {
                        if d.name.is_none() {
                            d.name = Some(CowStr::Owned(map_chars(slice, true, true)));
                            d.force_quirks_flag = true;
                            Flow::Return(HtmlToken::Doctype(d))
                        } else {
                            self.current_doctype_buffer = Some(d);
                            Flow::Return(HtmlToken::EndOfFile)
                        }
                    },
                    None => Flow::Return(HtmlToken::EndOfFile),
                }
            },
            Some(c) => {
                if c == '>' {
                    self.state = TokenizationState::Data;
                    match self.current_doctype_buffer.take() {
                        Some(mut d) => {
                            if d.name.is_none() {
                                d.name = Some(CowStr::Owned(map_chars(slice, true, true)));
                                Flow::Return(HtmlToken::Doctype(d))
                            } else {
                                Flow::Stop
                            }
                        },
                        None => Flow::Stop,
                    }
                } else {
                    self.state = TokenizationState::AfterDoctypeName;
                    Flow::Goto
                }
            },
        }
    }

    /// `CharacterReference` (see `character_reference`).
    fn character_reference_exec(&mut self) -> (f: Flow<'a>)
        requires
            old(self).wf(),
            old(self).tok().state == TokenizationState::CharacterReference,
        ensures
            outcome(*old(self), *final(self), f, character_reference(old(self).input(), old(self).tok())),
    {
        proof {
            self.lemma_wf();
            self.cursor.lemma_wf();
        }
        if !self.cursor.before_is_ascii() {
            return Flow::Stop;
        }
        let in_value = self.return_state == TokenizationState::AttributeValueDoubleQuoted
            || self.return_state == TokenizationState::AttributeValueSingleQuoted
            || self.return_state == TokenizationState::AttributeValueUnquoted;
        if !in_value {
            self.mark = self.cursor.back_one();
        }
        match self.peek() {
            Some(c) => {
                if ('a' <= c && c <= 'z') || ('A' <= c && c <= 'Z') {
                    self.state = TokenizationState::NamedCharacterReference;
                    return Flow::Goto;
                } else if c == '#' {
                    self.consume();
                    self.state = TokenizationState::NumericCharacterReference;
                    return Flow::Goto;
                }
            },
            None => {},
        }
        self.state = self.return_state;
        if in_value {
            return Flow::Goto;
        }
        let text = self.slice_from_mark();
        Flow::Return(HtmlToken::Character(CowStr::Borrowed(text)))
    }

    /// `NamedCharacterReference` (see `named_character_reference`).
    fn named_character_reference_exec(&mut self) -> (f: Flow<'a>)
        requires
            old(self).wf(),
            old(self).tok().state == TokenizationState::NamedCharacterReference,
        ensures
            outcome(*old(self), *final(self), f, named_character_reference(old(self).input(), old(self).tok())),
    {
        let ghost s = self.input();
        proof {
            self.lemma_wf();
            lemma_run_end(s, self.tok().pos, Stop::NotAlnum);
        }
        self.run(Stop::NotAlnum, false);
        if self.peek() == Some(';') {
            self.consume();
        }
        if self.return_state == TokenizationState::AttributeValueDoubleQuoted
            || self.return_state == TokenizationState::AttributeValueSingleQuoted
            || self.return_state == TokenizationState::AttributeValueUnquoted {
            self.state = self.return_state;
            return Flow::Goto;
        }
        let reference = self.slice_from_mark();
        let lt: [char; 4] = ['&', 'l', 't', ';'];
        proof {
            assert(lt@ =~= lt_reference());
        }
        self.state = self.return_state;
        if crate::cursor::str_is(reference, lt.as_slice()) {
            let r = "<";
            proof {
                reveal_strlit("<");
                assert(r@ =~= lt_text());
            }
            Flow::Return(HtmlToken::Character(CowStr::Borrowed(r)))
        } else {
            Flow::Return(HtmlToken::Character(CowStr::Borrowed(reference)))
        }
    }
}


impl<'a> HtmlTokenizer<'a> {
    /// One round of the tokenizer's loop (see `action`).
    fn act(&mut self) -> (f: Flow<'a>)
        requires
            old(self).wf(),
        ensures
            outcome(*old(self), *final(self), f, action(old(self).input(), old(self).tok())),
    {
        proof {
            self.lemma_wf();
        }
        if self.cursor.is_end() && self.state == TokenizationState::Data {
            return Flow::Return(HtmlToken::EndOfFile);
        }
        match self.state {
            TokenizationState::Data => self.text_state_exec(Stop::Data, Some(TokenizationState::TagOpen), false),
            TokenizationState::RcData => self.text_state_exec(
                Stop::Data,
                Some(TokenizationState::RcDataLessThanSign),
                true,
            ),
            TokenizationState::RawText => self.text_state_exec(
                Stop::RawText,
                Some(TokenizationState::RawTextLessThanSign),
                true,
            ),
            TokenizationState::PlainText => self.text_state_exec(Stop::Nul, None, true),
            TokenizationState::ScriptData => self.script_data_exec(),
            TokenizationState::TagOpen => self.tag_open_exec(),
            TokenizationState::EndTagOpen => self.end_tag_open_exec(),
            TokenizationState::TagName => self.tag_name_exec(),
            TokenizationState::RcDataLessThanSign => self.less_than_sign_exec(
                TokenizationState::RcData,
                TokenizationState::RcDataEndTagOpen,
            ),
            TokenizationState::RcDataEndTagOpen => self.end_tag_open_in_exec(
                TokenizationState::RcData,
                TokenizationState::RcDataEndTagName,
            ),
            TokenizationState::RcDataEndTagName => self.end_tag_name_in_exec(TokenizationState::RcData),
            TokenizationState::RawTextLessThanSign => self.less_than_sign_exec(
                TokenizationState::RawText,
                TokenizationState::RawTextEndTagOpen,
            ),
            TokenizationState::RawTextEndTagOpen => self.end_tag_open_in_exec(
                TokenizationState::RawText,
                TokenizationState::RawTextEndTagName,
            ),
            TokenizationState::RawTextEndTagName => self.end_tag_name_in_exec(TokenizationState::RawText),
            TokenizationState::ScriptDataLessThanSign => self.script_escapes_exec(),
            TokenizationState::ScriptDataEscapeStart => self.script_escapes_exec(),
            TokenizationState::ScriptDataEscapeStartDash => self.script_escapes_exec(),
            TokenizationState::ScriptDataEscapedDashDash => self.script_escapes_exec(),
            TokenizationState::BeforeAttributeName => self.before_attribute_name_exec(),
            TokenizationState::AttributeName => self.attribute_name_exec(),
            TokenizationState::AfterAttributeName => self.after_attribute_name_exec(),
            TokenizationState::BeforeAttributeValue => self.before_attribute_value_exec(),
            TokenizationState::AttributeValueDoubleQuoted => self.attribute_value_quoted_exec('"'),
            TokenizationState::AttributeValueSingleQuoted => self.attribute_value_quoted_exec('\''),
            TokenizationState::AttributeValueUnquoted => self.attribute_value_unquoted_exec(),
            TokenizationState::AfterAttributeValueQuoted => self.after_attribute_value_quoted_exec(),
            TokenizationState::SelfClosingStartTag => self.self_closing_start_tag_exec(),
            TokenizationState::BogusComment => self.bogus_comment_exec(),
            TokenizationState::MarkupDeclarationOpen => self.markup_declaration_open_exec(),
            TokenizationState::CommentStart => self.comment_start_exec(),
            TokenizationState::CommentStartDash => self.comment_start_exec(),
            TokenizationState::Comment => self.comment_body_exec(),
            TokenizationState::CommentLessThanSign => self.comment_less_than_exec(),
            TokenizationState::CommentLessThanSignBang => self.comment_less_than_exec(),
            TokenizationState::CommentLessThanSignBangDash => self.comment_less_than_exec(),
            TokenizationState::CommentLessThanSignBangDashDash => self.comment_less_than_exec(),
            TokenizationState::CommentEndDash => self.comment_end_exec(),
            TokenizationState::CommentEnd => self.comment_end_exec(),
            TokenizationState::Doctype => self.doctype_start_exec(),
            TokenizationState::BeforeDoctypeName => self.doctype_start_exec(),
            TokenizationState::DoctypeName => self.doctype_name_exec(),
            TokenizationState::CharacterReference => self.character_reference_exec(),
            TokenizationState::NamedCharacterReference => self.named_character_reference_exec(),
            _ => Flow::Stop,
        }
    }

    /// Runs rounds until one hands back a token (`Some`) or would stop the
    /// program (`None`).
    fn run_rounds(&mut self) -> (r: Option<HtmlToken<'a>>)
        requires
            old(self).wf(),
        ensures
            final(self).wf(),
            final(self).input() == old(self).input(),
            match run_states(old(self).input(), old(self).tok()) {
                Act::Return(t2, tok) => r matches Some(x) && final(self).tok() == t2 && x@ == tok,
                _ => r is None,
            },
    {
        let ghost s = self.input();
        let ghost total = run_states(s, self.tok());
        proof {
            self.lemma_wf();
        }
        loop
            invariant
                self.wf(),
                self.input() == s,
                s == old(self).input(),
                total == run_states(old(self).input(), old(self).tok()),
                0 <= self.tok().pos <= s.len(),
                run_states(s, self.tok()) == total,
            decreases s.len() - self.tok().pos, rank(s, self.tok()),
        {
            proof {
                lemma_goto_progress(s, self.tok());
            }
            match self.act() {
                Flow::Return(tok) => {
                    return Some(tok);
                },
                Flow::Goto => {
                    proof {
                        self.lemma_wf();
                    }
                },
                Flow::Stop => {
                    return None;
                },
            }
        }
    }

    /// Whether the next call of `next_token` would stop the program: a panic
    /// of the state machine (a state not read yet, a tag handed out that was
    /// never begun) or a loop that never ends.
    pub fn halts_next(&self) -> (r: bool)
        requires
            self.wf(),
        ensures
            r == (run_states(self.input(), self.tok()) is Stuck),
    {
        proof {
            self.lemma_wf();
            lemma_run_states_ends(self.input(), self.tok());
        }
        let mut copy = HtmlTokenizer {
            cursor: self.cursor,
            state: self.state,
            return_state: self.return_state,
            errors: Vec::new(),
            mark: self.mark,
            current_tag_buffer: None,
            is_current_tag_end: self.is_current_tag_end,
            last_start_tag_name: None,
            current_doctype_buffer: None,
        };
        copy.errors = self.errors.clone();
        copy.current_tag_buffer = clone_tag(&self.current_tag_buffer);
        copy.last_start_tag_name = clone_text(&self.last_start_tag_name);
        copy.current_doctype_buffer = clone_doctype(&self.current_doctype_buffer);
        proof {
            assert(copy.errors@ =~= self.errors@);
            assert(copy.tok() == self.tok());
        }
        copy.run_rounds().is_none()
    }

    /// Reads the next token. The states hand over to each other as
    /// `run_states` says until one hands back a token; at the end of the input
    /// in state `Data` that is `EndOfFile`.
    pub fn next_token(&mut self) -> (r: Option<HtmlToken<'a>>)
        requires
            old(self).wf(),
            !(run_states(old(self).input(), old(self).tok()) is Stuck),
        ensures
            final(self).wf(),
            final(self).input() == old(self).input(),
            run_states(old(self).input(), old(self).tok()) matches Act::Return(t2, tok) && r matches Some(x)
                && final(self).tok() == t2 && x@ == tok,
    {
        proof {
            self.lemma_wf();
            lemma_run_states_ends(self.input(), self.tok());
        }
        self.run_rounds()
    }
}

/// A copy of a text.
pub(crate) fn clone_cow<'a>(t: &CowStr<'a>) -> (r: CowStr<'a>)
    ensures
        r@ == t@,
{
    match t {
        CowStr::Borrowed(s) => CowStr::Borrowed(s),
        CowStr::Owned(s) => CowStr::Owned(s.clone()),
    }
}

/// A copy of an optional text.
pub(crate) fn clone_text<'a>(t: &Option<CowStr<'a>>) -> (r: Option<CowStr<'a>>)
    ensures
        view_text(r) == view_text(*t),
{
    match t {
        Some(c) => Some(clone_cow(c)),
        None => None,
    }
}

/// A copy of an optional tag.
pub(crate) fn clone_tag<'a>(t: &Option<Tag<'a>>) -> (r: Option<Tag<'a>>)
    ensures
        view_tag(r) == view_tag(*t),
{
    match t {
        Some(g) => {
            let mut attributes: Vec<Attribute<'a>> = Vec::new();
            let mut k: usize = 0;
            while k < g.attributes.len()
                invariant
                    k <= g.attributes.len(),
                    attributes@.len() == k,
                    forall|j: int| 0 <= j < k ==> (#[trigger] attributes@[j])@ == g.attributes@[j]@,
                decreases g.attributes.len() - k,
            {
                let a = &g.attributes[k];
                attributes.push(Attribute { name: clone_text(&a.name), value: clone_text(&a.value) });
                k += 1;
            }
            let r = Tag { name: clone_text(&g.name), self_closing_tag: g.self_closing_tag, attributes };
            proof {
                assert(r.attributes@.map_values(|a: Attribute<'a>| a@) =~= g.attributes@.map_values(
                    |a: Attribute<'a>| a@,
                ));
            }
            Some(r)
        },
        None => None,
    }
}

/// A copy of an optional document type.
pub(crate) fn clone_doctype<'a>(d: &Option<Doctype<'a>>) -> (r: Option<Doctype<'a>>)
    ensures
        view_doctype(r) == view_doctype(*d),
{
    match d {
        Some(x) => Some(
            Doctype {
                name: clone_text(&x.name),
                public_identifier: clone_text(&x.public_identifier),
                system_identifier: clone_text(&x.system_identifier),
                force_quirks_flag: x.force_quirks_flag,
            },
        ),
        None => None,
    }
}


/// A round that hands back a token stays inside the input and never moves
/// back.
pub proof fn lemma_return_bounds(s: Seq<char>, t: TokState)
    requires
        0 <= t.pos <= s.len(),
    ensures
        action(s, t) matches Act::Return(t2, _) ==> t.pos <= t2.pos <= s.len(),
{
    let i = t.pos;
    match t.state {
        TokenizationState::Data => lemma_run_end(s, i, Stop::Data),
        TokenizationState::RcData => lemma_run_end(s, i, Stop::Data),
        TokenizationState::RawText => lemma_run_end(s, i, Stop::RawText),
        TokenizationState::PlainText => lemma_run_end(s, i, Stop::Nul),
        TokenizationState::ScriptData => lemma_run_end(s, i, Stop::LessThan),
        TokenizationState::TagName => lemma_run_end(s, i, Stop::TagName),
        TokenizationState::RcDataEndTagName => lemma_run_end(s, i, Stop::NotAlpha),
        TokenizationState::RawTextEndTagName => lemma_run_end(s, i, Stop::NotAlpha),
        TokenizationState::AttributeValueDoubleQuoted => lemma_run_end(s, i, Stop::Quoted('"')),
        TokenizationState::AttributeValueSingleQuoted => lemma_run_end(s, i, Stop::Quoted('\'')),
        TokenizationState::BogusComment => lemma_run_end(s, i, Stop::GreaterThan),
        TokenizationState::Comment => lemma_run_end(s, i, Stop::Comment),
        TokenizationState::DoctypeName => lemma_run_end(s, i, Stop::DoctypeName),
        TokenizationState::NamedCharacterReference => lemma_run_end(s, i, Stop::NotAlnum),
        _ => {},
    }
}

/// The rounds of one call stay inside the input and never move back.
pub proof fn lemma_run_states_bounds(s: Seq<char>, t: TokState)
    requires
        0 <= t.pos <= s.len(),
    ensures
        run_states(s, t) matches Act::Return(t2, _) ==> t.pos <= t2.pos <= s.len(),
    decreases s.len() - t.pos, rank(s, t),
{
    lemma_goto_progress(s, t);
    lemma_return_bounds(s, t);
    if let Act::Goto(t2) = action(s, t) {
        lemma_run_states_bounds(s, t2);
    }
}

/// Each call of `next_token` keeps the position inside the input and never
/// moves it back.
pub proof fn law_next_token_moves_forward(s: Seq<char>, t: TokState)
    requires
        0 <= t.pos <= s.len(),
    ensures
        run_states(s, t) matches Act::Return(t2, _) ==> t.pos <= t2.pos <= s.len(),
{
    lemma_run_states_bounds(s, t);
}

/// At the end of the input in state `Data`, `next_token` hands back
/// `EndOfFile` and changes nothing.
pub proof fn law_end_of_file_in_data(s: Seq<char>, t: TokState)
    requires
        t.pos == s.len(),
        t.state == TokenizationState::Data,
    ensures
        run_states(s, t) == Act::Return(t, TokenView::EndOfFile),
{
}

/// Within one call, a round that hands over to another state moves forward
/// or hands over to a state lower in `rank`: the states never go round in a
/// circle without reading.
pub proof fn law_rounds_make_progress(s: Seq<char>, t: TokState)
    requires
        0 <= t.pos <= s.len(),
    ensures
        action(s, t) matches Act::Goto(t2) ==> t.pos <= t2.pos <= s.len() && (t.pos < t2.pos || rank(s, t2)
            < rank(s, t)),
{
    lemma_goto_progress(s, t);
}

/// In state `Data`, a run of text holding no `&`, `<` or null character and
/// reaching the end of the input comes back whole as one token, after which
/// `next_token` hands back `EndOfFile`.
pub proof fn law_plain_text_is_one_token(s: Seq<char>, t: TokState)
    requires
        t.state == TokenizationState::Data,
        0 <= t.pos < s.len(),
        forall|j: int| t.pos <= j < s.len() ==> #[trigger] s[j] != '&' && s[j] != '<' && s[j] != '\0',
    ensures
        run_states(s, t) == Act::Return(
            TokState { pos: s.len() as int, mark: t.pos, ..t },
            TokenView::Character(s.subrange(t.pos, s.len() as int)),
        ),
        run_states(s, TokState { pos: s.len() as int, mark: t.pos, ..t }) == Act::Return(
            TokState { pos: s.len() as int, mark: t.pos, ..t },
            TokenView::EndOfFile,
        ),
{
    lemma_run_end(s, t.pos, Stop::Data);
    let e = run_end(s, t.pos, Stop::Data);
    if e < s.len() {
        assert(stops(Stop::Data, s[e]));
    }
    assert(e == s.len());
}

} // verus!
