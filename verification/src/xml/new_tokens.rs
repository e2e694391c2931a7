//! A character-level XML tokenizer over a `&str`: text, start and end tags
//! with their attributes, the XML declaration, comments and character data.
//! Its tokens borrow from the input. Processing instructions and document
//! types are not read yet: the tokenizer stops the program on them.
use vstd::prelude::*;
use crate::cursor::{StrCursor, str_is};

verus! {

/// An error of the tokenizer.
#[derive(Debug, PartialEq, Eq, Structural, Clone, Copy)]
pub enum Error {
    UnexpectedNullCharacter,
    UnexpectedAttributeFormat,
    UnquotedAttributeValue,
    UnterminatedAttributeValueQuote,
    UnexpectedXmlDeclarationFormat,
    UnexpectedXmlDeclarationAttribute,
    UnterminatedComment,
    UnterminatedCharacterData,
}

/// The message of an error.
pub open spec fn error_message(e: Error) -> Seq<char> {
    match e {
        Error::UnexpectedNullCharacter => "Unexpected null character encountered"@,
        Error::UnexpectedAttributeFormat => "Unexpected attribute format encountered"@,
        Error::UnquotedAttributeValue => "Unquoted attribute value encountered"@,
        Error::UnterminatedAttributeValueQuote => "Unterminated attribute value quote"@,
        Error::UnexpectedXmlDeclarationFormat => "Unexpected XML declaration format encountered"@,
        Error::UnexpectedXmlDeclarationAttribute => "Unexpected attribute found in xml declaration"@,
        Error::UnterminatedComment => "Unterminated comment"@,
        Error::UnterminatedCharacterData => "Unterminated CData"@,
    }
}

impl Error {
    /// The error's message.
    pub fn to_string(&self) -> (s: String)
        ensures
            s@ == error_message(*self),
    {
        match self {
            Error::UnexpectedNullCharacter => String::from_str("Unexpected null character encountered"),
            Error::UnexpectedAttributeFormat => String::from_str(
                "Unexpected attribute format encountered",
            ),
            Error::UnquotedAttributeValue => String::from_str("Unquoted attribute value encountered"),
            Error::UnterminatedAttributeValueQuote => String::from_str(
                "Unterminated attribute value quote",
            ),
            Error::UnexpectedXmlDeclarationFormat => String::from_str(
                "Unexpected XML declaration format encountered",
            ),
            Error::UnexpectedXmlDeclarationAttribute => String::from_str(
                "Unexpected attribute found in xml declaration",
            ),
            Error::UnterminatedComment => String::from_str("Unterminated comment"),
            Error::UnterminatedCharacterData => String::from_str("Unterminated CData"),
        }
    }
}

/// A token; every slice in it borrows from the input.
#[derive(Debug)]
pub enum XmlToken<'a> {
    Declaration {
        name: &'a str,
        version: &'a str,
        encoding: Option<&'a str>,
        standalone: Option<&'a str>,
    },
    ProcessingInstruction { target: &'a str, data: &'a str },
    DocumentType { name: &'a str, external_id: &'a str },
    EntityDeclaration { name: &'a str, definition: &'a str },
    DocumentTypeEnd,
    CharacterData(&'a str),
    StartTag { name: &'a str },
    Attribute { name: &'a str, value: &'a str },
    TagEnd { self_closing: bool },
    EndTag { name: &'a str },
    Text(&'a str),
    Comment(&'a str),
}

/// A token with its slices taken as character sequences.
pub enum TokenView {
    Declaration {
        name: Seq<char>,
        version: Seq<char>,
        encoding: Option<Seq<char>>,
        standalone: Option<Seq<char>>,
    },
    ProcessingInstruction { target: Seq<char>, data: Seq<char> },
    DocumentType { name: Seq<char>, external_id: Seq<char> },
    EntityDeclaration { name: Seq<char>, definition: Seq<char> },
    DocumentTypeEnd,
    CharacterData(Seq<char>),
    StartTag { name: Seq<char> },
    Attribute { name: Seq<char>, value: Seq<char> },
    TagEnd { self_closing: bool },
    EndTag { name: Seq<char> },
    Text(Seq<char>),
    Comment(Seq<char>),
}

/// An optional slice taken as an optional character sequence.
pub open spec fn view_opt(o: Option<&str>) -> Option<Seq<char>> {
    match o {
        Some(t) => Some(t@),
        None => None,
    }
}

impl<'a> View for XmlToken<'a> {
    type V = TokenView;

    open spec fn view(&self) -> TokenView {
        match self {
            XmlToken::Declaration { name, version, encoding, standalone } => TokenView::Declaration {
                name: name@,
                version: version@,
                encoding: view_opt(*encoding),
                standalone: view_opt(*standalone),
            },
            XmlToken::ProcessingInstruction { target, data } => TokenView::ProcessingInstruction {
                target: target@,
                data: data@,
            },
            XmlToken::DocumentType { name, external_id } => TokenView::DocumentType {
                name: name@,
                external_id: external_id@,
            },
            XmlToken::EntityDeclaration { name, definition } => TokenView::EntityDeclaration {
                name: name@,
                definition: definition@,
            },
            XmlToken::DocumentTypeEnd => TokenView::DocumentTypeEnd,
            XmlToken::CharacterData(t) => TokenView::CharacterData(t@),
            XmlToken::StartTag { name } => TokenView::StartTag { name: name@ },
            XmlToken::Attribute { name, value } => TokenView::Attribute { name: name@, value: value@ },
            XmlToken::TagEnd { self_closing } => TokenView::TagEnd { self_closing: *self_closing },
            XmlToken::EndTag { name } => TokenView::EndTag { name: name@ },
            XmlToken::Text(t) => TokenView::Text(t@),
            XmlToken::Comment(t) => TokenView::Comment(t@),
        }
    }
}

/// What one call of `next` hands back, with its token viewed.
pub open spec fn view_item(r: Option<Result<XmlToken, Error>>) -> Option<Result<TokenView, Error>> {
    match r {
        None => None,
        Some(Ok(t)) => Some(Ok(t@)),
        Some(Err(e)) => Some(Err(e)),
    }
}

/// Where the tokenizer stands.
#[derive(Debug, PartialEq, Eq, Structural, Clone, Copy)]
pub enum XmlState {
    Normal,
    TagOpen,
    TagOpenBang,
    InsideComment,
    InsideCharacterData,
    DeclarationStart,
    InsideXmlDeclaration,
    ProcessingInstructionStart,
    StartTagName,
    EndTagName,
    SelfClosingStartTag,
    AfterStartTagName,
    InsideAttribute,
    DocumentTypeStart,
}

/// The sets of characters a run of characters stops at.
#[derive(PartialEq, Eq, Structural, Clone, Copy)]
pub enum Stop {
    /// `<` or a null character.
    Text,
    /// `>`, `/` or a space.
    TagName,
    /// `>` or a space.
    EndTagName,
    /// `=`.
    Equals,
    /// The given quote.
    Quote(char),
    /// A space or `?`.
    DeclarationName,
    /// `=` or `?`.
    DeclarationAttribute,
    /// Anything but a space.
    NotSpace,
}

/// Whether a run of kind `k` stops at `c`.
pub open spec fn stops(k: Stop, c: char) -> bool {
    match k {
        Stop::Text => c == '<' || c == '\0',
        Stop::TagName => c == '>' || c == '/' || c == ' ',
        Stop::EndTagName => c == '>' || c == ' ',
        Stop::Equals => c == '=',
        Stop::Quote(q) => c == q,
        Stop::DeclarationName => c == ' ' || c == '?',
        Stop::DeclarationAttribute => c == '=' || c == '?',
        Stop::NotSpace => c != ' ',
    }
}

/// Whether a run of kind `k` stops at `c`.
fn stops_at(k: Stop, c: char) -> (r: bool)
    ensures
        r == stops(k, c),
{
    match k {
        Stop::Text => c == '<' || c == '\0',
        Stop::TagName => c == '>' || c == '/' || c == ' ',
        Stop::EndTagName => c == '>' || c == ' ',
        Stop::Equals => c == '=',
        Stop::Quote(q) => c == q,
        Stop::DeclarationName => c == ' ' || c == '?',
        Stop::DeclarationAttribute => c == '=' || c == '?',
        Stop::NotSpace => c != ' ',
    }
}

/// Where the run of kind `k` from position `i` of `s` ends: at the first
/// character it stops at, or at the end of the input.
pub open spec fn run_end(s: Seq<char>, i: int, k: Stop) -> int
    decreases s.len() - i,
{
    if i >= s.len() || stops(k, s[i]) {
        i
    } else {
        run_end(s, i + 1, k)
    }
}

/// A run ends between its start and the end of the input.
pub proof fn lemma_run_end_bounds(s: Seq<char>, i: int, k: Stop)
    requires
        0 <= i <= s.len(),
    ensures
        i <= run_end(s, i, k) <= s.len(),
        run_end(s, i, k) < s.len() ==> stops(k, s[run_end(s, i, k)]),
    decreases s.len() - i,
{
    if i < s.len() && !stops(k, s[i]) {
        lemma_run_end_bounds(s, i + 1, k);
    }
}

/// The position after consuming one character at `i`: `i + 1`, or `i` at the
/// end of the input.
pub open spec fn adv(s: Seq<char>, i: int) -> int {
    if i < s.len() {
        i + 1
    } else {
        i
    }
}

/// Whether `s` holds `pat` at position `i`.
pub open spec fn chars_at(s: Seq<char>, i: int, pat: Seq<char>) -> bool {
    i + pat.len() <= s.len() && s.subrange(i, i + pat.len()) == pat
}

/// Whether `c` is an ASCII letter.
pub open spec fn is_alpha(c: char) -> bool {
    ('a' <= c && c <= 'z') || ('A' <= c && c <= 'Z')
}

/// Whether `c` is an ASCII letter.
fn is_alpha_char(c: char) -> (r: bool)
    ensures
        r == is_alpha(c),
{
    ('a' <= c && c <= 'z') || ('A' <= c && c <= 'Z')
}

/// What a quoted value at position `j` gives: its start and end, or the
/// position where reading it failed and the error.
pub enum Quoted {
    Value(int, int),
    Bad(int, Error),
}

/// Reads the quoted value whose opening quote is expected at `j` (the
/// character there is consumed whatever it is).
pub open spec fn quoted(s: Seq<char>, j: int) -> Quoted {
    if j < s.len() && (s[j] == '\'' || s[j] == '"') {
        let v0 = j + 1;
        let ve = run_end(s, v0, Stop::Quote(s[j]));
        if ve == v0 {
            Quoted::Bad(ve, Error::UnterminatedAttributeValueQuote)
        } else {
            Quoted::Value(v0, ve)
        }
    } else {
        Quoted::Bad(adv(s, j), Error::UnquotedAttributeValue)
    }
}

/// What one state does: hand back a token (or an error, or nothing) and
/// stop, go on in another state, or stop the program.
pub enum Action {
    Return(int, XmlState, Option<Result<TokenView, Error>>),
    Goto(int, XmlState),
    Stuck,
}

/// `xml ` (with the space).
pub open spec fn xml_chars() -> Seq<char> {
    seq!['x', 'm', 'l', ' ']
}

/// `version`.
pub open spec fn version_chars() -> Seq<char> {
    seq!['v', 'e', 'r', 's', 'i', 'o', 'n']
}

/// `encoding`.
pub open spec fn encoding_chars() -> Seq<char> {
    seq!['e', 'n', 'c', 'o', 'd', 'i', 'n', 'g']
}

/// `standalone`.
pub open spec fn standalone_chars() -> Seq<char> {
    seq!['s', 't', 'a', 'n', 'd', 'a', 'l', 'o', 'n', 'e']
}

/// `?>`.
pub open spec fn declaration_close() -> Seq<char> {
    seq!['?', '>']
}

/// `--`.
pub open spec fn comment_open_chars() -> Seq<char> {
    seq!['-', '-']
}

/// `[CDATA[`.
pub open spec fn cdata_open_chars() -> Seq<char> {
    seq!['[', 'C', 'D', 'A', 'T', 'A', '[']
}

/// `DOCTYPE`.
pub open spec fn doctype_chars() -> Seq<char> {
    seq!['D', 'O', 'C', 'T', 'Y', 'P', 'E']
}

/// State `Normal` at `i`.
pub open spec fn normal(s: Seq<char>, i: int) -> Action {
    let e = run_end(s, i, Stop::Text);
    if e > i {
        Action::Return(e, XmlState::Normal, Some(Ok(TokenView::Text(s.subrange(i, e)))))
    } else if e >= s.len() {
        Action::Return(e, XmlState::Normal, None)
    } else if s[e] == '<' {
        Action::Goto(e + 1, XmlState::TagOpen)
    } else {
        Action::Return(e + 1, XmlState::Normal, Some(Err(Error::UnexpectedNullCharacter)))
    }
}

/// State `TagOpen` at `i`.
pub open spec fn tag_open(s: Seq<char>, i: int) -> Action {
    if i >= s.len() {
        Action::Stuck
    } else if s[i] == '!' {
        Action::Goto(i + 1, XmlState::TagOpenBang)
    } else if s[i] == '?' {
        Action::Goto(i + 1, XmlState::DeclarationStart)
    } else if s[i] == '/' {
        Action::Goto(i + 1, XmlState::EndTagName)
    } else if is_alpha(s[i]) {
        Action::Goto(i, XmlState::StartTagName)
    } else {
        Action::Stuck
    }
}

/// State `StartTagName` at `i`.
pub open spec fn start_tag_name(s: Seq<char>, i: int) -> Action {
    let e = run_end(s, i, Stop::TagName);
    if e > i {
        Action::Return(e, XmlState::StartTagName, Some(Ok(TokenView::StartTag { name: s.subrange(i, e) })))
    } else if i >= s.len() {
        Action::Stuck
    } else if s[i] == '>' {
        Action::Return(i + 1, XmlState::Normal, Some(Ok(TokenView::TagEnd { self_closing: false })))
    } else if s[i] == '/' {
        Action::Goto(i + 1, XmlState::SelfClosingStartTag)
    } else {
        Action::Goto(i + 1, XmlState::AfterStartTagName)
    }
}

/// State `EndTagName` at `i`.
pub open spec fn end_tag_name(s: Seq<char>, i: int) -> Action {
    let e = run_end(s, i, Stop::EndTagName);
    if e > i {
        Action::Return(e, XmlState::EndTagName, Some(Ok(TokenView::EndTag { name: s.subrange(i, e) })))
    } else {
        let w = run_end(s, i, Stop::NotSpace);
        if w < s.len() && s[w] == '>' {
            Action::Return(w + 1, XmlState::Normal, Some(Ok(TokenView::TagEnd { self_closing: false })))
        } else {
            Action::Stuck
        }
    }
}

/// State `SelfClosingStartTag` at `i`.
pub open spec fn self_closing_start_tag(s: Seq<char>, i: int) -> Action {
    if i < s.len() && s[i] == '>' {
        Action::Return(i + 1, XmlState::Normal, Some(Ok(TokenView::TagEnd { self_closing: true })))
    } else {
        Action::Stuck
    }
}

/// State `AfterStartTagName` at `i`.
pub open spec fn after_start_tag_name(s: Seq<char>, i: int) -> Action {
    let w = run_end(s, i, Stop::NotSpace);
    if w >= s.len() {
        Action::Stuck
    } else if s[w] == '>' || s[w] == '/' {
        Action::Goto(w, XmlState::StartTagName)
    } else if is_alpha(s[w]) {
        Action::Goto(w, XmlState::InsideAttribute)
    } else {
        Action::Stuck
    }
}

/// State `InsideAttribute` at `i`: a name up to `=`, spaces, and a quoted
/// value.
pub open spec fn inside_attribute(s: Seq<char>, i: int) -> Action {
    let st = XmlState::InsideAttribute;
    let e = run_end(s, i, Stop::Equals);
    if e == i {
        Action::Return(i, st, Some(Err(Error::UnexpectedAttributeFormat)))
    } else {
        let w = run_end(s, adv(s, e), Stop::NotSpace);
        match quoted(s, w) {
            Quoted::Bad(p, err) => Action::Return(p, st, Some(Err(err))),
            Quoted::Value(v0, ve) => Action::Return(
                adv(s, ve),
                XmlState::AfterStartTagName,
                Some(Ok(TokenView::Attribute { name: s.subrange(i, e), value: s.subrange(v0, ve) })),
            ),
        }
    }
}

/// The optional attributes of the XML declaration from position `k` on, with
/// the declaration's name and version and the attributes read so far.
pub open spec fn declaration_attributes(
    s: Seq<char>,
    k: int,
    name: Seq<char>,
    version: Seq<char>,
    encoding: Option<Seq<char>>,
    standalone: Option<Seq<char>>,
) -> Action
    decreases s.len() - k,
{
    let st = XmlState::InsideXmlDeclaration;
    if 0 <= k < s.len() && is_alpha(s[k]) {
        let e = run_end(s, k, Stop::DeclarationAttribute);
        if e < s.len() && s[e] == '?' {
            Action::Return(e + 1, st, Some(Err(Error::UnexpectedXmlDeclarationFormat)))
        } else {
            match quoted(s, adv(s, e)) {
                Quoted::Bad(p, err) => Action::Return(p, st, Some(Err(err))),
                Quoted::Value(v0, ve) => {
                    proof {
                        lemma_run_end_bounds(s, k, Stop::DeclarationAttribute);
                        lemma_run_end_bounds(s, adv(s, e) + 1, Stop::Quote(s[adv(s, e)]));
                        lemma_run_end_bounds(s, adv(s, ve), Stop::NotSpace);
                    }
                    let p3 = run_end(s, adv(s, ve), Stop::NotSpace);
                    let an = s.subrange(k, e);
                    let v = s.subrange(v0, ve);
                    if an == encoding_chars() {
                        declaration_attributes(s, p3, name, version, Some(v), standalone)
                    } else if an == standalone_chars() {
                        declaration_attributes(s, p3, name, version, encoding, Some(v))
                    } else {
                        Action::Return(p3, st, Some(Err(Error::UnexpectedXmlDeclarationAttribute)))
                    }
                },
            }
        }
    } else {
        let p = if chars_at(s, k, declaration_close()) {
            k + 2
        } else {
            k
        };
        Action::Return(
            p,
            XmlState::Normal,
            Some(Ok(TokenView::Declaration { name, version, encoding, standalone })),
        )
    }
}

/// The declaration's attributes always end the call: they never hand over
/// to another state.
pub proof fn lemma_declaration_attributes_return(
    s: Seq<char>,
    k: int,
    name: Seq<char>,
    version: Seq<char>,
    encoding: Option<Seq<char>>,
    standalone: Option<Seq<char>>,
)
    ensures
        declaration_attributes(s, k, name, version, encoding, standalone) is Return,
    decreases s.len() - k,
{
    if 0 <= k < s.len() && is_alpha(s[k]) {
        let e = run_end(s, k, Stop::DeclarationAttribute);
        if !(e < s.len() && s[e] == '?') {
            if let Quoted::Value(v0, ve) = quoted(s, adv(s, e)) {
                lemma_run_end_bounds(s, k, Stop::DeclarationAttribute);
                lemma_run_end_bounds(s, adv(s, e) + 1, Stop::Quote(s[adv(s, e)]));
                lemma_run_end_bounds(s, adv(s, ve), Stop::NotSpace);
                let p3 = run_end(s, adv(s, ve), Stop::NotSpace);
                let v = s.subrange(v0, ve);
                lemma_declaration_attributes_return(s, p3, name, version, Some(v), standalone);
                lemma_declaration_attributes_return(s, p3, name, version, encoding, Some(v));
            }
        }
    }
}

/// State `InsideXmlDeclaration` at `i`: the declaration's name, its
/// `version`, then the optional `encoding` and `standalone`.
pub open spec fn inside_xml_declaration(s: Seq<char>, i: int) -> Action {
    let st = XmlState::InsideXmlDeclaration;
    let e1 = run_end(s, i, Stop::DeclarationName);
    if e1 == i {
        Action::Return(i, st, Some(Err(Error::UnexpectedXmlDeclarationFormat)))
    } else {
        let w1 = run_end(s, e1, Stop::NotSpace);
        let e2 = run_end(s, w1, Stop::Equals);
        if e2 == w1 || s.subrange(w1, e2) != version_chars() {
            Action::Return(e2, st, Some(Err(Error::UnexpectedXmlDeclarationFormat)))
        } else {
            match quoted(s, adv(s, e2)) {
                Quoted::Bad(p, err) => Action::Return(p, st, Some(Err(err))),
                Quoted::Value(v0, ve) => declaration_attributes(
                    s,
                    run_end(s, adv(s, ve), Stop::NotSpace),
                    s.subrange(i, e1),
                    s.subrange(v0, ve),
                    None,
                    None,
                ),
            }
        }
    }
}

/// State `TagOpenBang` at `i`.
pub open spec fn tag_open_bang(s: Seq<char>, i: int) -> Action {
    if chars_at(s, i, comment_open_chars()) {
        Action::Goto(i + 2, XmlState::InsideComment)
    } else if chars_at(s, i, cdata_open_chars()) {
        Action::Goto(i + 7, XmlState::InsideCharacterData)
    } else if chars_at(s, i, doctype_chars()) {
        Action::Goto(i + 7, XmlState::DocumentTypeStart)
    } else {
        Action::Stuck
    }
}

/// Where a comment or character data closes: the position of the first `>`
/// from `j` on that follows exactly two characters `c` (`h` of them already
/// counted right before `j`); `None` when none does.
pub open spec fn close_scan(s: Seq<char>, j: int, h: int, c: char) -> Option<int>
    decreases s.len() - j,
{
    if j >= s.len() {
        None
    } else if s[j] == c {
        close_scan(s, j + 1, h + 1, c)
    } else if s[j] == '>' && h == 2 {
        Some(j)
    } else {
        close_scan(s, j + 1, 0, c)
    }
}

/// A close found lies after the two characters it needs.
pub proof fn lemma_close_scan(s: Seq<char>, j: int, h: int, c: char)
    requires
        0 <= h,
        0 <= j,
    ensures
        close_scan(s, j, h, c) matches Some(g) ==> j - h <= g - 2 && j <= g < s.len(),
    decreases s.len() - j,
{
    if j < s.len() {
        if s[j] == c {
            lemma_close_scan(s, j + 1, h + 1, c);
        } else if !(s[j] == '>' && h == 2) {
            lemma_close_scan(s, j + 1, 0, c);
        }
    }
}

/// State `InsideComment` at `i`.
pub open spec fn inside_comment(s: Seq<char>, i: int) -> Action {
    match close_scan(s, i, 0, '-') {
        Some(g) => Action::Return(g + 1, XmlState::Normal, Some(Ok(TokenView::Comment(s.subrange(i, g - 2))))),
        None => Action::Return(s.len() as int, XmlState::InsideComment, Some(Err(Error::UnterminatedComment))),
    }
}

/// State `InsideCharacterData` at `i`.
pub open spec fn inside_character_data(s: Seq<char>, i: int) -> Action {
    match close_scan(s, i, 0, ']') {
        Some(g) => Action::Return(
            g + 1,
            XmlState::Normal,
            Some(Ok(TokenView::CharacterData(s.subrange(i, g - 2)))),
        ),
        None => Action::Return(
            s.len() as int,
            XmlState::InsideCharacterData,
            Some(Err(Error::UnterminatedCharacterData)),
        ),
    }
}

/// What state `st` does at position `i` of `s`.
pub open spec fn action(s: Seq<char>, i: int, st: XmlState) -> Action {
    match st {
        XmlState::Normal => normal(s, i),
        XmlState::TagOpen => tag_open(s, i),
        XmlState::TagOpenBang => tag_open_bang(s, i),
        XmlState::InsideComment => inside_comment(s, i),
        XmlState::InsideCharacterData => inside_character_data(s, i),
        XmlState::DeclarationStart => if chars_at(s, i, xml_chars()) {
            Action::Goto(i, XmlState::InsideXmlDeclaration)
        } else {
            Action::Goto(i, XmlState::ProcessingInstructionStart)
        },
        XmlState::InsideXmlDeclaration => inside_xml_declaration(s, i),
        XmlState::ProcessingInstructionStart => Action::Stuck,
        XmlState::StartTagName => start_tag_name(s, i),
        XmlState::EndTagName => end_tag_name(s, i),
        XmlState::SelfClosingStartTag => self_closing_start_tag(s, i),
        XmlState::AfterStartTagName => after_start_tag_name(s, i),
        XmlState::InsideAttribute => inside_attribute(s, i),
        XmlState::DocumentTypeStart => Action::Stuck,
    }
}

/// The order in which states hand over without reading a character: each
/// hands over only to a lower one.
pub open spec fn rank(st: XmlState) -> nat {
    match st {
        XmlState::TagOpen => 3,
        XmlState::AfterStartTagName => 2,
        XmlState::DeclarationStart => 2,
        XmlState::StartTagName => 1,
        XmlState::InsideAttribute => 1,
        XmlState::InsideXmlDeclaration => 1,
        XmlState::ProcessingInstructionStart => 1,
        _ => 0,
    }
}

/// A state that hands over moves forward, or stays put and hands over to a
/// lower state, and stays inside the input.
pub proof fn lemma_goto_progress(s: Seq<char>, i: int, st: XmlState)
    requires
        0 <= i <= s.len(),
    ensures
        action(s, i, st) matches Action::Goto(i2, st2) ==> i <= i2 <= s.len() && (i < i2 || rank(st2)
            < rank(st)) && st2 != XmlState::Normal,
{
    lemma_run_end_bounds(s, i, Stop::Text);
    lemma_run_end_bounds(s, i, Stop::TagName);
    lemma_run_end_bounds(s, i, Stop::NotSpace);
    assert(comment_open_chars().len() == 2);
    assert(cdata_open_chars().len() == 7);
    assert(doctype_chars().len() == 7);
    match st {
        XmlState::Normal => assert(action(s, i, st) matches Action::Goto(i2, st2) ==> i < i2 <= s.len()),
        XmlState::TagOpen => assert(action(s, i, st) matches Action::Goto(i2, st2) ==> i <= i2 <= s.len() && (i < i2 || rank(st2) < rank(st))),
        XmlState::TagOpenBang => assert(action(s, i, st) matches Action::Goto(i2, st2) ==> i < i2 <= s.len()),
        XmlState::StartTagName => assert(action(s, i, st) matches Action::Goto(i2, st2) ==> i < i2 <= s.len()),
        XmlState::AfterStartTagName => assert(action(s, i, st) matches Action::Goto(i2, st2) ==> i <= i2 <= s.len() && (i < i2 || rank(st2) < rank(st))),
        XmlState::InsideXmlDeclaration => {
            let e1 = run_end(s, i, Stop::DeclarationName);
            let w1 = run_end(s, e1, Stop::NotSpace);
            let e2 = run_end(s, w1, Stop::Equals);
            if let Quoted::Value(v0, ve) = quoted(s, adv(s, e2)) {
                lemma_declaration_attributes_return(
                    s,
                    run_end(s, adv(s, ve), Stop::NotSpace),
                    s.subrange(i, e1),
                    s.subrange(v0, ve),
                    None,
                    None,
                );
            }
        },
        XmlState::DeclarationStart => assert(action(s, i, st) matches Action::Goto(i2, st2) ==> i <= i2 <= s.len() && (i < i2 || rank(st2) < rank(st))),
        _ => {},
    }
}

/// What one call of `next` does from position `i` in state `st`: the states
/// hand over to each other until one hands back a result or stops the
/// program.
pub open spec fn run_states(s: Seq<char>, i: int, st: XmlState) -> Action
    decreases s.len() - i, rank(st),
    when 0 <= i <= s.len()
{
    match action(s, i, st) {
        Action::Goto(i2, st2) => {
            proof {
                lemma_goto_progress(s, i, st);
            }
            run_states(s, i2, st2)
        },
        a => a,
    }
}

/// The states never end a call by handing over.
pub proof fn lemma_run_states_ends(s: Seq<char>, i: int, st: XmlState)
    requires
        0 <= i <= s.len(),
    ensures
        !(run_states(s, i, st) is Goto),
    decreases s.len() - i, rank(st),
{
    lemma_goto_progress(s, i, st);
    if let Action::Goto(i2, st2) = action(s, i, st) {
        lemma_run_states_ends(s, i2, st2);
    }
}

/// A quoted value lies inside the input, and reading it never moves back.
pub proof fn lemma_quoted_bounds(s: Seq<char>, j: int)
    requires
        0 <= j <= s.len(),
    ensures
        match quoted(s, j) {
            Quoted::Value(v0, ve) => j < v0 < ve < s.len() || (j < v0 < ve && ve == s.len()),
            Quoted::Bad(p, _) => j <= p <= s.len(),
        },
{
    if j < s.len() && (s[j] == '\'' || s[j] == '"') {
        lemma_run_end_bounds(s, j + 1, Stop::Quote(s[j]));
    }
}

/// The declaration's attributes end inside the input, past where they
/// start when they give the declaration.
pub proof fn lemma_declaration_attributes_bounds(
    s: Seq<char>,
    k: int,
    name: Seq<char>,
    version: Seq<char>,
    encoding: Option<Seq<char>>,
    standalone: Option<Seq<char>>,
)
    requires
        0 <= k <= s.len(),
    ensures
        declaration_attributes(s, k, name, version, encoding, standalone) matches Action::Return(
            i2,
            _,
            item,
        ) && k <= i2 <= s.len() && item is Some,
    decreases s.len() - k,
{
    if 0 <= k < s.len() && is_alpha(s[k]) {
        lemma_run_end_bounds(s, k, Stop::DeclarationAttribute);
        let e = run_end(s, k, Stop::DeclarationAttribute);
        if !(e < s.len() && s[e] == '?') {
            lemma_quoted_bounds(s, adv(s, e));
            if let Quoted::Value(v0, ve) = quoted(s, adv(s, e)) {
                lemma_run_end_bounds(s, adv(s, ve), Stop::NotSpace);
                let p3 = run_end(s, adv(s, ve), Stop::NotSpace);
                let v = s.subrange(v0, ve);
                lemma_declaration_attributes_bounds(s, p3, name, version, Some(v), standalone);
                lemma_declaration_attributes_bounds(s, p3, name, version, encoding, Some(v));
            }
        }
    } else {
        assert(declaration_close().len() == 2);
    }
}

/// What a state hands back lies inside the input and never moves back; a
/// token moves forward; nothing is handed back only at the end of the input.
pub proof fn lemma_action_bounds(s: Seq<char>, i: int, st: XmlState)
    requires
        0 <= i <= s.len(),
    ensures
        action(s, i, st) matches Action::Return(i2, _, item) ==> {
            &&& i <= i2 <= s.len()
            &&& item matches Some(Ok(_)) ==> i < i2
            &&& item is None ==> i == s.len() && st == XmlState::Normal
        },
{
    lemma_run_end_bounds(s, i, Stop::Text);
    lemma_run_end_bounds(s, i, Stop::TagName);
    lemma_run_end_bounds(s, i, Stop::EndTagName);
    lemma_run_end_bounds(s, i, Stop::NotSpace);
    lemma_run_end_bounds(s, i, Stop::Equals);
    lemma_run_end_bounds(s, i, Stop::DeclarationName);
    lemma_close_scan(s, i, 0, '-');
    lemma_close_scan(s, i, 0, ']');
    match st {
        XmlState::InsideAttribute => {
            let e = run_end(s, i, Stop::Equals);
            lemma_run_end_bounds(s, adv(s, e), Stop::NotSpace);
            let w = run_end(s, adv(s, e), Stop::NotSpace);
            lemma_quoted_bounds(s, w);
        },
        XmlState::InsideXmlDeclaration => {
            let e1 = run_end(s, i, Stop::DeclarationName);
            lemma_run_end_bounds(s, e1, Stop::NotSpace);
            let w1 = run_end(s, e1, Stop::NotSpace);
            lemma_run_end_bounds(s, w1, Stop::Equals);
            let e2 = run_end(s, w1, Stop::Equals);
            lemma_quoted_bounds(s, adv(s, e2));
            if let Quoted::Value(v0, ve) = quoted(s, adv(s, e2)) {
                lemma_run_end_bounds(s, adv(s, ve), Stop::NotSpace);
                lemma_declaration_attributes_bounds(
                    s,
                    run_end(s, adv(s, ve), Stop::NotSpace),
                    s.subrange(i, e1),
                    s.subrange(v0, ve),
                    None,
                    None,
                );
            }
        },
        _ => {},
    }
}

/// One call of `next` from position `i` in state `st`: nothing once the
/// input is used up, else what the states hand back.
pub open spec fn step(s: Seq<char>, i: int, st: XmlState) -> Action {
    if i >= s.len() {
        Action::Return(i, st, None)
    } else {
        run_states(s, i, st)
    }
}

/// The states from position `i` end inside the input, never moving back,
/// and move forward when they end with a token.
pub proof fn lemma_run_states_bounds(s: Seq<char>, i: int, st: XmlState)
    requires
        0 <= i <= s.len(),
    ensures
        run_states(s, i, st) matches Action::Return(i2, _, item) ==> {
            &&& i <= i2 <= s.len()
            &&& item matches Some(Ok(_)) ==> i < i2
            &&& item is None ==> i == s.len() && st == XmlState::Normal
        },
    decreases s.len() - i, rank(st),
{
    lemma_goto_progress(s, i, st);
    lemma_action_bounds(s, i, st);
    if let Action::Goto(i2, st2) = action(s, i, st) {
        lemma_run_states_bounds(s, i2, st2);
    }
}

/// Each call of `next` keeps the position inside the input and never moves
/// it back; a call that hands back a token moves it forward (an error may
/// leave it in place); a call hands back nothing exactly when the input is
/// used up.
pub proof fn law_step_moves_forward(s: Seq<char>, i: int, st: XmlState)
    requires
        0 <= i <= s.len(),
    ensures
        step(s, i, st) matches Action::Return(i2, _, item) ==> {
            &&& i <= i2 <= s.len()
            &&& item matches Some(Ok(_)) ==> i < i2
            &&& item is None <==> i == s.len()
        },
{
    if i < s.len() {
        lemma_run_states_bounds(s, i, st);
    }
}

/// Once the input is used up, `next` hands back nothing and changes nothing,
/// whatever the state.
pub proof fn law_exhausted_stays_exhausted(s: Seq<char>, st: XmlState)
    ensures
        step(s, s.len() as int, st) == Action::Return(s.len() as int, st, None),
{
}

/// The tokenizer: a cursor over the input and a state.
pub struct XmlTokenizer<'a> {
    cursor: StrCursor<'a>,
    state: XmlState,
}

/// How a state went: it handed back a result, or handed over to another
/// state.
enum Flow<'a> {
    Return(Option<Result<XmlToken<'a>, Error>>),
    Goto,
    Stop,
}

impl<'a> From<&'a str> for XmlTokenizer<'a> {
    fn from(value: &'a str) -> (t: Self)
        ensures
            t.wf(),
            t.input() == value@,
            t.at() == 0,
            t.current_state() == XmlState::Normal,
    {
        XmlTokenizer::new(value)
    }
}

impl<'a> vstd::std_specs::convert::FromSpecImpl<&'a str> for XmlTokenizer<'a> {
    open spec fn obeys_from_spec() -> bool {
        true
    }

    open spec fn from_spec(v: &'a str) -> Self {
        XmlTokenizer::fresh(v)
    }
}

impl<'a> XmlTokenizer<'a> {
    /// The characters of the input.
    pub closed spec fn input(&self) -> Seq<char> {
        self.cursor.input()
    }

    /// The current position, counted in characters.
    pub closed spec fn at(&self) -> int {
        self.cursor.at()
    }

    /// The current state.
    pub closed spec fn current_state(&self) -> XmlState {
        self.state
    }

    /// The cursor is well formed.
    pub closed spec fn wf(&self) -> bool {
        self.cursor.wf()
    }

    /// A well-formed tokenizer stands inside its input or at its end.
    pub proof fn lemma_wf(&self)
        requires
            self.wf(),
        ensures
            0 <= self.at() <= self.input().len(),
    {
        self.cursor.lemma_wf();
    }

    /// The tokenizer at the start of `v` in state `Normal`.
    pub closed spec fn fresh(v: &'a str) -> Self {
        XmlTokenizer { cursor: StrCursor::fresh(v), state: XmlState::Normal }
    }

    /// The tokenizer at the start of `value` in state `Normal`.
    pub fn new(value: &'a str) -> (t: Self)
        ensures
            t == Self::fresh(value),
            t.wf(),
            t.input() == value@,
            t.at() == 0,
            t.current_state() == XmlState::Normal,
    {
        XmlTokenizer { cursor: StrCursor::new(value), state: XmlState::Normal }
    }

    /// Reads the run of kind `k` from the current position; the run's text,
    /// or `None` when it is empty.
    fn consume_char_run(&mut self, k: Stop) -> (r: Option<&'a str>)
        requires
            old(self).wf(),
        ensures
            final(self).wf(),
            final(self).input() == old(self).input(),
            final(self).current_state() == old(self).current_state(),
            final(self).at() == run_end(old(self).input(), old(self).at(), k),
            match r {
                Some(t) => final(self).at() > old(self).at() && t@ == old(self).input().subrange(
                    old(self).at(),
                    final(self).at(),
                ),
                None => final(self).at() == old(self).at(),
            },
    {
        let mark = self.cursor;
        let ghost st0 = self.state;
        proof {
            self.cursor.lemma_wf();
        }
        loop
            invariant
                self.state == st0,
                self.cursor.wf(),
                mark.wf(),
                self.cursor.text() == mark.text(),
                self.cursor.input() == mark.input(),
                mark.at() <= self.cursor.at() <= mark.input().len(),
                run_end(mark.input(), mark.at(), k) == run_end(mark.input(), self.cursor.at(), k),
            ensures
                self.state == st0,
                self.cursor.wf(),
                self.cursor.text() == mark.text(),
                self.cursor.input() == mark.input(),
                mark.at() <= self.cursor.at(),
                run_end(mark.input(), mark.at(), k) == self.cursor.at(),
            decreases mark.input().len() - self.cursor.at(),
        {
            match self.cursor.peek() {
                Some(c) => {
                    if stops_at(k, c) {
                        break;
                    }
                    self.cursor.consume();
                },
                None => {
                    break;
                },
            }
        }
        if self.cursor.is_after(&mark) {
            Some(self.cursor.slice_from(&mark))
        } else {
            None
        }
    }
}


/// What a state did to the tokenizer: it moved it and handed back or over as
/// `action` says.
spec fn did(before: XmlTokenizer, after: XmlTokenizer, f: Flow) -> bool {
    &&& after.wf()
    &&& after.input() == before.input()
    &&& match action(before.input(), before.at(), before.current_state()) {
        Action::Return(i2, st2, item) => f matches Flow::Return(r) && after.at() == i2
            && after.current_state() == st2 && view_item(r) == item,
        Action::Goto(i2, st2) => f is Goto && after.at() == i2 && after.current_state() == st2,
        Action::Stuck => f is Stop,
    }
}

impl<'a> XmlTokenizer<'a> {
    /// Moves past the character at the current position, if any.
    fn consume(&mut self) -> (r: Option<char>)
        requires
            old(self).wf(),
        ensures
            final(self).wf(),
            final(self).input() == old(self).input(),
            final(self).current_state() == old(self).current_state(),
            final(self).at() == adv(old(self).input(), old(self).at()),
            old(self).at() < old(self).input().len() ==> r == Some(old(self).input()[old(self).at()]),
            old(self).at() >= old(self).input().len() ==> r is None,
    {
        proof {
            self.cursor.lemma_wf();
        }
        self.cursor.consume()
    }

    /// Moves past the spaces at the current position.
    fn consume_whitespaces(&mut self)
        requires
            old(self).wf(),
        ensures
            final(self).wf(),
            final(self).input() == old(self).input(),
            final(self).current_state() == old(self).current_state(),
            final(self).at() == run_end(old(self).input(), old(self).at(), Stop::NotSpace),
    {
        self.consume_char_run(Stop::NotSpace);
    }

    /// Moves past `n` characters, which the input holds.
    fn consume_n(&mut self, n: usize)
        requires
            old(self).wf(),
            old(self).at() + n <= old(self).input().len(),
        ensures
            final(self).wf(),
            final(self).input() == old(self).input(),
            final(self).current_state() == old(self).current_state(),
            final(self).at() == old(self).at() + n,
    {
        let mut k: usize = 0;
        let ghost i0 = self.at();
        let ghost st0 = self.state;
        let ghost s = self.input();
        while k < n
            invariant
                self.wf(),
                self.input() == s,
                self.state == st0,
                self.at() == i0 + k,
                k <= n,
                i0 + n <= s.len(),
            decreases n - k,
        {
            self.consume();
            k += 1;
        }
    }

    /// Reads a quoted value whose opening quote is expected at the current
    /// position (see `quoted`), leaving the closing quote unread.
    fn quoted_value(&mut self) -> (r: Result<&'a str, Error>)
        requires
            old(self).wf(),
        ensures
            final(self).wf(),
            final(self).input() == old(self).input(),
            final(self).current_state() == old(self).current_state(),
            match quoted(old(self).input(), old(self).at()) {
                Quoted::Value(v0, ve) => r matches Ok(v) && v@ == old(self).input().subrange(v0, ve)
                    && final(self).at() == ve,
                Quoted::Bad(p, e) => r == Err::<&str, Error>(e) && final(self).at() == p,
            },
    {
        match self.consume() {
            Some(q) => {
                if q == '\'' || q == '"' {
                    match self.consume_char_run(Stop::Quote(q)) {
                        Some(v) => Ok(v),
                        None => Err(Error::UnterminatedAttributeValueQuote),
                    }
                } else {
                    Err(Error::UnquotedAttributeValue)
                }
            },
            None => Err(Error::UnquotedAttributeValue),
        }
    }

    /// State `Normal`.
    fn normal_state(&mut self) -> (f: Flow<'a>)
        requires
            old(self).wf(),
            old(self).current_state() == XmlState::Normal,
        ensures
            did(*old(self), *final(self), f),
    {
        proof {
            self.lemma_wf();
            lemma_run_end_bounds(self.input(), self.at(), Stop::Text);
        }
        if let Some(tok) = self.consume_char_run(Stop::Text) {
            return Flow::Return(Some(Ok(XmlToken::Text(tok))));
        }
        match self.consume() {
            Some(c) => {
                if c == '<' {
                    self.state = XmlState::TagOpen;
                    Flow::Goto
                } else {
                    Flow::Return(Some(Err(Error::UnexpectedNullCharacter)))
                }
            },
            None => Flow::Return(None),
        }
    }

    /// State `TagOpen`.
    fn tag_open_state(&mut self) -> (f: Flow<'a>)
        requires
            old(self).wf(),
            old(self).current_state() == XmlState::TagOpen,
        ensures
            did(*old(self), *final(self), f),
    {
        proof {
            self.lemma_wf();
        }
        match self.cursor.peek() {
            Some(c) => {
                if c == '!' {
                    self.consume();
                    self.state = XmlState::TagOpenBang;
                } else if c == '?' {
                    self.state = XmlState::DeclarationStart;
                    self.consume();
                } else if c == '/' {
                    self.state = XmlState::EndTagName;
                    self.consume();
                } else if is_alpha_char(c) {
                    self.state = XmlState::StartTagName;
                } else {
                    return Flow::Stop;
                }
                Flow::Goto
            },
            None => Flow::Stop,
        }
    }

    /// State `TagOpenBang`.
    fn tag_open_bang_state(&mut self) -> (f: Flow<'a>)
        requires
            old(self).wf(),
            old(self).current_state() == XmlState::TagOpenBang,
        ensures
            did(*old(self), *final(self), f),
    {
        let dashes: [char; 2] = ['-', '-'];
        let cdata: [char; 7] = ['[', 'C', 'D', 'A', 'T', 'A', '['];
        let doctype: [char; 7] = ['D', 'O', 'C', 'T', 'Y', 'P', 'E'];
        proof {
            assert(dashes@ =~= comment_open_chars());
            assert(cdata@ =~= cdata_open_chars());
            assert(doctype@ =~= doctype_chars());
        }
        if self.cursor.looking_at(dashes.as_slice()) {
            self.consume_n(2);
            self.state = XmlState::InsideComment;
        } else if self.cursor.looking_at(cdata.as_slice()) {
            self.consume_n(7);
            self.state = XmlState::InsideCharacterData;
        } else if self.cursor.looking_at(doctype.as_slice()) {
            self.consume_n(7);
            self.state = XmlState::DocumentTypeStart;
        } else {
            return Flow::Stop;
        }
        Flow::Goto
    }

    /// State `DeclarationStart`.
    fn declaration_start_state(&mut self) -> (f: Flow<'a>)
        requires
            old(self).wf(),
            old(self).current_state() == XmlState::DeclarationStart,
        ensures
            did(*old(self), *final(self), f),
    {
        let xml: [char; 4] = ['x', 'm', 'l', ' '];
        proof {
            assert(xml@ =~= xml_chars());
        }
        if self.cursor.looking_at(xml.as_slice()) {
            self.state = XmlState::InsideXmlDeclaration;
        } else {
            self.state = XmlState::ProcessingInstructionStart;
        }
        Flow::Goto
    }

    /// State `StartTagName`.
    fn start_tag_name_state(&mut self) -> (f: Flow<'a>)
        requires
            old(self).wf(),
            old(self).current_state() == XmlState::StartTagName,
        ensures
            did(*old(self), *final(self), f),
    {
        if let Some(tok) = self.consume_char_run(Stop::TagName) {
            return Flow::Return(Some(Ok(XmlToken::StartTag { name: tok })));
        }
        match self.consume() {
            Some(c) => {
                if c == '>' {
                    self.state = XmlState::Normal;
                    Flow::Return(Some(Ok(XmlToken::TagEnd { self_closing: false })))
                } else if c == '/' {
                    self.state = XmlState::SelfClosingStartTag;
                    Flow::Goto
                } else {
                    self.state = XmlState::AfterStartTagName;
                    Flow::Goto
                }
            },
            None => Flow::Stop,
        }
    }

    /// State `EndTagName`.
    fn end_tag_name_state(&mut self) -> (f: Flow<'a>)
        requires
            old(self).wf(),
            old(self).current_state() == XmlState::EndTagName,
        ensures
            did(*old(self), *final(self), f),
    {
        if let Some(tok) = self.consume_char_run(Stop::EndTagName) {
            return Flow::Return(Some(Ok(XmlToken::EndTag { name: tok })));
        }
        self.consume_whitespaces();
        proof {
            self.lemma_wf();
        }
        match self.cursor.peek() {
            Some(c) => {
                if c != '>' {
                    return Flow::Stop;
                }
            },
            None => return Flow::Stop,
        }
        self.consume();
        self.state = XmlState::Normal;
        Flow::Return(Some(Ok(XmlToken::TagEnd { self_closing: false })))
    }

    /// State `SelfClosingStartTag`.
    fn self_closing_start_tag_state(&mut self) -> (f: Flow<'a>)
        requires
            old(self).wf(),
            old(self).current_state() == XmlState::SelfClosingStartTag,
        ensures
            did(*old(self), *final(self), f),
    {
        proof {
            self.lemma_wf();
        }
        match self.cursor.peek() {
            Some(c) => {
                if c != '>' {
                    return Flow::Stop;
                }
            },
            None => return Flow::Stop,
        }
        self.consume();
        self.state = XmlState::Normal;
        Flow::Return(Some(Ok(XmlToken::TagEnd { self_closing: true })))
    }

    /// State `AfterStartTagName`.
    fn after_start_tag_name_state(&mut self) -> (f: Flow<'a>)
        requires
            old(self).wf(),
            old(self).current_state() == XmlState::AfterStartTagName,
        ensures
            did(*old(self), *final(self), f),
    {
        self.consume_whitespaces();
        proof {
            self.lemma_wf();
        }
        match self.cursor.peek() {
            Some(c) => {
                if c == '>' || c == '/' {
                    self.state = XmlState::StartTagName;
                } else if is_alpha_char(c) {
                    self.state = XmlState::InsideAttribute;
                } else {
                    return Flow::Stop;
                }
            },
            None => return Flow::Stop,
        }
        Flow::Goto
    }

    /// State `InsideAttribute`.
    fn inside_attribute_state(&mut self) -> (f: Flow<'a>)
        requires
            old(self).wf(),
            old(self).current_state() == XmlState::InsideAttribute,
        ensures
            did(*old(self), *final(self), f),
    {
        let attribute_name = match self.consume_char_run(Stop::Equals) {
            Some(tok) => tok,
            None => return Flow::Return(Some(Err(Error::UnexpectedAttributeFormat))),
        };
        self.consume();
        self.consume_whitespaces();
        let attribute_value = match self.quoted_value() {
            Ok(v) => v,
            Err(e) => return Flow::Return(Some(Err(e))),
        };
        self.consume();
        self.state = XmlState::AfterStartTagName;
        Flow::Return(Some(Ok(XmlToken::Attribute { name: attribute_name, value: attribute_value })))
    }
}


impl<'a> XmlTokenizer<'a> {
    /// Reads up to the first `>` that follows exactly two characters `c`
    /// (see `close_scan`), and gives the text before those two; `None`, with
    /// the whole input read, when no such `>` comes.
    fn scan_to_close(&mut self, c: char) -> (r: Option<&'a str>)
        requires
            old(self).wf(),
        ensures
            final(self).wf(),
            final(self).input() == old(self).input(),
            final(self).current_state() == old(self).current_state(),
            match close_scan(old(self).input(), old(self).at(), 0, c) {
                Some(g) => r matches Some(v) && v@ == old(self).input().subrange(old(self).at(), g - 2)
                    && final(self).at() == g + 1,
                None => r is None && final(self).at() == old(self).input().len(),
            },
    {
        let ghost s = self.input();
        let ghost st0 = self.state;
        let mark = self.cursor;
        let mut run_start = self.cursor;
        let mut count: usize = 0;
        proof {
            self.cursor.lemma_wf();
        }
        loop
            invariant
                self.wf(),
                self.input() == s,
                s == old(self).input(),
                st0 == old(self).current_state(),
                mark.at() == old(self).at(),
                self.state == st0,
                mark.wf(),
                run_start.wf(),
                mark.text() == self.cursor.text(),
                run_start.text() == self.cursor.text(),
                mark.input() == s,
                run_start.input() == s,
                0 <= mark.at() <= self.at() <= s.len(),
                s.len() <= usize::MAX,
                count <= self.at() - mark.at(),
                count > 0 ==> run_start.at() == self.at() - count,
                close_scan(s, self.at(), count as int, c) == close_scan(s, mark.at(), 0, c),
            decreases s.len() - self.at(),
        {
            match self.cursor.peek() {
                Some(ch) => {
                    if ch == c {
                        if count == 0 {
                            run_start = self.cursor;
                        }
                        count += 1;
                        self.cursor.consume();
                    } else if ch == '>' && count == 2 {
                        proof {
                            assert(close_scan(s, self.at(), count as int, c) == Some(self.at()));
                        }
                        let v = run_start.slice_from(&mark);
                        self.cursor.consume();
                        return Some(v);
                    } else {
                        count = 0;
                        self.cursor.consume();
                    }
                },
                None => {
                    return None;
                },
            }
        }
    }

    /// State `InsideComment`.
    fn inside_comment_state(&mut self) -> (f: Flow<'a>)
        requires
            old(self).wf(),
            old(self).current_state() == XmlState::InsideComment,
        ensures
            did(*old(self), *final(self), f),
    {
        match self.scan_to_close('-') {
            Some(v) => {
                self.state = XmlState::Normal;
                Flow::Return(Some(Ok(XmlToken::Comment(v))))
            },
            None => Flow::Return(Some(Err(Error::UnterminatedComment))),
        }
    }

    /// State `InsideCharacterData`.
    fn inside_character_data_state(&mut self) -> (f: Flow<'a>)
        requires
            old(self).wf(),
            old(self).current_state() == XmlState::InsideCharacterData,
        ensures
            did(*old(self), *final(self), f),
    {
        match self.scan_to_close(']') {
            Some(v) => {
                self.state = XmlState::Normal;
                Flow::Return(Some(Ok(XmlToken::CharacterData(v))))
            },
            None => Flow::Return(Some(Err(Error::UnterminatedCharacterData))),
        }
    }

    /// State `InsideXmlDeclaration`.
    fn inside_xml_declaration_state(&mut self) -> (f: Flow<'a>)
        requires
            old(self).wf(),
            old(self).current_state() == XmlState::InsideXmlDeclaration,
        ensures
            did(*old(self), *final(self), f),
    {
        let ghost s = self.input();
        let ghost total = action(s, self.at(), self.state);
        let version: [char; 7] = ['v', 'e', 'r', 's', 'i', 'o', 'n'];
        let encoding: [char; 8] = ['e', 'n', 'c', 'o', 'd', 'i', 'n', 'g'];
        let standalone: [char; 10] = ['s', 't', 'a', 'n', 'd', 'a', 'l', 'o', 'n', 'e'];
        let close: [char; 2] = ['?', '>'];
        proof {
            assert(version@ =~= version_chars());
            assert(encoding@ =~= encoding_chars());
            assert(standalone@ =~= standalone_chars());
            assert(close@ =~= declaration_close());
        }
        let declaration_name = match self.consume_char_run(Stop::DeclarationName) {
            Some(tok) => tok,
            None => return Flow::Return(Some(Err(Error::UnexpectedXmlDeclarationFormat))),
        };
        self.consume_whitespaces();
        match self.consume_char_run(Stop::Equals) {
            Some(tok) => {
                if !str_is(tok, version.as_slice()) {
                    return Flow::Return(Some(Err(Error::UnexpectedXmlDeclarationFormat)));
                }
            },
            None => return Flow::Return(Some(Err(Error::UnexpectedXmlDeclarationFormat))),
        }
        self.consume();
        let version_value = match self.quoted_value() {
            Ok(v) => v,
            Err(e) => return Flow::Return(Some(Err(e))),
        };
        self.consume();
        self.consume_whitespaces();
        let mut encoding_value: Option<&'a str> = None;
        let mut standalone_value: Option<&'a str> = None;
        loop
            invariant
                self.wf(),
                self.input() == s,
                s == old(self).input(),
                total == action(old(self).input(), old(self).at(), old(self).current_state()),
                self.state == XmlState::InsideXmlDeclaration,
                encoding@ == encoding_chars(),
                standalone@ == standalone_chars(),
                declaration_attributes(
                    s,
                    self.at(),
                    declaration_name@,
                    version_value@,
                    view_opt(encoding_value),
                    view_opt(standalone_value),
                ) == total,
            ensures
                self.wf(),
                self.input() == s,
                self.state == XmlState::InsideXmlDeclaration,
                !(0 <= self.at() < s.len() && is_alpha(s[self.at()])),
                declaration_attributes(
                    s,
                    self.at(),
                    declaration_name@,
                    version_value@,
                    view_opt(encoding_value),
                    view_opt(standalone_value),
                ) == total,
            decreases s.len() - self.at(),
        {
            proof {
                self.lemma_wf();
            }
            let ghost k = self.at();
            let ghost enc0 = view_opt(encoding_value);
            let ghost sa0 = view_opt(standalone_value);
            proof {
                reveal_with_fuel(declaration_attributes, 2);
                assert(declaration_attributes(s, k, declaration_name@, version_value@, enc0, sa0)
                    == total);
            }
            match self.cursor.peek() {
                Some(c) => {
                    if !is_alpha_char(c) {
                        break;
                    }
                },
                None => {
                    break;
                },
            }
            proof {
                lemma_run_end_bounds(s, k, Stop::DeclarationAttribute);
            }
            let attribute_name = match self.consume_char_run(Stop::DeclarationAttribute) {
                Some(tok) => tok,
                None => return Flow::Return(Some(Err(Error::UnexpectedXmlDeclarationFormat))),
            };
            if let Some(c2) = self.consume() {
                if c2 == '?' {
                    return Flow::Return(Some(Err(Error::UnexpectedXmlDeclarationFormat)));
                }
            }
            let ghost q = self.at();
            let attribute_value = match self.quoted_value() {
                Ok(v) => v,
                Err(e) => return Flow::Return(Some(Err(e))),
            };
            proof {
                lemma_run_end_bounds(s, q + 1, Stop::Quote(s[q]));
            }
            self.consume();
            proof {
                self.lemma_wf();
                lemma_run_end_bounds(s, self.at(), Stop::NotSpace);
            }
            self.consume_whitespaces();
            if str_is(attribute_name, encoding.as_slice()) {
                encoding_value = Some(attribute_value);
            } else if str_is(attribute_name, standalone.as_slice()) {
                standalone_value = Some(attribute_value);
            } else {
                return Flow::Return(Some(Err(Error::UnexpectedXmlDeclarationAttribute)));
            }
        }
        if self.cursor.looking_at(close.as_slice()) {
            self.consume();
            self.consume();
        }
        self.state = XmlState::Normal;
        Flow::Return(
            Some(
                Ok(
                    XmlToken::Declaration {
                        name: declaration_name,
                        version: version_value,
                        encoding: encoding_value,
                        standalone: standalone_value,
                    },
                ),
            ),
        )
    }
}


impl<'a> XmlTokenizer<'a> {
    /// Runs the current state once.
    fn act(&mut self) -> (f: Flow<'a>)
        requires
            old(self).wf(),
        ensures
            did(*old(self), *final(self), f),
    {
        match self.state {
            XmlState::Normal => self.normal_state(),
            XmlState::TagOpen => self.tag_open_state(),
            XmlState::TagOpenBang => self.tag_open_bang_state(),
            XmlState::InsideComment => self.inside_comment_state(),
            XmlState::InsideCharacterData => self.inside_character_data_state(),
            XmlState::DeclarationStart => self.declaration_start_state(),
            XmlState::InsideXmlDeclaration => self.inside_xml_declaration_state(),
            XmlState::ProcessingInstructionStart => Flow::Stop,
            XmlState::StartTagName => self.start_tag_name_state(),
            XmlState::EndTagName => self.end_tag_name_state(),
            XmlState::SelfClosingStartTag => self.self_closing_start_tag_state(),
            XmlState::AfterStartTagName => self.after_start_tag_name_state(),
            XmlState::InsideAttribute => self.inside_attribute_state(),
            XmlState::DocumentTypeStart => Flow::Stop,
        }
    }

    /// Runs the states from the current one until one hands back a result
    /// (`Some`) or stops (`None`).
    fn run(&mut self) -> (r: Option<Option<Result<XmlToken<'a>, Error>>>)
        requires
            old(self).wf(),
        ensures
            final(self).wf(),
            final(self).input() == old(self).input(),
            match run_states(old(self).input(), old(self).at(), old(self).current_state()) {
                Action::Return(i2, st2, item) => r matches Some(x) && final(self).at() == i2
                    && final(self).current_state() == st2 && view_item(x) == item,
                _ => r is None,
            },
    {
        let ghost s = self.input();
        let ghost total = run_states(s, self.at(), self.state);
        loop
            invariant
                self.wf(),
                self.input() == s,
                s == old(self).input(),
                total == run_states(old(self).input(), old(self).at(), old(self).current_state()),
                run_states(s, self.at(), self.state) == total,
            decreases s.len() - self.at(), rank(self.state),
        {
            proof {
                self.lemma_wf();
                lemma_goto_progress(s, self.at(), self.state);
            }
            match self.act() {
                Flow::Return(r) => {
                    return Some(r);
                },
                Flow::Goto => {},
                Flow::Stop => {
                    return None;
                },
            }
        }
    }

    /// Whether the next call of `next` would stop the program: it would come
    /// to a processing instruction, a document type, or a character it has
    /// no rule for.
    pub fn halts_next(&self) -> (r: bool)
        requires
            self.wf(),
        ensures
            r == (step(self.input(), self.at(), self.current_state()) is Stuck),
    {
        proof {
            self.lemma_wf();
        }
        if self.cursor.is_end() {
            return false;
        }
        proof {
            lemma_run_states_ends(self.input(), self.at(), self.state);
        }
        let mut copy = XmlTokenizer { cursor: self.cursor, state: self.state };
        copy.run().is_none()
    }

    /// Reads the next token; `None` once the input is used up. The states
    /// hand over to each other as `step` says until one hands back a token or
    /// an error.
    pub fn next(&mut self) -> (r: Option<Result<XmlToken<'a>, Error>>)
        requires
            old(self).wf(),
            !(step(old(self).input(), old(self).at(), old(self).current_state()) is Stuck),
        ensures
            final(self).wf(),
            final(self).input() == old(self).input(),
            step(old(self).input(), old(self).at(), old(self).current_state()) matches Action::Return(
                i2,
                st2,
                item,
            ) && final(self).at() == i2 && final(self).current_state() == st2 && view_item(r) == item,
    {
        proof {
            self.lemma_wf();
        }
        if self.cursor.is_end() {
            return None;
        }
        proof {
            lemma_run_states_ends(self.input(), self.at(), self.state);
        }
        match self.run() {
            Some(r) => r,
            None => None,
        }
    }
}

/// `s` holds from position `j` an attribute named `an`, an `=` and a quoted
/// value whose text is `v`.
pub open spec fn attribute_written(s: Seq<char>, j: int, an: Seq<char>, v: Seq<char>) -> bool {
    &&& 0 <= j
    &&& chars_at(s, j, an)
    &&& j + an.len() < s.len()
    &&& s[j + an.len()] == '='
    &&& quoted(s, j + an.len() + 1) matches Quoted::Value(v0, ve) && s.subrange(v0, ve) == v
}

/// A field of the declaration is what it was before position `k`, or the
/// value of an attribute named `an` written from `k` on.
pub open spec fn from_attribute(
    s: Seq<char>,
    k: int,
    an: Seq<char>,
    before: Option<Seq<char>>,
    field: Option<Seq<char>>,
) -> bool {
    field == before || (field matches Some(v) && exists|j: int| k <= j && attribute_written(s, j, an, v))
}

/// The optional attributes of the XML declaration fill only their own
/// fields: the declaration's `encoding` is what it was or the value of an
/// `encoding` attribute, its `standalone` what it was or the value of a
/// `standalone` attribute, and its name and version are left alone.
pub proof fn law_declaration_fields_come_from_their_attributes(
    s: Seq<char>,
    k: int,
    name: Seq<char>,
    version: Seq<char>,
    encoding: Option<Seq<char>>,
    standalone: Option<Seq<char>>,
)
    requires
        0 <= k <= s.len(),
    ensures
        declaration_attributes(s, k, name, version, encoding, standalone) matches Action::Return(
            _,
            _,
            Some(Ok(TokenView::Declaration { name: n2, version: v2, encoding: e2, standalone: s2 })),
        ) ==> {
            &&& n2 == name
            &&& v2 == version
            &&& from_attribute(s, k, seq!['e', 'n', 'c', 'o', 'd', 'i', 'n', 'g'], encoding, e2)
            &&& from_attribute(
                s,
                k,
                seq!['s', 't', 'a', 'n', 'd', 'a', 'l', 'o', 'n', 'e'],
                standalone,
                s2,
            )
        },
    decreases s.len() - k,
{
    let enc = seq!['e', 'n', 'c', 'o', 'd', 'i', 'n', 'g'];
    let sta = seq!['s', 't', 'a', 'n', 'd', 'a', 'l', 'o', 'n', 'e'];
    assert(enc =~= encoding_chars());
    assert(sta =~= standalone_chars());
    if 0 <= k < s.len() && is_alpha(s[k]) {
        lemma_run_end_bounds(s, k, Stop::DeclarationAttribute);
        let e = run_end(s, k, Stop::DeclarationAttribute);
        if !(e < s.len() && s[e] == '?') {
            lemma_quoted_bounds(s, adv(s, e));
            if let Quoted::Value(v0, ve) = quoted(s, adv(s, e)) {
                assert(e < s.len());
                assert(s[e] == '=');
                lemma_run_end_bounds(s, adv(s, ve), Stop::NotSpace);
                let p3 = run_end(s, adv(s, ve), Stop::NotSpace);
                let an = s.subrange(k, e);
                let v = s.subrange(v0, ve);
                if an == encoding_chars() {
                    law_declaration_fields_come_from_their_attributes(s, p3, name, version, Some(v), standalone);
                    assert(an.len() == 8);
                    assert(chars_at(s, k, enc));
                    assert(attribute_written(s, k, enc, v));
                    let r = declaration_attributes(s, p3, name, version, Some(v), standalone);
                    if let Action::Return(_, _, Some(Ok(TokenView::Declaration { name: n2, version: v2, encoding: e2, standalone: s2 }))) = r {
                        if e2 != Some(v) {
                            let j = choose|j: int| p3 <= j && attribute_written(s, j, enc, e2->0);
                            assert(k <= j && attribute_written(s, j, enc, e2->0));
                        } else {
                            assert(attribute_written(s, k, enc, e2->0));
                        }
                        assert(from_attribute(s, k, enc, encoding, e2));
                        if s2 != standalone {
                            let j = choose|j: int| p3 <= j && attribute_written(s, j, sta, s2->0);
                            assert(k <= j && attribute_written(s, j, sta, s2->0));
                        }
                        assert(from_attribute(s, k, sta, standalone, s2));
                    }
                } else if an == standalone_chars() {
                    law_declaration_fields_come_from_their_attributes(s, p3, name, version, encoding, Some(v));
                    assert(an.len() == 10);
                    assert(chars_at(s, k, sta));
                    assert(attribute_written(s, k, sta, v));
                    let r = declaration_attributes(s, p3, name, version, encoding, Some(v));
                    if let Action::Return(_, _, Some(Ok(TokenView::Declaration { name: n2, version: v2, encoding: e2, standalone: s2 }))) = r {
                        if s2 != Some(v) {
                            let j = choose|j: int| p3 <= j && attribute_written(s, j, sta, s2->0);
                            assert(k <= j && attribute_written(s, j, sta, s2->0));
                        } else {
                            assert(attribute_written(s, k, sta, s2->0));
                        }
                        assert(from_attribute(s, k, sta, standalone, s2));
                        if e2 != encoding {
                            let j = choose|j: int| p3 <= j && attribute_written(s, j, enc, e2->0);
                            assert(k <= j && attribute_written(s, j, enc, e2->0));
                        }
                        assert(from_attribute(s, k, enc, encoding, e2));
                    }
                }
            }
        }
    }
}

/// The XML declaration read from position `i` has an `encoding` only where
/// an `encoding` attribute is written in it, holding that attribute's
/// value, and a `standalone` only where a `standalone` attribute is, holding
/// that one's value.
pub proof fn law_declaration_reads_its_attributes(s: Seq<char>, i: int)
    requires
        0 <= i <= s.len(),
    ensures
        inside_xml_declaration(s, i) matches Action::Return(
            _,
            _,
            Some(Ok(TokenView::Declaration { encoding: e2, standalone: s2, .. })),
        ) ==> {
            &&& from_attribute(s, i, seq!['e', 'n', 'c', 'o', 'd', 'i', 'n', 'g'], None, e2)
            &&& from_attribute(s, i, seq!['s', 't', 'a', 'n', 'd', 'a', 'l', 'o', 'n', 'e'], None, s2)
        },
{
    let e1 = run_end(s, i, Stop::DeclarationName);
    lemma_run_end_bounds(s, i, Stop::DeclarationName);
    if e1 != i {
        lemma_run_end_bounds(s, e1, Stop::NotSpace);
        let w1 = run_end(s, e1, Stop::NotSpace);
        lemma_run_end_bounds(s, w1, Stop::Equals);
        let e2 = run_end(s, w1, Stop::Equals);
        lemma_quoted_bounds(s, adv(s, e2));
        if let Quoted::Value(v0, ve) = quoted(s, adv(s, e2)) {
            lemma_run_end_bounds(s, adv(s, ve), Stop::NotSpace);
            let k = run_end(s, adv(s, ve), Stop::NotSpace);
            law_declaration_fields_come_from_their_attributes(
                s,
                k,
                s.subrange(i, e1),
                s.subrange(v0, ve),
                None,
                None,
            );
            let r = declaration_attributes(s, k, s.subrange(i, e1), s.subrange(v0, ve), None, None);
            if let Action::Return(_, _, Some(Ok(TokenView::Declaration { encoding: ee, standalone: ss, .. }))) = r {
                if ee is Some {
                    let j = choose|j: int|
                        k <= j && attribute_written(s, j, seq!['e', 'n', 'c', 'o', 'd', 'i', 'n', 'g'], ee->0);
                    assert(i <= j);
                }
                if ss is Some {
                    let j = choose|j: int|
                        k <= j && attribute_written(
                            s,
                            j,
                            seq!['s', 't', 'a', 'n', 'd', 'a', 'l', 'o', 'n', 'e'],
                            ss->0,
                        );
                    assert(i <= j);
                }
            }
        }
    }
}

} // verus!
