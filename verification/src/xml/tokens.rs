//! An XML tokenizer built on the byte scanner; its tokens borrow from the input.
use vstd::prelude::*;
use crate::text::{utf8_lossy, lossy_string};
use crate::bs::{
    Scanner, ascii, run_end, run_stop, lemma_run_stop, lemma_run_end_exists, lemma_until_byte_bounds,
    first_occurrence, until_byte, lemma_until_byte, byte_run_end,
    occurs_at, find_from, lemma_find_from_some, lemma_find_from_none, comment_end, cdata_end,
    is_space, ends_tag_name, ends_attribute_name, SPACE, DQUOTE, APOS, DASH, SLASH, LT, EQUALS, GT,
    QUESTION, LBRACKET, RBRACKET, BANG,
};
use crate::xml::errors::{Error, ErrorKind};

verus! {

/// The two kinds of external identifier.
#[derive(Debug, PartialEq, Eq, Structural, Clone, Copy)]
pub enum ExternalIdentifier {
    System,
    Public,
}

impl ExternalIdentifier {
    /// `SYSTEM` or `PUBLIC`.
    pub fn to_string(&self) -> (s: String)
        ensures
            s@ == identifier_text(*self),
    {
        match self {
            ExternalIdentifier::System => String::from_str("SYSTEM"),
            ExternalIdentifier::Public => String::from_str("PUBLIC"),
        }
    }
}

/// A token; every slice in it borrows from the input.
#[derive(Debug, PartialEq, Eq)]
pub enum XmlToken<'a> {
    Declaration(&'a [u8]),
    DeclarationTagEnd,
    ProcessingInstruction { target: &'a [u8], data: &'a [u8] },
    DocumentType(&'a [u8]),
    ExternalIdentifier { identifier_type: ExternalIdentifier, literal: &'a [u8] },
    InternalSubsetTagStart,
    EntityDeclaration { name: &'a [u8], identifier: ExternalIdentifier, literal: &'a [u8] },
    InternalSubsetTagEnd,
    DocumentTypeTagEnd,
    StartTag(&'a [u8]),
    Attribute { name: &'a [u8], value: &'a [u8] },
    TagEnd { self_closing: bool },
    EndTag(&'a [u8]),
    Text(&'a [u8]),
    Comment(&'a [u8]),
    CharacterData(&'a [u8]),
}

/// A token with its slices taken as byte sequences.
pub enum TokenView {
    Declaration(Seq<u8>),
    DeclarationTagEnd,
    ProcessingInstruction { target: Seq<u8>, data: Seq<u8> },
    DocumentType(Seq<u8>),
    ExternalIdentifier { identifier_type: ExternalIdentifier, literal: Seq<u8> },
    InternalSubsetTagStart,
    EntityDeclaration { name: Seq<u8>, identifier: ExternalIdentifier, literal: Seq<u8> },
    InternalSubsetTagEnd,
    DocumentTypeTagEnd,
    StartTag(Seq<u8>),
    Attribute { name: Seq<u8>, value: Seq<u8> },
    TagEnd { self_closing: bool },
    EndTag(Seq<u8>),
    Text(Seq<u8>),
    Comment(Seq<u8>),
    CharacterData(Seq<u8>),
}

impl<'a> View for XmlToken<'a> {
    type V = TokenView;

    open spec fn view(&self) -> TokenView {
        match self {
            XmlToken::Declaration(b) => TokenView::Declaration(b@),
            XmlToken::DeclarationTagEnd => TokenView::DeclarationTagEnd,
            XmlToken::ProcessingInstruction { target, data } => TokenView::ProcessingInstruction {
                target: target@,
                data: data@,
            },
            XmlToken::DocumentType(b) => TokenView::DocumentType(b@),
            XmlToken::ExternalIdentifier { identifier_type, literal } =>
                TokenView::ExternalIdentifier { identifier_type: *identifier_type, literal: literal@ },
            XmlToken::InternalSubsetTagStart => TokenView::InternalSubsetTagStart,
            XmlToken::EntityDeclaration { name, identifier, literal } =>
                TokenView::EntityDeclaration {
                    name: name@,
                    identifier: *identifier,
                    literal: literal@,
                },
            XmlToken::InternalSubsetTagEnd => TokenView::InternalSubsetTagEnd,
            XmlToken::DocumentTypeTagEnd => TokenView::DocumentTypeTagEnd,
            XmlToken::StartTag(b) => TokenView::StartTag(b@),
            XmlToken::Attribute { name, value } => TokenView::Attribute {
                name: name@,
                value: value@,
            },
            XmlToken::TagEnd { self_closing } => TokenView::TagEnd { self_closing: *self_closing },
            XmlToken::EndTag(b) => TokenView::EndTag(b@),
            XmlToken::Text(b) => TokenView::Text(b@),
            XmlToken::Comment(b) => TokenView::Comment(b@),
            XmlToken::CharacterData(b) => TokenView::CharacterData(b@),
        }
    }
}


/// An external identifier's keyword.
pub open spec fn identifier_text(i: ExternalIdentifier) -> Seq<char> {
    match i {
        ExternalIdentifier::System => "SYSTEM"@,
        ExternalIdentifier::Public => "PUBLIC"@,
    }
}

/// A token as text: its kind and, in brackets, its parts, each slice read as
/// UTF-8 with invalid sequences replaced.
pub open spec fn token_text(t: TokenView) -> Seq<char> {
    match t {
        TokenView::Declaration(b) => "Declaration("@ + utf8_lossy(b) + ")"@,
        TokenView::DeclarationTagEnd => "DeclarationTagEnd"@,
        TokenView::ProcessingInstruction { target, data } => "ProcessingInstruction(target="@ + utf8_lossy(target) + ", data="@ + utf8_lossy(data) + ")"@,
        TokenView::DocumentType(b) => "DocumentType("@ + utf8_lossy(b) + ")"@,
        TokenView::ExternalIdentifier { identifier_type, literal } => "ExternalIdentifier(type="@ + identifier_text(identifier_type) + ", literal="@ + utf8_lossy(literal) + ")"@,
        TokenView::InternalSubsetTagStart => "InternalSubsetTagStart"@,
        TokenView::EntityDeclaration { name, identifier, literal } => "EntityDeclaration(name="@ + utf8_lossy(name) + ", identifier="@ + identifier_text(identifier) + ", literal="@ + utf8_lossy(literal) + ")"@,
        TokenView::InternalSubsetTagEnd => "InternalSubsetTagEnd"@,
        TokenView::DocumentTypeTagEnd => "DocumentTypeTagEnd"@,
        TokenView::StartTag(b) => "StartTag("@ + utf8_lossy(b) + ")"@,
        TokenView::Attribute { name, value } => "Attribute(name="@ + utf8_lossy(name) + ", value="@ + utf8_lossy(value) + ")"@,
        TokenView::TagEnd { self_closing } => "TagEnd("@ + (if self_closing { "true"@ } else { "false"@ }) + ")"@,
        TokenView::EndTag(b) => "EndTag("@ + utf8_lossy(b) + ")"@,
        TokenView::Text(b) => "Text("@ + utf8_lossy(b) + ")"@,
        TokenView::Comment(b) => "Comment("@ + utf8_lossy(b) + ")"@,
        TokenView::CharacterData(b) => "CData("@ + utf8_lossy(b) + ")"@,
    }
}

/// `label`, the bytes read as UTF-8 with invalid sequences replaced, and `)`.
fn bracketed(label: &str, b: &[u8]) -> (s: String)
    ensures
        s@ == label@ + utf8_lossy(b@) + ")"@,
{
    let mut s = String::from_str(label);
    let t = lossy_string(b);
    s.append(t.as_str());
    s.append(")");
    s
}

impl<'a> XmlToken<'a> {
    /// The token as text (see `token_text`).
    pub fn to_string(&self) -> (s: String)
        ensures
            s@ == token_text(self@),
    {
        match self {
            XmlToken::Declaration(b) => bracketed("Declaration(", b),
            XmlToken::DeclarationTagEnd => String::from_str("DeclarationTagEnd"),
            XmlToken::ProcessingInstruction { target, data } => {
                let mut s = String::from_str("ProcessingInstruction(target=");
                let a = lossy_string(target);
                s.append(a.as_str());
                s.append(", data=");
                let b = lossy_string(data);
                s.append(b.as_str());
                s.append(")");
                s
            },
            XmlToken::DocumentType(b) => bracketed("DocumentType(", b),
            XmlToken::ExternalIdentifier { identifier_type, literal } => {
                let mut s = String::from_str("ExternalIdentifier(type=");
                let a = identifier_type.to_string();
                s.append(a.as_str());
                s.append(", literal=");
                let b = lossy_string(literal);
                s.append(b.as_str());
                s.append(")");
                s
            },
            XmlToken::InternalSubsetTagStart => String::from_str("InternalSubsetTagStart"),
            XmlToken::EntityDeclaration { name, identifier, literal } => {
                let mut s = String::from_str("EntityDeclaration(name=");
                let a = lossy_string(name);
                s.append(a.as_str());
                s.append(", identifier=");
                let b = identifier.to_string();
                s.append(b.as_str());
                s.append(", literal=");
                let c = lossy_string(literal);
                s.append(c.as_str());
                s.append(")");
                s
            },
            XmlToken::InternalSubsetTagEnd => String::from_str("InternalSubsetTagEnd"),
            XmlToken::DocumentTypeTagEnd => String::from_str("DocumentTypeTagEnd"),
            XmlToken::StartTag(b) => bracketed("StartTag(", b),
            XmlToken::Attribute { name, value } => {
                let mut s = String::from_str("Attribute(name=");
                let a = lossy_string(name);
                s.append(a.as_str());
                s.append(", value=");
                let b = lossy_string(value);
                s.append(b.as_str());
                s.append(")");
                s
            },
            XmlToken::TagEnd { self_closing } => {
                let mut s = String::from_str("TagEnd(");
                if *self_closing {
                    s.append("true");
                } else {
                    s.append("false");
                }
                s.append(")");
                s
            },
            XmlToken::EndTag(b) => bracketed("EndTag(", b),
            XmlToken::Text(b) => bracketed("Text(", b),
            XmlToken::Comment(b) => bracketed("Comment(", b),
            XmlToken::CharacterData(b) => bracketed("CData(", b),
        }
    }
}

/// What one step of the tokenizer hands back, with its token viewed.
pub open spec fn view_item(r: Option<Result<XmlToken, Error>>) -> Option<Result<TokenView, Error>> {
    match r {
        None => None,
        Some(Ok(t)) => Some(Ok(t@)),
        Some(Err(e)) => Some(Err(e)),
    }
}

/// Where the tokenizer stands: reading content, inside `<?xml ... ?>`, after a
/// start tag's name, after a document type's name, or inside an internal subset.
#[derive(Debug, PartialEq, Eq, Structural, Clone, Copy)]
pub enum XmlState {
    Normal,
    InsideXmlDeclaration,
    AfterStartTagName,
    AfterDoctypeName,
    InsideInternalSubset,
}

/// The tokenizer.
pub struct XmlTokenizer<'a> {
    scanner: Scanner<'a>,
    state: XmlState,
}

// ---------------------------------------------------------------------------
// The rules, over the input bytes `s` and a position `p`.

/// A step's result, the position and the state after it.
pub type Step = (int, XmlState, Option<Result<TokenView, Error>>);

/// A step that reports error `k` at position `p`.
pub open spec fn fail(p: int, st: XmlState, k: ErrorKind) -> Step {
    (p, st, Some(Err(Error { kind: k, pos: p as usize })))
}

/// A step that hands out token `t`.
pub open spec fn emit(p: int, st: XmlState, t: TokenView) -> Step {
    (p, st, Some(Ok(t)))
}

/// Where the spaces, tabs, line feeds and carriage returns at `p` end.
pub open spec fn skip(s: Seq<u8>, p: int) -> int {
    run_stop(s, p, |b: u8| !is_space(b))
}

/// Where the tag name at `p` ends.
pub open spec fn name_end(s: Seq<u8>, p: int) -> int {
    run_stop(s, p, |b: u8| ends_tag_name(b))
}

/// Where an external identifier's literal at `p` ends: before `>` or `[`.
pub open spec fn literal_end(s: Seq<u8>, p: int) -> int {
    run_stop(s, p, |b: u8| b == GT || b == LBRACKET)
}

/// `name = "value"` (or with `'`) at `p`, read in state `st`.
pub open spec fn attribute(s: Seq<u8>, p: int, st: XmlState) -> Step {
    let e = run_stop(s, p, |b: u8| ends_attribute_name(b));
    if e >= s.len() {
        fail(p, st, ErrorKind::UnterminatedAttributeName)
    } else {
        let w = skip(s, e);
        if w >= s.len() {
            fail(w, st, ErrorKind::UnexpectedEndOfFile)
        } else if s[w] != EQUALS {
            fail(w, st, ErrorKind::UnexpectedAttributeFormat)
        } else {
            let w2 = skip(s, w + 1);
            if w2 >= s.len() {
                fail(w2, st, ErrorKind::UnexpectedEndOfFile)
            } else if s[w2] != APOS && s[w2] != DQUOTE {
                fail(w2, st, ErrorKind::UnexpectedAttributeFormat)
            } else {
                let v = until_byte(s, w2 + 1, s[w2]);
                if v >= s.len() {
                    fail(w2 + 1, st, ErrorKind::UnterminatedAttributeValue)
                } else {
                    emit(
                        v + 1,
                        st,
                        TokenView::Attribute { name: s.subrange(p, e), value: s.subrange(w2 + 1, v) },
                    )
                }
            }
        }
    }
}

/// A comment body at `p`, read in state `st`.
pub open spec fn comment(s: Seq<u8>, p: int, st: XmlState) -> Step {
    match find_from(s, p, comment_end()) {
        Some(i) => emit(i + 3, st, TokenView::Comment(s.subrange(p, i))),
        None => fail(p, st, ErrorKind::UnterminatedComment),
    }
}

/// A CDATA body at `p`.
pub open spec fn cdata(s: Seq<u8>, p: int) -> Step {
    match find_from(s, p, cdata_end()) {
        Some(i) => emit(i + 3, XmlState::Normal, TokenView::CharacterData(s.subrange(p, i))),
        None => fail(p, XmlState::Normal, ErrorKind::UnterminatedCharacterData),
    }
}

/// A document type's name, after `<!DOCTYPE` ends at `p`.
pub open spec fn doctype(s: Seq<u8>, p: int) -> Step {
    let w = skip(s, p);
    if w >= s.len() {
        fail(w, XmlState::Normal, ErrorKind::UnexpectedEndOfFile)
    } else {
        let e = name_end(s, w);
        if e >= s.len() {
            fail(w, XmlState::Normal, ErrorKind::UnterminatedDocumentType)
        } else {
            emit(e, XmlState::Normal, TokenView::DocumentType(s.subrange(w, e)))
        }
    }
}

/// A processing instruction, after `<?` ends at `p`.
pub open spec fn instruction(s: Seq<u8>, p: int) -> Step {
    let w = skip(s, p);
    if w >= s.len() {
        fail(w, XmlState::Normal, ErrorKind::UnexpectedEndOfFile)
    } else {
        let e = name_end(s, w);
        if e >= s.len() {
            fail(w, XmlState::Normal, ErrorKind::UnterminatedDeclaration)
        } else {
            let w2 = skip(s, e);
            if w2 >= s.len() {
                fail(w2, XmlState::Normal, ErrorKind::UnexpectedEndOfFile)
            } else {
                let d = until_byte(s, w2, QUESTION);
                if d >= s.len() {
                    fail(w2, XmlState::Normal, ErrorKind::UnterminatedDeclaration)
                } else if !occurs_at(s, d, seq![QUESTION, GT]) {
                    fail(d, XmlState::Normal, ErrorKind::UnterminatedDeclaration)
                } else {
                    emit(
                        d + 2,
                        XmlState::Normal,
                        TokenView::ProcessingInstruction {
                            target: s.subrange(w, e),
                            data: s.subrange(w2, d),
                        },
                    )
                }
            }
        }
    }
}

/// An end tag, after `</` ends at `p`: its name, then everything up to `>`.
pub open spec fn end_tag(s: Seq<u8>, p: int) -> Step {
    let e = name_end(s, p);
    if e >= s.len() {
        fail(p, XmlState::Normal, ErrorKind::UnterminatedTagName)
    } else {
        let g = until_byte(s, e, GT);
        if g >= s.len() {
            fail(e, XmlState::Normal, ErrorKind::UnterminatedTag)
        } else {
            emit(g + 1, XmlState::Normal, TokenView::EndTag(s.subrange(p, e)))
        }
    }
}

/// A start tag's name, after `<` ends at `p`.
pub open spec fn start_tag(s: Seq<u8>, p: int) -> Step {
    let e = name_end(s, p);
    if e >= s.len() {
        fail(p, XmlState::Normal, ErrorKind::UnterminatedTagName)
    } else {
        emit(e, XmlState::AfterStartTagName, TokenView::StartTag(s.subrange(p, e)))
    }
}

/// `<!--`.
pub open spec fn comment_open() -> Seq<u8> {
    seq![LT, BANG, DASH, DASH]
}

/// `<![CDATA[`.
pub open spec fn cdata_open() -> Seq<u8> {
    ascii("<![CDATA["@)
}

/// `<!DOCTYPE`.
pub open spec fn doctype_open() -> Seq<u8> {
    ascii("<!DOCTYPE"@)
}

/// `<?xml ` (with the trailing space).
pub open spec fn xml_decl_open() -> Seq<u8> {
    ascii("<?xml "@)
}

/// `<!ENTITY`.
pub open spec fn entity_open() -> Seq<u8> {
    ascii("<!ENTITY"@)
}

/// One step in state `Normal` at a position inside the input.
pub open spec fn normal(s: Seq<u8>, p: int) -> Step {
    if s[p] != LT {
        let e = until_byte(s, p, LT);
        emit(e, XmlState::Normal, TokenView::Text(s.subrange(p, e)))
    } else if occurs_at(s, p, comment_open()) {
        comment(s, p + 4, XmlState::Normal)
    } else if occurs_at(s, p, cdata_open()) {
        cdata(s, p + 9)
    } else if occurs_at(s, p, doctype_open()) {
        doctype(s, p + 9)
    } else if occurs_at(s, p, xml_decl_open()) {
        emit(p + 5, XmlState::InsideXmlDeclaration, TokenView::Declaration(ascii("xml"@)))
    } else if occurs_at(s, p, seq![LT, QUESTION]) {
        instruction(s, p + 2)
    } else if occurs_at(s, p, seq![LT, SLASH]) {
        end_tag(s, p + 2)
    } else {
        start_tag(s, p + 1)
    }
}

/// One step inside `<?xml ... ?>`.
pub open spec fn declaration(s: Seq<u8>, p: int) -> Step {
    if occurs_at(s, p, seq![QUESTION, GT]) {
        emit(p + 2, XmlState::Normal, TokenView::DeclarationTagEnd)
    } else {
        let w = skip(s, p);
        if w >= s.len() {
            fail(w, XmlState::InsideXmlDeclaration, ErrorKind::UnexpectedEndOfFile)
        } else {
            attribute(s, w, XmlState::InsideXmlDeclaration)
        }
    }
}

/// One step after a start tag's name.
pub open spec fn after_start_tag(s: Seq<u8>, p: int) -> Step {
    let w = skip(s, p);
    if w >= s.len() {
        fail(w, XmlState::AfterStartTagName, ErrorKind::UnexpectedEndOfFile)
    } else if occurs_at(s, w, seq![SLASH, GT]) {
        emit(w + 2, XmlState::Normal, TokenView::TagEnd { self_closing: true })
    } else if s[w] == GT {
        emit(w + 1, XmlState::Normal, TokenView::TagEnd { self_closing: false })
    } else {
        attribute(s, w, XmlState::AfterStartTagName)
    }
}

/// An external identifier's literal, after its keyword ends at `p`.
pub open spec fn external(s: Seq<u8>, p: int, id: ExternalIdentifier) -> Step {
    let w = skip(s, p);
    if w >= s.len() {
        fail(w, XmlState::AfterDoctypeName, ErrorKind::UnexpectedEndOfFile)
    } else {
        let e = literal_end(s, w);
        if e >= s.len() {
            fail(w, XmlState::AfterDoctypeName, ErrorKind::UnterminatedExternalIdentifier)
        } else {
            emit(
                e,
                XmlState::AfterDoctypeName,
                TokenView::ExternalIdentifier { identifier_type: id, literal: s.subrange(w, e) },
            )
        }
    }
}

/// One step after a document type's name.
pub open spec fn after_doctype(s: Seq<u8>, p: int) -> Step {
    let w = skip(s, p);
    if w >= s.len() {
        fail(w, XmlState::AfterDoctypeName, ErrorKind::UnexpectedEndOfFile)
    } else if s[w] == GT {
        emit(w + 1, XmlState::Normal, TokenView::DocumentTypeTagEnd)
    } else if occurs_at(s, w, ascii("SYSTEM"@)) {
        external(s, w + 6, ExternalIdentifier::System)
    } else if occurs_at(s, w, ascii("PUBLIC"@)) {
        external(s, w + 6, ExternalIdentifier::Public)
    } else {
        emit(w + 1, XmlState::InsideInternalSubset, TokenView::InternalSubsetTagStart)
    }
}

/// An entity declaration, after `<!ENTITY` ends at `p`.
pub open spec fn entity(s: Seq<u8>, p: int) -> Step {
    let st = XmlState::InsideInternalSubset;
    let w = skip(s, p);
    if w >= s.len() {
        fail(w, st, ErrorKind::UnexpectedEndOfFile)
    } else {
        let e = name_end(s, w);
        if e >= s.len() {
            fail(w, st, ErrorKind::UnterminatedEntityDeclaration)
        } else {
            let w2 = skip(s, e);
            if w2 >= s.len() {
                fail(w2, st, ErrorKind::UnexpectedEndOfFile)
            } else if !occurs_at(s, w2, ascii("SYSTEM"@)) && !occurs_at(s, w2, ascii("PUBLIC"@)) {
                fail(w2, st, ErrorKind::UnknownExternalIdentifier)
            } else {
                let id = if occurs_at(s, w2, ascii("SYSTEM"@)) {
                    ExternalIdentifier::System
                } else {
                    ExternalIdentifier::Public
                };
                let w3 = skip(s, w2 + 6);
                if w3 >= s.len() {
                    fail(w3, st, ErrorKind::UnexpectedEndOfFile)
                } else {
                    let g = until_byte(s, w3, GT);
                    if g >= s.len() {
                        fail(w3, st, ErrorKind::UnknownExternalIdentifier)
                    } else {
                        emit(
                            g + 1,
                            st,
                            TokenView::EntityDeclaration {
                                name: s.subrange(w, e),
                                identifier: id,
                                literal: s.subrange(w3, g),
                            },
                        )
                    }
                }
            }
        }
    }
}

/// One step inside an internal subset.
pub open spec fn internal_subset(s: Seq<u8>, p: int) -> Step {
    let w = skip(s, p);
    if w >= s.len() {
        fail(w, XmlState::InsideInternalSubset, ErrorKind::UnexpectedEndOfFile)
    } else if occurs_at(s, w, comment_open()) {
        comment(s, w + 4, XmlState::InsideInternalSubset)
    } else if occurs_at(s, w, entity_open()) {
        entity(s, w + 8)
    } else {
        emit(w + 1, XmlState::AfterDoctypeName, TokenView::InternalSubsetTagEnd)
    }
}

/// One step of the tokenizer from position `p` in state `st`.
pub open spec fn step(s: Seq<u8>, p: int, st: XmlState) -> Step {
    if p >= s.len() {
        (p, st, None)
    } else {
        match st {
            XmlState::Normal => normal(s, p),
            XmlState::InsideXmlDeclaration => declaration(s, p),
            XmlState::AfterStartTagName => after_start_tag(s, p),
            XmlState::AfterDoctypeName => after_doctype(s, p),
            XmlState::InsideInternalSubset => internal_subset(s, p),
        }
    }
}

/// The inputs on which a step does not return: after a document type's name
/// something other than `>`, `SYSTEM`, `PUBLIC` or `[`, and inside an internal
/// subset something other than a comment, an entity declaration or `]`.
pub open spec fn step_halts(s: Seq<u8>, p: int, st: XmlState) -> bool {
    let w = skip(s, p);
    &&& p < s.len()
    &&& w < s.len()
    &&& match st {
        XmlState::AfterDoctypeName => s[w] != GT && !occurs_at(s, w, ascii("SYSTEM"@))
            && !occurs_at(s, w, ascii("PUBLIC"@)) && s[w] != LBRACKET,
        XmlState::InsideInternalSubset => !occurs_at(s, w, comment_open()) && !occurs_at(
            s,
            w,
            entity_open(),
        ) && s[w] != RBRACKET,
        _ => false,
    }
}

impl<'a> From<&'a [u8]> for XmlTokenizer<'a> {
    fn from(value: &'a [u8]) -> (t: Self)
        ensures
            t.wf(),
            t.input() == value@,
            t.at() == 0,
            t.current_state() == XmlState::Normal,
    {
        let t = XmlTokenizer { scanner: Scanner::new(value), state: XmlState::Normal };
        proof {
            XmlTokenizer::lemma_fresh(value);
        }
        t
    }
}

impl<'a> vstd::std_specs::convert::FromSpecImpl<&'a [u8]> for XmlTokenizer<'a> {
    open spec fn obeys_from_spec() -> bool {
        true
    }

    open spec fn from_spec(v: &'a [u8]) -> Self {
        XmlTokenizer::fresh(v)
    }
}

impl<'a> XmlTokenizer<'a> {
    /// The input.
    pub closed spec fn input(&self) -> Seq<u8> {
        self.scanner.input()
    }

    /// The current position.
    pub closed spec fn at(&self) -> int {
        self.scanner.at()
    }

    /// The current state.
    pub closed spec fn current_state(&self) -> XmlState {
        self.state
    }

    /// The position lies inside the input or at its end.
    pub closed spec fn wf(&self) -> bool {
        0 <= self.scanner.at() <= self.scanner.input().len()
    }

    /// The tokenizer at the start of `v`.
    pub closed spec fn fresh(v: &'a [u8]) -> Self {
        XmlTokenizer { scanner: Scanner::fresh(v), state: XmlState::Normal }
    }

    /// A well-formed tokenizer stands inside its input or at its end.
    pub proof fn lemma_wf(&self)
        requires
            self.wf(),
        ensures
            0 <= self.at() <= self.input().len(),
    {
    }

    /// A fresh tokenizer reads its input from position 0 in state `Normal`.
    pub proof fn lemma_fresh(v: &'a [u8])
        ensures
            Self::fresh(v).wf(),
            Self::fresh(v).input() == v@,
            Self::fresh(v).at() == 0,
            Self::fresh(v).current_state() == XmlState::Normal,
    {
        Scanner::lemma_fresh(v);
    }

    fn error(&self, kind: ErrorKind) -> (e: Error)
        ensures
            e == (Error { kind, pos: self.scanner.at() as usize }),
    {
        Error { kind, pos: self.scanner.pos() }
    }

    fn skip_ws(&mut self)
        requires
            old(self).scanner.at() <= old(self).scanner.input().len(),
        ensures
            final(self).scanner.input() == old(self).scanner.input(),
            final(self).scanner.at() == skip(old(self).scanner.input(), old(self).scanner.at()),
            final(self).scanner.at() <= final(self).scanner.input().len(),
            final(self).state == old(self).state,
    {
        self.scanner.advance_past_whitespaces();
        proof {
            lemma_run_stop(
                self.scanner.input(),
                old(self).scanner.at(),
                self.scanner.at(),
                |b: u8| !is_space(b),
            );
        }
    }


    /// Consumes the bytes before the next `q`, leaving the `q` in place; when
    /// no `q` follows, nothing moves.
    fn consume_until_byte(&mut self, q: u8) -> (r: Option<&'a [u8]>)
        requires
            old(self).scanner.at() <= old(self).scanner.input().len(),
        ensures
            final(self).scanner.input() == old(self).scanner.input(),
            final(self).state == old(self).state,
            ({
                let s = old(self).scanner.input();
                let p = old(self).scanner.at();
                let e = until_byte(s, p, q);
                match r {
                    Some(v) => e < s.len() && final(self).scanner.at() == e && v@ == s.subrange(p, e),
                    None => e >= s.len() && final(self).scanner.at() == p,
                }
            }),
    {
        let stop = |b: u8| -> (r: bool)
            ensures
                r == (b == q),
            { b == q };
        let r = self.scanner.consume_until(stop);
        proof {
            let s = old(self).scanner.input();
            let p = old(self).scanner.at();
            match r {
                Some(v) => {
                    lemma_until_byte(s, p, self.scanner.at(), q);
                },
                None => {
                    assert(byte_run_end(s, p, s.len() as int, q));
                    lemma_until_byte(s, p, s.len() as int, q);
                },
            }
        }
        r
    }

    /// Consumes a tag name; when the input ends first, nothing moves.
    fn consume_name(&mut self) -> (r: Option<&'a [u8]>)
        requires
            old(self).scanner.at() <= old(self).scanner.input().len(),
        ensures
            final(self).scanner.input() == old(self).scanner.input(),
            final(self).state == old(self).state,
            ({
                let s = old(self).scanner.input();
                let p = old(self).scanner.at();
                let e = name_end(s, p);
                match r {
                    Some(v) => e < s.len() && final(self).scanner.at() == e && v@ == s.subrange(p, e),
                    None => e >= s.len() && final(self).scanner.at() == p,
                }
            }),
    {
        let ghost s = self.scanner.input();
        let ghost p = self.scanner.at();
        match self.scanner.consume_tag_name() {
            Ok(v) => {
                proof {
                    lemma_run_stop(s, p, self.scanner.at(), |b: u8| ends_tag_name(b));
                }
                Some(v)
            },
            Err(_) => {
                proof {
                    assert(run_end(s, p, s.len() as int, |b: u8| ends_tag_name(b)));
                    lemma_run_stop(s, p, s.len() as int, |b: u8| ends_tag_name(b));
                }
                None
            },
        }
    }


    /// Reads `name = "value"` (or with `'`); the state stays as it is.
    fn consume_attribute(&mut self) -> (r: Result<XmlToken<'a>, Error>)
        requires
            old(self).scanner.at() <= old(self).scanner.input().len(),
        ensures
            final(self).scanner.input() == old(self).scanner.input(),
            (final(self).scanner.at(), final(self).state, view_item(Some(r))) == attribute(
                old(self).scanner.input(),
                old(self).scanner.at(),
                old(self).state,
            ),
    {
        let ghost s = self.scanner.input();
        let ghost p = self.scanner.at();
        let n = self.scanner.len();
        let name = match self.scanner.consume_attribute_name() {
            Ok(v) => v,
            Err(_) => {
                proof {
                    assert(run_end(s, p, s.len() as int, |b: u8| ends_attribute_name(b)));
                    lemma_run_stop(s, p, s.len() as int, |b: u8| ends_attribute_name(b));
                }
                return Err(self.error(ErrorKind::UnterminatedAttributeName));
            },
        };
        let ghost e = self.scanner.at();
        proof {
            lemma_run_stop(s, p, e, |b: u8| ends_attribute_name(b));
        }
        self.skip_ws();
        if self.scanner.is_eof() {
            return Err(self.error(ErrorKind::UnexpectedEndOfFile));
        }
        if !self.scanner.consume_byte_if(EQUALS) {
            return Err(self.error(ErrorKind::UnexpectedAttributeFormat));
        }
        self.skip_ws();
        if self.scanner.is_eof() {
            return Err(self.error(ErrorKind::UnexpectedEndOfFile));
        }
        let quote_char = self.scanner.get_byte();
        if quote_char != APOS && quote_char != DQUOTE {
            return Err(self.error(ErrorKind::UnexpectedAttributeFormat));
        }
        self.scanner.consume_byte();
        let value = match self.consume_until_byte(quote_char) {
            Some(v) => v,
            None => return Err(self.error(ErrorKind::UnterminatedAttributeValue)),
        };
        self.scanner.consume_byte();
        Ok(XmlToken::Attribute { name, value })
    }

    /// Reads a comment body and its `-->`; the state stays as it is.
    fn next_comment(&mut self) -> (r: Option<Result<XmlToken<'a>, Error>>)
        requires
            old(self).scanner.at() <= old(self).scanner.input().len(),
        ensures
            final(self).scanner.input() == old(self).scanner.input(),
            (final(self).scanner.at(), final(self).state, view_item(r)) == comment(
                old(self).scanner.input(),
                old(self).scanner.at(),
                old(self).state,
            ),
    {
        let ghost s = self.scanner.input();
        let ghost p = self.scanner.at();
        match self.scanner.consume_comment() {
            Ok(v) => {
                proof {
                    lemma_find_from_some(s, p, self.scanner.at() - 3, comment_end());
                }
                Some(Ok(XmlToken::Comment(v)))
            },
            Err(_) => {
                proof {
                    lemma_find_from_none(s, p, comment_end());
                }
                Some(Err(self.error(ErrorKind::UnterminatedComment)))
            },
        }
    }

    /// Reads a CDATA body and its `]]>`.
    fn next_cdata(&mut self) -> (r: Option<Result<XmlToken<'a>, Error>>)
        requires
            old(self).scanner.at() <= old(self).scanner.input().len(),
            old(self).state == XmlState::Normal,
        ensures
            final(self).scanner.input() == old(self).scanner.input(),
            (final(self).scanner.at(), final(self).state, view_item(r)) == cdata(
                old(self).scanner.input(),
                old(self).scanner.at(),
            ),
    {
        let ghost s = self.scanner.input();
        let ghost p = self.scanner.at();
        match self.scanner.consume_cdata() {
            Ok(v) => {
                proof {
                    lemma_find_from_some(s, p, self.scanner.at() - 3, cdata_end());
                }
                Some(Ok(XmlToken::CharacterData(v)))
            },
            Err(_) => {
                proof {
                    lemma_find_from_none(s, p, cdata_end());
                }
                Some(Err(self.error(ErrorKind::UnterminatedCharacterData)))
            },
        }
    }

    /// Reads a document type's name.
    fn next_doctype(&mut self) -> (r: Option<Result<XmlToken<'a>, Error>>)
        requires
            old(self).scanner.at() <= old(self).scanner.input().len(),
            old(self).state == XmlState::Normal,
        ensures
            final(self).scanner.input() == old(self).scanner.input(),
            (final(self).scanner.at(), final(self).state, view_item(r)) == doctype(
                old(self).scanner.input(),
                old(self).scanner.at(),
            ),
    {
        self.skip_ws();
        if self.scanner.is_eof() {
            return Some(Err(self.error(ErrorKind::UnexpectedEndOfFile)));
        }
        match self.consume_name() {
            Some(name) => Some(Ok(XmlToken::DocumentType(name))),
            None => Some(Err(self.error(ErrorKind::UnterminatedDocumentType))),
        }
    }

    /// Reads a processing instruction: its target, then its data up to `?>`.
    fn next_instruction(&mut self) -> (r: Option<Result<XmlToken<'a>, Error>>)
        requires
            old(self).scanner.at() <= old(self).scanner.input().len(),
            old(self).state == XmlState::Normal,
        ensures
            final(self).scanner.input() == old(self).scanner.input(),
            (final(self).scanner.at(), final(self).state, view_item(r)) == instruction(
                old(self).scanner.input(),
                old(self).scanner.at(),
            ),
    {
        let n = self.scanner.len();
        self.skip_ws();
        if self.scanner.is_eof() {
            return Some(Err(self.error(ErrorKind::UnexpectedEndOfFile)));
        }
        let target = match self.consume_name() {
            Some(v) => v,
            None => return Some(Err(self.error(ErrorKind::UnterminatedDeclaration))),
        };
        self.skip_ws();
        if self.scanner.is_eof() {
            return Some(Err(self.error(ErrorKind::UnexpectedEndOfFile)));
        }
        let data = match self.consume_until_byte(QUESTION) {
            Some(d) => d,
            None => return Some(Err(self.error(ErrorKind::UnterminatedDeclaration))),
        };
        let close: [u8; 2] = [QUESTION, GT];
        if !self.scanner.starts_with(close.as_slice()) {
            return Some(Err(self.error(ErrorKind::UnterminatedDeclaration)));
        }
        proof {
            assert(close@ =~= seq![QUESTION, GT]);
        }
        self.scanner.consume_n_bytes(2);
        Some(Ok(XmlToken::ProcessingInstruction { target, data }))
    }

    /// Reads an end tag's name and skips everything up to and past its `>`.
    fn next_end_tag(&mut self) -> (r: Option<Result<XmlToken<'a>, Error>>)
        requires
            old(self).scanner.at() <= old(self).scanner.input().len(),
            old(self).state == XmlState::Normal,
        ensures
            final(self).scanner.input() == old(self).scanner.input(),
            (final(self).scanner.at(), final(self).state, view_item(r)) == end_tag(
                old(self).scanner.input(),
                old(self).scanner.at(),
            ),
    {
        let n = self.scanner.len();
        let tag_name = match self.consume_name() {
            Some(v) => v,
            None => return Some(Err(self.error(ErrorKind::UnterminatedTagName))),
        };
        if self.consume_until_byte(GT).is_none() {
            return Some(Err(self.error(ErrorKind::UnterminatedTag)));
        }
        self.scanner.consume_byte();
        self.state = XmlState::Normal;
        Some(Ok(XmlToken::EndTag(tag_name)))
    }

    /// Reads a start tag's name.
    fn next_start_tag(&mut self) -> (r: Option<Result<XmlToken<'a>, Error>>)
        requires
            old(self).scanner.at() <= old(self).scanner.input().len(),
            old(self).state == XmlState::Normal,
        ensures
            final(self).scanner.input() == old(self).scanner.input(),
            (final(self).scanner.at(), final(self).state, view_item(r)) == start_tag(
                old(self).scanner.input(),
                old(self).scanner.at(),
            ),
    {
        let tag_name = match self.consume_name() {
            Some(name) => name,
            None => return Some(Err(self.error(ErrorKind::UnterminatedTagName))),
        };
        self.state = XmlState::AfterStartTagName;
        Some(Ok(XmlToken::StartTag(tag_name)))
    }

    /// One step in state `Normal`.
    fn next_normal(&mut self) -> (r: Option<Result<XmlToken<'a>, Error>>)
        requires
            old(self).scanner.at() < old(self).scanner.input().len(),
            old(self).state == XmlState::Normal,
        ensures
            final(self).scanner.input() == old(self).scanner.input(),
            (final(self).scanner.at(), final(self).state, view_item(r)) == normal(
                old(self).scanner.input(),
                old(self).scanner.at(),
            ),
    {
        let ghost s = self.scanner.input();
        let ghost p = self.scanner.at();
        let n = self.scanner.len();
        if !self.scanner.is_byte(LT) {
            let text = self.scanner.consume_text();
            proof {
                lemma_until_byte(s, p, self.scanner.at(), LT);
            }
            return Some(Ok(XmlToken::Text(text)));
        }
        let c: [u8; 4] = [LT, BANG, DASH, DASH];
        let d: [u8; 9] = [LT, BANG, LBRACKET, 0x43, 0x44, 0x41, 0x54, 0x41, LBRACKET];
        let t: [u8; 9] = [LT, BANG, 0x44, 0x4f, 0x43, 0x54, 0x59, 0x50, 0x45];
        let x: [u8; 6] = [LT, QUESTION, 0x78, 0x6d, 0x6c, SPACE];
        let q: [u8; 2] = [LT, QUESTION];
        let e: [u8; 2] = [LT, SLASH];
        proof {
            reveal_strlit("<![CDATA[");
            reveal_strlit("<!DOCTYPE");
            reveal_strlit("<?xml ");
            assert(c@ =~= comment_open());
            assert(d@ =~= cdata_open());
            assert(t@ =~= doctype_open());
            assert(x@ =~= xml_decl_open());
            assert(q@ =~= seq![LT, QUESTION]);
            assert(e@ =~= seq![LT, SLASH]);
        }
        if self.scanner.starts_with(c.as_slice()) {
            self.scanner.consume_n_bytes(4);
            return self.next_comment();
        }
        if self.scanner.starts_with(d.as_slice()) {
            self.scanner.consume_n_bytes(9);
            return self.next_cdata();
        }
        if self.scanner.starts_with(t.as_slice()) {
            self.scanner.consume_n_bytes(9);
            return self.next_doctype();
        }
        if let Some(open) = self.scanner.get_bytes_if(x.as_slice()) {
            let name: &'a [u8] = &open[2..5];
            proof {
                reveal_strlit("xml");
                assert(name@ =~= ascii("xml"@));
            }
            self.scanner.consume_n_bytes(5);
            self.state = XmlState::InsideXmlDeclaration;
            return Some(Ok(XmlToken::Declaration(name)));
        }
        if self.scanner.starts_with(q.as_slice()) {
            self.scanner.consume_n_bytes(2);
            return self.next_instruction();
        }
        if self.scanner.starts_with(e.as_slice()) {
            self.scanner.consume_n_bytes(2);
            return self.next_end_tag();
        }
        self.scanner.consume_byte();
        self.next_start_tag()
    }

    /// One step inside `<?xml ... ?>`.
    fn next_inside_xml_declaration(&mut self) -> (r: Option<Result<XmlToken<'a>, Error>>)
        requires
            old(self).scanner.at() < old(self).scanner.input().len(),
            old(self).state == XmlState::InsideXmlDeclaration,
        ensures
            final(self).scanner.input() == old(self).scanner.input(),
            (final(self).scanner.at(), final(self).state, view_item(r)) == declaration(
                old(self).scanner.input(),
                old(self).scanner.at(),
            ),
    {
        let n = self.scanner.len();
        let close: [u8; 2] = [QUESTION, GT];
        proof {
            assert(close@ =~= seq![QUESTION, GT]);
        }
        if self.scanner.starts_with(close.as_slice()) {
            self.scanner.consume_n_bytes(2);
            self.state = XmlState::Normal;
            return Some(Ok(XmlToken::DeclarationTagEnd));
        }
        self.skip_ws();
        if self.scanner.is_eof() {
            return Some(Err(self.error(ErrorKind::UnexpectedEndOfFile)));
        }
        Some(self.consume_attribute())
    }

    /// One step after a start tag's name.
    fn next_after_start_tag_name(&mut self) -> (r: Option<Result<XmlToken<'a>, Error>>)
        requires
            old(self).scanner.at() < old(self).scanner.input().len(),
            old(self).state == XmlState::AfterStartTagName,
        ensures
            final(self).scanner.input() == old(self).scanner.input(),
            (final(self).scanner.at(), final(self).state, view_item(r)) == after_start_tag(
                old(self).scanner.input(),
                old(self).scanner.at(),
            ),
    {
        let n = self.scanner.len();
        self.skip_ws();
        if self.scanner.is_eof() {
            return Some(Err(self.error(ErrorKind::UnexpectedEndOfFile)));
        }
        let close: [u8; 2] = [SLASH, GT];
        proof {
            assert(close@ =~= seq![SLASH, GT]);
        }
        if self.scanner.starts_with(close.as_slice()) {
            self.scanner.consume_n_bytes(2);
            self.state = XmlState::Normal;
            Some(Ok(XmlToken::TagEnd { self_closing: true }))
        } else if self.scanner.is_byte(GT) {
            self.scanner.consume_byte();
            self.state = XmlState::Normal;
            Some(Ok(XmlToken::TagEnd { self_closing: false }))
        } else {
            Some(self.consume_attribute())
        }
    }

    /// Reads an external identifier's literal: the bytes before `>` or `[`.
    fn next_external(&mut self, identifier_type: ExternalIdentifier) -> (r: Option<
        Result<XmlToken<'a>, Error>,
    >)
        requires
            old(self).scanner.at() <= old(self).scanner.input().len(),
            old(self).state == XmlState::AfterDoctypeName,
        ensures
            final(self).scanner.input() == old(self).scanner.input(),
            (final(self).scanner.at(), final(self).state, view_item(r)) == external(
                old(self).scanner.input(),
                old(self).scanner.at(),
                identifier_type,
            ),
    {
        self.skip_ws();
        if self.scanner.is_eof() {
            return Some(Err(self.error(ErrorKind::UnexpectedEndOfFile)));
        }
        let ghost s = self.scanner.input();
        let ghost w = self.scanner.at();
        let stop = |b: u8| -> (r: bool)
            ensures
                r == (b == GT || b == LBRACKET),
            { b == GT || b == LBRACKET };
        match self.scanner.consume_until(stop) {
            Some(literal) => {
                proof {
                    lemma_run_stop(s, w, self.scanner.at(), |b: u8| b == GT || b == LBRACKET);
                }
                Some(Ok(XmlToken::ExternalIdentifier { identifier_type, literal }))
            },
            None => {
                proof {
                    assert(run_end(s, w, s.len() as int, |b: u8| b == GT || b == LBRACKET));
                    lemma_run_stop(s, w, s.len() as int, |b: u8| b == GT || b == LBRACKET);
                }
                Some(Err(self.error(ErrorKind::UnterminatedExternalIdentifier)))
            },
        }
    }

    /// One step after a document type's name.
    fn next_after_doctype_name(&mut self) -> (r: Option<Result<XmlToken<'a>, Error>>)
        requires
            old(self).scanner.at() < old(self).scanner.input().len(),
            old(self).state == XmlState::AfterDoctypeName,
            !step_halts(old(self).scanner.input(), old(self).scanner.at(), old(self).state),
        ensures
            final(self).scanner.input() == old(self).scanner.input(),
            (final(self).scanner.at(), final(self).state, view_item(r)) == after_doctype(
                old(self).scanner.input(),
                old(self).scanner.at(),
            ),
    {
        let n = self.scanner.len();
        self.skip_ws();
        if self.scanner.is_eof() {
            return Some(Err(self.error(ErrorKind::UnexpectedEndOfFile)));
        }
        let system: [u8; 6] = [0x53, 0x59, 0x53, 0x54, 0x45, 0x4d];
        let public: [u8; 6] = [0x50, 0x55, 0x42, 0x4c, 0x49, 0x43];
        proof {
            reveal_strlit("SYSTEM");
            reveal_strlit("PUBLIC");
            assert(system@ =~= ascii("SYSTEM"@));
            assert(public@ =~= ascii("PUBLIC"@));
        }
        if self.scanner.is_byte(GT) {
            self.scanner.consume_byte();
            self.state = XmlState::Normal;
            Some(Ok(XmlToken::DocumentTypeTagEnd))
        } else if self.scanner.starts_with(system.as_slice()) {
            self.scanner.consume_n_bytes(6);
            self.next_external(ExternalIdentifier::System)
        } else if self.scanner.starts_with(public.as_slice()) {
            self.scanner.consume_n_bytes(6);
            self.next_external(ExternalIdentifier::Public)
        } else {
            self.scanner.consume_byte();
            self.state = XmlState::InsideInternalSubset;
            Some(Ok(XmlToken::InternalSubsetTagStart))
        }
    }

    /// Reads an entity declaration: its name, its external identifier and its
    /// literal up to and past `>`.
    fn next_entity(&mut self) -> (r: Option<Result<XmlToken<'a>, Error>>)
        requires
            old(self).scanner.at() <= old(self).scanner.input().len(),
            old(self).state == XmlState::InsideInternalSubset,
        ensures
            final(self).scanner.input() == old(self).scanner.input(),
            (final(self).scanner.at(), final(self).state, view_item(r)) == entity(
                old(self).scanner.input(),
                old(self).scanner.at(),
            ),
    {
        let n = self.scanner.len();
        self.skip_ws();
        if self.scanner.is_eof() {
            return Some(Err(self.error(ErrorKind::UnexpectedEndOfFile)));
        }
        let name = match self.consume_name() {
            Some(name) => name,
            None => return Some(Err(self.error(ErrorKind::UnterminatedEntityDeclaration))),
        };
        self.skip_ws();
        if self.scanner.is_eof() {
            return Some(Err(self.error(ErrorKind::UnexpectedEndOfFile)));
        }
        let system: [u8; 6] = [0x53, 0x59, 0x53, 0x54, 0x45, 0x4d];
        let public: [u8; 6] = [0x50, 0x55, 0x42, 0x4c, 0x49, 0x43];
        proof {
            reveal_strlit("SYSTEM");
            reveal_strlit("PUBLIC");
            assert(system@ =~= ascii("SYSTEM"@));
            assert(public@ =~= ascii("PUBLIC"@));
        }
        let identifier = if self.scanner.starts_with(system.as_slice()) {
            self.scanner.consume_n_bytes(6);
            ExternalIdentifier::System
        } else if self.scanner.starts_with(public.as_slice()) {
            self.scanner.consume_n_bytes(6);
            ExternalIdentifier::Public
        } else {
            return Some(Err(self.error(ErrorKind::UnknownExternalIdentifier)));
        };
        self.skip_ws();
        if self.scanner.is_eof() {
            return Some(Err(self.error(ErrorKind::UnexpectedEndOfFile)));
        }
        match self.consume_until_byte(GT) {
            Some(literal) => {
                self.scanner.consume_byte();
                Some(Ok(XmlToken::EntityDeclaration { name, identifier, literal }))
            },
            None => Some(Err(self.error(ErrorKind::UnknownExternalIdentifier))),
        }
    }

    /// One step inside an internal subset.
    fn next_inside_internal_subset(&mut self) -> (r: Option<Result<XmlToken<'a>, Error>>)
        requires
            old(self).scanner.at() < old(self).scanner.input().len(),
            old(self).state == XmlState::InsideInternalSubset,
            !step_halts(old(self).scanner.input(), old(self).scanner.at(), old(self).state),
        ensures
            final(self).scanner.input() == old(self).scanner.input(),
            (final(self).scanner.at(), final(self).state, view_item(r)) == internal_subset(
                old(self).scanner.input(),
                old(self).scanner.at(),
            ),
    {
        let n = self.scanner.len();
        self.skip_ws();
        if self.scanner.is_eof() {
            return Some(Err(self.error(ErrorKind::UnexpectedEndOfFile)));
        }
        let c: [u8; 4] = [LT, BANG, DASH, DASH];
        let d: [u8; 8] = [LT, BANG, 0x45, 0x4e, 0x54, 0x49, 0x54, 0x59];
        proof {
            reveal_strlit("<!ENTITY");
            assert(c@ =~= comment_open());
            assert(d@ =~= entity_open());
        }
        if self.scanner.starts_with(c.as_slice()) {
            self.scanner.consume_n_bytes(4);
            self.next_comment()
        } else if self.scanner.starts_with(d.as_slice()) {
            self.scanner.consume_n_bytes(8);
            self.next_entity()
        } else {
            self.state = XmlState::AfterDoctypeName;
            self.scanner.consume_byte();
            Some(Ok(XmlToken::InternalSubsetTagEnd))
        }
    }

    /// The current position.
    pub fn position(&self) -> (p: usize)
        ensures
            p == self.at(),
    {
        self.scanner.pos()
    }

    /// Whether the next call of `next` would stop the program (see
    /// `step_halts`).
    pub fn halts_next(&self) -> (r: bool)
        requires
            self.wf(),
        ensures
            r == step_halts(self.input(), self.at(), self.current_state()),
    {
        let n = self.scanner.len();
        if self.scanner.is_eof() {
            return false;
        }
        match self.state {
            XmlState::AfterDoctypeName => {},
            XmlState::InsideInternalSubset => {},
            _ => return false,
        }
        let mut probe = self.scanner;
        probe.advance_past_whitespaces();
        proof {
            lemma_run_stop(
                self.scanner.input(),
                self.scanner.at(),
                probe.at(),
                |b: u8| !is_space(b),
            );
        }
        if probe.is_eof() {
            return false;
        }
        match self.state {
            XmlState::AfterDoctypeName => {
                let system: [u8; 6] = [0x53, 0x59, 0x53, 0x54, 0x45, 0x4d];
                let public: [u8; 6] = [0x50, 0x55, 0x42, 0x4c, 0x49, 0x43];
                proof {
                    reveal_strlit("SYSTEM");
                    reveal_strlit("PUBLIC");
                    assert(system@ =~= ascii("SYSTEM"@));
                    assert(public@ =~= ascii("PUBLIC"@));
                }
                !probe.is_byte(GT) && !probe.starts_with(system.as_slice()) && !probe.starts_with(
                    public.as_slice(),
                ) && !probe.is_byte(LBRACKET)
            },
            _ => {
                let c: [u8; 4] = [LT, BANG, DASH, DASH];
                let d: [u8; 8] = [LT, BANG, 0x45, 0x4e, 0x54, 0x49, 0x54, 0x59];
                proof {
                    reveal_strlit("<!ENTITY");
                    assert(c@ =~= comment_open());
                    assert(d@ =~= entity_open());
                }
                !probe.starts_with(c.as_slice()) && !probe.starts_with(d.as_slice())
                    && !probe.is_byte(RBRACKET)
            },
        }
    }

    /// Reads the next token; `None` once the input is used up.
    pub fn next(&mut self) -> (r: Option<Result<XmlToken<'a>, Error>>)
        requires
            old(self).wf(),
            !step_halts(old(self).input(), old(self).at(), old(self).current_state()),
        ensures
            final(self).wf(),
            final(self).input() == old(self).input(),
            (final(self).at(), final(self).current_state(), view_item(r)) == step(
                old(self).input(),
                old(self).at(),
                old(self).current_state(),
            ),
    {
        if self.scanner.is_eof() {
            return None;
        }
        let r = match self.state {
            XmlState::Normal => self.next_normal(),
            XmlState::InsideXmlDeclaration => self.next_inside_xml_declaration(),
            XmlState::AfterStartTagName => self.next_after_start_tag_name(),
            XmlState::AfterDoctypeName => self.next_after_doctype_name(),
            XmlState::InsideInternalSubset => self.next_inside_internal_subset(),
        };
        proof {
            law_step_moves_forward(old(self).scanner.input(), old(self).scanner.at(), old(self).state);
        }
        r
    }
}

// ---------------------------------------------------------------------------
// Bounds on the rules, and laws of the tokenizer.

proof fn lemma_run_bounds(s: Seq<u8>, p: int, stop: spec_fn(u8) -> bool)
    requires
        0 <= p <= s.len(),
    ensures
        p <= run_stop(s, p, stop) <= s.len(),
{
    lemma_run_end_exists(s, p, stop);
}

proof fn lemma_skip_bounds(s: Seq<u8>, p: int)
    requires
        0 <= p <= s.len(),
    ensures
        p <= skip(s, p) <= s.len(),
{
    lemma_run_bounds(s, p, |b: u8| !is_space(b));
}

proof fn lemma_name_bounds(s: Seq<u8>, p: int)
    requires
        0 <= p <= s.len(),
    ensures
        p <= name_end(s, p) <= s.len(),
{
    lemma_run_bounds(s, p, |b: u8| ends_tag_name(b));
}

proof fn lemma_find_bounds(s: Seq<u8>, p: int, pat: Seq<u8>)
    requires
        pat.len() == 3,
    ensures
        find_from(s, p, pat) matches Some(i) ==> p <= i && i + 3 <= s.len(),
{
    if exists|i: int| first_occurrence(s, p, i, pat) {
        let i = choose|i: int| first_occurrence(s, p, i, pat);
        assert(first_occurrence(s, p, i, pat));
    }
}

proof fn lemma_attribute_bounds(s: Seq<u8>, p: int, st: XmlState)
    requires
        0 <= p <= s.len(),
    ensures
        p <= attribute(s, p, st).0 <= s.len(),
        attribute(s, p, st).1 == st,
        attribute(s, p, st).2 matches Some(Ok(_)) ==> p < attribute(s, p, st).0,
{
    lemma_run_bounds(s, p, |b: u8| ends_attribute_name(b));
    let e = run_stop(s, p, |b: u8| ends_attribute_name(b));
    if e < s.len() {
        lemma_skip_bounds(s, e);
        let w = skip(s, e);
        if w < s.len() && s[w] == EQUALS {
            lemma_skip_bounds(s, w + 1);
            let w2 = skip(s, w + 1);
            if w2 < s.len() {
                lemma_until_byte_bounds(s, w2 + 1, s[w2]);
            }
        }
    }
}

proof fn lemma_normal_bounds(s: Seq<u8>, p: int)
    requires
        0 <= p < s.len(),
    ensures
        p <= normal(s, p).0 <= s.len(),
        normal(s, p).2 matches Some(Ok(_)) ==> p < normal(s, p).0,
{
    reveal_strlit("<![CDATA[");
    reveal_strlit("<!DOCTYPE");
    reveal_strlit("<?xml ");
    if s[p] != LT {
        lemma_until_byte_bounds(s, p, LT);
    } else if occurs_at(s, p, comment_open()) {
        lemma_find_bounds(s, p + 4, comment_end());
    } else if occurs_at(s, p, cdata_open()) {
        lemma_find_bounds(s, p + 9, cdata_end());
    } else if occurs_at(s, p, doctype_open()) {
        lemma_skip_bounds(s, p + 9);
        let w = skip(s, p + 9);
        if w < s.len() {
            lemma_name_bounds(s, w);
        }
    } else if occurs_at(s, p, xml_decl_open()) {
    } else if occurs_at(s, p, seq![LT, QUESTION]) {
        lemma_skip_bounds(s, p + 2);
        let w = skip(s, p + 2);
        if w < s.len() {
            lemma_name_bounds(s, w);
            let e = name_end(s, w);
            if e < s.len() {
                lemma_skip_bounds(s, e);
                let w2 = skip(s, e);
                if w2 < s.len() {
                    lemma_until_byte_bounds(s, w2, QUESTION);
                }
            }
        }
    } else if occurs_at(s, p, seq![LT, SLASH]) {
        lemma_name_bounds(s, p + 2);
        let e = name_end(s, p + 2);
        if e < s.len() {
            lemma_until_byte_bounds(s, e, GT);
        }
    } else {
        lemma_name_bounds(s, p + 1);
    }
}

proof fn lemma_external_bounds(s: Seq<u8>, p: int, id: ExternalIdentifier)
    requires
        0 <= p <= s.len(),
    ensures
        p <= external(s, p, id).0 <= s.len(),
{
    lemma_skip_bounds(s, p);
    let w = skip(s, p);
    if w < s.len() {
        lemma_run_bounds(s, w, |b: u8| b == GT || b == LBRACKET);
    }
}

proof fn lemma_entity_bounds(s: Seq<u8>, p: int)
    requires
        0 <= p <= s.len(),
    ensures
        p <= entity(s, p).0 <= s.len(),
        entity(s, p).2 matches Some(Ok(_)) ==> p < entity(s, p).0,
{
    reveal_strlit("SYSTEM");
    reveal_strlit("PUBLIC");
    lemma_skip_bounds(s, p);
    let w = skip(s, p);
    if w < s.len() {
        lemma_name_bounds(s, w);
        let e = name_end(s, w);
        if e < s.len() {
            lemma_skip_bounds(s, e);
            let w2 = skip(s, e);
            if w2 < s.len() && (occurs_at(s, w2, ascii("SYSTEM"@)) || occurs_at(
                s,
                w2,
                ascii("PUBLIC"@),
            )) {
                lemma_skip_bounds(s, w2 + 6);
                let w3 = skip(s, w2 + 6);
                if w3 < s.len() {
                    lemma_until_byte_bounds(s, w3, GT);
                }
            }
        }
    }
}

/// Every step keeps the position inside the input and never moves it back;
/// a step that hands out a token moves it forward.
pub proof fn law_step_moves_forward(s: Seq<u8>, p: int, st: XmlState)
    requires
        0 <= p <= s.len(),
    ensures
        p <= step(s, p, st).0 <= s.len(),
        step(s, p, st).2 matches Some(Ok(_)) ==> p < step(s, p, st).0,
{
    if p < s.len() {
        match st {
            XmlState::Normal => lemma_normal_bounds(s, p),
            XmlState::InsideXmlDeclaration => {
                lemma_skip_bounds(s, p);
                let w = skip(s, p);
                if w < s.len() {
                    lemma_attribute_bounds(s, w, st);
                }
            },
            XmlState::AfterStartTagName => {
                lemma_skip_bounds(s, p);
                let w = skip(s, p);
                if w < s.len() {
                    lemma_attribute_bounds(s, w, st);
                }
            },
            XmlState::AfterDoctypeName => {
                lemma_skip_bounds(s, p);
                let w = skip(s, p);
                reveal_strlit("SYSTEM");
                reveal_strlit("PUBLIC");
                if w < s.len() && occurs_at(s, w, ascii("SYSTEM"@)) {
                    lemma_external_bounds(s, w + 6, ExternalIdentifier::System);
                } else if w < s.len() && occurs_at(s, w, ascii("PUBLIC"@)) {
                    lemma_external_bounds(s, w + 6, ExternalIdentifier::Public);
                }
            },
            XmlState::InsideInternalSubset => {
                lemma_skip_bounds(s, p);
                let w = skip(s, p);
                reveal_strlit("<!ENTITY");
                if w < s.len() {
                    if occurs_at(s, w, comment_open()) {
                        lemma_find_bounds(s, w + 4, comment_end());
                    } else if occurs_at(s, w, entity_open()) {
                        lemma_entity_bounds(s, w + 8);
                    }
                }
            },
        }
    }
}

/// A step finds nothing exactly when the input is used up, and then it
/// changes nothing: the tokenizer is exhausted for good.
pub proof fn law_exhausted_stays_exhausted(s: Seq<u8>, p: int, st: XmlState)
    requires
        0 <= p <= s.len(),
    ensures
        step(s, p, st).2 is None <==> p == s.len(),
        p == s.len() ==> step(s, p, st) == (p, st, None::<Result<TokenView, Error>>),
{
}

} // verus!
