//! An XML tokenizer that walks the bytes of a string slice and hands out
//! tokens that borrow from it.
use vstd::prelude::*;
use crate::text::{utf8_lossy, lossy_string};
use vstd::string::StringSliceAdditionalSpecFns;
use crate::bs::{
    is_ascii_ws, is_space, run_end, run_stop, lemma_run_stop, until_byte, lemma_until_byte, byte_run_end, first_occurrence, no_occurrence,
    find_from, lemma_find_from_some, lemma_find_from_none, occurs_at, matches_at, comment_end,
    cdata_end, SPACE, TAB, LF, FF, CR, BANG, DQUOTE, APOS, DASH, SLASH, LT, EQUALS, GT, QUESTION,
    LBRACKET, RBRACKET,
};

verus! {

/// What can go wrong while tokenizing.
#[derive(Debug, PartialEq, Eq, Structural)]
pub enum Error {
    UnexpectedEndOfFile,
    UnexpectedAttributeFormat,
    UnterminatedComment,
    UnterminatedCData,
    UnterminatedProcessingInstruction,
    EmptyTagName,
    EmptyAttributeName,
    EmptyAttributeValue,
    EmptyProcessingInstruction,
}

impl Error {
    /// The human readable message of the error.
    pub fn to_string(&self) -> (s: String)
        ensures
            s@ == self.message(),
    {
        match self {
            Error::UnexpectedEndOfFile => String::from_str("Unexpected EOF"),
            Error::UnterminatedComment => String::from_str("Unterminated comment"),
            Error::UnterminatedCData => String::from_str("Unterminated CData"),
            Error::UnexpectedAttributeFormat => String::from_str("Unexpected attribute format"),
            Error::EmptyTagName => String::from_str("Encountered empty tag name"),
            Error::EmptyAttributeName => String::from_str("Encountered empty attribute name"),
            Error::EmptyAttributeValue => String::from_str("Encountered empty attribute value"),
            Error::UnterminatedProcessingInstruction => String::from_str(
                "Unterminated processing instruction",
            ),
            Error::EmptyProcessingInstruction => String::from_str(
                "Encountered empty processing instruction",
            ),
        }
    }

    /// The human readable message of the error.
    pub open spec fn message(&self) -> Seq<char> {
        match self {
            Error::UnexpectedEndOfFile => "Unexpected EOF"@,
            Error::UnterminatedComment => "Unterminated comment"@,
            Error::UnterminatedCData => "Unterminated CData"@,
            Error::UnexpectedAttributeFormat => "Unexpected attribute format"@,
            Error::EmptyTagName => "Encountered empty tag name"@,
            Error::EmptyAttributeName => "Encountered empty attribute name"@,
            Error::EmptyAttributeValue => "Encountered empty attribute value"@,
            Error::UnterminatedProcessingInstruction => "Unterminated processing instruction"@,
            Error::EmptyProcessingInstruction => "Encountered empty processing instruction"@,
        }
    }
}

/// A token; every slice in it borrows from the input.
#[derive(Debug, PartialEq, Eq)]
pub enum XmlToken<'a> {
    Declaration(&'a [u8]),
    DeclarationTagEnd,
    ProcessingInstruction { target: &'a [u8], data: &'a [u8] },
    DocumentType(&'a [u8]),
    StartTag(&'a [u8]),
    Attribute { name: &'a [u8], value: &'a [u8] },
    TagEnd { self_closing: bool },
    EndTag(&'a [u8]),
    Text(&'a [u8]),
    Comment(&'a [u8]),
    CharacterData(&'a [u8]),
}

/// A token with its slices taken as byte sequences.
pub enum TokenView {
    Declaration(Seq<u8>),
    DeclarationTagEnd,
    ProcessingInstruction { target: Seq<u8>, data: Seq<u8> },
    DocumentType(Seq<u8>),
    StartTag(Seq<u8>),
    Attribute { name: Seq<u8>, value: Seq<u8> },
    TagEnd { self_closing: bool },
    EndTag(Seq<u8>),
    Text(Seq<u8>),
    Comment(Seq<u8>),
    CharacterData(Seq<u8>),
}

impl<'a> View for XmlToken<'a> {
    type V = TokenView;

    open spec fn view(&self) -> TokenView {
        match self {
            XmlToken::Declaration(b) => TokenView::Declaration(b@),
            XmlToken::DeclarationTagEnd => TokenView::DeclarationTagEnd,
            XmlToken::ProcessingInstruction { target, data } => TokenView::ProcessingInstruction {
                target: target@,
                data: data@,
            },
            XmlToken::DocumentType(b) => TokenView::DocumentType(b@),
            XmlToken::StartTag(b) => TokenView::StartTag(b@),
            XmlToken::Attribute { name, value } => TokenView::Attribute {
                name: name@,
                value: value@,
            },
            XmlToken::TagEnd { self_closing } => TokenView::TagEnd { self_closing: *self_closing },
            XmlToken::EndTag(b) => TokenView::EndTag(b@),
            XmlToken::Text(b) => TokenView::Text(b@),
            XmlToken::Comment(b) => TokenView::Comment(b@),
            XmlToken::CharacterData(b) => TokenView::CharacterData(b@),
        }
    }
}

/// A token as text: its kind and, in brackets, its parts, each slice read as
/// UTF-8 with invalid sequences replaced.
pub open spec fn token_text(t: TokenView) -> Seq<char> {
    match t {
        TokenView::Declaration(b) => "Declaration("@ + utf8_lossy(b) + ")"@,
        TokenView::DeclarationTagEnd => "DeclarationTagEnd"@,
        TokenView::ProcessingInstruction { target, data } => "ProcessingInstruction(target="@ + utf8_lossy(target) + ", data="@ + utf8_lossy(data) + ")"@,
        TokenView::DocumentType(b) => "DocumentType("@ + utf8_lossy(b) + ")"@,
        TokenView::StartTag(b) => "StartTag("@ + utf8_lossy(b) + ")"@,
        TokenView::Attribute { name, value } => "Attribute (name="@ + utf8_lossy(name) + ", value="@ + utf8_lossy(value) + ")"@,
        TokenView::TagEnd { self_closing } => "TagEnd("@ + (if self_closing { "true"@ } else { "false"@ }) + ")"@,
        TokenView::EndTag(b) => "EndTag("@ + utf8_lossy(b) + ")"@,
        TokenView::Text(b) => "Text("@ + utf8_lossy(b) + ")"@,
        TokenView::Comment(b) => "Comment("@ + utf8_lossy(b) + ")"@,
        TokenView::CharacterData(b) => "CData("@ + utf8_lossy(b) + ")"@,
    }
}

/// `label`, the bytes read as UTF-8 with invalid sequences replaced, and `)`.
fn bracketed(label: &str, b: &[u8]) -> (s: String)
    ensures
        s@ == label@ + utf8_lossy(b@) + ")"@,
{
    let mut s = String::from_str(label);
    let t = lossy_string(b);
    s.append(t.as_str());
    s.append(")");
    s
}

impl<'a> XmlToken<'a> {
    /// The token as text (see `token_text`).
    pub fn to_string(&self) -> (s: String)
        ensures
            s@ == token_text(self@),
    {
        match self {
            XmlToken::Declaration(b) => bracketed("Declaration(", b),
            XmlToken::DeclarationTagEnd => String::from_str("DeclarationTagEnd"),
            XmlToken::ProcessingInstruction { target, data } => {
                let mut s = String::from_str("ProcessingInstruction(target=");
                let a = lossy_string(target);
                s.append(a.as_str());
                s.append(", data=");
                let b = lossy_string(data);
                s.append(b.as_str());
                s.append(")");
                s
            },
            XmlToken::DocumentType(b) => bracketed("DocumentType(", b),
            XmlToken::StartTag(b) => bracketed("StartTag(", b),
            XmlToken::Attribute { name, value } => {
                let mut s = String::from_str("Attribute (name=");
                let a = lossy_string(name);
                s.append(a.as_str());
                s.append(", value=");
                let b = lossy_string(value);
                s.append(b.as_str());
                s.append(")");
                s
            },
            XmlToken::TagEnd { self_closing } => {
                let mut s = String::from_str("TagEnd(");
                if *self_closing {
                    s.append("true");
                } else {
                    s.append("false");
                }
                s.append(")");
                s
            },
            XmlToken::EndTag(b) => bracketed("EndTag(", b),
            XmlToken::Text(b) => bracketed("Text(", b),
            XmlToken::Comment(b) => bracketed("Comment(", b),
            XmlToken::CharacterData(b) => bracketed("CData(", b),
        }
    }
}

/// What one step of the tokenizer hands back, with its token viewed.
pub open spec fn view_item(r: Option<Result<XmlToken, Error>>) -> Option<Result<TokenView, Error>> {
    match r {
        None => None,
        Some(Ok(t)) => Some(Ok(t@)),
        Some(Err(e)) => Some(Err(e)),
    }
}

/// Where the tokenizer stands: reading content, inside `<?xml ... ?>`, after a
/// start tag's name, after a document type's name, or inside an internal subset.
#[derive(Debug, PartialEq, Eq, Structural, Clone, Copy)]
pub enum XmlState {
    Normal,
    InsideXmlDeclaration,
    AfterStartTagName,
    AfterDoctypeName,
    InternalSubset,
}

/// A tokenizer over the bytes of a string slice.
pub struct XmlTokenizer<'a> {
    input: &'a str,
    state: XmlState,
    pos: usize,
}

// ---------------------------------------------------------------------------
// The rules, over the input bytes `s` and a position `p`.

/// A byte that ends a tag name here: space, tab, line feed, carriage return, `>`, `/`, `?`.
pub open spec fn ends_name(b: u8) -> bool {
    is_space(b) || b == GT || b == SLASH || b == QUESTION
}

/// A byte that ends an attribute name here: `=` or one that ends a tag name.
pub open spec fn ends_attr_name(b: u8) -> bool {
    b == EQUALS || ends_name(b)
}

/// Where the whitespace at `p` ends.
pub open spec fn skip_ws(s: Seq<u8>, p: int) -> int {
    if p <= s.len() {
        run_stop(s, p, |b: u8| !is_ascii_ws(b))
    } else {
        p
    }
}

/// Where the name at `p` ends.
pub open spec fn name_end(s: Seq<u8>, p: int) -> int {
    if p <= s.len() {
        run_stop(s, p, |b: u8| ends_name(b))
    } else {
        p
    }
}

/// Consuming a tag name at `p`: the new position and the name, or `EmptyTagName`.
pub open spec fn tag_name(s: Seq<u8>, p: int) -> (int, Result<Seq<u8>, Error>) {
    let e = name_end(s, p);
    if e == p {
        (p, Err(Error::EmptyTagName))
    } else {
        (e, Ok(s.subrange(p, e)))
    }
}

/// Consuming the data of a processing instruction at `p`: the bytes before `?`.
pub open spec fn pi_data(s: Seq<u8>, p: int) -> (int, Result<Seq<u8>, Error>) {
    let e = until_byte(s, p, QUESTION);
    if e == p {
        (p, Err(Error::EmptyProcessingInstruction))
    } else {
        (e, Ok(s.subrange(p, e)))
    }
}

/// Consuming an attribute name at `p`.
pub open spec fn attr_name(s: Seq<u8>, p: int) -> (int, Result<Seq<u8>, Error>) {
    let e = run_stop(s, p, |b: u8| ends_attr_name(b));
    if e >= s.len() {
        (p, Err(Error::UnexpectedEndOfFile))
    } else if e == p {
        (p, Err(Error::EmptyAttributeName))
    } else {
        (e, Ok(s.subrange(p, e)))
    }
}

/// Consuming an attribute value at `p` that ends with `q`; the closing quote is
/// consumed too.
pub open spec fn attr_value(s: Seq<u8>, p: int, q: u8) -> (int, Result<Seq<u8>, Error>) {
    let e = until_byte(s, p, q);
    if e >= s.len() {
        (p, Err(Error::UnexpectedEndOfFile))
    } else if e == p {
        (p, Err(Error::EmptyAttributeValue))
    } else {
        (e + 1, Ok(s.subrange(p, e)))
    }
}

/// Consuming `name = "value"` (or with `'`) at `p`.
pub open spec fn attr_pair(s: Seq<u8>, p: int) -> (int, Result<(Seq<u8>, Seq<u8>), Error>) {
    let (p1, name) = attr_name(s, p);
    match name {
        Err(e) => (p1, Err(e)),
        Ok(name) => {
            let w = skip_ws(s, p1);
            if w >= s.len() {
                (w, Err(Error::UnexpectedEndOfFile))
            } else if s[w] != EQUALS {
                (w, Err(Error::UnexpectedAttributeFormat))
            } else {
                let w2 = skip_ws(s, w + 1);
                if w2 >= s.len() {
                    (w2, Err(Error::UnexpectedEndOfFile))
                } else if s[w2] != APOS && s[w2] != DQUOTE {
                    (w2, Err(Error::UnexpectedAttributeFormat))
                } else {
                    let (p3, value) = attr_value(s, w2 + 1, s[w2]);
                    match value {
                        Err(e) => (p3, Err(e)),
                        Ok(value) => (p3, Ok((name, value))),
                    }
                }
            }
        },
    }
}

/// The bytes `<!--`.
pub open spec fn comment_open() -> Seq<u8> {
    seq![LT, BANG, DASH, DASH]
}

/// The bytes `<![CDATA[`.
pub open spec fn cdata_open() -> Seq<u8> {
    seq![LT, BANG, LBRACKET, 0x43u8, 0x44u8, 0x41u8, 0x54u8, 0x41u8, LBRACKET]
}

/// The bytes `<!DOCTYPE`.
pub open spec fn doctype_open() -> Seq<u8> {
    seq![LT, BANG, 0x44u8, 0x4fu8, 0x43u8, 0x54u8, 0x59u8, 0x50u8, 0x45u8]
}

/// The bytes `<?xml ` (with the trailing space).
pub open spec fn xml_decl_open() -> Seq<u8> {
    seq![LT, QUESTION, 0x78u8, 0x6du8, 0x6cu8, SPACE]
}

/// The bytes `?>`.
pub open spec fn pi_close() -> Seq<u8> {
    seq![QUESTION, GT]
}

/// The bytes `/>`.
pub open spec fn empty_tag_close() -> Seq<u8> {
    seq![SLASH, GT]
}

/// A step's result, the position and the state after it.
pub type Step = (int, XmlState, Option<Result<TokenView, Error>>);

/// Reading a comment body that starts at `p`.
pub open spec fn step_comment(s: Seq<u8>, p: int) -> Step {
    match find_from(s, p, comment_end()) {
        Some(i) => (i + 3, XmlState::Normal, Some(Ok(TokenView::Comment(s.subrange(p, i))))),
        None => (p, XmlState::Normal, Some(Err(Error::UnterminatedComment))),
    }
}

/// Reading a CDATA body that starts at `p`.
pub open spec fn step_cdata(s: Seq<u8>, p: int) -> Step {
    match find_from(s, p, cdata_end()) {
        Some(i) => (i + 3, XmlState::Normal, Some(Ok(TokenView::CharacterData(s.subrange(p, i))))),
        None => (p, XmlState::Normal, Some(Err(Error::UnterminatedCData))),
    }
}

/// Reading the name of a document type whose keyword ends at `p`.
pub open spec fn step_doctype(s: Seq<u8>, p: int) -> Step {
    let w = skip_ws(s, p);
    if w >= s.len() {
        (w, XmlState::Normal, Some(Err(Error::UnexpectedEndOfFile)))
    } else {
        let (e, name) = tag_name(s, w);
        match name {
            Err(err) => (e, XmlState::Normal, Some(Err(err))),
            Ok(name) => (e, XmlState::AfterDoctypeName, Some(Ok(TokenView::DocumentType(name)))),
        }
    }
}

/// Reading a processing instruction whose `<?` ends at `p`.
pub open spec fn step_pi(s: Seq<u8>, p: int) -> Step {
    let (e, target) = tag_name(s, p);
    match target {
        Err(err) => (e, XmlState::Normal, Some(Err(err))),
        Ok(target) => {
            let w = skip_ws(s, e);
            if w >= s.len() {
                (w, XmlState::Normal, Some(Err(Error::UnexpectedEndOfFile)))
            } else {
                let (d, data) = pi_data(s, w);
                match data {
                    Err(err) => (d, XmlState::Normal, Some(Err(err))),
                    Ok(data) => if occurs_at(s, d, pi_close()) {
                        (
                            d + 2,
                            XmlState::Normal,
                            Some(Ok(TokenView::ProcessingInstruction { target, data })),
                        )
                    } else {
                        (d, XmlState::Normal, Some(Err(Error::UnterminatedProcessingInstruction)))
                    },
                }
            }
        },
    }
}

/// Reading an end tag whose `</` ends at `p`.
pub open spec fn step_end_tag(s: Seq<u8>, p: int) -> Step {
    let (e, name) = tag_name(s, p);
    match name {
        Err(err) => (e, XmlState::Normal, Some(Err(err))),
        Ok(name) => {
            let w = skip_ws(s, e);
            if w >= s.len() {
                (w, XmlState::Normal, None)
            } else {
                let w2 = skip_ws(s, w + 1);
                if w2 >= s.len() {
                    (w2, XmlState::Normal, None)
                } else {
                    (w2, XmlState::Normal, Some(Ok(TokenView::EndTag(name))))
                }
            }
        },
    }
}

/// Reading the name of a start tag whose `<` ends at `p`.
pub open spec fn step_start_tag(s: Seq<u8>, p: int) -> Step {
    let (e, name) = tag_name(s, p);
    match name {
        Err(err) => (e, XmlState::Normal, Some(Err(err))),
        Ok(name) => (e, XmlState::AfterStartTagName, Some(Ok(TokenView::StartTag(name)))),
    }
}

/// Reading an attribute at `p` in state `st`.
pub open spec fn step_attribute(s: Seq<u8>, p: int, st: XmlState) -> Step {
    let (e, pair) = attr_pair(s, p);
    match pair {
        Err(err) => (e, st, Some(Err(err))),
        Ok((name, value)) => (e, st, Some(Ok(TokenView::Attribute { name, value }))),
    }
}

/// One step in state `Normal` at a position inside the input.
pub open spec fn step_normal(s: Seq<u8>, p: int) -> Step {
    if s[p] == LT {
        if s[p + 1] == BANG {
            if occurs_at(s, p, comment_open()) {
                step_comment(s, p + 4)
            } else if occurs_at(s, p, cdata_open()) {
                step_cdata(s, p + 9)
            } else {
                step_doctype(s, p + 9)
            }
        } else if s[p + 1] == QUESTION {
            if occurs_at(s, p, xml_decl_open()) {
                (
                    p + 5,
                    XmlState::InsideXmlDeclaration,
                    Some(Ok(TokenView::Declaration(s.subrange(p + 2, p + 5)))),
                )
            } else {
                step_pi(s, p + 2)
            }
        } else if s[p + 1] == SLASH {
            step_end_tag(s, p + 2)
        } else {
            step_start_tag(s, p + 1)
        }
    } else {
        let e = until_byte(s, p, LT);
        (e, XmlState::Normal, Some(Ok(TokenView::Text(s.subrange(p, e)))))
    }
}

/// One step of the tokenizer from position `p` in state `st`.
pub open spec fn step(s: Seq<u8>, p: int, st: XmlState) -> Step {
    if p >= s.len() {
        (p, st, None)
    } else {
        match st {
            XmlState::Normal => step_normal(s, p),
            XmlState::InsideXmlDeclaration => {
                let w = skip_ws(s, p);
                if w >= s.len() {
                    (w, st, None)
                } else if occurs_at(s, w, pi_close()) {
                    (w + 2, XmlState::Normal, Some(Ok(TokenView::DeclarationTagEnd)))
                } else {
                    step_attribute(s, w, st)
                }
            },
            XmlState::AfterStartTagName => {
                let w = skip_ws(s, p);
                if w >= s.len() {
                    (w, st, None)
                } else if occurs_at(s, w, empty_tag_close()) {
                    (w + 2, XmlState::Normal, Some(Ok(TokenView::TagEnd { self_closing: true })))
                } else if s[w] == GT {
                    (w + 1, XmlState::Normal, Some(Ok(TokenView::TagEnd { self_closing: false })))
                } else {
                    step_attribute(s, w, st)
                }
            },
            _ => (p, st, None),
        }
    }
}

/// The inputs on which a step does not return: the tokenizer panics there
/// (`<!` that opens neither a comment, CDATA nor a document type; `<` as the
/// last byte; the states after a document type's name; text that runs to the
/// end of the input from a position past its start, whose slice is out of range).
pub open spec fn step_halts(s: Seq<u8>, p: int, st: XmlState) -> bool {
    &&& p < s.len()
    &&& match st {
        XmlState::Normal => if s[p] == LT {
            ||| p + 1 >= s.len()
            ||| (s[p + 1] == BANG && !occurs_at(s, p, comment_open()) && !occurs_at(
                s,
                p,
                cdata_open(),
            ) && !occurs_at(s, p, doctype_open()))
        } else {
            p > 0 && until_byte(s, p, LT) == s.len()
        },
        XmlState::AfterDoctypeName => true,
        XmlState::InternalSubset => true,
        _ => false,
    }
}

impl<'a> From<&'a str> for XmlTokenizer<'a> {
    fn from(value: &'a str) -> (t: Self) {
        XmlTokenizer { input: value, state: XmlState::Normal, pos: 0 }
    }
}

impl<'a> vstd::std_specs::convert::FromSpecImpl<&'a str> for XmlTokenizer<'a> {
    open spec fn obeys_from_spec() -> bool {
        true
    }

    open spec fn from_spec(v: &'a str) -> Self {
        XmlTokenizer::fresh(v)
    }
}

impl<'a> XmlTokenizer<'a> {
    /// The bytes of the input.
    pub closed spec fn input(&self) -> Seq<u8> {
        self.input.spec_bytes()
    }

    /// The current position.
    pub closed spec fn at(&self) -> int {
        self.pos as int
    }

    /// The current state.
    pub closed spec fn current_state(&self) -> XmlState {
        self.state
    }

    /// The tokenizer's fields agree with one another.
    pub closed spec fn wf(&self) -> bool {
        &&& self.pos <= self.input.spec_bytes().len()
    }

    /// The tokenizer at the start of `v`.
    pub closed spec fn fresh(v: &'a str) -> Self {
        XmlTokenizer { input: v, state: XmlState::Normal, pos: 0 }
    }

    /// A fresh tokenizer reads the bytes of its input from position 0 in state `Normal`.
    pub proof fn lemma_fresh(v: &'a str)
        ensures
            Self::fresh(v).wf(),
            Self::fresh(v).input() == v.spec_bytes(),
            Self::fresh(v).at() == 0,
            Self::fresh(v).current_state() == XmlState::Normal,
    {
    }

    /// The bytes of the input.
    fn bytes(&self) -> (b: &'a [u8])
        ensures
            b@ == self.input.spec_bytes(),
            b@.len() <= usize::MAX,
    {
        let b = self.input.as_bytes();
        let _n = b.len();
        b
    }

    /// Whether the next step would stop the program (see `step_halts`).
    pub fn halts_next(&self) -> (r: bool)
        requires
            self.wf(),
        ensures
            r == step_halts(self.input(), self.at(), self.current_state()),
    {
        if self.pos >= self.bytes().len() {
            return false;
        }
        match self.state {
            XmlState::Normal => {
                if self.bytes()[self.pos] == LT {
                    if self.pos + 1 >= self.bytes().len() {
                        return true;
                    }
                    if self.bytes()[self.pos + 1] == BANG {
                        let c: [u8; 4] = [LT, BANG, DASH, DASH];
                        let d: [u8; 9] = [LT, BANG, LBRACKET, 0x43, 0x44, 0x41, 0x54, 0x41, LBRACKET];
                        let t: [u8; 9] = [LT, BANG, 0x44, 0x4f, 0x43, 0x54, 0x59, 0x50, 0x45];
                        proof {
                            assert(c@ =~= comment_open());
                            assert(d@ =~= cdata_open());
                            assert(t@ =~= doctype_open());
                        }
                        return !matches_at(self.bytes(), self.pos, c.as_slice()) && !matches_at(
                            self.bytes(),
                            self.pos,
                            d.as_slice(),
                        ) && !matches_at(self.bytes(), self.pos, t.as_slice());
                    }
                    false
                } else {
                    let e = self.text_end();
                    self.pos > 0 && e == self.bytes().len()
                }
            },
            XmlState::AfterDoctypeName => true,
            XmlState::InternalSubset => true,
            _ => false,
        }
    }

    /// Reads the next token. `None` means the input is used up (or an end
    /// tag, a declaration or a start tag ran into its end).
    pub fn next(&mut self) -> (r: Option<Result<XmlToken<'a>, Error>>)
        requires
            old(self).wf(),
            !step_halts(old(self).input(), old(self).at(), old(self).current_state()),
        ensures
            final(self).wf(),
            final(self).input() == old(self).input(),
            (final(self).at(), final(self).current_state(), view_item(r)) == step(
                old(self).input(),
                old(self).at(),
                old(self).current_state(),
            ),
    {
        if self.pos >= self.bytes().len() {
            return None;
        }
        match self.state {
            XmlState::Normal => self.next_normal(),
            XmlState::InsideXmlDeclaration => self.next_inside_declaration(),
            XmlState::AfterStartTagName => self.next_after_start_tag_name(),
            _ => None,
        }
    }

    fn next_normal(&mut self) -> (r: Option<Result<XmlToken<'a>, Error>>)
        requires
            old(self).pos < old(self).input.spec_bytes().len(),
            old(self).state == XmlState::Normal,
            !step_halts(old(self).input.spec_bytes(), old(self).pos as int, XmlState::Normal),
        ensures
            final(self).pos <= final(self).input.spec_bytes().len(),
            final(self).input == old(self).input,
            (final(self).pos as int, final(self).state, view_item(r)) == step_normal(
                old(self).input.spec_bytes(),
                old(self).pos as int,
            ),
    {
        let bytes = self.bytes();
        if bytes[self.pos] == LT {
            let next_byte = bytes[self.pos + 1];
            if next_byte == BANG {
                self.next_markup_declaration()
            } else if next_byte == QUESTION {
                self.next_question()
            } else if next_byte == SLASH {
                self.pos += 2;
                self.next_end_tag()
            } else {
                self.pos += 1;
                let tag_name = match self.consume_tag_name() {
                    Ok(name) => name,
                    Err(e) => return Some(Err(e)),
                };
                self.state = XmlState::AfterStartTagName;
                Some(Ok(XmlToken::StartTag(tag_name)))
            }
        } else {
            match self.consume_text() {
                Ok(text) => Some(Ok(XmlToken::Text(text))),
                Err(e) => Some(Err(e)),
            }
        }
    }

    fn next_markup_declaration(&mut self) -> (r: Option<Result<XmlToken<'a>, Error>>)
        requires
            old(self).pos + 1 < old(self).input.spec_bytes().len(),
            old(self).state == XmlState::Normal,
            old(self).input.spec_bytes()[old(self).pos as int] == LT,
            old(self).input.spec_bytes()[old(self).pos + 1] == BANG,
            !step_halts(old(self).input.spec_bytes(), old(self).pos as int, XmlState::Normal),
        ensures
            final(self).pos <= final(self).input.spec_bytes().len(),
            final(self).input == old(self).input,
            (final(self).pos as int, final(self).state, view_item(r)) == step_normal(
                old(self).input.spec_bytes(),
                old(self).pos as int,
            ),
    {
        let bytes = self.bytes();
        let c: [u8; 4] = [LT, BANG, DASH, DASH];
        let d: [u8; 9] = [LT, BANG, LBRACKET, 0x43, 0x44, 0x41, 0x54, 0x41, LBRACKET];
        proof {
            assert(c@ =~= comment_open());
            assert(d@ =~= cdata_open());
        }
        if matches_at(bytes, self.pos, c.as_slice()) {
            self.pos += 4;
            match self.consume_comment() {
                Ok(comment) => Some(Ok(XmlToken::Comment(comment))),
                Err(e) => Some(Err(e)),
            }
        } else if matches_at(bytes, self.pos, d.as_slice()) {
            self.pos += 9;
            match self.consume_cdata() {
                Ok(data) => Some(Ok(XmlToken::CharacterData(data))),
                Err(e) => Some(Err(e)),
            }
        } else {
            proof {
                let t: Seq<u8> = doctype_open();
                assert(occurs_at(bytes@, self.pos as int, t));
            }
            self.pos += 9;
            self.advance_past_whitespaces();
            if self.pos >= bytes.len() {
                return Some(Err(Error::UnexpectedEndOfFile));
            }
            let name = match self.consume_tag_name() {
                Ok(name) => name,
                Err(e) => return Some(Err(e)),
            };
            self.state = XmlState::AfterDoctypeName;
            Some(Ok(XmlToken::DocumentType(name)))
        }
    }

    fn next_question(&mut self) -> (r: Option<Result<XmlToken<'a>, Error>>)
        requires
            old(self).pos + 1 < old(self).input.spec_bytes().len(),
            old(self).state == XmlState::Normal,
            old(self).input.spec_bytes()[old(self).pos as int] == LT,
            old(self).input.spec_bytes()[old(self).pos + 1] == QUESTION,
        ensures
            final(self).pos <= final(self).input.spec_bytes().len(),
            final(self).input == old(self).input,
            (final(self).pos as int, final(self).state, view_item(r)) == step_normal(
                old(self).input.spec_bytes(),
                old(self).pos as int,
            ),
    {
        let bytes = self.bytes();
        let x: [u8; 6] = [LT, QUESTION, 0x78, 0x6d, 0x6c, SPACE];
        proof {
            assert(x@ =~= xml_decl_open());
        }
        if matches_at(bytes, self.pos, x.as_slice()) {
            self.pos += 5;
            self.state = XmlState::InsideXmlDeclaration;
            return Some(Ok(XmlToken::Declaration(&bytes[self.pos - 3..self.pos])));
        }
        self.pos += 2;
        let target = match self.consume_tag_name() {
            Ok(name) => name,
            Err(e) => return Some(Err(e)),
        };
        self.advance_past_whitespaces();
        if self.pos >= bytes.len() {
            return Some(Err(Error::UnexpectedEndOfFile));
        }
        let data = match self.consume_processing_instruction_data() {
            Ok(data) => data,
            Err(e) => return Some(Err(e)),
        };
        let close: [u8; 2] = [QUESTION, GT];
        proof {
            assert(close@ =~= pi_close());
        }
        if !matches_at(bytes, self.pos, close.as_slice()) {
            return Some(Err(Error::UnterminatedProcessingInstruction));
        }
        self.pos += 2;
        self.state = XmlState::Normal;
        Some(Ok(XmlToken::ProcessingInstruction { target, data }))
    }

    fn next_end_tag(&mut self) -> (r: Option<Result<XmlToken<'a>, Error>>)
        requires
            old(self).pos <= old(self).input.spec_bytes().len(),
            old(self).state == XmlState::Normal,
        ensures
            final(self).pos <= final(self).input.spec_bytes().len(),
            final(self).input == old(self).input,
            (final(self).pos as int, final(self).state, view_item(r)) == step_end_tag(
                old(self).input.spec_bytes(),
                old(self).pos as int,
            ),
    {
        let bytes = self.bytes();
        let tag_name = match self.consume_tag_name() {
            Ok(name) => name,
            Err(e) => return Some(Err(e)),
        };
        self.advance_past_whitespaces();
        if self.pos >= bytes.len() {
            return None;
        }
        self.pos += 1;
        self.state = XmlState::Normal;
        self.advance_past_whitespaces();
        if self.pos >= bytes.len() {
            return None;
        }
        Some(Ok(XmlToken::EndTag(tag_name)))
    }

    fn next_inside_declaration(&mut self) -> (r: Option<Result<XmlToken<'a>, Error>>)
        requires
            old(self).pos < old(self).input.spec_bytes().len(),
            old(self).state == XmlState::InsideXmlDeclaration,
        ensures
            final(self).pos <= final(self).input.spec_bytes().len(),
            final(self).input == old(self).input,
            (final(self).pos as int, final(self).state, view_item(r)) == step(
                old(self).input.spec_bytes(),
                old(self).pos as int,
                XmlState::InsideXmlDeclaration,
            ),
    {
        let bytes = self.bytes();
        self.advance_past_whitespaces();
        if self.pos >= bytes.len() {
            return None;
        }
        let close: [u8; 2] = [QUESTION, GT];
        proof {
            assert(close@ =~= pi_close());
        }
        if matches_at(bytes, self.pos, close.as_slice()) {
            self.pos += 2;
            self.state = XmlState::Normal;
            Some(Ok(XmlToken::DeclarationTagEnd))
        } else {
            match self.consume_attribute_pair() {
                Ok((name, value)) => Some(Ok(XmlToken::Attribute { name, value })),
                Err(e) => Some(Err(e)),
            }
        }
    }

    fn next_after_start_tag_name(&mut self) -> (r: Option<Result<XmlToken<'a>, Error>>)
        requires
            old(self).pos < old(self).input.spec_bytes().len(),
            old(self).state == XmlState::AfterStartTagName,
        ensures
            final(self).pos <= final(self).input.spec_bytes().len(),
            final(self).input == old(self).input,
            (final(self).pos as int, final(self).state, view_item(r)) == step(
                old(self).input.spec_bytes(),
                old(self).pos as int,
                XmlState::AfterStartTagName,
            ),
    {
        let bytes = self.bytes();
        self.advance_past_whitespaces();
        if self.pos >= bytes.len() {
            return None;
        }
        let close: [u8; 2] = [SLASH, GT];
        proof {
            assert(close@ =~= empty_tag_close());
        }
        if matches_at(bytes, self.pos, close.as_slice()) {
            self.pos += 2;
            self.state = XmlState::Normal;
            Some(Ok(XmlToken::TagEnd { self_closing: true }))
        } else if bytes[self.pos] == GT {
            self.pos += 1;
            self.state = XmlState::Normal;
            Some(Ok(XmlToken::TagEnd { self_closing: false }))
        } else {
            match self.consume_attribute_pair() {
                Ok((name, value)) => Some(Ok(XmlToken::Attribute { name, value })),
                Err(e) => Some(Err(e)),
            }
        }
    }

    /// Where the text at the current position ends.
    fn text_end(&self) -> (e: usize)
        requires
            self.pos <= self.input.spec_bytes().len(),
        ensures
            e == until_byte(self.input.spec_bytes(), self.pos as int, LT),
            self.pos <= e <= self.input.spec_bytes().len(),
    {
        let mut i = self.pos;
        while i < self.bytes().len() && self.bytes()[i] != LT
            invariant
                self.pos <= i <= self.input.spec_bytes().len(),
                forall|k: int| self.pos <= k < i ==> #[trigger] self.input.spec_bytes()[k] != LT,
            decreases self.input.spec_bytes().len() - i,
        {
            i += 1;
        }
        proof {
            assert(byte_run_end(self.input.spec_bytes(), self.pos as int, i as int, LT));
            lemma_until_byte(self.input.spec_bytes(), self.pos as int, i as int, LT);
        }
        i
    }

    fn advance_past_whitespaces(&mut self)
        requires
            old(self).pos <= old(self).input.spec_bytes().len(),
        ensures
            final(self).pos == skip_ws(old(self).input.spec_bytes(), old(self).pos as int),
            final(self).pos <= final(self).input.spec_bytes().len(),
            final(self).input == old(self).input,
            final(self).state == old(self).state,
    {
        let mut i = self.pos;
        while i < self.bytes().len() && is_ascii_ws_byte(self.bytes()[i])
            invariant
                self.pos <= i <= self.input.spec_bytes().len(),
                forall|k: int| self.pos <= k < i ==> is_ascii_ws(#[trigger] self.input.spec_bytes()[k]),
            decreases self.input.spec_bytes().len() - i,
        {
            i += 1;
        }
        proof {
            assert(run_end(self.input.spec_bytes(), self.pos as int, i as int, |b: u8| !is_ascii_ws(b)));
            lemma_run_stop(self.input.spec_bytes(), self.pos as int, i as int, |b: u8| !is_ascii_ws(b));
        }
        self.pos = i;
    }

    fn consume_tag_name(&mut self) -> (r: Result<&'a [u8], Error>)
        requires
            old(self).pos <= old(self).input.spec_bytes().len(),
        ensures
            (final(self).pos as int, match r {
                Ok(v) => Ok(v@),
                Err(e) => Err(e),
            }) == tag_name(old(self).input.spec_bytes(), old(self).pos as int),
            final(self).pos <= final(self).input.spec_bytes().len(),
            final(self).input == old(self).input,
            final(self).state == old(self).state,
    {
        let mut len = self.pos;
        while len < self.bytes().len() && !ends_name_byte(self.bytes()[len])
            invariant
                self.pos <= len <= self.input.spec_bytes().len(),
                forall|k: int| self.pos <= k < len ==> !ends_name(#[trigger] self.input.spec_bytes()[k]),
            decreases self.input.spec_bytes().len() - len,
        {
            len += 1;
        }
        proof {
            assert(run_end(self.input.spec_bytes(), self.pos as int, len as int, |b: u8| ends_name(b)));
            lemma_run_stop(self.input.spec_bytes(), self.pos as int, len as int, |b: u8| ends_name(b));
        }
        if len == self.pos {
            return Err(Error::EmptyTagName);
        }
        let all: &'a [u8] = self.bytes();
        let tag_name = &all[self.pos..len];
        self.pos = len;
        Ok(tag_name)
    }

    fn consume_processing_instruction_data(&mut self) -> (r: Result<&'a [u8], Error>)
        requires
            old(self).pos <= old(self).input.spec_bytes().len(),
        ensures
            (final(self).pos as int, match r {
                Ok(v) => Ok(v@),
                Err(e) => Err(e),
            }) == pi_data(old(self).input.spec_bytes(), old(self).pos as int),
            final(self).pos <= final(self).input.spec_bytes().len(),
            final(self).input == old(self).input,
            final(self).state == old(self).state,
    {
        let mut len = self.pos;
        while len < self.bytes().len() && self.bytes()[len] != QUESTION
            invariant
                self.pos <= len <= self.input.spec_bytes().len(),
                forall|k: int| self.pos <= k < len ==> #[trigger] self.input.spec_bytes()[k] != QUESTION,
            decreases self.input.spec_bytes().len() - len,
        {
            len += 1;
        }
        proof {
            assert(byte_run_end(self.input.spec_bytes(), self.pos as int, len as int, QUESTION));
            lemma_until_byte(self.input.spec_bytes(), self.pos as int, len as int, QUESTION);
        }
        if len == self.pos {
            return Err(Error::EmptyProcessingInstruction);
        }
        let all: &'a [u8] = self.bytes();
        let data_value = &all[self.pos..len];
        self.pos = len;
        Ok(data_value)
    }

    fn consume_attribute_name(&mut self) -> (r: Result<&'a [u8], Error>)
        requires
            old(self).pos <= old(self).input.spec_bytes().len(),
        ensures
            (final(self).pos as int, match r {
                Ok(v) => Ok(v@),
                Err(e) => Err(e),
            }) == attr_name(old(self).input.spec_bytes(), old(self).pos as int),
            final(self).pos <= final(self).input.spec_bytes().len(),
            final(self).input == old(self).input,
            final(self).state == old(self).state,
    {
        let mut len = self.pos;
        while len < self.bytes().len() && !ends_attr_name_byte(self.bytes()[len])
            invariant
                self.pos <= len <= self.input.spec_bytes().len(),
                forall|k: int| self.pos <= k < len ==> !ends_attr_name(#[trigger] self.input.spec_bytes()[k]),
            decreases self.input.spec_bytes().len() - len,
        {
            len += 1;
        }
        proof {
            assert(run_end(self.input.spec_bytes(), self.pos as int, len as int, |b: u8| ends_attr_name(b)));
            lemma_run_stop(self.input.spec_bytes(), self.pos as int, len as int, |b: u8| ends_attr_name(b));
        }
        if len >= self.bytes().len() {
            return Err(Error::UnexpectedEndOfFile);
        }
        if len == self.pos {
            return Err(Error::EmptyAttributeName);
        }
        let all: &'a [u8] = self.bytes();
        let attribute_name = &all[self.pos..len];
        self.pos = len;
        Ok(attribute_name)
    }

    fn consume_attribute_value(&mut self, quote_char: u8) -> (r: Result<&'a [u8], Error>)
        requires
            old(self).pos <= old(self).input.spec_bytes().len(),
        ensures
            (final(self).pos as int, match r {
                Ok(v) => Ok(v@),
                Err(e) => Err(e),
            }) == attr_value(old(self).input.spec_bytes(), old(self).pos as int, quote_char),
            final(self).pos <= final(self).input.spec_bytes().len(),
            final(self).input == old(self).input,
            final(self).state == old(self).state,
    {
        let mut len = self.pos;
        while len < self.bytes().len() && self.bytes()[len] != quote_char
            invariant
                self.pos <= len <= self.input.spec_bytes().len(),
                forall|k: int| self.pos <= k < len ==> #[trigger] self.input.spec_bytes()[k] != quote_char,
            decreases self.input.spec_bytes().len() - len,
        {
            len += 1;
        }
        proof {
            assert(byte_run_end(self.input.spec_bytes(), self.pos as int, len as int, quote_char));
            lemma_until_byte(self.input.spec_bytes(), self.pos as int, len as int, quote_char);
        }
        if len >= self.bytes().len() {
            return Err(Error::UnexpectedEndOfFile);
        }
        if len == self.pos {
            return Err(Error::EmptyAttributeValue);
        }
        let all: &'a [u8] = self.bytes();
        let value = &all[self.pos..len];
        self.pos = len + 1;
        Ok(value)
    }

    fn consume_attribute_pair(&mut self) -> (r: Result<(&'a [u8], &'a [u8]), Error>)
        requires
            old(self).pos <= old(self).input.spec_bytes().len(),
        ensures
            (final(self).pos as int, match r {
                Ok((n, v)) => Ok((n@, v@)),
                Err(e) => Err(e),
            }) == attr_pair(old(self).input.spec_bytes(), old(self).pos as int),
            final(self).pos <= final(self).input.spec_bytes().len(),
            final(self).input == old(self).input,
            final(self).state == old(self).state,
    {
        let attribute_name = match self.consume_attribute_name() {
            Ok(n) => n,
            Err(e) => return Err(e),
        };
        self.advance_past_whitespaces();
        if self.pos >= self.bytes().len() {
            return Err(Error::UnexpectedEndOfFile);
        }
        if self.bytes()[self.pos] == EQUALS {
            self.pos += 1;
        } else {
            return Err(Error::UnexpectedAttributeFormat);
        }
        self.advance_past_whitespaces();
        if self.pos >= self.bytes().len() {
            return Err(Error::UnexpectedEndOfFile);
        }
        let quote_char = if self.bytes()[self.pos] == APOS || self.bytes()[self.pos] == DQUOTE {
            self.bytes()[self.pos]
        } else {
            return Err(Error::UnexpectedAttributeFormat);
        };
        self.pos += 1;
        let attribute_value = match self.consume_attribute_value(quote_char) {
            Ok(v) => v,
            Err(e) => return Err(e),
        };
        Ok((attribute_name, attribute_value))
    }

    fn consume_text(&mut self) -> (r: Result<&'a [u8], Error>)
        requires
            old(self).pos < old(self).input.spec_bytes().len(),
            !(old(self).pos > 0 && until_byte(old(self).input.spec_bytes(), old(self).pos as int, LT)
                == old(self).input.spec_bytes().len()),
        ensures
            final(self).pos == until_byte(old(self).input.spec_bytes(), old(self).pos as int, LT),
            r matches Ok(v) && v@ == old(self).input.spec_bytes().subrange(
                old(self).pos as int,
                final(self).pos as int,
            ),
            final(self).pos <= final(self).input.spec_bytes().len(),
            final(self).input == old(self).input,
            final(self).state == old(self).state,
    {
        let e = self.text_end();
        let all: &'a [u8] = self.bytes();
        let content = &all[self.pos..e];
        self.pos = e;
        Ok(content)
    }

    fn consume_comment(&mut self) -> (r: Result<&'a [u8], Error>)
        requires
            old(self).pos <= old(self).input.spec_bytes().len(),
        ensures
            (final(self).pos as int, XmlState::Normal, Some(
                match r {
                    Ok(v) => Ok(TokenView::Comment(v@)),
                    Err(e) => Err(e),
                },
            )) == step_comment(old(self).input.spec_bytes(), old(self).pos as int),
            final(self).pos <= final(self).input.spec_bytes().len(),
            final(self).input == old(self).input,
            final(self).state == old(self).state,
    {
        let delim: [u8; 3] = [DASH, DASH, GT];
        proof {
            assert(delim@ =~= comment_end());
        }
        match self.find_sequence(delim.as_slice()) {
            Some(i) => {
                let all: &'a [u8] = self.bytes();
                let content = &all[self.pos..i];
                self.pos = i + 3;
                Ok(content)
            },
            None => Err(Error::UnterminatedComment),
        }
    }

    fn consume_cdata(&mut self) -> (r: Result<&'a [u8], Error>)
        requires
            old(self).pos <= old(self).input.spec_bytes().len(),
        ensures
            (final(self).pos as int, XmlState::Normal, Some(
                match r {
                    Ok(v) => Ok(TokenView::CharacterData(v@)),
                    Err(e) => Err(e),
                },
            )) == step_cdata(old(self).input.spec_bytes(), old(self).pos as int),
            final(self).pos <= final(self).input.spec_bytes().len(),
            final(self).input == old(self).input,
            final(self).state == old(self).state,
    {
        let delim: [u8; 3] = [RBRACKET, RBRACKET, GT];
        proof {
            assert(delim@ =~= cdata_end());
        }
        match self.find_sequence(delim.as_slice()) {
            Some(i) => {
                let all: &'a [u8] = self.bytes();
                let content = &all[self.pos..i];
                self.pos = i + 3;
                Ok(content)
            },
            None => Err(Error::UnterminatedCData),
        }
    }

    /// The first position at or after the current one at which `delim` occurs.
    fn find_sequence(&self, delim: &[u8]) -> (r: Option<usize>)
        requires
            self.pos <= self.input.spec_bytes().len(),
            delim@.len() == 3,
        ensures
            r matches Some(i) ==> i + 3 <= self.input.spec_bytes().len(),
            match r {
                Some(i) => find_from(self.input.spec_bytes(), self.pos as int, delim@) == Some(i as int),
                None => find_from(self.input.spec_bytes(), self.pos as int, delim@) is None,
            },
    {
        let mut i = self.pos;
        while i < self.bytes().len()
            invariant
                self.pos <= i <= self.input.spec_bytes().len(),
                delim@.len() == 3,
                forall|j: int| self.pos <= j < i ==> !occurs_at(self.input.spec_bytes(), j, delim@),
            decreases self.input.spec_bytes().len() - i,
        {
            if matches_at(self.bytes(), i, delim) {
                proof {
                    assert(first_occurrence(self.input.spec_bytes(), self.pos as int, i as int, delim@));
                    lemma_find_from_some(self.input.spec_bytes(), self.pos as int, i as int, delim@);
                }
                return Some(i);
            }
            i += 1;
        }
        proof {
            assert forall|j: int| self.pos <= j implies !occurs_at(self.input.spec_bytes(), j, delim@) by {
                if j >= self.input.spec_bytes().len() {
                }
            }
            assert(no_occurrence(self.input.spec_bytes(), self.pos as int, delim@));
            lemma_find_from_none(self.input.spec_bytes(), self.pos as int, delim@);
        }
        None
    }
}

/// Whether `b` is ASCII whitespace.
pub fn is_ascii_ws_byte(b: u8) -> (r: bool)
    ensures
        r == is_ascii_ws(b),
{
    b == SPACE || b == TAB || b == LF || b == FF || b == CR
}

/// Whether `b` ends a tag name.
pub fn ends_name_byte(b: u8) -> (r: bool)
    ensures
        r == ends_name(b),
{
    b == SPACE || b == TAB || b == LF || b == CR || b == GT || b == SLASH || b == QUESTION
}

/// Whether `b` ends an attribute name.
pub fn ends_attr_name_byte(b: u8) -> (r: bool)
    ensures
        r == ends_attr_name(b),
{
    b == EQUALS || ends_name_byte(b)
}

// ---------------------------------------------------------------------------
// Laws of the tokenizer.

proof fn lemma_skip_ws_bounds(s: Seq<u8>, p: int)
    requires
        0 <= p <= s.len(),
    ensures
        p <= skip_ws(s, p) <= s.len(),
{
    crate::bs::lemma_run_end_exists(s, p, |b: u8| !is_ascii_ws(b));
}

proof fn lemma_tag_name_bounds(s: Seq<u8>, p: int)
    requires
        0 <= p <= s.len(),
    ensures
        p <= tag_name(s, p).0 <= s.len(),
        tag_name(s, p).1 is Ok ==> tag_name(s, p).0 > p,
{
    crate::bs::lemma_run_end_exists(s, p, |b: u8| ends_name(b));
}

proof fn lemma_attr_pair_bounds(s: Seq<u8>, p: int)
    requires
        0 <= p <= s.len(),
    ensures
        p <= attr_pair(s, p).0 <= s.len(),
        attr_pair(s, p).1 is Ok ==> attr_pair(s, p).0 > p,
{
    crate::bs::lemma_run_end_exists(s, p, |b: u8| ends_attr_name(b));
    let (p1, name) = attr_name(s, p);
    if name is Ok {
        lemma_skip_ws_bounds(s, p1);
        let w = skip_ws(s, p1);
        if w < s.len() && s[w] == EQUALS {
            lemma_skip_ws_bounds(s, w + 1);
            let w2 = skip_ws(s, w + 1);
            if w2 < s.len() {
                crate::bs::lemma_until_byte_bounds(s, w2 + 1, s[w2]);
            }
        }
    }
}

proof fn lemma_find_bounds(s: Seq<u8>, p: int, pat: Seq<u8>)
    requires
        pat.len() == 3,
    ensures
        find_from(s, p, pat) matches Some(i) ==> p <= i && i + 3 <= s.len(),
{
    if exists|i: int| first_occurrence(s, p, i, pat) {
        let i = choose|i: int| first_occurrence(s, p, i, pat);
        assert(first_occurrence(s, p, i, pat));
    }
}

/// Once a step finds nothing more, the tokenizer stands at the end of the
/// input, and every later step finds nothing and changes nothing.
pub proof fn law_exhausted_stays_exhausted(s: Seq<u8>, p: int, st: XmlState)
    requires
        0 <= p,
        !step_halts(s, p, st),
    ensures
        step(s, p, st).2 is None ==> step(s, p, st).0 >= s.len(),
        p >= s.len() ==> step(s, p, st) == (p, st, None::<Result<TokenView, Error>>),
{
    if p < s.len() && step(s, p, st).2 is None {
        match st {
            XmlState::Normal => {
                if s[p] == LT && s[p + 1] == SLASH {
                    lemma_tag_name_bounds(s, p + 2);
                }
            },
            _ => {},
        }
    }
}

/// A step that hands out a token moves the tokenizer forward and keeps it
/// inside the input.
pub proof fn law_token_advances(s: Seq<u8>, p: int, st: XmlState)
    requires
        0 <= p < s.len(),
        !step_halts(s, p, st),
        step(s, p, st).2 matches Some(Ok(_)),
    ensures
        p < step(s, p, st).0 <= s.len(),
{
    match st {
        XmlState::Normal => {
            if s[p] == LT {
                if s[p + 1] == BANG {
                    if occurs_at(s, p, comment_open()) {
                        lemma_find_bounds(s, p + 4, comment_end());
                    } else if occurs_at(s, p, cdata_open()) {
                        lemma_find_bounds(s, p + 9, cdata_end());
                    } else {
                        lemma_skip_ws_bounds(s, p + 9);
                        lemma_tag_name_bounds(s, skip_ws(s, p + 9));
                    }
                } else if s[p + 1] == QUESTION {
                    if !occurs_at(s, p, xml_decl_open()) {
                        lemma_tag_name_bounds(s, p + 2);
                        let e = tag_name(s, p + 2).0;
                        lemma_skip_ws_bounds(s, e);
                        let w = skip_ws(s, e);
                        if w < s.len() {
                            crate::bs::lemma_until_byte_bounds(s, w, QUESTION);
                        }
                    }
                } else if s[p + 1] == SLASH {
                    lemma_tag_name_bounds(s, p + 2);
                    let e = tag_name(s, p + 2).0;
                    lemma_skip_ws_bounds(s, e);
                    let w = skip_ws(s, e);
                    if w < s.len() {
                        lemma_skip_ws_bounds(s, w + 1);
                    }
                } else {
                    lemma_tag_name_bounds(s, p + 1);
                }
            } else {
                crate::bs::lemma_until_byte_bounds(s, p, LT);
            }
        },
        _ => {
            lemma_skip_ws_bounds(s, p);
            let w = skip_ws(s, p);
            if w < s.len() {
                lemma_attr_pair_bounds(s, w);
            }
        },
    }
}

} // verus!
