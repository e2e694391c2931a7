//! A lenient HTML tokenizer built on the byte scanner: text, tags with their
//! attributes, comments, character data and document types, and the raw
//! text inside `style` and `script`. Its tokens borrow from the input.
use vstd::prelude::*;
use crate::bs::{
    Scanner, ascii, run_end, run_stop, lemma_run_stop, lemma_run_end_exists, until_byte,
    lemma_until_byte, lemma_until_byte_bounds, byte_run_end, occurs_at, find_from,
    first_occurrence, lemma_find_from_some, lemma_find_from_none, comment_end, cdata_end, is_space,
    ends_tag_name, ends_attribute_name, ends_unquoted_value, bytes_eq, DQUOTE, APOS, DASH, SLASH,
    LT, EQUALS, GT, LBRACKET, BANG, SPACE,
};
use crate::formats::html::errors::{Error, ErrorKind};
use crate::text::{utf8_lossy, lossy_string};

verus! {

/// Where the tokenizer stands: reading content, after a start tag's name, or
/// inside a `style` or `script` element.
#[derive(Debug, PartialEq, Eq, Structural, Clone, Copy)]
pub enum HtmlState {
    Data,
    AfterStartTagName,
    RawText,
}

/// A token; every slice in it borrows from the input.
#[derive(Debug, PartialEq, Eq)]
pub enum HtmlToken<'a> {
    Text(&'a [u8]),
    RawText(&'a [u8]),
    StartTag(&'a [u8]),
    EndTag(&'a [u8]),
    TagEnd { self_closing: bool },
    Comment(&'a [u8]),
    CData(&'a [u8]),
    DocType(&'a [u8]),
    Attribute { name: &'a [u8], value: &'a [u8] },
    BoolAttribute { name: &'a [u8] },
}

/// A token with its slices taken as byte sequences.
pub enum TokenView {
    Text(Seq<u8>),
    RawText(Seq<u8>),
    StartTag(Seq<u8>),
    EndTag(Seq<u8>),
    TagEnd { self_closing: bool },
    Comment(Seq<u8>),
    CData(Seq<u8>),
    DocType(Seq<u8>),
    Attribute { name: Seq<u8>, value: Seq<u8> },
    BoolAttribute { name: Seq<u8> },
}

impl<'a> View for HtmlToken<'a> {
    type V = TokenView;

    open spec fn view(&self) -> TokenView {
        match self {
            HtmlToken::Text(b) => TokenView::Text(b@),
            HtmlToken::RawText(b) => TokenView::RawText(b@),
            HtmlToken::StartTag(b) => TokenView::StartTag(b@),
            HtmlToken::EndTag(b) => TokenView::EndTag(b@),
            HtmlToken::TagEnd { self_closing } => TokenView::TagEnd { self_closing: *self_closing },
            HtmlToken::Comment(b) => TokenView::Comment(b@),
            HtmlToken::CData(b) => TokenView::CData(b@),
            HtmlToken::DocType(b) => TokenView::DocType(b@),
            HtmlToken::Attribute { name, value } => TokenView::Attribute {
                name: name@,
                value: value@,
            },
            HtmlToken::BoolAttribute { name } => TokenView::BoolAttribute { name: name@ },
        }
    }
}

/// What one step of the tokenizer hands back, with its token viewed.
pub open spec fn view_item(r: Option<Result<HtmlToken, Error>>) -> Option<Result<TokenView, Error>> {
    match r {
        None => None,
        Some(Ok(t)) => Some(Ok(t@)),
        Some(Err(e)) => Some(Err(e)),
    }
}

/// A token as text: its kind and, in brackets, its parts, each slice read as
/// UTF-8 with invalid sequences replaced.
pub open spec fn token_text(t: TokenView) -> Seq<char> {
    match t {
        TokenView::Text(b) => "Text("@ + utf8_lossy(b) + ")"@,
        TokenView::RawText(b) => "RawText("@ + utf8_lossy(b) + ")"@,
        TokenView::StartTag(b) => "StartTag("@ + utf8_lossy(b) + ")"@,
        TokenView::EndTag(b) => "EndTag("@ + utf8_lossy(b) + ")"@,
        TokenView::TagEnd { self_closing } => "TagEnd(self_closing="@ + (if self_closing {
            "true"@
        } else {
            "false"@
        }) + ")"@,
        TokenView::Comment(b) => "Comment("@ + utf8_lossy(b) + ")"@,
        TokenView::CData(b) => "CData("@ + utf8_lossy(b) + ")"@,
        TokenView::DocType(b) => "DocType("@ + utf8_lossy(b) + ")"@,
        TokenView::Attribute { name, value } => "Attribute(name="@ + utf8_lossy(name)
            + ", value="@ + utf8_lossy(value) + ")"@,
        TokenView::BoolAttribute { name } => "Attribute(name="@ + utf8_lossy(name) + ")"@,
    }
}

/// `label`, the bytes read as UTF-8 with invalid sequences replaced, and `)`.
fn bracketed(label: &str, b: &[u8]) -> (s: String)
    ensures
        s@ == label@ + utf8_lossy(b@) + ")"@,
{
    let mut s = String::from_str(label);
    let t = lossy_string(b);
    s.append(t.as_str());
    s.append(")");
    s
}

impl<'a> HtmlToken<'a> {
    /// The token as text (see `token_text`).
    pub fn to_string(&self) -> (s: String)
        ensures
            s@ == token_text(self@),
    {
        match self {
            HtmlToken::Text(b) => bracketed("Text(", b),
            HtmlToken::RawText(b) => bracketed("RawText(", b),
            HtmlToken::StartTag(b) => bracketed("StartTag(", b),
            HtmlToken::EndTag(b) => bracketed("EndTag(", b),
            HtmlToken::TagEnd { self_closing } => {
                let mut s = String::from_str("TagEnd(self_closing=");
                if *self_closing {
                    s.append("true");
                } else {
                    s.append("false");
                }
                s.append(")");
                s
            },
            HtmlToken::Comment(b) => bracketed("Comment(", b),
            HtmlToken::CData(b) => bracketed("CData(", b),
            HtmlToken::DocType(b) => bracketed("DocType(", b),
            HtmlToken::Attribute { name, value } => {
                let mut s = String::from_str("Attribute(name=");
                let a = lossy_string(name);
                s.append(a.as_str());
                s.append(", value=");
                let b = lossy_string(value);
                s.append(b.as_str());
                s.append(")");
                s
            },
            HtmlToken::BoolAttribute { name } => bracketed("Attribute(name=", name),
        }
    }
}

/// The tokenizer: a scanner, a state, and the name of the `style` or
/// `script` element whose raw text comes next.
pub struct HtmlTokenizer<'a> {
    scanner: Scanner<'a>,
    state: HtmlState,
    raw_text_tag_name: Option<&'a [u8]>,
}

// ---------------------------------------------------------------------------
// The rules, over the input bytes `s` and a position `p`.

/// A step's result: the position, the state and the pending raw-text element
/// after it, and what it hands out.
pub type Step = (int, HtmlState, Option<Seq<u8>>, Option<Result<TokenView, Error>>);

/// A step that reports an unexpected end at position `p`.
pub open spec fn fail(p: int, st: HtmlState, raw: Option<Seq<u8>>) -> Step {
    (p, st, raw, Some(Err(Error { kind: ErrorKind::UnexpectedEndOfFile, pos: p as usize })))
}

/// A step that hands out token `t`.
pub open spec fn emit(p: int, st: HtmlState, raw: Option<Seq<u8>>, t: TokenView) -> Step {
    (p, st, raw, Some(Ok(t)))
}

/// Where the spaces, tabs, line feeds and carriage returns at `p` end.
pub open spec fn skip(s: Seq<u8>, p: int) -> int {
    run_stop(s, p, |b: u8| !is_space(b))
}

/// Where the tag name at `p` ends.
pub open spec fn name_end(s: Seq<u8>, p: int) -> int {
    run_stop(s, p, |b: u8| ends_tag_name(b))
}

/// Where the attribute name at `p` ends.
pub open spec fn attribute_name_end(s: Seq<u8>, p: int) -> int {
    run_stop(s, p, |b: u8| ends_attribute_name(b))
}

/// Where the unquoted attribute value at `p` ends.
pub open spec fn unquoted_end(s: Seq<u8>, p: int) -> int {
    run_stop(s, p, |b: u8| ends_unquoted_value(b))
}

/// `<!--`.
pub open spec fn comment_open() -> Seq<u8> {
    seq![LT, BANG, DASH, DASH]
}

/// `<![CDATA[`.
pub open spec fn cdata_open() -> Seq<u8> {
    ascii("<![CDATA["@)
}

/// `<!DOCTYPE ` (with the trailing space).
pub open spec fn doctype_open() -> Seq<u8> {
    ascii("<!DOCTYPE "@)
}

/// Whether a start tag's name opens raw text: `style` or `script`.
pub open spec fn is_raw_text_element(name: Seq<u8>) -> bool {
    name == ascii("style"@) || name == ascii("script"@)
}

/// One step in state `Data` at a position inside the input.
pub open spec fn data(s: Seq<u8>, p: int, raw: Option<Seq<u8>>) -> Step {
    let st = HtmlState::Data;
    if s[p] != LT {
        let e = until_byte(s, p, LT);
        emit(e, st, raw, TokenView::Text(s.subrange(p, e)))
    } else if p + 1 < s.len() && s[p + 1] == BANG {
        if occurs_at(s, p, comment_open()) {
            match find_from(s, p + 4, comment_end()) {
                Some(i) => emit(i + 3, st, raw, TokenView::Comment(s.subrange(p + 4, i))),
                None => fail(p + 4, st, raw),
            }
        } else if occurs_at(s, p, cdata_open()) {
            match find_from(s, p + 9, cdata_end()) {
                Some(i) => emit(i + 3, st, raw, TokenView::CData(s.subrange(p + 9, i))),
                None => fail(p + 9, st, raw),
            }
        } else if occurs_at(s, p, doctype_open()) {
            let g = until_byte(s, p + 10, GT);
            if g < s.len() {
                emit(g + 1, st, raw, TokenView::DocType(s.subrange(p + 10, g)))
            } else {
                fail(p + 10, st, raw)
            }
        } else {
            let g = until_byte(s, p + 1, GT);
            if g < s.len() {
                emit(g + 1, st, raw, TokenView::Comment(s.subrange(p + 1, g)))
            } else {
                fail(p + 1, st, raw)
            }
        }
    } else if occurs_at(s, p, seq![LT, SLASH]) {
        let w = skip(s, p + 2);
        if w >= s.len() {
            fail(w, st, raw)
        } else {
            let e = name_end(s, w);
            if e >= s.len() {
                fail(w, st, raw)
            } else {
                let g = until_byte(s, e, GT);
                if g >= s.len() {
                    fail(e, st, raw)
                } else {
                    emit(g + 1, st, raw, TokenView::EndTag(s.subrange(w, e)))
                }
            }
        }
    } else {
        let e = name_end(s, p + 1);
        if e >= s.len() {
            fail(p + 1, st, raw)
        } else {
            let name = s.subrange(p + 1, e);
            emit(
                e,
                HtmlState::AfterStartTagName,
                if is_raw_text_element(name) {
                    Some(name)
                } else {
                    raw
                },
                TokenView::StartTag(name),
            )
        }
    }
}

/// An attribute at `p`: a name, then `=` and a value (quoted or not), or a
/// name alone.
pub open spec fn attribute(s: Seq<u8>, p: int, raw: Option<Seq<u8>>) -> Step {
    let st = HtmlState::AfterStartTagName;
    let w0 = skip(s, p);
    if w0 >= s.len() {
        fail(w0, st, raw)
    } else {
        let e = attribute_name_end(s, w0);
        if e >= s.len() {
            fail(w0, st, raw)
        } else {
            let name = s.subrange(w0, e);
            let w1 = skip(s, e);
            if w1 >= s.len() {
                fail(w1, st, raw)
            } else if s[w1] != EQUALS {
                emit(w1, st, raw, TokenView::BoolAttribute { name })
            } else {
                let w2 = skip(s, w1 + 1);
                if w2 >= s.len() {
                    fail(w2, st, raw)
                } else if s[w2] == APOS || s[w2] == DQUOTE {
                    let v = until_byte(s, w2 + 1, s[w2]);
                    if v >= s.len() {
                        fail(w2 + 1, st, raw)
                    } else {
                        emit(v + 1, st, raw, TokenView::Attribute { name, value: s.subrange(w2 + 1, v) })
                    }
                } else {
                    let u = unquoted_end(s, w2);
                    if u >= s.len() {
                        fail(w2, st, raw)
                    } else {
                        emit(u, st, raw, TokenView::Attribute { name, value: s.subrange(w2, u) })
                    }
                }
            }
        }
    }
}

/// One step after a start tag's name.
pub open spec fn after_start_tag(s: Seq<u8>, p: int, raw: Option<Seq<u8>>) -> Step {
    let w = skip(s, p);
    let next = if raw is Some {
        HtmlState::RawText
    } else {
        HtmlState::Data
    };
    if w >= s.len() {
        fail(w, HtmlState::AfterStartTagName, raw)
    } else if occurs_at(s, w, seq![SLASH, GT]) {
        emit(w + 2, next, raw, TokenView::TagEnd { self_closing: true })
    } else if s[w] == GT {
        emit(w + 1, next, raw, TokenView::TagEnd { self_closing: false })
    } else {
        attribute(s, w, raw)
    }
}

/// `</` followed by `name`.
pub open spec fn end_tag_of(name: Seq<u8>) -> Seq<u8> {
    seq![LT, SLASH] + name
}

/// One step inside the raw text of element `name`: everything up to its end
/// tag.
pub open spec fn raw_text(s: Seq<u8>, p: int, name: Seq<u8>) -> Step {
    match find_from(s, p, end_tag_of(name)) {
        Some(i) => emit(i, HtmlState::Data, None, TokenView::RawText(s.subrange(p, i))),
        None => fail(p, HtmlState::RawText, Some(name)),
    }
}

/// One step of the tokenizer from position `p` in state `st`.
pub open spec fn step(s: Seq<u8>, p: int, st: HtmlState, raw: Option<Seq<u8>>) -> Step {
    if p >= s.len() {
        (p, st, raw, None)
    } else {
        match st {
            HtmlState::Data => data(s, p, raw),
            HtmlState::AfterStartTagName => after_start_tag(s, p, raw),
            HtmlState::RawText => match raw {
                Some(n) => raw_text(s, p, n),
                None => (p, st, raw, None),
            },
        }
    }
}

impl<'a> From<&'a [u8]> for HtmlTokenizer<'a> {
    fn from(value: &'a [u8]) -> (t: Self) {
        HtmlTokenizer { scanner: Scanner::new(value), state: HtmlState::Data, raw_text_tag_name: None }
    }
}

impl<'a> vstd::std_specs::convert::FromSpecImpl<&'a [u8]> for HtmlTokenizer<'a> {
    open spec fn obeys_from_spec() -> bool {
        true
    }

    open spec fn from_spec(v: &'a [u8]) -> Self {
        HtmlTokenizer::fresh(v)
    }
}

impl<'a> HtmlTokenizer<'a> {
    /// The input.
    pub closed spec fn input(&self) -> Seq<u8> {
        self.scanner.input()
    }

    /// The current position.
    pub closed spec fn at(&self) -> int {
        self.scanner.at()
    }

    /// The current state.
    pub closed spec fn current_state(&self) -> HtmlState {
        self.state
    }

    /// The name of the element whose raw text is pending, if any.
    pub closed spec fn raw_name(&self) -> Option<Seq<u8>> {
        match self.raw_text_tag_name {
            Some(n) => Some(n@),
            None => None,
        }
    }

    /// The position lies inside the input or at its end, and raw text is read
    /// only with the name of its element at hand.
    pub closed spec fn wf(&self) -> bool {
        &&& 0 <= self.scanner.at() <= self.scanner.input().len()
        &&& self.state == HtmlState::RawText ==> self.raw_text_tag_name is Some
    }

    /// The tokenizer at the start of `v`.
    pub closed spec fn fresh(v: &'a [u8]) -> Self {
        HtmlTokenizer { scanner: Scanner::fresh(v), state: HtmlState::Data, raw_text_tag_name: None }
    }

    /// A fresh tokenizer reads its input from position 0 in state `Data`.
    pub proof fn lemma_fresh(v: &'a [u8])
        ensures
            Self::fresh(v).wf(),
            Self::fresh(v).input() == v@,
            Self::fresh(v).at() == 0,
            Self::fresh(v).current_state() == HtmlState::Data,
            Self::fresh(v).raw_name() is None,
    {
        Scanner::lemma_fresh(v);
    }

    /// A well-formed tokenizer stands inside its input or at its end.
    pub proof fn lemma_wf(&self)
        requires
            self.wf(),
        ensures
            0 <= self.at() <= self.input().len(),
            self.input().len() <= usize::MAX,
            self.current_state() == HtmlState::RawText ==> self.raw_name() is Some,
    {
        self.scanner.lemma_input_fits();
    }

    fn error(&self, kind: ErrorKind) -> (e: Error)
        ensures
            e == (Error { kind, pos: self.scanner.at() as usize }),
    {
        Error { kind, pos: self.scanner.pos() }
    }

    fn unexpected_eof_error(&self) -> (e: Error)
        ensures
            e == (Error { kind: ErrorKind::UnexpectedEndOfFile, pos: self.scanner.at() as usize }),
    {
        Error { kind: ErrorKind::UnexpectedEndOfFile, pos: self.scanner.pos() }
    }

    fn skip_ws(&mut self)
        requires
            old(self).scanner.at() <= old(self).scanner.input().len(),
        ensures
            final(self).scanner.input() == old(self).scanner.input(),
            final(self).scanner.at() == skip(old(self).scanner.input(), old(self).scanner.at()),
            final(self).scanner.at() <= final(self).scanner.input().len(),
            final(self).state == old(self).state,
            final(self).raw_text_tag_name == old(self).raw_text_tag_name,
    {
        self.scanner.advance_past_whitespaces();
        proof {
            lemma_run_stop(
                self.scanner.input(),
                old(self).scanner.at(),
                self.scanner.at(),
                |b: u8| !is_space(b),
            );
        }
    }

    /// Consumes the bytes before the next `q`, leaving the `q` in place; when
    /// no `q` follows, nothing moves.
    fn consume_until_byte(&mut self, q: u8) -> (r: Option<&'a [u8]>)
        requires
            old(self).scanner.at() <= old(self).scanner.input().len(),
        ensures
            final(self).scanner.input() == old(self).scanner.input(),
            final(self).state == old(self).state,
            final(self).raw_text_tag_name == old(self).raw_text_tag_name,
            ({
                let s = old(self).scanner.input();
                let p = old(self).scanner.at();
                let e = until_byte(s, p, q);
                match r {
                    Some(v) => e < s.len() && final(self).scanner.at() == e && v@ == s.subrange(p, e),
                    None => e >= s.len() && final(self).scanner.at() == p,
                }
            }),
    {
        let stop = |b: u8| -> (r: bool)
            ensures
                r == (b == q),
            { b == q };
        let r = self.scanner.consume_until(stop);
        proof {
            let s = old(self).scanner.input();
            let p = old(self).scanner.at();
            match r {
                Some(v) => {
                    lemma_until_byte(s, p, self.scanner.at(), q);
                },
                None => {
                    assert(byte_run_end(s, p, s.len() as int, q));
                    lemma_until_byte(s, p, s.len() as int, q);
                },
            }
        }
        r
    }

    /// Consumes a tag name; when the input ends first, nothing moves.
    fn consume_name(&mut self) -> (r: Option<&'a [u8]>)
        requires
            old(self).scanner.at() <= old(self).scanner.input().len(),
        ensures
            final(self).scanner.input() == old(self).scanner.input(),
            final(self).state == old(self).state,
            final(self).raw_text_tag_name == old(self).raw_text_tag_name,
            ({
                let s = old(self).scanner.input();
                let p = old(self).scanner.at();
                let e = name_end(s, p);
                match r {
                    Some(v) => e < s.len() && final(self).scanner.at() == e && v@ == s.subrange(p, e),
                    None => e >= s.len() && final(self).scanner.at() == p,
                }
            }),
    {
        let ghost s = self.scanner.input();
        let ghost p = self.scanner.at();
        match self.scanner.consume_tag_name() {
            Ok(v) => {
                proof {
                    lemma_run_stop(s, p, self.scanner.at(), |b: u8| ends_tag_name(b));
                }
                Some(v)
            },
            Err(_) => {
                proof {
                    assert(run_end(s, p, s.len() as int, |b: u8| ends_tag_name(b)));
                    lemma_run_stop(s, p, s.len() as int, |b: u8| ends_tag_name(b));
                }
                None
            },
        }
    }

    /// Reads a comment body and its `-->`.
    fn next_comment(&mut self) -> (r: Option<Result<HtmlToken<'a>, Error>>)
        requires
            old(self).scanner.at() <= old(self).scanner.input().len(),
        ensures
            final(self).scanner.input() == old(self).scanner.input(),
            final(self).state == old(self).state,
            final(self).raw_text_tag_name == old(self).raw_text_tag_name,
            ({
                let s = old(self).scanner.input();
                let p = old(self).scanner.at();
                match find_from(s, p, comment_end()) {
                    Some(i) => final(self).scanner.at() == i + 3 && view_item(r) == Some(
                        Ok::<TokenView, Error>(TokenView::Comment(s.subrange(p, i))),
                    ),
                    None => final(self).scanner.at() == p && view_item(r) == Some(
                        Err::<TokenView, Error>(Error { kind: ErrorKind::UnexpectedEndOfFile, pos: p as usize }),
                    ),
                }
            }),
    {
        let ghost s = self.scanner.input();
        let ghost p = self.scanner.at();
        match self.scanner.consume_comment() {
            Ok(v) => {
                proof {
                    lemma_find_from_some(s, p, self.scanner.at() - 3, comment_end());
                }
                Some(Ok(HtmlToken::Comment(v)))
            },
            Err(_) => {
                proof {
                    lemma_find_from_none(s, p, comment_end());
                }
                Some(Err(self.error(ErrorKind::UnexpectedEndOfFile)))
            },
        }
    }

    /// Reads a CDATA body and its `]]>`.
    fn next_cdata(&mut self) -> (r: Option<Result<HtmlToken<'a>, Error>>)
        requires
            old(self).scanner.at() <= old(self).scanner.input().len(),
        ensures
            final(self).scanner.input() == old(self).scanner.input(),
            final(self).state == old(self).state,
            final(self).raw_text_tag_name == old(self).raw_text_tag_name,
            ({
                let s = old(self).scanner.input();
                let p = old(self).scanner.at();
                match find_from(s, p, cdata_end()) {
                    Some(i) => final(self).scanner.at() == i + 3 && view_item(r) == Some(
                        Ok::<TokenView, Error>(TokenView::CData(s.subrange(p, i))),
                    ),
                    None => final(self).scanner.at() == p && view_item(r) == Some(
                        Err::<TokenView, Error>(Error { kind: ErrorKind::UnexpectedEndOfFile, pos: p as usize }),
                    ),
                }
            }),
    {
        let ghost s = self.scanner.input();
        let ghost p = self.scanner.at();
        match self.scanner.consume_cdata() {
            Ok(v) => {
                proof {
                    lemma_find_from_some(s, p, self.scanner.at() - 3, cdata_end());
                }
                Some(Ok(HtmlToken::CData(v)))
            },
            Err(_) => {
                proof {
                    lemma_find_from_none(s, p, cdata_end());
                }
                Some(Err(self.error(ErrorKind::UnexpectedEndOfFile)))
            },
        }
    }

    /// Reads what follows `<!`: a comment, character data, a document type,
    /// or anything else up to `>` as a comment.
    fn next_markup(&mut self) -> (r: Option<Result<HtmlToken<'a>, Error>>)
        requires
            old(self).scanner.at() + 1 < old(self).scanner.input().len(),
            old(self).scanner.input()[old(self).scanner.at()] == LT,
            old(self).scanner.input()[old(self).scanner.at() + 1] == BANG,
            old(self).state == HtmlState::Data,
        ensures
            final(self).scanner.input() == old(self).scanner.input(),
            (final(self).scanner.at(), final(self).state, final(self).raw_name(), view_item(r)) == data(
                old(self).scanner.input(),
                old(self).scanner.at(),
                old(self).raw_name(),
            ),
    {
        let n = self.scanner.len();
        let c: [u8; 4] = [LT, BANG, DASH, DASH];
        let d: [u8; 9] = [LT, BANG, LBRACKET, 0x43, 0x44, 0x41, 0x54, 0x41, LBRACKET];
        let t: [u8; 10] = [LT, BANG, 0x44, 0x4f, 0x43, 0x54, 0x59, 0x50, 0x45, SPACE];
        proof {
            reveal_strlit("<![CDATA[");
            reveal_strlit("<!DOCTYPE ");
            assert(c@ =~= comment_open());
            assert(d@ =~= cdata_open());
            assert(t@ =~= doctype_open());
        }
        if self.scanner.starts_with(c.as_slice()) {
            self.scanner.consume_n_bytes(4);
            return self.next_comment();
        }
        if self.scanner.starts_with(d.as_slice()) {
            self.scanner.consume_n_bytes(9);
            return self.next_cdata();
        }
        if self.scanner.starts_with(t.as_slice()) {
            self.scanner.consume_n_bytes(10);
            if let Some(value) = self.consume_until_byte(GT) {
                self.scanner.consume_byte();
                return Some(Ok(HtmlToken::DocType(value)));
            }
            return Some(Err(self.error(ErrorKind::UnexpectedEndOfFile)));
        }
        self.scanner.consume_byte();
        if let Some(value) = self.consume_until_byte(GT) {
            self.scanner.consume_byte();
            Some(Ok(HtmlToken::Comment(value)))
        } else {
            Some(Err(self.unexpected_eof_error()))
        }
    }

    /// One step in state `Data`.
    fn next_data(&mut self) -> (r: Option<Result<HtmlToken<'a>, Error>>)
        requires
            old(self).scanner.at() < old(self).scanner.input().len(),
            old(self).state == HtmlState::Data,
        ensures
            final(self).scanner.input() == old(self).scanner.input(),
            (final(self).scanner.at(), final(self).state, final(self).raw_name(), view_item(r)) == data(
                old(self).scanner.input(),
                old(self).scanner.at(),
                old(self).raw_name(),
            ),
    {
        let ghost s = self.scanner.input();
        let ghost p = self.scanner.at();
        let n = self.scanner.len();
        if !self.scanner.is_byte(LT) {
            let text = self.scanner.consume_text();
            proof {
                lemma_until_byte(s, p, self.scanner.at(), LT);
            }
            return Some(Ok(HtmlToken::Text(text)));
        }
        if self.scanner.get_checked_nth_byte(1) == Some(&BANG) {
            return self.next_markup();
        }
        let e: [u8; 2] = [LT, SLASH];
        proof {
            assert(e@ =~= seq![LT, SLASH]);
        }
        if self.scanner.starts_with(e.as_slice()) {
            self.scanner.consume_n_bytes(2);
            self.skip_ws();
            if self.scanner.is_eof() {
                return Some(Err(self.error(ErrorKind::UnexpectedEndOfFile)));
            }
            let name = match self.consume_name() {
                Some(name) => name,
                None => return Some(Err(self.error(ErrorKind::UnexpectedEndOfFile))),
            };
            if self.consume_until_byte(GT).is_none() {
                return Some(Err(self.error(ErrorKind::UnexpectedEndOfFile)));
            }
            self.scanner.consume_byte();
            return Some(Ok(HtmlToken::EndTag(name)));
        }
        self.scanner.consume_byte();
        let tag_name = match self.consume_name() {
            Some(name) => name,
            None => return Some(Err(self.error(ErrorKind::UnexpectedEndOfFile))),
        };
        let style: [u8; 5] = [0x73, 0x74, 0x79, 0x6c, 0x65];
        let script: [u8; 6] = [0x73, 0x63, 0x72, 0x69, 0x70, 0x74];
        proof {
            reveal_strlit("style");
            reveal_strlit("script");
            assert(style@ =~= ascii("style"@));
            assert(script@ =~= ascii("script"@));
        }
        if bytes_eq(tag_name, style.as_slice()) || bytes_eq(tag_name, script.as_slice()) {
            self.raw_text_tag_name = Some(tag_name);
        }
        self.state = HtmlState::AfterStartTagName;
        Some(Ok(HtmlToken::StartTag(tag_name)))
    }

    /// Reads an attribute (see `attribute`).
    fn consume_attribute(&mut self) -> (r: Result<HtmlToken<'a>, Error>)
        requires
            old(self).scanner.at() <= old(self).scanner.input().len(),
            old(self).state == HtmlState::AfterStartTagName,
        ensures
            final(self).scanner.input() == old(self).scanner.input(),
            (final(self).scanner.at(), final(self).state, final(self).raw_name(), view_item(Some(r)))
                == attribute(old(self).scanner.input(), old(self).scanner.at(), old(self).raw_name()),
    {
        let ghost s = self.scanner.input();
        let n = self.scanner.len();
        self.skip_ws();
        if self.scanner.is_eof() {
            return Err(self.unexpected_eof_error());
        }
        let ghost w0 = self.scanner.at();
        let attribute_name = match self.scanner.consume_attribute_name() {
            Ok(v) => v,
            Err(_) => {
                proof {
                    assert(run_end(s, w0, s.len() as int, |b: u8| ends_attribute_name(b)));
                    lemma_run_stop(s, w0, s.len() as int, |b: u8| ends_attribute_name(b));
                }
                return Err(self.unexpected_eof_error());
            },
        };
        proof {
            lemma_run_stop(s, w0, self.scanner.at(), |b: u8| ends_attribute_name(b));
        }
        self.skip_ws();
        if self.scanner.is_eof() {
            return Err(self.unexpected_eof_error());
        }
        if !self.scanner.consume_byte_if(EQUALS) {
            return Ok(HtmlToken::BoolAttribute { name: attribute_name });
        }
        self.skip_ws();
        if self.scanner.is_eof() {
            return Err(self.unexpected_eof_error());
        }
        if self.scanner.get_byte() == APOS || self.scanner.get_byte() == DQUOTE {
            let quote_char = self.scanner.get_byte();
            self.scanner.consume_byte();
            let attribute_value = match self.consume_until_byte(quote_char) {
                Some(v) => v,
                None => return Err(self.unexpected_eof_error()),
            };
            self.scanner.consume_byte();
            return Ok(HtmlToken::Attribute { name: attribute_name, value: attribute_value });
        }
        let ghost w2 = self.scanner.at();
        match self.scanner.consume_unquoted_attribute_value() {
            Ok(v) => {
                proof {
                    lemma_run_stop(s, w2, self.scanner.at(), |b: u8| ends_unquoted_value(b));
                }
                Ok(HtmlToken::Attribute { name: attribute_name, value: v })
            },
            Err(_) => {
                proof {
                    assert(run_end(s, w2, s.len() as int, |b: u8| ends_unquoted_value(b)));
                    lemma_run_stop(s, w2, s.len() as int, |b: u8| ends_unquoted_value(b));
                }
                Err(self.unexpected_eof_error())
            },
        }
    }

    /// One step after a start tag's name.
    fn next_after_start_tag_name(&mut self) -> (r: Option<Result<HtmlToken<'a>, Error>>)
        requires
            old(self).scanner.at() < old(self).scanner.input().len(),
            old(self).state == HtmlState::AfterStartTagName,
        ensures
            final(self).scanner.input() == old(self).scanner.input(),
            (final(self).scanner.at(), final(self).state, final(self).raw_name(), view_item(r))
                == after_start_tag(
                old(self).scanner.input(),
                old(self).scanner.at(),
                old(self).raw_name(),
            ),
    {
        let n = self.scanner.len();
        self.skip_ws();
        if self.scanner.is_eof() {
            return Some(Err(self.error(ErrorKind::UnexpectedEndOfFile)));
        }
        let close: [u8; 2] = [SLASH, GT];
        proof {
            assert(close@ =~= seq![SLASH, GT]);
        }
        if self.scanner.starts_with(close.as_slice()) {
            self.scanner.consume_n_bytes(2);
            if !self.raw_text_tag_name.is_none() {
                self.state = HtmlState::RawText;
            } else {
                self.state = HtmlState::Data;
            }
            Some(Ok(HtmlToken::TagEnd { self_closing: true }))
        } else if self.scanner.is_byte(GT) {
            self.scanner.consume_byte();
            if !self.raw_text_tag_name.is_none() {
                self.state = HtmlState::RawText;
            } else {
                self.state = HtmlState::Data;
            }
            Some(Ok(HtmlToken::TagEnd { self_closing: false }))
        } else {
            Some(self.consume_attribute())
        }
    }

    /// One step inside raw text: everything up to the element's end tag.
    fn next_raw_text(&mut self) -> (r: Option<Result<HtmlToken<'a>, Error>>)
        requires
            old(self).scanner.at() < old(self).scanner.input().len(),
            old(self).state == HtmlState::RawText,
            old(self).raw_text_tag_name is Some,
        ensures
            final(self).scanner.input() == old(self).scanner.input(),
            (final(self).scanner.at(), final(self).state, final(self).raw_name(), view_item(r))
                == raw_text(
                old(self).scanner.input(),
                old(self).scanner.at(),
                old(self).raw_name()->0,
            ),
    {
        let name = self.raw_text_tag_name.unwrap();
        let mut pattern: Vec<u8> = Vec::new();
        pattern.push(LT);
        pattern.push(SLASH);
        let mut k: usize = 0;
        while k < name.len()
            invariant
                k <= name@.len(),
                pattern@ == seq![LT, SLASH] + name@.take(k as int),
            decreases name@.len() - k,
        {
            pattern.push(name[k]);
            k += 1;
            proof {
                assert(pattern@ =~= seq![LT, SLASH] + name@.take(k as int));
            }
        }
        proof {
            assert(name@.take(k as int) =~= name@);
        }
        let ghost s = self.scanner.input();
        let ghost p = self.scanner.at();
        if let Some(text) = self.scanner.consume_until_sequence(pattern.as_slice()) {
            proof {
                lemma_find_from_some(s, p, self.scanner.at(), end_tag_of(name@));
            }
            self.state = HtmlState::Data;
            self.raw_text_tag_name = None;
            return Some(Ok(HtmlToken::RawText(text)));
        }
        proof {
            lemma_find_from_none(s, p, end_tag_of(name@));
        }
        Some(Err(self.unexpected_eof_error()))
    }

    /// Reads the next token; `None` once the input is used up.
    pub fn next(&mut self) -> (r: Option<Result<HtmlToken<'a>, Error>>)
        requires
            old(self).wf(),
        ensures
            final(self).wf(),
            final(self).input() == old(self).input(),
            (final(self).at(), final(self).current_state(), final(self).raw_name(), view_item(r))
                == step(
                old(self).input(),
                old(self).at(),
                old(self).current_state(),
                old(self).raw_name(),
            ),
    {
        if self.scanner.is_eof() {
            return None;
        }
        let r = match self.state {
            HtmlState::Data => self.next_data(),
            HtmlState::AfterStartTagName => self.next_after_start_tag_name(),
            HtmlState::RawText => self.next_raw_text(),
        };
        proof {
            law_step_moves_forward(
                old(self).scanner.input(),
                old(self).scanner.at(),
                old(self).state,
                old(self).raw_name(),
            );
        }
        r
    }
}

// ---------------------------------------------------------------------------
// Bounds on the rules, and laws of the tokenizer.

proof fn lemma_run_bounds(s: Seq<u8>, p: int, stop: spec_fn(u8) -> bool)
    requires
        0 <= p <= s.len(),
    ensures
        p <= run_stop(s, p, stop) <= s.len(),
{
    lemma_run_end_exists(s, p, stop);
}

proof fn lemma_skip_bounds(s: Seq<u8>, p: int)
    requires
        0 <= p <= s.len(),
    ensures
        p <= skip(s, p) <= s.len(),
{
    lemma_run_bounds(s, p, |b: u8| !is_space(b));
}

proof fn lemma_find_bounds(s: Seq<u8>, p: int, pat: Seq<u8>)
    requires
        pat.len() >= 2,
    ensures
        find_from(s, p, pat) matches Some(i) ==> p <= i && i + pat.len() <= s.len(),
{
    if exists|i: int| first_occurrence(s, p, i, pat) {
        let i = choose|i: int| first_occurrence(s, p, i, pat);
        assert(first_occurrence(s, p, i, pat));
    }
}

proof fn lemma_data_bounds(s: Seq<u8>, p: int, raw: Option<Seq<u8>>)
    requires
        0 <= p < s.len(),
    ensures
        p <= data(s, p, raw).0 <= s.len(),
        data(s, p, raw).3 matches Some(Ok(_)) ==> p < data(s, p, raw).0,
{
    reveal_strlit("<![CDATA[");
    reveal_strlit("<!DOCTYPE ");
    if s[p] != LT {
        lemma_until_byte_bounds(s, p, LT);
    } else if p + 1 < s.len() && s[p + 1] == BANG {
        if occurs_at(s, p, comment_open()) {
            lemma_find_bounds(s, p + 4, comment_end());
        } else if occurs_at(s, p, cdata_open()) {
            lemma_find_bounds(s, p + 9, cdata_end());
        } else if occurs_at(s, p, doctype_open()) {
            lemma_until_byte_bounds(s, p + 10, GT);
        } else {
            lemma_until_byte_bounds(s, p + 1, GT);
        }
    } else if occurs_at(s, p, seq![LT, SLASH]) {
        lemma_skip_bounds(s, p + 2);
        let w = skip(s, p + 2);
        if w < s.len() {
            lemma_run_bounds(s, w, |b: u8| ends_tag_name(b));
            let e = name_end(s, w);
            if e < s.len() {
                lemma_until_byte_bounds(s, e, GT);
            }
        }
    } else {
        lemma_run_bounds(s, p + 1, |b: u8| ends_tag_name(b));
    }
}

proof fn lemma_attribute_bounds(s: Seq<u8>, p: int, raw: Option<Seq<u8>>)
    requires
        0 <= p <= s.len(),
    ensures
        p <= attribute(s, p, raw).0 <= s.len(),
        attribute(s, p, raw).3 matches Some(Ok(t)) ==> p < attribute(s, p, raw).0 || t
            == (TokenView::BoolAttribute { name: Seq::<u8>::empty() }),
{
    lemma_skip_bounds(s, p);
    let w0 = skip(s, p);
    if w0 < s.len() {
        lemma_run_bounds(s, w0, |b: u8| ends_attribute_name(b));
        let e = attribute_name_end(s, w0);
        if e < s.len() {
            lemma_skip_bounds(s, e);
            let w1 = skip(s, e);
            if w1 < s.len() && s[w1] == EQUALS {
                lemma_skip_bounds(s, w1 + 1);
                let w2 = skip(s, w1 + 1);
                if w2 < s.len() {
                    lemma_until_byte_bounds(s, w2 + 1, s[w2]);
                    lemma_run_bounds(s, w2, |b: u8| ends_unquoted_value(b));
                }
            } else if w1 < s.len() && w1 == p {
                assert(s.subrange(w0, e) =~= Seq::<u8>::empty());
            }
        }
    }
}

/// Every step keeps the position inside the input and never moves it back; a
/// step that hands out a token moves it forward, except an attribute with an
/// empty name and no value (which a stray `?` or `=` after a tag name gives)
/// and empty raw text (right before the element's end tag).
/// Raw text is read only with the name of its element at hand.
pub proof fn law_step_moves_forward(s: Seq<u8>, p: int, st: HtmlState, raw: Option<Seq<u8>>)
    requires
        0 <= p <= s.len(),
    ensures
        p <= step(s, p, st, raw).0 <= s.len(),
        step(s, p, st, raw).3 matches Some(Ok(t)) ==> p < step(s, p, st, raw).0 || t
            == (TokenView::BoolAttribute { name: Seq::<u8>::empty() }) || t == TokenView::RawText(
            Seq::<u8>::empty(),
        ),
        step(s, p, st, raw).1 == HtmlState::RawText && (st != HtmlState::RawText || raw is Some)
            ==> (step(s, p, st, raw).2 is Some),
{
    if p < s.len() {
        match st {
            HtmlState::Data => lemma_data_bounds(s, p, raw),
            HtmlState::AfterStartTagName => {
                lemma_skip_bounds(s, p);
                let w = skip(s, p);
                if w < s.len() {
                    lemma_attribute_bounds(s, w, raw);
                }
            },
            HtmlState::RawText => {
                if let Some(n) = raw {
                    lemma_find_bounds(s, p, end_tag_of(n));
                    if let Some(i) = find_from(s, p, end_tag_of(n)) {
                        if i == p {
                            assert(s.subrange(p, i) =~= Seq::<u8>::empty());
                        }
                    }
                }
            },
        }
    }
}

/// A step finds nothing exactly when the input is used up (raw text being
/// read with its element's name at hand), and then it changes nothing.
pub proof fn law_exhausted_stays_exhausted(s: Seq<u8>, p: int, st: HtmlState, raw: Option<Seq<u8>>)
    requires
        0 <= p <= s.len(),
        st == HtmlState::RawText ==> (raw is Some),
    ensures
        step(s, p, st, raw).3 is None <==> p == s.len(),
        p == s.len() ==> step(s, p, st, raw) == (p, st, raw, None::<Result<TokenView, Error>>),
{
}

} // verus!
