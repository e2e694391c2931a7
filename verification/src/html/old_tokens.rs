//! A simple tokenizer for HTML, whose tokens are slices of the
//! input: declarations, comments, start tags (then their attributes and the
//! tag's end as tokens of their own), end tags and text. Text that is only
//! white space is passed over.
use vstd::prelude::*;
use crate::cursor::{byte_offset, StrCursor};
use crate::text::{is_white_space, is_white_space_char};

verus! {

/// What kind of token an error stopped in.
#[derive(Debug, Clone, Copy, PartialEq, Eq, Structural)]
pub enum TokenErrorKind {
    Declaration,
    End,
    Start,
    Text,
    Tag,
    Attribute,
    Comment,
}

/// An error of the tokenizer, with the byte offset where it was found.
#[derive(Debug, Clone, Copy, PartialEq, Eq, Structural)]
pub enum Error {
    /// The input ends before the token does.
    UnterminatedToken { pos: usize, kind: TokenErrorKind },
    /// An attribute value without quotes.
    UnquotedToken { pos: usize, kind: TokenErrorKind },
}

/// A token.
#[derive(Debug, PartialEq, Eq)]
pub enum HtmlToken<'a> {
    Declaration(&'a str),
    Comment(&'a str),
    StartTag(&'a str),
    Attribute { name: &'a str, value: &'a str },
    BoolAttribute(&'a str),
    AttributeValue(&'a str),
    TagEnd { self_closing: bool },
    EndTag(&'a str),
    Text(&'a str),
}

/// A token, taken as values.
pub enum TokenView {
    Declaration(Seq<char>),
    Comment(Seq<char>),
    StartTag(Seq<char>),
    Attribute { name: Seq<char>, value: Seq<char> },
    BoolAttribute(Seq<char>),
    AttributeValue(Seq<char>),
    TagEnd { self_closing: bool },
    EndTag(Seq<char>),
    Text(Seq<char>),
}

impl<'a> View for HtmlToken<'a> {
    type V = TokenView;

    open spec fn view(&self) -> TokenView {
        match self {
            HtmlToken::Declaration(s) => TokenView::Declaration(s@),
            HtmlToken::Comment(s) => TokenView::Comment(s@),
            HtmlToken::StartTag(s) => TokenView::StartTag(s@),
            HtmlToken::Attribute { name, value } => TokenView::Attribute { name: name@, value: value@ },
            HtmlToken::BoolAttribute(s) => TokenView::BoolAttribute(s@),
            HtmlToken::AttributeValue(s) => TokenView::AttributeValue(s@),
            HtmlToken::TagEnd { self_closing } => TokenView::TagEnd { self_closing: *self_closing },
            HtmlToken::EndTag(s) => TokenView::EndTag(s@),
            HtmlToken::Text(s) => TokenView::Text(s@),
        }
    }
}

/// Where the tokenizer is.
#[derive(Debug, Clone, Copy, PartialEq, Eq, Structural)]
pub enum TokenizerState {
    /// Between tokens, in text or at a tag.
    Normal,
    /// Inside a start tag, after its name or an attribute.
    InsideTag,
    /// Inside a comment.
    InsideComment,
    /// At an attribute.
    InsideAttribute,
}

// ---------------------------------------------------------------------------
// Searching.

/// What a search looks for.
#[derive(PartialEq, Eq, Structural, Clone, Copy)]
pub enum Until {
    /// That character.
    Char(char),
    /// White space (as `char::is_whitespace` says) or `>`.
    WhiteOrGt,
    /// ASCII white space or `>`.
    AsciiWhiteOrGt,
}

/// ASCII white space, as `is_ascii_whitespace` says.
pub open spec fn is_ascii_ws(c: char) -> bool {
    c == ' ' || c == '\t' || c == '\n' || c == '\x0C' || c == '\r'
}

/// Whether the search `u` stops at `c`.
pub open spec fn hits(u: Until, c: char) -> bool {
    match u {
        Until::Char(d) => c == d,
        Until::WhiteOrGt => is_white_space(c) || c == '>',
        Until::AsciiWhiteOrGt => is_ascii_ws(c) || c == '>',
    }
}

/// The first index from `k` on where `x` has a character the search `u`
/// stops at, as `find` gives it.
pub open spec fn first(x: Seq<char>, u: Until, k: int) -> Option<int>
    decreases x.len() - k,
{
    if k < 0 || k >= x.len() {
        None
    } else if hits(u, x[k]) {
        Some(k)
    } else {
        first(x, u, k + 1)
    }
}

/// The first index from `k` on where `x` holds `p`, as `find` gives it.
pub open spec fn find_from(x: Seq<char>, p: Seq<char>, k: int) -> Option<int>
    decreases x.len() + 1 - k,
{
    if k < 0 || k + p.len() > x.len() {
        None
    } else if x.subrange(k, k + p.len()) == p {
        Some(k)
    } else {
        find_from(x, p, k + 1)
    }
}

/// A search that finds something finds it inside the text, and passes over
/// nothing it looks for.
pub proof fn lemma_first(x: Seq<char>, u: Until, k: int)
    requires
        0 <= k,
    ensures
        first(x, u, k) matches Some(j) ==> k <= j < x.len() && hits(u, x[j]),
        first(x, u, k) is None ==> forall|j: int| k <= j < x.len() ==> !hits(u, #[trigger] x[j]),
    decreases x.len() - k,
{
    if k < x.len() && !hits(u, x[k]) {
        lemma_first(x, u, k + 1);
    }
}

/// A text search that finds something finds it inside the text.
pub proof fn lemma_find_from(x: Seq<char>, p: Seq<char>, k: int)
    requires
        0 <= k,
    ensures
        find_from(x, p, k) matches Some(j) ==> k <= j && j + p.len() <= x.len() && x.subrange(j, j + p.len())
            == p,
    decreases x.len() + 1 - k,
{
    if k + p.len() <= x.len() && x.subrange(k, k + p.len()) != p {
        lemma_find_from(x, p, k + 1);
    }
}

/// Whether `x` is all white space (so that `trim` leaves nothing).
pub open spec fn all_white(x: Seq<char>) -> bool {
    forall|k: int| 0 <= k < x.len() ==> is_white_space(#[trigger] x[k])
}

/// How many characters of white space `x` starts with.
pub open spec fn lead(x: Seq<char>) -> nat
    decreases x.len(),
{
    if x.len() > 0 && is_white_space(x[0]) {
        1 + lead(x.drop_first())
    } else {
        0
    }
}

/// How many characters of white space `x` ends with.
pub open spec fn tail(x: Seq<char>) -> nat
    decreases x.len(),
{
    if x.len() > 0 && is_white_space(x.last()) {
        1 + tail(x.drop_last())
    } else {
        0
    }
}

/// `x` without white space at either end, as `trim` leaves it.
pub open spec fn trim(x: Seq<char>) -> Seq<char> {
    if lead(x) >= x.len() {
        Seq::empty()
    } else {
        x.subrange(lead(x) as int, x.len() - tail(x))
    }
}

/// `lead` and `tail` count at most the length, and together at most the
/// length where `x` is not all white space.
pub proof fn lemma_lead_tail(x: Seq<char>)
    ensures
        lead(x) <= x.len(),
        tail(x) <= x.len(),
        lead(x) < x.len() ==> lead(x) + tail(x) <= x.len(),
        forall|k: int| 0 <= k < lead(x) ==> is_white_space(#[trigger] x[k]),
        lead(x) < x.len() ==> !is_white_space(x[lead(x) as int]),
    decreases x.len(),
{
    if x.len() > 0 {
        lemma_lead_tail(x.drop_first());
        lemma_lead_tail(x.drop_last());
        if is_white_space(x[0]) {
            assert forall|k: int| 0 <= k < lead(x) implies is_white_space(#[trigger] x[k]) by {
                if k > 0 {
                    assert(x[k] == x.drop_first()[k - 1]);
                }
            }
            if lead(x) < x.len() {
                assert(x[lead(x) as int] == x.drop_first()[lead(x) - 1]);
            }
        }
        if lead(x) < x.len() && is_white_space(x.last()) {
            lemma_tail_white(x, lead(x) as int);
        }
    }
}

/// Where `x` has a character that is not white space at `i`, the white space
/// at its end lies after `i`.
pub proof fn lemma_tail_white(x: Seq<char>, i: int)
    requires
        0 <= i < x.len(),
        !is_white_space(x[i]),
    ensures
        tail(x) <= x.len() - 1 - i,
    decreases x.len(),
{
    if x.len() > 0 && is_white_space(x.last()) {
        assert(i < x.len() - 1);
        assert(x.drop_last()[i] == x[i]);
        lemma_tail_white(x.drop_last(), i);
    }
}

// ---------------------------------------------------------------------------
// The tokenizer's state, taken as values.

/// The position (in characters) and the state.
pub struct OldState {
    pub pos: int,
    pub state: TokenizerState,
}

/// What one round does: end the call with what `next` gives back, go round
/// again, or stop the program (a slice that panics).
pub enum Outcome {
    Done(OldState, Option<Result<TokenView, Error>>),
    Again(OldState),
    Stuck,
}

/// The error `f` at position `i`.
pub open spec fn err_at(s: Seq<char>, i: int, unquoted: bool, kind: TokenErrorKind) -> Option<
    Result<TokenView, Error>,
> {
    let pos = byte_offset(s, i) as usize;
    if unquoted {
        Some(Err(Error::UnquotedToken { pos, kind }))
    } else {
        Some(Err(Error::UnterminatedToken { pos, kind }))
    }
}

/// A token.
pub open spec fn ok(t: TokenView) -> Option<Result<TokenView, Error>> {
    Some(Ok(t))
}

/// `<!--`.
pub open spec fn comment_open() -> Seq<char> {
    seq!['<', '!', '-', '-']
}

/// `-->`.
pub open spec fn comment_close() -> Seq<char> {
    seq!['-', '-', '>']
}

/// `?>`.
pub open spec fn declaration_close() -> Seq<char> {
    seq!['?', '>']
}

/// Whether `s` holds `p` at position `i`.
pub open spec fn holds_at(s: Seq<char>, i: int, p: Seq<char>) -> bool {
    0 <= i && i + p.len() <= s.len() && s.subrange(i, i + p.len()) == p
}

/// The state `Normal` at `<`: a comment, a declaration, an end tag or a
/// start tag.
pub open spec fn at_tag(s: Seq<char>, t: OldState) -> Outcome {
    let i = t.pos;
    let rest = s.skip(i);
    if holds_at(s, i, comment_open()) {
        Outcome::Again(OldState { pos: i + 4, state: TokenizerState::InsideComment })
    } else if holds_at(s, i, seq!['<', '?']) {
        match find_from(rest, declaration_close(), 0) {
            None => Outcome::Done(t, err_at(s, i, false, TokenErrorKind::Declaration)),
            Some(k) => if k < 2 {
                Outcome::Stuck
            } else {
                Outcome::Done(
                    OldState { pos: i + k + 2, ..t },
                    ok(TokenView::Declaration(s.subrange(i + 2, i + k))),
                )
            },
        }
    } else if holds_at(s, i, seq!['<', '/']) {
        let p = i + 2;
        match first(s.skip(p), Until::Char('>'), 0) {
            None => Outcome::Done(OldState { pos: p, ..t }, err_at(s, p, false, TokenErrorKind::End)),
            Some(k) => Outcome::Done(OldState { pos: p + k + 1, ..t }, ok(TokenView::EndTag(s.subrange(p, p + k)))),
        }
    } else {
        let p = i + 1;
        let t1 = OldState { pos: p, state: TokenizerState::InsideTag };
        match first(s.skip(p), Until::WhiteOrGt, 0) {
            None => Outcome::Done(t1, err_at(s, p, false, TokenErrorKind::Start)),
            Some(k) => Outcome::Done(OldState { pos: p + k, ..t1 }, ok(TokenView::StartTag(s.subrange(p, p + k)))),
        }
    }
}

/// The state `Normal` in text: the text up to `<` (passed over where it is
/// all white space).
pub open spec fn in_text(s: Seq<char>, t: OldState) -> Outcome {
    let i = t.pos;
    match first(s.skip(i), Until::Char('<'), 0) {
        None => Outcome::Done(t, err_at(s, i, false, TokenErrorKind::Text)),
        Some(k) => {
            let text = s.subrange(i, i + k);
            if all_white(text) {
                Outcome::Again(OldState { pos: i + k, ..t })
            } else {
                Outcome::Done(OldState { pos: i + k, ..t }, ok(TokenView::Text(text)))
            }
        },
    }
}

/// Where ASCII white space from `i` on ends.
pub open spec fn skip_ascii_ws(s: Seq<char>, i: int) -> int
    decreases s.len() - i,
{
    if 0 <= i < s.len() && is_ascii_ws(s[i]) {
        skip_ascii_ws(s, i + 1)
    } else {
        i
    }
}

/// The state `InsideTag`: past ASCII white space, `>` or `/>` ends the tag;
/// anything else is an attribute.
pub open spec fn inside_tag(s: Seq<char>, t: OldState) -> Outcome {
    let i = skip_ascii_ws(s, t.pos);
    if i >= s.len() {
        Outcome::Done(OldState { pos: i, ..t }, err_at(s, i, false, TokenErrorKind::Tag))
    } else if s[i] == '>' {
        Outcome::Done(OldState { pos: i + 1, state: TokenizerState::Normal }, ok(TokenView::TagEnd { self_closing: false }))
    } else if holds_at(s, i, seq!['/', '>']) {
        Outcome::Done(OldState { pos: i + 2, state: TokenizerState::Normal }, ok(TokenView::TagEnd { self_closing: true }))
    } else {
        Outcome::Again(OldState { pos: i, state: TokenizerState::InsideAttribute })
    }
}

/// The state `InsideAttribute`: a name up to `=` (trimmed), then a quoted
/// value; without `=` ahead, a name up to ASCII white space or `>` is a
/// boolean attribute.
pub open spec fn inside_attribute(s: Seq<char>, t: OldState) -> Outcome {
    let i = t.pos;
    let rest = s.skip(i);
    let kind = TokenErrorKind::Attribute;
    let tag = TokenizerState::InsideTag;
    match first(rest, Until::Char('='), 0) {
        Some(e) => {
            let name = trim(s.subrange(i, i + e));
            let p = i + e + 1;
            if p >= s.len() || !(s[p] == '\'' || s[p] == '"') {
                Outcome::Done(OldState { pos: p, ..t }, err_at(s, p, true, kind))
            } else {
                let q = s[p];
                let v = p + 1;
                match first(s.skip(v), Until::Char(q), 0) {
                    None => Outcome::Done(OldState { pos: v, ..t }, err_at(s, v, false, kind)),
                    Some(k) => Outcome::Done(
                        OldState { pos: v + k + 1, state: tag },
                        ok(TokenView::Attribute { name, value: s.subrange(v, v + k) }),
                    ),
                }
            }
        },
        None => match first(rest, Until::AsciiWhiteOrGt, 0) {
            None => Outcome::Done(t, err_at(s, i, false, kind)),
            Some(k) => Outcome::Done(
                OldState { pos: i + k, state: tag },
                ok(TokenView::BoolAttribute(s.subrange(i, i + k))),
            ),
        },
    }
}

/// The state `InsideComment`: the comment runs to `-->`.
pub open spec fn inside_comment(s: Seq<char>, t: OldState) -> Outcome {
    let i = t.pos;
    match find_from(s.skip(i), comment_close(), 0) {
        None => Outcome::Done(t, err_at(s, i, false, TokenErrorKind::Comment)),
        Some(k) => Outcome::Done(
            OldState { pos: i + k + 3, state: TokenizerState::Normal },
            ok(TokenView::Comment(s.subrange(i, i + k))),
        ),
    }
}

/// One round of `next`: at the end of the input, or where only white space
/// is left (the position then moves to the end), there is no token.
pub open spec fn round(s: Seq<char>, t: OldState) -> Outcome {
    let i = t.pos;
    if i >= s.len() {
        Outcome::Done(t, None)
    } else if all_white(s.skip(i)) {
        Outcome::Done(OldState { pos: s.len() as int, ..t }, None)
    } else {
        match t.state {
            TokenizerState::Normal => if s[i] == '<' {
                at_tag(s, t)
            } else {
                in_text(s, t)
            },
            TokenizerState::InsideTag => inside_tag(s, t),
            TokenizerState::InsideAttribute => inside_attribute(s, t),
            TokenizerState::InsideComment => inside_comment(s, t),
        }
    }
}

/// The order in which the states go round again without reading.
pub open spec fn rank(t: OldState) -> nat {
    match t.state {
        TokenizerState::InsideTag => 1,
        _ => 0,
    }
}

/// A round that goes round again moves forward, or stays put and goes to a
/// lower state; the position stays inside the input.
pub proof fn lemma_round(s: Seq<char>, t: OldState)
    requires
        0 <= t.pos <= s.len(),
    ensures
        round(s, t) matches Outcome::Again(t2) ==> t.pos <= t2.pos <= s.len() && (t.pos < t2.pos || rank(t2) < rank(t)),
        round(s, t) matches Outcome::Done(t2, _) ==> t.pos <= t2.pos <= s.len(),
{
    let i = t.pos;
    if i < s.len() && !all_white(s.skip(i)) {
        lemma_skip_ascii_ws(s, i);
        lemma_first(s.skip(i), Until::Char('<'), 0);
        lemma_first(s.skip(i), Until::Char('='), 0);
        lemma_first(s.skip(i), Until::AsciiWhiteOrGt, 0);
        lemma_find_from(s.skip(i), declaration_close(), 0);
        lemma_find_from(s.skip(i), comment_close(), 0);
        if i + 2 <= s.len() {
            lemma_first(s.skip(i + 2), Until::Char('>'), 0);
        }
        if i + 1 <= s.len() {
            lemma_first(s.skip(i + 1), Until::WhiteOrGt, 0);
        }
        match first(s.skip(i), Until::Char('='), 0) {
            Some(e) => {
                let p = i + e + 1;
                if p < s.len() {
                    lemma_first(s.skip(p + 1), Until::Char(s[p]), 0);
                }
            },
            None => {},
        }
    }
}

/// ASCII white space from `i` on ends inside the input, after `i`.
pub proof fn lemma_skip_ascii_ws(s: Seq<char>, i: int)
    requires
        0 <= i <= s.len(),
    ensures
        i <= skip_ascii_ws(s, i) <= s.len(),
        skip_ascii_ws(s, i) < s.len() ==> !is_ascii_ws(s[skip_ascii_ws(s, i)]),
        forall|k: int| i <= k < skip_ascii_ws(s, i) ==> is_ascii_ws(#[trigger] s[k]),
    decreases s.len() - i,
{
    if i < s.len() && is_ascii_ws(s[i]) {
        lemma_skip_ascii_ws(s, i + 1);
    }
}

/// What one call of `next` does: rounds until one ends the call.
pub open spec fn run(s: Seq<char>, t: OldState) -> Outcome
    decreases s.len() - t.pos, rank(t),
    when 0 <= t.pos <= s.len()
{
    match round(s, t) {
        Outcome::Again(t2) => {
            proof {
                lemma_round(s, t);
            }
            run(s, t2)
        },
        o => o,
    }
}

/// A call never ends by going round again.
pub proof fn lemma_run_ends(s: Seq<char>, t: OldState)
    requires
        0 <= t.pos <= s.len(),
    ensures
        !(run(s, t) is Again),
        run(s, t) matches Outcome::Done(t2, _) ==> t.pos <= t2.pos <= s.len(),
    decreases s.len() - t.pos, rank(t),
{
    lemma_round(s, t);
    if let Outcome::Again(t2) = round(s, t) {
        lemma_run_ends(s, t2);
    }
}

// ---------------------------------------------------------------------------
// Searching, in code.

/// Whether the search `u` stops at `c`.
fn hits_exec(u: Until, c: char) -> (r: bool)
    ensures
        r == hits(u, c),
{
    match u {
        Until::Char(d) => c == d,
        Until::WhiteOrGt => is_white_space_char(c) || c == '>',
        Until::AsciiWhiteOrGt => c == ' ' || c == '\t' || c == '\n' || c == '\x0C' || c == '\r' || c == '>',
    }
}

/// The cursor at the first character from `c` on that the search `u` stops
/// at, if any.
fn find_char<'a>(c: StrCursor<'a>, u: Until) -> (r: Option<StrCursor<'a>>)
    requires
        c.wf(),
    ensures
        match first(c.input().skip(c.at()), u, 0) {
            Some(k) => r matches Some(d) && d.wf() && d.text() == c.text() && d.input() == c.input() && d.at()
                == c.at() + k && 0 <= k && c.at() + k < c.input().len() && hits(u, c.input()[c.at() + k]),
            None => r is None,
        },
{
    proof {
        lemma_first(c.input().skip(c.at()), u, 0);
    }
    let ghost x = c.input().skip(c.at());
    let mut d = c;
    proof {
        c.lemma_wf();
        assert forall|j: int| 0 <= j < x.len() implies #[trigger] x[j] == c.input()[c.at() + j] by {}
    }
    loop
        invariant
            d.wf(),
            d.text() == c.text(),
            d.input() == c.input(),
            c.wf(),
            x == c.input().skip(c.at()),
            x.len() == c.input().len() - c.at(),
            forall|j: int| 0 <= j < x.len() ==> #[trigger] x[j] == c.input()[c.at() + j],
            c.at() <= d.at() <= c.input().len(),
            first(x, u, 0) == first(x, u, d.at() - c.at()),
        decreases c.input().len() - d.at(),
    {
        proof {
            d.lemma_wf();
        }
        match d.peek() {
            None => {
                return None;
            },
            Some(ch) => {
                assert(x[d.at() - c.at()] == ch);
                if hits_exec(u, ch) {
                    return Some(d);
                }
                d.consume();
            },
        }
    }
}

/// The cursor at the first place from `c` on where the input holds `p`, if
/// any.
fn find_text<'a>(c: StrCursor<'a>, p: &[char]) -> (r: Option<StrCursor<'a>>)
    requires
        c.wf(),
        p@.len() > 0,
    ensures
        match find_from(c.input().skip(c.at()), p@, 0) {
            Some(k) => r matches Some(d) && d.wf() && d.text() == c.text() && d.input() == c.input() && d.at()
                == c.at() + k && 0 <= k && c.at() + k + p@.len() <= c.input().len(),
            None => r is None,
        },
{
    proof {
        lemma_find_from(c.input().skip(c.at()), p@, 0);
    }
    let ghost x = c.input().skip(c.at());
    let mut d = c;
    proof {
        c.lemma_wf();
        assert forall|j: int| 0 <= j < x.len() implies #[trigger] x[j] == c.input()[c.at() + j] by {}
    }
    loop
        invariant
            d.wf(),
            d.text() == c.text(),
            d.input() == c.input(),
            c.wf(),
            p@.len() > 0,
            x == c.input().skip(c.at()),
            x.len() == c.input().len() - c.at(),
            forall|j: int| 0 <= j < x.len() ==> #[trigger] x[j] == c.input()[c.at() + j],
            c.at() <= d.at() <= c.input().len(),
            find_from(x, p@, 0) == find_from(x, p@, d.at() - c.at()),
        decreases c.input().len() - d.at(),
    {
        proof {
            d.lemma_wf();
        }
        let k = Ghost(d.at() - c.at());
        if d.looking_at(p) {
            proof {
                assert(x.subrange(k@, k@ + p@.len()) =~= c.input().subrange(d.at(), d.at() + p@.len()));
            }
            return Some(d);
        }
        proof {
            if k@ + p@.len() <= x.len() {
                assert(x.subrange(k@, k@ + p@.len()) =~= c.input().subrange(d.at(), d.at() + p@.len()));
            }
        }
        if d.consume().is_none() {
            return None;
        }
    }
}

/// Whether the input from `c` on is all white space.
fn white_from(c: StrCursor) -> (r: bool)
    requires
        c.wf(),
    ensures
        r == all_white(c.input().skip(c.at())),
{
    let ghost x = c.input().skip(c.at());
    let mut d = c;
    proof {
        c.lemma_wf();
        assert forall|j: int| 0 <= j < x.len() implies #[trigger] x[j] == c.input()[c.at() + j] by {}
    }
    loop
        invariant
            d.wf(),
            d.text() == c.text(),
            d.input() == c.input(),
            c.wf(),
            x == c.input().skip(c.at()),
            x.len() == c.input().len() - c.at(),
            forall|j: int| 0 <= j < x.len() ==> #[trigger] x[j] == c.input()[c.at() + j],
            c.at() <= d.at() <= c.input().len(),
            forall|k: int| 0 <= k < d.at() - c.at() ==> is_white_space(#[trigger] x[k]),
        decreases c.input().len() - d.at(),
    {
        proof {
            d.lemma_wf();
        }
        match d.peek() {
            None => {
                return true;
            },
            Some(ch) => {
                assert(x[d.at() - c.at()] == ch);
                if !is_white_space_char(ch) {
                    return false;
                }
                d.consume();
            },
        }
    }
}

/// `lead` of a prefix one character longer.
proof fn lemma_lead_take(x: Seq<char>, i: int)
    requires
        0 <= i < x.len(),
    ensures
        lead(x.take(i + 1)) == (if lead(x.take(i)) == i {
            if is_white_space(x[i]) {
                i + 1
            } else {
                i
            }
        } else {
            lead(x.take(i)) as int
        }),
    decreases i,
{
    assert(x.take(0) =~= Seq::<char>::empty());
    if i > 0 {
        let y = x.drop_first();
        assert(x.take(i + 1).drop_first() =~= y.take(i));
        assert(x.take(i).drop_first() =~= y.take(i - 1));
        assert(x.take(i + 1)[0] == x[0]);
        assert(x.take(i)[0] == x[0]);
        assert(y[i - 1] == x[i]);
        lemma_lead_take(y, i - 1);
    } else {
        assert(x.take(1).drop_first() =~= Seq::<char>::empty());
    }
}

/// `x` without white space at either end (see `trim`).
fn trim_str<'a>(x: &'a str) -> (r: &'a str)
    ensures
        r@ == trim(x@),
{
    let ghost v = x@;
    let start = StrCursor::new(x);
    proof {
        start.lemma_wf();
        lemma_lead_tail(v);
    }
    let mut chars = start;
    let mut n: usize = 0;
    let mut lead_n: usize = 0;
    let mut tail_n: usize = 0;
    loop
        invariant
            chars.wf(),
            chars.text() == x,
            chars.input() == v,
            start.wf(),
            start.text() == x,
            start.input() == v,
            start.at() == 0,
            n == chars.at(),
            v.len() <= usize::MAX,
            lead_n == lead(v.take(n as int)),
            tail_n == tail(v.take(n as int)),
            lead_n <= n,
            tail_n <= n,
        ensures
            n == v.len(),
            lead_n == lead(v.take(n as int)),
            tail_n == tail(v.take(n as int)),
        decreases v.len() - n,
    {
        proof {
            chars.lemma_wf();
            lemma_lead_tail(v.take(n as int));
        }
        match chars.peek() {
            None => {
                break;
            },
            Some(c) => {
                proof {
                    lemma_lead_take(v, n as int);
                    assert(v.take(n + 1).drop_last() =~= v.take(n as int));
                    assert(v.take(n + 1).last() == c);
                }
                let ws = is_white_space_char(c);
                if lead_n == n && ws {
                    lead_n = lead_n + 1;
                }
                if ws {
                    tail_n = tail_n + 1;
                } else {
                    tail_n = 0;
                }
                chars.consume();
                n = n + 1;
            },
        }
    }
    proof {
        assert(v.take(n as int) =~= v);
    }
    if lead_n >= n {
        return start.slice_from(&start);
    }
    let mut a = start;
    let mut k: usize = 0;
    while k < lead_n
        invariant
            a.wf(),
            a.text() == x,
            a.input() == v,
            a.at() == k,
            k <= lead_n,
            lead_n < n,
            n == v.len(),
        decreases lead_n - k,
    {
        a.consume();
        k += 1;
    }
    let mut b = a;
    let m = n - tail_n - lead_n;
    let mut j: usize = 0;
    while j < m
        invariant
            b.wf(),
            b.text() == x,
            b.input() == v,
            b.at() == lead_n + j,
            j <= m,
            m == n - tail_n - lead_n,
            n == v.len(),
        decreases m - j,
    {
        b.consume();
        j += 1;
    }
    proof {
        a.lemma_wf();
    }
    b.slice_from(&a)
}

// ---------------------------------------------------------------------------
// The tokenizer.

/// The tokenizer.
pub struct HtmlTokenizer<'a> {
    cursor: StrCursor<'a>,
    state: TokenizerState,
}

/// How a round went: `next` gives back what it holds, the tokenizer goes
/// round again, or the program would stop.
enum Round<'a> {
    Done(Option<Result<HtmlToken<'a>, Error>>),
    Again,
    Stop,
}

/// What `next` gives back, taken as values.
pub open spec fn view_result(r: Option<Result<HtmlToken, Error>>) -> Option<Result<TokenView, Error>> {
    match r {
        Some(Ok(t)) => Some(Ok(t@)),
        Some(Err(e)) => Some(Err(e)),
        None => None,
    }
}

impl<'a> HtmlTokenizer<'a> {
    /// The characters of the input.
    pub closed spec fn input(&self) -> Seq<char> {
        self.cursor.input()
    }

    /// The position and the state.
    pub closed spec fn tok(&self) -> OldState {
        OldState { pos: self.cursor.at(), state: self.state }
    }

    /// The cursor is well formed.
    pub closed spec fn wf(&self) -> bool {
        self.cursor.wf()
    }

    /// A tokenizer at the start of `input`.
    pub fn new(input: &'a str) -> (t: Self)
        ensures
            t.wf(),
            t.input() == input@,
            t.tok() == (OldState { pos: 0, state: TokenizerState::Normal }),
    {
        HtmlTokenizer { cursor: StrCursor::new(input), state: TokenizerState::Normal }
    }

    /// The error at the position.
    fn error_here(&self, unquoted: bool, kind: TokenErrorKind) -> (r: Option<Result<HtmlToken<'a>, Error>>)
        requires
            self.wf(),
        ensures
            view_result(r) == err_at(self.input(), self.tok().pos, unquoted, kind),
    {
        proof {
            self.cursor.lemma_wf();
        }
        let pos = self.cursor.byte_pos();
        if unquoted {
            Some(Err(Error::UnquotedToken { pos, kind }))
        } else {
            Some(Err(Error::UnterminatedToken { pos, kind }))
        }
    }

    /// The state `Normal` at `<` (see `at_tag`).
    fn at_tag_exec(&mut self) -> (r: Round<'a>)
        requires
            old(self).wf(),
            old(self).tok().pos < old(self).input().len(),
            old(self).tok().state == TokenizerState::Normal,
        ensures
            final(self).wf(),
            final(self).input() == old(self).input(),
            round_went(at_tag(old(self).input(), old(self).tok()), final(self).tok(), r),
    {
        let ghost s = self.input();
        let ghost i = self.tok().pos;
        proof {
            self.cursor.lemma_wf();
        }
        let open: [char; 4] = ['<', '!', '-', '-'];
        let decl: [char; 2] = ['<', '?'];
        let close_decl: [char; 2] = ['?', '>'];
        let end: [char; 2] = ['<', '/'];
        proof {
            assert(open@ =~= comment_open());
            assert(decl@ =~= seq!['<', '?']);
            assert(close_decl@ =~= declaration_close());
            assert(end@ =~= seq!['<', '/']);
        }
        if self.cursor.looking_at(open.as_slice()) {
            let mut k: usize = 0;
            while k < 4
                invariant
                    self.cursor.wf(),
                    self.cursor.input() == s,
                    self.cursor.at() == i + k,
                    k <= 4,
                    i + 4 <= s.len(),
                decreases 4 - k,
            {
                self.cursor.consume();
                k += 1;
            }
            self.state = TokenizerState::InsideComment;
            return Round::Again;
        }
        if self.cursor.looking_at(decl.as_slice()) {
            return match find_text(self.cursor, close_decl.as_slice()) {
                None => Round::Done(self.error_here(false, TokenErrorKind::Declaration)),
                Some(d) => {
                    let mut a = self.cursor;
                    a.consume();
                    a.consume();
                    if a.is_after(&d) {
                        return Round::Stop;
                    }
                    let text = d.slice_from(&a);
                    let mut e = d;
                    e.consume();
                    e.consume();
                    self.cursor = e;
                    Round::Done(Some(Ok(HtmlToken::Declaration(text))))
                },
            };
        }
        if self.cursor.looking_at(end.as_slice()) {
            self.cursor.consume();
            self.cursor.consume();
            return match find_char(self.cursor, Until::Char('>')) {
                None => Round::Done(self.error_here(false, TokenErrorKind::End)),
                Some(d) => {
                    let name = d.slice_from(&self.cursor);
                    let mut e = d;
                    e.consume();
                    self.cursor = e;
                    Round::Done(Some(Ok(HtmlToken::EndTag(name))))
                },
            };
        }
        self.state = TokenizerState::InsideTag;
        self.cursor.consume();
        match find_char(self.cursor, Until::WhiteOrGt) {
            None => Round::Done(self.error_here(false, TokenErrorKind::Start)),
            Some(d) => {
                let name = d.slice_from(&self.cursor);
                self.cursor = d;
                Round::Done(Some(Ok(HtmlToken::StartTag(name))))
            },
        }
    }

    /// The state `Normal` in text (see `in_text`).
    fn in_text_exec(&mut self) -> (r: Round<'a>)
        requires
            old(self).wf(),
            old(self).tok().state == TokenizerState::Normal,
        ensures
            final(self).wf(),
            final(self).input() == old(self).input(),
            round_went(in_text(old(self).input(), old(self).tok()), final(self).tok(), r),
    {
        match find_char(self.cursor, Until::Char('<')) {
            None => Round::Done(self.error_here(false, TokenErrorKind::Text)),
            Some(d) => {
                proof {
                    self.cursor.lemma_wf();
                }
                let text = d.slice_from(&self.cursor);
                self.cursor = d;
                let t = StrCursor::new(text);
                if white_from(t) {
                    proof {
                        assert(text@.skip(0) =~= text@);
                    }
                    Round::Again
                } else {
                    proof {
                        assert(text@.skip(0) =~= text@);
                    }
                    Round::Done(Some(Ok(HtmlToken::Text(text))))
                }
            },
        }
    }

    /// The state `InsideTag` (see `inside_tag`).
    fn inside_tag_exec(&mut self) -> (r: Round<'a>)
        requires
            old(self).wf(),
            old(self).tok().state == TokenizerState::InsideTag,
        ensures
            final(self).wf(),
            final(self).input() == old(self).input(),
            round_went(inside_tag(old(self).input(), old(self).tok()), final(self).tok(), r),
    {
        let ghost s = self.input();
        proof {
            self.cursor.lemma_wf();
            lemma_skip_ascii_ws(s, self.tok().pos);
        }
        loop
            invariant
                self.cursor.wf(),
                self.cursor.input() == s,
                s == old(self).input(),
                self.state == TokenizerState::InsideTag,
                old(self).tok().pos <= self.tok().pos <= s.len(),
                skip_ascii_ws(s, old(self).tok().pos) == skip_ascii_ws(s, self.tok().pos),
            ensures
                self.cursor.wf(),
                self.cursor.input() == s,
                self.state == TokenizerState::InsideTag,
                skip_ascii_ws(s, old(self).tok().pos) == self.tok().pos,
            decreases s.len() - self.tok().pos,
        {
            proof {
                self.cursor.lemma_wf();
            }
            match self.cursor.peek() {
                Some(c) => {
                    if c == ' ' || c == '\t' || c == '\n' || c == '\x0C' || c == '\r' {
                        self.cursor.consume();
                    } else {
                        break;
                    }
                },
                None => {
                    break;
                },
            }
        }
        let slash: [char; 2] = ['/', '>'];
        proof {
            assert(slash@ =~= seq!['/', '>']);
        }
        match self.cursor.peek() {
            None => Round::Done(self.error_here(false, TokenErrorKind::Tag)),
            Some(c) => {
                if c == '>' {
                    self.cursor.consume();
                    self.state = TokenizerState::Normal;
                    Round::Done(Some(Ok(HtmlToken::TagEnd { self_closing: false })))
                } else if self.cursor.looking_at(slash.as_slice()) {
                    self.cursor.consume();
                    self.cursor.consume();
                    self.state = TokenizerState::Normal;
                    Round::Done(Some(Ok(HtmlToken::TagEnd { self_closing: true })))
                } else {
                    self.state = TokenizerState::InsideAttribute;
                    Round::Again
                }
            },
        }
    }

    /// The state `InsideAttribute` (see `inside_attribute`).
    fn inside_attribute_exec(&mut self) -> (r: Round<'a>)
        requires
            old(self).wf(),
            old(self).tok().state == TokenizerState::InsideAttribute,
        ensures
            final(self).wf(),
            final(self).input() == old(self).input(),
            round_went(inside_attribute(old(self).input(), old(self).tok()), final(self).tok(), r),
    {
        let ghost s = self.input();
        let ghost i = self.tok().pos;
        proof {
            self.cursor.lemma_wf();
        }
        match find_char(self.cursor, Until::Char('=')) {
            Some(eq) => {
                let name = trim_str(eq.slice_from(&self.cursor));
                let mut p = eq;
                p.consume();
                self.cursor = p;
                match self.cursor.peek() {
                    Some(q) => {
                        if q == '\'' || q == '"' {
                            self.cursor.consume();
                            match find_char(self.cursor, Until::Char(q)) {
                                None => Round::Done(self.error_here(false, TokenErrorKind::Attribute)),
                                Some(d) => {
                                    let value = d.slice_from(&self.cursor);
                                    let mut e = d;
                                    e.consume();
                                    self.cursor = e;
                                    self.state = TokenizerState::InsideTag;
                                    Round::Done(Some(Ok(HtmlToken::Attribute { name, value })))
                                },
                            }
                        } else {
                            Round::Done(self.error_here(true, TokenErrorKind::Attribute))
                        }
                    },
                    None => Round::Done(self.error_here(true, TokenErrorKind::Attribute)),
                }
            },
            None => match find_char(self.cursor, Until::AsciiWhiteOrGt) {
                None => Round::Done(self.error_here(false, TokenErrorKind::Attribute)),
                Some(d) => {
                    let name = d.slice_from(&self.cursor);
                    self.cursor = d;
                    self.state = TokenizerState::InsideTag;
                    Round::Done(Some(Ok(HtmlToken::BoolAttribute(name))))
                },
            },
        }
    }

    /// The state `InsideComment` (see `inside_comment`).
    fn inside_comment_exec(&mut self) -> (r: Round<'a>)
        requires
            old(self).wf(),
            old(self).tok().state == TokenizerState::InsideComment,
        ensures
            final(self).wf(),
            final(self).input() == old(self).input(),
            round_went(inside_comment(old(self).input(), old(self).tok()), final(self).tok(), r),
    {
        let close: [char; 3] = ['-', '-', '>'];
        proof {
            assert(close@ =~= comment_close());
            self.cursor.lemma_wf();
        }
        match find_text(self.cursor, close.as_slice()) {
            None => Round::Done(self.error_here(false, TokenErrorKind::Comment)),
            Some(d) => {
                let text = d.slice_from(&self.cursor);
                let mut e = d;
                e.consume();
                e.consume();
                e.consume();
                self.cursor = e;
                self.state = TokenizerState::Normal;
                Round::Done(Some(Ok(HtmlToken::Comment(text))))
            },
        }
    }

    /// One round of `next` (see `round`).
    fn round_exec(&mut self) -> (r: Round<'a>)
        requires
            old(self).wf(),
        ensures
            final(self).wf(),
            final(self).input() == old(self).input(),
            round_went(round(old(self).input(), old(self).tok()), final(self).tok(), r),
    {
        proof {
            self.cursor.lemma_wf();
        }
        if self.cursor.is_end() {
            return Round::Done(None);
        }
        if white_from(self.cursor) {
            loop
                invariant
                    self.cursor.wf(),
                    self.cursor.input() == old(self).input(),
                    self.state == old(self).state,
                ensures
                    self.cursor.wf(),
                    self.cursor.input() == old(self).input(),
                    self.state == old(self).state,
                    self.cursor.at() == self.cursor.input().len(),
                decreases self.cursor.input().len() - self.cursor.at(),
            {
                proof {
                    self.cursor.lemma_wf();
                }
                if self.cursor.consume().is_none() {
                    break;
                }
            }
            return Round::Done(None);
        }
        match self.state {
            TokenizerState::Normal => {
                if self.cursor.peek() == Some('<') {
                    self.at_tag_exec()
                } else {
                    self.in_text_exec()
                }
            },
            TokenizerState::InsideTag => self.inside_tag_exec(),
            TokenizerState::InsideAttribute => self.inside_attribute_exec(),
            TokenizerState::InsideComment => self.inside_comment_exec(),
        }
    }

    /// Rounds until one ends the call (`Some` of what `next` gives back), or
    /// would stop the program (`None`).
    fn run_exec(&mut self) -> (r: Option<Option<Result<HtmlToken<'a>, Error>>>)
        requires
            old(self).wf(),
        ensures
            final(self).wf(),
            final(self).input() == old(self).input(),
            match run(old(self).input(), old(self).tok()) {
                Outcome::Done(t2, x) => r matches Some(y) && final(self).tok() == t2 && view_result(y) == x,
                _ => r is None,
            },
    {
        let ghost s = self.input();
        let ghost total = run(s, self.tok());
        proof {
            self.cursor.lemma_wf();
        }
        loop
            invariant
                self.wf(),
                self.input() == s,
                s == old(self).input(),
                total == run(old(self).input(), old(self).tok()),
                0 <= self.tok().pos <= s.len(),
                run(s, self.tok()) == total,
            decreases s.len() - self.tok().pos, rank(self.tok()),
        {
            proof {
                lemma_round(s, self.tok());
            }
            match self.round_exec() {
                Round::Done(x) => {
                    return Some(x);
                },
                Round::Again => {
                    proof {
                        self.cursor.lemma_wf();
                    }
                },
                Round::Stop => {
                    return None;
                },
            }
        }
    }

    /// Whether the next call of `next` would stop the program (a declaration
    /// written `<?>`, whose slice panics).
    pub fn halts_next(&self) -> (r: bool)
        requires
            self.wf(),
        ensures
            r == (run(self.input(), self.tok()) is Stuck),
    {
        proof {
            self.cursor.lemma_wf();
            lemma_run_ends(self.input(), self.tok());
        }
        let mut copy = HtmlTokenizer { cursor: self.cursor, state: self.state };
        copy.run_exec().is_none()
    }

    /// The next token or error; `None` at the end of the input, or where only
    /// white space is left. Rounds go as `run` says.
    pub fn next(&mut self) -> (r: Option<Result<HtmlToken<'a>, Error>>)
        requires
            old(self).wf(),
            !(run(old(self).input(), old(self).tok()) is Stuck),
        ensures
            final(self).wf(),
            final(self).input() == old(self).input(),
            run(old(self).input(), old(self).tok()) matches Outcome::Done(t2, x) && final(self).tok() == t2
                && view_result(r) == x,
    {
        proof {
            self.cursor.lemma_wf();
            lemma_run_ends(self.input(), self.tok());
        }
        self.run_exec().unwrap()
    }
}

/// A round went as `o` says.
spec fn round_went(o: Outcome, after: OldState, r: Round) -> bool {
    match o {
        Outcome::Done(t2, x) => r matches Round::Done(y) && after == t2 && view_result(y) == x,
        Outcome::Again(t2) => r is Again && after == t2,
        Outcome::Stuck => r is Stop,
    }
}

// ---------------------------------------------------------------------------
// Laws.

/// Each call of `next` keeps the position inside the input and never moves
/// it back.
pub proof fn law_next_moves_forward(s: Seq<char>, t: OldState)
    requires
        0 <= t.pos <= s.len(),
    ensures
        run(s, t) matches Outcome::Done(t2, _) ==> t.pos <= t2.pos <= s.len(),
{
    lemma_run_ends(s, t);
}

/// At the end of the input `next` gives back nothing, and changes nothing:
/// the tokenizer stays exhausted.
pub proof fn law_exhausted_stays_exhausted(s: Seq<char>, t: OldState)
    requires
        t.pos == s.len(),
    ensures
        run(s, t) == Outcome::Done(t, None),
{
}

/// Where only white space is left, `next` gives back nothing and moves to
/// the end of the input.
pub proof fn law_white_space_ends(s: Seq<char>, t: OldState)
    requires
        0 <= t.pos < s.len(),
        all_white(s.skip(t.pos)),
    ensures
        run(s, t) == Outcome::Done(OldState { pos: s.len() as int, ..t }, None),
{
}

} // verus!
