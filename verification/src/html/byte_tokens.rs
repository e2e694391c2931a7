//! The beginning of a byte-level HTML tokenizer: so far it reads RCDATA, the
//! text of an element such as `textarea` or `title`, and the end tag that
//! closes it.
use vstd::prelude::*;
use crate::bs::{occurs_at, until_byte, byte_run_end, lemma_until_byte, lemma_until_byte_bounds, LT, SLASH, GT, TAB, LF, FF, SPACE};

verus! {

/// An error of the tokenizer.
#[derive(Debug, PartialEq, Eq, Structural, Clone, Copy)]
pub enum Error {
    UnexpectedNullCharacter,
}

impl Error {
    /// The error's message.
    pub fn to_string(&self) -> (s: String)
        ensures
            s@ == "Unexpected null character encountered"@,
    {
        match self {
            Error::UnexpectedNullCharacter => String::from_str("Unexpected null character encountered"),
        }
    }
}

/// A document type declaration.
#[derive(Debug, PartialEq)]
pub struct Doctype<'a> {
    name: Option<&'a [u8]>,
    public_identifier: Option<&'a [u8]>,
    system_identifier: Option<&'a [u8]>,
    force_quirks: bool,
}

/// A start or end tag.
#[derive(Debug, PartialEq)]
pub struct Tag<'a> {
    name: &'a [u8],
    self_closing: bool,
    attributes: Vec<&'a [u8]>,
}

/// What a tag holds: its name, whether it closes itself, and its
/// attributes.
pub struct TagView {
    pub name: Seq<u8>,
    pub self_closing: bool,
    pub attributes: Seq<Seq<u8>>,
}

impl<'a> View for Tag<'a> {
    type V = TagView;

    closed spec fn view(&self) -> TagView {
        TagView {
            name: self.name@,
            self_closing: self.self_closing,
            attributes: self.attributes@.map_values(|a: &'a [u8]| a@),
        }
    }
}

impl<'a> Tag<'a> {
    /// The tag's name.
    pub fn name(&self) -> (n: &'a [u8])
        ensures
            n@ == self@.name,
    {
        self.name
    }

    /// Whether the tag closes itself.
    pub fn self_closing(&self) -> (b: bool)
        ensures
            b == self@.self_closing,
    {
        self.self_closing
    }

    /// The number of the tag's attributes.
    pub fn attribute_count(&self) -> (n: usize)
        ensures
            n == self@.attributes.len(),
    {
        self.attributes.len()
    }
}

/// A token.
#[derive(Debug, PartialEq)]
pub enum HtmlToken<'a> {
    Doctype(Doctype<'a>),
    StartTag(Tag<'a>),
    EndTag(Tag<'a>),
    Comment(&'a [u8]),
    Character(&'a [u8]),
}

/// Where the tokenizer stands.
#[derive(Debug, PartialEq, Eq, Structural, Clone, Copy)]
pub enum HtmlState {
    Data,
    RcData,
    RawText,
    ScriptData,
    PlainText,
}

/// The tokenizer over a byte slice.
pub struct HtmlTokenizer<'a> {
    bytes: &'a [u8],
    state: HtmlState,
    return_state: HtmlState,
    pos: usize,
    mark: usize,
    current_tag_buffer: Option<Tag<'a>>,
    last_start_tag_name: Option<&'a [u8]>,
}

/// `b` in lower case, for ASCII letters.
pub open spec fn ascii_lower(b: u8) -> u8 {
    if 0x41 <= b <= 0x5a {
        (b + 0x20) as u8
    } else {
        b
    }
}

/// Whether `a` and `b` are equal when ASCII letters are compared without
/// regard to case, as `eq_ignore_ascii_case` compares them.
pub open spec fn same_ignoring_case(a: Seq<u8>, b: Seq<u8>) -> bool {
    &&& a.len() == b.len()
    &&& forall|i: int| 0 <= i < a.len() ==> ascii_lower(#[trigger] a[i]) == ascii_lower(b[i])
}

/// Whether `a` and `b` are equal without regard to the case of ASCII letters.
pub fn eq_ignore_ascii_case(a: &[u8], b: &[u8]) -> (r: bool)
    ensures
        r == same_ignoring_case(a@, b@),
{
    if a.len() != b.len() {
        return false;
    }
    let mut i: usize = 0;
    while i < a.len()
        invariant
            i <= a.len(),
            a.len() == b.len(),
            forall|k: int| 0 <= k < i ==> ascii_lower(#[trigger] a@[k]) == ascii_lower(b@[k]),
        decreases a.len() - i,
    {
        let x = if 0x41 <= a[i] && a[i] <= 0x5a { a[i] + 0x20 } else { a[i] };
        let y = if 0x41 <= b[i] && b[i] <= 0x5a { b[i] + 0x20 } else { b[i] };
        if x != y {
            assert(ascii_lower(a@[i as int]) != ascii_lower(b@[i as int]));
            return false;
        }
        i += 1;
    }
    true
}

/// Whether `name` closes the element last opened, named `last`.
pub open spec fn appropriate_end_tag(last: Option<Seq<u8>>, name: Seq<u8>) -> bool {
    match last {
        Some(l) => same_ignoring_case(l, name),
        None => false,
    }
}

/// `</`.
pub open spec fn end_tag_open() -> Seq<u8> {
    seq![LT, SLASH]
}

/// An ASCII letter.
pub open spec fn is_alpha(b: u8) -> bool {
    (0x41 <= b <= 0x5a) || (0x61 <= b <= 0x7a)
}

/// A byte that ends the name of an end tag: tab, line feed, form feed,
/// space, `/` or `>`.
pub open spec fn ends_end_tag_name(b: u8) -> bool {
    b == TAB || b == LF || b == FF || b == SPACE || b == SLASH || b == GT
}

/// Where the run of ASCII letters that starts at `i` ends.
pub open spec fn letters_end(s: Seq<u8>, i: int) -> int
    decreases s.len() - i,
{
    if 0 <= i < s.len() && is_alpha(s[i]) {
        letters_end(s, i + 1)
    } else {
        i
    }
}

/// `s` holds at `k` an end tag that closes the element last opened, named
/// `last`: `</`, a name of ASCII letters equal to `last` but for case, and
/// a byte that ends the name.
pub open spec fn closing_tag_at(s: Seq<u8>, k: int, last: Option<Seq<u8>>) -> bool {
    let e = letters_end(s, k + 2);
    &&& occurs_at(s, k, end_tag_open())
    &&& k + 2 < e < s.len()
    &&& ends_end_tag_name(s[e])
    &&& appropriate_end_tag(last, s.subrange(k + 2, e))
}

/// Where the text read from `pos` on ends: at the first end tag from `pos`
/// on that closes the element last opened, or at the end of the input.
pub open spec fn rcdata_text_end(s: Seq<u8>, pos: int, last: Option<Seq<u8>>) -> int
    decreases s.len() - pos,
{
    if pos < 0 || pos >= s.len() || closing_tag_at(s, pos, last) {
        pos
    } else {
        rcdata_text_end(s, pos + 1, last)
    }
}

/// A run of letters ends inside the input, and holds only letters.
pub proof fn lemma_letters_end(s: Seq<u8>, i: int)
    requires
        0 <= i <= s.len(),
    ensures
        i <= letters_end(s, i) <= s.len(),
        forall|k: int| i <= k < letters_end(s, i) ==> is_alpha(#[trigger] s[k]),
        letters_end(s, i) < s.len() ==> !is_alpha(s[letters_end(s, i)]),
    decreases s.len() - i,
{
    if i < s.len() && is_alpha(s[i]) {
        lemma_letters_end(s, i + 1);
    }
}

/// The text read from `pos` on ends between `pos` and the end of the input.
pub proof fn lemma_rcdata_text_end(s: Seq<u8>, pos: int, last: Option<Seq<u8>>)
    requires
        0 <= pos <= s.len(),
    ensures
        pos <= rcdata_text_end(s, pos, last) <= s.len(),
        rcdata_text_end(s, pos, last) < s.len() ==> closing_tag_at(s, rcdata_text_end(s, pos, last), last),
        forall|k: int| pos <= k < rcdata_text_end(s, pos, last) ==> !closing_tag_at(s, k, last),
    decreases s.len() - pos,
{
    if pos < s.len() && !closing_tag_at(s, pos, last) {
        lemma_rcdata_text_end(s, pos + 1, last);
    }
}

/// Whether `b` is an ASCII letter.
fn is_alpha_byte(b: u8) -> (r: bool)
    ensures
        r == is_alpha(b),
{
    (0x41 <= b && b <= 0x5a) || (0x61 <= b && b <= 0x7a)
}

/// Where the run of ASCII letters that starts at `i` ends.
fn find_letters_end(s: &[u8], i: usize) -> (e: usize)
    requires
        i <= s.len(),
    ensures
        e == letters_end(s@, i as int),
{
    let mut j = i;
    while j < s.len() && is_alpha_byte(s[j])
        invariant
            i <= j <= s.len(),
            letters_end(s@, j as int) == letters_end(s@, i as int),
        decreases s.len() - j,
    {
        j += 1;
    }
    j
}

/// The first position from `start` on that holds `q`, if any.
fn byte_position(s: &[u8], start: usize, q: u8) -> (r: Option<usize>)
    requires
        start <= s.len(),
    ensures
        match r {
            Some(i) => i == until_byte(s@, start as int, q) && i < s.len(),
            None => until_byte(s@, start as int, q) == s.len(),
        },
{
    let mut i = start;
    while i < s.len()
        invariant
            start <= i <= s.len(),
            forall|k: int| start <= k < i ==> #[trigger] s@[k] != q,
        decreases s.len() - i,
    {
        if s[i] == q {
            proof {
                assert(byte_run_end(s@, start as int, i as int, q));
                lemma_until_byte(s@, start as int, i as int, q);
            }
            return Some(i);
        }
        i += 1;
    }
    proof {
        assert(byte_run_end(s@, start as int, s.len() as int, q));
        lemma_until_byte(s@, start as int, s.len() as int, q);
    }
    None
}

impl<'a> From<&'a [u8]> for HtmlTokenizer<'a> {
    fn from(value: &'a [u8]) -> (t: Self)
        ensures
            t.wf(),
            t.input() == value@,
            t.at() == 0,
            t.current_state() == HtmlState::Data,
            t.last_start_tag() is None,
    {
        HtmlTokenizer {
            bytes: value,
            state: HtmlState::Data,
            return_state: HtmlState::Data,
            pos: 0,
            mark: 0,
            current_tag_buffer: None,
            last_start_tag_name: None,
        }
    }
}

impl<'a> vstd::std_specs::convert::FromSpecImpl<&'a [u8]> for HtmlTokenizer<'a> {
    open spec fn obeys_from_spec() -> bool {
        true
    }

    open spec fn from_spec(v: &'a [u8]) -> Self {
        HtmlTokenizer::fresh(v)
    }
}

impl<'a> HtmlTokenizer<'a> {
    /// The tokenizer at the start of `v`, in state `Data`, with no element
    /// opened.
    pub closed spec fn fresh(v: &'a [u8]) -> Self {
        HtmlTokenizer {
            bytes: v,
            state: HtmlState::Data,
            return_state: HtmlState::Data,
            pos: 0,
            mark: 0,
            current_tag_buffer: None,
            last_start_tag_name: None,
        }
    }

    /// The input.
    pub closed spec fn input(&self) -> Seq<u8> {
        self.bytes@
    }

    /// The current position.
    pub closed spec fn at(&self) -> int {
        self.pos as int
    }

    /// The current state.
    pub closed spec fn current_state(&self) -> HtmlState {
        self.state
    }

    /// The name of the element last opened, if any.
    pub closed spec fn last_start_tag(&self) -> Option<Seq<u8>> {
        match self.last_start_tag_name {
            Some(n) => Some(n@),
            None => None,
        }
    }

    /// The position lies inside the input or at its end.
    pub closed spec fn wf(&self) -> bool {
        self.pos <= self.bytes@.len()
    }

    /// A fresh tokenizer stands at the start of its input in state `Data`
    /// with no element opened.
    pub proof fn lemma_fresh(v: &'a [u8])
        ensures
            Self::fresh(v).wf(),
            Self::fresh(v).input() == v@,
            Self::fresh(v).at() == 0,
            Self::fresh(v).current_state() == HtmlState::Data,
            Self::fresh(v).last_start_tag() is None,
    {
    }

    /// Makes the tokenizer go on in `state`.
    pub fn override_state(&mut self, state: HtmlState)
        ensures
            final(self).wf() == old(self).wf(),
            final(self).input() == old(self).input(),
            final(self).at() == old(self).at(),
            final(self).current_state() == state,
            final(self).last_start_tag() == old(self).last_start_tag(),
    {
        self.state = state;
    }

    /// Records `name` as the name of the element last opened.
    pub fn set_last_start_tag_name(&mut self, name: &'a [u8])
        ensures
            final(self).wf() == old(self).wf(),
            final(self).input() == old(self).input(),
            final(self).at() == old(self).at(),
            final(self).current_state() == old(self).current_state(),
            final(self).last_start_tag() == Some(name@),
    {
        self.last_start_tag_name = Some(name);
    }

    /// Whether `name` closes the element last opened.
    fn is_appropriate_end_tag(&self, name: &'a [u8]) -> (r: bool)
        ensures
            r == appropriate_end_tag(self.last_start_tag(), name@),
    {
        if let Some(previous) = self.last_start_tag_name {
            return eq_ignore_ascii_case(previous, name);
        }
        false
    }

    /// Whether the input holds at `k` an end tag that closes the element
    /// last opened.
    fn closing_tag_at(&self, k: usize) -> (r: bool)
        requires
            self.wf(),
            k < self.input().len(),
        ensures
            r == closing_tag_at(self.input(), k as int, self.last_start_tag()),
    {
        let s = self.bytes;
        if s.len() - k < 2 || s[k] != LT || s[k + 1] != SLASH {
            proof {
                if occurs_at(s@, k as int, end_tag_open()) {
                    assert(s@.subrange(k as int, k + 2)[0] == s@[k as int]);
                    assert(s@.subrange(k as int, k + 2)[1] == s@[k + 1]);
                }
            }
            return false;
        }
        proof {
            assert(s@.subrange(k as int, k + 2) =~= end_tag_open());
        }
        let e = find_letters_end(s, k + 2);
        if e <= k + 2 || e >= s.len() {
            return false;
        }
        let b = s[e];
        if !(b == TAB || b == LF || b == FF || b == SPACE || b == SLASH || b == GT) {
            return false;
        }
        let name = &s[k + 2..e];
        self.is_appropriate_end_tag(name)
    }

    /// Reads the next token; `None` once the input is used up, or when it
    /// ends inside an end tag. So far only state `RcData` is read: the text
    /// up to the end tag that closes the element last opened (see
    /// `rcdata_text_end`), then that end tag, named as the element, marked
    /// as closing itself and without attributes, after which the tokenizer
    /// goes on in state `Data`. An end tag runs to the first `>` after its
    /// name.
    pub fn next(&mut self) -> (r: Option<Result<HtmlToken<'a>, Error>>)
        requires
            old(self).wf(),
            old(self).at() < old(self).input().len() ==> old(self).current_state() == HtmlState::RcData,
        ensures
            final(self).wf(),
            final(self).input() == old(self).input(),
            final(self).last_start_tag() == old(self).last_start_tag(),
            old(self).at() >= old(self).input().len() ==> r is None && final(self).at() == old(self).at()
                && final(self).current_state() == old(self).current_state(),
            old(self).at() < old(self).input().len() ==> ({
                let s = old(self).input();
                let p = old(self).at();
                let last = old(self).last_start_tag();
                let t = rcdata_text_end(s, p, last);
                let g = until_byte(s, letters_end(s, p + 2), GT);
                if t > p {
                    &&& final(self).at() == t
                    &&& final(self).current_state() == old(self).current_state()
                    &&& r matches Some(Ok(HtmlToken::Character(d))) && d@ == s.subrange(p, t)
                } else if g < s.len() {
                    &&& final(self).at() == g + 1
                    &&& final(self).current_state() == HtmlState::Data
                    &&& r matches Some(Ok(HtmlToken::EndTag(tag))) && tag@ == (TagView {
                        name: last.unwrap(),
                        self_closing: true,
                        attributes: Seq::empty(),
                    })
                } else {
                    &&& final(self).at() == s.len()
                    &&& final(self).current_state() == old(self).current_state()
                    &&& r is None
                }
            }),
    {
        if self.pos >= self.bytes.len() {
            return None;
        }
        let ghost s = self.bytes@;
        let ghost last = self.last_start_tag();
        let mut k = self.pos;
        loop
            invariant
                s == self.bytes@,
                last == self.last_start_tag(),
                self.wf(),
                self.pos <= k <= s.len(),
                rcdata_text_end(s, k as int, last) == rcdata_text_end(s, self.pos as int, last),
            ensures
                k == rcdata_text_end(s, self.pos as int, last),
            decreases s.len() - k,
        {
            if k >= self.bytes.len() || self.closing_tag_at(k) {
                break;
            }
            k += 1;
        }
        if k > self.pos {
            let d = &self.bytes[self.pos..k];
            self.pos = k;
            return Some(Ok(HtmlToken::Character(d)));
        }
        proof {
            lemma_rcdata_text_end(s, k as int, last);
            lemma_letters_end(s, k + 2);
        }
        let e = find_letters_end(self.bytes, self.pos + 2);
        match byte_position(self.bytes, e, GT) {
            Some(g) => {
                self.pos = g + 1;
                self.state = HtmlState::Data;
                match self.last_start_tag_name {
                    Some(name) => {
                        let tag = Tag { name, self_closing: true, attributes: Vec::new() };
                        proof {
                            assert(tag@.attributes =~= Seq::<Seq<u8>>::empty());
                        }
                        Some(Ok(HtmlToken::EndTag(tag)))
                    },
                    None => None,
                }
            },
            None => {
                self.pos = self.bytes.len();
                None
            },
        }
    }
}

} // verus!
