//! A byte scanner: a cursor over a borrowed byte slice with the primitive
//! consuming steps that the markup tokenizers are built from.
//!
//! Every consuming step assumes that the byte at the current position is the
//! first byte of what it has to consume. Closing sequences (`-->`, `]]>`) are
//! consumed, while break bytes (`>`, `=`, `"`) are left in place, since they
//! may be read differently by the caller.
use vstd::prelude::*;

verus! {

/// Byte values that the markup scanners compare against.
pub const SPACE: u8 = 0x20;
pub const TAB: u8 = 0x09;
pub const LF: u8 = 0x0a;
pub const FF: u8 = 0x0c;
pub const CR: u8 = 0x0d;
pub const BANG: u8 = 0x21;
pub const DQUOTE: u8 = 0x22;
pub const AMP: u8 = 0x26;
pub const APOS: u8 = 0x27;
pub const DASH: u8 = 0x2d;
pub const SLASH: u8 = 0x2f;
pub const COLON: u8 = 0x3a;
pub const LT: u8 = 0x3c;
pub const EQUALS: u8 = 0x3d;
pub const GT: u8 = 0x3e;
pub const QUESTION: u8 = 0x3f;
pub const LBRACKET: u8 = 0x5b;
pub const RBRACKET: u8 = 0x5d;

/// The error a scanning step reports.
#[derive(Debug, PartialEq, Eq, Structural)]
pub enum Error {
    UnexpectedEndOfFile,
}

impl Error {
    /// The human readable message of the error.
    pub fn to_string(&self) -> (s: String)
        ensures
            s@ == error_message(),
    {
        String::from_str("Unexpected EOF")
    }
}

/// The message of [`Error::UnexpectedEndOfFile`].
pub open spec fn error_message() -> Seq<char> {
    "Unexpected EOF"@
}

/// The four whitespace bytes that the scanner skips.
pub open spec fn is_space(b: u8) -> bool {
    b == 0x20 || b == 0x09 || b == 0x0a || b == 0x0d
}

/// ASCII whitespace as `u8::is_ascii_whitespace` defines it (form feed included).
pub open spec fn is_ascii_ws(b: u8) -> bool {
    b == 0x20 || b == 0x09 || b == 0x0a || b == FF || b == 0x0d
}

/// A byte that ends a tag name: whitespace, `>`, `/` or `?`.
pub open spec fn ends_tag_name(b: u8) -> bool {
    is_space(b) || b == 0x3e || b == 0x2f || b == 0x3f
}

/// A byte that ends an attribute name: ASCII whitespace, `=`, `>`, `/` or `?`.
pub open spec fn ends_attribute_name(b: u8) -> bool {
    is_ascii_ws(b) || b == 0x3d || b == 0x3e || b == 0x2f || b == 0x3f
}

/// A byte that ends an unquoted attribute value: ASCII whitespace, `>` or `/`.
pub open spec fn ends_unquoted_value(b: u8) -> bool {
    is_ascii_ws(b) || b == 0x3e || b == 0x2f
}

/// `end` is where a run that starts at `start` and stops before the first
/// byte satisfying `stop` ends; it is `s.len()` when no such byte follows.
pub open spec fn run_end(s: Seq<u8>, start: int, end: int, stop: spec_fn(u8) -> bool) -> bool {
    &&& start <= end <= s.len()
    &&& forall|k: int| start <= k < end ==> !stop(#[trigger] s[k])
    &&& end < s.len() ==> stop(s[end])
}

/// Where the run that starts at `start` and stops before the first byte
/// satisfying `stop` ends (`s.len()` when no byte stops it).
pub open spec fn run_stop(s: Seq<u8>, start: int, stop: spec_fn(u8) -> bool) -> int {
    choose|e: int| run_end(s, start, e, stop)
}

/// `end` is where the run at `start` stops before the first byte equal to `q`
/// (`s.len()` when no such byte follows).
pub open spec fn byte_run_end(s: Seq<u8>, start: int, end: int, q: u8) -> bool {
    &&& start <= end <= s.len()
    &&& forall|k: int| start <= k < end ==> #[trigger] s[k] != q
    &&& end < s.len() ==> s[end] == q
}

/// Where the run at `start` that stops before the first byte equal to `q` ends.
pub open spec fn until_byte(s: Seq<u8>, start: int, q: u8) -> int {
    choose|e: int| byte_run_end(s, start, e, q)
}

/// A scan for `q` that stopped at `e` ended where `until_byte` says.
pub proof fn lemma_until_byte(s: Seq<u8>, start: int, e: int, q: u8)
    requires
        byte_run_end(s, start, e, q),
    ensures
        until_byte(s, start, q) == e,
{
    let c = until_byte(s, start, q);
    assert(byte_run_end(s, start, c, q));
    if c < e {
        assert(s[c] != q);
    } else if e < c {
        assert(s[e] != q);
    }
}

/// Every scan for `q` that starts inside the input ends inside it.
pub proof fn lemma_until_byte_bounds(s: Seq<u8>, start: int, q: u8)
    requires
        0 <= start <= s.len(),
    ensures
        byte_run_end(s, start, until_byte(s, start, q), q),
    decreases s.len() - start,
{
    if start == s.len() || s[start] == q {
        assert(byte_run_end(s, start, start, q));
    } else {
        lemma_until_byte_bounds(s, start + 1, q);
        let e = until_byte(s, start + 1, q);
        assert forall|k: int| start <= k < e implies #[trigger] s[k] != q by {
            if k > start {
                assert(byte_run_end(s, start + 1, e, q));
            }
        }
        assert(byte_run_end(s, start, e, q));
    }
}

/// A run has exactly one end.
pub proof fn lemma_run_end_unique(s: Seq<u8>, start: int, e1: int, e2: int, stop: spec_fn(u8) -> bool)
    requires
        run_end(s, start, e1, stop),
        run_end(s, start, e2, stop),
    ensures
        e1 == e2,
{
    if e1 < e2 {
        assert(!stop(s[e1]));
    } else if e2 < e1 {
        assert(!stop(s[e2]));
    }
}

/// Every run that starts inside the input has an end.
pub proof fn lemma_run_end_exists(s: Seq<u8>, start: int, stop: spec_fn(u8) -> bool)
    requires
        0 <= start <= s.len(),
    ensures
        run_end(s, start, run_stop(s, start, stop), stop),
    decreases s.len() - start,
{
    if start == s.len() {
        assert(run_end(s, start, start, stop));
    } else if stop(s[start]) {
        assert(run_end(s, start, start, stop));
    } else {
        lemma_run_end_exists(s, start + 1, stop);
        let e = run_stop(s, start + 1, stop);
        assert forall|k: int| start <= k < e implies !stop(#[trigger] s[k]) by {
            if k > start {
                assert(run_end(s, start + 1, e, stop));
            }
        }
        assert(run_end(s, start, e, stop));
    }
}

/// The end that a scan establishes is the one `run_stop` names.
pub proof fn lemma_run_stop(s: Seq<u8>, start: int, e: int, stop: spec_fn(u8) -> bool)
    requires
        run_end(s, start, e, stop),
    ensures
        run_stop(s, start, stop) == e,
{
    lemma_run_end_unique(s, start, e, run_stop(s, start, stop), stop);
}

/// The first position at or after `start` at which `pat` occurs, if any.
pub open spec fn find_from(s: Seq<u8>, start: int, pat: Seq<u8>) -> Option<int> {
    if exists|i: int| first_occurrence(s, start, i, pat) {
        Some(choose|i: int| first_occurrence(s, start, i, pat))
    } else {
        None
    }
}

/// `find_from` names the first occurrence when there is one.
pub proof fn lemma_find_from_some(s: Seq<u8>, start: int, i: int, pat: Seq<u8>)
    requires
        first_occurrence(s, start, i, pat),
    ensures
        find_from(s, start, pat) == Some(i),
{
    let j = choose|j: int| first_occurrence(s, start, j, pat);
    if j < i {
        assert(!occurs_at(s, j, pat));
    } else if i < j {
        assert(!occurs_at(s, i, pat));
    }
}

/// `find_from` is `None` when the pattern does not occur.
pub proof fn lemma_find_from_none(s: Seq<u8>, start: int, pat: Seq<u8>)
    requires
        no_occurrence(s, start, pat),
    ensures
        find_from(s, start, pat) is None,
{
    if exists|i: int| first_occurrence(s, start, i, pat) {
        let i = choose|i: int| first_occurrence(s, start, i, pat);
        assert(occurs_at(s, i, pat));
    }
}

/// `s` holds `pat` at position `i`.
pub open spec fn occurs_at(s: Seq<u8>, i: int, pat: Seq<u8>) -> bool {
    0 <= i && i + pat.len() <= s.len() && s.subrange(i, i + pat.len()) == pat
}

/// `i` is the first position at or after `start` at which `pat` occurs in `s`.
pub open spec fn first_occurrence(s: Seq<u8>, start: int, i: int, pat: Seq<u8>) -> bool {
    &&& start <= i
    &&& occurs_at(s, i, pat)
    &&& forall|j: int| start <= j < i ==> !occurs_at(s, j, pat)
}

/// `pat` occurs nowhere in `s` at or after `start`.
pub open spec fn no_occurrence(s: Seq<u8>, start: int, pat: Seq<u8>) -> bool {
    forall|j: int| start <= j ==> !occurs_at(s, j, pat)
}

/// Whether `b` is one of the four whitespace bytes the scanner skips.
pub fn is_space_byte(b: u8) -> (r: bool)
    ensures
        r == is_space(b),
{
    b == SPACE || b == TAB || b == LF || b == CR
}

/// Whether `b` ends a tag name.
pub fn ends_tag_name_byte(b: u8) -> (r: bool)
    ensures
        r == ends_tag_name(b),
{
    is_space_byte(b) || b == GT || b == SLASH || b == QUESTION
}

/// The bytes of an ASCII text.
pub open spec fn ascii(s: Seq<char>) -> Seq<u8> {
    s.map_values(|c: char| c as u8)
}

/// Whether two byte slices hold the same bytes.
pub fn bytes_eq(a: &[u8], b: &[u8]) -> (r: bool)
    ensures
        r == (a@ == b@),
{
    if a.len() != b.len() {
        return false;
    }
    let r = matches_at(a, 0, b);
    proof {
        assert(a@ =~= a@.subrange(0, b@.len() as int));
    }
    r
}

/// Whether `s` holds `pat` at position `i` (no panic when it does not fit).
pub fn matches_at(s: &[u8], i: usize, pat: &[u8]) -> (r: bool)
    ensures
        r == occurs_at(s@, i as int, pat@),
{
    if i > s.len() || pat.len() > s.len() - i {
        return false;
    }
    let mut k: usize = 0;
    while k < pat.len()
        invariant
            k <= pat.len(),
            i + pat.len() <= s.len(),
            forall|j: int| 0 <= j < k ==> s@[i + j] == pat@[j],
        decreases pat.len() - k,
    {
        if s[i + k] != pat[k] {
            assert(s@.subrange(i as int, i + pat.len())[k as int] != pat@[k as int]);
            return false;
        }
        k += 1;
    }
    assert(s@.subrange(i as int, i + pat.len()) =~= pat@);
    true
}

/// A cursor over a borrowed byte slice.
#[derive(Clone, Copy)]
pub struct Scanner<'a> {
    bytes: &'a [u8],
    pos: usize,
}

impl<'a> From<&'a [u8]> for Scanner<'a> {
    fn from(value: &'a [u8]) -> (s: Self) {
        Scanner { bytes: value, pos: 0 }
    }
}

impl<'a> vstd::std_specs::convert::FromSpecImpl<&'a [u8]> for Scanner<'a> {
    open spec fn obeys_from_spec() -> bool {
        true
    }

    open spec fn from_spec(v: &'a [u8]) -> Self {
        Scanner::fresh(v)
    }
}

impl<'a> Scanner<'a> {
    /// The scanned input.
    pub closed spec fn input(&self) -> Seq<u8> {
        self.bytes@
    }

    /// The current position in the input.
    pub closed spec fn at(&self) -> int {
        self.pos as int
    }

    /// The scanner that stands at the start of `bytes`.
    pub closed spec fn fresh(bytes: &'a [u8]) -> Self {
        Scanner { bytes, pos: 0 }
    }

    /// The scanner over the same input, moved to position `pos`.
    pub closed spec fn moved(&self, pos: int) -> Self {
        Scanner { bytes: self.bytes, pos: pos as usize }
    }

    /// A fresh scanner reads `bytes` from their start.
    pub proof fn lemma_fresh(bytes: &'a [u8])
        ensures
            Self::fresh(bytes).input() == bytes@,
            Self::fresh(bytes).at() == 0,
    {
    }

    /// A moved scanner reads the same input, at the new position.
    pub proof fn lemma_moved(&self, pos: int)
        requires
            0 <= pos <= usize::MAX,
        ensures
            self.moved(pos).input() == self.input(),
            self.moved(pos).at() == pos,
    {
    }

    /// The input is a slice, so its length fits in a `usize`.
    pub proof fn lemma_input_fits(&self)
        ensures
            self.input().len() <= usize::MAX,
    {
        assert(self.bytes.len() == self.bytes@.len());
    }

    /// The scanner that stands at the start of `bytes`.
    pub fn new(bytes: &'a [u8]) -> (s: Self)
        ensures
            s == Self::fresh(bytes),
            s.input() == bytes@,
            s.at() == 0,
    {
        Scanner { bytes, pos: 0 }
    }

    /// The current position.
    pub fn pos(&self) -> (p: usize)
        ensures
            p as int == self.at(),
    {
        self.pos
    }

    /// The length of the input.
    pub fn len(&self) -> (n: usize)
        ensures
            n == self.input().len(),
    {
        self.bytes.len()
    }

    /// Moves past one byte.
    pub fn consume_byte(&mut self)
        requires
            old(self).at() < usize::MAX,
        ensures
            *final(self) == old(self).moved(old(self).at() + 1),
            final(self).input() == old(self).input(),
            final(self).at() == old(self).at() + 1,
    {
        self.pos += 1;
    }

    /// Moves past the current byte if it is `byte`, and says whether it did.
    pub fn consume_byte_if(&mut self, byte: u8) -> (r: bool)
        ensures
            r == (old(self).at() < old(self).input().len() && old(self).input()[old(self).at()]
                == byte),
            final(self).input() == old(self).input(),
            final(self).at() == old(self).at() + if r {
                1int
            } else {
                0int
            },
    {
        if self.pos < self.bytes.len() && self.bytes[self.pos] == byte {
            self.pos += 1;
            true
        } else {
            false
        }
    }

    /// Moves past `n` bytes.
    pub fn consume_n_bytes(&mut self, n: usize)
        requires
            old(self).at() + n <= usize::MAX,
        ensures
            final(self).input() == old(self).input(),
            final(self).at() == old(self).at() + n,
    {
        self.pos += n;
    }

    /// Whether the position is at or past the end of the input.
    pub fn is_eof(&self) -> (r: bool)
        ensures
            r == (self.at() >= self.input().len()),
    {
        self.pos >= self.bytes.len()
    }

    /// The byte at the current position.
    pub fn get_byte(&self) -> (b: u8)
        requires
            self.at() < self.input().len(),
        ensures
            b == self.input()[self.at()],
    {
        self.bytes[self.pos]
    }

    /// The next `bytes.len()` bytes of the input, if they are `bytes`.
    pub fn get_bytes_if(&self, bytes: &[u8]) -> (r: Option<&'a [u8]>)
        requires
            self.at() <= self.input().len(),
        ensures
            r is Some == occurs_at(self.input(), self.at(), bytes@),
            r matches Some(v) ==> v@ == bytes@ && v@ == self.input().subrange(
                self.at(),
                self.at() + bytes@.len(),
            ),
    {
        let total = self.bytes.len();
        if self.starts_with(bytes) {
            let all: &'a [u8] = self.bytes;
            let value = &all[self.pos..self.pos + bytes.len()];
            Some(value)
        } else {
            None
        }
    }

    /// The byte `n` places past the current one, if the input holds it.
    pub fn get_checked_nth_byte(&self, n: usize) -> (r: Option<&'a u8>)
        requires
            self.at() + n <= usize::MAX,
        ensures
            r is Some == (self.at() + n < self.input().len()),
            r matches Some(b) ==> *b == self.input()[self.at() + n],
    {
        if self.pos + n < self.bytes.len() {
            let all: &'a [u8] = self.bytes;
            Some(&all[self.pos + n])
        } else {
            None
        }
    }

    /// Whether the byte at the current position is `byte`.
    pub fn is_byte(&self, byte: u8) -> (r: bool)
        ensures
            r == (self.at() < self.input().len() && self.input()[self.at()] == byte),
    {
        self.pos < self.bytes.len() && self.bytes[self.pos] == byte
    }

    /// Whether the input continues with `bytes` at the current position.
    pub fn starts_with(&self, bytes: &[u8]) -> (r: bool)
        requires
            self.at() <= self.input().len(),
        ensures
            r == occurs_at(self.input(), self.at(), bytes@),
    {
        matches_at(self.bytes, self.pos, bytes)
    }

    /// Consumes the bytes before the first one for which `stop` holds, and
    /// returns them; when no byte stops the run, nothing moves and `None` comes
    /// back.
    pub fn consume_until<F: Fn(u8) -> bool>(&mut self, stop: F) -> (r: Option<&'a [u8]>)
        requires
            old(self).at() <= old(self).input().len(),
            forall|b: u8| stop.requires((b,)),
        ensures
            final(self).input() == old(self).input(),
            match r {
                Some(v) => {
                    &&& old(self).at() <= final(self).at() < old(self).input().len()
                    &&& v@ == old(self).input().subrange(old(self).at(), final(self).at())
                    &&& stop.ensures((old(self).input()[final(self).at()],), true)
                    &&& forall|k: int|
                        old(self).at() <= k < final(self).at() ==> stop.ensures(
                            (#[trigger] old(self).input()[k],),
                            false,
                        )
                },
                None => {
                    &&& final(self).at() == old(self).at()
                    &&& forall|k: int|
                        old(self).at() <= k < old(self).input().len() ==> stop.ensures(
                            (#[trigger] old(self).input()[k],),
                            false,
                        )
                },
            },
    {
        let start = self.pos;
        let mut i = start;
        while i < self.bytes.len()
            invariant
                start == old(self).at(),
                self.bytes@ == old(self).input(),
                self.pos == start,
                start <= i <= self.bytes@.len(),
                forall|b: u8| stop.requires((b,)),
                forall|k: int| start <= k < i ==> stop.ensures((#[trigger] self.bytes@[k],), false),
            decreases self.bytes@.len() - i,
        {
            if stop(self.bytes[i]) {
                self.pos = i;
                let all: &'a [u8] = self.bytes;
                return Some(&all[start..i]);
            }
            i += 1;
        }
        None
    }

    /// Consumes the bytes before the first occurrence of `delim` and returns
    /// them; when `delim` does not occur, nothing moves and `None` comes back.
    pub(crate) fn consume_until_sequence(&mut self, delim: &[u8]) -> (r: Option<&'a [u8]>)
        requires
            old(self).at() <= old(self).input().len(),
            delim@.len() > 0,
        ensures
            final(self).input() == old(self).input(),
            match r {
                Some(v) => {
                    &&& first_occurrence(old(self).input(), old(self).at(), final(self).at(), delim@)
                    &&& v@ == old(self).input().subrange(old(self).at(), final(self).at())
                },
                None => {
                    &&& final(self).at() == old(self).at()
                    &&& no_occurrence(old(self).input(), old(self).at(), delim@)
                },
            },
    {
        let start = self.pos;
        let mut i = start;
        while i < self.bytes.len()
            invariant
                start == old(self).at(),
                self.bytes@ == old(self).input(),
                self.pos == start,
                start <= i <= self.bytes@.len(),
                delim@.len() > 0,
                forall|j: int| start <= j < i ==> !occurs_at(self.bytes@, j, delim@),
            decreases self.bytes@.len() - i,
        {
            if matches_at(self.bytes, i, delim) {
                self.pos = i;
                let all: &'a [u8] = self.bytes;
                return Some(&all[start..i]);
            }
            i += 1;
        }
        assert forall|j: int| start <= j implies !occurs_at(self.bytes@, j, delim@) by {
            if j >= self.bytes@.len() {
            }
        }
        None
    }

    /// Moves past the spaces, tabs, line feeds and carriage returns at the
    /// current position.
    pub fn advance_past_whitespaces(&mut self)
        ensures
            final(self).input() == old(self).input(),
            old(self).at() <= old(self).input().len() ==> run_end(
                old(self).input(),
                old(self).at(),
                final(self).at(),
                |b: u8| !is_space(b),
            ),
            old(self).at() > old(self).input().len() ==> final(self).at() == old(self).at(),
    {
        let mut len = self.pos;
        while len < self.bytes.len() && is_space_byte(self.bytes[len])
            invariant
                self.bytes@ == old(self).input(),
                self.pos == old(self).at(),
                self.pos <= len,
                self.pos <= self.bytes@.len() ==> len <= self.bytes@.len(),
                self.pos > self.bytes@.len() ==> len == self.pos,
                forall|k: int| self.pos <= k < len ==> is_space(#[trigger] self.bytes@[k]),
            decreases self.bytes@.len() - len,
        {
            len += 1;
        }
        self.pos = len;
    }

    /// Consumes a tag name: the bytes before the first whitespace, `>`, `/` or
    /// `?`. When the input ends first, nothing moves and the error comes back.
    pub fn consume_tag_name(&mut self) -> (r: Result<&'a [u8], Error>)
        ensures
            final(self).input() == old(self).input(),
            match r {
                Ok(v) => {
                    &&& run_end(old(self).input(), old(self).at(), final(self).at(), |b| ends_tag_name(b))
                    &&& final(self).at() < old(self).input().len()
                    &&& v@ == old(self).input().subrange(old(self).at(), final(self).at())
                },
                Err(e) => {
                    &&& e == Error::UnexpectedEndOfFile
                    &&& final(self).at() == old(self).at()
                    &&& forall|k: int|
                        old(self).at() <= k < old(self).input().len() ==> !ends_tag_name(
                            #[trigger] old(self).input()[k],
                        )
                },
            },
    {
        let mut len = self.pos;
        while len < self.bytes.len() && !ends_tag_name_byte(self.bytes[len])
            invariant
                self.bytes@ == old(self).input(),
                self.pos == old(self).at(),
                self.pos <= len,
                self.pos <= self.bytes@.len() ==> len <= self.bytes@.len(),
                self.pos > self.bytes@.len() ==> len == self.pos,
                forall|k: int| self.pos <= k < len ==> !ends_tag_name(#[trigger] self.bytes@[k]),
            decreases self.bytes@.len() - len,
        {
            len += 1;
        }
        if len >= self.bytes.len() {
            return Err(Error::UnexpectedEndOfFile);
        }
        let all: &'a [u8] = self.bytes;
        let name = &all[self.pos..len];
        self.pos = len;
        Ok(name)
    }

    /// Consumes an attribute name: the bytes before the first ASCII
    /// whitespace, `=`, `>`, `/` or `?`.
    pub fn consume_attribute_name(&mut self) -> (r: Result<&'a [u8], Error>)
        requires
            old(self).at() <= old(self).input().len(),
        ensures
            final(self).input() == old(self).input(),
            match r {
                Ok(v) => {
                    &&& run_end(old(self).input(), old(self).at(), final(self).at(), |b| ends_attribute_name(b))
                    &&& final(self).at() < old(self).input().len()
                    &&& v@ == old(self).input().subrange(old(self).at(), final(self).at())
                },
                Err(e) => {
                    &&& e == Error::UnexpectedEndOfFile
                    &&& final(self).at() == old(self).at()
                    &&& forall|k: int|
                        old(self).at() <= k < old(self).input().len() ==> !ends_attribute_name(
                            #[trigger] old(self).input()[k],
                        )
                },
            },
    {
        let stop = |b: u8| -> (r: bool)
            ensures
                r == ends_attribute_name(b),
            {
                b == SPACE || b == TAB || b == LF || b == FF || b == CR || b == EQUALS
                    || b == GT || b == SLASH || b == QUESTION
            };
        if let Some(value) = self.consume_until(stop) {
            Ok(value)
        } else {
            Err(Error::UnexpectedEndOfFile)
        }
    }

    /// Consumes a quoted attribute value: the bytes before the closing
    /// `quote_char`, which is left in place.
    pub fn consume_quoted_attribute_value(&mut self, quote_char: u8) -> (r: Result<&'a [u8], Error>)
        requires
            old(self).at() <= old(self).input().len(),
        ensures
            final(self).input() == old(self).input(),
            match r {
                Ok(v) => {
                    &&& byte_run_end(old(self).input(), old(self).at(), final(self).at(), quote_char)
                    &&& final(self).at() < old(self).input().len()
                    &&& v@ == old(self).input().subrange(old(self).at(), final(self).at())
                },
                Err(e) => {
                    &&& e == Error::UnexpectedEndOfFile
                    &&& final(self).at() == old(self).at()
                    &&& forall|k: int|
                        old(self).at() <= k < old(self).input().len() ==> #[trigger] old(
                            self,
                        ).input()[k] != quote_char
                },
            },
    {
        let stop = |b: u8| -> (r: bool)
            ensures
                r == (b == quote_char),
            { b == quote_char };
        if let Some(value) = self.consume_until(stop) {
            Ok(value)
        } else {
            Err(Error::UnexpectedEndOfFile)
        }
    }

    /// Consumes an unquoted attribute value: the bytes before the first ASCII
    /// whitespace, `>` or `/`.
    pub fn consume_unquoted_attribute_value(&mut self) -> (r: Result<&'a [u8], Error>)
        requires
            old(self).at() <= old(self).input().len(),
        ensures
            final(self).input() == old(self).input(),
            match r {
                Ok(v) => {
                    &&& run_end(old(self).input(), old(self).at(), final(self).at(), |b| ends_unquoted_value(b))
                    &&& final(self).at() < old(self).input().len()
                    &&& v@ == old(self).input().subrange(old(self).at(), final(self).at())
                },
                Err(e) => {
                    &&& e == Error::UnexpectedEndOfFile
                    &&& final(self).at() == old(self).at()
                    &&& forall|k: int|
                        old(self).at() <= k < old(self).input().len() ==> !ends_unquoted_value(
                            #[trigger] old(self).input()[k],
                        )
                },
            },
    {
        let stop = |b: u8| -> (r: bool)
            ensures
                r == ends_unquoted_value(b),
            { b == SPACE || b == TAB || b == LF || b == FF || b == CR || b == GT || b == SLASH };
        if let Some(value) = self.consume_until(stop) {
            Ok(value)
        } else {
            Err(Error::UnexpectedEndOfFile)
        }
    }

    /// Consumes text: the bytes before the next `<`, or up to the end.
    pub fn consume_text(&mut self) -> (r: &'a [u8])
        requires
            old(self).at() <= old(self).input().len(),
        ensures
            final(self).input() == old(self).input(),
            byte_run_end(old(self).input(), old(self).at(), final(self).at(), LT),
            r@ == old(self).input().subrange(old(self).at(), final(self).at()),
    {
        let mut len = self.pos;
        while len < self.bytes.len() && self.bytes[len] != LT
            invariant
                self.bytes@ == old(self).input(),
                self.pos == old(self).at(),
                self.pos <= len <= self.bytes@.len(),
                forall|k: int| self.pos <= k < len ==> #[trigger] self.bytes@[k] != 0x3c,
            decreases self.bytes@.len() - len,
        {
            len += 1;
        }
        let all: &'a [u8] = self.bytes;
        let text = &all[self.pos..len];
        self.pos = len;
        text
    }

    /// Consumes a comment body up to `-->`, consumes the `-->` as well, and
    /// returns the body.
    pub fn consume_comment(&mut self) -> (r: Result<&'a [u8], Error>)
        requires
            old(self).at() <= old(self).input().len(),
        ensures
            final(self).input() == old(self).input(),
            match r {
                Ok(v) => {
                    &&& first_occurrence(old(self).input(), old(self).at(), final(self).at() - 3, comment_end())
                    &&& v@ == old(self).input().subrange(old(self).at(), final(self).at() - 3)
                },
                Err(e) => {
                    &&& e == Error::UnexpectedEndOfFile
                    &&& final(self).at() == old(self).at()
                    &&& no_occurrence(old(self).input(), old(self).at(), comment_end())
                },
            },
    {
        let delim: [u8; 3] = [DASH, DASH, GT];
        proof {
            assert(delim@ =~= comment_end());
        }
        let total = self.bytes.len();
        if let Some(value) = self.consume_until_sequence(delim.as_slice()) {
            self.pos += 3;
            Ok(value)
        } else {
            Err(Error::UnexpectedEndOfFile)
        }
    }

    /// Consumes a CDATA body up to `]]>`, consumes the `]]>` as well, and
    /// returns the body.
    pub fn consume_cdata(&mut self) -> (r: Result<&'a [u8], Error>)
        requires
            old(self).at() <= old(self).input().len(),
        ensures
            final(self).input() == old(self).input(),
            match r {
                Ok(v) => {
                    &&& first_occurrence(old(self).input(), old(self).at(), final(self).at() - 3, cdata_end())
                    &&& v@ == old(self).input().subrange(old(self).at(), final(self).at() - 3)
                },
                Err(e) => {
                    &&& e == Error::UnexpectedEndOfFile
                    &&& final(self).at() == old(self).at()
                    &&& no_occurrence(old(self).input(), old(self).at(), cdata_end())
                },
            },
    {
        let delim: [u8; 3] = [RBRACKET, RBRACKET, GT];
        proof {
            assert(delim@ =~= cdata_end());
        }
        let total = self.bytes.len();
        if let Some(value) = self.consume_until_sequence(delim.as_slice()) {
            self.pos += 3;
            Ok(value)
        } else {
            Err(Error::UnexpectedEndOfFile)
        }
    }
}

/// The bytes `-->`.
pub open spec fn comment_end() -> Seq<u8> {
    seq![0x2du8, 0x2du8, 0x3eu8]
}

/// The bytes `]]>`.
pub open spec fn cdata_end() -> Seq<u8> {
    seq![0x5du8, 0x5du8, 0x3eu8]
}

} // verus!
