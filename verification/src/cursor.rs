//! A cursor over the characters of a `&str`: it reads one character at a
//! time and hands out the text between two of its positions as a slice of
//! the input. A position is a count of characters; the cursor keeps the
//! byte offset that goes with it.
use vstd::prelude::*;
use vstd::utf8::{
    encode_utf8, encode_scalar, encode_utf8_first_scalar, encode_utf8_decode_utf8, decode_utf8,
    pop_first_scalar, length_of_first_scalar, char_is_scalar, has_width_1_encoding,
    has_width_2_encoding, has_width_3_encoding, has_width_4_encoding,
};
use vstd::utf8::is_char_boundary;
use vstd::std_specs::iter::IteratorSpec;

verus! {

/// The number of bytes the first `i` characters of `s` take in UTF-8.
pub open spec fn byte_offset(s: Seq<char>, i: int) -> int {
    encode_utf8(s.take(i)).len() as int
}

/// Encoding a concatenation concatenates the encodings.
pub proof fn lemma_encode_concat(x: Seq<char>, y: Seq<char>)
    ensures
        encode_utf8(x + y) == encode_utf8(x) + encode_utf8(y),
    decreases x.len(),
{
    if x.len() == 0 {
        assert(x + y =~= y);
        assert(encode_utf8(x) + encode_utf8(y) =~= encode_utf8(y));
    } else {
        assert((x + y).drop_first() =~= x.drop_first() + y);
        lemma_encode_concat(x.drop_first(), y);
        assert((x + y)[0] == x[0]);
        assert(encode_utf8(x + y) =~= encode_scalar(x[0] as u32) + (encode_utf8(x.drop_first())
            + encode_utf8(y)));
    }
}

/// The end of the encoding of a prefix is a character boundary of the whole.
pub proof fn lemma_prefix_boundary(x: Seq<char>, y: Seq<char>)
    ensures
        is_char_boundary(encode_utf8(x + y), encode_utf8(x).len() as int),
    decreases x.len(),
{
    vstd::utf8::encode_utf8_valid_utf8(x + y);
    if x.len() > 0 {
        let b = encode_utf8(x + y);
        assert((x + y).drop_first() =~= x.drop_first() + y);
        assert((x + y)[0] == x[0]);
        encode_utf8_first_scalar(x + y);
        lemma_encode_concat(x.drop_first(), y);
        assert(pop_first_scalar(b) =~= encode_utf8(x.drop_first() + y));
        lemma_prefix_boundary(x.drop_first(), y);
        vstd::utf8::encode_utf8_valid_utf8(x.drop_first() + y);
        char_is_scalar(x[0]);
        assert(encode_utf8(x).len() == encode_scalar(x[0] as u32).len() + encode_utf8(x.drop_first()).len());
        lemma_scalar_width_positive(x[0]);
    }
}

/// Every character takes at least one byte.
pub proof fn lemma_scalar_width_positive(c: char)
    ensures
        1 <= encode_scalar(c as u32).len() <= 4,
{
}

/// The encoding of `s` splits at the offset of any of its positions.
pub proof fn lemma_offset_split(s: Seq<char>, i: int)
    requires
        0 <= i <= s.len(),
    ensures
        encode_utf8(s) == encode_utf8(s.take(i)) + encode_utf8(s.skip(i)),
        is_char_boundary(encode_utf8(s), byte_offset(s, i)),
        0 <= byte_offset(s, i) <= encode_utf8(s).len(),
{
    assert(s =~= s.take(i) + s.skip(i));
    lemma_encode_concat(s.take(i), s.skip(i));
    lemma_prefix_boundary(s.take(i), s.skip(i));
}

/// The offset of the next position is the offset of this one plus the width
/// of the character between them.
pub proof fn lemma_offset_next(s: Seq<char>, i: int)
    requires
        0 <= i < s.len(),
    ensures
        byte_offset(s, i + 1) == byte_offset(s, i) + encode_scalar(s[i] as u32).len(),
{
    assert(s.take(i + 1) =~= s.take(i) + seq![s[i]]);
    lemma_encode_concat(s.take(i), seq![s[i]]);
    let t = seq![s[i]];
    assert(t[0] == s[i]);
    assert(t.drop_first() =~= Seq::<char>::empty());
    assert(encode_utf8(t.drop_first()) =~= Seq::<u8>::empty());
    assert(encode_utf8(t) =~= encode_scalar(s[i] as u32));
}

/// Offsets grow with positions.
pub proof fn lemma_offset_monotonic(s: Seq<char>, i: int, j: int)
    requires
        0 <= i <= j <= s.len(),
    ensures
        byte_offset(s, i) <= byte_offset(s, j),
        byte_offset(s, j) - byte_offset(s, i) >= j - i,
    decreases j - i,
{
    if i < j {
        lemma_offset_monotonic(s, i, j - 1);
        lemma_offset_next(s, j - 1);
        lemma_scalar_width_positive(s[j - 1]);
    }
}

/// A string whose UTF-8 encoding is that of `chars` holds `chars`.
pub proof fn lemma_same_encoding(t: Seq<char>, chars: Seq<char>)
    requires
        encode_utf8(t) == encode_utf8(chars),
    ensures
        t == chars,
{
    encode_utf8_decode_utf8(t);
    encode_utf8_decode_utf8(chars);
}

/// The last byte of a character's encoding is below `0x80` exactly when the
/// character is.
pub proof fn lemma_last_byte(c: char)
    ensures
        encode_scalar(c as u32).len() >= 1,
        (encode_scalar(c as u32).last() < 0x80) == ((c as u32) < 0x80),
        (c as u32) < 0x80 ==> encode_scalar(c as u32) == seq![c as u32 as u8],
{
    char_is_scalar(c);
    let v = c as u32;
    if has_width_1_encoding(v) {
        assert((v & 0x7F) as u8 == v as u8) by (bit_vector)
            requires
                v <= 0x7F,
        ;
        assert((v as u8) < 0x80) by (bit_vector)
            requires
                v <= 0x7F,
        ;
    } else {
        assert(0x80u8 | ((v & 0x3F) as u8) >= 0x80) by (bit_vector);
    }
}

/// The first byte of a character's encoding is below `0x80` exactly when the
/// character is.
pub proof fn lemma_first_byte(c: char)
    ensures
        encode_scalar(c as u32).len() >= 1,
        (encode_scalar(c as u32)[0] < 0x80) == ((c as u32) < 0x80),
{
    char_is_scalar(c);
    let v = c as u32;
    lemma_last_byte(c);
    if has_width_2_encoding(v) {
        assert(0xC0u8 | (((v >> 6) & 0x1F) as u8) >= 0x80) by (bit_vector);
    } else if has_width_3_encoding(v) {
        assert(0xE0u8 | (((v >> 12) & 0x0F) as u8) >= 0x80) by (bit_vector);
    } else if has_width_4_encoding(v) {
        assert(0xF0u8 | (((v >> 18) & 0x7) as u8) >= 0x80) by (bit_vector);
    }
}

/// When the first `n` bytes of the encoding of `t` are all below `0x80`, the
/// first `n` characters of `t` are those bytes.
pub proof fn lemma_ascii_prefix(t: Seq<char>, n: int)
    requires
        0 <= n <= encode_utf8(t).len(),
        forall|k: int| 0 <= k < n ==> encode_utf8(t)[k] < 0x80,
    ensures
        n <= t.len(),
        forall|k: int| 0 <= k < n ==> (t[k] as u32) == encode_utf8(t)[k] as u32,
        encode_utf8(t.take(n)) == encode_utf8(t).take(n),
    decreases n,
{
    if n == 0 {
        assert(t.take(0) =~= Seq::<char>::empty());
        assert(encode_utf8(t).take(0) =~= Seq::<u8>::empty());
    } else {
        let c = t[0];
        let rest = t.drop_first();
        lemma_first_byte(c);
        lemma_last_byte(c);
        assert(encode_utf8(t) == encode_scalar(c as u32) + encode_utf8(rest));
        assert(encode_utf8(t)[0] == encode_scalar(c as u32)[0]);
        assert(encode_scalar(c as u32) == seq![c as u32 as u8]);
        assert forall|k: int| 0 <= k < n - 1 implies encode_utf8(rest)[k] < 0x80 by {
            assert(encode_utf8(t)[k + 1] == encode_utf8(rest)[k]);
        }
        lemma_ascii_prefix(rest, n - 1);
        assert forall|k: int| 0 <= k < n implies (t[k] as u32) == encode_utf8(t)[k] as u32 by {
            if k > 0 {
                assert(t[k] == rest[k - 1]);
                assert(encode_utf8(t)[k] == encode_utf8(rest)[k - 1]);
            }
        }
        assert(t.take(n) =~= seq![c] + rest.take(n - 1));
        lemma_encode_concat(seq![c], rest.take(n - 1));
        assert(seq![c].drop_first() =~= Seq::<char>::empty());
        assert(encode_utf8(seq![c].drop_first()) =~= Seq::<u8>::empty());
        assert(encode_utf8(seq![c]) =~= encode_scalar(c as u32));
        assert(encode_utf8(t.take(n)) =~= encode_utf8(t).take(n));
    }
}

/// The number of bytes `c` takes in UTF-8.
pub fn char_width(c: char) -> (n: usize)
    ensures
        n == encode_scalar(c as u32).len(),
{
    proof {
        char_is_scalar(c);
    }
    let v = c as u32;
    if v < 0x80 {
        1
    } else if v < 0x800 {
        2
    } else if v < 0x10000 {
        3
    } else {
        4
    }
}

/// A cursor over `input`: `pos` is the byte offset of character position
/// `idx`, and `bytes` holds the input's bytes.
#[derive(Clone, Copy)]
pub struct StrCursor<'a> {
    input: &'a str,
    bytes: &'a [u8],
    pos: usize,
    idx: Ghost<int>,
}

impl<'a> StrCursor<'a> {
    /// The characters of the input.
    pub closed spec fn input(&self) -> Seq<char> {
        self.input@
    }

    /// The input string.
    pub closed spec fn text(&self) -> &'a str {
        self.input
    }

    /// The current position, counted in characters.
    pub closed spec fn at(&self) -> int {
        self.idx@
    }

    /// The byte offset of the current position.
    pub closed spec fn byte_at(&self) -> int {
        self.pos as int
    }

    /// The position lies inside the input or at its end, and the byte offset
    /// is the one that goes with it.
    pub closed spec fn wf(&self) -> bool {
        &&& 0 <= self.idx@ <= self.input@.len()
        &&& self.pos == byte_offset(self.input@, self.idx@)
        &&& self.bytes@ == encode_utf8(self.input@)
    }

    /// A cursor stands inside its input or at its end.
    pub proof fn lemma_wf(&self)
        requires
            self.wf(),
        ensures
            0 <= self.at() <= self.input().len(),
            self.input() == self.text()@,
            self.byte_at() == byte_offset(self.input(), self.at()),
            self.input().len() <= usize::MAX,
    {
        lemma_offset_split(self.input@, self.input@.len() as int);
        assert(self.input@.take(self.input@.len() as int) =~= self.input@);
        assert(self.bytes.len() == self.bytes@.len());
        lemma_offset_monotonic(self.input@, 0, self.input@.len() as int);
    }

    /// The cursor at the start of `s`.
    pub closed spec fn fresh(s: &'a str) -> Self {
        StrCursor {
            input: s,
            bytes: choose|b: &'a [u8]| b@ == encode_utf8(s@),
            pos: 0,
            idx: Ghost(0),
        }
    }

    /// The cursor at the start of `s`.
    pub fn new(s: &'a str) -> (c: Self)
        ensures
            c == Self::fresh(s),
            c.wf(),
            c.input() == s@,
            c.text() == s,
            c.at() == 0,
    {
        let bytes = s.as_bytes();
        proof {
            assert(s@.take(0) =~= Seq::<char>::empty());
            let b = choose|b: &'a [u8]| b@ == encode_utf8(s@);
            assert(b@ == encode_utf8(s@));
            assert(b =~= bytes);
        }
        StrCursor { input: s, bytes, pos: 0, idx: Ghost(0) }
    }

    /// The characters from the current position on.
    pub fn rest(&self) -> (r: &'a str)
        requires
            self.wf(),
        ensures
            r@ == self.input().skip(self.at()),
    {
        proof {
            lemma_offset_split(self.input@, self.idx@);
        }
        let (_, r) = self.input.split_at(self.pos);
        proof {
            let b = encode_utf8(self.input@);
            assert(b.subrange(self.pos as int, b.len() as int) =~= encode_utf8(self.input@.skip(self.idx@)));
            lemma_same_encoding(r@, self.input@.skip(self.idx@));
        }
        r
    }

    /// The character at the current position, if any.
    pub fn peek(&self) -> (r: Option<char>)
        requires
            self.wf(),
        ensures
            self.at() < self.input().len() ==> r == Some(self.input()[self.at()]),
            self.at() >= self.input().len() ==> r is None,
    {
        let rest = self.rest();
        let mut chars = rest.chars();
        let r = chars.next();
        proof {
            if self.idx@ < self.input@.len() {
                assert(rest@[0] == self.input@[self.idx@]);
            } else {
                assert(rest@.len() == 0);
            }
        }
        r
    }

    /// Moves past the character at the current position and returns it;
    /// `None`, and no move, at the end of the input.
    pub fn consume(&mut self) -> (r: Option<char>)
        requires
            old(self).wf(),
        ensures
            final(self).wf(),
            final(self).input() == old(self).input(),
            final(self).text() == old(self).text(),
            old(self).at() < old(self).input().len() ==> r == Some(old(self).input()[old(self).at()])
                && final(self).at() == old(self).at() + 1,
            old(self).at() >= old(self).input().len() ==> r is None && final(self).at() == old(self).at(),
    {
        match self.peek() {
            None => None,
            Some(c) => {
                proof {
                    lemma_offset_next(self.input@, self.idx@);
                    lemma_offset_split(self.input@, self.idx@ + 1);
                    assert(self.bytes.len() == self.bytes@.len());
                }
                let w = char_width(c);
                self.pos = self.pos + w;
                self.idx = Ghost(self.idx@ + 1);
                Some(c)
            },
        }
    }

    /// Whether the current position lies after that of `other`, a cursor
    /// over the same input.
    pub fn is_after(&self, other: &Self) -> (r: bool)
        requires
            self.wf(),
            other.wf(),
            self.text() == other.text(),
        ensures
            r == (self.at() > other.at()),
    {
        proof {
            if self.idx@ <= other.idx@ {
                lemma_offset_monotonic(self.input@, self.idx@, other.idx@);
            } else {
                lemma_offset_monotonic(self.input@, other.idx@, self.idx@);
            }
        }
        self.pos > other.pos
    }

    /// Whether there is a character before the current position and it is
    /// an ASCII one.
    pub fn before_is_ascii(&self) -> (r: bool)
        requires
            self.wf(),
        ensures
            r == (self.at() > 0 && (self.input()[self.at() - 1] as u32) < 0x80),
    {
        if self.pos == 0 {
            proof {
                if self.idx@ > 0 {
                    lemma_offset_monotonic(self.input@, 0, self.idx@);
                }
            }
            return false;
        }
        proof {
            let s = self.input@;
            let i = self.idx@;
            if i == 0 {
                assert(s.take(0) =~= Seq::<char>::empty());
            }
            assert(i > 0);
            lemma_offset_split(s, i - 1);
            lemma_offset_next(s, i - 1);
            lemma_last_byte(s[i - 1]);
            let t = s.skip(i - 1);
            assert(t[0] == s[i - 1]);
            assert(t.drop_first() =~= s.skip(i));
            assert(encode_utf8(t) == encode_scalar(s[i - 1] as u32) + encode_utf8(s.skip(i)));
            let w = encode_scalar(s[i - 1] as u32).len() as int;
            assert(self.bytes@[self.pos - 1] == encode_utf8(t)[w - 1]);
            assert(self.bytes.len() == self.bytes@.len());
        }
        self.bytes[self.pos - 1] < 0x80
    }

    /// The cursor one position back, over an ASCII character.
    pub fn back_one(&self) -> (c: Self)
        requires
            self.wf(),
            self.at() > 0,
            (self.input()[self.at() - 1] as u32) < 0x80,
        ensures
            c.wf(),
            c.text() == self.text(),
            c.input() == self.input(),
            c.at() == self.at() - 1,
    {
        proof {
            lemma_offset_next(self.input@, self.idx@ - 1);
            lemma_last_byte(self.input@[self.idx@ - 1]);
        }
        StrCursor { input: self.input, bytes: self.bytes, pos: self.pos - 1, idx: Ghost(self.idx@ - 1) }
    }

    /// The byte offset of the current position.
    pub fn byte_pos(&self) -> (r: usize)
        requires
            self.wf(),
        ensures
            r == self.byte_at(),
    {
        self.pos
    }

    /// The bytes of the input from the current position on.
    pub fn rest_bytes(&self) -> (b: &'a [u8])
        requires
            self.wf(),
        ensures
            b@ == encode_utf8(self.input().skip(self.at())),
    {
        proof {
            lemma_offset_split(self.input@, self.idx@);
            let e = encode_utf8(self.input@);
            assert(e.subrange(self.pos as int, e.len() as int) =~= encode_utf8(self.input@.skip(self.idx@)));
            assert(self.bytes.len() == self.bytes@.len());
        }
        let (_, r) = self.bytes.split_at(self.pos);
        r
    }

    /// Whether the input ends at the current position.
    pub fn is_end(&self) -> (r: bool)
        requires
            self.wf(),
        ensures
            r == (self.at() >= self.input().len()),
    {
        self.peek().is_none()
    }

    /// Whether the characters from the current position on begin with `pat`.
    pub fn looking_at(&self, pat: &[char]) -> (r: bool)
        requires
            self.wf(),
        ensures
            r == (self.at() + pat@.len() <= self.input().len() && self.input().subrange(
                self.at(),
                self.at() + pat@.len(),
            ) == pat@),
    {
        let mut c = *self;
        let mut k: usize = 0;
        proof {
            self.lemma_wf();
        }
        while k < pat.len()
            invariant
                c.wf(),
                0 <= self.at(),
                c.input() == self.input(),
                c.at() == self.at() + k,
                k <= pat.len(),
                self.at() + k <= self.input().len(),
                forall|j: int| 0 <= j < k ==> self.input()[self.at() + j] == pat@[j],
            decreases pat.len() - k,
        {
            let ghost at0 = c.at();
            match c.consume() {
                Some(x) => {
                    assert(x == self.input()[self.at() + k]);
                    if x != pat[k] {
                        proof {
                            if self.at() + pat@.len() <= self.input().len() {
                                assert(self.input().subrange(self.at(), self.at() + pat@.len())[k as int]
                                    != pat@[k as int]);
                            }
                        }
                        return false;
                    }
                },
                None => {
                    return false;
                },
            }
            k += 1;
        }
        proof {
            assert(self.input().subrange(self.at(), self.at() + pat@.len()) =~= pat@);
        }
        true
    }

    /// The text from position `from.at()` to the current position, as a
    /// slice of the input.
    pub fn slice_from(&self, from: &Self) -> (r: &'a str)
        requires
            self.wf(),
            from.wf(),
            from.text() == self.text(),
            from.at() <= self.at(),
        ensures
            r@ == self.input().subrange(from.at(), self.at()),
    {
        let ghost s = self.input@;
        proof {
            lemma_offset_split(s, from.idx@);
            lemma_offset_split(s, self.idx@);
            lemma_offset_monotonic(s, from.idx@, self.idx@);
        }
        let (_, tail) = self.input.split_at(from.pos);
        proof {
            let b = encode_utf8(s);
            assert(b.subrange(from.pos as int, b.len() as int) =~= encode_utf8(s.skip(from.idx@)));
            lemma_same_encoding(tail@, s.skip(from.idx@));
            let k = self.idx@ - from.idx@;
            let t = s.skip(from.idx@);
            assert(t =~= t.take(k) + t.skip(k));
            assert(t.take(k) =~= s.subrange(from.idx@, self.idx@));
            assert(s.take(self.idx@) =~= s.take(from.idx@) + t.take(k));
            lemma_encode_concat(s.take(from.idx@), t.take(k));
            lemma_offset_split(t, k);
        }
        let (r, _) = tail.split_at(self.pos - from.pos);
        proof {
            let t = s.skip(from.idx@);
            let k = self.idx@ - from.idx@;
            let bt = encode_utf8(t);
            assert(bt.subrange(0, (self.pos - from.pos) as int) =~= encode_utf8(t.take(k)));
            lemma_same_encoding(r@, t.take(k));
            assert(t.take(k) =~= s.subrange(from.idx@, self.idx@));
        }
        r
    }
}

/// Whether `t` holds exactly the characters of `pat`.
pub fn str_is(t: &str, pat: &[char]) -> (r: bool)
    ensures
        r == (t@ == pat@),
{
    let c = StrCursor::new(t);
    proof {
        c.lemma_wf();
    }
    proof {
        if t@ == pat@ {
            assert(t@.subrange(0, pat@.len() as int) =~= t@);
        }
    }
    if !c.looking_at(pat) {
        return false;
    }
    let mut d = c;
    let mut k: usize = 0;
    while k < pat.len()
        invariant
            d.wf(),
            d.input() == t@,
            d.at() == k,
            k <= pat.len(),
            pat@.len() <= t@.len(),
        decreases pat.len() - k,
    {
        d.consume();
        k += 1;
    }
    let end = d.is_end();
    proof {
        if end {
            assert(t@ =~= t@.subrange(0, pat@.len() as int));
        }
    }
    end
}

} // verus!
