//! Decoding byte slices as UTF-8 text.
use vstd::prelude::*;
use vstd::std_specs::iter::IteratorSpec;
use vstd::string::StringSliceAdditionalSpecFns;
use vstd::utf8::{valid_utf8, decode_utf8, encode_utf8_decode_utf8, encode_utf8_valid_utf8};

verus! {

/// The error `std::str::from_utf8` reports for bytes that are not UTF-8.
#[verifier::external_type_specification]
#[verifier::external_body]
pub struct ExUtf8Error(std::str::Utf8Error);

/// Calls `std::str::from_utf8`. As its documentation says, the call succeeds
/// exactly when the bytes are valid UTF-8, and the text it returns is made of
/// those very bytes. What the error value holds (where decoding failed) is not
/// stated.
#[verifier::external_body]
fn str_from_utf8<'a>(bytes: &'a [u8]) -> (r: Result<&'a str, std::str::Utf8Error>)
    ensures
        r is Ok <==> valid_utf8(bytes@),
        r matches Ok(s) ==> s.spec_bytes() == bytes@,
{
    std::str::from_utf8(bytes)
}

/// The text that `b` decodes to, if it is valid UTF-8.
pub open spec fn decode(b: Seq<u8>) -> Option<Seq<char>> {
    if valid_utf8(b) {
        Some(decode_utf8(b))
    } else {
        None
    }
}

/// Decodes `bytes` as UTF-8 text that borrows from them.
pub fn decode_str<'a>(bytes: &'a [u8]) -> (r: Result<&'a str, std::str::Utf8Error>)
    ensures
        r is Ok <==> decode(bytes@) is Some,
        r matches Ok(s) ==> decode(bytes@) == Some(s@),
{
    let r = str_from_utf8(bytes);
    proof {
        if let Ok(s) = r {
            encode_utf8_decode_utf8(s@);
        }
    }
    r
}

/// The text `String::from_utf8_lossy` makes of `bytes`: every invalid
/// sequence replaced by U+FFFD.
pub uninterp spec fn utf8_lossy(bytes: Seq<u8>) -> Seq<char>;

/// Calls `String::from_utf8_lossy` and takes the text as an owned `String`.
/// The result is named `utf8_lossy` of the bytes; as the documentation says,
/// bytes that are valid UTF-8 come back as the very text they encode.
#[verifier::external_body]
pub(crate) fn lossy_string(bytes: &[u8]) -> (r: String)
    ensures
        r@ == utf8_lossy(bytes@),
        valid_utf8(bytes@) ==> r@ == decode_utf8(bytes@),
{
    String::from_utf8_lossy(bytes).into_owned()
}

/// The text `{:?}` prints for a string: quoted, with special characters
/// escaped.
pub uninterp spec fn debug_text(s: Seq<char>) -> Seq<char>;

/// Formats a string with `{:?}`; the result is named `debug_text` of it.
#[verifier::external_body]
pub(crate) fn debug_string(s: &str) -> (r: String)
    ensures
        r@ == debug_text(s@),
{
    format!("{:?}", s)
}

/// Formats a UTF-8 decoding error with `{}`. The text (which names the
/// position where decoding failed) is not stated: the error value is opaque.
#[verifier::external_body]
pub(crate) fn utf8_error_string(e: &std::str::Utf8Error) -> (r: String)
{
    format!("{}", e)
}

/// Whether `v` is a Unicode scalar value: at most U+10FFFF and no surrogate.
pub open spec fn is_scalar(v: u32) -> bool {
    v <= 0x10FFFF && !(0xD800 <= v && v <= 0xDFFF)
}

/// Calls `char::from_u32`, which gives the character of a Unicode scalar
/// value and `None` for any other number.
#[verifier::external_body]
pub(crate) fn char_from_u32(v: u32) -> (r: Option<char>)
    ensures
        r == (if is_scalar(v) { Some(v as char) } else { None }),
{
    char::from_u32(v)
}

/// Calls `String::push`, which appends one character.
#[verifier::external_body]
pub(crate) fn push_char(s: &mut String, c: char)
    ensures
        final(s)@ == old(s)@.push(c),
{
    s.push(c);
}

/// The character of decimal digit `d` (below ten).
pub open spec fn digit(d: int) -> char {
    if d == 0 {
        '0'
    } else if d == 1 {
        '1'
    } else if d == 2 {
        '2'
    } else if d == 3 {
        '3'
    } else if d == 4 {
        '4'
    } else if d == 5 {
        '5'
    } else if d == 6 {
        '6'
    } else if d == 7 {
        '7'
    } else if d == 8 {
        '8'
    } else {
        '9'
    }
}

/// The decimal digits of `n`, without leading zeros (`0` for zero).
pub open spec fn decimal(n: nat) -> Seq<char>
    decreases n,
{
    if n < 10 {
        seq![digit(n as int)]
    } else {
        decimal(n / 10).push(digit((n % 10) as int))
    }
}

/// The character of decimal digit `d`.
fn digit_char(d: usize) -> (c: char)
    requires
        d < 10,
    ensures
        c == digit(d as int),
{
    match d {
        0 => '0',
        1 => '1',
        2 => '2',
        3 => '3',
        4 => '4',
        5 => '5',
        6 => '6',
        7 => '7',
        8 => '8',
        _ => '9',
    }
}

/// Appends the decimal digits of `n`.
pub fn push_decimal(s: &mut String, n: usize)
    ensures
        final(s)@ == old(s)@ + decimal(n as nat),
    decreases n,
{
    if n < 10 {
        push_char(s, digit_char(n));
        proof {
            assert(old(s)@.push(digit(n as int)) =~= old(s)@ + seq![digit(n as int)]);
        }
    } else {
        push_decimal(s, n / 10);
        push_char(s, digit_char(n % 10));
        proof {
            assert(old(s)@ + decimal((n / 10) as nat).push(digit((n % 10) as int)) =~= (old(s)@
                + decimal((n / 10) as nat)).push(digit((n % 10) as int)));
        }
    }
}

/// The decimal digits of `n`.
pub fn decimal_string(n: usize) -> (s: String)
    ensures
        s@ == decimal(n as nat),
{
    let mut s = String::new();
    push_decimal(&mut s, n);
    proof {
        assert(Seq::<char>::empty() + decimal(n as nat) =~= decimal(n as nat));
    }
    s
}

/// A line without the carriage return that ended it, if one did.
pub open spec fn strip_cr(line: Seq<char>) -> Seq<char> {
    if line.len() > 0 && line.last() == '\r' {
        line.drop_last()
    } else {
        line
    }
}

/// The lines ended so far in `s`, and the characters after the last line
/// feed.
pub open spec fn line_split(s: Seq<char>) -> (Seq<Seq<char>>, Seq<char>)
    decreases s.len(),
{
    if s.len() == 0 {
        (Seq::empty(), Seq::empty())
    } else {
        let (done, cur) = line_split(s.drop_last());
        if s.last() == '\n' {
            (done.push(strip_cr(cur)), Seq::empty())
        } else {
            (done, cur.push(s.last()))
        }
    }
}

/// The lines of `s` as `str::lines` splits them: at each line feed, with a
/// carriage return just before it dropped; a last line without a line feed
/// counts when it is not empty.
pub open spec fn text_lines(s: Seq<char>) -> Seq<Seq<char>> {
    let (done, cur) = line_split(s);
    if cur.len() > 0 {
        done.push(cur)
    } else {
        done
    }
}

/// The characters of `v` as a string.
fn string_of(v: &Vec<char>) -> (s: String)
    ensures
        s@ == v@,
{
    let mut s = String::new();
    let mut i: usize = 0;
    while i < v.len()
        invariant
            i <= v@.len(),
            s@ == v@.take(i as int),
        decreases v@.len() - i,
    {
        push_char(&mut s, v[i]);
        i += 1;
        proof {
            assert(s@ =~= v@.take(i as int));
        }
    }
    proof {
        assert(v@.take(i as int) =~= v@);
    }
    s
}

/// The lines of `s` (see `text_lines`).
pub fn split_lines(s: &str) -> (r: Vec<String>)
    ensures
        r@.map_values(|l: String| l@) == text_lines(s@),
{
    let mut out: Vec<String> = Vec::new();
    let mut cur: Vec<char> = Vec::new();
    let ghost mut i: int = 0;
    let mut chars = s.chars();
    proof {
        assert(s@.take(0) =~= Seq::<char>::empty());
        assert(out@.map_values(|l: String| l@) =~= Seq::<Seq<char>>::empty());
    }
    loop
        invariant
            0 <= i <= s@.len(),
            chars.remaining() == s@.skip(i),
            (out@.map_values(|l: String| l@), cur@) == line_split(s@.take(i)),
        decreases s@.len() - i,
    {
        match chars.next() {
            Some(c) => {
                proof {
                    assert(s@.skip(i)[0] == s@[i]);
                    assert(s@.take(i + 1).drop_last() =~= s@.take(i));
                    assert(s@.take(i + 1).last() == s@[i]);
                    assert(s@.skip(i).drop_first() =~= s@.skip(i + 1));
                }
                if c == '\n' {
                    let n = cur.len();
                    if n > 0 && cur[n - 1] == '\r' {
                        cur.pop();
                    }
                    let line = string_of(&cur);
                    let ghost before = out@;
                    out.push(line);
                    cur = Vec::new();
                    proof {
                        assert(out@.map_values(|l: String| l@) =~= before.map_values(|l: String| l@).push(line@));
                        assert(cur@ =~= Seq::<char>::empty());
                    }
                } else {
                    cur.push(c);
                }
                proof {
                    i = i + 1;
                }
            },
            None => {
                proof {
                    assert(s@.take(i) =~= s@);
                }
                if cur.len() > 0 {
                    let line = string_of(&cur);
                    let ghost before = out@;
                    out.push(line);
                    proof {
                        assert(out@.map_values(|l: String| l@) =~= before.map_values(|l: String| l@).push(line@));
                    }
                }
                return out;
            },
        }
    }
}

/// Whether `c` is white space as `char::is_whitespace` says (the Unicode
/// `White_Space` property).
pub open spec fn is_white_space(c: char) -> bool {
    let v = c as u32;
    (0x9 <= v <= 0xd) || v == 0x20 || v == 0x85 || v == 0xa0 || v == 0x1680 || (0x2000 <= v
        <= 0x200a) || v == 0x2028 || v == 0x2029 || v == 0x202f || v == 0x205f || v == 0x3000
}

/// Whether `c` is white space (see `is_white_space`).
pub fn is_white_space_char(c: char) -> (r: bool)
    ensures
        r == is_white_space(c),
{
    let v = c as u32;
    (0x9 <= v && v <= 0xd) || v == 0x20 || v == 0x85 || v == 0xa0 || v == 0x1680 || (0x2000 <= v
        && v <= 0x200a) || v == 0x2028 || v == 0x2029 || v == 0x202f || v == 0x205f || v == 0x3000
}

/// The words ended so far in `s` and the characters of the word being read.
pub open spec fn word_split(s: Seq<char>) -> (Seq<Seq<char>>, Seq<char>)
    decreases s.len(),
{
    if s.len() == 0 {
        (Seq::empty(), Seq::empty())
    } else {
        let (done, cur) = word_split(s.drop_last());
        if is_white_space(s.last()) {
            if cur.len() > 0 {
                (done.push(cur), Seq::empty())
            } else {
                (done, cur)
            }
        } else {
            (done, cur.push(s.last()))
        }
    }
}

/// The words of `s` as `str::split_whitespace` gives them: the runs of
/// characters that are not white space.
pub open spec fn words(s: Seq<char>) -> Seq<Seq<char>> {
    let (done, cur) = word_split(s);
    if cur.len() > 0 {
        done.push(cur)
    } else {
        done
    }
}

/// Words joined by single spaces.
pub open spec fn join_words(w: Seq<Seq<char>>) -> Seq<char>
    decreases w.len(),
{
    if w.len() == 0 {
        Seq::empty()
    } else if w.len() == 1 {
        w[0]
    } else {
        join_words(w.drop_last()) + " "@ + w.last()
    }
}

/// The words of `s` joined by single spaces, or `None` when `s` holds no word.
pub fn collapse_white_space(s: &str) -> (r: Option<String>)
    ensures
        match r {
            Some(t) => words(s@).len() > 0 && t@ == join_words(words(s@)),
            None => words(s@).len() == 0,
        },
{
    let mut out = String::new();
    let mut any: bool = false;
    let mut cur: Vec<char> = Vec::new();
    let ghost mut i: int = 0;
    let mut chars = s.chars();
    proof {
        assert(s@.take(0) =~= Seq::<char>::empty());
    }
    loop
        invariant
            0 <= i <= s@.len(),
            chars.remaining() == s@.skip(i),
            word_split(s@.take(i)).1 == cur@,
            any == (word_split(s@.take(i)).0.len() > 0),
            out@ == join_words(word_split(s@.take(i)).0),
        decreases s@.len() - i,
    {
        match chars.next() {
            Some(c) => {
                proof {
                    assert(s@.skip(i)[0] == s@[i]);
                    assert(s@.take(i + 1).drop_last() =~= s@.take(i));
                    assert(s@.take(i + 1).last() == s@[i]);
                    assert(s@.skip(i).drop_first() =~= s@.skip(i + 1));
                }
                if is_white_space_char(c) {
                    if cur.len() > 0 {
                        let ghost done = word_split(s@.take(i)).0;
                        let word = string_of(&cur);
                        if any {
                            out.append(" ");
                        }
                        out.append(word.as_str());
                        any = true;
                        proof {
                            assert(done.push(cur@).drop_last() =~= done);
                            assert(done.push(cur@)[done.len() as int] == cur@);
                        }
                        cur = Vec::new();
                    }
                } else {
                    cur.push(c);
                }
                proof {
                    i = i + 1;
                }
            },
            None => {
                proof {
                    assert(s@.take(i) =~= s@);
                }
                if cur.len() > 0 {
                    let ghost done = word_split(s@.take(i)).0;
                    let word = string_of(&cur);
                    if any {
                        out.append(" ");
                    }
                    out.append(word.as_str());
                    any = true;
                    proof {
                        assert(done.push(cur@).drop_last() =~= done);
                        assert(done.push(cur@)[done.len() as int] == cur@);
                    }
                }
                if !any {
                    return None;
                }
                return Some(out);
            },
        }
    }
}

/// Whether two strings hold the same text.
pub fn same_text(a: &str, b: &str) -> (r: bool)
    ensures
        r == (a@ == b@),
{
    let r = crate::bs::bytes_eq(a.as_bytes(), b.as_bytes());
    proof {
        vstd::utf8::encode_utf8_decode_utf8(a@);
        vstd::utf8::encode_utf8_decode_utf8(b@);
    }
    r
}

/// `w` holds no white space.
pub open spec fn no_white_space(w: Seq<char>) -> bool {
    forall|j: int| 0 <= j < w.len() ==> !is_white_space(#[trigger] w[j])
}

/// The words read so far are non-empty and hold no white space, and so does
/// the word being read.
proof fn lemma_word_split(s: Seq<char>)
    ensures
        forall|k: int|
            0 <= k < word_split(s).0.len() ==> #[trigger] word_split(s).0[k].len() > 0 && no_white_space(
                word_split(s).0[k],
            ),
        no_white_space(word_split(s).1),
    decreases s.len(),
{
    if s.len() > 0 {
        let d = s.drop_last();
        lemma_word_split(d);
        let done = word_split(d).0;
        let cur = word_split(d).1;
        let c = s.last();
        if is_white_space(c) {
            if cur.len() > 0 {
                assert(word_split(s).0 == done.push(cur));
                assert forall|k: int| 0 <= k < done.push(cur).len() implies #[trigger] done.push(cur)[k].len()
                    > 0 && no_white_space(done.push(cur)[k]) by {
                    if k < done.len() {
                        assert(done.push(cur)[k] == done[k]);
                    }
                }
                assert(word_split(s).1 == Seq::<char>::empty());
            } else {
                assert(word_split(s) == (done, cur));
            }
        } else {
            assert(word_split(s) == (done, cur.push(c)));
            assert forall|j: int| 0 <= j < cur.push(c).len() implies !is_white_space(#[trigger] cur.push(c)[j]) by {
                if j < cur.len() {
                    assert(cur.push(c)[j] == cur[j]);
                }
            }
        }
    }
}

/// Every word is non-empty and holds no white space.
pub proof fn law_words_hold_no_white_space(s: Seq<char>)
    ensures
        forall|k: int| 0 <= k < words(s).len() ==> #[trigger] words(s)[k].len() > 0 && no_white_space(words(s)[k]),
{
    lemma_word_split(s);
    let done = word_split(s).0;
    let cur = word_split(s).1;
    if cur.len() > 0 {
        assert forall|k: int| 0 <= k < done.push(cur).len() implies #[trigger] done.push(cur)[k].len() > 0
            && no_white_space(done.push(cur)[k]) by {
            if k < done.len() {
                assert(done.push(cur)[k] == done[k]);
            }
        }
    }
}

proof fn lemma_split_without_white_space(s: Seq<char>)
    requires
        no_white_space(s),
    ensures
        word_split(s) == (Seq::<Seq<char>>::empty(), s),
    decreases s.len(),
{
    if s.len() > 0 {
        let d = s.drop_last();
        assert forall|j: int| 0 <= j < d.len() implies !is_white_space(#[trigger] d[j]) by {
            assert(d[j] == s[j]);
        }
        lemma_split_without_white_space(d);
        assert(!is_white_space(s[s.len() - 1]));
        assert(d.push(s.last()) =~= s);
    } else {
        assert(s =~= Seq::<char>::empty());
    }
}

proof fn lemma_split_all_white_space(s: Seq<char>)
    requires
        forall|j: int| 0 <= j < s.len() ==> is_white_space(#[trigger] s[j]),
    ensures
        word_split(s) == (Seq::<Seq<char>>::empty(), Seq::<char>::empty()),
    decreases s.len(),
{
    if s.len() > 0 {
        let d = s.drop_last();
        assert forall|j: int| 0 <= j < d.len() implies is_white_space(#[trigger] d[j]) by {
            assert(d[j] == s[j]);
        }
        lemma_split_all_white_space(d);
        assert(is_white_space(s[s.len() - 1]));
    }
}

/// A non-empty text with no white space is one word; white space alone is
/// none.
pub proof fn law_words_of_one_word(s: Seq<char>)
    ensures
        s.len() > 0 && no_white_space(s) ==> words(s) == seq![s],
        (forall|j: int| 0 <= j < s.len() ==> is_white_space(#[trigger] s[j])) ==> words(s).len() == 0,
{
    if s.len() > 0 && no_white_space(s) {
        lemma_split_without_white_space(s);
        assert(Seq::<Seq<char>>::empty().push(s) =~= seq![s]);
    }
    if forall|j: int| 0 <= j < s.len() ==> is_white_space(#[trigger] s[j]) {
        lemma_split_all_white_space(s);
    }
}

/// Words are joined by exactly one space.
pub proof fn law_words_joined_by_one_space(w: Seq<Seq<char>>, x: Seq<char>)
    ensures
        w.len() > 0 ==> join_words(w.push(x)) == join_words(w) + seq![' '] + x,
        join_words(seq![x]) == x,
{
    reveal_strlit(" ");
    assert(" "@ =~= seq![' ']);
    assert(w.push(x).drop_last() =~= w);
}

} // verus!
