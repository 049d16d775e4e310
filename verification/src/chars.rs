//! Character-level helpers shared by the diagnostics and JSON modules:
//! the characters of a string, the UTF-8 length of characters, and the
//! Unicode `White_Space` property.

use vstd::prelude::*;
use vstd::utf8::*;

verus! {

broadcast use vstd::string::group_string_axioms, vstd::utf8::group_utf8_lib;

/// The characters of `s`, in order.
pub fn chars_of(s: &str) -> (v: Vec<char>)
    ensures
        v@ == s@,
{
    let mut v: Vec<char> = Vec::new();
    for c in iter: s.chars()
        invariant
            v@ == iter.seq().take(iter.index() as int),
    {
        v.push(c);
    }
    v
}

/// `String::from_iter` over characters: the string made of exactly `v`.
#[verifier::external_body]
pub(crate) fn string_from_chars(v: &Vec<char>) -> (s: String)
    ensures
        s@ == v@,
{
    v.iter().collect()
}

/// Number of bytes in the UTF-8 encoding of `c`.
pub open spec fn utf8_width(c: char) -> nat {
    if (c as u32) < 0x80 {
        1
    } else if (c as u32) < 0x800 {
        2
    } else if (c as u32) < 0x10000 {
        3
    } else {
        4
    }
}

/// Number of bytes in the UTF-8 encoding of `chars`.
pub open spec fn utf8_len(chars: Seq<char>) -> nat {
    encode_utf8(chars).len()
}

/// Encoding a concatenation encodes each part in turn.
pub proof fn lemma_encode_utf8_concat(a: Seq<char>, b: Seq<char>)
    ensures
        encode_utf8(a + b) == encode_utf8(a) + encode_utf8(b),
    decreases a.len(),
{
    if a.len() == 0 {
        assert(a + b =~= b);
        assert(encode_utf8(a) + encode_utf8(b) =~= encode_utf8(b));
    } else {
        assert((a + b).drop_first() =~= a.drop_first() + b);
        lemma_encode_utf8_concat(a.drop_first(), b);
        assert(encode_utf8(a + b) =~= encode_utf8(a) + encode_utf8(b));
    }
}

/// A single character is encoded in `utf8_width` bytes.
pub proof fn lemma_encode_utf8_single(c: char)
    ensures
        encode_utf8(seq![c]).len() == utf8_width(c),
{
    let s = seq![c];
    assert(s.drop_first() =~= Seq::<char>::empty());
    assert(encode_utf8(s.drop_first()) =~= Seq::<u8>::empty());
    assert(encode_utf8(s) =~= encode_scalar(c as u32));
    char_is_scalar(c);
}

/// Pushing a character adds its width to the encoded length.
pub proof fn lemma_utf8_len_push(a: Seq<char>, c: char)
    ensures
        utf8_len(a.push(c)) == utf8_len(a) + utf8_width(c),
{
    lemma_encode_utf8_concat(a, seq![c]);
    assert(a.push(c) =~= a + seq![c]);
    lemma_encode_utf8_single(c);
}

/// Encoded length is additive.
pub proof fn lemma_utf8_len_concat(a: Seq<char>, b: Seq<char>)
    ensures
        utf8_len(a + b) == utf8_len(a) + utf8_len(b),
{
    lemma_encode_utf8_concat(a, b);
}

/// A prefix takes no more bytes than the whole.
pub proof fn lemma_utf8_len_prefix(chars: Seq<char>, i: int)
    requires
        0 <= i <= chars.len(),
    ensures
        utf8_len(chars.take(i)) <= utf8_len(chars),
        utf8_len(chars) == utf8_len(chars.take(i)) + utf8_len(chars.skip(i)),
{
    assert(chars =~= chars.take(i) + chars.skip(i));
    lemma_utf8_len_concat(chars.take(i), chars.skip(i));
}

/// `str::len`: the number of bytes of `s`, which is `utf8_len(s@)`.
pub fn str_byte_len(s: &str) -> (n: usize)
    ensures
        n == utf8_len(s@),
{
    let bytes = s.as_bytes();
    bytes.len()
}

/// `char::len_utf8`.
pub fn char_len_utf8(c: char) -> (n: usize)
    ensures
        n == utf8_width(c),
        1 <= n <= 4,
{
    let v = c as u32;
    if v < 0x80 {
        1
    } else if v < 0x800 {
        2
    } else if v < 0x10000 {
        3
    } else {
        4
    }
}

/// `s` as an owned string.
pub fn owned(s: &str) -> (o: String)
    ensures
        o@ == s@,
{
    let cs = chars_of(s);
    string_from_chars(&cs)
}

/// `prefix` followed by `rest`.
pub fn concat2(prefix: &str, rest: &str) -> (s: String)
    ensures
        s@ == prefix@ + rest@,
{
    let mut out = chars_of(prefix);
    let m = chars_of(rest);
    append_chars(&mut out, &m);
    string_from_chars(&out)
}

/// `prefix`, `middle` and `suffix`, one after the other.
pub fn concat3(prefix: &str, middle: &str, suffix: &str) -> (s: String)
    ensures
        s@ == prefix@ + middle@ + suffix@,
{
    let mut out = chars_of(prefix);
    let m = chars_of(middle);
    append_chars(&mut out, &m);
    let t = chars_of(suffix);
    append_chars(&mut out, &t);
    string_from_chars(&out)
}

/// The Unicode `White_Space` property, which `char::is_whitespace` tests.
pub open spec fn is_white_space(c: char) -> bool {
    ||| ('\u{9}' <= c && c <= '\u{d}')
    ||| c == ' '
    ||| c == '\u{85}'
    ||| c == '\u{a0}'
    ||| c == '\u{1680}'
    ||| ('\u{2000}' <= c && c <= '\u{200a}')
    ||| c == '\u{2028}'
    ||| c == '\u{2029}'
    ||| c == '\u{202f}'
    ||| c == '\u{205f}'
    ||| c == '\u{3000}'
}

/// `char::is_whitespace`.
pub fn is_whitespace(c: char) -> (b: bool)
    ensures
        b == is_white_space(c),
{
    ('\u{9}' <= c && c <= '\u{d}') || c == ' ' || c == '\u{85}' || c == '\u{a0}' || c == '\u{1680}'
        || ('\u{2000}' <= c && c <= '\u{200a}') || c == '\u{2028}' || c == '\u{2029}' || c
        == '\u{202f}' || c == '\u{205f}' || c == '\u{3000}'
}

/// The decimal digit for `d < 10`.
pub open spec fn digit_char(d: nat) -> char {
    ((d + 48) as u32) as char
}

/// Decimal representation of `n`, without leading zeros.
pub open spec fn decimal(n: nat) -> Seq<char>
    decreases n,
{
    if n < 10 {
        seq![digit_char(n)]
    } else {
        decimal(n / 10).push(digit_char(n % 10))
    }
}

/// The characters of the decimal representation of `n`.
pub fn decimal_chars(n: usize) -> (digits: Vec<char>)
    ensures
        digits@ == decimal(n as nat),
{
    // digits from the least significant one
    let mut rev: Vec<char> = Vec::new();
    let mut m = n;
    while m >= 10
        invariant
            decimal(n as nat) =~= decimal(m as nat) + rev@.reverse(),
        decreases m,
    {
        let c = char_from_digit((m % 10) as u32);
        let ghost before = rev@;
        rev.push(c);
        m = m / 10;
        proof {
            assert(rev@.reverse() =~= seq![c] + before.reverse());
        }
    }
    let c = char_from_digit(m as u32);
    let ghost before = rev@;
    rev.push(c);
    proof {
        assert(decimal(m as nat) =~= seq![c]);
        assert(rev@.reverse() =~= seq![c] + before.reverse());
    }
    let mut out: Vec<char> = Vec::new();
    let mut i = rev.len();
    while i > 0
        invariant
            i <= rev.len(),
            out@ =~= rev@.reverse().take(rev.len() - i),
        decreases i,
    {
        i = i - 1;
        out.push(rev[i]);
        proof {
            assert(out@ =~= rev@.reverse().take(rev.len() - i));
        }
    }
    proof {
        assert(out@ =~= rev@.reverse());
    }
    out
}

/// A copy of `chars[from..to]`.
pub fn sub_chars(chars: &Vec<char>, from: usize, to: usize) -> (out: Vec<char>)
    requires
        from <= to <= chars.len(),
    ensures
        out@ == chars@.subrange(from as int, to as int),
{
    let mut out: Vec<char> = Vec::new();
    let mut i = from;
    while i < to
        invariant
            from <= i <= to <= chars.len(),
            out@ == chars@.subrange(from as int, i as int),
        decreases to - i,
    {
        out.push(chars[i]);
        i = i + 1;
        proof {
            assert(out@ =~= chars@.subrange(from as int, i as int));
        }
    }
    out
}

/// Appends `more` to `out`.
pub fn append_chars(out: &mut Vec<char>, more: &Vec<char>)
    ensures
        final(out)@ == old(out)@ + more@,
{
    let mut i: usize = 0;
    while i < more.len()
        invariant
            i <= more.len(),
            out@ == old(out)@ + more@.take(i as int),
        decreases more.len() - i,
    {
        out.push(more[i]);
        i = i + 1;
        proof {
            assert(out@ =~= old(out)@ + more@.take(i as int));
        }
    }
    proof {
        assert(more@.take(i as int) =~= more@);
    }
}

fn char_from_digit(d: u32) -> (c: char)
    requires
        d < 10,
    ensures
        c == digit_char(d as nat),
{
    if d == 0 { '0' } else if d == 1 { '1' } else if d == 2 { '2' } else if d == 3 { '3' }
    else if d == 4 { '4' } else if d == 5 { '5' } else if d == 6 { '6' } else if d == 7 { '7' }
    else if d == 8 { '8' } else { '9' }
}

} // verus!
