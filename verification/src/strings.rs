//! Text made of characters: messages, command lines and file names.
use vstd::prelude::*;
use vstd::string::*;
use vstd::utf8::{
    decode_utf8, encode_utf8, encode_utf8_decode_utf8, encode_utf8_valid_utf8, valid_utf8,
};

verus! {

/// `String::push` of the standard library: appends one character to the end
/// of the string.
pub assume_specification[ String::push ](s: &mut String, c: char)
    ensures
        final(s)@ == old(s)@.push(c),
;

/// What `String::from_utf8_lossy` makes of a byte string.
pub uninterp spec fn lossy_text(bytes: Seq<u8>) -> Seq<char>;

/// `String::from_utf8_lossy` of the standard library: the text that the bytes
/// encode. Bytes that are valid UTF-8 are decoded; for the others the text is
/// only named, with the replacement characters where the standard library
/// puts them.
#[verifier::external_body]
pub(crate) fn utf8_lossy(bytes: &[u8]) -> (r: String)
    ensures
        r@ == lossy_text(bytes@),
        valid_utf8(bytes@) ==> r@ == decode_utf8(bytes@),
{
    String::from_utf8_lossy(bytes).into_owned()
}

/// The text that bytes stand for: what they encode in UTF-8, or what
/// `String::from_utf8_lossy` makes of them where they encode nothing.
pub open spec fn decoded(bytes: Seq<u8>) -> Seq<char> {
    if valid_utf8(bytes) {
        decode_utf8(bytes)
    } else {
        lossy_text(bytes)
    }
}

/// Bytes that a text is encoded to stand for that text.
pub proof fn lemma_encoded_text_is_decoded(text: Seq<char>)
    ensures
        decoded(encode_utf8(text)) == text,
{
    encode_utf8_valid_utf8(text);
    encode_utf8_decode_utf8(text);
}

/// The characters whose code points are the given bytes.
pub open spec fn latin_text(bytes: Seq<u8>) -> Seq<char> {
    Seq::new(bytes.len(), |i: int| bytes[i] as char)
}

/// The decimal digits of `n`, without leading zeros.
pub open spec fn decimal_bytes(n: nat) -> Seq<u8>
    decreases n,
{
    if n < 10 {
        seq![(48 + n) as u8]
    } else {
        decimal_bytes(n / 10).push((48 + n % 10) as u8)
    }
}

/// `n` in decimal, as characters.
pub open spec fn decimal(n: int) -> Seq<char> {
    latin_text(decimal_bytes(n as nat))
}

/// `n` in decimal.
pub fn decimal_bytes_of(n: u128) -> (r: Vec<u8>)
    ensures
        r@ == decimal_bytes(n as nat),
    decreases n,
{
    if n < 10 {
        let mut r: Vec<u8> = Vec::new();
        r.push(48u8 + n as u8);
        assert(r@ =~= decimal_bytes(n as nat));
        r
    } else {
        let mut r = decimal_bytes_of(n / 10);
        r.push(48u8 + (n % 10) as u8);
        assert(r@ =~= decimal_bytes(n as nat));
        r
    }
}

/// Appends the characters whose code points are the given bytes.
pub fn push_latin(out: &mut String, bytes: &[u8])
    ensures
        final(out)@ == old(out)@ + latin_text(bytes@),
{
    let mut i: usize = 0;
    assert(out@ =~= old(out)@ + latin_text(bytes@.subrange(0, 0)));
    while i < bytes.len()
        invariant
            i <= bytes@.len(),
            out@ == old(out)@ + latin_text(bytes@.subrange(0, i as int)),
        decreases bytes@.len() - i,
    {
        out.push(bytes[i] as char);
        i += 1;
        assert(out@ =~= old(out)@ + latin_text(bytes@.subrange(0, i as int)));
    }
    assert(bytes@.subrange(0, bytes@.len() as int) =~= bytes@);
}

/// The text whose characters have the given code points.
pub fn latin_of(bytes: &[u8]) -> (r: String)
    ensures
        r@ == latin_text(bytes@),
{
    let mut r = String::new();
    push_latin(&mut r, bytes);
    assert(r@ =~= latin_text(bytes@));
    r
}

/// Appends `n` in decimal.
pub fn push_decimal(out: &mut String, n: u128)
    ensures
        final(out)@ == old(out)@ + decimal(n as int),
{
    let digits = decimal_bytes_of(n);
    push_latin(out, &digits);
}

/// The characters of `s`.
pub fn chars_of(s: &str) -> (r: Vec<char>)
    ensures
        r@ == s@,
{
    let mut r: Vec<char> = Vec::new();
    for c in it: s.chars()
        invariant
            it.seq() == s@,
            r@ == s@.subrange(0, it.index()),
    {
        r.push(c);
        assert(r@ =~= s@.subrange(0, it.index() + 1));
    }
    assert(r@ =~= s@);
    r
}

/// The text from character `start` up to `end`.
pub fn text_range(chars: &[char], start: usize, end: usize) -> (r: String)
    requires
        start <= end <= chars@.len(),
    ensures
        r@ == chars@.subrange(start as int, end as int),
{
    let mut r = String::new();
    let mut i: usize = start;
    assert(r@ =~= chars@.subrange(start as int, start as int));
    while i < end
        invariant
            start <= i <= end <= chars@.len(),
            r@ == chars@.subrange(start as int, i as int),
        decreases end - i,
    {
        r.push(chars[i]);
        i += 1;
        assert(r@ =~= chars@.subrange(start as int, i as int));
    }
    r
}

/// The text made of `chars`.
pub fn text_from(chars: &[char]) -> (r: String)
    ensures
        r@ == chars@,
{
    let r = text_range(chars, 0, chars.len());
    assert(chars@.subrange(0, chars@.len() as int) =~= chars@);
    r
}

/// A copy of the characters from `start` up to `end`.
pub fn char_range(chars: &[char], start: usize, end: usize) -> (r: Vec<char>)
    requires
        start <= end <= chars@.len(),
    ensures
        r@ == chars@.subrange(start as int, end as int),
{
    let mut r: Vec<char> = Vec::new();
    let mut i: usize = start;
    while i < end
        invariant
            start <= i <= end <= chars@.len(),
            r@ == chars@.subrange(start as int, i as int),
        decreases end - i,
    {
        r.push(chars[i]);
        i += 1;
        assert(r@ =~= chars@.subrange(start as int, i as int));
    }
    assert(r@ =~= chars@.subrange(start as int, end as int));
    r
}

/// The UTF-8 form of `s`.
pub fn utf8_of_str(s: &str) -> (r: Vec<u8>)
    ensures
        r@ == encode_utf8(s@),
{
    crate::bytes::copy_bytes(s.as_bytes())
}

/// The UTF-8 form of `chars`.
pub fn utf8_of(chars: &[char]) -> (r: Vec<u8>)
    ensures
        r@ == encode_utf8(chars@),
{
    let text = text_from(chars);
    utf8_of_str(text.as_str())
}

/// A copy of `s`.
pub fn copy_str(s: &str) -> (r: String)
    ensures
        r@ == s@,
{
    s.to_owned()
}

/// Whether two texts are equal.
pub fn same_text(a: &[char], b: &str) -> (r: bool)
    ensures
        r == (a@ == b@),
{
    let other = chars_of(b);
    if a.len() != other.len() {
        return false;
    }
    let mut i: usize = 0;
    while i < a.len()
        invariant
            a@.len() == other@.len(),
            other@ == b@,
            i <= a@.len(),
            forall|j: int| 0 <= j < i ==> a@[j] == other@[j],
        decreases a@.len() - i,
    {
        if a[i] != other[i] {
            return false;
        }
        i += 1;
    }
    assert(a@ =~= b@);
    true
}

/// Whether the second text begins with the first.
pub open spec fn starts_with(text: Seq<char>, prefix: Seq<char>) -> bool {
    prefix.len() <= text.len() && text.subrange(0, prefix.len() as int) == prefix
}

/// Whether `text` begins with `prefix`.
pub fn begins_with(text: &[char], prefix: &[char]) -> (r: bool)
    ensures
        r == starts_with(text@, prefix@),
{
    if prefix.len() > text.len() {
        return false;
    }
    let mut i: usize = 0;
    while i < prefix.len()
        invariant
            prefix@.len() <= text@.len(),
            i <= prefix@.len(),
            forall|j: int| 0 <= j < i ==> text@[j] == prefix@[j],
        decreases prefix@.len() - i,
    {
        if text[i] != prefix[i] {
            assert(text@.subrange(0, prefix@.len() as int)[i as int] != prefix@[i as int]);
            return false;
        }
        i += 1;
    }
    assert(text@.subrange(0, prefix@.len() as int) =~= prefix@);
    true
}

/// The characters of Unicode's `White_Space` property.
#[verifier::allow_in_spec]
pub fn is_white(c: char) -> bool
    returns
        ('\u{9}' <= c <= '\u{d}') || c == ' ' || c == '\u{85}' || c == '\u{a0}' || c == '\u{1680}'
            || ('\u{2000}' <= c <= '\u{200a}') || c == '\u{2028}' || c == '\u{2029}' || c
            == '\u{202f}' || c == '\u{205f}' || c == '\u{3000}',
{
    ('\u{9}' <= c && c <= '\u{d}') || c == ' ' || c == '\u{85}' || c == '\u{a0}' || c == '\u{1680}'
        || ('\u{2000}' <= c && c <= '\u{200a}') || c == '\u{2028}' || c == '\u{2029}' || c
        == '\u{202f}' || c == '\u{205f}' || c == '\u{3000}'
}

/// `text` without the white space at its start.
pub open spec fn trim_start(text: Seq<char>) -> Seq<char>
    decreases text.len(),
{
    if text.len() > 0 && is_white(text[0]) {
        trim_start(text.subrange(1, text.len() as int))
    } else {
        text
    }
}

/// `text` without the white space at its end.
pub open spec fn trim_end(text: Seq<char>) -> Seq<char>
    decreases text.len(),
{
    if text.len() > 0 && is_white(text.last()) {
        trim_end(text.drop_last())
    } else {
        text
    }
}

/// `text` without the white space at either end.
pub open spec fn trim(text: Seq<char>) -> Seq<char> {
    trim_end(trim_start(text))
}

/// The place of the first character that is not white space.
pub fn skip_white(chars: &[char]) -> (r: usize)
    ensures
        r <= chars@.len(),
        chars@.subrange(r as int, chars@.len() as int) == trim_start(chars@),
{
    let mut i: usize = 0;
    assert(chars@.subrange(0, chars@.len() as int) =~= chars@);
    while i < chars.len() && is_white(chars[i])
        invariant
            i <= chars@.len(),
            trim_start(chars@.subrange(i as int, chars@.len() as int)) == trim_start(chars@),
        decreases chars@.len() - i,
    {
        let ghost rest = chars@.subrange(i as int, chars@.len() as int);
        assert(rest.subrange(1, rest.len() as int) =~= chars@.subrange(
            i + 1,
            chars@.len() as int,
        ));
        i += 1;
    }
    i
}

/// `chars` without the white space at its end.
pub fn drop_white_end(chars: &[char]) -> (r: usize)
    ensures
        r <= chars@.len(),
        chars@.subrange(0, r as int) == trim_end(chars@),
{
    let mut i: usize = chars.len();
    assert(chars@.subrange(0, i as int) =~= chars@);
    while i > 0 && is_white(chars[i - 1])
        invariant
            i <= chars@.len(),
            trim_end(chars@.subrange(0, i as int)) == trim_end(chars@),
        decreases i,
    {
        let ghost part = chars@.subrange(0, i as int);
        assert(part.drop_last() =~= chars@.subrange(0, i - 1));
        i -= 1;
    }
    i
}

/// `chars` without the white space at its start.
pub fn trimmed_start(chars: &[char]) -> (r: Vec<char>)
    ensures
        r@ == trim_start(chars@),
{
    let start: usize = skip_white(chars);
    char_range(chars, start, chars.len())
}

/// `chars` without the white space at either end.
pub fn trimmed(chars: &[char]) -> (r: Vec<char>)
    ensures
        r@ == trim(chars@),
{
    let rest = trimmed_start(chars);
    let end: usize = drop_white_end(&rest);
    char_range(&rest, 0, end)
}

} // verus!
