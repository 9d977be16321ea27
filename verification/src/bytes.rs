//! Byte strings, lists of lines, and the small operations on them that the
//! rest of the editor is written in terms of.
use vstd::prelude::*;

verus! {

/// `s` with its elements from `start` up to (not including) `end` replaced by `ins`.
pub open spec fn splice<T>(s: Seq<T>, start: int, end: int, ins: Seq<T>) -> Seq<T> {
    s.subrange(0, start) + ins + s.subrange(end, s.len() as int)
}

/// The contents of a list of lines.
pub open spec fn text_of(v: Seq<Vec<u8>>) -> Seq<Seq<u8>> {
    Seq::new(v.len(), |i: int| v[i]@)
}

/// The smaller of two integers.
pub open spec fn imin(a: int, b: int) -> int {
    if a <= b {
        a
    } else {
        b
    }
}

/// The larger of two integers.
pub open spec fn imax(a: int, b: int) -> int {
    if a >= b {
        a
    } else {
        b
    }
}

/// `a - b`, but never below zero.
pub open spec fn less(a: int, b: int) -> int {
    if a >= b {
        a - b
    } else {
        0
    }
}

/// `x` brought into the range of `usize`.
pub open spec fn fit(x: int) -> int {
    if x < 0 {
        0
    } else if x > usize::MAX {
        usize::MAX as int
    } else {
        x
    }
}

/// Space, tab, line feed, form feed and carriage return.
#[verifier::allow_in_spec]
pub fn is_space(byte: u8) -> bool
    returns
        byte == 32 || byte == 9 || byte == 10 || byte == 12 || byte == 13,
{
    byte == 32 || byte == 9 || byte == 10 || byte == 12 || byte == 13
}

/// The ASCII digits.
#[verifier::allow_in_spec]
pub fn is_digit(byte: u8) -> bool
    returns
        48 <= byte <= 57,
{
    48 <= byte && byte <= 57
}

/// The ASCII letters `a` to `z`.
#[verifier::allow_in_spec]
pub fn is_lower(byte: u8) -> bool
    returns
        97 <= byte <= 122,
{
    97 <= byte && byte <= 122
}

/// The ASCII letters `A` to `Z`.
#[verifier::allow_in_spec]
pub fn is_upper(byte: u8) -> bool
    returns
        65 <= byte <= 90,
{
    65 <= byte && byte <= 90
}

/// The ASCII control codes, delete among them.
#[verifier::allow_in_spec]
pub fn is_control(byte: u8) -> bool
    returns
        byte < 32 || byte == 127,
{
    byte < 32 || byte == 127
}

/// A byte that is part of a word: a letter, a digit or an underscore.
#[verifier::allow_in_spec]
pub fn is_word(byte: u8) -> bool
    returns
        is_lower(byte) || is_upper(byte) || is_digit(byte) || byte == 95,
{
    is_lower(byte) || is_upper(byte) || is_digit(byte) || byte == 95
}

/// An ASCII letter in lower case; every other byte as it is.
#[verifier::allow_in_spec]
pub fn to_lower(byte: u8) -> u8
    returns
        if is_upper(byte) {
            (byte + 32) as u8
        } else {
            byte
        },
{
    if is_upper(byte) {
        byte + 32
    } else {
        byte
    }
}

/// An ASCII letter in upper case; every other byte as it is.
#[verifier::allow_in_spec]
pub fn to_upper(byte: u8) -> u8
    returns
        if is_lower(byte) {
            (byte - 32) as u8
        } else {
            byte
        },
{
    if is_lower(byte) {
        byte - 32
    } else {
        byte
    }
}

/// The smaller of two sizes.
pub fn min_of(a: usize, b: usize) -> (r: usize)
    ensures
        r == imin(a as int, b as int),
{
    if a <= b {
        a
    } else {
        b
    }
}

/// The larger of two sizes.
pub fn max_of(a: usize, b: usize) -> (r: usize)
    ensures
        r == imax(a as int, b as int),
{
    if a >= b {
        a
    } else {
        b
    }
}

/// `a - b`, but never below zero.
pub fn less_of(a: usize, b: usize) -> (r: usize)
    ensures
        r == less(a as int, b as int),
{
    if a >= b {
        a - b
    } else {
        0
    }
}

/// `a + b`, but never above the largest `usize`.
pub fn plus_of(a: usize, b: usize) -> (r: usize)
    ensures
        r == fit(a + b),
{
    if a <= usize::MAX - b {
        a + b
    } else {
        usize::MAX
    }
}

/// A copy of the bytes from `start` up to `end`.
pub fn copy_range(bytes: &[u8], start: usize, end: usize) -> (r: Vec<u8>)
    requires
        start <= end <= bytes@.len(),
    ensures
        r@ == bytes@.subrange(start as int, end as int),
{
    let mut r: Vec<u8> = Vec::new();
    push_range(&mut r, bytes, start, end);
    assert(r@ =~= bytes@.subrange(start as int, end as int));
    r
}

/// Appends the bytes from `start` up to `end` to `out`.
pub fn push_range(out: &mut Vec<u8>, bytes: &[u8], start: usize, end: usize)
    requires
        start <= end <= bytes@.len(),
    ensures
        final(out)@ == old(out)@ + bytes@.subrange(start as int, end as int),
{
    let mut i: usize = start;
    while i < end
        invariant
            start <= i <= end <= bytes@.len(),
            out@ == old(out)@ + bytes@.subrange(start as int, i as int),
        decreases end - i,
    {
        out.push(bytes[i]);
        i += 1;
        assert(out@ =~= old(out)@ + bytes@.subrange(start as int, i as int));
    }
    assert(out@ =~= old(out)@ + bytes@.subrange(start as int, end as int));
}

/// Appends `bytes` to `out`.
pub fn push_all(out: &mut Vec<u8>, bytes: &[u8])
    ensures
        final(out)@ == old(out)@ + bytes@,
{
    push_range(out, bytes, 0, bytes.len());
    assert(bytes@.subrange(0, bytes@.len() as int) =~= bytes@);
}

/// A copy of `bytes`.
pub fn copy_bytes(bytes: &[u8]) -> (r: Vec<u8>)
    ensures
        r@ == bytes@,
{
    let mut r: Vec<u8> = Vec::new();
    push_all(&mut r, bytes);
    assert(r@ =~= bytes@);
    r
}

/// `count` times the same byte.
pub fn repeat_byte(byte: u8, count: usize) -> (r: Vec<u8>)
    ensures
        r@ == Seq::new(count as nat, |i: int| byte),
{
    let mut r: Vec<u8> = Vec::new();
    let mut i: usize = 0;
    while i < count
        invariant
            i <= count,
            r@ == Seq::new(i as nat, |i: int| byte),
        decreases count - i,
    {
        r.push(byte);
        i += 1;
        assert(r@ =~= Seq::new(i as nat, |i: int| byte));
    }
    r
}

/// Whether two byte strings are equal.
pub fn same_bytes(a: &[u8], b: &[u8]) -> (r: bool)
    ensures
        r == (a@ == b@),
{
    if a.len() != b.len() {
        return false;
    }
    let mut i: usize = 0;
    while i < a.len()
        invariant
            a@.len() == b@.len(),
            i <= a@.len(),
            forall|j: int| 0 <= j < i ==> a@[j] == b@[j],
        decreases a@.len() - i,
    {
        if a[i] != b[i] {
            return false;
        }
        i += 1;
    }
    assert(a@ =~= b@);
    true
}

/// Whether `bytes` holds `wanted` at `at`.
pub fn has_at(bytes: &[u8], at: usize, wanted: &[u8]) -> (r: bool)
    ensures
        r == (at + wanted@.len() <= bytes@.len() && bytes@.subrange(
            at as int,
            at + wanted@.len(),
        ) == wanted@),
{
    let total: usize = bytes.len();
    if at > total || wanted.len() > total - at {
        return false;
    }
    let mut i: usize = 0;
    while i < wanted.len()
        invariant
            total == bytes@.len(),
            at + wanted@.len() <= bytes@.len(),
            i <= wanted@.len(),
            forall|j: int| 0 <= j < i ==> bytes@[at + j] == wanted@[j],
        decreases wanted@.len() - i,
    {
        if bytes[at + i] != wanted[i] {
            assert(bytes@.subrange(at as int, at + wanted@.len())[i as int] != wanted@[i as int]);
            return false;
        }
        i += 1;
    }
    assert(bytes@.subrange(at as int, at + wanted@.len()) =~= wanted@);
    true
}

/// Whether two lists of lines are equal.
pub fn same_lines(a: &Vec<Vec<u8>>, b: &Vec<Vec<u8>>) -> (r: bool)
    ensures
        r == (text_of(a@) == text_of(b@)),
{
    if a.len() != b.len() {
        assert(text_of(a@).len() != text_of(b@).len());
        return false;
    }
    let mut i: usize = 0;
    while i < a.len()
        invariant
            a@.len() == b@.len(),
            i <= a@.len(),
            forall|j: int| 0 <= j < i ==> a@[j]@ == b@[j]@,
        decreases a@.len() - i,
    {
        if !same_bytes(&a[i], &b[i]) {
            assert(text_of(a@)[i as int] != text_of(b@)[i as int]);
            return false;
        }
        i += 1;
    }
    assert(text_of(a@) =~= text_of(b@));
    true
}

/// A copy of the lines from `start` up to `end`.
pub fn copy_lines(lines: &Vec<Vec<u8>>, start: usize, end: usize) -> (r: Vec<Vec<u8>>)
    requires
        start <= end <= lines@.len(),
    ensures
        text_of(r@) == text_of(lines@).subrange(start as int, end as int),
{
    let mut r: Vec<Vec<u8>> = Vec::new();
    let mut i: usize = start;
    while i < end
        invariant
            start <= i <= end <= lines@.len(),
            text_of(r@) == text_of(lines@).subrange(start as int, i as int),
        decreases end - i,
    {
        let ghost before = r@;
        r.push(copy_bytes(&lines[i]));
        i += 1;
        assert(text_of(r@) =~= text_of(before).push(text_of(lines@)[i - 1]));
        assert(text_of(r@) =~= text_of(lines@).subrange(start as int, i as int));
    }
    assert(text_of(r@) =~= text_of(lines@).subrange(start as int, end as int));
    r
}

/// A list of one line.
pub fn one_line(line: Vec<u8>) -> (r: Vec<Vec<u8>>)
    ensures
        text_of(r@) == seq![line@],
{
    let mut r: Vec<Vec<u8>> = Vec::new();
    r.push(line);
    assert(text_of(r@) =~= seq![line@]);
    r
}

/// A list of two lines.
pub fn two_lines(first: Vec<u8>, second: Vec<u8>) -> (r: Vec<Vec<u8>>)
    ensures
        text_of(r@) == seq![first@, second@],
{
    let mut r: Vec<Vec<u8>> = Vec::new();
    r.push(first);
    r.push(second);
    assert(text_of(r@) =~= seq![first@, second@]);
    r
}

/// Replaces the bytes from `start` up to `end` by `ins`.
pub fn splice_bytes(bytes: &mut Vec<u8>, start: usize, end: usize, ins: &[u8])
    requires
        start <= end <= old(bytes)@.len(),
    ensures
        final(bytes)@ == splice(old(bytes)@, start as int, end as int, ins@),
{
    let mut tail = bytes.split_off(end);
    bytes.truncate(start);
    push_all(bytes, ins);
    bytes.append(&mut tail);
    assert(bytes@ =~= splice(old(bytes)@, start as int, end as int, ins@));
}

/// Replaces the lines from `start` up to `end` by `ins`.
pub fn splice_lines(lines: &mut Vec<Vec<u8>>, start: usize, end: usize, ins: Vec<Vec<u8>>)
    requires
        start <= end <= old(lines)@.len(),
    ensures
        text_of(final(lines)@) == splice(
            text_of(old(lines)@),
            start as int,
            end as int,
            text_of(ins@),
        ),
        final(lines)@ == splice(old(lines)@, start as int, end as int, ins@),
{
    let mut tail = lines.split_off(end);
    let mut middle = ins;
    lines.truncate(start);
    lines.append(&mut middle);
    lines.append(&mut tail);
    assert(lines@ =~= splice(old(lines)@, start as int, end as int, ins@));
    assert(text_of(lines@) =~= splice(
        text_of(old(lines)@),
        start as int,
        end as int,
        text_of(ins@),
    ));
}

} // verus!
