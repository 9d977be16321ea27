//! The text of a buffer: a list of lines, and the byte string it is written as.
use vstd::prelude::*;

use crate::bytes::{push_all, text_of};

verus! {

/// The byte that ends a line.
pub const NEWLINE: u8 = 10;

/// The pieces of `data` between its newlines: one more than there are newlines.
pub open spec fn split_newlines(data: Seq<u8>) -> Seq<Seq<u8>>
    decreases data.len(),
{
    if data.len() == 0 {
        seq![Seq::<u8>::empty()]
    } else {
        let before = split_newlines(data.drop_last());
        if data.last() == NEWLINE {
            before.push(Seq::<u8>::empty())
        } else {
            before.drop_last().push(before.last().push(data.last()))
        }
    }
}

/// The lines with a newline between each two of them.
pub open spec fn join_lines(lines: Seq<Seq<u8>>) -> Seq<u8>
    decreases lines.len(),
{
    if lines.len() == 0 {
        Seq::empty()
    } else if lines.len() == 1 {
        lines[0]
    } else {
        join_lines(lines.drop_last()).push(NEWLINE) + lines.last()
    }
}

/// Whether `data` ends with a newline.
pub open spec fn ends_with_newline(data: Seq<u8>) -> bool {
    data.len() > 0 && data.last() == NEWLINE
}

/// The lines of `data`. A newline at its end finishes the last line and begins
/// no other.
pub open spec fn lines_of(data: Seq<u8>) -> Seq<Seq<u8>> {
    if ends_with_newline(data) {
        split_newlines(data).drop_last()
    } else {
        split_newlines(data)
    }
}

/// A text as it is written out: with a newline after each line, the last one
/// only where `trailing` says so.
pub open spec fn serialize(lines: Seq<Seq<u8>>, trailing: bool) -> Seq<u8> {
    if trailing && lines.len() > 0 {
        join_lines(lines).push(NEWLINE)
    } else {
        join_lines(lines)
    }
}

/// The number of bytes that the lines take, each with its newline.
pub open spec fn serialized_len(lines: Seq<Seq<u8>>) -> int
    decreases lines.len(),
{
    if lines.len() == 0 {
        0
    } else {
        serialized_len(lines.drop_last()) + lines.last().len() + 1
    }
}

/// The number of lines that a file with these bytes has.
pub open spec fn line_count_of(data: Seq<u8>) -> int {
    if data.len() == 0 {
        0
    } else if ends_with_newline(data) {
        split_newlines(data).len() - 1
    } else {
        split_newlines(data).len() as int
    }
}

/// The pieces of a byte string between its newlines are never fewer than one.
pub proof fn lemma_split_len(data: Seq<u8>)
    ensures
        split_newlines(data).len() >= 1,
        ends_with_newline(data) ==> split_newlines(data).len() >= 2,
        split_newlines(data).len() <= data.len() + 1,
    decreases data.len(),
{
    if data.len() > 0 {
        lemma_split_len(data.drop_last());
    }
}

/// Each text has at least one line.
pub proof fn lemma_lines_of_len(data: Seq<u8>)
    ensures
        lines_of(data).len() >= 1,
{
    lemma_split_len(data);
}

proof fn lemma_join_extend(lines: Seq<Seq<u8>>, tail: Seq<u8>)
    requires
        lines.len() > 0,
    ensures
        join_lines(lines.drop_last().push(lines.last() + tail)) == join_lines(lines) + tail,
{
    let longer = lines.drop_last().push(lines.last() + tail);
    assert(longer.drop_last() =~= lines.drop_last());
    assert(join_lines(longer) =~= join_lines(lines) + tail);
}

/// Joining the pieces of a byte string gives it back.
pub proof fn lemma_join_split(data: Seq<u8>)
    ensures
        join_lines(split_newlines(data)) == data,
    decreases data.len(),
{
    if data.len() > 0 {
        let rest = data.drop_last();
        let before = split_newlines(rest);
        lemma_join_split(rest);
        lemma_split_len(rest);
        if data.last() == NEWLINE {
            assert(split_newlines(data).drop_last() =~= before);
            assert(join_lines(split_newlines(data)) =~= data);
        } else {
            lemma_join_extend(before, seq![data.last()]);
            assert(before.last() + seq![data.last()] =~= before.last().push(data.last()));
            assert(join_lines(split_newlines(data)) =~= data);
        }
    } else {
        assert(join_lines(split_newlines(data)) =~= data);
    }
}

/// No line holds a newline.
pub open spec fn newline_free(lines: Seq<Seq<u8>>) -> bool {
    forall|i: int, j: int|
        #![trigger lines[i][j]]
        0 <= i < lines.len() && 0 <= j < lines[i].len() ==> lines[i][j] != NEWLINE
}

proof fn lemma_split_append(data: Seq<u8>, line: Seq<u8>)
    requires
        forall|j: int| 0 <= j < line.len() ==> line[j] != NEWLINE,
    ensures
        split_newlines(data + line) == split_newlines(data).drop_last().push(
            split_newlines(data).last() + line,
        ),
    decreases line.len(),
{
    lemma_split_len(data);
    let before = split_newlines(data);
    if line.len() == 0 {
        assert(data + line =~= data);
        assert(before.last() + line =~= before.last());
        assert(before.drop_last().push(before.last()) =~= before);
    } else {
        let short = line.drop_last();
        lemma_split_append(data, short);
        assert((data + line).drop_last() =~= data + short);
        let middle = split_newlines(data + short);
        assert(middle.drop_last() =~= before.drop_last());
        assert(middle.last() == before.last() + short);
        assert((before.last() + short).push(line.last()) =~= before.last() + line);
    }
}

/// Splitting joined lines gives the lines back, where none holds a newline.
pub proof fn lemma_split_join(lines: Seq<Seq<u8>>)
    requires
        lines.len() > 0,
        newline_free(lines),
    ensures
        split_newlines(join_lines(lines)) == lines,
    decreases lines.len(),
{
    if lines.len() == 1 {
        assert forall|j: int| 0 <= j < lines[0].len() implies lines[0][j] != NEWLINE by {}
        lemma_split_append(Seq::empty(), lines[0]);
        assert(Seq::<u8>::empty() + lines[0] =~= lines[0]);
        reveal_with_fuel(split_newlines, 2);
        assert(split_newlines(lines[0]) =~= lines);
    } else {
        let rest = lines.drop_last();
        assert forall|i: int, j: int|
            #![trigger rest[i][j]]
            0 <= i < rest.len() && 0 <= j < rest[i].len() implies rest[i][j] != NEWLINE by {
            assert(rest[i][j] == lines[i][j]);
        }
        lemma_split_join(rest);
        let head = join_lines(rest).push(NEWLINE);
        assert(head.drop_last() =~= join_lines(rest));
        assert(split_newlines(head) == rest.push(Seq::<u8>::empty()));
        assert forall|j: int| 0 <= j < lines.last().len() implies lines.last()[j] != NEWLINE by {
            assert(lines.last()[j] == lines[lines.len() - 1][j]);
        }
        lemma_split_append(head, lines.last());
        assert(Seq::<u8>::empty() + lines.last() =~= lines.last());
        assert(rest.push(Seq::<u8>::empty()).drop_last() =~= rest);
        assert(rest.push(lines.last()) =~= lines);
    }
}

/// Writing out the lines of a byte string gives the byte string back.
pub proof fn lemma_serialize_lines_of(data: Seq<u8>)
    ensures
        serialize(lines_of(data), ends_with_newline(data)) == data,
{
    lemma_split_len(data);
    lemma_join_split(data);
    if ends_with_newline(data) {
        assert(split_newlines(data).drop_last() =~= split_newlines(data.drop_last()));
        lemma_join_split(data.drop_last());
        assert(data.drop_last().push(NEWLINE) =~= data);
    }
}

/// The lines of a text that was written out are its lines, and its last
/// newline is recognised. Left out: texts with a newline inside a line, and
/// texts without a trailing newline whose last line of several is empty, which
/// are written like the text that ends one line earlier.
pub proof fn lemma_lines_of_serialize(lines: Seq<Seq<u8>>, trailing: bool)
    requires
        lines.len() > 0,
        newline_free(lines),
        trailing || lines.len() == 1 || lines.last().len() > 0,
    ensures
        lines_of(serialize(lines, trailing)) == lines,
        ends_with_newline(serialize(lines, trailing)) == trailing,
{
    lemma_split_join(lines);
    let data = serialize(lines, trailing);
    if trailing {
        assert(data.drop_last() =~= join_lines(lines));
        assert(lines_of(data) =~= lines);
    } else {
        if lines.last().len() > 0 {
            assert(data.last() == lines.last().last());
            assert(lines.last().last() == lines[lines.len() - 1][lines.last().len() - 1]);
        }
    }
}

/// Splits `data` at its newlines.
pub fn split_data(data: &[u8]) -> (r: Vec<Vec<u8>>)
    ensures
        text_of(r@) == split_newlines(data@),
        r@.len() >= 1,
{
    let mut r: Vec<Vec<u8>> = Vec::new();
    let mut line: Vec<u8> = Vec::new();
    let mut i: usize = 0;
    assert(text_of(r@).push(line@) =~= split_newlines(data@.subrange(0, 0)));
    while i < data.len()
        invariant
            i <= data@.len(),
            text_of(r@).push(line@) == split_newlines(data@.subrange(0, i as int)),
        decreases data@.len() - i,
    {
        let ghost lines_before = r@;
        let ghost line_before = line@;
        let ghost part = data@.subrange(0, i + 1);
        assert(part.drop_last() =~= data@.subrange(0, i as int));
        let byte: u8 = data[i];
        if byte == NEWLINE {
            r.push(line);
            line = Vec::new();
            assert(text_of(r@) =~= text_of(lines_before).push(line_before));
            assert(text_of(r@).push(line@) =~= split_newlines(part));
        } else {
            line.push(byte);
            assert(text_of(r@).push(line@) =~= split_newlines(part));
        }
        i += 1;
    }
    assert(data@.subrange(0, data@.len() as int) =~= data@);
    let ghost lines_before = r@;
    r.push(line);
    assert(text_of(r@) =~= text_of(lines_before).push(line@));
    r
}

/// Whether `data` ends with a newline.
pub fn has_final_newline(data: &[u8]) -> (r: bool)
    ensures
        r == ends_with_newline(data@),
{
    data.len() > 0 && data[data.len() - 1] == NEWLINE
}

/// The lines of `data`.
pub fn data_lines(data: &[u8]) -> (r: Vec<Vec<u8>>)
    ensures
        text_of(r@) == lines_of(data@),
        r@.len() >= 1,
{
    let mut r = split_data(data);
    proof {
        lemma_split_len(data@);
    }
    if has_final_newline(data) {
        let ghost before = r@;
        let _ = r.pop();
        assert(text_of(r@) =~= text_of(before).drop_last());
    }
    r
}

/// Writes the lines out.
pub fn serialize_lines(lines: &Vec<Vec<u8>>, trailing: bool) -> (r: Vec<u8>)
    ensures
        r@ == serialize(text_of(lines@), trailing),
{
    let ghost text = text_of(lines@);
    let mut data: Vec<u8> = Vec::new();
    let mut i: usize = 0;
    assert(text.subrange(0, 0) =~= Seq::<Seq<u8>>::empty());
    while i < lines.len()
        invariant
            i <= lines@.len(),
            text == text_of(lines@),
            0 < i < lines@.len() ==> data@ == join_lines(text.subrange(0, i as int)).push(NEWLINE),
            i == 0 ==> data@ == Seq::<u8>::empty(),
            i == lines@.len() ==> data@ == serialize(text, trailing),
        decreases lines@.len() - i,
    {
        push_all(&mut data, &lines[i]);
        let ghost part = text.subrange(0, i + 1);
        assert(part.drop_last() =~= text.subrange(0, i as int));
        assert(data@ =~= join_lines(part));
        if i + 1 == lines.len() {
            assert(part =~= text);
        }
        if i + 1 < lines.len() || trailing {
            data.push(NEWLINE);
        }
        i += 1;
    }
    assert(lines@.len() == 0 ==> data@ =~= serialize(text, trailing));
    data
}

/// The number of bytes that the lines take, each with its newline.
pub fn serialized_lines_len(lines: &Vec<Vec<u8>>) -> (r: u128)
    ensures
        r == serialized_len(text_of(lines@)),
{
    let ghost text = text_of(lines@);
    let mut total: u128 = 0;
    let mut i: usize = 0;
    assert(text.subrange(0, 0) =~= Seq::<Seq<u8>>::empty());
    while i < lines.len()
        invariant
            i <= lines@.len(),
            text == text_of(lines@),
            total == serialized_len(text.subrange(0, i as int)),
            total <= i * 0x1_0000_0000_0000_0000,
        decreases lines@.len() - i,
    {
        let ghost part = text.subrange(0, i + 1);
        assert(part.drop_last() =~= text.subrange(0, i as int));
        assert(i * 0x1_0000_0000_0000_0000 <= 0xffff_ffff_ffff_fffe * 0x1_0000_0000_0000_0000)
            by (nonlinear_arith)
            requires
                i <= 0xffff_ffff_ffff_fffe,
        ;
        let length: usize = lines[i].len();
        total = total + length as u128 + 1;
        i += 1;
    }
    assert(text.subrange(0, lines@.len() as int) =~= text);
    total
}

/// The number of bytes before line `row`, where each line takes its length and
/// one more for its newline.
pub open spec fn offset_of_line(lines: Seq<Seq<u8>>, row: int) -> int {
    serialized_len(lines.subrange(0, row))
}

/// The number of bytes of the lines before `row`, each with its newline.
pub fn offset_before(lines: &Vec<Vec<u8>>, row: usize) -> (r: u128)
    requires
        row <= lines@.len(),
    ensures
        r == offset_of_line(text_of(lines@), row as int),
        r <= row * 0x1_0000_0000_0000_0000,
{
    let ghost text = text_of(lines@);
    let mut total: u128 = 0;
    let mut i: usize = 0;
    assert(text.subrange(0, 0) =~= Seq::<Seq<u8>>::empty());
    while i < row
        invariant
            i <= row <= lines@.len(),
            text == text_of(lines@),
            total == serialized_len(text.subrange(0, i as int)),
            total <= i * 0x1_0000_0000_0000_0000,
        decreases row - i,
    {
        let ghost part = text.subrange(0, i + 1);
        assert(part.drop_last() =~= text.subrange(0, i as int));
        assert(i * 0x1_0000_0000_0000_0000 <= 0xffff_ffff_ffff_fffe * 0x1_0000_0000_0000_0000)
            by (nonlinear_arith)
            requires
                i <= 0xffff_ffff_ffff_fffe,
        ;
        let length: usize = lines[i].len();
        total = total + length as u128 + 1;
        i += 1;
    }
    total
}

/// The number of lines that a file with these bytes has.
pub fn line_count(data: &[u8]) -> (r: usize)
    ensures
        r == line_count_of(data@),
{
    if data.len() == 0 {
        return 0;
    }
    let pieces = split_data(data);
    proof {
        lemma_split_len(data@);
        assert(text_of(pieces@).len() == pieces@.len());
    }
    if has_final_newline(data) {
        pieces.len() - 1
    } else {
        pieces.len()
    }
}

} // verus!
