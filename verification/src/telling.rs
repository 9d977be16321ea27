//! What the messages tell, said of the text and of what was done.
use crate::counting::{going, lemma_doubled, lemma_settled};
use crate::editor::{EditorView, Operator};
use crate::filing::lemma_lines_written_in_order;
use crate::history::EditView;
use crate::messages::{edit_message, file_message, literal_byte, literal_bytes, undo_message, Mode};
use crate::strings::{decimal, decimal_bytes};
use crate::text::{
    lemma_lines_of_serialize, line_count_of, lines_of, newline_free, serialize, serialized_len,
};
use vstd::prelude::*;
use vstd::string::*;

verus! {

/// The bytes that are counted for lines are the ones that are written for them,
/// the newlines with them.
pub proof fn lemma_counted_bytes_are_written(lines: Seq<Seq<u8>>)
    ensures
        serialized_len(lines) == serialize(lines, true).len(),
    decreases lines.len(),
{
    if lines.len() > 0 {
        let fewer = lines.drop_last();
        lemma_counted_bytes_are_written(fewer);
        lemma_lines_written_in_order(fewer, lines.last());
        assert(fewer.push(lines.last()) =~= lines);
    } else {
        lemma_lines_written_in_order(lines, Seq::empty());
        assert(lines =~= Seq::<Seq<u8>>::empty());
    }
}

/// The message about a file tells its name in quotes, the number of its lines
/// and the number of its bytes, and whether it is new or not to be written.
pub proof fn lemma_file_is_told(
    name: Seq<char>,
    lines: Seq<Seq<u8>>,
    new_file: bool,
    readonly: bool,
)
    requires
        lines.len() > 0,
        newline_free(lines),
    ensures
        ({
            let data = serialize(lines, true);
            let counts = " "@ + decimal(lines.len() as int) + "L, "@ + decimal(
                data.len() as int,
            ) + "C"@;
            &&& !new_file && !readonly ==> file_message(name, data, new_file, readonly) == "'"@
                + name + "'"@ + counts
            &&& new_file && !readonly ==> file_message(name, data, new_file, readonly) == "'"@
                + name + "'"@ + " [New file]"@ + counts
            &&& !new_file && readonly ==> file_message(name, data, new_file, readonly) == "'"@
                + name + "'"@ + " [Readonly]"@ + counts
            &&& new_file && readonly ==> file_message(name, data, new_file, readonly) == "'"@
                + name + "'"@ + " [New file]"@ + " [Readonly]"@ + counts
        }),
{
    let data = serialize(lines, true);
    lemma_lines_of_serialize(lines, true);
    assert(line_count_of(data) == lines_of(data).len());
    let counts = " "@ + decimal(lines.len() as int) + "L, "@ + decimal(data.len() as int) + "C"@;
    let told = file_message(name, data, new_file, readonly);
    if !new_file && !readonly {
        assert(told =~= "'"@ + name + "'"@ + counts);
    } else if new_file && !readonly {
        assert(told =~= "'"@ + name + "'"@ + " [New file]"@ + counts);
    } else if !new_file {
        assert(told =~= "'"@ + name + "'"@ + " [Readonly]"@ + counts);
    } else {
        assert(told =~= "'"@ + name + "'"@ + " [New file]"@ + " [Readonly]"@ + counts);
    }
}

/// Yanking or deleting whole lines by a number and a doubled operator tells how
/// many lines there were, how many bytes they take, and the register.
pub proof fn lemma_moved_lines_are_told(editor: EditorView, n: nat, key: u8)
    requires
        editor.wf(),
        editor.at_rest(),
        1 <= n,
        editor.doc.row + n <= editor.doc.lines.len(),
        key == 121 || key == 100,
        editor.registers.selected is None,
    ensures
        ({
            let after = editor.after_keys(decimal_bytes(n) + seq![key, key]);
            let lines = editor.doc.lines.subrange(editor.doc.row, editor.doc.row + n);
            &&& after.message.text == (if key == 121 {
                "Yank"@
            } else {
                "Delete"@
            }) + " "@ + decimal(n as int) + " lines ("@ + decimal(
                serialize(lines, true).len() as int,
            ) + " chars) from ["@ + seq!['D'] + "]"@
            &&& !after.message.highlighted
        }),
{
    let lines = editor.doc.lines.subrange(editor.doc.row, editor.doc.row + n);
    lemma_doubled(editor, n, key);
    lemma_counted_bytes_are_written(lines);
    reveal(EditorView::operated_lines);
    let op = if key == 121 {
        Operator::Yank
    } else {
        Operator::Delete
    };
    let done = going(editor).operated_count(op, n as int, None);
    lemma_settled(done);
    assert(lines.len() == n);
}

/// Taking back a text that was put into a line tells how many bytes are
/// deleted, and where: how many bytes stand before it in the whole text. Taking
/// back a deletion tells how many are restored.
pub proof fn lemma_undo_is_told(
    lines: Seq<Seq<u8>>,
    row: int,
    at: int,
    bytes: Seq<u8>,
    left: int,
)
    requires
        0 <= row < lines.len() <= isize::MAX,
        0 <= at <= lines[row].len() <= isize::MAX,
        0 < bytes.len() <= isize::MAX,
    ensures
        ({
            let none = Seq::<u8>::empty();
            let put = EditView::Bytes { row, start: at, removed: none, inserted: bytes };
            let cut = EditView::Bytes { row, start: at, removed: bytes, inserted: none };
            let place = serialize(lines.subrange(0, row), true).len() + at;
            &&& undo_message(seq![put], lines, left) == "Undo ["@ + decimal(left + 1) + "] "@
                + "deleted"@ + " "@ + decimal(bytes.len() as int) + " chars at position "@
                + decimal(place)
            &&& undo_message(seq![cut], lines, left) == "Undo ["@ + decimal(left + 1) + "] "@
                + "restored"@ + " "@ + decimal(bytes.len() as int) + " chars at position "@
                + decimal(place)
        }),
{
    let none = Seq::<u8>::empty();
    let put = EditView::Bytes { row, start: at, removed: none, inserted: bytes };
    let cut = EditView::Bytes { row, start: at, removed: bytes, inserted: none };
    lemma_counted_bytes_are_written(lines.subrange(0, row));
    assert(seq![put].drop_last() =~= Seq::<EditView>::empty());
    assert(seq![cut].drop_last() =~= Seq::<EditView>::empty());
    reveal_with_fuel(crate::messages::extent_of, 2);
}

/// `:list` shows the bytes of a line one after the other: a printable byte as
/// itself, and a control byte as a caret and the letter of its key.
pub proof fn lemma_bytes_are_listed(line: Seq<u8>, byte: u8)
    ensures
        literal_bytes(line.push(byte)) == literal_bytes(line) + literal_byte(byte),
        literal_bytes(Seq::empty()) == Seq::<u8>::empty(),
        32 <= byte < 127 ==> literal_byte(byte) == seq![byte],
        byte < 32 ==> literal_byte(byte) == seq![94u8, (byte + 64) as u8],
        byte == 127 ==> literal_byte(byte) == seq![94u8, 63u8],
{
    assert(line.push(byte).drop_last() =~= line);
}

/// The status line tells the mode by a letter, the name of the file, whether it
/// is not to be written or modified, and the number of the line of the cursor,
/// counted from 1, among all of them, also in percent.
pub proof fn lemma_place_is_told(name: Seq<char>, row: int, count: int)
    requires
        0 <= row < count,
    ensures
        ({
            let place = " "@ + decimal(row + 1) + "/"@ + decimal(count) + " "@ + decimal(
                (row + 1) * 100 / count,
            ) + "%"@;
            &&& edit_message(Mode::Command, Some(name), false, false, row, count) == seq!['-']
                + " "@ + name + place
            &&& edit_message(Mode::Insert, Some(name), false, false, row, count) == seq!['I']
                + " "@ + name + place
            &&& edit_message(Mode::Replace, Some(name), false, false, row, count) == seq!['R']
                + " "@ + name + place
            &&& edit_message(Mode::Command, None, false, false, row, count) == seq!['-'] + " "@
                + "No file"@ + place
            &&& edit_message(Mode::Command, Some(name), true, false, row, count) == seq!['-']
                + " "@ + name + " [Readonly]"@ + place
            &&& edit_message(Mode::Command, Some(name), false, true, row, count) == seq!['-']
                + " "@ + name + " [Modified]"@ + place
        }),
{
    let place = " "@ + decimal(row + 1) + "/"@ + decimal(count) + " "@ + decimal(
        (row + 1) * 100 / count,
    ) + "%"@;
    assert(edit_message(Mode::Command, Some(name), false, false, row, count) =~= seq!['-'] + " "@
        + name + place);
    assert(edit_message(Mode::Insert, Some(name), false, false, row, count) =~= seq!['I'] + " "@
        + name + place);
    assert(edit_message(Mode::Replace, Some(name), false, false, row, count) =~= seq!['R'] + " "@
        + name + place);
    assert(edit_message(Mode::Command, None, false, false, row, count) =~= seq!['-'] + " "@
        + "No file"@ + place);
    assert(edit_message(Mode::Command, Some(name), true, false, row, count) =~= seq!['-'] + " "@
        + name + " [Readonly]"@ + place);
    assert(edit_message(Mode::Command, Some(name), false, true, row, count) =~= seq!['-'] + " "@
        + name + " [Modified]"@ + place);
}

} // verus!
