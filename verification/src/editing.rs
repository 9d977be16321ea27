//! What commands make of the text, said of the keys and the lines.
use crate::changes::{lemma_key_resumes, lemma_one_key, lemma_two_keys};
use crate::counting::{going, lemma_counted, lemma_settled, lemma_uncounted};
use crate::editor::{Await, EditorView, Operator};
use crate::messages::Mode;
use crate::moving::within_line;
use crate::strings::decimal_bytes;
use vstd::prelude::*;

verus! {

/// Whether the line of the cursor is another one, the other lines are as they
/// were, and the editor waits for the next command.
pub open spec fn line_made(before: EditorView, after: EditorView, line: Seq<u8>) -> bool {
    &&& after.at_rest()
    &&& after.doc.lines == before.doc.lines.update(before.doc.row, line)
    &&& after.doc.row == before.doc.row
}

/// A number and `x` delete so many bytes from the cursor on, as far as the line
/// reaches, and keep them to be put; `D` does so with the rest of the line.
pub proof fn lemma_bytes_are_deleted(editor: EditorView, n: nat)
    requires
        editor.wf(),
        editor.at_rest(),
        1 <= n,
        editor.doc.col + n <= editor.doc.line().len(),
    ensures
        ({
            let line = editor.doc.line();
            let col = editor.doc.col;
            let after = editor.after_keys(decimal_bytes(n) + seq![120u8]);
            let rest = editor.after_keys(seq![68u8]);
            let shorter = line.subrange(0, col) + line.subrange(col + n, line.len() as int);
            &&& line_made(editor, after, shorter)
            &&& after.doc.col == within_line(shorter, col)
            &&& after.registers.yank.lines == seq![line.subrange(col, col + n)]
            &&& !after.registers.yank.linewise
            &&& line_made(editor, rest, line.subrange(0, col))
            &&& rest.registers.yank.lines == seq![line.subrange(col, line.len() as int)]
            &&& !rest.registers.yank.linewise
        }),
{
    let line = editor.doc.line();
    let col = editor.doc.col;
    lemma_counted(editor, n, 120);
    lemma_uncounted(editor, 68);
    reveal(EditorView::settled);
    reveal(EditorView::text_changed);
    assert(line.subrange(col, col + n).len() > 0);
    assert(line.subrange(col, line.len() as int).len() > 0);
    assert(crate::bytes::splice(line, col, col + n, Seq::empty()) =~= line.subrange(0, col)
        + line.subrange(col + n, line.len() as int));
    assert(crate::bytes::splice(line, col, line.len() as int, Seq::empty()) =~= line.subrange(
        0,
        col,
    ));
}

/// `X` deletes the byte before the cursor, and the cursor stays on its byte.
pub proof fn lemma_byte_before_is_deleted(editor: EditorView)
    requires
        editor.wf(),
        editor.at_rest(),
        0 < editor.doc.col <= editor.doc.line().len(),
    ensures
        ({
            let line = editor.doc.line();
            let col = editor.doc.col;
            let after = editor.after_keys(seq![88u8]);
            &&& line_made(
                editor,
                after,
                line.subrange(0, col - 1) + line.subrange(col, line.len() as int),
            )
            &&& after.doc.col == col - 1
        }),
{
    let line = editor.doc.line();
    let col = editor.doc.col;
    lemma_uncounted(editor, 88);
    reveal(EditorView::settled);
    reveal(EditorView::text_changed);
    assert(line.subrange(col - 1, col).len() == 1);
    assert(crate::bytes::splice(line, col - 1, col, Seq::empty()) =~= line.subrange(0, col - 1)
        + line.subrange(col, line.len() as int));
}

/// A letter in the other case.
pub open spec fn case_changed(byte: u8) -> u8 {
    if 97 <= byte <= 122 {
        (byte - 32) as u8
    } else if 65 <= byte <= 90 {
        (byte + 32) as u8
    } else {
        byte
    }
}

proof fn lemma_case(doc: crate::document::DocView, count: int)
    requires
        0 <= doc.row < doc.lines.len(),
        0 <= doc.col,
        count >= 0,
        doc.pending is Some,
    ensures
        ({
            let line = doc.line();
            let after = doc.case_switched(count);
            &&& after.pending is Some
            &&& after.row == doc.row
            &&& after.lines == doc.lines.update(doc.row, after.line())
            &&& after.line().len() == line.len()
            &&& doc.col + count <= line.len() ==> forall|i: int|
                0 <= i < line.len() ==> #[trigger] after.line()[i] == (if doc.col <= i < doc.col
                    + count {
                    case_changed(line[i])
                } else {
                    line[i]
                })
        }),
    decreases count,
{
    let line = doc.line();
    if count > 0 && doc.col < line.len() {
        let byte = line[doc.col];
        let new = seq![crate::edits::other_case(byte)];
        let switched = doc.bytes_replaced(doc.row, doc.col, doc.col + 1, new);
        let made = line.update(doc.col, crate::edits::other_case(byte));
        assert(crate::bytes::splice(line, doc.col, doc.col + 1, new) =~= made);
        if line.subrange(doc.col, doc.col + 1) == new {
            assert(line.subrange(doc.col, doc.col + 1)[0] == new[0]);
            assert(made =~= line);
            assert(doc.lines.update(doc.row, made) =~= doc.lines);
        }
        assert(switched.lines == doc.lines.update(doc.row, made));
        let next = crate::document::DocView {
            col: crate::bytes::imin(doc.col + 1, crate::bytes::less(line.len() as int, 1)),
            ..switched
        };
        lemma_case(next, count - 1);
        let after = doc.case_switched(count);
        assert(after == next.case_switched(count - 1));
        assert(after.lines =~= doc.lines.update(doc.row, after.line()));
    } else {
        assert(doc.lines.update(doc.row, line) =~= doc.lines);
    }
}

/// A number and `~` change the case of so many bytes from the cursor on, and of
/// no other ones.
pub proof fn lemma_case_is_changed(editor: EditorView, n: nat)
    requires
        editor.wf(),
        editor.at_rest(),
        1 <= n,
        editor.doc.col + n <= editor.doc.line().len(),
    ensures
        ({
            let line = editor.doc.line();
            let col = editor.doc.col;
            line_made(
                editor,
                editor.after_keys(decimal_bytes(n) + seq![126u8]),
                Seq::new(
                    line.len(),
                    |i: int|
                        if col <= i < col + n {
                            case_changed(line[i])
                        } else {
                            line[i]
                        },
                ),
            )
        }),
{
    let line = editor.doc.line();
    let col = editor.doc.col;
    lemma_counted(editor, n, 126);
    reveal(EditorView::settled);
    reveal(EditorView::text_changed);
    let begun = editor.doc.begun();
    lemma_case(begun, n as int);
    let made = Seq::new(
        line.len(),
        |i: int|
            if col <= i < col + n {
                case_changed(line[i])
            } else {
                line[i]
            },
    );
    assert(begun.case_switched(n as int).line() =~= made);
}

/// A number, `r` and a character put the character in place of so many bytes.
pub proof fn lemma_bytes_are_overwritten(editor: EditorView, n: nat, key: u8)
    requires
        editor.wf(),
        editor.at_rest(),
        1 <= n,
        editor.doc.col + n <= editor.doc.line().len(),
        32 <= key < 127,
    ensures
        ({
            let line = editor.doc.line();
            let col = editor.doc.col;
            line_made(
                editor,
                editor.after_keys(decimal_bytes(n) + seq![114u8, key]),
                Seq::new(
                    line.len(),
                    |i: int|
                        if col <= i < col + n {
                            key
                        } else {
                            line[i]
                        },
                ),
            )
        }),
{
    let line = editor.doc.line();
    let col = editor.doc.col;
    let quiet = going(editor);
    let waiting = quiet.awaiting(Await::Replace { count: n as usize });
    assert(quiet.dispatched(114, n as int, editor.registers.selected) == waiting);
    lemma_settled(waiting);
    crate::counting::lemma_counted_pair(editor, n, 114, key);
    lemma_key_resumes(waiting, key);
    reveal(EditorView::resumed);
    assert(waiting.awaiting(Await::Nothing) == quiet);
    reveal(EditorView::settled);
    let new = Seq::new(n, |i: int| key);
    let made = Seq::new(
        line.len(),
        |i: int|
            if col <= i < col + n {
                key
            } else {
                line[i]
            },
    );
    assert(crate::bytes::splice(line, col, col + n, new) =~= made);
    if line.subrange(col, col + n) == new {
        assert(made =~= line) by {
            assert forall|i: int| 0 <= i < line.len() implies made[i] == line[i] by {
                if col <= i < col + n {
                    assert(line.subrange(col, col + n)[i - col] == new[i - col]);
                }
            }
        }
        assert(editor.doc.lines.update(editor.doc.row, made) =~= editor.doc.lines);
    }
}

/// `J` joins the line with the next one, with one space between them where the
/// line is not empty.
pub proof fn lemma_lines_are_joined(editor: EditorView)
    requires
        editor.wf(),
        editor.at_rest(),
        editor.doc.row + 1 < editor.doc.lines.len(),
    ensures
        ({
            let lines = editor.doc.lines;
            let row = editor.doc.row;
            let line = lines[row];
            let space = if line.len() > 0 {
                seq![32u8]
            } else {
                Seq::empty()
            };
            let after = editor.after_keys(seq![74u8]);
            &&& after.at_rest()
            &&& after.doc.lines == lines.subrange(0, row) + seq![line + space + lines[row + 1]]
                + lines.subrange(row + 2, lines.len() as int)
            &&& after.doc.row == row
        }),
{
    let lines = editor.doc.lines;
    let row = editor.doc.row;
    lemma_uncounted(editor, 74);
    reveal(EditorView::settled);
    reveal(EditorView::text_changed);
    assert(lines.subrange(row, row + 2).len() == 2);
}

proof fn lemma_shifted(
    doc: crate::document::DocView,
    row: int,
    end: int,
    right: bool,
    tabstop: int,
)
    requires
        0 <= row,
        end <= doc.lines.len(),
        doc.pending is Some,
    ensures
        ({
            let after = doc.rows_shifted(row, end, right, tabstop);
            &&& after.pending is Some
            &&& after.row == doc.row
            &&& after.lines.len() == doc.lines.len()
            &&& forall|i: int|
                0 <= i < doc.lines.len() ==> #[trigger] after.lines[i] == (if row <= i < end {
                    crate::edits::shifted_line(doc.lines[i], right, tabstop)
                } else {
                    doc.lines[i]
                })
        }),
    decreases end - row,
{
    if row < end {
        let line = doc.lines[row];
        let new = crate::edits::shifted_line(line, right, tabstop);
        let next = doc.bytes_replaced(row, 0, line.len() as int, new);
        assert(crate::bytes::splice(line, 0, line.len() as int, new) =~= new);
        assert(line.subrange(0, line.len() as int) =~= line);
        lemma_shifted(next, row + 1, end, right, tabstop);
    }
}

/// A number and `>>` put a tab before each of so many lines.
pub proof fn lemma_lines_are_shifted(editor: EditorView, n: nat)
    requires
        editor.wf(),
        editor.at_rest(),
        1 <= n,
        editor.doc.row + n <= editor.doc.lines.len(),
    ensures
        ({
            let lines = editor.doc.lines;
            let row = editor.doc.row;
            let after = editor.after_keys(decimal_bytes(n) + seq![62u8, 62]);
            &&& after.at_rest()
            &&& after.doc.lines.len() == lines.len()
            &&& forall|i: int|
                0 <= i < lines.len() ==> #[trigger] after.doc.lines[i] == (if row <= i < row + n {
                    seq![9u8] + lines[i]
                } else {
                    lines[i]
                })
        }),
{
    lemma_shift_keys(editor, n, 62);
    lemma_shifted(
        editor.doc.begun(),
        editor.doc.row,
        editor.doc.row + n,
        true,
        editor.options.tabstop as int,
    );
}

proof fn lemma_shift_keys(editor: EditorView, n: nat, key: u8)
    requires
        editor.wf(),
        editor.at_rest(),
        1 <= n,
        editor.doc.row + n <= editor.doc.lines.len(),
        key == 62 || key == 60,
    ensures
        ({
            let after = editor.after_keys(decimal_bytes(n) + seq![key, key]);
            &&& after.at_rest()
            &&& after.doc.lines == editor.doc.begun().rows_shifted(
                editor.doc.row,
                editor.doc.row + n,
                key == 62,
                editor.options.tabstop as int,
            ).lines
        }),
{
    let quiet = going(editor);
    let waiting = quiet.awaiting(Await::Shift { right: key == 62, count: n as usize });
    assert(quiet.dispatched(key, n as int, editor.registers.selected) == waiting);
    lemma_settled(waiting);
    crate::counting::lemma_counted_pair(editor, n, key, key);
    lemma_key_resumes(waiting, key);
    reveal(EditorView::resumed);
    assert(waiting.awaiting(Await::Nothing) == quiet);
    reveal(EditorView::settled);
    lemma_shifted(
        editor.doc.begun(),
        editor.doc.row,
        editor.doc.row + n,
        key == 62,
        editor.options.tabstop as int,
    );
}

proof fn lemma_leading(line: Seq<u8>, at: int)
    requires
        0 <= at <= line.len(),
    ensures
        ({
            let end = crate::edits::leading_spaces(line, at);
            &&& at <= end <= line.len()
            &&& forall|i: int| at <= i < end ==> #[trigger] line[i] == 32
            &&& end < line.len() ==> line[end] != 32
        }),
    decreases line.len() - at,
{
    if at < line.len() && line[at] == 32 {
        lemma_leading(line, at + 1);
    }
}

/// A number and `<<` take a tab away from the start of each of so many lines,
/// or the spaces there, at most as many as a tab stop has columns.
pub proof fn lemma_lines_are_shifted_back(editor: EditorView, n: nat, at: int)
    requires
        editor.wf(),
        editor.at_rest(),
        1 <= n,
        editor.doc.row + n <= editor.doc.lines.len(),
        0 <= at < editor.doc.lines.len(),
    ensures
        ({
            let line = editor.doc.lines[at];
            let after = editor.after_keys(decimal_bytes(n) + seq![60u8, 60]);
            let new = after.doc.lines[at];
            let gone = line.len() - new.len();
            &&& after.at_rest()
            &&& after.doc.lines.len() == editor.doc.lines.len()
            &&& !(editor.doc.row <= at < editor.doc.row + n) ==> new == line
            &&& editor.doc.row <= at < editor.doc.row + n && line.len() > 0 && line[0] == 9 ==> line
                == seq![9u8] + new
            &&& editor.doc.row <= at < editor.doc.row + n && !(line.len() > 0 && line[0] == 9) ==> {
                &&& 0 <= gone <= editor.options.tabstop
                &&& new == line.subrange(gone, line.len() as int)
                &&& forall|i: int| 0 <= i < gone ==> #[trigger] line[i] == 32
                &&& gone < editor.options.tabstop && gone < line.len() ==> line[gone] != 32
            }
        }),
{
    let line = editor.doc.lines[at];
    lemma_shift_keys(editor, n, 60);
    lemma_shifted(
        editor.doc.begun(),
        editor.doc.row,
        editor.doc.row + n,
        false,
        editor.options.tabstop as int,
    );
    lemma_leading(line, 0);
    if line.len() > 0 && line[0] == 9 {
        assert(line =~= seq![9u8] + line.subrange(1, line.len() as int));
    }
}

/// Bytes that were deleted or yanked are put behind the cursor by `p`, and
/// before it by `P`, in one piece.
pub proof fn lemma_bytes_are_put(editor: EditorView, bytes: Seq<u8>)
    requires
        editor.wf(),
        editor.at_rest(),
        editor.registers.selected is None,
        !editor.registers.yank.linewise,
        editor.registers.yank.lines == seq![bytes],
        bytes.len() > 0,
        editor.doc.col < editor.doc.line().len(),
    ensures
        ({
            let line = editor.doc.line();
            let col = editor.doc.col;
            let size = line.len() as int;
            &&& line_made(
                editor,
                editor.after_keys(seq![112u8]),
                line.subrange(0, col + 1) + bytes + line.subrange(col + 1, size),
            )
            &&& line_made(
                editor,
                editor.after_keys(seq![80u8]),
                line.subrange(0, col) + bytes + line.subrange(col, size),
            )
        }),
{
    let line = editor.doc.line();
    let col = editor.doc.col;
    lemma_uncounted(editor, 112);
    lemma_uncounted(editor, 80);
    reveal(EditorView::settled);
    reveal(EditorView::text_changed);
    assert(editor.registers.yank.lines[0] == bytes);
    assert(line.subrange(col, col) =~= Seq::<u8>::empty());
    assert(line.subrange(col + 1, col + 1) =~= Seq::<u8>::empty());
}

/// Whether a key is a motion that leads somewhere within the line.
pub open spec fn moves_within(key: u8) -> bool {
    key == 104 || key == 108 || key == 119 || key == 101 || key == 98 || key == 48 || key == 94
        || key == 36
}

proof fn lemma_operator_keys(editor: EditorView, key: u8, motion: u8)
    requires
        editor.at_rest(),
        key == 100 || key == 121 || key == 99,
        motion != 27,
    ensures
        editor.after_keys(seq![key, motion]) == going(editor).operator_key(
            crate::commands::operator_of(key),
            1,
            editor.registers.selected,
            motion,
        ).settled(),
{
    let quiet = going(editor);
    let op = crate::commands::operator_of(key);
    let waiting = quiet.awaiting(
        Await::Operator { op, count: 1, register: editor.registers.selected },
    );
    lemma_uncounted(editor, key);
    lemma_one_key(editor, key);
    lemma_settled(waiting);
    assert(editor.pressed(key) == waiting);
    lemma_two_keys(editor, key, motion);
    lemma_key_resumes(waiting, motion);
    reveal(EditorView::resumed);
    assert(waiting.awaiting(Await::Nothing) == quiet);
}

/// `d` and a motion within the line delete the bytes from the cursor to where
/// the motion leads, both ends among them, and keep them to be put; `y` and the
/// motion keep them and leave the text alone, and `c` deletes them and goes on
/// with typing.
pub proof fn lemma_operator_takes_motion(editor: EditorView, motion: u8)
    requires
        editor.wf(),
        editor.at_rest(),
        editor.doc.col < editor.doc.line().len(),
        moves_within(motion),
    ensures
        ({
            let line = editor.doc.line();
            let col = editor.doc.col;
            let to = editor.after_keys(seq![motion]).doc.col;
            let first = if to < col {
                to
            } else {
                col
            };
            let last = if to < col {
                col
            } else {
                to
            };
            let cut = line.subrange(0, first) + line.subrange(last + 1, line.len() as int);
            let deleted = editor.after_keys(seq![100u8, motion]);
            let yanked = editor.after_keys(seq![121u8, motion]);
            let changed = editor.after_keys(seq![99u8, motion]);
            let taken = seq![line.subrange(first, last + 1)];
            &&& line_made(editor, deleted, cut)
            &&& deleted.doc.col == within_line(cut, first)
            &&& deleted.registers.yank.lines == taken
            &&& !deleted.registers.yank.linewise
            &&& line_made(editor, yanked, line)
            &&& yanked.doc.col == col
            &&& yanked.registers.yank.lines == taken
            &&& !yanked.registers.yank.linewise
            &&& changed.doc.lines == editor.doc.lines.update(editor.doc.row, cut)
            &&& changed.registers.yank.lines == taken
            &&& changed.input.mode == Mode::Insert
        }),
{
    let line = editor.doc.line();
    let col = editor.doc.col;
    lemma_uncounted(editor, motion);
    lemma_operator_keys(editor, 100, motion);
    lemma_operator_keys(editor, 121, motion);
    lemma_operator_keys(editor, 99, motion);
    reveal(EditorView::settled);
    reveal(EditorView::operator_key);
    let quiet = going(editor);
    let (row, to) = crate::motion::motion_target(
        editor.doc.lines,
        editor.doc.row,
        col,
        motion,
        1,
    );
    assert(editor.after_keys(seq![motion]).doc.col == to);
    lemma_target_within(editor, motion);
    let first = crate::bytes::imin(col, to);
    let last = crate::bytes::imax(col, to);
    assert(line.subrange(first, last + 1).len() > 0);
    assert(crate::bytes::splice(line, first, last + 1, Seq::empty()) =~= line.subrange(0, first)
        + line.subrange(last + 1, line.len() as int));
    assert(editor.doc.lines.update(editor.doc.row, line) =~= editor.doc.lines);
}

proof fn lemma_target_within(editor: EditorView, motion: u8)
    requires
        editor.wf(),
        editor.doc.col < editor.doc.line().len(),
        moves_within(motion),
    ensures
        ({
            let (row, to) = crate::motion::motion_target(
                editor.doc.lines,
                editor.doc.row,
                editor.doc.col,
                motion,
                1,
            );
            &&& row == editor.doc.row
            &&& 0 <= to < editor.doc.line().len()
        }),
{
    reveal_with_fuel(crate::motion::word_steps, 2);
    crate::moving::lemma_steps_within(editor.doc.line(), editor.doc.col);
}

/// `d` and a motion to another line delete the lines from the one of the cursor
/// to that one, both among them, and keep them to be put; `y` and the motion
/// keep them and leave the text alone. This is said of `j`, `k` and `G`.
pub proof fn lemma_operator_takes_lines(editor: EditorView, motion: u8)
    requires
        editor.wf(),
        editor.at_rest(),
        motion == 106 || motion == 107 || motion == 71,
        editor.after_keys(seq![motion]).doc.row != editor.doc.row,
    ensures
        ({
            let lines = editor.doc.lines;
            let row = editor.doc.row;
            let to = editor.after_keys(seq![motion]).doc.row;
            let first = if to < row {
                to
            } else {
                row
            };
            let last = if to < row {
                row
            } else {
                to
            };
            let left = lines.subrange(0, first) + lines.subrange(last + 1, lines.len() as int);
            let deleted = editor.after_keys(seq![100u8, motion]);
            let yanked = editor.after_keys(seq![121u8, motion]);
            &&& deleted.at_rest()
            &&& deleted.doc.lines == (if left.len() == 0 {
                seq![Seq::<u8>::empty()]
            } else {
                left
            })
            &&& deleted.registers.yank.lines == lines.subrange(first, last + 1)
            &&& deleted.registers.yank.linewise
            &&& yanked.at_rest()
            &&& yanked.doc.lines == lines
            &&& yanked.doc.row == row
            &&& yanked.registers.yank.lines == lines.subrange(first, last + 1)
            &&& yanked.registers.yank.linewise
        }),
{
    lemma_row_of_motion(editor, motion);
    let row = editor.doc.row;
    let to = editor.after_keys(seq![motion]).doc.row;
    let first = crate::bytes::imin(row, to);
    let last = crate::bytes::imax(row, to);
    lemma_lines_operated(editor, 100, motion, first, last);
    lemma_lines_operated(editor, 121, motion, first, last);
}

/// Where the motions to another line lead.
proof fn lemma_row_of_motion(editor: EditorView, motion: u8)
    requires
        editor.wf(),
        editor.at_rest(),
        motion == 106 || motion == 107 || motion == 71,
    ensures
        editor.after_keys(seq![motion]).doc.row == going(editor).operator_target(motion, 1).0,
        0 <= editor.after_keys(seq![motion]).doc.row < editor.doc.lines.len(),
{
    lemma_uncounted(editor, motion);
    reveal(EditorView::settled);
    reveal(EditorView::cursor_moved);
}

proof fn lemma_lines_operated(editor: EditorView, key: u8, motion: u8, first: int, last: int)
    requires
        editor.wf(),
        editor.at_rest(),
        key == 100 || key == 121,
        motion == 106 || motion == 107 || motion == 71,
        going(editor).operator_target(motion, 1).0 != editor.doc.row,
        first == crate::bytes::imin(editor.doc.row, going(editor).operator_target(motion, 1).0),
        last == crate::bytes::imax(editor.doc.row, going(editor).operator_target(motion, 1).0),
        0 <= first < last < editor.doc.lines.len(),
    ensures
        ({
            let lines = editor.doc.lines;
            let left = lines.subrange(0, first) + lines.subrange(last + 1, lines.len() as int);
            let after = editor.after_keys(seq![key, motion]);
            &&& after.at_rest()
            &&& after.doc.lines == (if key == 121 {
                lines
            } else if left.len() == 0 {
                seq![Seq::<u8>::empty()]
            } else {
                left
            })
            &&& key == 121 ==> after.doc.row == editor.doc.row
            &&& after.registers.yank.lines == lines.subrange(first, last + 1)
            &&& after.registers.yank.linewise
        }),
{
    let lines = editor.doc.lines;
    let quiet = going(editor);
    let op = crate::commands::operator_of(key);
    let register = editor.registers.selected;
    lemma_operator_keys(editor, key, motion);
    let (row, col) = quiet.operator_target(motion, 1);
    assert(quiet.operator_key(op, 1, register, motion) == quiet.operated(op, row, col, register))
        by {
        reveal(EditorView::operator_key);
    }
    let done = quiet.operated_lines(op, first, last, register);
    assert(quiet.operated(op, row, col, register) == (EditorView {
        registers: done.registers.saved(register),
        ..done
    }));
    lemma_lines_done(quiet, op, first, last, register);
    lemma_settled(EditorView { registers: done.registers.saved(register), ..done });
}

proof fn lemma_lines_done(
    editor: EditorView,
    op: Operator,
    first: int,
    last: int,
    register: Option<u8>,
)
    requires
        editor.at_rest(),
        op == Operator::Delete || op == Operator::Yank,
        0 <= first < last < editor.doc.lines.len(),
    ensures
        ({
            let lines = editor.doc.lines;
            let left = lines.subrange(0, first) + lines.subrange(last + 1, lines.len() as int);
            let done = editor.operated_lines(op, first, last, register);
            &&& done.at_rest()
            &&& done.doc.lines == (if op == Operator::Yank {
                lines
            } else if left.len() == 0 {
                seq![Seq::<u8>::empty()]
            } else {
                left
            })
            &&& op == Operator::Yank ==> done.doc.row == editor.doc.row
            &&& done.registers.yank.lines == lines.subrange(first, last + 1)
            &&& done.registers.yank.linewise
        }),
{
    reveal(EditorView::operated_lines);
    let lines = editor.doc.lines;
    let removed = lines.subrange(first, last + 1);
    assert(removed.len() >= 2);
    let left = lines.subrange(0, first) + lines.subrange(last + 1, lines.len() as int);
    if left.len() == 0 {
        let empty = seq![Seq::<u8>::empty()];
        assert(crate::bytes::splice(lines, first, last + 1, empty) =~= empty);
    } else {
        assert(crate::bytes::splice(lines, first, last + 1, Seq::empty()) =~= left);
    }
}

} // verus!
