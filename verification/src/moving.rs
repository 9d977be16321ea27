//! Where the cursor goes, said of the keys and the text.
use crate::bytes::is_space;
use crate::changes::{lemma_key_resumes, lemma_one_key, lemma_two_keys};
use crate::counting::{going, lemma_counted, lemma_settled, lemma_uncounted};
use crate::editor::{Await, EditorView};
use crate::motion::{
    back_over_space, back_to_space, closed_at, first_nonblank_from, next_byte, opened_at,
    previous_byte, run_forward, run_to_end, word_step, word_steps, WordMotion,
};
use crate::strings::decimal_bytes;
use vstd::prelude::*;

verus! {

/// Whether nothing but the cursor is at another place, and the editor waits for
/// the next command.
pub open spec fn cursor_at(before: EditorView, after: EditorView, row: int, col: int) -> bool {
    &&& after.at_rest()
    &&& after.doc.lines == before.doc.lines
    &&& after.doc.undo == before.doc.undo
    &&& after.doc.modified == before.doc.modified
    &&& after.doc.row == row
    &&& after.doc.col == col
}

/// A column, brought back to the last byte of a line where it lies behind it.
pub open spec fn within_line(line: Seq<u8>, col: int) -> int {
    if line.len() == 0 {
        0
    } else if col >= line.len() {
        line.len() - 1
    } else {
        col
    }
}

/// A number and `h`, `l`, `j` or `k` move the cursor by so many bytes to the
/// left or to the right, or by so many lines down or up, as far as the text
/// reaches.
pub proof fn lemma_steps(editor: EditorView, n: nat)
    requires
        editor.wf(),
        editor.at_rest(),
        1 <= n <= usize::MAX,
        editor.doc.col < editor.doc.line().len() || editor.doc.col == 0,
    ensures
        ({
            let count = decimal_bytes(n);
            let lines = editor.doc.lines;
            let row = editor.doc.row;
            let col = editor.doc.col;
            let down = if row + n < lines.len() {
                row + n
            } else {
                lines.len() - 1
            };
            let up = if row >= n {
                row - n
            } else {
                0
            };
            &&& cursor_at(
                editor,
                editor.after_keys(count + seq![104u8]),
                row,
                if col >= n {
                    col - n
                } else {
                    0
                },
            )
            &&& cursor_at(
                editor,
                editor.after_keys(count + seq![108u8]),
                row,
                within_line(lines[row], col + n),
            )
            &&& cursor_at(
                editor,
                editor.after_keys(count + seq![106u8]),
                down,
                within_line(lines[down], col),
            )
            &&& cursor_at(
                editor,
                editor.after_keys(count + seq![107u8]),
                up,
                within_line(lines[up], col),
            )
        }),
{
    lemma_counted(editor, n, 104);
    lemma_counted(editor, n, 108);
    lemma_counted(editor, n, 106);
    lemma_counted(editor, n, 107);
    reveal(EditorView::settled);
}

proof fn lemma_nonblank(line: Seq<u8>, at: int)
    requires
        0 <= at <= line.len(),
        forall|i: int| 0 <= i < at ==> is_space(#[trigger] line[i]),
    ensures
        ({
            let found = first_nonblank_from(line, at);
            if found == 0 && (line.len() == 0 || is_space(line[0])) {
                forall|i: int| 0 <= i < line.len() ==> is_space(#[trigger] line[i])
            } else {
                &&& 0 <= found < line.len()
                &&& !is_space(line[found])
                &&& forall|i: int| 0 <= i < found ==> is_space(#[trigger] line[i])
            }
        }),
    decreases line.len() - at,
{
    if at < line.len() && is_space(line[at]) {
        lemma_nonblank(line, at + 1);
    }
}

/// `0`, `$` and `^` lead to the first byte of the line, to the last one, and to
/// the first one that is no space. Without such a byte `^` leads to the start.
pub proof fn lemma_ends_of_line(editor: EditorView)
    requires
        editor.wf(),
        editor.at_rest(),
    ensures
        ({
            let line = editor.doc.line();
            let row = editor.doc.row;
            let nonblank = editor.after_keys(seq![94u8]);
            &&& cursor_at(editor, editor.after_keys(seq![48u8]), row, 0)
            &&& cursor_at(
                editor,
                editor.after_keys(seq![36u8]),
                row,
                within_line(line, line.len() as int),
            )
            &&& cursor_at(editor, nonblank, row, nonblank.doc.col)
            &&& forall|at: int|
                0 <= at < line.len() && !is_space(#[trigger] line[at]) && (forall|i: int|
                    0 <= i < at ==> is_space(#[trigger] line[i])) ==> nonblank.doc.col == at
            &&& (forall|i: int| 0 <= i < line.len() ==> is_space(#[trigger] line[i]))
                ==> nonblank.doc.col == 0
        }),
{
    let line = editor.doc.line();
    lemma_uncounted(editor, 48);
    lemma_uncounted(editor, 36);
    lemma_uncounted(editor, 94);
    reveal(EditorView::settled);
    lemma_nonblank(line, 0);
    let found = first_nonblank_from(line, 0);
    assert forall|at: int|
        0 <= at < line.len() && !is_space(#[trigger] line[at]) && (forall|i: int|
            0 <= i < at ==> is_space(#[trigger] line[i])) implies found == at by {
        if at > 0 {
            assert(is_space(line[0]));
        }
    }
}

/// A number from 2 on and `G` lead to the line of that number, or to the last
/// one; `G` alone leads to the last line, and `gg` to the first byte of all.
pub proof fn lemma_line_numbers(editor: EditorView, n: nat)
    requires
        editor.wf(),
        editor.at_rest(),
        2 <= n <= usize::MAX,
    ensures
        ({
            let lines = editor.doc.lines;
            let row = if n <= lines.len() {
                n - 1
            } else {
                lines.len() - 1
            };
            let last = lines.len() - 1;
            &&& cursor_at(
                editor,
                editor.after_keys(decimal_bytes(n) + seq![71u8]),
                row,
                within_line(lines[row], editor.doc.col),
            )
            &&& cursor_at(
                editor,
                editor.after_keys(seq![71u8]),
                last,
                within_line(lines[last], editor.doc.col),
            )
            &&& cursor_at(editor, editor.after_keys(seq![103u8, 103]), 0, 0)
        }),
{
    lemma_counted(editor, n, 71);
    lemma_uncounted(editor, 71);
    reveal(EditorView::settled);
    reveal(EditorView::cursor_moved);
    let quiet = going(editor);
    let waiting = quiet.awaiting(Await::Go);
    lemma_uncounted(editor, 103);
    lemma_one_key(editor, 103);
    assert(editor.pressed(103) == waiting);
    lemma_two_keys(editor, 103, 103);
    lemma_key_resumes(waiting, 103);
    reveal(EditorView::resumed);
    reveal(EditorView::gone);
}

/// Whether a word begins at a byte: it is no space, and a space or the start of
/// the line is before it.
pub open spec fn word_begins(line: Seq<u8>, at: int) -> bool {
    0 <= at < line.len() && !is_space(line[at]) && (at == 0 || is_space(line[at - 1]))
}

/// Whether a word ends at a byte.
pub open spec fn word_ends(line: Seq<u8>, at: int) -> bool {
    0 <= at < line.len() && !is_space(line[at]) && (at + 1 == line.len() || is_space(line[at + 1]))
}

proof fn lemma_run_forward(line: Seq<u8>, col: int, space: bool)
    requires
        0 <= col < line.len(),
    ensures
        ({
            let end = run_forward(line, col, space);
            &&& col <= end < line.len()
            &&& forall|i: int| col <= i < end ==> is_space(#[trigger] line[i]) == space
            &&& end + 1 < line.len() ==> is_space(line[end]) != space
        }),
    decreases line.len() - col,
{
    if col + 1 < line.len() && is_space(line[col]) == space {
        lemma_run_forward(line, col + 1, space);
    }
}

proof fn lemma_run_to_end(line: Seq<u8>, col: int)
    requires
        0 <= col < line.len(),
    ensures
        ({
            let end = run_to_end(line, col);
            &&& col <= end < line.len()
            &&& forall|i: int| col < i <= end ==> !is_space(#[trigger] line[i])
            &&& end + 1 < line.len() ==> is_space(line[end + 1])
        }),
    decreases line.len() - col,
{
    if col + 1 < line.len() && !is_space(line[col + 1]) {
        lemma_run_to_end(line, col + 1);
    }
}

proof fn lemma_back(line: Seq<u8>, col: int)
    requires
        0 <= col < line.len(),
    ensures
        ({
            let over = back_over_space(line, col);
            let start = back_to_space(line, over);
            &&& 0 <= start <= over <= col
            &&& forall|i: int| over < i <= col ==> is_space(#[trigger] line[i])
            &&& over > 0 ==> !is_space(line[over])
        }),
    decreases col,
{
    if col > 0 && is_space(line[col]) {
        lemma_back(line, col - 1);
    } else {
        lemma_back_to(line, col);
    }
}

proof fn lemma_back_to(line: Seq<u8>, col: int)
    requires
        0 <= col < line.len(),
    ensures
        ({
            let start = back_to_space(line, col);
            &&& 0 <= start <= col
            &&& forall|i: int| start <= i < col ==> !is_space(#[trigger] line[i])
            &&& start > 0 ==> is_space(line[start - 1])
        }),
    decreases col,
{
    if col > 0 && !is_space(line[col - 1]) {
        lemma_back_to(line, col - 1);
    }
}

/// `w` leads to the next byte of the line where a word begins, or to the last
/// byte of the line; `e` to the next one where a word ends, the one under the
/// cursor among them; `b` to the one before where a word begins, or to the
/// start of the line.
pub proof fn lemma_words(editor: EditorView, at: int)
    requires
        editor.wf(),
        editor.at_rest(),
        editor.doc.col < editor.doc.line().len(),
        0 <= at < editor.doc.line().len(),
    ensures
        ({
            let line = editor.doc.line();
            let row = editor.doc.row;
            let col = editor.doc.col;
            let next = editor.after_keys(seq![119u8]);
            let end = editor.after_keys(seq![101u8]);
            let back = editor.after_keys(seq![98u8]);
            &&& cursor_at(editor, next, row, next.doc.col)
            &&& cursor_at(editor, end, row, end.doc.col)
            &&& cursor_at(editor, back, row, back.doc.col)
            &&& (col < at && word_begins(line, at) && (forall|i: int|
                col < i < at ==> !(#[trigger] word_begins(line, i)))) ==> next.doc.col == at
            &&& (forall|i: int| col < i < line.len() ==> !(#[trigger] word_begins(line, i)))
                ==> next.doc.col == line.len() - 1
            &&& (col <= at && word_ends(line, at) && (forall|i: int|
                col <= i < at ==> !(#[trigger] word_ends(line, i)))) ==> end.doc.col == at
            &&& (at < col && word_begins(line, at) && (forall|i: int|
                at < i < col ==> !(#[trigger] word_begins(line, i)))) ==> back.doc.col == at
            &&& (forall|i: int| 0 <= i < col ==> !(#[trigger] word_begins(line, i)))
                ==> back.doc.col == 0
        }),
{
    let line = editor.doc.line();
    let col = editor.doc.col;
    lemma_uncounted(editor, 119);
    lemma_uncounted(editor, 101);
    lemma_uncounted(editor, 98);
    reveal(EditorView::settled);
    reveal_with_fuel(word_steps, 2);
    lemma_next_word(line, col, at);
    lemma_word_end(line, col, at);
    lemma_word_back(line, col, at);
}

proof fn lemma_next_word(line: Seq<u8>, col: int, at: int)
    requires
        0 <= col < line.len(),
        0 <= at < line.len(),
    ensures
        ({
            let next = word_step(line, col, WordMotion::Next);
            &&& col <= next < line.len()
            &&& (col < at && word_begins(line, at) && (forall|i: int|
                col < i < at ==> !(#[trigger] word_begins(line, i)))) ==> next == at
            &&& (forall|i: int| col < i < line.len() ==> !(#[trigger] word_begins(line, i)))
                ==> next == line.len() - 1
        }),
{
    let over = run_forward(line, col, false);
    let next = run_forward(line, over, true);
    lemma_run_forward(line, col, false);
    lemma_run_forward(line, over, true);
    if next + 1 < line.len() {
        assert(!is_space(line[next]));
        assert(is_space(line[over]));
        assert(next > over);
        assert(is_space(line[next - 1]));
        assert(word_begins(line, next));
    }
    if col < at && word_begins(line, at) && forall|i: int|
        col < i < at ==> !(#[trigger] word_begins(line, i)) {
        if next < at {
            assert(next + 1 < line.len());
            assert(word_begins(line, next));
        } else if at < next {
            if at <= over {
                assert(!is_space(line[at - 1]));
            } else {
                assert(is_space(line[at]));
            }
        }
    }
}

proof fn lemma_word_end(line: Seq<u8>, col: int, at: int)
    requires
        0 <= col < line.len(),
        0 <= at < line.len(),
    ensures
        ({
            let end = word_step(line, col, WordMotion::End);
            &&& col <= end < line.len()
            &&& (col <= at && word_ends(line, at) && (forall|i: int|
                col <= i < at ==> !(#[trigger] word_ends(line, i)))) ==> end == at
        }),
{
    let over = run_forward(line, col, true);
    let end = run_to_end(line, over);
    lemma_run_forward(line, col, true);
    lemma_run_to_end(line, over);
    if col <= at && word_ends(line, at) && forall|i: int|
        col <= i < at ==> !(#[trigger] word_ends(line, i)) {
        if at < over {
            assert(is_space(line[at]));
        }
        if end < at {
            assert(!is_space(line[end])) by {
                if end == over {
                    assert(over + 1 < line.len());
                }
            }
            assert(word_ends(line, end));
        } else if at < end {
            assert(!is_space(line[at + 1]));
        }
    }
}

proof fn lemma_word_back(line: Seq<u8>, col: int, at: int)
    requires
        0 <= col < line.len(),
        0 <= at < line.len(),
    ensures
        ({
            let back = word_step(line, col, WordMotion::Back);
            &&& 0 <= back <= col
            &&& (at < col && word_begins(line, at) && (forall|i: int|
                at < i < col ==> !(#[trigger] word_begins(line, i)))) ==> back == at
            &&& (forall|i: int| 0 <= i < col ==> !(#[trigger] word_begins(line, i))) ==> back == 0
        }),
{
    let from = if col >= 1 {
        col - 1
    } else {
        0
    };
    let over = back_over_space(line, from);
    let back = back_to_space(line, over);
    lemma_back(line, from);
    lemma_back_to(line, over);
    if back > 0 {
        assert(!is_space(line[back])) by {
            if back == over {
                assert(over > 0);
            }
        }
        assert(word_begins(line, back));
        assert(back < col);
    }
    if at < col && word_begins(line, at) && forall|i: int|
        at < i < col ==> !(#[trigger] word_begins(line, i)) {
        if back > at {
            assert(word_begins(line, back));
        } else if back < at {
            if at > over {
                assert(is_space(line[at]));
            } else {
                assert(!is_space(line[at - 1]));
            }
        }
    }
}

/// One step of a word motion, and the way to the first byte that is no space,
/// stay within the line.
pub(crate) proof fn lemma_steps_within(line: Seq<u8>, col: int)
    requires
        0 <= col < line.len(),
    ensures
        0 <= word_step(line, col, WordMotion::Next) < line.len(),
        0 <= word_step(line, col, WordMotion::End) < line.len(),
        0 <= word_step(line, col, WordMotion::Back) < line.len(),
        0 <= first_nonblank_from(line, 0) < line.len(),
{
    lemma_next_word(line, col, col);
    lemma_word_end(line, col, col);
    lemma_word_back(line, col, col);
    lemma_nonblank(line, 0);
}

/// A word motion with a count is as many word motions, one after the other.
pub proof fn lemma_words_counted(line: Seq<u8>, col: int, motion: WordMotion, n: nat)
    ensures
        word_steps(line, col, motion, 0) == col,
        word_steps(line, col, motion, (n + 1) as int) == word_steps(
            line,
            word_steps(line, col, motion, 1),
            motion,
            n as int,
        ),
{
    reveal_with_fuel(word_steps, 2);
}

proof fn lemma_next_byte(line: Seq<u8>, from: int, target: u8)
    requires
        0 <= from,
    ensures
        match next_byte(line, from, target) {
            Some(found) => {
                &&& from <= found < line.len()
                &&& line[found] == target
                &&& forall|i: int| from <= i < found ==> #[trigger] line[i] != target
            },
            None => forall|i: int| from <= i < line.len() ==> #[trigger] line[i] != target,
        },
    decreases line.len() - from,
{
    if from < line.len() && line[from] != target {
        lemma_next_byte(line, from + 1, target);
    }
}

proof fn lemma_previous_byte(line: Seq<u8>, before: int, target: u8)
    requires
        before <= line.len(),
    ensures
        match previous_byte(line, before, target) {
            Some(found) => {
                &&& 0 <= found < before
                &&& line[found] == target
                &&& forall|i: int| found < i < before ==> #[trigger] line[i] != target
            },
            None => forall|i: int| 0 <= i < before ==> #[trigger] line[i] != target,
        },
    decreases before,
{
    if before > 0 && line[before - 1] != target {
        lemma_previous_byte(line, before - 1, target);
    }
}

pub(crate) proof fn lemma_character(editor: EditorView, key: u8, target: u8)
    requires
        editor.at_rest(),
        key == 102 || key == 70 || key == 116 || key == 84,
        target != 27,
    ensures
        editor.after_keys(seq![key, target]) == going(editor).looking_for(
            target,
            key == 102 || key == 116,
            key == 116 || key == 84,
        ).at_character(target, key == 102 || key == 116, key == 116 || key == 84),
{
    let quiet = going(editor);
    let forward = key == 102 || key == 116;
    let till = key == 116 || key == 84;
    let waiting = quiet.awaiting(Await::Find { forward, till });
    assert(editor.pressed(key) == waiting) by {
        reveal(EditorView::pressed);
        reveal(EditorView::key_handled);
        reveal(EditorView::settled);
    }
    lemma_two_keys(editor, key, target);
    lemma_key_resumes(waiting, target);
    reveal(EditorView::resumed);
    let done = quiet.looking_for(target, forward, till).at_character(target, forward, till);
    assert(waiting.awaiting(Await::Nothing) == quiet);
    lemma_settled(done);
}

/// `f` and a character lead to the next such byte of the line, and `t` to the
/// byte before it; `F` leads to the one before the cursor, and `T` to the byte
/// behind it. Without such a byte the cursor stays.
pub proof fn lemma_character_found(editor: EditorView, target: u8, at: int)
    requires
        editor.wf(),
        editor.at_rest(),
        target != 27,
        editor.doc.col < editor.doc.line().len(),
    ensures
        ({
            let line = editor.doc.line();
            let row = editor.doc.row;
            let col = editor.doc.col;
            let next = col < at < line.len() && line[at] == target && forall|i: int|
                col < i < at ==> #[trigger] line[i] != target;
            let previous = 0 <= at < col && line[at] == target && forall|i: int|
                at < i < col ==> #[trigger] line[i] != target;
            &&& next ==> cursor_at(editor, editor.after_keys(seq![102u8, target]), row, at)
            &&& next ==> cursor_at(editor, editor.after_keys(seq![116u8, target]), row, at - 1)
            &&& previous ==> cursor_at(editor, editor.after_keys(seq![70u8, target]), row, at)
            &&& previous ==> cursor_at(editor, editor.after_keys(seq![84u8, target]), row, at + 1)
            &&& (forall|i: int| col < i < line.len() ==> #[trigger] line[i] != target)
                ==> cursor_at(editor, editor.after_keys(seq![102u8, target]), row, col)
            &&& (forall|i: int| 0 <= i < col ==> #[trigger] line[i] != target) ==> cursor_at(
                editor,
                editor.after_keys(seq![70u8, target]),
                row,
                col,
            )
        }),
{
    let line = editor.doc.line();
    let col = editor.doc.col;
    lemma_character(editor, 102, target);
    lemma_character(editor, 116, target);
    lemma_character(editor, 70, target);
    lemma_character(editor, 84, target);
    lemma_next_byte(line, col + 1, target);
    lemma_previous_byte(line, col, target);
}

/// `;` looks for the last character again the same way, and `,` the other way
/// round.
pub proof fn lemma_character_again(editor: EditorView, target: u8)
    requires
        editor.wf(),
        editor.at_rest(),
        editor.input.char_search == Some((target, true, false)),
        target != 27,
    ensures
        ({
            let same = editor.after_keys(seq![59u8]);
            let other = editor.after_keys(seq![44u8]);
            let forward = editor.after_keys(seq![102u8, target]);
            let backward = editor.after_keys(seq![70u8, target]);
            &&& cursor_at(editor, same, forward.doc.row, forward.doc.col)
            &&& cursor_at(editor, other, backward.doc.row, backward.doc.col)
        }),
{
    lemma_character(editor, 102, target);
    lemma_character(editor, 70, target);
    lemma_one_key(editor, 59);
    lemma_one_key(editor, 44);
    reveal(EditorView::pressed);
    reveal(EditorView::key_handled);
    reveal(EditorView::settled);
    reveal(EditorView::character_again);
}

/// How many brackets are opened and not closed again from one place up to
/// another.
pub open spec fn left_open(line: Seq<u8>, from: int, to: int, open: u8, close: u8) -> int
    decreases to - from,
{
    if to <= from {
        0
    } else {
        left_open(line, from, to - 1, open, close) + (if line[to - 1] == open {
            1int
        } else if line[to - 1] == close {
            -1int
        } else {
            0int
        })
    }
}

proof fn lemma_closed(line: Seq<u8>, col: int, at: int, open: u8, close: u8)
    requires
        0 <= col < at <= line.len(),
        open != close,
        forall|i: int| col < i <= at ==> #[trigger] left_open(line, col, i, open, close) > 0,
    ensures
        match closed_at(line, at, left_open(line, col, at, open, close), open, close) {
            Some(found) => {
                &&& at <= found < line.len()
                &&& line[found] == close
                &&& left_open(line, col, found + 1, open, close) == 0
                &&& forall|i: int|
                    col < i <= found ==> #[trigger] left_open(line, col, i, open, close) > 0
            },
            None => forall|i: int|
                col < i <= line.len() ==> #[trigger] left_open(line, col, i, open, close) > 0,
        },
    decreases line.len() - at,
{
    if at < line.len() {
        let depth = left_open(line, col, at, open, close);
        let next = left_open(line, col, at + 1, open, close);
        assert(depth > 0);
        if next > 0 {
            lemma_closed(line, col, at + 1, open, close);
        }
    }
}

/// How many brackets are closed and not opened again before it, counted
/// backwards from one place down to another.
pub open spec fn left_closed(line: Seq<u8>, from: int, to: int, open: u8, close: u8) -> int
    decreases to - from,
{
    if to <= from {
        0
    } else {
        left_closed(line, from + 1, to, open, close) + (if line[from] == close {
            1int
        } else if line[from] == open {
            -1int
        } else {
            0int
        })
    }
}

proof fn lemma_opened(line: Seq<u8>, before: int, to: int, open: u8, close: u8)
    requires
        0 <= before < to <= line.len(),
        open != close,
        forall|i: int| before <= i < to ==> #[trigger] left_closed(line, i, to, open, close) > 0,
    ensures
        match opened_at(line, before, left_closed(line, before, to, open, close), open, close) {
            Some(found) => {
                &&& 0 <= found < before
                &&& line[found] == open
                &&& left_closed(line, found, to, open, close) == 0
                &&& forall|i: int|
                    found < i < to ==> #[trigger] left_closed(line, i, to, open, close) > 0
            },
            None => forall|i: int|
                0 <= i < to ==> #[trigger] left_closed(line, i, to, open, close) > 0,
        },
    decreases before,
{
    if before > 0 {
        let depth = left_closed(line, before, to, open, close);
        let next = left_closed(line, before - 1, to, open, close);
        assert(depth > 0);
        if next > 0 {
            lemma_opened(line, before - 1, to, open, close);
        }
    }
}

/// `%` on an opening bracket leads to the bracket of the same kind that closes
/// it, and on a closing one to the bracket that opens it: the first place up to
/// which as many are closed as are opened. Where there is none, and on any
/// other byte, the cursor stays.
pub proof fn lemma_brackets(editor: EditorView, open: u8, close: u8)
    requires
        editor.wf(),
        editor.at_rest(),
        editor.doc.col < editor.doc.line().len(),
        (open == 40 && close == 41) || (open == 91 && close == 93) || (open == 123 && close == 125),
    ensures
        ({
            let line = editor.doc.line();
            let col = editor.doc.col;
            let after = editor.after_keys(seq![37u8]);
            let to = after.doc.col;
            &&& cursor_at(editor, after, editor.doc.row, to)
            &&& line[col] == open ==> {
                ||| {
                    &&& col < to < line.len()
                    &&& line[to] == close
                    &&& left_open(line, col, to + 1, open, close) == 0
                    &&& forall|i: int|
                        col < i <= to ==> #[trigger] left_open(line, col, i, open, close) > 0
                }
                ||| {
                    &&& to == col
                    &&& forall|i: int|
                        col < i <= line.len() ==> #[trigger] left_open(line, col, i, open, close)
                            > 0
                }
            }
            &&& line[col] == close ==> {
                ||| {
                    &&& 0 <= to < col
                    &&& line[to] == open
                    &&& left_closed(line, to, col + 1, open, close) == 0
                    &&& forall|i: int|
                        to < i <= col ==> #[trigger] left_closed(line, i, col + 1, open, close) > 0
                }
                ||| {
                    &&& to == col
                    &&& forall|i: int|
                        0 <= i <= col ==> #[trigger] left_closed(line, i, col + 1, open, close) > 0
                }
            }
            &&& !(line[col] == 40 || line[col] == 41 || line[col] == 91 || line[col] == 93
                || line[col] == 123 || line[col] == 125) ==> to == col
        }),
{
    let line = editor.doc.line();
    let col = editor.doc.col;
    lemma_uncounted(editor, 37);
    reveal(EditorView::settled);
    reveal(EditorView::cursor_moved);
    if line[col] == open {
        assert(left_open(line, col, col, open, close) == 0);
        assert(left_open(line, col, col + 1, open, close) == 1);
        lemma_closed(line, col, col + 1, open, close);
    }
    if line[col] == close {
        assert(left_closed(line, col + 1, col + 1, open, close) == 0);
        assert(left_closed(line, col, col + 1, open, close) == 1);
        lemma_opened(line, col, col + 1, open, close);
    }
}

/// A number and `+` or `-` move the cursor by so many lines, return moves it to
/// the start of the next line, a number and `|` to the column of that number,
/// and the space bar and backspace move as `l` and `h` do.
pub proof fn lemma_other_steps(editor: EditorView, n: nat)
    requires
        editor.wf(),
        editor.at_rest(),
        1 <= n <= usize::MAX,
    ensures
        ({
            let count = decimal_bytes(n);
            let lines = editor.doc.lines;
            let row = editor.doc.row;
            let down = if row + n < lines.len() {
                row + n
            } else {
                lines.len() - 1
            };
            let up = if row >= n {
                row - n
            } else {
                0
            };
            let next = if row + 1 < lines.len() {
                row + 1
            } else {
                row
            };
            let right = editor.after_keys(count + seq![108u8]);
            let left = editor.after_keys(count + seq![104u8]);
            &&& cursor_at(
                editor,
                editor.after_keys(count + seq![43u8]),
                down,
                within_line(lines[down], editor.doc.col),
            )
            &&& cursor_at(
                editor,
                editor.after_keys(count + seq![45u8]),
                up,
                within_line(lines[up], editor.doc.col),
            )
            &&& cursor_at(editor, editor.after_keys(seq![13u8]), next, 0)
            &&& cursor_at(
                editor,
                editor.after_keys(count + seq![124u8]),
                row,
                within_line(lines[row], n - 1),
            )
            &&& cursor_at(
                editor,
                editor.after_keys(count + seq![32u8]),
                right.doc.row,
                right.doc.col,
            )
            &&& cursor_at(
                editor,
                editor.after_keys(count + seq![8u8]),
                left.doc.row,
                left.doc.col,
            )
        }),
{
    lemma_counted(editor, n, 43);
    lemma_counted(editor, n, 45);
    lemma_uncounted(editor, 13);
    lemma_counted(editor, n, 124);
    lemma_counted(editor, n, 32);
    lemma_counted(editor, n, 8);
    lemma_counted(editor, n, 108);
    lemma_counted(editor, n, 104);
    reveal(EditorView::settled);
    reveal(EditorView::cursor_moved);
}

/// `H`, `M` and `L` lead to the first visible line, to the one in the middle
/// and to the last visible one, as far as the text reaches.
pub proof fn lemma_lines_of_screen(editor: EditorView)
    requires
        editor.wf(),
        editor.at_rest(),
        0 <= editor.screen.top,
        3 <= editor.screen.rows <= 512,
        editor.screen.top + editor.screen.rows <= usize::MAX,
    ensures
        ({
            let last = editor.doc.lines.len() - 1;
            let shown = editor.screen.rows - 1;
            let high = editor.after_keys(seq![72u8]).doc.row;
            let middle = editor.after_keys(seq![77u8]).doc.row;
            let low = editor.after_keys(seq![76u8]).doc.row;
            let top = editor.screen.top;
            &&& high == (if top < last {
                top
            } else {
                last
            })
            &&& middle == (if top + shown / 2 < last {
                top + shown / 2
            } else {
                last
            })
            &&& low == (if top + shown - 1 < last {
                top + shown - 1
            } else {
                last
            })
        }),
{
    lemma_uncounted(editor, 72);
    lemma_uncounted(editor, 77);
    lemma_uncounted(editor, 76);
    reveal(EditorView::settled);
    reveal(EditorView::cursor_moved);
}

/// Whether a line holds nothing but spaces.
pub open spec fn blank(line: Seq<u8>) -> bool {
    forall|i: int| 0 <= i < line.len() ==> is_space(#[trigger] line[i])
}

proof fn lemma_paragraph(lines: Seq<Seq<u8>>, row: int, forward: bool, crossed: bool, to: int)
    requires
        0 <= row < lines.len(),
        0 <= to < lines.len(),
        forward ==> row < to && !blank(lines[to]) && (to - 1 > row ==> blank(lines[to - 1])) && (
        to - 1 == row ==> crossed) && (forall|i: int|
            row < i < to ==> blank(#[trigger] lines[i]) || (i - 1 == row && !crossed) || (i - 1
                > row && !blank(lines[i - 1]))),
        !forward ==> to < row && !blank(lines[to]) && (to + 1 < row ==> blank(lines[to + 1])) && (
        to + 1 == row ==> crossed) && (forall|i: int|
            to < i < row ==> blank(#[trigger] lines[i]) || (i + 1 == row && !crossed) || (i + 1
                < row && !blank(lines[i + 1]))),
    ensures
        crate::motion::paragraph_row(lines, row, forward, crossed) == to,
    decreases
            if forward {
                to - row
            } else {
                row - to
            },
{
    let next = if forward {
        row + 1
    } else {
        row - 1
    };
    assert(crate::motion::is_blank(lines[next]) == blank(lines[next]));
    if next != to {
        lemma_paragraph(lines, next, forward, blank(lines[next]), to);
    }
}

/// `}` leads to the first line of the next paragraph: the next one that is not
/// blank and has a blank one before it. `{` leads to the last line of the
/// paragraph before.
pub proof fn lemma_paragraphs(editor: EditorView, to: int)
    requires
        editor.wf(),
        editor.at_rest(),
        0 <= to < editor.doc.lines.len(),
        !blank(editor.doc.lines[to]),
    ensures
        ({
            let lines = editor.doc.lines;
            let row = editor.doc.row;
            &&& (row + 1 < to && blank(lines[to - 1]) && forall|i: int|
                row + 1 < i < to && !blank(#[trigger] lines[i]) ==> !blank(lines[i - 1]))
                ==> cursor_at(
                editor,
                editor.after_keys(seq![125u8]),
                to,
                within_line(lines[to], editor.doc.col),
            )
            &&& (to + 1 < row && blank(lines[to + 1]) && forall|i: int|
                to < i < row - 1 && !blank(#[trigger] lines[i]) ==> !blank(lines[i + 1]))
                ==> cursor_at(
                editor,
                editor.after_keys(seq![123u8]),
                to,
                within_line(lines[to], editor.doc.col),
            )
        }),
{
    let lines = editor.doc.lines;
    let row = editor.doc.row;
    lemma_uncounted(editor, 125);
    lemma_uncounted(editor, 123);
    reveal(EditorView::settled);
    reveal(EditorView::cursor_moved);
    if row + 1 < to && blank(lines[to - 1]) && forall|i: int|
        row + 1 < i < to && !blank(#[trigger] lines[i]) ==> !blank(lines[i - 1]) {
        lemma_paragraph(lines, row, true, false, to);
    }
    if to + 1 < row && blank(lines[to + 1]) && forall|i: int|
        to < i < row - 1 && !blank(#[trigger] lines[i]) ==> !blank(lines[i + 1]) {
        lemma_paragraph(lines, row, false, false, to);
    }
}

} // verus!
