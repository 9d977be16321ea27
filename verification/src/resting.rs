//! Where the cursor is after a change, said of the keys and the lines.
use crate::changes::lemma_key_resumes;
use crate::colon::{lemma_letter_command_for, lemma_letter_names, typed_for, Place};
use crate::counting::{going, lemma_counted_pair, lemma_doubled, lemma_settled, lemma_uncounted};
use crate::editor::{Await, EditorView, Operator};
use crate::moving::within_line;
use crate::strings::decimal_bytes;
use vstd::prelude::*;

verus! {

/// After whole lines are put, the cursor is at the start of the first of them.
pub proof fn lemma_cursor_on_put_lines(editor: EditorView)
    requires
        editor.wf(),
        editor.at_rest(),
        editor.registers.selected is None,
        editor.registers.yank.linewise,
        editor.registers.yank.lines.len() > 0,
    ensures
        ({
            let behind = editor.after_keys(seq![112u8]);
            let before = editor.after_keys(seq![80u8]);
            &&& behind.doc.row == editor.doc.row + 1
            &&& behind.doc.col == 0
            &&& before.doc.row == editor.doc.row
            &&& before.doc.col == 0
        }),
{
    lemma_uncounted(editor, 112);
    lemma_uncounted(editor, 80);
    reveal(EditorView::text_changed);
    let behind = going(editor).dispatched(112, 1, None);
    let before = going(editor).dispatched(80, 1, None);
    assert(editor.doc.lines.subrange(editor.doc.row, editor.doc.row).len() == 0);
    assert(editor.doc.lines.subrange(editor.doc.row + 1, editor.doc.row + 1).len() == 0);
    lemma_settled(behind);
    lemma_settled(before);
}

/// After bytes are put, the cursor is on the first of them.
pub proof fn lemma_cursor_on_put_bytes(editor: EditorView, bytes: Seq<u8>)
    requires
        editor.wf(),
        editor.at_rest(),
        editor.registers.selected is None,
        !editor.registers.yank.linewise,
        editor.registers.yank.lines == seq![bytes],
        bytes.len() > 0,
        editor.doc.col < editor.doc.line().len(),
    ensures
        ({
            let behind = editor.after_keys(seq![112u8]);
            let before = editor.after_keys(seq![80u8]);
            &&& behind.doc.row == editor.doc.row
            &&& behind.doc.col == editor.doc.col + 1
            &&& before.doc.row == editor.doc.row
            &&& before.doc.col == editor.doc.col
        }),
{
    let line = editor.doc.line();
    let col = editor.doc.col;
    lemma_uncounted(editor, 112);
    lemma_uncounted(editor, 80);
    reveal(EditorView::text_changed);
    assert(editor.registers.yank.lines[0] == bytes);
    assert(line.subrange(col, col) =~= Seq::<u8>::empty());
    assert(line.subrange(col + 1, col + 1) =~= Seq::<u8>::empty());
    let behind = going(editor).dispatched(112, 1, None);
    let before = going(editor).dispatched(80, 1, None);
    lemma_settled(behind);
    lemma_settled(before);
}

/// After lines are deleted by a number and `dd`, the cursor is on the line that
/// took their place, or on the last one, and its column is kept within that
/// line.
pub proof fn lemma_cursor_behind_deleted_lines(editor: EditorView, n: nat)
    requires
        editor.wf(),
        editor.at_rest(),
        1 <= n,
        editor.doc.row + n <= editor.doc.lines.len(),
    ensures
        ({
            let after = editor.after_keys(decimal_bytes(n) + seq![100u8, 100]);
            let count = editor.doc.lines.len();
            &&& after.doc.row == (if editor.doc.row + n < count {
                editor.doc.row
            } else if editor.doc.row > 0 {
                editor.doc.row - 1
            } else {
                0
            })
            &&& after.doc.col == within_line(after.doc.line(), editor.doc.col)
        }),
{
    let lines = editor.doc.lines;
    let row = editor.doc.row;
    lemma_doubled(editor, n, 100);
    reveal(EditorView::operated_lines);
    let done = going(editor).operated_count(
        Operator::Delete,
        n as int,
        editor.registers.selected,
    );
    lemma_settled(done);
    let removed = lines.subrange(row, row + n);
    assert(removed.len() == n);
    if row == 0 && n == lines.len() {
        let empty = seq![Seq::<u8>::empty()];
        assert(crate::bytes::splice(lines, 0, n as int, empty) =~= empty);
        if removed == empty {
            assert(lines =~= removed);
        }
    }
}

/// After lines are deleted by a colon command, the cursor is on the line that
/// took their place, or on the last one.
pub proof fn lemma_cursor_behind_deleted_range(editor: EditorView, from: Place, to: Place)
    requires
        editor.wf(),
        editor.doc.pending is None,
        editor.doc.lines.len() <= isize::MAX,
        from.exists_in(editor),
        to.exists_in(editor),
        from.line(editor) <= to.line(editor),
    ensures
        ({
            let after = editor.ex_executed(typed_for(from, to, seq!['d']));
            let first = from.line(editor);
            after.doc.row == (if to.line(editor) + 1 < editor.doc.lines.len() {
                first
            } else if first > 0 {
                first - 1
            } else {
                0
            })
        }),
{
    let none = Seq::<char>::empty();
    let lines = editor.doc.lines;
    let first = from.line(editor);
    let last = to.line(editor);
    assert(seq!['d'] + none =~= seq!['d']);
    lemma_letter_command_for(editor, from, to, 'd', none);
    lemma_letter_names('d');
    reveal(EditorView::ex_named_more);
    reveal(EditorView::ex_delete);
    let removed = lines.subrange(first, last + 1);
    assert(removed.len() > 0);
    if first == 0 && last + 1 == lines.len() {
        let empty = seq![Seq::<u8>::empty()];
        assert(crate::bytes::splice(lines, 0, last + 1, empty) =~= empty);
        if removed == empty {
            assert(lines =~= removed);
        }
    }
}

/// After `r` and a character behind a number, the cursor is on the last byte
/// that was replaced, and after `~` on the byte behind the one whose case was
/// changed, or on the last one. Joining lines and shifting them leave the
/// cursor where it is.
pub proof fn lemma_cursor_after_small_changes(editor: EditorView, n: nat, key: u8)
    requires
        editor.wf(),
        editor.at_rest(),
        1 <= n,
        editor.doc.col + n <= editor.doc.line().len(),
        32 <= key < 127,
    ensures
        ({
            let replaced = editor.after_keys(decimal_bytes(n) + seq![114u8, key]);
            let switched = editor.after_keys(seq![126u8]);
            let joined = editor.after_keys(seq![74u8]);
            &&& replaced.doc.row == editor.doc.row
            &&& replaced.doc.col == editor.doc.col + n - 1
            &&& switched.doc.row == editor.doc.row
            &&& switched.doc.col == within_line(editor.doc.line(), editor.doc.col + 1)
            &&& joined.doc.row == editor.doc.row
            &&& joined.doc.col == editor.doc.col
        }),
{
    lemma_cursor_replaced(editor, n, key);
    lemma_uncounted(editor, 126);
    lemma_uncounted(editor, 74);
    reveal(EditorView::text_changed);
    reveal_with_fuel(crate::document::DocView::case_switched, 2);
    lemma_settled(going(editor).dispatched(126, 1, editor.registers.selected));
    lemma_settled(going(editor).dispatched(74, 1, editor.registers.selected));
}

proof fn lemma_cursor_replaced(editor: EditorView, n: nat, key: u8)
    requires
        editor.wf(),
        editor.at_rest(),
        1 <= n,
        editor.doc.col + n <= editor.doc.line().len(),
        32 <= key < 127,
    ensures
        ({
            let after = editor.after_keys(decimal_bytes(n) + seq![114u8, key]);
            &&& after.doc.row == editor.doc.row
            &&& after.doc.col == editor.doc.col + n - 1
        }),
{
    let quiet = going(editor);
    let waiting = quiet.awaiting(Await::Replace { count: n as usize });
    assert(quiet.dispatched(114, n as int, editor.registers.selected) == waiting);
    lemma_settled(waiting);
    lemma_counted_pair(editor, n, 114, key);
    lemma_key_resumes(waiting, key);
    reveal(EditorView::resumed);
    assert(waiting.awaiting(Await::Nothing) == quiet);
    lemma_settled(quiet.bytes_overwritten(key, n as int));
}

} // verus!
