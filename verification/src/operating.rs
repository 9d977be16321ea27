//! What operators do with a count, with a character that is looked for, and at
//! the end of the text, said of the keys and the lines.
use crate::bytes::{imax, imin, splice};
use crate::changes::{lemma_all_keys, lemma_key_resumes, lemma_next_key, lemma_one_key};
use crate::commands::operator_of;
use crate::counting::{
    going, lemma_counted, lemma_counted_pair, lemma_doubled, lemma_settled, lemma_uncounted,
};
use crate::editing::{line_made, moves_within};
use crate::editor::{Await, EditorView, Operator};
use crate::motion::character_found;
use crate::moving::{lemma_character, within_line};
use crate::strings::decimal_bytes;
use vstd::prelude::*;

verus! {

/// Whether bytes from one column to another, whichever comes first, were
/// deleted from the line of the cursor and kept to be put.
pub open spec fn deleted_to(before: EditorView, after: EditorView, to: int) -> bool {
    let line = before.doc.line();
    let first = imin(before.doc.col, to);
    let last = imax(before.doc.col, to);
    let cut = line.subrange(0, first) + line.subrange(last + 1, line.len() as int);
    &&& line_made(before, after, cut)
    &&& after.doc.col == within_line(cut, first)
    &&& after.registers.yank.lines == seq![line.subrange(first, last + 1)]
    &&& !after.registers.yank.linewise
}

/// Whether bytes from one column to another were kept to be put, and nothing
/// else was done.
pub open spec fn yanked_to(before: EditorView, after: EditorView, to: int) -> bool {
    let line = before.doc.line();
    let first = imin(before.doc.col, to);
    let last = imax(before.doc.col, to);
    &&& after.at_rest()
    &&& after.doc.lines == before.doc.lines
    &&& after.doc.row == before.doc.row
    &&& after.doc.col == before.doc.col
    &&& after.registers.yank.lines == seq![line.subrange(first, last + 1)]
    &&& !after.registers.yank.linewise
}

proof fn lemma_operated(editor: EditorView, op: Operator, to: int, register: Option<u8>)
    requires
        editor.wf(),
        editor.at_rest(),
        editor.doc.col < editor.doc.line().len(),
        0 <= to < editor.doc.line().len(),
        op == Operator::Delete || op == Operator::Yank,
    ensures
        ({
            let after = editor.operated(op, editor.doc.row, to, register);
            &&& op == Operator::Delete ==> deleted_to(editor, after, to)
            &&& op == Operator::Yank ==> yanked_to(editor, after, to)
            &&& after.input == editor.input
        }),
{
    let line = editor.doc.line();
    let first = imin(editor.doc.col, to);
    let last = imax(editor.doc.col, to);
    assert(line.subrange(first, last + 1).len() > 0);
    assert(splice(line, first, last + 1, Seq::empty()) =~= line.subrange(0, first) + line.subrange(
        last + 1,
        line.len() as int,
    ));
}

/// A number, an operator and a motion within the line work from the cursor to
/// where the number and the motion lead, both ends among the bytes: `d`
/// deletes them and `y` keeps them.
pub proof fn lemma_counted_motion(editor: EditorView, n: nat, motion: u8)
    requires
        editor.wf(),
        editor.at_rest(),
        editor.doc.col < editor.doc.line().len(),
        1 <= n <= usize::MAX,
        moves_within(motion),
        motion != 48,
        editor.after_keys(decimal_bytes(n) + seq![motion]).doc.row == editor.doc.row,
        0 <= editor.after_keys(decimal_bytes(n) + seq![motion]).doc.col < editor.doc.line().len(),
    ensures
        ({
            let to = editor.after_keys(decimal_bytes(n) + seq![motion]).doc.col;
            &&& deleted_to(editor, editor.after_keys(decimal_bytes(n) + seq![100u8, motion]), to)
            &&& yanked_to(editor, editor.after_keys(decimal_bytes(n) + seq![121u8, motion]), to)
        }),
{
    let to = editor.after_keys(decimal_bytes(n) + seq![motion]).doc.col;
    lemma_counted(editor, n, motion);
    let moved = going(editor).moved(motion, n as int);
    assert(going(editor).dispatched(motion, n as int, editor.registers.selected) == moved);
    lemma_settled(moved);
    lemma_counted_operator(editor, n, 100, motion, to);
    lemma_counted_operator(editor, n, 121, motion, to);
}

proof fn lemma_counted_operator(editor: EditorView, n: nat, key: u8, motion: u8, to: int)
    requires
        editor.wf(),
        editor.at_rest(),
        editor.doc.col < editor.doc.line().len(),
        0 <= to < editor.doc.line().len(),
        1 <= n <= usize::MAX,
        key == 100 || key == 121,
        moves_within(motion),
        motion != 48,
        going(editor).operator_target(motion, n as int) == (editor.doc.row, to),
    ensures
        ({
            let after = editor.after_keys(decimal_bytes(n) + seq![key, motion]);
            &&& key == 100 ==> deleted_to(editor, after, to)
            &&& key == 121 ==> yanked_to(editor, after, to)
        }),
{
    let quiet = going(editor);
    let register = editor.registers.selected;
    let op = operator_of(key);
    let waiting = quiet.awaiting(Await::Operator { op, count: n as usize, register });
    assert(quiet.dispatched(key, n as int, register) == waiting);
    lemma_settled(waiting);
    lemma_counted_pair(editor, n, key, motion);
    lemma_key_resumes(waiting, motion);
    let done = quiet.operated(op, editor.doc.row, to, register);
    assert(waiting.resumed(motion) == done) by {
        reveal(EditorView::resumed);
        reveal(EditorView::operator_key);
        assert(waiting.awaiting(Await::Nothing) == quiet);
    }
    lemma_operated(quiet, op, to, register);
    lemma_settled(done);
}

/// An operator with `f`, `t`, `F` or `T` and a character works from the cursor
/// to where these lead, both ends among the bytes: `d` deletes them and `y`
/// keeps them.
pub proof fn lemma_operator_takes_character(editor: EditorView, find: u8, target: u8)
    requires
        editor.wf(),
        editor.at_rest(),
        editor.doc.col < editor.doc.line().len(),
        find == 102 || find == 70 || find == 116 || find == 84,
        target != 27,
        0 <= editor.after_keys(seq![find, target]).doc.col < editor.doc.line().len(),
    ensures
        ({
            let to = editor.after_keys(seq![find, target]).doc.col;
            &&& deleted_to(editor, editor.after_keys(seq![100u8, find, target]), to)
            &&& yanked_to(editor, editor.after_keys(seq![121u8, find, target]), to)
        }),
{
    lemma_character(editor, find, target);
    lemma_found_by_operator(editor, 100, find, target);
    lemma_found_by_operator(editor, 121, find, target);
}

/// Where `f`, `t`, `F` and `T` lead behind an operator.
spec fn found_from(editor: EditorView, find: u8, target: u8) -> int {
    let forward = find == 102 || find == 116;
    let till = find == 116 || find == 84;
    match character_found(editor.doc.line(), editor.doc.col, target, forward, till) {
        Some(col) => col,
        None => editor.doc.col,
    }
}

proof fn lemma_found_by_operator(editor: EditorView, key: u8, find: u8, target: u8)
    requires
        editor.wf(),
        editor.at_rest(),
        editor.doc.col < editor.doc.line().len(),
        key == 100 || key == 121,
        find == 102 || find == 70 || find == 116 || find == 84,
        target != 27,
        0 <= found_from(editor, find, target) < editor.doc.line().len(),
    ensures
        ({
            let to = found_from(editor, find, target);
            let after = editor.after_keys(seq![key, find, target]);
            &&& key == 100 ==> deleted_to(editor, after, to)
            &&& key == 121 ==> yanked_to(editor, after, to)
        }),
{
    let forward = find == 102 || find == 116;
    let till = find == 116 || find == 84;
    let looking = going(editor).looking_for(target, forward, till);
    let to = found_from(editor, find, target);
    lemma_three_keys(editor, key, find, target);
    lemma_operated(looking, operator_of(key), to, editor.registers.selected);
    lemma_settled(looking.operated(operator_of(key), editor.doc.row, to, editor.registers.selected));
}

proof fn lemma_three_keys(editor: EditorView, key: u8, find: u8, target: u8)
    requires
        editor.at_rest(),
        key == 100 || key == 121,
        find == 102 || find == 70 || find == 116 || find == 84,
        target != 27,
    ensures
        editor.after_keys(seq![key, find, target]) == going(editor).looking_for(
            target,
            find == 102 || find == 116,
            find == 116 || find == 84,
        ).operated(
            operator_of(key),
            editor.doc.row,
            found_from(editor, find, target),
            editor.registers.selected,
        ).settled(),
{
    let keys = seq![key, find, target];
    let quiet = going(editor);
    let register = editor.registers.selected;
    let op = operator_of(key);
    let forward = find == 102 || find == 116;
    let till = find == 116 || find == 84;
    let to = found_from(editor, find, target);
    let first = quiet.awaiting(Await::Operator { op, count: 1, register });
    lemma_uncounted(editor, key);
    lemma_one_key(editor, key);
    lemma_settled(first);
    assert(editor.pressed(key) == first);
    let second = quiet.awaiting(Await::OperatorFind { op, register, forward, till });
    lemma_key_resumes(first, find);
    assert(first.resumed(find) == second) by {
        reveal(EditorView::resumed);
        reveal(EditorView::operator_key);
        assert(first.awaiting(Await::Nothing) == quiet);
    }
    lemma_settled(second);
    lemma_key_resumes(second, target);
    assert(second.resumed(target) == quiet.operator_found(op, register, forward, till, target)) by {
        reveal(EditorView::resumed);
        assert(second.awaiting(Await::Nothing) == quiet);
    }
    lemma_all_keys(editor, keys);
    lemma_next_key(editor, keys, 0);
    lemma_next_key(first, keys, 1);
    lemma_next_key(second, keys, 2);
    lemma_all_keys(second.pressed(target), keys);
    assert(quiet.operator_found(op, register, forward, till, target) == quiet.looking_for(
        target,
        forward,
        till,
    ).operated(op, editor.doc.row, to, register)) by {
        reveal(EditorView::operator_found);
    }
}

/// `dgg` deletes the lines from the first one to the one of the cursor, and
/// keeps them to be put. This is said where the cursor is not on the first.
pub proof fn lemma_delete_to_top(editor: EditorView)
    requires
        editor.wf(),
        editor.at_rest(),
        editor.doc.row > 0,
    ensures
        ({
            let after = editor.after_keys(seq![100u8, 103, 103]);
            let lines = editor.doc.lines;
            let row = editor.doc.row;
            let left = lines.subrange(row + 1, lines.len() as int);
            &&& after.at_rest()
            &&& after.doc.lines == (if left.len() == 0 {
                seq![Seq::<u8>::empty()]
            } else {
                left
            })
            &&& after.registers.yank.lines == lines.subrange(0, row + 1)
            &&& after.registers.yank.linewise
        }),
{
    let quiet = going(editor);
    let register = editor.registers.selected;
    let row = editor.doc.row;
    let cut = quiet.operated_lines(Operator::Delete, 0, row, register);
    lemma_go_keys(editor);
    lemma_lines_cut(quiet, 0, row, register);
    let done = quiet.operated(Operator::Delete, 0, 0, register);
    assert(done.doc == cut.doc && done.input == cut.input && done.files == cut.files);
    assert(done.message == cut.message && done.registers.yank == cut.registers.yank);
    lemma_settled(done);
}

proof fn lemma_go_keys(editor: EditorView)
    requires
        editor.at_rest(),
    ensures
        editor.after_keys(seq![100u8, 103, 103]) == going(editor).operated(
            Operator::Delete,
            0,
            0,
            editor.registers.selected,
        ).settled(),
{
    let keys = seq![100u8, 103, 103];
    let quiet = going(editor);
    let register = editor.registers.selected;
    let op = Operator::Delete;
    let first = quiet.awaiting(Await::Operator { op, count: 1, register });
    lemma_uncounted(editor, 100);
    lemma_one_key(editor, 100);
    lemma_settled(first);
    assert(editor.pressed(100) == first);
    let second = quiet.awaiting(Await::OperatorGo { op, register });
    lemma_key_resumes(first, 103);
    assert(first.resumed(103) == second) by {
        reveal(EditorView::resumed);
        reveal(EditorView::operator_key);
        assert(first.awaiting(Await::Nothing) == quiet);
    }
    lemma_settled(second);
    lemma_key_resumes(second, 103);
    assert(second.resumed(103) == quiet.operator_gone(op, register, 103)) by {
        reveal(EditorView::resumed);
        assert(second.awaiting(Await::Nothing) == quiet);
    }
    lemma_all_keys(editor, keys);
    lemma_next_key(editor, keys, 0);
    lemma_next_key(first, keys, 1);
    lemma_next_key(second, keys, 2);
    lemma_all_keys(second.pressed(103), keys);
    assert(quiet.operator_gone(op, register, 103) == quiet.operated(op, 0, 0, register)) by {
        reveal(EditorView::operator_gone);
    }
}

/// What deleting whole lines leaves.
proof fn lemma_lines_cut(editor: EditorView, first: int, last: int, register: Option<u8>)
    requires
        editor.wf(),
        editor.at_rest(),
        0 <= first <= last < editor.doc.lines.len(),
    ensures
        ({
            let after = editor.operated_lines(Operator::Delete, first, last, register);
            let lines = editor.doc.lines;
            let left = lines.subrange(0, first) + lines.subrange(last + 1, lines.len() as int);
            &&& after.at_rest()
            &&& after.input == editor.input
            &&& after.doc.lines == (if left.len() == 0 {
                seq![Seq::<u8>::empty()]
            } else {
                left
            })
            &&& first == 0 ==> left == lines.subrange(last + 1, lines.len() as int)
            &&& after.registers.yank.lines == lines.subrange(first, last + 1)
            &&& after.registers.yank.linewise
        }),
{
    reveal(EditorView::operated_lines);
    let lines = editor.doc.lines;
    let removed = lines.subrange(first, last + 1);
    let left = lines.subrange(0, first) + lines.subrange(last + 1, lines.len() as int);
    assert(removed.len() > 0);
    if first == 0 {
        assert(left =~= lines.subrange(last + 1, lines.len() as int));
    }
    if left.len() == 0 {
        let empty = seq![Seq::<u8>::empty()];
        assert(splice(lines, first, last + 1, empty) =~= empty);
        if removed == empty {
            assert(lines =~= removed);
        }
    } else {
        assert(splice(lines, first, last + 1, Seq::empty()) =~= left);
    }
}

/// A number before `yy` or `dd` that asks for more lines than there are behind
/// the cursor takes all of these.
pub proof fn lemma_count_stops_at_end(editor: EditorView, n: nat)
    requires
        editor.wf(),
        editor.at_rest(),
        n <= usize::MAX,
        editor.doc.row + n > editor.doc.lines.len(),
    ensures
        ({
            let yanked = editor.after_keys(decimal_bytes(n) + seq![121u8, 121]);
            let deleted = editor.after_keys(decimal_bytes(n) + seq![100u8, 100]);
            let lines = editor.doc.lines;
            let row = editor.doc.row;
            let rest = lines.subrange(row, lines.len() as int);
            &&& yanked.registers.yank.lines == rest
            &&& yanked.doc.lines == lines
            &&& deleted.registers.yank.lines == rest
            &&& deleted.doc.lines == (if row == 0 {
                seq![Seq::<u8>::empty()]
            } else {
                lines.subrange(0, row)
            })
        }),
{
    let quiet = going(editor);
    let lines = editor.doc.lines;
    let row = editor.doc.row;
    let last = lines.len() - 1;
    lemma_doubled(editor, n, 121);
    lemma_doubled(editor, n, 100);
    let register = editor.registers.selected;
    let yanked = quiet.operated_count(Operator::Yank, n as int, register);
    let deleted = quiet.operated_count(Operator::Delete, n as int, register);
    lemma_lines_cut(quiet, row, last, register);
    assert(lines.subrange(0, row) + lines.subrange(last + 1, lines.len() as int)
        =~= lines.subrange(0, row));
    lemma_settled(deleted);
    reveal(EditorView::operated_lines);
    lemma_settled(yanked);
}

/// `Y` yanks the line of the cursor, and nothing else is done.
pub proof fn lemma_line_is_yanked(editor: EditorView)
    requires
        editor.wf(),
        editor.at_rest(),
    ensures
        ({
            let after = editor.after_keys(seq![89u8]);
            &&& after.at_rest()
            &&& after.doc == editor.doc
            &&& after.registers.yank.lines == seq![editor.doc.line()]
            &&& after.registers.yank.linewise
        }),
{
    lemma_uncounted(editor, 89);
    reveal(EditorView::text_changed);
    let done = going(editor).dispatched(89, 1, editor.registers.selected);
    assert(done.doc == editor.doc);
    lemma_settled(done);
}

} // verus!
