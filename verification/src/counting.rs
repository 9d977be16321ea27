//! What commands do with a count in front of them, said of the keys and the
//! text.
use crate::changes::{lemma_all_keys, lemma_key_resumes, lemma_next_key, lemma_one_key, taken_from};
use crate::editor::{Await, EditorView, Operator};
use crate::strings::decimal_bytes;
use vstd::prelude::*;

verus! {

/// The editor while a command is carried out: the message is gone and the
/// register that was selected is used up.
pub open spec fn going(editor: EditorView) -> EditorView {
    editor.cleared().register_used()
}

pub(crate) proof fn lemma_settled(editor: EditorView)
    requires
        editor.input.replay is None,
    ensures
        editor.settled() == editor,
{
    reveal(EditorView::settled);
}

/// A first digit begins a count.
proof fn lemma_count_begins(editor: EditorView, key: u8)
    requires
        editor.at_rest(),
        49 <= key <= 57,
    ensures
        editor.pressed(key) == going(editor).awaiting(
            Await::Count { count: (key - 48) as usize, register: editor.registers.selected },
        ),
{
    reveal(EditorView::pressed);
    reveal(EditorView::key_handled);
    reveal(EditorView::settled);
}

/// Another digit goes on with it.
proof fn lemma_count_goes_on(editor: EditorView, count: usize, register: Option<u8>, key: u8)
    requires
        editor.input.replay is None,
        48 <= key <= 57,
        count * 10 + (key - 48) <= usize::MAX,
    ensures
        editor.awaiting(Await::Count { count, register }).pressed(key) == editor.awaiting(
            Await::Count { count: (count * 10 + (key - 48)) as usize, register },
        ),
{
    let waiting = editor.awaiting(Await::Count { count, register });
    lemma_key_resumes(waiting, key);
    reveal(EditorView::resumed);
    reveal(EditorView::settled);
}

/// The digits of a number in front of other keys give the count.
proof fn lemma_digits_taken(editor: EditorView, n: nat, tail: Seq<u8>)
    requires
        editor.at_rest(),
        1 <= n <= usize::MAX,
    ensures
        taken_from(editor, decimal_bytes(n) + tail, 0) == taken_from(
            going(editor).awaiting(
                Await::Count { count: n as usize, register: editor.registers.selected },
            ),
            decimal_bytes(n) + tail,
            decimal_bytes(n).len() as int,
        ),
    decreases n,
{
    let keys = decimal_bytes(n) + tail;
    let register = editor.registers.selected;
    if n < 10 {
        assert(keys[0] == (48 + n) as u8);
        lemma_next_key(editor, keys, 0);
        lemma_count_begins(editor, keys[0]);
    } else {
        let fewer: nat = n / 10;
        let digit = (48 + n % 10) as u8;
        let before = decimal_bytes(fewer);
        assert(keys =~= before + (seq![digit] + tail));
        lemma_digits_taken(editor, fewer, seq![digit] + tail);
        let amid = going(editor).awaiting(Await::Count { count: fewer as usize, register });
        assert(keys[before.len() as int] == digit);
        lemma_next_key(amid, keys, before.len() as int);
        lemma_count_goes_on(going(editor), fewer as usize, register, digit);
    }
}

/// Whether a key begins a command that takes a count, and is no digit.
pub open spec fn counts(key: u8) -> bool {
    key != 27 && !(48 <= key <= 57)
}

/// A key behind a count is carried out with it.
proof fn lemma_count_used(editor: EditorView, count: usize, register: Option<u8>, key: u8)
    requires
        editor.input.replay is None,
        count >= 1,
        counts(key),
    ensures
        editor.awaiting(Await::Count { count, register }).pressed(key) == editor.awaiting(
            Await::Nothing,
        ).dispatched(key, count as int, register).settled(),
{
    let waiting = editor.awaiting(Await::Count { count, register });
    lemma_key_resumes(waiting, key);
    reveal(EditorView::resumed);
    assert(waiting.awaiting(Await::Nothing) == editor.awaiting(Await::Nothing));
}

/// A command behind a number is carried out with it as its count.
pub(crate) proof fn lemma_counted(editor: EditorView, n: nat, key: u8)
    requires
        editor.at_rest(),
        1 <= n <= usize::MAX,
        counts(key),
    ensures
        editor.after_keys(decimal_bytes(n) + seq![key]) == going(editor).dispatched(
            key,
            n as int,
            editor.registers.selected,
        ).settled(),
{
    let keys = decimal_bytes(n) + seq![key];
    let at = decimal_bytes(n).len() as int;
    let register = editor.registers.selected;
    let amid = going(editor).awaiting(Await::Count { count: n as usize, register });
    lemma_digits_taken(editor, n, seq![key]);
    lemma_all_keys(editor, keys);
    assert(keys[at] == key);
    lemma_next_key(amid, keys, at);
    lemma_count_used(going(editor), n as usize, register, key);
    assert(going(editor).awaiting(Await::Nothing) == going(editor));
    lemma_all_keys(amid.pressed(key), keys);
    assert(at + 1 == keys.len());
}

/// A command behind a number, and the key that it waits for.
pub(crate) proof fn lemma_counted_pair(editor: EditorView, n: nat, key: u8, second: u8)
    requires
        editor.at_rest(),
        1 <= n <= usize::MAX,
        counts(key),
        second != 27,
        going(editor).dispatched(key, n as int, editor.registers.selected).settled().takes_keys(),
    ensures
        editor.after_keys(decimal_bytes(n) + seq![key, second]) == going(editor).dispatched(
            key,
            n as int,
            editor.registers.selected,
        ).settled().pressed(second),
{
    let keys = decimal_bytes(n) + seq![key, second];
    let at = decimal_bytes(n).len() as int;
    let register = editor.registers.selected;
    let amid = going(editor).awaiting(Await::Count { count: n as usize, register });
    lemma_digits_taken(editor, n, seq![key, second]);
    lemma_all_keys(editor, keys);
    assert(keys[at] == key && keys[at + 1] == second);
    lemma_next_key(amid, keys, at);
    lemma_count_used(going(editor), n as usize, register, key);
    assert(going(editor).awaiting(Await::Nothing) == going(editor));
    let waiting = amid.pressed(key);
    lemma_next_key(waiting, keys, at + 1);
    lemma_all_keys(waiting.pressed(second), keys);
    assert(at + 2 == keys.len());
}

/// Whether a key is carried out at once where no count stands before it.
pub open spec fn alone(key: u8) -> bool {
    &&& key != 27 && key != 3 && key != 26 && key != 34 && key != 58 && key != 46
    &&& key != 47 && key != 63 && key != 110 && key != 78
    &&& key != 102 && key != 70 && key != 116 && key != 84
    &&& key != 59 && key != 44 && key != 117 && key != 18
    &&& !(49 <= key <= 57)
}

/// A command without a number is carried out once.
pub(crate) proof fn lemma_uncounted(editor: EditorView, key: u8)
    requires
        editor.at_rest(),
        alone(key),
    ensures
        editor.after_keys(seq![key]) == going(editor).dispatched(
            key,
            1,
            editor.registers.selected,
        ).settled(),
{
    lemma_one_key(editor, key);
    reveal(EditorView::pressed);
    reveal(EditorView::key_handled);
}

/// An operator behind a number, and its key once more, work on whole lines.
pub(crate) proof fn lemma_doubled(editor: EditorView, n: nat, key: u8)
    requires
        editor.at_rest(),
        1 <= n <= usize::MAX,
        key == 100 || key == 121,
    ensures
        editor.after_keys(decimal_bytes(n) + seq![key, key]) == going(editor).operated_count(
            if key == 100 {
                Operator::Delete
            } else {
                Operator::Yank
            },
            n as int,
            editor.registers.selected,
        ).settled(),
{
    let keys = decimal_bytes(n) + seq![key, key];
    let at = decimal_bytes(n).len() as int;
    let register = editor.registers.selected;
    let quiet = going(editor);
    let amid = quiet.awaiting(Await::Count { count: n as usize, register });
    lemma_digits_taken(editor, n, seq![key, key]);
    lemma_all_keys(editor, keys);
    assert(keys[at] == key && keys[at + 1] == key);
    lemma_next_key(amid, keys, at);
    lemma_count_used(quiet, n as usize, register, key);
    let op = crate::commands::operator_of(key);
    let waiting = quiet.awaiting(Await::Operator { op, count: n as usize, register });
    assert(amid.pressed(key) == waiting) by {
        assert(quiet.awaiting(Await::Nothing) == quiet);
        assert(quiet.dispatched(key, n as int, register) == waiting);
        lemma_settled(waiting);
    }
    lemma_next_key(waiting, keys, at + 1);
    lemma_key_resumes(waiting, key);
    assert(waiting.resumed(key) == quiet.operated_count(op, n as int, register)) by {
        reveal(EditorView::resumed);
        reveal(EditorView::operator_key);
        assert(waiting.awaiting(Await::Nothing) == quiet);
    }
    lemma_all_keys(waiting.pressed(key), keys);
    assert(at + 2 == keys.len());
}

/// A number, `y` and `y` yank so many lines, from the line of the cursor on,
/// and change nothing else of the text and the cursor. `p` puts these lines
/// behind the line of the cursor then, and `P` before it.
pub proof fn lemma_lines_are_yanked(editor: EditorView, n: nat)
    requires
        editor.wf(),
        editor.at_rest(),
        1 <= n,
        editor.doc.row + n <= editor.doc.lines.len(),
    ensures
        ({
            let after = editor.after_keys(decimal_bytes(n) + seq![121u8, 121]);
            let lines = editor.doc.lines;
            let row = editor.doc.row;
            let yanked = after.registers.yank.lines;
            &&& after.at_rest()
            &&& yanked.len() == n
            &&& forall|i: int| 0 <= i < n ==> #[trigger] yanked[i] == lines[row + i]
            &&& after.registers.yank.linewise
            &&& after.doc.lines == lines
            &&& after.doc.row == row
            &&& after.doc.col == editor.doc.col
            &&& after.after_keys(seq![112u8]).doc.lines == lines.subrange(0, row + 1) + yanked
                + lines.subrange(row + 1, lines.len() as int)
            &&& after.after_keys(seq![80u8]).doc.lines == lines.subrange(0, row) + yanked
                + lines.subrange(row, lines.len() as int)
        }),
{
    let after = editor.after_keys(decimal_bytes(n) + seq![121u8, 121]);
    let lines = editor.doc.lines;
    let row = editor.doc.row;
    lemma_doubled(editor, n, 121);
    let quiet = going(editor);
    reveal(EditorView::operated_lines);
    let done = quiet.operated_count(Operator::Yank, n as int, editor.registers.selected);
    lemma_settled(done);
    assert(after == done);
    let yanked = after.registers.yank.lines;
    assert(yanked == lines.subrange(row, row + n));
    lemma_put(after, true);
    lemma_put(after, false);
}

/// What `p` and `P` make of the lines where lines were yanked.
proof fn lemma_put(editor: EditorView, behind: bool)
    requires
        editor.at_rest(),
        0 <= editor.doc.row < editor.doc.lines.len(),
        editor.registers.selected is None,
        editor.registers.yank.linewise,
        editor.registers.yank.lines.len() > 0,
    ensures
        ({
            let at = if behind {
                editor.doc.row + 1
            } else {
                editor.doc.row
            };
            let lines = editor.doc.lines;
            editor.after_keys(
                seq![
                    if behind {
                        112u8
                    } else {
                        80u8
                    },
                ],
            ).doc.lines == lines.subrange(0, at) + editor.registers.yank.lines + lines.subrange(
                at,
                lines.len() as int,
            )
        }),
{
    let key: u8 = if behind {
        112
    } else {
        80
    };
    let at = if behind {
        editor.doc.row + 1
    } else {
        editor.doc.row
    };
    lemma_one_key(editor, key);
    reveal(EditorView::pressed);
    reveal(EditorView::key_handled);
    reveal(EditorView::settled);
    reveal(EditorView::text_changed);
    assert(editor.doc.lines.subrange(at, at) =~= Seq::<Seq<u8>>::empty());
}

/// A number, `d` and `d` delete so many lines, from the line of the cursor on,
/// and keep them to be put. Where they are all there are, an empty one is left.
pub proof fn lemma_lines_are_deleted(editor: EditorView, n: nat)
    requires
        editor.wf(),
        editor.at_rest(),
        1 <= n,
        editor.doc.row + n <= editor.doc.lines.len(),
    ensures
        ({
            let after = editor.after_keys(decimal_bytes(n) + seq![100u8, 100]);
            let lines = editor.doc.lines;
            let row = editor.doc.row;
            let left = lines.subrange(0, row) + lines.subrange(row + n, lines.len() as int);
            &&& after.at_rest()
            &&& after.doc.lines == (if left.len() == 0 {
                seq![Seq::<u8>::empty()]
            } else {
                left
            })
            &&& after.registers.yank.lines == lines.subrange(row, row + n)
            &&& after.registers.yank.linewise
        }),
{
    let after = editor.after_keys(decimal_bytes(n) + seq![100u8, 100]);
    let lines = editor.doc.lines;
    let row = editor.doc.row;
    lemma_doubled(editor, n, 100);
    let quiet = going(editor);
    reveal(EditorView::operated_lines);
    let done = quiet.operated_count(Operator::Delete, n as int, editor.registers.selected);
    lemma_settled(done);
    let removed = lines.subrange(row, row + n);
    assert(removed.len() == n);
    let left = lines.subrange(0, row) + lines.subrange(row + n, lines.len() as int);
    if left.len() == 0 {
        let empty = seq![Seq::<u8>::empty()];
        assert(crate::bytes::splice(lines, row, row + n, empty) =~= empty);
        if removed == empty {
            assert(lines =~= removed);
        }
    } else {
        assert(crate::bytes::splice(lines, row, row + n, Seq::empty()) =~= left);
    }
}

} // verus!
