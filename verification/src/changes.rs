//! What holds of single changes: taking them back, making them again, and
//! putting back what was deleted.
use crate::bytes::{fit, imin, splice};
use crate::commands::{is_changing, is_waiting};
use crate::document::DocView;
use crate::editor::{Await, EditorView, Operator};
use crate::edits::{other_case, shifted_line};
use crate::history::{
    edit_fits, lemma_edit_taken_back, redone, undone, with_edit, ChangeView, EditView,
};
use crate::keys::key_at;
use crate::messages::Mode;
use vstd::prelude::*;

verus! {

impl EditorView {
    /// Whether the next key begins a command, and no change is going on.
    pub open spec fn at_rest(self) -> bool {
        &&& self.takes_keys()
        &&& self.input.mode == Mode::Command
        &&& self.input.awaiting is Nothing
        &&& self.input.replay is None
        &&& !self.message.hit_return
        &&& self.doc.pending is None
    }

    /// The editor once it has taken a key that is not a special one.
    #[verifier::opaque]
    pub open spec fn pressed(self, key: u8) -> EditorView {
        self.key_pressed(key, false)
    }
}

/// Whether a document is another one with one change more, which is this edit.
pub open spec fn changed_by(before: DocView, after: DocView, edit: EditView) -> bool {
    &&& edit_fits(before.lines, edit)
    &&& after.lines == with_edit(before.lines, edit, true)
    &&& after.pending is None
    &&& after.trailing == before.trailing
    &&& after.redo.len() == 0
    &&& after.undo == before.undo.push(
        ChangeView { edits: seq![edit], before: before.state(), after: after.state() },
    )
}

/// A change of one edit taken back gives the document as it was, and made
/// again the text that it led to.
proof fn lemma_edit_undone(before: DocView, after: DocView, edit: EditView)
    requires
        before.shaped(),
        before.col <= before.line().len(),
        changed_by(before, after, edit),
    ensures
        after.undone().lines == before.lines,
        after.undone().trailing == before.trailing,
        after.undone().row == before.row,
        after.undone().col == before.col,
        after.undone().modified == before.modified,
        after.undone().undo == before.undo,
        after.undone().pending is None,
        after.undone().redo.len() > 0,
        after.undone().redone().lines == after.lines,
        after.undone().redone().trailing == after.trailing,
{
    let change = after.undo.last();
    let edits = seq![edit];
    lemma_edit_taken_back(before.lines, edit);
    reveal_with_fuel(undone, 2);
    reveal_with_fuel(redone, 2);
    assert(edits.drop_last() =~= Seq::<EditView>::empty());
    assert(undone(after.lines, edits) == before.lines);
    assert(redone(before.lines, edits) == after.lines);
    assert(after.undo.drop_last() =~= before.undo);
    assert(after.undone().redo.last() == change);
}

proof fn lemma_bytes_changed(
    doc: DocView,
    row: int,
    start: int,
    end: int,
    inserted: Seq<u8>,
    to_row: int,
    to_col: int,
)
    requires
        doc.pending is None,
        0 <= row < doc.lines.len(),
        0 <= start <= end <= doc.lines[row].len(),
    ensures
        ({
            let after = doc.begun().bytes_replaced(row, start, end, inserted).at(
                to_row,
                to_col,
            ).ended();
            let removed = doc.lines[row].subrange(start, end);
            if removed == inserted {
                after.lines == doc.lines && after.trailing == doc.trailing
            } else {
                changed_by(doc, after, EditView::Bytes { row, start, removed, inserted })
            }
        }),
{
    let removed = doc.lines[row].subrange(start, end);
    if removed != inserted {
        let edit = EditView::Bytes { row, start, removed, inserted };
        let after = doc.begun().bytes_replaced(row, start, end, inserted).at(
            to_row,
            to_col,
        ).ended();
        assert(Seq::<EditView>::empty().push(edit) =~= seq![edit]);
        assert(after.lines =~= with_edit(doc.lines, edit, true));
    }
}

proof fn lemma_lines_changed(
    doc: DocView,
    start: int,
    end: int,
    inserted: Seq<Seq<u8>>,
    to_row: int,
    to_col: int,
)
    requires
        doc.pending is None,
        0 <= start <= end <= doc.lines.len(),
        doc.lines.len() - (end - start) + inserted.len() > 0,
        doc.lines.len() > 0,
    ensures
        ({
            let after = doc.begun().lines_replaced(start, end, inserted).at(
                to_row,
                to_col,
            ).ended();
            let removed = doc.lines.subrange(start, end);
            if removed == inserted {
                after.lines == doc.lines && after.trailing == doc.trailing
            } else {
                changed_by(doc, after, EditView::Lines { start, removed, inserted })
            }
        }),
{
    let removed = doc.lines.subrange(start, end);
    if removed != inserted {
        let edit = EditView::Lines { start, removed, inserted };
        let after = doc.begun().lines_replaced(start, end, inserted).at(to_row, to_col).ended();
        assert(Seq::<EditView>::empty().push(edit) =~= seq![edit]);
        assert(after.lines =~= with_edit(doc.lines, edit, true));
    }
}

/// The editor once it has taken the keys from `at` on.
#[verifier::opaque]
pub(crate) open spec fn taken_from(editor: EditorView, keys: Seq<u8>, at: int) -> EditorView {
    editor.keys_taken(keys, at).0
}

/// The editor takes a key of one byte that is no escape, and then the ones
/// behind it.
pub(crate) proof fn lemma_next_key(editor: EditorView, keys: Seq<u8>, at: int)
    requires
        editor.takes_keys(),
        0 <= at < keys.len(),
        keys[at] != 27,
    ensures
        taken_from(editor, keys, at) == taken_from(editor.pressed(keys[at]), keys, at + 1),
{
    reveal(taken_from);
    reveal(EditorView::pressed);
    let decoded = key_at(keys, at);
    assert(editor.keys_taken(keys, at) == editor.key_pressed(
        decoded.key,
        decoded.special,
    ).keys_taken(keys, decoded.next));
}

/// All keys are taken from the first one on, and behind the last one there is
/// nothing to take.
pub(crate) proof fn lemma_all_keys(editor: EditorView, keys: Seq<u8>)
    ensures
        editor.after_keys(keys) == taken_from(editor, keys, 0),
        taken_from(editor, keys, keys.len() as int) == editor,
{
    reveal(taken_from);
    reveal(EditorView::after_keys);
}

/// A key of one byte that is no escape is taken as it is.
pub(crate) proof fn lemma_one_key(editor: EditorView, key: u8)
    requires
        editor.takes_keys(),
        key != 27,
    ensures
        editor.after_keys(seq![key]) == editor.pressed(key),
{
    let keys = seq![key];
    lemma_all_keys(editor, keys);
    lemma_next_key(editor, keys, 0);
    lemma_all_keys(editor.pressed(key), keys);
}

/// Two such keys are taken one after the other.
pub(crate) proof fn lemma_two_keys(editor: EditorView, first: u8, second: u8)
    requires
        editor.takes_keys(),
        editor.pressed(first).takes_keys(),
        first != 27,
        second != 27,
    ensures
        editor.after_keys(seq![first, second]) == editor.pressed(first).pressed(second),
{
    let keys = seq![first, second];
    lemma_all_keys(editor, keys);
    lemma_next_key(editor, keys, 0);
    lemma_next_key(editor.pressed(first), keys, 1);
    lemma_all_keys(editor.pressed(first).pressed(second), keys);
}

/// A command of one key, apart from the ones that begin with something else,
/// is carried out at once.
proof fn lemma_key_dispatched(editor: EditorView, key: u8)
    requires
        editor.at_rest(),
        is_changing(key) || is_waiting(key),
    ensures
        editor.pressed(key) == editor.cleared().register_used().dispatched(
            key,
            1,
            editor.registers.selected,
        ).settled(),
{
    reveal(EditorView::pressed);
    reveal(EditorView::key_handled);
}

/// What one of these keys makes of the document.
proof fn lemma_key_changes(editor: EditorView, key: u8) -> (edit: EditView)
    requires
        editor.at_rest(),
        editor.doc.shaped(),
        key == 120 || key == 68 || key == 74 || key == 126,
    ensures
        ({
            let after = editor.pressed(key);
            &&& after.at_rest()
            &&& changed_by(editor.doc, after.doc, edit) || after.doc.bytes() == editor.doc.bytes()
        }),
{
    reveal(EditorView::text_changed);
    reveal(EditorView::settled);
    lemma_key_dispatched(editor, key);
    let doc = editor.doc;
    let row = doc.row;
    let length = doc.line().len() as int;
    let after = editor.pressed(key);
    if key == 120 || key == 68 {
        let count = if key == 120 {
            1int
        } else {
            usize::MAX as int
        };
        let start = imin(doc.col, length);
        let end = imin(fit(doc.col + count), length);
        let cut = doc.begun().bytes_replaced(row, start, end, Seq::empty());
        let col = imin(cut.col, cut.last_col(row));
        lemma_bytes_changed(doc, row, start, end, Seq::empty(), row, col);
        assert(after.doc == cut.at(row, col).ended());
        EditView::Bytes {
            row,
            start,
            removed: doc.line().subrange(start, end),
            inserted: Seq::empty(),
        }
    } else if key == 74 {
        if row + 1 < doc.lines.len() {
            let line = doc.line();
            let joined = seq![
                line + (if line.len() > 0 {
                    seq![32u8]
                } else {
                    Seq::empty()
                }) + doc.lines[row + 1],
            ];
            lemma_lines_changed(doc, row, row + 2, joined, row, doc.col);
            let made = doc.begun().lines_replaced(row, row + 2, joined);
            assert(made.at(row, doc.col) == made);
            assert(after.doc == made.ended());
            EditView::Lines {
                start: row,
                removed: doc.lines.subrange(row, row + 2),
                inserted: joined,
            }
        } else {
            arbitrary()
        }
    } else {
        reveal_with_fuel(DocView::case_switched, 2);
        if doc.col < length {
            let inserted = seq![other_case(doc.line()[doc.col])];
            let made = doc.begun().bytes_replaced(row, doc.col, doc.col + 1, inserted);
            let col = imin(doc.col + 1, crate::bytes::less(length, 1));
            lemma_bytes_changed(doc, row, doc.col, doc.col + 1, inserted, row, col);
            assert(after.doc == made.at(row, col).ended());
            EditView::Bytes {
                row,
                start: doc.col,
                removed: doc.line().subrange(doc.col, doc.col + 1),
                inserted,
            }
        } else {
            arbitrary()
        }
    }
}

/// `d` and `>` wait for another key.
proof fn lemma_key_waits(editor: EditorView, key: u8)
    requires
        editor.at_rest(),
        key == 100 || key == 62,
    ensures
        editor.pressed(key) == editor.cleared().register_used().waiting(
            key,
            1,
            editor.registers.selected,
        ),
{
    reveal(EditorView::settled);
    lemma_key_dispatched(editor, key);
}

/// A key that a command waits for is handed to that command.
pub(crate) proof fn lemma_key_resumes(editor: EditorView, key: u8)
    requires
        !(editor.input.awaiting is Nothing),
    ensures
        editor.pressed(key) == editor.resumed(key).settled(),
{
    reveal(EditorView::pressed);
    reveal(EditorView::key_handled);
}

/// What `dd` does.
proof fn lemma_delete_line(editor: EditorView)
    requires
        editor.at_rest(),
    ensures
        editor.pressed(100).takes_keys(),
        editor.pressed(100).pressed(100)
            == editor.cleared().register_used().operated_count(
            Operator::Delete,
            1,
            editor.registers.selected,
        ).settled(),
{
    reveal(EditorView::operator_key);
    lemma_key_waits(editor, 100);
    lemma_key_resumes(editor.pressed(100), 100);
    reveal(EditorView::resumed);
    let quiet = editor.cleared().register_used();
    assert(quiet.waiting(100, 1, editor.registers.selected).awaiting(Await::Nothing) == quiet);
}

/// What `dd` makes of the document and the registers.
proof fn lemma_line_deleted(editor: EditorView) -> (edit: EditView)
    requires
        editor.at_rest(),
        editor.doc.shaped(),
    ensures
        ({
            let after = editor.pressed(100).pressed(100);
            &&& editor.pressed(100).takes_keys()
            &&& after.at_rest()
            &&& changed_by(editor.doc, after.doc, edit) || after.doc.lines == editor.doc.lines
                && after.doc.trailing == editor.doc.trailing
            &&& after.registers.yank.lines == editor.doc.lines.subrange(
                editor.doc.row,
                editor.doc.row + 1,
            )
            &&& after.registers.yank.linewise
            &&& after.registers.selected is None
            &&& editor.doc.row + 1 < editor.doc.lines.len() ==> after.doc.row == editor.doc.row
                && after.doc.lines == splice(
                editor.doc.lines,
                editor.doc.row,
                editor.doc.row + 1,
                Seq::empty(),
            ) && after.doc.trailing == editor.doc.trailing
        }),
{
    reveal(EditorView::settled);
    reveal(EditorView::operated_lines);
    lemma_delete_line(editor);
    let doc = editor.doc;
    let row = doc.row;
    let after = editor.pressed(100).pressed(100);
    let whole = row == 0 && row + 1 == doc.lines.len();
    let inserted = if whole {
        seq![Seq::<u8>::empty()]
    } else {
        Seq::empty()
    };
    let cut = doc.begun().lines_replaced(row, row + 1, inserted);
    let to = imin(row, cut.lines.len() - 1);
    let col = imin(cut.col, cut.last_col(to));
    lemma_lines_changed(doc, row, row + 1, inserted, to, col);
    assert(doc.lines.subrange(row, row + 1).len() == 1);
    assert(after.doc == cut.at(to, col).ended());
    EditView::Lines { start: row, removed: doc.lines.subrange(row, row + 1), inserted }
}

/// What `>>` does.
proof fn lemma_shift_line(editor: EditorView)
    requires
        editor.at_rest(),
    ensures
        editor.pressed(62).takes_keys(),
        editor.pressed(62).pressed(62)
            == editor.cleared().register_used().shift_key(true, 1, 62).settled(),
{
    lemma_key_waits(editor, 62);
    lemma_key_resumes(editor.pressed(62), 62);
    reveal(EditorView::resumed);
    let quiet = editor.cleared().register_used();
    assert(quiet.waiting(62, 1, editor.registers.selected).awaiting(Await::Nothing) == quiet);
}

/// What `>>` makes of the document.
proof fn lemma_line_shifted(editor: EditorView) -> (edit: EditView)
    requires
        editor.at_rest(),
        editor.doc.shaped(),
    ensures
        ({
            let after = editor.pressed(62).pressed(62);
            &&& editor.pressed(62).takes_keys()
            &&& after.at_rest()
            &&& changed_by(editor.doc, after.doc, edit) || after.doc.lines == editor.doc.lines
                && after.doc.trailing == editor.doc.trailing
        }),
{
    reveal(EditorView::settled);
    lemma_shift_line(editor);
    let doc = editor.doc;
    let row = doc.row;
    let after = editor.pressed(62).pressed(62);
    reveal_with_fuel(DocView::rows_shifted, 2);
    let line = doc.line();
    let inserted = shifted_line(line, true, editor.options.tabstop as int);
    let made = doc.begun().bytes_replaced(row, 0, line.len() as int, inserted);
    lemma_bytes_changed(doc, row, 0, line.len() as int, inserted, row, doc.col);
    assert(made.at(row, doc.col) == made);
    assert(imin(fit(row + 1), doc.lines.len() as int) == row + 1);
    assert(after.doc == made.ended());
    EditView::Bytes { row, start: 0, removed: line.subrange(0, line.len() as int), inserted }
}

/// `u` takes a change back, and Control-R makes it again.
proof fn lemma_undo_keys(editor: EditorView)
    requires
        editor.at_rest(),
    ensures
        editor.doc.undo.len() > 0 ==> editor.after_keys(seq![117u8]).doc
            == editor.doc.undone(),
        editor.doc.redo.len() > 0 ==> editor.after_keys(seq![18u8]).doc
            == editor.doc.redone(),
        editor.after_keys(seq![117u8]).at_rest(),
        editor.after_keys(seq![18u8]).at_rest(),
{
    reveal(EditorView::settled);
    reveal(EditorView::pressed);
    reveal(EditorView::key_handled);
    lemma_one_key(editor, 117);
    lemma_one_key(editor, 18);
}

/// The keys `x`, `D`, `J`, `~`, `dd` and `>>`.
pub open spec fn is_change(keys: Seq<u8>) -> bool {
    ||| keys == seq![120u8]
    ||| keys == seq![68u8]
    ||| keys == seq![74u8]
    ||| keys == seq![126u8]
    ||| keys == seq![100u8, 100]
    ||| keys == seq![62u8, 62]
}

proof fn lemma_line_deleted_by_keys(editor: EditorView) -> (edit: EditView)
    requires
        editor.at_rest(),
        editor.doc.shaped(),
    ensures
        ({
            let after = editor.after_keys(seq![100u8, 100]);
            &&& after.at_rest()
            &&& changed_by(editor.doc, after.doc, edit) || after.doc.lines == editor.doc.lines
                && after.doc.trailing == editor.doc.trailing
            &&& after.registers.yank.lines == editor.doc.lines.subrange(
                editor.doc.row,
                editor.doc.row + 1,
            )
            &&& after.registers.yank.linewise
            &&& after.registers.selected is None
            &&& editor.doc.row + 1 < editor.doc.lines.len() ==> after.doc.row == editor.doc.row
                && after.doc.lines == splice(
                editor.doc.lines,
                editor.doc.row,
                editor.doc.row + 1,
                Seq::empty(),
            ) && after.doc.trailing == editor.doc.trailing
        }),
{
    let edit = lemma_line_deleted(editor);
    lemma_two_keys(editor, 100, 100);
    edit
}

proof fn lemma_line_shifted_by_keys(editor: EditorView) -> (edit: EditView)
    requires
        editor.at_rest(),
        editor.doc.shaped(),
    ensures
        ({
            let after = editor.after_keys(seq![62u8, 62]);
            &&& after.at_rest()
            &&& changed_by(editor.doc, after.doc, edit) || after.doc.lines == editor.doc.lines
                && after.doc.trailing == editor.doc.trailing
        }),
{
    let edit = lemma_line_shifted(editor);
    lemma_two_keys(editor, 62, 62);
    edit
}

proof fn lemma_changed_by_key(editor: EditorView, key: u8) -> (edit: EditView)
    requires
        editor.at_rest(),
        editor.doc.shaped(),
        key == 120 || key == 68 || key == 74 || key == 126,
    ensures
        ({
            let after = editor.after_keys(seq![key]);
            &&& after.at_rest()
            &&& changed_by(editor.doc, after.doc, edit) || after.doc.bytes() == editor.doc.bytes()
        }),
{
    lemma_one_key(editor, key);
    lemma_key_changes(editor, key)
}

/// What one of these commands makes of the document.
proof fn lemma_commands_change(editor: EditorView, keys: Seq<u8>) -> (edit: EditView)
    requires
        editor.at_rest(),
        editor.doc.shaped(),
        is_change(keys),
    ensures
        ({
            let after = editor.after_keys(keys);
            &&& after.at_rest()
            &&& changed_by(editor.doc, after.doc, edit) || after.doc.bytes() == editor.doc.bytes()
        }),
{
    if keys.len() == 1 {
        assert(keys =~= seq![keys[0]]);
        lemma_changed_by_key(editor, keys[0])
    } else if keys[0] == 100 {
        lemma_line_deleted_by_keys(editor)
    } else {
        lemma_line_shifted_by_keys(editor)
    }
}

/// Where one of the commands `x`, `D`, `J`, `~`, `dd` and `>>` changed the
/// text, `u` gives the text, the cursor and the note that the text is modified
/// as they were before, and Control-R then the text that the command led to.
/// Each time the editor is ready for the next command.
/// Left out: an editor in the middle of a command or of a change, and a cursor
/// behind the end of its line.
pub proof fn lemma_command_taken_back(editor: EditorView, keys: Seq<u8>)
    requires
        editor.wf(),
        editor.at_rest(),
        editor.doc.col <= editor.doc.line().len(),
        is_change(keys),
    ensures
        ({
            let after = editor.after_keys(keys);
            let back = after.after_keys(seq![117u8]);
            let again = back.after_keys(seq![18u8]);
            &&& after.at_rest()
            &&& back.at_rest()
            &&& again.at_rest()
            &&& after.doc.bytes() != editor.doc.bytes() ==> {
                &&& back.doc.bytes() == editor.doc.bytes()
                &&& back.doc.lines == editor.doc.lines
                &&& back.doc.row == editor.doc.row
                &&& back.doc.col == editor.doc.col
                &&& back.doc.modified == editor.doc.modified
                &&& again.doc.bytes() == after.doc.bytes()
            }
        }),
{
    let after = editor.after_keys(keys);
    let edit = lemma_commands_change(editor, keys);
    lemma_undo_keys(after);
    lemma_undo_keys(after.after_keys(seq![117u8]));
    if after.doc.bytes() != editor.doc.bytes() {
        lemma_edit_undone(editor.doc, after.doc, edit);
    }
}

/// What `P` makes of the document where lines were yanked: the cursor is at the
/// start of the first line put.
proof fn lemma_line_put(editor: EditorView)
    requires
        editor.at_rest(),
        0 <= editor.doc.row <= editor.doc.lines.len(),
        editor.registers.selected is None,
        editor.registers.yank.linewise,
        editor.registers.yank.lines.len() > 0,
    ensures
        ({
            let after = editor.after_keys(seq![80u8]);
            &&& after.at_rest()
            &&& after.doc.row == editor.doc.row
            &&& after.doc.col == 0
            &&& after.doc.lines == splice(
                editor.doc.lines,
                editor.doc.row,
                editor.doc.row,
                editor.registers.yank.lines,
            )
            &&& after.doc.trailing == editor.doc.trailing
        }),
{
    reveal(EditorView::settled);
    reveal(EditorView::text_changed);
    lemma_one_key(editor, 80);
    lemma_key_dispatched(editor, 80);
    assert(editor.doc.lines.subrange(editor.doc.row, editor.doc.row) =~= Seq::<Seq<u8>>::empty());
}

/// A line that is deleted with `dd` and put back before the cursor with `P` is
/// where it was, and the cursor is at its start. Left out: the last line, which
/// is deleted from below the cursor.
pub proof fn lemma_deleted_line_put_back(editor: EditorView)
    requires
        editor.wf(),
        editor.at_rest(),
        editor.doc.row + 1 < editor.doc.lines.len(),
    ensures
        ({
            let cut = editor.after_keys(seq![100u8, 100]);
            let back = cut.after_keys(seq![80u8]);
            &&& cut.at_rest()
            &&& back.at_rest()
            &&& back.doc.lines == editor.doc.lines
            &&& back.doc.bytes() == editor.doc.bytes()
            &&& back.doc.row == editor.doc.row
            &&& back.doc.col == 0
        }),
{
    let doc = editor.doc;
    let row = doc.row;
    let edit = lemma_line_deleted_by_keys(editor);
    let cut = editor.after_keys(seq![100u8, 100]);
    lemma_line_put(cut);
    let line = doc.lines.subrange(row, row + 1);
    let back = cut.after_keys(seq![80u8]);
    assert(back.doc.lines =~= doc.lines);
}

} // verus!
