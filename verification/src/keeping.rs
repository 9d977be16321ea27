//! What marks and registers keep, said of the keys and the text.
use crate::changes::{lemma_key_resumes, lemma_one_key, lemma_two_keys};
use crate::colon::{lemma_delete_deletes_lines, lemma_number_is_told, typed_for, Place};
use crate::counting::{going, lemma_doubled, lemma_settled, lemma_uncounted};
use crate::editor::{Await, EditorView, Operator, RegisterView};
use crate::strings::{decimal, decimal_bytes};
use vstd::prelude::*;

verus! {

/// `m` and a letter keep the place of the cursor under that letter, and change
/// nothing of the text, the cursor and the other marks.
pub proof fn lemma_mark_is_set(editor: EditorView, name: u8)
    requires
        editor.wf(),
        editor.at_rest(),
        97 <= name <= 122,
    ensures
        ({
            let after = editor.after_keys(seq![109u8, name]);
            &&& after.at_rest()
            &&& after.doc == editor.doc
            &&& after.input.marks.len() == editor.input.marks.len()
            &&& after.input.marks[name - 97] is Some
            &&& after.input.marks[name - 97].unwrap().0 == editor.doc.row
            &&& after.input.marks[name - 97].unwrap().1 == editor.doc.col
            &&& forall|i: int|
                0 <= i < editor.input.marks.len() && i != name - 97
                    ==> #[trigger] after.input.marks[i] == editor.input.marks[i]
        }),
{
    let waiting = going(editor).awaiting(Await::SetMark);
    lemma_uncounted(editor, 109);
    lemma_one_key(editor, 109);
    lemma_settled(waiting);
    assert(editor.pressed(109) == waiting);
    lemma_two_keys(editor, 109, name);
    lemma_key_resumes(waiting, name);
    reveal(EditorView::resumed);
    reveal(EditorView::mark_set);
    lemma_settled(waiting.resumed(name));
}

/// Once a mark is set in a line, the mark stands for that line in a colon
/// command, wherever the cursor goes: with `=` it tells the number of the line,
/// counted from 1, and with `,.d` it deletes from that line to the one of the
/// cursor.
pub proof fn lemma_mark_names_line(editor: EditorView, later: EditorView, name: u8)
    requires
        editor.wf(),
        editor.at_rest(),
        97 <= name <= 122,
        later.wf(),
        later.doc.lines == editor.doc.lines,
        later.input.marks == editor.after_keys(seq![109u8, name]).input.marks,
        editor.doc.lines.len() <= isize::MAX,
    ensures
        ({
            let told = later.ex_executed(seq!['\'', name as char, '=']);
            let deleted = later.ex_executed(seq!['\'', name as char, ',', '.', 'd']);
            let lines = editor.doc.lines;
            let left = lines.subrange(0, editor.doc.row) + lines.subrange(
                later.doc.row + 1,
                lines.len() as int,
            );
            &&& told.message.text == decimal(editor.doc.row + 1)
            &&& told.doc.lines == lines
            &&& told.doc.row == later.doc.row
            &&& editor.doc.row <= later.doc.row ==> deleted.doc.lines == (if left.len() == 0 {
                seq![Seq::<u8>::empty()]
            } else {
                left
            })
        }),
{
    let letter = name as char;
    let place = Place::Mark(letter);
    lemma_mark_is_set(editor, name);
    assert(letter as int - 'a' as int == name - 97);
    assert(place.line(later) == editor.doc.row);
    lemma_number_is_told(later, place);
    assert(place.typed() + seq!['='] =~= seq!['\'', letter, '=']);
    if editor.doc.row <= later.doc.row {
        lemma_delete_deletes_lines(later, place, Place::Here);
        assert(typed_for(place, Place::Here, seq!['d']) =~= seq!['\'', letter, ',', '.', 'd']);
    }
}

/// A quote and the letter of a mark lead to the start of the line where it was
/// set, and a backquote and the letter to the byte, as far as the line reaches.
pub proof fn lemma_mark_is_reached(editor: EditorView, name: u8)
    requires
        editor.wf(),
        editor.at_rest(),
        97 <= name <= 122,
    ensures
        ({
            let by_line = editor.after_keys(seq![39u8, name]);
            let by_byte = editor.after_keys(seq![96u8, name]);
            match editor.input.marks[name - 97] {
                Some((row, col)) => row < editor.doc.lines.len() ==> {
                    let line = editor.doc.lines[row as int];
                    &&& by_line.doc.row == row
                    &&& by_line.doc.col == 0
                    &&& by_byte.doc.row == row
                    &&& col < line.len() ==> by_byte.doc.col == col
                    &&& by_line.doc.lines == editor.doc.lines
                    &&& by_byte.doc.lines == editor.doc.lines
                },
                None => {
                    &&& by_line.doc == editor.doc
                    &&& by_byte.doc == editor.doc
                    &&& by_line.message.text == "Mark not set"@
                    &&& by_byte.message.text == "Mark not set"@
                },
            }
        }),
{
    lemma_mark_key(editor, 39, name);
    lemma_mark_key(editor, 96, name);
    reveal(EditorView::at_mark);
}

proof fn lemma_mark_key(editor: EditorView, key: u8, name: u8)
    requires
        editor.at_rest(),
        key == 39 || key == 96,
        97 <= name <= 122,
    ensures
        editor.after_keys(seq![key, name]) == going(editor).at_mark(name, key == 39),
{
    let waiting = going(editor).awaiting(Await::GotoMark { line: key == 39 });
    lemma_uncounted(editor, key);
    lemma_one_key(editor, key);
    lemma_settled(waiting);
    assert(editor.pressed(key) == waiting);
    lemma_two_keys(editor, key, name);
    lemma_key_resumes(waiting, name);
    assert(waiting.resumed(name) == going(editor).at_mark(name, key == 39)) by {
        reveal(EditorView::resumed);
        assert(waiting.awaiting(Await::Nothing) == going(editor));
    }
    reveal(EditorView::at_mark);
    lemma_settled(waiting.resumed(name));
}

/// A double quote and a letter choose a register for the next command, and do
/// nothing else to the text and the registers.
pub proof fn lemma_register_is_chosen(editor: EditorView, name: u8)
    requires
        editor.at_rest(),
        97 <= name <= 122,
    ensures
        ({
            let after = editor.after_keys(seq![34u8, name]);
            &&& after.at_rest()
            &&& after.doc == editor.doc
            &&& after.options == editor.options
            &&& after.registers.selected == Some(name)
            &&& after.registers.yank == editor.registers.yank
            &&& after.registers.named == editor.registers.named
        }),
{
    lemma_two_keys_of_register(editor, name);
}

proof fn lemma_two_keys_of_register(editor: EditorView, name: u8)
    requires
        editor.at_rest(),
        97 <= name <= 122,
    ensures
        editor.after_keys(seq![34u8, name]) == editor.cleared().register_named(name),
{
    let waiting = editor.cleared().awaiting(Await::Register);
    assert(editor.pressed(34) == waiting) by {
        reveal(EditorView::pressed);
        reveal(EditorView::key_handled);
        lemma_settled(waiting);
    }
    lemma_two_keys(editor, 34, name);
    lemma_key_resumes(waiting, name);
    reveal(EditorView::resumed);
    assert(waiting.awaiting(Await::Nothing) == editor.cleared());
    lemma_settled(waiting.resumed(name));
}

/// With a register chosen, a number, `y` and `y` keep the lines in it as well.
/// Later on, with the register chosen once more, `p` puts just these lines
/// behind the line of the cursor, whatever was yanked meanwhile.
pub proof fn lemma_register_keeps_lines(
    editor: EditorView,
    n: nat,
    name: u8,
    later: EditorView,
)
    requires
        editor.wf(),
        editor.at_rest(),
        editor.registers.selected == Some(name),
        1 <= n,
        editor.doc.row + n <= editor.doc.lines.len(),
        later.wf(),
        later.at_rest(),
        later.registers.selected == Some(name),
        later.registers.named == editor.after_keys(
            decimal_bytes(n) + seq![121u8, 121],
        ).registers.named,
    ensures
        ({
            let kept = editor.doc.lines.subrange(editor.doc.row, editor.doc.row + n);
            let lines = later.doc.lines;
            let at = later.doc.row + 1;
            later.after_keys(seq![112u8]).doc.lines == lines.subrange(0, at) + kept
                + lines.subrange(at, lines.len() as int)
        }),
{
    let kept = editor.doc.lines.subrange(editor.doc.row, editor.doc.row + n);
    lemma_doubled(editor, n, 121);
    let op = Operator::Yank;
    let done = going(editor).operated_count(op, n as int, Some(name));
    reveal(EditorView::operated_lines);
    lemma_settled(done);
    assert(later.registers.named.dom().contains(name));
    assert(later.registers.named[name] == (RegisterView { lines: kept, linewise: true }));
    lemma_uncounted(later, 112);
    reveal(EditorView::text_changed);
    let put = going(later).text_changed(112, 1, Some(name));
    lemma_settled(put);
    let at = later.doc.row + 1;
    assert(later.doc.lines.subrange(at, at) =~= Seq::<Seq<u8>>::empty());
}

} // verus!
