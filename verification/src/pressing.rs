//! What the keys without a character do, and the ones that scroll, said of the
//! text and of what is shown.
use crate::changes::{lemma_key_resumes, lemma_one_key, lemma_two_keys};
use crate::counting::{going, lemma_settled, lemma_uncounted};
use crate::editor::{Await, EditorView};
use crate::keys::{key_at, sequence_at, special_key, KeyCode};
use crate::messages::Mode;
use vstd::prelude::*;

verus! {

/// The bytes that a terminal sends for a key without a character.
pub open spec fn sent_for(code: KeyCode) -> Seq<u8> {
    match code {
        KeyCode::Up => seq![27u8, 91, 65],
        KeyCode::Down => seq![27u8, 91, 66],
        KeyCode::Right => seq![27u8, 91, 67],
        KeyCode::Left => seq![27u8, 91, 68],
        KeyCode::Home => seq![27u8, 91, 72],
        KeyCode::End => seq![27u8, 91, 70],
        KeyCode::Insert => seq![27u8, 91, 50, 126],
        KeyCode::Delete => seq![27u8, 91, 51, 126],
        KeyCode::PageUp => seq![27u8, 91, 53, 126],
        KeyCode::PageDown => seq![27u8, 91, 54, 126],
        _ => Seq::empty(),
    }
}

/// Whether a key has no character.
pub open spec fn without_character(code: KeyCode) -> bool {
    match code {
        KeyCode::Up | KeyCode::Down | KeyCode::Right | KeyCode::Left | KeyCode::Home
        | KeyCode::End | KeyCode::Insert | KeyCode::Delete | KeyCode::PageUp
        | KeyCode::PageDown => true,
        _ => false,
    }
}

/// The bytes that a terminal sends for a key without a character are taken as
/// that key, all of them at once.
pub proof fn lemma_sequence_is_key(code: KeyCode)
    requires
        without_character(code),
    ensures
        ({
            let keys = sent_for(code);
            let decoded = key_at(keys, 0);
            &&& special_key(code) == Some(decoded.key)
            &&& decoded.special
            &&& decoded.next == keys.len()
        }),
{
    let keys = sent_for(code);
    assert(keys[0] == 27 && keys[1] == 91);
    reveal_with_fuel(sequence_at, 2);
}

proof fn lemma_sequence_pressed(editor: EditorView, code: KeyCode)
    requires
        editor.takes_keys(),
        without_character(code),
    ensures
        special_key(code) is Some,
        editor.after_keys(sent_for(code)) == editor.key_pressed(special_key(code).unwrap(), true),
{
    let keys = sent_for(code);
    lemma_sequence_is_key(code);
    reveal(EditorView::after_keys);
    let key = special_key(code).unwrap();
    let next = editor.key_pressed(key, true);
    assert(editor.keys_taken(keys, 0) == next.keys_taken(keys, keys.len() as int));
}

/// The key of a motion that a cursor key stands for: `k`, `j`, `l`, `h`, `0`
/// and `$`.
pub open spec fn letter_of(code: KeyCode) -> u8 {
    match code {
        KeyCode::Up => 107,
        KeyCode::Down => 106,
        KeyCode::Right => 108,
        KeyCode::Left => 104,
        KeyCode::Home => 48,
        _ => 36,
    }
}

proof fn lemma_special_dispatched(editor: EditorView, code: KeyCode)
    requires
        editor.at_rest(),
        without_character(code),
    ensures
        special_key(code) is Some,
        editor.after_keys(sent_for(code)) == going(editor).dispatched(
            special_key(code).unwrap(),
            1,
            editor.registers.selected,
        ).settled(),
{
    lemma_sequence_pressed(editor, code);
    reveal(EditorView::key_handled);
}

/// The cursor keys, Home and End move the cursor as the letters for the same
/// motions do.
pub proof fn lemma_cursor_keys_are_motions(editor: EditorView, code: KeyCode)
    requires
        editor.wf(),
        editor.at_rest(),
        code == KeyCode::Up || code == KeyCode::Down || code == KeyCode::Right || code
            == KeyCode::Left || code == KeyCode::Home || code == KeyCode::End,
    ensures
        editor.after_keys(sent_for(code)).doc == editor.after_keys(seq![letter_of(code)]).doc,
        editor.after_keys(sent_for(code)).at_rest(),
{
    lemma_special_dispatched(editor, code);
    lemma_uncounted(editor, letter_of(code));
    reveal(EditorView::settled);
}

/// Delete takes the byte under the cursor out of the line.
pub proof fn lemma_delete_key(editor: EditorView)
    requires
        editor.wf(),
        editor.at_rest(),
        0 <= editor.doc.col < editor.doc.line().len(),
    ensures
        ({
            let after = editor.after_keys(sent_for(KeyCode::Delete));
            let line = editor.doc.line();
            let col = editor.doc.col;
            &&& after.at_rest()
            &&& after.doc.lines == editor.doc.lines.update(
                editor.doc.row,
                line.subrange(0, col) + line.subrange(col + 1, line.len() as int),
            )
        }),
{
    let line = editor.doc.line();
    let col = editor.doc.col;
    lemma_special_dispatched(editor, KeyCode::Delete);
    reveal(EditorView::text_changed);
    let done = going(editor).dispatched(0x87, 1, editor.registers.selected);
    lemma_settled(done);
    assert(line.subrange(col, col + 1) =~= seq![line[col]]);
    assert(crate::bytes::splice(line, col, col + 1, Seq::empty()) =~= line.subrange(0, col)
        + line.subrange(col + 1, line.len() as int));
}

/// While text is typed, the cursor keys move to the line above or below, a byte
/// to the right or the left, Home to the start of the line and End behind its
/// last byte. The text stays, and typing goes on.
pub proof fn lemma_cursor_keys_while_typing(editor: EditorView, code: KeyCode)
    requires
        editor.wf(),
        editor.takes_keys(),
        editor.input.mode == Mode::Insert,
        editor.input.awaiting is Nothing,
        editor.input.replay is None,
        !editor.message.hit_return,
        editor.doc.col <= editor.doc.line().len(),
        code == KeyCode::Up || code == KeyCode::Down || code == KeyCode::Right || code
            == KeyCode::Left || code == KeyCode::Home || code == KeyCode::End,
    ensures
        ({
            let after = editor.after_keys(sent_for(code));
            let row = editor.doc.row;
            let col = editor.doc.col;
            let length = editor.doc.line().len();
            &&& after.doc.lines == editor.doc.lines
            &&& after.input.mode == Mode::Insert
            &&& code == KeyCode::Up ==> after.doc.row == (if row > 0 {
                row - 1
            } else {
                row
            })
            &&& code == KeyCode::Down ==> after.doc.row == (if row + 1
                < editor.doc.lines.len() {
                row + 1
            } else {
                row
            })
            &&& code == KeyCode::Up || code == KeyCode::Down ==> after.doc.col == (if col
                < after.doc.line().len() {
                col
            } else {
                after.doc.line().len() as int
            })
            &&& code == KeyCode::Right ==> after.doc.row == row && after.doc.col == (if col
                < length {
                col + 1
            } else {
                col
            })
            &&& code == KeyCode::Left ==> after.doc.row == row && after.doc.col == (if col > 0 {
                col - 1
            } else {
                col
            })
            &&& code == KeyCode::Home ==> after.doc.row == row && after.doc.col == 0
            &&& code == KeyCode::End ==> after.doc.row == row && after.doc.col == length
        }),
{
    lemma_sequence_pressed(editor, code);
    reveal(EditorView::key_handled);
    reveal(EditorView::typed);
    let key = special_key(code).unwrap();
    lemma_settled(editor.cleared().typed(key, true));
}

/// The number nearest to another one that is no smaller than `low` and no
/// larger than `high`.
pub open spec fn kept_within(number: int, low: int, high: int) -> int {
    if number < low {
        low
    } else if number > high {
        high
    } else {
        number
    }
}

/// How far a key scrolls: by a line, half a page or a page, where a page is the
/// height of the terminal without two rows.
pub open spec fn scroll_of(editor: EditorView, key: u8) -> int {
    let page = editor.screen.rows - 2;
    if key == 5 || key == 25 {
        1
    } else if key == 4 || key == 21 {
        page / 2
    } else {
        page
    }
}

/// Control with E, D and F scrolls the text up and Control with Y, U and B
/// down, as far as there are lines. The cursor stays on its line where that is
/// still visible, and is on the nearest visible one elsewhere. The text stays.
pub proof fn lemma_keys_scroll(editor: EditorView, key: u8)
    requires
        editor.wf(),
        editor.at_rest(),
        2 <= editor.screen.rows <= 512,
        0 <= editor.screen.top < editor.doc.lines.len() <= isize::MAX,
        key == 5 || key == 25 || key == 4 || key == 21 || key == 6 || key == 2,
    ensures
        ({
            let after = editor.after_keys(seq![key]);
            let by = scroll_of(editor, key);
            let last = editor.doc.lines.len() - 1;
            let top = editor.screen.top;
            let first = after.screen.top;
            &&& after.at_rest()
            &&& after.doc.lines == editor.doc.lines
            &&& key == 5 || key == 4 || key == 6 ==> first == kept_within(top + by, 0, last)
            &&& key == 25 || key == 21 || key == 2 ==> first == kept_within(top - by, 0, last)
            &&& after.doc.row == kept_within(
                editor.doc.row,
                first,
                kept_within(first + editor.screen.rows - 2, 0, last),
            )
        }),
{
    let quiet = going(editor);
    let forward = key == 5 || key == 4 || key == 6;
    let by = scroll_of(editor, key);
    lemma_uncounted(editor, key);
    assert(quiet.page() == editor.screen.rows - 2);
    assert(quiet.dispatched(key, 1, editor.registers.selected) == quiet.scrolled(by, forward)) by {
        reveal(EditorView::view_moved);
    }
    lemma_scrolled(quiet, by, forward);
    lemma_settled(quiet.scrolled(by, forward));
}

proof fn lemma_scrolled(editor: EditorView, by: int, forward: bool)
    requires
        editor.wf(),
        2 <= editor.screen.rows <= 512,
        0 <= editor.screen.top < editor.doc.lines.len() <= isize::MAX,
        0 <= by <= 512,
    ensures
        ({
            let after = editor.scrolled(by, forward);
            let last = editor.doc.lines.len() - 1;
            let top = editor.screen.top;
            let first = after.screen.top;
            &&& after.doc.lines == editor.doc.lines
            &&& forward ==> first == kept_within(top + by, 0, last)
            &&& !forward ==> first == kept_within(top - by, 0, last)
            &&& after.doc.row == kept_within(
                editor.doc.row,
                first,
                kept_within(first + editor.screen.rows - 2, 0, last),
            )
            &&& after.doc.pending == editor.doc.pending
            &&& after.files == editor.files
            &&& after.input == editor.input
            &&& after.message == editor.message
        }),
{
}

/// The page keys scroll as Control with B and with F do.
pub proof fn lemma_page_keys_scroll(editor: EditorView)
    requires
        editor.at_rest(),
    ensures
        ({
            let up = editor.after_keys(sent_for(KeyCode::PageUp));
            let down = editor.after_keys(sent_for(KeyCode::PageDown));
            &&& up.doc == editor.after_keys(seq![2u8]).doc
            &&& up.screen == editor.after_keys(seq![2u8]).screen
            &&& down.doc == editor.after_keys(seq![6u8]).doc
            &&& down.screen == editor.after_keys(seq![6u8]).screen
        }),
{
    lemma_special_dispatched(editor, KeyCode::PageUp);
    lemma_special_dispatched(editor, KeyCode::PageDown);
    lemma_uncounted(editor, 2);
    lemma_uncounted(editor, 6);
    reveal(EditorView::view_moved);
    reveal(EditorView::settled);
}

/// `z.` shows the line of the cursor half a page below the first row, and `z-`
/// a page below it, as far as there are lines above. The text and the line of
/// the cursor stay.
pub proof fn lemma_line_is_placed(editor: EditorView, key: u8)
    requires
        editor.wf(),
        editor.at_rest(),
        4 <= editor.screen.rows <= 512,
        editor.doc.lines.len() <= isize::MAX,
        key == 46 || key == 45,
    ensures
        ({
            let after = editor.after_keys(seq![122u8, key]);
            &&& after.at_rest()
            &&& after.doc.lines == editor.doc.lines
            &&& after.doc.row == editor.doc.row
            &&& key == 46 ==> after.screen.top == kept_within(
                editor.doc.row - (editor.screen.rows - 2) / 2,
                0,
                editor.doc.row,
            )
            &&& key == 45 ==> after.screen.top == kept_within(
                editor.doc.row - (editor.screen.rows - 2),
                0,
                editor.doc.row,
            )
        }),
{
    let waiting = going(editor).awaiting(Await::Scroll);
    lemma_uncounted(editor, 122);
    lemma_one_key(editor, 122);
    lemma_settled(waiting);
    assert(editor.pressed(122) == waiting);
    lemma_two_keys(editor, 122, key);
    lemma_key_resumes(waiting, key);
    assert(waiting.resumed(key) == going(editor).line_placed(key)) by {
        reveal(EditorView::resumed);
        assert(waiting.awaiting(Await::Nothing) == going(editor));
    }
    reveal(EditorView::line_placed);
    lemma_settled(waiting.resumed(key));
}

} // verus!
