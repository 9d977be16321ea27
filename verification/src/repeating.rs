//! What repeats a change, takes it back and makes it again, and what types over
//! the text, said of the keys and the lines.
use crate::changes::{lemma_all_keys, lemma_next_key, lemma_one_key, taken_from};
use crate::counting::{going, lemma_settled, lemma_uncounted};
use crate::document::DocView;
use crate::editor::{EditorView, InputView};
use crate::laws::{lemma_redo_restores, lemma_undo_restores};
use crate::messages::Mode;
use crate::typing::{
    lemma_byte_typed, lemma_last_escape, lemma_text_typed, lemma_typing_begins, typeable, typed_at,
    with_bytes_at,
};
use vstd::prelude::*;

verus! {

/// Bytes of a change that is repeated stand before the cursor's byte, as when
/// they were typed.
proof fn lemma_keys_typed(editor: EditorView, keys: Seq<u8>, at: int)
    requires
        editor.input.mode == Mode::Insert,
        0 <= editor.doc.row < editor.doc.lines.len(),
        0 <= editor.doc.col <= editor.doc.line().len(),
        typeable(keys),
        0 <= at <= keys.len(),
    ensures
        ({
            let after = editor.keys_typed(keys, at);
            let bytes = keys.subrange(at, keys.len() as int);
            &&& after.doc.lines == editor.doc.lines.update(
                editor.doc.row,
                with_bytes_at(editor.doc.line(), editor.doc.col, bytes),
            )
            &&& after.doc.row == editor.doc.row
            &&& after.doc.col == editor.doc.col + bytes.len()
            &&& after.input.mode == Mode::Insert
            &&& after.input.awaiting == editor.input.awaiting
            &&& after.input.replay == editor.input.replay
            &&& after.input.replaying == editor.input.replaying
            &&& editor.input.replaying ==> after.input.last_change == editor.input.last_change
            &&& after.files == editor.files
            &&& after.message == editor.message
            &&& after.registers == editor.registers
        }),
    decreases keys.len() - at,
{
    let line = editor.doc.line();
    let col = editor.doc.col;
    let bytes = keys.subrange(at, keys.len() as int);
    if at < keys.len() {
        let byte = keys[at];
        let next = editor.typed(byte, false);
        lemma_byte_typed(editor, byte);
        assert(editor.input.replaying ==> next.input.last_change == editor.input.last_change) by {
            reveal(EditorView::typed);
        }
        lemma_keys_typed(next, keys, at + 1);
        let rest = keys.subrange(at + 1, keys.len() as int);
        let made = with_bytes_at(line, col, seq![byte]);
        assert(next.doc.line() == made);
        assert(with_bytes_at(made, col + 1, rest) =~= with_bytes_at(line, col, bytes));
        assert(editor.keys_typed(keys, at).doc.lines =~= editor.doc.lines.update(
            editor.doc.row,
            with_bytes_at(line, col, bytes),
        ));
    } else {
        assert(with_bytes_at(line, col, bytes) =~= line);
        assert(editor.doc.lines.update(editor.doc.row, line) =~= editor.doc.lines);
    }
}

/// `i`, a text and escape are remembered as the last change.
pub proof fn lemma_insertion_is_remembered(editor: EditorView, bytes: Seq<u8>)
    requires
        editor.wf(),
        editor.at_rest(),
        !editor.input.replaying,
        editor.doc.col <= editor.doc.line().len(),
        typeable(bytes),
    ensures
        ({
            let after = editor.after_keys(seq![105u8] + bytes + seq![27u8]);
            &&& after.at_rest()
            &&& !after.input.replaying
            &&& after.input.last_change == seq![105u8] + bytes
        }),
{
    lemma_typing_begins(editor, 105);
    lemma_text_typed(editor, 105, bytes);
}

/// Escape, where text is typed.
proof fn lemma_escape_typed(editor: EditorView)
    ensures
        editor.typed(27, false) == editor.typing_done(),
{
    reveal(EditorView::typed);
}

/// The editor while it repeats `i` and a text.
spec fn repeating(editor: EditorView, bytes: Seq<u8>) -> EditorView {
    let quiet = going(editor);
    EditorView {
        input: InputView { replaying: true, replay: Some(bytes), mode: Mode::Insert, ..quiet.input },
        ..quiet
    }
}

proof fn lemma_dot_begins(editor: EditorView, bytes: Seq<u8>)
    requires
        editor.at_rest(),
        editor.input.last_change == seq![105u8] + bytes,
    ensures
        editor.pressed(46) == repeating(editor, bytes).settled(),
{
    let keys = editor.input.last_change;
    assert(keys.subrange(1, keys.len() as int) =~= bytes);
    assert(keys[0] == 105);
    reveal(EditorView::pressed);
    reveal(EditorView::key_handled);
    reveal(EditorView::repeated);
    reveal(EditorView::typing_begun);
    let ready = EditorView {
        input: InputView { replaying: true, replay: Some(bytes), ..editor.cleared().input },
        ..editor.cleared().register_used()
    };
    assert(editor.cleared().repeated() == ready.command_begun(105));
    assert(ready.register_used() == ready);
    assert(ready.command_begun(105) == ready.inserting(105));
    assert(ready.inserting(105) == repeating(editor, bytes));
}

proof fn lemma_repeated(editor: EditorView, bytes: Seq<u8>)
    requires
        editor.at_rest(),
        0 <= editor.doc.row < editor.doc.lines.len(),
        0 <= editor.doc.col <= editor.doc.line().len(),
        typeable(bytes),
    ensures
        ({
            let after = repeating(editor, bytes).settled();
            let ready = EditorView {
                input: InputView { replay: None, ..repeating(editor, bytes).input },
                ..repeating(editor, bytes)
            };
            let done = ready.keys_typed(bytes, 0).typing_done();
            after == EditorView { input: InputView { replaying: false, ..done.input }, ..done }
        }),
{
    let began = repeating(editor, bytes);
    let ready = EditorView { input: InputView { replay: None, ..began.input }, ..began };
    lemma_keys_typed(ready, bytes, 0);
    lemma_escape_typed(ready.keys_typed(bytes, 0));
    reveal(EditorView::settled);
}

/// Where the last change was `i` and a text, `.` puts that text before the
/// cursor's byte once more, and it stays the last change.
pub proof fn lemma_dot_repeats_insertion(editor: EditorView, bytes: Seq<u8>)
    requires
        editor.wf(),
        editor.at_rest(),
        editor.input.last_change == seq![105u8] + bytes,
        editor.doc.col <= editor.doc.line().len(),
        typeable(bytes),
        bytes.len() > 0,
    ensures
        ({
            let after = editor.after_keys(seq![46u8]);
            &&& typed_at(editor, after, editor.doc.col, bytes)
            &&& !after.input.replaying
            &&& after.input.last_change == editor.input.last_change
        }),
{
    let began = repeating(editor, bytes);
    let ready = EditorView { input: InputView { replay: None, ..began.input }, ..began };
    lemma_one_key(editor, 46);
    lemma_dot_begins(editor, bytes);
    lemma_repeated(editor, bytes);
    lemma_keys_typed(ready, bytes, 0);
    assert(bytes.subrange(0, bytes.len() as int) =~= bytes);
    let typed = ready.keys_typed(bytes, 0);
    assert(typed.doc.line() == with_bytes_at(editor.doc.line(), editor.doc.col, bytes));
}

/// `u` takes the last change back: the text is the one before it, whatever the
/// change did. Control-R right after it makes the change again.
pub proof fn lemma_undo_key(before: EditorView, after: EditorView)
    requires
        before.wf(),
        after.wf(),
        after.at_rest(),
        before.doc.origin is Some,
        after.doc.origin == before.doc.origin,
        before.doc.pending_edits().len() == 0,
        after.doc.undo.len() == before.doc.undo.len() + 1,
        after.doc.undo.drop_last() == before.doc.undo,
    ensures
        ({
            let back = after.after_keys(seq![117u8]);
            let again = back.after_keys(seq![18u8]);
            &&& back.at_rest()
            &&& back.doc.lines == before.doc.lines
            &&& back.doc.bytes() == before.doc.bytes()
            &&& again.at_rest()
            &&& again.doc.lines == after.doc.lines
            &&& again.doc.bytes() == after.doc.bytes()
        }),
{
    let quiet = going(after);
    lemma_undo_restores(before, quiet);
    lemma_redo_restores(quiet);
    lemma_one_key(after, 117);
    let back = quiet.undone();
    assert(after.pressed(117) == back) by {
        reveal(EditorView::pressed);
        reveal(EditorView::key_handled);
        lemma_settled(back);
    }
    lemma_one_key(back, 18);
    let again = going(back).redone();
    assert(back.pressed(18) == again) by {
        reveal(EditorView::pressed);
        reveal(EditorView::key_handled);
        lemma_settled(again);
    }
    assert(going(back).doc == back.doc);
    assert(going(back).redone().doc == back.redone().doc);
}

/// Whether text is being typed over the text, and the next key is for it.
pub open spec fn types_over(editor: EditorView) -> bool {
    &&& editor.takes_keys()
    &&& editor.input.mode == Mode::Replace
    &&& editor.input.awaiting is Nothing
    &&& editor.input.replay is None
    &&& !editor.message.hit_return
}

/// The line with bytes in place of as many of its bytes, as far as it reaches.
pub open spec fn with_bytes_over(line: Seq<u8>, at: int, bytes: Seq<u8>) -> Seq<u8> {
    line.subrange(0, at) + bytes + (if at + bytes.len() < line.len() {
        line.subrange(at + bytes.len(), line.len() as int)
    } else {
        Seq::empty()
    })
}

proof fn lemma_over_in_line(doc: DocView, byte: u8)
    requires
        0 <= doc.row < doc.lines.len(),
        0 <= doc.col <= doc.line().len(),
    ensures
        ({
            let after = if doc.col < doc.line().len() {
                doc.byte_overtyped(byte)
            } else {
                doc.bytes_typed(seq![byte])
            };
            &&& after.lines == doc.lines.update(
                doc.row,
                with_bytes_over(doc.line(), doc.col, seq![byte]),
            )
            &&& after.row == doc.row
            &&& after.col == doc.col + 1
        }),
{
    let line = doc.line();
    let col = doc.col;
    let made = with_bytes_over(line, col, seq![byte]);
    assert(seq![byte].len() == 1);
    if col < line.len() {
        assert(crate::bytes::splice(line, col, col + 1, seq![byte]) =~= made);
        if line.subrange(col, col + 1) == seq![byte] {
            assert(made =~= line) by {
                assert(line.subrange(col, col + 1)[0] == byte);
            }
            assert(doc.lines.update(doc.row, made) =~= doc.lines);
        }
    } else {
        assert(line.subrange(col, col).len() == 0);
        assert(crate::bytes::splice(line, col, col, seq![byte]) =~= made);
    }
}

proof fn lemma_byte_overtyped(editor: EditorView, byte: u8)
    requires
        types_over(editor),
        0 <= editor.doc.row < editor.doc.lines.len(),
        0 <= editor.doc.col <= editor.doc.line().len(),
        32 <= byte < 127,
    ensures
        ({
            let after = editor.pressed(byte);
            &&& after.doc.lines == editor.doc.lines.update(
                editor.doc.row,
                with_bytes_over(editor.doc.line(), editor.doc.col, seq![byte]),
            )
            &&& after.doc.row == editor.doc.row
            &&& after.doc.col == editor.doc.col + 1
            &&& types_over(after)
        }),
{
    let quiet = editor.cleared();
    let done = quiet.byte_typed(byte);
    assert(quiet.typed(byte, false) == done) by {
        reveal(EditorView::typed);
    }
    assert(editor.key_handled(byte, false) == done) by {
        reveal(EditorView::key_handled);
    }
    assert(editor.pressed(byte) == done) by {
        reveal(EditorView::pressed);
        lemma_settled(done);
    }
    lemma_over_in_line(editor.doc.begun(), byte);
}

proof fn lemma_run_overtyped(editor: EditorView, keys: Seq<u8>, at: int, bytes: Seq<u8>)
    requires
        types_over(editor),
        0 <= editor.doc.row < editor.doc.lines.len(),
        0 <= editor.doc.col <= editor.doc.line().len(),
        typeable(bytes),
        0 <= at,
        at + bytes.len() <= keys.len(),
        forall|i: int| 0 <= i < bytes.len() ==> keys[at + i] == #[trigger] bytes[i],
    ensures
        exists|after: EditorView|
            {
                &&& taken_from(editor, keys, at) == #[trigger] taken_from(
                    after,
                    keys,
                    at + bytes.len(),
                )
                &&& types_over(after)
                &&& after.doc.lines == editor.doc.lines.update(
                    editor.doc.row,
                    with_bytes_over(editor.doc.line(), editor.doc.col, bytes),
                )
                &&& after.doc.row == editor.doc.row
                &&& after.doc.col == editor.doc.col + bytes.len()
            },
    decreases bytes.len(),
{
    let line = editor.doc.line();
    let col = editor.doc.col;
    if bytes.len() == 0 {
        assert(with_bytes_over(line, col, bytes) =~= line);
        assert(editor.doc.lines.update(editor.doc.row, line) =~= editor.doc.lines);
        assert(taken_from(editor, keys, at) == taken_from(editor, keys, at + bytes.len()));
    } else {
        let byte = bytes[0];
        let rest = bytes.subrange(1, bytes.len() as int);
        assert(keys[at + 0] == byte);
        assert forall|i: int| 0 <= i < rest.len() implies keys[at + 1 + i] == #[trigger] rest[i] by {
            assert(keys[at + (i + 1)] == bytes[i + 1]);
        }
        lemma_next_key(editor, keys, at);
        lemma_byte_overtyped(editor, byte);
        let next = editor.pressed(byte);
        let made = with_bytes_over(line, col, seq![byte]);
        assert(next.doc.line() == made);
        lemma_run_overtyped(next, keys, at + 1, rest);
        let after = choose|after: EditorView|
            {
                &&& taken_from(next, keys, at + 1) == #[trigger] taken_from(
                    after,
                    keys,
                    at + 1 + rest.len(),
                )
                &&& types_over(after)
                &&& after.doc.lines == next.doc.lines.update(
                    next.doc.row,
                    with_bytes_over(next.doc.line(), next.doc.col, rest),
                )
                &&& after.doc.row == next.doc.row
                &&& after.doc.col == next.doc.col + rest.len()
            };
        assert(with_bytes_over(made, col + 1, rest) =~= with_bytes_over(line, col, bytes));
        assert(after.doc.lines =~= editor.doc.lines.update(
            editor.doc.row,
            with_bytes_over(line, col, bytes),
        ));
        assert(taken_from(editor, keys, at) == taken_from(after, keys, at + bytes.len()));
    }
}

/// `R`, a text and escape put the text in place of as many bytes from the
/// cursor on, as far as the line reaches. The cursor is on its last byte.
pub proof fn lemma_text_is_typed_over(editor: EditorView, bytes: Seq<u8>)
    requires
        editor.wf(),
        editor.at_rest(),
        editor.doc.col <= editor.doc.line().len(),
        typeable(bytes),
        bytes.len() > 0,
    ensures
        ({
            let after = editor.after_keys(seq![82u8] + bytes + seq![27u8]);
            &&& after.at_rest()
            &&& after.doc.lines == editor.doc.lines.update(
                editor.doc.row,
                with_bytes_over(editor.doc.line(), editor.doc.col, bytes),
            )
            &&& after.doc.row == editor.doc.row
            &&& after.doc.col == editor.doc.col + bytes.len() - 1
        }),
{
    let keys = seq![82u8] + bytes + seq![27u8];
    lemma_uncounted(editor, 82);
    lemma_one_key(editor, 82);
    let began = editor.pressed(82);
    assert(types_over(began) && began.doc == editor.doc) by {
        reveal(EditorView::typing_begun);
        reveal(EditorView::settled);
    }
    lemma_all_keys(editor, keys);
    assert(keys[0] == 82);
    lemma_next_key(editor, keys, 0);
    assert forall|i: int| 0 <= i < bytes.len() implies keys[1 + i] == #[trigger] bytes[i] by {}
    lemma_run_overtyped(began, keys, 1, bytes);
    let typed = choose|after: EditorView|
        {
            &&& taken_from(began, keys, 1) == #[trigger] taken_from(
                after,
                keys,
                1int + bytes.len(),
            )
            &&& types_over(after)
            &&& after.doc.lines == began.doc.lines.update(
                began.doc.row,
                with_bytes_over(began.doc.line(), began.doc.col, bytes),
            )
            &&& after.doc.row == began.doc.row
            &&& after.doc.col == began.doc.col + bytes.len()
        };
    assert(1int + bytes.len() == keys.len() - 1);
    assert(keys.last() == 27);
    lemma_last_escape(typed, keys);
    lemma_escape_typed(typed.cleared());
    assert(typed.key_pressed(27, false) == typed.cleared().typing_done()) by {
        reveal(EditorView::key_handled);
        lemma_settled(typed.cleared().typing_done());
    }
}

/// `s`, a text and escape put the text in place of the byte under the cursor,
/// and keep that byte to be put.
pub proof fn lemma_bytes_are_substituted(editor: EditorView, bytes: Seq<u8>)
    requires
        editor.wf(),
        editor.at_rest(),
        editor.doc.col < editor.doc.line().len(),
        typeable(bytes),
    ensures
        ({
            let line = editor.doc.line();
            let col = editor.doc.col;
            let after = editor.after_keys(seq![115u8] + bytes + seq![27u8]);
            &&& after.at_rest()
            &&& after.doc.lines == editor.doc.lines.update(
                editor.doc.row,
                line.subrange(0, col) + bytes + line.subrange(col + 1, line.len() as int),
            )
            &&& after.registers.yank.lines == seq![line.subrange(col, col + 1)]
        }),
{
    let line = editor.doc.line();
    let col = editor.doc.col;
    let size = line.len() as int;
    let lines = editor.doc.lines;
    let row = editor.doc.row;
    lemma_uncounted(editor, 115);
    lemma_one_key(editor, 115);
    reveal(EditorView::typing_begun);
    reveal(EditorView::settled);
    let cut = line.subrange(0, col) + line.subrange(col + 1, size);
    assert(line.subrange(col, col + 1).len() == 1);
    assert(crate::bytes::splice(line, col, col + 1, Seq::empty()) =~= cut);
    let began = editor.pressed(115);
    assert(began.doc.lines == lines.update(row, cut));
    lemma_text_typed(editor, 115, bytes);
    assert(with_bytes_at(cut, col, bytes) =~= line.subrange(0, col) + bytes + line.subrange(
        col + 1,
        size,
    ));
    assert(lines.update(row, cut).update(row, with_bytes_at(cut, col, bytes)) =~= lines.update(
        row,
        with_bytes_at(cut, col, bytes),
    ));
}

/// Control-C breaks typing off: what was typed so far stays, and a message says
/// so.
pub proof fn lemma_typing_is_interrupted(editor: EditorView)
    requires
        editor.takes_keys(),
        editor.input.mode == Mode::Insert,
        editor.input.awaiting is Nothing,
        editor.input.replay is None,
        !editor.message.hit_return,
    ensures
        ({
            let after = editor.after_keys(seq![3u8]);
            &&& after.at_rest()
            &&& after.doc.lines == editor.doc.lines
            &&& after.doc.row == editor.doc.row
            &&& after.doc.col == editor.doc.col
            &&& after.message.text == "Interrupted"@
        }),
{
    lemma_one_key(editor, 3);
    let done = editor.cleared().interrupted();
    assert(editor.key_handled(3, false) == done) by {
        reveal(EditorView::key_handled);
        reveal(EditorView::typed);
    }
    assert(editor.pressed(3) == done) by {
        reveal(EditorView::pressed);
        lemma_settled(done);
    }
}

} // verus!
