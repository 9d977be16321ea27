//! What holds of the editor as a whole.
use crate::bytes::{fit, imax, imin, is_lower, less, splice};
use crate::highlight::{color_sgr, sgr, sgr_params, HighlightColor, HighlightSpan, HighlightStyle};
use crate::commands::{is_motion, is_moving, is_scrolling};
use crate::document::DocView;
use crate::editor::{EditorView, RegistersView};
use crate::edits::{other_case, shifted_line};
use crate::excmd::{range_bytes, ExAsked};
use crate::files::{
    may_be_same_path, AfterWrite, FilesView, GuardView, RequestView, WriteReply,
};
use crate::history::{
    contiguous, history_exact, lemma_same_origin, newline_kept, with_bytes, EditView,
};
use crate::keys::{
    ends_sequence, first_byte, is_special_key, key_at, sequence_at, sequence_key, Decoded, Event,
    KeyCode, KeyEvent, KeyEventKind, Modifiers, MouseButton, MouseEvent, MouseEventKind, Phase,
    ReaderView, Signal, Step,
};
use crate::messages::unwritten_message;
use crate::render::{cursor_to, GutterStyles};
use crate::screen::{
    byte_shown, fragment_text, fragment_width, reset_text, row_sent, shown_from, shown_line,
    switch_text, Cursors, LineLook, PenView, Platform,
};
use crate::strings::decimal_bytes;
use crate::syntax::{adjusted_span, fit_signed, shift_sum, SyntaxView};
use crate::text::{
    join_lines, lemma_lines_of_serialize, lemma_serialize_lines_of, newline_free, offset_of_line,
    serialized_len, NEWLINE,
};
use crate::viewport::followed_top;
use vstd::prelude::*;
use vstd::utf8::encode_utf8;

verus! {

/// An editor around a byte string gives it back.
pub proof fn lemma_bytes_come_back(
    data: Seq<u8>,
    filename: Option<Seq<char>>,
    readonly: bool,
    platform: Platform,
)
    ensures
        EditorView::of_bytes(data, filename, readonly, platform).doc.bytes() == data,
{
    lemma_serialize_lines_of(data);
}

/// A text that is loaded into any editor comes back from it.
pub proof fn lemma_loaded_bytes_come_back(editor: EditorView, data: Seq<u8>)
    ensures
        editor.loaded(data).doc.bytes() == data,
{
    lemma_serialize_lines_of(data);
}

/// A text that is written and loaded again has the same lines and ends in a
/// newline or not as before. Left out: texts with a newline inside a line, and
/// texts without a trailing newline whose last line of several is empty.
pub proof fn lemma_written_text_loads(editor: EditorView, other: EditorView)
    requires
        editor.doc.lines.len() > 0,
        newline_free(editor.doc.lines),
        editor.doc.trailing || editor.doc.lines.len() == 1 || editor.doc.lines.last().len() > 0,
    ensures
        other.loaded(editor.doc.bytes()).doc.lines == editor.doc.lines,
        other.loaded(editor.doc.bytes()).doc.trailing == editor.doc.trailing,
{
    lemma_lines_of_serialize(editor.doc.lines, editor.doc.trailing);
}

/// Where one change was made since, taking it back gives the text as it was
/// before, whatever the change did: both editors lead back to the same origin,
/// and no change is going on. Where the change began with the cursor in its
/// line, the cursor and the note that the text is modified come back too.
pub proof fn lemma_undo_restores(before: EditorView, after: EditorView)
    requires
        before.wf(),
        after.wf(),
        before.doc.origin is Some,
        after.doc.origin == before.doc.origin,
        before.doc.pending_edits().len() == 0,
        after.doc.pending_edits().len() == 0,
        after.doc.undo.len() == before.doc.undo.len() + 1,
        after.doc.undo.drop_last() == before.doc.undo,
    ensures
        after.undone().doc.lines == before.doc.lines,
        after.undone().doc.bytes() == before.doc.bytes(),
        after.undone().doc.undo == before.doc.undo,
        after.undone().doc.origin == before.doc.origin,
        after.undone().doc.modified == after.doc.undo.last().before.modified,
        after.doc.undo.last().before == before.doc.state() && before.doc.col
            <= before.doc.line().len() ==> after.undone().doc.row == before.doc.row
            && after.undone().doc.col == before.doc.col && after.undone().doc.modified
            == before.doc.modified,
{
    reveal(history_exact);
    reveal(newline_kept);
    assert(before.doc.pending_edits() =~= Seq::<EditView>::empty());
    assert(after.doc.pending_edits() =~= Seq::<EditView>::empty());
    let back = crate::history::undone(after.doc.lines, after.doc.undo.last().edits);
    lemma_same_origin(back, before.doc.lines, before.doc.undo);
    assert(after.doc.undo[after.doc.undo.len() - 1] == after.doc.undo.last());
}

/// Making a change again right after it was taken back gives the text, the
/// history and what can be made again as they were.
pub proof fn lemma_redo_restores(editor: EditorView)
    requires
        editor.wf(),
        editor.doc.origin is Some,
        editor.doc.pending_edits().len() == 0,
        editor.doc.undo.len() > 0,
    ensures
        editor.undone().redone().doc.lines == editor.doc.lines,
        editor.undone().redone().doc.bytes() == editor.doc.bytes(),
        editor.undone().redone().doc.undo == editor.doc.undo,
        editor.undone().redone().doc.redo == editor.doc.redo,
{
    reveal(history_exact);
    reveal(newline_kept);
    assert(editor.doc.pending_edits() =~= Seq::<EditView>::empty());
    let change = editor.doc.undo.last();
    assert(editor.doc.undo[editor.doc.undo.len() - 1] == change);
    crate::history::lemma_redo_after_undo(editor.doc.lines, change.edits);
    let back = editor.undone();
    assert(back.doc.redo.last() == change);
    assert(back.doc.redo.drop_last() =~= editor.doc.redo);
    assert(back.redone().doc.undo =~= editor.doc.undo);
}

/// Taking a change back right after it was made again gives the text, the
/// history and what can be made again as they were.
pub proof fn lemma_undo_after_redo_restores(editor: EditorView)
    requires
        editor.wf(),
        editor.doc.origin is Some,
        editor.doc.pending_edits().len() == 0,
        editor.doc.redo.len() > 0,
    ensures
        editor.redone().undone().doc.lines == editor.doc.lines,
        editor.redone().undone().doc.bytes() == editor.doc.bytes(),
        editor.redone().undone().doc.undo == editor.doc.undo,
        editor.redone().undone().doc.redo == editor.doc.redo,
{
    reveal(history_exact);
    reveal(newline_kept);
    assert(editor.doc.pending_edits() =~= Seq::<EditView>::empty());
    let change = editor.doc.redo.last();
    assert(editor.doc.redo[editor.doc.redo.len() - 1] == change);
    crate::history::lemma_undo_after_redo(editor.doc.lines, change.edits);
    let again = editor.redone();
    assert(again.doc.undo.last() == change);
    assert(again.doc.undo.drop_last() =~= editor.doc.undo);
    assert(again.undone().doc.redo =~= editor.doc.redo);
}

/// Bytes that are typed one behind the other are kept as one edit, which holds
/// nothing but these bytes.
pub proof fn lemma_typing_is_one_edit(
    edits: Seq<EditView>,
    row: int,
    start: int,
    first: Seq<u8>,
    second: Seq<u8>,
)
    ensures
        with_bytes(
            with_bytes(edits, row, start, Seq::empty(), first),
            row,
            start + first.len(),
            Seq::empty(),
            second,
        ) == with_bytes(edits, row, start, Seq::empty(), first + second),
{
    let none = Seq::<u8>::empty();
    let once = with_bytes(edits, row, start, none, first);
    let twice = with_bytes(once, row, start + first.len(), none, second);
    let joined = with_bytes(edits, row, start, none, first + second);
    assert(none + none =~= none);
    if contiguous(edits, row, start, none, first) {
        match edits.last() {
            EditView::Bytes { row: r, start: s, removed: gone, inserted: come } => {
                assert(gone + none =~= gone);
                assert(come + first + second =~= come + (first + second));
                if gone.len() == 0 {
                    assert(once.drop_last() =~= edits.drop_last());
                    assert(contiguous(once, row, start + first.len(), none, second));
                    assert(contiguous(edits, row, start, none, first + second));
                    assert(twice =~= joined);
                } else {
                    assert(first.len() == 0);
                    assert(come + first =~= come);
                    assert(first + second =~= second);
                    assert(once =~= edits);
                }
            },
            EditView::Lines { .. } => {},
        }
    } else {
        assert(once.drop_last() =~= edits);
        assert(contiguous(once, row, start + first.len(), none, second));
        if contiguous(edits, row, start, none, first + second) {
            assert(false);
        }
        assert(twice =~= joined);
    }
}

/// Moving the cursor while text is typed changes nothing but the cursor and
/// the visible part, so it is no change of the text.
pub proof fn lemma_navigation_changes_nothing(editor: EditorView, key: u8)
    requires
        is_special_key(key),
        key != 0x86,
        key != 0x87,
    ensures
        ({
            let moved = editor.typed(key, true);
            &&& moved.doc == editor.doc.at(moved.doc.row, moved.doc.col)
            &&& moved.files == editor.files
            &&& moved.registers == editor.registers
            &&& moved.input == editor.input
        }),
{
    let moved = editor.special_typed(key);
    assert(editor.typed(key, true) == moved) by {
        reveal(EditorView::typed);
    }
    let scrolled = editor.scrolled(less(editor.screen.rows, 2), key == 0x89);
    assert(scrolled.doc == editor.doc.at(scrolled.doc.row, scrolled.doc.col));
}

/// Motions and scrolling in command mode change nothing but the cursor and the
/// visible part.
pub proof fn lemma_motions_change_nothing(
    editor: EditorView,
    command: u8,
    count: int,
    register: Option<u8>,
)
    requires
        is_motion(command) || is_moving(command) || is_scrolling(command),
    ensures
        ({
            let moved = editor.dispatched(command, count, register);
            &&& moved.doc == editor.doc.at(moved.doc.row, moved.doc.col)
            &&& moved.files == editor.files
            &&& moved.registers == editor.registers
            &&& moved.input == editor.input
        }),
{
    reveal(EditorView::view_moved);
    reveal(EditorView::cursor_moved);
}

/// Once the visible part has followed the cursor, the cursor's line is in it,
/// and so is its column, unless the line begins with a tab under the cursor,
/// which is shown as a whole.
pub proof fn lemma_cursor_is_visible(editor: EditorView)
    requires
        editor.wf(),
        0 <= editor.screen.top <= usize::MAX,
        0 <= editor.screen.left <= usize::MAX,
        editor.mouse.selection is None,
        !editor.mouse.scrolled,
    ensures
        ({
            let synced = editor.synced();
            let line = synced.doc.line();
            let cursor = crate::screen::display_column(
                line,
                synced.doc.col,
                synced.options.tabstop as int,
            );
            &&& synced.doc == editor.doc
            &&& synced.screen.top <= synced.doc.row < synced.screen.top + synced.screen.body()
            &&& synced.doc.col == 0 && line.len() > 0 && line[0] == 9 ==> synced.screen.left == 0
            &&& !(synced.doc.col == 0 && line.len() > 0 && line[0] == 9) && cursor < usize::MAX
                ==> synced.screen.left <= cursor < synced.screen.left + synced.text_width()
        }),
{
    let synced = editor.synced();
    let body = editor.screen.body();
    let top = followed_top(editor.screen.top, editor.doc.row, editor.doc.lines.len() as int, body);
    assert(synced.screen.top == top);
}

/// Rows look the same in editors that differ only in what was painted last.
proof fn lemma_rows_alike(
    a: EditorView,
    b: EditorView,
    from: int,
    styles: GutterStyles,
    cursors: Cursors,
)
    requires
        b.doc == a.doc,
        b.options == a.options,
        b.mouse == a.mouse,
        b.screen.rows == a.screen.rows,
        b.screen.cols == a.screen.cols,
        b.screen.top == a.screen.top,
        b.screen.left == a.screen.left,
    ensures
        b.text_rows(from, styles, cursors) == a.text_rows(from, styles, cursors),
    decreases a.screen.body() - from,
{
    if from < a.screen.body() {
        let (row, next) = a.text_row(fit(a.screen.top + from), styles, cursors);
        lemma_rows_alike(a, b, from + 1, styles, next);
    }
}

/// No row is sent that is as it was painted last.
proof fn lemma_no_updates(editor: EditorView, frame: Seq<Seq<u8>>, upto: int)
    requires
        editor.screen.rendered_rows == frame,
        editor.screen.rendered_size == (editor.screen.rows, editor.screen.cols),
    ensures
        editor.row_updates(frame, upto) == Seq::<u8>::empty(),
    decreases upto,
{
    if upto > 0 {
        lemma_no_updates(editor, frame, upto - 1);
        assert(editor.row_updates(frame, upto) =~= Seq::<u8>::empty());
    }
}

/// A frame that was painted is the same when it is painted again, and then
/// nothing is sent but the place of the cursor.
pub proof fn lemma_unchanged_frame_places_cursor_only(
    editor: EditorView,
    prompt: Option<Seq<char>>,
    styles: GutterStyles,
)
    ensures
        ({
            let frame = editor.frame(prompt, styles);
            let shown = editor.painted(frame);
            let (row, col) = shown.cursor_place(prompt);
            &&& shown.frame(prompt, styles) == frame
            &&& shown.painting(frame, prompt) == seq![27u8, 91, 63, 50, 53, 104] + cursor_to(
                row,
                col,
            )
        }),
{
    let frame = editor.frame(prompt, styles);
    let shown = editor.painted(frame);
    let (row, col) = shown.cursor_place(prompt);
    lemma_rows_alike(
        editor,
        shown,
        0,
        styles,
        Cursors { full: 0, preview: 0 },
    );
    lemma_no_updates(shown, frame, frame.len() as int);
    assert(shown.painting(frame, prompt) =~= seq![27u8, 91, 63, 50, 53, 104] + cursor_to(row, col));
}

/// The bytes that paint the first rows of a frame, each one.
pub open spec fn all_rows(editor: EditorView, frame: Seq<Seq<u8>>, upto: int) -> Seq<u8>
    decreases upto,
{
    if upto <= 0 {
        Seq::empty()
    } else {
        all_rows(editor, frame, upto - 1) + cursor_to(upto, 1) + row_sent(
            frame[upto - 1],
            editor.platform,
        )
    }
}

proof fn lemma_all_updates(editor: EditorView, frame: Seq<Seq<u8>>, upto: int)
    requires
        editor.repaints(frame),
    ensures
        editor.row_updates(frame, upto) == all_rows(editor, frame, upto),
    decreases upto,
{
    if upto > 0 {
        lemma_all_updates(editor, frame, upto - 1);
        assert(editor.row_updates(frame, upto) =~= all_rows(editor, frame, upto));
    }
}

/// Once what was painted is forgotten, the next frame clears the screen and
/// paints every row, though nothing changed.
pub proof fn lemma_forced_redraw_paints_every_row(
    editor: EditorView,
    prompt: Option<Seq<char>>,
    styles: GutterStyles,
)
    ensures
        ({
            let forgotten = EditorView { screen: editor.screen.forgotten(), ..editor };
            let frame = editor.frame(prompt, styles);
            let (row, col) = editor.cursor_place(prompt);
            &&& forgotten.frame(prompt, styles) == frame
            &&& forgotten.painting(frame, prompt) == seq![27u8, 91, 50, 74, 27, 91, 72] + all_rows(
                editor,
                frame,
                frame.len() as int,
            ) + seq![27u8, 91, 63, 50, 53, 104] + cursor_to(row, col)
        }),
{
    let forgotten = EditorView { screen: editor.screen.forgotten(), ..editor };
    let frame = editor.frame(prompt, styles);
    lemma_rows_alike(
        editor,
        forgotten,
        0,
        styles,
        Cursors { full: 0, preview: 0 },
    );
    assert(forgotten.repaints(frame));
    lemma_all_updates(forgotten, frame, frame.len() as int);
    lemma_all_rows_alike(editor, forgotten, frame, frame.len() as int);
}

proof fn lemma_all_rows_alike(a: EditorView, b: EditorView, frame: Seq<Seq<u8>>, upto: int)
    requires
        a.platform == b.platform,
    ensures
        all_rows(a, frame, upto) == all_rows(b, frame, upto),
    decreases upto,
{
    if upto > 0 {
        lemma_all_rows_alike(a, b, frame, upto - 1);
    }
}

/// Control-L forgets what was painted, and does nothing else.
pub proof fn lemma_control_l_forces_redraw(editor: EditorView, count: int, register: Option<u8>)
    ensures
        editor.dispatched(12, count, register) == (EditorView {
            screen: editor.screen.forgotten(),
            ..editor
        }),
{
    reveal(EditorView::view_moved);
}

/// Whatever the mouse does, the text, the cursor, the history, the registers
/// and the files stay as they are.
pub proof fn lemma_mouse_keeps_text(editor: EditorView, mouse: MouseEvent, quick: bool)
    ensures
        ({
            let after = editor.mouse_handled(mouse, quick).0;
            &&& after.doc == editor.doc
            &&& after.registers == editor.registers
            &&& after.files == editor.files
            &&& after.input == editor.input
            &&& after.message == editor.message
        }),
{
}

/// A click on the status line, while no selection is being made, does nothing.
pub proof fn lemma_status_line_click_ignored(editor: EditorView, mouse: MouseEvent, quick: bool)
    requires
        mouse.kind == MouseEventKind::Down(MouseButton::Left),
        mouse.row >= editor.screen.body(),
        !editor.dragging(),
    ensures
        editor.mouse_handled(mouse, quick) == (editor, None::<Seq<u8>>),
{
}

/// A key ends what the mouse began, and touches the text no more than the
/// mouse did.
pub proof fn lemma_key_ends_selection(editor: EditorView)
    ensures
        editor.key_announced().0.mouse.selection is None,
        !editor.key_announced().0.mouse.scrolled,
        editor.key_announced().0.doc == editor.doc,
        editor.dragging() ==> editor.key_announced().1 == editor.selection_ended().1,
{
}

/// A changed text is not left without being forced: the editor goes on, with a
/// message and nothing else changed.
pub proof fn lemma_unwritten_text_is_kept(editor: EditorView, ex: ExAsked)
    requires
        editor.doc.modified,
        !ex.force,
    ensures
        editor.ex_quit(ex) == editor.failed(unwritten_message(ex.name)),
        editor.ex_navigate(ex) == editor.failed(unwritten_message(ex.name)),
{
    reveal(EditorView::ex_quit);
    reveal(EditorView::ex_navigate);
}

/// A text that is not changed, or one that is given up by force, is left where
/// no file is left to edit or it is forced.
pub proof fn lemma_quit_leaves(editor: EditorView, ex: ExAsked)
    requires
        ex.force || (!editor.doc.modified && editor.files.remaining() == 0),
    ensures
        editor.ex_quit(ex).files.quit,
        editor.ex_quit(ex).doc == editor.doc,
{
    reveal(EditorView::ex_quit);
}

/// What a write of the whole text puts into the file is what `bytes` gives; a
/// write of lines puts these lines there.
pub proof fn lemma_write_writes_text(
    editor: EditorView,
    requested: Option<Seq<char>>,
    force: bool,
    range: Option<(int, int)>,
    after: AfterWrite,
)
    ensures
        editor.write_asked(requested, force, range, after) matches Ok(
            RequestView::Write { data, .. },
        ) ==> data == (match range {
            Some((start, end)) => range_bytes(editor.doc.lines, start, end),
            None => editor.doc.bytes(),
        }),
{
}

/// Without force, a file that is only to be read is not written, and no file
/// but the one that is edited is overwritten.
pub proof fn lemma_files_are_protected(
    editor: EditorView,
    requested: Option<Seq<char>>,
    range: Option<(int, int)>,
    after: AfterWrite,
)
    ensures
        editor.files.readonly && requested is None ==> editor.write_asked(
            requested,
            false,
            range,
            after,
        ) is Err,
        requested is Some ==> (editor.write_asked(requested, false, range, after) matches Ok(
            RequestView::Write { guard, .. },
        ) ==> guard == (GuardView::Refuse { except: editor.files.filename })),
{
}

/// A write fails before anything is written exactly where there is no name for
/// the file, where the file that is edited is only to be read and the write is
/// not forced, or where another file is present, which the system does not take
/// for the one that is edited, and the write is not forced. Then the text, the
/// name of the file and the note that the text is modified stay.
pub proof fn lemma_write_is_refused(
    editor: EditorView,
    requested: Option<Seq<char>>,
    force: bool,
    range: Option<(int, int)>,
    after: AfterWrite,
    present: bool,
    refused: bool,
)
    ensures
        editor.write_asked(requested, force, range, after) is Err <==> {
            ||| requested is None && editor.files.filename is None
            ||| requested is None && editor.files.readonly && !force
        },
        editor.write_asked(requested, force, range, after) matches Ok(
            RequestView::Write { path, data, guard, ranged, after },
        ) ==> {
            &&& Some(path) == (if requested is Some {
                requested
            } else {
                editor.files.filename
            })
            &&& guard.may_refuse(path, present, refused) ==> {
                &&& refused ==> present && !force && requested is Some && requested
                    != editor.files.filename
                &&& present && !force && requested is Some && !refused ==> (
                editor.files.filename matches Some(name) && (name == path || may_be_same_path(
                    name,
                    path,
                    true,
                )))
            }
            &&& ({
                let told = editor.write_done(path, data, ranged, after, WriteReply::Exists);
                &&& told.doc == editor.doc
                &&& told.files == editor.files
                &&& after != AfterWrite::Close ==> told.message.text
                    == "File exists (:w! overrides)"@
            })
        },
{
    reveal(EditorView::write_done);
    reveal(EditorView::write_failed);
}

/// What follows a write leaves the text alone.
proof fn lemma_after_write_keeps_text(editor: EditorView, after: AfterWrite)
    ensures
        editor.after_write(after).doc == editor.doc,
        editor.after_write(after).input == editor.input,
        editor.after_write(after).files.request == editor.files.request,
{
    reveal(EditorView::after_write);
}

/// Once all of the text is written, it is not changed any more; a write that
/// fails changes nothing of the text and of whether it is changed. This is
/// said of an editor that repeats no change meanwhile.
pub proof fn lemma_written_text_is_saved(editor: EditorView, reply: WriteReply)
    requires
        editor.files.request is Some,
        editor.files.request->0 is Write,
        editor.input.replay is None,
    ensures
        ({
            let after = editor.write_replied(reply);
            &&& after.doc.lines == editor.doc.lines
            &&& after.doc.trailing == editor.doc.trailing
            &&& after.files.request is None
            &&& reply is Written ==> after.doc.modified == (editor.doc.modified
                && editor.files.request->0->ranged)
            &&& !(reply is Written) ==> after.doc.modified == editor.doc.modified
                && after.files.quit == editor.files.quit
        }),
{
    reveal(EditorView::settled);
    match editor.files.request {
        Some(RequestView::Write { path, data, guard, ranged, after }) => {
            let done = editor.answered().write_done(path, data, ranged, after, reply);
            assert(done.doc == (DocView { modified: done.doc.modified, ..editor.doc })
                && done.files.request is None && done.input == editor.input && (
            reply is Written ==> done.doc.modified == (editor.doc.modified && ranged)) && (!(
            reply is Written) ==> done.doc.modified == editor.doc.modified && done.files.quit
                == editor.files.quit)) by {
                reveal(EditorView::write_done);
                reveal(EditorView::written);
                reveal(EditorView::write_failed);
                let told = EditorView {
                    files: FilesView { filename: Some(path), ..editor.answered().files },
                    doc: DocView { modified: editor.doc.modified && ranged, ..editor.doc },
                    ..editor.answered()
                }.told(crate::messages::file_message(path, data, false, false));
                lemma_after_write_keeps_text(told, after);
            }
        },
        _ => {},
    }
}

/// What was kept in a register comes back from it, whatever was yanked
/// meanwhile.
pub proof fn lemma_register_gives_back(
    registers: RegistersView,
    name: u8,
    other: Seq<Seq<u8>>,
    linewise: bool,
)
    ensures
        registers.saved(Some(name)).yanked(other, linewise).recalled(Some(name)).yank
            == registers.yank,
{
}

/// A mark leads back to where it was set: to the same line, and to the same
/// byte as far as the line reaches.
pub proof fn lemma_mark_leads_back(editor: EditorView, later: EditorView, key: u8)
    requires
        editor.wf(),
        is_lower(key),
        later.input.marks == editor.mark_set(key).input.marks,
        later.doc.lines == editor.doc.lines,
    ensures
        later.at_mark(key, false).doc.row == editor.doc.row,
        later.at_mark(key, false).doc.col == imin(
            editor.doc.col,
            editor.doc.last_col(editor.doc.row),
        ),
        later.at_mark(key, true).doc.row == editor.doc.row,
        later.at_mark(key, true).doc.col == 0,
{
    reveal(EditorView::mark_set);
    reveal(EditorView::at_mark);
}

/// Shifting a line to the left takes back a shift to the right.
pub proof fn lemma_shift_back(line: Seq<u8>, tabstop: int)
    ensures
        shifted_line(shifted_line(line, true, tabstop), false, tabstop) == line,
{
    let right = shifted_line(line, true, tabstop);
    assert(right.subrange(1, right.len() as int) =~= line);
}

/// Switching the case of a byte twice gives the byte.
pub proof fn lemma_case_switched_back(byte: u8)
    ensures
        other_case(other_case(byte)) == byte,
{
}

/// A substitution that cannot be read, or whose pattern is found in none of its
/// lines, leaves the text and the history as they are.
pub proof fn lemma_failed_substitution_keeps_text(
    editor: EditorView,
    args: Seq<char>,
    addresses: Option<(int, int)>,
)
    requires
        ({
            let (start, end) = match addresses {
                Some(range) => range,
                None => (editor.doc.row, editor.doc.row),
            };
            let asked = crate::substitution::substitution_of(
                encode_utf8(args),
                editor.input.search,
                editor.options.ignorecase,
            ).0;
            asked matches Ok(replacement) ==> !crate::substitution::any_replaced(
                editor.doc.lines,
                imin(start, editor.doc.lines.len() - 1),
                imin(end, editor.doc.lines.len() - 1),
                replacement,
            )
        }),
    ensures
        editor.substituted(args, addresses).doc == editor.doc,
{
    reveal(EditorView::substituted);
}

/// The event of a character key that was pressed without modifiers.
pub open spec fn character_pressed(character: char) -> Signal {
    Signal::Event(
        Event::Key(
            KeyEvent {
                code: KeyCode::Char(character),
                modifiers: Modifiers { shift: false, control: false, alt: false, logo: false },
                kind: KeyEventKind::Press,
            },
        ),
    )
}

/// The reader once characters were pressed one after the other.
pub open spec fn characters_read(reader: ReaderView, characters: Seq<char>, blocking: bool) -> ReaderView
    decreases characters.len(),
{
    if characters.len() == 0 {
        reader
    } else {
        characters_read(reader, characters.drop_last(), blocking).fed(
            character_pressed(characters.last()),
            blocking,
        ).0
    }
}

/// Whether characters can stand in an escape sequence before its last one.
pub open spec fn inside_sequence(characters: Seq<char>) -> bool {
    forall|i: int|
        0 <= i < characters.len() ==> ((#[trigger] characters[i]) as u32) < 128 && !ends_sequence(
            characters[i] as u8,
        )
}

/// The bytes of characters of ASCII.
pub open spec fn ascii_bytes(characters: Seq<char>) -> Seq<u8> {
    Seq::new(characters.len(), |i: int| characters[i] as u8)
}

proof fn lemma_sequence_collected(
    reader: ReaderView,
    prefix: u8,
    characters: Seq<char>,
    blocking: bool,
)
    requires
        reader.phase == (Phase::Sequence { prefix }),
        reader.sequence == Seq::<u8>::empty(),
        inside_sequence(characters),
        characters.len() <= 31,
    ensures
        characters_read(reader, characters, blocking) == (ReaderView {
            sequence: ascii_bytes(characters),
            ..reader
        }),
    decreases characters.len(),
{
    if characters.len() == 0 {
        assert(ascii_bytes(characters) =~= Seq::<u8>::empty());
    } else {
        let shorter = characters.drop_last();
        assert(inside_sequence(shorter)) by {
            assert forall|i: int| 0 <= i < shorter.len() implies ((#[trigger] shorter[i]) as u32)
                < 128 && !ends_sequence(shorter[i] as u8) by {
                assert(shorter[i] == characters[i]);
            }
        }
        lemma_sequence_collected(reader, prefix, shorter, blocking);
        assert(characters[characters.len() - 1] == characters.last());
        assert(ascii_bytes(shorter).push(characters.last() as u8) =~= ascii_bytes(characters));
    }
}

proof fn lemma_sequence_decoded(keys: Seq<u8>, start: int, at: int)
    requires
        0 <= start <= at < keys.len(),
        at - start <= 31,
        keys.len() - start <= 32,
        forall|i: int| at <= i < keys.len() - 1 ==> !ends_sequence(#[trigger] keys[i]),
        ends_sequence(keys.last()),
    ensures
        ({
            let key = sequence_key(keys[start], keys.last());
            sequence_at(keys, start, at) == (Decoded {
                key,
                special: is_special_key(key),
                next: keys.len() as int,
            })
        }),
    decreases keys.len() - at,
{
    if at < keys.len() - 1 {
        lemma_sequence_decoded(keys, start, at + 1);
    }
}

/// An escape sequence that comes as events, one by one, is the same key as its
/// bytes are when they come at once.
pub proof fn lemma_sequence_events_are_its_bytes(
    reader: ReaderView,
    prefix: u8,
    characters: Seq<char>,
    last: char,
    blocking: bool,
)
    requires
        prefix == 91 || prefix == 79,
        reader.phase == (Phase::Sequence { prefix }),
        reader.sequence == Seq::<u8>::empty(),
        inside_sequence(characters),
        characters.len() <= 31,
        (last as u32) < 128,
        ends_sequence(last as u8),
    ensures
        ({
            let bytes = seq![27u8, prefix] + ascii_bytes(characters.push(last));
            let decoded = key_at(bytes, 0);
            let (after, step) = characters_read(reader, characters, blocking).fed(
                character_pressed(last),
                blocking,
            );
            &&& step == Step::Key(decoded.key)
            &&& after.special == decoded.special
            &&& decoded.next == bytes.len()
            &&& after.pending == reader.pending
            &&& after.phase == Phase::Ready
        }),
{
    let body = ascii_bytes(characters);
    let bytes = seq![27u8, prefix] + ascii_bytes(characters.push(last));
    lemma_sequence_collected(reader, prefix, characters, blocking);
    assert(body.push(last as u8) =~= ascii_bytes(characters.push(last)));
    assert(bytes.last() == last as u8);
    assert forall|i: int| 2 <= i < bytes.len() - 1 implies !ends_sequence(#[trigger] bytes[i]) by {
        assert(bytes[i] == characters[i - 2] as u8);
    }
    lemma_sequence_decoded(bytes, 2, 2);
    assert(first_byte(body.push(last as u8)) == bytes[2]);
}

/// Whether, where two byte strings follow each other, no key from `at` on
/// reaches from the first one into the second one.
pub open spec fn splits_between_keys(first: Seq<u8>, second: Seq<u8>, at: int) -> bool
    decreases first.len() - at,
{
    if at < 0 || at >= first.len() {
        at == first.len()
    } else {
        let next = key_at(first + second, at).next;
        at < next <= first.len() && splits_between_keys(first, second, next)
    }
}

proof fn lemma_sequence_within(first: Seq<u8>, second: Seq<u8>, start: int, at: int)
    requires
        0 <= start <= at <= first.len(),
        sequence_at(first + second, start, at).next <= first.len(),
    ensures
        sequence_at(first + second, start, at) == sequence_at(first, start, at),
    decreases first.len() - at,
{
    let both = first + second;
    if at < first.len() {
        assert(both[at] == first[at]);
        assert(both[start] == first[start]);
        if !ends_sequence(first[at]) && at + 1 - start < 32 {
            lemma_sequence_within(first, second, start, at + 1);
        }
    } else {
        crate::keys::lemma_sequence_next(both, start, at);
        if at < both.len() {
            if !ends_sequence(both[at]) && at + 1 - start < 32 {
                crate::keys::lemma_sequence_next(both, start, at + 1);
            }
            assert(false);
        }
        assert(both =~= first);
    }
}

proof fn lemma_sequence_behind(first: Seq<u8>, second: Seq<u8>, start: int, at: int)
    requires
        0 <= start <= at <= second.len(),
    ensures
        ({
            let here = sequence_at(second, start, at);
            sequence_at(first + second, first.len() + start, first.len() + at) == (Decoded {
                next: first.len() + here.next,
                ..here
            })
        }),
    decreases second.len() - at,
{
    let both = first + second;
    if at < second.len() {
        assert(both[first.len() + at] == second[at]);
        assert(both[first.len() + start] == second[start]);
        lemma_sequence_behind(first, second, start, at + 1);
    }
}

proof fn lemma_keys_behind(editor: EditorView, first: Seq<u8>, second: Seq<u8>, at: int)
    requires
        0 <= at <= second.len(),
    ensures
        ({
            let (after, next) = editor.keys_taken(second, at);
            editor.keys_taken(first + second, first.len() + at) == (after, first.len() + next)
        }),
    decreases second.len() - at,
{
    let both = first + second;
    if at < second.len() && editor.takes_keys() {
        assert(both[first.len() + at] == second[at]);
        if at + 1 < second.len() {
            assert(both[first.len() + at + 1] == second[at + 1]);
            lemma_sequence_behind(first, second, at + 2, at + 2);
            crate::keys::lemma_sequence_next(second, at + 2, at + 2);
        }
        let decoded = key_at(second, at);
        assert(key_at(both, first.len() + at) == (Decoded {
            next: first.len() + decoded.next,
            ..decoded
        }));
        lemma_keys_behind(
            editor.key_pressed(decoded.key, decoded.special),
            first,
            second,
            decoded.next,
        );
    }
}

proof fn lemma_keys_before(editor: EditorView, first: Seq<u8>, second: Seq<u8>, at: int)
    requires
        0 <= at <= first.len(),
        splits_between_keys(first, second, at),
        editor.keys_taken(first, at).1 == first.len(),
    ensures
        editor.keys_taken(first + second, at) == editor.keys_taken(first, at).0.keys_taken(
            first + second,
            first.len() as int,
        ),
    decreases first.len() - at,
{
    let both = first + second;
    if at < first.len() {
        assert(both[at] == first[at]);
        if at + 1 < both.len() && at + 1 < first.len() {
            assert(both[at + 1] == first[at + 1]);
            if first[at] == 27 && (first[at + 1] == 91 || first[at + 1] == 79) {
                lemma_sequence_within(first, second, at + 2, at + 2);
            }
        } else if at + 1 < both.len() {
            assert(both[at + 1] == second[0]);
            if first[at] == 27 && (second[0] == 91 || second[0] == 79) {
                crate::keys::lemma_sequence_next(both, at + 2, at + 2);
            }
        }
        let decoded = key_at(both, at);
        assert(decoded == key_at(first, at));
        lemma_keys_before(
            editor.key_pressed(decoded.key, decoded.special),
            first,
            second,
            decoded.next,
        );
    }
}

/// Keys that are fed in pieces do what they do in one piece, as long as the
/// pieces are split between two keys and the first piece is taken as a whole.
pub proof fn lemma_keys_in_pieces(editor: EditorView, first: Seq<u8>, second: Seq<u8>)
    requires
        splits_between_keys(first, second, 0),
        editor.keys_taken(first, 0).1 == first.len(),
    ensures
        ({
            let (middle, _) = editor.keys_taken(first, 0);
            let (after, next) = middle.keys_taken(second, 0);
            editor.keys_taken(first + second, 0) == (after, first.len() + next)
        }),
{
    lemma_keys_before(editor, first, second, 0);
    lemma_keys_behind(editor.keys_taken(first, 0).0, first, second, 0);
}

/// Whether the recorded starts of the lines are where the lines are.
pub open spec fn starts_known(syntax: SyntaxView, lines: Seq<Seq<u8>>) -> bool {
    &&& syntax.line_offsets.len() == lines.len()
    &&& forall|i: int|
        0 <= i < lines.len() ==> #[trigger] syntax.line_offset(i) == offset_of_line(lines, i)
}

/// How far the recorded shifts reach altogether, up or down.
pub open spec fn shift_spread(shifts: Seq<(usize, isize)>) -> int
    decreases shifts.len(),
{
    if shifts.len() == 0 {
        0
    } else {
        shift_spread(shifts.drop_last()) + (if shifts.last().1 >= 0 {
            shifts.last().1 as int
        } else {
            -shifts.last().1
        })
    }
}

proof fn lemma_shift_sum_bound(shifts: Seq<(usize, isize)>, line: int)
    requires
        shift_spread(shifts) <= isize::MAX,
    ensures
        -shift_spread(shifts) <= shift_sum(shifts, line) <= shift_spread(shifts),
    decreases shifts.len(),
{
    if shifts.len() > 0 {
        lemma_spread_nonnegative(shifts.drop_last());
        lemma_shift_sum_bound(shifts.drop_last(), line);
    }
}

proof fn lemma_spread_nonnegative(shifts: Seq<(usize, isize)>)
    ensures
        shift_spread(shifts) >= 0,
    decreases shifts.len(),
{
    if shifts.len() > 0 {
        lemma_spread_nonnegative(shifts.drop_last());
    }
}

/// One more shift moves the lines behind it and no others.
proof fn lemma_shift_added(syntax: SyntaxView, row: int, delta: int, line: int)
    requires
        0 <= row < usize::MAX,
        shift_spread(syntax.shifts) + (if delta >= 0 {
            delta
        } else {
            -delta
        }) <= isize::MAX,
    ensures
        shift_sum(syntax.shifted(row, delta).shifts, line) == shift_sum(syntax.shifts, line) + (
        if line > row {
            delta
        } else {
            0
        }),
{
    let shifts = syntax.shifts;
    let more = syntax.shifted(row, delta).shifts;
    lemma_shift_sum_bound(shifts, line);
    if delta != 0 {
        if shifts.len() > 0 && shifts.last().0 == row + 1 {
            let rest = shifts.drop_last();
            assert(more.drop_last() =~= rest);
            lemma_spread_nonnegative(rest);
            lemma_shift_sum_bound(rest, line);
        } else {
            assert(more.drop_last() =~= shifts);
        }
    }
}

/// The bytes before a line, once bytes of line `row` were replaced.
proof fn lemma_offset_after_edit(lines: Seq<Seq<u8>>, row: int, line: Seq<u8>, upto: int)
    requires
        0 <= row < lines.len(),
        0 <= upto <= lines.len(),
    ensures
        offset_of_line(lines.update(row, line), upto) == offset_of_line(lines, upto) + (if upto
            > row {
            line.len() - lines[row].len()
        } else {
            0
        }),
    decreases upto,
{
    if upto > 0 {
        let after = lines.update(row, line);
        lemma_offset_after_edit(lines, row, line, upto - 1);
        assert(lines.subrange(0, upto).drop_last() =~= lines.subrange(0, upto - 1));
        assert(after.subrange(0, upto).drop_last() =~= after.subrange(0, upto - 1));
    }
}

/// The recorded starts of the lines stay right while bytes of a line are
/// replaced, though only the shifts are written down, those of one line in a
/// row as one. The sizes are those that a machine can hold.
pub proof fn lemma_line_starts_follow_edits(
    doc: DocView,
    row: int,
    start: int,
    end: int,
    inserted: Seq<u8>,
)
    requires
        0 <= row < doc.lines.len() < usize::MAX,
        0 <= start <= end <= doc.lines[row].len(),
        starts_known(doc.syntax, doc.lines),
        serialized_len(doc.lines) + inserted.len() <= isize::MAX,
        shift_spread(doc.syntax.shifts) + (end - start) + inserted.len() <= isize::MAX,
    ensures
        ({
            let after = doc.bytes_replaced(row, start, end, inserted);
            after.syntax.highlights.len() > 0 ==> starts_known(after.syntax, after.lines)
        }),
{
    let after = doc.bytes_replaced(row, start, end, inserted);
    let removed = doc.lines[row].subrange(start, end);
    let delta = inserted.len() - (end - start);
    if removed != inserted && after.syntax.highlights.len() > 0 {
        let line = splice(doc.lines[row], start, end, inserted);
        let adjusted = doc.syntax.adjusted(
            fit(doc.syntax.line_offset(row) + start),
            removed.len() as int,
            inserted.len() as int,
        );
        let edited = doc.syntax.bytes_edited(
            row,
            start,
            removed.len() as int,
            inserted.len() as int,
        );
        assert(after.syntax == edited.marked(true));
        assert(edited.highlights.len() > 0);
        assert(doc.syntax.highlights.len() > 0);
        assert(removed.len() == end - start);
        assert(fit_signed(inserted.len() - removed.len()) == delta) by {
            lemma_spread_nonnegative(doc.syntax.shifts);
        }
        assert(edited == adjusted.shifted(row, delta));
        assert(adjusted.highlights.len() > 0);
        assert(adjusted.shifts == doc.syntax.shifts);
        assert(after.syntax.shifts == edited.shifts);
        assert(after.syntax.line_offsets == doc.syntax.line_offsets);
        assert forall|i: int| 0 <= i < after.lines.len() implies #[trigger] after.syntax.line_offset(
            i,
        ) == offset_of_line(after.lines, i) by {
            assert(doc.syntax.line_offset(i) == offset_of_line(doc.lines, i));
            lemma_offset_after_edit(doc.lines, row, line, i);
            lemma_shift_added(adjusted, row, delta, i);
            lemma_shift_sum_bound(doc.syntax.shifts, i);
            lemma_offset_bound(doc.lines, i);
            lemma_offset_bound(after.lines, i);
            lemma_serialized_after_edit(doc.lines, row, line);
        }
    }
}

proof fn lemma_serialized_after_edit(lines: Seq<Seq<u8>>, row: int, line: Seq<u8>)
    requires
        0 <= row < lines.len(),
    ensures
        serialized_len(lines.update(row, line)) == serialized_len(lines) + line.len()
            - lines[row].len(),
{
    lemma_offset_after_edit(lines, row, line, lines.len() as int);
    assert(lines.subrange(0, lines.len() as int) =~= lines);
    let after = lines.update(row, line);
    assert(after.subrange(0, lines.len() as int) =~= after);
}

proof fn lemma_offset_bound(lines: Seq<Seq<u8>>, upto: int)
    requires
        0 <= upto <= lines.len(),
    ensures
        upto <= offset_of_line(lines, upto) <= serialized_len(lines),
    decreases lines.len(),
{
    if upto == lines.len() {
        assert(lines.subrange(0, upto) =~= lines);
        lemma_serialized_len_bound(lines);
    } else {
        lemma_offset_bound(lines.drop_last(), upto);
        assert(lines.drop_last().subrange(0, upto) =~= lines.subrange(0, upto));
    }
}

proof fn lemma_serialized_len_bound(lines: Seq<Seq<u8>>)
    ensures
        serialized_len(lines) >= lines.len(),
    decreases lines.len(),
{
    if lines.len() > 0 {
        lemma_serialized_len_bound(lines.drop_last());
    }
}

/// Replacing bytes of a line replaces the same bytes of the whole text.
proof fn lemma_edit_of_text(lines: Seq<Seq<u8>>, row: int, start: int, end: int, inserted: Seq<u8>)
    requires
        0 <= row < lines.len(),
        0 <= start <= end <= lines[row].len(),
    ensures
        ({
            let at = offset_of_line(lines, row);
            &&& join_lines(lines.update(row, splice(lines[row], start, end, inserted))) == splice(
                join_lines(lines),
                at + start,
                at + end,
                inserted,
            )
            &&& at + lines[row].len() <= join_lines(lines).len()
            &&& join_lines(lines).len() == serialized_len(lines) - 1
        }),
    decreases lines.len(),
{
    let line = splice(lines[row], start, end, inserted);
    let after = lines.update(row, line);
    let rest = lines.drop_last();
    if lines.len() == 1 {
        assert(lines.subrange(0, 0) =~= Seq::<Seq<u8>>::empty());
        assert(rest =~= Seq::<Seq<u8>>::empty());
        assert(join_lines(lines) =~= lines[0]);
        assert(join_lines(after) =~= line);
        reveal_with_fuel(serialized_len, 2);
    } else if row == lines.len() - 1 {
        lemma_edit_of_text(rest, 0, 0, 0, Seq::empty());
        assert(lines.subrange(0, row) =~= rest);
        assert(after.drop_last() =~= rest);
        let head = join_lines(rest).push(NEWLINE);
        assert(join_lines(lines) == head + lines.last());
        assert(join_lines(after) == head + line);
        assert(join_lines(after) =~= splice(
            join_lines(lines),
            head.len() + start,
            head.len() + end,
            inserted,
        ));
    } else {
        lemma_edit_of_text(rest, row, start, end, inserted);
        assert(lines.subrange(0, row) =~= rest.subrange(0, row));
        assert(after.drop_last() =~= rest.update(row, line));
        let at = offset_of_line(lines, row);
        lemma_offset_bound(rest, row);
        assert(join_lines(after) =~= splice(join_lines(lines), at + start, at + end, inserted));
    }
}

/// A styled range in front of an edit stays, and one behind it moves along, so
/// that both cover the same bytes of the text as before. The sizes are those
/// that a machine can hold.
pub proof fn lemma_styles_follow_text(
    lines: Seq<Seq<u8>>,
    row: int,
    start: int,
    end: int,
    inserted: Seq<u8>,
    span: HighlightSpan,
)
    requires
        0 <= row < lines.len(),
        0 <= start <= end <= lines[row].len(),
        serialized_len(lines) + inserted.len() <= isize::MAX,
        span.start <= span.end <= join_lines(lines).len(),
        span.end <= offset_of_line(lines, row) + start || span.start >= offset_of_line(lines, row)
            + end,
    ensures
        ({
            let after = lines.update(row, splice(lines[row], start, end, inserted));
            let kept = adjusted_span(
                span,
                offset_of_line(lines, row) + start,
                end - start,
                inserted.len() as int,
            );
            &&& kept.len() == 1
            &&& kept[0].style == span.style
            &&& kept[0].start <= kept[0].end <= join_lines(after).len()
            &&& join_lines(after).subrange(kept[0].start as int, kept[0].end as int) == join_lines(
                lines,
            ).subrange(span.start as int, span.end as int)
        }),
{
    let at = offset_of_line(lines, row);
    let after = lines.update(row, splice(lines[row], start, end, inserted));
    lemma_edit_of_text(lines, row, start, end, inserted);
    lemma_offset_bound(lines, row);
    let kept = adjusted_span(span, at + start, end - start, inserted.len() as int);
    assert(join_lines(after).subrange(kept[0].start as int, kept[0].end as int) =~= join_lines(
        lines,
    ).subrange(span.start as int, span.end as int));
}

/// What a terminal prints of bytes with escape sequences that end in `m`:
/// `inside` tells whether the bytes begin within one.
pub open spec fn printed(bytes: Seq<u8>, inside: bool) -> Seq<u8>
    decreases bytes.len(),
{
    if bytes.len() == 0 {
        Seq::empty()
    } else {
        let rest = bytes.subrange(1, bytes.len() as int);
        if inside {
            printed(rest, bytes[0] != 109)
        } else if bytes[0] == 27 {
            printed(rest, true)
        } else {
            seq![bytes[0]] + printed(rest, false)
        }
    }
}

/// What a line shows from byte `at` on, which is shown from `column` on,
/// without any styles.
pub open spec fn bare_from(line: Seq<u8>, look: LineLook, at: int, column: int) -> Seq<u8>
    decreases line.len() - at,
{
    if at < 0 || at >= line.len() || column >= look.end {
        Seq::empty()
    } else {
        let end = fit(column + fragment_width(line[at], column, look.tabstop));
        let first = imax(look.left, column);
        let last = imin(look.end, end);
        (if first < last {
            fragment_text(line[at], first - column, last - column)
        } else {
            Seq::empty()
        }) + bare_from(line, look, at + 1, end)
    }
}

pub(crate) proof fn lemma_text_printed(text: Seq<u8>, rest: Seq<u8>)
    requires
        !text.contains(27),
    ensures
        printed(text + rest, false) == text + printed(rest, false),
    decreases text.len(),
{
    if text.len() == 0 {
        assert(text + rest =~= rest);
        assert(text + printed(rest, false) =~= printed(rest, false));
    } else {
        let shorter = text.subrange(1, text.len() as int);
        assert(!shorter.contains(27)) by {
            if shorter.contains(27) {
                let i = choose|i: int| 0 <= i < shorter.len() && shorter[i] == 27;
                assert(text[i + 1] == 27);
            }
        }
        lemma_text_printed(shorter, rest);
        assert(text.contains(text[0]));
        assert((text + rest).subrange(1, (text + rest).len() as int) =~= shorter + rest);
        assert(seq![text[0]] + (shorter + printed(rest, false)) =~= text + printed(rest, false));
    }
}

proof fn lemma_escape_not_printed(params: Seq<u8>, rest: Seq<u8>)
    requires
        !params.contains(109),
    ensures
        printed(params + seq![109u8] + rest, true) == printed(rest, false),
    decreases params.len(),
{
    let all = params + seq![109u8] + rest;
    if params.len() == 0 {
        assert(all[0] == 109);
        assert(all.subrange(1, all.len() as int) =~= rest);
    } else {
        let shorter = params.subrange(1, params.len() as int);
        assert(!shorter.contains(109)) by {
            if shorter.contains(109) {
                let i = choose|i: int| 0 <= i < shorter.len() && shorter[i] == 109;
                assert(params[i + 1] == 109);
            }
        }
        assert(params.contains(params[0]));
        assert(all.subrange(1, all.len() as int) =~= shorter + seq![109u8] + rest);
        lemma_escape_not_printed(shorter, rest);
    }
}

/// Whether bytes are digits and semicolons.
spec fn parameters(bytes: Seq<u8>) -> bool {
    forall|i: int| 0 <= i < bytes.len() ==> 48 <= #[trigger] bytes[i] <= 59
}

proof fn lemma_decimal_is_parameter(n: nat)
    ensures
        parameters(decimal_bytes(n)),
    decreases n,
{
    if n >= 10 {
        lemma_decimal_is_parameter(n / 10);
    }
}

proof fn lemma_color_is_parameter(color: HighlightColor, channel: u8)
    ensures
        parameters(color_sgr(color, channel)),
{
    lemma_decimal_is_parameter(channel as nat);
    match color {
        HighlightColor::Ansi(value) => {
            lemma_decimal_is_parameter(value as nat);
        },
        HighlightColor::Rgb { red, green, blue } => {
            lemma_decimal_is_parameter(red as nat);
            lemma_decimal_is_parameter(green as nat);
            lemma_decimal_is_parameter(blue as nat);
        },
    }
}

#[verifier::spinoff_prover]
#[verifier::rlimit(40)]
pub(crate) proof fn lemma_style_not_printed(style: HighlightStyle, rest: Seq<u8>)
    ensures
        printed(sgr(style) + rest, false) == printed(rest, false),
{
    let params = sgr_params(style);
    if style.foreground is Some {
        lemma_color_is_parameter(style.foreground->0, 38);
    }
    if style.background is Some {
        lemma_color_is_parameter(style.background->0, 48);
    }
    assert(parameters(params));
    let inner = seq![91u8] + params;
    let all = sgr(style) + rest;
    assert(!inner.contains(109)) by {
        if inner.contains(109) {
            let i = choose|i: int| 0 <= i < inner.len() && inner[i] == 109;
            if i > 0 {
                assert(params[i - 1] == 109);
            }
        }
    }
    assert(all[0] == 27);
    assert(all.subrange(1, all.len() as int) =~= inner + seq![109u8] + rest);
    lemma_escape_not_printed(inner, rest);
}

pub(crate) proof fn lemma_short_escape_not_printed(param: u8, rest: Seq<u8>)
    requires
        param != 109,
    ensures
        printed(seq![27u8, 91, param, 109] + rest, false) == printed(rest, false),
{
    let inner = seq![91u8, param];
    let all = seq![27u8, 91, param, 109] + rest;
    assert(all[0] == 27);
    assert(all.subrange(1, all.len() as int) =~= inner + seq![109u8] + rest);
    assert(!inner.contains(109));
    lemma_escape_not_printed(inner, rest);
}

proof fn lemma_reset_not_printed(style: Option<HighlightStyle>, selected: bool, rest: Seq<u8>)
    ensures
        printed(reset_text(style, selected) + rest, false) == printed(rest, false),
{
    if style is Some || selected {
        lemma_short_escape_not_printed(48, rest);
    } else {
        assert(Seq::<u8>::empty() + rest =~= rest);
    }
}

proof fn lemma_switch_not_printed(
    style: Option<HighlightStyle>,
    selected: bool,
    new_style: Option<HighlightStyle>,
    new_selected: bool,
    rest: Seq<u8>,
)
    ensures
        printed(switch_text(style, selected, new_style, new_selected) + rest, false) == printed(
            rest,
            false,
        ),
{
    let switch = switch_text(style, selected, new_style, new_selected);
    if style == new_style && selected == new_selected {
        assert(switch + rest =~= rest);
    } else {
        let inverse = if new_selected {
            seq![27u8, 91, 55, 109]
        } else {
            Seq::empty()
        };
        let shown = match new_style {
            Some(other) => sgr(other),
            None => Seq::empty(),
        };
        let reset = reset_text(style, selected);
        assert(switch + rest =~= reset + (shown + (inverse + rest)));
        lemma_reset_not_printed(style, selected, shown + (inverse + rest));
        match new_style {
            Some(other) => lemma_style_not_printed(other, inverse + rest),
            None => assert(shown + (inverse + rest) =~= inverse + rest),
        }
        if new_selected {
            lemma_short_escape_not_printed(55, rest);
        } else {
            assert(inverse + rest =~= rest);
        }
    }
}

/// What one byte of a line shows, without any styles.
spec fn bare_byte(look: LineLook, byte: u8, column: int) -> Seq<u8> {
    let end = fit(column + fragment_width(byte, column, look.tabstop));
    let first = imax(look.left, column);
    let last = imin(look.end, end);
    if first < last {
        fragment_text(byte, first - column, last - column)
    } else {
        Seq::empty()
    }
}

proof fn lemma_byte_prints(look: LineLook, byte: u8, at: int, pen: PenView, behind: Seq<u8>)
    requires
        0 <= pen.column,
        0 <= look.left,
    ensures
        printed(byte_shown(look, byte, at, pen).0 + behind, false) == bare_byte(
            look,
            byte,
            pen.column,
        ) + printed(behind, false),
        byte_shown(look, byte, at, pen).1.column == fit(
            pen.column + fragment_width(byte, pen.column, look.tabstop),
        ),
{
    reveal(byte_shown);
    let (text, next) = byte_shown(look, byte, at, pen);
    let piece = bare_byte(look, byte, pen.column);
    let first = imax(look.left, pen.column);
    let last = imin(look.end, next.column);
    if first < last {
        let switch = switch_text(pen.style, pen.selected, next.style, next.selected);
        assert(text + behind =~= switch + (piece + behind));
        lemma_switch_not_printed(
            pen.style,
            pen.selected,
            next.style,
            next.selected,
            piece + behind,
        );
        assert(!piece.contains(27)) by {
            if piece.contains(27) {
                let i = choose|i: int| 0 <= i < piece.len() && piece[i] == 27;
                assert(piece[i] == 27);
            }
        }
        lemma_text_printed(piece, behind);
    } else {
        assert(text + behind =~= behind);
        assert(piece + printed(behind, false) =~= printed(behind, false));
    }
}

pub(crate) proof fn lemma_shown_from_prints_text(
    line: Seq<u8>,
    look: LineLook,
    at: int,
    pen: PenView,
    behind: Seq<u8>,
)
    requires
        0 <= pen.column,
        0 <= look.left,
    ensures
        printed(shown_from(line, look, at, pen).0 + behind, false) == bare_from(
            line,
            look,
            at,
            pen.column,
        ) + printed(behind, false),
    decreases line.len() - at,
{
    if at < 0 || at >= line.len() || pen.column >= look.end {
        lemma_reset_not_printed(pen.style, pen.selected, behind);
        assert(Seq::<u8>::empty() + printed(behind, false) =~= printed(behind, false));
    } else {
        let (text, next) = byte_shown(look, line[at], at, pen);
        let rest = shown_from(line, look, at + 1, next).0;
        lemma_byte_prints(look, line[at], at, pen, rest + behind);
        lemma_shown_from_prints_text(line, look, at + 1, next, behind);
        let piece = bare_byte(look, line[at], pen.column);
        let bare = bare_from(line, look, at + 1, next.column);
        assert(text + rest + behind =~= text + (rest + behind));
        assert(bare_from(line, look, at, pen.column) == piece + bare);
        assert(piece + (bare + printed(behind, false)) =~= (piece + bare) + printed(behind, false));
    }
}

/// Whatever the styled ranges are, sorted or not, overlapping or out of
/// bounds, and whatever is selected, a line prints the same text as without
/// them.
pub proof fn lemma_styles_leave_text_alone(line: Seq<u8>, look: LineLook, cursors: Cursors)
    requires
        0 <= look.left,
    ensures
        printed(shown_line(line, look, cursors).0, false) == bare_from(line, look, 0, 0),
{
    lemma_shown_from_prints_text(
        line,
        look,
        0,
        PenView { column: 0, style: None, selected: false, cursors },
        Seq::empty(),
    );
    let shown = shown_line(line, look, cursors).0;
    assert(shown + Seq::<u8>::empty() =~= shown);
    assert(bare_from(line, look, 0, 0) + Seq::<u8>::empty() =~= bare_from(line, look, 0, 0));
}

} // verus!
