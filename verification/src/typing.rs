//! What typing makes of the text, said of the keys and the lines.
use crate::bytes::{is_control, splice};
use crate::changes::{lemma_all_keys, lemma_next_key, lemma_one_key, taken_from};
use crate::counting::{lemma_settled, lemma_uncounted};
use crate::editor::EditorView;
use crate::messages::Mode;
use crate::moving::within_line;
use crate::screen::display_column;
use vstd::prelude::*;

verus! {

/// Whether text is being typed, and the next key is for it.
pub open spec fn types_text(editor: EditorView) -> bool {
    &&& editor.takes_keys()
    &&& editor.input.mode == Mode::Insert
    &&& editor.input.awaiting is Nothing
    &&& editor.input.replay is None
    &&& !editor.message.hit_return
}

/// Whether bytes are characters that a keyboard types.
pub open spec fn typeable(bytes: Seq<u8>) -> bool {
    forall|i: int| 0 <= i < bytes.len() ==> 32 <= #[trigger] bytes[i] < 127
}

/// The line with bytes put in at a place.
pub open spec fn with_bytes_at(line: Seq<u8>, at: int, bytes: Seq<u8>) -> Seq<u8> {
    line.subrange(0, at) + bytes + line.subrange(at, line.len() as int)
}

/// A byte that is typed stands before the cursor's byte.
pub(crate) proof fn lemma_byte_typed(editor: EditorView, byte: u8)
    requires
        editor.input.mode == Mode::Insert,
        0 <= editor.doc.row < editor.doc.lines.len(),
        0 <= editor.doc.col <= editor.doc.line().len(),
        32 <= byte < 127,
    ensures
        ({
            let after = editor.typed(byte, false);
            &&& after.doc.lines == editor.doc.lines.update(
                editor.doc.row,
                with_bytes_at(editor.doc.line(), editor.doc.col, seq![byte]),
            )
            &&& after.doc.row == editor.doc.row
            &&& after.doc.col == editor.doc.col + 1
            &&& after.input.mode == Mode::Insert
            &&& after.input.awaiting == editor.input.awaiting
            &&& after.input.replay == editor.input.replay
            &&& after.input.replaying == editor.input.replaying
            &&& !editor.input.replaying ==> after.input.last_change
                == editor.input.last_change.push(byte)
            &&& after.files == editor.files
            &&& after.message == editor.message
            &&& after.options == editor.options
            &&& after.registers == editor.registers
        }),
{
    reveal(EditorView::typed);
    let line = editor.doc.line();
    let col = editor.doc.col;
    assert(line.subrange(col, col).len() == 0);
    assert(seq![byte].len() == 1);
}

/// A key that is typed, as it is taken.
proof fn lemma_key_typed(editor: EditorView, key: u8)
    requires
        types_text(editor),
        editor.cleared().typed(key, false).input.replay is None,
    ensures
        editor.pressed(key) == editor.cleared().typed(key, false),
{
    reveal(EditorView::pressed);
    reveal(EditorView::key_handled);
    lemma_settled(editor.cleared().typed(key, false));
}

/// Bytes that are typed one after the other stand before the cursor's byte, in
/// the order that they were typed in.
pub(crate) proof fn lemma_run_typed(editor: EditorView, keys: Seq<u8>, at: int, bytes: Seq<u8>)
    requires
        types_text(editor),
        0 <= editor.doc.row < editor.doc.lines.len(),
        0 <= editor.doc.col <= editor.doc.line().len(),
        typeable(bytes),
        0 <= at,
        at + bytes.len() <= keys.len(),
        forall|i: int| 0 <= i < bytes.len() ==> keys[at + i] == #[trigger] bytes[i],
    ensures
        exists|after: EditorView|
            {
                &&& taken_from(editor, keys, at) == #[trigger] taken_from(
                    after,
                    keys,
                    at + bytes.len(),
                )
                &&& types_text(after)
                &&& after.doc.lines == editor.doc.lines.update(
                    editor.doc.row,
                    with_bytes_at(editor.doc.line(), editor.doc.col, bytes),
                )
                &&& after.doc.row == editor.doc.row
                &&& after.doc.col == editor.doc.col + bytes.len()
                &&& after.input.replaying == editor.input.replaying
                &&& !editor.input.replaying ==> after.input.last_change
                    == editor.input.last_change + bytes
                &&& after.options == editor.options
                &&& after.registers == editor.registers
            },
    decreases bytes.len(),
{
    let line = editor.doc.line();
    let col = editor.doc.col;
    if bytes.len() == 0 {
        assert(with_bytes_at(line, col, bytes) =~= line);
        assert(editor.doc.lines.update(editor.doc.row, line) =~= editor.doc.lines);
        assert(editor.input.last_change + bytes =~= editor.input.last_change);
        assert(taken_from(editor, keys, at) == taken_from(editor, keys, at + bytes.len()));
    } else {
        let byte = bytes[0];
        let rest = bytes.subrange(1, bytes.len() as int);
        assert(keys[at + 0] == byte);
        assert forall|i: int| 0 <= i < rest.len() implies keys[at + 1 + i] == #[trigger] rest[i] by {
            assert(keys[at + (i + 1)] == bytes[i + 1]);
        }
        lemma_next_key(editor, keys, at);
        lemma_byte_typed(editor.cleared(), byte);
        lemma_key_typed(editor, byte);
        let next = editor.pressed(byte);
        lemma_run_typed(next, keys, at + 1, rest);
        let after = choose|after: EditorView|
            {
                &&& taken_from(next, keys, at + 1) == #[trigger] taken_from(
                    after,
                    keys,
                    at + 1 + rest.len(),
                )
                &&& types_text(after)
                &&& after.doc.lines == next.doc.lines.update(
                    next.doc.row,
                    with_bytes_at(next.doc.line(), next.doc.col, rest),
                )
                &&& after.doc.row == next.doc.row
                &&& after.doc.col == next.doc.col + rest.len()
                &&& after.input.replaying == next.input.replaying
                &&& !next.input.replaying ==> after.input.last_change == next.input.last_change
                    + rest
                &&& after.options == next.options
                &&& after.registers == next.registers
            };
        let made = with_bytes_at(line, col, seq![byte]);
        assert(next.doc.line() == made);
        assert(with_bytes_at(made, col + 1, rest) =~= with_bytes_at(line, col, bytes));
        assert(after.doc.lines =~= editor.doc.lines.update(
            editor.doc.row,
            with_bytes_at(line, col, bytes),
        ));
        assert(editor.input.last_change.push(byte) + rest =~= editor.input.last_change + bytes);
        assert(taken_from(editor, keys, at) == taken_from(after, keys, at + bytes.len()));
    }
}

/// Escape ends typing: the cursor goes onto the last byte that was typed.
proof fn lemma_escape(editor: EditorView)
    requires
        types_text(editor),
        0 <= editor.doc.row < editor.doc.lines.len(),
        0 <= editor.doc.col,
    ensures
        ({
            let after = editor.key_pressed(27, false);
            &&& after.at_rest()
            &&& after.doc.lines == editor.doc.lines
            &&& after.doc.row == editor.doc.row
            &&& after.doc.col == within_line(
                editor.doc.line(),
                if editor.doc.col > 0 {
                    editor.doc.col - 1
                } else {
                    0
                },
            )
            &&& after.input.last_change == editor.input.last_change
            &&& after.input.replaying == editor.input.replaying
            &&& after.registers == editor.registers
            &&& after.options == editor.options
        }),
{
    reveal(EditorView::key_handled);
    reveal(EditorView::typed);
    lemma_settled(editor.cleared().typed(27, false));
}

/// The last key of all, where it is an escape.
pub(crate) proof fn lemma_last_escape(editor: EditorView, keys: Seq<u8>)
    requires
        editor.takes_keys(),
        keys.len() > 0,
        keys.last() == 27,
    ensures
        taken_from(editor, keys, keys.len() - 1) == editor.key_pressed(27, false),
{
    reveal(taken_from);
    let at = keys.len() - 1;
    let decoded = crate::keys::key_at(keys, at);
    assert(editor.keys_taken(keys, at) == editor.key_pressed(
        decoded.key,
        decoded.special,
    ).keys_taken(keys, decoded.next));
}

/// A key that begins to type text, the text, and escape.
pub(crate) proof fn lemma_text_typed(editor: EditorView, key: u8, bytes: Seq<u8>)
    requires
        editor.at_rest(),
        key != 27,
        types_text(editor.pressed(key)),
        ({
            let began = editor.pressed(key);
            &&& 0 <= began.doc.row < began.doc.lines.len()
            &&& 0 <= began.doc.col <= began.doc.line().len()
        }),
        typeable(bytes),
    ensures
        ({
            let began = editor.pressed(key);
            let after = editor.after_keys(seq![key] + bytes + seq![27u8]);
            let end = began.doc.col + bytes.len();
            let line = with_bytes_at(began.doc.line(), began.doc.col, bytes);
            &&& after.at_rest()
            &&& after.doc.lines == began.doc.lines.update(began.doc.row, line)
            &&& after.doc.row == began.doc.row
            &&& after.doc.col == (if end > 0 {
                end - 1
            } else {
                0
            })
            &&& !began.input.replaying ==> after.input.last_change == began.input.last_change
                + bytes
            &&& after.input.replaying == began.input.replaying
            &&& after.registers == began.registers
            &&& after.options == began.options
        }),
{
    let keys = seq![key] + bytes + seq![27u8];
    let began = editor.pressed(key);
    lemma_all_keys(editor, keys);
    assert(keys[0] == key);
    lemma_next_key(editor, keys, 0);
    assert forall|i: int| 0 <= i < bytes.len() implies keys[1 + i] == #[trigger] bytes[i] by {}
    lemma_run_typed(began, keys, 1, bytes);
    let typed = choose|after: EditorView|
        {
            &&& taken_from(began, keys, 1) == #[trigger] taken_from(
                after,
                keys,
                1int + bytes.len(),
            )
            &&& types_text(after)
            &&& after.doc.lines == began.doc.lines.update(
                began.doc.row,
                with_bytes_at(began.doc.line(), began.doc.col, bytes),
            )
            &&& after.doc.row == began.doc.row
            &&& after.doc.col == began.doc.col + bytes.len()
            &&& after.input.replaying == began.input.replaying
            &&& !began.input.replaying ==> after.input.last_change == began.input.last_change
                + bytes
            &&& after.options == began.options
            &&& after.registers == began.registers
        };
    assert(1int + bytes.len() == keys.len() - 1);
    assert(keys.last() == 27);
    lemma_last_escape(typed, keys);
    lemma_escape(typed);
}

/// What the keys that begin to type text do.
pub(crate) proof fn lemma_typing_begins(editor: EditorView, key: u8)
    requires
        editor.wf(),
        editor.at_rest(),
        key == 105 || key == 97 || key == 65 || key == 73,
    ensures
        ({
            let began = editor.pressed(key);
            let line = editor.doc.line();
            &&& types_text(began)
            &&& began.doc.lines == editor.doc.lines
            &&& began.doc.row == editor.doc.row
            &&& key == 105 ==> began.doc.col == editor.doc.col
            &&& key == 97 ==> began.doc.col == (if editor.doc.col + 1 < line.len() {
                editor.doc.col + 1
            } else {
                line.len() as int
            })
            &&& key == 65 ==> began.doc.col == line.len()
            &&& key == 73 ==> began.doc.col == crate::motion::first_nonblank(line)
            &&& began.input.replaying == editor.input.replaying
            &&& !editor.input.replaying ==> began.input.last_change == seq![key]
        }),
{
    lemma_uncounted(editor, key);
    lemma_one_key(editor, key);
    reveal(EditorView::typing_begun);
    reveal(EditorView::settled);
}

/// Whether a text was typed into the line of the cursor at a place: it stands
/// there, the cursor is on its last byte, and nothing else is changed.
pub open spec fn typed_at(before: EditorView, after: EditorView, at: int, bytes: Seq<u8>) -> bool {
    &&& after.at_rest()
    &&& after.doc.lines == before.doc.lines.update(
        before.doc.row,
        with_bytes_at(before.doc.line(), at, bytes),
    )
    &&& after.doc.row == before.doc.row
    &&& after.doc.col == at + bytes.len() - 1
    &&& after.registers.yank == before.registers.yank
}

/// `i`, a text and escape put the text before the cursor's byte; `a` puts it
/// behind it, `A` at the end of the line, and `I` before the first byte that is
/// no space.
pub proof fn lemma_text_is_inserted(editor: EditorView, bytes: Seq<u8>)
    requires
        editor.wf(),
        editor.at_rest(),
        editor.doc.col < editor.doc.line().len(),
        bytes.len() > 0,
        typeable(bytes),
    ensures
        ({
            let line = editor.doc.line();
            let col = editor.doc.col;
            let first = editor.after_keys(seq![94u8]).doc.col;
            &&& typed_at(editor, editor.after_keys(seq![105u8] + bytes + seq![27u8]), col, bytes)
            &&& typed_at(
                editor,
                editor.after_keys(seq![97u8] + bytes + seq![27u8]),
                col + 1,
                bytes,
            )
            &&& typed_at(
                editor,
                editor.after_keys(seq![65u8] + bytes + seq![27u8]),
                line.len() as int,
                bytes,
            )
            &&& typed_at(editor, editor.after_keys(seq![73u8] + bytes + seq![27u8]), first, bytes)
        }),
{
    lemma_typing_begins(editor, 105);
    lemma_typing_begins(editor, 97);
    lemma_typing_begins(editor, 65);
    lemma_typing_begins(editor, 73);
    lemma_uncounted(editor, 94);
    reveal(EditorView::settled);
    crate::moving::lemma_steps_within(editor.doc.line(), editor.doc.col);
    lemma_registers_kept(editor, 105);
    lemma_registers_kept(editor, 97);
    lemma_registers_kept(editor, 65);
    lemma_registers_kept(editor, 73);
    lemma_text_typed(editor, 105, bytes);
    lemma_text_typed(editor, 97, bytes);
    lemma_text_typed(editor, 65, bytes);
    lemma_text_typed(editor, 73, bytes);
}

proof fn lemma_registers_kept(editor: EditorView, key: u8)
    requires
        editor.wf(),
        editor.at_rest(),
        key == 105 || key == 97 || key == 65 || key == 73,
    ensures
        editor.pressed(key).registers.yank == editor.registers.yank,
{
    lemma_uncounted(editor, key);
    lemma_one_key(editor, key);
    reveal(EditorView::typing_begun);
    reveal(EditorView::settled);
}

/// `o`, a text and escape put a line with the text below the cursor's line, and
/// `O` above it.
pub proof fn lemma_line_is_opened(editor: EditorView, bytes: Seq<u8>)
    requires
        editor.wf(),
        editor.at_rest(),
        editor.doc.lines.len() < usize::MAX,
        typeable(bytes),
    ensures
        ({
            let lines = editor.doc.lines;
            let row = editor.doc.row;
            let below = editor.after_keys(seq![111u8] + bytes + seq![27u8]);
            let above = editor.after_keys(seq![79u8] + bytes + seq![27u8]);
            &&& below.at_rest()
            &&& below.doc.lines == lines.subrange(0, row + 1) + seq![bytes] + lines.subrange(
                row + 1,
                lines.len() as int,
            )
            &&& below.doc.row == row + 1
            &&& above.at_rest()
            &&& above.doc.lines == lines.subrange(0, row) + seq![bytes] + lines.subrange(
                row,
                lines.len() as int,
            )
            &&& above.doc.row == row
        }),
{
    lemma_opened_line(editor, true, bytes);
    lemma_opened_line(editor, false, bytes);
}

proof fn lemma_opened_line(editor: EditorView, below: bool, bytes: Seq<u8>)
    requires
        editor.wf(),
        editor.at_rest(),
        typeable(bytes),
    ensures
        ({
            let key: u8 = if below {
                111
            } else {
                79
            };
            let at = if below {
                editor.doc.row + 1
            } else {
                editor.doc.row
            };
            let lines = editor.doc.lines;
            let after = editor.after_keys(seq![key] + bytes + seq![27u8]);
            &&& after.at_rest()
            &&& after.doc.lines == lines.subrange(0, at) + seq![bytes] + lines.subrange(
                at,
                lines.len() as int,
            )
            &&& after.doc.row == at
        }),
{
    let key: u8 = if below {
        111
    } else {
        79
    };
    let at = if below {
        editor.doc.row + 1
    } else {
        editor.doc.row
    };
    let lines = editor.doc.lines;
    let empty = Seq::<u8>::empty();
    lemma_uncounted(editor, key);
    lemma_one_key(editor, key);
    reveal(EditorView::typing_begun);
    reveal(EditorView::settled);
    let began = editor.pressed(key);
    assert(lines.subrange(at, at).len() == 0);
    assert(seq![empty].len() == 1);
    assert(began.doc.lines == splice(lines, at, at, seq![empty]));
    assert(began.doc.line() == empty);
    lemma_text_typed(editor, key, bytes);
    let after = editor.after_keys(seq![key] + bytes + seq![27u8]);
    assert(with_bytes_at(empty, 0, bytes) =~= bytes);
    assert(after.doc.lines =~= lines.subrange(0, at) + seq![bytes] + lines.subrange(
        at,
        lines.len() as int,
    ));
}

/// `C`, a text and escape put the text in place of the rest of the line, and
/// `S` in place of the whole line.
pub proof fn lemma_rest_is_changed(editor: EditorView, bytes: Seq<u8>)
    requires
        editor.wf(),
        editor.at_rest(),
        editor.doc.col < editor.doc.line().len(),
        typeable(bytes),
    ensures
        ({
            let line = editor.doc.line();
            let col = editor.doc.col;
            let rest = editor.after_keys(seq![67u8] + bytes + seq![27u8]);
            let whole = editor.after_keys(seq![83u8] + bytes + seq![27u8]);
            &&& rest.at_rest()
            &&& rest.doc.lines == editor.doc.lines.update(
                editor.doc.row,
                line.subrange(0, col) + bytes,
            )
            &&& rest.registers.yank.lines == seq![line.subrange(col, line.len() as int)]
            &&& whole.at_rest()
            &&& whole.doc.lines == editor.doc.lines.update(editor.doc.row, bytes)
            &&& whole.registers.yank.lines == seq![line]
        }),
{
    let line = editor.doc.line();
    let col = editor.doc.col;
    let size = line.len() as int;
    let lines = editor.doc.lines;
    let row = editor.doc.row;
    lemma_uncounted(editor, 67);
    lemma_one_key(editor, 67);
    lemma_uncounted(editor, 83);
    lemma_one_key(editor, 83);
    reveal(EditorView::typing_begun);
    reveal(EditorView::settled);
    assert(line.subrange(col, size).len() > 0);
    assert(line.subrange(0, size) =~= line);
    assert(splice(line, col, size, Seq::empty()) =~= line.subrange(0, col));
    assert(splice(line, 0, size, Seq::empty()) =~= Seq::<u8>::empty());
    let began = editor.pressed(67);
    assert(began.doc.lines == lines.update(row, line.subrange(0, col)));
    let emptied = editor.pressed(83);
    assert(emptied.doc.lines == lines.update(row, Seq::<u8>::empty()));
    lemma_text_typed(editor, 67, bytes);
    lemma_text_typed(editor, 83, bytes);
    assert(with_bytes_at(line.subrange(0, col), col, bytes) =~= line.subrange(0, col) + bytes);
    assert(with_bytes_at(Seq::<u8>::empty(), 0, bytes) =~= bytes);
    assert(lines.update(row, line.subrange(0, col)).update(row, line.subrange(0, col) + bytes)
        =~= lines.update(row, line.subrange(0, col) + bytes));
    assert(lines.update(row, Seq::<u8>::empty()).update(row, bytes) =~= lines.update(row, bytes));
}

/// Return breaks the line at the cursor. With `autoindent` the new line begins
/// with the spaces and tabs that the old one begins with.
pub proof fn lemma_line_is_broken(editor: EditorView)
    requires
        editor.wf(),
        types_text(editor),
        editor.doc.col <= editor.doc.line().len(),
    ensures
        ({
            let lines = editor.doc.lines;
            let row = editor.doc.row;
            let line = editor.doc.line();
            let col = editor.doc.col;
            let after = editor.key_pressed(13, false);
            let new = after.doc.lines[row + 1];
            let indent = after.doc.col;
            &&& types_text(after)
            &&& after.doc.lines.len() == lines.len() + 1
            &&& after.doc.lines == lines.subrange(0, row) + seq![line.subrange(0, col), new]
                + lines.subrange(row + 1, lines.len() as int)
            &&& after.doc.row == row + 1
            &&& 0 <= indent <= line.len()
            &&& new == line.subrange(0, indent) + line.subrange(col, line.len() as int)
            &&& !editor.options.autoindent ==> indent == 0
            &&& editor.options.autoindent ==> {
                &&& forall|i: int|
                    0 <= i < indent ==> #[trigger] line[i] == 32 || line[i] == 9
                &&& indent < line.len() ==> line[indent] != 32 && line[indent] != 9
            }
        }),
{
    let lines = editor.doc.lines;
    let row = editor.doc.row;
    let line = editor.doc.line();
    let col = editor.doc.col;
    reveal(EditorView::key_handled);
    reveal(EditorView::typed);
    let done = editor.cleared().typed(13, false);
    lemma_settled(done);
    lemma_indent(line, 0);
    let indent = crate::insert::indent_of(line, editor.options.autoindent);
    let new = indent + line.subrange(col, line.len() as int);
    let pieces = seq![line.subrange(0, col), new];
    assert(lines.subrange(row, row + 1).len() == 1);
    assert(pieces.len() == 2);
    assert(splice(lines, row, row + 1, pieces)[row + 1] == new);
    assert(line.subrange(0, 0) =~= Seq::<u8>::empty());
}

proof fn lemma_indent(line: Seq<u8>, at: int)
    requires
        0 <= at <= line.len(),
    ensures
        ({
            let end = crate::insert::indent_end(line, at);
            &&& at <= end <= line.len()
            &&& forall|i: int| at <= i < end ==> #[trigger] line[i] == 32 || line[i] == 9
            &&& end < line.len() ==> line[end] != 32 && line[end] != 9
        }),
    decreases line.len() - at,
{
    if at < line.len() && (line[at] == 32 || line[at] == 9) {
        lemma_indent(line, at + 1);
    }
}

/// Backspace deletes the byte before the cursor; at the start of a line it
/// joins the line to the one before, and the cursor stands where they meet.
pub proof fn lemma_backspace(editor: EditorView)
    requires
        editor.wf(),
        types_text(editor),
        editor.doc.col <= editor.doc.line().len(),
    ensures
        ({
            let lines = editor.doc.lines;
            let row = editor.doc.row;
            let line = editor.doc.line();
            let col = editor.doc.col;
            let after = editor.key_pressed(8, false);
            &&& types_text(after)
            &&& col > 0 ==> {
                &&& after.doc.lines == lines.update(
                    row,
                    line.subrange(0, col - 1) + line.subrange(col, line.len() as int),
                )
                &&& after.doc.row == row
                &&& after.doc.col == col - 1
            }
            &&& col == 0 && row > 0 ==> {
                &&& after.doc.lines == lines.subrange(0, row - 1) + seq![lines[row - 1] + line]
                    + lines.subrange(row + 1, lines.len() as int)
                &&& after.doc.row == row - 1
                &&& after.doc.col == lines[row - 1].len()
            }
            &&& col == 0 && row == 0 ==> after.doc.lines == lines
        }),
{
    let lines = editor.doc.lines;
    let row = editor.doc.row;
    let line = editor.doc.line();
    let col = editor.doc.col;
    reveal(EditorView::key_handled);
    reveal(EditorView::typed);
    let done = editor.cleared().typed(8, false);
    lemma_settled(done);
    if col > 0 {
        assert(line.subrange(col - 1, col).len() == 1);
    } else if row > 0 {
        assert(lines.subrange(row - 1, row + 1).len() == 2);
        assert(seq![lines[row - 1] + line].len() == 1);
    }
}

proof fn lemma_plain_columns(line: Seq<u8>, upto: int, tabstop: int)
    requires
        0 <= upto <= line.len() <= usize::MAX,
        forall|i: int| 0 <= i < upto ==> !is_control(#[trigger] line[i]),
    ensures
        display_column(line, upto, tabstop) == upto,
    decreases upto,
{
    if upto > 0 {
        lemma_plain_columns(line, upto - 1, tabstop);
        assert(!is_control(line[upto - 1]));
    }
}

/// With `expandtab` a tab is typed as spaces up to the next tab stop. This is
/// said of a cursor with nothing but printable bytes before it.
pub proof fn lemma_tab_is_expanded(editor: EditorView)
    requires
        editor.wf(),
        types_text(editor),
        editor.options.expandtab,
        editor.doc.col <= editor.doc.line().len(),
        forall|i: int|
            0 <= i < editor.doc.col ==> !is_control(#[trigger] editor.doc.lines[editor.doc.row][i]),
    ensures
        ({
            let col = editor.doc.col;
            let stop = editor.options.tabstop as int;
            let after = editor.key_pressed(9, false);
            let size = after.doc.col - col;
            &&& types_text(after)
            &&& 1 <= size <= stop
            &&& after.doc.col % stop == 0
            &&& after.doc.lines == editor.doc.lines.update(
                editor.doc.row,
                with_bytes_at(
                    editor.doc.line(),
                    col,
                    Seq::new(size as nat, |i: int| 32u8),
                ),
            )
        }),
{
    let line = editor.doc.line();
    let col = editor.doc.col;
    let stop = editor.options.tabstop as int;
    reveal(EditorView::key_handled);
    reveal(EditorView::typed);
    let done = editor.cleared().typed(9, false);
    lemma_settled(done);
    lemma_plain_columns(line, col, stop);
    let size = stop - col % stop;
    let stops = col / stop;
    vstd::arithmetic::div_mod::lemma_fundamental_div_mod(col, stop);
    assert(0 <= col % stop < stop) by {
        vstd::arithmetic::div_mod::lemma_mod_bound(col, stop);
    }
    assert(col + size == (stops + 1) * stop) by (nonlinear_arith)
        requires
            col == stop * stops + col % stop,
            size == stop - col % stop,
    ;
    vstd::arithmetic::div_mod::lemma_mod_multiples_basic(stops + 1, stop);
    let spaces = Seq::new(size as nat, |i: int| 32u8);
    assert(spaces.len() > 0);
    assert(line.subrange(col, col).len() == 0);
}

} // verus!
