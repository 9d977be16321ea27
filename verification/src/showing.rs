//! What the screen shows of a line, how it follows the cursor, and which bytes
//! the keyboard gives, said of the text and of the keys.
use crate::bytes::{is_control, to_upper};
use crate::drawing::{in_front, lemma_row_of_frame, lemma_row_printed};
use crate::editor::EditorView;
use crate::keys::{KeyCode, KeyEvent, KeyEventKind, Modifiers, ReaderView};
use crate::laws::{bare_from, lemma_short_escape_not_printed, lemma_text_printed, printed};
use crate::render::GutterStyles;
use crate::highlight::{plain_style, sgr, span_index, HighlightStyle};
use crate::screen::{
    byte_shown, fragment_text, fragment_width, shown_from, shown_line, switch_text, Cursors,
    LineLook, PenView,
};
use crate::viewport::{followed_left, followed_top};
use vstd::arithmetic::div_mod::lemma_mod_bound;
use vstd::prelude::*;

verus! {

/// What a byte fills behind so many columns: a tab the columns up to the next
/// tab stop, with spaces, and a control byte two, with a caret and the letter
/// of its key.
pub open spec fn cell(byte: u8, column: int, tabstop: int) -> Seq<u8> {
    if byte == 9 {
        Seq::new((tabstop - column % tabstop) as nat, |i: int| 32u8)
    } else if byte == 127 {
        seq![94u8, 63]
    } else if byte < 32 {
        seq![94u8, (byte + 64) as u8]
    } else {
        seq![byte]
    }
}

/// The columns that the first bytes of a line fill.
pub open spec fn unrolled(line: Seq<u8>, upto: int, tabstop: int) -> Seq<u8>
    decreases upto,
{
    if upto <= 0 {
        Seq::empty()
    } else {
        let before = unrolled(line, upto - 1, tabstop);
        before + cell(line[upto - 1], before.len() as int, tabstop)
    }
}

/// The columns of a line that a window shows, as far as the line reaches.
pub open spec fn window(columns: Seq<u8>, left: int, end: int) -> Seq<u8> {
    if left < end && left < columns.len() {
        columns.subrange(
            left,
            if end < columns.len() {
                end
            } else {
                columns.len() as int
            },
        )
    } else {
        Seq::empty()
    }
}

proof fn lemma_cell(byte: u8, column: int, tabstop: int)
    requires
        0 <= column,
        1 <= tabstop,
        !(0x80 <= byte && is_control(byte)),
    ensures
        cell(byte, column, tabstop).len() == fragment_width(byte, column, tabstop),
        cell(byte, column, tabstop).len() >= 1,
        forall|start: int, stop: int|
            0 <= start <= stop <= cell(byte, column, tabstop).len() ==> #[trigger] fragment_text(
                byte,
                start,
                stop,
            ) == cell(byte, column, tabstop).subrange(start, stop),
{
    lemma_mod_bound(column, tabstop);
    let whole = cell(byte, column, tabstop);
    assert forall|start: int, stop: int| 0 <= start <= stop <= whole.len() implies #[trigger]
        fragment_text(byte, start, stop) == whole.subrange(start, stop) by {
        if byte == 9 {
            assert(fragment_text(byte, start, stop) =~= whole.subrange(start, stop));
        }
    }
}

proof fn lemma_unrolled_prefix(line: Seq<u8>, upto: int, all: int, tabstop: int)
    requires
        0 <= upto <= all,
    ensures
        unrolled(line, upto, tabstop).len() <= unrolled(line, all, tabstop).len(),
        unrolled(line, all, tabstop).subrange(0, unrolled(line, upto, tabstop).len() as int)
            == unrolled(line, upto, tabstop),
    decreases all - upto,
{
    let part = unrolled(line, upto, tabstop);
    let whole = unrolled(line, all, tabstop);
    if upto < all {
        lemma_unrolled_prefix(line, upto, all - 1, tabstop);
        let before = unrolled(line, all - 1, tabstop);
        assert(whole.subrange(0, part.len() as int) =~= before.subrange(0, part.len() as int));
    } else {
        assert(whole.subrange(0, part.len() as int) =~= part);
    }
}

proof fn lemma_window_split(columns: Seq<u8>, left: int, end: int, from: int, next: int)
    requires
        0 <= left,
        0 <= from <= next <= columns.len(),
    ensures
        ({
            let start = if left < from {
                from
            } else {
                left
            };
            let later = if left < next {
                next
            } else {
                left
            };
            let stop = if end < next {
                end
            } else {
                next
            };
            window(columns, start, end) == (if start < stop {
                columns.subrange(start, stop)
            } else {
                Seq::empty()
            }) + window(columns, later, end)
        }),
{
    let start = if left < from {
        from
    } else {
        left
    };
    let later = if left < next {
        next
    } else {
        left
    };
    let stop = if end < next {
        end
    } else {
        next
    };
    let piece = if start < stop {
        columns.subrange(start, stop)
    } else {
        Seq::empty()
    };
    assert(window(columns, start, end) =~= piece + window(columns, later, end));
}

proof fn lemma_bare_is_window(line: Seq<u8>, look: LineLook, at: int)
    requires
        0 <= at <= line.len(),
        0 <= look.left,
        1 <= look.tabstop,
        look.end <= usize::MAX,
        unrolled(line, line.len() as int, look.tabstop).len() <= usize::MAX,
        forall|i: int| 0 <= i < line.len() ==> (#[trigger] line[i]) < 0x80,
    ensures
        ({
            let column = unrolled(line, at, look.tabstop).len() as int;
            bare_from(line, look, at, column) == window(
                unrolled(line, line.len() as int, look.tabstop),
                if look.left < column {
                    column
                } else {
                    look.left
                },
                look.end,
            )
        }),
    decreases line.len() - at,
{
    let tabstop = look.tabstop;
    let columns = unrolled(line, line.len() as int, tabstop);
    let before = unrolled(line, at, tabstop);
    let column = before.len() as int;
    lemma_unrolled_prefix(line, at, line.len() as int, tabstop);
    if at < line.len() {
        let here = cell(line[at], column, tabstop);
        let after = unrolled(line, at + 1, tabstop);
        let next = after.len() as int;
        assert(line[at] < 0x80);
        lemma_cell(line[at], column, tabstop);
        lemma_unrolled_prefix(line, at + 1, line.len() as int, tabstop);
        assert(next == column + here.len());
        lemma_bare_is_window(line, look, at + 1);
        lemma_window_split(columns, look.left, look.end, column, next);
        if column < look.end {
            let first = if look.left < column {
                column
            } else {
                look.left
            };
            let last = if look.end < next {
                look.end
            } else {
                next
            };
            if first < last {
                assert(columns.subrange(0, next) == after);
                assert(columns.subrange(first, last) =~= after.subrange(first, last));
                assert(after.subrange(first, last) =~= here.subrange(first - column, last
                    - column));
                assert(fragment_text(line[at], first - column, last - column) == here.subrange(
                    first - column,
                    last - column,
                ));
            }
        }
    }
}

/// The row of a line shows the columns of the line that are visible: from the
/// first visible column on, as many as there is room for, behind the number of
/// the line where numbers are shown. This is said of lines of ASCII bytes.
pub proof fn lemma_row_is_window(editor: EditorView, styles: GutterStyles, at: int)
    requires
        editor.wf(),
        0 <= editor.screen.top,
        0 <= editor.screen.left,
        editor.screen.left + editor.text_width() <= usize::MAX,
        0 <= at < editor.screen.body(),
        editor.screen.top + at < editor.doc.lines.len() <= usize::MAX,
        forall|i: int|
            0 <= i < editor.doc.lines[editor.screen.top + at].len() ==> (
            #[trigger] editor.doc.lines[editor.screen.top + at][i]) < 0x80,
        unrolled(
            editor.doc.lines[editor.screen.top + at],
            editor.doc.lines[editor.screen.top + at].len() as int,
            editor.options.tabstop as int,
        ).len() <= usize::MAX,
    ensures
        ({
            let index = editor.screen.top + at;
            let line = editor.doc.lines[index];
            let shown = printed(editor.frame(None, styles)[at], false);
            let text = window(
                unrolled(line, line.len() as int, editor.options.tabstop as int),
                editor.screen.left,
                editor.screen.left + editor.text_width(),
            );
            let width = shown.len() - text.len();
            &&& width >= 0
            &&& shown.subrange(width, shown.len() as int) == text
            &&& in_front(editor, shown.subrange(0, width), index)
        }),
{
    let index = editor.screen.top + at;
    let line = editor.doc.lines[index];
    let start = Cursors { full: 0, preview: 0 };
    let rows = editor.text_rows(0, styles, start);
    lemma_row_of_frame(editor, 0, styles, start, at);
    let used = choose|used: Cursors|
        rows[at - 0] == (#[trigger] editor.text_row(
            crate::bytes::fit(editor.screen.top + at),
            styles,
            used,
        )).0;
    assert(editor.frame(None, styles)[at] == rows[at]);
    lemma_row_printed(editor, index, styles, used);
    let look = editor.look(index);
    assert(unrolled(line, 0, look.tabstop).len() == 0);
    lemma_bare_is_window(line, look, 0);
}

/// Without a line that is being typed, the last row is cleared and shows the
/// message then, also where it is highlighted.
pub proof fn lemma_message_is_shown(editor: EditorView)
    requires
        editor.message.text.len() > 0,
        !editor.message.bytes.contains(27),
    ensures
        ({
            let row = editor.status_row(None);
            let clear = seq![27u8, 91, 75];
            &&& row.len() >= clear.len()
            &&& row.subrange(0, clear.len() as int) == clear
            &&& printed(row.subrange(clear.len() as int, row.len() as int), false)
                == editor.message.bytes
        }),
{
    let bytes = editor.message.bytes;
    let row = editor.status_row(None);
    let none = Seq::<u8>::empty();
    assert(row.subrange(0, 3) =~= seq![27u8, 91, 75]);
    lemma_text_printed(bytes, none);
    assert(bytes + none =~= bytes);
    assert(printed(none, false) == none);
    if editor.message.highlighted {
        let off = seq![27u8, 91, 109];
        let on = seq![27u8, 91, 55, 109];
        assert(row.subrange(3, row.len() as int) =~= on + (bytes + off));
        lemma_short_escape_not_printed(55, bytes + off);
        lemma_text_printed(bytes, off);
        lemma_reset_not_shown();
    } else {
        assert(row.subrange(3, row.len() as int) =~= bytes);
    }
}

proof fn lemma_reset_not_shown()
    ensures
        printed(seq![27u8, 91, 109], false) == Seq::<u8>::empty(),
{
    reveal_with_fuel(printed, 4);
    let all = seq![27u8, 91, 109];
    let a = all.subrange(1, 3);
    let b = a.subrange(1, 2);
    let c = b.subrange(1, 1);
    assert(all[0] == 27 && a[0] == 91 && b[0] == 109);
    assert(c =~= Seq::<u8>::empty());
}

/// How the visible part follows the cursor: it stays where the line of the
/// cursor is visible, moves just as far as needed where that is no more than
/// half of its height, and elsewhere puts the line in the middle.
pub proof fn lemma_view_follows_line(top: int, row: int, count: int, body: int)
    requires
        0 <= top < count <= isize::MAX,
        0 <= row < count,
        2 <= body <= 512,
    ensures
        top <= row <= top + body - 1 ==> followed_top(top, row, count, body) == top,
        row < top && top - row <= body / 2 ==> followed_top(top, row, count, body) == row,
        row > top + body - 1 && row - (top + body - 1) <= body / 2 ==> followed_top(
            top,
            row,
            count,
            body,
        ) == row - body + 1,
        row < top && top - row > body / 2 || row > top + body - 1 && row - (top + body - 1) > body
            / 2 ==> followed_top(top, row, count, body) == (if row < body / 2 {
            0
        } else {
            row - body / 2
        }),
{
}

/// The first visible column stays where the cursor is visible, and elsewhere
/// moves just as far as needed.
pub proof fn lemma_view_follows_column(left: int, cursor: int, width: int)
    requires
        0 <= left <= isize::MAX,
        0 <= cursor <= isize::MAX,
        1 <= width <= 4096,
    ensures
        left <= cursor < left + width ==> followed_left(left, cursor, width) == left,
        cursor < left ==> followed_left(left, cursor, width) == cursor,
        left + width <= cursor ==> followed_left(left, cursor, width) == cursor - width + 1,
{
}

/// A key that was pressed, without other keys held.
pub open spec fn key_alone(code: KeyCode) -> KeyEvent {
    KeyEvent {
        code,
        modifiers: Modifiers { shift: false, control: false, alt: false, logo: false },
        kind: KeyEventKind::Press,
    }
}

/// The keys for return, tab, backspace and escape give the bytes for these. A
/// key that is let go gives nothing.
pub proof fn lemma_keyboard_gives_bytes(reader: ReaderView, code: KeyCode)
    ensures
        reader.key_read(key_alone(KeyCode::Enter)) == (reader, Some(13u8)),
        reader.key_read(key_alone(KeyCode::Tab)) == (reader, Some(9u8)),
        reader.key_read(key_alone(KeyCode::Backspace)) == (reader, Some(8u8)),
        reader.key_read(key_alone(KeyCode::Esc)) == (reader, Some(27u8)),
        reader.key_read(
            (KeyEvent { kind: KeyEventKind::Release, ..key_alone(code) }),
        ) == (reader, None::<u8>),
{
}

/// A letter with Control gives its number in the alphabet, in lower and in
/// upper case.
pub proof fn lemma_control_gives_number(reader: ReaderView, c: char)
    requires
        'a' <= c <= 'z' || 'A' <= c <= 'Z',
    ensures
        ({
            let key = KeyEvent {
                modifiers: Modifiers { shift: false, control: true, alt: false, logo: false },
                ..key_alone(KeyCode::Char(c))
            };
            let number = if 'a' <= c <= 'z' {
                c as int - 'a' as int + 1
            } else {
                c as int - 'A' as int + 1
            };
            reader.key_read(key) == (reader, Some(number as u8))
        }),
{
    let byte = to_upper(c as u8);
    assert(65 <= byte <= 90);
    assert(65 <= byte <= 90 ==> byte & 0x1fu8 == byte - 64) by (bit_vector);
}

/// A line whose bytes from `start` to `end` are presented in another way than
/// the rest: what switches that on stands before them, and what switches it off
/// behind them.
pub open spec fn marked(line: Seq<u8>, start: int, end: int, on: Seq<u8>) -> Seq<u8> {
    line.subrange(0, start) + on + line.subrange(start, end) + seq![27u8, 91, 48, 109]
        + line.subrange(end, line.len() as int)
}

/// Whether a line is shown whole, each byte as itself.
pub open spec fn shown_whole(line: Seq<u8>, look: LineLook) -> bool {
    &&& look.left == 0
    &&& line.len() <= look.end <= usize::MAX
    &&& look.preview_range is None
    &&& 0 <= look.start
    &&& look.start + line.len() <= usize::MAX
    &&& forall|i: int| 0 <= i < line.len() ==> 32 <= #[trigger] line[i] < 127
}

/// Whether the ranges are either none or the one from `start` to `end` of a
/// line, in a style.
pub open spec fn styled_between(
    look: LineLook,
    start: int,
    end: int,
    style: Option<HighlightStyle>,
) -> bool {
    match style {
        None => look.spans.len() == 0 && look.selection == Some((start, end)),
        Some(shown) => {
            &&& look.selection is None
            &&& shown != plain_style()
            &&& look.spans.len() == 1
            &&& look.spans[0].start == look.start + start
            &&& look.spans[0].end == look.start + end
            &&& look.spans[0].style == shown
        },
    }
}

proof fn lemma_byte_marked(
    line: Seq<u8>,
    look: LineLook,
    start: int,
    end: int,
    style: Option<HighlightStyle>,
    at: int,
    pen: PenView,
)
    requires
        shown_whole(line, look),
        styled_between(look, start, end, style),
        0 <= at < line.len(),
        0 <= start < end <= line.len(),
        pen.column == at,
        pen.cursors.full == 0 || at >= end && pen.cursors.full == 1,
    ensures
        ({
            let inside = start <= at < end;
            let (text, next) = byte_shown(look, line[at], at, pen);
            let own = if inside {
                style
            } else {
                None
            };
            let selected = inside && style is None;
            &&& text == switch_text(pen.style, pen.selected, own, selected) + seq![line[at]]
            &&& next.column == at + 1
            &&& next.style == own
            &&& next.selected == selected
            &&& next.cursors.full == 0 || at >= end && next.cursors.full == 1
        }),
{
    reveal(byte_shown);
    reveal_with_fuel(span_index, 2);
    assert(32 <= line[at] < 127);
    assert(fragment_text(line[at], 0, 1) =~= seq![line[at]]);
}

proof fn lemma_marked_from(
    line: Seq<u8>,
    look: LineLook,
    start: int,
    end: int,
    style: Option<HighlightStyle>,
    at: int,
    pen: PenView,
)
    requires
        shown_whole(line, look),
        styled_between(look, start, end, style),
        0 <= at <= line.len(),
        0 <= start < end <= line.len(),
        pen.column == at,
        pen.cursors.full == 0 || at >= end && pen.cursors.full == 1,
        pen.style == (if start < at <= end {
            style
        } else {
            None
        }),
        pen.selected == (start < at <= end && style is None),
    ensures
        ({
            let on = switch_text(None, false, style, style is None);
            let off = seq![27u8, 91, 48, 109];
            let shown = shown_from(line, look, at, pen).0;
            let size = line.len() as int;
            &&& at <= start ==> shown == line.subrange(at, start) + on + line.subrange(
                start,
                end,
            ) + off + line.subrange(end, size)
            &&& start < at <= end ==> shown == line.subrange(at, end) + off + line.subrange(
                end,
                size,
            )
            &&& end < at ==> shown == line.subrange(at, size)
        }),
    decreases line.len() - at,
{
    let on = switch_text(None, false, style, style is None);
    let off = seq![27u8, 91, 48, 109];
    let size = line.len() as int;
    let shown = shown_from(line, look, at, pen).0;
    if at < size {
        lemma_byte_marked(line, look, start, end, style, at, pen);
        let (text, next) = byte_shown(look, line[at], at, pen);
        lemma_marked_from(line, look, start, end, style, at + 1, next);
        let rest = shown_from(line, look, at + 1, next).0;
        assert(shown == text + rest);
        if at < start {
            assert(shown =~= line.subrange(at, start) + on + line.subrange(start, end) + off
                + line.subrange(end, size));
        } else if at == start {
            assert(shown =~= line.subrange(at, start) + on + line.subrange(start, end) + off
                + line.subrange(end, size));
        } else if at < end {
            assert(shown =~= line.subrange(at, end) + off + line.subrange(end, size));
        } else if at == end {
            assert(switch_text(pen.style, pen.selected, None, false) =~= off);
            assert(shown =~= line.subrange(at, end) + off + line.subrange(end, size));
        } else {
            assert(shown =~= line.subrange(at, size));
        }
    } else {
        if at == end {
            assert(shown =~= line.subrange(at, end) + off + line.subrange(end, size));
        } else {
            assert(shown =~= line.subrange(at, size));
        }
    }
}

/// The selected bytes of a line are shown inverse, and the other ones as they
/// are.
pub proof fn lemma_selection_is_inverse(
    line: Seq<u8>,
    look: LineLook,
    start: int,
    end: int,
)
    requires
        shown_whole(line, look),
        look.spans.len() == 0,
        look.selection == Some((start, end)),
        0 <= start < end <= line.len(),
    ensures
        shown_line(line, look, Cursors { full: 0, preview: 0 }).0 == marked(
            line,
            start,
            end,
            seq![27u8, 91, 55, 109],
        ),
{
    let pen = PenView {
        column: 0,
        style: None,
        selected: false,
        cursors: Cursors { full: 0, preview: 0 },
    };
    lemma_marked_from(line, look, start, end, None, 0, pen);
    assert(switch_text(None, false, None, true) =~= seq![27u8, 91, 55, 109]);
}

/// The bytes of a line that a styled range covers are shown in its style, and
/// the other ones as they are.
pub proof fn lemma_range_is_styled(
    line: Seq<u8>,
    look: LineLook,
    start: int,
    end: int,
    style: HighlightStyle,
)
    requires
        shown_whole(line, look),
        look.selection is None,
        style != plain_style(),
        look.spans.len() == 1,
        look.spans[0].start == look.start + start,
        look.spans[0].end == look.start + end,
        look.spans[0].style == style,
        0 <= start < end <= line.len(),
    ensures
        shown_line(line, look, Cursors { full: 0, preview: 0 }).0 == marked(
            line,
            start,
            end,
            sgr(style),
        ),
{
    let pen = PenView {
        column: 0,
        style: None,
        selected: false,
        cursors: Cursors { full: 0, preview: 0 },
    };
    lemma_marked_from(line, look, start, end, Some(style), 0, pen);
    assert(switch_text(None, false, Some(style), false) =~= sgr(style));
}

} // verus!
