//! What the mouse points at and selects, said of the text and of what is shown.
use crate::bytes::is_word;
use crate::editor::EditorView;
use crate::keys::{MouseButton, MouseEvent, MouseEventKind};
use crate::screen::{display_column, offset_shown_from};
use crate::selection::{
    bounds_of, pieces, selected_text, word_around, word_end, word_start, MouseSelection,
    SelectionKind, SelectionPoint,
};
use crate::text::{join_lines, serialize};
use vstd::arithmetic::div_mod::{lemma_fundamental_div_mod, lemma_mod_bound};
use vstd::prelude::*;

verus! {

/// Which columns a byte takes: a tab reaches to the next tab stop, a control
/// byte takes two columns, and any other byte one. The first byte of a line
/// begins in column 0.
pub proof fn lemma_columns_of_bytes(line: Seq<u8>, at: int, tabstop: int)
    requires
        0 <= at < line.len(),
        1 <= tabstop,
        display_column(line, at, tabstop) + tabstop + 2 < usize::MAX,
    ensures
        ({
            let begin = display_column(line, at, tabstop);
            let end = display_column(line, at + 1, tabstop);
            &&& line[at] == 9 ==> end % tabstop == 0 && begin < end <= begin + tabstop
            &&& line[at] != 9 && (line[at] < 32 || line[at] == 127) ==> end == begin + 2
            &&& 32 <= line[at] < 127 ==> end == begin + 1
        }),
        display_column(line, 0, tabstop) == 0,
{
    let begin = display_column(line, at, tabstop);
    if line[at] == 9 {
        lemma_mod_bound(begin, tabstop);
        lemma_fundamental_div_mod(begin, tabstop);
        let end = begin + (tabstop - begin % tabstop);
        let next = begin / tabstop + 1;
        assert(end == tabstop * next) by (nonlinear_arith)
            requires
                end == begin + (tabstop - begin % tabstop),
                begin == tabstop * (begin / tabstop) + begin % tabstop,
                next == begin / tabstop + 1,
        ;
        vstd::arithmetic::div_mod::lemma_mod_multiples_basic(next, tabstop);
        assert(tabstop * next == next * tabstop) by (nonlinear_arith);
    }
}

proof fn lemma_columns_grow(line: Seq<u8>, from: int, to: int, tabstop: int)
    requires
        0 <= from <= to <= line.len(),
        1 <= tabstop,
    ensures
        display_column(line, from, tabstop) <= display_column(line, to, tabstop),
    decreases to - from,
{
    if from < to {
        lemma_columns_grow(line, from, to - 1, tabstop);
        let before = display_column(line, to - 1, tabstop);
        lemma_column_fits(line, to - 1, tabstop);
        if line[to - 1] == 9 {
            lemma_mod_bound(before, tabstop);
        }
    }
}

proof fn lemma_column_fits(line: Seq<u8>, at: int, tabstop: int)
    requires
        0 <= at <= line.len(),
        1 <= tabstop,
    ensures
        0 <= display_column(line, at, tabstop) <= usize::MAX,
    decreases at,
{
    if at > 0 {
        lemma_column_fits(line, at - 1, tabstop);
        let before = display_column(line, at - 1, tabstop);
        if line[at - 1] == 9 {
            lemma_mod_bound(before, tabstop);
        }
    }
}

proof fn lemma_found_from(line: Seq<u8>, from: int, at: int, column: int, tabstop: int)
    requires
        0 <= from <= at <= line.len(),
        1 <= tabstop,
        display_column(line, at, tabstop) <= column,
        at < line.len() ==> column < display_column(line, at + 1, tabstop),
    ensures
        offset_shown_from(line, from, display_column(line, from, tabstop), column, tabstop) == at,
    decreases at - from,
{
    if from < at {
        lemma_columns_grow(line, from + 1, at, tabstop);
        lemma_found_from(line, from + 1, at, column, tabstop);
    }
}

/// Whether a byte of a line is what is shown in a column of the row of that
/// line, or the end of the line where the column lies behind all of it. The
/// columns in front of the text are the line numbers.
pub open spec fn shown_in(
    editor: EditorView,
    mouse: MouseEvent,
    line: int,
    at: int,
) -> bool {
    let text = editor.doc.lines[line];
    let tabstop = editor.options.tabstop as int;
    let column = editor.screen.left + mouse.column - editor.gutter();
    &&& line == editor.screen.top + mouse.row
    &&& 0 <= line < editor.doc.lines.len()
    &&& mouse.row < editor.screen.rows - 1
    &&& mouse.column >= editor.gutter()
    &&& column <= usize::MAX
    &&& 0 <= at <= text.len() <= isize::MAX
    &&& display_column(text, at, tabstop) <= column
    &&& at < text.len() ==> column < display_column(text, at + 1, tabstop)
}

/// The mouse points at the byte that is shown where it is, and at the end of
/// the line where it is behind it.
pub proof fn lemma_mouse_points_at_shown(editor: EditorView, mouse: MouseEvent, line: int, at: int)
    requires
        editor.wf(),
        editor.screen.top >= 0,
        editor.screen.left >= 0,
        editor.screen.rows >= 2,
        editor.doc.lines.len() <= isize::MAX,
        shown_in(editor, mouse, line, at),
    ensures
        editor.point_at(mouse) == Some(
            SelectionPoint { line: line as usize, offset: at as usize },
        ),
{
    let text = editor.doc.lines[line];
    let tabstop = editor.options.tabstop as int;
    let column = editor.screen.left + mouse.column - editor.gutter();
    assert(display_column(text, 0, tabstop) == 0);
    lemma_found_from(text, 0, at, column, tabstop);
}

/// Whether the left button does something, without another key held.
pub open spec fn left_alone(mouse: MouseEvent) -> bool {
    &&& !mouse.modifiers.shift && !mouse.modifiers.control
    &&& !mouse.modifiers.alt && !mouse.modifiers.logo
}

/// Whether the mouse is away from the border of the text.
pub open spec fn inside(editor: EditorView, mouse: MouseEvent) -> bool {
    0 < mouse.row && mouse.row + 2 < editor.screen.rows && editor.gutter() < mouse.column
        && mouse.column + 1 < editor.screen.cols
}

/// The text from one byte to another one, the last one with it: within a line
/// the bytes between them, else the rest of the first line, the whole lines
/// between, and the begin of the last one, with a newline between each two.
pub open spec fn text_between(lines: Seq<Seq<u8>>, line: int, at: int, to: int, upto: int) -> Seq<
    u8,
> {
    let end = if upto < lines[to].len() {
        upto + 1
    } else {
        upto
    };
    if line == to {
        lines[line].subrange(at, end)
    } else {
        lines[line].subrange(at, lines[line].len() as int) + seq![10u8] + serialize(
            lines.subrange(line + 1, to),
            true,
        ) + lines[to].subrange(0, end)
    }
}

/// Lines joined: the first one, the ones between, and the last one.
proof fn lemma_joined(first: Seq<u8>, between: Seq<Seq<u8>>, last: Seq<u8>)
    ensures
        join_lines(seq![first] + between + seq![last]) == first + seq![10u8] + serialize(
            between,
            true,
        ) + last,
    decreases between.len(),
{
    let all = seq![first] + between + seq![last];
    assert(all.drop_last() =~= seq![first] + between);
    assert(all.last() == last);
    if between.len() == 0 {
        assert(seq![first] + between =~= seq![first]);
        reveal_with_fuel(join_lines, 2);
        assert(join_lines(all) =~= first + seq![10u8] + serialize(between, true) + last);
    } else {
        let fewer = between.drop_last();
        assert(seq![first] + between =~= seq![first] + fewer + seq![between.last()]);
        lemma_joined(first, fewer, between.last());
        crate::filing::lemma_lines_written_in_order(fewer, between.last());
        assert(fewer.push(between.last()) =~= between);
        assert(join_lines(all) =~= first + seq![10u8] + serialize(between, true) + last);
    }
}

proof fn lemma_characters_copied(
    lines: Seq<Seq<u8>>,
    anchor: SelectionPoint,
    focus: SelectionPoint,
    first: SelectionPoint,
    last: SelectionPoint,
    dragging: bool,
)
    requires
        anchor == first && focus == last || anchor == last && focus == first,
        first.line < last.line || first.line == last.line && first.offset < last.offset,
        last.line < lines.len(),
        first.offset <= lines[first.line as int].len() <= isize::MAX,
        last.offset <= lines[last.line as int].len() <= isize::MAX,
    ensures
        selected_text(
            lines,
            Some(MouseSelection { anchor, focus, kind: SelectionKind::Characters, dragging }),
        ) == Some(
            text_between(
                lines,
                first.line as int,
                first.offset as int,
                last.line as int,
                last.offset as int,
            ),
        ),
{
    let selection = MouseSelection { anchor, focus, kind: SelectionKind::Characters, dragging };
    let line = first.line as int;
    let to = last.line as int;
    let at = first.offset as int;
    let end = if last.offset < lines[to].len() {
        last.offset + 1
    } else {
        last.offset as int
    };
    let stop = SelectionPoint { line: last.line, offset: end as usize };
    assert(bounds_of(lines, selection) == Some((first, stop)));
    let parts = pieces(lines, first, stop);
    let text = text_between(lines, line, at, to, last.offset as int);
    if line == to {
        assert(parts =~= seq![lines[line].subrange(at, end)]);
    } else {
        let head = lines[line].subrange(at, lines[line].len() as int);
        let between = lines.subrange(line + 1, to);
        let tail = lines[to].subrange(0, end);
        assert forall|i: int| 0 <= i < parts.len() implies parts[i] == (seq![head] + between + seq![
            tail,
        ])[i] by {
            if 0 < i < parts.len() - 1 {
                assert(lines[line + i].subrange(0, lines[line + i].len() as int) =~= lines[line
                    + i]);
                assert(between[i - 1] == lines[line + i]);
            }
        }
        assert(parts =~= seq![head] + between + seq![tail]);
        lemma_joined(head, between, tail);
    }
    assert(text.len() > 0);
}

/// Pressing the button over a byte, dragging to another one and letting go
/// copies the text from the one to the other, both of them with it, whichever
/// comes first. The text and the cursor stay.
pub proof fn lemma_drag_copies_text(
    editor: EditorView,
    down: MouseEvent,
    drag: MouseEvent,
    up: MouseEvent,
    line: int,
    at: int,
    to: int,
    upto: int,
)
    requires
        editor.wf(),
        editor.screen.top >= 0,
        editor.screen.left >= 0,
        editor.screen.rows >= 2,
        editor.doc.lines.len() <= isize::MAX,
        editor.screen.top + 1 <= usize::MAX,
        !editor.dragging(),
        down.kind == MouseEventKind::Down(MouseButton::Left),
        drag.kind == MouseEventKind::Drag(MouseButton::Left),
        up.kind == MouseEventKind::Up(MouseButton::Left),
        left_alone(down),
        shown_in(editor, down, line, at),
        shown_in(editor, drag, to, upto),
        inside(editor, drag),
        line != to || at != upto,
    ensures
        ({
            let pressed = editor.mouse_handled(down, false).0;
            let dragged = pressed.mouse_handled(drag, false).0;
            let (after, copied) = dragged.mouse_handled(up, false);
            &&& copied == Some(
                if line < to || line == to && at < upto {
                    text_between(editor.doc.lines, line, at, to, upto)
                } else {
                    text_between(editor.doc.lines, to, upto, line, at)
                },
            )
            &&& after.doc == editor.doc
            &&& after.screen.top == editor.screen.top
            &&& after.screen.left == editor.screen.left
        }),
{
    let from = SelectionPoint { line: line as usize, offset: at as usize };
    let focus = SelectionPoint { line: to as usize, offset: upto as usize };
    lemma_mouse_points_at_shown(editor, down, line, at);
    let pressed = editor.mouse_handled(down, false).0;
    assert(pressed.mouse.selection == Some(
        MouseSelection {
            anchor: from,
            focus: from,
            kind: SelectionKind::Characters,
            dragging: true,
        },
    ));
    assert(shown_in(pressed.edge_scrolled(drag), drag, to, upto));
    lemma_mouse_points_at_shown(pressed.edge_scrolled(drag), drag, to, upto);
    let dragged = pressed.mouse_handled(drag, false).0;
    assert(dragged.mouse.selection == Some(
        MouseSelection { anchor: from, focus, kind: SelectionKind::Characters, dragging: true },
    ));
    if line < to || line == to && at < upto {
        lemma_characters_copied(editor.doc.lines, from, focus, from, focus, false);
    } else {
        lemma_characters_copied(editor.doc.lines, from, focus, focus, from, false);
    }
}

proof fn lemma_word_start(line: Seq<u8>, at: int, kind: bool)
    requires
        0 <= at <= line.len(),
    ensures
        ({
            let start = word_start(line, at, kind);
            &&& 0 <= start <= at
            &&& forall|i: int| start <= i < at ==> is_word(#[trigger] line[i]) == kind
            &&& start > 0 ==> is_word(line[start - 1]) != kind
        }),
    decreases at,
{
    if at > 0 && is_word(line[at - 1]) == kind {
        lemma_word_start(line, at - 1, kind);
    }
}

proof fn lemma_word_stop(line: Seq<u8>, at: int, kind: bool)
    requires
        0 <= at <= line.len(),
    ensures
        ({
            let end = word_end(line, at, kind);
            &&& at <= end <= line.len()
            &&& forall|i: int| at <= i < end ==> is_word(#[trigger] line[i]) == kind
            &&& end < line.len() ==> is_word(line[end]) != kind
        }),
    decreases line.len() - at,
{
    if at < line.len() && is_word(line[at]) == kind {
        lemma_word_stop(line, at + 1, kind);
    }
}

/// A second click on a byte, quickly after the first one, selects the whole
/// run of word bytes that it is in, or of other bytes: it reaches as far as
/// the bytes are of one kind, in both directions. Letting go copies it.
pub proof fn lemma_second_click_selects_word(
    editor: EditorView,
    down: MouseEvent,
    up: MouseEvent,
    line: int,
    at: int,
    start: int,
    end: int,
)
    requires
        editor.wf(),
        editor.screen.top >= 0,
        editor.screen.left >= 0,
        editor.screen.rows >= 2,
        editor.doc.lines.len() <= isize::MAX,
        !editor.dragging(),
        down.kind == MouseEventKind::Down(MouseButton::Left),
        up.kind == MouseEventKind::Up(MouseButton::Left),
        left_alone(down),
        shown_in(editor, down, line, at),
        editor.mouse.clicked == Some(
            (SelectionPoint { line: line as usize, offset: at as usize }, 1u8),
        ),
        0 <= start <= at < end <= editor.doc.lines[line].len(),
        forall|i: int|
            start <= i < end ==> is_word(#[trigger] editor.doc.lines[line][i]) == is_word(
                editor.doc.lines[line][at],
            ),
        start > 0 ==> is_word(editor.doc.lines[line][start - 1]) != is_word(
            editor.doc.lines[line][at],
        ),
        end < editor.doc.lines[line].len() ==> is_word(editor.doc.lines[line][end]) != is_word(
            editor.doc.lines[line][at],
        ),
    ensures
        ({
            let pressed = editor.mouse_handled(down, true).0;
            let (after, copied) = pressed.mouse_handled(up, false);
            &&& copied == Some(editor.doc.lines[line].subrange(start, end))
            &&& after.doc == editor.doc
        }),
{
    let text = editor.doc.lines[line];
    let kind = is_word(text[at]);
    lemma_mouse_points_at_shown(editor, down, line, at);
    lemma_word_start(text, at, kind);
    lemma_word_stop(text, at + 1, kind);
    let (first, last) = word_around(text, at);
    assert(first == start) by {
        if first < start {
            assert(is_word(text[start - 1]) == kind);
        }
        if start < first {
            assert(is_word(text[first - 1]) == kind);
        }
    }
    assert(last == end) by {
        if last < end {
            assert(is_word(text[last]) == kind);
        }
        if end < last {
            assert(is_word(text[end]) == kind);
        }
    }
    let anchor = SelectionPoint { line: line as usize, offset: start as usize };
    let focus = SelectionPoint { line: line as usize, offset: end as usize };
    let selection = MouseSelection {
        anchor,
        focus,
        kind: SelectionKind::Word,
        dragging: false,
    };
    let pressed = editor.mouse_handled(down, true).0;
    assert(pressed.mouse.selection == Some(MouseSelection { dragging: true, ..selection }));
    assert(bounds_of(editor.doc.lines, selection) == Some((anchor, focus)));
    assert(pieces(editor.doc.lines, anchor, focus) =~= seq![text.subrange(start, end)]);
}

/// A third click selects the whole line. Letting go copies it.
pub proof fn lemma_third_click_selects_line(
    editor: EditorView,
    down: MouseEvent,
    up: MouseEvent,
    line: int,
    at: int,
)
    requires
        editor.wf(),
        editor.screen.top >= 0,
        editor.screen.left >= 0,
        editor.screen.rows >= 2,
        editor.doc.lines.len() <= isize::MAX,
        !editor.dragging(),
        down.kind == MouseEventKind::Down(MouseButton::Left),
        up.kind == MouseEventKind::Up(MouseButton::Left),
        left_alone(down),
        shown_in(editor, down, line, at),
        editor.mouse.clicked == Some(
            (SelectionPoint { line: line as usize, offset: at as usize }, 2u8),
        ),
        editor.doc.lines[line].len() > 0,
    ensures
        ({
            let pressed = editor.mouse_handled(down, true).0;
            let (after, copied) = pressed.mouse_handled(up, false);
            &&& copied == Some(editor.doc.lines[line])
            &&& after.doc == editor.doc
        }),
{
    lemma_mouse_points_at_shown(editor, down, line, at);
    let lines = editor.doc.lines;
    assert(lines.subrange(line, line + 1) =~= seq![lines[line]]);
}

/// The wheel moves the visible part by three lines or columns, as far as there
/// are lines, and leaves the text and the cursor alone.
pub proof fn lemma_wheel_moves_view(editor: EditorView, mouse: MouseEvent)
    requires
        0 <= editor.screen.top < editor.doc.lines.len() <= isize::MAX,
        0 <= editor.screen.left <= isize::MAX,
    ensures
        ({
            let after = editor.mouse_handled(mouse, false).0;
            let top = editor.screen.top;
            let left = editor.screen.left;
            let last = editor.doc.lines.len() - 1;
            &&& mouse.kind == MouseEventKind::ScrollUp ==> after.screen.top == (if top < 3 {
                0
            } else {
                top - 3
            }) && after.screen.left == left && after.doc == editor.doc
            &&& mouse.kind == MouseEventKind::ScrollDown ==> after.screen.top == (if top + 3
                > last {
                last
            } else {
                top + 3
            }) && after.screen.left == left && after.doc == editor.doc
            &&& mouse.kind == MouseEventKind::ScrollLeft ==> after.screen.left == (if left < 3 {
                0
            } else {
                left - 3
            }) && after.screen.top == top && after.doc == editor.doc
            &&& mouse.kind == MouseEventKind::ScrollRight ==> after.screen.left == left + 3
                && after.screen.top == top && after.doc == editor.doc
        }),
{
}

/// A click with Control selects the word at once, and a click with Alt or with
/// the logo key the line. A click with Shift does nothing.
pub proof fn lemma_keys_held_select(
    editor: EditorView,
    down: MouseEvent,
    line: int,
    at: int,
    quick: bool,
)
    requires
        editor.wf(),
        editor.screen.top >= 0,
        editor.screen.left >= 0,
        editor.screen.rows >= 2,
        editor.doc.lines.len() <= isize::MAX,
        !editor.dragging(),
        down.kind == MouseEventKind::Down(MouseButton::Left),
        shown_in(editor, down, line, at),
        at < editor.doc.lines[line].len(),
    ensures
        ({
            let after = editor.mouse_handled(down, quick).0;
            let text = editor.doc.lines[line];
            &&& down.modifiers.shift ==> after == editor
            &&& !down.modifiers.shift && (down.modifiers.alt || down.modifiers.logo) ==> {
                let selection = after.mouse.selection.unwrap();
                &&& selection.kind == SelectionKind::Lines
                &&& selection.anchor.line == line && selection.focus.line == line
            }
            &&& !down.modifiers.shift && !down.modifiers.alt && !down.modifiers.logo
                && down.modifiers.control && editor.mouse.clicked is None ==> {
                let selection = after.mouse.selection.unwrap();
                let first = selection.anchor.offset as int;
                let last = selection.focus.offset as int;
                &&& selection.kind == SelectionKind::Word
                &&& selection.anchor.line == line && selection.focus.line == line
                &&& 0 <= first <= at < last <= text.len()
                &&& forall|i: int|
                    first <= i < last ==> is_word(#[trigger] text[i]) == is_word(text[at])
                &&& first > 0 ==> is_word(text[first - 1]) != is_word(text[at])
                &&& last < text.len() ==> is_word(text[last]) != is_word(text[at])
            }
        }),
{
    let text = editor.doc.lines[line];
    let kind = is_word(text[at]);
    lemma_mouse_points_at_shown(editor, down, line, at);
    lemma_word_start(text, at, kind);
    lemma_word_stop(text, at + 1, kind);
}

/// Dragging at the upper or the lower border of the text moves the visible part
/// by a line, and at its left or its right border by a column.
pub proof fn lemma_border_moves_view(editor: EditorView, drag: MouseEvent)
    requires
        editor.wf(),
        editor.dragging(),
        0 <= editor.screen.top < editor.doc.lines.len() <= isize::MAX,
        0 <= editor.screen.left <= isize::MAX,
        3 <= editor.screen.rows,
        drag.kind == MouseEventKind::Drag(MouseButton::Left),
    ensures
        ({
            let after = editor.mouse_handled(drag, false).0;
            let top = editor.screen.top;
            let left = editor.screen.left;
            &&& after.doc == editor.doc
            &&& drag.row == 0 ==> after.screen.top == (if top > 0 {
                top - 1
            } else {
                0
            })
            &&& drag.row + 2 >= editor.screen.rows ==> after.screen.top == (if top + 1
                < editor.doc.lines.len() {
                top + 1
            } else {
                top
            })
            &&& 0 < drag.row && drag.row + 2 < editor.screen.rows ==> after.screen.top == top
            &&& drag.column <= editor.gutter() ==> after.screen.left == (if left > 0 {
                left - 1
            } else {
                0
            })
            &&& editor.gutter() < drag.column && drag.column + 1 >= editor.screen.cols
                ==> after.screen.left == left + 1
            &&& editor.gutter() < drag.column && drag.column + 1 < editor.screen.cols
                ==> after.screen.left == left
        }),
{
}

} // verus!
