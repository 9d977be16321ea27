//! What a frame shows, said of what a terminal prints.
use crate::bytes::{fit, imax, imin, is_control, less};
use crate::colon::lemma_decimal_digits;
use crate::editor::EditorView;
use crate::laws::{
    bare_from, lemma_short_escape_not_printed, lemma_shown_from_prints_text,
    lemma_style_not_printed, lemma_text_printed, printed,
};
use crate::render::{clear_row, GutterStyles};
use crate::screen::{
    display_column, fragment_text, fragment_width, gutter_text, number_text, shown_line, Cursors,
    LineLook, PenView,
};
use crate::highlight::HighlightStyle;
use crate::strings::decimal_bytes;
use vstd::prelude::*;

verus! {

/// Whether this is a line number as it is printed: digits, spaces before them,
/// and one space behind them, four columns or more.
pub open spec fn is_numbered(text: Seq<u8>, number: nat) -> bool {
    let digits = decimal_bytes(number);
    &&& text.len() >= 4
    &&& text.len() >= digits.len() + 1
    &&& text.last() == 32
    &&& text.subrange(text.len() - 1 - digits.len(), text.len() - 1) == digits
    &&& forall|i: int| 0 <= i < text.len() - 1 - digits.len() ==> #[trigger] text[i] == 32
}

/// What stands in front of a line: its number where numbers are shown, and
/// nothing elsewhere.
pub open spec fn in_front(editor: EditorView, text: Seq<u8>, line: int) -> bool {
    if editor.options.number {
        is_numbered(text, (line + 1) as nat)
    } else {
        text.len() == 0
    }
}

proof fn lemma_clear_not_printed()
    ensures
        printed(clear_row(), false) == Seq::<u8>::empty(),
{
    reveal_with_fuel(printed, 4);
    let all = clear_row();
    let a = all.subrange(1, 3);
    let b = a.subrange(1, 2);
    let c = b.subrange(1, 1);
    assert(all[0] == 27 && a[0] == 91 && b[0] == 75);
    assert(c =~= Seq::<u8>::empty());
}

proof fn lemma_decimal_shorter(a: nat, b: nat)
    requires
        a <= b,
    ensures
        decimal_bytes(a).len() <= decimal_bytes(b).len(),
    decreases b,
{
    if b >= 10 && a >= 10 {
        lemma_decimal_shorter(a / 10, b / 10);
    } else if b >= 10 {
        lemma_decimal_digits(b / 10);
    }
}

proof fn lemma_number_printed(
    number: int,
    width: int,
    style: Option<HighlightStyle>,
    rest: Seq<u8>,
)
    requires
        0 <= number,
    ensures
        printed(gutter_text(number, width, style) + rest, false) == number_text(number, width)
            + printed(rest, false),
{
    let text = number_text(number, width);
    let digits = decimal_bytes(number as nat);
    lemma_decimal_digits(number as nat);
    assert(!text.contains(27)) by {
        if text.contains(27) {
            let i = choose|i: int| 0 <= i < text.len() && text[i] == 27;
            let pad = less(width, digits.len() as int);
            if pad <= i < pad + digits.len() {
                assert(text[i] == digits[i - pad]);
            }
        }
    }
    match style {
        Some(shown) if shown != crate::highlight::plain_style() => {
            let reset = seq![27u8, 91, 48, 109];
            let all = gutter_text(number, width, style) + rest;
            assert(all =~= crate::highlight::sgr(shown) + (text + (reset + rest)));
            lemma_style_not_printed(shown, text + (reset + rest));
            lemma_text_printed(text, reset + rest);
            lemma_short_escape_not_printed(48, rest);
        },
        _ => {
            lemma_text_printed(text, rest);
        },
    }
}

/// What the row of a line prints: what stands in front of it, and the part of
/// the line that is visible.
pub(crate) proof fn lemma_row_printed(editor: EditorView, index: int, styles: GutterStyles, cursors: Cursors)
    requires
        0 <= index < editor.doc.lines.len(),
        0 <= editor.screen.left,
    ensures
        ({
            let row = printed(editor.text_row(index, styles, cursors).0, false);
            let bare = bare_from(editor.doc.lines[index], editor.look(index), 0, 0);
            let width = row.len() - bare.len();
            &&& width == editor.gutter()
            &&& row.subrange(width, row.len() as int) == bare
            &&& in_front(editor, row.subrange(0, width), index)
        }),
{
    let line = editor.doc.lines[index];
    let look = editor.look(index);
    let used = if editor.styled() {
        cursors
    } else {
        Cursors { full: 0, preview: 0 }
    };
    let shown = shown_line(line, look, used).0;
    let bare = bare_from(line, look, 0, 0);
    let row = editor.text_row(index, styles, cursors).0;
    lemma_clear_not_printed();
    lemma_shown_from_prints_text(
        line,
        look,
        0,
        PenView { column: 0, style: None, selected: false, cursors: used },
        clear_row(),
    );
    assert(bare + Seq::<u8>::empty() =~= bare);
    if editor.options.number {
        let style = if index == editor.doc.row {
            styles.current
        } else {
            styles.other
        };
        let width = less(editor.gutter(), 1);
        let number = gutter_text(index + 1, width, style);
        assert(row =~= number + (shown + clear_row()));
        lemma_number_printed(index + 1, width, style, shown + clear_row());
        let text = number_text(index + 1, width);
        let digits = decimal_bytes((index + 1) as nat);
        lemma_decimal_digits((index + 1) as nat);
        lemma_decimal_shorter((index + 1) as nat, editor.doc.lines.len());
        assert(printed(row, false) == text + bare);
        assert((text + bare).subrange(0, text.len() as int) =~= text);
        assert((text + bare).subrange(text.len() as int, (text + bare).len() as int) =~= bare);
        assert(text.subrange(text.len() - 1 - digits.len(), text.len() - 1) =~= digits);
    } else {
        assert(row =~= shown + clear_row());
        assert(printed(row, false).subrange(0, 0).len() == 0);
        assert(bare.subrange(0, bare.len() as int) =~= bare);
    }
}

pub(crate) proof fn lemma_row_of_frame(
    editor: EditorView,
    from: int,
    styles: GutterStyles,
    cursors: Cursors,
    at: int,
)
    requires
        0 <= from <= at < editor.screen.body(),
    ensures
        editor.text_rows(from, styles, cursors).len() == editor.screen.body() - from,
        exists|used: Cursors|
            editor.text_rows(from, styles, cursors)[at - from] == (#[trigger] editor.text_row(
                fit(editor.screen.top + at),
                styles,
                used,
            )).0,
    decreases editor.screen.body() - from,
{
    let (row, next) = editor.text_row(fit(editor.screen.top + from), styles, cursors);
    let rows = editor.text_rows(from, styles, cursors);
    let rest = editor.text_rows(from + 1, styles, next);
    assert(rows == seq![row] + rest);
    if at == from {
        if from + 1 < editor.screen.body() {
            lemma_row_of_frame(editor, from + 1, styles, next, from + 1);
        }
        assert(rows[0] == editor.text_row(fit(editor.screen.top + at), styles, cursors).0);
    } else {
        lemma_row_of_frame(editor, from + 1, styles, next, at);
        assert(rows[at - from] == rest[at - (from + 1)]);
    }
}

proof fn lemma_columns_grow(line: Seq<u8>, from: int, to: int, tabstop: int)
    requires
        0 <= from <= to,
    ensures
        0 <= display_column(line, from, tabstop) <= display_column(line, to, tabstop)
            <= usize::MAX,
    decreases to,
{
    if from < to {
        lemma_columns_grow(line, from, to - 1, tabstop);
    } else if to > 0 {
        lemma_columns_grow(line, to - 1, to - 1, tabstop);
    }
}

/// Where a byte of a line stands in what is printed of the line.
proof fn lemma_byte_printed(line: Seq<u8>, look: LineLook, at: int, upto: int)
    requires
        0 <= at <= upto <= line.len(),
        0 <= look.left,
        look.tabstop >= 1,
        look.left <= display_column(line, upto, look.tabstop) < look.end,
        look.end <= usize::MAX,
    ensures
        ({
            let column = display_column(line, at, look.tabstop);
            let bare = bare_from(line, look, at, column);
            let before = display_column(line, upto, look.tabstop) - imax(look.left, column);
            let cut = bare_from(line.subrange(0, upto), look, at, column);
            &&& cut.len() == before
            &&& before <= bare.len()
            &&& bare.subrange(0, before) == cut
            &&& upto < line.len() && !is_control(line[upto]) ==> before < bare.len()
                && bare[before] == line[upto]
        }),
    decreases upto - at,
{
    let column = display_column(line, at, look.tabstop);
    let target = display_column(line, upto, look.tabstop);
    let prefix = line.subrange(0, upto);
    let bare = bare_from(line, look, at, column);
    let cut = bare_from(prefix, look, at, column);
    lemma_columns_grow(line, at, upto, look.tabstop);
    if at < upto {
        lemma_columns_grow(line, at + 1, upto, look.tabstop);
        lemma_byte_printed(line, look, at + 1, upto);
        assert(prefix[at] == line[at]);
        let end = fit(column + fragment_width(line[at], column, look.tabstop));
        assert(end == display_column(line, at + 1, look.tabstop));
        let first = imax(look.left, column);
        let last = imin(look.end, end);
        assert(last == end);
        let piece = if first < last {
            fragment_text(line[at], first - column, last - column)
        } else {
            Seq::empty()
        };
        let bare_rest = bare_from(line, look, at + 1, end);
        let cut_rest = bare_from(prefix, look, at + 1, end);
        assert(bare == piece + bare_rest);
        assert(cut == piece + cut_rest);
        assert(first < last ==> piece.len() == last - first);
        let rest_before = target - imax(look.left, end);
        let before = target - first;
        assert(piece.len() + rest_before == before);
        assert(bare.subrange(0, before) =~= piece + bare_rest.subrange(0, rest_before));
        if upto < line.len() && !is_control(line[upto]) {
            assert(bare[before] == bare_rest[rest_before]);
        }
    } else {
        assert(cut =~= Seq::<u8>::empty());
        assert(bare.subrange(0, 0) =~= cut);
        if upto < line.len() && !is_control(line[upto]) {
            let piece = fragment_text(line[at], 0, 1);
            assert(piece =~= seq![line[at]]);
            assert(bare[0] == line[at]);
        }
    }
}

/// The terminal's cursor stands behind what its row prints in front of the
/// cursor's byte, that is the line number and its space where numbers are
/// shown, and the visible part of the line up to the byte. A byte that prints
/// as itself is printed right there. This is said of a cursor that is visible,
/// on a screen that is wider than the line numbers, while no line is typed.
pub proof fn lemma_cursor_stands_at_its_byte(editor: EditorView, styles: GutterStyles)
    requires
        editor.wf(),
        editor.doc.col <= editor.doc.line().len(),
        0 <= editor.screen.top <= editor.doc.row < editor.screen.top + editor.screen.body(),
        0 <= editor.screen.left,
        editor.screen.left + editor.text_width() <= usize::MAX,
        editor.gutter() < editor.screen.cols <= 4096,
        editor.screen.left <= display_column(
            editor.doc.line(),
            editor.doc.col,
            editor.options.tabstop as int,
        ) < editor.screen.left + editor.text_width(),
    ensures
        ({
            let line = editor.doc.line();
            let (row, col) = editor.cursor_place(None);
            let frame = editor.frame(None, styles);
            let shown = printed(frame[row - 1], false);
            let text = bare_from(line, editor.look(editor.doc.row), 0, 0);
            let before = bare_from(
                line.subrange(0, editor.doc.col),
                editor.look(editor.doc.row),
                0,
                0,
            );
            let number = shown.subrange(0, shown.len() - text.len());
            &&& row == editor.doc.row - editor.screen.top + 1
            &&& 1 <= row <= editor.screen.body() < frame.len()
            &&& in_front(editor, number, editor.doc.row)
            &&& shown == number + text
            &&& before.len() <= text.len()
            &&& text.subrange(0, before.len() as int) == before
            &&& col == number.len() + before.len() + 1
            &&& editor.doc.col < line.len() && !is_control(line[editor.doc.col]) ==> col
                <= shown.len() && shown[col - 1] == line[editor.doc.col]
        }),
{
    let line = editor.doc.line();
    let at = editor.doc.row - editor.screen.top;
    let start = Cursors { full: 0, preview: 0 };
    let rows = editor.text_rows(0, styles, start);
    lemma_row_of_frame(editor, 0, styles, start, at);
    let used = choose|used: Cursors|
        rows[at - 0] == (#[trigger] editor.text_row(
            fit(editor.screen.top + at),
            styles,
            used,
        )).0;
    let frame = editor.frame(None, styles);
    assert(frame[at] == rows[at]);
    lemma_row_printed(editor, editor.doc.row, styles, used);
    let look = editor.look(editor.doc.row);
    assert(look.left == editor.screen.left && look.end == editor.screen.left
        + editor.text_width() && look.tabstop == editor.options.tabstop as int);
    lemma_byte_printed(line, look, 0, editor.doc.col);
    let shown = printed(frame[at], false);
    let text = bare_from(line, look, 0, 0);
    let number = shown.subrange(0, shown.len() - text.len());
    assert(shown =~= number + shown.subrange(shown.len() - text.len(), shown.len() as int));
}

proof fn lemma_plain_line_printed(line: Seq<u8>, look: LineLook, at: int)
    requires
        0 <= at <= line.len() <= look.end,
        look.left == 0,
        look.end <= usize::MAX,
        forall|i: int| 0 <= i < line.len() ==> !is_control(#[trigger] line[i]),
    ensures
        bare_from(line, look, at, at) == line.subrange(at, line.len() as int),
    decreases line.len() - at,
{
    if at < line.len() {
        lemma_plain_line_printed(line, look, at + 1);
        assert(!is_control(line[at]));
        assert(fragment_text(line[at], 0, 1) =~= seq![line[at]]);
        assert(bare_from(line, look, at, at) =~= line.subrange(at, line.len() as int));
    } else {
        assert(line.subrange(at, line.len() as int) =~= Seq::<u8>::empty());
    }
}

/// The rows of a frame show the lines of the text from the first visible one
/// on, each with its own number where numbers are shown, and a tilde behind the
/// last one. This is said of lines that print as they are and fit on the
/// screen.
pub proof fn lemma_rows_show_lines(editor: EditorView, styles: GutterStyles, at: int)
    requires
        editor.wf(),
        0 <= editor.screen.top,
        editor.screen.left == 0,
        editor.text_width() <= usize::MAX,
        0 <= at < editor.screen.body(),
        editor.screen.top + at <= usize::MAX,
    ensures
        ({
            let index = editor.screen.top + at;
            let frame = editor.frame(None, styles);
            let shown = printed(frame[at], false);
            if index < editor.doc.lines.len() {
                let line = editor.doc.lines[index];
                (line.len() <= editor.text_width() && forall|i: int|
                    0 <= i < line.len() ==> !is_control(#[trigger] line[i])) ==> {
                    &&& shown.len() >= line.len()
                    &&& shown.subrange(shown.len() - line.len(), shown.len() as int) == line
                    &&& in_front(editor, shown.subrange(0, shown.len() - line.len()), index)
                }
            } else {
                shown == seq![126u8]
            }
        }),
{
    let index = editor.screen.top + at;
    let start = Cursors { full: 0, preview: 0 };
    let rows = editor.text_rows(0, styles, start);
    lemma_row_of_frame(editor, 0, styles, start, at);
    let used = choose|used: Cursors|
        rows[at - 0] == (#[trigger] editor.text_row(
            fit(editor.screen.top + at),
            styles,
            used,
        )).0;
    let frame = editor.frame(None, styles);
    assert(frame[at] == rows[at]);
    if index < editor.doc.lines.len() {
        let line = editor.doc.lines[index];
        lemma_row_printed(editor, index, styles, used);
        if line.len() <= editor.text_width() && forall|i: int|
            0 <= i < line.len() ==> !is_control(#[trigger] line[i]) {
            lemma_plain_line_printed(line, editor.look(index), 0);
            assert(line.subrange(0, line.len() as int) =~= line);
        }
    } else {
        lemma_clear_not_printed();
        lemma_text_printed(seq![126u8], clear_row());
        assert(seq![126u8] + Seq::<u8>::empty() =~= seq![126u8]);
    }
}

} // verus!
