//! What the terminal shows of a line: columns, clipping, styles and the
//! selection.
use crate::bytes::{
    fit, imax, imin, is_control, less, less_of, max_of, min_of, plus_of, push_all,
};
use crate::highlight::{
    plain_style, sgr, span_index, span_style, HighlightCursor, HighlightSpan, HighlightStyle,
};
use crate::messages::caret_byte;
use crate::selection::offsets_of;
use crate::strings::{decimal_bytes, decimal_bytes_of, utf8_lossy, utf8_of_str};
use vstd::prelude::*;
use vstd::utf8::{encode_utf8, valid_utf8};

verus! {

/// The size of the terminal, the part of the text that it shows, and what was
/// painted last.
pub struct Screen {
    pub rows: usize,
    pub cols: usize,
    pub top: usize,
    pub left: usize,
    pub rendered_rows: Vec<Vec<u8>>,
    pub rendered_size: (usize, usize),
}

/// The size of the terminal, the part of the text that it shows, and what was
/// painted last.
#[verifier::ext_equal]
pub struct ScreenView {
    /// The rows of the terminal, the status line among them.
    pub rows: int,
    /// The columns of the terminal.
    pub cols: int,
    /// The line in the first row.
    pub top: int,
    /// The display column in the first column of text.
    pub left: int,
    /// The rows as they were painted last.
    pub rendered_rows: Seq<Seq<u8>>,
    /// The size that they were painted for.
    pub rendered_size: (int, int),
}

impl View for Screen {
    type V = ScreenView;

    open spec fn view(&self) -> ScreenView {
        ScreenView {
            rows: self.rows as int,
            cols: self.cols as int,
            top: self.top as int,
            left: self.left as int,
            rendered_rows: crate::bytes::text_of(self.rendered_rows@),
            rendered_size: (self.rendered_size.0 as int, self.rendered_size.1 as int),
        }
    }
}

impl ScreenView {
    /// The screen of an editor that nothing was painted for yet.
    pub open spec fn initial() -> ScreenView {
        ScreenView {
            rows: 24,
            cols: 80,
            top: 0,
            left: 0,
            rendered_rows: Seq::empty(),
            rendered_size: (0, 0),
        }
    }

    /// The rows that show text.
    pub open spec fn body(self) -> int {
        imax(less(self.rows, 1), 1)
    }

    /// The screen with nothing known of what is painted.
    pub open spec fn forgotten(self) -> ScreenView {
        ScreenView { rendered_rows: Seq::empty(), rendered_size: (0, 0), ..self }
    }

    /// The screen with another size, kept within what the editor handles.
    pub open spec fn resized(self, rows: int, cols: int) -> ScreenView {
        ScreenView {
            rows: imin(imax(rows, 2), 512),
            cols: imin(imax(cols, 10), 4096),
            ..self
        }
    }
}

impl Screen {
    /// The screen of an editor that nothing was painted for yet.
    pub fn initial() -> (r: Self)
        ensures
            r@ == ScreenView::initial(),
    {
        let r = Screen {
            rows: 24,
            cols: 80,
            top: 0,
            left: 0,
            rendered_rows: Vec::new(),
            rendered_size: (0, 0),
        };
        assert(r@ =~= ScreenView::initial());
        r
    }

    /// The rows that show text.
    pub fn body_rows(&self) -> (r: usize)
        ensures
            r == self@.body(),
    {
        max_of(less_of(self.rows, 1), 1)
    }

    /// Drops what the last render believed was on screen, so the next one
    /// clears the terminal and repaints every row.
    pub fn force_redraw(&mut self)
        ensures
            final(self)@ == old(self)@.forgotten(),
    {
        self.rendered_rows = Vec::new();
        self.rendered_size = (0, 0);
        assert(self@ =~= old(self)@.forgotten());
    }

    /// Takes over a size, kept within what the editor handles; whether it is
    /// another one.
    pub fn set_size(&mut self, rows: usize, cols: usize) -> (r: bool)
        ensures
            final(self)@ == old(self)@.resized(rows as int, cols as int),
            r == (final(self)@.rows != old(self)@.rows || final(self)@.cols != old(self)@.cols),
    {
        let new_rows: usize = min_of(max_of(rows, 2), 512);
        let new_cols: usize = min_of(max_of(cols, 10), 4096);
        let changed = self.rows != new_rows || self.cols != new_cols;
        self.rows = new_rows;
        self.cols = new_cols;
        changed
    }
}

/// The size of the terminal: the one that it reports, else the one that the
/// environment gives, else 24 rows of 80 columns.
pub open spec fn chosen_size(
    reported: Option<(usize, usize)>,
    environment: Option<(usize, usize)>,
) -> (int, int) {
    match reported {
        Some((rows, cols)) => (rows as int, cols as int),
        None => match environment {
            Some((rows, cols)) => if rows > 0 && cols > 0 {
                (rows as int, cols as int)
            } else {
                (24, 80)
            },
            None => (24, 80),
        },
    }
}

/// The size of the terminal: the one that it reports, else the one that the
/// environment gives, else 24 rows of 80 columns.
pub fn choose_size(
    reported: Option<(usize, usize)>,
    environment: Option<(usize, usize)>,
) -> (r: (usize, usize))
    ensures
        (r.0 as int, r.1 as int) == chosen_size(reported, environment),
{
    match reported {
        Some(size) => size,
        None => match environment {
            Some((rows, cols)) => {
                if rows > 0 && cols > 0 {
                    (rows, cols)
                } else {
                    (24, 80)
                }
            },
            None => (24, 80),
        },
    }
}

/// The columns that a byte takes at a display column.
pub open spec fn fragment_width(byte: u8, column: int, tabstop: int) -> int {
    if byte == 9 {
        imax(tabstop, 1) - column % imax(tabstop, 1)
    } else if is_control(byte) {
        2
    } else {
        1
    }
}

/// The columns that a byte takes at a display column.
pub fn fragment_len(byte: u8, display_column: usize, tabstop: usize) -> (r: usize)
    ensures
        r == fragment_width(byte, display_column as int, tabstop as int),
        r >= 1,
{
    if byte == 9 {
        let stop: usize = max_of(tabstop, 1);
        stop - display_column % stop
    } else if is_control(byte) {
        2
    } else {
        1
    }
}

/// The display column behind the first `upto` bytes of a line.
pub open spec fn display_column(line: Seq<u8>, upto: int, tabstop: int) -> int
    decreases upto,
{
    if upto <= 0 {
        0
    } else if upto > line.len() {
        display_column(line, upto - 1, tabstop)
    } else {
        let before = display_column(line, upto - 1, tabstop);
        fit(before + fragment_width(line[upto - 1], before, tabstop))
    }
}

proof fn lemma_display_column_end(line: Seq<u8>, upto: int, tabstop: int)
    requires
        upto >= line.len(),
    ensures
        display_column(line, upto, tabstop) == display_column(line, line.len() as int, tabstop),
    decreases upto,
{
    if upto > line.len() {
        lemma_display_column_end(line, upto - 1, tabstop);
    }
}

/// The display column behind the first `upto` bytes of a line.
pub fn line_display_width(line: &[u8], upto: usize, tabstop: usize) -> (r: usize)
    ensures
        r == display_column(line@, upto as int, tabstop as int),
{
    let end: usize = min_of(upto, line.len());
    let mut width: usize = 0;
    let mut i: usize = 0;
    while i < end
        invariant
            i <= end <= line@.len(),
            width == display_column(line@, i as int, tabstop as int),
        decreases end - i,
    {
        width = plus_of(width, fragment_len(line[i], width, tabstop));
        i += 1;
    }
    proof {
        if upto > line@.len() {
            lemma_display_column_end(line@, upto as int, tabstop as int);
        }
    }
    width
}

/// The byte of a line, from `at` on, that shows at the display column `target`,
/// where byte `at` shows from `column` on.
pub open spec fn offset_shown_from(
    line: Seq<u8>,
    at: int,
    column: int,
    target: int,
    tabstop: int,
) -> int
    decreases line.len() - at,
{
    if at < 0 || at >= line.len() {
        line.len() as int
    } else {
        let end = fit(column + fragment_width(line[at], column, tabstop));
        if target < end {
            at
        } else {
            offset_shown_from(line, at + 1, end, target, tabstop)
        }
    }
}

/// The byte of a line that shows at the display column `target`, or the end of
/// the line.
pub fn byte_offset_at_display_column(line: &[u8], target: usize, tabstop: usize) -> (r: usize)
    ensures
        r == offset_shown_from(line@, 0, 0, target as int, tabstop as int),
        r <= line@.len(),
{
    let mut column: usize = 0;
    let mut at: usize = 0;
    while at < line.len()
        invariant
            at <= line@.len(),
            offset_shown_from(line@, at as int, column as int, target as int, tabstop as int)
                == offset_shown_from(line@, 0, 0, target as int, tabstop as int),
        decreases line@.len() - at,
    {
        let end: usize = plus_of(column, fragment_len(line[at], column, tabstop));
        if target < end {
            return at;
        }
        column = end;
        at += 1;
    }
    line.len()
}

/// What columns `start` to `stop` of the display of a byte show.
pub open spec fn fragment_text(byte: u8, start: int, stop: int) -> Seq<u8> {
    if byte == 9 {
        Seq::new((stop - start) as nat, |i: int| 32u8)
    } else if is_control(byte) {
        seq![94u8, caret_byte(byte)].subrange(start, stop)
    } else {
        seq![byte].subrange(start, stop)
    }
}

/// Appends what columns `start` to `stop` of the display of a byte show.
pub fn write_fragment(out: &mut Vec<u8>, byte: u8, start: usize, stop: usize)
    requires
        start <= stop,
        byte != 9 ==> stop <= (if is_control(byte) {
            2int
        } else {
            1
        }),
    ensures
        final(out)@ == old(out)@ + fragment_text(byte, start as int, stop as int),
{
    if byte == 9 {
        push_all(out, &crate::bytes::repeat_byte(32, stop - start));
    } else if is_control(byte) {
        if start == 0 && stop >= 1 {
            out.push(94);
        }
        if start <= 1 && stop == 2 {
            out.push(caret_byte(byte));
        }
    } else {
        if start == 0 && stop == 1 {
            out.push(byte);
        }
    }
    assert(out@ =~= old(out)@ + fragment_text(byte, start as int, stop as int));
}

/// The bytes that switch from one presentation to another.
pub open spec fn switch_text(
    style: Option<HighlightStyle>,
    selected: bool,
    new_style: Option<HighlightStyle>,
    new_selected: bool,
) -> Seq<u8> {
    if style == new_style && selected == new_selected {
        Seq::empty()
    } else {
        reset_text(style, selected) + (match new_style {
            Some(shown) => sgr(shown),
            None => Seq::empty(),
        }) + (if new_selected {
            seq![27u8, 91, 55, 109]
        } else {
            Seq::empty()
        })
    }
}

/// The bytes that go back to the normal presentation.
pub open spec fn reset_text(style: Option<HighlightStyle>, selected: bool) -> Seq<u8> {
    if style is Some || selected {
        seq![27u8, 91, 48, 109]
    } else {
        Seq::empty()
    }
}

/// How a line is to be shown.
#[verifier::ext_equal]
pub struct LineLook {
    /// Where the line starts in the document.
    pub start: int,
    /// The ranges of the last full result.
    pub spans: Seq<HighlightSpan>,
    /// The ranges of the preview.
    pub preview: Seq<HighlightSpan>,
    /// The bytes of the document that the preview covers.
    pub preview_range: Option<(usize, usize)>,
    /// The first display column that is shown.
    pub left: int,
    /// The display column behind the last one that is shown.
    pub end: int,
    /// The distance of tab stops.
    pub tabstop: int,
    /// The bytes of the line that are selected.
    pub selection: Option<(int, int)>,
}

impl LineLook {
    /// Whether the preview covers a byte of the document.
    pub open spec fn in_preview(self, offset: int) -> bool {
        match self.preview_range {
            Some((start, end)) => start <= offset < end,
            None => false,
        }
    }

    /// Whether a byte of the line is selected.
    pub open spec fn in_selection(self, at: int) -> bool {
        match self.selection {
            Some((start, end)) => start <= at < end,
            None => false,
        }
    }
}

/// Where the look-up of styles stands in the two lists of ranges.
#[verifier::ext_equal]
pub struct Cursors {
    pub full: int,
    pub preview: int,
}

/// The style of a byte of the document and where the look-up stands after it.
/// Where the preview covers the byte, it decides alone.
pub open spec fn style_of(look: LineLook, cursors: Cursors, offset: int) -> (
    Option<HighlightStyle>,
    Cursors,
) {
    if look.in_preview(offset) {
        let at = span_index(look.preview, cursors.preview, offset);
        (span_style(look.preview, at, offset), Cursors { preview: at, ..cursors })
    } else {
        let at = span_index(look.spans, cursors.full, offset);
        (span_style(look.spans, at, offset), Cursors { full: at, ..cursors })
    }
}

/// Where painting a line stands: the display column that comes next, the
/// presentation that is on, and the look-up of styles.
#[verifier::ext_equal]
pub struct PenView {
    pub column: int,
    pub style: Option<HighlightStyle>,
    pub selected: bool,
    pub cursors: Cursors,
}

/// What byte `at` of a line adds to what is shown, and where painting stands
/// behind it.
#[verifier::opaque]
pub open spec fn byte_shown(look: LineLook, byte: u8, at: int, pen: PenView) -> (Seq<u8>, PenView) {
    let end = fit(pen.column + fragment_width(byte, pen.column, look.tabstop));
    let first = imax(look.left, pen.column);
    let last = imin(look.end, end);
    if first < last {
        let (style, cursors) = style_of(look, pen.cursors, fit(look.start + at));
        let selected = look.in_selection(at);
        (
            switch_text(pen.style, pen.selected, style, selected) + fragment_text(
                byte,
                first - pen.column,
                last - pen.column,
            ),
            PenView { column: end, style, selected, cursors },
        )
    } else {
        (Seq::empty(), PenView { column: end, ..pen })
    }
}

/// What a line shows from byte `at` on, and where the look-up of styles stands
/// afterwards.
pub open spec fn shown_from(line: Seq<u8>, look: LineLook, at: int, pen: PenView) -> (
    Seq<u8>,
    Cursors,
)
    decreases line.len() - at,
{
    if at < 0 || at >= line.len() || pen.column >= look.end {
        (reset_text(pen.style, pen.selected), pen.cursors)
    } else {
        let (text, next) = byte_shown(look, line[at], at, pen);
        let rest = shown_from(line, look, at + 1, next);
        (text + rest.0, rest.1)
    }
}

/// What a line shows, and where the look-up of styles stands afterwards.
pub open spec fn shown_line(line: Seq<u8>, look: LineLook, cursors: Cursors) -> (
    Seq<u8>,
    Cursors,
) {
    shown_from(line, look, 0, PenView { column: 0, style: None, selected: false, cursors })
}

fn same_look(a: Option<HighlightStyle>, b: Option<HighlightStyle>) -> (r: bool)
    ensures
        r == (a == b),
{
    match (a, b) {
        (Some(x), Some(y)) => x.same_as(y),
        (None, None) => true,
        _ => false,
    }
}

fn write_reset(out: &mut Vec<u8>, style: Option<HighlightStyle>, selected: bool)
    ensures
        final(out)@ == old(out)@ + reset_text(style, selected),
{
    if style.is_some() || selected {
        push_all(out, &[27, 91, 48, 109]);
    }
    assert(out@ =~= old(out)@ + reset_text(style, selected));
}

fn write_switch(
    out: &mut Vec<u8>,
    style: Option<HighlightStyle>,
    selected: bool,
    new_style: Option<HighlightStyle>,
    new_selected: bool,
)
    ensures
        final(out)@ == old(out)@ + switch_text(style, selected, new_style, new_selected),
{
    if !same_look(style, new_style) || selected != new_selected {
        write_reset(out, style, selected);
        if let Some(shown) = new_style {
            shown.write_sgr(out);
        }
        if new_selected {
            push_all(out, &[27, 91, 55, 109]);
        }
    }
    assert(out@ =~= old(out)@ + switch_text(style, selected, new_style, new_selected));
}

fn in_range(range: Option<(usize, usize)>, at: usize) -> (r: bool)
    ensures
        r == (match range {
            Some((start, end)) => start <= at < end,
            None => false,
        }),
{
    match range {
        Some((start, end)) => start <= at && at < end,
        None => false,
    }
}

/// How a line is to be shown, apart from the ranges.
struct Look {
    start: usize,
    preview_range: Option<(usize, usize)>,
    left: usize,
    end: usize,
    tabstop: usize,
    selection: Option<(usize, usize)>,
}

/// Where painting a line stands.
struct Pen {
    column: usize,
    style: Option<HighlightStyle>,
    selected: bool,
}

impl Look {
    closed spec fn with_spans(
        self,
        spans: Seq<HighlightSpan>,
        preview: Seq<HighlightSpan>,
    ) -> LineLook {
        LineLook {
            start: self.start as int,
            spans,
            preview,
            preview_range: self.preview_range,
            left: self.left as int,
            end: self.end as int,
            tabstop: self.tabstop as int,
            selection: offsets_of(self.selection),
        }
    }
}

impl Pen {
    closed spec fn with_cursors(self, full: usize, preview: usize) -> PenView {
        PenView {
            column: self.column as int,
            style: self.style,
            selected: self.selected,
            cursors: Cursors { full: full as int, preview: preview as int },
        }
    }
}

fn write_byte(
    out: &mut Vec<u8>,
    byte: u8,
    at: usize,
    look: &Look,
    pen: Pen,
    highlights: &mut HighlightCursor<'_>,
    preview: &mut HighlightCursor<'_>,
) -> (r: Pen)
    ensures
        ({
            let shown = byte_shown(
                look.with_spans(old(highlights).spans@, old(preview).spans@),
                byte,
                at as int,
                pen.with_cursors(old(highlights).index, old(preview).index),
            );
            &&& final(out)@ == old(out)@ + shown.0
            &&& final(highlights).spans@ == old(highlights).spans@
            &&& final(preview).spans@ == old(preview).spans@
            &&& r.with_cursors(final(highlights).index, final(preview).index) == shown.1
        }),
{
    reveal(byte_shown);
    let end: usize = plus_of(pen.column, fragment_len(byte, pen.column, look.tabstop));
    let first: usize = max_of(look.left, pen.column);
    let last: usize = min_of(look.end, end);
    if first < last {
        let offset: usize = plus_of(look.start, at);
        let style = if in_range(look.preview_range, offset) {
            preview.style_at(offset)
        } else {
            highlights.style_at(offset)
        };
        let selected = in_range(look.selection, at);
        write_switch(out, pen.style, pen.selected, style, selected);
        write_fragment(out, byte, first - pen.column, last - pen.column);
        assert(out@ =~= old(out)@ + (switch_text(pen.style, pen.selected, style, selected)
            + fragment_text(byte, first - pen.column, last - pen.column)));
        Pen { column: end, style, selected }
    } else {
        assert(out@ =~= old(out)@ + Seq::<u8>::empty());
        Pen { column: end, style: pen.style, selected: pen.selected }
    }
}

/// Appends what a line shows of the columns from `screen_left` on, with the
/// styles of the two lists of ranges and the selection.
pub fn write_highlighted_line_with_selection(
    out: &mut Vec<u8>,
    line: &[u8],
    line_start: usize,
    highlights: &mut HighlightCursor<'_>,
    preview: &mut HighlightCursor<'_>,
    preview_range: Option<(usize, usize)>,
    screen_left: usize,
    width: usize,
    tabstop: usize,
    selection: Option<(usize, usize)>,
)
    ensures
        ({
            let look = LineLook {
                start: line_start as int,
                spans: old(highlights).spans@,
                preview: old(preview).spans@,
                preview_range,
                left: screen_left as int,
                end: fit(screen_left + width),
                tabstop: tabstop as int,
                selection: offsets_of(selection),
            };
            let shown = shown_line(
                line@,
                look,
                Cursors { full: old(highlights).index as int, preview: old(preview).index as int },
            );
            &&& final(out)@ == old(out)@ + shown.0
            &&& final(highlights).spans@ == old(highlights).spans@
            &&& final(preview).spans@ == old(preview).spans@
            &&& final(highlights).index == shown.1.full
            &&& final(preview).index == shown.1.preview
        }),
{
    let look = Look {
        start: line_start,
        preview_range,
        left: screen_left,
        end: plus_of(screen_left, width),
        tabstop,
        selection,
    };
    let ghost view = look.with_spans(old(highlights).spans@, old(preview).spans@);
    let ghost whole = shown_line(
        line@,
        view,
        Cursors { full: old(highlights).index as int, preview: old(preview).index as int },
    );
    let mut pen = Pen { column: 0, style: None, selected: false };
    let mut at: usize = 0;
    while at < line.len() && pen.column < look.end
        invariant
            at <= line@.len(),
            view == look.with_spans(highlights.spans@, preview.spans@),
            ({
                let rest = shown_from(
                    line@,
                    view,
                    at as int,
                    pen.with_cursors(highlights.index, preview.index),
                );
                &&& out@ + rest.0 == old(out)@ + whole.0
                &&& rest.1 == whole.1
            }),
        decreases line@.len() - at,
    {
        let ghost before = out@;
        let ghost here = pen.with_cursors(highlights.index, preview.index);
        pen = write_byte(out, line[at], at, &look, pen, highlights, preview);
        proof {
            let (text, next) = byte_shown(view, line@[at as int], at as int, here);
            let rest = shown_from(line@, view, at + 1, next);
            assert(out@ + rest.0 =~= before + (text + rest.0));
        }
        at += 1;
    }
    write_reset(out, pen.style, pen.selected);
}

/// A line without styles, selected or not.
pub open spec fn plain_look(
    left: int,
    width: int,
    tabstop: int,
    selection: Option<(int, int)>,
) -> LineLook {
    LineLook {
        start: 0,
        spans: Seq::empty(),
        preview: Seq::empty(),
        preview_range: None,
        left,
        end: fit(left + width),
        tabstop,
        selection,
    }
}

/// Appends what a line shows of the columns from `screen_left` on, without
/// styles.
pub fn write_plain_line_with_selection(
    out: &mut Vec<u8>,
    line: &[u8],
    screen_left: usize,
    width: usize,
    tabstop: usize,
    selection: Option<(usize, usize)>,
)
    ensures
        final(out)@ == old(out)@ + shown_line(
            line@,
            plain_look(screen_left as int, width as int, tabstop as int, offsets_of(selection)),
            Cursors { full: 0, preview: 0 },
        ).0,
{
    let none: [HighlightSpan; 0] = [];
    let mut full = HighlightCursor::new(&none);
    let mut preview = HighlightCursor::new(&none);
    assert(none@ =~= Seq::<HighlightSpan>::empty());
    write_highlighted_line_with_selection(
        out,
        line,
        0,
        &mut full,
        &mut preview,
        None,
        screen_left,
        width,
        tabstop,
        selection,
    );
}

/// A line number, right-aligned in `width` columns, and a space behind it.
pub open spec fn number_text(number: int, width: int) -> Seq<u8> {
    let digits = decimal_bytes(number as nat);
    Seq::new(less(width, digits.len() as int) as nat, |i: int| 32u8) + digits + seq![32u8]
}

/// The line number in front of a line, in its style.
pub open spec fn gutter_text(number: int, width: int, style: Option<HighlightStyle>) -> Seq<u8> {
    match style {
        Some(shown) => if shown != plain_style() {
            sgr(shown) + number_text(number, width) + seq![27u8, 91, 48, 109]
        } else {
            number_text(number, width)
        },
        None => number_text(number, width),
    }
}

/// Appends the line number in front of a line, in its style.
pub fn write_line_number(
    out: &mut Vec<u8>,
    line_number: u128,
    width: usize,
    style: Option<HighlightStyle>,
)
    ensures
        final(out)@ == old(out)@ + gutter_text(line_number as int, width as int, style),
{
    let mut styled = false;
    if let Some(shown) = style {
        if !shown.is_plain() {
            shown.write_sgr(out);
            styled = true;
        }
    }
    let digits = decimal_bytes_of(line_number);
    push_all(out, &crate::bytes::repeat_byte(32, less_of(width, digits.len())));
    push_all(out, &digits);
    out.push(32);
    if styled {
        push_all(out, &[27, 91, 48, 109]);
    }
    assert(out@ =~= old(out)@ + gutter_text(line_number as int, width as int, style));
}

/// The operating systems that the editor tells apart.
#[derive(Clone, Copy, Debug, PartialEq, Eq, Structural)]
pub enum Platform {
    Unix,
    MacOs,
    Windows,
}

/// A painted row as it is sent to the terminal. A Windows console rejects
/// malformed UTF-8, and a row can be clipped in the middle of a character, so
/// there the row is made valid first.
pub open spec fn row_sent(row: Seq<u8>, platform: Platform) -> Seq<u8> {
    match platform {
        Platform::Windows if !valid_utf8(row) => encode_utf8(crate::strings::lossy_text(row)),
        _ => row,
    }
}

/// Whether a backslash separates the components of a path here, from
/// `std::path::is_separator`. On Windows it does. The result depends on the
/// system, and nothing is promised of it.
#[verifier::external_body]
fn backslash_separates() -> bool {
    std::path::is_separator('\\')
}

/// Whether a platform may be the one that the editor runs on, as far as the
/// editor can tell.
pub closed spec fn may_be_host(platform: Platform) -> bool {
    exists|backslash: bool|
        #[trigger] call_ensures(backslash_separates, (), backslash) && platform == (if backslash {
            Platform::Windows
        } else {
            Platform::Unix
        })
}

impl Platform {
    /// The platform that the editor runs on: Windows, or one that is taken for
    /// Unix. A host on macOS names it where it matters.
    pub fn host() -> (r: Platform)
        ensures
            may_be_host(r),
            r == Platform::Windows || r == Platform::Unix,
    {
        let backslash = backslash_separates();
        assert(call_ensures(backslash_separates, (), backslash));
        if backslash {
            Platform::Windows
        } else {
            Platform::Unix
        }
    }
}

/// Appends a painted row as it is sent to the terminal.
pub fn write_rendered_row(out: &mut Vec<u8>, row: &[u8], platform: Platform)
    ensures
        final(out)@ == old(out)@ + row_sent(row@, platform),
{
    match platform {
        Platform::Windows => {
            let text = utf8_lossy(row);
            proof {
                if valid_utf8(row@) {
                    vstd::utf8::decode_utf8_encode_utf8(row@);
                }
            }
            push_all(out, &utf8_of_str(text.as_str()));
        },
        _ => {
            push_all(out, row);
        },
    }
}

} // verus!
