//! Painting: the rows of a frame, and the bytes that bring the terminal from
//! the last frame to this one.
use crate::bytes::{
    fit, imax, imin, less, less_of, max_of, min_of, plus_of, push_all, same_bytes, text_of,
};
use crate::document::{unedited, DocView};
use crate::editor::{Editor, EditorView};
use crate::highlight::{HighlightCursor, HighlightStyle};
use crate::messages::{edit_message, edit_status};
use crate::screen::{
    display_column, gutter_text, line_display_width, plain_look, row_sent, shown_line,
    write_highlighted_line_with_selection, write_line_number, write_plain_line_with_selection,
    write_rendered_row, Cursors, LineLook, ScreenView,
};
use crate::selection::{offsets_on_line, selection_offsets_on_line};
use crate::strings::{char_range, chars_of, decimal_bytes, decimal_bytes_of, utf8_of};
use crate::syntax::{may_style, Answers, SyntaxHighlighter};
use vstd::prelude::*;
use vstd::string::*;
use vstd::utf8::encode_utf8;

verus! {

broadcast use crate::syntax::group_noted;

/// The styles of line numbers: of the current line, and of the others.
#[derive(Clone, Copy, Debug)]
pub struct GutterStyles {
    pub current: Option<HighlightStyle>,
    pub other: Option<HighlightStyle>,
}

/// The escape sequence that clears the rest of a row.
pub open spec fn clear_row() -> Seq<u8> {
    seq![27u8, 91, 75]
}

/// The text of at most `count` characters.
pub open spec fn first_chars(text: Seq<char>, count: int) -> Seq<char> {
    text.subrange(0, imin(text.len() as int, count))
}

/// The escape sequence that puts the cursor to a row and a column.
pub open spec fn cursor_to(row: int, col: int) -> Seq<u8> {
    seq![27u8, 91] + decimal_bytes(row as nat) + seq![59u8] + decimal_bytes(col as nat) + seq![72u8]
}

impl EditorView {
    /// Whether any range is styled.
    pub open spec fn styled(self) -> bool {
        self.doc.syntax.highlights.len() > 0 || self.doc.syntax.preview.len() > 0
    }

    /// How a line is to be shown.
    pub open spec fn look(self, index: int) -> LineLook {
        let selection = offsets_on_line(self.doc.lines, self.mouse.selection, index);
        if self.styled() {
            LineLook {
                start: self.doc.syntax.line_offset(index),
                spans: self.doc.syntax.highlights,
                preview: self.doc.syntax.preview,
                preview_range: self.doc.syntax.preview_range,
                left: self.screen.left,
                end: fit(self.screen.left + self.text_width()),
                tabstop: self.options.tabstop as int,
                selection,
            }
        } else {
            plain_look(
                self.screen.left,
                self.text_width(),
                self.options.tabstop as int,
                selection,
            )
        }
    }

    /// The row that shows a line, and where the look-up of styles stands
    /// afterwards. Behind the text, rows show a tilde.
    pub open spec fn text_row(self, index: int, styles: GutterStyles, cursors: Cursors) -> (
        Seq<u8>,
        Cursors,
    ) {
        if index >= self.doc.lines.len() {
            (seq![126u8] + clear_row(), cursors)
        } else {
            let number = if self.options.number {
                gutter_text(
                    index + 1,
                    less(self.gutter(), 1),
                    if index == self.doc.row {
                        styles.current
                    } else {
                        styles.other
                    },
                )
            } else {
                Seq::empty()
            };
            let shown = shown_line(
                self.doc.lines[index],
                self.look(index),
                if self.styled() {
                    cursors
                } else {
                    Cursors { full: 0, preview: 0 }
                },
            );
            (
                number + shown.0 + clear_row(),
                if self.styled() {
                    shown.1
                } else {
                    cursors
                },
            )
        }
    }

    /// The rows that show text, from row `from` on.
    pub open spec fn text_rows(self, from: int, styles: GutterStyles, cursors: Cursors) -> Seq<
        Seq<u8>,
    >
        decreases self.screen.body() - from,
    {
        if from >= self.screen.body() {
            Seq::empty()
        } else {
            let (row, next) = self.text_row(fit(self.screen.top + from), styles, cursors);
            seq![row] + self.text_rows(from + 1, styles, next)
        }
    }

    /// The status line without a message.
    pub open spec fn edit_line(self) -> Seq<char> {
        edit_message(
            self.input.mode,
            self.files.filename,
            self.files.readonly,
            self.doc.modified,
            self.doc.row,
            self.doc.lines.len() as int,
        )
    }

    /// The last row: the line that is being typed, or the message, or the
    /// state of the editor.
    pub open spec fn status_row(self, prompt: Option<Seq<char>>) -> Seq<u8> {
        let room = less(self.screen.cols, 1);
        clear_row() + (match prompt {
            Some(text) => encode_utf8(first_chars(text, room)),
            None => if self.message.text.len() > 0 {
                if self.message.highlighted {
                    seq![27u8, 91, 55, 109] + self.message.bytes + seq![27u8, 91, 109]
                } else {
                    self.message.bytes
                }
            } else {
                encode_utf8(first_chars(self.edit_line(), room))
            },
        })
    }

    /// All rows of a frame.
    pub open spec fn frame(self, prompt: Option<Seq<char>>, styles: GutterStyles) -> Seq<Seq<u8>> {
        self.text_rows(0, styles, Cursors { full: 0, preview: 0 }).push(self.status_row(prompt))
    }

    /// Whether the terminal has to be painted as a whole.
    pub open spec fn repaints(self, frame: Seq<Seq<u8>>) -> bool {
        self.screen.rendered_size != (self.screen.rows, self.screen.cols)
            || self.screen.rendered_rows.len() != frame.len()
    }

    /// The bytes for the rows up to `upto`: those that differ from what was
    /// painted last, or all of them.
    pub open spec fn row_updates(self, frame: Seq<Seq<u8>>, upto: int) -> Seq<u8>
        decreases upto,
    {
        if upto <= 0 {
            Seq::empty()
        } else {
            self.row_updates(frame, upto - 1) + (if self.repaints(frame)
                || self.screen.rendered_rows[upto - 1] != frame[upto - 1] {
                cursor_to(upto, 1) + row_sent(frame[upto - 1], self.platform)
            } else {
                Seq::empty()
            })
        }
    }

    /// Where the terminal's cursor goes.
    pub open spec fn cursor_place(self, prompt: Option<Seq<char>>) -> (int, int) {
        match prompt {
            Some(text) => (
                self.screen.rows,
                imin(text.len() as int, less(self.screen.cols, 1)) + 1,
            ),
            None => {
                let column = display_column(
                    self.doc.line(),
                    self.doc.col,
                    self.options.tabstop as int,
                );
                (
                    imax(imin(less(self.doc.row, self.screen.top) + 1, self.screen.body()), 1),
                    imin(
                        fit(less(column, self.screen.left) + self.gutter()),
                        less(self.screen.cols, 1),
                    ) + 1,
                )
            },
        }
    }

    /// The bytes that bring the terminal from the last frame to this one: all
    /// rows behind a cleared screen, or the rows that differ, and the place of
    /// the cursor.
    pub open spec fn painting(self, frame: Seq<Seq<u8>>, prompt: Option<Seq<char>>) -> Seq<u8> {
        let (row, col) = self.cursor_place(prompt);
        (if self.repaints(frame) {
            seq![27u8, 91, 50, 74, 27, 91, 72]
        } else {
            Seq::empty()
        }) + self.row_updates(frame, frame.len() as int) + seq![27u8, 91, 63, 50, 53, 104]
            + cursor_to(row, col)
    }

    /// The editor once a frame is painted.
    pub open spec fn painted(self, frame: Seq<Seq<u8>>) -> EditorView {
        EditorView {
            screen: ScreenView {
                rendered_rows: frame,
                rendered_size: (self.screen.rows, self.screen.cols),
                ..self.screen
            },
            ..self
        }
    }
}

/// An optional text as a value.
pub open spec fn prompt_of(prompt: Option<&str>) -> Option<Seq<char>> {
    match prompt {
        Some(text) => Some(text@),
        None => None,
    }
}

fn write_cursor_to(out: &mut Vec<u8>, row: u128, col: u128)
    ensures
        final(out)@ == old(out)@ + cursor_to(row as int, col as int),
{
    out.push(27);
    out.push(91);
    push_all(out, &decimal_bytes_of(row));
    out.push(59);
    push_all(out, &decimal_bytes_of(col));
    out.push(72);
    assert(out@ =~= old(out)@ + cursor_to(row as int, col as int));
}

fn write_chars(out: &mut Vec<u8>, text: &str, count: usize)
    ensures
        final(out)@ == old(out)@ + encode_utf8(first_chars(text@, count as int)),
{
    let chars = chars_of(text);
    push_all(out, &utf8_of(&char_range(&chars, 0, min_of(chars.len(), count))));
}

impl Editor {
    /// The row that shows a line.
    fn build_row(
        &self,
        index: usize,
        styles: GutterStyles,
        full: &mut HighlightCursor<'_>,
        preview: &mut HighlightCursor<'_>,
    ) -> (r: Vec<u8>)
        requires
            self@.wf(),
            old(full).spans@ == self@.doc.syntax.highlights,
            old(preview).spans@ == self@.doc.syntax.preview,
        ensures
            final(full).spans@ == old(full).spans@,
            final(preview).spans@ == old(preview).spans@,
            (r@, Cursors { full: final(full).index as int, preview: final(preview).index as int })
                == self@.text_row(
                index as int,
                styles,
                Cursors { full: old(full).index as int, preview: old(preview).index as int },
            ),
    {
        let mut row: Vec<u8> = Vec::new();
        if index >= self.doc.lines.len() {
            push_all(&mut row, &[126, 27, 91, 75]);
            assert(row@ =~= seq![126u8] + clear_row());
            return row;
        }
        if self.options.number {
            write_line_number(
                &mut row,
                index as u128 + 1,
                less_of(self.number_column_width(), 1),
                if index == self.doc.row {
                    styles.current
                } else {
                    styles.other
                },
            );
        }
        let ghost number = row@;
        assert(number =~= if self.options.number {
            gutter_text(
                index + 1,
                less(self@.gutter(), 1),
                if index == self.doc.row {
                    styles.current
                } else {
                    styles.other
                },
            )
        } else {
            Seq::empty()
        });
        let selected = selection_offsets_on_line(&self.doc.lines, self.mouse.selection, index);
        let width: usize = self.horizontal_width();
        let styled = self.doc.syntax.highlights.len() > 0 || self.doc.syntax.preview.len() > 0;
        if styled {
            let start: usize = self.doc.syntax.line_offset_of(index);
            write_highlighted_line_with_selection(
                &mut row,
                &self.doc.lines[index],
                start,
                full,
                preview,
                self.doc.syntax.preview_range,
                self.screen.left,
                width,
                self.options.tabstop,
                selected,
            );
        } else {
            write_plain_line_with_selection(
                &mut row,
                &self.doc.lines[index],
                self.screen.left,
                width,
                self.options.tabstop,
                selected,
            );
        }
        push_all(&mut row, &[27, 91, 75]);
        assert([27u8, 91, 75]@ =~= clear_row());
        row
    }

    /// The last row.
    fn build_status_row(&self, prompt: Option<&str>) -> (r: Vec<u8>)
        ensures
            r@ == self@.status_row(prompt_of(prompt)),
    {
        let room: usize = less_of(self.screen.cols, 1);
        let mut row: Vec<u8> = Vec::new();
        push_all(&mut row, &[27, 91, 75]);
        assert(row@ =~= clear_row());
        match prompt {
            Some(text) => {
                write_chars(&mut row, text, room);
            },
            None => {
                if !self.message.text.as_str().is_empty() {
                    if self.message.highlighted {
                        push_all(&mut row, &[27, 91, 55, 109]);
                        push_all(&mut row, &self.message.bytes);
                        push_all(&mut row, &[27, 91, 109]);
                        assert(row@ =~= clear_row() + (seq![27u8, 91, 55, 109]
                            + self.message.bytes@ + seq![27u8, 91, 109]));
                    } else {
                        push_all(&mut row, &self.message.bytes);
                    }
                } else {
                    let line = edit_status(
                        self.input.mode,
                        self.filename(),
                        self.files.readonly,
                        self.doc.modified,
                        self.doc.row,
                        self.doc.lines.len(),
                    );
                    write_chars(&mut row, line.as_str(), room);
                }
            },
        }
        row
    }

    /// All rows of a frame.
    fn build_frame(&self, prompt: Option<&str>, styles: GutterStyles) -> (r: Vec<Vec<u8>>)
        requires
            self@.wf(),
        ensures
            text_of(r@) == self@.frame(prompt_of(prompt), styles),
    {
        let body: usize = self.screen.body_rows();
        let mut full = HighlightCursor::new(&self.doc.syntax.highlights);
        let mut preview = HighlightCursor::new(&self.doc.syntax.preview);
        let mut frame: Vec<Vec<u8>> = Vec::new();
        let mut i: usize = 0;
        let ghost whole = self@.text_rows(0, styles, Cursors { full: 0, preview: 0 });
        assert(text_of(frame@) + whole =~= whole);
        while i < body
            invariant
                i <= body == self@.screen.body(),
                self@.wf(),
                full.spans@ == self@.doc.syntax.highlights,
                preview.spans@ == self@.doc.syntax.preview,
                text_of(frame@) + self@.text_rows(
                    i as int,
                    styles,
                    Cursors { full: full.index as int, preview: preview.index as int },
                ) == whole,
            decreases body - i,
        {
            let ghost before = frame@;
            let ghost cursors = Cursors {
                full: full.index as int,
                preview: preview.index as int,
            };
            let row = self.build_row(plus_of(self.screen.top, i), styles, &mut full, &mut preview);
            frame.push(row);
            i += 1;
            proof {
                let rest = self@.text_rows(
                    i as int,
                    styles,
                    Cursors { full: full.index as int, preview: preview.index as int },
                );
                assert(text_of(frame@) =~= text_of(before).push(row@));
                assert(text_of(frame@) + rest =~= text_of(before) + (seq![row@] + rest));
            }
        }
        assert(text_of(frame@) =~= whole);
        let ghost before = frame@;
        let status = self.build_status_row(prompt);
        frame.push(status);
        assert(text_of(frame@) =~= text_of(before).push(status@));
        frame
    }

    /// Where the terminal's cursor goes.
    fn place_cursor(&self, prompt: Option<&str>) -> (r: (u128, u128))
        requires
            self@.wf(),
        ensures
            (r.0 as int, r.1 as int) == self@.cursor_place(prompt_of(prompt)),
    {
        let room: usize = less_of(self.screen.cols, 1);
        match prompt {
            Some(text) => {
                let count: usize = chars_of(text).len();
                (self.screen.rows as u128, min_of(count, room) as u128 + 1)
            },
            None => {
                let body: usize = self.screen.body_rows();
                let line = &self.doc.lines[self.doc.row];
                let column: usize = line_display_width(line, self.doc.col, self.options.tabstop);
                let shown: usize = plus_of(
                    less_of(column, self.screen.left),
                    self.number_column_width(),
                );
                let row: usize = less_of(self.doc.row, self.screen.top);
                let place: usize = max_of(min_of(plus_of(row, 1), body), 1);
                (place as u128, min_of(shown, room) as u128 + 1)
            },
        }
    }

    /// Appends the bytes that bring the terminal from the last frame to this
    /// one, with the given styles for line numbers.
    pub fn paint(&mut self, out: &mut Vec<u8>, prompt: Option<&str>, styles: GutterStyles)
        requires
            old(self)@.wf(),
        ensures
            final(self)@.wf(),
            final(self)@.doc.origin == old(self)@.doc.origin,
            ({
                let frame = old(self)@.frame(prompt_of(prompt), styles);
                &&& final(out)@ == old(out)@ + old(self)@.painting(frame, prompt_of(prompt))
                &&& final(self)@ == old(self)@.painted(frame)
            }),
            final(self).doc == old(self).doc,
            unedited(old(self).doc, final(self).doc),
    {
        let ghost start = self@;
        let frame = self.build_frame(prompt, styles);
        let ghost rows = text_of(frame@);
        let full = self.screen.rendered_size.0 != self.screen.rows || self.screen.rendered_size.1
            != self.screen.cols || self.screen.rendered_rows.len() != frame.len();
        assert(full == start.repaints(rows));
        if full {
            push_all(out, &[27, 91, 50, 74, 27, 91, 72]);
        }
        let ghost opened = out@;
        assert(opened =~= old(out)@ + (if full {
            seq![27u8, 91, 50, 74, 27, 91, 72]
        } else {
            Seq::empty()
        }));
        let mut i: usize = 0;
        assert(out@ =~= opened + start.row_updates(rows, 0));
        while i < frame.len()
            invariant
                i <= frame@.len(),
                rows == text_of(frame@),
                self@ == start,
                self.doc == old(self).doc,
                full == start.repaints(rows),
                out@ == opened + start.row_updates(rows, i as int),
            decreases frame@.len() - i,
        {
            let ghost before = out@;
            if full || !same_bytes(&self.screen.rendered_rows[i], &frame[i]) {
                write_cursor_to(out, i as u128 + 1, 1);
                write_rendered_row(out, &frame[i], self.platform);
            }
            i += 1;
            assert(out@ =~= opened + start.row_updates(rows, i as int));
        }
        let (row, col) = self.place_cursor(prompt);
        push_all(out, &[27, 91, 63, 50, 53, 104]);
        write_cursor_to(out, row, col);
        assert(out@ =~= old(out)@ + start.painting(rows, prompt_of(prompt)));
        self.screen.rendered_size = (self.screen.rows, self.screen.cols);
        self.screen.rendered_rows = frame;
        assert(self@ =~= start.painted(rows));
    }

    /// The styles of line numbers that the highlighter asks for: none where
    /// there is no highlighter or where lines are not numbered.
    pub fn gutter_styles(&self) -> (r: GutterStyles)
        ensures
            styles_given(self.doc.syntax.highlighter, self@.options.number, r),
    {
        if self.options.number {
            match self.doc.syntax.highlighter.as_ref() {
                Some(highlighter) => {
                    let other = highlighter.line_number_style(false);
                    let current = highlighter.line_number_style(true);
                    GutterStyles { current, other }
                },
                None => GutterStyles { current: None, other: None },
            }
        } else {
            GutterStyles { current: None, other: None }
        }
    }

    /// The bytes of the document that are visible, where the highlighter is to
    /// be asked about them.
    pub fn visible_for_syntax(&self) -> (r: Option<(usize, usize)>)
        requires
            self@.wf(),
        ensures
            match r {
                Some((start, end)) => (self@.doc.syntax.dirty || self@.doc.syntax.pending) && (
                    start as int,
                    end as int,
                ) == self@.doc.visible_range(self@.screen.top, self@.screen.body()),
                None => !self@.doc.syntax.dirty && !self@.doc.syntax.pending,
            },
    {
        if self.doc.syntax.dirty || self.doc.syntax.pending {
            Some(self.doc.visible_byte_range(self.screen.top, self.screen.body_rows()))
        } else {
            None
        }
    }

    /// Paints a frame: the visible part follows the cursor, the highlighter is
    /// asked for what it has, and the bytes for the terminal are appended.
    ///
    /// The frame is the one of the editor whose syntax state is what
    /// `refreshed` gives for what the installed highlighter and the clock
    /// answered, with the styles for line numbers that the highlighter returned.
    pub fn render_to(&mut self, out: &mut Vec<u8>, prompt: Option<&str>)
        requires
            old(self)@.wf(),
        ensures
            final(self)@.wf(),
            final(self)@.doc.origin == old(self)@.doc.origin,
            exists|answers: Answers, visible: Option<(usize, usize)>, styles: GutterStyles|
                #[trigger] rendered(
                    old(self)@,
                    old(out)@,
                    prompt_of(prompt),
                    answers,
                    visible,
                    styles,
                    final(self)@,
                    final(out)@,
                ) && old(self)@.synced().doc.syntax.answered(
                    old(self).doc.syntax.highlighter,
                    final(self).doc.syntax.highlighter,
                    old(self).doc.syntax.edited_at,
                    old(self)@.doc.lines,
                    old(self)@.doc.trailing,
                    false,
                    visible,
                    (
                        old(self)@.synced().screen.top as usize,
                        old(self)@.synced().screen.body() as usize,
                    ),
                    answers,
                ) && styles_given(
                    final(self).doc.syntax.highlighter,
                    old(self)@.options.number,
                    styles,
                ),
    {
        let ghost start = self@;
        self.sync_screen();
        let ghost synced = self@;
        let ghost asked = self.doc.syntax.highlighter;
        let ghost edited_at = self.doc.syntax.edited_at;
        let visible = self.visible_for_syntax();
        let _ = self.refresh_syntax_highlighting(false, visible);
        let ghost ready = self@;
        let ghost ready_highlighter = self.doc.syntax.highlighter;
        let styles = self.gutter_styles();
        self.paint(out, prompt, styles);
        proof {
            let answers = choose|answers: Answers|
                {
                    let after = #[trigger] synced.doc.syntax.refreshed(
                        synced.doc.lines,
                        synced.doc.trailing,
                        false,
                        visible,
                        (synced.screen.top as usize, synced.screen.body() as usize),
                        answers,
                    );
                    &&& synced.doc.syntax.answered(
                        asked,
                        ready_highlighter,
                        edited_at,
                        synced.doc.lines,
                        synced.doc.trailing,
                        false,
                        visible,
                        (synced.screen.top as usize, synced.screen.body() as usize),
                        answers,
                    )
                    &&& ready == synced.with_doc((DocView { syntax: after.0, ..synced.doc }))
                };
            assert(rendered(
                start,
                old(out)@,
                prompt_of(prompt),
                answers,
                visible,
                styles,
                self@,
                out@,
            ));
        }
    }
}

/// Whether these are the styles for line numbers: what the highlighter returns
/// for the line of the cursor and for the other ones, and none where there is
/// no highlighter or where lines are not numbered.
pub open spec fn styles_given(
    highlighter: Option<Box<dyn SyntaxHighlighter>>,
    number: bool,
    styles: GutterStyles,
) -> bool {
    match highlighter {
        Some(asked) if number => may_style(&*asked, true, styles.current) && may_style(
            &*asked,
            false,
            styles.other,
        ),
        _ => styles.current is None && styles.other is None,
    }
}

/// The editor before a frame is painted: the visible part has followed the
/// cursor, and the highlighter and the clock have given these answers.
pub open spec fn ready_to_paint(
    start: EditorView,
    answers: Answers,
    visible: Option<(usize, usize)>,
) -> EditorView {
    let synced = start.synced();
    let after = synced.doc.syntax.refreshed(
        synced.doc.lines,
        synced.doc.trailing,
        false,
        visible,
        (synced.screen.top as usize, synced.screen.body() as usize),
        answers,
    );
    synced.with_doc((DocView { syntax: after.0, ..synced.doc }))
}

/// Whether rendering led from one editor and output to another, given what the
/// highlighter and the clock answered.
pub open spec fn rendered(
    start: EditorView,
    out: Seq<u8>,
    prompt: Option<Seq<char>>,
    answers: Answers,
    visible: Option<(usize, usize)>,
    styles: GutterStyles,
    end: EditorView,
    written: Seq<u8>,
) -> bool {
    let synced = start.synced();
    let ready = ready_to_paint(start, answers, visible);
    let frame = ready.frame(prompt, styles);
    &&& match visible {
        Some((from, to)) => (synced.doc.syntax.dirty || synced.doc.syntax.pending) && (
            from as int,
            to as int,
        ) == synced.doc.visible_range(synced.screen.top, synced.screen.body()),
        None => !synced.doc.syntax.dirty && !synced.doc.syntax.pending,
    }
    &&& written == out + ready.painting(frame, prompt)
    &&& end == ready.painted(frame)
}

} // verus!
