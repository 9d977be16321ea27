//! The part of the text that the terminal shows: following the cursor and
//! scrolling.
use crate::bytes::{fit, imax, imin, is_space, less, less_of, max_of, min_of, plus_of};
use crate::document::unedited;
use crate::editor::{Editor, EditorView};
use crate::screen::{display_column, line_display_width, ScreenView};
use vstd::prelude::*;

verus! {

broadcast use crate::syntax::group_noted;

/// The first byte from `col` on that is no space, or the end of the line.
pub open spec fn over_space(line: Seq<u8>, col: int) -> int
    decreases line.len() - col,
{
    if 0 <= col < line.len() && is_space(line[col]) {
        over_space(line, col + 1)
    } else {
        col
    }
}

/// The first visible line once `top` has followed the cursor on line `row`.
/// Over a short distance the text scrolls; over a long one the cursor is put
/// in the middle.
pub open spec fn followed_top(top: int, row: int, count: int, body: int) -> int {
    let last = count - 1;
    let half = body / 2;
    let first = imin(top, last);
    let end = imin(fit(first + body - 1), last);
    if row < first {
        if first - row > half {
            less(row, half)
        } else {
            row
        }
    } else if row > end {
        if row - end > half {
            less(row, half)
        } else {
            imin(fit(first + (row - end)), last)
        }
    } else {
        first
    }
}

/// The first visible column once `left` has followed the cursor at `cursor`.
pub open spec fn followed_left(left: int, cursor: int, width: int) -> int {
    let first = imin(left, cursor);
    if cursor >= fit(first + width) {
        cursor - width + 1
    } else {
        first
    }
}

impl EditorView {
    /// The visible part has followed the cursor. Where the mouse made a
    /// selection or scrolled, it stays and is only kept within the text.
    pub open spec fn synced(self) -> EditorView {
        let count = self.doc.lines.len() as int;
        if self.mouse.selection is Some || self.mouse.scrolled {
            EditorView {
                screen: ScreenView { top: imin(self.screen.top, count - 1), ..self.screen },
                ..self
            }
        } else {
            let line = self.doc.line();
            let cursor = display_column(line, self.doc.col, self.options.tabstop as int);
            EditorView {
                screen: ScreenView {
                    top: followed_top(self.screen.top, self.doc.row, count, self.screen.body()),
                    left: if self.doc.col == 0 && line.len() > 0 && line[0] == 9 {
                        0
                    } else {
                        followed_left(self.screen.left, cursor, self.text_width())
                    },
                    ..self.screen
                },
                ..self
            }
        }
    }

    /// The text scrolled by `count` lines; the cursor stays on the screen and
    /// goes to a byte that is no space.
    pub open spec fn scrolled(self, count: int, forward: bool) -> EditorView {
        let last = self.doc.lines.len() - 1;
        let top = if forward {
            imin(fit(self.screen.top + count), last)
        } else {
            less(self.screen.top, count)
        };
        let end = imin(fit(top + less(self.screen.body(), 1)), last);
        let row = imin(imax(self.doc.row, top), end);
        let col = if forward && row == last {
            less(self.doc.lines[row].len() as int, 1)
        } else {
            self.doc.col
        };
        EditorView {
            doc: self.doc.at(row, over_space(self.doc.lines[row], col)),
            screen: ScreenView { top, ..self.screen },
            ..self
        }
    }
}

impl Editor {
    /// Lets the visible part follow the cursor.
    pub fn sync_screen(&mut self)
        requires
            old(self)@.wf(),
        ensures
            final(self)@ == old(self)@.synced(),
            final(self)@.wf(),
            final(self)@.doc.origin == old(self)@.doc.origin,
            final(self)@.screen.top < final(self)@.doc.lines.len(),
            final(self).doc == old(self).doc,
            unedited(old(self).doc, final(self).doc),
    {
        let last: usize = self.doc.lines.len() - 1;
        let body: usize = self.screen.body_rows();
        let width: usize = self.horizontal_width();
        self.screen.top = min_of(self.screen.top, last);
        if self.mouse.selection.is_some() || self.mouse.viewport_scrolled {
            return;
        }
        let half: usize = body / 2;
        let row: usize = self.doc.row;
        let first: usize = self.screen.top;
        if row < first {
            self.screen.top = if first - row > half {
                less_of(row, half)
            } else {
                row
            };
        } else {
            let end: usize = min_of(plus_of(first, body - 1), last);
            if row > end {
                let distance: usize = row - end;
                self.screen.top = if distance > half {
                    less_of(row, half)
                } else {
                    min_of(plus_of(first, distance), last)
                };
            }
        }
        let line = &self.doc.lines[row];
        let cursor: usize = line_display_width(line, self.doc.col, self.options.tabstop);
        let left: usize = min_of(self.screen.left, cursor);
        self.screen.left = if self.doc.col == 0 && line.len() > 0 && line[0] == 9 {
            0
        } else if cursor >= plus_of(left, width) {
            cursor - width + 1
        } else {
            left
        };
    }

    /// Scrolls the text by `count` lines.
    pub fn scroll_screen(&mut self, count: usize, forward: bool)
        requires
            old(self)@.wf(),
        ensures
            final(self)@ == old(self)@.scrolled(count as int, forward),
            final(self)@.wf(),
            final(self)@.doc.origin == old(self)@.doc.origin,
            unedited(old(self).doc, final(self).doc),
    {
        let last: usize = self.doc.lines.len() - 1;
        let body: usize = self.screen.body_rows();
        if forward {
            self.screen.top = min_of(plus_of(self.screen.top, count), last);
        } else {
            self.screen.top = less_of(self.screen.top, count);
        }
        let end: usize = min_of(plus_of(self.screen.top, less_of(body, 1)), last);
        let row: usize = min_of(max_of(self.doc.row, self.screen.top), end);
        let line = &self.doc.lines[row];
        let mut col: usize = if forward && row == last {
            less_of(line.len(), 1)
        } else {
            self.doc.col
        };
        let ghost first = col;
        while col < line.len() && is_space(line[col])
            invariant
                over_space(line@, col as int) == over_space(line@, first as int),
            decreases line@.len() - col,
        {
            col += 1;
        }
        self.doc.row = row;
        self.doc.col = col;
    }
}

} // verus!
