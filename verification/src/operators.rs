//! The operators `d`, `y` and `c`, on lines and on parts of a line.
use crate::bytes::{copy_lines, copy_range, imax, imin, less_of, max_of, min_of, one_line};
use crate::document::{told_of_edits, unedited};
use crate::editor::{Editor, EditorView, Operator};
use crate::messages::{register_message, register_name, register_status, Mode};
use vstd::prelude::*;

verus! {

broadcast use crate::syntax::group_noted;

impl EditorView {
    /// Lines deleted and kept; the change goes on.
    pub open spec fn lines_deleted(self, start: int, end: int) -> EditorView {
        let last = imin(end, self.doc.lines.len() - 1);
        EditorView {
            doc: self.doc.lines_deleted(start, end),
            registers: if start <= last {
                self.registers.yanked(self.doc.lines.subrange(start, last + 1), true)
            } else {
                self.registers
            },
            ..self
        }
    }

    /// Text is typed from here on, in a change that has begun.
    pub open spec fn changing(self) -> EditorView {
        self.begun().in_mode(Mode::Insert)
    }

    /// An operator on whole lines.
    #[verifier::opaque]
    pub open spec fn operated_lines(
        self,
        op: Operator,
        start: int,
        end: int,
        register: Option<u8>,
    ) -> EditorView {
        match op {
            Operator::Yank => {
                let lines = self.doc.lines.subrange(start, end + 1);
                EditorView { registers: self.registers.yanked(lines, true), ..self }.told(
                    register_message("Yank"@, lines, true, register_name(register)),
                )
            },
            _ => {
                let cut = self.lines_deleted(start, end);
                let done = cut.told(
                    register_message(
                        "Delete"@,
                        cut.registers.yank.lines,
                        true,
                        register_name(register),
                    ),
                ).ended();
                if op == Operator::Change {
                    done.changing()
                } else {
                    done
                }
            },
        }
    }

    /// An operator on the bytes of the line from `first` to `last`.
    pub open spec fn operated_bytes(
        self,
        op: Operator,
        first: int,
        last: int,
        register: Option<u8>,
    ) -> EditorView {
        let row = self.doc.row;
        let length = self.doc.line().len() as int;
        let end = imin(last, length - 1) + 1;
        let bytes = self.doc.line().subrange(first, end);
        let kept = EditorView {
            registers: self.registers.yanked(seq![bytes], false),
            ..self
        };
        if op == Operator::Yank {
            if first < length {
                kept.told(
                    register_message("Yank"@, seq![bytes], false, register_name(register)),
                )
            } else {
                self
            }
        } else {
            let cut = if first < length {
                kept.with_doc(
                    self.doc.begun().bytes_replaced(row, first, end, Seq::empty()),
                ).told(register_message("Delete"@, seq![bytes], false, register_name(register)))
            } else {
                self.begun()
            };
            let done = cut.at(row, imin(first, cut.doc.last_col(row))).ended();
            if op == Operator::Change {
                done.changing()
            } else {
                done
            }
        }
    }

    /// An operator from the cursor to the place that a motion leads to: on
    /// whole lines where that is on another line.
    pub open spec fn operated(
        self,
        op: Operator,
        row: int,
        col: int,
        register: Option<u8>,
    ) -> EditorView {
        let done = if row != self.doc.row {
            self.operated_lines(op, imin(self.doc.row, row), imax(self.doc.row, row), register)
        } else {
            self.operated_bytes(op, imin(self.doc.col, col), imax(self.doc.col, col), register)
        };
        EditorView { registers: done.registers.saved(register), ..done }
    }

    /// An operator on `count` lines from the cursor on.
    pub open spec fn operated_count(
        self,
        op: Operator,
        count: int,
        register: Option<u8>,
    ) -> EditorView {
        let end = imin(self.doc.row + count - 1, self.doc.lines.len() - 1);
        let done = self.operated_lines(op, self.doc.row, end, register);
        EditorView { registers: done.registers.saved(register), ..done }
    }
}

impl Editor {
    /// Deletes and keeps lines; the change goes on.
    pub fn delete_lines(&mut self, start: usize, end: usize)
        requires
            old(self)@.wf(),
        ensures
            final(self)@ == old(self)@.lines_deleted(start as int, end as int),
            final(self)@.wf(),
            final(self)@.doc.origin == old(self)@.doc.origin,
            told_of_edits(old(self).doc, final(self).doc),
    {
        let last: usize = min_of(end, self.doc.lines.len() - 1);
        if start <= last {
            let lines = copy_lines(&self.doc.lines, start, last + 1);
            self.registers.set_yank(lines, true);
        }
        self.doc.delete_lines(start, end);
    }

    fn start_changing(&mut self)
        requires
            old(self)@.wf(),
        ensures
            final(self)@ == old(self)@.changing(),
            final(self)@.wf(),
            final(self)@.doc.origin == old(self)@.doc.origin,
            unedited(old(self).doc, final(self).doc),
    {
        self.doc.begin_change();
        self.input.mode = Mode::Insert;
    }

    /// An operator on whole lines.
    pub fn apply_operator(&mut self, op: Operator, start: usize, end: usize, register: Option<u8>)
        requires
            old(self)@.wf(),
            start <= end < old(self)@.doc.lines.len(),
        ensures
            final(self)@ == old(self)@.operated_lines(op, start as int, end as int, register),
            final(self)@.wf(),
            final(self)@.doc.origin == old(self)@.doc.origin,
            told_of_edits(old(self).doc, final(self).doc),
    {
        reveal(EditorView::operated_lines);
        if op == Operator::Yank {
            let lines = copy_lines(&self.doc.lines, start, end + 1);
            let message = register_status("Yank", &lines, true, register_name(register));
            self.registers.set_yank(lines, true);
            self.set_status(message);
        } else {
            self.delete_lines(start, end);
            let message = register_status(
                "Delete",
                &self.registers.yank,
                true,
                register_name(register),
            );
            self.set_status(message);
            self.doc.end_change();
            if op == Operator::Change {
                self.start_changing();
            }
        }
    }

    fn operate_bytes(&mut self, op: Operator, first: usize, last: usize, register: Option<u8>)
        requires
            old(self)@.wf(),
            first <= last,
        ensures
            final(self)@ == old(self)@.operated_bytes(op, first as int, last as int, register),
            final(self)@.wf(),
            final(self)@.doc.origin == old(self)@.doc.origin,
            told_of_edits(old(self).doc, final(self).doc),
    {
        let row: usize = self.doc.row;
        let length: usize = self.doc.lines[row].len();
        if op == Operator::Yank {
            if first < length {
                let end: usize = min_of(last, length - 1) + 1;
                let lines = one_line(copy_range(&self.doc.lines[row], first, end));
                let message = register_status("Yank", &lines, false, register_name(register));
                self.registers.set_yank(lines, false);
                self.set_status(message);
            }
            return;
        }
        self.doc.begin_change();
        if first < length {
            let end: usize = min_of(last, length - 1) + 1;
            let removed = self.doc.replace_bytes(row, first, end, Vec::new());
            let lines = one_line(removed);
            let message = register_status("Delete", &lines, false, register_name(register));
            self.registers.set_yank(lines, false);
            self.set_status(message);
        }
        self.doc.col = min_of(first, less_of(self.doc.lines[row].len(), 1));
        self.doc.end_change();
        if op == Operator::Change {
            self.start_changing();
        }
    }

    /// An operator from the cursor to the place that a motion leads to.
    pub fn apply_char_operator(
        &mut self,
        op: Operator,
        row: usize,
        col: usize,
        register: Option<u8>,
    )
        requires
            old(self)@.wf(),
            row < old(self)@.doc.lines.len(),
        ensures
            final(self)@ == old(self)@.operated(op, row as int, col as int, register),
            final(self)@.wf(),
            final(self)@.doc.origin == old(self)@.doc.origin,
            told_of_edits(old(self).doc, final(self).doc),
    {
        if row != self.doc.row {
            let first: usize = min_of(self.doc.row, row);
            let last: usize = max_of(self.doc.row, row);
            self.apply_operator(op, first, last, register);
        } else {
            let first: usize = min_of(self.doc.col, col);
            let last: usize = max_of(self.doc.col, col);
            self.operate_bytes(op, first, last, register);
        }
        self.registers.save_register(register);
    }

    /// An operator on `count` lines from the cursor on.
    pub fn apply_line_operator(&mut self, op: Operator, count: usize, register: Option<u8>)
        requires
            old(self)@.wf(),
            count >= 1,
        ensures
            final(self)@ == old(self)@.operated_count(op, count as int, register),
            final(self)@.wf(),
            final(self)@.doc.origin == old(self)@.doc.origin,
            told_of_edits(old(self).doc, final(self).doc),
    {
        let row: usize = self.doc.row;
        let last: usize = self.doc.lines.len() - 1;
        let end: usize = if count - 1 > last - row {
            last
        } else {
            row + (count - 1)
        };
        self.apply_operator(op, row, end, register);
        self.registers.save_register(register);
    }
}

} // verus!
