//! The commands that change the text at the cursor.
use crate::bytes::{
    copy_bytes, copy_lines, fit, imin, is_lower, is_upper, less, less_of, min_of, one_line,
    plus_of, push_all, repeat_byte, text_of, to_lower, to_upper,
};
use crate::document::{told_of_edits, unedited, DocView, Document};
use crate::editor::{Editor, EditorView, InputView};
use crate::messages::{
    register_message, register_name, register_status, undo_message, undo_status, Mode,
};
use crate::motion::{first_nonblank, first_nonblank_of};
use crate::strings::copy_str;
use vstd::prelude::*;
use vstd::string::*;

verus! {

broadcast use crate::syntax::group_noted;

/// A letter in the other case; any other byte as it is.
#[verifier::allow_in_spec]
pub fn other_case(byte: u8) -> u8
    returns
        if is_lower(byte) {
            to_upper(byte)
        } else if is_upper(byte) {
            to_lower(byte)
        } else {
            byte
        },
{
    if is_lower(byte) {
        to_upper(byte)
    } else if is_upper(byte) {
        to_lower(byte)
    } else {
        byte
    }
}

/// How many spaces a line begins with.
pub open spec fn leading_spaces(line: Seq<u8>, at: int) -> int
    decreases line.len() - at,
{
    if 0 <= at < line.len() && line[at] == 32 {
        leading_spaces(line, at + 1)
    } else {
        at
    }
}

/// A line shifted to the right by a tab, or to the left by a tab or by as many
/// spaces as a tab stop takes.
pub open spec fn shifted_line(line: Seq<u8>, right: bool, tabstop: int) -> Seq<u8> {
    if right {
        seq![9u8] + line
    } else if line.len() > 0 && line[0] == 9 {
        line.subrange(1, line.len() as int)
    } else {
        line.subrange(imin(leading_spaces(line, 0), tabstop), line.len() as int)
    }
}

impl DocView {
    /// The bytes from the cursor on, at most `count` of them, deleted as part
    /// of the change that is going on.
    pub open spec fn cut(self, count: int) -> DocView {
        let length = self.line().len() as int;
        self.bytes_replaced(
            self.row,
            imin(self.col, length),
            imin(fit(self.col + count), length),
            Seq::empty(),
        )
    }

    /// The bytes that `cut` deletes.
    pub open spec fn cut_text(self, count: int) -> Seq<u8> {
        let length = self.line().len() as int;
        self.line().subrange(imin(self.col, length), imin(fit(self.col + count), length))
    }

    /// The byte under the cursor, and the next ones, in the other case.
    pub open spec fn case_switched(self, count: int) -> DocView
        decreases count,
    {
        if count <= 0 || self.col >= self.line().len() {
            self
        } else {
            let byte = self.line()[self.col];
            let switched = self.bytes_replaced(
                self.row,
                self.col,
                self.col + 1,
                seq![other_case(byte)],
            );
            DocView {
                col: imin(self.col + 1, less(self.line().len() as int, 1)),
                ..switched
            }.case_switched(count - 1)
        }
    }

    /// The lines from `row` up to `end` shifted.
    pub open spec fn rows_shifted(self, row: int, end: int, right: bool, tabstop: int) -> DocView
        decreases end - row,
    {
        if row >= end {
            self
        } else {
            self.bytes_replaced(
                row,
                0,
                self.lines[row].len() as int,
                shifted_line(self.lines[row], right, tabstop),
            ).rows_shifted(row + 1, end, right, tabstop)
        }
    }

    /// The line joined with the next one, with a space between them.
    pub open spec fn joined(self) -> DocView {
        if self.row + 1 < self.lines.len() {
            let line = self.line();
            self.lines_replaced(
                self.row,
                self.row + 2,
                seq![
                    line + (if line.len() > 0 {
                        seq![32u8]
                    } else {
                        Seq::empty()
                    }) + self.lines[self.row + 1],
                ],
            )
        } else {
            self
        }
    }

    /// The byte under the cursor deleted, as part of the change that is going
    /// on.
    pub open spec fn byte_deleted(self) -> DocView {
        if self.col < self.line().len() {
            self.bytes_replaced(self.row, self.col, self.col + 1, Seq::empty())
        } else {
            self
        }
    }

    /// The byte before the cursor deleted, and the cursor moved there.
    pub open spec fn back_deleted(self) -> DocView {
        let col = imin(self.col, self.line().len() as int);
        if col > 0 {
            DocView { col: col - 1, ..self.bytes_replaced(self.row, col - 1, col, Seq::empty()) }
        } else {
            DocView { col: 0, ..self }
        }
    }
}

impl EditorView {
    /// Text is typed from here on: the change begins with this key.
    pub open spec fn inserting(self, key: u8) -> EditorView {
        EditorView {
            input: (InputView { mode: Mode::Insert, ..self.input }).change_started(key),
            ..self
        }
    }

    /// Bytes that were deleted go to a register, unless there are none.
    pub open spec fn kept(self, removed: Seq<u8>, register: Option<u8>) -> EditorView {
        if removed.len() > 0 {
            EditorView {
                registers: self.registers.yanked(seq![removed], false).saved(register),
                ..self
            }
        } else {
            self
        }
    }

    /// At most `count` bytes deleted and kept; the change goes on.
    pub open spec fn cut_kept(self, count: int, register: Option<u8>) -> EditorView {
        let begun = self.doc.begun();
        self.with_doc(begun.cut(count)).kept(begun.cut_text(count), register)
    }

    /// The column kept within the line.
    pub open spec fn col_kept(self) -> EditorView {
        self.at_row(self.doc.row)
    }

    /// `a`: text is typed behind the cursor.
    pub open spec fn appending(self) -> EditorView {
        self.at(self.doc.row, imin(self.doc.col + 1, self.doc.line().len() as int)).inserting(97)
    }

    /// `A`: text is typed at the end of the line.
    pub open spec fn appending_line(self) -> EditorView {
        self.at(self.doc.row, self.doc.line().len() as int).inserting(65)
    }

    /// `I`: text is typed before the first byte that is no space.
    pub open spec fn inserting_line(self) -> EditorView {
        self.at(self.doc.row, first_nonblank(self.doc.line())).inserting(73)
    }

    /// `R`: text is typed over what is there.
    pub open spec fn replacing(self) -> EditorView {
        EditorView {
            input: (InputView { mode: Mode::Replace, ..self.input }).change_started(82),
            ..self
        }
    }

    /// `S`: the line is emptied and kept, and text is typed.
    pub open spec fn line_changed(self, register: Option<u8>) -> EditorView {
        let begun = self.doc.begun();
        EditorView {
            doc: DocView {
                col: 0,
                ..begun.bytes_replaced(begun.row, 0, begun.line().len() as int, Seq::empty())
            },
            registers: self.registers.yanked(seq![begun.line()], true).saved(register),
            ..self
        }.inserting(83)
    }

    /// `o` and `O`: text is typed in a new line.
    pub open spec fn line_opened(self, below: bool) -> EditorView {
        let at = if below {
            self.doc.row + 1
        } else {
            self.doc.row
        };
        self.with_doc(
            self.doc.begun().lines_replaced(at, at, seq![Seq::empty()]).at(at, 0),
        ).inserting(
            if below {
                111
            } else {
                79
            },
        )
    }

    /// `r`: bytes replaced by a key, unless that is no character.
    pub open spec fn bytes_overwritten(self, key: u8, count: int) -> EditorView {
        if 32 <= key < 127 {
            let begun = self.doc.begun();
            let end = imin(fit(self.doc.col + count), self.doc.line().len() as int);
            self.with_doc(
                (if self.doc.col < end {
                    begun.bytes_replaced(
                        self.doc.row,
                        self.doc.col,
                        end,
                        Seq::new((end - self.doc.col) as nat, |i: int| key),
                    ).at(self.doc.row, less(end, 1))
                } else {
                    begun.at(self.doc.row, less(self.doc.col, 1))
                }).ended(),
            )
        } else {
            self
        }
    }

    /// `X`: the byte before the cursor deleted.
    pub open spec fn deleted_before(self) -> EditorView {
        if self.doc.col > 0 {
            self.with_doc(self.doc.begun().back_deleted().ended())
        } else {
            self.with_doc(self.doc.begun().ended())
        }
    }

    /// `Y`: the line yanked.
    pub open spec fn line_yanked(self, register: Option<u8>) -> EditorView {
        let lines = seq![self.doc.line()];
        EditorView { registers: self.registers.yanked(lines, true).saved(register), ..self }.told(
            register_message("Yank"@, lines, true, register_name(register)),
        )
    }

    /// `p` and `P`: what was yanked put behind or before the cursor.
    pub open spec fn put(self, after: bool, register: Option<u8>) -> EditorView {
        let yank = self.registers.yank;
        if yank.lines.len() == 0 {
            self.failed("Nothing in register "@ + seq![register_name(register)])
        } else {
            let begun = self.doc.begun();
            let row = self.doc.row;
            let doc = if yank.linewise {
                let at = if after {
                    row + 1
                } else {
                    row
                };
                let more = begun.lines_replaced(at, at, yank.lines);
                more.at(imin(at, more.lines.len() - 1), 0)
            } else {
                let col = imin(
                    if after {
                        self.doc.col + 1
                    } else {
                        self.doc.col
                    },
                    self.doc.line().len() as int,
                );
                let more = begun.bytes_replaced(row, col, col, yank.lines[0]);
                more.at(row, imin(col, more.last_col(row)))
            };
            self.with_doc(doc).told(
                register_message("Put"@, yank.lines, yank.linewise, register_name(register)),
            )
        }
    }

    /// `u`: the latest change taken back.
    pub open spec fn undone(self) -> EditorView {
        if self.doc.undo.len() > 0 {
            let back = self.doc.undone();
            self.with_doc(back).told(
                undo_message(self.doc.undo.last().edits, back.lines, back.undo.len() as int),
            )
        } else {
            self.told("Already at oldest change"@)
        }
    }

    /// Control-R: the change that was taken back last, made again.
    pub open spec fn redone(self) -> EditorView {
        if self.doc.redo.len() > 0 {
            self.with_doc(self.doc.redone()).told("1 change redone"@)
        } else {
            self.told("Already at newest change"@)
        }
    }

    /// `U`: the latest change taken back, with a message about the line.
    pub open spec fn undone_line(self) -> EditorView {
        if self.doc.undo.len() > 0 {
            let back = self.doc.undone();
            self.with_doc(back).told(
                register_message("Undo"@, seq![back.line()], true, 'U'),
            )
        } else {
            self
        }
    }
}

fn count_spaces(line: &[u8]) -> (r: usize)
    ensures
        r == leading_spaces(line@, 0),
        r <= line@.len(),
{
    let mut i: usize = 0;
    while i < line.len() && line[i] == 32
        invariant
            i <= line@.len(),
            leading_spaces(line@, i as int) == leading_spaces(line@, 0),
        decreases line@.len() - i,
    {
        i += 1;
    }
    i
}

/// A line shifted to the right or to the left.
pub fn shift_line(line: &[u8], right: bool, tabstop: usize) -> (r: Vec<u8>)
    ensures
        r@ == shifted_line(line@, right, tabstop as int),
{
    if right {
        let mut r: Vec<u8> = Vec::new();
        r.push(9);
        push_all(&mut r, line);
        assert(r@ =~= shifted_line(line@, right, tabstop as int));
        r
    } else if line.len() > 0 && line[0] == 9 {
        crate::bytes::copy_range(line, 1, line.len())
    } else {
        crate::bytes::copy_range(line, min_of(count_spaces(line), tabstop), line.len())
    }
}

impl Document {
    /// Deletes at most `count` bytes from the cursor on and returns them.
    pub fn cut(&mut self, count: usize) -> (r: Vec<u8>)
        requires
            old(self)@.wf(),
            old(self)@.pending is Some,
        ensures
            final(self)@ == old(self)@.cut(count as int),
            final(self)@.wf(),
            final(self)@.origin == old(self)@.origin,
            r@ == old(self)@.cut_text(count as int),
            told_of_edits(*old(self), *final(self)),
    {
        let row: usize = self.row;
        let length: usize = self.lines[row].len();
        self.replace_bytes(
            row,
            min_of(self.col, length),
            min_of(plus_of(self.col, count), length),
            Vec::new(),
        )
    }

    /// Switches the case of at most `count` bytes.
    pub fn switch_case(&mut self, count: usize)
        requires
            old(self)@.wf(),
            old(self)@.pending is Some,
        ensures
            final(self)@ == old(self)@.case_switched(count as int),
            final(self)@.wf(),
            final(self)@.origin == old(self)@.origin,
            told_of_edits(*old(self), *final(self)),
    {
        let ghost start = self@;
        let row: usize = self.row;
        let mut left: usize = count;
        while left > 0 && self.col < self.lines[row].len()
            invariant
                self@.wf(),
                self@.origin == old(self)@.origin,
                self@.pending is Some,
                row == self@.row,
                told_of_edits(*old(self), *self),
                self@.case_switched(left as int) == start.case_switched(count as int),
            decreases left,
        {
            let col: usize = self.col;
            let length: usize = self.lines[row].len();
            let mut byte: Vec<u8> = Vec::new();
            byte.push(other_case(self.lines[row][col]));
            assert(byte@ =~= seq![other_case(self@.line()[col as int])]);
            let ghost before = self@;
            let _ = self.replace_bytes(row, col, col + 1, byte);
            self.col = min_of(col + 1, less_of(length, 1));
            left -= 1;
            assert(self@ =~= (DocView {
                col: imin(before.col + 1, less(before.line().len() as int, 1)),
                ..before.bytes_replaced(
                    before.row,
                    before.col,
                    before.col + 1,
                    seq![other_case(before.line()[before.col])],
                )
            }));
        }
    }

    /// Shifts the lines from `first` up to `end`.
    pub fn shift_rows(&mut self, first: usize, end: usize, right: bool, tabstop: usize)
        requires
            old(self)@.wf(),
            old(self)@.pending is Some,
            end <= old(self)@.lines.len(),
        ensures
            final(self)@ == old(self)@.rows_shifted(first as int, end as int, right, tabstop as int),
            final(self)@.wf(),
            final(self)@.origin == old(self)@.origin,
            told_of_edits(*old(self), *final(self)),
    {
        let ghost start = self@;
        let mut row: usize = first;
        while row < end
            invariant
                self@.wf(),
                self@.origin == old(self)@.origin,
                self@.pending is Some,
                end <= self@.lines.len(),
                told_of_edits(*old(self), *self),
                self@.rows_shifted(row as int, end as int, right, tabstop as int)
                    == start.rows_shifted(first as int, end as int, right, tabstop as int),
            decreases end - row,
        {
            let line = shift_line(&self.lines[row], right, tabstop);
            let length: usize = self.lines[row].len();
            let _ = self.replace_bytes(row, 0, length, line);
            row += 1;
        }
    }

    /// Joins the line with the next one.
    pub fn join_next(&mut self)
        requires
            old(self)@.wf(),
            old(self)@.pending is Some,
        ensures
            final(self)@ == old(self)@.joined(),
            final(self)@.wf(),
            final(self)@.origin == old(self)@.origin,
            told_of_edits(*old(self), *final(self)),
    {
        let row: usize = self.row;
        if self.lines.len() - row > 1 {
            let mut joined = copy_bytes(&self.lines[row]);
            if joined.len() > 0 {
                joined.push(32);
            }
            push_all(&mut joined, &self.lines[row + 1]);
            let ghost line = self@.line();
            assert(joined@ =~= line + (if line.len() > 0 {
                seq![32u8]
            } else {
                Seq::empty()
            }) + self@.lines[row + 1]);
            self.replace_lines(row, row + 2, one_line(joined));
        }
    }

    /// Deletes the byte under the cursor.
    pub fn delete_byte(&mut self)
        requires
            old(self)@.wf(),
            old(self)@.pending is Some,
        ensures
            final(self)@ == old(self)@.byte_deleted(),
            final(self)@.wf(),
            final(self)@.origin == old(self)@.origin,
            told_of_edits(*old(self), *final(self)),
    {
        let row: usize = self.row;
        let col: usize = self.col;
        if col < self.lines[row].len() {
            let _ = self.replace_bytes(row, col, col + 1, Vec::new());
        }
    }

    /// Deletes the byte before the cursor.
    pub fn delete_back(&mut self)
        requires
            old(self)@.wf(),
            old(self)@.pending is Some,
        ensures
            final(self)@ == old(self)@.back_deleted(),
            final(self)@.wf(),
            final(self)@.origin == old(self)@.origin,
            told_of_edits(*old(self), *final(self)),
    {
        let row: usize = self.row;
        let col: usize = min_of(self.col, self.lines[row].len());
        if col > 0 {
            let _ = self.replace_bytes(row, col - 1, col, Vec::new());
            self.col = col - 1;
        } else {
            self.col = 0;
        }
    }
}

impl Editor {
    fn start_insert(&mut self, key: u8)
        ensures
            final(self)@ == old(self)@.inserting(key),
            unedited(old(self).doc, final(self).doc),
    {
        self.input.mode = Mode::Insert;
        self.input.start_change(key);
    }

    fn keep(&mut self, removed: Vec<u8>, register: Option<u8>)
        ensures
            final(self)@ == old(self)@.kept(removed@, register),
            unedited(old(self).doc, final(self).doc),
    {
        if removed.len() > 0 {
            self.registers.set_yank(one_line(removed), false);
            self.registers.save_register(register);
        }
    }

    fn cut_and_keep(&mut self, count: usize, register: Option<u8>)
        requires
            old(self)@.wf(),
        ensures
            final(self)@ == old(self)@.cut_kept(count as int, register),
            final(self)@.wf(),
            final(self)@.doc.origin == old(self)@.doc.origin,
            told_of_edits(old(self).doc, final(self).doc),
    {
        self.doc.begin_change();
        let removed = self.doc.cut(count);
        self.keep(removed, register);
    }

    fn keep_col(&mut self)
        requires
            old(self)@.wf(),
        ensures
            final(self)@ == old(self)@.col_kept(),
            final(self)@.wf(),
            final(self)@.doc.origin == old(self)@.doc.origin,
            unedited(old(self).doc, final(self).doc),
    {
        let row: usize = self.doc.row;
        self.doc.move_to_row(row);
    }

    /// `i`: text is typed at the cursor.
    pub fn insert_here(&mut self)
        ensures
            final(self)@ == old(self)@.inserting(105),
            unedited(old(self).doc, final(self).doc),
    {
        self.start_insert(105);
    }

    /// `a`: text is typed behind the cursor.
    pub fn append_here(&mut self)
        requires
            old(self)@.wf(),
        ensures
            final(self)@ == old(self)@.appending(),
            final(self)@.wf(),
            final(self)@.doc.origin == old(self)@.doc.origin,
            unedited(old(self).doc, final(self).doc),
    {
        let length: usize = self.doc.lines[self.doc.row].len();
        self.doc.col = if self.doc.col < length {
            self.doc.col + 1
        } else {
            length
        };
        self.start_insert(97);
    }

    /// `A`: text is typed at the end of the line.
    pub fn append_line(&mut self)
        requires
            old(self)@.wf(),
        ensures
            final(self)@ == old(self)@.appending_line(),
            final(self)@.wf(),
            final(self)@.doc.origin == old(self)@.doc.origin,
            unedited(old(self).doc, final(self).doc),
    {
        self.doc.col = self.doc.lines[self.doc.row].len();
        self.start_insert(65);
    }

    /// `I`: text is typed before the first byte that is no space.
    pub fn insert_line(&mut self)
        requires
            old(self)@.wf(),
        ensures
            final(self)@ == old(self)@.inserting_line(),
            final(self)@.wf(),
            final(self)@.doc.origin == old(self)@.doc.origin,
            unedited(old(self).doc, final(self).doc),
    {
        self.doc.col = first_nonblank_of(&self.doc.lines[self.doc.row]);
        self.start_insert(73);
    }

    /// `R`: text is typed over what is there.
    pub fn replace_here(&mut self)
        ensures
            final(self)@ == old(self)@.replacing(),
            unedited(old(self).doc, final(self).doc),
    {
        self.input.mode = Mode::Replace;
        self.input.start_change(82);
    }

    /// `C`: the rest of the line is deleted and kept, and text is typed.
    pub fn change_rest(&mut self, register: Option<u8>)
        requires
            old(self)@.wf(),
        ensures
            final(self)@ == old(self)@.cut_kept(usize::MAX as int, register).inserting(67),
            final(self)@.wf(),
            final(self)@.doc.origin == old(self)@.doc.origin,
            told_of_edits(old(self).doc, final(self).doc),
    {
        self.cut_and_keep(usize::MAX, register);
        self.start_insert(67);
    }

    /// `s`: bytes are deleted and kept, and text is typed.
    pub fn substitute_bytes(&mut self, count: usize, register: Option<u8>)
        requires
            old(self)@.wf(),
        ensures
            final(self)@ == old(self)@.cut_kept(count as int, register).inserting(115),
            final(self)@.wf(),
            final(self)@.doc.origin == old(self)@.doc.origin,
            told_of_edits(old(self).doc, final(self).doc),
    {
        self.cut_and_keep(count, register);
        self.start_insert(115);
    }

    /// `x`: bytes are deleted and kept.
    pub fn delete_bytes(&mut self, count: usize, register: Option<u8>)
        requires
            old(self)@.wf(),
        ensures
            final(self)@ == old(self)@.cut_kept(count as int, register).col_kept().ended(),
            final(self)@.wf(),
            final(self)@.doc.origin == old(self)@.doc.origin,
            told_of_edits(old(self).doc, final(self).doc),
    {
        self.cut_and_keep(count, register);
        self.keep_col();
        self.doc.end_change();
    }

    /// `S`: the line is emptied and kept, and text is typed.
    pub fn change_line(&mut self, register: Option<u8>)
        requires
            old(self)@.wf(),
        ensures
            final(self)@ == old(self)@.line_changed(register),
            final(self)@.wf(),
            final(self)@.doc.origin == old(self)@.doc.origin,
            told_of_edits(old(self).doc, final(self).doc),
    {
        let ghost start = self@;
        self.doc.begin_change();
        let row: usize = self.doc.row;
        let length: usize = self.doc.lines[row].len();
        let removed = self.doc.replace_bytes(row, 0, length, Vec::new());
        assert(removed@ =~= start.doc.begun().line());
        self.registers.set_yank(one_line(removed), true);
        self.registers.save_register(register);
        self.doc.col = 0;
        self.start_insert(83);
    }

    /// `o` and `O`: text is typed in a new line.
    pub fn open_line(&mut self, below: bool)
        requires
            old(self)@.wf(),
        ensures
            final(self)@ == old(self)@.line_opened(below),
            final(self)@.wf(),
            final(self)@.doc.origin == old(self)@.doc.origin,
            told_of_edits(old(self).doc, final(self).doc),
    {
        self.doc.begin_change();
        let at: usize = if below {
            self.doc.row + 1
        } else {
            self.doc.row
        };
        let ghost before = self.doc@;
        self.doc.replace_lines(at, at, one_line(Vec::new()));
        assert(before.lines.subrange(at as int, at as int) != seq![Seq::<u8>::empty()]) by {
            assert(before.lines.subrange(at as int, at as int).len() == 0);
        }
        self.doc.row = at;
        self.doc.col = 0;
        self.start_insert(
            if below {
                111
            } else {
                79
            },
        );
    }

    /// `r`: bytes are replaced by a key.
    pub fn overwrite_bytes(&mut self, key: u8, count: usize)
        requires
            old(self)@.wf(),
        ensures
            final(self)@ == old(self)@.bytes_overwritten(key, count as int),
            final(self)@.wf(),
            final(self)@.doc.origin == old(self)@.doc.origin,
            told_of_edits(old(self).doc, final(self).doc),
    {
        if 32 <= key && key < 127 {
            self.doc.begin_change();
            let row: usize = self.doc.row;
            let col: usize = self.doc.col;
            let end: usize = min_of(plus_of(col, count), self.doc.lines[row].len());
            if col < end {
                let _ = self.doc.replace_bytes(row, col, end, repeat_byte(key, end - col));
                self.doc.col = less_of(end, 1);
            } else {
                self.doc.col = less_of(col, 1);
            }
            self.doc.end_change();
        }
    }

    /// `X`: the byte before the cursor is deleted.
    pub fn delete_before(&mut self)
        requires
            old(self)@.wf(),
        ensures
            final(self)@ == old(self)@.deleted_before(),
            final(self)@.wf(),
            final(self)@.doc.origin == old(self)@.doc.origin,
            told_of_edits(old(self).doc, final(self).doc),
    {
        self.doc.begin_change();
        if self.doc.col > 0 {
            self.doc.delete_back();
        }
        self.doc.end_change();
    }

    /// `J`: the line is joined with the next one.
    pub fn join_lines(&mut self)
        requires
            old(self)@.wf(),
        ensures
            final(self)@ == old(self)@.with_doc(old(self)@.doc.begun().joined().ended()),
            final(self)@.wf(),
            final(self)@.doc.origin == old(self)@.doc.origin,
            told_of_edits(old(self).doc, final(self).doc),
    {
        self.doc.begin_change();
        self.doc.join_next();
        self.doc.end_change();
    }

    /// `~`: bytes get the other case.
    pub fn switch_case(&mut self, count: usize)
        requires
            old(self)@.wf(),
        ensures
            final(self)@ == old(self)@.with_doc(
                old(self)@.doc.begun().case_switched(count as int).ended(),
            ),
            final(self)@.wf(),
            final(self)@.doc.origin == old(self)@.doc.origin,
            told_of_edits(old(self).doc, final(self).doc),
    {
        self.doc.begin_change();
        self.doc.switch_case(count);
        self.doc.end_change();
    }

    /// `>>` and `<<`: lines are shifted.
    pub fn shift_lines(&mut self, count: usize, right: bool)
        requires
            old(self)@.wf(),
        ensures
            final(self)@ == old(self)@.with_doc(
                old(self)@.doc.begun().rows_shifted(
                    old(self)@.doc.row,
                    imin(fit(old(self)@.doc.row + count), old(self)@.doc.lines.len() as int),
                    right,
                    old(self)@.options.tabstop as int,
                ).ended(),
            ),
            final(self)@.wf(),
            final(self)@.doc.origin == old(self)@.doc.origin,
            told_of_edits(old(self).doc, final(self).doc),
    {
        self.doc.begin_change();
        let row: usize = self.doc.row;
        let end: usize = min_of(plus_of(row, count), self.doc.lines.len());
        self.doc.shift_rows(row, end, right, self.options.tabstop);
        self.doc.end_change();
    }

    /// The delete key: the byte under the cursor is deleted.
    pub fn delete_here(&mut self)
        requires
            old(self)@.wf(),
        ensures
            final(self)@ == old(self)@.with_doc(old(self)@.doc.begun().byte_deleted().ended()),
            final(self)@.wf(),
            final(self)@.doc.origin == old(self)@.doc.origin,
            told_of_edits(old(self).doc, final(self).doc),
    {
        self.doc.begin_change();
        self.doc.delete_byte();
        self.doc.end_change();
    }

    /// `Y`: the line is yanked.
    pub fn yank_line(&mut self, register: Option<u8>)
        requires
            old(self)@.wf(),
        ensures
            final(self)@ == old(self)@.line_yanked(register),
            final(self)@.wf(),
            final(self)@.doc.origin == old(self)@.doc.origin,
            unedited(old(self).doc, final(self).doc),
    {
        let lines = one_line(copy_bytes(&self.doc.lines[self.doc.row]));
        let message = register_status("Yank", &lines, true, register_name(register));
        self.registers.set_yank(lines, true);
        self.registers.save_register(register);
        self.set_status(message);
    }

    /// `p` and `P`: what was yanked is put behind or before the cursor.
    pub fn put(&mut self, after: bool, register: Option<u8>)
        requires
            old(self)@.wf(),
        ensures
            final(self)@ == old(self)@.put(after, register),
            final(self)@.wf(),
            final(self)@.doc.origin == old(self)@.doc.origin,
            told_of_edits(old(self).doc, final(self).doc),
    {
        if self.registers.yank.len() == 0 {
            let mut message = copy_str("Nothing in register ");
            message.push(register_name(register));
            assert(message@ =~= "Nothing in register "@ + seq![register_name(register)]);
            self.set_error(message);
            return;
        }
        let linewise = self.registers.linewise;
        let message = register_status(
            "Put",
            &self.registers.yank,
            linewise,
            register_name(register),
        );
        self.doc.begin_change();
        let row: usize = self.doc.row;
        if linewise {
            let at: usize = if after {
                row + 1
            } else {
                row
            };
            let lines = copy_lines(&self.registers.yank, 0, self.registers.yank.len());
            assert(text_of(self.registers.yank@).subrange(0, self.registers.yank@.len() as int)
                =~= text_of(self.registers.yank@));
            self.doc.replace_lines(at, at, lines);
            self.doc.row = min_of(at, self.doc.lines.len() - 1);
            self.doc.col = 0;
        } else {
            let length: usize = self.doc.lines[row].len();
            let col: usize = if after && self.doc.col < length {
                self.doc.col + 1
            } else {
                min_of(self.doc.col, length)
            };
            let bytes = copy_bytes(&self.registers.yank[0]);
            let _ = self.doc.replace_bytes(row, col, col, bytes);
            self.doc.col = min_of(col, less_of(self.doc.lines[row].len(), 1));
        }
        self.set_status(message);
    }

    /// `u`: the latest change is taken back.
    pub fn undo(&mut self)
        requires
            old(self)@.wf(),
        ensures
            final(self)@ == old(self)@.undone(),
            final(self)@.wf(),
            told_of_edits(old(self).doc, final(self).doc),
    {
        if self.doc.undo_change() {
            let count: usize = self.doc.redo.len();
            assert(self.doc@.redo.len() == count);
            assert(self.doc@.redo.last() == self.doc.redo@[count - 1]@);
            assert(self.doc@.undo.len() == self.doc.undo@.len());
            let message = undo_status(
                &self.doc.redo[count - 1],
                &self.doc.lines,
                self.doc.undo.len(),
            );
            self.set_status(message);
        } else {
            self.tell("Already at oldest change");
        }
    }

    /// Control-R: the change that was taken back last is made again.
    pub fn redo(&mut self)
        requires
            old(self)@.wf(),
        ensures
            final(self)@ == old(self)@.redone(),
            final(self)@.wf(),
            told_of_edits(old(self).doc, final(self).doc),
    {
        if self.doc.redo_change() {
            self.tell("1 change redone");
        } else {
            self.tell("Already at newest change");
        }
    }

    /// `U`: the latest change is taken back, with a message about the line.
    pub fn undo_line(&mut self)
        requires
            old(self)@.wf(),
        ensures
            final(self)@ == old(self)@.undone_line(),
            final(self)@.wf(),
            told_of_edits(old(self).doc, final(self).doc),
    {
        if self.doc.undo_change() {
            let lines = one_line(copy_bytes(&self.doc.lines[self.doc.row]));
            let message = register_status("Undo", &lines, true, 'U');
            self.set_status(message);
        }
    }
}

} // verus!
