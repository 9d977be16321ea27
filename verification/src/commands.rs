//! Commands in command mode, once their count and register are known.
use crate::bytes::{fit, imin, is_lower, less, less_of, min_of, plus_of};
use crate::document::{told_of_edits, unedited};
use crate::editor::{Await, Editor, EditorView, InputView, Operator};
use crate::messages::{display_command_byte, key_name, not_implemented, not_implemented_text};
use crate::motion::{
    character_found, find_character, matching_delimiter, motion, motion_target, paragraph,
    paragraph_row, partner_of,
};
use crate::screen::ScreenView;
use crate::strings::copy_str;
use vstd::prelude::*;
use vstd::string::*;

verus! {

broadcast use crate::syntax::group_noted;

/// The commands that begin to type text.
#[verifier::allow_in_spec]
pub fn is_typing(command: u8) -> bool
    returns
        command == 105 || command == 97 || command == 65 || command == 73 || command == 82
            || command == 67 || command == 83 || command == 115 || command == 111 || command == 79,
{
    command == 105 || command == 97 || command == 65 || command == 73 || command == 82 || command
        == 67 || command == 83 || command == 115 || command == 111 || command == 79
}

/// The commands that change the text at once.
#[verifier::allow_in_spec]
pub fn is_changing(command: u8) -> bool
    returns
        command == 120 || command == 68 || command == 88 || command == 74 || command == 89
            || command == 126 || command == 112 || command == 80 || command == 0x87 || command
            == 85,
{
    command == 120 || command == 68 || command == 88 || command == 74 || command == 89 || command
        == 126 || command == 112 || command == 80 || command == 0x87 || command == 85
}

/// The commands that need another key.
#[verifier::allow_in_spec]
pub fn is_waiting(command: u8) -> bool
    returns
        command == 114 || command == 62 || command == 60 || command == 90 || command == 122
            || command == 100 || command == 121 || command == 99 || command == 103 || command == 109
            || command == 39 || command == 96,
{
    command == 114 || command == 62 || command == 60 || command == 90 || command == 122 || command
        == 100 || command == 121 || command == 99 || command == 103 || command == 109 || command
        == 39 || command == 96
}

/// The commands that move the visible part of the text, and redrawing.
#[verifier::allow_in_spec]
pub fn is_scrolling(command: u8) -> bool
    returns
        command == 5 || command == 25 || command == 12 || command == 4 || command == 2 || command
            == 0x88 || command == 6 || command == 0x89 || command == 21,
{
    command == 5 || command == 25 || command == 12 || command == 4 || command == 2 || command
        == 0x88 || command == 6 || command == 0x89 || command == 21
}

/// The motions that operators take too.
#[verifier::allow_in_spec]
pub fn is_motion(command: u8) -> bool
    returns
        command == 107 || command == 106 || command == 104 || command == 108 || command == 119
            || command == 87 || command == 101 || command == 69 || command == 98 || command == 66
            || command == 48 || command == 94 || command == 36 || (0x80 <= command && command
            <= 0x85),
{
    command == 107 || command == 106 || command == 104 || command == 108 || command == 119
        || command == 87 || command == 101 || command == 69 || command == 98 || command == 66
        || command == 48 || command == 94 || command == 36 || (0x80 <= command && command <= 0x85)
}

/// The other commands that move the cursor.
#[verifier::allow_in_spec]
pub fn is_moving(command: u8) -> bool
    returns
        command == 37 || command == 124 || command == 72 || command == 77 || command == 76
            || command == 43 || command == 45 || command == 123 || command == 125 || command == 8
            || command == 127 || command == 32 || command == 71 || command == 13,
{
    command == 37 || command == 124 || command == 72 || command == 77 || command == 76 || command
        == 43 || command == 45 || command == 123 || command == 125 || command == 8 || command
        == 127 || command == 32 || command == 71 || command == 13
}

/// The operator of a command.
#[verifier::allow_in_spec]
pub fn operator_of(command: u8) -> Operator
    returns
        if command == 100 {
            Operator::Delete
        } else if command == 121 {
            Operator::Yank
        } else {
            Operator::Change
        },
{
    if command == 100 {
        Operator::Delete
    } else if command == 121 {
        Operator::Yank
    } else {
        Operator::Change
    }
}

/// The command of an operator.
#[verifier::allow_in_spec]
pub fn command_of(op: Operator) -> u8
    returns
        match op {
            Operator::Delete => 100u8,
            Operator::Yank => 121u8,
            Operator::Change => 99u8,
        },
{
    match op {
        Operator::Delete => 100,
        Operator::Yank => 121,
        Operator::Change => 99,
    }
}

impl EditorView {
    /// The line that a line number stands for: the last one where there is no
    /// number.
    pub open spec fn line_counted(self, count: int) -> int {
        if count == 1 {
            self.doc.lines.len() - 1
        } else {
            imin(count - 1, self.doc.lines.len() - 1)
        }
    }

    /// A motion.
    pub open spec fn moved(self, command: u8, count: int) -> EditorView {
        let (row, col) = motion_target(
            self.doc.lines,
            self.doc.row,
            self.doc.col,
            command,
            count,
        );
        self.at(row, col)
    }

    /// A command that begins to type text.
    #[verifier::opaque]
    pub open spec fn typing_begun(self, command: u8, count: int, register: Option<u8>) -> EditorView {
        if command == 105 {
            self.inserting(105)
        } else if command == 97 {
            self.appending()
        } else if command == 65 {
            self.appending_line()
        } else if command == 73 {
            self.inserting_line()
        } else if command == 82 {
            self.replacing()
        } else if command == 67 {
            self.cut_kept(usize::MAX as int, register).inserting(67)
        } else if command == 83 {
            self.line_changed(register)
        } else if command == 115 {
            self.cut_kept(count, register).inserting(115)
        } else {
            self.line_opened(command == 111)
        }
    }

    /// A command that changes the text at once.
    #[verifier::opaque]
    pub open spec fn text_changed(self, command: u8, count: int, register: Option<u8>) -> EditorView {
        if command == 120 {
            self.cut_kept(count, register).col_kept().ended()
        } else if command == 68 {
            self.cut_kept(usize::MAX as int, register).col_kept().ended()
        } else if command == 88 {
            self.deleted_before()
        } else if command == 74 {
            self.with_doc(self.doc.begun().joined().ended())
        } else if command == 89 {
            self.line_yanked(register)
        } else if command == 126 {
            self.with_doc(self.doc.begun().case_switched(count).ended())
        } else if command == 112 || command == 80 {
            EditorView { registers: self.registers.recalled(register), ..self }.put(
                command == 112,
                register,
            ).ended()
        } else if command == 85 {
            self.undone_line()
        } else {
            self.with_doc(self.doc.begun().byte_deleted().ended())
        }
    }

    /// A command that needs another key.
    pub open spec fn waiting(self, command: u8, count: int, register: Option<u8>) -> EditorView {
        let size = count as usize;
        self.awaiting(
            if command == 114 {
                Await::Replace { count: size }
            } else if command == 62 || command == 60 {
                Await::Shift { right: command == 62, count: size }
            } else if command == 90 {
                Await::Close
            } else if command == 122 {
                Await::Scroll
            } else if command == 103 {
                Await::Go
            } else if command == 109 {
                Await::SetMark
            } else if command == 39 || command == 96 {
                Await::GotoMark { line: command == 39 }
            } else {
                Await::Operator { op: operator_of(command), count: size, register }
            },
        )
    }

    /// The lines that a page takes.
    pub open spec fn page(self) -> int {
        less(self.screen.rows, 2)
    }

    /// A command that moves the visible part of the text.
    #[verifier::opaque]
    pub open spec fn view_moved(self, command: u8) -> EditorView {
        if command == 12 {
            EditorView { screen: self.screen.forgotten(), ..self }
        } else if command == 5 {
            self.scrolled(1, true)
        } else if command == 25 {
            self.scrolled(1, false)
        } else if command == 4 {
            self.scrolled(self.page() / 2, true)
        } else if command == 21 {
            self.scrolled(self.page() / 2, false)
        } else if command == 2 || command == 0x88 {
            self.scrolled(self.page(), false)
        } else {
            self.scrolled(self.page(), true)
        }
    }

    /// A command that moves the cursor.
    #[verifier::opaque]
    pub open spec fn cursor_moved(self, command: u8, count: int) -> EditorView {
        let last = self.doc.lines.len() - 1;
        if command == 37 {
            match partner_of(self.doc.line(), self.doc.col) {
                Some(col) => self.at(self.doc.row, col),
                None => self,
            }
        } else if command == 124 {
            self.at(self.doc.row, imin(less(count, 1), self.doc.last_col(self.doc.row)))
        } else if command == 72 {
            self.at_row(imin(self.screen.top, last))
        } else if command == 77 {
            self.at_row(imin(fit(self.screen.top + self.screen.body() / 2), last))
        } else if command == 76 {
            self.at_row(imin(fit(self.screen.top + less(self.screen.body(), 1)), last))
        } else if command == 43 {
            self.at_row(imin(self.doc.row + count, last))
        } else if command == 45 {
            self.at_row(less(self.doc.row, count))
        } else if command == 123 || command == 125 {
            self.at_row(paragraph_row(self.doc.lines, self.doc.row, command == 125, false))
        } else if command == 32 {
            self.moved(108, count)
        } else if command == 8 || command == 127 {
            self.moved(104, count)
        } else if command == 71 {
            self.at_row(self.line_counted(count))
        } else {
            self.at(imin(self.doc.row + 1, last), 0)
        }
    }

    /// A command with its count and its register.
    pub open spec fn dispatched(self, command: u8, count: int, register: Option<u8>) -> EditorView {
        if is_typing(command) {
            self.typing_begun(command, count, register)
        } else if is_changing(command) {
            self.text_changed(command, count, register)
        } else if is_waiting(command) {
            self.waiting(command, count, register)
        } else if is_scrolling(command) {
            self.view_moved(command)
        } else if is_motion(command) {
            self.moved(command, count)
        } else if is_moving(command) {
            self.cursor_moved(command, count)
        } else if command == 0x86 {
            self.failed("Insert mode is not enabled by this key"@)
        } else {
            self.failed(not_implemented(key_name(command)))
        }
    }

    /// Where the motion of an operator leads, for a motion of one key.
    pub open spec fn operator_target(self, command: u8, count: int) -> (int, int) {
        if command == 37 {
            (
                self.doc.row,
                match partner_of(self.doc.line(), self.doc.col) {
                    Some(col) => col,
                    None => self.doc.col,
                },
            )
        } else if command == 71 {
            (self.line_counted(count), 0)
        } else {
            motion_target(self.doc.lines, self.doc.row, self.doc.col, command, count)
        }
    }

    /// The key behind an operator: the same one for whole lines, a motion, or
    /// the start of a motion of two keys.
    #[verifier::opaque]
    pub open spec fn operator_key(
        self,
        op: Operator,
        count: int,
        register: Option<u8>,
        key: u8,
    ) -> EditorView {
        if key == command_of(op) {
            self.operated_count(op, count, register)
        } else if key == 102 || key == 70 || key == 116 || key == 84 {
            self.awaiting(
                Await::OperatorFind {
                    op,
                    register,
                    forward: key == 102 || key == 116,
                    till: key == 116 || key == 84,
                },
            )
        } else if key == 103 {
            self.awaiting(Await::OperatorGo { op, register })
        } else {
            let (row, col) = self.operator_target(key, count);
            self.operated(op, row, col, register)
        }
    }

    /// A character is looked for from now on.
    pub open spec fn looking_for(self, key: u8, forward: bool, till: bool) -> EditorView {
        EditorView {
            input: InputView { char_search: Some((key, forward, till)), ..self.input },
            ..self
        }
    }

    /// The cursor on the next such character in the line, if there is one.
    pub open spec fn at_character(self, key: u8, forward: bool, till: bool) -> EditorView {
        match character_found(self.doc.line(), self.doc.col, key, forward, till) {
            Some(col) => self.at(self.doc.row, col),
            None => self,
        }
    }

    /// The character that an operator finds its end by.
    #[verifier::opaque]
    pub open spec fn operator_found(
        self,
        op: Operator,
        register: Option<u8>,
        forward: bool,
        till: bool,
        key: u8,
    ) -> EditorView {
        let col = match character_found(self.doc.line(), self.doc.col, key, forward, till) {
            Some(col) => col,
            None => self.doc.col,
        };
        self.looking_for(key, forward, till).operated(op, self.doc.row, col, register)
    }

    /// What follows `g` behind an operator.
    #[verifier::opaque]
    pub open spec fn operator_gone(self, op: Operator, register: Option<u8>, key: u8) -> EditorView {
        if key == 103 {
            self.operated(op, 0, 0, register)
        } else {
            self.operated(op, self.doc.row, self.doc.col, register)
        }
    }

    /// What follows `z`: the line of the cursor in the middle or at the end of
    /// the screen.
    #[verifier::opaque]
    pub open spec fn line_placed(self, key: u8) -> EditorView {
        let topped = EditorView {
            screen: ScreenView { top: self.doc.row, ..self.screen },
            ..self
        };
        if key == 46 {
            topped.scrolled(self.page() / 2, false)
        } else if key == 45 {
            topped.scrolled(self.page(), false)
        } else {
            self
        }
    }

    /// What follows `g`.
    #[verifier::opaque]
    pub open spec fn gone(self, key: u8) -> EditorView {
        if key == 103 {
            self.at(0, 0)
        } else {
            self.failed(not_implemented("g"@ + key_name(key)))
        }
    }

    /// A mark set.
    #[verifier::opaque]
    pub open spec fn mark_set(self, key: u8) -> EditorView {
        if is_lower(key) {
            EditorView {
                input: InputView {
                    marks: self.input.marks.update(
                        key - 97,
                        Some((self.doc.row as usize, self.doc.col as usize)),
                    ),
                    ..self.input
                },
                ..self
            }
        } else {
            self
        }
    }

    /// The cursor at a mark, or at the start of its line.
    #[verifier::opaque]
    pub open spec fn at_mark(self, key: u8, line: bool) -> EditorView {
        if is_lower(key) {
            match self.input.marks[key - 97] {
                Some((row, col)) => {
                    let new_row = imin(row as int, self.doc.lines.len() - 1);
                    self.at(
                        new_row,
                        if line {
                            0
                        } else {
                            imin(col as int, self.doc.last_col(new_row))
                        },
                    )
                },
                None => self.failed("Mark not set"@),
            }
        } else {
            self
        }
    }
}

impl Editor {
    fn move_cursor_to(&mut self, row: usize, col: usize)
        requires
            old(self)@.wf(),
            row < old(self)@.doc.lines.len(),
        ensures
            final(self)@ == old(self)@.at(row as int, col as int),
            final(self)@.wf(),
            final(self)@.doc.origin == old(self)@.doc.origin,
            unedited(old(self).doc, final(self).doc),
    {
        self.doc.row = row;
        self.doc.col = col;
    }

    fn move_row_to(&mut self, row: usize)
        requires
            old(self)@.wf(),
            row < old(self)@.doc.lines.len(),
        ensures
            final(self)@ == old(self)@.at_row(row as int),
            final(self)@.wf(),
            final(self)@.doc.origin == old(self)@.doc.origin,
            unedited(old(self).doc, final(self).doc),
    {
        self.doc.move_to_row(row);
    }

    fn find_line(&self, count: usize) -> (r: usize)
        requires
            self@.wf(),
            count >= 1,
        ensures
            r == self@.line_counted(count as int),
            r < self@.doc.lines.len(),
    {
        let last: usize = self.doc.lines.len() - 1;
        if count == 1 {
            last
        } else {
            min_of(count - 1, last)
        }
    }

    fn move_by(&mut self, command: u8, count: usize)
        requires
            old(self)@.wf(),
        ensures
            final(self)@ == old(self)@.moved(command, count as int),
            final(self)@.wf(),
            final(self)@.doc.origin == old(self)@.doc.origin,
            unedited(old(self).doc, final(self).doc),
    {
        let (row, col) = motion(&self.doc.lines, self.doc.row, self.doc.col, command, count);
        self.move_cursor_to(row, col);
    }

    fn begin_typing(&mut self, command: u8, count: usize, register: Option<u8>)
        requires
            old(self)@.wf(),
        ensures
            final(self)@ == old(self)@.typing_begun(command, count as int, register),
            final(self)@.wf(),
            final(self)@.doc.origin == old(self)@.doc.origin,
            told_of_edits(old(self).doc, final(self).doc),
    {
        reveal(EditorView::typing_begun);
        if command == 105 {
            self.insert_here();
        } else if command == 97 {
            self.append_here();
        } else if command == 65 {
            self.append_line();
        } else if command == 73 {
            self.insert_line();
        } else if command == 82 {
            self.replace_here();
        } else if command == 67 {
            self.change_rest(register);
        } else if command == 83 {
            self.change_line(register);
        } else if command == 115 {
            self.substitute_bytes(count, register);
        } else {
            self.open_line(command == 111);
        }
    }

    fn put_register(&mut self, after: bool, register: Option<u8>)
        requires
            old(self)@.wf(),
        ensures
            final(self)@ == (EditorView {
                registers: old(self)@.registers.recalled(register),
                ..old(self)@
            }).put(after, register).ended(),
            final(self)@.wf(),
            final(self)@.doc.origin == old(self)@.doc.origin,
            told_of_edits(old(self).doc, final(self).doc),
    {
        self.registers.recall_register(register);
        self.put(after, register);
        self.end_change();
    }

    fn change_text(&mut self, command: u8, count: usize, register: Option<u8>)
        requires
            old(self)@.wf(),
        ensures
            final(self)@ == old(self)@.text_changed(command, count as int, register),
            final(self)@.wf(),
            final(self)@.origin_kept(old(self)@),
            told_of_edits(old(self).doc, final(self).doc),
    {
        reveal(EditorView::text_changed);
        if command == 120 {
            self.delete_bytes(count, register);
        } else if command == 68 {
            self.delete_bytes(usize::MAX, register);
        } else if command == 88 {
            self.delete_before();
        } else if command == 74 {
            self.join_lines();
        } else if command == 89 {
            self.yank_line(register);
        } else if command == 126 {
            self.switch_case(count);
        } else if command == 112 || command == 80 {
            self.put_register(command == 112, register);
        } else if command == 85 {
            self.undo_line();
        } else {
            self.delete_here();
        }
    }

    fn wait(&mut self, command: u8, count: usize, register: Option<u8>)
        ensures
            final(self)@ == old(self)@.waiting(command, count as int, register),
            unedited(old(self).doc, final(self).doc),
    {
        self.input.awaiting = if command == 114 {
            Await::Replace { count }
        } else if command == 62 || command == 60 {
            Await::Shift { right: command == 62, count }
        } else if command == 90 {
            Await::Close
        } else if command == 122 {
            Await::Scroll
        } else if command == 103 {
            Await::Go
        } else if command == 109 {
            Await::SetMark
        } else if command == 39 || command == 96 {
            Await::GotoMark { line: command == 39 }
        } else {
            Await::Operator { op: operator_of(command), count, register }
        };
    }

    fn move_view(&mut self, command: u8)
        requires
            old(self)@.wf(),
        ensures
            final(self)@ == old(self)@.view_moved(command),
            final(self)@.wf(),
            final(self)@.doc.origin == old(self)@.doc.origin,
            unedited(old(self).doc, final(self).doc),
    {
        reveal(EditorView::view_moved);
        let page: usize = less_of(self.screen.rows, 2);
        if command == 12 {
            self.screen.force_redraw();
        } else if command == 5 {
            self.scroll_screen(1, true);
        } else if command == 25 {
            self.scroll_screen(1, false);
        } else if command == 4 {
            self.scroll_screen(page / 2, true);
        } else if command == 21 {
            self.scroll_screen(page / 2, false);
        } else if command == 2 || command == 0x88 {
            self.scroll_screen(page, false);
        } else {
            self.scroll_screen(page, true);
        }
    }

    fn move_cursor(&mut self, command: u8, count: usize)
        requires
            old(self)@.wf(),
            count >= 1,
        ensures
            final(self)@ == old(self)@.cursor_moved(command, count as int),
            final(self)@.wf(),
            final(self)@.doc.origin == old(self)@.doc.origin,
            unedited(old(self).doc, final(self).doc),
    {
        reveal(EditorView::cursor_moved);
        let last: usize = self.doc.lines.len() - 1;
        let row: usize = self.doc.row;
        let body: usize = self.screen.body_rows();
        if command == 37 {
            if let Some(col) = matching_delimiter(&self.doc.lines[row], self.doc.col) {
                self.move_cursor_to(row, col);
            }
        } else if command == 124 {
            let end: usize = less_of(self.doc.lines[row].len(), 1);
            self.move_cursor_to(row, min_of(less_of(count, 1), end));
        } else if command == 72 {
            self.move_row_to(min_of(self.screen.top, last));
        } else if command == 77 {
            self.move_row_to(min_of(plus_of(self.screen.top, body / 2), last));
        } else if command == 76 {
            self.move_row_to(min_of(plus_of(self.screen.top, less_of(body, 1)), last));
        } else if command == 43 {
            self.move_row_to(min_of(plus_of(row, count), last));
        } else if command == 45 {
            self.move_row_to(less_of(row, count));
        } else if command == 123 || command == 125 {
            let target: usize = paragraph(&self.doc.lines, row, command == 125);
            self.move_row_to(target);
        } else if command == 32 {
            self.move_by(108, count);
        } else if command == 8 || command == 127 {
            self.move_by(104, count);
        } else if command == 71 {
            let target: usize = self.find_line(count);
            self.move_row_to(target);
        } else {
            self.move_cursor_to(min_of(row + 1, last), 0);
        }
    }

    /// Carries out a command with its count and its register.
    pub fn dispatch(&mut self, command: u8, count: usize, register: Option<u8>)
        requires
            old(self)@.wf(),
            count >= 1,
        ensures
            final(self)@ == old(self)@.dispatched(command, count as int, register),
            final(self)@.wf(),
            final(self)@.origin_kept(old(self)@),
            told_of_edits(old(self).doc, final(self).doc),
    {
        if is_typing(command) {
            self.begin_typing(command, count, register);
        } else if is_changing(command) {
            self.change_text(command, count, register);
        } else if is_waiting(command) {
            self.wait(command, count, register);
        } else if is_scrolling(command) {
            self.move_view(command);
        } else if is_motion(command) {
            self.move_by(command, count);
        } else if is_moving(command) {
            self.move_cursor(command, count);
        } else if command == 0x86 {
            self.fail("Insert mode is not enabled by this key");
        } else {
            let name = display_command_byte(command);
            self.set_error(not_implemented_text(name.as_str()));
        }
    }

    fn find_operator_target(&self, command: u8, count: usize) -> (r: (usize, usize))
        requires
            self@.wf(),
            count >= 1,
        ensures
            (r.0 as int, r.1 as int) == self@.operator_target(command, count as int),
            r.0 < self@.doc.lines.len(),
    {
        let row: usize = self.doc.row;
        if command == 37 {
            match matching_delimiter(&self.doc.lines[row], self.doc.col) {
                Some(col) => (row, col),
                None => (row, self.doc.col),
            }
        } else if command == 71 {
            (self.find_line(count), 0)
        } else {
            motion(&self.doc.lines, row, self.doc.col, command, count)
        }
    }

    /// The key behind an operator.
    pub fn finish_operator(&mut self, op: Operator, count: usize, register: Option<u8>, key: u8)
        requires
            old(self)@.wf(),
            count >= 1,
        ensures
            final(self)@ == old(self)@.operator_key(op, count as int, register, key),
            final(self)@.wf(),
            final(self)@.doc.origin == old(self)@.doc.origin,
            told_of_edits(old(self).doc, final(self).doc),
    {
        reveal(EditorView::operator_key);
        if key == command_of(op) {
            self.apply_line_operator(op, count, register);
        } else if key == 102 || key == 70 || key == 116 || key == 84 {
            self.input.awaiting =
            Await::OperatorFind {
                op,
                register,
                forward: key == 102 || key == 116,
                till: key == 116 || key == 84,
            };
        } else if key == 103 {
            self.input.awaiting = Await::OperatorGo { op, register };
        } else {
            let (row, col) = self.find_operator_target(key, count);
            self.apply_char_operator(op, row, col, register);
        }
    }

    fn look_for(&mut self, key: u8, forward: bool, till: bool)
        ensures
            final(self)@ == old(self)@.looking_for(key, forward, till),
            unedited(old(self).doc, final(self).doc),
    {
        self.input.char_search = Some((key, forward, till));
    }

    /// Puts the cursor on the next such character in the line.
    pub fn go_to_character(&mut self, key: u8, forward: bool, till: bool)
        requires
            old(self)@.wf(),
        ensures
            final(self)@ == old(self)@.at_character(key, forward, till),
            final(self)@.wf(),
            final(self)@.doc.origin == old(self)@.doc.origin,
            unedited(old(self).doc, final(self).doc),
    {
        let row: usize = self.doc.row;
        if let Some(col) = find_character(
            &self.doc.lines[row],
            self.doc.col,
            key,
            forward,
            till,
        ) {
            self.move_cursor_to(row, col);
        }
    }

    /// The character that `f`, `F`, `t` and `T` look for.
    pub fn finish_find(&mut self, key: u8, forward: bool, till: bool)
        requires
            old(self)@.wf(),
        ensures
            final(self)@ == old(self)@.looking_for(key, forward, till).at_character(
                key,
                forward,
                till,
            ),
            final(self)@.wf(),
            final(self)@.doc.origin == old(self)@.doc.origin,
            unedited(old(self).doc, final(self).doc),
    {
        self.look_for(key, forward, till);
        self.go_to_character(key, forward, till);
    }

    /// The character that an operator finds its end by.
    pub fn finish_operator_find(
        &mut self,
        op: Operator,
        register: Option<u8>,
        forward: bool,
        till: bool,
        key: u8,
    )
        requires
            old(self)@.wf(),
        ensures
            final(self)@ == old(self)@.operator_found(op, register, forward, till, key),
            final(self)@.wf(),
            final(self)@.doc.origin == old(self)@.doc.origin,
            told_of_edits(old(self).doc, final(self).doc),
    {
        reveal(EditorView::operator_found);
        let row: usize = self.doc.row;
        let col: usize = match find_character(
            &self.doc.lines[row],
            self.doc.col,
            key,
            forward,
            till,
        ) {
            Some(col) => col,
            None => self.doc.col,
        };
        self.look_for(key, forward, till);
        self.apply_char_operator(op, row, col, register);
    }

    /// What follows `g` behind an operator.
    pub fn finish_operator_go(&mut self, op: Operator, register: Option<u8>, key: u8)
        requires
            old(self)@.wf(),
        ensures
            final(self)@ == old(self)@.operator_gone(op, register, key),
            final(self)@.wf(),
            final(self)@.doc.origin == old(self)@.doc.origin,
            told_of_edits(old(self).doc, final(self).doc),
    {
        reveal(EditorView::operator_gone);
        if key == 103 {
            self.apply_char_operator(op, 0, 0, register);
        } else {
            let row: usize = self.doc.row;
            let col: usize = self.doc.col;
            self.apply_char_operator(op, row, col, register);
        }
    }

    /// What follows `z`.
    pub fn finish_scroll(&mut self, key: u8)
        requires
            old(self)@.wf(),
        ensures
            final(self)@ == old(self)@.line_placed(key),
            final(self)@.wf(),
            final(self)@.doc.origin == old(self)@.doc.origin,
            unedited(old(self).doc, final(self).doc),
    {
        reveal(EditorView::line_placed);
        let page: usize = less_of(self.screen.rows, 2);
        if key == 46 {
            self.screen.top = self.doc.row;
            self.scroll_screen(page / 2, false);
        } else if key == 45 {
            self.screen.top = self.doc.row;
            self.scroll_screen(page, false);
        }
    }

    /// What follows `g`.
    pub fn finish_go(&mut self, key: u8)
        requires
            old(self)@.wf(),
        ensures
            final(self)@ == old(self)@.gone(key),
            final(self)@.wf(),
            final(self)@.doc.origin == old(self)@.doc.origin,
            unedited(old(self).doc, final(self).doc),
    {
        reveal(EditorView::gone);
        if key == 103 {
            self.move_cursor_to(0, 0);
        } else {
            let mut name = copy_str("g");
            name.append(display_command_byte(key).as_str());
            self.set_error(not_implemented_text(name.as_str()));
        }
    }

    /// Sets a mark.
    pub fn set_mark(&mut self, key: u8)
        requires
            old(self)@.wf(),
        ensures
            final(self)@ == old(self)@.mark_set(key),
            final(self)@.wf(),
            final(self)@.doc.origin == old(self)@.doc.origin,
            unedited(old(self).doc, final(self).doc),
    {
        reveal(EditorView::mark_set);
        if is_lower(key) {
            let index: usize = (key - 97) as usize;
            self.input.marks[index] = Some((self.doc.row, self.doc.col));
            assert(self@ =~= old(self)@.mark_set(key));
        }
    }

    /// Goes to a mark, or to the start of its line.
    pub fn go_to_mark(&mut self, key: u8, line: bool)
        requires
            old(self)@.wf(),
        ensures
            final(self)@ == old(self)@.at_mark(key, line),
            final(self)@.wf(),
            final(self)@.doc.origin == old(self)@.doc.origin,
            unedited(old(self).doc, final(self).doc),
    {
        reveal(EditorView::at_mark);
        if is_lower(key) {
            let index: usize = (key - 97) as usize;
            match self.input.marks[index] {
                Some((row, col)) => {
                    let new_row: usize = min_of(row, self.doc.lines.len() - 1);
                    let new_col: usize = if line {
                        0
                    } else {
                        min_of(col, less_of(self.doc.lines[new_row].len(), 1))
                    };
                    self.move_cursor_to(new_row, new_col);
                },
                None => {
                    self.fail("Mark not set");
                },
            }
        }
    }
}

} // verus!
