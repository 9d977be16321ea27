//! Typing text: what a key does in insert and in replace mode.
use crate::bytes::{
    copy_bytes, copy_range, imin, less, less_of, min_of, one_line, push_all, push_range,
    repeat_byte, two_lines,
};
use crate::document::{told_of_edits, unedited, DocView, Document};
use crate::editor::{Editor, EditorView};
use crate::messages::Mode;
use crate::screen::{display_column, line_display_width};
use vstd::prelude::*;

verus! {

broadcast use crate::syntax::group_noted;

/// Where the spaces and tabs that a line begins with end.
pub open spec fn indent_end(line: Seq<u8>, at: int) -> int
    decreases line.len() - at,
{
    if 0 <= at < line.len() && (line[at] == 32 || line[at] == 9) {
        indent_end(line, at + 1)
    } else {
        at
    }
}

/// The spaces and tabs that a new line takes over.
pub open spec fn indent_of(line: Seq<u8>, autoindent: bool) -> Seq<u8> {
    if autoindent {
        line.subrange(0, indent_end(line, 0))
    } else {
        Seq::empty()
    }
}

impl DocView {
    /// The line broken at the cursor; the new line begins with `indent`.
    pub open spec fn line_broken(self, indent: Seq<u8>) -> DocView {
        let line = self.line();
        let col = imin(self.col, line.len() as int);
        self.lines_replaced(
            self.row,
            self.row + 1,
            seq![line.subrange(0, col), indent + line.subrange(col, line.len() as int)],
        ).at(self.row + 1, indent.len() as int)
    }

    /// The line joined to the one before it.
    pub open spec fn joined_back(self) -> DocView {
        let before = self.lines[self.row - 1];
        self.lines_replaced(self.row - 1, self.row + 1, seq![before + self.line()]).at(
            self.row - 1,
            before.len() as int,
        )
    }

    /// Bytes typed at the cursor.
    pub open spec fn bytes_typed(self, bytes: Seq<u8>) -> DocView {
        let col = imin(self.col, self.line().len() as int);
        self.bytes_replaced(self.row, col, col, bytes).at(self.row, col + bytes.len())
    }

    /// A byte typed over the one under the cursor.
    pub open spec fn byte_overtyped(self, byte: u8) -> DocView {
        self.bytes_replaced(self.row, self.col, self.col + 1, seq![byte]).at(
            self.row,
            self.col + 1,
        )
    }
}

impl EditorView {
    /// The change goes on with this key.
    pub open spec fn continued(self, key: u8) -> EditorView {
        EditorView { input: self.input.change_continued(key), ..self }
    }

    /// Control-C: typing is broken off.
    pub open spec fn interrupted(self) -> EditorView {
        self.in_mode(Mode::Command).ended().failed("Interrupted"@)
    }

    /// Escape: typing is done.
    pub open spec fn typing_done(self) -> EditorView {
        let last = less(self.doc.line().len() as int, 1);
        self.in_mode(Mode::Command).at(self.doc.row, imin(less(self.doc.col, 1), last)).ended()
    }

    /// Return: the line is broken at the cursor.
    pub open spec fn newline_typed(self, key: u8) -> EditorView {
        self.with_doc(
            self.doc.begun().line_broken(indent_of(self.doc.line(), self.options.autoindent)),
        ).continued(key)
    }

    /// Backspace: the byte before the cursor is deleted, or the line joined to
    /// the one before it.
    pub open spec fn backspaced(self, key: u8) -> EditorView {
        let begun = self.doc.begun();
        self.with_doc(
            if self.doc.col > 0 {
                begun.back_deleted()
            } else if self.doc.row > 0 {
                begun.joined_back()
            } else {
                begun
            },
        ).continued(key)
    }

    /// The cursor on another line, its column kept within that line or right
    /// behind it.
    pub open spec fn typing_at(self, row: int) -> EditorView {
        self.at(row, imin(self.doc.col, self.doc.lines[row].len() as int))
    }

    /// A cursor key, or another key without a character, while typing.
    pub open spec fn special_typed(self, key: u8) -> EditorView {
        let row = self.doc.row;
        let length = self.doc.line().len() as int;
        if key == 0x80 {
            self.typing_at(less(row, 1))
        } else if key == 0x81 {
            self.typing_at(imin(row + 1, self.doc.lines.len() - 1))
        } else if key == 0x82 {
            self.at(row, imin(self.doc.col + 1, length))
        } else if key == 0x83 {
            self.at(row, less(self.doc.col, 1))
        } else if key == 0x84 {
            self.at(row, 0)
        } else if key == 0x85 {
            self.at(row, length)
        } else if key == 0x86 {
            self.in_mode(Mode::Replace)
        } else if key == 0x87 {
            self.with_doc(self.doc.begun().byte_deleted().ended())
        } else {
            self.scrolled(less(self.screen.rows, 2), key == 0x89)
        }
    }

    /// How many spaces a tab becomes at the cursor.
    pub open spec fn tab_width(self) -> int {
        let tabstop = self.options.tabstop as int;
        tabstop - display_column(self.doc.line(), self.doc.col, tabstop) % tabstop
    }

    /// A tab typed as spaces.
    pub open spec fn tab_typed(self) -> EditorView {
        self.with_doc(
            self.doc.begun().bytes_typed(Seq::new(self.tab_width() as nat, |i: int| 32u8)),
        ).continued(9)
    }

    /// A byte typed at the cursor, or over the one under it.
    pub open spec fn byte_typed(self, byte: u8) -> EditorView {
        let begun = self.doc.begun();
        self.with_doc(
            if self.input.mode == Mode::Replace && self.doc.col < self.doc.line().len() {
                begun.byte_overtyped(byte)
            } else {
                begun.bytes_typed(seq![byte])
            },
        ).continued(byte)
    }

    /// What a key does while text is typed. A key is special where it came
    /// from a key without a character and not from the text.
    #[verifier::opaque]
    pub open spec fn typed(self, key: u8, special: bool) -> EditorView {
        if key == 3 || key == 26 {
            self.interrupted()
        } else if key == 27 {
            self.typing_done()
        } else if key == 13 || key == 10 {
            self.newline_typed(key)
        } else if key == 8 || key == 127 {
            self.backspaced(key)
        } else if special && 0x80 <= key <= 0x89 {
            self.special_typed(key)
        } else if key == 9 && self.options.expandtab {
            self.tab_typed()
        } else if key >= 32 && key != 0x9b {
            self.byte_typed(key)
        } else {
            self
        }
    }
}

fn find_indent_end(line: &[u8]) -> (r: usize)
    ensures
        r == indent_end(line@, 0),
        r <= line@.len(),
{
    let mut i: usize = 0;
    while i < line.len() && (line[i] == 32 || line[i] == 9)
        invariant
            i <= line@.len(),
            indent_end(line@, i as int) == indent_end(line@, 0),
        decreases line@.len() - i,
    {
        i += 1;
    }
    i
}

impl Document {
    fn break_line(&mut self, indent: Vec<u8>)
        requires
            old(self)@.wf(),
            old(self)@.pending is Some,
        ensures
            final(self)@ == old(self)@.line_broken(indent@),
            final(self)@.wf(),
            final(self)@.origin == old(self)@.origin,
            told_of_edits(*old(self), *final(self)),
    {
        let ghost before = self@;
        let row: usize = self.row;
        let length: usize = self.lines[row].len();
        let col: usize = min_of(self.col, length);
        let first = copy_range(&self.lines[row], 0, col);
        let width: usize = indent.len();
        let mut second = indent;
        push_range(&mut second, &self.lines[row], col, length);
        self.replace_lines(row, row + 1, two_lines(first, second));
        proof {
            assert(before.lines.subrange(row as int, row + 1).len() == 1);
            assert(seq![first@, second@].len() == 2);
        }
        self.row = row + 1;
        self.col = width;
    }

    fn join_back(&mut self)
        requires
            old(self)@.wf(),
            old(self)@.pending is Some,
            old(self)@.row > 0,
        ensures
            final(self)@ == old(self)@.joined_back(),
            final(self)@.wf(),
            final(self)@.origin == old(self)@.origin,
            told_of_edits(*old(self), *final(self)),
    {
        let ghost before = self@;
        let row: usize = self.row;
        let width: usize = self.lines[row - 1].len();
        let mut joined = copy_bytes(&self.lines[row - 1]);
        push_all(&mut joined, &self.lines[row]);
        self.replace_lines(row - 1, row + 1, one_line(joined));
        proof {
            assert(before.lines.subrange(row - 1, row + 1).len() == 2);
            assert(seq![joined@].len() == 1);
        }
        self.row = row - 1;
        self.col = width;
    }

    fn type_bytes(&mut self, bytes: Vec<u8>)
        requires
            old(self)@.wf(),
            old(self)@.pending is Some,
            bytes@.len() > 0,
        ensures
            final(self)@ == old(self)@.bytes_typed(bytes@),
            final(self)@.wf(),
            final(self)@.origin == old(self)@.origin,
            told_of_edits(*old(self), *final(self)),
    {
        let ghost before = self@;
        let row: usize = self.row;
        let col: usize = min_of(self.col, self.lines[row].len());
        let count: usize = bytes.len();
        let _ = self.replace_bytes(row, col, col, bytes);
        proof {
            assert(before.lines[row as int].subrange(col as int, col as int).len() == 0);
            assert(self@.lines[row as int].len() == before.lines[row as int].len() + count);
        }
        self.col = col + count;
    }

    fn overtype_byte(&mut self, byte: u8)
        requires
            old(self)@.wf(),
            old(self)@.pending is Some,
            old(self)@.col < old(self)@.line().len(),
        ensures
            final(self)@ == old(self)@.byte_overtyped(byte),
            final(self)@.wf(),
            final(self)@.origin == old(self)@.origin,
            told_of_edits(*old(self), *final(self)),
    {
        let row: usize = self.row;
        let col: usize = self.col;
        let length: usize = self.lines[row].len();
        let mut bytes: Vec<u8> = Vec::new();
        bytes.push(byte);
        assert(bytes@ =~= seq![byte]);
        let _ = self.replace_bytes(row, col, col + 1, bytes);
        self.col = col + 1;
    }
}

impl Editor {
    fn finish_typing(&mut self)
        requires
            old(self)@.wf(),
        ensures
            final(self)@ == old(self)@.typing_done(),
            final(self)@.wf(),
            final(self)@.doc.origin == old(self)@.doc.origin,
            unedited(old(self).doc, final(self).doc),
    {
        self.input.mode = Mode::Command;
        let last: usize = less_of(self.doc.lines[self.doc.row].len(), 1);
        self.doc.col = min_of(less_of(self.doc.col, 1), last);
        self.doc.end_change();
    }

    fn type_newline(&mut self, key: u8)
        requires
            old(self)@.wf(),
        ensures
            final(self)@ == old(self)@.newline_typed(key),
            final(self)@.wf(),
            final(self)@.doc.origin == old(self)@.doc.origin,
            told_of_edits(old(self).doc, final(self).doc),
    {
        self.doc.begin_change();
        let line = &self.doc.lines[self.doc.row];
        let indent: Vec<u8> = if self.options.autoindent {
            copy_range(line, 0, find_indent_end(line))
        } else {
            Vec::new()
        };
        self.doc.break_line(indent);
        self.input.continue_change(key);
    }

    fn type_backspace(&mut self, key: u8)
        requires
            old(self)@.wf(),
        ensures
            final(self)@ == old(self)@.backspaced(key),
            final(self)@.wf(),
            final(self)@.doc.origin == old(self)@.doc.origin,
            told_of_edits(old(self).doc, final(self).doc),
    {
        self.doc.begin_change();
        if self.doc.col > 0 {
            self.doc.delete_back();
        } else if self.doc.row > 0 {
            self.doc.join_back();
        }
        self.input.continue_change(key);
    }

    fn type_at(&mut self, row: usize)
        requires
            old(self)@.wf(),
            row < old(self)@.doc.lines.len(),
        ensures
            final(self)@ == old(self)@.typing_at(row as int),
            final(self)@.wf(),
            final(self)@.doc.origin == old(self)@.doc.origin,
            unedited(old(self).doc, final(self).doc),
    {
        self.doc.row = row;
        self.doc.col = min_of(self.doc.col, self.doc.lines[row].len());
    }

    fn type_special(&mut self, key: u8)
        requires
            old(self)@.wf(),
        ensures
            final(self)@ == old(self)@.special_typed(key),
            final(self)@.wf(),
            final(self)@.doc.origin == old(self)@.doc.origin,
            told_of_edits(old(self).doc, final(self).doc),
    {
        let row: usize = self.doc.row;
        let length: usize = self.doc.lines[row].len();
        if key == 0x80 {
            self.type_at(less_of(row, 1));
        } else if key == 0x81 {
            let last: usize = self.doc.lines.len() - 1;
            self.type_at(
                if row < last {
                    row + 1
                } else {
                    last
                },
            );
        } else if key == 0x82 {
            self.doc.col = if self.doc.col < length {
                self.doc.col + 1
            } else {
                length
            };
        } else if key == 0x83 {
            self.doc.col = less_of(self.doc.col, 1);
        } else if key == 0x84 {
            self.doc.col = 0;
        } else if key == 0x85 {
            self.doc.col = length;
        } else if key == 0x86 {
            self.input.mode = Mode::Replace;
        } else if key == 0x87 {
            self.delete_here();
        } else {
            self.scroll_screen(less_of(self.screen.rows, 2), key == 0x89);
        }
    }

    fn type_tab(&mut self)
        requires
            old(self)@.wf(),
        ensures
            final(self)@ == old(self)@.tab_typed(),
            final(self)@.wf(),
            final(self)@.doc.origin == old(self)@.doc.origin,
            told_of_edits(old(self).doc, final(self).doc),
    {
        let tabstop: usize = self.options.tabstop;
        let width: usize = line_display_width(
            &self.doc.lines[self.doc.row],
            self.doc.col,
            tabstop,
        );
        let spaces: usize = tabstop - width % tabstop;
        self.doc.begin_change();
        self.doc.type_bytes(repeat_byte(32, spaces));
        self.input.continue_change(9);
    }

    fn type_byte(&mut self, byte: u8)
        requires
            old(self)@.wf(),
        ensures
            final(self)@ == old(self)@.byte_typed(byte),
            final(self)@.wf(),
            final(self)@.doc.origin == old(self)@.doc.origin,
            told_of_edits(old(self).doc, final(self).doc),
    {
        self.doc.begin_change();
        if self.input.mode == Mode::Replace && self.doc.col < self.doc.lines[self.doc.row].len() {
            self.doc.overtype_byte(byte);
        } else {
            let mut bytes: Vec<u8> = Vec::new();
            bytes.push(byte);
            assert(bytes@ =~= seq![byte]);
            self.doc.type_bytes(bytes);
        }
        self.input.continue_change(byte);
    }

    /// What a key does while text is typed.
    pub fn handle_insert(&mut self, key: u8, special: bool)
        requires
            old(self)@.wf(),
        ensures
            final(self)@ == old(self)@.typed(key, special),
            final(self)@.wf(),
            final(self)@.doc.origin == old(self)@.doc.origin,
            told_of_edits(old(self).doc, final(self).doc),
    {
        reveal(EditorView::typed);
        if key == 3 || key == 26 {
            self.input.mode = Mode::Command;
            self.doc.end_change();
            self.fail("Interrupted");
        } else if key == 27 {
            self.finish_typing();
        } else if key == 13 || key == 10 {
            self.type_newline(key);
        } else if key == 8 || key == 127 {
            self.type_backspace(key);
        } else if special && 0x80 <= key && key <= 0x89 {
            self.type_special(key);
        } else if key == 9 && self.options.expandtab {
            self.type_tab();
        } else if key >= 32 && key != 0x9b {
            self.type_byte(key);
        }
    }
}

} // verus!
