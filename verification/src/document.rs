//! The text with its cursor, its undo history and the syntax state that moves
//! along with it.
use crate::bytes::{
    copy_bytes, copy_lines, copy_range, fit, imin, less, less_of, min_of, one_line, plus_of,
    same_bytes, same_lines, splice, splice_bytes, splice_lines, text_of,
};
use crate::history::{
    apply_edits, changes_of, contiguous, edits_of, history_exact, lemma_history_begins,
    lemma_history_edited, lemma_history_ended, lemma_history_redone, lemma_history_undone,
    lemma_newline_followed,
    newline_kept, Origin, pending_of, with_bytes, with_change, with_edit, Change, ChangeView, Edit, EditView,
    EditorState, PendingChange, PendingView,
};
use crate::syntax::{
    lemma_one_noted, may_be_now, noted_between, told_once, Answers, Syntax, SyntaxView,
};
use crate::text::{
    data_lines, ends_with_newline, has_final_newline, lines_of, offset_before, offset_of_line,
    serialize, serialize_lines,
};
use vstd::prelude::*;

verus! {

broadcast use crate::syntax::group_noted;

/// The text, the cursor, the history and the syntax state.
#[verifier::ext_equal]
pub struct DocView {
    /// The lines, at least one, without their newlines.
    pub lines: Seq<Seq<u8>>,
    /// The line that the cursor is on.
    pub row: int,
    /// The byte of the line that the cursor is at.
    pub col: int,
    /// Whether the last line ends in a newline.
    pub trailing: bool,
    /// Whether the text differs from the file.
    pub modified: bool,
    /// The changes that can be taken back, the latest last.
    pub undo: Seq<ChangeView>,
    /// The changes that can be made again, the next one last.
    pub redo: Seq<ChangeView>,
    /// The change that is going on.
    pub pending: Option<PendingView>,
    /// The state behind syntax highlighting.
    pub syntax: SyntaxView,
    /// The text that taking all changes back leads to. There is none once a
    /// text was loaded over changes of another one.
    pub origin: Option<Origin>,
}

/// The text, the cursor, the history and the syntax state.
pub struct Document {
    pub lines: Vec<Vec<u8>>,
    pub row: usize,
    pub col: usize,
    pub trailing_newline: bool,
    pub modified: bool,
    pub undo: Vec<Change>,
    pub redo: Vec<Change>,
    pub pending_change: Option<PendingChange>,
    pub syntax: Syntax,
    pub origin: Ghost<Option<Origin>>,
}

/// Whether the changes of the text that were noted between two documents are
/// all that happened to the text and the highlighter: the highlighter was told
/// of each, as often as the count of them says, and nothing else was done to
/// it, and the new text is due for it. Where none was noted, the text and the
/// state behind highlighting are the same.
#[verifier::inline]
pub open spec fn told_of_edits(before: Document, after: Document) -> bool {
    noted_between(
        (before.lines, before.trailing_newline),
        before.syntax,
        (after.lines, after.trailing_newline),
        after.syntax,
    )
}

/// Whether two documents have the same text, the same highlighter and the same
/// state behind highlighting.
#[verifier::inline]
pub open spec fn unedited(before: Document, after: Document) -> bool {
    &&& after.lines == before.lines
    &&& after.trailing_newline == before.trailing_newline
    &&& after.syntax == before.syntax
}

/// Whether the ranges of a document may have been read while the highlighter
/// and the clock gave these answers, and the document be another one after it:
/// the state behind highlighting is brought up to date, and nothing else
/// changes.
pub open spec fn ranges_read(
    before: Document,
    after: Document,
    viewport: (usize, usize),
    answers: Answers,
) -> bool {
    let lines = before@.lines;
    let trailing = before@.trailing;
    &&& after@ == (DocView {
        syntax: before@.syntax.refreshed(lines, trailing, true, None, viewport, answers).0,
        ..before@
    })
    &&& before@.syntax.answered(
        before.syntax.highlighter,
        after.syntax.highlighter,
        before.syntax.edited_at,
        lines,
        trailing,
        true,
        None,
        viewport,
        answers,
    )
}

impl View for Document {
    type V = DocView;

    open spec fn view(&self) -> DocView {
        DocView {
            lines: text_of(self.lines@),
            row: self.row as int,
            col: self.col as int,
            trailing: self.trailing_newline,
            modified: self.modified,
            undo: changes_of(self.undo@),
            redo: changes_of(self.redo@),
            pending: pending_of(self.pending_change),
            syntax: self.syntax@,
            origin: self.origin@,
        }
    }
}

impl DocView {
    /// What holds of every document: the cursor is on a line, and the history
    /// is exact.
    pub open spec fn wf(self) -> bool {
        &&& self.shaped()
        &&& self.exact()
    }

    /// Whether the changes can be taken back and made again exactly.
    pub open spec fn exact(self) -> bool {
        &&& history_exact(self.lines, self.pending_edits(), self.undo, self.redo, self.origin)
        &&& newline_kept(
            self.trailing,
            self.pending_newline(),
            self.undo,
            self.redo,
            self.origin,
        )
    }

    /// Whether the text ended in a newline when the change that is going on
    /// began.
    pub open spec fn pending_newline(self) -> Option<bool> {
        match self.pending {
            Some(pending) => Some(pending.before.trailing_newline),
            None => None,
        }
    }

    /// Whether the cursor is on a line, and the sizes are those of a machine.
    pub open spec fn shaped(self) -> bool {
        &&& 0 <= self.row < self.lines.len() <= usize::MAX
        &&& 0 <= self.col <= usize::MAX
        &&& forall|i: int| 0 <= i < self.lines.len() ==> (#[trigger] self.lines[i]).len() <= usize::MAX
        &&& self.syntax.wf(self.lines.len())
    }

    /// The line that the cursor is on.
    pub open spec fn line(self) -> Seq<u8> {
        self.lines[self.row]
    }

    /// The bytes of the document.
    pub open spec fn bytes(self) -> Seq<u8> {
        serialize(self.lines, self.trailing)
    }

    /// The last byte at which a cursor can stand in command mode.
    pub open spec fn last_col(self, row: int) -> int {
        less(self.lines[row].len() as int, 1)
    }

    /// The cursor at another place.
    pub open spec fn at(self, row: int, col: int) -> DocView {
        DocView { row, col, ..self }
    }

    /// The cursor on another line, its column kept within that line.
    pub open spec fn at_row(self, row: int) -> DocView {
        DocView { row, col: imin(self.col, self.last_col(row)), ..self }
    }

    /// What a change remembers besides the text.
    pub open spec fn state(self) -> EditorState {
        EditorState {
            row: self.row as usize,
            col: self.col as usize,
            trailing_newline: self.trailing,
            modified: self.modified,
        }
    }

    /// A change begins, unless one is going on already.
    pub open spec fn begun(self) -> DocView {
        match self.pending {
            Some(_) => self,
            None => DocView {
                pending: Some(PendingView { edits: Seq::empty(), before: self.state() }),
                ..self
            },
        }
    }

    /// The text is about to differ: what was taken back before can not be made
    /// again after the first edit of a change.
    pub open spec fn touched(self) -> DocView {
        let first = match self.pending {
            Some(pending) => pending.edits.len() == 0,
            None => false,
        };
        DocView {
            redo: if first {
                Seq::empty()
            } else {
                self.redo
            },
            modified: true,
            syntax: self.syntax.marked(true),
            ..self
        }
    }

    /// The change that is going on ends. It is kept where it did something.
    pub open spec fn ended(self) -> DocView {
        match self.pending {
            None => self,
            Some(pending) => DocView {
                pending: None,
                undo: if pending.edits.len() > 0 || pending.before.trailing_newline
                    != self.trailing {
                    self.undo.push(
                        ChangeView {
                            edits: pending.edits,
                            before: pending.before,
                            after: self.state(),
                        },
                    )
                } else {
                    self.undo
                },
                ..self
            },
        }
    }

    /// The edits of the change that is going on, with one more.
    pub open spec fn recorded(self, edits: Seq<EditView>) -> DocView {
        match self.pending {
            None => self,
            Some(pending) => DocView {
                pending: Some(PendingView { edits, ..pending }),
                ..self
            },
        }
    }

    /// The edits of the change that is going on.
    pub open spec fn pending_edits(self) -> Seq<EditView> {
        match self.pending {
            None => Seq::empty(),
            Some(pending) => pending.edits,
        }
    }

    /// Bytes of one line replaced, as part of the change that is going on.
    /// Replacing bytes by themselves is no edit.
    pub open spec fn bytes_replaced(
        self,
        row: int,
        start: int,
        end: int,
        inserted: Seq<u8>,
    ) -> DocView {
        let removed = self.lines[row].subrange(start, end);
        if removed == inserted {
            self
        } else {
            DocView {
                lines: self.lines.update(row, splice(self.lines[row], start, end, inserted)),
                syntax: self.syntax.bytes_edited(
                    row,
                    start,
                    removed.len() as int,
                    inserted.len() as int,
                ),
                ..self
            }.touched().recorded(with_bytes(self.pending_edits(), row, start, removed, inserted))
        }
    }

    /// Whole lines replaced, as part of the change that is going on. Replacing
    /// lines by themselves is no edit.
    pub open spec fn lines_replaced(self, start: int, end: int, inserted: Seq<Seq<u8>>) -> DocView {
        let removed = self.lines.subrange(start, end);
        if removed == inserted {
            self
        } else {
            let after = splice(self.lines, start, end, inserted);
            DocView {
                lines: after,
                syntax: self.syntax.lines_edited(self.lines, start, removed, inserted, after),
                ..self
            }.touched().recorded(
                self.pending_edits().push(EditView::Lines { start, removed, inserted }),
            )
        }
    }

    /// Lines deleted, as part of a change, and the cursor put behind them. The
    /// last line of all becomes empty instead.
    pub open spec fn lines_deleted(self, start: int, end: int) -> DocView {
        let last = imin(end, self.lines.len() - 1);
        let whole = start == 0 && last + 1 == self.lines.len();
        let cut = if start <= last {
            self.begun().lines_replaced(
                start,
                last + 1,
                if whole {
                    seq![Seq::empty()]
                } else {
                    Seq::empty()
                },
            )
        } else {
            self.begun()
        };
        cut.at_row(imin(start, cut.lines.len() - 1))
    }

    /// The cursor and the flags as a change remembered them.
    pub open spec fn restored(self, state: EditorState) -> DocView {
        let row = imin(state.row as int, self.lines.len() - 1);
        DocView {
            row,
            col: imin(state.col as int, self.lines[row].len() as int),
            trailing: state.trailing_newline,
            modified: state.modified,
            syntax: self.syntax.marked(true).cleared(),
            ..self
        }
    }

    /// A change made again or taken back.
    pub open spec fn applied(self, change: ChangeView, forward: bool) -> DocView {
        DocView { lines: with_change(self.lines, change.edits, forward), ..self }.restored(
            if forward {
                change.after
            } else {
                change.before
            },
        )
    }

    /// The text that taking all changes back leads to, once a change is taken
    /// back or made again: there is none where another one is going on.
    pub open spec fn origin_after(self) -> Option<Origin> {
        if self.pending_edits().len() == 0 {
            self.origin
        } else {
            None
        }
    }

    /// The latest change taken back.
    pub open spec fn undone(self) -> DocView {
        if self.undo.len() == 0 {
            self
        } else {
            let change = self.undo.last();
            let back = DocView { undo: self.undo.drop_last(), ..self }.applied(change, false);
            DocView { redo: back.redo.push(change), origin: self.origin_after(), ..back }
        }
    }

    /// The change that was taken back last, made again.
    pub open spec fn redone(self) -> DocView {
        if self.redo.len() == 0 {
            self
        } else {
            let change = self.redo.last();
            let again = DocView { redo: self.redo.drop_last(), ..self }.applied(change, true);
            DocView { undo: again.undo.push(change), origin: self.origin_after(), ..again }
        }
    }

    /// Whether there is no change, finished, taken back or going on.
    pub open spec fn unchanged(self) -> bool {
        self.undo.len() == 0 && self.redo.len() == 0 && self.pending is None
    }

    /// The last line ends in a newline.
    pub open spec fn newline_ended(self) -> DocView {
        DocView {
            trailing: true,
            origin: if self.unchanged() {
                Some(Origin { lines: self.lines, trailing: true })
            } else {
                None
            },
            ..self
        }
    }

    /// Another text put in place of this one. The history stays.
    pub open spec fn loaded(self, data: Seq<u8>) -> DocView {
        DocView {
            lines: lines_of(data),
            trailing: ends_with_newline(data),
            row: 0,
            col: 0,
            syntax: self.syntax.marked(false).cleared(),
            origin: if self.unchanged() {
                Some(Origin { lines: lines_of(data), trailing: ends_with_newline(data) })
            } else {
                None
            },
            ..self
        }
    }

    /// A document with the given bytes and nothing else.
    pub open spec fn of_bytes(data: Seq<u8>) -> DocView {
        DocView {
            lines: lines_of(data),
            row: 0,
            col: 0,
            trailing: ends_with_newline(data),
            modified: false,
            undo: Seq::empty(),
            redo: Seq::empty(),
            pending: None,
            syntax: SyntaxView::empty(),
            origin: Some(Origin { lines: lines_of(data), trailing: ends_with_newline(data) }),
        }
    }

    /// Where a line starts: from the recorded line starts where there are any,
    /// else counted.
    pub open spec fn line_start(self, line: int) -> int {
        if line < self.syntax.line_offsets.len() {
            self.syntax.line_offset(line)
        } else {
            fit(offset_of_line(self.lines, line))
        }
    }

    /// The bytes of the document that `body` rows from line `top` on show.
    pub open spec fn visible_range(self, top: int, body: int) -> (int, int) {
        let first = imin(top, self.lines.len() as int);
        let last = imin(fit(first + body), self.lines.len() as int);
        let start = self.line_start(first);
        (
            start,
            if last == 0 {
                start
            } else {
                fit(self.line_start(last - 1) + self.lines[last - 1].len())
            },
        )
    }
}

impl Document {
    /// A document with the given bytes.
    pub fn from_bytes(data: &[u8]) -> (r: Self)
        ensures
            r@ == DocView::of_bytes(data@),
            r@.wf(),
    {
        proof {
            crate::text::lemma_lines_of_len(data@);
        }
        let lines = data_lines(data);
        let r = Document {
            lines,
            row: 0,
            col: 0,
            trailing_newline: has_final_newline(data),
            modified: false,
            undo: Vec::new(),
            redo: Vec::new(),
            pending_change: None,
            syntax: Syntax::empty(),
            origin: Ghost(DocView::of_bytes(data@).origin),
        };
        assert(r@ =~= DocView::of_bytes(data@));
        proof {
            lemma_history_begins(r@.lines, r@.trailing);
        }
        assert(r.lines.len() == r@.lines.len());
        assert forall|i: int| 0 <= i < r@.lines.len() implies (#[trigger] r@.lines[i]).len()
            <= usize::MAX by {
            assert(r.lines@[i].len() == r@.lines[i].len());
        }
        r
    }

    /// The bytes of the document.
    pub fn bytes(&self) -> (r: Vec<u8>)
        ensures
            r@ == self@.bytes(),
    {
        serialize_lines(&self.lines, self.trailing_newline)
    }

    /// What a change remembers besides the text.
    pub fn state(&self) -> (r: EditorState)
        ensures
            r == self@.state(),
    {
        EditorState {
            row: self.row,
            col: self.col,
            trailing_newline: self.trailing_newline,
            modified: self.modified,
        }
    }

    /// Begins a change, unless one is going on already.
    pub fn begin_change(&mut self)
        ensures
            final(self)@ == old(self)@.begun(),
            old(self)@.wf() ==> final(self)@.wf(),
            unedited(*old(self), *final(self)),
    {
        proof {
            if old(self)@.exact() {
                lemma_newline_followed(
                    old(self)@.trailing,
                    old(self)@.pending_newline(),
                    old(self)@.undo,
                    old(self)@.redo,
                    old(self)@.origin,
                );
            }
        }
        if self.pending_change.is_none() {
            let before = self.state();
            self.pending_change = Some(PendingChange { edits: Vec::new(), before });
            assert(self@ =~= old(self)@.begun());
        }
    }

    /// Notes that the text is about to differ.
    fn touch(&mut self)
        ensures
            final(self)@ == old(self)@.touched(),
            final(self).lines == old(self).lines,
            told_once(old(self).syntax.highlighter, final(self).syntax.highlighter),
            final(self).syntax.highlighter is Some ==> (final(self).syntax.edited_at matches Some(
                time,
            ) && may_be_now(time)),
    {
        let first = match self.pending_change.as_ref() {
            Some(pending) => pending.edits.len() == 0,
            None => false,
        };
        if first {
            self.redo = Vec::new();
        }
        self.modified = true;
        self.syntax.mark_dirty(true);
        assert(self@ =~= old(self)@.touched());
    }

    /// Ends the change that is going on. It is kept where it did something.
    pub fn end_change(&mut self)
        ensures
            final(self)@ == old(self)@.ended(),
            old(self)@.exact() ==> final(self)@.exact(),
            unedited(*old(self), *final(self)),
    {
        proof {
            if old(self)@.exact() {
                lemma_newline_followed(
                    old(self)@.trailing,
                    old(self)@.pending_newline(),
                    old(self)@.undo,
                    old(self)@.redo,
                    old(self)@.origin,
                );
            }
        }
        if let Some(pending) = self.pending_change.take() {
            if pending.edits.len() > 0 || pending.before.trailing_newline != self.trailing_newline {
                let after = self.state();
                self.undo.push(Change { edits: pending.edits, before: pending.before, after });
            }
        }
        assert(self@ =~= old(self)@.ended());
        proof {
            let before = old(self)@;
            if before.exact() && before.pending is Some {
                if self@.undo.len() == before.undo.len() {
                    assert(before.pending_edits() =~= Seq::<EditView>::empty());
                } else {
                    lemma_history_ended(
                        before.lines,
                        before.undo,
                        before.redo,
                        before.origin,
                        self@.undo.last(),
                    );
                    assert(self@.undo =~= before.undo.push(self@.undo.last()));
                }
            }
        }
    }

    /// Records a replacement of bytes in the change that is going on.
    fn record_bytes(&mut self, row: usize, start: usize, removed: Vec<u8>, inserted: Vec<u8>)
        requires
            old(self)@.pending is Some,
        ensures
            final(self)@ == old(self)@.recorded(
                with_bytes(
                    old(self)@.pending_edits(),
                    row as int,
                    start as int,
                    removed@,
                    inserted@,
                ),
            ),
            unedited(*old(self), *final(self)),
    {
        let ghost before = self@;
        if let Some(pending) = self.pending_change.take() {
            let mut pending = pending;
            let ghost edits = edits_of(pending.edits@);
            match pending.edits.pop() {
                Some(last) => {
                    assert(edits.drop_last() =~= edits_of(pending.edits@));
                    assert(edits.last() == last@);
                    match last {
                        Edit::Bytes {
                            row: last_row,
                            start: last_start,
                            removed: gone,
                            inserted: come,
                        } => {
                            let joins = last_row == row && start >= last_start && start - last_start
                                == come.len() && ((gone.len() == 0 && removed.len() == 0) || (
                            gone.len() == come.len() && removed.len() == inserted.len()));
                            assert(joins == contiguous(
                                edits,
                                row as int,
                                start as int,
                                removed@,
                                inserted@,
                            ));
                            if joins {
                                let mut gone = gone;
                                let mut come = come;
                                crate::bytes::push_all(&mut gone, &removed);
                                crate::bytes::push_all(&mut come, &inserted);
                                pending.edits.push(
                                    Edit::Bytes {
                                        row: last_row,
                                        start: last_start,
                                        removed: gone,
                                        inserted: come,
                                    },
                                );
                            } else {
                                pending.edits.push(
                                    Edit::Bytes {
                                        row: last_row,
                                        start: last_start,
                                        removed: gone,
                                        inserted: come,
                                    },
                                );
                                pending.edits.push(Edit::Bytes { row, start, removed, inserted });
                            }
                        },
                        Edit::Lines { start: first, removed: gone, inserted: come } => {
                            pending.edits.push(
                                Edit::Lines { start: first, removed: gone, inserted: come },
                            );
                            pending.edits.push(Edit::Bytes { row, start, removed, inserted });
                        },
                    }
                },
                None => {
                    pending.edits.push(Edit::Bytes { row, start, removed, inserted });
                },
            }
            assert(edits_of(pending.edits@) =~= with_bytes(
                edits,
                row as int,
                start as int,
                removed@,
                inserted@,
            ));
            self.pending_change = Some(pending);
        }
    }

    /// Replaces the bytes of `row` from `start` up to `end`, as part of the
    /// change that is going on, and returns what was there.
    pub fn replace_bytes(&mut self, row: usize, start: usize, end: usize, inserted: Vec<u8>) -> (r:
        Vec<u8>)
        requires
            old(self)@.wf(),
            old(self)@.pending is Some,
            row < old(self)@.lines.len(),
            start <= end <= old(self)@.lines[row as int].len(),
        ensures
            final(self)@ == old(self)@.bytes_replaced(
                row as int,
                start as int,
                end as int,
                inserted@,
            ),
            final(self)@.wf(),
            final(self)@.origin == old(self)@.origin,
            r@ == old(self)@.lines[row as int].subrange(start as int, end as int),
            told_of_edits(*old(self), *final(self)),
    {
        proof {
            if old(self)@.exact() {
                lemma_newline_followed(
                    old(self)@.trailing,
                    old(self)@.pending_newline(),
                    old(self)@.undo,
                    old(self)@.redo,
                    old(self)@.origin,
                );
            }
        }
        let ghost before = self@;
        let removed = copy_range(&self.lines[row], start, end);
        if same_bytes(&removed, &inserted) {
            return removed;
        }
        self.syntax.edit_bytes(row, start, removed.len(), inserted.len());
        splice_bytes(&mut self.lines[row], start, end, &inserted);
        assert(self@.lines =~= before.lines.update(
            row as int,
            splice(before.lines[row as int], start as int, end as int, inserted@),
        ));
        self.touch();
        let result = copy_bytes(&removed);
        self.record_bytes(row, start, removed, inserted);
        proof {
            assert(self@ =~= before.bytes_replaced(row as int, start as int, end as int, inserted@));
            lemma_one_noted(
                (old(self).lines, old(self).trailing_newline),
                old(self).syntax,
                (self.lines, self.trailing_newline),
                self.syntax,
            );
            self.lemma_line_lengths();
            let edit = EditView::Bytes {
                row: row as int,
                start: start as int,
                removed: result@,
                inserted: inserted@,
            };
            lemma_history_edited(
                before.lines,
                before.pending_edits(),
                before.undo,
                before.redo,
                before.origin,
                edit,
            );
            assert(self@.lines =~= with_edit(before.lines, edit, true));
        }
        result
    }

    /// The lengths of the lines are machine lengths.
    proof fn lemma_line_lengths(&self)
        ensures
            self@.lines.len() <= usize::MAX,
            forall|i: int|
                0 <= i < self@.lines.len() ==> (#[trigger] self@.lines[i]).len() <= usize::MAX,
    {
        assert(self.lines.len() == self@.lines.len());
        assert forall|i: int| 0 <= i < self@.lines.len() implies (#[trigger] self@.lines[i]).len()
            <= usize::MAX by {
            assert(self.lines@[i].len() == self@.lines[i].len());
        }
    }

    /// Replaces the lines from `start` up to `end`, as part of the change that
    /// is going on. The cursor has to be on a line afterwards.
    pub fn replace_lines(&mut self, start: usize, end: usize, inserted: Vec<Vec<u8>>)
        requires
            old(self)@.wf(),
            old(self)@.pending is Some,
            start <= end <= old(self)@.lines.len(),
            old(self)@.lines.len() - (end - start) + inserted@.len() > 0,
        ensures
            final(self)@ == old(self)@.lines_replaced(
                start as int,
                end as int,
                text_of(inserted@),
            ),
            0 < final(self)@.lines.len() <= usize::MAX,
            forall|i: int|
                0 <= i < final(self)@.lines.len() ==> (#[trigger] final(self)@.lines[i]).len()
                    <= usize::MAX,
            final(self)@.syntax.wf(final(self)@.lines.len()),
            final(self)@.exact(),
            told_of_edits(*old(self), *final(self)),
    {
        proof {
            if old(self)@.exact() {
                lemma_newline_followed(
                    old(self)@.trailing,
                    old(self)@.pending_newline(),
                    old(self)@.undo,
                    old(self)@.redo,
                    old(self)@.origin,
                );
            }
        }
        let ghost before = self@;
        let removed = copy_lines(&self.lines, start, end);
        if same_lines(&removed, &inserted) {
            return;
        }
        self.syntax.edit_lines(&self.lines, start, &removed, &inserted);
        let copy = copy_lines(&inserted, 0, inserted.len());
        assert(text_of(inserted@).subrange(0, inserted@.len() as int) =~= text_of(inserted@));
        splice_lines(&mut self.lines, start, end, copy);
        self.syntax.lines_replaced(&self.lines);
        assert(self@.syntax == before.syntax.lines_edited(
            before.lines,
            start as int,
            text_of(removed@),
            text_of(inserted@),
            self@.lines,
        ));
        self.touch();
        let ghost touched = self@;
        if let Some(pending) = self.pending_change.take() {
            let mut pending = pending;
            let ghost edits = edits_of(pending.edits@);
            pending.edits.push(Edit::Lines { start, removed, inserted });
            assert(edits_of(pending.edits@) =~= edits.push(
                EditView::Lines {
                    start: start as int,
                    removed: text_of(removed@),
                    inserted: text_of(inserted@),
                },
            ));
            self.pending_change = Some(pending);
        }
        proof {
            assert(self@ =~= before.lines_replaced(start as int, end as int, text_of(inserted@)));
            lemma_one_noted(
                (old(self).lines, old(self).trailing_newline),
                old(self).syntax,
                (self.lines, self.trailing_newline),
                self.syntax,
            );
            self.lemma_line_lengths();
            let edit = EditView::Lines {
                start: start as int,
                removed: text_of(removed@),
                inserted: text_of(inserted@),
            };
            lemma_history_edited(
                before.lines,
                before.pending_edits(),
                before.undo,
                before.redo,
                before.origin,
                edit,
            );
            assert(self@.lines =~= with_edit(before.lines, edit, true));
        }
    }

    /// Deletes the lines from `start` to `end`, as part of a change, and puts
    /// the cursor behind them.
    pub fn delete_lines(&mut self, start: usize, end: usize)
        requires
            old(self)@.wf(),
        ensures
            final(self)@ == old(self)@.lines_deleted(start as int, end as int),
            final(self)@.wf(),
            final(self)@.origin == old(self)@.origin,
            told_of_edits(*old(self), *final(self)),
    {
        self.begin_change();
        let last: usize = min_of(end, self.lines.len() - 1);
        if start <= last {
            let replacement: Vec<Vec<u8>> = if start == 0 && last + 1 == self.lines.len() {
                one_line(Vec::new())
            } else {
                Vec::new()
            };
            assert(text_of(Seq::<Vec<u8>>::empty()) =~= Seq::<Seq<u8>>::empty());
            self.replace_lines(start, last + 1, replacement);
        }
        let row: usize = min_of(start, self.lines.len() - 1);
        self.move_to_row(row);
    }

    /// Puts the cursor on another line, its column kept within that line.
    pub fn move_to_row(&mut self, row: usize)
        requires
            row < old(self)@.lines.len(),
        ensures
            final(self)@ == old(self)@.at_row(row as int),
            unedited(*old(self), *final(self)),
    {
        self.row = row;
        self.col = min_of(self.col, less_of(self.lines[row].len(), 1));
    }

    /// Brings back the cursor and the flags that a change remembered.
    fn restore_state(&mut self, state: EditorState)
        requires
            old(self)@.lines.len() > 0,
        ensures
            final(self)@ == old(self)@.restored(state),
            final(self).lines == old(self).lines,
            told_once(old(self).syntax.highlighter, final(self).syntax.highlighter),
            final(self).syntax.highlighter is Some ==> (final(self).syntax.edited_at matches Some(
                time,
            ) && may_be_now(time)),
    {
        self.row = min_of(state.row, self.lines.len() - 1);
        self.col = min_of(state.col, self.lines[self.row].len());
        self.trailing_newline = state.trailing_newline;
        self.modified = state.modified;
        self.syntax.mark_dirty(true);
        self.syntax.clear_ranges();
    }

    /// Makes a change again or takes it back.
    pub fn apply_change(&mut self, change: &Change, forward: bool)
        requires
            old(self)@.shaped(),
        ensures
            final(self)@ == old(self)@.applied(change@, forward),
            final(self)@.shaped(),
            told_of_edits(*old(self), *final(self)),
    {
        apply_edits(&mut self.lines, &change.edits, forward);
        self.restore_state(
            if forward {
                change.after
            } else {
                change.before
            },
        );
        proof {
            self.lemma_line_lengths();
            lemma_one_noted(
                (old(self).lines, old(self).trailing_newline),
                old(self).syntax,
                (self.lines, self.trailing_newline),
                self.syntax,
            );
        }
    }

    /// Takes the latest change back; whether there was one.
    pub fn undo_change(&mut self) -> (r: bool)
        requires
            old(self)@.wf(),
        ensures
            final(self)@ == old(self)@.undone(),
            final(self)@.wf(),
            r == (old(self)@.undo.len() > 0),
            told_of_edits(*old(self), *final(self)),
    {
        proof {
            if old(self)@.exact() {
                lemma_newline_followed(
                    old(self)@.trailing,
                    old(self)@.pending_newline(),
                    old(self)@.undo,
                    old(self)@.redo,
                    old(self)@.origin,
                );
            }
        }
        let ghost before = self@;
        match self.undo.pop() {
            Some(change) => {
                assert(self@ =~= (DocView { undo: before.undo.drop_last(), ..before }));
                assert(change@ == before.undo.last());
                self.apply_change(&change, false);
                let ghost back = self@;
                self.redo.push(change);
                self.origin = Ghost(before.origin_after());
                assert(self@ =~= (DocView {
                    redo: back.redo.push(change@),
                    origin: before.origin_after(),
                    ..back
                }));
                proof {
                    if before.pending_edits().len() == 0 {
                        assert(before.pending_edits() =~= Seq::<EditView>::empty());
                        lemma_history_undone(before.lines, before.undo, before.redo, before.origin);
                    } else {
                        reveal(history_exact);
                        reveal(newline_kept);
                    }
                }
                true
            },
            None => {
                assert(self@ =~= before);
                false
            },
        }
    }

    /// Makes the change again that was taken back last; whether there was one.
    pub fn redo_change(&mut self) -> (r: bool)
        requires
            old(self)@.wf(),
        ensures
            final(self)@ == old(self)@.redone(),
            final(self)@.wf(),
            r == (old(self)@.redo.len() > 0),
            told_of_edits(*old(self), *final(self)),
    {
        proof {
            if old(self)@.exact() {
                lemma_newline_followed(
                    old(self)@.trailing,
                    old(self)@.pending_newline(),
                    old(self)@.undo,
                    old(self)@.redo,
                    old(self)@.origin,
                );
            }
        }
        let ghost before = self@;
        match self.redo.pop() {
            Some(change) => {
                assert(self@ =~= (DocView { redo: before.redo.drop_last(), ..before }));
                assert(change@ == before.redo.last());
                self.apply_change(&change, true);
                let ghost again = self@;
                self.undo.push(change);
                self.origin = Ghost(before.origin_after());
                assert(self@ =~= (DocView {
                    undo: again.undo.push(change@),
                    origin: before.origin_after(),
                    ..again
                }));
                proof {
                    if before.pending_edits().len() == 0 {
                        assert(before.pending_edits() =~= Seq::<EditView>::empty());
                        lemma_history_redone(before.lines, before.undo, before.redo, before.origin);
                    } else {
                        reveal(history_exact);
                        reveal(newline_kept);
                    }
                }
                true
            },
            None => {
                assert(self@ =~= before);
                false
            },
        }
    }

    /// Puts another text in place of this one.
    pub fn set_bytes(&mut self, data: &[u8])
        requires
            old(self)@.wf(),
        ensures
            final(self)@ == old(self)@.loaded(data@),
            final(self)@.wf(),
            told_of_edits(*old(self), *final(self)),
    {
        proof {
            crate::text::lemma_lines_of_len(data@);
        }
        self.trailing_newline = has_final_newline(data);
        self.lines = data_lines(data);
        self.row = 0;
        self.col = 0;
        self.syntax.mark_dirty(false);
        self.syntax.clear_ranges();
        self.origin = Ghost(old(self)@.loaded(data@).origin);
        proof {
            self.lemma_line_lengths();
            lemma_one_noted(
                (old(self).lines, old(self).trailing_newline),
                old(self).syntax,
                (self.lines, self.trailing_newline),
                self.syntax,
            );
            if self.origin@ is Some {
                assert(self@.pending_edits() =~= Seq::<EditView>::empty());
                assert(self@.undo =~= Seq::<ChangeView>::empty());
                assert(self@.redo =~= Seq::<ChangeView>::empty());
                lemma_history_begins(self@.lines, self@.trailing);
            } else {
                reveal(history_exact);
                reveal(newline_kept);
            }
        }
    }

    /// Lets the last line end in a newline.
    pub fn end_with_newline(&mut self)
        requires
            old(self)@.wf(),
        ensures
            final(self)@ == old(self)@.newline_ended(),
            final(self)@.wf(),
            final(self).lines == old(self).lines,
            final(self).syntax == old(self).syntax,
    {
        self.trailing_newline = true;
        self.origin = Ghost(old(self)@.newline_ended().origin);
        proof {
            if self.origin@ is Some {
                assert(self@.pending_edits() =~= Seq::<EditView>::empty());
                assert(self@.undo =~= Seq::<ChangeView>::empty());
                assert(self@.redo =~= Seq::<ChangeView>::empty());
                lemma_history_begins(self@.lines, true);
            } else {
                reveal(history_exact);
                reveal(newline_kept);
            }
        }
    }

    /// Where a line starts.
    fn line_start_of(&self, line: usize) -> (r: usize)
        requires
            line <= self@.lines.len(),
        ensures
            r == self@.line_start(line as int),
    {
        if line < self.syntax.line_offsets.len() {
            self.syntax.line_offset_of(line)
        } else {
            let offset: u128 = offset_before(&self.lines, line);
            if offset > usize::MAX as u128 {
                usize::MAX
            } else {
                offset as usize
            }
        }
    }

    /// The bytes of the document that `body` rows from line `top` on show.
    pub fn visible_byte_range(&self, top: usize, body: usize) -> (r: (usize, usize))
        requires
            self@.wf(),
        ensures
            (r.0 as int, r.1 as int) == self@.visible_range(top as int, body as int),
    {
        let count: usize = self.lines.len();
        let first: usize = min_of(top, count);
        let last: usize = min_of(plus_of(first, body), count);
        let start: usize = self.line_start_of(first);
        if last == 0 {
            (start, start)
        } else {
            (start, plus_of(self.line_start_of(last - 1), self.lines[last - 1].len()))
        }
    }
}

} // verus!
