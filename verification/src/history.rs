//! Edits as they are kept for undo and redo: what was replaced by what.
use crate::bytes::{copy_lines, imin, min_of, splice, splice_bytes, splice_lines, text_of};
use vstd::prelude::*;

verus! {

/// What a change remembers besides the text: the cursor, whether the text ends
/// in a newline, and whether it differs from the file.
#[derive(Clone, Copy, Debug, PartialEq, Eq)]
pub struct EditorState {
    pub row: usize,
    pub col: usize,
    pub trailing_newline: bool,
    pub modified: bool,
}

/// One edit: bytes of one line, or whole lines.
#[derive(Debug)]
#[allow(inconsistent_fields)]
pub enum Edit {
    Bytes { row: usize, start: usize, removed: Vec<u8>, inserted: Vec<u8> },
    Lines { start: usize, removed: Vec<Vec<u8>>, inserted: Vec<Vec<u8>> },
}

/// An edit as a value.
#[verifier::ext_equal]
#[allow(inconsistent_fields)]
pub enum EditView {
    Bytes { row: int, start: int, removed: Seq<u8>, inserted: Seq<u8> },
    Lines { start: int, removed: Seq<Seq<u8>>, inserted: Seq<Seq<u8>> },
}

impl View for Edit {
    type V = EditView;

    open spec fn view(&self) -> EditView {
        match *self {
            Edit::Bytes { row, start, removed, inserted } => EditView::Bytes {
                row: row as int,
                start: start as int,
                removed: removed@,
                inserted: inserted@,
            },
            Edit::Lines { start, removed, inserted } => EditView::Lines {
                start: start as int,
                removed: text_of(removed@),
                inserted: text_of(inserted@),
            },
        }
    }
}

/// A list of edits as values.
pub open spec fn edits_of(edits: Seq<Edit>) -> Seq<EditView> {
    Seq::new(edits.len(), |i: int| edits[i]@)
}

/// A finished change: what one undo takes back.
#[derive(Debug)]
pub struct Change {
    pub edits: Vec<Edit>,
    pub before: EditorState,
    pub after: EditorState,
}

/// A finished change as a value.
#[verifier::ext_equal]
pub struct ChangeView {
    pub edits: Seq<EditView>,
    pub before: EditorState,
    pub after: EditorState,
}

impl View for Change {
    type V = ChangeView;

    open spec fn view(&self) -> ChangeView {
        ChangeView { edits: edits_of(self.edits@), before: self.before, after: self.after }
    }
}

/// A list of changes as values.
pub open spec fn changes_of(changes: Seq<Change>) -> Seq<ChangeView> {
    Seq::new(changes.len(), |i: int| changes[i]@)
}

/// A change that is still going on.
#[derive(Debug)]
pub struct PendingChange {
    pub edits: Vec<Edit>,
    pub before: EditorState,
}

/// A change that is still going on, as a value.
#[verifier::ext_equal]
pub struct PendingView {
    pub edits: Seq<EditView>,
    pub before: EditorState,
}

impl View for PendingChange {
    type V = PendingView;

    open spec fn view(&self) -> PendingView {
        PendingView { edits: edits_of(self.edits@), before: self.before }
    }
}

/// The change that is going on, if any.
pub open spec fn pending_of(pending: Option<PendingChange>) -> Option<PendingView> {
    match pending {
        Some(change) => Some(change@),
        None => None,
    }
}

/// Whether replacing bytes of `row` at `start` goes on where the last edit
/// stopped: both only insert, or both overwrite byte for byte.
pub open spec fn contiguous(
    edits: Seq<EditView>,
    row: int,
    start: int,
    removed: Seq<u8>,
    inserted: Seq<u8>,
) -> bool {
    edits.len() > 0 && match edits.last() {
        EditView::Bytes { row: last_row, start: last_start, removed: gone, inserted: come } => {
            &&& last_row == row
            &&& start == last_start + come.len()
            &&& (gone.len() == 0 && removed.len() == 0) || (gone.len() == come.len()
                && removed.len() == inserted.len())
        },
        EditView::Lines { .. } => false,
    }
}

/// The edits with one more replacement of bytes: joined to the last edit where
/// it goes on where that one stopped.
pub open spec fn with_bytes(
    edits: Seq<EditView>,
    row: int,
    start: int,
    removed: Seq<u8>,
    inserted: Seq<u8>,
) -> Seq<EditView> {
    if contiguous(edits, row, start, removed, inserted) {
        match edits.last() {
            EditView::Bytes { row: last_row, start: last_start, removed: gone, inserted: come } =>
            edits.drop_last().push(
                EditView::Bytes {
                    row: last_row,
                    start: last_start,
                    removed: gone + removed,
                    inserted: come + inserted,
                },
            ),
            EditView::Lines { .. } => edits,
        }
    } else {
        edits.push(EditView::Bytes { row, start, removed, inserted })
    }
}

/// The text with at most the lines from `start` on replaced: a range that
/// reaches beyond the text is cut off there, and a text is never left without
/// a line.
pub open spec fn put_lines(
    lines: Seq<Seq<u8>>,
    start: int,
    old_len: int,
    new: Seq<Seq<u8>>,
) -> Seq<Seq<u8>> {
    let first = imin(start, lines.len() as int);
    let last = imin(start + old_len, lines.len() as int);
    let result = splice(lines, first, last, new);
    if result.len() == 0 {
        seq![Seq::empty()]
    } else {
        result
    }
}

/// The text with at most the bytes of `row` from `start` on replaced: a range
/// that reaches beyond the line is cut off there.
pub open spec fn put_bytes(
    lines: Seq<Seq<u8>>,
    row: int,
    start: int,
    old_len: int,
    new: Seq<u8>,
) -> Seq<Seq<u8>> {
    if 0 <= row < lines.len() {
        let length = lines[row].len() as int;
        lines.update(
            row,
            splice(lines[row], imin(start, length), imin(start + old_len, length), new),
        )
    } else {
        lines
    }
}

/// The text after one edit is made again (`forward`) or taken back.
pub open spec fn with_edit(lines: Seq<Seq<u8>>, edit: EditView, forward: bool) -> Seq<Seq<u8>> {
    match edit {
        EditView::Bytes { row, start, removed, inserted } => if forward {
            put_bytes(lines, row, start, removed.len() as int, inserted)
        } else {
            put_bytes(lines, row, start, inserted.len() as int, removed)
        },
        EditView::Lines { start, removed, inserted } => if forward {
            put_lines(lines, start, removed.len() as int, inserted)
        } else {
            put_lines(lines, start, inserted.len() as int, removed)
        },
    }
}

/// The text after all edits are made again, first to last.
pub open spec fn redone(lines: Seq<Seq<u8>>, edits: Seq<EditView>) -> Seq<Seq<u8>>
    decreases edits.len(),
{
    if edits.len() == 0 {
        lines
    } else {
        with_edit(redone(lines, edits.drop_last()), edits.last(), true)
    }
}

/// The text after all edits are taken back, last to first.
pub open spec fn undone(lines: Seq<Seq<u8>>, edits: Seq<EditView>) -> Seq<Seq<u8>>
    decreases edits.len(),
{
    if edits.len() == 0 {
        lines
    } else {
        undone(with_edit(lines, edits.last(), false), edits.drop_last())
    }
}

/// The text after a change is made again or taken back.
pub open spec fn with_change(lines: Seq<Seq<u8>>, edits: Seq<EditView>, forward: bool) -> Seq<
    Seq<u8>,
> {
    if forward {
        redone(lines, edits)
    } else {
        undone(lines, edits)
    }
}

/// Redoing never leaves a text without a line.
pub proof fn lemma_with_edit_nonempty(lines: Seq<Seq<u8>>, edit: EditView, forward: bool)
    requires
        lines.len() > 0,
    ensures
        with_edit(lines, edit, forward).len() > 0,
{
}

fn put_line_range(lines: &mut Vec<Vec<u8>>, start: usize, old_len: usize, new: Vec<Vec<u8>>)
    ensures
        text_of(final(lines)@) == put_lines(
            text_of(old(lines)@),
            start as int,
            old_len as int,
            text_of(new@),
        ),
{
    let count: usize = lines.len();
    let first: usize = min_of(start, count);
    let last: usize = if old_len > count - first {
        count
    } else {
        first + old_len
    };
    splice_lines(lines, first, last, new);
    if lines.len() == 0 {
        lines.push(Vec::new());
        assert(text_of(lines@) =~= seq![Seq::<u8>::empty()]);
    }
}

fn put_byte_range(lines: &mut Vec<Vec<u8>>, row: usize, start: usize, old_len: usize, new: &[u8])
    ensures
        text_of(final(lines)@) == put_bytes(
            text_of(old(lines)@),
            row as int,
            start as int,
            old_len as int,
            new@,
        ),
{
    if row >= lines.len() {
        return;
    }
    let length: usize = lines[row].len();
    let first: usize = min_of(start, length);
    let last: usize = if old_len > length - first {
        length
    } else {
        first + old_len
    };
    splice_bytes(&mut lines[row], first, last, new);
    assert(text_of(lines@) =~= put_bytes(
        text_of(old(lines)@),
        row as int,
        start as int,
        old_len as int,
        new@,
    ));
}

/// Makes one edit again or takes it back.
pub fn apply_edit(lines: &mut Vec<Vec<u8>>, edit: &Edit, forward: bool)
    ensures
        text_of(final(lines)@) == with_edit(text_of(old(lines)@), edit@, forward),
{
    match edit {
        Edit::Bytes { row, start, removed, inserted } => {
            if forward {
                put_byte_range(lines, *row, *start, removed.len(), inserted);
            } else {
                put_byte_range(lines, *row, *start, inserted.len(), removed);
            }
        },
        Edit::Lines { start, removed, inserted } => {
            if forward {
                put_line_range(
                    lines,
                    *start,
                    removed.len(),
                    copy_lines(inserted, 0, inserted.len()),
                );
            } else {
                put_line_range(
                    lines,
                    *start,
                    inserted.len(),
                    copy_lines(removed, 0, removed.len()),
                );
            }
            assert(text_of(inserted@).subrange(0, inserted@.len() as int) =~= text_of(inserted@));
            assert(text_of(removed@).subrange(0, removed@.len() as int) =~= text_of(removed@));
        },
    }
}

/// Makes all edits again in order, or takes them back in reverse order.
pub fn apply_edits(lines: &mut Vec<Vec<u8>>, edits: &Vec<Edit>, forward: bool)
    requires
        old(lines)@.len() > 0,
    ensures
        text_of(final(lines)@) == with_change(text_of(old(lines)@), edits_of(edits@), forward),
        final(lines)@.len() > 0,
{
    let ghost all = edits_of(edits@);
    let ghost start = text_of(lines@);
    let count: usize = edits.len();
    let mut i: usize = 0;
    assert(all.subrange(0, 0) =~= Seq::<EditView>::empty());
    assert(all.subrange(0, count as int) =~= all);
    while i < count
        invariant
            i <= count == edits@.len(),
            all == edits_of(edits@),
            text_of(lines@).len() > 0,
            forward ==> text_of(lines@) == redone(start, all.subrange(0, i as int)),
            !forward ==> undone(start, all) == undone(
                text_of(lines@),
                all.subrange(0, count - i),
            ),
        decreases count - i,
    {
        proof {
            assert(all.subrange(0, i + 1).drop_last() =~= all.subrange(0, i as int));
            assert(all.subrange(0, count - i).drop_last() =~= all.subrange(0, count - i - 1));
            lemma_with_edit_nonempty(text_of(lines@), all[i as int], true);
            lemma_with_edit_nonempty(text_of(lines@), all[count - i - 1], false);
        }
        if forward {
            apply_edit(lines, &edits[i], true);
        } else {
            apply_edit(lines, &edits[count - i - 1], false);
        }
        i += 1;
    }
    assert(all.subrange(0, 0) =~= Seq::<EditView>::empty());
    assert(text_of(lines@).len() == lines@.len());
}

/// Whether the text holds, at the place of an edit, what the edit replaces.
pub open spec fn edit_fits(lines: Seq<Seq<u8>>, edit: EditView) -> bool {
    match edit {
        EditView::Bytes { row, start, removed, inserted } => {
            &&& 0 <= row < lines.len()
            &&& 0 <= start
            &&& start + removed.len() <= lines[row].len()
            &&& lines[row].subrange(start, start + removed.len()) == removed
        },
        EditView::Lines { start, removed, inserted } => {
            &&& 0 <= start
            &&& start + removed.len() <= lines.len()
            &&& lines.subrange(start, start + removed.len()) == removed
            &&& lines.len() - removed.len() + inserted.len() > 0
            &&& lines.len() > 0
        },
    }
}

/// The edit the other way round.
pub open spec fn reversed(edit: EditView) -> EditView {
    match edit {
        EditView::Bytes { row, start, removed, inserted } => EditView::Bytes {
            row,
            start,
            removed: inserted,
            inserted: removed,
        },
        EditView::Lines { start, removed, inserted } => EditView::Lines {
            start,
            removed: inserted,
            inserted: removed,
        },
    }
}

/// Whether the text holds, at the place of an edit, what the edit put there.
pub open spec fn edit_made(lines: Seq<Seq<u8>>, edit: EditView) -> bool {
    edit_fits(lines, reversed(edit))
}

/// An edit that fits is there once it is made, and taking it back gives the
/// text as it was.
pub proof fn lemma_edit_taken_back(lines: Seq<Seq<u8>>, edit: EditView)
    requires
        edit_fits(lines, edit),
    ensures
        edit_made(with_edit(lines, edit, true), edit),
        with_edit(with_edit(lines, edit, true), edit, false) == lines,
{
    let made = with_edit(lines, edit, true);
    match edit {
        EditView::Bytes { row, start, removed, inserted } => {
            let line = lines[row];
            let end = start + removed.len();
            assert(made[row] == splice(line, start, end, inserted));
            assert(made[row].subrange(start, start + inserted.len()) =~= inserted);
            assert(splice(made[row], start, start + inserted.len(), removed) =~= line);
            assert(with_edit(made, edit, false) =~= lines);
        },
        EditView::Lines { start, removed, inserted } => {
            let end = start + removed.len();
            assert(made == splice(lines, start, end, inserted));
            assert(made.subrange(start, start + inserted.len()) =~= inserted);
            assert(splice(made, start, start + inserted.len(), removed) =~= lines);
        },
    }
}

/// An edit that is there fits again once it is taken back, and making it again
/// gives the text as it was.
pub proof fn lemma_edit_made_again(lines: Seq<Seq<u8>>, edit: EditView)
    requires
        edit_made(lines, edit),
    ensures
        edit_fits(with_edit(lines, edit, false), edit),
        with_edit(with_edit(lines, edit, false), edit, true) == lines,
{
    lemma_edit_taken_back(lines, reversed(edit));
    assert(reversed(reversed(edit)) == edit);
    assert(with_edit(lines, reversed(edit), true) == with_edit(lines, edit, false));
}

/// Whether the edits, made one after the other from the first to the last,
/// are there: each can be taken back exactly, from the last to the first.
pub open spec fn edits_made(lines: Seq<Seq<u8>>, edits: Seq<EditView>) -> bool
    decreases edits.len(),
{
    edits.len() > 0 ==> {
        &&& edit_made(lines, edits.last())
        &&& edits_made(with_edit(lines, edits.last(), false), edits.drop_last())
    }
}

/// Whether the edits can be made exactly, one after the other.
pub open spec fn edits_fit(lines: Seq<Seq<u8>>, edits: Seq<EditView>) -> bool
    decreases edits.len(),
{
    edits.len() > 0 ==> {
        &&& edits_fit(lines, edits.drop_last())
        &&& edit_fits(redone(lines, edits.drop_last()), edits.last())
    }
}

/// Making edits again after taking them back gives the text as it was.
pub proof fn lemma_redo_after_undo(lines: Seq<Seq<u8>>, edits: Seq<EditView>)
    requires
        edits_made(lines, edits),
    ensures
        edits_fit(undone(lines, edits), edits),
        redone(undone(lines, edits), edits) == lines,
    decreases edits.len(),
{
    if edits.len() > 0 {
        let back = with_edit(lines, edits.last(), false);
        lemma_redo_after_undo(back, edits.drop_last());
        lemma_edit_made_again(lines, edits.last());
    }
}

/// Taking edits back after making them gives the text as it was.
pub proof fn lemma_undo_after_redo(lines: Seq<Seq<u8>>, edits: Seq<EditView>)
    requires
        edits_fit(lines, edits),
    ensures
        edits_made(redone(lines, edits), edits),
        undone(redone(lines, edits), edits) == lines,
    decreases edits.len(),
{
    if edits.len() > 0 {
        lemma_undo_after_redo(lines, edits.drop_last());
        lemma_edit_taken_back(redone(lines, edits.drop_last()), edits.last());
    }
}

/// Recording a replacement of bytes keeps the list of edits exact: all of them
/// can be taken back, and that gives the same text as before the replacement,
/// also where the replacement is joined to the edit before it.
pub proof fn lemma_bytes_recorded(
    lines: Seq<Seq<u8>>,
    edits: Seq<EditView>,
    row: int,
    start: int,
    removed: Seq<u8>,
    inserted: Seq<u8>,
)
    requires
        edits_made(lines, edits),
        edit_fits(lines, EditView::Bytes { row, start, removed, inserted }),
    ensures
        edits_made(
            with_edit(lines, EditView::Bytes { row, start, removed, inserted }, true),
            with_bytes(edits, row, start, removed, inserted),
        ),
        undone(
            with_edit(lines, EditView::Bytes { row, start, removed, inserted }, true),
            with_bytes(edits, row, start, removed, inserted),
        ) == undone(lines, edits),
{
    let edit = EditView::Bytes { row, start, removed, inserted };
    let made = with_edit(lines, edit, true);
    let recorded = with_bytes(edits, row, start, removed, inserted);
    lemma_edit_taken_back(lines, edit);
    if contiguous(edits, row, start, removed, inserted) {
        match edits.last() {
            EditView::Bytes { row: last_row, start: last_start, removed: gone, inserted: come } => {
                let joined = EditView::Bytes {
                    row: last_row,
                    start: last_start,
                    removed: gone + removed,
                    inserted: come + inserted,
                };
                assert(recorded.last() == joined);
                assert(recorded.drop_last() =~= edits.drop_last());
                let line = lines[row];
                let end = start + removed.len();
                assert(made[row] == splice(line, start, end, inserted));
                assert(line.subrange(last_start, start) == come);
                assert(made[row].subrange(last_start, last_start + joined->Bytes_inserted.len())
                    =~= come + inserted) by {
                    assert forall|i: int| 0 <= i < come.len() implies #[trigger] line[last_start
                        + i] == come[i] by {
                        assert(line.subrange(last_start, start)[i] == come[i]);
                    }
                    assert(made[row].subrange(last_start, start) =~= come);
                }
                let back = with_edit(made, joined, false);
                assert(back[row] =~= splice(line, last_start, start, gone)) by {
                    assert forall|i: int| 0 <= i < removed.len() implies #[trigger] line[start + i]
                        == removed[i] by {
                        assert(line.subrange(start, end)[i] == removed[i]);
                    }
                }
                assert(back =~= with_edit(lines, edits.last(), false));
            },
            EditView::Lines { .. } => {},
        }
    } else {
        assert(recorded.drop_last() =~= edits);
    }
}

/// Recording a replacement of lines keeps the list of edits exact.
pub proof fn lemma_lines_recorded(lines: Seq<Seq<u8>>, edits: Seq<EditView>, edit: EditView)
    requires
        edits_made(lines, edits),
        edit_fits(lines, edit),
    ensures
        edits_made(with_edit(lines, edit, true), edits.push(edit)),
        undone(with_edit(lines, edit, true), edits.push(edit)) == undone(lines, edits),
{
    lemma_edit_taken_back(lines, edit);
    assert(edits.push(edit).drop_last() =~= edits);
}

/// Whether a list of changes can be taken back one after the other, the last
/// one first.
pub open spec fn undo_sound(lines: Seq<Seq<u8>>, undo: Seq<ChangeView>) -> bool
    decreases undo.len(),
{
    undo.len() > 0 ==> {
        &&& edits_made(lines, undo.last().edits)
        &&& undo_sound(undone(lines, undo.last().edits), undo.drop_last())
    }
}

/// Whether a list of changes that were taken back can be made again one after
/// the other, the last one first.
pub open spec fn redo_sound(lines: Seq<Seq<u8>>, redo: Seq<ChangeView>) -> bool
    decreases redo.len(),
{
    redo.len() > 0 ==> {
        &&& edits_fit(lines, redo.last().edits)
        &&& redo_sound(redone(lines, redo.last().edits), redo.drop_last())
    }
}

/// A text as it was before all changes.
#[verifier::ext_equal]
pub struct Origin {
    /// Its lines.
    pub lines: Seq<Seq<u8>>,
    /// Whether its last line ends in a newline.
    pub trailing: bool,
}

/// The text after all changes are taken back, the last one first.
pub open spec fn all_undone(lines: Seq<Seq<u8>>, undo: Seq<ChangeView>) -> Seq<Seq<u8>>
    decreases undo.len(),
{
    if undo.len() == 0 {
        lines
    } else {
        all_undone(undone(lines, undo.last().edits), undo.drop_last())
    }
}

/// Whether a history is exact: the edits of the change that is going on can be
/// taken back, then the finished changes one after the other, which leads to
/// the text `origin`; and the changes that were taken back can be made again.
/// Nothing is claimed where there is no `origin`.
#[verifier::opaque]
pub open spec fn history_exact(
    lines: Seq<Seq<u8>>,
    edits: Seq<EditView>,
    undo: Seq<ChangeView>,
    redo: Seq<ChangeView>,
    origin: Option<Origin>,
) -> bool {
    match origin {
        Some(first) => {
            &&& edits_made(lines, edits)
            &&& undo_sound(undone(lines, edits), undo)
            &&& all_undone(undone(lines, edits), undo) == first.lines
            &&& redo_sound(lines, redo)
            &&& edits.len() > 0 ==> redo.len() == 0
        },
        None => true,
    }
}

/// Whether all changes remember the same of the newline at the end of the text
/// as the text itself: `pending` is what the change that is going on does.
/// Nothing is claimed where there is no `origin`.
#[verifier::opaque]
pub open spec fn newline_kept(
    trailing: bool,
    pending: Option<bool>,
    undo: Seq<ChangeView>,
    redo: Seq<ChangeView>,
    origin: Option<Origin>,
) -> bool {
    origin matches Some(first) ==> {
        &&& trailing == first.trailing
        &&& pending is Some ==> pending == Some(trailing)
        &&& forall|i: int|
            0 <= i < undo.len() ==> (#[trigger] undo[i]).before.trailing_newline == trailing
                && undo[i].after.trailing_newline == trailing
        &&& forall|i: int|
            0 <= i < redo.len() ==> (#[trigger] redo[i]).before.trailing_newline == trailing
                && redo[i].after.trailing_newline == trailing
    }
}

/// A history without changes is exact.
pub proof fn lemma_history_begins(lines: Seq<Seq<u8>>, trailing: bool)
    ensures
        history_exact(
            lines,
            Seq::empty(),
            Seq::empty(),
            Seq::empty(),
            Some(Origin { lines, trailing }),
        ),
        newline_kept(
            trailing,
            None,
            Seq::empty(),
            Seq::empty(),
            Some(Origin { lines, trailing }),
        ),
{
    reveal(history_exact);
    reveal(newline_kept);
}

/// An edit keeps a history exact. Once the text is edited, the changes that
/// were taken back are gone.
pub proof fn lemma_history_edited(
    lines: Seq<Seq<u8>>,
    edits: Seq<EditView>,
    undo: Seq<ChangeView>,
    redo: Seq<ChangeView>,
    origin: Option<Origin>,
    edit: EditView,
)
    requires
        history_exact(lines, edits, undo, redo, origin),
        edit_fits(lines, edit),
    ensures
        history_exact(
            with_edit(lines, edit, true),
            match edit {
                EditView::Bytes { row, start, removed, inserted } => with_bytes(
                    edits,
                    row,
                    start,
                    removed,
                    inserted,
                ),
                EditView::Lines { .. } => edits.push(edit),
            },
            undo,
            if edits.len() == 0 {
                Seq::empty()
            } else {
                redo
            },
            origin,
        ),
{
    reveal(history_exact);
    if origin is Some {
        match edit {
            EditView::Bytes { row, start, removed, inserted } => {
                lemma_bytes_recorded(lines, edits, row, start, removed, inserted);
            },
            EditView::Lines { .. } => {
                lemma_lines_recorded(lines, edits, edit);
            },
        }
    }
}

/// Ending a change keeps a history exact.
pub proof fn lemma_history_ended(
    lines: Seq<Seq<u8>>,
    undo: Seq<ChangeView>,
    redo: Seq<ChangeView>,
    origin: Option<Origin>,
    change: ChangeView,
)
    requires
        history_exact(lines, change.edits, undo, redo, origin),
    ensures
        history_exact(lines, Seq::empty(), undo.push(change), redo, origin),
{
    reveal(history_exact);
    assert(undo.push(change).drop_last() =~= undo);
}

/// Taking the latest change back keeps a history exact.
pub proof fn lemma_history_undone(
    lines: Seq<Seq<u8>>,
    undo: Seq<ChangeView>,
    redo: Seq<ChangeView>,
    origin: Option<Origin>,
)
    requires
        history_exact(lines, Seq::empty(), undo, redo, origin),
        undo.len() > 0,
    ensures
        history_exact(
            undone(lines, undo.last().edits),
            Seq::empty(),
            undo.drop_last(),
            redo.push(undo.last()),
            origin,
        ),
{
    reveal(history_exact);
    if origin is Some {
        lemma_redo_after_undo(lines, undo.last().edits);
        assert(redo.push(undo.last()).drop_last() =~= redo);
    }
}

/// Making a change again keeps a history exact.
pub proof fn lemma_history_redone(
    lines: Seq<Seq<u8>>,
    undo: Seq<ChangeView>,
    redo: Seq<ChangeView>,
    origin: Option<Origin>,
)
    requires
        history_exact(lines, Seq::empty(), undo, redo, origin),
        redo.len() > 0,
    ensures
        history_exact(
            redone(lines, redo.last().edits),
            Seq::empty(),
            undo.push(redo.last()),
            redo.drop_last(),
            origin,
        ),
{
    reveal(history_exact);
    if origin is Some {
        lemma_undo_after_redo(lines, redo.last().edits);
        assert(undo.push(redo.last()).drop_last() =~= undo);
    }
}

/// What the changes remember of the newline at the end of the text, followed
/// through: a change begins, edits drop what was taken back, a change ends,
/// is taken back or is made again.
pub proof fn lemma_newline_followed(
    trailing: bool,
    pending: Option<bool>,
    undo: Seq<ChangeView>,
    redo: Seq<ChangeView>,
    origin: Option<Origin>,
)
    requires
        newline_kept(trailing, pending, undo, redo, origin),
    ensures
        newline_kept(trailing, None, undo, redo, origin),
        newline_kept(trailing, Some(trailing), undo, redo, origin),
        newline_kept(trailing, pending, undo, Seq::empty(), origin),
        forall|change: ChangeView|
            change.after.trailing_newline == trailing && pending
                == Some(change.before.trailing_newline) ==> #[trigger] newline_kept(
                trailing,
                None,
                undo.push(change),
                redo,
                origin,
            ),
        undo.len() > 0 ==> newline_kept(
            undo.last().before.trailing_newline,
            pending,
            undo.drop_last(),
            redo.push(undo.last()),
            origin,
        ),
        redo.len() > 0 ==> newline_kept(
            redo.last().after.trailing_newline,
            pending,
            undo.push(redo.last()),
            redo.drop_last(),
            origin,
        ),
{
    reveal(newline_kept);
    if origin is Some && undo.len() > 0 {
        assert(undo[undo.len() - 1] == undo.last());
    }
    if origin is Some && redo.len() > 0 {
        assert(redo[redo.len() - 1] == redo.last());
    }
}

/// Texts from which the same changes lead back to the same text are the same.
pub proof fn lemma_same_origin(a: Seq<Seq<u8>>, b: Seq<Seq<u8>>, undo: Seq<ChangeView>)
    requires
        undo_sound(a, undo),
        undo_sound(b, undo),
        all_undone(a, undo) == all_undone(b, undo),
    ensures
        a == b,
    decreases undo.len(),
{
    if undo.len() > 0 {
        let edits = undo.last().edits;
        lemma_same_origin(undone(a, edits), undone(b, edits), undo.drop_last());
        lemma_redo_after_undo(a, edits);
        lemma_redo_after_undo(b, edits);
    }
}

} // verus!
