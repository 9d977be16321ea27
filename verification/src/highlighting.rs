//! What holds between the editor and the highlighter that a host installed.
use crate::document::{ranges_read, told_of_edits, Document};
use crate::syntax::{
    highlighted_to, lemma_told_stays, may_be_busy, may_be_early, noted_between, only_told,
    polled_to, told_along, told_times, Answers, SyntaxHighlighter, SyntaxView,
};
use crate::text::serialize;
use std::time::Instant;
use vstd::prelude::*;

verus! {

/// Where a text is due for the highlighter and the ranges are asked for, the
/// highlighter is polled once and then handed the whole text once, and the
/// ranges are the ones that it returned for it, whether it has work in flight
/// or not. Where it has and returned none, the ranges stay.
pub proof fn lemma_due_text_is_handed_out(
    view: SyntaxView,
    before: Option<Box<dyn SyntaxHighlighter>>,
    after: Option<Box<dyn SyntaxHighlighter>>,
    edited_at: Option<Instant>,
    lines: Seq<Seq<u8>>,
    trailing: bool,
    viewport: (usize, usize),
    answers: Answers,
)
    requires
        view.installed,
        view.dirty,
        view.snapshot is None,
        view.answered(
            before,
            after,
            edited_at,
            lines,
            trailing,
            true,
            None,
            viewport,
            answers,
        ),
    ensures
        exists|polled: Option<Box<dyn SyntaxHighlighter>>|
            #[trigger] polled_to(before, polled, answers.completed) && highlighted_to(
                polled,
                serialize(lines, trailing),
                after,
                answers.highlighted,
            ),
        may_be_busy(after, answers.busy_after),
        view.refreshed(lines, trailing, true, None, viewport, answers).0.highlights == (
        if answers.has_ranges() {
            answers.highlighted
        } else {
            view.highlights
        }),
        !view.refreshed(lines, trailing, true, None, viewport, answers).0.dirty,
{
    let polled = choose|polled: Option<Box<dyn SyntaxHighlighter>>|
        {
            &&& #[trigger] polled_to(before, polled, answers.completed)
            &&& may_be_busy(polled, answers.busy)
            &&& view.answered_on(
                polled,
                after,
                edited_at,
                lines,
                trailing,
                true,
                None,
                viewport,
                answers,
            )
        };
    assert(highlighted_to(polled, serialize(lines, trailing), after, answers.highlighted));
}

/// Where no text is due, asking for the ranges polls the highlighter and does
/// nothing more to it; the ranges stay until a poll brings others.
pub proof fn lemma_known_ranges_stay(
    view: SyntaxView,
    before: Option<Box<dyn SyntaxHighlighter>>,
    after: Option<Box<dyn SyntaxHighlighter>>,
    edited_at: Option<Instant>,
    lines: Seq<Seq<u8>>,
    trailing: bool,
    force: bool,
    viewport: (usize, usize),
    answers: Answers,
)
    requires
        view.installed,
        !view.dirty,
        view.answered(
            before,
            after,
            edited_at,
            lines,
            trailing,
            force,
            None,
            viewport,
            answers,
        ),
    ensures
        polled_to(before, after, answers.completed),
        may_be_busy(after, answers.busy),
        view.refreshed(lines, trailing, force, None, viewport, answers).0.highlights == (
        match answers.completed {
            Some(highlights) => highlights,
            None => view.highlights,
        }),
{
}

/// A result that a poll brings is not applied while a newer text is due.
pub proof fn lemma_older_result_is_dropped(
    view: SyntaxView,
    lines: Seq<Seq<u8>>,
    trailing: bool,
    force: bool,
    visible: Option<(usize, usize)>,
    viewport: (usize, usize),
    answers: Answers,
    completed: Option<Seq<crate::highlight::HighlightSpan>>,
)
    requires
        view.installed,
        view.dirty,
    ensures
        view.refreshed(lines, trailing, force, visible, viewport, answers) == view.refreshed(
            lines,
            trailing,
            force,
            visible,
            viewport,
            Answers { completed, ..answers },
        ),
{
    let other = Answers { completed, ..answers };
    let heard = SyntaxView { pending: answers.busy, ..view };
    let data = heard.current_snapshot(serialize(lines, trailing));
    assert(heard.snapshot_answered(lines, data, answers) == heard.snapshot_answered(
        lines,
        data,
        other,
    ));
}

/// Until the edits have paused for long enough, a refresh that is not forced
/// polls the highlighter and asks it for nothing more, and the ranges stay.
pub proof fn lemma_edits_pause_first(
    view: SyntaxView,
    before: Option<Box<dyn SyntaxHighlighter>>,
    after: Option<Box<dyn SyntaxHighlighter>>,
    edited_at: Option<Instant>,
    lines: Seq<Seq<u8>>,
    trailing: bool,
    visible: Option<(usize, usize)>,
    viewport: (usize, usize),
    answers: Answers,
)
    requires
        view.installed,
        view.dirty,
        view.deferred,
        answers.early,
        view.answered(
            before,
            after,
            edited_at,
            lines,
            trailing,
            false,
            visible,
            viewport,
            answers,
        ),
    ensures
        may_be_early(edited_at, true),
        polled_to(before, after, answers.completed),
        view.refreshed(lines, trailing, false, visible, viewport, answers) == (
            SyntaxView { pending: answers.busy, ..view },
            false,
        ),
{
}

/// Where the text changed, the highlighter was told of it and nothing else was
/// done to it, and the new text is due for it.
pub proof fn lemma_change_is_told(before: Document, after: Document)
    requires
        told_of_edits(before, after),
        after@.bytes() != before@.bytes(),
    ensures
        before@.syntax.noted < after@.syntax.noted,
        told_times(
            before.syntax.highlighter,
            after.syntax.highlighter,
            (after@.syntax.noted - before@.syntax.noted) as nat,
        ),
        only_told(before.syntax.highlighter, after.syntax.highlighter),
        after@.syntax.installed ==> after@.syntax.dirty && after@.syntax.snapshot is None,
{
    reveal(noted_between);
}

/// Whatever happens between two such documents, nothing is done to the
/// highlighter but to tell it of changes. Where none was noted, it and the
/// state behind highlighting are the same.
pub proof fn lemma_highlighter_is_only_told(before: Document, after: Document)
    requires
        told_of_edits(before, after),
    ensures
        only_told(before.syntax.highlighter, after.syntax.highlighter),
        after@.syntax.noted == before@.syntax.noted ==> after.syntax == before.syntax,
{
    reveal(noted_between);
    if after@.syntax.noted == before@.syntax.noted {
        assert(told_along(seq![before.syntax.highlighter]));
        assert(told_times(before.syntax.highlighter, after.syntax.highlighter, 0));
    }
}

/// The ranges that are read next after a change are the ones that the
/// highlighter returned for the new text: between the state that it was left in
/// and this answer it was told of the changes, polled once, and handed the
/// whole new text once.
pub proof fn lemma_changed_text_is_handed_out(
    before: Document,
    changed: Document,
    after: Document,
    viewport: (usize, usize),
    answers: Answers,
)
    requires
        before@.syntax.installed,
        told_of_edits(before, changed),
        changed@.bytes() != before@.bytes(),
        ranges_read(changed, after, viewport, answers),
    ensures
        exists|
            told: Option<Box<dyn SyntaxHighlighter>>,
            polled: Option<Box<dyn SyntaxHighlighter>>,
        |
            only_told(before.syntax.highlighter, told) && #[trigger] polled_to(
                told,
                polled,
                answers.completed,
            ) && highlighted_to(
                polled,
                changed@.bytes(),
                after.syntax.highlighter,
                answers.highlighted,
            ),
        answers.has_ranges() ==> after@.syntax.highlights == answers.highlighted,
        !after@.syntax.dirty,
{
    lemma_change_is_told(before, changed);
    lemma_installed_stays(before, changed);
    lemma_due_text_is_handed_out(
        changed@.syntax,
        changed.syntax.highlighter,
        after.syntax.highlighter,
        changed.syntax.edited_at,
        changed@.lines,
        changed@.trailing,
        viewport,
        answers,
    );
}

/// A highlighter is used again: where a text is due and the ranges are read
/// twice, the text changes, and the ranges are read once more, the highlighter
/// is handed a text twice in all, the old one and then the new one. Besides it
/// is polled at each reading and told of the changes.
pub proof fn lemma_highlighter_is_reused(
    first: Document,
    second: Document,
    third: Document,
    changed: Document,
    last: Document,
    viewports: ((usize, usize), (usize, usize), (usize, usize)),
    answers: (Answers, Answers, Answers),
)
    requires
        first@.syntax.installed,
        first@.syntax.dirty,
        first@.syntax.snapshot is None,
        ranges_read(first, second, viewports.0, answers.0),
        ranges_read(second, third, viewports.1, answers.1),
        told_of_edits(third, changed),
        changed@.bytes() != first@.bytes(),
        ranges_read(changed, last, viewports.2, answers.2),
    ensures
        exists|
            polled: Option<Box<dyn SyntaxHighlighter>>,
            polled_last: Option<Box<dyn SyntaxHighlighter>>,
        |
            {
                &&& #[trigger] polled_to(
                    first.syntax.highlighter,
                    polled,
                    answers.0.completed,
                )
                &&& highlighted_to(
                    polled,
                    first@.bytes(),
                    second.syntax.highlighter,
                    answers.0.highlighted,
                )
                &&& polled_to(
                    second.syntax.highlighter,
                    third.syntax.highlighter,
                    answers.1.completed,
                )
                &&& told_times(
                    third.syntax.highlighter,
                    changed.syntax.highlighter,
                    (changed@.syntax.noted - third@.syntax.noted) as nat,
                )
                &&& #[trigger] polled_to(
                    changed.syntax.highlighter,
                    polled_last,
                    answers.2.completed,
                )
                &&& highlighted_to(
                    polled_last,
                    changed@.bytes(),
                    last.syntax.highlighter,
                    answers.2.highlighted,
                )
            },
        third@.syntax.noted < changed@.syntax.noted,
        answers.2.has_ranges() ==> last@.syntax.highlights == answers.2.highlighted,
{
    lemma_due_text_is_handed_out(
        first@.syntax,
        first.syntax.highlighter,
        second.syntax.highlighter,
        first.syntax.edited_at,
        first@.lines,
        first@.trailing,
        viewports.0,
        answers.0,
    );
    lemma_known_ranges_stay(
        second@.syntax,
        second.syntax.highlighter,
        third.syntax.highlighter,
        second.syntax.edited_at,
        second@.lines,
        second@.trailing,
        true,
        viewports.1,
        answers.1,
    );
    lemma_change_is_told(third, changed);
    lemma_installed_stays(third, changed);
    lemma_due_text_is_handed_out(
        changed@.syntax,
        changed.syntax.highlighter,
        last.syntax.highlighter,
        changed.syntax.edited_at,
        changed@.lines,
        changed@.trailing,
        viewports.2,
        answers.2,
    );
}

/// Telling a highlighter of changes neither installs nor removes one.
proof fn lemma_installed_stays(before: Document, after: Document)
    requires
        told_of_edits(before, after),
    ensures
        after@.syntax.installed == before@.syntax.installed,
{
    reveal(noted_between);
    if after@.syntax.noted != before@.syntax.noted {
        lemma_told_stays(
            before.syntax.highlighter,
            after.syntax.highlighter,
            (after@.syntax.noted - before@.syntax.noted) as nat,
        );
    }
}

} // verus!
