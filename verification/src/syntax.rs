//! The extension point for syntax highlighting and the state behind it: which
//! ranges are styled, how edits move them, and when they are computed anew.
use crate::bytes::{fit, plus_of, text_of};
use crate::highlight::{plain_style, HighlightColor, HighlightSpan, HighlightStyle};
use crate::text::{offset_of_line, serialize, serialize_lines, serialized_len};
use std::ops::Range;
use std::time::Instant;
use vstd::prelude::*;

verus! {

/// A point in time of the machine's monotonic clock.
#[verifier::external_type_specification]
#[verifier::external_body]
pub struct ExInstant(Instant);

/// The current time, from `std::time::Instant::now`. Nothing is promised of it.
#[verifier::external_body]
pub(crate) fn now() -> Instant {
    Instant::now()
}

/// The nanoseconds from `earlier` to `later`, zero where `later` is not behind
/// it, from `std::time::Instant::saturating_duration_since`. Nothing is
/// promised of the result.
#[verifier::external_body]
pub(crate) fn nanos_between(earlier: Instant, later: Instant) -> u128 {
    later.saturating_duration_since(earlier).as_nanos()
}

/// Whether the clock may tell this time now.
pub closed spec fn may_be_now(time: Instant) -> bool {
    call_ensures(now, (), time)
}

/// The current time.
pub(crate) fn current_time() -> (r: Instant)
    ensures
        may_be_now(r),
{
    now()
}

/// Whether the clock may tell now that so many nanoseconds have passed since a
/// point in time.
pub closed spec fn may_have_passed(since: Instant, elapsed: u128) -> bool {
    exists|time: Instant|
        may_be_now(time) && #[trigger] call_ensures(
            nanos_between,
            (since, time),
            elapsed,
        )
}

/// The nanoseconds that have passed since a point in time.
pub(crate) fn nanos_since(since: Instant) -> (r: u128)
    ensures
        may_have_passed(since, r),
{
    nanos_between(since, current_time())
}

/// How long, in nanoseconds, the editor waits after an edit before it asks a
/// highlighter for another snapshot, so that a burst of edits is parsed once.
pub const SYNTAX_HIGHLIGHT_DEBOUNCE: u128 = 75_000_000;

/// Whether the clock may tell now that the edits have not paused for long
/// enough yet. Without an edit that waits there is nothing to wait for.
pub open spec fn may_be_early(edited_at: Option<Instant>, early: bool) -> bool {
    match edited_at {
        Some(edited) => exists|elapsed: u128|
            #[trigger] may_have_passed(edited, elapsed) && early == (elapsed
                < SYNTAX_HIGHLIGHT_DEBOUNCE),
        None => !early,
    }
}

/// A host-provided syntax highlighter.
///
/// The base editor deliberately contains no language grammars, parser, or
/// theme. The embedding application can install any highlighter it already
/// uses. The callback receives the complete current buffer and returns byte
/// ranges relative to that buffer. It is called lazily on the next redraw or
/// access to the ranges after edits, and can retain parser state between calls
/// if that is useful.
pub trait SyntaxHighlighter {
    fn highlight(&mut self, buffer: &[u8]) -> Vec<HighlightSpan>;

    /// Return a synchronous syntax preview for the requested visible byte
    /// range. The complete buffer is supplied so the embedding highlighter
    /// can use line-aligned context around the viewport while keeping the
    /// returned spans relative to the complete buffer.
    ///
    /// The default leaves the preview disabled.
    fn highlight_visible(&mut self, _buffer: &[u8], _visible_range: Range<usize>) -> (r: Option<
        Vec<HighlightSpan>,
    >)
        default_ensures
            r is None,
    {
        None
    }

    /// Invalidate any state retained by `highlight_visible` after a buffer
    /// edit or an embedding-side syntax change.
    fn invalidate_visible(&mut self) {
    }

    /// Return the optional `:set number` gutter styles.
    ///
    /// The default follows Vim's terminal `LineNr` and `CursorLineNr`
    /// treatment: cyan line numbers and a bold cyan number for the current
    /// line. The base editor does not use these styles unless a highlighter
    /// is installed, and an embedding application can return `None` to leave
    /// either form unstyled or supply colors from its own theme.
    fn line_number_style(&self, current_line: bool) -> (r: Option<HighlightStyle>)
        default_ensures
            r == Some(
                (HighlightStyle {
                    foreground: Some(HighlightColor::Ansi(6)),
                    bold: current_line,
                    ..plain_style()
                }),
            ),
    {
        Some(HighlightStyle::foreground(HighlightColor::Ansi(6)).with_bold(current_line))
    }

    /// Return a completed asynchronous highlight update, if the embedding
    /// application performs parsing away from the editor's input path.
    fn poll(&mut self) -> (r: Option<Vec<HighlightSpan>>)
        default_ensures
            r is None,
    {
        None
    }

    /// Whether `highlight` has work in flight.
    ///
    /// Asynchronous highlighters can return their existing ranges from
    /// `highlight` while a newer snapshot is being parsed. The editor then
    /// keeps those ranges visible until `poll` returns the replacement.
    fn has_pending_work(&self) -> (r: bool)
        default_ensures
            !r,
    {
        false
    }
}

/// Whether a highlighter may return this style for line numbers.
pub open spec fn may_style<H: SyntaxHighlighter + ?Sized>(
    highlighter: &H,
    current_line: bool,
    style: Option<HighlightStyle>,
) -> bool {
    call_ensures(H::line_number_style, (highlighter, current_line), style)
}

/// One call of `poll`: the highlighter after it, and what it returned. Without
/// a highlighter there is nothing.
pub fn poll_of<H: SyntaxHighlighter + ?Sized>(
    highlighter: Option<Box<H>>,
) -> (r: (Option<Box<H>>, Option<Vec<HighlightSpan>>))
    ensures
        match (highlighter, r.0) {
            (Some(before), Some(after)) => exists|asked: &mut H|
                &*asked == &*before && &*final(asked) == &*after && #[trigger] call_ensures(
                    H::poll,
                    (asked,),
                    r.1,
                ),
            (None, None) => r.1 is None,
            _ => false,
        },
{
    match highlighter {
        Some(before) => {
            let mut held = before;
            let asked = &mut *held;
            let answer = asked.poll();
            assert(exists|asked: &mut H|
                &*asked == &*before && &*final(asked) == &*held && #[trigger] call_ensures(
                    H::poll,
                    (asked,),
                    answer,
                ));
            let ghost given = answer;
            let r = (Some(held), answer);
            assert(r.1 == given);
            r
        },
        None => (None, None),
    }
}

/// One call of `highlight`: the highlighter after it, and what it returned.
/// Without a highlighter there are no ranges.
pub fn highlight_of<H: SyntaxHighlighter + ?Sized>(
    highlighter: Option<Box<H>>,
    buffer: &[u8],
) -> (r: (Option<Box<H>>, Vec<HighlightSpan>))
    ensures
        match (highlighter, r.0) {
            (Some(before), Some(after)) => exists|asked: &mut H|
                &*asked == &*before && &*final(asked) == &*after && #[trigger] call_ensures(
                    H::highlight,
                    (asked, buffer),
                    r.1,
                ),
            (None, None) => r.1@.len() == 0,
            _ => false,
        },
{
    match highlighter {
        Some(before) => {
            let mut held = before;
            let asked = &mut *held;
            let answer = asked.highlight(buffer);
            assert(exists|asked: &mut H|
                &*asked == &*before && &*final(asked) == &*held && #[trigger] call_ensures(
                    H::highlight,
                    (asked, buffer),
                    answer,
                ));
            let ghost given = answer;
            let r = (Some(held), answer);
            assert(r.1 == given);
            r
        },
        None => (None, Vec::new()),
    }
}

/// One call of `highlight_visible`: the highlighter after it, and what it
/// returned. Without a highlighter there is nothing.
pub fn preview_of<H: SyntaxHighlighter + ?Sized>(
    highlighter: Option<Box<H>>,
    buffer: &[u8],
    range: (usize, usize),
) -> (r: (Option<Box<H>>, Option<Vec<HighlightSpan>>))
    ensures
        match (highlighter, r.0) {
            (Some(before), Some(after)) => exists|asked: &mut H|
                &*asked == &*before && &*final(asked) == &*after && #[trigger] call_ensures(
                    H::highlight_visible,
                    (asked, buffer, Range { start: range.0, end: range.1 }),
                    r.1,
                ),
            (None, None) => r.1 is None,
            _ => false,
        },
{
    match highlighter {
        Some(before) => {
            let mut held = before;
            let asked = &mut *held;
            let answer = asked.highlight_visible(buffer, Range { start: range.0, end: range.1 });
            assert(exists|asked: &mut H|
                &*asked == &*before && &*final(asked) == &*held && #[trigger] call_ensures(
                    H::highlight_visible,
                    (asked, buffer, Range { start: range.0, end: range.1 }),
                    answer,
                ));
            let ghost given = answer;
            let r = (Some(held), answer);
            assert(r.1 == given);
            r
        },
        None => (None, None),
    }
}

/// One call of `invalidate_visible`: the highlighter after it.
pub fn invalidate_of<H: SyntaxHighlighter + ?Sized>(highlighter: Option<Box<H>>) -> (r: Option<
    Box<H>,
>)
    ensures
        match (highlighter, r) {
            (Some(before), Some(after)) => exists|asked: &mut H|
                &*asked == &*before && &*final(asked) == &*after && #[trigger] call_ensures(
                    H::invalidate_visible,
                    (asked,),
                    (),
                ),
            (None, None) => true,
            _ => false,
        },
{
    match highlighter {
        Some(before) => {
            let mut held = before;
            let asked = &mut *held;
            asked.invalidate_visible();
            assert(exists|asked: &mut H|
                &*asked == &*before && &*final(asked) == &*held && #[trigger] call_ensures(
                    H::invalidate_visible,
                    (asked,),
                    (),
                ));
            Some(held)
        },
        None => None,
    }
}

/// Whether one call of `poll` may lead from one highlighter to another and
/// return these ranges.
pub open spec fn polled_to<H: SyntaxHighlighter + ?Sized>(
    before: Option<Box<H>>,
    after: Option<Box<H>>,
    completed: Option<Seq<HighlightSpan>>,
) -> bool {
    exists|answer: (Option<Box<H>>, Option<Vec<HighlightSpan>>)|
        #[trigger] call_ensures(poll_of::<H>, (before,), answer) && answer.0 == after && spans_of(
            answer.1,
        ) == completed
}

/// Whether one call of `highlight` with these bytes may lead from one
/// highlighter to another and return these ranges.
pub open spec fn highlighted_to<H: SyntaxHighlighter + ?Sized>(
    before: Option<Box<H>>,
    data: Seq<u8>,
    after: Option<Box<H>>,
    highlighted: Seq<HighlightSpan>,
) -> bool {
    exists|buffer: &[u8], answer: (Option<Box<H>>, Vec<HighlightSpan>)|
        #[trigger] call_ensures(highlight_of::<H>, (before, buffer), answer) && buffer@ == data
            && answer.0 == after && answer.1@ == highlighted
}

/// Whether one call of `highlight_visible` for the bytes from `range.0` to
/// `range.1` may lead from one highlighter to another and return these ranges.
pub open spec fn previewed_to<H: SyntaxHighlighter + ?Sized>(
    before: Option<Box<H>>,
    data: Seq<u8>,
    range: (usize, usize),
    after: Option<Box<H>>,
    shown: Option<Seq<HighlightSpan>>,
) -> bool {
    exists|buffer: &[u8], answer: (Option<Box<H>>, Option<Vec<HighlightSpan>>)|
        #[trigger] call_ensures(preview_of::<H>, (before, buffer, range), answer) && buffer@
            == data && answer.0 == after && spans_of(answer.1) == shown
}

/// Whether one call of `invalidate_visible` may lead from one highlighter to
/// another.
pub open spec fn invalidated_to<H: SyntaxHighlighter + ?Sized>(
    before: Option<Box<H>>,
    after: Option<Box<H>>,
) -> bool {
    call_ensures(invalidate_of::<H>, (before,), after)
}

/// Whether telling a highlighter once that its preview is stale may lead from
/// it to another one. Without a highlighter nobody is told.
pub open spec fn told_once<H: SyntaxHighlighter + ?Sized>(
    before: Option<Box<H>>,
    after: Option<Box<H>>,
) -> bool {
    match before {
        Some(_) => invalidated_to(before, after),
        None => after is None,
    }
}

/// Whether telling a highlighter once that its preview is stale may lead from
/// each of these to the next.
pub open spec fn told_along<H: SyntaxHighlighter + ?Sized>(chain: Seq<Option<Box<H>>>) -> bool {
    forall|i: int| 0 <= i < chain.len() - 1 ==> told_once(#[trigger] chain[i], chain[i + 1])
}

/// Whether telling a highlighter so many times that its preview is stale, and
/// doing nothing else to it, may lead from it to another one.
pub open spec fn told_times<H: SyntaxHighlighter + ?Sized>(
    before: Option<Box<H>>,
    after: Option<Box<H>>,
    times: nat,
) -> bool {
    exists|chain: Seq<Option<Box<H>>>| #[trigger]
        told_along(chain) && chain.len() == times + 1 && chain.first() == before && chain.last()
            == after
}

/// Whether nothing was done to a highlighter but to tell it, any number of
/// times, that its preview is stale.
pub open spec fn only_told<H: SyntaxHighlighter + ?Sized>(
    before: Option<Box<H>>,
    after: Option<Box<H>>,
) -> bool {
    exists|times: nat| #[trigger] told_times(before, after, times)
}

/// The times that a highlighter is told add up.
proof fn lemma_told_on<H: SyntaxHighlighter + ?Sized>(
    first: Option<Box<H>>,
    second: Option<Box<H>>,
    third: Option<Box<H>>,
    times: nat,
    more: nat,
)
    requires
        told_times(first, second, times),
        told_times(second, third, more),
    ensures
        told_times(first, third, times + more),
{
    let to = choose|chain: Seq<Option<Box<H>>>| #[trigger]
        told_along(chain) && chain.len() == times + 1 && chain.first() == first && chain.last()
            == second;
    let on = choose|chain: Seq<Option<Box<H>>>| #[trigger]
        told_along(chain) && chain.len() == more + 1 && chain.first() == second && chain.last()
            == third;
    let chain = to + on.drop_first();
    assert forall|i: int| 0 <= i < chain.len() - 1 implies told_once(
        #[trigger] chain[i],
        chain[i + 1],
    ) by {
        if i < times {
            assert(told_once(to[i], to[i + 1]));
        } else {
            assert(told_once(on[i - times], on[i - times + 1]));
        }
    }
    assert(told_along(chain));
}

proof fn lemma_chain_stays<H: SyntaxHighlighter + ?Sized>(chain: Seq<Option<Box<H>>>, at: int)
    requires
        told_along(chain),
        0 <= at < chain.len(),
    ensures
        chain[at] is Some == chain[0] is Some,
    decreases at,
{
    if at > 0 {
        lemma_chain_stays(chain, at - 1);
        assert(told_once(chain[at - 1], chain[at - 1 + 1]));
    }
}

/// Telling a highlighter neither installs nor removes one.
pub(crate) proof fn lemma_told_stays<H: SyntaxHighlighter + ?Sized>(
    before: Option<Box<H>>,
    after: Option<Box<H>>,
    times: nat,
)
    requires
        told_times(before, after, times),
    ensures
        after is Some == before is Some,
{
    let chain = choose|chain: Seq<Option<Box<H>>>| #[trigger]
        told_along(chain) && chain.len() == times + 1 && chain.first() == before && chain.last()
            == after;
    lemma_chain_stays(chain, chain.len() - 1);
}

/// Whether a highlighter may say that it has work in flight, or that it has
/// none. Without a highlighter there is none.
pub open spec fn may_be_busy<H: SyntaxHighlighter + ?Sized>(
    highlighter: Option<Box<H>>,
    busy: bool,
) -> bool {
    match highlighter {
        Some(asked) => call_ensures(H::has_pending_work, (&*asked,), busy),
        None => !busy,
    }
}

fn ask_poll<H: SyntaxHighlighter + ?Sized>(highlighter: Option<Box<H>>) -> (r: (
    Option<Box<H>>,
    Option<Vec<HighlightSpan>>,
))
    ensures
        polled_to(highlighter, r.0, spans_of(r.1)),
        highlighter is Some == r.0 is Some,
{
    let answer = poll_of(highlighter);
    assert(call_ensures(poll_of::<H>, (highlighter,), answer));
    answer
}

fn ask_highlight<H: SyntaxHighlighter + ?Sized>(highlighter: Option<Box<H>>, buffer: &[u8]) -> (r: (
    Option<Box<H>>,
    Vec<HighlightSpan>,
))
    ensures
        highlighted_to(highlighter, buffer@, r.0, r.1@),
        highlighter is Some == r.0 is Some,
{
    let answer = highlight_of(highlighter, buffer);
    assert(call_ensures(highlight_of::<H>, (highlighter, buffer), answer));
    answer
}

fn ask_visible<H: SyntaxHighlighter + ?Sized>(
    highlighter: Option<Box<H>>,
    buffer: &[u8],
    range: (usize, usize),
) -> (r: (Option<Box<H>>, Option<Vec<HighlightSpan>>))
    ensures
        previewed_to(highlighter, buffer@, range, r.0, spans_of(r.1)),
        highlighter is Some == r.0 is Some,
{
    let answer = preview_of(highlighter, buffer, range);
    assert(call_ensures(preview_of::<H>, (highlighter, buffer, range), answer));
    answer
}

fn ask_invalidate<H: SyntaxHighlighter + ?Sized>(highlighter: Option<Box<H>>) -> (r: Option<Box<H>>)
    ensures
        invalidated_to(highlighter, r),
        highlighter is Some == r is Some,
{
    let answer = invalidate_of(highlighter);
    assert(call_ensures(invalidate_of::<H>, (highlighter,), answer));
    answer
}

fn ask_busy<H: SyntaxHighlighter + ?Sized>(highlighter: &Option<Box<H>>) -> (r: bool)
    ensures
        may_be_busy(*highlighter, r),
{
    match highlighter {
        Some(asked) => {
            let busy = (&**asked).has_pending_work();
            busy
        },
        None => false,
    }
}

/// Calls a host's closure, as `FnMut` defines it: the result is one that the
/// closure may return for these bytes, where it may be called with them. What
/// that is, the closure alone decides.
#[verifier::external_body]
fn call_highlighter<F: FnMut(&[u8]) -> Vec<HighlightSpan>>(f: &mut F, buffer: &[u8]) -> (r: Vec<
    HighlightSpan,
>)
    ensures
        call_requires(*old(f), (buffer,)) ==> call_ensures(*old(f), (buffer,), r),
{
    f(buffer)
}

impl<F: FnMut(&[u8]) -> Vec<HighlightSpan>> SyntaxHighlighter for F {
    fn highlight(&mut self, buffer: &[u8]) -> (r: Vec<HighlightSpan>)
        ensures
            call_requires(*old(self), (buffer,)) ==> call_ensures(*old(self), (buffer,), r),
    {
        call_highlighter(self, buffer)
    }
}

/// `x` brought into the range of `isize`.
pub open spec fn fit_signed(x: int) -> int {
    if x < isize::MIN {
        isize::MIN as int
    } else if x > isize::MAX {
        isize::MAX as int
    } else {
        x
    }
}

fn plus_signed(a: isize, b: isize) -> (r: isize)
    ensures
        r == fit_signed(a + b),
{
    let sum: i128 = a as i128 + b as i128;
    if sum < isize::MIN as i128 {
        isize::MIN
    } else if sum > isize::MAX as i128 {
        isize::MAX
    } else {
        sum as isize
    }
}

fn delta_of(inserted: usize, removed: usize) -> (r: isize)
    ensures
        r == fit_signed(inserted - removed),
{
    let delta: i128 = inserted as i128 - removed as i128;
    if delta < isize::MIN as i128 {
        isize::MIN
    } else if delta > isize::MAX as i128 {
        isize::MAX
    } else {
        delta as isize
    }
}

/// An offset moved by `delta`, kept within the range of `usize`.
pub fn shift_offset(offset: usize, delta: isize) -> (r: usize)
    ensures
        r == fit(offset + delta),
{
    let moved: i128 = offset as i128 + delta as i128;
    if moved < 0 {
        0
    } else if moved > usize::MAX as i128 {
        usize::MAX
    } else {
        moved as usize
    }
}

/// Where each line starts in the serialized text.
pub open spec fn line_starts(lines: Seq<Seq<u8>>) -> Seq<usize> {
    Seq::new(lines.len(), |i: int| fit(offset_of_line(lines, i)) as usize)
}

fn fit_of(x: u128) -> (r: usize)
    ensures
        r == fit(x as int),
{
    if x > usize::MAX as u128 {
        usize::MAX
    } else {
        x as usize
    }
}

/// Where each line starts in the serialized text.
pub fn line_offsets(lines: &Vec<Vec<u8>>) -> (r: Vec<usize>)
    ensures
        r@ == line_starts(text_of(lines@)),
{
    let ghost text = text_of(lines@);
    let mut offsets: Vec<usize> = Vec::new();
    let mut offset: u128 = 0;
    let mut i: usize = 0;
    assert(text.subrange(0, 0) =~= Seq::<Seq<u8>>::empty());
    while i < lines.len()
        invariant
            i <= lines@.len(),
            text == text_of(lines@),
            offset == offset_of_line(text, i as int),
            offset <= i * 0x1_0000_0000_0000_0000,
            offsets@ == line_starts(text).subrange(0, i as int),
        decreases lines@.len() - i,
    {
        assert(text.subrange(0, i + 1).drop_last() =~= text.subrange(0, i as int));
        assert(i * 0x1_0000_0000_0000_0000 <= 0xffff_ffff_ffff_fffe * 0x1_0000_0000_0000_0000)
            by (nonlinear_arith)
            requires
                i <= 0xffff_ffff_ffff_fffe,
        ;
        offsets.push(fit_of(offset));
        let length: usize = lines[i].len();
        offset = offset + length as u128 + 1;
        i += 1;
        assert(offsets@ =~= line_starts(text).subrange(0, i as int));
    }
    assert(offsets@ =~= line_starts(text));
    offsets
}

/// How far the recorded shifts move a line.
pub open spec fn shift_sum(shifts: Seq<(usize, isize)>, line: int) -> int
    decreases shifts.len(),
{
    if shifts.len() == 0 {
        0
    } else {
        let before = shift_sum(shifts.drop_last(), line);
        if shifts.last().0 <= line {
            fit_signed(before + shifts.last().1)
        } else {
            before
        }
    }
}

/// What is left of a span after `removed` bytes at `start` became `inserted`
/// bytes: the parts before and behind the edit, the latter moved along.
pub open spec fn adjusted_span(
    span: HighlightSpan,
    start: int,
    removed: int,
    inserted: int,
) -> Seq<HighlightSpan> {
    let removed_end = fit(start + removed);
    let delta = fit_signed(inserted - removed);
    if span.end <= start {
        seq![span]
    } else if span.start >= removed_end {
        seq![
            HighlightSpan {
                start: fit(span.start + delta) as usize,
                end: fit(span.end + delta) as usize,
                style: span.style,
            },
        ]
    } else {
        let before = if span.start < start {
            seq![HighlightSpan { end: start as usize, ..span }]
        } else {
            Seq::empty()
        };
        let behind = if span.end > removed_end {
            seq![
                HighlightSpan {
                    start: fit(start + inserted) as usize,
                    end: fit(span.end + delta) as usize,
                    style: span.style,
                },
            ]
        } else {
            Seq::empty()
        };
        before + behind
    }
}

/// What is left of each span after an edit, in order.
pub open spec fn adjusted_spans(
    spans: Seq<HighlightSpan>,
    start: int,
    removed: int,
    inserted: int,
) -> Seq<HighlightSpan>
    decreases spans.len(),
{
    if spans.len() == 0 {
        Seq::empty()
    } else {
        adjusted_spans(spans.drop_last(), start, removed, inserted) + adjusted_span(
            spans.last(),
            start,
            removed,
            inserted,
        )
    }
}

/// What is left of each span after an edit, in order.
pub fn adjust_spans(
    spans: &Vec<HighlightSpan>,
    start: usize,
    removed_len: usize,
    inserted_len: usize,
) -> (r: Vec<HighlightSpan>)
    ensures
        r@ == adjusted_spans(spans@, start as int, removed_len as int, inserted_len as int),
{
    let removed_end: usize = plus_of(start, removed_len);
    let delta: isize = delta_of(inserted_len, removed_len);
    let mut adjusted: Vec<HighlightSpan> = Vec::new();
    let mut i: usize = 0;
    assert(spans@.subrange(0, 0) =~= Seq::<HighlightSpan>::empty());
    while i < spans.len()
        invariant
            i <= spans@.len(),
            removed_end == fit(start + removed_len),
            delta == fit_signed(inserted_len - removed_len),
            adjusted@ == adjusted_spans(
                spans@.subrange(0, i as int),
                start as int,
                removed_len as int,
                inserted_len as int,
            ),
        decreases spans@.len() - i,
    {
        let span = spans[i];
        let ghost part = spans@.subrange(0, i + 1);
        let ghost before = adjusted@;
        let ghost new = adjusted_span(span, start as int, removed_len as int, inserted_len as int);
        assert(part.drop_last() =~= spans@.subrange(0, i as int));
        assert(part.last() == span);
        if span.end <= start {
            adjusted.push(span);
        } else if span.start >= removed_end {
            adjusted.push(
                HighlightSpan::new(
                    shift_offset(span.start, delta),
                    shift_offset(span.end, delta),
                    span.style,
                ),
            );
        } else {
            if span.start < start {
                adjusted.push(HighlightSpan::new(span.start, start, span.style));
            }
            if span.end > removed_end {
                adjusted.push(
                    HighlightSpan::new(
                        plus_of(start, inserted_len),
                        shift_offset(span.end, delta),
                        span.style,
                    ),
                );
            }
        }
        assert(adjusted@ =~= before + new);
        i += 1;
    }
    assert(spans@.subrange(0, spans@.len() as int) =~= spans@);
    adjusted
}

/// What is known about highlighting. The installed highlighter itself belongs
/// to the host: of it the view only tells whether there is one, and of how many
/// changes it was told. What is done to it, `noted_between` and `answered` say.
#[verifier::ext_equal]
pub struct SyntaxView {
    /// Whether a highlighter is installed.
    pub installed: bool,
    /// How many edits and other changes of the text were noted. The
    /// highlighter is told of each.
    pub noted: nat,
    /// The ranges of the last full result, moved along with edits since.
    pub highlights: Seq<HighlightSpan>,
    /// The ranges of the preview of the visible part.
    pub preview: Seq<HighlightSpan>,
    /// Where the lines started when the offsets were last computed.
    pub line_offsets: Seq<usize>,
    /// How lines moved since: from which line on, and by how much.
    pub shifts: Seq<(usize, isize)>,
    /// Whether the text changed since the last snapshot was handed out.
    pub dirty: bool,
    /// Whether the next snapshot waits for the edits to pause.
    pub deferred: bool,
    /// Whether the highlighter has work in flight.
    pub pending: bool,
    /// The first line and the number of rows that the preview was made for.
    pub preview_viewport: Option<(usize, usize)>,
    /// The bytes that the preview covers.
    pub preview_range: Option<(usize, usize)>,
    /// The snapshot that was last handed out and is still in use.
    pub snapshot: Option<Seq<u8>>,
}

/// The state behind syntax highlighting.
pub struct Syntax {
    pub highlighter: Option<Box<dyn SyntaxHighlighter>>,
    pub highlights: Vec<HighlightSpan>,
    pub preview: Vec<HighlightSpan>,
    pub line_offsets: Vec<usize>,
    pub shifts: Vec<(usize, isize)>,
    pub dirty: bool,
    /// When the edit happened whose snapshot is put off, if one is.
    pub edited_at: Option<Instant>,
    pub pending: bool,
    pub preview_viewport: Option<(usize, usize)>,
    pub preview_range: Option<(usize, usize)>,
    pub snapshot: Option<Vec<u8>>,
    pub noted: Ghost<nat>,
}

/// The bytes that an optional buffer holds.
pub open spec fn bytes_of(buffer: Option<Vec<u8>>) -> Option<Seq<u8>> {
    match buffer {
        Some(data) => Some(data@),
        None => None,
    }
}

impl View for Syntax {
    type V = SyntaxView;

    open spec fn view(&self) -> SyntaxView {
        SyntaxView {
            installed: self.highlighter is Some,
            noted: self.noted@,
            highlights: self.highlights@,
            preview: self.preview@,
            line_offsets: self.line_offsets@,
            shifts: self.shifts@,
            dirty: self.dirty,
            deferred: self.edited_at is Some,
            pending: self.pending,
            preview_viewport: self.preview_viewport,
            preview_range: self.preview_range,
            snapshot: bytes_of(self.snapshot),
        }
    }
}

/// What a highlighter and the clock answered during one refresh.
#[verifier::ext_equal]
pub struct Answers {
    /// What `poll` returned.
    pub completed: Option<Seq<HighlightSpan>>,
    /// What `has_pending_work` returned after `poll`.
    pub busy: bool,
    /// Whether the edits have not paused for long enough yet.
    pub early: bool,
    /// What `highlight` returned.
    pub highlighted: Seq<HighlightSpan>,
    /// What `has_pending_work` returned after `highlight`.
    pub busy_after: bool,
    /// What `highlight_visible` returned.
    pub shown: Option<Seq<HighlightSpan>>,
}

impl Answers {
    /// Whether the answer to a snapshot is one to show: ranges, or that there
    /// are none once no work is in flight.
    pub open spec fn has_ranges(self) -> bool {
        !self.busy_after || self.highlighted.len() > 0
    }
}

impl SyntaxView {
    /// No highlighter, no ranges.
    pub open spec fn empty() -> SyntaxView {
        SyntaxView {
            installed: false,
            noted: 0,
            highlights: Seq::empty(),
            preview: Seq::empty(),
            line_offsets: Seq::empty(),
            shifts: Seq::empty(),
            dirty: false,
            deferred: false,
            pending: false,
            preview_viewport: None,
            preview_range: None,
            snapshot: None,
        }
    }

    /// What holds of the state for a text of `lines` lines: there are ranges
    /// only with a highlighter, and offsets for every line wherever there are
    /// ranges.
    pub open spec fn wf(self, lines: nat) -> bool {
        &&& !self.installed ==> self.highlights.len() == 0 && self.preview.len() == 0
            && self.line_offsets.len() == 0 && !self.dirty && !self.pending
        &&& self.highlights.len() > 0 || self.preview.len() > 0 ==> self.line_offsets.len()
            == lines
        &&& self.line_offsets.len() == 0 || self.line_offsets.len() == lines
    }

    /// All ranges dropped.
    pub open spec fn cleared(self) -> SyntaxView {
        SyntaxView {
            highlights: Seq::empty(),
            preview: Seq::empty(),
            line_offsets: Seq::empty(),
            shifts: Seq::empty(),
            pending: false,
            preview_viewport: None,
            preview_range: None,
            snapshot: None,
            ..self
        }
    }

    /// A new snapshot is due, at once or once the edits pause. The ranges of
    /// the last full result stay.
    pub open spec fn marked(self, defer: bool) -> SyntaxView {
        if self.installed {
            SyntaxView {
                noted: self.noted + 1,
                dirty: true,
                deferred: defer,
                preview: Seq::empty(),
                preview_viewport: None,
                preview_range: None,
                snapshot: None,
                line_offsets: if self.highlights.len() == 0 {
                    Seq::empty()
                } else {
                    self.line_offsets
                },
                shifts: if self.highlights.len() == 0 {
                    Seq::empty()
                } else {
                    self.shifts
                },
                ..self
            }
        } else {
            SyntaxView { noted: self.noted + 1, ..self }
        }
    }

    /// Where a line starts, with the recorded shifts.
    pub open spec fn line_offset(self, line: int) -> int {
        fit(self.line_offsets[line] + shift_sum(self.shifts, line))
    }

    /// The ranges moved along with an edit.
    pub open spec fn adjusted(self, start: int, removed: int, inserted: int) -> SyntaxView {
        if self.highlights.len() == 0 {
            self
        } else {
            let highlights = adjusted_spans(self.highlights, start, removed, inserted);
            if highlights.len() == 0 {
                SyntaxView {
                    highlights,
                    line_offsets: Seq::empty(),
                    shifts: Seq::empty(),
                    ..self
                }
            } else {
                SyntaxView { highlights, ..self }
            }
        }
    }

    /// One more shift of the lines behind `row`. Shifts of one row in a row
    /// are added up.
    pub open spec fn shifted(self, row: int, delta: int) -> SyntaxView {
        if delta == 0 {
            self
        } else if self.shifts.len() > 0 && self.shifts.last().0 == row + 1 {
            SyntaxView {
                shifts: self.shifts.update(
                    self.shifts.len() - 1,
                    ((row + 1) as usize, fit_signed(self.shifts.last().1 + delta) as isize),
                ),
                ..self
            }
        } else {
            SyntaxView { shifts: self.shifts.push(((row + 1) as usize, delta as isize)), ..self }
        }
    }

    /// The ranges after bytes of one line were replaced.
    pub open spec fn bytes_edited(
        self,
        row: int,
        start: int,
        removed: int,
        inserted: int,
    ) -> SyntaxView {
        if self.highlights.len() == 0 {
            self
        } else {
            self.adjusted(fit(self.line_offset(row) + start), removed, inserted).shifted(
                row,
                fit_signed(inserted - removed),
            )
        }
    }

    /// The ranges after whole lines were replaced; `after` is the new text.
    pub open spec fn lines_edited(
        self,
        before: Seq<Seq<u8>>,
        start: int,
        removed: Seq<Seq<u8>>,
        inserted: Seq<Seq<u8>>,
        after: Seq<Seq<u8>>,
    ) -> SyntaxView {
        let at = if start < self.line_offsets.len() {
            self.line_offset(start)
        } else {
            fit(serialized_len(before))
        };
        let moved = self.adjusted(
            at,
            fit(serialized_len(removed)),
            fit(serialized_len(inserted)),
        );
        if moved.highlights.len() == 0 {
            moved
        } else {
            SyntaxView { line_offsets: line_starts(after), shifts: Seq::empty(), ..moved }
        }
    }

    /// A full result put into place.
    pub open spec fn with_highlights(
        self,
        lines: Seq<Seq<u8>>,
        highlights: Seq<HighlightSpan>,
    ) -> SyntaxView {
        SyntaxView {
            highlights,
            line_offsets: if highlights.len() == 0 {
                Seq::empty()
            } else {
                line_starts(lines)
            },
            shifts: Seq::empty(),
            preview: Seq::empty(),
            preview_viewport: None,
            preview_range: None,
            ..self
        }
    }

    /// The outcome of asking for a preview put into place.
    pub open spec fn with_preview(
        self,
        lines: Seq<Seq<u8>>,
        shown: Option<Seq<HighlightSpan>>,
        range: (usize, usize),
        viewport: (usize, usize),
    ) -> SyntaxView {
        match shown {
            None => SyntaxView {
                preview: Seq::empty(),
                preview_range: None,
                preview_viewport: Some(viewport),
                ..self
            },
            Some(preview) => {
                let fresh = preview.len() > 0 && self.line_offsets.len() == 0;
                let dropped = preview.len() == 0 && self.highlights.len() == 0;
                SyntaxView {
                    preview,
                    preview_range: Some(range),
                    preview_viewport: Some(viewport),
                    line_offsets: if fresh {
                        line_starts(lines)
                    } else if dropped {
                        Seq::empty()
                    } else {
                        self.line_offsets
                    },
                    shifts: if fresh || dropped {
                        Seq::empty()
                    } else {
                        self.shifts
                    },
                    ..self
                }
            },
        }
    }

    /// The snapshot in use: the one at hand, or the current text.
    pub open spec fn current_snapshot(self, data: Seq<u8>) -> Seq<u8> {
        match self.snapshot {
            Some(snapshot) => snapshot,
            None => data,
        }
    }

    /// The preview brought up to date for a viewport, unless it was made for
    /// that viewport already. The snapshot stays in use.
    pub open spec fn previewed(
        self,
        lines: Seq<Seq<u8>>,
        trailing: bool,
        visible: Option<(usize, usize)>,
        viewport: (usize, usize),
        shown: Option<Seq<HighlightSpan>>,
    ) -> (SyntaxView, bool) {
        match visible {
            None => (self, false),
            Some(range) => if self.preview_viewport == Some(viewport) {
                (self, false)
            } else {
                let snapshot = self.current_snapshot(serialize(lines, trailing));
                (
                    SyntaxView { snapshot: Some(snapshot), ..self }.with_preview(
                        lines,
                        shown,
                        range,
                        viewport,
                    ),
                    shown is Some,
                )
            },
        }
    }

    /// The state once a poll was heard: the ranges that it completed are put
    /// into place.
    pub open spec fn poll_heard(self, lines: Seq<Seq<u8>>, answers: Answers) -> SyntaxView {
        let heard = SyntaxView { pending: answers.busy, ..self };
        match answers.completed {
            Some(highlights) => heard.with_highlights(lines, highlights),
            None => heard,
        }
    }

    /// The state after a poll while no new snapshot is due, and whether the
    /// ranges changed.
    pub open spec fn polled(
        self,
        lines: Seq<Seq<u8>>,
        trailing: bool,
        visible: Option<(usize, usize)>,
        viewport: (usize, usize),
        answers: Answers,
    ) -> (SyntaxView, bool) {
        let taken = self.poll_heard(lines, answers);
        let updated = answers.completed is Some;
        if !answers.busy {
            (SyntaxView { snapshot: None, ..taken }, updated)
        } else {
            let (shown, more) = taken.previewed(lines, trailing, visible, viewport, answers.shown);
            (shown, updated || more)
        }
    }

    /// The state once a snapshot was handed out and answered: the ranges of the
    /// answer are in place, and the snapshot stays in use while the highlighter
    /// has work in flight. The ranges at hand stay where it has work in flight
    /// and none to show for it yet.
    pub open spec fn snapshot_answered(
        self,
        lines: Seq<Seq<u8>>,
        data: Seq<u8>,
        answers: Answers,
    ) -> SyntaxView {
        SyntaxView {
            pending: answers.busy_after,
            dirty: false,
            deferred: false,
            snapshot: if answers.busy_after {
                Some(data)
            } else {
                None
            },
            ..(if answers.has_ranges() {
                self.with_highlights(lines, answers.highlighted)
            } else {
                self
            })
        }
    }

    /// The state after a snapshot was handed out and answered, and a preview
    /// asked for while the highlighter has work in flight, and whether the
    /// ranges changed.
    pub open spec fn requested(
        self,
        lines: Seq<Seq<u8>>,
        trailing: bool,
        visible: Option<(usize, usize)>,
        viewport: (usize, usize),
        answers: Answers,
    ) -> (SyntaxView, bool) {
        let data = self.current_snapshot(serialize(lines, trailing));
        let asked = self.snapshot_answered(lines, data, answers);
        if answers.busy_after {
            let (shown, more) = asked.previewed(lines, trailing, visible, viewport, answers.shown);
            (shown, answers.has_ranges() || more)
        } else {
            (asked, true)
        }
    }

    /// The state after a refresh in which the highlighter and the clock gave
    /// these answers, and whether the ranges changed.
    pub open spec fn refreshed(
        self,
        lines: Seq<Seq<u8>>,
        trailing: bool,
        force: bool,
        visible: Option<(usize, usize)>,
        viewport: (usize, usize),
        answers: Answers,
    ) -> (SyntaxView, bool) {
        let heard = SyntaxView { pending: answers.busy, ..self };
        if !self.installed {
            (SyntaxView { pending: false, snapshot: None, ..self }, false)
        } else if !self.dirty {
            self.polled(lines, trailing, visible, viewport, answers)
        } else if !force && self.deferred && answers.early {
            (heard, false)
        } else if answers.busy && !force {
            heard.previewed(lines, trailing, visible, viewport, answers.shown)
        } else {
            heard.requested(lines, trailing, visible, viewport, answers)
        }
    }

    /// Whether a highlighter may have been asked for this preview, where one
    /// is due for the viewport, and be another one after it.
    pub open spec fn preview_asked(
        self,
        before: Option<Box<dyn SyntaxHighlighter>>,
        after: Option<Box<dyn SyntaxHighlighter>>,
        lines: Seq<Seq<u8>>,
        trailing: bool,
        visible: Option<(usize, usize)>,
        viewport: (usize, usize),
        shown: Option<Seq<HighlightSpan>>,
    ) -> bool {
        match visible {
            Some(range) if self.preview_viewport != Some(viewport) => previewed_to(
                before,
                self.current_snapshot(serialize(lines, trailing)),
                range,
                after,
                shown,
            ),
            _ => after == before,
        }
    }

    /// Whether a highlighter may have been handed the snapshot that is due,
    /// have given these answers, and be another one after them.
    pub open spec fn snapshot_asked(
        self,
        before: Option<Box<dyn SyntaxHighlighter>>,
        after: Option<Box<dyn SyntaxHighlighter>>,
        lines: Seq<Seq<u8>>,
        trailing: bool,
        visible: Option<(usize, usize)>,
        viewport: (usize, usize),
        answers: Answers,
    ) -> bool {
        let data = self.current_snapshot(serialize(lines, trailing));
        exists|asked: Option<Box<dyn SyntaxHighlighter>>|
            {
                &&& #[trigger] highlighted_to(before, data, asked, answers.highlighted)
                &&& may_be_busy(asked, answers.busy_after)
                &&& if answers.busy_after {
                    self.snapshot_answered(lines, data, answers).preview_asked(
                        asked,
                        after,
                        lines,
                        trailing,
                        visible,
                        viewport,
                        answers.shown,
                    )
                } else {
                    after == asked
                }
            }
    }

    /// Whether a highlighter that was polled may have given the rest of these
    /// answers, and be another one after them.
    pub open spec fn answered_on(
        self,
        polled: Option<Box<dyn SyntaxHighlighter>>,
        after: Option<Box<dyn SyntaxHighlighter>>,
        edited_at: Option<Instant>,
        lines: Seq<Seq<u8>>,
        trailing: bool,
        force: bool,
        visible: Option<(usize, usize)>,
        viewport: (usize, usize),
        answers: Answers,
    ) -> bool {
        let heard = SyntaxView { pending: answers.busy, ..self };
        if !self.dirty {
            if answers.busy {
                self.poll_heard(lines, answers).preview_asked(
                    polled,
                    after,
                    lines,
                    trailing,
                    visible,
                    viewport,
                    answers.shown,
                )
            } else {
                after == polled
            }
        } else {
            &&& !force ==> may_be_early(edited_at, answers.early)
            &&& if !force && answers.early {
                after == polled
            } else if !force && answers.busy {
                heard.preview_asked(
                    polled,
                    after,
                    lines,
                    trailing,
                    visible,
                    viewport,
                    answers.shown,
                )
            } else {
                heard.snapshot_asked(polled, after, lines, trailing, visible, viewport, answers)
            }
        }
    }

    /// Whether these are answers that the highlighter `before` and the clock
    /// may give during one refresh: it is polled and asked whether it has work
    /// in flight, and then, where that is due, handed the text or asked for a
    /// preview. The highlighter is `after` then.
    pub open spec fn answered(
        self,
        before: Option<Box<dyn SyntaxHighlighter>>,
        after: Option<Box<dyn SyntaxHighlighter>>,
        edited_at: Option<Instant>,
        lines: Seq<Seq<u8>>,
        trailing: bool,
        force: bool,
        visible: Option<(usize, usize)>,
        viewport: (usize, usize),
        answers: Answers,
    ) -> bool {
        exists|polled: Option<Box<dyn SyntaxHighlighter>>|
            {
                &&& #[trigger] polled_to(before, polled, answers.completed)
                &&& may_be_busy(polled, answers.busy)
                &&& self.answered_on(
                    polled,
                    after,
                    edited_at,
                    lines,
                    trailing,
                    force,
                    visible,
                    viewport,
                    answers,
                )
            }
    }
}

impl Syntax {
    /// No highlighter, no ranges.
    pub fn empty() -> (r: Self)
        ensures
            r@ == SyntaxView::empty(),
    {
        Syntax {
            highlighter: None,
            highlights: Vec::new(),
            preview: Vec::new(),
            line_offsets: Vec::new(),
            shifts: Vec::new(),
            dirty: false,
            edited_at: None,
            pending: false,
            preview_viewport: None,
            preview_range: None,
            snapshot: None,
            noted: Ghost(0),
        }
    }

    /// Drops all ranges.
    pub fn clear_ranges(&mut self)
        ensures
            final(self)@ == old(self)@.cleared(),
            final(self).highlighter == old(self).highlighter,
            final(self).edited_at == old(self).edited_at,
    {
        self.highlights = Vec::new();
        self.preview = Vec::new();
        self.line_offsets = Vec::new();
        self.shifts = Vec::new();
        self.pending = false;
        self.preview_viewport = None;
        self.preview_range = None;
        self.snapshot = None;
    }

    /// Notes that a new snapshot is due; the highlighter is told once that its
    /// preview is not valid any more.
    pub fn mark_dirty(&mut self, defer: bool)
        ensures
            final(self)@ == old(self)@.marked(defer),
            told_once(old(self).highlighter, final(self).highlighter),
            match old(self).highlighter {
                Some(_) if defer => final(self).edited_at matches Some(time) && may_be_now(time),
                Some(_) => final(self).edited_at is None,
                None => final(self).edited_at == old(self).edited_at,
            },
    {
        self.noted = Ghost(self.noted@ + 1);
        if self.highlighter.is_none() {
            return;
        }
        self.highlighter = ask_invalidate(self.highlighter.take());
        self.dirty = true;
        self.edited_at = if defer {
            Some(current_time())
        } else {
            None
        };
        self.preview = Vec::new();
        self.preview_viewport = None;
        self.preview_range = None;
        self.snapshot = None;
        if self.highlights.len() == 0 {
            self.line_offsets = Vec::new();
            self.shifts = Vec::new();
        }
    }

    /// Installs a highlighter; the whole text is due for it at once.
    pub fn install(&mut self, highlighter: Option<Box<dyn SyntaxHighlighter>>)
        requires
            highlighter is Some,
        ensures
            final(self)@ == (SyntaxView { installed: true, ..old(self)@ }).cleared().marked(false),
            invalidated_to(highlighter, final(self).highlighter),
            final(self).edited_at is None,
    {
        self.highlighter = highlighter;
        self.clear_ranges();
        self.mark_dirty(false);
    }

    /// Removes the highlighter and all ranges.
    pub fn uninstall(&mut self)
        ensures
            final(self)@ == SyntaxView::empty(),
            final(self).highlighter is None,
            final(self).edited_at is None,
    {
        self.highlighter = None;
        self.noted = Ghost(0);
        self.clear_ranges();
        self.dirty = false;
        self.edited_at = None;
    }

    /// Where a line starts, with the recorded shifts.
    pub fn line_offset_of(&self, line: usize) -> (r: usize)
        requires
            line < self@.line_offsets.len(),
        ensures
            r == self@.line_offset(line as int),
    {
        let mut adjustment: isize = 0;
        let mut i: usize = 0;
        assert(self.shifts@.subrange(0, 0) =~= Seq::<(usize, isize)>::empty());
        while i < self.shifts.len()
            invariant
                i <= self.shifts@.len(),
                adjustment == shift_sum(self.shifts@.subrange(0, i as int), line as int),
            decreases self.shifts@.len() - i,
        {
            let ghost part = self.shifts@.subrange(0, i + 1);
            assert(part.drop_last() =~= self.shifts@.subrange(0, i as int));
            assert(part.last() == self.shifts@[i as int]);
            let (first_line, delta) = self.shifts[i];
            if first_line <= line {
                adjustment = plus_signed(adjustment, delta);
            }
            i += 1;
        }
        assert(self.shifts@.subrange(0, self.shifts@.len() as int) =~= self.shifts@);
        shift_offset(self.line_offsets[line], adjustment)
    }

    /// Moves the ranges along with an edit.
    pub fn adjust_for_edit(&mut self, start: usize, removed_len: usize, inserted_len: usize)
        ensures
            final(self)@ == old(self)@.adjusted(
                start as int,
                removed_len as int,
                inserted_len as int,
            ),
            final(self).highlighter == old(self).highlighter,
            final(self).edited_at == old(self).edited_at,
    {
        if self.highlights.len() == 0 {
            return;
        }
        self.highlights = adjust_spans(&self.highlights, start, removed_len, inserted_len);
        if self.highlights.len() == 0 {
            self.line_offsets = Vec::new();
            self.shifts = Vec::new();
        }
    }

    /// Records how far an edit of `row` moved the lines behind it.
    fn add_shift(&mut self, row: usize, delta: isize)
        requires
            row < usize::MAX,
        ensures
            final(self)@ == old(self)@.shifted(row as int, delta as int),
            final(self).highlighter == old(self).highlighter,
            final(self).edited_at == old(self).edited_at,
    {
        if delta == 0 {
            return;
        }
        let count: usize = self.shifts.len();
        if count > 0 && self.shifts[count - 1].0 == row + 1 {
            let sum: isize = plus_signed(self.shifts[count - 1].1, delta);
            self.shifts.set(count - 1, (row + 1, sum));
        } else {
            self.shifts.push((row + 1, delta));
        }
    }

    /// Moves the ranges along where bytes of one line were replaced.
    pub fn edit_bytes(&mut self, row: usize, start: usize, removed_len: usize, inserted_len: usize)
        requires
            row < usize::MAX,
            old(self)@.highlights.len() > 0 ==> row < old(self)@.line_offsets.len(),
        ensures
            final(self)@ == old(self)@.bytes_edited(
                row as int,
                start as int,
                removed_len as int,
                inserted_len as int,
            ),
            final(self).highlighter == old(self).highlighter,
            final(self).edited_at == old(self).edited_at,
    {
        if self.highlights.len() == 0 {
            return;
        }
        let line_start: usize = self.line_offset_of(row);
        self.adjust_for_edit(plus_of(line_start, start), removed_len, inserted_len);
        self.add_shift(row, delta_of(inserted_len, removed_len));
    }

    /// Moves the ranges along where whole lines were replaced. This is done
    /// before the text changes; `lines_replaced` follows.
    pub fn edit_lines(
        &mut self,
        before: &Vec<Vec<u8>>,
        start: usize,
        removed: &Vec<Vec<u8>>,
        inserted: &Vec<Vec<u8>>,
    )
        ensures
            final(self)@ == old(self)@.adjusted(
                if start < old(self)@.line_offsets.len() {
                    old(self)@.line_offset(start as int)
                } else {
                    fit(serialized_len(text_of(before@)))
                },
                fit(serialized_len(text_of(removed@))),
                fit(serialized_len(text_of(inserted@))),
            ),
            final(self).highlighter == old(self).highlighter,
            final(self).edited_at == old(self).edited_at,
    {
        if self.highlights.len() == 0 {
            return;
        }
        let at: usize = if start < self.line_offsets.len() {
            self.line_offset_of(start)
        } else {
            fit_of(crate::text::serialized_lines_len(before))
        };
        let removed_len: usize = fit_of(crate::text::serialized_lines_len(removed));
        let inserted_len: usize = fit_of(crate::text::serialized_lines_len(inserted));
        self.adjust_for_edit(at, removed_len, inserted_len);
    }

    /// Computes the line starts anew after whole lines were replaced.
    pub fn lines_replaced(&mut self, after: &Vec<Vec<u8>>)
        ensures
            final(self)@ == (if old(self)@.highlights.len() == 0 {
                old(self)@
            } else {
                SyntaxView {
                    line_offsets: line_starts(text_of(after@)),
                    shifts: Seq::empty(),
                    ..old(self)@
                }
            }),
            final(self).highlighter == old(self).highlighter,
            final(self).edited_at == old(self).edited_at,
    {
        if self.highlights.len() > 0 {
            self.line_offsets = line_offsets(after);
            self.shifts = Vec::new();
        }
    }

    /// Puts a full result into place.
    pub fn set_highlights(&mut self, lines: &Vec<Vec<u8>>, highlights: Vec<HighlightSpan>)
        ensures
            final(self)@ == old(self)@.with_highlights(text_of(lines@), highlights@),
            final(self).highlighter == old(self).highlighter,
            final(self).edited_at == old(self).edited_at,
    {
        self.line_offsets = if highlights.len() == 0 {
            Vec::new()
        } else {
            line_offsets(lines)
        };
        self.shifts = Vec::new();
        self.highlights = highlights;
        self.preview = Vec::new();
        self.preview_viewport = None;
        self.preview_range = None;
    }

    /// Puts the outcome of asking for a preview into place; whether there was
    /// a preview.
    pub fn set_preview(
        &mut self,
        lines: &Vec<Vec<u8>>,
        shown: Option<Vec<HighlightSpan>>,
        range: (usize, usize),
        viewport: (usize, usize),
    ) -> (r: bool)
        ensures
            final(self)@ == old(self)@.with_preview(
                text_of(lines@),
                spans_of(shown),
                range,
                viewport,
            ),
            r == (shown is Some),
            final(self).highlighter == old(self).highlighter,
            final(self).edited_at == old(self).edited_at,
    {
        self.preview_viewport = Some(viewport);
        match shown {
            None => {
                self.preview = Vec::new();
                self.preview_range = None;
                false
            },
            Some(preview) => {
                self.preview_range = Some(range);
                if preview.len() > 0 && self.line_offsets.len() == 0 {
                    self.line_offsets = line_offsets(lines);
                    self.shifts = Vec::new();
                } else if preview.len() == 0 && self.highlights.len() == 0 {
                    self.line_offsets = Vec::new();
                    self.shifts = Vec::new();
                }
                self.preview = preview;
                true
            },
        }
    }

    /// The snapshot in use: the one at hand, or the current text.
    fn take_snapshot(&mut self, lines: &Vec<Vec<u8>>, trailing: bool) -> (r: Vec<u8>)
        ensures
            r@ == old(self)@.current_snapshot(serialize(text_of(lines@), trailing)),
            final(self)@ == (SyntaxView { snapshot: None, ..old(self)@ }),
            final(self).highlighter == old(self).highlighter,
            final(self).edited_at == old(self).edited_at,
    {
        match self.snapshot.take() {
            Some(data) => data,
            None => serialize_lines(lines, trailing),
        }
    }

    /// Asks the highlighter for a preview of the visible bytes.
    fn ask_preview(&mut self, data: &[u8], range: (usize, usize)) -> (r: Option<
        Vec<HighlightSpan>,
    >)
        ensures
            final(self)@ == old(self)@,
            previewed_to(
                old(self).highlighter,
                data@,
                range,
                final(self).highlighter,
                spans_of(r),
            ),
            final(self).edited_at == old(self).edited_at,
    {
        let (after, shown) = ask_visible(self.highlighter.take(), data, range);
        self.highlighter = after;
        shown
    }

    /// Brings the preview up to date for a viewport; whether there is a new
    /// one.
    fn refresh_preview(
        &mut self,
        lines: &Vec<Vec<u8>>,
        trailing: bool,
        visible: Option<(usize, usize)>,
        viewport: (usize, usize),
    ) -> (r: bool)
        ensures
            exists|shown: Option<Seq<HighlightSpan>>|
                (final(self)@, r) == #[trigger] old(self)@.previewed(
                    text_of(lines@),
                    trailing,
                    visible,
                    viewport,
                    shown,
                ) && old(self)@.preview_asked(
                    old(self).highlighter,
                    final(self).highlighter,
                    text_of(lines@),
                    trailing,
                    visible,
                    viewport,
                    shown,
                ),
    {
        let ghost start = self@;
        let ghost text = text_of(lines@);
        let range = match visible {
            Some(range) => range,
            None => {
                assert((self@, false) == start.previewed(text, trailing, visible, viewport, None));
                return false;
            },
        };
        if let Some(known) = self.preview_viewport {
            if known.0 == viewport.0 && known.1 == viewport.1 {
                assert((self@, false) == start.previewed(text, trailing, visible, viewport, None));
                return false;
            }
        }
        let data = self.take_snapshot(lines, trailing);
        let shown = self.ask_preview(&data, range);
        self.snapshot = Some(data);
        let ghost spans = spans_of(shown);
        let r = self.set_preview(lines, shown, range, viewport);
        assert((self@, r) == start.previewed(text, trailing, visible, viewport, spans));
        r
    }

    /// Takes in what a poll brought while no new snapshot is due: a completed
    /// result, if there is one, and whether more work is in flight.
    pub fn accept_poll(
        &mut self,
        lines: &Vec<Vec<u8>>,
        completed: Option<Vec<HighlightSpan>>,
        busy: bool,
    ) -> (r: bool)
        ensures
            final(self)@ == ({
                let heard = SyntaxView { pending: busy, ..old(self)@ };
                let taken = match completed {
                    Some(highlights) => heard.with_highlights(text_of(lines@), highlights@),
                    None => heard,
                };
                if busy {
                    taken
                } else {
                    SyntaxView { snapshot: None, ..taken }
                }
            }),
            r == (completed is Some),
            final(self).highlighter == old(self).highlighter,
            final(self).edited_at == old(self).edited_at,
    {
        self.pending = busy;
        let updated = completed.is_some();
        if let Some(highlights) = completed {
            self.set_highlights(lines, highlights);
        }
        if !busy {
            self.snapshot = None;
        }
        updated
    }

    /// Takes in the answer to a snapshot: its ranges, and whether the
    /// highlighter has work in flight. The snapshot stays in use then, and so
    /// do the ranges at hand where the answer brings none. Whether the ranges
    /// changed.
    pub fn accept_highlights(
        &mut self,
        lines: &Vec<Vec<u8>>,
        data: Vec<u8>,
        highlighted: Vec<HighlightSpan>,
        busy: bool,
    ) -> (r: bool)
        ensures
            final(self)@ == old(self)@.snapshot_answered(
                text_of(lines@),
                data@,
                later_answers(highlighted@, busy, None),
            ),
            r == later_answers(highlighted@, busy, None).has_ranges(),
            final(self).highlighter == old(self).highlighter,
            final(self).edited_at is None,
    {
        let updated = !busy || highlighted.len() > 0;
        if updated {
            self.set_highlights(lines, highlighted);
        }
        self.pending = busy;
        self.dirty = false;
        self.edited_at = None;
        self.snapshot = if busy {
            Some(data)
        } else {
            None
        };
        updated
    }

    /// Whether the edits have not paused for long enough yet.
    fn is_early(&self) -> (r: bool)
        ensures
            may_be_early(self.edited_at, r),
    {
        match self.edited_at {
            Some(edited) => nanos_since(edited) < SYNTAX_HIGHLIGHT_DEBOUNCE,
            None => false,
        }
    }

    /// Polls the highlighter; what it completed, and whether it has work in
    /// flight.
    fn poll(&mut self) -> (r: (Option<Vec<HighlightSpan>>, bool))
        ensures
            final(self)@ == old(self)@,
            polled_to(old(self).highlighter, final(self).highlighter, spans_of(r.0)),
            may_be_busy(final(self).highlighter, r.1),
            final(self).edited_at == old(self).edited_at,
    {
        let (after, completed) = ask_poll(self.highlighter.take());
        self.highlighter = after;
        let busy = ask_busy(&self.highlighter);
        (completed, busy)
    }

    /// Hands a snapshot to the highlighter; the ranges that it returns, and
    /// whether it has work in flight then.
    fn hand_out(&mut self, data: &[u8]) -> (r: (Vec<HighlightSpan>, bool))
        ensures
            final(self)@ == old(self)@,
            highlighted_to(old(self).highlighter, data@, final(self).highlighter, r.0@),
            may_be_busy(final(self).highlighter, r.1),
            final(self).edited_at == old(self).edited_at,
    {
        let (after, highlighted) = ask_highlight(self.highlighter.take(), data);
        self.highlighter = after;
        let busy = ask_busy(&self.highlighter);
        (highlighted, busy)
    }

    /// Hands out the snapshot that is due and takes in what the highlighter
    /// answers; whether the ranges changed.
    fn request(
        &mut self,
        lines: &Vec<Vec<u8>>,
        trailing: bool,
        visible: Option<(usize, usize)>,
        viewport: (usize, usize),
    ) -> (r: bool)
        ensures
            exists|highlighted: Seq<HighlightSpan>, busy_after: bool, shown: Option<
                Seq<HighlightSpan>,
            >|
                {
                    let answers = #[trigger] later_answers(highlighted, busy_after, shown);
                    &&& (final(self)@, r) == old(self)@.requested(
                        text_of(lines@),
                        trailing,
                        visible,
                        viewport,
                        answers,
                    )
                    &&& old(self)@.snapshot_asked(
                        old(self).highlighter,
                        final(self).highlighter,
                        text_of(lines@),
                        trailing,
                        visible,
                        viewport,
                        answers,
                    )
                },
    {
        let ghost start = self@;
        let ghost text = text_of(lines@);
        let data = self.take_snapshot(lines, trailing);
        let ghost handed = data@;
        let (highlighted, busy_after) = self.hand_out(&data);
        let ghost asked = self.highlighter;
        let ghost spans = highlighted@;
        let mut updated = self.accept_highlights(lines, data, highlighted, busy_after);
        let ghost answered = self@;
        let ghost mut shown: Option<Seq<HighlightSpan>> = None;
        assert(answered == start.snapshot_answered(
            text,
            handed,
            later_answers(spans, busy_after, shown),
        ));
        if busy_after {
            let more = self.refresh_preview(lines, trailing, visible, viewport);
            proof {
                shown =
                choose|shown: Option<Seq<HighlightSpan>>|
                    (self@, more) == #[trigger] answered.previewed(
                        text,
                        trailing,
                        visible,
                        viewport,
                        shown,
                    ) && answered.preview_asked(
                        asked,
                        self.highlighter,
                        text,
                        trailing,
                        visible,
                        viewport,
                        shown,
                    );
            }
            updated = updated || more;
        }
        proof {
            let answers = later_answers(spans, busy_after, shown);
            assert(answered == start.snapshot_answered(text, handed, answers));
            assert((self@, updated) == start.requested(text, trailing, visible, viewport, answers));
            assert(start.snapshot_asked(
                old(self).highlighter,
                self.highlighter,
                text,
                trailing,
                visible,
                viewport,
                answers,
            ));
        }
        updated
    }

    /// Polls completed background work and, when necessary, requests a new
    /// snapshot. A render may also supply the byte range of its visible rows
    /// so a highlighter can provide a synchronous preview while a full parse
    /// is pending. The result tells whether the ranges changed.
    ///
    /// The state that follows is the one that `refreshed` gives for what the
    /// installed highlighter and the clock answered.
    pub fn refresh(
        &mut self,
        lines: &Vec<Vec<u8>>,
        trailing: bool,
        force: bool,
        visible: Option<(usize, usize)>,
        viewport: (usize, usize),
    ) -> (r: bool)
        requires
            old(self)@.wf(lines@.len()),
        ensures
            final(self)@.wf(lines@.len()),
            final(self)@.installed == old(self)@.installed,
            exists|answers: Answers|
                (final(self)@, r) == #[trigger] old(self)@.refreshed(
                    text_of(lines@),
                    trailing,
                    force,
                    visible,
                    viewport,
                    answers,
                ) && old(self)@.answered(
                    old(self).highlighter,
                    final(self).highlighter,
                    old(self).edited_at,
                    text_of(lines@),
                    trailing,
                    force,
                    visible,
                    viewport,
                    answers,
                ),
    {
        let ghost start = self@;
        let ghost text = text_of(lines@);
        let ghost first = self.highlighter;
        let (completed, busy) = self.poll();
        let ghost polled = self.highlighter;
        let ghost mut answers = Answers {
            completed: spans_of(completed),
            busy,
            ..later_answers(Seq::empty(), false, None)
        };
        assert(polled_to(first, polled, answers.completed));
        if !self.dirty {
            let mut updated = self.accept_poll(lines, completed, busy);
            let ghost taken = self@;
            if busy {
                let more = self.refresh_preview(lines, trailing, visible, viewport);
                proof {
                    answers.shown =
                    choose|shown: Option<Seq<HighlightSpan>>|
                        (self@, more) == #[trigger] taken.previewed(
                            text,
                            trailing,
                            visible,
                            viewport,
                            shown,
                        ) && taken.preview_asked(
                            polled,
                            self.highlighter,
                            text,
                            trailing,
                            visible,
                            viewport,
                            shown,
                        );
                    assert(taken == start.poll_heard(text, answers));
                }
                updated = updated || more;
            }
            assert((self@, updated) == start.refreshed(
                text,
                trailing,
                force,
                visible,
                viewport,
                answers,
            ));
            assert(start.answered_on(
                polled,
                self.highlighter,
                old(self).edited_at,
                text,
                trailing,
                force,
                visible,
                viewport,
                answers,
            ));
            return updated;
        }
        self.pending = busy;
        let ghost heard = self@;
        if !force {
            let early = self.is_early();
            proof {
                answers.early = early;
            }
            if early {
                assert((self@, false) == start.refreshed(
                    text,
                    trailing,
                    force,
                    visible,
                    viewport,
                    answers,
                ));
                assert(start.answered_on(
                    polled,
                    self.highlighter,
                    old(self).edited_at,
                    text,
                    trailing,
                    force,
                    visible,
                    viewport,
                    answers,
                ));
                return false;
            }
            if busy {
                let more = self.refresh_preview(lines, trailing, visible, viewport);
                proof {
                    answers.shown =
                    choose|shown: Option<Seq<HighlightSpan>>|
                        (self@, more) == #[trigger] heard.previewed(
                            text,
                            trailing,
                            visible,
                            viewport,
                            shown,
                        ) && heard.preview_asked(
                            polled,
                            self.highlighter,
                            text,
                            trailing,
                            visible,
                            viewport,
                            shown,
                        );
                }
                assert((self@, more) == start.refreshed(
                    text,
                    trailing,
                    force,
                    visible,
                    viewport,
                    answers,
                ));
                assert(start.answered_on(
                    polled,
                    self.highlighter,
                    old(self).edited_at,
                    text,
                    trailing,
                    force,
                    visible,
                    viewport,
                    answers,
                ));
                return more;
            }
        }
        let updated = self.request(lines, trailing, visible, viewport);
        proof {
            let (highlighted, busy_after, shown) = choose|
                highlighted: Seq<HighlightSpan>,
                busy_after: bool,
                shown: Option<Seq<HighlightSpan>>,
            |
                {
                    let later = #[trigger] later_answers(highlighted, busy_after, shown);
                    &&& (self@, updated) == heard.requested(text, trailing, visible, viewport, later)
                    &&& heard.snapshot_asked(
                        polled,
                        self.highlighter,
                        text,
                        trailing,
                        visible,
                        viewport,
                        later,
                    )
                };
            let later = later_answers(highlighted, busy_after, shown);
            answers.highlighted = highlighted;
            answers.busy_after = busy_after;
            answers.shown = shown;
            let data = heard.current_snapshot(serialize(text, trailing));
            assert(heard.snapshot_answered(text, data, later) == heard.snapshot_answered(
                text,
                data,
                answers,
            ));
            assert((self@, updated) == start.refreshed(
                text,
                trailing,
                force,
                visible,
                viewport,
                answers,
            ));
            assert(heard.snapshot_asked(
                polled,
                self.highlighter,
                text,
                trailing,
                visible,
                viewport,
                answers,
            ));
            assert(start.answered_on(
                polled,
                self.highlighter,
                old(self).edited_at,
                text,
                trailing,
                force,
                visible,
                viewport,
                answers,
            ));
        }
        updated
    }
}

/// The answers of a highlighter that was handed a snapshot; the others are
/// those of one that is idle.
pub open spec fn later_answers(
    highlighted: Seq<HighlightSpan>,
    busy_after: bool,
    shown: Option<Seq<HighlightSpan>>,
) -> Answers {
    Answers { completed: None, busy: false, early: false, highlighted, busy_after, shown }
}

/// Whether the changes of a text that were noted between two states are all
/// that happened to the text and its highlighter: the highlighter was told of
/// each and nothing else was done to it, and the new text is due for it.
/// Where none was noted, the text and the state are the same. A text is its
/// lines and whether the last one ends in a newline.
#[verifier::opaque]
pub open spec fn noted_between(
    text: (Vec<Vec<u8>>, bool),
    before: Syntax,
    text_after: (Vec<Vec<u8>>, bool),
    after: Syntax,
) -> bool {
    if after.noted@ == before.noted@ {
        text_after == text && after == before
    } else {
        &&& before.noted@ < after.noted@
        &&& told_times(
            before.highlighter,
            after.highlighter,
            (after.noted@ - before.noted@) as nat,
        )
        &&& after.highlighter is Some ==> {
            &&& after.dirty
            &&& after.snapshot is None
            &&& after.edited_at matches Some(time) ==> may_be_now(time)
        }
    }
}

/// One change that was noted.
pub(crate) proof fn lemma_one_noted(
    text: (Vec<Vec<u8>>, bool),
    before: Syntax,
    text_after: (Vec<Vec<u8>>, bool),
    after: Syntax,
)
    requires
        after.noted@ == before.noted@ + 1,
        told_once(before.highlighter, after.highlighter),
        after.highlighter is Some ==> {
            &&& after.dirty
            &&& after.snapshot is None
            &&& after.edited_at matches Some(time) ==> may_be_now(time)
        },
    ensures
        noted_between(text, before, text_after, after),
{
    reveal(noted_between);
    assert(told_along(seq![before.highlighter, after.highlighter]));
}

/// Where nothing happened, nothing was noted.
pub broadcast proof fn lemma_nothing_noted(text: (Vec<Vec<u8>>, bool), syntax: Syntax)
    ensures
        #[trigger] noted_between(text, syntax, text, syntax),
{
    reveal(noted_between);
}

/// What happened up to a state and what happened from there on.
pub broadcast proof fn lemma_noted_on(
    text: (Vec<Vec<u8>>, bool),
    before: Syntax,
    text_amid: (Vec<Vec<u8>>, bool),
    amid: Syntax,
    text_after: (Vec<Vec<u8>>, bool),
    after: Syntax,
)
    requires
        #[trigger] noted_between(text, before, text_amid, amid),
        #[trigger] noted_between(text_amid, amid, text_after, after),
    ensures
        noted_between(text, before, text_after, after),
{
    reveal(noted_between);
    if before.noted@ < amid.noted@ && amid.noted@ < after.noted@ {
        lemma_told_on(
            before.highlighter,
            amid.highlighter,
            after.highlighter,
            (amid.noted@ - before.noted@) as nat,
            (after.noted@ - amid.noted@) as nat,
        );
    }
}

/// What was noted adds up.
pub broadcast group group_noted {
    lemma_nothing_noted,
    lemma_noted_on,
}

/// The ranges of an optional list.
pub open spec fn spans_of(spans: Option<Vec<HighlightSpan>>) -> Option<Seq<HighlightSpan>> {
    match spans {
        Some(list) => Some(list@),
        None => None,
    }
}

} // verus!
