//! What the mouse does: selecting text, and moving the visible part of it.
use crate::bytes::{fit, imin, less, less_of, min_of, plus_of};
use crate::document::unedited;
use crate::editor::{Editor, EditorView, MouseView};
use crate::keys::{KeyReader, MouseButton, MouseEvent, MouseEventKind, ReaderView};
use crate::screen::{byte_offset_at_display_column, offset_shown_from, ScreenView};
use crate::selection::{
    selected_text, selection_text, text_copied, word_around, word_bounds, MouseSelection,
    SelectionKind, SelectionPoint,
};
use crate::syntax::{current_time, may_be_now, may_have_passed, nanos_since};
use std::time::Instant;
use vstd::prelude::*;

verus! {

broadcast use crate::syntax::group_noted;

/// How long, in nanoseconds, after a click another one counts as a second.
pub const DOUBLE_CLICK_WINDOW: u128 = 450_000_000;

/// Whether the clock may tell now that a click comes quickly after the last
/// one. Without a click before there is nothing to be quick after.
pub open spec fn may_be_quick(
    last_click: Option<(Instant, SelectionPoint, u8)>,
    quick: bool,
) -> bool {
    match last_click {
        Some((when, _, _)) => exists|elapsed: u128|
            #[trigger] may_have_passed(when, elapsed) && quick == (elapsed <= DOUBLE_CLICK_WINDOW),
        None => !quick,
    }
}

impl EditorView {
    /// The byte of the text under the mouse. Beside the text that is the start
    /// or the end of a line, and below it the end of the text; on the status
    /// line there is none.
    pub open spec fn point_at(self, mouse: MouseEvent) -> Option<SelectionPoint> {
        let last = self.doc.lines.len() - 1;
        let row = fit(self.screen.top + mouse.row);
        let line = imin(row, last);
        if mouse.row >= self.screen.body() {
            None
        } else if row > last {
            Some(SelectionPoint {
                line: line as usize,
                offset: self.doc.lines[line].len() as usize,
            })
        } else if mouse.column < self.gutter() {
            Some(SelectionPoint { line: line as usize, offset: 0 })
        } else {
            Some(SelectionPoint {
                line: line as usize,
                offset: offset_shown_from(
                    self.doc.lines[line],
                    0,
                    0,
                    fit(self.screen.left + (mouse.column - self.gutter())),
                    self.options.tabstop as int,
                ) as usize,
            })
        }
    }

    /// Whether the button is held since a selection began.
    pub open spec fn dragging(self) -> bool {
        self.mouse.selection matches Some(selection) && selection.dragging
    }

    /// Another selection.
    pub open spec fn selecting(self, selection: Option<MouseSelection>) -> EditorView {
        EditorView { mouse: MouseView { selection, ..self.mouse }, ..self }
    }

    /// The selection that is being made ended, and the text that it copies.
    pub open spec fn selection_ended(self) -> (EditorView, Option<Seq<u8>>) {
        match self.mouse.selection {
            Some(selection) => if selection.dragging {
                let selection = MouseSelection { dragging: false, ..selection };
                (
                    self.selecting(Some(selection)),
                    selected_text(self.doc.lines, Some(selection)),
                )
            } else {
                (self, None)
            },
            None => (self, None),
        }
    }

    /// How many clicks in a row a click at `point` makes, where it came quickly
    /// after the last one or not: at most three.
    pub open spec fn clicks(self, point: SelectionPoint, quick: bool) -> u8 {
        match self.mouse.clicked {
            Some((previous, count)) => if previous == point && quick && count < 3 {
                (count + 1) as u8
            } else {
                1
            },
            None => 1,
        }
    }

    /// What the button selects at `point`: a place, with the second click or
    /// with Control a word, with the third click or with Alt or the logo key a
    /// line.
    pub open spec fn selected_at(
        self,
        point: SelectionPoint,
        clicks: u8,
        mouse: MouseEvent,
    ) -> MouseSelection {
        let line = self.doc.lines[point.line as int];
        if clicks >= 3 || mouse.modifiers.alt || mouse.modifiers.logo {
            MouseSelection {
                anchor: SelectionPoint { line: point.line, offset: 0 },
                focus: SelectionPoint { line: point.line, offset: line.len() as usize },
                kind: SelectionKind::Lines,
                dragging: true,
            }
        } else if clicks == 2 || mouse.modifiers.control {
            let (start, end) = word_around(line, point.offset as int);
            MouseSelection {
                anchor: SelectionPoint { line: point.line, offset: start as usize },
                focus: SelectionPoint { line: point.line, offset: end as usize },
                kind: SelectionKind::Word,
                dragging: true,
            }
        } else {
            MouseSelection {
                anchor: point,
                focus: point,
                kind: SelectionKind::Characters,
                dragging: true,
            }
        }
    }

    /// The button pressed. A selection that was being made ends first. Holding
    /// Shift leaves the mouse to the terminal.
    pub open spec fn button_pressed(self, mouse: MouseEvent, quick: bool) -> (
        EditorView,
        Option<Seq<u8>>,
    ) {
        if mouse.modifiers.shift {
            (self, None)
        } else {
            let (ended, copied) = self.selection_ended();
            match ended.point_at(mouse) {
                None => (ended, copied),
                Some(point) => {
                    let clicks = ended.clicks(point, quick);
                    (
                        EditorView {
                            mouse: MouseView {
                                selection: Some(ended.selected_at(point, clicks, mouse)),
                                clicked: Some((point, clicks)),
                                ..ended.mouse
                            },
                            ..ended
                        },
                        copied,
                    )
                },
            }
        }
    }

    /// The visible part moved by what the mouse does.
    pub open spec fn moved_to(self, top: int, left: int) -> EditorView {
        EditorView {
            screen: ScreenView { top, left, ..self.screen },
            mouse: MouseView { scrolled: true, ..self.mouse },
            ..self
        }
    }

    /// The visible part moved where the mouse is at its border.
    pub open spec fn edge_scrolled(self, mouse: MouseEvent) -> EditorView {
        let last = self.doc.lines.len() - 1;
        self.moved_to(
            if mouse.row == 0 {
                less(self.screen.top, 1)
            } else if mouse.row + 1 >= self.screen.body() {
                imin(fit(self.screen.top + 1), last)
            } else {
                self.screen.top
            },
            if mouse.column <= self.gutter() {
                less(self.screen.left, 1)
            } else if mouse.column + 1 >= self.screen.cols {
                fit(self.screen.left + 1)
            } else {
                self.screen.left
            },
        )
    }

    /// The selection drawn out to where the mouse is.
    pub open spec fn dragged(self, mouse: MouseEvent) -> EditorView {
        let moved = self.edge_scrolled(mouse);
        match (moved.point_at(mouse), moved.mouse.selection) {
            (Some(point), Some(selection)) => moved.selecting(
                Some(
                    if selection.kind == SelectionKind::Lines {
                        MouseSelection {
                            focus: SelectionPoint {
                                line: point.line,
                                offset: moved.doc.lines[point.line as int].len() as usize,
                            },
                            ..selection
                        }
                    } else {
                        MouseSelection {
                            focus: point,
                            kind: SelectionKind::Characters,
                            ..selection
                        }
                    },
                ),
            ),
            _ => moved,
        }
    }

    /// The button let go. A selection that copies nothing and begins where it
    /// ends is dropped.
    pub open spec fn button_released(self) -> (EditorView, Option<Seq<u8>>) {
        let (ended, copied) = self.selection_ended();
        match ended.mouse.selection {
            Some(selection) => if copied is None && selection.anchor == selection.focus {
                (ended.selecting(None), copied)
            } else {
                (ended, copied)
            },
            None => (ended, copied),
        }
    }

    /// What the mouse does, and the text that it copies. `quick` tells whether
    /// a click came quickly after the last one.
    pub open spec fn mouse_handled(self, mouse: MouseEvent, quick: bool) -> (
        EditorView,
        Option<Seq<u8>>,
    ) {
        let last = self.doc.lines.len() - 1;
        match mouse.kind {
            MouseEventKind::Down(MouseButton::Left) => self.button_pressed(mouse, quick),
            MouseEventKind::Drag(MouseButton::Left) => if self.dragging() {
                (self.dragged(mouse), None)
            } else {
                (self, None)
            },
            // A motion without a button is the first reliable indication that
            // the release of the button was lost.
            MouseEventKind::Moved => self.selection_ended(),
            MouseEventKind::Up(MouseButton::Left) => self.button_released(),
            MouseEventKind::ScrollUp => (
                self.moved_to(less(self.screen.top, 3), self.screen.left),
                None,
            ),
            MouseEventKind::ScrollDown => (
                self.moved_to(imin(fit(self.screen.top + 3), last), self.screen.left),
                None,
            ),
            MouseEventKind::ScrollLeft => (
                self.moved_to(self.screen.top, less(self.screen.left, 3)),
                None,
            ),
            MouseEventKind::ScrollRight => (
                self.moved_to(self.screen.top, fit(self.screen.left + 3)),
                None,
            ),
            _ => (self, None),
        }
    }

    /// Whether the mouse clicks on the text.
    pub open spec fn clicked_on(self, mouse: MouseEvent) -> bool {
        mouse.kind == MouseEventKind::Down(MouseButton::Left) && !mouse.modifiers.shift
            && self.selection_ended().0.point_at(mouse) is Some
    }

    /// Whether the last click may be `after` once the mouse did something: a
    /// click on the text is noted with the time that the clock tells.
    #[verifier::opaque]
    pub open spec fn click_noted(
        self,
        mouse: MouseEvent,
        before: Option<(Instant, SelectionPoint, u8)>,
        after: Option<(Instant, SelectionPoint, u8)>,
    ) -> bool {
        if self.clicked_on(mouse) {
            after matches Some((when, _, _)) && may_be_now(when)
        } else {
            after == before
        }
    }

    /// Selection, scrolling and clicks of the mouse forgotten.
    pub open spec fn mouse_cleared(self) -> EditorView {
        EditorView { mouse: MouseView::idle(), ..self }
    }

    /// What a key does to the mouse before it is handled: it ends a selection
    /// and lets the visible part follow the cursor again.
    pub open spec fn key_announced(self) -> (EditorView, Option<Seq<u8>>) {
        let (ended, copied) = self.selection_ended();
        (
            if ended.mouse.selection is Some || ended.mouse.scrolled {
                ended.mouse_cleared()
            } else {
                ended
            },
            copied,
        )
    }

    /// What the mouse does once some texts were copied, and the texts then.
    #[verifier::opaque]
    pub open spec fn mouse_handled_on(self, texts: Seq<Seq<u8>>, mouse: MouseEvent, quick: bool) -> (
        EditorView,
        Seq<Seq<u8>>,
    ) {
        let (after, copied) = self.mouse_handled(mouse, quick);
        (
            after,
            match copied {
                Some(text) => texts.push(text),
                None => texts,
            },
        )
    }

    /// All that the mouse did, one after the other, and the texts that it
    /// copies. `quick` tells of each whether it came quickly after the last
    /// click.
    pub open spec fn mouse_drained(self, events: Seq<MouseEvent>, quick: Seq<bool>) -> (
        EditorView,
        Seq<Seq<u8>>,
    )
        decreases events.len(),
    {
        if events.len() == 0 || quick.len() == 0 {
            (self, Seq::empty())
        } else {
            let (before, texts) = self.mouse_drained(events.drop_last(), quick.drop_last());
            before.mouse_handled_on(texts, events.last(), quick.last())
        }
    }

    /// Whether the clock may have told of each of the events whether it came
    /// quickly after the last click, where that was `before` at first and is
    /// `after` in the end.
    pub open spec fn drained_in_time(
        self,
        events: Seq<MouseEvent>,
        quick: Seq<bool>,
        before: Option<(Instant, SelectionPoint, u8)>,
        after: Option<(Instant, SelectionPoint, u8)>,
    ) -> bool
        decreases events.len(),
    {
        if events.len() == 0 || quick.len() == 0 {
            after == before
        } else {
            exists|last: Option<(Instant, SelectionPoint, u8)>|
                {
                    &&& self.drained_in_time(events.drop_last(), quick.drop_last(), before, last)
                    &&& #[trigger] may_be_quick(last, quick.last())
                    &&& self.mouse_drained(events.drop_last(), quick.drop_last()).0.click_noted(
                        events.last(),
                        last,
                        after,
                    )
                }
        }
    }
}

/// One more event after the ones before.
proof fn lemma_drained_on(
    start: EditorView,
    events: Seq<MouseEvent>,
    quick: Seq<bool>,
    first: Option<(Instant, SelectionPoint, u8)>,
    last: Option<(Instant, SelectionPoint, u8)>,
    mouse: MouseEvent,
    came_quickly: bool,
    after: Option<(Instant, SelectionPoint, u8)>,
)
    requires
        start.drained_in_time(events, quick, first, last),
        may_be_quick(last, came_quickly),
        start.mouse_drained(events, quick).0.click_noted(mouse, last, after),
    ensures
        start.drained_in_time(events.push(mouse), quick.push(came_quickly), first, after),
        start.mouse_drained(events.push(mouse), quick.push(came_quickly)) == start.mouse_drained(
            events,
            quick,
        ).0.mouse_handled_on(start.mouse_drained(events, quick).1, mouse, came_quickly),
{
    assert(events.push(mouse).drop_last() =~= events);
    assert(quick.push(came_quickly).drop_last() =~= quick);
    assert(may_be_quick(last, quick.push(came_quickly).last()));
}

impl Editor {
    /// The byte of the text under the mouse.
    pub fn mouse_point(&self, mouse: MouseEvent) -> (r: Option<SelectionPoint>)
        requires
            self@.wf(),
        ensures
            r == self@.point_at(mouse),
            r matches Some(point) ==> point.line < self@.doc.lines.len() && point.offset
                <= self@.doc.lines[point.line as int].len(),
    {
        if mouse.row as usize >= self.screen.body_rows() {
            return None;
        }
        let last: usize = self.doc.lines.len() - 1;
        let row: usize = plus_of(self.screen.top, mouse.row as usize);
        let line: usize = min_of(row, last);
        if row > last {
            return Some(SelectionPoint { line, offset: self.doc.lines[line].len() });
        }
        let column: usize = mouse.column as usize;
        let gutter: usize = self.number_column_width();
        if column < gutter {
            return Some(SelectionPoint { line, offset: 0 });
        }
        let target: usize = plus_of(self.screen.left, column - gutter);
        Some(
            SelectionPoint {
                line,
                offset: byte_offset_at_display_column(
                    &self.doc.lines[line],
                    target,
                    self.options.tabstop,
                ),
            },
        )
    }

    fn is_dragging(&self) -> (r: bool)
        ensures
            r == self@.dragging(),
    {
        match self.mouse.selection {
            Some(selection) => selection.dragging,
            None => false,
        }
    }

    /// Ends the selection that is being made; the text that it copies.
    pub fn finish_mouse_selection(&mut self) -> (r: Option<Vec<u8>>)
        requires
            old(self)@.wf(),
        ensures
            (final(self)@, text_copied(r)) == old(self)@.selection_ended(),
            final(self)@.wf(),
            final(self)@.doc.origin == old(self)@.doc.origin,
            final(self).mouse.last_click == old(self).mouse.last_click,
            unedited(old(self).doc, final(self).doc),
    {
        match self.mouse.selection {
            Some(selection) => {
                if selection.dragging {
                    self.mouse.selection = Some(MouseSelection { dragging: false, ..selection });
                    selection_text(&self.doc.lines, self.mouse.selection)
                } else {
                    None
                }
            },
            None => None,
        }
    }

    /// Forgets selection, scrolling and clicks of the mouse.
    pub fn clear_mouse_selection(&mut self)
        requires
            old(self)@.wf(),
        ensures
            final(self)@ == old(self)@.mouse_cleared(),
            final(self)@.wf(),
            final(self)@.doc.origin == old(self)@.doc.origin,
            unedited(old(self).doc, final(self).doc),
    {
        self.mouse.selection = None;
        self.mouse.viewport_scrolled = false;
        self.mouse.last_click = None;
    }

    fn count_clicks(&self, point: SelectionPoint, quick: bool) -> (r: u8)
        ensures
            r == self@.clicks(point, quick),
    {
        match self.mouse.last_click {
            Some((_, previous, count)) => {
                if previous == point && quick && count < 3 {
                    count + 1
                } else {
                    1
                }
            },
            None => 1,
        }
    }

    fn select_at(&self, point: SelectionPoint, clicks: u8, mouse: MouseEvent) -> (r: MouseSelection)
        requires
            self@.wf(),
            point.line < self@.doc.lines.len(),
        ensures
            r == self@.selected_at(point, clicks, mouse),
    {
        let line = &self.doc.lines[point.line];
        if clicks >= 3 || mouse.modifiers.alt || mouse.modifiers.logo {
            MouseSelection {
                anchor: SelectionPoint { line: point.line, offset: 0 },
                focus: SelectionPoint { line: point.line, offset: line.len() },
                kind: SelectionKind::Lines,
                dragging: true,
            }
        } else if clicks == 2 || mouse.modifiers.control {
            let (start, end) = word_bounds(line, point.offset);
            MouseSelection {
                anchor: SelectionPoint { line: point.line, offset: start },
                focus: SelectionPoint { line: point.line, offset: end },
                kind: SelectionKind::Word,
                dragging: true,
            }
        } else {
            MouseSelection {
                anchor: point,
                focus: point,
                kind: SelectionKind::Characters,
                dragging: true,
            }
        }
    }

    fn press_button(&mut self, mouse: MouseEvent, quick: bool) -> (r: Option<Vec<u8>>)
        requires
            old(self)@.wf(),
        ensures
            (final(self)@, text_copied(r)) == old(self)@.button_pressed(mouse, quick),
            mouse.kind == MouseEventKind::Down(MouseButton::Left) ==> old(self)@.click_noted(
                mouse,
                old(self).mouse.last_click,
                final(self).mouse.last_click,
            ),
            final(self)@.wf(),
            final(self)@.doc.origin == old(self)@.doc.origin,
            unedited(old(self).doc, final(self).doc),
    {
        reveal(EditorView::click_noted);
        if mouse.modifiers.shift {
            return None;
        }
        let copied = self.finish_mouse_selection();
        if let Some(point) = self.mouse_point(mouse) {
            let clicks: u8 = self.count_clicks(point, quick);
            let selection = self.select_at(point, clicks, mouse);
            self.mouse.last_click = Some((current_time(), point, clicks));
            self.mouse.selection = Some(selection);
        }
        copied
    }

    fn shift_view(&mut self, top: usize, left: usize)
        requires
            old(self)@.wf(),
        ensures
            final(self)@ == old(self)@.moved_to(top as int, left as int),
            final(self)@.wf(),
            final(self)@.doc.origin == old(self)@.doc.origin,
            final(self).mouse.last_click == old(self).mouse.last_click,
            unedited(old(self).doc, final(self).doc),
    {
        self.screen.top = top;
        self.screen.left = left;
        self.mouse.viewport_scrolled = true;
    }

    /// Moves the visible part where the mouse is at its border.
    pub fn auto_scroll_for_mouse(&mut self, mouse: MouseEvent)
        requires
            old(self)@.wf(),
        ensures
            final(self)@ == old(self)@.edge_scrolled(mouse),
            final(self)@.wf(),
            final(self)@.doc.origin == old(self)@.doc.origin,
            final(self).mouse.last_click == old(self).mouse.last_click,
            unedited(old(self).doc, final(self).doc),
    {
        let last: usize = self.doc.lines.len() - 1;
        let row: usize = mouse.row as usize;
        let top: usize = if row == 0 {
            less_of(self.screen.top, 1)
        } else if plus_of(row, 1) >= self.screen.body_rows() {
            min_of(plus_of(self.screen.top, 1), last)
        } else {
            self.screen.top
        };
        let column: usize = mouse.column as usize;
        let left: usize = if column <= self.number_column_width() {
            less_of(self.screen.left, 1)
        } else if plus_of(column, 1) >= self.screen.cols {
            plus_of(self.screen.left, 1)
        } else {
            self.screen.left
        };
        self.shift_view(top, left);
    }

    fn drag_to(&mut self, mouse: MouseEvent)
        requires
            old(self)@.wf(),
        ensures
            final(self)@ == old(self)@.dragged(mouse),
            final(self)@.wf(),
            final(self)@.doc.origin == old(self)@.doc.origin,
            final(self).mouse.last_click == old(self).mouse.last_click,
            unedited(old(self).doc, final(self).doc),
    {
        self.auto_scroll_for_mouse(mouse);
        if let Some(point) = self.mouse_point(mouse) {
            if let Some(selection) = self.mouse.selection {
                let drawn = if selection.kind == SelectionKind::Lines {
                    MouseSelection {
                        focus: SelectionPoint {
                            line: point.line,
                            offset: self.doc.lines[point.line].len(),
                        },
                        ..selection
                    }
                } else {
                    MouseSelection {
                        focus: point,
                        kind: SelectionKind::Characters,
                        ..selection
                    }
                };
                self.mouse.selection = Some(drawn);
            }
        }
    }

    fn release_button(&mut self) -> (r: Option<Vec<u8>>)
        requires
            old(self)@.wf(),
        ensures
            (final(self)@, text_copied(r)) == old(self)@.button_released(),
            final(self)@.wf(),
            final(self)@.doc.origin == old(self)@.doc.origin,
            final(self).mouse.last_click == old(self).mouse.last_click,
            unedited(old(self).doc, final(self).doc),
    {
        let copied = self.finish_mouse_selection();
        if let Some(selection) = self.mouse.selection {
            if copied.is_none() && selection.anchor == selection.focus {
                self.mouse.selection = None;
            }
        }
        copied
    }

    /// Does what the mouse does; the text that it copies. `quick` tells whether
    /// a click came quickly after the last one.
    pub fn handle_mouse(&mut self, mouse: MouseEvent, quick: bool) -> (r: Option<Vec<u8>>)
        requires
            old(self)@.wf(),
        ensures
            (final(self)@, text_copied(r)) == old(self)@.mouse_handled(mouse, quick),
            old(self)@.click_noted(mouse, old(self).mouse.last_click, final(self).mouse.last_click),
            final(self)@.wf(),
            final(self)@.doc.origin == old(self)@.doc.origin,
            unedited(old(self).doc, final(self).doc),
    {
        reveal(EditorView::click_noted);
        let last: usize = self.doc.lines.len() - 1;
        let top: usize = self.screen.top;
        let left: usize = self.screen.left;
        match mouse.kind {
            MouseEventKind::Down(MouseButton::Left) => self.press_button(mouse, quick),
            MouseEventKind::Drag(MouseButton::Left) => {
                if self.is_dragging() {
                    self.drag_to(mouse);
                }
                None
            },
            MouseEventKind::Moved => self.finish_mouse_selection(),
            MouseEventKind::Up(MouseButton::Left) => self.release_button(),
            MouseEventKind::ScrollUp => {
                self.shift_view(less_of(top, 3), left);
                None
            },
            MouseEventKind::ScrollDown => {
                self.shift_view(min_of(plus_of(top, 3), last), left);
                None
            },
            MouseEventKind::ScrollLeft => {
                self.shift_view(top, less_of(left, 3));
                None
            },
            MouseEventKind::ScrollRight => {
                self.shift_view(top, plus_of(left, 3));
                None
            },
            _ => None,
        }
    }

    /// Whether a click now would come quickly after the last one.
    fn is_quick(&self) -> (r: bool)
        ensures
            may_be_quick(self.mouse.last_click, r),
    {
        match self.mouse.last_click {
            Some((when, _, _)) => nanos_since(when) <= DOUBLE_CLICK_WINDOW,
            None => false,
        }
    }

    /// Does what the mouse does; the text that it copies. The clock decides
    /// whether a click came quickly after the last one.
    pub fn handle_mouse_event(&mut self, mouse: MouseEvent) -> (r: Option<Vec<u8>>)
        requires
            old(self)@.wf(),
        ensures
            exists|quick: bool|
                (final(self)@, text_copied(r)) == #[trigger] old(self)@.mouse_handled(mouse, quick)
                    && may_be_quick(old(self).mouse.last_click, quick),
            old(self)@.click_noted(mouse, old(self).mouse.last_click, final(self).mouse.last_click),
            final(self)@.wf(),
            final(self)@.doc.origin == old(self)@.doc.origin,
            unedited(old(self).doc, final(self).doc),
    {
        let quick = self.is_quick();
        self.handle_mouse(mouse, quick)
    }

    /// Does what the mouse does and keeps the text that it copies; whether a
    /// click came quickly.
    fn handle_mouse_on(&mut self, texts: &mut Vec<Vec<u8>>, mouse: MouseEvent) -> (r: bool)
        requires
            old(self)@.wf(),
        ensures
            (final(self)@, crate::bytes::text_of(final(texts)@)) == old(self)@.mouse_handled_on(
                crate::bytes::text_of(old(texts)@),
                mouse,
                r,
            ),
            may_be_quick(old(self).mouse.last_click, r),
            old(self)@.click_noted(mouse, old(self).mouse.last_click, final(self).mouse.last_click),
            final(self)@.wf(),
            final(self)@.doc.origin == old(self)@.doc.origin,
            unedited(old(self).doc, final(self).doc),
    {
        reveal(EditorView::mouse_handled_on);
        let quick = self.is_quick();
        let ghost before = texts@;
        match self.handle_mouse(mouse, quick) {
            Some(text) => {
                texts.push(text);
                assert(crate::bytes::text_of(texts@) =~= crate::bytes::text_of(before).push(text@));
            },
            None => {},
        }
        quick
    }

    /// Does all that the mouse did. The result tells whether it did anything,
    /// and holds the texts that it copies.
    pub fn handle_mouse_queue(&mut self, reader: &mut KeyReader) -> (r: (bool, Vec<Vec<u8>>))
        requires
            old(self)@.wf(),
        ensures
            final(self)@.wf(),
            final(self)@.doc.origin == old(self)@.doc.origin,
            final(reader)@ == (ReaderView { mouse: Seq::empty(), ..old(reader)@ }),
            r.0 == (old(reader)@.mouse.len() > 0),
            exists|quick: Seq<bool>|
                quick.len() == old(reader)@.mouse.len() && (
                    final(self)@,
                    crate::bytes::text_of(r.1@),
                ) == #[trigger] old(self)@.mouse_drained(old(reader)@.mouse, quick)
                    && old(self)@.drained_in_time(
                    old(reader)@.mouse,
                    quick,
                    old(self).mouse.last_click,
                    final(self).mouse.last_click,
                ),
            unedited(old(self).doc, final(self).doc),
    {
        let mut handled = false;
        let mut texts: Vec<Vec<u8>> = Vec::new();
        let ghost start = self@;
        let ghost all = reader@;
        let ghost first_click = self.mouse.last_click;
        let ghost mut quicks: Seq<bool> = Seq::empty();
        let ghost mut count: int = 0;
        proof {
            assert(all.mouse.subrange(0, all.mouse.len() as int) =~= all.mouse);
            assert(all.mouse.subrange(0, 0) =~= Seq::<MouseEvent>::empty());
            assert(crate::bytes::text_of(texts@) =~= Seq::<Seq<u8>>::empty());
        }
        loop
            invariant
                self@.wf(),
                self@.doc.origin == old(self)@.doc.origin,
                unedited(old(self).doc, self.doc),
                0 <= count <= all.mouse.len(),
                quicks.len() == count,
                handled == (count > 0),
                reader@ == (ReaderView {
                    mouse: all.mouse.subrange(count, all.mouse.len() as int),
                    ..all
                }),
                (self@, crate::bytes::text_of(texts@)) == start.mouse_drained(
                    all.mouse.subrange(0, count),
                    quicks,
                ),
                start.drained_in_time(
                    all.mouse.subrange(0, count),
                    quicks,
                    first_click,
                    self.mouse.last_click,
                ),
            ensures
                count == all.mouse.len(),
            decreases all.mouse.len() - count,
        {
            match reader.take_mouse() {
                None => {
                    break;
                },
                Some(mouse) => {
                    handled = true;
                    let ghost last_click = self.mouse.last_click;
                    let quick = self.handle_mouse_on(&mut texts, mouse);
                    proof {
                        let events = all.mouse.subrange(0, count);
                        assert(all.mouse.subrange(0, count + 1) =~= events.push(mouse));
                        lemma_drained_on(
                            start,
                            events,
                            quicks,
                            first_click,
                            last_click,
                            mouse,
                            quick,
                            self.mouse.last_click,
                        );
                        quicks = quicks.push(quick);
                        assert(reader@.mouse =~= all.mouse.subrange(
                            count + 1,
                            all.mouse.len() as int,
                        ));
                        count = count + 1;
                    }
                },
            }
        }
        proof {
            assert(all.mouse.subrange(0, count) =~= all.mouse);
            assert(reader@.mouse =~= Seq::<MouseEvent>::empty());
        }
        (handled, texts)
    }

    /// Ends what the mouse began, before a key is handled: a release can be
    /// lost by a terminal or multiplexer while a drag is in progress, and the
    /// next key is an unambiguous end of it. The result is the text to copy.
    pub fn announce_key(&mut self) -> (r: Option<Vec<u8>>)
        requires
            old(self)@.wf(),
        ensures
            (final(self)@, text_copied(r)) == old(self)@.key_announced(),
            final(self)@.wf(),
            final(self)@.doc.origin == old(self)@.doc.origin,
            unedited(old(self).doc, final(self).doc),
    {
        let copied = self.finish_mouse_selection();
        if self.mouse.selection.is_some() || self.mouse.viewport_scrolled {
            self.clear_mouse_selection();
        }
        copied
    }
}

} // verus!
