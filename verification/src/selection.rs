//! Selections made with the mouse: what they cover and the text they copy.
use crate::bytes::{imax, imin, is_word, max_of, min_of, push_all, push_range, text_of};
use crate::text::{join_lines, NEWLINE};
use vstd::prelude::*;

verus! {

/// A byte of a line of the text.
#[derive(Clone, Copy, Debug, PartialEq, Eq, Structural)]
pub struct SelectionPoint {
    pub line: usize,
    pub offset: usize,
}

/// What a selection is made of.
#[derive(Clone, Copy, Debug, PartialEq, Eq, Structural)]
pub enum SelectionKind {
    Characters,
    Word,
    Lines,
}

/// A selection: where it began, where it has got to, and whether the button is
/// still held.
#[derive(Clone, Copy, Debug, PartialEq, Eq, Structural)]
pub struct MouseSelection {
    pub anchor: SelectionPoint,
    pub focus: SelectionPoint,
    pub kind: SelectionKind,
    pub dragging: bool,
}

/// Whether one point lies before another or is the same.
pub open spec fn point_le(a: SelectionPoint, b: SelectionPoint) -> bool {
    a.line < b.line || (a.line == b.line && a.offset <= b.offset)
}

/// The ends of a selection of characters or of a word, the first one first.
/// The character under the last one belongs to a selection of characters.
pub open spec fn bounds_of(lines: Seq<Seq<u8>>, selection: MouseSelection) -> Option<
    (SelectionPoint, SelectionPoint),
> {
    let (start, end) = if point_le(selection.anchor, selection.focus) {
        (selection.anchor, selection.focus)
    } else {
        (selection.focus, selection.anchor)
    };
    if selection.anchor == selection.focus {
        None
    } else if selection.kind == SelectionKind::Characters {
        if end.line >= lines.len() {
            None
        } else if end.offset < lines[end.line as int].len() {
            Some((start, SelectionPoint { line: end.line, offset: (end.offset + 1) as usize }))
        } else {
            Some((start, end))
        }
    } else {
        Some((start, end))
    }
}

/// The ends of a selection of characters or of a word, the first one first.
pub fn selection_bounds(lines: &Vec<Vec<u8>>, selection: MouseSelection) -> (r: Option<
    (SelectionPoint, SelectionPoint),
>)
    ensures
        r == bounds_of(text_of(lines@), selection),
        r matches Some((start, end)) ==> point_le(start, end),
{
    if selection.anchor == selection.focus {
        return None;
    }
    let anchor = selection.anchor;
    let focus = selection.focus;
    let ordered = anchor.line < focus.line || (anchor.line == focus.line && anchor.offset
        <= focus.offset);
    let (start, end) = if ordered {
        (anchor, focus)
    } else {
        (focus, anchor)
    };
    if selection.kind == SelectionKind::Characters {
        if end.line >= lines.len() {
            return None;
        }
        if end.offset < lines[end.line].len() {
            return Some((start, SelectionPoint { line: end.line, offset: end.offset + 1 }));
        }
    }
    Some((start, end))
}

/// The bytes of a line that lie between two points.
pub open spec fn covered(
    lines: Seq<Seq<u8>>,
    start: SelectionPoint,
    end: SelectionPoint,
    line: int,
) -> (int, int) {
    let length = lines[line].len() as int;
    (
        if line == start.line {
            imin(start.offset as int, length)
        } else {
            0
        },
        if line == end.line {
            imin(end.offset as int, length)
        } else {
            length
        },
    )
}

fn covered_of(lines: &Vec<Vec<u8>>, start: SelectionPoint, end: SelectionPoint, line: usize) -> (r:
    (usize, usize))
    requires
        line < lines@.len(),
    ensures
        (r.0 as int, r.1 as int) == covered(text_of(lines@), start, end, line as int),
        r.0 <= lines@[line as int].len(),
        r.1 <= lines@[line as int].len(),
{
    let length: usize = lines[line].len();
    (
        if line == start.line {
            min_of(start.offset, length)
        } else {
            0
        },
        if line == end.line {
            min_of(end.offset, length)
        } else {
            length
        },
    )
}

/// The bytes of a line that a selection covers.
pub open spec fn offsets_on_line(
    lines: Seq<Seq<u8>>,
    selection: Option<MouseSelection>,
    line: int,
) -> Option<(int, int)> {
    match selection {
        None => None,
        Some(selection) => if selection.kind == SelectionKind::Lines {
            let first = imin(selection.anchor.line as int, selection.focus.line as int);
            let last = imax(selection.anchor.line as int, selection.focus.line as int);
            if first <= line <= last {
                Some(
                    (
                        0,
                        if line < lines.len() {
                            lines[line].len() as int
                        } else {
                            0
                        },
                    ),
                )
            } else {
                None
            }
        } else {
            match bounds_of(lines, selection) {
                None => None,
                Some((start, end)) => if line < start.line || line > end.line || line
                    >= lines.len() {
                    None
                } else {
                    let (first, last) = covered(lines, start, end, line);
                    if first < last {
                        Some((first, last))
                    } else {
                        None
                    }
                },
            }
        },
    }
}

/// Two offsets as values.
pub open spec fn offsets_of(offsets: Option<(usize, usize)>) -> Option<(int, int)> {
    match offsets {
        Some((start, end)) => Some((start as int, end as int)),
        None => None,
    }
}

/// The bytes of a line that a selection covers.
pub fn selection_offsets_on_line(
    lines: &Vec<Vec<u8>>,
    selection: Option<MouseSelection>,
    line: usize,
) -> (r: Option<(usize, usize)>)
    ensures
        offsets_of(r) == offsets_on_line(text_of(lines@), selection, line as int),
{
    let selection = match selection {
        Some(selection) => selection,
        None => {
            return None;
        },
    };
    if selection.kind == SelectionKind::Lines {
        let first: usize = min_of(selection.anchor.line, selection.focus.line);
        let last: usize = max_of(selection.anchor.line, selection.focus.line);
        if first <= line && line <= last {
            Some(
                (
                    0,
                    if line < lines.len() {
                        lines[line].len()
                    } else {
                        0
                    },
                ),
            )
        } else {
            None
        }
    } else {
        match selection_bounds(lines, selection) {
            None => None,
            Some((start, end)) => {
                if line < start.line || line > end.line || line >= lines.len() {
                    None
                } else {
                    let (first, last) = covered_of(lines, start, end, line);
                    if first < last {
                        Some((first, last))
                    } else {
                        None
                    }
                }
            },
        }
    }
}

/// The parts of the lines between two points.
pub open spec fn pieces(
    lines: Seq<Seq<u8>>,
    start: SelectionPoint,
    end: SelectionPoint,
) -> Seq<Seq<u8>> {
    Seq::new(
        (end.line - start.line + 1) as nat,
        |i: int|
            {
                let (first, last) = covered(lines, start, end, start.line + i);
                lines[start.line + i].subrange(first, last)
            },
    )
}

/// The text that a selection copies: its lines, or the parts of its lines,
/// with a newline between each two. An empty text is none.
pub open spec fn selected_text(lines: Seq<Seq<u8>>, selection: Option<MouseSelection>) -> Option<
    Seq<u8>,
> {
    match selection {
        None => None,
        Some(selection) => {
            let text = if selection.kind == SelectionKind::Lines {
                let first = imin(selection.anchor.line as int, selection.focus.line as int);
                let last = imin(
                    imax(selection.anchor.line as int, selection.focus.line as int),
                    lines.len() - 1,
                );
                if first <= last {
                    join_lines(lines.subrange(first, last + 1))
                } else {
                    Seq::empty()
                }
            } else {
                match bounds_of(lines, selection) {
                    None => Seq::empty(),
                    Some((start, end)) => if end.line < lines.len() {
                        join_lines(pieces(lines, start, end))
                    } else {
                        Seq::empty()
                    },
                }
            };
            if text.len() == 0 {
                None
            } else {
                Some(text)
            }
        },
    }
}

proof fn lemma_join_push(lines: Seq<Seq<u8>>, line: Seq<u8>)
    ensures
        join_lines(lines.push(line)) == (if lines.len() == 0 {
            line
        } else {
            join_lines(lines).push(NEWLINE) + line
        }),
{
    assert(lines.push(line).drop_last() =~= lines);
}

fn join_whole(lines: &Vec<Vec<u8>>, first: usize, last: usize) -> (r: Vec<u8>)
    requires
        first <= last < lines@.len(),
    ensures
        r@ == join_lines(text_of(lines@).subrange(first as int, last + 1)),
{
    let ghost text = text_of(lines@);
    let count: usize = lines.len();
    let mut r: Vec<u8> = Vec::new();
    let mut i: usize = first;
    assert(text.subrange(first as int, first as int) =~= Seq::<Seq<u8>>::empty());
    while i <= last
        invariant
            first <= i <= last + 1,
            last < count == lines@.len(),
            text == text_of(lines@),
            r@ == join_lines(text.subrange(first as int, i as int)),
        decreases last + 1 - i,
    {
        proof {
            lemma_join_push(text.subrange(first as int, i as int), text[i as int]);
            assert(text.subrange(first as int, i as int).push(text[i as int]) =~= text.subrange(
                first as int,
                i + 1,
            ));
        }
        if i > first {
            r.push(10);
        }
        push_all(&mut r, &lines[i]);
        if i == first {
            assert(r@ =~= text[i as int]);
        }
        i += 1;
    }
    r
}

fn join_pieces(lines: &Vec<Vec<u8>>, start: SelectionPoint, end: SelectionPoint) -> (r: Vec<u8>)
    requires
        point_le(start, end),
        end.line < lines@.len(),
    ensures
        r@ == join_lines(pieces(text_of(lines@), start, end)),
{
    let ghost text = text_of(lines@);
    let ghost all = pieces(text, start, end);
    let count: usize = lines.len();
    let mut r: Vec<u8> = Vec::new();
    let mut line: usize = start.line;
    assert(all.subrange(0, 0) =~= Seq::<Seq<u8>>::empty());
    while line <= end.line
        invariant
            point_le(start, end),
            start.line <= line <= end.line + 1,
            end.line < count == lines@.len(),
            text == text_of(lines@),
            all == pieces(text, start, end),
            r@ == join_lines(all.subrange(0, line - start.line)),
        decreases end.line + 1 - line,
    {
        let ghost done = line - start.line;
        proof {
            lemma_join_push(all.subrange(0, done), all[done]);
            assert(all.subrange(0, done).push(all[done]) =~= all.subrange(0, done + 1));
        }
        if line > start.line {
            r.push(10);
        }
        let (first, last) = covered_of(lines, start, end, line);
        push_range(&mut r, &lines[line], first, last);
        if line == start.line {
            assert(r@ =~= all[done]);
        }
        line += 1;
    }
    assert(all.subrange(0, all.len() as int) =~= all);
    r
}

/// Optional bytes as a value.
pub open spec fn text_copied(text: Option<Vec<u8>>) -> Option<Seq<u8>> {
    match text {
        Some(bytes) => Some(bytes@),
        None => None,
    }
}

/// The text that a selection copies.
pub fn selection_text(lines: &Vec<Vec<u8>>, selection: Option<MouseSelection>) -> (r: Option<
    Vec<u8>,
>)
    requires
        lines@.len() > 0,
    ensures
        text_copied(r) == selected_text(text_of(lines@), selection),
{
    let selection = match selection {
        Some(selection) => selection,
        None => {
            return None;
        },
    };
    let text = if selection.kind == SelectionKind::Lines {
        let first: usize = min_of(selection.anchor.line, selection.focus.line);
        let last: usize = min_of(
            max_of(selection.anchor.line, selection.focus.line),
            lines.len() - 1,
        );
        if first <= last {
            join_whole(lines, first, last)
        } else {
            Vec::new()
        }
    } else {
        match selection_bounds(lines, selection) {
            None => Vec::new(),
            Some((start, end)) => {
                if end.line < lines.len() {
                    join_pieces(lines, start, end)
                } else {
                    Vec::new()
                }
            },
        }
    };
    if text.len() == 0 {
        None
    } else {
        Some(text)
    }
}

/// What a selection of characters or of a word copies of a line is exactly
/// what it shows as selected there.
pub proof fn lemma_copied_is_shown(lines: Seq<Seq<u8>>, selection: MouseSelection, line: int)
    requires
        selection.kind != SelectionKind::Lines,
        forall|i: int| 0 <= i < lines.len() ==> (#[trigger] lines[i]).len() <= usize::MAX,
        bounds_of(lines, selection) matches Some((start, end)) && start.line <= line <= end.line
            && end.line < lines.len(),
    ensures
        ({
            let (start, end) = bounds_of(lines, selection)->0;
            pieces(lines, start, end)[line - start.line] == (match offsets_on_line(
                lines,
                Some(selection),
                line,
            ) {
                Some((first, last)) => lines[line].subrange(first, last),
                None => Seq::empty(),
            })
        }),
{
    let (start, end) = bounds_of(lines, selection)->0;
    let (first, last) = covered(lines, start, end, line);
    assert(lines[start.line + (line - start.line)] == lines[line]);
    assert(first <= last);
    if first >= last {
        assert(lines[line].subrange(first, last) =~= Seq::<u8>::empty());
    }
}

/// Where the run of word bytes (or of other bytes) around `at` begins.
pub open spec fn word_start(line: Seq<u8>, at: int, kind: bool) -> int
    decreases at,
{
    if at > 0 && is_word(line[at - 1]) == kind {
        word_start(line, at - 1, kind)
    } else {
        at
    }
}

/// Where the run of word bytes (or of other bytes) from `at` on ends.
pub open spec fn word_end(line: Seq<u8>, at: int, kind: bool) -> int
    decreases line.len() - at,
{
    if 0 <= at < line.len() && is_word(line[at]) == kind {
        word_end(line, at + 1, kind)
    } else {
        at
    }
}

/// The word, or the run of other bytes, that holds the byte at `offset`.
pub open spec fn word_around(line: Seq<u8>, offset: int) -> (int, int) {
    if line.len() == 0 {
        (offset, offset)
    } else {
        let at = imin(offset, line.len() - 1);
        let kind = is_word(line[at]);
        (word_start(line, at, kind), word_end(line, at + 1, kind))
    }
}

/// The word, or the run of other bytes, that holds the byte at `offset`.
pub fn word_bounds(line: &[u8], offset: usize) -> (r: (usize, usize))
    ensures
        (r.0 as int, r.1 as int) == word_around(line@, offset as int),
{
    let total: usize = line.len();
    if total == 0 {
        return (offset, offset);
    }
    let at: usize = min_of(offset, total - 1);
    let kind = is_word(line[at]);
    let mut start: usize = at;
    while start > 0 && is_word(line[start - 1]) == kind
        invariant
            start <= at < line@.len(),
            word_start(line@, start as int, kind) == word_start(line@, at as int, kind),
        decreases start,
    {
        start -= 1;
    }
    let mut end: usize = at + 1;
    while end < total && is_word(line[end]) == kind
        invariant
            at < end <= total == line@.len(),
            word_end(line@, end as int, kind) == word_end(line@, at + 1, kind),
        decreases total - end,
    {
        end += 1;
    }
    (start, end)
}

} // verus!
