//! Where motions, character searches, bracket matching and pattern searches
//! lead.
use crate::bytes::{fit, imin, is_space, less, less_of, min_of, plus_of, text_of};
use crate::pattern::{
    cased, cased_bytes, find_pattern, find_pattern_before_case, find_pattern_case, pattern_found,
    pattern_found_before,
};
use vstd::prelude::*;

verus! {

/// The first byte at or behind `col` that is a space (or not, as asked), or
/// the last byte of the line.
pub open spec fn run_forward(line: Seq<u8>, col: int, space: bool) -> int
    decreases line.len() - col,
{
    if 0 <= col && col + 1 < line.len() && is_space(line[col]) == space {
        run_forward(line, col + 1, space)
    } else {
        col
    }
}

/// The last byte from `col` on that no space precedes.
pub open spec fn run_to_end(line: Seq<u8>, col: int) -> int
    decreases line.len() - col,
{
    if 0 <= col && col + 1 < line.len() && !is_space(line[col + 1]) {
        run_to_end(line, col + 1)
    } else {
        col
    }
}

/// Back over spaces, down to the start of the line.
pub open spec fn back_over_space(line: Seq<u8>, col: int) -> int
    decreases col,
{
    if col > 0 && col < line.len() && is_space(line[col]) {
        back_over_space(line, col - 1)
    } else {
        col
    }
}

/// Back to the byte behind the next space, or to the start of the line.
pub open spec fn back_to_space(line: Seq<u8>, col: int) -> int
    decreases col,
{
    if col > 0 && !is_space(line[col - 1]) {
        back_to_space(line, col - 1)
    } else {
        col
    }
}

/// The word motions.
#[derive(Clone, Copy, Debug, PartialEq, Eq, Structural)]
pub enum WordMotion {
    /// To the start of the next word.
    Next,
    /// To the end of the word.
    End,
    /// To the start of the word.
    Back,
}

/// Where one step of a word motion leads within a line.
pub open spec fn word_step(line: Seq<u8>, col: int, motion: WordMotion) -> int {
    match motion {
        WordMotion::Next => run_forward(line, run_forward(line, col, false), true),
        WordMotion::End => run_to_end(line, run_forward(line, col, true)),
        WordMotion::Back => back_to_space(
            line,
            back_over_space(line, less(imin(col, line.len() as int), 1)),
        ),
    }
}

/// Where `count` steps of a word motion lead within a line.
pub open spec fn word_steps(line: Seq<u8>, col: int, motion: WordMotion, count: int) -> int
    decreases count,
{
    if count <= 0 {
        col
    } else {
        word_steps(line, word_step(line, col, motion), motion, count - 1)
    }
}

/// The first byte of a line that is no space, from `at` on, or 0.
pub open spec fn first_nonblank_from(line: Seq<u8>, at: int) -> int
    decreases line.len() - at,
{
    if at < 0 || at >= line.len() {
        0
    } else if !is_space(line[at]) {
        at
    } else {
        first_nonblank_from(line, at + 1)
    }
}

/// The first byte of a line that is no space, or 0.
pub open spec fn first_nonblank(line: Seq<u8>) -> int {
    first_nonblank_from(line, 0)
}

/// Where a motion leads before the column is brought back into the line.
pub open spec fn raw_motion(
    lines: Seq<Seq<u8>>,
    row: int,
    col: int,
    command: u8,
    count: int,
) -> (int, int) {
    let line = lines[row];
    if command == 104 || command == 0x83 {
        (row, less(col, count))
    } else if command == 108 || command == 0x82 {
        (row, imin(col + count, less(line.len() as int, 1)))
    } else if command == 106 || command == 0x81 {
        (imin(row + count, lines.len() - 1), col)
    } else if command == 107 || command == 0x80 {
        (less(row, count), col)
    } else if command == 48 || command == 0x84 {
        (row, 0)
    } else if command == 94 {
        (row, first_nonblank(line))
    } else if command == 36 || command == 0x85 {
        (row, less(line.len() as int, 1))
    } else if command == 119 || command == 87 {
        (row, word_steps(line, col, WordMotion::Next, count))
    } else if command == 101 || command == 69 {
        (row, word_steps(line, col, WordMotion::End, count))
    } else if command == 98 || command == 66 {
        (row, word_steps(line, col, WordMotion::Back, count))
    } else {
        (row, col)
    }
}

/// Where a motion leads.
pub open spec fn motion_target(
    lines: Seq<Seq<u8>>,
    row: int,
    col: int,
    command: u8,
    count: int,
) -> (int, int) {
    let (new_row, new_col) = raw_motion(lines, row, col, command, count);
    (new_row, imin(new_col, less(lines[new_row].len() as int, 1)))
}

fn run_on(line: &[u8], col: usize, space: bool) -> (r: usize)
    ensures
        r == run_forward(line@, col as int, space),
{
    let mut at: usize = col;
    while at < line.len() && line.len() - at > 1 && is_space(line[at]) == space
        invariant
            run_forward(line@, at as int, space) == run_forward(line@, col as int, space),
        decreases line@.len() - at,
    {
        at += 1;
    }
    at
}

fn run_up_to_end(line: &[u8], col: usize) -> (r: usize)
    ensures
        r == run_to_end(line@, col as int),
{
    let mut at: usize = col;
    while at < line.len() && line.len() - at > 1 && !is_space(line[at + 1])
        invariant
            run_to_end(line@, at as int) == run_to_end(line@, col as int),
        decreases line@.len() - at,
    {
        at += 1;
    }
    at
}

fn run_back(line: &[u8], col: usize) -> (r: usize)
    requires
        col <= line@.len(),
    ensures
        r == back_to_space(line@, back_over_space(line@, col as int)),
{
    let mut at: usize = col;
    while at > 0 && at < line.len() && is_space(line[at])
        invariant
            at <= col <= line@.len(),
            back_over_space(line@, at as int) == back_over_space(line@, col as int),
        decreases at,
    {
        at -= 1;
    }
    let ghost over = at;
    assert(at == back_over_space(line@, col as int));
    while at > 0 && !is_space(line[at - 1])
        invariant
            at <= over <= line@.len(),
            back_to_space(line@, at as int) == back_to_space(line@, over as int),
        decreases at,
    {
        at -= 1;
    }
    at
}

fn word_step_of(line: &[u8], col: usize, motion: WordMotion) -> (r: usize)
    ensures
        r == word_step(line@, col as int, motion),
{
    match motion {
        WordMotion::Next => run_on(line, run_on(line, col, false), true),
        WordMotion::End => run_up_to_end(line, run_on(line, col, true)),
        WordMotion::Back => run_back(line, less_of(min_of(col, line.len()), 1)),
    }
}

proof fn lemma_word_steps_fixed(line: Seq<u8>, col: int, motion: WordMotion, count: int)
    requires
        word_step(line, col, motion) == col,
    ensures
        word_steps(line, col, motion, count) == col,
    decreases count,
{
    if count > 0 {
        lemma_word_steps_fixed(line, col, motion, count - 1);
    }
}

fn word_steps_of(line: &[u8], col: usize, motion: WordMotion, count: usize) -> (r: usize)
    ensures
        r == word_steps(line@, col as int, motion, count as int),
{
    let mut at: usize = col;
    let mut left: usize = count;
    while left > 0
        invariant
            word_steps(line@, at as int, motion, left as int) == word_steps(
                line@,
                col as int,
                motion,
                count as int,
            ),
        decreases left,
    {
        let next: usize = word_step_of(line, at, motion);
        if next == at {
            proof {
                lemma_word_steps_fixed(line@, at as int, motion, left as int);
            }
            return at;
        }
        at = next;
        left -= 1;
    }
    at
}

/// The first byte of a line that is no space, or 0.
pub fn first_nonblank_of(line: &[u8]) -> (r: usize)
    ensures
        r == first_nonblank(line@),
{
    let mut at: usize = 0;
    while at < line.len()
        invariant
            at <= line@.len(),
            first_nonblank_from(line@, at as int) == first_nonblank(line@),
        decreases line@.len() - at,
    {
        if !is_space(line[at]) {
            return at;
        }
        at += 1;
    }
    0
}

/// Where a motion leads.
pub fn motion(lines: &Vec<Vec<u8>>, row: usize, col: usize, command: u8, count: usize) -> (r: (
    usize,
    usize,
))
    requires
        row < lines@.len(),
    ensures
        (r.0 as int, r.1 as int) == motion_target(
            text_of(lines@),
            row as int,
            col as int,
            command,
            count as int,
        ),
        r.0 < lines@.len(),
{
    let line = &lines[row];
    let last: usize = less_of(line.len(), 1);
    let (new_row, new_col): (usize, usize) = if command == 104 || command == 0x83 {
        (row, less_of(col, count))
    } else if command == 108 || command == 0x82 {
        (row, min_of(plus_of(col, count), last))
    } else if command == 106 || command == 0x81 {
        (min_of(plus_of(row, count), lines.len() - 1), col)
    } else if command == 107 || command == 0x80 {
        (less_of(row, count), col)
    } else if command == 48 || command == 0x84 {
        (row, 0)
    } else if command == 94 {
        (row, first_nonblank_of(line))
    } else if command == 36 || command == 0x85 {
        (row, last)
    } else if command == 119 || command == 87 {
        (row, word_steps_of(line, col, WordMotion::Next, count))
    } else if command == 101 || command == 69 {
        (row, word_steps_of(line, col, WordMotion::End, count))
    } else if command == 98 || command == 66 {
        (row, word_steps_of(line, col, WordMotion::Back, count))
    } else {
        (row, col)
    };
    (new_row, min_of(new_col, less_of(lines[new_row].len(), 1)))
}

/// The next place from `from` on that holds `target`.
pub open spec fn next_byte(line: Seq<u8>, from: int, target: u8) -> Option<int>
    decreases line.len() - from,
{
    if from < 0 || from >= line.len() {
        None
    } else if line[from] == target {
        Some(from)
    } else {
        next_byte(line, from + 1, target)
    }
}

/// The last place before `before` that holds `target`.
pub open spec fn previous_byte(line: Seq<u8>, before: int, target: u8) -> Option<int>
    decreases before,
{
    if before <= 0 {
        None
    } else if line[before - 1] == target {
        Some(before - 1)
    } else {
        previous_byte(line, before - 1, target)
    }
}

/// Where a search for one character in the line leads: onto it, or next to it
/// on the side that the search came from.
pub open spec fn character_found(
    line: Seq<u8>,
    col: int,
    target: u8,
    forward: bool,
    till: bool,
) -> Option<int> {
    if forward {
        match next_byte(line, col + 1, target) {
            Some(found) => Some(
                if till {
                    found - 1
                } else {
                    found
                },
            ),
            None => None,
        }
    } else {
        match previous_byte(line, imin(col, line.len() as int), target) {
            Some(found) => Some(
                if till {
                    imin(found + 1, line.len() - 1)
                } else {
                    found
                },
            ),
            None => None,
        }
    }
}

/// Where a search for one character in the line leads.
pub fn find_character(line: &[u8], col: usize, target: u8, forward: bool, till: bool) -> (r: Option<
    usize,
>)
    ensures
        match r {
            Some(found) => character_found(line@, col as int, target, forward, till) == Some(
                found as int,
            ) && found < line@.len(),
            None => character_found(line@, col as int, target, forward, till) is None,
        },
{
    let total: usize = line.len();
    if forward {
        if col >= total {
            return None;
        }
        let mut at: usize = col + 1;
        while at < total
            invariant
                1 <= at,
                forward,
                total == line@.len(),
                next_byte(line@, at as int, target) == next_byte(line@, col + 1, target),
            decreases total - at,
        {
            if line[at] == target {
                return Some(
                    if till {
                        at - 1
                    } else {
                        at
                    },
                );
            }
            at += 1;
        }
        None
    } else {
        let start: usize = min_of(col, total);
        let mut at: usize = start;
        while at > 0
            invariant
                !forward,
                start == imin(col as int, total as int),
                at <= start <= total == line@.len(),
                previous_byte(line@, at as int, target) == previous_byte(
                    line@,
                    start as int,
                    target,
                ),
            decreases at,
        {
            if line[at - 1] == target {
                return Some(
                    if till {
                        min_of(at, total - 1)
                    } else {
                        at - 1
                    },
                );
            }
            at -= 1;
        }
        None
    }
}

/// The opening and the closing bracket of a pair, and whether the partner of
/// `byte` is to be looked for forward.
pub open spec fn bracket_pair(byte: u8) -> Option<(u8, u8, bool)> {
    if byte == 40 {
        Some((40u8, 41u8, true))
    } else if byte == 91 {
        Some((91u8, 93u8, true))
    } else if byte == 123 {
        Some((123u8, 125u8, true))
    } else if byte == 41 {
        Some((40u8, 41u8, false))
    } else if byte == 93 {
        Some((91u8, 93u8, false))
    } else if byte == 125 {
        Some((123u8, 125u8, false))
    } else {
        None
    }
}

/// Where the brackets that are open at `at` (`depth` of them) are closed.
pub open spec fn closed_at(line: Seq<u8>, at: int, depth: int, open: u8, close: u8) -> Option<int>
    decreases line.len() - at,
{
    if at < 0 || at >= line.len() {
        None
    } else if line[at] == open {
        closed_at(line, at + 1, depth + 1, open, close)
    } else if line[at] == close {
        if depth == 1 {
            Some(at)
        } else {
            closed_at(line, at + 1, depth - 1, open, close)
        }
    } else {
        closed_at(line, at + 1, depth, open, close)
    }
}

/// Where the brackets that are closed behind `before` (`depth` of them) are
/// opened.
pub open spec fn opened_at(line: Seq<u8>, before: int, depth: int, open: u8, close: u8) -> Option<
    int,
>
    decreases before,
{
    if before <= 0 {
        None
    } else if line[before - 1] == close {
        opened_at(line, before - 1, depth + 1, open, close)
    } else if line[before - 1] == open {
        if depth == 1 {
            Some(before - 1)
        } else {
            opened_at(line, before - 1, depth - 1, open, close)
        }
    } else {
        opened_at(line, before - 1, depth, open, close)
    }
}

/// The partner of the bracket at `col`.
pub open spec fn partner_of(line: Seq<u8>, col: int) -> Option<int> {
    if col >= line.len() {
        None
    } else {
        match bracket_pair(line[col]) {
            Some((open, close, forward)) => if forward {
                closed_at(line, col, 0, open, close)
            } else {
                opened_at(line, col + 1, 0, open, close)
            },
            None => None,
        }
    }
}

fn pair_of(byte: u8) -> (r: Option<(u8, u8, bool)>)
    ensures
        r == bracket_pair(byte),
{
    if byte == 40 {
        Some((40, 41, true))
    } else if byte == 91 {
        Some((91, 93, true))
    } else if byte == 123 {
        Some((123, 125, true))
    } else if byte == 41 {
        Some((40, 41, false))
    } else if byte == 93 {
        Some((91, 93, false))
    } else if byte == 125 {
        Some((123, 125, false))
    } else {
        None
    }
}

/// The partner of the bracket at `col`.
pub fn matching_delimiter(line: &[u8], col: usize) -> (r: Option<usize>)
    ensures
        match r {
            Some(found) => partner_of(line@, col as int) == Some(found as int) && found
                < line@.len(),
            None => partner_of(line@, col as int) is None,
        },
{
    let total: usize = line.len();
    if col >= total {
        return None;
    }
    let (open, close, forward) = match pair_of(line[col]) {
        Some(pair) => pair,
        None => {
            return None;
        },
    };
    let mut depth: u128 = 0;
    if forward {
        let mut at: usize = col;
        while at < total
            invariant
                forward,
                col < total,
                bracket_pair(line@[col as int]) == Some((open, close, forward)),
                col <= at <= total == line@.len(),
                depth <= at - col,
                at == col ==> line@[col as int] == open,
                at > col ==> depth >= 1,
                open != close,
                closed_at(line@, at as int, depth as int, open, close) == closed_at(
                    line@,
                    col as int,
                    0,
                    open,
                    close,
                ),
            decreases total - at,
        {
            if line[at] == open {
                depth = depth + 1;
            } else if line[at] == close {
                if depth == 1 {
                    return Some(at);
                }
                depth = depth - 1;
            }
            at += 1;
        }
        None
    } else {
        let mut before: usize = col + 1;
        while before > 0
            invariant
                !forward,
                bracket_pair(line@[col as int]) == Some((open, close, forward)),
                before <= col + 1 <= total == line@.len(),
                depth <= col + 1 - before,
                before == col + 1 ==> line@[col as int] == close,
                before <= col ==> depth >= 1,
                open != close,
                opened_at(line@, before as int, depth as int, open, close) == opened_at(
                    line@,
                    col + 1,
                    0,
                    open,
                    close,
                ),
            decreases before,
        {
            if line[before - 1] == close {
                depth = depth + 1;
            } else if line[before - 1] == open {
                if depth == 1 {
                    return Some((before - 1) as usize);
                }
                depth = depth - 1;
            }
            before -= 1;
        }
        None
    }
}

/// Where the bracket that closes at `position` is opened, if one does.
pub fn matching_position(line: &[u8], position: usize) -> (r: Option<usize>)
    ensures
        match r {
            Some(found) => position < line@.len() && (bracket_pair(
                line@[position as int],
            ) matches Some((open, close, forward)) && !forward) && partner_of(
                line@,
                position as int,
            ) == Some(found as int),
            None => position < line@.len() && (bracket_pair(line@[position as int]) matches Some(
                (open, close, forward),
            ) && !forward) ==> partner_of(line@, position as int) is None,
        },
{
    if position >= line.len() {
        return None;
    }
    match pair_of(line[position]) {
        Some((_, _, false)) => matching_delimiter(line, position),
        _ => None,
    }
}

/// Whether a line holds nothing but spaces.
pub open spec fn is_blank(line: Seq<u8>) -> bool {
    forall|i: int| 0 <= i < line.len() ==> is_space(#[trigger] line[i])
}

/// Whether a line holds nothing but spaces.
pub fn is_blank_line(line: &[u8]) -> (r: bool)
    ensures
        r == is_blank(line@),
{
    let mut i: usize = 0;
    while i < line.len()
        invariant
            i <= line@.len(),
            forall|j: int| 0 <= j < i ==> is_space(#[trigger] line@[j]),
        decreases line@.len() - i,
    {
        if !is_space(line[i]) {
            return false;
        }
        i += 1;
    }
    true
}

/// Where the paragraph motion leads: to the first line with text behind blank
/// lines, or to the end of the text on that side.
pub open spec fn paragraph_row(
    lines: Seq<Seq<u8>>,
    row: int,
    forward: bool,
    crossed: bool,
) -> int
    decreases
            if forward {
                lines.len() - row
            } else {
                row
            },
{
    if forward && row + 1 < lines.len() {
        if is_blank(lines[row + 1]) {
            paragraph_row(lines, row + 1, forward, true)
        } else if crossed {
            row + 1
        } else {
            paragraph_row(lines, row + 1, forward, false)
        }
    } else if !forward && row > 0 {
        if is_blank(lines[row - 1]) {
            paragraph_row(lines, row - 1, forward, true)
        } else if crossed {
            row - 1
        } else {
            paragraph_row(lines, row - 1, forward, false)
        }
    } else {
        row
    }
}

/// Where the paragraph motion leads.
pub fn paragraph(lines: &Vec<Vec<u8>>, row: usize, forward: bool) -> (r: usize)
    requires
        row < lines@.len(),
    ensures
        r == paragraph_row(text_of(lines@), row as int, forward, false),
        r < lines@.len(),
{
    let mut at: usize = row;
    let mut crossed = false;
    while (forward && lines.len() - at > 1) || (!forward && at > 0)
        invariant
            at < lines@.len(),
            paragraph_row(text_of(lines@), at as int, forward, crossed) == paragraph_row(
                text_of(lines@),
                row as int,
                forward,
                false,
            ),
        decreases
                if forward {
                    lines@.len() - at
                } else {
                    at as int
                },
    {
        let next: usize = if forward {
            at + 1
        } else {
            at - 1
        };
        if is_blank_line(&lines[next]) {
            crossed = true;
        } else if crossed {
            return next;
        }
        at = next;
    }
    at
}

/// The next line in a direction, around the end of the text.
pub open spec fn wrapped_row(row: int, count: int, forward: bool) -> int {
    if forward {
        if row + 1 >= count {
            0
        } else {
            row + 1
        }
    } else if row <= 0 {
        count - 1
    } else {
        row - 1
    }
}

/// The first of the next `steps` lines in which the pattern occurs, and where.
pub open spec fn row_found(
    lines: Seq<Seq<u8>>,
    row: int,
    steps: int,
    pattern: Seq<u8>,
    forward: bool,
    ignorecase: bool,
) -> Option<(int, int)>
    decreases steps,
{
    if steps <= 0 {
        None
    } else {
        let next = wrapped_row(row, lines.len() as int, forward);
        match pattern_found(cased(lines[next], ignorecase), cased(pattern, ignorecase), 0) {
            Some(col) => Some((next, col)),
            None => row_found(lines, next, steps - 1, pattern, forward, ignorecase),
        }
    }
}

/// The first of the lines from the next one around to this one in which the
/// pattern occurs, and where.
pub fn find_row(
    lines: &Vec<Vec<u8>>,
    row: usize,
    pattern: &[u8],
    forward: bool,
    ignorecase: bool,
) -> (r: Option<(usize, usize)>)
    requires
        row < lines@.len(),
    ensures
        match r {
            Some((at, col)) => row_found(
                text_of(lines@),
                row as int,
                lines@.len() as int,
                pattern@,
                forward,
                ignorecase,
            ) == Some((at as int, col as int)) && at < lines@.len(),
            None => row_found(
                text_of(lines@),
                row as int,
                lines@.len() as int,
                pattern@,
                forward,
                ignorecase,
            ) is None,
        },
{
    let wanted = cased_bytes(pattern, ignorecase);
    let mut at: usize = row;
    let mut left: usize = lines.len();
    while left > 0
        invariant
            at < lines@.len(),
            wanted@ == cased(pattern@, ignorecase),
            row_found(
                text_of(lines@),
                row as int,
                lines@.len() as int,
                pattern@,
                forward,
                ignorecase,
            ) == row_found(
                text_of(lines@),
                at as int,
                left as int,
                pattern@,
                forward,
                ignorecase,
            ),
        decreases left,
    {
        at = if forward {
            if lines.len() - at == 1 {
                0
            } else {
                at + 1
            }
        } else if at == 0 {
            lines.len() - 1
        } else {
            at - 1
        };
        let text = cased_bytes(&lines[at], ignorecase);
        if let Some(col) = find_pattern(&text, &wanted, 0) {
            return Some((at, col));
        }
        left -= 1;
    }
    None
}

/// Where a search for a pattern leads: in the line of the cursor behind (or
/// before) it, else in the lines around the text. The flag tells whether
/// another line had to be looked at.
pub open spec fn search_target(
    lines: Seq<Seq<u8>>,
    row: int,
    col: int,
    pattern: Seq<u8>,
    forward: bool,
    ignorecase: bool,
) -> Option<(int, int, bool)> {
    let text = cased(lines[row], ignorecase);
    let wanted = cased(pattern, ignorecase);
    let here = if forward {
        pattern_found(text, wanted, col + 1)
    } else {
        pattern_found_before(text, wanted, less(col, 1))
    };
    if pattern.len() == 0 {
        None
    } else if here is Some {
        Some((row, here->0, false))
    } else {
        match row_found(lines, row, lines.len() as int, pattern, forward, ignorecase) {
            Some((at, found)) => Some((at, found, true)),
            None => None,
        }
    }
}

/// Where a search for a pattern leads.
pub fn search_from(
    lines: &Vec<Vec<u8>>,
    row: usize,
    col: usize,
    pattern: &[u8],
    forward: bool,
    ignorecase: bool,
) -> (r: Option<(usize, usize, bool)>)
    requires
        row < lines@.len(),
    ensures
        match r {
            Some((at, found, wrapped)) => search_target(
                text_of(lines@),
                row as int,
                col as int,
                pattern@,
                forward,
                ignorecase,
            ) == Some((at as int, found as int, wrapped)) && at < lines@.len(),
            None => search_target(
                text_of(lines@),
                row as int,
                col as int,
                pattern@,
                forward,
                ignorecase,
            ) is None,
        },
{
    if pattern.len() == 0 {
        return None;
    }
    let here = if forward {
        find_pattern_case(&lines[row], pattern, plus_of(col, 1), ignorecase)
    } else {
        find_pattern_before_case(&lines[row], pattern, less_of(col, 1), ignorecase)
    };
    proof {
        let length: usize = lines@[row as int].len();
        assert(cased(text_of(lines@)[row as int], ignorecase).len() == length);
        assert(imin(fit(col + 1), length as int) == imin(col + 1, length as int));
        assert(imin(fit(col + 1), 1) == imin(col + 1, 1));
    }
    match here {
        Some(found) => Some((row, found, false)),
        None => match find_row(lines, row, pattern, forward, ignorecase) {
            Some((at, found)) => Some((at, found, true)),
            None => None,
        },
    }
}

} // verus!
