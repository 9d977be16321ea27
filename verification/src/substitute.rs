//! Substitution: taking a `:s` command apart and replacing what a pattern
//! matches.
use crate::bytes::{is_digit, push_range};
use crate::pattern::{
    captures_valid, cased, cased_bytes, find_pattern, first_match, group_number_at, groups_of,
    holds_at, lemma_token_next, match_at, match_from, match_pattern_at, pattern_found, token_at,
    Captures, Groups, MatchContext,
};
use vstd::prelude::*;

verus! {

/// The first place from `from` on where the delimiter stands without a
/// backslash before it.
pub open spec fn delimiter_at(bytes: Seq<u8>, from: int, delimiter: u8) -> Option<int>
    decreases bytes.len() - from,
{
    if from < 0 || from >= bytes.len() {
        None
    } else if bytes[from] == 92 {
        if from + 1 < bytes.len() {
            delimiter_at(bytes, from + 2, delimiter)
        } else {
            None
        }
    } else if bytes[from] == delimiter {
        Some(from)
    } else {
        delimiter_at(bytes, from + 1, delimiter)
    }
}

/// The first place from `from` on where the delimiter stands without a
/// backslash before it.
pub fn find_delimiter(bytes: &[u8], from: usize, delimiter: u8) -> (r: Option<usize>)
    ensures
        match r {
            Some(at) => delimiter_at(bytes@, from as int, delimiter) == Some(at as int) && from
                <= at < bytes@.len(),
            None => delimiter_at(bytes@, from as int, delimiter) is None,
        },
{
    let mut index: usize = from;
    while index < bytes.len()
        invariant
            from <= index,
            delimiter_at(bytes@, index as int, delimiter) == delimiter_at(
                bytes@,
                from as int,
                delimiter,
            ),
        decreases bytes@.len() - index,
    {
        if bytes[index] == 92 {
            if index + 1 >= bytes.len() {
                return None;
            }
            if index + 2 >= bytes.len() {
                assert(delimiter_at(bytes@, index + 2, delimiter) is None);
                return None;
            }
            index += 2;
        } else if bytes[index] == delimiter {
            return Some(index);
        } else {
            index += 1;
        }
    }
    None
}

/// A pattern from place `at` on as it was meant: a backslash before the
/// delimiter is dropped, every other one kept.
pub open spec fn pattern_meant(bytes: Seq<u8>, at: int, delimiter: u8) -> Seq<u8>
    decreases bytes.len() - at,
{
    if at < 0 || at >= bytes.len() {
        Seq::empty()
    } else if bytes[at] == 92 && at + 1 < bytes.len() {
        (if bytes[at + 1] == delimiter {
            seq![delimiter]
        } else {
            seq![92u8, bytes[at + 1]]
        }) + pattern_meant(bytes, at + 2, delimiter)
    } else {
        seq![bytes[at]] + pattern_meant(bytes, at + 1, delimiter)
    }
}

/// A pattern as it was meant: a backslash before the delimiter is dropped,
/// every other one kept.
pub fn unescape_pattern_with_delimiter(bytes: &[u8], delimiter: u8) -> (r: Vec<u8>)
    ensures
        r@ == pattern_meant(bytes@, 0, delimiter),
{
    let mut result: Vec<u8> = Vec::new();
    let mut index: usize = 0;
    let total: usize = bytes.len();
    assert(result@ + pattern_meant(bytes@, 0, delimiter) =~= pattern_meant(bytes@, 0, delimiter));
    while index < total
        invariant
            index <= total == bytes@.len(),
            result@ + pattern_meant(bytes@, index as int, delimiter) == pattern_meant(
                bytes@,
                0,
                delimiter,
            ),
        decreases total - index,
    {
        let ghost before = result@;
        if bytes[index] == 92 && total - index > 1 {
            if bytes[index + 1] == delimiter {
                result.push(delimiter);
            } else {
                result.push(92);
                result.push(bytes[index + 1]);
            }
            index += 2;
            assert(result@ + pattern_meant(bytes@, index as int, delimiter) =~= before
                + pattern_meant(bytes@, index - 2, delimiter));
        } else {
            result.push(bytes[index]);
            index += 1;
            assert(result@ + pattern_meant(bytes@, index as int, delimiter) =~= before
                + pattern_meant(bytes@, index - 1, delimiter));
        }
    }
    assert(result@ + Seq::<u8>::empty() =~= result@);
    result
}

/// A pattern between slashes as it was meant.
pub fn unescape_pattern(bytes: &[u8]) -> (r: Vec<u8>)
    ensures
        r@ == pattern_meant(bytes@, 0, 47),
{
    unescape_pattern_with_delimiter(bytes, 47)
}

/// A replacement from place `at` on as it was meant: a backslash is dropped
/// unless a digit follows it.
pub open spec fn replacement_meant(bytes: Seq<u8>, at: int) -> Seq<u8>
    decreases bytes.len() - at,
{
    if at < 0 || at >= bytes.len() {
        Seq::empty()
    } else if bytes[at] == 92 && at + 1 < bytes.len() {
        (if is_digit(bytes[at + 1]) {
            seq![92u8, bytes[at + 1]]
        } else {
            seq![bytes[at + 1]]
        }) + replacement_meant(bytes, at + 2)
    } else {
        seq![bytes[at]] + replacement_meant(bytes, at + 1)
    }
}

/// A replacement as it was meant: a backslash is dropped unless a digit
/// follows it.
pub fn unescape_replacement(bytes: &[u8]) -> (r: Vec<u8>)
    ensures
        r@ == replacement_meant(bytes@, 0),
{
    let mut result: Vec<u8> = Vec::new();
    let mut index: usize = 0;
    let total: usize = bytes.len();
    assert(result@ + replacement_meant(bytes@, 0) =~= replacement_meant(bytes@, 0));
    while index < total
        invariant
            index <= total == bytes@.len(),
            result@ + replacement_meant(bytes@, index as int) == replacement_meant(bytes@, 0),
        decreases total - index,
    {
        let ghost before = result@;
        if bytes[index] == 92 && total - index > 1 {
            if is_digit(bytes[index + 1]) {
                result.push(92);
            }
            result.push(bytes[index + 1]);
            index += 2;
            assert(result@ + replacement_meant(bytes@, index as int) =~= before
                + replacement_meant(bytes@, index - 2));
        } else {
            result.push(bytes[index]);
            index += 1;
            assert(result@ + replacement_meant(bytes@, index as int) =~= before
                + replacement_meant(bytes@, index - 1));
        }
    }
    assert(result@ + Seq::<u8>::empty() =~= result@);
    result
}

/// What a group captured.
pub open spec fn captured_text(line: Seq<u8>, groups: Groups, group: int) -> Seq<u8> {
    match groups[group] {
        Some((start, end)) => line.subrange(start, end),
        None => Seq::empty(),
    }
}

/// The replacement from place `at` on for the match from `start` to `end`:
/// `&` stands for the match, a backslash and a digit for what that group
/// captured, and a backslash before anything else for that byte itself.
pub open spec fn replacement_text(
    replacement: Seq<u8>,
    at: int,
    line: Seq<u8>,
    start: int,
    end: int,
    groups: Groups,
) -> Seq<u8>
    decreases replacement.len() - at,
{
    if at < 0 || at >= replacement.len() {
        Seq::empty()
    } else if replacement[at] == 38 {
        line.subrange(start, end) + replacement_text(replacement, at + 1, line, start, end, groups)
    } else if replacement[at] == 92 && at + 1 < replacement.len() {
        (if is_digit(replacement[at + 1]) {
            captured_text(line, groups, replacement[at + 1] - 48)
        } else {
            seq![replacement[at + 1]]
        }) + replacement_text(replacement, at + 2, line, start, end, groups)
    } else {
        seq![replacement[at]] + replacement_text(replacement, at + 1, line, start, end, groups)
    }
}

/// Appends the replacement for the match from `start` to `end`.
pub fn append_replacement(
    output: &mut Vec<u8>,
    replacement: &[u8],
    line: &[u8],
    start: usize,
    end: usize,
    captures: Captures,
)
    requires
        start <= end <= line@.len(),
        captures_valid(captures, Seq::empty(), end as int),
    ensures
        final(output)@ == old(output)@ + replacement_text(
            replacement@,
            0,
            line@,
            start as int,
            end as int,
            groups_of(captures),
        ),
{
    let ghost groups = groups_of(captures);
    let mut index: usize = 0;
    let total: usize = replacement.len();
    while index < total
        invariant
            index <= total == replacement@.len(),
            start <= end <= line@.len(),
            captures_valid(captures, Seq::empty(), end as int),
            groups == groups_of(captures),
            output@ + replacement_text(
                replacement@,
                index as int,
                line@,
                start as int,
                end as int,
                groups,
            ) == old(output)@ + replacement_text(
                replacement@,
                0,
                line@,
                start as int,
                end as int,
                groups,
            ),
        decreases total - index,
    {
        let ghost before = output@;
        let ghost rest = |i: int|
            replacement_text(replacement@, i, line@, start as int, end as int, groups);
        if replacement[index] == 38 {
            push_range(output, line, start, end);
            index += 1;
            assert(output@ + rest(index as int) =~= before + rest(index - 1));
        } else if replacement[index] == 92 && total - index > 1 {
            let next: u8 = replacement[index + 1];
            if is_digit(next) {
                let group: usize = (next - 48) as usize;
                assert(groups[group as int] == (match captures@[group as int] {
                    Some((a, b)) => Some((a as int, b as int)),
                    None => None,
                }));
                if let Some((capture_start, capture_end)) = captures[group] {
                    push_range(output, line, capture_start, capture_end);
                } else {
                    assert(output@ =~= before + Seq::<u8>::empty());
                }
                assert(output@ =~= before + captured_text(line@, groups, group as int));
            } else {
                output.push(next);
            }
            index += 2;
            assert(output@ + rest(index as int) =~= before + rest(index - 2));
        } else {
            output.push(replacement[index]);
            index += 1;
            assert(output@ + rest(index as int) =~= before + rest(index - 1));
        }
    }
    assert(output@ + Seq::<u8>::empty() =~= output@);
}

proof fn lemma_match_from_bounds(
    text: Seq<u8>,
    at: int,
    pattern: Seq<u8>,
    pi: int,
    groups: Groups,
    open: Seq<int>,
)
    requires
        0 <= at <= text.len(),
    ensures
        match match_from(text, at, pattern, pi, groups, open) {
            Some((end, _)) => at <= end <= text.len(),
            None => true,
        },
    decreases pattern.len() - pi, text.len() - at,
{
    if pi < 0 || pi >= pattern.len() {
    } else if crate::pattern::escaped_at(pattern, pi, 40) {
        let group = group_number_at(pattern, pi);
        lemma_match_from_bounds(
            text,
            at,
            pattern,
            pi + 2,
            groups.update(group, Some((at, at))),
            open.push(group),
        );
    } else if crate::pattern::escaped_at(pattern, pi, 41) {
        lemma_match_from_bounds(
            text,
            at,
            pattern,
            pi + 2,
            crate::pattern::close_group(groups, open, at),
            crate::pattern::pop_group(open),
        );
    } else if pattern[pi] == 92 && pi + 1 < pattern.len() && is_digit(pattern[pi + 1]) {
        match groups[pattern[pi + 1] - 48] {
            Some((start, end)) => {
                let captured = text.subrange(start, end);
                if holds_at(text, at, captured) {
                    lemma_match_from_bounds(
                        text,
                        at + captured.len(),
                        pattern,
                        pi + 2,
                        groups,
                        open,
                    );
                }
            },
            None => {},
        }
    } else if pattern[pi] == 94 {
        lemma_match_from_bounds(text, at, pattern, pi + 1, groups, open);
    } else if pattern[pi] == 36 && pi + 1 == pattern.len() {
    } else {
        match token_at(pattern, pi) {
            None => {},
            Some((token, next)) => {
                lemma_token_next(pattern, pi);
                if at < text.len() {
                    lemma_match_from_bounds(text, at + 1, pattern, pi, groups, open);
                    lemma_match_from_bounds(text, at + 1, pattern, next, groups, open);
                }
                if crate::pattern::byte_at(pattern, next) == Some(42u8) {
                    lemma_match_from_bounds(text, at, pattern, next + 1, groups, open);
                }
            },
        }
    }
}

proof fn lemma_first_match_bounds(text: Seq<u8>, pattern: Seq<u8>, start: int, end: int)
    ensures
        match first_match(text, pattern, start, end) {
            Some(found) => start <= found <= end && match_at(text, found, pattern) is Some,
            None => true,
        },
    decreases end - start + 1,
{
    if start <= end && match_at(text, start, pattern) is None {
        lemma_first_match_bounds(text, pattern, start + 1, end);
    }
}

/// A match that is found lies at or behind the place that the search began at,
/// within the text, and ends there or behind it.
pub proof fn lemma_found_bounds(text: Seq<u8>, pattern: Seq<u8>, from: int)
    requires
        0 <= from <= text.len(),
    ensures
        match pattern_found(text, pattern, from) {
            Some(start) => from <= start <= text.len() && match match_at(text, start, pattern) {
                Some((end, _)) => start <= end <= text.len(),
                None => false,
            },
            None => true,
        },
{
    match pattern_found(text, pattern, from) {
        Some(start) => {
            if pattern.len() > 0 && pattern[0] == 94 {
                reveal_with_fuel(first_match, 2);
                assert(match_at(text, 1, pattern) is None);
            }
            lemma_first_match_bounds(text, pattern, from, text.len() as int);
            lemma_match_from_bounds(
                text,
                start,
                pattern,
                0,
                crate::pattern::no_groups(),
                Seq::empty(),
            );
        },
        None => {},
    }
}

/// The line from place `at` on with its first match replaced, or with all of
/// them, and how many that were.
pub open spec fn substituted_from(
    line: Seq<u8>,
    at: int,
    pattern: Seq<u8>,
    replacement: Seq<u8>,
    global: bool,
    ignorecase: bool,
) -> (Seq<u8>, int)
    decreases line.len() + 1 - at,
{
    if at < 0 || at > line.len() {
        (Seq::empty(), 0)
    } else {
        let text = cased(line, ignorecase);
        let wanted = cased(pattern, ignorecase);
        match pattern_found(text, wanted, at) {
            None => (line.subrange(at, line.len() as int), 0),
            Some(start) => match match_at(text, start, wanted) {
                None => (Seq::empty(), 0),
                Some((end, groups)) => {
                    proof {
                        lemma_found_bounds(text, wanted, at);
                    }
                    let here = line.subrange(at, start) + replacement_text(
                        replacement,
                        0,
                        line,
                        start,
                        end,
                        groups,
                    );
                    if !global {
                        (here + line.subrange(end, line.len() as int), 1)
                    } else if end == start {
                        if end == line.len() {
                            (here, 1)
                        } else {
                            let rest = substituted_from(
                                line,
                                end + 1,
                                pattern,
                                replacement,
                                global,
                                ignorecase,
                            );
                            (here + seq![line[end]] + rest.0, rest.1 + 1)
                        }
                    } else {
                        let rest = substituted_from(
                            line,
                            end,
                            pattern,
                            replacement,
                            global,
                            ignorecase,
                        );
                        (here + rest.0, rest.1 + 1)
                    }
                },
            },
        }
    }
}

/// The line with its first match replaced, or with all of them, and how many
/// that were.
pub open spec fn substituted(
    line: Seq<u8>,
    pattern: Seq<u8>,
    replacement: Seq<u8>,
    global: bool,
    ignorecase: bool,
) -> (Seq<u8>, int) {
    substituted_from(line, 0, pattern, replacement, global, ignorecase)
}

/// A line in which the pattern does not occur stays as it is.
pub proof fn lemma_no_match_no_change(
    line: Seq<u8>,
    pattern: Seq<u8>,
    replacement: Seq<u8>,
    global: bool,
    ignorecase: bool,
)
    requires
        pattern_found(cased(line, ignorecase), cased(pattern, ignorecase), 0) is None,
    ensures
        substituted(line, pattern, replacement, global, ignorecase) == (line, 0int),
{
    assert(line.subrange(0, line.len() as int) =~= line);
}

/// A substitution counts nothing exactly where the pattern does not occur.
pub proof fn lemma_count_tells_match(
    line: Seq<u8>,
    pattern: Seq<u8>,
    replacement: Seq<u8>,
    global: bool,
    ignorecase: bool,
)
    ensures
        (substituted(line, pattern, replacement, global, ignorecase).1 == 0) == (pattern_found(
            cased(line, ignorecase),
            cased(pattern, ignorecase),
            0,
        ) is None),
{
    lemma_found_bounds(cased(line, ignorecase), cased(pattern, ignorecase), 0);
    lemma_count_bounds(line, 0, pattern, replacement, global, ignorecase);
    match pattern_found(cased(line, ignorecase), cased(pattern, ignorecase), 0) {
        Some(start) => {
            let (end, groups) = match_at(
                cased(line, ignorecase),
                start,
                cased(pattern, ignorecase),
            )->0;
            lemma_count_bounds(line, end, pattern, replacement, global, ignorecase);
            lemma_count_bounds(line, end + 1, pattern, replacement, global, ignorecase);
        },
        None => {},
    }
}

/// A line has at most one match more than bytes.
pub proof fn lemma_count_bounds(
    line: Seq<u8>,
    at: int,
    pattern: Seq<u8>,
    replacement: Seq<u8>,
    global: bool,
    ignorecase: bool,
)
    ensures
        0 <= substituted_from(line, at, pattern, replacement, global, ignorecase).1,
        0 <= at <= line.len() ==> substituted_from(
            line,
            at,
            pattern,
            replacement,
            global,
            ignorecase,
        ).1 <= line.len() - at + 1,
    decreases line.len() + 1 - at,
{
    if 0 <= at <= line.len() {
        let text = cased(line, ignorecase);
        let wanted = cased(pattern, ignorecase);
        lemma_found_bounds(text, wanted, at);
        match pattern_found(text, wanted, at) {
            None => {},
            Some(start) => {
                let (end, groups) = match_at(text, start, wanted)->0;
                if end == start {
                    lemma_count_bounds(line, end + 1, pattern, replacement, global, ignorecase);
                } else {
                    lemma_count_bounds(line, end, pattern, replacement, global, ignorecase);
                }
            },
        }
    }
}

/// The line with its first match replaced, or with all of them, and how many
/// that were.
pub fn replace_pattern_case(
    line: &[u8],
    pattern: &[u8],
    replacement: &[u8],
    global: bool,
    ignorecase: bool,
) -> (r: (Vec<u8>, u128))
    ensures
        (r.0@, r.1 as int) == substituted(line@, pattern@, replacement@, global, ignorecase),
        r.1 <= line@.len() + 1,
{
    let text = cased_bytes(line, ignorecase);
    let wanted = cased_bytes(pattern, ignorecase);
    let mut output: Vec<u8> = Vec::new();
    let mut source_at: usize = 0;
    let mut changed: u128 = 0;
    let total: usize = line.len();
    let ghost spec_from = |at: int|
        substituted_from(line@, at, pattern@, replacement@, global, ignorecase);
    assert(output@ + spec_from(0).0 =~= spec_from(0).0);
    loop
        invariant_except_break
            changed <= source_at,
            output@ + spec_from(source_at as int).0 == spec_from(0).0,
            changed + spec_from(source_at as int).1 == spec_from(0).1,
        invariant
            source_at <= total == line@.len(),
            text@ == cased(line@, ignorecase),
            wanted@ == cased(pattern@, ignorecase),
            spec_from == (|at: int|
                substituted_from(line@, at, pattern@, replacement@, global, ignorecase)),
        ensures
            (output@, changed as int) == spec_from(0),
            changed <= line@.len() + 1,
        decreases total - source_at,
    {
        let ghost here = spec_from(source_at as int);
        let ghost before = output@;
        proof {
            lemma_found_bounds(text@, wanted@, source_at as int);
        }
        let start: usize = match find_pattern(&text, &wanted, source_at) {
            Some(start) => start,
            None => {
                push_range(&mut output, line, source_at, total);
                break;
            },
        };
        let mut context = MatchContext::new(&wanted);
        let (end, captures) = match match_pattern_at(&text, start, &wanted, &mut context) {
            Some(found) => found,
            None => {
                assert(false);
                break;
            },
        };
        push_range(&mut output, line, source_at, start);
        append_replacement(&mut output, replacement, line, start, end, captures);
        assert(output@ =~= before + (line@.subrange(source_at as int, start as int)
            + replacement_text(
            replacement@,
            0,
            line@,
            start as int,
            end as int,
            groups_of(captures),
        )));
        changed = changed + 1;
        if !global {
            push_range(&mut output, line, end, total);
            assert(output@ =~= before + here.0);
            break;
        }
        if end == start {
            if end == total {
                break;
            }
            output.push(line[end]);
            source_at = end + 1;
        } else {
            source_at = end;
        }
        assert(output@ + spec_from(source_at as int).0 =~= before + here.0);
    }
    (output, changed)
}

} // verus!
