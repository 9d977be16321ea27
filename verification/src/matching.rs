//! What patterns match, said of the bytes of the pattern and of the text.
use crate::pattern::{
    byte_at, class_from, class_item, close_group, error_from, error_of, escaped_at, first_match,
    group_number_at, groups_before, in_ranges, last_match, lemma_token_next, match_at, match_from,
    no_groups, pattern_found, pattern_found_before, pop_group, token_accepts, token_at, Groups,
};
use vstd::prelude::*;

verus! {

/// Whether none of the bytes means anything but itself in a pattern.
pub open spec fn plain(bytes: Seq<u8>) -> bool {
    forall|i: int|
        0 <= i < bytes.len() ==> {
            let byte = #[trigger] bytes[i];
            byte != 92 && byte != 46 && byte != 91 && byte != 42 && byte != 94 && byte != 36
        }
}

/// Whether a text has these bytes at a place.
pub open spec fn stands_at(text: Seq<u8>, at: int, word: Seq<u8>) -> bool {
    at + word.len() <= text.len() && forall|i: int|
        0 <= i < word.len() ==> text[at + i] == #[trigger] word[i]
}

/// A run of bytes in a pattern that mean themselves takes just these bytes of
/// the text.
pub(crate) proof fn lemma_run(
    text: Seq<u8>,
    at: int,
    pattern: Seq<u8>,
    pi: int,
    run: Seq<u8>,
    groups: Groups,
    open: Seq<int>,
)
    requires
        0 <= at <= text.len(),
        0 <= pi,
        pi + run.len() <= pattern.len(),
        stands_at(pattern, pi, run),
        plain(run),
        pi + run.len() < pattern.len() ==> pattern[pi + run.len()] != 42,
    ensures
        match_from(text, at, pattern, pi, groups, open) == (if stands_at(text, at, run) {
            match_from(text, at + run.len(), pattern, pi + run.len(), groups, open)
        } else {
            None
        }),
    decreases run.len(),
{
    if run.len() > 0 {
        let rest = run.subrange(1, run.len() as int);
        assert(pattern[pi + 0] == run[0]);
        assert forall|i: int| 0 <= i < rest.len() implies pattern[pi + 1 + i] == #[trigger] rest[i] by {
            assert(pattern[pi + (i + 1)] == run[i + 1]);
        }
        assert(plain(rest)) by {
            assert forall|i: int| 0 <= i < rest.len() implies {
                let byte = #[trigger] rest[i];
                byte != 92 && byte != 46 && byte != 91 && byte != 42 && byte != 94 && byte != 36
            } by {
                assert(rest[i] == run[i + 1]);
            }
        }
        if rest.len() > 0 {
            assert(pattern[pi + 1 + 0] == rest[0]);
        }
        if at < text.len() && text[at] == run[0] {
            lemma_run(text, at + 1, pattern, pi + 1, rest, groups, open);
            assert(stands_at(text, at, run) == stands_at(text, at + 1, rest)) by {
                if stands_at(text, at + 1, rest) {
                    assert forall|i: int| 0 <= i < run.len() implies text[at + i]
                        == #[trigger] run[i] by {
                        if i > 0 {
                            assert(text[at + 1 + (i - 1)] == rest[i - 1]);
                        }
                    }
                }
                if stands_at(text, at, run) {
                    assert forall|i: int| 0 <= i < rest.len() implies text[at + 1 + i]
                        == #[trigger] rest[i] by {
                        assert(text[at + (i + 1)] == run[i + 1]);
                    }
                }
            }
        } else {
            assert(!stands_at(text, at, run)) by {
                if stands_at(text, at, run) {
                    assert(text[at + 0] == run[0]);
                }
            }
        }
    }
}

proof fn lemma_first(text: Seq<u8>, pattern: Seq<u8>, start: int, end: int)
    ensures
        match first_match(text, pattern, start, end) {
            Some(found) => {
                &&& start <= found <= end
                &&& match_at(text, found, pattern) is Some
                &&& forall|i: int|
                    start <= i < found ==> (#[trigger] match_at(text, i, pattern)) is None
            },
            None => forall|i: int|
                start <= i <= end ==> (#[trigger] match_at(text, i, pattern)) is None,
        },
    decreases end - start + 1,
{
    if start <= end && match_at(text, start, pattern) is None {
        lemma_first(text, pattern, start + 1, end);
    }
}

/// What is found is the nearest place from where the search begins on, and
/// nothing is found only where the pattern matches nowhere from there on.
pub proof fn lemma_found_is_nearest(text: Seq<u8>, pattern: Seq<u8>, from: int)
    requires
        0 <= from <= text.len(),
        pattern.len() > 0,
        pattern[0] != 94,
    ensures
        match pattern_found(text, pattern, from) {
            Some(found) => {
                &&& from <= found <= text.len()
                &&& match_at(text, found, pattern) is Some
                &&& forall|i: int|
                    from <= i < found ==> (#[trigger] match_at(text, i, pattern)) is None
            },
            None => forall|i: int|
                from <= i <= text.len() ==> (#[trigger] match_at(text, i, pattern)) is None,
        },
{
    lemma_first(text, pattern, from, text.len() as int);
}

proof fn lemma_last(text: Seq<u8>, pattern: Seq<u8>, end: int)
    ensures
        match last_match(text, pattern, end) {
            Some(found) => {
                &&& 0 <= found <= end
                &&& match_at(text, found, pattern) is Some
                &&& forall|i: int|
                    found < i <= end ==> (#[trigger] match_at(text, i, pattern)) is None
            },
            None => forall|i: int|
                0 <= i <= end ==> (#[trigger] match_at(text, i, pattern)) is None,
        },
    decreases end + 1,
{
    if end >= 0 && match_at(text, end, pattern) is None {
        lemma_last(text, pattern, end - 1);
    }
}

/// What is found backwards is the nearest place up to where the search begins.
pub proof fn lemma_found_before_is_nearest(text: Seq<u8>, pattern: Seq<u8>, before: int)
    requires
        0 <= before <= text.len(),
    ensures
        match pattern_found_before(text, pattern, before) {
            Some(found) => {
                &&& 0 <= found <= before
                &&& match_at(text, found, pattern) is Some
                &&& forall|i: int|
                    found < i <= before ==> (#[trigger] match_at(text, i, pattern)) is None
            },
            None => forall|i: int|
                0 <= i <= before ==> (#[trigger] match_at(text, i, pattern)) is None,
        },
{
    lemma_last(text, pattern, before);
}

/// A word without special bytes matches where it stands and nowhere else, and
/// the match is as long as the word.
pub proof fn lemma_word_matches_itself(text: Seq<u8>, at: int, word: Seq<u8>)
    requires
        0 <= at <= text.len(),
        plain(word),
    ensures
        match match_at(text, at, word) {
            Some((end, _)) => end == at + word.len() <= text.len() && text.subrange(at, end)
                == word,
            None => at + word.len() > text.len() || text.subrange(at, at + word.len()) != word,
        },
{
    lemma_run(text, at, word, 0, word, no_groups(), Seq::empty());
    if stands_at(text, at, word) {
        assert(text.subrange(at, at + word.len()) =~= word);
    } else if at + word.len() <= text.len() && text.subrange(at, at + word.len()) == word {
        assert forall|i: int| 0 <= i < word.len() implies text[at + i] == #[trigger] word[i] by {
            assert(text.subrange(at, at + word.len())[i] == word[i]);
        }
    }
}

/// A word without special bytes is found at the first place where it stands.
pub proof fn lemma_word_is_found(text: Seq<u8>, word: Seq<u8>, from: int)
    requires
        0 <= from <= text.len(),
        word.len() > 0,
        plain(word),
    ensures
        match pattern_found(text, word, from) {
            Some(found) => {
                &&& from <= found
                &&& found + word.len() <= text.len()
                &&& text.subrange(found, found + word.len()) == word
                &&& forall|i: int|
                    from <= i < found ==> #[trigger] text.subrange(i, i + word.len()) != word
            },
            None => forall|i: int|
                from <= i && i + word.len() <= text.len() ==> #[trigger] text.subrange(
                    i,
                    i + word.len(),
                ) != word,
        },
{
    assert(word[0] != 94);
    lemma_found_is_nearest(text, word, from);
    let found = pattern_found(text, word, from);
    if found is Some {
        lemma_word_matches_itself(text, found->0, word);
    }
    let end = match found {
        Some(place) => place,
        None => text.len() - word.len() + 1,
    };
    assert forall|i: int| from <= i < end implies #[trigger] text.subrange(i, i + word.len())
        != word by {
        lemma_word_matches_itself(text, i, word);
        assert(match_at(text, i, word) is None);
    }
}

/// `.` matches any one byte.
pub proof fn lemma_dot_matches_any(text: Seq<u8>, at: int)
    requires
        0 <= at <= text.len(),
    ensures
        match match_at(text, at, seq![46u8]) {
            Some((end, _)) => at < text.len() && end == at + 1,
            None => at == text.len(),
        },
{
    reveal_with_fuel(match_from, 3);
}

/// A backslash takes the meaning of a special byte away.
pub proof fn lemma_backslash_makes_literal(text: Seq<u8>, at: int, byte: u8)
    requires
        0 <= at <= text.len(),
        byte == 92 || byte == 46 || byte == 91 || byte == 93 || byte == 42 || byte == 94 || byte
            == 36 || byte == 47,
    ensures
        match match_at(text, at, seq![92u8, byte]) {
            Some((end, _)) => at < text.len() && text[at] == byte && end == at + 1,
            None => at == text.len() || text[at] != byte,
        },
{
    reveal_with_fuel(match_from, 3);
}

/// A range in brackets matches one byte between its first and its last one,
/// both among them.
pub proof fn lemma_range_matches(text: Seq<u8>, at: int, first: u8, last: u8)
    requires
        0 <= at <= text.len(),
        first != 93 && first != 94 && first != 45 && first != 92,
        last != 93 && last != 94 && last != 45 && last != 92,
    ensures
        match match_at(text, at, seq![91u8, first, 45, last, 93]) {
            Some((end, _)) => at < text.len() && first <= text[at] && text[at] <= last && end == at
                + 1,
            None => at == text.len() || text[at] < first || last < text[at],
        },
{
    let pattern = seq![91u8, first, 45, last, 93];
    reveal_with_fuel(class_from, 3);
    reveal_with_fuel(match_from, 3);
    let ranges = seq![(first, last)] + Seq::<(u8, u8)>::empty();
    assert(class_from(pattern, 1) == (ranges, 4int));
    assert(ranges[0] == (first, last));
    assert forall|byte: u8| #[trigger] in_ranges(ranges, byte) == (first <= byte
        && byte <= last) by {
        if first <= byte && byte <= last {
            assert(ranges[0].0 <= byte <= ranges[0].1);
        }
    }
}

/// The pattern of a range finds a byte in the text of one byte exactly where
/// the range holds it.
pub proof fn lemma_range_found(first: u8, last: u8, byte: u8)
    requires
        first != 93 && first != 94 && first != 45 && first != 92,
        last != 93 && last != 94 && last != 45 && last != 92,
    ensures
        pattern_found(seq![byte], seq![91u8, first, 45, last, 93], 0) == (if first <= byte && byte
            <= last {
            Some(0int)
        } else {
            None
        }),
{
    let text = seq![byte];
    let pattern = seq![91u8, first, 45, last, 93];
    lemma_range_matches(text, 0, first, last);
    lemma_range_matches(text, 1, first, last);
    lemma_found_is_nearest(text, pattern, 0);
    assert(match_at(text, 0, pattern) is Some == (first <= byte && byte <= last));
    assert(match_at(text, 1, pattern) is None);
}

/// A range behind `[^` matches one byte outside of it.
pub proof fn lemma_range_outside_matches(text: Seq<u8>, at: int, first: u8, last: u8)
    requires
        0 <= at <= text.len(),
        first != 93 && first != 45 && first != 92,
        last != 93 && last != 45 && last != 92,
    ensures
        match match_at(text, at, seq![91u8, 94, first, 45, last, 93]) {
            Some((end, _)) => at < text.len() && (text[at] < first || last < text[at]) && end == at
                + 1,
            None => at == text.len() || (first <= text[at] && text[at] <= last),
        },
{
    let pattern = seq![91u8, 94, first, 45, last, 93];
    reveal_with_fuel(class_from, 3);
    reveal_with_fuel(match_from, 3);
    let ranges = seq![(first, last)] + Seq::<(u8, u8)>::empty();
    assert(class_from(pattern, 2) == (ranges, 5int));
    assert(ranges[0] == (first, last));
    assert forall|byte: u8| #[trigger] in_ranges(ranges, byte) == (first <= byte
        && byte <= last) by {
        if first <= byte && byte <= last {
            assert(ranges[0].0 <= byte <= ranges[0].1);
        }
    }
}

/// Bytes in brackets match one of them, and behind `[^` one that is none of
/// them.
pub proof fn lemma_listed_bytes_match(text: Seq<u8>, at: int, one: u8, other: u8)
    requires
        0 <= at <= text.len(),
        one != 93 && one != 94 && one != 45 && one != 92,
        other != 93 && other != 94 && other != 45 && other != 92,
    ensures
        match match_at(text, at, seq![91u8, one, other, 93]) {
            Some((end, _)) => at < text.len() && (text[at] == one || text[at] == other) && end
                == at + 1,
            None => at == text.len() || (text[at] != one && text[at] != other),
        },
        match match_at(text, at, seq![91u8, 94, one, other, 93]) {
            Some((end, _)) => at < text.len() && text[at] != one && text[at] != other && end == at
                + 1,
            None => at == text.len() || text[at] == one || text[at] == other,
        },
{
    let inside = seq![91u8, one, other, 93];
    let outside = seq![91u8, 94, one, other, 93];
    reveal_with_fuel(class_from, 4);
    reveal_with_fuel(match_from, 3);
    let ranges = seq![(one, one)] + (seq![(other, other)] + Seq::<(u8, u8)>::empty());
    assert(class_from(inside, 1) == (ranges, 3int));
    assert(class_from(outside, 2) == (ranges, 4int));
    assert(ranges[0] == (one, one));
    assert(ranges[1] == (other, other));
    assert forall|byte: u8| #[trigger] in_ranges(ranges, byte) == (byte == one
        || byte == other) by {
        if byte == one {
            assert(ranges[0].0 <= byte <= ranges[0].1);
        }
        if byte == other {
            assert(ranges[1].0 <= byte <= ranges[1].1);
        }
    }
}

proof fn lemma_star_run(text: Seq<u8>, at: int, byte: u8)
    requires
        0 <= at <= text.len(),
        plain(seq![byte]),
    ensures
        match match_at(text, at, seq![byte, 42u8]) {
            Some((end, _)) => {
                &&& at <= end <= text.len()
                &&& forall|i: int| at <= i < end ==> #[trigger] text[i] == byte
                &&& end < text.len() ==> text[end] != byte
            },
            None => false,
        },
    decreases text.len() - at,
{
    assert(seq![byte][0] == byte);
    reveal_with_fuel(match_from, 3);
    if at < text.len() && text[at] == byte {
        lemma_star_run(text, at + 1, byte);
    }
}

/// A `*` takes as many of the byte before it as there are, none among them.
pub proof fn lemma_star_takes_all(text: Seq<u8>, at: int, byte: u8)
    requires
        0 <= at <= text.len(),
        plain(seq![byte]),
    ensures
        match match_at(text, at, seq![byte, 42u8]) {
            Some((end, _)) => {
                &&& at <= end <= text.len()
                &&& forall|i: int| at <= i < end ==> #[trigger] text[i] == byte
                &&& end < text.len() ==> text[end] != byte
            },
            None => false,
        },
{
    lemma_star_run(text, at, byte);
}

proof fn lemma_star_then(text: Seq<u8>, at: int, byte: u8)
    requires
        0 <= at <= text.len(),
        plain(seq![byte]),
    ensures
        match match_at(text, at, seq![byte, 42u8, byte]) {
            Some((end, _)) => {
                &&& at < end <= text.len()
                &&& forall|i: int| at <= i < end ==> #[trigger] text[i] == byte
                &&& end < text.len() ==> text[end] != byte
            },
            None => at == text.len() || text[at] != byte,
        },
    decreases text.len() - at,
{
    assert(seq![byte][0] == byte);
    reveal_with_fuel(match_from, 4);
    if at < text.len() && text[at] == byte {
        lemma_star_then(text, at + 1, byte);
    }
}

/// A `*` gives back what the rest of the pattern needs: a byte, a `*` and the
/// byte again match one of them or more.
pub proof fn lemma_star_gives_back(text: Seq<u8>, at: int, byte: u8)
    requires
        0 <= at <= text.len(),
        plain(seq![byte]),
    ensures
        match match_at(text, at, seq![byte, 42u8, byte]) {
            Some((end, _)) => {
                &&& at < end <= text.len()
                &&& forall|i: int| at <= i < end ==> #[trigger] text[i] == byte
                &&& end < text.len() ==> text[end] != byte
            },
            None => at == text.len() || text[at] != byte,
        },
{
    lemma_star_then(text, at, byte);
}

/// `.*` takes the rest of the line.
pub proof fn lemma_dot_star_takes_rest(text: Seq<u8>, at: int)
    requires
        0 <= at <= text.len(),
    ensures
        match match_at(text, at, seq![46u8, 42]) {
            Some((end, _)) => end == text.len(),
            None => false,
        },
    decreases text.len() - at,
{
    reveal_with_fuel(match_from, 3);
    if at < text.len() {
        lemma_dot_star_takes_rest(text, at + 1);
    }
}

/// A word behind `^` is found at the start of the line or not at all.
pub proof fn lemma_caret_means_start(text: Seq<u8>, word: Seq<u8>, from: int)
    requires
        0 <= from <= text.len(),
        plain(word),
    ensures
        pattern_found(text, seq![94u8] + word, from) == (if from == 0 && word.len() <= text.len()
            && text.subrange(0, word.len() as int) == word {
            Some(0int)
        } else {
            None
        }),
{
    let pattern = seq![94u8] + word;
    assert forall|i: int| 0 <= i < word.len() implies pattern[1 + i] == #[trigger] word[i] by {}
    reveal_with_fuel(first_match, 2);
    lemma_run(text, 0, pattern, 1, word, no_groups(), Seq::empty());
    assert(match_at(text, 0, pattern) == match_from(
        text,
        0,
        pattern,
        1,
        no_groups(),
        Seq::empty(),
    ));
    assert(match_at(text, 1, pattern) is None);
    lemma_run(text, 0, word, 0, word, no_groups(), Seq::empty());
    lemma_word_matches_itself(text, 0, word);
}

/// A word before `$` matches only where the line ends behind it.
pub proof fn lemma_dollar_means_end(text: Seq<u8>, at: int, word: Seq<u8>)
    requires
        0 <= at <= text.len(),
        plain(word),
    ensures
        match match_at(text, at, word + seq![36u8]) {
            Some((end, _)) => end == text.len() && text.subrange(at, end) == word,
            None => text.subrange(at, text.len() as int) != word,
        },
{
    let pattern = word + seq![36u8];
    assert forall|i: int| 0 <= i < word.len() implies pattern[0 + i] == #[trigger] word[i] by {}
    assert(pattern[word.len() as int] == 36);
    lemma_run(text, at, pattern, 0, word, no_groups(), Seq::empty());
    lemma_run(text, at, word, 0, word, no_groups(), Seq::empty());
    lemma_word_matches_itself(text, at, word);
}

/// How many groups open before a place, counted one byte at a time.
proof fn lemma_groups_step(pattern: Seq<u8>, from: int, to: int)
    requires
        2 <= from <= to,
        forall|i: int|
            from - 1 <= i < to - 1 ==> !((#[trigger] pattern[i]) == 92 && pattern[i + 1] == 40),
    ensures
        groups_before(pattern, to) == groups_before(pattern, from),
    decreases to - from,
{
    if from < to {
        lemma_groups_step(pattern, from, to - 1);
        assert(!(pattern[to - 2] == 92 && pattern[to - 2 + 1] == 40));
    }
}

/// Two words in groups, one behind the other.
pub open spec fn two_groups(first: Seq<u8>, second: Seq<u8>) -> Seq<u8> {
    seq![92u8, 40] + first + seq![92u8, 41, 92, 40] + second + seq![92u8, 41]
}

/// Two words in groups match where they stand one behind the other, and each
/// group holds the part of the text that its own word matched.
#[verifier::spinoff_prover]
#[verifier::rlimit(40)]
pub proof fn lemma_groups_capture(text: Seq<u8>, at: int, first: Seq<u8>, second: Seq<u8>)
    requires
        0 <= at <= text.len(),
        plain(first),
        plain(second),
    ensures
        match match_at(text, at, two_groups(first, second)) {
            Some((end, groups)) => {
                &&& text.subrange(at, end) == first + second
                &&& end == at + first.len() + second.len() <= text.len()
                &&& groups[1] == Some((at, at + first.len()))
                &&& groups[2] == Some((at + first.len(), end))
            },
            None => at + first.len() + second.len() > text.len() || text.subrange(
                at,
                at + first.len() + second.len(),
            ) != first + second,
        },
{
    let pattern = two_groups(first, second);
    let m = first.len() as int;
    let n = second.len() as int;
    let none = no_groups();
    let stack = Seq::<int>::empty();
    assert(pattern.len() == m + n + 8);
    assert forall|i: int| 0 <= i < m implies pattern[2 + i] == #[trigger] first[i] by {}
    assert forall|i: int| 0 <= i < n implies pattern[m + 6 + i] == #[trigger] second[i] by {}
    assert(pattern[0] == 92 && pattern[1] == 40);
    assert(pattern[m + 2] == 92 && pattern[m + 3] == 41);
    assert(pattern[m + 4] == 92 && pattern[m + 5] == 40);
    assert(pattern[m + n + 6] == 92 && pattern[m + n + 7] == 41);
    assert(groups_before(pattern, 0) == 0);
    reveal_with_fuel(groups_before, 3);
    assert(groups_before(pattern, 2) == 1);
    assert forall|i: int| 1 <= i < m + 4 - 1 implies !((#[trigger] pattern[i]) == 92 && pattern[i
        + 1] == 40) by {
        if 2 <= i < m + 2 {
            assert(pattern[i] == first[i - 2]);
        }
    }
    lemma_groups_step(pattern, 2, m + 4);
    let g1 = none.update(1, Some((at, at)));
    assert(match_at(text, at, pattern) == match_from(text, at, pattern, 2, g1, stack.push(1)));
    lemma_run(text, at, pattern, 2, first, g1, stack.push(1));
    if stands_at(text, at, first) {
        let at2 = at + m;
        let c1 = g1.update(1, Some((at, at2)));
        assert(stack.push(1).drop_last() =~= stack);
        assert(match_from(text, at2, pattern, m + 2, g1, stack.push(1)) == match_from(
            text,
            at2,
            pattern,
            m + 4,
            c1,
            stack,
        ));
        let g2 = c1.update(2, Some((at2, at2)));
        assert(match_from(text, at2, pattern, m + 4, c1, stack) == match_from(
            text,
            at2,
            pattern,
            m + 6,
            g2,
            stack.push(2),
        ));
        lemma_run(text, at2, pattern, m + 6, second, g2, stack.push(2));
        if stands_at(text, at2, second) {
            let end = at2 + n;
            let c2 = g2.update(2, Some((at2, end)));
            assert(stack.push(2).drop_last() =~= stack);
            assert(match_from(text, end, pattern, m + n + 6, g2, stack.push(2)) == match_from(
                text,
                end,
                pattern,
                m + n + 8,
                c2,
                stack,
            ));
            assert(match_at(text, at, pattern) == Some((end, c2)));
            assert(text.subrange(at, end) =~= first + second);
        }
    }
    if at + m + n <= text.len() && text.subrange(at, at + m + n) == first + second {
        let part = text.subrange(at, at + m + n);
        assert forall|i: int| 0 <= i < m implies text[at + i] == #[trigger] first[i] by {
            assert(part[i] == (first + second)[i]);
        }
        assert forall|i: int| 0 <= i < n implies text[at + m + i] == #[trigger] second[i] by {
            assert(part[m + i] == (first + second)[m + i]);
        }
    }
}

/// A word in a group, and another one in a group of its own inside of it.
pub open spec fn nested_groups(first: Seq<u8>, second: Seq<u8>) -> Seq<u8> {
    seq![92u8, 40] + first + seq![92u8, 40] + second + seq![92u8, 41, 92, 41]
}

/// Where a group is inside of another one, the outer one holds what both words
/// matched, and the inner one what its own word matched.
#[verifier::spinoff_prover]
#[verifier::rlimit(40)]
pub proof fn lemma_nested_groups_capture(
    text: Seq<u8>,
    at: int,
    first: Seq<u8>,
    second: Seq<u8>,
)
    requires
        0 <= at <= text.len(),
        plain(first),
        plain(second),
        stands_at(text, at, first),
        stands_at(text, at + first.len(), second),
    ensures
        match match_at(text, at, nested_groups(first, second)) {
            Some((end, groups)) => {
                &&& end == at + first.len() + second.len()
                &&& groups[1] == Some((at, end))
                &&& groups[2] == Some((at + first.len(), end))
            },
            None => false,
        },
{
    let pattern = nested_groups(first, second);
    let m = first.len() as int;
    let n = second.len() as int;
    let none = no_groups();
    let stack = Seq::<int>::empty();
    assert(pattern.len() == m + n + 8);
    assert forall|i: int| 0 <= i < m implies pattern[2 + i] == #[trigger] first[i] by {}
    assert forall|i: int| 0 <= i < n implies pattern[m + 4 + i] == #[trigger] second[i] by {}
    assert(pattern[0] == 92 && pattern[1] == 40);
    assert(pattern[m + 2] == 92 && pattern[m + 3] == 40);
    assert(pattern[m + n + 4] == 92 && pattern[m + n + 5] == 41);
    assert(pattern[m + n + 6] == 92 && pattern[m + n + 7] == 41);
    assert(groups_before(pattern, 0) == 0);
    reveal_with_fuel(groups_before, 3);
    assert(groups_before(pattern, 2) == 1);
    assert forall|i: int| 1 <= i < m + 2 - 1 implies !((#[trigger] pattern[i]) == 92 && pattern[i
        + 1] == 40) by {
        if 2 <= i < m + 2 {
            assert(pattern[i] == first[i - 2]);
        }
    }
    lemma_groups_step(pattern, 2, m + 2);
    let g1 = none.update(1, Some((at, at)));
    let s1 = stack.push(1);
    assert(match_at(text, at, pattern) == match_from(text, at, pattern, 2, g1, s1));
    lemma_run(text, at, pattern, 2, first, g1, s1);
    let at2 = at + m;
    let end = at2 + n;
    let g2 = g1.update(2, Some((at2, at2)));
    let s2 = s1.push(2);
    assert(match_from(text, at2, pattern, m + 2, g1, s1) == match_from(
        text,
        at2,
        pattern,
        m + 4,
        g2,
        s2,
    ));
    lemma_run(text, at2, pattern, m + 4, second, g2, s2);
    let c2 = g2.update(2, Some((at2, end)));
    assert(s2.drop_last() =~= s1);
    assert(match_from(text, end, pattern, m + n + 4, g2, s2) == match_from(
        text,
        end,
        pattern,
        m + n + 6,
        c2,
        s1,
    ));
    let c1 = c2.update(1, Some((at, end)));
    assert(s1.drop_last() =~= stack);
    assert(match_from(text, end, pattern, m + n + 6, c2, s1) == match_from(
        text,
        end,
        pattern,
        m + n + 8,
        c1,
        stack,
    ));
}

/// A reference to a group matches what the group matched once more: any byte in
/// a group and a reference to it match two equal bytes.
pub proof fn lemma_reference_repeats(text: Seq<u8>, at: int)
    requires
        0 <= at <= text.len(),
    ensures
        match match_at(text, at, seq![92u8, 40, 46, 92, 41, 92, 49]) {
            Some((end, groups)) => {
                &&& end == at + 2 <= text.len()
                &&& text[at] == text[at + 1]
                &&& groups[1] == Some((at, at + 1))
            },
            None => at + 2 > text.len() || text[at] != text[at + 1],
        },
{
    let pattern = seq![92u8, 40, 46, 92, 41, 92, 49];
    let none = no_groups();
    let stack = Seq::<int>::empty();
    assert(groups_before(pattern, 0) == 0);
    let g1 = none.update(1, Some((at, at)));
    assert(match_at(text, at, pattern) == match_from(text, at, pattern, 2, g1, stack.push(1)));
    if at < text.len() {
        assert(match_from(text, at, pattern, 2, g1, stack.push(1)) == match_from(
            text,
            at + 1,
            pattern,
            3,
            g1,
            stack.push(1),
        ));
        let c1 = g1.update(1, Some((at, at + 1)));
        assert(stack.push(1).drop_last() =~= stack);
        assert(match_from(text, at + 1, pattern, 3, g1, stack.push(1)) == match_from(
            text,
            at + 1,
            pattern,
            5,
            c1,
            stack,
        ));
        let held = text.subrange(at, at + 1);
        if at + 2 <= text.len() {
            let next = text.subrange(at + 1, at + 2);
            assert(held[0] == text[at] && next[0] == text[at + 1]);
            if text[at] == text[at + 1] {
                assert(next =~= held);
            }
        }
        assert(match_from(text, at + 2, pattern, 7, c1, stack) == Some((at + 2, c1)));
    }
}

/// Several ranges in brackets match one byte that is in one of them.
pub proof fn lemma_two_ranges_match(text: Seq<u8>, at: int, a: u8, b: u8, c: u8, d: u8)
    requires
        0 <= at <= text.len(),
        a != 93 && a != 94 && a != 45 && a != 92,
        b != 93 && b != 94 && b != 45 && b != 92,
        c != 93 && c != 94 && c != 45 && c != 92,
        d != 93 && d != 94 && d != 45 && d != 92,
    ensures
        match match_at(text, at, seq![91u8, a, 45, b, c, 45, d, 93]) {
            Some((end, _)) => at < text.len() && (a <= text[at] <= b || c <= text[at] <= d) && end
                == at + 1,
            None => at == text.len() || !(a <= text[at] <= b || c <= text[at] <= d),
        },
{
    let pattern = seq![91u8, a, 45, b, c, 45, d, 93];
    reveal_with_fuel(class_from, 4);
    reveal_with_fuel(match_from, 3);
    let ranges = seq![(a, b)] + (seq![(c, d)] + Seq::<(u8, u8)>::empty());
    assert(class_from(pattern, 4) == (
        seq![(c, d)] + Seq::<(u8, u8)>::empty(),
        7int,
    ));
    assert(class_from(pattern, 1) == (ranges, 7int));
    assert(ranges[0] == (a, b));
    assert(ranges[1] == (c, d));
    assert forall|byte: u8| #[trigger] in_ranges(ranges, byte) == (a <= byte <= b
        || c <= byte <= d) by {
        if a <= byte <= b {
            assert(ranges[0].0 <= byte <= ranges[0].1);
        }
        if c <= byte <= d {
            assert(ranges[1].0 <= byte <= ranges[1].1);
        }
    }
}

/// A `*` behind a range takes as many bytes of the range as there are, none
/// among them.
pub proof fn lemma_star_takes_range(text: Seq<u8>, at: int, first: u8, last: u8)
    requires
        0 <= at <= text.len(),
        first != 93 && first != 94 && first != 45 && first != 92,
        last != 93 && last != 94 && last != 45 && last != 92,
    ensures
        match match_at(text, at, seq![91u8, first, 45, last, 93, 42]) {
            Some((end, _)) => {
                &&& at <= end <= text.len()
                &&& forall|i: int| at <= i < end ==> first <= #[trigger] text[i] <= last
                &&& end < text.len() ==> !(first <= text[end] <= last)
            },
            None => false,
        },
    decreases text.len() - at,
{
    let pattern = seq![91u8, first, 45, last, 93, 42];
    reveal_with_fuel(class_from, 3);
    reveal_with_fuel(match_from, 3);
    let ranges = seq![(first, last)] + Seq::<(u8, u8)>::empty();
    assert(class_from(pattern, 1) == (ranges, 4int));
    assert(ranges[0] == (first, last));
    assert forall|byte: u8| #[trigger] in_ranges(ranges, byte) == (first <= byte
        && byte <= last) by {
        if first <= byte && byte <= last {
            assert(ranges[0].0 <= byte <= ranges[0].1);
        }
    }
    if at < text.len() && first <= text[at] <= last {
        lemma_star_takes_range(text, at + 1, first, last);
    }
}

proof fn lemma_class_behind(word: Seq<u8>, rest: Seq<u8>, index: int)
    requires
        0 <= index <= rest.len(),
    ensures
        ({
            let (ranges, end) = class_from(rest, index);
            class_from(word + rest, word.len() + index) == (
                ranges,
                word.len() + end,
            )
        }),
    decreases rest.len() - index,
{
    let all = word + rest;
    if index < rest.len() {
        assert(all[word.len() + index] == rest[index]);
        if rest[index] != 93 {
            let (first, next) = class_item(rest, index);
            if index + 1 < rest.len() {
                assert(all[word.len() + index + 1] == rest[index + 1]);
            }
            assert(class_item(all, word.len() + index) == (
                first,
                word.len() + next,
            ));
            if next < rest.len() {
                assert(all[word.len() + next] == rest[next]);
            }
            if next + 1 < rest.len() {
                assert(all[word.len() + next + 1] == rest[next + 1]);
            }
            if byte_at(rest, next) == Some(45u8) && next + 1 < rest.len()
                && rest[next + 1] != 93 {
                let (last, after) = class_item(rest, next + 1);
                if next + 2 < rest.len() {
                    assert(all[word.len() + next + 2] == rest[next + 2]);
                }
                assert(class_item(all, word.len() + next + 1) == (
                    last,
                    word.len() + after,
                ));
                lemma_class_behind(word, rest, after);
            } else {
                lemma_class_behind(word, rest, next);
            }
        }
    }
}

proof fn lemma_token_behind(word: Seq<u8>, rest: Seq<u8>, at: int)
    requires
        0 <= at < rest.len(),
    ensures
        token_at(word + rest, word.len() + at) == (
        match token_at(rest, at) {
            Some((token, next)) => Some((token, word.len() + next)),
            None => None,
        }),
{
    let all = word + rest;
    assert(all[word.len() + at] == rest[at]);
    if at + 1 < rest.len() {
        assert(all[word.len() + at + 1] == rest[at + 1]);
        lemma_class_behind(word, rest, at + 1);
        if at + 2 <= rest.len() {
            lemma_class_behind(word, rest, at + 2);
        }
    } else {
        lemma_class_behind(word, rest, at + 1);
    }
}

proof fn lemma_groups_behind(word: Seq<u8>, rest: Seq<u8>, at: int)
    requires
        plain(word),
        0 <= at <= rest.len(),
    ensures
        groups_before(word + rest, word.len() + at)
            == groups_before(rest, at),
    decreases at,
{
    let all = word + rest;
    if at == 0 {
        lemma_no_groups(word, rest, word.len() as int);
    } else {
        lemma_groups_behind(word, rest, at - 1);
        assert(all[word.len() + at - 1] == rest[at - 1]);
        if at >= 2 {
            assert(all[word.len() + at - 2] == rest[at - 2]);
        } else if word.len() > 0 {
            assert(all[word.len() - 1] == word[word.len() - 1]);
            assert(word[word.len() - 1] != 92);
        }
    }
}

proof fn lemma_no_groups(word: Seq<u8>, rest: Seq<u8>, at: int)
    requires
        plain(word),
        0 <= at <= word.len(),
    ensures
        groups_before(word + rest, at) == 0,
    decreases at,
{
    if at >= 2 {
        lemma_no_groups(word, rest, at - 1);
        assert((word + rest)[at - 2] == word[at - 2]);
        assert(word[at - 2] != 92);
    }
}

proof fn lemma_match_behind(
    text: Seq<u8>,
    at: int,
    word: Seq<u8>,
    rest: Seq<u8>,
    pi: int,
    groups: Groups,
    open: Seq<int>,
)
    requires
        plain(word),
        0 <= pi <= rest.len(),
    ensures
        match_from(text, at, word + rest, word.len() + pi, groups, open) == match_from(
            text,
            at,
            rest,
            pi,
            groups,
            open,
        ),
    decreases rest.len() - pi, text.len() - at,
{
    let all = word + rest;
    if pi < rest.len() {
        assert(all[word.len() + pi] == rest[pi]);
        if pi + 1 < rest.len() {
            assert(all[word.len() + pi + 1] == rest[pi + 1]);
        }
        lemma_token_behind(word, rest, pi);
        lemma_groups_behind(word, rest, pi);
        if escaped_at(rest, pi, 40) {
            let group = group_number_at(rest, pi);
            lemma_match_behind(
                text,
                at,
                word,
                rest,
                pi + 2,
                groups.update(group, Some((at, at))),
                open.push(group),
            );
        } else if escaped_at(rest, pi, 41) {
            lemma_match_behind(
                text,
                at,
                word,
                rest,
                pi + 2,
                close_group(groups, open, at),
                pop_group(open),
            );
        } else if rest[pi] == 92 && pi + 1 < rest.len() && crate::bytes::is_digit(rest[pi + 1]) {
            match groups[rest[pi + 1] - 48] {
                Some((start, end)) => {
                    let captured = text.subrange(start, end);
                    lemma_match_behind(
                        text,
                        at + captured.len(),
                        word,
                        rest,
                        pi + 2,
                        groups,
                        open,
                    );
                },
                None => {},
            }
        } else if rest[pi] == 94 {
            lemma_match_behind(text, at, word, rest, pi + 1, groups, open);
        } else if rest[pi] == 36 && pi + 1 == rest.len() {
        } else {
            match token_at(rest, pi) {
                Some((token, next)) => {
                    lemma_token_next(rest, pi);
                    if next < rest.len() {
                        assert(all[word.len() + next] == rest[next]);
                    }
                    let here = 0 <= at < text.len() && token_accepts(
                        token,
                        text[at],
                    );
                    if byte_at(rest, next) == Some(42u8) {
                        if here {
                            lemma_match_behind(text, at + 1, word, rest, pi, groups, open);
                        }
                        lemma_match_behind(text, at, word, rest, next + 1, groups, open);
                    } else if here {
                        lemma_match_behind(text, at + 1, word, rest, next, groups, open);
                    }
                },
                None => {},
            }
        }
    }
}

/// A word in front of another pattern is matched by itself, and then the other
/// pattern has to match what follows: what the pattern does alone it does
/// behind the word.
pub proof fn lemma_word_in_front(text: Seq<u8>, at: int, word: Seq<u8>, rest: Seq<u8>)
    requires
        0 <= at <= text.len(),
        plain(word),
        rest.len() > 0 ==> rest[0] != 42,
    ensures
        match_at(text, at, word + rest) == (if stands_at(text, at, word) {
            match_at(text, at + word.len(), rest)
        } else {
            None
        }),
{
    let all = word + rest;
    let none = no_groups();
    let open = Seq::<int>::empty();
    assert forall|i: int| 0 <= i < word.len() implies all[0 + i] == #[trigger] word[i] by {}
    if rest.len() > 0 {
        assert(all[word.len() as int] == rest[0]);
    }
    lemma_run(text, at, all, 0, word, none, open);
    if stands_at(text, at, word) {
        lemma_match_behind(text, at + word.len(), word, rest, 0, none, open);
    }
}

/// A pattern with a group or brackets that are never closed, with a group that
/// was never opened, or with a backslash at its end is refused with a message.
pub proof fn lemma_open_pattern_is_refused(word: Seq<u8>)
    requires
        plain(word),
        word.len() > 0,
    ensures
        error_of(seq![92u8, 40] + word) == Some("Unmatched ( or \\("@),
        error_of(word + seq![92u8, 41]) == Some("Unmatched ) or \\)"@),
        error_of(word + seq![92u8]) == Some("Trailing backslash"@),
        error_of(word + seq![91u8]) == Some("Unmatched [, [^, [:, [., or [="@),
        error_of(word) is None,
{
    let opened = seq![92u8, 40] + word;
    let none = Seq::<u8>::empty();
    assert(opened[0] == 92 && opened[1] == 40 && opened.len() > 1);
    lemma_plain_passed(seq![92u8, 40], word, none, 0, 1);
    assert(opened + none =~= opened);
    let closed = word + seq![92u8, 41];
    let ended = word + seq![92u8];
    let bracket = word + seq![91u8];
    let size = word.len() as int;
    assert(word[0] != 91 && word[0] != 92);
    lemma_plain_passed(none, word, seq![92u8, 41], 0, 0);
    lemma_plain_passed(none, word, seq![92u8], 0, 0);
    lemma_plain_passed(none, word, seq![91u8], 0, 0);
    lemma_plain_passed(none, word, none, 0, 0);
    assert(none + word + seq![92u8, 41] =~= closed);
    assert(none + word + seq![92u8] =~= ended);
    assert(none + word + seq![91u8] =~= bracket);
    assert(none + word + none =~= word);
    assert(closed[size] == 92 && closed[size + 1] == 41);
    assert(ended[size] == 92);
    assert(bracket[size] == 91 && bracket.len() == size + 1 && bracket.len() != 1);
    assert(word.len() == 1 ==> word[0] != 91);
}

proof fn lemma_plain_passed(
    front: Seq<u8>,
    word: Seq<u8>,
    rest: Seq<u8>,
    at: int,
    groups: int,
)
    requires
        plain(word),
        0 <= at <= word.len(),
    ensures
        error_from(front + word + rest, front.len() + at, groups)
            == error_from(
            front + word + rest,
            (front.len() + word.len()) as int,
            groups,
        ),
    decreases word.len() - at,
{
    if at < word.len() {
        assert((front + word + rest)[front.len() + at] == word[at]);
        assert(word[at] != 92 && word[at] != 91);
        lemma_plain_passed(front, word, rest, at + 1, groups);
    }
}

} // verus!
