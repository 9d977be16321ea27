//! What a replacement is made of, how a substitution may be typed, and what it
//! means to leave case out of account.
use crate::bytes::{is_digit, to_lower};
use crate::colon::quieted;
use crate::document::DocView;
use crate::editor::EditorView;
use crate::matching::{lemma_word_is_found, lemma_word_matches_itself, plain};
use crate::pattern::{error_of, folded, match_at, pattern_found};
use crate::replacing::{
    between_slashes, lemma_first_match_replaced, lemma_ordinary_between, lemma_ordinary_inserted,
    lemma_typed_read, lemma_typed_substitution, ordinary, slashed, typed_substitution,
};
use crate::searching::lemma_search_entered;
use crate::substitute::{
    delimiter_at, pattern_meant, replacement_meant, replacement_text, substituted_from,
};
use crate::strings::decimal;
use crate::substitution::{any_replaced, substitution_of, Replacement};
use crate::typing::typeable;
use vstd::prelude::*;

verus! {

/// Whether a replacement is made of whole pieces: bytes, and backslashes with
/// another byte behind each, which is no backslash.
pub open spec fn whole_pieces(bytes: Seq<u8>, at: int) -> bool
    decreases bytes.len() - at,
{
    if at < 0 || at >= bytes.len() {
        at == bytes.len()
    } else if bytes[at] == 92 {
        at + 1 < bytes.len() && bytes[at + 1] != 92 && whole_pieces(bytes, at + 2)
    } else {
        whole_pieces(bytes, at + 1)
    }
}

proof fn lemma_meant_behind(a: Seq<u8>, b: Seq<u8>, at: int)
    requires
        0 <= at <= b.len(),
    ensures
        replacement_meant(a + b, a.len() + at) == replacement_meant(b, at),
    decreases b.len() - at,
{
    let all = a + b;
    if at < b.len() {
        assert(all[a.len() + at] == b[at]);
        if b[at] == 92 && at + 1 < b.len() {
            assert(all[a.len() + at + 1] == b[at + 1]);
            lemma_meant_behind(a, b, at + 2);
        } else {
            lemma_meant_behind(a, b, at + 1);
        }
    }
}

proof fn lemma_meant_in_pieces(a: Seq<u8>, b: Seq<u8>, at: int)
    requires
        0 <= at <= a.len(),
        whole_pieces(a, at),
    ensures
        replacement_meant(a + b, at) == replacement_meant(a, at) + replacement_meant(b, 0),
    decreases a.len() - at,
{
    let all = a + b;
    if at < a.len() {
        assert(all[at] == a[at]);
        if a[at] == 92 {
            assert(all[at + 1] == a[at + 1]);
            lemma_meant_in_pieces(a, b, at + 2);
            let one = if is_digit(a[at + 1]) {
                seq![92u8, a[at + 1]]
            } else {
                seq![a[at + 1]]
            };
            assert(one + (replacement_meant(a, at + 2) + replacement_meant(b, 0)) =~= one
                + replacement_meant(a, at + 2) + replacement_meant(b, 0));
        } else {
            lemma_meant_in_pieces(a, b, at + 1);
            let one = seq![a[at]];
            assert(one + (replacement_meant(a, at + 1) + replacement_meant(b, 0)) =~= one
                + replacement_meant(a, at + 1) + replacement_meant(b, 0));
        }
    } else {
        lemma_meant_behind(a, b, 0);
        assert(replacement_meant(a, at) + replacement_meant(b, 0) =~= replacement_meant(b, 0));
    }
}

proof fn lemma_text_behind_other(
    a: Seq<u8>,
    b: Seq<u8>,
    at: int,
    line: Seq<u8>,
    start: int,
    end: int,
    groups: crate::pattern::Groups,
)
    requires
        0 <= at <= b.len(),
    ensures
        replacement_text(a + b, a.len() + at, line, start, end, groups) == replacement_text(
            b,
            at,
            line,
            start,
            end,
            groups,
        ),
    decreases b.len() - at,
{
    let all = a + b;
    if at < b.len() {
        assert(all[a.len() + at] == b[at]);
        if b[at] != 38 && b[at] == 92 && at + 1 < b.len() {
            assert(all[a.len() + at + 1] == b[at + 1]);
            lemma_text_behind_other(a, b, at + 2, line, start, end, groups);
        } else {
            lemma_text_behind_other(a, b, at + 1, line, start, end, groups);
        }
    }
}

/// The text for a replacement whose pieces are meant as they are typed, from
/// the piece at `at` on, in front of another one.
proof fn lemma_text_in_pieces(
    a: Seq<u8>,
    done: Seq<u8>,
    b: Seq<u8>,
    at: int,
    line: Seq<u8>,
    start: int,
    end: int,
    groups: crate::pattern::Groups,
)
    requires
        0 <= at <= a.len(),
        whole_pieces(a, at),
    ensures
        ({
            let meant = replacement_meant(a, at);
            let from = done.len() as int;
            replacement_text(done + meant + b, from, line, start, end, groups)
                == replacement_text(meant, 0, line, start, end, groups) + replacement_text(
                b,
                0,
                line,
                start,
                end,
                groups,
            )
        }),
    decreases a.len() - at,
{
    let meant = replacement_meant(a, at);
    let from = done.len() as int;
    let all = done + meant + b;
    let other = replacement_text(b, 0, line, start, end, groups);
    if at < a.len() {
        let size = if a[at] == 92 {
            2int
        } else {
            1
        };
        let one = if a[at] == 92 && is_digit(a[at + 1]) {
            seq![92u8, a[at + 1]]
        } else if a[at] == 92 {
            seq![a[at + 1]]
        } else {
            seq![a[at]]
        };
        let rest = replacement_meant(a, at + size);
        assert(meant =~= one + rest);
        let further = done + one;
        assert(all =~= further + rest + b);
        lemma_text_in_pieces(a, further, b, at + size, line, start, end, groups);
        let tail = replacement_text(rest, 0, line, start, end, groups);
        assert(all[from] == one[0]);
        assert(meant[0] == one[0]);
        if one.len() == 2 {
            assert(all[from + 1] == one[1]);
            assert(meant[1] == one[1]);
            assert(one[0] == 92);
        } else {
            assert(one[0] != 92);
        }
        lemma_text_behind_other(one, rest, 0, line, start, end, groups);
        let here = replacement_text(all, from, line, start, end, groups);
        let own = replacement_text(meant, 0, line, start, end, groups);
        let piece = if one[0] == 38 {
            line.subrange(start, end)
        } else if one.len() == 2 {
            crate::substitute::captured_text(line, groups, one[1] - 48)
        } else {
            one
        };
        assert(own == piece + tail);
        assert(here == piece + replacement_text(
            all,
            from + one.len(),
            line,
            start,
            end,
            groups,
        ));
        assert(piece + (tail + other) =~= piece + tail + other);
    } else {
        assert(meant =~= Seq::<u8>::empty());
        assert(all =~= done + b);
        lemma_text_behind_other(done, b, 0, line, start, end, groups);
        assert(replacement_text(meant, 0, line, start, end, groups) + other =~= other);
    }
}

/// A replacement is put together piece by piece: where one replacement puts
/// one text in place of the match and another one puts another text there, the
/// one behind the other puts the one text behind the other there.
pub proof fn lemma_replacement_in_pieces(
    editor: EditorView,
    pattern: Seq<u8>,
    a: Seq<u8>,
    b: Seq<u8>,
    start: int,
    end: int,
    first: Seq<u8>,
    second: Seq<u8>,
)
    requires
        editor.wf(),
        !editor.options.ignorecase,
        pattern.len() > 0,
        between_slashes(pattern, 0),
        error_of(pattern) is None,
        between_slashes(a, 0),
        between_slashes(b, 0),
        between_slashes(a + b, 0),
        whole_pieces(a, 0),
        pattern_found(editor.doc.line(), pattern, 0) == Some(start),
        match_at(editor.doc.line(), start, pattern) matches Some((to, _)) && to == end,
        0 <= start <= end <= editor.doc.line().len(),
        ({
            let line = editor.doc.line();
            let row = editor.doc.row;
            let none = Seq::<u8>::empty();
            let before = line.subrange(0, start);
            let behind = line.subrange(end, line.len() as int);
            &&& editor.ex_executed(typed_substitution(pattern, a, none)).doc.lines[row] == before
                + first + behind
            &&& editor.ex_executed(typed_substitution(pattern, b, none)).doc.lines[row] == before
                + second + behind
        }),
    ensures
        ({
            let line = editor.doc.line();
            let after = editor.ex_executed(typed_substitution(pattern, a + b, Seq::empty()));
            after.doc.lines[editor.doc.row] == line.subrange(0, start) + (first + second)
                + line.subrange(end, line.len() as int)
        }),
{
    let line = editor.doc.line();
    let none = Seq::<u8>::empty();
    let before = line.subrange(0, start);
    let behind = line.subrange(end, line.len() as int);
    let groups = match_at(line, start, pattern).unwrap().1;
    let meant_a = replacement_meant(a, 0);
    let meant_b = replacement_meant(b, 0);
    lemma_typed_substitution(editor, pattern, a, none);
    lemma_typed_substitution(editor, pattern, b, none);
    lemma_typed_substitution(editor, pattern, a + b, none);
    lemma_first_match_replaced(editor, line, pattern, meant_a);
    lemma_first_match_replaced(editor, line, pattern, meant_b);
    lemma_first_match_replaced(editor, line, pattern, replacement_meant(a + b, 0));
    lemma_meant_in_pieces(a, b, 0);
    lemma_text_in_pieces(a, none, meant_b, 0, line, start, end, groups);
    assert(none + meant_a + meant_b =~= meant_a + meant_b);
    let text_a = replacement_text(meant_a, 0, line, start, end, groups);
    let text_b = replacement_text(meant_b, 0, line, start, end, groups);
    lemma_middle(before, text_a, first, behind);
    lemma_middle(before, text_b, second, behind);
}

proof fn lemma_middle(before: Seq<u8>, a: Seq<u8>, b: Seq<u8>, behind: Seq<u8>)
    requires
        before + a + behind == before + b + behind,
    ensures
        a == b,
{
    let x = before + a + behind;
    let y = before + b + behind;
    assert(x.len() == y.len());
    let size = before.len() as int;
    assert(x.subrange(size, size + a.len()) =~= a);
    assert(y.subrange(size, size + b.len()) =~= b);
}

proof fn lemma_delimiter_found(bytes: Seq<u8>, from: int, end: int, delimiter: u8)
    requires
        0 <= from <= end < bytes.len(),
        delimiter != 92,
        forall|i: int| from <= i < end ==> #[trigger] bytes[i] != 92 && bytes[i] != delimiter,
        bytes[end] == delimiter,
    ensures
        delimiter_at(bytes, from, delimiter) == Some(end),
    decreases end - from,
{
    if from < end {
        lemma_delimiter_found(bytes, from + 1, end, delimiter);
    }
}

proof fn lemma_meant_itself(bytes: Seq<u8>, at: int, delimiter: u8)
    requires
        0 <= at <= bytes.len(),
        forall|i: int| 0 <= i < bytes.len() ==> #[trigger] bytes[i] != 92,
    ensures
        pattern_meant(bytes, at, delimiter) == bytes.subrange(at, bytes.len() as int),
        replacement_meant(bytes, at) == bytes.subrange(at, bytes.len() as int),
    decreases bytes.len() - at,
{
    if at < bytes.len() {
        lemma_meant_itself(bytes, at + 1, delimiter);
        assert(seq![bytes[at]] + bytes.subrange(at + 1, bytes.len() as int) =~= bytes.subrange(
            at,
            bytes.len() as int,
        ));
    }
}

/// A substitution with any byte in place of the slashes.
pub open spec fn delimited(
    delimiter: u8,
    pattern: Seq<u8>,
    replacement: Seq<u8>,
    flags: Seq<u8>,
) -> Seq<u8> {
    seq![delimiter] + pattern + seq![delimiter] + replacement + seq![delimiter] + flags
}

proof fn lemma_delimited_read(
    delimiter: u8,
    pattern: Seq<u8>,
    replacement: Seq<u8>,
    flags: Seq<u8>,
)
    requires
        delimiter != 92,
        forall|i: int|
            0 <= i < pattern.len() ==> #[trigger] pattern[i] != 92 && pattern[i] != delimiter,
        forall|i: int|
            0 <= i < replacement.len() ==> #[trigger] replacement[i] != 92 && replacement[i]
                != delimiter,
    ensures
        ({
            let args = delimited(delimiter, pattern, replacement, flags);
            let split = 1 + pattern.len() as int;
            let end = split + 1 + replacement.len();
            &&& args[0] == delimiter
            &&& args.len() > 0
            &&& delimiter_at(args, 1, delimiter) == Some(split)
            &&& delimiter_at(args, split + 1, delimiter) == Some(end)
            &&& replacement_meant(args.subrange(split + 1, end), 0) == replacement
            &&& args.subrange(end + 1, args.len() as int) == flags
            &&& pattern_meant(args.subrange(1, split), 0, delimiter) == pattern
        }),
{
    let args = delimited(delimiter, pattern, replacement, flags);
    let split = 1 + pattern.len() as int;
    let end = split + 1 + replacement.len();
    assert forall|i: int| 1 <= i < split implies #[trigger] args[i] != 92 && args[i] != delimiter by {
        assert(args[i] == pattern[i - 1]);
    }
    assert forall|i: int| split + 1 <= i < end implies #[trigger] args[i] != 92 && args[i]
        != delimiter by {
        assert(args[i] == replacement[i - split - 1]);
    }
    assert(args[split] == delimiter && args[end] == delimiter);
    lemma_delimiter_found(args, 1, split, delimiter);
    lemma_delimiter_found(args, split + 1, end, delimiter);
    assert(args.subrange(1, split) =~= pattern);
    assert(args.subrange(split + 1, end) =~= replacement);
    assert(args.subrange(end + 1, args.len() as int) =~= flags);
    lemma_meant_itself(pattern, 0, delimiter);
    lemma_meant_itself(replacement, 0, delimiter);
    assert(pattern.subrange(0, pattern.len() as int) =~= pattern);
    assert(replacement.subrange(0, replacement.len() as int) =~= replacement);
}

/// Which byte stands between the parts of a substitution does not matter, as
/// long as it is in none of them.
pub proof fn lemma_delimiters_alike(
    delimiter: u8,
    pattern: Seq<u8>,
    replacement: Seq<u8>,
    flags: Seq<u8>,
    search: Option<(Seq<u8>, bool)>,
    ignorecase: bool,
)
    requires
        delimiter != 92,
        forall|i: int|
            0 <= i < pattern.len() ==> #[trigger] pattern[i] != 92 && pattern[i] != delimiter
                && pattern[i] != 47,
        forall|i: int|
            0 <= i < replacement.len() ==> #[trigger] replacement[i] != 92 && replacement[i]
                != delimiter && replacement[i] != 47,
    ensures
        substitution_of(
            delimited(delimiter, pattern, replacement, flags),
            search,
            ignorecase,
        ) == substitution_of(slashed(pattern, replacement, flags), search, ignorecase),
{
    lemma_delimited_read(delimiter, pattern, replacement, flags);
    lemma_delimited_read(47, pattern, replacement, flags);
    assert(slashed(pattern, replacement, flags) == delimited(47, pattern, replacement, flags));
}

/// Without a pattern, a substitution is for the pattern that was searched for
/// last.
pub proof fn lemma_last_pattern_is_used(
    pattern: Seq<u8>,
    replacement: Seq<u8>,
    flags: Seq<u8>,
    forward: bool,
    ignorecase: bool,
)
    requires
        pattern.len() > 0,
        forall|i: int| 0 <= i < pattern.len() ==> #[trigger] pattern[i] != 92 && pattern[i] != 47,
        forall|i: int|
            0 <= i < replacement.len() ==> #[trigger] replacement[i] != 92 && replacement[i] != 47,
    ensures
        ({
            let none = Seq::<u8>::empty();
            let search = Some((pattern, forward));
            &&& substitution_of(slashed(none, replacement, flags), search, ignorecase).0
                == substitution_of(slashed(pattern, replacement, flags), None, ignorecase).0
            &&& substitution_of(slashed(none, replacement, flags), None, ignorecase).0 is Err
        }),
{
    lemma_delimited_read(47, Seq::empty(), replacement, flags);
    lemma_delimited_read(47, pattern, replacement, flags);
    let none = Seq::<u8>::empty();
    assert(slashed(none, replacement, flags) == delimited(47, none, replacement, flags));
    assert(slashed(pattern, replacement, flags) == delimited(47, pattern, replacement, flags));
}

/// Whether two bytes are the same letter, in lower or in upper case, or the
/// same byte.
pub open spec fn alike(a: u8, b: u8) -> bool {
    a == b || (65 <= a <= 90 && b == a + 32) || (65 <= b <= 90 && a == b + 32)
}

/// Whether a word stands at a place of a line, in any case.
pub open spec fn word_like(line: Seq<u8>, at: int, word: Seq<u8>) -> bool {
    &&& 0 <= at
    &&& at + word.len() <= line.len()
    &&& forall|i: int| 0 <= i < word.len() ==> alike(line[at + i], #[trigger] word[i])
}

proof fn lemma_folded(line: Seq<u8>, at: int, word: Seq<u8>)
    requires
        0 <= at,
        at + word.len() <= line.len(),
    ensures
        (folded(line).subrange(at, at + word.len()) == folded(word)) == word_like(line, at, word),
{
    let part = folded(line).subrange(at, at + word.len());
    let low = folded(word);
    assert forall|i: int| 0 <= i < word.len() implies (part[i] == low[i]) == alike(
        line[at + i],
        #[trigger] word[i],
    ) by {
        assert(part[i] == to_lower(line[at + i]));
    }
    if word_like(line, at, word) {
        assert(part =~= low) by {
            assert forall|i: int| 0 <= i < part.len() implies part[i] == low[i] by {
                assert(alike(line[at + i], word[i]));
            }
        }
    } else {
        let i = choose|i: int| 0 <= i < word.len() && !alike(line[at + i], #[trigger] word[i]);
        assert(part[i] != low[i]);
    }
}

proof fn lemma_folded_plain(word: Seq<u8>)
    requires
        plain(word),
    ensures
        plain(folded(word)),
{
    let low = folded(word);
    assert forall|i: int| 0 <= i < low.len() implies ({
        let byte = #[trigger] low[i];
        byte != 92 && byte != 46 && byte != 91 && byte != 42 && byte != 94 && byte != 36
    }) by {
        assert(low[i] == to_lower(word[i]));
    }
}

/// With `ignorecase`, a search leads to the next place behind the cursor where
/// the word stands in any case.
pub proof fn lemma_case_is_ignored(editor: EditorView, word: Seq<u8>, at: int)
    requires
        editor.wf(),
        editor.at_rest(),
        editor.options.ignorecase,
        word.len() > 0,
        plain(word),
        typeable(word),
        editor.doc.col < at,
        word_like(editor.doc.line(), at, word),
        forall|i: int|
            editor.doc.col < i < at ==> !(#[trigger] word_like(editor.doc.line(), i, word)),
    ensures
        ({
            let after = editor.after_keys(seq![47u8] + word + seq![13u8]);
            &&& after.at_rest()
            &&& after.doc.lines == editor.doc.lines
            &&& after.doc.row == editor.doc.row
            &&& after.doc.col == at
        }),
{
    let line = editor.doc.line();
    let text = folded(line);
    let low = folded(word);
    let from = editor.doc.col + 1;
    lemma_search_entered(editor, true, word);
    lemma_folded_plain(word);
    lemma_word_is_found(text, low, from);
    lemma_folded(line, at, word);
    match pattern_found(text, low, from) {
        Some(place) => {
            if place < at {
                lemma_folded(line, place, word);
                assert(word_like(line, place, word));
            }
            if at < place {
                assert(text.subrange(at, at + low.len()) != low);
            }
        },
        None => {
            assert(text.subrange(at, at + low.len()) != low);
        },
    }
}

/// The first place from `from` on where a word stands in a line.
pub open spec fn place_of(line: Seq<u8>, word: Seq<u8>, from: int) -> Option<int>
    decreases line.len() + 1 - from,
{
    if from < 0 || from + word.len() > line.len() {
        None
    } else if line.subrange(from, from + word.len()) == word {
        Some(from)
    } else {
        place_of(line, word, from + 1)
    }
}

/// The rest of a line with another word in place of a word, wherever that
/// stands, one behind the other.
pub open spec fn replaced_from(line: Seq<u8>, word: Seq<u8>, other: Seq<u8>, from: int) -> Seq<u8>
    decreases line.len() - from,
    when word.len() > 0 && 0 <= from <= line.len()
    via replaced_from_ends
{
    match place_of(line, word, from) {
        None => line.subrange(from, line.len() as int),
        Some(place) => line.subrange(from, place) + other + replaced_from(
            line,
            word,
            other,
            place + word.len(),
        ),
    }
}

#[via_fn]
proof fn replaced_from_ends(line: Seq<u8>, word: Seq<u8>, other: Seq<u8>, from: int) {
    lemma_place_of(line, word, from);
}

/// How often a word stands in the rest of a line, one place behind the other.
pub open spec fn times_from(line: Seq<u8>, word: Seq<u8>, from: int) -> int
    decreases line.len() - from,
    when word.len() > 0 && 0 <= from <= line.len()
    via times_from_ends
{
    match place_of(line, word, from) {
        None => 0,
        Some(place) => 1 + times_from(line, word, place + word.len()),
    }
}

#[via_fn]
proof fn times_from_ends(line: Seq<u8>, word: Seq<u8>, from: int) {
    lemma_place_of(line, word, from);
}

proof fn lemma_place_of(line: Seq<u8>, word: Seq<u8>, from: int)
    requires
        0 <= from,
        word.len() > 0,
    ensures
        match place_of(line, word, from) {
            Some(place) => {
                &&& from <= place
                &&& place + word.len() <= line.len()
                &&& line.subrange(place, place + word.len()) == word
                &&& forall|i: int|
                    from <= i < place ==> #[trigger] line.subrange(i, i + word.len()) != word
            },
            None => forall|i: int|
                from <= i && i + word.len() <= line.len() ==> #[trigger] line.subrange(
                    i,
                    i + word.len(),
                ) != word,
        },
    decreases line.len() - from,
{
    if from + word.len() <= line.len() && line.subrange(from, from + word.len()) != word {
        lemma_place_of(line, word, from + 1);
    }
}

proof fn lemma_found_is_place(line: Seq<u8>, word: Seq<u8>, from: int)
    requires
        0 <= from <= line.len(),
        word.len() > 0,
        plain(word),
    ensures
        pattern_found(line, word, from) == place_of(line, word, from),
{
    lemma_place_of(line, word, from);
    lemma_word_is_found(line, word, from);
    match (pattern_found(line, word, from), place_of(line, word, from)) {
        (Some(found), Some(place)) => {
            if found < place {
                assert(line.subrange(found, found + word.len()) != word);
            }
            if place < found {
                assert(line.subrange(place, place + word.len()) != word);
            }
        },
        (Some(found), None) => {
            assert(line.subrange(found, found + word.len()) != word);
        },
        (None, Some(place)) => {
            assert(line.subrange(place, place + word.len()) != word);
        },
        (None, None) => {},
    }
}

proof fn lemma_all_replaced_from(line: Seq<u8>, word: Seq<u8>, other: Seq<u8>, from: int)
    requires
        0 <= from <= line.len(),
        word.len() > 0,
        ordinary(word),
        ordinary(other),
    ensures
        ({
            let new = substituted_from(line, from, word, other, true, false);
            &&& new.0 == replaced_from(line, word, other, from)
            &&& new.1 == times_from(line, word, from)
            &&& new.1 >= 0
            &&& new.1 == 0 ==> place_of(line, word, from) is None
        }),
    decreases line.len() - from,
{
    lemma_found_is_place(line, word, from);
    lemma_place_of(line, word, from);
    crate::substitute::lemma_found_bounds(line, word, from);
    match pattern_found(line, word, from) {
        None => {},
        Some(start) => {
            lemma_word_matches_itself(line, start, word);
            match match_at(line, start, word) {
                Some((end, groups)) => {
                    lemma_ordinary_inserted(other, 0, line, start, end, groups);
                    assert(other.subrange(0, other.len() as int) =~= other);
                    lemma_all_replaced_from(line, word, other, end);
                },
                None => {},
            }
        },
    }
}

/// With the flag `g` a word is replaced by another one wherever it stands in
/// the line, one place behind the other.
pub proof fn lemma_words_are_replaced(editor: EditorView, word: Seq<u8>, other: Seq<u8>)
    requires
        editor.wf(),
        !editor.options.ignorecase,
        word.len() > 0,
        ordinary(word),
        ordinary(other),
    ensures
        editor.ex_executed(typed_substitution(word, other, seq![103u8])).doc.lines
            == editor.doc.lines.update(
            editor.doc.row,
            replaced_from(editor.doc.line(), word, other, 0),
        ),
{
    let line = editor.doc.line();
    lemma_ordinary_between(word, 0);
    lemma_ordinary_between(other, 0);
    assert(word[0] != 91);
    assert(other.subrange(0, other.len() as int) =~= other);
    lemma_typed_substitution(editor, word, other, seq![103u8]);
    lemma_all_replaced_from(line, word, other, 0);
    assert(line.subrange(0, line.len() as int) =~= line);
}

/// A backslash in front of a byte of a replacement that is no digit counts for
/// nothing.
pub proof fn lemma_backslash_is_dropped(editor: EditorView, pattern: Seq<u8>, byte: u8)
    requires
        editor.wf(),
        pattern.len() > 0,
        between_slashes(pattern, 0),
        error_of(pattern) is None,
        byte < 128,
        byte != 47 && byte != 92 && !(48 <= byte <= 57),
    ensures
        ({
            let none = Seq::<u8>::empty();
            editor.ex_executed(typed_substitution(pattern, seq![92u8, byte], none)).doc.lines
                == editor.ex_executed(typed_substitution(pattern, seq![byte], none)).doc.lines
        }),
{
    let none = Seq::<u8>::empty();
    reveal_with_fuel(between_slashes, 3);
    lemma_typed_substitution(editor, pattern, seq![92u8, byte], none);
    lemma_typed_substitution(editor, pattern, seq![byte], none);
    reveal_with_fuel(replacement_meant, 3);
    assert(replacement_meant(seq![92u8, byte], 0) =~= seq![byte]);
    assert(replacement_meant(seq![byte], 0) =~= seq![byte]);
}

/// A substitution leaves the cursor where it is. With the flag `g` it tells how
/// often the word was replaced where that is more than once, and where the word
/// does not occur it tells so.
pub proof fn lemma_replacements_are_told(editor: EditorView, word: Seq<u8>, other: Seq<u8>)
    requires
        editor.wf(),
        !editor.options.ignorecase,
        editor.doc.pending is None,
        word.len() > 0,
        ordinary(word),
        ordinary(other),
    ensures
        ({
            let after = editor.ex_executed(typed_substitution(word, other, seq![103u8]));
            let times = times_from(editor.doc.line(), word, 0);
            &&& after.doc.row == editor.doc.row
            &&& after.doc.col == editor.doc.col
            &&& times == 0 ==> after.message.text == "No match"@ && after.message.highlighted
            &&& times > 1 ==> after.message.text == decimal(times) + " substitutions on "@
                + decimal(1) + " lines"@
        }),
{
    let line = editor.doc.line();
    let row = editor.doc.row;
    let flags = seq![103u8];
    lemma_ordinary_between(word, 0);
    lemma_ordinary_between(other, 0);
    assert(word[0] != 91);
    assert(other.subrange(0, other.len() as int) =~= other);
    lemma_typed_read(editor, word, other, flags);
    lemma_all_replaced_from(line, word, other, 0);
    let asked = Replacement { pattern: word, text: other, global: true, ignorecase: false };
    let quiet = quieted(editor);
    reveal(EditorView::substituted);
    reveal_with_fuel(DocView::rows_replaced, 2);
    assert(asked.on(editor.doc.lines[row]).1 == times_from(line, word, 0));
    assert(any_replaced(editor.doc.lines, row, row, asked) == (times_from(line, word, 0) != 0)) by {
        if times_from(line, word, 0) != 0 {
            assert(asked.on(editor.doc.lines[row]).1 != 0);
        }
    }
}

} // verus!
