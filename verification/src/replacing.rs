//! What substitutions do, said of the commands as they are typed.
use crate::bytes::splice;
use crate::colon::{
    lemma_letter_command, lemma_letter_command_for, lemma_letter_names, quieted, typed_for, Place,
};
use crate::document::DocView;
use crate::editor::EditorView;
use crate::matching::{
    lemma_groups_capture, lemma_word_is_found, lemma_word_matches_itself, plain, two_groups,
};
use crate::pattern::{error_from, error_of, match_at, pattern_found, Groups};
use crate::strings::latin_text;
use crate::substitute::{
    captured_text, delimiter_at, pattern_meant, replacement_meant, replacement_text, substituted,
    substituted_from,
};
use crate::substitution::{any_replaced, substitution_of, Replacement};
use vstd::prelude::*;
use vstd::string::*;
use vstd::utf8::{encode_utf8, is_ascii_chars, is_ascii_chars_encode_utf8};

verus! {

/// Whether bytes can be typed between slashes as they are: they are ASCII, no
/// slash is among them, and none of them is a backslash without a byte that
/// follows it.
pub open spec fn between_slashes(bytes: Seq<u8>, at: int) -> bool
    decreases bytes.len() - at,
{
    if at < 0 || at >= bytes.len() {
        at == bytes.len()
    } else if bytes[at] == 92 {
        at + 1 < bytes.len() && bytes[at + 1] != 47 && bytes[at + 1] < 128 && between_slashes(
            bytes,
            at + 2,
        )
    } else {
        bytes[at] != 47 && bytes[at] < 128 && between_slashes(bytes, at + 1)
    }
}

/// What is typed behind the `s` of a substitution.
pub open spec fn slashed(pattern: Seq<u8>, replacement: Seq<u8>, flags: Seq<u8>) -> Seq<u8> {
    seq![47u8] + pattern + seq![47u8] + replacement + seq![47u8] + flags
}

/// A substitution as it is typed.
pub open spec fn typed_substitution(
    pattern: Seq<u8>,
    replacement: Seq<u8>,
    flags: Seq<u8>,
) -> Seq<char> {
    latin_text(seq![115u8] + slashed(pattern, replacement, flags))
}

pub(crate) proof fn lemma_ascii_kept(bytes: Seq<u8>)
    requires
        forall|i: int| 0 <= i < bytes.len() ==> #[trigger] bytes[i] < 128,
    ensures
        encode_utf8(latin_text(bytes)) == bytes,
{
    let text = latin_text(bytes);
    assert(is_ascii_chars(text)) by {
        assert forall|i: int| 0 <= i < text.len() implies '\0' <= #[trigger] text[i] <= '\u{7f}' by {
            assert(bytes[i] < 128);
        }
    }
    is_ascii_chars_encode_utf8(text);
    assert(encode_utf8(text) =~= bytes);
}

proof fn lemma_between_is_ascii(bytes: Seq<u8>, at: int)
    requires
        0 <= at <= bytes.len(),
        between_slashes(bytes, at),
    ensures
        forall|i: int| at <= i < bytes.len() ==> #[trigger] bytes[i] < 128,
    decreases bytes.len() - at,
{
    if at < bytes.len() {
        if bytes[at] == 92 {
            lemma_between_is_ascii(bytes, at + 2);
        } else {
            lemma_between_is_ascii(bytes, at + 1);
        }
    }
}

/// The first slash behind such bytes is the one that ends them.
proof fn lemma_slash_found(all: Seq<u8>, from: int, bytes: Seq<u8>, at: int)
    requires
        0 <= from,
        0 <= at <= bytes.len(),
        from + bytes.len() < all.len(),
        forall|i: int| 0 <= i < bytes.len() ==> all[from + i] == #[trigger] bytes[i],
        all[from + bytes.len()] == 47,
        between_slashes(bytes, at),
    ensures
        delimiter_at(all, from + at, 47) == Some(from + bytes.len()),
    decreases bytes.len() - at,
{
    if at < bytes.len() {
        assert(all[from + at] == bytes[at]);
        if bytes[at] == 92 {
            lemma_slash_found(all, from, bytes, at + 2);
        } else {
            lemma_slash_found(all, from, bytes, at + 1);
        }
    }
}

/// A pattern without slashes is meant as it is typed.
proof fn lemma_pattern_as_typed(bytes: Seq<u8>, at: int)
    requires
        0 <= at <= bytes.len(),
        between_slashes(bytes, at),
    ensures
        pattern_meant(bytes, at, 47) == bytes.subrange(at, bytes.len() as int),
    decreases bytes.len() - at,
{
    if at < bytes.len() {
        if bytes[at] == 92 {
            lemma_pattern_as_typed(bytes, at + 2);
            assert(pattern_meant(bytes, at, 47) =~= bytes.subrange(at, bytes.len() as int));
        } else {
            lemma_pattern_as_typed(bytes, at + 1);
            assert(pattern_meant(bytes, at, 47) =~= bytes.subrange(at, bytes.len() as int));
        }
    } else {
        assert(bytes.subrange(at, bytes.len() as int) =~= Seq::<u8>::empty());
    }
}

/// What a substitution asks for.
proof fn lemma_substitution_read(
    pattern: Seq<u8>,
    replacement: Seq<u8>,
    flags: Seq<u8>,
    search: Option<(Seq<u8>, bool)>,
    ignorecase: bool,
)
    requires
        pattern.len() > 0,
        between_slashes(pattern, 0),
        between_slashes(replacement, 0),
        error_of(pattern) is None,
    ensures
        substitution_of(slashed(pattern, replacement, flags), search, ignorecase).0 == Ok::<
            Replacement,
            (bool, Seq<char>),
        >(
            Replacement {
                pattern,
                text: replacement_meant(replacement, 0),
                global: flags.contains(103u8),
                ignorecase,
            },
        ),
{
    let args = slashed(pattern, replacement, flags);
    let m = pattern.len() as int;
    let n = replacement.len() as int;
    assert(args[0] == 47);
    assert forall|i: int| 0 <= i < m implies args[1 + i] == #[trigger] pattern[i] by {}
    assert(args[1 + m] == 47);
    lemma_slash_found(args, 1, pattern, 0);
    assert forall|i: int| 0 <= i < n implies args[m + 2 + i] == #[trigger] replacement[i] by {}
    assert(args[m + 2 + n] == 47);
    lemma_slash_found(args, m + 2, replacement, 0);
    assert(args.subrange(1, m + 1) =~= pattern);
    assert(args.subrange(m + 2, m + 2 + n) =~= replacement);
    assert(args.subrange(m + n + 3, args.len() as int) =~= flags);
    lemma_pattern_as_typed(pattern, 0);
    assert(pattern.subrange(0, m) =~= pattern);
}

/// How the lines of a range come out of a substitution: each of them for
/// itself, and the others as they were.
proof fn lemma_rows_each(doc: DocView, row: int, last: int, replacement: Replacement)
    requires
        0 <= row,
        last < doc.lines.len(),
    ensures
        ({
            let after = doc.rows_replaced(row, last, replacement).0;
            &&& after.lines.len() == doc.lines.len()
            &&& forall|i: int|
                0 <= i < doc.lines.len() ==> #[trigger] after.lines[i] == (if row <= i <= last
                    && replacement.on(doc.lines[i]).1 != 0 {
                    replacement.on(doc.lines[i]).0
                } else {
                    doc.lines[i]
                })
        }),
    decreases last + 1 - row,
{
    if row <= last {
        let line = doc.lines[row];
        let (new, count) = replacement.on(line);
        if count != 0 {
            let next = doc.bytes_replaced(row, 0, line.len() as int, new);
            lemma_rows_each(next, row + 1, last, replacement);
            assert(splice(line, 0, line.len() as int, new) =~= new);
            assert(line.subrange(0, line.len() as int) =~= line);
        } else {
            lemma_rows_each(doc, row + 1, last, replacement);
        }
    }
}

/// What becomes of one line: what the pattern matches first, or everything
/// that it matches, is replaced.
pub open spec fn line_after(editor: EditorView, line: Seq<u8>, asked: Replacement) -> Seq<u8> {
    if asked.on(line).1 != 0 {
        asked.on(line).0
    } else {
        line
    }
}

proof fn lemma_substituted_lines(
    editor: EditorView,
    args: Seq<char>,
    addresses: Option<(int, int)>,
    asked: Replacement,
)
    requires
        0 <= editor.doc.row < editor.doc.lines.len(),
        addresses matches Some((first, last)) ==> 0 <= first <= last < editor.doc.lines.len(),
        substitution_of(encode_utf8(args), editor.input.search, editor.options.ignorecase).0
            == Ok::<Replacement, (bool, Seq<char>)>(asked),
    ensures
        ({
            let (first, last) = match addresses {
                Some(range) => range,
                None => (editor.doc.row, editor.doc.row),
            };
            let after = editor.substituted(args, addresses).ended();
            &&& after.doc.lines.len() == editor.doc.lines.len()
            &&& forall|i: int|
                0 <= i < editor.doc.lines.len() ==> #[trigger] after.doc.lines[i] == (if first <= i
                    <= last {
                    line_after(editor, editor.doc.lines[i], asked)
                } else {
                    editor.doc.lines[i]
                })
        }),
{
    reveal(EditorView::substituted);
    let (first, last) = match addresses {
        Some(range) => range,
        None => (editor.doc.row, editor.doc.row),
    };
    lemma_rows_each(editor.doc.begun(), first, last, asked);
    if !any_replaced(editor.doc.lines, first, last, asked) {
        assert forall|i: int| first <= i <= last implies asked.on(
            #[trigger] editor.doc.lines[i],
        ).1 == 0 by {}
    }
}

/// A substitution as it is typed is read as the pattern, the replacement and the
/// flags.
pub(crate) proof fn lemma_typed_read(
    editor: EditorView,
    pattern: Seq<u8>,
    replacement: Seq<u8>,
    flags: Seq<u8>,
)
    requires
        pattern.len() > 0,
        between_slashes(pattern, 0),
        between_slashes(replacement, 0),
        flags == Seq::<u8>::empty() || flags == seq![103u8],
        error_of(pattern) is None,
    ensures
        ({
            let args = latin_text(slashed(pattern, replacement, flags));
            let asked = Replacement {
                pattern,
                text: replacement_meant(replacement, 0),
                global: flags.len() > 0,
                ignorecase: editor.options.ignorecase,
            };
            &&& editor.ex_executed(typed_substitution(pattern, replacement, flags)) == quieted(
                editor,
            ).substituted(args, None).ended()
            &&& substitution_of(
                encode_utf8(args),
                editor.input.search,
                editor.options.ignorecase,
            ).0 == Ok::<Replacement, (bool, Seq<char>)>(asked)
        }),
{
    let bytes = slashed(pattern, replacement, flags);
    let args = latin_text(bytes);
    lemma_between_is_ascii(pattern, 0);
    lemma_between_is_ascii(replacement, 0);
    assert forall|i: int| 0 <= i < bytes.len() implies #[trigger] bytes[i] < 128 by {
        let m = pattern.len() as int;
        let n = replacement.len() as int;
        if 1 <= i < 1 + m {
            assert(bytes[i] == pattern[i - 1]);
        } else if m + 2 <= i < m + 2 + n {
            assert(bytes[i] == replacement[i - m - 2]);
        }
    }
    lemma_ascii_kept(bytes);
    assert(flags.contains(103u8) == (flags.len() > 0)) by {
        if flags.len() > 0 {
            assert(flags[0] == 103);
        }
    }
    lemma_substitution_read(
        pattern,
        replacement,
        flags,
        editor.input.search,
        editor.options.ignorecase,
    );
    assert(typed_substitution(pattern, replacement, flags) =~= seq!['s'] + args);
    assert(args[0] == '/');
    assert(args.last() == '/' || args.last() == 'g');
    lemma_letter_command(editor, 's', args);
    lemma_letter_names('s');
    reveal(EditorView::ex_named_more);
}

/// A substitution as it is typed makes the replacement in the line of the
/// cursor, and leaves the other lines alone.
pub(crate) proof fn lemma_typed_substitution(
    editor: EditorView,
    pattern: Seq<u8>,
    replacement: Seq<u8>,
    flags: Seq<u8>,
)
    requires
        editor.wf(),
        pattern.len() > 0,
        between_slashes(pattern, 0),
        between_slashes(replacement, 0),
        flags == Seq::<u8>::empty() || flags == seq![103u8],
        error_of(pattern) is None,
    ensures
        editor.ex_executed(typed_substitution(pattern, replacement, flags)).doc.lines
            == editor.doc.lines.update(
            editor.doc.row,
            line_after(
                editor,
                editor.doc.line(),
                Replacement {
                    pattern,
                    text: replacement_meant(replacement, 0),
                    global: flags.len() > 0,
                    ignorecase: editor.options.ignorecase,
                },
            ),
        ),
{
    let args = latin_text(slashed(pattern, replacement, flags));
    let asked = Replacement {
        pattern,
        text: replacement_meant(replacement, 0),
        global: flags.len() > 0,
        ignorecase: editor.options.ignorecase,
    };
    lemma_typed_read(editor, pattern, replacement, flags);
    let quiet = quieted(editor);
    lemma_substituted_lines(quiet, args, None, asked);
    assert(editor.ex_executed(typed_substitution(pattern, replacement, flags)).doc.lines
        =~= editor.doc.lines.update(
        editor.doc.row,
        line_after(editor, editor.doc.line(), asked),
    ));
}

/// What a substitution of the first match makes of a line.
pub(crate) proof fn lemma_first_match_replaced(
    editor: EditorView,
    line: Seq<u8>,
    pattern: Seq<u8>,
    text: Seq<u8>,
)
    ensures
        line_after(
            editor,
            line,
            Replacement { pattern, text, global: false, ignorecase: false },
        ) == (match pattern_found(line, pattern, 0) {
            Some(start) => match match_at(line, start, pattern) {
                Some((end, groups)) => line.subrange(0, start) + replacement_text(
                    text,
                    0,
                    line,
                    start,
                    end,
                    groups,
                ) + line.subrange(end, line.len() as int),
                None => line,
            },
            None => line,
        }),
{
    crate::substitute::lemma_found_bounds(line, pattern, 0);
}

/// A replacement that is typed as a backslash and a digit stands for what the
/// group of that number captured: this part of the line takes the place of the
/// match.
pub proof fn lemma_reference_stands_for_group(editor: EditorView, pattern: Seq<u8>, digit: u8)
    requires
        editor.wf(),
        !editor.options.ignorecase,
        pattern.len() > 0,
        between_slashes(pattern, 0),
        error_of(pattern) is None,
        49 <= digit <= 57,
    ensures
        ({
            let line = editor.doc.line();
            let after = editor.ex_executed(
                typed_substitution(pattern, seq![92u8, digit], Seq::empty()),
            );
            after.doc.lines == editor.doc.lines.update(
                editor.doc.row,
                match pattern_found(line, pattern, 0) {
                    Some(start) => match match_at(line, start, pattern) {
                        Some((end, groups)) => line.subrange(0, start) + (match groups[digit - 48] {
                            Some((from, to)) => line.subrange(from, to),
                            None => Seq::empty(),
                        }) + line.subrange(end, line.len() as int),
                        None => line,
                    },
                    None => line,
                },
            )
        }),
{
    let replacement = seq![92u8, digit];
    let line = editor.doc.line();
    reveal_with_fuel(between_slashes, 2);
    lemma_typed_substitution(editor, pattern, replacement, Seq::empty());
    reveal_with_fuel(replacement_meant, 2);
    assert(replacement_meant(replacement, 0) =~= replacement);
    lemma_first_match_replaced(editor, line, pattern, replacement);
    reveal_with_fuel(replacement_text, 2);
    match pattern_found(line, pattern, 0) {
        Some(start) => match match_at(line, start, pattern) {
            Some((end, groups)) => {
                let held = captured_text(line, groups, digit - 48);
                assert(replacement_text(replacement, 0, line, start, end, groups) =~= held);
            },
            None => {},
        },
        None => {},
    }
}

/// Whether bytes mean themselves in a pattern, in a replacement and between
/// slashes.
pub open spec fn ordinary(bytes: Seq<u8>) -> bool {
    &&& plain(bytes)
    &&& forall|i: int|
        0 <= i < bytes.len() ==> {
            let byte = #[trigger] bytes[i];
            byte != 47 && byte != 38 && byte < 128
        }
}

pub(crate) proof fn lemma_ordinary_between(bytes: Seq<u8>, at: int)
    requires
        ordinary(bytes),
        0 <= at <= bytes.len(),
    ensures
        between_slashes(bytes, at),
        replacement_meant(bytes, at) == bytes.subrange(at, bytes.len() as int),
        error_from(bytes, at, 0) is None,
    decreases bytes.len() - at,
{
    if at < bytes.len() {
        lemma_ordinary_between(bytes, at + 1);
        assert(replacement_meant(bytes, at) =~= bytes.subrange(at, bytes.len() as int));
    } else {
        assert(bytes.subrange(at, bytes.len() as int) =~= Seq::<u8>::empty());
    }
}

pub(crate) proof fn lemma_ordinary_inserted(
    bytes: Seq<u8>,
    at: int,
    line: Seq<u8>,
    start: int,
    end: int,
    groups: Groups,
)
    requires
        ordinary(bytes),
        0 <= at <= bytes.len(),
    ensures
        replacement_text(bytes, at, line, start, end, groups) == bytes.subrange(
            at,
            bytes.len() as int,
        ),
    decreases bytes.len() - at,
{
    if at < bytes.len() {
        lemma_ordinary_inserted(bytes, at + 1, line, start, end, groups);
        assert(replacement_text(bytes, at, line, start, end, groups) =~= bytes.subrange(
            at,
            bytes.len() as int,
        ));
    } else {
        assert(bytes.subrange(at, bytes.len() as int) =~= Seq::<u8>::empty());
    }
}

/// The first place where a word stands in the line gets the other word, and
/// the rest of the line stays. Where the word does not occur, nothing changes.
pub proof fn lemma_word_is_replaced(editor: EditorView, word: Seq<u8>, other: Seq<u8>)
    requires
        editor.wf(),
        !editor.options.ignorecase,
        word.len() > 0,
        ordinary(word),
        ordinary(other),
    ensures
        ({
            let line = editor.doc.line();
            let size = word.len() as int;
            let after = editor.ex_executed(typed_substitution(word, other, Seq::empty()));
            &&& after.doc.lines.len() == editor.doc.lines.len()
            &&& forall|i: int|
                0 <= i < editor.doc.lines.len() && i != editor.doc.row
                    ==> #[trigger] after.doc.lines[i] == editor.doc.lines[i]
            &&& forall|at: int|
                0 <= at && at + size <= line.len() && #[trigger] line.subrange(at, at + size)
                    == word && (forall|i: int|
                    0 <= i < at ==> #[trigger] line.subrange(i, i + size) != word)
                    ==> after.doc.lines[editor.doc.row] == line.subrange(0, at) + other
                    + line.subrange(at + size, line.len() as int)
            &&& (forall|i: int|
                0 <= i && i + size <= line.len() ==> #[trigger] line.subrange(i, i + size) != word)
                ==> after.doc.lines[editor.doc.row] == line
        }),
{
    let line = editor.doc.line();
    let size = word.len() as int;
    lemma_ordinary_between(word, 0);
    lemma_ordinary_between(other, 0);
    assert(word[0] != 91);
    assert(other.subrange(0, other.len() as int) =~= other);
    lemma_typed_substitution(editor, word, other, Seq::empty());
    lemma_first_match_replaced(editor, line, word, other);
    lemma_word_is_found(line, word, 0);
    match pattern_found(line, word, 0) {
        Some(start) => {
            lemma_word_matches_itself(line, start, word);
            match match_at(line, start, word) {
                Some((end, groups)) => {
                    lemma_ordinary_inserted(other, 0, line, start, end, groups);
                },
                None => {},
            }
            assert forall|at: int|
                0 <= at && at + size <= line.len() && #[trigger] line.subrange(at, at + size)
                    == word && (forall|i: int|
                    0 <= i < at ==> #[trigger] line.subrange(i, i + size) != word) implies at
                == start by {
                assert(line.subrange(start, start + size) == word);
            }
        },
        None => {},
    }
}

/// `&` stands for what was matched: a word that is replaced by `&` and another
/// word stays, with the other one behind it.
pub proof fn lemma_ampersand_stands_for_match(editor: EditorView, word: Seq<u8>, other: Seq<u8>)
    requires
        editor.wf(),
        !editor.options.ignorecase,
        word.len() > 0,
        ordinary(word),
        ordinary(other),
    ensures
        ({
            let line = editor.doc.line();
            let size = word.len() as int;
            let after = editor.ex_executed(
                typed_substitution(word, seq![38u8] + other, Seq::empty()),
            );
            forall|at: int|
                0 <= at && at + size <= line.len() && #[trigger] line.subrange(at, at + size)
                    == word && (forall|i: int|
                    0 <= i < at ==> #[trigger] line.subrange(i, i + size) != word)
                    ==> after.doc.lines == editor.doc.lines.update(
                    editor.doc.row,
                    line.subrange(0, at + size) + other + line.subrange(
                        at + size,
                        line.len() as int,
                    ),
                )
        }),
{
    let line = editor.doc.line();
    let size = word.len() as int;
    let replacement = seq![38u8] + other;
    lemma_ordinary_between(word, 0);
    assert(word[0] != 91);
    lemma_behind_ampersand(other, 0);
    lemma_typed_substitution(editor, word, replacement, Seq::empty());
    lemma_first_match_replaced(editor, line, word, replacement);
    assert(replacement_meant(replacement, 0) =~= replacement) by {
        assert(replacement_meant(replacement, 0) == seq![38u8] + replacement_meant(
            replacement,
            1,
        ));
    }
    lemma_word_is_found(line, word, 0);
    match pattern_found(line, word, 0) {
        Some(start) => {
            lemma_word_matches_itself(line, start, word);
            match match_at(line, start, word) {
                Some((end, groups)) => {
                    lemma_behind_ampersand_inserted(other, 0, line, start, end, groups);
                    assert(replacement_text(replacement, 0, line, start, end, groups) == word
                        + other);
                    assert(line.subrange(0, start) + (word + other) + line.subrange(
                        end,
                        line.len() as int,
                    ) =~= line.subrange(0, start + size) + other + line.subrange(
                        end,
                        line.len() as int,
                    ));
                },
                None => {},
            }
            assert forall|at: int|
                0 <= at && at + size <= line.len() && #[trigger] line.subrange(at, at + size)
                    == word && (forall|i: int|
                    0 <= i < at ==> #[trigger] line.subrange(i, i + size) != word) implies at
                == start by {
                assert(line.subrange(start, start + size) == word);
            }
        },
        None => {},
    }
}

proof fn lemma_behind_ampersand(other: Seq<u8>, at: int)
    requires
        ordinary(other),
        0 <= at <= other.len(),
    ensures
        between_slashes(seq![38u8] + other, at + 1),
        at == 0 ==> between_slashes(seq![38u8] + other, 0),
        replacement_meant(seq![38u8] + other, at + 1) == other.subrange(at, other.len() as int),
    decreases other.len() - at,
{
    let all = seq![38u8] + other;
    if at < other.len() {
        assert(all[at + 1] == other[at]);
        lemma_behind_ampersand(other, at + 1);
        assert(replacement_meant(all, at + 1) =~= other.subrange(at, other.len() as int));
    } else {
        assert(other.subrange(at, other.len() as int) =~= Seq::<u8>::empty());
    }
    if at == 0 {
        assert(all[0] == 38);
        assert(between_slashes(all, 0) == between_slashes(all, 1));
        assert(other.subrange(0, other.len() as int) =~= other);
    }
}

proof fn lemma_behind_ampersand_inserted(
    other: Seq<u8>,
    at: int,
    line: Seq<u8>,
    start: int,
    end: int,
    groups: Groups,
)
    requires
        ordinary(other),
        0 <= at <= other.len(),
    ensures
        replacement_text(seq![38u8] + other, at + 1, line, start, end, groups) == other.subrange(
            at,
            other.len() as int,
        ),
        at == 0 ==> replacement_text(seq![38u8] + other, 0, line, start, end, groups)
            == line.subrange(start, end) + other,
    decreases other.len() - at,
{
    let all = seq![38u8] + other;
    if at < other.len() {
        assert(all[at + 1] == other[at]);
        lemma_behind_ampersand_inserted(other, at + 1, line, start, end, groups);
        assert(replacement_text(all, at + 1, line, start, end, groups) =~= other.subrange(
            at,
            other.len() as int,
        ));
    } else {
        assert(other.subrange(at, other.len() as int) =~= Seq::<u8>::empty());
    }
    if at == 0 {
        assert(other.subrange(0, other.len() as int) =~= other);
    }
}

proof fn lemma_between_joined(first: Seq<u8>, second: Seq<u8>, at: int)
    requires
        0 <= at <= first.len(),
        between_slashes(first, at),
        between_slashes(second, 0),
    ensures
        between_slashes(first + second, at),
    decreases first.len() - at,
{
    let all = first + second;
    if at < first.len() {
        assert(all[at] == first[at]);
        if first[at] == 92 {
            assert(all[at + 1] == first[at + 1]);
            lemma_between_joined(first, second, at + 2);
        } else {
            lemma_between_joined(first, second, at + 1);
        }
    } else {
        lemma_between_moved(first, second, 0);
    }
}

proof fn lemma_between_moved(first: Seq<u8>, second: Seq<u8>, at: int)
    requires
        0 <= at <= second.len(),
        between_slashes(second, at),
    ensures
        between_slashes(first + second, first.len() + at),
    decreases second.len() - at,
{
    let all = first + second;
    if at < second.len() {
        assert(all[first.len() + at] == second[at]);
        if second[at] == 92 {
            assert(all[first.len() + at + 1] == second[at + 1]);
            lemma_between_moved(first, second, at + 2);
        } else {
            lemma_between_moved(first, second, at + 1);
        }
    }
}

proof fn lemma_no_error_in_run(pattern: Seq<u8>, from: int, to: int, groups: int)
    requires
        0 <= from <= to <= pattern.len(),
        plain(pattern.subrange(from, to)),
    ensures
        error_from(pattern, from, groups) == error_from(pattern, to, groups),
    decreases to - from,
{
    if from < to {
        let run = pattern.subrange(from, to);
        assert(pattern[from] == run[0]);
        let rest = pattern.subrange(from + 1, to);
        assert(plain(rest)) by {
            assert forall|i: int| 0 <= i < rest.len() implies {
                let byte = #[trigger] rest[i];
                byte != 92 && byte != 46 && byte != 91 && byte != 42 && byte != 94 && byte != 36
            } by {
                assert(rest[i] == run[i + 1]);
            }
        }
        lemma_no_error_in_run(pattern, from + 1, to, groups);
    }
}

proof fn lemma_two_groups_typed(first: Seq<u8>, second: Seq<u8>)
    requires
        ordinary(first),
        ordinary(second),
    ensures
        between_slashes(two_groups(first, second), 0),
        error_of(two_groups(first, second)) is None,
{
    let a = seq![92u8, 40];
    let b = seq![92u8, 41, 92, 40];
    let c = seq![92u8, 41];
    let pattern = two_groups(first, second);
    reveal_with_fuel(between_slashes, 3);
    lemma_ordinary_between(first, 0);
    lemma_ordinary_between(second, 0);
    lemma_between_joined(a, first, 0);
    lemma_between_joined(a + first, b, 0);
    lemma_between_joined(a + first + b, second, 0);
    lemma_between_joined(a + first + b + second, c, 0);
    let m = first.len() as int;
    let n = second.len() as int;
    assert(pattern[0] == 92 && pattern[1] == 40);
    assert(pattern[m + 2] == 92 && pattern[m + 3] == 41);
    assert(pattern[m + 4] == 92 && pattern[m + 5] == 40);
    assert(pattern[m + n + 6] == 92 && pattern[m + n + 7] == 41);
    assert(pattern.subrange(2, m + 2) =~= first);
    assert(pattern.subrange(m + 6, m + n + 6) =~= second);
    assert(error_from(pattern, 0, 0) == error_from(pattern, 2, 1));
    lemma_no_error_in_run(pattern, 2, m + 2, 1);
    assert(error_from(pattern, m + 2, 1) == error_from(pattern, m + 4, 0));
    assert(error_from(pattern, m + 4, 0) == error_from(pattern, m + 6, 1));
    lemma_no_error_in_run(pattern, m + 6, m + n + 6, 1);
    assert(error_from(pattern, m + n + 6, 1) == error_from(pattern, m + n + 8, 0));
    assert(error_from(pattern, m + n + 8, 0) is None);
    assert(pattern.len() != 1);
}

/// Two words in groups that are replaced by `\2\1` change places: a line that
/// begins with the one and the other begins with the other and the one then.
pub proof fn lemma_groups_change_places(editor: EditorView, first: Seq<u8>, second: Seq<u8>)
    requires
        editor.wf(),
        !editor.options.ignorecase,
        ordinary(first),
        ordinary(second),
        first.len() + second.len() <= editor.doc.line().len(),
        editor.doc.line().subrange(0, (first.len() + second.len()) as int) == first + second,
    ensures
        editor.ex_executed(
            typed_substitution(two_groups(first, second), seq![92u8, 50, 92, 49], Seq::empty()),
        ).doc.lines == editor.doc.lines.update(
            editor.doc.row,
            second + first + editor.doc.line().subrange(
                (first.len() + second.len()) as int,
                editor.doc.line().len() as int,
            ),
        ),
{
    let pattern = two_groups(first, second);
    let replacement = seq![92u8, 50, 92, 49];
    let line = editor.doc.line();
    let m = first.len() as int;
    let n = second.len() as int;
    lemma_two_groups_typed(first, second);
    reveal_with_fuel(between_slashes, 3);
    lemma_typed_substitution(editor, pattern, replacement, Seq::empty());
    reveal_with_fuel(replacement_meant, 3);
    assert(replacement_meant(replacement, 0) =~= replacement);
    lemma_first_match_replaced(editor, line, pattern, replacement);
    lemma_groups_capture(line, 0, first, second);
    assert(pattern[0] == 92);
    crate::matching::lemma_found_is_nearest(line, pattern, 0);
    assert(match_at(line, 0, pattern) is Some);
    assert(pattern_found(line, pattern, 0) == Some(0int));
    match match_at(line, 0, pattern) {
        Some((end, groups)) => {
            reveal_with_fuel(replacement_text, 3);
            let text = replacement_text(replacement, 0, line, 0, end, groups);
            assert(text =~= captured_text(line, groups, 2) + captured_text(line, groups, 1));
            assert(captured_text(line, groups, 1) =~= first) by {
                assert(line.subrange(0, m) =~= line.subrange(0, m + n).subrange(0, m));
                assert((first + second).subrange(0, m) =~= first);
            }
            assert(captured_text(line, groups, 2) =~= second) by {
                assert(line.subrange(m, m + n) =~= line.subrange(0, m + n).subrange(m, m + n));
                assert((first + second).subrange(m, m + n) =~= second);
            }
            assert(line.subrange(0, 0) + text + line.subrange(end, line.len() as int) =~= second
                + first + line.subrange(m + n, line.len() as int));
        },
        None => {},
    }
}

proof fn lemma_bytes_replaced_from(line: Seq<u8>, at: int, byte: u8, other: u8)
    requires
        0 <= at <= line.len(),
        ordinary(seq![byte]),
        ordinary(seq![other]),
    ensures
        ({
            let new = substituted_from(line, at, seq![byte], seq![other], true, false);
            &&& new.0.len() == line.len() - at
            &&& forall|i: int|
                at <= i < line.len() ==> #[trigger] new.0[i - at] == (if line[i] == byte {
                    other
                } else {
                    line[i]
                })
            &&& new.1 >= 0
            &&& new.1 == 0 ==> forall|i: int| at <= i < line.len() ==> #[trigger] line[i] != byte
        }),
    decreases line.len() - at,
{
    let word = seq![byte];
    let new = seq![other];
    assert(word[0] == byte && new[0] == other);
    lemma_word_is_found(line, word, at);
    crate::substitute::lemma_found_bounds(line, word, at);
    match pattern_found(line, word, at) {
        None => {
            assert forall|i: int| at <= i < line.len() implies #[trigger] line[i] != byte by {
                let one = line.subrange(i, i + word.len());
                assert(one[0] == line[i]);
                if line[i] == byte {
                    assert(one =~= word);
                }
            }
        },
        Some(start) => {
            lemma_word_matches_itself(line, start, word);
            assert(line[start] == byte) by {
                assert(line.subrange(start, start + 1)[0] == word[0]);
            }
            match match_at(line, start, word) {
                Some((end, groups)) => {
                    lemma_ordinary_inserted(new, 0, line, start, end, groups);
                    assert(new.subrange(0, 1) =~= new);
                    lemma_bytes_replaced_from(line, end, byte, other);
                    assert forall|i: int| at <= i < start implies #[trigger] line[i] != byte by {
                        let one = line.subrange(i, i + word.len());
                        assert(one[0] == line[i]);
                        if line[i] == byte {
                            assert(one =~= word);
                        }
                    }
                    let rest = substituted_from(line, end, word, new, true, false);
                    let all = substituted_from(line, at, word, new, true, false);
                    assert(all.0 == line.subrange(at, start) + new + rest.0);
                    assert forall|i: int| at <= i < line.len() implies #[trigger] all.0[i - at] == (
                    if line[i] == byte {
                        other
                    } else {
                        line[i]
                    }) by {
                        if i >= end {
                            assert(all.0[i - at] == rest.0[i - end]);
                        }
                    }
                },
                None => {},
            }
        },
    }
}

/// With the flag `g` every match of the line is replaced: a byte by another
/// one, wherever it stands.
pub proof fn lemma_flag_replaces_all(editor: EditorView, byte: u8, other: u8)
    requires
        editor.wf(),
        !editor.options.ignorecase,
        ordinary(seq![byte]),
        ordinary(seq![other]),
    ensures
        ({
            let line = editor.doc.line();
            let after = editor.ex_executed(
                typed_substitution(seq![byte], seq![other], seq![103u8]),
            );
            after.doc.lines == editor.doc.lines.update(
                editor.doc.row,
                Seq::new(
                    line.len(),
                    |i: int|
                        if line[i] == byte {
                            other
                        } else {
                            line[i]
                        },
                ),
            )
        }),
{
    let line = editor.doc.line();
    let word = seq![byte];
    let new = seq![other];
    lemma_ordinary_between(word, 0);
    lemma_ordinary_between(new, 0);
    assert(word[0] == byte);
    assert(byte != 91);
    assert(new.subrange(0, 1) =~= new);
    lemma_typed_substitution(editor, word, new, seq![103u8]);
    lemma_bytes_replaced_from(line, 0, byte, other);
    let made = Seq::new(
        line.len(),
        |i: int|
            if line[i] == byte {
                other
            } else {
                line[i]
            },
    );
    let (text, count) = substituted(line, word, new, true, false);
    assert forall|i: int| 0 <= i < line.len() implies #[trigger] text[i] == made[i] by {
        assert(text[i - 0] == (if line[i] == byte {
            other
        } else {
            line[i]
        }));
    }
    assert(text =~= made);
    if count == 0 {
        assert(line =~= made);
    }
}

/// What a substitution for lines makes of them.
proof fn lemma_typed_for_lines(
    editor: EditorView,
    from: Place,
    to: Place,
    pattern: Seq<u8>,
    replacement: Seq<u8>,
)
    requires
        editor.wf(),
        editor.doc.lines.len() <= isize::MAX,
        from.exists_in(editor),
        to.exists_in(editor),
        from.line(editor) <= to.line(editor),
        pattern.len() > 0,
        between_slashes(pattern, 0),
        between_slashes(replacement, 0),
        error_of(pattern) is None,
    ensures
        ({
            let alone = typed_substitution(pattern, replacement, Seq::empty());
            let after = editor.ex_executed(typed_for(from, to, alone));
            let asked = Replacement {
                pattern,
                text: replacement_meant(replacement, 0),
                global: false,
                ignorecase: editor.options.ignorecase,
            };
            &&& after.doc.lines.len() == editor.doc.lines.len()
            &&& forall|i: int|
                0 <= i < editor.doc.lines.len() ==> #[trigger] after.doc.lines[i] == (
                if from.line(editor) <= i <= to.line(editor) {
                    line_after(editor, editor.doc.lines[i], asked)
                } else {
                    editor.doc.lines[i]
                })
        }),
{
    let none = Seq::<u8>::empty();
    let bytes = slashed(pattern, replacement, none);
    let args = latin_text(bytes);
    let asked = Replacement {
        pattern,
        text: replacement_meant(replacement, 0),
        global: false,
        ignorecase: editor.options.ignorecase,
    };
    lemma_between_is_ascii(pattern, 0);
    lemma_between_is_ascii(replacement, 0);
    assert forall|i: int| 0 <= i < bytes.len() implies #[trigger] bytes[i] < 128 by {
        let m = pattern.len() as int;
        let n = replacement.len() as int;
        if 1 <= i < 1 + m {
            assert(bytes[i] == pattern[i - 1]);
        } else if m + 2 <= i < m + 2 + n {
            assert(bytes[i] == replacement[i - m - 2]);
        }
    }
    lemma_ascii_kept(bytes);
    lemma_substitution_read(
        pattern,
        replacement,
        none,
        editor.input.search,
        editor.options.ignorecase,
    );
    assert(typed_substitution(pattern, replacement, none) =~= seq!['s'] + args);
    assert(args[0] == '/');
    assert(args.last() == '/');
    lemma_letter_command_for(editor, from, to, 's', args);
    lemma_letter_names('s');
    reveal(EditorView::ex_named_more);
    lemma_substituted_lines(
        quieted(editor),
        args,
        Some((from.line(editor), to.line(editor))),
        asked,
    );
}

/// A substitution for lines makes of each of them what it makes of the line of
/// the cursor without lines, and leaves the other lines alone.
pub proof fn lemma_range_is_line_by_line(
    editor: EditorView,
    from: Place,
    to: Place,
    pattern: Seq<u8>,
    replacement: Seq<u8>,
    row: int,
)
    requires
        editor.wf(),
        editor.doc.lines.len() <= isize::MAX,
        from.exists_in(editor),
        to.exists_in(editor),
        from.line(editor) <= to.line(editor),
        pattern.len() > 0,
        between_slashes(pattern, 0),
        between_slashes(replacement, 0),
        error_of(pattern) is None,
        0 <= row < editor.doc.lines.len(),
    ensures
        ({
            let alone = typed_substitution(pattern, replacement, Seq::empty());
            let after = editor.ex_executed(typed_for(from, to, alone));
            &&& after.doc.lines.len() == editor.doc.lines.len()
            &&& after.doc.lines[row] == (if from.line(editor) <= row <= to.line(editor) {
                editor.at(row, 0).ex_executed(alone).doc.lines[row]
            } else {
                editor.doc.lines[row]
            })
        }),
{
    lemma_typed_for_lines(editor, from, to, pattern, replacement);
    lemma_typed_substitution(editor.at(row, 0), pattern, replacement, Seq::empty());
}

} // verus!
