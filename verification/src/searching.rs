//! Where searches lead, said of the keys and the text.
use crate::changes::{lemma_all_keys, lemma_key_resumes, lemma_next_key, lemma_one_key, taken_from};
use crate::counting::lemma_settled;
use crate::editor::{Await, EditorView, PromptKind};
use crate::matching::{lemma_word_is_found, lemma_word_matches_itself, plain};
use crate::motion::{row_found, search_target, wrapped_row};
use crate::pattern::{error_from, pattern_found, pattern_found_before};
use crate::typing::typeable;
use vstd::prelude::*;

verus! {

/// Whether a line for a search is being typed, with these bytes so far.
spec fn searching(editor: EditorView, forward: bool, bytes: Seq<u8>) -> bool {
    &&& editor.takes_keys()
    &&& editor.input.awaiting == (Await::Prompt { kind: PromptKind::Search { forward } })
    &&& editor.input.typed == bytes
    &&& editor.input.replay is None
    &&& editor.input.mode == crate::messages::Mode::Command
    &&& !editor.message.hit_return
}

proof fn lemma_search_begins(editor: EditorView, forward: bool)
    requires
        editor.at_rest(),
    ensures
        ({
            let began = editor.pressed(
                if forward {
                    47u8
                } else {
                    63u8
                },
            );
            &&& searching(began, forward, Seq::empty())
            &&& began.doc == editor.doc
            &&& began.options == editor.options
            &&& began.input.search == editor.input.search
        }),
{
    reveal(EditorView::pressed);
    reveal(EditorView::key_handled);
    reveal(EditorView::settled);
    reveal(EditorView::prompting);
}

proof fn lemma_search_goes_on(editor: EditorView, forward: bool, bytes: Seq<u8>, key: u8)
    requires
        searching(editor, forward, bytes),
        32 <= key < 127,
    ensures
        searching(editor.pressed(key), forward, bytes.push(key)),
        editor.pressed(key).doc == editor.doc,
        editor.pressed(key).options == editor.options,
        editor.pressed(key).input.search == editor.input.search,
{
    lemma_key_resumes(editor, key);
    reveal(EditorView::resumed);
    reveal(EditorView::prompt_key);
    reveal(EditorView::settled);
}

proof fn lemma_search_typed(
    editor: EditorView,
    forward: bool,
    before: Seq<u8>,
    bytes: Seq<u8>,
    keys: Seq<u8>,
    at: int,
)
    requires
        searching(editor, forward, before),
        typeable(bytes),
        0 <= at,
        at + bytes.len() <= keys.len(),
        forall|i: int| 0 <= i < bytes.len() ==> keys[at + i] == #[trigger] bytes[i],
    ensures
        exists|after: EditorView|
            {
                &&& taken_from(editor, keys, at) == #[trigger] taken_from(
                    after,
                    keys,
                    at + bytes.len(),
                )
                &&& searching(after, forward, before + bytes)
                &&& after.doc == editor.doc
                &&& after.options == editor.options
                &&& after.input.search == editor.input.search
            },
    decreases bytes.len(),
{
    if bytes.len() == 0 {
        assert(before + bytes =~= before);
        assert(taken_from(editor, keys, at) == taken_from(editor, keys, at + bytes.len()));
    } else {
        let key = bytes[0];
        let rest = bytes.subrange(1, bytes.len() as int);
        assert(keys[at + 0] == key);
        assert forall|i: int| 0 <= i < rest.len() implies keys[at + 1 + i] == #[trigger] rest[i] by {
            assert(keys[at + (i + 1)] == bytes[i + 1]);
        }
        lemma_next_key(editor, keys, at);
        lemma_search_goes_on(editor, forward, before, key);
        let next = editor.pressed(key);
        lemma_search_typed(next, forward, before.push(key), rest, keys, at + 1);
        let after = choose|after: EditorView|
            {
                &&& taken_from(next, keys, at + 1) == #[trigger] taken_from(
                    after,
                    keys,
                    at + 1 + rest.len(),
                )
                &&& searching(after, forward, before.push(key) + rest)
                &&& after.doc == next.doc
                &&& after.options == next.options
                &&& after.input.search == next.input.search
            };
        assert(before.push(key) + rest =~= before + bytes);
        assert(taken_from(editor, keys, at) == taken_from(after, keys, at + bytes.len()));
    }
}

pub(crate) proof fn lemma_plain_is_valid(word: Seq<u8>, at: int)
    requires
        plain(word),
        0 <= at <= word.len(),
    ensures
        error_from(word, at, 0) is None,
    decreases word.len() - at,
{
    if at < word.len() {
        assert(word[at] != 92 && word[at] != 91);
        lemma_plain_is_valid(word, at + 1);
    }
}

/// Where a search for a word leads, once it is entered.
pub(crate) proof fn lemma_search_entered(editor: EditorView, forward: bool, word: Seq<u8>)
    requires
        editor.at_rest(),
        word.len() > 0,
        plain(word),
        typeable(word),
    ensures
        ({
            let slash: u8 = if forward {
                47
            } else {
                63
            };
            let after = editor.after_keys(seq![slash] + word + seq![13u8]);
            &&& after.at_rest()
            &&& after.doc.lines == editor.doc.lines
            &&& after.input.search == Some((word, forward))
            &&& match search_target(
                editor.doc.lines,
                editor.doc.row,
                editor.doc.col,
                word,
                forward,
                editor.options.ignorecase,
            ) {
                Some((row, col, wrapped)) => {
                    &&& after.doc.row == row
                    &&& after.doc.col == col
                    &&& wrapped ==> after.message.text == (if forward {
                        "search hit BOTTOM, continuing at TOP"@
                    } else {
                        "search hit TOP, continuing at BOTTOM"@
                    })
                },
                None => after.doc == editor.doc && after.message.text == "Pattern not found"@,
            }
        }),
{
    let slash: u8 = if forward {
        47
    } else {
        63
    };
    let keys = seq![slash] + word + seq![13u8];
    let empty = Seq::<u8>::empty();
    lemma_all_keys(editor, keys);
    assert(keys[0] == slash);
    lemma_next_key(editor, keys, 0);
    lemma_search_begins(editor, forward);
    let began = editor.pressed(slash);
    assert forall|i: int| 0 <= i < word.len() implies keys[1 + i] == #[trigger] word[i] by {}
    lemma_search_typed(began, forward, empty, word, keys, 1);
    let typed = choose|after: EditorView|
        {
            &&& taken_from(began, keys, 1) == #[trigger] taken_from(
                after,
                keys,
                1int + word.len(),
            )
            &&& searching(after, forward, empty + word)
            &&& after.doc == began.doc
            &&& after.options == began.options
            &&& after.input.search == began.input.search
        };
    assert(empty + word =~= word);
    let at = 1int + word.len();
    assert(keys[at] == 13);
    lemma_next_key(typed, keys, at);
    lemma_key_resumes(typed, 13);
    lemma_plain_is_valid(word, 0);
    assert(word[0] != 91);
    reveal(EditorView::resumed);
    reveal(EditorView::prompt_key);
    reveal(EditorView::search_entered);
    reveal(EditorView::searched);
    let done = typed.resumed(13);
    lemma_settled(done);
    lemma_all_keys(typed.pressed(13), keys);
    assert(at + 1 == keys.len());
}

/// Whether a word stands at a place of a line.
pub open spec fn word_at(line: Seq<u8>, at: int, word: Seq<u8>) -> bool {
    0 <= at && at + word.len() <= line.len() && line.subrange(at, at + word.len()) == word
}

/// The line that lies so many lines behind another one, around the end of the
/// text.
pub open spec fn lines_on(row: int, steps: int, count: int) -> int {
    if row + steps < count {
        row + steps
    } else {
        row + steps - count
    }
}

pub(crate) proof fn lemma_row_found(lines: Seq<Seq<u8>>, row: int, left: int, word: Seq<u8>, steps: int)
    requires
        0 <= row < lines.len(),
        word.len() > 0,
        plain(word),
        1 <= steps <= left <= lines.len(),
        exists|at: int| word_at(lines[lines_on(row, steps, lines.len() as int)], at, word),
        forall|j: int, at: int|
            1 <= j < steps ==> !(#[trigger] word_at(
                lines[lines_on(row, j, lines.len() as int)],
                at,
                word,
            )),
    ensures
        ({
            let to = lines_on(row, steps, lines.len() as int);
            let found = row_found(lines, row, left, word, true, false);
            &&& found is Some
            &&& found.unwrap().0 == to
            &&& word_at(lines[to], found.unwrap().1, word)
            &&& forall|i: int| 0 <= i < found.unwrap().1 ==> !(#[trigger] word_at(lines[to], i, word))
        }),
    decreases left,
{
    let count = lines.len() as int;
    let next = wrapped_row(row, count, true);
    assert(next == lines_on(row, 1, count));
    lemma_word_is_found(lines[next], word, 0);
    if steps == 1 {
        let at = choose|at: int| word_at(lines[next], at, word);
        assert(word_at(lines[next], at, word));
        let found = pattern_found(lines[next], word, 0);
        assert(found is Some) by {
            if found is None {
                assert(lines[next].subrange(at, at + word.len()) != word);
            }
        }
    } else {
        assert(pattern_found(lines[next], word, 0) is None) by {
            match pattern_found(lines[next], word, 0) {
                Some(at) => {
                    assert(word_at(lines[lines_on(row, 1, count)], at, word));
                },
                None => {},
            }
        }
        assert forall|j: int, at: int| 1 <= j < steps - 1 implies !(#[trigger] word_at(
            lines[lines_on(next, j, count)],
            at,
            word,
        )) by {
            assert(lines_on(next, j, count) == lines_on(row, j + 1, count));
            assert(!word_at(lines[lines_on(row, j + 1, count)], at, word));
        }
        assert(lines_on(next, steps - 1, count) == lines_on(row, steps, count));
        lemma_row_found(lines, next, left - 1, word, steps - 1);
    }
}

/// `/`, a word and return lead to the next place behind the cursor where the
/// word stands, in the line of the cursor.
pub proof fn lemma_search_in_line(editor: EditorView, word: Seq<u8>, at: int)
    requires
        editor.wf(),
        editor.at_rest(),
        !editor.options.ignorecase,
        word.len() > 0,
        plain(word),
        typeable(word),
        editor.doc.col < at,
        word_at(editor.doc.line(), at, word),
        forall|i: int| editor.doc.col < i < at ==> !(#[trigger] word_at(editor.doc.line(), i, word)),
    ensures
        ({
            let after = editor.after_keys(seq![47u8] + word + seq![13u8]);
            &&& after.at_rest()
            &&& after.doc.lines == editor.doc.lines
            &&& after.doc.row == editor.doc.row
            &&& after.doc.col == at
        }),
{
    let line = editor.doc.line();
    lemma_search_entered(editor, true, word);
    lemma_word_is_found(line, word, editor.doc.col + 1);
    let found = pattern_found(line, word, editor.doc.col + 1);
    match found {
        Some(place) => {
            if place < at {
                assert(word_at(line, place, word));
            }
            if at < place {
                assert(line.subrange(at, at + word.len()) != word);
            }
        },
        None => {
            assert(line.subrange(at, at + word.len()) != word);
        },
    }
}

/// Where the word stands nowhere behind the cursor in its line, the search
/// leads to the first place in the next line that has it, around the end of the
/// text, and tells so. Where no line has it, the cursor stays, with a message.
pub proof fn lemma_search_in_lines(editor: EditorView, word: Seq<u8>, steps: int)
    requires
        editor.wf(),
        editor.at_rest(),
        !editor.options.ignorecase,
        word.len() > 0,
        plain(word),
        typeable(word),
        forall|i: int| editor.doc.col < i ==> !(#[trigger] word_at(editor.doc.line(), i, word)),
        1 <= steps <= editor.doc.lines.len(),
        forall|j: int, i: int|
            1 <= j < steps ==> !(#[trigger] word_at(
                editor.doc.lines[lines_on(editor.doc.row, j, editor.doc.lines.len() as int)],
                i,
                word,
            )),
    ensures
        ({
            let after = editor.after_keys(seq![47u8] + word + seq![13u8]);
            let to = lines_on(editor.doc.row, steps, editor.doc.lines.len() as int);
            let line = editor.doc.lines[to];
            &&& (exists|i: int| word_at(line, i, word)) ==> {
                &&& after.doc.row == to
                &&& word_at(line, after.doc.col, word)
                &&& forall|i: int|
                    0 <= i < after.doc.col ==> !(#[trigger] word_at(line, i, word))
                &&& after.message.text == "search hit BOTTOM, continuing at TOP"@
            }
            &&& steps == editor.doc.lines.len() && !(exists|i: int| word_at(line, i, word)) ==> {
                &&& after.doc == editor.doc
                &&& after.message.text == "Pattern not found"@
            }
        }),
{
    let line = editor.doc.line();
    let lines = editor.doc.lines;
    let row = editor.doc.row;
    let count = lines.len() as int;
    lemma_search_entered(editor, true, word);
    if editor.doc.col + 1 <= line.len() {
        lemma_word_is_found(line, word, editor.doc.col + 1);
        match pattern_found(line, word, editor.doc.col + 1) {
            Some(place) => {
                assert(word_at(line, place, word));
            },
            None => {},
        }
    } else {
        lemma_word_is_found(line, word, line.len() as int);
        assert(pattern_found(line, word, editor.doc.col + 1) == pattern_found(
            line,
            word,
            line.len() as int,
        ));
        match pattern_found(line, word, line.len() as int) {
            Some(place) => {},
            None => {},
        }
    }
    let to = lines_on(row, steps, count);
    if exists|i: int| word_at(lines[to], i, word) {
        lemma_row_found(lines, row, count, word, steps);
    } else if steps == count {
        assert forall|j: int, i: int| 1 <= j <= count implies !(#[trigger] word_at(
            lines[lines_on(row, j, count)],
            i,
            word,
        )) by {
            if j == count {
                assert(!word_at(lines[to], i, word));
            }
        }
        lemma_no_row_found(lines, row, count, word);
    }
}

proof fn lemma_no_row_found(lines: Seq<Seq<u8>>, row: int, left: int, word: Seq<u8>)
    requires
        0 <= row < lines.len(),
        word.len() > 0,
        plain(word),
        0 <= left <= lines.len(),
        forall|j: int, at: int|
            1 <= j <= left ==> !(#[trigger] word_at(
                lines[lines_on(row, j, lines.len() as int)],
                at,
                word,
            )),
    ensures
        row_found(lines, row, left, word, true, false) is None,
    decreases left,
{
    let count = lines.len() as int;
    if left > 0 {
        let next = wrapped_row(row, count, true);
        assert(next == lines_on(row, 1, count));
        lemma_word_is_found(lines[next], word, 0);
        match pattern_found(lines[next], word, 0) {
            Some(at) => {
                assert(word_at(lines[lines_on(row, 1, count)], at, word));
            },
            None => {},
        }
        assert forall|j: int, at: int| 1 <= j <= left - 1 implies !(#[trigger] word_at(
            lines[lines_on(next, j, count)],
            at,
            word,
        )) by {
            assert(lines_on(next, j, count) == lines_on(row, j + 1, count));
            assert(!word_at(lines[lines_on(row, j + 1, count)], at, word));
        }
        lemma_no_row_found(lines, next, left - 1, word);
    }
}

/// `?`, a word and return lead to the last place before the cursor where the
/// word stands, in the line of the cursor.
pub proof fn lemma_search_back_in_line(editor: EditorView, word: Seq<u8>, at: int)
    requires
        editor.wf(),
        editor.at_rest(),
        !editor.options.ignorecase,
        word.len() > 0,
        plain(word),
        typeable(word),
        editor.doc.col <= editor.doc.line().len(),
        at < editor.doc.col,
        word_at(editor.doc.line(), at, word),
        forall|i: int| at < i < editor.doc.col ==> !(#[trigger] word_at(editor.doc.line(), i, word)),
    ensures
        ({
            let after = editor.after_keys(seq![63u8] + word + seq![13u8]);
            &&& after.at_rest()
            &&& after.doc.lines == editor.doc.lines
            &&& after.doc.row == editor.doc.row
            &&& after.doc.col == at
        }),
{
    let line = editor.doc.line();
    let before = editor.doc.col - 1;
    lemma_search_entered(editor, false, word);
    crate::matching::lemma_found_before_is_nearest(line, word, before);
    lemma_word_matches_itself(line, at, word);
    match pattern_found_before(line, word, before) {
        Some(place) => {
            lemma_word_matches_itself(line, place, word);
            if place > at {
                assert(word_at(line, place, word));
            }
            if place < at {
                assert(crate::pattern::match_at(line, at, word) is None);
            }
        },
        None => {
            assert(crate::pattern::match_at(line, at, word) is None);
        },
    }
}

/// The line that lies so many lines before another one, around the start of the
/// text.
pub open spec fn lines_back(row: int, steps: int, count: int) -> int {
    if row >= steps {
        row - steps
    } else {
        row - steps + count
    }
}

proof fn lemma_row_found_back(
    lines: Seq<Seq<u8>>,
    row: int,
    left: int,
    word: Seq<u8>,
    steps: int,
)
    requires
        0 <= row < lines.len(),
        word.len() > 0,
        plain(word),
        1 <= steps <= left <= lines.len(),
        exists|at: int| word_at(lines[lines_back(row, steps, lines.len() as int)], at, word),
        forall|j: int, at: int|
            1 <= j < steps ==> !(#[trigger] word_at(
                lines[lines_back(row, j, lines.len() as int)],
                at,
                word,
            )),
    ensures
        ({
            let to = lines_back(row, steps, lines.len() as int);
            let found = row_found(lines, row, left, word, false, false);
            &&& found is Some
            &&& found.unwrap().0 == to
            &&& word_at(lines[to], found.unwrap().1, word)
            &&& forall|i: int|
                0 <= i < found.unwrap().1 ==> !(#[trigger] word_at(lines[to], i, word))
        }),
    decreases left,
{
    let count = lines.len() as int;
    let next = wrapped_row(row, count, false);
    assert(next == lines_back(row, 1, count));
    lemma_word_is_found(lines[next], word, 0);
    if steps == 1 {
        let at = choose|at: int| word_at(lines[next], at, word);
        assert(word_at(lines[next], at, word));
        let found = pattern_found(lines[next], word, 0);
        assert(found is Some) by {
            if found is None {
                assert(lines[next].subrange(at, at + word.len()) != word);
            }
        }
    } else {
        assert(pattern_found(lines[next], word, 0) is None) by {
            match pattern_found(lines[next], word, 0) {
                Some(at) => {
                    assert(word_at(lines[lines_back(row, 1, count)], at, word));
                },
                None => {},
            }
        }
        assert forall|j: int, at: int| 1 <= j < steps - 1 implies !(#[trigger] word_at(
            lines[lines_back(next, j, count)],
            at,
            word,
        )) by {
            assert(lines_back(next, j, count) == lines_back(row, j + 1, count));
            assert(!word_at(lines[lines_back(row, j + 1, count)], at, word));
        }
        assert(lines_back(next, steps - 1, count) == lines_back(row, steps, count));
        lemma_row_found_back(lines, next, left - 1, word, steps - 1);
    }
}

/// Where the word stands nowhere before the cursor in its line, `?` leads to
/// the first place in the nearest line above that has it, around the start of
/// the text, and tells so.
pub proof fn lemma_search_back_in_lines(editor: EditorView, word: Seq<u8>, steps: int)
    requires
        editor.wf(),
        editor.at_rest(),
        !editor.options.ignorecase,
        word.len() > 0,
        plain(word),
        typeable(word),
        0 < editor.doc.col <= editor.doc.line().len(),
        forall|i: int| i < editor.doc.col ==> !(#[trigger] word_at(editor.doc.line(), i, word)),
        1 <= steps <= editor.doc.lines.len(),
        exists|i: int|
            word_at(
                editor.doc.lines[lines_back(editor.doc.row, steps, editor.doc.lines.len() as int)],
                i,
                word,
            ),
        forall|j: int, i: int|
            1 <= j < steps ==> !(#[trigger] word_at(
                editor.doc.lines[lines_back(editor.doc.row, j, editor.doc.lines.len() as int)],
                i,
                word,
            )),
    ensures
        ({
            let after = editor.after_keys(seq![63u8] + word + seq![13u8]);
            let to = lines_back(editor.doc.row, steps, editor.doc.lines.len() as int);
            let line = editor.doc.lines[to];
            &&& after.at_rest()
            &&& after.doc.lines == editor.doc.lines
            &&& after.doc.row == to
            &&& word_at(line, after.doc.col, word)
            &&& forall|i: int| 0 <= i < after.doc.col ==> !(#[trigger] word_at(line, i, word))
            &&& after.message.text == "search hit TOP, continuing at BOTTOM"@
        }),
{
    let line = editor.doc.line();
    let before = editor.doc.col - 1;
    lemma_search_entered(editor, false, word);
    crate::matching::lemma_found_before_is_nearest(line, word, before);
    match pattern_found_before(line, word, before) {
        Some(place) => {
            lemma_word_matches_itself(line, place, word);
            assert(word_at(line, place, word));
        },
        None => {},
    }
    lemma_row_found_back(
        editor.doc.lines,
        editor.doc.row,
        editor.doc.lines.len() as int,
        word,
        steps,
    );
}

/// `n` searches for the last word again the same way, and `N` the other way
/// round: each leads where entering the word anew would lead.
pub proof fn lemma_search_again(editor: EditorView, word: Seq<u8>, forward: bool)
    requires
        editor.wf(),
        editor.at_rest(),
        word.len() > 0,
        plain(word),
        typeable(word),
        editor.input.search == Some((word, forward)),
    ensures
        ({
            let slash: u8 = if forward {
                47
            } else {
                63
            };
            let other: u8 = if forward {
                63
            } else {
                47
            };
            let same_way = editor.after_keys(seq![slash] + word + seq![13u8]);
            let other_way = editor.after_keys(seq![other] + word + seq![13u8]);
            let again = editor.after_keys(seq![110u8]);
            let back = editor.after_keys(seq![78u8]);
            &&& again.doc.row == same_way.doc.row
            &&& again.doc.col == same_way.doc.col
            &&& again.input.search == Some((word, forward))
            &&& back.doc.row == other_way.doc.row
            &&& back.doc.col == other_way.doc.col
            &&& back.input.search == Some((word, forward))
        }),
{
    lemma_search_entered(editor, forward, word);
    lemma_search_entered(editor, !forward, word);
    lemma_one_key(editor, 110);
    lemma_one_key(editor, 78);
    reveal(EditorView::pressed);
    reveal(EditorView::key_handled);
    reveal(EditorView::settled);
    reveal(EditorView::searched_again);
    reveal(EditorView::searched);
}

} // verus!
