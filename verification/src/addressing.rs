//! Which lines the addresses of a colon command stand for, said of the commands
//! as they are typed.
use crate::address::{
    address_of, behind_space, ex_of, is_digit_char, pattern_end, text_behind, with_offsets,
    zero_number, ExView,
};
use crate::colon::{
    asked_for, lemma_decimal_digits, lemma_first_typed, lemma_letter_command, lemma_letter_names,
    lemma_letters_end, lemma_named, lemma_nothing_to_trim, lemma_number_at, lemma_place_read,
    lemma_taken_apart, quieted, Place,
};
use crate::editor::{EditorView, InputView};
use crate::matching::plain;
use crate::pattern::error_of;
use crate::replacing::lemma_ascii_kept;
use crate::searching::{lemma_plain_is_valid, lemma_row_found, lines_on, word_at};
use crate::strings::{decimal, decimal_bytes, latin_text};
use crate::substitute::pattern_meant;
use crate::typing::typeable;
use vstd::prelude::*;
use vstd::string::*;

verus! {

/// A command of one letter for all lines.
proof fn lemma_letter_for_all(editor: EditorView, c: char)
    requires
        editor.doc.lines.len() > 0,
        crate::address::is_letter(c),
    ensures
        editor.ex_executed(seq!['%', c]) == quieted(editor).ex_named(
            asked_for(
                editor,
                Some((0, editor.doc.lines.len() - 1)),
                seq![c],
                Seq::empty(),
                seq!['%', c],
            ),
        ),
{
    let command = seq!['%', c];
    let none = Seq::<char>::empty();
    let all = Some((0int, editor.doc.lines.len() - 1));
    assert(text_behind(command, 1) =~= seq![c]);
    assert(seq![c] + none =~= seq![c]);
    assert(seq![c][0] == c);
    lemma_named(all, c, none);
    lemma_taken_apart(editor, command, all, seq![c], none);
}

/// `%` stands for all lines: `%d` deletes them all, so that an empty one is
/// left, and `%y` yanks them all.
pub proof fn lemma_percent_is_all(editor: EditorView)
    requires
        editor.wf(),
        editor.doc.lines.len() <= isize::MAX,
    ensures
        ({
            let deleted = editor.ex_executed(seq!['%', 'd']);
            let yanked = editor.ex_executed(seq!['%', 'y']);
            &&& deleted.doc.lines == seq![Seq::<u8>::empty()]
            &&& deleted.registers.yank.lines == editor.doc.lines
            &&& yanked.registers.yank.lines == editor.doc.lines
            &&& yanked.doc.lines == editor.doc.lines
        }),
{
    let lines = editor.doc.lines;
    let count = lines.len() as int;
    lemma_letter_for_all(editor, 'd');
    lemma_letter_for_all(editor, 'y');
    lemma_letter_names('d');
    lemma_letter_names('y');
    reveal(EditorView::ex_named_more);
    reveal(EditorView::ex_delete);
    reveal(EditorView::ex_yank);
    assert(lines.subrange(0, count) =~= lines);
    let empty = seq![Seq::<u8>::empty()];
    assert(crate::bytes::splice(lines, 0, count, empty) =~= empty);
    if lines.subrange(0, count) == empty {
        assert(lines =~= empty);
    }
}

/// A place with a number of lines added or taken off, as it is typed.
pub open spec fn typed_from(place: Place, below: bool, count: nat) -> Seq<char> {
    place.typed() + (seq![
        if below {
            '+'
        } else {
            '-'
        },
    ] + decimal(count as int))
}

proof fn lemma_offset_read(editor: EditorView, place: Place, below: bool, count: nat)
    requires
        0 <= editor.doc.row < editor.doc.lines.len() <= isize::MAX,
        place.exists_in(editor),
        place is Here || place is Last || place is Mark || place is Number,
        0 <= (if below {
            place.line(editor) + count
        } else {
            place.line(editor) - count
        }) < editor.doc.lines.len(),
    ensures
        ({
            let line = if below {
                place.line(editor) + count
            } else {
                place.line(editor) - count
            };
            let typed = typed_from(place, below, count);
            address_of(
                typed + seq!['='],
                editor.doc.row,
                editor.doc.lines,
                editor.options.ignorecase,
                editor.input.marks,
                editor.input.search,
            ) == (
                Ok::<Option<(int, int)>, Seq<char>>(Some((line, typed.len() as int))),
                editor.input.search,
            )
        }),
{
    let typed = typed_from(place, below, count);
    let text = typed + seq!['='];
    let end = place.typed().len() as int;
    let last = typed.len() as int;
    let digits = decimal(count as int);
    let address = place.line(editor) + 1;
    lemma_decimal_digits(count);
    assert(text[last] == '=');
    assert(text[end] == (if below {
        '+'
    } else {
        '-'
    }));
    assert(text.subrange(end + 1, last) =~= digits);
    assert(text.subrange(0, end) =~= place.typed());
    lemma_offsets(text, end, address, below, count);
    lemma_base_read(editor, place, text);
    reveal(address_of);
}

/// A sign, a number and an equals sign, read as an offset.
proof fn lemma_offsets(text: Seq<char>, end: int, address: int, below: bool, count: nat)
    requires
        0 <= end < text.len(),
        text[end] == (if below {
            '+'
        } else {
            '-'
        }),
        end + 2 + decimal(count as int).len() == text.len(),
        text.subrange(end + 1, text.len() - 1) == decimal(count as int),
        text.last() == '=',
        0 < address <= isize::MAX,
        0 < (if below {
            address + count
        } else {
            address - count
        }) <= isize::MAX,
    ensures
        with_offsets(text, end, address, 0) == Some(
            (
                if below {
                    address + count
                } else {
                    address - count
                },
                text.len() - 1,
            ),
        ),
{
    let last = text.len() - 1;
    let sign: int = if below {
        1
    } else {
        -1
    };
    let line = if below {
        address + count
    } else {
        address - count
    };
    assert(text[last] == '=');
    lemma_number_at(text, end + 1, count);
    assert(with_offsets(text, last, line, 0) == Some((line, last)));
    assert(with_offsets(text, end + 1, address, sign) == with_offsets(text, last, line, 0));
    assert(with_offsets(text, end, address, 0) == with_offsets(text, end + 1, address, sign));
}

/// What stands in front of the offsets is read as the line of the place.
proof fn lemma_base_read(editor: EditorView, place: Place, text: Seq<char>)
    requires
        0 <= editor.doc.row < editor.doc.lines.len() <= isize::MAX,
        place.exists_in(editor),
        place is Here || place is Last || place is Mark || place is Number,
        place.typed().len() < text.len(),
        text.subrange(0, place.typed().len() as int) == place.typed(),
        !is_digit_char(text[place.typed().len() as int]),
    ensures
        behind_space(text, 0) == 0,
        crate::address::address_base(
            text,
            0,
            editor.doc.row,
            editor.doc.lines,
            editor.options.ignorecase,
            editor.input.marks,
            editor.input.search,
        ) == (
            crate::address::AddressBase::Line {
                address: place.line(editor) + 1,
                position: place.typed().len() as int,
                sign: 0,
            },
            editor.input.search,
        ),
{
    let end = place.typed().len() as int;
    let front = text.subrange(0, end);
    lemma_first_typed(place);
    assert(text[0] == front[0]);
    match place {
        Place::Number(number) => {
            lemma_decimal_digits(number);
            lemma_number_at(text, 0, number);
        },
        Place::Mark(name) => {
            assert(front[1] == name);
            assert(text[1] == front[1]);
        },
        _ => {},
    }
}

/// `+` and a number behind a place add so many lines to it, and `-` and a
/// number take so many off: with `=` the number of that line is told.
pub proof fn lemma_offset_is_told(editor: EditorView, place: Place, below: bool, count: nat)
    requires
        0 <= editor.doc.row < editor.doc.lines.len() <= isize::MAX,
        place.exists_in(editor),
        place is Here || place is Last || place is Mark || place is Number,
        0 <= (if below {
            place.line(editor) + count
        } else {
            place.line(editor) - count
        }) < editor.doc.lines.len(),
    ensures
        editor.ex_executed(typed_from(place, below, count) + seq!['=']).message.text == decimal(
            if below {
                place.line(editor) + count + 1
            } else {
                place.line(editor) - count + 1
            },
        ),
{
    let typed = typed_from(place, below, count);
    let rest = seq!['='];
    let command = typed + rest;
    let line = if below {
        place.line(editor) + count
    } else {
        place.line(editor) - count
    };
    lemma_offset_read(editor, place, below, count);
    assert(text_behind(command, typed.len() as int) =~= rest);
    lemma_letters_end(rest, 0, 0);
    lemma_nothing_to_trim(rest);
    assert(rest.subrange(0, 0) =~= Seq::<char>::empty());
    assert(text_behind(rest, 0) =~= rest);
    lemma_first_typed(place);
    assert(command[0] == place.typed()[0]);
    assert(command.last() == '=');
    lemma_taken_apart(editor, command, Some((line, line)), Seq::empty(), rest);
    lemma_number_named();
    reveal(EditorView::ex_number);
    assert(!zero_number(command)) by {
        assert(crate::strings::trim_start(command) == command);
        match place {
            Place::Number(number) => {
                lemma_decimal_digits(number);
                assert(command[0] == decimal_bytes(number)[0] as char);
            },
            _ => {},
        }
    }
}

proof fn lemma_number_named()
    ensures
        Seq::<char>::empty() != "wq"@,
        Seq::<char>::empty() != "x"@,
        Seq::<char>::empty() != "wn"@,
        seq!['='] == "="@,
{
    reveal_strlit("wq");
    reveal_strlit("x");
    reveal_strlit("wn");
    reveal_strlit("=");
    assert(seq!['='] =~= "="@);
    assert("wq"@.len() == 2 && "x"@.len() == 1 && "wn"@.len() == 2);
}

proof fn lemma_pattern_ends(text: Seq<char>, from: int, end: int, delimiter: char)
    requires
        0 <= from <= end < text.len(),
        delimiter != '\\',
        forall|i: int| from <= i < end ==> #[trigger] text[i] != '\\' && text[i] != delimiter,
        text[end] == delimiter,
    ensures
        pattern_end(text, from, delimiter) == end,
    decreases end - from,
{
    if from < end {
        lemma_pattern_ends(text, from + 1, end, delimiter);
    }
}

proof fn lemma_word_meant(bytes: Seq<u8>, at: int)
    requires
        0 <= at <= bytes.len(),
        plain(bytes),
    ensures
        pattern_meant(bytes, at, 47) == bytes.subrange(at, bytes.len() as int),
    decreases bytes.len() - at,
{
    if at < bytes.len() {
        lemma_word_meant(bytes, at + 1);
        assert(bytes[at] != 92);
        assert(seq![bytes[at]] + bytes.subrange(at + 1, bytes.len() as int) =~= bytes.subrange(
            at,
            bytes.len() as int,
        ));
    }
}

/// A word between slashes stands for the next line behind the one of the cursor
/// that has the word, around the end of the text: with `=` its number is told.
pub proof fn lemma_searched_line_is_told(editor: EditorView, word: Seq<u8>, steps: int)
    requires
        editor.wf(),
        !editor.options.ignorecase,
        editor.doc.lines.len() <= isize::MAX,
        word.len() > 0,
        plain(word),
        typeable(word),
        forall|i: int| 0 <= i < word.len() ==> #[trigger] word[i] != 47,
        1 <= steps <= editor.doc.lines.len(),
        exists|i: int|
            word_at(
                editor.doc.lines[lines_on(editor.doc.row, steps, editor.doc.lines.len() as int)],
                i,
                word,
            ),
        forall|j: int, i: int|
            1 <= j < steps ==> !(#[trigger] word_at(
                editor.doc.lines[lines_on(editor.doc.row, j, editor.doc.lines.len() as int)],
                i,
                word,
            )),
    ensures
        editor.ex_executed(seq!['/'] + latin_text(word) + seq!['/', '=']).message.text == decimal(
            lines_on(editor.doc.row, steps, editor.doc.lines.len() as int) + 1,
        ),
{
    let text = latin_text(word);
    let command = seq!['/'] + text + seq!['/', '='];
    let rest = seq!['='];
    let lines = editor.doc.lines;
    let line = lines_on(editor.doc.row, steps, lines.len() as int);
    let end = 1 + text.len() as int;
    assert forall|i: int| 0 <= i < word.len() implies #[trigger] word[i] < 128 by {}
    lemma_ascii_kept(word);
    assert forall|i: int| 1 <= i < end implies #[trigger] command[i] != '\\' && command[i] != '/' by {
        assert(command[i] == text[i - 1]);
        assert(text[i - 1] == word[i - 1] as char);
        assert(word[i - 1] != 92 && word[i - 1] != 47);
    }
    assert(command[end] == '/' && command[end + 1] == '=' && command[0] == '/');
    lemma_pattern_ends(command, 1, end, '/');
    assert(command.subrange(1, end) =~= text);
    lemma_word_meant(word, 0);
    assert(word.subrange(0, word.len() as int) =~= word);
    lemma_plain_is_valid(word, 0);
    assert(word[0] != 91);
    assert(error_of(word) is None);
    lemma_row_found(lines, editor.doc.row, lines.len() as int, word, steps);
    assert(behind_space(command, 0) == 0);
    let after = Some((word, true));
    assert(address_of(
        command,
        editor.doc.row,
        lines,
        false,
        editor.input.marks,
        editor.input.search,
    ) == (Ok::<Option<(int, int)>, Seq<char>>(Some((line, end + 1))), after)) by {
        reveal(address_of);
        assert(with_offsets(command, end + 1, line + 1, 0) == Some((line + 1, end + 1)));
    }
    assert(text_behind(command, end + 1) =~= rest);
    lemma_letters_end(rest, 0, 0);
    lemma_nothing_to_trim(rest);
    assert(rest.subrange(0, 0) =~= Seq::<char>::empty());
    assert(text_behind(rest, 0) =~= rest);
    assert(ex_of(
        command,
        editor.doc.row,
        lines,
        false,
        editor.input.marks,
        editor.input.search,
    ) == (
        Ok::<ExView, Seq<char>>(
            ExView { addresses: Some((line, line)), name: Seq::empty(), args: rest },
        ),
        after,
    ));
    lemma_nothing_to_trim(command);
    assert(crate::excmd::without_colons(command) == command);
    assert(command.last() == '=');
    let known = EditorView {
        input: InputView { search: after, ..quieted(editor).input },
        ..quieted(editor)
    };
    assert(editor.ex_executed(command) == known.ex_named(
        asked_for(editor, Some((line, line)), Seq::empty(), rest, command),
    ));
    lemma_number_named();
    reveal(EditorView::ex_number);
    assert(!zero_number(command)) by {
        assert(crate::strings::trim_start(command) == command);
    }
}

/// A command for a single place is for the line of that place alone, and a
/// command without a place for the line of the cursor: `d` deletes just that
/// line, and `y` yanks it.
pub proof fn lemma_single_line(editor: EditorView, place: Place)
    requires
        editor.wf(),
        editor.doc.lines.len() <= isize::MAX,
        place.exists_in(editor),
    ensures
        ({
            let lines = editor.doc.lines;
            let line = place.line(editor);
            let deleted = editor.ex_executed(place.typed() + seq!['d']);
            let yanked = editor.ex_executed(place.typed() + seq!['y']);
            &&& deleted.doc.lines == without_line(lines, line)
            &&& deleted.registers.yank.lines == seq![lines[line]]
            &&& yanked.registers.yank.lines == seq![lines[line]]
            &&& yanked.doc.lines == lines
        }),
        ({
            let lines = editor.doc.lines;
            let deleted = editor.ex_executed(seq!['d']);
            let yanked = editor.ex_executed(seq!['y']);
            &&& deleted.doc.lines == without_line(lines, editor.doc.row)
            &&& deleted.registers.yank.lines == seq![lines[editor.doc.row]]
            &&& yanked.registers.yank.lines == seq![lines[editor.doc.row]]
            &&& yanked.doc.lines == lines
        }),
{
    let line = place.line(editor);
    let none = Seq::<char>::empty();
    lemma_letter_at(editor, place, 'd');
    lemma_letter_at(editor, place, 'y');
    assert(seq!['d'] + none =~= seq!['d']);
    assert(seq!['y'] + none =~= seq!['y']);
    lemma_letter_command(editor, 'd', none);
    lemma_letter_command(editor, 'y', none);
    lemma_letter_names('d');
    lemma_letter_names('y');
    reveal(EditorView::ex_named_more);
    reveal(EditorView::ex_delete);
    reveal(EditorView::ex_yank);
    lemma_one_line_cut(editor, line);
    lemma_one_line_cut(editor, editor.doc.row);
}

/// The lines without one of them. Where it is the only one, an empty one is
/// left.
pub open spec fn without_line(lines: Seq<Seq<u8>>, line: int) -> Seq<Seq<u8>> {
    if lines.len() == 1 {
        seq![Seq::empty()]
    } else {
        lines.remove(line)
    }
}

proof fn lemma_one_line_cut(editor: EditorView, line: int)
    requires
        editor.wf(),
        0 <= line < editor.doc.lines.len(),
    ensures
        ({
            let after = quieted(editor).lines_deleted(line, line);
            &&& after.doc.lines == without_line(editor.doc.lines, line)
            &&& after.registers.yank.lines == seq![editor.doc.lines[line]]
            &&& editor.doc.lines.subrange(line, line + 1) == seq![editor.doc.lines[line]]
        }),
{
    let lines = editor.doc.lines;
    let empty = seq![Seq::<u8>::empty()];
    assert(lines.subrange(line, line + 1) =~= seq![lines[line]]);
    assert(lines.subrange(line, line + 1).len() == 1);
    if lines.len() == 1 {
        assert(crate::bytes::splice(lines, line, line + 1, empty) =~= empty);
        if lines.subrange(line, line + 1) == empty {
            assert(lines =~= empty);
        }
    } else {
        assert(crate::bytes::splice(lines, line, line + 1, Seq::empty()) =~= lines.remove(line));
    }
}

proof fn lemma_letter_at(editor: EditorView, place: Place, c: char)
    requires
        0 <= editor.doc.row < editor.doc.lines.len() <= isize::MAX,
        place.exists_in(editor),
        crate::address::is_letter(c),
    ensures
        editor.ex_executed(place.typed() + seq![c]) == quieted(editor).ex_named(
            asked_for(
                editor,
                Some((place.line(editor), place.line(editor))),
                seq![c],
                Seq::empty(),
                place.typed() + seq![c],
            ),
        ),
{
    let rest = seq![c];
    let none = Seq::<char>::empty();
    let command = place.typed() + rest;
    let line = place.line(editor);
    assert(rest[0] == c);
    lemma_place_read(editor, place, rest);
    assert(text_behind(command, place.typed().len() as int) =~= rest);
    assert(rest + none =~= rest);
    lemma_named(Some((line, line)), c, none);
    lemma_first_typed(place);
    assert(command[0] == place.typed()[0]);
    assert(command.last() == c);
    lemma_taken_apart(editor, command, Some((line, line)), rest, none);
}

} // verus!
