//! What colon commands do, said of the commands as they are typed.
use crate::address::{
    address_of, behind_digits, behind_letters, behind_space, ex_of, is_blank_char, is_digit_char,
    is_letter, named_command, names, number_at, text_behind, with_offsets, zero_number,
};
use crate::editor::{EditorView, InputView, RegistersView};
use crate::excmd::ExAsked;
use crate::strings::{decimal, decimal_bytes, is_white, trim, trim_start};
use vstd::prelude::*;
use vstd::string::*;

verus! {

/// A line as a colon command names it.
pub enum Place {
    /// By its number, from 1 on.
    Number(nat),
    /// The line of the cursor: `.`.
    Here,
    /// The last line: `$`.
    Last,
    /// The line of a mark `a` to `z`.
    Mark(char),
    /// So many lines below the cursor: `+` and a number.
    Below(nat),
    /// So many lines above the cursor: `-` and a number.
    Above(nat),
}

impl Place {
    /// How the place is typed.
    pub open spec fn typed(self) -> Seq<char> {
        match self {
            Place::Number(number) => decimal(number as int),
            Place::Here => seq!['.'],
            Place::Last => seq!['$'],
            Place::Mark(name) => seq!['\'', name],
            Place::Below(count) => seq!['+'] + decimal(count as int),
            Place::Above(count) => seq!['-'] + decimal(count as int),
        }
    }

    /// The line that the place names, counted from 0.
    pub open spec fn line(self, editor: EditorView) -> int {
        match self {
            Place::Number(number) => number - 1,
            Place::Here => editor.doc.row,
            Place::Last => editor.doc.lines.len() - 1,
            Place::Mark(name) => match editor.input.marks[name as int - 'a' as int] {
                Some((row, _)) => row as int,
                None => -1,
            },
            Place::Below(count) => editor.doc.row + count,
            Place::Above(count) => editor.doc.row - count,
        }
    }

    /// Whether there is such a line.
    pub open spec fn exists_in(self, editor: EditorView) -> bool {
        &&& 0 <= self.line(editor) < editor.doc.lines.len()
        &&& self matches Place::Mark(name) ==> 'a' <= name <= 'z'
    }
}

/// Numbers are written with ten digits, the last one for the ones.
pub proof fn lemma_decimal_notation(number: nat, digit: nat)
    requires
        digit < 10,
    ensures
        decimal(digit as int) == seq![(48 + digit) as char],
        number > 0 ==> decimal((10 * number + digit) as int) == decimal(number as int).push(
            (48 + digit) as char,
        ),
{
    assert(decimal(digit as int) =~= seq![(48 + digit) as char]);
    if number > 0 {
        let whole: nat = 10 * number + digit;
        assert(whole / 10 == number && whole % 10 == digit) by (nonlinear_arith)
            requires
                whole == 10 * number + digit,
                digit < 10,
        ;
        assert(decimal(whole as int) =~= decimal(number as int).push((48 + digit) as char));
    }
}

pub(crate) proof fn lemma_decimal_digits(n: nat)
    ensures
        decimal_bytes(n).len() > 0,
        forall|i: int| 0 <= i < decimal_bytes(n).len() ==> 48 <= #[trigger] decimal_bytes(n)[i] <= 57,
        n > 0 ==> decimal_bytes(n)[0] != 48,
    decreases n,
{
    if n >= 10 {
        lemma_decimal_digits(n / 10);
    }
}

proof fn lemma_number_read(text: Seq<char>, at: int, n: nat)
    requires
        0 <= at,
        at + decimal_bytes(n).len() <= text.len(),
        forall|i: int|
            0 <= i < decimal_bytes(n).len() ==> text[at + i] == (#[trigger] decimal_bytes(
                n,
            )[i]) as char,
    ensures
        number_at(text, at, at + decimal_bytes(n).len()) == n,
    decreases n,
{
    let digits = decimal_bytes(n);
    if n < 10 {
        assert(text[at + 0] == digits[0] as char);
        reveal_with_fuel(number_at, 2);
    } else {
        let shorter = decimal_bytes(n / 10);
        assert forall|i: int| 0 <= i < shorter.len() implies text[at + i] == (
        #[trigger] shorter[i]) as char by {
            assert(digits[i] == shorter[i]);
        }
        lemma_number_read(text, at, n / 10);
        assert(text[at + (digits.len() - 1)] == digits[digits.len() - 1] as char);
    }
}

proof fn lemma_digits_end(text: Seq<char>, at: int, end: int)
    requires
        0 <= at <= end <= text.len(),
        forall|i: int| at <= i < end ==> is_digit_char(#[trigger] text[i]),
        end < text.len() ==> !is_digit_char(text[end]),
    ensures
        behind_digits(text, at) == end,
    decreases end - at,
{
    if at < end {
        lemma_digits_end(text, at + 1, end);
    }
}

/// The digits of a number, read where they stand.
pub(crate) proof fn lemma_number_at(text: Seq<char>, at: int, n: nat)
    requires
        0 <= at,
        at + decimal(n as int).len() <= text.len(),
        text.subrange(at, at + decimal(n as int).len()) == decimal(n as int),
        at + decimal(n as int).len() < text.len() ==> !is_digit_char(
            text[at + decimal(n as int).len()],
        ),
    ensures
        behind_digits(text, at) == at + decimal(n as int).len(),
        number_at(text, at, at + decimal(n as int).len()) == n,
        is_digit_char(text[at]),
{
    let digits = decimal_bytes(n);
    let part = text.subrange(at, at + decimal(n as int).len());
    lemma_decimal_digits(n);
    assert forall|i: int| 0 <= i < digits.len() implies text[at + i] == (
    #[trigger] digits[i]) as char by {
        assert(part[i] == decimal(n as int)[i]);
    }
    lemma_number_read(text, at, n);
    assert forall|i: int| at <= i < at + digits.len() implies is_digit_char(#[trigger] text[i]) by {
        assert(text[at + (i - at)] == digits[i - at] as char);
    }
    lemma_digits_end(text, at, at + digits.len());
}

/// Whether a character can stand behind a line and is no part of it.
pub open spec fn ends_place(c: char) -> bool {
    !is_blank_char(c) && !is_digit_char(c) && c != '+' && c != '-'
}

/// A place that is typed in front of something else is read as the line that
/// it names.
pub(crate) proof fn lemma_place_read(editor: EditorView, place: Place, rest: Seq<char>)
    requires
        0 <= editor.doc.row < editor.doc.lines.len() <= isize::MAX,
        place.exists_in(editor),
        rest.len() > 0 ==> ends_place(rest[0]),
    ensures
        address_of(
            place.typed() + rest,
            editor.doc.row,
            editor.doc.lines,
            editor.options.ignorecase,
            editor.input.marks,
            editor.input.search,
        ) == (
            Ok::<Option<(int, int)>, Seq<char>>(
                Some((place.line(editor), place.typed().len() as int)),
            ),
            editor.input.search,
        ),
{
    let text = place.typed() + rest;
    let end = place.typed().len() as int;
    if rest.len() > 0 {
        assert(text[end] == rest[0]);
    }
    reveal(address_of);
    reveal_with_fuel(with_offsets, 2);
    match place {
        Place::Number(number) => {
            lemma_decimal_digits(number);
            assert(text.subrange(0, end) =~= decimal(number as int));
            lemma_number_at(text, 0, number);
            assert(behind_space(text, 0) == 0);
            assert(with_offsets(text, end, number as int, 0) == Some((number as int, end)));
        },
        Place::Here => {
            assert(text[0] == '.');
        },
        Place::Last => {
            assert(text[0] == '$');
        },
        Place::Mark(name) => {
            assert(text[0] == '\'' && text[1] == name);
        },
        Place::Below(count) => {
            lemma_decimal_digits(count);
            assert(text[0] == '+');
            assert(text.subrange(1, end) =~= decimal(count as int));
            lemma_number_at(text, 1, count);
            assert(with_offsets(text, end, editor.doc.row + 1 + count, 0) == Some(
                (editor.doc.row + 1 + count, end),
            ));
        },
        Place::Above(count) => {
            lemma_decimal_digits(count);
            assert(text[0] == '-');
            assert(text.subrange(1, end) =~= decimal(count as int));
            lemma_number_at(text, 1, count);
            assert(with_offsets(text, end, editor.doc.row + 1 - count, 0) == Some(
                (editor.doc.row + 1 - count, end),
            ));
        },
    }
}

/// What names of one letter stand for.
pub(crate) proof fn lemma_letter_names(c: char)
    ensures
        names(seq![c], "quit"@) == (c == 'q'),
        names(seq![c], "next"@) == (c == 'n'),
        names(seq![c], "prev"@) == (c == 'p'),
        names(seq![c], "rewind"@) == (c == 'r'),
        names(seq![c], "write"@) == (c == 'w'),
        seq![c] != "wq"@,
        (seq![c] == "x"@) == (c == 'x'),
        seq![c] != "wn"@,
        names(seq![c], "edit"@) == (c == 'e'),
        names(seq![c], "file"@) == (c == 'f'),
        names(seq![c], "version"@) == (c == 'v'),
        names(seq![c], "features"@) == (c == 'f'),
        names(seq![c], "list"@) == (c == 'l'),
        names(seq![c], "delete"@) == (c == 'd'),
        names(seq![c], "yank"@) == (c == 'y'),
        names(seq![c], "read"@) == (c == 'r'),
{
    reveal_strlit("quit");
    reveal_strlit("next");
    reveal_strlit("prev");
    reveal_strlit("rewind");
    reveal_strlit("write");
    reveal_strlit("wq");
    reveal_strlit("x");
    reveal_strlit("wn");
    reveal_strlit("edit");
    reveal_strlit("file");
    reveal_strlit("version");
    reveal_strlit("features");
    reveal_strlit("list");
    reveal_strlit("delete");
    reveal_strlit("yank");
    reveal_strlit("read");
    lemma_names_first(c, "quit"@);
    lemma_names_first(c, "next"@);
    lemma_names_first(c, "prev"@);
    lemma_names_first(c, "rewind"@);
    lemma_names_first(c, "write"@);
    lemma_names_first(c, "edit"@);
    lemma_names_first(c, "file"@);
    lemma_names_first(c, "version"@);
    lemma_names_first(c, "features"@);
    lemma_names_first(c, "list"@);
    lemma_names_first(c, "delete"@);
    lemma_names_first(c, "yank"@);
    lemma_names_first(c, "read"@);
    assert(seq![c].len() == 1);
    if c == 'x' {
        assert(seq![c] =~= "x"@);
    } else {
        assert(seq![c][0] != "x"@[0]);
    }
}

pub(crate) proof fn lemma_names_first(c: char, command: Seq<char>)
    requires
        command.len() > 0,
    ensures
        names(seq![c], command) == (c == command[0]),
{
    let first = command.subrange(0, 1);
    assert(first[0] == command[0]);
    if c == command[0] {
        assert(first =~= seq![c]);
    } else {
        assert(seq![c][0] == c);
    }
}

/// A command between its first and its last character, neither of them a space,
/// is the command itself.
pub(crate) proof fn lemma_nothing_to_trim(text: Seq<char>)
    requires
        text.len() > 0 ==> !is_white(text[0]) && !is_white(text.last()),
    ensures
        trim(text) == text,
{
}

/// The editor before a colon command is carried out: the message and the
/// register that was selected are gone.
pub open spec fn quieted(editor: EditorView) -> EditorView {
    EditorView {
        registers: RegistersView { selected: None, ..editor.registers },
        ..editor.cleared()
    }
}

/// What a command asks for: the lines, the name, the rest.
pub open spec fn asked_for(
    editor: EditorView,
    addresses: Option<(int, int)>,
    name: Seq<char>,
    args: Seq<char>,
    body: Seq<char>,
) -> ExAsked {
    ExAsked { addresses, name, args, force: false, body, register: editor.registers.selected }
}

/// How a command that was taken apart goes on.
pub(crate) proof fn lemma_taken_apart(
    editor: EditorView,
    command: Seq<char>,
    addresses: Option<(int, int)>,
    name: Seq<char>,
    args: Seq<char>,
)
    requires
        command.len() > 0,
        command[0] != ':',
        !is_white(command[0]),
        !is_white(command.last()),
        command.last() != '!',
        args.len() > 0 ==> args[0] != '!',
        ex_of(
            command,
            editor.doc.row,
            editor.doc.lines,
            editor.options.ignorecase,
            editor.input.marks,
            editor.input.search,
        ) == (
            Ok::<crate::address::ExView, Seq<char>>(
                crate::address::ExView { addresses, name, args },
            ),
            editor.input.search,
        ),
    ensures
        editor.ex_executed(command) == quieted(editor).ex_named(
            asked_for(editor, addresses, name, args, command),
        ),
{
    lemma_nothing_to_trim(command);
    assert(crate::excmd::without_colons(command) == command);
    assert(InputView { search: editor.input.search, ..editor.input } == editor.input);
}

pub(crate) proof fn lemma_letters_end(text: Seq<char>, at: int, end: int)
    requires
        0 <= at <= end <= text.len(),
        forall|i: int| at <= i < end ==> is_letter(#[trigger] text[i]),
        end < text.len() ==> !is_letter(text[end]),
    ensures
        behind_letters(text, at) == end,
    decreases end - at,
{
    if at < end {
        lemma_letters_end(text, at + 1, end);
    }
}

/// A name of one letter and what follows it, behind the lines.
pub(crate) proof fn lemma_named(addresses: Option<(int, int)>, c: char, args: Seq<char>)
    requires
        is_letter(c),
        args.len() > 0 ==> !is_letter(args[0]) && !is_white(args[0]) && !is_white(args.last()),
    ensures
        named_command(addresses, seq![c] + args) == (crate::address::ExView {
            addresses,
            name: seq![c],
            args,
        }),
{
    let rest = seq![c] + args;
    lemma_letters_end(rest, 0, 1);
    lemma_nothing_to_trim(args);
    assert(rest.subrange(0, 1) =~= seq![c]);
    assert(text_behind(rest, 1) =~= args);
}

/// A command of one letter without lines.
pub(crate) proof fn lemma_letter_command(editor: EditorView, c: char, args: Seq<char>)
    requires
        is_letter(c),
        args.len() > 0 ==> !is_letter(args[0]) && !is_white(args[0]) && !is_white(args.last())
            && args.last() != '!' && args[0] != '!',
    ensures
        editor.ex_executed(seq![c] + args) == quieted(editor).ex_named(
            asked_for(editor, None, seq![c], args, seq![c] + args),
        ),
{
    let command = seq![c] + args;
    assert(command[0] == c);
    if args.len() > 0 {
        assert(command.last() == args.last());
    }
    lemma_named(None, c, args);
    assert(behind_space(command, 0) == 0);
    reveal(address_of);
    lemma_taken_apart(editor, command, None, seq![c], args);
}

/// A command as it is typed for the lines from one place to another.
pub open spec fn typed_for(from: Place, to: Place, tail: Seq<char>) -> Seq<char> {
    from.typed() + seq![','] + to.typed() + tail
}

/// Two lines with a comma between them, read one after the other.
proof fn lemma_both_read(
    editor: EditorView,
    first: Seq<char>,
    from: int,
    second: Seq<char>,
    to: int,
    tail: Seq<char>,
)
    requires
        first.len() > 0,
        first[0] != '%',
        from <= to,
        address_of(
            first + (seq![','] + (second + tail)),
            editor.doc.row,
            editor.doc.lines,
            editor.options.ignorecase,
            editor.input.marks,
            editor.input.search,
        ) == (
            Ok::<Option<(int, int)>, Seq<char>>(Some((from, first.len() as int))),
            editor.input.search,
        ),
        address_of(
            second + tail,
            editor.doc.row,
            editor.doc.lines,
            editor.options.ignorecase,
            editor.input.marks,
            editor.input.search,
        ) == (
            Ok::<Option<(int, int)>, Seq<char>>(Some((to, second.len() as int))),
            editor.input.search,
        ),
    ensures
        ex_of(
            first + seq![','] + second + tail,
            editor.doc.row,
            editor.doc.lines,
            editor.options.ignorecase,
            editor.input.marks,
            editor.input.search,
        ) == (
            Ok::<crate::address::ExView, Seq<char>>(named_command(Some((from, to)), tail)),
            editor.input.search,
        ),
{
    let behind = second + tail;
    let rest = seq![','] + behind;
    let command = first + seq![','] + second + tail;
    assert(command =~= first + rest);
    assert(text_behind(command, first.len() as int) =~= rest);
    assert(text_behind(rest, 1) =~= behind);
    assert(text_behind(behind, second.len() as int) =~= tail);
    assert(command[0] == first[0]);
    assert(rest[0] == ',');
}

/// A command of one letter for lines is taken apart.
proof fn lemma_range_read(
    editor: EditorView,
    from: Place,
    to: Place,
    c: char,
    args: Seq<char>,
)
    requires
        0 <= editor.doc.row < editor.doc.lines.len() <= isize::MAX,
        from.exists_in(editor),
        to.exists_in(editor),
        from.line(editor) <= to.line(editor),
        is_letter(c),
        args.len() > 0 ==> !is_letter(args[0]) && !is_white(args[0]) && !is_white(args.last()),
    ensures
        ex_of(
            typed_for(from, to, seq![c] + args),
            editor.doc.row,
            editor.doc.lines,
            editor.options.ignorecase,
            editor.input.marks,
            editor.input.search,
        ) == (
            Ok::<crate::address::ExView, Seq<char>>(
                crate::address::ExView {
                    addresses: Some((from.line(editor), to.line(editor))),
                    name: seq![c],
                    args,
                },
            ),
            editor.input.search,
        ),
{
    let tail = seq![c] + args;
    let first = from.typed();
    let second = to.typed();
    assert(tail[0] == c);
    assert((seq![','] + (second + tail))[0] == ',');
    lemma_place_read(editor, from, seq![','] + (second + tail));
    lemma_place_read(editor, to, tail);
    lemma_named(Some((from.line(editor), to.line(editor))), c, args);
    lemma_first_typed(from);
    lemma_both_read(
        editor,
        first,
        from.line(editor),
        second,
        to.line(editor),
        tail,
    );
}

/// A command of one letter for the lines from one place to another.
pub(crate) proof fn lemma_letter_command_for(
    editor: EditorView,
    from: Place,
    to: Place,
    c: char,
    args: Seq<char>,
)
    requires
        0 <= editor.doc.row < editor.doc.lines.len() <= isize::MAX,
        from.exists_in(editor),
        to.exists_in(editor),
        from.line(editor) <= to.line(editor),
        is_letter(c),
        args.len() > 0 ==> !is_letter(args[0]) && !is_white(args[0]) && !is_white(args.last())
            && args.last() != '!' && args[0] != '!',
    ensures
        editor.ex_executed(typed_for(from, to, seq![c] + args)) == quieted(editor).ex_named(
            asked_for(
                editor,
                Some((from.line(editor), to.line(editor))),
                seq![c],
                args,
                typed_for(from, to, seq![c] + args),
            ),
        ),
{
    let tail = seq![c] + args;
    let command = typed_for(from, to, tail);
    lemma_range_read(editor, from, to, c, args);
    lemma_first_typed(from);
    assert(command[0] == from.typed()[0]);
    assert(command.last() == tail.last());
    if args.len() > 0 {
        assert(tail.last() == args.last());
    }
    lemma_taken_apart(
        editor,
        command,
        Some((from.line(editor), to.line(editor))),
        seq![c],
        args,
    );
}

pub(crate) proof fn lemma_first_typed(place: Place)
    ensures
        place.typed().len() > 0,
        place.typed()[0] != ':' && place.typed()[0] != '%' && !is_white(place.typed()[0]),
{
    match place {
        Place::Number(number) => {
            lemma_decimal_digits(number);
            assert(place.typed()[0] == decimal_bytes(number)[0] as char);
        },
        _ => {},
    }
}

/// A place and `=` tell the number of the line, counted from 1, wherever the
/// cursor is.
pub proof fn lemma_number_is_told(editor: EditorView, place: Place)
    requires
        0 <= editor.doc.row < editor.doc.lines.len() <= isize::MAX,
        place.exists_in(editor),
    ensures
        ({
            let after = editor.ex_executed(place.typed() + seq!['=']);
            &&& after.message.text == decimal(place.line(editor) + 1)
            &&& !after.message.highlighted
            &&& after.doc.lines == editor.doc.lines
            &&& after.doc.row == editor.doc.row
            &&& after.doc.col == editor.doc.col
        }),
{
    let rest = seq!['='];
    let command = place.typed() + rest;
    let line = place.line(editor);
    lemma_place_read(editor, place, rest);
    assert(text_behind(command, place.typed().len() as int) =~= rest);
    lemma_letters_end(rest, 0, 0);
    lemma_nothing_to_trim(rest);
    assert(rest.subrange(0, 0) =~= Seq::<char>::empty());
    assert(text_behind(rest, 0) =~= rest);
    lemma_first_typed(place);
    assert(command[0] == place.typed()[0]);
    assert(command.last() == '=');
    lemma_taken_apart(editor, command, Some((line, line)), Seq::empty(), rest);
    reveal_strlit("wq");
    reveal_strlit("x");
    reveal_strlit("wn");
    reveal_strlit("=");
    assert(rest =~= "="@);
    reveal(EditorView::ex_number);
    assert(!zero_number(command)) by {
        assert(trim_start(command) == command);
        match place {
            Place::Number(number) => {
                lemma_decimal_digits(number);
                assert(command[0] == decimal_bytes(number)[0] as char);
            },
            _ => {},
        }
    }
}

/// A place alone leads to its line. The column stays, as far as that line
/// reaches.
pub proof fn lemma_place_leads_to_line(editor: EditorView, place: Place)
    requires
        editor.wf(),
        editor.doc.lines.len() <= isize::MAX,
        place.exists_in(editor),
    ensures
        ({
            let after = editor.ex_executed(place.typed());
            let line = editor.doc.lines[place.line(editor)];
            &&& after.doc.lines == editor.doc.lines
            &&& after.doc.row == place.line(editor)
            &&& after.doc.col == (if editor.doc.col < line.len() {
                editor.doc.col
            } else if line.len() > 0 {
                line.len() - 1
            } else {
                0
            })
        }),
{
    let rest = Seq::<char>::empty();
    let command = place.typed() + rest;
    let line = place.line(editor);
    assert(command =~= place.typed());
    lemma_place_read(editor, place, rest);
    assert(text_behind(command, place.typed().len() as int) =~= rest);
    lemma_letters_end(rest, 0, 0);
    lemma_nothing_to_trim(rest);
    assert(rest.subrange(0, 0) =~= rest);
    assert(text_behind(rest, 0) =~= rest);
    lemma_first_typed(place);
    lemma_last_typed(place);
    lemma_taken_apart(editor, command, Some((line, line)), rest, rest);
    reveal_strlit("wq");
    reveal_strlit("x");
    reveal_strlit("wn");
    reveal_strlit("=");
    reveal(EditorView::ex_goto);
}

proof fn lemma_last_typed(place: Place)
    requires
        place matches Place::Mark(name) ==> 'a' <= name <= 'z',
    ensures
        !is_white(place.typed().last()),
        place.typed().last() != '!',
{
    match place {
        Place::Number(number) => {
            lemma_decimal_digits(number);
            assert(place.typed().last() == decimal_bytes(number).last() as char);
        },
        Place::Below(number) => {
            lemma_decimal_digits(number);
            assert(place.typed().last() == decimal_bytes(number).last() as char);
        },
        Place::Above(number) => {
            lemma_decimal_digits(number);
            assert(place.typed().last() == decimal_bytes(number).last() as char);
        },
        _ => {},
    }
}

/// `d` for the lines from one place to another deletes just these lines, which
/// can be put back then. Where they are all there are, an empty one is left.
pub proof fn lemma_delete_deletes_lines(editor: EditorView, from: Place, to: Place)
    requires
        editor.wf(),
        editor.doc.lines.len() <= isize::MAX,
        from.exists_in(editor),
        to.exists_in(editor),
        from.line(editor) <= to.line(editor),
    ensures
        ({
            let after = editor.ex_executed(typed_for(from, to, seq!['d']));
            let lines = editor.doc.lines;
            let first = from.line(editor);
            let last = to.line(editor);
            let left = lines.subrange(0, first) + lines.subrange(last + 1, lines.len() as int);
            &&& after.doc.lines == (if left.len() == 0 {
                seq![Seq::<u8>::empty()]
            } else {
                left
            })
            &&& after.registers.yank.lines == lines.subrange(first, last + 1)
            &&& after.registers.yank.linewise
        }),
{
    let none = Seq::<char>::empty();
    assert(seq!['d'] + none =~= seq!['d']);
    lemma_letter_command_for(editor, from, to, 'd', none);
    lemma_letter_names('d');
    reveal(EditorView::ex_named_more);
    reveal(EditorView::ex_delete);
    let lines = editor.doc.lines;
    let first = from.line(editor);
    let last = to.line(editor);
    let removed = lines.subrange(first, last + 1);
    assert(removed.len() > 0);
    let left = lines.subrange(0, first) + lines.subrange(last + 1, lines.len() as int);
    if left.len() == 0 {
        let empty = seq![Seq::<u8>::empty()];
        assert(crate::bytes::splice(lines, first, last + 1, empty) =~= empty);
        if removed == empty {
            assert(lines =~= removed);
        }
    } else {
        assert(crate::bytes::splice(lines, first, last + 1, Seq::empty()) =~= left);
    }
}

/// `y` for the lines from one place to another yanks just these lines, and
/// leaves the text and the cursor alone.
pub proof fn lemma_yank_yanks_lines(editor: EditorView, from: Place, to: Place)
    requires
        editor.wf(),
        editor.doc.lines.len() <= isize::MAX,
        from.exists_in(editor),
        to.exists_in(editor),
        from.line(editor) <= to.line(editor),
    ensures
        ({
            let after = editor.ex_executed(typed_for(from, to, seq!['y']));
            let lines = editor.doc.lines;
            &&& after.registers.yank.lines == lines.subrange(
                from.line(editor),
                to.line(editor) + 1,
            )
            &&& after.registers.yank.linewise
            &&& after.doc.lines == lines
            &&& after.doc.row == editor.doc.row
            &&& after.doc.col == editor.doc.col
        }),
{
    let none = Seq::<char>::empty();
    assert(seq!['y'] + none =~= seq!['y']);
    lemma_letter_command_for(editor, from, to, 'y', none);
    lemma_letter_names('y');
    reveal(EditorView::ex_named_more);
    reveal(EditorView::ex_yank);
}

} // verus!
