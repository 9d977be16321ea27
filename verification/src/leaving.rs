//! What ends the editing of a file, and what begins it, said of the commands as
//! they are typed.
use crate::address::{address_of, behind_space, is_letter, text_behind};
use crate::changes::{lemma_key_resumes, lemma_one_key, lemma_two_keys};
use crate::colon::{
    asked_for, lemma_letter_command, lemma_letter_names, lemma_letters_end, lemma_nothing_to_trim,
    lemma_taken_apart, quieted,
};
use crate::counting::{going, lemma_settled, lemma_uncounted};
use crate::editor::{Await, EditorView, InputView};
use crate::excmd::ExAsked;
use crate::files::{AfterWrite, GuardView, RequestView};
use crate::messages::literal_bytes;
use crate::run::{newline_from, startup_from};
use crate::strings::trim;
use crate::text::serialize;
use vstd::prelude::*;
use vstd::string::*;

verus! {

/// A letter and an exclamation mark force the command of that letter.
proof fn lemma_forced_letter(editor: EditorView, c: char)
    requires
        is_letter(c),
    ensures
        editor.ex_executed(seq![c, '!']) == quieted(editor).ex_named(
            ExAsked {
                force: true,
                ..asked_for(editor, None, seq![c], Seq::empty(), seq![c])
            },
        ),
{
    let command = seq![c, '!'];
    let body = seq![c];
    let none = Seq::<char>::empty();
    lemma_nothing_to_trim(command);
    assert(crate::excmd::without_colons(command) == command);
    assert(command.last() == '!');
    assert(command.drop_last() =~= body);
    assert(body[0] == c);
    lemma_letters_end(body, 0, 1);
    lemma_nothing_to_trim(none);
    assert(body.subrange(0, 1) =~= body);
    assert(text_behind(body, 1) =~= none);
    assert(behind_space(body, 0) == 0);
    reveal(address_of);
    assert(InputView { search: editor.input.search, ..editor.input } == editor.input);
}

/// A command of several letters alone.
proof fn lemma_bare_command(editor: EditorView, name: Seq<char>)
    requires
        name.len() > 0,
        forall|i: int| 0 <= i < name.len() ==> is_letter(#[trigger] name[i]),
    ensures
        editor.ex_executed(name) == quieted(editor).ex_named(
            asked_for(editor, None, name, Seq::empty(), name),
        ),
{
    let none = Seq::<char>::empty();
    assert(is_letter(name[0]) && is_letter(name[name.len() - 1]));
    assert(name.last() == name[name.len() - 1]);
    lemma_letters_end(name, 0, name.len() as int);
    lemma_nothing_to_trim(none);
    assert(name.subrange(0, name.len() as int) =~= name);
    assert(text_behind(name, name.len() as int) =~= none);
    assert(behind_space(name, 0) == 0);
    reveal(address_of);
    lemma_taken_apart(editor, name, None, name, none);
}

/// `q` leaves the editor where nothing is unwritten and no file is left to
/// edit, and tells what is in the way elsewhere. `q!` leaves it at any price.
/// The text stays in both cases.
pub proof fn lemma_quit_command(editor: EditorView)
    requires
        editor.doc.pending is None,
        !editor.files.quit,
    ensures
        ({
            let asked = editor.ex_executed(seq!['q']);
            let forced = editor.ex_executed(seq!['q', '!']);
            &&& asked.doc == editor.doc
            &&& forced.doc == editor.doc
            &&& forced.files.quit
            &&& forced.files.force_quit
            &&& asked.files.quit == (!editor.doc.modified && editor.files.count
                <= editor.files.index + 1)
            &&& editor.doc.modified ==> asked.message.text
                == "No write since last change (:"@ + seq!['q'] + "! overrides)"@
            &&& !editor.doc.modified && editor.files.count > editor.files.index + 1
                ==> asked.message.text == crate::strings::decimal(
                editor.files.count - editor.files.index - 1,
            ) + " more file(s) to edit"@
        }),
{
    let none = Seq::<char>::empty();
    assert(seq!['q'] + none =~= seq!['q']);
    lemma_letter_command(editor, 'q', none);
    lemma_forced_letter(editor, 'q');
    lemma_letter_names('q');
    reveal(EditorView::ex_quit);
}

/// `n` goes on to the next file and `p` back to the one before, where there is
/// one and nothing is unwritten; elsewhere they tell so and nothing else
/// happens. `r` goes back to the first file.
pub proof fn lemma_other_files(editor: EditorView)
    requires
        editor.doc.pending is None,
        !editor.files.quit,
        0 <= editor.files.index < editor.files.count < usize::MAX,
        !editor.files.next_file,
        !editor.files.previous_file,
        !editor.files.rewind_files,
    ensures
        ({
            let next = editor.ex_executed(seq!['n']);
            let previous = editor.ex_executed(seq!['p']);
            let first = editor.ex_executed(seq!['r']);
            let index = editor.files.index;
            &&& next.doc == editor.doc && previous.doc == editor.doc && first.doc == editor.doc
            &&& next.files.quit == (!editor.doc.modified && index + 1 < editor.files.count)
            &&& next.files.quit ==> next.files.following(index) == Some(index + 1)
            &&& previous.files.quit == (!editor.doc.modified && index > 0)
            &&& previous.files.quit ==> previous.files.following(index) == Some(index - 1)
            &&& first.files.quit == !editor.doc.modified
            &&& first.files.quit ==> first.files.following(index) == Some(0int)
        }),
{
    let none = Seq::<char>::empty();
    assert(seq!['n'] + none =~= seq!['n']);
    assert(seq!['p'] + none =~= seq!['p']);
    assert(seq!['r'] + none =~= seq!['r']);
    lemma_letter_command(editor, 'n', none);
    lemma_letter_command(editor, 'p', none);
    lemma_letter_command(editor, 'r', none);
    lemma_letter_names('n');
    lemma_letter_names('p');
    lemma_letter_names('r');
    reveal(EditorView::ex_navigate);
}

/// `wq` asks for the whole text to be written to the file that is edited, and
/// to leave then.
pub proof fn lemma_write_and_quit(editor: EditorView, file: Seq<char>)
    requires
        editor.files.filename == Some(file),
        !editor.files.readonly,
    ensures
        ({
            let after = editor.ex_executed(seq!['w', 'q']);
            &&& after.doc == editor.doc
            &&& after.files.request == Some(
                RequestView::Write {
                    path: file,
                    data: serialize(editor.doc.lines, editor.doc.trailing),
                    guard: GuardView::Overwrite,
                    ranged: false,
                    after: AfterWrite::Quit { force: false },
                },
            )
        }),
{
    let name = seq!['w', 'q'];
    lemma_bare_command(editor, name);
    reveal_strlit("quit");
    reveal_strlit("next");
    reveal_strlit("prev");
    reveal_strlit("rewind");
    reveal_strlit("write");
    reveal_strlit("wq");
    assert("wq"@ =~= name);
    assert("quit"@.subrange(0, 2)[0] == 'q');
    assert("next"@.subrange(0, 2)[0] == 'n');
    assert("prev"@.subrange(0, 2)[0] == 'p');
    assert("rewind"@.subrange(0, 2)[0] == 'r');
    assert("write"@.subrange(0, 2)[1] == 'r');
    assert(name[0] == 'w' && name[1] == 'q');
    reveal(EditorView::ex_write);
    reveal(EditorView::named_file);
}

/// `ZQ` leaves the editor at any price. `ZZ` leaves it where nothing is
/// unwritten and no file is left to edit, and asks for the text to be written
/// first where something is.
pub proof fn lemma_closing_keys(editor: EditorView, file: Seq<char>)
    requires
        editor.at_rest(),
        editor.files.filename == Some(file),
        !editor.files.readonly,
    ensures
        ({
            let dropped = editor.after_keys(seq![90u8, 81]);
            let closed = editor.after_keys(seq![90u8, 90]);
            &&& dropped.files.quit && dropped.files.force_quit && dropped.doc == editor.doc
            &&& closed.doc == editor.doc
            &&& !editor.doc.modified ==> closed.files.request is None && closed.files.quit == (
            editor.files.count <= editor.files.index + 1)
            &&& editor.doc.modified ==> !closed.files.quit && closed.files.request == Some(
                RequestView::Write {
                    path: file,
                    data: serialize(editor.doc.lines, editor.doc.trailing),
                    guard: GuardView::Overwrite,
                    ranged: false,
                    after: AfterWrite::Close,
                },
            )
        }),
{
    lemma_close_key(editor, 81);
    lemma_close_key(editor, 90);
    reveal(EditorView::closed);
    reveal(EditorView::settled);
}

proof fn lemma_close_key(editor: EditorView, key: u8)
    requires
        editor.at_rest(),
        key == 81 || key == 90,
    ensures
        editor.after_keys(seq![90u8, key]) == going(editor).closed(key).settled(),
{
    let waiting = going(editor).awaiting(Await::Close);
    lemma_uncounted(editor, 90);
    lemma_one_key(editor, 90);
    lemma_settled(waiting);
    assert(editor.pressed(90) == waiting);
    lemma_two_keys(editor, 90, key);
    lemma_key_resumes(waiting, key);
    assert(waiting.resumed(key) == going(editor).closed(key)) by {
        reveal(EditorView::resumed);
        assert(waiting.awaiting(Await::Nothing) == going(editor));
    }
}

/// `l` shows the line of the cursor as `:list` shows bytes, with a dollar sign
/// at its end, and changes nothing.
pub proof fn lemma_line_is_listed(editor: EditorView)
    requires
        editor.wf(),
        editor.doc.pending is None,
    ensures
        ({
            let after = editor.ex_executed(seq!['l']);
            &&& after.doc == editor.doc
            &&& after.message.bytes == literal_bytes(editor.doc.line()).push(36)
        }),
{
    let none = Seq::<char>::empty();
    assert(seq!['l'] + none =~= seq!['l']);
    lemma_letter_command(editor, 'l', none);
    lemma_letter_names('l');
    reveal_strlit("set");
    reveal(EditorView::ex_named_more);
    reveal(EditorView::ex_list);
}

proof fn lemma_newline_found(text: Seq<char>, at: int, end: int)
    requires
        0 <= at <= end <= text.len(),
        forall|i: int| at <= i < end ==> #[trigger] text[i] != '\n',
        end < text.len() ==> text[end] == '\n',
    ensures
        newline_from(text, at) == end,
    decreases end - at,
{
    if at < end {
        lemma_newline_found(text, at + 1, end);
    }
}

proof fn lemma_newline_behind(front: Seq<char>, rest: Seq<char>, at: int)
    requires
        0 <= at <= rest.len(),
    ensures
        newline_from(front + rest, front.len() + at) == front.len() + newline_from(rest, at),
    decreases rest.len() - at,
{
    let whole = front + rest;
    if at < rest.len() {
        assert(whole[front.len() + at] == rest[at]);
        if rest[at] != '\n' {
            lemma_newline_behind(front, rest, at + 1);
        }
    }
}

proof fn lemma_commands_behind(front: Seq<char>, rest: Seq<char>, at: int)
    requires
        0 <= at <= rest.len() + 1,
    ensures
        startup_from(front + rest, front.len() + at) == startup_from(rest, at),
    decreases rest.len() + 1 - at,
{
    let whole = front + rest;
    if at <= rest.len() {
        crate::run::lemma_newline_from(rest, at);
        lemma_newline_behind(front, rest, at);
        let end = newline_from(rest, at);
        assert(whole.subrange(front.len() + at, front.len() + end) =~= rest.subrange(at, end));
        lemma_commands_behind(front, rest, end + 1);
    }
}

/// The commands of a start-up text are its lines, one after the other, without
/// the white space around them and without the empty ones.
pub proof fn lemma_commands_of_lines(line: Seq<char>, rest: Seq<char>)
    requires
        forall|i: int| 0 <= i < line.len() ==> #[trigger] line[i] != '\n',
    ensures
        startup_from(line + (seq!['\n'] + rest), 0) == (if trim(line).len() == 0 {
            Seq::<Seq<char>>::empty()
        } else {
            seq![trim(line)]
        }) + startup_from(rest, 0),
        startup_from(line, 0) == (if trim(line).len() == 0 {
            Seq::<Seq<char>>::empty()
        } else {
            seq![trim(line)]
        }),
{
    let front = line + seq!['\n'];
    let whole = line + (seq!['\n'] + rest);
    let size = line.len() as int;
    assert(whole =~= front + rest);
    assert forall|i: int| 0 <= i < size implies #[trigger] whole[i] != '\n' by {
        assert(whole[i] == line[i]);
    }
    assert(whole[size] == '\n');
    lemma_newline_found(whole, 0, size);
    assert(whole.subrange(0, size) =~= line);
    lemma_commands_behind(front, rest, 0);
    lemma_newline_found(line, 0, size);
    assert(line.subrange(0, size) =~= line);
    let none = Seq::<Seq<char>>::empty();
    assert(none + startup_from(rest, 0) =~= startup_from(rest, 0));
    assert(startup_from(line, size + 1) == none);
    assert(seq![trim(line)] + none =~= seq![trim(line)]);
}

/// The commands of a list are carried out one after the other, as long as none
/// of them leaves, waits for return or asks for a file.
pub proof fn lemma_commands_in_order(
    editor: EditorView,
    first: Seq<char>,
    second: Seq<char>,
)
    requires
        ({
            let after = editor.ex_executed(first);
            !after.files.quit && !after.message.hit_return && after.files.request is None
        }),
    ensures
        editor.commands_run(seq![first, second], 0).0 == editor.ex_executed(first).ex_executed(
            second,
        ),
        editor.commands_run(seq![first], 0).0 == editor.ex_executed(first),
{
    let all = seq![first, second];
    let after = editor.ex_executed(first);
    assert(all[0] == first && all[1] == second);
    reveal_with_fuel(EditorView::commands_run, 3);
    let one = seq![first];
    assert(one[0] == first);
}

} // verus!
