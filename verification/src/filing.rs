//! What the commands about files ask for, said of the commands as they are
//! typed.
use crate::address::{names, zero_read};
use crate::colon::{lemma_letter_command_for, lemma_letter_names, typed_for, Place};
use crate::editor::EditorView;
use crate::excmd::lines_to_add;
use crate::files::{
    expanded, expanded_from, name_or_empty, AfterWrite, GuardView, ReadReply, RequestView,
};
use crate::setting::lemma_word_command;
use crate::strings::is_white;
use crate::text::{lemma_lines_of_serialize, newline_free, serialize, split_newlines, NEWLINE};
use vstd::prelude::*;

verus! {

/// Whether a name means itself in a command: it has no white space and no
/// exclamation mark at its ends, and no `%`, `#` or backslash in it.
pub open spec fn plain_name(name: Seq<char>) -> bool {
    &&& name.len() > 0
    &&& !is_white(name[0]) && !is_white(name.last())
    &&& name[0] != '!' && name.last() != '!'
    &&& forall|i: int|
        0 <= i < name.len() ==> #[trigger] name[i] != '%' && name[i] != '#' && name[i] != '\\'
}

proof fn lemma_rest_expanded(name: Seq<char>, at: int, current: Seq<char>, alternate: Seq<char>)
    requires
        0 <= at <= name.len(),
        forall|i: int|
            0 <= i < name.len() ==> #[trigger] name[i] != '%' && name[i] != '#' && name[i] != '\\',
    ensures
        expanded_from(name, at, current, alternate) == Some(
            name.subrange(at, name.len() as int),
        ),
    decreases name.len() - at,
{
    if at < name.len() {
        lemma_rest_expanded(name, at + 1, current, alternate);
        assert(name[at] != '%' && name[at] != '#' && name[at] != '\\');
        assert(seq![name[at]] + name.subrange(at + 1, name.len() as int) =~= name.subrange(
            at,
            name.len() as int,
        ));
    } else {
        assert(name.subrange(at, at) =~= Seq::<char>::empty());
    }
}

/// A plain name stands for itself.
pub proof fn lemma_plain_name_stays(
    name: Seq<char>,
    filename: Option<Seq<char>>,
    alternate: Option<Seq<char>>,
)
    requires
        plain_name(name),
    ensures
        expanded(name, filename, alternate) == Some(name),
{
    lemma_rest_expanded(name, 0, name_or_empty(filename), name_or_empty(alternate));
    assert(name.subrange(0, name.len() as int) =~= name);
}

proof fn lemma_expanded_step(
    front: Seq<char>,
    rest: Seq<char>,
    at: int,
    current: Seq<char>,
    alternate: Seq<char>,
    tail: Seq<char>,
)
    requires
        0 <= at <= front.len(),
        forall|i: int|
            0 <= i < front.len() ==> #[trigger] front[i] != '%' && front[i] != '#' && front[i]
                != '\\',
        expanded_from(front + rest, front.len() as int, current, alternate) == Some(tail),
    ensures
        expanded_from(front + rest, at, current, alternate) == Some(
            front.subrange(at, front.len() as int) + tail,
        ),
    decreases front.len() - at,
{
    let whole = front + rest;
    if at < front.len() {
        lemma_expanded_step(front, rest, at + 1, current, alternate, tail);
        assert(whole[at] == front[at]);
        assert(front[at] != '%' && front[at] != '#' && front[at] != '\\');
        assert(seq![front[at]] + (front.subrange(at + 1, front.len() as int) + tail)
            =~= front.subrange(at, front.len() as int) + tail);
    } else {
        assert(front.subrange(at, at) + tail =~= tail);
    }
}

/// In a name, `%` stands for the name of the file that is edited and `#` for
/// the one before it. With a backslash in front, each is itself.
pub proof fn lemma_names_stand_for_files(
    front: Seq<char>,
    back: Seq<char>,
    filename: Seq<char>,
    alternate: Seq<char>,
)
    requires
        forall|i: int|
            0 <= i < front.len() ==> #[trigger] front[i] != '%' && front[i] != '#' && front[i]
                != '\\',
        forall|i: int|
            0 <= i < back.len() ==> #[trigger] back[i] != '%' && back[i] != '#' && back[i]
                != '\\',
        filename.len() > 0,
        alternate.len() > 0,
    ensures
        expanded(front + (seq!['%'] + back), Some(filename), Some(alternate)) == Some(
            front + (filename + back),
        ),
        expanded(front + (seq!['#'] + back), Some(filename), Some(alternate)) == Some(
            front + (alternate + back),
        ),
        expanded(front + (seq!['\\', '%'] + back), Some(filename), Some(alternate)) == Some(
            front + (seq!['%'] + back),
        ),
        expanded(front + (seq!['\\', '#'] + back), Some(filename), Some(alternate)) == Some(
            front + (seq!['#'] + back),
        ),
        expanded(front + (seq!['%'] + back), None, Some(alternate)) is None,
        expanded(front + (seq!['#'] + back), Some(filename), None) is None,
{
    lemma_one_sign(front, '%', false, back, filename, alternate, filename);
    lemma_one_sign(front, '#', false, back, filename, alternate, alternate);
    lemma_one_sign(front, '%', true, back, filename, alternate, seq!['%']);
    lemma_one_sign(front, '#', true, back, filename, alternate, seq!['#']);
    lemma_no_name(front, '%', back, Seq::empty(), alternate, 0);
    lemma_no_name(front, '#', back, filename, Seq::empty(), 0);
}

proof fn lemma_no_name(
    front: Seq<char>,
    sign: char,
    back: Seq<char>,
    current: Seq<char>,
    alternate: Seq<char>,
    at: int,
)
    requires
        0 <= at <= front.len(),
        forall|i: int|
            0 <= i < front.len() ==> #[trigger] front[i] != '%' && front[i] != '#' && front[i]
                != '\\',
        sign == '%' && current.len() == 0 || sign == '#' && alternate.len() == 0,
    ensures
        expanded_from(front + (seq![sign] + back), at, current, alternate) is None,
    decreases front.len() - at,
{
    let whole = front + (seq![sign] + back);
    if at < front.len() {
        assert(whole[at] == front[at]);
        lemma_no_name(front, sign, back, current, alternate, at + 1);
    } else {
        assert(whole[at] == sign);
    }
}

proof fn lemma_one_sign(
    front: Seq<char>,
    sign: char,
    escaped: bool,
    back: Seq<char>,
    current: Seq<char>,
    alternate: Seq<char>,
    meant: Seq<char>,
)
    requires
        forall|i: int|
            0 <= i < front.len() ==> #[trigger] front[i] != '%' && front[i] != '#' && front[i]
                != '\\',
        forall|i: int|
            0 <= i < back.len() ==> #[trigger] back[i] != '%' && back[i] != '#' && back[i]
                != '\\',
        sign == '%' || sign == '#',
        meant.len() > 0,
        meant == (if escaped {
            seq![sign]
        } else if sign == '%' {
            current
        } else {
            alternate
        }),
    ensures
        ({
            let typed = if escaped {
                seq!['\\', sign]
            } else {
                seq![sign]
            };
            expanded_from(front + (typed + back), 0, current, alternate) == Some(
                front + (meant + back),
            )
        }),
{
    let typed = if escaped {
        seq!['\\', sign]
    } else {
        seq![sign]
    };
    let rest = typed + back;
    let whole = front + rest;
    let at = front.len() as int;
    let behind = at + typed.len();
    lemma_back_expanded(front + typed, back, 0, current, alternate);
    assert((front + typed) + back =~= whole);
    assert(back.subrange(0, back.len() as int) =~= back);
    assert(whole[at] == typed[0]);
    if escaped {
        assert(whole[at + 1] == sign);
    }
    assert(expanded_from(whole, at, current, alternate) == Some(meant + back));
    lemma_expanded_step(front, rest, 0, current, alternate, meant + back);
    assert(front.subrange(0, front.len() as int) =~= front);
}

proof fn lemma_back_expanded(
    before: Seq<char>,
    back: Seq<char>,
    at: int,
    current: Seq<char>,
    alternate: Seq<char>,
)
    requires
        0 <= at <= back.len(),
        forall|i: int|
            0 <= i < back.len() ==> #[trigger] back[i] != '%' && back[i] != '#' && back[i]
                != '\\',
    ensures
        expanded_from(before + back, before.len() + at, current, alternate) == Some(
            back.subrange(at, back.len() as int),
        ),
    decreases back.len() - at,
{
    let whole = before + back;
    if at < back.len() {
        lemma_back_expanded(before, back, at + 1, current, alternate);
        assert(whole[before.len() + at] == back[at]);
        assert(seq![back[at]] + back.subrange(at + 1, back.len() as int) =~= back.subrange(
            at,
            back.len() as int,
        ));
    } else {
        assert(back.subrange(at, at) =~= Seq::<char>::empty());
    }
}

/// A text with one more line is written out as before, and then that line and
/// a newline.
pub proof fn lemma_lines_written_in_order(lines: Seq<Seq<u8>>, line: Seq<u8>)
    ensures
        serialize(lines.push(line), true) == serialize(lines, true) + line + seq![10u8],
        serialize(lines.push(line), false) == serialize(lines, true) + line,
        serialize(Seq::<Seq<u8>>::empty(), true) == Seq::<u8>::empty(),
{
    let more = lines.push(line);
    assert(more.drop_last() =~= lines);
    assert(more.last() == line);
    if lines.len() == 0 {
        assert(serialize(lines, true) + line =~= line);
    }
    assert(serialize(more, true) =~= serialize(lines, true) + line + seq![10u8]);
}

/// Two places and `w` ask for the lines from the one to the other to be
/// written to the file that is edited, each with its newline, and nothing else.
pub proof fn lemma_lines_are_written(editor: EditorView, from: Place, to: Place, file: Seq<char>)
    requires
        editor.wf(),
        editor.doc.lines.len() <= isize::MAX,
        from.exists_in(editor),
        to.exists_in(editor),
        from.line(editor) <= to.line(editor),
        editor.files.filename == Some(file),
        !editor.files.readonly,
    ensures
        ({
            let after = editor.ex_executed(typed_for(from, to, seq!['w']));
            &&& after.files.request == Some(
                RequestView::Write {
                    path: file,
                    data: serialize(
                        editor.doc.lines.subrange(from.line(editor), to.line(editor) + 1),
                        true,
                    ),
                    guard: GuardView::Overwrite,
                    ranged: true,
                    after: AfterWrite::Stay,
                },
            )
            &&& after.doc == editor.doc
        }),
{
    let none = Seq::<char>::empty();
    assert(seq!['w'] + none =~= seq!['w']);
    lemma_letter_command_for(editor, from, to, 'w', none);
    lemma_letter_names('w');
    reveal(EditorView::ex_write);
    reveal(EditorView::named_file);
}

/// `w` and a plain name ask for the whole text to be written to the file of
/// that name, unless there is one that is not the file that is edited.
pub proof fn lemma_text_is_written(editor: EditorView, name: Seq<char>)
    requires
        plain_name(name),
    ensures
        ({
            let after = editor.ex_executed(seq!['w'] + seq![' '] + name);
            &&& after.files.request == Some(
                RequestView::Write {
                    path: name,
                    data: serialize(editor.doc.lines, editor.doc.trailing),
                    guard: GuardView::Refuse { except: editor.files.filename },
                    ranged: false,
                    after: AfterWrite::Stay,
                },
            )
            &&& after.doc == editor.doc
        }),
{
    lemma_word_command(editor, seq!['w'], name);
    lemma_letter_names('w');
    reveal(EditorView::ex_write);
    reveal(EditorView::named_file);
    lemma_plain_name_stays(name, editor.files.filename, editor.files.alternate);
}

/// `e` and a plain name ask for that file to be loaded where nothing is
/// unwritten, and the name of the file that was edited is kept as the one
/// before it. Where something is unwritten, nothing is asked for.
pub proof fn lemma_file_is_edited(editor: EditorView, name: Seq<char>)
    requires
        plain_name(name),
        editor.files.request is None,
        editor.doc.pending is None,
    ensures
        ({
            let after = editor.ex_executed(seq!['e'] + seq![' '] + name);
            &&& after.doc == editor.doc
            &&& if editor.doc.modified {
                &&& after.files == editor.files
                &&& after.message.highlighted
            } else {
                &&& after.files.request == Some(RequestView::Load { path: name, tell: true })
                &&& after.files.filename == Some(name)
                &&& after.files.alternate == editor.files.filename
            }
        }),
{
    lemma_word_command(editor, seq!['e'], name);
    lemma_letter_names('e');
    reveal(EditorView::ex_edit);
    lemma_plain_name_stays(name, editor.files.filename, editor.files.filename);
}

/// `f` and a plain name give the text that name, and keep the name that it had
/// as the one before it.
pub proof fn lemma_file_is_renamed(editor: EditorView, name: Seq<char>)
    requires
        plain_name(name),
        editor.doc.pending is None,
    ensures
        ({
            let after = editor.ex_executed(seq!['f'] + seq![' '] + name);
            &&& after.doc == editor.doc
            &&& after.files.filename == Some(name)
            &&& after.files.alternate == editor.files.filename
            &&& after.files.request == editor.files.request
            &&& after.files.quit == editor.files.quit
        }),
{
    lemma_word_command(editor, seq!['f'], name);
    lemma_letter_names('f');
    assert(seq!['f'].len() == 1);
    reveal(EditorView::ex_file);
    lemma_plain_name_stays(name, editor.files.filename, editor.files.filename);
}

/// Once a file is asked for to be read in, the answer puts its lines into the
/// text at the place that was asked for, in order, and leaves the other lines
/// alone.
pub proof fn lemma_lines_are_read_in(
    editor: EditorView,
    path: Seq<char>,
    at: int,
    added: Seq<Seq<u8>>,
    data: Vec<u8>,
)
    requires
        editor.files.request == Some(RequestView::Read { path, at }),
        editor.input.replay is None,
        0 <= at <= editor.doc.lines.len(),
        added.len() > 0,
        newline_free(added),
        data@ == serialize(added, true),
    ensures
        ({
            let after = editor.read_replied(ReadReply::Data(data));
            let lines = editor.doc.lines;
            &&& after.doc.lines == lines.subrange(0, at) + added + lines.subrange(
                at,
                lines.len() as int,
            )
            &&& after.files.request is None
        }),
{
    lemma_lines_of_serialize(added, true);
    let pieces = split_newlines(data@);
    assert(data@.last() == NEWLINE);
    assert(pieces.last().len() == 0);
    assert(lines_to_add(data@) == added);
    reveal(EditorView::read_done);
    reveal(EditorView::settled);
    let lines = editor.doc.lines;
    assert(lines.subrange(at, at) =~= Seq::<Seq<u8>>::empty());
}

/// `read` and a plain name ask for the lines of that file to be put behind the
/// line of the cursor, and keep the name of the file that was edited as the one
/// before it.
pub proof fn lemma_file_is_asked_in(editor: EditorView, name: Seq<char>)
    requires
        plain_name(name),
    ensures
        ({
            let after = editor.ex_executed(seq!['r', 'e', 'a', 'd'] + seq![' '] + name);
            &&& after.doc == editor.doc
            &&& after.files.request == Some(
                RequestView::Read { path: name, at: editor.doc.row + 1 },
            )
            &&& after.files.filename == Some(name)
            &&& after.files.alternate == editor.files.filename
        }),
{
    let word = seq!['r', 'e', 'a', 'd'];
    let command = word + seq![' '] + name;
    lemma_word_command(editor, word, name);
    lemma_read_named();
    reveal(EditorView::ex_named_more);
    reveal(EditorView::ex_read);
    reveal(EditorView::read_place);
    reveal(EditorView::named_file);
    lemma_plain_name_stays(name, editor.files.filename, editor.files.alternate);
    assert(command[0] == 'r');
    assert(crate::strings::trim_start(command) == command);
    assert(!zero_read(command));
}

proof fn lemma_read_named()
    ensures
        ({
            let word = seq!['r', 'e', 'a', 'd'];
            &&& !names(word, "quit"@) && !names(word, "next"@) && !names(word, "prev"@)
            &&& !names(word, "rewind"@) && !names(word, "write"@) && !names(word, "edit"@)
            &&& !names(word, "set"@) && !names(word, "file"@) && !names(word, "version"@)
            &&& !names(word, "features"@) && !names(word, "list"@) && !names(word, "delete"@)
            &&& !names(word, "yank"@) && names(word, "read"@)
            &&& word != "wq"@ && word != "x"@ && word != "wn"@
        }),
{
    let word = seq!['r', 'e', 'a', 'd'];
    reveal_strlit("quit");
    reveal_strlit("next");
    reveal_strlit("prev");
    reveal_strlit("rewind");
    reveal_strlit("write");
    reveal_strlit("edit");
    reveal_strlit("set");
    reveal_strlit("file");
    reveal_strlit("version");
    reveal_strlit("features");
    reveal_strlit("list");
    reveal_strlit("delete");
    reveal_strlit("yank");
    reveal_strlit("read");
    reveal_strlit("wq");
    reveal_strlit("x");
    reveal_strlit("wn");
    assert(word[0] == 'r' && word[2] == 'a' && word.len() == 4);
    assert("quit"@.subrange(0, 4)[0] == 'q');
    assert("next"@.subrange(0, 4)[0] == 'n');
    assert("prev"@.subrange(0, 4)[0] == 'p');
    assert("rewind"@.subrange(0, 4)[2] == 'w');
    assert("write"@.subrange(0, 4)[0] == 'w');
    assert("edit"@.subrange(0, 4)[0] == 'e');
    assert("file"@.subrange(0, 4)[0] == 'f');
    assert("version"@.subrange(0, 4)[0] == 'v');
    assert("features"@.subrange(0, 4)[0] == 'f');
    assert("list"@.subrange(0, 4)[0] == 'l');
    assert("delete"@.subrange(0, 4)[0] == 'd');
    assert("yank"@.subrange(0, 4)[0] == 'y');
    assert("read"@.subrange(0, 4) =~= word);
    assert("set"@.len() == 3 && "wq"@.len() == 2 && "x"@.len() == 1 && "wn"@.len() == 2);
}

} // verus!
