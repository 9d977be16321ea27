//! What the command line asks for, said of its arguments.
use crate::run::{arguments_from, invoked, ArgumentsView, InvocationView};
use crate::strings::starts_with;
use vstd::prelude::*;
use vstd::string::*;

verus! {

/// Whether an argument names a file: it does not begin with a dash.
pub open spec fn names_file(argument: Seq<char>) -> bool {
    argument.len() == 0 || argument[0] != '-'
}

proof fn lemma_no_option(argument: Seq<char>)
    requires
        names_file(argument),
    ensures
        argument != "-R"@,
        argument != "-H"@,
        argument != "-h"@,
        argument != "--help"@,
        argument != "-c"@,
        !starts_with(argument, seq!['-', 'c']),
        !starts_with(argument, seq!['-']),
{
    reveal_strlit("-R");
    reveal_strlit("-H");
    reveal_strlit("-h");
    reveal_strlit("--help");
    reveal_strlit("-c");
    assert("-R"@[0] == '-' && "-H"@[0] == '-' && "-h"@[0] == '-' && "--help"@[0] == '-' && "-c"@[0]
        == '-');
    assert("-R"@.len() == 2 && "-H"@.len() == 2 && "-h"@.len() == 2 && "--help"@.len() == 6
        && "-c"@.len() == 2);
    if argument.len() > 0 {
        assert(argument.subrange(0, 1)[0] == argument[0]);
        if argument.len() > 1 {
            assert(argument.subrange(0, 2)[0] == argument[0]);
        }
        assert(seq!['-', 'c'][0] == '-' && seq!['-'][0] == '-');
    }
}

proof fn lemma_files_read(arguments: Seq<Seq<char>>, at: int, before: ArgumentsView)
    requires
        0 <= at <= arguments.len(),
        forall|i: int| at <= i < arguments.len() ==> names_file(#[trigger] arguments[i]),
    ensures
        arguments_from(arguments, at, before) == Ok::<ArgumentsView, Seq<char>>(
            ArgumentsView {
                files: before.files + arguments.subrange(at, arguments.len() as int),
                ..before
            },
        ),
    decreases arguments.len() - at,
{
    if at < arguments.len() {
        lemma_no_option(arguments[at]);
        let more = ArgumentsView { files: before.files.push(arguments[at]), ..before };
        lemma_files_read(arguments, at + 1, more);
        assert(before.files.push(arguments[at]) + arguments.subrange(
            at + 1,
            arguments.len() as int,
        ) =~= before.files + arguments.subrange(at, arguments.len() as int));
    } else {
        assert(before.files + arguments.subrange(at, at) =~= before.files);
    }
}

/// Names of files are edited in their order, and may be written. Where none is
/// given, there is one text without a name.
pub proof fn lemma_files_are_edited(files: Seq<Seq<char>>)
    requires
        forall|i: int| 0 <= i < files.len() ==> names_file(#[trigger] files[i]),
    ensures
        invoked(files) == (InvocationView::Edit {
            readonly: false,
            commands: Seq::empty(),
            files: if files.len() == 0 {
                seq![Seq::empty()]
            } else {
                files
            },
        }),
{
    lemma_files_read(files, 0, ArgumentsView::none());
    assert(Seq::<Seq<char>>::empty() + files.subrange(0, files.len() as int) =~= files);
}

/// `-R` in front of the names of files has them edited and not written.
pub proof fn lemma_files_are_kept(files: Seq<Seq<char>>)
    requires
        files.len() > 0,
        forall|i: int| 0 <= i < files.len() ==> names_file(#[trigger] files[i]),
    ensures
        invoked(seq!["-R"@] + files) == (InvocationView::Edit {
            readonly: true,
            commands: Seq::empty(),
            files,
        }),
{
    let all = seq!["-R"@] + files;
    let none = ArgumentsView::none();
    assert(all[0] == "-R"@);
    assert forall|i: int| 1 <= i < all.len() implies names_file(#[trigger] all[i]) by {
        assert(all[i] == files[i - 1]);
    }
    lemma_files_read(all, 1, ArgumentsView { readonly: true, ..none });
    assert(none.files + all.subrange(1, all.len() as int) =~= files);
}

/// `-c` and a command in front of the names of files has the command carried
/// out, also where there is no space between the two.
pub proof fn lemma_command_is_carried_out(command: Seq<char>, files: Seq<Seq<char>>)
    requires
        files.len() > 0,
        command.len() > 0,
        forall|i: int| 0 <= i < files.len() ==> names_file(#[trigger] files[i]),
    ensures
        invoked(seq!["-c"@, command] + files) == (InvocationView::Edit {
            readonly: false,
            commands: seq![command],
            files,
        }),
        invoked(seq!["-c"@ + command] + files) == (InvocationView::Edit {
            readonly: false,
            commands: seq![command],
            files,
        }),
{
    reveal_strlit("-R");
    reveal_strlit("-H");
    reveal_strlit("-h");
    reveal_strlit("--help");
    reveal_strlit("-c");
    assert("-R"@[1] == 'R' && "-H"@[1] == 'H' && "-h"@[1] == 'h' && "--help"@[1] == '-' && "-c"@[1]
        == 'c' && "-c"@[0] == '-');
    assert("-R"@.len() == 2 && "-H"@.len() == 2 && "-h"@.len() == 2 && "--help"@.len() == 6
        && "-c"@.len() == 2);
    let none = ArgumentsView::none();
    let with = ArgumentsView { commands: none.commands.push(command), ..none };
    assert(none.commands.push(command) =~= seq![command]);
    let apart = seq!["-c"@, command] + files;
    assert(apart[0] == "-c"@ && apart[1] == command);
    assert forall|i: int| 2 <= i < apart.len() implies names_file(#[trigger] apart[i]) by {
        assert(apart[i] == files[i - 2]);
    }
    lemma_files_read(apart, 2, with);
    assert(none.files + apart.subrange(2, apart.len() as int) =~= files);
    assert(arguments_from(apart, 0, none) == arguments_from(apart, 2, with));
    let word = "-c"@ + command;
    let joined = seq![word] + files;
    assert(joined[0] == word);
    assert(word[0] == '-' && word[1] == 'c' && word.len() > 2);
    assert(word.subrange(0, 2) =~= seq!['-', 'c']);
    assert(word.subrange(2, word.len() as int) =~= command);
    assert forall|i: int| 1 <= i < joined.len() implies names_file(#[trigger] joined[i]) by {
        assert(joined[i] == files[i - 1]);
    }
    lemma_files_read(joined, 1, with);
    assert(none.files + joined.subrange(1, joined.len() as int) =~= files);
    assert(arguments_from(joined, 0, none) == arguments_from(joined, 1, with));
}

/// Another argument with a dash is refused with a message that quotes it, and
/// so is `-c` without a command.
pub proof fn lemma_unknown_option_is_refused(argument: Seq<char>, rest: Seq<Seq<char>>)
    requires
        argument.len() > 1,
        argument[0] == '-',
        argument[1] != 'R' && argument[1] != 'H' && argument[1] != 'h' && argument[1] != 'c'
            && argument[1] != '-',
    ensures
        invoked(seq![argument] + rest) == (InvocationView::Refuse {
            message: "vi: unknown option: "@ + argument,
        }),
        invoked(seq!["-c"@]) == (InvocationView::Refuse {
            message: "vi: option requires an argument -- c"@,
        }),
{
    reveal_strlit("-R");
    reveal_strlit("-H");
    reveal_strlit("-h");
    reveal_strlit("--help");
    reveal_strlit("-c");
    assert("-R"@[1] == 'R' && "-H"@[1] == 'H' && "-h"@[1] == 'h' && "--help"@[1] == '-' && "-c"@[1]
        == 'c' && "-c"@[0] == '-');
    let all = seq![argument] + rest;
    assert(all[0] == argument);
    assert(argument.subrange(0, 1) =~= seq!['-']);
    assert(argument.subrange(0, 2)[1] == argument[1]);
    assert(seq!['-', 'c'][1] == 'c');
    let alone = seq!["-c"@];
    assert(alone[0] == "-c"@);
}

/// `-h` and `--help` ask for help and end well; `-H` asks for help too and
/// does not.
pub proof fn lemma_help_is_given()
    ensures
        invoked(seq!["-h"@]) == (InvocationView::Help { code: 0 }),
        invoked(seq!["--help"@]) == (InvocationView::Help { code: 0 }),
        invoked(seq!["-H"@]) == (InvocationView::Help { code: 1 }),
{
    reveal_strlit("-R");
    reveal_strlit("-H");
    reveal_strlit("-h");
    reveal_strlit("--help");
    assert("-R"@[1] == 'R' && "-H"@[1] == 'H' && "-h"@[1] == 'h' && "--help"@[1] == '-');
    reveal_with_fuel(arguments_from, 2);
    let short = seq!["-h"@];
    let long = seq!["--help"@];
    let other = seq!["-H"@];
    assert(crate::run::asks_for_help(short[0]));
    assert(crate::run::asks_for_help(long[0]));
    assert(!crate::run::asks_for_help(other[0])) by {
        assert("-H"@.len() == 2 && "--help"@.len() == 6);
    }
}

} // verus!
