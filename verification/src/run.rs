//! Running the editor as a program: its arguments, the commands it starts
//! with, the files it goes through, and what the terminal is sent around it.
use crate::bytes::{fit, less, less_of, plus_of, push_all};
use crate::document::{told_of_edits, unedited};
use crate::editor::{Await, Editor, EditorView, PromptKind};
use crate::files::{name_of, Files, FilesView};
use crate::screen::{choose_size, chosen_size};
use crate::strings::{
    begins_with, chars_of, copy_str, decimal_bytes, decimal_bytes_of, decoded, same_text,
    starts_with, text_from, text_range, trim, trimmed, utf8_lossy, utf8_of_str,
};
use vstd::prelude::*;
use vstd::string::*;
use vstd::utf8::encode_utf8;

verus! {

broadcast use crate::syntax::group_noted;

/// What the program is to do.
#[derive(Debug)]
pub enum Invocation {
    /// Show the features and the usage, and end with this exit code.
    Help { code: i32 },
    /// Show a message, and end with the exit code 1.
    Refuse { message: String },
    /// Edit these files, one after the other, each after these commands.
    Edit { readonly: bool, commands: Vec<String>, files: Vec<String> },
}

/// What the program is to do, as a value.
#[verifier::ext_equal]
pub enum InvocationView {
    Help { code: i32 },
    Refuse { message: Seq<char> },
    Edit { readonly: bool, commands: Seq<Seq<char>>, files: Seq<Seq<char>> },
}

/// Texts as values.
pub open spec fn texts_of(texts: Seq<String>) -> Seq<Seq<char>> {
    Seq::new(texts.len(), |i: int| texts[i]@)
}

impl View for Invocation {
    type V = InvocationView;

    open spec fn view(&self) -> InvocationView {
        match *self {
            Invocation::Help { code } => InvocationView::Help { code },
            Invocation::Refuse { message } => InvocationView::Refuse { message: message@ },
            Invocation::Edit { readonly, commands, files } => InvocationView::Edit {
                readonly,
                commands: texts_of(commands@),
                files: texts_of(files@),
            },
        }
    }
}

/// The usage of the program.
pub const USAGE: &'static str = "usage: vi [-c command] [-R] [-H] [file ...]";

/// What was read of the arguments.
#[verifier::ext_equal]
pub struct ArgumentsView {
    pub readonly: bool,
    pub help: bool,
    pub commands: Seq<Seq<char>>,
    pub files: Seq<Seq<char>>,
}

impl ArgumentsView {
    /// Nothing read yet.
    pub open spec fn none() -> ArgumentsView {
        ArgumentsView {
            readonly: false,
            help: false,
            commands: Seq::empty(),
            files: Seq::empty(),
        }
    }
}

/// The arguments from `at` on, behind what was read before, or the message
/// about the first one that is wrong.
pub open spec fn arguments_from(arguments: Seq<Seq<char>>, at: int, before: ArgumentsView) -> Result<
    ArgumentsView,
    Seq<char>,
>
    decreases arguments.len() - at,
{
    if at < 0 || at >= arguments.len() {
        Ok(before)
    } else {
        let argument = arguments[at];
        if argument == "-R"@ {
            arguments_from(arguments, at + 1, ArgumentsView { readonly: true, ..before })
        } else if argument == "-H"@ || argument == "-h"@ || argument == "--help"@ {
            arguments_from(arguments, at + 1, ArgumentsView { help: true, ..before })
        } else if argument == "-c"@ {
            if at + 1 < arguments.len() {
                arguments_from(
                    arguments,
                    at + 2,
                    ArgumentsView { commands: before.commands.push(arguments[at + 1]), ..before },
                )
            } else {
                Err("vi: option requires an argument -- c"@)
            }
        } else if starts_with(argument, seq!['-', 'c']) {
            arguments_from(
                arguments,
                at + 1,
                ArgumentsView {
                    commands: before.commands.push(argument.subrange(2, argument.len() as int)),
                    ..before
                },
            )
        } else if starts_with(argument, seq!['-']) {
            Err("vi: unknown option: "@ + argument)
        } else {
            arguments_from(
                arguments,
                at + 1,
                ArgumentsView { files: before.files.push(argument), ..before },
            )
        }
    }
}

/// Whether an argument asks for help.
pub open spec fn asks_for_help(argument: Seq<char>) -> bool {
    argument == "-h"@ || argument == "--help"@
}

/// What the program is to do with its arguments. Without a file it edits one
/// without a name.
pub open spec fn invoked(arguments: Seq<Seq<char>>) -> InvocationView {
    match arguments_from(arguments, 0, ArgumentsView::none()) {
        Err(message) => InvocationView::Refuse { message },
        Ok(read) => if read.help {
            InvocationView::Help {
                code: if exists|i: int|
                    0 <= i < arguments.len() && asks_for_help(#[trigger] arguments[i]) {
                    0
                } else {
                    1
                },
            }
        } else {
            InvocationView::Edit {
                readonly: read.readonly,
                commands: read.commands,
                files: if read.files.len() == 0 {
                    seq![Seq::empty()]
                } else {
                    read.files
                },
            }
        },
    }
}

struct Arguments {
    readonly: bool,
    help: bool,
    commands: Vec<String>,
    files: Vec<String>,
}

impl View for Arguments {
    type V = ArgumentsView;

    closed spec fn view(&self) -> ArgumentsView {
        ArgumentsView {
            readonly: self.readonly,
            help: self.help,
            commands: texts_of(self.commands@),
            files: texts_of(self.files@),
        }
    }
}

fn push_text(texts: &mut Vec<String>, text: String)
    ensures
        texts_of(final(texts)@) == texts_of(old(texts)@).push(text@),
{
    texts.push(text);
    assert(texts_of(texts@) =~= texts_of(old(texts)@).push(text@));
}

fn read_arguments(arguments: &Vec<String>) -> (r: Result<Arguments, String>)
    ensures
        match (r, arguments_from(texts_of(arguments@), 0, ArgumentsView::none())) {
            (Ok(read), Ok(wanted)) => read@ == wanted,
            (Err(message), Err(wanted)) => message@ == wanted,
            _ => false,
        },
{
    let ghost texts = texts_of(arguments@);
    let mut read = Arguments {
        readonly: false,
        help: false,
        commands: Vec::new(),
        files: Vec::new(),
    };
    assert(read@ =~= ArgumentsView::none());
    let total: usize = arguments.len();
    let dash: [char; 1] = ['-'];
    let dash_c: [char; 2] = ['-', 'c'];
    assert(dash@ =~= seq!['-']);
    assert(dash_c@ =~= seq!['-', 'c']);
    let mut at: usize = 0;
    while at < total
        invariant
            at <= total == arguments@.len(),
            texts == texts_of(arguments@),
            dash@ == seq!['-'],
            dash_c@ == seq!['-', 'c'],
            arguments_from(texts, at as int, read@) == arguments_from(
                texts,
                0,
                ArgumentsView::none(),
            ),
        decreases total - at,
    {
        let argument = chars_of(arguments[at].as_str());
        assert(texts[at as int] == argument@);
        if same_text(&argument, "-R") {
            read.readonly = true;
        } else if same_text(&argument, "-H") || same_text(&argument, "-h") || same_text(
            &argument,
            "--help",
        ) {
            read.help = true;
        } else if same_text(&argument, "-c") {
            at += 1;
            if at >= total {
                return Err(copy_str("vi: option requires an argument -- c"));
            }
            push_text(&mut read.commands, copy_str(arguments[at].as_str()));
        } else if begins_with(&argument, &dash_c) {
            let command = text_range(&argument, 2, argument.len());
            push_text(&mut read.commands, command);
        } else if begins_with(&argument, &dash) {
            let mut message = copy_str("vi: unknown option: ");
            message.append(arguments[at].as_str());
            return Err(message);
        } else {
            push_text(&mut read.files, copy_str(arguments[at].as_str()));
        }
        at += 1;
    }
    Ok(read)
}

fn wants_help(arguments: &Vec<String>) -> (r: bool)
    ensures
        r == exists|i: int|
            0 <= i < arguments@.len() && asks_for_help(#[trigger] texts_of(arguments@)[i]),
{
    let mut i: usize = 0;
    while i < arguments.len()
        invariant
            i <= arguments@.len(),
            forall|j: int|
                0 <= j < i ==> !asks_for_help(#[trigger] texts_of(arguments@)[j]),
        decreases arguments@.len() - i,
    {
        let argument = chars_of(arguments[i].as_str());
        assert(texts_of(arguments@)[i as int] == argument@);
        if same_text(&argument, "-h") || same_text(&argument, "--help") {
            assert(asks_for_help(texts_of(arguments@)[i as int]));
            return true;
        }
        i += 1;
    }
    false
}

/// What the program is to do with its arguments.
pub fn run(arguments: Vec<String>) -> (r: Invocation)
    ensures
        r@ == invoked(texts_of(arguments@)),
{
    match read_arguments(&arguments) {
        Err(message) => Invocation::Refuse { message },
        Ok(read) => {
            if read.help {
                let code: i32 = if wants_help(&arguments) {
                    0
                } else {
                    1
                };
                Invocation::Help { code }
            } else {
                let mut files = read.files;
                if files.len() == 0 {
                    push_text(&mut files, String::new());
                    assert(texts_of(files@) =~= seq![Seq::<char>::empty()]);
                }
                Invocation::Edit { readonly: read.readonly, commands: read.commands, files }
            }
        },
    }
}

/// The name of a file among the arguments: an empty argument is none.
pub fn argument_name(argument: &str) -> (r: Option<String>)
    ensures
        name_of(r) == (if argument@.len() == 0 {
            None
        } else {
            Some(argument@)
        }),
{
    let chars = chars_of(argument);
    if chars.len() == 0 {
        None
    } else {
        Some(copy_str(argument))
    }
}

/// The place of the first newline from `at` on, or the end of the text.
pub open spec fn newline_from(text: Seq<char>, at: int) -> int
    decreases text.len() - at,
{
    if at < 0 || at >= text.len() {
        text.len() as int
    } else if text[at] == '\n' {
        at
    } else {
        newline_from(text, at + 1)
    }
}

/// A newline is found behind the place where it is looked for.
pub proof fn lemma_newline_from(text: Seq<char>, at: int)
    requires
        0 <= at <= text.len(),
    ensures
        at <= newline_from(text, at) <= text.len(),
    decreases text.len() - at,
{
    if at < text.len() && text[at] != '\n' {
        lemma_newline_from(text, at + 1);
    }
}

/// The commands of a start-up text from `at` on: its lines without white space
/// at their ends, without the empty ones.
pub open spec fn startup_from(text: Seq<char>, at: int) -> Seq<Seq<char>>
    decreases text.len() + 1 - at,
{
    if at < 0 || at > text.len() {
        Seq::empty()
    } else {
        proof {
            lemma_newline_from(text, at);
        }
        let end = newline_from(text, at);
        let command = trim(text.subrange(at, end));
        let rest = startup_from(text, end + 1);
        if command.len() == 0 {
            rest
        } else {
            seq![command] + rest
        }
    }
}

fn find_newline(text: &[char], start: usize) -> (r: usize)
    requires
        start <= text@.len(),
    ensures
        r == newline_from(text@, start as int),
        start <= r <= text@.len(),
{
    let mut at: usize = start;
    while at < text.len() && text[at] != '\n'
        invariant
            start <= at <= text@.len(),
            newline_from(text@, at as int) == newline_from(text@, start as int),
        decreases text@.len() - at,
    {
        at += 1;
    }
    at
}

/// The commands of a start-up text.
pub fn startup_commands(text: &str) -> (r: Vec<String>)
    ensures
        texts_of(r@) == startup_from(text@, 0),
{
    let chars = chars_of(text);
    let mut commands: Vec<String> = Vec::new();
    let mut at: usize = 0;
    assert(texts_of(commands@) + startup_from(chars@, 0) =~= startup_from(chars@, 0));
    loop
        invariant_except_break
            at <= chars@.len(),
            texts_of(commands@) + startup_from(chars@, at as int) == startup_from(chars@, 0),
        ensures
            texts_of(commands@) == startup_from(chars@, 0),
        decreases chars@.len() - at,
    {
        let end: usize = find_newline(&chars, at);
        let command = trimmed(&crate::strings::char_range(&chars, at, end));
        let ghost before = texts_of(commands@);
        if command.len() > 0 {
            push_text(&mut commands, text_from(&command));
        }
        let ghost rest = startup_from(chars@, end + 1);
        assert(texts_of(commands@) + rest =~= startup_from(chars@, 0)) by {
            assert(before + (seq![command@] + rest) =~= before.push(command@) + rest);
        }
        if end >= chars.len() {
            assert(texts_of(commands@) + rest =~= texts_of(commands@));
            break;
        }
        at = end + 1;
    }
    commands
}

/// The message about a start-up file that is not to be trusted.
pub const STARTUP_DENIED: &'static str = ".exrc: permission denied";

/// The commands of a start-up file and the message about it: a file that is not
/// to be trusted gives no commands.
pub fn startup(denied: bool, text: &str) -> (r: (Vec<String>, Option<String>))
    ensures
        denied ==> r.0@.len() == 0 && (r.1 matches Some(message) && message@ == STARTUP_DENIED@),
        !denied ==> texts_of(r.0@) == startup_from(text@, 0) && r.1 is None,
{
    if denied {
        (Vec::new(), Some(crate::strings::copy_str(STARTUP_DENIED)))
    } else {
        (startup_commands(text), None)
    }
}

/// What is to be done with the screen.
#[derive(Clone, Copy, Debug, PartialEq, Eq, Structural)]
pub struct Repaint {
    /// Whether what was painted last is forgotten first.
    pub forget: bool,
    /// Whether a frame is painted.
    pub paint: bool,
}

/// What is to be done with the screen where no key came: the mouse did
/// something, the terminal was resized, its size is another one, or the styled
/// ranges changed. The size alone does not tell: a resize that ends where it
/// started still moved the screen's content.
pub fn repaint(mouse: bool, resized: bool, other_size: bool, other_ranges: bool) -> (r: Repaint)
    ensures
        r.forget == resized,
        r.paint == (mouse || resized || other_size || other_ranges),
{
    Repaint { forget: resized, paint: mouse || resized || other_size || other_ranges }
}

impl FilesView {
    /// The file that follows once the editor has stopped: the first one, the
    /// one before, the next one, or none.
    pub open spec fn following(self, index: int) -> Option<int> {
        if self.rewind_files {
            Some(0)
        } else if self.previous_file {
            Some(less(index, 1))
        } else if self.next_file {
            Some(fit(index + 1))
        } else {
            None
        }
    }
}

impl Files {
    /// The file that follows once the editor has stopped.
    pub fn following_file(&self, index: usize) -> (r: Option<usize>)
        ensures
            match r {
                Some(next) => self@.following(index as int) == Some(next as int),
                None => self@.following(index as int) is None,
            },
    {
        if self.rewind_files {
            Some(0)
        } else if self.previous_file {
            Some(less_of(index, 1))
        } else if self.next_file {
            Some(plus_of(index, 1))
        } else {
            None
        }
    }
}

impl EditorView {
    /// Whether no further command of a list is executed.
    pub open spec fn stops_commands(self) -> bool {
        self.files.quit || self.message.hit_return
    }

    /// The commands of a list from `at` on executed, up to one that stops the
    /// list or needs an answer of the host, and the place behind it.
    pub open spec fn commands_run(self, commands: Seq<Seq<char>>, at: int) -> (EditorView, int)
        decreases commands.len() - at,
    {
        if at < 0 || at >= commands.len() {
            (self, at)
        } else {
            let after = self.ex_executed(commands[at]);
            if after.stops_commands() {
                (after, commands.len() as int)
            } else if after.files.request is Some {
                (after, at + 1)
            } else {
                after.commands_run(commands, at + 1)
            }
        }
    }

    /// The line that is being typed, as it is shown.
    pub open spec fn prompt_text(self) -> Option<Seq<char>> {
        match self.input.awaiting {
            Await::Prompt { kind } => Some(
                (match kind {
                    PromptKind::Command => ":"@,
                    PromptKind::Search { forward } => if forward {
                        "/"@
                    } else {
                        "?"@
                    },
                }) + decoded(self.input.typed),
            ),
            _ => None,
        }
    }

    /// What the terminal is sent at the end: the cursor shown at the start of
    /// the last row, which is cleared.
    pub open spec fn farewell(self) -> Seq<u8> {
        encode_utf8("\x1b[?25h\x1b["@) + decimal_bytes(self.screen.rows as nat) + encode_utf8(
            ";1H\x1b[K"@,
        )
    }
}

impl Editor {
    /// Whether no further command of a list is to be executed.
    pub fn stops_command_list(&self) -> (r: bool)
        ensures
            r == self@.stops_commands(),
    {
        self.files.quit || self.message.hit_return
    }

    /// Executes the commands of a list from `from` on. Where one needs an
    /// answer of the host, the list goes on from the place that is returned.
    pub fn run_commands(&mut self, commands: &Vec<String>, from: usize) -> (r: usize)
        requires
            old(self)@.wf(),
        ensures
            (final(self)@, r as int) == old(self)@.commands_run(
                texts_of(commands@),
                from as int,
            ),
            final(self)@.wf(),
            final(self)@.doc.origin == old(self)@.doc.origin,
            told_of_edits(old(self).doc, final(self).doc),
    {
        let ghost texts = texts_of(commands@);
        let total: usize = commands.len();
        let mut at: usize = from;
        while at < total
            invariant
                total == commands@.len() == texts.len(),
                texts == texts_of(commands@),
                self@.wf(),
                self@.doc.origin == old(self)@.doc.origin,
                told_of_edits(old(self).doc, self.doc),
                self@.commands_run(texts, at as int) == old(self)@.commands_run(
                    texts,
                    from as int,
                ),
            decreases total - at,
        {
            assert(texts[at as int] == commands@[at as int]@);
            self.execute_ex(commands[at].as_str());
            if self.stops_command_list() {
                return total;
            }
            at += 1;
            if self.files.request.is_some() {
                return at;
            }
        }
        at
    }

    /// The line that is being typed, as it is shown.
    pub fn prompt(&self) -> (r: Option<String>)
        ensures
            name_of(r) == self@.prompt_text(),
    {
        match self.input.awaiting {
            Await::Prompt { kind } => {
                let mut text = match kind {
                    PromptKind::Command => copy_str(":"),
                    PromptKind::Search { forward } => {
                        if forward {
                            copy_str("/")
                        } else {
                            copy_str("?")
                        }
                    },
                };
                let typed = utf8_lossy(&self.input.typed);
                text.append(typed.as_str());
                Some(text)
            },
            _ => None,
        }
    }

    /// Takes over the size of the terminal: the one that it reports, else the
    /// one that the environment gives; whether it is another one.
    pub fn refresh_size(
        &mut self,
        reported: Option<(usize, usize)>,
        environment: Option<(usize, usize)>,
    ) -> (r: bool)
        requires
            old(self)@.wf(),
        ensures
            final(self)@.wf(),
            final(self)@.doc.origin == old(self)@.doc.origin,
            ({
                let (rows, cols) = chosen_size(reported, environment);
                final(self)@ == (EditorView {
                    screen: old(self)@.screen.resized(rows, cols),
                    ..old(self)@
                })
            }),
            r == (final(self)@.screen.rows != old(self)@.screen.rows || final(self)@.screen.cols
                != old(self)@.screen.cols),
            unedited(old(self).doc, final(self).doc),
    {
        let (rows, cols) = choose_size(reported, environment);
        self.screen.set_size(rows, cols)
    }

    /// Appends what the terminal is sent at the end.
    pub fn write_farewell(&self, out: &mut Vec<u8>)
        ensures
            final(out)@ == old(out)@ + self@.farewell(),
    {
        push_all(out, &utf8_of_str("\x1b[?25h\x1b["));
        push_all(out, &decimal_bytes_of(self.screen.rows as u128));
        push_all(out, &utf8_of_str(";1H\x1b[K"));
        assert(out@ =~= old(out)@ + self@.farewell());
    }
}

} // verus!
