//! Colon commands, and going on once the host has answered a request.
use crate::address::{
    command_prefix, ex_of, is_bare_zero_address, is_zero_read_address, names, pair_of, parse_ex,
    within, zero_number, zero_read,
};
use crate::bytes::{copy_lines, text_of};
use crate::document::{told_of_edits, unedited};
use crate::editor::{Editor, EditorView, InputView, RegistersView, StatusView};
use crate::files::{
    copy_name, expand_filename, expanded, name_of, AfterWrite, FileRequest, FilesView, Guard,
    GuardView, RequestView,
};
use crate::messages::{
    display_literal_bytes, files_left_message, files_left_text, literal_bytes, not_implemented,
    not_implemented_text, register_name, unwritten_message, unwritten_text, yank_message,
    yank_status, HELP,
};
use crate::strings::{
    char_range, chars_of, copy_str, decimal, drop_white_end, push_decimal, same_text, text_from,
    text_range, trim, trim_end, trim_start, trimmed, trimmed_start,
};
use crate::text::{serialize, serialize_lines, split_data, split_newlines};
use vstd::prelude::*;
use vstd::string::*;

verus! {

broadcast use crate::syntax::group_noted;

/// A colon command without the colons in front.
pub open spec fn without_colons(command: Seq<char>) -> Seq<char>
    decreases command.len(),
{
    if command.len() > 0 && command[0] == ':' {
        without_colons(command.subrange(1, command.len() as int))
    } else {
        command
    }
}

/// A colon command that was taken apart.
#[verifier::ext_equal]
pub struct ExAsked {
    /// The lines it is for.
    pub addresses: Option<(int, int)>,
    /// Its name.
    pub name: Seq<char>,
    /// The rest.
    pub args: Seq<char>,
    /// Whether it is forced.
    pub force: bool,
    /// The whole command, without the exclamation mark at its end.
    pub body: Seq<char>,
    /// The register that was selected.
    pub register: Option<u8>,
}

/// What a path is quoted like in a message.
pub open spec fn quoted(path: Seq<char>, rest: Seq<char>) -> Seq<char> {
    "'"@ + path + "'"@ + rest
}

pub(crate) fn quote(path: &str, rest: &str) -> (r: String)
    ensures
        r@ == quoted(path@, rest@),
{
    let mut r = copy_str("'");
    r.append(path);
    r.append("'");
    r.append(rest);
    r
}

/// The bytes of the lines from `start` to `end`, each with its newline.
pub open spec fn range_bytes(lines: Seq<Seq<u8>>, start: int, end: int) -> Seq<u8> {
    serialize(lines.subrange(start, end + 1), true)
}

/// The lines that a file with these bytes adds to a text.
pub open spec fn lines_to_add(data: Seq<u8>) -> Seq<Seq<u8>> {
    let pieces = split_newlines(data);
    if pieces.last().len() == 0 {
        pieces.drop_last()
    } else {
        pieces
    }
}

pub(crate) fn lines_added(data: &[u8]) -> (r: Vec<Vec<u8>>)
    ensures
        text_of(r@) == lines_to_add(data@),
{
    let mut pieces = split_data(data);
    let ghost all = text_of(pieces@);
    proof {
        crate::text::lemma_split_len(data@);
    }
    let count: usize = pieces.len();
    if pieces[count - 1].len() == 0 {
        let _ = pieces.pop();
        assert(text_of(pieces@) =~= all.drop_last());
    }
    pieces
}

impl EditorView {
    /// The files as they are after a command.
    pub open spec fn with_files(self, files: FilesView) -> EditorView {
        EditorView { files, ..self }
    }

    /// The host is asked to do something.
    pub open spec fn asking(self, request: RequestView) -> EditorView {
        self.with_files(FilesView { request: Some(request), ..self.files })
    }

    /// The request gone.
    pub open spec fn answered(self) -> EditorView {
        self.with_files(FilesView { request: None, ..self.files })
    }

    /// A write, or the message about why there can be none: the text or some
    /// of its lines, to the file asked for or to the one that is edited.
    pub open spec fn write_asked(
        self,
        requested: Option<Seq<char>>,
        force: bool,
        range: Option<(int, int)>,
        after: AfterWrite,
    ) -> Result<RequestView, Seq<char>> {
        let path = match requested {
            Some(path) => Some(path),
            None => self.files.filename,
        };
        match path {
            None => Err("No current filename"@),
            Some(path) => if self.files.readonly && !force && requested is None {
                Err(quoted(path, " is read only"@))
            } else {
                Ok(
                    RequestView::Write {
                        path,
                        data: match range {
                            Some((start, end)) => range_bytes(self.doc.lines, start, end),
                            None => self.doc.bytes(),
                        },
                        guard: if !force && requested is Some {
                            GuardView::Refuse { except: self.files.filename }
                        } else {
                            GuardView::Overwrite
                        },
                        ranged: range is Some,
                        after,
                    },
                )
            },
        }
    }

    /// Where the editor stops, unless files are left to edit.
    pub open spec fn quit_unless_left(self, force: bool) -> EditorView {
        if self.files.remaining() > 0 && !force {
            self.failed(files_left_message(self.files.remaining()))
        } else {
            self.with_files(FilesView { quit: true, ..self.files })
        }
    }

    /// What follows a write.
    #[verifier::opaque]
    pub open spec fn after_write(self, after: AfterWrite) -> EditorView {
        match after {
            AfterWrite::Stay => self,
            AfterWrite::Quit { force } => self.quit_unless_left(force),
            AfterWrite::Next => self.with_files(
                FilesView { quit: true, next_file: true, ..self.files },
            ),
            AfterWrite::Close => self.quit_unless_left(false),
        }
    }

    /// `:q`.
    #[verifier::opaque]
    pub open spec fn ex_quit(self, ex: ExAsked) -> EditorView {
        if self.doc.modified && !ex.force {
            self.failed(unwritten_message(ex.name))
        } else if self.files.remaining() > 0 && !ex.force {
            self.failed(files_left_message(self.files.remaining()))
        } else {
            self.with_files(FilesView { quit: true, force_quit: ex.force, ..self.files })
        }
    }

    /// `:next`, `:prev` and `:rewind`.
    #[verifier::opaque]
    pub open spec fn ex_navigate(self, ex: ExAsked) -> EditorView {
        let next = names(ex.name, "next"@);
        let previous = names(ex.name, "prev"@);
        if self.doc.modified && !ex.force {
            self.failed(unwritten_message(ex.name))
        } else if !ex.force && next && self.files.remaining() == 0 {
            self.failed("No more files to edit"@)
        } else if !ex.force && previous && self.files.index == 0 {
            self.failed("No previous files to edit"@)
        } else {
            self.with_files(
                FilesView {
                    quit: true,
                    next_file: next,
                    previous_file: previous,
                    rewind_files: names(ex.name, "rewind"@),
                    force_quit: ex.force,
                    ..self.files
                },
            )
        }
    }

    /// The file that a command is for: the one named, or none where nothing is
    /// named. The outer option is empty where the name cannot be expanded.
    #[verifier::opaque]
    pub open spec fn named_file(self, args: Seq<char>) -> Option<Option<Seq<char>>> {
        if args.len() == 0 {
            Some(None)
        } else {
            match expanded(args, self.files.filename, self.files.alternate) {
                Some(path) => Some(Some(path)),
                None => None,
            }
        }
    }

    /// `:w`, `:wq`, `:x` and `:wn`.
    #[verifier::opaque]
    pub open spec fn ex_write(self, ex: ExAsked, after: AfterWrite) -> EditorView {
        match self.named_file(ex.args) {
            None => self.failed("No previous filename"@).ended(),
            Some(requested) => match self.write_asked(requested, ex.force, ex.addresses, after) {
                Ok(request) => self.asking(request),
                Err(message) => self.failed(message).ended(),
            },
        }
    }

    /// The editor for another file: the name that it had becomes the previous
    /// one, and the new name, in which that can be used, takes its place.
    pub open spec fn renamed(self, args: Seq<char>) -> (EditorView, bool) {
        if args.len() == 0 {
            (self, true)
        } else {
            let moved = FilesView { alternate: self.files.filename, ..self.files };
            match expanded(args, moved.filename, moved.alternate) {
                Some(path) => (
                    self.with_files(FilesView { filename: Some(path), ..moved }),
                    true,
                ),
                None => (self.with_files(moved).failed("No previous filename"@), false),
            }
        }
    }

    /// `:e`.
    #[verifier::opaque]
    pub open spec fn ex_edit(self, ex: ExAsked) -> EditorView {
        if self.doc.modified && !ex.force {
            self.failed(unwritten_message(ex.name)).ended()
        } else {
            let (named, fine) = self.renamed(ex.args);
            if !fine {
                named.ended()
            } else {
                match named.files.filename {
                    None => named.failed("No current filename"@).ended(),
                    Some(path) => named.asking(RequestView::Load { path, tell: true }),
                }
            }
        }
    }

    /// `:f`.
    #[verifier::opaque]
    pub open spec fn ex_file(self, ex: ExAsked) -> EditorView {
        if ex.addresses is Some {
            self.failed("No address allowed on this command"@)
        } else {
            let (named, fine) = self.renamed(ex.args);
            if fine {
                named.cleared()
            } else {
                named
            }
        }
    }

    /// `:=`.
    #[verifier::opaque]
    pub open spec fn ex_number(self, ex: ExAsked) -> EditorView {
        self.told(
            decimal(
                if zero_number(ex.body) {
                    0
                } else {
                    match ex.addresses {
                        Some((_, end)) => end + 1,
                        None => self.doc.row + 1,
                    }
                },
            ),
        )
    }

    /// A line address alone.
    #[verifier::opaque]
    pub open spec fn ex_goto(self, ex: ExAsked) -> EditorView {
        match ex.addresses {
            Some((start, _)) => self.at_row(start),
            None => self,
        }
    }

    /// `:features`.
    #[verifier::opaque]
    pub open spec fn ex_features(self) -> EditorView {
        EditorView { message: StatusView { hit_return: true, ..self.message }, ..self }.told(
            trim_end(HELP@) + "\u{1b}[7m[Hit return to continue]\u{1b}[m"@,
        )
    }

    /// The lines that a command is for: the one of the cursor where none are
    /// given.
    pub open spec fn ex_lines(self, ex: ExAsked) -> (int, int) {
        match ex.addresses {
            Some(range) => range,
            None => (self.doc.row, self.doc.row),
        }
    }

    /// `:list`.
    #[verifier::opaque]
    pub open spec fn ex_list(self, ex: ExAsked) -> EditorView {
        EditorView {
            message: self.message.told_bytes(
                literal_bytes(self.doc.lines[self.ex_lines(ex).0]).push(36),
            ),
            ..self
        }
    }

    /// `:delete`.
    #[verifier::opaque]
    pub open spec fn ex_delete(self, ex: ExAsked) -> EditorView {
        let (start, end) = self.ex_lines(ex);
        self.lines_deleted(start, end)
    }

    /// `:yank`.
    #[verifier::opaque]
    pub open spec fn ex_yank(self, ex: ExAsked) -> EditorView {
        let (start, end) = self.ex_lines(ex);
        let lines = self.doc.lines.subrange(start, end + 1);
        EditorView {
            registers: self.registers.yanked(lines, true).saved(ex.register),
            ..self
        }.told(yank_message(lines, register_name(ex.register)))
    }

    /// Where `:read` puts the lines.
    #[verifier::opaque]
    pub open spec fn read_place(self, ex: ExAsked) -> int {
        if zero_read(ex.body) {
            0
        } else {
            match ex.addresses {
                Some((_, end)) => end + 1,
                None => self.doc.row + 1,
            }
        }
    }

    /// `:read`.
    #[verifier::opaque]
    pub open spec fn ex_read(self, ex: ExAsked) -> EditorView {
        let at = self.read_place(ex);
        match self.named_file(ex.args) {
            None => self.failed("No previous filename"@).ended(),
            Some(Some(path)) => self.with_files(
                FilesView {
                    alternate: self.files.filename,
                    filename: Some(path),
                    ..self.files
                },
            ).asking(RequestView::Read { path, at }),
            Some(None) => match self.files.filename {
                Some(path) => self.asking(RequestView::Read { path, at }),
                None => self.failed("No current filename"@).ended(),
            },
        }
    }

    /// A command by its name. Where the host is asked for something, the
    /// command goes on once it has answered.
    pub open spec fn ex_named(self, ex: ExAsked) -> EditorView {
        if names(ex.name, "quit"@) {
            self.ex_quit(ex).ended()
        } else if names(ex.name, "next"@) || names(ex.name, "prev"@) || names(
            ex.name,
            "rewind"@,
        ) {
            self.ex_navigate(ex).ended()
        } else if names(ex.name, "write"@) {
            self.ex_write(ex, AfterWrite::Stay)
        } else if ex.name == "wq"@ || ex.name == "x"@ {
            self.ex_write(ex, AfterWrite::Quit { force: ex.force })
        } else if ex.name == "wn"@ {
            self.ex_write(ex, AfterWrite::Next)
        } else if names(ex.name, "edit"@) {
            self.ex_edit(ex)
        } else if ex.name.len() > 1 && names(ex.name, "set"@) {
            self.options_set(ex.args).ended()
        } else if names(ex.name, "file"@) {
            self.ex_file(ex).ended()
        } else if ex.name.len() == 0 {
            if ex.args == "="@ {
                self.ex_number(ex).ended()
            } else {
                self.ex_goto(ex).ended()
            }
        } else {
            self.ex_named_more(ex)
        }
    }

    /// The rest of the commands by name.
    #[verifier::opaque]
    pub open spec fn ex_named_more(self, ex: ExAsked) -> EditorView {
        if names(ex.name, "version"@) {
            self.told("standalone"@).ended()
        } else if names(ex.name, "features"@) {
            self.ex_features().ended()
        } else if names(ex.name, "list"@) {
            self.ex_list(ex).ended()
        } else if names(ex.name, "delete"@) {
            self.ex_delete(ex).ended()
        } else if names(ex.name, "yank"@) {
            self.ex_yank(ex).ended()
        } else if names(ex.name, "read"@) {
            self.ex_read(ex)
        } else if ex.name[0] == 's' {
            self.substituted(ex.args, ex.addresses).ended()
        } else {
            self.failed(not_implemented(ex.name)).ended()
        }
    }

    /// A colon command. An exclamation mark at its end or behind its name
    /// forces it.
    pub open spec fn ex_executed(self, command: Seq<char>) -> EditorView {
        let line = trim(without_colons(command));
        if line.len() == 0 {
            self
        } else {
            let bang = line.last() == '!';
            let body = if bang {
                line.drop_last()
            } else {
                line
            };
            let (parsed, search) = ex_of(
                body,
                self.doc.row,
                self.doc.lines,
                self.options.ignorecase,
                self.input.marks,
                self.input.search,
            );
            let known = EditorView {
                input: InputView { search, ..self.input },
                registers: RegistersView { selected: None, ..self.registers },
                ..self.cleared()
            };
            match parsed {
                Err(message) => known.failed(message),
                Ok(ex) => {
                    let inner = ex.args.len() > 0 && ex.args[0] == '!';
                    known.ex_named(
                        ExAsked {
                            addresses: ex.addresses,
                            name: ex.name,
                            args: if inner {
                                trim_start(ex.args.subrange(1, ex.args.len() as int))
                            } else {
                                ex.args
                            },
                            force: bang || inner,
                            body,
                            register: self.registers.selected,
                        },
                    )
                },
            }
        }
    }
}

/// A colon command that was taken apart.
pub struct ExCommand {
    pub addresses: Option<(usize, usize)>,
    pub name: Vec<char>,
    pub args: Vec<char>,
    pub force: bool,
    pub body: Vec<char>,
    pub register: Option<u8>,
}

impl View for ExCommand {
    type V = ExAsked;

    open spec fn view(&self) -> ExAsked {
        ExAsked {
            addresses: pair_of(self.addresses),
            name: self.name@,
            args: self.args@,
            force: self.force,
            body: self.body@,
            register: self.register,
        }
    }
}

/// A text that may be a name, as a value, where the outer option tells whether
/// it could be made.
spec fn named_of(name: Option<Option<String>>) -> Option<Option<Seq<char>>> {
    match name {
        Some(inner) => Some(name_of(inner)),
        None => None,
    }
}

impl Editor {
    /// A write, or the message about why there can be none.
    pub fn ask_write(
        &self,
        requested: Option<String>,
        force: bool,
        range: Option<(usize, usize)>,
        after: AfterWrite,
    ) -> (r: Result<FileRequest, String>)
        requires
            self@.wf(),
            within(range, self@.doc.lines.len()),
        ensures
            match r {
                Ok(request) => self@.write_asked(
                    name_of(requested),
                    force,
                    pair_of(range),
                    after,
                ) == Ok::<RequestView, Seq<char>>(request@),
                Err(message) => self@.write_asked(
                    name_of(requested),
                    force,
                    pair_of(range),
                    after,
                ) == Err::<RequestView, Seq<char>>(message@),
            },
    {
        let named = requested.is_some();
        let path = match requested {
            Some(path) => path,
            None => match self.files.filename.as_ref() {
                Some(path) => copy_str(path.as_str()),
                None => {
                    return Err(copy_str("No current filename"));
                },
            },
        };
        if self.files.readonly && !force && !named {
            return Err(quote(path.as_str(), " is read only"));
        }
        let data = match range {
            Some((start, end)) => serialize_lines(
                &copy_lines(&self.doc.lines, start, end + 1),
                true,
            ),
            None => self.doc.bytes(),
        };
        let guard = if !force && named {
            Guard::Refuse { except: copy_name(&self.files.filename) }
        } else {
            Guard::Overwrite
        };
        Ok(FileRequest::Write { path, data, guard, ranged: range.is_some(), after })
    }

    pub(crate) fn quit_unless_left(&mut self, force: bool)
        requires
            old(self)@.wf(),
        ensures
            final(self)@ == old(self)@.quit_unless_left(force),
            final(self)@.wf(),
            final(self)@.doc.origin == old(self)@.doc.origin,
            unedited(old(self).doc, final(self).doc),
    {
        let left: usize = self.files.remaining_files();
        if left > 0 && !force {
            self.set_error(files_left_text(left));
        } else {
            self.files.quit = true;
        }
    }

    pub(crate) fn finish_after_write(&mut self, after: AfterWrite)
        requires
            old(self)@.wf(),
        ensures
            final(self)@ == old(self)@.after_write(after),
            final(self)@.wf(),
            final(self)@.doc.origin == old(self)@.doc.origin,
            unedited(old(self).doc, final(self).doc),
    {
        reveal(EditorView::after_write);
        match after {
            AfterWrite::Stay => {},
            AfterWrite::Quit { force } => {
                self.quit_unless_left(force);
            },
            AfterWrite::Next => {
                self.files.quit = true;
                self.files.next_file = true;
            },
            AfterWrite::Close => {
                self.quit_unless_left(false);
            },
        }
    }

    fn ex_quit(&mut self, ex: &ExCommand)
        requires
            old(self)@.wf(),
        ensures
            final(self)@ == old(self)@.ex_quit(ex@),
            final(self)@.wf(),
            final(self)@.doc.origin == old(self)@.doc.origin,
            unedited(old(self).doc, final(self).doc),
    {
        reveal(EditorView::ex_quit);
        let left: usize = self.files.remaining_files();
        if self.doc.modified && !ex.force {
            self.set_error(unwritten_text(text_from(&ex.name).as_str()));
        } else if left > 0 && !ex.force {
            self.set_error(files_left_text(left));
        } else {
            self.files.quit = true;
            self.files.force_quit = ex.force;
        }
    }

    fn ex_navigate(&mut self, ex: &ExCommand)
        requires
            old(self)@.wf(),
        ensures
            final(self)@ == old(self)@.ex_navigate(ex@),
            final(self)@.wf(),
            final(self)@.doc.origin == old(self)@.doc.origin,
            unedited(old(self).doc, final(self).doc),
    {
        reveal(EditorView::ex_navigate);
        let next = command_prefix(&ex.name, "next");
        let previous = command_prefix(&ex.name, "prev");
        if self.doc.modified && !ex.force {
            self.set_error(unwritten_text(text_from(&ex.name).as_str()));
        } else if !ex.force && next && self.files.remaining_files() == 0 {
            self.fail("No more files to edit");
        } else if !ex.force && previous && self.files.index == 0 {
            self.fail("No previous files to edit");
        } else {
            self.files.quit = true;
            self.files.next_file = next;
            self.files.previous_file = previous;
            self.files.rewind_files = command_prefix(&ex.name, "rewind");
            self.files.force_quit = ex.force;
        }
    }

    fn find_named_file(&self, args: &[char]) -> (r: Option<Option<String>>)
        ensures
            named_of(r) == self@.named_file(args@),
    {
        reveal(EditorView::named_file);
        if args.len() == 0 {
            Some(None)
        } else {
            match expand_filename(args, &self.files.filename, &self.files.alternate_filename) {
                Some(path) => Some(Some(path)),
                None => None,
            }
        }
    }

    fn ex_write(&mut self, ex: &ExCommand, after: AfterWrite)
        requires
            old(self)@.wf(),
            within(ex.addresses, old(self)@.doc.lines.len()),
        ensures
            final(self)@ == old(self)@.ex_write(ex@, after),
            final(self)@.wf(),
            final(self)@.doc.origin == old(self)@.doc.origin,
            unedited(old(self).doc, final(self).doc),
    {
        reveal(EditorView::ex_write);
        match self.find_named_file(&ex.args) {
            None => {
                self.fail("No previous filename");
                self.doc.end_change();
            },
            Some(requested) => match self.ask_write(requested, ex.force, ex.addresses, after) {
                Ok(request) => {
                    self.files.request = Some(request);
                },
                Err(message) => {
                    self.set_error(message);
                    self.doc.end_change();
                },
            },
        }
    }

    fn rename(&mut self, args: &[char]) -> (r: bool)
        requires
            old(self)@.wf(),
        ensures
            (final(self)@, r) == old(self)@.renamed(args@),
            final(self)@.wf(),
            final(self)@.doc.origin == old(self)@.doc.origin,
            unedited(old(self).doc, final(self).doc),
    {
        if args.len() == 0 {
            return true;
        }
        self.files.alternate_filename = copy_name(&self.files.filename);
        match expand_filename(args, &self.files.filename, &self.files.alternate_filename) {
            Some(path) => {
                self.files.filename = Some(path);
                true
            },
            None => {
                self.fail("No previous filename");
                false
            },
        }
    }

    fn ex_edit(&mut self, ex: &ExCommand)
        requires
            old(self)@.wf(),
        ensures
            final(self)@ == old(self)@.ex_edit(ex@),
            final(self)@.wf(),
            final(self)@.doc.origin == old(self)@.doc.origin,
            unedited(old(self).doc, final(self).doc),
    {
        reveal(EditorView::ex_edit);
        if self.doc.modified && !ex.force {
            self.set_error(unwritten_text(text_from(&ex.name).as_str()));
            self.doc.end_change();
            return;
        }
        if !self.rename(&ex.args) {
            self.doc.end_change();
            return;
        }
        match copy_name(&self.files.filename) {
            None => {
                self.fail("No current filename");
                self.doc.end_change();
            },
            Some(path) => {
                self.files.request = Some(FileRequest::Load { path, tell: true });
            },
        }
    }

    fn ex_file(&mut self, ex: &ExCommand)
        requires
            old(self)@.wf(),
        ensures
            final(self)@ == old(self)@.ex_file(ex@),
            final(self)@.wf(),
            final(self)@.doc.origin == old(self)@.doc.origin,
            unedited(old(self).doc, final(self).doc),
    {
        reveal(EditorView::ex_file);
        if ex.addresses.is_some() {
            self.fail("No address allowed on this command");
        } else if self.rename(&ex.args) {
            self.clear_status();
        }
    }

    fn ex_number(&mut self, ex: &ExCommand)
        requires
            old(self)@.wf(),
        ensures
            final(self)@ == old(self)@.ex_number(ex@),
            final(self)@.wf(),
            final(self)@.doc.origin == old(self)@.doc.origin,
            unedited(old(self).doc, final(self).doc),
    {
        reveal(EditorView::ex_number);
        let line: u128 = if is_bare_zero_address(&ex.body) {
            0
        } else {
            match ex.addresses {
                Some((_, end)) => end as u128 + 1,
                None => self.doc.row as u128 + 1,
            }
        };
        let mut text = String::new();
        push_decimal(&mut text, line);
        assert(text@ =~= decimal(line as int));
        self.set_status(text);
    }

    fn ex_goto(&mut self, ex: &ExCommand)
        requires
            old(self)@.wf(),
            within(ex.addresses, old(self)@.doc.lines.len()),
        ensures
            final(self)@ == old(self)@.ex_goto(ex@),
            final(self)@.wf(),
            final(self)@.doc.origin == old(self)@.doc.origin,
            unedited(old(self).doc, final(self).doc),
    {
        reveal(EditorView::ex_goto);
        if let Some((start, _)) = ex.addresses {
            self.doc.move_to_row(start);
        }
    }

    fn ex_features(&mut self)
        requires
            old(self)@.wf(),
        ensures
            final(self)@ == old(self)@.ex_features(),
            final(self)@.wf(),
            final(self)@.doc.origin == old(self)@.doc.origin,
            unedited(old(self).doc, final(self).doc),
    {
        reveal(EditorView::ex_features);
        self.message.hit_return = true;
        let help = chars_of(HELP);
        let end: usize = drop_white_end(&help);
        let mut text = text_range(&help, 0, end);
        text.append("\u{1b}[7m[Hit return to continue]\u{1b}[m");
        self.set_status(text);
    }

    fn lines_for(&self, ex: &ExCommand) -> (r: (usize, usize))
        requires
            self@.wf(),
            within(ex.addresses, self@.doc.lines.len()),
        ensures
            (r.0 as int, r.1 as int) == self@.ex_lines(ex@),
            r.0 <= r.1 < self@.doc.lines.len(),
    {
        match ex.addresses {
            Some(range) => range,
            None => (self.doc.row, self.doc.row),
        }
    }

    fn ex_list(&mut self, ex: &ExCommand)
        requires
            old(self)@.wf(),
            within(ex.addresses, old(self)@.doc.lines.len()),
        ensures
            final(self)@ == old(self)@.ex_list(ex@),
            final(self)@.wf(),
            final(self)@.doc.origin == old(self)@.doc.origin,
            unedited(old(self).doc, final(self).doc),
    {
        reveal(EditorView::ex_list);
        let (start, _) = self.lines_for(ex);
        let bytes = display_literal_bytes(&self.doc.lines[start]);
        self.set_status_bytes(bytes);
    }

    fn ex_delete(&mut self, ex: &ExCommand)
        requires
            old(self)@.wf(),
            within(ex.addresses, old(self)@.doc.lines.len()),
        ensures
            final(self)@ == old(self)@.ex_delete(ex@),
            final(self)@.wf(),
            final(self)@.doc.origin == old(self)@.doc.origin,
            told_of_edits(old(self).doc, final(self).doc),
    {
        reveal(EditorView::ex_delete);
        let (start, end) = self.lines_for(ex);
        self.delete_lines(start, end);
    }

    fn ex_yank(&mut self, ex: &ExCommand)
        requires
            old(self)@.wf(),
            within(ex.addresses, old(self)@.doc.lines.len()),
        ensures
            final(self)@ == old(self)@.ex_yank(ex@),
            final(self)@.wf(),
            final(self)@.doc.origin == old(self)@.doc.origin,
            unedited(old(self).doc, final(self).doc),
    {
        reveal(EditorView::ex_yank);
        let (start, end) = self.lines_for(ex);
        let lines = copy_lines(&self.doc.lines, start, end + 1);
        let message = yank_status(&lines, register_name(ex.register));
        self.registers.set_yank(lines, true);
        self.registers.save_register(ex.register);
        self.set_status(message);
    }

    fn ask(&mut self, request: FileRequest)
        ensures
            final(self)@ == old(self)@.asking(request@),
            unedited(old(self).doc, final(self).doc),
    {
        self.files.request = Some(request);
    }

    fn fail_and_end(&mut self, message: &str)
        requires
            old(self)@.wf(),
        ensures
            final(self)@ == old(self)@.failed(message@).ended(),
            final(self)@.wf(),
            final(self)@.doc.origin == old(self)@.doc.origin,
            unedited(old(self).doc, final(self).doc),
    {
        self.fail(message);
        self.end_change();
    }

    fn take_name(&mut self, path: &str)
        ensures
            final(self)@ == old(self)@.with_files(
                (FilesView {
                    alternate: old(self)@.files.filename,
                    filename: Some(path@),
                    ..old(self)@.files
                }),
            ),
            unedited(old(self).doc, final(self).doc),
    {
        self.files.alternate_filename = copy_name(&self.files.filename);
        self.files.filename = Some(copy_str(path));
    }

    fn place_for_read(&self, ex: &ExCommand) -> (r: usize)
        requires
            self@.wf(),
            within(ex.addresses, self@.doc.lines.len()),
        ensures
            r == self@.read_place(ex@),
    {
        reveal(EditorView::read_place);
        if is_zero_read_address(&ex.body) {
            0
        } else {
            match ex.addresses {
                Some((_, end)) => end + 1,
                None => self.doc.row + 1,
            }
        }
    }

    fn ex_read(&mut self, ex: &ExCommand)
        requires
            old(self)@.wf(),
            within(ex.addresses, old(self)@.doc.lines.len()),
        ensures
            final(self)@ == old(self)@.ex_read(ex@),
            final(self)@.wf(),
            final(self)@.doc.origin == old(self)@.doc.origin,
            unedited(old(self).doc, final(self).doc),
    {
        reveal(EditorView::ex_read);
        let at: usize = self.place_for_read(ex);
        match self.find_named_file(&ex.args) {
            None => {
                self.fail_and_end("No previous filename");
            },
            Some(Some(path)) => {
                self.take_name(path.as_str());
                self.ask(FileRequest::Read { path, at });
            },
            Some(None) => match copy_name(&self.files.filename) {
                Some(path) => {
                    self.ask(FileRequest::Read { path, at });
                },
                None => {
                    self.fail_and_end("No current filename");
                },
            },
        }
    }

    fn ex_named(&mut self, ex: &ExCommand)
        requires
            old(self)@.wf(),
            within(ex.addresses, old(self)@.doc.lines.len()),
        ensures
            final(self)@ == old(self)@.ex_named(ex@),
            final(self)@.wf(),
            final(self)@.doc.origin == old(self)@.doc.origin,
            told_of_edits(old(self).doc, final(self).doc),
    {
        let name = &ex.name;
        if command_prefix(name, "quit") {
            self.ex_quit(ex);
            self.end_change();
        } else if command_prefix(name, "next") || command_prefix(name, "prev") || command_prefix(
            name,
            "rewind",
        ) {
            self.ex_navigate(ex);
            self.end_change();
        } else if command_prefix(name, "write") {
            self.ex_write(ex, AfterWrite::Stay);
        } else if same_text(name, "wq") || same_text(name, "x") {
            self.ex_write(ex, AfterWrite::Quit { force: ex.force });
        } else if same_text(name, "wn") {
            self.ex_write(ex, AfterWrite::Next);
        } else if command_prefix(name, "edit") {
            self.ex_edit(ex);
        } else if name.len() > 1 && command_prefix(name, "set") {
            self.set_options(&ex.args);
            self.end_change();
        } else if command_prefix(name, "file") {
            self.ex_file(ex);
            self.end_change();
        } else if name.len() == 0 {
            if same_text(&ex.args, "=") {
                self.ex_number(ex);
            } else {
                self.ex_goto(ex);
            }
            self.end_change();
        } else {
            self.ex_named_more(ex);
        }
    }

    fn ex_named_more(&mut self, ex: &ExCommand)
        requires
            old(self)@.wf(),
            within(ex.addresses, old(self)@.doc.lines.len()),
            ex.name@.len() > 0,
        ensures
            final(self)@ == old(self)@.ex_named_more(ex@),
            final(self)@.wf(),
            final(self)@.doc.origin == old(self)@.doc.origin,
            told_of_edits(old(self).doc, final(self).doc),
    {
        reveal(EditorView::ex_named_more);
        let name = &ex.name;
        if command_prefix(name, "version") {
            self.tell("standalone");
            self.end_change();
        } else if command_prefix(name, "features") {
            self.ex_features();
            self.end_change();
        } else if command_prefix(name, "list") {
            self.ex_list(ex);
            self.end_change();
        } else if command_prefix(name, "delete") {
            self.ex_delete(ex);
            self.end_change();
        } else if command_prefix(name, "yank") {
            self.ex_yank(ex);
            self.end_change();
        } else if command_prefix(name, "read") {
            self.ex_read(ex);
        } else if name[0] == 's' {
            self.substitute(&ex.args, ex.addresses);
            self.end_change();
        } else {
            self.set_error(not_implemented_text(text_from(name).as_str()));
            self.end_change();
        }
    }

    /// Executes a colon command. Where it needs a file, `file_request` tells
    /// what is to be done; the command goes on once the host has answered.
    pub fn execute_ex(&mut self, command: &str)
        requires
            old(self)@.wf(),
        ensures
            final(self)@ == old(self)@.ex_executed(command@),
            final(self)@.wf(),
            final(self)@.doc.origin == old(self)@.doc.origin,
            told_of_edits(old(self).doc, final(self).doc),
    {
        let line = trimmed(&drop_colons(&chars_of(command)));
        let total: usize = line.len();
        if total == 0 {
            return;
        }
        self.clear_status();
        let register = self.registers.selected;
        self.registers.selected = None;
        let bang = line[total - 1] == '!';
        let body = if bang {
            char_range(&line, 0, total - 1)
        } else {
            line
        };
        assert(line@.subrange(0, total - 1) =~= line@.drop_last());
        match parse_ex(
            &body,
            self.doc.row,
            &self.doc.lines,
            self.options.ignorecase,
            &self.input.marks,
            &mut self.input.search,
        ) {
            Err(message) => {
                self.set_error(message);
            },
            Ok(parsed) => {
                let inner = parsed.args.len() > 0 && parsed.args[0] == '!';
                let args = if inner {
                    trimmed_start(&char_range(&parsed.args, 1, parsed.args.len()))
                } else {
                    parsed.args
                };
                let ex = ExCommand {
                    addresses: parsed.addresses,
                    name: parsed.name,
                    args,
                    force: bang || inner,
                    body,
                    register,
                };
                self.ex_named(&ex);
            },
        }
    }
}

fn drop_colons(command: &[char]) -> (r: Vec<char>)
    ensures
        r@ == without_colons(command@),
{
    let total: usize = command.len();
    let mut i: usize = 0;
    assert(command@.subrange(0, total as int) =~= command@);
    while i < total && command[i] == ':'
        invariant
            i <= total == command@.len(),
            without_colons(command@.subrange(i as int, total as int)) == without_colons(command@),
        decreases total - i,
    {
        let ghost rest = command@.subrange(i as int, total as int);
        assert(rest.subrange(1, rest.len() as int) =~= command@.subrange(i + 1, total as int));
        i += 1;
    }
    char_range(command, i, total)
}

} // verus!
