//! One key at a time: beginning commands, going on with them, typing a line,
//! repeating a change, and going on once the host has answered.
use crate::address::{bad_pattern_message, bad_pattern_text};
use crate::bytes::{copy_bytes, copy_range, fit, imax, imin, is_digit, is_lower, max_of, min_of};
use crate::document::{told_of_edits, unedited, DocView};
use crate::editor::{
    Await, Editor, EditorView, InputView, Operator, PromptKind, RegistersView, StatusView,
};
use crate::excmd::{lines_to_add, quoted};
use crate::files::{
    request_of, AfterWrite, FileRequest, FilesView, LoadReply, ReadReply, RequestView, WriteReply,
};
use crate::messages::{file_message, format_file_status, Mode};
use crate::motion::{search_from, search_target};
use crate::pattern::{error_of, pattern_error};
use crate::strings::{chars_of, copy_str, latin_of, latin_text};
use crate::syntax::noted_between;
use vstd::prelude::*;
use vstd::string::*;

verus! {

broadcast use crate::syntax::group_noted;

/// Whether a text holds another one somewhere.
pub open spec fn contains_text(text: Seq<char>, part: Seq<char>) -> bool {
    exists|i: int| #[trigger] holds_text(text, part, i)
}

/// Whether a text holds another one at a place.
pub open spec fn holds_text(text: Seq<char>, part: Seq<char>, at: int) -> bool {
    0 <= at && at + part.len() <= text.len() && text.subrange(at, at + part.len()) == part
}

impl EditorView {
    /// A line is typed from now on.
    #[verifier::opaque]
    pub open spec fn prompting(self, kind: PromptKind) -> EditorView {
        EditorView {
            input: InputView {
                awaiting: Await::Prompt { kind },
                typed: Seq::empty(),
                ..self.input
            },
            ..self
        }.synced()
    }

    /// The outcome of a search for a pattern.
    #[verifier::opaque]
    pub open spec fn searched(self, pattern: Seq<u8>, forward: bool) -> EditorView {
        match search_target(
            self.doc.lines,
            self.doc.row,
            self.doc.col,
            pattern,
            forward,
            self.options.ignorecase,
        ) {
            None => self.failed("Pattern not found"@),
            Some((row, col, wrapped)) => if wrapped {
                self.at(row, col).failed(
                    if forward {
                        "search hit BOTTOM, continuing at TOP"@
                    } else {
                        "search hit TOP, continuing at BOTTOM"@
                    },
                )
            } else {
                self.at(row, col)
            },
        }
    }

    /// `n` and `N`: the last search again, or the other way round.
    #[verifier::opaque]
    pub open spec fn searched_again(self, same: bool) -> EditorView {
        match self.input.search {
            None => self.failed("No previous search"@),
            Some((pattern, forward)) => self.searched(pattern, forward == same),
        }
    }

    /// A pattern entered behind `/` or `?`. An empty one stands for the last.
    #[verifier::opaque]
    pub open spec fn search_entered(self, typed: Seq<u8>, forward: bool) -> EditorView {
        let wanted = if typed.len() > 0 {
            Some(typed)
        } else {
            match self.input.search {
                Some((pattern, _)) => Some(pattern),
                None => None,
            }
        };
        match wanted {
            None => self.failed("No previous search"@),
            Some(pattern) => {
                let known = EditorView {
                    input: InputView { search: Some((pattern, forward)), ..self.input },
                    ..self
                };
                match error_of(pattern) {
                    Some(error) => known.failed(bad_pattern_message(pattern, error)),
                    None => known.searched(pattern, forward),
                }
            },
        }
    }

    /// `;` and `,`: the last search for a character again, or the other way
    /// round.
    #[verifier::opaque]
    pub open spec fn character_again(self, same: bool) -> EditorView {
        match self.input.char_search {
            Some((key, forward, till)) => self.at_character(key, forward == same, till),
            None => self,
        }
    }

    /// The register that was selected is used up.
    pub open spec fn register_used(self) -> EditorView {
        EditorView { registers: RegistersView { selected: None, ..self.registers }, ..self }
    }

    /// What a key begins in command mode, apart from repeating a change.
    pub open spec fn command_begun(self, key: u8) -> EditorView {
        if key == 27 {
            self
        } else if key == 3 {
            self.failed("Interrupted"@)
        } else if key == 26 {
            self.failed("Suspend is unavailable in safe standalone mode"@)
        } else if key == 34 {
            self.awaiting(Await::Register)
        } else if key == 58 {
            self.prompting(PromptKind::Command)
        } else {
            self.register_used().command_begun_with(key, self.registers.selected)
        }
    }

    /// What the other keys begin, with the register that was selected.
    pub open spec fn command_begun_with(self, key: u8, register: Option<u8>) -> EditorView {
        if key == 47 || key == 63 {
            self.prompting(PromptKind::Search { forward: key == 47 })
        } else if key == 110 || key == 78 {
            self.searched_again(key == 110)
        } else if key == 102 || key == 70 || key == 116 || key == 84 {
            self.awaiting(
                Await::Find {
                    forward: key == 102 || key == 116,
                    till: key == 116 || key == 84,
                },
            )
        } else if key == 59 || key == 44 {
            self.character_again(key == 59)
        } else if key == 117 {
            self.undone()
        } else if key == 18 {
            self.redone()
        } else if 49 <= key <= 57 {
            self.awaiting(Await::Count { count: (key - 48) as usize, register })
        } else {
            self.dispatched(key, 1, register)
        }
    }

    /// `.`: the first key of the last change begins a command again; the other
    /// ones follow once it is done. A change that begins with `.` itself
    /// repeats nothing.
    #[verifier::opaque]
    pub open spec fn repeated(self) -> EditorView {
        let keys = self.input.last_change;
        let ready = EditorView {
            input: InputView {
                replaying: true,
                replay: Some(keys.subrange(1, keys.len() as int)),
                ..self.input
            },
            ..self.register_used()
        };
        if keys[0] == 46 {
            ready
        } else {
            ready.command_begun(keys[0])
        }
    }

    /// What a key does in command mode.
    pub open spec fn command_key(self, key: u8) -> EditorView {
        if key == 46 && self.input.last_change.len() > 0 {
            self.repeated()
        } else {
            self.command_begun(key)
        }
    }

    /// What follows `Z`.
    #[verifier::opaque]
    pub open spec fn closed(self, key: u8) -> EditorView {
        if key == 81 {
            self.with_files(FilesView { quit: true, force_quit: true, ..self.files })
        } else if key == 90 {
            if !self.doc.modified {
                self.quit_unless_left(false)
            } else {
                match self.write_asked(None, false, None, AfterWrite::Close) {
                    Ok(request) => self.asking(request),
                    Err(message) => if self.files.filename is None {
                        self.cleared()
                    } else {
                        self.failed(message)
                    },
                }
            }
        } else {
            self
        }
    }

    /// A register selected.
    pub open spec fn register_named(self, key: u8) -> EditorView {
        if is_lower(key) {
            EditorView {
                registers: RegistersView { selected: Some(key), ..self.registers },
                ..self
            }
        } else {
            self
        }
    }

    /// One more digit of a count, or the command behind it.
    pub open spec fn counted(self, count: usize, register: Option<u8>, key: u8) -> EditorView {
        if is_digit(key) {
            self.awaiting(
                Await::Count { count: fit(count * 10 + (key - 48)) as usize, register },
            )
        } else {
            self.dispatched(key, imax(count as int, 1), register)
        }
    }

    /// The second `>` or `<`.
    pub open spec fn shift_key(self, right: bool, count: usize, key: u8) -> EditorView {
        if key == (if right {
            62u8
        } else {
            60u8
        }) {
            self.with_doc(
                self.doc.begun().rows_shifted(
                    self.doc.row,
                    imin(fit(self.doc.row + count), self.doc.lines.len() as int),
                    right,
                    self.options.tabstop as int,
                ).ended(),
            )
        } else {
            self
        }
    }

    /// The line that is being typed is another one.
    pub open spec fn typing_line(self, kind: PromptKind, typed: Seq<u8>) -> EditorView {
        EditorView {
            input: InputView { awaiting: Await::Prompt { kind }, typed, ..self.input },
            ..self
        }.synced()
    }

    /// A key while a line is being typed: return enters the line, escape gives
    /// it up, and the visible part of the text follows the cursor meanwhile.
    #[verifier::opaque]
    pub open spec fn prompt_key(self, kind: PromptKind, key: u8) -> EditorView {
        let typed = self.input.typed;
        let done = EditorView { input: InputView { typed: Seq::empty(), ..self.input }, ..self };
        if key == 13 || key == 10 {
            match kind {
                PromptKind::Command => done.ex_executed(latin_text(typed)),
                PromptKind::Search { forward } => done.search_entered(typed, forward),
            }
        } else if key == 27 {
            done
        } else if key == 8 || key == 127 {
            self.typing_line(
                kind,
                if typed.len() > 0 {
                    typed.drop_last()
                } else {
                    typed
                },
            )
        } else if 32 <= key < 127 {
            self.typing_line(kind, typed.push(key))
        } else {
            self.typing_line(kind, typed)
        }
    }

    /// What a key does where a command waits for it.
    #[verifier::opaque]
    pub open spec fn resumed(self, key: u8) -> EditorView {
        let going = self.awaiting(Await::Nothing);
        match self.input.awaiting {
            Await::Nothing => going,
            Await::Register => going.register_named(key),
            Await::Count { count, register } => going.counted(count, register, key),
            Await::Find { forward, till } => going.looking_for(key, forward, till).at_character(
                key,
                forward,
                till,
            ),
            Await::Replace { count } => going.bytes_overwritten(key, count as int),
            Await::Shift { right, count } => going.shift_key(right, count, key),
            Await::Close => going.closed(key),
            Await::Scroll => going.line_placed(key),
            Await::Go => going.gone(key),
            Await::SetMark => going.mark_set(key),
            Await::GotoMark { line } => going.at_mark(key, line),
            Await::Operator { op, count, register } => going.operator_key(
                op,
                imax(count as int, 1),
                register,
                key,
            ),
            Await::OperatorFind { op, register, forward, till } => going.operator_found(
                op,
                register,
                forward,
                till,
                key,
            ),
            Await::OperatorGo { op, register } => going.operator_gone(op, register, key),
            Await::Prompt { kind } => going.prompt_key(kind, key),
        }
    }

    /// Keys typed one after the other as text, from key `at` on.
    pub open spec fn keys_typed(self, keys: Seq<u8>, at: int) -> EditorView
        decreases keys.len() - at,
    {
        if at < 0 || at >= keys.len() {
            self
        } else {
            self.typed(keys[at], false).keys_typed(keys, at + 1)
        }
    }

    /// The rest of a change that is being repeated, once the command that it
    /// began with is done. Typing ends with it.
    #[verifier::opaque]
    pub open spec fn settled(self) -> EditorView {
        match self.input.replay {
            Some(keys) => if self.input.awaiting is Nothing && self.files.request is None {
                let typed = EditorView {
                    input: InputView { replay: None, ..self.input },
                    ..self
                }.keys_typed(keys, 0);
                let done = if typed.input.mode != Mode::Command {
                    typed.typed(27, false)
                } else {
                    typed
                };
                EditorView { input: InputView { replaying: false, ..done.input }, ..done }
            } else {
                self
            },
            None => self,
        }
    }

    /// A key while the editor waits for return.
    pub open spec fn return_awaited(self, key: u8) -> EditorView {
        if key == 13 || key == 10 {
            EditorView { message: StatusView { hit_return: false, ..self.message }, ..self }
                .cleared()
        } else {
            self
        }
    }

    /// What a key does, up to a change that is being repeated.
    #[verifier::opaque]
    pub open spec fn key_handled(self, key: u8, special: bool) -> EditorView {
        if !(self.input.awaiting is Nothing) {
            self.resumed(key)
        } else if self.message.hit_return {
            self.return_awaited(key)
        } else if self.input.mode == Mode::Command {
            self.cleared().command_key(key)
        } else {
            self.cleared().typed(key, special)
        }
    }

    /// What a key does.
    pub open spec fn key_pressed(self, key: u8, special: bool) -> EditorView {
        self.key_handled(key, special).settled()
    }

    /// The message about a write that failed, as `ZZ` shows it.
    pub open spec fn close_failed(self, message: Seq<char>, detail: Seq<char>) -> EditorView {
        if contains_text(message, " is read only"@) {
            self.failed(message)
        } else {
            self.failed("Write error: "@ + detail)
        }
    }

    /// A file written: it is the one that is edited from now on, and the text
    /// is the same as the file where all of it was written.
    #[verifier::opaque]
    pub open spec fn written(
        self,
        path: Seq<char>,
        data: Seq<u8>,
        ranged: bool,
        after: AfterWrite,
    ) -> EditorView {
        EditorView {
            files: FilesView { filename: Some(path), ..self.files },
            doc: DocView { modified: self.doc.modified && ranged, ..self.doc },
            ..self
        }.told(file_message(path, data, false, false)).after_write(after)
    }

    /// A write that failed.
    #[verifier::opaque]
    pub open spec fn write_failed(
        self,
        message: Seq<char>,
        detail: Seq<char>,
        after: AfterWrite,
    ) -> EditorView {
        if after == AfterWrite::Close {
            self.close_failed(message, detail)
        } else {
            self.failed(message)
        }
    }

    /// A write that was done or failed.
    #[verifier::opaque]
    pub open spec fn write_done(
        self,
        path: Seq<char>,
        data: Seq<u8>,
        ranged: bool,
        after: AfterWrite,
        reply: WriteReply,
    ) -> EditorView {
        match reply {
            WriteReply::Written => self.written(path, data, ranged, after),
            WriteReply::Exists => self.write_failed(
                "File exists (:w! overrides)"@,
                "File exists (:w! overrides)"@,
                after,
            ),
            WriteReply::Failed(error) => self.write_failed(
                quoted(path, " "@ + error@),
                error@,
                after,
            ),
        }
    }

    /// The editor once the host has answered a write.
    pub open spec fn write_replied(self, reply: WriteReply) -> EditorView {
        match self.files.request {
            Some(RequestView::Write { path, data, guard, ranged, after }) => {
                let done = self.answered().write_done(path, data, ranged, after, reply);
                if after == AfterWrite::Close {
                    done.settled()
                } else {
                    done.ended().settled()
                }
            },
            _ => self,
        }
    }

    /// A file that exists: its text in place of the one before.
    #[verifier::opaque]
    pub open spec fn file_loaded(self, data: Seq<u8>, write_protected: bool) -> EditorView {
        EditorView {
            files: FilesView { readonly: self.files.readonly || write_protected, ..self.files },
            ..self
        }.loaded(data)
    }

    /// A file that does not exist yet: an empty line in place of the text.
    #[verifier::opaque]
    pub open spec fn file_missing(self) -> EditorView {
        let empty = self.loaded(Seq::empty());
        empty.with_doc(empty.doc.newline_ended())
    }

    /// The text is what is in the file.
    pub open spec fn unmodified(self) -> EditorView {
        self.with_doc(DocView { modified: false, ..self.doc })
    }

    /// The file's text in place of the one before, unchanged so far.
    #[verifier::opaque]
    pub open spec fn load_done(self, reply: LoadReply) -> EditorView {
        match reply {
            LoadReply::Loaded { data, write_protected } => self.file_loaded(
                data@,
                write_protected,
            ),
            LoadReply::Missing => self.file_missing(),
        }.cleared().unmodified()
    }

    /// The message about the file that is edited.
    pub open spec fn file_told(self, new_file: bool) -> EditorView {
        self.told(
            file_message(
                crate::files::name_or_empty(self.files.filename),
                self.doc.bytes(),
                new_file,
                self.files.readonly,
            ),
        )
    }

    /// The editor once the host has answered a load.
    pub open spec fn load_replied(self, reply: LoadReply) -> EditorView {
        match self.files.request {
            Some(RequestView::Load { path, tell }) => {
                let done = self.answered().load_done(reply);
                if tell {
                    done.file_told(reply is Missing).ended().settled()
                } else {
                    done.settled()
                }
            },
            _ => self,
        }
    }

    /// A file's lines put into the text.
    #[verifier::opaque]
    pub open spec fn read_done(self, path: Seq<char>, at: int, reply: ReadReply) -> EditorView {
        match reply {
            ReadReply::Data(data) => {
                let place = imin(at, self.doc.lines.len() as int);
                self.with_doc(
                    self.doc.begun().lines_replaced(place, place, lines_to_add(data@)),
                ).told(file_message(path, data@, false, self.files.readonly))
            },
            ReadReply::NotRegular => self.failed(quoted(path, " is not a regular file"@)),
            ReadReply::Failed(error) => self.failed(quoted(path, " "@ + error@)),
        }
    }

    /// The editor once the host has answered a read.
    pub open spec fn read_replied(self, reply: ReadReply) -> EditorView {
        match self.files.request {
            Some(RequestView::Read { path, at }) => self.answered().read_done(
                path,
                at,
                reply,
            ).ended().settled(),
            _ => self,
        }
    }
}

impl Editor {
    fn set_await(&mut self, awaiting: Await)
        ensures
            final(self)@ == old(self)@.awaiting(awaiting),
            unedited(old(self).doc, final(self).doc),
    {
        self.input.awaiting = awaiting;
    }

    fn open_prompt(&mut self, kind: PromptKind)
        requires
            old(self)@.wf(),
        ensures
            final(self)@ == old(self)@.prompting(kind),
            final(self)@.wf(),
            final(self)@.doc.origin == old(self)@.doc.origin,
            unedited(old(self).doc, final(self).doc),
    {
        reveal(EditorView::prompting);
        self.input.awaiting = Await::Prompt { kind };
        self.input.typed = Vec::new();
        self.sync_screen();
    }

    fn search(&mut self, pattern: &[u8], forward: bool)
        requires
            old(self)@.wf(),
        ensures
            final(self)@ == old(self)@.searched(pattern@, forward),
            final(self)@.wf(),
            final(self)@.doc.origin == old(self)@.doc.origin,
            unedited(old(self).doc, final(self).doc),
    {
        reveal(EditorView::searched);
        match search_from(
            &self.doc.lines,
            self.doc.row,
            self.doc.col,
            pattern,
            forward,
            self.options.ignorecase,
        ) {
            None => {
                self.fail("Pattern not found");
            },
            Some((row, col, wrapped)) => {
                self.doc.row = row;
                self.doc.col = col;
                if wrapped {
                    if forward {
                        self.fail("search hit BOTTOM, continuing at TOP");
                    } else {
                        self.fail("search hit TOP, continuing at BOTTOM");
                    }
                }
            },
        }
    }

    fn search_again(&mut self, same: bool)
        requires
            old(self)@.wf(),
        ensures
            final(self)@ == old(self)@.searched_again(same),
            final(self)@.wf(),
            final(self)@.doc.origin == old(self)@.doc.origin,
            unedited(old(self).doc, final(self).doc),
    {
        reveal(EditorView::searched_again);
        let last: Option<(Vec<u8>, bool)> = match self.input.search.as_ref() {
            Some((pattern, forward)) => Some((copy_bytes(pattern), *forward)),
            None => None,
        };
        match last {
            None => {
                self.fail("No previous search");
            },
            Some((pattern, forward)) => {
                self.search(&pattern, forward == same);
            },
        }
    }

    fn enter_search(&mut self, typed: Vec<u8>, forward: bool)
        requires
            old(self)@.wf(),
        ensures
            final(self)@ == old(self)@.search_entered(typed@, forward),
            final(self)@.wf(),
            final(self)@.doc.origin == old(self)@.doc.origin,
            unedited(old(self).doc, final(self).doc),
    {
        reveal(EditorView::search_entered);
        let pattern: Vec<u8> = if typed.len() > 0 {
            typed
        } else {
            match self.input.search.as_ref() {
                Some((pattern, _)) => copy_bytes(pattern),
                None => {
                    self.fail("No previous search");
                    return;
                },
            }
        };
        self.input.search = Some((copy_bytes(&pattern), forward));
        match pattern_error(&pattern) {
            Some(error) => {
                self.set_error(bad_pattern_text(&pattern, error));
            },
            None => {
                self.search(&pattern, forward);
            },
        }
    }

    fn find_again(&mut self, same: bool)
        requires
            old(self)@.wf(),
        ensures
            final(self)@ == old(self)@.character_again(same),
            final(self)@.wf(),
            final(self)@.doc.origin == old(self)@.doc.origin,
            unedited(old(self).doc, final(self).doc),
    {
        reveal(EditorView::character_again);
        if let Some((key, forward, till)) = self.input.char_search {
            self.go_to_character(key, forward == same, till);
        }
    }

    /// Begins a command, apart from repeating a change.
    pub fn begin_command(&mut self, key: u8)
        requires
            old(self)@.wf(),
        ensures
            final(self)@ == old(self)@.command_begun(key),
            final(self)@.wf(),
            final(self)@.origin_kept(old(self)@),
            told_of_edits(old(self).doc, final(self).doc),
    {
        if key == 27 {
        } else if key == 3 {
            self.fail("Interrupted");
        } else if key == 26 {
            self.fail("Suspend is unavailable in safe standalone mode");
        } else if key == 34 {
            self.set_await(Await::Register);
        } else if key == 58 {
            self.open_prompt(PromptKind::Command);
        } else {
            let register = self.use_register();
            self.begin_command_with(key, register);
        }
    }

    fn use_register(&mut self) -> (r: Option<u8>)
        requires
            old(self)@.wf(),
        ensures
            final(self)@ == old(self)@.register_used(),
            final(self)@.wf(),
            final(self)@.doc.origin == old(self)@.doc.origin,
            r == old(self)@.registers.selected,
            unedited(old(self).doc, final(self).doc),
    {
        let register = self.registers.selected;
        self.registers.selected = None;
        register
    }

    fn begin_command_with(&mut self, key: u8, register: Option<u8>)
        requires
            old(self)@.wf(),
        ensures
            final(self)@ == old(self)@.command_begun_with(key, register),
            final(self)@.wf(),
            final(self)@.origin_kept(old(self)@),
            told_of_edits(old(self).doc, final(self).doc),
    {
        if key == 47 || key == 63 {
            self.open_prompt(PromptKind::Search { forward: key == 47 });
        } else if key == 110 || key == 78 {
            self.search_again(key == 110);
        } else if key == 102 || key == 70 || key == 116 || key == 84 {
            self.set_await(
                Await::Find {
                    forward: key == 102 || key == 116,
                    till: key == 116 || key == 84,
                },
            );
        } else if key == 59 || key == 44 {
            self.find_again(key == 59);
        } else if key == 117 {
            self.undo();
        } else if key == 18 {
            self.redo();
        } else if 49 <= key && key <= 57 {
            self.set_await(Await::Count { count: (key - 48) as usize, register });
        } else {
            self.dispatch(key, 1, register);
        }
    }

    fn repeat(&mut self)
        requires
            old(self)@.wf(),
            old(self)@.input.last_change.len() > 0,
        ensures
            final(self)@ == old(self)@.repeated(),
            final(self)@.wf(),
            final(self)@.origin_kept(old(self)@),
            told_of_edits(old(self).doc, final(self).doc),
    {
        reveal(EditorView::repeated);
        let _ = self.use_register();
        let total: usize = self.input.last_change.len();
        let first: u8 = self.input.last_change[0];
        let rest = copy_range(&self.input.last_change, 1, total);
        self.input.replaying = true;
        self.input.replay = Some(rest);
        if first != 46 {
            self.begin_command(first);
        }
    }

    /// What a key does in command mode.
    pub fn handle_command(&mut self, key: u8)
        requires
            old(self)@.wf(),
        ensures
            final(self)@ == old(self)@.command_key(key),
            final(self)@.wf(),
            final(self)@.origin_kept(old(self)@),
            told_of_edits(old(self).doc, final(self).doc),
    {
        if key == 46 && self.input.last_change.len() > 0 {
            self.repeat();
        } else {
            self.begin_command(key);
        }
    }

    fn close(&mut self, key: u8)
        requires
            old(self)@.wf(),
        ensures
            final(self)@ == old(self)@.closed(key),
            final(self)@.wf(),
            final(self)@.doc.origin == old(self)@.doc.origin,
            told_of_edits(old(self).doc, final(self).doc),
    {
        reveal(EditorView::closed);
        if key == 81 {
            self.files.quit = true;
            self.files.force_quit = true;
        } else if key == 90 {
            if !self.doc.modified {
                self.quit_unless_left(false);
            } else {
                match self.ask_write(None, false, None, AfterWrite::Close) {
                    Ok(request) => {
                        self.files.request = Some(request);
                    },
                    Err(message) => {
                        if self.files.filename.is_none() {
                            self.clear_status();
                        } else {
                            self.set_error(message);
                        }
                    },
                }
            }
        }
    }

    fn name_register(&mut self, key: u8)
        ensures
            final(self)@ == old(self)@.register_named(key),
            unedited(old(self).doc, final(self).doc),
    {
        if is_lower(key) {
            self.registers.selected = Some(key);
        }
    }

    fn count_on(&mut self, count: usize, register: Option<u8>, key: u8)
        requires
            old(self)@.wf(),
        ensures
            final(self)@ == old(self)@.counted(count, register, key),
            final(self)@.wf(),
            final(self)@.origin_kept(old(self)@),
            told_of_edits(old(self).doc, final(self).doc),
    {
        if is_digit(key) {
            let more: u128 = count as u128 * 10 + (key - 48) as u128;
            let limited: usize = if more > usize::MAX as u128 {
                usize::MAX
            } else {
                more as usize
            };
            self.set_await(Await::Count { count: limited, register });
        } else {
            self.dispatch(key, max_of(count, 1), register);
        }
    }

    fn shift_on(&mut self, right: bool, count: usize, key: u8)
        requires
            old(self)@.wf(),
        ensures
            final(self)@ == old(self)@.shift_key(right, count, key),
            final(self)@.wf(),
            final(self)@.doc.origin == old(self)@.doc.origin,
            told_of_edits(old(self).doc, final(self).doc),
    {
        let second: u8 = if right {
            62
        } else {
            60
        };
        if key == second {
            self.shift_lines(count, right);
        }
    }

    fn type_line(&mut self, kind: PromptKind, typed: Vec<u8>)
        requires
            old(self)@.wf(),
        ensures
            final(self)@ == old(self)@.typing_line(kind, typed@),
            final(self)@.wf(),
            final(self)@.doc.origin == old(self)@.doc.origin,
            unedited(old(self).doc, final(self).doc),
    {
        self.input.awaiting = Await::Prompt { kind };
        self.input.typed = typed;
        self.sync_screen();
    }

    fn prompt_key(&mut self, kind: PromptKind, key: u8)
        requires
            old(self)@.wf(),
        ensures
            final(self)@ == old(self)@.prompt_key(kind, key),
            final(self)@.wf(),
            final(self)@.doc.origin == old(self)@.doc.origin,
            told_of_edits(old(self).doc, final(self).doc),
    {
        reveal(EditorView::prompt_key);
        let mut typed = copy_bytes(&self.input.typed);
        if key == 13 || key == 10 {
            self.input.typed = Vec::new();
            match kind {
                PromptKind::Command => {
                    let command = latin_of(&typed);
                    self.execute_ex(command.as_str());
                },
                PromptKind::Search { forward } => {
                    self.enter_search(typed, forward);
                },
            }
        } else if key == 27 {
            self.input.typed = Vec::new();
        } else if key == 8 || key == 127 {
            let _ = typed.pop();
            self.type_line(kind, typed);
        } else if 32 <= key && key < 127 {
            typed.push(key);
            self.type_line(kind, typed);
        } else {
            self.type_line(kind, typed);
        }
    }

    /// What a key does where a command waits for it.
    pub fn resume(&mut self, key: u8)
        requires
            old(self)@.wf(),
        ensures
            final(self)@ == old(self)@.resumed(key),
            final(self)@.wf(),
            final(self)@.origin_kept(old(self)@),
            told_of_edits(old(self).doc, final(self).doc),
    {
        reveal(EditorView::resumed);
        let awaiting = self.input.awaiting;
        self.set_await(Await::Nothing);
        match awaiting {
            Await::Nothing => {},
            Await::Register => {
                self.name_register(key);
            },
            Await::Count { count, register } => {
                self.count_on(count, register, key);
            },
            Await::Find { forward, till } => {
                self.finish_find(key, forward, till);
            },
            Await::Replace { count } => {
                self.overwrite_bytes(key, count);
            },
            Await::Shift { right, count } => {
                self.shift_on(right, count, key);
            },
            Await::Close => {
                self.close(key);
            },
            Await::Scroll => {
                self.finish_scroll(key);
            },
            Await::Go => {
                self.finish_go(key);
            },
            Await::SetMark => {
                self.set_mark(key);
            },
            Await::GotoMark { line } => {
                self.go_to_mark(key, line);
            },
            Await::Operator { op, count, register } => {
                self.finish_operator(op, max_of(count, 1), register, key);
            },
            Await::OperatorFind { op, register, forward, till } => {
                self.finish_operator_find(op, register, forward, till, key);
            },
            Await::OperatorGo { op, register } => {
                self.finish_operator_go(op, register, key);
            },
            Await::Prompt { kind } => {
                self.prompt_key(kind, key);
            },
        }
    }

    fn type_keys(&mut self, keys: &Vec<u8>)
        requires
            old(self)@.wf(),
        ensures
            final(self)@ == old(self)@.keys_typed(keys@, 0),
            final(self)@.wf(),
            final(self)@.doc.origin == old(self)@.doc.origin,
            told_of_edits(old(self).doc, final(self).doc),
    {
        let ghost start = self@;
        let mut i: usize = 0;
        while i < keys.len()
            invariant
                i <= keys@.len(),
                self@.wf(),
                self@.doc.origin == old(self)@.doc.origin,
                told_of_edits(old(self).doc, self.doc),
                self@.keys_typed(keys@, i as int) == start.keys_typed(keys@, 0),
            decreases keys@.len() - i,
        {
            self.handle_insert(keys[i], false);
            i += 1;
        }
    }

    fn is_idle(&self) -> (r: bool)
        ensures
            r == (self@.input.awaiting is Nothing && self@.files.request is None),
    {
        let idle = match self.input.awaiting {
            Await::Nothing => true,
            _ => false,
        };
        idle && self.files.request.is_none()
    }

    /// Types the rest of a change that is being repeated, once the command
    /// that it began with is done.
    fn settle(&mut self)
        requires
            old(self)@.wf(),
        ensures
            final(self)@ == old(self)@.settled(),
            final(self)@.wf(),
            final(self)@.doc.origin == old(self)@.doc.origin,
            told_of_edits(old(self).doc, final(self).doc),
    {
        reveal(EditorView::settled);
        if self.is_idle() {
            if let Some(keys) = self.input.replay.take() {
                self.type_keys(&keys);
                if self.input.mode != Mode::Command {
                    self.handle_insert(27, false);
                }
                self.input.replaying = false;
            }
        }
    }

    fn await_return(&mut self, key: u8)
        ensures
            final(self)@ == old(self)@.return_awaited(key),
            unedited(old(self).doc, final(self).doc),
    {
        if key == 13 || key == 10 {
            self.message.hit_return = false;
            self.clear_status();
        }
    }

    /// Hands a key to what it is for.
    fn handle_key(&mut self, key: u8, special: bool)
        requires
            old(self)@.wf(),
        ensures
            final(self)@ == old(self)@.key_handled(key, special),
            final(self)@.wf(),
            final(self)@.origin_kept(old(self)@),
            told_of_edits(old(self).doc, final(self).doc),
    {
        reveal(EditorView::key_handled);
        let waiting = match self.input.awaiting {
            Await::Nothing => false,
            _ => true,
        };
        if waiting {
            self.resume(key);
        } else if self.message.hit_return {
            self.await_return(key);
        } else {
            self.clear_status();
            if self.input.mode == Mode::Command {
                self.handle_command(key);
            } else {
                self.handle_insert(key, special);
            }
        }
    }

    /// Takes one key. A key is special where it came from a key without a
    /// character and not from the text.
    pub fn press(&mut self, key: u8, special: bool)
        requires
            old(self)@.wf(),
        ensures
            final(self)@ == old(self)@.key_pressed(key, special),
            final(self)@.wf(),
            final(self)@.origin_kept(old(self)@),
            told_of_edits(old(self).doc, final(self).doc),
    {
        self.handle_key(key, special);
        self.settle();
    }

    fn note_written(&mut self, path: String, data: Vec<u8>, ranged: bool, after: AfterWrite)
        requires
            old(self)@.wf(),
        ensures
            final(self)@ == old(self)@.written(path@, data@, ranged, after),
            final(self)@.wf(),
            final(self)@.doc.origin == old(self)@.doc.origin,
            unedited(old(self).doc, final(self).doc),
    {
        reveal(EditorView::written);
        let message = format_file_status(path.as_str(), &data, false, false);
        let ghost start = self@;
        self.files.filename = Some(path);
        if !ranged {
            self.doc.modified = false;
        }
        assert(self@ == (EditorView {
            files: FilesView { filename: Some(path@), ..start.files },
            doc: DocView { modified: start.doc.modified && ranged, ..start.doc },
            ..start
        }));
        self.set_status(message);
        self.finish_after_write(after);
    }

    fn note_write_failed(&mut self, message: String, detail: &str, after: AfterWrite)
        requires
            old(self)@.wf(),
        ensures
            final(self)@ == old(self)@.write_failed(message@, detail@, after),
            final(self)@.wf(),
            final(self)@.doc.origin == old(self)@.doc.origin,
            unedited(old(self).doc, final(self).doc),
    {
        reveal(EditorView::write_failed);
        if after == AfterWrite::Close && !has_text(message.as_str(), " is read only") {
            let mut text = copy_str("Write error: ");
            text.append(detail);
            self.set_error(text);
        } else {
            self.set_error(message);
        }
    }

    fn note_write(
        &mut self,
        path: String,
        data: Vec<u8>,
        ranged: bool,
        after: AfterWrite,
        reply: WriteReply,
    )
        requires
            old(self)@.wf(),
        ensures
            final(self)@ == old(self)@.write_done(path@, data@, ranged, after, reply),
            final(self)@.wf(),
            final(self)@.doc.origin == old(self)@.doc.origin,
            unedited(old(self).doc, final(self).doc),
    {
        reveal(EditorView::write_done);
        match reply {
            WriteReply::Written => {
                self.note_written(path, data, ranged, after);
            },
            WriteReply::Exists => {
                self.note_write_failed(
                    copy_str("File exists (:w! overrides)"),
                    "File exists (:w! overrides)",
                    after,
                );
            },
            WriteReply::Failed(error) => {
                let mut rest = copy_str(" ");
                rest.append(error.as_str());
                let message = crate::excmd::quote(path.as_str(), rest.as_str());
                self.note_write_failed(message, error.as_str(), after);
            },
        }
    }

    /// Takes the request away that the host has answered.
    fn take_request(&mut self) -> (r: Option<FileRequest>)
        ensures
            final(self)@ == old(self)@.answered(),
            request_of(r) == old(self)@.files.request,
            old(self)@.wf() ==> final(self)@.wf(),
            unedited(old(self).doc, final(self).doc),
    {
        self.files.request.take()
    }

    /// Puts a request back that the host has yet to answer.
    fn put_request(&mut self, request: Option<FileRequest>)
        ensures
            final(self)@ == old(self)@.with_files(
                (FilesView { request: request_of(request), ..old(self)@.files }),
            ),
            unedited(old(self).doc, final(self).doc),
    {
        self.files.request = request;
    }

    /// The host's answer to a request to write a file.
    pub fn finish_write(&mut self, reply: WriteReply)
        requires
            old(self)@.wf(),
        ensures
            final(self)@ == old(self)@.write_replied(reply),
            final(self)@.wf(),
            final(self)@.doc.origin == old(self)@.doc.origin,
            told_of_edits(old(self).doc, final(self).doc),
    {
        match self.take_request() {
            Some(FileRequest::Write { path, data, guard, ranged, after }) => {
                self.note_write(path, data, ranged, after, reply);
                if after != AfterWrite::Close {
                    self.end_change();
                }
                self.settle();
            },
            other => {
                self.put_request(other);
            },
        }
    }

    fn load_data(&mut self, data: &[u8], write_protected: bool)
        requires
            old(self)@.wf(),
        ensures
            final(self)@ == old(self)@.file_loaded(data@, write_protected),
            final(self)@.wf(),
            old(self)@.doc.unchanged() ==> final(self)@.doc.origin is Some,
            told_of_edits(old(self).doc, final(self).doc),
    {
        reveal(EditorView::file_loaded);
        self.files.readonly = self.files.readonly || write_protected;
        self.set_bytes(data);
    }

    fn load_nothing(&mut self)
        requires
            old(self)@.wf(),
        ensures
            final(self)@ == old(self)@.file_missing(),
            final(self)@.wf(),
            old(self)@.doc.unchanged() ==> final(self)@.doc.origin is Some,
            told_of_edits(old(self).doc, final(self).doc),
    {
        reveal(EditorView::file_missing);
        let none: [u8; 0] = [];
        assert(none@ =~= Seq::<u8>::empty());
        self.set_bytes(&none);
        assert(self@.doc.syntax.noted == old(self)@.doc.syntax.noted + 1);
        self.doc.end_with_newline();
        reveal(noted_between);
    }

    fn note_loaded(&mut self, reply: LoadReply)
        requires
            old(self)@.wf(),
        ensures
            final(self)@ == old(self)@.load_done(reply),
            final(self)@.wf(),
            old(self)@.doc.unchanged() ==> final(self)@.doc.origin is Some,
            told_of_edits(old(self).doc, final(self).doc),
    {
        reveal(EditorView::load_done);
        match reply {
            LoadReply::Loaded { data, write_protected } => {
                self.load_data(&data, write_protected);
            },
            LoadReply::Missing => {
                self.load_nothing();
            },
        }
        self.clear_status();
        self.doc.modified = false;
    }

    fn tell_file(&mut self, new_file: bool)
        ensures
            final(self)@ == old(self)@.file_told(new_file),
            unedited(old(self).doc, final(self).doc),
    {
        let name = match self.files.filename.as_ref() {
            Some(name) => copy_str(name.as_str()),
            None => String::new(),
        };
        let data = self.doc.bytes();
        let message = format_file_status(name.as_str(), &data, new_file, self.files.readonly);
        self.set_status(message);
    }

    /// The host's answer to a request to load the file that is to be edited.
    pub fn finish_load(&mut self, reply: LoadReply)
        requires
            old(self)@.wf(),
        ensures
            final(self)@ == old(self)@.load_replied(reply),
            final(self)@.wf(),
            match old(self)@.files.request {
                Some(RequestView::Load { .. }) => old(self)@.doc.unchanged()
                    ==> final(self)@.doc.origin is Some,
                _ => final(self)@.doc.origin == old(self)@.doc.origin,
            },
            told_of_edits(old(self).doc, final(self).doc),
    {
        match self.take_request() {
            Some(FileRequest::Load { path, tell }) => {
                let new_file = match reply {
                    LoadReply::Missing => true,
                    _ => false,
                };
                self.note_loaded(reply);
                if tell {
                    self.tell_file(new_file);
                    self.end_change();
                }
                self.settle();
            },
            other => {
                self.put_request(other);
            },
        }
    }

    fn note_read(&mut self, path: &str, at: usize, reply: ReadReply)
        requires
            old(self)@.wf(),
        ensures
            final(self)@ == old(self)@.read_done(path@, at as int, reply),
            final(self)@.wf(),
            final(self)@.doc.origin == old(self)@.doc.origin,
            told_of_edits(old(self).doc, final(self).doc),
    {
        reveal(EditorView::read_done);
        match reply {
            ReadReply::Data(data) => {
                let place: usize = min_of(at, self.doc.lines.len());
                let message = format_file_status(path, &data, false, self.files.readonly);
                self.doc.begin_change();
                self.doc.replace_lines(place, place, crate::excmd::lines_added(&data));
                self.set_status(message);
            },
            ReadReply::NotRegular => {
                self.set_error(crate::excmd::quote(path, " is not a regular file"));
            },
            ReadReply::Failed(error) => {
                let mut rest = copy_str(" ");
                rest.append(error.as_str());
                self.set_error(crate::excmd::quote(path, rest.as_str()));
            },
        }
    }

    /// The host's answer to a request to read a file into the text.
    pub fn finish_read(&mut self, reply: ReadReply)
        requires
            old(self)@.wf(),
        ensures
            final(self)@ == old(self)@.read_replied(reply),
            final(self)@.wf(),
            final(self)@.doc.origin == old(self)@.doc.origin,
            told_of_edits(old(self).doc, final(self).doc),
    {
        match self.take_request() {
            Some(FileRequest::Read { path, at }) => {
                self.note_read(path.as_str(), at, reply);
                self.end_change();
                self.settle();
            },
            other => {
                self.put_request(other);
            },
        }
    }
}

/// Whether a text holds another one somewhere.
fn has_text(text: &str, part: &str) -> (r: bool)
    ensures
        r == contains_text(text@, part@),
{
    let chars = chars_of(text);
    let wanted = chars_of(part);
    let total: usize = chars.len();
    let size: usize = wanted.len();
    if size > total {
        return false;
    }
    let mut i: usize = 0;
    while i <= total - size
        invariant
            chars@ == text@,
            wanted@ == part@,
            total == chars@.len(),
            size == wanted@.len(),
            size <= total,
            i <= total - size + 1,
            forall|j: int| 0 <= j < i ==> !#[trigger] holds_text(text@, part@, j),
        decreases total - size + 1 - i,
    {
        let piece = crate::strings::char_range(&chars, i, i + size);
        if crate::strings::same_text(&piece, part) {
            assert(holds_text(text@, part@, i as int));
            return true;
        }
        if i == total - size {
            return false;
        }
        i += 1;
    }
    false
}

} // verus!
