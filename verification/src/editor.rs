//! The state of the editor and the ways to look at it.
use crate::address::{search_of, Marks, Search};
use crate::bytes::{copy_lines, imax, less, less_of, max_of, text_of};
use crate::document::{ranges_read, told_of_edits, unedited, DocView, Document};
use crate::files::{name_of, FileRequest, Files, FilesView, RequestView};
use crate::highlight::HighlightSpan;
use crate::messages::Mode;
use crate::screen::{may_be_host, Platform, Screen, ScreenView};
use crate::selection::{MouseSelection, SelectionPoint};
use crate::strings::{copy_str, decimal_bytes, decimal_bytes_of, decoded, utf8_lossy, utf8_of_str};
use crate::syntax::{
    invalidated_to, lemma_one_noted, told_once, Answers, SyntaxHighlighter, SyntaxView,
};
use std::collections::HashMap;
use std::time::Instant;
use vstd::prelude::*;
use vstd::string::*;
use vstd::utf8::encode_utf8;

verus! {

broadcast use {crate::syntax::group_noted, vstd::std_specs::hash::group_hash_axioms};

/// The options that `:set` knows.
#[derive(Clone, Copy, Debug, PartialEq, Eq)]
pub struct Options {
    pub number: bool,
    pub autoindent: bool,
    pub expandtab: bool,
    pub flash: bool,
    pub ignorecase: bool,
    pub showmatch: bool,
    pub tabstop: usize,
}

/// The options that an editor starts with.
pub open spec fn initial_options() -> Options {
    Options {
        number: false,
        autoindent: false,
        expandtab: false,
        flash: false,
        ignorecase: false,
        showmatch: false,
        tabstop: 8,
    }
}

/// The message on the status line.
pub struct Status {
    pub text: String,
    pub bytes: Vec<u8>,
    pub highlighted: bool,
    pub hit_return: bool,
}

/// The message on the status line.
#[verifier::ext_equal]
pub struct StatusView {
    /// The message as text; empty where there is none.
    pub text: Seq<char>,
    /// The message as it is painted.
    pub bytes: Seq<u8>,
    /// Whether it is shown reversed, as errors are.
    pub highlighted: bool,
    /// Whether the editor waits for return.
    pub hit_return: bool,
}

impl View for Status {
    type V = StatusView;

    open spec fn view(&self) -> StatusView {
        StatusView {
            text: self.text@,
            bytes: self.bytes@,
            highlighted: self.highlighted,
            hit_return: self.hit_return,
        }
    }
}

impl StatusView {
    /// No message.
    pub open spec fn empty() -> StatusView {
        StatusView {
            text: Seq::empty(),
            bytes: Seq::empty(),
            highlighted: false,
            hit_return: false,
        }
    }

    /// The message gone.
    pub open spec fn cleared(self) -> StatusView {
        StatusView { text: Seq::empty(), bytes: Seq::empty(), highlighted: false, ..self }
    }

    /// A message.
    pub open spec fn told(self, text: Seq<char>) -> StatusView {
        StatusView { text, bytes: encode_utf8(text), highlighted: false, ..self }
    }

    /// An error message.
    pub open spec fn failed(self, text: Seq<char>) -> StatusView {
        StatusView { text, bytes: encode_utf8(text), highlighted: true, ..self }
    }

    /// A message of bytes.
    pub open spec fn told_bytes(self, bytes: Seq<u8>) -> StatusView {
        StatusView { text: decoded(bytes), bytes, highlighted: false, ..self }
    }
}

/// Lines that were yanked or deleted.
pub struct Register {
    pub lines: Vec<Vec<u8>>,
    pub linewise: bool,
}

/// Lines that were yanked or deleted.
#[verifier::ext_equal]
pub struct RegisterView {
    pub lines: Seq<Seq<u8>>,
    pub linewise: bool,
}

impl View for Register {
    type V = RegisterView;

    open spec fn view(&self) -> RegisterView {
        RegisterView { lines: text_of(self.lines@), linewise: self.linewise }
    }
}

/// The registers.
pub struct Registers {
    pub yank: Vec<Vec<u8>>,
    pub linewise: bool,
    pub named: HashMap<u8, Register>,
    pub selected: Option<u8>,
}

/// The registers.
#[verifier::ext_equal]
pub struct RegistersView {
    /// What was yanked or deleted last.
    pub yank: RegisterView,
    /// The registers with a name.
    pub named: Map<u8, RegisterView>,
    /// The register that the next command uses.
    pub selected: Option<u8>,
}

/// The registers with a name, as values.
pub open spec fn named_of(named: Map<u8, Register>) -> Map<u8, RegisterView> {
    named.map_values(|register: Register| register@)
}

impl View for Registers {
    type V = RegistersView;

    open spec fn view(&self) -> RegistersView {
        RegistersView {
            yank: RegisterView { lines: text_of(self.yank@), linewise: self.linewise },
            named: named_of(self.named@),
            selected: self.selected,
        }
    }
}

impl RegistersView {
    /// Nothing yanked yet.
    pub open spec fn empty() -> RegistersView {
        RegistersView {
            yank: RegisterView { lines: Seq::empty(), linewise: true },
            named: Map::empty(),
            selected: None,
        }
    }

    /// Lines yanked or deleted.
    pub open spec fn yanked(self, lines: Seq<Seq<u8>>, linewise: bool) -> RegistersView {
        RegistersView { yank: RegisterView { lines, linewise }, ..self }
    }

    /// What was yanked last, kept under a name too.
    pub open spec fn saved(self, register: Option<u8>) -> RegistersView {
        match register {
            Some(name) => RegistersView { named: self.named.insert(name, self.yank), ..self },
            None => self,
        }
    }

    /// The register that a put takes from, in place of what was yanked last.
    pub open spec fn recalled(self, register: Option<u8>) -> RegistersView {
        match register {
            Some(name) => if self.named.dom().contains(name) {
                RegistersView { yank: self.named[name], ..self }
            } else {
                RegistersView {
                    yank: RegisterView { lines: Seq::empty(), ..self.yank },
                    ..self
                }
            },
            None => self,
        }
    }
}

impl Registers {
    /// Nothing yanked yet.
    pub fn empty() -> (r: Self)
        ensures
            r@ == RegistersView::empty(),
    {
        let r = Registers {
            yank: Vec::new(),
            linewise: true,
            named: HashMap::new(),
            selected: None,
        };
        assert(r@ =~= RegistersView::empty());
        r
    }

    /// Keeps lines that were yanked or deleted.
    pub fn set_yank(&mut self, lines: Vec<Vec<u8>>, linewise: bool)
        ensures
            final(self)@ == old(self)@.yanked(text_of(lines@), linewise),
    {
        self.yank = lines;
        self.linewise = linewise;
    }

    /// Keeps what was yanked last under a name too.
    pub fn save_register(&mut self, register: Option<u8>)
        ensures
            final(self)@ == old(self)@.saved(register),
    {
        if let Some(name) = register {
            let lines = copy_lines(&self.yank, 0, self.yank.len());
            assert(text_of(self.yank@).subrange(0, self.yank@.len() as int) =~= text_of(self.yank@));
            let register = Register { lines, linewise: self.linewise };
            self.named.insert(name, register);
            assert(self@.named =~= old(self)@.named.insert(name, old(self)@.yank));
        }
    }

    /// Takes a named register in place of what was yanked last.
    pub fn recall_register(&mut self, register: Option<u8>)
        ensures
            final(self)@ == old(self)@.recalled(register),
    {
        if let Some(name) = register {
            match self.named.get(&name) {
                Some(value) => {
                    let lines = copy_lines(&value.lines, 0, value.lines.len());
                    assert(text_of(value.lines@).subrange(0, value.lines@.len() as int)
                        =~= text_of(value.lines@));
                    let linewise = value.linewise;
                    self.yank = lines;
                    self.linewise = linewise;
                },
                None => {
                    self.yank = Vec::new();
                    assert(text_of(self.yank@) =~= Seq::<Seq<u8>>::empty());
                },
            }
        }
        assert(self@ =~= old(self)@.recalled(register));
    }
}

/// The operators that take a motion.
#[derive(Clone, Copy, Debug, PartialEq, Eq, Structural)]
pub enum Operator {
    Delete,
    Yank,
    Change,
}

/// What a line that is being typed is for.
#[derive(Clone, Copy, Debug, PartialEq, Eq, Structural)]
pub enum PromptKind {
    /// A colon command.
    Command,
    /// A pattern to search for.
    Search { forward: bool },
}

/// What the next key is for.
#[derive(Clone, Copy, Debug, PartialEq, Eq)]
pub enum Await {
    /// A new command, or text.
    Nothing,
    /// The name of a register.
    Register,
    /// More digits of a count, or the command behind it.
    Count { count: usize, register: Option<u8> },
    /// The character to find.
    Find { forward: bool, till: bool },
    /// The character to put in place of others.
    Replace { count: usize },
    /// The second `>` or `<`.
    Shift { right: bool, count: usize },
    /// What follows `Z`.
    Close,
    /// What follows `z`.
    Scroll,
    /// What follows `g`.
    Go,
    /// The mark to set.
    SetMark,
    /// The mark to go to, or to the line of.
    GotoMark { line: bool },
    /// The motion of an operator.
    Operator { op: Operator, count: usize, register: Option<u8> },
    /// The character that an operator finds its end by.
    OperatorFind { op: Operator, register: Option<u8>, forward: bool, till: bool },
    /// What follows `g` behind an operator.
    OperatorGo { op: Operator, register: Option<u8> },
    /// More of a line that is being typed.
    Prompt { kind: PromptKind },
}

/// What the editor knows about the keys so far.
pub struct Input {
    pub mode: Mode,
    pub awaiting: Await,
    pub typed: Vec<u8>,
    pub replaying: bool,
    pub replay: Option<Vec<u8>>,
    pub last_change: Vec<u8>,
    pub search: Search,
    pub char_search: Option<(u8, bool, bool)>,
    pub marks: Marks,
}

/// What the editor knows about the keys so far.
#[verifier::ext_equal]
pub struct InputView {
    /// The mode.
    pub mode: Mode,
    /// What the next key is for.
    pub awaiting: Await,
    /// The line that is being typed.
    pub typed: Seq<u8>,
    /// Whether the keys of the last change are being repeated.
    pub replaying: bool,
    /// The keys that are to be repeated once the command at hand is done.
    pub replay: Option<Seq<u8>>,
    /// The keys of the last change.
    pub last_change: Seq<u8>,
    /// The pattern that was searched for last, and whether forward.
    pub search: Option<(Seq<u8>, bool)>,
    /// The character that was searched for last, whether forward, and whether
    /// the cursor stops next to it.
    pub char_search: Option<(u8, bool, bool)>,
    /// The marks `a` to `z`.
    pub marks: Seq<Option<(usize, usize)>>,
}

/// Optional keys as a value.
pub open spec fn keys_of(keys: Option<Vec<u8>>) -> Option<Seq<u8>> {
    match keys {
        Some(bytes) => Some(bytes@),
        None => None,
    }
}

impl View for Input {
    type V = InputView;

    open spec fn view(&self) -> InputView {
        InputView {
            mode: self.mode,
            awaiting: self.awaiting,
            typed: self.typed@,
            replaying: self.replaying,
            replay: keys_of(self.replay),
            last_change: self.last_change@,
            search: search_of(self.search),
            char_search: self.char_search,
            marks: self.marks@,
        }
    }
}

impl InputView {
    /// Nothing typed yet.
    pub open spec fn initial() -> InputView {
        InputView {
            mode: Mode::Command,
            awaiting: Await::Nothing,
            typed: Seq::empty(),
            replaying: false,
            replay: None,
            last_change: Seq::empty(),
            search: None,
            char_search: None,
            marks: Seq::new(26, |i: int| None),
        }
    }

    /// A change begins with this key, unless one is being repeated.
    pub open spec fn change_started(self, key: u8) -> InputView {
        if self.replaying {
            self
        } else {
            InputView { last_change: seq![key], ..self }
        }
    }

    /// A change goes on with this key, unless one is being repeated.
    pub open spec fn change_continued(self, key: u8) -> InputView {
        if self.replaying {
            self
        } else {
            InputView { last_change: self.last_change.push(key), ..self }
        }
    }
}

impl Input {
    /// Nothing typed yet.
    pub fn initial() -> (r: Self)
        ensures
            r@ == InputView::initial(),
    {
        let r = Input {
            mode: Mode::Command,
            awaiting: Await::Nothing,
            typed: Vec::new(),
            replaying: false,
            replay: None,
            last_change: Vec::new(),
            search: None,
            char_search: None,
            marks: [None; 26],
        };
        assert(r@ =~= InputView::initial());
        r
    }

    /// Notes that a change begins with this key.
    pub fn start_change(&mut self, key: u8)
        ensures
            final(self)@ == old(self)@.change_started(key),
    {
        if !self.replaying {
            let mut keys: Vec<u8> = Vec::new();
            keys.push(key);
            self.last_change = keys;
            assert(self@ =~= old(self)@.change_started(key));
        }
    }

    /// Notes that a change goes on with this key.
    pub fn continue_change(&mut self, key: u8)
        ensures
            final(self)@ == old(self)@.change_continued(key),
    {
        if !self.replaying {
            self.last_change.push(key);
        }
    }
}

/// What the mouse did.
pub struct Mouse {
    pub selection: Option<MouseSelection>,
    pub viewport_scrolled: bool,
    pub last_click: Option<(Instant, SelectionPoint, u8)>,
}

/// What the mouse did.
#[verifier::ext_equal]
pub struct MouseView {
    /// The selection, if there is one.
    pub selection: Option<MouseSelection>,
    /// Whether the mouse moved the visible part of the text.
    pub scrolled: bool,
    /// Where the last click was, and how many there were in a row.
    pub clicked: Option<(SelectionPoint, u8)>,
}

impl View for Mouse {
    type V = MouseView;

    open spec fn view(&self) -> MouseView {
        MouseView {
            selection: self.selection,
            scrolled: self.viewport_scrolled,
            clicked: match self.last_click {
                Some((_, point, count)) => Some((point, count)),
                None => None,
            },
        }
    }
}

impl MouseView {
    /// Nothing done yet.
    pub open spec fn idle() -> MouseView {
        MouseView { selection: None, scrolled: false, clicked: None }
    }
}

/// The editor.
pub struct Editor {
    pub doc: Document,
    pub files: Files,
    pub options: Options,
    pub message: Status,
    pub registers: Registers,
    pub input: Input,
    pub screen: Screen,
    pub mouse: Mouse,
    pub platform: Platform,
}

/// The editor as a value.
#[verifier::ext_equal]
pub struct EditorView {
    pub doc: DocView,
    pub files: FilesView,
    pub options: Options,
    pub message: StatusView,
    pub registers: RegistersView,
    pub input: InputView,
    pub screen: ScreenView,
    pub mouse: MouseView,
    pub platform: Platform,
}

impl View for Editor {
    type V = EditorView;

    open spec fn view(&self) -> EditorView {
        EditorView {
            doc: self.doc@,
            files: self.files@,
            options: self.options,
            message: self.message@,
            registers: self.registers@,
            input: self.input@,
            screen: self.screen@,
            mouse: self.mouse@,
            platform: self.platform,
        }
    }
}

impl EditorView {
    /// What holds of every editor.
    pub open spec fn wf(self) -> bool {
        &&& self.doc.wf()
        &&& 1 <= self.options.tabstop <= 32
        &&& self.input.marks.len() == 26
    }

    /// Whether taking all changes back still leads to the same text as before.
    /// That may be lost where a change is taken back while another one is going
    /// on.
    pub open spec fn origin_kept(self, before: EditorView) -> bool {
        ||| self.doc.origin == before.doc.origin
        ||| before.doc.pending_edits().len() > 0 && self.doc.origin is None
    }

    /// An editor around a text, on a system of the given kind.
    pub open spec fn of_bytes(
        data: Seq<u8>,
        filename: Option<Seq<char>>,
        readonly: bool,
        platform: Platform,
    ) -> EditorView {
        EditorView {
            doc: DocView::of_bytes(data),
            files: FilesView::single(filename, readonly),
            options: initial_options(),
            message: StatusView::empty(),
            registers: RegistersView::empty(),
            input: InputView::initial(),
            screen: ScreenView::initial(),
            mouse: MouseView::idle(),
            platform,
        }
    }

    /// Another document.
    pub open spec fn with_doc(self, doc: DocView) -> EditorView {
        EditorView { doc, ..self }
    }

    /// The cursor at another place.
    pub open spec fn at(self, row: int, col: int) -> EditorView {
        EditorView { doc: self.doc.at(row, col), ..self }
    }

    /// The cursor on another line.
    pub open spec fn at_row(self, row: int) -> EditorView {
        EditorView { doc: self.doc.at_row(row), ..self }
    }

    /// The message gone.
    pub open spec fn cleared(self) -> EditorView {
        EditorView { message: self.message.cleared(), ..self }
    }

    /// A message.
    pub open spec fn told(self, text: Seq<char>) -> EditorView {
        EditorView { message: self.message.told(text), ..self }
    }

    /// An error message.
    pub open spec fn failed(self, text: Seq<char>) -> EditorView {
        EditorView { message: self.message.failed(text), ..self }
    }

    /// A change begun.
    pub open spec fn begun(self) -> EditorView {
        EditorView { doc: self.doc.begun(), ..self }
    }

    /// The change that is going on ended.
    pub open spec fn ended(self) -> EditorView {
        EditorView { doc: self.doc.ended(), ..self }
    }

    /// Another mode.
    pub open spec fn in_mode(self, mode: Mode) -> EditorView {
        EditorView { input: InputView { mode, ..self.input }, ..self }
    }

    /// The next key is for something else.
    pub open spec fn awaiting(self, awaiting: Await) -> EditorView {
        EditorView { input: InputView { awaiting, ..self.input }, ..self }
    }

    /// Another text put in place of this one: the screen and the mouse start
    /// anew.
    pub open spec fn loaded(self, data: Seq<u8>) -> EditorView {
        EditorView {
            doc: self.doc.loaded(data),
            screen: ScreenView { top: 0, left: 0, ..self.screen },
            mouse: MouseView::idle(),
            ..self
        }
    }

    /// The columns that line numbers take.
    pub open spec fn gutter(self) -> int {
        if self.options.number {
            imax(decimal_bytes(self.doc.lines.len()).len() as int, 3) + 1
        } else {
            0
        }
    }

    /// The columns that show text.
    pub open spec fn text_width(self) -> int {
        imax(less(self.screen.cols, self.gutter()), 1)
    }
}

impl Editor {
    /// Construct an editor around an existing byte buffer without touching
    /// the filesystem. This is the small embedding API; the terminal runner
    /// is optional and the editing state remains owned by the caller.
    pub fn from_bytes(data: &[u8], filename: Option<String>, readonly: bool) -> (r: Self)
        ensures
            r@ == EditorView::of_bytes(data@, name_of(filename), readonly, r@.platform),
            may_be_host(r@.platform),
            r@.wf(),
    {
        Editor {
            doc: Document::from_bytes(data),
            files: Files::single(filename, readonly),
            options: Options {
                number: false,
                autoindent: false,
                expandtab: false,
                flash: false,
                ignorecase: false,
                showmatch: false,
                tabstop: 8,
            },
            message: Status {
                text: String::new(),
                bytes: Vec::new(),
                highlighted: false,
                hit_return: false,
            },
            registers: Registers::empty(),
            input: Input::initial(),
            screen: Screen::initial(),
            mouse: Mouse { selection: None, viewport_scrolled: false, last_click: None },
            platform: Platform::host(),
        }
    }

    /// Construct an editor for a file. Where the file has a name, the host is
    /// asked to load it; until it answers, the text is empty.
    pub fn new(filename: Option<String>, readonly: bool) -> (r: Self)
        ensures
            r@.wf(),
            may_be_host(r@.platform),
            r@ == ({
                let empty = EditorView::of_bytes(
                    Seq::empty(),
                    name_of(filename),
                    readonly,
                    r@.platform,
                );
                match filename {
                    Some(path) => EditorView {
                        files: FilesView {
                            request: Some(RequestView::Load { path: path@, tell: false }),
                            ..empty.files
                        },
                        ..empty
                    },
                    None => EditorView { doc: empty.doc.newline_ended(), ..empty },
                }
            }),
    {
        let none: [u8; 0] = [];
        assert(none@ =~= Seq::<u8>::empty());
        match filename {
            Some(path) => {
                let request = FileRequest::Load { path: copy_str(path.as_str()), tell: false };
                let mut editor = Self::from_bytes(&none, Some(path), readonly);
                editor.files.request = Some(request);
                editor
            },
            None => {
                let mut editor = Self::from_bytes(&none, None, readonly);
                editor.doc.end_with_newline();
                editor
            },
        }
    }

    /// Return the current buffer in the same newline form used by `:write`.
    pub fn bytes(&self) -> (r: Vec<u8>)
        ensures
            r@ == self@.doc.bytes(),
    {
        self.doc.bytes()
    }

    /// Whether the buffer differs from what was last written or loaded.
    pub fn is_modified(&self) -> (r: bool)
        ensures
            r == self@.doc.modified,
    {
        self.doc.modified
    }

    /// The most recent user-facing status or error message.
    pub fn status(&self) -> (r: &str)
        ensures
            r@ == self@.message.text,
    {
        self.message.text.as_str()
    }

    /// Return the zero-based logical cursor position.
    pub fn cursor(&self) -> (r: (usize, usize))
        ensures
            (r.0 as int, r.1 as int) == (self@.doc.row, self@.doc.col),
    {
        (self.doc.row, self.doc.col)
    }

    /// Return the current filename, if one is associated with the buffer.
    pub fn filename(&self) -> (r: Option<&str>)
        ensures
            match r {
                Some(name) => self@.files.filename == Some(name@),
                None => self@.files.filename is None,
            },
    {
        match self.files.filename.as_ref() {
            Some(name) => Some(name.as_str()),
            None => None,
        }
    }

    /// Whether an ex command has requested that the embedding caller stop.
    pub fn should_quit(&self) -> (r: bool)
        ensures
            r == self@.files.quit,
    {
        self.files.quit
    }

    /// What the editor asks its host to do with a file before it goes on.
    pub fn file_request(&self) -> (r: Option<&FileRequest>)
        ensures
            match r {
                Some(request) => self@.files.request == Some(request@),
                None => self@.files.request is None,
            },
    {
        self.files.request.as_ref()
    }

    /// Takes the message away.
    pub fn clear_status(&mut self)
        ensures
            final(self)@ == old(self)@.cleared(),
            unedited(old(self).doc, final(self).doc),
    {
        self.message.text = String::new();
        self.message.bytes = Vec::new();
        self.message.highlighted = false;
        assert(self@ =~= old(self)@.cleared());
    }

    /// Shows a message.
    pub fn set_status(&mut self, status: String)
        ensures
            final(self)@ == old(self)@.told(status@),
            unedited(old(self).doc, final(self).doc),
    {
        self.message.bytes = utf8_of_str(status.as_str());
        self.message.text = status;
        self.message.highlighted = false;
    }

    /// Shows an error message.
    pub fn set_error(&mut self, status: String)
        ensures
            final(self)@ == old(self)@.failed(status@),
            unedited(old(self).doc, final(self).doc),
    {
        self.message.bytes = utf8_of_str(status.as_str());
        self.message.text = status;
        self.message.highlighted = true;
    }

    /// Shows an error message.
    pub fn fail(&mut self, status: &str)
        ensures
            final(self)@ == old(self)@.failed(status@),
            unedited(old(self).doc, final(self).doc),
    {
        self.set_error(copy_str(status));
    }

    /// Shows a message.
    pub fn tell(&mut self, status: &str)
        ensures
            final(self)@ == old(self)@.told(status@),
            unedited(old(self).doc, final(self).doc),
    {
        self.set_status(copy_str(status));
    }

    /// Shows a message of bytes.
    pub fn set_status_bytes(&mut self, status: Vec<u8>)
        ensures
            final(self)@ == (EditorView {
                message: old(self)@.message.told_bytes(status@),
                ..old(self)@
            }),
            unedited(old(self).doc, final(self).doc),
    {
        self.message.text = utf8_lossy(&status);
        self.message.bytes = status;
        self.message.highlighted = false;
    }

    /// Ends the change that is going on.
    pub fn end_change(&mut self)
        requires
            old(self)@.wf(),
        ensures
            final(self)@ == old(self)@.ended(),
            final(self)@.wf(),
            final(self)@.doc.origin == old(self)@.doc.origin,
            unedited(old(self).doc, final(self).doc),
    {
        self.doc.end_change();
    }

    /// Puts another text in place of this one.
    pub fn set_bytes(&mut self, data: &[u8])
        requires
            old(self)@.wf(),
        ensures
            final(self)@ == old(self)@.loaded(data@),
            final(self)@.wf(),
            told_of_edits(old(self).doc, final(self).doc),
    {
        self.doc.set_bytes(data);
        self.screen.top = 0;
        self.screen.left = 0;
        self.mouse.selection = None;
        self.mouse.viewport_scrolled = false;
        self.mouse.last_click = None;
    }

    /// The columns that line numbers take.
    pub fn number_column_width(&self) -> (r: usize)
        requires
            self@.wf(),
        ensures
            r == self@.gutter(),
            r <= 1000,
    {
        if self.options.number {
            proof {
                lemma_decimal_length(self.doc.lines@.len());
            }
            let digits: usize = decimal_bytes_of(self.doc.lines.len() as u128).len();
            max_of(digits, 3) + 1
        } else {
            0
        }
    }

    /// The columns that show text.
    pub fn horizontal_width(&self) -> (r: usize)
        requires
            self@.wf(),
        ensures
            r == self@.text_width(),
    {
        max_of(less_of(self.screen.cols, self.number_column_width()), 1)
    }

    /// Install a host-provided syntax highlighter for the terminal renderer.
    ///
    /// The highlighter is deliberately owned by the editor so it can retain
    /// parser state between redraws. Use `clear_syntax_highlighter` to return
    /// to the unstyled base renderer. A closure can be supplied directly
    /// because closures implementing `FnMut(&[u8]) -> Vec<HighlightSpan>`
    /// implement [`SyntaxHighlighter`].
    pub fn set_syntax_highlighter(&mut self, highlighter: Box<dyn SyntaxHighlighter>)
        requires
            old(self)@.wf(),
        ensures
            final(self)@.wf(),
            final(self)@.doc.origin == old(self)@.doc.origin,
            final(self)@ == old(self)@.with_doc(
                (DocView {
                    syntax: (SyntaxView { installed: true, ..old(self)@.doc.syntax })
                        .cleared()
                        .marked(false),
                    ..old(self)@.doc
                }),
            ),
            invalidated_to(Some(highlighter), final(self).doc.syntax.highlighter),
    {
        let given = Some(highlighter);
        self.doc.syntax.install(given);
    }

    /// Remove the optional syntax highlighter and restore plain rendering.
    pub fn clear_syntax_highlighter(&mut self)
        requires
            old(self)@.wf(),
        ensures
            final(self)@.wf(),
            final(self)@.doc.origin == old(self)@.doc.origin,
            final(self)@ == old(self)@.with_doc(
                (DocView { syntax: SyntaxView::empty(), ..old(self)@.doc }),
            ),
    {
        self.doc.syntax.uninstall();
    }

    /// Tell the installed highlighter to recompute even when the buffer did
    /// not change, for example after the embedding application changes its
    /// theme or language selection.
    pub fn invalidate_syntax_highlighting(&mut self)
        requires
            old(self)@.wf(),
        ensures
            final(self)@.wf(),
            final(self)@.doc.origin == old(self)@.doc.origin,
            final(self)@ == old(self)@.with_doc(
                (DocView {
                    syntax: old(self)@.doc.syntax.marked(false).cleared(),
                    ..old(self)@.doc
                }),
            ),
            told_once(old(self).doc.syntax.highlighter, final(self).doc.syntax.highlighter),
            told_of_edits(old(self).doc, final(self).doc),
    {
        self.doc.syntax.mark_dirty(false);
        self.doc.syntax.clear_ranges();
        proof {
            lemma_one_noted(
                (old(self).doc.lines, old(self).doc.trailing_newline),
                old(self).doc.syntax,
                (self.doc.lines, self.doc.trailing_newline),
                self.doc.syntax,
            );
        }
    }

    /// Polls completed background work and, when necessary, requests a new
    /// snapshot; whether the ranges changed. The state that follows is the one
    /// that `refreshed` gives for what the installed highlighter and the clock
    /// answered.
    pub fn refresh_syntax_highlighting(&mut self, force: bool, visible: Option<(usize, usize)>) -> (r:
        bool)
        requires
            old(self)@.wf(),
        ensures
            final(self)@.wf(),
            final(self)@.doc.origin == old(self)@.doc.origin,
            exists|answers: Answers|
                {
                    let after = #[trigger] old(self)@.doc.syntax.refreshed(
                        old(self)@.doc.lines,
                        old(self)@.doc.trailing,
                        force,
                        visible,
                        (old(self)@.screen.top as usize, old(self)@.screen.body() as usize),
                        answers,
                    );
                    &&& old(self)@.doc.syntax.answered(
                        old(self).doc.syntax.highlighter,
                        final(self).doc.syntax.highlighter,
                        old(self).doc.syntax.edited_at,
                        old(self)@.doc.lines,
                        old(self)@.doc.trailing,
                        force,
                        visible,
                        (old(self)@.screen.top as usize, old(self)@.screen.body() as usize),
                        answers,
                    )
                    &&& r == after.1
                    &&& final(self)@ == old(self)@.with_doc(
                        (DocView { syntax: after.0, ..old(self)@.doc }),
                    )
                },
            final(self)@.doc.syntax.installed == old(self)@.doc.syntax.installed,
    {
        let viewport: (usize, usize) = (self.screen.top, self.screen.body_rows());
        let ghost before = self@;
        let ghost asked = self.doc.syntax.highlighter;
        let ghost edited_at = self.doc.syntax.edited_at;
        let r = self.doc.syntax.refresh(
            &self.doc.lines,
            self.doc.trailing_newline,
            force,
            visible,
            viewport,
        );
        proof {
            let answers = choose|answers: Answers|
                (self.doc.syntax@, r) == #[trigger] before.doc.syntax.refreshed(
                    before.doc.lines,
                    before.doc.trailing,
                    force,
                    visible,
                    viewport,
                    answers,
                ) && before.doc.syntax.answered(
                    asked,
                    self.doc.syntax.highlighter,
                    edited_at,
                    before.doc.lines,
                    before.doc.trailing,
                    force,
                    visible,
                    viewport,
                    answers,
                );
            let after = before.doc.syntax.refreshed(
                before.doc.lines,
                before.doc.trailing,
                force,
                visible,
                (before.screen.top as usize, before.screen.body() as usize),
                answers,
            );
            assert(self@ =~= before.with_doc((DocView { syntax: after.0, ..before.doc })));
        }
        r
    }

    /// Return the installed highlighter's current ranges in complete-buffer
    /// byte offsets. This lets a non-terminal embedding reuse the same
    /// host-provided highlighting data in its own renderer.
    pub fn syntax_highlights(&mut self) -> (r: Option<&[HighlightSpan]>)
        requires
            old(self)@.wf(),
        ensures
            final(self)@.wf(),
            final(self)@.doc.origin == old(self)@.doc.origin,
            exists|answers: Answers| #[trigger]
                ranges_read(
                    old(self).doc,
                    final(self).doc,
                    (old(self)@.screen.top as usize, old(self)@.screen.body() as usize),
                    answers,
                ),
            final(self)@ == old(self)@.with_doc(final(self)@.doc),
            match r {
                Some(spans) => old(self)@.doc.syntax.installed && spans@
                    == final(self)@.doc.syntax.highlights,
                None => !old(self)@.doc.syntax.installed,
            },
    {
        let _ = self.refresh_syntax_highlighting(true, None);
        proof {
            let viewport = (old(self)@.screen.top as usize, old(self)@.screen.body() as usize);
            let answers = choose|answers: Answers|
                {
                    let after = #[trigger] old(self)@.doc.syntax.refreshed(
                        old(self)@.doc.lines,
                        old(self)@.doc.trailing,
                        true,
                        None,
                        viewport,
                        answers,
                    );
                    &&& old(self)@.doc.syntax.answered(
                        old(self).doc.syntax.highlighter,
                        self.doc.syntax.highlighter,
                        old(self).doc.syntax.edited_at,
                        old(self)@.doc.lines,
                        old(self)@.doc.trailing,
                        true,
                        None,
                        viewport,
                        answers,
                    )
                    &&& self@ == old(self)@.with_doc(
                        (DocView { syntax: after.0, ..old(self)@.doc }),
                    )
                };
            assert(ranges_read(old(self).doc, self.doc, viewport, answers));
        }
        if self.doc.syntax.highlighter.is_some() {
            Some(self.doc.syntax.highlights.as_slice())
        } else {
            None
        }
    }
}

proof fn lemma_decimal_length(n: nat)
    ensures
        n <= 0xffff_ffff_ffff_ffff ==> decimal_bytes(n).len() <= 20,
{
    lemma_decimal_steps(n, 20);
}

proof fn lemma_decimal_steps(n: nat, steps: nat)
    requires
        1 <= steps <= 20,
    ensures
        n < ten_to(steps) ==> decimal_bytes(n).len() <= steps,
        steps == 20 ==> ten_to(steps) == 100_000_000_000_000_000_000,
    decreases steps,
{
    reveal_with_fuel(ten_to, 21);
    if steps > 1 && n >= 10 {
        lemma_decimal_steps(n / 10, (steps - 1) as nat);
    }
}

spec fn ten_to(steps: nat) -> nat
    decreases steps,
{
    if steps == 0 {
        1
    } else {
        10 * ten_to((steps - 1) as nat)
    }
}

} // verus!
