//! Keys: from the bytes and the events of a terminal to the keys of the
//! editor, and running the editor on bytes.
use crate::bytes::to_upper;
use crate::document::{told_of_edits, unedited};
use crate::editor::{Await, Editor, EditorView, InputView};
use crate::strings::utf8_of;
use std::collections::VecDeque;
use vstd::prelude::*;
use vstd::utf8::encode_utf8;

verus! {

broadcast use crate::syntax::group_noted;

/// The key that an escape sequence stands for: the last byte decides, and the
/// first one where that is a tilde. Sequences that mean nothing are an escape.
#[verifier::allow_in_spec]
pub fn sequence_key(first: u8, last: u8) -> u8
    returns
        if last == 65 {
            0x80u8
        } else if last == 66 {
            0x81
        } else if last == 67 {
            0x82
        } else if last == 68 {
            0x83
        } else if last == 72 {
            0x84
        } else if last == 70 {
            0x85
        } else if last == 126 && (first == 49 || first == 55) {
            0x84
        } else if last == 126 && (first == 52 || first == 56) {
            0x85
        } else if last == 126 && first == 50 {
            0x86
        } else if last == 126 && first == 51 {
            0x87
        } else if last == 126 && first == 53 {
            0x88
        } else if last == 126 && first == 54 {
            0x89
        } else {
            27
        },
{
    if last == 65 {
        0x80
    } else if last == 66 {
        0x81
    } else if last == 67 {
        0x82
    } else if last == 68 {
        0x83
    } else if last == 72 {
        0x84
    } else if last == 70 {
        0x85
    } else if last == 126 && (first == 49 || first == 55) {
        0x84
    } else if last == 126 && (first == 52 || first == 56) {
        0x85
    } else if last == 126 && first == 50 {
        0x86
    } else if last == 126 && first == 51 {
        0x87
    } else if last == 126 && first == 53 {
        0x88
    } else if last == 126 && first == 54 {
        0x89
    } else {
        27
    }
}

/// The first byte of a sequence, or 0 where it is empty.
pub open spec fn first_byte(sequence: Seq<u8>) -> u8 {
    if sequence.len() > 0 {
        sequence[0]
    } else {
        0
    }
}

/// The key that an escape sequence stands for.
pub fn decode_escape_sequence(sequence: &[u8], final_byte: u8) -> (r: u8)
    ensures
        r == sequence_key(first_byte(sequence@), final_byte),
{
    let first: u8 = if sequence.len() > 0 {
        sequence[0]
    } else {
        0
    };
    sequence_key(first, final_byte)
}

/// Whether a byte ends an escape sequence.
#[verifier::allow_in_spec]
pub fn ends_sequence(byte: u8) -> bool
    returns
        0x40 <= byte && byte <= 0x7e,
{
    0x40 <= byte && byte <= 0x7e
}

/// Whether a key is one without a character.
#[verifier::allow_in_spec]
pub fn is_special_key(key: u8) -> bool
    returns
        0x80 <= key && key <= 0x89,
{
    0x80 <= key && key <= 0x89
}

/// A key, whether it has no character, and the place behind its bytes.
pub struct Decoded {
    pub key: u8,
    pub special: bool,
    pub next: int,
}

/// The escape sequence that begins at `start`, looked at from `at` on. One
/// that does not end within 32 bytes, or not at all, is an escape.
pub open spec fn sequence_at(keys: Seq<u8>, start: int, at: int) -> Decoded
    decreases keys.len() - at,
{
    if at < 0 || at >= keys.len() {
        Decoded { key: 27, special: false, next: keys.len() as int }
    } else if ends_sequence(keys[at]) {
        let key = sequence_key(keys[start], keys[at]);
        Decoded { key, special: is_special_key(key), next: at + 1 }
    } else if at + 1 - start >= 32 {
        Decoded { key: 27, special: false, next: at + 1 }
    } else {
        sequence_at(keys, start, at + 1)
    }
}

/// The key at `at`.
pub open spec fn key_at(keys: Seq<u8>, at: int) -> Decoded {
    if keys[at] == 27 && at + 1 < keys.len() && (keys[at + 1] == 91 || keys[at + 1] == 79) {
        sequence_at(keys, at + 2, at + 2)
    } else {
        Decoded { key: keys[at], special: false, next: at + 1 }
    }
}

/// A sequence ends behind the place where it is looked at, within the bytes.
pub proof fn lemma_sequence_next(keys: Seq<u8>, start: int, at: int)
    requires
        0 <= at <= keys.len(),
    ensures
        at <= sequence_at(keys, start, at).next <= keys.len(),
    decreases keys.len() - at,
{
    if at < keys.len() && !ends_sequence(keys[at]) && at + 1 - start < 32 {
        lemma_sequence_next(keys, start, at + 1);
    }
}

fn read_sequence(keys: &[u8], start: usize) -> (r: (u8, bool, usize))
    requires
        start <= keys@.len(),
    ensures
        ({
            let decoded = sequence_at(keys@, start as int, start as int);
            &&& r.0 == decoded.key
            &&& r.1 == decoded.special
            &&& r.2 == decoded.next
        }),
        start <= r.2 <= keys@.len(),
{
    let total: usize = keys.len();
    let mut at: usize = start;
    while at < total
        invariant
            start <= at <= total == keys@.len(),
            sequence_at(keys@, start as int, at as int) == sequence_at(
                keys@,
                start as int,
                start as int,
            ),
        decreases total - at,
    {
        let byte: u8 = keys[at];
        if ends_sequence(byte) {
            let key: u8 = sequence_key(keys[start], byte);
            return (key, is_special_key(key), at + 1);
        }
        if at - start >= 31 {
            return (27, false, at + 1);
        }
        at += 1;
    }
    (27, false, total)
}

/// Reads the key at `at`: the key, whether it has no character, and the place
/// behind its bytes.
pub fn read_key(keys: &[u8], at: usize) -> (r: (u8, bool, usize))
    requires
        at < keys@.len(),
    ensures
        ({
            let decoded = key_at(keys@, at as int);
            &&& r.0 == decoded.key
            &&& r.1 == decoded.special
            &&& r.2 == decoded.next
        }),
        at < r.2 <= keys@.len(),
{
    let total: usize = keys.len();
    if keys[at] == 27 && total - at > 1 && (keys[at + 1] == 91 || keys[at + 1] == 79) {
        read_sequence(keys, at + 2)
    } else {
        (keys[at], false, at + 1)
    }
}

/// The input ended in the middle of a command.
#[derive(Clone, Copy, Debug, PartialEq, Eq)]
pub struct InputClosed;

impl InputClosed {
    /// What to tell the user.
    pub fn message(self) -> (r: &'static str)
        ensures
            r@ == "input closed"@,
    {
        "input closed"
    }
}

/// What the editor waits for.
#[derive(Clone, Copy, Debug, PartialEq, Eq, Structural)]
pub enum Expects {
    /// A new command, or text.
    Command,
    /// Another key of a command.
    Key,
    /// More of a line that is being typed.
    Line,
}

impl EditorView {
    /// Whether the editor goes on taking keys: it is not to stop, and it waits
    /// for no answer of its host.
    pub open spec fn takes_keys(self) -> bool {
        !self.files.quit && self.files.request is None
    }

    /// The keys taken from `at` on, as long as the editor takes keys, and the
    /// place behind the last one.
    pub open spec fn keys_taken(self, keys: Seq<u8>, at: int) -> (EditorView, int)
        decreases keys.len() - at,
    {
        if at < 0 || at >= keys.len() || !self.takes_keys() {
            (self, at)
        } else {
            proof {
                if at + 2 <= keys.len() {
                    lemma_sequence_next(keys, at + 2, at + 2);
                }
            }
            let decoded = key_at(keys, at);
            self.key_pressed(decoded.key, decoded.special).keys_taken(keys, decoded.next)
        }
    }

    /// The editor once it has taken these keys.
    #[verifier::opaque]
    pub open spec fn after_keys(self, keys: Seq<u8>) -> EditorView {
        self.keys_taken(keys, 0).0
    }

    /// Whether a command is in the middle.
    pub open spec fn amid_command(self) -> bool {
        self.takes_keys() && !(self.input.awaiting is Nothing)
    }

    /// The command in the middle given up.
    pub open spec fn given_up(self) -> EditorView {
        EditorView {
            input: InputView {
                awaiting: Await::Nothing,
                typed: Seq::empty(),
                replay: None,
                ..self.input
            },
            ..self
        }
    }

    /// What the editor waits for.
    pub open spec fn expecting(self) -> Expects {
        match self.input.awaiting {
            Await::Nothing => Expects::Command,
            Await::Prompt { .. } => Expects::Line,
            _ => Expects::Key,
        }
    }
}

impl Editor {
    fn is_amid_command(&self) -> (r: bool)
        ensures
            r == self@.amid_command(),
    {
        let waiting = match self.input.awaiting {
            Await::Nothing => false,
            _ => true,
        };
        waiting && !self.files.quit && self.files.request.is_none()
    }

    fn give_up(&mut self)
        requires
            old(self)@.wf(),
        ensures
            final(self)@ == old(self)@.given_up(),
            final(self)@.wf(),
            final(self)@.doc.origin == old(self)@.doc.origin,
            unedited(old(self).doc, final(self).doc),
    {
        self.input.awaiting = Await::Nothing;
        self.input.typed = Vec::new();
        self.input.replay = None;
    }

    /// What the editor waits for.
    pub fn expects(&self) -> (r: Expects)
        ensures
            r == self@.expecting(),
    {
        match self.input.awaiting {
            Await::Nothing => Expects::Command,
            Await::Prompt { .. } => Expects::Line,
            _ => Expects::Key,
        }
    }

    /// Feed decoded terminal bytes through the editor without taking over a
    /// terminal. This is useful for embedders and behavioral tests.
    ///
    /// The editor stops taking keys where it is to quit and where it asks its
    /// host for a file. The result tells how many bytes it took, or that they
    /// ended in the middle of a command, which is then given up.
    pub fn execute_keys(&mut self, keys: &[u8]) -> (r: Result<usize, InputClosed>)
        requires
            old(self)@.wf(),
        ensures
            final(self)@.wf(),
            final(self)@.doc.origin == old(self)@.doc.origin || final(self)@.doc.origin is None,
            ({
                let (after, at) = old(self)@.keys_taken(keys@, 0);
                if at >= keys@.len() && after.amid_command() {
                    r is Err && final(self)@ == after.given_up()
                } else {
                    (r matches Ok(taken) && taken == at) && final(self)@ == after
                }
            }),
            !old(self)@.after_keys(keys@).amid_command() ==> r is Ok && final(self)@
                == old(self)@.after_keys(keys@),
            (r matches Ok(taken) && final(self)@.takes_keys()) ==> r == Ok::<usize, InputClosed>(
                keys@.len() as usize,
            ),
            told_of_edits(old(self).doc, final(self).doc),
    {
        reveal(EditorView::after_keys);
        let ghost start = self@;
        let total: usize = keys.len();
        let mut at: usize = 0;
        while at < total && !self.files.quit && self.files.request.is_none()
            invariant
                at <= total == keys@.len(),
                self@.wf(),
                self@.doc.origin == start.doc.origin || self@.doc.origin is None,
                told_of_edits(old(self).doc, self.doc),
                self@.keys_taken(keys@, at as int) == start.keys_taken(keys@, 0),
            decreases total - at,
        {
            let (key, special, next) = read_key(keys, at);
            self.press(key, special);
            at = next;
        }
        if at >= total && self.is_amid_command() {
            self.give_up();
            Err(InputClosed)
        } else {
            Ok(at)
        }
    }
}

/// The keys of a keyboard, as far as the editor tells them apart.
#[derive(Clone, Copy, Debug, PartialEq, Eq)]
pub enum KeyCode {
    Up,
    Down,
    Right,
    Left,
    Home,
    End,
    Insert,
    Delete,
    PageUp,
    PageDown,
    Backspace,
    Enter,
    Tab,
    Esc,
    Char(char),
    Other,
}

/// The modifier keys that were held.
#[derive(Clone, Copy, Debug, PartialEq, Eq)]
pub struct Modifiers {
    pub shift: bool,
    pub control: bool,
    pub alt: bool,
    pub logo: bool,
}

/// What happened to a key.
#[derive(Clone, Copy, Debug, PartialEq, Eq, Structural)]
pub enum KeyEventKind {
    Press,
    Repeat,
    Release,
}

/// A key that was pressed or released.
#[derive(Clone, Copy, Debug, PartialEq, Eq)]
pub struct KeyEvent {
    pub code: KeyCode,
    pub modifiers: Modifiers,
    pub kind: KeyEventKind,
}

/// The buttons of a mouse.
#[derive(Clone, Copy, Debug, PartialEq, Eq, Structural)]
pub enum MouseButton {
    Left,
    Right,
    Middle,
}

/// What happened to the mouse.
#[derive(Clone, Copy, Debug, PartialEq, Eq)]
pub enum MouseEventKind {
    Down(MouseButton),
    Up(MouseButton),
    Drag(MouseButton),
    Moved,
    ScrollUp,
    ScrollDown,
    ScrollLeft,
    ScrollRight,
}

/// What the mouse did, and where.
#[derive(Clone, Copy, Debug, PartialEq, Eq)]
pub struct MouseEvent {
    pub kind: MouseEventKind,
    pub column: u16,
    pub row: u16,
    pub modifiers: Modifiers,
}

/// What the terminal reported.
#[derive(Clone, Copy, Debug, PartialEq, Eq)]
pub enum Event {
    Key(KeyEvent),
    Mouse(MouseEvent),
    Resize,
    Other,
}

/// An event, or none for a moment.
#[derive(Clone, Copy, Debug, PartialEq, Eq)]
pub enum Signal {
    Event(Event),
    Quiet,
}

/// What came of a signal.
#[derive(Clone, Copy, Debug, PartialEq, Eq, Structural)]
pub enum Step {
    /// A key.
    Key(u8),
    /// No key.
    Nothing,
    /// Another signal decides.
    More,
}

/// How far a key of several events has got.
#[derive(Clone, Copy, Debug, PartialEq, Eq, Structural)]
pub enum Phase {
    /// No key has begun.
    Ready,
    /// An escape came.
    Escaped,
    /// An escape sequence with this prefix has begun.
    Sequence { prefix: u8 },
}

/// Turns the events of a terminal into keys.
pub struct KeyReader {
    pub pending: VecDeque<u8>,
    pub special: bool,
    pub resized: bool,
    pub mouse: VecDeque<MouseEvent>,
    pub phase: Phase,
    pub sequence: Vec<u8>,
}

/// Turns the events of a terminal into keys.
#[verifier::ext_equal]
pub struct ReaderView {
    /// Bytes that come before any other key.
    pub pending: Seq<u8>,
    /// Whether the last key has no character.
    pub special: bool,
    /// Whether the terminal was resized.
    pub resized: bool,
    /// What the mouse did.
    pub mouse: Seq<MouseEvent>,
    /// How far a key of several events has got.
    pub phase: Phase,
    /// The bytes of an escape sequence so far.
    pub sequence: Seq<u8>,
}

impl View for KeyReader {
    type V = ReaderView;

    open spec fn view(&self) -> ReaderView {
        ReaderView {
            pending: self.pending@,
            special: self.special,
            resized: self.resized,
            mouse: self.mouse@,
            phase: self.phase,
            sequence: self.sequence@,
        }
    }
}

/// The key of a key code that has no character, if it has none.
#[verifier::allow_in_spec]
pub fn special_key(code: KeyCode) -> Option<u8>
    returns
        match code {
            KeyCode::Up => Some(0x80u8),
            KeyCode::Down => Some(0x81u8),
            KeyCode::Right => Some(0x82u8),
            KeyCode::Left => Some(0x83u8),
            KeyCode::Home => Some(0x84u8),
            KeyCode::End => Some(0x85u8),
            KeyCode::Insert => Some(0x86u8),
            KeyCode::Delete => Some(0x87u8),
            KeyCode::PageUp => Some(0x88u8),
            KeyCode::PageDown => Some(0x89u8),
            _ => None,
        },
{
    match code {
        KeyCode::Up => Some(0x80),
        KeyCode::Down => Some(0x81),
        KeyCode::Right => Some(0x82),
        KeyCode::Left => Some(0x83),
        KeyCode::Home => Some(0x84),
        KeyCode::End => Some(0x85),
        KeyCode::Insert => Some(0x86),
        KeyCode::Delete => Some(0x87),
        KeyCode::PageUp => Some(0x88),
        KeyCode::PageDown => Some(0x89),
        _ => None,
    }
}

impl ReaderView {
    /// Nothing read yet, with these bytes in front of everything else.
    pub open spec fn of_bytes(bytes: Seq<u8>) -> ReaderView {
        ReaderView {
            pending: bytes,
            special: false,
            resized: false,
            mouse: Seq::empty(),
            phase: Phase::Ready,
            sequence: Seq::empty(),
        }
    }

    /// Bytes put behind the pending ones, and the first of all of them taken.
    pub open spec fn first_of(self, bytes: Seq<u8>) -> (ReaderView, Option<u8>) {
        let all = self.pending + bytes;
        if all.len() > 0 {
            (
                ReaderView { pending: all.subrange(1, all.len() as int), ..self },
                Some(all[0]),
            )
        } else {
            (ReaderView { pending: all, ..self }, None)
        }
    }

    /// A key that was pressed: its value, if it has one. The bytes of a
    /// character come one by one; with Alt they follow an escape.
    pub open spec fn key_read(self, key: KeyEvent) -> (ReaderView, Option<u8>) {
        if key.kind == KeyEventKind::Release {
            (self, None)
        } else {
            match key.code {
                KeyCode::Backspace => (self, Some(8u8)),
                KeyCode::Enter => (self, Some(13u8)),
                KeyCode::Tab => (self, Some(9u8)),
                KeyCode::Esc => (self, Some(27u8)),
                KeyCode::Other => (self, None),
                KeyCode::Char(c) => {
                    let bytes = encode_utf8(seq![c]);
                    if key.modifiers.alt {
                        (ReaderView { pending: self.pending + bytes, ..self }, Some(27u8))
                    } else if key.modifiers.control && (c as u32) < 128 {
                        (self, Some(to_upper(c as u8) & 0x1f))
                    } else {
                        self.first_of(bytes)
                    }
                },
                other => (ReaderView { special: true, ..self }, special_key(other)),
            }
        }
    }

    /// An event outside of any key: what the mouse did and resizes are kept.
    pub open spec fn event_read(self, event: Event) -> (ReaderView, Option<u8>) {
        match event {
            Event::Mouse(mouse) => (ReaderView { mouse: self.mouse.push(mouse), ..self }, None),
            Event::Resize => (ReaderView { resized: true, ..self }, None),
            Event::Key(key) => self.key_read(key),
            Event::Other => (self, None),
        }
    }

    /// The reader in another phase.
    pub open spec fn in_phase(self, phase: Phase) -> ReaderView {
        ReaderView { phase, sequence: Seq::empty(), ..self }
    }

    /// An escape sequence that came to nothing: an escape, and its bytes.
    pub open spec fn sequence_dropped(self, prefix: u8) -> (ReaderView, Step) {
        (
            ReaderView {
                pending: self.pending.push(prefix) + self.sequence,
                ..self.in_phase(Phase::Ready)
            },
            Step::Key(27),
        )
    }

    /// A character of an escape sequence.
    pub open spec fn sequence_byte(self, prefix: u8, byte: u8) -> (ReaderView, Step) {
        let more = ReaderView { sequence: self.sequence.push(byte), ..self };
        if ends_sequence(byte) {
            let key = sequence_key(first_byte(more.sequence), byte);
            (
                ReaderView { special: is_special_key(key), ..self.in_phase(Phase::Ready) },
                Step::Key(key),
            )
        } else if more.sequence.len() >= 32 {
            more.sequence_dropped(prefix)
        } else {
            (more, Step::More)
        }
    }

    /// A signal within an escape sequence.
    pub open spec fn sequence_fed(self, prefix: u8, signal: Signal) -> (ReaderView, Step) {
        match signal {
            Signal::Quiet => self.sequence_dropped(prefix),
            Signal::Event(Event::Key(key)) => if key.kind == KeyEventKind::Release {
                (self, Step::More)
            } else {
                match key.code {
                    KeyCode::Char(c) => if (c as u32) < 128 {
                        self.sequence_byte(prefix, c as u8)
                    } else {
                        self.sequence_dropped(prefix)
                    },
                    _ => self.sequence_dropped(prefix),
                }
            },
            Signal::Event(Event::Resize) => ReaderView {
                resized: true,
                ..self
            }.sequence_dropped(prefix),
            Signal::Event(Event::Mouse(mouse)) => (
                ReaderView { mouse: self.mouse.push(mouse), ..self },
                Step::More,
            ),
            Signal::Event(Event::Other) => (self, Step::More),
        }
    }

    /// A signal behind an escape.
    pub open spec fn escape_fed(self, signal: Signal) -> (ReaderView, Step) {
        let ready = self.in_phase(Phase::Ready);
        match signal {
            Signal::Event(Event::Key(key)) => if key.kind == KeyEventKind::Release {
                (ready, Step::Key(27))
            } else if key.code == KeyCode::Char('[') {
                (self.in_phase(Phase::Sequence { prefix: 91 }), Step::More)
            } else if key.code == KeyCode::Char('O') {
                (self.in_phase(Phase::Sequence { prefix: 79 }), Step::More)
            } else {
                let (after, value) = ready.key_read(key);
                (
                    match value {
                        Some(byte) => ReaderView { pending: after.pending.push(byte), ..after },
                        None => after,
                    },
                    Step::Key(27),
                )
            },
            Signal::Event(event) => (ready.event_read(event).0, Step::Key(27)),
            Signal::Quiet => (ready, Step::Key(27)),
        }
    }

    /// A signal where no key has begun. Where the caller waits for a key
    /// (`blocking`), only a resize interrupts it.
    pub open spec fn ready_fed(self, signal: Signal, blocking: bool) -> (ReaderView, Step) {
        let idle = if blocking {
            Step::More
        } else {
            Step::Nothing
        };
        match signal {
            Signal::Quiet => (self, idle),
            Signal::Event(Event::Key(key)) => if key.code == KeyCode::Esc {
                (self.in_phase(Phase::Escaped), Step::More)
            } else if key.code == KeyCode::Char('[') && key.modifiers.alt {
                (self.in_phase(Phase::Sequence { prefix: 91 }), Step::More)
            } else if key.code == KeyCode::Char('O') && key.modifiers.alt {
                (self.in_phase(Phase::Sequence { prefix: 79 }), Step::More)
            } else {
                let (after, value) = self.key_read(key);
                (
                    after,
                    match value {
                        Some(byte) => Step::Key(byte),
                        None => idle,
                    },
                )
            },
            Signal::Event(Event::Resize) => (self.event_read(Event::Resize).0, Step::Nothing),
            Signal::Event(event) => (self.event_read(event).0, idle),
        }
    }

    /// What a signal does.
    pub open spec fn fed(self, signal: Signal, blocking: bool) -> (ReaderView, Step) {
        match self.phase {
            Phase::Ready => self.ready_fed(signal, blocking),
            Phase::Escaped => self.escape_fed(signal),
            Phase::Sequence { prefix } => self.sequence_fed(prefix, signal),
        }
    }
}

fn is_char(code: KeyCode, wanted: char) -> (r: bool)
    ensures
        r == (code == KeyCode::Char(wanted)),
{
    match code {
        KeyCode::Char(c) => c == wanted,
        _ => false,
    }
}

impl KeyReader {
    /// Nothing read yet.
    pub fn new() -> (r: Self)
        ensures
            r@ == ReaderView::of_bytes(Seq::empty()),
    {
        let r = KeyReader {
            pending: VecDeque::new(),
            special: false,
            resized: false,
            mouse: VecDeque::new(),
            phase: Phase::Ready,
            sequence: Vec::new(),
        };
        assert(r@ =~= ReaderView::of_bytes(Seq::empty()));
        r
    }

    /// Nothing read yet, with these bytes in front of everything else.
    pub fn from_bytes(bytes: &[u8]) -> (r: Self)
        ensures
            r@ == ReaderView::of_bytes(bytes@),
    {
        let mut r = Self::new();
        r.push_pending(bytes);
        assert(r@ =~= ReaderView::of_bytes(bytes@));
        r
    }

    fn push_pending(&mut self, bytes: &[u8])
        ensures
            final(self)@ == (ReaderView { pending: old(self)@.pending + bytes@, ..old(self)@ }),
    {
        let mut i: usize = 0;
        let ghost start = self@;
        assert(self@.pending =~= start.pending + bytes@.subrange(0, 0));
        while i < bytes.len()
            invariant
                i <= bytes@.len(),
                self@ == (ReaderView {
                    pending: start.pending + bytes@.subrange(0, i as int),
                    ..start
                }),
            decreases bytes@.len() - i,
        {
            self.pending.push_back(bytes[i]);
            i += 1;
            assert(self@.pending =~= start.pending + bytes@.subrange(0, i as int));
        }
        assert(bytes@.subrange(0, bytes@.len() as int) =~= bytes@);
    }

    /// Whether the last key has no character, once.
    pub fn take_special(&mut self) -> (r: bool)
        ensures
            final(self)@ == (ReaderView { special: false, ..old(self)@ }),
            r == old(self)@.special,
    {
        let special = self.special;
        self.special = false;
        special
    }

    /// Whether a resize was observed since this was last asked, clearing the
    /// record.
    ///
    /// The terminal destroys screen content on every resize, so a caller that
    /// renders differentially has to repaint in full whenever this is true.
    /// Polling the size instead is not enough: a shrink and a matching grow
    /// that both land between two polls leave the size unchanged and the
    /// screen displaced.
    pub fn take_resized(&mut self) -> (r: bool)
        ensures
            final(self)@ == (ReaderView { resized: false, ..old(self)@ }),
            r == old(self)@.resized,
    {
        let resized = self.resized;
        self.resized = false;
        resized
    }

    /// What the mouse did first, taken out.
    pub fn take_mouse(&mut self) -> (r: Option<MouseEvent>)
        ensures
            match r {
                Some(mouse) => old(self)@.mouse.len() > 0 && mouse == old(self)@.mouse[0]
                    && final(self)@ == (ReaderView {
                    mouse: old(self)@.mouse.subrange(1, old(self)@.mouse.len() as int),
                    ..old(self)@
                }),
                None => old(self)@.mouse.len() == 0 && final(self)@ == old(self)@,
            },
    {
        self.mouse.pop_front()
    }

    /// The first pending byte, taken out. It has a character of its own.
    pub fn take_pending(&mut self) -> (r: Option<u8>)
        ensures
            (final(self)@, r) == (ReaderView { special: false, ..old(self)@ }).first_of(
                Seq::empty(),
            ),
    {
        self.special = false;
        assert(old(self)@.pending + Seq::<u8>::empty() =~= old(self)@.pending);
        self.pending.pop_front()
    }

    /// A key that was pressed: its value, if it has one.
    pub fn push_event_key(&mut self, key: KeyEvent) -> (r: Option<u8>)
        ensures
            (final(self)@, r) == old(self)@.key_read(key),
    {
        if key.kind == KeyEventKind::Release {
            return None;
        }
        match key.code {
            KeyCode::Backspace => Some(8),
            KeyCode::Enter => Some(13),
            KeyCode::Tab => Some(9),
            KeyCode::Esc => Some(27),
            KeyCode::Other => None,
            KeyCode::Char(c) => {
                let one: [char; 1] = [c];
                assert(one@ =~= seq![c]);
                let bytes = utf8_of(&one);
                if key.modifiers.alt {
                    self.push_pending(&bytes);
                    Some(27)
                } else if key.modifiers.control && (c as u32) < 128 {
                    Some(to_upper(c as u8) & 0x1f)
                } else {
                    self.push_pending(&bytes);
                    self.pending.pop_front()
                }
            },
            other => {
                self.special = true;
                special_key(other)
            },
        }
    }

    /// An event outside of any key.
    pub fn push_event(&mut self, event: Event) -> (r: Option<u8>)
        ensures
            (final(self)@, r) == old(self)@.event_read(event),
    {
        match event {
            Event::Mouse(mouse) => {
                self.mouse.push_back(mouse);
                None
            },
            Event::Resize => {
                self.resized = true;
                None
            },
            Event::Key(key) => self.push_event_key(key),
            Event::Other => None,
        }
    }

    fn enter(&mut self, phase: Phase)
        ensures
            final(self)@ == old(self)@.in_phase(phase),
    {
        self.phase = phase;
        self.sequence = Vec::new();
    }

    fn drop_sequence(&mut self, prefix: u8) -> (r: Step)
        ensures
            (final(self)@, r) == old(self)@.sequence_dropped(prefix),
    {
        self.pending.push_back(prefix);
        let bytes = crate::bytes::copy_bytes(&self.sequence);
        self.push_pending(&bytes);
        self.enter(Phase::Ready);
        Step::Key(27)
    }

    fn add_to_sequence(&mut self, prefix: u8, byte: u8) -> (r: Step)
        ensures
            (final(self)@, r) == old(self)@.sequence_byte(prefix, byte),
    {
        self.sequence.push(byte);
        if ends_sequence(byte) {
            let key: u8 = decode_escape_sequence(&self.sequence, byte);
            self.special = is_special_key(key);
            self.enter(Phase::Ready);
            Step::Key(key)
        } else if self.sequence.len() >= 32 {
            self.drop_sequence(prefix)
        } else {
            Step::More
        }
    }

    fn feed_sequence(&mut self, prefix: u8, signal: Signal) -> (r: Step)
        ensures
            (final(self)@, r) == old(self)@.sequence_fed(prefix, signal),
    {
        match signal {
            Signal::Quiet => self.drop_sequence(prefix),
            Signal::Event(Event::Key(key)) => {
                if key.kind == KeyEventKind::Release {
                    return Step::More;
                }
                match key.code {
                    KeyCode::Char(c) => {
                        if (c as u32) < 128 {
                            self.add_to_sequence(prefix, c as u8)
                        } else {
                            self.drop_sequence(prefix)
                        }
                    },
                    _ => self.drop_sequence(prefix),
                }
            },
            Signal::Event(Event::Resize) => {
                self.resized = true;
                self.drop_sequence(prefix)
            },
            Signal::Event(Event::Mouse(mouse)) => {
                self.mouse.push_back(mouse);
                Step::More
            },
            Signal::Event(Event::Other) => Step::More,
        }
    }

    fn feed_escape(&mut self, signal: Signal) -> (r: Step)
        ensures
            (final(self)@, r) == old(self)@.escape_fed(signal),
    {
        match signal {
            Signal::Event(Event::Key(key)) => {
                if key.kind == KeyEventKind::Release {
                    self.enter(Phase::Ready);
                    Step::Key(27)
                } else if is_char(key.code, '[') {
                    self.enter(Phase::Sequence { prefix: 91 });
                    Step::More
                } else if is_char(key.code, 'O') {
                    self.enter(Phase::Sequence { prefix: 79 });
                    Step::More
                } else {
                    self.enter(Phase::Ready);
                    if let Some(byte) = self.push_event_key(key) {
                        self.pending.push_back(byte);
                    }
                    Step::Key(27)
                }
            },
            Signal::Event(event) => {
                self.enter(Phase::Ready);
                let _ = self.push_event(event);
                Step::Key(27)
            },
            Signal::Quiet => {
                self.enter(Phase::Ready);
                Step::Key(27)
            },
        }
    }

    fn feed_ready(&mut self, signal: Signal, blocking: bool) -> (r: Step)
        ensures
            (final(self)@, r) == old(self)@.ready_fed(signal, blocking),
    {
        let idle = if blocking {
            Step::More
        } else {
            Step::Nothing
        };
        match signal {
            Signal::Quiet => idle,
            Signal::Event(Event::Key(key)) => {
                let escape = match key.code {
                    KeyCode::Esc => true,
                    _ => false,
                };
                if escape {
                    self.enter(Phase::Escaped);
                    Step::More
                } else if is_char(key.code, '[') && key.modifiers.alt {
                    self.enter(Phase::Sequence { prefix: 91 });
                    Step::More
                } else if is_char(key.code, 'O') && key.modifiers.alt {
                    self.enter(Phase::Sequence { prefix: 79 });
                    Step::More
                } else {
                    match self.push_event_key(key) {
                        Some(byte) => Step::Key(byte),
                        None => idle,
                    }
                }
            },
            Signal::Event(Event::Resize) => {
                let _ = self.push_event(Event::Resize);
                Step::Nothing
            },
            Signal::Event(event) => {
                let _ = self.push_event(event);
                idle
            },
        }
    }

    /// Takes a signal of the terminal. Where another one decides, the caller
    /// hands it on, or `Quiet` where none comes within a moment.
    pub fn feed(&mut self, signal: Signal, blocking: bool) -> (r: Step)
        ensures
            (final(self)@, r) == old(self)@.fed(signal, blocking),
    {
        match self.phase {
            Phase::Ready => self.feed_ready(signal, blocking),
            Phase::Escaped => self.feed_escape(signal),
            Phase::Sequence { prefix } => self.feed_sequence(prefix, signal),
        }
    }
}

} // verus!
