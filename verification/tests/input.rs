use busy_v::keys::{
    decode_escape_sequence, read_key, Event, Expects, KeyCode, KeyEvent, KeyEventKind, KeyReader,
    Modifiers, MouseButton, MouseEvent, MouseEventKind, Phase, Signal, Step,
};
use busy_v::Editor;

const NONE: Modifiers = Modifiers { shift: false, control: false, alt: false, logo: false };

fn press(code: KeyCode) -> Signal {
    Signal::Event(Event::Key(KeyEvent { code, modifiers: NONE, kind: KeyEventKind::Press }))
}

fn click() -> Event {
    Event::Mouse(MouseEvent {
        kind: MouseEventKind::Down(MouseButton::Left),
        column: 1,
        row: 0,
        modifiers: NONE,
    })
}

#[test]
fn bytes_are_decoded_into_keys() {
    assert_eq!(read_key(b"a", 0), (b'a', false, 1));
    assert_eq!(read_key(b"\x1b", 0), (27, false, 1));
    assert_eq!(read_key(b"\x1bx", 0), (27, false, 1));
    assert_eq!(read_key(b"\x1b[A", 0), (0x80, true, 3));
    assert_eq!(read_key(b"x\x1bOH", 1), (0x84, true, 4));
    assert_eq!(read_key(b"\x1b[3~x", 0), (0x87, true, 4));
    assert_eq!(read_key(b"\x1b[12", 0), (27, false, 4));
    assert_eq!(read_key(b"\x1b[Zx", 0), (27, false, 3));
    let mut long = b"\x1b[".to_vec();
    long.extend(vec![b'1'; 40]);
    assert_eq!(read_key(&long, 0), (27, false, 34));
    assert_eq!(decode_escape_sequence(b"", b'A'), 0x80);
    assert_eq!(decode_escape_sequence(b"9~", b'~'), 27);
}

#[test]
fn an_escape_alone_comes_after_a_moment() {
    let mut reader = KeyReader::new();
    assert_eq!(reader.feed(press(KeyCode::Esc), false), Step::More);
    assert_eq!(reader.phase, Phase::Escaped);
    assert_eq!(reader.feed(Signal::Quiet, false), Step::Key(27));
    assert_eq!(reader.phase, Phase::Ready);
}

#[test]
fn a_sequence_in_pieces_is_one_key() {
    let mut reader = KeyReader::new();
    assert_eq!(reader.feed(press(KeyCode::Esc), false), Step::More);
    assert_eq!(reader.feed(press(KeyCode::Char('[')), false), Step::More);
    assert_eq!(reader.feed(press(KeyCode::Char('6')), false), Step::More);
    assert_eq!(reader.feed(press(KeyCode::Char('~')), false), Step::Key(0x89));
    assert!(reader.take_special());
    assert!(!reader.take_special());
    assert_eq!(read_key(b"\x1b[6~", 0), (0x89, true, 4));
}

#[test]
fn a_sequence_that_comes_to_nothing_is_given_back() {
    let mut reader = KeyReader::new();
    reader.feed(press(KeyCode::Esc), false);
    reader.feed(press(KeyCode::Char('[')), false);
    reader.feed(press(KeyCode::Char('1')), false);
    assert_eq!(reader.feed(Signal::Quiet, false), Step::Key(27));
    assert_eq!(reader.take_pending(), Some(b'['));
    assert_eq!(reader.take_pending(), Some(b'1'));
    assert_eq!(reader.take_pending(), None);
}

#[test]
fn a_key_behind_an_escape_follows_it() {
    let mut reader = KeyReader::new();
    reader.feed(press(KeyCode::Esc), false);
    assert_eq!(reader.feed(press(KeyCode::Char('x')), false), Step::Key(27));
    assert_eq!(reader.take_pending(), Some(b'x'));
}

#[test]
fn waiting_for_a_key_is_interrupted_by_a_resize_only() {
    let mut reader = KeyReader::new();
    assert_eq!(reader.feed(Signal::Event(click()), true), Step::More);
    assert_eq!(reader.feed(Signal::Event(Event::Other), true), Step::More);
    assert_eq!(reader.feed(Signal::Event(Event::Resize), true), Step::Nothing);
    assert!(reader.take_resized());
    assert_eq!(reader.feed(Signal::Event(click()), false), Step::Nothing);
    assert_eq!(reader.feed(Signal::Quiet, false), Step::Nothing);
    assert!(reader.take_mouse().is_some());
    assert!(reader.take_mouse().is_some());
    assert!(reader.take_mouse().is_none());
    assert_eq!(reader.feed(press(KeyCode::Enter), true), Step::Key(13));
}

#[test]
fn a_resize_within_a_sequence_is_noted() {
    let mut reader = KeyReader::new();
    reader.feed(press(KeyCode::Esc), false);
    reader.feed(press(KeyCode::Char('O')), false);
    assert_eq!(reader.feed(Signal::Event(click()), false), Step::More);
    assert_eq!(reader.feed(Signal::Event(Event::Resize), false), Step::Key(27));
    assert!(reader.take_resized());
    assert_eq!(reader.take_pending(), Some(b'O'));
    assert!(reader.take_mouse().is_some());
}

#[test]
fn bytes_in_front_come_first() {
    let mut reader = KeyReader::from_bytes(b"ab");
    assert_eq!(reader.take_pending(), Some(b'a'));
    assert_eq!(reader.take_pending(), Some(b'b'));
    assert_eq!(reader.take_pending(), None);
}

#[test]
fn the_editor_tells_what_it_waits_for() {
    let mut editor = Editor::from_bytes(b"abc\n", None, false);
    assert_eq!(editor.expects(), Expects::Command);
    editor.press(b'd', false);
    assert_eq!(editor.expects(), Expects::Key);
    editor.press(b'l', false);
    assert_eq!(editor.expects(), Expects::Command);
    assert_eq!(editor.bytes(), b"c\n");
    editor.press(b':', false);
    assert_eq!(editor.expects(), Expects::Line);
    assert_eq!(editor.prompt().as_deref(), Some(":"));
    editor.press(b'q', false);
    editor.press(b'x', false);
    editor.press(8, false);
    assert_eq!(editor.prompt().as_deref(), Some(":q"));
    editor.press(27, false);
    assert_eq!(editor.prompt(), None);
    editor.press(b'?', false);
    editor.press(b'a', false);
    assert_eq!(editor.prompt().as_deref(), Some("?a"));
    editor.press(27, false);
    editor.press(b'/', false);
    assert_eq!(editor.prompt().as_deref(), Some("/"));
}

#[test]
fn keys_in_pieces_do_what_they_do_in_one_piece() {
    let mut whole = Editor::from_bytes(b"one two\nthree\n", None, false);
    whole.execute_keys(b"wiX\x1b[B!\x1bdd").expect("one piece");
    let mut pieces = Editor::from_bytes(b"one two\nthree\n", None, false);
    pieces.execute_keys(b"wiX\x1b[B").expect("first piece");
    pieces.execute_keys(b"!\x1bdd").expect("second piece");
    assert_eq!(whole.bytes(), pieces.bytes());
    assert_eq!(whole.cursor(), pieces.cursor());
    assert_eq!(whole.bytes(), b"one Xtwo\n");
}
