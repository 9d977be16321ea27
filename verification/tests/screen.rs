use busy_v::clipboard::{clipboard_helper_commands, write_osc52_clipboard, ClipboardDestination};
use busy_v::files::{is_write_protected, startup_file_denied};
use busy_v::keys::{KeyReader, Modifiers, MouseButton, MouseEvent, MouseEventKind};
use busy_v::run::{argument_name, run, startup_commands, Invocation};
use busy_v::screen::{choose_size, line_display_width, write_rendered_row, Platform};
use busy_v::{Editor, HighlightColor, HighlightSpan, HighlightStyle};
use std::cell::Cell;
use std::rc::Rc;

const NONE: Modifiers = Modifiers { shift: false, control: false, alt: false, logo: false };

fn mouse(kind: MouseEventKind, column: u16, row: u16) -> MouseEvent {
    MouseEvent { kind, column, row, modifiers: NONE }
}

fn shown(editor: &mut Editor) -> Vec<u8> {
    let mut out = Vec::new();
    editor.render_to(&mut out, None);
    out
}

#[test]
fn a_frame_has_every_row() {
    let mut editor = Editor::from_bytes(b"a\tb\n\x01\n", None, false);
    editor.refresh_size(Some((4, 12)), None);
    let frame = shown(&mut editor);
    assert_eq!(
        frame,
        b"\x1b[2J\x1b[H\x1b[1;1Ha       b\x1b[K\x1b[2;1H^A\x1b[K\x1b[3;1H~\x1b[K\x1b[4;1H\x1b[K- No file 1\x1b[?25h\x1b[1;1H"
            .to_vec()
    );
    assert_eq!(shown(&mut editor), b"\x1b[?25h\x1b[1;1H");
    editor.execute_keys(b"l").expect("move");
    assert_eq!(shown(&mut editor), b"\x1b[?25h\x1b[1;2H");
}

#[test]
fn the_visible_part_follows_the_cursor() {
    let mut data = Vec::new();
    for line in 0..50 {
        data.extend_from_slice(format!("line{line}\n").as_bytes());
    }
    let mut editor = Editor::from_bytes(&data, None, false);
    editor.refresh_size(Some((11, 20)), None);
    editor.execute_keys(b"12G").expect("near");
    editor.sync_screen();
    assert_eq!(editor.screen.top, 2);
    editor.execute_keys(b"40G").expect("far");
    editor.sync_screen();
    assert_eq!(editor.screen.top, 34);
    editor.execute_keys(b"gg").expect("back");
    editor.sync_screen();
    assert_eq!(editor.screen.top, 0);
    let mut wide = Editor::from_bytes(b"0123456789012345678901234567890\n", None, false);
    wide.refresh_size(Some((4, 10)), None);
    wide.execute_keys(b"$").expect("to the end");
    wide.sync_screen();
    assert_eq!(wide.screen.left, 21);
}

#[test]
fn sizes_are_chosen_and_kept_within_limits() {
    assert_eq!(choose_size(Some((30, 100)), Some((5, 50))), (30, 100));
    assert_eq!(choose_size(None, Some((5, 50))), (5, 50));
    assert_eq!(choose_size(None, Some((0, 50))), (24, 80));
    assert_eq!(choose_size(None, None), (24, 80));
    let mut editor = Editor::from_bytes(b"", None, false);
    assert!(editor.refresh_size(Some((1, 1)), None));
    assert_eq!((editor.screen.rows, editor.screen.cols), (2, 10));
    assert!(editor.refresh_size(Some((9999, 9999)), None));
    assert_eq!((editor.screen.rows, editor.screen.cols), (512, 4096));
    assert!(!editor.refresh_size(Some((9999, 9999)), None));
}

#[test]
fn widths_count_tabs_and_controls() {
    assert_eq!(line_display_width(b"ab\tc", 3, 8), 8);
    assert_eq!(line_display_width(b"\x01\x7f", 2, 8), 4);
    assert_eq!(line_display_width(b"abc", 10, 8), 3);
}

#[test]
fn the_end_clears_the_last_row() {
    let mut editor = Editor::from_bytes(b"", None, false);
    editor.refresh_size(Some((33, 80)), None);
    let mut out = b"x".to_vec();
    editor.write_farewell(&mut out);
    assert_eq!(out, b"x\x1b[?25h\x1b[33;1H\x1b[K");
}

#[test]
fn rows_are_sent_as_they_are_where_the_terminal_takes_bytes() {
    let mut out = Vec::new();
    write_rendered_row(&mut out, b"a\xe2\x9d", Platform::Unix);
    assert_eq!(out, b"a\xe2\x9d");
    out.clear();
    write_rendered_row(&mut out, "é".as_bytes(), Platform::Windows);
    assert_eq!(out, "é".as_bytes());
}

#[test]
fn the_mouse_leaves_the_text_alone() {
    let mut editor = Editor::from_bytes(b"one two\nthree\n", None, false);
    editor.refresh_size(Some((5, 20)), None);
    for event in [
        mouse(MouseEventKind::Down(MouseButton::Left), 0, 0),
        mouse(MouseEventKind::Drag(MouseButton::Left), 3, 1),
        mouse(MouseEventKind::Up(MouseButton::Left), 3, 1),
        mouse(MouseEventKind::ScrollDown, 0, 0),
        mouse(MouseEventKind::ScrollRight, 0, 0),
        mouse(MouseEventKind::Down(MouseButton::Right), 0, 0),
    ] {
        editor.handle_mouse_event(event);
        assert_eq!(editor.bytes(), b"one two\nthree\n");
        assert_eq!(editor.cursor(), (0, 0));
        assert!(!editor.is_modified());
    }
    assert_eq!((editor.screen.top, editor.screen.left), (1, 3));
    editor.handle_mouse_event(mouse(MouseEventKind::ScrollUp, 0, 0));
    editor.handle_mouse_event(mouse(MouseEventKind::ScrollLeft, 0, 0));
    assert_eq!((editor.screen.top, editor.screen.left), (0, 0));
}

#[test]
fn clicks_in_a_row_are_counted_where_they_are_quick() {
    let mut editor = Editor::from_bytes(b"alpha beta\n", None, false);
    editor.refresh_size(Some((5, 20)), None);
    let down = mouse(MouseEventKind::Down(MouseButton::Left), 7, 0);
    let up = mouse(MouseEventKind::Up(MouseButton::Left), 7, 0);
    assert_eq!(editor.handle_mouse(down, false), None);
    assert_eq!(editor.handle_mouse(up, false), None);
    assert_eq!(editor.handle_mouse(down, true), None);
    assert_eq!(editor.handle_mouse(up, false), Some(b"beta".to_vec()));
    assert_eq!(editor.handle_mouse(down, false), None);
    assert_eq!(editor.handle_mouse(up, false), None);
    let mut held = down;
    held.modifiers.alt = true;
    editor.handle_mouse(held, false);
    assert_eq!(editor.handle_mouse(up, false), Some(b"alpha beta".to_vec()));
    held.modifiers = NONE;
    held.modifiers.shift = true;
    let before = editor.mouse.selection;
    assert_eq!(editor.handle_mouse(held, false), None);
    assert_eq!(editor.mouse.selection, before);
}

#[test]
fn a_key_ends_what_the_mouse_began() {
    let mut editor = Editor::from_bytes(b"one\n", None, false);
    editor.refresh_size(Some((5, 20)), None);
    editor.handle_mouse(mouse(MouseEventKind::Down(MouseButton::Left), 0, 0), false);
    editor.handle_mouse(mouse(MouseEventKind::Drag(MouseButton::Left), 1, 0), false);
    assert_eq!(editor.announce_key(), Some(b"on".to_vec()));
    assert!(editor.mouse.selection.is_none());
    assert!(!editor.mouse.viewport_scrolled);
    assert_eq!(editor.announce_key(), None);
}

#[test]
fn queued_mouse_events_are_handled_in_order() {
    let mut editor = Editor::from_bytes(b"one two\n", None, false);
    editor.refresh_size(Some((5, 20)), None);
    let mut reader = KeyReader::new();
    assert_eq!(editor.handle_mouse_queue(&mut reader), (false, Vec::new()));
    for event in [
        mouse(MouseEventKind::Down(MouseButton::Left), 0, 0),
        mouse(MouseEventKind::Drag(MouseButton::Left), 2, 0),
        mouse(MouseEventKind::Up(MouseButton::Left), 2, 0),
        mouse(MouseEventKind::Down(MouseButton::Left), 4, 0),
        mouse(MouseEventKind::Drag(MouseButton::Left), 6, 0),
        mouse(MouseEventKind::Moved, 6, 0),
    ] {
        reader.mouse.push_back(event);
    }
    let (handled, texts) = editor.handle_mouse_queue(&mut reader);
    assert!(handled);
    assert_eq!(texts, vec![b"one".to_vec(), b"two".to_vec()]);
    assert!(reader.take_mouse().is_none());
}

#[test]
fn highlighters_are_asked_once_and_their_styles_move_with_the_text() {
    let calls = Rc::new(Cell::new(0));
    let counted = Rc::clone(&calls);
    let mut editor = Editor::from_bytes(b"one two\n", None, false);
    editor.set_syntax_highlighter(Box::new(move |_: &[u8]| {
        counted.set(counted.get() + 1);
        vec![
            HighlightSpan::new(0, 3, HighlightStyle::foreground(HighlightColor::Ansi(1))),
            HighlightSpan::new(4, 7, HighlightStyle::background(HighlightColor::Rgb { red: 1, green: 2, blue: 3 })),
        ]
    }));
    editor.refresh_size(Some((4, 20)), None);
    let first = shown(&mut editor);
    assert!(first
        .windows(b"\x1b[38;5;1mone\x1b[0m \x1b[48;2;1;2;3mtwo\x1b[0m".len())
        .any(|row| row == b"\x1b[38;5;1mone\x1b[0m \x1b[48;2;1;2;3mtwo\x1b[0m"));
    shown(&mut editor);
    assert_eq!(calls.get(), 1);
    editor.execute_keys(b"lllix\x1b").expect("type between the words");
    let spans = &editor.doc.syntax.highlights;
    assert_eq!((spans[0].start, spans[0].end), (0, 3));
    assert_eq!((spans[1].start, spans[1].end), (5, 8));
}

#[test]
fn arguments_are_read() {
    let texts = |words: &[&str]| words.iter().map(|word| word.to_string()).collect::<Vec<_>>();
    match run(texts(&["-R", "-c", "one", "-ctwo", "a", "b"])) {
        Invocation::Edit { readonly: true, commands, files } => {
            assert_eq!(commands, texts(&["one", "two"]));
            assert_eq!(files, texts(&["a", "b"]));
        }
        other => panic!("unexpected: {:?}", other),
    }
    match run(Vec::new()) {
        Invocation::Edit { readonly: false, commands, files } => {
            assert!(commands.is_empty());
            assert_eq!(files, texts(&[""]));
        }
        other => panic!("unexpected: {:?}", other),
    }
    assert!(matches!(run(texts(&["--help"])), Invocation::Help { code: 0 }));
    assert!(matches!(run(texts(&["a", "-h"])), Invocation::Help { code: 0 }));
    assert!(matches!(run(texts(&["-H"])), Invocation::Help { code: 1 }));
    assert!(matches!(
        run(texts(&["-c"])),
        Invocation::Refuse { message } if message == "vi: option requires an argument -- c"
    ));
    assert!(matches!(
        run(texts(&["-h", "-x"])),
        Invocation::Refuse { message } if message == "vi: unknown option: -x"
    ));
    assert_eq!(argument_name(""), None);
    assert_eq!(argument_name("a"), Some("a".to_string()));
}

#[test]
fn start_up_commands_are_trimmed_lines() {
    assert_eq!(
        startup_commands(" set ai \n\n\tset nu\u{3000}\n"),
        vec!["set ai".to_string(), "set nu".to_string()]
    );
    assert!(startup_commands("").is_empty());
    assert!(startup_file_denied(0o620, 5, Some(5)));
    assert!(startup_file_denied(0o600, 5, Some(6)));
    assert!(startup_file_denied(0o600, 5, None));
    assert!(!startup_file_denied(0o644, 5, Some(5)));
    assert!(is_write_protected(0o444));
    assert!(!is_write_protected(0o644));
}

#[test]
fn command_lists_stop_where_the_editor_stops() {
    let list = |words: &[&str]| words.iter().map(|word| word.to_string()).collect::<Vec<_>>();
    let mut editor = Editor::from_bytes(b"one\ntwo\n", Some("f".to_string()), false);
    let commands = list(&["1d", "w", "q", "1d"]);
    assert_eq!(editor.run_commands(&commands, 0), 2);
    assert!(editor.file_request().is_some());
    editor.finish_write(busy_v::files::WriteReply::Written);
    assert!(!editor.stops_command_list());
    assert_eq!(editor.run_commands(&commands, 2), 4);
    assert!(editor.should_quit());
    assert!(editor.stops_command_list());
    assert_eq!(editor.bytes(), b"two\n");
}

#[test]
fn clipboards_differ_by_system() {
    let mac = clipboard_helper_commands(ClipboardDestination::Clipboard, Platform::MacOs);
    assert_eq!(mac.len(), 4);
    assert_eq!(mac[3].program, "pbcopy");
    assert_eq!(mac[1].args, vec!["-selection", "clipboard"]);
    let windows = clipboard_helper_commands(ClipboardDestination::Primary, Platform::Windows);
    assert!(windows.is_empty());
    let mut out = b"x".to_vec();
    write_osc52_clipboard(&mut out, b"\x00\xff", Platform::Windows);
    assert_eq!(out, b"x\x1b]52;c;AP8=\x1b\\");
}
