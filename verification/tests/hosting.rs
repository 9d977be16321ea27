use busy_v::clipboard::write_osc52_clipboard;
use busy_v::files::{FileRequest, Guard, WriteReply};
use busy_v::keys::{Modifiers, MouseButton, MouseEvent, MouseEventKind};
use busy_v::pattern::{match_pattern_captures, MatchContext};
use busy_v::run::{repaint, startup, Repaint};
use busy_v::screen::Platform;
use busy_v::syntax::SYNTAX_HIGHLIGHT_DEBOUNCE;
use busy_v::{Editor, HighlightColor, HighlightSpan, HighlightStyle, SyntaxHighlighter};
use std::cell::{Cell, RefCell};
use std::ops::Range;
use std::rc::Rc;
use std::time::{Duration, Instant};

fn span(start: usize, end: usize) -> HighlightSpan {
    HighlightSpan::new(start, end, HighlightStyle::foreground(HighlightColor::Ansi(42)))
}

/// A highlighter that works in the background and tells what it was asked.
struct Background {
    asked: Rc<RefCell<Vec<String>>>,
    busy: Rc<Cell<bool>>,
    done: Rc<RefCell<Option<Vec<HighlightSpan>>>>,
}

impl SyntaxHighlighter for Background {
    fn highlight(&mut self, buffer: &[u8]) -> Vec<HighlightSpan> {
        let text = String::from_utf8_lossy(buffer).into_owned();
        self.asked.borrow_mut().push(format!("highlight {text:?}"));
        vec![span(0, 3)]
    }

    fn highlight_visible(&mut self, _: &[u8], range: Range<usize>) -> Option<Vec<HighlightSpan>> {
        self.asked.borrow_mut().push(format!("visible {}..{}", range.start, range.end));
        None
    }

    fn invalidate_visible(&mut self) {
        self.asked.borrow_mut().push("invalidate".to_string());
    }

    fn poll(&mut self) -> Option<Vec<HighlightSpan>> {
        self.done.borrow_mut().take()
    }

    fn has_pending_work(&self) -> bool {
        self.busy.get()
    }
}

#[test]
fn ranges_of_a_busy_highlighter_stay_until_the_poll_brings_others() {
    let asked = Rc::new(RefCell::new(Vec::new()));
    let busy = Rc::new(Cell::new(true));
    let done = Rc::new(RefCell::new(None));
    let mut editor = Editor::from_bytes(b"one\ntwo\n", None, false);
    editor.set_syntax_highlighter(Box::new(Background {
        asked: Rc::clone(&asked),
        busy: Rc::clone(&busy),
        done: Rc::clone(&done),
    }));
    assert_eq!(asked.borrow().as_slice(), ["invalidate"]);
    assert_eq!(editor.syntax_highlights(), Some(&[span(0, 3)][..]));
    assert_eq!(editor.syntax_highlights(), Some(&[span(0, 3)][..]));
    assert_eq!(asked.borrow().as_slice(), ["invalidate", "highlight \"one\\ntwo\\n\""]);
    *done.borrow_mut() = Some(vec![span(4, 7)]);
    busy.set(false);
    assert_eq!(editor.syntax_highlights(), Some(&[span(4, 7)][..]));
    assert_eq!(editor.syntax_highlights(), Some(&[span(4, 7)][..]));
    assert_eq!(asked.borrow().len(), 2);
}

/// A highlighter that has nothing to show while it works.
struct Silent {
    busy: Rc<Cell<bool>>,
}

impl SyntaxHighlighter for Silent {
    fn highlight(&mut self, _: &[u8]) -> Vec<HighlightSpan> {
        if self.busy.get() {
            Vec::new()
        } else {
            vec![span(0, 3)]
        }
    }

    fn has_pending_work(&self) -> bool {
        self.busy.get()
    }
}

#[test]
fn ranges_at_hand_stay_while_a_busy_highlighter_has_none() {
    let busy = Rc::new(Cell::new(false));
    let mut editor = Editor::from_bytes(b"one\ntwo\n", None, false);
    editor.set_syntax_highlighter(Box::new(Silent { busy: Rc::clone(&busy) }));
    assert_eq!(editor.syntax_highlights(), Some(&[span(0, 3)][..]));
    editor.execute_keys(b"iX\x1b").expect("edit");
    busy.set(true);
    assert!(!editor.refresh_syntax_highlighting(true, None));
    assert_eq!(editor.syntax_highlights(), Some(&[span(1, 4)][..]));
    busy.set(false);
    editor.execute_keys(b"x").expect("edit");
    assert_eq!(editor.syntax_highlights(), Some(&[span(0, 3)][..]));
}

#[test]
fn a_highlighter_is_told_of_each_change_and_asked_nothing_else() {
    let asked = Rc::new(RefCell::new(Vec::new()));
    let mut editor = Editor::from_bytes(b"one\ntwo\n", None, false);
    editor.set_syntax_highlighter(Box::new(Background {
        asked: Rc::clone(&asked),
        busy: Rc::new(Cell::new(false)),
        done: Rc::new(RefCell::new(None)),
    }));
    editor.syntax_highlights();
    asked.borrow_mut().clear();
    editor.execute_keys(b"jlk0yy/two\r:set number\r:w\r").expect("no change");
    assert!(asked.borrow().is_empty());
    editor.finish_write(WriteReply::Written);
    editor.execute_keys(b"iab\x1b").expect("two edits");
    assert_eq!(asked.borrow().as_slice(), ["invalidate", "invalidate"]);
    editor.execute_keys(b"u").expect("take back");
    assert_eq!(asked.borrow().len(), 3);
    editor.execute_keys(b":s/two/2/\r").expect("substitute");
    assert_eq!(asked.borrow().as_slice(), ["invalidate"; 4]);
    editor.syntax_highlights();
    assert_eq!(
        asked.borrow().last().map(String::as_str),
        Some("highlight \"one\\n2\\n\"")
    );
    assert_eq!(asked.borrow().len(), 5);
}

#[test]
fn the_pause_begins_anew_with_each_edit() {
    let mut editor = Editor::from_bytes(b"one\n", None, false);
    editor.set_syntax_highlighter(Box::new(|_: &[u8]| vec![span(0, 1)]));
    editor.execute_keys(b"x").expect("edit");
    editor.doc.syntax.edited_at =
        Some(Instant::now() - Duration::from_nanos(SYNTAX_HIGHLIGHT_DEBOUNCE as u64));
    editor.execute_keys(b"x").expect("edit");
    assert!(!editor.refresh_syntax_highlighting(false, None));
}

#[test]
fn a_message_of_bytes_reads_as_the_text_that_they_encode() {
    let mut editor = Editor::from_bytes(b"one\n", None, false);
    editor.set_status_bytes("né".as_bytes().to_vec());
    assert_eq!(editor.status(), "né");
    for key in b":w n" {
        editor.press(*key, false);
    }
    assert_eq!(editor.prompt().as_deref(), Some(":w n"));
}

#[test]
fn a_result_for_an_older_text_is_not_applied() {
    let asked = Rc::new(RefCell::new(Vec::new()));
    let busy = Rc::new(Cell::new(false));
    let done = Rc::new(RefCell::new(None));
    let mut editor = Editor::from_bytes(b"one\ntwo\n", None, false);
    editor.set_syntax_highlighter(Box::new(Background {
        asked: Rc::clone(&asked),
        busy: Rc::clone(&busy),
        done: Rc::clone(&done),
    }));
    assert!(editor.refresh_syntax_highlighting(false, None));
    editor.execute_keys(b"iX\x1b").expect("edit");
    *done.borrow_mut() = Some(vec![span(4, 7)]);
    assert!(!editor.refresh_syntax_highlighting(false, None));
    assert_eq!(editor.doc.syntax.highlights, [span(1, 4)]);
    editor.doc.syntax.edited_at =
        Some(Instant::now() - Duration::from_nanos(SYNTAX_HIGHLIGHT_DEBOUNCE as u64));
    busy.set(true);
    assert!(!editor.refresh_syntax_highlighting(false, Some((0, 4))));
    assert_eq!(asked.borrow().last().map(String::as_str), Some("visible 0..4"));
    busy.set(false);
    assert!(editor.refresh_syntax_highlighting(false, None));
    assert_eq!(
        asked.borrow().last().map(String::as_str),
        Some("highlight \"Xone\\ntwo\\n\"")
    );
}

#[test]
fn a_highlighter_takes_the_place_of_the_one_before() {
    let mut editor = Editor::from_bytes(b"one\n", None, false);
    editor.set_syntax_highlighter(Box::new(|_: &[u8]| vec![span(0, 1)]));
    assert_eq!(editor.syntax_highlights(), Some(&[span(0, 1)][..]));
    editor.set_syntax_highlighter(Box::new(|buffer: &[u8]| vec![span(1, buffer.len())]));
    assert!(editor.doc.syntax.highlights.is_empty());
    assert_eq!(editor.syntax_highlights(), Some(&[span(1, 4)][..]));
    editor.clear_syntax_highlighter();
    assert_eq!(editor.syntax_highlights(), None);
}

#[test]
fn a_key_makes_the_mouse_forget_its_clicks() {
    let mut editor = Editor::from_bytes(b"alpha beta\n", None, false);
    editor.refresh_size(Some((5, 20)), None);
    let modifiers = Modifiers { shift: false, control: false, alt: false, logo: false };
    let down = MouseEvent {
        kind: MouseEventKind::Down(MouseButton::Left),
        column: 7,
        row: 0,
        modifiers,
    };
    editor.handle_mouse_event(down);
    assert!(editor.mouse.last_click.is_some());
    assert_eq!(editor.announce_key(), None);
    assert!(editor.mouse.last_click.is_none());
    editor.handle_mouse_event(down);
    assert_eq!(editor.mouse.last_click.map(|(_, _, clicks)| clicks), Some(1));
    editor.handle_mouse_event(down);
    assert_eq!(editor.mouse.last_click.map(|(_, _, clicks)| clicks), Some(2));
    let long_ago = Instant::now() - Duration::from_millis(451);
    editor.mouse.last_click = editor.mouse.last_click.map(|(_, point, n)| (long_ago, point, n));
    editor.handle_mouse_event(down);
    assert_eq!(editor.mouse.last_click.map(|(_, _, clicks)| clicks), Some(1));
}

#[test]
fn a_write_is_refused_where_another_file_is_present() {
    let mut editor = Editor::from_bytes(b"one\n", Some("dir/file".to_string()), false);
    for (command, path, refused) in [
        ("w dir/file", "dir/file", false),
        ("w dir//file", "dir//file", false),
        ("w dir/other", "dir/other", true),
        ("w! dir/other", "dir/other", false),
    ] {
        editor.execute_ex(command);
        match editor.file_request() {
            Some(FileRequest::Write { path: asked, guard, .. }) => {
                assert_eq!(asked, path);
                assert_eq!(guard.refuses(asked, true), refused, "{command}");
                assert!(!guard.refuses(asked, false));
            }
            other => panic!("unexpected request: {:?}", other),
        }
        editor.finish_write(WriteReply::Failed("no".to_string()));
    }
    assert!(Guard::Refuse { except: None }.refuses("file", true));
    assert!(!Guard::Refuse { except: None }.refuses("file", false));
    assert!(!Guard::Overwrite.refuses("file", true));
}

#[test]
fn a_startup_file_that_is_not_trusted_gives_no_commands() {
    assert_eq!(
        startup(true, "set ai\n"),
        (Vec::new(), Some(".exrc: permission denied".to_string()))
    );
    assert_eq!(
        startup(false, " set ai \n\nset nu\n"),
        (vec!["set ai".to_string(), "set nu".to_string()], None)
    );
}

#[test]
fn the_screen_is_painted_where_something_changed() {
    assert_eq!(repaint(false, false, false, false), Repaint { forget: false, paint: false });
    assert_eq!(repaint(true, false, false, false), Repaint { forget: false, paint: true });
    assert_eq!(repaint(false, true, false, false), Repaint { forget: true, paint: true });
    assert_eq!(repaint(false, false, true, false), Repaint { forget: false, paint: true });
    assert_eq!(repaint(false, false, false, true), Repaint { forget: false, paint: true });
}

#[test]
fn the_platform_is_the_one_that_the_editor_runs_on() {
    let expected = if std::path::MAIN_SEPARATOR == '\\' { Platform::Windows } else { Platform::Unix };
    assert_eq!(Platform::host(), expected);
    assert_eq!(Editor::from_bytes(b"", None, false).platform, expected);
}

#[test]
fn copied_bytes_are_sent_in_base64() {
    for (bytes, encoded) in [
        (&b""[..], ""),
        (b"M", "TQ=="),
        (b"Ma", "TWE="),
        (b"Man", "TWFu"),
        (b"\xfb\xef\xbe\xff", "++++/w=="),
    ] {
        let mut out = Vec::new();
        write_osc52_clipboard(&mut out, bytes, Platform::Unix);
        let text = String::from_utf8(out).expect("escape sequences");
        assert!(text.contains(&format!("\x1b]52;c;{encoded}\x1b\\")), "{text:?}");
    }
}

#[test]
fn one_change_is_taken_back_with_the_cursor_and_the_flag() {
    for keys in [&b"x"[..], b"D", b"J", b"~", b"dd", b">>"] {
        let mut editor = Editor::from_bytes(b"one two\n three\nfour\n", None, false);
        editor.execute_keys(b"w").expect("move");
        let before = (editor.bytes(), editor.cursor(), editor.is_modified());
        editor.execute_keys(keys).expect("change");
        let changed = editor.bytes();
        assert_ne!(changed, before.0);
        editor.execute_keys(b"u").expect("take back");
        assert_eq!((editor.bytes(), editor.cursor(), editor.is_modified()), before);
        editor.execute_keys(b"\x12").expect("make again");
        assert_eq!(editor.bytes(), changed);
    }
}

#[test]
fn a_deleted_line_is_put_back() {
    let mut editor = Editor::from_bytes(b"one\ntwo\nthree\n", None, false);
    editor.execute_keys(b"jddP").expect("delete and put");
    assert_eq!(editor.bytes(), b"one\ntwo\nthree\n");
    assert_eq!(editor.cursor(), (1, 0));
}

#[test]
fn a_failing_match_looks_into_every_place_once() {
    let text = vec![b'a'; 40];
    let pattern = b"a*a*a*a*b";
    let mut context = MatchContext::new(pattern);
    let matched =
        match_pattern_captures(&text, 0, pattern, 0, [None; 10], Vec::new(), &mut context);
    assert!(matched.is_none());
    assert!(context.evaluated_states as usize <= (text.len() + 1) * pattern.len());
}
