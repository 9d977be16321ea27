use busy_v::address::{parse_ex, Marks};
use busy_v::edits::{other_case, shift_line};
use busy_v::files::{FileRequest, LoadReply, WriteReply};
use busy_v::highlight::HighlightCursor;
use busy_v::motion::matching_position;
use busy_v::pattern::{find_pattern, pattern_error, pattern_is_valid};
use busy_v::substitute::replace_pattern_case;
use busy_v::text::{data_lines, serialize_lines};
use busy_v::{Editor, HighlightColor, HighlightSpan, HighlightStyle};

#[test]
fn a_written_text_loads_as_it_was() {
    for text in [&b""[..], b"\n", b"a", b"a\n", b"a\n\nb\n", b"\n\n", b"a\r\n\x00\xff"] {
        assert_eq!(serialize_lines(&data_lines(text), text.ends_with(b"\n")), text);
        let mut first = Editor::from_bytes(text, Some("f".to_string()), false);
        first.execute_ex("w");
        let data = match first.file_request() {
            Some(FileRequest::Write { data, .. }) => data.clone(),
            other => panic!("unexpected request: {:?}", other),
        };
        first.finish_write(WriteReply::Written);
        let mut second = Editor::new(Some("f".to_string()), false);
        second.finish_load(LoadReply::Loaded { data, write_protected: false });
        assert_eq!(second.bytes(), text);
    }
}

#[test]
fn every_kind_of_change_is_taken_back_and_made_again() {
    let text = b"one two\n\tthree (four)\n\nfive\n";
    for keys in [
        &b"x"[..],
        b"3dd",
        b"dw",
        b"jJ",
        b"5~",
        b">>",
        b"j<<",
        b"2rZ",
        b"Yp",
        b"xp",
        b"inew\rline\x1b",
        b"jA\x7f\x7f\x1b",
        b"jI\x7f\x1b",
        b"RXYZ\x1b",
        b"O\tup\x1b",
        b"Sgone\x1b",
        b"2sy\x1b",
        b":%s/e/EE/g\r",
        b":2,3d\r",
        b"\x1b[3~",
        b"GdG",
    ] {
        let mut editor = Editor::from_bytes(text, None, false);
        editor.execute_keys(keys).expect("a change");
        let changed = editor.bytes();
        assert_ne!(changed, text, "{:?} changes the text", keys);
        let depth = editor.doc.undo.len();
        for _ in 0..depth {
            editor.execute_keys(b"u").expect("undo");
        }
        assert_eq!(editor.bytes(), text, "{:?} is taken back", keys);
        assert!(!editor.is_modified());
        for _ in 0..depth {
            editor.execute_keys(b"\x12").expect("redo");
        }
        assert_eq!(editor.bytes(), changed, "{:?} is made again", keys);
        editor.execute_keys(b"u\x12").expect("undo and redo");
        assert_eq!(editor.bytes(), changed);
    }
}

#[test]
fn moving_about_changes_nothing() {
    let text = b"one two\n\tthree (four)\n\nfive\n";
    let mut editor = Editor::from_bytes(text, None, false);
    editor
        .execute_keys(b"wWeEbB0^$%jkhl+-HML}{G1G \x7f\x04\x15\x06\x02\x05\x19z.z-fo;,\r5|")
        .expect("motions");
    assert_eq!(editor.bytes(), text);
    assert!(!editor.is_modified());
    assert!(editor.doc.undo.is_empty());
}

#[test]
fn shifting_and_switching_back() {
    for line in [&b""[..], b"a", b"\ta", b"   a"] {
        assert_eq!(shift_line(&shift_line(line, true, 8), false, 8), line);
    }
    for byte in 0..=255u8 {
        assert_eq!(other_case(other_case(byte)), byte);
    }
    assert_eq!(other_case(b'a'), b'A');
    assert_eq!(other_case(b'Z'), b'z');
    assert_eq!(other_case(b'1'), b'1');
}

#[test]
fn a_change_repeated_without_a_command_is_typed_over_nothing() {
    let mut editor = Editor::from_bytes(b"ab cd\n", None, false);
    editor.execute_keys(b"cex\x1b").expect("change a word");
    assert_eq!(editor.bytes(), b"x cd\n");
    assert_eq!(editor.input.last_change, b"x");
}

#[test]
fn brackets_that_close_have_their_place() {
    assert_eq!(matching_position(b"(a)", 2), Some(0));
    assert_eq!(matching_position(b"((a)", 3), Some(1));
    assert_eq!(matching_position(b"a)", 1), None);
    assert_eq!(matching_position(b"(a)", 0), None);
    assert_eq!(matching_position(b"", 0), None);
}

#[test]
fn patterns_match_as_they_are_written() {
    assert_eq!(find_pattern(b"hello", b"l*o", 0), Some(2));
    assert_eq!(find_pattern(b"hello", b"^h", 1), None);
    assert_eq!(find_pattern(b"a.c", b"a\\.c", 0), Some(0));
    assert_eq!(find_pattern(b"abc", b"a\\.c", 0), None);
    assert_eq!(find_pattern(b"x1y", b"[0-9]", 0), Some(1));
    assert_eq!(find_pattern(b"x1y", b"[^x]*$", 0), Some(1));
    assert_eq!(find_pattern(b"abab", b"\\(ab\\)\\1", 0), Some(0));
    assert!(pattern_is_valid(b"a*"));
    assert!(!pattern_is_valid(b"[a"));
    assert_eq!(pattern_error(b"["), Some("Invalid regular expression"));
    assert_eq!(pattern_error(b"[a"), Some("Unmatched [, [^, [:, [., or [="));
    assert_eq!(pattern_error(b"a\\"), Some("Trailing backslash"));
    assert_eq!(pattern_error(b"a\\)"), Some("Unmatched ) or \\)"));
    assert_eq!(pattern_error(b"\\(a"), Some("Unmatched ( or \\("));
    assert_eq!(pattern_error(b"a*"), None);
}

#[test]
fn replacements_use_what_was_matched() {
    assert_eq!(
        replace_pattern_case(b"foo bar", b"o", b"0", true, false),
        (b"f00 bar".to_vec(), 2)
    );
    assert_eq!(
        replace_pattern_case(b"foo bar", b"\\(o\\)\\(o\\)", b"\\2&\\1", false, false),
        (b"foooo bar".to_vec(), 1)
    );
    assert_eq!(
        replace_pattern_case(b"Foo", b"f", b"x", false, true),
        (b"xoo".to_vec(), 1)
    );
    assert_eq!(
        replace_pattern_case(b"foo", b"z", b"x", true, false),
        (b"foo".to_vec(), 0)
    );
}

#[test]
fn commands_are_taken_apart() {
    let lines = vec![b"one".to_vec(), b"two".to_vec(), b"three".to_vec()];
    let marks: Marks = [None; 26];
    let mut search = None;
    let chars = |text: &str| text.chars().collect::<Vec<char>>();
    let parsed = parse_ex(&chars("2,$s/a/b/"), 0, &lines, false, &marks, &mut search)
        .expect("a command");
    assert_eq!(parsed.addresses, Some((1, 2)));
    assert_eq!(parsed.name, chars("s"));
    assert_eq!(parsed.args, chars("/a/b/"));
    for wrong in ["9d", "3,1d", "99999999999999999999d", "-5d"] {
        match parse_ex(&chars(wrong), 0, &lines, false, &marks, &mut search) {
            Err(message) => assert_eq!(message, "Invalid range"),
            Ok(_) => panic!("{} is no range", wrong),
        }
    }
    let relative = parse_ex(&chars("/two/;+1="), 0, &lines, false, &marks, &mut search)
        .expect("a command");
    assert_eq!(relative.addresses, Some((1, 2)));
    assert_eq!(search, Some((b"two".to_vec(), true)));
}

#[test]
fn messages_show_bytes_that_are_no_text() {
    let mut editor = Editor::from_bytes(b"", None, false);
    editor.set_status_bytes(b"a\xffb".to_vec());
    assert_eq!(editor.status(), "a\u{fffd}b");
    assert_eq!(editor.message.bytes, b"a\xffb");
}

#[test]
fn styles_are_written_as_escape_sequences() {
    let style = HighlightStyle::plain()
        .with_foreground(HighlightColor::Ansi(7))
        .with_background(HighlightColor::Rgb { red: 1, green: 2, blue: 3 })
        .with_bold(true)
        .with_italic(true)
        .with_underline(true);
    let mut out = Vec::new();
    style.write_sgr(&mut out);
    assert_eq!(out, b"\x1b[1;3;4;38;5;7;48;2;1;2;3m");
    assert!(HighlightStyle::plain().is_plain());
    assert!(!style.is_plain());
    assert_eq!(HighlightStyle::default(), HighlightStyle::plain());
}

#[test]
fn a_cursor_over_spans_finds_the_one_that_covers() {
    let red = HighlightStyle::foreground(HighlightColor::Ansi(1));
    let spans = [
        HighlightSpan::new(2, 4, red),
        HighlightSpan::new(6, 7, HighlightStyle::plain()),
    ];
    let mut cursor = HighlightCursor::new(&spans);
    assert_eq!(cursor.style_at(1), None);
    assert_eq!(cursor.style_at(2), Some(red));
    assert_eq!(cursor.style_at(3), Some(red));
    assert_eq!(cursor.style_at(4), None);
    assert_eq!(cursor.style_at(6), None);
}
