use busy_v::editor::Editor;
use busy_v::keys::InputClosed;

fn after(text: &[u8], keys: &[u8]) -> Editor {
    let mut editor = Editor::from_bytes(text, None, false);
    editor.execute_keys(keys).expect("keys form whole commands");
    editor
}

fn text_after(text: &[u8], keys: &[u8]) -> Vec<u8> {
    after(text, keys).bytes()
}

#[test]
fn deleting_bytes_lines_and_words() {
    assert_eq!(text_after(b"abc\n", b"x"), b"bc\n");
    assert_eq!(text_after(b"abcd\n", b"3x"), b"d\n");
    assert_eq!(text_after(b"abcd\n", b"lD"), b"a\n");
    assert_eq!(text_after(b"abcd\n", b"llX"), b"acd\n");
    assert_eq!(text_after(b"one\ntwo\nthree\n", b"dd"), b"two\nthree\n");
    assert_eq!(text_after(b"one\ntwo\nthree\n", b"2dd"), b"three\n");
    assert_eq!(text_after(b"one\n", b"dd"), b"\n");
    assert_eq!(text_after(b"one two three\n", b"dfe"), b" two three\n");
    assert_eq!(text_after(b"one two\n", b"d$"), b"\n");
}

#[test]
fn an_operator_takes_the_byte_that_its_motion_leads_to() {
    assert_eq!(text_after(b"abc def\n", b"dw"), b"ef\n");
    assert_eq!(text_after(b"abc def\n", b"de"), b" def\n");
    assert_eq!(text_after(b"abcdef\n", b"dl"), b"cdef\n");
    assert_eq!(text_after(b"a(b)c\n", b"ld%"), b"ac\n");
}

#[test]
fn operators_over_lines_take_whole_lines() {
    assert_eq!(text_after(b"one\ntwo\nthree\n", b"dj"), b"three\n");
    assert_eq!(text_after(b"one\ntwo\nthree\n", b"jdG"), b"one\n");
    assert_eq!(text_after(b"one\ntwo\nthree\n", b"jdgg"), b"three\n");
}

#[test]
fn changing_text_replaces_it_by_what_is_typed() {
    assert_eq!(text_after(b"one two\n", b"ceX\x1b"), b"X two\n");
    assert_eq!(text_after(b"one\ntwo\n", b"ccnew\x1b"), b"newtwo\n");
    assert_eq!(text_after(b"one two\n", b"lCx\x1b"), b"ox\n");
    assert_eq!(text_after(b"one\ntwo\n", b"Snew\x1b"), b"new\ntwo\n");
    assert_eq!(text_after(b"abc\n", b"2sX\x1b"), b"Xc\n");
}

#[test]
fn opening_lines_and_typing_at_their_ends() {
    assert_eq!(text_after(b"a\nb\n", b"oX\x1b"), b"a\nX\nb\n");
    assert_eq!(text_after(b"a\nb\n", b"jOX\x1b"), b"a\nX\nb\n");
    assert_eq!(text_after(b"  ab\n", b"IX\x1b"), b"  Xab\n");
    assert_eq!(text_after(b"ab\n", b"aX\x1b"), b"aXb\n");
    assert_eq!(text_after(b"ab\n", b"AX\x1b"), b"abX\n");
}

#[test]
fn replacing_typed_over_and_by_one_key() {
    assert_eq!(text_after(b"abcd\n", b"RXY\x1b"), b"XYcd\n");
    assert_eq!(text_after(b"ab\n", b"RXYZ\x1b"), b"XYZ\n");
    assert_eq!(text_after(b"abcd\n", b"2rX"), b"XXcd\n");
    assert_eq!(text_after(b"abcd\n", b"r\x1b"), b"abcd\n");
}

#[test]
fn joining_case_and_shifting() {
    assert_eq!(text_after(b"one\ntwo\n", b"J"), b"one two\n");
    assert_eq!(text_after(b"\ntwo\n", b"J"), b"two\n");
    assert_eq!(text_after(b"aB1\n", b"3~"), b"Ab1\n");
    assert_eq!(text_after(b"one\ntwo\n", b"2>>"), b"\tone\n\ttwo\n");
    assert_eq!(text_after(b"\tone\n", b"<<"), b"one\n");
    assert_eq!(text_after(b"          one\n", b"<<"), b"  one\n");
}

#[test]
fn newlines_and_backspaces_while_typing() {
    assert_eq!(text_after(b"abcd\n", b"lli\r\x1b"), b"ab\ncd\n");
    assert_eq!(text_after(b"ab\ncd\n", b"ji\x7f\x1b"), b"abcd\n");
    assert_eq!(text_after(b"ab\n", b"ixy\x08\x1b"), b"xab\n");
    assert_eq!(text_after(b"ab\n", b"i\t\x1b"), b"ab\n");
    let mut expanding = Editor::from_bytes(b"ab\n", None, false);
    expanding.execute_ex("set et tabstop=4");
    expanding.execute_keys(b"li\t\x1b").expect("type a tab");
    assert_eq!(expanding.bytes(), b"a   b\n");
}

#[test]
fn yanking_and_putting_lines_and_bytes() {
    assert_eq!(text_after(b"one\ntwo\n", b"Yjp"), b"one\ntwo\none\n");
    assert_eq!(text_after(b"one\ntwo\n", b"YjP"), b"one\none\ntwo\n");
    assert_eq!(text_after(b"abc\n", b"xp"), b"bac\n");
    assert_eq!(text_after(b"one two\n", b"ye$p"), b"one twoone\n");
    let mut editor = Editor::from_bytes(b"one\n", None, false);
    editor.execute_keys(b"p").expect("put nothing");
    assert_eq!(editor.status(), "Nothing in register D");
}

#[test]
fn named_registers_keep_their_text() {
    assert_eq!(
        text_after(b"one\ntwo\n", b"\"aYjY\"ap"),
        b"one\ntwo\none\n"
    );
    let mut editor = after(b"one\n", b"Y\"bp");
    assert_eq!(editor.bytes(), b"one\n");
    assert_eq!(editor.status(), "Nothing in register b");
    editor.execute_ex("y");
    assert_eq!(editor.status(), "Yank 1 lines (4 chars) into [D]");
}

#[test]
fn motions_lead_to_their_places() {
    let text = b"one two.three\n  four\n\nfive\n";
    assert_eq!(after(text, b"w").cursor(), (0, 4));
    assert_eq!(after(text, b"2w").cursor(), (0, 12));
    assert_eq!(after(text, b"2W").cursor(), (0, 12));
    assert_eq!(after(text, b"e").cursor(), (0, 2));
    assert_eq!(after(text, b"$").cursor(), (0, 12));
    assert_eq!(after(text, b"$b").cursor(), (0, 4));
    assert_eq!(after(text, b"j^").cursor(), (1, 2));
    assert_eq!(after(text, b"j$0").cursor(), (1, 0));
    assert_eq!(after(text, b"G").cursor(), (3, 0));
    assert_eq!(after(text, b"2G").cursor(), (1, 0));
    assert_eq!(after(text, b"Ggg").cursor(), (0, 0));
    assert_eq!(after(text, b"}").cursor(), (3, 0));
    assert_eq!(after(text, b"5|").cursor(), (0, 4));
    assert_eq!(after(text, b"2+").cursor(), (2, 0));
    assert_eq!(after(text, b"2+-").cursor(), (1, 0));
    assert_eq!(after(text, b"\r").cursor(), (1, 0));
}

#[test]
fn characters_are_found_and_found_again() {
    let text = b"abcabc\n";
    assert_eq!(after(text, b"fc").cursor(), (0, 2));
    assert_eq!(after(text, b"fc;").cursor(), (0, 5));
    assert_eq!(after(text, b"fc;,").cursor(), (0, 2));
    assert_eq!(after(text, b"tc").cursor(), (0, 1));
    assert_eq!(after(text, b"$Fa").cursor(), (0, 3));
    assert_eq!(after(text, b"$Ta").cursor(), (0, 4));
    assert_eq!(after(text, b"fz").cursor(), (0, 0));
}

#[test]
fn delimiters_lead_to_their_partners() {
    assert_eq!(after(b"f(a[1])\n", b"l%").cursor(), (0, 6));
    assert_eq!(after(b"f(a[1])\n", b"$%").cursor(), (0, 1));
    assert_eq!(after(b"f(a[1])\n", b"fa%").cursor(), (0, 2));
    assert_eq!(after(b"f(a\n", b"l%").cursor(), (0, 1));
}

#[test]
fn marks_lead_back() {
    assert_eq!(after(b"one\ntwo\nthree\n", b"jlmagg`a").cursor(), (1, 1));
    assert_eq!(after(b"one\ntwo\nthree\n", b"jlmagg'a").cursor(), (1, 0));
    assert_eq!(after(b"one\n", b"'q").status(), "Mark not set");
}

#[test]
fn the_last_change_is_repeated() {
    assert_eq!(text_after(b"ab\n", b"iX\x1b."), b"XXab\n");
    assert_eq!(text_after(b"ab\ncd\n", b"AX\x1bj."), b"abX\ncdX\n");
    assert_eq!(text_after(b"ab\n", b"oX\x1b."), b"ab\nX\nX\n");
}

#[test]
fn searching_wraps_and_tells_so() {
    let text = b"one\ntwo\none\n";
    assert_eq!(after(text, b"/one\r").cursor(), (2, 0));
    let wrapped = after(text, b"G/two\r");
    assert_eq!(wrapped.cursor(), (1, 0));
    assert_eq!(wrapped.status(), "search hit BOTTOM, continuing at TOP");
    let backward = after(text, b"?two\r");
    assert_eq!(backward.cursor(), (1, 0));
    assert_eq!(backward.status(), "search hit TOP, continuing at BOTTOM");
    assert_eq!(after(text, b"/nine\r").status(), "Pattern not found");
    assert_eq!(after(text, b"/one\rn").cursor(), (0, 0));
    assert_eq!(after(text, b"/one\x1b").cursor(), (0, 0));
    assert_eq!(after(text, b"/\r").status(), "No previous search");
    assert_eq!(
        after(text, b"/[\r").status(),
        "bad search pattern '[': Invalid regular expression"
    );
}

#[test]
fn undo_takes_back_one_change_and_redo_makes_it_again() {
    let mut editor = after(b"one\ntwo\n", b"dd");
    editor.execute_keys(b"iX\x1b").expect("another change");
    assert_eq!(editor.bytes(), b"Xtwo\n");
    editor.execute_keys(b"u").expect("undo");
    assert_eq!(editor.bytes(), b"two\n");
    editor.execute_keys(b"u").expect("undo");
    assert_eq!(editor.bytes(), b"one\ntwo\n");
    assert!(!editor.is_modified());
    editor.execute_keys(b"u").expect("nothing to undo");
    assert_eq!(editor.status(), "Already at oldest change");
    editor.execute_keys(b"\x12\x12").expect("redo");
    assert_eq!(editor.bytes(), b"Xtwo\n");
    assert_eq!(editor.status(), "1 change redone");
    editor.execute_keys(b"\x12").expect("nothing to redo");
    assert_eq!(editor.status(), "Already at newest change");
    editor.execute_keys(b"uix\x1b").expect("edit after undo");
    editor.execute_keys(b"\x12").expect("redo is gone");
    assert_eq!(editor.status(), "Already at newest change");
    editor.execute_keys(b"U").expect("undo the line");
    assert_eq!(editor.bytes(), b"two\n");
    assert_eq!(editor.status(), "Undo 1 lines (4 chars) from [U]");
}

#[test]
fn typing_and_leaving_is_one_change() {
    let mut editor = after(b"\n", b"iabc\x1b");
    assert_eq!(editor.doc.undo.len(), 1);
    assert_eq!(editor.doc.undo[0].edits.len(), 1);
    editor.execute_keys(b"u").expect("undo");
    assert_eq!(editor.bytes(), b"\n");
}

#[test]
fn unknown_commands_are_told() {
    assert_eq!(after(b"a\n", b"q").status(), "'q' is not implemented");
    assert_eq!(after(b"a\n", b"\x01").status(), "'^A' is not implemented");
    assert_eq!(after(b"a\n", b"gx").status(), "'gx' is not implemented");
    assert_eq!(after(b"a\n", b"\x03").status(), "Interrupted");
    assert_eq!(
        after(b"a\n", b"\x1a").status(),
        "Suspend is unavailable in safe standalone mode"
    );
    assert_eq!(
        after(b"a\n", b"\x1b[2~").status(),
        "Insert mode is not enabled by this key"
    );
}

#[test]
fn input_that_ends_amid_a_command_is_told_and_given_up() {
    let mut editor = Editor::from_bytes(b"abc\n", None, false);
    assert_eq!(editor.execute_keys(b"d"), Err(InputClosed));
    assert_eq!(InputClosed.message(), "input closed");
    assert_eq!(editor.execute_keys(b"x"), Ok(1));
    assert_eq!(editor.bytes(), b"bc\n");
    assert_eq!(editor.execute_keys(b":q"), Err(InputClosed));
    assert!(!editor.should_quit());
}

#[test]
fn quitting_stops_the_keys() {
    let mut editor = Editor::from_bytes(b"abc\n", None, false);
    assert_eq!(editor.execute_keys(b"ZQx"), Ok(2));
    assert!(editor.should_quit());
    assert_eq!(editor.bytes(), b"abc\n");
    let mut clean = Editor::from_bytes(b"abc\n", None, false);
    assert_eq!(clean.execute_keys(b":q\rx"), Ok(3));
    assert!(clean.should_quit());
}

#[test]
fn invalid_utf8_is_kept_and_listed() {
    let mut editor = Editor::from_bytes(b"a\xffb\x01\n", None, false);
    assert_eq!(editor.bytes(), b"a\xffb\x01\n");
    editor.execute_ex("list");
    assert_eq!(editor.message.bytes.last(), Some(&b'$'));
    editor.execute_keys(b"x").expect("delete");
    assert_eq!(editor.bytes(), b"\xffb\x01\n");
}
