use busy_v::files::{FileRequest, Guard, LoadReply, ReadReply, WriteReply};
use busy_v::Editor;

fn editor(text: &[u8]) -> Editor {
    Editor::from_bytes(text, Some("file".to_string()), false)
}

fn told(text: &[u8], command: &str) -> String {
    let mut editor = editor(text);
    editor.execute_ex(command);
    editor.status().to_string()
}

#[test]
fn lines_are_addressed() {
    let text = b"one\ntwo\nthree\nfour\n";
    assert_eq!(told(text, "="), "1");
    assert_eq!(told(text, "$="), "4");
    assert_eq!(told(text, "3="), "3");
    assert_eq!(told(text, "1,3="), "3");
    assert_eq!(told(text, "/three/="), "3");
    assert_eq!(told(text, "$-1="), "3");
    let mut moved = editor(text);
    moved.execute_ex("3");
    assert_eq!(moved.cursor(), (2, 0));
    moved.execute_ex(".,$d");
    assert_eq!(moved.bytes(), b"one\ntwo\n");
    moved.execute_ex("%d");
    assert_eq!(moved.bytes(), b"\n");
}

#[test]
fn substitutions_replace_count_and_fail() {
    let mut editor = editor(b"aaa\naba\n");
    editor.execute_ex("%s/a/x/g");
    assert_eq!(editor.bytes(), b"xxx\nxbx\n");
    assert_eq!(editor.status(), "5 substitutions on 2 lines");
    editor.execute_ex("1s/x/y/");
    assert_eq!(editor.bytes(), b"yxx\nxbx\n");
    assert_eq!(editor.status(), "");
    editor.execute_ex("s/q/r/");
    assert_eq!(editor.status(), "No match");
    editor.execute_ex("s/x");
    assert_eq!(editor.status(), ":s expression missing delimiters");
    editor.execute_ex("s/[/r/");
    assert_eq!(editor.status(), ":s bad search pattern");
    let mut fresh = Editor::from_bytes(b"a\n", None, false);
    fresh.execute_ex("s//b/");
    assert_eq!(fresh.status(), "No previous search");
    assert_eq!(fresh.bytes(), b"a\n");
}

#[test]
fn options_are_set_and_shown() {
    let mut editor = editor(b"a\n");
    editor.execute_ex("set ai et fl ic sm tabstop=4");
    editor.execute_ex("set");
    assert_eq!(
        editor.status(),
        "autoindent expandtab flash ignorecase showmatch tabstop=4"
    );
    editor.execute_ex("set noai noet nofl noic nosm tabstop=33");
    assert_eq!(editor.status(), "bad option: tabstop=33");
    editor.execute_ex("set nonsense");
    assert_eq!(editor.status(), "bad option: nonsense");
    editor.execute_ex("set ro");
    editor.execute_ex("w");
    assert_eq!(editor.status(), "'file' is read only");
    assert!(editor.file_request().is_none());
}

#[test]
fn a_changed_text_is_not_left_unless_forced() {
    for command in ["q", "next", "prev", "rewind", "e other"] {
        let mut editor = editor(b"abc\n");
        editor.execute_keys(b"x").expect("change");
        editor.execute_ex(command);
        assert!(!editor.should_quit());
        assert!(editor.file_request().is_none());
        let name = command.split(' ').next().expect("a name");
        assert_eq!(
            editor.status(),
            format!("No write since last change (:{}! overrides)", name)
        );
    }
    let mut editor = editor(b"abc\n");
    editor.execute_keys(b"x").expect("change");
    editor.execute_ex("q!");
    assert!(editor.should_quit());
}

#[test]
fn files_left_to_edit_keep_the_editor_going() {
    let mut editor = editor(b"abc\n");
    editor.files.set_file_context(0, 3);
    editor.execute_ex("q");
    assert!(!editor.should_quit());
    assert_eq!(editor.status(), "2 more file(s) to edit");
    editor.execute_ex("prev");
    assert_eq!(editor.status(), "No previous files to edit");
    editor.execute_ex("next");
    assert!(editor.should_quit());
    assert_eq!(editor.files.following_file(0), Some(1));
    let mut last = Editor::from_bytes(b"abc\n", None, false);
    last.files.set_file_context(2, 3);
    last.execute_ex("next");
    assert_eq!(last.status(), "No more files to edit");
    last.execute_ex("rewind");
    assert_eq!(last.files.following_file(2), Some(0));
    let mut middle = Editor::from_bytes(b"abc\n", None, false);
    middle.files.set_file_context(1, 3);
    middle.execute_ex("prev");
    assert_eq!(middle.files.following_file(1), Some(0));
    let mut done = Editor::from_bytes(b"abc\n", None, false);
    done.execute_ex("q");
    assert_eq!(done.files.following_file(0), None);
}

#[test]
fn writing_asks_for_the_bytes_and_tells_the_outcome() {
    let mut editor = editor(b"one\ntwo\n");
    editor.execute_keys(b"x").expect("change");
    editor.execute_ex("w");
    match editor.file_request() {
        Some(FileRequest::Write { path, data, guard: Guard::Overwrite, ranged: false, .. }) => {
            assert_eq!(path, "file");
            assert_eq!(data, b"ne\ntwo\n");
        }
        other => panic!("unexpected request: {:?}", other),
    }
    editor.finish_write(WriteReply::Failed("disk full".to_string()));
    assert_eq!(editor.status(), "'file' disk full");
    assert!(editor.is_modified());
    editor.execute_ex("w");
    editor.finish_write(WriteReply::Written);
    assert_eq!(editor.status(), "'file' 2L, 7C");
    assert!(!editor.is_modified());
}

#[test]
fn another_file_is_not_overwritten_unless_forced() {
    let mut editor = editor(b"one\ntwo\n");
    editor.execute_ex("w other");
    match editor.file_request() {
        Some(FileRequest::Write { path, guard: Guard::Refuse { except }, .. }) => {
            assert_eq!(path, "other");
            assert_eq!(except.as_deref(), Some("file"));
        }
        unexpected => panic!("unexpected request: {:?}", unexpected),
    }
    editor.finish_write(WriteReply::Exists);
    assert_eq!(editor.status(), "File exists (:w! overrides)");
    assert_eq!(editor.filename(), Some("file"));
    editor.execute_ex("w! other");
    assert!(matches!(
        editor.file_request(),
        Some(FileRequest::Write { guard: Guard::Overwrite, .. })
    ));
    editor.finish_write(WriteReply::Written);
    assert_eq!(editor.filename(), Some("other"));
}

#[test]
fn lines_are_written_on_their_own() {
    let mut editor = editor(b"one\ntwo\nthree");
    editor.execute_keys(b"x").expect("change");
    editor.execute_ex("2,3w part");
    match editor.file_request() {
        Some(FileRequest::Write { data, ranged: true, .. }) => assert_eq!(data, b"two\nthree\n"),
        other => panic!("unexpected request: {:?}", other),
    }
    editor.finish_write(WriteReply::Written);
    assert!(editor.is_modified());
}

#[test]
fn writing_and_leaving() {
    let mut editor = editor(b"one\n");
    editor.execute_ex("wq");
    assert!(!editor.should_quit());
    editor.finish_write(WriteReply::Written);
    assert!(editor.should_quit());
    let mut unnamed = Editor::from_bytes(b"one\n", None, false);
    unnamed.execute_ex("wq");
    assert_eq!(unnamed.status(), "No current filename");
    assert!(!unnamed.should_quit());
    let mut closed = Editor::from_bytes(b"one\n", Some("f".to_string()), false);
    closed.execute_keys(b"xZZ").expect("change and close");
    closed.finish_write(WriteReply::Failed("disk full".to_string()));
    assert_eq!(closed.status(), "Write error: disk full");
    assert!(!closed.should_quit());
    closed.execute_keys(b"ZZ").expect("close");
    closed.finish_write(WriteReply::Written);
    assert!(closed.should_quit());
}

#[test]
fn names_stand_for_the_current_and_the_previous_file() {
    let mut editor = editor(b"one\n");
    editor.execute_ex("f other");
    assert_eq!(editor.filename(), Some("other"));
    editor.execute_ex("w #.%");
    assert!(matches!(
        editor.file_request(),
        Some(FileRequest::Write { path, .. }) if path == "file.other"
    ));
    let mut unnamed = Editor::from_bytes(b"one\n", None, false);
    unnamed.execute_ex("w %x");
    assert_eq!(unnamed.status(), "No previous filename");
    unnamed.execute_ex("w \\%x");
    assert!(matches!(
        unnamed.file_request(),
        Some(FileRequest::Write { path, .. }) if path == "%x"
    ));
    let mut addressed = Editor::from_bytes(b"one\n", None, false);
    addressed.execute_ex("1f x");
    assert_eq!(addressed.status(), "No address allowed on this command");
}

#[test]
fn another_file_is_edited() {
    let mut editor = editor(b"one\n");
    editor.execute_ex("e other");
    assert!(matches!(
        editor.file_request(),
        Some(FileRequest::Load { path, tell: true }) if path == "other"
    ));
    editor.finish_load(LoadReply::Loaded { data: b"x\ny\n".to_vec(), write_protected: true });
    assert_eq!(editor.bytes(), b"x\ny\n");
    assert_eq!(editor.status(), "'other' [Readonly] 2L, 4C");
    editor.execute_ex("e none");
    editor.finish_load(LoadReply::Missing);
    assert_eq!(editor.bytes(), b"\n");
    let mut unnamed = Editor::from_bytes(b"one\n", None, false);
    unnamed.execute_ex("e");
    assert_eq!(unnamed.status(), "No current filename");
}

#[test]
fn a_new_editor_loads_its_file() {
    let mut named = Editor::new(Some("file".to_string()), false);
    assert!(matches!(
        named.file_request(),
        Some(FileRequest::Load { path, tell: false }) if path == "file"
    ));
    named.finish_load(LoadReply::Loaded { data: b"text".to_vec(), write_protected: false });
    assert_eq!(named.bytes(), b"text");
    assert_eq!(named.status(), "");
    let unnamed = Editor::new(None, false);
    assert!(unnamed.file_request().is_none());
    assert_eq!(unnamed.bytes(), b"\n");
}

#[test]
fn a_file_is_read_into_the_text() {
    let mut editor = editor(b"one\ntwo\n");
    editor.execute_ex("read more");
    assert!(matches!(
        editor.file_request(),
        Some(FileRequest::Read { path, at: 1 }) if path == "more"
    ));
    editor.finish_read(ReadReply::Data(b"x\ny\n".to_vec()));
    assert_eq!(editor.bytes(), b"one\nx\ny\ntwo\n");
    assert_eq!(editor.status(), "'more' 2L, 4C");
    editor.execute_ex("0read more");
    editor.finish_read(ReadReply::Data(b"z".to_vec()));
    assert_eq!(editor.bytes(), b"z\none\nx\ny\ntwo\n");
    editor.execute_ex("read dir");
    editor.finish_read(ReadReply::NotRegular);
    assert_eq!(editor.status(), "'dir' is not a regular file");
    editor.execute_ex("read gone");
    editor.finish_read(ReadReply::Failed("missing".to_string()));
    assert_eq!(editor.status(), "'gone' missing");
    editor.execute_keys(b"uu").expect("undo both reads");
    assert_eq!(editor.bytes(), b"one\ntwo\n");
}

#[test]
fn other_commands_tell_what_they_are() {
    assert_eq!(told(b"a\n", "version"), "standalone");
    assert_eq!(told(b"a\n", "bogus"), "'bogus' is not implemented");
    let mut editor = editor(b"a\n");
    editor.execute_ex("features");
    assert!(editor.status().starts_with("These features are available:"));
    assert!(editor.status().ends_with("\x1b[7m[Hit return to continue]\x1b[m"));
    editor.execute_keys(b"x").expect("a key that is not return");
    assert_eq!(editor.bytes(), b"a\n");
    editor.execute_keys(b"\rx").expect("return, then a command");
    assert_eq!(editor.bytes(), b"\n");
}

#[test]
fn a_reply_that_was_not_asked_for_does_nothing() {
    let mut editor = editor(b"a\n");
    editor.finish_write(WriteReply::Written);
    editor.finish_load(LoadReply::Missing);
    editor.finish_read(ReadReply::Data(b"x\n".to_vec()));
    assert_eq!(editor.bytes(), b"a\n");
    assert_eq!(editor.status(), "");
}
