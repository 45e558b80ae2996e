use rvkernel::libraries::console_utils::{get_ascii_char, print_args, EditorAction, LineEditor};

fn feed_all(editor: &mut LineEditor, bytes: &[u8]) -> Vec<Vec<u8>> {
    let mut echoes = Vec::new();
    for b in bytes {
        match editor.feed(*b) {
            EditorAction::Echo(e) => echoes.push(e),
            EditorAction::Done(_) => panic!("line ended early"),
        }
    }
    echoes
}

fn finish(editor: &mut LineEditor) -> String {
    match editor.feed(b'\r') {
        EditorAction::Done(line) => line,
        EditorAction::Echo(_) => panic!("enter did not end the line"),
    }
}

#[test]
fn typed_characters_form_the_line() {
    let mut e = LineEditor::new();
    let echoes = feed_all(&mut e, b"ls -l");
    assert_eq!(echoes[0], b"l".to_vec());
    assert_eq!(finish(&mut e), "ls -l");
    assert_eq!(finish(&mut e), "");
}

#[test]
fn insertion_in_the_middle_redraws_the_rest() {
    let mut e = LineEditor::new();
    feed_all(&mut e, b"ac");
    let moved = feed_all(&mut e, b"\x1b[D");
    assert_eq!(moved[2], b"\x1b[D".to_vec());
    let echoes = feed_all(&mut e, b"b");
    assert_eq!(echoes[0], b"bc\x1b[D".to_vec());
    assert_eq!(finish(&mut e), "abc");
}

#[test]
fn delete_removes_left_of_cursor() {
    let mut e = LineEditor::new();
    feed_all(&mut e, b"abc\x1b[D");
    let echoes = feed_all(&mut e, b"\x7f");
    assert_eq!(echoes[0], b"\x1b[Dc \x1b[D\x1b[D".to_vec());
    assert_eq!(finish(&mut e), "ac");
}

#[test]
fn delete_at_start_does_nothing() {
    let mut e = LineEditor::new();
    let echoes = feed_all(&mut e, b"\x7f");
    assert!(echoes[0].is_empty());
    assert_eq!(finish(&mut e), "");
}

#[test]
fn cursor_stays_within_the_line() {
    let mut e = LineEditor::new();
    feed_all(&mut e, b"x");
    let right = feed_all(&mut e, b"\x1b[C");
    assert!(right[2].is_empty());
    let left = feed_all(&mut e, b"\x1b[D\x1b[D");
    assert_eq!(left[2], b"\x1b[D".to_vec());
    assert!(left[5].is_empty());
    let back = feed_all(&mut e, b"\x1b[C");
    assert_eq!(back[2], b"\x1b[C".to_vec());
    assert_eq!(finish(&mut e), "x");
}

#[test]
fn broken_escape_and_control_bytes_are_ignored() {
    let mut e = LineEditor::new();
    let echoes = feed_all(&mut e, b"\x1bxa\x01\x1b[Zb");
    assert!(echoes[1].is_empty());
    assert_eq!(echoes[2], b"a".to_vec());
    assert!(echoes[3].is_empty());
    assert_eq!(finish(&mut e), "ab");
}

#[test]
fn typing_then_delete_restores_the_line() {
    let mut e = LineEditor::new();
    feed_all(&mut e, b"abc\x1b[D\x1b[D");
    feed_all(&mut e, b"X\x7f");
    assert_eq!(finish(&mut e), "abc");
}

#[test]
fn console_poll() {
    assert_eq!(get_ascii_char(Ok(Some(b'q'))), Some(b'q'));
    assert_eq!(get_ascii_char(Ok(None)), None);
    assert_eq!(get_ascii_char(Err(())), None);
}

#[test]
fn console_print_bytes() {
    assert_eq!(print_args("hé", true), "hé".as_bytes().to_vec());
    assert!(print_args("hi", false).is_empty());
}

#[test]
fn firmware_print_bytes() {
    assert_eq!(rvkernel::print::print_args("ok\n"), b"ok\n".to_vec());
    assert_eq!(rvkernel::system_utils::console_utils::print("A"), vec![0x41]);
}
