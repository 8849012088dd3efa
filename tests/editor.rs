use lispread::editor::LineEditor;

fn text(v: &[char]) -> String {
    v.iter().collect()
}

#[test]
fn typing_inserts_and_redraws() {
    let mut e = LineEditor::new();
    assert_eq!(text(&e.insert_char('a')), "\x1b[sa\x1b[u\x1b[1C");
    assert_eq!(text(&e.insert_char('c')), "\x1b[sc\x1b[u\x1b[1C");
    assert_eq!(text(&e.move_cursor_left()), "\x1b[1D");
    assert_eq!(text(&e.insert_char('b')), "\x1b[sbc\x1b[u\x1b[1C");
    assert_eq!(text(&e.buffer()), "abc");
    assert_eq!(e.cursor_pos(), 2);
}

#[test]
fn cursor_stays_within_text() {
    let mut e = LineEditor::new();
    assert_eq!(e.move_cursor_left(), vec![]);
    assert_eq!(e.move_cursor_right(), vec![]);
    e.insert_char('x');
    assert_eq!(e.move_cursor_right(), vec![]);
    assert_eq!(text(&e.move_cursor_left()), "\x1b[1D");
    assert_eq!(text(&e.move_cursor_right()), "\x1b[1C");
}

#[test]
fn backspace_erases_before_cursor() {
    let mut e = LineEditor::new();
    for c in ['a', 'b', 'c'] {
        e.insert_char(c);
    }
    e.move_cursor_left();
    assert_eq!(text(&e.backspace()), "\x1b[1D\x1b[s\x1b[Kc\x1b[u");
    assert_eq!(text(&e.buffer()), "ac");
    assert_eq!(e.cursor_pos(), 1);
    e.move_cursor_left();
    assert_eq!(e.backspace(), vec![]);
    assert_eq!(text(&e.buffer()), "ac");
}

#[test]
fn keys_drive_the_editor() {
    let mut e = LineEditor::new();
    e.handle_key_event(b'h', (0, 0));
    e.handle_key_event(b'i', (0, 0));
    assert_eq!(text(&e.handle_key_event(0x1b, (b'[', b'D'))), "\x1b[1D");
    assert_eq!(e.cursor_pos(), 1);
    assert_eq!(text(&e.handle_key_event(0x1b, (b'[', b'C'))), "\x1b[1C");
    assert_eq!(e.handle_key_event(0x1b, (b'[', b'A')), vec![]);
    assert_eq!(e.handle_key_event(0x1b, (0, 0)), vec![]);
    e.handle_key_event(0x7f, (0, 0));
    assert_eq!(text(&e.buffer()), "h");
    assert_eq!(e.on_key(b'q', (0, 0)), None);
    assert_eq!(text(&e.buffer()), "h");
    assert!(e.on_key(b'!', (0, 0)).is_some());
    assert_eq!(text(&e.buffer()), "h!");
}
