use shellkeeper::ui::terminal::{
    collect_input, encode_event, extract_selection, key_sequence, sel_ordered, InputEvent,
    ScreenText, TermKey, TerminalState,
};

fn key(k: TermKey, ctrl: bool, shift: bool) -> InputEvent {
    InputEvent::Key { key: k, pressed: true, ctrl, alt: false, shift }
}

#[test]
fn control_letters() {
    assert_eq!(key_sequence(TermKey::Letter('C'), true, false, false), Some(vec![3]));
    assert_eq!(key_sequence(TermKey::Letter('A'), true, false, false), Some(vec![1]));
    assert_eq!(key_sequence(TermKey::Letter('Z'), true, false, false), Some(vec![26]));
    assert_eq!(key_sequence(TermKey::Letter('V'), true, false, false), None);
    assert_eq!(key_sequence(TermKey::Letter('I'), true, false, false), None);
    assert_eq!(key_sequence(TermKey::Letter('C'), true, true, false), None);
    assert_eq!(key_sequence(TermKey::Letter('C'), false, false, false), None);
}

#[test]
fn special_keys() {
    assert_eq!(key_sequence(TermKey::Enter, false, false, false), Some(vec![0x0d]));
    assert_eq!(key_sequence(TermKey::Backspace, false, false, false), Some(vec![0x7f]));
    assert_eq!(key_sequence(TermKey::Tab, false, false, false), Some(vec![0x09]));
    assert_eq!(key_sequence(TermKey::Escape, false, false, false), Some(vec![0x1b]));
    assert_eq!(key_sequence(TermKey::Delete, false, false, false), Some(b"\x1b[3~".to_vec()));
    assert_eq!(key_sequence(TermKey::Home, false, false, false), Some(b"\x1b[H".to_vec()));
    assert_eq!(key_sequence(TermKey::End, false, false, false), Some(b"\x1b[F".to_vec()));
    assert_eq!(key_sequence(TermKey::PageUp, false, false, false), Some(b"\x1b[5~".to_vec()));
    assert_eq!(key_sequence(TermKey::PageDown, false, false, false), Some(b"\x1b[6~".to_vec()));
    assert_eq!(key_sequence(TermKey::Insert, false, false, false), Some(b"\x1b[2~".to_vec()));
    assert_eq!(key_sequence(TermKey::Other, false, false, false), None);
}

#[test]
fn arrows_with_and_without_shift() {
    assert_eq!(key_sequence(TermKey::ArrowUp, false, false, false), Some(b"\x1b[A".to_vec()));
    assert_eq!(key_sequence(TermKey::ArrowLeft, false, false, false), Some(b"\x1b[D".to_vec()));
    assert_eq!(key_sequence(TermKey::ArrowUp, false, false, true), Some(b"\x1b[1;2A".to_vec()));
    assert_eq!(key_sequence(TermKey::ArrowRight, false, false, true), Some(b"\x1b[1;2C".to_vec()));
}

#[test]
fn function_keys() {
    assert_eq!(key_sequence(TermKey::Function(1), false, false, false), Some(b"\x1bOP".to_vec()));
    assert_eq!(key_sequence(TermKey::Function(4), false, false, false), Some(b"\x1bOS".to_vec()));
    assert_eq!(key_sequence(TermKey::Function(5), false, false, false), Some(b"\x1b[15~".to_vec()));
    assert_eq!(key_sequence(TermKey::Function(10), false, false, false), Some(b"\x1b[21~".to_vec()));
    assert_eq!(key_sequence(TermKey::Function(12), false, false, false), Some(b"\x1b[24~".to_vec()));
    assert_eq!(key_sequence(TermKey::Function(13), false, false, false), None);
    assert_eq!(key_sequence(TermKey::Function(0), false, false, false), None);
}

#[test]
fn input_events_in_order() {
    let events = vec![
        InputEvent::Text("ls\t-l\n".to_string()),
        key(TermKey::Enter, false, false),
        InputEvent::Paste("a\nb".to_string()),
        InputEvent::Copy,
        InputEvent::Key { key: TermKey::Enter, pressed: false, ctrl: false, alt: false, shift: false },
        key(TermKey::Letter('D'), true, false),
        InputEvent::Text("é".to_string()),
    ];
    let mut expected: Vec<u8> = b"ls-l\ra\nb\x03\x04".to_vec();
    expected.extend("é".as_bytes());
    assert_eq!(collect_input(&events), expected);
    assert_eq!(encode_event(&InputEvent::Copy), vec![3]);
    assert_eq!(collect_input(&vec![]), Vec::<u8>::new());
}

#[test]
fn selection_corners_ordered() {
    assert_eq!(sel_ordered((2, 5), (1, 9)), (1, 9, 2, 5));
    assert_eq!(sel_ordered((1, 9), (2, 5)), (1, 9, 2, 5));
    assert_eq!(sel_ordered((3, 4), (3, 2)), (3, 2, 3, 4));
    assert_eq!(sel_ordered((3, 4), (3, 4)), (3, 4, 3, 4));
}

fn screen(rows: &[&[&str]]) -> ScreenText {
    ScreenText::new(
        rows[0].len() as u16,
        rows.iter().map(|r| r.iter().map(|c| c.to_string()).collect()).collect(),
    )
    .expect("no line feeds")
}

#[test]
fn selection_text_across_rows() {
    let s = screen(&[
        &["h", "e", "l", "l", "o"],
        &["w", "o", "", "", ""],
        &["a", "b", "c", "d", "e"],
    ]);
    assert_eq!(extract_selection(&s, (0, 1), (2, 2)), "ello\nwo\nabc");
    assert_eq!(extract_selection(&s, (2, 2), (0, 1)), "ello\nwo\nabc");
    assert_eq!(extract_selection(&s, (1, 0), (1, 4)), "wo");
    assert_eq!(extract_selection(&s, (0, 3), (0, 1)), "ell");
}

#[test]
fn selection_skips_leading_blank_rows() {
    let s = screen(&[&["", "", ""], &["x", "", "y"], &["", "", ""]]);
    assert_eq!(extract_selection(&s, (0, 0), (2, 2)), "x y");
}

#[test]
fn terminal_state_defaults() {
    let t = TerminalState::default();
    assert!(!t.focused && t.auto_focus && !t.pending_copy);
    assert_eq!((t.last_cols, t.last_rows), (80, 24));
    assert!(t.sel_start.is_none() && t.sel_end.is_none());
}

#[test]
fn terminal_state_steps() {
    let mut t = TerminalState::default();
    assert_eq!(t.begin_frame(), None);
    assert!(t.focused && !t.auto_focus);
    t.blur();
    assert!(!t.focused);
    t.on_click(true);
    assert!(t.focused);
    t.on_drag_start((1, 2));
    t.on_drag((3, 4));
    assert_eq!(t.selection(), Some(((1, 2), (3, 4))));
    t.on_click(false);
    assert_eq!(t.selection(), Some(((1, 2), (3, 4))));
    t.request_copy();
    assert!(t.pending_copy);
    assert_eq!(t.begin_frame(), Some(((1, 2), (3, 4))));
    assert!(!t.pending_copy);
    assert_eq!(t.selection(), None);
    t.on_drag_start((0, 0));
    t.on_click(true);
    assert_eq!(t.selection(), None);
    assert!(t.resize_to(100, 30));
    assert!(!t.resize_to(100, 30));
    assert_eq!((t.last_cols, t.last_rows), (100, 30));
    t.blur();
    t.request_focus();
    assert!(!t.focused && t.auto_focus);
    t.begin_frame();
    assert!(t.focused);
    t.blur();
    t.focus_new_tab();
    assert!(t.focused && t.auto_focus);
    t.blur();
    t.focus();
    assert!(t.focused);
}

#[test]
fn selection_text_laws_on_a_screen() {
    let s = screen(&[
        &["a", " ", " ", " "],
        &[" ", " ", " ", " "],
        &["b", "c", " ", "d"],
        &["e", " ", "", ""],
    ]);
    for (a, b) in [((0, 0), (3, 3)), ((1, 2), (3, 0)), ((2, 1), (2, 3)), ((0, 3), (1, 0))] {
        let t = extract_selection(&s, a, b);
        assert_eq!(t, extract_selection(&s, b, a));
        assert!(!t.ends_with(char::is_whitespace));
        for line in t.split('\n') {
            assert!(!line.ends_with(char::is_whitespace));
        }
        let rows = (a.0 as i32 - b.0 as i32).unsigned_abs() as usize;
        assert!(t.matches('\n').count() <= rows);
    }
    assert_eq!(extract_selection(&s, (0, 0), (3, 3)), "a\n\nbc d\ne");
}

#[test]
fn screen_refuses_line_feed_cells() {
    assert!(ScreenText::new(2, vec![vec!["a".to_string(), "\n".to_string()]]).is_none());
    let s = ScreenText::new(2, vec![vec!["a".to_string(), "b".to_string()]]).unwrap();
    assert_eq!(s.cols(), 2);
    assert!(ScreenText::new(0, vec![]).is_some());
}
