use floapalette::shortcut::{parse_chord, VK_CONTROL, VK_RETURN, VK_SHIFT, VK_V};
use floapalette::win_input::{
    check_focus_target, chord_key_events, clipboard_units, focus_window, foreground_window,
    paste_key_events, record_foreground_target, send_shortcut, send_text, utf16_units, KeyEvent,
};

fn ev(key: u16, key_up: bool) -> KeyEvent {
    KeyEvent { key, key_up }
}

#[test]
fn injection_needs_windows() {
    assert_eq!(foreground_window(), 0);
    assert_eq!(focus_window(42).unwrap_err(), "Windows only");
    assert_eq!(send_text("git status", true).unwrap_err(), "Windows only");
    assert_eq!(send_shortcut("Ctrl+C").unwrap_err(), "Windows only");
}

#[test]
fn focus_target_must_be_recorded() {
    assert_eq!(check_focus_target(0).unwrap_err(), "貼り付け先ウィンドウが未記録です");
    assert!(check_focus_target(7).is_ok());
    assert!(check_focus_target(-3).is_ok());
}

#[test]
fn recording_ignores_the_null_window() {
    let mut target: isize = 5;
    record_foreground_target(&mut target, 0);
    assert_eq!(target, 5);
    record_foreground_target(&mut target, 9);
    assert_eq!(target, 9);
}

#[test]
fn chord_strokes_are_nested() {
    let c = parse_chord("Ctrl+Shift+P").unwrap();
    assert_eq!(
        chord_key_events(&c),
        vec![
            ev(VK_CONTROL, false),
            ev(VK_SHIFT, false),
            ev(0x50, false),
            ev(0x50, true),
            ev(VK_SHIFT, true),
            ev(VK_CONTROL, true),
        ]
    );
    let c = parse_chord("Tab").unwrap();
    assert_eq!(chord_key_events(&c), vec![ev(0x09, false), ev(0x09, true)]);
}

#[test]
fn pasting_strokes() {
    let paste = vec![ev(VK_CONTROL, false), ev(VK_V, false), ev(VK_V, true), ev(VK_CONTROL, true)];
    assert_eq!(paste_key_events(false), paste);
    let mut with_enter = paste.clone();
    with_enter.push(ev(VK_RETURN, false));
    with_enter.push(ev(VK_RETURN, true));
    assert_eq!(paste_key_events(true), with_enter);
}

#[test]
fn utf16_matches_std() {
    for s in ["", "git status", "見出し", "😀a", "\u{ffff}\u{10000}\u{10ffff}"] {
        assert_eq!(utf16_units(s), s.encode_utf16().collect::<Vec<u16>>());
        let mut wide: Vec<u16> = s.encode_utf16().collect();
        wide.push(0);
        assert_eq!(clipboard_units(s), wide);
    }
}
