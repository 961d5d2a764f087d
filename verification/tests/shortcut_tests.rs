use floapalette::shortcut::{
    key_of_normalized, key_vk, modifier_of_normalized, modifier_vk, normalize_token, parse_chord, shortcut_chords, windows_shortcut_variant,
    VK_BACK, VK_CONTROL, VK_DELETE, VK_DOWN, VK_END, VK_ESCAPE, VK_F1, VK_HOME, VK_INSERT,
    VK_LEFT, VK_LWIN, VK_MENU, VK_NEXT, VK_PRIOR, VK_RETURN, VK_RIGHT, VK_SHIFT, VK_SPACE,
    VK_TAB, VK_UP, VK_V,
};
use windows_sys::Win32::UI::Input::KeyboardAndMouse as km;

#[test]
fn key_codes_are_those_of_windows() {
    assert_eq!(VK_BACK, km::VK_BACK);
    assert_eq!(VK_TAB, km::VK_TAB);
    assert_eq!(VK_RETURN, km::VK_RETURN);
    assert_eq!(VK_SHIFT, km::VK_SHIFT);
    assert_eq!(VK_CONTROL, km::VK_CONTROL);
    assert_eq!(VK_MENU, km::VK_MENU);
    assert_eq!(VK_ESCAPE, km::VK_ESCAPE);
    assert_eq!(VK_SPACE, km::VK_SPACE);
    assert_eq!(VK_PRIOR, km::VK_PRIOR);
    assert_eq!(VK_NEXT, km::VK_NEXT);
    assert_eq!(VK_END, km::VK_END);
    assert_eq!(VK_HOME, km::VK_HOME);
    assert_eq!(VK_LEFT, km::VK_LEFT);
    assert_eq!(VK_UP, km::VK_UP);
    assert_eq!(VK_RIGHT, km::VK_RIGHT);
    assert_eq!(VK_DOWN, km::VK_DOWN);
    assert_eq!(VK_INSERT, km::VK_INSERT);
    assert_eq!(VK_DELETE, km::VK_DELETE);
    assert_eq!(VK_V, km::VK_V);
    assert_eq!(VK_LWIN, km::VK_LWIN);
    assert_eq!(VK_F1, km::VK_F1);
}

#[test]
fn variant_prefers_the_ctrl_alternative() {
    assert_eq!(windows_shortcut_variant("Cmd+Shift+P / Ctrl+Shift+P"), "Ctrl+Shift+P");
    assert_eq!(windows_shortcut_variant(" Alt+F4 / Option+F4 "), "Alt+F4");
    assert_eq!(windows_shortcut_variant("CONTROL+K"), "CONTROL+K");
}

#[test]
fn variant_turns_command_into_ctrl() {
    assert_eq!(windows_shortcut_variant("Cmd+C"), "Ctrl+C");
    assert_eq!(windows_shortcut_variant("command+v"), "Ctrl+v");
    assert_eq!(windows_shortcut_variant("Command+Shift+Z"), "Ctrl+Shift+Z");
    assert_eq!(windows_shortcut_variant("cmd+k cmd+s"), "Ctrl+k Ctrl+s");
}

#[test]
fn variant_of_blank_or_slashes_only() {
    assert_eq!(windows_shortcut_variant(""), "");
    assert_eq!(windows_shortcut_variant(" / "), " / ");
}

#[test]
fn tokens_are_normalized() {
    assert_eq!(normalize_token(" page-up "), "PAGEUP");
    assert_eq!(normalize_token("ctrl"), "CTRL");
    assert_eq!(normalize_token("straße"), "STRASSE");
    assert_eq!(normalize_token(" - "), "");
}

#[test]
fn modifiers_are_recognized() {
    assert_eq!(modifier_vk("ctrl"), Some(VK_CONTROL));
    assert_eq!(modifier_vk("Control"), Some(VK_CONTROL));
    assert_eq!(modifier_vk("cmd"), Some(VK_CONTROL));
    assert_eq!(modifier_vk("COMMAND"), Some(VK_CONTROL));
    assert_eq!(modifier_vk("shift"), Some(VK_SHIFT));
    assert_eq!(modifier_vk("Alt"), Some(VK_MENU));
    assert_eq!(modifier_vk("option"), Some(VK_MENU));
    assert_eq!(modifier_vk("win"), Some(VK_LWIN));
    assert_eq!(modifier_vk("Windows"), Some(VK_LWIN));
    assert_eq!(modifier_vk("meta"), Some(VK_LWIN));
    assert_eq!(modifier_vk("K"), None);
}

#[test]
fn keys_are_recognized() {
    assert_eq!(key_vk("a"), Some(0x41));
    assert_eq!(key_vk("Z"), Some(0x5A));
    assert_eq!(key_vk("7"), Some(0x37));
    assert_eq!(key_vk("F1"), Some(0x70));
    assert_eq!(key_vk("f12"), Some(0x7B));
    assert_eq!(key_vk("F24"), Some(0x87));
    assert_eq!(key_vk("F+5"), Some(0x74));
    assert_eq!(key_vk("F05"), Some(0x74));
    assert_eq!(key_vk("F0"), None);
    assert_eq!(key_vk("F25"), None);
    assert_eq!(key_vk("F99999"), None);
    assert_eq!(key_vk("F"), Some(0x46));
    assert_eq!(key_vk("enter"), Some(VK_RETURN));
    assert_eq!(key_vk("Return"), Some(VK_RETURN));
    assert_eq!(key_vk("tab"), Some(VK_TAB));
    assert_eq!(key_vk("Esc"), Some(VK_ESCAPE));
    assert_eq!(key_vk("escape"), Some(VK_ESCAPE));
    assert_eq!(key_vk("space"), Some(VK_SPACE));
    assert_eq!(key_vk("BackSpace"), Some(VK_BACK));
    assert_eq!(key_vk("del"), Some(VK_DELETE));
    assert_eq!(key_vk("Delete"), Some(VK_DELETE));
    assert_eq!(key_vk("ins"), Some(VK_INSERT));
    assert_eq!(key_vk("insert"), Some(VK_INSERT));
    assert_eq!(key_vk("left"), Some(VK_LEFT));
    assert_eq!(key_vk("right"), Some(VK_RIGHT));
    assert_eq!(key_vk("up"), Some(VK_UP));
    assert_eq!(key_vk("down"), Some(VK_DOWN));
    assert_eq!(key_vk("home"), Some(VK_HOME));
    assert_eq!(key_vk("end"), Some(VK_END));
    assert_eq!(key_vk("Page-Up"), Some(VK_PRIOR));
    assert_eq!(key_vk("pgup"), Some(VK_PRIOR));
    assert_eq!(key_vk("page down"), Some(VK_NEXT));
    assert_eq!(key_vk("PgDn"), Some(VK_NEXT));
    assert_eq!(key_vk("é"), None);
    assert_eq!(key_vk("?"), None);
    assert_eq!(key_vk(""), None);
}

#[test]
fn chords_are_parsed() {
    let c = parse_chord("Ctrl+Shift+P").unwrap();
    assert_eq!(c.modifiers, vec![VK_CONTROL, VK_SHIFT]);
    assert_eq!(c.key, 0x50);
    let c = parse_chord(" alt + + f4 ").unwrap();
    assert_eq!(c.modifiers, vec![VK_MENU]);
    assert_eq!(c.key, 0x73);
    let c = parse_chord("??+Enter").unwrap();
    assert!(c.modifiers.is_empty());
    assert_eq!(c.key, VK_RETURN);
}

#[test]
fn chord_errors() {
    assert_eq!(
        parse_chord("Ctrl+A+B").unwrap_err(),
        "ショートカットのキー指定が複数あります: Ctrl+A+B"
    );
    assert_eq!(parse_chord("Ctrl+Shift").unwrap_err(), "ショートカットのキーを認識できません: Ctrl+Shift");
    assert_eq!(parse_chord("").unwrap_err(), "ショートカットのキーを認識できません: ");
    assert_eq!(parse_chord("Ctrl+??").unwrap_err(), "ショートカットのキーを認識できません: Ctrl+??");
}

#[test]
fn shortcut_sequences_split_into_chords() {
    assert_eq!(shortcut_chords("Ctrl + K  Ctrl + S").unwrap(), vec!["Ctrl+K", "Ctrl+S"]);
    assert_eq!(shortcut_chords("Cmd+K / Ctrl+K").unwrap(), vec!["Ctrl+K"]);
    assert_eq!(shortcut_chords("Cmd +C").unwrap(), vec!["Ctrl+C"]);
    assert_eq!(shortcut_chords("   ").unwrap_err(), "ショートカットが空です");
    assert_eq!(shortcut_chords("").unwrap_err(), "ショートカットが空です");
}

#[test]
fn normalized_names_are_looked_up_as_written() {
    assert_eq!(modifier_of_normalized("CTRL"), Some(VK_CONTROL));
    assert_eq!(modifier_of_normalized("ctrl"), None);
    assert_eq!(modifier_of_normalized("OPTION"), Some(VK_MENU));
    assert_eq!(key_of_normalized("PAGEDOWN"), Some(VK_NEXT));
    assert_eq!(key_of_normalized("F12"), Some(0x7B));
    assert_eq!(key_of_normalized("a"), None);
    assert_eq!(key_of_normalized("Q"), Some(0x51));
    assert_eq!(key_of_normalized("SHIFT"), None);
}

#[test]
fn no_token_is_both_modifier_and_key() {
    for t in ["ctrl", "Control", "shift", "alt", "option", "win", "windows", "meta", "cmd", "command"] {
        assert!(modifier_vk(t).is_some());
        assert_eq!(key_vk(t), None);
    }
}

#[test]
fn no_command_spelling_is_left_on_windows() {
    for s in ["Cmd+C", "CCmdmd", "cmdcmd+Command / Option+Q", "command+Commandd", "Ccommandmd"] {
        let v = windows_shortcut_variant(s);
        for p in ["Cmd", "cmd", "Command", "command"] {
            assert!(!v.contains(p), "{} -> {}", s, v);
        }
    }
}

#[test]
fn windows_form_is_stable() {
    for s in ["Cmd+Shift+P / Ctrl+Shift+P", " / ", "", "  Option+Cmd+K ", "cmdcmd / x", "a/b/c", "Ccommandmd"] {
        let once = windows_shortcut_variant(s);
        assert_eq!(windows_shortcut_variant(&once), once, "{}", s);
    }
}
