use vstd::prelude::*;

use crate::shortcut::{Chord, VK_CONTROL, VK_RETURN, VK_V};

verus! {

/// One key stroke that Windows is asked to type: the key's virtual-key code,
/// and whether it goes up (else down).
#[derive(Clone, Copy, Debug, PartialEq, Eq, Structural)]
pub struct KeyEvent {
    pub key: u16,
    pub key_up: bool,
}

pub open spec fn down(key: u16) -> KeyEvent {
    KeyEvent { key, key_up: false }
}

pub open spec fn up(key: u16) -> KeyEvent {
    KeyEvent { key, key_up: true }
}

/// Typing a chord: the modifiers go down in order, the key goes down and up,
/// then the modifiers go up in reverse order.
pub open spec fn chord_strokes(modifiers: Seq<u16>, key: u16) -> Seq<KeyEvent> {
    modifiers.map_values(|m: u16| down(m)) + seq![down(key), up(key)] + modifiers.reverse().map_values(
        |m: u16| up(m),
    )
}

/// The key strokes that type `chord`.
pub fn chord_key_events(chord: &Chord) -> (r: Vec<KeyEvent>)
    ensures
        r@ == chord_strokes(chord.modifiers@, chord.key),
{
    let mods = &chord.modifiers;
    let n = mods.len();
    let mut r: Vec<KeyEvent> = Vec::new();
    let mut i: usize = 0;
    while i < n
        invariant
            i <= n,
            n == mods.len(),
            r@ == mods@.take(i as int).map_values(|m: u16| down(m)),
        decreases n - i,
    {
        r.push(KeyEvent { key: mods[i], key_up: false });
        assert(mods@.take(i + 1).map_values(|m: u16| down(m)) =~= mods@.take(i as int).map_values(
            |m: u16| down(m),
        ).push(down(mods@[i as int])));
        i += 1;
    }
    r.push(KeyEvent { key: chord.key, key_up: false });
    r.push(KeyEvent { key: chord.key, key_up: true });
    let ghost first = mods@.map_values(|m: u16| down(m)) + seq![down(chord.key), up(chord.key)];
    assert(mods@.take(n as int) =~= mods@);
    assert(r@ =~= first);
    let mut j: usize = n;
    while j > 0
        invariant
            j <= n,
            n == mods.len(),
            r@ == first + mods@.reverse().take(n - j).map_values(|m: u16| up(m)),
        decreases j,
    {
        r.push(KeyEvent { key: mods[j - 1], key_up: true });
        assert(mods@.reverse()[n - j] == mods@[j - 1]);
        assert(mods@.reverse().take(n - j + 1).map_values(|m: u16| up(m)) =~= mods@.reverse().take(
            n - j,
        ).map_values(|m: u16| up(m)).push(up(mods@[j - 1])));
        j -= 1;
    }
    assert(mods@.reverse().take(n as int) =~= mods@.reverse());
    r
}

/// Pasting: Ctrl and V go down, V and Ctrl go up; then, when `auto_enter`,
/// Enter goes down and up.
pub open spec fn paste_strokes(auto_enter: bool) -> Seq<KeyEvent> {
    seq![down(VK_CONTROL), down(VK_V), up(VK_V), up(VK_CONTROL)] + if auto_enter {
        seq![down(VK_RETURN), up(VK_RETURN)]
    } else {
        Seq::<KeyEvent>::empty()
    }
}

/// The key strokes that paste the clipboard and, when `auto_enter`, press Enter.
pub fn paste_key_events(auto_enter: bool) -> (r: Vec<KeyEvent>)
    ensures
        r@ == paste_strokes(auto_enter),
{
    let mut r: Vec<KeyEvent> = Vec::new();
    r.push(KeyEvent { key: VK_CONTROL, key_up: false });
    r.push(KeyEvent { key: VK_V, key_up: false });
    r.push(KeyEvent { key: VK_V, key_up: true });
    r.push(KeyEvent { key: VK_CONTROL, key_up: true });
    if auto_enter {
        r.push(KeyEvent { key: VK_RETURN, key_up: false });
        r.push(KeyEvent { key: VK_RETURN, key_up: true });
    }
    assert(r@ =~= paste_strokes(auto_enter));
    r
}


pub open spec fn windows_only_message() -> Seq<char> {
    "Windows only"@
}

pub open spec fn no_target_message() -> Seq<char> {
    "貼り付け先ウィンドウが未記録です"@
}

/// The window that has the focus, where input can be injected. Input injection
/// needs Windows; elsewhere there is no such window and the handle is 0.
pub fn foreground_window() -> (r: isize)
    ensures
        r == 0,
{
    0
}

/// Brings window `hwnd` to the front. Input injection needs Windows;
/// elsewhere this fails with "Windows only".
pub fn focus_window(hwnd: isize) -> (r: Result<(), String>)
    ensures
        r is Err && r->Err_0@ == windows_only_message(),
{
    Err(String::from_str("Windows only"))
}

/// Pastes `text` into the focused window, then presses Enter when
/// `auto_enter`. Input injection needs Windows; elsewhere this fails with
/// "Windows only".
pub fn send_text(text: &str, auto_enter: bool) -> (r: Result<(), String>)
    ensures
        r is Err && r->Err_0@ == windows_only_message(),
{
    Err(String::from_str("Windows only"))
}

/// Types `shortcut` into the focused window. Input injection needs Windows;
/// elsewhere this fails with "Windows only".
pub fn send_shortcut(shortcut: &str) -> (r: Result<(), String>)
    ensures
        r is Err && r->Err_0@ == windows_only_message(),
{
    Err(String::from_str("Windows only"))
}

/// Whether a window can be focused to paste into: the handle 0 means that no
/// window was recorded, which is an error.
pub fn check_focus_target(hwnd: isize) -> (r: Result<(), String>)
    ensures
        hwnd == 0 ==> r is Err && r->Err_0@ == no_target_message(),
        hwnd != 0 ==> r is Ok,
{
    if hwnd == 0 {
        return Err(String::from_str("貼り付け先ウィンドウが未記録です"));
    }
    Ok(())
}

/// Records `foreground` as the window to paste into; the handle 0 (no window)
/// leaves the recorded one as it was.
pub fn record_foreground_target(target: &mut isize, foreground: isize)
    ensures
        foreground != 0 ==> *final(target) == foreground,
        foreground == 0 ==> *final(target) == *old(target),
{
    if foreground != 0 {
        *target = foreground;
    }
}

/// The UTF-16 code units of `c`: one below U+10000, else a surrogate pair.
pub open spec fn utf16_of_char(c: char) -> Seq<u16> {
    let u = c as u32;
    if u < 0x10000 {
        seq![u as u16]
    } else {
        seq![(0xD800 + (u - 0x10000) / 0x400) as u16, (0xDC00 + (u - 0x10000) % 0x400) as u16]
    }
}

/// The UTF-16 code units of `s`, as `str::encode_utf16` yields them.
pub open spec fn utf16_of(s: Seq<char>) -> Seq<u16>
    decreases s.len(),
{
    if s.len() == 0 {
        Seq::<u16>::empty()
    } else {
        utf16_of(s.drop_last()) + utf16_of_char(s.last())
    }
}

/// The UTF-16 code units of `text`.
pub fn utf16_units(text: &str) -> (r: Vec<u16>)
    ensures
        r@ == utf16_of(text@),
{
    let s = crate::text::chars_of(text);
    let mut r: Vec<u16> = Vec::new();
    let mut i: usize = 0;
    while i < s.len()
        invariant
            i <= s.len(),
            r@ == utf16_of(s@.take(i as int)),
        decreases s.len() - i,
    {
        let c = s[i];
        let u = c as u32;
        assert(s@.take(i + 1).drop_last() =~= s@.take(i as int));
        let ghost before = r@;
        if u < 0x10000 {
            r.push(u as u16);
        } else {
            r.push((0xD800 + (u - 0x10000) / 0x400) as u16);
            r.push((0xDC00 + (u - 0x10000) % 0x400) as u16);
        }
        assert(r@ =~= before + utf16_of_char(c));
        i += 1;
    }
    assert(s@.take(s.len() as int) =~= s@);
    r
}


/// The clipboard form of `text`: its UTF-16 code units and a closing 0.
pub fn clipboard_units(text: &str) -> (r: Vec<u16>)
    ensures
        r@ == utf16_of(text@).push(0),
{
    let mut r = utf16_units(text);
    r.push(0);
    r
}

} // verus!
