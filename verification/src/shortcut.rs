use vstd::prelude::*;

use crate::text::{
    apart, ascii_lowered, ascii_upper, blank, lemma_plus_space_gone, lacks, lemma_nonempty_trimmed_from, lemma_no_pieces,
    lemma_replace_absent, lemma_replace_lacks, lemma_replace_solid, lemma_split_pieces_lack,
    lemma_split_single, lemma_trim_keeps, lemma_trim_solid, solid_edges, chars_of, contains, contains_seq, is_blank, is_prefix,
    is_whitespace, is_ws, lemma_replace_leaves_no, nonempty_trimmed, occurs_at, replace,
    replace_all, same_chars, split, string_of, trim, to_ascii_lowered, trimmed_pieces, views, Separator,
};

verus! {

pub open spec fn ctrl_word() -> Seq<char> {
    seq!['c', 't', 'r', 'l']
}

pub open spec fn control_word() -> Seq<char> {
    seq!['c', 'o', 'n', 't', 'r', 'o', 'l']
}

/// A shortcut alternative names the Control key: its ASCII lower case holds
/// "ctrl" or "control".
pub open spec fn names_ctrl(part: Seq<char>) -> bool {
    contains(ascii_lowered(part), ctrl_word()) || contains(ascii_lowered(part), control_word())
}

/// The index of the first of `parts`, from `i` on, that names the Control key.
pub open spec fn first_ctrl_from(parts: Seq<Seq<char>>, i: int) -> Option<int>
    decreases parts.len() - i,
{
    if i < 0 || i >= parts.len() {
        None
    } else if names_ctrl(parts[i]) {
        Some(i)
    } else {
        first_ctrl_from(parts, i + 1)
    }
}

/// The alternatives of a shortcut written as "A / B": its pieces between '/',
/// trimmed, empty ones left out.
pub open spec fn alternatives(shortcut: Seq<char>) -> Seq<Seq<char>> {
    nonempty_trimmed(split(shortcut, Separator::Char('/')))
}

/// The alternative that a Windows keyboard uses: the first that names the
/// Control key, else the first, else the whole text.
pub open spec fn selected_alternative(shortcut: Seq<char>) -> Seq<char> {
    let parts = alternatives(shortcut);
    match first_ctrl_from(parts, 0) {
        Some(i) => parts[i],
        None => if parts.len() > 0 {
            parts[0]
        } else {
            shortcut
        },
    }
}

pub open spec fn ctrl_name() -> Seq<char> {
    seq!['C', 't', 'r', 'l']
}

pub open spec fn cmd_upper() -> Seq<char> {
    seq!['C', 'm', 'd']
}

pub open spec fn cmd_lower() -> Seq<char> {
    seq!['c', 'm', 'd']
}

pub open spec fn command_upper() -> Seq<char> {
    seq!['C', 'o', 'm', 'm', 'a', 'n', 'd']
}

pub open spec fn command_lower() -> Seq<char> {
    seq!['c', 'o', 'm', 'm', 'a', 'n', 'd']
}

/// The Windows form of a shortcut: the selected alternative with "Command",
/// "command", "Cmd" and "cmd" replaced by "Ctrl", in that order.
pub open spec fn windows_variant(shortcut: Seq<char>) -> Seq<char> {
    let s = selected_alternative(shortcut);
    let s1 = replace(s, command_upper(), ctrl_name());
    let s2 = replace(s1, command_lower(), ctrl_name());
    let s3 = replace(s2, cmd_upper(), ctrl_name());
    replace(s3, cmd_lower(), ctrl_name())
}

fn names_ctrl_exec(part: &Vec<char>) -> (r: bool)
    ensures
        r == names_ctrl(part@),
{
    let lower = to_ascii_lowered(part);
    let ctrl: Vec<char> = vec!['c', 't', 'r', 'l'];
    let control: Vec<char> = vec!['c', 'o', 'n', 't', 'r', 'o', 'l'];
    contains_seq(&lower, &ctrl) || contains_seq(&lower, &control)
}

/// The chars of the alternative of `shortcut` that a Windows keyboard uses.
fn select_alternative(shortcut: &Vec<char>) -> (r: Vec<char>)
    ensures
        r@ == selected_alternative(shortcut@),
{
    let parts = trimmed_pieces(shortcut, Separator::Char('/'));
    let ghost ps = views(parts@);
    assert(ps == alternatives(shortcut@));
    let mut i: usize = 0;
    while i < parts.len()
        invariant
            i <= parts.len(),
            ps == views(parts@),
            ps == alternatives(shortcut@),
            ps.len() == parts.len(),
            first_ctrl_from(ps, 0) == first_ctrl_from(ps, i as int),
        decreases parts.len() - i,
    {
        assert(ps[i as int] == parts@[i as int]@);
        if names_ctrl_exec(&parts[i]) {
            let r = parts[i].clone();
            assert(r@ =~= ps[i as int]);
            return r;
        }
        i += 1;
    }
    if parts.len() > 0 {
        let r = parts[0].clone();
        assert(r@ =~= ps[0]);
        r
    } else {
        let r = shortcut.clone();
        assert(r@ =~= shortcut@);
        r
    }
}

/// The form of `shortcut` that a Windows keyboard types: of alternatives written
/// as "A / B" the first that names the Control key (else the first), with
/// Command and Cmd in any of their spellings turned into Ctrl.
pub fn windows_shortcut_variant(shortcut: &str) -> (r: String)
    ensures
        r@ == windows_variant(shortcut@),
{
    let s = chars_of(shortcut);
    let selected = select_alternative(&s);
    let ctrl: Vec<char> = vec!['C', 't', 'r', 'l'];
    let s1 = replace_all(&selected, &vec!['C', 'o', 'm', 'm', 'a', 'n', 'd'], &ctrl);
    let s2 = replace_all(&s1, &vec!['c', 'o', 'm', 'm', 'a', 'n', 'd'], &ctrl);
    let s3 = replace_all(&s2, &vec!['C', 'm', 'd'], &ctrl);
    let s4 = replace_all(&s3, &vec!['c', 'm', 'd'], &ctrl);
    string_of(&s4)
}


/// Windows virtual-key codes of the keys that shortcuts name.
pub const VK_BACK: u16 = 0x08;
pub const VK_TAB: u16 = 0x09;
pub const VK_RETURN: u16 = 0x0D;
pub const VK_SHIFT: u16 = 0x10;
pub const VK_CONTROL: u16 = 0x11;
pub const VK_MENU: u16 = 0x12;
pub const VK_ESCAPE: u16 = 0x1B;
pub const VK_SPACE: u16 = 0x20;
pub const VK_PRIOR: u16 = 0x21;
pub const VK_NEXT: u16 = 0x22;
pub const VK_END: u16 = 0x23;
pub const VK_HOME: u16 = 0x24;
pub const VK_LEFT: u16 = 0x25;
pub const VK_UP: u16 = 0x26;
pub const VK_RIGHT: u16 = 0x27;
pub const VK_DOWN: u16 = 0x28;
pub const VK_INSERT: u16 = 0x2D;
pub const VK_DELETE: u16 = 0x2E;
pub const VK_V: u16 = 0x56;
pub const VK_LWIN: u16 = 0x5B;
pub const VK_F1: u16 = 0x70;

/// What `char::to_uppercase` yields for `c`: its Unicode upper-case mapping.
pub uninterp spec fn char_uppercase(c: char) -> Seq<char>;

/// `char::to_uppercase` of std, collected: the one or more characters of the
/// Unicode upper-case mapping of `c`, which `char_uppercase` names. Of ASCII
/// characters it states what std documents through the Unicode data: 'a' to
/// 'z' map to 'A' to 'Z', and the other ASCII characters, which have no
/// upper-case mapping, to themselves. Nothing more is stated of the mapping.
#[verifier::external_body]
fn uppercase_of(c: char) -> (r: Vec<char>)
    ensures
        r@ == char_uppercase(c),
        (c as u32) < 0x80 ==> r@ == seq![ascii_upper(c)],
{
    c.to_uppercase().collect()
}

/// Whether `normalize_token` drops `c`: white space and '-'.
pub open spec fn dropped_in_token(c: char) -> bool {
    is_ws(c) || c == '-'
}

/// A key name made comparable: white space and '-' left out, every other
/// character replaced by its upper-case mapping.
pub open spec fn normalized(s: Seq<char>) -> Seq<char>
    decreases s.len(),
{
    if s.len() == 0 {
        Seq::<char>::empty()
    } else if dropped_in_token(s.last()) {
        normalized(s.drop_last())
    } else {
        normalized(s.drop_last()) + char_uppercase(s.last())
    }
}

/// All characters of `s` are ASCII.
pub open spec fn all_ascii(s: Seq<char>) -> bool {
    forall|i: int| 0 <= i < s.len() ==> (#[trigger] s[i] as u32) < 0x80
}

/// `normalized` on ASCII text: white space and '-' left out, a-z made A-Z.
pub open spec fn ascii_normalized(s: Seq<char>) -> Seq<char>
    decreases s.len(),
{
    if s.len() == 0 {
        Seq::<char>::empty()
    } else if dropped_in_token(s.last()) {
        ascii_normalized(s.drop_last())
    } else {
        ascii_normalized(s.drop_last()).push(ascii_upper(s.last()))
    }
}

fn normalized_chars(s: &Vec<char>) -> (r: Vec<char>)
    ensures
        r@ == normalized(s@),
        all_ascii(s@) ==> r@ == ascii_normalized(s@),
{
    let mut r: Vec<char> = Vec::new();
    let mut i: usize = 0;
    while i < s.len()
        invariant
            i <= s.len(),
            r@ == normalized(s@.take(i as int)),
            all_ascii(s@) ==> r@ == ascii_normalized(s@.take(i as int)),
        decreases s.len() - i,
    {
        let c = s[i];
        assert(s@.take(i + 1).last() == c);
        assert(s@.take(i + 1).drop_last() =~= s@.take(i as int));
        if !(is_whitespace(c) || c == '-') {
            let up = uppercase_of(c);
            let ghost before = r@;
            let mut k: usize = 0;
            while k < up.len()
                invariant
                    k <= up.len(),
                    r@ == before + up@.take(k as int),
                decreases up.len() - k,
            {
                r.push(up[k]);
                assert(up@.take(k + 1) =~= up@.take(k as int).push(up@[k as int]));
                k += 1;
            }
            assert(up@.take(up.len() as int) =~= up@);
        }
        i += 1;
    }
    assert(s@.take(s.len() as int) =~= s@);
    r
}

/// `token` made comparable: trimmed, white space and '-' left out, upper case.
pub fn normalize_token(token: &str) -> (r: String)
    ensures
        r@ == normalized(token@),
        all_ascii(token@) ==> r@ == ascii_normalized(token@),
{
    let s = chars_of(token);
    let n = normalized_chars(&s);
    string_of(&n)
}

/// The modifier key that a normalized token names.
pub open spec fn modifier_code(n: Seq<char>) -> Option<u16> {
    if n == seq!['C', 'T', 'R', 'L'] || n == seq!['C', 'O', 'N', 'T', 'R', 'O', 'L'] {
        Some(VK_CONTROL)
    } else if n == seq!['S', 'H', 'I', 'F', 'T'] {
        Some(VK_SHIFT)
    } else if n == seq!['A', 'L', 'T'] || n == seq!['O', 'P', 'T', 'I', 'O', 'N'] {
        Some(VK_MENU)
    } else if n == seq!['W', 'I', 'N'] || n == seq!['W', 'I', 'N', 'D', 'O', 'W', 'S'] || n
        == seq!['M', 'E', 'T', 'A'] {
        Some(VK_LWIN)
    } else if n == seq!['C', 'M', 'D'] || n == seq!['C', 'O', 'M', 'M', 'A', 'N', 'D'] {
        Some(VK_CONTROL)
    } else {
        None
    }
}

/// The modifier key that `token` names, if any.
pub open spec fn spec_modifier_vk(token: Seq<char>) -> Option<u16> {
    modifier_code(normalized(token))
}

fn modifier_code_exec(n: &Vec<char>) -> (r: Option<u16>)
    ensures
        r == modifier_code(n@),
{
    if same_chars(n, &vec!['C', 'T', 'R', 'L']) || same_chars(n, &vec!['C', 'O', 'N', 'T', 'R', 'O', 'L']) {
        Some(VK_CONTROL)
    } else if same_chars(n, &vec!['S', 'H', 'I', 'F', 'T']) {
        Some(VK_SHIFT)
    } else if same_chars(n, &vec!['A', 'L', 'T']) || same_chars(n, &vec!['O', 'P', 'T', 'I', 'O', 'N']) {
        Some(VK_MENU)
    } else if same_chars(n, &vec!['W', 'I', 'N']) || same_chars(n, &vec!['W', 'I', 'N', 'D', 'O', 'W', 'S'])
        || same_chars(n, &vec!['M', 'E', 'T', 'A']) {
        Some(VK_LWIN)
    } else if same_chars(n, &vec!['C', 'M', 'D']) || same_chars(n, &vec!['C', 'O', 'M', 'M', 'A', 'N', 'D']) {
        Some(VK_CONTROL)
    } else {
        None
    }
}

/// The modifier key that an already normalized key name names.
pub fn modifier_of_normalized(name: &str) -> (r: Option<u16>)
    ensures
        r == modifier_code(name@),
{
    modifier_code_exec(&chars_of(name))
}

/// The virtual-key code of the modifier that `token` names: Ctrl (also
/// Control, Cmd, Command), Shift, Alt (also Option), Win (also Windows, Meta).
pub fn modifier_vk(token: &str) -> (r: Option<u16>)
    ensures
        r == spec_modifier_vk(token@),
        all_ascii(token@) ==> r == modifier_code(ascii_normalized(token@)),
{
    let s = chars_of(token);
    let n = normalized_chars(&s);
    modifier_code_exec(&n)
}


pub open spec fn is_digit(c: char) -> bool {
    '0' <= c && c <= '9'
}

pub open spec fn all_digits(d: Seq<char>) -> bool {
    forall|i: int| 0 <= i < d.len() ==> is_digit(#[trigger] d[i])
}

/// The number that the decimal digits `d` write.
pub open spec fn digits_value(d: Seq<char>) -> nat
    decreases d.len(),
{
    if d.len() == 0 {
        0
    } else {
        digits_value(d.drop_last()) * 10 + ((d.last() as u32) - ('0' as u32)) as nat
    }
}

/// What `str::parse::<u16>` gives: an optional '+' and then one or more decimal
/// digits whose number is at most 65535.
pub open spec fn parse_u16(s: Seq<char>) -> Option<u16> {
    let d = if s.len() > 0 && s[0] == '+' {
        s.drop_first()
    } else {
        s
    };
    if d.len() > 0 && all_digits(d) && digits_value(d) <= 65535 {
        Some(digits_value(d) as u16)
    } else {
        None
    }
}

proof fn lemma_digits_value_grows(d: Seq<char>, k: int)
    requires
        0 <= k <= d.len(),
        all_digits(d),
    ensures
        digits_value(d.take(k)) <= digits_value(d),
    decreases d.len(),
{
    if k == d.len() {
        assert(d.take(k) =~= d);
    } else {
        lemma_digits_value_grows(d.drop_last(), k);
        assert(d.drop_last().take(k) =~= d.take(k));
    }
}

/// `str::parse::<u16>` on the characters `s`.
fn parse_u16_chars(s: &Vec<char>, start: usize) -> (r: Option<u16>)
    requires
        start <= s.len(),
    ensures
        r == parse_u16(s@.skip(start as int)),
{
    let ghost t = s@.skip(start as int);
    let mut i: usize = start;
    if i < s.len() && s[i] == '+' {
        i += 1;
    }
    let ghost d = s@.skip(i as int);
    assert(d =~= (if t.len() > 0 && t[0] == '+' { t.drop_first() } else { t }));
    if i == s.len() {
        return None;
    }
    let mut v: u32 = 0;
    let mut k: usize = i;
    while k < s.len()
        invariant
            i <= k <= s.len(),
            i < s.len(),
            d == s@.skip(i as int),
            t == s@.skip(start as int),
            d == (if t.len() > 0 && t[0] == '+' { t.drop_first() } else { t }),
            all_digits(d.take(k - i)),
            v as nat == digits_value(d.take(k - i)),
            v <= 65535,
        decreases s.len() - k,
    {
        let c = s[k];
        assert(d.take(k + 1 - i).drop_last() =~= d.take(k - i));
        assert(d.take(k + 1 - i).last() == c);
        if !('0' <= c && c <= '9') {
            assert(!is_digit(d[k - i]));
            return None;
        }
        let digit: u32 = (c as u32) - ('0' as u32);
        v = v * 10 + digit;
        assert(digits_value(d.take(k + 1 - i)) == digits_value(d.take(k - i)) * 10 + digit);
        if v > 65535 {
            proof {
                if all_digits(d) {
                    lemma_digits_value_grows(d, k + 1 - i);
                }
            }
            return None;
        }
        k += 1;
    }
    assert(d.take(k - i) =~= d);
    Some(v as u16)
}

/// The named keys: Enter, Tab, Escape, Space, Backspace, Delete, Insert, the
/// arrows, Home, End, PageUp and PageDown, with their short forms.
pub open spec fn named_key(n: Seq<char>) -> Option<u16> {
    if n == seq!['E', 'N', 'T', 'E', 'R'] || n == seq!['R', 'E', 'T', 'U', 'R', 'N'] {
        Some(VK_RETURN)
    } else if n == seq!['T', 'A', 'B'] {
        Some(VK_TAB)
    } else if n == seq!['E', 'S', 'C'] || n == seq!['E', 'S', 'C', 'A', 'P', 'E'] {
        Some(VK_ESCAPE)
    } else if n == seq!['S', 'P', 'A', 'C', 'E'] {
        Some(VK_SPACE)
    } else if n == seq!['B', 'A', 'C', 'K', 'S', 'P', 'A', 'C', 'E'] {
        Some(VK_BACK)
    } else if n == seq!['D', 'E', 'L', 'E', 'T', 'E'] || n == seq!['D', 'E', 'L'] {
        Some(VK_DELETE)
    } else if n == seq!['I', 'N', 'S', 'E', 'R', 'T'] || n == seq!['I', 'N', 'S'] {
        Some(VK_INSERT)
    } else if n == seq!['L', 'E', 'F', 'T'] {
        Some(VK_LEFT)
    } else if n == seq!['R', 'I', 'G', 'H', 'T'] {
        Some(VK_RIGHT)
    } else if n == seq!['U', 'P'] {
        Some(VK_UP)
    } else if n == seq!['D', 'O', 'W', 'N'] {
        Some(VK_DOWN)
    } else if n == seq!['H', 'O', 'M', 'E'] {
        Some(VK_HOME)
    } else if n == seq!['E', 'N', 'D'] {
        Some(VK_END)
    } else if n == seq!['P', 'A', 'G', 'E', 'U', 'P'] || n == seq!['P', 'G', 'U', 'P'] {
        Some(VK_PRIOR)
    } else if n == seq!['P', 'A', 'G', 'E', 'D', 'O', 'W', 'N'] || n == seq!['P', 'G', 'D', 'N'] {
        Some(VK_NEXT)
    } else {
        None
    }
}

/// The key that a normalized token names: one ASCII upper-case letter or digit
/// is its own code; F1 to F24 are the function keys; else a named key.
pub open spec fn key_code(n: Seq<char>) -> Option<u16> {
    if n.len() == 1 && (('A' <= n[0] && n[0] <= 'Z') || is_digit(n[0])) {
        Some(n[0] as u16)
    } else if n.len() > 0 && n[0] == 'F' && parse_u16(n.drop_first()) is Some && 1
        <= parse_u16(n.drop_first())->0 <= 24 {
        Some((VK_F1 + parse_u16(n.drop_first())->0 - 1) as u16)
    } else {
        named_key(n)
    }
}

/// The key, other than a modifier, that `token` names, if any.
pub open spec fn spec_key_vk(token: Seq<char>) -> Option<u16> {
    key_code(normalized(token))
}

fn named_key_exec(n: &Vec<char>) -> (r: Option<u16>)
    ensures
        r == named_key(n@),
{
    if same_chars(n, &vec!['E', 'N', 'T', 'E', 'R']) || same_chars(n, &vec!['R', 'E', 'T', 'U', 'R', 'N']) {
        Some(VK_RETURN)
    } else if same_chars(n, &vec!['T', 'A', 'B']) {
        Some(VK_TAB)
    } else if same_chars(n, &vec!['E', 'S', 'C']) || same_chars(n, &vec!['E', 'S', 'C', 'A', 'P', 'E']) {
        Some(VK_ESCAPE)
    } else if same_chars(n, &vec!['S', 'P', 'A', 'C', 'E']) {
        Some(VK_SPACE)
    } else if same_chars(n, &vec!['B', 'A', 'C', 'K', 'S', 'P', 'A', 'C', 'E']) {
        Some(VK_BACK)
    } else if same_chars(n, &vec!['D', 'E', 'L', 'E', 'T', 'E']) || same_chars(n, &vec!['D', 'E', 'L']) {
        Some(VK_DELETE)
    } else if same_chars(n, &vec!['I', 'N', 'S', 'E', 'R', 'T']) || same_chars(n, &vec!['I', 'N', 'S']) {
        Some(VK_INSERT)
    } else if same_chars(n, &vec!['L', 'E', 'F', 'T']) {
        Some(VK_LEFT)
    } else if same_chars(n, &vec!['R', 'I', 'G', 'H', 'T']) {
        Some(VK_RIGHT)
    } else if same_chars(n, &vec!['U', 'P']) {
        Some(VK_UP)
    } else if same_chars(n, &vec!['D', 'O', 'W', 'N']) {
        Some(VK_DOWN)
    } else if same_chars(n, &vec!['H', 'O', 'M', 'E']) {
        Some(VK_HOME)
    } else if same_chars(n, &vec!['E', 'N', 'D']) {
        Some(VK_END)
    } else if same_chars(n, &vec!['P', 'A', 'G', 'E', 'U', 'P']) || same_chars(n, &vec!['P', 'G', 'U', 'P']) {
        Some(VK_PRIOR)
    } else if same_chars(n, &vec!['P', 'A', 'G', 'E', 'D', 'O', 'W', 'N']) || same_chars(
        n,
        &vec!['P', 'G', 'D', 'N'],
    ) {
        Some(VK_NEXT)
    } else {
        None
    }
}

fn key_code_exec(n: &Vec<char>) -> (r: Option<u16>)
    ensures
        r == key_code(n@),
{
    if n.len() == 1 {
        let c = n[0];
        if ('A' <= c && c <= 'Z') || ('0' <= c && c <= '9') {
            return Some(c as u16);
        }
    }
    if n.len() > 0 && n[0] == 'F' {
        assert(n@.skip(1) =~= n@.drop_first());
        if let Some(number) = parse_u16_chars(n, 1) {
            if 1 <= number && number <= 24 {
                return Some(VK_F1 + number - 1);
            }
        }
    }
    named_key_exec(n)
}

/// The key, other than a modifier, that an already normalized key name names.
pub fn key_of_normalized(name: &str) -> (r: Option<u16>)
    ensures
        r == key_code(name@),
{
    key_code_exec(&chars_of(name))
}

/// The virtual-key code of the key, other than a modifier, that `token` names:
/// a letter or digit, F1 to F24, or a named key such as Enter or PageUp.
pub fn key_vk(token: &str) -> (r: Option<u16>)
    ensures
        r == spec_key_vk(token@),
        all_ascii(token@) ==> r == key_code(ascii_normalized(token@)),
{
    let s = chars_of(token);
    let n = normalized_chars(&s);
    key_code_exec(&n)
}


/// The keys of one chord such as "Ctrl+Shift+P": the modifiers in the order
/// written, and the one other key.
#[derive(Debug)]
pub struct Chord {
    pub modifiers: Vec<u16>,
    pub key: u16,
}

/// The tokens of a chord: its pieces between '+', trimmed, empty ones left out.
pub open spec fn chord_tokens(chord: Seq<char>) -> Seq<Seq<char>> {
    nonempty_trimmed(split(chord, Separator::Char('+')))
}

/// Reads chord tokens in order: a modifier is kept; the first other token sets
/// the key (to nothing if it names none), and one more after a recognized key
/// is an error (`None`).
pub open spec fn scan_tokens(tokens: Seq<Seq<char>>) -> Option<(Seq<u16>, Option<u16>)>
    decreases tokens.len(),
{
    if tokens.len() == 0 {
        Some((Seq::<u16>::empty(), None))
    } else {
        match scan_tokens(tokens.drop_last()) {
            None => None,
            Some((mods, key)) => {
                let tok = tokens.last();
                match spec_modifier_vk(tok) {
                    Some(m) => Some((mods.push(m), key)),
                    None => if key is None {
                        Some((mods, spec_key_vk(tok)))
                    } else {
                        None
                    },
                }
            },
        }
    }
}

pub open spec fn several_keys_message() -> Seq<char> {
    "ショートカットのキー指定が複数あります: "@
}

pub open spec fn unknown_key_message() -> Seq<char> {
    "ショートカットのキーを認識できません: "@
}

proof fn lemma_scan_error_stays(tokens: Seq<Seq<char>>, j: int, k: int)
    requires
        0 <= j <= k <= tokens.len(),
        scan_tokens(tokens.take(j)) is None,
    ensures
        scan_tokens(tokens.take(k)) is None,
    decreases k - j,
{
    if k > j {
        lemma_scan_error_stays(tokens, j, k - 1);
        assert(tokens.take(k).drop_last() =~= tokens.take(k - 1));
    }
}

/// The keys of one chord such as "Ctrl+Shift+P", or the error that the chord
/// names a second key, or names no key that is not a modifier.
pub fn parse_chord(chord: &str) -> (r: Result<Chord, String>)
    ensures
        match scan_tokens(chord_tokens(chord@)) {
            None => r is Err && r->Err_0@ == several_keys_message() + chord@,
            Some((mods, None)) => r is Err && r->Err_0@ == unknown_key_message() + chord@,
            Some((mods, Some(key))) => r is Ok && r->Ok_0.modifiers@ == mods && r->Ok_0.key
                == key,
        },
{
    let s = chars_of(chord);
    let tokens = trimmed_pieces(&s, Separator::Char('+'));
    let ghost ts = views(tokens@);
    assert(ts == chord_tokens(chord@));
    let mut modifiers: Vec<u16> = Vec::new();
    let mut key: Option<u16> = None;
    let mut i: usize = 0;
    assert(ts.take(0) =~= Seq::<Seq<char>>::empty());
    while i < tokens.len()
        invariant
            i <= tokens.len(),
            ts == views(tokens@),
            ts == chord_tokens(chord@),
            scan_tokens(ts.take(i as int)) == Some((modifiers@, key)),
        decreases tokens.len() - i,
    {
        let n = normalized_chars(&tokens[i]);
        assert(ts.take(i + 1).drop_last() =~= ts.take(i as int));
        assert(ts.take(i + 1).last() == tokens@[i as int]@);
        match modifier_code_exec(&n) {
            Some(m) => {
                modifiers.push(m);
            },
            None => {
                if key.is_none() {
                    key = key_code_exec(&n);
                } else {
                    proof {
                        lemma_scan_error_stays(ts, i + 1, ts.len() as int);
                        assert(ts.take(ts.len() as int) =~= ts);
                    }
                    let mut msg = String::from_str("ショートカットのキー指定が複数あります: ");
                    msg.append(chord);
                    return Err(msg);
                }
            },
        }
        i += 1;
    }
    assert(ts.take(ts.len() as int) =~= ts);
    match key {
        Some(k) => Ok(Chord { modifiers, key: k }),
        None => {
            let mut msg = String::from_str("ショートカットのキーを認識できません: ");
            msg.append(chord);
            Err(msg)
        },
    }
}


/// The chord sequence of a shortcut: its Windows form with the spaces around
/// '+' taken out (" + ", then " +", then "+ ").
pub open spec fn shortcut_sequence(shortcut: Seq<char>) -> Seq<char> {
    let s1 = replace(windows_variant(shortcut), seq![' ', '+', ' '], seq!['+']);
    let s2 = replace(s1, seq![' ', '+'], seq!['+']);
    replace(s2, seq!['+', ' '], seq!['+'])
}

/// The chords of a sequence: its pieces between white space, empty ones left
/// out, as `str::split_whitespace` gives them.
pub open spec fn chords_of(sequence: Seq<char>) -> Seq<Seq<char>> {
    nonempty_trimmed(split(sequence, Separator::Whitespace))
}

pub open spec fn empty_shortcut_message() -> Seq<char> {
    "ショートカットが空です"@
}

pub open spec fn string_views(v: Seq<String>) -> Seq<Seq<char>> {
    v.map_values(|x: String| x@)
}

/// The chords, in order, that typing `shortcut` on Windows presses one after
/// another, or the error that there are none.
pub fn shortcut_chords(shortcut: &str) -> (r: Result<Vec<String>, String>)
    ensures
        is_blank(shortcut_sequence(shortcut@)) ==> r is Err && r->Err_0@
            == empty_shortcut_message(),
        !is_blank(shortcut_sequence(shortcut@)) ==> r is Ok && string_views(r->Ok_0@)
            == chords_of(shortcut_sequence(shortcut@)),
{
    let variant = windows_shortcut_variant(shortcut);
    let v = chars_of(variant.as_str());
    let plus: Vec<char> = vec!['+'];
    let spaced: Vec<char> = vec![' ', '+', ' '];
    let before: Vec<char> = vec![' ', '+'];
    let after: Vec<char> = vec!['+', ' '];
    let s1 = replace_all(&v, &spaced, &plus);
    let s2 = replace_all(&s1, &before, &plus);
    let s3 = replace_all(&s2, &after, &plus);
    assert(v@ == windows_variant(shortcut@));
    assert(plus@ == seq!['+']);
    assert(s1@ == replace(windows_variant(shortcut@), seq![' ', '+', ' '], seq!['+']));
    assert(s3@ == shortcut_sequence(shortcut@));
    if blank(&s3) {
        return Err(String::from_str("ショートカットが空です"));
    }
    let pieces = trimmed_pieces(&s3, Separator::Whitespace);
    let mut out: Vec<String> = Vec::new();
    let mut i: usize = 0;
    while i < pieces.len()
        invariant
            i <= pieces.len(),
            string_views(out@) == views(pieces@).take(i as int),
        decreases pieces.len() - i,
    {
        let w = string_of(&pieces[i]);
        let ghost before = out@;
        out.push(w);
        assert(out@ == before.push(w));
        assert(string_views(out@) =~= string_views(before).push(w@));
        assert(views(pieces@).take(i + 1) =~= views(pieces@).take(i as int).push(pieces@[i as int]@));
        i += 1;
    }
    assert(views(pieces@).take(pieces.len() as int) =~= views(pieces@));
    Ok(out)
}


/// "Ctrl" cannot take part in an occurrence of `p` when `p` has no 'C' after
/// its start, does not go on 'C', 't' and is longer than one character.
proof fn lemma_ctrl_apart(p: Seq<char>)
    requires
        p.len() >= 3,
        forall|i: int| 1 <= i < p.len() ==> #[trigger] p[i] != 'C' && p[i] != 't' && p[i] != 'r'
            && p[i] != 'l',
        p[0] != 't' && p[0] != 'r' && p[0] != 'l',
    ensures
        apart(p, ctrl_name()),
{
    let t = ctrl_name();
    assert forall|x: int| !occurs_at(t, p, x) by {
        if occurs_at(t, p, x) {
            assert(t.subrange(x, x + p.len())[1] == t[x + 1]);
        }
    }
    assert forall|k: int| 1 <= k < p.len() && k <= t.len() implies #[trigger] t.skip(t.len() - k)
        != p.take(k) by {
        assert(t.skip(t.len() - k)[0] == t[t.len() - k]);
        assert(p.take(k)[0] == p[0]);
        if k < 4 {
            assert(t[t.len() - k] != 'C');
        } else {
            assert(t.skip(0)[1] == 't');
            assert(p.take(k)[1] == p[1]);
        }
    }
    assert forall|m: int| 1 <= m < p.len() implies !is_prefix(#[trigger] p.skip(m), t) && !is_prefix(
        t,
        p.skip(m),
    ) by {
        assert(p.skip(m)[0] == p[m]);
        if is_prefix(p.skip(m), t) {
            assert(t.take(p.skip(m).len() as int)[0] == t[0]);
        }
        if is_prefix(t, p.skip(m)) {
            assert(p.skip(m).take(4)[0] == p[m]);
        }
    }
}

/// The Windows form of a shortcut holds no Mac spelling of the Command key:
/// none of "Cmd", "cmd", "Command" or "command" is left in it.
pub proof fn lemma_windows_variant_has_no_command(shortcut: Seq<char>)
    ensures
        !contains(windows_variant(shortcut), cmd_upper()),
        !contains(windows_variant(shortcut), cmd_lower()),
        !contains(windows_variant(shortcut), command_upper()),
        !contains(windows_variant(shortcut), command_lower()),
{
    lemma_ctrl_apart(cmd_upper());
    lemma_ctrl_apart(cmd_lower());
    lemma_ctrl_apart(command_upper());
    lemma_ctrl_apart(command_lower());
    let s0 = selected_alternative(shortcut);
    let s1 = replace(s0, command_upper(), ctrl_name());
    let s2 = replace(s1, command_lower(), ctrl_name());
    let s3 = replace(s2, cmd_upper(), ctrl_name());
    let s4 = replace(s3, cmd_lower(), ctrl_name());
    assert(s4 == windows_variant(shortcut));
    lemma_replace_leaves_no(s0, command_upper(), command_upper(), ctrl_name());
    lemma_replace_leaves_no(s1, command_lower(), command_upper(), ctrl_name());
    lemma_replace_leaves_no(s1, command_lower(), command_lower(), ctrl_name());
    lemma_replace_leaves_no(s2, cmd_upper(), command_upper(), ctrl_name());
    lemma_replace_leaves_no(s2, cmd_upper(), command_lower(), ctrl_name());
    lemma_replace_leaves_no(s2, cmd_upper(), cmd_upper(), ctrl_name());
    lemma_replace_leaves_no(s3, cmd_lower(), command_upper(), ctrl_name());
    lemma_replace_leaves_no(s3, cmd_lower(), command_lower(), ctrl_name());
    lemma_replace_leaves_no(s3, cmd_lower(), cmd_upper(), ctrl_name());
    lemma_replace_leaves_no(s3, cmd_lower(), cmd_lower(), ctrl_name());
}


/// No token names both a modifier and another key: whatever names a modifier
/// is read as a modifier alone.
pub proof fn lemma_modifier_is_no_key(token: Seq<char>)
    ensures
        spec_modifier_vk(token) is Some ==> spec_key_vk(token) is None,
{
    let n = normalized(token);
    if modifier_code(n) is Some {
        assert(n.len() >= 3);
        assert(n[0] != 'F');
        assert(named_key(n) is None) by {
            assert(n[0] == 'C' || n[0] == 'S' || n[0] == 'A' || n[0] == 'O' || n[0] == 'W' || n[0]
                == 'M');
        }
    }
}

} // verus!

verus! {

/// The four replacements that turn Command and Cmd into Ctrl.
pub open spec fn ctrl_spellings(s: Seq<char>) -> Seq<char> {
    let s1 = replace(s, command_upper(), ctrl_name());
    let s2 = replace(s1, command_lower(), ctrl_name());
    let s3 = replace(s2, cmd_upper(), ctrl_name());
    replace(s3, cmd_lower(), ctrl_name())
}

proof fn lemma_ctrl_spellings_keep(s: Seq<char>)
    requires
        solid_edges(s),
        lacks(s, '/'),
    ensures
        solid_edges(ctrl_spellings(s)),
        lacks(ctrl_spellings(s), '/'),
{
    let t = ctrl_name();
    assert(solid_edges(t));
    assert(lacks(t, '/'));
    let s1 = replace(s, command_upper(), t);
    let s2 = replace(s1, command_lower(), t);
    let s3 = replace(s2, cmd_upper(), t);
    lemma_replace_solid(s, command_upper(), t);
    lemma_replace_solid(s1, command_lower(), t);
    lemma_replace_solid(s2, cmd_upper(), t);
    lemma_replace_solid(s3, cmd_lower(), t);
    lemma_replace_lacks(s, command_upper(), t, '/');
    lemma_replace_lacks(s1, command_lower(), t, '/');
    lemma_replace_lacks(s2, cmd_upper(), t, '/');
    lemma_replace_lacks(s3, cmd_lower(), t, '/');
}

proof fn lemma_ctrl_spellings_absent(s: Seq<char>)
    requires
        !contains(s, cmd_upper()),
        !contains(s, cmd_lower()),
        !contains(s, command_upper()),
        !contains(s, command_lower()),
    ensures
        ctrl_spellings(s) == s,
{
    lemma_replace_absent(s, command_upper(), ctrl_name());
    lemma_replace_absent(s, command_lower(), ctrl_name());
    lemma_replace_absent(s, cmd_upper(), ctrl_name());
    lemma_replace_absent(s, cmd_lower(), ctrl_name());
}

/// Text made only of '/' and white space holds no spelling of Command.
proof fn lemma_no_command_in_blanks(s: Seq<char>, p: Seq<char>)
    requires
        forall|i: int| 0 <= i < s.len() ==> #[trigger] s[i] == '/' || is_ws(s[i]),
        p.len() >= 2,
        p[1] == 'm' || p[1] == 'o',
    ensures
        !contains(s, p),
{
    assert forall|x: int| !occurs_at(s, p, x) by {
        if occurs_at(s, p, x) {
            assert(s.subrange(x, x + p.len())[1] == s[x + 1]);
        }
    }
}

/// Taking the Windows form of a shortcut twice gives what taking it once
/// gives.
pub proof fn lemma_windows_variant_idempotent(shortcut: Seq<char>)
    ensures
        windows_variant(windows_variant(shortcut)) == windows_variant(shortcut),
{
    let v = windows_variant(shortcut);
    let parts = alternatives(shortcut);
    let sel = selected_alternative(shortcut);
    assert(v == ctrl_spellings(sel));
    lemma_windows_variant_has_no_command(shortcut);
    if parts.len() == 0 {
        lemma_no_pieces(shortcut, '/');
        lemma_no_command_in_blanks(shortcut, cmd_upper());
        lemma_no_command_in_blanks(shortcut, cmd_lower());
        lemma_no_command_in_blanks(shortcut, command_upper());
        lemma_no_command_in_blanks(shortcut, command_lower());
        lemma_ctrl_spellings_absent(shortcut);
        assert(sel == shortcut);
        assert(v == shortcut);
    } else {
        let i = match first_ctrl_from(parts, 0) {
            Some(i) => i,
            None => 0,
        };
        lemma_first_ctrl_in_range(parts, 0);
        assert(sel == parts[i]);
        let pieces = split(shortcut, Separator::Char('/'));
        lemma_nonempty_trimmed_from(pieces);
        let k = choose|k: int| 0 <= k < pieces.len() && parts[i] == trim(pieces[k]);
        lemma_split_pieces_lack(shortcut, '/');
        lemma_trim_keeps(pieces[k], '/');
        lemma_ctrl_spellings_keep(sel);
        lemma_split_single(v, '/');
        lemma_trim_solid(v);
        let one = seq![v];
        assert(split(v, Separator::Char('/')) == one);
        assert(one.drop_last() =~= Seq::<Seq<char>>::empty());
        assert(nonempty_trimmed(one.drop_last()) == Seq::<Seq<char>>::empty());
        assert(one.last() == v);
        assert(trim(v) == v);
        assert(nonempty_trimmed(one) == Seq::<Seq<char>>::empty().push(v));
        assert(alternatives(v) =~= one);
        assert(one[0] == v);
        assert(first_ctrl_from(one, 1) is None);
        assert(first_ctrl_from(one, 0) is None || first_ctrl_from(one, 0) == Some(0int));
        assert(selected_alternative(v) == v);
        lemma_ctrl_spellings_absent(v);
    }
}

proof fn lemma_first_ctrl_in_range(parts: Seq<Seq<char>>, i: int)
    requires
        0 <= i,
    ensures
        first_ctrl_from(parts, i) matches Some(j) ==> i <= j < parts.len(),
    decreases parts.len() - i,
{
    if i < parts.len() && !names_ctrl(parts[i]) {
        lemma_first_ctrl_in_range(parts, i + 1);
    }
}

} // verus!

verus! {

/// A key name of one ASCII letter or digit is the key of that character: its
/// code is the character's upper-case code, for every letter and every digit
/// '0' to '9'.
pub proof fn lemma_single_character_keys(c: char)
    requires
        ('0' <= c && c <= '9') || ('A' <= c && c <= 'Z') || ('a' <= c && c <= 'z'),
    ensures
        all_ascii(seq![c]),
        key_code(ascii_normalized(seq![c])) == Some(ascii_upper(c) as u16),
        ('0' <= c && c <= '9') || ('A' <= c && c <= 'Z') ==> key_code(seq![c]) == Some(c as u16),
{
    let s = seq![c];
    assert(s.drop_last() =~= Seq::<char>::empty());
    assert(s.last() == c);
    assert(!dropped_in_token(c));
    assert(ascii_normalized(s.drop_last()) == Seq::<char>::empty());
    assert(ascii_normalized(s) =~= seq![ascii_upper(c)]);
}

} // verus!

verus! {

/// `p` holds "ctrl" or "control" in any mix of ASCII upper and lower case.
pub open spec fn mentions_ctrl_any_case(p: Seq<char>) -> bool {
    contains(ascii_lowered(p), seq!['c', 't', 'r', 'l']) || contains(
        ascii_lowered(p),
        seq!['c', 'o', 'n', 't', 'r', 'o', 'l'],
    )
}

proof fn lemma_first_ctrl_at(parts: Seq<Seq<char>>, i: int, k: int)
    requires
        0 <= i <= k < parts.len(),
        mentions_ctrl_any_case(parts[k]),
        forall|j: int| i <= j < k ==> !mentions_ctrl_any_case(#[trigger] parts[j]),
    ensures
        first_ctrl_from(parts, i) == Some(k),
    decreases k - i,
{
    if i < k {
        assert(!mentions_ctrl_any_case(parts[i]));
        lemma_first_ctrl_at(parts, i + 1, k);
    }
}

proof fn lemma_first_ctrl_none(parts: Seq<Seq<char>>, i: int)
    requires
        0 <= i,
        forall|j: int| i <= j < parts.len() ==> !mentions_ctrl_any_case(#[trigger] parts[j]),
    ensures
        first_ctrl_from(parts, i) is None,
    decreases parts.len() - i,
{
    if i < parts.len() {
        assert(!mentions_ctrl_any_case(parts[i]));
        lemma_first_ctrl_none(parts, i + 1);
    }
}

/// The Windows form of a shortcut is built from the first '/'-separated
/// alternative that holds "ctrl" or "control" in any ASCII letter case; when
/// none does, from the first alternative.
pub proof fn lemma_windows_variant_picks_ctrl(shortcut: Seq<char>, k: int)
    requires
        0 <= k < alternatives(shortcut).len(),
        mentions_ctrl_any_case(alternatives(shortcut)[k])
            || forall|j: int|
            0 <= j < alternatives(shortcut).len() ==> !mentions_ctrl_any_case(
                #[trigger] alternatives(shortcut)[j],
            ),
        forall|j: int| 0 <= j < k ==> !mentions_ctrl_any_case(#[trigger] alternatives(shortcut)[j]),
    ensures
        mentions_ctrl_any_case(alternatives(shortcut)[k]) ==> windows_variant(shortcut)
            == ctrl_spellings(alternatives(shortcut)[k]),
        !mentions_ctrl_any_case(alternatives(shortcut)[k]) ==> windows_variant(shortcut)
            == ctrl_spellings(alternatives(shortcut)[0]),
{
    let parts = alternatives(shortcut);
    if mentions_ctrl_any_case(parts[k]) {
        lemma_first_ctrl_at(parts, 0, k);
    } else {
        lemma_first_ctrl_none(parts, 0);
    }
}

} // verus!

verus! {

proof fn lemma_space_pair_stays_out(s: Seq<char>, from: Seq<char>)
    requires
        from.len() > 0,
        !contains(s, seq![' ', ' ']),
    ensures
        !contains(replace(s, from, seq!['+']), seq![' ', ' ']),
{
    let p = seq![' ', ' '];
    let t = seq!['+'];
    assert forall|x: int| !occurs_at(t, p, x) by {}
    assert forall|k: int| 1 <= k < p.len() && k <= t.len() implies #[trigger] t.skip(t.len() - k)
        != p.take(k) by {
        assert(t.skip(t.len() - k)[0] == '+');
        assert(p.take(k)[0] == ' ');
    }
    assert forall|m: int| 1 <= m < p.len() implies !is_prefix(#[trigger] p.skip(m), t) && !is_prefix(
        t,
        p.skip(m),
    ) by {
        assert(p.skip(m)[0] == ' ');
        if is_prefix(p.skip(m), t) {
            assert(t.take(1)[0] == '+');
        }
        if is_prefix(t, p.skip(m)) {
            assert(p.skip(m).take(1)[0] == ' ');
        }
    }
    assert(apart(p, t));
    lemma_replace_leaves_no(s, from, p, t);
}

/// The spaces after a '+' are taken out of the chord sequence: when the
/// Windows form of a shortcut never has two spaces in a row, its chord
/// sequence holds no '+' followed by a space, so "A+ B" is the one chord "A+B".
pub proof fn lemma_no_space_after_plus(shortcut: Seq<char>)
    requires
        !contains(windows_variant(shortcut), seq![' ', ' ']),
    ensures
        !contains(shortcut_sequence(shortcut), seq!['+', ' ']),
{
    let w = windows_variant(shortcut);
    let s1 = replace(w, seq![' ', '+', ' '], seq!['+']);
    let s2 = replace(s1, seq![' ', '+'], seq!['+']);
    lemma_space_pair_stays_out(w, seq![' ', '+', ' ']);
    lemma_space_pair_stays_out(s1, seq![' ', '+']);
    lemma_plus_space_gone(s2);
}

} // verus!
