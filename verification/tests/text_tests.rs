use floapalette::text::{
    blank, chars_of, contains_seq, dashes_stripped, is_whitespace, replace_all, same_chars,
    string_of, to_ascii_lower, to_ascii_lowered, trimmed, trimmed_pieces, Separator,
};

fn v(s: &str) -> Vec<char> {
    s.chars().collect()
}

fn pieces(s: &str, sep: Separator) -> Vec<String> {
    trimmed_pieces(&v(s), sep).iter().map(|p| p.iter().collect()).collect()
}

#[test]
fn whitespace_matches_std_for_every_char() {
    for u in 0u32..=0x10FFFF {
        if let Some(c) = char::from_u32(u) {
            assert_eq!(is_whitespace(c), c.is_whitespace(), "{:x}", u);
        }
    }
}

#[test]
fn chars_and_strings_round_trip() {
    let s = "aé字😀 b";
    assert_eq!(chars_of(s), s.chars().collect::<Vec<_>>());
    assert_eq!(string_of(&chars_of(s)), s);
    assert_eq!(string_of(&Vec::new()), "");
}

#[test]
fn trimming_matches_std() {
    for s in ["  a b  ", "\u{3000}x\u{a0}", "", "   ", "abc", "\t\nq\r"] {
        let t: String = trimmed(&v(s)).iter().collect();
        assert_eq!(t, s.trim());
        assert_eq!(blank(&v(s)), s.trim().is_empty());
    }
}

#[test]
fn dash_stripping_matches_std() {
    for s in ["--a-b--", "-", "", "abc", "-x"] {
        let t: String = dashes_stripped(&v(s)).iter().collect();
        assert_eq!(t, s.trim_matches('-'));
    }
}

#[test]
fn pieces_between_separators() {
    assert_eq!(pieces(" Ctrl+C / Cmd+C ", Separator::Char('/')), vec!["Ctrl+C", "Cmd+C"]);
    assert_eq!(pieces("a//b/ /", Separator::Char('/')), vec!["a", "b"]);
    assert_eq!(pieces("", Separator::Char('/')), Vec::<String>::new());
    assert_eq!(pieces("  g  g\tq ", Separator::Whitespace), vec!["g", "g", "q"]);
}

#[test]
fn replacing_matches_std() {
    let cases = [
        ("Cmd+Cmd", "Cmd", "Ctrl"),
        ("aaa", "aa", "b"),
        ("x", "long", "y"),
        ("Command+K", "Command", "Ctrl"),
        ("a + b + c", " + ", "+"),
    ];
    for (s, from, to) in cases {
        let r: String = replace_all(&v(s), &v(from), &v(to)).iter().collect();
        assert_eq!(r, s.replace(from, to));
    }
}

#[test]
fn containing_and_comparing() {
    assert!(contains_seq(&v("ctrl+c"), &v("ctrl")));
    assert!(!contains_seq(&v("ctr"), &v("ctrl")));
    assert!(contains_seq(&v("abc"), &v("")));
    assert!(same_chars(&v("abc"), &v("abc")));
    assert!(!same_chars(&v("abc"), &v("abd")));
    assert!(!same_chars(&v("ab"), &v("abc")));
}

#[test]
fn ascii_lowering() {
    assert_eq!(to_ascii_lower('Q'), 'q');
    assert_eq!(to_ascii_lower('q'), 'q');
    assert_eq!(to_ascii_lower('É'), 'É');
    let r: String = to_ascii_lowered(&v("CtRL-É")).iter().collect();
    assert_eq!(r, "ctrl-É");
}
