use mega_clipboard::text::{
    chars_of, find_char, find_text, is_white_space, push_decimal, starts_with, string_of, trim,
};

fn find(s: &str, pat: &str) -> Option<usize> {
    find_text(&chars_of(s), &chars_of(pat))
}

fn trimmed(s: &str) -> String {
    string_of(trim(&chars_of(s)))
}

#[test]
fn characters_and_back() {
    assert_eq!(chars_of("aбв🖼"), vec!['a', 'б', 'в', '🖼']);
    assert_eq!(string_of(&chars_of("aбв🖼")), "aбв🖼");
    assert_eq!(string_of(&[]), "");
}

#[test]
fn first_character() {
    let chars = chars_of("a[b[c");
    assert_eq!(find_char(&chars, '['), Some(1));
    assert_eq!(find_char(&chars, ']'), None);
}

#[test]
fn first_text() {
    assert_eq!(find("REG TEXT: a: b", ": "), Some(8));
    assert_eq!(find("abab", "ab"), Some(0));
    assert_eq!(find("abc", "cd"), None);
    assert_eq!(find("", "a"), None);
    assert_eq!(find("abc", ""), Some(0));
    assert_eq!(find("", ""), Some(0));
    assert_eq!(find("aab", "ab"), Some(1));
}

#[test]
fn prefixes() {
    assert!(starts_with(&chars_of("FAV TEXT"), &chars_of("FAV")));
    assert!(!starts_with(&chars_of("FA"), &chars_of("FAV")));
    assert!(!starts_with(&chars_of("REG TEXT"), &chars_of("FAV")));
}

#[test]
fn white_space_is_that_of_std() {
    for u in 0..=0x10FFFFu32 {
        if let Some(c) = char::from_u32(u) {
            assert_eq!(is_white_space(c), c.is_whitespace(), "{:x}", u);
        }
    }
}

#[test]
fn trimming_is_that_of_std() {
    for s in ["", " ", "a", " a ", "\t\u{3000}a b\r\n", "a\u{85}", "\u{200B}a"] {
        assert_eq!(trimmed(s), s.trim());
    }
}

#[test]
fn decimals() {
    for n in [0u32, 7, 10, 90, 2147483647, 4294967295] {
        let mut s = String::from("n=");
        push_decimal(&mut s, n);
        assert_eq!(s, format!("n={}", n));
    }
}
