use whis::text::{
    char_is_whitespace, chars_of, fold_char, join_from, push_decimal, push_text, split_chars,
    string_of, trim_chars, words_match,
};

fn chars(s: &str) -> Vec<char> {
    s.chars().collect()
}

fn text(v: &[char]) -> String {
    v.iter().collect()
}

#[test]
fn whitespace_agrees_with_the_standard_library_on_every_char() {
    let mut code: u32 = 0;
    while code <= 0x10FFFF {
        if let Some(c) = char::from_u32(code) {
            assert_eq!(char_is_whitespace(c), c.is_whitespace(), "code point {code:#x}");
        }
        code += 1;
    }
}

#[test]
fn fold_char_lowers_only_ascii_capitals() {
    assert_eq!(fold_char('A'), 'a' as u32);
    assert_eq!(fold_char('Z'), 'z' as u32);
    assert_eq!(fold_char('a'), 'a' as u32);
    assert_eq!(fold_char('@'), '@' as u32);
    assert_eq!(fold_char('['), '[' as u32);
    assert_eq!(fold_char('É'), 'É' as u32);
}

#[test]
fn words_match_agrees_with_eq_ignore_ascii_case() {
    let samples = ["Hello", "hello", "HELLO", "hellO!", "héllo", "HÉLLO", "", "a", "A", "ab"];
    for a in samples {
        for b in samples {
            assert_eq!(words_match(&chars(a), &chars(b)), a.eq_ignore_ascii_case(b), "{a} / {b}");
        }
    }
}

#[test]
fn chars_and_string_round_trip() {
    let s = "naïve  text\twith\u{3000}spaces";
    assert_eq!(chars_of(s), chars(s));
    assert_eq!(string_of(&chars(s)), s);
    assert_eq!(string_of(&Vec::new()), "");
}

#[test]
fn trim_chars_agrees_with_str_trim() {
    for s in ["", " ", "  a  ", "a", "\n\t a b \u{a0}", "a  b", "\u{2003}x\u{2003}", "   "] {
        assert_eq!(text(&trim_chars(&chars(s))), s.trim(), "{s:?}");
    }
}

#[test]
fn split_chars_agrees_with_split_whitespace() {
    for s in ["", " ", "one", " one ", "one two", "  one\ttwo\n\nthree ", "a\u{3000}b", "x  y"] {
        let got: Vec<String> = split_chars(&chars(s)).iter().map(|w| text(w)).collect();
        let want: Vec<String> = s.split_whitespace().map(|w| w.to_string()).collect();
        assert_eq!(got, want, "{s:?}");
    }
}

#[test]
fn join_from_skips_leading_parts() {
    let parts = vec![chars("a"), chars("bc"), chars("d")];
    assert_eq!(text(&join_from(&parts, 0, ' ')), "a bc d");
    assert_eq!(text(&join_from(&parts, 1, ' ')), "bc d");
    assert_eq!(text(&join_from(&parts, 2, '\n')), "d");
    assert_eq!(text(&join_from(&parts, 3, ' ')), "");
    assert_eq!(text(&join_from(&parts, 0, '\n')), "a\nbc\nd");
}

#[test]
fn push_decimal_writes_decimal_digits() {
    for n in [0u128, 7, 9, 10, 42, 99, 100, 1234567890, u64::MAX as u128, u128::MAX] {
        let mut out = chars("n=");
        push_decimal(&mut out, n);
        assert_eq!(text(&out), format!("n={n}"));
    }
}

#[test]
fn push_text_appends() {
    let mut out = chars("ab");
    push_text(&mut out, "çd");
    assert_eq!(text(&out), "abçd");
}
