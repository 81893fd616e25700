use ejlv_cli::text::{
    char_is_whitespace, contains_text, same_text, split, starts_with, to_chars, to_text, trim,
};

fn text_chars(s: &str) -> Vec<char> {
    s.chars().collect()
}

fn text_of(s: &[char]) -> String {
    s.iter().collect()
}

#[test]
fn characters_go_to_and_fro() {
    for s in ["", "a", "Empty screen", "größe, 35%", "\u{1F600}\n\t"] {
        assert_eq!(to_chars(s), text_chars(s));
        assert_eq!(to_text(&text_chars(s)), s);
    }
}

#[test]
fn whitespace_is_what_the_standard_library_says() {
    let mut n: u32 = 0;
    while n <= 0x3100 {
        if let Some(c) = char::from_u32(n) {
            assert_eq!(char_is_whitespace(c), c.is_whitespace(), "for U+{:04X}", n);
        }
        n += 1;
    }
    assert!(!char_is_whitespace('\u{FEFF}'));
    assert!(!char_is_whitespace('\u{10FFFF}'));
}

#[test]
fn trimming_agrees_with_the_standard_library() {
    for s in [
        "", " ", "   ", "a", " a", "a ", "  a b  ", "\t\r\n x \u{a0}\u{3000}", "\u{2003}x\u{2028}",
        "x\u{200b}", "\u{85}y\u{1680}", " , 35% ,",
    ] {
        let chars = text_chars(s);
        assert_eq!(text_of(trim(&chars)), s.trim(), "for {:?}", s);
    }
}

#[test]
fn splitting_agrees_with_the_standard_library() {
    for s in ["", ",", "a", "a,b", "a,,b", ",a,", ",,", "Empty screen, 35%, 56, 4, 0, 4", "a\nb"] {
        let chars = text_chars(s);
        let pieces: Vec<String> = split(&chars, ',').iter().map(|p| text_of(p)).collect();
        let expected: Vec<String> = s.split(',').map(|p| p.to_string()).collect();
        assert_eq!(pieces, expected, "for {:?}", s);
    }
    let chars = text_chars("one\ntwo\n");
    let lines: Vec<String> = split(&chars, '\n').iter().map(|p| text_of(p)).collect();
    assert_eq!(lines, vec!["one", "two", ""]);
}

#[test]
fn beginnings_and_equality() {
    let line = text_chars("Benchmark Summary (9.4.0 dev)");
    assert!(starts_with(&line, &text_chars("Benchmark Summary")));
    assert!(starts_with(&line, &text_chars("")));
    assert!(starts_with(&line, &line));
    assert!(!starts_with(&line, &text_chars("benchmark")));
    assert!(!starts_with(&text_chars("Bench"), &text_chars("Benchmark")));
    assert!(same_text(&text_chars("fps"), &text_chars("fps")));
    assert!(!same_text(&text_chars("fps"), &text_chars("fpsx")));
    assert!(!same_text(&text_chars("fps"), &text_chars("fp")));
    assert!(!same_text(&text_chars("fps"), &text_chars("cpu")));
    assert!(same_text(&text_chars(""), &text_chars("")));
}

#[test]
fn parts_are_found() {
    for (text, part) in [
        ("", ""), ("abc", ""), ("abc", "a"), ("abc", "c"), ("abc", "bc"), ("abc", "abc"),
        ("abc", "abcd"), ("abc", "d"), ("aab", "ab"), ("abab", "bab"), ("", "a"),
        ("report\n<!-- sig -->", "<!-- sig -->"), ("report\n<!-- sig ->", "<!-- sig -->"),
    ] {
        assert_eq!(
            contains_text(&text_chars(text), &text_chars(part)),
            text.contains(part),
            "for {:?} in {:?}",
            part,
            text
        );
    }
}
