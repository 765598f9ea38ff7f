use anitrack::text::{
    chars_of, first_line, is_whitespace, nth_word, replace_chars, same_text, string_of,
    trim_start, words,
};

fn v(s: &str) -> Vec<char> {
    s.chars().collect()
}

#[test]
fn whitespace_agrees_with_std_on_every_char() {
    for code in 0u32..=0x10FFFF {
        if let Some(c) = char::from_u32(code) {
            assert_eq!(is_whitespace(c), c.is_whitespace(), "code {:#x}", code);
        }
    }
}

#[test]
fn chars_and_strings_round_trip() {
    for s in ["", "abc", "日本語 text", "\r\n\t"] {
        let cs = chars_of(s);
        assert_eq!(cs, v(s));
        assert_eq!(string_of(&cs), s);
    }
}

#[test]
fn first_line_agrees_with_lines() {
    for s in [
        "", "\n", "abc", "abc\n", "abc\r\ndef", "abc\r", "\r\n", "a\rb\nc", "line one\nline two",
        "GET / HTTP/1.1\r\nHost: x\r\n\r\n",
    ] {
        let expected = s.lines().next().map(v);
        assert_eq!(first_line(&v(s)), expected, "input {:?}", s);
    }
}

#[test]
fn words_agree_with_split_whitespace() {
    for s in ["", "   ", "a", " a  b\tc\u{3000}d\u{85}e ", "GET /path HTTP/1.1", "x\u{a0}y"] {
        let expected: Vec<Vec<char>> = s.split_whitespace().map(v).collect();
        assert_eq!(words(&v(s)), expected, "input {:?}", s);
        for n in 0..4 {
            assert_eq!(nth_word(&v(s), n), s.split_whitespace().nth(n).map(v));
        }
    }
}

#[test]
fn trim_start_agrees_with_std() {
    for s in ["", "/", "///a/b", "a/", "/?code=1"] {
        assert_eq!(trim_start(&v(s), '/'), v(s.trim_start_matches('/')));
    }
}

#[test]
fn replace_agrees_with_std() {
    let cases = [
        ("aaa", "aa", "b"),
        ("abcabc", "bc", "XYZ"),
        ("{{title}} - {{title}}", "{{title}}", "T"),
        ("no slot here", "{{title}}", "T"),
        ("ab", "abc", "z"),
        ("", "x", "y"),
        ("xx", "x", "xx"),
    ];
    for (s, p, r) in cases {
        assert_eq!(string_of(&replace_chars(&v(s), &v(p), &v(r))), s.replace(p, r));
    }
}

#[test]
fn replacing_an_absent_pattern_changes_nothing() {
    let s = "<title>page</title>";
    assert_eq!(string_of(&replace_chars(&v(s), &v("{{title}}"), &v("X"))), s);
}

#[test]
fn trimmed_text_does_not_start_with_the_char() {
    let t = trim_start(&v("////x/"), '/');
    assert_eq!(t, v("x/"));
    assert_ne!(t.first(), Some(&'/'));
}

#[test]
fn same_text_compares_characters() {
    assert!(same_text("mkv", "mkv"));
    assert!(!same_text("mkv", "mk"));
    assert!(!same_text("mkv", "mp4"));
    assert!(same_text("", ""));
}
