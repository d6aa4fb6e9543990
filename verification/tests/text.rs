use completions::text::{
    chars_of, contains_text, find, lines, push_count, push_decimal, same_text, stands_at,
    string_of, trim, trim_final_newlines, vec_of, white_space,
};

fn chars(s: &str) -> Vec<char> {
    s.chars().collect()
}

fn joined(parts: &[Vec<char>]) -> Vec<String> {
    parts.iter().map(|p| p.iter().collect()).collect()
}

const SAMPLES: [&str; 14] = [
    "",
    "a",
    "\n",
    "\r\n",
    "a\nb",
    "a\r\nb\n",
    "a\r\n\r\nb\r",
    "\n\n\n",
    "a\n\nb\n\n",
    "a\n\n\nb",
    "  x y\t",
    "\u{3000}中\u{a0}",
    " \u{200b} ",
    "event: ready\ndata: {}\n\n",
];

#[test]
fn white_space_is_the_unicode_property() {
    for n in 0..=0x10ffffu32 {
        if let Some(c) = char::from_u32(n) {
            assert_eq!(white_space(c), c.is_whitespace(), "{:?}", c);
        }
    }
}

#[test]
fn lines_are_those_of_std() {
    for s in SAMPLES {
        let expected: Vec<String> = s.lines().map(String::from).collect();
        assert_eq!(joined(&lines(&chars(s))), expected, "{:?}", s);
    }
}

#[test]
fn trim_is_that_of_std() {
    for s in SAMPLES {
        assert_eq!(string_of(trim(&chars(s))), s.trim(), "{:?}", s);
        assert_eq!(
            string_of(trim_final_newlines(&chars(s))),
            s.trim_end_matches('\n'),
            "{:?}",
            s
        );
    }
}

#[test]
fn finding_gives_the_first_place() {
    let s = chars("中ab中ab");
    assert_eq!(find(&s, &chars("ab"), 0), Some(1));
    assert_eq!(find(&s, &chars("ab"), 1), Some(1));
    assert_eq!(find(&s, &chars("ab"), 2), Some(4));
    assert_eq!(find(&s, &chars("ab"), 5), None);
    assert_eq!(find(&s, &chars("ba"), 0), None);
    assert_eq!(find(&s, &[], 6), Some(6));
    assert!(contains_text(&s, &chars("b中")));
    assert!(!contains_text(&s, &chars("b中b")));
    assert!(stands_at(&s, &chars("中ab"), 3));
    assert!(!stands_at(&s, &chars("中ab"), 4));
    assert!(!stands_at(&s, &chars("中"), 7));
}

#[test]
fn texts_are_compared_character_by_character() {
    assert!(same_text(&chars("中a"), &chars("中a")));
    assert!(!same_text(&chars("中a"), &chars("中b")));
    assert!(!same_text(&chars("中a"), &chars("中")));
}

#[test]
fn characters_and_strings_convert() {
    assert_eq!(chars_of("a中😀"), ['a', '中', '😀']);
    assert_eq!(string_of(&['a', '中', '😀']), "a中😀");
    assert_eq!(vec_of(&['a', 'b']), ['a', 'b']);
}

#[test]
fn decimals_are_those_of_std() {
    for n in [0, 7, 10, 99, 100, 163_840, -1, -10, i64::MAX, i64::MIN] {
        let mut out = String::from("n=");
        push_decimal(&mut out, n);
        assert_eq!(out, format!("n={}", n));
    }
    for n in [0, 9, 10, 12345, usize::MAX] {
        let mut out = String::new();
        push_count(&mut out, n);
        assert_eq!(out, n.to_string());
    }
}
