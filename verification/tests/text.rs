use tmux_ai_titles::text::{
    is_whitespace, join_texts, push_decimal, same_text, split_fields, split_lines, split_words,
    trim_text,
};

const SAMPLES: [&str; 14] = [
    "",
    " ",
    "\n",
    "\r\n",
    "a",
    "a\n",
    "a\r\nb\rc\n\n",
    "\r",
    "x\r",
    "\n\nlast",
    "  stop  now\t\n",
    "one\u{3000}two\u{a0}\u{85}three",
    "\u{2003}wide\u{2028}",
    "no-break\u{200b}zero width",
];

#[test]
fn white_space_is_what_unicode_says() {
    for n in 0..=0x10ffff_u32 {
        if let Some(c) = char::from_u32(n) {
            assert_eq!(is_whitespace(c), c.is_whitespace(), "{n:x}");
        }
    }
}

#[test]
fn words_are_runs_without_white_space() {
    for s in SAMPLES {
        let expected: Vec<&str> = s.split_whitespace().collect();
        assert_eq!(split_words(s), expected, "{s:?}");
    }
}

#[test]
fn lines_end_at_line_breaks() {
    for s in SAMPLES {
        let expected: Vec<&str> = s.lines().collect();
        assert_eq!(split_lines(s), expected, "{s:?}");
    }
}

#[test]
fn trimming_takes_white_space_off_both_ends() {
    for s in SAMPLES {
        assert_eq!(trim_text(s), s.trim(), "{s:?}");
    }
}

#[test]
fn fields_stop_at_the_limit() {
    for s in ["", "a", "a\tb", "\t", "a\t\tb\tc\td", "\t\t\t\t\t"] {
        for limit in 1..6 {
            let expected: Vec<&str> = s.splitn(limit, '\t').collect();
            assert_eq!(split_fields(s, '\t', limit), expected, "{s:?} {limit}");
        }
    }
}

#[test]
fn joining_puts_the_separator_between() {
    let parts: Vec<String> = vec!["a".to_string(), String::new(), "b".to_string()];
    assert_eq!(join_texts(&parts, ", "), "a, , b");
    assert_eq!(join_texts(&vec!["a".to_string()], ", "), "a");
    assert_eq!(join_texts(&vec![], ", "), "");
}

#[test]
fn numbers_are_decimal() {
    for n in [0, 9, 10, 99, 100, 1024, u64::MAX] {
        let mut out = "#".to_string();
        push_decimal(&mut out, n);
        assert_eq!(out, format!("#{n}"));
    }
}

#[test]
fn texts_compare_by_characters() {
    assert!(same_text("stop", "stop"));
    assert!(!same_text("stop", "sto"));
    assert!(!same_text("stop", "stoq"));
    assert!(same_text("", ""));
}
