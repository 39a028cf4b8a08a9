use claude_history::format::{
    decimal_i64, decimal_u64, indent, lines, pad_left, pad_right, short_time, truncate,
};
use claude_history::text::{
    contains_char, is_blank, is_whitespace, join, replace, split_whitespace, starts_with, str_eq,
    string_between, chars_of, trim,
};

fn strings(parts: &[&str]) -> Vec<String> {
    parts.iter().map(|p| p.to_string()).collect()
}

const SAMPLES: [&str; 12] = [
    "",
    " ",
    "a",
    "  a b  ",
    "\u{a0}x\u{3000}y\u{2003}",
    "line one\nline two",
    "line one\r\nline two\r\n",
    "\n",
    "\n\nx\n",
    "tab\tand\u{b}more",
    "grün ≠ blau",
    "a\rb\r",
];

#[test]
fn white_space_is_that_of_std() {
    for code in 0..=0x10ffffu32 {
        if let Some(c) = char::from_u32(code) {
            assert_eq!(is_whitespace(c), c.is_whitespace(), "{:x}", code);
        }
    }
}

#[test]
fn trimming_is_that_of_std() {
    for s in SAMPLES {
        assert_eq!(trim(s), s.trim());
        assert_eq!(trim(&trim(s)), trim(s));
        assert_eq!(is_blank(s), s.trim().is_empty());
    }
}

#[test]
fn words_are_those_of_std() {
    for s in SAMPLES {
        let expected: Vec<&str> = s.split_whitespace().collect();
        assert_eq!(split_whitespace(s), expected);
        assert_eq!(split_whitespace(&trim(s)), expected);
    }
    assert_eq!(split_whitespace("  two  words "), vec!["two", "words"]);
}

#[test]
fn lines_are_those_of_std() {
    for s in SAMPLES {
        let expected: Vec<&str> = s.lines().collect();
        assert_eq!(lines(s), expected);
    }
}

#[test]
fn replacing_is_that_of_std() {
    for s in SAMPLES {
        assert_eq!(replace(s, 'a', "--"), s.replace('a', "--"));
        assert_eq!(replace(s, '\n', " "), s.replace('\n', " "));
        assert_eq!(contains_char(s, 'n'), s.contains('n'));
    }
}

#[test]
fn strings_are_compared_and_cut() {
    assert!(str_eq("grün", "grün"));
    assert!(!str_eq("grün", "grun"));
    assert!(!str_eq("a", "ab"));
    assert!(starts_with("NEAR(x)", "NEAR"));
    assert!(!starts_with("NEA", "NEAR"));
    assert!(starts_with("x", ""));
    assert_eq!(string_between(&chars_of("grün"), 1, 3), "rü");
}

#[test]
fn joining_puts_the_separator_between() {
    assert_eq!(join(&strings(&[]), ", "), "");
    assert_eq!(join(&strings(&["a"]), ", "), "a");
    assert_eq!(join(&strings(&["a", "", "c"]), ", "), "a, , c");
}

#[test]
fn truncating_counts_characters_and_marks_the_cut() {
    assert_eq!(truncate("short", 70), "short");
    assert_eq!(truncate("abc", 3), "abc");
    assert_eq!(truncate("abcd", 3), "abc…");
    assert_eq!(truncate("äöü\nß", 4), "äöü …");
    assert_eq!(truncate("one\ntwo", 70), "one two");
    assert_eq!(truncate("", 0), "");
    assert_eq!(truncate("x", 0), "…");
}

#[test]
fn truncating_again_changes_nothing() {
    for s in SAMPLES {
        for max in [0, 1, 3, 100] {
            let once = truncate(s, max);
            assert!(!once.contains('\n'));
            assert!(once.chars().count() <= max + 1);
            assert_eq!(truncate(&once, max), once);
        }
    }
}

#[test]
fn times_are_cut_to_the_minute() {
    assert_eq!(short_time("2025-06-01T12:34:56.789Z"), "2025-06-01 12:34");
    assert_eq!(short_time("2025-06-01"), "2025-06-01");
    assert_eq!(short_time(""), "");
}

#[test]
fn every_line_is_indented() {
    assert_eq!(indent("one\ntwo"), "    one\n    two");
    assert_eq!(indent("one\r\n\ntwo\n"), "    one\n    \n    two");
    assert_eq!(indent(""), "");
}

#[test]
fn columns_are_padded_by_characters() {
    assert_eq!(pad_left("7", 4), format!("{:>4}", "7"));
    assert_eq!(pad_left("12345", 4), "12345");
    assert_eq!(pad_right("[ü]", 6), format!("{:<6}", "[ü]"));
    assert_eq!(pad_right("[tool_result]", 11), "[tool_result]");
}

#[test]
fn numbers_are_written_in_decimal() {
    for i in [0, 1, -1, 9, 10, -10, 1234567890, i64::MAX, i64::MIN, i64::MIN + 1] {
        assert_eq!(decimal_i64(i), i.to_string());
    }
    for n in [0, 10, 99, 100, u64::MAX] {
        assert_eq!(decimal_u64(n), n.to_string());
    }
}
