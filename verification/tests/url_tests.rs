use claude_history::format::decimal_i64;
use claude_history::url::{
    get_i64, get_str, hex, parse_i64, parse_query, split, split_url, urldecode,
};

#[test]
fn target_is_split_at_the_first_question_mark() {
    assert_eq!(split_url("/api/search?q=a?b"), ("/api/search".to_string(), "q=a?b"));
    assert_eq!(split_url("/"), ("/".to_string(), ""));
    assert_eq!(split_url("?"), ("".to_string(), ""));
    assert_eq!(split_url("/grün?ö"), ("/grün".to_string(), "ö"));
}

#[test]
fn path_and_query_make_up_the_target() {
    for url in ["/a?b=c", "/a", "?", "/ä?ö?ü", ""] {
        let (path, query) = split_url(url);
        assert!(!path.contains('?'));
        if url.contains('?') {
            assert_eq!(format!("{}?{}", path, query), url);
        } else {
            assert_eq!(path, url);
            assert_eq!(query, "");
        }
    }
}

#[test]
fn hexadecimal_digits_have_values() {
    for b in 0..=255u8 {
        let expected = (b as char).to_digit(16).map(|d| d as u8);
        assert_eq!(hex(b), expected);
    }
}

#[test]
fn escapes_are_decoded() {
    assert_eq!(urldecode("a+b%20c"), "a b c");
    assert_eq!(urldecode("%41%6a%6A"), "Ajj");
    assert_eq!(urldecode("gr%C3%BCn"), "grün");
    assert_eq!(urldecode("vector.yaml"), "vector.yaml");
    assert_eq!(urldecode("%2B%25"), "+%");
}

#[test]
fn broken_escapes_stay() {
    assert_eq!(urldecode("%"), "%");
    assert_eq!(urldecode("100%"), "100%");
    assert_eq!(urldecode("%4"), "%4");
    assert_eq!(urldecode("%zz"), "%zz");
    assert_eq!(urldecode("%4%41"), "%4A");
}

#[test]
fn bytes_that_are_no_text_are_replaced() {
    assert_eq!(urldecode("a%FFb"), "a\u{fffd}b");
    assert_eq!(urldecode("%C3"), String::from_utf8_lossy(&[0xc3]));
    assert_eq!(urldecode("%E2%82x"), String::from_utf8_lossy(&[0xe2, 0x82, b'x']));
}

#[test]
fn escaped_text_is_decoded_back() {
    for s in ["", "a b+c%d", "grün & ≠", "\u{1f600}\n"] {
        let escaped: String = s.bytes().map(|b| format!("%{:02X}", b)).collect();
        assert_eq!(urldecode(&escaped), s);
    }
}

#[test]
fn text_is_split_into_pieces() {
    assert_eq!(split("a&b&&c", '&'), vec!["a", "b", "", "c"]);
    assert_eq!(split("", '&'), vec![""]);
    assert_eq!(split("&", '&'), vec!["", ""]);
}

#[test]
fn query_gives_parameters() {
    let p = parse_query("q=vector.yaml&type=tool_use&&flag&limit=20");
    assert_eq!(get_str(&p, "q"), Some("vector.yaml"));
    assert_eq!(get_str(&p, "type"), Some("tool_use"));
    assert_eq!(get_str(&p, "flag"), None);
    assert!(p.contains_key("flag"));
    assert_eq!(get_str(&p, "missing"), None);
    assert_eq!(get_i64(&p, "limit", 50), 20);
    assert_eq!(p.len(), 4);
}

#[test]
fn last_pair_with_a_key_counts() {
    let p = parse_query("q=a&q=b&x=1&q=c%26d");
    assert_eq!(get_str(&p, "q"), Some("c&d"));
    assert_eq!(get_str(&p, "x"), Some("1"));
}

#[test]
fn keys_are_decoded_and_values_keep_their_equals_signs() {
    let p = parse_query("a%20b=c=d&=e");
    assert_eq!(get_str(&p, "a b"), Some("c=d"));
    assert_eq!(get_str(&p, ""), Some("e"));
}

#[test]
fn empty_query_gives_nothing() {
    assert!(parse_query("").is_empty());
    assert!(parse_query("&&").is_empty());
}

#[test]
fn integers_are_read_as_std_reads_them() {
    for s in [
        "", "+", "-", "0", "-0", "+7", "007", "12x", " 1", "1 ", "--1", "9223372036854775807",
        "9223372036854775808", "-9223372036854775808", "-9223372036854775809",
        "99999999999999999999999999", "18446744073709551616", "18446744073709551617", "٣", "1_000",
        "1152921504606846976", "92233720368547758070", "922337203685477580x", "99999999999999999999x",
    ] {
        assert_eq!(parse_i64(s), s.parse::<i64>().ok(), "{}", s);
    }
}

#[test]
fn integers_are_read_back() {
    for i in [0, 1, -1, 42, -4096, i64::MAX, i64::MIN] {
        assert_eq!(parse_i64(&decimal_i64(i)), Some(i));
    }
}

#[test]
fn default_stands_in_for_a_number() {
    let p = parse_query("limit=many&big=99999999999999999999");
    assert_eq!(get_i64(&p, "limit", 100), 100);
    assert_eq!(get_i64(&p, "big", 100), 100);
    assert_eq!(get_i64(&p, "none", -3), -3);
}
