use git_ai::text::{
    char_is_whitespace, chars_equal, contains_text, decode_text, has_prefix, parse_u32_chars,
    split_lines, split_words, str_equal, string_of, to_chars, trimmed,
};

fn texts(items: &Vec<Vec<char>>) -> Vec<String> {
    items.iter().map(|v| v.iter().collect::<String>()).collect()
}

#[test]
fn chars_round_trip() {
    let chars = to_chars("héllo → wörld");
    assert_eq!(chars.len(), 13);
    assert_eq!(string_of(&chars), "héllo → wörld");
    assert!(chars_equal(&chars, &to_chars("héllo → wörld")));
    assert!(!chars_equal(&chars, &to_chars("héllo → world")));
    assert!(str_equal("", ""));
    assert!(!str_equal("a", "ab"));
}

#[test]
fn lines_end_at_line_feeds() {
    assert_eq!(texts(&split_lines(&to_chars("a\r\nb\n\nc\r"))), vec!["a", "b", "", "c\r"]);
    assert_eq!(texts(&split_lines(&to_chars("one\ntwo\n"))), vec!["one", "two"]);
    assert_eq!(texts(&split_lines(&to_chars("\n"))), vec![""]);
    assert_eq!(texts(&split_lines(&to_chars("\r\n\r\n"))), vec!["", ""]);
    assert_eq!(texts(&split_lines(&to_chars(""))), Vec::<String>::new());
    assert_eq!(texts(&split_lines(&to_chars("no newline"))), vec!["no newline"]);
}

#[test]
fn lines_match_the_standard_library() {
    for sample in ["", "a", "a\n", "a\n\nb", "\r", "\r\n", "a\rb\r\nc\n\r", "x\r\r\ny", "\n\n\n"] {
        let expected: Vec<String> = sample.lines().map(|l| l.to_string()).collect();
        assert_eq!(texts(&split_lines(&to_chars(sample))), expected, "{:?}", sample);
    }
}

#[test]
fn words_are_runs_without_whitespace() {
    assert_eq!(
        texts(&split_words(&to_chars("  @@ -1,2\t+3 @@  "))),
        vec!["@@", "-1,2", "+3", "@@"]
    );
    assert_eq!(texts(&split_words(&to_chars("a\u{3000}b\u{a0}c\u{2003}d"))), vec!["a", "b", "c", "d"]);
    assert_eq!(texts(&split_words(&to_chars(" \n\t "))), Vec::<String>::new());
    for sample in ["", "x", " x y ", "a\u{85}b", "a\u{200b}b", "\u{1680}q\u{2028}r\u{2029}s\u{202f}t\u{205f}u"] {
        let expected: Vec<String> = sample.split_whitespace().map(|l| l.to_string()).collect();
        assert_eq!(texts(&split_words(&to_chars(sample))), expected, "{:?}", sample);
    }
}

#[test]
fn numbers_are_read_as_rust_reads_them() {
    assert_eq!(parse_u32_chars(&to_chars("0")), Some(0));
    assert_eq!(parse_u32_chars(&to_chars("+15")), Some(15));
    assert_eq!(parse_u32_chars(&to_chars("007")), Some(7));
    assert_eq!(parse_u32_chars(&to_chars("4294967295")), Some(u32::MAX));
    assert_eq!(parse_u32_chars(&to_chars("00000000004294967295")), Some(u32::MAX));
    assert_eq!(parse_u32_chars(&to_chars("4294967296")), None);
    assert_eq!(parse_u32_chars(&to_chars("99999999999999999999999")), None);
    assert_eq!(parse_u32_chars(&to_chars("")), None);
    assert_eq!(parse_u32_chars(&to_chars("+")), None);
    assert_eq!(parse_u32_chars(&to_chars("-1")), None);
    assert_eq!(parse_u32_chars(&to_chars("++1")), None);
    assert_eq!(parse_u32_chars(&to_chars("1a")), None);
    assert_eq!(parse_u32_chars(&to_chars(" 1")), None);
    assert_eq!(parse_u32_chars(&to_chars("\u{661}")), None);
    for sample in ["12", "+0", "-0", "4294967295", "4294967296", "1_0", "0x10", "+", ""] {
        assert_eq!(parse_u32_chars(&to_chars(sample)), sample.parse::<u32>().ok(), "{:?}", sample);
    }
}

#[test]
fn trimming_drops_whitespace_at_both_ends() {
    assert_eq!(string_of(&trimmed(&to_chars(" \t abc def \n"))), "abc def");
    assert_eq!(string_of(&trimmed(&to_chars("\u{3000}x\u{a0}"))), "x");
    assert_eq!(string_of(&trimmed(&to_chars("   "))), "");
    assert_eq!(string_of(&trimmed(&to_chars(""))), "");
    assert_eq!(string_of(&trimmed(&to_chars("x"))), "x");
}

#[test]
fn bytes_are_decoded_only_when_well_formed() {
    assert_eq!(decode_text("grüße".as_bytes()), Some("grüße".to_string()));
    assert_eq!(decode_text(b""), Some(String::new()));
    assert_eq!(decode_text(&[0x66, 0xff, 0x6f]), None);
    assert_eq!(decode_text(&[0xc3]), None);
}

#[test]
fn whitespace_is_what_unicode_says() {
    for code in 0..=0x10ffffu32 {
        if let Some(c) = char::from_u32(code) {
            assert_eq!(char_is_whitespace(c), c.is_whitespace(), "U+{:04X}", code);
        }
    }
}

#[test]
fn trimming_matches_the_standard_library() {
    for sample in ["", " ", "a", " a", "a ", "\u{2003}a b\u{85}", "\n\ta\r\n", "\u{200b}x\u{200b}", "  \u{3000}  "] {
        assert_eq!(string_of(&trimmed(&to_chars(sample))), sample.trim(), "{:?}", sample);
    }
}

#[test]
fn prefixes_and_members_are_found() {
    assert!(has_prefix(&to_chars("+++ b/file"), "+++ b/"));
    assert!(has_prefix(&to_chars("abc"), ""));
    assert!(has_prefix(&to_chars("abc"), "abc"));
    assert!(!has_prefix(&to_chars("ab"), "abc"));
    assert!(!has_prefix(&to_chars("xbc"), "abc"));
    assert!(contains_text(&["a".to_string(), "bc".to_string()], "bc"));
    assert!(!contains_text(&["a".to_string(), "bc".to_string()], "b"));
}
