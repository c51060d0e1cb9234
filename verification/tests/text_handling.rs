use boobytrap::text::{
    contains_str, contains_string, eq_ignore_ascii_case, lines_of, nonempty_pieces, parse_u64, pieces,
    remove_char, tokens, Sep,
};

#[test]
fn pieces_keep_empty_ones() {
    assert_eq!(pieces("a::b", Sep::Char(':')), vec!["a", "", "b"]);
    assert_eq!(pieces("", Sep::Char(':')), vec![""]);
    assert_eq!(pieces("/usr/bin:/bin:", Sep::Char(':')), vec!["/usr/bin", "/bin", ""]);
}

#[test]
fn nonempty_lines_drop_blank_ones() {
    assert_eq!(nonempty_pieces("S: one\n\nS: two\n", Sep::Char('\n')), vec!["S: one", "S: two"]);
    assert!(nonempty_pieces("", Sep::Char('\n')).is_empty());
}

#[test]
fn lines_follow_str_lines() {
    for text in ["a\r\nb\n", "a\n\r", "", "\n", "x\n\ny", "one", "a\r\n\r\n"] {
        let expected: Vec<String> = text.lines().map(|l| l.to_string()).collect();
        assert_eq!(lines_of(text), expected, "{:?}", text);
    }
}

#[test]
fn tokens_follow_split_ascii_whitespace() {
    for text in ["  luks-1  (253, 0)", "", "\t a \r\n b  ", "/dev/mapper/x /mnt ext4 rw 0 0"] {
        let expected: Vec<String> = text.split_ascii_whitespace().map(|l| l.to_string()).collect();
        assert_eq!(tokens(text), expected, "{:?}", text);
    }
}

#[test]
fn substring_search() {
    assert!(contains_str("/dev/mapper/luks-1 /mnt", "luks-1"));
    assert!(contains_str("abc", ""));
    assert!(!contains_str("ab", "abc"));
    assert!(!contains_str("luks-2", "luks-1"));
}

#[test]
fn ascii_case_folding() {
    assert!(eq_ignore_ascii_case("TRUE", "true"));
    assert!(eq_ignore_ascii_case("True", "tRUE"));
    assert!(!eq_ignore_ascii_case("true ", "true"));
    assert!(!eq_ignore_ascii_case("tru", "true"));
    assert!(eq_ignore_ascii_case("Ärger", "Ärger"));
    assert!(!eq_ignore_ascii_case("Ä", "ä"));
}

#[test]
fn decimal_parsing_follows_str_parse() {
    for text in ["5", "+5", "", "+", "-0", " 5", "007", "18446744073709551615", "18446744073709551616", "99999999999999999999x", "1_0"] {
        assert_eq!(parse_u64(text), text.parse::<u64>().ok(), "{:?}", text);
    }
}

#[test]
fn dollar_signs_removed() {
    assert_eq!(remove_char("$PATH", '$'), "PATH");
    assert_eq!(remove_char("a$b$", '$'), "ab");
    assert_eq!(remove_char("plain", '$'), "plain");
}

#[test]
fn string_membership() {
    let v = vec!["/etc/mtab".to_string(), "/etc/cups".to_string()];
    assert!(contains_string(&v, "/etc/cups"));
    assert!(!contains_string(&v, "/etc"));
}
