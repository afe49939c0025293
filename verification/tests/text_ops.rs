use dev_space_cleaner::patterns::should_ignore;
use dev_space_cleaner::size::size_token;
use dev_space_cleaner::text::{
    chars_of, contains_chars, copy_range, eq_ignore_case_ascii, ends_with_at, first_word_of, lines_of,
    parse_u64_chars, prefix_before_char, remove_char, starts_with, trim, trim_end_matches_len,
};

fn cs(s: &str) -> Vec<char> {
    s.chars().collect()
}

#[test]
fn trim_matches_std_trim() {
    for s in [
        "",
        "   ",
        "abc",
        "  abc  ",
        "\t\na b\r\n",
        "\u{3000}x\u{00A0}",
        "\u{2009}mid dle\u{2029}",
    ] {
        assert_eq!(trim(s), s.trim());
    }
}

#[test]
fn whitespace_follows_unicode() {
    assert_eq!(trim("\u{3000} x \u{00A0}"), "x");
    assert_eq!(trim("\u{200B}x"), "\u{200B}x");
    assert_eq!(first_word_of(&cs("a\u{2003}b")), cs("a"));
}

#[test]
fn case_mapping_follows_std() {
    assert!(should_ignore("C:\\Program Files\\ÄÖ", &["c:\\program files\\äö".to_string()]));
    assert_eq!(size_token("straße"), "STRASSE");
    assert_eq!(size_token("5kb"), "5KB");
}

#[test]
fn chars_and_ranges() {
    let v = chars_of("héllo");
    assert_eq!(v, vec!['h', 'é', 'l', 'l', 'o']);
    assert_eq!(copy_range(&v, 1, 3), vec!['é', 'l']);
    assert!(copy_range(&v, 2, 2).is_empty());
}

#[test]
fn first_word_skips_leading_whitespace() {
    assert_eq!(first_word_of(&cs("  12 MB")), cs("12"));
    assert_eq!(first_word_of(&cs("word")), cs("word"));
    assert!(first_word_of(&cs("   ")).is_empty());
    assert!(first_word_of(&cs("")).is_empty());
}

#[test]
fn prefix_before_char_cuts_at_first_occurrence() {
    assert_eq!(prefix_before_char(&cs("1.5GB (20%)"), '('), cs("1.5GB "));
    assert_eq!(prefix_before_char(&cs("no paren"), '('), cs("no paren"));
    assert!(prefix_before_char(&cs("(x)"), '(').is_empty());
}

#[test]
fn remove_char_drops_every_comma() {
    assert_eq!(remove_char(&cs("1,234,567"), ','), cs("1234567"));
    assert_eq!(remove_char(&cs(",,"), ','), Vec::<char>::new());
}

#[test]
fn suffix_and_prefix_tests() {
    let t = cs("12KB");
    assert!(ends_with_at(&t, 4, &cs("KB")));
    assert!(ends_with_at(&t, 3, &cs("K")));
    assert!(!ends_with_at(&t, 4, &cs("MB")));
    assert!(!ends_with_at(&t, 1, &cs("KB")));
    assert!(starts_with(&cs("docker_volumes"), &cs("docker_")));
    assert!(!starts_with(&cs("dock"), &cs("docker_")));
    assert!(starts_with(&cs("x"), &cs("")));
}

#[test]
fn trim_end_matches_removes_every_repetition() {
    assert_eq!(trim_end_matches_len(&cs("5BBB"), &cs("B")), 1);
    assert_eq!(trim_end_matches_len(&cs("5KBKB"), &cs("KB")), 1);
    assert_eq!(trim_end_matches_len(&cs("KB"), &cs("KB")), 0);
    assert_eq!(trim_end_matches_len(&cs("5"), &cs("B")), 1);
    for (s, p) in [("5BBB", "B"), ("1KBKB", "KB"), ("GB", "GB"), ("12", "B")] {
        assert_eq!(trim_end_matches_len(&cs(s), &cs(p)), s.trim_end_matches(p).chars().count());
    }
}

#[test]
fn substring_search_matches_std_contains() {
    for (s, p) in [
        ("/users/me/library/caches", "/library/"),
        ("/home/me", "/tmp/"),
        ("abc", ""),
        ("", "a"),
        ("aaab", "aab"),
        ("abc", "abcd"),
    ] {
        assert_eq!(contains_chars(&cs(s), &cs(p)), s.contains(p), "{s} / {p}");
    }
}

#[test]
fn ascii_case_insensitive_equality() {
    assert!(eq_ignore_case_ascii(&cs("Node_Modules"), &cs("node_modules")));
    assert!(eq_ignore_case_ascii(&cs("NODE_MODULES"), &cs("node_modules")));
    assert!(!eq_ignore_case_ascii(&cs("node_module"), &cs("node_modules")));
    assert!(!eq_ignore_case_ascii(&cs("nöde_modules"), &cs("node_modules")));
    assert_eq!(
        eq_ignore_case_ascii(&cs("ÄBC"), &cs("äbc")),
        "ÄBC".eq_ignore_ascii_case("äbc")
    );
}

#[test]
fn u64_parsing_matches_std() {
    for s in [
        "0",
        "123",
        "+7",
        "+",
        "-5",
        "",
        "007",
        "12a",
        " 1",
        "18446744073709551615",
        "18446744073709551616",
        "99999999999999999999999",
        "1.5",
        "٣",
    ] {
        let expected = s.parse::<u64>().ok();
        assert_eq!(parse_u64_chars(&cs(s)), expected, "{s:?}");
    }
}

#[test]
fn lines_match_std_lines() {
    for text in ["", "a", "a\n", "a\r\nb", "\n", "\n\n", "x\n\ny", "one\r\ntwo\r\n", " a \n b "] {
        let expected: Vec<String> = text.lines().map(|l| l.to_string()).collect();
        assert_eq!(lines_of(text), expected, "{:?}", text);
    }
    assert_eq!(lines_of("a\r\nb\n"), vec!["a".to_string(), "b".to_string()]);
    let with_bare_cr: Vec<String> = ["foo", "bar", "", "baz\r"].iter().map(|s| s.to_string()).collect();
    assert_eq!(lines_of("foo\r\nbar\n\nbaz\r"), with_bare_cr);
}
