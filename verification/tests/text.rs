use mcgill_wtf::number::decimal_text;
use mcgill_wtf::text::{join_range, split_str, trim_str, white_space};

#[test]
fn trim_matches_std() {
    for s in ["", "  ", " a b ", "\u{3000}x\u{a0}", "\n\tword\r\n", "x"] {
        assert_eq!(trim_str(s), s.trim());
    }
    assert!(white_space('\u{2028}'));
    assert!(!white_space('\u{200b}'));
}

#[test]
fn split_matches_std() {
    for (s, sep) in [
        ("a b  c", " "),
        ("", " "),
        ("Fall 2022, Winter 2023", ", "),
        (", , ", ", "),
        ("aaa", "aa"),
        ("x(y(z", "("),
    ] {
        let expected: Vec<&str> = s.split(sep).collect();
        assert_eq!(split_str(s, sep), expected);
    }
}

#[test]
fn join_matches_std() {
    let parts = vec!["a", "", "b c"];
    assert_eq!(join_range(&parts, 0, 3, "\\"), parts.join("\\"));
    assert_eq!(join_range(&parts, 1, 2, " "), "");
    assert_eq!(join_range(&parts, 0, 0, " "), "");
    assert_eq!(join_range(&parts, 2, 3, "-"), "b c");
}

#[test]
fn join_undoes_split() {
    for s in ["a b  c ", "", " "] {
        let parts = split_str(s, " ");
        assert_eq!(join_range(&parts, 0, parts.len(), " "), s);
    }
}

#[test]
fn decimal_matches_display() {
    for n in [0u64, 7, 10, 99, 7500, 6379, u64::MAX] {
        assert_eq!(decimal_text(n), n.to_string());
    }
}
