use hrns::glob::{glob_lookup, glob_matches, literal_bytes, pattern_wildcards, prefix_len};
use hrns::table::Table;

fn gates(list: &[(&str, bool)]) -> Table<bool> {
    let mut t = Table::new();
    for (k, v) in list {
        t.insert(k.to_string(), *v);
    }
    t
}

#[test]
fn test_glob_exact_match() {
    assert!(glob_matches("apt update", "apt update", true).is_some());
    assert!(glob_matches("apt update", "apt upgrade", true).is_none());
}

#[test]
fn test_glob_star_path_mode() {
    assert!(glob_matches("/etc/*", "/etc/passwd", true).is_some());
    // `*` should NOT cross `/` in path mode
    assert!(glob_matches("/etc/*", "/etc/ssh/config", true).is_none());
}

#[test]
fn test_glob_star_command_mode() {
    // `*` crosses `/` in command mode
    assert!(glob_matches("ls *", "ls -la /home/user", false).is_some());
    assert!(glob_matches("*", "anything/with/slashes", false).is_some());
}

#[test]
fn test_glob_doublestar_matches_across_slashes() {
    assert!(glob_matches("/home/**", "/home/user/photos/pic.jpg", true).is_some());
    assert!(glob_matches("/home/**/pic.jpg", "/home/user/photos/pic.jpg", true).is_some());
    assert!(glob_matches("**/*.jpg", "/home/user/pic.jpg", true).is_some());
}

#[test]
fn test_glob_question_mark_path_mode() {
    assert!(glob_matches("file?.txt", "file1.txt", true).is_some());
    assert!(glob_matches("file?.txt", "file12.txt", true).is_none());
    // `?` should not match `/` in path mode
    assert!(glob_matches("a?b", "a/b", true).is_none());
}

#[test]
fn test_glob_question_mark_command_mode() {
    // `?` matches `/` in command mode
    assert!(glob_matches("a?b", "a/b", false).is_some());
}

#[test]
fn test_glob_bare_star_path_mode() {
    assert!(glob_matches("*", "anything", true).is_some());
    // bare `*` does not cross slashes in path mode
    assert!(glob_matches("*", "a/b", true).is_none());
    // but `**` does
    assert!(glob_matches("**", "a/b", true).is_some());
}

#[test]
fn test_glob_specificity_ordering() {
    let exact = glob_matches("/etc/passwd", "/etc/passwd", true).unwrap();
    let glob = glob_matches("/etc/*", "/etc/passwd", true).unwrap();
    assert!(exact > glob);
}

#[test]
fn specificity_counts_the_literal_bytes() {
    assert_eq!(glob_matches("/etc/*", "/etc/passwd", true), Some(5));
    assert_eq!(glob_matches("**", "anything", true), Some(0));
    assert_eq!(glob_matches("a?c*", "abcdef", false), Some(2));
    assert_eq!(glob_matches("", "", false), Some(0));
    // one character of two bytes
    assert_eq!(glob_matches("\u{e9}*", "\u{e9}t\u{e9}", false), Some(2));
}

#[test]
fn a_question_mark_takes_one_character() {
    assert_eq!(glob_matches("?", "\u{e9}", true), Some(0));
    assert_eq!(glob_matches("??", "\u{e9}", true), None);
}

#[test]
fn three_stars_are_as_good_as_two() {
    assert!(glob_matches("/a/***", "/a/b/c", true).is_some());
    assert!(glob_matches("a**b*c", "a/x/b-c", true).is_some());
    assert!(glob_matches("a**b*c", "a/x/b-/c", true).is_none());
}

#[test]
fn the_empty_input_is_matched_by_stars_alone() {
    assert_eq!(glob_matches("*", "", false), Some(0));
    assert_eq!(glob_matches("?", "", false), None);
    assert_eq!(glob_matches("a", "", false), None);
}

#[test]
fn wildcards_are_stars_and_question_marks() {
    assert_eq!(pattern_wildcards("a*b?**"), 4);
    assert_eq!(pattern_wildcards("plain"), 0);
    assert_eq!(literal_bytes("a*\u{e9}?"), 3);
    assert_eq!(prefix_len("ab*c"), 2);
    assert_eq!(prefix_len("?ab"), 0);
    assert_eq!(prefix_len("\u{e9}b"), 2);
}

#[test]
fn lookup_takes_the_most_specific_pattern() {
    let t = gates(&[("*", true), ("datetime_*", false), ("datetime_now", true)]);
    assert!(glob_lookup(&t, "datetime_now", false));
    assert!(!glob_lookup(&t, "datetime_then", true));
    assert!(glob_lookup(&t, "read", false));
    let none = gates(&[("x", false)]);
    assert!(glob_lookup(&none, "y", true));
}

#[test]
fn the_longer_literal_prefix_wins() {
    let t = gates(&[("a*", true), ("*bcd", false)]);
    assert!(glob_lookup(&t, "abcd", false));
    let t = gates(&[("?b", true), ("a?", false)]);
    assert!(!glob_lookup(&t, "ab", true));
}

#[test]
fn at_equal_prefixes_the_more_literal_pattern_wins() {
    let t = gates(&[("a*", true), ("a*c", false)]);
    assert!(!glob_lookup(&t, "abc", true));
    // both patterns have two literal bytes
    let t = gates(&[("a*c", true), ("a**c", false)]);
    assert!(glob_lookup(&t, "abc", false));
    // nothing but their order tells these apart
    let t = gates(&[("a*?", true), ("a?*", false)]);
    assert!(glob_lookup(&t, "abc", false));
}

#[test]
fn both_modes_agree_on_text_without_a_slash() {
    for pattern in ["*", "**", "l?", "a*b?c", "ls -*a", "x/*", ""] {
        for input in ["", "ls", "ls -la", "axbyc", "abc", "x"] {
            assert_eq!(
                glob_matches(pattern, input, true),
                glob_matches(pattern, input, false)
            );
        }
    }
    assert_eq!(glob_matches("a*b?c", "axbyc", true), Some(3));
    assert_eq!(glob_matches("a*", "a/b", true), None);
    assert_eq!(glob_matches("a*", "a/b", false), Some(1));
}
