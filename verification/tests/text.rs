use hrns::table::Table;
use hrns::text::{
    byte_len, char_bytes, chars_of, concat2, concat3, contains_str, copy_list, copy_opt, count_of,
    decimal_of, ends_with, find_str, is_before, is_white_space, join_of, join_paths, lines_of,
    newlines_escaped, padded, position_from, repeated, starts_with, str_eq, string_of, trimmed,
};

fn list(items: &[&str]) -> Vec<String> {
    items.iter().map(|s| s.to_string()).collect()
}

const SAMPLES: [&str; 12] = [
    "",
    "a",
    "ab",
    "b",
    " a b ",
    "\u{e9}t\u{e9}",
    "a\nb",
    "a\r\nb\n",
    "\n\n",
    "x\ry\r",
    "\u{1f600}!",
    "~\u{7f}\u{80}\u{7ff}\u{800}\u{ffff}\u{10000}",
];

#[test]
fn white_space_is_that_of_unicode() {
    for u in 0..=0x10ffffu32 {
        if let Some(c) = char::from_u32(u) {
            assert_eq!(is_white_space(c), c.is_whitespace(), "{:x}", u);
        }
    }
}

#[test]
fn strings_behave_like_those_of_std() {
    for s in SAMPLES {
        assert_eq!(trimmed(s), s.trim());
        assert_eq!(byte_len(s), s.len());
        assert_eq!(lines_of(s), s.lines().collect::<Vec<_>>());
        assert_eq!(newlines_escaped(s), s.replace('\n', "\\n"));
        assert_eq!(count_of(s, 'b'), s.matches('b').count());
        assert_eq!(chars_of(s), s.chars().collect::<Vec<_>>());
        assert_eq!(string_of(&chars_of(s)), s);
        assert_eq!(padded(s, 4), format!("{:<4}", s));
        for t in SAMPLES {
            assert_eq!(str_eq(s, t), s == t);
            assert_eq!(is_before(s, t), s < t, "{:?} {:?}", s, t);
            assert_eq!(starts_with(s, t), s.starts_with(t));
            assert_eq!(ends_with(s, t), s.ends_with(t));
            assert_eq!(find_str(s, t).is_some(), s.find(t).is_some());
            assert_eq!(concat2(s, t), format!("{}{}", s, t));
            assert_eq!(concat3(s, t, s), format!("{}{}{}", s, t, s));
        }
    }
    for c in SAMPLES.concat().chars() {
        assert_eq!(char_bytes(c), c.len_utf8());
    }
}

#[test]
fn finding_counts_characters() {
    assert_eq!(find_str("\u{e9}t\u{e9}", "t"), Some(1));
    assert_eq!(find_str("aab", "ab"), Some(1));
    assert_eq!(find_str("abc", ""), Some(0));
    assert_eq!(find_str("ab", "abc"), None);
    let chars = chars_of("a/b/c");
    assert_eq!(position_from(&chars, 0, '/'), 1);
    assert_eq!(position_from(&chars, 2, '/'), 3);
    assert_eq!(position_from(&chars, 4, '/'), 5);
}

#[test]
fn lists_are_joined_copied_and_searched() {
    assert_eq!(join_of(&list(&[]), ", "), "");
    assert_eq!(join_of(&list(&["a"]), ", "), "a");
    assert_eq!(join_of(&list(&["a", "", "c"]), ", "), "a, , c");
    assert_eq!(copy_list(&list(&["a", "b"])), list(&["a", "b"]));
    assert!(contains_str(&list(&["a", "b"]), "b"));
    assert!(!contains_str(&list(&["a", "b"]), "c"));
    assert_eq!(copy_opt(&Some("x".to_string())), Some("x".to_string()));
    assert_eq!(copy_opt(&None), None);
}

#[test]
fn numbers_are_written_in_decimal() {
    for n in [0, 1, 9, 10, 99, 100, 1234567890, u64::MAX] {
        assert_eq!(decimal_of(n), n.to_string());
    }
    assert_eq!(repeated('-', 3), "---");
    assert_eq!(repeated('-', 0), "");
}

#[test]
fn paths_are_joined_like_those_of_std() {
    for (base, path) in [
        ("/a", "b"),
        ("/a/", "b"),
        ("", "b"),
        ("/", "b"),
        ("/a", "/b"),
        ("a", "b/c"),
    ] {
        let expected = std::path::Path::new(base).join(path);
        assert_eq!(join_paths(base, path), expected.to_str().unwrap());
    }
}

#[test]
fn tables_keep_their_keys_in_order() {
    let mut t: Table<u32> = Table::new();
    for (k, v) in [("b", 1), ("a", 2), ("c", 3), ("b", 4)] {
        t.insert(k.to_string(), v);
    }
    let keys: Vec<&str> = (0..t.len()).map(|i| t.key_at(i).as_str()).collect();
    assert_eq!(keys, ["a", "b", "c"]);
    assert_eq!(t.get("b"), Some(&4));
    assert_eq!(*t.value_at(2), 3);
    assert_eq!(t.index_of("c"), Some(2));
    assert_eq!(t.index_of("d"), None);
    assert!(t.contains_key("a"));
    let copy = t.copied();
    assert_eq!(t.remove("a"), Some(2));
    assert_eq!(t.remove("a"), None);
    assert_eq!(t.len(), 2);
    assert_eq!(copy.len(), 3);
    let mut more: Table<u32> = Table::new();
    more.insert("c".to_string(), 9);
    more.insert("z".to_string(), 8);
    t.extend(more);
    assert_eq!(t.get("c"), Some(&9));
    assert_eq!(t.get("z"), Some(&8));
    assert_eq!(t.len(), 3);
}
