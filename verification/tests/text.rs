//! Texts, paths and the clock.
use agent_undo::outside::{now_ns, stamp};
use agent_undo::parts::{
    file_name, has_part_named, is_under, key_of_path, relative_path, split_parts,
};
use agent_undo::paths::{join, split_hash};
use agent_undo::table::TextMap;
use agent_undo::text::{
    contains, count_text, decimal_text, ends_with, first_bytes, is_like, pad, parse_i64, parse_u32,
    rank, same, same_opt, signed_text, starts_with, text_of, to_lower, trim, Rank,
};

#[test]
fn numbers_are_written_and_read() {
    assert_eq!(decimal_text(0), "0");
    assert_eq!(decimal_text(u64::MAX), "18446744073709551615");
    assert_eq!(count_text(20), "20");
    assert_eq!(signed_text(i64::MIN), "-9223372036854775808");
    assert_eq!(parse_i64("-9223372036854775808"), Some(i64::MIN));
    assert_eq!(parse_i64("9223372036854775808"), None);
    assert_eq!(parse_i64("+7"), Some(7));
    assert_eq!(parse_i64(""), None);
    assert_eq!(parse_i64("+"), None);
    assert_eq!(parse_i64("1 "), None);
    assert_eq!(parse_u32("4294967295"), Some(u32::MAX));
    assert_eq!(parse_u32("4294967296"), None);
    assert_eq!(parse_u32("-1"), None);
    assert_eq!(parse_u32("-0"), None);
    for s in ["0", "+0", "-0", "007", "--1", "x", "\u{662}"] {
        assert_eq!(parse_i64(s), s.parse::<i64>().ok(), "{s}");
        assert_eq!(parse_u32(s), s.parse::<u32>().ok(), "{s}");
    }
}

#[test]
fn texts_are_trimmed_padded_and_cut() {
    assert_eq!(trim(" \t\u{a0}a b\n\u{3000}"), "a b");
    assert_eq!(trim("\u{200b}"), "\u{200b}");
    assert_eq!(pad("ab", 5), "ab   ");
    assert_eq!(pad("abcdef", 5), "abcdef");
    assert_eq!(pad("é", 3), "é  ");
    assert_eq!(first_bytes("abcdef", 3), Some("abc".to_string()));
    assert_eq!(first_bytes("ab", 3), Some("ab".to_string()));
    assert_eq!(first_bytes("aé", 2), None);
    assert_eq!(first_bytes("aé", 3), Some("aé".to_string()));
    assert_eq!(text_of(&vec!['a', 'é']), "aé");
}

#[test]
fn texts_are_compared() {
    assert!(same("a", "a") && !same("a", "ab"));
    assert!(same_opt(&None, &None) && !same_opt(&None, &Some(String::new())));
    assert!(contains("haystack", "stack") && contains("a", "") && !contains("a", "ab"));
    assert!(starts_with("abc", "ab") && ends_with("abc", "bc"));
    assert!(!starts_with("abc", "bc") && !ends_with("abc", "ab"));
    assert_eq!(to_lower("ÄBC-xyz"), "Äbc-xyz");
    assert!(matches!(rank("a", "b"), Rank::Before));
    assert!(matches!(rank("b", "a"), Rank::After));
    assert!(matches!(rank("a", "a"), Rank::Same));
    assert!(matches!(rank("a", "aa"), Rank::Before));
}

#[test]
fn patterns_match_like_sql() {
    assert!(is_like("src/main.rs", "%main%"));
    assert!(is_like("SRC/MAIN.RS", "%main%"));
    assert!(is_like("abc", "a_c"));
    assert!(!is_like("abbc", "a_c"));
    assert!(is_like("", "%"));
    assert!(!is_like("a", ""));
    assert!(!is_like("É", "é"));
}

#[test]
fn paths_are_taken_apart() {
    assert_eq!(split_parts("/a//b/./c"), vec!["/", "a", "b", "c"]);
    assert!(has_part_named("/a/.git/b", ".git") && !has_part_named("/a/.github/b", ".git"));
    assert!(is_under("/a", "/a/b") && is_under("/a", "/a") && !is_under("/a", "/ab"));
    assert_eq!(file_name("/a/b.rs"), Some("b.rs".to_string()));
    assert_eq!(file_name("/"), None);
    assert_eq!(file_name("/a/.."), None);
    assert_eq!(relative_path("/a", "/a/b/c"), "b/c");
    assert_eq!(key_of_path("/a//b/"), key_of_path("/a/b"));
    assert_eq!(join("/a", "b"), "/a/b");
    assert_eq!(join("/a/", "b"), "/a/b");
    assert_eq!(join("", "b"), "b");
    assert_eq!(split_hash("abcd"), ("ab".to_string(), "cd".to_string()));
    assert_eq!(split_hash("a"), ("a".to_string(), "".to_string()));
}

#[test]
fn a_table_keeps_its_keys_in_order() {
    let mut t: TextMap<i64> = TextMap::new();
    t.insert("b".to_string(), 1);
    t.insert("a".to_string(), 2);
    t.insert("c".to_string(), 3);
    t.insert("b".to_string(), 4);
    assert_eq!(t.get("b"), Some(&4));
    assert_eq!(t.get("d"), None);
    assert_eq!(t.keys(), vec!["a".to_string(), "b".to_string(), "c".to_string()]);
    t.remove("a");
    t.remove("z");
    assert!(!t.contains_key("a"));
    assert_eq!(t.into_entries(), vec![("b".to_string(), 4), ("c".to_string(), 3)]);
}

#[test]
fn time_is_told_in_nanoseconds() {
    assert_eq!(stamp(None), 0);
    assert_eq!(stamp(Some(5)), 5);
    assert_eq!(stamp(Some(9_223_372_036_854_775_807)), i64::MAX);
    assert!(now_ns() > 1_600_000_000_000_000_000);
}
