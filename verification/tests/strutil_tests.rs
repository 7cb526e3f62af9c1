use zatboard::paths::split_path;
use zatboard::strutil::{join_strings, sort_strings, str_has_prefix, str_lex_leq, u64_to_dec};

#[test]
fn test_split_path_canonicalizes() {
    let segs = |p: &str| -> Vec<String> { split_path(p) };
    assert_eq!(segs("/a/b"), vec!["a", "b"]);
    assert_eq!(segs("//a///b/"), vec!["a", "b"]);
    assert_eq!(segs("/"), Vec::<String>::new());
    assert_eq!(segs(""), Vec::<String>::new());
    assert_eq!(segs("a"), vec!["a"]);
    assert_eq!(segs("/with space/x"), vec!["with space", "x"]);
}

#[test]
fn test_u64_to_dec_renders_decimal() {
    assert_eq!(u64_to_dec(0), "0");
    assert_eq!(u64_to_dec(7), "7");
    assert_eq!(u64_to_dec(1234567890), "1234567890");
    assert_eq!(u64_to_dec(u64::MAX), "18446744073709551615");
}

#[test]
fn test_sort_and_join() {
    let v = vec!["pear".to_string(), "apple".to_string(), "fig".to_string()];
    let sorted = sort_strings(v);
    assert_eq!(sorted, vec!["apple", "fig", "pear"]);
    assert_eq!(join_strings(&sorted, "  "), "apple  fig  pear");
    assert_eq!(join_strings(&Vec::new(), "  "), "");
}

#[test]
fn test_prefix_and_order() {
    assert!(str_has_prefix("REGISTER:abc", "REGISTER:"));
    assert!(!str_has_prefix("REGISTER", "REGISTER:"));
    assert!(str_lex_leq("a.txt", "b.txt"));
    assert!(str_lex_leq("a", "a"));
    assert!(!str_lex_leq("c/", "b.txt"));
    assert!(str_lex_leq("ab", "abc"));
}
