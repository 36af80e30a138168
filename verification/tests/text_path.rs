use nota::path::{components_of, path_starts_with};
use nota::text::{
    decimal_chars, decimal_u64_chars, is_whitespace, owned, parse_i64, path_join, push_str, string_of,
    trim_chars,
};

fn chars(s: &str) -> Vec<char> {
    s.chars().collect()
}

#[test]
fn decimal_text_of_integers() {
    assert_eq!(string_of(&decimal_chars(0)), "0");
    assert_eq!(string_of(&decimal_chars(86400)), "86400");
    assert_eq!(string_of(&decimal_chars(-42)), "-42");
    assert_eq!(string_of(&decimal_chars(i64::MIN)), i64::MIN.to_string());
    assert_eq!(string_of(&decimal_chars(i64::MAX)), i64::MAX.to_string());
    assert_eq!(string_of(&decimal_u64_chars(u64::MAX)), u64::MAX.to_string());
}

#[test]
fn parse_i64_as_std_does() {
    for t in ["0", "86400", "-42", "+7", "9223372036854775807", "-9223372036854775808"] {
        assert_eq!(parse_i64(&chars(t)), t.parse::<i64>().ok(), "{t}");
    }
    for t in ["", "-", "+", "12a", " 1", "9223372036854775808", "-9223372036854775809", "--1"] {
        assert_eq!(parse_i64(&chars(t)), None, "{t}");
    }
}

#[test]
fn parse_reads_back_decimal() {
    for n in [0i64, 1, -1, 3600, i64::MIN, i64::MAX, 1720000000] {
        assert_eq!(parse_i64(&decimal_chars(n)), Some(n));
    }
}

#[test]
fn whitespace_and_trim() {
    assert!(is_whitespace(' '));
    assert!(is_whitespace('\u{3000}'));
    assert!(!is_whitespace('x'));
    assert_eq!(string_of(&trim_chars(&chars(" \t a b \n"))), "a b");
    assert_eq!(string_of(&trim_chars(&chars("   "))), "");
}

#[test]
fn owned_and_push_str() {
    let mut s = owned("ab");
    push_str(&mut s, "cd");
    assert_eq!(s, "abcd");
}

#[test]
fn path_join_as_pathbuf_join() {
    assert_eq!(path_join("/home/u", ".nota"), "/home/u/.nota");
    assert_eq!(path_join("/home/u/", "x"), "/home/u/x");
    assert_eq!(path_join("/home/u", "/etc"), "/etc");
    assert_eq!(path_join("", "x"), "x");
}

#[test]
fn path_components() {
    let cs: Vec<String> = components_of("/a//b/./c/").iter().map(|v| v.iter().collect()).collect();
    assert_eq!(cs, vec!["/", "a", "b", "c"]);
    let rel: Vec<String> = components_of("./x/../y").iter().map(|v| v.iter().collect()).collect();
    assert_eq!(rel, vec![".", "x", "..", "y"]);
}

#[test]
fn path_prefix_by_components() {
    assert!(path_starts_with("/ws/alice/notes.md", "/ws/alice"));
    assert!(path_starts_with("/ws/alice", "/ws/alice/"));
    assert!(!path_starts_with("/ws/alice2/x", "/ws/alice"));
    assert!(!path_starts_with("/ws/alice/../bob", "/ws/bob"));
    assert!(path_starts_with("/ws//alice/./x", "/ws/alice"));
}
