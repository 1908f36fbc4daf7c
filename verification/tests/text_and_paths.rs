use gitmoto::paths::expand_tilde;
use gitmoto::ssh::path_join;
use gitmoto::text::{contains_str, pop_char, push_char, split_spaces, starts_with};
use gitmoto::util::common_prefix::{len, len_ending};

fn chars(s: &str) -> Vec<char> {
    s.chars().collect()
}

#[test]
fn path_join_inserts_exactly_one_separator() {
    assert_eq!(path_join("a", "b").as_str(), "a/b");
    assert_eq!(path_join("a/", "b").as_str(), "a/b");
    assert_eq!(path_join("", "b").as_str(), "b");
    assert_eq!(path_join("a", "/b").as_str(), "/b");
    assert_eq!(path_join("r2", "a").as_str(), "r2/a");
}

#[test]
fn expand_tilde_replaces_only_a_leading_tilde() {
    assert_eq!(expand_tilde("~", "/home/u").as_str(), "/home/u");
    assert_eq!(expand_tilde("~/src", "/home/u").as_str(), "/home/u/src");
    assert_eq!(expand_tilde("/opt/~", "/home/u").as_str(), "/opt/~");
    assert_eq!(expand_tilde("~x", "/home/u").as_str(), "~x");
}

#[test]
fn starts_with_and_contains_work_characterwise() {
    assert!(starts_with("/home/u/src", "/home/u"));
    assert!(!starts_with("/home", "/home/u"));
    assert!(contains_str("hello world", "lo wo"));
    assert!(contains_str("hello", ""));
    assert!(!contains_str("hello", "world"));
}

#[test]
fn split_spaces_keeps_empty_words() {
    let words = split_spaces("a bc  d");
    assert_eq!(
        words,
        vec!["a".to_string(), "bc".to_string(), "".to_string(), "d".to_string()],
    );
    assert_eq!(split_spaces(""), vec!["".to_string()]);
}

#[test]
fn push_and_pop_edit_one_character() {
    assert_eq!(push_char("ab", 'c').as_str(), "abc");
    assert_eq!(pop_char("abc").as_str(), "ab");
    assert_eq!(pop_char("").as_str(), "");
}

#[test]
fn common_prefix_length() {
    assert_eq!(len(&chars("a"), &chars("b")), 0);
    assert_eq!(len(&chars(""), &chars("b")), 0);
    assert_eq!(len(&chars("a"), &chars("")), 0);
    assert_eq!(len(&chars("a"), &chars("a")), 1);
    assert_eq!(len(&chars("a1"), &chars("a2")), 1);
    assert_eq!(len(&chars("abc"), &chars("abcd")), 3);
}

#[test]
fn common_prefix_length_ending_with_separator() {
    assert_eq!(len_ending(&chars("a"), &chars("b"), '/'), 0);
    assert_eq!(len_ending(&chars("a"), &chars("a"), '/'), 0);
    assert_eq!(len_ending(&chars("a/"), &chars("a/"), '/'), 2);
    assert_eq!(len_ending(&chars("a/b/c/d"), &chars("a/b/c/d/e"), '/'), 6);
}
