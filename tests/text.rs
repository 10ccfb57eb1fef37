use shell_core::completion::{compare_chars, contains_chars, find_common_prefix, starts_with_chars};
use shell_core::text::{split_on, token_is, trim_line};

fn c(s: &str) -> Vec<char> {
    s.chars().collect()
}

#[test]
fn common_prefix_of_several() {
    let v = |x: &[&str]| x.iter().map(|s| s.to_string()).collect::<Vec<String>>();
    assert_eq!(find_common_prefix(&v(&["echo", "exit"])), "e");
    assert_eq!(find_common_prefix(&v(&["custom_a", "custom_b", "cut"])), "cu");
    assert_eq!(find_common_prefix(&v(&["abc"])), "abc");
    assert_eq!(find_common_prefix(&v(&[])), "");
    assert_eq!(find_common_prefix(&v(&["ab", "xab"])), "");
}

#[test]
fn substring_and_prefix_tests() {
    assert!(contains_chars(&c("history"), &c("ist")));
    assert!(contains_chars(&c("abc"), &c("")));
    assert!(!contains_chars(&c("abc"), &c("abcd")));
    assert!(!contains_chars(&c("abc"), &c("ac")));
    assert!(starts_with_chars(&c("echo"), &c("ec")));
    assert!(!starts_with_chars(&c("echo"), &c("ch")));
}

#[test]
fn ordering_of_words() {
    assert!(compare_chars(&c("abc"), &c("abd")) < 0);
    assert!(compare_chars(&c("ab"), &c("abc")) < 0);
    assert!(compare_chars(&c("b"), &c("abc")) > 0);
    assert_eq!(compare_chars(&c("same"), &c("same")), 0);
    assert!(compare_chars(&c("Z"), &c("a")) < 0);
}

#[test]
fn trimming() {
    assert_eq!(trim_line("  ls -l \t\r\n"), "ls -l");
    assert_eq!(trim_line("   "), "");
    assert_eq!(trim_line("\u{3000}x\u{a0}"), "x");
}

#[test]
fn splitting_and_comparing() {
    assert_eq!(split_on("a::b", ':'), vec!["a".to_string(), "".to_string(), "b".to_string()]);
    assert_eq!(split_on("", ':'), vec!["".to_string()]);
    assert!(token_is(">>", ">>"));
    assert!(!token_is(">", ">>"));
}
