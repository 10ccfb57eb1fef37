use shell_core::tokenizer::split_args;

fn s(v: &[&str]) -> Vec<String> {
    v.iter().map(|x| x.to_string()).collect()
}

#[test]
fn single_quotes_keep_spaces() {
    assert_eq!(split_args("echo 'a b'"), s(&["echo", "a b"]));
}

#[test]
fn escaped_double_quote_inside_double_quotes() {
    assert_eq!(split_args("echo \"a\\\"b\""), s(&["echo", "a\"b"]));
}

#[test]
fn backslash_escapes_space() {
    assert_eq!(split_args("echo a\\ b"), s(&["echo", "a b"]));
}

#[test]
fn unterminated_quote_is_accepted() {
    assert_eq!(split_args("echo 'abc"), s(&["echo", "abc"]));
}

#[test]
fn spaces_collapse_and_trailing_space_adds_nothing() {
    assert_eq!(split_args("  ls   -l  "), s(&["ls", "-l"]));
}

#[test]
fn empty_line_has_no_tokens() {
    assert_eq!(split_args(""), Vec::<String>::new());
}

#[test]
fn backslash_in_double_quotes_kept_before_other_chars() {
    assert_eq!(split_args("echo \"a\\nb\" \"c\\\\d\""), s(&["echo", "a\\nb", "c\\d"]));
}

#[test]
fn single_quotes_take_backslashes_literally() {
    assert_eq!(split_args("echo 'a\\b' x"), s(&["echo", "a\\b", "x"]));
}

#[test]
fn backslash_outside_quotes_escapes_backslash_and_quote() {
    assert_eq!(split_args("a\\\\b \\'c"), s(&["a\\b", "'c"]));
}

#[test]
fn adjacent_quoted_parts_join() {
    assert_eq!(split_args("'a'\"b\"c"), s(&["abc"]));
}

#[test]
fn empty_quotes_before_space_make_an_empty_token() {
    assert_eq!(split_args("echo '' x"), s(&["echo", "", "x"]));
}
