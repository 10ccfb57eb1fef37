use shell_core::paths::{components, resolve_cd};

#[test]
fn up_one_level() {
    assert_eq!(resolve_cd("/usr/local/bin", "..", "/home/u"), "/usr/local");
    assert_eq!(resolve_cd("/usr", "..", "/home/u"), "/");
    assert_eq!(resolve_cd("/", "..", "/home/u"), "/");
}

#[test]
fn relative_walk() {
    assert_eq!(resolve_cd("/a/b", "./c/../d", "/h"), "/a/b/d");
    assert_eq!(resolve_cd("/a", "x/y/", "/h"), "/a/x/y");
    assert_eq!(resolve_cd("/a", "../../..", "/h"), "/");
}

#[test]
fn absolute_path_as_written() {
    assert_eq!(resolve_cd("/a", "/no/such/path", "/h"), "/no/such/path");
    assert_eq!(resolve_cd("/a", "/tmp/../usr", "/h"), "/tmp/../usr");
}

#[test]
fn home_expansion() {
    assert_eq!(resolve_cd("/a", "~", "/home/u"), "/home/u");
    assert_eq!(resolve_cd("/a", "~/docs", "/home/u"), "/home/u/docs");
    assert_eq!(resolve_cd("/a", "~/docs", "/home/u/"), "/home/u/docs");
    assert_eq!(resolve_cd("/a", "~x", "/home/u"), "/a/~x");
}

#[test]
fn components_drop_empty_and_dot() {
    assert_eq!(components("/a//./b/"), vec!["a".to_string(), "b".to_string()]);
}
