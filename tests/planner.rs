use shell_core::planner::{plan_pipeline, Command};
use shell_core::tokenizer::split_args;

fn words(c: &Command) -> Vec<&str> {
    c.args.iter().map(|s| s.as_str()).collect()
}

#[test]
fn redirect_truncate() {
    let p = plan_pipeline(&split_args("echo hi > out.txt"));
    assert_eq!(p.len(), 1);
    assert_eq!(words(&p[0]), vec!["echo", "hi"]);
    let out = p[0].stdout.as_ref().unwrap();
    assert_eq!(out.path, "out.txt");
    assert!(!out.append);
    assert!(p[0].stderr.is_none());
}

#[test]
fn redirect_append() {
    let p = plan_pipeline(&split_args("echo more >> out.txt"));
    let out = p[0].stdout.as_ref().unwrap();
    assert_eq!(out.path, "out.txt");
    assert!(out.append);
    let p1 = plan_pipeline(&split_args("echo more 1>> f"));
    assert!(p1[0].stdout.as_ref().unwrap().append);
    let p2 = plan_pipeline(&split_args("echo more 1> f"));
    assert!(!p2[0].stdout.as_ref().unwrap().append);
}

#[test]
fn stderr_redirect_and_stdout_together() {
    let p = plan_pipeline(&split_args("cat a b 2>> err.txt > out.txt"));
    assert_eq!(words(&p[0]), vec!["cat", "a", "b"]);
    let err = p[0].stderr.as_ref().unwrap();
    assert_eq!(err.path, "err.txt");
    assert!(err.append);
    assert_eq!(p[0].stdout.as_ref().unwrap().path, "out.txt");
}

#[test]
fn only_first_stdout_redirect_counts() {
    let p = plan_pipeline(&split_args("echo x > a > b"));
    assert_eq!(words(&p[0]), vec!["echo", "x"]);
    assert_eq!(p[0].stdout.as_ref().unwrap().path, "a");
}

#[test]
fn pipe_splits_stages() {
    let p = plan_pipeline(&split_args("printf foo | cat"));
    assert_eq!(p.len(), 2);
    assert_eq!(words(&p[0]), vec!["printf", "foo"]);
    assert_eq!(words(&p[1]), vec!["cat"]);
}

#[test]
fn three_stages_with_redirect_in_last() {
    let p = plan_pipeline(&split_args("echo hi | cat | wc -c 2> e"));
    assert_eq!(p.len(), 3);
    assert_eq!(words(&p[0]), vec!["echo", "hi"]);
    assert_eq!(words(&p[2]), vec!["wc", "-c"]);
    assert_eq!(p[2].stderr.as_ref().unwrap().path, "e");
}

#[test]
fn trailing_operator_is_a_word() {
    let p = plan_pipeline(&split_args("echo >"));
    assert_eq!(words(&p[0]), vec!["echo", ">"]);
    assert!(p[0].stdout.is_none());
}

#[test]
fn quoted_operator_still_reads_as_operator_token() {
    let p = plan_pipeline(&split_args("echo a '|' b"));
    assert_eq!(p.len(), 2);
}
