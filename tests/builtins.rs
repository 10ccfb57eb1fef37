use shell_core::builtins::{
    builtin_names, classify, echo_output, exit_code, history_command, is_executable_mode, Builtin,
    HistoryCommand,
};

fn v(x: &[&str]) -> Vec<String> {
    x.iter().map(|s| s.to_string()).collect()
}

#[test]
fn classify_names() {
    assert_eq!(classify("exit"), Some(Builtin::Exit));
    assert_eq!(classify("echo"), Some(Builtin::Echo));
    assert_eq!(classify("type"), Some(Builtin::Type));
    assert_eq!(classify("pwd"), Some(Builtin::Pwd));
    assert_eq!(classify("cd"), Some(Builtin::Cd));
    assert_eq!(classify("history"), Some(Builtin::History));
    assert_eq!(classify("ls"), None);
    assert_eq!(classify("ech"), None);
}

#[test]
fn names_of_builtins() {
    assert_eq!(builtin_names(), vec!["echo", "exit", "type", "pwd", "cd", "history"]);
}

#[test]
fn echo_joins_with_spaces() {
    assert_eq!(echo_output(&v(&["echo", "hi"])), "hi\n");
    assert_eq!(echo_output(&v(&["echo", "a", "b c"])), "a b c\n");
    assert_eq!(echo_output(&v(&["echo"])), "\n");
}

#[test]
fn exit_status() {
    assert_eq!(exit_code(&v(&["exit"])), 0);
    assert_eq!(exit_code(&v(&["exit", "3"])), 3);
    assert_eq!(exit_code(&v(&["exit", "-7"])), -7);
    assert_eq!(exit_code(&v(&["exit", "+42"])), 42);
    assert_eq!(exit_code(&v(&["exit", "abc"])), 0);
    assert_eq!(exit_code(&v(&["exit", ""])), 0);
    assert_eq!(exit_code(&v(&["exit", "-"])), 0);
    assert_eq!(exit_code(&v(&["exit", "2147483647"])), 2147483647);
    assert_eq!(exit_code(&v(&["exit", "2147483648"])), 0);
    assert_eq!(exit_code(&v(&["exit", "-2147483648"])), -2147483648);
    assert_eq!(exit_code(&v(&["exit", "99999999999999999999"])), 0);
}

#[test]
fn history_arguments() {
    assert_eq!(history_command(&v(&["history"])), HistoryCommand::List(None));
    assert_eq!(history_command(&v(&["history", "2"])), HistoryCommand::List(Some(2)));
    assert_eq!(history_command(&v(&["history", "+5"])), HistoryCommand::List(Some(5)));
    assert_eq!(history_command(&v(&["history", "-r", "f"])), HistoryCommand::Read("f".to_string()));
    assert_eq!(history_command(&v(&["history", "-w", "f"])), HistoryCommand::Write("f".to_string()));
    assert_eq!(history_command(&v(&["history", "-a", "f"])), HistoryCommand::Append("f".to_string()));
    assert_eq!(history_command(&v(&["history", "-x", "f"])), HistoryCommand::Nothing);
    assert_eq!(history_command(&v(&["history", "-r"])), HistoryCommand::Nothing);
    assert_eq!(history_command(&v(&["history", "-2"])), HistoryCommand::Nothing);
}

#[test]
fn executable_mode_pattern() {
    assert!(is_executable_mode(0o755));
    assert!(is_executable_mode(0o100755));
    assert!(is_executable_mode(0o777));
    assert!(!is_executable_mode(0o700));
    assert!(!is_executable_mode(0o644));
    assert!(!is_executable_mode(0o751));
}
