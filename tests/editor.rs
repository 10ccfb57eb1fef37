use shell_core::editor::{LineBuffer, Response};
use shell_core::keys::Key;

fn typed(text: &str) -> LineBuffer {
    let mut lb = LineBuffer::new();
    for c in text.chars() {
        lb.insert(c);
    }
    lb
}

fn with_builtins(names: &[&str], text: &str) -> LineBuffer {
    let mut lb = typed(text);
    lb.set_builtins(names);
    lb
}

#[test]
fn insert_and_move_cursor() {
    let mut lb = typed("ac");
    lb.move_left();
    lb.insert('b');
    assert_eq!(lb.to_str(), "abc");
    assert_eq!(lb.cursor_position(), 2);
    lb.move_right();
    lb.move_right();
    assert_eq!(lb.cursor_position(), 3);
    lb.move_left();
    lb.move_left();
    lb.move_left();
    lb.move_left();
    assert_eq!(lb.cursor_position(), 0);
}

#[test]
fn delete_left_and_right() {
    let mut lb = typed("abcd");
    lb.delete_left();
    assert_eq!(lb.to_str(), "abc");
    lb.move_left();
    lb.move_left();
    lb.delete_right();
    assert_eq!(lb.to_str(), "ac");
    assert_eq!(lb.cursor_position(), 1);
    lb.clear();
    lb.delete_left();
    lb.delete_right();
    assert_eq!(lb.to_str(), "");
    assert_eq!(lb.cursor_position(), 0);
}

#[test]
fn interactive_duplicate_is_suppressed() {
    let mut lb = LineBuffer::new();
    lb.insert_history_entry("ls", true);
    lb.insert_history_entry("ls", true);
    assert_eq!(lb.get_history(), vec!["ls".to_string()]);
}

#[test]
fn non_interactive_duplicate_is_kept() {
    let mut lb = LineBuffer::new();
    lb.insert_history_entry("ls", false);
    lb.insert_history_entry("ls", false);
    assert_eq!(lb.get_history(), vec!["ls".to_string(), "ls".to_string()]);
}

#[test]
fn duplicate_only_of_the_last_entry_is_suppressed() {
    let mut lb = LineBuffer::new();
    lb.insert_history_entry("a", true);
    lb.insert_history_entry("b", true);
    lb.insert_history_entry("a", true);
    assert_eq!(lb.get_history(), vec!["a".to_string(), "b".to_string(), "a".to_string()]);
}

#[test]
fn browse_history_up_and_down() {
    let mut lb = LineBuffer::new();
    lb.insert_history_entry("first", true);
    lb.insert_history_entry("second", true);
    lb.move_up_history();
    assert_eq!(lb.to_str(), "second");
    assert_eq!(lb.cursor_position(), 6);
    lb.move_up_history();
    assert_eq!(lb.to_str(), "first");
    assert_eq!(lb.cursor_position(), 5);
    lb.move_up_history();
    assert_eq!(lb.to_str(), "first");
    lb.move_down_history();
    assert_eq!(lb.to_str(), "second");
    lb.move_down_history();
    assert_eq!(lb.to_str(), "");
    assert_eq!(lb.cursor_position(), 0);
    lb.move_down_history();
    assert_eq!(lb.to_str(), "");
}

#[test]
fn history_keeps_cursor_when_inside_and_short_enough() {
    let mut lb = LineBuffer::new();
    lb.insert_history_entry("abcdef", true);
    lb.insert('x');
    lb.insert('y');
    lb.insert('z');
    lb.move_left();
    lb.move_left();
    lb.move_up_history();
    assert_eq!(lb.to_str(), "abcdef");
    assert_eq!(lb.cursor_position(), 1);
}

#[test]
fn completion_with_two_builtins_waits() {
    let mut lb = with_builtins(&["echo", "exit"], "e");
    let bell = lb.tab_completion(&vec![]);
    assert!(bell);
    assert_eq!(lb.to_str(), "e");
    assert!(lb.completion_pending());
    assert_eq!(lb.get_hints(), vec!["echo".to_string(), "exit".to_string()]);
}

#[test]
fn completion_with_one_candidate_finishes_word() {
    let mut lb = with_builtins(&["echo", "exit"], "ech");
    let bell = lb.tab_completion(&vec![]);
    assert!(!bell);
    assert_eq!(lb.to_str(), "echo ");
    assert_eq!(lb.cursor_position(), 5);
    assert!(!lb.completion_pending());
}

#[test]
fn completion_without_candidates_rings() {
    let mut lb = with_builtins(&["echo", "exit"], "zz");
    let bell = lb.tab_completion(&vec![]);
    assert!(bell);
    assert_eq!(lb.to_str(), "zz");
    assert!(!lb.completion_pending());
}

#[test]
fn completion_extends_to_common_prefix() {
    let mut lb = with_builtins(&["echo"], "cu");
    let execs = vec!["custom_b".to_string(), "custom_a".to_string(), "cut".to_string(), "other".to_string()];
    let bell = lb.tab_completion(&execs);
    assert!(bell);
    assert_eq!(lb.to_str(), "cu");
    let mut lb2 = with_builtins(&["echo"], "cu");
    let execs2 = vec!["custom_b".to_string(), "custom_a".to_string()];
    lb2.tab_completion(&execs2);
    assert_eq!(lb2.to_str(), "custom_");
    assert_eq!(lb2.cursor_position(), 7);
    assert_eq!(lb2.get_hints(), vec!["custom_a".to_string(), "custom_b".to_string()]);
}

#[test]
fn completion_merges_duplicates() {
    let mut lb = with_builtins(&["echo"], "ec");
    let execs = vec!["echo".to_string()];
    let bell = lb.tab_completion(&execs);
    assert!(!bell);
    assert_eq!(lb.to_str(), "echo ");
}

#[test]
fn builtins_match_by_substring() {
    let mut lb = with_builtins(&["history", "type"], "ist");
    lb.tab_completion(&vec![]);
    assert_eq!(lb.to_str(), "history ");
}

#[test]
fn second_tab_lists_candidates() {
    let mut lb = with_builtins(&["echo", "exit"], "e");
    assert_eq!(lb.handle_key(Key::Tab, &vec![]), Response::Bell);
    assert_eq!(lb.handle_key(Key::Tab, &vec![]), Response::ShowHints("echo  exit".to_string()));
    assert!(!lb.completion_pending());
    assert_eq!(lb.tab_hints(), "");
}

#[test]
fn other_key_drops_pending_candidates() {
    let mut lb = with_builtins(&["echo", "exit"], "e");
    lb.handle_key(Key::Tab, &vec![]);
    assert_eq!(lb.handle_key(Key::Char('x'), &vec![]), Response::Continue);
    assert!(!lb.completion_pending());
    assert_eq!(lb.to_str(), "ex");
}

#[test]
fn keys_edit_and_enter_finishes() {
    let mut lb = LineBuffer::new();
    lb.insert_history_entry("pwd", true);
    lb.begin_line();
    for k in [Key::Char('l'), Key::Char('s'), Key::Left, Key::Backspace, Key::Delete, Key::Escape, Key::Ignored] {
        assert_eq!(lb.handle_key(k, &vec![]), Response::Continue);
    }
    assert_eq!(lb.to_str(), "");
    lb.handle_key(Key::Up, &vec![]);
    assert_eq!(lb.to_str(), "pwd");
    assert_eq!(lb.handle_key(Key::Enter, &vec![]), Response::Done);
    assert_eq!(lb.end_line(), "pwd");
    lb.begin_line();
    lb.handle_key(Key::Up, &vec![]);
    assert_eq!(lb.to_str(), "pwd");
}

#[test]
fn render_moves_cursor_back() {
    let mut lb = typed("hello");
    assert_eq!(lb.render("$ "), "\r\x1B[K$ hello");
    lb.move_left();
    lb.move_left();
    assert_eq!(lb.render("$ "), "\r\x1B[K$ hello\x1B[2D");
}

#[test]
fn render_with_two_digit_offset() {
    let mut lb = typed("abcdefghijkl");
    for _ in 0..12 {
        lb.move_left();
    }
    assert_eq!(lb.render("> "), "\r\x1B[K> abcdefghijkl\x1B[12D");
}

#[test]
fn clear_hints_resets_pending() {
    let mut lb = with_builtins(&["echo", "exit"], "e");
    lb.tab_completion(&vec![]);
    lb.clear_hints();
    assert!(!lb.completion_pending());
    assert!(lb.get_hints().is_empty());
}

#[test]
fn plain_terminal_echo() {
    let lb = typed("ls");
    assert_eq!(lb.echo_for_key(Key::Char('s'), "$ "), "s");
    assert_eq!(lb.echo_for_key(Key::Up, "$ "), "\r\x1B[K$ ls");
    assert_eq!(lb.echo_for_key(Key::Tab, "$ "), "\r\x1B[K$ ls");
    assert_eq!(lb.echo_for_key(Key::Left, "$ "), "");
}
