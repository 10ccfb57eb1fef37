use shell_core::editor::LineBuffer;
use shell_core::history::{history_file_text, history_lines, history_listing};

fn v(x: &[&str]) -> Vec<String> {
    x.iter().map(|s| s.to_string()).collect()
}

#[test]
fn listing_last_two_keeps_original_numbers() {
    let h = v(&["e1", "e2", "e3"]);
    assert_eq!(history_listing(&h, Some(2)), "  2  e2\n  3  e3\n");
}

#[test]
fn listing_everything() {
    let h = v(&["e1", "e2", "e3"]);
    assert_eq!(history_listing(&h, None), "  1  e1\n  2  e2\n  3  e3\n");
    assert_eq!(history_listing(&h, Some(10)), "  1  e1\n  2  e2\n  3  e3\n");
    assert_eq!(history_listing(&h, Some(0)), "");
}

#[test]
fn listing_numbers_past_nine() {
    let h: Vec<String> = (1..=11).map(|i| format!("c{}", i)).collect();
    assert_eq!(history_listing(&h, Some(1)), "  11  c11\n");
}

#[test]
fn file_text_has_one_line_per_entry() {
    let h = v(&["ls", "echo hi"]);
    assert_eq!(history_file_text(&h, 0), "ls\necho hi\n");
    assert_eq!(history_file_text(&h, 1), "echo hi\n");
    assert_eq!(history_file_text(&h, 2), "");
    assert_eq!(history_file_text(&h, 5), "");
}

#[test]
fn lines_skip_empty_ones() {
    assert_eq!(history_lines("a\n\nb\n"), v(&["a", "b"]));
    assert_eq!(history_lines(""), Vec::<String>::new());
    assert_eq!(history_lines("x"), v(&["x"]));
}

#[test]
fn write_then_read_in_fresh_session() {
    let mut first = LineBuffer::new();
    for e in ["ls", "cd /tmp", "echo 'a b'", "ls"] {
        first.insert_history_entry(e, true);
    }
    let text = history_file_text(&first.get_history(), 0);
    let mut second = LineBuffer::new();
    second.load_history(&text, true);
    assert_eq!(second.get_history(), first.get_history());
}

#[test]
fn reading_interactively_drops_repeats() {
    let mut lb = LineBuffer::new();
    lb.load_history("a\na\nb\n", true);
    assert_eq!(lb.get_history(), v(&["a", "b"]));
    let mut lb2 = LineBuffer::new();
    lb2.load_history("a\na\nb\n", false);
    assert_eq!(lb2.get_history(), v(&["a", "a", "b"]));
}
