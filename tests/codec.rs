use todo_list::{decode, encode, Todo, TodoManager};

fn todo(completed: bool, content: &str) -> Todo {
    Todo { completed, content: content.to_string() }
}

fn summary(todos: &[Todo]) -> Vec<(bool, String)> {
    todos.iter().map(|t| (t.completed, t.content.clone())).collect()
}

#[test]
fn load_toggle_save_scenario() {
    let mut manager = TodoManager::new();
    let skipped = manager.load_from_text("X:Buy milk\n :Call Sam\n");
    assert_eq!(skipped, 0);
    assert_eq!(
        summary(&manager.list),
        vec![(true, "Buy milk".to_string()), (false, "Call Sam".to_string())]
    );
    assert!(manager.complete_todo(1).is_ok());
    assert_eq!(manager.save_to_text(), "X:Buy milk\nX:Call Sam\n");
}

#[test]
fn encode_writes_marker_colon_content_newline() {
    let todos = vec![todo(true, "a"), todo(false, "b c")];
    assert_eq!(encode(&todos), "X:a\n :b c\n");
}

#[test]
fn encode_empty_list_is_empty_text() {
    assert_eq!(encode(&Vec::new()), "");
}

#[test]
fn decode_empty_text_is_empty_list() {
    let d = decode("");
    assert!(d.todos.is_empty());
    assert_eq!(d.skipped, 0);
}

#[test]
fn decode_round_trip_of_encode() {
    let todos = vec![todo(false, "write report"), todo(true, ""), todo(true, "ünïcödé ✓")];
    let d = decode(&encode(&todos));
    assert_eq!(d.skipped, 0);
    assert_eq!(summary(&d.todos), summary(&todos));
}

#[test]
fn decode_splits_at_first_colon_only() {
    let d = decode("X:meet at 10:30\n");
    assert_eq!(summary(&d.todos), vec![(true, "meet at 10:30".to_string())]);
}

#[test]
fn decode_only_x_marker_means_completed() {
    let d = decode("x:a\nXX:b\n:c\nX:d\n");
    assert_eq!(
        summary(&d.todos),
        vec![
            (false, "a".to_string()),
            (false, "b".to_string()),
            (false, "c".to_string()),
            (true, "d".to_string()),
        ]
    );
}

#[test]
fn decode_skips_and_counts_malformed_lines() {
    let d = decode("X:one\nno separator\n\n :two\n");
    assert_eq!(d.skipped, 2);
    assert_eq!(summary(&d.todos), vec![(true, "one".to_string()), (false, "two".to_string())]);
}

#[test]
fn decode_reads_last_line_without_newline() {
    let d = decode("X:a\n :b");
    assert_eq!(summary(&d.todos), vec![(true, "a".to_string()), (false, "b".to_string())]);
}

#[test]
fn load_replaces_previous_list() {
    let mut manager = TodoManager::new();
    manager.add_todo(Todo::new("old".to_string()));
    manager.load_from_text(" :new\n");
    assert_eq!(summary(&manager.list), vec![(false, "new".to_string())]);
}

#[test]
fn completed_str_markers() {
    assert_eq!(todo(true, "a").completed_str(), "X");
    assert_eq!(todo(false, "a").completed_str(), " ");
}
