use todo_list::{Todo, TodoError, TodoManager};

fn manager_of(contents: &[&str]) -> TodoManager {
    let mut m = TodoManager::new();
    for c in contents {
        m.add_todo(Todo::new(c.to_string()));
    }
    m
}

fn contents(m: &TodoManager) -> Vec<String> {
    m.list.iter().map(|t| t.content.clone()).collect()
}

#[test]
fn new_manager_is_empty() {
    assert_eq!(TodoManager::new().get_todo_count(), 0);
}

#[test]
fn add_appends_not_completed() {
    let m = manager_of(&["a", "b"]);
    assert_eq!(m.get_todo_count(), 2);
    assert_eq!(contents(&m), vec!["a", "b"]);
    assert!(!m.get_todo(1).unwrap().completed);
}

#[test]
fn get_returns_copy() {
    let m = manager_of(&["a", "b"]);
    let t = m.get_todo(1).unwrap();
    assert_eq!(t.content, "b");
}

#[test]
fn update_replaces_in_place() {
    let mut m = manager_of(&["a", "b", "c"]);
    let t = Todo { completed: true, content: "B".to_string() };
    assert_eq!(m.update_todo(1, t), Ok(()));
    assert_eq!(contents(&m), vec!["a", "B", "c"]);
    assert!(m.get_todo(1).unwrap().completed);
}

#[test]
fn delete_shifts_later_todos_down() {
    let mut m = manager_of(&["a", "b", "c", "d"]);
    assert_eq!(m.delete_todo(1), Ok(()));
    assert_eq!(m.get_todo_count(), 3);
    assert_eq!(contents(&m), vec!["a", "c", "d"]);
}

#[test]
fn toggle_twice_restores() {
    let mut m = manager_of(&["a", "b"]);
    assert_eq!(m.complete_todo(0), Ok(()));
    assert!(m.get_todo(0).unwrap().completed);
    assert_eq!(m.complete_todo(0), Ok(()));
    let t = m.get_todo(0).unwrap();
    assert!(!t.completed);
    assert_eq!(t.content, "a");
}

#[test]
fn out_of_range_access_fails_and_leaves_store() {
    let mut m = manager_of(&["a", "b"]);
    let n = m.get_todo_count();
    assert!(matches!(m.get_todo(n), Err(TodoError::IndexOutOfRange)));
    assert_eq!(m.delete_todo(n), Err(TodoError::IndexOutOfRange));
    assert_eq!(m.complete_todo(n), Err(TodoError::IndexOutOfRange));
    assert_eq!(m.update_todo(n, Todo::new("x".to_string())), Err(TodoError::IndexOutOfRange));
    assert_eq!(contents(&m), vec!["a", "b"]);
    assert!(!m.get_todo(0).unwrap().completed && !m.get_todo(1).unwrap().completed);
}

#[test]
fn empty_store_refuses_index_zero() {
    let mut m = TodoManager::new();
    assert!(matches!(m.get_todo(0), Err(TodoError::IndexOutOfRange)));
    assert_eq!(m.delete_todo(0), Err(TodoError::IndexOutOfRange));
}
