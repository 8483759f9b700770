//! Tests for the `Todo` entity: validation, trimming, completion toggling,
//! and reconstruction.

use todo_core::{Todo, TodoError};

#[test]
fn test_new_todo() {
    let todo = Todo::new("テストタスク".to_string()).unwrap();
    assert_eq!(todo.title(), "テストタスク");
    assert!(!todo.is_completed());
    assert!(todo.id().is_none());
}

#[test]
fn test_empty_title() {
    let result = Todo::new("  ".to_string());
    assert!(result.is_err());
}

#[test]
fn test_toggle_completion() {
    let mut todo = Todo::new("テスト".to_string()).unwrap();
    assert!(!todo.is_completed());

    todo.toggle_completion();
    assert!(todo.is_completed());

    todo.toggle_completion();
    assert!(!todo.is_completed());
}

#[test]
fn test_new_trims_title() {
    let todo = Todo::new("  buy milk  ".to_string()).unwrap();
    assert_eq!(todo.title(), "buy milk");
}

#[test]
fn test_new_trims_unicode_whitespace() {
    let todo = Todo::new("\u{3000}タスク\u{3000}\t\n".to_string()).unwrap();
    assert_eq!(todo.title(), "タスク");
}

#[test]
fn test_new_rejects_empty_and_whitespace() {
    assert_eq!(Todo::new(String::new()).unwrap_err(), TodoError::Validation);
    assert_eq!(Todo::new(" \t\r\n\u{3000}".to_string()).unwrap_err(), TodoError::Validation);
}

#[test]
fn test_change_title_trims() {
    let mut todo = Todo::new("first".to_string()).unwrap();
    todo.change_title("  second  ".to_string()).unwrap();
    assert_eq!(todo.title(), "second");
}

#[test]
fn test_change_title_rejects_whitespace() {
    let mut todo = Todo::new("first".to_string()).unwrap();
    let err = todo.change_title("   ".to_string()).unwrap_err();
    assert_eq!(err, TodoError::Validation);
    assert_eq!(todo.title(), "first");
}

#[test]
fn test_complete_and_uncomplete() {
    let mut todo = Todo::new("task".to_string()).unwrap();
    todo.complete();
    assert!(todo.is_completed());
    todo.complete();
    assert!(todo.is_completed());
    todo.uncomplete();
    assert!(!todo.is_completed());
}

#[test]
fn test_reconstruct_round_trip() {
    let todo = Todo::reconstruct(42, "stored title".to_string(), true);
    assert_eq!(todo.id(), Some(42));
    assert_eq!(todo.title(), "stored title");
    assert!(todo.is_completed());

    let untouched = Todo::reconstruct(7, "".to_string(), false);
    assert_eq!(untouched.id(), Some(7));
    assert_eq!(untouched.title(), "");
    assert!(!untouched.is_completed());
}
