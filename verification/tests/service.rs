//! Tests for the service and repository: the full request lifecycle over
//! the in-memory store, with the synthetic ids the id mapping presents.

use todo_core::{
    CreateTodoDto, Todo, TodoError, TodoRepository, TodoRepositoryImpl, TodoService, UpdateTodoDto,
};

fn fresh_service() -> TodoService<TodoRepositoryImpl> {
    TodoService::new(TodoRepositoryImpl::new())
}

#[test]
fn test_crud_scenario() {
    let mut service = fresh_service();

    let created = service
        .create_todo(CreateTodoDto { title: "buy milk".to_string(), completed: false })
        .unwrap();
    assert_eq!(created.title, "buy milk");
    assert!(!created.completed);
    let id = created.id;

    let fetched = service.get_todo_by_id(id).unwrap();
    assert_eq!(fetched.id, id);
    assert_eq!(fetched.title, "buy milk");
    assert!(!fetched.completed);

    let updated = service
        .update_todo(id, UpdateTodoDto { title: None, completed: Some(true) })
        .unwrap();
    assert_eq!(updated.id, id);
    assert_eq!(updated.title, "buy milk");
    assert!(updated.completed);

    service.delete_todo(id).unwrap();
    assert_eq!(service.get_todo_by_id(id).unwrap_err(), TodoError::NotFound);
}

#[test]
fn test_save_then_find_returns_equal_record() {
    let mut repository = TodoRepositoryImpl::new();
    let todo = Todo::new("write report".to_string()).unwrap();
    let saved = repository.save(&todo).unwrap();
    let id = saved.id().unwrap();

    let found = repository.find_by_id(id).unwrap().unwrap();
    assert_eq!(found.id(), saved.id());
    assert_eq!(found.title(), saved.title());
    assert_eq!(found.is_completed(), saved.is_completed());
    assert_eq!(found, saved);
}

#[test]
fn test_delete_then_find_absent_and_second_delete_fails() {
    let mut service = fresh_service();
    let created = service
        .create_todo(CreateTodoDto { title: "ephemeral".to_string(), completed: false })
        .unwrap();
    let id = created.id;

    service.delete_todo(id).unwrap();
    assert_eq!(service.get_todo_by_id(id).unwrap_err(), TodoError::NotFound);
    assert_eq!(service.delete_todo(id).unwrap_err(), TodoError::NotFound);
}

#[test]
fn test_update_title_leaves_completed_unchanged() {
    let mut service = fresh_service();
    let created = service
        .create_todo(CreateTodoDto { title: "original".to_string(), completed: true })
        .unwrap();
    let id = created.id;

    let updated = service
        .update_todo(id, UpdateTodoDto { title: Some("X".to_string()), completed: None })
        .unwrap();
    assert_eq!(updated.id, id);
    assert_eq!(updated.title, "X");
    assert!(updated.completed);

    let explicit = service
        .update_todo(id, UpdateTodoDto { title: Some("Y".to_string()), completed: Some(false) })
        .unwrap();
    assert_eq!(explicit.title, "Y");
    assert!(!explicit.completed);
}

#[test]
fn test_update_completed_leaves_title_unchanged() {
    let mut service = fresh_service();
    let created = service
        .create_todo(CreateTodoDto { title: "keep me".to_string(), completed: false })
        .unwrap();

    let updated = service
        .update_todo(created.id, UpdateTodoDto { title: None, completed: Some(true) })
        .unwrap();
    assert_eq!(updated.title, "keep me");
    assert!(updated.completed);
}

#[test]
fn test_create_applies_completed_flag_and_trims() {
    let mut service = fresh_service();
    let created = service
        .create_todo(CreateTodoDto { title: "  spaced  ".to_string(), completed: true })
        .unwrap();
    assert_eq!(created.title, "spaced");
    assert!(created.completed);
}

#[test]
fn test_create_validation_error() {
    let mut service = fresh_service();
    let err = service
        .create_todo(CreateTodoDto { title: "   ".to_string(), completed: false })
        .unwrap_err();
    assert_eq!(err, TodoError::Validation);
    assert!(service.get_all_todos().unwrap().is_empty());
}

#[test]
fn test_update_validation_error_changes_nothing() {
    let mut service = fresh_service();
    let created = service
        .create_todo(CreateTodoDto { title: "stable".to_string(), completed: false })
        .unwrap();

    let err = service
        .update_todo(created.id, UpdateTodoDto { title: Some(" ".to_string()), completed: Some(true) })
        .unwrap_err();
    assert_eq!(err, TodoError::Validation);

    let fetched = service.get_todo_by_id(created.id).unwrap();
    assert_eq!(fetched.title, "stable");
    assert!(!fetched.completed);
}

#[test]
fn test_update_missing_is_not_found() {
    let mut service = fresh_service();
    let err = service
        .update_todo(12345, UpdateTodoDto { title: Some("X".to_string()), completed: None })
        .unwrap_err();
    assert_eq!(err, TodoError::NotFound);
}

#[test]
fn test_get_all_lists_in_store_order() {
    let mut service = fresh_service();
    let first = service
        .create_todo(CreateTodoDto { title: "first".to_string(), completed: false })
        .unwrap();
    let second = service
        .create_todo(CreateTodoDto { title: "second".to_string(), completed: true })
        .unwrap();

    let all = service.get_all_todos().unwrap();
    assert_eq!(all.len(), 2);
    assert_eq!(all[0].id, first.id);
    assert_eq!(all[0].title, "first");
    assert!(!all[0].completed);
    assert_eq!(all[1].id, second.id);
    assert_eq!(all[1].title, "second");
    assert!(all[1].completed);
}

#[test]
fn test_two_creates_do_not_merge() {
    let mut service = fresh_service();
    let a = service
        .create_todo(CreateTodoDto { title: "alpha".to_string(), completed: false })
        .unwrap();
    let b = service
        .create_todo(CreateTodoDto { title: "beta".to_string(), completed: false })
        .unwrap();
    assert_ne!(a.id, b.id);
    assert_eq!(service.get_todo_by_id(a.id).unwrap().title, "alpha");
    assert_eq!(service.get_todo_by_id(b.id).unwrap().title, "beta");
}

#[test]
fn test_repository_update_without_id_is_storage_fault() {
    let mut repository = TodoRepositoryImpl::new();
    let unsaved = Todo::new("not persisted".to_string()).unwrap();
    assert_eq!(repository.update(&unsaved).unwrap_err(), TodoError::Storage);
}

#[test]
fn test_repository_unresolvable_id_is_storage_fault() {
    let mut repository = TodoRepositoryImpl::new();
    let phantom = Todo::reconstruct(999, "nowhere".to_string(), false);
    assert_eq!(repository.update(&phantom).unwrap_err(), TodoError::Storage);
    assert_eq!(repository.delete(999).unwrap_err(), TodoError::Storage);
}

#[test]
fn test_id_stable_across_operations() {
    let mut service = fresh_service();
    let created = service
        .create_todo(CreateTodoDto { title: "pin".to_string(), completed: false })
        .unwrap();
    let id = created.id;
    assert!(id >= 1);

    assert_eq!(service.get_todo_by_id(id).unwrap().id, id);
    let all = service.get_all_todos().unwrap();
    assert_eq!(all[0].id, id);
    let after_scan = service.get_todo_by_id(id).unwrap();
    assert_eq!(after_scan.id, id);
}
