use todo_list::task::Status;
use todo_list::todo_list::{TodoError, TodoList};

#[test]
fn test_add_task() {
    let mut list = TodoList::new();
    list.add_task("Buy milk".to_string());
    assert_eq!(list.list_tasks().len(), 1);
}

#[test]
fn test_complete_task() {
    let mut list = TodoList::new();
    list.add_task("Buy milk".to_string());
    assert_eq!(list.complete_task(1), Ok(()));
    assert_eq!(list.list_by_status(Status::Done).len(), 1);
}

#[test]
fn todo_list_test_complete_task_not_found() {
    let mut list = TodoList::new();
    assert_eq!(list.complete_task(99), Err(TodoError::TaskNotFound(99)));
}

#[test]
fn test_remove_task() {
    let mut list = TodoList::new();
    list.add_task("Buy milk".to_string());
    assert_eq!(list.remove_task(1), Ok(()));
    assert_eq!(list.list_tasks(), vec!["No tasks".to_string()]);
}

#[test]
fn test_remove_task_not_found() {
    let mut list = TodoList::new();
    assert_eq!(list.remove_task(99), Err(TodoError::TaskNotFound(99)));
}

#[test]
fn todo_list_test_set_in_progress() {
    let mut list = TodoList::new();
    list.add_task("Buy milk".to_string());
    assert_eq!(list.set_in_progress(1), Ok(()));
    assert_eq!(list.list_by_status(Status::InProgress).len(), 1);
}

#[test]
fn test_filter_by_status() {
    let mut list = TodoList::new();
    list.add_task("Task A".to_string());
    list.add_task("Task B".to_string());
    list.complete_task(1).unwrap();
    assert_eq!(list.list_by_status(Status::Done).len(), 1);
    assert_eq!(list.list_by_status(Status::Todo).len(), 1);
}

#[test]
fn test_id_restarts_at_1_when_list_emptied() {
    let mut list = TodoList::new();
    list.add_task("First".to_string());
    list.remove_task(1).unwrap();
    // The list is empty again, so the next task gets id 1 again, not 2.
    list.add_task("Second".to_string());
    assert_eq!(list.list_tasks(), vec!["1 [] Second".to_string()]);
}

#[test]
fn test_id_shrinks_back_when_removing_most_recent_task() {
    let mut list = TodoList::new();
    list.add_task("A".to_string()); // id 1
    list.add_task("B".to_string()); // id 2
    list.remove_task(2).unwrap(); // the most recently numbered one
    list.add_task("C".to_string()); // reuses id 2, does not become 3
    let lines = list.list_tasks();
    assert!(lines.contains(&"1 [] A".to_string()));
    assert!(lines.contains(&"2 [] C".to_string()));
}

#[test]
fn test_id_does_not_shrink_when_removing_a_non_trailing_task() {
    let mut list = TodoList::new();
    list.add_task("A".to_string()); // id 1
    list.add_task("B".to_string()); // id 2
    list.remove_task(1).unwrap(); // the older one, not the last
    list.add_task("C".to_string()); // id 2 is still B's, so this is id 3
    let lines = list.list_tasks();
    assert!(lines.contains(&"2 [] B".to_string()));
    assert!(lines.contains(&"3 [] C".to_string()));
}
