use todo_list::board::Board;
use todo_list::todo_list::TodoError;

#[test]
fn board_test_set_in_progress() {
    let mut board = Board::new();
    let id = board.add_task("Work", "Task".to_string());
    board.set_in_progress(id).unwrap();
    assert!(board.list_tasks("Work")[0].contains("[~]"));
}

#[test]
fn test_add_task_creates_list_and_task() {
    let mut board = Board::new();
    let id = board.add_task("Work", "Write report".to_string());
    assert_eq!(board.list_tasks("Work"), vec![format!("{} [] Write report", id)]);
}

#[test]
fn test_shared_task_completed_in_one_list_shows_in_other() {
    let mut board = Board::new();
    let id = board.add_task("Work", "Shared task".to_string());
    board.assign_task_to_list(id, "Personal").unwrap();

    board.complete_task(id).unwrap();

    // One task held by two lists: both see it done.
    assert!(board.list_tasks("Work")[0].contains("[x]"));
    assert!(board.list_tasks("Personal")[0].contains("[x]"));
}

#[test]
fn board_test_complete_task_not_found() {
    let mut board = Board::new();
    assert_eq!(board.complete_task(99), Err(TodoError::TaskNotFound(99)));
}

#[test]
fn test_id_restarts_at_1_when_registry_emptied() {
    let mut board = Board::new();
    let id = board.add_task("Work", "First".to_string());
    board.remove_task(id).unwrap();
    // The registry is empty again; the next task gets id 1 again.
    let new_id = board.add_task("Work", "Second".to_string());
    assert_eq!(new_id, 1);
}

#[test]
fn test_delete_list_unassigns_and_removes() {
    let mut board = Board::new();
    let shared_id = board.add_task("Work", "Shared task".to_string());
    board.assign_task_to_list(shared_id, "Personal").unwrap();
    let solo_id = board.add_task("Work", "Solo task".to_string());

    board.delete_list("Work").unwrap();

    // The list itself is gone.
    assert!(!board.list_names().contains(&"Work".to_string()));
    // The shared task survives in Personal.
    assert_eq!(board.list_tasks("Personal").len(), 1);
    // The solo task, held by no list any longer, is gone entirely.
    assert_eq!(board.complete_task(solo_id), Err(TodoError::TaskNotFound(solo_id)));
}

#[test]
fn test_delete_list_not_found() {
    let mut board = Board::new();
    assert_eq!(
        board.delete_list("Nonexistent"),
        Err(TodoError::ListNotFound("Nonexistent".to_string()))
    );
}

#[test]
fn test_delete_empty_list() {
    let mut board = Board::new();
    board.create_list("Empty");
    assert!(board.delete_list("Empty").is_ok());
    assert!(!board.list_names().contains(&"Empty".to_string()));
}

#[test]
fn test_remove_from_list_keeps_task_if_still_shared() {
    let mut board = Board::new();
    let id = board.add_task("Work", "Shared task".to_string());
    board.assign_task_to_list(id, "Personal").unwrap();

    board.remove_from_list(id, "Work").unwrap();

    assert_eq!(board.list_tasks("Work").len(), 0);
    assert_eq!(board.list_tasks("Personal").len(), 1);
}

#[test]
fn test_remove_from_list_drops_task_when_last_reference() {
    let mut board = Board::new();
    let id = board.add_task("Work", "Solo task".to_string());

    board.remove_from_list(id, "Work").unwrap();

    // No list holds it any longer, so it is not found.
    assert_eq!(board.complete_task(id), Err(TodoError::TaskNotFound(id)));
}

#[test]
fn test_remove_from_list_not_found() {
    let mut board = Board::new();
    let id = board.add_task("Work", "Task".to_string());
    assert_eq!(board.remove_from_list(id, "Personal"), Err(TodoError::TaskNotFound(id)));
}

#[test]
fn test_remove_task_deletes_everywhere() {
    let mut board = Board::new();
    let id = board.add_task("Work", "Shared task".to_string());
    board.assign_task_to_list(id, "Personal").unwrap();

    board.remove_task(id).unwrap();

    assert_eq!(board.list_tasks("Work").len(), 0);
    assert_eq!(board.list_tasks("Personal").len(), 0);
}

#[test]
fn test_list_names() {
    let mut board = Board::new();
    board.add_task("Work", "Task A".to_string());
    board.add_task("Personal", "Task B".to_string());
    board.create_list("Empty list");

    assert_eq!(
        board.list_names(),
        vec!["Empty list".to_string(), "Personal".to_string(), "Work".to_string()]
    );
}

#[test]
fn test_lists_containing() {
    let mut board = Board::new();
    let id = board.add_task("Work", "Shared task".to_string());
    board.assign_task_to_list(id, "Personal").unwrap();

    let mut lists = board.lists_containing(id);
    lists.sort();
    assert_eq!(lists, vec!["Personal".to_string(), "Work".to_string()]);
}
