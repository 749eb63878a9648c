use todo_list::board::Board;
use todo_list::command::{parse_command, status_word, Command};
use todo_list::table::{border_line, pad_right, parse_task_line, status_cell_text, task_table};
use todo_list::task::{Status, Task};
use todo_list::todo_list::{TodoError, TodoList};

fn strings(v: &[&str]) -> Vec<String> {
    v.iter().map(|s| s.to_string()).collect()
}

#[test]
fn list_lines_show_id_icon_and_description_by_ascending_id() {
    let mut list = TodoList::new();
    for d in ["a", "b", "c", "d", "e", "f", "g", "h", "i", "j", "k"] {
        list.add_task(d.to_string());
    }
    list.complete_task(2).unwrap();
    list.set_in_progress(10).unwrap();
    let lines = list.list_tasks();
    assert_eq!(lines.len(), 11);
    assert_eq!(lines[0], "1 [] a");
    assert_eq!(lines[1], "2 [x] b");
    assert_eq!(lines[9], "10 [~] j");
    assert_eq!(lines[10], "11 [] k");
}

#[test]
fn list_by_status_gives_the_matching_lines_in_order() {
    let mut list = TodoList::new();
    list.add_task("A".to_string());
    list.add_task("B".to_string());
    list.add_task("C".to_string());
    list.complete_task(3).unwrap();
    list.complete_task(1).unwrap();
    assert_eq!(list.list_by_status(Status::Done), strings(&["1 [x] A", "3 [x] C"]));
    assert_eq!(list.list_by_status(Status::Todo), strings(&["2 [] B"]));
    assert_eq!(list.list_by_status(Status::InProgress), Vec::<String>::new());
}

#[test]
fn empty_list_shows_no_tasks_and_filters_to_nothing() {
    let list = TodoList::new();
    assert_eq!(list.list_tasks(), strings(&["No tasks"]));
    assert!(list.list_by_status(Status::Todo).is_empty());
}

#[test]
fn status_counts_add_up_to_the_number_of_tasks() {
    let mut list = TodoList::new();
    for d in ["a", "b", "c", "d", "e"] {
        list.add_task(d.to_string());
    }
    list.complete_task(1).unwrap();
    list.set_in_progress(2).unwrap();
    list.set_in_progress(4).unwrap();
    let total = list.list_by_status(Status::Todo).len()
        + list.list_by_status(Status::InProgress).len()
        + list.list_by_status(Status::Done).len();
    assert_eq!(total, 5);
}

#[test]
fn get_task_finds_and_misses() {
    let mut list = TodoList::new();
    list.add_task("Buy milk".to_string());
    let t = list.get_task(1).unwrap();
    assert_eq!(t.description, "Buy milk");
    assert_eq!(t.status, Status::Todo);
    assert!(matches!(list.get_task(2), Err(TodoError::TaskNotFound(2))));
}

#[test]
fn set_in_progress_of_missing_task_fails() {
    let mut list = TodoList::new();
    assert_eq!(list.set_in_progress(3), Err(TodoError::TaskNotFound(3)));
}

#[test]
fn counter_walks_back_over_every_trailing_gap() {
    let mut list = TodoList::new();
    list.add_task("A".to_string());
    list.add_task("B".to_string());
    list.add_task("C".to_string());
    list.remove_task(2).unwrap();
    assert_eq!(list.next_id(), 4);
    list.remove_task(3).unwrap();
    // ids 3 and 2 are both free now: the counter walks back to 2.
    assert_eq!(list.next_id(), 2);
    list.add_task("D".to_string());
    assert_eq!(list.list_tasks(), strings(&["1 [] A", "2 [] D"]));
}

#[test]
fn error_messages() {
    assert_eq!(TodoError::TaskNotFound(42).message(), "task 42 not found");
    assert_eq!(TodoError::ListNotFound("Work".to_string()).message(), "list 'Work' not found");
}

#[test]
fn task_text_and_icons() {
    let mut t = Task::new("Write".to_string());
    assert_eq!(t.text(), "[] Write");
    t.status = Status::InProgress;
    assert_eq!(t.text(), "[~] Write");
    assert_eq!(t.line(4294967295), "4294967295 [~] Write");
    assert_eq!(Status::Done.icon(), "[x]");
    assert_eq!(Status::Todo.icon(), "[]");
    assert_eq!(t.copy().text(), t.text());
}

#[test]
fn todo_list_parts_round_trip() {
    let mut list = TodoList::new();
    list.add_task("A".to_string());
    list.add_task("B".to_string());
    list.complete_task(2).unwrap();
    let entries = list.entries();
    assert_eq!(entries.len(), 2);
    assert_eq!(entries[0].0, 1);
    assert_eq!(entries[1].0, 2);
    let copy = TodoList::from_parts(&entries, list.next_id());
    assert_eq!(copy.list_tasks(), list.list_tasks());
    assert_eq!(copy.next_id(), 3);
}

#[test]
fn from_parts_keeps_the_later_of_two_entries() {
    let entries = vec![(1, Task::new("old".to_string())), (1, Task::new("new".to_string()))];
    let list = TodoList::from_parts(&entries, 2);
    assert_eq!(list.list_tasks(), strings(&["1 [] new"]));
}

#[test]
fn board_lists_sort_ids_numerically() {
    let mut board = Board::new();
    for i in 0..10 {
        board.add_task("Other", format!("t{}", i));
    }
    let id = board.add_task("Work", "eleventh".to_string());
    board.assign_task_to_list(2, "Work").unwrap();
    assert_eq!(id, 11);
    assert_eq!(board.list_tasks("Work"), strings(&["2 [] t1", "11 [] eleventh"]));
}

#[test]
fn board_add_existing_task_keeps_status() {
    let mut board = Board::new();
    let mut t = Task::new("Carry over".to_string());
    t.status = Status::InProgress;
    let id = board.add_existing_task("Work", t);
    assert_eq!(board.list_tasks("Work"), vec![format!("{} [~] Carry over", id)]);
}

#[test]
fn board_assign_missing_task_fails() {
    let mut board = Board::new();
    assert_eq!(board.assign_task_to_list(5, "Work"), Err(TodoError::TaskNotFound(5)));
    assert!(board.list_names().is_empty());
}

#[test]
fn board_unknown_list_is_empty_and_create_is_idempotent() {
    let mut board = Board::new();
    assert!(board.list_tasks("Nowhere").is_empty());
    let id = board.add_task("Work", "x".to_string());
    board.create_list("Work");
    assert_eq!(board.list_tasks("Work").len(), 1);
    assert_eq!(board.lists_containing(id), strings(&["Work"]));
    assert!(board.lists_containing(id + 1).is_empty());
}

#[test]
fn board_set_in_progress_missing_fails() {
    let mut board = Board::new();
    assert_eq!(board.set_in_progress(1), Err(TodoError::TaskNotFound(1)));
    assert_eq!(board.remove_task(1), Err(TodoError::TaskNotFound(1)));
}

#[test]
fn board_delete_last_list_restarts_numbering() {
    let mut board = Board::new();
    board.add_task("Work", "a".to_string());
    board.add_task("Work", "b".to_string());
    board.delete_list("Work").unwrap();
    assert_eq!(board.next_id(), 1);
    assert_eq!(board.add_task("Home", "c".to_string()), 1);
}

#[test]
fn board_remove_from_list_keeps_counter_while_tasks_remain() {
    let mut board = Board::new();
    board.add_task("Work", "a".to_string());
    let b = board.add_task("Work", "b".to_string());
    board.remove_from_list(b, "Work").unwrap();
    assert_eq!(board.next_id(), 3);
}

#[test]
fn board_parts_round_trip() {
    let mut board = Board::new();
    let a = board.add_task("Work", "a".to_string());
    board.assign_task_to_list(a, "Home").unwrap();
    board.add_task("Home", "b".to_string());
    board.create_list("Empty");
    board.complete_task(a).unwrap();
    let tasks = board.task_entries();
    let lists = board.list_entries();
    let mut copy = Board::from_parts(&tasks, &lists, board.next_id());
    assert_eq!(copy.list_names(), board.list_names());
    assert_eq!(copy.list_tasks("Home"), board.list_tasks("Home"));
    assert_eq!(copy.list_tasks("Work"), board.list_tasks("Work"));
    copy.set_in_progress(a).unwrap();
    assert!(copy.list_tasks("Work")[0].contains("[~]"));
    assert!(copy.list_tasks("Home")[0].contains("[~]"));
}

#[test]
fn board_list_names_sort_by_code_point() {
    let mut board = Board::new();
    board.create_list("b");
    board.create_list("B");
    board.create_list("ab");
    board.create_list("a");
    board.create_list("\u{e9}");
    assert_eq!(board.list_names(), strings(&["B", "a", "ab", "b", "\u{e9}"]));
}

#[test]
fn parse_simple_commands() {
    assert_eq!(parse_command("add Buy milk"), Command::Add("Buy milk".to_string()));
    assert_eq!(parse_command("add"), Command::Add(String::new()));
    assert_eq!(parse_command("add   spaced out  "), Command::Add("spaced out".to_string()));
    assert_eq!(parse_command("list"), Command::List);
    assert_eq!(parse_command("quit"), Command::Quit);
    assert_eq!(parse_command("help"), Command::Help);
    assert_eq!(parse_command("?"), Command::Help);
    assert_eq!(parse_command("blists"), Command::BoardLists);
    assert_eq!(parse_command("ball"), Command::BoardAll);
    assert_eq!(parse_command("frobnicate now"), Command::Unrecognized("frobnicate".to_string()));
    assert_eq!(parse_command(""), Command::Unrecognized(String::new()));
    assert_eq!(parse_command(" add x"), Command::Unrecognized(String::new()));
}

#[test]
fn parse_numeric_arguments() {
    assert_eq!(parse_command("done 3"), Command::Done(3));
    assert_eq!(parse_command("done  \t7 \n"), Command::Done(7));
    assert_eq!(parse_command("remove +12"), Command::Remove(12));
    assert_eq!(parse_command("progress 007"), Command::Progress(7));
    assert_eq!(parse_command("bdone 4294967295"), Command::BoardDone(4294967295));
    assert_eq!(
        parse_command("bdone 4294967296"),
        Command::InvalidArgument("bdone requires a numeric id".to_string())
    );
    assert_eq!(
        parse_command("done -1"),
        Command::InvalidArgument("done requires a numeric id".to_string())
    );
    assert_eq!(
        parse_command("remove"),
        Command::InvalidArgument("remove requires a numeric id".to_string())
    );
    assert_eq!(
        parse_command("progress +"),
        Command::InvalidArgument("progress requires a numeric id".to_string())
    );
    assert_eq!(parse_command("bprogress 1"), Command::BoardProgress(1));
    assert_eq!(parse_command("bremove 2"), Command::BoardRemove(2));
    assert_eq!(parse_command("bwhere 9"), Command::BoardWhere(9));
    assert_eq!(
        parse_command("bwhere x"),
        Command::InvalidArgument("bwhere requires a numeric id".to_string())
    );
}

#[test]
fn parse_filter_words() {
    assert_eq!(parse_command("filter todo"), Command::Filter(Status::Todo));
    assert_eq!(parse_command("filter DONE"), Command::Filter(Status::Done));
    assert_eq!(parse_command("status InProgress"), Command::Filter(Status::InProgress));
    assert_eq!(parse_command("status progress"), Command::Filter(Status::InProgress));
    assert_eq!(
        parse_command("filter later"),
        Command::InvalidArgument("filter requires: todo | done | inprogress".to_string())
    );
    assert_eq!(status_word("done"), Some(Status::Done));
    assert_eq!(status_word("Done"), None);
}

#[test]
fn parse_board_commands() {
    assert_eq!(parse_command("bcreate Work"), Command::BoardCreate("Work".to_string()));
    assert_eq!(
        parse_command("bcreate"),
        Command::InvalidArgument("bcreate requires: <list>".to_string())
    );
    assert_eq!(
        parse_command("badd Work Write the report"),
        Command::BoardAdd("Work".to_string(), "Write the report".to_string())
    );
    assert_eq!(
        parse_command("badd Work"),
        Command::InvalidArgument("badd requires: <list> <description>".to_string())
    );
    assert_eq!(parse_command("blist Home"), Command::BoardList("Home".to_string()));
    assert_eq!(
        parse_command("blist   "),
        Command::InvalidArgument("blist requires: <list>".to_string())
    );
    assert_eq!(parse_command("bassign 3 Home"), Command::BoardAssign(3, "Home".to_string()));
    assert_eq!(
        parse_command("bassign 3"),
        Command::InvalidArgument("bassign requires: <id> <list>".to_string())
    );
    assert_eq!(parse_command("bunassign 1 Work"), Command::BoardUnassign(1, "Work".to_string()));
    assert_eq!(
        parse_command("bunassign x Work"),
        Command::InvalidArgument("bunassign requires: <id> <list>".to_string())
    );
    assert_eq!(parse_command("bimport 2 My list"), Command::ImportToBoard(2, "My list".to_string()));
    assert_eq!(
        parse_command("bimport"),
        Command::InvalidArgument("bimport requires: <id> <list>".to_string())
    );
    assert_eq!(parse_command("bdelete Old"), Command::BoardDeleteList("Old".to_string()));
    assert_eq!(
        parse_command("bdelete"),
        Command::InvalidArgument("bdelete requires: <list>".to_string())
    );
}

#[test]
fn parse_task_lines_back() {
    assert_eq!(
        parse_task_line("12 [x] Buy milk"),
        Some(("12".to_string(), "[x]".to_string(), "Buy milk".to_string()))
    );
    assert_eq!(parse_task_line("3 []"), Some(("3".to_string(), "[]".to_string(), String::new())));
    assert_eq!(parse_task_line("No tasks"), None);
    assert_eq!(parse_task_line("7"), None);
    assert_eq!(parse_task_line("7 [?] what"), None);
}

#[test]
fn table_rows_and_widths() {
    let lines = strings(&["1 [] short", "No tasks", "123 [~] a rather long description"]);
    let t = task_table(&lines);
    assert_eq!(t.rows.len(), 2);
    assert_eq!(t.rows[1].id, "123");
    assert_eq!(t.rows[1].icon, "[~]");
    assert_eq!(t.id_width, 3);
    assert_eq!(t.description_width, "a rather long description".len());
    let empty = task_table(&strings(&["1 [] é"]));
    assert_eq!(empty.id_width, 2);
    assert_eq!(empty.description_width, 11);
}

#[test]
fn cells_and_borders() {
    assert_eq!(pad_right("ID", 4), "ID  ");
    assert_eq!(pad_right("toolong", 3), "toolong");
    assert_eq!(pad_right("é", 3), "é  ");
    assert_eq!(status_cell_text("[x]"), "[x] Done ");
    assert_eq!(status_cell_text("[~]"), "[~] Doing");
    assert_eq!(status_cell_text("[]"), "[ ] Todo ");
    assert_eq!(
        border_line('\u{256D}', '\u{252C}', '\u{256E}', 2, 11),
        format!("╭{}┬{}┬{}╮", "─".repeat(4), "─".repeat(11), "─".repeat(13))
    );
}
