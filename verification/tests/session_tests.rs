use todo_list::board::Board;
use todo_list::command::{parse_command, Command};
use todo_list::laws::{board_round_trip, list_round_trip};
use todo_list::session::{execute, import_to_board, Reply, Tone};
use todo_list::table::{empty_table_note, table_header};
use todo_list::task::Status;
use todo_list::todo_list::{TodoError, TodoList};

fn strings(v: &[&str]) -> Vec<String> {
    v.iter().map(|s| s.to_string()).collect()
}

fn line(tone: Tone, text: &str) -> Reply {
    Reply::Line(tone, text.to_string())
}

fn run(todo: &mut TodoList, board: &mut Board, input: &str) -> Reply {
    execute(todo, board, parse_command(input))
}

#[test]
fn command_name_ends_at_any_white_space() {
    assert_eq!(parse_command("done\t5"), Command::Done(5));
    assert_eq!(parse_command("add\tbuy milk"), Command::Add("buy milk".to_string()));
    assert_eq!(parse_command("remove\u{3000}2"), Command::Remove(2));
    assert_eq!(parse_command("bcreate\nWork"), Command::BoardCreate("Work".to_string()));
    assert_eq!(parse_command("list"), Command::List);
    assert_eq!(parse_command("\tlist"), Command::Unrecognized(String::new()));
}

#[test]
fn add_refuses_an_empty_description() {
    let mut todo = TodoList::new();
    let mut board = Board::new();
    assert_eq!(run(&mut todo, &mut board, "add"), line(Tone::Failure, "Error: description cannot be empty."));
    assert_eq!(todo.next_id(), 1);
    assert_eq!(run(&mut todo, &mut board, "add Buy milk"), line(Tone::Success, "Task added."));
    assert_eq!(todo.list_tasks(), strings(&["1 [] Buy milk"]));
}

#[test]
fn list_commands_answer_with_messages_and_errors() {
    let mut todo = TodoList::new();
    let mut board = Board::new();
    run(&mut todo, &mut board, "add A");
    run(&mut todo, &mut board, "add B");
    assert_eq!(run(&mut todo, &mut board, "done 1"), line(Tone::Success, "Task 1 marked as done."));
    assert_eq!(
        run(&mut todo, &mut board, "progress 2"),
        line(Tone::Success, "Task 2 marked as in progress.")
    );
    assert_eq!(run(&mut todo, &mut board, "done 9"), line(Tone::Failure, "Error: task 9 not found."));
    assert_eq!(run(&mut todo, &mut board, "remove 2"), line(Tone::Success, "Task 2 removed."));
    assert_eq!(run(&mut todo, &mut board, "remove 2"), line(Tone::Failure, "Error: task 2 not found."));
    assert_eq!(todo.next_id(), 2);
}

#[test]
fn listing_commands_answer_with_tables() {
    let mut todo = TodoList::new();
    let mut board = Board::new();
    assert_eq!(
        run(&mut todo, &mut board, "list"),
        Reply::Tables(vec![("All tasks".to_string(), strings(&["No tasks"]))])
    );
    run(&mut todo, &mut board, "add A");
    run(&mut todo, &mut board, "add B");
    run(&mut todo, &mut board, "done 2");
    assert_eq!(
        run(&mut todo, &mut board, "filter DONE"),
        Reply::Tables(vec![("Filter: [x]".to_string(), strings(&["2 [x] B"]))])
    );
    assert_eq!(
        run(&mut todo, &mut board, "status todo"),
        Reply::Tables(vec![("Filter: []".to_string(), strings(&["1 [] A"]))])
    );
}

#[test]
fn unknown_and_invalid_commands_are_answered() {
    let mut todo = TodoList::new();
    let mut board = Board::new();
    assert_eq!(
        run(&mut todo, &mut board, "fly away"),
        line(Tone::Failure, "Unknown command: 'fly'. Type 'help' for the list.")
    );
    assert_eq!(
        run(&mut todo, &mut board, "done x"),
        line(Tone::Failure, "Invalid argument: done requires a numeric id.")
    );
    assert_eq!(run(&mut todo, &mut board, "help"), Reply::Help);
    assert_eq!(run(&mut todo, &mut board, "quit"), Reply::Quit);
}

#[test]
fn import_moves_a_task_and_keeps_its_status() {
    let mut todo = TodoList::new();
    let mut board = Board::new();
    todo.add_task("Write report".to_string());
    todo.add_task("Call mom".to_string());
    todo.set_in_progress(2).unwrap();
    board.add_task("Home", "Water plants".to_string());
    assert_eq!(import_to_board(&mut todo, &mut board, 2, "Work"), Ok(2));
    assert_eq!(todo.list_tasks(), strings(&["1 [] Write report"]));
    assert_eq!(todo.next_id(), 2);
    assert_eq!(board.list_tasks("Work"), strings(&["2 [~] Call mom"]));
    assert_eq!(board.next_id(), 3);
    assert_eq!(import_to_board(&mut todo, &mut board, 7, "Work"), Err(TodoError::TaskNotFound(7)));
    assert_eq!(board.list_tasks("Work"), strings(&["2 [~] Call mom"]));
}

#[test]
fn bimport_reports_the_new_id() {
    let mut todo = TodoList::new();
    let mut board = Board::new();
    todo.add_task("Write report".to_string());
    assert_eq!(
        run(&mut todo, &mut board, "bimport 1 Work"),
        line(Tone::Success, "Task 1 moved from the base list into 'Work' (new id: 1).")
    );
    assert_eq!(run(&mut todo, &mut board, "bimport 1 Work"), line(Tone::Failure, "Error: task 1 not found."));
    assert_eq!(todo.list_tasks(), strings(&["No tasks"]));
}

#[test]
fn board_commands_answer_with_messages() {
    let mut todo = TodoList::new();
    let mut board = Board::new();
    assert_eq!(run(&mut todo, &mut board, "blists"), line(Tone::Notice, "No lists yet."));
    assert_eq!(run(&mut todo, &mut board, "ball"), line(Tone::Notice, "No lists yet."));
    assert_eq!(run(&mut todo, &mut board, "bcreate Work"), line(Tone::Success, "List 'Work' created."));
    assert_eq!(
        run(&mut todo, &mut board, "badd Home Water plants"),
        line(Tone::Success, "Task 1 added to list 'Home'.")
    );
    assert_eq!(
        run(&mut todo, &mut board, "bassign 1 Work"),
        line(Tone::Success, "Task 1 shared into list 'Work'.")
    );
    assert_eq!(run(&mut todo, &mut board, "bassign 5 Work"), line(Tone::Failure, "Error: task 5 not found."));
    assert_eq!(
        run(&mut todo, &mut board, "bdone 1"),
        line(Tone::Success, "Task 1 marked as done (all lists).")
    );
    assert_eq!(
        run(&mut todo, &mut board, "bprogress 1"),
        line(Tone::Success, "Task 1 marked as in progress (all lists).")
    );
    assert_eq!(run(&mut todo, &mut board, "blists"), line(Tone::Info, "Lists (2): Home, Work"));
    assert_eq!(
        run(&mut todo, &mut board, "ball"),
        Reply::Tables(vec![
            ("Home".to_string(), strings(&["1 [~] Water plants"])),
            ("Work".to_string(), strings(&["1 [~] Water plants"])),
        ])
    );
    assert_eq!(
        run(&mut todo, &mut board, "blist Nope"),
        Reply::Tables(vec![("Nope".to_string(), Vec::new())])
    );
    assert_eq!(
        run(&mut todo, &mut board, "bunassign 1 Home"),
        line(Tone::Success, "Task 1 removed from list 'Home'.")
    );
    assert_eq!(
        run(&mut todo, &mut board, "bunassign 1 Home"),
        line(Tone::Failure, "Error: task 1 not found.")
    );
    assert_eq!(run(&mut todo, &mut board, "bwhere 1"), line(Tone::Info, "Task 1 is in: Work"));
    assert_eq!(
        run(&mut todo, &mut board, "bdelete Home"),
        line(Tone::Success, "List 'Home' deleted (its tasks were unassigned from it).")
    );
    assert_eq!(
        run(&mut todo, &mut board, "bdelete Home"),
        line(Tone::Failure, "Error: list 'Home' not found.")
    );
    assert_eq!(
        run(&mut todo, &mut board, "bremove 1"),
        line(Tone::Success, "Task 1 removed entirely (all lists).")
    );
    assert_eq!(run(&mut todo, &mut board, "bwhere 1"), line(Tone::Notice, "Task 1 is not in any list."));
    assert_eq!(run(&mut todo, &mut board, "bremove 1"), line(Tone::Failure, "Error: task 1 not found."));
}

#[test]
fn bwhere_names_every_list_that_holds_the_task() {
    let mut todo = TodoList::new();
    let mut board = Board::new();
    run(&mut todo, &mut board, "badd Work Ship it");
    run(&mut todo, &mut board, "bassign 1 Home");
    let reply = run(&mut todo, &mut board, "bwhere 1");
    let either = [
        line(Tone::Info, "Task 1 is in: Work, Home"),
        line(Tone::Info, "Task 1 is in: Home, Work"),
    ];
    assert!(either.contains(&reply));
}

#[test]
fn table_header_and_empty_note() {
    assert_eq!(table_header("All tasks", 3), "╭─ All tasks (3) ");
    assert_eq!(table_header("Work", 12), "╭─ Work (12) ");
    assert_eq!(empty_table_note(), "(no tasks)");
}

#[test]
fn rebuilding_from_parts_gives_the_same_list_and_board() {
    let mut todo = TodoList::new();
    todo.add_task("A".to_string());
    todo.add_task("B".to_string());
    todo.add_task("C".to_string());
    todo.complete_task(2).unwrap();
    todo.remove_task(1).unwrap();
    let back = list_round_trip(&todo);
    assert_eq!(back.list_tasks(), todo.list_tasks());
    assert_eq!(back.next_id(), todo.next_id());
    assert_eq!(back.list_by_status(Status::Done), strings(&["2 [x] B"]));

    let mut board = Board::new();
    board.add_task("Work", "Ship".to_string());
    board.add_task("Home", "Cook".to_string());
    board.assign_task_to_list(1, "Home").unwrap();
    board.create_list("Empty");
    let back = board_round_trip(&board);
    assert_eq!(back.list_names(), board.list_names());
    assert_eq!(back.list_tasks("Home"), strings(&["1 [] Ship", "2 [] Cook"]));
    assert_eq!(back.list_tasks("Work"), strings(&["1 [] Ship"]));
    assert_eq!(back.next_id(), 3);
}
