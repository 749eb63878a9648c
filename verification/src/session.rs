//! One step of the interactive program: a [`Command`] applied to the single
//! list and the board, and the [`Reply`] that answers it. The program around
//! it reads a line, parses it, calls [`execute`], and shows the reply.
use vstd::prelude::*;

use crate::board::{Board, BoardView, held_elsewhere, ids_of, orphans, without_id};
use crate::command::{Command, CommandView};
use crate::ids::sorted_ids;
use crate::task::{Status, TaskView, status_icon};
use crate::text::{append_count, append_decimal, decimal, text_lt};
use crate::todo_list::{
    TodoError, TodoList, TodoListView, error_message, has_status, listing, no_tasks_text, shrunk_next_id, texts,
};

verus! {

/// How a line of reply is meant: a success, a failure, a notice that nothing
/// is there, or plain information.
#[derive(Clone, Copy, PartialEq, Eq, Debug)]
pub enum Tone {
    Success,
    Failure,
    Notice,
    Info,
}

/// What the program shows after a command.
#[derive(Debug, PartialEq)]
pub enum Reply {
    /// One line of text.
    Line(Tone, String),
    /// Task tables, each a title and the listing lines of its tasks.
    Tables(Vec<(String, Vec<String>)>),
    /// The help menu.
    Help,
    /// Save and leave.
    Quit,
}

/// The mathematical value of a [`Reply`]: the same, with each text taken by its view.
pub enum ReplyView {
    Line(Tone, Seq<char>),
    Tables(Seq<(Seq<char>, Seq<Seq<char>>)>),
    Help,
    Quit,
}

/// A title and its lines, each text taken by its view.
pub open spec fn table_views(t: Seq<(String, Vec<String>)>) -> Seq<(Seq<char>, Seq<Seq<char>>)> {
    t.map_values(|e: (String, Vec<String>)| (e.0@, texts(e.1@)))
}

impl View for Reply {
    type V = ReplyView;

    open spec fn view(&self) -> ReplyView {
        match self {
            Reply::Line(tone, s) => ReplyView::Line(*tone, s@),
            Reply::Tables(t) => ReplyView::Tables(table_views(t@)),
            Reply::Help => ReplyView::Help,
            Reply::Quit => ReplyView::Quit,
        }
    }
}

/// `Task <id><tail>`.
pub open spec fn task_said(id: u32, tail: Seq<char>) -> Seq<char> {
    "Task "@ + decimal(id as nat) + tail
}

/// `List '<name><tail>`.
pub open spec fn list_said(name: Seq<char>, tail: Seq<char>) -> Seq<char> {
    "List '"@ + name + tail
}

/// `Error: <message>.`
pub open spec fn error_line(e: TodoError) -> Seq<char> {
    "Error: "@ + error_message(e) + "."@
}

/// The message of [`TodoError::ListNotFound`] for a list name.
pub open spec fn list_missing(name: Seq<char>) -> Seq<char> {
    seq!['l', 'i', 's', 't', ' ', '\''] + name + seq!['\'', ' ', 'n', 'o', 't', ' ', 'f', 'o', 'u', 'n', 'd']
}

/// Names separated by `, `.
pub open spec fn joined(names: Seq<Seq<char>>) -> Seq<char>
    decreases names.len(),
{
    if names.len() == 0 {
        Seq::empty()
    } else if names.len() == 1 {
        names[0]
    } else {
        joined(names.drop_last()) + ", "@ + names.last()
    }
}

/// The lines that list all tasks of the single list: `No tasks` alone for an
/// empty list.
pub open spec fn list_lines(t: TodoListView) -> Seq<Seq<char>> {
    if t.tasks.dom().is_empty() {
        seq![no_tasks_text()]
    } else {
        listing(sorted_ids(t.tasks.dom()), t.tasks)
    }
}

/// The lines of the tasks of the single list that have the given status.
pub open spec fn status_lines(t: TodoListView, status: Status) -> Seq<Seq<char>> {
    listing(sorted_ids(t.tasks.dom()).filter(has_status(t.tasks, status)), t.tasks)
}

/// The table of a board list: its name as title, and the lines of the tasks
/// it holds (none when there is no such list).
pub open spec fn list_table(b: BoardView, name: Seq<char>) -> (Seq<char>, Seq<Seq<char>>) {
    (
        name,
        if b.lists.contains_key(name) {
            listing(sorted_ids(b.lists[name].intersect(b.tasks.dom())), b.tasks)
        } else {
            Seq::empty()
        },
    )
}

/// `names` holds the names of the lists, each once, in ascending order.
pub open spec fn names_in_order(names: Seq<Seq<char>>, lists: Map<Seq<char>, Set<u32>>) -> bool {
    &&& forall|a: int, b: int| 0 <= a < b < names.len() ==> text_lt(#[trigger] names[a], #[trigger] names[b])
    &&& forall|n: Seq<char>| #[trigger] names.contains(n) <==> lists.contains_key(n)
}

/// The single list after a change of status of task `id`, and the reply.
pub open spec fn list_status_step(
    t0: TodoListView,
    t1: TodoListView,
    id: u32,
    status: Status,
    tail: Seq<char>,
    r: ReplyView,
) -> bool {
    if t0.tasks.contains_key(id) {
        &&& t1.tasks == t0.tasks.insert(id, TaskView { status: status, ..t0.tasks[id] })
        &&& t1.next_id == t0.next_id
        &&& r == ReplyView::Line(Tone::Success, task_said(id, tail))
    } else {
        &&& t1 == t0
        &&& r == ReplyView::Line(Tone::Failure, error_line(TodoError::TaskNotFound(id)))
    }
}

/// The board after a change of status of task `id`, and the reply.
pub open spec fn board_status_step(
    b0: BoardView,
    b1: BoardView,
    id: u32,
    status: Status,
    tail: Seq<char>,
    r: ReplyView,
) -> bool {
    if b0.tasks.contains_key(id) {
        &&& b1.tasks == b0.tasks.insert(id, TaskView { status: status, ..b0.tasks[id] })
        &&& b1.lists == b0.lists
        &&& b1.next_id == b0.next_id
        &&& r == ReplyView::Line(Tone::Success, task_said(id, tail))
    } else {
        &&& b1 == b0
        &&& r == ReplyView::Line(Tone::Failure, error_line(TodoError::TaskNotFound(id)))
    }
}

/// A command that adds a task has an id to give: the counter it draws on is
/// below `u32::MAX`.
pub open spec fn has_room(t: TodoListView, b: BoardView, c: CommandView) -> bool {
    match c {
        CommandView::Add(d) => d.len() > 0 ==> t.next_id < u32::MAX,
        CommandView::ImportToBoard(id, _) => t.tasks.contains_key(id) ==> b.next_id < u32::MAX,
        CommandView::BoardAdd(_, _) => b.next_id < u32::MAX,
        _ => true,
    }
}

/// The commands on the single list: the list after command `c`, and the reply.
/// The board stays as it is.
pub open spec fn list_step(t0: TodoListView, c: CommandView, t1: TodoListView, r: ReplyView) -> bool {
    match c {
        CommandView::Add(d) => if d.len() == 0 {
            &&& t1 == t0
            &&& r == ReplyView::Line(Tone::Failure, "Error: description cannot be empty."@)
        } else {
            &&& t1.tasks == t0.tasks.insert(t0.next_id, TaskView { description: d, status: Status::Todo })
            &&& t1.next_id == t0.next_id + 1
            &&& r == ReplyView::Line(Tone::Success, "Task added."@)
        },
        CommandView::Done(id) => list_status_step(t0, t1, id, Status::Done, " marked as done."@, r),
        CommandView::Progress(id) => list_status_step(
            t0,
            t1,
            id,
            Status::InProgress,
            " marked as in progress."@,
            r,
        ),
        CommandView::Remove(id) => if t0.tasks.contains_key(id) {
            &&& t1.tasks == t0.tasks.remove(id)
            &&& t1.next_id == shrunk_next_id(t0.next_id, t1.tasks.dom())
            &&& r == ReplyView::Line(Tone::Success, task_said(id, " removed."@))
        } else {
            &&& t1 == t0
            &&& r == ReplyView::Line(Tone::Failure, error_line(TodoError::TaskNotFound(id)))
        },
        CommandView::List => t1 == t0 && r == ReplyView::Tables(seq![("All tasks"@, list_lines(t0))]),
        CommandView::Filter(s) => t1 == t0 && r == ReplyView::Tables(
            seq![("Filter: "@ + status_icon(s), status_lines(t0, s))],
        ),
        _ => false,
    }
}

/// The commands on the board: the board after command `c`, and the reply.
/// The single list stays as it is.
pub open spec fn board_step(b0: BoardView, c: CommandView, b1: BoardView, r: ReplyView) -> bool {
    match c {
        CommandView::BoardCreate(n) => {
            &&& b1.lists == (if b0.lists.contains_key(n) {
                b0.lists
            } else {
                b0.lists.insert(n, Set::empty())
            })
            &&& b1.tasks == b0.tasks
            &&& b1.next_id == b0.next_id
            &&& r == ReplyView::Line(Tone::Success, list_said(n, "' created."@))
        },
        CommandView::BoardAdd(n, d) => {
            &&& b1.tasks == b0.tasks.insert(b0.next_id, TaskView { description: d, status: Status::Todo })
            &&& b1.lists == b0.lists.insert(n, ids_of(b0.lists, n).insert(b0.next_id))
            &&& b1.next_id == b0.next_id + 1
            &&& r == ReplyView::Line(Tone::Success, task_said(b0.next_id, " added to list '"@) + n + "'."@)
        },
        CommandView::BoardDone(id) => board_status_step(b0, b1, id, Status::Done, " marked as done (all lists)."@, r),
        CommandView::BoardProgress(id) => board_status_step(
            b0,
            b1,
            id,
            Status::InProgress,
            " marked as in progress (all lists)."@,
            r,
        ),
        CommandView::BoardList(n) => b1 == b0 && r == ReplyView::Tables(seq![list_table(b0, n)]),
        CommandView::BoardAll => b1 == b0 && exists|names: Seq<Seq<char>>|
            {
                &&& names_in_order(names, b0.lists)
                &&& r == (if names.len() == 0 {
                    ReplyView::Line(Tone::Notice, "No lists yet."@)
                } else {
                    ReplyView::Tables(names.map_values(|n: Seq<char>| list_table(b0, n)))
                })
            },
        CommandView::BoardLists => b1 == b0 && exists|names: Seq<Seq<char>>|
            {
                &&& names_in_order(names, b0.lists)
                &&& r == (if names.len() == 0 {
                    ReplyView::Line(Tone::Notice, "No lists yet."@)
                } else {
                    ReplyView::Line(Tone::Info, "Lists ("@ + decimal(names.len()) + "): "@ + joined(names))
                })
            },
        CommandView::BoardAssign(id, n) => if b0.tasks.contains_key(id) {
            &&& b1.lists == b0.lists.insert(n, ids_of(b0.lists, n).insert(id))
            &&& b1.tasks == b0.tasks
            &&& b1.next_id == b0.next_id
            &&& r == ReplyView::Line(Tone::Success, task_said(id, " shared into list '"@) + n + "'."@)
        } else {
            &&& b1 == b0
            &&& r == ReplyView::Line(Tone::Failure, error_line(TodoError::TaskNotFound(id)))
        },
        CommandView::BoardUnassign(id, n) => if b0.lists.contains_key(n) && b0.lists[n].contains(id) {
            &&& b1.lists == b0.lists.insert(n, b0.lists[n].remove(id))
            &&& held_elsewhere(b0.lists, n, id) ==> b1.tasks == b0.tasks && b1.next_id == b0.next_id
            &&& !held_elsewhere(b0.lists, n, id) ==> {
                &&& b1.tasks == b0.tasks.remove(id)
                &&& b1.next_id == (if b1.tasks.dom().is_empty() {
                    1
                } else {
                    b0.next_id
                })
            }
            &&& r == ReplyView::Line(Tone::Success, task_said(id, " removed from list '"@) + n + "'."@)
        } else {
            &&& b1 == b0
            &&& r == ReplyView::Line(Tone::Failure, error_line(TodoError::TaskNotFound(id)))
        },
        CommandView::BoardRemove(id) => if b0.tasks.contains_key(id) {
            &&& b1.tasks == b0.tasks.remove(id)
            &&& b1.lists == without_id(b0.lists, id)
            &&& b1.next_id == (if b1.tasks.dom().is_empty() {
                1
            } else {
                b0.next_id
            })
            &&& r == ReplyView::Line(Tone::Success, task_said(id, " removed entirely (all lists)."@))
        } else {
            &&& b1 == b0
            &&& r == ReplyView::Line(Tone::Failure, error_line(TodoError::TaskNotFound(id)))
        },
        CommandView::BoardDeleteList(n) => if b0.lists.contains_key(n) {
            let gone = orphans(b0.lists, n);
            &&& b1.lists == b0.lists.remove(n)
            &&& b1.tasks == b0.tasks.remove_keys(gone)
            &&& b1.next_id == (if !gone.is_empty() && b1.tasks.dom().is_empty() {
                1
            } else {
                b0.next_id
            })
            &&& r == ReplyView::Line(
                Tone::Success,
                list_said(n, "' deleted (its tasks were unassigned from it)."@),
            )
        } else {
            &&& b1 == b0
            &&& r == ReplyView::Line(Tone::Failure, "Error: "@ + list_missing(n) + "."@)
        },
        CommandView::BoardWhere(id) => b1 == b0 && exists|names: Seq<Seq<char>>|
            {
                &&& names.no_duplicates()
                &&& forall|n: Seq<char>| #[trigger] names.contains(n) <==> (b0.lists.contains_key(n)
                    && b0.lists[n].contains(id))
                &&& r == (if names.len() == 0 {
                    ReplyView::Line(Tone::Notice, task_said(id, " is not in any list."@))
                } else {
                    ReplyView::Line(Tone::Info, task_said(id, " is in: "@) + joined(names))
                })
            },
        _ => false,
    }
}

/// One step of the program: the single list `t0` and the board `b0` after
/// command `c` become `t1` and `b1`, and `r` is the reply.
pub open spec fn step(
    t0: TodoListView,
    b0: BoardView,
    c: CommandView,
    t1: TodoListView,
    b1: BoardView,
    r: ReplyView,
) -> bool {
    match c {
        CommandView::Add(_) | CommandView::Done(_) | CommandView::Remove(_) | CommandView::Progress(_)
        | CommandView::List | CommandView::Filter(_) => b1 == b0 && list_step(t0, c, t1, r),
        CommandView::Help => t1 == t0 && b1 == b0 && r == ReplyView::Help,
        CommandView::Quit => t1 == t0 && b1 == b0 && r == ReplyView::Quit,
        CommandView::Unrecognized(name) => {
            &&& t1 == t0
            &&& b1 == b0
            &&& r == ReplyView::Line(Tone::Failure, "Unknown command: '"@ + name + "'. Type 'help' for the list."@)
        },
        CommandView::InvalidArgument(msg) => {
            &&& t1 == t0
            &&& b1 == b0
            &&& r == ReplyView::Line(Tone::Failure, "Invalid argument: "@ + msg + "."@)
        },
        CommandView::ImportToBoard(id, n) => if t0.tasks.contains_key(id) {
            &&& t1.tasks == t0.tasks.remove(id)
            &&& t1.next_id == shrunk_next_id(t0.next_id, t1.tasks.dom())
            &&& b1.tasks == b0.tasks.insert(b0.next_id, t0.tasks[id])
            &&& b1.lists == b0.lists.insert(n, ids_of(b0.lists, n).insert(b0.next_id))
            &&& b1.next_id == b0.next_id + 1
            &&& r == ReplyView::Line(
                Tone::Success,
                task_said(id, " moved from the base list into '"@) + n + "' (new id: "@ + decimal(
                    b0.next_id as nat,
                ) + ")."@,
            )
        } else {
            &&& t1 == t0
            &&& b1 == b0
            &&& r == ReplyView::Line(Tone::Failure, error_line(TodoError::TaskNotFound(id)))
        },
        _ => t1 == t0 && board_step(b0, c, b1, r),
    }
}

/// Moves task `id` from the single list into the board list named
/// `list_name` (created if needed), keeping its description and status. On
/// the board it gets the board's next id, which is returned; the single list
/// then loses it as [`TodoList::remove_task`] does.
///
/// # Errors
///
/// [`TodoError::TaskNotFound`] if the single list has no task `id`; neither
/// the list nor the board changes.
pub fn import_to_board(todo: &mut TodoList, board: &mut Board, id: u32, list_name: &str) -> (r: Result<
    u32,
    TodoError,
>)
    requires
        old(board).wf(),
        old(todo)@.tasks.contains_key(id) ==> old(board)@.next_id < u32::MAX,
    ensures
        final(board).wf(),
        old(todo)@.tasks.contains_key(id) ==> {
            &&& r == Ok::<u32, TodoError>(old(board)@.next_id)
            &&& final(board)@.tasks == old(board)@.tasks.insert(old(board)@.next_id, old(todo)@.tasks[id])
            &&& final(board)@.lists == old(board)@.lists.insert(
                list_name@,
                ids_of(old(board)@.lists, list_name@).insert(old(board)@.next_id),
            )
            &&& final(board)@.next_id == old(board)@.next_id + 1
            &&& final(todo)@.tasks == old(todo)@.tasks.remove(id)
            &&& final(todo)@.next_id == shrunk_next_id(old(todo)@.next_id, final(todo)@.tasks.dom())
        },
        !old(todo)@.tasks.contains_key(id) ==> {
            &&& r == Err::<u32, TodoError>(TodoError::TaskNotFound(id))
            &&& final(todo)@ == old(todo)@
            &&& final(board)@ == old(board)@
        },
        old(todo)@.wf() ==> final(todo)@.wf(),
        old(board)@.consistent() ==> final(board)@.consistent(),
{
    let task = match todo.get_task(id) {
        Ok(t) => t.copy(),
        Err(e) => return Err(e),
    };
    let new_id = board.add_existing_task(list_name, task);
    let _ = todo.remove_task(id);
    Ok(new_id)
}

/// `Task <id><tail>` as a new string.
fn task_message(id: u32, tail: &str) -> (s: String)
    ensures
        s@ == task_said(id, tail@),
{
    let mut s = String::from_str("Task ");
    append_decimal(&mut s, id);
    s.append(tail);
    s
}

/// `List '<name><tail>` as a new string.
fn list_message(name: &str, tail: &str) -> (s: String)
    ensures
        s@ == list_said(name@, tail@),
{
    let mut s = String::from_str("List '");
    s.append(name);
    s.append(tail);
    s
}

/// The reply to a failed operation: `Error: <message>.`
fn failure(e: &TodoError) -> (r: Reply)
    ensures
        r@ == ReplyView::Line(Tone::Failure, error_line(*e)),
{
    let mut s = String::from_str("Error: ");
    let m = e.message();
    s.append(m.as_str());
    s.append(".");
    Reply::Line(Tone::Failure, s)
}

/// The names separated by `, ` ([`joined`]).
fn join_names(names: &Vec<String>) -> (s: String)
    ensures
        s@ == joined(texts(names@)),
{
    let ghost all = texts(names@);
    let mut s = String::new();
    let mut i: usize = 0;
    while i < names.len()
        invariant
            i <= names@.len(),
            all == texts(names@),
            s@ == joined(all.take(i as int)),
        decreases names.len() - i,
    {
        let ghost before = s@;
        if i > 0 {
            s.append(", ");
        }
        s.append(names[i].as_str());
        proof {
            let t = all.take(i + 1);
            assert(t.drop_last() =~= all.take(i as int));
            assert(t.last() == names@[i as int]@);
            if i == 0 {
                assert(s@ =~= t[0]);
            }
        }
        i = i + 1;
    }
    assert(all.take(i as int) =~= all);
    s
}

/// A reply of one table: the title and the lines.
fn one_table(title: String, lines: Vec<String>) -> (r: Reply)
    ensures
        r@ == ReplyView::Tables(seq![(title@, texts(lines@))]),
{
    let mut tables: Vec<(String, Vec<String>)> = Vec::new();
    tables.push((title, lines));
    proof {
        assert(table_views(tables@) =~= seq![(title@, texts(lines@))]);
    }
    Reply::Tables(tables)
}

/// The names of the board's lists, as [`Board::list_names`] gives them, are
/// in ascending order.
proof fn lemma_names_in_order(names: Seq<String>, lists: Map<Seq<char>, Set<u32>>)
    requires
        forall|a: int, b: int| 0 <= a < b < names.len() ==> text_lt(#[trigger] names[a]@, #[trigger] names[b]@),
        forall|n: Seq<char>| #[trigger] texts(names).contains(n) <==> lists.contains_key(n),
    ensures
        names_in_order(texts(names), lists),
{
    let ns = texts(names);
    assert forall|a: int, b: int| 0 <= a < b < ns.len() implies text_lt(#[trigger] ns[a], #[trigger] ns[b]) by {
        assert(ns[a] == names[a]@);
        assert(ns[b] == names[b]@);
    }
}

/// Every list of the board as a table, by ascending name; a notice when
/// there is no list.
fn board_all(board: &Board) -> (r: Reply)
    requires
        board.wf(),
    ensures
        exists|names: Seq<Seq<char>>|
            {
                &&& names_in_order(names, board@.lists)
                &&& r@ == (if names.len() == 0 {
                    ReplyView::Line(Tone::Notice, "No lists yet."@)
                } else {
                    ReplyView::Tables(names.map_values(|n: Seq<char>| list_table(board@, n)))
                })
            },
{
    let names = board.list_names();
    proof {
        lemma_names_in_order(names@, board@.lists);
    }
    let ghost ns = texts(names@);
    if names.len() == 0 {
        let r = Reply::Line(Tone::Notice, String::from_str("No lists yet."));
        assert(ns.len() == 0);
        assert(names_in_order(ns, board@.lists) && r@ == ReplyView::Line(Tone::Notice, "No lists yet."@));
        return r;
    }
    let mut tables: Vec<(String, Vec<String>)> = Vec::new();
    let mut i: usize = 0;
    while i < names.len()
        invariant
            board.wf(),
            i <= names@.len(),
            ns == texts(names@),
            tables@.len() == i,
            forall|j: int| 0 <= j < i ==> #[trigger] table_views(tables@)[j] == list_table(board@, ns[j]),
        decreases names.len() - i,
    {
        let lines = board.list_tasks(names[i].as_str());
        proof {
            if !board@.lists.contains_key(names@[i as int]@) {
                assert(texts(lines@) =~= Seq::<Seq<char>>::empty());
            }
        }
        let ghost before = tables@;
        tables.push((names[i].clone(), lines));
        proof {
            assert forall|j: int| 0 <= j < i + 1 implies #[trigger] table_views(tables@)[j] == list_table(
                board@,
                ns[j],
            ) by {
                if j < i {
                    assert(tables@[j] == before[j]);
                    assert(table_views(before)[j] == list_table(board@, ns[j]));
                }
            }
        }
        i = i + 1;
    }
    let r = Reply::Tables(tables);
    proof {
        assert(table_views(tables@) =~= ns.map_values(|n: Seq<char>| list_table(board@, n)));
        assert(names_in_order(ns, board@.lists));
    }
    r
}

/// The names of the board's lists on one line; a notice when there is no list.
fn board_lists(board: &Board) -> (r: Reply)
    requires
        board.wf(),
    ensures
        exists|names: Seq<Seq<char>>|
            {
                &&& names_in_order(names, board@.lists)
                &&& r@ == (if names.len() == 0 {
                    ReplyView::Line(Tone::Notice, "No lists yet."@)
                } else {
                    ReplyView::Line(Tone::Info, "Lists ("@ + decimal(names.len()) + "): "@ + joined(names))
                })
            },
{
    let names = board.list_names();
    proof {
        lemma_names_in_order(names@, board@.lists);
    }
    let ghost ns = texts(names@);
    if names.len() == 0 {
        let r = Reply::Line(Tone::Notice, String::from_str("No lists yet."));
        assert(ns.len() == 0);
        assert(names_in_order(ns, board@.lists) && r@ == ReplyView::Line(Tone::Notice, "No lists yet."@));
        return r;
    }
    let mut s = String::from_str("Lists (");
    append_count(&mut s, names.len());
    s.append("): ");
    let j = join_names(&names);
    s.append(j.as_str());
    let r = Reply::Line(Tone::Info, s);
    assert(names_in_order(ns, board@.lists));
    r
}

/// The lists that hold task `id`, on one line; a notice when none does.
fn board_where(board: &Board, id: u32) -> (r: Reply)
    requires
        board.wf(),
    ensures
        exists|names: Seq<Seq<char>>|
            {
                &&& names.no_duplicates()
                &&& forall|n: Seq<char>| #[trigger] names.contains(n) <==> (board@.lists.contains_key(n)
                    && board@.lists[n].contains(id))
                &&& r@ == (if names.len() == 0 {
                    ReplyView::Line(Tone::Notice, task_said(id, " is not in any list."@))
                } else {
                    ReplyView::Line(Tone::Info, task_said(id, " is in: "@) + joined(names))
                })
            },
{
    let names = board.lists_containing(id);
    let ghost ns = texts(names@);
    if names.len() == 0 {
        let r = Reply::Line(Tone::Notice, task_message(id, " is not in any list."));
        assert(ns.no_duplicates());
        return r;
    }
    let mut s = task_message(id, " is in: ");
    let j = join_names(&names);
    s.append(j.as_str());
    let r = Reply::Line(Tone::Info, s);
    assert(ns.no_duplicates());
    r
}

/// Runs one command on the single list and the board, and gives the reply
/// to show ([`step`]). The caller reads the input and shows the reply;
/// [`Reply::Quit`] asks it to save and leave.
pub fn execute(todo: &mut TodoList, board: &mut Board, cmd: Command) -> (reply: Reply)
    requires
        old(board).wf(),
        has_room(old(todo)@, old(board)@, cmd@),
    ensures
        final(board).wf(),
        step(old(todo)@, old(board)@, cmd@, final(todo)@, final(board)@, reply@),
        old(todo)@.wf() ==> final(todo)@.wf(),
        old(board)@.consistent() ==> final(board)@.consistent(),
{
    match cmd {
        Command::Add(desc) => {
            if desc.as_str().is_empty() {
                Reply::Line(Tone::Failure, String::from_str("Error: description cannot be empty."))
            } else {
                todo.add_task(desc);
                Reply::Line(Tone::Success, String::from_str("Task added."))
            }
        },
        Command::Done(id) => match todo.complete_task(id) {
            Ok(()) => Reply::Line(Tone::Success, task_message(id, " marked as done.")),
            Err(e) => failure(&e),
        },
        Command::Remove(id) => match todo.remove_task(id) {
            Ok(()) => Reply::Line(Tone::Success, task_message(id, " removed.")),
            Err(e) => failure(&e),
        },
        Command::Progress(id) => match todo.set_in_progress(id) {
            Ok(()) => Reply::Line(Tone::Success, task_message(id, " marked as in progress.")),
            Err(e) => failure(&e),
        },
        Command::List => {
            let lines = todo.list_tasks();
            one_table(String::from_str("All tasks"), lines)
        },
        Command::Filter(status) => {
            let lines = todo.list_by_status(status);
            let mut title = String::from_str("Filter: ");
            let icon = status.icon();
            title.append(icon.as_str());
            one_table(title, lines)
        },
        Command::Help => Reply::Help,
        Command::Quit => Reply::Quit,
        Command::Unrecognized(name) => {
            let mut s = String::from_str("Unknown command: '");
            s.append(name.as_str());
            s.append("'. Type 'help' for the list.");
            Reply::Line(Tone::Failure, s)
        },
        Command::InvalidArgument(msg) => {
            let mut s = String::from_str("Invalid argument: ");
            s.append(msg.as_str());
            s.append(".");
            Reply::Line(Tone::Failure, s)
        },
        Command::ImportToBoard(id, list_name) => match import_to_board(todo, board, id, list_name.as_str()) {
            Ok(new_id) => {
                let mut s = task_message(id, " moved from the base list into '");
                s.append(list_name.as_str());
                s.append("' (new id: ");
                append_decimal(&mut s, new_id);
                s.append(").");
                Reply::Line(Tone::Success, s)
            },
            Err(e) => failure(&e),
        },
        Command::BoardCreate(list_name) => {
            board.create_list(list_name.as_str());
            Reply::Line(Tone::Success, list_message(list_name.as_str(), "' created."))
        },
        Command::BoardAdd(list_name, desc) => {
            let id = board.add_task(list_name.as_str(), desc);
            let mut s = task_message(id, " added to list '");
            s.append(list_name.as_str());
            s.append("'.");
            Reply::Line(Tone::Success, s)
        },
        Command::BoardDone(id) => match board.complete_task(id) {
            Ok(()) => Reply::Line(Tone::Success, task_message(id, " marked as done (all lists).")),
            Err(e) => failure(&e),
        },
        Command::BoardProgress(id) => match board.set_in_progress(id) {
            Ok(()) => Reply::Line(Tone::Success, task_message(id, " marked as in progress (all lists).")),
            Err(e) => failure(&e),
        },
        Command::BoardList(list_name) => {
            let lines = board.list_tasks(list_name.as_str());
            proof {
                if !board@.lists.contains_key(list_name@) {
                    assert(texts(lines@) =~= Seq::<Seq<char>>::empty());
                }
            }
            one_table(list_name, lines)
        },
        Command::BoardLists => board_lists(board),
        Command::BoardAll => board_all(board),
        Command::BoardAssign(id, list_name) => match board.assign_task_to_list(id, list_name.as_str()) {
            Ok(()) => {
                let mut s = task_message(id, " shared into list '");
                s.append(list_name.as_str());
                s.append("'.");
                Reply::Line(Tone::Success, s)
            },
            Err(e) => failure(&e),
        },
        Command::BoardUnassign(id, list_name) => match board.remove_from_list(id, list_name.as_str()) {
            Ok(()) => {
                let mut s = task_message(id, " removed from list '");
                s.append(list_name.as_str());
                s.append("'.");
                Reply::Line(Tone::Success, s)
            },
            Err(e) => failure(&e),
        },
        Command::BoardRemove(id) => match board.remove_task(id) {
            Ok(()) => Reply::Line(Tone::Success, task_message(id, " removed entirely (all lists).")),
            Err(e) => failure(&e),
        },
        Command::BoardDeleteList(list_name) => match board.delete_list(list_name.as_str()) {
            Ok(()) => Reply::Line(
                Tone::Success,
                list_message(list_name.as_str(), "' deleted (its tasks were unassigned from it)."),
            ),
            Err(e) => failure(&e),
        },
        Command::BoardWhere(id) => board_where(board, id),
    }
}

} // verus!
