//! What each command does to the list and the board, and what it answers,
//! stated over every state that [`crate::session::execute`] may run on.
use vstd::prelude::*;

use crate::board::{BoardView, held_elsewhere};
use crate::command::CommandView;
use crate::session::{ReplyView, Tone, step};
use crate::task::{Status, TaskView};
use crate::text::decimal;
use crate::todo_list::{TodoListView, lemma_shrunk_wf, shrunk_next_id};

verus! {

/// The single list changed only in the status of task `id`, which becomes
/// `status`; every other task, and the counter, stay as they were.
pub open spec fn only_status_changed(t0: TodoListView, t1: TodoListView, id: u32, status: Status) -> bool {
    &&& t1.tasks.contains_key(id)
    &&& t1.tasks[id].status == status
    &&& t1.tasks[id].description == t0.tasks[id].description
    &&& forall|k: u32| k != id ==> (#[trigger] t1.tasks.contains_key(k) <==> t0.tasks.contains_key(k))
    &&& forall|k: u32| k != id && #[trigger] t0.tasks.contains_key(k) ==> t1.tasks[k] == t0.tasks[k]
    &&& t1.next_id == t0.next_id
}

/// The board changed only in the status of task `id`, which becomes
/// `status`: every other task, every list and the counter stay as they were.
pub open spec fn only_board_status_changed(b0: BoardView, b1: BoardView, id: u32, status: Status) -> bool {
    &&& b1.tasks.contains_key(id)
    &&& b1.tasks[id].status == status
    &&& b1.tasks[id].description == b0.tasks[id].description
    &&& forall|k: u32| k != id ==> (#[trigger] b1.tasks.contains_key(k) <==> b0.tasks.contains_key(k))
    &&& forall|k: u32| k != id && #[trigger] b0.tasks.contains_key(k) ==> b1.tasks[k] == b0.tasks[k]
    &&& b1.lists == b0.lists
    &&& b1.next_id == b0.next_id
}

/// `progress <id>` on a task of the single list marks that task in progress
/// and nothing else, and says so; the board is untouched. On a missing task
/// nothing changes and the reply is a failure.
pub proof fn lemma_progress_marks_in_progress(
    t0: TodoListView,
    b0: BoardView,
    id: u32,
    t1: TodoListView,
    b1: BoardView,
    r: ReplyView,
)
    requires
        step(t0, b0, CommandView::Progress(id), t1, b1, r),
    ensures
        b1 == b0,
        t0.tasks.contains_key(id) ==> only_status_changed(t0, t1, id, Status::InProgress) && r == ReplyView::Line(
            Tone::Success,
            "Task "@ + decimal(id as nat) + " marked as in progress."@,
        ),
        !t0.tasks.contains_key(id) ==> t1 == t0 && r is Line && r->Line_0 == Tone::Failure,
{
}

/// `done <id>` on a task of the single list marks that task done and
/// nothing else, and says so; the board is untouched. On a missing task
/// nothing changes and the reply is a failure.
pub proof fn lemma_done_marks_done(
    t0: TodoListView,
    b0: BoardView,
    id: u32,
    t1: TodoListView,
    b1: BoardView,
    r: ReplyView,
)
    requires
        step(t0, b0, CommandView::Done(id), t1, b1, r),
    ensures
        b1 == b0,
        t0.tasks.contains_key(id) ==> only_status_changed(t0, t1, id, Status::Done) && r == ReplyView::Line(
            Tone::Success,
            "Task "@ + decimal(id as nat) + " marked as done."@,
        ),
        !t0.tasks.contains_key(id) ==> t1 == t0 && r is Line && r->Line_0 == Tone::Failure,
{
}

/// `bprogress <id>` on a board task marks that one task in progress, which
/// every list holding it shows, and says so; the single list is untouched.
pub proof fn lemma_bprogress_marks_in_progress(
    t0: TodoListView,
    b0: BoardView,
    id: u32,
    t1: TodoListView,
    b1: BoardView,
    r: ReplyView,
)
    requires
        step(t0, b0, CommandView::BoardProgress(id), t1, b1, r),
    ensures
        t1 == t0,
        b0.tasks.contains_key(id) ==> only_board_status_changed(b0, b1, id, Status::InProgress) && r
            == ReplyView::Line(Tone::Success, "Task "@ + decimal(id as nat) + " marked as in progress (all lists)."@),
        !b0.tasks.contains_key(id) ==> b1 == b0 && r is Line && r->Line_0 == Tone::Failure,
{
}

/// `bdone <id>` on a board task marks that one task done, which every list
/// holding it shows, and says so; the single list is untouched.
pub proof fn lemma_bdone_marks_done(
    t0: TodoListView,
    b0: BoardView,
    id: u32,
    t1: TodoListView,
    b1: BoardView,
    r: ReplyView,
)
    requires
        step(t0, b0, CommandView::BoardDone(id), t1, b1, r),
    ensures
        t1 == t0,
        b0.tasks.contains_key(id) ==> only_board_status_changed(b0, b1, id, Status::Done) && r == ReplyView::Line(
            Tone::Success,
            "Task "@ + decimal(id as nat) + " marked as done (all lists)."@,
        ),
        !b0.tasks.contains_key(id) ==> b1 == b0 && r is Line && r->Line_0 == Tone::Failure,
{
}

/// `bimport <id> <list>` moves task `id` to the board: the reply names the
/// new id `k`, the board holds the imported task, description and status
/// alike, under exactly that id `k` (an id no task had), list `<list>` holds
/// `k`, and the single list no longer has task `id`.
pub proof fn lemma_bimport_reports_the_id_it_gave(
    t0: TodoListView,
    b0: BoardView,
    id: u32,
    n: Seq<char>,
    t1: TodoListView,
    b1: BoardView,
    r: ReplyView,
)
    requires
        step(t0, b0, CommandView::ImportToBoard(id, n), t1, b1, r),
        t0.tasks.contains_key(id),
        b0.consistent(),
    ensures
        ({
            let k = b0.next_id;
            &&& r == ReplyView::Line(
                Tone::Success,
                "Task "@ + decimal(id as nat) + " moved from the base list into '"@ + n + "' (new id: "@ + decimal(
                    k as nat,
                ) + ")."@,
            )
            &&& !b0.tasks.contains_key(k)
            &&& b1.tasks.contains_key(k)
            &&& b1.tasks[k] == t0.tasks[id]
            &&& b1.lists.contains_key(n) && b1.lists[n].contains(k)
            &&& !t1.tasks.contains_key(id)
        }),
{
}

/// `badd <list> <description>` adds one task: the reply names its id `k`,
/// and the board holds the new task, with that description and status
/// [`Status::Todo`], under exactly that id `k` (an id no task had), in list
/// `<list>`.
pub proof fn lemma_badd_reports_the_id_it_gave(
    t0: TodoListView,
    b0: BoardView,
    n: Seq<char>,
    d: Seq<char>,
    t1: TodoListView,
    b1: BoardView,
    r: ReplyView,
)
    requires
        step(t0, b0, CommandView::BoardAdd(n, d), t1, b1, r),
        b0.consistent(),
    ensures
        ({
            let k = b0.next_id;
            &&& r == ReplyView::Line(Tone::Success, "Task "@ + decimal(k as nat) + " added to list '"@ + n + "'."@)
            &&& !b0.tasks.contains_key(k)
            &&& b1.tasks.contains_key(k)
            &&& b1.tasks[k] == TaskView { description: d, status: Status::Todo }
            &&& b1.lists.contains_key(n) && b1.lists[n].contains(k)
            &&& t1 == t0
        }),
{
}

/// `add <description>` with a non-empty description adds one task with that
/// description in status [`Status::Todo`] under the list's next id (an id no
/// task had) and leaves every other task alone; with an empty one nothing
/// changes and the reply is a failure.
pub proof fn lemma_add_adds_one_task(
    t0: TodoListView,
    b0: BoardView,
    d: Seq<char>,
    t1: TodoListView,
    b1: BoardView,
    r: ReplyView,
)
    requires
        step(t0, b0, CommandView::Add(d), t1, b1, r),
        t0.wf(),
    ensures
        b1 == b0,
        d.len() > 0 ==> {
            &&& !t0.tasks.contains_key(t0.next_id)
            &&& t1.tasks.contains_key(t0.next_id)
            &&& t1.tasks[t0.next_id] == TaskView { description: d, status: Status::Todo }
            &&& forall|k: u32| #[trigger] t0.tasks.contains_key(k) ==> t1.tasks.contains_key(k) && t1.tasks[k]
                == t0.tasks[k]
            &&& t1.tasks.dom() == t0.tasks.dom().insert(t0.next_id)
        },
        d.len() == 0 ==> t1 == t0 && r is Line && r->Line_0 == Tone::Failure,
{
}

/// `remove <id>` takes task `id` out of the single list and keeps every
/// other task as it was; the counter never moves up, and a well-formed list
/// stays well-formed. On a missing task nothing changes.
pub proof fn lemma_remove_takes_out_one_task(
    t0: TodoListView,
    b0: BoardView,
    id: u32,
    t1: TodoListView,
    b1: BoardView,
    r: ReplyView,
)
    requires
        step(t0, b0, CommandView::Remove(id), t1, b1, r),
        t0.wf(),
    ensures
        b1 == b0,
        t1.wf(),
        !t1.tasks.contains_key(id),
        forall|k: u32| k != id ==> (#[trigger] t1.tasks.contains_key(k) <==> t0.tasks.contains_key(k)),
        forall|k: u32| k != id && #[trigger] t0.tasks.contains_key(k) ==> t1.tasks[k] == t0.tasks[k],
        t1.next_id <= t0.next_id,
        !t0.tasks.contains_key(id) ==> t1 == t0 && r is Line && r->Line_0 == Tone::Failure,
        t0.tasks.contains_key(id) ==> r == ReplyView::Line(Tone::Success, "Task "@ + decimal(id as nat) + " removed."@),
{
    if t0.tasks.contains_key(id) {
        lemma_shrunk_wf(t0.next_id, t1.tasks);
        lemma_shrunk_not_above(t0.next_id, t1.tasks.dom());
    }
}

proof fn lemma_shrunk_not_above(next_id: u32, ids: Set<u32>)
    ensures
        shrunk_next_id(next_id, ids) <= next_id,
    decreases next_id,
{
    if next_id > 1 && !ids.contains((next_id - 1) as u32) {
        lemma_shrunk_not_above((next_id - 1) as u32, ids);
    }
}

/// `bremove <id>` takes task `id` out of the registry and out of every list,
/// and keeps every other task and every other membership as they were.
pub proof fn lemma_bremove_takes_the_task_out_of_every_list(
    t0: TodoListView,
    b0: BoardView,
    id: u32,
    t1: TodoListView,
    b1: BoardView,
    r: ReplyView,
)
    requires
        step(t0, b0, CommandView::BoardRemove(id), t1, b1, r),
        b0.consistent(),
    ensures
        t1 == t0,
        !b1.tasks.contains_key(id),
        forall|n: Seq<char>| #[trigger] b1.lists.contains_key(n) ==> !b1.lists[n].contains(id),
        forall|k: u32| k != id ==> (#[trigger] b1.tasks.contains_key(k) <==> b0.tasks.contains_key(k)),
        forall|k: u32| k != id && #[trigger] b0.tasks.contains_key(k) ==> b1.tasks[k] == b0.tasks[k],
        b0.tasks.contains_key(id) ==> forall|n: Seq<char>, k: u32|
            k != id ==> (#[trigger] b1.lists.contains_key(n) == b0.lists.contains_key(n) && (b0.lists.contains_key(n)
                ==> (#[trigger] b1.lists[n].contains(k) == b0.lists[n].contains(k)))),
        !b0.tasks.contains_key(id) ==> b1 == b0 && r is Line && r->Line_0 == Tone::Failure,
{
}

/// `bcreate <name>` makes sure list `<name>` exists: a new list starts
/// empty, an existing one keeps what it holds, and nothing else changes.
pub proof fn lemma_bcreate_makes_the_list_exist(
    t0: TodoListView,
    b0: BoardView,
    n: Seq<char>,
    t1: TodoListView,
    b1: BoardView,
    r: ReplyView,
)
    requires
        step(t0, b0, CommandView::BoardCreate(n), t1, b1, r),
    ensures
        t1 == t0,
        b1.tasks == b0.tasks,
        b1.next_id == b0.next_id,
        b1.lists.contains_key(n),
        b0.lists.contains_key(n) ==> b1.lists[n] == b0.lists[n],
        !b0.lists.contains_key(n) ==> b1.lists[n].is_empty(),
        forall|m: Seq<char>| m != n ==> (#[trigger] b1.lists.contains_key(m) <==> b0.lists.contains_key(m)),
        forall|m: Seq<char>| m != n && #[trigger] b0.lists.contains_key(m) ==> b1.lists[m] == b0.lists[m],
        r == ReplyView::Line(Tone::Success, "List '"@ + n + "' created."@),
{
}

/// `bassign <id> <list>` on an existing task puts `id` into list `<list>`
/// (created if needed) besides what it held, and changes nothing else: no
/// task, no other list, not the counter.
pub proof fn lemma_bassign_shares_the_task(
    t0: TodoListView,
    b0: BoardView,
    id: u32,
    n: Seq<char>,
    t1: TodoListView,
    b1: BoardView,
    r: ReplyView,
)
    requires
        step(t0, b0, CommandView::BoardAssign(id, n), t1, b1, r),
    ensures
        t1 == t0,
        b1.tasks == b0.tasks,
        b1.next_id == b0.next_id,
        b0.tasks.contains_key(id) ==> {
            &&& b1.lists.contains_key(n)
            &&& b1.lists[n].contains(id)
            &&& forall|k: u32| k != id ==> (#[trigger] b1.lists[n].contains(k) <==> (b0.lists.contains_key(n)
                && b0.lists[n].contains(k)))
            &&& forall|m: Seq<char>| m != n ==> (#[trigger] b1.lists.contains_key(m) <==> b0.lists.contains_key(m))
            &&& forall|m: Seq<char>| m != n && #[trigger] b0.lists.contains_key(m) ==> b1.lists[m] == b0.lists[m]
            &&& r == ReplyView::Line(Tone::Success, "Task "@ + decimal(id as nat) + " shared into list '"@ + n + "'."@)
        },
        !b0.tasks.contains_key(id) ==> b1 == b0 && r is Line && r->Line_0 == Tone::Failure,
{
}

/// `bunassign <id> <list>` takes `id` out of that one list only; the task
/// itself stays exactly when another list still holds it.
pub proof fn lemma_bunassign_takes_the_task_out_of_one_list(
    t0: TodoListView,
    b0: BoardView,
    id: u32,
    n: Seq<char>,
    t1: TodoListView,
    b1: BoardView,
    r: ReplyView,
)
    requires
        step(t0, b0, CommandView::BoardUnassign(id, n), t1, b1, r),
        b0.consistent(),
    ensures
        t1 == t0,
        b0.lists.contains_key(n) && b0.lists[n].contains(id) ==> {
            &&& b1.lists.contains_key(n)
            &&& !b1.lists[n].contains(id)
            &&& forall|k: u32| k != id ==> (#[trigger] b1.lists[n].contains(k) <==> b0.lists[n].contains(k))
            &&& forall|m: Seq<char>| m != n ==> (#[trigger] b1.lists.contains_key(m) <==> b0.lists.contains_key(m))
            &&& forall|m: Seq<char>| m != n && #[trigger] b0.lists.contains_key(m) ==> b1.lists[m] == b0.lists[m]
            &&& b1.tasks.contains_key(id) <==> held_elsewhere(b0.lists, n, id)
            &&& forall|k: u32| k != id ==> (#[trigger] b1.tasks.contains_key(k) <==> b0.tasks.contains_key(k))
            &&& forall|k: u32| #[trigger] b1.tasks.contains_key(k) ==> b1.tasks[k] == b0.tasks[k]
        },
        !(b0.lists.contains_key(n) && b0.lists[n].contains(id)) ==> b1 == b0 && r is Line && r->Line_0
            == Tone::Failure,
{
    if b0.lists.contains_key(n) && b0.lists[n].contains(id) && held_elsewhere(b0.lists, n, id) {
        let m = choose|m: Seq<char>| #[trigger] b0.lists.contains_key(m) && m != n && b0.lists[m].contains(id);
        assert(b0.tasks.contains_key(id));
    }
}

/// `bdelete <list>` removes that list; a task it held stays exactly when
/// another list still holds it, every other task stays as it was, and every
/// other list is unchanged.
pub proof fn lemma_bdelete_keeps_what_other_lists_hold(
    t0: TodoListView,
    b0: BoardView,
    n: Seq<char>,
    t1: TodoListView,
    b1: BoardView,
    r: ReplyView,
)
    requires
        step(t0, b0, CommandView::BoardDeleteList(n), t1, b1, r),
        b0.lists.contains_key(n),
        b0.consistent(),
    ensures
        t1 == t0,
        !b1.lists.contains_key(n),
        forall|m: Seq<char>| m != n ==> (#[trigger] b1.lists.contains_key(m) <==> b0.lists.contains_key(m)),
        forall|m: Seq<char>| m != n && #[trigger] b0.lists.contains_key(m) ==> b1.lists[m] == b0.lists[m],
        forall|k: u32| #[trigger] b0.tasks.contains_key(k) ==> (b1.tasks.contains_key(k) <==> (!b0.lists[n].contains(
            k) || held_elsewhere(b0.lists, n, k))),
        forall|k: u32| #[trigger] b1.tasks.contains_key(k) ==> b0.tasks.contains_key(k) && b1.tasks[k] == b0.tasks[k],
        r == ReplyView::Line(Tone::Success, "List '"@ + n + "' deleted (its tasks were unassigned from it)."@),
{
}

} // verus!
