//! Properties of the library as a whole: what holds across its operations,
//! stated over the views that their contracts use.
use vstd::prelude::*;

use crate::board::{Board, held_elsewhere, orphans, without_id};
use crate::ids::{ascending, lemma_sorted_ids, sorted_ids};
use crate::task::{Status, TaskView, task_line};
use crate::table::{byte_len, description_width, id_width};
use crate::text::{decimal, digit_char};
use crate::todo_list::{TodoList, TodoListView, has_status, listing, shrunk_next_id};
use crate::words::{all_digits, digit_value, digits_value, is_digit, is_white_space, parse_u32, without_plus};

verus! {

/// A list in a reachable state with no tasks hands out id 1 next: once a
/// list is emptied, numbering starts again at 1.
pub proof fn lemma_empty_list_restarts_at_one(v: TodoListView)
    requires
        v.wf(),
        v.tasks.dom().is_empty(),
    ensures
        v.next_id == 1,
{
    if v.next_id != 1 {
        assert(v.tasks.dom().contains((v.next_id - 1) as u32));
    }
}

/// Removing a task that is not the most recently numbered one leaves the id
/// counter where it was: the next task does not reuse an id below a task
/// that still exists.
pub proof fn lemma_remove_below_top_keeps_counter(v: TodoListView, id: u32)
    requires
        v.wf(),
        v.tasks.contains_key(id),
        id + 1 < v.next_id,
    ensures
        shrunk_next_id(v.next_id, v.tasks.remove(id).dom()) == v.next_id,
{
    assert(v.tasks.remove(id).dom().contains((v.next_id - 1) as u32));
}

/// Removing the most recently numbered task, when the id just below it is in
/// use (or it is id 1), walks the counter back by one: the next task added
/// gets the removed id again.
pub proof fn lemma_remove_top_reuses_its_id(v: TodoListView)
    requires
        v.wf(),
        v.next_id > 1,
        v.next_id == 2 || v.tasks.contains_key((v.next_id - 2) as u32),
    ensures
        shrunk_next_id(v.next_id, v.tasks.remove((v.next_id - 1) as u32).dom()) == v.next_id - 1,
{
    reveal_with_fuel(shrunk_next_id, 2);
    let top = (v.next_id - 1) as u32;
    let rest = v.tasks.remove(top).dom();
    assert(!rest.contains(top));
    if v.next_id > 2 {
        assert(rest.contains((top - 1) as u32));
    }
}

/// The ascending listing of ids holds each id once: its length is the number of ids.
pub proof fn lemma_sorted_ids_len(set: Set<u32>)
    requires
        set.finite(),
    ensures
        sorted_ids(set).len() == set.len(),
{
    lemma_sorted_ids(set);
    let s = sorted_ids(set);
    assert(s.no_duplicates()) by {
        assert forall|i: int, j: int| 0 <= i < s.len() && 0 <= j < s.len() && i != j implies s[i] != s[j] by {
            if i < j {
                assert(s[i] < s[j]);
            } else {
                assert(s[j] < s[i]);
            }
        }
    }
    assert(s.to_set() =~= set);
    s.unique_seq_to_set();
}

proof fn lemma_status_filters_partition(s: Seq<u32>, tasks: Map<u32, TaskView>)
    ensures
        s.filter(has_status(tasks, Status::Todo)).len() + s.filter(has_status(tasks, Status::InProgress)).len()
            + s.filter(has_status(tasks, Status::Done)).len() == s.len(),
    decreases s.len(),
{
    if s.len() > 0 {
        let init = s.drop_last();
        let x = s.last();
        lemma_status_filters_partition(init, tasks);
        assert(s =~= init.push(x));
        init.lemma_filter_push(x, has_status(tasks, Status::Todo));
        init.lemma_filter_push(x, has_status(tasks, Status::InProgress));
        init.lemma_filter_push(x, has_status(tasks, Status::Done));
    } else {
        assert(s.filter(has_status(tasks, Status::Todo)) =~= Seq::<u32>::empty()) by {
            reveal(Seq::filter);
        }
        assert(s.filter(has_status(tasks, Status::InProgress)) =~= Seq::<u32>::empty()) by {
            reveal(Seq::filter);
        }
        assert(s.filter(has_status(tasks, Status::Done)) =~= Seq::<u32>::empty()) by {
            reveal(Seq::filter);
        }
    }
}

/// Filtering by status splits the listing: the lines for `Todo`, for
/// `InProgress` and for `Done` together are as many as there are tasks.
pub proof fn lemma_status_listings_cover_all_tasks(v: TodoListView)
    requires
        v.tasks.dom().finite(),
    ensures
        listing(sorted_ids(v.tasks.dom()).filter(has_status(v.tasks, Status::Todo)), v.tasks).len()
            + listing(sorted_ids(v.tasks.dom()).filter(has_status(v.tasks, Status::InProgress)), v.tasks).len()
            + listing(sorted_ids(v.tasks.dom()).filter(has_status(v.tasks, Status::Done)), v.tasks).len()
            == v.tasks.dom().len(),
{
    lemma_sorted_ids_len(v.tasks.dom());
    lemma_status_filters_partition(sorted_ids(v.tasks.dom()), v.tasks);
}

/// A filtered listing never holds a line that the full listing lacks: each
/// line of a status listing is the line of a task that has that status.
pub proof fn lemma_status_listing_lines(v: TodoListView, status: Status, i: int)
    requires
        0 <= i < sorted_ids(v.tasks.dom()).filter(has_status(v.tasks, status)).len(),
    ensures
        ({
            let id = sorted_ids(v.tasks.dom()).filter(has_status(v.tasks, status))[i];
            &&& v.tasks.contains_key(id)
            &&& v.tasks[id].status == status
            &&& listing(sorted_ids(v.tasks.dom()).filter(has_status(v.tasks, status)), v.tasks)[i]
                == task_line(id, v.tasks[id])
        }),
{
    broadcast use vstd::seq_lib::group_filter_ensures;

    let all = sorted_ids(v.tasks.dom());
    let f = all.filter(has_status(v.tasks, status));
    lemma_sorted_ids(v.tasks.dom());
    assert(f.contains(f[i]));
    all.lemma_filter_contains_rev(has_status(v.tasks, status), f[i]);
    assert(all.contains(f[i]));
}

/// One task, many lists: once a task is marked done, the listing of every
/// list that holds it shows it done.
pub proof fn lemma_done_shows_in_every_list(
    tasks: Map<u32, TaskView>,
    lists: Map<Seq<char>, Set<u32>>,
    id: u32,
    n: Seq<char>,
)
    requires
        tasks.contains_key(id),
        lists.contains_key(n),
        lists[n].contains(id),
    ensures
        ({
            let after = tasks.insert(id, TaskView { status: Status::Done, ..tasks[id] });
            listing(sorted_ids(lists[n].intersect(after.dom())), after).contains(
                task_line(id, TaskView { description: tasks[id].description, status: Status::Done }),
            )
        }),
{
    let after = tasks.insert(id, TaskView { status: Status::Done, ..tasks[id] });
    let held = lists[n].intersect(after.dom());
    lemma_sorted_ids(held);
    let ids = sorted_ids(held);
    assert(ids.contains(id));
    let k = choose|k: int| 0 <= k < ids.len() && ids[k] == id;
    assert(listing(ids, after)[k] == task_line(id, after[id]));
}

/// After a task is removed, no list holds its id.
pub proof fn lemma_removed_task_in_no_list(lists: Map<Seq<char>, Set<u32>>, id: u32, n: Seq<char>)
    requires
        without_id(lists, id).contains_key(n),
    ensures
        !without_id(lists, id)[n].contains(id),
{
}

/// Deleting a list keeps every task that another list holds; only the tasks
/// that the deleted list alone held leave the registry.
pub proof fn lemma_delete_keeps_shared_tasks(
    tasks: Map<u32, TaskView>,
    lists: Map<Seq<char>, Set<u32>>,
    n: Seq<char>,
    id: u32,
)
    requires
        lists.contains_key(n),
        tasks.contains_key(id),
    ensures
        tasks.remove_keys(orphans(lists, n)).contains_key(id) <==> !(lists[n].contains(id)
            && !held_elsewhere(lists, n, id)),
        tasks.remove_keys(orphans(lists, n)).contains_key(id) ==> tasks.remove_keys(orphans(lists, n))[id]
            == tasks[id],
{
}

/// The ascending listing of ids is strictly increasing, so a list's lines
/// come by ascending id with no id twice.
pub proof fn lemma_listing_ascending(set: Set<u32>)
    ensures
        ascending(sorted_ids(set)),
        sorted_ids(set).no_duplicates(),
{
    lemma_sorted_ids(set);
    let s = sorted_ids(set);
    assert forall|i: int, j: int| 0 <= i < s.len() && 0 <= j < s.len() && i != j implies s[i] != s[j] by {
        if i < j {
            assert(s[i] < s[j]);
        } else {
            assert(s[j] < s[i]);
        }
    }
}

proof fn lemma_digit_char(d: nat)
    requires
        d < 10,
    ensures
        is_digit(digit_char(d)),
        digit_value(digit_char(d)) == d,
        !is_white_space(digit_char(d)),
        digit_char(d) != '+',
{
}

/// The decimal notation of `n` is a non-empty string of ASCII digits whose
/// value is `n`.
pub proof fn lemma_decimal_digits(n: nat)
    ensures
        decimal(n).len() > 0,
        all_digits(decimal(n)),
        digits_value(decimal(n)) == n,
        forall|i: int| 0 <= i < decimal(n).len() ==> !is_white_space(#[trigger] decimal(n)[i]),
    decreases n,
{
    let s = decimal(n);
    if n < 10 {
        lemma_digit_char(n);
        assert(s.drop_last() =~= Seq::<char>::empty());
        assert(digits_value(s.drop_last()) == 0);
        assert(digits_value(s) == digits_value(s.drop_last()) * 10 + digit_value(s.last()));
    } else {
        lemma_decimal_digits(n / 10);
        lemma_digit_char(n % 10);
        let t = decimal(n / 10);
        assert(s.drop_last() =~= t);
        assert(s.last() == digit_char(n % 10));
        vstd::arithmetic::div_mod::lemma_fundamental_div_mod(n as int, 10);
        assert(digits_value(s) == digits_value(t) * 10 + digit_value(digit_char(n % 10)));
        assert(digits_value(s) == (n / 10) * 10 + n % 10);
        assert forall|i: int| 0 <= i < s.len() implies is_digit(#[trigger] s[i]) && !is_white_space(s[i]) by {
            if i < t.len() {
                assert(s[i] == t[i]);
            }
        }
    }
}

/// Written in decimal, a number reads back as itself: `str::parse::<u32>`
/// of the text that `{}` prints for `n` gives `n`. So each digit is written
/// as the character of its own value.
pub proof fn lemma_decimal_reads_back(n: u32)
    ensures
        parse_u32(decimal(n as nat)) == Some(n),
{
    lemma_decimal_digits(n as nat);
    let s = decimal(n as nat);
    assert(is_digit(s[0]));
    assert(without_plus(s) == s);
}

/// The description column of a table is as wide as its longest
/// description, and at least 11: every description fits, and the width is 11
/// or the length of some description.
pub proof fn lemma_description_column_fits(rows: Seq<(Seq<char>, Seq<char>, Seq<char>)>)
    ensures
        11 <= description_width(rows),
        forall|i: int| 0 <= i < rows.len() ==> byte_len(#[trigger] rows[i].2) <= description_width(rows),
        description_width(rows) == 11 || exists|i: int|
            0 <= i < rows.len() && description_width(rows) == byte_len(#[trigger] rows[i].2),
    decreases rows.len(),
{
    if rows.len() > 0 {
        let init = rows.drop_last();
        lemma_description_column_fits(init);
        assert forall|i: int| 0 <= i < rows.len() implies byte_len(#[trigger] rows[i].2) <= description_width(
            rows,
        ) by {
            if i < init.len() {
                assert(rows[i] == init[i]);
            }
        }
        if description_width(rows) != 11 {
            if description_width(rows) == byte_len(rows.last().2) {
                assert(rows[rows.len() - 1] == rows.last());
            } else {
                let i = choose|i: int| 0 <= i < init.len() && description_width(init) == byte_len(#[trigger] init[i].2);
                assert(rows[i] == init[i]);
            }
        }
    }
}

/// The id column of a table is as wide as its longest id, and at least 2:
/// every id fits, and the width is 2 or the length of some id.
pub proof fn lemma_id_column_fits(rows: Seq<(Seq<char>, Seq<char>, Seq<char>)>)
    ensures
        2 <= id_width(rows),
        forall|i: int| 0 <= i < rows.len() ==> byte_len(#[trigger] rows[i].0) <= id_width(rows),
        id_width(rows) == 2 || exists|i: int| 0 <= i < rows.len() && id_width(rows) == byte_len(#[trigger] rows[i].0),
    decreases rows.len(),
{
    if rows.len() > 0 {
        let init = rows.drop_last();
        lemma_id_column_fits(init);
        assert forall|i: int| 0 <= i < rows.len() implies byte_len(#[trigger] rows[i].0) <= id_width(rows) by {
            if i < init.len() {
                assert(rows[i] == init[i]);
            }
        }
        if id_width(rows) != 2 {
            if id_width(rows) == byte_len(rows.last().0) {
                assert(rows[rows.len() - 1] == rows.last());
            } else {
                let i = choose|i: int| 0 <= i < init.len() && id_width(init) == byte_len(#[trigger] init[i].0);
                assert(rows[i] == init[i]);
            }
        }
    }
}

/// Storing a list as its entries and counter and building it back gives the
/// same list: [`TodoList::from_parts`] rebuilds what [`TodoList::entries`]
/// and [`TodoList::next_id`] hand out.
pub fn list_round_trip(list: &TodoList) -> (back: TodoList)
    ensures
        back@ == list@,
{
    let entries = list.entries();
    TodoList::from_parts(&entries, list.next_id())
}

/// Storing a board as its task entries, its lists and its counter and
/// building it back gives the same board, sharing included:
/// [`Board::from_parts`] rebuilds what [`Board::task_entries`],
/// [`Board::list_entries`] and [`Board::next_id`] hand out.
pub fn board_round_trip(board: &Board) -> (back: Board)
    requires
        board.wf(),
    ensures
        back.wf(),
        back@ == board@,
{
    let tasks = board.task_entries();
    let lists = board.list_entries();
    Board::from_parts(&tasks, &lists, board.next_id())
}

} // verus!
