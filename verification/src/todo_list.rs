//! A single list of tasks keyed by `u32` ids: [`TodoList`], and the error
//! type [`TodoError`] shared with [`crate::board::Board`].
use std::collections::HashMap;

use vstd::prelude::*;

use crate::ids::{collect_keys, sorted_ids, sort_ids, lemma_sorted_ids};
use crate::task::{Status, Task, TaskView, task_line};
use crate::text::{append_decimal, push_char};

verus! {

broadcast use {vstd::std_specs::hash::group_hash_axioms, vstd::string::group_string_axioms};

/// Errors of the operations on a [`TodoList`] or a [`crate::board::Board`].
#[derive(PartialEq, Debug)]
pub enum TodoError {
    /// No task exists with the given id.
    TaskNotFound(u32),
    /// No list exists with the given name.
    ListNotFound(String),
}

/// The message that describes an error: `task 7 not found`, or
/// `list 'Work' not found`.
pub open spec fn error_message(e: TodoError) -> Seq<char> {
    match e {
        TodoError::TaskNotFound(id) => seq!['t', 'a', 's', 'k', ' '] + crate::text::decimal(id as nat)
            + seq![' ', 'n', 'o', 't', ' ', 'f', 'o', 'u', 'n', 'd'],
        TodoError::ListNotFound(name) => seq!['l', 'i', 's', 't', ' ', '\''] + name@ + seq![
            '\'',
            ' ',
            'n',
            'o',
            't',
            ' ',
            'f',
            'o',
            'u',
            'n',
            'd',
        ],
    }
}

fn append_not_found(s: &mut String)
    ensures
        final(s)@ == old(s)@ + seq![' ', 'n', 'o', 't', ' ', 'f', 'o', 'u', 'n', 'd'],
{
    push_char(s, ' ');
    push_char(s, 'n');
    push_char(s, 'o');
    push_char(s, 't');
    push_char(s, ' ');
    push_char(s, 'f');
    push_char(s, 'o');
    push_char(s, 'u');
    push_char(s, 'n');
    push_char(s, 'd');
    assert(s@ =~= old(s)@ + seq![' ', 'n', 'o', 't', ' ', 'f', 'o', 'u', 'n', 'd']);
}

impl TodoError {
    /// The message that describes this error.
    pub fn message(&self) -> (s: String)
        ensures
            s@ == error_message(*self),
    {
        let mut s = String::new();
        match self {
            TodoError::TaskNotFound(id) => {
                push_char(&mut s, 't');
                push_char(&mut s, 'a');
                push_char(&mut s, 's');
                push_char(&mut s, 'k');
                push_char(&mut s, ' ');
                append_decimal(&mut s, *id);
            },
            TodoError::ListNotFound(name) => {
                push_char(&mut s, 'l');
                push_char(&mut s, 'i');
                push_char(&mut s, 's');
                push_char(&mut s, 't');
                push_char(&mut s, ' ');
                push_char(&mut s, '\'');
                s.append(name.as_str());
                push_char(&mut s, '\'');
            },
        }
        append_not_found(&mut s);
        assert(s@ =~= error_message(*self));
        s
    }
}

/// The lines of a listing: one [`task_line`] per id of `ids`, in that order.
pub open spec fn listing(ids: Seq<u32>, tasks: Map<u32, TaskView>) -> Seq<Seq<char>> {
    ids.map_values(|k: u32| task_line(k, tasks[k]))
}

/// The text of the line that stands for an empty list: `No tasks`.
pub open spec fn no_tasks_text() -> Seq<char> {
    seq!['N', 'o', ' ', 't', 'a', 's', 'k', 's']
}

/// Whether the task with id `k` of `tasks` has the given status.
pub open spec fn has_status(tasks: Map<u32, TaskView>, status: Status) -> spec_fn(u32) -> bool {
    |k: u32| tasks[k].status == status
}

/// The strings of `v`, each taken by its view.
pub open spec fn texts(v: Seq<String>) -> Seq<Seq<char>> {
    v.map_values(|s: String| s@)
}

/// The id that follows a removal: `next_id` walked down over every id below
/// it that no task holds, stopping at 1 or at an id in use.
pub open spec fn shrunk_next_id(next_id: u32, ids: Set<u32>) -> u32
    decreases next_id,
{
    if next_id > 1 && !ids.contains((next_id - 1) as u32) {
        shrunk_next_id((next_id - 1) as u32, ids)
    } else {
        next_id
    }
}

/// The map that entries build when each is inserted in order: where an id
/// comes twice, the later entry stands.
pub open spec fn entries_map(s: Seq<(u32, TaskView)>) -> Map<u32, TaskView>
    decreases s.len(),
{
    if s.len() == 0 {
        Map::empty()
    } else {
        entries_map(s.drop_last()).insert(s.last().0, s.last().1)
    }
}

/// Entries of ids and tasks, each task taken by its view.
pub open spec fn entry_views(s: Seq<(u32, Task)>) -> Seq<(u32, TaskView)> {
    s.map_values(|e: (u32, Task)| (e.0, e.1@))
}

/// The tasks of a map, each taken by its view.
pub open spec fn task_views(m: Map<u32, Task>) -> Map<u32, TaskView> {
    m.map_values(|t: Task| t@)
}

/// The mathematical value of a [`TodoList`]: its tasks by id, and the id that
/// the next added task gets.
pub struct TodoListView {
    pub tasks: Map<u32, TaskView>,
    pub next_id: u32,
}

impl TodoListView {
    /// The states that the operations of [`TodoList`] reach from
    /// [`TodoList::new`]: every id in use lies in `1..next_id`, and
    /// `next_id` is one past the largest id in use (or 1 when there is none).
    pub open spec fn wf(self) -> bool {
        &&& 1 <= self.next_id
        &&& forall|k: u32| #[trigger] self.tasks.contains_key(k) ==> 1 <= k < self.next_id
        &&& (self.next_id == 1 || self.tasks.contains_key((self.next_id - 1) as u32))
    }
}

/// An in-memory collection of tasks, keyed by `u32` ids handed out from a
/// counter. Removing the most recently numbered tasks walks the counter back,
/// so their ids are given out again; an id still in use is never given out.
pub struct TodoList {
    tasks: HashMap<u32, Task>,
    next_id: u32,
}

impl View for TodoList {
    type V = TodoListView;

    closed spec fn view(&self) -> TodoListView {
        TodoListView { tasks: task_views(self.tasks@), next_id: self.next_id }
    }
}

impl TodoList {
    /// A new, empty list. The first task added gets id 1.
    pub fn new() -> (list: TodoList)
        ensures
            list@.tasks == Map::<u32, TaskView>::empty(),
            list@.next_id == 1,
            list@.wf(),
    {
        let list = TodoList { tasks: HashMap::new(), next_id: 1 };
        assert(list@.tasks =~= Map::<u32, TaskView>::empty());
        list
    }

    /// Adds a new task with the given description, in status
    /// [`Status::Todo`], under the id `next_id`; the counter moves on by one.
    pub fn add_task(&mut self, description: String)
        requires
            old(self)@.next_id < u32::MAX,
        ensures
            final(self)@.tasks == old(self)@.tasks.insert(
                old(self)@.next_id,
                TaskView { description: description@, status: Status::Todo },
            ),
            final(self)@.next_id == old(self)@.next_id + 1,
            old(self)@.wf() ==> !old(self)@.tasks.contains_key(old(self)@.next_id),
            old(self)@.wf() ==> final(self)@.wf(),
    {
        let id = self.next_id;
        let ghost desc = description@;
        self.tasks.insert(id, Task::new(description));
        self.next_id = self.next_id + 1;
        assert(self@.tasks =~= old(self)@.tasks.insert(
            id,
            TaskView { description: desc, status: Status::Todo },
        ));
    }

    /// The task with the given id.
    ///
    /// # Errors
    ///
    /// [`TodoError::TaskNotFound`] if no task has that id.
    pub fn get_task(&self, id: u32) -> (r: Result<&Task, TodoError>)
        ensures
            match r {
                Ok(t) => self@.tasks.contains_key(id) && t@ == self@.tasks[id],
                Err(e) => !self@.tasks.contains_key(id) && e == TodoError::TaskNotFound(id),
            },
    {
        match self.tasks.get(&id) {
            Some(t) => Ok(t),
            None => Err(TodoError::TaskNotFound(id)),
        }
    }

    /// Removes the task with the given id, then walks the id counter back over
    /// the ids at its top that no task holds any longer.
    ///
    /// # Errors
    ///
    /// [`TodoError::TaskNotFound`] if no task has that id; the list is then unchanged.
    pub fn remove_task(&mut self, id: u32) -> (r: Result<(), TodoError>)
        ensures
            old(self)@.tasks.contains_key(id) ==> {
                &&& r == Ok::<(), TodoError>(())
                &&& final(self)@.tasks == old(self)@.tasks.remove(id)
                &&& final(self)@.next_id == shrunk_next_id(
                    old(self)@.next_id,
                    final(self)@.tasks.dom(),
                )
            },
            !old(self)@.tasks.contains_key(id) ==> {
                &&& r == Err::<(), TodoError>(TodoError::TaskNotFound(id))
                &&& final(self)@ == old(self)@
            },
            old(self)@.wf() ==> final(self)@.wf(),
    {
        match self.tasks.remove(&id) {
            Some(_) => {
                assert(self@.tasks =~= old(self)@.tasks.remove(id));
                self.shrink_next_id();
                proof {
                    assert(self@.tasks.dom() =~= self.tasks@.dom());
                    if old(self)@.wf() {
                        lemma_shrunk_wf(old(self)@.next_id, self@.tasks);
                    }
                }
                Ok(())
            },
            None => {
                assert(self@.tasks =~= old(self)@.tasks);
                Err(TodoError::TaskNotFound(id))
            },
        }
    }

    /// Walks `next_id` back down over the trailing ids that no task holds.
    fn shrink_next_id(&mut self)
        ensures
            final(self).tasks@ == old(self).tasks@,
            final(self).next_id == shrunk_next_id(old(self).next_id, old(self).tasks@.dom()),
    {
        while self.next_id > 1 && !self.tasks.contains_key(&(self.next_id - 1))
            invariant
                self.tasks@ == old(self).tasks@,
                shrunk_next_id(self.next_id, self.tasks@.dom()) == shrunk_next_id(
                    old(self).next_id,
                    old(self).tasks@.dom(),
                ),
            decreases self.next_id,
        {
            self.next_id = self.next_id - 1;
        }
    }

    /// Marks the task with the given id [`Status::Done`].
    ///
    /// # Errors
    ///
    /// [`TodoError::TaskNotFound`] if no task has that id; the list is then unchanged.
    pub fn complete_task(&mut self, id: u32) -> (r: Result<(), TodoError>)
        ensures
            old(self)@.tasks.contains_key(id) ==> {
                &&& r == Ok::<(), TodoError>(())
                &&& final(self)@.tasks == old(self)@.tasks.insert(
                    id,
                    TaskView { status: Status::Done, ..old(self)@.tasks[id] },
                )
                &&& final(self)@.next_id == old(self)@.next_id
            },
            !old(self)@.tasks.contains_key(id) ==> {
                &&& r == Err::<(), TodoError>(TodoError::TaskNotFound(id))
                &&& final(self)@ == old(self)@
            },
            old(self)@.wf() ==> final(self)@.wf(),
    {
        self.set_status(id, Status::Done)
    }

    /// Marks the task with the given id [`Status::InProgress`].
    ///
    /// # Errors
    ///
    /// [`TodoError::TaskNotFound`] if no task has that id; the list is then unchanged.
    pub fn set_in_progress(&mut self, id: u32) -> (r: Result<(), TodoError>)
        ensures
            old(self)@.tasks.contains_key(id) ==> {
                &&& r == Ok::<(), TodoError>(())
                &&& final(self)@.tasks == old(self)@.tasks.insert(
                    id,
                    TaskView { status: Status::InProgress, ..old(self)@.tasks[id] },
                )
                &&& final(self)@.next_id == old(self)@.next_id
            },
            !old(self)@.tasks.contains_key(id) ==> {
                &&& r == Err::<(), TodoError>(TodoError::TaskNotFound(id))
                &&& final(self)@ == old(self)@
            },
            old(self)@.wf() ==> final(self)@.wf(),
    {
        self.set_status(id, Status::InProgress)
    }

    fn set_status(&mut self, id: u32, status: Status) -> (r: Result<(), TodoError>)
        ensures
            old(self)@.tasks.contains_key(id) ==> {
                &&& r == Ok::<(), TodoError>(())
                &&& final(self)@.tasks == old(self)@.tasks.insert(
                    id,
                    TaskView { status: status, ..old(self)@.tasks[id] },
                )
                &&& final(self)@.next_id == old(self)@.next_id
            },
            !old(self)@.tasks.contains_key(id) ==> {
                &&& r == Err::<(), TodoError>(TodoError::TaskNotFound(id))
                &&& final(self)@ == old(self)@
            },
            old(self)@.wf() ==> final(self)@.wf(),
    {
        match self.tasks.remove(&id) {
            Some(mut task) => {
                task.status = status;
                self.tasks.insert(id, task);
                assert(self@.tasks =~= old(self)@.tasks.insert(
                    id,
                    TaskView { status: status, ..old(self)@.tasks[id] },
                ));
                Ok(())
            },
            None => {
                assert(self@.tasks =~= old(self)@.tasks);
                Err(TodoError::TaskNotFound(id))
            },
        }
    }

    /// A list made of stored parts: the entries, inserted in order (where an
    /// id comes twice the later entry stands), and the id counter as stored.
    pub fn from_parts(entries: &Vec<(u32, Task)>, next_id: u32) -> (list: TodoList)
        ensures
            list@.tasks == entries_map(entry_views(entries@)),
            list@.next_id == next_id,
    {
        let tasks = build_task_map(entries);
        TodoList { tasks, next_id }
    }

    /// The tasks with their ids, by ascending id.
    pub fn entries(&self) -> (entries: Vec<(u32, Task)>)
        ensures
            entry_views(entries@).map_values(|e: (u32, TaskView)| e.0) == sorted_ids(self@.tasks.dom()),
            entries_map(entry_views(entries@)) == self@.tasks,
    {
        let ids = sort_ids(&collect_keys(&self.tasks));
        proof {
            assert(self.tasks@.dom() =~= self@.tasks.dom());
            lemma_sorted_ids(self@.tasks.dom());
            assert forall|j: int| 0 <= j < ids@.len() implies task_views(self.tasks@).contains_key(
                #[trigger] ids@[j],
            ) by {
                assert(ids@.contains(ids@[j]));
            }
        }
        task_entries(&self.tasks, &ids)
    }

    /// The id that the next added task gets.
    pub fn next_id(&self) -> (n: u32)
        ensures
            n == self@.next_id,
    {
        self.next_id
    }

    /// Every task as a line `"<id> <icon> <description>"`, by ascending id;
    /// for an empty list, the single line `No tasks`.
    pub fn list_tasks(&self) -> (lines: Vec<String>)
        ensures
            self@.tasks.dom().is_empty() ==> texts(lines@) == seq![no_tasks_text()],
            !self@.tasks.dom().is_empty() ==> texts(lines@) == listing(
                sorted_ids(self@.tasks.dom()),
                self@.tasks,
            ),
    {
        if self.tasks.is_empty() {
            let mut lines: Vec<String> = Vec::new();
            lines.push(String::from_str("No tasks"));
            proof {
                reveal_strlit("No tasks");
                assert("No tasks"@ =~= no_tasks_text());
                assert(self@.tasks.dom() =~= Set::<u32>::empty());
                assert(texts(lines@) =~= seq![no_tasks_text()]);
            }
            return lines;
        }
        let ids = sort_ids(&collect_keys(&self.tasks));
        proof {
            assert(self.tasks@.dom() =~= self@.tasks.dom());
            lemma_sorted_ids(self@.tasks.dom());
            assert forall|j: int| 0 <= j < ids@.len() implies self@.tasks.contains_key(
                #[trigger] ids@[j],
            ) by {
                assert(ids@.contains(ids@[j]));
            }
        }
        task_lines(&self.tasks, &ids)
    }

    /// The lines of the tasks with the given status, by ascending id: the
    /// lines of [`TodoList::list_tasks`] for those tasks. Empty when no task
    /// has that status.
    pub fn list_by_status(&self, status: Status) -> (lines: Vec<String>)
        ensures
            texts(lines@) == listing(
                sorted_ids(self@.tasks.dom()).filter(has_status(self@.tasks, status)),
                self@.tasks,
            ),
    {
        let all = sort_ids(&collect_keys(&self.tasks));
        proof {
            assert(self.tasks@.dom() =~= self@.tasks.dom());
            lemma_sorted_ids(self@.tasks.dom());
        }
        let ghost pred = has_status(self@.tasks, status);
        let mut chosen: Vec<u32> = Vec::new();
        let mut i: usize = 0;
        while i < all.len()
            invariant
                i <= all.len(),
                all@ == sorted_ids(self@.tasks.dom()),
                forall|k: u32| #[trigger] all@.contains(k) ==> self@.tasks.contains_key(k),
                pred == has_status(self@.tasks, status),
                chosen@ == all@.take(i as int).filter(pred),
                forall|j: int| 0 <= j < chosen@.len() ==> self@.tasks.contains_key(#[trigger] chosen@[j]),
            decreases all.len() - i,
        {
            let id = all[i];
            assert(all@.contains(id));
            proof {
                assert(all@.take(i + 1) =~= all@.take(i as int).push(id));
                all@.take(i as int).lemma_filter_push(id, pred);
            }
            match self.tasks.get(&id) {
                Some(t) => {
                    if t.status == status {
                        chosen.push(id);
                    }
                },
                None => {},
            }
            i = i + 1;
        }
        proof {
            assert(all@.take(all.len() as int) =~= all@);
        }
        task_lines(&self.tasks, &chosen)
    }
}

/// The lines of the tasks with the given ids, in that order.
pub(crate) fn task_lines(tasks: &HashMap<u32, Task>, ids: &Vec<u32>) -> (lines: Vec<String>)
    requires
        forall|j: int| 0 <= j < ids@.len() ==> task_views(tasks@).contains_key(#[trigger] ids@[j]),
    ensures
        texts(lines@) == listing(ids@, task_views(tasks@)),
{
    let mut lines: Vec<String> = Vec::new();
    let mut i: usize = 0;
    while i < ids.len()
        invariant
            i <= ids.len(),
            forall|j: int| 0 <= j < ids@.len() ==> task_views(tasks@).contains_key(#[trigger] ids@[j]),
            texts(lines@) == listing(ids@.take(i as int), task_views(tasks@)),
        decreases ids.len() - i,
    {
        let id = ids[i];
        assert(task_views(tasks@).contains_key(ids@[i as int]));
        let ghost before = lines@;
        match tasks.get(&id) {
            Some(t) => {
                assert(task_views(tasks@)[id] == t@);
                let line = t.line(id);
                lines.push(line);
                assert(lines@ == before.push(line));
                assert(texts(lines@) =~= texts(before).push(task_line(id, task_views(tasks@)[id])));
            },
            None => {
                assert(false);
            },
        }
        assert(listing(ids@.take(i + 1), task_views(tasks@)) =~= listing(ids@.take(i as int), task_views(tasks@)).push(
            task_line(id, task_views(tasks@)[id]),
        ));
        assert(texts(lines@) =~= listing(ids@.take(i + 1), task_views(tasks@)));
        i = i + 1;
    }
    assert(ids@.take(i as int) =~= ids@);
    lines
}

/// The map of the given entries, inserted in order.
pub(crate) fn build_task_map(entries: &Vec<(u32, Task)>) -> (m: HashMap<u32, Task>)
    ensures
        task_views(m@) == entries_map(entry_views(entries@)),
{
    let mut m: HashMap<u32, Task> = HashMap::new();
    let mut i: usize = 0;
    proof {
        assert(task_views(m@) =~= entries_map(entry_views(entries@).take(0)));
    }
    while i < entries.len()
        invariant
            i <= entries@.len(),
            task_views(m@) == entries_map(entry_views(entries@).take(i as int)),
        decreases entries.len() - i,
    {
        let id = entries[i].0;
        let t = entries[i].1.copy();
        let ghost tv = t@;
        m.insert(id, t);
        proof {
            let all = entry_views(entries@);
            assert(all.take(i + 1).drop_last() =~= all.take(i as int));
            assert(all.take(i + 1).last() == (id, tv));
            assert(task_views(m@) =~= entries_map(all.take(i + 1)));
        }
        i = i + 1;
    }
    assert(entry_views(entries@).take(i as int) =~= entry_views(entries@));
    m
}

proof fn lemma_entries_map_distinct(s: Seq<(u32, TaskView)>)
    ensures
        forall|k: u32| #[trigger] entries_map(s).contains_key(k) <==> exists|j: int| 0 <= j < s.len() && s[j].0 == k,
    decreases s.len(),
{
    if s.len() > 0 {
        lemma_entries_map_distinct(s.drop_last());
        assert forall|k: u32| #[trigger] entries_map(s).contains_key(k) <==> exists|j: int| 0 <= j < s.len() && s[j].0 == k by {
            let init = s.drop_last();
            if entries_map(s).contains_key(k) && k != s.last().0 {
                assert(entries_map(init).contains_key(k));
                let j = choose|j: int| 0 <= j < init.len() && init[j].0 == k;
                assert(init[j] == s[j]);
            }
            if entries_map(s).contains_key(k) && k == s.last().0 {
                assert(s[s.len() - 1].0 == k);
            }
            if exists|j: int| 0 <= j < s.len() && s[j].0 == k {
                let j = choose|j: int| 0 <= j < s.len() && s[j].0 == k;
                if j < s.len() - 1 {
                    assert(init[j] == s[j]);
                    assert(init[j].0 == k);
                    assert(entries_map(init).contains_key(k));
                }
            }
        }
    }
}

/// The entries of the given ids, in that order, with copies of their tasks.
pub(crate) fn task_entries(tasks: &HashMap<u32, Task>, ids: &Vec<u32>) -> (entries: Vec<(u32, Task)>)
    requires
        forall|j: int| 0 <= j < ids@.len() ==> task_views(tasks@).contains_key(#[trigger] ids@[j]),
        forall|k: u32| task_views(tasks@).contains_key(k) ==> #[trigger] ids@.contains(k),
    ensures
        entry_views(entries@).map_values(|e: (u32, TaskView)| e.0) == ids@,
        entries_map(entry_views(entries@)) == task_views(tasks@),
{
    let mut entries: Vec<(u32, Task)> = Vec::new();
    let mut i: usize = 0;
    while i < ids.len()
        invariant
            i <= ids@.len(),
            forall|j: int| 0 <= j < ids@.len() ==> task_views(tasks@).contains_key(#[trigger] ids@[j]),
            entry_views(entries@).map_values(|e: (u32, TaskView)| e.0) == ids@.take(i as int),
            forall|j: int| 0 <= j < i ==> #[trigger] entry_views(entries@)[j].1 == task_views(tasks@)[ids@[j]],
            entries@.len() == i,
        decreases ids.len() - i,
    {
        let id = ids[i];
        assert(task_views(tasks@).contains_key(ids@[i as int]));
        match tasks.get(&id) {
            Some(t) => {
                assert(task_views(tasks@)[id] == t@);
                let c = t.copy();
                let ghost before = entries@;
                entries.push((id, c));
                proof {
                    assert forall|j: int| 0 <= j < i + 1 implies #[trigger] entry_views(entries@)[j].1
                        == task_views(tasks@)[ids@[j]] by {
                        if j < i {
                            assert(entries@[j] == before[j]);
                            assert(entry_views(before)[j].1 == task_views(tasks@)[ids@[j]]);
                        }
                    }
                    assert(entry_views(entries@).map_values(|e: (u32, TaskView)| e.0) =~= ids@.take(i + 1));
                }
            },
            None => {
                assert(false);
            },
        }
        i = i + 1;
    }
    proof {
        assert(ids@.take(i as int) =~= ids@);
        let ev = entry_views(entries@);
        lemma_entries_map_values(ev, ids@, task_views(tasks@));
    }
    entries
}

proof fn lemma_entries_map_values(ev: Seq<(u32, TaskView)>, ids: Seq<u32>, m: Map<u32, TaskView>)
    requires
        ev.map_values(|e: (u32, TaskView)| e.0) == ids,
        forall|j: int| 0 <= j < ev.len() ==> #[trigger] ev[j].1 == m[ids[j]],
        forall|j: int| 0 <= j < ids.len() ==> m.contains_key(#[trigger] ids[j]),
        forall|k: u32| m.contains_key(k) ==> #[trigger] ids.contains(k),
    ensures
        entries_map(ev) == m,
{
    lemma_entries_map_sub(ev, ids, m);
    lemma_entries_map_distinct(ev);
    assert forall|k: u32| #[trigger] entries_map(ev).contains_key(k) <==> m.contains_key(k) by {
        if m.contains_key(k) {
            assert(ids.contains(k));
            let j = choose|j: int| 0 <= j < ids.len() && ids[j] == k;
            assert(ev.map_values(|e: (u32, TaskView)| e.0)[j] == k);
            assert(ev[j].0 == k);
        }
        if entries_map(ev).contains_key(k) {
            let j = choose|j: int| 0 <= j < ev.len() && ev[j].0 == k;
            assert(ev.map_values(|e: (u32, TaskView)| e.0)[j] == k);
        }
    }
    assert(entries_map(ev) =~= m);
}

proof fn lemma_entries_map_sub(ev: Seq<(u32, TaskView)>, ids: Seq<u32>, m: Map<u32, TaskView>)
    requires
        ev.map_values(|e: (u32, TaskView)| e.0) == ids,
        forall|j: int| 0 <= j < ev.len() ==> #[trigger] ev[j].1 == m[ids[j]],
    ensures
        forall|k: u32| #[trigger] entries_map(ev).contains_key(k) ==> entries_map(ev)[k] == m[k],
    decreases ev.len(),
{
    if ev.len() > 0 {
        let init = ev.drop_last();
        let ids_init = ids.drop_last();
        assert(init.map_values(|e: (u32, TaskView)| e.0) =~= ids_init);
        assert forall|j: int| 0 <= j < init.len() implies #[trigger] init[j].1 == m[ids_init[j]] by {
            assert(ev[j].1 == m[ids[j]]);
        }
        lemma_entries_map_sub(init, ids_init, m);
        let last = ev.len() - 1;
        assert(ev.map_values(|e: (u32, TaskView)| e.0)[last] == ids[last]);
        assert(ev[last].1 == m[ids[last]]);
        assert forall|k: u32| #[trigger] entries_map(ev).contains_key(k) implies entries_map(ev)[k] == m[k] by {
            assert(entries_map(ev) == entries_map(init).insert(ev[last].0, ev[last].1));
            if k != ev[last].0 {
                assert(entries_map(init).contains_key(k));
            }
        }
    }
}

/// After a removal from a list in its reachable states, walking the counter
/// back gives a reachable state again.
pub proof fn lemma_shrunk_wf(next_id: u32, tasks: Map<u32, TaskView>)
    requires
        1 <= next_id,
        forall|k: u32| #[trigger] tasks.contains_key(k) ==> 1 <= k < next_id,
    ensures
        (TodoListView { tasks, next_id: shrunk_next_id(next_id, tasks.dom()) }).wf(),
    decreases next_id,
{
    if next_id > 1 && !tasks.dom().contains((next_id - 1) as u32) {
        assert forall|k: u32| #[trigger] tasks.contains_key(k) implies 1 <= k < (next_id - 1) as u32 by {
            assert(k != next_id - 1);
        }
        lemma_shrunk_wf((next_id - 1) as u32, tasks);
    }
}

} // verus!
