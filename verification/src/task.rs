//! The task model: a [`Status`], a [`Task`] with its description, and the
//! text by which a task is shown.
use vstd::prelude::*;

use crate::text::{append_decimal, decimal, push_char};

verus! {

/// Progress of a task.
#[derive(Clone, Copy, PartialEq, Eq, Debug, Structural)]
pub enum Status {
    Todo,
    InProgress,
    Done,
}

/// One task: what is to be done and how far along it is.
#[derive(Clone, Debug)]
pub struct Task {
    pub description: String,
    pub status: Status,
}

/// The mathematical value of a [`Task`].
pub struct TaskView {
    pub description: Seq<char>,
    pub status: Status,
}

impl View for Task {
    type V = TaskView;

    open spec fn view(&self) -> TaskView {
        TaskView { description: self.description@, status: self.status }
    }
}

/// The icon that shows a status: `[]`, `[~]` or `[x]`.
pub open spec fn status_icon(status: Status) -> Seq<char> {
    match status {
        Status::Todo => seq!['[', ']'],
        Status::InProgress => seq!['[', '~', ']'],
        Status::Done => seq!['[', 'x', ']'],
    }
}

/// A task as text: its status icon, a space, then its description.
pub open spec fn task_text(t: TaskView) -> Seq<char> {
    status_icon(t.status) + seq![' '] + t.description
}

/// A task as a line of a listing: its id in decimal, a space, then its text.
pub open spec fn task_line(id: u32, t: TaskView) -> Seq<char> {
    decimal(id as nat) + seq![' '] + task_text(t)
}

/// Appends the icon of `status` to `s`.
pub fn append_icon(s: &mut String, status: Status)
    ensures
        final(s)@ == old(s)@ + status_icon(status),
{
    push_char(s, '[');
    match status {
        Status::Todo => {},
        Status::InProgress => push_char(s, '~'),
        Status::Done => push_char(s, 'x'),
    }
    push_char(s, ']');
    assert(s@ =~= old(s)@ + status_icon(status));
}

impl Status {
    /// The icon of this status: `[]`, `[~]` or `[x]`.
    pub fn icon(&self) -> (s: String)
        ensures
            s@ == status_icon(*self),
    {
        let mut s = String::new();
        append_icon(&mut s, *self);
        assert(s@ =~= status_icon(*self));
        s
    }
}

impl Task {
    /// A new task with the given description, in status [`Status::Todo`].
    pub fn new(description: String) -> (t: Task)
        ensures
            t@ == (TaskView { description: description@, status: Status::Todo }),
    {
        Task { description, status: Status::Todo }
    }

    /// A copy of the task.
    pub fn copy(&self) -> (t: Task)
        ensures
            t@ == self@,
    {
        Task { description: self.description.clone(), status: self.status }
    }

    /// The task as text: its status icon, a space, then its description.
    pub fn text(&self) -> (s: String)
        ensures
            s@ == task_text(self@),
    {
        let mut s = String::new();
        append_icon(&mut s, self.status);
        push_char(&mut s, ' ');
        s.append(self.description.as_str());
        assert(s@ =~= task_text(self@));
        s
    }

    /// The task as a line of a listing: the id in decimal, a space, then [`Task::text`].
    pub fn line(&self, id: u32) -> (s: String)
        ensures
            s@ == task_line(id, self@),
    {
        let mut s = String::new();
        append_decimal(&mut s, id);
        push_char(&mut s, ' ');
        append_icon(&mut s, self.status);
        push_char(&mut s, ' ');
        s.append(self.description.as_str());
        assert(s@ =~= task_line(id, self@));
        s
    }
}

} // verus!
