//! The commands of the interactive todo program, and how a line of input is
//! read as one: [`Command`] and [`parse_command`].
use vstd::prelude::*;

use crate::task::Status;
use crate::text::{chars_of, string_from_chars};
use crate::words::{
    after_first_word, after_space, before_space, first_word, parse_u32, parse_u32_chars, split_at_space,
    split_first_word, trim, trim_chars,
};

verus! {

/// What `str::to_lowercase` makes of a text: its lowercase mapping under the
/// Unicode `Lowercase` property, which no short statement here captures.
pub uninterp spec fn lowercase(s: Seq<char>) -> Seq<char>;

/// The lowercase form of `s`.
///
/// Trusted: calls `str::to_lowercase`. The contract claims only that the
/// result is a function of the text: it equals [`lowercase`] of it. What that
/// mapping is (the Unicode tables) is left unsaid.
#[verifier::external_body]
fn to_lowercase(s: &str) -> (r: String)
    ensures
        r@ == lowercase(s@),
{
    s.to_lowercase()
}

/// A parsed user command.
#[derive(Debug, PartialEq)]
pub enum Command {
    /// Add a new task with the given description.
    Add(String),
    /// Mark the task with the given id as done.
    Done(u32),
    /// Remove the task with the given id.
    Remove(u32),
    /// Mark the task with the given id as in progress.
    Progress(u32),
    /// List all tasks.
    List,
    /// List only the tasks with the given status.
    Filter(Status),
    /// Save and leave.
    Quit,
    /// Show the help menu.
    Help,
    /// The command name itself was not recognized.
    Unrecognized(String),
    /// The command was recognized but its argument was missing or invalid.
    InvalidArgument(String),
    /// Move a task from the single list into a named board list.
    ImportToBoard(u32, String),
    /// Create an empty named list.
    BoardCreate(String),
    /// Add a new task to a named list: list name, then description.
    BoardAdd(String, String),
    /// Mark a board task done.
    BoardDone(u32),
    /// Mark a board task in progress.
    BoardProgress(u32),
    /// Show the tasks of a named list.
    BoardList(String),
    /// Show the names of all lists.
    BoardLists,
    /// Show every list with its tasks.
    BoardAll,
    /// Put an existing task into another list as well.
    BoardAssign(u32, String),
    /// Take a task out of one list.
    BoardUnassign(u32, String),
    /// Remove a task entirely.
    BoardRemove(u32),
    /// Delete a whole list.
    BoardDeleteList(String),
    /// Show which lists hold a task.
    BoardWhere(u32),
}

/// The mathematical value of a [`Command`]: the same, with each text taken by its view.
pub enum CommandView {
    Add(Seq<char>),
    Done(u32),
    Remove(u32),
    Progress(u32),
    List,
    Filter(Status),
    Quit,
    Help,
    Unrecognized(Seq<char>),
    InvalidArgument(Seq<char>),
    ImportToBoard(u32, Seq<char>),
    BoardCreate(Seq<char>),
    BoardAdd(Seq<char>, Seq<char>),
    BoardDone(u32),
    BoardProgress(u32),
    BoardList(Seq<char>),
    BoardLists,
    BoardAll,
    BoardAssign(u32, Seq<char>),
    BoardUnassign(u32, Seq<char>),
    BoardRemove(u32),
    BoardDeleteList(Seq<char>),
    BoardWhere(u32),
}

impl View for Command {
    type V = CommandView;

    open spec fn view(&self) -> CommandView {
        match self {
            Command::Add(s) => CommandView::Add(s@),
            Command::Done(id) => CommandView::Done(*id),
            Command::Remove(id) => CommandView::Remove(*id),
            Command::Progress(id) => CommandView::Progress(*id),
            Command::List => CommandView::List,
            Command::Filter(st) => CommandView::Filter(*st),
            Command::Quit => CommandView::Quit,
            Command::Help => CommandView::Help,
            Command::Unrecognized(s) => CommandView::Unrecognized(s@),
            Command::InvalidArgument(s) => CommandView::InvalidArgument(s@),
            Command::ImportToBoard(id, s) => CommandView::ImportToBoard(*id, s@),
            Command::BoardCreate(s) => CommandView::BoardCreate(s@),
            Command::BoardAdd(a, b) => CommandView::BoardAdd(a@, b@),
            Command::BoardDone(id) => CommandView::BoardDone(*id),
            Command::BoardProgress(id) => CommandView::BoardProgress(*id),
            Command::BoardList(s) => CommandView::BoardList(s@),
            Command::BoardLists => CommandView::BoardLists,
            Command::BoardAll => CommandView::BoardAll,
            Command::BoardAssign(id, s) => CommandView::BoardAssign(*id, s@),
            Command::BoardUnassign(id, s) => CommandView::BoardUnassign(*id, s@),
            Command::BoardRemove(id) => CommandView::BoardRemove(*id),
            Command::BoardDeleteList(s) => CommandView::BoardDeleteList(s@),
            Command::BoardWhere(id) => CommandView::BoardWhere(*id),
        }
    }
}

/// The status that a filter word names, once lower-cased: `todo`, `done`,
/// or `inprogress` and `progress` for in progress.
pub open spec fn status_of_word(word: Seq<char>) -> Option<Status> {
    if word == "todo"@ {
        Some(Status::Todo)
    } else if word == "done"@ {
        Some(Status::Done)
    } else if word == "inprogress"@ || word == "progress"@ {
        Some(Status::InProgress)
    } else {
        None
    }
}

/// An argument of the form `<id> <list>`: the id and the list name, each
/// trimmed, when the id is a number and the name is not empty.
pub open spec fn id_and_name(arg: Seq<char>) -> Option<(u32, Seq<char>)> {
    let name = trim(after_space(arg));
    match parse_u32(trim(before_space(arg))) {
        Some(id) => if name.len() > 0 {
            Some((id, name))
        } else {
            None
        },
        None => None,
    }
}

/// How a line of input reads as a command. The first white-space-separated
/// word is the command name; what follows it, trimmed, is its argument.
pub open spec fn command_of(input: Seq<char>) -> CommandView {
    let name = first_word(input);
    let arg = trim(after_first_word(input));
    if name == "add"@ {
        CommandView::Add(arg)
    } else if name == "done"@ {
        match parse_u32(arg) {
            Some(id) => CommandView::Done(id),
            None => CommandView::InvalidArgument("done requires a numeric id"@),
        }
    } else if name == "remove"@ {
        match parse_u32(arg) {
            Some(id) => CommandView::Remove(id),
            None => CommandView::InvalidArgument("remove requires a numeric id"@),
        }
    } else if name == "progress"@ {
        match parse_u32(arg) {
            Some(id) => CommandView::Progress(id),
            None => CommandView::InvalidArgument("progress requires a numeric id"@),
        }
    } else if name == "filter"@ || name == "status"@ {
        match status_of_word(lowercase(arg)) {
            Some(st) => CommandView::Filter(st),
            None => CommandView::InvalidArgument("filter requires: todo | done | inprogress"@),
        }
    } else if name == "list"@ {
        CommandView::List
    } else if name == "quit"@ {
        CommandView::Quit
    } else if name == "help"@ || name == "?"@ {
        CommandView::Help
    } else if name == "bimport"@ {
        match id_and_name(arg) {
            Some((id, list)) => CommandView::ImportToBoard(id, list),
            None => CommandView::InvalidArgument("bimport requires: <id> <list>"@),
        }
    } else if name == "bcreate"@ {
        if arg.len() == 0 {
            CommandView::InvalidArgument("bcreate requires: <list>"@)
        } else {
            CommandView::BoardCreate(arg)
        }
    } else if name == "badd"@ {
        let list = trim(before_space(arg));
        let desc = trim(after_space(arg));
        if list.len() == 0 || desc.len() == 0 {
            CommandView::InvalidArgument("badd requires: <list> <description>"@)
        } else {
            CommandView::BoardAdd(list, desc)
        }
    } else if name == "bdone"@ {
        match parse_u32(arg) {
            Some(id) => CommandView::BoardDone(id),
            None => CommandView::InvalidArgument("bdone requires a numeric id"@),
        }
    } else if name == "bprogress"@ {
        match parse_u32(arg) {
            Some(id) => CommandView::BoardProgress(id),
            None => CommandView::InvalidArgument("bprogress requires a numeric id"@),
        }
    } else if name == "blist"@ {
        if arg.len() == 0 {
            CommandView::InvalidArgument("blist requires: <list>"@)
        } else {
            CommandView::BoardList(arg)
        }
    } else if name == "blists"@ {
        CommandView::BoardLists
    } else if name == "ball"@ {
        CommandView::BoardAll
    } else if name == "bassign"@ {
        match id_and_name(arg) {
            Some((id, list)) => CommandView::BoardAssign(id, list),
            None => CommandView::InvalidArgument("bassign requires: <id> <list>"@),
        }
    } else if name == "bunassign"@ {
        match id_and_name(arg) {
            Some((id, list)) => CommandView::BoardUnassign(id, list),
            None => CommandView::InvalidArgument("bunassign requires: <id> <list>"@),
        }
    } else if name == "bremove"@ {
        match parse_u32(arg) {
            Some(id) => CommandView::BoardRemove(id),
            None => CommandView::InvalidArgument("bremove requires a numeric id"@),
        }
    } else if name == "bdelete"@ {
        if arg.len() == 0 {
            CommandView::InvalidArgument("bdelete requires: <list>"@)
        } else {
            CommandView::BoardDeleteList(arg)
        }
    } else if name == "bwhere"@ {
        match parse_u32(arg) {
            Some(id) => CommandView::BoardWhere(id),
            None => CommandView::InvalidArgument("bwhere requires a numeric id"@),
        }
    } else {
        CommandView::Unrecognized(name)
    }
}

/// Whether the characters of `v` spell `word`.
fn is_word(v: &Vec<char>, word: &str) -> (r: bool)
    ensures
        r == (v@ == word@),
{
    let w = chars_of(word);
    if v.len() != w.len() {
        return false;
    }
    let mut i: usize = 0;
    while i < v.len()
        invariant
            i <= v@.len(),
            v@.len() == w@.len(),
            w@ == word@,
            forall|k: int| 0 <= k < i ==> v@[k] == w@[k],
        decreases v.len() - i,
    {
        if v[i] != w[i] {
            return false;
        }
        i = i + 1;
    }
    assert(v@ =~= w@);
    true
}

/// The status that a lower-cased filter word names ([`status_of_word`]).
pub fn status_word(word: &str) -> (r: Option<Status>)
    ensures
        r == status_of_word(word@),
{
    let v = chars_of(word);
    if is_word(&v, "todo") {
        Some(Status::Todo)
    } else if is_word(&v, "done") {
        Some(Status::Done)
    } else if is_word(&v, "inprogress") || is_word(&v, "progress") {
        Some(Status::InProgress)
    } else {
        None
    }
}

/// Reads an argument of the form `<id> <list>` ([`id_and_name`]).
fn parse_id_and_name(arg: &Vec<char>) -> (r: Option<(u32, String)>)
    ensures
        match r {
            Some((id, name)) => id_and_name(arg@) == Some((id, name@)),
            None => id_and_name(arg@) is None,
        },
{
    let (head, tail) = split_at_space(arg);
    let id_text = trim_chars(&head);
    let name = trim_chars(&tail);
    match parse_u32_chars(&id_text) {
        Some(id) => if name.len() > 0 {
            Some((id, string_from_chars(&name)))
        } else {
            None
        },
        None => None,
    }
}

/// A numeric argument, or the given message as an invalid argument.
fn numeric(arg: &Vec<char>, message: &str) -> (r: Result<u32, Command>)
    ensures
        match r {
            Ok(id) => parse_u32(arg@) == Some(id),
            Err(c) => parse_u32(arg@) is None && c@ == CommandView::InvalidArgument(message@),
        },
{
    match parse_u32_chars(arg) {
        Some(id) => Ok(id),
        None => Err(Command::InvalidArgument(String::from_str(message))),
    }
}

/// Reads a line of user input as a command ([`command_of`]). The first
/// white-space-separated word is the command name; what follows it, trimmed,
/// is the argument.
/// An unknown name gives [`Command::Unrecognized`]; a known name with a
/// missing or bad argument gives [`Command::InvalidArgument`].
pub fn parse_command(input: &str) -> (c: Command)
    ensures
        c@ == command_of(input@),
{
    let line = chars_of(input);
    let (name, rest) = split_first_word(&line);
    let arg = trim_chars(&rest);
    if is_word(&name, "add") {
        Command::Add(string_from_chars(&arg))
    } else if is_word(&name, "done") {
        match numeric(&arg, "done requires a numeric id") {
            Ok(id) => Command::Done(id),
            Err(c) => c,
        }
    } else if is_word(&name, "remove") {
        match numeric(&arg, "remove requires a numeric id") {
            Ok(id) => Command::Remove(id),
            Err(c) => c,
        }
    } else if is_word(&name, "progress") {
        match numeric(&arg, "progress requires a numeric id") {
            Ok(id) => Command::Progress(id),
            Err(c) => c,
        }
    } else if is_word(&name, "filter") || is_word(&name, "status") {
        let text = string_from_chars(&arg);
        let lowered = to_lowercase(text.as_str());
        match status_word(lowered.as_str()) {
            Some(st) => Command::Filter(st),
            None => Command::InvalidArgument(String::from_str("filter requires: todo | done | inprogress")),
        }
    } else if is_word(&name, "list") {
        Command::List
    } else if is_word(&name, "quit") {
        Command::Quit
    } else if is_word(&name, "help") || is_word(&name, "?") {
        Command::Help
    } else if is_word(&name, "bimport") {
        match parse_id_and_name(&arg) {
            Some((id, list)) => Command::ImportToBoard(id, list),
            None => Command::InvalidArgument(String::from_str("bimport requires: <id> <list>")),
        }
    } else if is_word(&name, "bcreate") {
        if arg.len() == 0 {
            Command::InvalidArgument(String::from_str("bcreate requires: <list>"))
        } else {
            Command::BoardCreate(string_from_chars(&arg))
        }
    } else if is_word(&name, "badd") {
        let (head, tail) = split_at_space(&arg);
        let list = trim_chars(&head);
        let desc = trim_chars(&tail);
        if list.len() == 0 || desc.len() == 0 {
            Command::InvalidArgument(String::from_str("badd requires: <list> <description>"))
        } else {
            Command::BoardAdd(string_from_chars(&list), string_from_chars(&desc))
        }
    } else if is_word(&name, "bdone") {
        match numeric(&arg, "bdone requires a numeric id") {
            Ok(id) => Command::BoardDone(id),
            Err(c) => c,
        }
    } else if is_word(&name, "bprogress") {
        match numeric(&arg, "bprogress requires a numeric id") {
            Ok(id) => Command::BoardProgress(id),
            Err(c) => c,
        }
    } else if is_word(&name, "blist") {
        if arg.len() == 0 {
            Command::InvalidArgument(String::from_str("blist requires: <list>"))
        } else {
            Command::BoardList(string_from_chars(&arg))
        }
    } else if is_word(&name, "blists") {
        Command::BoardLists
    } else if is_word(&name, "ball") {
        Command::BoardAll
    } else if is_word(&name, "bassign") {
        match parse_id_and_name(&arg) {
            Some((id, list)) => Command::BoardAssign(id, list),
            None => Command::InvalidArgument(String::from_str("bassign requires: <id> <list>")),
        }
    } else if is_word(&name, "bunassign") {
        match parse_id_and_name(&arg) {
            Some((id, list)) => Command::BoardUnassign(id, list),
            None => Command::InvalidArgument(String::from_str("bunassign requires: <id> <list>")),
        }
    } else if is_word(&name, "bremove") {
        match numeric(&arg, "bremove requires a numeric id") {
            Ok(id) => Command::BoardRemove(id),
            Err(c) => c,
        }
    } else if is_word(&name, "bdelete") {
        if arg.len() == 0 {
            Command::InvalidArgument(String::from_str("bdelete requires: <list>"))
        } else {
            Command::BoardDeleteList(string_from_chars(&arg))
        }
    } else if is_word(&name, "bwhere") {
        match numeric(&arg, "bwhere requires a numeric id") {
            Ok(id) => Command::BoardWhere(id),
            Err(c) => c,
        }
    } else {
        Command::Unrecognized(string_from_chars(&name))
    }
}

} // verus!
