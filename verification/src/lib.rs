use vstd::prelude::*;

pub mod board;
pub mod command;
pub mod ids;
pub mod laws;
pub mod text;
pub mod todo_list;
pub mod words;
pub mod table;
pub mod task;
pub mod session;
pub mod command_laws;
pub mod session_laws;
