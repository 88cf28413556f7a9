//! An ordered, editable list of todos and the line-oriented text format it is
//! kept in on disk.
pub mod codec;
pub mod shell;
pub mod store;
pub mod todo;

pub use codec::{decode, encode, Decoded};
pub use shell::{clear_screen, get_todo_index_from_user};
pub use store::{TodoError, TodoManager};
pub use todo::{Todo, TodoView};
