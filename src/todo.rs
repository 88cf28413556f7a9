use vstd::prelude::*;

verus! {

/// The mathematical value of a todo: its completion flag and its text.
pub struct TodoView {
    pub completed: bool,
    pub content: Seq<char>,
}

/// One task: whether it is done, and what it says.
pub struct Todo {
    pub completed: bool,
    pub content: String,
}

impl View for Todo {
    type V = TodoView;

    open spec fn view(&self) -> TodoView {
        TodoView { completed: self.completed, content: self.content@ }
    }
}

/// The one-character marker that stands for a completion flag.
pub open spec fn marker_of(completed: bool) -> Seq<char> {
    if completed {
        seq!['X']
    } else {
        seq![' ']
    }
}

impl Clone for Todo {
    fn clone(&self) -> (r: Todo)
        ensures
            r@ == self@,
    {
        Todo { completed: self.completed, content: self.content.clone() }
    }
}

impl Todo {
    /// A fresh, not yet completed todo with the given text.
    pub fn new(content: String) -> (r: Todo)
        ensures
            r@ == (TodoView { completed: false, content: content@ }),
    {
        Todo { completed: false, content }
    }

    /// The marker shown for this todo: `X` when completed, a space otherwise.
    pub fn completed_str(&self) -> (r: &'static str)
        ensures
            r@ == marker_of(self.completed),
    {
        proof {
            reveal_strlit("X");
            reveal_strlit(" ");
        }
        if self.completed {
            "X"
        } else {
            " "
        }
    }
}

/// The views of a sequence of todos, in order.
pub open spec fn views(s: Seq<Todo>) -> Seq<TodoView> {
    s.map_values(|t: Todo| t@)
}

} // verus!
