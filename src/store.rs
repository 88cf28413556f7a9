use vstd::prelude::*;
use crate::codec::{decode, encode, encode_all, lines_of, malformed, parsed};
use crate::todo::{Todo, TodoView, views};

verus! {

/// Why an operation on the list, or on what a user typed, was refused.
#[derive(Clone, Copy, Debug, PartialEq, Eq, Structural)]
pub enum TodoError {
    /// The index names no todo: it is not below the number of todos.
    IndexOutOfRange,
    /// The text given where a todo number was expected is not one.
    InvalidUserInput,
}

/// The list with the todo at `i` completed if it was not, and not if it was.
pub open spec fn toggled(s: Seq<TodoView>, i: int) -> Seq<TodoView> {
    s.update(i, TodoView { completed: !s[i].completed, content: s[i].content })
}

/// The ordered list of todos. Positions run densely from 0; the order is the
/// order of insertion, changed only by deleting.
pub struct TodoManager {
    pub list: Vec<Todo>,
}

impl View for TodoManager {
    type V = Seq<TodoView>;

    open spec fn view(&self) -> Seq<TodoView> {
        views(self.list@)
    }
}

impl TodoManager {
    /// An empty list.
    pub fn new() -> (r: TodoManager)
        ensures
            r@ == Seq::<TodoView>::empty(),
    {
        let r = TodoManager { list: Vec::new() };
        assert(r@ =~= Seq::<TodoView>::empty());
        r
    }

    /// Appends a todo at the end.
    pub fn add_todo(&mut self, todo: Todo)
        ensures
            final(self)@ == old(self)@.push(todo@),
    {
        self.list.push(todo);
        assert(self@ =~= old(self)@.push(todo@));
    }

    /// A copy of the todo at `index`.
    pub fn get_todo(&self, index: usize) -> (r: Result<Todo, TodoError>)
        ensures
            r is Ok <==> index < self@.len(),
            r matches Ok(t) ==> t@ == self@[index as int],
            r matches Err(e) ==> e == TodoError::IndexOutOfRange,
    {
        if index < self.list.len() {
            Ok(self.list[index].clone())
        } else {
            Err(TodoError::IndexOutOfRange)
        }
    }

    /// Puts `todo` in place of the todo at `index`; the others keep their places.
    pub fn update_todo(&mut self, index: usize, todo: Todo) -> (r: Result<(), TodoError>)
        ensures
            r is Ok <==> index < old(self)@.len(),
            r is Ok ==> final(self)@ == old(self)@.update(index as int, todo@),
            r matches Err(e) ==> e == TodoError::IndexOutOfRange && final(self)@ == old(self)@,
    {
        if index < self.list.len() {
            let ghost t = todo@;
            self.list[index] = todo;
            assert(self@ =~= old(self)@.update(index as int, t));
            Ok(())
        } else {
            Err(TodoError::IndexOutOfRange)
        }
    }

    /// Flips whether the todo at `index` is completed; its content stays.
    pub fn complete_todo(&mut self, index: usize) -> (r: Result<(), TodoError>)
        ensures
            r is Ok <==> index < old(self)@.len(),
            r is Ok ==> final(self)@ == toggled(old(self)@, index as int),
            r matches Err(e) ==> e == TodoError::IndexOutOfRange && final(self)@ == old(self)@,
    {
        match self.get_todo(index) {
            Ok(old_todo) => {
                let new_todo = Todo { completed: !old_todo.completed, content: old_todo.content };
                self.update_todo(index, new_todo)
            },
            Err(e) => Err(e),
        }
    }

    /// Removes the todo at `index`; each todo after it moves down one place,
    /// in the same order.
    pub fn delete_todo(&mut self, index: usize) -> (r: Result<(), TodoError>)
        ensures
            r is Ok <==> index < old(self)@.len(),
            r is Ok ==> {
                &&& final(self)@ == old(self)@.remove(index as int)
                &&& final(self)@.len() == old(self)@.len() - 1
                &&& forall|j: int| 0 <= j < index ==> final(self)@[j] == old(self)@[j]
                &&& forall|j: int| index < j < old(self)@.len() ==> final(self)@[j - 1] == old(self)@[j]
            },
            r matches Err(e) ==> e == TodoError::IndexOutOfRange && final(self)@ == old(self)@,
    {
        if index < self.list.len() {
            self.list.remove(index);
            assert(self@ =~= old(self)@.remove(index as int));
            Ok(())
        } else {
            Err(TodoError::IndexOutOfRange)
        }
    }

    /// How many todos there are.
    pub fn get_todo_count(&self) -> (r: usize)
        ensures
            r == self@.len(),
    {
        self.list.len()
    }

    /// Replaces the whole list with the todos read from a stored text, and
    /// gives the number of malformed lines passed over. The list changes in
    /// one step, only once the text has been read.
    pub fn load_from_text(&mut self, text: &str) -> (skipped: usize)
        ensures
            final(self)@ == parsed(lines_of(text@)),
            skipped == malformed(lines_of(text@)),
    {
        let decoded = decode(text);
        self.list = decoded.todos;
        decoded.skipped
    }

    /// The stored text of the list: one line per todo, in order.
    pub fn save_to_text(&self) -> (r: String)
        ensures
            r@ == encode_all(self@),
    {
        encode(&self.list)
    }
}

/// Flipping the same todo twice gives back the list as it was.
pub proof fn lemma_toggle_twice(s: Seq<TodoView>, i: int)
    requires
        0 <= i < s.len(),
    ensures
        toggled(toggled(s, i), i) == s,
{
    assert(toggled(toggled(s, i), i) =~= s);
}

} // verus!
