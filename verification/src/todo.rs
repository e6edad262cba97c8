use vstd::prelude::*;

verus! {

/// A single todo record: a title and a completion flag.
#[derive(Clone, Debug)]
pub struct Todo {
    pub title: String,
    pub done: bool,
}

/// Mathematical model of a [`Todo`]: the title as a character sequence.
pub struct TodoView {
    pub title: Seq<char>,
    pub done: bool,
}

impl View for Todo {
    type V = TodoView;

    open spec fn view(&self) -> TodoView {
        TodoView { title: self.title@, done: self.done }
    }
}

impl Todo {
    /// Builds a record from its two fields.
    pub fn new(title: String, done: bool) -> (t: Todo)
        ensures
            t@.title == title@,
            t@.done == done,
    {
        Todo { title, done }
    }
}

/// The views of a sequence of records, element by element.
pub open spec fn views(s: Seq<Todo>) -> Seq<TodoView> {
    s.map_values(|t: Todo| t@)
}

} // verus!
