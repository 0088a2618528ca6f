//! The task record: an id, its text, and a completion flag.

use vstd::prelude::*;

verus! {

/// A single to-do item. Ids are assigned by the store; the text is
/// caller-supplied and never normalized; `completed` starts out false.
#[derive(Debug)]
pub struct Todo {
    pub id: u32,
    pub text: String,
    pub completed: bool,
}

/// The mathematical value of a [`Todo`]: the text is a sequence of
/// characters, the other fields are plain values.
pub struct TodoView {
    pub id: u32,
    pub text: Seq<char>,
    pub completed: bool,
}

impl View for Todo {
    type V = TodoView;

    open spec fn view(&self) -> TodoView {
        TodoView { id: self.id, text: self.text@, completed: self.completed }
    }
}

impl DeepView for Todo {
    type V = TodoView;

    open spec fn deep_view(&self) -> TodoView {
        self@
    }
}

impl Todo {
    /// A field-for-field copy of the record.
    pub fn duplicate(&self) -> (t: Todo)
        ensures
            t@ == self@,
    {
        Todo { id: self.id, text: self.text.clone(), completed: self.completed }
    }
}

} // verus!
