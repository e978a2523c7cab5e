use vstd::prelude::*;

verus! {

/// Identifier of a todo item.
pub type TodoId = u64;

/// A todo item: its identifier and its text.
#[derive(Debug)]
pub struct Todo {
    pub id: TodoId,
    pub text: String,
}

impl View for Todo {
    type V = (TodoId, Seq<char>);

    open spec fn view(&self) -> (TodoId, Seq<char>) {
        (self.id, self.text@)
    }
}

impl Todo {
    pub fn new(id: TodoId, text: String) -> (r: Todo)
        ensures
            r@ == (id, text@),
    {
        Todo { id, text }
    }
}

impl Clone for Todo {
    fn clone(&self) -> (r: Todo)
        ensures
            r@ == self@,
    {
        Todo { id: self.id, text: self.text.clone() }
    }
}

impl PartialEq for Todo {
    fn eq(&self, o: &Todo) -> (r: bool) {
        self.id == o.id && self.text == o.text
    }
}

impl vstd::std_specs::cmp::PartialEqSpecImpl for Todo {
    open spec fn obeys_eq_spec() -> bool {
        true
    }

    open spec fn eq_spec(&self, o: &Todo) -> bool {
        self@ == o@
    }
}

impl Eq for Todo {
}

} // verus!
