use crate::id_gen::IdGenerator;
use crate::store::{entry, listing, opt_view, TodoStore};
use crate::todo::{Todo, TodoId};
use vstd::prelude::*;

verus! {

/// The abstract state of a service: the next identifier to hand out, and
/// the text of each todo present.
pub struct TodoState {
    pub next: TodoId,
    pub todos: Map<TodoId, Seq<char>>,
}

/// The state of a service that has just started.
pub open spec fn initial() -> TodoState {
    TodoState { next: 0, todos: Map::empty() }
}

/// Every identifier in use lies below the next one to hand out, so a fresh
/// identifier is never one that is, or was, in use.
pub open spec fn valid(s: TodoState) -> bool {
    forall|k: TodoId| #[trigger] s.todos.contains_key(k) ==> k < s.next
}

/// Create: store `text` under the next identifier, which is returned.
pub open spec fn create(s: TodoState, text: Seq<char>) -> (TodoState, TodoId) {
    (TodoState { next: (s.next + 1) as TodoId, todos: s.todos.insert(s.next, text) }, s.next)
}

/// Read one: the todo under `id`, if any.
pub open spec fn read_one(s: TodoState, id: TodoId) -> Option<(TodoId, Seq<char>)> {
    entry(s.todos, id)
}

/// Page `page` of `all`, `limit` items to a page, clipped to what `all` holds.
pub open spec fn page_of<A>(all: Seq<A>, page: nat, limit: nat) -> Seq<A> {
    let start = page * limit;
    if start >= all.len() {
        Seq::empty()
    } else if start + limit <= all.len() {
        all.subrange(start as int, (start + limit) as int)
    } else {
        all.subrange(start as int, all.len() as int)
    }
}

/// Read page: page `page` of all todos in ascending order of identifier.
pub open spec fn read_page(s: TodoState, page: nat, limit: nat) -> Seq<(TodoId, Seq<char>)> {
    page_of(listing(s.todos), page, limit)
}

/// Update: replace the text under `id` if a todo is there; else change nothing.
pub open spec fn update(s: TodoState, id: TodoId, text: Seq<char>) -> (
    TodoState,
    Option<(TodoId, Seq<char>)>,
) {
    if s.todos.contains_key(id) {
        (TodoState { next: s.next, todos: s.todos.insert(id, text) }, Some((id, text)))
    } else {
        (s, None)
    }
}

/// Delete: remove the todo under `id` and return it, if there was one.
pub open spec fn delete(s: TodoState, id: TodoId) -> (TodoState, Option<(TodoId, Seq<char>)>) {
    (TodoState { next: s.next, todos: s.todos.remove(id) }, entry(s.todos, id))
}

/// The todo service: an identifier generator and a store of todos.
pub struct TodoService {
    ids: IdGenerator,
    store: TodoStore,
}

impl View for TodoService {
    type V = TodoState;

    closed spec fn view(&self) -> TodoState {
        TodoState { next: self.ids@, todos: self.store@ }
    }
}

impl TodoService {
    /// A service with no todos, whose first identifier is 0.
    pub fn new() -> (r: TodoService)
        ensures
            r@ == initial(),
            valid(r@),
    {
        TodoService { ids: IdGenerator::new(), store: TodoStore::new() }
    }

    /// The identifier that the next created todo gets.
    pub fn peek_next_id(&self) -> (r: TodoId)
        ensures
            r == self@.next,
    {
        self.ids.peek()
    }

    /// Stores `text` as a new todo and returns its identifier.
    pub fn add_todo(&mut self, text: String) -> (r: TodoId)
        requires
            old(self)@.next < TodoId::MAX,
        ensures
            (final(self)@, r) == create(old(self)@, text@),
            valid(old(self)@) ==> valid(final(self)@),
    {
        let id = self.ids.next_id();
        let todo = Todo { id, text };
        self.insert_todo(id, todo);
        id
    }

    fn insert_todo(&mut self, id: TodoId, todo: Todo)
        requires
            todo.id == id,
        ensures
            final(self)@ == (TodoState { next: old(self)@.next, todos: old(self)@.todos.insert(id, todo.text@) }),
    {
        self.store.insert(id, todo);
    }

    /// The todo under `id`, if any.
    pub fn get_todo_by_id(&self, id: TodoId) -> (r: Option<Todo>)
        ensures
            opt_view(r) == read_one(self@, id),
    {
        self.store.get(id)
    }

    /// Page `page` (from 0) of all todos in ascending order of identifier,
    /// `limit` to a page; empty where `limit` is 0 or the page lies past the end.
    pub fn get_all_todos(&self, page: u64, limit: u64) -> (r: Vec<Todo>)
        ensures
            r@.len() == read_page(self@, page as nat, limit as nat).len(),
            forall|i: int| 0 <= i < r@.len() ==> #[trigger] r@[i]@ == read_page(self@, page as nat, limit as nat)[i],
    {
        let all = self.store.iterate_ordered();
        let n = all.len();
        let mut out: Vec<Todo> = Vec::new();
        let ghost expected = read_page(self@, page as nat, limit as nat);
        let start: u64 = match page.checked_mul(limit) {
            Some(p) => p,
            None => {
                assert(expected =~= Seq::<(TodoId, Seq<char>)>::empty());
                return out;
            },
        };
        if start >= n as u64 {
            assert(expected =~= Seq::<(TodoId, Seq<char>)>::empty());
            return out;
        }
        let start = start as usize;
        let end: usize = if ((n - start) as u64) < limit {
            n
        } else {
            start + limit as usize
        };
        let mut i: usize = start;
        while i < end
            invariant
                start <= i <= end <= n,
                n == all@.len(),
                all@.len() == listing(self@.todos).len(),
                forall|j: int| 0 <= j < all@.len() ==> #[trigger] all@[j]@ == listing(self@.todos)[j],
                expected == read_page(self@, page as nat, limit as nat),
                expected =~= listing(self@.todos).subrange(start as int, end as int),
                out@.len() == i - start,
                forall|j: int| 0 <= j < out@.len() ==> #[trigger] out@[j]@ == expected[j],
            decreases end - i,
        {
            out.push(all[i].clone());
            i = i + 1;
        }
        out
    }

    /// Replaces the text of the todo under `id` and returns the new todo; if
    /// there is none, changes nothing and returns `None`.
    pub fn update_todo(&mut self, id: TodoId, text: String) -> (r: Option<Todo>)
        ensures
            (final(self)@, opt_view(r)) == update(old(self)@, id, text@),
            valid(old(self)@) ==> valid(final(self)@),
    {
        if !self.store.contains_key(id) {
            return None;
        }
        let todo = Todo { id, text };
        self.store.insert(id, todo.clone());
        Some(todo)
    }

    /// Removes the todo under `id` and returns it, if there was one.
    pub fn delete_todo_by_id(&mut self, id: TodoId) -> (r: Option<Todo>)
        ensures
            (final(self)@, opt_view(r)) == delete(old(self)@, id),
            valid(old(self)@) ==> valid(final(self)@),
    {
        let r = self.store.remove(id);
        assert forall|k: TodoId| #[trigger] self@.todos.contains_key(k) implies old(self)@.todos.contains_key(k) by {
            assert(self@.todos == old(self)@.todos.remove(id));
        }
        r
    }
}

} // verus!
