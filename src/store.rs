use crate::todo::{Todo, TodoId};
use ic_stable_structures::{StableBTreeMap, VectorMemory};
use vstd::prelude::*;

verus! {

/// Ordered map from identifier to todo, kept in a stable B-tree map.
///
/// Only the text is stored under each identifier: the identifier of a todo is
/// its key, so the two can never disagree.
///
/// Verus refuses a declaration of `StableBTreeMap`, whose bounds name the
/// stable-structures traits `Storable` and `Memory`; so the map sits in a field
/// hidden from Verus and is reached only through the wrappers below.
#[verifier::external_body]
pub struct TodoStore {
    map: StableBTreeMap<TodoId, String, VectorMemory>,
}

/// What a store holds: each identifier with the text stored under it.
pub uninterp spec fn store_contents(s: TodoStore) -> Map<TodoId, Seq<char>>;

impl View for TodoStore {
    type V = Map<TodoId, Seq<char>>;

    open spec fn view(&self) -> Map<TodoId, Seq<char>> {
        store_contents(*self)
    }
}

/// Relies on `StableBTreeMap::new`: a map made over fresh memory holds nothing.
/// Each store gets a `VectorMemory` buffer of its own, on every target, so no
/// two stores ever share the memory under them.
#[verifier::external_body]
fn map_new() -> (r: TodoStore)
    ensures
        store_contents(r).dom() == Set::<TodoId>::empty(),
{
    let memory = VectorMemory::default();
    TodoStore { map: StableBTreeMap::new(memory) }
}

/// `s` holds identifiers in strictly ascending order.
pub open spec fn strictly_ascending(s: Seq<TodoId>) -> bool {
    forall|i: int, j: int| 0 <= i < j < s.len() ==> s[i] < s[j]
}

/// `s` lists the identifiers of `d`, each once, in ascending order.
pub open spec fn lists_in_order(s: Seq<TodoId>, d: Set<TodoId>) -> bool {
    &&& strictly_ascending(s)
    &&& forall|k: TodoId| #[trigger] d.contains(k) <==> s.contains(k)
}

/// The identifiers present in `m`, in ascending order.
pub open spec fn ordered_ids(m: Map<TodoId, Seq<char>>) -> Seq<TodoId> {
    choose|s: Seq<TodoId>| lists_in_order(s, m.dom())
}

/// The entries of `m` as todos, in ascending order of identifier.
pub open spec fn listing(m: Map<TodoId, Seq<char>>) -> Seq<(TodoId, Seq<char>)> {
    ordered_ids(m).map_values(|k: TodoId| (k, m[k]))
}

/// The todo stored under `id` in `m`, if any.
pub open spec fn entry(m: Map<TodoId, Seq<char>>, id: TodoId) -> Option<(TodoId, Seq<char>)> {
    if m.contains_key(id) {
        Some((id, m[id]))
    } else {
        None
    }
}

/// The identifiers of a sequence of stable-map entries.
pub open spec fn entry_keys(es: Seq<(TodoId, String)>) -> Seq<TodoId> {
    es.map_values(|e: (TodoId, String)| e.0)
}

/// Every entry of `es` carries the text that `m` holds under its key.
pub open spec fn entries_agree(es: Seq<(TodoId, String)>, m: Map<TodoId, Seq<char>>) -> bool {
    forall|i: int| 0 <= i < es.len() ==> m.contains_key(#[trigger] es[i].0) && es[i].1@ == m[es[i].0]
}

/// The view of an optional todo.
pub open spec fn opt_view(o: Option<Todo>) -> Option<(TodoId, Seq<char>)> {
    match o {
        Some(t) => Some(t@),
        None => None,
    }
}

/// Relies on `StableBTreeMap::insert`: the key now maps to the value, and the
/// value it replaced, if any, is returned. Like the map itself, it traps if its
/// memory cannot grow, a limit no contract here can see.
#[verifier::external_body]
fn map_insert(s: &mut TodoStore, id: TodoId, text: String) -> (r: Option<String>)
    ensures
        store_contents(*final(s)) == store_contents(*old(s)).insert(id, text@),
        r.is_some() == store_contents(*old(s)).contains_key(id),
        r.is_some() ==> r.unwrap()@ == store_contents(*old(s))[id],
{
    s.map.insert(id, text)
}

/// Relies on `StableBTreeMap::get`: the value stored under the key, if any.
#[verifier::external_body]
fn map_get(s: &TodoStore, id: TodoId) -> (r: Option<String>)
    ensures
        r.is_some() == store_contents(*s).contains_key(id),
        r.is_some() ==> r.unwrap()@ == store_contents(*s)[id],
{
    s.map.get(&id)
}

/// Relies on `StableBTreeMap::contains_key`: whether the key is present.
#[verifier::external_body]
fn map_contains_key(s: &TodoStore, id: TodoId) -> (r: bool)
    ensures
        r == store_contents(*s).contains_key(id),
{
    s.map.contains_key(&id)
}

/// Relies on `StableBTreeMap::remove`: the key is gone, and the value it held,
/// if any, is returned.
#[verifier::external_body]
fn map_remove(s: &mut TodoStore, id: TodoId) -> (r: Option<String>)
    ensures
        store_contents(*final(s)) == store_contents(*old(s)).remove(id),
        r.is_some() == store_contents(*old(s)).contains_key(id),
        r.is_some() ==> r.unwrap()@ == store_contents(*old(s))[id],
{
    s.map.remove(&id)
}

/// Relies on `StableBTreeMap::iter`: every entry once, in ascending key order.
#[verifier::external_body]
fn map_entries(s: &TodoStore) -> (r: Vec<(TodoId, String)>)
    ensures
        lists_in_order(entry_keys(r@), store_contents(*s).dom()),
        entries_agree(r@, store_contents(*s)),
{
    s.map.iter().collect()
}

/// Two ascending listings of the same identifiers are the same sequence.
pub proof fn lemma_ordered_listing_unique(a: Seq<TodoId>, b: Seq<TodoId>, d: Set<TodoId>)
    requires
        lists_in_order(a, d),
        lists_in_order(b, d),
    ensures
        a == b,
    decreases a.len(),
{
    if a.len() == 0 {
        if b.len() > 0 {
            assert(b.contains(b[0]));
            assert(d.contains(b[0]));
        }
        assert(a =~= b);
    } else {
        assert(a.contains(a[0]));
        assert(d.contains(a[0]));
        assert(b.contains(a[0]));
        let j = choose|j: int| 0 <= j < b.len() && b[j] == a[0];
        assert(b.contains(b[0]));
        assert(d.contains(b[0]));
        assert(a.contains(b[0]));
        let i = choose|i: int| 0 <= i < a.len() && a[i] == b[0];
        assert(b[0] <= b[j]);
        assert(a[0] <= a[i]);
        assert(a[0] == b[0]);
        let x = a[0];
        let d2 = d.remove(x);
        let a2 = a.drop_first();
        let b2 = b.drop_first();
        assert forall|k: TodoId| #[trigger] d2.contains(k) <==> a2.contains(k) by {
            if a2.contains(k) {
                let n = choose|n: int| 0 <= n < a2.len() && a2[n] == k;
                assert(a[n + 1] == k);
                assert(a.contains(k));
            }
            if d2.contains(k) {
                assert(a.contains(k));
                let n = choose|n: int| 0 <= n < a.len() && a[n] == k;
                assert(n != 0);
                assert(a2[n - 1] == k);
            }
        }
        assert forall|k: TodoId| #[trigger] d2.contains(k) <==> b2.contains(k) by {
            if b2.contains(k) {
                let n = choose|n: int| 0 <= n < b2.len() && b2[n] == k;
                assert(b[n + 1] == k);
                assert(b.contains(k));
            }
            if d2.contains(k) {
                assert(b.contains(k));
                let n = choose|n: int| 0 <= n < b.len() && b[n] == k;
                assert(n != 0);
                assert(b2[n - 1] == k);
            }
        }
        lemma_ordered_listing_unique(a2, b2, d2);
        assert(a =~= b) by {
            assert forall|n: int| 0 <= n < a.len() implies a[n] == b[n] by {
                if n > 0 {
                    assert(a[n] == a2[n - 1]);
                    assert(b[n] == b2[n - 1]);
                }
            }
        }
    }
}

/// A finite set of identifiers has an ascending listing, as long as the set.
pub proof fn lemma_ordered_listing_exists(d: Set<TodoId>)
    requires
        d.finite(),
    ensures
        exists|s: Seq<TodoId>| lists_in_order(s, d) && s.len() == d.len(),
    decreases d.len(),
{
    if d.len() == 0 {
        d.lemma_len0_is_empty();
        let s = Seq::<TodoId>::empty();
        assert(lists_in_order(s, d) && s.len() == d.len());
    } else {
        let leq = |a: TodoId, b: TodoId| a <= b;
        assert(vstd::relations::total_ordering(leq));
        d.find_unique_maximal_ensures(leq);
        let m = d.find_unique_maximal(leq);
        assert forall|x: TodoId| d.contains(x) implies x <= m by {
            if !leq(x, m) {
                assert(leq(m, x));
            }
        }
        let d2 = d.remove(m);
        lemma_ordered_listing_exists(d2);
        let s2 = choose|s: Seq<TodoId>| lists_in_order(s, d2) && s.len() == d2.len();
        let s = s2.push(m);
        assert forall|k: TodoId| #[trigger] d.contains(k) <==> s.contains(k) by {
            if s.contains(k) {
                let n = choose|n: int| 0 <= n < s.len() && s[n] == k;
                if n < s2.len() {
                    assert(s2.contains(k));
                }
            }
            if d.contains(k) && k != m {
                assert(d2.contains(k));
                assert(s2.contains(k));
                let n = choose|n: int| 0 <= n < s2.len() && s2[n] == k;
                assert(s[n] == k);
            }
            if k == m {
                assert(s[s.len() - 1] == m);
            }
        }
        assert forall|i: int, j: int| 0 <= i < j < s.len() implies s[i] < s[j] by {
            if j < s.len() - 1 {
                assert(s[i] == s2[i] && s[j] == s2[j]);
            } else {
                assert(s2.contains(s2[i]));
                assert(d2.contains(s2[i]));
                assert(s[i] == s2[i]);
            }
        }
        assert(d2.len() + 1 == d.len());
        assert(lists_in_order(s, d) && s.len() == d.len());
    }
}

/// The listing of a map with finitely many entries has one item per entry.
pub proof fn lemma_listing_len(m: Map<TodoId, Seq<char>>)
    requires
        m.dom().finite(),
    ensures
        listing(m).len() == m.dom().len(),
{
    lemma_ordered_listing_exists(m.dom());
    let s = choose|s: Seq<TodoId>| lists_in_order(s, m.dom()) && s.len() == m.dom().len();
    lemma_ordered_listing_unique(s, ordered_ids(m), m.dom());
}

impl TodoStore {
    /// An empty store over fresh memory.
    pub fn new() -> (r: TodoStore)
        ensures
            r@ == Map::<TodoId, Seq<char>>::empty(),
    {
        let r = map_new();
        assert(r@ =~= Map::<TodoId, Seq<char>>::empty());
        r
    }

    /// Stores `todo` under `id`, replacing what was there.
    pub fn insert(&mut self, id: TodoId, todo: Todo)
        requires
            todo.id == id,
        ensures
            final(self)@ == old(self)@.insert(id, todo.text@),
    {
        let _ = map_insert(self, id, todo.text);
    }

    /// The todo stored under `id`, if any.
    pub fn get(&self, id: TodoId) -> (r: Option<Todo>)
        ensures
            opt_view(r) == entry(self@, id),
    {
        match map_get(self, id) {
            Some(text) => Some(Todo { id, text }),
            None => None,
        }
    }

    /// Whether a todo is stored under `id`.
    pub fn contains_key(&self, id: TodoId) -> (r: bool)
        ensures
            r == self@.contains_key(id),
    {
        map_contains_key(self, id)
    }

    /// Removes the todo stored under `id` and returns it, if there was one.
    pub fn remove(&mut self, id: TodoId) -> (r: Option<Todo>)
        ensures
            final(self)@ == old(self)@.remove(id),
            opt_view(r) == entry(old(self)@, id),
    {
        match map_remove(self, id) {
            Some(text) => Some(Todo { id, text }),
            None => None,
        }
    }

    /// All todos, in ascending order of identifier.
    pub fn iterate_ordered(&self) -> (r: Vec<Todo>)
        ensures
            r@.len() == listing(self@).len(),
            forall|i: int| 0 <= i < r@.len() ==> #[trigger] r@[i]@ == listing(self@)[i],
    {
        let entries = map_entries(self);
        proof {
            lemma_ordered_listing_unique(entry_keys(entries@), ordered_ids(self@), self@.dom());
        }
        let mut out: Vec<Todo> = Vec::new();
        let mut i: usize = 0;
        while i < entries.len()
            invariant
                i <= entries@.len(),
                entry_keys(entries@) == ordered_ids(self@),
                entries_agree(entries@, self@),
                out@.len() == i,
                forall|n: int| 0 <= n < i ==> #[trigger] out@[n]@ == listing(self@)[n],
            decreases entries@.len() - i,
        {
            let e = &entries[i];
            assert(entry_keys(entries@)[i as int] == e.0);
            out.push(Todo { id: e.0, text: e.1.clone() });
            i = i + 1;
        }
        out
    }
}

} // verus!
