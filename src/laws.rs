use crate::service::{create, delete, initial, page_of, read_one, read_page, update, valid, TodoState};
use crate::store::{lemma_listing_len, lemma_ordered_listing_unique, listing, lists_in_order, ordered_ids};
use crate::todo::TodoId;
use vstd::prelude::*;

verus! {

/// The state and the identifiers returned after creating `texts` in order.
pub open spec fn create_all(s: TodoState, texts: Seq<Seq<char>>) -> (TodoState, Seq<TodoId>)
    decreases texts.len(),
{
    if texts.len() == 0 {
        (s, Seq::empty())
    } else {
        let (s1, ids) = create_all(s, texts.drop_last());
        let (s2, id) = create(s1, texts.last());
        (s2, ids.push(id))
    }
}

/// Each operation keeps every identifier in use below the next one.
pub proof fn lemma_operations_keep_valid(s: TodoState, id: TodoId, text: Seq<char>)
    requires
        valid(s),
    ensures
        s.next < TodoId::MAX ==> valid(create(s, text).0),
        valid(update(s, id, text).0),
        valid(delete(s, id).0),
{
}

/// Creating texts one after another returns identifiers that count up by one
/// from the next identifier, none of them in use before; from a fresh service
/// the i-th identifier is i. Each text is stored under its identifier.
pub proof fn lemma_create_ids_unique(s: TodoState, texts: Seq<Seq<char>>)
    requires
        valid(s),
        s.next + texts.len() <= TodoId::MAX,
    ensures
        ({
            let (s2, ids) = create_all(s, texts);
            &&& valid(s2)
            &&& s2.next == s.next + texts.len()
            &&& ids.len() == texts.len()
            &&& forall|i: int| 0 <= i < ids.len() ==> #[trigger] ids[i] == s.next + i
            &&& forall|i: int, j: int| 0 <= i < j < ids.len() ==> ids[i] < ids[j]
            &&& forall|i: int| 0 <= i < ids.len() ==> !s.todos.contains_key(#[trigger] ids[i])
            &&& forall|i: int| 0 <= i < ids.len() ==> s2.todos.contains_key(#[trigger] ids[i])
            &&& forall|i: int| 0 <= i < ids.len() ==> s2.todos[#[trigger] ids[i]] == texts[i]
            &&& s == initial() ==> forall|i: int| 0 <= i < ids.len() ==> #[trigger] ids[i] == i
        }),
    decreases texts.len(),
{
    if texts.len() > 0 {
        lemma_create_ids_unique(s, texts.drop_last());
        let (s1, ids1) = create_all(s, texts.drop_last());
        let (s2, ids) = create_all(s, texts);
        assert(ids == ids1.push(s1.next));
        assert forall|i: int| 0 <= i < ids.len() implies s2.todos.contains_key(#[trigger] ids[i])
            && s2.todos[ids[i]] == texts[i] by {
            if i < ids1.len() {
                assert(ids1[i] < s1.next);
                assert(texts.drop_last()[i] == texts[i]);
            }
        }
    }
}

/// A todo created with `text` reads back as that text under the returned identifier.
pub proof fn lemma_create_then_read(s: TodoState, text: Seq<char>)
    requires
        s.next < TodoId::MAX,
    ensures
        ({
            let (s1, id) = create(s, text);
            read_one(s1, id) == Some((id, text))
        }),
{
}

/// Updating a created todo returns it with the new text, and it then reads
/// back with the new text.
pub proof fn lemma_update_after_create(s: TodoState, t1: Seq<char>, t2: Seq<char>)
    requires
        s.next < TodoId::MAX,
    ensures
        ({
            let (s1, id) = create(s, t1);
            let (s2, r) = update(s1, id, t2);
            &&& r == Some((id, t2))
            &&& read_one(s2, id) == Some((id, t2))
        }),
{
}

/// Updating an identifier with no todo returns nothing and leaves the state,
/// so also the number of todos, as it was; a deleted todo is such a case.
pub proof fn lemma_update_absent(s: TodoState, id: TodoId, text: Seq<char>)
    ensures
        !s.todos.contains_key(id) ==> update(s, id, text) == (s, None::<(TodoId, Seq<char>)>),
        ({
            let s1 = delete(s, id).0;
            let (s2, r) = update(s1, id, text);
            &&& r.is_none()
            &&& s2 == s1
            &&& s2.todos.len() == s1.todos.len()
        }),
{
}

/// Deleting a created todo returns it; deleting it again returns nothing, and
/// it no longer reads back.
pub proof fn lemma_delete_after_create(s: TodoState, text: Seq<char>)
    requires
        s.next < TodoId::MAX,
    ensures
        ({
            let (s1, id) = create(s, text);
            let (s2, r) = delete(s1, id);
            &&& r == Some((id, text))
            &&& delete(s2, id).1.is_none()
            &&& read_one(s2, id).is_none()
        }),
{
}

/// After creating `texts` in order on a fresh service, a page is the slice
/// `[page * limit, page * limit + limit)` of the texts paired with their
/// positions, clipped to the count; a limit of 0, or a page past the end,
/// gives nothing.
pub proof fn lemma_pages_after_creates(texts: Seq<Seq<char>>, page: nat, limit: nat)
    requires
        texts.len() <= TodoId::MAX,
    ensures
        ({
            let s = create_all(initial(), texts).0;
            let all = Seq::new(texts.len(), |i: int| (i as TodoId, texts[i]));
            &&& read_page(s, page, limit) == page_of(all, page, limit)
            &&& limit == 0 ==> read_page(s, page, limit).len() == 0
            &&& page * limit >= texts.len() ==> read_page(s, page, limit).len() == 0
        }),
{
    let s = create_all(initial(), texts).0;
    let all = Seq::new(texts.len(), |i: int| (i as TodoId, texts[i]));
    lemma_create_ids_unique(initial(), texts);
    let ids = create_all(initial(), texts).1;
    let keys = Seq::new(texts.len(), |i: int| i as TodoId);
    assert forall|k: TodoId| #[trigger] s.todos.dom().contains(k) <==> keys.contains(k) by {
        if keys.contains(k) {
            let i = choose|i: int| 0 <= i < keys.len() && keys[i] == k;
            assert(ids[i] == k);
        }
        if s.todos.dom().contains(k) {
            assert(valid(s));
            assert(k < s.next);
            assert(ids[k as int] == k);
            assert(keys[k as int] == k);
        }
    }
    assert(lists_in_order(keys, s.todos.dom()));
    lemma_ordered_listing_unique(keys, ordered_ids(s.todos), s.todos.dom());
    assert forall|i: int| 0 <= i < all.len() implies #[trigger] listing(s.todos)[i] == all[i] by {
        assert(ids[i] == i);
        assert(ordered_ids(s.todos)[i] == keys[i]);
        assert(s.todos.contains_key(ids[i]) && s.todos[ids[i]] == texts[i]);
        assert(keys[i] == ids[i]);
    }
    assert(listing(s.todos) =~= all);
    if limit == 0 {
        assert(page * limit == 0) by (nonlinear_arith)
            requires
                limit == 0,
        ;
    }
}

/// One call that may change a service; reads change nothing and are left out.
pub enum Step {
    Create(Seq<char>),
    Update(TodoId, Seq<char>),
    Delete(TodoId),
}

/// The number of creates among `steps`.
pub open spec fn count_creates(steps: Seq<Step>) -> nat
    decreases steps.len(),
{
    if steps.len() == 0 {
        0
    } else {
        count_creates(steps.drop_last()) + if steps.last() is Create {
            1nat
        } else {
            0nat
        }
    }
}

/// The state after `steps`, and the identifiers that the creates among them returned.
pub open spec fn run(s: TodoState, steps: Seq<Step>) -> (TodoState, Seq<TodoId>)
    decreases steps.len(),
{
    if steps.len() == 0 {
        (s, Seq::empty())
    } else {
        let (s1, ids) = run(s, steps.drop_last());
        match steps.last() {
            Step::Create(t) => {
                let (s2, id) = create(s1, t);
                (s2, ids.push(id))
            },
            Step::Update(id, t) => (update(s1, id, t).0, ids),
            Step::Delete(id) => (delete(s1, id).0, ids),
        }
    }
}

/// Whether `step` updates or deletes `id`.
pub open spec fn touches(step: Step, id: TodoId) -> bool {
    match step {
        Step::Create(_) => false,
        Step::Update(k, _) => k == id,
        Step::Delete(k) => k == id,
    }
}

/// Whether `step` deletes `id`.
pub open spec fn deletes(step: Step, id: TodoId) -> bool {
    step == Step::Delete(id)
}

/// Along any mix of creates, updates and deletes, the creates return
/// identifiers that count up by one from the next identifier (from 0 on a
/// fresh service), each below the counter afterwards, so a later create never
/// returns one of them again, even after it was deleted; the state stays
/// valid and its todos stay finitely many.
pub proof fn lemma_run_ids(s: TodoState, steps: Seq<Step>)
    requires
        valid(s),
        s.todos.dom().finite(),
        s.next + count_creates(steps) <= TodoId::MAX,
    ensures
        ({
            let (s2, ids) = run(s, steps);
            &&& valid(s2)
            &&& s2.todos.dom().finite()
            &&& ids.len() == count_creates(steps)
            &&& s2.next == s.next + ids.len()
            &&& forall|i: int| 0 <= i < ids.len() ==> #[trigger] ids[i] == s.next + i
            &&& forall|i: int| 0 <= i < ids.len() ==> #[trigger] ids[i] < s2.next
            &&& s == initial() ==> forall|i: int| 0 <= i < ids.len() ==> #[trigger] ids[i] == i
        }),
    decreases steps.len(),
{
    if steps.len() > 0 {
        lemma_run_ids(s, steps.drop_last());
    }
}

/// A todo that no step deletes stays present; if no step updates it either,
/// it keeps its text.
pub proof fn lemma_kept_unless_touched(s: TodoState, steps: Seq<Step>, id: TodoId)
    requires
        valid(s),
        s.next + count_creates(steps) <= TodoId::MAX,
        s.todos.contains_key(id),
        forall|i: int| 0 <= i < steps.len() ==> !deletes(#[trigger] steps[i], id),
    ensures
        run(s, steps).0.todos.contains_key(id),
        (forall|i: int| 0 <= i < steps.len() ==> !touches(#[trigger] steps[i], id))
            ==> run(s, steps).0.todos[id] == s.todos[id],
    decreases steps.len(),
{
    if steps.len() > 0 {
        let init = steps.drop_last();
        assert forall|i: int| 0 <= i < init.len() implies !deletes(#[trigger] init[i], id) by {
            assert(init[i] == steps[i]);
        }
        lemma_kept_unless_touched(s, init, id);
        lemma_run_ids_valid(s, init);
        if forall|i: int| 0 <= i < steps.len() ==> !touches(#[trigger] steps[i], id) {
            assert forall|i: int| 0 <= i < init.len() implies !touches(#[trigger] init[i], id) by {
                assert(init[i] == steps[i]);
            }
            assert(!touches(steps[steps.len() - 1], id));
        }
        assert(!deletes(steps[steps.len() - 1], id));
    }
}

/// Along any steps from a valid state, the state stays valid and the counter
/// goes up by one per create.
proof fn lemma_run_ids_valid(s: TodoState, steps: Seq<Step>)
    requires
        valid(s),
        s.next + count_creates(steps) <= TodoId::MAX,
    ensures
        valid(run(s, steps).0),
        run(s, steps).0.next == s.next + count_creates(steps),
    decreases steps.len(),
{
    if steps.len() > 0 {
        lemma_run_ids_valid(s, steps.drop_last());
    }
}

/// An identifier below the counter with no todo under it (one that was
/// deleted) never gets a todo again, whatever steps follow.
pub proof fn lemma_absent_stays_absent(s: TodoState, steps: Seq<Step>, id: TodoId)
    requires
        valid(s),
        s.next + count_creates(steps) <= TodoId::MAX,
        id < s.next,
        !s.todos.contains_key(id),
    ensures
        !run(s, steps).0.todos.contains_key(id),
    decreases steps.len(),
{
    if steps.len() > 0 {
        lemma_absent_stays_absent(s, steps.drop_last(), id);
        lemma_run_ids_valid(s, steps.drop_last());
    }
}

/// A created todo that no later step deletes can be updated: the update
/// returns it with the new text, and while no step updates or deletes it
/// afterwards it reads back with that text.
pub proof fn lemma_update_later(
    s: TodoState,
    t1: Seq<char>,
    before: Seq<Step>,
    t2: Seq<char>,
    after: Seq<Step>,
)
    requires
        valid(s),
        s.next + 1 + count_creates(before) + count_creates(after) <= TodoId::MAX,
        forall|i: int| 0 <= i < before.len() ==> !deletes(#[trigger] before[i], s.next),
        forall|i: int| 0 <= i < after.len() ==> !touches(#[trigger] after[i], s.next),
    ensures
        ({
            let (s1, id) = create(s, t1);
            let s2 = run(s1, before).0;
            let (s3, r) = update(s2, id, t2);
            &&& r == Some((id, t2))
            &&& read_one(run(s3, after).0, id) == Some((id, t2))
        }),
{
    let (s1, id) = create(s, t1);
    lemma_kept_unless_touched(s1, before, id);
    lemma_run_ids_valid(s1, before);
    let s2 = run(s1, before).0;
    let s3 = update(s2, id, t2).0;
    lemma_operations_keep_valid(s2, id, t2);
    assert forall|i: int| 0 <= i < after.len() implies !deletes(#[trigger] after[i], id) by {
        assert(!touches(after[i], id));
    }
    lemma_kept_unless_touched(s3, after, id);
}

/// In a valid state, an update of an identifier that no create has returned
/// yet, or of one whose todo was deleted and which later steps never brought
/// back, returns nothing and changes nothing.
pub proof fn lemma_update_unknown(s: TodoState, steps: Seq<Step>, id: TodoId, text: Seq<char>)
    requires
        valid(s),
        s.next + count_creates(steps) <= TodoId::MAX,
    ensures
        id >= s.next ==> update(s, id, text) == (s, None::<(TodoId, Seq<char>)>),
        id < s.next ==> ({
            let s1 = run(delete(s, id).0, steps).0;
            update(s1, id, text) == (s1, None::<(TodoId, Seq<char>)>)
        }),
{
    if id < s.next {
        lemma_operations_keep_valid(s, id, text);
        lemma_absent_stays_absent(delete(s, id).0, steps, id);
    }
}

/// A page that starts at or past the number of todos is empty.
pub proof fn lemma_page_past_end(s: TodoState, page: nat, limit: nat)
    requires
        s.todos.dom().finite(),
        page * limit >= s.todos.len(),
    ensures
        read_page(s, page, limit) == Seq::<(TodoId, Seq<char>)>::empty(),
{
    lemma_listing_len(s.todos);
}

} // verus!
