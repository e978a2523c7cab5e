use todo_app::service::TodoService;
use todo_app::store::TodoStore;
use todo_app::id_gen::IdGenerator;
use todo_app::todo::Todo;

fn todo(id: u64, text: &str) -> Todo {
    Todo::new(id, text.to_string())
}

#[test]
fn test_add_todo() {
    let mut s = TodoService::new();
    let id = s.add_todo("Test TODO".to_string());
    assert_eq!(id, 0);
}

#[test]
fn test_delete_todo_by_id() {
    let mut s = TodoService::new();
    let id = s.add_todo("Test Todo".to_string());
    let todo = s.get_todo_by_id(id).unwrap();
    let deleted_todo = s.delete_todo_by_id(id);
    assert_eq!(deleted_todo, Some(todo));
}

#[test]
fn test_delete_nonexistent_todo_by_id() {
    let mut s = TodoService::new();
    let deleted_todo = s.delete_todo_by_id(1);
    assert_eq!(deleted_todo, None);
}

#[test]
fn test_get_all_todos() {
    let mut s = TodoService::new();
    let _id = s.add_todo("Test TODO".to_string());
    let todos = s.get_all_todos(0, 10);
    assert_eq!(todos.len(), 1);
    assert_eq!(todos[0].text, "Test TODO");
}

#[test]
fn test_get_all_todos_with_offset() {
    let mut s = TodoService::new();
    let _id = s.add_todo("Test TODO 1".to_string());
    let todos = s.get_all_todos(0, 10);
    assert_eq!(todos.len(), 1);
    assert_eq!(todos[0].text, "Test TODO 1");

    let _id = s.add_todo("Test TODO 2".to_string());
    let todos = s.get_all_todos(0, 10);
    assert_eq!(todos.len(), 2);
    assert_eq!(todos[0].text, "Test TODO 1");
    assert_eq!(todos[1].text, "Test TODO 2");

    let todos = s.get_all_todos(1, 1);
    assert_eq!(todos.len(), 1);
    assert_eq!(todos[0].text, "Test TODO 2");

    let todos = s.get_all_todos(5, 1);
    assert_eq!(todos.len(), 0);
}

#[test]
fn test_get_all_todos_with_offset_and_limit() {
    let mut s = TodoService::new();
    let _id = s.add_todo("Test TODO 1".to_string());
    let _id = s.add_todo("Test TODO 2".to_string());
    let _id = s.add_todo("Test TODO 3".to_string());
    let _id = s.add_todo("Test TODO 4".to_string());
    let _id = s.add_todo("Test TODO 5".to_string());
    let _id = s.add_todo("Test TODO 6".to_string());
    let _id = s.add_todo("Test TODO 7".to_string());
    let _id = s.add_todo("Test TODO 8".to_string());
    let _id = s.add_todo("Test TODO 9".to_string());
    let _id = s.add_todo("Test TODO 10".to_string());

    let todos = s.get_all_todos(0, 2);
    assert_eq!(todos.len(), 2);
    assert_eq!(todos[0].text, "Test TODO 1");
    assert_eq!(todos[1].text, "Test TODO 2");

    let todos = s.get_all_todos(1, 2);
    assert_eq!(todos.len(), 2);
    assert_eq!(todos[0].text, "Test TODO 3");
    assert_eq!(todos[1].text, "Test TODO 4");

    let todos = s.get_all_todos(2, 2);
    assert_eq!(todos.len(), 2);
    assert_eq!(todos[0].text, "Test TODO 5");
    assert_eq!(todos[1].text, "Test TODO 6");

    let todos = s.get_all_todos(3, 2);
    assert_eq!(todos.len(), 2);
    assert_eq!(todos[0].text, "Test TODO 7");
    assert_eq!(todos[1].text, "Test TODO 8");

    let todos = s.get_all_todos(4, 2);
    assert_eq!(todos.len(), 2);
    assert_eq!(todos[0].text, "Test TODO 9");
    assert_eq!(todos[1].text, "Test TODO 10");

    let todos = s.get_all_todos(0, 5);
    assert_eq!(todos.len(), 5);
    assert_eq!(todos[0].text, "Test TODO 1");
    assert_eq!(todos[1].text, "Test TODO 2");
    assert_eq!(todos[2].text, "Test TODO 3");
    assert_eq!(todos[3].text, "Test TODO 4");
    assert_eq!(todos[4].text, "Test TODO 5");

    let todos = s.get_all_todos(1, 5);
    assert_eq!(todos.len(), 5);
    assert_eq!(todos[0].text, "Test TODO 6");
    assert_eq!(todos[1].text, "Test TODO 7");
    assert_eq!(todos[2].text, "Test TODO 8");
    assert_eq!(todos[3].text, "Test TODO 9");
    assert_eq!(todos[4].text, "Test TODO 10");
}

#[test]
fn test_get_todo_by_id() {
    let mut s = TodoService::new();
    let id = s.add_todo("Test Todo".to_string());
    let todo = s.get_todo_by_id(id).unwrap();
    assert_eq!(todo.text, "Test Todo");
}

#[test]
fn test_get_nonexistent_todo_by_id() {
    let s = TodoService::new();
    let todo = s.get_todo_by_id(1);
    assert_eq!(todo, None);
}

#[test]
fn test_update_todo() {
    let mut s = TodoService::new();
    let id = s.add_todo("Test Todo".to_string());
    let todo = s.get_todo_by_id(id).unwrap();
    assert_eq!(todo.text, "Test Todo");

    let updated_todo = s.update_todo(id, "New updated text".to_string());
    let todo = s.get_todo_by_id(id).unwrap();
    assert_eq!(updated_todo, Some(todo));
}

#[test]
fn test_update_nonexistent_todo() {
    let mut s = TodoService::new();
    let updated_todo = s.update_todo(1, "New updated text".to_string());
    assert_eq!(updated_todo, None);
}

#[test]
fn ids_count_up_from_zero_and_stay_distinct() {
    let mut s = TodoService::new();
    let mut last: Option<u64> = None;
    for n in 0..20u64 {
        let id = s.add_todo(format!("item {}", n));
        assert_eq!(id, n);
        if let Some(prev) = last {
            assert!(id > prev);
        }
        last = Some(id);
    }
}

#[test]
fn ids_are_not_reused_after_delete() {
    let mut s = TodoService::new();
    assert_eq!(s.add_todo("a".to_string()), 0);
    assert_eq!(s.add_todo("b".to_string()), 1);
    assert_eq!(s.delete_todo_by_id(1), Some(todo(1, "b")));
    assert_eq!(s.add_todo("c".to_string()), 2);
    assert_eq!(s.get_todo_by_id(1), None);
}

#[test]
fn create_then_read_round_trip() {
    let mut s = TodoService::new();
    let id = s.add_todo("hello".to_string());
    assert_eq!(s.get_todo_by_id(id), Some(todo(id, "hello")));
}

#[test]
fn empty_text_is_accepted() {
    let mut s = TodoService::new();
    let id = s.add_todo(String::new());
    assert_eq!(s.get_todo_by_id(id), Some(todo(id, "")));
}

#[test]
fn update_after_create_is_read_back() {
    let mut s = TodoService::new();
    let id = s.add_todo("t1".to_string());
    assert_eq!(s.update_todo(id, "t2".to_string()), Some(todo(id, "t2")));
    assert_eq!(s.get_todo_by_id(id), Some(todo(id, "t2")));
}

#[test]
fn update_of_deleted_id_changes_nothing() {
    let mut s = TodoService::new();
    let id = s.add_todo("x".to_string());
    let _keep = s.add_todo("y".to_string());
    assert!(s.delete_todo_by_id(id).is_some());
    assert_eq!(s.update_todo(id, "z".to_string()), None);
    assert_eq!(s.get_todo_by_id(id), None);
    assert_eq!(s.get_all_todos(0, 10), vec![todo(1, "y")]);
}

#[test]
fn delete_twice_returns_nothing_the_second_time() {
    let mut s = TodoService::new();
    let id = s.add_todo("gone".to_string());
    assert_eq!(s.delete_todo_by_id(id), Some(todo(id, "gone")));
    assert_eq!(s.delete_todo_by_id(id), None);
    assert_eq!(s.get_todo_by_id(id), None);
}

#[test]
fn pages_are_slices_of_the_ordered_todos() {
    let mut s = TodoService::new();
    for n in 1..=7u64 {
        s.add_todo(format!("T{}", n));
    }
    assert_eq!(s.get_all_todos(1, 3), vec![todo(3, "T4"), todo(4, "T5"), todo(5, "T6")]);
    assert_eq!(s.get_all_todos(2, 3), vec![todo(6, "T7")]);
    assert_eq!(s.get_all_todos(3, 3), vec![]);
    assert_eq!(s.get_all_todos(0, 0), vec![]);
    assert_eq!(s.get_all_todos(5, 0), vec![]);
    assert_eq!(s.get_all_todos(u64::MAX, u64::MAX), vec![]);
    assert_eq!(s.get_all_todos(0, u64::MAX).len(), 7);
}

#[test]
fn scenario_two_items() {
    let mut s = TodoService::new();
    assert_eq!(s.add_todo("a".to_string()), 0);
    assert_eq!(s.add_todo("b".to_string()), 1);
    assert_eq!(s.get_all_todos(0, 1), vec![todo(0, "a")]);
    assert_eq!(s.get_all_todos(1, 1), vec![todo(1, "b")]);
    assert_eq!(s.update_todo(0, "a2".to_string()), Some(todo(0, "a2")));
    assert_eq!(s.delete_todo_by_id(1), Some(todo(1, "b")));
    assert_eq!(s.get_todo_by_id(1), None);
    assert_eq!(s.get_all_todos(0, 10), vec![todo(0, "a2")]);
}

#[test]
fn store_keeps_ascending_order_and_overwrites() {
    let mut st = TodoStore::new();
    st.insert(5, todo(5, "five"));
    st.insert(2, todo(2, "two"));
    st.insert(9, todo(9, "nine"));
    st.insert(2, todo(2, "deux"));
    assert!(st.contains_key(9));
    assert!(!st.contains_key(3));
    assert_eq!(st.get(2), Some(todo(2, "deux")));
    assert_eq!(st.iterate_ordered(), vec![todo(2, "deux"), todo(5, "five"), todo(9, "nine")]);
    assert_eq!(st.remove(5), Some(todo(5, "five")));
    assert_eq!(st.remove(5), None);
    assert_eq!(st.iterate_ordered(), vec![todo(2, "deux"), todo(9, "nine")]);
}

#[test]
fn generator_counts_from_zero() {
    let mut g = IdGenerator::new();
    assert_eq!(g.next_id(), 0);
    assert_eq!(g.next_id(), 1);
    assert_eq!(g.next_id(), 2);
}

#[test]
fn ids_count_up_across_updates_and_deletes() {
    let mut s = TodoService::new();
    assert_eq!(s.add_todo("a".to_string()), 0);
    assert_eq!(s.update_todo(0, "a2".to_string()), Some(todo(0, "a2")));
    assert_eq!(s.delete_todo_by_id(0), Some(todo(0, "a2")));
    assert_eq!(s.add_todo("b".to_string()), 1);
    assert_eq!(s.update_todo(0, "again".to_string()), None);
    assert_eq!(s.add_todo("c".to_string()), 2);
    assert_eq!(s.get_all_todos(0, 10), vec![todo(1, "b"), todo(2, "c")]);
    assert_eq!(s.get_all_todos(1, 2), vec![]);
}

#[test]
fn separate_services_do_not_share_todos() {
    let mut a = TodoService::new();
    assert_eq!(a.add_todo("in a".to_string()), 0);
    let mut b = TodoService::new();
    assert_eq!(b.add_todo("in b".to_string()), 0);
    assert_eq!(a.get_todo_by_id(0), Some(todo(0, "in a")));
    assert_eq!(b.get_todo_by_id(0), Some(todo(0, "in b")));
}
