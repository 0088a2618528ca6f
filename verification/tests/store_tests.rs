use todo_store::store::{TodoError, TodoState};
use todo_store::todo::Todo;

fn texts(todos: &[Todo]) -> Vec<(u32, String, bool)> {
    todos.iter().map(|t| (t.id, t.text.clone(), t.completed)).collect()
}

#[test]
fn create_assigns_one_for_empty_collection() {
    let mut state = TodoState::new();
    let t = state.create(String::from("first"));
    assert_eq!(t.id, 1);
    assert_eq!(t.text, "first");
    assert!(!t.completed);
}

#[test]
fn create_ids_strictly_increase() {
    let mut state = TodoState::new();
    let mut last = 0u32;
    for i in 0..20 {
        let t = state.create(format!("task {}", i));
        assert!(t.id > last);
        last = t.id;
    }
    let all = state.get_all();
    for i in 0..all.len() {
        for j in 0..all.len() {
            if i != j {
                assert_ne!(all[i].id, all[j].id);
            }
        }
    }
}

#[test]
fn create_uses_max_plus_one_after_replace() {
    let mut state = TodoState::new();
    state.replace_all(vec![
        Todo { id: 7, text: String::from("seven"), completed: false },
        Todo { id: 3, text: String::from("three"), completed: true },
    ]);
    let t = state.create(String::from("next"));
    assert_eq!(t.id, 8);
}

#[test]
fn toggle_flips_and_reports_missing() {
    let mut state = TodoState::new();
    let t = state.create(String::from("a"));
    assert!(state.toggle(t.id).is_ok());
    assert!(state.get_all()[0].completed);
    let missing = state.toggle(t.id + 1);
    match missing {
        Err(TodoError::NotFound(id)) => assert_eq!(id, t.id + 1),
        _ => panic!("expected a not-found error"),
    }
    assert!(state.get_all()[0].completed);
}

#[test]
fn toggle_twice_restores_original() {
    let mut state = TodoState::new();
    state.create(String::from("a"));
    state.create(String::from("b"));
    let before = texts(&state.get_all());
    assert!(state.toggle(2).is_ok());
    assert!(state.toggle(2).is_ok());
    let after = texts(&state.get_all());
    assert_eq!(before, after);
}

#[test]
fn delete_removes_exactly_one() {
    let mut state = TodoState::new();
    state.create(String::from("a"));
    state.create(String::from("b"));
    state.create(String::from("c"));
    let before = state.get_all();
    assert!(state.delete(2).is_ok());
    let after = state.get_all();
    assert_eq!(after.len(), before.len() - 1);
    assert_eq!(texts(&after), vec![
        (1, String::from("a"), false),
        (3, String::from("c"), false),
    ]);
}

#[test]
fn delete_missing_leaves_collection_unchanged() {
    let mut state = TodoState::new();
    state.create(String::from("a"));
    let before = texts(&state.get_all());
    let r = state.delete(99);
    match r {
        Err(TodoError::NotFound(id)) => assert_eq!(id, 99),
        _ => panic!("expected a not-found error"),
    }
    assert_eq!(before, texts(&state.get_all()));
}

#[test]
fn replace_all_overwrites_wholesale() {
    let mut state = TodoState::new();
    state.create(String::from("old"));
    state.replace_all(vec![Todo { id: 5, text: String::from("new"), completed: true }]);
    let all = state.get_all();
    assert_eq!(all.len(), 1);
    assert_eq!(all[0].id, 5);
    assert_eq!(all[0].text, "new");
    assert!(all[0].completed);
}

#[test]
fn default_store_is_empty() {
    let state = TodoState::default();
    assert!(state.get_all().is_empty());
}
