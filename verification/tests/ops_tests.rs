use todo_store::ops::{add_todo, delete_todo, get_todos, load_todos, save_todos, toggle_todo};
use todo_store::store::{TodoError, TodoState};
use todo_store::todo::Todo;

#[test]
fn loading_without_a_file_yields_empty_collection() {
    let mut state = TodoState::new();
    state.create(String::from("already here"));
    let loaded = load_todos(&mut state, None).unwrap();
    assert!(loaded.is_empty());
    // the store is left as it was
    assert_eq!(get_todos(&state).len(), 1);
}

#[test]
fn loading_installs_parsed_collection() {
    let mut state = TodoState::new();
    let src = "[\n  {\n    \"id\": 9,\n    \"text\": \"from disk\",\n    \"completed\": true\n  }\n]";
    let loaded = load_todos(&mut state, Some(src)).unwrap();
    assert_eq!(loaded.len(), 1);
    assert_eq!(loaded[0].id, 9);
    let held = get_todos(&state);
    assert_eq!(held.len(), 1);
    assert_eq!(held[0].text, "from disk");
    assert!(held[0].completed);
}

#[test]
fn loading_malformed_content_reports_and_keeps_state() {
    let mut state = TodoState::new();
    state.create(String::from("kept"));
    let r = load_todos(&mut state, Some("not json"));
    assert!(r.is_err());
    assert_eq!(
        r.unwrap_err().message(),
        "stored todos are not a well-formed task array"
    );
    let held = get_todos(&state);
    assert_eq!(held.len(), 1);
    assert_eq!(held[0].text, "kept");
}

#[test]
fn saving_loaded_collection_reproduces_content() {
    // a round trip through save and load changes nothing, whatever the
    // whitespace of the original file was
    let src = "[ {\"id\": 2, \"text\": \"milk\", \"completed\": false} ]";
    let mut state = TodoState::new();
    let loaded = load_todos(&mut state, Some(src)).unwrap();
    let saved_once = save_todos(&mut state, loaded);
    let mut state2 = TodoState::new();
    let reloaded = load_todos(&mut state2, Some(saved_once.as_str())).unwrap();
    let saved_twice = save_todos(&mut state2, reloaded);
    assert_eq!(saved_once, saved_twice);
}

#[test]
fn save_replaces_state_wholesale() {
    let mut state = TodoState::new();
    state.create(String::from("will be dropped"));
    let json = save_todos(
        &mut state,
        vec![Todo { id: 4, text: String::from("supplied"), completed: false }],
    );
    assert!(json.contains("\"supplied\""));
    let held = get_todos(&state);
    assert_eq!(held.len(), 1);
    assert_eq!(held[0].id, 4);
}

#[test]
fn not_found_message_names_the_id() {
    let mut state = TodoState::new();
    match toggle_todo(&mut state, 42) {
        Err(TodoError::NotFound(id)) => {
            assert_eq!(id, 42);
            assert_eq!(TodoError::NotFound(id).message(), "no todo with id 42");
        },
        _ => panic!("expected a not-found error"),
    }
    match delete_todo(&mut state, 7) {
        Err(e) => assert_eq!(e.message(), "no todo with id 7"),
        _ => panic!("expected a not-found error"),
    }
}

#[test]
fn full_scenario_with_reload() {
    let mut state = TodoState::new();

    let (first, _) = add_todo(&mut state, String::from("buy milk"));
    assert_eq!(first.id, 1);
    assert_eq!(first.text, "buy milk");
    assert!(!first.completed);

    let (second, _) = add_todo(&mut state, String::from("walk dog"));
    assert_eq!(second.id, 2);

    let _ = toggle_todo(&mut state, 1).unwrap();
    let held = get_todos(&state);
    assert_eq!(held.len(), 2);
    assert!(held[0].completed);
    assert!(!held[1].completed);

    let json = delete_todo(&mut state, 2).unwrap();
    let held = get_todos(&state);
    assert_eq!(held.len(), 1);
    assert_eq!(held[0].id, 1);

    // reloading what was persisted yields the same single-element collection
    let mut fresh = TodoState::new();
    let reloaded = load_todos(&mut fresh, Some(json.as_str())).unwrap();
    assert_eq!(reloaded.len(), 1);
    assert_eq!(reloaded[0].id, 1);
    assert_eq!(reloaded[0].text, "buy milk");
    assert!(reloaded[0].completed);
}
