//! The written text must be plain JSON: an independent JSON parser has to
//! accept it and see the same values.

use todo_store::encode::encode_todos;
use todo_store::todo::Todo;

fn todo(id: u32, text: &str, completed: bool) -> Todo {
    Todo { id, text: String::from(text), completed }
}

#[test]
fn written_text_is_valid_json() {
    let out = encode_todos(&vec![
        todo(1, "buy milk", false),
        todo(2, "walk \"the\" dog\n", true),
    ]);
    let v: serde_json::Value = serde_json::from_str(&out).unwrap();
    let arr = v.as_array().unwrap();
    assert_eq!(arr.len(), 2);
    assert_eq!(arr[0].get("id").unwrap().as_u64().unwrap(), 1);
    assert_eq!(arr[0].get("text").unwrap().as_str().unwrap(), "buy milk");
    assert_eq!(arr[0].get("completed").unwrap().as_bool().unwrap(), false);
    assert_eq!(arr[1].get("id").unwrap().as_u64().unwrap(), 2);
    assert_eq!(arr[1].get("text").unwrap().as_str().unwrap(), "walk \"the\" dog\n");
    assert_eq!(arr[1].get("completed").unwrap().as_bool().unwrap(), true);
}

#[test]
fn written_empty_collection_is_valid_json() {
    let v: serde_json::Value = serde_json::from_str(&encode_todos(&vec![])).unwrap();
    assert!(v.as_array().unwrap().is_empty());
}

#[test]
fn written_escapes_survive_an_independent_parser() {
    let text = "controls \u{1} \u{1f} specials \\ \" / \u{8} \u{c} \r \t astral 🚀";
    let out = encode_todos(&vec![todo(3, text, false)]);
    let v: serde_json::Value = serde_json::from_str(&out).unwrap();
    assert_eq!(
        v.as_array().unwrap()[0].get("text").unwrap().as_str().unwrap(),
        text
    );
}
