use todo_store::encode::encode_todos;
use todo_store::parse::parse_todos;
use todo_store::todo::Todo;

fn todo(id: u32, text: &str, completed: bool) -> Todo {
    Todo { id, text: String::from(text), completed }
}

fn same(a: &[Todo], b: &[Todo]) -> bool {
    a.len() == b.len()
        && a.iter().zip(b.iter()).all(|(x, y)| {
            x.id == y.id && x.text == y.text && x.completed == y.completed
        })
}

#[test]
fn encode_empty_collection() {
    assert_eq!(encode_todos(&vec![]), "[]");
}

#[test]
fn encode_one_todo_exactly() {
    let out = encode_todos(&vec![todo(1, "buy milk", false)]);
    assert_eq!(
        out,
        "[\n  {\n    \"id\": 1,\n    \"text\": \"buy milk\",\n    \"completed\": false\n  }\n]"
    );
}

#[test]
fn encode_two_todos_exactly() {
    let out = encode_todos(&vec![todo(1, "a", true), todo(2, "b", false)]);
    assert_eq!(
        out,
        "[\n  {\n    \"id\": 1,\n    \"text\": \"a\",\n    \"completed\": true\n  },\n  {\n    \"id\": 2,\n    \"text\": \"b\",\n    \"completed\": false\n  }\n]"
    );
}

#[test]
fn encode_escapes_specials() {
    let out = encode_todos(&vec![todo(1, "a\"b\\c\nd\te\r\u{8}\u{c}", false)]);
    assert!(out.contains("a\\\"b\\\\c\\nd\\te\\r\\b\\f"));
}

#[test]
fn encode_escapes_control_chars_as_hex() {
    let out = encode_todos(&vec![todo(1, "\u{1}\u{1f}", false)]);
    assert!(out.contains("\\u0001\\u001f"));
}

#[test]
fn round_trip_plain() {
    let ts = vec![todo(1, "buy milk", false), todo(2, "walk dog", true)];
    let back = parse_todos(&encode_todos(&ts)).unwrap();
    assert!(same(&ts, &back));
}

#[test]
fn round_trip_exotic_text() {
    let ts = vec![
        todo(1, "", false),
        todo(7, "quote \" slash \\ newline \n tab \t bell \u{7} dove 🕊", true),
        todo(4294967295, "größe, 値, emoji 😀", false),
    ];
    let back = parse_todos(&encode_todos(&ts)).unwrap();
    assert!(same(&ts, &back));
}

#[test]
fn parse_accepts_flexible_whitespace() {
    let src = "  [ { \"id\" : 12 , \"text\" : \"x\" , \"completed\" : true } ]  ";
    let ts = parse_todos(src).unwrap();
    assert_eq!(ts.len(), 1);
    assert_eq!(ts[0].id, 12);
    assert_eq!(ts[0].text, "x");
    assert!(ts[0].completed);
}

#[test]
fn parse_compact_form() {
    let ts = parse_todos("[{\"id\":1,\"text\":\"a\",\"completed\":false},{\"id\":2,\"text\":\"b\",\"completed\":true}]")
        .unwrap();
    assert_eq!(ts.len(), 2);
    assert_eq!(ts[1].id, 2);
    assert!(ts[1].completed);
}

#[test]
fn parse_unicode_escapes() {
    let ts = parse_todos("[{\"id\":1,\"text\":\"\\u0041\\u00e9\\u4e2d\",\"completed\":false}]")
        .unwrap();
    assert_eq!(ts[0].text, "Aé中");
}

#[test]
fn parse_named_escapes() {
    let ts = parse_todos("[{\"id\":1,\"text\":\"\\\"\\\\\\/\\b\\f\\n\\r\\t\",\"completed\":false}]")
        .unwrap();
    assert_eq!(ts[0].text, "\"\\/\u{8}\u{c}\n\r\t");
}

#[test]
fn parse_empty_array() {
    assert!(parse_todos("[]").unwrap().is_empty());
    assert!(parse_todos("  [ ]  ").unwrap().is_empty());
}

#[test]
fn parse_rejects_malformed_documents() {
    for src in [
        "",
        "[",
        "]",
        "{}",
        "[{]",
        "[{\"id\":1,\"text\":\"a\",\"completed\":false}",
        "[{\"id\":1,\"text\":\"a\",\"completed\":false}] trailing",
        "[{\"id\":-1,\"text\":\"a\",\"completed\":false}]",
        "[{\"id\":4294967296,\"text\":\"a\",\"completed\":false}]",
        "[{\"id\":1,\"text\":\"a\",\"completed\":maybe}]",
        "[{\"id\":1,\"text\":\"unterminated,\"completed\":false}]",
        "[{\"id\":1,\"text\":\"bad \\q escape\",\"completed\":false}]",
        "[{\"id\":1,\"text\":\"lone surrogate \\ud800\",\"completed\":false}]",
        "[{\"completed\":false,\"id\":1,\"text\":\"a\"}]",
    ] {
        assert!(parse_todos(src).is_err(), "accepted: {}", src);
    }
}

#[test]
fn parse_largest_id() {
    let ts = parse_todos("[{\"id\":4294967295,\"text\":\"max\",\"completed\":false}]").unwrap();
    assert_eq!(ts[0].id, 4294967295);
}
