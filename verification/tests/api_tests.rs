use todo_store::Database;
use todo_store::StoreError;
use todo_store::Todo;
use todo_store::api::add_todo;
use todo_store::api::delete_todo;
use todo_store::api::list_todos;
use todo_store::api::parse_index;
use todo_store::jsonfmt::render_json;

fn todo(title: &str, done: bool) -> Todo {
    Todo::new(title.to_string(), done)
}

#[test]
fn parse_index_plain_values() {
    assert_eq!(parse_index("0"), Some(0));
    assert_eq!(parse_index("42"), Some(42));
    assert_eq!(parse_index("007"), Some(7));
}

#[test]
fn parse_index_rejects_non_digits() {
    assert_eq!(parse_index("abc"), None);
    assert_eq!(parse_index(""), None);
    assert_eq!(parse_index("1a"), None);
    assert_eq!(parse_index("-1"), None);
    assert_eq!(parse_index("+1"), None);
    assert_eq!(parse_index("1 "), None);
}

#[test]
fn parse_index_rejects_overflow() {
    assert_eq!(parse_index("99999999999999999999999999999999"), None);
    assert_eq!(parse_index(&usize::MAX.to_string()), Some(usize::MAX));
}

#[test]
fn list_of_empty_store_is_empty_array() {
    let db = Database::new("todos.csv");
    assert_eq!(list_todos(&db, &Some(String::new())), "[]");
}

#[test]
fn list_of_missing_file_is_empty_array() {
    let db = Database::new("todos.csv");
    assert_eq!(list_todos(&db, &None), "[]");
}

#[test]
fn list_of_corrupt_file_is_empty_array() {
    let db = Database::new("todos.csv");
    assert_eq!(list_todos(&db, &Some("title,done\nbad row\n".to_string())), "[]");
}

#[test]
fn add_then_list_shows_the_record() {
    let db = Database::new("todos.csv");
    let text = add_todo(&db, &Some(String::new()), Some(todo("buy milk", false)))
        .expect("add on an empty store succeeds");
    assert_eq!(list_todos(&db, &Some(text)), "[{\"title\":\"buy milk\",\"done\":false}]");
}

#[test]
fn delete_first_shifts_second_to_front() {
    let db = Database::new("todos.csv");
    let contents = Some("title,done\nfirst,false\nsecond,true\n".to_string());
    let text = delete_todo(&db, &contents, "0").unwrap().expect("in range writes back");
    assert_eq!(list_todos(&db, &Some(text)), "[{\"title\":\"second\",\"done\":true}]");
}

#[test]
fn add_with_malformed_body_is_client_error() {
    let db = Database::new("todos.csv");
    let contents = Some("title,done\nfirst,false\n".to_string());
    let r = add_todo(&db, &contents, None);
    assert_eq!(r.unwrap_err(), StoreError::InvalidInput);
}

#[test]
fn delete_with_non_numeric_index_is_client_error() {
    let db = Database::new("todos.csv");
    let contents = Some("title,done\nfirst,false\n".to_string());
    let r = delete_todo(&db, &contents, "abc");
    assert_eq!(r.unwrap_err(), StoreError::InvalidInput);
}

#[test]
fn delete_out_of_range_is_success_without_write() {
    let db = Database::new("todos.csv");
    let contents = Some("title,done\nfirst,false\n".to_string());
    let r = delete_todo(&db, &contents, "5").unwrap();
    assert!(r.is_none());
}

#[test]
fn add_propagates_storage_failure_to_request() {
    let db = Database::new("todos.csv");
    let r = add_todo(&db, &None, Some(todo("x", true)));
    assert_eq!(r.unwrap_err(), StoreError::StorageUnavailable);
}

#[test]
fn json_escapes_title_characters() {
    let v = vec![todo("say \"hi\"\\\n\tdone", true)];
    assert_eq!(render_json(&v), "[{\"title\":\"say \\\"hi\\\"\\\\\\n\\tdone\",\"done\":true}]");
}

#[test]
fn json_escapes_control_characters() {
    let v = vec![todo("\u{1}\u{1f}", false)];
    assert_eq!(render_json(&v), "[{\"title\":\"\\u0001\\u001f\",\"done\":false}]");
}

#[test]
fn json_lists_records_in_order() {
    let v = vec![todo("a", true), todo("b", false)];
    assert_eq!(render_json(&v), "[{\"title\":\"a\",\"done\":true},{\"title\":\"b\",\"done\":false}]");
}
