use todo_store::Database;
use todo_store::StoreError;
use todo_store::Todo;
use todo_store::rowfmt::parse_todos;
use todo_store::rowfmt::render_todos;

fn todo(title: &str, done: bool) -> Todo {
    Todo::new(title.to_string(), done)
}

fn titles(v: &[Todo]) -> Vec<(String, bool)> {
    v.iter().map(|t| (t.title.clone(), t.done)).collect()
}

#[test]
fn render_empty_store_is_header_alone() {
    let v: Vec<Todo> = Vec::new();
    assert_eq!(render_todos(&v), "title,done\n");
}

#[test]
fn render_exact_plain_row() {
    let v = vec![todo("buy milk", false)];
    assert_eq!(render_todos(&v), "title,done\nbuy milk,false\n");
}

#[test]
fn render_exact_quoted_row() {
    let v = vec![todo("a,\"b", true)];
    assert_eq!(render_todos(&v), "title,done\n\"a,\"\"b\",true\n");
}

#[test]
fn round_trip_simple() {
    let v = vec![todo("buy milk", false), todo("walk dog", true)];
    let text = render_todos(&v);
    let back = parse_todos(&text).expect("rendered text must parse");
    assert_eq!(titles(&back), titles(&v));
}

#[test]
fn round_trip_empty() {
    let v: Vec<Todo> = Vec::new();
    let text = render_todos(&v);
    let back = parse_todos(&text).expect("empty file must parse");
    assert!(back.is_empty());
}

#[test]
fn round_trip_special_titles() {
    let v = vec![
        todo("", false),
        todo("comma, here", true),
        todo("quote \" inside", false),
        todo("line\nbreak", true),
        todo("carriage\rreturn", false),
        todo("\"\"", true),
        todo("donau\u{e4}", true),
    ];
    let text = render_todos(&v);
    let back = parse_todos(&text).expect("rendered text must parse");
    assert_eq!(titles(&back), titles(&v));
}

#[test]
fn parse_rejects_missing_header() {
    assert!(parse_todos("nope\n").is_none());
    assert!(parse_todos("done,title\n").is_none());
}

#[test]
fn parse_rejects_bad_rows() {
    assert!(parse_todos("title,done\ngarbage\n").is_none());
    assert!(parse_todos("title,done\na,maybe\n").is_none());
    assert!(parse_todos("title,done\na,true").is_none());
    assert!(parse_todos("title,done\n\"open,true\n").is_none());
}

#[test]
fn parse_accepts_header_only() {
    let back = parse_todos("title,done\n").expect("header alone is an empty store");
    assert!(back.is_empty());
}

#[test]
fn database_new_keeps_path() {
    let db = Database::new("todos.csv");
    assert_eq!(db.file_path, "todos.csv");
}

#[test]
fn read_missing_file_is_storage_unavailable() {
    let db = Database::new("todos.csv");
    let r = db.read_todos(&None);
    assert_eq!(r.unwrap_err(), StoreError::StorageUnavailable);
}

#[test]
fn read_corrupt_file_is_corrupt_record() {
    let db = Database::new("todos.csv");
    let r = db.read_todos(&Some("title,done\nbroken row\n".to_string()));
    assert_eq!(r.unwrap_err(), StoreError::CorruptRecord);
}

#[test]
fn read_good_file_lists_records() {
    let db = Database::new("todos.csv");
    let r = db.read_todos(&Some("title,done\na,true\nb,false\n".to_string()));
    let v = r.expect("well-formed file must read");
    assert_eq!(titles(&v), vec![("a".to_string(), true), ("b".to_string(), false)]);
}

#[test]
fn add_appends_at_end() {
    let db = Database::new("todos.csv");
    let text = db
        .add_todo(&Some("title,done\nfirst,false\n".to_string()), todo("second", true))
        .expect("add on a readable store succeeds");
    assert_eq!(text, "title,done\nfirst,false\nsecond,true\n");
}

#[test]
fn add_on_empty_file_writes_header_and_row() {
    let db = Database::new("todos.csv");
    let text = db.add_todo(&Some(String::new()), todo("buy milk", false)).unwrap();
    assert_eq!(text, "title,done\nbuy milk,false\n");
}

#[test]
fn add_propagates_storage_failure() {
    let db = Database::new("todos.csv");
    let r = db.add_todo(&None, todo("x", false));
    assert_eq!(r.unwrap_err(), StoreError::StorageUnavailable);
}

#[test]
fn delete_in_range_removes_exactly_one() {
    let db = Database::new("todos.csv");
    let contents = Some("title,done\na,true\nb,false\nc,true\n".to_string());
    let text = db.delete_todo(&contents, 1).unwrap().expect("in range writes back");
    assert_eq!(text, "title,done\na,true\nc,true\n");
}

#[test]
fn delete_last_record_leaves_header_only_file() {
    let db = Database::new("todos.csv");
    let contents = Some("title,done\nonly,true\n".to_string());
    let text = db.delete_todo(&contents, 0).unwrap().expect("in range writes back");
    assert_eq!(text, "title,done\n");
    let back = db.read_todos(&Some(text)).unwrap();
    assert!(back.is_empty());
}

#[test]
fn delete_out_of_range_is_silent_no_op() {
    let db = Database::new("todos.csv");
    let contents = Some("title,done\na,true\nb,false\n".to_string());
    let r = db.delete_todo(&contents, 2).unwrap();
    assert!(r.is_none());
    let r = db.delete_todo(&contents, 17).unwrap();
    assert!(r.is_none());
}

#[test]
fn delete_propagates_storage_failure() {
    let db = Database::new("todos.csv");
    let r = db.delete_todo(&None, 0);
    assert_eq!(r.unwrap_err(), StoreError::StorageUnavailable);
}

#[test]
fn write_then_read_round_trip() {
    let db = Database::new("todos.csv");
    let v = vec![todo("a, b", true), todo("c\"d\n", false), todo("", true)];
    let text = db.write_todos(&v);
    let back = db.read_todos(&Some(text)).unwrap();
    assert_eq!(titles(&back), titles(&v));
}

#[test]
fn append_then_read_is_old_sequence_plus_new_record() {
    let db = Database::new("todos.csv");
    let text0 = db.write_todos(&vec![todo("x", false)]);
    let text1 = db.add_todo(&Some(text0), todo("y", true)).unwrap();
    let back = db.read_todos(&Some(text1)).unwrap();
    assert_eq!(titles(&back), vec![("x".to_string(), false), ("y".to_string(), true)]);
}

#[test]
fn remove_then_read_drops_exactly_that_position() {
    let db = Database::new("todos.csv");
    let text0 = db.write_todos(&vec![todo("x", false), todo("y", true), todo("z", false)]);
    let text1 = db.delete_todo(&Some(text0), 1).unwrap().unwrap();
    let back = db.read_todos(&Some(text1)).unwrap();
    assert_eq!(titles(&back), vec![("x".to_string(), false), ("z".to_string(), false)]);
}

#[test]
fn write_todos_renders_the_file() {
    let db = Database::new("todos.csv");
    let v = vec![todo("a", true)];
    assert_eq!(db.write_todos(&v), "title,done\na,true\n");
}
