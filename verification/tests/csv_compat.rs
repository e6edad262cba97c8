//! The flat-file format against the csv crate: what the library writes, a
//! standard comma-delimited reader must read back, and what a standard
//! writer emits for the same records, the library must parse.

use todo_store::Todo;
use todo_store::rowfmt::parse_todos;
use todo_store::rowfmt::render_todos;

fn todo(title: &str, done: bool) -> Todo {
    Todo::new(title.to_string(), done)
}

fn sample_records() -> Vec<Todo> {
    vec![
        todo("buy milk", false),
        todo("comma, here", true),
        todo("quote \" inside", false),
        todo("line\nbreak", true),
        todo("", false),
    ]
}

#[test]
fn csv_reader_reads_what_the_library_writes() {
    let v = sample_records();
    let text = render_todos(&v);
    let mut rdr = csv::Reader::from_reader(text.as_bytes());
    assert_eq!(rdr.headers().unwrap(), &csv::StringRecord::from(vec!["title", "done"]));
    let mut seen: Vec<(String, bool)> = Vec::new();
    for rec in rdr.records() {
        let rec = rec.expect("csv crate must accept the library's rows");
        assert_eq!(rec.len(), 2);
        let done = match &rec[1] {
            "true" => true,
            "false" => false,
            other => panic!("unexpected flag field: {other}"),
        };
        seen.push((rec[0].to_string(), done));
    }
    let expect: Vec<(String, bool)> = v.iter().map(|t| (t.title.clone(), t.done)).collect();
    assert_eq!(seen, expect);
}

#[test]
fn library_parses_what_a_csv_writer_emits() {
    let v = sample_records();
    let mut wtr = csv::Writer::from_writer(Vec::new());
    wtr.write_record(["title", "done"]).unwrap();
    for t in &v {
        let done = if t.done { "true" } else { "false" };
        wtr.write_record([t.title.as_str(), done]).unwrap();
    }
    let bytes = wtr.into_inner().unwrap();
    let text = String::from_utf8(bytes).unwrap();
    let back = parse_todos(&text).expect("the library must accept standard csv output");
    let got: Vec<(String, bool)> = back.iter().map(|t| (t.title.clone(), t.done)).collect();
    let expect: Vec<(String, bool)> = v.iter().map(|t| (t.title.clone(), t.done)).collect();
    assert_eq!(got, expect);
}

#[test]
fn library_text_matches_csv_writer_text() {
    let v = sample_records();
    let mut wtr = csv::Writer::from_writer(Vec::new());
    wtr.write_record(["title", "done"]).unwrap();
    for t in &v {
        let done = if t.done { "true" } else { "false" };
        wtr.write_record([t.title.as_str(), done]).unwrap();
    }
    let text = String::from_utf8(wtr.into_inner().unwrap()).unwrap();
    assert_eq!(render_todos(&v), text);
}
