use vstd::prelude::*;

use crate::rowfmt::parse_file;
use crate::rowfmt::parse_todos;
use crate::rowfmt::render_file;
use crate::rowfmt::render_todos;
use crate::rowfmt::lemma_parse_of_render;
use crate::todo::Todo;
use crate::todo::TodoView;
use crate::todo::views;

verus! {

/// The ways a store or request operation can fail.
#[derive(Clone, Copy, Debug, PartialEq, Eq, Structural)]
pub enum StoreError {
    /// The backing file could not be opened.
    StorageUnavailable,
    /// A row of the backing file does not fit the format.
    CorruptRecord,
    /// Writing or flushing the backing file failed.
    WriteFailure,
    /// A request body or path parameter does not fit the expected shape.
    InvalidInput,
}

/// What reading the store means: `None` stands for a file that could not
/// be opened, `Some` for the text it held.
pub open spec fn store_read(contents: Option<Seq<char>>) -> Result<Seq<TodoView>, StoreError> {
    match contents {
        None => Err(StoreError::StorageUnavailable),
        Some(text) => match parse_file(text) {
            Some(s) => Ok(s),
            None => Err(StoreError::CorruptRecord),
        },
    }
}

/// The text a caller handed in, as a character sequence.
pub open spec fn contents_view(contents: Option<String>) -> Option<Seq<char>> {
    match contents {
        None => None,
        Some(text) => Some(text@),
    }
}

/// The record sequence a read returned, record by record.
pub open spec fn read_view(r: Result<Vec<Todo>, StoreError>) -> Result<Seq<TodoView>, StoreError> {
    match r {
        Ok(v) => Ok(views(v@)),
        Err(e) => Err(e),
    }
}

/// The record store: an ordered sequence of todos backed by one flat file.
///
/// The store itself never touches the file system: every operation takes
/// the current file text (`None` when the file could not be opened) and
/// returns the text to write back, so that the caller owns all I/O.
pub struct Database {
    pub file_path: String,
}

impl Database {
    /// A store backed by the file at the given path.
    pub fn new(file_path: &str) -> (db: Database)
        ensures
            db.file_path@ == file_path@,
    {
        Database { file_path: file_path.to_owned() }
    }

    /// Parses the current file text into records: a missing file is
    /// `StorageUnavailable`, a row outside the format `CorruptRecord`.
    pub fn read_todos(&self, contents: &Option<String>) -> (r: Result<Vec<Todo>, StoreError>)
        ensures
            read_view(r) == store_read(contents_view(*contents)),
    {
        match contents {
            None => Err(StoreError::StorageUnavailable),
            Some(text) => match parse_todos(text.as_str()) {
                Some(v) => Ok(v),
                None => Err(StoreError::CorruptRecord),
            },
        }
    }

    /// Renders the given records as the full new file text, replacing
    /// whatever the file held.
    pub fn write_todos(&self, todos: &Vec<Todo>) -> (text: String)
        ensures
            text@ == render_file(views(todos@)),
    {
        render_todos(todos)
    }

    /// Read-modify-write append: on success returns the new file text,
    /// holding the old sequence with the new record at its end.
    pub fn add_todo(&self, contents: &Option<String>, new_todo: Todo) -> (r: Result<
        String,
        StoreError,
    >)
        ensures
            match r {
                Ok(text) => {
                    &&& store_read(contents_view(*contents)) is Ok
                    &&& text@ == render_file(
                        store_read(contents_view(*contents))->Ok_0.push(new_todo@),
                    )
                },
                Err(e) => store_read(contents_view(*contents)) == Err::<Seq<TodoView>, _>(e),
            },
    {
        match self.read_todos(contents) {
            Err(e) => Err(e),
            Ok(mut todos) => {
                let ghost before = todos@;
                todos.push(new_todo);
                proof {
                    assert(views(todos@) =~= views(before).push(new_todo@));
                }
                Ok(self.write_todos(&todos))
            },
        }
    }

    /// Read-modify-write removal by position.  In range, returns the new
    /// file text with exactly that record gone, order kept; out of range,
    /// returns `None`: nothing is to be written and the file stays as it
    /// is.
    pub fn delete_todo(&self, contents: &Option<String>, index: usize) -> (r: Result<
        Option<String>,
        StoreError,
    >)
        ensures
            match r {
                Ok(Some(text)) => {
                    &&& store_read(contents_view(*contents)) is Ok
                    &&& index < store_read(contents_view(*contents))->Ok_0.len()
                    &&& text@ == render_file(
                        store_read(contents_view(*contents))->Ok_0.remove(index as int),
                    )
                },
                Ok(None) => {
                    &&& store_read(contents_view(*contents)) is Ok
                    &&& index >= store_read(contents_view(*contents))->Ok_0.len()
                },
                Err(e) => store_read(contents_view(*contents)) == Err::<Seq<TodoView>, _>(e),
            },
    {
        match self.read_todos(contents) {
            Err(e) => Err(e),
            Ok(mut todos) => {
                if index < todos.len() {
                    let ghost before = todos@;
                    todos.remove(index);
                    proof {
                        assert(views(todos@) =~= views(before).remove(index as int));
                    }
                    Ok(Some(self.write_todos(&todos)))
                } else {
                    Ok(None)
                }
            },
        }
    }
}

// ---------------------------------------------------------------------------
// Laws of the store, composed from the format round trip.
// ---------------------------------------------------------------------------

/// Round trip: a file written for any record sequence reads back as
/// exactly that sequence.
pub proof fn lemma_read_of_write(s: Seq<TodoView>)
    ensures
        store_read(Some(render_file(s))) == Ok::<_, StoreError>(s),
{
    lemma_parse_of_render(s);
}

/// Appending to a store holding `s` and reading again yields `s` with the
/// new record at the end.
pub proof fn lemma_read_of_append(s: Seq<TodoView>, t: TodoView)
    ensures
        store_read(Some(render_file(s.push(t)))) == Ok::<_, StoreError>(s.push(t)),
{
    lemma_read_of_write(s.push(t));
}

/// Removing an in-range position from a store holding `s` and reading
/// again yields `s` with exactly that record gone, order kept.
pub proof fn lemma_read_of_remove(s: Seq<TodoView>, i: int)
    requires
        0 <= i < s.len(),
    ensures
        store_read(Some(render_file(s.remove(i)))) == Ok::<_, StoreError>(s.remove(i)),
{
    lemma_read_of_write(s.remove(i));
}

} // verus!
