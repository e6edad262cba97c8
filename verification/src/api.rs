use vstd::arithmetic::div_mod::lemma_fundamental_div_mod;
use vstd::prelude::*;

use crate::jsonfmt::json_of;
use crate::jsonfmt::render_json;
use crate::rowfmt::render_file;
use crate::store::Database;
use crate::store::StoreError;
use crate::store::contents_view;
use crate::store::store_read;
use crate::text::chars_of;
use crate::todo::Todo;
use crate::todo::TodoView;

verus! {

// ---------------------------------------------------------------------------
// The position parameter of the delete endpoint: a non-empty run of decimal
// digits whose value fits the machine's index type.
// ---------------------------------------------------------------------------

pub open spec fn is_digit(c: char) -> bool {
    48 <= c as u32 <= 57
}

pub open spec fn digit_val(c: char) -> int {
    c as u32 - 48
}

pub open spec fn digits_val(s: Seq<char>) -> int
    decreases s.len(),
{
    if s.len() == 0 {
        0
    } else {
        digits_val(s.drop_last()) * 10 + digit_val(s.last())
    }
}

pub open spec fn all_digits(s: Seq<char>) -> bool {
    forall|i: int| 0 <= i < s.len() ==> is_digit(s[i])
}

pub open spec fn valid_index(s: Seq<char>) -> bool {
    &&& s.len() > 0
    &&& all_digits(s)
    &&& digits_val(s) <= usize::MAX
}

proof fn lemma_digits_val_nonneg(s: Seq<char>)
    requires
        all_digits(s),
    ensures
        digits_val(s) >= 0,
    decreases s.len(),
{
    if s.len() > 0 {
        assert(forall|i: int| 0 <= i < s.drop_last().len() ==> s.drop_last()[i] == s[i]);
        lemma_digits_val_nonneg(s.drop_last());
    }
}

proof fn lemma_digits_val_take_le(s: Seq<char>, k: int)
    requires
        all_digits(s),
        0 <= k <= s.len(),
    ensures
        digits_val(s.take(k)) <= digits_val(s),
    decreases s.len() - k,
{
    if k == s.len() {
        assert(s.take(k) =~= s);
    } else {
        assert(s.take(k + 1).drop_last() =~= s.take(k));
        assert(s.take(k + 1).last() == s[k]);
        assert(forall|i: int| 0 <= i < s.take(k).len() ==> s.take(k)[i] == s[i]);
        lemma_digits_val_nonneg(s.take(k));
        assert(digits_val(s.take(k + 1)) >= digits_val(s.take(k)));
        lemma_digits_val_take_le(s, k + 1);
    }
}

/// Parses the position from a request path segment: digits only, no sign,
/// no other character, and a value that fits the index type.
pub fn parse_index(s: &str) -> (r: Option<usize>)
    ensures
        match r {
            Some(n) => valid_index(s@) && n == digits_val(s@),
            None => !valid_index(s@),
        },
{
    let cs = chars_of(s);
    if cs.len() == 0 {
        return None;
    }
    let mut n: usize = 0;
    let mut i: usize = 0;
    proof {
        assert(s@.take(0) =~= Seq::<char>::empty());
    }
    while i < cs.len()
        invariant
            i <= cs@.len(),
            cs@ == s@,
            cs@.len() <= usize::MAX,
            all_digits(s@.take(i as int)),
            n == digits_val(s@.take(i as int)),
        decreases cs@.len() - i,
    {
        let c = cs[i];
        let u = c as u32;
        if u < 48 || u > 57 {
            proof {
                assert(!is_digit(s@[i as int]));
            }
            return None;
        }
        let d: usize = (u - 48) as usize;
        proof {
            assert(s@.take(i + 1).drop_last() =~= s@.take(i as int));
            assert(s@.take(i + 1).last() == s@[i as int]);
            assert(d == digit_val(s@[i as int]));
            assert(digits_val(s@.take(i + 1)) == n * 10 + d);
            lemma_fundamental_div_mod(usize::MAX as int, 10);
        }
        if n > usize::MAX / 10 || (n == usize::MAX / 10 && d > usize::MAX % 10) {
            proof {
                assert(n * 10 + d > usize::MAX);
                if all_digits(s@) {
                    lemma_digits_val_take_le(s@, i + 1);
                }
            }
            return None;
        }
        proof {
            assert(n * 10 + d <= usize::MAX);
            assert(forall|j: int|
                0 <= j < s@.take(i + 1).len() ==> s@.take(i + 1)[j] == s@[j]);
        }
        n = n * 10 + d;
        i = i + 1;
    }
    proof {
        assert(s@.take(i as int) =~= s@);
    }
    Some(n)
}

// ---------------------------------------------------------------------------
// The three request handlers, as decisions over the current file text.
// The caller reads the file before the call (`None` when it cannot be
// opened) and writes back whatever text a successful mutation returns.
// ---------------------------------------------------------------------------

/// What listing answers: the records as JSON, or the empty array when the
/// store cannot be read.
pub open spec fn list_response(contents: Option<Seq<char>>) -> Seq<char> {
    match store_read(contents) {
        Ok(s) => json_of(s),
        Err(_) => seq!['[', ']'],
    }
}

/// The list endpoint.  Fail-soft by design: any storage failure is
/// answered with the empty array, never an error.
pub fn list_todos(db: &Database, contents: &Option<String>) -> (r: String)
    ensures
        r@ == list_response(contents_view(*contents)),
{
    match db.read_todos(contents) {
        Ok(todos) => render_json(&todos),
        Err(_) => {
            let mut out = String::new();
            out.append("[]");
            proof {
                reveal_strlit("[]");
                assert(out@ =~= seq!['[', ']']);
            }
            out
        },
    }
}

/// The add endpoint.  A body that did not fit the expected shape arrives
/// as `None` and is answered with `InvalidInput`; otherwise the record is
/// appended and the new file text returned for the caller to write.
pub fn add_todo(db: &Database, contents: &Option<String>, body: Option<Todo>) -> (r: Result<
    String,
    StoreError,
>)
    ensures
        body is None ==> r == Err::<String, StoreError>(StoreError::InvalidInput),
        body is Some ==> match r {
            Ok(text) => {
                &&& store_read(contents_view(*contents)) is Ok
                &&& text@ == render_file(
                    store_read(contents_view(*contents))->Ok_0.push(body->Some_0@),
                )
            },
            Err(e) => store_read(contents_view(*contents)) == Err::<Seq<TodoView>, _>(e),
        },
{
    match body {
        None => Err(StoreError::InvalidInput),
        Some(new_todo) => db.add_todo(contents, new_todo),
    }
}

/// The delete endpoint.  A path segment that is not a plain decimal
/// position is answered with `InvalidInput`; an in-range position returns
/// the new file text, an out-of-range one `Ok(None)`: nothing to write,
/// the request still succeeds.
pub fn delete_todo(db: &Database, contents: &Option<String>, index_text: &str) -> (r: Result<
    Option<String>,
    StoreError,
>)
    ensures
        !valid_index(index_text@) ==> r == Err::<Option<String>, StoreError>(
            StoreError::InvalidInput,
        ),
        valid_index(index_text@) ==> match r {
            Ok(Some(text)) => {
                &&& store_read(contents_view(*contents)) is Ok
                &&& digits_val(index_text@) < store_read(contents_view(*contents))->Ok_0.len()
                &&& text@ == render_file(
                    store_read(contents_view(*contents))->Ok_0.remove(digits_val(index_text@)),
                )
            },
            Ok(None) => {
                &&& store_read(contents_view(*contents)) is Ok
                &&& digits_val(index_text@) >= store_read(contents_view(*contents))->Ok_0.len()
            },
            Err(e) => store_read(contents_view(*contents)) == Err::<Seq<TodoView>, _>(e),
        },
{
    match parse_index(index_text) {
        None => Err(StoreError::InvalidInput),
        Some(index) => db.delete_todo(contents, index),
    }
}

} // verus!
