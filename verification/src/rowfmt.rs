use vstd::prelude::*;

use crate::text::chars_of;
use crate::text::push_char;
use crate::todo::Todo;
use crate::todo::TodoView;
use crate::todo::views;

verus! {

// ---------------------------------------------------------------------------
// The file layout, stated mathematically.
//
// The store is written as a header row naming the two fields, followed by
// one row per record; an empty store is the header alone.  A field that
// contains a delimiter, a quote or a line break is written quoted, with
// embedded quotes doubled.
// ---------------------------------------------------------------------------

pub open spec fn header_text() -> Seq<char> {
    seq!['t', 'i', 't', 'l', 'e', ',', 'd', 'o', 'n', 'e', '\n']
}

/// Characters that force a field into its quoted form.
pub open spec fn is_special(c: char) -> bool {
    c == ',' || c == '"' || c == '\n' || c == '\r'
}

pub open spec fn needs_quoting(t: Seq<char>) -> bool {
    exists|i: int| 0 <= i < t.len() && is_special(t[i])
}

pub open spec fn escaped_char(c: char) -> Seq<char> {
    if c == '"' {
        seq!['"', '"']
    } else {
        seq![c]
    }
}

/// The body of a quoted field: every quote of the title doubled.
pub open spec fn escape_quotes(t: Seq<char>) -> Seq<char>
    decreases t.len(),
{
    if t.len() == 0 {
        Seq::empty()
    } else {
        escaped_char(t[0]) + escape_quotes(t.skip(1))
    }
}

pub open spec fn render_field(t: Seq<char>) -> Seq<char> {
    if needs_quoting(t) {
        seq!['"'] + escape_quotes(t) + seq!['"']
    } else {
        t
    }
}

pub open spec fn true_text() -> Seq<char> {
    seq!['t', 'r', 'u', 'e']
}

pub open spec fn false_text() -> Seq<char> {
    seq!['f', 'a', 'l', 's', 'e']
}

pub open spec fn bool_text(b: bool) -> Seq<char> {
    if b {
        true_text()
    } else {
        false_text()
    }
}

pub open spec fn render_row(v: TodoView) -> Seq<char> {
    render_field(v.title) + seq![','] + bool_text(v.done) + seq!['\n']
}

pub open spec fn render_rows(s: Seq<TodoView>) -> Seq<char>
    decreases s.len(),
{
    if s.len() == 0 {
        Seq::empty()
    } else {
        render_row(s[0]) + render_rows(s.skip(1))
    }
}

/// The whole file for a given sequence of records: always the header,
/// then the rows.
pub open spec fn render_file(s: Seq<TodoView>) -> Seq<char> {
    header_text() + render_rows(s)
}

// ---------------------------------------------------------------------------
// Parsing, stated mathematically.  Each function consumes a prefix and
// returns the value read together with the remaining text; `None` marks a
// row that does not fit the format.
// ---------------------------------------------------------------------------

pub open spec fn starts_with(s: Seq<char>, p: Seq<char>) -> bool {
    p.len() <= s.len() && s.take(p.len() as int) == p
}

/// Reads the rest of a quoted field, the opening quote already consumed:
/// a doubled quote stands for one quote of the title, a lone quote closes
/// the field.
pub open spec fn parse_quoted_body(s: Seq<char>) -> Option<(Seq<char>, Seq<char>)>
    decreases s.len(),
{
    if s.len() == 0 {
        None
    } else if s[0] == '"' {
        if s.len() >= 2 && s[1] == '"' {
            match parse_quoted_body(s.skip(2)) {
                Some(p) => Some((seq!['"'] + p.0, p.1)),
                None => None,
            }
        } else {
            Some((Seq::empty(), s.skip(1)))
        }
    } else {
        match parse_quoted_body(s.skip(1)) {
            Some(p) => Some((seq![s[0]] + p.0, p.1)),
            None => None,
        }
    }
}

/// Reads an unquoted field: the longest prefix free of special characters.
pub open spec fn parse_unquoted(s: Seq<char>) -> (Seq<char>, Seq<char>)
    decreases s.len(),
{
    if s.len() == 0 {
        (Seq::empty(), Seq::empty())
    } else if is_special(s[0]) {
        (Seq::empty(), s)
    } else {
        let p = parse_unquoted(s.skip(1));
        (seq![s[0]] + p.0, p.1)
    }
}

pub open spec fn parse_field(s: Seq<char>) -> Option<(Seq<char>, Seq<char>)> {
    if s.len() > 0 && s[0] == '"' {
        parse_quoted_body(s.skip(1))
    } else {
        Some(parse_unquoted(s))
    }
}

pub open spec fn parse_bool_nl(s: Seq<char>) -> Option<(bool, Seq<char>)> {
    if starts_with(s, true_text() + seq!['\n']) {
        Some((true, s.skip(5)))
    } else if starts_with(s, false_text() + seq!['\n']) {
        Some((false, s.skip(6)))
    } else {
        None
    }
}

pub open spec fn parse_row(s: Seq<char>) -> Option<(TodoView, Seq<char>)> {
    match parse_field(s) {
        None => None,
        Some(p) => if p.1.len() > 0 && p.1[0] == ',' {
            match parse_bool_nl(p.1.skip(1)) {
                Some(q) => Some((TodoView { title: p.0, done: q.0 }, q.1)),
                None => None,
            }
        } else {
            None
        },
    }
}

pub open spec fn parse_rows(s: Seq<char>) -> Option<Seq<TodoView>>
    decreases s.len(),
{
    if s.len() == 0 {
        Some(Seq::empty())
    } else {
        match parse_row(s) {
            None => None,
            Some(p) => if p.1.len() < s.len() {
                match parse_rows(p.1) {
                    Some(rest) => Some(seq![p.0] + rest),
                    None => None,
                }
            } else {
                None
            },
        }
    }
}

/// The whole file: the header must be present and every row must fit the
/// format.  Empty text is also read as an empty store, so a backing file
/// that was merely created or truncated, never written, still lists.
pub open spec fn parse_file(s: Seq<char>) -> Option<Seq<TodoView>> {
    if s.len() == 0 {
        Some(Seq::empty())
    } else if starts_with(s, header_text()) {
        parse_rows(s.skip(header_text().len() as int))
    } else {
        None
    }
}

// ---------------------------------------------------------------------------
// Round trip: whatever the renderer writes, the parser reads back.
// ---------------------------------------------------------------------------

proof fn lemma_parse_quoted_of_escape(t: Seq<char>, rest: Seq<char>)
    requires
        rest.len() == 0 || rest[0] != '"',
    ensures
        parse_quoted_body(escape_quotes(t) + seq!['"'] + rest) == Some((t, rest)),
    decreases t.len(),
{
    let s = escape_quotes(t) + seq!['"'] + rest;
    if t.len() == 0 {
        assert(s =~= seq!['"'] + rest);
        assert(s.skip(1) =~= rest);
    } else if t[0] == '"' {
        assert(escape_quotes(t) == seq!['"', '"'] + escape_quotes(t.skip(1)));
        assert(s[0] == '"' && s[1] == '"');
        assert(s.skip(2) =~= escape_quotes(t.skip(1)) + seq!['"'] + rest);
        lemma_parse_quoted_of_escape(t.skip(1), rest);
        assert(seq!['"'] + t.skip(1) =~= t);
    } else {
        assert(escape_quotes(t) == seq![t[0]] + escape_quotes(t.skip(1)));
        assert(s[0] == t[0]);
        assert(s.skip(1) =~= escape_quotes(t.skip(1)) + seq!['"'] + rest);
        lemma_parse_quoted_of_escape(t.skip(1), rest);
        assert(seq![t[0]] + t.skip(1) =~= t);
    }
}

proof fn lemma_parse_unquoted_of_plain(t: Seq<char>, rest: Seq<char>)
    requires
        !needs_quoting(t),
        rest.len() > 0,
        is_special(rest[0]),
    ensures
        parse_unquoted(t + rest) == (t, rest),
    decreases t.len(),
{
    let s = t + rest;
    if t.len() == 0 {
        assert(s =~= rest);
    } else {
        assert(!is_special(t[0]));
        assert(!needs_quoting(t.skip(1))) by {
            if needs_quoting(t.skip(1)) {
                let i = choose|i: int| 0 <= i < t.skip(1).len() && is_special(t.skip(1)[i]);
                assert(t.skip(1)[i] == t[i + 1]);
                assert(needs_quoting(t));
            }
        };
        assert(s[0] == t[0]);
        assert(s.skip(1) =~= t.skip(1) + rest);
        lemma_parse_unquoted_of_plain(t.skip(1), rest);
        assert(seq![t[0]] + t.skip(1) =~= t);
    }
}

proof fn lemma_parse_bool_of_render(b: bool, rest: Seq<char>)
    ensures
        parse_bool_nl(bool_text(b) + seq!['\n'] + rest) == Some((b, rest)),
{
    let s = bool_text(b) + seq!['\n'] + rest;
    if b {
        assert(starts_with(s, true_text() + seq!['\n'])) by {
            assert(s.take(5) =~= true_text() + seq!['\n']);
        };
        assert(s.skip(5) =~= rest);
    } else {
        assert(s[0] == 'f');
        assert(!starts_with(s, true_text() + seq!['\n'])) by {
            if starts_with(s, true_text() + seq!['\n']) {
                assert(s.take(5)[0] == (true_text() + seq!['\n'])[0]);
                assert(s.take(5)[0] == s[0]);
            }
        };
        assert(starts_with(s, false_text() + seq!['\n'])) by {
            assert(s.take(6) =~= false_text() + seq!['\n']);
        };
        assert(s.skip(6) =~= rest);
    }
}

proof fn lemma_parse_row_of_render(v: TodoView, rest: Seq<char>)
    ensures
        parse_row(render_row(v) + rest) == Some((v, rest)),
{
    let s = render_row(v) + rest;
    let tail = seq![','] + bool_text(v.done) + seq!['\n'] + rest;
    assert(s =~= render_field(v.title) + tail);
    assert(tail[0] == ',');
    if needs_quoting(v.title) {
        assert(s[0] == '"');
        assert(s.skip(1) =~= escape_quotes(v.title) + seq!['"'] + tail);
        lemma_parse_quoted_of_escape(v.title, tail);
        assert(parse_field(s) == Some((v.title, tail)));
    } else {
        assert(s.len() == 0 || s[0] != '"') by {
            if v.title.len() > 0 {
                assert(!is_special(v.title[0]));
                assert(s[0] == v.title[0]);
            } else {
                assert(s =~= tail);
            }
        };
        lemma_parse_unquoted_of_plain(v.title, tail);
        assert(parse_field(s) == Some((v.title, tail)));
    }
    assert(tail.skip(1) =~= bool_text(v.done) + seq!['\n'] + rest);
    lemma_parse_bool_of_render(v.done, rest);
    assert(parse_row(s) == Some((v, rest)));
}

proof fn lemma_parse_rows_of_render(s: Seq<TodoView>)
    ensures
        parse_rows(render_rows(s)) == Some(s),
    decreases s.len(),
{
    if s.len() == 0 {
    } else {
        let r = render_rows(s);
        let tail = render_rows(s.skip(1));
        assert(r == render_row(s[0]) + tail);
        lemma_parse_row_of_render(s[0], tail);
        assert(render_row(s[0]).len() >= 2);
        assert(tail.len() < r.len());
        lemma_parse_rows_of_render(s.skip(1));
        assert(seq![s[0]] + s.skip(1) =~= s);
    }
}

/// Round-trip law of the file format: a file written for any sequence of
/// records parses back to exactly that sequence.
pub proof fn lemma_parse_of_render(s: Seq<TodoView>)
    ensures
        parse_file(render_file(s)) == Some(s),
{
    let f = render_file(s);
    assert(f.len() >= 11);
    assert(starts_with(f, header_text())) by {
        assert(f.take(11) =~= header_text());
    };
    assert(f.skip(11) =~= render_rows(s));
    lemma_parse_rows_of_render(s);
}

// ---------------------------------------------------------------------------
// Unfolding lemmas used by the executable renderer.
// ---------------------------------------------------------------------------

proof fn lemma_escape_quotes_push(t: Seq<char>, c: char)
    ensures
        escape_quotes(t.push(c)) == escape_quotes(t) + escaped_char(c),
    decreases t.len(),
{
    if t.len() == 0 {
        assert(t.push(c)[0] == c);
        assert(t.push(c).skip(1) =~= Seq::<char>::empty());
        assert(escape_quotes(t.push(c)) == escaped_char(c) + escape_quotes(t.push(c).skip(1)));
        assert(escape_quotes(t.push(c)) =~= escape_quotes(t) + escaped_char(c));
    } else {
        assert(t.push(c)[0] == t[0]);
        assert(t.push(c).skip(1) =~= t.skip(1).push(c));
        lemma_escape_quotes_push(t.skip(1), c);
        assert(escape_quotes(t.push(c)) =~= escape_quotes(t) + escaped_char(c));
    }
}

proof fn lemma_render_rows_push(s: Seq<TodoView>, v: TodoView)
    ensures
        render_rows(s.push(v)) == render_rows(s) + render_row(v),
    decreases s.len(),
{
    if s.len() == 0 {
        assert(s.push(v)[0] == v);
        assert(s.push(v).skip(1) =~= Seq::<TodoView>::empty());
        assert(render_rows(s.push(v)) == render_row(v) + render_rows(s.push(v).skip(1)));
        assert(render_rows(s.push(v)) =~= render_rows(s) + render_row(v));
    } else {
        assert(s.push(v)[0] == s[0]);
        assert(s.push(v).skip(1) =~= s.skip(1).push(v));
        lemma_render_rows_push(s.skip(1), v);
        assert(render_rows(s.push(v)) =~= render_rows(s) + render_row(v));
    }
}

// ---------------------------------------------------------------------------
// The executable renderer.
// ---------------------------------------------------------------------------

fn contains_special(cs: &Vec<char>) -> (r: bool)
    ensures
        r == needs_quoting(cs@),
{
    let mut i: usize = 0;
    while i < cs.len()
        invariant
            i <= cs@.len(),
            forall|j: int| 0 <= j < i ==> !is_special(cs@[j]),
        decreases cs@.len() - i,
    {
        let c = cs[i];
        if c == ',' || c == '"' || c == '\n' || c == '\r' {
            proof {
                assert(is_special(cs@[i as int]));
            }
            return true;
        }
        i = i + 1;
    }
    proof {
        assert(!needs_quoting(cs@));
    }
    false
}

/// Writes one field: the title itself, or its quoted form when it holds a
/// special character.
fn push_field(out: &mut String, title: &String)
    ensures
        final(out)@ == old(out)@ + render_field(title@),
{
    let cs = chars_of(title.as_str());
    if !contains_special(&cs) {
        out.append(title.as_str());
    } else {
        let ghost start = out@;
        push_char(out, '"');
        let mut i: usize = 0;
        while i < cs.len()
            invariant
                i <= cs@.len(),
                cs@ == title@,
                out@ == start + seq!['"'] + escape_quotes(title@.take(i as int)),
            decreases cs@.len() - i,
        {
            let c = cs[i];
            if c == '"' {
                push_char(out, '"');
                push_char(out, '"');
            } else {
                push_char(out, c);
            }
            proof {
                assert(title@.take(i + 1) =~= title@.take(i as int).push(title@[i as int]));
                lemma_escape_quotes_push(title@.take(i as int), title@[i as int]);
                assert(out@ =~= start + seq!['"'] + escape_quotes(title@.take(i + 1)));
            }
            i = i + 1;
        }
        push_char(out, '"');
        proof {
            assert(title@.take(title@.len() as int) =~= title@);
            assert(out@ =~= start + render_field(title@));
        }
    }
}

/// Writes one record as a row: field, delimiter, flag, line break.
fn push_row(out: &mut String, t: &Todo)
    ensures
        final(out)@ == old(out)@ + render_row(t@),
{
    push_field(out, &t.title);
    push_char(out, ',');
    if t.done {
        out.append("true\n");
        proof {
            reveal_strlit("true\n");
            assert("true\n"@ =~= bool_text(t@.done) + seq!['\n']);
        }
    } else {
        out.append("false\n");
        proof {
            reveal_strlit("false\n");
            assert("false\n"@ =~= bool_text(t@.done) + seq!['\n']);
        }
    }
    proof {
        assert(out@ =~= old(out)@ + render_row(t@));
    }
}

/// Renders the whole store as file text: the header followed by one row
/// per record.
pub fn render_todos(todos: &Vec<Todo>) -> (r: String)
    ensures
        r@ == render_file(views(todos@)),
{
    let mut out = String::new();
    out.append("title,done\n");
    proof {
        reveal_strlit("title,done\n");
        assert("title,done\n"@ =~= header_text());
        assert(views(todos@).take(0) =~= Seq::<TodoView>::empty());
        assert(out@ =~= header_text() + render_rows(views(todos@).take(0)));
    }
    let mut k: usize = 0;
    while k < todos.len()
        invariant
            k <= todos@.len(),
            out@ == header_text() + render_rows(views(todos@).take(k as int)),
        decreases todos@.len() - k,
    {
        push_row(&mut out, &todos[k]);
        proof {
            let vs = views(todos@);
            assert(vs[k as int] == todos@[k as int]@);
            assert(vs.take(k + 1) =~= vs.take(k as int).push(vs[k as int]));
            lemma_render_rows_push(vs.take(k as int), vs[k as int]);
            assert(out@ =~= header_text() + render_rows(vs.take(k + 1)));
        }
        k = k + 1;
    }
    proof {
        assert(views(todos@).take(todos@.len() as int) =~= views(todos@));
        assert(views(todos@).len() == todos@.len());
    }
    out
}

// ---------------------------------------------------------------------------
// The executable parser.
// ---------------------------------------------------------------------------

fn starts_with_at(cs: &Vec<char>, i: usize, pat: &Vec<char>) -> (r: bool)
    requires
        i <= cs@.len(),
    ensures
        r == starts_with(cs@.skip(i as int), pat@),
{
    if cs.len() - i < pat.len() {
        return false;
    }
    let mut j: usize = 0;
    while j < pat.len()
        invariant
            j <= pat@.len(),
            i + pat@.len() <= cs@.len(),
            cs@.len() <= usize::MAX,
            forall|k: int| 0 <= k < j ==> cs@[i + k] == pat@[k],
        decreases pat@.len() - j,
    {
        if cs[i + j] != pat[j] {
            proof {
                if starts_with(cs@.skip(i as int), pat@) {
                    assert(cs@.skip(i as int).take(pat@.len() as int)[j as int] == pat@[j as int]);
                    assert(cs@.skip(i as int)[j as int] == cs@[i + j]);
                }
            }
            return false;
        }
        j = j + 1;
    }
    proof {
        assert(cs@.skip(i as int).take(pat@.len() as int) =~= pat@);
    }
    true
}

/// Reads one field starting at `i`; on success returns the title and the
/// position just past the field.
fn parse_field_at(cs: &Vec<char>, i: usize) -> (r: Option<(String, usize)>)
    requires
        i <= cs@.len(),
    ensures
        match r {
            Some(p) => {
                &&& i <= p.1 <= cs@.len()
                &&& parse_field(cs@.skip(i as int)) == Some((p.0@, cs@.skip(p.1 as int)))
            },
            None => parse_field(cs@.skip(i as int)) is None,
        },
{
    let mut acc = String::new();
    if i < cs.len() && cs[i] == '"' {
        let mut k: usize = i + 1;
        while k < cs.len()
            invariant
                i + 1 <= k <= cs@.len(),
                i < cs@.len(),
                cs@[i as int] == '"',
                match parse_quoted_body(cs@.skip(k as int)) {
                    Some(q) => parse_quoted_body(cs@.skip(i as int + 1)) == Some(
                        (acc@ + q.0, q.1),
                    ),
                    None => parse_quoted_body(cs@.skip(i as int + 1)) is None,
                },
            decreases cs@.len() - k,
        {
            let c = cs[k];
            if c == '"' {
                if k + 1 < cs.len() && cs[k + 1] == '"' {
                    proof {
                        let s = cs@.skip(k as int);
                        assert(s[0] == '"' && s.len() >= 2 && s[1] == '"');
                        assert(s.skip(2) =~= cs@.skip(k as int + 2));
                        if parse_quoted_body(cs@.skip(k as int + 2)) is Some {
                            let q = parse_quoted_body(cs@.skip(k as int + 2))->Some_0;
                            assert(parse_quoted_body(s) == Some((seq!['"'] + q.0, q.1)));
                            assert(acc@ + (seq!['"'] + q.0) =~= acc@.push('"') + q.0);
                        }
                    }
                    push_char(&mut acc, '"');
                    k = k + 2;
                } else {
                    proof {
                        let s = cs@.skip(k as int);
                        assert(s[0] == '"');
                        assert(s.len() < 2 || s[1] != '"') by {
                            if s.len() >= 2 {
                                assert(s[1] == cs@[k as int + 1]);
                            }
                        };
                        assert(s.skip(1) =~= cs@.skip(k as int + 1));
                        assert(parse_quoted_body(s) == Some(
                            (Seq::<char>::empty(), cs@.skip(k as int + 1)),
                        ));
                        assert(acc@ + Seq::<char>::empty() =~= acc@);
                        assert(cs@.skip(i as int).skip(1) =~= cs@.skip(i as int + 1));
                        assert(cs@.skip(i as int).len() > 0 && cs@.skip(i as int)[0] == '"');
                    }
                    return Some((acc, k + 1));
                }
            } else {
                proof {
                    let s = cs@.skip(k as int);
                    assert(s[0] == c && c != '"');
                    assert(s.skip(1) =~= cs@.skip(k as int + 1));
                    if parse_quoted_body(cs@.skip(k as int + 1)) is Some {
                        let q = parse_quoted_body(cs@.skip(k as int + 1))->Some_0;
                        assert(parse_quoted_body(s) == Some((seq![c] + q.0, q.1)));
                        assert(acc@ + (seq![c] + q.0) =~= acc@.push(c) + q.0);
                    }
                }
                push_char(&mut acc, c);
                k = k + 1;
            }
        }
        proof {
            assert(cs@.skip(k as int) =~= Seq::<char>::empty());
            assert(parse_quoted_body(cs@.skip(k as int)) is None);
            assert(cs@.skip(i as int).skip(1) =~= cs@.skip(i as int + 1));
            assert(cs@.skip(i as int).len() > 0 && cs@.skip(i as int)[0] == '"');
        }
        None
    } else {
        let mut k: usize = i;
        while k < cs.len() && !(cs[k] == ',' || cs[k] == '"' || cs[k] == '\n' || cs[k] == '\r')
            invariant
                i <= k <= cs@.len(),
                parse_unquoted(cs@.skip(i as int)).0 == acc@ + parse_unquoted(
                    cs@.skip(k as int),
                ).0,
                parse_unquoted(cs@.skip(i as int)).1 == parse_unquoted(cs@.skip(k as int)).1,
            decreases cs@.len() - k,
        {
            let c = cs[k];
            proof {
                let s = cs@.skip(k as int);
                assert(s[0] == c && !is_special(c));
                assert(s.skip(1) =~= cs@.skip(k as int + 1));
                let q = parse_unquoted(cs@.skip(k as int + 1));
                assert(parse_unquoted(s).0 == seq![c] + q.0 && parse_unquoted(s).1 == q.1);
                assert(acc@ + (seq![c] + q.0) =~= acc@.push(c) + q.0);
            }
            push_char(&mut acc, c);
            k = k + 1;
        }
        proof {
            let s = cs@.skip(k as int);
            if k == cs@.len() {
                assert(s =~= Seq::<char>::empty());
                assert(parse_unquoted(s).0 =~= Seq::<char>::empty());
                assert(parse_unquoted(s).1 =~= cs@.skip(k as int));
            } else {
                assert(s[0] == cs@[k as int] && is_special(s[0]));
                assert(parse_unquoted(s).0 == Seq::<char>::empty() && parse_unquoted(s).1 == s);
            }
            assert(acc@ + Seq::<char>::empty() =~= acc@);
            assert(parse_unquoted(cs@.skip(i as int)).0 == acc@);
            assert(parse_unquoted(cs@.skip(i as int)).1 == cs@.skip(k as int));
            assert(!(cs@.skip(i as int).len() > 0 && cs@.skip(i as int)[0] == '"')) by {
                if i < cs@.len() {
                    assert(cs@.skip(i as int)[0] == cs@[i as int]);
                }
            };
        }
        Some((acc, k))
    }
}

/// Reads the flag and line break that close a row.
fn parse_bool_at(cs: &Vec<char>, i: usize) -> (r: Option<(bool, usize)>)
    requires
        i <= cs@.len(),
    ensures
        match r {
            Some(p) => {
                &&& i < p.1 <= cs@.len()
                &&& parse_bool_nl(cs@.skip(i as int)) == Some((p.0, cs@.skip(p.1 as int)))
            },
            None => parse_bool_nl(cs@.skip(i as int)) is None,
        },
{
    let n: usize = cs.len();
    let tpat = chars_of("true\n");
    let fpat = chars_of("false\n");
    proof {
        assert(n == cs@.len());
        reveal_strlit("true\n");
        reveal_strlit("false\n");
        assert(tpat@ =~= true_text() + seq!['\n']);
        assert(fpat@ =~= false_text() + seq!['\n']);
    }
    if starts_with_at(cs, i, &tpat) {
        proof {
            assert(i + 5 <= n);
            assert(cs@.skip(i as int).skip(5) =~= cs@.skip(i as int + 5));
        }
        Some((true, i + 5))
    } else if starts_with_at(cs, i, &fpat) {
        proof {
            assert(i + 6 <= n);
            assert(cs@.skip(i as int).skip(6) =~= cs@.skip(i as int + 6));
        }
        Some((false, i + 6))
    } else {
        None
    }
}

/// Reads one full row starting at `i`.
fn parse_row_at(cs: &Vec<char>, i: usize) -> (r: Option<(Todo, usize)>)
    requires
        i <= cs@.len(),
    ensures
        match r {
            Some(p) => {
                &&& i < p.1 <= cs@.len()
                &&& parse_row(cs@.skip(i as int)) == Some((p.0@, cs@.skip(p.1 as int)))
            },
            None => parse_row(cs@.skip(i as int)) is None,
        },
{
    match parse_field_at(cs, i) {
        None => None,
        Some((title, j)) => {
            if j < cs.len() && cs[j] == ',' {
                proof {
                    assert(cs@.skip(j as int)[0] == cs@[j as int]);
                    assert(cs@.skip(j as int).skip(1) =~= cs@.skip(j as int + 1));
                }
                match parse_bool_at(cs, j + 1) {
                    None => None,
                    Some((d, m)) => {
                        proof {
                            assert(parse_row(cs@.skip(i as int)) == Some(
                                (TodoView { title: title@, done: d }, cs@.skip(m as int)),
                            ));
                        }
                        Some((Todo { title, done: d }, m))
                    },
                }
            } else {
                proof {
                    if j < cs@.len() {
                        assert(cs@.skip(j as int)[0] == cs@[j as int]);
                    } else {
                        assert(cs@.skip(j as int).len() == 0);
                    }
                }
                None
            }
        },
    }
}

/// Parses file text back into records; `None` marks text that does not fit
/// the format.
pub fn parse_todos(text: &str) -> (r: Option<Vec<Todo>>)
    ensures
        match r {
            Some(v) => parse_file(text@) == Some(views(v@)),
            None => parse_file(text@) is None,
        },
{
    let cs = chars_of(text);
    if cs.len() == 0 {
        let empty_list: Vec<Todo> = Vec::new();
        proof {
            assert(views(empty_list@) =~= Seq::<TodoView>::empty());
        }
        return Some(empty_list);
    }
    let hpat = chars_of("title,done\n");
    proof {
        reveal_strlit("title,done\n");
        assert(hpat@ =~= header_text());
        assert(cs@.skip(0) =~= cs@);
    }
    if !starts_with_at(&cs, 0, &hpat) {
        return None;
    }
    let mut todos: Vec<Todo> = Vec::new();
    let mut i: usize = 11;
    proof {
        assert(header_text().len() == 11);
        let pr = parse_rows(cs@.skip(11));
        if pr is Some {
            assert(views(todos@) + pr->Some_0 =~= pr->Some_0);
        }
    }
    while i < cs.len()
        invariant
            11 <= i <= cs@.len(),
            cs@ == text@,
            text@.len() > 0,
            starts_with(text@, header_text()),
            match parse_rows(cs@.skip(i as int)) {
                Some(tail) => parse_rows(cs@.skip(11)) == Some(views(todos@) + tail),
                None => parse_rows(cs@.skip(11)) is None,
            },
        decreases cs@.len() - i,
    {
        match parse_row_at(&cs, i) {
            None => {
                proof {
                    assert(cs@.skip(i as int).len() > 0);
                    assert(parse_rows(cs@.skip(i as int)) is None);
                }
                return None;
            },
            Some((t, j)) => {
                proof {
                    let s = cs@.skip(i as int);
                    assert(s.len() > 0);
                    assert(cs@.skip(j as int).len() < s.len());
                    let ghost old_views = views(todos@);
                    if parse_rows(cs@.skip(j as int)) is Some {
                        let rest = parse_rows(cs@.skip(j as int))->Some_0;
                        assert(parse_rows(s) == Some(seq![t@] + rest));
                        assert(old_views + (seq![t@] + rest) =~= old_views.push(t@) + rest);
                    } else {
                        assert(parse_rows(s) is None);
                    }
                }
                let ghost before = todos@;
                todos.push(t);
                proof {
                    assert(views(todos@) =~= views(before).push(t@));
                }
                i = j;
            },
        }
    }
    proof {
        assert(cs@.skip(i as int) =~= Seq::<char>::empty());
        assert(parse_rows(cs@.skip(i as int)) == Some(Seq::<TodoView>::empty()));
        assert(views(todos@) + Seq::<TodoView>::empty() =~= views(todos@));
        assert(text@.skip(11) == cs@.skip(11));
    }
    Some(todos)
}

} // verus!
