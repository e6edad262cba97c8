use vstd::prelude::*;

use crate::rowfmt::bool_text;
use crate::text::chars_of;
use crate::text::push_char;
use crate::todo::Todo;
use crate::todo::TodoView;
use crate::todo::views;

verus! {

// ---------------------------------------------------------------------------
// The list response: the records as one JSON array of objects with the two
// fields `title` and `done`.  Titles are escaped the usual JSON way: quote
// and backslash with a backslash, the named control characters short, any
// other control character as a four-digit escape.
// ---------------------------------------------------------------------------

pub open spec fn hex_digit(n: int) -> char {
    if n == 0 {
        '0'
    } else if n == 1 {
        '1'
    } else if n == 2 {
        '2'
    } else if n == 3 {
        '3'
    } else if n == 4 {
        '4'
    } else if n == 5 {
        '5'
    } else if n == 6 {
        '6'
    } else if n == 7 {
        '7'
    } else if n == 8 {
        '8'
    } else if n == 9 {
        '9'
    } else if n == 10 {
        'a'
    } else if n == 11 {
        'b'
    } else if n == 12 {
        'c'
    } else if n == 13 {
        'd'
    } else if n == 14 {
        'e'
    } else {
        'f'
    }
}

pub open spec fn json_escaped_char(c: char) -> Seq<char> {
    if c == '"' {
        seq!['\\', '"']
    } else if c == '\\' {
        seq!['\\', '\\']
    } else if c == '\n' {
        seq!['\\', 'n']
    } else if c == '\r' {
        seq!['\\', 'r']
    } else if c == '\t' {
        seq!['\\', 't']
    } else if (c as u32) < 32 {
        seq!['\\', 'u', '0', '0', hex_digit(c as u32 as int / 16), hex_digit(c as u32 as int % 16)]
    } else {
        seq![c]
    }
}

pub open spec fn json_escape(t: Seq<char>) -> Seq<char>
    decreases t.len(),
{
    if t.len() == 0 {
        Seq::empty()
    } else {
        json_escaped_char(t[0]) + json_escape(t.skip(1))
    }
}

pub open spec fn json_todo(v: TodoView) -> Seq<char> {
    seq!['{', '"', 't', 'i', 't', 'l', 'e', '"', ':', '"'] + json_escape(v.title) + seq![
        '"',
        ',',
        '"',
        'd',
        'o',
        'n',
        'e',
        '"',
        ':',
    ] + bool_text(v.done) + seq!['}']
}

/// Every record after the first, each preceded by the separator.
pub open spec fn json_rest(s: Seq<TodoView>) -> Seq<char>
    decreases s.len(),
{
    if s.len() == 0 {
        Seq::empty()
    } else {
        seq![','] + json_todo(s[0]) + json_rest(s.skip(1))
    }
}

pub open spec fn json_of(s: Seq<TodoView>) -> Seq<char> {
    if s.len() == 0 {
        seq!['[', ']']
    } else {
        seq!['['] + json_todo(s[0]) + json_rest(s.skip(1)) + seq![']']
    }
}

proof fn lemma_json_escape_push(t: Seq<char>, c: char)
    ensures
        json_escape(t.push(c)) == json_escape(t) + json_escaped_char(c),
    decreases t.len(),
{
    if t.len() == 0 {
        assert(t.push(c)[0] == c);
        assert(t.push(c).skip(1) =~= Seq::<char>::empty());
        assert(json_escape(t.push(c)) == json_escaped_char(c) + json_escape(t.push(c).skip(1)));
        assert(json_escape(t.push(c)) =~= json_escape(t) + json_escaped_char(c));
    } else {
        assert(t.push(c)[0] == t[0]);
        assert(t.push(c).skip(1) =~= t.skip(1).push(c));
        lemma_json_escape_push(t.skip(1), c);
        assert(json_escape(t.push(c)) =~= json_escape(t) + json_escaped_char(c));
    }
}

proof fn lemma_json_rest_push(s: Seq<TodoView>, v: TodoView)
    ensures
        json_rest(s.push(v)) == json_rest(s) + seq![','] + json_todo(v),
    decreases s.len(),
{
    if s.len() == 0 {
        assert(s.push(v)[0] == v);
        assert(s.push(v).skip(1) =~= Seq::<TodoView>::empty());
        assert(json_rest(s.push(v)) == seq![','] + json_todo(v) + json_rest(s.push(v).skip(1)));
        assert(json_rest(s.push(v)) =~= json_rest(s) + seq![','] + json_todo(v));
    } else {
        assert(s.push(v)[0] == s[0]);
        assert(s.push(v).skip(1) =~= s.skip(1).push(v));
        lemma_json_rest_push(s.skip(1), v);
        assert(json_rest(s.push(v)) =~= json_rest(s) + seq![','] + json_todo(v));
    }
}

// ---------------------------------------------------------------------------
// The executable writer.
// ---------------------------------------------------------------------------

fn hex_char(d: u8) -> (c: char)
    requires
        d < 16,
    ensures
        c == hex_digit(d as int),
{
    match d {
        0 => '0',
        1 => '1',
        2 => '2',
        3 => '3',
        4 => '4',
        5 => '5',
        6 => '6',
        7 => '7',
        8 => '8',
        9 => '9',
        10 => 'a',
        11 => 'b',
        12 => 'c',
        13 => 'd',
        14 => 'e',
        _ => 'f',
    }
}

fn push_json_escaped(out: &mut String, c: char)
    ensures
        final(out)@ == old(out)@ + json_escaped_char(c),
{
    if c == '"' {
        push_char(out, '\\');
        push_char(out, '"');
    } else if c == '\\' {
        push_char(out, '\\');
        push_char(out, '\\');
    } else if c == '\n' {
        push_char(out, '\\');
        push_char(out, 'n');
    } else if c == '\r' {
        push_char(out, '\\');
        push_char(out, 'r');
    } else if c == '\t' {
        push_char(out, '\\');
        push_char(out, 't');
    } else {
        let u = c as u32;
        if u < 32 {
            push_char(out, '\\');
            push_char(out, 'u');
            push_char(out, '0');
            push_char(out, '0');
            push_char(out, hex_char((u / 16) as u8));
            push_char(out, hex_char((u % 16) as u8));
        } else {
            push_char(out, c);
        }
    }
    proof {
        assert(out@ =~= old(out)@ + json_escaped_char(c));
    }
}

fn push_json_todo(out: &mut String, t: &Todo)
    ensures
        final(out)@ == old(out)@ + json_todo(t@),
{
    out.append("{\"title\":\"");
    proof {
        reveal_strlit("{\"title\":\"");
        assert("{\"title\":\""@ =~= seq!['{', '"', 't', 'i', 't', 'l', 'e', '"', ':', '"']);
    }
    let ghost mid = out@;
    let cs = chars_of(t.title.as_str());
    let mut i: usize = 0;
    while i < cs.len()
        invariant
            i <= cs@.len(),
            cs@ == t.title@,
            out@ == mid + json_escape(t.title@.take(i as int)),
        decreases cs@.len() - i,
    {
        push_json_escaped(out, cs[i]);
        proof {
            assert(t.title@.take(i + 1) =~= t.title@.take(i as int).push(t.title@[i as int]));
            lemma_json_escape_push(t.title@.take(i as int), t.title@[i as int]);
            assert(out@ =~= mid + json_escape(t.title@.take(i + 1)));
        }
        i = i + 1;
    }
    proof {
        assert(t.title@.take(t.title@.len() as int) =~= t.title@);
    }
    out.append("\",\"done\":");
    proof {
        reveal_strlit("\",\"done\":");
        assert("\",\"done\":"@ =~= seq!['"', ',', '"', 'd', 'o', 'n', 'e', '"', ':']);
    }
    if t.done {
        out.append("true");
        proof {
            reveal_strlit("true");
            assert("true"@ =~= bool_text(t@.done));
        }
    } else {
        out.append("false");
        proof {
            reveal_strlit("false");
            assert("false"@ =~= bool_text(t@.done));
        }
    }
    push_char(out, '}');
    proof {
        assert(out@ =~= old(out)@ + json_todo(t@));
    }
}

/// Renders the records as the JSON array the list endpoint returns.
pub fn render_json(todos: &Vec<Todo>) -> (r: String)
    ensures
        r@ == json_of(views(todos@)),
{
    let mut out = String::new();
    push_char(&mut out, '[');
    if todos.len() == 0 {
        push_char(&mut out, ']');
        proof {
            assert(views(todos@).len() == 0);
            assert(out@ =~= json_of(views(todos@)));
        }
        return out;
    }
    push_json_todo(&mut out, &todos[0]);
    proof {
        let vs = views(todos@);
        assert(vs[0] == todos@[0]@);
        assert(vs.take(1).skip(1) =~= Seq::<TodoView>::empty());
        assert(out@ =~= seq!['['] + json_todo(vs[0]) + json_rest(vs.take(1).skip(1)));
    }
    let mut k: usize = 1;
    while k < todos.len()
        invariant
            1 <= k <= todos@.len(),
            todos@.len() > 0,
            out@ == seq!['['] + json_todo(views(todos@)[0]) + json_rest(
                views(todos@).take(k as int).skip(1),
            ),
        decreases todos@.len() - k,
    {
        push_char(&mut out, ',');
        push_json_todo(&mut out, &todos[k]);
        proof {
            let vs = views(todos@);
            assert(vs[k as int] == todos@[k as int]@);
            assert(vs.take(k + 1).skip(1) =~= vs.take(k as int).skip(1).push(vs[k as int]));
            lemma_json_rest_push(vs.take(k as int).skip(1), vs[k as int]);
            assert(out@ =~= seq!['['] + json_todo(vs[0]) + json_rest(vs.take(k + 1).skip(1)));
        }
        k = k + 1;
    }
    push_char(&mut out, ']');
    proof {
        let vs = views(todos@);
        assert(vs.take(vs.len() as int).skip(1) =~= vs.skip(1));
        assert(vs.len() == todos@.len());
        assert(out@ =~= json_of(vs));
    }
    out
}

} // verus!
