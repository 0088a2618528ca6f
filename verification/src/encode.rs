//! The writer: turns a task collection into the pretty-printed JSON text
//! described by [`crate::json::enc_todos`], character for character.

use vstd::prelude::*;
use vstd::string::StrSliceExecFns;
use vstd::string::StringExecFns;

use crate::json::{
    dec_chars, digit_char, enc_bool, enc_rest, enc_string, enc_todo, enc_todos, esc_char,
    esc_seq, field_ws, hex_char, item_ws, key_completed, key_id, key_text,
};
use crate::todo::{Todo, TodoView};

verus! {

/// Relies on `String::push`: it appends the given character to the end of
/// the string.
pub assume_specification[ String::push ](s: &mut String, ch: char)
    ensures
        final(s)@ == old(s)@.push(ch),
;

/// The characters of a string slice, in order.
pub fn chars_of(s: &str) -> (v: Vec<char>)
    ensures
        v@ == s@,
{
    let n = s.unicode_len();
    let mut v: Vec<char> = Vec::new();
    let mut i: usize = 0;
    while i < n
        invariant
            i <= n,
            n == s@.len(),
            v@ == s@.subrange(0, i as int),
        decreases n - i,
    {
        let c = s.get_char(i);
        v.push(c);
        i = i + 1;
        proof {
            assert(v@ =~= s@.subrange(0, i as int));
        }
    }
    proof {
        assert(v@ =~= s@);
    }
    v
}

/// A string holding exactly the given characters.
pub fn string_from_chars(v: &Vec<char>) -> (s: String)
    ensures
        s@ == v@,
{
    let mut s = String::new();
    let mut i: usize = 0;
    while i < v.len()
        invariant
            i <= v.len(),
            s@ == v@.subrange(0, i as int),
        decreases v.len() - i,
    {
        s.push(v[i]);
        i = i + 1;
        proof {
            assert(s@ =~= v@.subrange(0, i as int));
        }
    }
    proof {
        assert(s@ =~= v@);
    }
    s
}

/// The character for one decimal digit.
fn digit_char_exec(d: u32) -> (c: char)
    requires
        d < 10,
    ensures
        c == digit_char(d as int),
{
    match d {
        0 => '0',
        1 => '1',
        2 => '2',
        3 => '3',
        4 => '4',
        5 => '5',
        6 => '6',
        7 => '7',
        8 => '8',
        _ => '9',
    }
}

/// The character for one lowercase hexadecimal digit.
fn hex_char_exec(d: u32) -> (c: char)
    requires
        d < 16,
    ensures
        c == hex_char(d as int),
{
    if d < 10 {
        digit_char_exec(d)
    } else {
        match d {
            10 => 'a',
            11 => 'b',
            12 => 'c',
            13 => 'd',
            14 => 'e',
            _ => 'f',
        }
    }
}

/// Append the decimal rendering of `n`.
pub(crate) fn push_dec(s: &mut String, n: u32)
    ensures
        final(s)@ == old(s)@ + dec_chars(n as nat),
    decreases n,
{
    let ghost pre = s@;
    if n >= 10 {
        push_dec(s, n / 10);
    }
    let d = digit_char_exec(n % 10);
    s.push(d);
    proof {
        if n < 10 {
            assert(final(s)@ =~= pre + dec_chars(n as nat));
        } else {
            assert(final(s)@ =~= pre + dec_chars(n as nat));
        }
    }
}

/// Append one text character, escaped as the format requires.
fn push_escaped(s: &mut String, c: char)
    ensures
        final(s)@ == old(s)@ + esc_char(c),
{
    let ghost pre = s@;
    if c == '"' {
        proof {
            reveal_strlit("\\\"");
        }
        s.append("\\\"");
        proof {
            assert(final(s)@ =~= pre + esc_char(c));
        }
    } else if c == '\\' {
        proof {
            reveal_strlit("\\\\");
        }
        s.append("\\\\");
        proof {
            assert(final(s)@ =~= pre + esc_char(c));
        }
    } else if c == '\u{0008}' {
        proof {
            reveal_strlit("\\b");
        }
        s.append("\\b");
        proof {
            assert(final(s)@ =~= pre + esc_char(c));
        }
    } else if c == '\u{000C}' {
        proof {
            reveal_strlit("\\f");
        }
        s.append("\\f");
        proof {
            assert(final(s)@ =~= pre + esc_char(c));
        }
    } else if c == '\n' {
        proof {
            reveal_strlit("\\n");
        }
        s.append("\\n");
        proof {
            assert(final(s)@ =~= pre + esc_char(c));
        }
    } else if c == '\r' {
        proof {
            reveal_strlit("\\r");
        }
        s.append("\\r");
        proof {
            assert(final(s)@ =~= pre + esc_char(c));
        }
    } else if c == '\t' {
        proof {
            reveal_strlit("\\t");
        }
        s.append("\\t");
        proof {
            assert(final(s)@ =~= pre + esc_char(c));
        }
    } else {
        let v = c as u32;
        if v < 0x20 {
            proof {
                reveal_strlit("\\u00");
            }
            s.append("\\u00");
            let h = hex_char_exec(v / 16);
            s.push(h);
            let l = hex_char_exec(v % 16);
            s.push(l);
            proof {
                assert(final(s)@ =~= pre + esc_char(c));
            }
        } else {
            s.push(c);
            proof {
                assert(final(s)@ =~= pre + esc_char(c));
            }
        }
    }
}

/// `esc_seq` grows one escaped character at a time.
proof fn lemma_esc_seq_snoc(p: Seq<char>, c: char)
    ensures
        esc_seq(p.push(c)) == esc_seq(p) + esc_char(c),
    decreases p.len(),
{
    if p.len() == 0 {
        assert(p =~= Seq::<char>::empty());
        assert(p.push(c).drop_first() =~= Seq::<char>::empty());
        assert(esc_seq(Seq::<char>::empty()) =~= Seq::<char>::empty());
        assert(p.push(c)[0] == c);
        assert(esc_seq(p.push(c)) == esc_char(c) + Seq::<char>::empty());
        assert(esc_char(c) + Seq::<char>::empty() =~= Seq::<char>::empty() + esc_char(c));
    } else {
        assert(p.push(c).drop_first() =~= p.drop_first().push(c));
        assert(p.push(c)[0] == p[0]);
        lemma_esc_seq_snoc(p.drop_first(), c);
        assert(esc_seq(p.push(c)) == esc_char(p[0]) + (esc_seq(p.drop_first()) + esc_char(c)));
        assert(esc_char(p[0]) + (esc_seq(p.drop_first()) + esc_char(c)) =~= (esc_char(p[0])
            + esc_seq(p.drop_first())) + esc_char(c));
    }
}

/// Append a whole JSON string, quotes included.
fn push_string(s: &mut String, text: &str)
    ensures
        final(s)@ == old(s)@ + enc_string(text@),
{
    let ghost pre = s@;
    let cs = chars_of(text);
    s.push('"');
    let mut i: usize = 0;
    while i < cs.len()
        invariant
            i <= cs.len(),
            cs@ == text@,
            s@ == pre + seq!['"'] + esc_seq(text@.subrange(0, i as int)),
        decreases cs.len() - i,
    {
        push_escaped(s, cs[i]);
        i = i + 1;
        proof {
            assert(text@.subrange(0, i as int) =~= text@.subrange(0, i - 1).push(
                text@[i - 1],
            ));
            lemma_esc_seq_snoc(text@.subrange(0, i - 1), text@[i - 1]);
            assert(s@ =~= pre + seq!['"'] + esc_seq(text@.subrange(0, i as int)));
        }
    }
    s.push('"');
    proof {
        assert(text@.subrange(0, text@.len() as int) =~= text@);
        assert(s@ =~= pre + enc_string(text@));
    }
}

/// Append `true` or `false`.
fn push_bool(s: &mut String, b: bool)
    ensures
        final(s)@ == old(s)@ + enc_bool(b),
{
    let ghost pre = s@;
    if b {
        proof {
            reveal_strlit("true");
        }
        s.append("true");
    } else {
        proof {
            reveal_strlit("false");
        }
        s.append("false");
    }
    proof {
        assert(s@ =~= pre + enc_bool(b));
    }
}

/// Append one task as a pretty-printed JSON object.
#[verifier::rlimit(100)]
fn push_todo(s: &mut String, t: &Todo)
    ensures
        final(s)@ == old(s)@ + enc_todo(t@),
{
    let ghost pre = s@;
    proof {
        reveal_strlit("{");
        reveal_strlit("\n    ");
        reveal_strlit("\"id\"");
        reveal_strlit(": ");
        reveal_strlit(",");
        reveal_strlit("\"text\"");
        reveal_strlit("\"completed\"");
        reveal_strlit("\n  ");
        reveal_strlit("}");
        assert("\n    "@ =~= field_ws());
        assert("\n  "@ =~= item_ws());
        assert("\"id\""@ =~= key_id());
        assert("\"text\""@ =~= key_text());
        assert("\"completed\""@ =~= key_completed());
    }
    s.append("{");
    s.append("\n    ");
    s.append("\"id\"");
    s.append(": ");
    push_dec(s, t.id);
    s.append(",");
    s.append("\n    ");
    s.append("\"text\"");
    s.append(": ");
    push_string(s, t.text.as_str());
    s.append(",");
    s.append("\n    ");
    s.append("\"completed\"");
    s.append(": ");
    push_bool(s, t.completed);
    s.append("\n  ");
    s.append("}");
    proof {
        assert(s@ =~= pre + enc_todo(t@));
    }
}

/// `enc_rest` grows one task at a time.
proof fn lemma_enc_rest_snoc(p: Seq<TodoView>, t: TodoView)
    ensures
        enc_rest(p.push(t)) == enc_rest(p) + (seq![','] + item_ws() + enc_todo(t)),
    decreases p.len(),
{
    if p.len() == 0 {
        assert(p =~= Seq::<TodoView>::empty());
        assert(p.push(t).drop_first() =~= Seq::<TodoView>::empty());
        assert(enc_rest(Seq::<TodoView>::empty()) =~= Seq::<char>::empty());
        assert(p.push(t)[0] == t);
        assert(enc_rest(p.push(t)) == seq![','] + item_ws() + enc_todo(t) + Seq::<char>::empty());
        assert(seq![','] + item_ws() + enc_todo(t) + Seq::<char>::empty() =~= Seq::<char>::empty()
            + (seq![','] + item_ws() + enc_todo(t)));
    } else {
        assert(p.push(t).drop_first() =~= p.drop_first().push(t));
        assert(p.push(t)[0] == p[0]);
        lemma_enc_rest_snoc(p.drop_first(), t);
        let head = seq![','] + item_ws() + enc_todo(p[0]);
        let tailpiece = seq![','] + item_ws() + enc_todo(t);
        assert(enc_rest(p.push(t)) == head + (enc_rest(p.drop_first()) + tailpiece));
        assert(head + (enc_rest(p.drop_first()) + tailpiece) =~= (head + enc_rest(
            p.drop_first(),
        )) + tailpiece);
        assert(enc_rest(p) == head + enc_rest(p.drop_first()));
    }
}

/// The whole collection as pretty-printed JSON text: exactly
/// [`enc_todos`] of the collection's value.
pub fn encode_todos(todos: &Vec<Todo>) -> (r: String)
    ensures
        r@ == enc_todos(todos.deep_view()),
{
    let ghost ts = todos.deep_view();
    if todos.len() == 0 {
        proof {
            reveal_strlit("[]");
        }
        let r = String::from_str("[]");
        proof {
            assert(r@ =~= enc_todos(ts));
        }
        return r;
    }
    let mut s = String::new();
    proof {
        reveal_strlit("[");
        reveal_strlit("\n  ");
        reveal_strlit(",");
        reveal_strlit("\n]");
        assert("\n  "@ =~= item_ws());
    }
    s.append("[");
    s.append("\n  ");
    proof {
        assert(ts[0] == todos@[0]@);
    }
    push_todo(&mut s, &todos[0]);
    let n = todos.len();
    let mut i: usize = 1;
    proof {
        assert(ts.subrange(1, 1) =~= Seq::<TodoView>::empty());
        assert(s@ =~= seq!['['] + item_ws() + enc_todo(ts[0]) + enc_rest(ts.subrange(1, 1)));
    }
    while i < n
        invariant
            1 <= i <= n,
            n == todos.len(),
            ts == todos.deep_view(),
            n == ts.len(),
            s@ == seq!['['] + item_ws() + enc_todo(ts[0]) + enc_rest(ts.subrange(1, i as int)),
        decreases n - i,
    {
        proof {
            reveal_strlit(",");
            reveal_strlit("\n  ");
            assert("\n  "@ =~= item_ws());
            assert(ts[i as int] == todos@[i as int]@);
        }
        s.append(",");
        s.append("\n  ");
        push_todo(&mut s, &todos[i]);
        i = i + 1;
        proof {
            assert(ts.subrange(1, i as int) =~= ts.subrange(1, i - 1).push(ts[i - 1]));
            lemma_enc_rest_snoc(ts.subrange(1, i - 1), ts[i - 1]);
            assert(s@ =~= seq!['['] + item_ws() + enc_todo(ts[0]) + enc_rest(
                ts.subrange(1, i as int),
            ));
        }
    }
    s.append("\n]");
    proof {
        assert(ts.subrange(1, n as int) =~= ts.drop_first());
        assert(s@ =~= enc_todos(ts));
    }
    s
}

} // verus!
