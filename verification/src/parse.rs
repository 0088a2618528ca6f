//! The reader: parses the JSON text of a task collection, returning exactly
//! what the grammar [`crate::json::sp_todos`] accepts.

use vstd::prelude::*;
use vstd::string::StrSliceExecFns;

use crate::encode::string_from_chars;
use crate::json::{
    digit_val, hex_val, is_ws, sp_bool, sp_digits, sp_escape, sp_items, sp_lit, sp_number,
    sp_str_chars, sp_string, sp_todo, sp_todos, sp_ws,
};
use crate::todo::Todo;

verus! {

/// Error returned when the file content is not a well-formed task array.
#[derive(Debug)]
pub enum ParseError {
    Malformed,
}

/// Relies on `char::from_u32`: it returns `Some` exactly when the argument
/// is a Unicode scalar value, and then the character with that value.
#[verifier::external_body]
fn char_from_u32(v: u32) -> (r: Option<char>)
    ensures
        (v < 0xD800 || (0xE000 <= v && v <= 0x10FFFF)) ==> r == Some(v as char),
        !(v < 0xD800 || (0xE000 <= v && v <= 0x10FFFF)) ==> r is None,
{
    char::from_u32(v)
}

proof fn lemma_skip_step(s: Seq<char>, i: int)
    requires
        0 <= i < s.len(),
    ensures
        s.skip(i)[0] == s[i],
        s.skip(i).drop_first() == s.skip(i + 1),
        s.skip(i).len() == s.len() - i,
{
    assert(s.skip(i).drop_first() =~= s.skip(i + 1));
}

proof fn lemma_skip_skip(s: Seq<char>, a: int, b: int)
    requires
        0 <= a,
        0 <= b,
        a + b <= s.len(),
    ensures
        s.skip(a).skip(b) == s.skip(a + b),
{
    assert(s.skip(a).skip(b) =~= s.skip(a + b));
}

fn is_ws_exec(c: char) -> (r: bool)
    ensures
        r == is_ws(c),
{
    c == ' ' || c == '\n' || c == '\t' || c == '\r'
}

fn digit_val_exec(c: char) -> (r: Option<u32>)
    ensures
        match r {
            Option::Some(d) => d < 10 && digit_val(c) == d as int,
            Option::None => digit_val(c) < 0,
        },
{
    match c {
        '0' => Some(0),
        '1' => Some(1),
        '2' => Some(2),
        '3' => Some(3),
        '4' => Some(4),
        '5' => Some(5),
        '6' => Some(6),
        '7' => Some(7),
        '8' => Some(8),
        '9' => Some(9),
        _ => None,
    }
}

fn hex_val_exec(c: char) -> (r: Option<u32>)
    ensures
        match r {
            Option::Some(d) => d < 16 && hex_val(c) == d as int,
            Option::None => hex_val(c) < 0,
        },
{
    match c {
        '0' => Some(0),
        '1' => Some(1),
        '2' => Some(2),
        '3' => Some(3),
        '4' => Some(4),
        '5' => Some(5),
        '6' => Some(6),
        '7' => Some(7),
        '8' => Some(8),
        '9' => Some(9),
        'a' => Some(10),
        'A' => Some(10),
        'b' => Some(11),
        'B' => Some(11),
        'c' => Some(12),
        'C' => Some(12),
        'd' => Some(13),
        'D' => Some(13),
        'e' => Some(14),
        'E' => Some(14),
        'f' => Some(15),
        'F' => Some(15),
        _ => None,
    }
}

/// Skip blank space; the result is the first position whose suffix
/// `sp_ws` leaves.
fn p_ws(v: &Vec<char>, i: usize) -> (r: usize)
    requires
        i <= v.len(),
    ensures
        i <= r <= v.len(),
        sp_ws(v@.skip(i as int)) == v@.skip(r as int),
{
    let mut j = i;
    while j < v.len() && is_ws_exec(v[j])
        invariant
            i <= j <= v.len(),
            sp_ws(v@.skip(i as int)) == sp_ws(v@.skip(j as int)),
        decreases v.len() - j,
    {
        proof {
            lemma_skip_step(v@, j as int);
        }
        j = j + 1;
    }
    proof {
        if j < v.len() {
            lemma_skip_step(v@, j as int);
        }
        assert(sp_ws(v@.skip(j as int)) == v@.skip(j as int));
    }
    j
}

/// Consume the exact characters of `p`, or fail.
fn p_lit(v: &Vec<char>, i: usize, p: &str) -> (r: Option<usize>)
    requires
        i <= v.len(),
    ensures
        match r {
            Option::Some(j) => i <= j <= v.len() && sp_lit(v@.skip(i as int), p@) == Some(
                v@.skip(j as int),
            ),
            Option::None => sp_lit(v@.skip(i as int), p@) is None,
        },
{
    let n = p.unicode_len();
    let mut k: usize = 0;
    proof {
        assert(p@.skip(0) =~= p@);
    }
    while k < n
        invariant
            k <= n,
            n == p@.len(),
            i + k <= v.len(),
            sp_lit(v@.skip(i as int), p@) == sp_lit(v@.skip(i + k), p@.skip(k as int)),
        decreases n - k,
    {
        if v.len() - i <= k {
            proof {
                assert(v@.skip(i + k).len() == 0);
                assert(p@.skip(k as int).len() > 0);
            }
            return None;
        }
        let c = v[i + k];
        let pc = p.get_char(k);
        proof {
            lemma_skip_step(v@, i + k);
            assert(v@.skip(i + k)[0] == c);
            assert(p@.skip(k as int)[0] == pc);
        }
        if c != pc {
            return None;
        }
        proof {
            assert(p@.skip(k as int).drop_first() =~= p@.skip(k + 1));
        }
        k = k + 1;
    }
    proof {
        assert(p@.skip(k as int) =~= Seq::<char>::empty());
        assert(sp_lit(v@.skip(i + k), Seq::<char>::empty()) == Some(v@.skip(i + k)));
    }
    Some(i + k)
}

/// A decimal number of at most `u32::MAX`.
fn p_number(v: &Vec<char>, i: usize) -> (r: Option<(u32, usize)>)
    requires
        i <= v.len(),
    ensures
        match r {
            Option::Some((x, j)) => i <= j <= v.len() && sp_number(v@.skip(i as int)) == Some(
                (x, v@.skip(j as int)),
            ),
            Option::None => sp_number(v@.skip(i as int)) is None,
        },
{
    if i >= v.len() {
        return None;
    }
    proof {
        lemma_skip_step(v@, i as int);
    }
    if digit_val_exec(v[i]).is_none() {
        return None;
    }
    let mut acc: u32 = 0;
    let mut j = i;
    while j < v.len() && digit_val_exec(v[j]).is_some()
        invariant
            i <= j <= v.len(),
            sp_digits(v@.skip(i as int), 0) == sp_digits(v@.skip(j as int), acc),
        decreases v.len() - j,
    {
        proof {
            lemma_skip_step(v@, j as int);
        }
        let d = match digit_val_exec(v[j]) {
            Option::Some(d) => d,
            Option::None => {
                return None;
            },
        };
        let next = acc as u64 * 10 + d as u64;
        if next > u32::MAX as u64 {
            return None;
        }
        acc = next as u32;
        j = j + 1;
    }
    proof {
        if j < v.len() {
            lemma_skip_step(v@, j as int);
        }
        assert(sp_digits(v@.skip(j as int), acc) == Some((acc, v@.skip(j as int))));
    }
    Some((acc, j))
}

/// The escape that follows a backslash.
fn p_escape(v: &Vec<char>, i: usize) -> (r: Option<(char, usize)>)
    requires
        i <= v.len(),
    ensures
        match r {
            Option::Some((c, j)) => i < j <= v.len() && sp_escape(v@.skip(i as int)) == Some(
                (c, j - i),
            ),
            Option::None => sp_escape(v@.skip(i as int)) is None,
        },
{
    if i >= v.len() {
        return None;
    }
    proof {
        lemma_skip_step(v@, i as int);
    }
    let c0 = v[i];
    match c0 {
        '"' => Some(('"', i + 1)),
        '\\' => Some(('\\', i + 1)),
        '/' => Some(('/', i + 1)),
        'b' => Some(('\u{0008}', i + 1)),
        'f' => Some(('\u{000C}', i + 1)),
        'n' => Some(('\n', i + 1)),
        'r' => Some(('\r', i + 1)),
        't' => Some(('\t', i + 1)),
        'u' => {
            if v.len() - i < 5 {
                proof {
                    assert(v@.skip(i as int).len() < 5);
                }
                return None;
            }
            let h1 = hex_val_exec(v[i + 1]);
            let h2 = hex_val_exec(v[i + 2]);
            let h3 = hex_val_exec(v[i + 3]);
            let h4 = hex_val_exec(v[i + 4]);
            proof {
                assert(v@.skip(i as int)[1] == v@[i + 1]);
                assert(v@.skip(i as int)[2] == v@[i + 2]);
                assert(v@.skip(i as int)[3] == v@[i + 3]);
                assert(v@.skip(i as int)[4] == v@[i + 4]);
            }
            match (h1, h2, h3, h4) {
                (
                    Option::Some(d1),
                    Option::Some(d2),
                    Option::Some(d3),
                    Option::Some(d4),
                ) => {
                    let val = d1 * 4096 + d2 * 256 + d3 * 16 + d4;
                    if 0xD800 <= val && val <= 0xDFFF {
                        None
                    } else {
                        let c = char_from_u32(val).unwrap();
                        Some((c, i + 5))
                    }
                },
                _ => None,
            }
        },
        _ => None,
    }
}

/// The body of a JSON string after the opening quote, up to and including
/// the closing quote.
fn p_str_chars(v: &Vec<char>, i: usize) -> (r: Option<(Vec<char>, usize)>)
    requires
        i <= v.len(),
    ensures
        match r {
            Option::Some((t, j)) => i <= j <= v.len() && sp_str_chars(v@.skip(i as int)) == Some(
                (t@, v@.skip(j as int)),
            ),
            Option::None => sp_str_chars(v@.skip(i as int)) is None,
        },
{
    let mut out: Vec<char> = Vec::new();
    let mut j = i;
    proof {
        assert(out@ =~= Seq::<char>::empty());
    }
    loop
        invariant
            i <= j <= v.len(),
            match sp_str_chars(v@.skip(j as int)) {
                Option::Some((t, rest)) => sp_str_chars(v@.skip(i as int)) == Some(
                    (out@ + t, rest),
                ),
                Option::None => sp_str_chars(v@.skip(i as int)) is None,
            },
        decreases v.len() - j,
    {
        if j >= v.len() {
            proof {
                assert(v@.skip(j as int).len() == 0);
            }
            return None;
        }
        proof {
            lemma_skip_step(v@, j as int);
        }
        let c = v[j];
        if c == '"' {
            proof {
                assert(out@ + Seq::<char>::empty() =~= out@);
            }
            return Some((out, j + 1));
        } else if c == '\\' {
            match p_escape(v, j + 1) {
                Option::None => {
                    return None;
                },
                Option::Some((ec, j2)) => {
                    proof {
                        let s = v@.skip(j as int);
                        let n = j2 - (j + 1);
                        assert(s.drop_first() == v@.skip(j + 1));
                        lemma_skip_skip(v@, j + 1, n);
                        assert(s.drop_first().skip(n) == v@.skip(j2 as int));
                        assert(1 <= n <= s.len() - 1);
                        match sp_str_chars(v@.skip(j2 as int)) {
                            Option::Some((t, rest)) => {
                                assert(sp_str_chars(s) == Some((seq![ec] + t, rest)));
                                assert(out@.push(ec) + t =~= out@ + (seq![ec] + t));
                            },
                            Option::None => {},
                        }
                    }
                    out.push(ec);
                    j = j2;
                },
            }
        } else {
            proof {
                let s = v@.skip(j as int);
                match sp_str_chars(v@.skip(j + 1)) {
                    Option::Some((t, rest)) => {
                        assert(sp_str_chars(s) == Some((seq![c] + t, rest)));
                        assert(out@.push(c) + t =~= out@ + (seq![c] + t));
                    },
                    Option::None => {},
                }
            }
            out.push(c);
            j = j + 1;
        }
    }
}

/// A whole JSON string, quotes included.
fn p_string(v: &Vec<char>, i: usize) -> (r: Option<(Vec<char>, usize)>)
    requires
        i <= v.len(),
    ensures
        match r {
            Option::Some((t, j)) => i <= j <= v.len() && sp_string(v@.skip(i as int)) == Some(
                (t@, v@.skip(j as int)),
            ),
            Option::None => sp_string(v@.skip(i as int)) is None,
        },
{
    if i >= v.len() {
        return None;
    }
    proof {
        lemma_skip_step(v@, i as int);
    }
    if v[i] != '"' {
        return None;
    }
    p_str_chars(v, i + 1)
}

/// `true` or `false`.
fn p_bool(v: &Vec<char>, i: usize) -> (r: Option<(bool, usize)>)
    requires
        i <= v.len(),
    ensures
        match r {
            Option::Some((b, j)) => i <= j <= v.len() && sp_bool(v@.skip(i as int)) == Some(
                (b, v@.skip(j as int)),
            ),
            Option::None => sp_bool(v@.skip(i as int)) is None,
        },
{
    proof {
        reveal_strlit("true");
        reveal_strlit("false");
        assert("true"@ =~= seq!['t', 'r', 'u', 'e']);
        assert("false"@ =~= seq!['f', 'a', 'l', 's', 'e']);
    }
    match p_lit(v, i, "true") {
        Option::Some(j) => Some((true, j)),
        Option::None => match p_lit(v, i, "false") {
            Option::Some(j) => Some((false, j)),
            Option::None => None,
        },
    }
}

/// One task object.
#[verifier::rlimit(100)]
fn p_todo(v: &Vec<char>, i: usize) -> (r: Option<(Todo, usize)>)
    requires
        i <= v.len(),
    ensures
        match r {
            Option::Some((t, j)) => i <= j <= v.len() && sp_todo(v@.skip(i as int)) == Some(
                (t@, v@.skip(j as int)),
            ),
            Option::None => sp_todo(v@.skip(i as int)) is None,
        },
{
    proof {
        reveal_strlit("{");
        reveal_strlit("}");
        reveal_strlit(":");
        reveal_strlit(",");
        reveal_strlit("\"id\"");
        reveal_strlit("\"text\"");
        reveal_strlit("\"completed\"");
        assert("{"@ =~= seq!['{']);
        assert("}"@ =~= seq!['}']);
        assert(":"@ =~= seq![':']);
        assert(","@ =~= seq![',']);
        assert("\"id\""@ =~= crate::json::key_id());
        assert("\"text\""@ =~= crate::json::key_text());
        assert("\"completed\""@ =~= crate::json::key_completed());
    }
    let s1 = match p_lit(v, i, "{") {
        Option::Some(j) => j,
        Option::None => {
            return None;
        },
    };
    let s1w = p_ws(v, s1);
    let s2 = match p_lit(v, s1w, "\"id\"") {
        Option::Some(j) => j,
        Option::None => {
            return None;
        },
    };
    let s2w = p_ws(v, s2);
    let s3 = match p_lit(v, s2w, ":") {
        Option::Some(j) => j,
        Option::None => {
            return None;
        },
    };
    let s3w = p_ws(v, s3);
    let (id, s4) = match p_number(v, s3w) {
        Option::Some(x) => x,
        Option::None => {
            return None;
        },
    };
    let s4w = p_ws(v, s4);
    let s5 = match p_lit(v, s4w, ",") {
        Option::Some(j) => j,
        Option::None => {
            return None;
        },
    };
    let s5w = p_ws(v, s5);
    let s6 = match p_lit(v, s5w, "\"text\"") {
        Option::Some(j) => j,
        Option::None => {
            return None;
        },
    };
    let s6w = p_ws(v, s6);
    let s7 = match p_lit(v, s6w, ":") {
        Option::Some(j) => j,
        Option::None => {
            return None;
        },
    };
    let s7w = p_ws(v, s7);
    let (text_chars, s8) = match p_string(v, s7w) {
        Option::Some(x) => x,
        Option::None => {
            return None;
        },
    };
    let s8w = p_ws(v, s8);
    let s9 = match p_lit(v, s8w, ",") {
        Option::Some(j) => j,
        Option::None => {
            return None;
        },
    };
    let s9w = p_ws(v, s9);
    let s10 = match p_lit(v, s9w, "\"completed\"") {
        Option::Some(j) => j,
        Option::None => {
            return None;
        },
    };
    let s10w = p_ws(v, s10);
    let s11 = match p_lit(v, s10w, ":") {
        Option::Some(j) => j,
        Option::None => {
            return None;
        },
    };
    let s11w = p_ws(v, s11);
    let (completed, s12) = match p_bool(v, s11w) {
        Option::Some(x) => x,
        Option::None => {
            return None;
        },
    };
    let s12w = p_ws(v, s12);
    let s13 = match p_lit(v, s12w, "}") {
        Option::Some(j) => j,
        Option::None => {
            return None;
        },
    };
    let text = string_from_chars(&text_chars);
    let t = Todo { id, text, completed };
    Some((t, s13))
}

/// One or more task objects separated by commas.
fn p_items(v: &Vec<char>, i: usize) -> (r: Option<(Vec<Todo>, usize)>)
    requires
        i <= v.len(),
    ensures
        match r {
            Option::Some((ts, j)) => i <= j <= v.len() && sp_items(v@.skip(i as int)) == Some(
                (ts.deep_view(), v@.skip(j as int)),
            ),
            Option::None => sp_items(v@.skip(i as int)) is None,
        },
    decreases v.len() - i,
{
    proof {
        reveal_strlit(",");
        assert(","@ =~= seq![',']);
    }
    let (t, j) = match p_todo(v, i) {
        Option::Some(x) => x,
        Option::None => {
            return None;
        },
    };
    let j1 = p_ws(v, j);
    match p_lit(v, j1, ",") {
        Option::None => {
            let mut ts: Vec<Todo> = Vec::new();
            ts.push(t);
            proof {
                assert(ts.deep_view() =~= seq![t@]);
            }
            Some((ts, j1))
        },
        Option::Some(j2) => {
            let j3 = p_ws(v, j2);
            if j3 > i {
                match p_items(v, j3) {
                    Option::None => None,
                    Option::Some((mut ts, j4)) => {
                        ts.insert(0, t);
                        proof {
                            assert(ts.deep_view() =~= seq![t@] + ts.deep_view().drop_first());
                        }
                        Some((ts, j4))
                    },
                }
            } else {
                None
            }
        },
    }
}

/// Parse the whole document: a JSON array of task objects with nothing but
/// blank space around it. Returns the tasks exactly when the grammar
/// accepts the text, and `Malformed` exactly when it does not.
pub fn parse_todos(s: &str) -> (r: Result<Vec<Todo>, ParseError>)
    ensures
        match r {
            Result::Ok(ts) => sp_todos(s@) == Some(ts.deep_view()),
            Result::Err(_) => sp_todos(s@) is None,
        },
{
    proof {
        reveal_strlit("[");
        reveal_strlit("]");
        assert("["@ =~= seq!['[']);
        assert("]"@ =~= seq![']']);
    }
    let v = crate::encode::chars_of(s);
    proof {
        assert(v@.skip(0) =~= s@);
    }
    let i0 = p_ws(&v, 0);
    let i1 = match p_lit(&v, i0, "[") {
        Option::Some(j) => j,
        Option::None => {
            return Err(ParseError::Malformed);
        },
    };
    let i2 = p_ws(&v, i1);
    match p_lit(&v, i2, "]") {
        Option::Some(i3) => {
            let i4 = p_ws(&v, i3);
            if i4 == v.len() {
                let ts: Vec<Todo> = Vec::new();
                proof {
                    assert(v@.skip(i4 as int).len() == 0);
                    assert(ts.deep_view() =~= Seq::<crate::todo::TodoView>::empty());
                }
                Ok(ts)
            } else {
                proof {
                    assert(v@.skip(i4 as int).len() > 0);
                }
                Err(ParseError::Malformed)
            }
        },
        Option::None => {
            let (ts, j) = match p_items(&v, i2) {
                Option::Some(x) => x,
                Option::None => {
                    return Err(ParseError::Malformed);
                },
            };
            let j1 = match p_lit(&v, j, "]") {
                Option::Some(x) => x,
                Option::None => {
                    return Err(ParseError::Malformed);
                },
            };
            let j2 = p_ws(&v, j1);
            if j2 == v.len() {
                proof {
                    assert(v@.skip(j2 as int).len() == 0);
                }
                Ok(ts)
            } else {
                proof {
                    assert(v@.skip(j2 as int).len() > 0);
                }
                Err(ParseError::Malformed)
            }
        },
    }
}

} // verus!
