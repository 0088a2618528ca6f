//! The persisted file format, as mathematics.
//!
//! A collection is written as a pretty-printed JSON array; each element is
//! an object with the fields `id` (decimal integer), `text` (JSON string)
//! and `completed` (`true` or `false`), in that order. `enc_todos` gives the
//! exact text the writer produces. The reader's grammar, `sp_todos`, accepts
//! that text and more: any amount of blank space between tokens, and the
//! standard JSON string escapes (`\"`, `\\`, `\/`, `\b`, `\f`, `\n`, `\r`,
//! `\t`, and `\u` followed by four hex digits naming a scalar value).
//! The reader rejects surrogate `\u` escapes, ids above `u32::MAX`, and
//! fields out of order. [`crate::roundtrip::lemma_todos_round_trip`] proves that reading
//! what the writer wrote gives the collection back exactly.

use vstd::prelude::*;

use crate::todo::TodoView;

verus! {

// ---------------------------------------------------------------------
// Pieces of the written text
// ---------------------------------------------------------------------

/// Decimal digit characters.
pub open spec fn digit_char(d: int) -> char {
    if d == 0 {
        '0'
    } else if d == 1 {
        '1'
    } else if d == 2 {
        '2'
    } else if d == 3 {
        '3'
    } else if d == 4 {
        '4'
    } else if d == 5 {
        '5'
    } else if d == 6 {
        '6'
    } else if d == 7 {
        '7'
    } else if d == 8 {
        '8'
    } else {
        '9'
    }
}

/// Lowercase hexadecimal digit characters.
pub open spec fn hex_char(d: int) -> char {
    if d < 10 {
        digit_char(d)
    } else if d == 10 {
        'a'
    } else if d == 11 {
        'b'
    } else if d == 12 {
        'c'
    } else if d == 13 {
        'd'
    } else if d == 14 {
        'e'
    } else {
        'f'
    }
}

/// The usual decimal rendering of a number, most significant digit first.
pub open spec fn dec_chars(n: nat) -> Seq<char>
    decreases n,
{
    if n < 10 {
        seq![digit_char(n as int)]
    } else {
        dec_chars(n / 10) + seq![digit_char((n % 10) as int)]
    }
}

/// How one character of a task text is written inside a JSON string:
/// itself, unless it needs an escape.
pub open spec fn esc_char(c: char) -> Seq<char> {
    if c == '"' {
        seq!['\\', '"']
    } else if c == '\\' {
        seq!['\\', '\\']
    } else if c == '\u{0008}' {
        seq!['\\', 'b']
    } else if c == '\u{000C}' {
        seq!['\\', 'f']
    } else if c == '\n' {
        seq!['\\', 'n']
    } else if c == '\r' {
        seq!['\\', 'r']
    } else if c == '\t' {
        seq!['\\', 't']
    } else if (c as u32) < 0x20 {
        seq!['\\', 'u', '0', '0', hex_char((c as u32) as int / 16), hex_char((c as u32) as int % 16)]
    } else {
        seq![c]
    }
}

/// The body of a JSON string: every character escaped as needed.
pub open spec fn esc_seq(s: Seq<char>) -> Seq<char>
    decreases s.len(),
{
    if s.len() == 0 {
        Seq::empty()
    } else {
        esc_char(s[0]) + esc_seq(s.drop_first())
    }
}

/// A whole JSON string, quotes included.
pub open spec fn enc_string(s: Seq<char>) -> Seq<char> {
    seq!['"'] + esc_seq(s) + seq!['"']
}

/// `true` or `false`.
pub open spec fn enc_bool(b: bool) -> Seq<char> {
    if b {
        seq!['t', 'r', 'u', 'e']
    } else {
        seq!['f', 'a', 'l', 's', 'e']
    }
}

/// The `"id"` key.
pub open spec fn key_id() -> Seq<char> {
    seq!['"', 'i', 'd', '"']
}

/// The `"text"` key.
pub open spec fn key_text() -> Seq<char> {
    seq!['"', 't', 'e', 'x', 't', '"']
}

/// The `"completed"` key.
pub open spec fn key_completed() -> Seq<char> {
    seq!['"', 'c', 'o', 'm', 'p', 'l', 'e', 't', 'e', 'd', '"']
}

/// Line break and indentation in front of an object field.
pub open spec fn field_ws() -> Seq<char> {
    seq!['\n', ' ', ' ', ' ', ' ']
}

/// Line break and indentation in front of an array element or the closing
/// brace of an object.
pub open spec fn item_ws() -> Seq<char> {
    seq!['\n', ' ', ' ']
}

/// One task as a pretty-printed JSON object.
pub open spec fn enc_todo(t: TodoView) -> Seq<char> {
    seq!['{'] + field_ws() + key_id() + seq![':', ' '] + dec_chars(t.id as nat) + seq![',']
        + field_ws() + key_text() + seq![':', ' '] + enc_string(t.text) + seq![','] + field_ws()
        + key_completed() + seq![':', ' '] + enc_bool(t.completed) + item_ws() + seq!['}']
}

/// The second and later array elements, each behind a comma.
pub open spec fn enc_rest(ts: Seq<TodoView>) -> Seq<char>
    decreases ts.len(),
{
    if ts.len() == 0 {
        Seq::empty()
    } else {
        seq![','] + item_ws() + enc_todo(ts[0]) + enc_rest(ts.drop_first())
    }
}

/// The whole collection as a pretty-printed JSON array: what the writer
/// produces and the file holds.
pub open spec fn enc_todos(ts: Seq<TodoView>) -> Seq<char> {
    if ts.len() == 0 {
        seq!['[', ']']
    } else {
        seq!['['] + item_ws() + enc_todo(ts[0]) + enc_rest(ts.drop_first()) + seq!['\n', ']']
    }
}

// ---------------------------------------------------------------------
// The reader's grammar
// ---------------------------------------------------------------------

/// JSON blank space.
pub open spec fn is_ws(c: char) -> bool {
    c == ' ' || c == '\n' || c == '\t' || c == '\r'
}

/// The value of a decimal digit character, or -1.
pub open spec fn digit_val(c: char) -> int {
    if c == '0' {
        0
    } else if c == '1' {
        1
    } else if c == '2' {
        2
    } else if c == '3' {
        3
    } else if c == '4' {
        4
    } else if c == '5' {
        5
    } else if c == '6' {
        6
    } else if c == '7' {
        7
    } else if c == '8' {
        8
    } else if c == '9' {
        9
    } else {
        -1
    }
}

/// The value of a hexadecimal digit character (either case), or -1.
pub open spec fn hex_val(c: char) -> int {
    if digit_val(c) >= 0 {
        digit_val(c)
    } else if c == 'a' || c == 'A' {
        10
    } else if c == 'b' || c == 'B' {
        11
    } else if c == 'c' || c == 'C' {
        12
    } else if c == 'd' || c == 'D' {
        13
    } else if c == 'e' || c == 'E' {
        14
    } else if c == 'f' || c == 'F' {
        15
    } else {
        -1
    }
}

/// What remains after skipping leading blank space.
pub open spec fn sp_ws(s: Seq<char>) -> Seq<char>
    decreases s.len(),
{
    if s.len() > 0 && is_ws(s[0]) {
        sp_ws(s.drop_first())
    } else {
        s
    }
}

/// Consume the exact characters of `p`, or fail.
pub open spec fn sp_lit(s: Seq<char>, p: Seq<char>) -> Option<Seq<char>>
    decreases p.len(),
{
    if p.len() == 0 {
        Some(s)
    } else if s.len() > 0 && s[0] == p[0] {
        sp_lit(s.drop_first(), p.drop_first())
    } else {
        None
    }
}

/// Consume digits onto the accumulator `acc`; fail on overflow past
/// `u32::MAX`; stop at the first non-digit.
pub open spec fn sp_digits(s: Seq<char>, acc: u32) -> Option<(u32, Seq<char>)>
    decreases s.len(),
{
    if s.len() > 0 && digit_val(s[0]) >= 0 {
        if acc as int * 10 + digit_val(s[0]) <= u32::MAX as int {
            sp_digits(s.drop_first(), (acc as int * 10 + digit_val(s[0])) as u32)
        } else {
            None
        }
    } else {
        Some((acc, s))
    }
}

/// A non-negative decimal number: at least one digit, value at most
/// `u32::MAX`.
pub open spec fn sp_number(s: Seq<char>) -> Option<(u32, Seq<char>)> {
    if s.len() > 0 && digit_val(s[0]) >= 0 {
        sp_digits(s, 0)
    } else {
        None
    }
}

/// The character named by the escape that follows a backslash, together
/// with how many characters the escape occupies. A `\u` escape must name a
/// Unicode scalar value: surrogate codes are refused.
pub open spec fn sp_escape(s: Seq<char>) -> Option<(char, int)> {
    if s.len() == 0 {
        None
    } else if s[0] == '"' {
        Some(('"', 1))
    } else if s[0] == '\\' {
        Some(('\\', 1))
    } else if s[0] == '/' {
        Some(('/', 1))
    } else if s[0] == 'b' {
        Some(('\u{0008}', 1))
    } else if s[0] == 'f' {
        Some(('\u{000C}', 1))
    } else if s[0] == 'n' {
        Some(('\n', 1))
    } else if s[0] == 'r' {
        Some(('\r', 1))
    } else if s[0] == 't' {
        Some(('\t', 1))
    } else if s[0] == 'u' {
        if s.len() >= 5 && hex_val(s[1]) >= 0 && hex_val(s[2]) >= 0 && hex_val(s[3]) >= 0
            && hex_val(s[4]) >= 0 {
            let v = hex_val(s[1]) * 4096 + hex_val(s[2]) * 256 + hex_val(s[3]) * 16 + hex_val(
                s[4],
            );
            if v < 0xD800 || v > 0xDFFF {
                Some((((v as u32) as char), 5))
            } else {
                None
            }
        } else {
            None
        }
    } else {
        None
    }
}

/// The body of a JSON string up to and including the closing quote:
/// the characters it denotes, and what follows the quote.
pub open spec fn sp_str_chars(s: Seq<char>) -> Option<(Seq<char>, Seq<char>)>
    decreases s.len(),
{
    if s.len() == 0 {
        None
    } else if s[0] == '"' {
        Some((Seq::empty(), s.drop_first()))
    } else if s[0] == '\\' {
        match sp_escape(s.drop_first()) {
            Option::None => None,
            Option::Some((c, n)) => {
                if 1 <= n <= s.len() - 1 {
                    match sp_str_chars(s.drop_first().skip(n)) {
                        Option::None => None,
                        Option::Some((t, rest)) => Some((seq![c] + t, rest)),
                    }
                } else {
                    None
                }
            },
        }
    } else {
        match sp_str_chars(s.drop_first()) {
            Option::None => None,
            Option::Some((t, rest)) => Some((seq![s[0]] + t, rest)),
        }
    }
}

/// A whole JSON string, quotes included.
pub open spec fn sp_string(s: Seq<char>) -> Option<(Seq<char>, Seq<char>)> {
    if s.len() > 0 && s[0] == '"' {
        sp_str_chars(s.drop_first())
    } else {
        None
    }
}

/// `true` or `false`.
pub open spec fn sp_bool(s: Seq<char>) -> Option<(bool, Seq<char>)> {
    match sp_lit(s, seq!['t', 'r', 'u', 'e']) {
        Option::Some(r) => Some((true, r)),
        Option::None => match sp_lit(s, seq!['f', 'a', 'l', 's', 'e']) {
            Option::Some(r) => Some((false, r)),
            Option::None => None,
        },
    }
}

/// One task object: `{ "id": ..., "text": ..., "completed": ... }` with
/// any blank space between tokens.
pub open spec fn sp_todo(s: Seq<char>) -> Option<(TodoView, Seq<char>)> {
    match sp_lit(s, seq!['{']) {
        Option::None => None,
        Option::Some(s1) => match sp_lit(sp_ws(s1), key_id()) {
            Option::None => None,
            Option::Some(s2) => match sp_lit(sp_ws(s2), seq![':']) {
                Option::None => None,
                Option::Some(s3) => match sp_number(sp_ws(s3)) {
                    Option::None => None,
                    Option::Some((id, s4)) => match sp_lit(sp_ws(s4), seq![',']) {
                        Option::None => None,
                        Option::Some(s5) => match sp_lit(sp_ws(s5), key_text()) {
                            Option::None => None,
                            Option::Some(s6) => match sp_lit(sp_ws(s6), seq![':']) {
                                Option::None => None,
                                Option::Some(s7) => match sp_string(sp_ws(s7)) {
                                    Option::None => None,
                                    Option::Some((text, s8)) => match sp_lit(
                                        sp_ws(s8),
                                        seq![','],
                                    ) {
                                        Option::None => None,
                                        Option::Some(s9) => match sp_lit(
                                            sp_ws(s9),
                                            key_completed(),
                                        ) {
                                            Option::None => None,
                                            Option::Some(s10) => match sp_lit(
                                                sp_ws(s10),
                                                seq![':'],
                                            ) {
                                                Option::None => None,
                                                Option::Some(s11) => match sp_bool(sp_ws(s11)) {
                                                    Option::None => None,
                                                    Option::Some((completed, s12)) => match sp_lit(
                                                        sp_ws(s12),
                                                        seq!['}'],
                                                    ) {
                                                        Option::None => None,
                                                        Option::Some(s13) => Some(
                                                            (
                                                                TodoView { id, text, completed },
                                                                s13,
                                                            ),
                                                        ),
                                                    },
                                                },
                                            },
                                        },
                                    },
                                },
                            },
                        },
                    },
                },
            },
        },
    }
}

/// One or more task objects separated by commas. Expects the first object
/// to start immediately; leaves the remainder at the first character after
/// the blank space that follows the last object.
pub open spec fn sp_items(s: Seq<char>) -> Option<(Seq<TodoView>, Seq<char>)>
    decreases s.len(),
{
    match sp_todo(s) {
        Option::None => None,
        Option::Some((t, r)) => {
            let r1 = sp_ws(r);
            match sp_lit(r1, seq![',']) {
                Option::None => Some((seq![t], r1)),
                Option::Some(r2) => {
                    let r3 = sp_ws(r2);
                    if r3.len() < s.len() {
                        match sp_items(r3) {
                            Option::None => None,
                            Option::Some((ts, r4)) => Some((seq![t] + ts, r4)),
                        }
                    } else {
                        None
                    }
                },
            }
        },
    }
}

/// The whole document: one JSON array of task objects and nothing else
/// but blank space around it.
pub open spec fn sp_todos(s: Seq<char>) -> Option<Seq<TodoView>> {
    match sp_lit(sp_ws(s), seq!['[']) {
        Option::None => None,
        Option::Some(s1) => {
            let s2 = sp_ws(s1);
            match sp_lit(s2, seq![']']) {
                Option::Some(s3) => if sp_ws(s3).len() == 0 {
                    Some(Seq::empty())
                } else {
                    None
                },
                Option::None => match sp_items(s2) {
                    Option::None => None,
                    Option::Some((ts, r)) => match sp_lit(r, seq![']']) {
                        Option::None => None,
                        Option::Some(r1) => if sp_ws(r1).len() == 0 {
                            Some(ts)
                        } else {
                            None
                        },
                    },
                },
            }
        },
    }
}

} // verus!
