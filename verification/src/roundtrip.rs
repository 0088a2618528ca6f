//! Proof that the reader gives back exactly what the writer wrote:
//! parsing `enc_todos(ts)` yields `ts`, for every collection `ts`.

use vstd::prelude::*;

use crate::json::{
    dec_chars, digit_char, digit_val, enc_bool, enc_rest, enc_string, enc_todo, enc_todos,
    esc_char, esc_seq, field_ws, hex_char, hex_val, is_ws, item_ws, key_completed, key_id,
    key_text, sp_bool, sp_digits, sp_escape, sp_items, sp_lit, sp_number, sp_str_chars,
    sp_string, sp_todo, sp_todos, sp_ws,
};
use crate::todo::TodoView;

verus! {

/// Powers of ten.
pub open spec fn pow10(k: nat) -> nat
    decreases k,
{
    if k == 0 {
        1nat
    } else {
        10 * pow10((k - 1) as nat)
    }
}

proof fn lemma_drop_concat(a: Seq<char>, b: Seq<char>)
    requires
        a.len() > 0,
    ensures
        (a + b).drop_first() == a.drop_first() + b,
        (a + b)[0] == a[0],
{
    assert((a + b).drop_first() =~= a.drop_first() + b);
}

proof fn lemma_empty_concat(b: Seq<char>)
    ensures
        Seq::<char>::empty() + b == b,
{
    assert(Seq::<char>::empty() + b =~= b);
}

/// Skipping blank space consumes exactly a blank prefix when what follows
/// does not start blank.
proof fn lemma_ws_rt(p: Seq<char>, rest: Seq<char>)
    requires
        forall|i: int| 0 <= i < p.len() ==> is_ws(#[trigger] p[i]),
        rest.len() == 0 || !is_ws(rest[0]),
    ensures
        sp_ws(p + rest) == rest,
    decreases p.len(),
{
    if p.len() == 0 {
        assert(p + rest =~= rest);
    } else {
        assert(p[0] == (p + rest)[0]);
        lemma_drop_concat(p, rest);
        assert forall|i: int| 0 <= i < p.drop_first().len() implies is_ws(
            #[trigger] p.drop_first()[i],
        ) by {
            assert(p.drop_first()[i] == p[i + 1]);
        }
        lemma_ws_rt(p.drop_first(), rest);
    }
}

/// Matching a literal against itself followed by anything consumes exactly
/// the literal.
proof fn lemma_lit_rt(p: Seq<char>, rest: Seq<char>)
    ensures
        sp_lit(p + rest, p) == Some(rest),
    decreases p.len(),
{
    if p.len() == 0 {
        assert(p + rest =~= rest);
    } else {
        lemma_drop_concat(p, rest);
        lemma_lit_rt(p.drop_first(), rest);
    }
}

/// Every decimal rendering is non-empty, consists of digits, and is bounded
/// by the matching power of ten.
proof fn lemma_dec_chars_props(n: nat)
    ensures
        dec_chars(n).len() >= 1,
        forall|i: int|
            0 <= i < dec_chars(n).len() ==> digit_val(#[trigger] dec_chars(n)[i]) >= 0,
        n < pow10(dec_chars(n).len()),
    decreases n,
{
    if n < 10 {
        assert(digit_val(digit_char(n as int)) == n);
        assert(pow10(0) == 1 && pow10(1) == 10);
    } else {
        lemma_dec_chars_props(n / 10);
        let hi = dec_chars(n / 10);
        let lo = seq![digit_char((n % 10) as int)];
        assert(dec_chars(n) == hi + lo);
        assert forall|i: int| 0 <= i < dec_chars(n).len() implies digit_val(
            #[trigger] dec_chars(n)[i],
        ) >= 0 by {
            if i < hi.len() {
                assert(dec_chars(n)[i] == hi[i]);
            } else {
                assert(dec_chars(n)[i] == digit_char((n % 10) as int));
                assert(digit_val(digit_char((n % 10) as int)) == n % 10);
            }
        }
        let k1 = hi.len();
        assert(pow10(k1 + 1) == 10 * pow10(k1));
        assert(n < pow10(k1 + 1)) by (nonlinear_arith)
            requires
                n / 10 < pow10(k1),
                pow10(k1 + 1) == 10 * pow10(k1),
                n >= 10,
        ;
    }
}

/// Consuming the digits of `m` multiplies the accumulator by the matching
/// power of ten and adds `m`.
proof fn lemma_digits_shift(m: nat, rest: Seq<char>, acc: u32)
    requires
        acc as int * pow10(dec_chars(m).len()) + m <= u32::MAX as int,
    ensures
        sp_digits(dec_chars(m) + rest, acc) == sp_digits(
            rest,
            (acc as int * pow10(dec_chars(m).len()) + m) as u32,
        ),
    decreases m,
{
    let k = dec_chars(m).len();
    if m < 10 {
        let s = dec_chars(m) + rest;
        lemma_drop_concat(dec_chars(m), rest);
        assert(s[0] == digit_char(m as int));
        assert(digit_val(digit_char(m as int)) == m);
        assert(pow10(1) == 10 * pow10(0) && pow10(0) == 1);
        assert(dec_chars(m).drop_first() =~= Seq::<char>::empty());
        lemma_empty_concat(rest);
        assert(s.drop_first() == rest);
        assert(acc as int * 10 + m <= u32::MAX as int);
    } else {
        let hi = dec_chars(m / 10);
        let lo = seq![digit_char((m % 10) as int)];
        assert(dec_chars(m) == hi + lo);
        let k1 = hi.len();
        lemma_dec_chars_props(m / 10);
        assert(pow10(k1 + 1) == 10 * pow10(k1));
        assert(dec_chars(m) + rest =~= hi + (lo + rest));
        assert(acc as int * pow10(k1) + m / 10 <= u32::MAX as int) by (nonlinear_arith)
            requires
                acc as int * pow10(k1 + 1) + m <= u32::MAX as int,
                pow10(k1 + 1) == 10 * pow10(k1),
                m >= 10,
                pow10(k1) >= 1,
                acc >= 0,
        ;
        lemma_digits_shift(m / 10, lo + rest, acc);
        let acc1 = (acc as int * pow10(k1) + m / 10) as u32;
        assert(acc1 as int * 10 + m % 10 == acc as int * pow10(k1 + 1) + m) by (nonlinear_arith)
            requires
                acc1 as int == acc as int * pow10(k1) + m / 10,
                pow10(k1 + 1) == 10 * pow10(k1),
                m >= 0,
        ;
        let s1 = lo + rest;
        lemma_drop_concat(lo, rest);
        assert(s1[0] == digit_char((m % 10) as int));
        assert(digit_val(digit_char((m % 10) as int)) == m % 10);
        assert(lo.drop_first() =~= Seq::<char>::empty());
        lemma_empty_concat(rest);
        assert(s1.drop_first() == rest);
    }
}

/// Reading back a written number gives the number, provided what follows
/// does not start with a digit.
proof fn lemma_number_rt(n: u32, rest: Seq<char>)
    requires
        rest.len() == 0 || digit_val(rest[0]) < 0,
    ensures
        sp_number(dec_chars(n as nat) + rest) == Some((n, rest)),
{
    lemma_dec_chars_props(n as nat);
    let dec = dec_chars(n as nat);
    lemma_drop_concat(dec, rest);
    assert(digit_val((dec + rest)[0]) >= 0);
    assert(0 * pow10(dec.len()) + n as int == n as int) by (nonlinear_arith);
    lemma_digits_shift(n as nat, rest, 0);
}

/// Reading a hexadecimal digit back gives its value.
proof fn lemma_hex_val_char(d: int)
    requires
        0 <= d < 16,
    ensures
        hex_val(hex_char(d)) == d,
{
}

/// Reading the escaped body of a string, up to the closing quote, gives
/// back the original characters.
#[verifier::rlimit(100)]
proof fn lemma_str_chars_rt(t: Seq<char>, rest: Seq<char>)
    ensures
        sp_str_chars(esc_seq(t) + seq!['"'] + rest) == Some((t, rest)),
    decreases t.len(),
{
    let q = seq!['"'];
    if t.len() == 0 {
        assert(esc_seq(t) + q + rest =~= q + rest);
        lemma_drop_concat(q, rest);
        assert(q.drop_first() =~= Seq::<char>::empty());
        lemma_empty_concat(rest);
        assert(t =~= Seq::<char>::empty());
    } else {
        let c = t[0];
        let e = esc_char(c);
        let tail = esc_seq(t.drop_first()) + q + rest;
        let s = esc_seq(t) + q + rest;
        assert(s =~= e + tail);
        assert(tail.len() >= 1) by {
            assert(tail =~= (esc_seq(t.drop_first()) + q) + rest);
        }
        lemma_str_chars_rt(t.drop_first(), rest);
        lemma_drop_concat(e, tail);
        if c == '"' || c == '\\' || c == '\u{0008}' || c == '\u{000C}' || c == '\n' || c == '\r'
            || c == '\t' {
            // a two-character escape: backslash, then one name character
            let name = e[1];
            assert(e.drop_first() =~= seq![name]);
            lemma_drop_concat(seq![name], tail);
            assert(sp_escape(seq![name] + tail) == Some((c, 1int)));
            assert((seq![name] + tail).skip(1) =~= tail);
            assert(s.drop_first().skip(1) == tail);
            assert(seq![c] + t.drop_first() =~= t);
        } else if (c as u32) < 0x20 {
            // \u00xx
            broadcast use vstd::utf8::char_u32_cast;
            broadcast use vstd::utf8::char_is_scalar;

            let v = (c as u32) as int;
            let d = e.drop_first() + tail;
            assert(e.drop_first() =~= seq!['u', '0', '0', hex_char(v / 16), hex_char(v % 16)]);
            assert(d[0] == 'u' && d[1] == '0' && d[2] == '0' && d[3] == hex_char(v / 16) && d[4]
                == hex_char(v % 16));
            lemma_hex_val_char(v / 16);
            lemma_hex_val_char(v % 16);
            assert(hex_val(d[1]) == 0 && hex_val(d[2]) == 0);
            assert(0 * 4096 + 0 * 256 + (v / 16) * 16 + v % 16 == v) by (nonlinear_arith)
                requires
                    0 <= v,
            ;
            assert(v < 0xD800);
            assert(v as u32 == c as u32);
            vstd::utf8::char_u32_cast(c, v as u32);
            assert(((v as u32) as char) == c);
            assert(sp_escape(d) == Some((c, 5int)));
            assert(d.skip(5) =~= tail);
            assert(s.drop_first() == d);
            assert(seq![c] + t.drop_first() =~= t);
        } else {
            // written as itself
            assert(e =~= seq![c]);
            assert(s[0] == c);
            assert(e.drop_first() =~= Seq::<char>::empty());
            lemma_empty_concat(tail);
            assert(s.drop_first() == tail);
            assert(seq![c] + t.drop_first() =~= t);
        }
    }
}

/// Reading back a written string gives the original characters.
proof fn lemma_string_rt(t: Seq<char>, rest: Seq<char>)
    ensures
        sp_string(enc_string(t) + rest) == Some((t, rest)),
{
    let q = seq!['"'];
    let s = enc_string(t) + rest;
    assert(s =~= q + ((esc_seq(t) + q) + rest));
    lemma_drop_concat(q, (esc_seq(t) + q) + rest);
    assert(q.drop_first() =~= Seq::<char>::empty());
    lemma_empty_concat((esc_seq(t) + q) + rest);
    assert(s.drop_first() == esc_seq(t) + q + rest);
    lemma_str_chars_rt(t, rest);
}

/// Reading back a written boolean gives the boolean.
proof fn lemma_bool_rt(b: bool, rest: Seq<char>)
    ensures
        sp_bool(enc_bool(b) + rest) == Some((b, rest)),
{
    if b {
        lemma_lit_rt(seq!['t', 'r', 'u', 'e'], rest);
    } else {
        lemma_lit_rt(seq!['f', 'a', 'l', 's', 'e'], rest);
        assert((enc_bool(b) + rest)[0] == 'f');
        assert(sp_lit(enc_bool(b) + rest, seq!['t', 'r', 'u', 'e']) is None);
    }
}

proof fn lemma_concat_assoc(a: Seq<char>, b: Seq<char>, c: Seq<char>)
    ensures
        (a + b) + c == a + (b + c),
{
    assert((a + b) + c =~= a + (b + c));
}

/// The indentation sequences consist of blank space only.
proof fn lemma_indent_ws()
    ensures
        forall|i: int| 0 <= i < field_ws().len() ==> is_ws(#[trigger] field_ws()[i]),
        forall|i: int| 0 <= i < item_ws().len() ==> is_ws(#[trigger] item_ws()[i]),
{
    assert forall|i: int| 0 <= i < field_ws().len() implies is_ws(#[trigger] field_ws()[i]) by {
        if i == 0 || i == 1 || i == 2 || i == 3 || i == 4 {
        }
    }
    assert forall|i: int| 0 <= i < item_ws().len() implies is_ws(#[trigger] item_ws()[i]) by {
        if i == 0 || i == 1 || i == 2 {
        }
    }
}

/// Reading back a written task object gives the task.
#[verifier::rlimit(100)]
proof fn lemma_todo_rt(t: TodoView, rest: Seq<char>)
    ensures
        sp_todo(enc_todo(t) + rest) == Some((t, rest)),
{
    lemma_indent_ws();
    let colsp = seq![':', ' '];
    let l1 = seq!['{'];
    let l2 = l1 + field_ws();
    let l3 = l2 + key_id();
    let l4 = l3 + colsp;
    let l5 = l4 + dec_chars(t.id as nat);
    let l6 = l5 + seq![','];
    let l7 = l6 + field_ws();
    let l8 = l7 + key_text();
    let l9 = l8 + colsp;
    let l10 = l9 + enc_string(t.text);
    let l11 = l10 + seq![','];
    let l12 = l11 + field_ws();
    let l13 = l12 + key_completed();
    let l14 = l13 + colsp;
    let l15 = l14 + enc_bool(t.completed);
    let l16 = l15 + item_ws();
    let l17 = l16 + seq!['}'];
    assert(enc_todo(t) == l17);
    let u17 = rest;
    let u16 = seq!['}'] + u17;
    lemma_concat_assoc(l16, seq!['}'], u17);
    let u15 = item_ws() + u16;
    lemma_concat_assoc(l15, item_ws(), u16);
    let u14 = enc_bool(t.completed) + u15;
    lemma_concat_assoc(l14, enc_bool(t.completed), u15);
    let u13 = colsp + u14;
    lemma_concat_assoc(l13, colsp, u14);
    let u12 = key_completed() + u13;
    lemma_concat_assoc(l12, key_completed(), u13);
    let u11 = field_ws() + u12;
    lemma_concat_assoc(l11, field_ws(), u12);
    let u10 = seq![','] + u11;
    lemma_concat_assoc(l10, seq![','], u11);
    let u9 = enc_string(t.text) + u10;
    lemma_concat_assoc(l9, enc_string(t.text), u10);
    let u8 = colsp + u9;
    lemma_concat_assoc(l8, colsp, u9);
    let u7 = key_text() + u8;
    lemma_concat_assoc(l7, key_text(), u8);
    let u6 = field_ws() + u7;
    lemma_concat_assoc(l6, field_ws(), u7);
    let u5 = seq![','] + u6;
    lemma_concat_assoc(l5, seq![','], u6);
    let u4 = dec_chars(t.id as nat) + u5;
    lemma_concat_assoc(l4, dec_chars(t.id as nat), u5);
    let u3 = colsp + u4;
    lemma_concat_assoc(l3, colsp, u4);
    let u2 = key_id() + u3;
    lemma_concat_assoc(l2, key_id(), u3);
    let u1 = field_ws() + u2;
    lemma_concat_assoc(l1, field_ws(), u2);
    let s0 = enc_todo(t) + rest;
    assert(s0 == l1 + u1);
    assert(s0 =~= seq!['{'] + u1);
    // '{'
    lemma_lit_rt(seq!['{'], u1);
    // indentation, then the id key
    assert(u2[0] == '"');
    lemma_ws_rt(field_ws(), u2);
    lemma_lit_rt(key_id(), u3);
    // ':', one space, the number, ','
    assert(u3[0] == ':' && !is_ws(':'));
    assert(u3 =~= seq![':'] + (seq![' '] + u4));
    lemma_lit_rt(seq![':'], seq![' '] + u4);
    lemma_dec_chars_props(t.id as nat);
    assert(u4[0] == dec_chars(t.id as nat)[0] && digit_val(u4[0]) >= 0);
    assert(!is_ws(u4[0]));
    lemma_ws_rt(seq![' '], u4);
    assert(u5[0] == ',' && digit_val(',') < 0);
    lemma_number_rt(t.id, u5);
    assert(!is_ws(','));
    lemma_lit_rt(seq![','], u6);
    // indentation, then the text key
    assert(u7[0] == '"');
    lemma_ws_rt(field_ws(), u7);
    lemma_lit_rt(key_text(), u8);
    // ':', one space, the string, ','
    assert(u8[0] == ':');
    assert(u8 =~= seq![':'] + (seq![' '] + u9));
    lemma_lit_rt(seq![':'], seq![' '] + u9);
    assert(u9[0] == '"' && !is_ws('"')) by {
        assert(enc_string(t.text)[0] == '"');
    }
    lemma_ws_rt(seq![' '], u9);
    lemma_string_rt(t.text, u10);
    assert(u10[0] == ',');
    lemma_lit_rt(seq![','], u11);
    // indentation, then the completed key
    assert(u12[0] == '"');
    lemma_ws_rt(field_ws(), u12);
    lemma_lit_rt(key_completed(), u13);
    // ':', one space, the boolean
    assert(u13[0] == ':');
    assert(u13 =~= seq![':'] + (seq![' '] + u14));
    lemma_lit_rt(seq![':'], seq![' '] + u14);
    assert(u14[0] == enc_bool(t.completed)[0]);
    assert(!is_ws(u14[0]));
    lemma_ws_rt(seq![' '], u14);
    lemma_bool_rt(t.completed, u15);
    // indentation, then '}'
    assert(u16[0] == '}');
    lemma_ws_rt(item_ws(), u16);
    lemma_lit_rt(seq!['}'], u17);
    assert(TodoView { id: t.id, text: t.text, completed: t.completed } == t);
}

/// Reading back one or more written task objects gives them all, leaving
/// the remainder at the closing bracket.
proof fn lemma_items_rt(ts: Seq<TodoView>, after: Seq<char>)
    requires
        ts.len() >= 1,
    ensures
        sp_items(
            enc_todo(ts[0]) + (enc_rest(ts.drop_first()) + (seq!['\n', ']'] + after)),
        ) == Some((ts, seq![']'] + after)),
    decreases ts.len(),
{
    lemma_indent_ws();
    let u = ts.drop_first();
    let x = seq!['\n', ']'] + after;
    let rest0 = enc_rest(u) + x;
    let s = enc_todo(ts[0]) + rest0;
    lemma_todo_rt(ts[0], rest0);
    if u.len() == 0 {
        assert(rest0 =~= seq!['\n'] + (seq![']'] + after));
        assert((seq![']'] + after)[0] == ']');
        lemma_ws_rt(seq!['\n'], seq![']'] + after);
        let r1 = seq![']'] + after;
        assert(sp_lit(r1, seq![',']) is None);
        assert(seq![ts[0]] =~= ts);
    } else {
        let inner = enc_todo(u[0]) + (enc_rest(u.drop_first()) + x);
        assert(rest0 =~= seq![','] + (item_ws() + inner));
        assert(rest0[0] == ',' && !is_ws(','));
        lemma_lit_rt(seq![','], item_ws() + inner);
        assert(enc_todo(u[0])[0] == '{');
        assert(inner[0] == '{' && !is_ws('{'));
        lemma_ws_rt(item_ws(), inner);
        assert(inner.len() < s.len()) by {
            assert(enc_todo(ts[0]).len() >= 1);
        }
        lemma_items_rt(u, after);
        assert(seq![ts[0]] + u =~= ts);
    }
}

/// Reading back the whole written document gives the collection exactly.
pub proof fn lemma_todos_round_trip(ts: Seq<TodoView>)
    ensures
        sp_todos(enc_todos(ts)) == Some(ts),
{
    lemma_indent_ws();
    let e = Seq::<char>::empty();
    if ts.len() == 0 {
        let s = enc_todos(ts);
        assert(s[0] == '[' && !is_ws('['));
        assert(s =~= seq!['['] + seq![']']);
        lemma_lit_rt(seq!['['], seq![']']);
        assert(!is_ws(']'));
        assert(seq![']'] =~= seq![']'] + e);
        lemma_lit_rt(seq![']'], e);
        assert(sp_ws(e).len() == 0);
        assert(ts =~= e.map_values(|c: char| ts[0]).take(0));
        assert(Some(Seq::<TodoView>::empty()) == Some(ts)) by {
            assert(Seq::<TodoView>::empty() =~= ts);
        }
    } else {
        let inner = enc_todo(ts[0]) + (enc_rest(ts.drop_first()) + (seq!['\n', ']'] + e));
        let s = enc_todos(ts);
        assert(s =~= seq!['['] + (item_ws() + inner));
        assert(s[0] == '[' && !is_ws('['));
        lemma_lit_rt(seq!['['], item_ws() + inner);
        assert(enc_todo(ts[0])[0] == '{');
        assert(inner[0] == '{' && !is_ws('{'));
        lemma_ws_rt(item_ws(), inner);
        assert(sp_lit(inner, seq![']']) is None);
        lemma_items_rt(ts, e);
        let r = seq![']'] + e;
        lemma_lit_rt(seq![']'], e);
        assert(sp_ws(e).len() == 0);
    }
}

/// Saving a loaded collection and loading the saved text again yields the
/// same collection: writing any collection that some file content parses
/// to, then parsing the written text, gives that collection back.
pub proof fn lemma_save_load_round_trip(s: Seq<char>, ts: Seq<TodoView>)
    requires
        sp_todos(s) == Some(ts),
    ensures
        sp_todos(enc_todos(ts)) == Some(ts),
{
    lemma_todos_round_trip(ts);
}

} // verus!
