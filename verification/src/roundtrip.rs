//! The round-trip law of the persisted format: parsing the canonical text
//! of a store yields exactly the records it was serialized from.

use vstd::prelude::*;

use crate::json::escape_char;
use crate::json::hex_char;
use crate::json::hex_val;
use crate::json::is_hex_char;
use crate::json::is_ws;
use crate::json::parse_escape;
use crate::json::parse_str_body;
use crate::json::ser_str_body;
use crate::json::skip_ws;
use crate::num::is_digit_char;

verus! {

/// When the characters from `i` on read `x`, the character at offset `k`
/// is `x[k]`.
proof fn lemma_char_at(s: Seq<char>, i: int, x: Seq<char>, k: int)
    requires
        0 <= i,
        i + x.len() <= s.len(),
        s.subrange(i, i + x.len()) == x,
        0 <= k < x.len(),
    ensures
        s[i + k] == x[k],
{
    assert(s.subrange(i, i + x.len())[k] == s[i + k]);
}

/// When the characters from `i` on read `x`, any stretch inside them reads
/// the matching stretch of `x`.
proof fn lemma_slice_at(s: Seq<char>, i: int, x: Seq<char>, a: int, b: int)
    requires
        0 <= i,
        i + x.len() <= s.len(),
        s.subrange(i, i + x.len()) == x,
        i <= a <= b <= i + x.len(),
    ensures
        s.subrange(a, b) == x.subrange(a - i, b - i),
{
    assert forall|m: int| 0 <= m < b - a implies s.subrange(a, b)[m] == x.subrange(
        a - i,
        b - i,
    )[m] by {
        assert(s.subrange(i, i + x.len())[a - i + m] == s[a - i + m + i]);
        assert(s.subrange(a, b)[m] == s[a + m]);
        assert(a - i + m + i == a + m);
    }
    assert(s.subrange(a, b) =~= x.subrange(a - i, b - i));
}

/// A hexadecimal digit character reads back as the value it was made from.
proof fn lemma_hex_roundtrip(d: int)
    requires
        0 <= d < 16,
    ensures
        is_hex_char(hex_char(d)),
        hex_val(hex_char(d)) == d,
{
}

/// None of the characters the serializer emits for an escape is whitespace,
/// and the first is always the backslash.
proof fn lemma_escape_shape(c: char)
    ensures
        1 <= escape_char(c).len(),
        escape_char(c).len() == 1 ==> escape_char(c)[0] == c && c != '"' && c != '\\' && (
        c as int) >= 32,
        escape_char(c).len() != 1 ==> escape_char(c)[0] == '\\' && escape_char(c).len() >= 2,
{
}

/// Parsing the escape the serializer emitted for `c` yields `c` again.
proof fn lemma_parse_escape_of_escape(s: Seq<char>, i: int, c: char)
    requires
        escape_char(c).len() >= 2,
        0 <= i,
        i + escape_char(c).len() <= s.len(),
        s.subrange(i, i + escape_char(c).len()) == escape_char(c),
    ensures
        parse_escape(s, i) == Some((c, i + escape_char(c).len())),
{
    let e = escape_char(c);
    lemma_char_at(s, i, e, 0);
    lemma_char_at(s, i, e, 1);
    if c == '"' || c == '\\' || c == '\n' || c == '\t' || c == '\r' || c as int == 8 || c as int
        == 12 {
        assert(parse_escape(s, i) == Some((c, i + 2)));
    } else {
        lemma_char_at(s, i, e, 2);
        lemma_char_at(s, i, e, 3);
        lemma_char_at(s, i, e, 4);
        lemma_char_at(s, i, e, 5);
        let code = c as int;
        lemma_hex_roundtrip(code / 16);
        lemma_hex_roundtrip(code % 16);
        assert(s[i + 4] == hex_char(code / 16));
        assert(s[i + 5] == hex_char(code % 16));
        assert(hex_val(s[i + 4]) * 16 + hex_val(s[i + 5]) == code);
        assert(crate::json::byte_char(code) == c) by {
            assert(0 <= code < 32);
            assert((code as u8) as int == code);
        }
    }
}

/// The serialized body of a string starts with the escape of its first
/// character.
proof fn lemma_ser_str_body_head(t: Seq<char>)
    requires
        t.len() > 0,
    ensures
        ser_str_body(t) == escape_char(t[0]) + ser_str_body(t.drop_first()),
    decreases t.len(),
{
    if t.len() == 1 {
        assert(t.drop_last() =~= Seq::<char>::empty());
        assert(t.drop_first() =~= Seq::<char>::empty());
        assert(ser_str_body(Seq::<char>::empty()) == Seq::<char>::empty());
        assert(ser_str_body(t) =~= escape_char(t[0]) + ser_str_body(t.drop_first()));
    } else {
        let u = t.drop_last();
        lemma_ser_str_body_head(u);
        assert(u[0] == t[0]);
        assert(u.drop_first() =~= t.drop_first().drop_last());
        assert(t.drop_first().last() == t.last());
        assert(ser_str_body(t.drop_first()) == ser_str_body(t.drop_first().drop_last())
            + escape_char(t.drop_first().last()));
        assert(ser_str_body(t) =~= escape_char(t[0]) + ser_str_body(t.drop_first()));
    }
}

/// Parsing the serialized body of `t`, followed by its closing quote,
/// yields `t` and stops just past that quote.
proof fn lemma_parse_of_ser_str_body(s: Seq<char>, i: int, t: Seq<char>)
    requires
        0 <= i,
        i + ser_str_body(t).len() + 1 <= s.len(),
        s.subrange(i, i + ser_str_body(t).len() + 1) == ser_str_body(t) + seq!['"'],
    ensures
        parse_str_body(s, i) == Some((t, i + ser_str_body(t).len() + 1)),
    decreases t.len(),
{
    let b = ser_str_body(t);
    let x = b + seq!['"'];
    if t.len() == 0 {
        lemma_char_at(s, i, x, 0);
        assert(s[i] == '"');
        assert(t =~= Seq::<char>::empty());
    } else {
        lemma_ser_str_body_head(t);
        let c = t[0];
        let e = escape_char(c);
        let t2 = t.drop_first();
        let b2 = ser_str_body(t2);
        lemma_escape_shape(c);
        assert(x.subrange(e.len() as int, x.len() as int) =~= b2 + seq!['"']);
        lemma_slice_at(s, i, x, i + e.len(), i + x.len());
        lemma_parse_of_ser_str_body(s, i + e.len(), t2);
        if e.len() == 1 {
            lemma_char_at(s, i, x, 0);
            assert(x[0] == c);
            assert(s[i] == c);
            assert(c != '"' && c != '\\' && (c as int) >= 32);
            assert(seq![c] + t2 =~= t);
        } else {
            lemma_char_at(s, i, x, 0);
            assert(x[0] == '\\');
            assert(s[i] == '\\');
            lemma_slice_at(s, i, x, i, i + e.len());
            assert(x.subrange(0, e.len() as int) =~= e);
            lemma_parse_escape_of_escape(s, i, c);
            assert(seq![c] + t2 =~= t);
        }
    }
}


/// Skipping whitespace stays put on anything that is not whitespace.
proof fn lemma_skip_at_nonws(s: Seq<char>, i: int)
    requires
        0 <= i < s.len(),
        !is_ws(s[i]),
    ensures
        skip_ws(s, i) == i,
{
}

/// Parsing the decimal representation of a count, up to a non-digit
/// boundary, yields the count again.
proof fn lemma_parse_count_of_rep(s: Seq<char>, i: int, n: u32)
    requires
        0 <= i,
        i + crate::num::dec_rep(n as nat).len() <= s.len(),
        s.subrange(i, i + crate::num::dec_rep(n as nat).len()) == crate::num::dec_rep(n as nat),
        i + crate::num::dec_rep(n as nat).len() == s.len() || !is_digit_char(
            s[i + crate::num::dec_rep(n as nat).len()],
        ),
    ensures
        crate::json::parse_count(s, i) == Some((n, i + crate::num::dec_rep(n as nat).len())),
{
    let d = crate::num::dec_rep(n as nat);
    crate::num::lemma_dec_rep_digits(n as nat);
    assert forall|k: int| i <= k < i + d.len() implies is_digit_char(#[trigger] s[k]) by {
        lemma_char_at(s, i, d, k - i);
    }
    crate::num::lemma_digits_end_exact(s, i, i + d.len());
    crate::num::lemma_dec_val_of_rep(n as nat);
}

/// Parsing a canonical `"key":` with no whitespace inside, followed by a
/// non-whitespace character, lands exactly on that character.
proof fn lemma_parse_key_colon_canonical(s: Seq<char>, i: int, key: Seq<char>)
    requires
        0 <= i,
        i + key.len() + 3 < s.len(),
        s.subrange(i, i + key.len() + 3) == seq!['"'] + key + seq!['"', ':'],
        !is_ws(s[i + key.len() + 3]),
    ensures
        crate::json::parse_key_colon(s, i, key) == Some(i + key.len() + 3),
{
    let x = seq!['"'] + key + seq!['"', ':'];
    let qk = seq!['"'] + key + seq!['"'];
    lemma_char_at(s, i, x, 0);
    assert(s[i] == '"');
    lemma_skip_at_nonws(s, i);
    lemma_slice_at(s, i, x, i, i + qk.len());
    assert(x.subrange(0, qk.len() as int) =~= qk);
    assert(crate::json::token_at(s, i, qk));
    let k0 = i + qk.len();
    lemma_char_at(s, i, x, qk.len() as int);
    assert(s[k0] == ':');
    lemma_skip_at_nonws(s, k0);
    lemma_slice_at(s, i, x, k0, k0 + 1);
    assert(x.subrange(qk.len() as int, (qk.len() + 1) as int) =~= seq![':']);
    assert(crate::json::token_at(s, k0, seq![':']));
    lemma_skip_at_nonws(s, k0 + 1);
}

/// Parsing a canonical serialized record yields the record it came from.
#[verifier::rlimit(100)]
proof fn lemma_parse_shortcut_of_ser(s: Seq<char>, i: int, v: crate::shortcuts::ShortcutView)
    requires
        0 <= i,
        i + crate::json::ser_shortcut(v).len() <= s.len(),
        s.subrange(i, i + crate::json::ser_shortcut(v).len()) == crate::json::ser_shortcut(v),
    ensures
        crate::json::parse_shortcut(s, i) == Some((v, i + crate::json::ser_shortcut(v).len())),
{
    let x = crate::json::ser_shortcut(v);
    let k1 = crate::json::key_lookup_count();
    let k2 = crate::json::key_key_combo();
    let k3 = crate::json::key_description();
    let d = crate::num::dec_rep(v.lookup_count as nat);
    let b1 = ser_str_body(v.key_combo);
    let b2 = ser_str_body(v.description);
    crate::num::lemma_dec_rep_digits(v.lookup_count as nat);
    let o2 = 1 + k1.len() + 3;
    let o3 = o2 + d.len();
    let o5 = o3 + 1 + k2.len() + 3;
    let o6 = o5 + b1.len() + 2;
    let o8 = o6 + 1 + k3.len() + 3;
    let o9 = o8 + b2.len() + 2;
    assert(x.len() == o9 + 1);

    // The opening brace.
    lemma_char_at(s, i, x, 0);
    assert(x[0] == '{');
    lemma_skip_at_nonws(s, i);
    lemma_slice_at(s, i, x, i, i + 1);
    assert(x.subrange(0, 1) =~= seq!['{']);
    assert(crate::json::token_at(s, i, seq!['{']));

    // The first key and the count after it.
    lemma_slice_at(s, i, x, i + 1, i + o2 as int);
    assert(x.subrange(1, o2 as int) =~= seq!['"'] + k1 + seq!['"', ':']);
    lemma_char_at(s, i, x, o2 as int);
    assert(x[o2 as int] == d[0]);
    assert(!is_ws(s[i + o2]));
    lemma_parse_key_colon_canonical(s, i + 1, k1);
    assert(crate::json::parse_key_colon(s, i + 1, k1) == Some(i + o2));
    lemma_slice_at(s, i, x, i + o2, i + o3 as int);
    assert(x.subrange(o2 as int, o3 as int) =~= d);
    lemma_char_at(s, i, x, o3 as int);
    assert(x[o3 as int] == ',');
    assert(!is_digit_char(s[i + o3]));
    lemma_parse_count_of_rep(s, i + o2, v.lookup_count);
    assert(crate::json::parse_count(s, i + o2) == Some((v.lookup_count, i + o3)));

    // The comma, the second key, and the quoted key combination.
    lemma_skip_at_nonws(s, i + o3);
    lemma_slice_at(s, i, x, i + o3, i + o3 + 1);
    assert(x.subrange(o3 as int, o3 + 1 as int) =~= seq![',']);
    assert(crate::json::token_at(s, i + o3, seq![',']));
    lemma_slice_at(s, i, x, i + o3 + 1, i + o5 as int);
    assert(x.subrange(o3 + 1 as int, o5 as int) =~= seq!['"'] + k2 + seq!['"', ':']);
    lemma_char_at(s, i, x, o5 as int);
    assert(x[o5 as int] == '"');
    assert(!is_ws(s[i + o5]));
    lemma_parse_key_colon_canonical(s, i + o3 + 1, k2);
    lemma_slice_at(s, i, x, i + o5 + 1, i + o6 as int);
    assert(x.subrange(o5 + 1 as int, o6 as int) =~= b1 + seq!['"']);
    lemma_parse_of_ser_str_body(s, i + o5 + 1, v.key_combo);
    assert(crate::json::parse_quoted(s, i + o5) == Some((v.key_combo, i + o6)));

    // The comma, the third key, and the quoted description.
    lemma_char_at(s, i, x, o6 as int);
    assert(x[o6 as int] == ',');
    lemma_skip_at_nonws(s, i + o6);
    lemma_slice_at(s, i, x, i + o6, i + o6 + 1);
    assert(x.subrange(o6 as int, o6 + 1 as int) =~= seq![',']);
    assert(crate::json::token_at(s, i + o6, seq![',']));
    lemma_slice_at(s, i, x, i + o6 + 1, i + o8 as int);
    assert(x.subrange(o6 + 1 as int, o8 as int) =~= seq!['"'] + k3 + seq!['"', ':']);
    lemma_char_at(s, i, x, o8 as int);
    assert(x[o8 as int] == '"');
    assert(!is_ws(s[i + o8]));
    lemma_parse_key_colon_canonical(s, i + o6 + 1, k3);
    lemma_slice_at(s, i, x, i + o8 + 1, i + o9 as int);
    assert(x.subrange(o8 + 1 as int, o9 as int) =~= b2 + seq!['"']);
    lemma_parse_of_ser_str_body(s, i + o8 + 1, v.description);
    assert(crate::json::parse_quoted(s, i + o8) == Some((v.description, i + o9)));

    // The closing brace.
    lemma_char_at(s, i, x, o9 as int);
    assert(x[o9 as int] == '}');
    lemma_skip_at_nonws(s, i + o9);
    lemma_slice_at(s, i, x, i + o9, i + o9 + 1);
    assert(x.subrange(o9 as int, o9 + 1 as int) =~= seq!['}']);
    assert(crate::json::token_at(s, i + o9, seq!['}']));
}



/// The text that completes a record array after at least one record: the
/// remaining records, each preceded by a comma, then the closing bracket.
spec fn ser_list_rest_text(vs: Seq<crate::shortcuts::ShortcutView>) -> Seq<char>
    decreases vs.len(),
{
    if vs.len() == 0 {
        seq![']']
    } else {
        seq![','] + crate::json::ser_shortcut(vs[0]) + ser_list_rest_text(vs.drop_first())
    }
}

/// A serialized record array starts with its first record.
proof fn lemma_ser_list_body_head(vs: Seq<crate::shortcuts::ShortcutView>)
    requires
        vs.len() >= 2,
    ensures
        crate::json::ser_list_body(vs) == crate::json::ser_shortcut(vs[0]) + seq![',']
            + crate::json::ser_list_body(vs.drop_first()),
    decreases vs.len(),
{
    let u = vs.drop_last();
    if vs.len() == 2 {
        assert(u.len() == 1 && u[0] == vs[0]);
        assert(crate::json::ser_list_body(u) == crate::json::ser_shortcut(vs[0]));
        assert(vs.drop_first().len() == 1 && vs.drop_first()[0] == vs[1]);
        assert(crate::json::ser_list_body(vs.drop_first()) == crate::json::ser_shortcut(vs[1]));
        assert(vs.last() == vs[1]);
        assert(crate::json::ser_list_body(vs) == crate::json::ser_list_body(u) + seq![',']
            + crate::json::ser_shortcut(vs[1]));
        assert(crate::json::ser_list_body(vs) =~= crate::json::ser_shortcut(vs[0]) + seq![',']
            + crate::json::ser_list_body(vs.drop_first()));
    } else {
        lemma_ser_list_body_head(u);
        assert(u[0] == vs[0]);
        assert(u.drop_first() =~= vs.drop_first().drop_last());
        assert(vs.drop_first().last() == vs.last());
        assert(crate::json::ser_list_body(vs.drop_first()) == crate::json::ser_list_body(
            vs.drop_first().drop_last(),
        ) + seq![','] + crate::json::ser_shortcut(vs.drop_first().last()));
        assert(crate::json::ser_list_body(vs) =~= crate::json::ser_shortcut(vs[0]) + seq![',']
            + crate::json::ser_list_body(vs.drop_first()));
    }
}

/// The serialized record array with its closing bracket decomposes into the
/// first record and the completing text.
proof fn lemma_list_decompose(vs: Seq<crate::shortcuts::ShortcutView>)
    requires
        vs.len() >= 1,
    ensures
        crate::json::ser_list_body(vs) + seq![']'] == crate::json::ser_shortcut(vs[0])
            + ser_list_rest_text(vs.drop_first()),
    decreases vs.len(),
{
    if vs.len() == 1 {
        assert(vs.drop_first() =~= Seq::<crate::shortcuts::ShortcutView>::empty());
        assert(crate::json::ser_list_body(vs) + seq![']'] =~= crate::json::ser_shortcut(vs[0])
            + ser_list_rest_text(vs.drop_first()));
    } else {
        lemma_ser_list_body_head(vs);
        lemma_list_decompose(vs.drop_first());
        let sc0 = crate::json::ser_shortcut(vs[0]);
        let body2 = crate::json::ser_list_body(vs.drop_first());
        let rest2 = ser_list_rest_text(vs.drop_first());
        // Regroup the concatenation around the first record, then rewrite
        // the tail with the induction hypothesis.
        assert(crate::json::ser_list_body(vs) + seq![']'] =~= sc0 + (seq![','] + (body2 + seq![
            ']',
        ])));
        assert(body2 + seq![']'] == crate::json::ser_shortcut(vs.drop_first()[0])
            + ser_list_rest_text(vs.drop_first().drop_first()));
        assert(rest2 == seq![','] + crate::json::ser_shortcut(vs.drop_first()[0])
            + ser_list_rest_text(vs.drop_first().drop_first()));
        assert(rest2 =~= seq![','] + (body2 + seq![']']));
        assert(crate::json::ser_list_body(vs) + seq![']'] == sc0 + rest2);
    }
}

/// Parsing the completing text of a record array yields its records.
proof fn lemma_parse_list_rest_of_text(s: Seq<char>, i: int, vs: Seq<
    crate::shortcuts::ShortcutView,
>)
    requires
        0 <= i,
        i + ser_list_rest_text(vs).len() <= s.len(),
        s.subrange(i, i + ser_list_rest_text(vs).len()) == ser_list_rest_text(vs),
    ensures
        crate::json::parse_list_rest(s, i) == Some((vs, i + ser_list_rest_text(vs).len())),
    decreases vs.len(),
{
    let rt = ser_list_rest_text(vs);
    if vs.len() == 0 {
        lemma_char_at(s, i, rt, 0);
        assert(s[i] == ']');
        lemma_skip_at_nonws(s, i);
        lemma_slice_at(s, i, rt, i, i + 1);
        assert(rt.subrange(0, 1) =~= seq![']']);
        assert(crate::json::token_at(s, i, seq![']']));
        assert(vs =~= Seq::<crate::shortcuts::ShortcutView>::empty());
    } else {
        let sc0 = crate::json::ser_shortcut(vs[0]);
        let rt2 = ser_list_rest_text(vs.drop_first());
        lemma_char_at(s, i, rt, 0);
        assert(rt[0] == ',');
        assert(s[i] == ',');
        lemma_skip_at_nonws(s, i);
        crate::json::lemma_token_at_char(s, i, ']');
        crate::json::lemma_token_at_char(s, i, ',');
        assert(!crate::json::token_at(s, i, seq![']']));
        assert(crate::json::token_at(s, i, seq![',']));
        lemma_slice_at(s, i, rt, i + 1, i + 1 + sc0.len());
        assert(rt.subrange(1, (1 + sc0.len()) as int) =~= sc0);
        lemma_parse_shortcut_of_ser(s, i + 1, vs[0]);
        let m = i + 1 + sc0.len();
        lemma_slice_at(s, i, rt, m, i + rt.len());
        assert(rt.subrange((1 + sc0.len()) as int, rt.len() as int) =~= rt2);
        lemma_parse_list_rest_of_text(s, m, vs.drop_first());
        assert(seq![vs[0]] + vs.drop_first() =~= vs);
    }
}

/// Parsing a canonical serialized record array yields its records.
proof fn lemma_parse_list_of_ser(s: Seq<char>, i: int, vs: Seq<crate::shortcuts::ShortcutView>)
    requires
        0 <= i,
        i + crate::json::ser_list_body(vs).len() + 2 <= s.len(),
        s.subrange(i, i + crate::json::ser_list_body(vs).len() + 2) == seq!['[']
            + crate::json::ser_list_body(vs) + seq![']'],
    ensures
        crate::json::parse_list(s, i) == Some(
            (vs, i + crate::json::ser_list_body(vs).len() + 2),
        ),
{
    let body = crate::json::ser_list_body(vs);
    let lt = seq!['['] + body + seq![']'];
    lemma_char_at(s, i, lt, 0);
    assert(s[i] == '[');
    lemma_slice_at(s, i, lt, i, i + 1);
    assert(lt.subrange(0, 1) =~= seq!['[']);
    assert(crate::json::token_at(s, i, seq!['[']));
    if vs.len() == 0 {
        lemma_char_at(s, i, lt, 1);
        assert(lt[1] == ']');
        assert(s[i + 1] == ']');
        lemma_skip_at_nonws(s, i + 1);
        lemma_slice_at(s, i, lt, i + 1, i + 2);
        assert(lt.subrange(1, 2) =~= seq![']']);
        assert(crate::json::token_at(s, i + 1, seq![']']));
        assert(vs =~= Seq::<crate::shortcuts::ShortcutView>::empty());
    } else {
        let sc0 = crate::json::ser_shortcut(vs[0]);
        let rt2 = ser_list_rest_text(vs.drop_first());
        lemma_list_decompose(vs);
        assert(lt =~= seq!['['] + (body + seq![']']));
        assert(seq!['['] + (body + seq![']']) == seq!['['] + (sc0 + rt2));
        assert(lt =~= seq!['['] + sc0 + rt2);
        lemma_char_at(s, i, lt, 1);
        assert(sc0[0] == '{');
        assert(lt[1] == '{');
        assert(s[i + 1] == '{');
        lemma_skip_at_nonws(s, i + 1);
        crate::json::lemma_token_at_char(s, i + 1, ']');
        assert(!crate::json::token_at(s, i + 1, seq![']']));
        lemma_slice_at(s, i, lt, i + 1, i + 1 + sc0.len());
        assert(lt.subrange(1, (1 + sc0.len()) as int) =~= sc0);
        lemma_parse_shortcut_of_ser(s, i + 1, vs[0]);
        let m = i + 1 + sc0.len();
        lemma_slice_at(s, i, lt, m, i + lt.len());
        assert(lt.subrange((1 + sc0.len()) as int, lt.len() as int) =~= rt2);
        lemma_parse_list_rest_of_text(s, m, vs.drop_first());
        assert(seq![vs[0]] + vs.drop_first() =~= vs);
    }
}

/// The round-trip law: the canonical text of any sequence of records parses
/// back to exactly those records, in the same order.
#[verifier::rlimit(100)]
pub proof fn lemma_store_round_trip(vs: Seq<crate::shortcuts::ShortcutView>)
    ensures
        crate::json::parse_store(crate::json::ser_store(vs)) == Some(vs),
{
    let s = crate::json::ser_store(vs);
    let key = crate::json::key_shortcuts();
    let body = crate::json::ser_list_body(vs);
    assert(s.subrange(0, s.len() as int) =~= s);
    lemma_char_at(s, 0, s, 0);
    assert(s[0] == '{');
    lemma_skip_at_nonws(s, 0);
    lemma_slice_at(s, 0, s, 0, 1);
    assert(s.subrange(0, 1) =~= seq!['{']);
    assert(crate::json::token_at(s, 0, seq!['{']));
    let p = 1 + key.len() + 3;
    lemma_slice_at(s, 0, s, 1, p as int);
    assert(s.subrange(1, p as int) =~= seq!['"'] + key + seq!['"', ':']);
    lemma_char_at(s, 0, s, p as int);
    assert(s[p as int] == '[');
    assert(!is_ws(s[p as int]));
    lemma_parse_key_colon_canonical(s, 1, key);
    let e = p + body.len() + 2;
    lemma_slice_at(s, 0, s, p as int, e as int);
    assert(s.subrange(p as int, e as int) =~= seq!['['] + body + seq![']']);
    lemma_parse_list_of_ser(s, p as int, vs);
    lemma_char_at(s, 0, s, e as int);
    assert(s[e as int] == '}');
    lemma_skip_at_nonws(s, e as int);
    lemma_slice_at(s, 0, s, e as int, e + 1 as int);
    assert(s.subrange(e as int, (e + 1) as int) =~= seq!['}']);
    assert(crate::json::token_at(s, e as int, seq!['}']));
    assert(e + 1 == s.len());
    assert(crate::json::skip_ws(s, (e + 1) as int) == s.len());
}


} // verus!
