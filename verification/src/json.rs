//! The persisted document format: a single JSON object of the shape
//! `{"shortcuts":[{"lookup_count":0,"key_combo":"...","description":"..."},...]}`.
//!
//! Serialization always produces this canonical text; parsing additionally
//! tolerates whitespace between tokens and the standard short escapes plus
//! `\u00XX` for characters below `U+0100`. Parsing everything else is a
//! [`ParseError`]: the store is never built from partially valid data.

use vstd::prelude::*;

use crate::num::dec_rep;
use crate::num::dec_val;
use crate::num::digit_char;
use crate::num::is_digit_char;
use crate::shortcuts::Shortcut;
use crate::shortcuts::ShortcutView;
use crate::shortcuts::Shortcuts;
use crate::utils::chars_to_string;
use crate::utils::str_to_chars;

verus! {

/// A malformed persisted document; the input as a whole is rejected.
#[derive(Debug, PartialEq, Eq, Structural)]
pub struct ParseError;

// ---------------------------------------------------------------------------
// Serialization: the canonical text of a store
// ---------------------------------------------------------------------------

/// The hexadecimal digit character for a value below sixteen, lower case.
pub open spec fn hex_char(d: int) -> char {
    if d < 10 {
        digit_char(d)
    } else if d == 10 {
        'a'
    } else if d == 11 {
        'b'
    } else if d == 12 {
        'c'
    } else if d == 13 {
        'd'
    } else if d == 14 {
        'e'
    } else {
        'f'
    }
}

/// How one character appears inside a serialized JSON string: itself, a
/// two-character short escape, or a `\u00XX` escape for the remaining
/// control characters.
pub open spec fn escape_char(c: char) -> Seq<char> {
    if c == '"' {
        seq!['\\', '"']
    } else if c == '\\' {
        seq!['\\', '\\']
    } else if c == '\n' {
        seq!['\\', 'n']
    } else if c == '\t' {
        seq!['\\', 't']
    } else if c == '\r' {
        seq!['\\', 'r']
    } else if c as int == 8 {
        seq!['\\', 'b']
    } else if c as int == 12 {
        seq!['\\', 'f']
    } else if (c as int) < 32 {
        let hi = hex_char((c as int) / 16);
        let lo = hex_char((c as int) % 16);
        seq!['\\', 'u', '0', '0', hi, lo]
    } else {
        seq![c]
    }
}

/// The body of a serialized JSON string: each character escaped as needed.
pub open spec fn ser_str_body(s: Seq<char>) -> Seq<char>
    decreases s.len(),
{
    if s.len() == 0 {
        Seq::empty()
    } else {
        ser_str_body(s.drop_last()) + escape_char(s.last())
    }
}

/// A serialized JSON string: the escaped body between double quotes.
pub open spec fn ser_string(s: Seq<char>) -> Seq<char> {
    seq!['"'] + ser_str_body(s) + seq!['"']
}

/// The characters of the object key `lookup_count`.
pub open spec fn key_lookup_count() -> Seq<char> {
    seq!['l', 'o', 'o', 'k', 'u', 'p', '_', 'c', 'o', 'u', 'n', 't']
}

/// The characters of the object key `key_combo`.
pub open spec fn key_key_combo() -> Seq<char> {
    seq!['k', 'e', 'y', '_', 'c', 'o', 'm', 'b', 'o']
}

/// The characters of the object key `description`.
pub open spec fn key_description() -> Seq<char> {
    seq!['d', 'e', 's', 'c', 'r', 'i', 'p', 't', 'i', 'o', 'n']
}

/// The characters of the object key `shortcuts`.
pub open spec fn key_shortcuts() -> Seq<char> {
    seq!['s', 'h', 'o', 'r', 't', 'c', 'u', 't', 's']
}

/// One serialized record: the three fields, in this order and no others.
pub open spec fn ser_shortcut(v: ShortcutView) -> Seq<char> {
    seq!['{', '"'] + key_lookup_count() + seq!['"', ':'] + dec_rep(v.lookup_count as nat) + seq![
        ',',
        '"',
    ] + key_key_combo() + seq!['"', ':'] + ser_string(v.key_combo) + seq![',', '"']
        + key_description() + seq!['"', ':'] + ser_string(v.description) + seq!['}']
}

/// The serialized records joined by commas.
pub open spec fn ser_list_body(vs: Seq<ShortcutView>) -> Seq<char>
    decreases vs.len(),
{
    if vs.len() == 0 {
        Seq::empty()
    } else if vs.len() == 1 {
        ser_shortcut(vs[0])
    } else {
        ser_list_body(vs.drop_last()) + seq![','] + ser_shortcut(vs.last())
    }
}

/// The canonical text of a whole store: the record array under the single
/// key `shortcuts`. The bound save path is never part of the payload.
pub open spec fn ser_store(vs: Seq<ShortcutView>) -> Seq<char> {
    seq!['{', '"'] + key_shortcuts() + seq!['"', ':', '['] + ser_list_body(vs) + seq![']', '}']
}

/// The hexadecimal digit character for `d`, as [`hex_char`] states it.
fn hex_to_char(d: u32) -> (c: char)
    requires
        d < 16,
    ensures
        c == hex_char(d as int),
{
    if d < 10 {
        crate::num::digit_to_char(d)
    } else if d == 10 {
        'a'
    } else if d == 11 {
        'b'
    } else if d == 12 {
        'c'
    } else if d == 13 {
        'd'
    } else if d == 14 {
        'e'
    } else {
        'f'
    }
}

/// Appends the escaped form of one character.
fn push_escaped(c: char, out: &mut Vec<char>)
    ensures
        final(out)@ == old(out)@ + escape_char(c),
{
    let code = c as u32;
    if c == '"' {
        out.push('\\');
        out.push('"');
    } else if c == '\\' {
        out.push('\\');
        out.push('\\');
    } else if c == '\n' {
        out.push('\\');
        out.push('n');
    } else if c == '\t' {
        out.push('\\');
        out.push('t');
    } else if c == '\r' {
        out.push('\\');
        out.push('r');
    } else if code == 8 {
        out.push('\\');
        out.push('b');
    } else if code == 12 {
        out.push('\\');
        out.push('f');
    } else if code < 32 {
        out.push('\\');
        out.push('u');
        out.push('0');
        out.push('0');
        out.push(hex_to_char(code / 16));
        out.push(hex_to_char(code % 16));
    } else {
        out.push(c);
    }
    proof {
        assert(out@ =~= old(out)@ + escape_char(c));
    }
}

/// The body of a serialized string grows one escaped character at a time.
proof fn lemma_ser_str_body_snoc(s: Seq<char>, i: int)
    requires
        0 <= i < s.len(),
    ensures
        ser_str_body(s.subrange(0, i + 1)) == ser_str_body(s.subrange(0, i)) + escape_char(s[i]),
{
    assert(s.subrange(0, i + 1).drop_last() =~= s.subrange(0, i));
    assert(s.subrange(0, i + 1).last() == s[i]);
}

/// Appends the serialized form of a string, quotes included.
fn push_ser_string(s: &str, out: &mut Vec<char>)
    ensures
        final(out)@ == old(out)@ + ser_string(s@),
{
    let chars = str_to_chars(s);
    out.push('"');
    let ghost base = out@;
    let n = chars.len();
    let mut i: usize = 0;
    while i < n
        invariant
            n == chars@.len(),
            chars@ == s@,
            i <= n,
            out@ == base + ser_str_body(s@.subrange(0, i as int)),
        decreases n - i,
    {
        let ghost before = out@;
        push_escaped(chars[i], out);
        proof {
            lemma_ser_str_body_snoc(s@, i as int);
            assert(out@ =~= base + ser_str_body(s@.subrange(0, i + 1 as int)));
        }
        i += 1;
    }
    out.push('"');
    proof {
        assert(s@.subrange(0, s@.len() as int) =~= s@);
        assert(out@ =~= old(out)@ + ser_string(s@));
    }
}

/// Appends one serialized record.
#[verifier::rlimit(100)]
fn push_ser_shortcut(sc: &Shortcut, out: &mut Vec<char>)
    ensures
        final(out)@ == old(out)@ + ser_shortcut(sc@),
{
    out.push('{');
    out.push('"');
    out.push('l');
    out.push('o');
    out.push('o');
    out.push('k');
    out.push('u');
    out.push('p');
    out.push('_');
    out.push('c');
    out.push('o');
    out.push('u');
    out.push('n');
    out.push('t');
    out.push('"');
    out.push(':');
    crate::num::push_dec_u32(sc.get_lookup_count(), out);
    out.push(',');
    out.push('"');
    out.push('k');
    out.push('e');
    out.push('y');
    out.push('_');
    out.push('c');
    out.push('o');
    out.push('m');
    out.push('b');
    out.push('o');
    out.push('"');
    out.push(':');
    push_ser_string(sc.get_key_combo(), out);
    out.push(',');
    out.push('"');
    out.push('d');
    out.push('e');
    out.push('s');
    out.push('c');
    out.push('r');
    out.push('i');
    out.push('p');
    out.push('t');
    out.push('i');
    out.push('o');
    out.push('n');
    out.push('"');
    out.push(':');
    push_ser_string(sc.get_description(), out);
    out.push('}');
    proof {
        assert(out@ =~= old(out)@ + ser_shortcut(sc@));
    }
}

/// The serialized list grows one record (and its separating comma) at a time.
proof fn lemma_ser_list_body_snoc(vs: Seq<ShortcutView>, i: int)
    requires
        0 < i < vs.len(),
    ensures
        ser_list_body(vs.subrange(0, i + 1)) == ser_list_body(vs.subrange(0, i)) + seq![',']
            + ser_shortcut(vs[i]),
{
    assert(vs.subrange(0, i + 1).drop_last() =~= vs.subrange(0, i));
    assert(vs.subrange(0, i + 1).last() == vs[i]);
}

// ---------------------------------------------------------------------------
// Parsing: the grammar of an accepted document
// ---------------------------------------------------------------------------

/// The whitespace characters tolerated between tokens.
pub open spec fn is_ws(c: char) -> bool {
    c == ' ' || c == '\n' || c == '\t' || c == '\r'
}

/// The first position at or after `i` holding something other than
/// whitespace, or the end of the text.
pub open spec fn skip_ws(s: Seq<char>, i: int) -> int
    decreases s.len() - i,
{
    if 0 <= i < s.len() && is_ws(s[i]) {
        skip_ws(s, i + 1)
    } else {
        i
    }
}

/// True for the characters that may stand in a `\u00XX` escape.
pub open spec fn is_hex_char(c: char) -> bool {
    is_digit_char(c) || (97 <= c as int <= 102) || (65 <= c as int <= 70)
}

/// The value of a hexadecimal digit character, either case.
pub open spec fn hex_val(c: char) -> int {
    if is_digit_char(c) {
        crate::num::digit_val(c)
    } else if 97 <= c as int <= 102 {
        c as int - 87
    } else {
        c as int - 55
    }
}

/// The character with code `v`, for codes below 256.
pub open spec fn byte_char(v: int) -> char {
    (v as u8) as char
}

/// Decodes the escape starting at the backslash at position `i`: one of the
/// short escapes, or `\u00XX` for a code below 256.
pub open spec fn parse_escape(s: Seq<char>, i: int) -> Option<(char, int)> {
    if i + 2 > s.len() {
        None
    } else {
        let c = s[i + 1];
        if c == '"' {
            Some(('"', i + 2))
        } else if c == '\\' {
            Some(('\\', i + 2))
        } else if c == '/' {
            Some(('/', i + 2))
        } else if c == 'n' {
            Some(('\n', i + 2))
        } else if c == 't' {
            Some(('\t', i + 2))
        } else if c == 'r' {
            Some(('\r', i + 2))
        } else if c == 'b' {
            Some(('\u{8}', i + 2))
        } else if c == 'f' {
            Some(('\u{c}', i + 2))
        } else if c == 'u' {
            if i + 6 > s.len() {
                None
            } else if s[i + 2] == '0' && s[i + 3] == '0' && is_hex_char(s[i + 4]) && is_hex_char(
                s[i + 5],
            ) {
                Some((byte_char(hex_val(s[i + 4]) * 16 + hex_val(s[i + 5])), i + 6))
            } else {
                None
            }
        } else {
            None
        }
    }
}

/// Reads the body of a JSON string starting right after the opening quote,
/// up to and past the closing quote; unescaped control characters and
/// unknown escapes are malformed.
pub open spec fn parse_str_body(s: Seq<char>, i: int) -> Option<(Seq<char>, int)>
    decreases s.len() - i,
{
    if i < 0 || i >= s.len() {
        None
    } else {
        let c = s[i];
        if c == '"' {
            Some((Seq::empty(), i + 1))
        } else if c == '\\' {
            match parse_escape(s, i) {
                Some((d, j)) => if j <= i {
                    None
                } else {
                    match parse_str_body(s, j) {
                        Some((t, k)) => Some((seq![d] + t, k)),
                        None => None,
                    }
                },
                None => None,
            }
        } else if (c as int) < 32 {
            None
        } else {
            match parse_str_body(s, i + 1) {
                Some((t, k)) => Some((seq![c] + t, k)),
                None => None,
            }
        }
    }
}

/// Reads a quoted JSON string whose opening quote stands exactly at `i`.
pub open spec fn parse_quoted(s: Seq<char>, i: int) -> Option<(Seq<char>, int)> {
    if 0 <= i < s.len() && s[i] == '"' {
        parse_str_body(s, i + 1)
    } else {
        None
    }
}

/// Reads an unsigned decimal number at `i`; a value that does not fit the
/// stored counter width is malformed.
pub open spec fn parse_count(s: Seq<char>, i: int) -> Option<(u32, int)> {
    let e = crate::num::digits_end(s, i);
    if e == i {
        None
    } else {
        let v = dec_val(s.subrange(i, e));
        if v > u32::MAX {
            None
        } else {
            Some((v as u32, e))
        }
    }
}

/// True when `tok` stands letter for letter at position `i`.
pub open spec fn token_at(s: Seq<char>, i: int, tok: Seq<char>) -> bool {
    0 <= i && i + tok.len() <= s.len() && s.subrange(i, i + tok.len()) == tok
}

/// Reads `"key":` with whitespace tolerated around the tokens, ending just
/// past any whitespace after the colon.
pub open spec fn parse_key_colon(s: Seq<char>, i: int, key: Seq<char>) -> Option<int> {
    let j = skip_ws(s, i);
    let quoted_key = seq!['"'] + key + seq!['"'];
    if token_at(s, j, quoted_key) {
        let k = skip_ws(s, j + quoted_key.len());
        if token_at(s, k, seq![':']) {
            Some(skip_ws(s, k + 1))
        } else {
            None
        }
    } else {
        None
    }
}

/// Reads one record object starting at `i` (whitespace tolerated), with its
/// three fields in canonical order.
pub open spec fn parse_shortcut(s: Seq<char>, i: int) -> Option<(ShortcutView, int)> {
    let j = skip_ws(s, i);
    if !token_at(s, j, seq!['{']) {
        None
    } else {
        match parse_key_colon(s, j + 1, key_lookup_count()) {
            None => None,
            Some(p1) => match parse_count(s, p1) {
                None => None,
                Some((count, p2)) => {
                    let q2 = skip_ws(s, p2);
                    if !token_at(s, q2, seq![',']) {
                        None
                    } else {
                        match parse_key_colon(s, q2 + 1, key_key_combo()) {
                            None => None,
                            Some(p3) => match parse_quoted(s, p3) {
                                None => None,
                                Some((combo, p4)) => {
                                    let q4 = skip_ws(s, p4);
                                    if !token_at(s, q4, seq![',']) {
                                        None
                                    } else {
                                        match parse_key_colon(s, q4 + 1, key_description()) {
                                            None => None,
                                            Some(p5) => match parse_quoted(s, p5) {
                                                None => None,
                                                Some((desc, p6)) => {
                                                    let q6 = skip_ws(s, p6);
                                                    if token_at(s, q6, seq!['}']) {
                                                        Some(
                                                            (
                                                                ShortcutView {
                                                                    lookup_count: count,
                                                                    key_combo: combo,
                                                                    description: desc,
                                                                },
                                                                q6 + 1,
                                                            ),
                                                        )
                                                    } else {
                                                        None
                                                    }
                                                },
                                            },
                                        }
                                    }
                                },
                            },
                        }
                    }
                },
            },
        }
    }
}

/// Reads the rest of a record array after at least one record: either the
/// closing bracket, or a comma and a further record. A position that fails
/// to advance is treated as malformed so that the text is consumed finitely.
pub open spec fn parse_list_rest(s: Seq<char>, i: int) -> Option<(Seq<ShortcutView>, int)>
    decreases s.len() - i,
{
    let j = skip_ws(s, i);
    if token_at(s, j, seq![']']) {
        Some((Seq::empty(), j + 1))
    } else if token_at(s, j, seq![',']) {
        match parse_shortcut(s, j + 1) {
            None => None,
            Some((v, m)) => if m <= i {
                None
            } else {
                match parse_list_rest(s, m) {
                    None => None,
                    Some((vs, e)) => Some((seq![v] + vs, e)),
                }
            },
        }
    } else {
        None
    }
}

/// Reads the record array whose opening bracket stands exactly at `i`.
pub open spec fn parse_list(s: Seq<char>, i: int) -> Option<(Seq<ShortcutView>, int)> {
    if !token_at(s, i, seq!['[']) {
        None
    } else {
        let j = skip_ws(s, i + 1);
        if token_at(s, j, seq![']']) {
            Some((Seq::empty(), j + 1))
        } else {
            match parse_shortcut(s, i + 1) {
                None => None,
                Some((v, m)) => match parse_list_rest(s, m) {
                    None => None,
                    Some((vs, e)) => Some((seq![v] + vs, e)),
                },
            }
        }
    }
}

/// The records held by an accepted document, or nothing when the text is
/// malformed: a single object with the single key `shortcuts`, its record
/// array, and nothing but whitespace after it.
pub open spec fn parse_store(s: Seq<char>) -> Option<Seq<ShortcutView>> {
    let i = skip_ws(s, 0);
    if !token_at(s, i, seq!['{']) {
        None
    } else {
        match parse_key_colon(s, i + 1, key_shortcuts()) {
            None => None,
            Some(p) => match parse_list(s, p) {
                None => None,
                Some((vs, e)) => {
                    let q = skip_ws(s, e);
                    if token_at(s, q, seq!['}']) && skip_ws(s, q + 1) == s.len() {
                        Some(vs)
                    } else {
                        None
                    }
                },
            },
        }
    }
}

/// Skipping whitespace never moves backwards and never leaves the text.
proof fn lemma_skip_ws_bounds(s: Seq<char>, i: int)
    requires
        0 <= i <= s.len(),
    ensures
        i <= skip_ws(s, i) <= s.len(),
        skip_ws(s, i) == s.len() || !is_ws(s[skip_ws(s, i)]),
    decreases s.len() - i,
{
    if i < s.len() && is_ws(s[i]) {
        lemma_skip_ws_bounds(s, i + 1);
    }
}

/// A one-character token stands at `i` exactly when that character does.
pub(crate) proof fn lemma_token_at_char(s: Seq<char>, i: int, c: char)
    ensures
        token_at(s, i, seq![c]) <==> (0 <= i < s.len() && s[i] == c),
{
    if 0 <= i < s.len() && s[i] == c {
        assert(s.subrange(i, i + 1) =~= seq![c]);
    }
    if token_at(s, i, seq![c]) {
        assert(s.subrange(i, i + 1)[0] == s[i]);
    }
}

/// Moves past any whitespace starting at `i`.
fn skip_ws_x(s: &Vec<char>, i: usize) -> (j: usize)
    ensures
        j as int == skip_ws(s@, i as int),
        i <= j,
        i <= s@.len() ==> j <= s@.len(),
{
    let mut j = i;
    loop
        invariant
            i <= j,
            skip_ws(s@, i as int) == skip_ws(s@, j as int),
            i <= s@.len() ==> j <= s@.len(),
        ensures
            j as int == skip_ws(s@, j as int),
            skip_ws(s@, i as int) == skip_ws(s@, j as int),
        decreases s@.len() - j,
    {
        if j >= s.len() {
            break ;
        }
        let c = s[j];
        if !(c == ' ' || c == '\n' || c == '\t' || c == '\r') {
            break ;
        }
        j += 1;
    }
    j
}

/// Compares the characters at `i` with `tok`.
fn token_at_x(s: &Vec<char>, i: usize, tok: &Vec<char>) -> (r: bool)
    ensures
        r == token_at(s@, i as int, tok@),
{
    let n = s.len();
    if tok.len() > n || i > n - tok.len() {
        proof {
            if token_at(s@, i as int, tok@) {
                assert(i + tok@.len() <= s@.len());
            }
        }
        return false;
    }
    let mut k: usize = 0;
    while k < tok.len()
        invariant
            n == s@.len(),
            i + tok@.len() <= n,
            k <= tok@.len(),
            forall|m: int| 0 <= m < k ==> s@[i + m] == tok@[m],
        decreases tok@.len() - k,
    {
        if s[i + k] != tok[k] {
            proof {
                assert(s@.subrange(i as int, i + tok@.len())[k as int] == s@[i + k]);
            }
            return false;
        }
        k += 1;
    }
    proof {
        assert(s@.subrange(i as int, i + tok@.len()) =~= tok@);
    }
    true
}

/// The value of `c` as a hexadecimal digit, or nothing when it is not one.
fn hex_char_val(c: char) -> (r: Option<u32>)
    ensures
        r is Some <==> is_hex_char(c),
        r matches Some(v) ==> v == hex_val(c),
{
    let code = c as u32;
    if 48 <= code && code <= 57 {
        Some(code - 48)
    } else if 97 <= code && code <= 102 {
        Some(code - 87)
    } else if 65 <= code && code <= 70 {
        Some(code - 55)
    } else {
        None
    }
}

/// Decodes the escape whose backslash stands at `i`.
fn parse_escape_x(s: &Vec<char>, i: usize) -> (r: Option<(char, usize)>)
    requires
        i < s@.len(),
    ensures
        match parse_escape(s@, i as int) {
            Some((c, j)) => r matches Some(p) && p.0 == c && p.1 as int == j,
            None => r is None,
        },
{
    let n = s.len();
    if n - i < 2 {
        return None;
    }
    let c = s[i + 1];
    if c == '"' {
        Some(('"', i + 2))
    } else if c == '\\' {
        Some(('\\', i + 2))
    } else if c == '/' {
        Some(('/', i + 2))
    } else if c == 'n' {
        Some(('\n', i + 2))
    } else if c == 't' {
        Some(('\t', i + 2))
    } else if c == 'r' {
        Some(('\r', i + 2))
    } else if c == 'b' {
        Some(('\u{8}', i + 2))
    } else if c == 'f' {
        Some(('\u{c}', i + 2))
    } else if c == 'u' {
        if n - i < 6 {
            return None;
        }
        if !(s[i + 2] == '0' && s[i + 3] == '0') {
            return None;
        }
        let hi = match hex_char_val(s[i + 4]) {
            Some(v) => v,
            None => { return None },
        };
        let lo = match hex_char_val(s[i + 5]) {
            Some(v) => v,
            None => { return None },
        };
        let code = hi * 16 + lo;
        Some(((code as u8) as char, i + 6))
    } else {
        None
    }
}

/// Reads a string body as [`parse_str_body`] describes it, returning the
/// decoded characters and the position past the closing quote.
fn parse_str_body_x(s: &Vec<char>, i: usize) -> (r: Option<(Vec<char>, usize)>)
    ensures
        match parse_str_body(s@, i as int) {
            Some((t, j)) => r matches Some(p) && p.0@ == t && p.1 as int == j,
            None => r is None,
        },
{
    let mut cur = i;
    let mut out: Vec<char> = Vec::new();
    proof {
        if parse_str_body(s@, i as int) is Some {
            let (t, j) = parse_str_body(s@, i as int)->Some_0;
            assert(Seq::<char>::empty() + t =~= t);
        }
    }
    loop
        invariant
            i <= cur,
            match parse_str_body(s@, cur as int) {
                Some((t, j)) => parse_str_body(s@, i as int) == Some((out@ + t, j)),
                None => parse_str_body(s@, i as int) is None,
            },
        decreases s@.len() - cur,
    {
        if cur >= s.len() {
            return None;
        }
        let c = s[cur];
        if c == '"' {
            proof {
                assert(out@ + Seq::<char>::empty() =~= out@);
            }
            return Some((out, cur + 1));
        } else if c == '\\' {
            match parse_escape_x(s, cur) {
                None => {
                    return None;
                },
                Some((d, j)) => {
                    let ghost prev = out@;
                    out.push(d);
                    proof {
                        assert(out@ =~= prev + seq![d]);
                        if parse_str_body(s@, j as int) is Some {
                            let (t, k) = parse_str_body(s@, j as int)->Some_0;
                            assert(prev + (seq![d] + t) =~= out@ + t);
                        }
                    }
                    cur = j;
                },
            }
        } else if c < (' ') {
            return None;
        } else {
            let ghost prev = out@;
            out.push(c);
            proof {
                assert(out@ =~= prev + seq![c]);
                if parse_str_body(s@, cur + 1 as int) is Some {
                    let (t, k) = parse_str_body(s@, cur + 1 as int)->Some_0;
                    assert(prev + (seq![c] + t) =~= out@ + t);
                }
            }
            cur += 1;
        }
    }
}

/// Reads a quoted string whose opening quote stands exactly at `i`.
fn parse_quoted_x(s: &Vec<char>, i: usize) -> (r: Option<(String, usize)>)
    ensures
        match parse_quoted(s@, i as int) {
            Some((t, j)) => r matches Some(p) && p.0@ == t && p.1 as int == j,
            None => r is None,
        },
{
    if i >= s.len() {
        return None;
    }
    if s[i] != '"' {
        return None;
    }
    match parse_str_body_x(s, i + 1) {
        None => None,
        Some((chars, j)) => Some((chars_to_string(&chars), j)),
    }
}

/// Reads an unsigned decimal count as [`parse_count`] describes it.
fn parse_count_x(s: &Vec<char>, i: usize) -> (r: Option<(u32, usize)>)
    requires
        i <= s@.len(),
    ensures
        match parse_count(s@, i as int) {
            Some((v, j)) => r matches Some(p) && p.0 == v && p.1 as int == j,
            None => r is None,
        },
{
    proof {
        crate::num::lemma_digits_end_props(s@, i as int);
    }
    let ghost e = crate::num::digits_end(s@, i as int);
    let mut j = i;
    let mut val: u64 = 0;
    loop
        invariant
            i <= j <= e <= s@.len(),
            e == crate::num::digits_end(s@, i as int),
            forall|k: int| i <= k < e ==> is_digit_char(#[trigger] s@[k]),
            e == s@.len() || !is_digit_char(s@[e]),
            val == dec_val(s@.subrange(i as int, j as int)),
            val <= u32::MAX,
        ensures
            i <= j <= e,
            val == dec_val(s@.subrange(i as int, j as int)),
            val <= u32::MAX,
            j as int == s@.len() || !is_digit_char(s@[j as int]),
        decreases s@.len() - j,
    {
        if j >= s.len() {
            break ;
        }
        let dopt = crate::num::char_to_digit(s[j]);
        if dopt.is_none() {
            break ;
        }
        let d = dopt.unwrap();
        proof {
            // The loop saw a digit, so `j` has not reached the run's end.
            assert(is_digit_char(s@[j as int]));
            assert(j < e);
            crate::num::lemma_dec_val_step(s@.subrange(i as int, e), j - i);
            assert(s@.subrange(i as int, e).subrange(0, j - i) =~= s@.subrange(i as int, j as int));
            assert(s@.subrange(i as int, e).subrange(0, j - i + 1) =~= s@.subrange(
                i as int,
                j + 1 as int,
            ));
        }
        let next = val * 10 + (d as u64);
        if next > 0xffff_ffff {
            proof {
                assert(crate::num::all_digits(s@.subrange(i as int, e))) by {
                    assert forall|k: int|
                        0 <= k < e - i implies is_digit_char(
                        #[trigger] s@.subrange(i as int, e)[k],
                    ) by {
                        assert(s@.subrange(i as int, e)[k] == s@[i + k]);
                    }
                }
                crate::num::lemma_dec_val_prefix_bound(
                    s@.subrange(i as int, e),
                    j - i + 1,
                    u32::MAX as int,
                );
            }
            return None;
        }
        val = next;
        j += 1;
    }
    proof {
        crate::num::lemma_digits_end_exact(s@, i as int, j as int);
    }
    if j == i {
        return None;
    }
    Some((val as u32, j))
}

/// Reads `"key":` with surrounding whitespace; `key` holds the bare key.
fn parse_key_colon_x(s: &Vec<char>, i: usize, key: &Vec<char>) -> (r: Option<usize>)
    requires
        i <= s@.len(),
    ensures
        match parse_key_colon(s@, i as int, key@) {
            Some(p) => r matches Some(ru) && ru as int == p && p <= s@.len(),
            None => r is None,
        },
{
    proof {
        lemma_skip_ws_bounds(s@, i as int);
    }
    let j = skip_ws_x(s, i);
    let ghost quoted = seq!['"'] + key@ + seq!['"'];
    if j >= s.len() || j + 1 > usize::MAX - key.len() {
        proof {
            if token_at(s@, j as int, quoted) {
                assert(j + quoted.len() <= s@.len());
            }
        }
        return None;
    }
    if s[j] != '"' {
        proof {
            if token_at(s@, j as int, quoted) {
                assert(s@.subrange(j as int, j + quoted.len())[0] == s@[j as int]);
                assert(quoted[0] == '"');
            }
        }
        return None;
    }
    if !token_at_x(s, j + 1, key) {
        proof {
            if token_at(s@, j as int, quoted) {
                assert(s@.subrange(j + 1 as int, j + 1 + key@.len()) =~= quoted.subrange(
                    1,
                    1 + key@.len() as int,
                ));
                assert(quoted.subrange(1, 1 + key@.len() as int) =~= key@);
            }
        }
        return None;
    }
    let after_key = j + 1 + key.len();
    if after_key >= s.len() {
        proof {
            if token_at(s@, j as int, quoted) {
                assert(j + quoted.len() <= s@.len());
            }
        }
        return None;
    }
    if s[after_key] != '"' {
        proof {
            if token_at(s@, j as int, quoted) {
                assert(s@.subrange(j as int, j + quoted.len())[quoted.len() - 1] == s@[j
                    + quoted.len() - 1]);
                assert(quoted[quoted.len() - 1] == '"');
            }
        }
        return None;
    }
    proof {
        assert(s@.subrange(j as int, j + quoted.len()) =~= quoted);
        assert(token_at(s@, j as int, quoted));
        lemma_skip_ws_bounds(s@, after_key + 1 as int);
    }
    let k = skip_ws_x(s, after_key + 1);
    proof {
        lemma_token_at_char(s@, k as int, ':');
    }
    if k >= s.len() || s[k] != ':' {
        return None;
    }
    proof {
        lemma_skip_ws_bounds(s@, k + 1 as int);
    }
    Some(skip_ws_x(s, k + 1))
}

impl Shortcuts {
    /// The canonical JSON text of the store's contents. The caller writes it
    /// to the bound path; the path itself is not serialized.
    pub fn to_json(&self) -> (text: String)
        ensures
            text@ == ser_store(self@),
    {
        let all = self.get_all_shortcuts();
        let mut out: Vec<char> = Vec::new();
        out.push('{');
        out.push('"');
        out.push('s');
        out.push('h');
        out.push('o');
        out.push('r');
        out.push('t');
        out.push('c');
        out.push('u');
        out.push('t');
        out.push('s');
        out.push('"');
        out.push(':');
        out.push('[');
        let ghost base = out@;
        let n = all.len();
        let mut i: usize = 0;
        while i < n
            invariant
                n == all@.len(),
                crate::shortcuts::views_of(all@) == self@,
                i <= n,
                out@ == base + ser_list_body(self@.subrange(0, i as int)),
            decreases n - i,
        {
            if i > 0 {
                out.push(',');
            }
            push_ser_shortcut(&all[i], &mut out);
            proof {
                assert(self@[i as int] == all@[i as int]@);
                if i == 0 {
                    assert(self@.subrange(0, 1) =~= seq![self@[0]]);
                    assert(self@.subrange(0, 0) =~= Seq::<ShortcutView>::empty());
                    assert(out@ =~= base + ser_list_body(self@.subrange(0, 1)));
                } else {
                    lemma_ser_list_body_snoc(self@, i as int);
                    assert(out@ =~= base + ser_list_body(self@.subrange(0, i + 1 as int)));
                }
            }
            i += 1;
        }
        out.push(']');
        out.push('}');
        proof {
            assert(self@.subrange(0, self@.len() as int) =~= self@);
            assert(out@ =~= ser_store(self@));
        }
        chars_to_string(&out)
    }
}


/// A string body, when it parses, ends past where it began and within the
/// text.
proof fn lemma_parse_str_body_bounds(s: Seq<char>, i: int)
    ensures
        parse_str_body(s, i) matches Some(p) ==> i < p.1 <= s.len(),
    decreases s.len() - i,
{
    if 0 <= i < s.len() {
        let c = s[i];
        if c == '\\' {
            match parse_escape(s, i) {
                Some((d, j)) => {
                    if j > i {
                        lemma_parse_str_body_bounds(s, j);
                    }
                },
                None => {},
            }
        } else if c != '"' && c as int >= 32 {
            lemma_parse_str_body_bounds(s, i + 1);
        }
    }
}

/// The characters of the bare key `lookup_count`, for comparison.
fn key_lookup_count_x() -> (v: Vec<char>)
    ensures
        v@ == key_lookup_count(),
{
    let v = str_to_chars("lookup_count");
    proof {
        reveal_strlit("lookup_count");
        assert(v@ =~= key_lookup_count());
    }
    v
}

/// The characters of the bare key `key_combo`, for comparison.
fn key_key_combo_x() -> (v: Vec<char>)
    ensures
        v@ == key_key_combo(),
{
    let v = str_to_chars("key_combo");
    proof {
        reveal_strlit("key_combo");
        assert(v@ =~= key_key_combo());
    }
    v
}

/// The characters of the bare key `description`, for comparison.
fn key_description_x() -> (v: Vec<char>)
    ensures
        v@ == key_description(),
{
    let v = str_to_chars("description");
    proof {
        reveal_strlit("description");
        assert(v@ =~= key_description());
    }
    v
}

/// The characters of the bare key `shortcuts`, for comparison.
fn key_shortcuts_x() -> (v: Vec<char>)
    ensures
        v@ == key_shortcuts(),
{
    let v = str_to_chars("shortcuts");
    proof {
        reveal_strlit("shortcuts");
        assert(v@ =~= key_shortcuts());
    }
    v
}

/// Reads one record object as [`parse_shortcut`] describes it.
fn parse_shortcut_x(s: &Vec<char>, i: usize) -> (r: Option<(Shortcut, usize)>)
    requires
        i <= s@.len(),
    ensures
        match parse_shortcut(s@, i as int) {
            Some((v, j)) => r matches Some(p) && p.0@ == v && p.1 as int == j && j <= s@.len(),
            None => r is None,
        },
{
    proof {
        lemma_skip_ws_bounds(s@, i as int);
    }
    let j = skip_ws_x(s, i);
    proof {
        lemma_token_at_char(s@, j as int, '{');
    }
    if j >= s.len() || s[j] != '{' {
        return None;
    }
    let key1 = key_lookup_count_x();
    let p1 = match parse_key_colon_x(s, j + 1, &key1) {
        None => { return None },
        Some(p) => p,
    };
    let (count, p2) = match parse_count_x(s, p1) {
        None => { return None },
        Some(q) => q,
    };
    proof {
        crate::num::lemma_digits_end_props(s@, p1 as int);
        lemma_skip_ws_bounds(s@, p2 as int);
    }
    let q2 = skip_ws_x(s, p2);
    proof {
        lemma_token_at_char(s@, q2 as int, ',');
    }
    if q2 >= s.len() || s[q2] != ',' {
        return None;
    }
    let key2 = key_key_combo_x();
    let p3 = match parse_key_colon_x(s, q2 + 1, &key2) {
        None => { return None },
        Some(p) => p,
    };
    let (combo, p4) = match parse_quoted_x(s, p3) {
        None => { return None },
        Some(q) => q,
    };
    proof {
        lemma_parse_str_body_bounds(s@, p3 + 1 as int);
        lemma_skip_ws_bounds(s@, p4 as int);
    }
    let q4 = skip_ws_x(s, p4);
    proof {
        lemma_token_at_char(s@, q4 as int, ',');
    }
    if q4 >= s.len() || s[q4] != ',' {
        return None;
    }
    let key3 = key_description_x();
    let p5 = match parse_key_colon_x(s, q4 + 1, &key3) {
        None => { return None },
        Some(p) => p,
    };
    let (desc, p6) = match parse_quoted_x(s, p5) {
        None => { return None },
        Some(q) => q,
    };
    proof {
        lemma_parse_str_body_bounds(s@, p5 + 1 as int);
        lemma_skip_ws_bounds(s@, p6 as int);
    }
    let q6 = skip_ws_x(s, p6);
    proof {
        lemma_token_at_char(s@, q6 as int, '}');
    }
    if q6 >= s.len() || s[q6] != '}' {
        return None;
    }
    Some((Shortcut::with_count(count, combo, desc), q6 + 1))
}

/// Reads the record array as [`parse_list`] describes it.
fn parse_list_x(s: &Vec<char>, i: usize) -> (r: Option<(Vec<Shortcut>, usize)>)
    requires
        i <= s@.len(),
    ensures
        match parse_list(s@, i as int) {
            Some((vs, e)) => r matches Some(p) && crate::shortcuts::views_of(p.0@) == vs && p.1
                as int == e && e <= s@.len(),
            None => r is None,
        },
{
    proof {
        lemma_token_at_char(s@, i as int, '[');
    }
    if i >= s.len() || s[i] != '[' {
        return None;
    }
    proof {
        lemma_skip_ws_bounds(s@, i + 1 as int);
    }
    let j = skip_ws_x(s, i + 1);
    proof {
        lemma_token_at_char(s@, j as int, ']');
    }
    if j < s.len() && s[j] == ']' {
        let out: Vec<Shortcut> = Vec::new();
        proof {
            assert(crate::shortcuts::views_of(out@) =~= Seq::<ShortcutView>::empty());
        }
        return Some((out, j + 1));
    }
    let (sc0, m0) = match parse_shortcut_x(s, i + 1) {
        None => { return None },
        Some(q) => q,
    };
    let mut out: Vec<Shortcut> = Vec::new();
    let ghost v0 = sc0@;
    out.push(sc0);
    proof {
        assert(crate::shortcuts::views_of(out@) =~= seq![v0]);
    }
    let mut cur = m0;
    loop
        invariant
            cur <= s@.len(),
            match parse_list_rest(s@, cur as int) {
                Some((vs, e)) => parse_list(s@, i as int) == Some(
                    (crate::shortcuts::views_of(out@) + vs, e),
                ),
                None => parse_list(s@, i as int) is None,
            },
        decreases s@.len() - cur,
    {
        proof {
            lemma_skip_ws_bounds(s@, cur as int);
        }
        let jr = skip_ws_x(s, cur);
        proof {
            lemma_token_at_char(s@, jr as int, ']');
            lemma_token_at_char(s@, jr as int, ',');
        }
        if jr < s.len() && s[jr] == ']' {
            proof {
                assert(crate::shortcuts::views_of(out@) + Seq::<ShortcutView>::empty()
                    =~= crate::shortcuts::views_of(out@));
            }
            return Some((out, jr + 1));
        }
        if !(jr < s.len() && s[jr] == ',') {
            return None;
        }
        let (sc, m) = match parse_shortcut_x(s, jr + 1) {
            None => { return None },
            Some(q) => q,
        };
        if m <= cur {
            return None;
        }
        let ghost prev = out@;
        let ghost vc = sc@;
        out.push(sc);
        proof {
            assert(crate::shortcuts::views_of(out@) =~= crate::shortcuts::views_of(prev).push(vc));
            if parse_list_rest(s@, m as int) is Some {
                let (vs2, e2) = parse_list_rest(s@, m as int)->Some_0;
                assert(crate::shortcuts::views_of(prev) + (seq![vc] + vs2)
                    =~= crate::shortcuts::views_of(out@) + vs2);
            }
        }
        cur = m;
    }
}

impl Shortcuts {
    /// Rebuilds a store from persisted JSON text, with no save location
    /// bound yet; the text is accepted exactly when [`parse_store`] accepts
    /// it, and a malformed text builds nothing.
    pub fn from_json(text: &str) -> (r: Result<Shortcuts, ParseError>)
        ensures
            match parse_store(text@) {
                Some(vs) => r matches Ok(st) && st@ == vs && st.spec_save_path() is None,
                None => r matches Err(e) && e == ParseError,
            },
    {
        let s = str_to_chars(text);
        proof {
            lemma_skip_ws_bounds(s@, 0);
        }
        let i = skip_ws_x(&s, 0);
        proof {
            lemma_token_at_char(s@, i as int, '{');
        }
        if i >= s.len() || s[i] != '{' {
            return Err(ParseError);
        }
        let key = key_shortcuts_x();
        let p = match parse_key_colon_x(&s, i + 1, &key) {
            None => { return Err(ParseError) },
            Some(p) => p,
        };
        let (records, e) = match parse_list_x(&s, p) {
            None => { return Err(ParseError) },
            Some(q) => q,
        };
        proof {
            lemma_skip_ws_bounds(s@, e as int);
        }
        let q = skip_ws_x(&s, e);
        proof {
            lemma_token_at_char(s@, q as int, '}');
        }
        if q >= s.len() || s[q] != '}' {
            return Err(ParseError);
        }
        proof {
            lemma_skip_ws_bounds(s@, q + 1 as int);
        }
        let tail = skip_ws_x(&s, q + 1);
        if tail != s.len() {
            return Err(ParseError);
        }
        Ok(Shortcuts::from_vec(records))
    }
}


} // verus!
