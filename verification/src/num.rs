//! Decimal representation of the integers the library prints and parses:
//! lookup counts inside the persisted JSON document and the row numbers a
//! user types at the prompt.

use vstd::prelude::*;

verus! {

/// True for the ten ASCII digit characters.
pub open spec fn is_digit_char(c: char) -> bool {
    48 <= c as int <= 57
}

/// The numeric value of an ASCII digit character.
pub open spec fn digit_val(c: char) -> int {
    c as int - 48
}

/// The ASCII digit character for a value below ten.
pub open spec fn digit_char(d: int) -> char {
    if d == 0 {
        '0'
    } else if d == 1 {
        '1'
    } else if d == 2 {
        '2'
    } else if d == 3 {
        '3'
    } else if d == 4 {
        '4'
    } else if d == 5 {
        '5'
    } else if d == 6 {
        '6'
    } else if d == 7 {
        '7'
    } else if d == 8 {
        '8'
    } else {
        '9'
    }
}

/// The decimal representation of `n`, most significant digit first, with no
/// leading zero except for `n == 0` itself.
pub open spec fn dec_rep(n: nat) -> Seq<char>
    decreases n,
{
    if n < 10 {
        seq![digit_char(n as int)]
    } else {
        dec_rep(n / 10).push(digit_char((n % 10) as int))
    }
}

/// The value of a run of digit characters, most significant digit first.
pub open spec fn dec_val(s: Seq<char>) -> int
    decreases s.len(),
{
    if s.len() == 0 {
        0
    } else {
        dec_val(s.drop_last()) * 10 + digit_val(s.last())
    }
}

/// Every character of a decimal representation is a digit, and there is at
/// least one of them.
pub proof fn lemma_dec_rep_digits(n: nat)
    ensures
        dec_rep(n).len() >= 1,
        forall|k: int| 0 <= k < dec_rep(n).len() ==> is_digit_char(#[trigger] dec_rep(n)[k]),
    decreases n,
{
    if n >= 10 {
        lemma_dec_rep_digits(n / 10);
    }
}

/// A digit character reads back as the digit it was made from.
pub proof fn lemma_digit_roundtrip(d: int)
    requires
        0 <= d < 10,
    ensures
        digit_val(digit_char(d)) == d,
{
}

/// Reading the decimal representation of `n` back yields `n`.
pub proof fn lemma_dec_val_of_rep(n: nat)
    ensures
        dec_val(dec_rep(n)) == n,
    decreases n,
{
    if n < 10 {
        lemma_digit_roundtrip(n as int);
        assert(dec_val(Seq::<char>::empty()) == 0);
        assert(dec_rep(n).drop_last() =~= Seq::<char>::empty());
        assert(dec_rep(n).last() == digit_char(n as int));
    } else {
        lemma_dec_val_of_rep(n / 10);
        lemma_digit_roundtrip((n % 10) as int);
        assert(dec_rep(n).drop_last() =~= dec_rep(n / 10));
        assert(dec_rep(n).last() == digit_char((n % 10) as int));
        assert(dec_val(dec_rep(n)) == (n / 10) * 10 + n % 10);
    }
}

/// The value of a digit run grows (weakly) with each digit appended.
pub proof fn lemma_dec_val_step(s: Seq<char>, i: int)
    requires
        0 <= i < s.len(),
    ensures
        dec_val(s.subrange(0, i + 1)) == dec_val(s.subrange(0, i)) * 10 + digit_val(s[i]),
{
    assert(s.subrange(0, i + 1).drop_last() =~= s.subrange(0, i));
    assert(s.subrange(0, i + 1).last() == s[i]);
}

/// True when every character of `s` is a digit.
pub open spec fn all_digits(s: Seq<char>) -> bool {
    forall|k: int| 0 <= k < s.len() ==> is_digit_char(#[trigger] s[k])
}

/// Once a prefix of a digit run exceeds a bound, the whole run does too.
pub proof fn lemma_dec_val_prefix_bound(s: Seq<char>, i: int, bound: int)
    requires
        0 <= i <= s.len(),
        bound >= 0,
        all_digits(s),
        dec_val(s.subrange(0, i)) > bound,
    ensures
        dec_val(s) > bound,
    decreases s.len() - i,
{
    if i == s.len() {
        assert(s.subrange(0, i) =~= s);
    } else {
        lemma_dec_val_step(s, i);
        assert(dec_val(s.subrange(0, i + 1)) > bound);
        lemma_dec_val_prefix_bound(s, i + 1, bound);
    }
}

/// The first position at or after `i` that does not hold a digit character.
pub open spec fn digits_end(s: Seq<char>, i: int) -> int
    decreases s.len() - i,
{
    if 0 <= i < s.len() && is_digit_char(s[i]) {
        digits_end(s, i + 1)
    } else {
        i
    }
}

/// What [`digits_end`] delivers: a digit run from `i` up to a boundary that
/// is the end of the text or a non-digit.
pub proof fn lemma_digits_end_props(s: Seq<char>, i: int)
    requires
        0 <= i <= s.len(),
    ensures
        i <= digits_end(s, i) <= s.len(),
        forall|k: int| i <= k < digits_end(s, i) ==> is_digit_char(#[trigger] s[k]),
        digits_end(s, i) == s.len() || !is_digit_char(s[digits_end(s, i)]),
    decreases s.len() - i,
{
    if i < s.len() && is_digit_char(s[i]) {
        lemma_digits_end_props(s, i + 1);
    }
}

/// A run of digits from `i` to `j` with a non-digit boundary at `j` is
/// exactly what [`digits_end`] finds.
pub proof fn lemma_digits_end_exact(s: Seq<char>, i: int, j: int)
    requires
        0 <= i <= j <= s.len(),
        forall|k: int| i <= k < j ==> is_digit_char(#[trigger] s[k]),
        j == s.len() || !is_digit_char(s[j]),
    ensures
        digits_end(s, i) == j,
    decreases j - i,
{
    if i < j {
        lemma_digits_end_exact(s, i + 1, j);
    }
}

/// The digit character for `d`, produced the way [`digit_char`] states it.
pub fn digit_to_char(d: u32) -> (c: char)
    requires
        d < 10,
    ensures
        c == digit_char(d as int),
{
    if d == 0 {
        '0'
    } else if d == 1 {
        '1'
    } else if d == 2 {
        '2'
    } else if d == 3 {
        '3'
    } else if d == 4 {
        '4'
    } else if d == 5 {
        '5'
    } else if d == 6 {
        '6'
    } else if d == 7 {
        '7'
    } else if d == 8 {
        '8'
    } else {
        '9'
    }
}

/// The value of `c` as a digit, or nothing when `c` is not one.
pub fn char_to_digit(c: char) -> (d: Option<u32>)
    ensures
        d is Some <==> is_digit_char(c),
        d matches Some(v) ==> v == digit_val(c),
{
    let v = c as u32;
    if 48 <= v && v <= 57 {
        Some(v - 48)
    } else {
        None
    }
}

/// Appends the decimal representation of `n` to `out`.
pub fn push_dec_u32(n: u32, out: &mut Vec<char>)
    ensures
        final(out)@ == old(out)@ + dec_rep(n as nat),
    decreases n,
{
    if n >= 10 {
        push_dec_u32(n / 10, out);
    }
    out.push(digit_to_char(n % 10));
    proof {
        assert(out@ =~= old(out)@ + dec_rep(n as nat));
    }
}


/// What a typed line means as a signed number: an optional sign, then one
/// or more digits and nothing else, within the type's range.
pub open spec fn parse_i32_spec(s: Seq<char>) -> Option<i32> {
    let digits = if s.len() > 0 && (s[0] == '+' || s[0] == '-') {
        s.drop_first()
    } else {
        s
    };
    let neg = s.len() > 0 && s[0] == '-';
    if digits.len() == 0 {
        None
    } else if !all_digits(digits) {
        None
    } else {
        let v = dec_val(digits);
        if neg {
            if -v >= i32::MIN {
                Some((-v) as i32)
            } else {
                None
            }
        } else {
            if v <= i32::MAX {
                Some(v as i32)
            } else {
                None
            }
        }
    }
}


} // verus!
