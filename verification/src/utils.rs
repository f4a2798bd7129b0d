//! Small input helpers shared by the command layer.

use vstd::prelude::*;
use vstd::string::StrSliceExecFns;

use crate::num::dec_val;
use crate::num::is_digit_char;
use crate::num::parse_i32_spec;

verus! {

/// Collects the characters of a string slice.
pub(crate) fn str_to_chars(s: &str) -> (v: Vec<char>)
    ensures
        v@ == s@,
{
    let n = s.unicode_len();
    let mut v: Vec<char> = Vec::new();
    let mut i: usize = 0;
    while i < n
        invariant
            n == s@.len(),
            i <= n,
            v@ == s@.subrange(0, i as int),
        decreases n - i,
    {
        v.push(s.get_char(i));
        proof {
            assert(v@ =~= s@.subrange(0, i + 1 as int));
        }
        i += 1;
    }
    proof {
        assert(s@.subrange(0, n as int) =~= s@);
    }
    v
}

/// Relies on `String::from_iter` over `Vec`'s by-reference iterator: collecting
/// characters yields a string holding exactly those characters in order.
#[verifier::external_body]
pub(crate) fn chars_to_string(v: &Vec<char>) -> (s: String)
    ensures
        s@ == v@,
{
    v.iter().collect()
}

/// Reads a typed line as a signed number the way [`parse_i32_spec`] states
/// it: an optional sign, then digits and nothing else, within the type's
/// range; anything else is no number.
pub fn take_input_number(line: &str) -> (r: Option<i32>)
    ensures
        r == parse_i32_spec(line@),
{
    let chars = str_to_chars(line);
    let n = chars.len();
    let mut start: usize = 0;
    let mut neg = false;
    if n > 0 {
        let c0 = chars[0];
        if c0 == '+' {
            start = 1;
        } else if c0 == '-' {
            start = 1;
            neg = true;
        }
    }
    proof {
        if start == 1 {
            assert(line@.drop_first() =~= line@.subrange(1, n as int));
        } else {
            assert(line@ =~= line@.subrange(0, n as int));
        }
    }
    let ghost digits = line@.subrange(start as int, n as int);
    if start >= n {
        return None;
    }
    let mut j = start;
    let mut val: u64 = 0;
    while j < n
        invariant
            n == line@.len(),
            chars@ == line@,
            start <= j <= n,
            digits == line@.subrange(start as int, n as int),
            digits == (if line@.len() > 0 && (line@[0] == '+' || line@[0] == '-') {
                line@.drop_first()
            } else {
                line@
            }),
            neg == (line@.len() > 0 && line@[0] == '-'),
            forall|m: int| start <= m < j ==> is_digit_char(#[trigger] line@[m]),
            val == dec_val(line@.subrange(start as int, j as int)),
            val <= 0x8000_0000,
        decreases n - j,
    {
        let dopt = crate::num::char_to_digit(chars[j]);
        if dopt.is_none() {
            // Some later character is no digit, so no branch of the
            // grammar accepts the line.
            assert(!crate::num::all_digits(digits)) by {
                assert(!is_digit_char(digits[j - start]));
            }
            return None;
        }
        let d = dopt.unwrap();
        proof {
            crate::num::lemma_dec_val_step(line@.subrange(start as int, n as int), j - start);
            assert(line@.subrange(start as int, n as int).subrange(0, j - start) =~= line@.subrange(
                start as int,
                j as int,
            ));
            assert(line@.subrange(start as int, n as int).subrange(0, j - start + 1)
                =~= line@.subrange(start as int, j + 1 as int));
        }
        let next = val * 10 + (d as u64);
        if next > 0x8000_0000 {
            proof {
                if crate::num::all_digits(digits) {
                    crate::num::lemma_dec_val_prefix_bound(digits, j - start + 1, 0x8000_0000);
                }
            }
            return None;
        }
        val = next;
        j += 1;
    }
    proof {
        assert(digits =~= line@.subrange(start as int, j as int));
        assert(crate::num::all_digits(digits)) by {
            assert forall|m: int|
                0 <= m < digits.len() implies is_digit_char(#[trigger] digits[m]) by {
                assert(digits[m] == line@[start + m]);
            }
        }
    }
    if neg {
        Some((-(val as i64)) as i32)
    } else {
        if val > 0x7fff_ffff {
            return None;
        }
        Some(val as i32)
    }
}

} // verus!
