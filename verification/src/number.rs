//! The value of a digit run, decimal rendering of a `u32`, and the executable
//! conversion of a digit run into a `u32` with exact overflow detection.

use vstd::prelude::*;
use crate::text::is_digit;

verus! {

/// Numeric value of one ASCII digit.
pub open spec fn digit_of(c: char) -> nat {
    (c as u32 - 48) as nat
}

/// Value of a digit sequence read as a decimal number.
pub open spec fn digits_val(s: Seq<char>) -> nat
    decreases s.len(),
{
    if s.len() == 0 {
        0
    } else {
        digits_val(s.drop_last()) * 10 + digit_of(s.last())
    }
}

/// The digit character for `d`.
pub open spec fn digit_char(d: nat) -> char {
    if d == 0 {
        '0'
    } else if d == 1 {
        '1'
    } else if d == 2 {
        '2'
    } else if d == 3 {
        '3'
    } else if d == 4 {
        '4'
    } else if d == 5 {
        '5'
    } else if d == 6 {
        '6'
    } else if d == 7 {
        '7'
    } else if d == 8 {
        '8'
    } else {
        '9'
    }
}

/// Decimal rendering of `v`, most significant digit first, no leading zeros
/// (a single `'0'` for zero).
pub open spec fn dec_digits(v: nat) -> Seq<char>
    decreases v,
{
    if v < 10 {
        seq![digit_char(v)]
    } else {
        dec_digits(v / 10).push(digit_char(v % 10))
    }
}

/// A rendering is non-empty and consists of digits only.
pub proof fn lemma_dec_digits_are_digits(v: nat)
    ensures
        dec_digits(v).len() >= 1,
        forall|k: int| 0 <= k < dec_digits(v).len() ==> is_digit(dec_digits(v)[k]),
    decreases v,
{
    if v < 10 {
        assert(is_digit(digit_char(v)));
    } else {
        lemma_dec_digits_are_digits(v / 10);
        assert(is_digit(digit_char(v % 10)));
        assert forall|k: int| 0 <= k < dec_digits(v).len() implies is_digit(dec_digits(v)[k]) by {
            if k < dec_digits(v / 10).len() {
                assert(dec_digits(v)[k] == dec_digits(v / 10)[k]);
            }
        }
    }
}

/// Reading a rendering back gives the rendered value.
pub proof fn lemma_digits_val_dec_digits(v: nat)
    ensures
        digits_val(dec_digits(v)) == v,
    decreases v,
{
    if v < 10 {
        assert(digit_of(digit_char(v)) == v);
        let s = dec_digits(v);
        assert(s == seq![digit_char(v)]);
        assert(s.len() == 1);
        assert(s.last() == digit_char(v));
        assert(s.drop_last() =~= Seq::<char>::empty());
        assert(digits_val(s.drop_last()) == 0);
        assert(digits_val(s) == digits_val(s.drop_last()) * 10 + digit_of(s.last()));
    } else {
        lemma_digits_val_dec_digits(v / 10);
        assert(digit_of(digit_char(v % 10)) == v % 10);
        let s = dec_digits(v);
        assert(s == dec_digits(v / 10).push(digit_char(v % 10)));
        assert(s.len() == dec_digits(v / 10).len() + 1);
        assert(s.drop_last() =~= dec_digits(v / 10));
        assert(s.last() == digit_char(v % 10));
        assert(digits_val(s) == digits_val(s.drop_last()) * 10 + digit_of(s.last()));
        assert(v / 10 * 10 + v % 10 == v);
    }
}

/// Extending a digit run never decreases its value.
pub proof fn lemma_digits_val_mono(s: Seq<char>, i: int, j: int)
    requires
        0 <= i <= j <= s.len(),
    ensures
        digits_val(s.take(i)) <= digits_val(s.take(j)),
    decreases j - i,
{
    if i < j {
        lemma_digits_val_mono(s, i, j - 1);
        assert(s.take(j).drop_last() =~= s.take(j - 1));
        assert(digits_val(s.take(j)) == digits_val(s.take(j - 1)) * 10 + digit_of(s.take(j).last()));
    }
}

/// Reads a run of digits as a `u32`; `None` exactly when the value does not
/// fit in 32 bits.
pub fn parse_u32_digits(s: &str) -> (r: Option<u32>)
    requires
        forall|k: int| 0 <= k < s@.len() ==> is_digit(s@[k]),
    ensures
        match r {
            Some(v) => digits_val(s@) == v,
            None => digits_val(s@) > u32::MAX,
        },
{
    let len = s.unicode_len();
    let mut acc: u64 = 0;
    let mut i: usize = 0;
    while i < len
        invariant
            len == s@.len(),
            0 <= i <= len,
            forall|k: int| 0 <= k < s@.len() ==> is_digit(s@[k]),
            acc == digits_val(s@.take(i as int)),
            acc <= u32::MAX,
        decreases len - i,
    {
        let c = s.get_char(i);
        let d = (c as u32) - 48;
        acc = acc * 10 + (d as u64);
        proof {
            assert(s@.take(i + 1).drop_last() =~= s@.take(i as int));
            assert(s@.take(i + 1).last() == s@[i as int]);
        }
        i = i + 1;
        if acc > u32::MAX as u64 {
            proof {
                lemma_digits_val_mono(s@, i as int, len as int);
                assert(s@.take(len as int) =~= s@);
            }
            return None;
        }
    }
    proof {
        assert(s@.take(len as int) =~= s@);
    }
    Some(acc as u32)
}

} // verus!
