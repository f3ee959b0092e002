//! Primitive matchers: character classes, maximal runs, and the literal-token
//! matcher.  Everything else in the grammar composes these.

use vstd::prelude::*;
use vstd::string::*;

verus! {

/// Whitespace accepted between fields: space, tab, line feed, carriage return.
pub open spec fn is_ws(c: char) -> bool {
    c == ' ' || c == '\t' || c == '\n' || c == '\r'
}

/// An ASCII decimal digit.
pub open spec fn is_digit(c: char) -> bool {
    48 <= c as u32 <= 57
}

/// A character allowed in an image base name: ASCII letters, digits, hyphen.
pub open spec fn is_name_char(c: char) -> bool {
    ||| c == '-'
    ||| 48 <= c as u32 <= 57
    ||| 65 <= c as u32 <= 90
    ||| 97 <= c as u32 <= 122
}

pub fn char_is_ws(c: char) -> (b: bool)
    ensures
        b == is_ws(c),
{
    c == ' ' || c == '\t' || c == '\n' || c == '\r'
}

pub fn char_is_digit(c: char) -> (b: bool)
    ensures
        b == is_digit(c),
{
    let u = c as u32;
    48 <= u && u <= 57
}

pub fn char_is_name(c: char) -> (b: bool)
    ensures
        b == is_name_char(c),
{
    let u = c as u32;
    c == '-' || (48 <= u && u <= 57) || (65 <= u && u <= 90) || (97 <= u && u <= 122)
}

/// Length of the maximal whitespace prefix of `s`.
pub open spec fn ws_run(s: Seq<char>) -> nat
    decreases s.len(),
{
    if s.len() == 0 || !is_ws(s[0]) {
        0
    } else {
        1 + ws_run(s.skip(1))
    }
}

/// Length of the maximal digit prefix of `s`.
pub open spec fn digit_run(s: Seq<char>) -> nat
    decreases s.len(),
{
    if s.len() == 0 || !is_digit(s[0]) {
        0
    } else {
        1 + digit_run(s.skip(1))
    }
}

/// Length of the maximal name-character prefix of `s`.
pub open spec fn name_run(s: Seq<char>) -> nat
    decreases s.len(),
{
    if s.len() == 0 || !is_name_char(s[0]) {
        0
    } else {
        1 + name_run(s.skip(1))
    }
}

/// A maximal run is exactly the position of the first character out of the
/// class (or the whole sequence, when every character is in it).
pub proof fn lemma_ws_run_at(s: Seq<char>, i: int)
    requires
        0 <= i <= s.len(),
        forall|k: int| 0 <= k < i ==> is_ws(s[k]),
        i == s.len() || !is_ws(s[i]),
    ensures
        ws_run(s) == i,
    decreases i,
{
    if i > 0 {
        assert(is_ws(s[0]));
        assert forall|k: int| 0 <= k < i - 1 implies is_ws(s.skip(1)[k]) by {
            assert(s.skip(1)[k] == s[k + 1]);
        }
        if i < s.len() {
            assert(s.skip(1)[i - 1] == s[i]);
        }
        lemma_ws_run_at(s.skip(1), i - 1);
    }
}

pub proof fn lemma_digit_run_at(s: Seq<char>, i: int)
    requires
        0 <= i <= s.len(),
        forall|k: int| 0 <= k < i ==> is_digit(s[k]),
        i == s.len() || !is_digit(s[i]),
    ensures
        digit_run(s) == i,
    decreases i,
{
    if i > 0 {
        assert(is_digit(s[0]));
        assert forall|k: int| 0 <= k < i - 1 implies is_digit(s.skip(1)[k]) by {
            assert(s.skip(1)[k] == s[k + 1]);
        }
        if i < s.len() {
            assert(s.skip(1)[i - 1] == s[i]);
        }
        lemma_digit_run_at(s.skip(1), i - 1);
    }
}

pub proof fn lemma_name_run_at(s: Seq<char>, i: int)
    requires
        0 <= i <= s.len(),
        forall|k: int| 0 <= k < i ==> is_name_char(s[k]),
        i == s.len() || !is_name_char(s[i]),
    ensures
        name_run(s) == i,
    decreases i,
{
    if i > 0 {
        assert(is_name_char(s[0]));
        assert forall|k: int| 0 <= k < i - 1 implies is_name_char(s.skip(1)[k]) by {
            assert(s.skip(1)[k] == s[k + 1]);
        }
        if i < s.len() {
            assert(s.skip(1)[i - 1] == s[i]);
        }
        lemma_name_run_at(s.skip(1), i - 1);
    }
}

/// A run never reaches past the end of the sequence, every character inside
/// it is in the class, and the character just after it (if any) is not.
pub proof fn lemma_ws_run_props(s: Seq<char>)
    ensures
        ws_run(s) <= s.len(),
        forall|k: int| 0 <= k < ws_run(s) ==> is_ws(s[k]),
        ws_run(s) < s.len() ==> !is_ws(s[ws_run(s) as int]),
    decreases s.len(),
{
    if s.len() > 0 && is_ws(s[0]) {
        lemma_ws_run_props(s.skip(1));
        assert forall|k: int| 0 <= k < ws_run(s) implies is_ws(s[k]) by {
            if k > 0 {
                assert(s.skip(1)[k - 1] == s[k]);
            }
        }
        if ws_run(s) < s.len() {
            assert(s.skip(1)[ws_run(s) - 1] == s[ws_run(s) as int]);
        }
    }
}

pub proof fn lemma_digit_run_props(s: Seq<char>)
    ensures
        digit_run(s) <= s.len(),
        forall|k: int| 0 <= k < digit_run(s) ==> is_digit(s[k]),
        digit_run(s) < s.len() ==> !is_digit(s[digit_run(s) as int]),
    decreases s.len(),
{
    if s.len() > 0 && is_digit(s[0]) {
        lemma_digit_run_props(s.skip(1));
        assert forall|k: int| 0 <= k < digit_run(s) implies is_digit(s[k]) by {
            if k > 0 {
                assert(s.skip(1)[k - 1] == s[k]);
            }
        }
        if digit_run(s) < s.len() {
            assert(s.skip(1)[digit_run(s) - 1] == s[digit_run(s) as int]);
        }
    }
}

pub proof fn lemma_name_run_props(s: Seq<char>)
    ensures
        name_run(s) <= s.len(),
        forall|k: int| 0 <= k < name_run(s) ==> is_name_char(s[k]),
        name_run(s) < s.len() ==> !is_name_char(s[name_run(s) as int]),
    decreases s.len(),
{
    if s.len() > 0 && is_name_char(s[0]) {
        lemma_name_run_props(s.skip(1));
        assert forall|k: int| 0 <= k < name_run(s) implies is_name_char(s[k]) by {
            if k > 0 {
                assert(s.skip(1)[k - 1] == s[k]);
            }
        }
        if name_run(s) < s.len() {
            assert(s.skip(1)[name_run(s) - 1] == s[name_run(s) as int]);
        }
    }
}

/// `t` is a prefix of `s`.
pub open spec fn starts_with(s: Seq<char>, t: Seq<char>) -> bool {
    t.len() <= s.len() && s.subrange(0, t.len() as int) == t
}

/// Pasting `rest` after `t` yields a sequence that starts with `t` and whose
/// remainder past `t` is exactly `rest`.
pub proof fn lemma_starts_with_concat(t: Seq<char>, rest: Seq<char>)
    ensures
        starts_with(t + rest, t),
        (t + rest).skip(t.len() as int) == rest,
{
    assert((t + rest).subrange(0, t.len() as int) =~= t);
    assert((t + rest).skip(t.len() as int) =~= rest);
}

/// Skipping twice is skipping once by the sum.
pub proof fn lemma_skip_skip(s: Seq<char>, a: int, b: int)
    requires
        0 <= a <= s.len(),
        0 <= b <= s.len() - a,
    ensures
        s.skip(a).skip(b) == s.skip(a + b),
{
    assert(s.skip(a).skip(b) =~= s.skip(a + b));
}

/// Consumes the maximal whitespace prefix; always succeeds, possibly
/// consuming nothing.
pub fn skip_whitespace<'a>(input: &'a str) -> (rest: &'a str)
    ensures
        rest@ == input@.skip(ws_run(input@) as int),
        ws_run(input@) <= input@.len(),
{
    let len = input.unicode_len();
    let mut i: usize = 0;
    while i < len && char_is_ws(input.get_char(i))
        invariant
            len == input@.len(),
            0 <= i <= len,
            forall|k: int| 0 <= k < i ==> is_ws(input@[k]),
        decreases len - i,
    {
        i = i + 1;
    }
    proof {
        lemma_ws_run_at(input@, i as int);
    }
    input.substring_char(i, len)
}

/// Consumes the maximal digit prefix (possibly empty), returning the run and
/// the remainder.
pub fn take_digits<'a>(input: &'a str) -> (r: (&'a str, &'a str))
    ensures
        r.0@ == input@.take(digit_run(input@) as int),
        r.1@ == input@.skip(digit_run(input@) as int),
{
    let len = input.unicode_len();
    let mut i: usize = 0;
    while i < len && char_is_digit(input.get_char(i))
        invariant
            len == input@.len(),
            0 <= i <= len,
            forall|k: int| 0 <= k < i ==> is_digit(input@[k]),
        decreases len - i,
    {
        i = i + 1;
    }
    proof {
        lemma_digit_run_at(input@, i as int);
    }
    (input.substring_char(0, i), input.substring_char(i, len))
}

/// Consumes the maximal run of letters, digits and hyphens (possibly empty),
/// returning the run and the remainder.  Callers that need the run non-empty
/// check its length themselves.
pub fn take_alnum_hyphen<'a>(input: &'a str) -> (r: (&'a str, &'a str))
    ensures
        r.0@ == input@.take(name_run(input@) as int),
        r.1@ == input@.skip(name_run(input@) as int),
{
    let len = input.unicode_len();
    let mut i: usize = 0;
    while i < len && char_is_name(input.get_char(i))
        invariant
            len == input@.len(),
            0 <= i <= len,
            forall|k: int| 0 <= k < i ==> is_name_char(input@[k]),
        decreases len - i,
    {
        i = i + 1;
    }
    proof {
        lemma_name_run_at(input@, i as int);
    }
    (input.substring_char(0, i), input.substring_char(i, len))
}

/// Succeeds iff `input` begins with `tok`, consuming exactly `tok`; consumes
/// nothing on failure.
pub fn match_literal<'a>(input: &'a str, tok: &str) -> (r: Option<&'a str>)
    ensures
        match r {
            Some(rest) => starts_with(input@, tok@) && rest@ == input@.skip(tok@.len() as int),
            None => !starts_with(input@, tok@),
        },
{
    let n = tok.unicode_len();
    let len = input.unicode_len();
    if n > len {
        return None;
    }
    let mut i: usize = 0;
    while i < n
        invariant
            n == tok@.len(),
            len == input@.len(),
            n <= len,
            0 <= i <= n,
            forall|k: int| 0 <= k < i ==> input@[k] == tok@[k],
        decreases n - i,
    {
        if input.get_char(i) != tok.get_char(i) {
            proof {
                assert(input@.subrange(0, n as int)[i as int] == input@[i as int]);
            }
            return None;
        }
        i = i + 1;
    }
    proof {
        assert(input@.subrange(0, n as int) =~= tok@);
    }
    Some(input.substring_char(n, len))
}

} // verus!
