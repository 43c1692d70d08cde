//! The value of a run of decimal digits.

use vstd::prelude::*;
use crate::chars::{digit, is_digit};

verus! {

/// What one decimal digit stands for.
pub open spec fn digit_value(c: char) -> nat
    recommends
        digit(c),
{
    (c as int - '0' as int) as nat
}

/// Whether `text` is made of decimal digits only.
pub open spec fn all_digits(text: Seq<char>) -> bool {
    forall|i: int| 0 <= i < text.len() ==> digit(#[trigger] text[i])
}

/// The number that the digits of `text` denote in base ten.
pub open spec fn decimal_value(text: Seq<char>) -> nat
    recommends
        all_digits(text),
    decreases text.len(),
{
    if text.len() == 0 {
        0
    } else {
        decimal_value(text.drop_last()) * 10 + digit_value(text.last())
    }
}

/// Reading more digits never makes the value smaller.
pub proof fn lemma_decimal_value_grows(text: Seq<char>, n: int)
    requires
        0 <= n <= text.len(),
    ensures
        decimal_value(text.take(n)) <= decimal_value(text),
    decreases text.len() - n,
{
    if n == text.len() {
        assert(text.take(n) =~= text);
    } else {
        lemma_decimal_value_grows(text, n + 1);
        assert(text.take(n + 1).drop_last() =~= text.take(n));
    }
}

/// The value of `text` as an integer: `Some` exactly when `text` is one or
/// more decimal digits whose value fits in an `i64`.
pub fn parse_integer(text: &str) -> (value: Option<i64>)
    ensures
        value is Some <==> text@.len() > 0 && all_digits(text@) && decimal_value(text@)
            <= i64::MAX,
        value is Some ==> value.unwrap() == decimal_value(text@),
{
    let mut acc: i64 = 0;
    let mut seen: bool = false;
    for c in it: text.chars()
        invariant
            it.seq() == text@,
            seen == (it.index() > 0),
            all_digits(text@.take(it.index() as int)),
            0 <= acc,
            acc == decimal_value(text@.take(it.index() as int)),
    {
        let ghost n: int = it.index() as int;
        proof {
            assert(text@.take(n + 1).drop_last() =~= text@.take(n));
        }
        if !is_digit(c) {
            return None;
        }
        let d: i64 = (c as u32 - '0' as u32) as i64;
        if acc > (i64::MAX - d) / 10 {
            proof {
                lemma_decimal_value_grows(text@, n + 1);
            }
            return None;
        }
        acc = acc * 10 + d;
        seen = true;
        assert(all_digits(text@.take(n + 1)));
    }
    proof {
        assert(text@.take(text@.len() as int) =~= text@);
    }
    if seen {
        Some(acc)
    } else {
        None
    }
}

} // verus!
