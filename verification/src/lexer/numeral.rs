//! Reading the value of a run of digits.
use super::grammar::{digit_value, numeral_value, CharClass};
use vstd::prelude::*;

verus! {

/// Whether every character of `s` is a digit of base `radix`.
pub open spec fn digits_of(s: Seq<char>, radix: nat) -> bool {
    forall|i: int|
        0 <= i < s.len() ==> CharClass::Hex.has(#[trigger] s[i]) && digit_value(s[i]) < radix
}

/// What `digits` is worth in base `radix`, if it is a numeral of that base
/// and fits in 64 bits.
pub open spec fn parsed(digits: Seq<char>, radix: nat) -> Option<u64> {
    if digits.len() > 0 && digits_of(digits, radix) && numeral_value(digits, radix) <= u64::MAX {
        Some(numeral_value(digits, radix) as u64)
    } else {
        None
    }
}

/// A numeral is worth at least as much as each of its prefixes.
pub proof fn lemma_prefix_value(s: Seq<char>, k: int, radix: nat)
    requires
        0 <= k <= s.len(),
        radix >= 1,
    ensures
        numeral_value(s.take(k), radix) <= numeral_value(s, radix),
    decreases s.len(),
{
    if k == s.len() {
        assert(s.take(k) =~= s);
    } else {
        let t = s.drop_last();
        assert(t.take(k) =~= s.take(k));
        lemma_prefix_value(t, k, radix);
        assert(numeral_value(t, radix) <= numeral_value(t, radix) * radix) by (nonlinear_arith)
            requires
                radix >= 1,
        ;
    }
}

/// The value of `c` as a digit, if it is a decimal digit or one of the
/// letters `a` to `f` in either case.
pub fn digit_of(c: char) -> (d: Option<u64>)
    ensures
        d == if CharClass::Hex.has(c) {
            Some(digit_value(c) as u64)
        } else {
            None
        },
{
    let v: u32 = c as u32;
    if '0' <= c && c <= '9' {
        Some((v - 48) as u64)
    } else if 'a' <= c && c <= 'f' {
        Some((v - 87) as u64)
    } else if 'A' <= c && c <= 'F' {
        Some((v - 55) as u64)
    } else {
        None
    }
}

/// Reads `digits` as a number in base `radix`. There is no number where
/// `digits` is empty, holds a character that is no digit of the base, or is
/// worth more than 64 bits hold.
pub fn parse_digits(digits: &str, radix: u64) -> (r: Option<u64>)
    requires
        2 <= radix <= 16,
    ensures
        r == parsed(digits@, radix as nat),
{
    let mut acc: u64 = 0;
    for c in it: digits.chars()
        invariant
            it.seq() == digits@,
            2 <= radix <= 16,
            acc == numeral_value(digits@.take(it.index() as int), radix as nat),
            digits_of(digits@.take(it.index() as int), radix as nat),
    {
        let ghost i = it.index() as int;
        proof {
            assert(digits@.take(i + 1).drop_last() =~= digits@.take(i));
            lemma_prefix_value(digits@, i + 1, radix as nat);
        }
        let d: u64 = match digit_of(c) {
            Some(d) => d,
            None => {
                return None;
            },
        };
        if d >= radix {
            return None;
        }
        let shifted: u64 = match acc.checked_mul(radix) {
            Some(x) => x,
            None => {
                return None;
            },
        };
        acc = match shifted.checked_add(d) {
            Some(x) => x,
            None => {
                return None;
            },
        };
        proof {
            assert forall|j: int| 0 <= j < i + 1 implies CharClass::Hex.has(
                #[trigger] digits@.take(i + 1)[j],
            ) && digit_value(digits@.take(i + 1)[j]) < radix by {
                if j < i {
                    assert(digits@.take(i + 1)[j] == digits@.take(i)[j]);
                }
            }
        }
    }
    proof {
        assert(digits@.take(digits@.len() as int) =~= digits@);
    }
    if digits.is_empty() {
        None
    } else {
        Some(acc)
    }
}

} // verus!
