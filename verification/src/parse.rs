//! Parsing of decimal vocabulary ids.
//!
//! The persisted id-to-token table keys its entries by the decimal rendering
//! of a numeric vocabulary id; the loader turns each key back into the id.

use vstd::prelude::*;

verus! {

/// Whether a character is a decimal digit.
pub open spec fn is_digit(c: char) -> bool {
    48 <= c as u32 && c as u32 <= 57
}

/// The numeric value of a decimal digit.
pub open spec fn digit_val(c: char) -> int {
    c as u32 - 48
}

/// Whether every character of a sequence is a decimal digit.
pub open spec fn all_digits(s: Seq<char>) -> bool {
    forall|i: int| 0 <= i < s.len() ==> is_digit(#[trigger] s[i])
}

/// A non-empty, all-digit sequence: the decimal rendering of a number
/// (possibly with leading zeros).
pub open spec fn is_decimal(s: Seq<char>) -> bool {
    s.len() > 0 && all_digits(s)
}

/// The number a digit sequence denotes.
pub open spec fn decimal_val(s: Seq<char>) -> int
    decreases s.len(),
{
    if s.len() == 0 {
        0
    } else {
        decimal_val(s.drop_last()) * 10 + digit_val(s.last())
    }
}

/// The value of an all-digit sequence is non-negative.
proof fn lemma_decimal_val_nonneg(s: Seq<char>)
    requires
        all_digits(s),
    ensures
        decimal_val(s) >= 0,
    decreases s.len(),
{
    if s.len() > 0 {
        assert(all_digits(s.drop_last())) by {
            assert(forall|i: int| 0 <= i < s.len() - 1 ==> is_digit(#[trigger] s[i]));
        }
        lemma_decimal_val_nonneg(s.drop_last());
    }
}

/// Extending an all-digit sequence never decreases its value.
proof fn lemma_decimal_val_prefix(s: Seq<char>, i: int)
    requires
        all_digits(s),
        0 <= i <= s.len(),
    ensures
        decimal_val(s.take(i)) <= decimal_val(s),
    decreases s.len() - i,
{
    if i == s.len() {
        assert(s.take(i) =~= s);
    } else {
        assert(s.take(i + 1).drop_last() =~= s.take(i));
        assert(s.take(i + 1).last() == s[i]);
        assert(all_digits(s.take(i))) by {
            assert(forall|j: int| 0 <= j < i ==> is_digit(#[trigger] s[j]));
        }
        lemma_decimal_val_nonneg(s.take(i));
        assert(decimal_val(s.take(i)) <= decimal_val(s.take(i + 1)));
        lemma_decimal_val_prefix(s, i + 1);
    }
}

/// Parse a decimal rendering into the number it denotes, refusing anything
/// that is empty, holds a non-digit, or exceeds the 64-bit range.
pub fn parse_u64(s: &str) -> (r: Option<u64>)
    ensures
        match r {
            Option::Some(v) => is_decimal(s@) && v as int == decimal_val(s@),
            Option::None => !is_decimal(s@) || decimal_val(s@) > u64::MAX,
        },
{
    let n: usize = s.unicode_len();
    if n == 0 {
        return Option::None;
    }
    let mut acc: u64 = 0;
    let mut i: usize = 0;
    while i < n
        invariant
            0 <= i <= n,
            n == s@.len(),
            all_digits(s@.take(i as int)),
            acc as int == decimal_val(s@.take(i as int)),
        decreases n - i,
    {
        let c: char = s.get_char(i);
        let cv: u32 = c as u32;
        proof {
            assert(s@.take(i + 1).drop_last() =~= s@.take(i as int));
            assert(s@.take(i + 1).last() == s@[i as int]);
        }
        if cv < 48 || cv > 57 {
            return Option::None;
        }
        let d: u64 = (cv - 48) as u64;
        if acc > u64::MAX / 10 || (acc == u64::MAX / 10 && d > u64::MAX % 10) {
            proof {
                assert(decimal_val(s@.take(i + 1)) > u64::MAX);
                if all_digits(s@) {
                    lemma_decimal_val_prefix(s@, i + 1);
                }
            }
            return Option::None;
        }
        acc = acc * 10 + d;
        i = i + 1;
    }
    proof {
        assert(s@.take(n as int) =~= s@);
    }
    Option::Some(acc)
}

} // verus!
