//! Validation of a port argument.
//!
//! A port argument is accepted exactly when it denotes a 16-bit port
//! number: an optional leading `+`, then one or more decimal digits,
//! with a value of at most 65535.

use vstd::prelude::*;
use vstd::string::StrSliceExecFns;

verus! {

/// Whether a character is a decimal digit.
pub open spec fn is_digit(c: char) -> bool {
    48 <= c as u32 <= 57
}

/// The numeric value of a sequence of decimal digits.
pub open spec fn decimal_value(digits: Seq<char>) -> int
    decreases digits.len(),
{
    if digits.len() == 0 {
        0
    } else {
        decimal_value(digits.drop_last()) * 10 + ((digits.last() as u32) - 48)
    }
}

/// The digit part of a port argument: the whole argument, or what
/// follows a single leading `+`.
pub open spec fn port_digits(s: Seq<char>) -> Seq<char> {
    if s.len() > 0 && s[0] == '+' {
        s.drop_first()
    } else {
        s
    }
}

/// Whether a string is a valid port argument.
pub open spec fn is_valid_port_arg(s: Seq<char>) -> bool {
    &&& port_digits(s).len() > 0
    &&& forall|i: int| 0 <= i < port_digits(s).len() ==> is_digit(#[trigger] port_digits(s)[i])
    &&& decimal_value(port_digits(s)) <= 65535
}

proof fn lemma_decimal_value_nonneg(digits: Seq<char>)
    requires
        forall|i: int| 0 <= i < digits.len() ==> is_digit(#[trigger] digits[i]),
    ensures
        decimal_value(digits) >= 0,
    decreases digits.len(),
{
    if digits.len() == 0 {
    } else {
        assert forall|i: int| 0 <= i < digits.drop_last().len() implies is_digit(
            #[trigger] digits.drop_last()[i],
        ) by {
            assert(digits.drop_last()[i] == digits[i]);
        }
        lemma_decimal_value_nonneg(digits.drop_last());
    }
}

proof fn lemma_decimal_value_prefix_le(digits: Seq<char>, k: int)
    requires
        0 <= k <= digits.len(),
        forall|i: int| 0 <= i < digits.len() ==> is_digit(#[trigger] digits[i]),
    ensures
        decimal_value(digits.take(k)) <= decimal_value(digits),
    decreases digits.len() - k,
{
    if k == digits.len() {
        assert(digits.take(k) =~= digits);
    } else {
        lemma_decimal_value_prefix_le(digits, k + 1);
        assert forall|i: int| 0 <= i < digits.take(k).len() implies is_digit(
            #[trigger] digits.take(k)[i],
        ) by {
            assert(digits.take(k)[i] == digits[i]);
        }
        lemma_decimal_value_nonneg(digits.take(k));
        assert(digits.take(k + 1).drop_last() =~= digits.take(k));
        assert(digits.take(k + 1).last() == digits[k]);
        assert(decimal_value(digits.take(k + 1)) >= decimal_value(digits.take(k)));
    }
}

/// Accepts a port argument exactly when it denotes a 16-bit port
/// number, returning the argument itself; rejects anything else.
pub fn validate_port_arg(port_arg: &str) -> (r: Option<String>)
    ensures
        r is Some <==> is_valid_port_arg(port_arg@),
        r matches Some(s) ==> s@ == port_arg@,
{
    let n = port_arg.unicode_len();
    let start: usize = if n > 0 && port_arg.get_char(0) == '+' {
        1
    } else {
        0
    };
    proof {
        assert(port_digits(port_arg@) =~= port_arg@.subrange(start as int, n as int));
    }
    if n == start {
        return None;
    }
    let ghost digits = port_digits(port_arg@);
    let mut value: u32 = 0;
    let mut i: usize = start;
    proof {
        assert(port_arg@.subrange(start as int, start as int) =~= Seq::<char>::empty());
    }
    while i < n
        invariant
            n == port_arg@.len(),
            start <= i <= n,
            digits == port_digits(port_arg@),
            digits == port_arg@.subrange(start as int, n as int),
            forall|j: int| start <= j < i ==> is_digit(#[trigger] port_arg@[j]),
            value <= 65535,
            value as int == decimal_value(port_arg@.subrange(start as int, i as int)),
        decreases n - i,
    {
        let c = port_arg.get_char(i);
        let u = c as u32;
        if u < 48 || u > 57 {
            proof {
                assert(digits[i - start] == port_arg@[i as int]);
                assert(!is_digit(port_digits(port_arg@)[i - start]));
                assert(!is_valid_port_arg(port_arg@));
            }
            return None;
        }
        value = value * 10 + (u - 48);
        proof {
            assert(port_arg@.subrange(start as int, i + 1).drop_last() =~= port_arg@.subrange(
                start as int,
                i as int,
            ));
            assert(port_arg@.subrange(start as int, i + 1).last() == port_arg@[i as int]);
        }
        if value > 65535 {
            proof {
                if forall|j: int| 0 <= j < digits.len() ==> is_digit(#[trigger] digits[j]) {
                    assert(digits.take(i + 1 - start) =~= port_arg@.subrange(
                        start as int,
                        i + 1,
                    ));
                    lemma_decimal_value_prefix_le(digits, i + 1 - start);
                }
            }
            return None;
        }
        i += 1;
    }
    proof {
        assert(port_arg@.subrange(start as int, n as int) == digits);
        assert forall|j: int| 0 <= j < digits.len() implies is_digit(#[trigger] digits[j]) by {
            assert(digits[j] == port_arg@[start + j]);
        }
    }
    Some(port_arg.to_owned())
}

} // verus!
