//! Decimal numerals: plain and fixed-width zero-padded, with the
//! injectivity facts that identifier uniqueness rests on.

use vstd::prelude::*;

use crate::parse::is_digit;
use crate::text::push_char;

verus! {

/// The character of one decimal digit.
pub open spec fn digit_char(d: int) -> char {
    if d == 0 {
        '0'
    } else if d == 1 {
        '1'
    } else if d == 2 {
        '2'
    } else if d == 3 {
        '3'
    } else if d == 4 {
        '4'
    } else if d == 5 {
        '5'
    } else if d == 6 {
        '6'
    } else if d == 7 {
        '7'
    } else if d == 8 {
        '8'
    } else {
        '9'
    }
}

/// The decimal numeral of `n`, most significant digit first, without
/// leading zeros.
pub open spec fn decimal(n: int) -> Seq<char>
    decreases n,
{
    if n < 10 {
        seq![digit_char(n)]
    } else {
        decimal(n / 10) + seq![digit_char(n % 10)]
    }
}

/// `n` printed into exactly two digits, low digits of `n` only.
pub open spec fn pad2(n: int) -> Seq<char> {
    seq![digit_char((n / 10) % 10), digit_char(n % 10)]
}

/// `n` printed into exactly four digits, low digits of `n` only.
pub open spec fn pad4(n: int) -> Seq<char> {
    seq![
        digit_char((n / 1000) % 10),
        digit_char((n / 100) % 10),
        digit_char((n / 10) % 10),
        digit_char(n % 10),
    ]
}

/// A numeral is never empty.
pub proof fn lemma_decimal_len(n: int)
    ensures
        decimal(n).len() >= 1,
    decreases n,
{
    if n >= 10 {
        lemma_decimal_len(n / 10);
    }
}

/// Every character of a numeral is a digit.
pub proof fn lemma_decimal_digits(n: int)
    requires
        n >= 0,
    ensures
        forall|k: int| 0 <= k < decimal(n).len() ==> is_digit(#[trigger] decimal(n)[k]),
    decreases n,
{
    if n < 10 {
        assert(is_digit(decimal(n)[0]));
    } else {
        lemma_decimal_digits(n / 10);
        assert forall|k: int| 0 <= k < decimal(n).len() implies is_digit(
            #[trigger] decimal(n)[k],
        ) by {
            if k < decimal(n / 10).len() {
                assert(decimal(n)[k] == decimal(n / 10)[k]);
            } else {
                assert(decimal(n)[k] == digit_char(n % 10));
            }
        }
    }
}

/// Different numbers have different numerals.
pub proof fn lemma_decimal_injective(a: int, b: int)
    requires
        a >= 0,
        b >= 0,
        decimal(a) == decimal(b),
    ensures
        a == b,
    decreases a,
{
    if a < 10 && b < 10 {
        assert(decimal(a)[0] == digit_char(a));
        assert(decimal(b)[0] == digit_char(b));
    } else if a < 10 {
        lemma_decimal_len(b / 10);
        assert(decimal(b).len() >= 2);
    } else if b < 10 {
        lemma_decimal_len(a / 10);
        assert(decimal(a).len() >= 2);
    } else {
        assert(decimal(a).last() == digit_char(a % 10));
        assert(decimal(b).last() == digit_char(b % 10));
        assert(a % 10 == b % 10);
        assert(decimal(a).drop_last() =~= decimal(a / 10));
        assert(decimal(b).drop_last() =~= decimal(b / 10));
        lemma_decimal_injective(a / 10, b / 10);
    }
}

/// One digit as a character.
fn digit_char_of(d: u64) -> (c: char)
    requires
        d < 10,
    ensures
        c == digit_char(d as int),
{
    match d {
        0 => '0',
        1 => '1',
        2 => '2',
        3 => '3',
        4 => '4',
        5 => '5',
        6 => '6',
        7 => '7',
        8 => '8',
        _ => '9',
    }
}

/// Append the decimal numeral of `n`.
pub fn push_decimal(out: &mut String, n: u64)
    ensures
        final (out)@ == old(out)@ + decimal(n as int),
    decreases n,
{
    if n < 10 {
        push_char(out, digit_char_of(n));
        proof {
            assert(out@ =~= old(out)@ + decimal(n as int));
        }
    } else {
        push_decimal(out, n / 10);
        push_char(out, digit_char_of(n % 10));
        proof {
            assert(out@ =~= old(out)@ + decimal(n as int));
        }
    }
}

/// Append `n` as exactly two digits.
pub fn push_pad2(out: &mut String, n: u8)
    ensures
        final (out)@ == old(out)@ + pad2(n as int),
{
    push_char(out, digit_char_of((n as u64 / 10) % 10));
    push_char(out, digit_char_of(n as u64 % 10));
    proof {
        assert(out@ =~= old(out)@ + pad2(n as int));
    }
}

/// Append `n` as exactly four digits.
pub fn push_pad4(out: &mut String, n: u16)
    ensures
        final (out)@ == old(out)@ + pad4(n as int),
{
    push_char(out, digit_char_of((n as u64 / 1000) % 10));
    push_char(out, digit_char_of((n as u64 / 100) % 10));
    push_char(out, digit_char_of((n as u64 / 10) % 10));
    push_char(out, digit_char_of(n as u64 % 10));
    proof {
        assert(out@ =~= old(out)@ + pad4(n as int));
    }
}

/// Two-digit padding is injective below one hundred.
pub proof fn lemma_pad2_injective(a: int, b: int)
    requires
        0 <= a < 100,
        0 <= b < 100,
        pad2(a) == pad2(b),
    ensures
        a == b,
{
    assert(pad2(a)[0] == digit_char((a / 10) % 10));
    assert(pad2(a)[1] == digit_char(a % 10));
    assert(pad2(b)[0] == digit_char((b / 10) % 10));
    assert(pad2(b)[1] == digit_char(b % 10));
    assert((a / 10) % 10 == a / 10);
    assert((b / 10) % 10 == b / 10);
}

/// Four-digit padding is injective below ten thousand.
pub proof fn lemma_pad4_injective(a: int, b: int)
    requires
        0 <= a < 10000,
        0 <= b < 10000,
        pad4(a) == pad4(b),
    ensures
        a == b,
{
    assert(pad4(a)[0] == digit_char((a / 1000) % 10));
    assert(pad4(a)[1] == digit_char((a / 100) % 10));
    assert(pad4(a)[2] == digit_char((a / 10) % 10));
    assert(pad4(a)[3] == digit_char(a % 10));
    assert(pad4(b)[0] == digit_char((b / 1000) % 10));
    assert(pad4(b)[1] == digit_char((b / 100) % 10));
    assert(pad4(b)[2] == digit_char((b / 10) % 10));
    assert(pad4(b)[3] == digit_char(b % 10));
    assert((a / 1000) % 10 == a / 1000);
    assert((b / 1000) % 10 == b / 1000);
    assert(a / 100 == 10 * (a / 1000) + (a / 100) % 10) by (nonlinear_arith)
        requires
            0 <= a < 10000,
    ;
    assert(b / 100 == 10 * (b / 1000) + (b / 100) % 10) by (nonlinear_arith)
        requires
            0 <= b < 10000,
    ;
    assert(a / 10 == 10 * (a / 100) + (a / 10) % 10) by (nonlinear_arith)
        requires
            0 <= a < 10000,
    ;
    assert(b / 10 == 10 * (b / 100) + (b / 10) % 10) by (nonlinear_arith)
        requires
            0 <= b < 10000,
    ;
}

} // verus!
