use vstd::prelude::*;

use crate::formatter::TelemetryFormatter;

verus! {

/// The ASCII digit for `d < 10`.
pub open spec fn digit_char(d: nat) -> char {
    (48 + d) as char
}

/// The decimal digits of `n`, most significant first, without leading zeros
/// (`0` is the single digit `0`).
pub open spec fn digits(n: nat) -> Seq<char>
    decreases n,
{
    if n < 10 {
        seq![digit_char(n)]
    } else {
        digits(n / 10).push(digit_char(n % 10))
    }
}

/// The decimal representation that `Display` gives an integer: a `-` before negative numbers.
pub open spec fn int_repr(i: int) -> Seq<char> {
    if i < 0 {
        seq!['-'] + digits((-i) as nat)
    } else {
        digits(i as nat)
    }
}

/// The ASCII digit for `d < 10`.
fn digit(d: u8) -> (c: char)
    requires
        d < 10,
    ensures
        c == digit_char(d as nat),
{
    match d {
        0 => '0',
        1 => '1',
        2 => '2',
        3 => '3',
        4 => '4',
        5 => '5',
        6 => '6',
        7 => '7',
        8 => '8',
        _ => '9',
    }
}

/// Writes the decimal digits of `n`.
pub fn write_unsigned(f: &mut TelemetryFormatter, n: u128)
    ensures
        final(f)@ == old(f)@ + digits(n as nat),
    decreases n,
{
    if n >= 10 {
        write_unsigned(f, n / 10);
    }
    let d = digit((n % 10) as u8);
    f.write_char(d);
    proof {
        if n >= 10 {
            assert(digits(n as nat) == digits((n / 10) as nat).push(digit_char((n % 10) as nat)));
        } else {
            assert(n % 10 == n);
        }
    }
}

/// Writes the decimal representation of `n`, with a `-` if it is negative.
pub fn write_signed(f: &mut TelemetryFormatter, n: i128)
    ensures
        final(f)@ == old(f)@ + int_repr(n as int),
{
    if n < 0 {
        f.write_char('-');
        let magnitude: u128 = if n == i128::MIN {
            (i128::MAX as u128) + 1
        } else {
            (-n) as u128
        };
        write_unsigned(f, magnitude);
    } else {
        write_unsigned(f, n as u128);
    }
}

/// The number that a string of decimal digits denotes.
pub open spec fn decimal_value(s: Seq<char>) -> int
    decreases s.len(),
{
    if s.len() == 0 {
        0
    } else {
        decimal_value(s.drop_last()) * 10 + (s.last() as int - 48)
    }
}

/// Law: `digits(n)` is the decimal notation of `n`: at least one digit, all of
/// them `0`..`9`, no leading zero unless `n` is zero, and it denotes `n`.
pub proof fn law_digits_denote_the_number(n: nat)
    ensures
        digits(n).len() >= 1,
        forall|i: int| 0 <= i < digits(n).len() ==> '0' <= #[trigger] digits(n)[i] <= '9',
        digits(n)[0] != '0' || n == 0,
        decimal_value(digits(n)) == n,
    decreases n,
{
    if n >= 10 {
        law_digits_denote_the_number(n / 10);
        let d = digits(n);
        assert(d.drop_last() =~= digits(n / 10));
        assert(d[0] == digits(n / 10)[0]);
        assert(decimal_value(d) == decimal_value(digits(n / 10)) * 10 + (n % 10)) by {
            assert(d.last() == digit_char((n % 10) as nat));
        }
        assert((n / 10) * 10 + n % 10 == n) by (nonlinear_arith);
        assert forall|i: int| 0 <= i < d.len() implies '0' <= #[trigger] d[i] <= '9' by {
            if i < d.len() - 1 {
                assert(d[i] == digits(n / 10)[i]);
            }
        }
    } else {
        let d = digits(n);
        assert(d.drop_last() =~= Seq::<char>::empty());
        assert(decimal_value(d.drop_last()) == 0);
        assert(d.last() == digit_char(n));
    }
}

} // verus!
