//! Decimal rendering of counters for logs and CSV rows.
use vstd::prelude::*;
use vstd::string::StringExecFns;

verus! {

/// The character of a decimal digit.
pub open spec fn spec_digit_char(d: nat) -> char {
    (48 + d) as char
}

/// The decimal digits of a number, without leading zeros.
pub open spec fn spec_decimal(n: nat) -> Seq<char>
    decreases n,
{
    if n < 10 {
        seq![spec_digit_char(n)]
    } else {
        spec_decimal(n / 10).push(spec_digit_char(n % 10))
    }
}

/// The number a run of decimal digit characters denotes, read left to right.
pub open spec fn spec_digits_value(digits: Seq<char>) -> int
    decreases digits.len(),
{
    if digits.len() == 0 {
        0
    } else {
        spec_digits_value(digits.drop_last()) * 10 + (digits.last() as int - 48)
    }
}

/// Decimal text reads back as the number it was made from: it is all digits '0'..'9',
/// it has no leading zero (only zero itself starts with '0'), and read as decimal it
/// denotes `n`.
pub proof fn lemma_decimal_reads_back(n: nat)
    ensures
        spec_decimal(n).len() > 0,
        forall|i: int| 0 <= i < spec_decimal(n).len() ==> '0' <= #[trigger] spec_decimal(n)[i] <= '9',
        spec_decimal(n)[0] == '0' ==> n == 0,
        spec_digits_value(spec_decimal(n)) == n,
    decreases n,
{
    if n >= 10 {
        lemma_decimal_reads_back(n / 10);
        let d = spec_decimal(n);
        assert(d.drop_last() =~= spec_decimal(n / 10));
        assert(d[0] == spec_decimal(n / 10)[0]);
        assert(d.last() == spec_digit_char(n % 10));
        assert(spec_digit_char(n % 10) as int == 48 + n % 10);
        assert(spec_digits_value(d) == (n / 10) * 10 + n % 10);
        assert((n / 10) * 10 + n % 10 == n);
        assert forall|i: int| 0 <= i < d.len() implies '0' <= #[trigger] d[i] <= '9' by {
            if i < d.len() - 1 {
                assert(d[i] == spec_decimal(n / 10)[i]);
            }
        }
    } else {
        let d = spec_decimal(n);
        assert(d.drop_last() =~= Seq::<char>::empty());
        assert(spec_digit_char(n) as int == 48 + n);
        assert(d.last() == spec_digit_char(n));
        assert(spec_digits_value(d.drop_last()) == 0);
        assert(spec_digits_value(d) == n);
    }
}

/// The text of one decimal digit.
fn digit_text(d: u8) -> (text: &'static str)
    requires
        d < 10,
    ensures
        text@ == seq![spec_digit_char(d as nat)],
{
    proof {
        reveal_strlit("0");
        reveal_strlit("1");
        reveal_strlit("2");
        reveal_strlit("3");
        reveal_strlit("4");
        reveal_strlit("5");
        reveal_strlit("6");
        reveal_strlit("7");
        reveal_strlit("8");
        reveal_strlit("9");
    }
    if d == 0 {
        "0"
    } else if d == 1 {
        "1"
    } else if d == 2 {
        "2"
    } else if d == 3 {
        "3"
    } else if d == 4 {
        "4"
    } else if d == 5 {
        "5"
    } else if d == 6 {
        "6"
    } else if d == 7 {
        "7"
    } else if d == 8 {
        "8"
    } else {
        "9"
    }
}

/// Append the decimal digits of `n`.
pub fn append_decimal(out: &mut String, n: u128)
    ensures
        final(out)@ == old(out)@ + spec_decimal(n as nat),
    decreases n,
{
    if n >= 10 {
        append_decimal(out, n / 10);
    }
    out.append(digit_text((n % 10) as u8));
    proof {
        if n >= 10 {
            assert(old(out)@ + spec_decimal(n as nat) =~= old(out)@ + spec_decimal((n / 10) as nat)
                + seq![spec_digit_char((n % 10) as nat)]);
        } else {
            assert(n % 10 == n);
        }
    }
}

/// The decimal digits of a byte.
pub open spec fn spec_decimal_u8(x: u8) -> Seq<char> {
    spec_decimal(x as nat)
}

/// The decimal digits of a 16-bit number.
pub open spec fn spec_decimal_u16(x: u16) -> Seq<char> {
    spec_decimal(x as nat)
}

/// Append the decimal digits of a byte.
pub fn append_u8(out: &mut String, x: u8)
    ensures
        final(out)@ == old(out)@ + spec_decimal_u8(x),
{
    append_decimal(out, x as u128);
}

/// Append the decimal digits of a 16-bit number.
pub fn append_u16(out: &mut String, x: u16)
    ensures
        final(out)@ == old(out)@ + spec_decimal_u16(x),
{
    append_decimal(out, x as u128);
}

} // verus!
