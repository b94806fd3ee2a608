//! Human-readable forms of token amounts.

use crate::primitives::U256;
use crate::text::{decimal_text, push_char, repeat_char, u256_decimal};
use vstd::prelude::*;
use vstd::string::StringExecFns;

verus! {

/// `digits` cut into groups of three from the right, with an underscore
/// between neighbouring groups.
pub open spec fn grouped(digits: Seq<char>) -> Seq<char>
    decreases digits.len(),
{
    if digits.len() <= 3 {
        digits
    } else {
        grouped(digits.take(digits.len() - 3)).push('_') + digits.skip(digits.len() - 3)
    }
}

/// `digits` read as a count of the smallest unit, written in whole units
/// with 18 decimal places.
pub open spec fn with_18_decimals(digits: Seq<char>) -> Seq<char> {
    if digits.len() > 18 {
        digits.take(digits.len() - 18).push('.') + digits.skip(digits.len() - 18)
    } else {
        seq!['0', '.'] + Seq::new((18 - digits.len()) as nat, |i: int| '0') + digits
    }
}

/// Groups the characters of `input` in threes from the right, separated by
/// underscores: `"1234567"` becomes `"1_234_567"`.
pub fn format_integer_with_underscores(input: &str) -> (out: String)
    ensures
        out@ == grouped(input@),
{
    let n: usize = input.unicode_len();
    let mut out = String::new();
    let head: usize = if n % 3 == 0 {
        if n == 0 {
            0
        } else {
            3
        }
    } else {
        n % 3
    };
    let mut i: usize = 0;
    while i < head
        invariant
            i <= head <= n,
            n == input@.len(),
            out@ == input@.take(i as int),
        decreases head - i,
    {
        push_char(&mut out, input.get_char(i));
        assert(out@ =~= input@.take(i + 1));
        i += 1;
    }
    while i < n
        invariant
            i <= n,
            n == input@.len(),
            (n - i) % 3 == 0,
            i > 0 || n == 0,
            out@ == grouped(input@.take(i as int)),
        decreases n - i,
    {
        let ghost before = out@;
        push_char(&mut out, '_');
        push_char(&mut out, input.get_char(i));
        push_char(&mut out, input.get_char(i + 1));
        push_char(&mut out, input.get_char(i + 2));
        proof {
            let whole = input@.take(i + 3);
            assert(whole.take(whole.len() - 3) =~= input@.take(i as int));
            assert(out@ =~= before.push('_') + whole.skip(whole.len() - 3));
        }
        i += 3;
    }
    assert(input@.take(n as int) =~= input@);
    out
}

/// The decimal digits of `value`, grouped in threes by underscores.
pub fn wei_as_string(value: &U256) -> (out: String)
    ensures
        out@ == grouped(decimal_text(value.value())),
{
    let digits = u256_decimal(value);
    format_integer_with_underscores(digits.as_str())
}

/// Inserts the decimal point of an 18-decimal token into a string of
/// digits, padding with zeros on the left where the digits are too few.
pub fn place_decimal_point(digits: &str) -> (out: String)
    ensures
        out@ == with_18_decimals(digits@),
{
    let len: usize = digits.unicode_len();
    if len > 18 {
        let mut out = String::from_str(digits.substring_char(0, len - 18));
        push_char(&mut out, '.');
        out.append(digits.substring_char(len - 18, len));
        assert(out@ =~= with_18_decimals(digits@));
        out
    } else {
        let mut out = String::new();
        push_char(&mut out, '0');
        push_char(&mut out, '.');
        let zeros = repeat_char('0', 18 - len);
        out.append(zeros.as_str());
        out.append(digits);
        assert(out@ =~= with_18_decimals(digits@));
        out
    }
}

/// `wei` in whole units of an 18-decimal token: `1500000000000000000`
/// becomes `"1.500000000000000000"`.
pub fn format_wei_amount(wei: &U256) -> (out: String)
    ensures
        out@ == with_18_decimals(decimal_text(wei.value())),
{
    let digits = u256_decimal(wei);
    place_decimal_point(digits.as_str())
}

} // verus!
