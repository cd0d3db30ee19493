use vstd::prelude::*;

verus! {

/// The character for one decimal digit value.
pub open spec fn digit_char(d: nat) -> char
    recommends
        d < 10,
{
    (('0' as u8) + (d as u8)) as char
}

/// The decimal digits of `n`, most significant first, without leading zeros
/// (`0` is rendered as `"0"`).
pub open spec fn spec_decimal_nat(n: nat) -> Seq<char>
    decreases n,
{
    if n < 10 {
        seq![digit_char(n)]
    } else {
        spec_decimal_nat(n / 10).push(digit_char(n % 10))
    }
}

/// The decimal rendering of a signed number: a leading `-` for negatives.
pub open spec fn spec_decimal_int(n: int) -> Seq<char> {
    if n < 0 {
        seq!['-'] + spec_decimal_nat((-n) as nat)
    } else {
        spec_decimal_nat(n as nat)
    }
}

/// Relies on `ToString::to_string` for `i64`, documented as the decimal
/// representation with a leading `-` for negative values.
#[verifier::external_body]
pub fn i64_to_string(n: i64) -> (r: String)
    ensures
        r@ == spec_decimal_int(n as int),
{
    n.to_string()
}

/// Relies on `ToString::to_string` for `usize`, documented as the decimal
/// representation.
#[verifier::external_body]
pub fn usize_to_string(n: usize) -> (r: String)
    ensures
        r@ == spec_decimal_nat(n as nat),
{
    n.to_string()
}

/// Whether every character of `s` is an ASCII decimal digit and there is at
/// least one.
pub open spec fn all_decimal_digits(s: Seq<char>) -> bool {
    s.len() > 0 && forall|i: int| 0 <= i < s.len() ==> '0' <= #[trigger] s[i] && s[i] <= '9'
}

/// The value of a sequence of decimal digits, most significant first.
pub open spec fn decimal_value(s: Seq<char>) -> int
    decreases s.len(),
{
    if s.len() == 0 {
        0
    } else {
        decimal_value(s.drop_last()) * 10 + (s.last() as int - '0' as int)
    }
}

/// The integer a string denotes: an optional `+` or `-` sign followed by one
/// or more decimal digits, with no other characters admitted.
pub open spec fn spec_parsed_int(s: Seq<char>) -> Option<int> {
    if s.len() > 0 && (s[0] == '+' || s[0] == '-') {
        if all_decimal_digits(s.skip(1)) {
            if s[0] == '-' {
                Some(-decimal_value(s.skip(1)))
            } else {
                Some(decimal_value(s.skip(1)))
            }
        } else {
            None
        }
    } else {
        if all_decimal_digits(s) {
            Some(decimal_value(s))
        } else {
            None
        }
    }
}

/// The value a string parses to as an `i32`: the integer it denotes, when it
/// denotes one and that value fits.
pub open spec fn spec_parsed_i32(s: Seq<char>) -> Option<int> {
    match spec_parsed_int(s) {
        Some(v) => if (i32::MIN as int) <= v <= (i32::MAX as int) {
            Some(v)
        } else {
            None
        },
        None => None,
    }
}

/// Relies on `str::parse::<i32>` (core's `FromStr` for `i32`): it accepts an
/// optional sign followed by one or more ASCII digits, when the value fits.
#[verifier::external_body]
pub fn parse_i32(s: &str) -> (r: Option<i32>)
    ensures
        match r {
            Some(n) => spec_parsed_i32(s@) == Some(n as int),
            None => spec_parsed_i32(s@) is None,
        },
{
    s.parse::<i32>().ok()
}

} // verus!
