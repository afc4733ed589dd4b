//! Reading unsigned integers written in a given radix, as `str::parse` and
//! `from_str_radix` do for the unsigned integer types.
use vstd::prelude::*;

verus! {

/// The value of `c` as a digit (`0-9`, then `a-z` or `A-Z` for 10 to 35);
/// 36 for every other character.
pub open spec fn digit_value(c: char) -> nat {
    if '0' <= c && c <= '9' {
        (c as nat - '0' as nat) as nat
    } else if 'a' <= c && c <= 'z' {
        (c as nat - 'a' as nat + 10) as nat
    } else if 'A' <= c && c <= 'Z' {
        (c as nat - 'A' as nat + 10) as nat
    } else {
        36
    }
}

/// The number that the digits `ds` stand for in `radix`, or `None` when one of
/// them is not a digit of that radix.
pub open spec fn digits_value(ds: Seq<char>, radix: nat) -> Option<nat>
    decreases ds.len(),
{
    if ds.len() == 0 {
        Some(0)
    } else {
        match digits_value(ds.drop_last(), radix) {
            Some(v) => if digit_value(ds.last()) < radix {
                Some(v * radix + digit_value(ds.last()))
            } else {
                None
            },
            None => None,
        }
    }
}

/// An optional `+` followed by at least one digit of `radix`, whose value is at
/// most `max`: that value; anything else: `None`.
pub open spec fn parse_unsigned(s: Seq<char>, radix: nat, max: nat) -> Option<nat> {
    let ds = if s.len() > 0 && s[0] == '+' {
        s.drop_first()
    } else {
        s
    };
    if ds.len() == 0 {
        None
    } else {
        match digits_value(ds, radix) {
            Some(v) => if v <= max {
                Some(v)
            } else {
                None
            },
            None => None,
        }
    }
}

/// `s.parse::<u32>()`: per the documentation of `u32::from_str_radix`, an
/// optional `+` followed by decimal digits only, refused when the value does not
/// fit in a `u32`.
#[verifier::external_body]
pub(crate) fn parse_u32_decimal(s: &str) -> (r: Option<u32>)
    ensures
        match parse_unsigned(s@, 10, u32::MAX as nat) {
            Some(v) => r == Some(v as u32),
            None => r is None,
        },
{
    s.parse::<u32>().ok()
}

/// `u128::from_str_radix(s, 16)`: per its documentation, an optional `+`
/// followed by hexadecimal digits (either case) only, refused when the value
/// does not fit in a `u128`.
#[verifier::external_body]
pub(crate) fn parse_u128_hex(s: &str) -> (r: Option<u128>)
    ensures
        match parse_unsigned(s@, 16, u128::MAX as nat) {
            Some(v) => r == Some(v as u128),
            None => r is None,
        },
{
    u128::from_str_radix(s, 16).ok()
}

} // verus!
