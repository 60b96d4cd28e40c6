//! The calls into `nom`, `unicode-ident` and std's number parsing that the library makes,
//! each behind a function whose contract restates what the called function does.
use vstd::prelude::*;
use crate::digits::{all_radix_digits, digit_run, digits_value, radix_parse, signed_parse};

verus! {

/// `nom::character::complete::u8` on a `&str`: reads the longest run of ASCII decimal
/// digits at the start of `input`; it fails when that run is empty or its value does not
/// fit in `u8`, and otherwise gives the rest of the input and the value.
#[verifier::external_body]
pub(crate) fn nom_u8(input: &str) -> (r: Option<(&str, u8)>)
    ensures
        match radix_parse(input@, 10, u8::MAX as nat) {
            Some((k, v)) => r matches Some((rest, x)) && x == v && rest@ == input@.skip(k as int),
            None => r is None,
        },
{
    match nom::character::complete::u8::<&str, nom::error::Error<&str>>(input) {
        Ok((rest, v)) => Some((rest, v)),
        Err(_) => None,
    }
}

/// `nom::character::complete::u16` on a `&str`: reads the longest run of ASCII decimal
/// digits at the start of `input`; it fails when that run is empty or its value does not
/// fit in `u16`, and otherwise gives the rest of the input and the value.
#[verifier::external_body]
pub(crate) fn nom_u16(input: &str) -> (r: Option<(&str, u16)>)
    ensures
        match radix_parse(input@, 10, u16::MAX as nat) {
            Some((k, v)) => r matches Some((rest, x)) && x == v && rest@ == input@.skip(k as int),
            None => r is None,
        },
{
    match nom::character::complete::u16::<&str, nom::error::Error<&str>>(input) {
        Ok((rest, v)) => Some((rest, v)),
        Err(_) => None,
    }
}

/// `nom::character::complete::u32` on a `&str`: reads the longest run of ASCII decimal
/// digits at the start of `input`; it fails when that run is empty or its value does not
/// fit in `u32`, and otherwise gives the rest of the input and the value.
#[verifier::external_body]
pub(crate) fn nom_u32(input: &str) -> (r: Option<(&str, u32)>)
    ensures
        match radix_parse(input@, 10, u32::MAX as nat) {
            Some((k, v)) => r matches Some((rest, x)) && x == v && rest@ == input@.skip(k as int),
            None => r is None,
        },
{
    match nom::character::complete::u32::<&str, nom::error::Error<&str>>(input) {
        Ok((rest, v)) => Some((rest, v)),
        Err(_) => None,
    }
}

/// `nom::character::complete::u64` on a `&str`: reads the longest run of ASCII decimal
/// digits at the start of `input`; it fails when that run is empty or its value does not
/// fit in `u64`, and otherwise gives the rest of the input and the value.
#[verifier::external_body]
pub(crate) fn nom_u64(input: &str) -> (r: Option<(&str, u64)>)
    ensures
        match radix_parse(input@, 10, u64::MAX as nat) {
            Some((k, v)) => r matches Some((rest, x)) && x == v && rest@ == input@.skip(k as int),
            None => r is None,
        },
{
    match nom::character::complete::u64::<&str, nom::error::Error<&str>>(input) {
        Ok((rest, v)) => Some((rest, v)),
        Err(_) => None,
    }
}

/// `nom::character::complete::u128` on a `&str`: reads the longest run of ASCII decimal
/// digits at the start of `input`; it fails when that run is empty or its value does not
/// fit in `u128`, and otherwise gives the rest of the input and the value.
#[verifier::external_body]
pub(crate) fn nom_u128(input: &str) -> (r: Option<(&str, u128)>)
    ensures
        match radix_parse(input@, 10, u128::MAX as nat) {
            Some((k, v)) => r matches Some((rest, x)) && x == v && rest@ == input@.skip(k as int),
            None => r is None,
        },
{
    match nom::character::complete::u128::<&str, nom::error::Error<&str>>(input) {
        Ok((rest, v)) => Some((rest, v)),
        Err(_) => None,
    }
}

/// `nom::character::complete::usize` on a `&str`: reads the longest run of ASCII decimal
/// digits at the start of `input`; it fails when that run is empty or its value does not
/// fit in `usize`, and otherwise gives the rest of the input and the value.
#[verifier::external_body]
pub(crate) fn nom_usize(input: &str) -> (r: Option<(&str, usize)>)
    ensures
        match radix_parse(input@, 10, usize::MAX as nat) {
            Some((k, v)) => r matches Some((rest, x)) && x == v && rest@ == input@.skip(k as int),
            None => r is None,
        },
{
    match nom::character::complete::usize::<&str, nom::error::Error<&str>>(input) {
        Ok((rest, v)) => Some((rest, v)),
        Err(_) => None,
    }
}

/// `nom::character::complete::i8` on a `&str`: reads an optional `-` or `+`, then the
/// longest run of ASCII decimal digits, which must not be empty; it fails when the signed
/// value does not fit in `i8`, and otherwise gives the rest of the input and the value.
#[verifier::external_body]
pub(crate) fn nom_i8(input: &str) -> (r: Option<(&str, i8)>)
    ensures
        match signed_parse(input@, i8::MIN as int, i8::MAX as int) {
            Some((k, v)) => r matches Some((rest, x)) && x == v && rest@ == input@.skip(k as int),
            None => r is None,
        },
{
    match nom::character::complete::i8::<&str, nom::error::Error<&str>>(input) {
        Ok((rest, v)) => Some((rest, v)),
        Err(_) => None,
    }
}

/// `nom::character::complete::i16` on a `&str`: reads an optional `-` or `+`, then the
/// longest run of ASCII decimal digits, which must not be empty; it fails when the signed
/// value does not fit in `i16`, and otherwise gives the rest of the input and the value.
#[verifier::external_body]
pub(crate) fn nom_i16(input: &str) -> (r: Option<(&str, i16)>)
    ensures
        match signed_parse(input@, i16::MIN as int, i16::MAX as int) {
            Some((k, v)) => r matches Some((rest, x)) && x == v && rest@ == input@.skip(k as int),
            None => r is None,
        },
{
    match nom::character::complete::i16::<&str, nom::error::Error<&str>>(input) {
        Ok((rest, v)) => Some((rest, v)),
        Err(_) => None,
    }
}

/// `nom::character::complete::i32` on a `&str`: reads an optional `-` or `+`, then the
/// longest run of ASCII decimal digits, which must not be empty; it fails when the signed
/// value does not fit in `i32`, and otherwise gives the rest of the input and the value.
#[verifier::external_body]
pub(crate) fn nom_i32(input: &str) -> (r: Option<(&str, i32)>)
    ensures
        match signed_parse(input@, i32::MIN as int, i32::MAX as int) {
            Some((k, v)) => r matches Some((rest, x)) && x == v && rest@ == input@.skip(k as int),
            None => r is None,
        },
{
    match nom::character::complete::i32::<&str, nom::error::Error<&str>>(input) {
        Ok((rest, v)) => Some((rest, v)),
        Err(_) => None,
    }
}

/// `nom::character::complete::i64` on a `&str`: reads an optional `-` or `+`, then the
/// longest run of ASCII decimal digits, which must not be empty; it fails when the signed
/// value does not fit in `i64`, and otherwise gives the rest of the input and the value.
#[verifier::external_body]
pub(crate) fn nom_i64(input: &str) -> (r: Option<(&str, i64)>)
    ensures
        match signed_parse(input@, i64::MIN as int, i64::MAX as int) {
            Some((k, v)) => r matches Some((rest, x)) && x == v && rest@ == input@.skip(k as int),
            None => r is None,
        },
{
    match nom::character::complete::i64::<&str, nom::error::Error<&str>>(input) {
        Ok((rest, v)) => Some((rest, v)),
        Err(_) => None,
    }
}

/// `nom::character::complete::i128` on a `&str`: reads an optional `-` or `+`, then the
/// longest run of ASCII decimal digits, which must not be empty; it fails when the signed
/// value does not fit in `i128`, and otherwise gives the rest of the input and the value.
#[verifier::external_body]
pub(crate) fn nom_i128(input: &str) -> (r: Option<(&str, i128)>)
    ensures
        match signed_parse(input@, i128::MIN as int, i128::MAX as int) {
            Some((k, v)) => r matches Some((rest, x)) && x == v && rest@ == input@.skip(k as int),
            None => r is None,
        },
{
    match nom::character::complete::i128::<&str, nom::error::Error<&str>>(input) {
        Ok((rest, v)) => Some((rest, v)),
        Err(_) => None,
    }
}

/// `nom::character::complete::oct_digit1` on a `&str`: splits off the longest run of octal digits `0-7`
/// at the start of `input`, and fails when that run is empty. The result is the rest, then the run.
#[verifier::external_body]
pub(crate) fn nom_oct_digit1(input: &str) -> (r: Option<(&str, &str)>)
    ensures
        if digit_run(input@, 8) > 0 {
            let k = digit_run(input@, 8) as int;
            r matches Some((rest, run)) && run@ == input@.take(k) && rest@ == input@.skip(k)
        } else {
            r is None
        },
{
    match nom::character::complete::oct_digit1::<&str, nom::error::Error<&str>>(input) {
        Ok((rest, run)) => Some((rest, run)),
        Err(_) => None,
    }
}

/// `nom::character::complete::hex_digit1` on a `&str`: splits off the longest run of hexadecimal digits `0-9`, `a-f`, `A-F`
/// at the start of `input`, and fails when that run is empty. The result is the rest, then the run.
#[verifier::external_body]
pub(crate) fn nom_hex_digit1(input: &str) -> (r: Option<(&str, &str)>)
    ensures
        if digit_run(input@, 16) > 0 {
            let k = digit_run(input@, 16) as int;
            r matches Some((rest, run)) && run@ == input@.take(k) && rest@ == input@.skip(k)
        } else {
            r is None
        },
{
    match nom::character::complete::hex_digit1::<&str, nom::error::Error<&str>>(input) {
        Ok((rest, run)) => Some((rest, run)),
        Err(_) => None,
    }
}

/// `nom::character::complete::bin_digit1` on a `&str`: splits off the longest run of binary digits `0-1`
/// at the start of `input`, and fails when that run is empty. The result is the rest, then the run.
#[verifier::external_body]
pub(crate) fn nom_bin_digit1(input: &str) -> (r: Option<(&str, &str)>)
    ensures
        if digit_run(input@, 2) > 0 {
            let k = digit_run(input@, 2) as int;
            r matches Some((rest, run)) && run@ == input@.take(k) && rest@ == input@.skip(k)
        } else {
            r is None
        },
{
    match nom::character::complete::bin_digit1::<&str, nom::error::Error<&str>>(input) {
        Ok((rest, run)) => Some((rest, run)),
        Err(_) => None,
    }
}

/// `u8::from_str_radix` (std): on a non-empty string of digits of the radix it succeeds
/// exactly when the value fits in `u8`, and gives that value. Nothing is stated here of
/// other strings (a leading `+`, say). It panics on a radix outside `2..=36`.
#[verifier::external_body]
pub(crate) fn u8_from_str_radix(s: &str, radix: u32) -> (r: Option<u8>)
    requires
        2 <= radix <= 36,
    ensures
        s@.len() > 0 && all_radix_digits(s@, radix as nat) ==> {
            &&& (r is Some <==> digits_value(s@, radix as nat) <= u8::MAX)
            &&& (r matches Some(v) ==> v == digits_value(s@, radix as nat))
        },
{
    match u8::from_str_radix(s, radix) {
        Ok(v) => Some(v),
        Err(_) => None,
    }
}

/// `u16::from_str_radix` (std): on a non-empty string of digits of the radix it succeeds
/// exactly when the value fits in `u16`, and gives that value. Nothing is stated here of
/// other strings (a leading `+`, say). It panics on a radix outside `2..=36`.
#[verifier::external_body]
pub(crate) fn u16_from_str_radix(s: &str, radix: u32) -> (r: Option<u16>)
    requires
        2 <= radix <= 36,
    ensures
        s@.len() > 0 && all_radix_digits(s@, radix as nat) ==> {
            &&& (r is Some <==> digits_value(s@, radix as nat) <= u16::MAX)
            &&& (r matches Some(v) ==> v == digits_value(s@, radix as nat))
        },
{
    match u16::from_str_radix(s, radix) {
        Ok(v) => Some(v),
        Err(_) => None,
    }
}

/// `u32::from_str_radix` (std): on a non-empty string of digits of the radix it succeeds
/// exactly when the value fits in `u32`, and gives that value. Nothing is stated here of
/// other strings (a leading `+`, say). It panics on a radix outside `2..=36`.
#[verifier::external_body]
pub(crate) fn u32_from_str_radix(s: &str, radix: u32) -> (r: Option<u32>)
    requires
        2 <= radix <= 36,
    ensures
        s@.len() > 0 && all_radix_digits(s@, radix as nat) ==> {
            &&& (r is Some <==> digits_value(s@, radix as nat) <= u32::MAX)
            &&& (r matches Some(v) ==> v == digits_value(s@, radix as nat))
        },
{
    match u32::from_str_radix(s, radix) {
        Ok(v) => Some(v),
        Err(_) => None,
    }
}

/// `u64::from_str_radix` (std): on a non-empty string of digits of the radix it succeeds
/// exactly when the value fits in `u64`, and gives that value. Nothing is stated here of
/// other strings (a leading `+`, say). It panics on a radix outside `2..=36`.
#[verifier::external_body]
pub(crate) fn u64_from_str_radix(s: &str, radix: u32) -> (r: Option<u64>)
    requires
        2 <= radix <= 36,
    ensures
        s@.len() > 0 && all_radix_digits(s@, radix as nat) ==> {
            &&& (r is Some <==> digits_value(s@, radix as nat) <= u64::MAX)
            &&& (r matches Some(v) ==> v == digits_value(s@, radix as nat))
        },
{
    match u64::from_str_radix(s, radix) {
        Ok(v) => Some(v),
        Err(_) => None,
    }
}

/// `u128::from_str_radix` (std): on a non-empty string of digits of the radix it succeeds
/// exactly when the value fits in `u128`, and gives that value. Nothing is stated here of
/// other strings (a leading `+`, say). It panics on a radix outside `2..=36`.
#[verifier::external_body]
pub(crate) fn u128_from_str_radix(s: &str, radix: u32) -> (r: Option<u128>)
    requires
        2 <= radix <= 36,
    ensures
        s@.len() > 0 && all_radix_digits(s@, radix as nat) ==> {
            &&& (r is Some <==> digits_value(s@, radix as nat) <= u128::MAX)
            &&& (r matches Some(v) ==> v == digits_value(s@, radix as nat))
        },
{
    match u128::from_str_radix(s, radix) {
        Ok(v) => Some(v),
        Err(_) => None,
    }
}

/// `nom::bytes::complete::tag(t)` on a `&str`: succeeds exactly when `input` starts with
/// `t`, and then gives the rest of the input after `t`.
#[verifier::external_body]
pub(crate) fn nom_tag(input: &str, t: String) -> (r: Option<&str>)
    ensures
        r is Some <==> (input@.len() >= t@.len() && input@.take(t@.len() as int) == t@),
        r matches Some(rest) ==> rest@ == input@.skip(t@.len() as int),
{
    match nom::bytes::complete::tag::<&str, &str, nom::error::Error<&str>>(t.as_str())(input) {
        Ok((rest, _)) => Some(rest),
        Err(_) => None,
    }
}

/// The chars that `nom`'s `multispace0` and `multispace1` skip.
pub open spec fn is_multispace(c: char) -> bool {
    c == ' ' || c == '\t' || c == '\r' || c == '\n'
}

/// The length of the longest run of `is_multispace` chars at the start of `s`.
pub open spec fn multispace_run(s: Seq<char>) -> nat
    decreases s.len(),
{
    if s.len() > 0 && is_multispace(s[0]) {
        1 + multispace_run(s.drop_first())
    } else {
        0
    }
}

/// `nom::character::complete::multispace1` on a `&str`: skips the longest run of spaces,
/// tabs, carriage returns and line feeds, and fails when that run is empty.
#[verifier::external_body]
pub(crate) fn nom_multispace1(input: &str) -> (r: Option<&str>)
    ensures
        if multispace_run(input@) > 0 {
            r matches Some(rest) && rest@ == input@.skip(multispace_run(input@) as int)
        } else {
            r is None
        },
{
    match nom::character::complete::multispace1::<&str, nom::error::Error<&str>>(input) {
        Ok((rest, _)) => Some(rest),
        Err(_) => None,
    }
}

/// Whether a char has the Unicode property XID_Start.
pub uninterp spec fn xid_start(c: char) -> bool;

/// Whether a char has the Unicode property XID_Continue.
pub uninterp spec fn xid_continue(c: char) -> bool;

/// `unicode_ident::is_xid_start`. Among ASCII chars exactly the letters have the property
/// (the crate's `ASCII_START` table).
#[verifier::external_body]
pub(crate) fn is_xid_start(c: char) -> (r: bool)
    ensures
        r == xid_start(c),
        (c as u32) < 128 ==> (r <==> (65 <= (c as u32) <= 90 || 97 <= (c as u32) <= 122)),
{
    unicode_ident::is_xid_start(c)
}

/// `unicode_ident::is_xid_continue`. Among ASCII chars exactly the letters, the digits and
/// `_` have the property (the crate's `ASCII_CONTINUE` table).
#[verifier::external_body]
pub(crate) fn is_xid_continue(c: char) -> (r: bool)
    ensures
        r == xid_continue(c),
        (c as u32) < 128 ==> (r <==> (65 <= (c as u32) <= 90 || 97 <= (c as u32) <= 122 || 48 <= (c as u32) <= 57 || c == '_')),
{
    unicode_ident::is_xid_continue(c)
}

} // verus!
