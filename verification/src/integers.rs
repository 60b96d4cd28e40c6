//! Reading integers in each of the renderings that the markers select.
use vstd::prelude::*;
use crate::digits::{digit_run, lemma_digit_run_bounds, radix_parse, signed_parse};
use crate::nom_calls;
use crate::{Binary, Display, ErrorKind, LowerHex, Octal, ParseError, Parseable, UpperHex};

verus! {

/// What the `u8` parsers read in the radix: the number of chars and the value.
pub open spec fn u8_reads(s: Seq<char>, radix: nat) -> Option<(nat, u8)> {
    match radix_parse(s, radix, u8::MAX as nat) {
        Some((n, v)) => Some((n, v as u8)),
        None => None,
    }
}

/// What the `u16` parsers read in the radix: the number of chars and the value.
pub open spec fn u16_reads(s: Seq<char>, radix: nat) -> Option<(nat, u16)> {
    match radix_parse(s, radix, u16::MAX as nat) {
        Some((n, v)) => Some((n, v as u16)),
        None => None,
    }
}

/// What the `u32` parsers read in the radix: the number of chars and the value.
pub open spec fn u32_reads(s: Seq<char>, radix: nat) -> Option<(nat, u32)> {
    match radix_parse(s, radix, u32::MAX as nat) {
        Some((n, v)) => Some((n, v as u32)),
        None => None,
    }
}

/// What the `u64` parsers read in the radix: the number of chars and the value.
pub open spec fn u64_reads(s: Seq<char>, radix: nat) -> Option<(nat, u64)> {
    match radix_parse(s, radix, u64::MAX as nat) {
        Some((n, v)) => Some((n, v as u64)),
        None => None,
    }
}

/// What the `u128` parsers read in the radix: the number of chars and the value.
pub open spec fn u128_reads(s: Seq<char>, radix: nat) -> Option<(nat, u128)> {
    match radix_parse(s, radix, u128::MAX as nat) {
        Some((n, v)) => Some((n, v as u128)),
        None => None,
    }
}

/// What the `i8` parser reads: the number of chars and the value.
pub open spec fn i8_reads(s: Seq<char>) -> Option<(nat, i8)> {
    match signed_parse(s, i8::MIN as int, i8::MAX as int) {
        Some((n, v)) => Some((n, v as i8)),
        None => None,
    }
}

/// What the `i16` parser reads: the number of chars and the value.
pub open spec fn i16_reads(s: Seq<char>) -> Option<(nat, i16)> {
    match signed_parse(s, i16::MIN as int, i16::MAX as int) {
        Some((n, v)) => Some((n, v as i16)),
        None => None,
    }
}

/// What the `i32` parser reads: the number of chars and the value.
pub open spec fn i32_reads(s: Seq<char>) -> Option<(nat, i32)> {
    match signed_parse(s, i32::MIN as int, i32::MAX as int) {
        Some((n, v)) => Some((n, v as i32)),
        None => None,
    }
}

/// What the `i64` parser reads: the number of chars and the value.
pub open spec fn i64_reads(s: Seq<char>) -> Option<(nat, i64)> {
    match signed_parse(s, i64::MIN as int, i64::MAX as int) {
        Some((n, v)) => Some((n, v as i64)),
        None => None,
    }
}

/// What the `i128` parser reads: the number of chars and the value.
pub open spec fn i128_reads(s: Seq<char>) -> Option<(nat, i128)> {
    match signed_parse(s, i128::MIN as int, i128::MAX as int) {
        Some((n, v)) => Some((n, v as i128)),
        None => None,
    }
}


/// The kind of error of `nom`'s digit splitter for the radix (`oct_digit1`, `hex_digit1`,
/// `bin_digit1`).
pub open spec fn radix_digit_kind(radix: nat) -> ErrorKind {
    if radix == 8 {
        ErrorKind::OctDigit
    } else if radix == 16 {
        ErrorKind::HexDigit
    } else {
        ErrorKind::BinDigit
    }
}

/// The error of the radix-2, -8 and -16 parsers where they read nothing: the digit
/// splitter's where no digit starts `s`, else `MapRes` (the value does not fit).
pub open spec fn radix_error_kind(s: Seq<char>, radix: nat) -> ErrorKind {
    if digit_run(s, radix) == 0 {
        radix_digit_kind(radix)
    } else {
        ErrorKind::MapRes
    }
}

fn digit_error_kind(radix: u32) -> (k: ErrorKind)
    ensures
        k == radix_digit_kind(radix as nat),
{
    if radix == 8 {
        ErrorKind::OctDigit
    } else if radix == 16 {
        ErrorKind::HexDigit
    } else {
        ErrorKind::BinDigit
    }
}

/// Reads an unsigned number in radix 2, 8 or 16 at the start of `input`: the longest
/// run of digits, which must not be empty, and whose value must fit in `u8`.
fn radix_u8(input: &str, radix: u32) -> (r: Result<(&str, u8), ParseError<'_>>)
    requires
        radix == 2 || radix == 8 || radix == 16,
    ensures
        match radix_parse(input@, radix as nat, u8::MAX as nat) {
            Some((n, v)) => r matches Ok((rest, w)) && w == v && rest@ == input@.skip(n as int),
            None => r matches Err(e) && e.input@ == input@ && e.kind == radix_error_kind(
                input@,
                radix as nat,
            ),
        },
{
    let split = if radix == 8 {
        nom_calls::nom_oct_digit1(input)
    } else if radix == 16 {
        nom_calls::nom_hex_digit1(input)
    } else {
        nom_calls::nom_bin_digit1(input)
    };
    match split {
        None => Err(ParseError { input, kind: digit_error_kind(radix) }),
        Some((rest, run)) => {
            proof {
                lemma_digit_run_bounds(input@, radix as nat);
            }
            match nom_calls::u8_from_str_radix(run, radix) {
                Some(v) => Ok((rest, v)),
                None => Err(ParseError { input, kind: ErrorKind::MapRes }),
            }
        },
    }
}

impl Parseable<Display> for u8 {
    /// Reads the longest run of radix-10 digits, which must not be empty and must fit.
    open spec fn states_reads() -> bool {
        true
    }

    open spec fn reads(s: Seq<char>) -> Option<(nat, u8)> {
        u8_reads(s, 10)
    }

    /// No digit, or a value that does not fit: a `Digit` error.
    open spec fn fails_with(s: Seq<char>) -> ErrorKind {
        ErrorKind::Digit
    }

    fn parse(input: &str) -> (r: Result<(&str, u8), ParseError<'_>>) {
        match nom_calls::nom_u8(input) {
            Some((rest, v)) => Ok((rest, v)),
            None => Err(ParseError { input, kind: ErrorKind::Digit }),
        }
    }
}

impl Parseable<Octal> for u8 {
    /// Reads the longest run of radix-8 digits, which must not be empty and must fit.
    open spec fn states_reads() -> bool {
        true
    }

    open spec fn reads(s: Seq<char>) -> Option<(nat, u8)> {
        u8_reads(s, 8)
    }

    /// No digit (an error of the digit kind), or a value that does not fit (`MapRes`).
    open spec fn fails_with(s: Seq<char>) -> ErrorKind {
        radix_error_kind(s, 8)
    }

    fn parse(input: &str) -> (r: Result<(&str, u8), ParseError<'_>>) {
        radix_u8(input, 8)
    }
}

impl Parseable<Binary> for u8 {
    /// Reads the longest run of radix-2 digits, which must not be empty and must fit.
    open spec fn states_reads() -> bool {
        true
    }

    open spec fn reads(s: Seq<char>) -> Option<(nat, u8)> {
        u8_reads(s, 2)
    }

    /// No digit (an error of the digit kind), or a value that does not fit (`MapRes`).
    open spec fn fails_with(s: Seq<char>) -> ErrorKind {
        radix_error_kind(s, 2)
    }

    fn parse(input: &str) -> (r: Result<(&str, u8), ParseError<'_>>) {
        radix_u8(input, 2)
    }
}

impl Parseable<LowerHex> for u8 {
    /// Reads the longest run of radix-16 digits, which must not be empty and must fit.
    open spec fn states_reads() -> bool {
        true
    }

    open spec fn reads(s: Seq<char>) -> Option<(nat, u8)> {
        u8_reads(s, 16)
    }

    /// No digit (an error of the digit kind), or a value that does not fit (`MapRes`).
    open spec fn fails_with(s: Seq<char>) -> ErrorKind {
        radix_error_kind(s, 16)
    }

    fn parse(input: &str) -> (r: Result<(&str, u8), ParseError<'_>>) {
        radix_u8(input, 16)
    }
}

impl Parseable<UpperHex> for u8 {
    /// Reads the longest run of radix-16 digits, which must not be empty and must fit.
    open spec fn states_reads() -> bool {
        true
    }

    open spec fn reads(s: Seq<char>) -> Option<(nat, u8)> {
        u8_reads(s, 16)
    }

    /// No digit (an error of the digit kind), or a value that does not fit (`MapRes`).
    open spec fn fails_with(s: Seq<char>) -> ErrorKind {
        radix_error_kind(s, 16)
    }

    fn parse(input: &str) -> (r: Result<(&str, u8), ParseError<'_>>) {
        radix_u8(input, 16)
    }
}

/// Reads an unsigned number in radix 2, 8 or 16 at the start of `input`: the longest
/// run of digits, which must not be empty, and whose value must fit in `u16`.
fn radix_u16(input: &str, radix: u32) -> (r: Result<(&str, u16), ParseError<'_>>)
    requires
        radix == 2 || radix == 8 || radix == 16,
    ensures
        match radix_parse(input@, radix as nat, u16::MAX as nat) {
            Some((n, v)) => r matches Ok((rest, w)) && w == v && rest@ == input@.skip(n as int),
            None => r matches Err(e) && e.input@ == input@ && e.kind == radix_error_kind(
                input@,
                radix as nat,
            ),
        },
{
    let split = if radix == 8 {
        nom_calls::nom_oct_digit1(input)
    } else if radix == 16 {
        nom_calls::nom_hex_digit1(input)
    } else {
        nom_calls::nom_bin_digit1(input)
    };
    match split {
        None => Err(ParseError { input, kind: digit_error_kind(radix) }),
        Some((rest, run)) => {
            proof {
                lemma_digit_run_bounds(input@, radix as nat);
            }
            match nom_calls::u16_from_str_radix(run, radix) {
                Some(v) => Ok((rest, v)),
                None => Err(ParseError { input, kind: ErrorKind::MapRes }),
            }
        },
    }
}

impl Parseable<Display> for u16 {
    /// Reads the longest run of radix-10 digits, which must not be empty and must fit.
    open spec fn states_reads() -> bool {
        true
    }

    open spec fn reads(s: Seq<char>) -> Option<(nat, u16)> {
        u16_reads(s, 10)
    }

    /// No digit, or a value that does not fit: a `Digit` error.
    open spec fn fails_with(s: Seq<char>) -> ErrorKind {
        ErrorKind::Digit
    }

    fn parse(input: &str) -> (r: Result<(&str, u16), ParseError<'_>>) {
        match nom_calls::nom_u16(input) {
            Some((rest, v)) => Ok((rest, v)),
            None => Err(ParseError { input, kind: ErrorKind::Digit }),
        }
    }
}

impl Parseable<Octal> for u16 {
    /// Reads the longest run of radix-8 digits, which must not be empty and must fit.
    open spec fn states_reads() -> bool {
        true
    }

    open spec fn reads(s: Seq<char>) -> Option<(nat, u16)> {
        u16_reads(s, 8)
    }

    /// No digit (an error of the digit kind), or a value that does not fit (`MapRes`).
    open spec fn fails_with(s: Seq<char>) -> ErrorKind {
        radix_error_kind(s, 8)
    }

    fn parse(input: &str) -> (r: Result<(&str, u16), ParseError<'_>>) {
        radix_u16(input, 8)
    }
}

impl Parseable<Binary> for u16 {
    /// Reads the longest run of radix-2 digits, which must not be empty and must fit.
    open spec fn states_reads() -> bool {
        true
    }

    open spec fn reads(s: Seq<char>) -> Option<(nat, u16)> {
        u16_reads(s, 2)
    }

    /// No digit (an error of the digit kind), or a value that does not fit (`MapRes`).
    open spec fn fails_with(s: Seq<char>) -> ErrorKind {
        radix_error_kind(s, 2)
    }

    fn parse(input: &str) -> (r: Result<(&str, u16), ParseError<'_>>) {
        radix_u16(input, 2)
    }
}

impl Parseable<LowerHex> for u16 {
    /// Reads the longest run of radix-16 digits, which must not be empty and must fit.
    open spec fn states_reads() -> bool {
        true
    }

    open spec fn reads(s: Seq<char>) -> Option<(nat, u16)> {
        u16_reads(s, 16)
    }

    /// No digit (an error of the digit kind), or a value that does not fit (`MapRes`).
    open spec fn fails_with(s: Seq<char>) -> ErrorKind {
        radix_error_kind(s, 16)
    }

    fn parse(input: &str) -> (r: Result<(&str, u16), ParseError<'_>>) {
        radix_u16(input, 16)
    }
}

impl Parseable<UpperHex> for u16 {
    /// Reads the longest run of radix-16 digits, which must not be empty and must fit.
    open spec fn states_reads() -> bool {
        true
    }

    open spec fn reads(s: Seq<char>) -> Option<(nat, u16)> {
        u16_reads(s, 16)
    }

    /// No digit (an error of the digit kind), or a value that does not fit (`MapRes`).
    open spec fn fails_with(s: Seq<char>) -> ErrorKind {
        radix_error_kind(s, 16)
    }

    fn parse(input: &str) -> (r: Result<(&str, u16), ParseError<'_>>) {
        radix_u16(input, 16)
    }
}

/// Reads an unsigned number in radix 2, 8 or 16 at the start of `input`: the longest
/// run of digits, which must not be empty, and whose value must fit in `u32`.
fn radix_u32(input: &str, radix: u32) -> (r: Result<(&str, u32), ParseError<'_>>)
    requires
        radix == 2 || radix == 8 || radix == 16,
    ensures
        match radix_parse(input@, radix as nat, u32::MAX as nat) {
            Some((n, v)) => r matches Ok((rest, w)) && w == v && rest@ == input@.skip(n as int),
            None => r matches Err(e) && e.input@ == input@ && e.kind == radix_error_kind(
                input@,
                radix as nat,
            ),
        },
{
    let split = if radix == 8 {
        nom_calls::nom_oct_digit1(input)
    } else if radix == 16 {
        nom_calls::nom_hex_digit1(input)
    } else {
        nom_calls::nom_bin_digit1(input)
    };
    match split {
        None => Err(ParseError { input, kind: digit_error_kind(radix) }),
        Some((rest, run)) => {
            proof {
                lemma_digit_run_bounds(input@, radix as nat);
            }
            match nom_calls::u32_from_str_radix(run, radix) {
                Some(v) => Ok((rest, v)),
                None => Err(ParseError { input, kind: ErrorKind::MapRes }),
            }
        },
    }
}

impl Parseable<Display> for u32 {
    /// Reads the longest run of radix-10 digits, which must not be empty and must fit.
    open spec fn states_reads() -> bool {
        true
    }

    open spec fn reads(s: Seq<char>) -> Option<(nat, u32)> {
        u32_reads(s, 10)
    }

    /// No digit, or a value that does not fit: a `Digit` error.
    open spec fn fails_with(s: Seq<char>) -> ErrorKind {
        ErrorKind::Digit
    }

    fn parse(input: &str) -> (r: Result<(&str, u32), ParseError<'_>>) {
        match nom_calls::nom_u32(input) {
            Some((rest, v)) => Ok((rest, v)),
            None => Err(ParseError { input, kind: ErrorKind::Digit }),
        }
    }
}

impl Parseable<Octal> for u32 {
    /// Reads the longest run of radix-8 digits, which must not be empty and must fit.
    open spec fn states_reads() -> bool {
        true
    }

    open spec fn reads(s: Seq<char>) -> Option<(nat, u32)> {
        u32_reads(s, 8)
    }

    /// No digit (an error of the digit kind), or a value that does not fit (`MapRes`).
    open spec fn fails_with(s: Seq<char>) -> ErrorKind {
        radix_error_kind(s, 8)
    }

    fn parse(input: &str) -> (r: Result<(&str, u32), ParseError<'_>>) {
        radix_u32(input, 8)
    }
}

impl Parseable<Binary> for u32 {
    /// Reads the longest run of radix-2 digits, which must not be empty and must fit.
    open spec fn states_reads() -> bool {
        true
    }

    open spec fn reads(s: Seq<char>) -> Option<(nat, u32)> {
        u32_reads(s, 2)
    }

    /// No digit (an error of the digit kind), or a value that does not fit (`MapRes`).
    open spec fn fails_with(s: Seq<char>) -> ErrorKind {
        radix_error_kind(s, 2)
    }

    fn parse(input: &str) -> (r: Result<(&str, u32), ParseError<'_>>) {
        radix_u32(input, 2)
    }
}

impl Parseable<LowerHex> for u32 {
    /// Reads the longest run of radix-16 digits, which must not be empty and must fit.
    open spec fn states_reads() -> bool {
        true
    }

    open spec fn reads(s: Seq<char>) -> Option<(nat, u32)> {
        u32_reads(s, 16)
    }

    /// No digit (an error of the digit kind), or a value that does not fit (`MapRes`).
    open spec fn fails_with(s: Seq<char>) -> ErrorKind {
        radix_error_kind(s, 16)
    }

    fn parse(input: &str) -> (r: Result<(&str, u32), ParseError<'_>>) {
        radix_u32(input, 16)
    }
}

impl Parseable<UpperHex> for u32 {
    /// Reads the longest run of radix-16 digits, which must not be empty and must fit.
    open spec fn states_reads() -> bool {
        true
    }

    open spec fn reads(s: Seq<char>) -> Option<(nat, u32)> {
        u32_reads(s, 16)
    }

    /// No digit (an error of the digit kind), or a value that does not fit (`MapRes`).
    open spec fn fails_with(s: Seq<char>) -> ErrorKind {
        radix_error_kind(s, 16)
    }

    fn parse(input: &str) -> (r: Result<(&str, u32), ParseError<'_>>) {
        radix_u32(input, 16)
    }
}

/// Reads an unsigned number in radix 2, 8 or 16 at the start of `input`: the longest
/// run of digits, which must not be empty, and whose value must fit in `u64`.
fn radix_u64(input: &str, radix: u32) -> (r: Result<(&str, u64), ParseError<'_>>)
    requires
        radix == 2 || radix == 8 || radix == 16,
    ensures
        match radix_parse(input@, radix as nat, u64::MAX as nat) {
            Some((n, v)) => r matches Ok((rest, w)) && w == v && rest@ == input@.skip(n as int),
            None => r matches Err(e) && e.input@ == input@ && e.kind == radix_error_kind(
                input@,
                radix as nat,
            ),
        },
{
    let split = if radix == 8 {
        nom_calls::nom_oct_digit1(input)
    } else if radix == 16 {
        nom_calls::nom_hex_digit1(input)
    } else {
        nom_calls::nom_bin_digit1(input)
    };
    match split {
        None => Err(ParseError { input, kind: digit_error_kind(radix) }),
        Some((rest, run)) => {
            proof {
                lemma_digit_run_bounds(input@, radix as nat);
            }
            match nom_calls::u64_from_str_radix(run, radix) {
                Some(v) => Ok((rest, v)),
                None => Err(ParseError { input, kind: ErrorKind::MapRes }),
            }
        },
    }
}

impl Parseable<Display> for u64 {
    /// Reads the longest run of radix-10 digits, which must not be empty and must fit.
    open spec fn states_reads() -> bool {
        true
    }

    open spec fn reads(s: Seq<char>) -> Option<(nat, u64)> {
        u64_reads(s, 10)
    }

    /// No digit, or a value that does not fit: a `Digit` error.
    open spec fn fails_with(s: Seq<char>) -> ErrorKind {
        ErrorKind::Digit
    }

    fn parse(input: &str) -> (r: Result<(&str, u64), ParseError<'_>>) {
        match nom_calls::nom_u64(input) {
            Some((rest, v)) => Ok((rest, v)),
            None => Err(ParseError { input, kind: ErrorKind::Digit }),
        }
    }
}

impl Parseable<Octal> for u64 {
    /// Reads the longest run of radix-8 digits, which must not be empty and must fit.
    open spec fn states_reads() -> bool {
        true
    }

    open spec fn reads(s: Seq<char>) -> Option<(nat, u64)> {
        u64_reads(s, 8)
    }

    /// No digit (an error of the digit kind), or a value that does not fit (`MapRes`).
    open spec fn fails_with(s: Seq<char>) -> ErrorKind {
        radix_error_kind(s, 8)
    }

    fn parse(input: &str) -> (r: Result<(&str, u64), ParseError<'_>>) {
        radix_u64(input, 8)
    }
}

impl Parseable<Binary> for u64 {
    /// Reads the longest run of radix-2 digits, which must not be empty and must fit.
    open spec fn states_reads() -> bool {
        true
    }

    open spec fn reads(s: Seq<char>) -> Option<(nat, u64)> {
        u64_reads(s, 2)
    }

    /// No digit (an error of the digit kind), or a value that does not fit (`MapRes`).
    open spec fn fails_with(s: Seq<char>) -> ErrorKind {
        radix_error_kind(s, 2)
    }

    fn parse(input: &str) -> (r: Result<(&str, u64), ParseError<'_>>) {
        radix_u64(input, 2)
    }
}

impl Parseable<LowerHex> for u64 {
    /// Reads the longest run of radix-16 digits, which must not be empty and must fit.
    open spec fn states_reads() -> bool {
        true
    }

    open spec fn reads(s: Seq<char>) -> Option<(nat, u64)> {
        u64_reads(s, 16)
    }

    /// No digit (an error of the digit kind), or a value that does not fit (`MapRes`).
    open spec fn fails_with(s: Seq<char>) -> ErrorKind {
        radix_error_kind(s, 16)
    }

    fn parse(input: &str) -> (r: Result<(&str, u64), ParseError<'_>>) {
        radix_u64(input, 16)
    }
}

impl Parseable<UpperHex> for u64 {
    /// Reads the longest run of radix-16 digits, which must not be empty and must fit.
    open spec fn states_reads() -> bool {
        true
    }

    open spec fn reads(s: Seq<char>) -> Option<(nat, u64)> {
        u64_reads(s, 16)
    }

    /// No digit (an error of the digit kind), or a value that does not fit (`MapRes`).
    open spec fn fails_with(s: Seq<char>) -> ErrorKind {
        radix_error_kind(s, 16)
    }

    fn parse(input: &str) -> (r: Result<(&str, u64), ParseError<'_>>) {
        radix_u64(input, 16)
    }
}

/// Reads an unsigned number in radix 2, 8 or 16 at the start of `input`: the longest
/// run of digits, which must not be empty, and whose value must fit in `u128`.
fn radix_u128(input: &str, radix: u32) -> (r: Result<(&str, u128), ParseError<'_>>)
    requires
        radix == 2 || radix == 8 || radix == 16,
    ensures
        match radix_parse(input@, radix as nat, u128::MAX as nat) {
            Some((n, v)) => r matches Ok((rest, w)) && w == v && rest@ == input@.skip(n as int),
            None => r matches Err(e) && e.input@ == input@ && e.kind == radix_error_kind(
                input@,
                radix as nat,
            ),
        },
{
    let split = if radix == 8 {
        nom_calls::nom_oct_digit1(input)
    } else if radix == 16 {
        nom_calls::nom_hex_digit1(input)
    } else {
        nom_calls::nom_bin_digit1(input)
    };
    match split {
        None => Err(ParseError { input, kind: digit_error_kind(radix) }),
        Some((rest, run)) => {
            proof {
                lemma_digit_run_bounds(input@, radix as nat);
            }
            match nom_calls::u128_from_str_radix(run, radix) {
                Some(v) => Ok((rest, v)),
                None => Err(ParseError { input, kind: ErrorKind::MapRes }),
            }
        },
    }
}

impl Parseable<Display> for u128 {
    /// Reads the longest run of radix-10 digits, which must not be empty and must fit.
    open spec fn states_reads() -> bool {
        true
    }

    open spec fn reads(s: Seq<char>) -> Option<(nat, u128)> {
        u128_reads(s, 10)
    }

    /// No digit, or a value that does not fit: a `Digit` error.
    open spec fn fails_with(s: Seq<char>) -> ErrorKind {
        ErrorKind::Digit
    }

    fn parse(input: &str) -> (r: Result<(&str, u128), ParseError<'_>>) {
        match nom_calls::nom_u128(input) {
            Some((rest, v)) => Ok((rest, v)),
            None => Err(ParseError { input, kind: ErrorKind::Digit }),
        }
    }
}

impl Parseable<Octal> for u128 {
    /// Reads the longest run of radix-8 digits, which must not be empty and must fit.
    open spec fn states_reads() -> bool {
        true
    }

    open spec fn reads(s: Seq<char>) -> Option<(nat, u128)> {
        u128_reads(s, 8)
    }

    /// No digit (an error of the digit kind), or a value that does not fit (`MapRes`).
    open spec fn fails_with(s: Seq<char>) -> ErrorKind {
        radix_error_kind(s, 8)
    }

    fn parse(input: &str) -> (r: Result<(&str, u128), ParseError<'_>>) {
        radix_u128(input, 8)
    }
}

impl Parseable<Binary> for u128 {
    /// Reads the longest run of radix-2 digits, which must not be empty and must fit.
    open spec fn states_reads() -> bool {
        true
    }

    open spec fn reads(s: Seq<char>) -> Option<(nat, u128)> {
        u128_reads(s, 2)
    }

    /// No digit (an error of the digit kind), or a value that does not fit (`MapRes`).
    open spec fn fails_with(s: Seq<char>) -> ErrorKind {
        radix_error_kind(s, 2)
    }

    fn parse(input: &str) -> (r: Result<(&str, u128), ParseError<'_>>) {
        radix_u128(input, 2)
    }
}

impl Parseable<LowerHex> for u128 {
    /// Reads the longest run of radix-16 digits, which must not be empty and must fit.
    open spec fn states_reads() -> bool {
        true
    }

    open spec fn reads(s: Seq<char>) -> Option<(nat, u128)> {
        u128_reads(s, 16)
    }

    /// No digit (an error of the digit kind), or a value that does not fit (`MapRes`).
    open spec fn fails_with(s: Seq<char>) -> ErrorKind {
        radix_error_kind(s, 16)
    }

    fn parse(input: &str) -> (r: Result<(&str, u128), ParseError<'_>>) {
        radix_u128(input, 16)
    }
}

impl Parseable<UpperHex> for u128 {
    /// Reads the longest run of radix-16 digits, which must not be empty and must fit.
    open spec fn states_reads() -> bool {
        true
    }

    open spec fn reads(s: Seq<char>) -> Option<(nat, u128)> {
        u128_reads(s, 16)
    }

    /// No digit (an error of the digit kind), or a value that does not fit (`MapRes`).
    open spec fn fails_with(s: Seq<char>) -> ErrorKind {
        radix_error_kind(s, 16)
    }

    fn parse(input: &str) -> (r: Result<(&str, u128), ParseError<'_>>) {
        radix_u128(input, 16)
    }
}

impl Parseable<Display> for i8 {
    /// Reads an optional sign, then the longest run of decimal digits; the value must fit.
    open spec fn states_reads() -> bool {
        true
    }

    open spec fn reads(s: Seq<char>) -> Option<(nat, i8)> {
        i8_reads(s)
    }

    /// No digit, or a value that does not fit: a `Digit` error.
    open spec fn fails_with(s: Seq<char>) -> ErrorKind {
        ErrorKind::Digit
    }

    fn parse(input: &str) -> (r: Result<(&str, i8), ParseError<'_>>) {
        match nom_calls::nom_i8(input) {
            Some((rest, v)) => Ok((rest, v)),
            None => Err(ParseError { input, kind: ErrorKind::Digit }),
        }
    }
}

impl Parseable<Display> for i16 {
    /// Reads an optional sign, then the longest run of decimal digits; the value must fit.
    open spec fn states_reads() -> bool {
        true
    }

    open spec fn reads(s: Seq<char>) -> Option<(nat, i16)> {
        i16_reads(s)
    }

    /// No digit, or a value that does not fit: a `Digit` error.
    open spec fn fails_with(s: Seq<char>) -> ErrorKind {
        ErrorKind::Digit
    }

    fn parse(input: &str) -> (r: Result<(&str, i16), ParseError<'_>>) {
        match nom_calls::nom_i16(input) {
            Some((rest, v)) => Ok((rest, v)),
            None => Err(ParseError { input, kind: ErrorKind::Digit }),
        }
    }
}

impl Parseable<Display> for i32 {
    /// Reads an optional sign, then the longest run of decimal digits; the value must fit.
    open spec fn states_reads() -> bool {
        true
    }

    open spec fn reads(s: Seq<char>) -> Option<(nat, i32)> {
        i32_reads(s)
    }

    /// No digit, or a value that does not fit: a `Digit` error.
    open spec fn fails_with(s: Seq<char>) -> ErrorKind {
        ErrorKind::Digit
    }

    fn parse(input: &str) -> (r: Result<(&str, i32), ParseError<'_>>) {
        match nom_calls::nom_i32(input) {
            Some((rest, v)) => Ok((rest, v)),
            None => Err(ParseError { input, kind: ErrorKind::Digit }),
        }
    }
}

impl Parseable<Display> for i64 {
    /// Reads an optional sign, then the longest run of decimal digits; the value must fit.
    open spec fn states_reads() -> bool {
        true
    }

    open spec fn reads(s: Seq<char>) -> Option<(nat, i64)> {
        i64_reads(s)
    }

    /// No digit, or a value that does not fit: a `Digit` error.
    open spec fn fails_with(s: Seq<char>) -> ErrorKind {
        ErrorKind::Digit
    }

    fn parse(input: &str) -> (r: Result<(&str, i64), ParseError<'_>>) {
        match nom_calls::nom_i64(input) {
            Some((rest, v)) => Ok((rest, v)),
            None => Err(ParseError { input, kind: ErrorKind::Digit }),
        }
    }
}

impl Parseable<Display> for i128 {
    /// Reads an optional sign, then the longest run of decimal digits; the value must fit.
    open spec fn states_reads() -> bool {
        true
    }

    open spec fn reads(s: Seq<char>) -> Option<(nat, i128)> {
        i128_reads(s)
    }

    /// No digit, or a value that does not fit: a `Digit` error.
    open spec fn fails_with(s: Seq<char>) -> ErrorKind {
        ErrorKind::Digit
    }

    fn parse(input: &str) -> (r: Result<(&str, i128), ParseError<'_>>) {
        match nom_calls::nom_i128(input) {
            Some((rest, v)) => Ok((rest, v)),
            None => Err(ParseError { input, kind: ErrorKind::Digit }),
        }
    }
}

/// Reads a non-zero `u8` in decimal (`{}`) or, with `hex`, in hexadecimal (`{:x}`):
/// what the `NonZero` parsers read; a zero value is refused.
pub fn nonzero_u8(input: &str, hex: bool) -> (r: Result<(&str, u8), ParseError<'_>>)
    ensures
        match radix_parse(input@, if hex { 16 } else { 10 }, u8::MAX as nat) {
            Some((n, v)) => if v != 0 {
                r matches Ok((rest, w)) && w == v && rest@ == input@.skip(n as int)
            } else {
                r matches Err(e) && e.input@ == input@ && e.kind == ErrorKind::MapOpt
            },
            None => r matches Err(e) && e.input@ == input@ && e.kind == (if hex {
                radix_error_kind(input@, 16)
            } else {
                ErrorKind::Digit
            }),
        },
{
    let read = if hex {
        <u8 as Parseable<LowerHex>>::parse(input)
    } else {
        <u8 as Parseable<Display>>::parse(input)
    };
    match read {
        Ok((rest, v)) => if v != 0 {
            Ok((rest, v))
        } else {
            Err(ParseError { input, kind: ErrorKind::MapOpt })
        },
        Err(e) => Err(e),
    }
}

/// Reads a non-zero `u16` in decimal (`{}`) or, with `hex`, in hexadecimal (`{:x}`):
/// what the `NonZero` parsers read; a zero value is refused.
pub fn nonzero_u16(input: &str, hex: bool) -> (r: Result<(&str, u16), ParseError<'_>>)
    ensures
        match radix_parse(input@, if hex { 16 } else { 10 }, u16::MAX as nat) {
            Some((n, v)) => if v != 0 {
                r matches Ok((rest, w)) && w == v && rest@ == input@.skip(n as int)
            } else {
                r matches Err(e) && e.input@ == input@ && e.kind == ErrorKind::MapOpt
            },
            None => r matches Err(e) && e.input@ == input@ && e.kind == (if hex {
                radix_error_kind(input@, 16)
            } else {
                ErrorKind::Digit
            }),
        },
{
    let read = if hex {
        <u16 as Parseable<LowerHex>>::parse(input)
    } else {
        <u16 as Parseable<Display>>::parse(input)
    };
    match read {
        Ok((rest, v)) => if v != 0 {
            Ok((rest, v))
        } else {
            Err(ParseError { input, kind: ErrorKind::MapOpt })
        },
        Err(e) => Err(e),
    }
}

/// Reads a non-zero `u32` in decimal (`{}`) or, with `hex`, in hexadecimal (`{:x}`):
/// what the `NonZero` parsers read; a zero value is refused.
pub fn nonzero_u32(input: &str, hex: bool) -> (r: Result<(&str, u32), ParseError<'_>>)
    ensures
        match radix_parse(input@, if hex { 16 } else { 10 }, u32::MAX as nat) {
            Some((n, v)) => if v != 0 {
                r matches Ok((rest, w)) && w == v && rest@ == input@.skip(n as int)
            } else {
                r matches Err(e) && e.input@ == input@ && e.kind == ErrorKind::MapOpt
            },
            None => r matches Err(e) && e.input@ == input@ && e.kind == (if hex {
                radix_error_kind(input@, 16)
            } else {
                ErrorKind::Digit
            }),
        },
{
    let read = if hex {
        <u32 as Parseable<LowerHex>>::parse(input)
    } else {
        <u32 as Parseable<Display>>::parse(input)
    };
    match read {
        Ok((rest, v)) => if v != 0 {
            Ok((rest, v))
        } else {
            Err(ParseError { input, kind: ErrorKind::MapOpt })
        },
        Err(e) => Err(e),
    }
}

/// Reads a non-zero `u64` in decimal (`{}`) or, with `hex`, in hexadecimal (`{:x}`):
/// what the `NonZero` parsers read; a zero value is refused.
pub fn nonzero_u64(input: &str, hex: bool) -> (r: Result<(&str, u64), ParseError<'_>>)
    ensures
        match radix_parse(input@, if hex { 16 } else { 10 }, u64::MAX as nat) {
            Some((n, v)) => if v != 0 {
                r matches Ok((rest, w)) && w == v && rest@ == input@.skip(n as int)
            } else {
                r matches Err(e) && e.input@ == input@ && e.kind == ErrorKind::MapOpt
            },
            None => r matches Err(e) && e.input@ == input@ && e.kind == (if hex {
                radix_error_kind(input@, 16)
            } else {
                ErrorKind::Digit
            }),
        },
{
    let read = if hex {
        <u64 as Parseable<LowerHex>>::parse(input)
    } else {
        <u64 as Parseable<Display>>::parse(input)
    };
    match read {
        Ok((rest, v)) => if v != 0 {
            Ok((rest, v))
        } else {
            Err(ParseError { input, kind: ErrorKind::MapOpt })
        },
        Err(e) => Err(e),
    }
}

/// Reads a non-zero `u128` in decimal (`{}`) or, with `hex`, in hexadecimal (`{:x}`):
/// what the `NonZero` parsers read; a zero value is refused.
pub fn nonzero_u128(input: &str, hex: bool) -> (r: Result<(&str, u128), ParseError<'_>>)
    ensures
        match radix_parse(input@, if hex { 16 } else { 10 }, u128::MAX as nat) {
            Some((n, v)) => if v != 0 {
                r matches Ok((rest, w)) && w == v && rest@ == input@.skip(n as int)
            } else {
                r matches Err(e) && e.input@ == input@ && e.kind == ErrorKind::MapOpt
            },
            None => r matches Err(e) && e.input@ == input@ && e.kind == (if hex {
                radix_error_kind(input@, 16)
            } else {
                ErrorKind::Digit
            }),
        },
{
    let read = if hex {
        <u128 as Parseable<LowerHex>>::parse(input)
    } else {
        <u128 as Parseable<Display>>::parse(input)
    };
    match read {
        Ok((rest, v)) => if v != 0 {
            Ok((rest, v))
        } else {
            Err(ParseError { input, kind: ErrorKind::MapOpt })
        },
        Err(e) => Err(e),
    }
}

} // verus!
