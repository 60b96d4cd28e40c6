//! Parsers for values written with Rust's formatting syntax, and the logic of the
//! `qparse` attribute that derives such a parser (and the matching `Display`) from a
//! format string.
use vstd::prelude::*;
use vstd::string::StringExecFns;

pub mod agreement;
pub mod codegen;
pub mod derive;
pub mod digits;
pub mod fmt_parse;
pub mod fmt_string;
pub mod integers;
pub mod ir;
pub mod laws;
pub mod names;
pub mod nom_calls;
pub mod order;
pub mod repeated;
pub mod text;

verus! {

/// Marker selecting the octal (`{:o}`) rendering of a value.
pub struct Octal;

/// Marker selecting the binary (`{:b}`) rendering of a value.
pub struct Binary;

/// Marker selecting the plain (`{}`) rendering of a value.
pub struct Display;

/// Marker selecting the upper-case hexadecimal (`{:X}`) rendering of a value.
pub struct UpperHex;

/// Marker selecting the lower-case hexadecimal (`{:x}`) rendering of a value.
pub struct LowerHex;

/// What a parser was reading when it failed (the kinds of error of `nom` that the parsers
/// of this crate and the parsers derived with it give).
#[derive(Debug, Clone, Copy, PartialEq, Eq)]
pub enum ErrorKind {
    Tag,
    MultiSpace,
    Digit,
    OctDigit,
    HexDigit,
    BinDigit,
    MapRes,
    MapOpt,
    Verify,
    Float,
}

/// A parser failed: where (the input that it could not read) and how.
#[derive(Debug, Clone, Copy, PartialEq, Eq)]
pub struct ParseError<'a> {
    pub input: &'a str,
    pub kind: ErrorKind,
}

/// A type whose values can be read back from text written in the rendering that `P`
/// selects. Each implementation here states what it reads; implementations that the
/// `qparse` attribute derives are ordinary code.
pub trait Parseable<P>: Sized {
    /// Whether this implementation states what it reads (`reads`); the implementations
    /// here do, derived ones do not.
    open spec fn states_reads() -> bool {
        false
    }

    /// What reading a value at the start of `s` gives: how many chars are read, and the
    /// value; `None` where no value can be read there.
    open spec fn reads(s: Seq<char>) -> Option<(nat, Self)> {
        None
    }

    /// The kind of error given where nothing can be read at the start of `s` (meaningful
    /// only where `states_reads`).
    open spec fn fails_with(s: Seq<char>) -> ErrorKind {
        ErrorKind::Verify
    }

    /// Reads a value at the start of `input`; gives the rest of the input and the value.
    fn parse(input: &str) -> (r: Result<(&str, Self), ParseError<'_>>)
        ensures
            Self::states_reads() ==> parsed_as(input@, r, Self::reads(input@), Self::fails_with(input@)),
    ;

    /// The same as `parse`.
    fn simple_parse(input: &str) -> (r: Result<(&str, Self), ParseError<'_>>)
        ensures
            Self::states_reads() ==> parsed_as(input@, r, Self::reads(input@), Self::fails_with(input@)),
    {
        Self::parse(input)
    }
}

/// `s` starts with `t`.
pub open spec fn starts_with(s: Seq<char>, t: Seq<char>) -> bool {
    s.len() >= t.len() && s.take(t.len() as int) == t
}

/// Matches the text `t` at the start of `input`; gives the rest of the input, or a `Tag`
/// error at `input`.
pub fn tag<'a>(input: &'a str, t: &str) -> (r: Result<&'a str, ParseError<'a>>)
    ensures
        r is Ok <==> starts_with(input@, t@),
        r matches Ok(rest) ==> rest@ == input@.skip(t@.len() as int),
        r matches Err(e) ==> e.input@ == input@ && e.kind == ErrorKind::Tag,
{
    match crate::nom_calls::nom_tag(input, String::from_str(t)) {
        Some(rest) => Ok(rest),
        None => Err(ParseError { input, kind: ErrorKind::Tag }),
    }
}

/// Skips one or more spaces, tabs, carriage returns and line feeds at the start of
/// `input`; gives the rest of the input, or a `MultiSpace` error at `input`.
pub fn multispace1(input: &str) -> (r: Result<&str, ParseError<'_>>)
    ensures
        r is Ok <==> crate::nom_calls::multispace_run(input@) > 0,
        r matches Ok(rest) ==> rest@ == input@.skip(crate::nom_calls::multispace_run(input@) as int),
        r matches Err(e) ==> e.input@ == input@ && e.kind == ErrorKind::MultiSpace,
{
    match crate::nom_calls::nom_multispace1(input) {
        Some(rest) => Ok(rest),
        None => Err(ParseError { input, kind: ErrorKind::MultiSpace }),
    }
}

/// What the `bool` parser reads: `true` or `false`, spelled out; the number of chars read
/// and the value.
pub open spec fn bool_reads(s: Seq<char>) -> Option<(nat, bool)> {
    if starts_with(s, seq!['t', 'r', 'u', 'e']) {
        Some((4, true))
    } else if starts_with(s, seq!['f', 'a', 'l', 's', 'e']) {
        Some((5, false))
    } else {
        None
    }
}

/// How a parser's result stands to a spec of what it reads: the value and the rest of the
/// input after the chars read, or, where nothing can be read, an error of the given kind at
/// the whole input.
pub open spec fn parsed_as<'a, T>(
    input: Seq<char>,
    r: Result<(&'a str, T), ParseError<'a>>,
    spec: Option<(nat, T)>,
    kind: ErrorKind,
) -> bool {
    match spec {
        Some((n, v)) => r matches Ok((rest, w)) && w == v && rest@ == input.skip(n as int),
        None => r matches Err(e) && e.input@ == input && e.kind == kind,
    }
}

impl Parseable<Display> for bool {
    open spec fn states_reads() -> bool {
        true
    }

    open spec fn reads(s: Seq<char>) -> Option<(nat, bool)> {
        bool_reads(s)
    }

    /// Neither spelling matched: the `Tag` error of the last one tried.
    open spec fn fails_with(s: Seq<char>) -> ErrorKind {
        ErrorKind::Tag
    }

    fn parse(input: &str) -> (r: Result<(&str, bool), ParseError<'_>>) {
        proof {
            reveal_strlit("true");
            reveal_strlit("false");
            assert("true"@ =~= seq!['t', 'r', 'u', 'e']);
            assert("false"@ =~= seq!['f', 'a', 'l', 's', 'e']);
        }
        if let Some(rest) = crate::nom_calls::nom_tag(input, String::from_str("true")) {
            return Ok((rest, true));
        }
        if let Some(rest) = crate::nom_calls::nom_tag(input, String::from_str("false")) {
            return Ok((rest, false));
        }
        Err(ParseError { input, kind: ErrorKind::Tag })
    }
}

impl<T: Parseable<P>, P> Parseable<P> for Box<T> {
    /// States what it reads where `T` does.
    open spec fn states_reads() -> bool {
        T::states_reads()
    }

    /// What `T` reads, boxed.
    open spec fn reads(s: Seq<char>) -> Option<(nat, Box<T>)> {
        match T::reads(s) {
            Some((n, v)) => Some((n, Box::new(v))),
            None => None,
        }
    }

    /// The error of `T`.
    open spec fn fails_with(s: Seq<char>) -> ErrorKind {
        T::fails_with(s)
    }

    fn parse(input: &str) -> (r: Result<(&str, Box<T>), ParseError<'_>>) {
        match T::parse(input) {
            Ok((rest, v)) => Ok((rest, Box::new(v))),
            Err(e) => Err(e),
        }
    }
}

} // verus!
