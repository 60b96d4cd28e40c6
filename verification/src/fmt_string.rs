//! Rust format strings, as the `std::fmt` documentation gives their grammar:
//!
//! ```text
//! format_string := text [ maybe_format text ] *
//! maybe_format := '{' '{' | '}' '}' | format
//! format := '{' [ argument ] [ ':' format_spec ] [ ws ] * '}'
//! argument := integer | identifier
//!
//! format_spec := [[fill]align][sign]['#']['0'][width]['.' precision][type]
//! fill := character
//! align := '<' | '^' | '>'
//! sign := '+' | '-'
//! width := count
//! precision := count | '*'
//! type := '?' | 'x?' | 'X?' | 'o' | 'x' | 'X' | 'p' | 'b' | 'e' | 'E'
//! count := parameter | integer
//! parameter := argument '$'
//! ```
//!
//! Here an argument is required: `qparse` names the field that each format fills.
//! The `..._reads` spec functions state the grammar over a sequence of chars and a position;
//! the parsers below follow them.
use vstd::prelude::*;
use crate::digits::radix_parse;
use crate::nom_calls::{multispace_run, xid_continue, xid_start};

verus! {

/// The field that a format fills: by position or by name.
#[derive(Debug, PartialEq, Eq, PartialOrd, Ord)]
pub enum Argument {
    Intiger(usize),
    Identifier(String),
}

/// An `Argument` as a mathematical value.
pub enum ArgumentView {
    Intiger(usize),
    Identifier(Seq<char>),
}

impl View for Argument {
    type V = ArgumentView;

    open spec fn view(&self) -> ArgumentView {
        match self {
            Argument::Intiger(n) => ArgumentView::Intiger(*n),
            Argument::Identifier(s) => ArgumentView::Identifier(s@),
        }
    }
}

impl Clone for Argument {
    fn clone(&self) -> (r: Self)
        ensures
            r == *self,
    {
        match self {
            Argument::Intiger(n) => Argument::Intiger(*n),
            Argument::Identifier(s) => Argument::Identifier(s.clone()),
        }
    }
}

/// Alignment of a padded value.
#[derive(Clone, Copy, Debug, PartialEq, Eq)]
pub enum Align {
    Left,
    Center,
    Right,
}

/// The sign flag of a format.
#[derive(Clone, Copy, Debug, PartialEq, Eq)]
pub enum Sign {
    Plus,
    Minus,
}

/// The formatting trait that a format selects.
#[derive(Clone, Copy, Debug, PartialEq, Eq)]
pub enum Type {
    Display,
    Debug,
    DebugLowerHex,
    DebugUpperHex,
    Octal,
    LowerHex,
    UpperHex,
    Binary,
    UpperExp,
    LowerExp,
    Pointer,
}

/// A width or precision: taken from an argument (`name$`) or written out.
#[derive(Debug, PartialEq, Eq)]
pub enum Count {
    Parameter(Argument),
    Intiger(usize),
}

pub enum CountView {
    Parameter(ArgumentView),
    Intiger(usize),
}

impl View for Count {
    type V = CountView;

    open spec fn view(&self) -> CountView {
        match self {
            Count::Parameter(a) => CountView::Parameter(a@),
            Count::Intiger(n) => CountView::Intiger(*n),
        }
    }
}

impl Clone for Count {
    fn clone(&self) -> (r: Self)
        ensures
            r == *self,
    {
        match self {
            Count::Parameter(a) => Count::Parameter(a.clone()),
            Count::Intiger(n) => Count::Intiger(*n),
        }
    }
}

/// A precision: a count, or `*` (taken from the next argument).
#[derive(Debug, PartialEq, Eq)]
pub enum Precision {
    Count(Count),
    FromArg,
}

pub enum PrecisionView {
    Count(CountView),
    FromArg,
}

impl View for Precision {
    type V = PrecisionView;

    open spec fn view(&self) -> PrecisionView {
        match self {
            Precision::Count(c) => PrecisionView::Count(c@),
            Precision::FromArg => PrecisionView::FromArg,
        }
    }
}

impl Clone for Precision {
    fn clone(&self) -> (r: Self)
        ensures
            r == *self,
    {
        match self {
            Precision::Count(c) => Precision::Count(c.clone()),
            Precision::FromArg => Precision::FromArg,
        }
    }
}

/// Everything after the `:` of a format.
#[derive(Debug, PartialEq, Eq)]
pub struct FormatSpec {
    pub fill_align: Option<(Option<char>, Align)>,
    pub sign: Option<Sign>,
    pub alt_form: bool,
    pub sign_aware_zero_pad: bool,
    pub width: Option<Count>,
    pub precision: Option<Precision>,
    pub tpe: Type,
}

pub struct FormatSpecView {
    pub fill_align: Option<(Option<char>, Align)>,
    pub sign: Option<Sign>,
    pub alt_form: bool,
    pub sign_aware_zero_pad: bool,
    pub width: Option<CountView>,
    pub precision: Option<PrecisionView>,
    pub tpe: Type,
}

pub open spec fn count_opt_view(c: Option<Count>) -> Option<CountView> {
    match c {
        Some(c) => Some(c@),
        None => None,
    }
}

pub open spec fn precision_opt_view(p: Option<Precision>) -> Option<PrecisionView> {
    match p {
        Some(p) => Some(p@),
        None => None,
    }
}

impl View for FormatSpec {
    type V = FormatSpecView;

    open spec fn view(&self) -> FormatSpecView {
        FormatSpecView {
            fill_align: self.fill_align,
            sign: self.sign,
            alt_form: self.alt_form,
            sign_aware_zero_pad: self.sign_aware_zero_pad,
            width: count_opt_view(self.width),
            precision: precision_opt_view(self.precision),
            tpe: self.tpe,
        }
    }
}

/// The spec of a format written without `:`.
pub open spec fn default_spec() -> FormatSpecView {
    FormatSpecView {
        fill_align: None,
        sign: None,
        alt_form: false,
        sign_aware_zero_pad: false,
        width: None,
        precision: None,
        tpe: Type::Display,
    }
}

impl Default for FormatSpec {
    fn default() -> (r: Self)
        ensures
            r@ == default_spec(),
    {
        FormatSpec {
            fill_align: None,
            sign: None,
            alt_form: false,
            sign_aware_zero_pad: false,
            width: None,
            precision: None,
            tpe: Type::Display,
        }
    }
}

impl Clone for FormatSpec {
    fn clone(&self) -> (r: Self)
        ensures
            r == *self,
    {
        let width = match &self.width {
            Some(c) => Some(c.clone()),
            None => None,
        };
        let precision = match &self.precision {
            Some(p) => Some(p.clone()),
            None => None,
        };
        FormatSpec {
            fill_align: self.fill_align,
            sign: self.sign,
            alt_form: self.alt_form,
            sign_aware_zero_pad: self.sign_aware_zero_pad,
            width,
            precision,
            tpe: self.tpe,
        }
    }
}

/// One `{...}` of a format string.
#[derive(Debug, PartialEq, Eq)]
pub struct Format {
    pub argument: Argument,
    pub fmt_spec: FormatSpec,
}

pub struct FormatView {
    pub argument: ArgumentView,
    pub fmt_spec: FormatSpecView,
}

impl View for Format {
    type V = FormatView;

    open spec fn view(&self) -> FormatView {
        FormatView { argument: self.argument@, fmt_spec: self.fmt_spec@ }
    }
}

/// A parsed format string: the leading text, then each format with the text after it.
/// Escaped braces (`{{`, `}}`) stand in the text as single braces.
#[derive(Debug, PartialEq, Eq)]
pub struct FormatString {
    pub text: String,
    pub fragments: Vec<(Format, String)>,
}

pub struct FormatStringView {
    pub text: Seq<char>,
    pub fragments: Seq<(FormatView, Seq<char>)>,
}

pub open spec fn fragments_view(fr: Seq<(Format, String)>) -> Seq<(FormatView, Seq<char>)> {
    fr.map_values(|p: (Format, String)| (p.0@, p.1@))
}

impl View for FormatString {
    type V = FormatStringView;

    open spec fn view(&self) -> FormatStringView {
        FormatStringView { text: self.text@, fragments: fragments_view(self.fragments@) }
    }
}

/// A format string was not well formed: parsing stopped at this char offset, before the
/// end of the input.
#[derive(Debug, Clone, Copy, PartialEq, Eq)]
pub struct FormatError {
    pub offset: usize,
}

// ---------------------------------------------------------------------------------------
// The grammar.
/// `s` holds the char `c` at position `i`.
pub open spec fn char_at(s: Seq<char>, i: int, c: char) -> bool {
    0 <= i < s.len() && s[i] == c
}

/// `text` from position `i`: chars up to the first single `{` or `}`, with `{{` and `}}`
/// read as one brace. The text read, and where it ends.
pub open spec fn text_reads(s: Seq<char>, i: int) -> (Seq<char>, int)
    decreases s.len() - i,
{
    if i < 0 || i >= s.len() {
        (Seq::empty(), i)
    } else if s[i] == '{' {
        if char_at(s, i + 1, '{') {
            let r = text_reads(s, i + 2);
            (seq!['{'] + r.0, r.1)
        } else {
            (Seq::empty(), i)
        }
    } else if s[i] == '}' {
        if char_at(s, i + 1, '}') {
            let r = text_reads(s, i + 2);
            (seq!['}'] + r.0, r.1)
        } else {
            (Seq::empty(), i)
        }
    } else {
        let r = text_reads(s, i + 1);
        (seq![s[i]] + r.0, r.1)
    }
}

/// Where the run of XID_Continue chars that starts at `j` ends.
pub open spec fn continue_run(s: Seq<char>, j: int) -> int
    decreases s.len() - j,
{
    if 0 <= j < s.len() && xid_continue(s[j]) {
        continue_run(s, j + 1)
    } else {
        j
    }
}

/// An identifier: an XID_Start char or `_`, then XID_Continue chars.
pub open spec fn identifier_reads(s: Seq<char>, i: int) -> Option<(Seq<char>, int)> {
    if 0 <= i < s.len() && (xid_start(s[i]) || s[i] == '_') {
        let j = continue_run(s, i + 1);
        Some((s.subrange(i, j), j))
    } else {
        None
    }
}

/// A decimal integer that fits in `usize`.
pub open spec fn usize_reads(s: Seq<char>, i: int) -> Option<(usize, int)> {
    if 0 <= i <= s.len() {
        match radix_parse(s.skip(i), 10, usize::MAX as nat) {
            Some((k, v)) => Some((v as usize, i + k)),
            None => None,
        }
    } else {
        None
    }
}

/// `argument := identifier | integer` (an identifier is tried first).
pub open spec fn argument_reads(s: Seq<char>, i: int) -> Option<(ArgumentView, int)> {
    match identifier_reads(s, i) {
        Some((id, j)) => Some((ArgumentView::Identifier(id), j)),
        None => match usize_reads(s, i) {
            Some((n, j)) => Some((ArgumentView::Intiger(n), j)),
            None => None,
        },
    }
}

/// `parameter := argument '$'`.
pub open spec fn parameter_reads(s: Seq<char>, i: int) -> Option<(ArgumentView, int)> {
    match argument_reads(s, i) {
        Some((a, j)) => if char_at(s, j, '$') {
            Some((a, j + 1))
        } else {
            None
        },
        None => None,
    }
}

/// `count := parameter | integer`.
pub open spec fn count_reads(s: Seq<char>, i: int) -> Option<(CountView, int)> {
    match parameter_reads(s, i) {
        Some((a, j)) => Some((CountView::Parameter(a), j)),
        None => match usize_reads(s, i) {
            Some((n, j)) => Some((CountView::Intiger(n), j)),
            None => None,
        },
    }
}

/// `precision := '*' | count`.
pub open spec fn precision_reads(s: Seq<char>, i: int) -> Option<(PrecisionView, int)> {
    if char_at(s, i, '*') {
        Some((PrecisionView::FromArg, i + 1))
    } else {
        match count_reads(s, i) {
            Some((c, j)) => Some((PrecisionView::Count(c), j)),
            None => None,
        }
    }
}

/// `align := '<' | '^' | '>'`.
pub open spec fn align_reads(s: Seq<char>, i: int) -> Option<(Align, int)> {
    if char_at(s, i, '<') {
        Some((Align::Left, i + 1))
    } else if char_at(s, i, '^') {
        Some((Align::Center, i + 1))
    } else if char_at(s, i, '>') {
        Some((Align::Right, i + 1))
    } else {
        None
    }
}

/// `[fill]align`: a fill char is any char that an align follows.
pub open spec fn fill_align_reads(s: Seq<char>, i: int) -> Option<((Option<char>, Align), int)> {
    if 0 <= i < s.len() && align_reads(s, i + 1) is Some {
        let (a, j) = align_reads(s, i + 1)->0;
        Some(((Some(s[i]), a), j))
    } else {
        match align_reads(s, i) {
            Some((a, j)) => Some(((None, a), j)),
            None => None,
        }
    }
}

/// `sign := '+' | '-'`.
pub open spec fn sign_reads(s: Seq<char>, i: int) -> Option<(Sign, int)> {
    if char_at(s, i, '+') {
        Some((Sign::Plus, i + 1))
    } else if char_at(s, i, '-') {
        Some((Sign::Minus, i + 1))
    } else {
        None
    }
}

/// `type`; with no type letter the format is `Display`. The rest of the input fails where
/// it could still grow into `x?` or `X?` (it is empty, `x` or `X`): the grammar's `tag`s
/// for those two are `nom`'s streaming ones, which ask for more input there.
pub open spec fn type_reads(s: Seq<char>, i: int) -> Option<(Type, int)> {
    if i >= s.len() || (i + 1 == s.len() && (s[i] == 'x' || s[i] == 'X')) {
        None
    } else if char_at(s, i, 'x') && char_at(s, i + 1, '?') {
        Some((Type::DebugLowerHex, i + 2))
    } else if char_at(s, i, 'X') && char_at(s, i + 1, '?') {
        Some((Type::DebugUpperHex, i + 2))
    } else if char_at(s, i, '?') {
        Some((Type::Debug, i + 1))
    } else if char_at(s, i, 'o') {
        Some((Type::Octal, i + 1))
    } else if char_at(s, i, 'x') {
        Some((Type::LowerHex, i + 1))
    } else if char_at(s, i, 'X') {
        Some((Type::UpperHex, i + 1))
    } else if char_at(s, i, 'p') {
        Some((Type::Pointer, i + 1))
    } else if char_at(s, i, 'b') {
        Some((Type::Binary, i + 1))
    } else if char_at(s, i, 'e') {
        Some((Type::LowerExp, i + 1))
    } else if char_at(s, i, 'E') {
        Some((Type::UpperExp, i + 1))
    } else {
        Some((Type::Display, i))
    }
}

/// `format_spec`: every part is optional. It fails where a count would be read at the end
/// of the input (as the width, or as the precision after a `.`), or where the type fails:
/// the identifier in a count starts with `nom`'s streaming `char('_')`, which asks for more
/// input there.
pub open spec fn format_spec_reads(s: Seq<char>, i: int) -> Option<(FormatSpecView, int)> {
    let (fill_align, i1) = match fill_align_reads(s, i) {
        Some((v, j)) => (Some(v), j),
        None => (None, i),
    };
    let (sign, i2) = match sign_reads(s, i1) {
        Some((v, j)) => (Some(v), j),
        None => (None, i1),
    };
    let (alt_form, i3) = if char_at(s, i2, '#') {
        (true, i2 + 1)
    } else {
        (false, i2)
    };
    let (zero, i4) = if char_at(s, i3, '0') {
        (true, i3 + 1)
    } else {
        (false, i3)
    };
    let (width, i5) = match count_reads(s, i4) {
        Some((v, j)) => (Some(v), j),
        None => (None, i4),
    };
    let (precision, i6) = if char_at(s, i5, '.') && precision_reads(s, i5 + 1) is Some {
        let (p, j) = precision_reads(s, i5 + 1)->0;
        (Some(p), j)
    } else {
        (None, i5)
    };
    if i4 >= s.len() || (char_at(s, i5, '.') && i5 + 1 >= s.len()) {
        None
    } else {
        match type_reads(s, i6) {
            None => None,
            Some((tpe, i7)) => Some(
                (
                    FormatSpecView {
                        fill_align,
                        sign,
                        alt_form,
                        sign_aware_zero_pad: zero,
                        width,
                        precision,
                        tpe,
                    },
                    i7,
                ),
            ),
        }
    }
}

/// `format := '{' argument [ ':' format_spec ] [ ws ] * '}'`.
pub open spec fn format_reads(s: Seq<char>, i: int) -> Option<(FormatView, int)> {
    if !char_at(s, i, '{') {
        None
    } else {
        match argument_reads(s, i + 1) {
            None => None,
            Some((a, j)) => {
                let read_spec = if char_at(s, j, ':') {
                    format_spec_reads(s, j + 1)
                } else {
                    Some((default_spec(), j))
                };
                match read_spec {
                    None => None,
                    Some((spec, k)) => {
                        let m = k + multispace_run(s.skip(k));
                        if char_at(s, m, '}') {
                            Some((FormatView { argument: a, fmt_spec: spec }, m + 1))
                        } else {
                            None
                        }
                    },
                }
            },
        }
    }
}

/// `[ format text ] *` from position `i`: as many formats (each with the text after it)
/// as can be read.
pub open spec fn fragments_reads(s: Seq<char>, i: int) -> (Seq<(FormatView, Seq<char>)>, int)
    decreases s.len() - i,
{
    match format_reads(s, i) {
        Some((f, j)) => {
            let (t, k) = text_reads(s, j);
            if i < k <= s.len() {
                let (rest, e) = fragments_reads(s, k);
                (seq![(f, t)] + rest, e)
            } else {
                (seq![(f, t)], k)
            }
        },
        None => (Seq::empty(), i),
    }
}

/// A whole format string: text, then formats with their texts, up to the end of `s`.
/// `Err` holds the offset at which reading stopped short of the end.
pub open spec fn format_string_reads(s: Seq<char>) -> Result<FormatStringView, int> {
    let (t, i) = text_reads(s, 0);
    let (fr, j) = fragments_reads(s, i);
    if j == s.len() {
        Ok(FormatStringView { text: t, fragments: fr })
    } else {
        Err(j)
    }
}

} // verus!
