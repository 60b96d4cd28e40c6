//! The parsers of the format-string grammar of `fmt_string`, each proved to read what the
//! grammar says. They work on the chars of the input (`cs`, with `cs@ == input@`) from a
//! position, and give the value read and the position after it.
use vstd::prelude::*;
use vstd::string::{StrSliceExecFns, StringExecFns};
use crate::digits::lemma_digit_run_bounds;
use crate::fmt_string::{
    align_reads, argument_reads, char_at, continue_run, count_reads, fill_align_reads,
    format_reads, format_spec_reads, format_string_reads, fragments_reads, fragments_view,
    identifier_reads, parameter_reads, precision_reads, sign_reads, text_reads, type_reads,
    usize_reads, Align, Argument, Count, Format, FormatError, FormatSpec, FormatString,
    FormatView, Precision, Sign, Type,
};
use crate::nom_calls::{is_xid_continue, is_xid_start, multispace_run, nom_usize};
use crate::text::chars_of;

verus! {

/// The position after the run of spaces, tabs, carriage returns and line feeds at `i`.
fn skip_multispace(cs: &Vec<char>, i: usize) -> (j: usize)
    requires
        i <= cs.len(),
    ensures
        j == i + multispace_run(cs@.skip(i as int)),
        j <= cs.len(),
{
    let mut j = i;
    while j < cs.len() && (cs[j] == ' ' || cs[j] == '\t' || cs[j] == '\r' || cs[j] == '\n')
        invariant
            i <= j <= cs.len(),
            i + multispace_run(cs@.skip(i as int)) == j + multispace_run(cs@.skip(j as int)),
        decreases cs.len() - j,
    {
        assert(cs@.skip(j as int).drop_first() =~= cs@.skip(j + 1));
        j = j + 1;
    }
    if j < cs.len() {
        assert(cs@.skip(j as int)[0] == cs@[j as int]);
    }
    j
}

/// Where `text` from `i` ends lies between `i` and the end.
pub proof fn lemma_text_bounds(s: Seq<char>, i: int)
    requires
        0 <= i <= s.len(),
    ensures
        i <= text_reads(s, i).1 <= s.len(),
    decreases s.len() - i,
{
    if i < s.len() {
        if s[i] == '{' || s[i] == '}' {
            if char_at(s, i + 1, s[i]) {
                lemma_text_bounds(s, i + 2);
            }
        } else {
            lemma_text_bounds(s, i + 1);
        }
    }
}

/// Reads `text` from `i`.
pub fn text(input: &str, cs: &Vec<char>, i: usize) -> (r: (String, usize))
    requires
        cs@ == input@,
        i <= cs.len(),
    ensures
        r.0@ == text_reads(cs@, i as int).0,
        r.1 as int == text_reads(cs@, i as int).1,
        i <= r.1 <= cs.len(),
{
    proof {
        lemma_text_bounds(cs@, i as int);
    }
    let ghost s = cs@;
    let mut res = String::new();
    let mut start = i;
    let mut j = i;
    loop
        invariant
            i <= start <= j <= cs.len(),
            cs@ == input@,
            s == cs@,
            res@ + s.subrange(start as int, j as int) + text_reads(s, j as int).0 == text_reads(
                s,
                i as int,
            ).0,
            text_reads(s, j as int).1 == text_reads(s, i as int).1,
        decreases cs.len() - j,
    {
        if j == cs.len() {
            res.append(input.substring_char(start, j));
            assert(res@ =~= res@ + text_reads(s, j as int).0);
            return (res, j);
        }
        let c = cs[j];
        if c == '{' || c == '}' {
            if j + 1 < cs.len() && cs[j + 1] == c {
                let ghost before = res@;
                res.append(input.substring_char(start, j));
                if c == '{' {
                    res.append("{");
                } else {
                    res.append("}");
                }
                proof {
                    reveal_strlit("{");
                    reveal_strlit("}");
                    assert("{"@ =~= seq!['{']);
                    assert("}"@ =~= seq!['}']);
                    let r = text_reads(s, j + 2);
                    assert(text_reads(s, j as int).0 == seq![c] + r.0);
                    assert(res@ =~= before + s.subrange(start as int, j as int) + seq![c]);
                    assert(res@ + s.subrange(j + 2, j + 2) + r.0 =~= before + s.subrange(
                        start as int,
                        j as int,
                    ) + (seq![c] + r.0));
                }
                j = j + 2;
                start = j;
            } else {
                let ghost before = res@;
                res.append(input.substring_char(start, j));
                assert(res@ =~= res@ + text_reads(s, j as int).0);
                return (res, j);
            }
        } else {
            proof {
                let r = text_reads(s, j + 1);
                assert(text_reads(s, j as int).0 == seq![c] + r.0);
                assert(s.subrange(start as int, j + 1) =~= s.subrange(start as int, j as int)
                    + seq![c]);
                assert(res@ + s.subrange(start as int, j + 1) + r.0 =~= res@ + s.subrange(
                    start as int,
                    j as int,
                ) + (seq![c] + r.0));
            }
            j = j + 1;
        }
    }
}

/// Reads an identifier at `i`.
fn identifier(input: &str, cs: &Vec<char>, i: usize) -> (r: Option<(String, usize)>)
    requires
        cs@ == input@,
        i <= cs.len(),
    ensures
        r is Some <==> identifier_reads(cs@, i as int) is Some,
        r matches Some((id, j)) ==> identifier_reads(cs@, i as int) == Some((id@, j as int)) && i
            < j <= cs.len(),
{
    if i < cs.len() && (is_xid_start(cs[i]) || cs[i] == '_') {
        let mut j = i + 1;
        while j < cs.len() && is_xid_continue(cs[j])
            invariant
                i + 1 <= j <= cs.len(),
                continue_run(cs@, j as int) == continue_run(cs@, i + 1),
            decreases cs.len() - j,
        {
            j = j + 1;
        }
        let id = String::from_str(input.substring_char(i, j));
        Some((id, j))
    } else {
        None
    }
}

/// Reads a decimal `usize` at `i`.
fn usize_at(input: &str, cs: &Vec<char>, i: usize) -> (r: Option<(usize, usize)>)
    requires
        cs@ == input@,
        i <= cs.len(),
    ensures
        r is Some <==> usize_reads(cs@, i as int) is Some,
        r matches Some((v, j)) ==> usize_reads(cs@, i as int) == Some((v, j as int)) && i < j
            <= cs.len(),
{
    let suffix = input.substring_char(i, cs.len());
    assert(suffix@ =~= cs@.skip(i as int));
    proof {
        lemma_digit_run_bounds(suffix@, 10);
    }
    match nom_usize(suffix) {
        Some((rest, v)) => {
            let rl = rest.unicode_len();
            Some((v, cs.len() - rl))
        },
        None => None,
    }
}

impl Argument {
    /// Reads an argument at `i`: an identifier, or else a decimal `usize`.
    pub fn parse(input: &str, cs: &Vec<char>, i: usize) -> (r: Option<(Argument, usize)>)
        requires
            cs@ == input@,
            i <= cs.len(),
        ensures
            r is Some <==> argument_reads(cs@, i as int) is Some,
            r matches Some((a, j)) ==> argument_reads(cs@, i as int) == Some((a@, j as int)) && i
                < j <= cs.len(),
    {
        match identifier(input, cs, i) {
            Some((id, j)) => Some((Argument::Identifier(id), j)),
            None => match usize_at(input, cs, i) {
                Some((n, j)) => Some((Argument::Intiger(n), j)),
                None => None,
            },
        }
    }
}

/// Reads `argument '$'` at `i`.
fn parameter(input: &str, cs: &Vec<char>, i: usize) -> (r: Option<(Argument, usize)>)
    requires
        cs@ == input@,
        i <= cs.len(),
    ensures
        r is Some <==> parameter_reads(cs@, i as int) is Some,
        r matches Some((a, j)) ==> parameter_reads(cs@, i as int) == Some((a@, j as int)) && i
            < j <= cs.len(),
{
    match Argument::parse(input, cs, i) {
        Some((a, j)) => {
            if j < cs.len() && cs[j] == '$' {
                Some((a, j + 1))
            } else {
                None
            }
        },
        None => None,
    }
}

impl Count {
    /// Reads a count at `i`: a parameter, or else a decimal `usize`.
    pub fn parse(input: &str, cs: &Vec<char>, i: usize) -> (r: Option<(Count, usize)>)
        requires
            cs@ == input@,
            i <= cs.len(),
        ensures
            r is Some <==> count_reads(cs@, i as int) is Some,
            r matches Some((c, j)) ==> count_reads(cs@, i as int) == Some((c@, j as int)) && i < j
                <= cs.len(),
    {
        match parameter(input, cs, i) {
            Some((a, j)) => Some((Count::Parameter(a), j)),
            None => match usize_at(input, cs, i) {
                Some((n, j)) => Some((Count::Intiger(n), j)),
                None => None,
            },
        }
    }
}

impl Precision {
    /// Reads a precision at `i`: `*`, or else a count.
    pub fn parse(input: &str, cs: &Vec<char>, i: usize) -> (r: Option<(Precision, usize)>)
        requires
            cs@ == input@,
            i <= cs.len(),
        ensures
            r is Some <==> precision_reads(cs@, i as int) is Some,
            r matches Some((p, j)) ==> precision_reads(cs@, i as int) == Some((p@, j as int)) && i
                < j <= cs.len(),
    {
        if i < cs.len() && cs[i] == '*' {
            Some((Precision::FromArg, i + 1))
        } else {
            match Count::parse(input, cs, i) {
                Some((c, j)) => Some((Precision::Count(c), j)),
                None => None,
            }
        }
    }
}

impl Align {
    /// Reads an align char at `i`.
    pub fn parse(cs: &Vec<char>, i: usize) -> (r: Option<(Align, usize)>)
        requires
            i <= cs.len(),
        ensures
            r is Some <==> align_reads(cs@, i as int) is Some,
            r matches Some((a, j)) ==> align_reads(cs@, i as int) == Some((a, j as int)) && i < j
                <= cs.len(),
    {
        if i < cs.len() && cs[i] == '<' {
            Some((Align::Left, i + 1))
        } else if i < cs.len() && cs[i] == '^' {
            Some((Align::Center, i + 1))
        } else if i < cs.len() && cs[i] == '>' {
            Some((Align::Right, i + 1))
        } else {
            None
        }
    }
}

/// Reads `[fill]align` at `i`.
fn fill_align(cs: &Vec<char>, i: usize) -> (r: Option<((Option<char>, Align), usize)>)
    requires
        i <= cs.len(),
    ensures
        r is Some <==> fill_align_reads(cs@, i as int) is Some,
        r matches Some((v, j)) ==> fill_align_reads(cs@, i as int) == Some((v, j as int)) && i < j
            <= cs.len(),
{
    if i < cs.len() {
        if let Some((a, j)) = Align::parse(cs, i + 1) {
            return Some(((Some(cs[i]), a), j));
        }
    }
    match Align::parse(cs, i) {
        Some((a, j)) => Some(((None, a), j)),
        None => None,
    }
}

impl Sign {
    /// Reads a sign char at `i`.
    pub fn parse(cs: &Vec<char>, i: usize) -> (r: Option<(Sign, usize)>)
        requires
            i <= cs.len(),
        ensures
            r is Some <==> sign_reads(cs@, i as int) is Some,
            r matches Some((v, j)) ==> sign_reads(cs@, i as int) == Some((v, j as int)) && i < j
                <= cs.len(),
    {
        if i < cs.len() && cs[i] == '+' {
            Some((Sign::Plus, i + 1))
        } else if i < cs.len() && cs[i] == '-' {
            Some((Sign::Minus, i + 1))
        } else {
            None
        }
    }
}

impl Type {
    /// Whether the type is one of `qparse`'s own (none is, so far).
    pub fn is_custom(&self) -> (r: bool)
        ensures
            !r,
    {
        false
    }

    /// Reads a type at `i`; with no type letter there it is `Display`, and nothing is read.
    /// Where the rest of the input is empty, `x` or `X` (it could still become `x?` or
    /// `X?`), it fails.
    pub fn parse(cs: &Vec<char>, i: usize) -> (r: Option<(Type, usize)>)
        requires
            i <= cs.len(),
        ensures
            match type_reads(cs@, i as int) {
                Some((t, j)) => r matches Some((u, k)) && u == t && k == j && i <= k <= cs.len(),
                None => r is None,
            },
    {
        let n = cs.len();
        let at = |k: usize, c: char| -> (b: bool)
            ensures
                b == char_at(cs@, k as int, c),
            { k < n && cs[k] == c };
        if i >= n || (i + 1 == n && (cs[i] == 'x' || cs[i] == 'X')) {
            None
        } else if at(i, 'x') && at(i + 1, '?') {
            Some((Type::DebugLowerHex, i + 2))
        } else if at(i, 'X') && at(i + 1, '?') {
            Some((Type::DebugUpperHex, i + 2))
        } else if at(i, '?') {
            Some((Type::Debug, i + 1))
        } else if at(i, 'o') {
            Some((Type::Octal, i + 1))
        } else if at(i, 'x') {
            Some((Type::LowerHex, i + 1))
        } else if at(i, 'X') {
            Some((Type::UpperHex, i + 1))
        } else if at(i, 'p') {
            Some((Type::Pointer, i + 1))
        } else if at(i, 'b') {
            Some((Type::Binary, i + 1))
        } else if at(i, 'e') {
            Some((Type::LowerExp, i + 1))
        } else if at(i, 'E') {
            Some((Type::UpperExp, i + 1))
        } else {
            Some((Type::Display, i))
        }
    }
}

impl FormatSpec {
    /// Reads a format spec at `i` (every part of it is optional). It fails where a count
    /// would be read at the end of the input, or where the type fails.
    pub fn parse(input: &str, cs: &Vec<char>, i: usize) -> (r: Option<(FormatSpec, usize)>)
        requires
            cs@ == input@,
            i <= cs.len(),
        ensures
            match format_spec_reads(cs@, i as int) {
                Some((v, j)) => r matches Some((f, k)) && f@ == v && k == j && i <= k <= cs.len(),
                None => r is None,
            },
    {
        let (fill_align, i1) = match fill_align(cs, i) {
            Some((v, j)) => (Some(v), j),
            None => (None, i),
        };
        let (sign, i2) = match Sign::parse(cs, i1) {
            Some((v, j)) => (Some(v), j),
            None => (None, i1),
        };
        let (alt_form, i3) = if i2 < cs.len() && cs[i2] == '#' {
            (true, i2 + 1)
        } else {
            (false, i2)
        };
        let (zero, i4) = if i3 < cs.len() && cs[i3] == '0' {
            (true, i3 + 1)
        } else {
            (false, i3)
        };
        if i4 >= cs.len() {
            return None;
        }
        let (width, i5) = match Count::parse(input, cs, i4) {
            Some((v, j)) => (Some(v), j),
            None => (None, i4),
        };
        let mut precision: Option<Precision> = None;
        let mut i6 = i5;
        if i5 < cs.len() && cs[i5] == '.' {
            if i5 + 1 >= cs.len() {
                return None;
            }
            if let Some((p, j)) = Precision::parse(input, cs, i5 + 1) {
                precision = Some(p);
                i6 = j;
            }
        }
        match Type::parse(cs, i6) {
            None => None,
            Some((tpe, i7)) => {
                let spec = FormatSpec {
                    fill_align,
                    sign,
                    alt_form,
                    sign_aware_zero_pad: zero,
                    width,
                    precision,
                    tpe,
                };
                Some((spec, i7))
            },
        }
    }
}

impl Format {
    /// Reads a format (`{argument[:spec]}`) at `i`.
    pub fn parse(input: &str, cs: &Vec<char>, i: usize) -> (r: Option<(Format, usize)>)
        requires
            cs@ == input@,
            i <= cs.len(),
        ensures
            r is Some <==> format_reads(cs@, i as int) is Some,
            r matches Some((f, j)) ==> format_reads(cs@, i as int) == Some((f@, j as int)) && i < j
                <= cs.len(),
    {
        if !(i < cs.len() && cs[i] == '{') {
            return None;
        }
        match Argument::parse(input, cs, i + 1) {
            None => None,
            Some((argument, j)) => {
                let (fmt_spec, k) = if j < cs.len() && cs[j] == ':' {
                    match FormatSpec::parse(input, cs, j + 1) {
                        Some(read) => read,
                        None => {
                            return None;
                        },
                    }
                } else {
                    (FormatSpec::default(), j)
                };
                let m = skip_multispace(cs, k);
                if m < cs.len() && cs[m] == '}' {
                    Some((Format { argument, fmt_spec }, m + 1))
                } else {
                    None
                }
            },
        }
    }

    /// The argument that this format fills.
    pub fn named_field(&self) -> (r: &Argument)
        ensures
            r == &self.argument,
    {
        &self.argument
    }
}

impl FormatString {
    /// Parses a whole format string. On success the rest of the input is empty; otherwise
    /// the error gives the char offset at which the grammar could read no further.
    pub fn parse(input: &str) -> (r: Result<(&str, FormatString), FormatError>)
        ensures
            match format_string_reads(input@) {
                Ok(v) => r matches Ok((rest, f)) && f@ == v && rest@.len() == 0,
                Err(k) => r matches Err(e) && e.offset == k,
            },
    {
        let cs = chars_of(input);
        let (text0, i) = text(input, &cs, 0);
        let ghost s = cs@;
        let mut fragments: Vec<(Format, String)> = Vec::new();
        let mut pos = i;
        assert(fragments_view(fragments@) =~= Seq::<(FormatView, Seq<char>)>::empty());
        loop
            invariant
                cs@ == input@,
                s == cs@,
                i <= pos <= cs.len(),
                fragments_view(fragments@) + fragments_reads(s, pos as int).0 == fragments_reads(
                    s,
                    i as int,
                ).0,
                fragments_reads(s, pos as int).1 == fragments_reads(s, i as int).1,
            ensures
                format_reads(s, pos as int) is None,
            decreases cs.len() - pos,
        {
            match Format::parse(input, &cs, pos) {
                Some((f, j)) => {
                    let (t, k) = text(input, &cs, j);
                    let ghost fv = f@;
                    let ghost old_fr = fragments@;
                    fragments.push((f, t));
                    proof {
                        let rest = fragments_reads(s, k as int);
                        assert(fragments_reads(s, pos as int).0 == seq![(fv, t@)] + rest.0);
                        assert(fragments_view(fragments@) =~= fragments_view(old_fr) + seq![
                            (fv, t@),
                        ]);
                        assert(fragments_view(fragments@) + rest.0 =~= fragments_view(old_fr) + (
                        seq![(fv, t@)] + rest.0));
                    }
                    pos = k;
                },
                None => {
                    break ;
                },
            }
        }
        assert(fragments_view(fragments@) =~= fragments_view(fragments@) + fragments_reads(
            s,
            pos as int,
        ).0);
        if pos == cs.len() {
            let rest = input.substring_char(pos, pos);
            Ok((rest, FormatString { text: text0, fragments }))
        } else {
            Err(FormatError { offset: pos })
        }
    }

    /// The argument of each format, in order.
    pub fn named_fields(&self) -> (r: Vec<Argument>)
        ensures
            r@.len() == self.fragments@.len(),
            forall|k: int| 0 <= k < r@.len() ==> r@[k] == self.fragments@[k].0.argument,
    {
        let mut r: Vec<Argument> = Vec::new();
        for k in 0..self.fragments.len()
            invariant
                r@.len() == k,
                forall|m: int| 0 <= m < k ==> r@[m] == self.fragments@[m].0.argument,
        {
            r.push(self.fragments[k].0.named_field().clone());
        }
        r
    }
}

} // verus!
