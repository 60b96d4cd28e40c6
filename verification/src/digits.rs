//! Digits in a radix: what a run of digits means, and how a number is written.
use vstd::prelude::*;
use vstd::arithmetic::div_mod::{lemma_div_decreases, lemma_fundamental_div_mod, lemma_mod_bound};

verus! {

/// The value of `c` as a digit (`0-9`, then `a-z` / `A-Z` from ten on); 36 for any other char.
pub open spec fn digit_value(c: char) -> nat {
    let u = c as u32;
    if 48 <= u && u <= 57 {
        (u - 48) as nat
    } else if 97 <= u && u <= 122 {
        (u - 97 + 10) as nat
    } else if 65 <= u && u <= 90 {
        (u - 65 + 10) as nat
    } else {
        36
    }
}

/// `c` is a digit of the given radix.
pub open spec fn is_radix_digit(c: char, radix: nat) -> bool {
    digit_value(c) < radix
}

/// Every char of `s` is a digit of the radix.
pub open spec fn all_radix_digits(s: Seq<char>, radix: nat) -> bool {
    forall|i: int| 0 <= i < s.len() ==> is_radix_digit(#[trigger] s[i], radix)
}

/// The length of the longest prefix of `s` made of digits of the radix.
pub open spec fn digit_run(s: Seq<char>, radix: nat) -> nat
    decreases s.len(),
{
    if s.len() > 0 && is_radix_digit(s[0], radix) {
        1 + digit_run(s.drop_first(), radix)
    } else {
        0
    }
}

/// The number that the digits of `s` denote, most significant first.
pub open spec fn digits_value(s: Seq<char>, radix: nat) -> nat
    decreases s.len(),
{
    if s.len() == 0 {
        0
    } else {
        digits_value(s.drop_last(), radix) * radix + digit_value(s.last())
    }
}

/// Reading an unsigned number in the radix at the start of `s`: the longest run of
/// digits is taken; it must not be empty and its value must not exceed `max`.
/// The result is the number of chars read and the value.
pub open spec fn radix_parse(s: Seq<char>, radix: nat, max: nat) -> Option<(nat, nat)> {
    let k = digit_run(s, radix);
    if k > 0 && digits_value(s.take(k as int), radix) <= max {
        Some((k, digits_value(s.take(k as int), radix)))
    } else {
        None
    }
}

/// Reading a signed decimal number at the start of `s`: an optional `-` or `+`, then the
/// longest run of decimal digits, which must not be empty; the value must lie in
/// `min..=max`.
pub open spec fn signed_parse(s: Seq<char>, min: int, max: int) -> Option<(nat, int)> {
    let neg = s.len() > 0 && s[0] == '-';
    let off: int = if s.len() > 0 && (s[0] == '-' || s[0] == '+') { 1 } else { 0 };
    let t = s.skip(off);
    let k = digit_run(t, 10);
    let mag = digits_value(t.take(k as int), 10);
    let v: int = if neg { -mag } else { mag as int };
    if k > 0 && min <= v && v <= max {
        Some(((off + k) as nat, v))
    } else {
        None
    }
}

/// The char that writes the digit `d` (lower-case letters from ten on unless `upper`).
pub open spec fn digit_char(d: nat, upper: bool) -> char {
    if d < 10 {
        (48 + d) as char
    } else if upper {
        (65 + d - 10) as char
    } else {
        (97 + d - 10) as char
    }
}

/// How `n` is written in the radix, without leading zeros (as `{}`, `{:x}`, `{:X}`,
/// `{:o}` and `{:b}` write it).
pub open spec fn radix_repr(n: nat, radix: nat, upper: bool) -> Seq<char>
    decreases n,
{
    if radix < 2 || n < radix {
        seq![digit_char(n, upper)]
    } else {
        proof {
            lemma_div_decreases(n as int, radix as int);
        }
        radix_repr(n / radix, radix, upper).push(digit_char(n % radix, upper))
    }
}

/// How a signed number is written in decimal (`{}`): a `-` before negative numbers.
pub open spec fn signed_repr(v: int) -> Seq<char> {
    if v < 0 {
        seq!['-'] + radix_repr((-v) as nat, 10, false)
    } else {
        radix_repr(v as nat, 10, false)
    }
}

pub proof fn lemma_digit_char(d: nat, radix: nat, upper: bool)
    requires
        d < radix,
        radix <= 36,
    ensures
        digit_value(digit_char(d, upper)) == d,
        is_radix_digit(digit_char(d, upper), radix),
{
}

pub proof fn lemma_repr(n: nat, radix: nat, upper: bool)
    requires
        2 <= radix <= 36,
    ensures
        radix_repr(n, radix, upper).len() > 0,
        all_radix_digits(radix_repr(n, radix, upper), radix),
        digits_value(radix_repr(n, radix, upper), radix) == n,
    decreases n,
{
    if n < radix {
        lemma_digit_char(n, radix, upper);
        let s = radix_repr(n, radix, upper);
        assert(s.drop_last() =~= Seq::<char>::empty());
        assert(digits_value(s, radix) == digits_value(s.drop_last(), radix) * radix + digit_value(s.last()));
        assert(0 * radix == 0) by (nonlinear_arith);
    } else {
        lemma_div_decreases(n as int, radix as int);
        lemma_mod_bound(n as int, radix as int);
        lemma_fundamental_div_mod(n as int, radix as int);
        lemma_repr(n / radix, radix, upper);
        lemma_digit_char(n % radix, radix, upper);
        let p = radix_repr(n / radix, radix, upper);
        let s = radix_repr(n, radix, upper);
        assert(s.drop_last() =~= p);
        assert(s.last() == digit_char(n % radix, upper));
        assert(digits_value(s, radix) == digits_value(p, radix) * radix + n % radix);
        assert((n / radix) * radix == radix * (n / radix)) by (nonlinear_arith);
        assert(n == radix * (n / radix) + n % radix);
    }
}

/// A run of digits followed by something that is not a digit is read whole.
pub proof fn lemma_digit_run_concat(a: Seq<char>, b: Seq<char>, radix: nat)
    requires
        all_radix_digits(a, radix),
        b.len() == 0 || !is_radix_digit(b[0], radix),
    ensures
        digit_run(a + b, radix) == a.len(),
        (a + b).take(a.len() as int) == a,
    decreases a.len(),
{
    if a.len() == 0 {
        assert(a + b =~= b);
    } else {
        lemma_digit_run_concat(a.drop_first(), b, radix);
        assert((a + b).drop_first() =~= a.drop_first() + b);
    }
    assert((a + b).take(a.len() as int) =~= a);
}

/// The digit run is a prefix of digits, followed by a non-digit or the end.
pub proof fn lemma_digit_run_bounds(s: Seq<char>, radix: nat)
    ensures
        digit_run(s, radix) <= s.len(),
        all_radix_digits(s.take(digit_run(s, radix) as int), radix),
        digit_run(s, radix) < s.len() ==> !is_radix_digit(s[digit_run(s, radix) as int], radix),
    decreases s.len(),
{
    if s.len() > 0 && is_radix_digit(s[0], radix) {
        lemma_digit_run_bounds(s.drop_first(), radix);
        let k = digit_run(s, radix) as int;
        assert forall|i: int| 0 <= i < k implies is_radix_digit(#[trigger] s.take(k)[i], radix) by {
            if i > 0 {
                assert(s.take(k)[i] == s.drop_first().take(k - 1)[i - 1]);
            }
        }
    } else {
        assert forall|i: int| 0 <= i < 0 implies is_radix_digit(#[trigger] s.take(0)[i], radix) by {}
    }
}

/// Reading back what `radix_repr` wrote gives the number, and nothing more is read.
pub proof fn lemma_radix_parse_repr(n: nat, radix: nat, upper: bool, max: nat, rest: Seq<char>)
    requires
        2 <= radix <= 36,
        n <= max,
        rest.len() == 0 || !is_radix_digit(rest[0], radix),
    ensures
        radix_parse(radix_repr(n, radix, upper) + rest, radix, max) == Some(
            (radix_repr(n, radix, upper).len(), n),
        ),
{
    lemma_repr(n, radix, upper);
    lemma_digit_run_concat(radix_repr(n, radix, upper), rest, radix);
}

/// Reading back what `signed_repr` wrote gives the number.
pub proof fn lemma_signed_parse_repr(v: int, min: int, max: int, rest: Seq<char>)
    requires
        min <= v <= max,
        rest.len() == 0 || !is_radix_digit(rest[0], 10),
    ensures
        signed_parse(signed_repr(v) + rest, min, max) == Some((signed_repr(v).len(), v)),
{
    let m: nat = if v < 0 { (-v) as nat } else { v as nat };
    let r = radix_repr(m, 10, false);
    lemma_repr(m, 10, false);
    lemma_digit_run_concat(r, rest, 10);
    let s = signed_repr(v) + rest;
    if v < 0 {
        assert(s.skip(1) =~= r + rest);
        assert(s[0] == '-');
    } else {
        assert(s =~= r + rest);
        assert(digit_value(r[0]) < 10);
        assert(r[0] != '-' && r[0] != '+');
        assert(s.skip(0) =~= s);
    }
}

} // verus!
