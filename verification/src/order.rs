//! The order of arguments (positions before names; positions by number, names by their
//! chars, as `Ord` on `Argument` orders them), and sorting with duplicates removed.
use vstd::prelude::*;
use crate::fmt_string::{Argument, ArgumentView};
use crate::text::chars_of;

verus! {

/// Lexicographic order on sequences of chars, by code point (the order of `str`).
pub open spec fn chars_lt(a: Seq<char>, b: Seq<char>) -> bool
    decreases a.len(),
{
    if a.len() == 0 {
        b.len() > 0
    } else if b.len() == 0 {
        false
    } else if (a[0] as int) < (b[0] as int) {
        true
    } else if a[0] == b[0] {
        chars_lt(a.drop_first(), b.drop_first())
    } else {
        false
    }
}

/// The order of arguments: every position comes before every name.
pub open spec fn arg_lt(a: ArgumentView, b: ArgumentView) -> bool {
    match (a, b) {
        (ArgumentView::Intiger(x), ArgumentView::Intiger(y)) => x < y,
        (ArgumentView::Intiger(_), ArgumentView::Identifier(_)) => true,
        (ArgumentView::Identifier(_), ArgumentView::Intiger(_)) => false,
        (ArgumentView::Identifier(x), ArgumentView::Identifier(y)) => chars_lt(x, y),
    }
}

/// The views of a sequence of arguments.
pub open spec fn args_view(v: Seq<Argument>) -> Seq<ArgumentView> {
    v.map_values(|a: Argument| a@)
}

/// Each element comes strictly before the next: sorted, with no element twice.
pub open spec fn strictly_sorted(v: Seq<ArgumentView>) -> bool {
    forall|i: int, j: int| 0 <= i < j < v.len() ==> arg_lt(#[trigger] v[i], #[trigger] v[j])
}

pub proof fn lemma_chars_lt_irreflexive(a: Seq<char>)
    ensures
        !chars_lt(a, a),
    decreases a.len(),
{
    if a.len() > 0 {
        lemma_chars_lt_irreflexive(a.drop_first());
    }
}

pub proof fn lemma_chars_lt_transitive(a: Seq<char>, b: Seq<char>, c: Seq<char>)
    requires
        chars_lt(a, b),
        chars_lt(b, c),
    ensures
        chars_lt(a, c),
    decreases a.len(),
{
    if a.len() > 0 && b.len() > 0 && c.len() > 0 && a[0] == b[0] && b[0] == c[0] {
        lemma_chars_lt_transitive(a.drop_first(), b.drop_first(), c.drop_first());
    }
}

pub proof fn lemma_chars_lt_total(a: Seq<char>, b: Seq<char>)
    requires
        a != b,
    ensures
        chars_lt(a, b) || chars_lt(b, a),
    decreases a.len(),
{
    if a.len() > 0 && b.len() > 0 {
        if a[0] == b[0] {
            if a.drop_first() == b.drop_first() {
                assert(a =~= seq![a[0]] + a.drop_first());
                assert(b =~= seq![b[0]] + b.drop_first());
            }
            lemma_chars_lt_total(a.drop_first(), b.drop_first());
        } else {
            assert((a[0] as int) != (b[0] as int));
        }
    } else if a.len() == 0 && b.len() == 0 {
        assert(a =~= b);
    }
}

pub proof fn lemma_chars_lt_asymmetric(a: Seq<char>, b: Seq<char>)
    requires
        chars_lt(a, b),
    ensures
        !chars_lt(b, a),
{
    if chars_lt(b, a) {
        lemma_chars_lt_transitive(a, b, a);
        lemma_chars_lt_irreflexive(a);
    }
}

/// `arg_lt` is a strict total order.
pub proof fn lemma_arg_lt_order(a: ArgumentView, b: ArgumentView, c: ArgumentView)
    ensures
        !arg_lt(a, a),
        arg_lt(a, b) && arg_lt(b, c) ==> arg_lt(a, c),
        a != b ==> arg_lt(a, b) || arg_lt(b, a),
        arg_lt(a, b) ==> !arg_lt(b, a),
{
    match a {
        ArgumentView::Identifier(x) => {
            lemma_chars_lt_irreflexive(x);
        },
        _ => {},
    }
    match (a, b, c) {
        (
            ArgumentView::Identifier(x),
            ArgumentView::Identifier(y),
            ArgumentView::Identifier(z),
        ) => {
            if chars_lt(x, y) && chars_lt(y, z) {
                lemma_chars_lt_transitive(x, y, z);
            }
        },
        _ => {},
    }
    match (a, b) {
        (ArgumentView::Identifier(x), ArgumentView::Identifier(y)) => {
            if x != y {
                lemma_chars_lt_total(x, y);
            }
            if chars_lt(x, y) {
                lemma_chars_lt_asymmetric(x, y);
            }
        },
        _ => {},
    }
}

/// `a` comes before `b` in the order of `str`.
fn str_lt(a: &str, b: &str) -> (r: bool)
    ensures
        r == chars_lt(a@, b@),
{
    let x = chars_of(a);
    let y = chars_of(b);
    let mut i: usize = 0;
    assert(x@.skip(0) =~= x@);
    assert(y@.skip(0) =~= y@);
    while i < x.len() && i < y.len() && x[i] == y[i]
        invariant
            i <= x.len(),
            i <= y.len(),
            chars_lt(x@, y@) == chars_lt(x@.skip(i as int), y@.skip(i as int)),
            x@ == a@,
            y@ == b@,
        decreases x.len() - i,
    {
        assert(x@.skip(i as int).drop_first() =~= x@.skip(i + 1));
        assert(y@.skip(i as int).drop_first() =~= y@.skip(i + 1));
        i = i + 1;
    }
    if i == x.len() {
        i < y.len()
    } else if i == y.len() {
        false
    } else {
        x[i] < y[i]
    }
}

impl Argument {
    /// `self` comes before `other` (the order of the derived `Ord`).
    pub fn lt(&self, other: &Argument) -> (r: bool)
        ensures
            r == arg_lt(self@, other@),
    {
        match (self, other) {
            (Argument::Intiger(x), Argument::Intiger(y)) => *x < *y,
            (Argument::Intiger(_), Argument::Identifier(_)) => true,
            (Argument::Identifier(_), Argument::Intiger(_)) => false,
            (Argument::Identifier(x), Argument::Identifier(y)) => str_lt(x.as_str(), y.as_str()),
        }
    }

    /// `self` and `other` are the same argument.
    pub fn same(&self, other: &Argument) -> (r: bool)
        ensures
            r == (self@ == other@),
    {
        match (self, other) {
            (Argument::Intiger(x), Argument::Intiger(y)) => *x == *y,
            (Argument::Identifier(x), Argument::Identifier(y)) => x.eq(y),
            _ => false,
        }
    }

    /// Returns `true` if the argument is an `Intiger`.
    pub fn is_intiger(&self) -> (r: bool)
        ensures
            r == self is Intiger,
    {
        match self {
            Argument::Intiger(_) => true,
            _ => false,
        }
    }

    /// The position, if the argument is an `Intiger`.
    pub fn as_intiger(&self) -> (r: Option<&usize>)
        ensures
            r == (match self {
                Argument::Intiger(v) => Some(v),
                _ => None,
            }),
    {
        match self {
            Argument::Intiger(v) => Some(v),
            _ => None,
        }
    }

    /// Returns `true` if the argument is an `Identifier`.
    pub fn is_identifier(&self) -> (r: bool)
        ensures
            r == self is Identifier,
    {
        match self {
            Argument::Identifier(_) => true,
            _ => false,
        }
    }

    /// The name, if the argument is an `Identifier`.
    pub fn as_identifier(&self) -> (r: Option<&String>)
        ensures
            r == (match self {
                Argument::Identifier(v) => Some(v),
                _ => None,
            }),
    {
        match self {
            Argument::Identifier(v) => Some(v),
            _ => None,
        }
    }
}

proof fn lemma_push_contains(s: Seq<ArgumentView>, a: ArgumentView, x: ArgumentView)
    ensures
        s.push(a).contains(x) <==> s.contains(x) || x == a,
{
    if s.push(a).contains(x) {
        let i = choose|i: int| 0 <= i < s.push(a).len() && s.push(a)[i] == x;
        if i < s.len() {
            assert(s[i] == x);
        }
    }
    if s.contains(x) {
        let i = choose|i: int| 0 <= i < s.len() && s[i] == x;
        assert(s.push(a)[i] == x);
    }
    if x == a {
        assert(s.push(a)[s.len() as int] == a);
    }
}

/// The arguments, sorted, each once (what `sort` then `dedup` leave of them).
pub fn sorted_unique(args: &Vec<Argument>) -> (r: Vec<Argument>)
    ensures
        strictly_sorted(args_view(r@)),
        forall|x: ArgumentView| args_view(r@).contains(x) <==> args_view(args@).contains(x),
{
    let mut out: Vec<Argument> = Vec::new();
    for k in 0..args.len()
        invariant
            strictly_sorted(args_view(out@)),
            forall|x: ArgumentView|
                args_view(out@).contains(x) <==> args_view(args@.take(k as int)).contains(x),
    {
        let a = &args[k];
        let ghost vs = args_view(out@);
        let mut p: usize = 0;
        while p < out.len() && out[p].lt(a)
            invariant
                p <= out.len(),
                vs == args_view(out@),
                forall|i: int| 0 <= i < p ==> arg_lt(vs[i], a@),
            decreases out.len() - p,
        {
            p = p + 1;
        }
        assert(args_view(args@.take(k + 1)) =~= args_view(args@.take(k as int)).push(a@));
        if p < out.len() && out[p].same(a) {
            assert forall|x: ArgumentView|
                args_view(out@).contains(x) <==> args_view(args@.take(k + 1)).contains(x) by {
                lemma_push_contains(args_view(args@.take(k as int)), a@, x);
                if x == a@ {
                    assert(vs[p as int] == a@);
                }
            }
        } else {
            out.insert(p, a.clone());
            let ghost ws = args_view(out@);
            assert(ws =~= vs.insert(p as int, a@));
            assert forall|i: int, j: int| 0 <= i < j < ws.len() implies arg_lt(
                #[trigger] ws[i],
                #[trigger] ws[j],
            ) by {
                if p < vs.len() {
                    lemma_arg_lt_order(vs[p as int], a@, a@);
                }
                if i < p && j > p {
                    lemma_arg_lt_order(vs[i], a@, vs[j - 1]);
                } else if i == p && j > p + 1 {
                    lemma_arg_lt_order(a@, vs[p as int], vs[j - 1]);
                }
            }
            assert forall|x: ArgumentView|
                ws.contains(x) <==> args_view(args@.take(k + 1)).contains(x) by {
                lemma_push_contains(args_view(args@.take(k as int)), a@, x);
                if x == a@ {
                    assert(ws[p as int] == a@);
                }
                if ws.contains(x) {
                    let i = choose|i: int| 0 <= i < ws.len() && ws[i] == x;
                    if i < p {
                        assert(vs[i] == x);
                    } else if i > p {
                        assert(vs[i - 1] == x);
                    }
                }
                if vs.contains(x) {
                    let i = choose|i: int| 0 <= i < vs.len() && vs[i] == x;
                    if i < p {
                        assert(ws[i] == x);
                    } else {
                        assert(ws[i + 1] == x);
                    }
                }
            }
        }
    }
    assert(args@.take(args.len() as int) =~= args@);
    out
}

} // verus!
