//! Repeated fields: along every alternative of a derived parser, a field read a second
//! time is checked against the value read first (a verifier step) rather than read again.
use vstd::prelude::*;
use crate::codegen::{
    derived_parser, enum_alternatives, marker_of, spec_check, to_nom_view, variant_path, NomView,
};
use crate::fmt_string::{ArgumentView, FormatStringView, FormatView};
use crate::ir::{
    chain, chunks20, collapse, from_fmt_view, lemma_group_count, normalize_all, normalize_view, regroup, tag_adjust_all,
    tag_adjust_view, verifier_start, verifiers_all, verifiers_view, wrap_pieces, IRView,
};
use crate::laws::{group_end, lemma_normalize_all};
use crate::names::binding_name;

verus! {

/// The alternatives of a parser in the intermediate form, read left to right through its
/// `Alt` steps, each as the fields it reads.
pub open spec fn parse_lines(ir: IRView) -> Seq<Seq<(ArgumentView, bool)>>
    decreases ir,
{
    match ir {
        IRView::Tag(_, inner) => parse_lines(*inner),
        IRView::Whitespace(inner) => parse_lines(*inner),
        IRView::Parse(_, a, inner, v) => prefix_lines(parse_lines(*inner), (a, v)),
        IRView::Construct(..) => seq![Seq::empty()],
        IRView::Alt(vs) => parse_lines_all(vs),
    }
}

pub open spec fn parse_lines_all(vs: Seq<IRView>) -> Seq<Seq<(ArgumentView, bool)>>
    decreases vs,
{
    if vs.len() == 0 {
        Seq::empty()
    } else {
        parse_lines_all(vs.subrange(0, vs.len() - 1)) + parse_lines(vs[vs.len() - 1])
    }
}

/// Each line with `step` read before it.
pub open spec fn prefix_lines(
    ls: Seq<Seq<(ArgumentView, bool)>>,
    step: (ArgumentView, bool),
) -> Seq<Seq<(ArgumentView, bool)>> {
    ls.map_values(|l: Seq<(ArgumentView, bool)>| seq![step] + l)
}

/// A line as it should be marked, given the arguments `seen` before it: a step is a
/// verifier when it was one already, when its argument is in `seen`, or when an earlier
/// step of the line reads the same argument.
pub open spec fn marked(l: Seq<(ArgumentView, bool)>, seen: Seq<ArgumentView>) -> Seq<
    (ArgumentView, bool),
> {
    Seq::new(
        l.len(),
        |k: int|
            (
                l[k].0,
                l[k].1 || seen.contains(l[k].0) || exists|j: int| 0 <= j < k && #[trigger] l[j].0
                    == l[k].0,
            ),
    )
}

pub open spec fn marked_all(ls: Seq<Seq<(ArgumentView, bool)>>, seen: Seq<ArgumentView>) -> Seq<
    Seq<(ArgumentView, bool)>,
> {
    ls.map_values(|l: Seq<(ArgumentView, bool)>| marked(l, seen))
}

proof fn lemma_seen_cons(a: ArgumentView, seen: Seq<ArgumentView>, x: ArgumentView)
    ensures
        (seq![a] + seen).contains(x) <==> (x == a || seen.contains(x)),
{
    let s = seq![a] + seen;
    if s.contains(x) {
        let k = choose|k: int| 0 <= k < s.len() && s[k] == x;
        if k > 0 {
            assert(seen[k - 1] == x);
        }
    }
    if x == a {
        assert(s[0] == x);
    }
    if seen.contains(x) {
        let k = choose|k: int| 0 <= k < seen.len() && seen[k] == x;
        assert(s[k + 1] == x);
    }
}

proof fn lemma_marked_cons(a: ArgumentView, v: bool, l: Seq<(ArgumentView, bool)>, seen: Seq<ArgumentView>)
    ensures
        seq![(a, v || seen.contains(a))] + marked(l, seq![a] + seen) == marked(seq![(a, v)] + l, seen),
{
    let lhs = seq![(a, v || seen.contains(a))] + marked(l, seq![a] + seen);
    let l2 = seq![(a, v)] + l;
    let rhs = marked(l2, seen);
    assert forall|k: int| 0 <= k < lhs.len() implies lhs[k] == rhs[k] by {
        if k == 0 {
            assert(l2[0] == (a, v));
            assert(!(exists|j: int| 0 <= j < 0 && #[trigger] l2[j].0 == l2[0].0));
            assert(rhs[0] == (a, v || seen.contains(a)));
        } else {
            let x = l[k - 1].0;
            assert(l2[k] == l[k - 1]);
            lemma_seen_cons(a, seen, x);
            let e1 = exists|j: int| 0 <= j < k - 1 && #[trigger] l[j].0 == x;
            let e2 = exists|j: int| 0 <= j < k && #[trigger] l2[j].0 == x;
            if e1 {
                let j = choose|j: int| 0 <= j < k - 1 && #[trigger] l[j].0 == x;
                assert(l2[j + 1].0 == x);
                assert(e2);
            }
            if x == a {
                assert(l2[0].0 == x);
                assert(e2);
            }
            if e2 {
                let j = choose|j: int| 0 <= j < k && #[trigger] l2[j].0 == x;
                if j > 0 {
                    assert(l2[j] == l[j - 1]);
                    assert(l[j - 1].0 == x);
                    assert(e1);
                } else {
                    assert(x == a);
                }
            }
            assert(rhs[k] == (x, l[k - 1].1 || seen.contains(x) || e2));
            assert(lhs[k] == marked(l, seq![a] + seen)[k - 1]);
            assert(marked(l, seq![a] + seen)[k - 1] == (x, l[k - 1].1 || (seq![a] + seen).contains(x)
                || e1));
            assert(e2 <==> (x == a || e1));
        }
    }
    assert(lhs =~= rhs);
}

proof fn lemma_verifiers_all_len(vs: Seq<IRView>, seen: Seq<ArgumentView>)
    ensures
        verifiers_all(vs, seen).len() == vs.len(),
        forall|k: int|
            0 <= k < vs.len() ==> #[trigger] verifiers_all(vs, seen)[k] == verifiers_view(vs[k], seen),
    decreases vs.len(),
{
    if vs.len() > 0 {
        let p = vs.subrange(0, vs.len() - 1);
        lemma_verifiers_all_len(p, seen);
        assert forall|k: int|
            0 <= k < vs.len() implies #[trigger] verifiers_all(vs, seen)[k] == verifiers_view(
            vs[k],
            seen,
        ) by {
            if k < vs.len() - 1 {
                assert(p[k] == vs[k]);
            }
        }
    }
}

proof fn lemma_marked_lines_all(vs: Seq<IRView>, seen: Seq<ArgumentView>)
    requires
        forall|k: int|
            0 <= k < vs.len() ==> parse_lines(verifiers_view(#[trigger] vs[k], seen)) == marked_all(
                parse_lines(vs[k]),
                seen,
            ),
    ensures
        parse_lines_all(verifiers_all(vs, seen)) == marked_all(parse_lines_all(vs), seen),
    decreases vs.len(),
{
    if vs.len() == 0 {
        assert(marked_all(parse_lines_all(vs), seen) =~= Seq::<Seq<(ArgumentView, bool)>>::empty());
    } else {
        let n = vs.len() - 1;
        let p = vs.subrange(0, n);
        assert forall|k: int|
            0 <= k < p.len() implies parse_lines(verifiers_view(#[trigger] p[k], seen))
            == marked_all(parse_lines(p[k]), seen) by {
            assert(p[k] == vs[k]);
        }
        lemma_marked_lines_all(p, seen);
        lemma_verifiers_all_len(vs, seen);
        lemma_verifiers_all_len(p, seen);
        let w = verifiers_all(vs, seen);
        assert(w.subrange(0, n) =~= verifiers_all(p, seen));
        assert(w[n] == verifiers_view(vs[n], seen));
        assert(parse_lines_all(w) == parse_lines_all(verifiers_all(p, seen)) + parse_lines(
            verifiers_view(vs[n], seen),
        ));
        assert(marked_all(parse_lines_all(p) + parse_lines(vs[n]), seen) =~= marked_all(
            parse_lines_all(p),
            seen,
        ) + marked_all(parse_lines(vs[n]), seen));
    }
}

proof fn lemma_marked_lines(ir: IRView, seen: Seq<ArgumentView>)
    ensures
        parse_lines(verifiers_view(ir, seen)) == marked_all(parse_lines(ir), seen),
    decreases ir,
{
    match ir {
        IRView::Tag(t, inner) => {
            lemma_marked_lines(*inner, seen);
            assert(verifiers_view(ir, seen) == IRView::Tag(t, Box::new(verifiers_view(*inner, seen))));
        },
        IRView::Whitespace(inner) => {
            lemma_marked_lines(*inner, seen);
            assert(verifiers_view(ir, seen) == IRView::Whitespace(
                Box::new(verifiers_view(*inner, seen)),
            ));
        },
        IRView::Parse(sp, a, inner, v) => {
            let seen2 = seq![a] + seen;
            lemma_marked_lines(*inner, seen2);
            let li = parse_lines(*inner);
            let v2 = v || seen.contains(a);
            assert(verifiers_view(ir, seen) == IRView::Parse(
                sp,
                a,
                Box::new(verifiers_view(*inner, seen2)),
                v2,
            ));
            let lhs = prefix_lines(marked_all(li, seen2), (a, v2));
            let rhs = marked_all(prefix_lines(li, (a, v)), seen);
            assert forall|p: int| 0 <= p < lhs.len() implies lhs[p] == rhs[p] by {
                lemma_marked_cons(a, v, li[p], seen);
            }
            assert(lhs =~= rhs);
        },
        IRView::Construct(..) => {
            let e = Seq::<(ArgumentView, bool)>::empty();
            assert(marked(e, seen) =~= e);
            assert(marked_all(seq![e], seen) =~= seq![e]);
        },
        IRView::Alt(vs) => {
            assert forall|k: int|
                0 <= k < vs.len() implies parse_lines(verifiers_view(#[trigger] vs[k], seen))
                == marked_all(parse_lines(vs[k]), seen) by {
                lemma_marked_lines(vs[k], seen);
            }
            lemma_marked_lines_all(vs, seen);
        },
    }
}

/// Marking repeated fields (`insert_verifiers`) keeps every alternative of the parser, in
/// order, with the same fields in the same order; and in each alternative a step becomes a
/// verifier exactly when it was one, or its argument is in `seen`, or an earlier step of
/// that same alternative reads the same argument. The alternatives of an `Alt` step are
/// each marked from the same `seen`: an enum's variants are marked as their own chains.
pub proof fn law_verifiers_mark_repeats(ir: IRView, seen: Seq<ArgumentView>)
    ensures
        parse_lines(verifiers_view(ir, seen)).len() == parse_lines(ir).len(),
        forall|p: int|
            #![trigger parse_lines(verifiers_view(ir, seen))[p]]
            0 <= p < parse_lines(ir).len() ==> {
                let l = parse_lines(ir)[p];
                let m = parse_lines(verifiers_view(ir, seen))[p];
                &&& m.len() == l.len()
                &&& forall|k: int|
                    0 <= k < l.len() ==> (#[trigger] m[k]).0 == l[k].0 && (m[k].1 <==> (l[k].1
                        || seen.contains(l[k].0) || exists|j: int|
                        0 <= j < k && #[trigger] l[j].0 == l[k].0))
            },
{
    lemma_marked_lines(ir, seen);
}

// ---------------------------------------------------------------------------------------
// The code keeps the marks.

/// Every `Parse` step, in every alternative, has a spec and a type that derived parsers
/// support.
pub open spec fn all_supported(ir: IRView) -> bool
    decreases ir,
{
    match ir {
        IRView::Tag(_, inner) => all_supported(*inner),
        IRView::Whitespace(inner) => all_supported(*inner),
        IRView::Parse(spec, _, inner, _) => spec_check(spec, "!"@) is None && marker_of(spec.tpe)
            is Some && all_supported(*inner),
        IRView::Construct(..) => true,
        IRView::Alt(vs) => forall|k: int| 0 <= k < vs.len() ==> all_supported(#[trigger] vs[k]),
    }
}

/// The alternatives of a parser's code, read left to right through its `Alt` steps, each as
/// the fields it reads: the name each is bound to, and whether that step is a verifier.
pub open spec fn nom_lines(c: NomView) -> Seq<Seq<(Seq<char>, bool)>>
    decreases c,
{
    match c {
        NomView::Tag(_, inner) => nom_lines(*inner),
        NomView::Whitespace(inner) => nom_lines(*inner),
        NomView::Parse(_, b, v, inner) => nom_lines(*inner).map_values(
            |l: Seq<(Seq<char>, bool)>| seq![(b, v)] + l,
        ),
        NomView::Construct(..) => seq![Seq::empty()],
        NomView::Error(..) => seq![Seq::empty()],
        NomView::Alt(vs) => nom_lines_all(vs),
    }
}

pub open spec fn nom_lines_all(vs: Seq<NomView>) -> Seq<Seq<(Seq<char>, bool)>>
    decreases vs,
{
    if vs.len() == 0 {
        Seq::empty()
    } else {
        nom_lines_all(vs.subrange(0, vs.len() - 1)) + nom_lines(vs[vs.len() - 1])
    }
}

/// A line with each argument replaced by the name it is bound to.
pub open spec fn named_line(l: Seq<(ArgumentView, bool)>) -> Seq<(Seq<char>, bool)> {
    l.map_values(|s: (ArgumentView, bool)| (binding_name(s.0), s.1))
}

pub open spec fn named_lines(ls: Seq<Seq<(ArgumentView, bool)>>) -> Seq<Seq<(Seq<char>, bool)>> {
    ls.map_values(|l: Seq<(ArgumentView, bool)>| named_line(l))
}

proof fn lemma_to_nom_all(vs: Seq<IRView>)
    ensures
        crate::codegen::to_nom_all(vs).len() == vs.len(),
        forall|k: int|
            0 <= k < vs.len() ==> #[trigger] crate::codegen::to_nom_all(vs)[k] == to_nom_view(vs[k]),
    decreases vs.len(),
{
    if vs.len() > 0 {
        let p = vs.subrange(0, vs.len() - 1);
        lemma_to_nom_all(p);
        assert forall|k: int|
            0 <= k < vs.len() implies #[trigger] crate::codegen::to_nom_all(vs)[k] == to_nom_view(
            vs[k],
        ) by {
            if k < vs.len() - 1 {
                assert(p[k] == vs[k]);
            }
        }
    }
}

proof fn lemma_nom_lines_all(vs: Seq<IRView>)
    requires
        forall|k: int|
            0 <= k < vs.len() ==> nom_lines(to_nom_view(#[trigger] vs[k])) == named_lines(
                parse_lines(vs[k]),
            ),
    ensures
        nom_lines_all(crate::codegen::to_nom_all(vs)) == named_lines(parse_lines_all(vs)),
    decreases vs.len(),
{
    if vs.len() == 0 {
        assert(named_lines(parse_lines_all(vs)) =~= Seq::<Seq<(Seq<char>, bool)>>::empty());
    } else {
        let n = vs.len() - 1;
        let p = vs.subrange(0, n);
        assert forall|k: int|
            0 <= k < p.len() implies nom_lines(to_nom_view(#[trigger] p[k])) == named_lines(
            parse_lines(p[k]),
        ) by {
            assert(p[k] == vs[k]);
        }
        lemma_nom_lines_all(p);
        lemma_to_nom_all(vs);
        lemma_to_nom_all(p);
        let w = crate::codegen::to_nom_all(vs);
        assert(w.subrange(0, n) =~= crate::codegen::to_nom_all(p));
        assert(nom_lines_all(w) == nom_lines_all(crate::codegen::to_nom_all(p)) + nom_lines(
            to_nom_view(vs[n]),
        ));
        assert(named_lines(parse_lines_all(p) + parse_lines(vs[n])) =~= named_lines(
            parse_lines_all(p),
        ) + named_lines(parse_lines(vs[n])));
    }
}

proof fn lemma_nom_lines(ir: IRView)
    requires
        all_supported(ir),
    ensures
        nom_lines(to_nom_view(ir)) == named_lines(parse_lines(ir)),
    decreases ir,
{
    match ir {
        IRView::Tag(_, inner) => lemma_nom_lines(*inner),
        IRView::Whitespace(inner) => lemma_nom_lines(*inner),
        IRView::Parse(spec, a, inner, v) => {
            lemma_nom_lines(*inner);
            let li = parse_lines(*inner);
            let lhs = nom_lines(to_nom_view(ir));
            let rhs = named_lines(prefix_lines(li, (a, v)));
            assert(lhs == named_lines(li).map_values(
                |l: Seq<(Seq<char>, bool)>| seq![(binding_name(a), v)] + l,
            ));
            assert forall|p: int| 0 <= p < lhs.len() implies lhs[p] == rhs[p] by {
                assert(named_line(seq![(a, v)] + li[p]) =~= seq![(binding_name(a), v)] + named_line(
                    li[p],
                ));
            }
            assert(lhs =~= rhs);
        },
        IRView::Construct(..) => {
            assert(named_line(Seq::<(ArgumentView, bool)>::empty()) =~= Seq::<(Seq<char>, bool)>::empty());
            assert(named_lines(seq![Seq::<(ArgumentView, bool)>::empty()]) =~= seq![
                Seq::<(Seq<char>, bool)>::empty(),
            ]);
        },
        IRView::Alt(vs) => {
            assert forall|k: int|
                0 <= k < vs.len() implies nom_lines(to_nom_view(#[trigger] vs[k])) == named_lines(
                parse_lines(vs[k]),
            ) by {
                lemma_nom_lines(vs[k]);
            }
            lemma_nom_lines_all(vs);
        },
    }
}

/// Turning a parser into code keeps, in every alternative and in order, each field it
/// reads, bound to the field's name, and whether the step is a verifier: positional and
/// named fields alike. (Where every step is supported; an unsupported one becomes a
/// `compile_error!`.)
pub proof fn law_code_keeps_verifiers(ir: IRView)
    requires
        all_supported(ir),
    ensures
        nom_lines(to_nom_view(ir)).len() == parse_lines(ir).len(),
        forall|p: int|
            #![trigger nom_lines(to_nom_view(ir))[p]]
            0 <= p < parse_lines(ir).len() ==> {
                let l = parse_lines(ir)[p];
                let c = nom_lines(to_nom_view(ir))[p];
                &&& c.len() == l.len()
                &&& forall|k: int|
                    0 <= k < l.len() ==> (#[trigger] c[k]).0 == binding_name(l[k].0) && c[k].1
                        == l[k].1
            },
{
    lemma_nom_lines(ir);
}

// ---------------------------------------------------------------------------------------
// The other passes keep the fields.

proof fn lemma_lines_concat(a: Seq<IRView>, b: Seq<IRView>)
    ensures
        parse_lines_all(a + b) == parse_lines_all(a) + parse_lines_all(b),
    decreases b.len(),
{
    if b.len() == 0 {
        assert(a + b =~= a);
        assert(parse_lines_all(a) + parse_lines_all(b) =~= parse_lines_all(a));
    } else {
        let b1 = b.subrange(0, b.len() - 1);
        lemma_lines_concat(a, b1);
        let ab = a + b;
        assert(ab.subrange(0, ab.len() - 1) =~= a + b1);
        assert(ab[ab.len() - 1] == b[b.len() - 1]);
        assert(parse_lines_all(ab) == parse_lines_all(a + b1) + parse_lines(b[b.len() - 1]));
        assert(parse_lines_all(a) + parse_lines_all(b1) + parse_lines(b[b.len() - 1])
            =~= parse_lines_all(a) + (parse_lines_all(b1) + parse_lines(b[b.len() - 1])));
    }
}

proof fn lemma_lines_collapse(ws: Seq<IRView>)
    ensures
        parse_lines(collapse(ws)) == parse_lines_all(ws),
        (forall|k: int| 0 <= k < ws.len() ==> all_supported(#[trigger] ws[k])) ==> all_supported(
            collapse(ws),
        ),
{
    if ws.len() == 1 {
        assert(ws.subrange(0, 0) =~= Seq::<IRView>::empty());
        assert(parse_lines_all(ws) == parse_lines_all(Seq::<IRView>::empty()) + parse_lines(ws[0]));
        assert(Seq::<Seq<(ArgumentView, bool)>>::empty() + parse_lines(ws[0]) =~= parse_lines(
            ws[0],
        ));
    }
}

proof fn lemma_lines_chunks_prefix(ws: Seq<IRView>, k: int)
    requires
        0 <= k <= chunks20(ws).len(),
    ensures
        parse_lines_all(chunks20(ws).subrange(0, k)) == parse_lines_all(
            ws.subrange(0, group_end(ws.len(), k)),
        ),
    decreases k,
{
    lemma_group_count(ws.len());
    let c = chunks20(ws);
    if k == 0 {
        assert(c.subrange(0, 0) =~= Seq::<IRView>::empty());
        assert(ws.subrange(0, 0) =~= Seq::<IRView>::empty());
    } else {
        lemma_lines_chunks_prefix(ws, k - 1);
        let lo = 20 * (k - 1);
        let hi = group_end(ws.len(), k);
        assert(lo < ws.len()) by (nonlinear_arith)
            requires
                k <= c.len(),
                c.len() == ((ws.len() + 19) / 20) as nat,
                lo == 20 * (k - 1),
        ;
        assert(group_end(ws.len(), k - 1) == lo);
        let sub = ws.subrange(lo, hi);
        assert(c[k - 1] == collapse(sub));
        let ck = c.subrange(0, k);
        assert(ck.subrange(0, k - 1) =~= c.subrange(0, k - 1));
        assert(ck[k - 1] == c[k - 1]);
        assert(parse_lines_all(ck) == parse_lines_all(c.subrange(0, k - 1)) + parse_lines(c[k - 1]));
        lemma_lines_collapse(sub);
        lemma_lines_concat(ws.subrange(0, lo), sub);
        assert(ws.subrange(0, lo) + sub =~= ws.subrange(0, hi));
    }
}

proof fn lemma_lines_regroup(ws: Seq<IRView>)
    ensures
        parse_lines_all(regroup(ws)) == parse_lines_all(ws),
        (forall|k: int| 0 <= k < ws.len() ==> all_supported(#[trigger] ws[k])) ==> (forall|k: int|
            0 <= k < regroup(ws).len() ==> all_supported(#[trigger] regroup(ws)[k])),
    decreases ws.len(),
{
    if ws.len() > 20 {
        lemma_group_count(ws.len());
        let c = chunks20(ws);
        lemma_lines_chunks_prefix(ws, c.len() as int);
        assert(c.subrange(0, c.len() as int) =~= c);
        assert(group_end(ws.len(), c.len() as int) == ws.len()) by (nonlinear_arith)
            requires
                c.len() == ((ws.len() + 19) / 20) as nat,
        ;
        assert(ws.subrange(0, ws.len() as int) =~= ws);
        if forall|k: int| 0 <= k < ws.len() ==> all_supported(#[trigger] ws[k]) {
            assert forall|k: int| 0 <= k < c.len() implies all_supported(#[trigger] c[k]) by {
                let hi = if 20 * k + 20 <= ws.len() {
                    20 * k + 20
                } else {
                    ws.len() as int
                };
                let sub = ws.subrange(20 * k, hi);
                assert forall|m: int| 0 <= m < sub.len() implies all_supported(#[trigger] sub[m]) by {
                    assert(sub[m] == ws[20 * k + m]);
                }
                lemma_lines_collapse(sub);
            }
        }
        lemma_lines_regroup(c);
    }
}

proof fn lemma_lines_normalize_all(vs: Seq<IRView>)
    requires
        forall|k: int|
            0 <= k < vs.len() ==> parse_lines(normalize_view(#[trigger] vs[k])) == parse_lines(vs[k]),
    ensures
        parse_lines_all(normalize_all(vs)) == parse_lines_all(vs),
    decreases vs.len(),
{
    if vs.len() > 0 {
        let n = vs.len() - 1;
        let p = vs.subrange(0, n);
        assert forall|k: int|
            0 <= k < p.len() implies parse_lines(normalize_view(#[trigger] p[k])) == parse_lines(
            p[k],
        ) by {
            assert(p[k] == vs[k]);
        }
        lemma_lines_normalize_all(p);
        lemma_normalize_all(p);
        lemma_normalize_all(vs);
        let w = normalize_all(vs);
        assert(w.subrange(0, n) =~= normalize_all(p));
        assert(parse_lines_all(w) == parse_lines_all(normalize_all(p)) + parse_lines(
            normalize_view(vs[n]),
        ));
    }
}

proof fn lemma_lines_normalize(x: IRView)
    ensures
        parse_lines(normalize_view(x)) == parse_lines(x),
        all_supported(x) ==> all_supported(normalize_view(x)),
    decreases x,
{
    match x {
        IRView::Tag(_, inner) => lemma_lines_normalize(*inner),
        IRView::Whitespace(inner) => lemma_lines_normalize(*inner),
        IRView::Parse(_, _, inner, _) => lemma_lines_normalize(*inner),
        IRView::Construct(..) => {},
        IRView::Alt(vs) => {
            assert forall|k: int| 0 <= k < vs.len() implies parse_lines(
                normalize_view(#[trigger] vs[k]),
            ) == parse_lines(vs[k]) && (all_supported(vs[k]) ==> all_supported(
                normalize_view(vs[k]),
            )) by {
                lemma_lines_normalize(vs[k]);
            }
            lemma_lines_normalize_all(vs);
            lemma_normalize_all(vs);
            let ws = normalize_all(vs);
            if all_supported(x) {
                assert forall|k: int| 0 <= k < ws.len() implies all_supported(#[trigger] ws[k]) by {
                    assert(all_supported(vs[k]));
                }
            }
            lemma_lines_regroup(ws);
            lemma_lines_collapse(regroup(ws));
        },
    }
}

proof fn lemma_lines_wrap(ps: Seq<Seq<char>>, cur: IRView, first: bool)
    ensures
        parse_lines(wrap_pieces(ps, cur, first)) == parse_lines(cur),
        all_supported(wrap_pieces(ps, cur, first)) == all_supported(cur),
    decreases ps.len(),
{
    if ps.len() > 0 {
        let c1 = if !first && !(cur is Whitespace) {
            IRView::Whitespace(Box::new(cur))
        } else {
            cur
        };
        let p = ps.last();
        let c2 = if p.len() > 0 {
            IRView::Tag(p, Box::new(c1))
        } else {
            c1
        };
        assert(parse_lines(c1) == parse_lines(cur) && all_supported(c1) == all_supported(cur));
        assert(parse_lines(c2) == parse_lines(c1) && all_supported(c2) == all_supported(c1));
        lemma_lines_wrap(ps.drop_last(), c2, false);
    }
}

proof fn lemma_tag_adjust_all_len(vs: Seq<IRView>)
    ensures
        tag_adjust_all(vs).len() == vs.len(),
        forall|k: int| 0 <= k < vs.len() ==> #[trigger] tag_adjust_all(vs)[k] == tag_adjust_view(vs[k]),
    decreases vs.len(),
{
    if vs.len() > 0 {
        let p = vs.subrange(0, vs.len() - 1);
        lemma_tag_adjust_all_len(p);
        assert forall|k: int|
            0 <= k < vs.len() implies #[trigger] tag_adjust_all(vs)[k] == tag_adjust_view(vs[k]) by {
            if k < vs.len() - 1 {
                assert(p[k] == vs[k]);
            }
        }
    }
}

proof fn lemma_lines_tag_adjust_all(vs: Seq<IRView>)
    requires
        forall|k: int|
            0 <= k < vs.len() ==> parse_lines(tag_adjust_view(#[trigger] vs[k])) == parse_lines(vs[k]),
    ensures
        parse_lines_all(tag_adjust_all(vs)) == parse_lines_all(vs),
    decreases vs.len(),
{
    if vs.len() > 0 {
        let n = vs.len() - 1;
        let p = vs.subrange(0, n);
        assert forall|k: int|
            0 <= k < p.len() implies parse_lines(tag_adjust_view(#[trigger] p[k])) == parse_lines(
            p[k],
        ) by {
            assert(p[k] == vs[k]);
        }
        lemma_lines_tag_adjust_all(p);
        lemma_tag_adjust_all_len(p);
        lemma_tag_adjust_all_len(vs);
        let w = tag_adjust_all(vs);
        assert(w.subrange(0, n) =~= tag_adjust_all(p));
        assert(parse_lines_all(w) == parse_lines_all(tag_adjust_all(p)) + parse_lines(
            tag_adjust_view(vs[n]),
        ));
    }
}

proof fn lemma_lines_tag_adjust(x: IRView)
    ensures
        parse_lines(tag_adjust_view(x)) == parse_lines(x),
        all_supported(tag_adjust_view(x)) == all_supported(x),
    decreases x,
{
    match x {
        IRView::Tag(t, inner) => {
            lemma_lines_tag_adjust(*inner);
            lemma_lines_wrap(crate::text::split_white(t), tag_adjust_view(*inner), true);
        },
        IRView::Whitespace(inner) => lemma_lines_tag_adjust(*inner),
        IRView::Parse(_, _, inner, _) => lemma_lines_tag_adjust(*inner),
        IRView::Construct(..) => {},
        IRView::Alt(vs) => {
            assert forall|k: int| 0 <= k < vs.len() implies parse_lines(
                tag_adjust_view(#[trigger] vs[k]),
            ) == parse_lines(vs[k]) && all_supported(tag_adjust_view(vs[k])) == all_supported(
                vs[k],
            ) by {
                lemma_lines_tag_adjust(vs[k]);
            }
            lemma_lines_tag_adjust_all(vs);
            lemma_tag_adjust_all_len(vs);
            let ws = tag_adjust_all(vs);
            assert(all_supported(tag_adjust_view(x)) == all_supported(x)) by {
                if all_supported(x) {
                    assert forall|k: int| 0 <= k < ws.len() implies all_supported(#[trigger] ws[k]) by {
                        assert(all_supported(vs[k]));
                    }
                }
                if all_supported(tag_adjust_view(x)) {
                    assert(tag_adjust_view(x) == IRView::Alt(ws));
                    assert forall|k: int| 0 <= k < vs.len() implies all_supported(#[trigger] vs[k]) by {
                        assert(all_supported(ws[k]));
                    }
                }
            }
        },
    }
}

proof fn lemma_supported_verifiers(x: IRView, seen: Seq<ArgumentView>)
    ensures
        all_supported(x) ==> all_supported(verifiers_view(x, seen)),
    decreases x,
{
    match x {
        IRView::Tag(_, inner) => lemma_supported_verifiers(*inner, seen),
        IRView::Whitespace(inner) => lemma_supported_verifiers(*inner, seen),
        IRView::Parse(_, a, inner, _) => lemma_supported_verifiers(*inner, seq![a] + seen),
        IRView::Construct(..) => {},
        IRView::Alt(vs) => {
            lemma_verifiers_all_len(vs, seen);
            let ws = verifiers_all(vs, seen);
            assert forall|k: int| 0 <= k < vs.len() implies all_supported(vs[k]) ==> all_supported(
                verifiers_view(#[trigger] vs[k], seen),
            ) by {
                lemma_supported_verifiers(vs[k], seen);
            }
            assert(verifiers_view(x, seen) == IRView::Alt(ws));
            if all_supported(x) {
                assert forall|k: int| 0 <= k < ws.len() implies all_supported(#[trigger] ws[k]) by {
                    assert(all_supported(vs[k]));
                }
            }
        },
    }
}

/// The derived parser checks repeated fields: where every step is supported, its code has
/// the parser's alternatives in order, each reading the same fields in the same order, and
/// a step of an alternative is a verifier exactly when it was marked so already, or an
/// earlier step of that same alternative reads the same field (positional or named). A
/// struct's parser is one alternative; an enum's has one per variant.
pub proof fn law_derived_parser_checks_repeats(ir: IRView)
    requires
        all_supported(ir),
    ensures
        nom_lines(derived_parser(ir)) == named_lines(marked_all(parse_lines(ir), verifier_start())),
{
    let a = tag_adjust_view(ir);
    lemma_lines_tag_adjust(ir);
    let v = verifiers_view(a, verifier_start());
    lemma_marked_lines(a, verifier_start());
    lemma_supported_verifiers(a, verifier_start());
    let n = normalize_view(v);
    lemma_lines_normalize(v);
    lemma_nom_lines(n);
}

// ---------------------------------------------------------------------------------------
// Structs and enums.

/// The fields that a format string reads, in order, none of them a verifier yet.
pub open spec fn format_line(fmt: FormatStringView) -> Seq<(ArgumentView, bool)> {
    fmt.fragments.map_values(|p: (FormatView, Seq<char>)| (p.0.argument, false))
}

/// Every format of the format string has a spec and a type that derived parsers support.
pub open spec fn formats_supported(fmt: FormatStringView) -> bool {
    forall|k: int|
        0 <= k < fmt.fragments.len() ==> spec_check((#[trigger] fmt.fragments[k]).0.fmt_spec, "!"@)
            is None && marker_of(fmt.fragments[k].0.fmt_spec.tpe) is Some
}

proof fn lemma_chain_lines(fr: Seq<(FormatView, Seq<char>)>, leaf: IRView)
    requires
        leaf is Construct,
    ensures
        parse_lines(chain(fr, leaf)) == seq![
            fr.map_values(|p: (FormatView, Seq<char>)| (p.0.argument, false)),
        ],
        (forall|k: int|
            0 <= k < fr.len() ==> spec_check((#[trigger] fr[k]).0.fmt_spec, "!"@) is None
                && marker_of(fr[k].0.fmt_spec.tpe) is Some) ==> all_supported(chain(fr, leaf)),
    decreases fr.len(),
{
    if fr.len() == 0 {
        assert(fr.map_values(|p: (FormatView, Seq<char>)| (p.0.argument, false)) =~= Seq::<
            (ArgumentView, bool),
        >::empty());
    } else {
        let r = fr.drop_first();
        lemma_chain_lines(r, leaf);
        let rest = chain(r, leaf);
        let after = if fr[0].1.len() > 0 {
            IRView::Tag(fr[0].1, Box::new(rest))
        } else {
            rest
        };
        assert(parse_lines(after) == parse_lines(rest));
        assert(all_supported(after) == all_supported(rest));
        let lr = r.map_values(|p: (FormatView, Seq<char>)| (p.0.argument, false));
        let l = fr.map_values(|p: (FormatView, Seq<char>)| (p.0.argument, false));
        assert(l =~= seq![(fr[0].0.argument, false)] + lr);
        assert(prefix_lines(seq![lr], (fr[0].0.argument, false)) =~= seq![l]);
        if forall|k: int|
            0 <= k < fr.len() ==> spec_check((#[trigger] fr[k]).0.fmt_spec, "!"@) is None
                && marker_of(fr[k].0.fmt_spec.tpe) is Some {
            assert forall|k: int|
                0 <= k < r.len() implies spec_check((#[trigger] r[k]).0.fmt_spec, "!"@) is None
                && marker_of(r[k].0.fmt_spec.tpe) is Some by {
                assert(r[k] == fr[k + 1]);
            }
            assert(spec_check(fr[0].0.fmt_spec, "!"@) is None);
        }
    }
}

/// The parser of a struct: one alternative, reading the fields of its format string.
pub proof fn lemma_struct_lines(fmt: FormatStringView, ident: Seq<char>)
    ensures
        parse_lines(from_fmt_view(fmt, ident)) == seq![format_line(fmt)],
        formats_supported(fmt) ==> all_supported(from_fmt_view(fmt, ident)),
{
    let leaf = IRView::Construct(ident, crate::ir::sort_unique(crate::ir::fragment_args(fmt.fragments)));
    lemma_chain_lines(fmt.fragments, leaf);
}

/// The parser that `qparse` derives for a struct whose formats are all supported checks
/// every repeated field: it reads the fields of the format string in order, and a field's
/// step is a verifier exactly when an earlier step reads the same field (positional or
/// named).
pub proof fn law_struct_parser_checks_repeats(fmt: FormatStringView, ident: Seq<char>)
    requires
        formats_supported(fmt),
    ensures
        nom_lines(derived_parser(from_fmt_view(fmt, ident))) == seq![
            named_line(marked(format_line(fmt), verifier_start())),
        ],
{
    lemma_struct_lines(fmt, ident);
    law_derived_parser_checks_repeats(from_fmt_view(fmt, ident));
    assert(marked_all(seq![format_line(fmt)], verifier_start()) =~= seq![
        marked(format_line(fmt), verifier_start()),
    ]);
    assert(named_lines(seq![marked(format_line(fmt), verifier_start())]) =~= seq![
        named_line(marked(format_line(fmt), verifier_start())),
    ]);
}

proof fn lemma_alternative_lines(ws: Seq<IRView>, lines: Seq<Seq<(ArgumentView, bool)>>)
    requires
        ws.len() == lines.len(),
        forall|k: int| 0 <= k < ws.len() ==> parse_lines(#[trigger] ws[k]) == seq![lines[k]],
    ensures
        parse_lines_all(ws) == lines,
    decreases ws.len(),
{
    if ws.len() == 0 {
        assert(lines =~= Seq::<Seq<(ArgumentView, bool)>>::empty());
    } else {
        let n = ws.len() - 1;
        let p = ws.subrange(0, n);
        assert forall|k: int| 0 <= k < p.len() implies parse_lines(#[trigger] p[k]) == seq![
            lines.subrange(0, n)[k],
        ] by {
            assert(p[k] == ws[k]);
        }
        lemma_alternative_lines(p, lines.subrange(0, n));
        assert(lines =~= lines.subrange(0, n) + seq![lines[n]]);
    }
}

/// The parser that `qparse` derives for an enum whose variants' formats are all supported
/// checks repeated fields variant by variant: it has one alternative per variant, in order,
/// each reading that variant's fields in order, and a step is a verifier exactly when an
/// earlier step of the same variant reads the same field.
pub proof fn law_enum_parser_checks_repeats(
    enum_name: Seq<char>,
    variants: Seq<(Seq<char>, FormatStringView)>,
)
    requires
        forall|k: int| 0 <= k < variants.len() ==> formats_supported(#[trigger] variants[k].1),
    ensures
        nom_lines(derived_parser(enum_alternatives(enum_name, variants))) == Seq::new(
            variants.len(),
            |k: int| named_line(marked(format_line(variants[k].1), verifier_start())),
        ),
{
    let ws = Seq::new(
        variants.len(),
        |k: int| from_fmt_view(variants[k].1, variant_path(enum_name, variants[k].0)),
    );
    let lines = Seq::new(variants.len(), |k: int| format_line(variants[k].1));
    assert forall|k: int| 0 <= k < ws.len() implies parse_lines(#[trigger] ws[k]) == seq![lines[k]]
        && all_supported(ws[k]) by {
        lemma_struct_lines(variants[k].1, variant_path(enum_name, variants[k].0));
    }
    lemma_alternative_lines(ws, lines);
    let ir = enum_alternatives(enum_name, variants);
    assert(ir == IRView::Alt(ws));
    assert(all_supported(ir));
    law_derived_parser_checks_repeats(ir);
    assert(named_lines(marked_all(lines, verifier_start())) =~= Seq::new(
        variants.len(),
        |k: int| named_line(marked(format_line(variants[k].1), verifier_start())),
    ));
}

} // verus!
