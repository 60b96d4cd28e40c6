//! What holds of the library as a whole.
use vstd::prelude::*;
use crate::ir::{
    chunks20, collapse, lemma_group_count, normalize_all, normalize_view, regroup,
    tag_adjust_all, tag_adjust_view, verifiers_all, verifiers_view, wrap_pieces, IRView,
};
use crate::text::{has_white_space, is_white_space, lemma_split_white_pieces, split_white};
use crate::fmt_string::{
    char_at, format_reads, format_string_reads, text_reads, ArgumentView,
    FormatStringView,
};
use crate::digits::{
    is_radix_digit, lemma_radix_parse_repr, lemma_signed_parse_repr, radix_repr, signed_repr,
};

verus! {

// ---------------------------------------------------------------------------------------
// Alternatives.
/// Every `Alt` step holds at most 20 alternatives, and never exactly one.
pub open spec fn alts_small(ir: IRView) -> bool
    decreases ir,
{
    match ir {
        IRView::Alt(vs) => vs.len() != 1 && vs.len() <= 20 && all_alts_small(vs),
        IRView::Parse(_, _, inner, _) => alts_small(*inner),
        IRView::Whitespace(inner) => alts_small(*inner),
        IRView::Tag(_, inner) => alts_small(*inner),
        IRView::Construct(..) => true,
    }
}

pub open spec fn all_alts_small(vs: Seq<IRView>) -> bool
    decreases vs,
{
    if vs.len() == 0 {
        true
    } else {
        all_alts_small(vs.subrange(0, vs.len() - 1)) && alts_small(vs[vs.len() - 1])
    }
}

proof fn lemma_all_alts_small(vs: Seq<IRView>)
    ensures
        all_alts_small(vs) <==> forall|k: int| 0 <= k < vs.len() ==> alts_small(#[trigger] vs[k]),
    decreases vs.len(),
{
    if vs.len() > 0 {
        let p = vs.subrange(0, vs.len() - 1);
        lemma_all_alts_small(p);
        if forall|k: int| 0 <= k < vs.len() ==> alts_small(#[trigger] vs[k]) {
            assert forall|k: int| 0 <= k < p.len() implies alts_small(#[trigger] p[k]) by {
                assert(p[k] == vs[k]);
            }
        }
        if all_alts_small(vs) {
            assert forall|k: int| 0 <= k < vs.len() implies alts_small(#[trigger] vs[k]) by {
                if k < vs.len() - 1 {
                    assert(p[k] == vs[k]);
                }
            }
        }
    }
}

pub proof fn lemma_normalize_all(vs: Seq<IRView>)
    ensures
        normalize_all(vs).len() == vs.len(),
        forall|k: int| 0 <= k < vs.len() ==> #[trigger] normalize_all(vs)[k] == normalize_view(vs[k]),
    decreases vs.len(),
{
    if vs.len() > 0 {
        let p = vs.subrange(0, vs.len() - 1);
        lemma_normalize_all(p);
        assert forall|k: int| 0 <= k < vs.len() implies #[trigger] normalize_all(vs)[k]
            == normalize_view(vs[k]) by {
            if k < vs.len() - 1 {
                assert(p[k] == vs[k]);
            }
        }
    }
}

proof fn lemma_collapse_small(ws: Seq<IRView>)
    requires
        1 <= ws.len() <= 20,
        forall|k: int| 0 <= k < ws.len() ==> alts_small(#[trigger] ws[k]),
    ensures
        alts_small(collapse(ws)),
{
    lemma_all_alts_small(ws);
    if ws.len() == 1 {
        assert(alts_small(ws[0]));
    }
}

proof fn lemma_regroup_small(ws: Seq<IRView>)
    requires
        forall|k: int| 0 <= k < ws.len() ==> alts_small(#[trigger] ws[k]),
    ensures
        regroup(ws).len() <= 20,
        ws.len() >= 1 ==> regroup(ws).len() >= 1,
        ws.len() > 1 ==> regroup(ws).len() > 1,
        forall|k: int| 0 <= k < regroup(ws).len() ==> alts_small(#[trigger] regroup(ws)[k]),
    decreases ws.len(),
{
    if ws.len() > 20 {
        lemma_group_count(ws.len());
        let c = chunks20(ws);
        assert forall|k: int| 0 <= k < c.len() implies alts_small(#[trigger] c[k]) by {
            let hi = if 20 * k + 20 <= ws.len() {
                20 * k + 20
            } else {
                ws.len() as int
            };
            let sub = ws.subrange(20 * k, hi);
            assert forall|m: int| 0 <= m < sub.len() implies alts_small(#[trigger] sub[m]) by {
                assert(sub[m] == ws[20 * k + m]);
            }
            lemma_collapse_small(sub);
        }
        lemma_regroup_small(c);
    }
}

/// The alternatives of the result are grouped in steps of at most 20, and no `Alt` step
/// holds a single alternative.
pub proof fn lemma_normalize_small(ir: IRView)
    ensures
        alts_small(normalize_view(ir)),
    decreases ir,
{
    match ir {
        IRView::Alt(vs) => {
            let ws = normalize_all(vs);
            lemma_normalize_all(vs);
            assert forall|k: int| 0 <= k < ws.len() implies alts_small(#[trigger] ws[k]) by {
                lemma_normalize_small(vs[k]);
            }
            lemma_regroup_small(ws);
            let g = regroup(ws);
            lemma_all_alts_small(g);
            if g.len() == 1 {
                assert(alts_small(g[0]));
            }
        },
        IRView::Parse(_, _, inner, _) => lemma_normalize_small(*inner),
        IRView::Whitespace(inner) => lemma_normalize_small(*inner),
        IRView::Tag(_, inner) => lemma_normalize_small(*inner),
        IRView::Construct(..) => {},
    }
}

/// A parser whose alternatives are already small is left as it is.
pub proof fn lemma_normalize_fixes_small(ir: IRView)
    requires
        alts_small(ir),
    ensures
        normalize_view(ir) == ir,
    decreases ir,
{
    match ir {
        IRView::Alt(vs) => {
            lemma_normalize_all(vs);
            lemma_all_alts_small(vs);
            assert forall|k: int| 0 <= k < vs.len() implies #[trigger] normalize_all(vs)[k]
                == vs[k] by {
                lemma_normalize_fixes_small(vs[k]);
            }
            assert(normalize_all(vs) =~= vs);
        },
        IRView::Parse(_, _, inner, _) => lemma_normalize_fixes_small(*inner),
        IRView::Whitespace(inner) => lemma_normalize_fixes_small(*inner),
        IRView::Tag(_, inner) => lemma_normalize_fixes_small(*inner),
        IRView::Construct(..) => {},
    }
}

/// `normalize_alt` leaves every `Alt` step with at most 20 alternatives and never with a
/// single one; and doing it twice does no more than doing it once.
pub proof fn law_normalize_alt(ir: IRView)
    ensures
        alts_small(normalize_view(ir)),
        normalize_view(normalize_view(ir)) == normalize_view(ir),
{
    lemma_normalize_small(ir);
    lemma_normalize_fixes_small(normalize_view(ir));
}

/// The alternatives of a parser read left to right through nested `Alt` steps: each step
/// that is not `Alt`, in order.
pub open spec fn leaves(ir: IRView) -> Seq<IRView>
    decreases ir,
{
    match ir {
        IRView::Alt(vs) => leaves_all(vs),
        _ => seq![ir],
    }
}

pub open spec fn leaves_all(vs: Seq<IRView>) -> Seq<IRView>
    decreases vs,
{
    if vs.len() == 0 {
        Seq::empty()
    } else {
        leaves_all(vs.subrange(0, vs.len() - 1)) + leaves(vs[vs.len() - 1])
    }
}

/// Two steps of the same kind with the same fields, whatever follows them.
pub open spec fn same_step(a: IRView, b: IRView) -> bool {
    match (a, b) {
        (IRView::Tag(t, _), IRView::Tag(u, _)) => t == u,
        (IRView::Whitespace(_), IRView::Whitespace(_)) => true,
        (IRView::Parse(s, x, _, v), IRView::Parse(s2, y, _, w)) => s == s2 && x == y && v == w,
        (IRView::Construct(i, x), IRView::Construct(j, y)) => i == j && x == y,
        _ => false,
    }
}

proof fn lemma_leaves_concat(a: Seq<IRView>, b: Seq<IRView>)
    ensures
        leaves_all(a + b) == leaves_all(a) + leaves_all(b),
    decreases b.len(),
{
    if b.len() == 0 {
        assert(a + b =~= a);
        assert(leaves_all(a) + leaves_all(b) =~= leaves_all(a));
    } else {
        let b1 = b.subrange(0, b.len() - 1);
        lemma_leaves_concat(a, b1);
        let ab = a + b;
        assert(ab.subrange(0, ab.len() - 1) =~= a + b1);
        assert(ab[ab.len() - 1] == b[b.len() - 1]);
        assert(leaves_all(ab) == leaves_all(a + b1) + leaves(b[b.len() - 1]));
        assert(leaves_all(a) + leaves_all(b1) + leaves(b[b.len() - 1]) =~= leaves_all(a) + (
        leaves_all(b1) + leaves(b[b.len() - 1])));
    }
}

proof fn lemma_leaves_collapse(ws: Seq<IRView>)
    ensures
        leaves(collapse(ws)) == leaves_all(ws),
{
    if ws.len() == 1 {
        assert(ws.subrange(0, 0) =~= Seq::<IRView>::empty());
        assert(leaves_all(ws) == leaves_all(Seq::<IRView>::empty()) + leaves(ws[0]));
        assert(Seq::<IRView>::empty() + leaves(ws[0]) =~= leaves(ws[0]));
    }
}

/// The end of the first `k` groups of 20.
pub open spec fn group_end(n: nat, k: int) -> int {
    if 20 * k <= n {
        20 * k
    } else {
        n as int
    }
}

proof fn lemma_leaves_chunks_prefix(ws: Seq<IRView>, k: int)
    requires
        0 <= k <= chunks20(ws).len(),
    ensures
        leaves_all(chunks20(ws).subrange(0, k)) == leaves_all(
            ws.subrange(0, group_end(ws.len(), k)),
        ),
    decreases k,
{
    lemma_group_count(ws.len());
    let c = chunks20(ws);
    if k == 0 {
        assert(c.subrange(0, 0) =~= Seq::<IRView>::empty());
        assert(ws.subrange(0, 0) =~= Seq::<IRView>::empty());
    } else {
        lemma_leaves_chunks_prefix(ws, k - 1);
        let lo = 20 * (k - 1);
        let hi = group_end(ws.len(), k);
        assert(lo < ws.len()) by (nonlinear_arith)
            requires
                k <= c.len(),
                c.len() == ((ws.len() + 19) / 20) as nat,
                lo == 20 * (k - 1),
        ;
        assert(group_end(ws.len(), k - 1) == lo);
        let sub = ws.subrange(lo, hi);
        assert(c[k - 1] == collapse(sub));
        let ck = c.subrange(0, k);
        assert(ck.subrange(0, k - 1) =~= c.subrange(0, k - 1));
        assert(ck[k - 1] == c[k - 1]);
        assert(leaves_all(ck) == leaves_all(c.subrange(0, k - 1)) + leaves(c[k - 1]));
        lemma_leaves_collapse(sub);
        lemma_leaves_concat(ws.subrange(0, lo), sub);
        assert(ws.subrange(0, lo) + sub =~= ws.subrange(0, hi));
    }
}

proof fn lemma_leaves_chunks(ws: Seq<IRView>)
    ensures
        leaves_all(chunks20(ws)) == leaves_all(ws),
{
    lemma_group_count(ws.len());
    let c = chunks20(ws);
    lemma_leaves_chunks_prefix(ws, c.len() as int);
    assert(c.subrange(0, c.len() as int) =~= c);
    assert(group_end(ws.len(), c.len() as int) == ws.len()) by (nonlinear_arith)
        requires
            c.len() == ((ws.len() + 19) / 20) as nat,
    ;
    assert(ws.subrange(0, ws.len() as int) =~= ws);
}

proof fn lemma_leaves_regroup(ws: Seq<IRView>)
    ensures
        leaves_all(regroup(ws)) == leaves_all(ws),
    decreases ws.len(),
{
    if ws.len() > 20 {
        lemma_group_count(ws.len());
        lemma_leaves_chunks(ws);
        lemma_leaves_regroup(chunks20(ws));
    }
}

proof fn lemma_leaves_normalize_all(vs: Seq<IRView>)
    requires
        forall|k: int|
            0 <= k < vs.len() ==> leaves(normalize_view(#[trigger] vs[k])) == leaves(vs[k]).map_values(
                |x: IRView| normalize_view(x),
            ),
    ensures
        leaves_all(normalize_all(vs)) == leaves_all(vs).map_values(|x: IRView| normalize_view(x)),
    decreases vs.len(),
{
    if vs.len() == 0 {
        assert(leaves_all(vs).map_values(|x: IRView| normalize_view(x)) =~= Seq::<IRView>::empty());
    } else {
        let n = vs.len() - 1;
        let p = vs.subrange(0, n);
        assert forall|k: int|
            0 <= k < p.len() implies leaves(normalize_view(#[trigger] p[k])) == leaves(
            p[k],
        ).map_values(|x: IRView| normalize_view(x)) by {
            assert(p[k] == vs[k]);
        }
        lemma_leaves_normalize_all(p);
        let w = normalize_all(vs);
        lemma_normalize_all(p);
        lemma_normalize_all(vs);
        assert(w == normalize_all(p).push(normalize_view(vs[n])));
        assert(w.subrange(0, n) =~= normalize_all(p));
        assert(w[n] == normalize_view(vs[n]));
        assert(leaves_all(w) == leaves_all(normalize_all(p)) + leaves(normalize_view(vs[n])));
        assert(leaves(normalize_view(vs[n])) == leaves(vs[n]).map_values(
            |x: IRView| normalize_view(x),
        ));
        assert((leaves_all(p) + leaves(vs[n])).map_values(|x: IRView| normalize_view(x))
            =~= leaves_all(p).map_values(|x: IRView| normalize_view(x)) + leaves(vs[n]).map_values(
            |x: IRView| normalize_view(x),
        ));
    }
}

proof fn lemma_normalize_leaves(ir: IRView)
    ensures
        leaves(normalize_view(ir)) == leaves(ir).map_values(|x: IRView| normalize_view(x)),
    decreases ir,
{
    match ir {
        IRView::Alt(vs) => {
            assert forall|k: int|
                0 <= k < vs.len() implies leaves(normalize_view(#[trigger] vs[k])) == leaves(
                vs[k],
            ).map_values(|x: IRView| normalize_view(x)) by {
                lemma_normalize_leaves(vs[k]);
            }
            lemma_leaves_normalize_all(vs);
            lemma_leaves_regroup(normalize_all(vs));
            lemma_leaves_collapse(regroup(normalize_all(vs)));
        },
        _ => {
            assert(leaves(ir).map_values(|x: IRView| normalize_view(x)) =~= seq![normalize_view(ir)]);
        },
    }
}

/// `normalize_alt` keeps the alternatives and their order: read left to right through
/// nested `Alt` steps, the result has the same steps that are not `Alt` as the input, in
/// the same order, each with its own alternatives normalized; and a step that is not `Alt`
/// keeps its kind and its fields.
pub proof fn law_normalize_keeps_alternatives(ir: IRView)
    ensures
        leaves(normalize_view(ir)) == leaves(ir).map_values(|x: IRView| normalize_view(x)),
        !(ir is Alt) ==> same_step(ir, normalize_view(ir)),
{
    lemma_normalize_leaves(ir);
}

// ---------------------------------------------------------------------------------------
// Tags.
/// No `Tag` step's text holds a white-space char.
pub open spec fn tags_clean(ir: IRView) -> bool
    decreases ir,
{
    match ir {
        IRView::Alt(vs) => all_tags_clean(vs),
        IRView::Parse(_, _, inner, _) => tags_clean(*inner),
        IRView::Whitespace(inner) => tags_clean(*inner),
        IRView::Tag(t, inner) => !has_white_space(t) && tags_clean(*inner),
        IRView::Construct(..) => true,
    }
}

pub open spec fn all_tags_clean(vs: Seq<IRView>) -> bool
    decreases vs,
{
    if vs.len() == 0 {
        true
    } else {
        all_tags_clean(vs.subrange(0, vs.len() - 1)) && tags_clean(vs[vs.len() - 1])
    }
}

proof fn lemma_wrap_clean(ps: Seq<Seq<char>>, cur: IRView, first: bool)
    requires
        tags_clean(cur),
        forall|k: int| 0 <= k < ps.len() ==> !has_white_space(#[trigger] ps[k]),
    ensures
        tags_clean(wrap_pieces(ps, cur, first)),
    decreases ps.len(),
{
    if ps.len() > 0 {
        let c1 = if !first && !(cur is Whitespace) {
            IRView::Whitespace(Box::new(cur))
        } else {
            cur
        };
        let p = ps.last();
        let c2 = if p.len() > 0 {
            IRView::Tag(p, Box::new(c1))
        } else {
            c1
        };
        assert(!has_white_space(ps[ps.len() - 1]));
        assert(tags_clean(c1));
        assert(p == ps[ps.len() - 1]);
        assert(tags_clean(c2));
        let q = ps.drop_last();
        assert forall|k: int| 0 <= k < q.len() implies !has_white_space(#[trigger] q[k]) by {
            assert(q[k] == ps[k]);
        }
        lemma_wrap_clean(q, c2, false);
    }
}

proof fn lemma_tag_adjust_clean(ir: IRView)
    ensures
        tags_clean(tag_adjust_view(ir)),
    decreases ir,
{
    match ir {
        IRView::Alt(vs) => lemma_tag_adjust_all_clean(vs),
        IRView::Parse(_, _, inner, _) => lemma_tag_adjust_clean(*inner),
        IRView::Whitespace(inner) => lemma_tag_adjust_clean(*inner),
        IRView::Tag(t, inner) => {
            lemma_tag_adjust_clean(*inner);
            if has_white_space(t) {
                lemma_split_white_pieces(t);
                lemma_wrap_clean(split_white(t), tag_adjust_view(*inner), true);
            }
        },
        IRView::Construct(..) => {},
    }
}

proof fn lemma_tag_adjust_all_clean(vs: Seq<IRView>)
    ensures
        all_tags_clean(tag_adjust_all(vs)),
    decreases vs,
{
    if vs.len() > 0 {
        let p = vs.subrange(0, vs.len() - 1);
        lemma_tag_adjust_all_clean(p);
        lemma_tag_adjust_clean(vs[vs.len() - 1]);
        let r = tag_adjust_all(vs);
        assert(r.subrange(0, r.len() - 1) =~= tag_adjust_all(p));
    }
}

/// After `tag_adjust` no tag holds white space: white space in the format string is
/// matched by `Whitespace` steps only.
pub proof fn law_tag_adjust_clean(ir: IRView)
    ensures
        tags_clean(tag_adjust_view(ir)),
{
    lemma_tag_adjust_clean(ir);
}

// ---------------------------------------------------------------------------------------
// Repeated fields.
proof fn lemma_verifiers_twice(ir: IRView, seen: Seq<ArgumentView>)
    ensures
        verifiers_view(verifiers_view(ir, seen), seen) == verifiers_view(ir, seen),
    decreases ir,
{
    match ir {
        IRView::Alt(vs) => lemma_verifiers_all_twice(vs, seen),
        IRView::Parse(_, a, inner, _) => lemma_verifiers_twice(*inner, seq![a] + seen),
        IRView::Whitespace(inner) => lemma_verifiers_twice(*inner, seen),
        IRView::Tag(_, inner) => lemma_verifiers_twice(*inner, seen),
        IRView::Construct(..) => {},
    }
}

proof fn lemma_verifiers_all_twice(vs: Seq<IRView>, seen: Seq<ArgumentView>)
    ensures
        verifiers_all(verifiers_all(vs, seen), seen) == verifiers_all(vs, seen),
    decreases vs,
{
    if vs.len() > 0 {
        let p = vs.subrange(0, vs.len() - 1);
        lemma_verifiers_all_twice(p, seen);
        lemma_verifiers_twice(vs[vs.len() - 1], seen);
        let r = verifiers_all(vs, seen);
        assert(r.subrange(0, r.len() - 1) =~= verifiers_all(p, seen));
    }
}

/// Marking repeated fields a second time changes nothing.
pub proof fn law_insert_verifiers_idempotent(ir: IRView, seen: Seq<ArgumentView>)
    ensures
        verifiers_view(verifiers_view(ir, seen), seen) == verifiers_view(ir, seen),
{
    lemma_verifiers_twice(ir, seen);
}

// ---------------------------------------------------------------------------------------
// Reading back what was written.
/// No digit of the radix starts `rest`.
pub open spec fn no_digit_next(rest: Seq<char>, radix: nat) -> bool {
    rest.len() == 0 || !is_radix_digit(rest[0], radix)
}

/// What `{}`, `{:o}`, `{:b}`, `{:x}` and `{:X}` write for a `u8` is read back as that
/// number by the parser of the matching marker, up to where the digits end.
pub proof fn law_u8_round_trip(v: u8, rest: Seq<char>)
    ensures
        no_digit_next(rest, 10) ==> crate::integers::u8_reads(radix_repr(v as nat, 10, false) + rest, 10)
            == Some((radix_repr(v as nat, 10, false).len(), v)),
        no_digit_next(rest, 8) ==> crate::integers::u8_reads(radix_repr(v as nat, 8, false) + rest, 8)
            == Some((radix_repr(v as nat, 8, false).len(), v)),
        no_digit_next(rest, 2) ==> crate::integers::u8_reads(radix_repr(v as nat, 2, false) + rest, 2)
            == Some((radix_repr(v as nat, 2, false).len(), v)),
        no_digit_next(rest, 16) ==> crate::integers::u8_reads(radix_repr(v as nat, 16, false) + rest, 16)
            == Some((radix_repr(v as nat, 16, false).len(), v)),
        no_digit_next(rest, 16) ==> crate::integers::u8_reads(radix_repr(v as nat, 16, true) + rest, 16)
            == Some((radix_repr(v as nat, 16, true).len(), v)),
{
    if no_digit_next(rest, 10) {
        lemma_radix_parse_repr(v as nat, 10, false, u8::MAX as nat, rest);
    }
    if no_digit_next(rest, 8) {
        lemma_radix_parse_repr(v as nat, 8, false, u8::MAX as nat, rest);
    }
    if no_digit_next(rest, 2) {
        lemma_radix_parse_repr(v as nat, 2, false, u8::MAX as nat, rest);
    }
    if no_digit_next(rest, 16) {
        lemma_radix_parse_repr(v as nat, 16, false, u8::MAX as nat, rest);
        lemma_radix_parse_repr(v as nat, 16, true, u8::MAX as nat, rest);
    }
}

/// What `{}`, `{:o}`, `{:b}`, `{:x}` and `{:X}` write for a `u16` is read back as that
/// number by the parser of the matching marker, up to where the digits end.
pub proof fn law_u16_round_trip(v: u16, rest: Seq<char>)
    ensures
        no_digit_next(rest, 10) ==> crate::integers::u16_reads(radix_repr(v as nat, 10, false) + rest, 10)
            == Some((radix_repr(v as nat, 10, false).len(), v)),
        no_digit_next(rest, 8) ==> crate::integers::u16_reads(radix_repr(v as nat, 8, false) + rest, 8)
            == Some((radix_repr(v as nat, 8, false).len(), v)),
        no_digit_next(rest, 2) ==> crate::integers::u16_reads(radix_repr(v as nat, 2, false) + rest, 2)
            == Some((radix_repr(v as nat, 2, false).len(), v)),
        no_digit_next(rest, 16) ==> crate::integers::u16_reads(radix_repr(v as nat, 16, false) + rest, 16)
            == Some((radix_repr(v as nat, 16, false).len(), v)),
        no_digit_next(rest, 16) ==> crate::integers::u16_reads(radix_repr(v as nat, 16, true) + rest, 16)
            == Some((radix_repr(v as nat, 16, true).len(), v)),
{
    if no_digit_next(rest, 10) {
        lemma_radix_parse_repr(v as nat, 10, false, u16::MAX as nat, rest);
    }
    if no_digit_next(rest, 8) {
        lemma_radix_parse_repr(v as nat, 8, false, u16::MAX as nat, rest);
    }
    if no_digit_next(rest, 2) {
        lemma_radix_parse_repr(v as nat, 2, false, u16::MAX as nat, rest);
    }
    if no_digit_next(rest, 16) {
        lemma_radix_parse_repr(v as nat, 16, false, u16::MAX as nat, rest);
        lemma_radix_parse_repr(v as nat, 16, true, u16::MAX as nat, rest);
    }
}

/// What `{}`, `{:o}`, `{:b}`, `{:x}` and `{:X}` write for a `u32` is read back as that
/// number by the parser of the matching marker, up to where the digits end.
pub proof fn law_u32_round_trip(v: u32, rest: Seq<char>)
    ensures
        no_digit_next(rest, 10) ==> crate::integers::u32_reads(radix_repr(v as nat, 10, false) + rest, 10)
            == Some((radix_repr(v as nat, 10, false).len(), v)),
        no_digit_next(rest, 8) ==> crate::integers::u32_reads(radix_repr(v as nat, 8, false) + rest, 8)
            == Some((radix_repr(v as nat, 8, false).len(), v)),
        no_digit_next(rest, 2) ==> crate::integers::u32_reads(radix_repr(v as nat, 2, false) + rest, 2)
            == Some((radix_repr(v as nat, 2, false).len(), v)),
        no_digit_next(rest, 16) ==> crate::integers::u32_reads(radix_repr(v as nat, 16, false) + rest, 16)
            == Some((radix_repr(v as nat, 16, false).len(), v)),
        no_digit_next(rest, 16) ==> crate::integers::u32_reads(radix_repr(v as nat, 16, true) + rest, 16)
            == Some((radix_repr(v as nat, 16, true).len(), v)),
{
    if no_digit_next(rest, 10) {
        lemma_radix_parse_repr(v as nat, 10, false, u32::MAX as nat, rest);
    }
    if no_digit_next(rest, 8) {
        lemma_radix_parse_repr(v as nat, 8, false, u32::MAX as nat, rest);
    }
    if no_digit_next(rest, 2) {
        lemma_radix_parse_repr(v as nat, 2, false, u32::MAX as nat, rest);
    }
    if no_digit_next(rest, 16) {
        lemma_radix_parse_repr(v as nat, 16, false, u32::MAX as nat, rest);
        lemma_radix_parse_repr(v as nat, 16, true, u32::MAX as nat, rest);
    }
}

/// What `{}`, `{:o}`, `{:b}`, `{:x}` and `{:X}` write for a `u64` is read back as that
/// number by the parser of the matching marker, up to where the digits end.
pub proof fn law_u64_round_trip(v: u64, rest: Seq<char>)
    ensures
        no_digit_next(rest, 10) ==> crate::integers::u64_reads(radix_repr(v as nat, 10, false) + rest, 10)
            == Some((radix_repr(v as nat, 10, false).len(), v)),
        no_digit_next(rest, 8) ==> crate::integers::u64_reads(radix_repr(v as nat, 8, false) + rest, 8)
            == Some((radix_repr(v as nat, 8, false).len(), v)),
        no_digit_next(rest, 2) ==> crate::integers::u64_reads(radix_repr(v as nat, 2, false) + rest, 2)
            == Some((radix_repr(v as nat, 2, false).len(), v)),
        no_digit_next(rest, 16) ==> crate::integers::u64_reads(radix_repr(v as nat, 16, false) + rest, 16)
            == Some((radix_repr(v as nat, 16, false).len(), v)),
        no_digit_next(rest, 16) ==> crate::integers::u64_reads(radix_repr(v as nat, 16, true) + rest, 16)
            == Some((radix_repr(v as nat, 16, true).len(), v)),
{
    if no_digit_next(rest, 10) {
        lemma_radix_parse_repr(v as nat, 10, false, u64::MAX as nat, rest);
    }
    if no_digit_next(rest, 8) {
        lemma_radix_parse_repr(v as nat, 8, false, u64::MAX as nat, rest);
    }
    if no_digit_next(rest, 2) {
        lemma_radix_parse_repr(v as nat, 2, false, u64::MAX as nat, rest);
    }
    if no_digit_next(rest, 16) {
        lemma_radix_parse_repr(v as nat, 16, false, u64::MAX as nat, rest);
        lemma_radix_parse_repr(v as nat, 16, true, u64::MAX as nat, rest);
    }
}

/// What `{}`, `{:o}`, `{:b}`, `{:x}` and `{:X}` write for a `u128` is read back as that
/// number by the parser of the matching marker, up to where the digits end.
pub proof fn law_u128_round_trip(v: u128, rest: Seq<char>)
    ensures
        no_digit_next(rest, 10) ==> crate::integers::u128_reads(radix_repr(v as nat, 10, false) + rest, 10)
            == Some((radix_repr(v as nat, 10, false).len(), v)),
        no_digit_next(rest, 8) ==> crate::integers::u128_reads(radix_repr(v as nat, 8, false) + rest, 8)
            == Some((radix_repr(v as nat, 8, false).len(), v)),
        no_digit_next(rest, 2) ==> crate::integers::u128_reads(radix_repr(v as nat, 2, false) + rest, 2)
            == Some((radix_repr(v as nat, 2, false).len(), v)),
        no_digit_next(rest, 16) ==> crate::integers::u128_reads(radix_repr(v as nat, 16, false) + rest, 16)
            == Some((radix_repr(v as nat, 16, false).len(), v)),
        no_digit_next(rest, 16) ==> crate::integers::u128_reads(radix_repr(v as nat, 16, true) + rest, 16)
            == Some((radix_repr(v as nat, 16, true).len(), v)),
{
    if no_digit_next(rest, 10) {
        lemma_radix_parse_repr(v as nat, 10, false, u128::MAX as nat, rest);
    }
    if no_digit_next(rest, 8) {
        lemma_radix_parse_repr(v as nat, 8, false, u128::MAX as nat, rest);
    }
    if no_digit_next(rest, 2) {
        lemma_radix_parse_repr(v as nat, 2, false, u128::MAX as nat, rest);
    }
    if no_digit_next(rest, 16) {
        lemma_radix_parse_repr(v as nat, 16, false, u128::MAX as nat, rest);
        lemma_radix_parse_repr(v as nat, 16, true, u128::MAX as nat, rest);
    }
}

/// What `{}` writes for an `i8` is read back as that number, up to where the digits end.
pub proof fn law_i8_round_trip(v: i8, rest: Seq<char>)
    requires
        no_digit_next(rest, 10),
    ensures
        crate::integers::i8_reads(signed_repr(v as int) + rest) == Some(
            (signed_repr(v as int).len(), v),
        ),
{
    lemma_signed_parse_repr(v as int, i8::MIN as int, i8::MAX as int, rest);
}

/// What `{}` writes for an `i16` is read back as that number, up to where the digits end.
pub proof fn law_i16_round_trip(v: i16, rest: Seq<char>)
    requires
        no_digit_next(rest, 10),
    ensures
        crate::integers::i16_reads(signed_repr(v as int) + rest) == Some(
            (signed_repr(v as int).len(), v),
        ),
{
    lemma_signed_parse_repr(v as int, i16::MIN as int, i16::MAX as int, rest);
}

/// What `{}` writes for an `i32` is read back as that number, up to where the digits end.
pub proof fn law_i32_round_trip(v: i32, rest: Seq<char>)
    requires
        no_digit_next(rest, 10),
    ensures
        crate::integers::i32_reads(signed_repr(v as int) + rest) == Some(
            (signed_repr(v as int).len(), v),
        ),
{
    lemma_signed_parse_repr(v as int, i32::MIN as int, i32::MAX as int, rest);
}

/// What `{}` writes for an `i64` is read back as that number, up to where the digits end.
pub proof fn law_i64_round_trip(v: i64, rest: Seq<char>)
    requires
        no_digit_next(rest, 10),
    ensures
        crate::integers::i64_reads(signed_repr(v as int) + rest) == Some(
            (signed_repr(v as int).len(), v),
        ),
{
    lemma_signed_parse_repr(v as int, i64::MIN as int, i64::MAX as int, rest);
}

/// What `{}` writes for an `i128` is read back as that number, up to where the digits end.
pub proof fn law_i128_round_trip(v: i128, rest: Seq<char>)
    requires
        no_digit_next(rest, 10),
    ensures
        crate::integers::i128_reads(signed_repr(v as int) + rest) == Some(
            (signed_repr(v as int).len(), v),
        ),
{
    lemma_signed_parse_repr(v as int, i128::MIN as int, i128::MAX as int, rest);
}

/// What `{}` writes for a `bool` is read back as that `bool`.
pub proof fn law_bool_round_trip(b: bool, rest: Seq<char>)
    ensures
        crate::bool_reads(
            (if b {
                seq!['t', 'r', 'u', 'e']
            } else {
                seq!['f', 'a', 'l', 's', 'e']
            }) + rest,
        ) == Some((if b {
            4nat
        } else {
            5nat
        }, b)),
{
    let w: Seq<char> = if b {
        seq!['t', 'r', 'u', 'e']
    } else {
        seq!['f', 'a', 'l', 's', 'e']
    };
    assert((w + rest).take(w.len() as int) =~= w);
    if !b {
        assert((w + rest).take(4) != seq!['t', 'r', 'u', 'e']) by {
            assert((w + rest).take(4)[0] == 'f');
        }
    }
}

// ---------------------------------------------------------------------------------------
// Escaped text.
/// `t` with each brace doubled, as a format string writes literal braces.
pub open spec fn escape(t: Seq<char>) -> Seq<char>
    decreases t.len(),
{
    if t.len() == 0 {
        Seq::empty()
    } else if t[0] == '{' || t[0] == '}' {
        seq![t[0], t[0]] + escape(t.drop_first())
    } else {
        seq![t[0]] + escape(t.drop_first())
    }
}

proof fn lemma_text_escape(s: Seq<char>, i: int, t: Seq<char>)
    requires
        0 <= i <= s.len(),
        s.skip(i) == escape(t),
    ensures
        text_reads(s, i) == (t, s.len() as int),
    decreases t.len(),
{
    if t.len() == 0 {
        assert(s.skip(i).len() == 0);
        assert(t =~= Seq::<char>::empty());
    } else {
        let c = t[0];
        let e = escape(t.drop_first());
        if c == '{' || c == '}' {
            let k = s.skip(i);
            assert(k =~= seq![c, c] + e);
            assert(k[0] == s[i] && k[1] == s[i + 1]);
            assert(k.skip(2) =~= e);
            assert(s.skip(i + 2) =~= k.skip(2));
            lemma_text_escape(s, i + 2, t.drop_first());
        } else {
            let k = s.skip(i);
            assert(k =~= seq![c] + e);
            assert(k[0] == s[i]);
            assert(k.skip(1) =~= e);
            assert(s.skip(i + 1) =~= k.skip(1));
            lemma_text_escape(s, i + 1, t.drop_first());
        }
        assert(seq![c] + t.drop_first() =~= t);
    }
}

/// A format string that is only text, with its braces doubled, reads back as that text
/// with no formats.
pub proof fn law_escaped_text(t: Seq<char>)
    ensures
        format_string_reads(escape(t)) == Ok::<FormatStringView, int>(
            FormatStringView { text: t, fragments: Seq::empty() },
        ),
{
    let s = escape(t);
    assert(s.skip(0) =~= s);
    lemma_text_escape(s, 0, t);
    assert(!char_at(s, s.len() as int, '{'));
    assert(format_reads(s, s.len() as int) is None);
}

// ---------------------------------------------------------------------------------------
// White space.

/// The code points with the Unicode property White_Space (Unicode's PropList.txt): the
/// ones that `char::is_whitespace` accepts.
pub open spec fn unicode_white_space() -> Set<u32> {
    set![
        0x0009u32, 0x000A, 0x000B, 0x000C, 0x000D, 0x0020, 0x0085, 0x00A0, 0x1680, 0x2000,
        0x2001, 0x2002, 0x2003, 0x2004, 0x2005, 0x2006, 0x2007, 0x2008, 0x2009, 0x200A,
        0x2028, 0x2029, 0x202F, 0x205F, 0x3000,
    ]
}

/// A char is taken for white space (and a tag is split at it) exactly when it has the
/// Unicode property White_Space; among ASCII chars those are tab, line feed, vertical tab,
/// form feed, carriage return and space, and no other (so `/`, `,`, `.` and the like are
/// always matched literally).
pub proof fn law_white_space_is_unicode(c: char)
    ensures
        is_white_space(c) <==> unicode_white_space().contains(c as u32),
        (c as u32) < 0x80 ==> (is_white_space(c) <==> (c == '\t' || c == '\n' || (c as u32)
            == 0x0B || (c as u32) == 0x0C || c == '\r' || c == ' ')),
{
}

} // verus!
