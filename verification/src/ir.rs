//! The intermediate form of a derived parser: a chain of steps (match a tag, skip white
//! space, parse a field) that ends in building the value, with alternatives for enums.
use vstd::prelude::*;
use crate::fmt_string::{
    Argument, ArgumentView, FormatSpec, FormatSpecView, FormatString, FormatStringView,
    FormatView,
};
use crate::order::{args_view, sorted_unique, strictly_sorted};
use crate::text::{has_white_space, is_whitespace, split_white, split_whitespace_pieces};
use crate::text::chars_of;

verus! {

/// A derived parser, step by step.
#[derive(Debug, PartialEq, Eq)]
pub enum ParserIR {
    /// Skip one or more spaces, tabs, carriage returns or line feeds.
    Whitespace { inner: Box<ParserIR> },
    /// Match this text.
    Tag { tag: String, inner: Box<ParserIR> },
    /// Build the value `ident` from the fields `args`.
    Construct { ident: String, args: Vec<Argument> },
    /// Parse a field as `spec` says; with `verifier` set the field was parsed before and this
    /// occurrence must repeat its value.
    Parse { spec: FormatSpec, arg: Argument, inner: Box<ParserIR>, verifier: bool },
    /// The first of these that parses.
    Alt { variants: Vec<ParserIR> },
}

/// A `ParserIR` as a mathematical value.
pub enum IRView {
    Whitespace(Box<IRView>),
    Tag(Seq<char>, Box<IRView>),
    Construct(Seq<char>, Seq<ArgumentView>),
    Parse(FormatSpecView, ArgumentView, Box<IRView>, bool),
    Alt(Seq<IRView>),
}

pub open spec fn ir_view(ir: ParserIR) -> IRView
    decreases ir,
{
    match ir {
        ParserIR::Whitespace { inner } => IRView::Whitespace(Box::new(ir_view(*inner))),
        ParserIR::Tag { tag, inner } => IRView::Tag(tag@, Box::new(ir_view(*inner))),
        ParserIR::Construct { ident, args } => IRView::Construct(ident@, args_view(args@)),
        ParserIR::Parse { spec, arg, inner, verifier } => IRView::Parse(
            spec@,
            arg@,
            Box::new(ir_view(*inner)),
            verifier,
        ),
        ParserIR::Alt { variants } => IRView::Alt(irs_view(variants@)),
    }
}

pub open spec fn irs_view(vs: Seq<ParserIR>) -> Seq<IRView>
    decreases vs,
{
    if vs.len() == 0 {
        Seq::empty()
    } else {
        irs_view(vs.subrange(0, vs.len() - 1)).push(ir_view(vs[vs.len() - 1]))
    }
}

impl View for ParserIR {
    type V = IRView;

    open spec fn view(&self) -> IRView {
        ir_view(*self)
    }
}

pub proof fn lemma_irs_view(vs: Seq<ParserIR>)
    ensures
        irs_view(vs).len() == vs.len(),
        forall|k: int| 0 <= k < vs.len() ==> #[trigger] irs_view(vs)[k] == ir_view(vs[k]),
    decreases vs.len(),
{
    if vs.len() > 0 {
        let p = vs.subrange(0, vs.len() - 1);
        lemma_irs_view(p);
        assert forall|k: int| 0 <= k < vs.len() implies #[trigger] irs_view(vs)[k] == ir_view(
            vs[k],
        ) by {
            if k < vs.len() - 1 {
                assert(p[k] == vs[k]);
            }
        }
    }
}

/// The views of a sequence are determined elementwise.
pub proof fn lemma_irs_view_ext(a: Seq<ParserIR>, w: Seq<IRView>)
    requires
        a.len() == w.len(),
        forall|k: int| 0 <= k < a.len() ==> ir_view(#[trigger] a[k]) == w[k],
    ensures
        irs_view(a) == w,
{
    lemma_irs_view(a);
    assert(irs_view(a) =~= w);
}

// ---------------------------------------------------------------------------------------
// Building the chain from a format string.
/// The arguments of the formats, in order.
pub open spec fn fragment_args(fr: Seq<(FormatView, Seq<char>)>) -> Seq<ArgumentView> {
    fr.map_values(|p: (FormatView, Seq<char>)| p.0.argument)
}

/// A strictly sorted sequence holding exactly the elements of `s`.
pub open spec fn sort_unique(s: Seq<ArgumentView>) -> Seq<ArgumentView> {
    choose|r: Seq<ArgumentView>|
        strictly_sorted(r) && forall|x: ArgumentView| r.contains(x) <==> s.contains(x)
}

/// Each format (with the text after it, when there is some) becomes a `Parse` step (and a
/// `Tag` step), in order, ending in `leaf`.
pub open spec fn chain(fr: Seq<(FormatView, Seq<char>)>, leaf: IRView) -> IRView
    decreases fr.len(),
{
    if fr.len() == 0 {
        leaf
    } else {
        let rest = chain(fr.drop_first(), leaf);
        let after = if fr[0].1.len() > 0 {
            IRView::Tag(fr[0].1, Box::new(rest))
        } else {
            rest
        };
        IRView::Parse(fr[0].0.fmt_spec, fr[0].0.argument, Box::new(after), false)
    }
}

/// The parser that a format string describes for the value `ident`: its leading text (when
/// there is some), then the chain of its formats, then building `ident` from the arguments,
/// sorted and each once.
pub open spec fn from_fmt_view(fmt: FormatStringView, ident: Seq<char>) -> IRView {
    let leaf = IRView::Construct(ident, sort_unique(fragment_args(fmt.fragments)));
    let body = chain(fmt.fragments, leaf);
    if fmt.text.len() > 0 {
        IRView::Tag(fmt.text, Box::new(body))
    } else {
        body
    }
}

/// Two strictly sorted sequences with the same elements are the same sequence.
pub proof fn lemma_sorted_unique_determined(a: Seq<ArgumentView>, b: Seq<ArgumentView>)
    requires
        strictly_sorted(a),
        strictly_sorted(b),
        forall|x: ArgumentView| a.contains(x) <==> b.contains(x),
    ensures
        a == b,
    decreases a.len(),
{
    if a.len() == 0 {
        if b.len() > 0 {
            assert(b.contains(b[0]));
        }
        assert(a =~= b);
    } else {
        assert(a.contains(a[0]));
        let j = choose|j: int| 0 <= j < b.len() && b[j] == a[0];
        assert(b.contains(b[0]));
        let i = choose|i: int| 0 <= i < a.len() && a[i] == b[0];
        crate::order::lemma_arg_lt_order(a[0], b[0], a[0]);
        crate::order::lemma_arg_lt_order(b[0], a[0], b[0]);
        if j > 0 {
            assert(crate::order::arg_lt(b[0], b[j]));
            if i > 0 {
                assert(crate::order::arg_lt(a[0], a[i]));
            }
        }
        assert(b[0] == a[0]);
        let a1 = a.drop_first();
        let b1 = b.drop_first();
        assert forall|x: ArgumentView| a1.contains(x) <==> b1.contains(x) by {
            if a1.contains(x) {
                let k = choose|k: int| 0 <= k < a1.len() && a1[k] == x;
                assert(a[k + 1] == x);
                assert(crate::order::arg_lt(a[0], a[k + 1]));
                crate::order::lemma_arg_lt_order(x, x, x);
                assert(b.contains(x));
                let m = choose|m: int| 0 <= m < b.len() && b[m] == x;
                assert(m != 0);
                assert(b1[m - 1] == x);
            }
            if b1.contains(x) {
                let k = choose|k: int| 0 <= k < b1.len() && b1[k] == x;
                assert(b[k + 1] == x);
                assert(crate::order::arg_lt(b[0], b[k + 1]));
                crate::order::lemma_arg_lt_order(x, x, x);
                assert(a.contains(x));
                let m = choose|m: int| 0 <= m < a.len() && a[m] == x;
                assert(m != 0);
                assert(a1[m - 1] == x);
            }
        }
        assert forall|p: int, q: int| 0 <= p < q < a1.len() implies crate::order::arg_lt(
            #[trigger] a1[p],
            #[trigger] a1[q],
        ) by {
            assert(a1[p] == a[p + 1] && a1[q] == a[q + 1]);
        }
        assert forall|p: int, q: int| 0 <= p < q < b1.len() implies crate::order::arg_lt(
            #[trigger] b1[p],
            #[trigger] b1[q],
        ) by {
            assert(b1[p] == b[p + 1] && b1[q] == b[q + 1]);
        }
        lemma_sorted_unique_determined(a1, b1);
        assert(a =~= seq![a[0]] + a1);
        assert(b =~= seq![b[0]] + b1);
    }
}

/// Putting `x` into its place in a strictly sorted sequence that lacks it keeps it strictly
/// sorted.
proof fn lemma_sorted_insert(r: Seq<ArgumentView>, x: ArgumentView)
    requires
        strictly_sorted(r),
        !r.contains(x),
    ensures
        exists|q: Seq<ArgumentView>|
            #[trigger] strictly_sorted(q) && forall|y: ArgumentView| #[trigger]
                q.contains(y) <==> (r.contains(y) || y == x),
    decreases r.len(),
{
    if r.len() == 0 {
        let q = seq![x];
        assert forall|y: ArgumentView| #[trigger] q.contains(y) <==> (r.contains(y) || y == x) by {
            if q.contains(y) {
                assert(q[0] == y);
            }
            if y == x {
                assert(q[0] == y);
            }
        }
        assert(strictly_sorted(q));
    } else {
        crate::order::lemma_arg_lt_order(x, r[0], x);
        if crate::order::arg_lt(x, r[0]) {
            let q = seq![x] + r;
            assert forall|i: int, j: int| 0 <= i < j < q.len() implies crate::order::arg_lt(
                #[trigger] q[i],
                #[trigger] q[j],
            ) by {
                if i == 0 {
                    if j > 1 {
                        assert(crate::order::arg_lt(r[0], r[j - 1]));
                        crate::order::lemma_arg_lt_order(x, r[0], r[j - 1]);
                    }
                } else {
                    assert(q[i] == r[i - 1] && q[j] == r[j - 1]);
                }
            }
            assert forall|y: ArgumentView| #[trigger] q.contains(y) <==> (r.contains(y) || y == x) by {
                if q.contains(y) {
                    let k = choose|k: int| 0 <= k < q.len() && q[k] == y;
                    if k > 0 {
                        assert(r[k - 1] == y);
                    }
                }
                if r.contains(y) {
                    let k = choose|k: int| 0 <= k < r.len() && r[k] == y;
                    assert(q[k + 1] == y);
                }
                if y == x {
                    assert(q[0] == y);
                }
            }
            assert(strictly_sorted(q));
        } else {
            assert(r.contains(r[0]));
            assert(crate::order::arg_lt(r[0], x));
            let r1 = r.drop_first();
            assert forall|i: int, j: int| 0 <= i < j < r1.len() implies crate::order::arg_lt(
                #[trigger] r1[i],
                #[trigger] r1[j],
            ) by {
                assert(r1[i] == r[i + 1] && r1[j] == r[j + 1]);
            }
            assert(!r1.contains(x)) by {
                if r1.contains(x) {
                    let k = choose|k: int| 0 <= k < r1.len() && r1[k] == x;
                    assert(r[k + 1] == x);
                }
            }
            lemma_sorted_insert(r1, x);
            let q1 = choose|q: Seq<ArgumentView>|
                strictly_sorted(q) && forall|y: ArgumentView| #[trigger]
                    q.contains(y) <==> (r1.contains(y) || y == x);
            let q = seq![r[0]] + q1;
            assert forall|i: int, j: int| 0 <= i < j < q.len() implies crate::order::arg_lt(
                #[trigger] q[i],
                #[trigger] q[j],
            ) by {
                if i == 0 {
                    assert(q1.contains(q1[j - 1]));
                    if q1[j - 1] != x {
                        let k = choose|k: int| 0 <= k < r1.len() && r1[k] == q1[j - 1];
                        assert(r[k + 1] == q1[j - 1]);
                        assert(crate::order::arg_lt(r[0], r[k + 1]));
                    }
                } else {
                    assert(q[i] == q1[i - 1] && q[j] == q1[j - 1]);
                }
            }
            assert forall|y: ArgumentView| #[trigger] q.contains(y) <==> (r.contains(y) || y == x) by {
                if q.contains(y) {
                    let k = choose|k: int| 0 <= k < q.len() && q[k] == y;
                    if k > 0 {
                        assert(q1[k - 1] == y);
                        assert(q1.contains(y));
                        if r1.contains(y) {
                            let m = choose|m: int| 0 <= m < r1.len() && r1[m] == y;
                            assert(r[m + 1] == y);
                        }
                    }
                }
                if r.contains(y) {
                    let k = choose|k: int| 0 <= k < r.len() && r[k] == y;
                    if k == 0 {
                        assert(q[0] == y);
                    } else {
                        assert(r1[k - 1] == y);
                        assert(q1.contains(y));
                        let m = choose|m: int| 0 <= m < q1.len() && q1[m] == y;
                        assert(q[m + 1] == y);
                    }
                }
                if y == x {
                    assert(q1.contains(y));
                    let m = choose|m: int| 0 <= m < q1.len() && q1[m] == y;
                    assert(q[m + 1] == y);
                }
            }
            assert(strictly_sorted(q));
        }
    }
}

/// Every sequence of arguments has a strictly sorted sequence with exactly its elements, so
/// `sort_unique` gives one.
pub proof fn lemma_sort_unique_exists(s: Seq<ArgumentView>)
    ensures
        strictly_sorted(sort_unique(s)),
        forall|x: ArgumentView| sort_unique(s).contains(x) <==> s.contains(x),
    decreases s.len(),
{
    if s.len() == 0 {
        let r = Seq::<ArgumentView>::empty();
        assert(strictly_sorted(r) && forall|x: ArgumentView| r.contains(x) <==> s.contains(x));
    } else {
        let s0 = s.drop_last();
        let x = s.last();
        lemma_sort_unique_exists(s0);
        let r0 = sort_unique(s0);
        assert forall|y: ArgumentView| #[trigger] s.contains(y) <==> (s0.contains(y) || y == x) by {
            if s.contains(y) {
                let k = choose|k: int| 0 <= k < s.len() && s[k] == y;
                if k < s.len() - 1 {
                    assert(s0[k] == y);
                }
            }
            if s0.contains(y) {
                let k = choose|k: int| 0 <= k < s0.len() && s0[k] == y;
                assert(s[k] == y);
            }
            if y == x {
                assert(s[s.len() - 1] == y);
            }
        }
        if r0.contains(x) {
            assert(strictly_sorted(r0) && forall|y: ArgumentView| r0.contains(y) <==> s.contains(y));
        } else {
            lemma_sorted_insert(r0, x);
            let q = choose|q: Seq<ArgumentView>|
                strictly_sorted(q) && forall|y: ArgumentView| #[trigger]
                    q.contains(y) <==> (r0.contains(y) || y == x);
            assert(strictly_sorted(q) && forall|y: ArgumentView| q.contains(y) <==> s.contains(y));
        }
    }
}

/// Sorting again what `sort_unique` gave changes nothing.
pub proof fn lemma_sort_unique_idempotent(s: Seq<ArgumentView>)
    ensures
        sort_unique(sort_unique(s)) == sort_unique(s),
{
    lemma_sort_unique_exists(s);
    lemma_sort_unique(sort_unique(s), sort_unique(s));
}

/// What `sorted_unique` gives is `sort_unique` of its input.
pub proof fn lemma_sort_unique(r: Seq<ArgumentView>, s: Seq<ArgumentView>)
    requires
        strictly_sorted(r),
        forall|x: ArgumentView| r.contains(x) <==> s.contains(x),
    ensures
        sort_unique(s) == r,
{
    let c = sort_unique(s);
    assert(strictly_sorted(c) && forall|x: ArgumentView| c.contains(x) <==> s.contains(x));
    lemma_sorted_unique_determined(c, r);
}

impl ParserIR {
    /// The parser that `fmt` describes for the value `ident`.
    pub fn from_fmt(fmt: &FormatString, ident: String) -> (r: ParserIR)
        ensures
            r@ == from_fmt_view(fmt@, ident@),
    {
        let named = fmt.named_fields();
        let args = sorted_unique(&named);
        let ghost fr = fmt@.fragments;
        proof {
            assert(args_view(named@) =~= fragment_args(fr));
            lemma_sort_unique(args_view(args@), fragment_args(fr));
        }
        let ghost leaf = IRView::Construct(ident@, sort_unique(fragment_args(fr)));
        let mut root = ParserIR::Construct { ident, args };
        let mut i = fmt.fragments.len();
        assert(fr.skip(i as int) =~= Seq::<(FormatView, Seq<char>)>::empty());
        while i > 0
            invariant
                i <= fmt.fragments.len(),
                fr == fmt@.fragments,
                fr.len() == fmt.fragments@.len(),
                root@ == chain(fr.skip(i as int), leaf),
            decreases i,
        {
            i = i - 1;
            let (fragment, text) = &fmt.fragments[i];
            assert(fr[i as int] == (fragment@, text@));
            assert(fr.skip(i as int).drop_first() =~= fr.skip(i + 1));
            let ghost rest = chain(fr.skip(i + 1), leaf);
            assert(root@ == rest);
            if !text.as_str().is_empty() {
                root = ParserIR::Tag { tag: text.clone(), inner: Box::new(root) };
            }
            assert(root@ == (if text@.len() > 0 {
                IRView::Tag(text@, Box::new(rest))
            } else {
                rest
            }));
            let spec = fragment.fmt_spec.clone();
            let arg = fragment.argument.clone();
            root = ParserIR::Parse { spec, arg, inner: Box::new(root), verifier: false };
        }
        assert(fr.skip(0) =~= fr);
        if !fmt.text.as_str().is_empty() {
            root = ParserIR::Tag { tag: fmt.text.clone(), inner: Box::new(root) };
        }
        root
    }
}

// ---------------------------------------------------------------------------------------
// Splitting tags at white space.
/// Wrapping `cur` in the pieces of a split tag, from the last piece to the first: a
/// `Whitespace` step between pieces (one for a run of white space), and a `Tag` step for
/// each piece that is not empty.
pub open spec fn wrap_pieces(ps: Seq<Seq<char>>, cur: IRView, first: bool) -> IRView
    decreases ps.len(),
{
    if ps.len() == 0 {
        cur
    } else {
        let c1 = if !first && !(cur is Whitespace) {
            IRView::Whitespace(Box::new(cur))
        } else {
            cur
        };
        let p = ps.last();
        let c2 = if p.len() > 0 {
            IRView::Tag(p, Box::new(c1))
        } else {
            c1
        };
        wrap_pieces(ps.drop_last(), c2, false)
    }
}

/// Every `Tag` step whose text holds white space becomes `Tag` steps for the pieces of
/// the text and `Whitespace` steps between them.
pub open spec fn tag_adjust_view(ir: IRView) -> IRView
    decreases ir,
{
    match ir {
        IRView::Alt(vs) => IRView::Alt(tag_adjust_all(vs)),
        IRView::Parse(sp, a, inner, v) => IRView::Parse(
            sp,
            a,
            Box::new(tag_adjust_view(*inner)),
            v,
        ),
        IRView::Whitespace(inner) => IRView::Whitespace(Box::new(tag_adjust_view(*inner))),
        IRView::Tag(t, inner) => {
            let ni = tag_adjust_view(*inner);
            if has_white_space(t) {
                wrap_pieces(split_white(t), ni, true)
            } else {
                IRView::Tag(t, Box::new(ni))
            }
        },
        IRView::Construct(..) => ir,
    }
}

pub open spec fn tag_adjust_all(vs: Seq<IRView>) -> Seq<IRView>
    decreases vs,
{
    if vs.len() == 0 {
        Seq::empty()
    } else {
        tag_adjust_all(vs.subrange(0, vs.len() - 1)).push(tag_adjust_view(vs[vs.len() - 1]))
    }
}

/// Some char of `s` is white space.
fn has_whitespace(s: &str) -> (r: bool)
    ensures
        r == has_white_space(s@),
{
    let cs = chars_of(s);
    for k in 0..cs.len()
        invariant
            cs@ == s@,
            forall|m: int| 0 <= m < k ==> !crate::text::is_white_space(#[trigger] cs@[m]),
    {
        if is_whitespace(cs[k]) {
            return true;
        }
    }
    false
}

impl ParserIR {
    /// This parser with its tags split at white space.
    fn adjusted(&self) -> (r: ParserIR)
        ensures
            r@ == tag_adjust_view(self@),
        decreases self,
    {
        match self {
            ParserIR::Alt { variants } => {
                let mut out: Vec<ParserIR> = Vec::new();
                let ghost vs = irs_view(variants@);
                proof {
                    lemma_irs_view(variants@);
                }
                #[verifier::loop_isolation(false)]
                for k in 0..variants.len()
                    invariant
                        vs == irs_view(variants@),
                        vs.len() == variants@.len(),
                        forall|m: int| 0 <= m < vs.len() ==> #[trigger] vs[m] == ir_view(variants@[m]),
                        irs_view(out@) == tag_adjust_all(vs.subrange(0, k as int)),
                {
                    proof {
                        assert(decreases_to!(*self => *variants));
                        assert(decreases_to!(*variants => variants@));
                        assert(decreases_to!(variants@ => variants@[k as int]));
                    }
                    let a = variants[k].adjusted();
                    let ghost before = out@;
                    out.push(a);
                    proof {
                        assert(out@.subrange(0, out@.len() - 1) =~= before);
                        assert(vs.subrange(0, k + 1).subrange(0, k as int) =~= vs.subrange(0, k as int));
                    }
                }
                assert(vs.subrange(0, variants@.len() as int) =~= vs);
                ParserIR::Alt { variants: out }
            },
            ParserIR::Parse { spec, arg, inner, verifier } => {
                let a = inner.adjusted();
                ParserIR::Parse { spec: spec.clone(), arg: arg.clone(), inner: Box::new(a), verifier: *verifier }
            },
            ParserIR::Whitespace { inner } => {
                let a = inner.adjusted();
                ParserIR::Whitespace { inner: Box::new(a) }
            },
            ParserIR::Tag { tag, inner } => {
                let ni = inner.adjusted();
                if has_whitespace(tag.as_str()) {
                    let pieces = split_whitespace_pieces(tag.as_str());
                    let ghost ps = split_white(tag@);
                    let ghost init = ni@;
                    let n = pieces.len();
                    let mut cur = ni;
                    let mut k = n;
                    assert(ps.take(n as int) =~= ps);
                    while k > 0
                        invariant
                            k <= n,
                            n == pieces@.len(),
                            ps == split_white(tag@),
                            ps.len() == n,
                            forall|m: int| 0 <= m < n ==> (#[trigger] pieces@[m])@ == ps[m],
                            wrap_pieces(ps, init, true) == wrap_pieces(ps.take(k as int), cur@, k == n),
                        decreases k,
                    {
                        let ghost pre = cur@;
                        let is_ws = match cur {
                            ParserIR::Whitespace { .. } => true,
                            _ => false,
                        };
                        assert(is_ws == (pre is Whitespace));
                        if k != n && !is_ws {
                            cur = ParserIR::Whitespace { inner: Box::new(cur) };
                        }
                        let ghost c1 = cur@;
                        let piece = &pieces[k - 1];
                        assert(piece@ == ps[k - 1]);
                        if !piece.as_str().is_empty() {
                            cur = ParserIR::Tag { tag: piece.clone(), inner: Box::new(cur) };
                        }
                        assert(cur@ == (if ps[k - 1].len() > 0 {
                            IRView::Tag(ps[k - 1], Box::new(c1))
                        } else {
                            c1
                        }));
                        proof {
                            assert(ps.take(k as int).drop_last() =~= ps.take(k - 1));
                            assert(ps.take(k as int).last() == ps[k - 1]);
                        }
                        k = k - 1;
                    }
                    assert(ps.take(0) =~= Seq::<Seq<char>>::empty());
                    cur
                } else {
                    ParserIR::Tag { tag: tag.clone(), inner: Box::new(ni) }
                }
            },
            ParserIR::Construct { ident, args } => {
                let mut copy: Vec<Argument> = Vec::new();
                for k in 0..args.len()
                    invariant
                        copy@.len() == k,
                        forall|m: int| 0 <= m < k ==> copy@[m] == args@[m],
                {
                    copy.push(args[k].clone());
                }
                assert(copy@ =~= args@);
                ParserIR::Construct { ident: ident.clone(), args: copy }
            },
        }
    }

    /// Splits each tag that holds white space into its pieces, with a `Whitespace` step
    /// between them (one for a run of white space), leaving out empty pieces.
    pub fn tag_adjust(&mut self)
        ensures
            final(self)@ == tag_adjust_view(old(self)@),
    {
        *self = self.adjusted();
    }
}

// ---------------------------------------------------------------------------------------
// Marking repeated fields.
/// The arguments parsed on the way down to a step, the latest first.
pub struct StackList<'a> {
    arg: &'a Argument,
    prev: Option<&'a StackList<'a>>,
}

/// The arguments of a `StackList`, the latest first.
pub closed spec fn stack_view(l: StackList) -> Seq<ArgumentView>
    decreases l,
{
    match l.prev {
        Some(p) => seq![l.arg@] + stack_view(*p),
        None => seq![l.arg@],
    }
}

/// Walks the arguments of a `StackList`, the latest first.
pub struct StackListIter<'a> {
    node: Option<&'a StackList<'a>>,
}

impl<'a> StackListIter<'a> {
    /// The arguments that are still to come.
    pub closed spec fn remaining(self) -> Seq<ArgumentView> {
        match self.node {
            Some(n) => stack_view(*n),
            None => Seq::empty(),
        }
    }

    /// The next argument, if any is left.
    pub fn next(&mut self) -> (r: Option<&'a Argument>)
        ensures
            old(self).remaining().len() > 0 ==> (r matches Some(a) && a@ == old(self).remaining()[0]),
            old(self).remaining().len() > 0 ==> final(self).remaining() == old(self).remaining().drop_first(),
            old(self).remaining().len() == 0 ==> r is None,
            old(self).remaining().len() == 0 ==> final(self).remaining().len() == 0,
    {
        match self.node {
            Some(node) => {
                self.node = node.prev;
                proof {
                    let v = stack_view(*node);
                    assert(v.drop_first() =~= final(self).remaining());
                }
                Some(node.arg)
            },
            None => None,
        }
    }
}

impl<'a> StackList<'a> {
    /// Walks the arguments, the latest first.
    pub fn iter(&self) -> (r: StackListIter<'_>)
        ensures
            r.remaining() == stack_view(*self),
    {
        StackListIter { node: Some(self) }
    }
}

/// `arg` is one of the arguments of `l`.
fn stack_contains(l: &StackList, arg: &Argument) -> (r: bool)
    ensures
        r == stack_view(*l).contains(arg@),
{
    let mut it = l.iter();
    loop
        invariant
            stack_view(*l).contains(arg@) <==> it.remaining().contains(arg@),
        decreases it.remaining().len(),
    {
        let ghost before = it.remaining();
        match it.next() {
            Some(a) => {
                if a.same(arg) {
                    assert(before[0] == arg@);
                    return true;
                }
                proof {
                    if before.contains(arg@) {
                        let i = choose|i: int| 0 <= i < before.len() && before[i] == arg@;
                        assert(i != 0);
                        assert(it.remaining()[i - 1] == arg@);
                    }
                    if it.remaining().contains(arg@) {
                        let i = choose|i: int| 0 <= i < it.remaining().len() && it.remaining()[i] == arg@;
                        assert(before[i + 1] == arg@);
                    }
                }
            },
            None => {
                return false;
            },
        }
    }
}

/// Marks each `Parse` step whose argument is in `seen` or was parsed before on the way
/// down to it.
pub open spec fn verifiers_view(ir: IRView, seen: Seq<ArgumentView>) -> IRView
    decreases ir,
{
    match ir {
        IRView::Alt(vs) => IRView::Alt(verifiers_all(vs, seen)),
        IRView::Parse(sp, a, inner, v) => IRView::Parse(
            sp,
            a,
            Box::new(verifiers_view(*inner, seq![a] + seen)),
            v || seen.contains(a),
        ),
        IRView::Whitespace(inner) => IRView::Whitespace(Box::new(verifiers_view(*inner, seen))),
        IRView::Tag(t, inner) => IRView::Tag(t, Box::new(verifiers_view(*inner, seen))),
        IRView::Construct(..) => ir,
    }
}

pub open spec fn verifiers_all(vs: Seq<IRView>, seen: Seq<ArgumentView>) -> Seq<IRView>
    decreases vs,
{
    if vs.len() == 0 {
        Seq::empty()
    } else {
        verifiers_all(vs.subrange(0, vs.len() - 1), seen).push(
            verifiers_view(vs[vs.len() - 1], seen),
        )
    }
}

/// What `insert_verifiers` starts from: a position no struct can have.
pub open spec fn verifier_start() -> Seq<ArgumentView> {
    seq![ArgumentView::Intiger(usize::MAX)]
}

impl ParserIR {
    /// This parser with repeated fields marked, `prev` holding the fields parsed before.
    fn with_verifiers(&self, prev: &StackList) -> (r: ParserIR)
        ensures
            r@ == verifiers_view(self@, stack_view(*prev)),
        decreases self,
    {
        match self {
            ParserIR::Alt { variants } => {
                let mut out: Vec<ParserIR> = Vec::new();
                let ghost vs = irs_view(variants@);
                proof {
                    lemma_irs_view(variants@);
                }
                #[verifier::loop_isolation(false)]
                for k in 0..variants.len()
                    invariant
                        vs == irs_view(variants@),
                        vs.len() == variants@.len(),
                        forall|m: int| 0 <= m < vs.len() ==> #[trigger] vs[m] == ir_view(variants@[m]),
                        irs_view(out@) == verifiers_all(vs.subrange(0, k as int), stack_view(*prev)),
                {
                    proof {
                        assert(decreases_to!(*self => *variants));
                        assert(decreases_to!(*variants => variants@));
                        assert(decreases_to!(variants@ => variants@[k as int]));
                    }
                    let a = variants[k].with_verifiers(prev);
                    let ghost before = out@;
                    out.push(a);
                    proof {
                        assert(out@.subrange(0, out@.len() - 1) =~= before);
                        assert(vs.subrange(0, k + 1).subrange(0, k as int) =~= vs.subrange(0, k as int));
                    }
                }
                assert(vs.subrange(0, variants@.len() as int) =~= vs);
                ParserIR::Alt { variants: out }
            },
            ParserIR::Parse { spec, arg, inner, verifier } => {
                let seen = stack_contains(prev, arg);
                let node = StackList { arg, prev: Some(prev) };
                let a = inner.with_verifiers(&node);
                ParserIR::Parse {
                    spec: spec.clone(),
                    arg: arg.clone(),
                    inner: Box::new(a),
                    verifier: *verifier || seen,
                }
            },
            ParserIR::Whitespace { inner } => {
                let a = inner.with_verifiers(prev);
                ParserIR::Whitespace { inner: Box::new(a) }
            },
            ParserIR::Tag { tag, inner } => {
                let a = inner.with_verifiers(prev);
                ParserIR::Tag { tag: tag.clone(), inner: Box::new(a) }
            },
            ParserIR::Construct { ident, args } => {
                let mut copy: Vec<Argument> = Vec::new();
                for k in 0..args.len()
                    invariant
                        copy@.len() == k,
                        forall|m: int| 0 <= m < k ==> copy@[m] == args@[m],
                {
                    copy.push(args[k].clone());
                }
                assert(copy@ =~= args@);
                ParserIR::Construct { ident: ident.clone(), args: copy }
            },
        }
    }

    /// Marks every `Parse` step whose field was already parsed on the way down to it (or is
    /// the position `usize::MAX`): such a step must repeat the value parsed before.
    pub fn insert_verifiers(&mut self)
        ensures
            final(self)@ == verifiers_view(old(self)@, verifier_start()),
    {
        let start = Argument::Intiger(usize::MAX);
        let root = StackList { arg: &start, prev: None };
        *self = self.with_verifiers(&root);
    }
}

// ---------------------------------------------------------------------------------------
// Keeping alternatives small.
/// The most alternatives that one `Alt` step holds.
pub const MAX_ALT: usize = 20;

/// One alternative stands for itself; otherwise the alternatives form an `Alt` step.
pub open spec fn collapse(ws: Seq<IRView>) -> IRView {
    if ws.len() == 1 {
        ws[0]
    } else {
        IRView::Alt(ws)
    }
}

/// How many groups of 20 `n` items form (the last one may be smaller).
pub open spec fn group_count(n: nat) -> nat {
    ((n + 19) / 20) as nat
}

/// The items of `ws` in groups of 20, in order, each group collapsed.
pub open spec fn chunks20(ws: Seq<IRView>) -> Seq<IRView> {
    Seq::new(
        group_count(ws.len()),
        |c: int|
            collapse(
                ws.subrange(20 * c, if 20 * c + 20 <= ws.len() {
                    20 * c + 20
                } else {
                    ws.len() as int
                }),
            ),
    )
}

/// Grouping by 20 again and again, until at most 20 are left.
pub open spec fn regroup(ws: Seq<IRView>) -> Seq<IRView>
    decreases ws.len(),
{
    if ws.len() > 20 {
        proof {
            lemma_group_count(ws.len());
        }
        regroup(chunks20(ws))
    } else {
        ws
    }
}

pub proof fn lemma_group_count(n: nat)
    ensures
        n > 20 ==> 2 <= group_count(n) < n,
        1 <= n <= 20 ==> group_count(n) == 1,
        n >= 1 ==> 20 * (group_count(n) - 1) < n <= 20 * group_count(n),
{
    assert(n >= 1 ==> 20 * (group_count(n) - 1) < n <= 20 * group_count(n)) by (nonlinear_arith);
    assert(n > 20 ==> 2 <= group_count(n) < n) by (nonlinear_arith);
    assert(1 <= n <= 20 ==> group_count(n) == 1) by (nonlinear_arith);
}

/// Every `Alt` step with more than 20 alternatives gets them grouped by 20 (again and again),
/// and an `Alt` step with a single alternative becomes that alternative.
pub open spec fn normalize_view(ir: IRView) -> IRView
    decreases ir,
{
    match ir {
        IRView::Alt(vs) => collapse(regroup(normalize_all(vs))),
        IRView::Parse(sp, a, inner, v) => IRView::Parse(sp, a, Box::new(normalize_view(*inner)), v),
        IRView::Whitespace(inner) => IRView::Whitespace(Box::new(normalize_view(*inner))),
        IRView::Tag(t, inner) => IRView::Tag(t, Box::new(normalize_view(*inner))),
        IRView::Construct(..) => ir,
    }
}

pub open spec fn normalize_all(vs: Seq<IRView>) -> Seq<IRView>
    decreases vs,
{
    if vs.len() == 0 {
        Seq::empty()
    } else {
        normalize_all(vs.subrange(0, vs.len() - 1)).push(normalize_view(vs[vs.len() - 1]))
    }
}

impl Clone for ParserIR {
    fn clone(&self) -> (r: Self)
        ensures
            r@ == self@,
        decreases self,
    {
        match self {
            ParserIR::Alt { variants } => {
                let mut out: Vec<ParserIR> = Vec::new();
                proof {
                    lemma_irs_view(variants@);
                }
                #[verifier::loop_isolation(false)]
                for k in 0..variants.len()
                    invariant
                        out@.len() == k,
                        forall|m: int| 0 <= m < k ==> ir_view(#[trigger] out@[m]) == ir_view(variants@[m]),
                {
                    proof {
                        assert(decreases_to!(*self => *variants));
                        assert(decreases_to!(*variants => variants@));
                        assert(decreases_to!(variants@ => variants@[k as int]));
                    }
                    out.push(variants[k].clone());
                }
                proof {
                    lemma_irs_view_ext(out@, irs_view(variants@));
                }
                ParserIR::Alt { variants: out }
            },
            ParserIR::Parse { spec, arg, inner, verifier } => ParserIR::Parse {
                spec: spec.clone(),
                arg: arg.clone(),
                inner: Box::new((**inner).clone()),
                verifier: *verifier,
            },
            ParserIR::Whitespace { inner } => ParserIR::Whitespace { inner: Box::new((**inner).clone()) },
            ParserIR::Tag { tag, inner } => ParserIR::Tag { tag: tag.clone(), inner: Box::new((**inner).clone()) },
            ParserIR::Construct { ident, args } => {
                let mut copy: Vec<Argument> = Vec::new();
                for k in 0..args.len()
                    invariant
                        copy@.len() == k,
                        forall|m: int| 0 <= m < k ==> copy@[m] == args@[m],
                {
                    copy.push(args[k].clone());
                }
                assert(copy@ =~= args@);
                ParserIR::Construct { ident: ident.clone(), args: copy }
            },
        }
    }
}

/// One alternative stands for itself; otherwise the alternatives form an `Alt` step.
fn collapse_exec(ws: Vec<ParserIR>) -> (r: ParserIR)
    ensures
        r@ == collapse(irs_view(ws@)),
{
    proof {
        lemma_irs_view(ws@);
    }
    if ws.len() == 1 {
        ws[0].clone()
    } else {
        ParserIR::Alt { variants: ws }
    }
}

/// The items of `ws` in groups of 20, in order, each group collapsed.
fn chunk20(ws: &Vec<ParserIR>) -> (r: Vec<ParserIR>)
    ensures
        irs_view(r@) == chunks20(irs_view(ws@)),
{
    let ghost w = irs_view(ws@);
    proof {
        lemma_irs_view(ws@);
        lemma_group_count(ws@.len());
    }
    let mut out: Vec<ParserIR> = Vec::new();
    let mut start: usize = 0;
    while start < ws.len()
        invariant
            w == irs_view(ws@),
            w.len() == ws@.len(),
            forall|m: int| 0 <= m < w.len() ==> #[trigger] w[m] == ir_view(ws@[m]),
            start == (if 20 * out@.len() < ws.len() {
                (20 * out@.len()) as int
            } else {
                ws.len() as int
            }),
            out@.len() <= group_count(w.len()),
            start < ws.len() ==> out@.len() < group_count(w.len()),
            start >= ws.len() ==> out@.len() == group_count(w.len()),
            forall|c: int| 0 <= c < out@.len() ==> ir_view(#[trigger] out@[c]) == chunks20(w)[c],
        decreases ws.len() - start,
    {
        let end = if ws.len() - start >= 20 { start + 20 } else { ws.len() };
        let mut chunk: Vec<ParserIR> = Vec::new();
        let mut k = start;
        while k < end
            invariant
                start <= k <= end <= ws.len(),
                chunk@.len() == k - start,
                forall|m: int| 0 <= m < chunk@.len() ==> ir_view(#[trigger] chunk@[m]) == ir_view(ws@[start + m]),
            decreases end - k,
        {
            chunk.push(ws[k].clone());
            k = k + 1;
        }
        proof {
            lemma_irs_view_ext(chunk@, w.subrange(start as int, end as int));
            lemma_group_count(ws@.len());
        }
        let c = collapse_exec(chunk);
        out.push(c);
        start = end;
        proof {
            lemma_group_count(ws@.len());
        }
    }
    proof {
        lemma_irs_view_ext(out@, chunks20(w));
    }
    out
}

impl ParserIR {
    /// This parser with its alternatives grouped by at most 20 and single alternatives
    /// standing for themselves.
    fn normalized(&self) -> (r: ParserIR)
        ensures
            r@ == normalize_view(self@),
        decreases self,
    {
        match self {
            ParserIR::Alt { variants } => {
                let mut ws: Vec<ParserIR> = Vec::new();
                let ghost vs = irs_view(variants@);
                proof {
                    lemma_irs_view(variants@);
                }
                #[verifier::loop_isolation(false)]
                for k in 0..variants.len()
                    invariant
                        vs == irs_view(variants@),
                        vs.len() == variants@.len(),
                        forall|m: int| 0 <= m < vs.len() ==> #[trigger] vs[m] == ir_view(variants@[m]),
                        irs_view(ws@) == normalize_all(vs.subrange(0, k as int)),
                {
                    proof {
                        assert(decreases_to!(*self => *variants));
                        assert(decreases_to!(*variants => variants@));
                        assert(decreases_to!(variants@ => variants@[k as int]));
                    }
                    let a = variants[k].normalized();
                    let ghost before = ws@;
                    ws.push(a);
                    proof {
                        assert(ws@.subrange(0, ws@.len() - 1) =~= before);
                        assert(vs.subrange(0, k + 1).subrange(0, k as int) =~= vs.subrange(0, k as int));
                    }
                }
                assert(vs.subrange(0, variants@.len() as int) =~= vs);
                while ws.len() > MAX_ALT
                    invariant
                        regroup(irs_view(ws@)) == regroup(normalize_all(vs)),
                    decreases ws.len(),
                {
                    proof {
                        lemma_group_count(ws@.len());
                        lemma_irs_view(ws@);
                    }
                    let grouped = chunk20(&ws);
                    proof {
                        lemma_irs_view(grouped@);
                    }
                    ws = grouped;
                }
                proof {
                    lemma_irs_view(ws@);
                }
                collapse_exec(ws)
            },
            ParserIR::Parse { spec, arg, inner, verifier } => {
                let a = inner.normalized();
                ParserIR::Parse { spec: spec.clone(), arg: arg.clone(), inner: Box::new(a), verifier: *verifier }
            },
            ParserIR::Whitespace { inner } => {
                let a = inner.normalized();
                ParserIR::Whitespace { inner: Box::new(a) }
            },
            ParserIR::Tag { tag, inner } => {
                let a = inner.normalized();
                ParserIR::Tag { tag: tag.clone(), inner: Box::new(a) }
            },
            ParserIR::Construct { .. } => self.clone(),
        }
    }

    /// Groups the alternatives of every `Alt` step by at most 20 (as many times as it takes),
    /// and lets an `Alt` step with a single alternative become that alternative.
    pub fn normalize_alt(&mut self)
        ensures
            final(self)@ == normalize_view(old(self)@),
    {
        *self = self.normalized();
    }

    /// Leaves the parser as it is.
    pub fn opt(&mut self)
        ensures
            *final(self) == *old(self),
    {
    }
}

} // verus!
