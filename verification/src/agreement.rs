//! The parser and the `Display` that `qparse` derives from one format string agree: the
//! parser matches, step by step, what the `Display` writes, and builds the value from the
//! fields that the `Display` takes it apart into.
use vstd::prelude::*;
use crate::codegen::{
    derived_parser, destructure_view, display_plan, fragment_writes, marker_of, spec_check,
    text_write, to_nom_view, writes_from, Marker, NomView, WriteView,
};
use crate::fmt_string::{FormatStringView, FormatView, Type};
use crate::ir::{
    chain, fragment_args, from_fmt_view, normalize_view, tag_adjust_view, verifier_start,
    verifiers_view, wrap_pieces, IRView,
};
use crate::names::binding_name;
use crate::text::{has_white_space, split_white};

verus! {

/// One step of matching text: a piece of text, a run of white space, or a field read with
/// a marker's parser and bound to a name.
pub enum Step {
    Tag(Seq<char>),
    Space,
    Field(Marker, Seq<char>),
}

/// The steps of the code of a derived parser, up to where it builds the value (or stops).
pub open spec fn nom_steps(c: NomView) -> Seq<Step>
    decreases c,
{
    match c {
        NomView::Tag(t, inner) => seq![Step::Tag(t)] + nom_steps(*inner),
        NomView::Whitespace(inner) => seq![Step::Space] + nom_steps(*inner),
        NomView::Parse(m, b, _, inner) => seq![Step::Field(m, b)] + nom_steps(*inner),
        _ => Seq::empty(),
    }
}

/// What the code of a derived parser ends in.
pub open spec fn nom_end(c: NomView) -> NomView
    decreases c,
{
    match c {
        NomView::Tag(_, inner) => nom_end(*inner),
        NomView::Whitespace(inner) => nom_end(*inner),
        NomView::Parse(_, _, _, inner) => nom_end(*inner),
        _ => c,
    }
}

/// Whether the steps begin with white space.
pub open spec fn starts_space(s: Seq<Step>) -> bool {
    s.len() > 0 && s[0] is Space
}

/// Matching the pieces of a split text before `rest`, from the last piece to the first:
/// a `Space` between pieces unless one follows already, and each piece that is not empty.
pub open spec fn wrap_steps(ps: Seq<Seq<char>>, rest: Seq<Step>, first: bool) -> Seq<Step>
    decreases ps.len(),
{
    if ps.len() == 0 {
        rest
    } else {
        let r1 = if !first && !starts_space(rest) {
            seq![Step::Space] + rest
        } else {
            rest
        };
        let p = ps.last();
        let r2 = if p.len() > 0 {
            seq![Step::Tag(p)] + r1
        } else {
            r1
        };
        wrap_steps(ps.drop_last(), r2, false)
    }
}

/// Matching the text `t`, then `rest`: the text as it is when it holds no white space;
/// otherwise its pieces, with white space between them.
pub open spec fn text_then(t: Seq<char>, rest: Seq<Step>) -> Seq<Step> {
    if has_white_space(t) {
        wrap_steps(split_white(t), rest, true)
    } else {
        seq![Step::Tag(t)] + rest
    }
}

/// Matching what the writes of a derived `Display` write: each text as `text_then` says,
/// each field with the parser of its rendering (`{:x}` or `{}`).
pub open spec fn write_steps(ws: Seq<WriteView>) -> Seq<Step>
    decreases ws.len(),
{
    if ws.len() == 0 {
        Seq::empty()
    } else {
        match ws[0] {
            WriteView::Text(t) => text_then(t, write_steps(ws.drop_first())),
            WriteView::Value(b, hex) => seq![
                Step::Field(if hex {
                    Marker::LowerHex
                } else {
                    Marker::Display
                }, b),
            ] + write_steps(ws.drop_first()),
        }
    }
}

// ---------------------------------------------------------------------------------------
// Steps of the intermediate form.

/// The marker of a type; `Display` where the type has none.
pub open spec fn marker_or_display(t: Type) -> Marker {
    match marker_of(t) {
        Some(m) => m,
        None => Marker::Display,
    }
}

/// The steps of a parser in the intermediate form, up to where it builds the value.
pub open spec fn ir_steps(x: IRView) -> Seq<Step>
    decreases x,
{
    match x {
        IRView::Tag(t, inner) => seq![Step::Tag(t)] + ir_steps(*inner),
        IRView::Whitespace(inner) => seq![Step::Space] + ir_steps(*inner),
        IRView::Parse(spec, a, inner, _) => seq![
            Step::Field(marker_or_display(spec.tpe), binding_name(a)),
        ] + ir_steps(*inner),
        _ => Seq::empty(),
    }
}

/// What a parser in the intermediate form ends in.
pub open spec fn ir_end(x: IRView) -> IRView
    decreases x,
{
    match x {
        IRView::Tag(_, inner) => ir_end(*inner),
        IRView::Whitespace(inner) => ir_end(*inner),
        IRView::Parse(_, _, inner, _) => ir_end(*inner),
        _ => x,
    }
}

/// No `Alt` step: a single chain.
pub open spec fn no_alt(x: IRView) -> bool
    decreases x,
{
    match x {
        IRView::Tag(_, inner) => no_alt(*inner),
        IRView::Whitespace(inner) => no_alt(*inner),
        IRView::Parse(_, _, inner, _) => no_alt(*inner),
        IRView::Construct(..) => true,
        IRView::Alt(_) => false,
    }
}

/// Every `Parse` step has a spec and a type that derived parsers support.
pub open spec fn supported(x: IRView) -> bool
    decreases x,
{
    match x {
        IRView::Tag(_, inner) => supported(*inner),
        IRView::Whitespace(inner) => supported(*inner),
        IRView::Parse(spec, _, inner, _) => spec_check(spec, "!"@) is None && marker_of(spec.tpe)
            is Some && supported(*inner),
        _ => true,
    }
}

proof fn lemma_space_head(x: IRView)
    ensures
        (x is Whitespace) == starts_space(ir_steps(x)),
{
    match x {
        IRView::Tag(t, inner) => {
            assert(ir_steps(x)[0] == Step::Tag(t));
        },
        IRView::Whitespace(inner) => {
            assert(ir_steps(x)[0] == Step::Space);
        },
        IRView::Parse(spec, a, inner, _) => {
            assert(ir_steps(x)[0] == Step::Field(marker_or_display(spec.tpe), binding_name(a)));
        },
        _ => {},
    }
}

proof fn lemma_wrap(ps: Seq<Seq<char>>, cur: IRView, first: bool)
    ensures
        ir_steps(wrap_pieces(ps, cur, first)) == wrap_steps(ps, ir_steps(cur), first),
        ir_end(wrap_pieces(ps, cur, first)) == ir_end(cur),
        no_alt(wrap_pieces(ps, cur, first)) == no_alt(cur),
        supported(wrap_pieces(ps, cur, first)) == supported(cur),
    decreases ps.len(),
{
    if ps.len() > 0 {
        lemma_space_head(cur);
        let c1 = if !first && !(cur is Whitespace) {
            IRView::Whitespace(Box::new(cur))
        } else {
            cur
        };
        let p = ps.last();
        let c2 = if p.len() > 0 {
            IRView::Tag(p, Box::new(c1))
        } else {
            c1
        };
        let r1 = if !first && !starts_space(ir_steps(cur)) {
            seq![Step::Space] + ir_steps(cur)
        } else {
            ir_steps(cur)
        };
        let r2 = if p.len() > 0 {
            seq![Step::Tag(p)] + r1
        } else {
            r1
        };
        assert(ir_steps(c1) == r1);
        assert(ir_steps(c2) == r2);
        assert(ir_end(c1) == ir_end(cur) && ir_end(c2) == ir_end(cur));
        if !first && !(cur is Whitespace) {
            assert(no_alt(c1) == no_alt(cur));
            assert(supported(c1) == supported(cur));
        }
        if p.len() > 0 {
            assert(no_alt(c2) == no_alt(c1));
            assert(supported(c2) == supported(c1));
        }
        lemma_wrap(ps.drop_last(), c2, false);
    }
}

proof fn lemma_tag_adjust_chain(x: IRView)
    requires
        no_alt(x),
    ensures
        no_alt(tag_adjust_view(x)),
        supported(tag_adjust_view(x)) == supported(x),
        ir_end(tag_adjust_view(x)) == ir_end(x),
    decreases x,
{
    match x {
        IRView::Tag(t, inner) => {
            lemma_tag_adjust_chain(*inner);
            if has_white_space(t) {
                lemma_wrap(split_white(t), tag_adjust_view(*inner), true);
            }
        },
        IRView::Whitespace(inner) => lemma_tag_adjust_chain(*inner),
        IRView::Parse(_, _, inner, _) => lemma_tag_adjust_chain(*inner),
        _ => {},
    }
}

proof fn lemma_verifiers_chain(x: IRView, seen: Seq<crate::fmt_string::ArgumentView>)
    requires
        no_alt(x),
    ensures
        ir_steps(verifiers_view(x, seen)) == ir_steps(x),
        ir_end(verifiers_view(x, seen)) == ir_end(x),
        no_alt(verifiers_view(x, seen)) == no_alt(x),
        supported(verifiers_view(x, seen)) == supported(x),
    decreases x,
{
    match x {
        IRView::Tag(t, inner) => {
            lemma_verifiers_chain(*inner, seen);
            assert(verifiers_view(x, seen) == IRView::Tag(t, Box::new(verifiers_view(*inner, seen))));
        },
        IRView::Whitespace(inner) => {
            lemma_verifiers_chain(*inner, seen);
            assert(verifiers_view(x, seen) == IRView::Whitespace(
                Box::new(verifiers_view(*inner, seen)),
            ));
        },
        IRView::Parse(sp, a, inner, v) => {
            lemma_verifiers_chain(*inner, seq![a] + seen);
            assert(verifiers_view(x, seen) == IRView::Parse(
                sp,
                a,
                Box::new(verifiers_view(*inner, seq![a] + seen)),
                v || seen.contains(a),
            ));
        },
        _ => {},
    }
}

proof fn lemma_normalize_chain(x: IRView)
    requires
        no_alt(x),
    ensures
        normalize_view(x) == x,
    decreases x,
{
    match x {
        IRView::Tag(_, inner) => lemma_normalize_chain(*inner),
        IRView::Whitespace(inner) => lemma_normalize_chain(*inner),
        IRView::Parse(_, _, inner, _) => lemma_normalize_chain(*inner),
        _ => {},
    }
}

proof fn lemma_to_nom_chain(x: IRView)
    requires
        supported(x),
    ensures
        nom_steps(to_nom_view(x)) == ir_steps(x),
        nom_end(to_nom_view(x)) == to_nom_view(ir_end(x)),
    decreases x,
{
    match x {
        IRView::Tag(_, inner) => lemma_to_nom_chain(*inner),
        IRView::Whitespace(inner) => lemma_to_nom_chain(*inner),
        IRView::Parse(_, _, inner, _) => lemma_to_nom_chain(*inner),
        _ => {},
    }
}

proof fn lemma_write_steps_cons(w: WriteView, ws: Seq<WriteView>)
    ensures
        write_steps(seq![w] + ws) == match w {
            WriteView::Text(t) => text_then(t, write_steps(ws)),
            WriteView::Value(b, hex) => seq![
                Step::Field(if hex {
                    Marker::LowerHex
                } else {
                    Marker::Display
                }, b),
            ] + write_steps(ws),
        },
{
    assert((seq![w] + ws)[0] == w);
    assert((seq![w] + ws).drop_first() =~= ws);
}

/// The formats of `fr`, once their tags are split at white space, are matched step by step
/// as their writes are written, and the chain ends in `leaf`.
proof fn lemma_fragments_agree(fr: Seq<(FormatView, Seq<char>)>, leaf: IRView)
    requires
        writes_from(fr) is Ok,
        leaf is Construct,
    ensures
        no_alt(chain(fr, leaf)),
        supported(chain(fr, leaf)),
        ir_steps(tag_adjust_view(chain(fr, leaf))) == write_steps(writes_from(fr)->Ok_0),
        ir_end(tag_adjust_view(chain(fr, leaf))) == leaf,
    decreases fr.len(),
{
    if fr.len() == 0 {
        assert(writes_from(fr)->Ok_0 =~= Seq::<WriteView>::empty());
    } else {
        let (f, t) = fr[0];
        let rest_fr = fr.drop_first();
        lemma_fragments_agree(rest_fr, leaf);
        let rest = chain(rest_fr, leaf);
        let w0 = fragment_writes(f, t)->Ok_0;
        let ws = writes_from(rest_fr)->Ok_0;
        assert(writes_from(fr)->Ok_0 == w0 + ws);
        let after = if t.len() > 0 {
            IRView::Tag(t, Box::new(rest))
        } else {
            rest
        };
        lemma_tag_adjust_chain(rest);
        assert(fragment_writes(f, t) is Ok);
        assert(spec_check(f.fmt_spec, "!"@) is None);
        assert(f.fmt_spec.tpe == Type::Display || f.fmt_spec.tpe == Type::LowerHex);
        assert(no_alt(after) == no_alt(rest) && supported(after) == supported(rest));
        assert(chain(fr, leaf) == IRView::Parse(f.fmt_spec, f.argument, Box::new(after), false));
        let field = Step::Field(marker_or_display(f.fmt_spec.tpe), binding_name(f.argument));
        let hex = f.fmt_spec.tpe == Type::LowerHex;
        assert(w0 == seq![WriteView::Value(binding_name(f.argument), hex)] + text_write(t));
        assert(field == Step::Field(if hex {
            Marker::LowerHex
        } else {
            Marker::Display
        }, binding_name(f.argument)));
        let v = WriteView::Value(binding_name(f.argument), hex);
        assert(w0 + ws =~= seq![v] + (text_write(t) + ws));
        lemma_write_steps_cons(v, text_write(t) + ws);
        if t.len() > 0 {
            assert(text_write(t) + ws =~= seq![WriteView::Text(t)] + ws);
            lemma_write_steps_cons(WriteView::Text(t), ws);
            if has_white_space(t) {
                lemma_wrap(split_white(t), tag_adjust_view(rest), true);
            }
            assert(ir_steps(tag_adjust_view(after)) == text_then(t, ir_steps(tag_adjust_view(rest))));
            assert(ir_end(tag_adjust_view(after)) == leaf);
        } else {
            assert(text_write(t) + ws =~= ws);
        }
        assert(tag_adjust_view(chain(fr, leaf)) == IRView::Parse(
            f.fmt_spec,
            f.argument,
            Box::new(tag_adjust_view(after)),
            false,
        ));
    }
}

/// The parser and the `Display` derived from one format string agree, where the `Display`
/// can be derived: the parser matches, step by step, what the `Display` writes (each text,
/// with white space in it matched by white-space steps, and each field with the parser of
/// the rendering that writes it), and then builds the value from exactly the fields that
/// the `Display` takes it apart into.
pub proof fn law_display_and_parser_agree(fmt: FormatStringView, ident: Seq<char>)
    requires
        display_plan(fmt) is Ok,
    ensures
        nom_steps(derived_parser(from_fmt_view(fmt, ident))) == write_steps(display_plan(fmt)->Ok_0),
        nom_end(derived_parser(from_fmt_view(fmt, ident))) == NomView::Construct(
            destructure_view(ident, fragment_args(fmt.fragments)),
        ),
{
    let leaf = IRView::Construct(ident, crate::ir::sort_unique(fragment_args(fmt.fragments)));
    lemma_fragments_agree(fmt.fragments, leaf);
    let body = chain(fmt.fragments, leaf);
    let base = from_fmt_view(fmt, ident);
    let ws = writes_from(fmt.fragments)->Ok_0;
    if fmt.text.len() > 0 {
        assert(display_plan(fmt)->Ok_0 == seq![WriteView::Text(fmt.text)] + ws);
        lemma_write_steps_cons(WriteView::Text(fmt.text), ws);
        if has_white_space(fmt.text) {
            lemma_wrap(split_white(fmt.text), tag_adjust_view(body), true);
        }
        lemma_tag_adjust_chain(body);
    } else {
        assert(display_plan(fmt)->Ok_0 =~= ws);
    }
    lemma_tag_adjust_chain(base);
    let adj = tag_adjust_view(base);
    lemma_verifiers_chain(adj, verifier_start());
    let ver = verifiers_view(adj, verifier_start());
    lemma_normalize_chain(ver);
    lemma_to_nom_chain(ver);
    assert(ir_steps(adj) == write_steps(display_plan(fmt)->Ok_0));
    assert(ir_end(adj) == leaf);
    crate::ir::lemma_sort_unique_idempotent(fragment_args(fmt.fragments));
}

} // verus!
