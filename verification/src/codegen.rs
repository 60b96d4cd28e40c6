//! What the `qparse` attribute emits, as plain values: the steps of a derived parser, the
//! writes of a derived `Display`, how a value is taken apart into its fields, and the
//! messages of the `compile_error!`s it emits instead where a format cannot be derived.
use vstd::prelude::*;
use vstd::string::StringExecFns;
use crate::fmt_string::{
    Argument, ArgumentView, FormatSpec, FormatSpecView, FormatString, FormatStringView,
    FormatView, Type,
};
use crate::ir::{
    from_fmt_view, irs_view, lemma_irs_view, lemma_sort_unique, normalize_view, sort_unique,
    tag_adjust_view, verifier_start, verifiers_view, IRView, ParserIR,
};
use crate::names::{binding_name, format_type_name};
use crate::order::{args_view, sorted_unique};

verus! {

// ---------------------------------------------------------------------------------------
// Taking a value apart.
/// How derived code takes a value apart into its fields.
#[derive(Debug, PartialEq, Eq)]
pub enum Destructure {
    /// `path { r#a, r#b, }`: the type's path, then its named fields, sorted.
    Named { path: String, names: Vec<String> },
    /// `path(f0, f1,)`: the type's path, then its positional fields, by position.
    Positional { path: String, names: Vec<String> },
    /// Named and positional fields mixed: the message of the `compile_error!` emitted.
    Mixed(String),
}

pub enum DestructureView {
    Named(Seq<char>, Seq<Seq<char>>),
    Positional(Seq<char>, Seq<Seq<char>>),
    Mixed(Seq<char>),
}

pub open spec fn strings_view(v: Seq<String>) -> Seq<Seq<char>> {
    v.map_values(|s: String| s@)
}

impl View for Destructure {
    type V = DestructureView;

    open spec fn view(&self) -> DestructureView {
        match self {
            Destructure::Named { path, names } => DestructureView::Named(
                path@,
                strings_view(names@),
            ),
            Destructure::Positional { path, names } => DestructureView::Positional(
                path@,
                strings_view(names@),
            ),
            Destructure::Mixed(m) => DestructureView::Mixed(m@),
        }
    }
}

/// The type `ident` and the fields of `args`, sorted and each once: all named, all
/// positional, or mixed (the message then names the type).
pub open spec fn destructure_view(ident: Seq<char>, args: Seq<ArgumentView>) -> DestructureView {
    let s = sort_unique(args);
    let names = Seq::new(s.len(), |k: int| binding_name(s[k]));
    if forall|k: int| 0 <= k < s.len() ==> (#[trigger] s[k]) is Identifier {
        DestructureView::Named(ident, names)
    } else if forall|k: int| 0 <= k < s.len() ==> (#[trigger] s[k]) is Intiger {
        DestructureView::Positional(ident, names)
    } else {
        DestructureView::Mixed("Nonsense mix of named / unnamed fields in "@ + ident)
    }
}

/// How the value `ident` is taken apart into the fields `args`.
pub fn type_destructure_inner(ident: &String, args: &Vec<Argument>) -> (r: Destructure)
    ensures
        r@ == destructure_view(ident@, args_view(args@)),
{
    let s = sorted_unique(args);
    proof {
        lemma_sort_unique(args_view(s@), args_view(args@));
    }
    let ghost sv = args_view(s@);
    let mut names: Vec<String> = Vec::new();
    let mut all_named = true;
    let mut all_positional = true;
    for k in 0..s.len()
        invariant
            sv == args_view(s@),
            sv.len() == s@.len(),
            strings_view(names@) =~= Seq::new(k as nat, |m: int| binding_name(sv[m])),
            all_named == forall|m: int| 0 <= m < k ==> (#[trigger] sv[m]) is Identifier,
            all_positional == forall|m: int| 0 <= m < k ==> (#[trigger] sv[m]) is Intiger,
    {
        assert(sv[k as int] == s@[k as int]@);
        let ghost before = names@;
        if s[k].is_identifier() {
            all_positional = false;
        } else {
            all_named = false;
        }
        names.push(s[k].binding());
        assert(strings_view(names@) =~= strings_view(before).push(binding_name(sv[k as int])));
        assert(all_positional == forall|m: int| 0 <= m < k + 1 ==> (#[trigger] sv[m]) is Intiger);
        assert(all_named == forall|m: int| 0 <= m < k + 1 ==> (#[trigger] sv[m]) is Identifier);
    }
    if all_named {
        Destructure::Named { path: ident.clone(), names }
    } else if all_positional {
        Destructure::Positional { path: ident.clone(), names }
    } else {
        let mut m = String::from_str("Nonsense mix of named / unnamed fields in ");
        m.append(ident.as_str());
        Destructure::Mixed(m)
    }
}

/// How the value `ident` is taken apart into the fields that `fmt` fills.
pub fn type_destructure(ident: &String, fmt: &FormatString) -> (r: Destructure)
    ensures
        r@ == destructure_view(
            ident@,
            fmt@.fragments.map_values(|p: (FormatView, Seq<char>)| p.0.argument),
        ),
{
    let named = fmt.named_fields();
    assert(args_view(named@) =~= fmt@.fragments.map_values(
        |p: (FormatView, Seq<char>)| p.0.argument,
    ));
    type_destructure_inner(ident, &named)
}

// ---------------------------------------------------------------------------------------
// Unsupported parts of a format spec.
/// The message for the first part of `spec` that derived code does not support (fill and
/// align, sign, `#`, `0`, width, precision, in that order); `suffix` ends it.
pub open spec fn spec_check(spec: FormatSpecView, suffix: Seq<char>) -> Option<Seq<char>> {
    if spec.fill_align is Some {
        Some("fill_align not supported"@ + suffix)
    } else if spec.sign is Some {
        Some("sign not supported"@ + suffix)
    } else if spec.alt_form {
        Some("alt_form not supported"@ + suffix)
    } else if spec.sign_aware_zero_pad {
        Some("sign_aware_zero_pad not supported"@ + suffix)
    } else if spec.width is Some {
        Some("width not supported"@ + suffix)
    } else if spec.precision is Some {
        Some("precision not supported"@ + suffix)
    } else {
        None
    }
}

/// The message for the first part of `spec` that derived code does not support.
fn check_spec(spec: &FormatSpec, suffix: &str) -> (r: Option<String>)
    ensures
        r is Some <==> spec_check(spec@, suffix@) is Some,
        r matches Some(m) ==> spec_check(spec@, suffix@) == Some(m@),
{
    let head = if spec.fill_align.is_some() {
        "fill_align not supported"
    } else if spec.sign.is_some() {
        "sign not supported"
    } else if spec.alt_form {
        "alt_form not supported"
    } else if spec.sign_aware_zero_pad {
        "sign_aware_zero_pad not supported"
    } else if spec.width.is_some() {
        "width not supported"
    } else if spec.precision.is_some() {
        "precision not supported"
    } else {
        return None;
    };
    let mut m = String::from_str(head);
    m.append(suffix);
    Some(m)
}

// ---------------------------------------------------------------------------------------
// The derived `Display`.
/// One write of a derived `Display`.
#[derive(Debug, PartialEq, Eq)]
pub enum DisplayWrite {
    /// Write this text.
    Text(String),
    /// Write the field bound to this name, with `{:x}` when `hex`, else with `{}`.
    Value { binding: String, hex: bool },
}

pub enum WriteView {
    Text(Seq<char>),
    Value(Seq<char>, bool),
}

impl View for DisplayWrite {
    type V = WriteView;

    open spec fn view(&self) -> WriteView {
        match self {
            DisplayWrite::Text(t) => WriteView::Text(t@),
            DisplayWrite::Value { binding, hex } => WriteView::Value(binding@, *hex),
        }
    }
}

pub open spec fn writes_view(v: Seq<DisplayWrite>) -> Seq<WriteView> {
    v.map_values(|w: DisplayWrite| w@)
}

/// A text write, when the text is not empty.
pub open spec fn text_write(t: Seq<char>) -> Seq<WriteView> {
    if t.len() > 0 {
        seq![WriteView::Text(t)]
    } else {
        Seq::empty()
    }
}

/// The writes for one format and the text after it; or the message of the first thing in
/// it that a derived `Display` does not support.
pub open spec fn fragment_writes(f: FormatView, t: Seq<char>) -> Result<Seq<WriteView>, Seq<char>> {
    let b = binding_name(f.argument);
    match spec_check(f.fmt_spec, "!"@) {
        Some(m) => Err(m),
        None => match f.fmt_spec.tpe {
            Type::Display => Ok(seq![WriteView::Value(b, false)] + text_write(t)),
            Type::LowerHex => Ok(seq![WriteView::Value(b, true)] + text_write(t)),
            _ => Err(
                "unsupported fmt type "@ + format_type_name(f.fmt_spec.tpe) + " for "@ + b + "!"@,
            ),
        },
    }
}

/// The writes for the formats in order, or the first message.
pub open spec fn writes_from(fr: Seq<(FormatView, Seq<char>)>) -> Result<Seq<WriteView>, Seq<char>>
    decreases fr.len(),
{
    if fr.len() == 0 {
        Ok(Seq::empty())
    } else {
        match fragment_writes(fr[0].0, fr[0].1) {
            Err(m) => Err(m),
            Ok(w) => match writes_from(fr.drop_first()) {
                Err(m) => Err(m),
                Ok(ws) => Ok(w + ws),
            },
        }
    }
}

/// What a derived `Display` writes for `fmt`: its leading text, then each field and the
/// text after it; or the message of the first thing it does not support.
pub open spec fn display_plan(fmt: FormatStringView) -> Result<Seq<WriteView>, Seq<char>> {
    match writes_from(fmt.fragments) {
        Ok(ws) => Ok(text_write(fmt.text) + ws),
        Err(m) => Err(m),
    }
}

/// The writes of the derived `Display` for `fmt`, or the message of its `compile_error!`.
pub fn display_writes(fmt: &FormatString) -> (r: Result<Vec<DisplayWrite>, String>)
    ensures
        match display_plan(fmt@) {
            Ok(ws) => r matches Ok(v) && writes_view(v@) == ws,
            Err(m) => r matches Err(e) && e@ == m,
        },
{
    let ghost fr = fmt@.fragments;
    let mut writes: Vec<DisplayWrite> = Vec::new();
    if !fmt.text.as_str().is_empty() {
        writes.push(DisplayWrite::Text(fmt.text.clone()));
    }
    assert(writes_view(writes@) =~= text_write(fmt@.text));
    assert(fr.skip(0) =~= fr);
    let n = fmt.fragments.len();
    for k in 0..n
        invariant
            n == fmt.fragments@.len(),
            fr == fmt@.fragments,
            fr.len() == n,
            display_plan(fmt@) == (match writes_from(fr.skip(k as int)) {
                Ok(ws) => Ok(writes_view(writes@) + ws),
                Err(m) => Err(m),
            }),
    {
        let (f, text) = &fmt.fragments[k];
        assert(fr[k as int] == (f@, text@));
        assert(fr.skip(k as int).drop_first() =~= fr.skip(k + 1));
        assert(fr.skip(k as int)[0] == fr[k as int]);
        let spec = &f.fmt_spec;
        let binding = f.argument.binding();
        let custom = spec.tpe.is_custom();
        if custom {
            if let Some(m) = check_spec(spec, " with qparse-specific formats!") {
                return Err(m);
            }
            let mut m = String::from_str("custom parser ");
            m.append(spec.tpe.name());
            m.append(" not supported!");
            return Err(m);
        }
        if let Some(m) = check_spec(spec, "!") {
            return Err(m);
        }
        let ghost before = writes@;
        match spec.tpe {
            Type::Display => {
                writes.push(DisplayWrite::Value { binding, hex: false });
            },
            Type::LowerHex => {
                writes.push(DisplayWrite::Value { binding, hex: true });
            },
            _ => {
                let mut m = String::from_str("unsupported fmt type ");
                m.append(spec.tpe.name());
                m.append(" for ");
                m.append(binding.as_str());
                m.append("!");
                return Err(m);
            },
        }
        if !text.as_str().is_empty() {
            writes.push(DisplayWrite::Text(text.clone()));
        }
        proof {
            let w = fragment_writes(f@, text@)->Ok_0;
            assert(writes_view(writes@) =~= writes_view(before) + w);
            let rest = writes_from(fr.skip(k + 1));
            if rest is Ok {
                assert(writes_view(before) + (w + rest->Ok_0) =~= writes_view(writes@)
                    + rest->Ok_0);
            }
        }
    }
    assert(fr.skip(n as int) =~= Seq::<(FormatView, Seq<char>)>::empty());
    assert(writes_view(writes@) + Seq::<WriteView>::empty() =~= writes_view(writes@));
    Ok(writes)
}

/// The derived `Display` of a struct: how `self` is taken apart, then the writes.
#[derive(Debug, PartialEq, Eq)]
pub struct DisplayArm {
    pub shape: Destructure,
    pub writes: Result<Vec<DisplayWrite>, String>,
}

/// The `Display` derived for the type `ident` from `fmt`.
pub fn struct_display(ident: &String, fmt: &FormatString) -> (r: DisplayArm)
    ensures
        r.shape@ == destructure_view(
            ident@,
            fmt@.fragments.map_values(|p: (FormatView, Seq<char>)| p.0.argument),
        ),
        match display_plan(fmt@) {
            Ok(ws) => r.writes matches Ok(v) && writes_view(v@) == ws,
            Err(m) => r.writes matches Err(e) && e@ == m,
        },
{
    DisplayArm { shape: type_destructure(ident, fmt), writes: display_writes(fmt) }
}

/// The `Display` derived for an enum: one arm per variant, in order; each variant is named
/// by its path (`Enum :: Variant`).
pub fn enum_display(enum_name: &String, variants: &Vec<(String, FormatString)>) -> (r: Vec<
    DisplayArm,
>)
    ensures
        r@.len() == variants@.len(),
        forall|k: int|
            0 <= k < r@.len() ==> (#[trigger] r@[k]).shape@ == destructure_view(
                variant_path(enum_name@, variants@[k].0@),
                variants@[k].1@.fragments.map_values(|p: (FormatView, Seq<char>)| p.0.argument),
            ),
        forall|k: int|
            0 <= k < r@.len() ==> match display_plan(variants@[k].1@) {
                Ok(ws) => (#[trigger] r@[k]).writes matches Ok(v) && writes_view(v@) == ws,
                Err(m) => r@[k].writes matches Err(e) && e@ == m,
            },
{
    let mut arms: Vec<DisplayArm> = Vec::new();
    for k in 0..variants.len()
        invariant
            arms@.len() == k,
            forall|m: int|
                0 <= m < k ==> (#[trigger] arms@[m]).shape@ == destructure_view(
                    variant_path(enum_name@, variants@[m].0@),
                    variants@[m].1@.fragments.map_values(
                        |p: (FormatView, Seq<char>)| p.0.argument,
                    ),
                ),
            forall|m: int|
                0 <= m < k ==> match display_plan(variants@[m].1@) {
                    Ok(ws) => (#[trigger] arms@[m]).writes matches Ok(v) && writes_view(v@) == ws,
                    Err(e) => arms@[m].writes matches Err(x) && x@ == e,
                },
    {
        let (variant, fmt) = &variants[k];
        let path = path_of(enum_name, variant);
        arms.push(struct_display(&path, fmt));
    }
    arms
}

/// The path that names a variant: `Enum :: Variant` (as its tokens print).
pub open spec fn variant_path(enum_name: Seq<char>, variant: Seq<char>) -> Seq<char> {
    enum_name + " :: "@ + variant
}

fn path_of(enum_name: &String, variant: &String) -> (r: String)
    ensures
        r@ == variant_path(enum_name@, variant@),
{
    let mut p = enum_name.clone();
    p.append(" :: ");
    p.append(variant.as_str());
    p
}

// ---------------------------------------------------------------------------------------
// The derived parser.
/// Which `Parseable` marker parses a field.
#[derive(Clone, Copy, Debug, PartialEq, Eq)]
pub enum Marker {
    LowerHex,
    UpperHex,
    Octal,
    Binary,
    Display,
    LowerExp,
    UpperExp,
}

/// The marker for a format type, where derived parsers support the type.
pub open spec fn marker_of(t: Type) -> Option<Marker> {
    match t {
        Type::LowerHex => Some(Marker::LowerHex),
        Type::UpperHex => Some(Marker::UpperHex),
        Type::Octal => Some(Marker::Octal),
        Type::Binary => Some(Marker::Binary),
        Type::Display => Some(Marker::Display),
        Type::LowerExp => Some(Marker::LowerExp),
        Type::UpperExp => Some(Marker::UpperExp),
        _ => None,
    }
}

/// The code of a derived parser, step by step.
#[derive(Debug, PartialEq, Eq)]
pub enum NomCode {
    /// `compile_error!` with this message, in place of the step.
    Error(String),
    /// Build the value, as `shape` names its type and fields, from the parsed fields.
    Construct { shape: Destructure },
    /// Match this text.
    Tag { tag: String, inner: Box<NomCode> },
    /// Skip one or more spaces, tabs, carriage returns or line feeds.
    Whitespace { inner: Box<NomCode> },
    /// Parse a field with the marker's parser and bind it to `binding`; with `verifier`,
    /// fail unless the value equals the one already bound to that name.
    Parse { marker: Marker, binding: String, verifier: bool, inner: Box<NomCode> },
    /// The first of these that parses.
    Alt { variants: Vec<NomCode> },
}

pub enum NomView {
    Error(Seq<char>),
    Construct(DestructureView),
    Tag(Seq<char>, Box<NomView>),
    Whitespace(Box<NomView>),
    Parse(Marker, Seq<char>, bool, Box<NomView>),
    Alt(Seq<NomView>),
}

pub open spec fn nom_view(c: NomCode) -> NomView
    decreases c,
{
    match c {
        NomCode::Error(m) => NomView::Error(m@),
        NomCode::Construct { shape } => NomView::Construct(shape@),
        NomCode::Tag { tag, inner } => NomView::Tag(tag@, Box::new(nom_view(*inner))),
        NomCode::Whitespace { inner } => NomView::Whitespace(Box::new(nom_view(*inner))),
        NomCode::Parse { marker, binding, verifier, inner } => NomView::Parse(
            marker,
            binding@,
            verifier,
            Box::new(nom_view(*inner)),
        ),
        NomCode::Alt { variants } => NomView::Alt(noms_view(variants@)),
    }
}

pub open spec fn noms_view(vs: Seq<NomCode>) -> Seq<NomView>
    decreases vs,
{
    if vs.len() == 0 {
        Seq::empty()
    } else {
        noms_view(vs.subrange(0, vs.len() - 1)).push(nom_view(vs[vs.len() - 1]))
    }
}

impl View for NomCode {
    type V = NomView;

    open spec fn view(&self) -> NomView {
        nom_view(*self)
    }
}

/// The code for a parser: each step as it is, a `Parse` step replaced by a
/// `compile_error!` where its spec or its type is not supported.
pub open spec fn to_nom_view(ir: IRView) -> NomView
    decreases ir,
{
    match ir {
        IRView::Construct(ident, args) => NomView::Construct(destructure_view(ident, args)),
        IRView::Tag(t, inner) => NomView::Tag(t, Box::new(to_nom_view(*inner))),
        IRView::Whitespace(inner) => NomView::Whitespace(Box::new(to_nom_view(*inner))),
        IRView::Parse(spec, arg, inner, v) => match spec_check(spec, "!"@) {
            Some(m) => NomView::Error(m),
            None => match marker_of(spec.tpe) {
                None => NomView::Error(format_type_name(spec.tpe) + " not supported in parsers!"@),
                Some(mk) => NomView::Parse(mk, binding_name(arg), v, Box::new(to_nom_view(*inner))),
            },
        },
        IRView::Alt(vs) => NomView::Alt(to_nom_all(vs)),
    }
}

pub open spec fn to_nom_all(vs: Seq<IRView>) -> Seq<NomView>
    decreases vs,
{
    if vs.len() == 0 {
        Seq::empty()
    } else {
        to_nom_all(vs.subrange(0, vs.len() - 1)).push(to_nom_view(vs[vs.len() - 1]))
    }
}

proof fn lemma_noms_view(vs: Seq<NomCode>)
    ensures
        noms_view(vs).len() == vs.len(),
        forall|k: int| 0 <= k < vs.len() ==> #[trigger] noms_view(vs)[k] == nom_view(vs[k]),
    decreases vs.len(),
{
    if vs.len() > 0 {
        let p = vs.subrange(0, vs.len() - 1);
        lemma_noms_view(p);
        assert forall|k: int| 0 <= k < vs.len() implies #[trigger] noms_view(vs)[k] == nom_view(
            vs[k],
        ) by {
            if k < vs.len() - 1 {
                assert(p[k] == vs[k]);
            }
        }
    }
}

impl ParserIR {
    /// The code of this parser.
    pub fn to_nom(&self) -> (r: NomCode)
        ensures
            r@ == to_nom_view(self@),
        decreases self,
    {
        match self {
            ParserIR::Construct { ident, args } => NomCode::Construct {
                shape: type_destructure_inner(ident, args),
            },
            ParserIR::Tag { tag, inner } => NomCode::Tag {
                tag: tag.clone(),
                inner: Box::new(inner.to_nom()),
            },
            ParserIR::Whitespace { inner } => NomCode::Whitespace { inner: Box::new(inner.to_nom()) },
            ParserIR::Parse { spec, arg, inner, verifier } => {
                if let Some(m) = check_spec(spec, "!") {
                    return NomCode::Error(m);
                }
                let marker = match spec.tpe {
                    Type::LowerHex => Marker::LowerHex,
                    Type::UpperHex => Marker::UpperHex,
                    Type::Octal => Marker::Octal,
                    Type::Binary => Marker::Binary,
                    Type::Display => Marker::Display,
                    Type::LowerExp => Marker::LowerExp,
                    Type::UpperExp => Marker::UpperExp,
                    _ => {
                        let mut m = String::from_str(spec.tpe.name());
                        m.append(" not supported in parsers!");
                        return NomCode::Error(m);
                    },
                };
                NomCode::Parse {
                    marker,
                    binding: arg.binding(),
                    verifier: *verifier,
                    inner: Box::new(inner.to_nom()),
                }
            },
            ParserIR::Alt { variants } => {
                let mut out: Vec<NomCode> = Vec::new();
                let ghost vs = irs_view(variants@);
                proof {
                    lemma_irs_view(variants@);
                }
                #[verifier::loop_isolation(false)]
                for k in 0..variants.len()
                    invariant
                        vs == irs_view(variants@),
                        vs.len() == variants@.len(),
                        forall|m: int| 0 <= m < vs.len() ==> #[trigger] vs[m] == crate::ir::ir_view(variants@[m]),
                        noms_view(out@) == to_nom_all(vs.subrange(0, k as int)),
                {
                    proof {
                        assert(decreases_to!(*self => *variants));
                        assert(decreases_to!(*variants => variants@));
                        assert(decreases_to!(variants@ => variants@[k as int]));
                    }
                    let a = variants[k].to_nom();
                    let ghost before = out@;
                    out.push(a);
                    proof {
                        assert(out@.subrange(0, out@.len() - 1) =~= before);
                        assert(vs.subrange(0, k + 1).subrange(0, k as int) =~= vs.subrange(0, k as int));
                    }
                }
                assert(vs.subrange(0, variants@.len() as int) =~= vs);
                NomCode::Alt { variants: out }
            },
        }
    }
}

/// The parser derived for the value `ident` from `fmt`: built from the format string, its
/// tags split at white space, repeated fields marked, alternatives kept small, then turned
/// into code.
pub open spec fn derived_parser(ir: IRView) -> NomView {
    to_nom_view(normalize_view(verifiers_view(tag_adjust_view(ir), verifier_start())))
}

/// The code of the parser derived for the struct `ident` from `fmt`.
pub fn parse_for_struct(ident: String, fmt: &FormatString) -> (r: NomCode)
    ensures
        r@ == derived_parser(from_fmt_view(fmt@, ident@)),
{
    let mut ir = ParserIR::from_fmt(fmt, ident);
    ir.tag_adjust();
    ir.insert_verifiers();
    ir.opt();
    ir.normalize_alt();
    ir.to_nom()
}

/// The alternatives of an enum's parser: each variant's parser, in order, building the
/// variant named by its path.
pub open spec fn enum_alternatives(
    enum_name: Seq<char>,
    variants: Seq<(Seq<char>, FormatStringView)>,
) -> IRView {
    IRView::Alt(
        Seq::new(
            variants.len(),
            |k: int| from_fmt_view(variants[k].1, variant_path(enum_name, variants[k].0)),
        ),
    )
}

/// The names and format strings of an enum's variants.
pub open spec fn variants_view(v: Seq<(String, FormatString)>) -> Seq<(Seq<char>, FormatStringView)> {
    v.map_values(|p: (String, FormatString)| (p.0@, p.1@))
}

/// The code of the parser derived for an enum. The enum's own format string must be empty:
/// each variant has its own.
pub fn parse_for_enum(
    prefix: &FormatString,
    enum_name: &String,
    variants: &Vec<(String, FormatString)>,
) -> (r: Result<NomCode, String>)
    ensures
        if prefix@.fragments.len() == 0 && prefix@.text.len() == 0 {
            r matches Ok(c) && c@ == derived_parser(enum_alternatives(enum_name@, variants_view(variants@)))
        } else {
            r matches Err(m) && m@ == "Enums only support per-variant parsers"@
        },
{
    if !(prefix.fragments.len() == 0 && prefix.text.as_str().is_empty()) {
        return Err(String::from_str("Enums only support per-variant parsers"));
    }
    let mut alts: Vec<ParserIR> = Vec::new();
    for k in 0..variants.len()
        invariant
            alts@.len() == k,
            forall|m: int|
                0 <= m < k ==> crate::ir::ir_view(#[trigger] alts@[m]) == from_fmt_view(
                    variants@[m].1@,
                    variant_path(enum_name@, variants@[m].0@),
                ),
    {
        let (variant, fmt) = &variants[k];
        alts.push(ParserIR::from_fmt(fmt, path_of(enum_name, variant)));
    }
    proof {
        let w = Seq::new(
            variants@.len(),
            |k: int| from_fmt_view(variants@[k].1@, variant_path(enum_name@, variants@[k].0@)),
        );
        crate::ir::lemma_irs_view_ext(alts@, w);
        let vv = variants_view(variants@);
        assert(enum_alternatives(enum_name@, vv) == IRView::Alt(w)) by {
            assert(Seq::new(
                vv.len(),
                |k: int| from_fmt_view(vv[k].1, variant_path(enum_name@, vv[k].0)),
            ) =~= w);
        }
    }
    let mut root = ParserIR::Alt { variants: alts };
    root.tag_adjust();
    root.insert_verifiers();
    root.opt();
    root.normalize_alt();
    Ok(root.to_nom())
}

// ---------------------------------------------------------------------------------------
// Attributes.
/// An attribute path names `qparse`: `qparse` or `qparse::qparse`.
pub open spec fn is_qparse_path(segs: Seq<Seq<char>>) -> bool {
    (segs.len() == 1 && segs[0] == "qparse"@) || (segs.len() == 2 && segs[0] == "qparse"@
        && segs[1] == "qparse"@)
}

/// Whether the attribute path with these segments names `qparse`.
pub fn is_qparse(segs: &Vec<String>) -> (r: bool)
    ensures
        r == is_qparse_path(strings_view(segs@)),
{
    let q = String::from_str("qparse");
    if segs.len() == 1 {
        segs[0].eq(&q)
    } else if segs.len() == 2 {
        segs[0].eq(&q) && segs[1].eq(&q)
    } else {
        false
    }
}

/// The first attribute, of those with these paths, that names `qparse`.
pub fn qparse_attr_position(paths: &Vec<Vec<String>>) -> (r: Option<usize>)
    ensures
        match r {
            Some(i) => i < paths@.len() && is_qparse_path(strings_view(paths@[i as int]@))
                && forall|j: int| 0 <= j < i ==> !is_qparse_path(strings_view(#[trigger] paths@[j]@)),
            None => forall|j: int| 0 <= j < paths@.len() ==> !is_qparse_path(strings_view(#[trigger] paths@[j]@)),
        },
{
    for k in 0..paths.len()
        invariant
            forall|j: int| 0 <= j < k ==> !is_qparse_path(strings_view(#[trigger] paths@[j]@)),
    {
        if is_qparse(&paths[k]) {
            return Some(k);
        }
    }
    None
}

} // verus!
