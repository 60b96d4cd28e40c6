//! What the `qparse` attribute derives for an item, from the attribute's format string
//! and what was read of the item: a `Display` and a parser for a struct, one `Display` arm
//! per variant and a parser of the alternatives for an enum, or the message for an item of
//! another kind; or the first error met on the way.
use vstd::prelude::*;
use vstd::string::StringExecFns;
use crate::codegen::{
    derived_parser, destructure_view, display_plan, enum_alternatives, enum_display,
    parse_for_enum, parse_for_struct, struct_display, variant_path, variants_view, writes_view,
    DisplayArm, NomCode,
};
use crate::fmt_string::{format_string_reads, FormatString, FormatStringView};
use crate::ir::{fragment_args, from_fmt_view};

verus! {

/// What was read of a variant's `#[qparse("...")]` attribute.
pub enum VariantDef {
    /// The variant has no such attribute.
    Missing,
    /// Its argument is not a string literal; the reader's message.
    Unreadable(String),
    /// The format string it holds.
    Text(String),
}

/// What the attribute needs of the item it stands on.
pub enum ItemShape {
    /// A struct, with its name.
    Struct(String),
    /// An enum, with its name and, in order, each variant's name and attribute.
    Enum(String, Vec<(String, VariantDef)>),
    /// Any other item.
    Other,
}

/// The first error met while deriving.
#[derive(Debug, PartialEq, Eq)]
pub enum DeriveError {
    /// A format string (the attribute's, or that of the variant at this index) does not
    /// follow the grammar; the char offset where it stops.
    Format { variant: Option<usize>, offset: usize },
    /// The variant at this index has no `#[qparse("...")]` attribute.
    MissingDef(usize),
    /// The attribute of the variant at this index could not be read; the reader's message.
    UnreadableDef(usize, String),
}

pub enum DeriveErrorView {
    Format(Option<int>, int),
    MissingDef(int),
    UnreadableDef(int, Seq<char>),
}

impl View for DeriveError {
    type V = DeriveErrorView;

    open spec fn view(&self) -> DeriveErrorView {
        match self {
            DeriveError::Format { variant, offset } => DeriveErrorView::Format(
                match variant {
                    Some(v) => Some(*v as int),
                    None => None,
                },
                *offset as int,
            ),
            DeriveError::MissingDef(k) => DeriveErrorView::MissingDef(*k as int),
            DeriveError::UnreadableDef(k, m) => DeriveErrorView::UnreadableDef(*k as int, m@),
        }
    }
}

/// What is derived for an item.
#[allow(inconsistent_fields)]
pub enum DerivePlan {
    /// A struct's `Display` and parser.
    Struct { display: DisplayArm, parser: NomCode },
    /// An enum's `Display` arms, one per variant, and its parser (or the message of the
    /// `compile_error!` in its place).
    Enum { display: Vec<DisplayArm>, parser: Result<NomCode, String> },
    /// The message of the `compile_error!` for an item that is neither.
    Unsupported(String),
}

/// The format string held by a variant's attribute (empty where there is none).
pub open spec fn def_text(d: VariantDef) -> Seq<char> {
    match d {
        VariantDef::Text(s) => s@,
        _ => Seq::empty(),
    }
}

/// The error that the attribute of the variant at index `k` gives, if any.
pub open spec fn def_error(k: int, d: VariantDef) -> Option<DeriveErrorView> {
    match d {
        VariantDef::Missing => Some(DeriveErrorView::MissingDef(k)),
        VariantDef::Unreadable(m) => Some(DeriveErrorView::UnreadableDef(k, m@)),
        VariantDef::Text(s) => match format_string_reads(s@) {
            Ok(_) => None,
            Err(o) => Some(DeriveErrorView::Format(Some(k), o)),
        },
    }
}

/// The first error of the variants' attributes from index `k` on.
pub open spec fn first_def_error(vs: Seq<(String, VariantDef)>, k: int) -> Option<DeriveErrorView>
    decreases vs.len() - k,
{
    if k < 0 || k >= vs.len() {
        None
    } else {
        match def_error(k, vs[k].1) {
            Some(e) => Some(e),
            None => first_def_error(vs, k + 1),
        }
    }
}

/// The variants' names and their format strings, read.
pub open spec fn parsed_variants(vs: Seq<(String, VariantDef)>) -> Seq<(Seq<char>, FormatStringView)> {
    Seq::new(vs.len(), |k: int| (vs[k].0@, format_string_reads(def_text(vs[k].1))->Ok_0))
}

/// A `Display` arm for the type `path` from `f`: how the value is taken apart, and the
/// writes (or the message of the first thing that cannot be written).
pub open spec fn arm_for(arm: DisplayArm, path: Seq<char>, f: FormatStringView) -> bool {
    &&& arm.shape@ == destructure_view(path, fragment_args(f.fragments))
    &&& match display_plan(f) {
        Ok(ws) => arm.writes matches Ok(v) && writes_view(v@) == ws,
        Err(m) => arm.writes matches Err(e) && e@ == m,
    }
}

/// The plan for an enum `name` with the attribute's format string `f` and the variants
/// `pv`.
pub open spec fn enum_plan(
    name: Seq<char>,
    pv: Seq<(Seq<char>, FormatStringView)>,
    f: FormatStringView,
    display: Seq<DisplayArm>,
    parser: Result<NomCode, String>,
) -> bool {
    &&& display.len() == pv.len()
    &&& forall|k: int|
        0 <= k < pv.len() ==> arm_for(#[trigger] display[k], variant_path(name, pv[k].0), pv[k].1)
    &&& if f.fragments.len() == 0 && f.text.len() == 0 {
        parser matches Ok(c) && c@ == derived_parser(enum_alternatives(name, pv))
    } else {
        parser matches Err(m) && m@ == "Enums only support per-variant parsers"@
    }
}

proof fn lemma_first_def_error(vs: Seq<(String, VariantDef)>, j: int, k: int)
    requires
        0 <= j <= k <= vs.len(),
        forall|m: int| j <= m < k ==> def_error(m, (#[trigger] vs[m]).1) is None,
    ensures
        first_def_error(vs, j) == first_def_error(vs, k),
    decreases k - j,
{
    if j < k {
        assert(def_error(j, vs[j].1) is None);
        lemma_first_def_error(vs, j + 1, k);
    }
}

/// What the attribute with the format string `fmt` derives for `item`: first the format
/// string is read; then a struct gets its `Display` and parser, an enum has each variant's
/// attribute read in order and gets its `Display` arms and parser, and any other item gets
/// the message that only structs and enums are supported.
#[verifier::loop_isolation(false)]
pub fn derive_plan(fmt: &str, item: &ItemShape) -> (r: Result<DerivePlan, DeriveError>)
    ensures
        match format_string_reads(fmt@) {
            Err(o) => r matches Err(e) && e@ == DeriveErrorView::Format(None, o),
            Ok(f) => match item {
                ItemShape::Other => r matches Ok(DerivePlan::Unsupported(m)) && m@
                    == "qparse only supports structs / enums"@,
                ItemShape::Struct(ident) => r matches Ok(DerivePlan::Struct { display, parser })
                    && arm_for(display, ident@, f) && parser@ == derived_parser(
                    from_fmt_view(f, ident@),
                ),
                ItemShape::Enum(name, vs) => match first_def_error(vs@, 0) {
                    Some(e) => r matches Err(x) && x@ == e,
                    None => r matches Ok(DerivePlan::Enum { display, parser }) && enum_plan(
                        name@,
                        parsed_variants(vs@),
                        f,
                        display@,
                        parser,
                    ),
                },
            },
        },
{
    let f = match FormatString::parse(fmt) {
        Ok((_, f)) => f,
        Err(e) => {
            return Err(DeriveError::Format { variant: None, offset: e.offset });
        },
    };
    match item {
        ItemShape::Other => Ok(
            DerivePlan::Unsupported(String::from_str("qparse only supports structs / enums")),
        ),
        ItemShape::Struct(ident) => {
            let display = struct_display(ident, &f);
            assert(f@.fragments.map_values(|p: (crate::fmt_string::FormatView, Seq<char>)| p.0.argument)
                =~= fragment_args(f@.fragments));
            let parser = parse_for_struct(ident.clone(), &f);
            Ok(DerivePlan::Struct { display, parser })
        },
        ItemShape::Enum(name, vs) => {
            let mut parsed: Vec<(String, FormatString)> = Vec::new();
            for k in 0..vs.len()
                invariant
                    parsed@.len() == k,
                    forall|m: int| 0 <= m < k ==> def_error(m, (#[trigger] vs@[m]).1) is None,
                    forall|m: int|
                        0 <= m < k ==> (#[trigger] parsed@[m]).0@ == vs@[m].0@ && parsed@[m].1@
                            == format_string_reads(def_text(vs@[m].1))->Ok_0,
            {
                let (vname, def) = &vs[k];
                assert(vs@[k as int].1 == *def);
                match def {
                    VariantDef::Missing => {
                        proof {
                            lemma_first_def_error(vs@, 0, k as int);
                            assert(first_def_error(vs@, k as int) == Some(
                                DeriveErrorView::MissingDef(k as int),
                            ));
                        }
                        return Err(DeriveError::MissingDef(k));
                    },
                    VariantDef::Unreadable(m) => {
                        proof {
                            lemma_first_def_error(vs@, 0, k as int);
                            assert(first_def_error(vs@, k as int) == Some(
                                DeriveErrorView::UnreadableDef(k as int, m@),
                            ));
                        }
                        return Err(DeriveError::UnreadableDef(k, m.clone()));
                    },
                    VariantDef::Text(s) => match FormatString::parse(s.as_str()) {
                        Ok((_, g)) => {
                            parsed.push((vname.clone(), g));
                        },
                        Err(e) => {
                            proof {
                                lemma_first_def_error(vs@, 0, k as int);
                            }
                            return Err(DeriveError::Format { variant: Some(k), offset: e.offset });
                        },
                    },
                }
            }
            proof {
                lemma_first_def_error(vs@, 0, vs@.len() as int);
            }
            let display = enum_display(name, &parsed);
            let parser = parse_for_enum(&f, name, &parsed);
            proof {
                let pv = parsed_variants(vs@);
                assert(variants_view(parsed@) =~= pv);
                assert forall|k: int| 0 <= k < pv.len() implies arm_for(
                    #[trigger] display@[k],
                    variant_path(name@, pv[k].0),
                    pv[k].1,
                ) by {
                    assert(parsed@[k].1@.fragments.map_values(
                        |p: (crate::fmt_string::FormatView, Seq<char>)| p.0.argument,
                    ) =~= fragment_args(pv[k].1.fragments));
                }
            }
            Ok(DerivePlan::Enum { display, parser })
        },
    }
}

} // verus!
