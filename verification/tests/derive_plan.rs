use qparse::codegen::{parse_for_enum, parse_for_struct, struct_display, enum_display};
use qparse::derive::{derive_plan, DeriveError, DerivePlan, ItemShape, VariantDef};
use qparse::fmt_string::FormatString;

fn s(x: &str) -> String {
    x.to_string()
}

fn fmt(x: &str) -> FormatString {
    FormatString::parse(x).unwrap().1
}

fn text(x: &str) -> VariantDef {
    VariantDef::Text(s(x))
}

#[test]
fn plan_for_struct() {
    match derive_plan("HIA{foo:x} {bar}", &ItemShape::Struct(s("Billy"))) {
        Ok(DerivePlan::Struct { display, parser }) => {
            assert_eq!(display, struct_display(&s("Billy"), &fmt("HIA{foo:x} {bar}")));
            assert_eq!(parser, parse_for_struct(s("Billy"), &fmt("HIA{foo:x} {bar}")));
        }
        _ => panic!("expected a struct plan"),
    }
}

#[test]
fn plan_for_enum() {
    let item = ItemShape::Enum(s("BobOrNot"), vec![(s("Bob"), text("bob{s}")), (s("String"), text("{0}"))]);
    let variants = vec![(s("Bob"), fmt("bob{s}")), (s("String"), fmt("{0}"))];
    match derive_plan("", &item) {
        Ok(DerivePlan::Enum { display, parser }) => {
            assert_eq!(display, enum_display(&s("BobOrNot"), &variants));
            assert_eq!(parser, parse_for_enum(&fmt(""), &s("BobOrNot"), &variants));
            assert!(parser.is_ok());
        }
        _ => panic!("expected an enum plan"),
    }
}

#[test]
fn plan_for_enum_with_prefix() {
    let item = ItemShape::Enum(s("E"), vec![(s("A"), text("a"))]);
    match derive_plan("x", &item) {
        Ok(DerivePlan::Enum { display, parser }) => {
            assert_eq!(display.len(), 1);
            assert_eq!(parser, Err(s("Enums only support per-variant parsers")));
        }
        _ => panic!("expected an enum plan"),
    }
}

#[test]
fn plan_for_other_items() {
    match derive_plan("{a}", &ItemShape::Other) {
        Ok(DerivePlan::Unsupported(m)) => assert_eq!(m, "qparse only supports structs / enums"),
        _ => panic!("expected the unsupported message"),
    }
}

#[test]
fn bad_attribute_format_comes_first() {
    assert!(matches!(
        derive_plan("a{", &ItemShape::Other),
        Err(DeriveError::Format { variant: None, offset: 1 })
    ));
    let item = ItemShape::Enum(s("E"), vec![(s("A"), VariantDef::Missing)]);
    assert!(matches!(derive_plan("}", &item), Err(DeriveError::Format { variant: None, offset: 0 })));
}

#[test]
fn first_variant_error_wins() {
    let item = ItemShape::Enum(
        s("E"),
        vec![
            (s("A"), text("a{x}")),
            (s("B"), text("b{")),
            (s("C"), VariantDef::Missing),
        ],
    );
    assert!(matches!(derive_plan("", &item), Err(DeriveError::Format { variant: Some(1), offset: 1 })));
    let item = ItemShape::Enum(
        s("E"),
        vec![(s("A"), VariantDef::Missing), (s("B"), VariantDef::Unreadable(s("expected string literal")))],
    );
    assert!(matches!(derive_plan("", &item), Err(DeriveError::MissingDef(0))));
    let item = ItemShape::Enum(
        s("E"),
        vec![(s("A"), text("a")), (s("B"), VariantDef::Unreadable(s("expected string literal")))],
    );
    assert_eq!(
        derive_plan("", &item).err(),
        Some(DeriveError::UnreadableDef(1, s("expected string literal")))
    );
}
