use qparse::codegen::{
    display_writes, enum_display, is_qparse, parse_for_enum, parse_for_struct,
    qparse_attr_position, struct_display, type_destructure, type_destructure_inner, Destructure,
    DisplayArm, DisplayWrite, Marker, NomCode,
};
use qparse::fmt_string::{Argument, FormatString};
use qparse::names::decimal_string;
use qparse::order::sorted_unique;

fn fmt(s: &str) -> FormatString {
    FormatString::parse(s).unwrap().1
}

fn s(x: &str) -> String {
    x.to_string()
}

fn text(t: &str) -> DisplayWrite {
    DisplayWrite::Text(s(t))
}

fn value(b: &str, hex: bool) -> DisplayWrite {
    DisplayWrite::Value { binding: s(b), hex }
}

fn tag(t: &str, inner: NomCode) -> NomCode {
    NomCode::Tag { tag: s(t), inner: Box::new(inner) }
}

fn ws(inner: NomCode) -> NomCode {
    NomCode::Whitespace { inner: Box::new(inner) }
}

fn parse(marker: Marker, b: &str, verifier: bool, inner: NomCode) -> NomCode {
    NomCode::Parse { marker, binding: s(b), verifier, inner: Box::new(inner) }
}

fn construct(shape: Destructure) -> NomCode {
    NomCode::Construct { shape }
}

fn positional(path: &str, names: &[&str]) -> Destructure {
    Destructure::Positional { path: s(path), names: names.iter().map(|n| s(n)).collect() }
}

fn named(path: &str, names: &[&str]) -> Destructure {
    Destructure::Named { path: s(path), names: names.iter().map(|n| s(n)).collect() }
}

#[test]
fn dest() {
    assert_eq!(
        type_destructure(&s("Bar :: Barely"), &fmt("foo{0} uwu{1:x}")),
        positional("Bar :: Barely", &["f0", "f1"])
    );
    assert_eq!(type_destructure(&s("Foo"), &fmt("foo{bar} uwu{baz:x}")), named("Foo", &["bar", "baz"]));
}

#[test]
fn disp() {
    assert_eq!(
        struct_display(&s("Bar :: Barely"), &fmt("foo{0} uwu{1:x}")),
        DisplayArm {
            shape: positional("Bar :: Barely", &["f0", "f1"]),
            writes: Ok(vec![text("foo"), value("f0", false), text(" uwu"), value("f1", true)]),
        }
    );
}

#[test]
fn simple_parse() {
    assert_eq!(
        parse_for_struct(s("Barely"), &fmt("foo{0} owo uwu{1:x}")),
        tag(
            "foo",
            parse(
                Marker::Display,
                "f0",
                false,
                ws(tag(
                    "owo",
                    ws(tag(
                        "uwu",
                        parse(
                            Marker::LowerHex,
                            "f1",
                            false,
                            construct(positional("Barely", &["f0", "f1"]))
                        )
                    ))
                ))
            )
        )
    );
}

fn foo_variants() -> Vec<(String, FormatString)> {
    vec![(s("Bar"), fmt("foo{0} uwu{1:x}")), (s("Baz"), fmt("bar{billy}"))]
}

#[test]
fn disp_enum() {
    assert_eq!(
        enum_display(&s("Foo"), &foo_variants()),
        vec![
            DisplayArm {
                shape: positional("Foo :: Bar", &["f0", "f1"]),
                writes: Ok(vec![text("foo"), value("f0", false), text(" uwu"), value("f1", true)]),
            },
            DisplayArm { shape: named("Foo :: Baz", &["billy"]), writes: Ok(vec![text("bar"), value("billy", false)]) },
        ]
    );
}

#[test]
fn parse_enum() {
    assert_eq!(
        parse_for_enum(&fmt(""), &s("Foo"), &foo_variants()),
        Ok(NomCode::Alt {
            variants: vec![
                tag(
                    "foo",
                    parse(
                        Marker::Display,
                        "f0",
                        false,
                        ws(tag(
                            "uwu",
                            parse(
                                Marker::LowerHex,
                                "f1",
                                false,
                                construct(positional("Foo :: Bar", &["f0", "f1"]))
                            )
                        ))
                    )
                ),
                tag(
                    "bar",
                    parse(Marker::Display, "billy", false, construct(named("Foo :: Baz", &["billy"])))
                ),
            ],
        })
    );
}

#[test]
fn tqparse_inner() {
    let f = fmt("HIA{foo:x} {bar}");
    assert_eq!(
        parse_for_struct(s("Billy"), &f),
        tag(
            "HIA",
            parse(
                Marker::LowerHex,
                "foo",
                false,
                ws(parse(Marker::Display, "bar", false, construct(named("Billy", &["bar", "foo"]))))
            )
        )
    );
    assert_eq!(
        struct_display(&s("Billy"), &f),
        DisplayArm {
            shape: named("Billy", &["bar", "foo"]),
            writes: Ok(vec![text("HIA"), value("foo", true), text(" "), value("bar", false)]),
        }
    );
}

#[test]
fn tqparse_inner_enum() {
    let variants = vec![(s("Bob"), fmt("bob{s}")), (s("String"), fmt("{0}"))];
    assert_eq!(
        enum_display(&s("BobOrNot"), &variants),
        vec![
            DisplayArm { shape: named("BobOrNot :: Bob", &["s"]), writes: Ok(vec![text("bob"), value("s", false)]) },
            DisplayArm { shape: positional("BobOrNot :: String", &["f0"]), writes: Ok(vec![value("f0", false)]) },
        ]
    );
    assert_eq!(
        parse_for_enum(&fmt(""), &s("BobOrNot"), &variants),
        Ok(NomCode::Alt {
            variants: vec![
                tag("bob", parse(Marker::Display, "s", false, construct(named("BobOrNot :: Bob", &["s"])))),
                parse(Marker::Display, "f0", false, construct(positional("BobOrNot :: String", &["f0"]))),
            ],
        })
    );
}

#[test]
fn enum_prefix_refused() {
    assert_eq!(
        parse_for_enum(&fmt("x"), &s("Foo"), &foo_variants()),
        Err(s("Enums only support per-variant parsers"))
    );
    assert_eq!(
        parse_for_enum(&fmt("{a}"), &s("Foo"), &foo_variants()),
        Err(s("Enums only support per-variant parsers"))
    );
}

#[test]
fn repeated_field_is_verified() {
    let code = parse_for_struct(s("V"), &fmt("i{width} {a},i{width} {b}"));
    assert_eq!(
        code,
        tag(
            "i",
            parse(
                Marker::Display,
                "width",
                false,
                ws(parse(
                    Marker::Display,
                    "a",
                    false,
                    tag(
                        ",i",
                        parse(
                            Marker::Display,
                            "width",
                            true,
                            ws(parse(Marker::Display, "b", false, construct(named("V", &["a", "b", "width"]))))
                        )
                    )
                ))
            )
        )
    );
}

#[test]
fn unsupported_specs_become_errors() {
    assert_eq!(parse_for_struct(s("T"), &fmt("{a:5}")), NomCode::Error(s("width not supported!")));
    assert_eq!(parse_for_struct(s("T"), &fmt("x{a:<}")), tag("x", NomCode::Error(s("fill_align not supported!"))));
    assert_eq!(parse_for_struct(s("T"), &fmt("{a:+}")), NomCode::Error(s("sign not supported!")));
    assert_eq!(parse_for_struct(s("T"), &fmt("{a:#}")), NomCode::Error(s("alt_form not supported!")));
    assert_eq!(parse_for_struct(s("T"), &fmt("{a:0}")), NomCode::Error(s("sign_aware_zero_pad not supported!")));
    assert_eq!(parse_for_struct(s("T"), &fmt("{a:.3}")), NomCode::Error(s("precision not supported!")));
    assert_eq!(parse_for_struct(s("T"), &fmt("{a:?}")), NomCode::Error(s("Debug not supported in parsers!")));
    assert_eq!(parse_for_struct(s("T"), &fmt("{a:p}")), NomCode::Error(s("Pointer not supported in parsers!")));
    assert_eq!(
        parse_for_struct(s("T"), &fmt("{a:o}{b:b}{c:X}{d:e}{e:E}")),
        parse(Marker::Octal, "a", false, parse(Marker::Binary, "b", false, parse(Marker::UpperHex, "c", false,
            parse(Marker::LowerExp, "d", false, parse(Marker::UpperExp, "e", false,
                construct(named("T", &["a", "b", "c", "d", "e"]))))))));
}

#[test]
fn display_errors() {
    assert_eq!(display_writes(&fmt("a{x:o}")), Err(s("unsupported fmt type Octal for x!")));
    assert_eq!(display_writes(&fmt("{3:?}")), Err(s("unsupported fmt type Debug for f3!")));
    assert_eq!(display_writes(&fmt("{x:>5}")), Err(s("fill_align not supported!")));
    assert_eq!(display_writes(&fmt("{x}{y:9}")), Err(s("width not supported!")));
}

#[test]
fn mixed_fields() {
    assert_eq!(
        type_destructure(&s("Foo"), &fmt("{0}{a}")),
        Destructure::Mixed(s("Nonsense mix of named / unnamed fields in Foo"))
    );
    assert_eq!(
        parse_for_struct(s("Foo"), &fmt("{0}{a}")),
        parse(Marker::Display, "f0", false, parse(Marker::Display, "a", false,
            construct(Destructure::Mixed(s("Nonsense mix of named / unnamed fields in Foo")))))
    );
}

#[test]
fn no_fields_is_named() {
    assert_eq!(type_destructure_inner(&s("Unit"), &vec![]), named("Unit", &[]));
}

#[test]
fn positional_sorted_by_number() {
    let args = vec![Argument::Intiger(10), Argument::Intiger(2), Argument::Intiger(10)];
    assert_eq!(type_destructure_inner(&s("T"), &args), positional("T", &["f2", "f10"]));
}

#[test]
fn sorting_arguments() {
    let args = vec![
        Argument::Identifier(s("b")),
        Argument::Intiger(3),
        Argument::Identifier(s("a")),
        Argument::Identifier(s("ab")),
        Argument::Intiger(1),
        Argument::Identifier(s("b")),
        Argument::Intiger(3),
    ];
    let sorted = sorted_unique(&args);
    let mut expected = args.clone();
    expected.sort();
    expected.dedup();
    assert_eq!(sorted, expected);
    assert_eq!(sorted_unique(&sorted), sorted);
}

#[test]
fn argument_helpers() {
    let a = Argument::Intiger(4);
    let b = Argument::Identifier(s("x"));
    assert!(a.is_intiger() && !a.is_identifier());
    assert!(b.is_identifier() && !b.is_intiger());
    assert_eq!(a.as_intiger(), Some(&4));
    assert_eq!(a.as_identifier(), None);
    assert_eq!(b.as_identifier(), Some(&s("x")));
    assert_eq!(b.as_intiger(), None);
    assert!(a.lt(&b) && !b.lt(&a));
    assert!(a.same(&Argument::Intiger(4)) && !a.same(&b));
    assert_eq!(a.binding(), "f4");
    assert_eq!(b.binding(), "x");
}

#[test]
fn decimal_strings() {
    for n in [0usize, 7, 10, 99, 100, 12345, usize::MAX] {
        assert_eq!(decimal_string(n), n.to_string());
    }
}

#[test]
fn qparse_paths() {
    assert!(is_qparse(&vec![s("qparse")]));
    assert!(is_qparse(&vec![s("qparse"), s("qparse")]));
    assert!(!is_qparse(&vec![s("other")]));
    assert!(!is_qparse(&vec![s("qparse"), s("other")]));
    assert!(!is_qparse(&vec![]));
    assert!(!is_qparse(&vec![s("qparse"), s("qparse"), s("qparse")]));
    let paths = vec![vec![s("doc")], vec![s("qparse")], vec![s("qparse")]];
    assert_eq!(qparse_attr_position(&paths), Some(1));
    assert_eq!(qparse_attr_position(&vec![vec![s("doc")]]), None);
}

#[test]
fn display_and_parser_agree_on_example() {
    let f = fmt("a{x} b\tc{y:x}d");
    assert_eq!(
        display_writes(&f),
        Ok(vec![text("a"), value("x", false), text(" b\tc"), value("y", true), text("d")])
    );
    assert_eq!(
        parse_for_struct(s("P"), &f),
        tag(
            "a",
            parse(
                Marker::Display,
                "x",
                false,
                ws(tag(
                    "b",
                    ws(tag(
                        "c",
                        parse(Marker::LowerHex, "y", false, tag("d", construct(named("P", &["x", "y"])))),
                    )),
                )),
            ),
        )
    );
}
