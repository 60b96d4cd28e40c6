use qparse::fmt_string::{
    Align, Argument, Count, Format, FormatError, FormatSpec, FormatString, Precision, Sign, Type,
};

fn spec_of(s: &str) -> FormatSpec {
    let (_, f) = FormatString::parse(s).unwrap();
    let mut fragments = f.fragments;
    assert_eq!(fragments.len(), 1);
    fragments.remove(0).0.fmt_spec
}

#[test]
fn empty_fmt() {
    FormatString::parse("").unwrap();
}

#[test]
fn escped() {
    assert_eq!(FormatString::parse("{{").unwrap().1.text, "{");
    assert_eq!(FormatString::parse("}}").unwrap().1.text, "}");
    assert_eq!(FormatString::parse("{{}}").unwrap().1.text, "{}");
}

#[test]
fn fmt() {
    FormatString::parse("string{val:x}").unwrap();
}

#[test]
fn parse_leaves_nothing() {
    let (rest, f) = FormatString::parse("a{b}c").unwrap();
    assert_eq!(rest, "");
    assert_eq!(f.text, "a");
    assert_eq!(f.fragments.len(), 1);
    assert_eq!(f.fragments[0].0.argument, Argument::Identifier("b".to_string()));
    assert_eq!(f.fragments[0].1, "c");
}

#[test]
fn text_only() {
    let (_, f) = FormatString::parse("no formats here").unwrap();
    assert_eq!(f.text, "no formats here");
    assert!(f.fragments.is_empty());
}

#[test]
fn escaped_text_reads_back() {
    let (_, f) = FormatString::parse("a{{b}}c{{{{").unwrap();
    assert_eq!(f.text, "a{b}c{{");
    assert!(f.fragments.is_empty());
}

#[test]
fn fragments_in_order() {
    let (_, f) = FormatString::parse("x{0} and {name:x}!{{").unwrap();
    assert_eq!(f.text, "x");
    assert_eq!(f.fragments.len(), 2);
    assert_eq!(f.fragments[0].0.argument, Argument::Intiger(0));
    assert_eq!(f.fragments[0].1, " and ");
    assert_eq!(f.fragments[1].0.argument, Argument::Identifier("name".to_string()));
    assert_eq!(f.fragments[1].0.fmt_spec.tpe, Type::LowerHex);
    assert_eq!(f.fragments[1].1, "!{");
    assert_eq!(
        f.named_fields(),
        vec![Argument::Intiger(0), Argument::Identifier("name".to_string())]
    );
}

#[test]
fn single_brace_is_error() {
    assert_eq!(FormatString::parse("ab}c").unwrap_err(), FormatError { offset: 2 });
    assert_eq!(FormatString::parse("{").unwrap_err(), FormatError { offset: 0 });
    assert_eq!(FormatString::parse("x{a").unwrap_err(), FormatError { offset: 1 });
}

#[test]
fn missing_argument_is_error() {
    assert_eq!(FormatString::parse("{}").unwrap_err(), FormatError { offset: 0 });
    assert_eq!(FormatString::parse("a{:x}").unwrap_err(), FormatError { offset: 1 });
}

#[test]
fn error_after_first_format() {
    assert_eq!(FormatString::parse("{a}b{c").unwrap_err(), FormatError { offset: 4 });
}

#[test]
fn trailing_whitespace_in_format() {
    let (_, f) = FormatString::parse("{a  \t}").unwrap();
    assert_eq!(f.fragments[0].0.argument, Argument::Identifier("a".to_string()));
}

#[test]
fn identifier_with_underscore_and_unicode() {
    let (_, f) = FormatString::parse("{_x1}{é}").unwrap();
    assert_eq!(f.fragments[0].0.argument, Argument::Identifier("_x1".to_string()));
    assert_eq!(f.fragments[1].0.argument, Argument::Identifier("é".to_string()));
}

#[test]
fn positional_too_large_is_error() {
    assert!(FormatString::parse("{99999999999999999999999}").is_err());
}

#[test]
fn default_spec_when_no_colon() {
    assert_eq!(spec_of("{a}"), FormatSpec::default());
}

#[test]
fn full_format_spec() {
    let s = spec_of("{a:*^+#012.5x}");
    assert_eq!(s.fill_align, Some((Some('*'), Align::Center)));
    assert_eq!(s.sign, Some(Sign::Plus));
    assert!(s.alt_form);
    assert!(s.sign_aware_zero_pad);
    assert_eq!(s.width, Some(Count::Intiger(12)));
    assert_eq!(s.precision, Some(Precision::Count(Count::Intiger(5))));
    assert_eq!(s.tpe, Type::LowerHex);
}

#[test]
fn align_without_fill() {
    let s = spec_of("{a:<}");
    assert_eq!(s.fill_align, Some((None, Align::Left)));
    let s = spec_of("{a:>>}");
    assert_eq!(s.fill_align, Some((Some('>'), Align::Right)));
}

#[test]
fn width_and_precision_from_arguments() {
    let s = spec_of("{a:w$.*}");
    assert_eq!(s.width, Some(Count::Parameter(Argument::Identifier("w".to_string()))));
    assert_eq!(s.precision, Some(Precision::FromArg));
    let s = spec_of("{a:1$.2$?}");
    assert_eq!(s.width, Some(Count::Parameter(Argument::Intiger(1))));
    assert_eq!(s.precision, Some(Precision::Count(Count::Parameter(Argument::Intiger(2)))));
    assert_eq!(s.tpe, Type::Debug);
}

#[test]
fn every_type_letter() {
    let cases = [
        ("x?", Type::DebugLowerHex),
        ("X?", Type::DebugUpperHex),
        ("?", Type::Debug),
        ("o", Type::Octal),
        ("x", Type::LowerHex),
        ("X", Type::UpperHex),
        ("p", Type::Pointer),
        ("b", Type::Binary),
        ("e", Type::LowerExp),
        ("E", Type::UpperExp),
        ("", Type::Display),
    ];
    for (letters, t) in cases {
        let s = spec_of(&format!("{{a:{}}}", letters));
        assert_eq!(s.tpe, t);
    }
}

#[test]
fn sign_minus() {
    assert_eq!(spec_of("{a:-}").sign, Some(Sign::Minus));
}

#[test]
fn dot_without_precision_is_error() {
    assert!(FormatString::parse("{a:.}").is_err());
}

#[test]
fn named_field_of_format() {
    let (_, f) = FormatString::parse("{7}").unwrap();
    let fr: &Format = &f.fragments[0].0;
    assert_eq!(fr.named_field(), &Argument::Intiger(7));
}

#[test]
fn type_is_never_custom() {
    assert!(!Type::Display.is_custom());
    assert!(!Type::Pointer.is_custom());
}

fn chars(s: &str) -> Vec<char> {
    s.chars().collect()
}

#[test]
fn type_fails_where_more_input_could_follow() {
    assert!(qparse::fmt_string::Type::parse(&chars(""), 0).is_none());
    assert!(qparse::fmt_string::Type::parse(&chars("x"), 0).is_none());
    assert!(qparse::fmt_string::Type::parse(&chars("X"), 0).is_none());
    assert!(matches!(
        qparse::fmt_string::Type::parse(&chars("x}"), 0),
        Some((qparse::fmt_string::Type::LowerHex, 1))
    ));
    assert!(matches!(
        qparse::fmt_string::Type::parse(&chars("}"), 0),
        Some((qparse::fmt_string::Type::Display, 0))
    ));
    assert!(matches!(
        qparse::fmt_string::Type::parse(&chars("X?"), 0),
        Some((qparse::fmt_string::Type::DebugUpperHex, 2))
    ));
}

#[test]
fn spec_fails_at_end_of_input() {
    for s in ["", ">", "+#0", "5.", "5x", "5"] {
        assert!(FormatSpec::parse(s, &chars(s), 0).is_none(), "{s}");
    }
    assert!(FormatSpec::parse("5}", &chars("5}"), 0).is_some());
    assert!(FormatSpec::parse(".}", &chars(".}"), 0).is_some());
}

#[test]
fn unfinished_format_strings_fail() {
    for s in ["{a:", "{a:x", "{a:X", "{a:5", "{a:5.", "{a"] {
        assert!(FormatString::parse(s).is_err(), "{s}");
    }
}
