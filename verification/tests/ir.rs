use qparse::fmt_string::{Argument, FormatSpec, FormatString};
use qparse::ir::ParserIR;

fn leaf(name: &str) -> ParserIR {
    ParserIR::Construct { ident: name.to_string(), args: vec![] }
}

fn tag(t: &str, inner: ParserIR) -> ParserIR {
    ParserIR::Tag { tag: t.to_string(), inner: Box::new(inner) }
}

fn ws(inner: ParserIR) -> ParserIR {
    ParserIR::Whitespace { inner: Box::new(inner) }
}

fn parse_arg(arg: Argument, verifier: bool, inner: ParserIR) -> ParserIR {
    ParserIR::Parse { spec: FormatSpec::default(), arg, inner: Box::new(inner), verifier }
}

#[test]
fn from_fmt_builds_chain() {
    let f = FormatString::parse("a{x}b{0:x}").unwrap().1;
    let ir = ParserIR::from_fmt(&f, "T".to_string());
    let expected_args = vec![Argument::Intiger(0), Argument::Identifier("x".to_string())];
    match ir {
        ParserIR::Tag { tag, inner } => {
            assert_eq!(tag, "a");
            match *inner {
                ParserIR::Parse { arg, inner, verifier, .. } => {
                    assert_eq!(arg, Argument::Identifier("x".to_string()));
                    assert!(!verifier);
                    match *inner {
                        ParserIR::Tag { tag, inner } => {
                            assert_eq!(tag, "b");
                            match *inner {
                                ParserIR::Parse { arg, inner, .. } => {
                                    assert_eq!(arg, Argument::Intiger(0));
                                    assert_eq!(*inner, ParserIR::Construct { ident: "T".to_string(), args: expected_args });
                                }
                                other => panic!("unexpected {:?}", other),
                            }
                        }
                        other => panic!("unexpected {:?}", other),
                    }
                }
                other => panic!("unexpected {:?}", other),
            }
        }
        other => panic!("unexpected {:?}", other),
    }
}

#[test]
fn tag_adjust_splits_at_whitespace() {
    let mut ir = tag("a  b\tc ", leaf("T"));
    ir.tag_adjust();
    assert_eq!(ir, tag("a", ws(tag("b", ws(tag("c", ws(leaf("T"))))))));
}

#[test]
fn tag_adjust_leading_whitespace() {
    let mut ir = tag(" x", leaf("T"));
    ir.tag_adjust();
    assert_eq!(ir, ws(tag("x", leaf("T"))));
}

#[test]
fn tag_adjust_unicode_whitespace() {
    let mut ir = tag("a\u{3000}b", leaf("T"));
    ir.tag_adjust();
    assert_eq!(ir, tag("a", ws(tag("b", leaf("T")))));
}

#[test]
fn tag_adjust_keeps_tags_without_whitespace() {
    let mut ir = ParserIR::Alt { variants: vec![tag("ab", leaf("A")), ws(tag("c d", leaf("B")))] };
    ir.tag_adjust();
    assert_eq!(
        ir,
        ParserIR::Alt { variants: vec![tag("ab", leaf("A")), ws(tag("c", ws(tag("d", leaf("B")))))] }
    );
}

#[test]
fn insert_verifiers_marks_repeats() {
    let a = Argument::Identifier("a".to_string());
    let b = Argument::Intiger(1);
    let mut ir = parse_arg(a.clone(), false, parse_arg(b.clone(), false, parse_arg(a.clone(), false, leaf("T"))));
    ir.insert_verifiers();
    let expected = parse_arg(a.clone(), false, parse_arg(b.clone(), false, parse_arg(a.clone(), true, leaf("T"))));
    assert_eq!(ir, expected);
    let mut again = expected;
    again.insert_verifiers();
    assert_eq!(again, ir);
}

#[test]
fn insert_verifiers_separate_alternatives() {
    let a = Argument::Identifier("a".to_string());
    let mut ir = ParserIR::Alt {
        variants: vec![parse_arg(a.clone(), false, leaf("A")), parse_arg(a.clone(), false, leaf("B"))],
    };
    ir.insert_verifiers();
    assert_eq!(
        ir,
        ParserIR::Alt {
            variants: vec![parse_arg(a.clone(), false, leaf("A")), parse_arg(a.clone(), false, leaf("B"))],
        }
    );
}

#[test]
fn insert_verifiers_sentinel_position() {
    let m = Argument::Intiger(usize::MAX);
    let mut ir = parse_arg(m.clone(), false, leaf("T"));
    ir.insert_verifiers();
    assert_eq!(ir, parse_arg(m, true, leaf("T")));
}

fn leaves(n: usize) -> Vec<ParserIR> {
    (0..n).map(|k| leaf(&format!("V{}", k))).collect()
}

fn shape(ir: &ParserIR) -> String {
    match ir {
        ParserIR::Alt { variants } => {
            let inner: Vec<String> = variants.iter().map(shape).collect();
            format!("[{}]", inner.join(","))
        }
        _ => ".".to_string(),
    }
}

fn check_small(ir: &ParserIR) {
    if let ParserIR::Alt { variants } = ir {
        assert!(variants.len() != 1 && variants.len() <= 20);
        variants.iter().for_each(check_small);
    }
}

#[test]
fn normalize_small_alt_unchanged() {
    let mut ir = ParserIR::Alt { variants: leaves(20) };
    ir.normalize_alt();
    assert_eq!(ir, ParserIR::Alt { variants: leaves(20) });
}

#[test]
fn normalize_single_alt_collapses() {
    let mut ir = ParserIR::Alt { variants: leaves(1) };
    ir.normalize_alt();
    assert_eq!(ir, leaf("V0"));
    let mut empty = ParserIR::Alt { variants: vec![] };
    empty.normalize_alt();
    assert_eq!(empty, ParserIR::Alt { variants: vec![] });
}

#[test]
fn normalize_groups_by_twenty() {
    let mut ir = ParserIR::Alt { variants: leaves(21) };
    ir.normalize_alt();
    let twenty = vec!["."; 20].join(",");
    assert_eq!(shape(&ir), format!("[[{}],.]", twenty));
    check_small(&ir);
    let mut again = ParserIR::Alt { variants: leaves(21) };
    again.normalize_alt();
    let first = again.clone();
    again.normalize_alt();
    assert_eq!(again, first);
}

#[test]
fn normalize_groups_twice() {
    let mut ir = ParserIR::Alt { variants: leaves(401) };
    ir.normalize_alt();
    check_small(&ir);
    match &ir {
        ParserIR::Alt { variants } => assert_eq!(variants.len(), 2),
        _ => panic!("expected alternatives"),
    }
}

#[test]
fn normalize_inside_steps() {
    let mut ir = tag("t", ParserIR::Alt { variants: vec![ParserIR::Alt { variants: leaves(1) }] });
    ir.normalize_alt();
    assert_eq!(ir, tag("t", leaf("V0")));
}

#[test]
fn opt_changes_nothing() {
    let mut ir = tag("t", leaf("T"));
    ir.opt();
    assert_eq!(ir, tag("t", leaf("T")));
}
