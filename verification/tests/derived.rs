//! The parsers that `qparse` derives for two structs, written out as the code that the
//! derive emits for them, and checked against the derivation itself.
use qparse::codegen::{parse_for_struct, Destructure, Marker, NomCode};
use qparse::fmt_string::FormatString;
use qparse::{Display, ErrorKind, ParseError, Parseable};

#[derive(Debug, PartialEq)]
struct SomeInstr {
    some_val: u64,
}

impl Parseable<Display> for SomeInstr {
    fn parse(qparse_input_ident: &str) -> Result<(&str, Self), ParseError<'_>> {
        let qparse_input_ident = qparse::tag(qparse_input_ident, "call")?;
        let qparse_input_ident = qparse::multispace1(qparse_input_ident)?;
        let qparse_input_ident = qparse::tag(qparse_input_ident, "@llvm.uwu.owo(i64")?;
        let qparse_input_ident = qparse::multispace1(qparse_input_ident)?;
        let (qparse_input_ident, some_val) =
            <u64 as Parseable<Display>>::parse(qparse_input_ident)?;
        let qparse_input_ident = qparse::tag(qparse_input_ident, ")")?;
        Ok((qparse_input_ident, SomeInstr { some_val }))
    }
}

#[derive(Debug, PartialEq)]
struct VerifierTest {
    some_val: u64,
    width: u8,
    other_val: u64,
}

impl Parseable<Display> for VerifierTest {
    fn parse(qparse_input_ident: &str) -> Result<(&str, Self), ParseError<'_>> {
        let qparse_input_ident = qparse::tag(qparse_input_ident, "call")?;
        let qparse_input_ident = qparse::multispace1(qparse_input_ident)?;
        let qparse_input_ident = qparse::tag(qparse_input_ident, "@llvm.same_bitwidth(i")?;
        let (qparse_input_ident, width) = <u8 as Parseable<Display>>::parse(qparse_input_ident)?;
        let qparse_input_ident = qparse::multispace1(qparse_input_ident)?;
        let (qparse_input_ident, some_val) =
            <u64 as Parseable<Display>>::parse(qparse_input_ident)?;
        let qparse_input_ident = qparse::tag(qparse_input_ident, ",i")?;
        let qparse_verify_start_ident = qparse_input_ident;
        let (qparse_input_ident, qparse_verifier_ident) =
            <u8 as Parseable<Display>>::parse(qparse_input_ident)?;
        if qparse_verifier_ident != width {
            return Err(ParseError { input: qparse_verify_start_ident, kind: ErrorKind::Verify });
        }
        let qparse_input_ident = qparse::multispace1(qparse_input_ident)?;
        let (qparse_input_ident, other_val) =
            <u64 as Parseable<Display>>::parse(qparse_input_ident)?;
        let qparse_input_ident = qparse::tag(qparse_input_ident, ")")?;
        Ok((qparse_input_ident, VerifierTest { other_val, some_val, width }))
    }
}

fn step(t: &str, inner: NomCode) -> NomCode {
    NomCode::Tag { tag: t.to_string(), inner: Box::new(inner) }
}

fn ws(inner: NomCode) -> NomCode {
    NomCode::Whitespace { inner: Box::new(inner) }
}

fn field(b: &str, verifier: bool, inner: NomCode) -> NomCode {
    NomCode::Parse { marker: Marker::Display, binding: b.to_string(), verifier, inner: Box::new(inner) }
}

#[test]
fn derivations_match_the_written_out_parsers() {
    let f = FormatString::parse("call @llvm.uwu.owo(i64 {some_val})").unwrap().1;
    assert_eq!(
        parse_for_struct("SomeInstr".to_string(), &f),
        step("call", ws(step("@llvm.uwu.owo(i64", ws(field("some_val", false, step(")",
            NomCode::Construct { shape: Destructure::Named { path: "SomeInstr".to_string(), names: vec!["some_val".to_string()] } }))))))
    );
    let f = FormatString::parse("call @llvm.same_bitwidth(i{width} {some_val},i{width} {other_val})").unwrap().1;
    assert_eq!(
        parse_for_struct("VerifierTest".to_string(), &f),
        step("call", ws(step("@llvm.same_bitwidth(i", field("width", false, ws(field("some_val", false,
            step(",i", field("width", true, ws(field("other_val", false, step(")",
                NomCode::Construct {
                    shape: Destructure::Named {
                        path: "VerifierTest".to_string(),
                        names: vec![
                            "other_val".to_string(),
                            "some_val".to_string(),
                            "width".to_string(),
                        ],
                    },
                })))))))))))
    );
}

#[test]
fn some_instr_parse() {
    assert_eq!(
        SomeInstr::parse("call @llvm.uwu.owo(i64 67)").unwrap().1,
        SomeInstr { some_val: 67 }
    );
}

#[test]
fn repeated_field_verifier() {
    assert_eq!(
        VerifierTest::parse("call @llvm.same_bitwidth(i8 67,i8 123)").unwrap().1,
        VerifierTest { some_val: 67, other_val: 123, width: 8 }
    );
    assert_eq!(
        VerifierTest::parse("call @llvm.same_bitwidth(i16 67,i16 123)").unwrap().1,
        VerifierTest { some_val: 67, other_val: 123, width: 16 }
    );
    assert!(VerifierTest::parse("call @llvm.same_bitwidth(i16 67,i8 123)").is_err());
}

#[test]
fn repeated_field_mismatch_is_a_verify_error() {
    assert_eq!(
        VerifierTest::parse("call @llvm.same_bitwidth(i16 67,i8 123)"),
        Err(ParseError { input: "8 123)", kind: ErrorKind::Verify })
    );
}
