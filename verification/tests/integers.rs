use qparse::integers::{nonzero_u128, nonzero_u16, nonzero_u32, nonzero_u64, nonzero_u8};
use qparse::{Binary, Display, ErrorKind, LowerHex, Octal, ParseError, Parseable, UpperHex};

fn err(input: &str, kind: ErrorKind) -> ParseError<'_> {
    ParseError { input, kind }
}

#[test]
fn u8_disp_0() {
    assert_eq!(<u8 as Parseable<Display>>::parse("0").unwrap().1, 0);
}

#[test]
fn u8_disp_max() {
    assert_eq!(<u8 as Parseable<Display>>::parse(&u8::MAX.to_string()).unwrap().1, u8::MAX);
}

#[test]
fn u8_disp_overflow_is_err() {
    let too_big = format!("{}0", u8::MAX);
    assert!(<u8 as Parseable<Display>>::parse(&too_big).is_err());
}

#[test]
fn u8_octal_0() {
    assert_eq!(<u8 as Parseable<Octal>>::parse("0").unwrap().1, 0);
}

#[test]
fn u8_octal_9_is_err() {
    assert!(<u8 as Parseable<Octal>>::parse("9").is_err());
}

#[test]
fn u8_bin_0() {
    assert_eq!(<u8 as Parseable<Binary>>::parse("0").unwrap().1, 0);
}

#[test]
fn u8_bin_67() {
    assert_eq!(<u8 as Parseable<Binary>>::parse("1000011").unwrap().1, 67);
}

#[test]
fn u8_hex_0() {
    assert_eq!(<u8 as Parseable<LowerHex>>::parse("0").unwrap().1, 0);
    assert_eq!(<u8 as Parseable<UpperHex>>::parse("0").unwrap().1, 0);
}

#[test]
fn u8_round_trips() {
    for v in [0, 1, 7, 8, 9, 10, 15, 16, 100, u8::MAX / 3, u8::MAX - 1, u8::MAX] {
        assert_eq!(<u8 as Parseable<Display>>::parse(&format!("{}z", v)).unwrap(), ("z", v));
        assert_eq!(<u8 as Parseable<Octal>>::parse(&format!("{:o}9", v)).unwrap(), ("9", v));
        assert_eq!(<u8 as Parseable<Binary>>::parse(&format!("{:b}2", v)).unwrap(), ("2", v));
        assert_eq!(<u8 as Parseable<LowerHex>>::parse(&format!("{:x}g", v)).unwrap(), ("g", v));
        assert_eq!(<u8 as Parseable<UpperHex>>::parse(&format!("{:X} ", v)).unwrap(), (" ", v));
        assert_eq!(<u8 as Parseable<Display>>::simple_parse(&format!("{}", v)).unwrap(), ("", v));
    }
}

#[test]
fn u8_nonzero() {
    assert_eq!(nonzero_u8("12x", false).unwrap(), ("x", 12));
    assert_eq!(nonzero_u8("1fz", true).unwrap(), ("z", 31));
    assert_eq!(nonzero_u8("0", false), Err(err("0", ErrorKind::MapOpt)));
    assert_eq!(nonzero_u8("000", true), Err(err("000", ErrorKind::MapOpt)));
    assert_eq!(nonzero_u8("q", true), Err(err("q", ErrorKind::HexDigit)));
}

#[test]
fn u16_disp_0() {
    assert_eq!(<u16 as Parseable<Display>>::parse("0").unwrap().1, 0);
}

#[test]
fn u16_disp_max() {
    assert_eq!(<u16 as Parseable<Display>>::parse(&u16::MAX.to_string()).unwrap().1, u16::MAX);
}

#[test]
fn u16_disp_overflow_is_err() {
    let too_big = format!("{}0", u16::MAX);
    assert!(<u16 as Parseable<Display>>::parse(&too_big).is_err());
}

#[test]
fn u16_octal_0() {
    assert_eq!(<u16 as Parseable<Octal>>::parse("0").unwrap().1, 0);
}

#[test]
fn u16_octal_9_is_err() {
    assert!(<u16 as Parseable<Octal>>::parse("9").is_err());
}

#[test]
fn u16_bin_0() {
    assert_eq!(<u16 as Parseable<Binary>>::parse("0").unwrap().1, 0);
}

#[test]
fn u16_bin_67() {
    assert_eq!(<u16 as Parseable<Binary>>::parse("1000011").unwrap().1, 67);
}

#[test]
fn u16_hex_0() {
    assert_eq!(<u16 as Parseable<LowerHex>>::parse("0").unwrap().1, 0);
    assert_eq!(<u16 as Parseable<UpperHex>>::parse("0").unwrap().1, 0);
}

#[test]
fn u16_round_trips() {
    for v in [0, 1, 7, 8, 9, 10, 15, 16, 100, u16::MAX / 3, u16::MAX - 1, u16::MAX] {
        assert_eq!(<u16 as Parseable<Display>>::parse(&format!("{}z", v)).unwrap(), ("z", v));
        assert_eq!(<u16 as Parseable<Octal>>::parse(&format!("{:o}9", v)).unwrap(), ("9", v));
        assert_eq!(<u16 as Parseable<Binary>>::parse(&format!("{:b}2", v)).unwrap(), ("2", v));
        assert_eq!(<u16 as Parseable<LowerHex>>::parse(&format!("{:x}g", v)).unwrap(), ("g", v));
        assert_eq!(<u16 as Parseable<UpperHex>>::parse(&format!("{:X} ", v)).unwrap(), (" ", v));
        assert_eq!(<u16 as Parseable<Display>>::simple_parse(&format!("{}", v)).unwrap(), ("", v));
    }
}

#[test]
fn u16_nonzero() {
    assert_eq!(nonzero_u16("12x", false).unwrap(), ("x", 12));
    assert_eq!(nonzero_u16("1fz", true).unwrap(), ("z", 31));
    assert_eq!(nonzero_u16("0", false), Err(err("0", ErrorKind::MapOpt)));
    assert_eq!(nonzero_u16("000", true), Err(err("000", ErrorKind::MapOpt)));
    assert_eq!(nonzero_u16("q", true), Err(err("q", ErrorKind::HexDigit)));
}

#[test]
fn u32_disp_0() {
    assert_eq!(<u32 as Parseable<Display>>::parse("0").unwrap().1, 0);
}

#[test]
fn u32_disp_max() {
    assert_eq!(<u32 as Parseable<Display>>::parse(&u32::MAX.to_string()).unwrap().1, u32::MAX);
}

#[test]
fn u32_disp_overflow_is_err() {
    let too_big = format!("{}0", u32::MAX);
    assert!(<u32 as Parseable<Display>>::parse(&too_big).is_err());
}

#[test]
fn u32_octal_0() {
    assert_eq!(<u32 as Parseable<Octal>>::parse("0").unwrap().1, 0);
}

#[test]
fn u32_octal_9_is_err() {
    assert!(<u32 as Parseable<Octal>>::parse("9").is_err());
}

#[test]
fn u32_bin_0() {
    assert_eq!(<u32 as Parseable<Binary>>::parse("0").unwrap().1, 0);
}

#[test]
fn u32_bin_67() {
    assert_eq!(<u32 as Parseable<Binary>>::parse("1000011").unwrap().1, 67);
}

#[test]
fn u32_hex_0() {
    assert_eq!(<u32 as Parseable<LowerHex>>::parse("0").unwrap().1, 0);
    assert_eq!(<u32 as Parseable<UpperHex>>::parse("0").unwrap().1, 0);
}

#[test]
fn u32_round_trips() {
    for v in [0, 1, 7, 8, 9, 10, 15, 16, 100, u32::MAX / 3, u32::MAX - 1, u32::MAX] {
        assert_eq!(<u32 as Parseable<Display>>::parse(&format!("{}z", v)).unwrap(), ("z", v));
        assert_eq!(<u32 as Parseable<Octal>>::parse(&format!("{:o}9", v)).unwrap(), ("9", v));
        assert_eq!(<u32 as Parseable<Binary>>::parse(&format!("{:b}2", v)).unwrap(), ("2", v));
        assert_eq!(<u32 as Parseable<LowerHex>>::parse(&format!("{:x}g", v)).unwrap(), ("g", v));
        assert_eq!(<u32 as Parseable<UpperHex>>::parse(&format!("{:X} ", v)).unwrap(), (" ", v));
        assert_eq!(<u32 as Parseable<Display>>::simple_parse(&format!("{}", v)).unwrap(), ("", v));
    }
}

#[test]
fn u32_nonzero() {
    assert_eq!(nonzero_u32("12x", false).unwrap(), ("x", 12));
    assert_eq!(nonzero_u32("1fz", true).unwrap(), ("z", 31));
    assert_eq!(nonzero_u32("0", false), Err(err("0", ErrorKind::MapOpt)));
    assert_eq!(nonzero_u32("000", true), Err(err("000", ErrorKind::MapOpt)));
    assert_eq!(nonzero_u32("q", true), Err(err("q", ErrorKind::HexDigit)));
}

#[test]
fn u64_disp_0() {
    assert_eq!(<u64 as Parseable<Display>>::parse("0").unwrap().1, 0);
}

#[test]
fn u64_disp_max() {
    assert_eq!(<u64 as Parseable<Display>>::parse(&u64::MAX.to_string()).unwrap().1, u64::MAX);
}

#[test]
fn u64_disp_overflow_is_err() {
    let too_big = format!("{}0", u64::MAX);
    assert!(<u64 as Parseable<Display>>::parse(&too_big).is_err());
}

#[test]
fn u64_octal_0() {
    assert_eq!(<u64 as Parseable<Octal>>::parse("0").unwrap().1, 0);
}

#[test]
fn u64_octal_9_is_err() {
    assert!(<u64 as Parseable<Octal>>::parse("9").is_err());
}

#[test]
fn u64_bin_0() {
    assert_eq!(<u64 as Parseable<Binary>>::parse("0").unwrap().1, 0);
}

#[test]
fn u64_bin_67() {
    assert_eq!(<u64 as Parseable<Binary>>::parse("1000011").unwrap().1, 67);
}

#[test]
fn u64_hex_0() {
    assert_eq!(<u64 as Parseable<LowerHex>>::parse("0").unwrap().1, 0);
    assert_eq!(<u64 as Parseable<UpperHex>>::parse("0").unwrap().1, 0);
}

#[test]
fn u64_round_trips() {
    for v in [0, 1, 7, 8, 9, 10, 15, 16, 100, u64::MAX / 3, u64::MAX - 1, u64::MAX] {
        assert_eq!(<u64 as Parseable<Display>>::parse(&format!("{}z", v)).unwrap(), ("z", v));
        assert_eq!(<u64 as Parseable<Octal>>::parse(&format!("{:o}9", v)).unwrap(), ("9", v));
        assert_eq!(<u64 as Parseable<Binary>>::parse(&format!("{:b}2", v)).unwrap(), ("2", v));
        assert_eq!(<u64 as Parseable<LowerHex>>::parse(&format!("{:x}g", v)).unwrap(), ("g", v));
        assert_eq!(<u64 as Parseable<UpperHex>>::parse(&format!("{:X} ", v)).unwrap(), (" ", v));
        assert_eq!(<u64 as Parseable<Display>>::simple_parse(&format!("{}", v)).unwrap(), ("", v));
    }
}

#[test]
fn u64_nonzero() {
    assert_eq!(nonzero_u64("12x", false).unwrap(), ("x", 12));
    assert_eq!(nonzero_u64("1fz", true).unwrap(), ("z", 31));
    assert_eq!(nonzero_u64("0", false), Err(err("0", ErrorKind::MapOpt)));
    assert_eq!(nonzero_u64("000", true), Err(err("000", ErrorKind::MapOpt)));
    assert_eq!(nonzero_u64("q", true), Err(err("q", ErrorKind::HexDigit)));
}

#[test]
fn u128_disp_0() {
    assert_eq!(<u128 as Parseable<Display>>::parse("0").unwrap().1, 0);
}

#[test]
fn u128_disp_max() {
    assert_eq!(<u128 as Parseable<Display>>::parse(&u128::MAX.to_string()).unwrap().1, u128::MAX);
}

#[test]
fn u128_disp_overflow_is_err() {
    let too_big = format!("{}0", u128::MAX);
    assert!(<u128 as Parseable<Display>>::parse(&too_big).is_err());
}

#[test]
fn u128_octal_0() {
    assert_eq!(<u128 as Parseable<Octal>>::parse("0").unwrap().1, 0);
}

#[test]
fn u128_octal_9_is_err() {
    assert!(<u128 as Parseable<Octal>>::parse("9").is_err());
}

#[test]
fn u128_bin_0() {
    assert_eq!(<u128 as Parseable<Binary>>::parse("0").unwrap().1, 0);
}

#[test]
fn u128_bin_67() {
    assert_eq!(<u128 as Parseable<Binary>>::parse("1000011").unwrap().1, 67);
}

#[test]
fn u128_hex_0() {
    assert_eq!(<u128 as Parseable<LowerHex>>::parse("0").unwrap().1, 0);
    assert_eq!(<u128 as Parseable<UpperHex>>::parse("0").unwrap().1, 0);
}

#[test]
fn u128_round_trips() {
    for v in [0, 1, 7, 8, 9, 10, 15, 16, 100, u128::MAX / 3, u128::MAX - 1, u128::MAX] {
        assert_eq!(<u128 as Parseable<Display>>::parse(&format!("{}z", v)).unwrap(), ("z", v));
        assert_eq!(<u128 as Parseable<Octal>>::parse(&format!("{:o}9", v)).unwrap(), ("9", v));
        assert_eq!(<u128 as Parseable<Binary>>::parse(&format!("{:b}2", v)).unwrap(), ("2", v));
        assert_eq!(<u128 as Parseable<LowerHex>>::parse(&format!("{:x}g", v)).unwrap(), ("g", v));
        assert_eq!(<u128 as Parseable<UpperHex>>::parse(&format!("{:X} ", v)).unwrap(), (" ", v));
        assert_eq!(<u128 as Parseable<Display>>::simple_parse(&format!("{}", v)).unwrap(), ("", v));
    }
}

#[test]
fn u128_nonzero() {
    assert_eq!(nonzero_u128("12x", false).unwrap(), ("x", 12));
    assert_eq!(nonzero_u128("1fz", true).unwrap(), ("z", 31));
    assert_eq!(nonzero_u128("0", false), Err(err("0", ErrorKind::MapOpt)));
    assert_eq!(nonzero_u128("000", true), Err(err("000", ErrorKind::MapOpt)));
    assert_eq!(nonzero_u128("q", true), Err(err("q", ErrorKind::HexDigit)));
}

#[test]
fn i8_round_trips() {
    for v in [0, 1, -1, 9, -10, i8::MAX, i8::MIN, i8::MIN + 1] {
        assert_eq!(<i8 as Parseable<Display>>::parse(&format!("{},", v)).unwrap(), (",", v));
    }
    assert_eq!(<i8 as Parseable<Display>>::parse("+5").unwrap(), ("", 5));
}

#[test]
fn i8_bad_inputs() {
    assert!(<i8 as Parseable<Display>>::parse("").is_err());
    assert!(<i8 as Parseable<Display>>::parse("-").is_err());
    assert!(<i8 as Parseable<Display>>::parse("+x").is_err());
    assert!(<i8 as Parseable<Display>>::parse("x1").is_err());
    assert!(<i8 as Parseable<Display>>::parse(&format!("{}0", i8::MAX)).is_err());
    assert!(<i8 as Parseable<Display>>::parse(&format!("{}0", i8::MIN)).is_err());
}

#[test]
fn i16_round_trips() {
    for v in [0, 1, -1, 9, -10, i16::MAX, i16::MIN, i16::MIN + 1] {
        assert_eq!(<i16 as Parseable<Display>>::parse(&format!("{},", v)).unwrap(), (",", v));
    }
    assert_eq!(<i16 as Parseable<Display>>::parse("+5").unwrap(), ("", 5));
}

#[test]
fn i16_bad_inputs() {
    assert!(<i16 as Parseable<Display>>::parse("").is_err());
    assert!(<i16 as Parseable<Display>>::parse("-").is_err());
    assert!(<i16 as Parseable<Display>>::parse("+x").is_err());
    assert!(<i16 as Parseable<Display>>::parse("x1").is_err());
    assert!(<i16 as Parseable<Display>>::parse(&format!("{}0", i16::MAX)).is_err());
    assert!(<i16 as Parseable<Display>>::parse(&format!("{}0", i16::MIN)).is_err());
}

#[test]
fn i32_round_trips() {
    for v in [0, 1, -1, 9, -10, i32::MAX, i32::MIN, i32::MIN + 1] {
        assert_eq!(<i32 as Parseable<Display>>::parse(&format!("{},", v)).unwrap(), (",", v));
    }
    assert_eq!(<i32 as Parseable<Display>>::parse("+5").unwrap(), ("", 5));
}

#[test]
fn i32_bad_inputs() {
    assert!(<i32 as Parseable<Display>>::parse("").is_err());
    assert!(<i32 as Parseable<Display>>::parse("-").is_err());
    assert!(<i32 as Parseable<Display>>::parse("+x").is_err());
    assert!(<i32 as Parseable<Display>>::parse("x1").is_err());
    assert!(<i32 as Parseable<Display>>::parse(&format!("{}0", i32::MAX)).is_err());
    assert!(<i32 as Parseable<Display>>::parse(&format!("{}0", i32::MIN)).is_err());
}

#[test]
fn i64_round_trips() {
    for v in [0, 1, -1, 9, -10, i64::MAX, i64::MIN, i64::MIN + 1] {
        assert_eq!(<i64 as Parseable<Display>>::parse(&format!("{},", v)).unwrap(), (",", v));
    }
    assert_eq!(<i64 as Parseable<Display>>::parse("+5").unwrap(), ("", 5));
}

#[test]
fn i64_bad_inputs() {
    assert!(<i64 as Parseable<Display>>::parse("").is_err());
    assert!(<i64 as Parseable<Display>>::parse("-").is_err());
    assert!(<i64 as Parseable<Display>>::parse("+x").is_err());
    assert!(<i64 as Parseable<Display>>::parse("x1").is_err());
    assert!(<i64 as Parseable<Display>>::parse(&format!("{}0", i64::MAX)).is_err());
    assert!(<i64 as Parseable<Display>>::parse(&format!("{}0", i64::MIN)).is_err());
}

#[test]
fn i128_round_trips() {
    for v in [0, 1, -1, 9, -10, i128::MAX, i128::MIN, i128::MIN + 1] {
        assert_eq!(<i128 as Parseable<Display>>::parse(&format!("{},", v)).unwrap(), (",", v));
    }
    assert_eq!(<i128 as Parseable<Display>>::parse("+5").unwrap(), ("", 5));
}

#[test]
fn i128_bad_inputs() {
    assert!(<i128 as Parseable<Display>>::parse("").is_err());
    assert!(<i128 as Parseable<Display>>::parse("-").is_err());
    assert!(<i128 as Parseable<Display>>::parse("+x").is_err());
    assert!(<i128 as Parseable<Display>>::parse("x1").is_err());
    assert!(<i128 as Parseable<Display>>::parse(&format!("{}0", i128::MAX)).is_err());
    assert!(<i128 as Parseable<Display>>::parse(&format!("{}0", i128::MIN)).is_err());
}

#[test]
fn unsigned_refuses_sign() {
    assert!(<u8 as Parseable<Display>>::parse("+1").is_err());
    assert!(<u8 as Parseable<Display>>::parse("-1").is_err());
}

#[test]
fn leading_zeros_read() {
    assert_eq!(<u8 as Parseable<Display>>::parse("000000000255").unwrap(), ("", 255));
    assert!(<u8 as Parseable<Display>>::parse("256").is_err());
}

#[test]
fn hex_accepts_both_cases() {
    assert_eq!(<u16 as Parseable<LowerHex>>::parse("aBcD").unwrap(), ("", 0xabcd));
    assert_eq!(<u16 as Parseable<UpperHex>>::parse("AbCd").unwrap(), ("", 0xabcd));
}

#[test]
fn octal_stops_at_8() {
    assert_eq!(<u32 as Parseable<Octal>>::parse("178").unwrap(), ("8", 15));
}

#[test]
fn bool_reads() {
    assert_eq!(<bool as Parseable<Display>>::parse("true!").unwrap(), ("!", true));
    assert_eq!(<bool as Parseable<Display>>::parse("false").unwrap(), ("", false));
    assert_eq!(<bool as Parseable<Display>>::parse("True"), Err(err("True", ErrorKind::Tag)));
    assert_eq!(<bool as Parseable<Display>>::parse("fals"), Err(err("fals", ErrorKind::Tag)));
}

#[test]
fn boxed_reads_like_inner() {
    let r: (&str, Box<u8>) = <Box<u8> as Parseable<Display>>::parse("42 rest").unwrap();
    assert_eq!(r, (" rest", Box::new(42)));
    let r: (&str, Box<bool>) = <Box<bool> as Parseable<Display>>::parse("true").unwrap();
    assert_eq!(*r.1, true);
    assert!(<Box<u8> as Parseable<Binary>>::parse("2").is_err());
}

#[test]
fn tag_and_multispace() {
    assert_eq!(qparse::tag("foobar", "foo"), Ok("bar"));
    assert_eq!(qparse::tag("fo", "foo"), Err(err("fo", ErrorKind::Tag)));
    assert_eq!(qparse::tag("éa", "é"), Ok("a"));
    assert_eq!(qparse::multispace1(" \t\r\nx"), Ok("x"));
    assert_eq!(qparse::multispace1("x "), Err(err("x ", ErrorKind::MultiSpace)));
}

#[test]
fn errors_say_where_and_what() {
    assert_eq!(<u8 as Parseable<Display>>::parse("x1"), Err(err("x1", ErrorKind::Digit)));
    assert_eq!(<u8 as Parseable<Display>>::parse("256"), Err(err("256", ErrorKind::Digit)));
    assert_eq!(<i8 as Parseable<Display>>::parse("-129"), Err(err("-129", ErrorKind::Digit)));
    assert_eq!(<u8 as Parseable<Octal>>::parse("9"), Err(err("9", ErrorKind::OctDigit)));
    assert_eq!(<u8 as Parseable<Binary>>::parse("2"), Err(err("2", ErrorKind::BinDigit)));
    assert_eq!(<u8 as Parseable<LowerHex>>::parse("g"), Err(err("g", ErrorKind::HexDigit)));
    assert_eq!(<u8 as Parseable<UpperHex>>::parse("1ff"), Err(err("1ff", ErrorKind::MapRes)));
    assert_eq!(<u16 as Parseable<Octal>>::parse("7777777"), Err(err("7777777", ErrorKind::MapRes)));
}
