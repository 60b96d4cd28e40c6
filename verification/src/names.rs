//! The names that derived code gives to fields, and the names of format types.
use vstd::prelude::*;
use vstd::string::StringExecFns;
use crate::digits::{digit_char, radix_repr};
use crate::fmt_string::{Argument, ArgumentView, Type};

verus! {

/// The text of a decimal digit.
fn digit_str(d: usize) -> (r: &'static str)
    requires
        d < 10,
    ensures
        r@ == seq![digit_char(d as nat, false)],
{
    proof {
        reveal_strlit("0");
        reveal_strlit("1");
        reveal_strlit("2");
        reveal_strlit("3");
        reveal_strlit("4");
        reveal_strlit("5");
        reveal_strlit("6");
        reveal_strlit("7");
        reveal_strlit("8");
        reveal_strlit("9");
        assert("0"@ =~= seq!['0']);
        assert("1"@ =~= seq!['1']);
        assert("2"@ =~= seq!['2']);
        assert("3"@ =~= seq!['3']);
        assert("4"@ =~= seq!['4']);
        assert("5"@ =~= seq!['5']);
        assert("6"@ =~= seq!['6']);
        assert("7"@ =~= seq!['7']);
        assert("8"@ =~= seq!['8']);
        assert("9"@ =~= seq!['9']);
    }
    if d == 0 {
        "0"
    } else if d == 1 {
        "1"
    } else if d == 2 {
        "2"
    } else if d == 3 {
        "3"
    } else if d == 4 {
        "4"
    } else if d == 5 {
        "5"
    } else if d == 6 {
        "6"
    } else if d == 7 {
        "7"
    } else if d == 8 {
        "8"
    } else {
        "9"
    }
}

/// `n` written in decimal, as `{}` writes it.
pub fn decimal_string(n: usize) -> (r: String)
    ensures
        r@ == radix_repr(n as nat, 10, false),
    decreases n,
{
    if n < 10 {
        String::from_str(digit_str(n))
    } else {
        let mut s = decimal_string(n / 10);
        s.append(digit_str(n % 10));
        s
    }
}

/// The name that derived code binds a field to: `f` and the position for a positional
/// field, the name itself for a named one.
pub open spec fn binding_name(a: ArgumentView) -> Seq<char> {
    match a {
        ArgumentView::Intiger(n) => seq!['f'] + radix_repr(n as nat, 10, false),
        ArgumentView::Identifier(s) => s,
    }
}

impl Argument {
    /// The name that derived code binds this field to.
    pub fn binding(&self) -> (r: String)
        ensures
            r@ == binding_name(self@),
    {
        match self {
            Argument::Intiger(n) => {
                proof {
                    reveal_strlit("f");
                    assert("f"@ =~= seq!['f']);
                }
                let mut s = String::from_str("f");
                s.append(decimal_string(*n).as_str());
                s
            },
            Argument::Identifier(s) => s.clone(),
        }
    }
}

/// The name of a format type, as `Debug` writes it.
pub open spec fn format_type_name(t: Type) -> Seq<char> {
    match t {
        Type::Display => "Display"@,
        Type::Debug => "Debug"@,
        Type::DebugLowerHex => "DebugLowerHex"@,
        Type::DebugUpperHex => "DebugUpperHex"@,
        Type::Octal => "Octal"@,
        Type::LowerHex => "LowerHex"@,
        Type::UpperHex => "UpperHex"@,
        Type::Binary => "Binary"@,
        Type::UpperExp => "UpperExp"@,
        Type::LowerExp => "LowerExp"@,
        Type::Pointer => "Pointer"@,
    }
}

impl Type {
    /// The name of the type, as `Debug` writes it.
    pub fn name(&self) -> (r: &'static str)
        ensures
            r@ == format_type_name(*self),
    {
        match self {
            Type::Display => "Display",
            Type::Debug => "Debug",
            Type::DebugLowerHex => "DebugLowerHex",
            Type::DebugUpperHex => "DebugUpperHex",
            Type::Octal => "Octal",
            Type::LowerHex => "LowerHex",
            Type::UpperHex => "UpperHex",
            Type::Binary => "Binary",
            Type::UpperExp => "UpperExp",
            Type::LowerExp => "LowerExp",
            Type::Pointer => "Pointer",
        }
    }
}

} // verus!
