//! What a failed reading says of itself, in words.

use crate::config::number::decimal;
use crate::config::number::lemma_decimal;
use crate::config::number::push_decimal;
use crate::config::number::NumError;
use crate::config::text::ParseError;
use crate::config::text::ParseFault;
use crate::config::CfgKey;
use vstd::prelude::*;
use vstd::string::StringExecFns;

verus! {

/// The digit `d` as text.
pub open spec fn digit_text(d: u8) -> Seq<char> {
    if d == 0 {
        "0"@
    } else if d == 1 {
        "1"@
    } else if d == 2 {
        "2"@
    } else if d == 3 {
        "3"@
    } else if d == 4 {
        "4"@
    } else if d == 5 {
        "5"@
    } else if d == 6 {
        "6"@
    } else if d == 7 {
        "7"@
    } else if d == 8 {
        "8"@
    } else {
        "9"@
    }
}

/// The digits `s` as text.
pub open spec fn digits_text(s: Seq<u8>) -> Seq<char>
    decreases s.len(),
{
    if s.len() == 0 {
        Seq::empty()
    } else {
        digits_text(s.drop_last()) + digit_text((s.last() - 48) as u8)
    }
}

/// The number `n` as text.
pub open spec fn number_text(n: u32) -> Seq<char> {
    digits_text(decimal(n as nat))
}

/// What is wrong with a line, in words.
pub open spec fn fault_text(fault: ParseFault) -> Seq<char> {
    match fault {
        ParseFault::NoDelimiter => "No delimiter"@,
        ParseFault::InvalidColor => "Invalid color"@,
        ParseFault::InvalidBounds => "Invalid bounds"@,
        ParseFault::Integer(NumError::Empty) => "cannot parse integer from empty string"@,
        ParseFault::Integer(NumError::InvalidDigit) => "invalid digit found in string"@,
        ParseFault::Integer(NumError::TooLarge) => "number too large to fit in target type"@,
        ParseFault::Fraction(NumError::Empty) => "cannot parse float from empty string"@,
        ParseFault::Fraction(_) => "invalid float literal"@,
    }
}

/// The names of `keys`, each between a space and ` |`.
pub open spec fn names_text(keys: Seq<CfgKey>) -> Seq<char>
    decreases keys.len(),
{
    if keys.len() == 0 {
        Seq::empty()
    } else {
        names_text(keys.drop_last()) + " "@ + keys.last().name() + " |"@
    }
}

impl ParseError {
    /// What the error says, in words.
    pub open spec fn message_text(&self) -> Seq<char> {
        match self {
            ParseError::Parse(n, fault) => "Parse error on line "@ + number_text(*n) + " => "@
                + fault_text(*fault),
            ParseError::InvalidKey(n) => "Invalid key on line "@ + number_text(*n),
            ParseError::OutOfBounds(n) => "Out of bounds value on line "@ + number_text(*n),
            ParseError::NotExhaustive(_, keys) => "Using defaults for missing values:\n|"@
                + names_text(keys@),
        }
    }

    /// What the error says, in words.
    pub fn message(&self) -> (s: String)
        ensures
            s@ == self.message_text(),
    {
        match self {
            ParseError::Parse(n, fault) => {
                let mut s = String::from_str("Parse error on line ");
                push_number(&mut s, *n);
                s.append(" => ");
                s.append(fault_str(*fault));
                s
            },
            ParseError::InvalidKey(n) => {
                let mut s = String::from_str("Invalid key on line ");
                push_number(&mut s, *n);
                s
            },
            ParseError::OutOfBounds(n) => {
                let mut s = String::from_str("Out of bounds value on line ");
                push_number(&mut s, *n);
                s
            },
            ParseError::NotExhaustive(_, keys) => {
                let mut s = String::from_str("Using defaults for missing values:\n|");
                let ghost head = s@;
                let mut i: usize = 0;
                proof {
                    assert(keys@.take(0) =~= Seq::<CfgKey>::empty());
                    assert(head + names_text(keys@.take(0)) =~= head);
                }
                while i < keys.len()
                    invariant
                        i <= keys@.len(),
                        s@ == head + names_text(keys@.take(i as int)),
                    decreases keys@.len() - i,
                {
                    let ghost before = s@;
                    s.append(" ");
                    s.append(keys[i].name_str());
                    s.append(" |");
                    proof {
                        assert(keys@.take(i + 1).drop_last() =~= keys@.take(i as int));
                        assert(s@ =~= head + names_text(keys@.take(i + 1)));
                    }
                    i += 1;
                }
                proof {
                    assert(keys@.take(keys@.len() as int) =~= keys@);
                }
                s
            },
        }
    }
}

/// What is wrong with a line, in words.
pub fn fault_str(fault: ParseFault) -> (s: &'static str)
    ensures
        s@ == fault_text(fault),
{
    match fault {
        ParseFault::NoDelimiter => "No delimiter",
        ParseFault::InvalidColor => "Invalid color",
        ParseFault::InvalidBounds => "Invalid bounds",
        ParseFault::Integer(NumError::Empty) => "cannot parse integer from empty string",
        ParseFault::Integer(NumError::InvalidDigit) => "invalid digit found in string",
        ParseFault::Integer(NumError::TooLarge) => "number too large to fit in target type",
        ParseFault::Fraction(NumError::Empty) => "cannot parse float from empty string",
        ParseFault::Fraction(_) => "invalid float literal",
    }
}

/// The digit `d` as text.
fn digit_str(d: u8) -> (s: &'static str)
    requires
        d <= 9,
    ensures
        s@ == digit_text(d),
{
    match d {
        0 => "0",
        1 => "1",
        2 => "2",
        3 => "3",
        4 => "4",
        5 => "5",
        6 => "6",
        7 => "7",
        8 => "8",
        _ => "9",
    }
}

/// Writes the number `n` at the end of `s`.
pub fn push_number(s: &mut String, n: u32)
    ensures
        final(s)@ == old(s)@ + number_text(n),
{
    let mut digits: Vec<u8> = Vec::new();
    push_decimal(&mut digits, n);
    proof {
        lemma_decimal(n as nat, n as nat);
        assert(digits@ =~= decimal(n as nat));
    }
    let ghost head = s@;
    let mut i: usize = 0;
    proof {
        assert(digits@.take(0) =~= Seq::<u8>::empty());
        assert(head + digits_text(digits@.take(0)) =~= head);
    }
    while i < digits.len()
        invariant
            i <= digits@.len(),
            crate::config::number::all_digits(digits@),
            s@ == head + digits_text(digits@.take(i as int)),
        decreases digits@.len() - i,
    {
        let d = digits[i];
        assert(crate::config::number::is_digit(digits@[i as int]));
        s.append(digit_str(d - 48));
        proof {
            assert(digits@.take(i + 1).drop_last() =~= digits@.take(i as int));
            assert(s@ =~= head + digits_text(digits@.take(i + 1)));
        }
        i += 1;
    }
    proof {
        assert(digits@.take(digits@.len() as int) =~= digits@);
    }
}

} // verus!
