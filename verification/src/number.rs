//! Decimal reading and writing of `u8` values, as `str::parse::<u8>` and
//! `u8::to_string` do it.
use vstd::prelude::*;
use crate::text::{chars_of, push_char};

verus! {

/// Why a text is not the decimal form of a `u8` (the kinds that
/// `std::num::ParseIntError` reports for an unsigned type).
#[derive(Clone, Copy, Debug, PartialEq, Eq, Structural)]
pub enum IntParseError {
    /// The text is empty.
    Empty,
    /// The text holds a character that is not a decimal digit where one is
    /// expected (a lone sign counts as such).
    InvalidDigit,
    /// The value is larger than 255.
    PosOverflow,
}

impl IntParseError {
    /// The text that `std::num::ParseIntError` displays for this kind.
    pub open spec fn text(self) -> Seq<char> {
        match self {
            IntParseError::Empty => "cannot parse integer from empty string"@,
            IntParseError::InvalidDigit => "invalid digit found in string"@,
            IntParseError::PosOverflow => "number too large to fit in target type"@,
        }
    }

    /// The message of this error, worded as `std::num::ParseIntError` words it.
    pub fn description(&self) -> (s: String)
        ensures
            s@ == self.text(),
    {
        match self {
            IntParseError::Empty => "cannot parse integer from empty string".to_owned(),
            IntParseError::InvalidDigit => "invalid digit found in string".to_owned(),
            IntParseError::PosOverflow => "number too large to fit in target type".to_owned(),
        }
    }
}

/// Whether `c` is one of the ASCII digits `0`..`9`.
pub open spec fn is_digit(c: char) -> bool {
    48 <= (c as u32) <= 57
}

/// The value of the ASCII digit `c`.
pub open spec fn digit_value(c: char) -> int {
    (c as u32) - 48
}

/// Reads the digits `s` on top of the value `acc` read so far, left to
/// right: the first character that is not a digit is an `InvalidDigit`, and a
/// value above 255 is a `PosOverflow` at the digit that makes it so.
pub open spec fn parse_digits(acc: int, s: Seq<char>) -> Result<u8, IntParseError>
    decreases s.len(),
{
    if s.len() == 0 {
        Ok(acc as u8)
    } else if !is_digit(s[0]) {
        Err(IntParseError::InvalidDigit)
    } else if acc * 10 + digit_value(s[0]) > 255 {
        Err(IntParseError::PosOverflow)
    } else {
        parse_digits(acc * 10 + digit_value(s[0]), s.drop_first())
    }
}

/// What `str::parse::<u8>` gives for `s`: an optional `+` followed by
/// decimal digits.
pub open spec fn parse_u8(s: Seq<char>) -> Result<u8, IntParseError> {
    if s.len() == 0 {
        Err(IntParseError::Empty)
    } else if s.len() == 1 && (s[0] == '+' || s[0] == '-') {
        Err(IntParseError::InvalidDigit)
    } else if s[0] == '+' {
        parse_digits(0, s.drop_first())
    } else {
        parse_digits(0, s)
    }
}

/// The character of the digit `d`.
pub open spec fn digit_char(d: int) -> char {
    seq!['0', '1', '2', '3', '4', '5', '6', '7', '8', '9'][d]
}

/// The decimal form of `n`, without leading zeros (`u8::to_string`).
pub open spec fn decimal(n: u8) -> Seq<char> {
    if n < 10 {
        seq![digit_char(n as int)]
    } else if n < 100 {
        seq![digit_char((n / 10) as int), digit_char((n % 10) as int)]
    } else {
        seq![
            digit_char((n / 100) as int),
            digit_char(((n / 10) % 10) as int),
            digit_char((n % 10) as int),
        ]
    }
}

/// Reads a `u8` from the characters `v`.
pub fn parse_u8_chars(v: &Vec<char>) -> (r: Result<u8, IntParseError>)
    ensures
        r == parse_u8(v@),
{
    let n = v.len();
    if n == 0 {
        return Err(IntParseError::Empty);
    }
    if n == 1 && (v[0] == '+' || v[0] == '-') {
        return Err(IntParseError::InvalidDigit);
    }
    let mut i: usize = if v[0] == '+' { 1 } else { 0 };
    let ghost digits = v@.subrange(i as int, n as int);
    assert(digits =~= (if v@[0] == '+' { v@.drop_first() } else { v@ }));
    let mut acc: u32 = 0;
    while i < n
        invariant
            i <= n == v@.len(),
            acc <= 255,
            parse_u8(v@) == parse_digits(acc as int, v@.subrange(i as int, n as int)),
        decreases n - i,
    {
        let c = v[i];
        assert(v@.subrange(i as int, n as int)[0] == c);
        assert(v@.subrange(i as int, n as int).drop_first() =~= v@.subrange(i + 1, n as int));
        let u = c as u32;
        if u < 48 || u > 57 {
            return Err(IntParseError::InvalidDigit);
        }
        let next = acc * 10 + (u - 48);
        if next > 255 {
            return Err(IntParseError::PosOverflow);
        }
        acc = next;
        i = i + 1;
    }
    assert(v@.subrange(n as int, n as int) =~= Seq::<char>::empty());
    Ok(acc as u8)
}

/// Reads a `u8` from `s` as `str::parse::<u8>` does.
pub fn parse_u8_str(s: &str) -> (r: Result<u8, IntParseError>)
    ensures
        r == parse_u8(s@),
{
    let v = chars_of(s);
    parse_u8_chars(&v)
}

/// The character of the digit `d`.
fn digit_to_char(d: u8) -> (c: char)
    requires
        d < 10,
    ensures
        c == digit_char(d as int),
{
    let digits = ['0', '1', '2', '3', '4', '5', '6', '7', '8', '9'];
    assert(digits@ =~= seq!['0', '1', '2', '3', '4', '5', '6', '7', '8', '9']);
    digits[d as usize]
}

/// The decimal form of `n` (`u8::to_string`).
pub fn u8_to_decimal(n: u8) -> (s: String)
    ensures
        s@ == decimal(n),
{
    let mut s = String::new();
    if n >= 100 {
        push_char(&mut s, digit_to_char(n / 100));
    }
    if n >= 10 {
        push_char(&mut s, digit_to_char((n / 10) % 10));
    }
    push_char(&mut s, digit_to_char(n % 10));
    proof {
        if n >= 100 {
            assert(n / 10 % 10 == (n / 10) % 10);
        } else if n >= 10 {
            assert(n / 10 % 10 == n / 10);
        }
    }
    assert(s@ =~= decimal(n));
    s
}

/// Reading back the decimal form of a `u8` gives the same value.
pub proof fn lemma_parse_decimal(n: u8)
    ensures
        parse_u8(decimal(n)) == Ok::<u8, IntParseError>(n),
{
    reveal_with_fuel(parse_digits, 4);
    let d = decimal(n);
    if n < 10 {
        assert(d.drop_first() =~= Seq::<char>::empty());
    } else if n < 100 {
        assert(d.drop_first().drop_first() =~= Seq::<char>::empty());
        assert(d.drop_first()[0] == d[1]);
    } else {
        assert(d.drop_first()[0] == d[1]);
        assert(d.drop_first().drop_first()[0] == d[2]);
        assert(d.drop_first().drop_first().drop_first() =~= Seq::<char>::empty());
    }
}

} // verus!
