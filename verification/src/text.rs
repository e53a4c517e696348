//! Decimal text of unsigned numbers, as it appears in addresses and in
//! configuration.

use vstd::prelude::*;
use vstd::string::StringExecFns;

verus! {

/// The character of one decimal digit.
pub open spec fn digit_char(d: nat) -> char {
    if d == 0 {
        '0'
    } else if d == 1 {
        '1'
    } else if d == 2 {
        '2'
    } else if d == 3 {
        '3'
    } else if d == 4 {
        '4'
    } else if d == 5 {
        '5'
    } else if d == 6 {
        '6'
    } else if d == 7 {
        '7'
    } else if d == 8 {
        '8'
    } else {
        '9'
    }
}

/// The decimal digits of a number, most significant first, without leading
/// zeros; zero is the single digit `0`.
pub open spec fn decimal(n: nat) -> Seq<char>
    decreases n,
{
    if n < 10 {
        seq![digit_char(n)]
    } else {
        decimal(n / 10).push(digit_char(n % 10))
    }
}

/// The text of one decimal digit.
fn digit_text(d: u16) -> (text: &'static str)
    requires
        d < 10,
    ensures
        text@ == seq![digit_char(d as nat)],
{
    proof {
        reveal_strlit("0");
        reveal_strlit("1");
        reveal_strlit("2");
        reveal_strlit("3");
        reveal_strlit("4");
        reveal_strlit("5");
        reveal_strlit("6");
        reveal_strlit("7");
        reveal_strlit("8");
        reveal_strlit("9");
    }
    let text = if d == 0 {
        "0"
    } else if d == 1 {
        "1"
    } else if d == 2 {
        "2"
    } else if d == 3 {
        "3"
    } else if d == 4 {
        "4"
    } else if d == 5 {
        "5"
    } else if d == 6 {
        "6"
    } else if d == 7 {
        "7"
    } else if d == 8 {
        "8"
    } else {
        "9"
    };
    assert(text@ =~= seq![digit_char(d as nat)]);
    text
}

/// Writes a number in decimal.
pub fn format_decimal(n: u16) -> (text: String)
    ensures
        text@ == decimal(n as nat),
    decreases n,
{
    if n < 10 {
        String::from_str(digit_text(n))
    } else {
        let mut text = format_decimal(n / 10);
        text.append(digit_text(n % 10));
        assert(text@ =~= decimal(n as nat));
        text
    }
}

/// The value of a decimal digit, or nothing for any other character.
pub open spec fn digit_value(c: char) -> Option<nat> {
    if c == '0' {
        Some(0)
    } else if c == '1' {
        Some(1)
    } else if c == '2' {
        Some(2)
    } else if c == '3' {
        Some(3)
    } else if c == '4' {
        Some(4)
    } else if c == '5' {
        Some(5)
    } else if c == '6' {
        Some(6)
    } else if c == '7' {
        Some(7)
    } else if c == '8' {
        Some(8)
    } else if c == '9' {
        Some(9)
    } else {
        None
    }
}

/// The number that a run of decimal digits writes, most significant first;
/// nothing where a character is no digit. The empty run writes zero.
pub open spec fn digits_value(digits: Seq<char>) -> Option<nat>
    decreases digits.len(),
{
    if digits.len() == 0 {
        Some(0)
    } else {
        match (digits_value(digits.drop_last()), digit_value(digits.last())) {
            (Some(high), Some(low)) => Some(high * 10 + low),
            _ => None,
        }
    }
}

/// The digits of a text that may begin with a plus sign.
pub open spec fn unsigned_part(text: Seq<char>) -> Seq<char> {
    if text.len() > 0 && text[0] == '+' {
        text.drop_first()
    } else {
        text
    }
}

/// The number below two to the sixteenth that a text writes in decimal: an
/// optional plus sign and then one digit or more, and nothing else.
pub open spec fn number_of(text: Seq<char>) -> Option<u16> {
    let digits = unsigned_part(text);
    if digits.len() == 0 {
        None
    } else {
        match digits_value(digits) {
            Some(value) => if value <= u16::MAX {
                Some(value as u16)
            } else {
                None
            },
            None => None,
        }
    }
}

/// The value of one decimal digit.
fn digit_of(c: char) -> (value: Option<u32>)
    ensures
        match value {
            Some(d) => digit_value(c) == Some(d as nat) && d < 10,
            None => digit_value(c) is None,
        },
{
    if c == '0' {
        Some(0)
    } else if c == '1' {
        Some(1)
    } else if c == '2' {
        Some(2)
    } else if c == '3' {
        Some(3)
    } else if c == '4' {
        Some(4)
    } else if c == '5' {
        Some(5)
    } else if c == '6' {
        Some(6)
    } else if c == '7' {
        Some(7)
    } else if c == '8' {
        Some(8)
    } else if c == '9' {
        Some(9)
    } else {
        None
    }
}

/// The smaller of a number and two to the sixteenth.
pub open spec fn capped(value: nat) -> nat {
    if value <= u16::MAX {
        value
    } else {
        0x1_0000
    }
}

/// Reads a number below two to the sixteenth from its decimal text.
pub fn parse_decimal(text: &str) -> (number: Option<u16>)
    ensures
        number == number_of(text@),
{
    let length = text.unicode_len();
    if length == 0 {
        return None;
    }
    let first: usize = if text.get_char(0) == '+' {
        1
    } else {
        0
    };
    if first == length {
        assert(unsigned_part(text@).len() == 0);
        return None;
    }
    let ghost digits = unsigned_part(text@);
    let mut value: u32 = 0;
    let mut i: usize = first;
    assert(digits.take(0) =~= Seq::<char>::empty());
    while i < length
        invariant
            first <= i <= length,
            length == text@.len(),
            first <= 1,
            digits == unsigned_part(text@),
            digits.len() == length - first,
            forall|k: int| 0 <= k < digits.len() ==> digits[k] == text@[k + first],
            digits_value(digits.take(i - first)) is Some,
            value == capped(digits_value(digits.take(i - first))->0),
        decreases length - i,
    {
        let ghost done = digits.take(i - first);
        let ghost more = digits.take(i - first + 1);
        assert(more.drop_last() =~= done);
        assert(more.last() == text@[i as int]);
        match digit_of(text.get_char(i)) {
            Some(d) => {
                value = if value > 0xFFFF {
                    0x1_0000
                } else {
                    let next = value * 10 + d;
                    if next > 0xFFFF {
                        0x1_0000
                    } else {
                        next
                    }
                };
            },
            None => {
                proof {
                    lemma_bad_digit_spoils(digits, i - first);
                }
                return None;
            },
        }
        i += 1;
    }
    assert(digits.take(digits.len() as int) =~= digits);
    if value > 0xFFFF {
        None
    } else {
        Some(value as u16)
    }
}

/// A run with a character that is no digit writes no number.
pub proof fn lemma_bad_digit_spoils(digits: Seq<char>, at: int)
    requires
        0 <= at < digits.len(),
        digit_value(digits[at]) is None,
    ensures
        digits_value(digits) is None,
    decreases digits.len(),
{
    if at < digits.len() - 1 {
        lemma_bad_digit_spoils(digits.drop_last(), at);
    }
}

/// The decimal text of a number is made of digits and writes the number.
pub proof fn lemma_decimal_writes_its_number(n: nat)
    ensures
        digits_value(decimal(n)) == Some(n),
        decimal(n).len() > 0,
        decimal(n)[0] != '+',
    decreases n,
{
    if n < 10 {
        assert(decimal(n).drop_last() =~= Seq::<char>::empty());
        reveal_with_fuel(digits_value, 2);
    } else {
        lemma_decimal_writes_its_number(n / 10);
        let high = decimal(n / 10);
        assert(decimal(n).drop_last() =~= high);
        assert(decimal(n).last() == digit_char(n % 10));
        assert(decimal(n)[0] == high[0]);
    }
}

/// Reading the decimal text of a number gives the number back.
pub proof fn lemma_parse_inverts_format(n: u16)
    ensures
        number_of(decimal(n as nat)) == Some(n),
{
    lemma_decimal_writes_its_number(n as nat);
}

} // verus!
