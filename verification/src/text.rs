//! Decimal numbers in text: writing them and reading them.

use vstd::prelude::*;

verus! {

/// The character that stands for a decimal digit.
pub open spec fn digit_char(digit: int) -> char {
    if digit == 0 {
        '0'
    } else if digit == 1 {
        '1'
    } else if digit == 2 {
        '2'
    } else if digit == 3 {
        '3'
    } else if digit == 4 {
        '4'
    } else if digit == 5 {
        '5'
    } else if digit == 6 {
        '6'
    } else if digit == 7 {
        '7'
    } else if digit == 8 {
        '8'
    } else {
        '9'
    }
}

/// The decimal digits of a number, without leading zeros.
pub open spec fn decimal(number: nat) -> Seq<char>
    decreases number,
{
    if number < 10 {
        seq![digit_char(number as int)]
    } else {
        decimal(number / 10).push(digit_char((number % 10) as int))
    }
}

/// The character is one of the decimal digits.
pub open spec fn is_digit(c: char) -> bool {
    '0' <= c <= '9'
}

/// The value of a decimal digit.
pub open spec fn digit_value(c: char) -> int {
    c as u32 - '0' as u32
}

/// Every character is a decimal digit.
pub open spec fn all_digits(text: Seq<char>) -> bool {
    forall|i: int| 0 <= i < text.len() ==> is_digit(#[trigger] text[i])
}

/// The number that a run of decimal digits stands for.
pub open spec fn number_of(digits: Seq<char>) -> nat
    decreases digits.len(),
{
    if digits.len() == 0 {
        0
    } else {
        (number_of(digits.drop_last()) * 10 + digit_value(digits.last())) as nat
    }
}

/// The text without the plus sign that it may begin with.
pub open spec fn unsigned(text: Seq<char>) -> Seq<char> {
    if text.len() > 0 && text[0] == '+' {
        text.drop_first()
    } else {
        text
    }
}

/// The number below 256 that a text stands for: an optional plus sign, then
/// one or more decimal digits and nothing else. Leading zeros are allowed.
pub open spec fn decimal_u8(text: Seq<char>) -> Option<u8> {
    let digits = unsigned(text);
    if digits.len() > 0 && all_digits(digits) && number_of(digits) <= u8::MAX {
        Some(number_of(digits) as u8)
    } else {
        None
    }
}

/// A run of digits stands for no less than any of its beginnings.
pub proof fn lemma_number_grows(digits: Seq<char>, taken: int)
    requires
        all_digits(digits),
        0 <= taken <= digits.len(),
    ensures
        number_of(digits.take(taken)) <= number_of(digits),
    decreases digits.len() - taken,
{
    if taken == digits.len() {
        assert(digits.take(taken) =~= digits);
    } else {
        lemma_number_grows(digits.drop_last(), taken);
        assert(digits.drop_last().take(taken) =~= digits.take(taken));
        assert(is_digit(digits.last()));
    }
}

/// Reading what was written gives the number back.
pub proof fn lemma_decimal_read_back(number: nat)
    ensures
        decimal(number).len() > 0,
        all_digits(decimal(number)),
        number_of(decimal(number)) == number,
        decimal(number)[0] != '+',
        number <= u8::MAX ==> decimal_u8(decimal(number)) == Some(number as u8),
    decreases number,
{
    if number < 10 {
        let text = decimal(number);
        assert(text.drop_last() =~= Seq::<char>::empty());
        assert(number_of(text.drop_last()) == 0);
    } else {
        lemma_decimal_read_back(number / 10);
        let text = decimal(number);
        assert(text.drop_last() =~= decimal(number / 10));
        assert(text[0] == decimal(number / 10)[0]);
    }
}

/// The text of one decimal digit.
fn digit_text(digit: u8) -> (text: &'static str)
    requires
        digit < 10,
    ensures
        text@ == seq![digit_char(digit as int)],
{
    proof {
        reveal_strlit("0");
        reveal_strlit("1");
        reveal_strlit("2");
        reveal_strlit("3");
        reveal_strlit("4");
        reveal_strlit("5");
        reveal_strlit("6");
        reveal_strlit("7");
        reveal_strlit("8");
        reveal_strlit("9");
    }
    let text = if digit == 0 {
        "0"
    } else if digit == 1 {
        "1"
    } else if digit == 2 {
        "2"
    } else if digit == 3 {
        "3"
    } else if digit == 4 {
        "4"
    } else if digit == 5 {
        "5"
    } else if digit == 6 {
        "6"
    } else if digit == 7 {
        "7"
    } else if digit == 8 {
        "8"
    } else {
        "9"
    };
    assert(text@ =~= seq![digit_char(digit as int)]);
    text
}

/// Write the decimal digits of a number at the end of a text.
pub fn append_decimal(text: &mut String, number: u16)
    ensures
        final(text)@ == old(text)@ + decimal(number as nat),
    decreases number,
{
    if number >= 10 {
        append_decimal(text, number / 10);
    }
    text.append(digit_text((number % 10) as u8));
    assert(text@ =~= old(text)@ + decimal(number as nat));
}

/// The characters of a text.
pub fn chars_of(text: &str) -> (chars: Vec<char>)
    ensures
        chars@ == text@,
{
    let mut chars: Vec<char> = Vec::new();
    for c in it: text.chars()
        invariant
            it.seq() == text@,
            chars@ == it.seq().take(it.index() as int),
    {
        chars.push(c);
        assert(it.seq().take(it.index() + 1) =~= it.seq().take(it.index() as int).push(c));
    }
    assert(chars@ =~= text@);
    chars
}

/// Whether two texts hold the same characters.
pub fn same_text(left: &str, right: &str) -> (same: bool)
    ensures
        same == (left@ == right@),
{
    let ours = chars_of(left);
    let theirs = chars_of(right);
    if ours.len() != theirs.len() {
        return false;
    }
    for i in 0..ours.len()
        invariant
            ours@ == left@,
            theirs@ == right@,
            ours@.len() == theirs@.len(),
            forall|j: int| 0 <= j < i ==> ours@[j] == theirs@[j],
    {
        if ours[i] != theirs[i] {
            return false;
        }
    }
    assert(ours@ =~= theirs@);
    true
}

/// Read a number below 256: an optional plus sign, then one or more
/// decimal digits and nothing else. Leading zeros are allowed.
pub fn read_u8(text: &str) -> (value: Option<u8>)
    ensures
        value == decimal_u8(text@),
{
    let chars = chars_of(text);
    let mut at: usize = 0;
    if chars.len() > 0 && chars[0] == '+' {
        at = 1;
    }
    let start = at;
    let ghost digits = chars@.subrange(start as int, chars@.len() as int);
    assert(digits =~= unsigned(text@));
    if at == chars.len() {
        return None;
    }
    let mut total: u16 = 0;
    while at < chars.len()
        invariant
            start <= at <= chars.len(),
            digits == chars@.subrange(start as int, chars@.len() as int),
            digits == unsigned(text@),
            all_digits(digits.take(at - start)),
            total == number_of(digits.take(at - start)),
            total <= u8::MAX,
        decreases chars.len() - at,
    {
        let c = chars[at];
        assert(c == digits[at - start]);
        if !(c >= '0' && c <= '9') {
            return None;
        }
        let digit = (c as u32 - '0' as u32) as u16;
        proof {
            assert(digits.take(at - start + 1).drop_last() =~= digits.take(at - start));
        }
        total = total * 10 + digit;
        at = at + 1;
        if total > 255 {
            proof {
                if all_digits(digits) {
                    lemma_number_grows(digits, at - start);
                }
            }
            return None;
        }
    }
    proof {
        assert(digits.take(at - start) =~= digits);
    }
    Some(total as u8)
}

} // verus!
