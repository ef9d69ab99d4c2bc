use vstd::prelude::*;

verus! {

/// The value of a hexadecimal digit, either case; `None` for any other character.
pub open spec fn hex_digit_value(hex: char) -> Option<u8> {
    if '0' <= hex && hex <= '9' {
        Some((hex as u32 - '0' as u32) as u8)
    } else if 'a' <= hex && hex <= 'f' {
        Some((hex as u32 - 'a' as u32 + 10) as u8)
    } else if 'A' <= hex && hex <= 'F' {
        Some((hex as u32 - 'A' as u32 + 10) as u8)
    } else {
        None
    }
}

/// The 4-bit value of a hexadecimal digit (`0-9`, `a-f`, `A-F`).
pub fn nybble_from_hex(hex: char) -> (nybble: Option<u8>)
    ensures
        nybble == hex_digit_value(hex),
        nybble matches Some(n) ==> n < 16,
{
    if hex as u32 > 0x7F {
        return None;
    }
    if '0' <= hex && hex <= '9' {
        Some((hex as u32 - '0' as u32) as u8)
    } else if 'a' <= hex && hex <= 'f' {
        Some((hex as u32 - 'a' as u32 + 10) as u8)
    } else if 'A' <= hex && hex <= 'F' {
        Some((hex as u32 - 'A' as u32 + 10) as u8)
    } else {
        None
    }
}

/// Case does not matter in hex digits: a letter from `a` to `f` has the
/// value of its capital.
pub proof fn lemma_hex_digit_case_insensitive(lower: char)
    requires
        'a' <= lower <= 'f',
    ensures
        hex_digit_value(lower) == hex_digit_value(((lower as u32) - 32) as char),
        hex_digit_value(lower) matches Some(value) && 10 <= value < 16,
{
}

/// The digits `0` to `9` stand for the numbers 0 to 9, in order.
pub proof fn lemma_decimal_digits_in_order(index: u32)
    requires
        index < 10,
    ensures
        hex_digit_value((('0' as u32) + index) as char) == Some(index as u8),
{
}

/// An ASCII control character other than tab, line feed and carriage return.
pub open spec fn illegal_control_character(character: char) -> bool {
    &&& character != '\t'
    &&& character != '\n'
    &&& character != '\r'
    &&& (character as u32) < 0x20 || character as u32 == 0x7F
}

/// Whether `character` is a control character that may not be shown in a
/// text preview (ASCII control characters other than tab, line feed and
/// carriage return).
pub fn is_illegal_control_character(character: char) -> (illegal: bool)
    ensures
        illegal == illegal_control_character(character),
{
    if character == '\t' || character == '\n' || character == '\r' {
        false
    } else if (character as u32) < 0x20 || character as u32 == 0x7F {
        true
    } else {
        false
    }
}

/// The characters of `text`, one by one.
pub fn chars_of(text: &str) -> (chars: Vec<char>)
    ensures
        chars@ == text@,
{
    let mut chars: Vec<char> = Vec::new();
    for character in iter: text.chars()
        invariant
            chars@ == iter.seq().take(iter.index() as int),
            iter.seq() == text@,
    {
        chars.push(character);
    }
    assert(chars@ =~= text@);
    chars
}

} // verus!

verus! {

/// The number that the hexadecimal digits spell, most significant first.
pub open spec fn hex_value(digits: Seq<char>) -> nat
    decreases digits.len(),
{
    if digits.len() == 0 {
        0
    } else {
        match hex_digit_value(digits.last()) {
            Some(d) => hex_value(digits.drop_last()) * 16 + d as nat,
            None => hex_value(digits.drop_last()) * 16,
        }
    }
}

/// Every character is a hexadecimal digit.
pub open spec fn all_hex_digits(digits: Seq<char>) -> bool {
    forall|i: int| 0 <= i < digits.len() ==> (#[trigger] hex_digit_value(digits[i])) is Some
}

/// An ASCII decimal digit.
pub open spec fn is_decimal_digit(character: char) -> bool {
    '0' <= character && character <= '9'
}

/// The number that the decimal digits spell, most significant first.
pub open spec fn decimal_value(digits: Seq<char>) -> nat
    decreases digits.len(),
{
    if digits.len() == 0 {
        0
    } else {
        decimal_value(digits.drop_last()) * 10 + (digits.last() as u32 - '0' as u32) as nat
    }
}

pub open spec fn all_decimal_digits(digits: Seq<char>) -> bool {
    forall|i: int| 0 <= i < digits.len() ==> #[trigger] is_decimal_digit(digits[i])
}

/// A prefix spells a number no larger than the whole.
proof fn lemma_hex_value_prefix(digits: Seq<char>, count: int)
    requires
        0 <= count <= digits.len(),
    ensures
        hex_value(digits.take(count)) <= hex_value(digits),
    decreases digits.len() - count,
{
    if count < digits.len() {
        lemma_hex_value_prefix(digits, count + 1);
        assert(digits.take(count + 1).drop_last() =~= digits.take(count));
    } else {
        assert(digits.take(count) =~= digits);
    }
}

proof fn lemma_decimal_value_prefix(digits: Seq<char>, count: int)
    requires
        0 <= count <= digits.len(),
        all_decimal_digits(digits),
    ensures
        decimal_value(digits.take(count)) <= decimal_value(digits),
    decreases digits.len() - count,
{
    if count < digits.len() {
        lemma_decimal_value_prefix(digits, count + 1);
        assert(digits.take(count + 1).drop_last() =~= digits.take(count));
        assert(is_decimal_digit(digits[count]));
    } else {
        assert(digits.take(count) =~= digits);
    }
}

/// Reads hexadecimal digits (either case), most significant first.
pub fn parse_hex(digits: &Vec<char>) -> (value: usize)
    requires
        all_hex_digits(digits@),
        hex_value(digits@) <= usize::MAX,
    ensures
        value == hex_value(digits@),
{
    let mut value: usize = 0;
    let mut index: usize = 0;
    while index < digits.len()
        invariant
            index <= digits@.len(),
            all_hex_digits(digits@),
            hex_value(digits@) <= usize::MAX,
            value == hex_value(digits@.take(index as int)),
        decreases digits@.len() - index,
    {
        let ghost next = digits@.take(index + 1);
        assert(next.drop_last() =~= digits@.take(index as int));
        proof {
            lemma_hex_value_prefix(digits@, index + 1);
        }
        let digit = match nybble_from_hex(digits[index]) {
            Some(d) => d,
            None => 0,
        };
        assert(hex_digit_value(digits@[index as int]) is Some);
        value = value * 16 + digit as usize;
        index = index + 1;
    }
    assert(digits@.take(index as int) =~= digits@);
    value
}

/// Reads decimal digits, most significant first.
pub fn parse_decimal(digits: &Vec<char>) -> (value: usize)
    requires
        all_decimal_digits(digits@),
        decimal_value(digits@) <= usize::MAX,
    ensures
        value == decimal_value(digits@),
{
    let mut value: usize = 0;
    let mut index: usize = 0;
    while index < digits.len()
        invariant
            index <= digits@.len(),
            all_decimal_digits(digits@),
            decimal_value(digits@) <= usize::MAX,
            value == decimal_value(digits@.take(index as int)),
        decreases digits@.len() - index,
    {
        let ghost next = digits@.take(index + 1);
        assert(next.drop_last() =~= digits@.take(index as int));
        proof {
            lemma_decimal_value_prefix(digits@, index + 1);
        }
        assert(is_decimal_digit(digits@[index as int]));
        let digit = digits[index] as u32 - '0' as u32;
        value = value * 10 + digit as usize;
        index = index + 1;
    }
    assert(digits@.take(index as int) =~= digits@);
    value
}

} // verus!
