use hexapoda::characters::{chars_of, is_illegal_control_character, nybble_from_hex, parse_decimal, parse_hex};

#[test]
fn nybble_from_hex_case_doesnt_matter() {
    for character in 'a'..='f' {
        assert_eq!(nybble_from_hex(character), nybble_from_hex(character.to_ascii_uppercase()));
    }
}

#[test]
fn nybble_from_hex_digits_are_correct() {
    for (index, character) in ('0'..='9').enumerate() {
        assert_eq!(nybble_from_hex(character), Some(u8::try_from(index).unwrap()));
    }
}

#[test]
fn nybble_from_hex_letters_are_ten_to_fifteen() {
    assert_eq!(nybble_from_hex('a'), Some(10));
    assert_eq!(nybble_from_hex('F'), Some(15));
    assert_eq!(nybble_from_hex('c'), Some(12));
}

#[test]
fn nybble_from_hex_rejects_other_characters() {
    assert_eq!(nybble_from_hex('g'), None);
    assert_eq!(nybble_from_hex('G'), None);
    assert_eq!(nybble_from_hex(' '), None);
    assert_eq!(nybble_from_hex('é'), None);
    assert_eq!(nybble_from_hex('\u{ff10}'), None);
}

#[test]
fn control_characters_that_may_not_be_shown() {
    assert!(is_illegal_control_character('\0'));
    assert!(is_illegal_control_character('\u{7f}'));
    assert!(is_illegal_control_character('\u{1b}'));
    assert!(!is_illegal_control_character('\t'));
    assert!(!is_illegal_control_character('\n'));
    assert!(!is_illegal_control_character('\r'));
    assert!(!is_illegal_control_character('a'));
    assert!(!is_illegal_control_character('\u{80}'));
}

#[test]
fn chars_of_splits_text() {
    assert_eq!(chars_of("hé!"), vec!['h', 'é', '!']);
    assert_eq!(chars_of(""), Vec::<char>::new());
}

#[test]
fn parse_hex_reads_most_significant_digit_first() {
    assert_eq!(parse_hex(&vec!['1', 'f']), 0x1f);
    assert_eq!(parse_hex(&vec!['A', 'b', 'C']), 0xabc);
    assert_eq!(parse_hex(&vec!['0']), 0);
}

#[test]
fn parse_decimal_reads_most_significant_digit_first() {
    assert_eq!(parse_decimal(&vec!['1', '2', '3']), 123);
    assert_eq!(parse_decimal(&vec!['0', '7']), 7);
}
