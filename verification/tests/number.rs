use pokemon::{ascii_to_number, slice_to_number, GameError};

#[test]
fn every_digit_has_its_value() {
    let digits = ['0', '1', '2', '3', '4', '5', '6', '7', '8', '9'];
    for (value, digit) in digits.iter().enumerate() {
        assert_eq!(ascii_to_number(*digit), Ok(value as u8));
    }
}

#[test]
fn neighbours_of_the_digits_are_refused() {
    assert_eq!(ascii_to_number('/'), Err(GameError::InvalidDigit('/')));
    assert_eq!(ascii_to_number(':'), Err(GameError::InvalidDigit(':')));
    assert_eq!(ascii_to_number('a'), Err(GameError::InvalidDigit('a')));
    assert_eq!(ascii_to_number(' '), Err(GameError::InvalidDigit(' ')));
}

#[test]
fn digits_of_other_scripts_are_refused() {
    assert_eq!(ascii_to_number('\u{0663}'), Err(GameError::InvalidDigit('\u{0663}')));
    assert_eq!(ascii_to_number('\u{ff11}'), Err(GameError::InvalidDigit('\u{ff11}')));
}

#[test]
fn digit_strings_give_their_decimal_value() {
    assert_eq!(slice_to_number("0"), Ok(0));
    assert_eq!(slice_to_number("7"), Ok(7));
    assert_eq!(slice_to_number("20"), Ok(20));
    assert_eq!(slice_to_number("60"), Ok(60));
    assert_eq!(slice_to_number("120"), Ok(120));
    assert_eq!(slice_to_number("999"), Ok(999));
    assert_eq!(slice_to_number("123456789"), Ok(123_456_789));
    assert_eq!(slice_to_number("999999999"), Ok(999_999_999));
}

#[test]
fn the_empty_string_stands_for_zero() {
    assert_eq!(slice_to_number(""), Ok(0));
}

#[test]
fn leading_zeros_do_not_count() {
    assert_eq!(slice_to_number("000123"), Ok(123));
    assert_eq!(slice_to_number("0000000000000000000000000000000000000042"), Ok(42));
}

#[test]
fn the_first_non_digit_is_reported() {
    assert_eq!(slice_to_number("12a4b"), Err(GameError::InvalidDigit('a')));
    assert_eq!(slice_to_number("x"), Err(GameError::InvalidDigit('x')));
    assert_eq!(slice_to_number("45 "), Err(GameError::InvalidDigit(' ')));
}

#[test]
fn signs_and_whitespace_are_refused() {
    assert_eq!(slice_to_number("-5"), Err(GameError::InvalidDigit('-')));
    assert_eq!(slice_to_number("+5"), Err(GameError::InvalidDigit('+')));
    assert_eq!(slice_to_number(" 20"), Err(GameError::InvalidDigit(' ')));
    assert_eq!(slice_to_number("1,000"), Err(GameError::InvalidDigit(',')));
}

#[test]
fn the_largest_machine_word_is_still_read() {
    let text = format!("{}", usize::MAX);
    assert_eq!(slice_to_number(&text), Ok(usize::MAX));
}

#[test]
fn numbers_beyond_the_machine_word_are_too_large() {
    let text = format!("{}", usize::MAX as u128 + 1);
    assert_eq!(slice_to_number(&text), Err(GameError::NumberTooLarge));
    assert_eq!(
        slice_to_number("99999999999999999999999999999999"),
        Err(GameError::NumberTooLarge)
    );
}

#[test]
fn a_non_digit_counts_before_the_size() {
    assert_eq!(
        slice_to_number("99999999999999999999999999999999x"),
        Err(GameError::InvalidDigit('x'))
    );
}
