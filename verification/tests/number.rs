use minishell::number::parse_number;
use minishell::NumberError;
use std::num::IntErrorKind;

#[test]
fn digits_name_their_number() {
    assert_eq!(parse_number("0"), Ok(0));
    assert_eq!(parse_number("7"), Ok(7));
    assert_eq!(parse_number("42"), Ok(42));
    assert_eq!(parse_number("007"), Ok(7));
    assert_eq!(parse_number("1234567890"), Ok(1234567890));
}

#[test]
fn a_sign_may_lead() {
    assert_eq!(parse_number("+5"), Ok(5));
    assert_eq!(parse_number("-5"), Ok(-5));
    assert_eq!(parse_number("-0"), Ok(0));
    assert_eq!(parse_number("+0"), Ok(0));
}

#[test]
fn the_range_is_that_of_i32() {
    assert_eq!(parse_number("2147483647"), Ok(i32::MAX));
    assert_eq!(parse_number("+2147483647"), Ok(i32::MAX));
    assert_eq!(parse_number("-2147483648"), Ok(i32::MIN));
    assert_eq!(parse_number("00000000002147483647"), Ok(i32::MAX));
    assert_eq!(parse_number("2147483648"), Err(NumberError::TooLarge));
    assert_eq!(parse_number("-2147483649"), Err(NumberError::TooSmall));
    assert_eq!(parse_number("99999999999999999999999"), Err(NumberError::TooLarge));
    assert_eq!(parse_number("-99999999999999999999999"), Err(NumberError::TooSmall));
}

#[test]
fn an_empty_text_is_no_number() {
    assert_eq!(parse_number(""), Err(NumberError::Empty));
}

#[test]
fn a_sign_alone_is_no_number() {
    assert_eq!(parse_number("+"), Err(NumberError::InvalidDigit));
    assert_eq!(parse_number("-"), Err(NumberError::InvalidDigit));
}

#[test]
fn anything_but_digits_is_refused() {
    assert_eq!(parse_number("notanumber"), Err(NumberError::InvalidDigit));
    assert_eq!(parse_number("12a"), Err(NumberError::InvalidDigit));
    assert_eq!(parse_number("a12"), Err(NumberError::InvalidDigit));
    assert_eq!(parse_number("1 2"), Err(NumberError::InvalidDigit));
    assert_eq!(parse_number("--1"), Err(NumberError::InvalidDigit));
    assert_eq!(parse_number("+-1"), Err(NumberError::InvalidDigit));
    assert_eq!(parse_number("1+"), Err(NumberError::InvalidDigit));
    assert_eq!(parse_number("٣"), Err(NumberError::InvalidDigit));
    assert_eq!(parse_number("1.5"), Err(NumberError::InvalidDigit));
}

#[test]
fn the_leading_digits_decide_between_the_errors() {
    assert_eq!(parse_number("99999999999x"), Err(NumberError::TooLarge));
    assert_eq!(parse_number("-99999999999x"), Err(NumberError::TooSmall));
    assert_eq!(parse_number("2147483647x"), Err(NumberError::InvalidDigit));
    assert_eq!(parse_number("2147483648x"), Err(NumberError::TooLarge));
    assert_eq!(parse_number("x99999999999"), Err(NumberError::InvalidDigit));
}

fn by_std(text: &str) -> Result<i32, NumberError> {
    match text.parse::<i32>() {
        Ok(number) => Ok(number),
        Err(error) => match error.kind() {
            IntErrorKind::Empty => Err(NumberError::Empty),
            IntErrorKind::InvalidDigit => Err(NumberError::InvalidDigit),
            IntErrorKind::PosOverflow => Err(NumberError::TooLarge),
            IntErrorKind::NegOverflow => Err(NumberError::TooSmall),
            other => panic!("{:?}", other),
        },
    }
}

#[test]
fn numbers_are_read_as_std_reads_them() {
    let texts = [
        "", "+", "-", "0", "-0", "+0", "1", "-1", "+1", "12", "0012", "2147483647", "2147483648",
        "-2147483648", "-2147483649", "4294967296", "99999999999", "-99999999999", "99999999999x",
        "-99999999999x", "2147483647x", "12x34", "x", " 1", "1 ", "1_000", "0x10", "١٢", "+-1",
        "-+1", "++1", "1e3", "214748364", "2147483650", "-2147483650", "21474836470",
        "000000000000000000000000000001", "-000000000000000000000000000001",
    ];
    for text in texts {
        assert_eq!(parse_number(text), by_std(text), "{:?}", text);
    }
}

#[test]
fn every_small_number_is_read_back() {
    let mut n: i32 = -1500;
    while n <= 1500 {
        assert_eq!(parse_number(&n.to_string()), Ok(n));
        n += 1;
    }
}
