use arlen_comp::number::{parse_decimal, NumberError};

fn chars(s: &str) -> Vec<char> {
    s.chars().collect()
}

#[test]
fn decimals_parse_as_str_parse_does() {
    assert_eq!(parse_decimal(&chars("1280"), u32::MAX as u64), Ok(1280));
    assert_eq!(parse_decimal(&chars("+7"), u32::MAX as u64), Ok(7));
    assert_eq!(parse_decimal(&chars(""), u32::MAX as u64), Err(NumberError::Empty));
    assert_eq!(parse_decimal(&chars("+"), u32::MAX as u64), Err(NumberError::InvalidDigit));
    assert_eq!(parse_decimal(&chars("-1"), u32::MAX as u64), Err(NumberError::InvalidDigit));
    assert_eq!(parse_decimal(&chars("4294967296"), u32::MAX as u64), Err(NumberError::PosOverflow));
    assert_eq!(parse_decimal(&chars("18446744073709551615"), u64::MAX), Ok(u64::MAX));
}

#[test]
fn a_small_limit_refuses_a_larger_digit() {
    assert_eq!(parse_decimal(&chars("3"), 3), Ok(3));
    assert_eq!(parse_decimal(&chars("5"), 3), Err(NumberError::PosOverflow));
    assert_eq!(parse_decimal(&chars("0"), 0), Ok(0));
    assert_eq!(parse_decimal(&chars("1"), 0), Err(NumberError::PosOverflow));
    assert_eq!(parse_decimal(&chars("12"), 5), Err(NumberError::PosOverflow));
    assert_eq!(parse_decimal(&chars("9x"), 5), Err(NumberError::PosOverflow));
    assert_eq!(parse_decimal(&chars("x9"), 5), Err(NumberError::InvalidDigit));
}
