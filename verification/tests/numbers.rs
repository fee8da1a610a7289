use fywaf::number::{
    hex_digit, integer, natural, pad_zeros, write_decimal, write_number, NumberError,
};

fn chars(s: &str) -> Vec<char> {
    s.chars().collect()
}

#[test]
fn numbers_come_back_from_their_decimal_form() {
    for n in [0, 7, 10, 99, 100, 65535, u64::MAX] {
        assert_eq!(natural(&write_decimal(n), 10, u64::MAX), Ok(n));
    }
    assert_eq!(write_decimal(1050), chars("1050"));
}

#[test]
fn naturals_and_their_errors() {
    assert_eq!(natural(&chars("+12"), 10, 255), Ok(12));
    assert_eq!(natural(&chars("fF"), 16, 255), Ok(255));
    assert_eq!(natural(&chars(""), 10, 255), Err(NumberError::Empty));
    assert_eq!(natural(&chars("+"), 10, 255), Err(NumberError::InvalidDigit));
    assert_eq!(natural(&chars("-1"), 10, 255), Err(NumberError::InvalidDigit));
    assert_eq!(natural(&chars("12x"), 10, 255), Err(NumberError::InvalidDigit));
    assert_eq!(natural(&chars("256"), 10, 255), Err(NumberError::TooLarge));
    assert_eq!(natural(&chars("256x"), 10, 255), Err(NumberError::TooLarge));
}

#[test]
fn integers_have_signs() {
    assert_eq!(integer(&chars("-9223372036854775808")), Some(i64::MIN));
    assert_eq!(integer(&chars("+7")), Some(7));
    assert_eq!(integer(&chars("--7")), None);
    assert_eq!(integer(&chars("-")), None);
}

#[test]
fn digits_and_padding() {
    assert_eq!(hex_digit('b'), Some(11));
    assert_eq!(hex_digit('g'), None);
    assert_eq!(write_number(0x2aF, 16), chars("2AF"));
    assert_eq!(pad_zeros(chars("2AF"), 4), chars("02AF"));
    assert_eq!(pad_zeros(chars("12345"), 4), chars("12345"));
}
