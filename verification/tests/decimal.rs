use shortcut_release_helper::decimal::{
    parse_number, parse_signed, write_number, write_signed, NumberError,
};

#[test]
fn digits_are_read_as_number() {
    assert_eq!(parse_number("123", u64::MAX), Ok(123));
    assert_eq!(parse_number("000000000000000000000000000007", 9), Ok(7));
    assert_eq!(parse_number("", 9), Err(NumberError::Empty));
}

#[test]
fn digits_above_the_limit_are_too_large() {
    assert_eq!(parse_number("256", 255), Err(NumberError::TooLarge));
    assert_eq!(parse_number("255", 255), Ok(255));
    assert_eq!(parse_number("7", 5), Err(NumberError::TooLarge));
    assert_eq!(parse_number("0", 0), Ok(0));
    assert_eq!(parse_number("18446744073709551615", u64::MAX), Ok(u64::MAX));
    assert_eq!(
        parse_number("18446744073709551616", u64::MAX),
        Err(NumberError::TooLarge)
    );
}

#[test]
fn the_first_thing_wrong_decides() {
    assert_eq!(parse_number("12x", 255), Err(NumberError::InvalidDigit));
    assert_eq!(parse_number("999x", 255), Err(NumberError::TooLarge));
    assert_eq!(parse_number("255x", 255), Err(NumberError::InvalidDigit));
}

#[test]
fn only_a_plus_sign_may_come_first() {
    assert_eq!(parse_number("+1", 255), Ok(1));
    assert_eq!(parse_number("++1", 255), Err(NumberError::InvalidDigit));
    assert_eq!(parse_number("-1", 255), Err(NumberError::InvalidDigit));
}

#[test]
fn digits_of_other_scripts_are_not_read() {
    assert_eq!(parse_number("\u{661}", 255), Err(NumberError::InvalidDigit));
}

#[test]
fn numbers_agree_with_the_standard_library() {
    for text in [
        "", "0", "1", "007", "+1", "+", "-", "-1", "++1", " 1", "1 ", "1_000", "4294967295",
        "4294967296", "4294967295x", "99999999999x", "x99999999999", "+4294967295", "\u{661}",
    ] {
        let ours = parse_number(text, u64::from(u32::MAX));
        match text.parse::<u32>() {
            Ok(number) => assert_eq!(ours, Ok(u64::from(number)), "{text:?}"),
            Err(error) => {
                let message = match ours {
                    Err(error) => error.message(),
                    Ok(_) => "no error",
                };
                assert_eq!(error.to_string(), message, "{text:?}");
            }
        }
    }
}

#[test]
fn signed_numbers_agree_with_the_standard_library() {
    for text in [
        "", "0", "-0", "+0", "7", "007", "+5", "-5", "+", "-", "+-5", "--5", "5-", " 5", "5 ",
        "9223372036854775807", "+9223372036854775807", "9223372036854775808",
        "-9223372036854775808", "-9223372036854775809", "-99999999999999999999x",
        "-9223372036854775808x", "99999999999999999999x", "9223372036854775807x", "\u{661}",
        "-\u{661}",
    ] {
        let ours = parse_signed(text);
        match text.parse::<i64>() {
            Ok(number) => assert_eq!(ours, Ok(number), "{text:?}"),
            Err(error) => {
                let message = match ours {
                    Err(error) => error.message(),
                    Ok(_) => "no error",
                };
                assert_eq!(error.to_string(), message, "{text:?}");
            }
        }
    }
    assert_eq!(parse_signed("-9223372036854775809"), Err(NumberError::TooSmall));
}

#[test]
fn written_signed_numbers_are_read_back() {
    for n in [0, 1, -1, 10, -10, i64::MAX, i64::MIN] {
        assert_eq!(parse_signed(&write_signed(n)), Ok(n));
    }
}

#[test]
fn numbers_are_written() {
    for n in [0, 1, 9, 10, 11, 99, 100, 1_234_567_890, u64::MAX] {
        assert_eq!(write_number(n), n.to_string());
    }
    for n in [0, 1, -1, 10, -10, i64::MAX, i64::MIN] {
        assert_eq!(write_signed(n), n.to_string());
    }
}

#[test]
fn written_numbers_are_read_back() {
    for n in [0, 5, 10, 4096, u64::MAX] {
        assert_eq!(parse_number(&write_number(n), u64::MAX), Ok(n));
    }
}
