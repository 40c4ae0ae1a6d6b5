use wasi_replay::text::NumberError;
use wasi_replay::value::{Value, ValueError};

#[test]
fn numbers_allow_surrounding_whitespace_and_plus() {
    assert_eq!(Value::parse(" 42\n").unwrap(), Value::U64(42));
    assert_eq!(Value::parse("+7").unwrap(), Value::U64(7));
    assert_eq!(Value::parse("18446744073709551615").unwrap(), Value::U64(u64::MAX));
    assert_eq!(Value::parse("0").unwrap(), Value::U64(0));
}

#[test]
fn number_errors() {
    assert_eq!(Value::parse(""), Err(ValueError::BadNumber(NumberError::Empty)));
    assert_eq!(Value::parse("   "), Err(ValueError::BadNumber(NumberError::Empty)));
    assert_eq!(Value::parse("4x2"), Err(ValueError::BadNumber(NumberError::InvalidDigit)));
    assert_eq!(
        Value::parse("18446744073709551616"),
        Err(ValueError::BadNumber(NumberError::Overflow))
    );
}

#[test]
fn datetime_errors() {
    assert_eq!(Value::parse("datetime"), Err(ValueError::MissingOpenBrace));
    assert_eq!(Value::parse("datetime {"), Err(ValueError::MissingCloseBrace));
    assert_eq!(Value::parse("datetime { seconds: 1 }"), Err(ValueError::MissingComma));
    assert_eq!(Value::parse("datetime { 1, nanoseconds: 2 }"), Err(ValueError::MissingSecondsColon));
    assert_eq!(Value::parse("datetime { seconds: 1, 2 }"), Err(ValueError::MissingNanosecondsColon));
    assert_eq!(
        Value::parse("datetime { seconds: x, 2 }"),
        Err(ValueError::BadNumber(NumberError::InvalidDigit))
    );
    assert_eq!(
        Value::parse("datetime { seconds: 1, nanoseconds: 4294967296 }"),
        Err(ValueError::BadNumber(NumberError::Overflow))
    );
}

#[test]
fn datetime_fields_are_read_by_position() {
    assert_eq!(
        Value::parse("datetime{a:1,b:  4294967295}").unwrap(),
        Value::Datetime { seconds: 1, nanoseconds: u32::MAX }
    );
    // a text that does not start with `datetime` is a number
    assert_eq!(
        Value::parse(" datetime { seconds: 1, nanoseconds: 2 }"),
        Err(ValueError::BadNumber(NumberError::InvalidDigit))
    );
}

#[test]
fn value_texts_read_back() {
    for v in [
        Value::U64(0),
        Value::U64(u64::MAX),
        Value::Datetime { seconds: 0, nanoseconds: 0 },
        Value::Datetime { seconds: u64::MAX, nanoseconds: u32::MAX },
    ] {
        assert_eq!(Value::parse(&v.to_text()).unwrap(), v);
    }
    assert_eq!(
        Value::Datetime { seconds: 0, nanoseconds: 5 }.to_text(),
        "datetime { seconds: 0, nanoseconds: 5 }"
    );
}
