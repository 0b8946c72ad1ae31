use parquet_exp::arguments::parse_count;
use parquet_exp::error::{ConfigurationError, WriteError};

fn malformed(text: &str) -> Result<u64, WriteError> {
    Err(WriteError::Configuration(ConfigurationError::MalformedNumber(text.to_owned())))
}

#[test]
fn digits_with_separators_are_a_number() {
    assert_eq!(parse_count("0"), Ok(0));
    assert_eq!(parse_count("42"), Ok(42));
    assert_eq!(parse_count("1_000_000"), Ok(1_000_000));
    assert_eq!(parse_count("_1__0_"), Ok(10));
    assert_eq!(parse_count("007"), Ok(7));
    assert_eq!(parse_count("+5"), Ok(5));
    assert_eq!(parse_count("_+_5"), Ok(5));
    assert_eq!(parse_count("18446744073709551615"), Ok(u64::MAX));
    assert_eq!(parse_count("18_446_744_073_709_551_615"), Ok(u64::MAX));
}

#[test]
fn text_that_writes_no_number_is_refused_with_the_text() {
    for text in ["", "_", "+", "+_", "12a", "-1", "1+2", "++1", "5+", " 1", "1 ", "1.5", "٣", "x"] {
        assert_eq!(parse_count(text), malformed(text));
    }
}

#[test]
fn a_number_that_does_not_fit_is_refused() {
    assert_eq!(parse_count("18446744073709551616"), malformed("18446744073709551616"));
    assert_eq!(parse_count("99999999999999999999999"), malformed("99999999999999999999999"));
    assert_eq!(parse_count("1_8446744073709551616"), malformed("1_8446744073709551616"));
}

#[test]
fn the_number_is_the_one_that_the_text_without_separators_parses_to() {
    let texts = [
        "10000", "10", "1_0", "+0", "000", "_", "", "+", "9_223_372_036_854_775_808", "1e3",
        "18446744073709551615", "18446744073709551616", "+18446744073709551615", "0x10", "１２",
    ];
    for text in texts {
        assert_eq!(parse_count(text).ok(), text.replace("_", "").parse::<u64>().ok());
    }
}
