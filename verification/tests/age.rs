use kondor::age::{
    age_filter_fits, parse_age_filter, parse_int, ParseAgeFilterError, ParseIntError, DAY, HOUR,
    MINUTE, MONTH, WEEK, YEAR,
};
use kondor::text::push_decimal;

#[test]
fn default_age_is_no_age() {
    assert_eq!(parse_age_filter("0d"), Ok(0));
}

#[test]
fn every_unit_has_its_seconds() {
    assert_eq!(parse_age_filter("1m"), Ok(60));
    assert_eq!(parse_age_filter("1h"), Ok(3_600));
    assert_eq!(parse_age_filter("1d"), Ok(86_400));
    assert_eq!(parse_age_filter("1w"), Ok(604_800));
    assert_eq!(parse_age_filter("1M"), Ok(2_419_200));
    assert_eq!(parse_age_filter("1y"), Ok(31_536_000));
    assert_eq!((MINUTE, HOUR, DAY), (60, 3_600, 86_400));
    assert_eq!((WEEK, MONTH, YEAR), (604_800, 2_419_200, 31_536_000));
}

#[test]
fn counts_multiply_the_unit() {
    assert_eq!(parse_age_filter("30d"), Ok(2_592_000));
    assert_eq!(parse_age_filter("+90m"), Ok(5_400));
    assert_eq!(parse_age_filter("007h"), Ok(25_200));
}

#[test]
fn an_age_without_a_unit_is_refused() {
    let unit = Err(ParseAgeFilterError::InvalidUnit);
    assert_eq!(parse_age_filter(""), unit);
    assert_eq!(parse_age_filter("12"), unit);
    assert_eq!(parse_age_filter("12s"), unit);
    assert_eq!(parse_age_filter("12D"), unit);
    assert_eq!(parse_age_filter("xé"), unit);
}

#[test]
fn an_age_without_a_number_is_refused() {
    let int = |e: ParseIntError| Err(ParseAgeFilterError::ParseIntError(e));
    assert_eq!(parse_age_filter("d"), int(ParseIntError::Empty));
    assert_eq!(parse_age_filter("+d"), int(ParseIntError::InvalidDigit));
    assert_eq!(parse_age_filter("-1d"), int(ParseIntError::InvalidDigit));
    assert_eq!(parse_age_filter("1 d"), int(ParseIntError::InvalidDigit));
    assert_eq!(parse_age_filter("é1d"), int(ParseIntError::InvalidDigit));
    assert_eq!(
        parse_age_filter("18446744073709551616m"),
        int(ParseIntError::PosOverflow)
    );
}

#[test]
fn the_unit_is_looked_at_first() {
    assert_eq!(parse_age_filter("abc"), Err(ParseAgeFilterError::InvalidUnit));
}

#[test]
fn ages_beyond_the_largest_number_do_not_fit() {
    assert!(age_filter_fits("307445734561825860m"));
    assert_eq!(
        parse_age_filter("307445734561825860m"),
        Ok(18_446_744_073_709_551_600)
    );
    assert!(!age_filter_fits("307445734561825861m"));
    assert!(!age_filter_fits("18446744073709551615y"));
    assert!(age_filter_fits("18446744073709551616y"));
    assert!(age_filter_fits("nonsense"));
}

#[test]
fn numbers_are_read_as_the_standard_library_reads_them() {
    let texts = [
        "", "+", "-", "0", "00", "7", "+7", "++7", "-7", "1_000", "1 0", " 1", "1 ", "x", "9x",
        "18446744073709551615", "+18446744073709551615", "18446744073709551616",
        "18446744073709551617x", "99999999999999999999x", "9999999999999999999x",
        "184467440737095516150", "0000000000000000000000000018446744073709551615", "٣", "1é",
    ];
    for text in texts {
        match (parse_int(text), text.parse::<u64>()) {
            (Ok(a), Ok(b)) => assert_eq!(a, b),
            (Err(a), Err(b)) => assert_eq!(a.message(), b.to_string(), "{text:?}"),
            _ => panic!("{text:?}"),
        }
    }
}

#[test]
fn errors_are_told_in_words() {
    assert_eq!(
        ParseAgeFilterError::InvalidUnit.message(),
        "invalid age unit, must be one of m, h, d, w, M, y"
    );
    assert_eq!(
        ParseAgeFilterError::from(ParseIntError::InvalidDigit).message(),
        "invalid digit found in string"
    );
    assert_eq!(ParseIntError::Empty.message(), "cannot parse integer from empty string");
    assert_eq!(
        ParseIntError::PosOverflow.message(),
        "number too large to fit in target type"
    );
}

#[test]
fn ages_that_are_written_are_read_back() {
    for (unit, seconds) in [('m', 60), ('h', 3_600), ('d', 86_400), ('w', 604_800)] {
        for count in [0u64, 1, 9, 10, 99, 100, 12_345] {
            let mut text = String::new();
            push_decimal(&mut text, count);
            text.push(unit);
            assert_eq!(parse_age_filter(&text), Ok(count * seconds));
            assert_eq!(parse_age_filter(&format!("+{text}")), Ok(count * seconds));
        }
    }
}
