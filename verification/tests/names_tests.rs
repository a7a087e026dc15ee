use document_diff::names::{
    decimal, diff_file_name, find_field, parse_decimal, parse_diff_timestamp, FileNameError,
};

fn parsed(text: &str) -> Option<i64> {
    parse_decimal(text.as_bytes(), 0, text.len())
}

#[test]
fn diff_is_named_after_file_and_time() {
    let name = diff_file_name(Some(b"report.pdf".as_slice()), 1700000000);
    assert_eq!(name, b"report.pdf.diff.1700000000.pdf".to_vec());
}

#[test]
fn file_without_name_goes_by_unknown_filename() {
    assert_eq!(diff_file_name(None, 5), b"unknown_filename.diff.5.pdf".to_vec());
}

#[test]
fn diff_before_the_epoch_has_a_minus() {
    assert_eq!(diff_file_name(Some(b"a".as_slice()), -12), b"a.diff.-12.pdf".to_vec());
    assert_eq!(diff_file_name(Some(b"".as_slice()), 0), b".diff.0.pdf".to_vec());
}

#[test]
fn numbers_are_written_without_leading_zeros() {
    assert_eq!(decimal(0), b"0".to_vec());
    assert_eq!(decimal(7), b"7".to_vec());
    assert_eq!(decimal(10), b"10".to_vec());
    assert_eq!(decimal(-305), b"-305".to_vec());
    assert_eq!(decimal(i64::MAX), b"9223372036854775807".to_vec());
    assert_eq!(decimal(i64::MIN), b"-9223372036854775808".to_vec());
}

#[test]
fn time_is_read_from_the_second_to_last_field() {
    assert_eq!(parse_diff_timestamp(b"report.pdf.diff.1700000000.pdf"), Ok(1700000000));
    assert_eq!(parse_diff_timestamp(b"17.pdf"), Ok(17));
    assert_eq!(parse_diff_timestamp(b"x.-4."), Ok(-4));
    assert_eq!(parse_diff_timestamp(b"12.34.56"), Ok(34));
}

#[test]
fn time_is_read_back_from_the_name_made_for_it() {
    for seconds in [0, 1, -1, 59, 1700000000, i64::MAX, i64::MIN] {
        for name in [Some(b"a.b.c".as_slice()), Some(b"".as_slice()), Some(b"..".as_slice()), None] {
            assert_eq!(parse_diff_timestamp(&diff_file_name(name, seconds)), Ok(seconds));
        }
    }
}

#[test]
fn name_without_dot_is_too_short() {
    assert_eq!(parse_diff_timestamp(b"1700000000"), Err(FileNameError::TooShort));
    assert_eq!(parse_diff_timestamp(b""), Err(FileNameError::TooShort));
}

#[test]
fn field_that_is_no_number_is_refused() {
    assert_eq!(parse_diff_timestamp(b"report.pdf"), Err(FileNameError::NotANumber));
    assert_eq!(parse_diff_timestamp(b"a.diff..pdf"), Err(FileNameError::NotANumber));
    assert_eq!(parse_diff_timestamp(b".pdf"), Err(FileNameError::NotANumber));
    assert_eq!(parse_diff_timestamp(b"a.1e3.pdf"), Err(FileNameError::NotANumber));
    assert_eq!(parse_diff_timestamp(b"a. 12.pdf"), Err(FileNameError::NotANumber));
    assert_eq!(
        parse_diff_timestamp(b"a.diff.9223372036854775808.pdf"),
        Err(FileNameError::NotANumber)
    );
}

#[test]
fn decimal_takes_a_sign_and_digits() {
    assert_eq!(parsed("0"), Some(0));
    assert_eq!(parsed("007"), Some(7));
    assert_eq!(parsed("+15"), Some(15));
    assert_eq!(parsed("-15"), Some(-15));
    assert_eq!(parsed("-0"), Some(0));
    assert_eq!(parsed(""), None);
    assert_eq!(parsed("+"), None);
    assert_eq!(parsed("-"), None);
    assert_eq!(parsed("--1"), None);
    assert_eq!(parsed("1-"), None);
    assert_eq!(parsed("12a"), None);
    assert_eq!(parsed("1.5"), None);
}

#[test]
fn decimal_agrees_with_the_standard_parser() {
    for text in [
        "9223372036854775807",
        "9223372036854775808",
        "-9223372036854775808",
        "-9223372036854775809",
        "+9223372036854775807",
        "00000000000000000000000000042",
        "18446744073709551616",
        "99999999999999999999999999999",
        "-99999999999999999999999999999",
        "92233720368547758070",
    ] {
        assert_eq!(parsed(text), text.parse::<i64>().ok());
    }
}

#[test]
fn decimal_reads_the_named_part_only() {
    assert_eq!(parse_decimal(b"ab123cd", 2, 5), Some(123));
    assert_eq!(parse_decimal(b"ab123cd", 2, 2), None);
    assert_eq!(parse_decimal(b"ab123cd", 1, 5), None);
}

#[test]
fn errors_say_what_is_wrong_with_the_name() {
    assert_eq!(
        FileNameError::TooShort.message(),
        "Unable to parse filename. Filename is too short"
    );
    assert_eq!(
        FileNameError::NotANumber.message(),
        "Unable to parse filename. Not a valid number inside filename"
    );
}

#[test]
fn field_stands_between_the_last_two_dots() {
    assert_eq!(find_field(b"report.pdf.diff.1700000000.pdf"), Some((16, 26)));
    assert_eq!(find_field(b"17.pdf"), Some((0, 2)));
    assert_eq!(find_field(b"a..pdf"), Some((2, 2)));
    assert_eq!(find_field(b".pdf"), Some((0, 0)));
    assert_eq!(find_field(b"a.b."), Some((2, 3)));
    assert_eq!(find_field(b"nodots"), None);
    assert_eq!(find_field(b""), None);
}
