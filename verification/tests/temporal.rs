use serde_arrow::temporal::{format_timestamp, parse_timestamp, DateTime};

#[test]
fn parses_utc_strings_to_milliseconds() {
    assert_eq!(parse_timestamp("2020-12-24T08:30:00Z", true), Some(1608798600000));
    assert_eq!(parse_timestamp("2023-05-05T16:06:00Z", true), Some(1683302760000));
}

#[test]
fn parses_naive_strings_to_milliseconds() {
    assert_eq!(parse_timestamp("2022-09-11T18:34:48", false), Some(1662921288000));
    assert_eq!(parse_timestamp("1900-01-01T14:38:45", false), Some(-2208936075000));
    assert_eq!(parse_timestamp("1900-01-01T15:18:45", false), Some(-2208933675000));
    assert_eq!(parse_timestamp("0000-01-01T00:00:00", false), Some(-62167219200000));
    assert_eq!(parse_timestamp("9999-12-31T23:59:59.999999999", false), Some(253402300799999));
}

#[test]
fn formats_milliseconds_as_strings() {
    assert_eq!(format_timestamp(1608798600000, true), Some(String::from("2020-12-24T08:30:00Z")));
    assert_eq!(format_timestamp(-2208936075000, false), Some(String::from("1900-01-01T14:38:45")));
    assert_eq!(format_timestamp(1, false), Some(String::from("1970-01-01T00:00:00.001")));
    assert_eq!(format_timestamp(-1, true), Some(String::from("1969-12-31T23:59:59.999Z")));
}

#[test]
fn rejects_strings_of_the_other_kind() {
    assert_eq!(parse_timestamp("2020-12-24T08:30:00", true), None);
    assert_eq!(parse_timestamp("2020-12-24T08:30:00Z", false), None);
    assert_eq!(parse_timestamp("not a date", false), None);
    assert_eq!(parse_timestamp("2021-02-29T00:00:00", false), None);
    assert_eq!(parse_timestamp("2020-02-29T00:00:00", false), Some(1582934400000));
}

#[test]
fn splits_an_instant_into_its_fields() {
    let dt = DateTime::from_millis(951782400123).unwrap();
    assert_eq!((dt.year, dt.month, dt.day), (2000, 2, 29));
    assert_eq!((dt.hour, dt.minute, dt.second, dt.millisecond), (0, 0, 0, 123));
    assert_eq!(dt.to_millis(), 951782400123);
    assert_eq!(DateTime::from_millis(i64::MAX), None);
}
