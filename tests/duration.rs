use bike_anomaly::duration::{parse_duration, FormatError, Seconds};

fn whole(scaled: u64) -> Result<Seconds, FormatError> {
    Ok(Seconds { scaled, places: 0 })
}

#[test]
fn compound_duration_sums_all_units() {
    assert_eq!(parse_duration("1d 2h 3m 4s"), whole(93784));
}

#[test]
fn empty_duration_is_zero() {
    assert_eq!(parse_duration(""), whole(0));
    assert_eq!(parse_duration("   "), whole(0));
}

#[test]
fn unknown_suffix_is_format_error() {
    assert_eq!(parse_duration("5x"), Err(FormatError));
}

#[test]
fn non_numeric_prefix_is_format_error() {
    assert_eq!(parse_duration("abc d"), Err(FormatError));
    assert_eq!(parse_duration("xh"), Err(FormatError));
}

#[test]
fn missing_number_is_format_error() {
    assert_eq!(parse_duration("d"), Err(FormatError));
    assert_eq!(parse_duration("10"), Err(FormatError));
}

#[test]
fn single_units() {
    assert_eq!(parse_duration("1h"), whole(3600));
    assert_eq!(parse_duration("30m"), whole(1800));
    assert_eq!(parse_duration("2d"), whole(172800));
    assert_eq!(parse_duration("45s"), whole(45));
}

#[test]
fn repeated_units_and_extra_whitespace_add_up() {
    assert_eq!(parse_duration("  22m\t48s \n"), whole(1368));
    assert_eq!(parse_duration("1m 1m"), whole(120));
}

#[test]
fn fractional_tokens_are_exact() {
    assert_eq!(parse_duration("1.5h"), Ok(Seconds { scaled: 54000, places: 1 }));
    assert_eq!(parse_duration("0.5s"), Ok(Seconds { scaled: 5, places: 1 }));
    assert_eq!(parse_duration("1h 0.25m"), Ok(Seconds { scaled: 361500, places: 2 }));
    assert_eq!(parse_duration("2.0d"), Ok(Seconds { scaled: 1728000, places: 1 }));
}

#[test]
fn malformed_decimals_are_format_errors() {
    assert_eq!(parse_duration(".5h"), Err(FormatError));
    assert_eq!(parse_duration("5.h"), Err(FormatError));
    assert_eq!(parse_duration("1.2.3s"), Err(FormatError));
    assert_eq!(parse_duration("-5s"), Err(FormatError));
}

#[test]
fn overflowing_total_is_format_error() {
    assert_eq!(parse_duration("18446744073709551615s"), whole(u64::MAX));
    assert_eq!(parse_duration("18446744073709551616s"), Err(FormatError));
    assert_eq!(parse_duration("18446744073709551615s 1s"), Err(FormatError));
    assert_eq!(parse_duration("300000000000000d"), Err(FormatError));
    assert_eq!(parse_duration("0.00000000000000000001s"), Err(FormatError));
}
