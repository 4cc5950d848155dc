use ip_geo::{parse_line, CountryCode, Family, Fault, Record};

fn code(text: &str) -> CountryCode {
    CountryCode::parse(text).unwrap()
}

fn record(start: u128, end: u128, text: &str) -> Record<CountryCode> {
    Record::new(start, end, code(text)).unwrap()
}

#[test]
fn line_with_three_fields_is_a_record() {
    let r = parse_line("10.0.0.0,10.0.0.255,US", '#', Family::V4);
    assert_eq!(r, Ok(Some(record(167_772_160, 167_772_415, "US"))));
    let parsed = r.unwrap().unwrap();
    assert_eq!(parsed.start(), 167_772_160);
    assert_eq!(parsed.end(), 167_772_415);
    assert_eq!(*parsed.value(), CountryCode { first: 'U', second: 'S' });
}

#[test]
fn line_with_whole_numbers_is_a_record() {
    let r = parse_line("16777216,16777471,AU", '#', Family::V4);
    assert_eq!(r, Ok(Some(record(16_777_216, 16_777_471, "AU"))));
}

#[test]
fn ipv6_line_is_a_record() {
    let r = parse_line("2001:200::,2001:200:ffff:ffff:ffff:ffff:ffff:ffff,JP", '#', Family::V6);
    assert_eq!(
        r,
        Ok(Some(record(
            0x2001_0200_0000_0000_0000_0000_0000_0000,
            0x2001_0200_ffff_ffff_ffff_ffff_ffff_ffff,
            "JP"
        )))
    );
}

#[test]
fn single_address_is_a_range() {
    let r = parse_line("1.2.3.4,1.2.3.4,DE", '#', Family::V4);
    assert_eq!(r, Ok(Some(record(16_909_060, 16_909_060, "DE"))));
}

#[test]
fn blanks_around_fields_are_ignored() {
    let r = parse_line("  10.0.0.0 ,\t10.0.0.255 , US \r", '#', Family::V4);
    assert_eq!(r, Ok(Some(record(167_772_160, 167_772_415, "US"))));
}

#[test]
fn blank_line_is_skipped() {
    assert_eq!(parse_line("", '#', Family::V4), Ok(None));
    assert_eq!(parse_line("   ", '#', Family::V4), Ok(None));
    assert_eq!(parse_line("\t\r", '#', Family::V6), Ok(None));
}

#[test]
fn comment_line_is_skipped() {
    assert_eq!(parse_line("# a comment", '#', Family::V4), Ok(None));
    assert_eq!(parse_line("   # indented", '#', Family::V4), Ok(None));
    assert_eq!(parse_line("#10.0.0.0,10.0.0.255,US", '#', Family::V4), Ok(None));
    assert_eq!(parse_line("#", '#', Family::V4), Ok(None));
    assert_eq!(parse_line("# not, a, record, at, all", '#', Family::V6), Ok(None));
}

#[test]
fn comment_marker_is_configurable() {
    assert_eq!(parse_line("; a comment", ';', Family::V4), Ok(None));
    assert_eq!(parse_line("# a comment", ';', Family::V4), Err(Fault::InvalidLine));
    assert_eq!(parse_line("1.0.0.0,1.0.0.1,US", '1', Family::V4), Ok(None));
}

#[test]
fn comment_marker_after_a_field_is_no_comment() {
    assert_eq!(
        parse_line("10.0.0.0,10.0.0.255,US # home", '#', Family::V4),
        Err(Fault::InvalidCode)
    );
}

#[test]
fn wrong_number_of_fields_is_an_invalid_line() {
    assert_eq!(parse_line("10.0.0.0,10.0.0.255", '#', Family::V4), Err(Fault::InvalidLine));
    assert_eq!(parse_line("10.0.0.0", '#', Family::V4), Err(Fault::InvalidLine));
    assert_eq!(
        parse_line("10.0.0.0,10.0.0.255,US,extra", '#', Family::V4),
        Err(Fault::InvalidLine)
    );
    assert_eq!(parse_line("garbage", '#', Family::V4), Err(Fault::InvalidLine));
    assert_eq!(parse_line("10.0.0.0 10.0.0.255 US", '#', Family::V4), Err(Fault::InvalidLine));
}

#[test]
fn malformed_address_is_an_invalid_address() {
    assert_eq!(parse_line("10.0.0,10.0.0.255,US", '#', Family::V4), Err(Fault::InvalidAddress));
    assert_eq!(parse_line("10.0.0.0,10.0.0.256,US", '#', Family::V4), Err(Fault::InvalidAddress));
    assert_eq!(parse_line(",10.0.0.255,US", '#', Family::V4), Err(Fault::InvalidAddress));
    assert_eq!(parse_line("10.0.0.0,,US", '#', Family::V4), Err(Fault::InvalidAddress));
    assert_eq!(parse_line("::1,::2,US", '#', Family::V4), Err(Fault::InvalidAddress));
    assert_eq!(parse_line("10.0.0.0,10.0.0.255,US", '#', Family::V6), Err(Fault::InvalidAddress));
    assert_eq!(parse_line("10.0 .0.0,10.0.0.255,US", '#', Family::V4), Err(Fault::InvalidAddress));
}

#[test]
fn malformed_code_is_an_invalid_code() {
    assert_eq!(parse_line("10.0.0.0,10.0.0.255,USA", '#', Family::V4), Err(Fault::InvalidCode));
    assert_eq!(parse_line("10.0.0.0,10.0.0.255,U", '#', Family::V4), Err(Fault::InvalidCode));
    assert_eq!(parse_line("10.0.0.0,10.0.0.255,", '#', Family::V4), Err(Fault::InvalidCode));
    assert_eq!(parse_line("10.0.0.0,10.0.0.255,us", '#', Family::V4), Err(Fault::InvalidCode));
    assert_eq!(parse_line("10.0.0.0,10.0.0.255,U1", '#', Family::V4), Err(Fault::InvalidCode));
    assert_eq!(parse_line("10.0.0.0,10.0.0.255,?A", '#', Family::V4), Err(Fault::InvalidCode));
    assert_eq!(parse_line("10.0.0.0,10.0.0.255,U S", '#', Family::V4), Err(Fault::InvalidCode));
}

#[test]
fn start_above_end_is_an_inverted_range() {
    assert_eq!(
        parse_line("10.0.0.255,10.0.0.0,US", '#', Family::V4),
        Err(Fault::InvertedRange)
    );
    assert_eq!(parse_line("::2,::1,US", '#', Family::V6), Err(Fault::InvertedRange));
}

#[test]
fn faults_are_found_in_a_fixed_order() {
    // Address before code, code before the order of the bounds.
    assert_eq!(parse_line("x,10.0.0.0,usa", '#', Family::V4), Err(Fault::InvalidAddress));
    assert_eq!(parse_line("10.0.0.9,x,usa", '#', Family::V4), Err(Fault::InvalidAddress));
    assert_eq!(parse_line("10.0.0.9,10.0.0.0,usa", '#', Family::V4), Err(Fault::InvalidCode));
}

#[test]
fn code_of_the_unassigned_is_a_code() {
    let r = parse_line("0.0.0.0,0.255.255.255,??", '#', Family::V4);
    let parsed = r.unwrap().unwrap();
    assert!(parsed.value().is_unknown());
    assert_eq!(*parsed.value(), CountryCode::unknown());
}

#[test]
fn country_code_is_two_capitals_or_the_unassigned() {
    assert_eq!(CountryCode::parse("BE"), Some(CountryCode { first: 'B', second: 'E' }));
    assert_eq!(CountryCode::parse("??"), Some(CountryCode::unknown()));
    assert_eq!(CountryCode::parse("be"), None);
    assert_eq!(CountryCode::parse("B"), None);
    assert_eq!(CountryCode::parse("BEL"), None);
    assert_eq!(CountryCode::parse(""), None);
    assert_eq!(CountryCode::parse("B?"), None);
    assert_eq!(CountryCode::parse("ÄB"), None);
    assert!(CountryCode::parse("AZ").unwrap().is_valid());
    assert!(!CountryCode { first: 'a', second: 'z' }.is_valid());
    assert!(!CountryCode::parse("AZ").unwrap().is_unknown());
}

#[test]
fn record_needs_start_at_or_below_end() {
    assert!(Record::new(5, 4, ()).is_none());
    let r = Record::new(4, 4, "x").unwrap();
    assert_eq!(r.start(), 4);
    assert_eq!(r.end(), 4);
    assert_eq!(r.span().start, 4);
    assert_eq!(r.span().end, 4);
    assert!(r.contains(4));
    assert!(!r.contains(3));
    assert!(!r.contains(5));
    assert_eq!(r.into_value(), "x");
}
