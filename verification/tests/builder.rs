use ip_geo::{build, BuildOptions, Builder, CountryCode, Error, Family, RangeIndex, Span};

fn code(text: &str) -> CountryCode {
    CountryCode::parse(text).unwrap()
}

fn v4(a: u128, b: u128, c: u128, d: u128) -> u128 {
    ((a * 256 + b) * 256 + c) * 256 + d
}

fn tolerant(family: Family) -> BuildOptions {
    BuildOptions::new(family)
}

fn strict(family: Family) -> BuildOptions {
    BuildOptions { strict: true, ..BuildOptions::new(family) }
}

fn codes(index: &RangeIndex<CountryCode>) -> Vec<CountryCode> {
    let mut out = Vec::new();
    let mut i = 0;
    while let Some(r) = index.get(i) {
        out.push(*r.value());
        i += 1;
    }
    out
}

#[test]
fn default_options() {
    let options = BuildOptions::new(Family::V6);
    assert_eq!(options.family, Family::V6);
    assert_eq!(options.comment, '#');
    assert!(!options.strict);
    assert_eq!(options.capacity_hint, 0);
    assert_eq!(options.sample_limit, 16);
}

#[test]
fn two_lines_build_two_records() {
    let text = "10.0.0.0,10.0.0.255,US\n10.0.1.0,10.0.1.255,CA";
    let (index, report) = build(text, tolerant(Family::V4)).unwrap();
    assert_eq!(index.len(), 2);
    assert!(report.is_clean());

    let us = index.search(v4(10, 0, 0, 128)).unwrap();
    assert_eq!(*us.value(), code("US"));
    assert_eq!(us.start(), v4(10, 0, 0, 0));
    assert_eq!(us.end(), v4(10, 0, 0, 255));

    assert_eq!(index.search(v4(10, 0, 2, 0)), None);

    let ca = index.search(v4(10, 0, 1, 255)).unwrap();
    assert_eq!(*ca.value(), code("CA"));
    assert_eq!(ca.start(), v4(10, 0, 1, 0));
    assert_eq!(ca.end(), v4(10, 0, 1, 255));
}

#[test]
fn two_lines_build_two_records_in_strict_mode() {
    let text = "10.0.0.0,10.0.0.255,US\n10.0.1.0,10.0.1.255,CA\n";
    let (index, report) = build(text, strict(Family::V4)).unwrap();
    assert_eq!(index.len(), 2);
    assert!(report.is_clean());
    assert_eq!(index.search(v4(10, 0, 0, 128)).map(|r| *r.value()), Some(code("US")));
    assert_eq!(index.search(v4(10, 0, 2, 0)), None);
    assert_eq!(index.search(v4(10, 0, 1, 255)).map(|r| *r.value()), Some(code("CA")));
}

#[test]
fn duplicate_start_keeps_the_first_seen() {
    let text = "10.0.0.0,10.0.0.255,US\n10.0.0.0,10.0.0.127,CA\n";
    let (index, report) = build(text, tolerant(Family::V4)).unwrap();
    assert_eq!(index.len(), 1);
    assert_eq!(codes(&index), vec![code("US")]);
    assert_eq!(report.overlaps, 1);
    assert_eq!(report.failures(), 0);
    assert_eq!(
        report.samples,
        vec![Error::OverlapDetected {
            first: Span { start: v4(10, 0, 0, 0), end: v4(10, 0, 0, 255) },
            second: Span { start: v4(10, 0, 0, 0), end: v4(10, 0, 0, 127) },
        }]
    );
    assert_eq!(index.search(v4(10, 0, 0, 5)).map(|r| *r.value()), Some(code("US")));
    assert_eq!(index.search(v4(10, 0, 0, 200)).map(|r| *r.value()), Some(code("US")));
}

#[test]
fn duplicate_start_keeps_the_first_seen_whatever_the_ends() {
    let text = "10.0.0.0,10.0.0.127,CA\n10.0.0.0,10.0.0.255,US\n";
    let (index, report) = build(text, tolerant(Family::V4)).unwrap();
    assert_eq!(codes(&index), vec![code("CA")]);
    assert_eq!(report.overlaps, 1);
    assert_eq!(index.search(v4(10, 0, 0, 200)), None);
}

#[test]
fn duplicate_start_fails_a_strict_build() {
    let text = "10.0.0.0,10.0.0.255,US\n10.0.0.0,10.0.0.127,CA\n";
    let r = build(text, strict(Family::V4));
    assert_eq!(
        r.err(),
        Some(Error::OverlapDetected {
            first: Span { start: v4(10, 0, 0, 0), end: v4(10, 0, 0, 255) },
            second: Span { start: v4(10, 0, 0, 0), end: v4(10, 0, 0, 127) },
        })
    );
}

const DIRTY: &str = "\
# Test database
1.0.0.0,1.0.0.255,AU
not a record
2.0.0.0,2.0.0.255,FR
3.0.0.0,3.0.0.300,DE

4.0.0.0,4.0.0.255,XYZ
5.0.0.9,5.0.0.0,IT
  # another comment
6.0.0.0,6.0.0.255,JP
7.0.0.0,7.0.0.255
";

#[test]
fn tolerant_build_skips_malformed_lines() {
    let (index, report) = build(DIRTY, tolerant(Family::V4)).unwrap();
    assert_eq!(index.len(), 3);
    assert_eq!(codes(&index), vec![code("AU"), code("FR"), code("JP")]);
    assert_eq!(report.failures(), 5);
    assert_eq!(report.invalid_line, 2);
    assert_eq!(report.invalid_address, 1);
    assert_eq!(report.invalid_code, 1);
    assert_eq!(report.inverted_range, 1);
    assert_eq!(report.overlaps, 0);
    assert!(!report.is_clean());
    assert_eq!(
        report.samples,
        vec![
            Error::InvalidLine { line: 3 },
            Error::InvalidAddress { line: 5 },
            Error::InvalidCode { line: 7 },
            Error::InvertedRange { line: 8 },
            Error::InvalidLine { line: 11 },
        ]
    );
    assert_eq!(index.search(v4(2, 0, 0, 7)).map(|r| *r.value()), Some(code("FR")));
    assert_eq!(index.search(v4(3, 0, 0, 7)), None);
}

#[test]
fn strict_build_fails_on_the_first_malformed_line() {
    let r = build(DIRTY, strict(Family::V4));
    assert_eq!(r.err(), Some(Error::InvalidLine { line: 3 }));
}

#[test]
fn strict_build_does_not_look_past_the_first_malformed_line() {
    let with_valid_tail = "1.0.0.0,1.0.0.255,AU\nbroken\n2.0.0.0,2.0.0.255,FR\n";
    let with_other_tail = "1.0.0.0,1.0.0.255,AU\nbroken\n1.0.0.0,1.0.0.255,AU\n9.9.9.900,1,ZZ\n";
    let without_tail = "1.0.0.0,1.0.0.255,AU\nbroken";
    let expected = Some(Error::InvalidLine { line: 2 });
    assert_eq!(build(with_valid_tail, strict(Family::V4)).err(), expected);
    assert_eq!(build(with_other_tail, strict(Family::V4)).err(), expected);
    assert_eq!(build(without_tail, strict(Family::V4)).err(), expected);
}

#[test]
fn strict_builder_stops_taking_lines_at_the_fault() {
    let mut builder = Builder::new(strict(Family::V4));
    assert_eq!(builder.feed("1.0.0.0,1.0.0.255,AU"), Ok(()));
    assert_eq!(builder.lines(), 1);
    assert_eq!(builder.records(), 1);
    assert_eq!(builder.feed("1.0.0.0,1.0.0.x,AU"), Err(Error::InvalidAddress { line: 2 }));
    assert_eq!(builder.lines(), 1);
    assert_eq!(builder.records(), 1);
}

#[test]
fn each_fault_fails_a_strict_build_with_its_line() {
    let o = strict(Family::V4);
    assert_eq!(build("\n\n1.0.0.0;1.0.0.1;AU", o).err(), Some(Error::InvalidLine { line: 3 }));
    assert_eq!(build("1.0.0.0,1.0.0.256,AU", o).err(), Some(Error::InvalidAddress { line: 1 }));
    assert_eq!(build("#\n1.0.0.0,1.0.0.1,au", o).err(), Some(Error::InvalidCode { line: 2 }));
    assert_eq!(build("1.0.0.1,1.0.0.0,AU\n", o).err(), Some(Error::InvertedRange { line: 1 }));
}

#[test]
fn comment_lines_give_no_record_and_no_failure() {
    let text = "# one\n   # two\n#1.0.0.0,1.0.0.255,AU\n\t#\n";
    let (index, report) = build(text, tolerant(Family::V4)).unwrap();
    assert!(index.is_empty());
    assert!(report.is_clean());
    assert!(report.samples.is_empty());
    let (index, report) = build(text, strict(Family::V4)).unwrap();
    assert!(index.is_empty());
    assert!(report.is_clean());
}

#[test]
fn comment_lines_do_not_change_the_index() {
    let plain = "1.0.0.0,1.0.0.255,AU\n2.0.0.0,2.0.0.255,FR\nbad\n";
    let commented = "# head\n1.0.0.0,1.0.0.255,AU\n# middle\n2.0.0.0,2.0.0.255,FR\nbad\n# tail\n";
    let (a, ra) = build(plain, tolerant(Family::V4)).unwrap();
    let (b, rb) = build(commented, tolerant(Family::V4)).unwrap();
    assert_eq!(a.into_records(), b.into_records());
    assert_eq!(ra.failures(), rb.failures());
    assert_eq!(ra.invalid_line, rb.invalid_line);
    assert_eq!(ra.samples, vec![Error::InvalidLine { line: 3 }]);
    assert_eq!(rb.samples, vec![Error::InvalidLine { line: 5 }]);
}

#[test]
fn other_comment_marker() {
    let options = BuildOptions { comment: ';', ..BuildOptions::new(Family::V4) };
    let text = "; note\n1.0.0.0,1.0.0.255,AU\n# note\n";
    let (index, report) = build(text, options).unwrap();
    assert_eq!(index.len(), 1);
    assert_eq!(report.invalid_line, 1);
    assert_eq!(report.samples, vec![Error::InvalidLine { line: 3 }]);
}

#[test]
fn empty_text_builds_an_empty_index() {
    let (index, report) = build("", tolerant(Family::V4)).unwrap();
    assert!(index.is_empty());
    assert!(report.is_clean());
    assert_eq!(index.search(0), None);
    let (index, _) = build("\n\n\n", strict(Family::V6)).unwrap();
    assert!(index.is_empty());
}

#[test]
fn lines_may_end_in_carriage_return() {
    let text = "1.0.0.0,1.0.0.255,AU\r\n2.0.0.0,2.0.0.255,FR\r\n";
    let (index, report) = build(text, strict(Family::V4)).unwrap();
    assert_eq!(codes(&index), vec![code("AU"), code("FR")]);
    assert!(report.is_clean());
}

#[test]
fn lines_are_sorted_by_start() {
    let text = "3.0.0.0,3.0.0.255,CC\n1.0.0.0,1.0.0.255,AA\n2.0.0.0,2.0.0.255,BB\n";
    let (index, _) = build(text, strict(Family::V4)).unwrap();
    assert_eq!(codes(&index), vec![code("AA"), code("BB"), code("CC")]);
    let mut i = 0;
    while i + 1 < index.len() {
        assert!(index.get(i).unwrap().start() < index.get(i + 1).unwrap().start());
        assert!(index.get(i).unwrap().end() < index.get(i + 1).unwrap().start());
        i += 1;
    }
}

#[test]
fn whole_number_database() {
    let text = "16777216,16777471,AU\n16777472,16778239,CN\n16778240,16779263,AU\n";
    let (index, report) = build(text, strict(Family::V4)).unwrap();
    assert!(report.is_clean());
    assert_eq!(index.len(), 3);
    assert_eq!(index.search(16_777_216).map(|r| *r.value()), Some(code("AU")));
    assert_eq!(index.search(16_777_500).map(|r| *r.value()), Some(code("CN")));
    assert_eq!(index.search(16_779_263).map(|r| *r.value()), Some(code("AU")));
    assert_eq!(index.search(16_779_264), None);
    assert_eq!(index.search(16_777_215), None);
}

#[test]
fn ipv6_database() {
    let text = "\
2001:200::,2001:200:ffff:ffff:ffff:ffff:ffff:ffff,JP
2001:208::,2001:208:ffff:ffff:ffff:ffff:ffff:ffff,SG
::1,::1,??
";
    let (index, report) = build(text, strict(Family::V6)).unwrap();
    assert!(report.is_clean());
    assert_eq!(index.len(), 3);
    assert_eq!(codes(&index), vec![CountryCode::unknown(), code("JP"), code("SG")]);
    let jp = 0x2001_0200_0000_0000_0000_0000_0000_0000u128;
    assert_eq!(index.search(jp).map(|r| *r.value()), Some(code("JP")));
    assert_eq!(index.search(jp + 12345).map(|r| *r.value()), Some(code("JP")));
    assert_eq!(index.search(jp - 1), None);
    assert_eq!(index.search(1).map(|r| *r.value()), Some(CountryCode::unknown()));
    assert_eq!(index.search(0), None);
    assert_eq!(index.search(u128::MAX), None);
}

#[test]
fn ipv4_lines_are_malformed_in_an_ipv6_database() {
    let text = "10.0.0.0,10.0.0.255,US\n";
    let (index, report) = build(text, tolerant(Family::V6)).unwrap();
    assert!(index.is_empty());
    assert_eq!(report.invalid_address, 1);
}

#[test]
fn capacity_hint_does_not_limit_the_input() {
    let text = "1.0.0.0,1.0.0.255,AU\n2.0.0.0,2.0.0.255,FR\n3.0.0.0,3.0.0.255,DE\n";
    for hint in [0usize, 1, 2, 3, 1000, usize::MAX] {
        let options = BuildOptions { capacity_hint: hint, ..BuildOptions::new(Family::V4) };
        let (index, report) = build(text, options).unwrap();
        assert_eq!(index.len(), 3);
        assert!(report.is_clean());
    }
}

#[test]
fn report_keeps_the_first_samples_and_counts_all() {
    let text = "a\nb\n1.0.0.0,1.0.0.9,AU\n1.0.0.5,1.0.0.6,FR\nc\n1.0.0.9,1.0.0.9,DE\n";
    let options = BuildOptions { sample_limit: 3, ..BuildOptions::new(Family::V4) };
    let (index, report) = build(text, options).unwrap();
    assert_eq!(index.len(), 1);
    assert_eq!(report.invalid_line, 3);
    assert_eq!(report.overlaps, 2);
    assert_eq!(
        report.samples,
        vec![
            Error::InvalidLine { line: 1 },
            Error::InvalidLine { line: 2 },
            Error::InvalidLine { line: 5 },
        ]
    );
    let none = BuildOptions { sample_limit: 0, ..BuildOptions::new(Family::V4) };
    let (_, report) = build(text, none).unwrap();
    assert_eq!(report.failures(), 3);
    assert_eq!(report.overlaps, 2);
    assert!(report.samples.is_empty());
}

#[test]
fn valid_lines_are_records_or_overlaps() {
    let text = "1.0.0.0,1.0.0.9,AU\nx\n1.0.0.5,1.0.0.6,FR\n2.0.0.0,2.0.0.1,DE\ny,z\n1.0.0.9,1.0.0.9,IT\n";
    let (index, report) = build(text, tolerant(Family::V4)).unwrap();
    assert_eq!(index.len() + report.overlaps, 4);
    assert_eq!(report.failures(), 2);
    assert_eq!(codes(&index), vec![code("AU"), code("DE")]);
}

#[test]
fn builder_takes_lines_one_by_one() {
    let mut builder = Builder::new(tolerant(Family::V4));
    assert_eq!(builder.options(), tolerant(Family::V4));
    assert_eq!(builder.lines(), 0);
    assert_eq!(builder.records(), 0);
    assert_eq!(builder.feed("# header"), Ok(()));
    assert_eq!(builder.feed("2.0.0.0,2.0.0.255,FR"), Ok(()));
    assert_eq!(builder.feed("oops"), Ok(()));
    assert_eq!(builder.feed("1.0.0.0,1.0.0.255,AU"), Ok(()));
    assert_eq!(builder.lines(), 4);
    assert_eq!(builder.records(), 2);
    let (index, report) = builder.finish().unwrap();
    assert_eq!(codes(&index), vec![code("AU"), code("FR")]);
    assert_eq!(report.samples, vec![Error::InvalidLine { line: 3 }]);
}

#[test]
fn builder_and_build_agree() {
    let mut builder = Builder::new(tolerant(Family::V4));
    for line in DIRTY.split('\n') {
        builder.feed(line).unwrap();
    }
    let (a, ra) = builder.finish().unwrap();
    let (b, rb) = build(DIRTY, tolerant(Family::V4)).unwrap();
    assert_eq!(a.into_records(), b.into_records());
    assert_eq!(ra, rb);
}

#[test]
fn builder_takes_a_line_from_a_range_of_characters() {
    let chars: Vec<char> = "xx1.0.0.0,1.0.0.255,AUyy".chars().collect();
    let mut builder = Builder::new(strict(Family::V4));
    assert_eq!(builder.feed_range(&chars, 2, 22), Ok(()));
    assert_eq!(builder.feed_range(&chars, 0, 22), Err(Error::InvalidAddress { line: 2 }));
    assert_eq!(builder.feed_range(&chars, 5, 5), Ok(()));
    let (index, _) = builder.finish().unwrap();
    assert_eq!(codes(&index), vec![code("AU")]);
}

#[test]
fn error_carries_its_fault() {
    assert_eq!(Error::InvalidLine { line: 3 }.fault(), Some(ip_geo::Fault::InvalidLine));
    assert_eq!(Error::InvalidAddress { line: 3 }.fault(), Some(ip_geo::Fault::InvalidAddress));
    assert_eq!(Error::InvalidCode { line: 3 }.fault(), Some(ip_geo::Fault::InvalidCode));
    assert_eq!(Error::InvertedRange { line: 3 }.fault(), Some(ip_geo::Fault::InvertedRange));
    assert_eq!(Error::OutOfBounds.fault(), None);
    assert_eq!(Error::Io.fault(), None);
    assert_eq!(
        Error::at_line(ip_geo::Fault::InvalidCode, 9),
        Error::InvalidCode { line: 9 }
    );
}

#[test]
fn large_database_in_any_order() {
    let count: u128 = 5000;
    let mut text = String::from("# generated ranges\n");
    // Ranges of 100 addresses, 156 apart, written in a scrambled order.
    let mut k: u128 = 0;
    for _ in 0..count {
        k = (k + 1987) % count;
        let start = k * 256;
        let end = start + 99;
        let first = (b'A' + (k % 26) as u8) as char;
        let second = (b'A' + ((k / 26) % 26) as u8) as char;
        text.push_str(&format!("{start},{end},{first}{second}\n"));
    }
    let options = BuildOptions { capacity_hint: 5000, strict: true, ..BuildOptions::new(Family::V4) };
    let (index, report) = build(&text, options).unwrap();
    assert!(report.is_clean());
    assert_eq!(index.len(), 5000);
    for k in 0..count {
        let start = k * 256;
        let first = (b'A' + (k % 26) as u8) as char;
        let second = (b'A' + ((k / 26) % 26) as u8) as char;
        let expected = CountryCode { first, second };
        assert_eq!(index.position(start), Some(k as usize));
        assert_eq!(index.search(start).map(|r| *r.value()), Some(expected));
        assert_eq!(index.search(start + 50).map(|r| *r.value()), Some(expected));
        assert_eq!(index.search(start + 99).map(|r| *r.value()), Some(expected));
        assert_eq!(index.search(start + 100), None);
        assert_eq!(index.search(start + 255), None);
    }
}
