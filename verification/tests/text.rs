use ip_geo::number::{digit_of, read_decimal, read_numeral};
use ip_geo::text::{chars_of, find, is_blank, split_ranges, trim_range};

fn chars(s: &str) -> Vec<char> {
    s.chars().collect()
}

#[test]
fn chars_of_gives_every_character() {
    assert_eq!(chars_of("héllo"), vec!['h', 'é', 'l', 'l', 'o']);
    assert_eq!(chars_of(""), Vec::<char>::new());
}

#[test]
fn blanks_are_space_tab_and_line_ends() {
    assert!(is_blank(' '));
    assert!(is_blank('\t'));
    assert!(is_blank('\r'));
    assert!(is_blank('\n'));
    assert!(!is_blank('a'));
    assert!(!is_blank('#'));
    assert!(!is_blank('\u{a0}'));
}

#[test]
fn find_gives_the_first_occurrence_or_the_end() {
    let c = chars("a,b,c");
    assert_eq!(find(&c, 0, 5, ','), 1);
    assert_eq!(find(&c, 2, 5, ','), 3);
    assert_eq!(find(&c, 4, 5, ','), 5);
    assert_eq!(find(&c, 0, 1, ','), 1);
    assert_eq!(find(&c, 3, 3, ','), 3);
}

#[test]
fn split_gives_one_piece_more_than_separators() {
    let c = chars("a,bc,,d,");
    assert_eq!(split_ranges(&c, 0, 8, ','), vec![(0, 1), (2, 4), (5, 5), (6, 7), (8, 8)]);
    assert_eq!(split_ranges(&c, 0, 8, ';'), vec![(0, 8)]);
    assert_eq!(split_ranges(&c, 3, 3, ','), vec![(3, 3)]);
    assert_eq!(split_ranges(&c, 2, 6, ','), vec![(2, 4), (5, 5), (6, 6)]);
}

#[test]
fn trim_drops_blanks_at_both_ends() {
    let c = chars("  a b \t");
    assert_eq!(trim_range(&c, 0, 7), (2, 5));
    assert_eq!(trim_range(&c, 2, 5), (2, 5));
    assert_eq!(trim_range(&c, 0, 2), (2, 2));
    assert_eq!(trim_range(&c, 3, 4), (4, 4));
    let blank = chars("   ");
    assert_eq!(trim_range(&blank, 0, 3), (3, 3));
}

#[test]
fn digits_have_their_values() {
    assert_eq!(digit_of('0', 10), Some(0));
    assert_eq!(digit_of('9', 10), Some(9));
    assert_eq!(digit_of('a', 10), None);
    assert_eq!(digit_of('a', 16), Some(10));
    assert_eq!(digit_of('F', 16), Some(15));
    assert_eq!(digit_of('g', 16), None);
    assert_eq!(digit_of('/', 16), None);
    assert_eq!(digit_of(':', 16), None);
    assert_eq!(digit_of('7', 8), Some(7));
    assert_eq!(digit_of('8', 8), None);
}

#[test]
fn numerals_are_read_most_significant_digit_first() {
    let c = chars("x1234ffy");
    assert_eq!(read_numeral(&c, 1, 5, 10, 10), Some(1234));
    assert_eq!(read_numeral(&c, 1, 7, 16, 6), Some(0x1234ff));
    assert_eq!(read_numeral(&c, 1, 7, 10, 10), None);
    assert_eq!(read_numeral(&c, 1, 5, 10, 3), None);
    assert_eq!(read_numeral(&c, 1, 1, 10, 10), None);
    assert_eq!(read_numeral(&c, 0, 5, 10, 10), None);
}

#[test]
fn decimals_take_no_leading_zero_and_a_limit() {
    let c = chars("0 007 255 256");
    assert_eq!(read_decimal(&c, 0, 1, 3, 255), Some(0));
    assert_eq!(read_decimal(&c, 2, 5, 3, 255), None);
    assert_eq!(read_decimal(&c, 6, 9, 3, 255), Some(255));
    assert_eq!(read_decimal(&c, 10, 13, 3, 255), None);
    assert_eq!(read_decimal(&c, 10, 13, 3, 256), Some(256));
}
