//! The line parser.
//!
//! A database line reads `start,end,code`: two address literals of the
//! database's family and a country code, separated by commas. Blanks around
//! the line and around each field are ignored. A line that holds only blanks,
//! or whose first character after the leading blanks is the comment marker,
//! is skipped: it gives no record and is no failure.

use vstd::prelude::*;
use crate::address::{read_address, Family};
use crate::code::{read_code, CountryCode};
use crate::error::Fault;
use crate::record::{Entry, Record, Span};
use crate::text::{chars_of, is_space, split, split_ranges, trim, trim_range};

verus! {

/// What one line amounts to.
pub enum Outcome {
    /// Blank or comment: nothing to record, nothing to report.
    Skip,
    /// The record written on the line.
    Entry(Entry<CountryCode>),
    /// The reason why the line yields no record.
    Fault(Fault),
}

/// Whether the line is skipped: blank, or a comment.
pub open spec fn is_skipped(line: Seq<char>, comment: char) -> bool {
    trim(line).len() == 0 || trim(line)[0] == comment
}

/// What `line` amounts to in a database of `family` whose comments start with
/// `comment`.
///
/// The checks go in a fixed order, and the first that fails names the fault:
/// the number of fields, the two addresses, the country code, the order of
/// the two addresses.
pub open spec fn parse_line_spec(line: Seq<char>, comment: char, family: Family) -> Outcome {
    let fields = split(trim(line), ',');
    if is_skipped(line, comment) {
        Outcome::Skip
    } else if fields.len() != 3 {
        Outcome::Fault(Fault::InvalidLine)
    } else {
        match (family.literal(trim(fields[0])), family.literal(trim(fields[1]))) {
            (Some(start), Some(end)) => match CountryCode::from_text(trim(fields[2])) {
                Some(code) => if start <= end {
                    Outcome::Entry(Entry { span: Span { start, end }, value: code })
                } else {
                    Outcome::Fault(Fault::InvertedRange)
                },
                None => Outcome::Fault(Fault::InvalidCode),
            },
            _ => Outcome::Fault(Fault::InvalidAddress),
        }
    }
}

/// Whether the parser's answer `r` says what `outcome` says.
pub open spec fn agrees(r: Result<Option<Record<CountryCode>>, Fault>, outcome: Outcome) -> bool {
    match outcome {
        Outcome::Skip => r == Ok::<Option<Record<CountryCode>>, Fault>(None),
        Outcome::Entry(e) => r matches Ok(Some(record)) && record@ == e,
        Outcome::Fault(f) => r == Err::<Option<Record<CountryCode>>, Fault>(f),
    }
}

/// Every entry that a line yields is a well-formed range within the family,
/// tagged with a valid code.
pub proof fn lemma_entry_valid(line: Seq<char>, comment: char, family: Family)
    ensures
        parse_line_spec(line, comment, family) matches Outcome::Entry(e) ==> e.span.wf()
            && e.span.end <= family.top() && e.value.wf(),
{
    let fields = split(trim(line), ',');
    if fields.len() == 3 {
        crate::address::lemma_literal_within(family, trim(fields[1]));
    }
}

/// A line whose first character after any leading blanks is the comment
/// marker is skipped, whatever follows the marker.
pub proof fn lemma_comment_skipped(line: Seq<char>, comment: char, family: Family, at: int)
    requires
        0 <= at < line.len(),
        forall|j: int| 0 <= j < at ==> is_space(line[j]),
        !is_space(line[at]),
        line[at] == comment,
    ensures
        parse_line_spec(line, comment, family) == Outcome::Skip,
{
    crate::text::lemma_trim_start(line, at);
    let rest = line.skip(at);
    lemma_trim_end_keeps_first(rest);
}

/// Trimming the end of a text that starts with a non-blank character leaves
/// that character in front.
pub proof fn lemma_trim_end_keeps_first(s: Seq<char>)
    requires
        s.len() > 0,
        !is_space(s[0]),
    ensures
        crate::text::trim_end(s).len() > 0,
        crate::text::trim_end(s)[0] == s[0],
    decreases s.len(),
{
    if is_space(s.last()) {
        lemma_trim_end_keeps_first(s.drop_last());
    }
}

/// A line of blanks alone is skipped.
pub proof fn lemma_blank_skipped(line: Seq<char>, comment: char, family: Family)
    requires
        forall|j: int| 0 <= j < line.len() ==> is_space(line[j]),
    ensures
        parse_line_spec(line, comment, family) == Outcome::Skip,
{
    crate::text::lemma_trim_bounds(line, line.len() as int, line.len() as int);
}

/// Parses the line held in `lo..hi`.
pub fn read_line(chars: &Vec<char>, lo: usize, hi: usize, comment: char, family: Family) -> (r:
    Result<Option<Record<CountryCode>>, Fault>)
    requires
        lo <= hi <= chars.len(),
    ensures
        agrees(r, parse_line_spec(chars@.subrange(lo as int, hi as int), comment, family)),
{
    let ghost line = chars@.subrange(lo as int, hi as int);
    let (a, b) = trim_range(chars, lo, hi);
    if a == b {
        return Ok(None);
    }
    assert(trim(line)[0] == chars@[a as int]);
    if chars[a] == comment {
        return Ok(None);
    }
    let ranges = split_ranges(chars, a, b, ',');
    let ghost fields = split(trim(line), ',');
    assert(fields.len() == ranges.len());
    if ranges.len() != 3 {
        return Err(Fault::InvalidLine);
    }
    let (a0, b0) = ranges[0];
    let (a1, b1) = ranges[1];
    let (a2, b2) = ranges[2];
    proof {
        assert(fields[0] == chars@.subrange(a0 as int, b0 as int));
        assert(fields[1] == chars@.subrange(a1 as int, b1 as int));
        assert(fields[2] == chars@.subrange(a2 as int, b2 as int));
    }
    let (s0, e0) = trim_range(chars, a0, b0);
    let (s1, e1) = trim_range(chars, a1, b1);
    let (s2, e2) = trim_range(chars, a2, b2);
    let start = match read_address(chars, s0, e0, family) {
        Some(x) => x,
        None => {
            return Err(Fault::InvalidAddress);
        },
    };
    let end = match read_address(chars, s1, e1, family) {
        Some(x) => x,
        None => {
            return Err(Fault::InvalidAddress);
        },
    };
    let code = match read_code(chars, s2, e2) {
        Some(c) => c,
        None => {
            return Err(Fault::InvalidCode);
        },
    };
    match Record::new(start, end, code) {
        Some(record) => Ok(Some(record)),
        None => Err(Fault::InvertedRange),
    }
}

/// Parses one line of a database of `family` whose comments start with
/// `comment`: a record, nothing for a blank line or a comment, or the fault
/// that the line has.
pub fn parse_line(line: &str, comment: char, family: Family) -> (r: Result<
    Option<Record<CountryCode>>,
    Fault,
>)
    ensures
        agrees(r, parse_line_spec(line@, comment, family)),
{
    let chars = chars_of(line);
    proof {
        assert(chars@.subrange(0, chars.len() as int) =~= line@);
    }
    read_line(&chars, 0, chars.len(), comment, family)
}

} // verus!
