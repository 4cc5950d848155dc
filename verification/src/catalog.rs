//! The list of countries that a catalog is made from.
//!
//! A catalog maps country codes to display names and coordinates. Its raw
//! material is a listing with one country per line, the code, one space and
//! the name (`BE Belgium`), and the coordinates come from a knowledge base
//! that is asked about each country in turn. This module holds what is
//! decided on the way: how what the tool prints falls into lines, how a line
//! of the listing reads, which countries make the list, and how each is to
//! be looked up. Running the tool that prints the listing and asking the
//! knowledge base are the caller's business.

use vstd::prelude::*;
use vstd::string::*;
use crate::code::{read_code, CountryCode};
use crate::error::{Error, Fault};
use crate::sort::reversed;
use crate::text::{chars_of, find, pieces, position, split, split_ranges};

verus! {

/// A country code with the country's name.
#[derive(Clone, Debug, PartialEq, Eq)]
pub struct CountryPair {
    pub code: CountryCode,
    pub name: String,
}

/// The mathematical model of a [`CountryPair`].
pub struct Listing {
    pub code: CountryCode,
    pub name: Seq<char>,
}

impl View for CountryPair {
    type V = Listing;

    open spec fn view(&self) -> Listing {
        Listing { code: self.code, name: self.name@ }
    }
}

/// The models of a sequence of pairs, in the same order.
pub open spec fn listings(pairs: Seq<CountryPair>) -> Seq<Listing> {
    pairs.map_values(|p: CountryPair| p@)
}

/// The texts of a sequence of strings, in the same order.
pub open spec fn texts(lines: Seq<String>) -> Seq<Seq<char>> {
    lines.map_values(|s: String| s@)
}

/// How a country is to be looked up in the knowledge base.
#[derive(Clone, Debug, PartialEq, Eq)]
pub enum Lookup {
    /// Not at all: the code stands for no country.
    Unassigned,
    /// By the identifier that the table of exceptions gives for the code.
    ById(String),
    /// By the code itself.
    ByCode,
}

/// `s` without the carriage return at its end, if it ends in one.
pub open spec fn without_return(s: Seq<char>) -> Seq<char> {
    if s.len() > 0 && s.last() == '\r' {
        s.drop_last()
    } else {
        s
    }
}

/// The lines of `text`. A line ends at a line feed; the line feed, and one
/// carriage return before it, are no part of the line. What follows the last
/// line feed is a line if it is not empty, carriage return and all.
pub open spec fn lines_of(text: Seq<char>) -> Seq<Seq<char>> {
    let parts = split(text, '\n');
    let ended = parts.drop_last().map_values(|p: Seq<char>| without_return(p));
    if parts.last().len() == 0 {
        ended
    } else {
        ended.push(parts.last())
    }
}

/// What a line of the listing says: the code before the first space and the
/// name after it. A line without a space, or without a name, does not split;
/// a code that is none is malformed.
pub open spec fn country_line(line: Seq<char>) -> Result<Listing, Fault> {
    let p = position(line, ' ');
    if p + 1 >= line.len() {
        Err(Fault::InvalidLine)
    } else {
        match CountryCode::from_text(line.take(p)) {
            Some(code) => Ok(Listing { code, name: line.skip(p + 1) }),
            None => Err(Fault::InvalidCode),
        }
    }
}

/// The countries that `lines` list, in order. Empty lines and lines that do
/// not read as a country are passed over.
pub open spec fn listed(lines: Seq<Seq<char>>) -> Seq<Listing>
    decreases lines.len(),
{
    if lines.len() == 0 {
        Seq::empty()
    } else {
        match country_line(lines.last()) {
            Ok(l) => if lines.last().len() > 0 {
                listed(lines.drop_last()).push(l)
            } else {
                listed(lines.drop_last())
            },
            Err(_) => listed(lines.drop_last()),
        }
    }
}

/// The lines of `lines` that are not empty and do not read as a country, each
/// as the error that names its line and its fault.
pub open spec fn rejected(lines: Seq<Seq<char>>) -> Seq<Error>
    decreases lines.len(),
{
    if lines.len() == 0 {
        Seq::empty()
    } else {
        match country_line(lines.last()) {
            Ok(_) => rejected(lines.drop_last()),
            Err(f) => if lines.last().len() > 0 {
                rejected(lines.drop_last()).push(Error::located(f, lines.len() as usize))
            } else {
                rejected(lines.drop_last())
            },
        }
    }
}

/// `s` without the listings that repeat the code of the listing before them:
/// of each run of one code the first listing stays.
pub open spec fn deduped(s: Seq<Listing>) -> Seq<Listing>
    decreases s.len(),
{
    if s.len() == 0 {
        s
    } else if deduped(s.drop_last()).len() > 0 && deduped(s.drop_last()).last().code
        == s.last().code {
        deduped(s.drop_last())
    } else {
        deduped(s.drop_last()).push(s.last())
    }
}

/// Where `code` first stands in the table of exceptions; the length of the
/// table when it does not.
pub open spec fn exception_at(table: Seq<(CountryCode, String)>, code: CountryCode) -> int
    decreases table.len(),
{
    if table.len() == 0 || table[0].0 == code {
        0
    } else {
        1 + exception_at(table.drop_first(), code)
    }
}

/// `exception_at` is the one index at which `code` stands with no `code`
/// before it.
pub proof fn lemma_exception_at(table: Seq<(CountryCode, String)>, code: CountryCode, p: int)
    requires
        0 <= p <= table.len(),
        forall|j: int| 0 <= j < p ==> (#[trigger] table[j]).0 != code,
        p < table.len() ==> table[p].0 == code,
    ensures
        exception_at(table, code) == p,
    decreases table.len(),
{
    if table.len() == 0 || table[0].0 == code {
    } else {
        let t = table.drop_first();
        assert forall|j: int| 0 <= j < p - 1 implies (#[trigger] t[j]).0 != code by {
            assert(t[j] == table[j + 1]);
        }
        lemma_exception_at(t, code, p - 1);
    }
}

/// No two neighbours of a deduplicated list share a code.
pub proof fn lemma_deduped_neighbours(s: Seq<Listing>, i: int)
    requires
        0 <= i < deduped(s).len() - 1,
    ensures
        deduped(s)[i].code != deduped(s)[i + 1].code,
    decreases s.len(),
{
    if s.len() > 0 {
        let d = deduped(s.drop_last());
        if d.len() > 0 && d.last().code == s.last().code {
            lemma_deduped_neighbours(s.drop_last(), i);
        } else if i < d.len() - 1 {
            lemma_deduped_neighbours(s.drop_last(), i);
        }
    }
}

/// The lines of what a tool printed.
pub fn output_lines(text: &str) -> (lines: Vec<String>)
    ensures
        texts(lines@) == lines_of(text@),
{
    let chars = chars_of(text);
    let ranges = split_ranges(&chars, 0, chars.len(), '\n');
    let ghost parts = split(text@, '\n');
    let ghost ended = parts.drop_last().map_values(|p: Seq<char>| without_return(p));
    proof {
        assert(chars@.subrange(0, chars.len() as int) =~= text@);
        assert(parts.len() == ranges.len());
    }
    let last = ranges.len() - 1;
    let mut lines: Vec<String> = Vec::new();
    let mut i: usize = 0;
    while i < last
        invariant
            i <= last == ranges.len() - 1,
            chars@ == text@,
            parts == pieces(chars@, ranges@),
            crate::text::ranges_within(ranges@, 0, chars.len() as int),
            ended == parts.drop_last().map_values(|p: Seq<char>| without_return(p)),
            texts(lines@) == ended.take(i as int),
        decreases last - i,
    {
        let (a, b) = ranges[i];
        let end = if b > a && chars[b - 1] == '\r' {
            b - 1
        } else {
            b
        };
        let line = text.substring_char(a, end).to_owned();
        proof {
            let part = chars@.subrange(a as int, b as int);
            assert(parts[i as int] == part);
            assert(parts.drop_last()[i as int] == part);
            if b > a {
                assert(part.last() == chars@[b - 1]);
            }
            assert(without_return(part) =~= chars@.subrange(a as int, end as int));
            assert(line@ == ended[i as int]);
            assert(texts(lines@.push(line)) =~= texts(lines@).push(line@));
            assert(ended.take(i + 1) =~= ended.take(i as int).push(ended[i as int]));
        }
        lines.push(line);
        i += 1;
    }
    proof {
        assert(ended.take(last as int) =~= ended);
    }
    let (a, b) = ranges[last];
    assert(parts.last() == chars@.subrange(a as int, b as int));
    if b > a {
        let line = text.substring_char(a, b).to_owned();
        proof {
            assert(texts(lines@.push(line)) =~= texts(lines@).push(line@));
        }
        lines.push(line);
    }
    lines
}

/// The version that the listing tool reports: the first line of what it
/// prints.
pub fn get_location_version(lines: &Vec<String>) -> (r: Result<String, Error>)
    ensures
        lines.len() == 0 ==> r == Err::<String, Error>(Error::OutOfBounds),
        lines.len() > 0 ==> (r matches Ok(version) && version@ == lines[0]@),
{
    if lines.len() == 0 {
        Err(Error::OutOfBounds)
    } else {
        Ok(lines[0].clone())
    }
}

/// Reads one line of the listing.
pub fn parse_country_line(line: &str) -> (r: Result<CountryPair, Fault>)
    ensures
        match country_line(line@) {
            Ok(l) => r matches Ok(pair) && pair@ == l,
            Err(f) => r == Err::<CountryPair, Fault>(f),
        },
{
    let chars = chars_of(line);
    let n = chars.len();
    proof {
        assert(chars@.subrange(0, n as int) =~= line@);
    }
    let p = find(&chars, 0, n, ' ');
    if n - p <= 1 {
        return Err(Fault::InvalidLine);
    }
    proof {
        assert(chars@.subrange(0, p as int) =~= line@.take(p as int));
        assert(line@.subrange(p + 1, n as int) =~= line@.skip(p + 1));
    }
    match read_code(&chars, 0, p) {
        Some(code) => {
            let name = line.substring_char(p + 1, n).to_owned();
            Ok(CountryPair { code, name })
        },
        None => Err(Fault::InvalidCode),
    }
}

/// Removes the pairs that repeat the code of the pair before them.
pub fn dedup_by_code(pairs: Vec<CountryPair>) -> (out: Vec<CountryPair>)
    ensures
        listings(out@) == deduped(listings(pairs@)),
{
    let ghost all = listings(pairs@);
    let ghost given = pairs@;
    let mut rest = reversed(pairs);
    let mut out: Vec<CountryPair> = Vec::new();
    proof {
        assert(all.take(0) =~= Seq::<Listing>::empty());
        assert(listings(out@) =~= Seq::<Listing>::empty());
    }
    while rest.len() > 0
        invariant
            all == listings(given),
            rest.len() <= given.len(),
            forall|i: int| 0 <= i < rest.len() ==> rest[i] == given[given.len() - 1 - i],
            listings(out@) == deduped(all.take(given.len() - rest.len())),
        decreases rest.len(),
    {
        let ghost done = given.len() - rest.len();
        let pair = rest.pop().unwrap();
        proof {
            let front = all.take(done + 1);
            assert(front.drop_last() =~= all.take(done));
            assert(front.last() == pair@);
            if out.len() > 0 {
                assert(listings(out@).last() == out@.last()@);
            }
        }
        let repeats = out.len() > 0 && out[out.len() - 1].code == pair.code;
        if !repeats {
            proof {
                assert(listings(out@.push(pair)) =~= listings(out@).push(pair@));
            }
            out.push(pair);
        }
    }
    proof {
        assert(all.take(given.len() as int) =~= all);
    }
    out
}

/// The list of countries: those that `lines` list, then `additional`, without
/// repeats of a code in a row. Beside it, the lines that were passed over
/// because they do not read as a country.
pub fn get_country_list(lines: &Vec<String>, additional: Vec<CountryPair>) -> (r: (
    Vec<CountryPair>,
    Vec<Error>,
))
    ensures
        listings(r.0@) == deduped(listed(texts(lines@)) + listings(additional@)),
        r.1@ == rejected(texts(lines@)),
{
    let ghost all = texts(lines@);
    let mut pairs: Vec<CountryPair> = Vec::new();
    let mut faults: Vec<Error> = Vec::new();
    let mut i: usize = 0;
    proof {
        assert(all.take(0) =~= Seq::<Seq<char>>::empty());
        assert(listings(pairs@) =~= Seq::<Listing>::empty());
    }
    while i < lines.len()
        invariant
            i <= lines.len(),
            all == texts(lines@),
            listings(pairs@) == listed(all.take(i as int)),
            faults@ == rejected(all.take(i as int)),
        decreases lines.len() - i,
    {
        proof {
            let front = all.take(i + 1);
            assert(front.drop_last() =~= all.take(i as int));
            assert(front.last() == lines[i as int]@);
        }
        let line = lines[i].as_str();
        match parse_country_line(line) {
            Ok(pair) => {
                if line.unicode_len() > 0 {
                    proof {
                        assert(listings(pairs@.push(pair)) =~= listings(pairs@).push(pair@));
                    }
                    pairs.push(pair);
                }
            },
            Err(fault) => {
                if line.unicode_len() > 0 {
                    faults.push(Error::at_line(fault, i + 1));
                }
            },
        }
        i += 1;
    }
    proof {
        assert(all.take(i as int) =~= all);
    }
    let mut additional = additional;
    let ghost before = pairs@;
    let ghost extra = additional@;
    pairs.append(&mut additional);
    proof {
        assert(listings(before + extra) =~= listings(before) + listings(extra));
    }
    (dedup_by_code(pairs), faults)
}

/// How the country with `code` is to be looked up: not at all for the code of
/// the unassigned, by the identifier of the first entry of `exceptions` that
/// names the code, and by the code itself if there is no such entry.
pub fn plan_lookup(code: CountryCode, exceptions: &Vec<(CountryCode, String)>) -> (r: Lookup)
    ensures
        code == CountryCode::unassigned() ==> r == Lookup::Unassigned,
        code != CountryCode::unassigned() && exception_at(exceptions@, code) < exceptions.len()
            ==> (r matches Lookup::ById(id) && id@ == exceptions[exception_at(
            exceptions@,
            code,
        )].1@),
        code != CountryCode::unassigned() && exception_at(exceptions@, code) >= exceptions.len()
            ==> r == Lookup::ByCode,
{
    if code.is_unknown() {
        return Lookup::Unassigned;
    }
    let mut i: usize = 0;
    while i < exceptions.len()
        invariant
            i <= exceptions.len(),
            code != CountryCode::unassigned(),
            forall|j: int| 0 <= j < i ==> (#[trigger] exceptions[j]).0 != code,
        decreases exceptions.len() - i,
    {
        if exceptions[i].0 == code {
            proof {
                lemma_exception_at(exceptions@, code, i as int);
            }
            return Lookup::ById(exceptions[i].1.clone());
        }
        i += 1;
    }
    proof {
        lemma_exception_at(exceptions@, code, i as int);
    }
    Lookup::ByCode
}

} // verus!
