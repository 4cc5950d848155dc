//! Building an index from the lines of a database.
//!
//! A `Builder` takes the lines one by one, so that a caller can stream a file
//! through it, and is finished into a `RangeIndex` and a `BuildReport`.
//! `build` does all of that for a text held in memory.
//!
//! By default a build is tolerant: a line that fails to parse is counted and
//! skipped, and of two records that share an address the one that sorts
//! earlier is kept and the other is counted and dropped. A strict build
//! fails on the first such line, and else on the first such pair.

use vstd::prelude::*;
use crate::address::Family;
use crate::code::CountryCode;
use crate::error::Error;
use crate::index::{ordered, settle, RangeIndex};
use crate::line::{parse_line_spec, read_line, Outcome};
use crate::record::{entries, Entry, Record};
use crate::report::{BuildReport, Summary};
use crate::sort::lemma_entries_push;
use crate::text::{chars_of, pieces, split, split_ranges};

verus! {

/// Storage is set up in advance for at most this many records, whatever the
/// capacity hint says. The number of records that a build takes is not
/// limited by it.
pub const PRESIZE_LIMIT: usize = 1_048_576;

/// How a database is to be read.
#[derive(Clone, Copy, Debug, PartialEq, Eq)]
pub struct BuildOptions {
    /// The address family of the database.
    pub family: Family,
    /// The character that starts a comment line.
    pub comment: char,
    /// Whether the first malformed line or overlap fails the build.
    pub strict: bool,
    /// The number of records expected; used to set up storage, never to
    /// limit the input.
    pub capacity_hint: usize,
    /// How many issues the report keeps as examples.
    pub sample_limit: usize,
}

impl BuildOptions {
    /// A tolerant build of a database of `family` with `#` as the comment
    /// marker, no capacity hint, and up to sixteen samples in the report.
    pub fn new(family: Family) -> (options: BuildOptions)
        ensures
            options == (BuildOptions {
                family,
                comment: '#',
                strict: false,
                capacity_hint: 0,
                sample_limit: 16,
            }),
    {
        BuildOptions { family, comment: '#', strict: false, capacity_hint: 0, sample_limit: 16 }
    }
}

/// The mathematical model of a [`Builder`]: the entries read so far, the
/// summary of what was set aside, and the number of lines taken.
pub struct Progress {
    pub entries: Seq<Entry<CountryCode>>,
    pub summary: Summary,
    pub lines: nat,
}

impl Progress {
    /// Before the first line.
    pub open spec fn start() -> Progress {
        Progress { entries: Seq::empty(), summary: Summary::empty(), lines: 0 }
    }
}

/// The progress after `line` is taken, or the error that taking it gives.
///
/// A builder takes fewer than `usize::MAX` lines; the line after that is
/// refused with `OutOfBounds`. A skipped line only counts as a line. A record
/// joins the entries. A fault is the error in a strict build and is noted in
/// the summary in a tolerant one. A line that is refused or fails a strict
/// build is not counted.
pub open spec fn advance(p: Progress, line: Seq<char>, options: BuildOptions) -> Result<
    Progress,
    Error,
> {
    if p.lines >= usize::MAX {
        Err(Error::OutOfBounds)
    } else {
        let number = (p.lines + 1) as usize;
        match parse_line_spec(line, options.comment, options.family) {
            Outcome::Skip => Ok(Progress { lines: p.lines + 1, ..p }),
            Outcome::Entry(e) => Ok(Progress { entries: p.entries.push(e), lines: p.lines + 1, ..p }),
            Outcome::Fault(f) => if options.strict {
                Err(Error::located(f, number))
            } else {
                Ok(
                    Progress {
                        summary: p.summary.noted(
                            Error::located(f, number),
                            options.sample_limit as nat,
                        ),
                        lines: p.lines + 1,
                        ..p
                    },
                )
            },
        }
    }
}

/// The progress after all of `lines` are taken in order, or the first error.
pub open spec fn advance_all(p: Progress, lines: Seq<Seq<char>>, options: BuildOptions) -> Result<
    Progress,
    Error,
>
    decreases lines.len(),
{
    if lines.len() == 0 {
        Ok(p)
    } else {
        match advance_all(p, lines.drop_last(), options) {
            Ok(q) => advance(q, lines.last(), options),
            Err(e) => Err(e),
        }
    }
}

/// What finishing comes to: the entries of the index and the final summary,
/// or the first overlap in a strict build.
pub open spec fn finished(p: Progress, options: BuildOptions) -> Result<
    (Seq<Entry<CountryCode>>, Summary),
    Error,
> {
    match settle(p.entries, options.strict) {
        Ok((kept, met)) => Ok((kept, p.summary.noted_conflicts(met, options.sample_limit as nat))),
        Err(e) => Err(e),
    }
}

/// What building from `lines` comes to.
pub open spec fn build_spec(lines: Seq<Seq<char>>, options: BuildOptions) -> Result<
    (Seq<Entry<CountryCode>>, Summary),
    Error,
> {
    match advance_all(Progress::start(), lines, options) {
        Ok(p) => finished(p, options),
        Err(e) => Err(e),
    }
}

/// Whether the result `r` of a build says what `outcome` says.
pub open spec fn delivers(
    r: Result<(RangeIndex<CountryCode>, BuildReport), Error>,
    outcome: Result<(Seq<Entry<CountryCode>>, Summary), Error>,
) -> bool {
    match outcome {
        Ok((entries, summary)) => r matches Ok((index, report)) && index@ == entries && report@
            == summary,
        Err(e) => r matches Err(x) && x == e,
    }
}

/// An error met on a front part of the lines is the error of the whole.
pub proof fn lemma_error_stays(p: Progress, lines: Seq<Seq<char>>, options: BuildOptions, n: int)
    requires
        0 <= n <= lines.len(),
        advance_all(p, lines.take(n), options) is Err,
    ensures
        advance_all(p, lines, options) == advance_all(p, lines.take(n), options),
    decreases lines.len(),
{
    if n == lines.len() {
        assert(lines.take(n) =~= lines);
    } else {
        assert(lines.drop_last().take(n) =~= lines.take(n));
        lemma_error_stays(p, lines.drop_last(), options, n);
    }
}

/// Takes the lines of a database one by one and makes the index of them.
#[derive(Debug)]
pub struct Builder {
    options: BuildOptions,
    records: Vec<Record<CountryCode>>,
    report: BuildReport,
    lines: usize,
}

impl View for Builder {
    type V = Progress;

    closed spec fn view(&self) -> Progress {
        Progress {
            entries: entries(self.records@),
            summary: self.report@,
            lines: self.lines as nat,
        }
    }
}

impl Builder {
    #[verifier::type_invariant]
    closed spec fn inv(&self) -> bool {
        &&& self.records.len() + self.report@.failures() <= self.lines
        &&& self.report.overlaps == 0
    }

    /// The options that the builder was made with.
    pub closed spec fn options_spec(&self) -> BuildOptions {
        self.options
    }

    /// A builder that has taken no line yet.
    pub fn new(options: BuildOptions) -> (builder: Builder)
        ensures
            builder@ == Progress::start(),
            builder.options_spec() == options,
    {
        let room = if options.capacity_hint < PRESIZE_LIMIT {
            options.capacity_hint
        } else {
            PRESIZE_LIMIT
        };
        let records: Vec<Record<CountryCode>> = Vec::with_capacity(room);
        proof {
            assert(entries(records@) =~= Seq::<Entry<CountryCode>>::empty());
        }
        Builder { options, records, report: BuildReport::new(), lines: 0 }
    }

    /// The options that the builder was made with.
    pub fn options(&self) -> (options: BuildOptions)
        ensures
            options == self.options_spec(),
    {
        self.options
    }

    /// The number of lines taken so far.
    pub fn lines(&self) -> (n: usize)
        ensures
            n == self@.lines,
    {
        self.lines
    }

    /// The number of records read so far.
    pub fn records(&self) -> (n: usize)
        ensures
            n == self@.entries.len(),
    {
        self.records.len()
    }

    /// Takes the line held in `lo..hi` of `chars`.
    pub fn feed_range(&mut self, chars: &Vec<char>, lo: usize, hi: usize) -> (r: Result<(), Error>)
        requires
            lo <= hi <= chars.len(),
        ensures
            final(self).options_spec() == old(self).options_spec(),
            match advance(
                old(self)@,
                chars@.subrange(lo as int, hi as int),
                old(self).options_spec(),
            ) {
                Ok(next) => r is Ok && final(self)@ == next,
                Err(e) => r == Err::<(), Error>(e) && final(self)@ == old(self)@,
            },
    {
        proof {
            use_type_invariant(&*self);
        }
        if self.lines == usize::MAX {
            return Err(Error::OutOfBounds);
        }
        let number = self.lines + 1;
        match read_line(chars, lo, hi, self.options.comment, self.options.family) {
            Ok(None) => {
                self.lines = number;
                Ok(())
            },
            Ok(Some(record)) => {
                self.lines = number;
                let mut records: Vec<Record<CountryCode>> = Vec::new();
                core::mem::swap(&mut records, &mut self.records);
                proof {
                    lemma_entries_push(records@, record);
                }
                records.push(record);
                self.records = records;
                Ok(())
            },
            Err(fault) => {
                let e = Error::at_line(fault, number);
                if self.options.strict {
                    return Err(e);
                }
                self.lines = number;
                let mut report = BuildReport::new();
                core::mem::swap(&mut report, &mut self.report);
                report.note(e, self.options.sample_limit);
                self.report = report;
                Ok(())
            },
        }
    }

    /// Takes one line of the database.
    ///
    /// In a tolerant build a malformed line is noted and the call succeeds.
    /// In a strict build it is the error, and the builder stays as it was.
    pub fn feed(&mut self, line: &str) -> (r: Result<(), Error>)
        ensures
            final(self).options_spec() == old(self).options_spec(),
            match advance(old(self)@, line@, old(self).options_spec()) {
                Ok(next) => r is Ok && final(self)@ == next,
                Err(e) => r == Err::<(), Error>(e) && final(self)@ == old(self)@,
            },
    {
        let chars = chars_of(line);
        proof {
            assert(chars@.subrange(0, chars.len() as int) =~= line@);
        }
        self.feed_range(&chars, 0, chars.len())
    }

    /// Sorts the records read, settles overlaps and gives the index with the
    /// report.
    pub fn finish(self) -> (r: Result<(RangeIndex<CountryCode>, BuildReport), Error>)
        ensures
            delivers(r, finished(self@, self.options_spec())),
            r matches Ok((index, _)) ==> ordered(index@),
    {
        proof {
            use_type_invariant(&self);
        }
        let limit = self.options.sample_limit;
        let mut report = self.report;
        let ghost base = report@;
        match RangeIndex::from_records(self.records, self.options.strict) {
            Ok((index, dropped)) => {
                let mut i: usize = 0;
                while i < dropped.len()
                    invariant
                        i <= dropped.len(),
                        report.overlaps == i,
                        report@ == base.noted_conflicts(dropped@.take(i as int), limit as nat),
                    decreases dropped.len() - i,
                {
                    let conflict = dropped[i];
                    proof {
                        let front = dropped@.take(i + 1);
                        assert(front.drop_last() =~= dropped@.take(i as int));
                        assert(front.last() == conflict);
                    }
                    report.note(
                        Error::OverlapDetected { first: conflict.first, second: conflict.second },
                        limit,
                    );
                    i += 1;
                }
                proof {
                    assert(dropped@.take(i as int) =~= dropped@);
                }
                Ok((index, report))
            },
            Err(e) => Err(e),
        }
    }
}

/// Builds the index of a database held in memory, one line of `text` after
/// the other. Lines end at `\n`; a `\r` before it counts as a blank.
pub fn build(text: &str, options: BuildOptions) -> (r: Result<
    (RangeIndex<CountryCode>, BuildReport),
    Error,
>)
    ensures
        delivers(r, build_spec(split(text@, '\n'), options)),
        r matches Ok((index, _)) ==> ordered(index@),
{
    let chars = chars_of(text);
    let ranges = split_ranges(&chars, 0, chars.len(), '\n');
    let ghost lines = split(text@, '\n');
    proof {
        assert(chars@.subrange(0, chars.len() as int) =~= text@);
        assert(lines == pieces(chars@, ranges@));
    }
    let mut builder = Builder::new(options);
    let mut i: usize = 0;
    proof {
        assert(lines.take(0) =~= Seq::<Seq<char>>::empty());
    }
    while i < ranges.len()
        invariant
            i <= ranges.len(),
            lines == split(text@, '\n'),
            lines == pieces(chars@, ranges@),
            crate::text::ranges_within(ranges@, 0, chars.len() as int),
            builder.options_spec() == options,
            advance_all(Progress::start(), lines.take(i as int), options) == Ok::<Progress, Error>(
                builder@,
            ),
        decreases ranges.len() - i,
    {
        let (lo, hi) = ranges[i];
        proof {
            let front = lines.take(i + 1);
            assert(front.drop_last() =~= lines.take(i as int));
            assert(front.last() == chars@.subrange(lo as int, hi as int));
        }
        match builder.feed_range(&chars, lo, hi) {
            Ok(()) => {},
            Err(e) => {
                proof {
                    assert(advance_all(Progress::start(), lines.take(i + 1), options) == Err::<
                        Progress,
                        Error,
                    >(e));
                    lemma_error_stays(Progress::start(), lines, options, i + 1);
                }
                return Err(e);
            },
        }
        i += 1;
    }
    proof {
        assert(lines.take(i as int) =~= lines);
    }
    builder.finish()
}

} // verus!
