//! What holds of every build.
//!
//! The contracts of `build`, `Builder` and `RangeIndex` say what each call
//! returns. The lemmas here draw the consequences that a user of the crate
//! relies on: an index that was built is ordered; a tolerant build loses no
//! valid line; a strict build fails at the first malformed line, whatever
//! follows it; a comment changes nothing.

use vstd::prelude::*;
use crate::builder::{advance, advance_all, build_spec, finished, BuildOptions, Progress};
use crate::code::CountryCode;
use crate::error::Error;
use crate::index::{conflicts, kept, lemma_kept_all, lemma_kept_ordered, ordered};
use crate::line::{lemma_comment_skipped, lemma_entry_valid, parse_line_spec, Outcome};
use crate::record::{Entry, Span};
use crate::report::lemma_noted_conflicts;
use crate::sort::{
    insert, lemma_insert_keeps, lemma_insert_permutes, lemma_sorted_ascending,
    lemma_sorted_keeps, lemma_sorted_permutes, sorted,
};
use crate::text::is_space;

verus! {

/// The records written on `lines`, in the order of the lines.
pub open spec fn entries_of(lines: Seq<Seq<char>>, options: BuildOptions) -> Seq<
    Entry<CountryCode>,
>
    decreases lines.len(),
{
    if lines.len() == 0 {
        Seq::empty()
    } else {
        match parse_line_spec(lines.last(), options.comment, options.family) {
            Outcome::Entry(e) => entries_of(lines.drop_last(), options).push(e),
            _ => entries_of(lines.drop_last(), options),
        }
    }
}

/// The number of malformed lines among `lines`.
pub open spec fn faults_in(lines: Seq<Seq<char>>, options: BuildOptions) -> nat
    decreases lines.len(),
{
    if lines.len() == 0 {
        0
    } else {
        match parse_line_spec(lines.last(), options.comment, options.family) {
            Outcome::Fault(_) => faults_in(lines.drop_last(), options) + 1,
            _ => faults_in(lines.drop_last(), options),
        }
    }
}

/// Whether two spans share no address.
pub open spec fn apart(a: Span, b: Span) -> bool {
    a.before(b) || b.before(a)
}

/// Whether no two entries of `s` share an address.
pub open spec fn all_apart<V>(s: Seq<Entry<V>>) -> bool {
    forall|i: int, j: int| 0 <= i < j < s.len() ==> apart(s[i].span, s[j].span)
}

/// Whether every span of `s` is well formed.
pub open spec fn all_wf<V>(s: Seq<Entry<V>>) -> bool {
    forall|i: int| 0 <= i < s.len() ==> (#[trigger] s[i]).span.wf()
}

/// Every record written on a line has a well-formed span.
pub proof fn lemma_entries_of_wf(lines: Seq<Seq<char>>, options: BuildOptions)
    ensures
        all_wf(entries_of(lines, options)),
    decreases lines.len(),
{
    if lines.len() > 0 {
        lemma_entries_of_wf(lines.drop_last(), options);
        lemma_entry_valid(lines.last(), options.comment, options.family);
        let rest = entries_of(lines.drop_last(), options);
        match parse_line_spec(lines.last(), options.comment, options.family) {
            Outcome::Entry(e) => {
                let grown = rest.push(e);
                assert forall|i: int| 0 <= i < grown.len() implies (#[trigger] grown[i]).span.wf() by {
                    if i < rest.len() {
                        assert(grown[i] == rest[i]);
                    }
                }
            },
            _ => {},
        }
    }
}

/// A tolerant build takes every line: when all of `lines` are taken, the
/// entries are the records written on them, each malformed line is counted
/// once, and no overlap has been looked for yet.
pub proof fn lemma_tolerant_progress(lines: Seq<Seq<char>>, options: BuildOptions)
    requires
        !options.strict,
        lines.len() <= usize::MAX,
    ensures
        advance_all(Progress::start(), lines, options) matches Ok(p) && p.entries == entries_of(
            lines,
            options,
        ) && p.summary.failures() == faults_in(lines, options) && p.summary.overlaps == 0
            && p.lines == lines.len(),
    decreases lines.len(),
{
    if lines.len() > 0 {
        lemma_tolerant_progress(lines.drop_last(), options);
    }
}

/// A strict build takes every line up to the first malformed one: when
/// `lines` hold no malformed line, the entries are the records written on
/// them and nothing has been set aside.
pub proof fn lemma_strict_progress(lines: Seq<Seq<char>>, options: BuildOptions)
    requires
        options.strict,
        lines.len() <= usize::MAX,
        faults_in(lines, options) == 0,
    ensures
        advance_all(Progress::start(), lines, options) matches Ok(p) && p.entries == entries_of(
            lines,
            options,
        ) && p.summary == crate::report::Summary::empty() && p.lines == lines.len(),
    decreases lines.len(),
{
    if lines.len() > 0 {
        lemma_strict_progress(lines.drop_last(), options);
    }
}

/// Whatever the mode, a build that has taken all of `lines` has read the
/// records written on them, in their order.
pub proof fn lemma_progress_entries(lines: Seq<Seq<char>>, options: BuildOptions)
    ensures
        advance_all(Progress::start(), lines, options) matches Ok(p) ==> p.entries == entries_of(
            lines,
            options,
        ) && p.lines == lines.len(),
    decreases lines.len(),
{
    if lines.len() > 0 {
        lemma_progress_entries(lines.drop_last(), options);
    }
}

/// Every record of an index that was built is written on one of the lines:
/// a build makes up no record.
pub proof fn lemma_built_from_lines(lines: Seq<Seq<char>>, options: BuildOptions)
    ensures
        build_spec(lines, options) matches Ok((entries, _)) ==> forall|i: int|
            0 <= i < entries.len() ==> entries_of(lines, options).contains(#[trigger] entries[i]),
{
    if let Ok((entries, _)) = build_spec(lines, options) {
        lemma_progress_entries(lines, options);
        lemma_entries_of_wf(lines, options);
        let given = entries_of(lines, options);
        let written = |e: Entry<CountryCode>| given.contains(e);
        assert forall|i: int| 0 <= i < given.len() implies written(#[trigger] given[i]) by {
            assert(given.contains(given[i]));
        }
        lemma_sorted_keeps(given, written);
        lemma_sorted_keeps(given, |e: Entry<CountryCode>| e.span.wf());
        lemma_kept_ordered(sorted(given));
        assert forall|i: int| 0 <= i < entries.len() implies given.contains(
            #[trigger] entries[i],
        ) by {
            let e = entries[i];
            assert(sorted(given).contains(e));
            let j = choose|j: int| 0 <= j < sorted(given).len() && sorted(given)[j] == e;
            assert(written(sorted(given)[j]));
        }
    }
}

/// Every index that a build gives is ordered: each span is well formed, and
/// each lies wholly below every later one.
pub proof fn lemma_built_ordered(lines: Seq<Seq<char>>, options: BuildOptions)
    ensures
        build_spec(lines, options) matches Ok((entries, _)) ==> ordered(entries),
{
    if let Ok(p) = advance_all(Progress::start(), lines, options) {
        lemma_progress_wf(Progress::start(), lines, options);
        lemma_sorted_keeps(p.entries, |e: Entry<CountryCode>| e.span.wf());
        lemma_kept_ordered(sorted(p.entries));
    }
}

/// Taking lines keeps the spans of the entries well formed.
pub proof fn lemma_progress_wf(p: Progress, lines: Seq<Seq<char>>, options: BuildOptions)
    requires
        all_wf(p.entries),
    ensures
        advance_all(p, lines, options) matches Ok(q) ==> all_wf(q.entries),
    decreases lines.len(),
{
    if lines.len() > 0 {
        lemma_progress_wf(p, lines.drop_last(), options);
        if let Ok(q) = advance_all(p, lines.drop_last(), options) {
            if let Ok(r) = advance(q, lines.last(), options) {
                assert forall|i: int| 0 <= i < r.entries.len() implies (
                #[trigger] r.entries[i]).span.wf() by {
                    if i < q.entries.len() {
                        assert(r.entries[i] == q.entries[i]);
                    }
                }
            }
        }
    }
}

/// A tolerant build of fewer than `usize::MAX` lines succeeds. Every valid
/// line is accounted for, as a record of the index or as an overlap in the
/// report, and the report counts exactly the malformed lines as failures.
pub proof fn lemma_tolerant_build(lines: Seq<Seq<char>>, options: BuildOptions)
    requires
        !options.strict,
        lines.len() <= usize::MAX,
    ensures
        build_spec(lines, options) matches Ok((entries, summary)) && entries.len()
            + summary.overlaps == entries_of(lines, options).len() && summary.failures()
            == faults_in(lines, options) && ordered(entries),
{
    lemma_tolerant_progress(lines, options);
    let p = advance_all(Progress::start(), lines, options)->Ok_0;
    let all = sorted(p.entries);
    lemma_entries_of_wf(lines, options);
    lemma_sorted_keeps(p.entries, |e: Entry<CountryCode>| e.span.wf());
    lemma_sorted_permutes(p.entries);
    lemma_kept_ordered(all);
    lemma_noted_conflicts(p.summary, conflicts(all), options.sample_limit as nat);
}

/// Where no two valid lines share an address, a tolerant build keeps a record
/// for each valid line and reports no overlap: `N` valid lines among `M`
/// malformed ones give an index of exactly `N` records and a report of
/// exactly `M` failures.
pub proof fn lemma_tolerant_build_keeps_all(lines: Seq<Seq<char>>, options: BuildOptions)
    requires
        !options.strict,
        lines.len() <= usize::MAX,
        all_apart(entries_of(lines, options)),
    ensures
        build_spec(lines, options) matches Ok((entries, summary)) && entries == sorted(
            entries_of(lines, options),
        ) && entries.len() == entries_of(lines, options).len() && summary.overlaps == 0
            && summary.failures() == faults_in(lines, options),
{
    lemma_tolerant_build(lines, options);
    lemma_tolerant_progress(lines, options);
    let given = entries_of(lines, options);
    lemma_entries_of_wf(lines, options);
    lemma_apart_sorted_ordered(given);
    lemma_kept_all(sorted(given));
    lemma_sorted_permutes(given);
}

/// Entries that share no address, once sorted, are ordered as an index asks.
pub proof fn lemma_apart_sorted_ordered<V>(s: Seq<Entry<V>>)
    requires
        all_wf(s),
        all_apart(s),
    ensures
        ordered(sorted(s)),
{
    lemma_sorted_apart(s);
    lemma_sorted_ascending(s);
    lemma_sorted_keeps(s, |e: Entry<V>| e.span.wf());
    let t = sorted(s);
    assert forall|i: int, j: int| 0 <= i < j < t.len() implies t[i].span.before(t[j].span) by {
        assert(apart(t[i].span, t[j].span));
        assert(t[i].span.start <= t[j].span.start);
        assert(t[j].span.wf());
    }
}

/// Sorting entries that share no address gives entries that share none.
pub proof fn lemma_sorted_apart<V>(s: Seq<Entry<V>>)
    requires
        all_apart(s),
    ensures
        all_apart(sorted(s)),
    decreases s.len(),
{
    if s.len() > 0 {
        let t = s.drop_last();
        let e = s.last();
        assert(all_apart(t)) by {
            assert forall|i: int, j: int| 0 <= i < j < t.len() implies apart(
                t[i].span,
                t[j].span,
            ) by {
                assert(t[i] == s[i] && t[j] == s[j]);
            }
        }
        lemma_sorted_apart(t);
        let clear = |x: Entry<V>| apart(x.span, e.span);
        assert forall|i: int| 0 <= i < t.len() implies clear(#[trigger] t[i]) by {
            assert(t[i] == s[i]);
            assert(apart(s[i].span, s[s.len() - 1].span));
        }
        lemma_sorted_keeps(t, clear);
        lemma_insert_apart(sorted(t), e);
    }
}

/// Inserting an entry that shares no address with any entry of `s` keeps the
/// entries apart.
pub proof fn lemma_insert_apart<V>(s: Seq<Entry<V>>, e: Entry<V>)
    requires
        all_apart(s),
        forall|i: int| 0 <= i < s.len() ==> apart((#[trigger] s[i]).span, e.span),
    ensures
        all_apart(insert(s, e)),
    decreases s.len(),
{
    if s.len() > 0 && s.last().span.start > e.span.start {
        let t = s.drop_last();
        let last = s.last();
        assert(all_apart(t)) by {
            assert forall|i: int, j: int| 0 <= i < j < t.len() implies apart(
                t[i].span,
                t[j].span,
            ) by {
                assert(t[i] == s[i] && t[j] == s[j]);
            }
        }
        assert forall|i: int| 0 <= i < t.len() implies apart((#[trigger] t[i]).span, e.span) by {
            assert(t[i] == s[i]);
        }
        lemma_insert_apart(t, e);
        let clear = |x: Entry<V>| apart(x.span, last.span);
        assert forall|i: int| 0 <= i < t.len() implies clear(#[trigger] t[i]) by {
            assert(t[i] == s[i]);
            assert(apart(s[i].span, s[s.len() - 1].span));
        }
        assert(clear(e)) by {
            assert(apart(s[s.len() - 1].span, e.span));
        }
        lemma_insert_keeps(t, e, clear);
        lemma_insert_permutes(t, e);
        let r = insert(t, e).push(last);
        assert forall|i: int, j: int| 0 <= i < j < r.len() implies apart(r[i].span, r[j].span) by {
            if j < r.len() - 1 {
                assert(r[i] == insert(t, e)[i] && r[j] == insert(t, e)[j]);
            } else {
                assert(clear(insert(t, e)[i]));
            }
        }
    } else {
        let r = s.push(e);
        assert forall|i: int, j: int| 0 <= i < j < r.len() implies apart(r[i].span, r[j].span) by {
            if j < s.len() {
                assert(r[i] == s[i] && r[j] == s[j]);
            } else {
                assert(r[i] == s[i]);
            }
        }
    }
}

/// A strict build fails on the first malformed line, with the fault and the
/// number of that line, whatever the lines after it hold.
pub proof fn lemma_strict_build_stops(lines: Seq<Seq<char>>, options: BuildOptions, at: int)
    requires
        options.strict,
        0 <= at < lines.len(),
        at < usize::MAX,
        faults_in(lines.take(at), options) == 0,
        parse_line_spec(lines[at], options.comment, options.family) is Fault,
    ensures
        build_spec(lines, options) == Err::<(Seq<Entry<CountryCode>>, crate::report::Summary), Error>(
            Error::located(
                parse_line_spec(lines[at], options.comment, options.family)->Fault_0,
                (at + 1) as usize,
            ),
        ),
{
    let front = lines.take(at + 1);
    assert(front.drop_last() =~= lines.take(at));
    assert(front.last() == lines[at]);
    lemma_strict_progress(lines.take(at), options);
    crate::builder::lemma_error_stays(Progress::start(), lines, options, at + 1);
}

/// A strict build that meets no malformed line fails on the first overlap of
/// the sorted records, and succeeds with every record when there is none.
pub proof fn lemma_strict_build_settles(lines: Seq<Seq<char>>, options: BuildOptions)
    requires
        options.strict,
        lines.len() <= usize::MAX,
        faults_in(lines, options) == 0,
    ensures
        build_spec(lines, options) == finished(
            Progress {
                entries: entries_of(lines, options),
                summary: crate::report::Summary::empty(),
                lines: lines.len(),
            },
            options,
        ),
        conflicts(sorted(entries_of(lines, options))).len() > 0 ==> build_spec(lines, options)
            matches Err(Error::OverlapDetected { .. }),
        conflicts(sorted(entries_of(lines, options))).len() == 0 ==> (build_spec(lines, options)
            matches Ok((entries, summary)) && entries == sorted(entries_of(lines, options))
            && summary == crate::report::Summary::empty()),
{
    lemma_strict_progress(lines, options);
    let given = entries_of(lines, options);
    if conflicts(sorted(given)).len() == 0 {
        lemma_entries_of_wf(lines, options);
        lemma_sorted_keeps(given, |e: Entry<CountryCode>| e.span.wf());
        lemma_kept_ordered(sorted(given));
        lemma_sorted_permutes(given);
        lemma_kept_whole(sorted(given));
    }
}

/// Where no conflict is met, everything is kept.
pub proof fn lemma_kept_whole<V>(s: Seq<Entry<V>>)
    requires
        conflicts(s).len() == 0,
    ensures
        kept(s) == s,
    decreases s.len(),
{
    if s.len() > 0 {
        lemma_kept_whole(s.drop_last());
        assert(s.drop_last().push(s.last()) =~= s);
    }
}

/// A line whose first character after any leading blanks is the comment
/// marker gives no record and counts as no failure: taking it adds one to the
/// number of lines and changes nothing else.
pub proof fn lemma_comment_changes_nothing(
    p: Progress,
    line: Seq<char>,
    options: BuildOptions,
    at: int,
)
    requires
        p.lines < usize::MAX,
        0 <= at < line.len(),
        forall|j: int| 0 <= j < at ==> is_space(line[j]),
        !is_space(line[at]),
        line[at] == options.comment,
    ensures
        advance(p, line, options) == Ok::<Progress, Error>(Progress { lines: p.lines + 1, ..p }),
{
    lemma_comment_skipped(line, options.comment, options.family, at);
}

/// Comment lines leave a build as it is but for the numbering of the lines:
/// with a comment line added at the end, the same records are read and the
/// same number of lines is malformed.
pub proof fn lemma_comment_adds_nothing(
    lines: Seq<Seq<char>>,
    line: Seq<char>,
    options: BuildOptions,
    at: int,
)
    requires
        0 <= at < line.len(),
        forall|j: int| 0 <= j < at ==> is_space(line[j]),
        !is_space(line[at]),
        line[at] == options.comment,
    ensures
        entries_of(lines.push(line), options) == entries_of(lines, options),
        faults_in(lines.push(line), options) == faults_in(lines, options),
{
    lemma_comment_skipped(line, options.comment, options.family, at);
    assert(lines.push(line).drop_last() =~= lines);
}

} // verus!
