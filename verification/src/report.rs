//! The report of a build: how many lines and records were set aside, by
//! reason, and the first few of them as examples.

use vstd::prelude::*;
use crate::error::Error;
use crate::index::Conflict;

verus! {

/// The mathematical model of a [`BuildReport`].
pub struct Summary {
    pub invalid_line: nat,
    pub invalid_address: nat,
    pub invalid_code: nat,
    pub inverted_range: nat,
    pub overlaps: nat,
    pub samples: Seq<Error>,
}

impl Summary {
    /// The summary of a build in which nothing was set aside.
    pub open spec fn empty() -> Summary {
        Summary {
            invalid_line: 0,
            invalid_address: 0,
            invalid_code: 0,
            inverted_range: 0,
            overlaps: 0,
            samples: Seq::empty(),
        }
    }

    /// The number of lines that failed to parse.
    pub open spec fn failures(self) -> nat {
        self.invalid_line + self.invalid_address + self.invalid_code + self.inverted_range
    }

    /// The samples after `e` is offered: `e` joins them while there are fewer
    /// than `limit`.
    pub open spec fn sampled(self, e: Error, limit: nat) -> Seq<Error> {
        if self.samples.len() < limit {
            self.samples.push(e)
        } else {
            self.samples
        }
    }

    /// The summary after `e` is counted under its kind and offered as a
    /// sample. Errors that belong to no line and no pair of records leave the
    /// summary as it is.
    pub open spec fn noted(self, e: Error, limit: nat) -> Summary {
        let samples = self.sampled(e, limit);
        match e {
            Error::InvalidLine { .. } => Summary {
                invalid_line: self.invalid_line + 1,
                samples,
                ..self
            },
            Error::InvalidAddress { .. } => Summary {
                invalid_address: self.invalid_address + 1,
                samples,
                ..self
            },
            Error::InvalidCode { .. } => Summary {
                invalid_code: self.invalid_code + 1,
                samples,
                ..self
            },
            Error::InvertedRange { .. } => Summary {
                inverted_range: self.inverted_range + 1,
                samples,
                ..self
            },
            Error::OverlapDetected { .. } => Summary {
                overlaps: self.overlaps + 1,
                samples,
                ..self
            },
            _ => self,
        }
    }

    /// The summary after each of `met` is noted as an overlap, in order.
    pub open spec fn noted_conflicts(self, met: Seq<Conflict>, limit: nat) -> Summary
        decreases met.len(),
    {
        if met.len() == 0 {
            self
        } else {
            self.noted_conflicts(met.drop_last(), limit).noted(
                Error::OverlapDetected { first: met.last().first, second: met.last().second },
                limit,
            )
        }
    }
}

/// Noting conflicts adds one overlap for each and touches no other count.
pub proof fn lemma_noted_conflicts(summary: Summary, met: Seq<Conflict>, limit: nat)
    ensures
        summary.noted_conflicts(met, limit).overlaps == summary.overlaps + met.len(),
        summary.noted_conflicts(met, limit).invalid_line == summary.invalid_line,
        summary.noted_conflicts(met, limit).invalid_address == summary.invalid_address,
        summary.noted_conflicts(met, limit).invalid_code == summary.invalid_code,
        summary.noted_conflicts(met, limit).inverted_range == summary.inverted_range,
        summary.noted_conflicts(met, limit).failures() == summary.failures(),
    decreases met.len(),
{
    if met.len() > 0 {
        lemma_noted_conflicts(summary, met.drop_last(), limit);
    }
}

/// What a build set aside.
///
/// Each count covers the whole input. `samples` holds the first issues met,
/// in the order in which they were met, up to the limit that the build was
/// given; line faults come before overlaps, which are found last.
#[derive(Clone, Debug, PartialEq, Eq)]
pub struct BuildReport {
    /// Lines that did not split into three fields.
    pub invalid_line: usize,
    /// Lines with a malformed address.
    pub invalid_address: usize,
    /// Lines with a malformed country code.
    pub invalid_code: usize,
    /// Lines whose start address lies above the end address.
    pub inverted_range: usize,
    /// Records dropped because they share an address with a record kept.
    pub overlaps: usize,
    /// The first issues, each with its line or its pair of ranges.
    pub samples: Vec<Error>,
}

impl View for BuildReport {
    type V = Summary;

    open spec fn view(&self) -> Summary {
        Summary {
            invalid_line: self.invalid_line as nat,
            invalid_address: self.invalid_address as nat,
            invalid_code: self.invalid_code as nat,
            inverted_range: self.inverted_range as nat,
            overlaps: self.overlaps as nat,
            samples: self.samples@,
        }
    }
}

impl BuildReport {
    /// The report of a build in which nothing was set aside.
    pub fn new() -> (report: BuildReport)
        ensures
            report@ == Summary::empty(),
    {
        BuildReport {
            invalid_line: 0,
            invalid_address: 0,
            invalid_code: 0,
            inverted_range: 0,
            overlaps: 0,
            samples: Vec::new(),
        }
    }

    /// The number of lines that failed to parse; the highest number there is
    /// if the sum does not fit.
    pub fn failures(&self) -> (n: usize)
        ensures
            n == if self@.failures() <= usize::MAX {
                self@.failures()
            } else {
                usize::MAX as nat
            },
    {
        self.invalid_line.saturating_add(self.invalid_address).saturating_add(
            self.invalid_code,
        ).saturating_add(self.inverted_range)
    }

    /// Whether nothing was set aside.
    pub fn is_clean(&self) -> (b: bool)
        ensures
            b == (self@.failures() == 0 && self@.overlaps == 0),
    {
        self.invalid_line == 0 && self.invalid_address == 0 && self.invalid_code == 0
            && self.inverted_range == 0 && self.overlaps == 0
    }

    /// Whether the count that `e` falls under can grow by one.
    pub open spec fn has_room(&self, e: Error) -> bool {
        match e {
            Error::InvalidLine { .. } => self.invalid_line < usize::MAX,
            Error::InvalidAddress { .. } => self.invalid_address < usize::MAX,
            Error::InvalidCode { .. } => self.invalid_code < usize::MAX,
            Error::InvertedRange { .. } => self.inverted_range < usize::MAX,
            Error::OverlapDetected { .. } => self.overlaps < usize::MAX,
            _ => true,
        }
    }

    /// Counts `e` under its kind and keeps it as a sample while there are
    /// fewer than `limit`.
    pub fn note(&mut self, e: Error, limit: usize)
        requires
            old(self).has_room(e),
        ensures
            final(self)@ == old(self)@.noted(e, limit as nat),
    {
        match e {
            Error::InvalidLine { .. } => {
                self.invalid_line += 1;
            },
            Error::InvalidAddress { .. } => {
                self.invalid_address += 1;
            },
            Error::InvalidCode { .. } => {
                self.invalid_code += 1;
            },
            Error::InvertedRange { .. } => {
                self.inverted_range += 1;
            },
            Error::OverlapDetected { .. } => {
                self.overlaps += 1;
            },
            _ => {
                return ;
            },
        }
        if self.samples.len() < limit {
            self.samples.push(e);
        }
    }
}

} // verus!
