//! What can go wrong while a database is read and indexed.

use vstd::prelude::*;
use crate::record::Span;

verus! {

/// Why one line of a database yields no record.
#[derive(Clone, Copy, PartialEq, Eq, Structural, Debug, Hash)]
pub enum Fault {
    /// The line does not split into the expected fields.
    InvalidLine,
    /// An address field is no literal of the address family.
    InvalidAddress,
    /// The country code is malformed.
    InvalidCode,
    /// The start address lies above the end address.
    InvertedRange,
}

/// Every failure this crate reports.
///
/// A `line` counts from one.
#[derive(Clone, Copy, PartialEq, Eq, Structural, Debug, Hash)]
pub enum Error {
    /// The source could not be opened or read. The library itself performs no
    /// input; the variant is there for callers that do.
    Io,
    /// Line `line` does not split into the expected fields.
    InvalidLine { line: usize },
    /// Line `line` holds a malformed address.
    InvalidAddress { line: usize },
    /// Line `line` holds a malformed country code.
    InvalidCode { line: usize },
    /// Line `line` holds a start address above its end address.
    InvertedRange { line: usize },
    /// Two records share addresses; `first` is the one that sorts earlier.
    OverlapDetected { first: Span, second: Span },
    /// Something was asked of an empty or exhausted structure.
    OutOfBounds,
}

impl Error {
    /// The error that reports `fault` on line `line`.
    pub open spec fn located(fault: Fault, line: usize) -> Error {
        match fault {
            Fault::InvalidLine => Error::InvalidLine { line },
            Fault::InvalidAddress => Error::InvalidAddress { line },
            Fault::InvalidCode => Error::InvalidCode { line },
            Fault::InvertedRange => Error::InvertedRange { line },
        }
    }

    /// Attaches a line number to a fault.
    pub fn at_line(fault: Fault, line: usize) -> (e: Error)
        ensures
            e == Error::located(fault, line),
    {
        match fault {
            Fault::InvalidLine => Error::InvalidLine { line },
            Fault::InvalidAddress => Error::InvalidAddress { line },
            Fault::InvalidCode => Error::InvalidCode { line },
            Fault::InvertedRange => Error::InvertedRange { line },
        }
    }

    /// The fault behind a per-line error; nothing for the other errors.
    pub open spec fn fault_spec(self) -> Option<Fault> {
        match self {
            Error::InvalidLine { .. } => Some(Fault::InvalidLine),
            Error::InvalidAddress { .. } => Some(Fault::InvalidAddress),
            Error::InvalidCode { .. } => Some(Fault::InvalidCode),
            Error::InvertedRange { .. } => Some(Fault::InvertedRange),
            _ => None,
        }
    }

    /// The fault behind a per-line error; nothing for the other errors.
    pub fn fault(&self) -> (f: Option<Fault>)
        ensures
            f == self.fault_spec(),
    {
        match self {
            Error::InvalidLine { .. } => Some(Fault::InvalidLine),
            Error::InvalidAddress { .. } => Some(Fault::InvalidAddress),
            Error::InvalidCode { .. } => Some(Fault::InvalidCode),
            Error::InvertedRange { .. } => Some(Fault::InvertedRange),
            _ => None,
        }
    }
}

} // verus!
