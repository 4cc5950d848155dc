//! Address ranges and the records that tag them with a value.

use vstd::prelude::*;

verus! {

/// An inclusive range of addresses, `start..=end`.
///
/// Addresses of both families are held as `u128`; an IPv4 address is a value
/// below `2^32`.
#[derive(Clone, Copy, PartialEq, Eq, Structural, Debug, Hash)]
pub struct Span {
    pub start: u128,
    pub end: u128,
}

impl Span {
    /// A span is well formed when it holds at least one address.
    pub open spec fn wf(self) -> bool {
        self.start <= self.end
    }

    /// Both bounds are inclusive.
    pub open spec fn contains(self, address: u128) -> bool {
        self.start <= address <= self.end
    }

    /// Every address of `self` lies below every address of `next`.
    pub open spec fn before(self, next: Span) -> bool {
        self.end < next.start
    }
}

/// The mathematical model of a [`Record`]: a span and the value attached to it.
pub struct Entry<V> {
    pub span: Span,
    pub value: V,
}

/// One `[start, end] -> value` association.
///
/// A record always satisfies `start <= end`; a single address is the range
/// with `start == end`.
#[derive(Debug, PartialEq, Eq)]
pub struct Record<V> {
    span: Span,
    value: V,
}

impl<V> View for Record<V> {
    type V = Entry<V>;

    closed spec fn view(&self) -> Entry<V> {
        Entry { span: self.span, value: self.value }
    }
}

impl<V: Clone> Clone for Record<V> {
    /// The copy covers the same range, and its value is a copy of the value.
    fn clone(&self) -> (r: Record<V>)
        ensures
            r@.span == self@.span,
            cloned(self@.value, r@.value),
    {
        proof {
            use_type_invariant(self);
        }
        Record { span: self.span, value: self.value.clone() }
    }
}

/// The models of a sequence of records, in the same order.
pub open spec fn entries<V>(records: Seq<Record<V>>) -> Seq<Entry<V>> {
    records.map_values(|r: Record<V>| r@)
}

impl<V> Record<V> {
    #[verifier::type_invariant]
    closed spec fn inv(&self) -> bool {
        self.span.wf()
    }

    /// Makes the record `[start, end] -> value`, or nothing when the range is
    /// inverted.
    pub fn new(start: u128, end: u128, value: V) -> (r: Option<Record<V>>)
        ensures
            start <= end ==> r is Some && r->0@ == (Entry { span: Span { start, end }, value }),
            start > end ==> r is None,
    {
        if start <= end {
            Some(Record { span: Span { start, end }, value })
        } else {
            None
        }
    }

    /// The first address of the range.
    pub fn start(&self) -> (a: u128)
        ensures
            a == self@.span.start,
            self@.span.wf(),
    {
        proof {
            use_type_invariant(self);
        }
        self.span.start
    }

    /// The last address of the range.
    pub fn end(&self) -> (a: u128)
        ensures
            a == self@.span.end,
            self@.span.wf(),
    {
        proof {
            use_type_invariant(self);
        }
        self.span.end
    }

    /// The range as a whole.
    pub fn span(&self) -> (s: Span)
        ensures
            s == self@.span,
            s.wf(),
    {
        proof {
            use_type_invariant(self);
        }
        self.span
    }

    /// The value attached to the range.
    pub fn value(&self) -> (v: &V)
        ensures
            *v == self@.value,
    {
        &self.value
    }

    /// Gives up the record for its value.
    pub fn into_value(self) -> (v: V)
        ensures
            v == self@.value,
    {
        self.value
    }

    /// Whether `address` lies in the range, bounds included.
    pub fn contains(&self, address: u128) -> (b: bool)
        ensures
            b == self@.span.contains(address),
    {
        self.span.start <= address && address <= self.span.end
    }
}

} // verus!
