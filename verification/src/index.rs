//! The range index: records in address order, no two of which share an
//! address, and the search for the record that holds a given address.
//!
//! When records overlap, the one that sorts earlier wins: records are taken
//! in ascending order of start address (records with the same start in the
//! order in which they were given), and a record is dropped when it shares
//! an address with the record kept last before it. Each drop is reported as a
//! `Conflict`.

use vstd::prelude::*;
use crate::error::Error;
use crate::record::{entries, Entry, Record, Span};
use crate::sort::{
    lemma_entries_drop_last, lemma_entries_push, reversed, sort_records, sorted,
};

verus! {

/// Two records that share an address: `first` was kept, `second` was dropped
/// or, in a strict build, made the build fail.
#[derive(Clone, Copy, PartialEq, Eq, Structural, Debug, Hash)]
pub struct Conflict {
    pub first: Span,
    pub second: Span,
}

/// Whether `s` is fit to be searched: every span is well formed, and every
/// span lies wholly below every later one.
pub open spec fn ordered<V>(s: Seq<Entry<V>>) -> bool {
    &&& forall|i: int| 0 <= i < s.len() ==> (#[trigger] s[i]).span.wf()
    &&& forall|i: int, j: int| 0 <= i < j < s.len() ==> s[i].span.before(s[j].span)
}

/// Whether `e` can follow the entries kept so far.
pub open spec fn admits<V>(kept: Seq<Entry<V>>, e: Entry<V>) -> bool {
    kept.len() == 0 || kept.last().span.before(e.span)
}

/// The entries of `s` that are kept when `s` is taken front to back and an
/// entry is dropped if the entry kept last does not lie wholly below it.
pub open spec fn kept<V>(s: Seq<Entry<V>>) -> Seq<Entry<V>>
    decreases s.len(),
{
    if s.len() == 0 {
        s
    } else if admits(kept(s.drop_last()), s.last()) {
        kept(s.drop_last()).push(s.last())
    } else {
        kept(s.drop_last())
    }
}

/// The conflicts met when `s` is taken front to back: one for each entry
/// dropped, in the order of the drops.
pub open spec fn conflicts<V>(s: Seq<Entry<V>>) -> Seq<Conflict>
    decreases s.len(),
{
    if s.len() == 0 {
        Seq::empty()
    } else if admits(kept(s.drop_last()), s.last()) {
        conflicts(s.drop_last())
    } else {
        conflicts(s.drop_last()).push(
            Conflict { first: kept(s.drop_last()).last().span, second: s.last().span },
        )
    }
}

/// What indexing `given` comes to: the entries kept and the conflicts met,
/// or, in a strict build, the first conflict as an error.
pub open spec fn settle<V>(given: Seq<Entry<V>>, strict: bool) -> Result<
    (Seq<Entry<V>>, Seq<Conflict>),
    Error,
> {
    let met = conflicts(sorted(given));
    if strict && met.len() > 0 {
        Err(Error::OverlapDetected { first: met[0].first, second: met[0].second })
    } else {
        Ok((kept(sorted(given)), met))
    }
}

/// Whether entry `i` of `s` holds `address`.
pub open spec fn holds<V>(s: Seq<Entry<V>>, address: u128, i: int) -> bool {
    0 <= i < s.len() && s[i].span.contains(address)
}

/// The entry of `s` that holds `address`, if there is one.
pub open spec fn lookup<V>(s: Seq<Entry<V>>, address: u128) -> Option<Entry<V>> {
    if exists|i: int| holds(s, address, i) {
        Some(s[choose|i: int| holds(s, address, i)])
    } else {
        None
    }
}

/// In an ordered sequence neighbours are strictly apart: the later one starts
/// above both the start and the end of the earlier one.
pub proof fn lemma_neighbours_apart<V>(s: Seq<Entry<V>>, i: int)
    requires
        ordered(s),
        0 <= i < s.len() - 1,
    ensures
        s[i].span.start < s[i + 1].span.start,
        s[i].span.end < s[i + 1].span.start,
{
    assert(s[i].span.wf());
    assert(s[i].span.before(s[i + 1].span));
}

/// In an ordered sequence at most one entry holds an address, so the entry
/// that holds it is the one that `lookup` finds.
pub proof fn lemma_lookup_finds<V>(s: Seq<Entry<V>>, address: u128, i: int)
    requires
        ordered(s),
        holds(s, address, i),
    ensures
        lookup(s, address) == Some(s[i]),
{
    let found = choose|k: int| holds(s, address, k);
    assert(holds(s, address, found));
    assert(s[i].span.wf() && s[found].span.wf());
    if found < i {
        assert(s[found].span.before(s[i].span));
    } else if i < found {
        assert(s[i].span.before(s[found].span));
    }
}

/// An address that no entry holds is not found.
pub proof fn lemma_lookup_misses<V>(s: Seq<Entry<V>>, address: u128)
    requires
        forall|i: int| 0 <= i < s.len() ==> !(#[trigger] s[i]).span.contains(address),
    ensures
        lookup(s, address) is None,
{
    assert forall|i: int| !holds(s, address, i) by {
        if 0 <= i < s.len() {
            assert(!s[i].span.contains(address));
        }
    }
}

/// Both ends of every entry are found in that entry.
pub proof fn lemma_lookup_bounds<V>(s: Seq<Entry<V>>, i: int)
    requires
        ordered(s),
        0 <= i < s.len(),
    ensures
        lookup(s, s[i].span.start) == Some(s[i]),
        lookup(s, s[i].span.end) == Some(s[i]),
{
    assert(s[i].span.wf());
    lemma_lookup_finds(s, s[i].span.start, i);
    lemma_lookup_finds(s, s[i].span.end, i);
}

/// Whatever is found holds the address and is an entry of the sequence.
pub proof fn lemma_lookup_sound<V>(s: Seq<Entry<V>>, address: u128)
    ensures
        lookup(s, address) matches Some(e) ==> e.span.contains(address) && s.contains(e),
{
    if exists|i: int| holds(s, address, i) {
        let found = choose|i: int| holds(s, address, i);
        assert(holds(s, address, found));
    }
}

/// Keeping and dropping account for every entry, and what is kept from
/// well-formed entries is ordered.
pub proof fn lemma_kept_ordered<V>(s: Seq<Entry<V>>)
    requires
        forall|i: int| 0 <= i < s.len() ==> (#[trigger] s[i]).span.wf(),
    ensures
        ordered(kept(s)),
        kept(s).len() + conflicts(s).len() == s.len(),
        forall|i: int| 0 <= i < kept(s).len() ==> s.contains(#[trigger] kept(s)[i]),
    decreases s.len(),
{
    if s.len() > 0 {
        let t = s.drop_last();
        assert forall|i: int| 0 <= i < t.len() implies (#[trigger] t[i]).span.wf() by {
            assert(t[i] == s[i]);
        }
        lemma_kept_ordered(t);
        let k = kept(t);
        assert forall|i: int| 0 <= i < k.len() implies s.contains(#[trigger] k[i]) by {
            let j = choose|j: int| 0 <= j < t.len() && t[j] == k[i];
            assert(s[j] == k[i]);
        }
        assert(s.last().span.wf());
        if admits(k, s.last()) {
            lemma_push_ordered(k, s.last());
            let grown = k.push(s.last());
            assert forall|i: int| 0 <= i < grown.len() implies s.contains(
                #[trigger] grown[i],
            ) by {
                if i < k.len() {
                    assert(grown[i] == k[i]);
                } else {
                    assert(s[s.len() - 1] == grown[i]);
                }
            }
        }
    }
}

/// An ordered sequence stays ordered when an entry that it admits is added.
pub proof fn lemma_push_ordered<V>(k: Seq<Entry<V>>, e: Entry<V>)
    requires
        ordered(k),
        admits(k, e),
        e.span.wf(),
    ensures
        ordered(k.push(e)),
{
    let grown = k.push(e);
    assert forall|i: int| 0 <= i < grown.len() implies (#[trigger] grown[i]).span.wf() by {
        if i < k.len() {
            assert(grown[i] == k[i]);
        }
    }
    assert forall|i: int, j: int| 0 <= i < j < grown.len() implies grown[i].span.before(
        grown[j].span,
    ) by {
        if j < k.len() {
            assert(grown[i] == k[i] && grown[j] == k[j]);
        } else {
            assert(grown[i] == k[i]);
            assert(k.last().span.wf());
            if i < k.len() - 1 {
                assert(k[i].span.before(k[k.len() - 1].span));
            }
        }
    }
}

/// The conflicts met on a front part of `s` are the first conflicts met on
/// `s`.
pub proof fn lemma_conflicts_grow<V>(s: Seq<Entry<V>>, n: int)
    requires
        0 <= n <= s.len(),
    ensures
        conflicts(s.take(n)).len() <= conflicts(s).len(),
        forall|i: int|
            0 <= i < conflicts(s.take(n)).len() ==> conflicts(s.take(n))[i] == conflicts(s)[i],
    decreases s.len(),
{
    if n == s.len() {
        assert(s.take(n) =~= s);
    } else {
        let t = s.drop_last();
        assert(t.take(n) =~= s.take(n));
        lemma_conflicts_grow(t, n);
    }
}

/// Entries that are ordered as they stand are all kept, without conflict.
pub proof fn lemma_kept_all<V>(s: Seq<Entry<V>>)
    requires
        ordered(s),
    ensures
        kept(s) == s,
        conflicts(s).len() == 0,
    decreases s.len(),
{
    if s.len() > 0 {
        let t = s.drop_last();
        assert(ordered(t)) by {
            assert forall|i: int| 0 <= i < t.len() implies (#[trigger] t[i]).span.wf() by {
                assert(t[i] == s[i]);
            }
            assert forall|i: int, j: int| 0 <= i < j < t.len() implies t[i].span.before(
                t[j].span,
            ) by {
                assert(t[i] == s[i] && t[j] == s[j]);
            }
        }
        lemma_kept_all(t);
        if t.len() > 0 {
            assert(t.last() == s[s.len() - 2]);
            assert(s[s.len() - 2].span.before(s[s.len() - 1].span));
        }
        assert(t.push(s.last()) =~= s);
    }
}

/// An ordered sequence of records, ready to be searched.
///
/// An index is made once and never changed. Its view is the sequence of its
/// entries, in address order.
#[derive(Debug)]
pub struct RangeIndex<V> {
    records: Vec<Record<V>>,
}

impl<V> View for RangeIndex<V> {
    type V = Seq<Entry<V>>;

    closed spec fn view(&self) -> Seq<Entry<V>> {
        entries(self.records@)
    }
}

impl<V> RangeIndex<V> {
    #[verifier::type_invariant]
    closed spec fn inv(&self) -> bool {
        ordered(entries(self.records@))
    }

    /// The index without records.
    pub fn new() -> (index: RangeIndex<V>)
        ensures
            index@.len() == 0,
            ordered(index@),
    {
        let records: Vec<Record<V>> = Vec::new();
        RangeIndex { records }
    }

    /// Indexes `records`, in whatever order they come.
    ///
    /// The records are sorted by start address. With `strict` unset, a record
    /// that shares an address with the record kept before it is dropped, and
    /// the conflicts are returned beside the index. With `strict` set, the
    /// first conflict is the error.
    pub fn from_records(records: Vec<Record<V>>, strict: bool) -> (r: Result<
        (RangeIndex<V>, Vec<Conflict>),
        Error,
    >)
        ensures
            match settle(entries(records@), strict) {
                Ok((entries, met)) => r matches Ok((index, dropped)) && index@ == entries
                    && dropped@ == met && ordered(index@),
                Err(e) => r matches Err(x) && x == e,
            },
    {
        let ghost given = entries(records@);
        let ghost all = sorted(given);
        let in_order = sort_records(records);
        let mut rest = reversed(in_order);
        let mut keep: Vec<Record<V>> = Vec::new();
        let mut dropped: Vec<Conflict> = Vec::new();
        let ghost mut done: int = 0;
        proof {
            assert(all.take(0) =~= Seq::<Entry<V>>::empty());
            assert(entries(keep@) =~= Seq::<Entry<V>>::empty());
        }
        while rest.len() > 0
            invariant
                given == entries(records@),
                all == sorted(given),
                0 <= done <= all.len(),
                rest.len() == all.len() - done,
                forall|i: int| 0 <= i < rest.len() ==> rest[i]@ == all[all.len() - 1 - i],
                entries(keep@) == kept(all.take(done)),
                dropped@ == conflicts(all.take(done)),
                ordered(entries(keep@)),
                strict ==> dropped.len() == 0,
            decreases rest.len(),
        {
            let record = rest.pop().unwrap();
            let span = record.span();
            let ghost front = all.take(done + 1);
            proof {
                assert(record@ == all[done]);
                assert(front.drop_last() =~= all.take(done));
                assert(front.last() == record@);
                if keep.len() > 0 {
                    lemma_entries_drop_last(keep@);
                }
            }
            let fits = keep.len() == 0 || keep[keep.len() - 1].end() < span.start;
            if fits {
                proof {
                    lemma_entries_push(keep@, record);
                    lemma_push_ordered(entries(keep@), record@);
                }
                keep.push(record);
            } else {
                let conflict = Conflict { first: keep[keep.len() - 1].span(), second: span };
                if strict {
                    proof {
                        lemma_conflicts_grow(all, done + 1);
                        assert(conflicts(front) == conflicts(front.drop_last()).push(conflict));
                        assert(conflicts(front).len() == 1);
                        assert(conflicts(front)[0] == conflict);
                        assert(conflicts(all.take(done + 1))[0] == conflicts(all)[0]);
                    }
                    return Err(
                        Error::OverlapDetected { first: conflict.first, second: conflict.second },
                    );
                }
                dropped.push(conflict);
            }
            proof {
                done = done + 1;
            }
        }
        proof {
            assert(all.take(done) =~= all);
        }
        Ok((RangeIndex { records: keep }, dropped))
    }

    /// The number of records.
    pub fn len(&self) -> (n: usize)
        ensures
            n == self@.len(),
    {
        self.records.len()
    }

    /// Whether the index holds no record.
    pub fn is_empty(&self) -> (b: bool)
        ensures
            b == (self@.len() == 0),
    {
        self.records.len() == 0
    }

    /// The record at position `i` in address order, if there are that many.
    pub fn get(&self, i: usize) -> (r: Option<&Record<V>>)
        ensures
            ordered(self@),
            i < self@.len() ==> (r matches Some(record) && record@ == self@[i as int]),
            i >= self@.len() ==> r is None,
    {
        proof {
            use_type_invariant(self);
        }
        if i < self.records.len() {
            Some(&self.records[i])
        } else {
            None
        }
    }

    /// The position of the record that holds `address`, if there is one.
    ///
    /// A binary search for the last record that starts at or below `address`;
    /// that record holds the address or none does.
    pub fn position(&self, address: u128) -> (r: Option<usize>)
        ensures
            ordered(self@),
            match r {
                Some(i) => holds(self@, address, i as int) && lookup(self@, address) == Some(
                    self@[i as int],
                ),
                None => lookup(self@, address) is None,
            },
    {
        proof {
            use_type_invariant(self);
        }
        let ghost s = self@;
        let mut lo: usize = 0;
        let mut hi: usize = self.records.len();
        while lo < hi
            invariant
                0 <= lo <= hi <= self.records.len(),
                s == entries(self.records@),
                ordered(s),
                forall|j: int| 0 <= j < lo ==> (#[trigger] s[j]).span.start <= address,
                forall|j: int| hi <= j < s.len() ==> (#[trigger] s[j]).span.start > address,
            decreases hi - lo,
        {
            let mid = lo + (hi - lo) / 2;
            if self.records[mid].start() <= address {
                proof {
                    assert forall|j: int| 0 <= j < mid + 1 implies (#[trigger] s[j]).span.start
                        <= address by {
                        if j < mid {
                            assert(s[j].span.before(s[mid as int].span));
                            assert(s[j].span.wf());
                        }
                    }
                }
                lo = mid + 1;
            } else {
                proof {
                    assert forall|j: int| mid <= j < s.len() implies (#[trigger] s[j]).span.start
                        > address by {
                        if j > mid {
                            assert(s[mid as int].span.before(s[j].span));
                            assert(s[mid as int].span.wf());
                        }
                    }
                }
                hi = mid;
            }
        }
        if lo > 0 && address <= self.records[lo - 1].end() {
            proof {
                assert(s[lo - 1].span.start <= address);
                lemma_lookup_finds(s, address, lo - 1);
            }
            Some(lo - 1)
        } else {
            proof {
                assert forall|j: int| 0 <= j < s.len() implies !(#[trigger] s[j]).span.contains(
                    address,
                ) by {
                    if j < lo - 1 {
                        assert(s[j].span.before(s[lo - 1].span));
                        assert(s[lo - 1].span.start <= address);
                    } else if j == lo - 1 {
                    } else {
                        assert(s[j].span.start > address);
                    }
                }
                lemma_lookup_misses(s, address);
            }
            None
        }
    }

    /// The record that holds `address`, if there is one.
    pub fn search(&self, address: u128) -> (r: Option<&Record<V>>)
        ensures
            ordered(self@),
            match r {
                Some(record) => lookup(self@, address) == Some(record@),
                None => lookup(self@, address) is None,
            },
    {
        match self.position(address) {
            Some(i) => Some(&self.records[i]),
            None => None,
        }
    }

    /// Gives up the index for its records, in address order.
    pub fn into_records(self) -> (records: Vec<Record<V>>)
        ensures
            entries(records@) == self@,
            ordered(self@),
    {
        proof {
            use_type_invariant(&self);
        }
        self.records
    }
}

} // verus!
