//! Ordering records by their start address.
//!
//! The order is stable: records that share a start address stay in the order
//! in which they came. `sorted` says so by construction, as the result of
//! inserting the entries one by one, each behind every entry whose start is
//! not greater; `sort_records` is a merge sort that is proved to compute
//! exactly that sequence.

use vstd::prelude::*;
use crate::record::{entries, Entry, Record};

verus! {

/// `s` with `e` put behind every entry whose start is not greater than its
/// own. Where `s` ascends, so does the result.
pub open spec fn insert<V>(s: Seq<Entry<V>>, e: Entry<V>) -> Seq<Entry<V>>
    decreases s.len(),
{
    if s.len() > 0 && s.last().span.start > e.span.start {
        insert(s.drop_last(), e).push(s.last())
    } else {
        s.push(e)
    }
}

/// The entries of `s` in ascending order of start address, entries with the
/// same start in the order in which `s` holds them.
pub open spec fn sorted<V>(s: Seq<Entry<V>>) -> Seq<Entry<V>>
    decreases s.len(),
{
    if s.len() == 0 {
        s
    } else {
        insert(sorted(s.drop_last()), s.last())
    }
}

/// The merge of `a` and `b`: of the two last entries the one with the greater
/// start comes last, and `b`'s when they are equal.
pub open spec fn merge<V>(a: Seq<Entry<V>>, b: Seq<Entry<V>>) -> Seq<Entry<V>>
    decreases a.len() + b.len(),
{
    if a.len() == 0 {
        b
    } else if b.len() == 0 {
        a
    } else if a.last().span.start > b.last().span.start {
        merge(a.drop_last(), b).push(a.last())
    } else {
        merge(a, b.drop_last()).push(b.last())
    }
}

/// Whether the start addresses of `s` never fall.
pub open spec fn ascending<V>(s: Seq<Entry<V>>) -> bool {
    forall|i: int, j: int| 0 <= i < j < s.len() ==> s[i].span.start <= s[j].span.start
}

/// Inserting adds one entry and loses none.
pub proof fn lemma_insert_permutes<V>(s: Seq<Entry<V>>, e: Entry<V>)
    ensures
        insert(s, e).len() == s.len() + 1,
        insert(s, e).to_multiset() == s.to_multiset().insert(e),
    decreases s.len(),
{
    broadcast use vstd::seq_lib::group_to_multiset_ensures;

    if s.len() > 0 && s.last().span.start > e.span.start {
        let t = s.drop_last();
        lemma_insert_permutes(t, e);
        assert(s =~= t.push(s.last()));
        assert(insert(s, e).to_multiset() =~= s.to_multiset().insert(e));
    }
}

/// Inserting into an ascending sequence gives an ascending sequence.
pub proof fn lemma_insert_ascending<V>(s: Seq<Entry<V>>, e: Entry<V>)
    requires
        ascending(s),
    ensures
        ascending(insert(s, e)),
    decreases s.len(),
{
    if s.len() > 0 && s.last().span.start > e.span.start {
        let t = s.drop_last();
        assert(ascending(t)) by {
            assert forall|i: int, j: int| 0 <= i < j < t.len() implies t[i].span.start
                <= t[j].span.start by {
                assert(t[i] == s[i] && t[j] == s[j]);
            }
        }
        lemma_insert_ascending(t, e);
        let top = s.last().span.start;
        let below = |x: Entry<V>| x.span.start <= top;
        assert forall|i: int| 0 <= i < t.len() implies below(#[trigger] t[i]) by {
            assert(t[i] == s[i]);
            assert(s[i].span.start <= s[s.len() - 1].span.start);
        }
        lemma_insert_keeps(t, e, below);
        let r = insert(t, e).push(s.last());
        lemma_insert_permutes(t, e);
        assert forall|i: int, j: int| 0 <= i < j < r.len() implies r[i].span.start
            <= r[j].span.start by {
            if j < r.len() - 1 {
                assert(r[i] == insert(t, e)[i] && r[j] == insert(t, e)[j]);
            } else {
                assert(below(insert(t, e)[i]));
            }
        }
    } else {
        let r = s.push(e);
        assert forall|i: int, j: int| 0 <= i < j < r.len() implies r[i].span.start
            <= r[j].span.start by {
            if j < s.len() {
                assert(r[i] == s[i] && r[j] == s[j]);
            } else {
                assert(r[i] == s[i]);
                if i < s.len() - 1 {
                    assert(s[i].span.start <= s.last().span.start);
                }
            }
        }
    }
}

/// What holds of `e` and of every entry of `s` holds of every entry of
/// `insert(s, e)`.
pub proof fn lemma_insert_keeps<V>(s: Seq<Entry<V>>, e: Entry<V>, p: spec_fn(Entry<V>) -> bool)
    requires
        forall|i: int| 0 <= i < s.len() ==> p(#[trigger] s[i]),
        p(e),
    ensures
        forall|i: int| 0 <= i < insert(s, e).len() ==> p(#[trigger] insert(s, e)[i]),
    decreases s.len(),
{
    if s.len() > 0 && s.last().span.start > e.span.start {
        let t = s.drop_last();
        assert forall|i: int| 0 <= i < t.len() implies p(#[trigger] t[i]) by {
            assert(t[i] == s[i]);
        }
        lemma_insert_keeps(t, e, p);
        lemma_insert_permutes(t, e);
        let r = insert(t, e).push(s.last());
        assert forall|i: int| 0 <= i < r.len() implies p(#[trigger] r[i]) by {
            if i < r.len() - 1 {
                assert(r[i] == insert(t, e)[i]);
            } else {
                assert(r[i] == s[s.len() - 1]);
            }
        }
    } else {
        let r = s.push(e);
        assert forall|i: int| 0 <= i < r.len() implies p(#[trigger] r[i]) by {
            if i < s.len() {
                assert(r[i] == s[i]);
            }
        }
    }
}

/// What holds of every entry of `s` holds of every entry of `sorted(s)`.
pub proof fn lemma_sorted_keeps<V>(s: Seq<Entry<V>>, p: spec_fn(Entry<V>) -> bool)
    requires
        forall|i: int| 0 <= i < s.len() ==> p(#[trigger] s[i]),
    ensures
        forall|i: int| 0 <= i < sorted(s).len() ==> p(#[trigger] sorted(s)[i]),
    decreases s.len(),
{
    if s.len() > 0 {
        let t = s.drop_last();
        assert forall|i: int| 0 <= i < t.len() implies p(#[trigger] t[i]) by {
            assert(t[i] == s[i]);
        }
        lemma_sorted_keeps(t, p);
        assert(p(s[s.len() - 1]));
        lemma_insert_keeps(sorted(t), s.last(), p);
    }
}

/// Sorting keeps every entry, as often as it occurs, and adds none.
pub proof fn lemma_sorted_permutes<V>(s: Seq<Entry<V>>)
    ensures
        sorted(s).len() == s.len(),
        sorted(s).to_multiset() == s.to_multiset(),
    decreases s.len(),
{
    broadcast use vstd::seq_lib::group_to_multiset_ensures;

    if s.len() > 0 {
        let t = s.drop_last();
        lemma_sorted_permutes(t);
        lemma_insert_permutes(sorted(t), s.last());
        assert(s =~= t.push(s.last()));
    }
}

/// The sorted sequence ascends.
pub proof fn lemma_sorted_ascending<V>(s: Seq<Entry<V>>)
    ensures
        ascending(sorted(s)),
    decreases s.len(),
{
    if s.len() > 0 {
        lemma_sorted_ascending(s.drop_last());
        lemma_insert_ascending(sorted(s.drop_last()), s.last());
    }
}

/// Inserting into a merge is merging with the insertion made on the right.
pub proof fn lemma_insert_merge<V>(a: Seq<Entry<V>>, b: Seq<Entry<V>>, e: Entry<V>)
    ensures
        insert(merge(a, b), e) == merge(a, insert(b, e)),
    decreases a.len() + b.len(),
{
    let key = e.span.start;
    if b.len() > 0 && b.last().span.start > key {
        // `e` goes below the last of `b`.
        let grown = insert(b.drop_last(), e).push(b.last());
        assert(grown.drop_last() =~= insert(b.drop_last(), e));
        if a.len() == 0 {
        } else if a.last().span.start > b.last().span.start {
            lemma_insert_merge(a.drop_last(), b, e);
            assert(merge(a, b).drop_last() =~= merge(a.drop_last(), b));
        } else {
            lemma_insert_merge(a, b.drop_last(), e);
            assert(merge(a, b).drop_last() =~= merge(a, b.drop_last()));
        }
    } else {
        // `e` becomes the last of `b`.
        let grown = b.push(e);
        assert(grown.drop_last() =~= b);
        if a.len() == 0 {
        } else if a.last().span.start > key {
            lemma_insert_merge(a.drop_last(), b, e);
            if b.len() > 0 {
                assert(merge(a, b).drop_last() =~= merge(a.drop_last(), b));
            } else {
                assert(merge(a.drop_last(), b) == a.drop_last()) by {
                    lemma_merge_empty(a.drop_last());
                }
                assert(merge(a, b).drop_last() =~= merge(a.drop_last(), b));
            }
        } else {
            lemma_merge_last(a, b);
        }
    }
}

/// Merging with nothing changes nothing.
pub proof fn lemma_merge_empty<V>(a: Seq<Entry<V>>)
    ensures
        merge(a, Seq::<Entry<V>>::empty()) == a,
        merge(Seq::<Entry<V>>::empty(), a) == a,
{
}

/// The last entry of a merge is the last of one of the two sequences.
pub proof fn lemma_merge_last<V>(a: Seq<Entry<V>>, b: Seq<Entry<V>>)
    requires
        a.len() + b.len() > 0,
    ensures
        merge(a, b).len() > 0,
        (a.len() > 0 && merge(a, b).last() == a.last()) || (b.len() > 0 && merge(a, b).last()
            == b.last()),
{
}

/// Sorting a concatenation is merging the two sorted halves.
pub proof fn lemma_sorted_concat<V>(a: Seq<Entry<V>>, b: Seq<Entry<V>>)
    ensures
        sorted(a + b) == merge(sorted(a), sorted(b)),
    decreases b.len(),
{
    if b.len() == 0 {
        assert(a + b =~= a);
        lemma_merge_empty(sorted(a));
    } else {
        let whole = a + b;
        assert(whole.drop_last() =~= a + b.drop_last());
        assert(whole.last() == b.last());
        lemma_sorted_concat(a, b.drop_last());
        lemma_insert_merge(sorted(a), sorted(b.drop_last()), b.last());
    }
}

/// The models of a vector's records, less the last, are the models of the
/// vector less its last record.
pub proof fn lemma_entries_drop_last<V>(v: Seq<Record<V>>)
    requires
        v.len() > 0,
    ensures
        entries(v.drop_last()) == entries(v).drop_last(),
        entries(v).last() == v.last()@,
{
    assert(entries(v.drop_last()) =~= entries(v).drop_last());
}

/// The models of a vector with one more record are the models with one more
/// model.
pub proof fn lemma_entries_push<V>(v: Seq<Record<V>>, r: Record<V>)
    ensures
        entries(v.push(r)) == entries(v).push(r@),
{
    assert(entries(v.push(r)) =~= entries(v).push(r@));
}

/// The elements of `v`, last first.
pub fn reversed<T>(v: Vec<T>) -> (out: Vec<T>)
    ensures
        out@ == v@.reverse(),
{
    let mut v = v;
    let ghost given = v@;
    let mut out: Vec<T> = Vec::new();
    while v.len() > 0
        invariant
            v@ == given.take(given.len() - out.len()),
            out.len() <= given.len(),
            forall|i: int| 0 <= i < out.len() ==> out[i] == given[given.len() - 1 - i],
        decreases v.len(),
    {
        let r = v.pop().unwrap();
        out.push(r);
    }
    proof {
        assert(out@ =~= given.reverse());
    }
    out
}

/// Merges two vectors of records as `merge` says.
pub fn merge_records<V>(left: Vec<Record<V>>, right: Vec<Record<V>>) -> (out: Vec<Record<V>>)
    ensures
        entries(out@) == merge(entries(left@), entries(right@)),
{
    let mut left = left;
    let mut right = right;
    let ghost whole = merge(entries(left@), entries(right@));
    let mut back: Vec<Record<V>> = Vec::new();
    while left.len() > 0 || right.len() > 0
        invariant
            back.len() <= whole.len(),
            merge(entries(left@), entries(right@)) == whole.take(whole.len() - back.len()),
            forall|i: int| 0 <= i < back.len() ==> back[i]@ == whole[whole.len() - 1 - i],
        decreases left.len() + right.len(),
    {
        let ghost l = entries(left@);
        let ghost r = entries(right@);
        proof {
            lemma_merge_last(l, r);
            if left.len() > 0 {
                lemma_entries_drop_last(left@);
            }
            if right.len() > 0 {
                lemma_entries_drop_last(right@);
            }
        }
        let from_left = if left.len() == 0 {
            false
        } else if right.len() == 0 {
            true
        } else {
            left[left.len() - 1].start() > right[right.len() - 1].start()
        };
        let next = if from_left {
            proof {
                assert(merge(l, r) =~= merge(l.drop_last(), r).push(l.last())) by {
                    if r.len() == 0 {
                        lemma_merge_empty(l);
                        lemma_merge_empty(l.drop_last());
                    }
                }
            }
            left.pop().unwrap()
        } else {
            proof {
                assert(merge(l, r) =~= merge(l, r.drop_last()).push(r.last())) by {
                    if l.len() == 0 {
                        lemma_merge_empty(r);
                        lemma_merge_empty(r.drop_last());
                    }
                }
            }
            right.pop().unwrap()
        };
        proof {
            let rest = merge(entries(left@), entries(right@));
            assert(merge(l, r) == rest.push(next@));
            assert(rest =~= whole.take(whole.len() - back.len() - 1));
            assert(next@ == whole[whole.len() - back.len() - 1]);
        }
        back.push(next);
    }
    proof {
        assert(entries(left@) =~= Seq::<Entry<V>>::empty());
        assert(entries(right@) =~= Seq::<Entry<V>>::empty());
        assert(whole.len() == back.len());
    }
    let out = reversed(back);
    proof {
        assert(entries(out@) =~= whole);
    }
    out
}

/// Sorts records by start address, keeping records with the same start in
/// the order in which they were given.
pub fn sort_records<V>(records: Vec<Record<V>>) -> (out: Vec<Record<V>>)
    ensures
        entries(out@) == sorted(entries(records@)),
        out.len() == records.len(),
    decreases records.len(),
{
    let ghost given = entries(records@);
    if records.len() <= 1 {
        proof {
            if records.len() == 1 {
                assert(given.drop_last().len() == 0);
                assert(sorted(given.drop_last()) =~= Seq::<Entry<V>>::empty());
                assert(sorted(given) =~= given);
            }
        }
        return records;
    }
    let mut left = records;
    let mid = left.len() / 2;
    let right = left.split_off(mid);
    proof {
        assert(given =~= entries(left@) + entries(right@));
        lemma_sorted_concat(entries(left@), entries(right@));
        lemma_sorted_permutes(given);
    }
    let left = sort_records(left);
    let right = sort_records(right);
    let out = merge_records(left, right);
    proof {
        assert(entries(out@).len() == out@.len());
    }
    out
}

} // verus!
