//! Character sequences: blanks, trimming and splitting.
//!
//! The parsers of this crate read a text once into a vector of characters and
//! then speak of pieces of it by their bounds. Each function here states what
//! it finds as a property of the piece `chars@.subrange(lo, hi)`.

use vstd::prelude::*;

verus! {

/// The characters that count as blank: space, tab, carriage return, line feed.
pub open spec fn is_space(c: char) -> bool {
    c == ' ' || c == '\t' || c == '\r' || c == '\n'
}

/// Where `c` first occurs in `s`; `s.len()` when it does not occur.
pub open spec fn position(s: Seq<char>, c: char) -> int
    decreases s.len(),
{
    if s.len() == 0 || s[0] == c {
        0
    } else {
        1 + position(s.drop_first(), c)
    }
}

/// The pieces of `s` between occurrences of `sep`, in order. A text without
/// `sep` is one piece; `n` occurrences give `n + 1` pieces, empty ones
/// included.
pub open spec fn split(s: Seq<char>, sep: char) -> Seq<Seq<char>>
    decreases s.len(),
{
    let p = position(s, sep);
    if 0 <= p < s.len() {
        seq![s.take(p)] + split(s.skip(p + 1), sep)
    } else {
        seq![s]
    }
}

/// `s` without its leading blanks.
pub open spec fn trim_start(s: Seq<char>) -> Seq<char>
    decreases s.len(),
{
    if s.len() > 0 && is_space(s[0]) {
        trim_start(s.drop_first())
    } else {
        s
    }
}

/// `s` without its trailing blanks.
pub open spec fn trim_end(s: Seq<char>) -> Seq<char>
    decreases s.len(),
{
    if s.len() > 0 && is_space(s.last()) {
        trim_end(s.drop_last())
    } else {
        s
    }
}

/// `s` without the blanks at either end.
pub open spec fn trim(s: Seq<char>) -> Seq<char> {
    trim_end(trim_start(s))
}

/// The pieces of `s` that the bounds in `ranges` cut out, in order.
pub open spec fn pieces(s: Seq<char>, ranges: Seq<(usize, usize)>) -> Seq<Seq<char>> {
    ranges.map_values(|r: (usize, usize)| s.subrange(r.0 as int, r.1 as int))
}

/// Whether every pair in `ranges` is a pair of bounds within `lo..hi`.
pub open spec fn ranges_within(ranges: Seq<(usize, usize)>, lo: int, hi: int) -> bool {
    forall|i: int| 0 <= i < ranges.len() ==> lo <= (#[trigger] ranges[i]).0 <= ranges[i].1 <= hi
}

/// `position` is the one index at which `c` occurs with no `c` before it.
pub proof fn lemma_position(s: Seq<char>, c: char, p: int)
    requires
        0 <= p <= s.len(),
        forall|j: int| 0 <= j < p ==> s[j] != c,
        p < s.len() ==> s[p] == c,
    ensures
        position(s, c) == p,
    decreases s.len(),
{
    if s.len() == 0 || s[0] == c {
    } else {
        let t = s.drop_first();
        assert forall|j: int| 0 <= j < p - 1 implies t[j] != c by {
            assert(t[j] == s[j + 1]);
        }
        lemma_position(t, c, p - 1);
    }
}

/// The trimmed text is a piece of the text: it starts at `a` and ends at `b`,
/// where `a` is the first non-blank position (or the end) and `b` follows the
/// last non-blank position at or after `a`.
pub proof fn lemma_trim_bounds(s: Seq<char>, a: int, b: int)
    requires
        0 <= a <= b <= s.len(),
        forall|j: int| 0 <= j < a ==> is_space(s[j]),
        forall|j: int| b <= j < s.len() ==> is_space(s[j]),
        a < b ==> !is_space(s[a]) && !is_space(s[b - 1]),
        a == b ==> a == s.len(),
    ensures
        trim(s) == s.subrange(a, b),
        trim_start(s) == s.skip(a),
{
    lemma_trim_start(s, a);
    lemma_trim_end(s.skip(a), b - a);
    assert(s.skip(a).take(b - a) =~= s.subrange(a, b));
}

/// Dropping `a` leading blanks, where no blank follows them, is `trim_start`.
pub proof fn lemma_trim_start(s: Seq<char>, a: int)
    requires
        0 <= a <= s.len(),
        forall|j: int| 0 <= j < a ==> is_space(s[j]),
        a < s.len() ==> !is_space(s[a]),
    ensures
        trim_start(s) == s.skip(a),
    decreases a,
{
    if a == 0 {
        assert(s.skip(0) =~= s);
    } else {
        let t = s.drop_first();
        assert forall|j: int| 0 <= j < a - 1 implies is_space(t[j]) by {
            assert(t[j] == s[j + 1]);
        }
        lemma_trim_start(t, a - 1);
        assert(t.skip(a - 1) =~= s.skip(a));
    }
}

/// Keeping the first `b` characters, where only blanks follow them and the
/// last of them is no blank, is `trim_end`.
pub proof fn lemma_trim_end(s: Seq<char>, b: int)
    requires
        0 <= b <= s.len(),
        forall|j: int| b <= j < s.len() ==> is_space(s[j]),
        b > 0 ==> !is_space(s[b - 1]),
    ensures
        trim_end(s) == s.take(b),
    decreases s.len() - b,
{
    if b == s.len() {
        assert(s.take(b) =~= s);
    } else {
        let t = s.drop_last();
        lemma_trim_end(t, b);
        assert(t.take(b) =~= s.take(b));
    }
}

/// Whether `c` is blank.
pub fn is_blank(c: char) -> (b: bool)
    ensures
        b == is_space(c),
{
    c == ' ' || c == '\t' || c == '\r' || c == '\n'
}

/// The characters of `s`, one by one.
pub fn chars_of(s: &str) -> (v: Vec<char>)
    ensures
        v@ == s@,
{
    let mut v: Vec<char> = Vec::new();
    for c in it: s.chars()
        invariant
            it.seq() == s@,
            v@ == it.seq().take(it.index() as int),
    {
        v.push(c);
    }
    v
}

/// The first position in `lo..hi` that holds `c`, or `hi`.
pub fn find(chars: &Vec<char>, lo: usize, hi: usize, c: char) -> (p: usize)
    requires
        lo <= hi <= chars.len(),
    ensures
        lo <= p <= hi,
        p - lo == position(chars@.subrange(lo as int, hi as int), c),
{
    let ghost piece = chars@.subrange(lo as int, hi as int);
    let mut p: usize = lo;
    while p < hi && chars[p] != c
        invariant
            lo <= p <= hi <= chars.len(),
            piece == chars@.subrange(lo as int, hi as int),
            forall|j: int| 0 <= j < p - lo ==> piece[j] != c,
        decreases hi - p,
    {
        p += 1;
    }
    proof {
        lemma_position(piece, c, p - lo);
    }
    p
}

/// The bounds of the pieces of `lo..hi` between occurrences of `sep`.
pub fn split_ranges(chars: &Vec<char>, lo: usize, hi: usize, sep: char) -> (out: Vec<
    (usize, usize),
>)
    requires
        lo <= hi <= chars.len(),
    ensures
        pieces(chars@, out@) == split(chars@.subrange(lo as int, hi as int), sep),
        ranges_within(out@, lo as int, hi as int),
        out.len() >= 1,
{
    let mut out: Vec<(usize, usize)> = Vec::new();
    let mut start: usize = lo;
    loop
        invariant
            lo <= start <= hi <= chars.len(),
            ranges_within(out@, lo as int, hi as int),
            split(chars@.subrange(lo as int, hi as int), sep) == pieces(chars@, out@) + split(
                chars@.subrange(start as int, hi as int),
                sep,
            ),
        decreases hi - start,
    {
        let p = find(chars, start, hi, sep);
        let ghost rest = chars@.subrange(start as int, hi as int);
        let ghost before = out@;
        out.push((start, p));
        proof {
            assert(pieces(chars@, out@) =~= pieces(chars@, before) + seq![
                chars@.subrange(start as int, p as int),
            ]);
            assert(rest.take(p - start) =~= chars@.subrange(start as int, p as int));
        }
        if p == hi {
            proof {
                assert(rest.take(p - start) =~= rest);
                assert(split(rest, sep) == seq![rest]);
            }
            return out;
        }
        proof {
            assert(rest.skip(p - start + 1) =~= chars@.subrange(p + 1, hi as int));
            assert(split(rest, sep) == seq![rest.take(p - start)] + split(
                rest.skip(p - start + 1),
                sep,
            ));
        }
        start = p + 1;
    }
}

/// The bounds of `lo..hi` without the blanks at either end.
pub fn trim_range(chars: &Vec<char>, lo: usize, hi: usize) -> (r: (usize, usize))
    requires
        lo <= hi <= chars.len(),
    ensures
        lo <= r.0 <= r.1 <= hi,
        chars@.subrange(r.0 as int, r.1 as int) == trim(chars@.subrange(lo as int, hi as int)),
        chars@.subrange(r.0 as int, hi as int) == trim_start(
            chars@.subrange(lo as int, hi as int),
        ),
{
    let ghost piece = chars@.subrange(lo as int, hi as int);
    let mut a: usize = lo;
    while a < hi && is_blank(chars[a])
        invariant
            lo <= a <= hi <= chars.len(),
            piece == chars@.subrange(lo as int, hi as int),
            forall|j: int| 0 <= j < a - lo ==> is_space(piece[j]),
        decreases hi - a,
    {
        a += 1;
    }
    let mut b: usize = hi;
    while b > a && is_blank(chars[b - 1])
        invariant
            a <= b <= hi <= chars.len(),
            lo <= a,
            piece == chars@.subrange(lo as int, hi as int),
            forall|j: int| b - lo <= j < piece.len() ==> is_space(piece[j]),
        decreases b,
    {
        b -= 1;
    }
    proof {
        if a == hi {
            lemma_trim_bounds(piece, a - lo, a - lo);
        } else {
            assert(!is_space(piece[a - lo]));
            lemma_trim_bounds(piece, a - lo, b - lo);
        }
        assert(piece.subrange(a - lo, b - lo) =~= chars@.subrange(a as int, b as int));
        assert(piece.skip(a - lo) =~= chars@.subrange(a as int, hi as int));
    }
    (a, b)
}

} // verus!
