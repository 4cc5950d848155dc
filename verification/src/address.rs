//! Address families and their literals.
//!
//! An address is an unsigned integer: below `2^32` for IPv4, below `2^128`
//! for IPv6. Both are held as `u128`, so that one parser, one builder and one
//! index serve both families.
//!
//! IPv4 literals come in two forms: four decimal octets joined by dots
//! (`10.0.0.255`), or the whole address as one decimal number (`167772415`).
//! Neither form takes leading zeros.
//!
//! IPv6 literals are groups of one to four hexadecimal digits joined by
//! colons. Either all eight groups are written, or `::` stands once for one
//! or more groups of zero (`2001:db8::1`, `::`). In place of the last two
//! groups four dotted octets may be written (`::ffff:10.0.0.255`).

use vstd::prelude::*;
use crate::number::{
    bounded_numeral, decimal, lemma_power_grows, power, read_decimal, read_numeral,
};
use crate::text::{chars_of, find, pieces, position, split, split_ranges};

verus! {

/// The two address families.
#[derive(Clone, Copy, PartialEq, Eq, Structural, Debug, Hash)]
pub enum Family {
    V4,
    V6,
}

/// One part of a dotted IPv4 literal: a decimal number up to 255.
pub open spec fn octet(s: Seq<char>) -> Option<int> {
    decimal(s, 3, 255)
}

/// Whether `s` holds a dot.
pub open spec fn is_dotted(s: Seq<char>) -> bool {
    position(s, '.') < s.len()
}

/// The four octets of a dotted quad.
pub open spec fn quad(s: Seq<char>) -> Option<(int, int, int, int)> {
    let parts = split(s, '.');
    if parts.len() == 4 {
        match (octet(parts[0]), octet(parts[1]), octet(parts[2]), octet(parts[3])) {
            (Some(a), Some(b), Some(c), Some(d)) => Some((a, b, c, d)),
            _ => None,
        }
    } else {
        None
    }
}

/// The address that an IPv4 literal denotes.
pub open spec fn v4_literal(s: Seq<char>) -> Option<u128> {
    if is_dotted(s) {
        match quad(s) {
            Some((a, b, c, d)) => Some((((a * 256 + b) * 256 + c) * 256 + d) as u128),
            None => None,
        }
    } else {
        match decimal(s, 10, 0xFFFF_FFFF) {
            Some(n) => Some(n as u128),
            None => None,
        }
    }
}

/// Where `::` first occurs in `s`; `s.len()` when it does not occur.
pub open spec fn gap(s: Seq<char>) -> int
    decreases s.len(),
{
    if s.len() < 2 {
        s.len() as int
    } else if s[0] == ':' && s[1] == ':' {
        0
    } else {
        1 + gap(s.drop_first())
    }
}

/// Whether `::` stands at position `j` of `s`.
pub open spec fn gap_at(s: Seq<char>, j: int) -> bool {
    0 <= j && j + 1 < s.len() && s[j] == ':' && s[j + 1] == ':'
}

/// One group of an IPv6 literal: one to four hexadecimal digits.
pub open spec fn group(s: Seq<char>) -> Option<int> {
    bounded_numeral(s, 16, 4)
}

/// The values of `parts`, when each is a group.
pub open spec fn plain_groups(parts: Seq<Seq<char>>) -> Option<Seq<int>> {
    if forall|i: int| 0 <= i < parts.len() ==> (#[trigger] group(parts[i])) is Some {
        Some(Seq::new(parts.len(), |i: int| group(parts[i])->0))
    } else {
        None
    }
}

/// The groups written in `s`, joined by single colons. The empty text holds
/// no group. Where `mixed` is set and the last part holds a dot, that part is
/// a dotted quad and stands for two groups.
pub open spec fn groups(s: Seq<char>, mixed: bool) -> Option<Seq<int>> {
    let parts = split(s, ':');
    if s.len() == 0 {
        Some(Seq::empty())
    } else if mixed && is_dotted(parts.last()) {
        match (plain_groups(parts.drop_last()), quad(parts.last())) {
            (Some(front), Some((a, b, c, d))) => Some(front.push(a * 256 + b).push(c * 256 + d)),
            _ => None,
        }
    } else {
        plain_groups(parts)
    }
}

/// The number whose 16-bit digits are `gs`, most significant first.
pub open spec fn join(gs: Seq<int>) -> int
    decreases gs.len(),
{
    if gs.len() == 0 {
        0
    } else {
        join(gs.drop_last()) * 65536 + gs.last()
    }
}

/// `n` groups of zero.
pub open spec fn zeros(n: int) -> Seq<int> {
    Seq::new(n as nat, |i: int| 0int)
}

/// The address that an IPv6 literal denotes.
pub open spec fn v6_literal(s: Seq<char>) -> Option<u128> {
    let g = gap(s);
    if 0 <= g < s.len() {
        match (groups(s.take(g), false), groups(s.skip(g + 2), true)) {
            (Some(h), Some(t)) => if h.len() + t.len() <= 7 {
                Some(join(h + zeros(8 - h.len() - t.len()) + t) as u128)
            } else {
                None
            },
            _ => None,
        }
    } else {
        match groups(s, true) {
            Some(h) => if h.len() == 8 {
                Some(join(h) as u128)
            } else {
                None
            },
            None => None,
        }
    }
}

/// The numbers held in `v`.
pub open spec fn values(v: Seq<u64>) -> Seq<int> {
    v.map_values(|x: u64| x as int)
}

/// Whether every element of `gs` fits in 16 bits.
pub open spec fn all_groups(gs: Seq<int>) -> bool {
    forall|i: int| 0 <= i < gs.len() ==> 0 <= #[trigger] gs[i] < 65536
}

impl Family {
    /// The highest address of the family.
    pub open spec fn top(self) -> u128 {
        match self {
            Family::V4 => 0xFFFF_FFFF,
            Family::V6 => u128::MAX,
        }
    }

    /// The address that `s` denotes in this family, if `s` is a literal of it.
    pub open spec fn literal(self, s: Seq<char>) -> Option<u128> {
        match self {
            Family::V4 => v4_literal(s),
            Family::V6 => v6_literal(s),
        }
    }

    /// The highest address of the family.
    pub fn highest(self) -> (a: u128)
        ensures
            a == self.top(),
    {
        match self {
            Family::V4 => 0xFFFF_FFFF,
            Family::V6 => u128::MAX,
        }
    }

    /// Reads `literal` as an address of this family.
    pub fn parse(self, literal: &str) -> (r: Option<u128>)
        ensures
            r == self.literal(literal@),
            r matches Some(a) ==> a <= self.top(),
    {
        let chars = chars_of(literal);
        proof {
            assert(chars@.subrange(0, chars.len() as int) =~= literal@);
        }
        read_address(&chars, 0, chars.len(), self)
    }
}

/// `gap` is the one index at which `::` stands with no `::` before it.
pub proof fn lemma_gap(s: Seq<char>, p: int)
    requires
        0 <= p <= s.len(),
        forall|j: int| 0 <= j < p ==> !#[trigger] gap_at(s, j),
        p < s.len() ==> gap_at(s, p),
    ensures
        gap(s) == p,
    decreases s.len(),
{
    if s.len() < 2 {
        if p < s.len() {
            assert(gap_at(s, p));
        }
    } else if s[0] == ':' && s[1] == ':' {
        assert(gap_at(s, 0));
    } else {
        let t = s.drop_first();
        assert(!gap_at(s, 0));
        if p - 1 < t.len() {
            assert(gap_at(s, p));
            assert(t[p - 1] == s[p] && t[p] == s[p + 1]);
            assert(gap_at(t, p - 1));
        }
        assert forall|j: int| 0 <= j < p - 1 implies !#[trigger] gap_at(t, j) by {
            assert(!gap_at(s, j + 1));
            if j + 1 < t.len() {
                assert(t[j] == s[j + 1] && t[j + 1] == s[j + 2]);
            }
        }
        lemma_gap(t, p - 1);
    }
}

/// Eight groups fill 128 bits exactly, and ten decimal digits fit in 64.
pub proof fn lemma_widths()
    ensures
        power(65536, 8) == 0x1_0000_0000_0000_0000_0000_0000_0000_0000,
        power(16, 4) == 65536,
        power(10, 10) == 10_000_000_000,
        power(10, 3) == 1000,
{
    reveal_with_fuel(power, 11);
}

/// A number of `n` 16-bit digits lies below the `n`th power of 65536.
pub proof fn lemma_join_bound(gs: Seq<int>)
    requires
        all_groups(gs),
    ensures
        0 <= join(gs) < power(65536, gs.len()),
    decreases gs.len(),
{
    if gs.len() > 0 {
        lemma_join_bound(gs.drop_last());
    }
}

/// Every literal of a family denotes an address of that family.
pub proof fn lemma_literal_within(family: Family, s: Seq<char>)
    ensures
        family.literal(s) matches Some(a) ==> a <= family.top(),
{
    if family == Family::V4 {
        let parts = split(s, '.');
        crate::number::lemma_numeral_bound(s, 10);
        if is_dotted(s) && parts.len() == 4 {
            crate::number::lemma_numeral_bound(parts[0], 10);
            crate::number::lemma_numeral_bound(parts[1], 10);
            crate::number::lemma_numeral_bound(parts[2], 10);
            crate::number::lemma_numeral_bound(parts[3], 10);
        }
    }
}

/// The position of the first `::` in `lo..hi`, or `hi`.
pub fn find_gap(chars: &Vec<char>, lo: usize, hi: usize) -> (g: usize)
    requires
        lo <= hi <= chars.len(),
    ensures
        lo <= g <= hi,
        g < hi ==> g + 2 <= hi,
        g - lo == gap(chars@.subrange(lo as int, hi as int)),
{
    let ghost piece = chars@.subrange(lo as int, hi as int);
    let mut g: usize = lo;
    while hi - g >= 2 && !(chars[g] == ':' && chars[g + 1] == ':')
        invariant
            lo <= g <= hi <= chars.len(),
            piece == chars@.subrange(lo as int, hi as int),
            forall|j: int| 0 <= j < g - lo ==> !#[trigger] gap_at(piece, j),
        decreases hi - g,
    {
        g += 1;
    }
    if hi - g < 2 {
        proof {
            lemma_gap(piece, hi - lo);
        }
        hi
    } else {
        proof {
            lemma_gap(piece, g - lo);
        }
        g
    }
}

/// Reads `lo..hi` as a dotted quad.
pub fn read_quad(chars: &Vec<char>, lo: usize, hi: usize) -> (r: Option<(u64, u64, u64, u64)>)
    requires
        lo <= hi <= chars.len(),
    ensures
        match quad(chars@.subrange(lo as int, hi as int)) {
            Some((a, b, c, d)) => r == Some((a as u64, b as u64, c as u64, d as u64)) && 0 <= a
                <= 255 && 0 <= b <= 255 && 0 <= c <= 255 && 0 <= d <= 255,
            None => r is None,
        },
{
    let ranges = split_ranges(chars, lo, hi, '.');
    let ghost parts = split(chars@.subrange(lo as int, hi as int), '.');
    proof {
        lemma_widths();
    }
    if ranges.len() != 4 {
        return None;
    }
    let (a0, b0) = ranges[0];
    let (a1, b1) = ranges[1];
    let (a2, b2) = ranges[2];
    let (a3, b3) = ranges[3];
    proof {
        assert(parts[0] == chars@.subrange(a0 as int, b0 as int));
        assert(parts[1] == chars@.subrange(a1 as int, b1 as int));
        assert(parts[2] == chars@.subrange(a2 as int, b2 as int));
        assert(parts[3] == chars@.subrange(a3 as int, b3 as int));
    }
    let a = read_decimal(chars, a0, b0, 3, 255);
    let b = read_decimal(chars, a1, b1, 3, 255);
    let c = read_decimal(chars, a2, b2, 3, 255);
    let d = read_decimal(chars, a3, b3, 3, 255);
    match (a, b, c, d) {
        (Some(a), Some(b), Some(c), Some(d)) => Some((a, b, c, d)),
        _ => None,
    }
}

/// Reads the groups written in `lo..hi`; with `mixed` set, a last part that
/// holds a dot is read as a dotted quad.
pub fn read_groups(chars: &Vec<char>, lo: usize, hi: usize, mixed: bool) -> (r: Option<Vec<u64>>)
    requires
        lo <= hi <= chars.len(),
    ensures
        match groups(chars@.subrange(lo as int, hi as int), mixed) {
            Some(gs) => r is Some && values(r->0@) == gs && all_groups(gs),
            None => r is None,
        },
{
    let ghost piece = chars@.subrange(lo as int, hi as int);
    let mut out: Vec<u64> = Vec::new();
    if lo == hi {
        proof {
            assert(values(out@) =~= Seq::<int>::empty());
        }
        return Some(out);
    }
    let ranges = split_ranges(chars, lo, hi, ':');
    let ghost parts = split(piece, ':');
    let (la, lb) = ranges[ranges.len() - 1];
    proof {
        lemma_widths();
        assert(parts.len() == ranges.len());
        assert(parts.last() == chars@.subrange(la as int, lb as int));
    }
    let dotted = mixed && find(chars, la, lb, '.') < lb;
    let count = if dotted {
        ranges.len() - 1
    } else {
        ranges.len()
    };
    let ghost plain = if dotted {
        parts.drop_last()
    } else {
        parts
    };
    let mut i: usize = 0;
    while i < count
        invariant
            i <= count <= ranges.len(),
            lo < hi <= chars.len(),
            piece == chars@.subrange(lo as int, hi as int),
            parts == split(piece, ':'),
            dotted == (mixed && is_dotted(parts.last())),
            plain == if dotted {
                parts.drop_last()
            } else {
                parts
            },
            crate::text::ranges_within(ranges@, lo as int, hi as int),
            parts == pieces(chars@, ranges@),
            plain.len() == count,
            forall|j: int| 0 <= j < count ==> plain[j] == parts[j],
            out.len() == i,
            forall|j: int| 0 <= j < i ==> (#[trigger] group(plain[j])) == Some(out[j] as int),
            power(16, 4) == 65536,
        decreases count - i,
    {
        let (a, b) = ranges[i];
        assert(plain[i as int] == chars@.subrange(a as int, b as int));
        match read_numeral(chars, a, b, 16, 4) {
            Some(g) => {
                out.push(g);
            },
            None => {
                proof {
                    assert(group(plain[i as int]) is None);
                    assert(plain_groups(plain) is None);
                }
                return None;
            },
        }
        i += 1;
    }
    let ghost front = plain_groups(plain)->0;
    proof {
        assert(plain_groups(plain) is Some);
        assert(values(out@) =~= front);
        assert forall|j: int| 0 <= j < front.len() implies 0 <= #[trigger] front[j] < 65536 by {
            assert(group(plain[j]) == Some(out[j] as int));
            crate::number::lemma_numeral_bound(plain[j], 16);
            lemma_power_grows(16, plain[j].len(), 4);
        }
    }
    if dotted {
        match read_quad(chars, la, lb) {
            Some((a, b, c, d)) => {
                let ghost before = out@;
                out.push(a * 256 + b);
                out.push(c * 256 + d);
                proof {
                    let gs = front.push(a * 256 + b).push(c * 256 + d);
                    assert(values(out@) =~= gs);
                    assert forall|j: int| 0 <= j < gs.len() implies 0 <= #[trigger] gs[j]
                        < 65536 by {
                        if j < front.len() {
                            assert(gs[j] == front[j]);
                        }
                    }
                }
                Some(out)
            },
            None => None,
        }
    } else {
        Some(out)
    }
}

/// The number whose 16-bit digits are `gs`, most significant first.
pub fn join_groups(gs: &Vec<u64>) -> (r: u128)
    requires
        gs.len() <= 8,
        all_groups(values(gs@)),
    ensures
        r == join(values(gs@)),
{
    let ghost all = values(gs@);
    let mut acc: u128 = 0;
    let mut i: usize = 0;
    while i < gs.len()
        invariant
            i <= gs.len() <= 8,
            all == values(gs@),
            all_groups(all),
            acc == join(all.take(i as int)),
        decreases gs.len() - i,
    {
        proof {
            let next = all.take(i + 1);
            assert(next.drop_last() =~= all.take(i as int));
            assert(next.last() == gs[i as int] as int);
            assert(0 <= all[i as int] < 65536);
            lemma_join_bound(next);
            lemma_power_grows(65536, next.len(), 8);
            lemma_widths();
        }
        acc = acc * 65536 + gs[i] as u128;
        i += 1;
    }
    proof {
        assert(all.take(i as int) =~= all);
    }
    acc
}

/// Reads `lo..hi` as an IPv4 literal.
pub fn read_v4(chars: &Vec<char>, lo: usize, hi: usize) -> (r: Option<u128>)
    requires
        lo <= hi <= chars.len(),
    ensures
        r == v4_literal(chars@.subrange(lo as int, hi as int)),
        r matches Some(a) ==> a <= 0xFFFF_FFFF,
{
    proof {
        lemma_widths();
    }
    if find(chars, lo, hi, '.') < hi {
        match read_quad(chars, lo, hi) {
            Some((a, b, c, d)) => Some((((a * 256 + b) * 256 + c) * 256 + d) as u128),
            None => None,
        }
    } else {
        match read_decimal(chars, lo, hi, 10, 0xFFFF_FFFF) {
            Some(n) => Some(n as u128),
            None => None,
        }
    }
}

/// The eight groups of an address written as `head::tail`: the head, as many
/// groups of zero as are missing, and the tail.
pub fn fill_gap(head: &Vec<u64>, tail: &Vec<u64>) -> (full: Vec<u64>)
    requires
        head.len() + tail.len() <= 7,
    ensures
        values(full@) == values(head@) + zeros(8 - head.len() - tail.len()) + values(tail@),
        full.len() == 8,
{
    let ghost h = values(head@);
    let ghost t = values(tail@);
    let pad: usize = 8 - head.len() - tail.len();
    let mut full: Vec<u64> = Vec::new();
    let mut i: usize = 0;
    while i < head.len()
        invariant
            i <= head.len(),
            full@ == head@.take(i as int),
        decreases head.len() - i,
    {
        full.push(head[i]);
        proof {
            assert(head@.take(i + 1) =~= head@.take(i as int).push(head@[i as int]));
        }
        i += 1;
    }
    proof {
        assert(head@.take(head.len() as int) =~= head@);
        assert(h + zeros(0) =~= h);
    }
    i = 0;
    while i < pad
        invariant
            i <= pad,
            values(full@) == h + zeros(i as int),
            h == values(head@),
            full.len() == head.len() + i,
        decreases pad - i,
    {
        let ghost before = full@;
        full.push(0);
        proof {
            assert(values(full@) =~= values(before).push(0int));
            assert(h + zeros(i + 1) =~= (h + zeros(i as int)).push(0int));
        }
        i += 1;
    }
    proof {
        assert(t.take(0) =~= Seq::<int>::empty());
        assert(h + zeros(pad as int) + t.take(0) =~= h + zeros(pad as int));
    }
    i = 0;
    while i < tail.len()
        invariant
            i <= tail.len(),
            values(full@) == h + zeros(pad as int) + t.take(i as int),
            t == values(tail@),
            full.len() == head.len() + pad + i,
        decreases tail.len() - i,
    {
        let ghost before = full@;
        full.push(tail[i]);
        proof {
            assert(values(full@) =~= values(before).push(tail@[i as int] as int));
            assert(h + zeros(pad as int) + t.take(i + 1) =~= (h + zeros(pad as int) + t.take(
                i as int,
            )).push(t[i as int]));
        }
        i += 1;
    }
    proof {
        assert(t.take(tail.len() as int) =~= t);
    }
    full
}

/// Groups that fit in 16 bits, put around groups of zero, fit in 16 bits.
pub proof fn lemma_filled_groups(h: Seq<int>, pad: int, t: Seq<int>)
    requires
        all_groups(h),
        all_groups(t),
        pad >= 0,
    ensures
        all_groups(h + zeros(pad) + t),
{
    let all = h + zeros(pad) + t;
    assert forall|j: int| 0 <= j < all.len() implies 0 <= #[trigger] all[j] < 65536 by {
        if j < h.len() {
            assert(all[j] == h[j]);
        } else if j < h.len() + pad {
            assert(all[j] == 0);
        } else {
            assert(all[j] == t[j - h.len() - pad]);
        }
    }
}

/// Reads `lo..hi` as an IPv6 literal.
pub fn read_v6(chars: &Vec<char>, lo: usize, hi: usize) -> (r: Option<u128>)
    requires
        lo <= hi <= chars.len(),
    ensures
        r == v6_literal(chars@.subrange(lo as int, hi as int)),
{
    let ghost piece = chars@.subrange(lo as int, hi as int);
    let g = find_gap(chars, lo, hi);
    let full = if g < hi {
        proof {
            assert(piece.take(g - lo) =~= chars@.subrange(lo as int, g as int));
            assert(piece.skip(g - lo + 2) =~= chars@.subrange(g + 2, hi as int));
        }
        let head = match read_groups(chars, lo, g, false) {
            Some(h) => h,
            None => {
                return None;
            },
        };
        let tail = match read_groups(chars, g + 2, hi, true) {
            Some(t) => t,
            None => {
                return None;
            },
        };
        if head.len() > 7 || tail.len() > 7 - head.len() {
            return None;
        }
        proof {
            lemma_filled_groups(values(head@), 8 - head.len() - tail.len(), values(tail@));
        }
        fill_gap(&head, &tail)
    } else {
        let all = match read_groups(chars, lo, hi, true) {
            Some(a) => a,
            None => {
                return None;
            },
        };
        if all.len() != 8 {
            return None;
        }
        all
    };
    proof {
        lemma_join_bound(values(full@));
        lemma_widths();
    }
    Some(join_groups(&full))
}

/// Reads `lo..hi` as a literal of `family`.
pub fn read_address(chars: &Vec<char>, lo: usize, hi: usize, family: Family) -> (r: Option<u128>)
    requires
        lo <= hi <= chars.len(),
    ensures
        r == family.literal(chars@.subrange(lo as int, hi as int)),
        r matches Some(a) ==> a <= family.top(),
{
    match family {
        Family::V4 => read_v4(chars, lo, hi),
        Family::V6 => read_v6(chars, lo, hi),
    }
}

} // verus!
