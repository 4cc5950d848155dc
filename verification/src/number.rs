//! Numerals: runs of digits in radix ten or sixteen and the numbers they
//! denote.

use vstd::prelude::*;

verus! {

/// The value of `c` as a hexadecimal digit, letters of either case.
pub open spec fn digit_value(c: char) -> Option<int> {
    if '0' <= c && c <= '9' {
        Some(c as int - '0' as int)
    } else if 'a' <= c && c <= 'f' {
        Some(c as int - 'a' as int + 10)
    } else if 'A' <= c && c <= 'F' {
        Some(c as int - 'A' as int + 10)
    } else {
        None
    }
}

/// The value of `c` as a digit of `radix`, if it is one.
pub open spec fn digit(c: char, radix: int) -> Option<int> {
    match digit_value(c) {
        Some(d) => if d < radix {
            Some(d)
        } else {
            None
        },
        None => None,
    }
}

/// Whether `s` holds digits of `radix` only.
pub open spec fn all_digits(s: Seq<char>, radix: int) -> bool {
    forall|i: int| 0 <= i < s.len() ==> (#[trigger] digit(s[i], radix)) is Some
}

/// The number that the digits of `s` denote in `radix`, most significant
/// digit first.
pub open spec fn numeral(s: Seq<char>, radix: int) -> int
    decreases s.len(),
{
    if s.len() == 0 {
        0
    } else {
        numeral(s.drop_last(), radix) * radix + match digit(s.last(), radix) {
            Some(d) => d,
            None => 0,
        }
    }
}

/// `radix` to the power `n`.
pub open spec fn power(radix: int, n: nat) -> int
    decreases n,
{
    if n == 0 {
        1
    } else {
        radix * power(radix, (n - 1) as nat)
    }
}

/// The number that `s` denotes when `s` is one to `max_len` digits of `radix`.
pub open spec fn bounded_numeral(s: Seq<char>, radix: int, max_len: nat) -> Option<int> {
    if 1 <= s.len() <= max_len && all_digits(s, radix) {
        Some(numeral(s, radix))
    } else {
        None
    }
}

/// The number that `s` denotes when `s` is a decimal numeral of at most
/// `max_len` digits, written without a leading zero, that does not exceed
/// `max`.
pub open spec fn decimal(s: Seq<char>, max_len: nat, max: int) -> Option<int> {
    match bounded_numeral(s, 10, max_len) {
        Some(n) => if (s.len() == 1 || s[0] != '0') && n <= max {
            Some(n)
        } else {
            None
        },
        None => None,
    }
}

/// Powers of a positive radix are positive and grow with the exponent.
pub proof fn lemma_power_grows(radix: int, m: nat, n: nat)
    requires
        radix >= 1,
        m <= n,
    ensures
        1 <= power(radix, m) <= power(radix, n),
    decreases n,
{
    if m == 0 {
        if n > 0 {
            lemma_power_grows(radix, 0, (n - 1) as nat);
            assert(power(radix, n) >= power(radix, (n - 1) as nat)) by (nonlinear_arith)
                requires
                    radix >= 1,
                    power(radix, (n - 1) as nat) >= 1,
                    power(radix, n) == radix * power(radix, (n - 1) as nat),
            ;
        }
    } else {
        lemma_power_grows(radix, (m - 1) as nat, (n - 1) as nat);
        assert(radix * power(radix, (m - 1) as nat) <= radix * power(radix, (n - 1) as nat))
            by (nonlinear_arith)
            requires
                radix >= 1,
                power(radix, (m - 1) as nat) <= power(radix, (n - 1) as nat),
        ;
        assert(radix * power(radix, (m - 1) as nat) >= 1) by (nonlinear_arith)
            requires
                radix >= 1,
                power(radix, (m - 1) as nat) >= 1,
        ;
    }
}

/// A numeral of `n` digits lies below the `n`th power of the radix.
pub proof fn lemma_numeral_bound(s: Seq<char>, radix: int)
    requires
        radix >= 1,
    ensures
        0 <= numeral(s, radix) < power(radix, s.len()),
    decreases s.len(),
{
    if s.len() > 0 {
        let t = s.drop_last();
        lemma_numeral_bound(t, radix);
        let d = match digit(s.last(), radix) {
            Some(d) => d,
            None => 0,
        };
        assert(0 <= d < radix);
        assert(0 <= numeral(t, radix) * radix + d < radix * power(radix, t.len()))
            by (nonlinear_arith)
            requires
                0 <= numeral(t, radix) < power(radix, t.len()),
                0 <= d < radix,
        ;
    }
}

/// The value of `c` as a digit of `radix`, if it is one.
pub fn digit_of(c: char, radix: u64) -> (d: Option<u64>)
    requires
        radix <= 16,
    ensures
        match digit(c, radix as int) {
            Some(v) => d is Some && d->0 as int == v && v < radix,
            None => d is None,
        },
{
    let v: u64 = if '0' <= c && c <= '9' {
        (c as u64) - ('0' as u64)
    } else if 'a' <= c && c <= 'f' {
        (c as u64) - ('a' as u64) + 10
    } else if 'A' <= c && c <= 'F' {
        (c as u64) - ('A' as u64) + 10
    } else {
        return None;
    };
    if v < radix {
        Some(v)
    } else {
        None
    }
}

/// Reads `lo..hi` as a numeral of one to `max_len` digits of `radix`.
pub fn read_numeral(chars: &Vec<char>, lo: usize, hi: usize, radix: u64, max_len: usize) -> (r:
    Option<u64>)
    requires
        lo <= hi <= chars.len(),
        1 <= radix <= 16,
        power(radix as int, max_len as nat) <= u64::MAX,
    ensures
        match bounded_numeral(chars@.subrange(lo as int, hi as int), radix as int, max_len as nat) {
            Some(n) => r is Some && r->0 as int == n,
            None => r is None,
        },
{
    let ghost piece = chars@.subrange(lo as int, hi as int);
    if hi == lo || hi - lo > max_len {
        return None;
    }
    let mut acc: u64 = 0;
    let mut i: usize = lo;
    while i < hi
        invariant
            lo <= i <= hi <= chars.len(),
            hi - lo <= max_len,
            1 <= radix <= 16,
            power(radix as int, max_len as nat) <= u64::MAX,
            piece == chars@.subrange(lo as int, hi as int),
            all_digits(piece.take(i - lo), radix as int),
            acc == numeral(piece.take(i - lo), radix as int),
        decreases hi - i,
    {
        let ghost before = piece.take(i - lo);
        let ghost after = piece.take(i - lo + 1);
        proof {
            assert(after.drop_last() =~= before);
            assert(after.last() == chars@[i as int]);
            lemma_numeral_bound(after, radix as int);
            lemma_power_grows(radix as int, after.len(), max_len as nat);
        }
        match digit_of(chars[i], radix) {
            Some(d) => {
                acc = acc * radix + d;
            },
            None => {
                proof {
                    assert(digit(piece[i - lo], radix as int) is None);
                }
                return None;
            },
        }
        proof {
            assert forall|j: int| 0 <= j < after.len() implies (#[trigger] digit(
                after[j],
                radix as int,
            )) is Some by {
                if j < before.len() {
                    assert(after[j] == before[j]);
                }
            }
        }
        i += 1;
    }
    proof {
        assert(piece.take(i - lo) =~= piece);
        lemma_numeral_bound(piece, radix as int);
        lemma_power_grows(radix as int, piece.len(), max_len as nat);
    }
    Some(acc)
}

/// Reads `lo..hi` as a decimal numeral of at most `max_len` digits, without a
/// leading zero, that does not exceed `max`.
pub fn read_decimal(chars: &Vec<char>, lo: usize, hi: usize, max_len: usize, max: u64) -> (r:
    Option<u64>)
    requires
        lo <= hi <= chars.len(),
        power(10, max_len as nat) <= u64::MAX,
    ensures
        match decimal(chars@.subrange(lo as int, hi as int), max_len as nat, max as int) {
            Some(n) => r is Some && r->0 as int == n,
            None => r is None,
        },
{
    match read_numeral(chars, lo, hi, 10, max_len) {
        Some(n) => {
            assert(chars@.subrange(lo as int, hi as int)[0] == chars@[lo as int]);
            if (hi - lo == 1 || chars[lo] != '0') && n <= max {
                Some(n)
            } else {
                None
            }
        },
        None => None,
    }
}

} // verus!
