//! Country codes.

use vstd::prelude::*;
use crate::text::chars_of;

verus! {

/// A country code: two capital letters of the Latin alphabet, or `??` for
/// addresses that no country can be assigned to.
///
/// The fields are open, so a value is not valid by construction; `wf` says
/// when it is. Every code that this crate reads from text is valid.
#[derive(Clone, Copy, PartialEq, Eq, Structural, Debug, Hash)]
pub struct CountryCode {
    pub first: char,
    pub second: char,
}

/// Whether `c` is one of `A` to `Z`.
pub open spec fn is_capital(c: char) -> bool {
    'A' <= c && c <= 'Z'
}

impl CountryCode {
    /// Two capital letters, or the code of the unassigned.
    pub open spec fn wf(self) -> bool {
        (is_capital(self.first) && is_capital(self.second)) || self == Self::unassigned()
    }

    /// The code `??`.
    pub open spec fn unassigned() -> CountryCode {
        CountryCode { first: '?', second: '?' }
    }

    /// The two characters of the code.
    pub open spec fn text(self) -> Seq<char> {
        seq![self.first, self.second]
    }

    /// The code that `s` spells, if it spells one.
    pub open spec fn from_text(s: Seq<char>) -> Option<CountryCode> {
        if s.len() == 2 && (CountryCode { first: s[0], second: s[1] }).wf() {
            Some(CountryCode { first: s[0], second: s[1] })
        } else {
            None
        }
    }

    /// The code for addresses that no country can be assigned to, `??`.
    pub fn unknown() -> (c: CountryCode)
        ensures
            c == Self::unassigned(),
            c.wf(),
    {
        CountryCode { first: '?', second: '?' }
    }

    /// Whether this is the code `??`.
    pub fn is_unknown(&self) -> (b: bool)
        ensures
            b == (*self == Self::unassigned()),
    {
        self.first == '?' && self.second == '?'
    }

    /// Whether the code is valid.
    pub fn is_valid(&self) -> (b: bool)
        ensures
            b == self.wf(),
    {
        (is_capital_letter(self.first) && is_capital_letter(self.second)) || (self.first == '?'
            && self.second == '?')
    }

    /// Reads a code from its text.
    pub fn parse(text: &str) -> (r: Option<CountryCode>)
        ensures
            r == Self::from_text(text@),
            r matches Some(c) ==> c.wf() && c.text() == text@,
    {
        let chars = chars_of(text);
        proof {
            assert(chars@.subrange(0, chars.len() as int) =~= text@);
        }
        let r = read_code(&chars, 0, chars.len());
        proof {
            if let Some(c) = r {
                assert(c.text() =~= text@);
            }
        }
        r
    }
}

/// Whether `c` is one of `A` to `Z`.
pub fn is_capital_letter(c: char) -> (b: bool)
    ensures
        b == is_capital(c),
{
    'A' <= c && c <= 'Z'
}

/// Reads `lo..hi` as a country code.
pub fn read_code(chars: &Vec<char>, lo: usize, hi: usize) -> (r: Option<CountryCode>)
    requires
        lo <= hi <= chars.len(),
    ensures
        r == CountryCode::from_text(chars@.subrange(lo as int, hi as int)),
        r matches Some(c) ==> c.wf(),
{
    if hi - lo != 2 {
        return None;
    }
    let code = CountryCode { first: chars[lo], second: chars[lo + 1] };
    if code.is_valid() {
        Some(code)
    } else {
        None
    }
}

} // verus!
