//! Currency codes: exactly three upper-case letters.

use vstd::prelude::*;

use crate::error::Error;
use crate::text::{chars_of, string_of};

verus! {

/// Whether `c` is one of the letters `A` to `Z`.
pub open spec fn is_upper(c: char) -> bool {
    'A' <= c <= 'Z'
}

/// Whether `s` is a currency code: three upper-case letters.
pub open spec fn is_code(s: Seq<char>) -> bool {
    &&& s.len() == 3
    &&& is_upper(s[0])
    &&& is_upper(s[1])
    &&& is_upper(s[2])
}

/// A currency, named by its three-letter code.
#[derive(Debug, Clone, Copy, PartialEq, Eq, Structural)]
pub struct Currency {
    first: u8,
    second: u8,
    third: u8,
}

impl Currency {
    /// The three letters of the currency.
    pub closed spec fn code(self) -> Seq<char> {
        seq![self.first as char, self.second as char, self.third as char]
    }

    /// Whether the currency names three upper-case letters. This holds of
    /// every currency the program holds; a currency that only a
    /// specification speaks of may lack it.
    #[verifier::type_invariant]
    pub open spec fn valid(self) -> bool {
        is_code(self.code())
    }

    /// The number under which the currency is filed: its letters read as a
    /// numeral in base 256. Currencies are ordered by this number, which is
    /// the alphabetical order of their codes.
    pub closed spec fn key(self) -> u32 {
        (self.first as u32 * 65536 + self.second as u32 * 256 + self.third as u32) as u32
    }

    /// The currency that a code names, if the text is a code.
    pub closed spec fn of_text(s: Seq<char>) -> Option<Currency> {
        if is_code(s) {
            Some(Currency { first: s[0] as u8, second: s[1] as u8, third: s[2] as u8 })
        } else {
            None
        }
    }

    /// The euro.
    pub fn eur() -> (c: Currency)
        ensures
            c.code() == seq!['E', 'U', 'R'],
    {
        let c = Currency { first: 69, second: 85, third: 82 };
        assert(c.code() =~= seq!['E', 'U', 'R']);
        c
    }

    /// The pound sterling.
    pub fn gbp() -> (c: Currency)
        ensures
            c.code() == seq!['G', 'B', 'P'],
    {
        let c = Currency { first: 71, second: 66, third: 80 };
        assert(c.code() =~= seq!['G', 'B', 'P']);
        c
    }

    /// The United States dollar.
    pub fn usd() -> (c: Currency)
        ensures
            c.code() == seq!['U', 'S', 'D'],
    {
        let c = Currency { first: 85, second: 83, third: 68 };
        assert(c.code() =~= seq!['U', 'S', 'D']);
        c
    }

    /// The number under which the currency is filed.
    pub fn filing_key(&self) -> (k: u32)
        ensures
            k == self.key(),
    {
        self.first as u32 * 65536 + self.second as u32 * 256 + self.third as u32
    }

    /// Whether this currency comes before `other` in the alphabetical order
    /// of the codes.
    pub fn precedes(&self, other: &Currency) -> (r: bool)
        ensures
            r == (self.key() < other.key()),
    {
        self.filing_key() < other.filing_key()
    }

    /// The code of the currency.
    pub fn to_string(&self) -> (s: String)
        ensures
            s@ == self.code(),
            is_code(s@),
            Currency::of_text(s@) == Some(*self),
    {
        proof {
            use_type_invariant(self);
            Self::lemma_code_round_trip(*self);
        }
        let mut chars: Vec<char> = Vec::new();
        chars.push(self.first as char);
        chars.push(self.second as char);
        chars.push(self.third as char);
        assert(chars@ =~= self.code());
        string_of(&chars)
    }

    /// Appends the code of the currency to `out`.
    pub fn write_to(&self, out: &mut Vec<char>)
        ensures
            final(out)@ == old(out)@ + self.code(),
            self.valid(),
    {
        proof {
            use_type_invariant(self);
        }
        out.push(self.first as char);
        out.push(self.second as char);
        out.push(self.third as char);
        assert(out@ =~= old(out)@ + self.code());
    }

    /// Reads a currency from the characters of its code.
    pub fn from_chars(chars: &Vec<char>) -> (r: Result<Currency, Error>)
        ensures
            r == match Currency::of_text(chars@) {
                Some(c) => Ok::<Currency, Error>(c),
                None => Err(Error::InvalidEncoding),
            },
            r is Ok <==> is_code(chars@),
            r is Ok ==> r->Ok_0.code() == chars@,
    {
        if chars.len() != 3 {
            return Err(Error::InvalidEncoding);
        }
        let a = chars[0];
        let b = chars[1];
        let c = chars[2];
        if a >= 'A' && a <= 'Z' && b >= 'A' && b <= 'Z' && c >= 'A' && c <= 'Z' {
            let currency = Currency { first: a as u8, second: b as u8, third: c as u8 };
            assert(currency.code() =~= chars@);
            Ok(currency)
        } else {
            Err(Error::InvalidEncoding)
        }
    }

    /// Reads a currency from its code: exactly three upper-case letters.
    /// Any other text is refused as `InvalidEncoding`.
    pub fn from_str(s: &str) -> (r: Result<Currency, Error>)
        ensures
            r == match Currency::of_text(s@) {
                Some(c) => Ok::<Currency, Error>(c),
                None => Err(Error::InvalidEncoding),
            },
            r is Ok <==> is_code(s@),
            r is Ok ==> r->Ok_0.code() == s@,
    {
        let chars = chars_of(s);
        Currency::from_chars(&chars)
    }

    /// Reading the code of a valid currency gives the currency back.
    pub proof fn lemma_code_round_trip(c: Currency)
        requires
            c.valid(),
        ensures
            Currency::of_text(c.code()) == Some(c),
    {
    }

    /// Two currencies with the same code are the same currency, and so are
    /// two that are filed under the same number.
    pub proof fn lemma_same_currency(c: Currency, d: Currency)
        ensures
            c.code() == d.code() ==> c == d,
            c.key() == d.key() ==> c == d,
    {
        if c.code() == d.code() {
            assert(c.code()[0] == d.code()[0]);
            assert(c.code()[1] == d.code()[1]);
            assert(c.code()[2] == d.code()[2]);
        }
    }
}

} // verus!
