//! Amounts of money: a whole number of minor units (cents) in one currency,
//! written as `<integer>[.<2 digits>] <CCC>`.

use vstd::prelude::*;

use crate::currency::Currency;
use crate::error::Error;
use crate::text::{
    all_digits, chars_of, char_of_digit, decimal, digit_char, digit_value, digits_part,
    digits_value, find_char, first_index, is_digit, is_first, is_integer_text, is_negative_text,
    lemma_decimal_value, lemma_digit_char, lemma_first_index, parse_digits, push_decimal, signed,
    slice_of, string_of,
};

verus! {

/// An amount of money: a number of minor units and their currency.
#[derive(Debug, Clone, Copy, PartialEq, Eq, Structural)]
pub struct Amount(pub i32, pub Currency);

/// The number of minor units that a text denotes: an integer counts major
/// units, and an integer followed by a point and exactly two digits counts
/// major units and minor units. The sign in front applies to the whole.
pub open spec fn minor_units(s: Seq<char>) -> Option<int> {
    if is_integer_text(s) {
        Some(signed(is_negative_text(s), (digits_value(digits_part(s)) * 100) as int))
    } else if s.contains('.') {
        let dot = first_index(s, '.');
        let whole = s.take(dot);
        let cents = s.skip(dot + 1);
        if is_integer_text(whole) && cents.len() == 2 && all_digits(cents) {
            Some(
                signed(
                    is_negative_text(whole),
                    (digits_value(digits_part(whole)) * 100 + digits_value(cents)) as int,
                ),
            )
        } else {
            None
        }
    } else {
        None
    }
}

/// The minor units that a text denotes, if it denotes any and they fit the
/// range of an amount.
pub open spec fn num_of_text(s: Seq<char>) -> Option<i32> {
    match minor_units(s) {
        Some(v) => if i32::MIN <= v <= i32::MAX {
            Some(v as i32)
        } else {
            None
        },
        None => None,
    }
}

/// The text of a number of minor units: the major units, then a point and
/// the two digits of the minor units unless these are zero, with a minus sign
/// in front of a negative number.
pub open spec fn number_text(v: int) -> Seq<char> {
    let m = if v < 0 {
        -v
    } else {
        v
    };
    let sign = if v < 0 {
        seq!['-']
    } else {
        Seq::<char>::empty()
    };
    let cents = if m % 100 != 0 {
        seq!['.', digit_char(m % 100 / 10), digit_char(m % 10)]
    } else {
        Seq::<char>::empty()
    };
    sign + decimal((m / 100) as nat) + cents
}

/// What the sign and numeral of a number look like as a text.
proof fn lemma_signed_numeral(negative: bool, n: nat)
    ensures
        ({
            let t = (if negative {
                seq!['-']
            } else {
                Seq::<char>::empty()
            }) + decimal(n);
            &&& is_integer_text(t)
            &&& is_negative_text(t) == negative
            &&& digits_part(t) == decimal(n)
            &&& forall|i: int| 0 <= i < t.len() ==> #[trigger] t[i] != '.' && t[i] != ' '
        }),
{
    lemma_decimal_value(n);
    let d = decimal(n);
    let t = (if negative {
        seq!['-']
    } else {
        Seq::<char>::empty()
    }) + d;
    assert(is_digit(d[0]));
    if negative {
        assert(t[0] == '-');
        assert(t.skip(1) =~= d);
    } else {
        assert(t =~= d);
    }
    assert forall|i: int| 0 <= i < t.len() implies #[trigger] t[i] != '.' && t[i] != ' ' by {
        if negative {
            if i > 0 {
                assert(t[i] == d[i - 1]);
                assert(is_digit(d[i - 1]));
            }
        } else {
            assert(is_digit(d[i]));
        }
    }
}

/// The text of a number holds no space.
pub proof fn lemma_number_text_no_space(v: int)
    ensures
        forall|i: int| 0 <= i < number_text(v).len() ==> #[trigger] number_text(v)[i] != ' ',
{
    let m = if v < 0 {
        -v
    } else {
        v
    };
    let w = (m / 100) as nat;
    lemma_signed_numeral(v < 0, w);
    let head = (if v < 0 {
        seq!['-']
    } else {
        Seq::<char>::empty()
    }) + decimal(w);
    let t = number_text(v);
    lemma_digit_char(m % 100 / 10);
    lemma_digit_char(m % 10);
    assert forall|i: int| 0 <= i < t.len() implies #[trigger] t[i] != ' ' by {
        if i < head.len() {
            assert(t[i] == head[i]);
        }
    }
}

/// The text of a number of minor units denotes that number.
pub proof fn lemma_number_text_parses(v: int)
    ensures
        minor_units(number_text(v)) == Some(v),
{
    let m = if v < 0 {
        -v
    } else {
        v
    };
    let w = (m / 100) as nat;
    let c = m % 100;
    lemma_signed_numeral(v < 0, w);
    lemma_decimal_value(w);
    let head = (if v < 0 {
        seq!['-']
    } else {
        Seq::<char>::empty()
    }) + decimal(w);
    let t = number_text(v);
    if c == 0 {
        assert(t =~= head);
    } else {
        let d1 = digit_char(c / 10);
        let d2 = digit_char(c % 10);
        lemma_digit_char(c / 10);
        lemma_digit_char(c % 10);
        let tail = seq!['.', d1, d2];
        assert(t =~= head + tail);
        let k = head.len() as int;
        assert(t[k] == '.');
        assert forall|j: int| 0 <= j < k implies t[j] != '.' by {
            assert(t[j] == head[j]);
        }
        assert(is_first(t, '.', k));
        lemma_first_index(t, '.', k);
        assert(t.take(k) =~= head);
        let cents = t.skip(k + 1);
        assert(cents =~= seq![d1, d2]);
        assert(cents.drop_last() =~= seq![d1]);
        assert(cents.drop_last().drop_last() =~= Seq::<char>::empty());
        assert(digits_value(cents.drop_last().drop_last()) == 0);
        assert(digits_value(cents.drop_last()) == c / 10);
        assert(digits_value(cents) == c);
        assert(all_digits(cents));
        // the whole text is no integer: its digits hold the point
        let dp = digits_part(t);
        if v < 0 {
            assert(t[0] == '-');
            assert(dp[k - 1] == t[k]);
        } else {
            assert(t[0] == head[0]);
            assert(is_digit(decimal(w)[0]));
            assert(dp[k] == t[k]);
        }
        assert(!all_digits(dp));
    }
}

impl Amount {
    /// The text of the amount: its number, a space, its currency.
    pub open spec fn text(self) -> Seq<char> {
        number_text(self.0 as int) + seq![' '] + self.1.code()
    }

    /// The amount that a text denotes: what stands before the first space
    /// is its number, what follows is its currency.
    pub open spec fn of_text(s: Seq<char>) -> Option<Amount> {
        if s.contains(' ') {
            let space = first_index(s, ' ');
            match (num_of_text(s.take(space)), Currency::of_text(s.skip(space + 1))) {
                (Some(n), Some(c)) => Some(Amount(n, c)),
                _ => None,
            }
        } else {
            None
        }
    }

    /// Reads a number of minor units: `"12"` is 1200, `"12.34"` is 1234.
    /// A text of another form, or a number beyond the range of an amount,
    /// gives nothing.
    pub fn parse_num(s: &str) -> (r: Option<i32>)
        ensures
            r == num_of_text(s@),
    {
        let chars = chars_of(s);
        Amount::parse_num_chars(&chars)
    }

    /// `parse_num` on the characters of the text.
    pub fn parse_num_chars(v: &Vec<char>) -> (r: Option<i32>)
        ensures
            r == num_of_text(v@),
    {
        let n = v.len();
        let ghost s = v@;
        let signed_text = n > 0 && (v[0] == '+' || v[0] == '-');
        let negative = n > 0 && v[0] == '-';
        let start: usize = if signed_text {
            1
        } else {
            0
        };
        proof {
            assert(digits_part(s) =~= s.subrange(start as int, n as int));
        }
        match find_char(v, '.') {
            None => {
                match parse_digits(v, start, n, 21474836) {
                    Some(m) => {
                        let value: i64 = if negative {
                            -((m * 100) as i64)
                        } else {
                            (m * 100) as i64
                        };
                        if value >= -2147483648 && value <= 2147483647 {
                            Some(value as i32)
                        } else {
                            None
                        }
                    },
                    None => None,
                }
            },
            Some(dot) => {
                let ghost whole = s.take(dot as int);
                let ghost cents = s.skip(dot + 1);
                proof {
                    // a text with a point is no integer
                    if dot >= start {
                        assert(digits_part(s)[dot - start] == s[dot as int]);
                    }
                    assert(!is_integer_text(s));
                    assert(cents =~= s.subrange(dot + 1, n as int));
                    if dot >= start {
                        assert(digits_part(whole) =~= s.subrange(start as int, dot as int));
                        if dot > 0 {
                            assert(whole[0] == s[0]);
                        }
                    } else {
                        assert(whole.len() == 0);
                    }
                }
                if dot < start || n - dot - 1 != 2 {
                    return None;
                }
                match parse_digits(v, start, dot, 21474836) {
                    Some(m) => {
                        match parse_digits(v, dot + 1, n, 99) {
                            Some(c) => {
                                let magnitude: i64 = (m * 100 + c) as i64;
                                let value: i64 = if negative {
                                    -magnitude
                                } else {
                                    magnitude
                                };
                                proof {
                                    assert(negative == is_negative_text(whole));
                                }
                                if value >= -2147483648 && value <= 2147483647 {
                                    Some(value as i32)
                                } else {
                                    None
                                }
                            },
                            None => {
                                proof {
                                    if all_digits(cents) {
                                        lemma_two_digits(cents);
                                    }
                                }
                                None
                            },
                        }
                    },
                    None => None,
                }
            },
        }
    }

    /// The text of the amount.
    pub fn to_string(&self) -> (text: String)
        ensures
            text@ == self.text(),
            Amount::of_text(text@) == Some(*self),
    {
        let mut out: Vec<char> = Vec::new();
        self.write_to(&mut out);
        proof {
            Amount::lemma_display_parses(*self);
        }
        string_of(&out)
    }

    /// Appends the text of the amount to `out`.
    pub fn write_to(&self, out: &mut Vec<char>)
        ensures
            final(out)@ == old(out)@ + self.text(),
            self.1.valid(),
    {
        let v: i64 = self.0 as i64;
        let m: u64 = if v < 0 {
            (-v) as u64
        } else {
            v as u64
        };
        let ghost before = out@;
        if v < 0 {
            out.push('-');
        }
        push_decimal(out, m / 100);
        if m % 100 != 0 {
            out.push('.');
            out.push(char_of_digit((m % 100 / 10) as u8));
            out.push(char_of_digit((m % 10) as u8));
        }
        assert(out@ =~= before + number_text(self.0 as int));
        out.push(' ');
        self.1.write_to(out);
        assert(out@ =~= before + self.text());
    }

    /// Reads an amount from its text, `"<integer>[.<2 digits>] <CCC>"`.
    /// Any other text is refused as `InvalidEncoding`.
    pub fn from_str(s: &str) -> (r: Result<Amount, Error>)
        ensures
            r == match Amount::of_text(s@) {
                Some(a) => Ok::<Amount, Error>(a),
                None => Err(Error::InvalidEncoding),
            },
    {
        let chars = chars_of(s);
        match find_char(&chars, ' ') {
            None => Err(Error::InvalidEncoding),
            Some(space) => {
                let number = slice_of(&chars, 0, space);
                let code = slice_of(&chars, space + 1, chars.len());
                proof {
                    assert(number@ =~= s@.take(space as int));
                    assert(code@ =~= s@.skip(space + 1));
                }
                match Amount::parse_num_chars(&number) {
                    None => Err(Error::InvalidEncoding),
                    Some(n) => match Currency::from_chars(&code) {
                        Ok(c) => Ok(Amount(n, c)),
                        Err(_) => Err(Error::InvalidEncoding),
                    },
                }
            },
        }
    }

    /// The amount with the opposite sign. The least number of minor units
    /// has no opposite.
    pub fn neg(self) -> (r: Amount)
        requires
            self.0 > i32::MIN,
        ensures
            r == Amount((-self.0) as i32, self.1),
    {
        Amount(-self.0, self.1)
    }

    /// The amount with the opposite sign, if it has one.
    pub fn checked_neg(self) -> (r: Option<Amount>)
        ensures
            r == (if self.0 > i32::MIN {
                Some(Amount((-self.0) as i32, self.1))
            } else {
                None
            }),
    {
        if self.0 > i32::MIN {
            Some(Amount(-self.0, self.1))
        } else {
            None
        }
    }

    /// The amount with `rhs` minor units more.
    pub fn add(self, rhs: i32) -> (r: Amount)
        requires
            i32::MIN <= self.0 + rhs <= i32::MAX,
        ensures
            r == Amount((self.0 + rhs) as i32, self.1),
    {
        Amount(self.0 + rhs, self.1)
    }

    /// Reading the text of an amount gives the amount back.
    pub proof fn lemma_display_parses(a: Amount)
        requires
            a.1.valid(),
        ensures
            Amount::of_text(a.text()) == Some(a),
    {
        let number = number_text(a.0 as int);
        let t = a.text();
        let k = number.len() as int;
        lemma_number_text_no_space(a.0 as int);
        lemma_number_text_parses(a.0 as int);
        Currency::lemma_code_round_trip(a.1);
        assert(t[k] == ' ');
        assert forall|j: int| 0 <= j < k implies t[j] != ' ' by {
            assert(t[j] == number[j]);
        }
        assert(is_first(t, ' ', k));
        lemma_first_index(t, ' ', k);
        assert(t.take(k) =~= number);
        assert(t.skip(k + 1) =~= a.1.code());
    }
}

/// Two digits denote a number below one hundred.
proof fn lemma_two_digits(s: Seq<char>)
    requires
        s.len() == 2,
        all_digits(s),
    ensures
        digits_value(s) <= 99,
{
    assert(is_digit(s[0]));
    assert(is_digit(s[1]));
    assert(s.drop_last().drop_last() =~= Seq::<char>::empty());
    assert(digits_value(s.drop_last().drop_last()) == 0);
    assert(s.drop_last().last() == s[0]);
    assert(digits_value(s.drop_last()) == digit_value(s[0]));
}

} // verus!
