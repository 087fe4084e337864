//! Balances in several currencies: at most one amount per currency.

use std::collections::BTreeMap;
use vstd::prelude::*;
use vstd::std_specs::iter::IteratorSpec;

use crate::amount::Amount;
use crate::currency::Currency;
use crate::text::{join, joined, string_of, views};

verus! {

/// The sum of the minor units of those amounts in `amounts` that are in
/// currency `c`.
pub open spec fn total(amounts: Seq<Amount>, c: Currency) -> int
    decreases amounts.len(),
{
    if amounts.len() == 0 {
        0
    } else {
        total(amounts.drop_last(), c) + (if amounts.last().1 == c {
            amounts.last().0 as int
        } else {
            0
        })
    }
}

/// Whether some amount in `amounts` is in currency `c`.
pub open spec fn mentions(amounts: Seq<Amount>, c: Currency) -> bool {
    exists|i: int| 0 <= i < amounts.len() && (#[trigger] amounts[i]).1 == c
}

/// The minor units that a sheet holds in currency `c`: zero where it has no
/// entry.
pub open spec fn held(sheet: Map<Currency, i32>, c: Currency) -> int {
    if sheet.contains_key(c) {
        sheet[c] as int
    } else {
        0
    }
}

/// The sheet after `amount` was added to the entry of its currency, which is
/// created at zero if there was none. There is no such sheet if the sum does
/// not fit an amount.
pub open spec fn credit(sheet: Map<Currency, i32>, amount: Amount) -> Option<Map<Currency, i32>> {
    let sum = held(sheet, amount.1) + amount.0;
    if i32::MIN <= sum <= i32::MAX {
        Some(sheet.insert(amount.1, sum as i32))
    } else {
        None
    }
}

/// The sheet after each of `amounts` was added in turn, if every sum on the
/// way fits an amount.
pub open spec fn credit_all(sheet: Map<Currency, i32>, amounts: Seq<Amount>) -> Option<
    Map<Currency, i32>,
>
    decreases amounts.len(),
{
    if amounts.len() == 0 {
        Some(sheet)
    } else {
        match credit_all(sheet, amounts.drop_last()) {
            Some(s) => credit(s, amounts.last()),
            None => None,
        }
    }
}

/// Whether `c` is the first currency, in alphabetical order, in which the
/// sheet holds less than nothing.
pub open spec fn first_negative_in(sheet: Map<Currency, i32>, c: Currency) -> bool {
    &&& sheet.contains_key(c)
    &&& sheet[c] < 0
    &&& forall|d: Currency| #[trigger] sheet.contains_key(d) && sheet[d] < 0 ==> c.key() <= d.key()
}

/// Whether no entry of the sheet is below zero.
pub open spec fn sheet_non_negative(sheet: Map<Currency, i32>) -> bool {
    forall|c: Currency| #[trigger] sheet.contains_key(c) ==> sheet[c] >= 0
}

/// Whether `values` lists the entries of a sheet, each once, in the
/// alphabetical order of their currencies.
pub open spec fn sheet_lists(sheet: Map<Currency, i32>, values: Seq<Amount>) -> bool {
    &&& forall|i: int|
        0 <= i < values.len() ==> sheet.contains_key((#[trigger] values[i]).1) && sheet[values[i].1]
            == values[i].0
    &&& forall|c: Currency| #[trigger] sheet.contains_key(c) ==> values.contains(Amount(sheet[c], c))
    &&& forall|i: int, j: int|
        0 <= i < j < values.len() ==> (#[trigger] values[i]).1.key() < (#[trigger] values[j]).1.key()
}

/// The entries of a sheet, in the alphabetical order of their currencies.
pub open spec fn listing(sheet: Map<Currency, i32>) -> Seq<Amount> {
    choose|values: Seq<Amount>| sheet_lists(sheet, values)
}

/// The text of a sheet: the text of each entry, in the alphabetical order
/// of the currencies, with a comma and a space between each two.
pub open spec fn sheet_text(sheet: Map<Currency, i32>) -> Seq<char> {
    joined(texts(listing(sheet)), ", "@)
}

/// A sheet has one listing.
pub proof fn lemma_listing(sheet: Map<Currency, i32>, values: Seq<Amount>)
    requires
        sheet_lists(sheet, values),
    ensures
        listing(sheet) == values,
{
    let other = listing(sheet);
    let key = |a: Amount| a.1.key() as int;
    assert(sheet_lists(sheet, other));
    assert forall|x: int| 0 <= x < values.len() implies other.contains(#[trigger] values[x]) by {
        assert(sheet.contains_key(values[x].1));
    }
    assert forall|x: int| 0 <= x < other.len() implies values.contains(#[trigger] other[x]) by {
        assert(sheet.contains_key(other[x].1));
    }
    crate::order::lemma_rising_unique(other, values, key);
}

/// The texts of the given amounts, in order.
pub open spec fn texts(amounts: Seq<Amount>) -> Seq<Seq<char>> {
    amounts.map_values(|a: Amount| a.text())
}

/// After a run of additions each currency holds what it held before and
/// the total of what was added in it, and the currencies with an entry are
/// those that had one and those that were added to.
pub proof fn lemma_credit_all(sheet: Map<Currency, i32>, amounts: Seq<Amount>)
    requires
        credit_all(sheet, amounts) is Some,
    ensures
        forall|c: Currency|
            held(credit_all(sheet, amounts)->0, c) == held(sheet, c) + #[trigger] total(amounts, c),
        forall|c: Currency| #[trigger]
            credit_all(sheet, amounts)->0.contains_key(c) <==> sheet.contains_key(c) || mentions(
                amounts,
                c,
            ),
    decreases amounts.len(),
{
    if amounts.len() > 0 {
        let front = amounts.drop_last();
        let last = amounts.last();
        lemma_credit_all(sheet, front);
        let mid = credit_all(sheet, front)->0;
        let end = credit_all(sheet, amounts)->0;
        assert forall|c: Currency| held(end, c) == held(sheet, c) + #[trigger] total(
            amounts,
            c,
        ) by {
            assert(held(mid, c) == held(sheet, c) + total(front, c));
        }
        assert forall|c: Currency| #[trigger]
            end.contains_key(c) <==> sheet.contains_key(c) || mentions(amounts, c) by {
            assert(mid.contains_key(c) <==> sheet.contains_key(c) || mentions(front, c));
            if mentions(front, c) {
                let i = choose|i: int| 0 <= i < front.len() && (#[trigger] front[i]).1 == c;
                assert(amounts[i].1 == c);
            }
            if last.1 == c {
                assert(amounts[amounts.len() - 1].1 == c);
            }
            if mentions(amounts, c) {
                let i = choose|i: int| 0 <= i < amounts.len() && (#[trigger] amounts[i]).1 == c;
                if i < front.len() {
                    assert(front[i].1 == c);
                }
            }
        }
    }
}

/// A run of additions that fails on a prefix fails on the whole.
pub proof fn lemma_credit_all_prefix(sheet: Map<Currency, i32>, amounts: Seq<Amount>, k: int)
    requires
        0 <= k <= amounts.len(),
        credit_all(sheet, amounts.take(k)) is None,
    ensures
        credit_all(sheet, amounts) is None,
    decreases amounts.len() - k,
{
    if k == amounts.len() {
        assert(amounts.take(k) =~= amounts);
    } else {
        let next = amounts.take(k + 1);
        assert(next.drop_last() =~= amounts.take(k));
        lemma_credit_all_prefix(sheet, amounts, k + 1);
    }
}

/// A mapping from currency to amount, with at most one entry per currency.
/// Nothing here keeps an entry from being negative: that is a rule of
/// accounts.
#[derive(Debug, PartialEq, Eq)]
pub struct Amounts {
    entries: BTreeMap<u32, Amount>,
}

impl View for Amounts {
    type V = Map<Currency, i32>;

    /// The minor units held in each currency that has an entry.
    closed spec fn view(&self) -> Map<Currency, i32> {
        Map::new(
            |c: Currency|
                self.entries@.contains_key(c.key()) && self.entries@[c.key()].1 == c,
            |c: Currency| self.entries@[c.key()].0,
        )
    }
}

impl Clone for Amounts {
    fn clone(&self) -> (r: Self)
        ensures
            r@ == self@,
    {
        proof {
            use_type_invariant(self);
        }
        let r = Amounts { entries: self.entries.clone() };
        assert(r@ =~= self@);
        r
    }
}

impl Default for Amounts {
    fn default() -> (r: Self)
        ensures
            r@ == Map::<Currency, i32>::empty(),
    {
        Amounts::new()
    }
}

impl Amounts {
    /// Each entry is filed under the number of its own currency.
    #[verifier::type_invariant]
    closed spec fn well_formed(self) -> bool {
        forall|k: u32| #[trigger]
            self.entries@.contains_key(k) ==> self.entries@[k].1.key() == k
    }

    /// The minor units held in currency `c`: zero where there is no entry.
    pub open spec fn balance(&self, c: Currency) -> int {
        if self@.contains_key(c) {
            self@[c] as int
        } else {
            0
        }
    }

    /// Balances without any entry.
    pub fn new() -> (r: Self)
        ensures
            r@ == Map::<Currency, i32>::empty(),
    {
        let r = Amounts { entries: BTreeMap::new() };
        assert(r@ =~= Map::<Currency, i32>::empty());
        r
    }

    /// The entry of currency `c`, if there is one.
    pub fn get(&self, c: Currency) -> (r: Option<Amount>)
        ensures
            r == (if self@.contains_key(c) {
                Some(Amount(self@[c], c))
            } else {
                None
            }),
    {
        proof {
            use_type_invariant(self);
        }
        let k = c.filing_key();
        match self.entries.get(&k) {
            Some(a) => {
                proof {
                    Currency::lemma_same_currency(a.1, c);
                }
                Some(*a)
            },
            None => None,
        }
    }

    /// Adds `amount` to the entry of its currency, which is created at zero
    /// if there was none.
    pub fn add_assign(&mut self, amount: Amount)
        requires
            i32::MIN <= old(self).balance(amount.1) + amount.0 <= i32::MAX,
        ensures
            final(self)@ == old(self)@.insert(
                amount.1,
                (old(self).balance(amount.1) + amount.0) as i32,
            ),
    {
        proof {
            use_type_invariant(&*self);
        }
        let k = amount.1.filing_key();
        let present: i32 = match self.entries.get(&k) {
            Some(a) => {
                proof {
                    Currency::lemma_same_currency(a.1, amount.1);
                }
                a.0
            },
            None => 0,
        };
        let mut entries: BTreeMap<u32, Amount> = BTreeMap::new();
        std::mem::swap(&mut self.entries, &mut entries);
        entries.insert(k, Amount(present + amount.0, amount.1));
        std::mem::swap(&mut self.entries, &mut entries);
        proof {
            assert forall|c: Currency| #[trigger] self@.contains_key(c) == old(self)@.insert(
                amount.1,
                (old(self).balance(amount.1) + amount.0) as i32,
            ).contains_key(c) by {
                Currency::lemma_same_currency(c, amount.1);
            }
            assert forall|c: Currency| #[trigger] self@.contains_key(c) implies self@[c] == old(
                self,
            )@.insert(amount.1, (old(self).balance(amount.1) + amount.0) as i32)[c] by {
                Currency::lemma_same_currency(c, amount.1);
            }
            assert(self@ =~= old(self)@.insert(
                amount.1,
                (old(self).balance(amount.1) + amount.0) as i32,
            ));
        }
    }

    /// Adds `amount` as `add_assign` does, if the sum fits an amount.
    /// Otherwise nothing changes and the answer is `false`.
    pub fn checked_add_assign(&mut self, amount: Amount) -> (done: bool)
        ensures
            done == (i32::MIN <= old(self).balance(amount.1) + amount.0 <= i32::MAX),
            done ==> final(self)@ == old(self)@.insert(
                amount.1,
                (old(self).balance(amount.1) + amount.0) as i32,
            ),
            !done ==> final(self)@ == old(self)@,
    {
        let present: i32 = match self.get(amount.1) {
            Some(a) => a.0,
            None => 0,
        };
        let sum: i64 = present as i64 + amount.0 as i64;
        if sum >= -2147483648 && sum <= 2147483647 {
            self.add_assign(amount);
            true
        } else {
            false
        }
    }
    /// The entries, in the alphabetical order of their currencies.
    pub fn values(&self) -> (r: Vec<Amount>)
        ensures
            sheet_lists(self@, r@),
            r@ == listing(self@),
            r@.len() == self@.dom().len(),
            forall|i: int| 0 <= i < r@.len() ==> (#[trigger] r@[i]).1.valid(),
    {
        proof {
            use_type_invariant(self);
        }
        let mut out: Vec<Amount> = Vec::new();
        let entries = self.entries.iter();
        let ghost all = entries.remaining();
        let ghost keys = all.map_values(|kv: (&u32, &Amount)| *kv.0);
        proof {
            crate::order::lemma_rising_u32(keys);
            assert forall|i: int, j: int| 0 <= i < j < all.len() implies *(#[trigger] all[i]).0 < *(
            #[trigger] all[j]).0 by {
                assert(keys[i] == *all[i].0);
                assert(keys[j] == *all[j].0);
            }
        }
        for kv in it: entries
            invariant
                it.seq() == all,
                out@.len() == it.index(),
                forall|i: int| 0 <= i < out@.len() ==> #[trigger] out@[i] == *all[i].1,
                forall|i: int| 0 <= i < out@.len() ==> (#[trigger] out@[i]).1.valid(),
                forall|i: int, j: int|
                    0 <= i < j < all.len() ==> *(#[trigger] all[i]).0 < *(#[trigger] all[j]).0,
        {
            let a: Amount = *kv.1;
            proof {
                use_type_invariant(&a.1);
            }
            out.push(a);
        }
        proof {
            assert forall|i: int| 0 <= i < out@.len() implies self@.contains_key(
                (#[trigger] out@[i]).1,
            ) && self@[out@[i].1] == out@[i].0 by {
                assert(self.entries@.contains_key(*all[i].0));
                assert(self.entries@[*all[i].0] == *all[i].1);
            }
            assert forall|c: Currency| #[trigger] self@.contains_key(c) implies out@.contains(
                Amount(self@[c], c),
            ) by {
                let k = c.key();
                assert(all.contains((&k, &self.entries@[k])));
                let i = choose|i: int| 0 <= i < all.len() && all[i] == (&k, &self.entries@[k]);
                assert(out@[i] == Amount(self@[c], c));
            }
            assert forall|i: int, j: int| 0 <= i < j < out@.len() implies (#[trigger] out@[i]).1.key()
                < (#[trigger] out@[j]).1.key() by {
                assert(self.entries@.contains_key(*all[i].0));
                assert(self.entries@.contains_key(*all[j].0));
                assert(*all[i].0 < *all[j].0);
            }
            self.lemma_dom_len();
            lemma_listing(self@, out@);
        }
        out
    }

    /// The first currency, in alphabetical order, whose entry is below zero,
    /// if any entry is.
    pub fn first_negative(&self) -> (r: Option<Currency>)
        ensures
            r is None <==> sheet_non_negative(self@),
            r is Some ==> first_negative_in(self@, r->0),
    {
        let values = self.values();
        let mut i: usize = 0;
        while i < values.len()
            invariant
                i <= values.len(),
                sheet_lists(self@, values@),
                forall|j: int| 0 <= j < i ==> (#[trigger] values@[j]).0 >= 0,
            decreases values.len() - i,
        {
            if values[i].0 < 0 {
                let c = values[i].1;
                proof {
                    assert(self@.contains_key(values@[i as int].1));
                    assert forall|d: Currency| #[trigger]
                        self@.contains_key(d) && self@[d] < 0 implies c.key() <= d.key() by {
                        let a = Amount(self@[d], d);
                        assert(values@.contains(a));
                        let j = choose|j: int| 0 <= j < values@.len() && values@[j] == a;
                        if j < i {
                            assert(values@[j].0 >= 0);
                        } else if j > i {
                            assert(values@[i as int].1.key() < values@[j].1.key());
                        }
                    }
                }
                return Some(c);
            }
            i += 1;
        }
        proof {
            assert forall|c: Currency| #[trigger] self@.contains_key(c) implies self@[c] >= 0 by {
                let a = Amount(self@[c], c);
                assert(values@.contains(a));
                let j = choose|j: int| 0 <= j < values@.len() && values@[j] == a;
                assert(values@[j].0 >= 0);
            }
        }
        None
    }

    /// The balances after each of `amounts` was added in turn, if every sum
    /// on the way fits an amount.
    pub fn checked_add_all(&self, amounts: &Vec<Amount>) -> (r: Option<Amounts>)
        ensures
            r is Some <==> credit_all(self@, amounts@) is Some,
            r is Some ==> r->0@ == credit_all(self@, amounts@)->0,
    {
        let mut sheet = self.clone();
        let mut i: usize = 0;
        proof {
            assert(amounts@.take(0) =~= Seq::<Amount>::empty());
        }
        while i < amounts.len()
            invariant
                i <= amounts.len(),
                credit_all(self@, amounts@.take(i as int)) == Some(sheet@),
            decreases amounts.len() - i,
        {
            proof {
                let next = amounts@.take(i + 1);
                assert(next.drop_last() =~= amounts@.take(i as int));
                assert(next.last() == amounts@[i as int]);
                if credit(sheet@, amounts@[i as int]) is None {
                    lemma_credit_all_prefix(self@, amounts@, i + 1);
                }
            }
            if !sheet.checked_add_assign(amounts[i]) {
                return None;
            }
            i += 1;
        }
        proof {
            assert(amounts@.take(i as int) =~= amounts@);
        }
        Some(sheet)
    }

    /// The sum of the given amounts, currency by currency, if every sum on
    /// the way fits an amount.
    pub fn sum(amounts: &Vec<Amount>) -> (r: Option<Amounts>)
        ensures
            r is Some <==> credit_all(Map::empty(), amounts@) is Some,
            r is Some ==> r->0@ == credit_all(Map::empty(), amounts@)->0,
            r is Some ==> forall|c: Currency| r->0.balance(c) == #[trigger] total(amounts@, c),
    {
        let r = Amounts::new().checked_add_all(amounts);
        proof {
            if r is Some {
                lemma_credit_all(Map::empty(), amounts@);
            }
        }
        r
    }

    /// The text of the balances: the text of each entry, in the alphabetical
    /// order of the currencies, with a comma and a space between each two.
    pub fn to_string(&self) -> (text: String)
        ensures
            text@ == sheet_text(self@),
    {
        let values = self.values();
        let mut parts: Vec<Vec<char>> = Vec::new();
        let mut i: usize = 0;
        while i < values.len()
            invariant
                i <= values.len(),
                views(parts@) == texts(values@.take(i as int)),
            decreases values.len() - i,
        {
            let mut part: Vec<char> = Vec::new();
            values[i].write_to(&mut part);
            proof {
                assert(part@ =~= values@[i as int].text());
            }
            let ghost before = views(parts@);
            parts.push(part);
            i += 1;
            proof {
                assert(views(parts@) =~= before.push(part@));
                assert(texts(values@.take(i as int)) =~= texts(values@.take(i - 1)).push(
                    values@[i - 1].text(),
                ));
            }
        }
        proof {
            assert(values@.take(i as int) =~= values@);
        }
        let out = join(parts, ", ");
        string_of(&out)
    }

    /// There are as many entries as currencies with an entry.
    proof fn lemma_dom_len(&self)
        requires
            self.well_formed(),
        ensures
            self@.dom().len() == self.entries@.dom().len(),
            self@.dom().finite(),
    {
        let keys = self.entries@.dom();
        let entries = self.entries@;
        let by_key = |k: u32| entries[k].1;
        assert(self@.dom() =~= keys.map(by_key)) by {
            assert forall|c: Currency| self@.dom().contains(c) implies keys.map(by_key).contains(
                c,
            ) by {
                assert(keys.contains(c.key()));
                assert(by_key(c.key()) == c);
            }
            assert forall|c: Currency| keys.map(by_key).contains(c) implies self@.dom().contains(
                c,
            ) by {
                let k = choose|k: u32| keys.contains(k) && by_key(k) == c;
                assert(entries.contains_key(k));
            }
        }
        assert(vstd::relations::injective_on(by_key, keys)) by {
            assert forall|x1: u32, x2: u32|
                keys.contains(x1) && keys.contains(x2) && #[trigger] by_key(x1) == #[trigger] by_key(
                    x2,
                ) implies x1 == x2 by {
                assert(entries.contains_key(x1));
                assert(entries.contains_key(x2));
            }
        }
        vstd::set_lib::lemma_map_size(keys, keys.map(by_key), by_key);
        keys.lemma_map_finite(by_key);
    }
}

} // verus!
