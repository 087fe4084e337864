//! The ledger in memory: the accounts, the recorded transactions, and the
//! engine that applies a command as a whole or not at all.

use std::collections::BTreeMap;
use vstd::prelude::*;
use vstd::std_specs::iter::IteratorSpec;

use crate::account::{Account, AccountView};
use crate::amount::Amount;
use crate::amounts::first_negative_in;
use crate::command::{modification_views, AccountModification, Command, CommandView};
use crate::currency::Currency;
use crate::error::Error;
use crate::id::{AccountId, Axis, Id, TransactionId};
use crate::rules::{first_negative, modified_all, posted, recorded, LedgerView};
use crate::transaction::{amounts_for, Transaction, TransactionView};

verus! {

/// The transactions of a list, as plain values.
pub open spec fn transaction_views(log: Seq<Transaction>) -> Seq<TransactionView> {
    log.map_values(|t: Transaction| t@)
}

/// The accounts of a list, as plain values.
pub open spec fn account_views(accounts: Seq<Account>) -> Seq<AccountView> {
    accounts.map_values(|a: Account| a@)
}

/// Whether no two transactions of the record share an identifier.
pub open spec fn distinct_ids(log: Seq<TransactionView>) -> bool {
    forall|i: int, j: int|
        0 <= i < log.len() && 0 <= j < log.len() && (#[trigger] log[i]).id == (#[trigger] log[j]).id
            ==> i == j
}

/// The runs of `deltas`: neighbours that name the same account are put
/// together, in their order, under that account.
pub open spec fn runs(deltas: Seq<(AccountId, Amount)>) -> Seq<(AccountId, Seq<Amount>)>
    decreases deltas.len(),
{
    if deltas.len() == 0 {
        Seq::empty()
    } else {
        let before = runs(deltas.drop_last());
        let last = deltas.last();
        if before.len() > 0 && before.last().0 == last.0 {
            before.drop_last().push((last.0, before.last().1.push(last.1)))
        } else {
            before.push((last.0, seq![last.1]))
        }
    }
}

/// The runs of a list, as plain values.
pub open spec fn run_views(groups: Seq<(AccountId, Vec<Amount>)>) -> Seq<(AccountId, Seq<Amount>)> {
    groups.map_values(|g: (AccountId, Vec<Amount>)| (g.0, g.1@))
}

/// `Itertools::group_by` with the account as the key, each group collected:
/// neighbours that name the same account form one group, and the groups
/// come in the order of the deltas.
#[verifier::external_body]
fn group_runs(deltas: Vec<(AccountId, Amount)>) -> (groups: Vec<(AccountId, Vec<Amount>)>)
    ensures
        run_views(groups@) == runs(deltas@),
{
    let grouped = itertools::Itertools::group_by(deltas.into_iter(), |d| d.0);
    grouped.into_iter().map(|(id, run)| (id, run.map(|d| d.1).collect())).collect()
}

/// The runs of two deltas.
proof fn lemma_runs_of_two(x: (AccountId, Amount), y: (AccountId, Amount))
    ensures
        runs(seq![x, y]) == (if x.0 == y.0 {
            seq![(x.0, seq![x.1, y.1])]
        } else {
            seq![(x.0, seq![x.1]), (y.0, seq![y.1])]
        }),
        amounts_for(seq![x, y], x.0) == (if x.0 == y.0 {
            seq![x.1, y.1]
        } else {
            seq![x.1]
        }),
        x.0 != y.0 ==> amounts_for(seq![x, y], y.0) == seq![y.1],
{
    let s = seq![x, y];
    let s1 = seq![x];
    assert(s.drop_last() =~= s1);
    assert(s1.drop_last() =~= Seq::<(AccountId, Amount)>::empty());
    assert(runs(s1.drop_last()) =~= Seq::<(AccountId, Seq<Amount>)>::empty());
    assert(runs(s1) =~= seq![(x.0, seq![x.1])]);
    assert(amounts_for(s1.drop_last(), x.0) =~= Seq::<Amount>::empty());
    assert(amounts_for(s1.drop_last(), y.0) =~= Seq::<Amount>::empty());
    assert(amounts_for(s1, x.0) =~= seq![x.1]);
    if x.0 == y.0 {
        assert(runs(s1).last().1.push(y.1) =~= seq![x.1, y.1]);
        assert(runs(s) =~~= seq![(x.0, seq![x.1, y.1])]);
        assert(amounts_for(s, x.0) =~= seq![x.1, y.1]);
    } else {
        assert(runs(s) =~= seq![(x.0, seq![x.1]), (y.0, seq![y.1])]);
        assert(amounts_for(s1, y.0) =~= Seq::<Amount>::empty());
        assert(amounts_for(s, y.0) =~= seq![y.1]);
        assert(amounts_for(s, x.0) =~= seq![x.1]);
    }
}

/// The runs of the four deltas of a conversion.
proof fn lemma_runs_of_four(a: AccountId, b: AccountId, p: Amount, q: Amount)
    ensures
        runs(seq![(a, p), (a, q), (b, p), (b, q)]) == (if a == b {
            seq![(a, seq![p, q, p, q])]
        } else {
            seq![(a, seq![p, q]), (b, seq![p, q])]
        }),
        amounts_for(seq![(a, p), (a, q), (b, p), (b, q)], a) == (if a == b {
            seq![p, q, p, q]
        } else {
            seq![p, q]
        }),
        a != b ==> amounts_for(seq![(a, p), (a, q), (b, p), (b, q)], b) == seq![p, q],
{
    let s4 = seq![(a, p), (a, q), (b, p), (b, q)];
    let s3 = seq![(a, p), (a, q), (b, p)];
    let s2 = seq![(a, p), (a, q)];
    lemma_runs_of_two((a, p), (a, q));
    assert(s4.drop_last() =~= s3);
    assert(s3.drop_last() =~= s2);
    assert(runs(s2) =~= seq![(a, seq![p, q])]);
    assert(amounts_for(s2, a) =~= seq![p, q]);
    if a == b {
        assert(runs(s2).last().1.push(p) =~= seq![p, q, p]);
        assert(runs(s3) =~~= seq![(a, seq![p, q, p])]);
        assert(runs(s3).last().1.push(q) =~= seq![p, q, p, q]);
        assert(runs(s4) =~~= seq![(a, seq![p, q, p, q])]);
        assert(amounts_for(s3, a) =~= seq![p, q, p]);
        assert(amounts_for(s4, a) =~= seq![p, q, p, q]);
    } else {
        assert(runs(s3) =~~= seq![(a, seq![p, q]), (b, seq![p])]);
        assert(runs(s3).last().1.push(q) =~= seq![p, q]);
        assert(runs(s4) =~~= seq![(a, seq![p, q]), (b, seq![p, q])]);
        assert(amounts_for(s3, a) =~= seq![p, q]);
        assert(amounts_for(s4, a) =~= seq![p, q]);
        let s1 = seq![(a, p)];
        assert(s2.drop_last() =~= s1);
        assert(s1.drop_last() =~= Seq::<(AccountId, Amount)>::empty());
        assert(amounts_for(s1.drop_last(), b) =~= Seq::<Amount>::empty());
        assert(amounts_for(s1, b) =~= Seq::<Amount>::empty());
        assert(amounts_for(s2, b) =~= Seq::<Amount>::empty());
        assert(amounts_for(s3, b) =~= seq![p]);
        assert(amounts_for(s4, b) =~= seq![p, q]);
    }
}

/// The runs of a transaction's deltas: one for each participant, with all
/// the amounts that the transaction holds for it.
pub proof fn lemma_runs_of_transaction(t: TransactionView)
    ensures
        ({
            let first = t.participants()[0];
            let second = t.participants()[1];
            runs(t.deltas()) == (if first == second {
                seq![(first, amounts_for(t.deltas(), first))]
            } else {
                seq![
                    (first, amounts_for(t.deltas(), first)),
                    (second, amounts_for(t.deltas(), second)),
                ]
            })
        }),
{
    let d = t.deltas();
    if d.len() == 2 {
        assert(d =~= seq![d[0], d[1]]);
        lemma_runs_of_two(d[0], d[1]);
    } else {
        let a = t.participants()[0];
        let b = t.participants()[1];
        assert(d =~= seq![(a, d[0].1), (a, d[1].1), (b, d[0].1), (b, d[1].1)]);
        lemma_runs_of_four(a, b, d[0].1, d[1].1);
    }
}

/// Only one currency can be the first in which a sheet is below zero.
pub proof fn lemma_first_negative(sheet: Map<Currency, i32>, c: Currency)
    requires
        first_negative_in(sheet, c),
    ensures
        first_negative(sheet) == c,
{
    let d = first_negative(sheet);
    assert(first_negative_in(sheet, d));
    Currency::lemma_same_currency(c, d);
}

/// The table that files each account of a list under its identifier. Of two
/// accounts with one identifier the later one stays.
pub open spec fn table_of(list: Seq<AccountView>) -> Map<AccountId, AccountView>
    decreases list.len(),
{
    if list.len() == 0 {
        Map::empty()
    } else {
        table_of(list.drop_last()).insert(list.last().id, list.last())
    }
}

/// Whether no two accounts of the list share an identifier.
pub open spec fn distinct_accounts(list: Seq<AccountView>) -> bool {
    forall|i: int, j: int|
        0 <= i < list.len() && 0 <= j < list.len() && (#[trigger] list[i]).id == (
        #[trigger] list[j]).id ==> i == j
}

/// Whether a table files an account under `id` exactly when the list holds
/// one with that identifier.
proof fn lemma_table_of(list: Seq<AccountView>, id: AccountId)
    ensures
        table_of(list).contains_key(id) <==> exists|i: int|
            0 <= i < list.len() && (#[trigger] list[i]).id == id,
    decreases list.len(),
{
    if list.len() > 0 {
        let front = list.drop_last();
        lemma_table_of(front, id);
        if table_of(list).contains_key(id) {
            if list.last().id == id {
                assert(list[list.len() - 1].id == id);
            } else {
                let i = choose|i: int| 0 <= i < front.len() && (#[trigger] front[i]).id == id;
                assert(list[i].id == id);
            }
        }
        if exists|i: int| 0 <= i < list.len() && (#[trigger] list[i]).id == id {
            let i = choose|i: int| 0 <= i < list.len() && (#[trigger] list[i]).id == id;
            if i < front.len() {
                assert(front[i].id == id);
            }
        }
    }
}

/// A ledger: its accounts and the transactions recorded so far.
#[derive(Debug)]
pub struct Ledger {
    accounts: BTreeMap<u128, Account>,
    log: Vec<Transaction>,
    places: BTreeMap<u128, usize>,
}

impl View for Ledger {
    type V = LedgerView;

    closed spec fn view(&self) -> LedgerView {
        LedgerView {
            accounts: Map::new(
                |id: AccountId| self.accounts@.contains_key(id.0),
                |id: AccountId| self.accounts@[id.0]@,
            ),
            log: transaction_views(self.log@),
        }
    }
}

impl Ledger {
    /// Every account is filed under the value of its identifier, and every
    /// recorded transaction has its place in the record filed under the
    /// value of its own.
    #[verifier::type_invariant]
    closed spec fn well_formed(self) -> bool {
        &&& forall|k: u128| #[trigger]
            self.accounts@.contains_key(k) ==> self.accounts@[k].id.0 == k
        &&& forall|k: u128| #[trigger]
            self.places@.contains_key(k) ==> self.places@[k] < self.log@.len()
                && self.log@[self.places@[k] as int].id.0 == k
        &&& forall|i: int|
            0 <= i < self.log@.len() ==> self.places@.contains_key((#[trigger] self.log@[i]).id.0)
                && self.places@[self.log@[i].id.0] == i
    }

    /// A ledger without accounts or transactions.
    pub fn new() -> (r: Ledger)
        ensures
            r@ == LedgerView::empty(),
    {
        let r = Ledger { accounts: BTreeMap::new(), log: Vec::new(), places: BTreeMap::new() };
        assert(r@.accounts =~= Map::<AccountId, AccountView>::empty());
        assert(r@.log =~= Seq::<TransactionView>::empty());
        r
    }

    /// The account with the given identifier, if there is one.
    pub fn account(&self, id: AccountId) -> (r: Option<Account>)
        ensures
            r is Some <==> self@.accounts.contains_key(id),
            r is Some ==> r->0@ == self@.accounts[id],
            self@.filed(),
    {
        proof {
            use_type_invariant(self);
        }
        match self.accounts.get(&id.0) {
            Some(a) => Some(a.clone()),
            None => None,
        }
    }

    /// Whether a transaction with the given identifier is on record.
    pub fn has_transaction(&self, id: TransactionId) -> (r: bool)
        ensures
            r == recorded(self@.log, id),
            distinct_ids(self@.log),
    {
        proof {
            use_type_invariant(self);
            self.lemma_places();
        }
        self.places.contains_key(&id.0)
    }

    /// What the places say of the record.
    proof fn lemma_places(&self)
        requires
            self.well_formed(),
        ensures
            forall|id: TransactionId| recorded(self@.log, id) <==> self.places@.contains_key(id.0),
            distinct_ids(self@.log),
    {
        let log = self@.log;
        assert forall|id: TransactionId| recorded(log, id) <==> self.places@.contains_key(
            id.0,
        ) by {
            if recorded(log, id) {
                let i = choose|i: int| 0 <= i < log.len() && (#[trigger] log[i]).id == id;
                assert(self.log@[i].id == id);
            }
            if self.places@.contains_key(id.0) {
                let i = self.places@[id.0] as int;
                assert(log[i].id == id);
            }
        }
        assert forall|i: int, j: int|
            0 <= i < log.len() && 0 <= j < log.len() && (#[trigger] log[i]).id == (
            #[trigger] log[j]).id implies i == j by {
            assert(self.log@[i].id == self.log@[j].id);
        }
    }

    /// Puts an account in place, over the one with its identifier if there
    /// is one.
    fn put(&mut self, account: Account)
        ensures
            final(self)@.accounts == old(self)@.accounts.insert(account.id, account@),
            final(self)@.log == old(self)@.log,
    {
        proof {
            use_type_invariant(&*self);
        }
        let ghost id = account.id;
        let ghost view = account@;
        let mut taken = Ledger::new();
        std::mem::swap(self, &mut taken);
        let Ledger { mut accounts, log, places } = taken;
        accounts.insert(account.id.0, account);
        *self = Ledger { accounts, log, places };
        assert(self@.accounts =~= old(self)@.accounts.insert(id, view));
    }

    /// Adds a transaction to the record.
    fn record(&mut self, t: Transaction)
        requires
            !recorded(old(self)@.log, t.id),
        ensures
            final(self)@.accounts == old(self)@.accounts,
            final(self)@.log == old(self)@.log.push(t@),
    {
        proof {
            use_type_invariant(&*self);
            self.lemma_places();
        }
        let ghost view = t@;
        let key = t.id.0;
        let mut taken = Ledger::new();
        std::mem::swap(self, &mut taken);
        let Ledger { accounts, mut log, mut places } = taken;
        let place = log.len();
        log.push(t);
        places.insert(key, place);
        *self = Ledger { accounts, log, places };
        assert(self@.log =~= old(self)@.log.push(view));
        assert(self@.accounts =~= old(self)@.accounts);
    }

    /// Records a new account. An account with the same identifier must not
    /// exist: the command is then refused as `DuplicateId` and nothing
    /// changes.
    pub fn create_account(&mut self, account: Account) -> (r: Result<(), Error>)
        ensures
            r == match old(self)@.step(CommandView::CreateAccount(account@)) {
                Ok(_) => Ok::<(), Error>(()),
                Err(e) => Err(e),
            },
            final(self)@ == old(self)@.after(CommandView::CreateAccount(account@)),
    {
        proof {
            use_type_invariant(&*self);
        }
        if self.accounts.contains_key(&account.id.0) {
            return Err(Error::DuplicateId);
        }
        self.put(account);
        Ok(())
    }

    /// Changes the description of an account, change by change. The
    /// account must exist: the command is otherwise refused as `NotFound`.
    /// The balance is never touched. The answer is the account as it is
    /// after the changes.
    pub fn modify_account(&mut self, id: AccountId, changes: &Vec<AccountModification>) -> (r:
        Result<Account, Error>)
        ensures
            match old(self)@.step(CommandView::UpdateAccount(id, modification_views(changes@))) {
                Ok(_) => r is Ok && r->Ok_0@ == modified_all(
                    old(self)@.accounts[id],
                    modification_views(changes@),
                ),
                Err(e) => r is Err && r->Err_0 == e,
            },
            final(self)@ == old(self)@.after(
                CommandView::UpdateAccount(id, modification_views(changes@)),
            ),
    {
        proof {
            use_type_invariant(&*self);
        }
        let mut account = match self.accounts.get(&id.0) {
            Some(a) => a.clone(),
            None => {
                return Err(Error::NotFound);
            },
        };
        let ghost before = account@;
        let ghost all = modification_views(changes@);
        let mut i: usize = 0;
        proof {
            assert(all.take(0) =~= Seq::empty());
        }
        while i < changes.len()
            invariant
                i <= changes.len(),
                all == modification_views(changes@),
                account@ == modified_all(before, all.take(i as int)),
            decreases changes.len() - i,
        {
            proof {
                assert(all.take(i + 1).drop_last() =~= all.take(i as int));
                assert(all.take(i + 1).last() == changes@[i as int]@);
            }
            match &changes[i] {
                AccountModification::Disable => {
                    account.enabled = false;
                },
                AccountModification::UpdateName(name) => {
                    account.name = name.clone();
                },
                AccountModification::UpdateNotes(notes) => {
                    account.notes = notes.clone();
                },
            }
            i += 1;
        }
        proof {
            assert(all.take(i as int) =~= all);
            crate::rules::lemma_modified_all_keeps(before, all);
        }
        self.put(account.clone());
        Ok(account)
    }
    /// Records a transaction and applies it to the balances of its
    /// participants, or refuses it and changes nothing. The answer lists the
    /// participants as they are after the transaction.
    pub fn add_transaction(&mut self, t: Transaction) -> (r: Result<Vec<Account>, Error>)
        ensures
            match old(self)@.step(CommandView::AddTransaction(t@)) {
                Ok(_) => r is Ok && account_views(r->Ok_0@) == old(self)@.changes(
                    CommandView::AddTransaction(t@),
                ),
                Err(e) => r is Err && r->Err_0 == e,
            },
            final(self)@ == old(self)@.after(CommandView::AddTransaction(t@)),
    {
        proof {
            use_type_invariant(&*self);
            lemma_runs_of_transaction(t@);
        }
        if self.has_transaction(t.id) {
            return Err(Error::DuplicateId);
        }
        let deltas = match t.checked_results() {
            Some(d) => d,
            None => {
                return Err(Error::AmountOutOfRange);
            },
        };
        let groups = group_runs(deltas);
        let ghost before = self@;
        let ghost first = t@.participants()[0];
        let ghost second = t@.participants()[1];
        let mut changed: Vec<Account> = Vec::new();
        let mut i: usize = 0;
        proof {
            let views = run_views(groups@);
            assert(views.len() == groups@.len());
            assert forall|j: int| 0 <= j < groups@.len() implies (#[trigger] groups@[j]).1@
                == amounts_for(t@.deltas(), groups@[j].0) by {
                assert(views[j] == (groups@[j].0, groups@[j].1@));
            }
            assert(views[0] == (groups@[0].0, groups@[0].1@));
            if first != second {
                assert(views[1] == (groups@[1].0, groups@[1].1@));
            }
        }
        while i < groups.len()
            invariant
                i <= groups.len(),
                changed@.len() == i,
                *self == *old(self),
                before == self@,
                self.well_formed(),
                run_views(groups@) == runs(t@.deltas()),
                forall|j: int|
                    0 <= j < i ==> posted(before.accounts, t@, (#[trigger] groups@[j]).0) == Ok::<
                        AccountView,
                        Error,
                    >(changed@[j]@),
                forall|j: int|
                    0 <= j < groups@.len() ==> (#[trigger] groups@[j]).1@ == amounts_for(
                        t@.deltas(),
                        groups@[j].0,
                    ),
                groups@.len() == (if first == second {
                    1int
                } else {
                    2int
                }),
                groups@[0].0 == first,
                first != second ==> groups@[1].0 == second,
                first == t@.participants()[0],
                second == t@.participants()[1],
                !recorded(before.log, t.id),
                t@.representable(),
            decreases groups.len() - i,
        {
            let id = groups[i].0;
            let account = match self.accounts.get(&id.0) {
                Some(a) => a,
                None => {
                    return Err(Error::NotFound);
                },
            };
            let sheet = match account.current.checked_add_all(&groups[i].1) {
                Some(s) => s,
                None => {
                    return Err(Error::AmountOutOfRange);
                },
            };
            match sheet.first_negative() {
                Some(c) => {
                    proof {
                        lemma_first_negative(sheet@, c);
                    }
                    return Err(Error::NegativeBalance { account: id, currency: c });
                },
                None => {},
            }
            let next = Account {
                id: account.id,
                name: account.name.clone(),
                notes: account.notes.clone(),
                typ: account.typ,
                current: sheet,
                enabled: account.enabled,
            };
            changed.push(next);
            i += 1;
        }
        let mut k: usize = 0;
        while k < changed.len()
            invariant
                k <= changed.len(),
                changed@.len() == groups@.len(),
                self@.log == before.log,
                forall|j: int| 0 <= j < changed@.len() ==> (#[trigger] changed@[j]).id == groups@[j].0,
                groups@.len() == (if first == second {
                    1int
                } else {
                    2int
                }),
                groups@[0].0 == first,
                first != second ==> groups@[1].0 == second,
                self@.accounts == (if k == 0 {
                    before.accounts
                } else if k == 1 {
                    before.accounts.insert(first, changed@[0]@)
                } else {
                    before.accounts.insert(first, changed@[0]@).insert(second, changed@[1]@)
                }),
            decreases changed.len() - k,
        {
            self.put(changed[k].clone());
            k += 1;
        }
        self.record(t);
        proof {
            assert(account_views(changed@) =~= before.changes(CommandView::AddTransaction(t@)));
        }
        Ok(changed)
    }

    /// Applies a command as a whole, or refuses it and changes nothing. The
    /// answer lists the accounts that the command created or changed, as
    /// they are after it.
    pub fn run_command(&mut self, cmd: Command) -> (r: Result<Vec<Account>, Error>)
        ensures
            match old(self)@.step(cmd@) {
                Ok(next) => r is Ok && final(self)@ == next && account_views(r->Ok_0@) == old(
                    self,
                )@.changes(cmd@),
                Err(e) => r is Err && r->Err_0 == e && final(self)@ == old(self)@,
            },
    {
        match cmd {
            Command::CreateAccount(account) => {
                let copy = account.clone();
                match self.create_account(account) {
                    Ok(()) => {
                        let changed = vec![copy];
                        assert(account_views(changed@) =~= seq![copy@]);
                        Ok(changed)
                    },
                    Err(e) => Err(e),
                }
            },
            Command::UpdateAccount(id, changes) => {
                match self.modify_account(id, &changes) {
                    Ok(account) => {
                        let changed = vec![account];
                        assert(account_views(changed@) =~= seq![account@]);
                        Ok(changed)
                    },
                    Err(e) => Err(e),
                }
            },
            Command::AddTransaction(t) => self.add_transaction(t),
        }
    }
    /// All accounts, in the order of their identifiers.
    pub fn accounts(&self) -> (r: Vec<Account>)
        ensures
            self@.lists_accounts(account_views(r@)),
            self@.filed(),
    {
        proof {
            use_type_invariant(self);
        }
        let mut out: Vec<Account> = Vec::new();
        let entries = self.accounts.iter();
        let ghost all = entries.remaining();
        let ghost keys = all.map_values(|kv: (&u128, &Account)| *kv.0);
        proof {
            crate::order::lemma_rising_u128(keys);
            assert forall|i: int, j: int| 0 <= i < j < all.len() implies *(#[trigger] all[i]).0 < *(
            #[trigger] all[j]).0 by {
                assert(keys[i] == *all[i].0);
                assert(keys[j] == *all[j].0);
            }
        }
        for kv in it: entries
            invariant
                it.seq() == all,
                out@.len() == it.index(),
                forall|i: int| 0 <= i < out@.len() ==> (#[trigger] out@[i])@ == (*all[i].1)@,
        {
            out.push(kv.1.clone());
        }
        proof {
            let list = account_views(out@);
            assert forall|i: int| 0 <= i < list.len() implies self@.accounts.contains_key(
                (#[trigger] list[i]).id,
            ) && self@.accounts[list[i].id] == list[i] by {
                assert(self.accounts@.contains_key(*all[i].0));
                assert(self.accounts@[*all[i].0] == *all[i].1);
            }
            assert forall|id: AccountId| #[trigger] self@.accounts.contains_key(id) implies list.contains(
                self@.accounts[id],
            ) by {
                let k = id.0;
                assert(all.contains((&k, &self.accounts@[k])));
                let i = choose|i: int| 0 <= i < all.len() && all[i] == (&k, &self.accounts@[k]);
                assert(list[i] == self@.accounts[id]);
            }
            assert forall|i: int, j: int| 0 <= i < j < list.len() implies (#[trigger] list[i]).id.0
                < (#[trigger] list[j]).id.0 by {
                assert(self.accounts@.contains_key(*all[i].0));
                assert(self.accounts@.contains_key(*all[j].0));
                assert(self.accounts@[*all[i].0] == *all[i].1);
                assert(self.accounts@[*all[j].0] == *all[j].1);
                assert(*all[i].0 < *all[j].0);
            }
        }
        out
    }

    /// The recorded transactions in which account `id` takes part, in the
    /// order of their identifiers, which is the order of their creation.
    pub fn transactions(&self, id: AccountId) -> (r: Vec<Transaction>)
        ensures
            self@.lists_transactions(id, transaction_views(r@)),
            distinct_ids(self@.log),
    {
        proof {
            use_type_invariant(self);
            self.lemma_places();
        }
        let mut out: Vec<Transaction> = Vec::new();
        let entries = self.places.iter();
        let ghost all = entries.remaining();
        let ghost keys = all.map_values(|kv: (&u128, &usize)| *kv.0);
        let ghost mut picked: Seq<int> = Seq::empty();
        proof {
            crate::order::lemma_rising_u128(keys);
            assert forall|i: int, j: int| 0 <= i < j < all.len() implies *(#[trigger] all[i]).0 < *(
            #[trigger] all[j]).0 by {
                assert(keys[i] == *all[i].0);
                assert(keys[j] == *all[j].0);
            }
            assert forall|i: int| 0 <= i < all.len() implies self.places@.contains_key(
                *(#[trigger] all[i]).0,
            ) && self.places@[*all[i].0] == *all[i].1 by {
                assert(self.places@.contains_key(*all[i].0));
            }
        }
        for kv in it: entries
            invariant
                it.seq() == all,
                self.well_formed(),
                forall|i: int|
                    0 <= i < all.len() ==> self.places@.contains_key(*(#[trigger] all[i]).0)
                        && self.places@[*all[i].0] == *all[i].1,
                picked.len() == out@.len(),
                forall|x: int|
                    0 <= x < picked.len() ==> 0 <= (#[trigger] picked[x]) < it.index() && out@[x]@
                        == self.log@[*all[picked[x]].1 as int]@ && out@[x]@.involves(id),
                forall|x: int, y: int|
                    0 <= x < y < picked.len() ==> (#[trigger] picked[x]) < (#[trigger] picked[y]),
                forall|y: int|
                    0 <= y < it.index() && self.log@[*(#[trigger] all[y]).1 as int]@.involves(id)
                        ==> picked.contains(y),
        {
            let ghost at = it.index();
            proof {
                assert(self.places@.contains_key(*all[at].0));
            }
            let place: usize = *kv.1;
            let t = &self.log[place];
            if t.involves(id) {
                out.push(t.clone());
                proof {
                    let before = picked;
                    picked = picked.push(at);
                    assert forall|y: int|
                        0 <= y < at + 1 && self.log@[*(#[trigger] all[y]).1 as int]@.involves(
                            id,
                        ) implies picked.contains(y) by {
                        if y < at {
                            assert(before.contains(y));
                            let x = choose|x: int| 0 <= x < before.len() && before[x] == y;
                            assert(picked[x] == y);
                        } else {
                            assert(picked[picked.len() - 1] == y);
                        }
                    }
                }
            }
        }
        proof {
            let list = transaction_views(out@);
            let log = self@.log;
            assert forall|i: int| 0 <= i < list.len() implies (#[trigger] list[i]).involves(id)
                && log.contains(list[i]) by {
                let place = *all[picked[i]].1 as int;
                assert(log[place] == list[i]);
            }
            assert forall|j: int|
                0 <= j < log.len() && (#[trigger] log[j]).involves(id) implies list.contains(
                log[j],
            ) by {
                let k = self.log@[j].id.0;
                assert(self.places@.contains_key(k));
                assert(all.contains((&k, &self.places@[k])));
                let y = choose|y: int| 0 <= y < all.len() && all[y] == (&k, &self.places@[k]);
                assert(*all[y].1 as int == j);
                assert(picked.contains(y));
                let x = choose|x: int| 0 <= x < picked.len() && picked[x] == y;
                assert(list[x] == log[j]);
            }
            assert forall|i: int, j: int| 0 <= i < j < list.len() implies (#[trigger] list[i]).id.0
                < (#[trigger] list[j]).id.0 by {
                let a = picked[i];
                let b = picked[j];
                assert(a < b);
                assert(*all[a].0 < *all[b].0);
                assert(self.places@.contains_key(*all[a].0));
                assert(self.places@.contains_key(*all[b].0));
            }
        }
        out
    }

    /// Takes an account identifier to be one of axis `T`, if the account
    /// exists and lives on that axis.
    pub fn on_axis<T: Axis>(&self, id: AccountId) -> (r: Option<Id<T>>)
        ensures
            r is Some <==> self@.accounts.contains_key(id) && self@.accounts[id].typ
                == T::account_type(),
            r matches Some(tagged) ==> tagged.0 == id.0,
    {
        proof {
            use_type_invariant(self);
        }
        match self.accounts.get(&id.0) {
            Some(a) => {
                if a.typ == T::axis() {
                    Some(id.unerase())
                } else {
                    None
                }
            },
            None => None,
        }
    }

    /// Reads the identifier of an account of axis `T` from its text. A text
    /// that is no identifier is refused as `InvalidEncoding`, and an
    /// identifier that names no account, or one of the other axis, as
    /// `NotFound`.
    pub fn parse_on_axis<T: Axis>(&self, text: &str) -> (r: Result<Id<T>, Error>)
        ensures
            r == match AccountId::of_text(text@) {
                None => Err::<Id<T>, Error>(Error::InvalidEncoding),
                Some(id) => if self@.accounts.contains_key(id) && self@.accounts[id].typ
                    == T::account_type() {
                    Ok(Id(id.0, std::marker::PhantomData))
                } else {
                    Err(Error::NotFound)
                },
            },
    {
        match AccountId::from_str(text) {
            Err(_) => Err(Error::InvalidEncoding),
            Ok(id) => match self.on_axis::<T>(id) {
                Some(tagged) => Ok(tagged),
                None => Err(Error::NotFound),
            },
        }
    }
    /// The ledger that holds the given accounts and transactions, as a
    /// store hands them back. Two accounts or two transactions with one
    /// identifier are refused as `DuplicateId`.
    pub fn restore(accounts: Vec<Account>, transactions: Vec<Transaction>) -> (r: Result<
        Ledger,
        Error,
    >)
        ensures
            r is Ok <==> distinct_accounts(account_views(accounts@)) && distinct_ids(
                transaction_views(transactions@),
            ),
            r matches Ok(ledger) ==> ledger@.accounts == table_of(account_views(accounts@))
                && ledger@.log == transaction_views(transactions@),
            r matches Err(e) ==> e == Error::DuplicateId,
    {
        let mut ledger = Ledger::new();
        let ghost list = account_views(accounts@);
        let ghost log = transaction_views(transactions@);
        let mut i: usize = 0;
        proof {
            assert(list.take(0) =~= Seq::<AccountView>::empty());
        }
        while i < accounts.len()
            invariant
                i <= accounts.len(),
                list == account_views(accounts@),
                ledger@.accounts == table_of(list.take(i as int)),
                ledger@.log == Seq::<TransactionView>::empty(),
                distinct_accounts(list.take(i as int)),
            decreases accounts.len() - i,
        {
            let account = accounts[i].clone();
            proof {
                lemma_table_of(list.take(i as int), account.id);
                assert(list.take(i + 1).drop_last() =~= list.take(i as int));
                assert(list.take(i + 1).last() == account@);
            }
            match ledger.create_account(account) {
                Ok(()) => {},
                Err(e) => {
                    proof {
                        let j = choose|j: int|
                            0 <= j < list.take(i as int).len() && (#[trigger] list.take(
                                i as int,
                            )[j]).id == account.id;
                        assert(list[j].id == list[i as int].id);
                    }
                    return Err(Error::DuplicateId);
                },
            }
            proof {
                let next = list.take(i + 1);
                assert forall|a: int, b: int|
                    0 <= a < next.len() && 0 <= b < next.len() && (#[trigger] next[a]).id == (
                    #[trigger] next[b]).id implies a == b by {
                    let front = list.take(i as int);
                    if a < i && b < i {
                        assert(front[a].id == front[b].id);
                    } else if a < i {
                        assert(front[a].id == account.id);
                    } else if b < i {
                        assert(front[b].id == account.id);
                    }
                }
            }
            i += 1;
        }
        proof {
            assert(list.take(i as int) =~= list);
            assert(log.take(0) =~= Seq::<TransactionView>::empty());
        }
        let mut k: usize = 0;
        while k < transactions.len()
            invariant
                k <= transactions.len(),
                log == transaction_views(transactions@),
                list == account_views(accounts@),
                ledger@.accounts == table_of(list),
                ledger@.log == log.take(k as int),
                distinct_accounts(list),
                distinct_ids(log.take(k as int)),
            decreases transactions.len() - k,
        {
            let t = transactions[k].clone();
            if ledger.has_transaction(t.id) {
                proof {
                    let front = log.take(k as int);
                    let j = choose|j: int| 0 <= j < front.len() && (#[trigger] front[j]).id == t.id;
                    assert(log[j].id == log[k as int].id);
                }
                return Err(Error::DuplicateId);
            }
            proof {
                let front = log.take(k as int);
                let next = log.take(k + 1);
                assert(next =~= front.push(t@));
                assert forall|a: int, b: int|
                    0 <= a < next.len() && 0 <= b < next.len() && (#[trigger] next[a]).id == (
                    #[trigger] next[b]).id implies a == b by {
                    if a < k && b < k {
                        assert(front[a].id == front[b].id);
                    } else if a < k {
                        assert(front[a].id == t.id);
                    } else if b < k {
                        assert(front[b].id == t.id);
                    }
                }
            }
            ledger.record(t);
            k += 1;
        }
        proof {
            assert(log.take(k as int) =~= log);
        }
        Ok(ledger)
    }
}

} // verus!
