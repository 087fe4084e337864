//! The rules of the ledger, stated on plain values: what each command does
//! to a ledger, when it is refused, and what holds of every ledger that
//! commands have built.

use vstd::prelude::*;

use crate::account::AccountView;
use crate::amount::Amount;
use crate::amounts::{
    credit_all, first_negative_in, held, lemma_credit_all, sheet_non_negative, total,
};
use crate::command::{CommandView, ModificationView};
use crate::currency::Currency;
use crate::error::Error;
use crate::id::{AccountId, TransactionId};
use crate::order::lemma_rising_unique;
use crate::transaction::{amounts_for, TransactionView};

verus! {

/// A ledger, as plain values: its accounts by identifier, and the
/// transactions recorded so far, oldest first.
pub struct LedgerView {
    pub accounts: Map<AccountId, AccountView>,
    pub log: Seq<TransactionView>,
}

/// The account after one change to its description. The balance stays.
pub open spec fn modified(account: AccountView, change: ModificationView) -> AccountView {
    match change {
        ModificationView::Disable => AccountView { enabled: false, ..account },
        ModificationView::UpdateName(name) => AccountView { name, ..account },
        ModificationView::UpdateNotes(notes) => AccountView { notes, ..account },
    }
}

/// The account after the changes were made in order: of two changes to the
/// same field the later one stays.
pub open spec fn modified_all(account: AccountView, changes: Seq<ModificationView>) -> AccountView
    decreases changes.len(),
{
    if changes.len() == 0 {
        account
    } else {
        modified(modified_all(account, changes.drop_last()), changes.last())
    }
}

/// The first currency, in alphabetical order, in which the sheet holds less
/// than nothing.
pub open spec fn first_negative(sheet: Map<Currency, i32>) -> Currency {
    choose|c: Currency| first_negative_in(sheet, c)
}

/// Whether a transaction with this identifier is on record.
pub open spec fn recorded(log: Seq<TransactionView>, id: TransactionId) -> bool {
    exists|i: int| 0 <= i < log.len() && (#[trigger] log[i]).id == id
}

/// What transaction `t` leaves of account `id`: every amount that the
/// transaction holds for the account is added to the balance, in order. The
/// account must exist, each sum must fit an amount, and in the end no
/// currency may be below zero.
pub open spec fn posted(
    accounts: Map<AccountId, AccountView>,
    t: TransactionView,
    id: AccountId,
) -> Result<AccountView, Error> {
    if !accounts.contains_key(id) {
        Err(Error::NotFound)
    } else {
        match credit_all(accounts[id].current, amounts_for(t.deltas(), id)) {
            None => Err(Error::AmountOutOfRange),
            Some(sheet) => if sheet_non_negative(sheet) {
                Ok(AccountView { current: sheet, ..accounts[id] })
            } else {
                Err(Error::NegativeBalance { account: id, currency: first_negative(sheet) })
            },
        }
    }
}

/// What all the transactions of `log` add to account `id` in currency `c`.
pub open spec fn history_total(log: Seq<TransactionView>, id: AccountId, c: Currency) -> int
    decreases log.len(),
{
    if log.len() == 0 {
        0
    } else {
        history_total(log.drop_last(), id, c) + total(amounts_for(log.last().deltas(), id), c)
    }
}

impl LedgerView {
    /// The ledger without accounts or transactions.
    pub open spec fn empty() -> LedgerView {
        LedgerView { accounts: Map::empty(), log: Seq::empty() }
    }

    /// The accounts that a command creates or changes, as they are after
    /// it, where the command is accepted.
    pub open spec fn changes(self, cmd: CommandView) -> Seq<AccountView> {
        match cmd {
            CommandView::CreateAccount(account) => seq![account],
            CommandView::UpdateAccount(id, changes) => seq![
                modified_all(self.accounts[id], changes),
            ],
            CommandView::AddTransaction(t) => {
                let first = t.participants()[0];
                let second = t.participants()[1];
                if first == second {
                    seq![posted(self.accounts, t, first)->Ok_0]
                } else {
                    seq![
                        posted(self.accounts, t, first)->Ok_0,
                        posted(self.accounts, t, second)->Ok_0,
                    ]
                }
            },
        }
    }

    /// Why a command is refused, if it is.
    ///
    /// An account can be created only under an identifier that no account
    /// has, and changed only if it exists. A transaction is refused if one
    /// with its identifier is on record, if the amount it takes away has no
    /// opposite, or if the first of its two participants, or else the
    /// second, does not exist, would hold an amount out of range, or would
    /// fall below zero in some currency.
    pub open spec fn refusal(self, cmd: CommandView) -> Option<Error> {
        match cmd {
            CommandView::CreateAccount(account) => if self.accounts.contains_key(account.id) {
                Some(Error::DuplicateId)
            } else {
                None
            },
            CommandView::UpdateAccount(id, changes) => if self.accounts.contains_key(id) {
                None
            } else {
                Some(Error::NotFound)
            },
            CommandView::AddTransaction(t) => {
                let first = t.participants()[0];
                let second = t.participants()[1];
                if recorded(self.log, t.id) {
                    Some(Error::DuplicateId)
                } else if !t.representable() {
                    Some(Error::AmountOutOfRange)
                } else if posted(self.accounts, t, first) is Err {
                    Some(posted(self.accounts, t, first)->Err_0)
                } else if first != second && posted(self.accounts, t, second) is Err {
                    Some(posted(self.accounts, t, second)->Err_0)
                } else {
                    None
                }
            },
        }
    }

    /// The ledger after an accepted command: the accounts that the command
    /// creates or changes are put in place, and a transaction is added to
    /// the record.
    pub open spec fn accepted(self, cmd: CommandView) -> LedgerView {
        match cmd {
            CommandView::CreateAccount(account) => LedgerView {
                accounts: self.accounts.insert(account.id, account),
                log: self.log,
            },
            CommandView::UpdateAccount(id, changes) => LedgerView {
                accounts: self.accounts.insert(id, modified_all(self.accounts[id], changes)),
                log: self.log,
            },
            CommandView::AddTransaction(t) => {
                let first = t.participants()[0];
                let second = t.participants()[1];
                let one = self.accounts.insert(first, posted(self.accounts, t, first)->Ok_0);
                LedgerView {
                    accounts: if first == second {
                        one
                    } else {
                        one.insert(second, posted(self.accounts, t, second)->Ok_0)
                    },
                    log: self.log.push(t),
                }
            },
        }
    }

    /// The outcome of a command: the ledger after it, or why it is refused.
    pub open spec fn step(self, cmd: CommandView) -> Result<LedgerView, Error> {
        match self.refusal(cmd) {
            Some(e) => Err(e),
            None => Ok(self.accepted(cmd)),
        }
    }

    /// The ledger after a command was submitted: a refused command leaves
    /// it as it was.
    pub open spec fn after(self, cmd: CommandView) -> LedgerView {
        match self.step(cmd) {
            Ok(next) => next,
            Err(_) => self,
        }
    }

    /// The ledger after each of `cmds` was submitted in turn.
    pub open spec fn after_all(self, cmds: Seq<CommandView>) -> LedgerView
        decreases cmds.len(),
    {
        if cmds.len() == 0 {
            self
        } else {
            self.after_all(cmds.drop_last()).after(cmds.last())
        }
    }

    /// Whether `list` holds every account once, in the order of the
    /// identifiers.
    pub open spec fn lists_accounts(self, list: Seq<AccountView>) -> bool {
        &&& forall|i: int|
            0 <= i < list.len() ==> self.accounts.contains_key((#[trigger] list[i]).id)
                && self.accounts[list[i].id] == list[i]
        &&& forall|id: AccountId| #[trigger]
            self.accounts.contains_key(id) ==> list.contains(self.accounts[id])
        &&& forall|i: int, j: int|
            0 <= i < j < list.len() ==> (#[trigger] list[i]).id.0 < (#[trigger] list[j]).id.0
    }

    /// Whether `list` holds the recorded transactions in which account `id`
    /// takes part, each once, in the order of their identifiers.
    pub open spec fn lists_transactions(self, id: AccountId, list: Seq<TransactionView>) -> bool {
        &&& forall|i: int|
            0 <= i < list.len() ==> (#[trigger] list[i]).involves(id) && self.log.contains(list[i])
        &&& forall|j: int|
            0 <= j < self.log.len() && (#[trigger] self.log[j]).involves(id) ==> list.contains(
                self.log[j],
            )
        &&& forall|i: int, j: int|
            0 <= i < j < list.len() ==> (#[trigger] list[i]).id.0 < (#[trigger] list[j]).id.0
    }

    /// Whether every account is filed under its own identifier.
    pub open spec fn filed(self) -> bool {
        forall|id: AccountId| #[trigger] self.accounts.contains_key(id) ==> self.accounts[id].id == id
    }

    /// Whether every balance is what the recorded transactions add up to.
    pub open spec fn balanced(self) -> bool {
        forall|id: AccountId, c: Currency|
            self.accounts.contains_key(id) ==> held(self.accounts[id].current, c)
                == #[trigger] history_total(self.log, id, c)
    }

    /// Whether no account holds less than nothing in any currency.
    pub open spec fn solvent(self) -> bool {
        forall|id: AccountId| #[trigger]
            self.accounts.contains_key(id) ==> self.accounts[id].non_negative()
    }

    /// Whether every recorded transaction names accounts that exist.
    pub open spec fn grounded(self) -> bool {
        forall|i: int, id: AccountId|
            0 <= i < self.log.len() && (#[trigger] self.log[i]).involves(id)
                ==> #[trigger] self.accounts.contains_key(id)
    }
}

/// Whether each account that `cmds` creates starts out holding nothing.
pub open spec fn opens_empty(cmds: Seq<CommandView>) -> bool {
    forall|i: int|
        0 <= i < cmds.len() && (#[trigger] cmds[i]) is CreateAccount
            ==> cmds[i]->CreateAccount_0.holds_nothing()
}

/// Whether no account that `cmds` creates starts out below zero.
pub open spec fn opens_solvent(cmds: Seq<CommandView>) -> bool {
    forall|i: int|
        0 <= i < cmds.len() && (#[trigger] cmds[i]) is CreateAccount
            ==> cmds[i]->CreateAccount_0.non_negative()
}

/// Changes to an account's description leave its identifier, its axis and
/// its balance as they are.
pub proof fn lemma_modified_all_keeps(account: AccountView, changes: Seq<ModificationView>)
    ensures
        modified_all(account, changes).id == account.id,
        modified_all(account, changes).typ == account.typ,
        modified_all(account, changes).current == account.current,
    decreases changes.len(),
{
    if changes.len() > 0 {
        lemma_modified_all_keeps(account, changes.drop_last());
    }
}

/// Deltas that do not name an account hold no amounts for it.
pub proof fn lemma_amounts_for_none(deltas: Seq<(AccountId, Amount)>, id: AccountId)
    requires
        forall|i: int| 0 <= i < deltas.len() ==> (#[trigger] deltas[i]).0 != id,
    ensures
        amounts_for(deltas, id) == Seq::<Amount>::empty(),
    decreases deltas.len(),
{
    if deltas.len() > 0 {
        assert(deltas[deltas.len() - 1].0 != id);
        lemma_amounts_for_none(deltas.drop_last(), id);
    }
}

/// A transaction holds no amounts for an account that takes no part in it.
pub proof fn lemma_amounts_for_stranger(t: TransactionView, id: AccountId)
    requires
        !t.involves(id),
    ensures
        amounts_for(t.deltas(), id) == Seq::<Amount>::empty(),
{
    lemma_amounts_for_none(t.deltas(), id);
}

/// Transactions add nothing to an account that takes part in none of them.
pub proof fn lemma_history_stranger(log: Seq<TransactionView>, id: AccountId, c: Currency)
    requires
        forall|i: int| 0 <= i < log.len() ==> !(#[trigger] log[i]).involves(id),
    ensures
        history_total(log, id, c) == 0,
    decreases log.len(),
{
    if log.len() > 0 {
        assert(!log[log.len() - 1].involves(id));
        lemma_amounts_for_stranger(log.last(), id);
        lemma_history_stranger(log.drop_last(), id, c);
    }
}

/// A refused command changes nothing: neither a balance nor the record.
pub proof fn lemma_refused_changes_nothing(ledger: LedgerView, cmd: CommandView)
    requires
        ledger.step(cmd) is Err,
    ensures
        ledger.after(cmd) == ledger,
{
}

/// A transaction that one of its participants cannot bear is refused as a
/// whole: every balance and the record stay as they were, and the
/// transaction is not on record afterwards.
pub proof fn lemma_transaction_is_atomic(ledger: LedgerView, t: TransactionView, id: AccountId)
    requires
        t.involves(id),
        posted(ledger.accounts, t, id) is Err,
        !recorded(ledger.log, t.id),
    ensures
        ledger.step(CommandView::AddTransaction(t)) is Err,
        ledger.after(CommandView::AddTransaction(t)) == ledger,
        !recorded(ledger.after(CommandView::AddTransaction(t)).log, t.id),
{
}

/// What a balance is after an accepted transaction: what it was, and what
/// the transaction holds for the account.
pub proof fn lemma_posted_balance(
    accounts: Map<AccountId, AccountView>,
    t: TransactionView,
    id: AccountId,
    c: Currency,
)
    requires
        posted(accounts, t, id) is Ok,
    ensures
        held(posted(accounts, t, id)->Ok_0.current, c) == held(accounts[id].current, c) + total(
            amounts_for(t.deltas(), id),
            c,
        ),
        posted(accounts, t, id)->Ok_0.non_negative(),
        posted(accounts, t, id)->Ok_0.id == accounts[id].id,
        accounts.contains_key(id),
{
    lemma_credit_all(accounts[id].current, amounts_for(t.deltas(), id));
}

/// One command keeps the balances in step with the recorded transactions,
/// if an account that it creates starts out holding nothing.
pub proof fn lemma_step_balanced(ledger: LedgerView, cmd: CommandView)
    requires
        ledger.balanced(),
        ledger.grounded(),
        cmd is CreateAccount ==> cmd->CreateAccount_0.holds_nothing(),
    ensures
        ledger.after(cmd).balanced(),
        ledger.after(cmd).grounded(),
{
    let next = ledger.after(cmd);
    if ledger.step(cmd) is Ok {
        match cmd {
            CommandView::CreateAccount(account) => {
                assert forall|id: AccountId, c: Currency|
                    next.accounts.contains_key(id) implies held(next.accounts[id].current, c)
                    == #[trigger] history_total(next.log, id, c) by {
                    if id == account.id {
                        assert forall|i: int| 0 <= i < ledger.log.len() implies !(
                        #[trigger] ledger.log[i]).involves(id) by {
                            if ledger.log[i].involves(id) {
                                assert(ledger.accounts.contains_key(id));
                            }
                        }
                        lemma_history_stranger(ledger.log, id, c);
                    } else {
                        assert(ledger.accounts.contains_key(id));
                    }
                }
                assert forall|i: int, id: AccountId|
                    0 <= i < next.log.len() && (#[trigger] next.log[i]).involves(
                        id,
                    ) implies #[trigger] next.accounts.contains_key(id) by {
                    assert(ledger.accounts.contains_key(id));
                }
            },
            CommandView::UpdateAccount(target, changes) => {
                lemma_modified_all_keeps(ledger.accounts[target], changes);
                assert forall|id: AccountId, c: Currency|
                    next.accounts.contains_key(id) implies held(next.accounts[id].current, c)
                    == #[trigger] history_total(next.log, id, c) by {
                    assert(ledger.accounts.contains_key(id));
                }
                assert forall|i: int, id: AccountId|
                    0 <= i < next.log.len() && (#[trigger] next.log[i]).involves(
                        id,
                    ) implies #[trigger] next.accounts.contains_key(id) by {
                    assert(ledger.accounts.contains_key(id));
                }
            },
            CommandView::AddTransaction(t) => {
                let first = t.participants()[0];
                let second = t.participants()[1];
                assert(next.log.drop_last() =~= ledger.log);
                assert(next.log.last() == t);
                assert forall|id: AccountId, c: Currency|
                    next.accounts.contains_key(id) implies held(next.accounts[id].current, c)
                    == #[trigger] history_total(next.log, id, c) by {
                    assert(ledger.accounts.contains_key(id)) by {
                        lemma_posted_balance(ledger.accounts, t, first, c);
                        if first != second {
                            lemma_posted_balance(ledger.accounts, t, second, c);
                        }
                    }
                    assert(held(ledger.accounts[id].current, c) == history_total(ledger.log, id, c));
                    if id == first {
                        lemma_posted_balance(ledger.accounts, t, first, c);
                    } else if id == second {
                        lemma_posted_balance(ledger.accounts, t, second, c);
                    } else {
                        lemma_amounts_for_stranger(t, id);
                    }
                }
                assert forall|i: int, id: AccountId|
                    0 <= i < next.log.len() && (#[trigger] next.log[i]).involves(
                        id,
                    ) implies #[trigger] next.accounts.contains_key(id) by {
                    if i < ledger.log.len() {
                        assert(next.log[i] == ledger.log[i]);
                        assert(ledger.accounts.contains_key(id));
                    }
                }
            },
        }
    }
}

/// One command keeps every balance at or above zero, if an account that it
/// creates does not start out below zero.
pub proof fn lemma_step_solvent(ledger: LedgerView, cmd: CommandView)
    requires
        ledger.solvent(),
        cmd is CreateAccount ==> cmd->CreateAccount_0.non_negative(),
    ensures
        ledger.after(cmd).solvent(),
{
    let next = ledger.after(cmd);
    if ledger.step(cmd) is Ok {
        match cmd {
            CommandView::CreateAccount(account) => {
                assert forall|id: AccountId| #[trigger]
                    next.accounts.contains_key(id) implies next.accounts[id].non_negative() by {
                    if id != account.id {
                        assert(ledger.accounts.contains_key(id));
                    }
                }
            },
            CommandView::UpdateAccount(target, changes) => {
                lemma_modified_all_keeps(ledger.accounts[target], changes);
                assert(ledger.accounts.contains_key(target));
                assert forall|id: AccountId| #[trigger]
                    next.accounts.contains_key(id) implies next.accounts[id].non_negative() by {
                    assert(ledger.accounts.contains_key(id));
                }
            },
            CommandView::AddTransaction(t) => {
                let first = t.participants()[0];
                let second = t.participants()[1];
                assert forall|id: AccountId| #[trigger]
                    next.accounts.contains_key(id) implies next.accounts[id].non_negative() by {
                    if id != first && id != second {
                        assert(ledger.accounts.contains_key(id));
                    }
                }
            },
        }
    }
}

/// After any sequence of commands, starting from an empty ledger in which
/// accounts are created holding nothing, every account's balance in every
/// currency is the sum of what the recorded transactions hold for it.
pub proof fn lemma_balances_follow_history(cmds: Seq<CommandView>)
    requires
        opens_empty(cmds),
    ensures
        LedgerView::empty().after_all(cmds).balanced(),
        LedgerView::empty().after_all(cmds).grounded(),
    decreases cmds.len(),
{
    if cmds.len() > 0 {
        let front = cmds.drop_last();
        assert forall|i: int|
            0 <= i < front.len() && (#[trigger] front[i]) is CreateAccount implies front[i]->CreateAccount_0.holds_nothing() by {
            assert(front[i] == cmds[i]);
        }
        lemma_balances_follow_history(front);
        assert(cmds[cmds.len() - 1] == cmds.last());
        lemma_step_balanced(LedgerView::empty().after_all(front), cmds.last());
    }
}

/// After any sequence of commands, starting from an empty ledger in which
/// no account is created below zero, no account holds less than nothing in
/// any currency.
pub proof fn lemma_never_negative(cmds: Seq<CommandView>)
    requires
        opens_solvent(cmds),
    ensures
        LedgerView::empty().after_all(cmds).solvent(),
    decreases cmds.len(),
{
    if cmds.len() > 0 {
        let front = cmds.drop_last();
        assert forall|i: int|
            0 <= i < front.len() && (#[trigger] front[i]) is CreateAccount implies front[i]->CreateAccount_0.non_negative() by {
            assert(front[i] == cmds[i]);
        }
        lemma_never_negative(front);
        assert(cmds[cmds.len() - 1] == cmds.last());
        lemma_step_solvent(LedgerView::empty().after_all(front), cmds.last());
    }
}

/// A ledger has one list of its accounts: whoever lists them, a store on
/// this machine or a server for a client, hands out the same list.
pub proof fn lemma_one_account_list(ledger: LedgerView, a: Seq<AccountView>, b: Seq<AccountView>)
    requires
        ledger.lists_accounts(a),
        ledger.lists_accounts(b),
    ensures
        a == b,
{
    let key = |x: AccountView| x.id.0 as int;
    assert forall|x: int| 0 <= x < a.len() implies b.contains(#[trigger] a[x]) by {
        assert(ledger.accounts.contains_key(a[x].id));
    }
    assert forall|x: int| 0 <= x < b.len() implies a.contains(#[trigger] b[x]) by {
        assert(ledger.accounts.contains_key(b[x].id));
    }
    lemma_rising_unique(a, b, key);
}

/// A ledger has one list of the transactions of an account.
pub proof fn lemma_one_transaction_list(
    ledger: LedgerView,
    id: AccountId,
    a: Seq<TransactionView>,
    b: Seq<TransactionView>,
)
    requires
        ledger.lists_transactions(id, a),
        ledger.lists_transactions(id, b),
    ensures
        a == b,
{
    let key = |x: TransactionView| x.id.0 as int;
    assert forall|x: int| 0 <= x < a.len() implies b.contains(#[trigger] a[x]) by {
        assert(ledger.log.contains(a[x]));
        let j = choose|j: int| 0 <= j < ledger.log.len() && ledger.log[j] == a[x];
        assert(ledger.log[j].involves(id));
    }
    assert forall|x: int| 0 <= x < b.len() implies a.contains(#[trigger] b[x]) by {
        assert(ledger.log.contains(b[x]));
        let j = choose|j: int| 0 <= j < ledger.log.len() && ledger.log[j] == b[x];
        assert(ledger.log[j].involves(id));
    }
    lemma_rising_unique(a, b, key);
}

/// What a transaction adds to the ledger as a whole in currency `c`: the
/// total of all that it holds for its participants.
pub open spec fn net_change(t: TransactionView, c: Currency) -> int {
    total(t.deltas().map_values(|d: (AccountId, Amount)| d.1), c)
}

/// A move adds nothing to the ledger as a whole: what leaves the source
/// arrives at the destination.
pub proof fn lemma_moves_are_zero_sum(t: TransactionView, c: Currency)
    requires
        t.inner is MovePhys || t.inner is MoveVirt,
        t.representable(),
    ensures
        net_change(t, c) == 0,
{
    let amounts = t.deltas().map_values(|d: (AccountId, Amount)| d.1);
    assert(amounts.len() == 2);
    assert(amounts.drop_last().drop_last() =~= Seq::<Amount>::empty());
    assert(total(amounts.drop_last().drop_last(), c) == 0);
    assert(amounts.drop_last().last() == amounts[0]);
    assert(amounts.last() == amounts[1]);
    assert(amounts[0] == crate::transaction::negated(t.amount));
    assert(amounts[1] == t.amount);
    let front = amounts.drop_last();
    assert(total(front, c) == total(front.drop_last(), c) + (if front.last().1 == c {
        front.last().0 as int
    } else {
        0
    }));
    assert(total(amounts, c) == total(front, c) + (if amounts.last().1 == c {
        amounts.last().0 as int
    } else {
        0
    }));
    assert(amounts[0].1 == t.amount.1);
    assert(amounts[0].0 == -t.amount.0);
}

/// A conversion does the same to its physical and to its virtual account.
pub proof fn lemma_conversion_is_symmetric(t: TransactionView)
    requires
        t.inner is Convert,
        t.participants()[0] != t.participants()[1],
    ensures
        amounts_for(t.deltas(), t.participants()[0]) == amounts_for(
            t.deltas(),
            t.participants()[1],
        ),
{
    let first = t.participants()[0];
    let second = t.participants()[1];
    let d = t.deltas();
    let d3 = d.drop_last();
    let d2 = d3.drop_last();
    let d1 = d2.drop_last();
    assert(d1.drop_last() =~= Seq::<(AccountId, Amount)>::empty());
    assert(amounts_for(d1.drop_last(), first) =~= Seq::<Amount>::empty());
    assert(amounts_for(d1.drop_last(), second) =~= Seq::<Amount>::empty());
    assert(d1.last() == d[0]);
    assert(d2.last() == d[1]);
    assert(d3.last() == d[2]);
    assert(d.last() == d[3]);
    assert(amounts_for(d1, first) =~= seq![d[0].1]);
    assert(amounts_for(d2, first) =~= seq![d[0].1, d[1].1]);
    assert(amounts_for(d3, first) =~= seq![d[0].1, d[1].1]);
    assert(amounts_for(d, first) =~= seq![d[0].1, d[1].1]);
    assert(amounts_for(d1, second) =~= Seq::<Amount>::empty());
    assert(amounts_for(d2, second) =~= Seq::<Amount>::empty());
    assert(amounts_for(d3, second) =~= seq![d[2].1]);
    assert(amounts_for(d, second) =~= seq![d[2].1, d[3].1]);
}

} // verus!
