//! The relational store: how accounts and transactions are laid out in rows,
//! and how a balance is computed from the transactions of an account.
//!
//! The rows hold no balance: whoever reads an account adds up its
//! transactions.

use vstd::prelude::*;

use crate::account::{Account, AccountType, AccountView};
use crate::amount::Amount;
use crate::amounts::{credit_all, held, lemma_credit_all, total, Amounts};
use crate::command::{AccountModification, Command, CommandView, ModificationView};
use crate::currency::Currency;
use crate::error::Error;
use crate::id::{AccountId, Id, TransactionId};
use crate::rules::history_total;
use crate::text::{join, joined, owned, push_all, push_str, same_text, string_of, views};
use crate::transaction::{
    amounts_for, Transaction, TransactionInner, TransactionInnerView, TransactionView,
};

verus! {

/// The shape of a transaction, as the `type` column of its row names it.
#[derive(Debug, Clone, Copy, PartialEq, Eq, Hash, Structural)]
pub enum TransactionType {
    Received,
    Paid,
    MovePhys,
    MoveVirt,
    Convert,
}

impl TransactionType {
    /// The name of the shape.
    pub open spec fn name(self) -> Seq<char> {
        match self {
            TransactionType::Received => "Received"@,
            TransactionType::Paid => "Paid"@,
            TransactionType::MovePhys => "MovePhys"@,
            TransactionType::MoveVirt => "MoveVirt"@,
            TransactionType::Convert => "Convert"@,
        }
    }

    /// The shape with the given name.
    pub open spec fn of_name(name: Seq<char>) -> Option<TransactionType> {
        if name == "Received"@ {
            Some(TransactionType::Received)
        } else if name == "Paid"@ {
            Some(TransactionType::Paid)
        } else if name == "MovePhys"@ {
            Some(TransactionType::MovePhys)
        } else if name == "MoveVirt"@ {
            Some(TransactionType::MoveVirt)
        } else if name == "Convert"@ {
            Some(TransactionType::Convert)
        } else {
            None
        }
    }

    /// The name of the shape, as it is stored.
    pub fn to_string(&self) -> (s: String)
        ensures
            s@ == self.name(),
            TransactionType::of_name(s@) == Some(*self),
    {
        proof {
            reveal_strlit("Received");
            reveal_strlit("Paid");
            reveal_strlit("MovePhys");
            reveal_strlit("MoveVirt");
            reveal_strlit("Convert");
            assert("Received"@.len() == 8 && "Received"@[0] == 'R');
            assert("Paid"@.len() == 4);
            assert("MovePhys"@.len() == 8 && "MovePhys"@[0] == 'M' && "MovePhys"@[4] == 'P');
            assert("MoveVirt"@.len() == 8 && "MoveVirt"@[0] == 'M' && "MoveVirt"@[4] == 'V');
            assert("Convert"@.len() == 7);
        }
        match self {
            TransactionType::Received => owned("Received"),
            TransactionType::Paid => owned("Paid"),
            TransactionType::MovePhys => owned("MovePhys"),
            TransactionType::MoveVirt => owned("MoveVirt"),
            TransactionType::Convert => owned("Convert"),
        }
    }

    /// Reads a shape from its stored name. Any other text is refused as
    /// `InvalidEncoding`.
    pub fn from_str(s: &str) -> (r: Result<TransactionType, Error>)
        ensures
            r == match TransactionType::of_name(s@) {
                Some(t) => Ok::<TransactionType, Error>(t),
                None => Err(Error::InvalidEncoding),
            },
    {
        if same_text(s, "Received") {
            Ok(TransactionType::Received)
        } else if same_text(s, "Paid") {
            Ok(TransactionType::Paid)
        } else if same_text(s, "MovePhys") {
            Ok(TransactionType::MovePhys)
        } else if same_text(s, "MoveVirt") {
            Ok(TransactionType::MoveVirt)
        } else if same_text(s, "Convert") {
            Ok(TransactionType::Convert)
        } else {
            Err(Error::InvalidEncoding)
        }
    }
}

/// A row of the `transactions` table. The two participants of every shape
/// stand in the columns `acc_1` and `acc_2`: the physical and the virtual
/// account, or for a move its source and its destination.
#[derive(Debug, PartialEq, Eq)]
pub struct TransactionDb {
    pub id: TransactionId,
    pub amount: Amount,
    pub typ: TransactionType,
    /// The amount received in a conversion; empty for every other shape.
    pub new_amount: Option<Amount>,
    /// Who paid or was paid, outside the ledger; empty for moves and
    /// conversions.
    pub external_party: Option<String>,
    pub acc_1: AccountId,
    pub acc_2: AccountId,
    pub notes: String,
}

/// A row of the `transactions` table, as plain values.
pub struct TransactionRow {
    pub id: TransactionId,
    pub amount: Amount,
    pub typ: TransactionType,
    pub new_amount: Option<Amount>,
    pub external_party: Option<Seq<char>>,
    pub acc_1: AccountId,
    pub acc_2: AccountId,
    pub notes: Seq<char>,
}

impl View for TransactionDb {
    type V = TransactionRow;

    open spec fn view(&self) -> TransactionRow {
        TransactionRow {
            id: self.id,
            amount: self.amount,
            typ: self.typ,
            new_amount: self.new_amount,
            external_party: match self.external_party {
                Some(party) => Some(party@),
                None => None,
            },
            acc_1: self.acc_1,
            acc_2: self.acc_2,
            notes: self.notes@,
        }
    }
}

/// The identifier with the same value, for another kind of entity.
pub open spec fn retagged<T, U>(id: Id<T>) -> Id<U> {
    Id(id.0, std::marker::PhantomData)
}

impl TransactionRow {
    /// Whether the row holds what its shape needs: an outside party for a
    /// receipt and a payment, a new amount for a conversion.
    pub open spec fn complete(self) -> bool {
        match self.typ {
            TransactionType::Received => self.external_party is Some,
            TransactionType::Paid => self.external_party is Some,
            TransactionType::MovePhys => true,
            TransactionType::MoveVirt => true,
            TransactionType::Convert => self.new_amount is Some,
        }
    }

    /// The transaction that the row stands for.
    pub open spec fn transaction(self) -> TransactionView {
        TransactionView {
            id: self.id,
            notes: self.notes,
            amount: self.amount,
            inner: match self.typ {
                TransactionType::Received => TransactionInnerView::Received {
                    src: self.external_party->0,
                    dst: retagged(self.acc_1),
                    dst_virt: retagged(self.acc_2),
                },
                TransactionType::Paid => TransactionInnerView::Paid {
                    src: retagged(self.acc_1),
                    src_virt: retagged(self.acc_2),
                    dst: self.external_party->0,
                },
                TransactionType::MovePhys => TransactionInnerView::MovePhys {
                    src: retagged(self.acc_1),
                    dst: retagged(self.acc_2),
                },
                TransactionType::MoveVirt => TransactionInnerView::MoveVirt {
                    src: retagged(self.acc_1),
                    dst: retagged(self.acc_2),
                },
                TransactionType::Convert => TransactionInnerView::Convert {
                    acc: retagged(self.acc_1),
                    acc_virt: retagged(self.acc_2),
                    new_amount: self.new_amount->0,
                },
            },
        }
    }
}

impl TransactionView {
    /// The row that stands for the transaction.
    pub open spec fn row(self) -> TransactionRow {
        let first = self.participants()[0];
        let second = self.participants()[1];
        match self.inner {
            TransactionInnerView::Received { src, dst, dst_virt } => TransactionRow {
                id: self.id,
                amount: self.amount,
                typ: TransactionType::Received,
                new_amount: None,
                external_party: Some(src),
                acc_1: first,
                acc_2: second,
                notes: self.notes,
            },
            TransactionInnerView::Paid { src, src_virt, dst } => TransactionRow {
                id: self.id,
                amount: self.amount,
                typ: TransactionType::Paid,
                new_amount: None,
                external_party: Some(dst),
                acc_1: first,
                acc_2: second,
                notes: self.notes,
            },
            TransactionInnerView::MovePhys { src, dst } => TransactionRow {
                id: self.id,
                amount: self.amount,
                typ: TransactionType::MovePhys,
                new_amount: None,
                external_party: None,
                acc_1: first,
                acc_2: second,
                notes: self.notes,
            },
            TransactionInnerView::MoveVirt { src, dst } => TransactionRow {
                id: self.id,
                amount: self.amount,
                typ: TransactionType::MoveVirt,
                new_amount: None,
                external_party: None,
                acc_1: first,
                acc_2: second,
                notes: self.notes,
            },
            TransactionInnerView::Convert { acc, acc_virt, new_amount } => TransactionRow {
                id: self.id,
                amount: self.amount,
                typ: TransactionType::Convert,
                new_amount: Some(new_amount),
                external_party: None,
                acc_1: first,
                acc_2: second,
                notes: self.notes,
            },
        }
    }
}

/// The row of a transaction is complete and stands for that transaction.
pub proof fn lemma_row_round_trip(t: TransactionView)
    ensures
        t.row().complete(),
        t.row().transaction() == t,
{
}

impl TransactionDb {
    /// The transaction that the row stands for. A row that lacks what its
    /// shape needs is refused as `InvalidEncoding`.
    pub fn to_transaction(self) -> (r: Result<Transaction, Error>)
        ensures
            self@.complete() ==> r is Ok && r->Ok_0@ == self@.transaction(),
            !self@.complete() ==> r is Err && r->Err_0 == Error::InvalidEncoding,
    {
        let TransactionDb { id, amount, typ, new_amount, external_party, acc_1, acc_2, notes } =
            self;
        let inner = match typ {
            TransactionType::Received => match external_party {
                Some(src) => TransactionInner::Received {
                    src,
                    dst: acc_1.unerase(),
                    dst_virt: acc_2.unerase(),
                },
                None => {
                    return Err(Error::InvalidEncoding);
                },
            },
            TransactionType::Paid => match external_party {
                Some(dst) => TransactionInner::Paid {
                    src: acc_1.unerase(),
                    src_virt: acc_2.unerase(),
                    dst,
                },
                None => {
                    return Err(Error::InvalidEncoding);
                },
            },
            TransactionType::MovePhys => TransactionInner::MovePhys {
                src: acc_1.unerase(),
                dst: acc_2.unerase(),
            },
            TransactionType::MoveVirt => TransactionInner::MoveVirt {
                src: acc_1.unerase(),
                dst: acc_2.unerase(),
            },
            TransactionType::Convert => match new_amount {
                Some(new_amount) => TransactionInner::Convert {
                    acc: acc_1.unerase(),
                    acc_virt: acc_2.unerase(),
                    new_amount,
                },
                None => {
                    return Err(Error::InvalidEncoding);
                },
            },
        };
        Ok(Transaction { id, notes, amount, inner })
    }

    /// The row that stands for a transaction.
    pub fn from_transaction(t: Transaction) -> (r: TransactionDb)
        ensures
            r@ == t@.row(),
            r@.complete(),
            r@.transaction() == t@,
    {
        let Transaction { id, notes, amount, inner } = t;
        let r = match inner {
            TransactionInner::Received { src, dst, dst_virt } => TransactionDb {
                id,
                amount,
                typ: TransactionType::Received,
                new_amount: None,
                external_party: Some(src),
                acc_1: dst.erase(),
                acc_2: dst_virt.erase(),
                notes,
            },
            TransactionInner::Paid { src, src_virt, dst } => TransactionDb {
                id,
                amount,
                typ: TransactionType::Paid,
                new_amount: None,
                external_party: Some(dst),
                acc_1: src.erase(),
                acc_2: src_virt.erase(),
                notes,
            },
            TransactionInner::MovePhys { src, dst } => TransactionDb {
                id,
                amount,
                typ: TransactionType::MovePhys,
                new_amount: None,
                external_party: None,
                acc_1: src.erase(),
                acc_2: dst.erase(),
                notes,
            },
            TransactionInner::MoveVirt { src, dst } => TransactionDb {
                id,
                amount,
                typ: TransactionType::MoveVirt,
                new_amount: None,
                external_party: None,
                acc_1: src.erase(),
                acc_2: dst.erase(),
                notes,
            },
            TransactionInner::Convert { acc, acc_virt, new_amount } => TransactionDb {
                id,
                amount,
                typ: TransactionType::Convert,
                new_amount: Some(new_amount),
                external_party: None,
                acc_1: acc.erase(),
                acc_2: acc_virt.erase(),
                notes,
            },
        };
        proof {
            lemma_row_round_trip(t@);
        }
        r
    }
}

/// A row of the `accounts` table. It holds no balance.
#[derive(Debug, PartialEq, Eq)]
pub struct AccountDb {
    pub id: AccountId,
    pub typ: AccountType,
    pub name: String,
    pub notes: String,
    pub enabled: bool,
}

/// A row of the `accounts` table, as plain values.
pub struct AccountRow {
    pub id: AccountId,
    pub typ: AccountType,
    pub name: Seq<char>,
    pub notes: Seq<char>,
    pub enabled: bool,
}

impl View for AccountDb {
    type V = AccountRow;

    open spec fn view(&self) -> AccountRow {
        AccountRow {
            id: self.id,
            typ: self.typ,
            name: self.name@,
            notes: self.notes@,
            enabled: self.enabled,
        }
    }
}

/// All the amounts that the transactions of `log` hold for account `id`,
/// oldest transaction first.
pub open spec fn history_amounts(log: Seq<TransactionView>, id: AccountId) -> Seq<Amount>
    decreases log.len(),
{
    if log.len() == 0 {
        Seq::empty()
    } else {
        history_amounts(log.drop_last(), id) + amounts_for(log.last().deltas(), id)
    }
}

/// Whether the balance changes of every transaction can be written down.
pub open spec fn all_representable(log: Seq<TransactionView>) -> bool {
    forall|i: int| 0 <= i < log.len() ==> (#[trigger] log[i]).representable()
}

/// The balance that the transactions of `log` add up to for account `id`,
/// if every sum on the way fits an amount.
pub open spec fn recomputed(log: Seq<TransactionView>, id: AccountId) -> Option<Map<Currency, i32>> {
    if all_representable(log) {
        credit_all(Map::empty(), history_amounts(log, id))
    } else {
        None
    }
}

/// The total of two runs of amounts, one after the other, is the sum of
/// their totals.
pub proof fn lemma_total_concat(a: Seq<Amount>, b: Seq<Amount>, c: Currency)
    ensures
        total(a + b, c) == total(a, c) + total(b, c),
    decreases b.len(),
{
    if b.len() == 0 {
        assert(a + b =~= a);
    } else {
        assert((a + b).drop_last() =~= a + b.drop_last());
        assert((a + b).last() == b.last());
        lemma_total_concat(a, b.drop_last(), c);
    }
}

/// The amounts of an account's history add up to what its transactions add
/// to it.
pub proof fn lemma_history_amounts_total(log: Seq<TransactionView>, id: AccountId, c: Currency)
    ensures
        total(history_amounts(log, id), c) == history_total(log, id, c),
    decreases log.len(),
{
    if log.len() > 0 {
        lemma_history_amounts_total(log.drop_last(), id, c);
        lemma_total_concat(
            history_amounts(log.drop_last(), id),
            amounts_for(log.last().deltas(), id),
            c,
        );
    }
}

/// A balance computed from the transactions holds, in every currency, what
/// the transactions add up to: the same sum to which a balance that is kept
/// up to date command by command is held.
pub proof fn lemma_recomputed_balance(log: Seq<TransactionView>, id: AccountId, c: Currency)
    requires
        recomputed(log, id) is Some,
    ensures
        held(recomputed(log, id)->0, c) == history_total(log, id, c),
{
    lemma_credit_all(Map::empty(), history_amounts(log, id));
    lemma_history_amounts_total(log, id, c);
}

impl AccountDb {
    /// The row that stands for an account. The balance is left out.
    pub fn from_account(account: Account) -> (r: AccountDb)
        ensures
            r@ == (AccountRow {
                id: account.id,
                typ: account.typ,
                name: account.name@,
                notes: account.notes@,
                enabled: account.enabled,
            }),
    {
        let Account { id, name, notes, typ, current: _, enabled } = account;
        AccountDb { id, typ, name, notes, enabled }
    }

    /// The account that the row stands for, with the balance that the given
    /// transactions add up to for it. Transactions in which the account
    /// takes no part add nothing. If a sum does not fit an amount, or a
    /// transaction takes away an amount without an opposite, the answer is
    /// `AmountOutOfRange`.
    pub fn to_account(self, transactions: &Vec<Transaction>) -> (r: Result<Account, Error>)
        ensures
            match recomputed(crate::ledger::transaction_views(transactions@), self.id) {
                Some(sheet) => r is Ok && r->Ok_0@ == (AccountView {
                    id: self.id,
                    name: self.name@,
                    notes: self.notes@,
                    typ: self.typ,
                    current: sheet,
                    enabled: self.enabled,
                }),
                None => r is Err && r->Err_0 == Error::AmountOutOfRange,
            },
    {
        let ghost log = crate::ledger::transaction_views(transactions@);
        let id = self.id;
        let mut amounts: Vec<Amount> = Vec::new();
        let mut i: usize = 0;
        proof {
            assert(log.take(0) =~= Seq::<TransactionView>::empty());
        }
        while i < transactions.len()
            invariant
                i <= transactions.len(),
                log == crate::ledger::transaction_views(transactions@),
                all_representable(log.take(i as int)),
                amounts@ == history_amounts(log.take(i as int), id),
            decreases transactions.len() - i,
        {
            let ghost front = log.take(i as int);
            let ghost next = log.take(i + 1);
            proof {
                assert(next.drop_last() =~= front);
                assert(next.last() == transactions@[i as int]@);
            }
            let deltas = match transactions[i].checked_results() {
                Some(d) => d,
                None => {
                    proof {
                        assert(!log[i as int].representable());
                    }
                    return Err(Error::AmountOutOfRange);
                },
            };
            let ghost before = amounts@;
            let mut k: usize = 0;
            proof {
                assert(deltas@.take(0) =~= Seq::<(AccountId, Amount)>::empty());
            }
            while k < deltas.len()
                invariant
                    k <= deltas.len(),
                    amounts@ == before + amounts_for(deltas@.take(k as int), id),
                decreases deltas.len() - k,
            {
                proof {
                    assert(deltas@.take(k + 1).drop_last() =~= deltas@.take(k as int));
                    assert(deltas@.take(k + 1).last() == deltas@[k as int]);
                }
                if deltas[k].0 == id {
                    amounts.push(deltas[k].1);
                }
                k += 1;
                proof {
                    assert(amounts@ =~= before + amounts_for(deltas@.take(k as int), id));
                }
            }
            proof {
                assert(deltas@.take(k as int) =~= deltas@);
                assert forall|j: int| 0 <= j < next.len() implies (#[trigger] next[j]).representable() by {
                    if j < i {
                        assert(front[j].representable());
                    }
                }
            }
            i += 1;
        }
        proof {
            assert(log.take(i as int) =~= log);
        }
        let AccountDb { id, typ, name, notes, enabled } = self;
        match Amounts::sum(&amounts) {
            Some(current) => Ok(Account { id, name, notes, typ, current, enabled }),
            None => Err(Error::AmountOutOfRange),
        }
    }
}

/// A value bound to a placeholder of a statement.
#[derive(Debug, PartialEq, Eq)]
pub enum SqlValue {
    /// A truth value.
    Flag(bool),
    /// A text.
    Text(String),
    /// The identifier of an account, stored as its text.
    Key(AccountId),
}

/// A value bound to a placeholder, as plain values.
pub enum SqlValueView {
    Flag(bool),
    Text(Seq<char>),
    Key(AccountId),
}

impl View for SqlValue {
    type V = SqlValueView;

    open spec fn view(&self) -> SqlValueView {
        match *self {
            SqlValue::Flag(b) => SqlValueView::Flag(b),
            SqlValue::Text(s) => SqlValueView::Text(s@),
            SqlValue::Key(id) => SqlValueView::Key(id),
        }
    }
}

/// The values of a list, as plain values.
pub open spec fn value_views(values: Seq<SqlValue>) -> Seq<SqlValueView> {
    values.map_values(|v: SqlValue| v@)
}

/// What a command writes to the tables of accounts and transactions.
#[derive(Debug, PartialEq, Eq)]
pub enum Write {
    /// A new row in `accounts`.
    InsertAccount(AccountDb),
    /// New values in some columns of one row of `accounts`. The last value
    /// is the identifier of the row.
    UpdateAccount { statement: String, values: Vec<SqlValue> },
    /// Nothing: an update without changes.
    Nothing,
    /// A new row in `transactions`.
    InsertTransaction(TransactionDb),
}

/// What a command writes, as plain values.
pub enum WriteView {
    InsertAccount(AccountRow),
    UpdateAccount { statement: Seq<char>, values: Seq<SqlValueView> },
    Nothing,
    InsertTransaction(TransactionRow),
}

impl View for Write {
    type V = WriteView;

    open spec fn view(&self) -> WriteView {
        match *self {
            Write::InsertAccount(row) => WriteView::InsertAccount(row@),
            Write::UpdateAccount { statement, values } => WriteView::UpdateAccount {
                statement: statement@,
                values: value_views(values@),
            },
            Write::Nothing => WriteView::Nothing,
            Write::InsertTransaction(row) => WriteView::InsertTransaction(row@),
        }
    }
}

impl ModificationView {
    /// The column that the change writes to.
    pub open spec fn column(self) -> Seq<char> {
        match self {
            ModificationView::Disable => "enabled"@,
            ModificationView::UpdateName(_) => "name"@,
            ModificationView::UpdateNotes(_) => "notes"@,
        }
    }

    /// The value that the change writes.
    pub open spec fn value(self) -> SqlValueView {
        match self {
            ModificationView::Disable => SqlValueView::Flag(false),
            ModificationView::UpdateName(name) => SqlValueView::Text(name),
            ModificationView::UpdateNotes(notes) => SqlValueView::Text(notes),
        }
    }
}

/// The assignments of an update: for each change its column and a
/// placeholder.
pub open spec fn assignments(changes: Seq<ModificationView>) -> Seq<Seq<char>> {
    changes.map_values(|m: ModificationView| m.column() + " = ?"@)
}

/// The statement that makes the given changes to one row of `accounts`.
pub open spec fn update_statement(changes: Seq<ModificationView>) -> Seq<char> {
    "UPDATE accounts SET "@ + joined(assignments(changes), ", "@) + " WHERE id = ?"@
}

/// The values of the statement's placeholders: one for each change, in
/// order, and the identifier of the row.
pub open spec fn update_values(id: AccountId, changes: Seq<ModificationView>) -> Seq<SqlValueView> {
    changes.map_values(|m: ModificationView| m.value()).push(SqlValueView::Key(id))
}

impl AccountView {
    /// The row that stands for the account.
    pub open spec fn row(self) -> AccountRow {
        AccountRow {
            id: self.id,
            typ: self.typ,
            name: self.name,
            notes: self.notes,
            enabled: self.enabled,
        }
    }
}

impl CommandView {
    /// What the command writes to the tables of accounts and transactions.
    pub open spec fn write(self) -> WriteView {
        match self {
            CommandView::CreateAccount(account) => WriteView::InsertAccount(account.row()),
            CommandView::UpdateAccount(id, changes) => if changes.len() == 0 {
                WriteView::Nothing
            } else {
                WriteView::UpdateAccount {
                    statement: update_statement(changes),
                    values: update_values(id, changes),
                }
            },
            CommandView::AddTransaction(t) => WriteView::InsertTransaction(t.row()),
        }
    }
}

/// What a command writes to the tables of accounts and transactions: a
/// row for a new account or a new transaction, and for changes to an
/// account the statement that makes them.
pub fn write_of(cmd: Command) -> (w: Write)
    ensures
        w@ == cmd@.write(),
{
    match cmd {
        Command::CreateAccount(account) => Write::InsertAccount(AccountDb::from_account(account)),
        Command::AddTransaction(t) => Write::InsertTransaction(TransactionDb::from_transaction(t)),
        Command::UpdateAccount(id, changes) => {
            if changes.len() == 0 {
                return Write::Nothing;
            }
            let ghost all = crate::command::modification_views(changes@);
            let mut columns: Vec<Vec<char>> = Vec::new();
            let mut values: Vec<SqlValue> = Vec::new();
            let mut i: usize = 0;
            while i < changes.len()
                invariant
                    i <= changes.len(),
                    all == crate::command::modification_views(changes@),
                    views(columns@) == assignments(all.take(i as int)),
                    value_views(values@) == all.take(i as int).map_values(
                        |m: ModificationView| m.value(),
                    ),
                decreases changes.len() - i,
            {
                let ghost columns_before = views(columns@);
                let ghost values_before = value_views(values@);
                let mut column: Vec<char> = Vec::new();
                match &changes[i] {
                    AccountModification::Disable => {
                        push_str(&mut column, "enabled");
                        values.push(SqlValue::Flag(false));
                    },
                    AccountModification::UpdateName(name) => {
                        push_str(&mut column, "name");
                        values.push(SqlValue::Text(name.clone()));
                    },
                    AccountModification::UpdateNotes(notes) => {
                        push_str(&mut column, "notes");
                        values.push(SqlValue::Text(notes.clone()));
                    },
                }
                push_str(&mut column, " = ?");
                columns.push(column);
                i += 1;
                proof {
                    let m = changes@[i - 1]@;
                    assert(all.take(i as int) =~= all.take(i - 1).push(m));
                    assert(column@ =~= m.column() + " = ?"@);
                    assert(views(columns@) =~= columns_before.push(column@));
                    assert(views(columns@) =~= assignments(all.take(i as int)));
                    assert(value_views(values@) =~= values_before.push(m.value()));
                    assert(value_views(values@) =~= all.take(i as int).map_values(
                        |m: ModificationView| m.value(),
                    ));
                }
            }
            proof {
                assert(all.take(i as int) =~= all);
            }
            let ghost bound = value_views(values@);
            values.push(SqlValue::Key(id));
            let mut statement: Vec<char> = Vec::new();
            push_str(&mut statement, "UPDATE accounts SET ");
            let list = join(columns, ", ");
            push_all(&mut statement, &list);
            push_str(&mut statement, " WHERE id = ?");
            proof {
                assert(statement@ =~= update_statement(all));
                assert(value_views(values@) =~= bound.push(SqlValueView::Key(id)));
            }
            Write::UpdateAccount { statement: string_of(&statement), values }
        },
    }
}

} // verus!
