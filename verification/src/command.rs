//! Commands: the only way in which a ledger changes.

use vstd::prelude::*;

use crate::account::{Account, AccountView};
use crate::id::AccountId;
use crate::text::{push_str, string_of};
use crate::transaction::{Transaction, TransactionInner, TransactionInnerView, TransactionView};

verus! {

/// One change to an account's description.
#[derive(Debug, PartialEq, Eq)]
pub enum AccountModification {
    /// Take the account out of use.
    Disable,
    /// Give the account another name.
    UpdateName(String),
    /// Give the account other notes.
    UpdateNotes(String),
}

/// A change to the ledger.
#[derive(Debug, PartialEq, Eq)]
pub enum Command {
    /// Record a new account.
    CreateAccount(Account),
    /// Change the description of an account. The changes apply in order.
    UpdateAccount(AccountId, Vec<AccountModification>),
    /// Record a transaction and apply it to the balances.
    AddTransaction(Transaction),
}

/// One change to an account's description, as plain values.
pub enum ModificationView {
    Disable,
    UpdateName(Seq<char>),
    UpdateNotes(Seq<char>),
}

/// A change to the ledger, as plain values.
pub enum CommandView {
    CreateAccount(AccountView),
    UpdateAccount(AccountId, Seq<ModificationView>),
    AddTransaction(TransactionView),
}

impl View for AccountModification {
    type V = ModificationView;

    open spec fn view(&self) -> ModificationView {
        match *self {
            AccountModification::Disable => ModificationView::Disable,
            AccountModification::UpdateName(name) => ModificationView::UpdateName(name@),
            AccountModification::UpdateNotes(notes) => ModificationView::UpdateNotes(notes@),
        }
    }
}

/// The changes of a list, as plain values.
pub open spec fn modification_views(changes: Seq<AccountModification>) -> Seq<ModificationView> {
    changes.map_values(|m: AccountModification| m@)
}

impl View for Command {
    type V = CommandView;

    open spec fn view(&self) -> CommandView {
        match *self {
            Command::CreateAccount(account) => CommandView::CreateAccount(account@),
            Command::UpdateAccount(id, changes) => CommandView::UpdateAccount(
                id,
                modification_views(changes@),
            ),
            Command::AddTransaction(transaction) => CommandView::AddTransaction(transaction@),
        }
    }
}

impl Clone for AccountModification {
    fn clone(&self) -> (r: Self)
        ensures
            r@ == self@,
    {
        match self {
            AccountModification::Disable => AccountModification::Disable,
            AccountModification::UpdateName(name) => AccountModification::UpdateName(name.clone()),
            AccountModification::UpdateNotes(notes) => AccountModification::UpdateNotes(
                notes.clone(),
            ),
        }
    }
}

/// A copy of a list of changes.
pub fn clone_modifications(changes: &Vec<AccountModification>) -> (r: Vec<AccountModification>)
    ensures
        modification_views(r@) == modification_views(changes@),
{
    let mut out: Vec<AccountModification> = Vec::new();
    let mut i: usize = 0;
    while i < changes.len()
        invariant
            i <= changes.len(),
            modification_views(out@) == modification_views(changes@.take(i as int)),
        decreases changes.len() - i,
    {
        let ghost before = modification_views(out@);
        out.push(changes[i].clone());
        i += 1;
        proof {
            assert(modification_views(out@) =~= before.push(changes@[i - 1]@));
            assert(modification_views(changes@.take(i as int)) =~= modification_views(
                changes@.take(i - 1),
            ).push(changes@[i - 1]@));
        }
    }
    proof {
        assert(changes@.take(i as int) =~= changes@);
    }
    out
}

impl Clone for Command {
    fn clone(&self) -> (r: Self)
        ensures
            r@ == self@,
    {
        match self {
            Command::CreateAccount(account) => Command::CreateAccount(account.clone()),
            Command::UpdateAccount(id, changes) => Command::UpdateAccount(
                *id,
                clone_modifications(changes),
            ),
            Command::AddTransaction(transaction) => Command::AddTransaction(transaction.clone()),
        }
    }
}

impl ModificationView {
    /// The line that describes the change in a command's message.
    pub open spec fn line(self) -> Seq<char> {
        match self {
            ModificationView::Disable => "  - disable account\n"@,
            ModificationView::UpdateName(name) => "  - set name to \""@ + name + "\"\n"@,
            ModificationView::UpdateNotes(notes) => "  - set notes to \""@ + notes + "\"\n"@,
        }
    }
}

/// The lines that describe a list of changes, in order.
pub open spec fn lines(changes: Seq<ModificationView>) -> Seq<char>
    decreases changes.len(),
{
    if changes.len() == 0 {
        Seq::empty()
    } else {
        lines(changes.drop_last()) + changes.last().line()
    }
}

impl TransactionView {
    /// What the message of a command says of the other side of the
    /// transaction.
    pub open spec fn counterparty(self) -> Seq<char> {
        match self.inner {
            TransactionInnerView::Received { src, dst, dst_virt } => "received from "@ + src,
            TransactionInnerView::Paid { src, src_virt, dst } => "paid to "@ + dst,
            TransactionInnerView::MovePhys { src, dst } => "moved to "@ + dst.text(),
            TransactionInnerView::MoveVirt { src, dst } => "moved to "@ + dst.text(),
            TransactionInnerView::Convert { acc, acc_virt, new_amount } => "converted to "@
                + new_amount.text(),
        }
    }
}

impl CommandView {
    /// The message under which the command is recorded: one line that names
    /// the account or the transaction, and for an update one more line for
    /// each change.
    pub open spec fn message(self) -> Seq<char> {
        match self {
            CommandView::CreateAccount(account) => "Create account "@ + account.id.text() + ": \""@
                + account.name + "\""@,
            CommandView::AddTransaction(transaction) => "Add transaction "@ + transaction.id.text()
                + " of "@ + transaction.amount.text() + ": "@ + transaction.counterparty(),
            CommandView::UpdateAccount(id, changes) => "Update account "@ + id.text() + ":\n"@
                + lines(changes),
        }
    }
}

impl AccountModification {
    /// Appends the line that describes the change to `out`.
    pub fn write_line(&self, out: &mut Vec<char>)
        ensures
            final(out)@ == old(out)@ + self@.line(),
    {
        match self {
            AccountModification::Disable => {
                push_str(out, "  - disable account\n");
            },
            AccountModification::UpdateName(name) => {
                push_str(out, "  - set name to \"");
                push_str(out, name.as_str());
                push_str(out, "\"\n");
                assert(out@ =~= old(out)@ + self@.line());
            },
            AccountModification::UpdateNotes(notes) => {
                push_str(out, "  - set notes to \"");
                push_str(out, notes.as_str());
                push_str(out, "\"\n");
                assert(out@ =~= old(out)@ + self@.line());
            },
        }
    }
}

impl Transaction {
    /// Appends to `out` what a command's message says of the other side of
    /// the transaction.
    pub fn write_counterparty(&self, out: &mut Vec<char>)
        ensures
            final(out)@ == old(out)@ + self@.counterparty(),
    {
        match &self.inner {
            TransactionInner::Received { src, .. } => {
                push_str(out, "received from ");
                push_str(out, src.as_str());
            },
            TransactionInner::Paid { dst, .. } => {
                push_str(out, "paid to ");
                push_str(out, dst.as_str());
            },
            TransactionInner::MovePhys { dst, .. } => {
                push_str(out, "moved to ");
                let text = dst.to_string();
                push_str(out, text.as_str());
            },
            TransactionInner::MoveVirt { dst, .. } => {
                push_str(out, "moved to ");
                let text = dst.to_string();
                push_str(out, text.as_str());
            },
            TransactionInner::Convert { new_amount, .. } => {
                push_str(out, "converted to ");
                new_amount.write_to(out);
            },
        }
        assert(out@ =~= old(out)@ + self@.counterparty());
    }
}

impl Command {
    /// The message under which the command is recorded.
    pub fn to_string(&self) -> (text: String)
        ensures
            text@ == self@.message(),
    {
        let mut out: Vec<char> = Vec::new();
        match self {
            Command::CreateAccount(account) => {
                push_str(&mut out, "Create account ");
                let id = account.id.to_string();
                push_str(&mut out, id.as_str());
                push_str(&mut out, ": \"");
                push_str(&mut out, account.name.as_str());
                push_str(&mut out, "\"");
                assert(out@ =~= self@.message());
            },
            Command::AddTransaction(transaction) => {
                push_str(&mut out, "Add transaction ");
                let id = transaction.id.to_string();
                push_str(&mut out, id.as_str());
                push_str(&mut out, " of ");
                transaction.amount.write_to(&mut out);
                push_str(&mut out, ": ");
                transaction.write_counterparty(&mut out);
                assert(out@ =~= self@.message());
            },
            Command::UpdateAccount(id, changes) => {
                push_str(&mut out, "Update account ");
                let text = id.to_string();
                push_str(&mut out, text.as_str());
                push_str(&mut out, ":\n");
                let ghost head = out@;
                let mut i: usize = 0;
                proof {
                    assert(modification_views(changes@).take(0) =~= Seq::<
                        ModificationView,
                    >::empty());
                    assert(out@ =~= head + lines(modification_views(changes@).take(0)));
                }
                while i < changes.len()
                    invariant
                        i <= changes.len(),
                        out@ == head + lines(modification_views(changes@).take(i as int)),
                    decreases changes.len() - i,
                {
                    let ghost all = modification_views(changes@);
                    proof {
                        assert(all.take(i + 1).drop_last() =~= all.take(i as int));
                        assert(all.take(i + 1).last() == changes@[i as int]@);
                    }
                    changes[i].write_line(&mut out);
                    i += 1;
                    assert(out@ =~= head + lines(all.take(i as int)));
                }
                proof {
                    let all = modification_views(changes@);
                    assert(all.take(i as int) =~= all);
                    assert(out@ =~= self@.message());
                }
            },
        }
        string_of(&out)
    }
}

} // verus!
