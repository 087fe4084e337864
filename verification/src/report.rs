//! What the shell shows of accounts and transactions: the cells of its
//! tables and the lines above them.

use vstd::prelude::*;

use crate::account::{Account, AccountView};
use crate::amounts::sheet_text;
use crate::id::AccountId;
use crate::text::{chars_of, owned, push_str, string_of};
use crate::transaction::{untagged, Transaction, TransactionInner, TransactionInnerView, TransactionView};

verus! {

/// On which side of a move the account stands whose transactions are
/// shown.
#[derive(Debug, Clone, Copy, PartialEq, Eq, Structural)]
pub enum Direction {
    /// The money went into the other account.
    Into,
    /// The money came from the other account.
    From,
}

/// The text of a truth value.
pub open spec fn flag_text(b: bool) -> Seq<char> {
    if b {
        "true"@
    } else {
        "false"@
    }
}

impl AccountView {
    /// The line above the transactions of an account: its name, and in
    /// brackets its type and its identifier.
    pub open spec fn heading(self) -> Seq<char> {
        self.name + " ("@ + self.typ.name() + ": "@ + self.id.text() + ")"@
    }

    /// The cells of the account's row in the list of accounts: identifier,
    /// name, type, whether it is enabled, and what it holds.
    pub open spec fn cells(self) -> Seq<Seq<char>> {
        seq![
            self.id.text(),
            self.name,
            self.typ.name(),
            flag_text(self.enabled),
            sheet_text(self.current),
        ]
    }
}

impl TransactionView {
    /// The other account of a move, seen from account `viewer`, and the
    /// direction in which the money went. The viewer is taken to be the
    /// destination unless it is the source. Other shapes have no other
    /// account.
    pub open spec fn other_side(self, viewer: AccountId) -> Option<(Direction, AccountId)> {
        match self.inner {
            TransactionInnerView::MovePhys { src, dst } => if untagged(src) == viewer {
                Some((Direction::Into, untagged(dst)))
            } else {
                Some((Direction::From, untagged(src)))
            },
            TransactionInnerView::MoveVirt { src, dst } => if untagged(src) == viewer {
                Some((Direction::Into, untagged(dst)))
            } else {
                Some((Direction::From, untagged(src)))
            },
            _ => None,
        }
    }

    /// What the list of an account's transactions says of a transaction.
    /// `other_name` is the name of the other account of a move.
    pub open spec fn description(self, viewer: AccountId, other_name: Seq<char>) -> Seq<char> {
        match self.inner {
            TransactionInnerView::Received { src, dst, dst_virt } => "Received from "@ + src,
            TransactionInnerView::Paid { src, src_virt, dst } => "Paid to "@ + dst,
            TransactionInnerView::Convert { acc, acc_virt, new_amount } => "Converted into "@
                + new_amount.text(),
            _ => match self.other_side(viewer) {
                Some((Direction::Into, _)) => "Moved into \""@ + other_name + "\""@,
                _ => "Moved from \""@ + other_name + "\""@,
            },
        }
    }

    /// The cells of the transaction's row: amount, description and notes.
    pub open spec fn cells(self, viewer: AccountId, other_name: Seq<char>) -> Seq<Seq<char>> {
        seq![self.amount.text(), self.description(viewer, other_name), self.notes]
    }
}

/// The texts of a list, as plain values.
pub open spec fn cell_views(cells: Seq<String>) -> Seq<Seq<char>> {
    cells.map_values(|c: String| c@)
}

impl Account {
    /// The line above the transactions of the account.
    pub fn heading(&self) -> (line: String)
        ensures
            line@ == self@.heading(),
    {
        let mut out = chars_of(self.name.as_str());
        push_str(&mut out, " (");
        let typ = self.typ.to_string();
        push_str(&mut out, typ.as_str());
        push_str(&mut out, ": ");
        let id = self.id.to_string();
        push_str(&mut out, id.as_str());
        push_str(&mut out, ")");
        assert(out@ =~= self@.heading());
        string_of(&out)
    }

    /// The cells of the account's row in the list of accounts.
    pub fn cells(&self) -> (cells: Vec<String>)
        ensures
            cell_views(cells@) == self@.cells(),
    {
        let flag = if self.enabled {
            owned("true")
        } else {
            owned("false")
        };
        let cells = vec![
            self.id.to_string(),
            self.name.clone(),
            self.typ.to_string(),
            flag,
            self.current.to_string(),
        ];
        assert(cell_views(cells@) =~= self@.cells());
        cells
    }
}

impl Transaction {
    /// The other account of a move, seen from account `viewer`.
    pub fn other_side(&self, viewer: AccountId) -> (r: Option<(Direction, AccountId)>)
        ensures
            r == self@.other_side(viewer),
    {
        match &self.inner {
            TransactionInner::MovePhys { src, dst } => {
                if src.erase() == viewer {
                    Some((Direction::Into, dst.erase()))
                } else {
                    Some((Direction::From, src.erase()))
                }
            },
            TransactionInner::MoveVirt { src, dst } => {
                if src.erase() == viewer {
                    Some((Direction::Into, dst.erase()))
                } else {
                    Some((Direction::From, src.erase()))
                }
            },
            _ => None,
        }
    }

    /// What the list of an account's transactions says of the transaction.
    /// `other_name` is the name of the other account of a move; for other
    /// shapes it is not used.
    pub fn description(&self, viewer: AccountId, other_name: &str) -> (line: String)
        ensures
            line@ == self@.description(viewer, other_name@),
    {
        let mut out: Vec<char> = Vec::new();
        match &self.inner {
            TransactionInner::Received { src, .. } => {
                push_str(&mut out, "Received from ");
                push_str(&mut out, src.as_str());
            },
            TransactionInner::Paid { dst, .. } => {
                push_str(&mut out, "Paid to ");
                push_str(&mut out, dst.as_str());
            },
            TransactionInner::Convert { new_amount, .. } => {
                push_str(&mut out, "Converted into ");
                new_amount.write_to(&mut out);
            },
            _ => {
                match self.other_side(viewer) {
                    Some((Direction::Into, _)) => {
                        push_str(&mut out, "Moved into \"");
                    },
                    _ => {
                        push_str(&mut out, "Moved from \"");
                    },
                }
                push_str(&mut out, other_name);
                push_str(&mut out, "\"");
            },
        }
        assert(out@ =~= self@.description(viewer, other_name@));
        string_of(&out)
    }

    /// The cells of the transaction's row: amount, description and notes.
    pub fn cells(&self, viewer: AccountId, other_name: &str) -> (cells: Vec<String>)
        ensures
            cell_views(cells@) == self@.cells(viewer, other_name@),
    {
        let cells = vec![
            self.amount.to_string(),
            self.description(viewer, other_name),
            self.notes.clone(),
        ];
        assert(cell_views(cells@) =~= self@.cells(viewer, other_name@));
        cells
    }
}

} // verus!
