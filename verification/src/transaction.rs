//! Transactions: the five ways in which value enters, leaves or moves
//! within the ledger, and what each does to the balances.

use vstd::prelude::*;

use crate::amount::Amount;
use crate::id::{AccountId, Id, PhysicalId, TransactionId, VirtualId};

verus! {

/// A transfer of value. Once recorded it never changes.
#[derive(Debug, PartialEq, Eq)]
pub struct Transaction {
    pub id: TransactionId,
    /// Free text.
    pub notes: String,
    /// The amount that is received, paid, moved or given up in a conversion.
    pub amount: Amount,
    /// Who takes part, and how.
    pub inner: TransactionInner,
}

/// The shape of a transaction.
#[derive(Debug, PartialEq, Eq)]
#[allow(inconsistent_fields)]
pub enum TransactionInner {
    /// Money enters the ledger from outside.
    Received { src: String, dst: PhysicalId, dst_virt: VirtualId },
    /// Money leaves the ledger.
    Paid { src: PhysicalId, src_virt: VirtualId, dst: String },
    /// Money moves from one place to another.
    MovePhys { src: PhysicalId, dst: PhysicalId },
    /// Money is set aside for another purpose.
    MoveVirt { src: VirtualId, dst: VirtualId },
    /// Money is exchanged for another amount, on the same pair of accounts.
    Convert { acc: PhysicalId, acc_virt: VirtualId, new_amount: Amount },
}

/// The shape of a transaction, as plain values.
#[allow(inconsistent_fields)]
pub enum TransactionInnerView {
    Received { src: Seq<char>, dst: PhysicalId, dst_virt: VirtualId },
    Paid { src: PhysicalId, src_virt: VirtualId, dst: Seq<char> },
    MovePhys { src: PhysicalId, dst: PhysicalId },
    MoveVirt { src: VirtualId, dst: VirtualId },
    Convert { acc: PhysicalId, acc_virt: VirtualId, new_amount: Amount },
}

/// A transaction, as plain values.
pub struct TransactionView {
    pub id: TransactionId,
    pub notes: Seq<char>,
    pub amount: Amount,
    pub inner: TransactionInnerView,
}

impl View for TransactionInner {
    type V = TransactionInnerView;

    open spec fn view(&self) -> TransactionInnerView {
        match *self {
            TransactionInner::Received { src, dst, dst_virt } => TransactionInnerView::Received {
                src: src@,
                dst,
                dst_virt,
            },
            TransactionInner::Paid { src, src_virt, dst } => TransactionInnerView::Paid {
                src,
                src_virt,
                dst: dst@,
            },
            TransactionInner::MovePhys { src, dst } => TransactionInnerView::MovePhys { src, dst },
            TransactionInner::MoveVirt { src, dst } => TransactionInnerView::MoveVirt { src, dst },
            TransactionInner::Convert { acc, acc_virt, new_amount } => TransactionInnerView::Convert {
                acc,
                acc_virt,
                new_amount,
            },
        }
    }
}

impl View for Transaction {
    type V = TransactionView;

    open spec fn view(&self) -> TransactionView {
        TransactionView {
            id: self.id,
            notes: self.notes@,
            amount: self.amount,
            inner: self.inner@,
        }
    }
}

impl Clone for TransactionInner {
    fn clone(&self) -> (r: Self)
        ensures
            r@ == self@,
    {
        match self {
            TransactionInner::Received { src, dst, dst_virt } => TransactionInner::Received {
                src: src.clone(),
                dst: *dst,
                dst_virt: *dst_virt,
            },
            TransactionInner::Paid { src, src_virt, dst } => TransactionInner::Paid {
                src: *src,
                src_virt: *src_virt,
                dst: dst.clone(),
            },
            TransactionInner::MovePhys { src, dst } => TransactionInner::MovePhys {
                src: *src,
                dst: *dst,
            },
            TransactionInner::MoveVirt { src, dst } => TransactionInner::MoveVirt {
                src: *src,
                dst: *dst,
            },
            TransactionInner::Convert { acc, acc_virt, new_amount } => TransactionInner::Convert {
                acc: *acc,
                acc_virt: *acc_virt,
                new_amount: *new_amount,
            },
        }
    }
}

impl Clone for Transaction {
    fn clone(&self) -> (r: Self)
        ensures
            r@ == self@,
    {
        Transaction {
            id: self.id,
            notes: self.notes.clone(),
            amount: self.amount,
            inner: self.inner.clone(),
        }
    }
}

/// The identifier of an account, whatever the axis it was given for.
pub open spec fn untagged<T>(id: Id<T>) -> AccountId {
    Id(id.0, std::marker::PhantomData)
}

/// `amount` with the opposite sign.
pub open spec fn negated(amount: Amount) -> Amount {
    Amount((-amount.0) as i32, amount.1)
}

/// The amounts that `deltas` holds for account `id`, in their order.
pub open spec fn amounts_for(deltas: Seq<(AccountId, Amount)>, id: AccountId) -> Seq<Amount>
    decreases deltas.len(),
{
    if deltas.len() == 0 {
        Seq::empty()
    } else if deltas.last().0 == id {
        amounts_for(deltas.drop_last(), id).push(deltas.last().1)
    } else {
        amounts_for(deltas.drop_last(), id)
    }
}

impl TransactionView {
    /// Whether the transaction takes its amount away from an account. Such a
    /// transaction needs an amount that has an opposite.
    pub open spec fn takes(self) -> bool {
        !(self.inner is Received)
    }

    /// Whether the balance changes of the transaction can be written down:
    /// an amount that is taken away must have an opposite.
    pub open spec fn representable(self) -> bool {
        self.takes() ==> self.amount.0 > i32::MIN
    }

    /// The two accounts that take part: for a receipt, a payment and a
    /// conversion the physical and the virtual account, for a move its source
    /// and its destination.
    pub open spec fn participants(self) -> Seq<AccountId> {
        match self.inner {
            TransactionInnerView::Received { src, dst, dst_virt } => seq![
                untagged(dst),
                untagged(dst_virt),
            ],
            TransactionInnerView::Paid { src, src_virt, dst } => seq![
                untagged(src),
                untagged(src_virt),
            ],
            TransactionInnerView::MovePhys { src, dst } => seq![untagged(src), untagged(dst)],
            TransactionInnerView::MoveVirt { src, dst } => seq![untagged(src), untagged(dst)],
            TransactionInnerView::Convert { acc, acc_virt, new_amount } => seq![
                untagged(acc),
                untagged(acc_virt),
            ],
        }
    }

    /// What the transaction adds to which account. A receipt adds the amount
    /// to both destinations, a payment takes it from both sources, a move
    /// takes it from the source and adds it to the destination, and a
    /// conversion takes the amount from both accounts and adds the new
    /// amount to both.
    pub open spec fn deltas(self) -> Seq<(AccountId, Amount)> {
        let amount = self.amount;
        match self.inner {
            TransactionInnerView::Received { src, dst, dst_virt } => seq![
                (untagged(dst), amount),
                (untagged(dst_virt), amount),
            ],
            TransactionInnerView::Paid { src, src_virt, dst } => seq![
                (untagged(src), negated(amount)),
                (untagged(src_virt), negated(amount)),
            ],
            TransactionInnerView::MovePhys { src, dst } => seq![
                (untagged(src), negated(amount)),
                (untagged(dst), amount),
            ],
            TransactionInnerView::MoveVirt { src, dst } => seq![
                (untagged(src), negated(amount)),
                (untagged(dst), amount),
            ],
            TransactionInnerView::Convert { acc, acc_virt, new_amount } => seq![
                (untagged(acc), negated(amount)),
                (untagged(acc), new_amount),
                (untagged(acc_virt), negated(amount)),
                (untagged(acc_virt), new_amount),
            ],
        }
    }

    /// Whether account `id` takes part in the transaction.
    pub open spec fn involves(self, id: AccountId) -> bool {
        self.participants()[0] == id || self.participants()[1] == id
    }
}

impl Transaction {
    /// What the transaction adds to which account.
    pub fn results(&self) -> (r: Vec<(AccountId, Amount)>)
        requires
            self@.representable(),
        ensures
            r@ == self@.deltas(),
    {
        let amount = self.amount;
        let r = match &self.inner {
            TransactionInner::Received { src: _, dst, dst_virt } => {
                vec![(dst.erase(), amount), (dst_virt.erase(), amount)]
            },
            TransactionInner::Paid { src, src_virt, dst: _ } => {
                vec![(src.erase(), amount.neg()), (src_virt.erase(), amount.neg())]
            },
            TransactionInner::MovePhys { src, dst } => {
                vec![(src.erase(), amount.neg()), (dst.erase(), amount)]
            },
            TransactionInner::MoveVirt { src, dst } => {
                vec![(src.erase(), amount.neg()), (dst.erase(), amount)]
            },
            TransactionInner::Convert { acc, acc_virt, new_amount } => {
                vec![
                    (acc.erase(), amount.neg()),
                    (acc.erase(), *new_amount),
                    (acc_virt.erase(), amount.neg()),
                    (acc_virt.erase(), *new_amount),
                ]
            },
        };
        assert(r@ =~= self@.deltas());
        r
    }

    /// What the transaction adds to which account, if the amount that it
    /// takes away has an opposite.
    pub fn checked_results(&self) -> (r: Option<Vec<(AccountId, Amount)>>)
        ensures
            r is Some <==> self@.representable(),
            r is Some ==> r->0@ == self@.deltas(),
    {
        let takes = match &self.inner {
            TransactionInner::Received { .. } => false,
            _ => true,
        };
        if takes && self.amount.0 == i32::MIN {
            None
        } else {
            Some(self.results())
        }
    }

    /// The two accounts that take part in the transaction.
    pub fn accounts(&self) -> (r: [AccountId; 2])
        ensures
            r@ == self@.participants(),
    {
        let r = match &self.inner {
            TransactionInner::Received { src: _, dst, dst_virt } => [dst.erase(), dst_virt.erase()],
            TransactionInner::Paid { src, src_virt, dst: _ } => [src.erase(), src_virt.erase()],
            TransactionInner::MovePhys { src, dst } => [src.erase(), dst.erase()],
            TransactionInner::MoveVirt { src, dst } => [src.erase(), dst.erase()],
            TransactionInner::Convert { acc, acc_virt, new_amount: _ } => [
                acc.erase(),
                acc_virt.erase(),
            ],
        };
        assert(r@ =~= self@.participants());
        r
    }

    /// Whether account `id` takes part in the transaction.
    pub fn involves(&self, id: AccountId) -> (r: bool)
        ensures
            r == self@.involves(id),
    {
        let both = self.accounts();
        both[0] == id || both[1] == id
    }
}

} // verus!
