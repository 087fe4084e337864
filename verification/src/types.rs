//! The value types of the ledger, gathered under one name.

pub use crate::account::{Account, AccountType, AccountView};
pub use crate::amount::Amount;
pub use crate::amounts::Amounts;
pub use crate::currency::Currency;
pub use crate::id::{
    AccountId, AccountKind, Axis, CommandId, CommandKind, Id, Physical, PhysicalId, TransactionId,
    TransactionKind, Virtual, VirtualId,
};
pub use crate::transaction::{
    Transaction, TransactionInner, TransactionInnerView, TransactionView,
};
