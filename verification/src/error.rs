//! The failures a ledger operation can end in.

use vstd::prelude::*;

use crate::currency::Currency;
use crate::id::AccountId;

verus! {

/// Why an operation did not take effect. Every failure is final for the
/// operation that raised it: nothing is retried.
#[derive(Debug, Clone, Copy, PartialEq, Eq)]
pub enum Error {
    /// The store has not been set up at the given place.
    NotInitialized,
    /// Another process holds the store's lock.
    AlreadyLocked,
    /// The store holds changes that were never committed: an earlier run
    /// stopped in the middle of a command.
    DirtyRepository,
    /// An entity with this identifier exists already.
    DuplicateId,
    /// No account has this identifier.
    NotFound,
    /// The command would leave `account` with less than nothing in `currency`.
    NegativeBalance { account: AccountId, currency: Currency },
    /// A computed amount does not fit the range of minor units.
    AmountOutOfRange,
    /// A text is no identifier, currency, amount, address or stored record.
    InvalidEncoding,
    /// The connection failed or the peer left the protocol.
    TransportFailure,
    /// The file system or the database failed.
    StorageFailure,
}

impl Error {
    /// Whether the failure lies with the environment (storage, transport)
    /// and not with the data the caller supplied.
    pub open spec fn environmental(self) -> bool {
        self is NotInitialized || self is AlreadyLocked || self is DirtyRepository
            || self is TransportFailure || self is StorageFailure
    }

    /// Tells a failure of the environment from a violated rule, so that a
    /// caller can react to each in its own way.
    pub fn is_environmental(&self) -> (r: bool)
        ensures
            r == self.environmental(),
    {
        match self {
            Error::NotInitialized => true,
            Error::AlreadyLocked => true,
            Error::DirtyRepository => true,
            Error::TransportFailure => true,
            Error::StorageFailure => true,
            _ => false,
        }
    }
}

} // verus!
