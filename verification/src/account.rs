//! Accounts: where money sits (physical) and what it is set aside for
//! (virtual).

use vstd::prelude::*;

use crate::amounts::Amounts;
use crate::currency::Currency;
use crate::error::Error;
use crate::id::AccountId;
use crate::text::{owned, same_text};

verus! {

/// The axis of the ledger that an account lives on.
#[derive(Debug, Clone, Copy, PartialEq, Eq, Structural)]
pub enum AccountType {
    /// Where money sits: a bank account, cash.
    Physical,
    /// What money is set aside for, wherever it sits.
    Virtual,
}

/// The lower-case form of a text, as `str::to_lowercase` gives it.
pub uninterp spec fn lowercase(text: Seq<char>) -> Seq<char>;

/// `str::to_lowercase` of the standard library: the text in lower case,
/// which is what `lowercase` names.
#[verifier::external_body]
fn to_lowercase(s: &str) -> (r: String)
    ensures
        r@ == lowercase(s@),
{
    s.to_lowercase()
}

impl AccountType {
    /// The name of the account type, in lower case.
    pub open spec fn name(self) -> Seq<char> {
        match self {
            AccountType::Physical => "physical"@,
            AccountType::Virtual => "virtual"@,
        }
    }

    /// The account type with the given lower-case name.
    pub open spec fn of_name(name: Seq<char>) -> Option<AccountType> {
        if name == "physical"@ {
            Some(AccountType::Physical)
        } else if name == "virtual"@ {
            Some(AccountType::Virtual)
        } else {
            None
        }
    }

    /// The name of the account type: `physical` or `virtual`.
    pub fn to_string(&self) -> (s: String)
        ensures
            s@ == self.name(),
            AccountType::of_name(s@) == Some(*self),
    {
        proof {
            reveal_strlit("physical");
            reveal_strlit("virtual");
        }
        match self {
            AccountType::Physical => owned("physical"),
            AccountType::Virtual => owned("virtual"),
        }
    }

    /// Reads an account type from its name in lower case. Any other text
    /// is refused as `InvalidEncoding`.
    pub fn from_lowercase(s: &str) -> (r: Result<AccountType, Error>)
        ensures
            r == match AccountType::of_name(s@) {
                Some(t) => Ok::<AccountType, Error>(t),
                None => Err(Error::InvalidEncoding),
            },
    {
        if same_text(s, "physical") {
            Ok(AccountType::Physical)
        } else if same_text(s, "virtual") {
            Ok(AccountType::Virtual)
        } else {
            Err(Error::InvalidEncoding)
        }
    }

    /// Reads an account type from its name, written in any mix of upper and
    /// lower case. Any other text is refused as `InvalidEncoding`.
    pub fn from_str(s: &str) -> (r: Result<AccountType, Error>)
        ensures
            r == match AccountType::of_name(lowercase(s@)) {
                Some(t) => Ok::<AccountType, Error>(t),
                None => Err(Error::InvalidEncoding),
            },
    {
        let lower = to_lowercase(s);
        AccountType::from_lowercase(lower.as_str())
    }
}

/// An account of the ledger.
#[derive(Debug, PartialEq, Eq)]
pub struct Account {
    /// The identifier, which never changes.
    pub id: AccountId,
    /// The name shown to the user.
    pub name: String,
    /// Free text.
    pub notes: String,
    /// The axis the account lives on.
    pub typ: AccountType,
    /// What the account holds, currency by currency. The transactions are
    /// the source of truth; this is what they add up to.
    pub current: Amounts,
    /// Whether the account is in use. Accounts are disabled, never removed.
    pub enabled: bool,
}

/// What an account is, as plain values.
pub struct AccountView {
    pub id: AccountId,
    pub name: Seq<char>,
    pub notes: Seq<char>,
    pub typ: AccountType,
    pub current: Map<Currency, i32>,
    pub enabled: bool,
}

impl View for Account {
    type V = AccountView;

    open spec fn view(&self) -> AccountView {
        AccountView {
            id: self.id,
            name: self.name@,
            notes: self.notes@,
            typ: self.typ,
            current: self.current@,
            enabled: self.enabled,
        }
    }
}

impl Clone for Account {
    fn clone(&self) -> (r: Self)
        ensures
            r@ == self@,
    {
        Account {
            id: self.id,
            name: self.name.clone(),
            notes: self.notes.clone(),
            typ: self.typ,
            current: self.current.clone(),
            enabled: self.enabled,
        }
    }
}

impl AccountView {
    /// Whether the account holds nothing below zero.
    pub open spec fn non_negative(self) -> bool {
        crate::amounts::sheet_non_negative(self.current)
    }

    /// Whether the account holds nothing at all: no entry, or zero, in every
    /// currency.
    pub open spec fn holds_nothing(self) -> bool {
        forall|c: Currency| crate::amounts::held(self.current, c) == 0
    }
}

impl Account {
    /// The name of the virtual account that every new ledger starts with.
    pub open spec fn default_name() -> Seq<char> {
        "Default Virtual Account"@
    }

    /// The notes of the virtual account that every new ledger starts with.
    pub open spec fn default_notes() -> Seq<char> {
        "A virtual account is required to do much, but many transactions don't really need one, so this is a default to use"@
    }

    /// A new, enabled account that holds nothing.
    pub fn new(id: AccountId, typ: AccountType, name: String, notes: String) -> (r: Account)
        ensures
            r@ == (AccountView {
                id,
                name: name@,
                notes: notes@,
                typ,
                current: Map::empty(),
                enabled: true,
            }),
    {
        Account { id, name, notes, typ, current: Amounts::new(), enabled: true }
    }

    /// The virtual account that every new ledger starts with.
    pub fn default_virtual(id: AccountId) -> (r: Account)
        ensures
            r@ == (AccountView {
                id,
                name: Account::default_name(),
                notes: Account::default_notes(),
                typ: AccountType::Virtual,
                current: Map::empty(),
                enabled: true,
            }),
    {
        Account::new(
            id,
            AccountType::Virtual,
            owned("Default Virtual Account"),
            owned(
                "A virtual account is required to do much, but many transactions don't really need one, so this is a default to use",
            ),
        )
    }
}

} // verus!
