//! Typed identifiers: 128-bit, time-sortable values that read as a string of
//! pronounceable five-letter words. A marker type records, at compile time
//! only, what kind of entity an identifier names.

use std::marker::PhantomData;
use vstd::prelude::*;
use vstd::std_specs::cmp::PartialEqSpecImpl;
use vstd::std_specs::convert::FromSpecImpl;

use proqnt::{FromProquints, IntoProquints};

use crate::account::AccountType;
use crate::error::Error;
use crate::text::joined;

verus! {

/// Marks identifiers of accounts that say where money sits.
#[derive(Debug, Clone, Copy, PartialEq, Eq)]
pub struct Physical;

/// Marks identifiers of accounts that say what money is set aside for.
#[derive(Debug, Clone, Copy, PartialEq, Eq)]
pub struct Virtual;

/// Marks identifiers of accounts of either axis.
#[derive(Debug, Clone, Copy, PartialEq, Eq)]
pub struct AccountKind;

/// Marks identifiers of transactions.
#[derive(Debug, Clone, Copy, PartialEq, Eq)]
pub struct TransactionKind;

/// Marks identifiers of logged commands.
#[derive(Debug, Clone, Copy, PartialEq, Eq)]
pub struct CommandKind;

/// One of the two axes of the ledger, as a marker type.
pub trait Axis: Sized {
    /// The account type that accounts on this axis carry.
    spec fn account_type() -> AccountType;

    /// The account type that accounts on this axis carry.
    fn axis() -> (typ: AccountType)
        ensures
            typ == Self::account_type(),
    ;
}

impl Axis for Physical {
    open spec fn account_type() -> AccountType {
        AccountType::Physical
    }

    fn axis() -> (typ: AccountType) {
        AccountType::Physical
    }
}

impl Axis for Virtual {
    open spec fn account_type() -> AccountType {
        AccountType::Virtual
    }

    fn axis() -> (typ: AccountType) {
        AccountType::Virtual
    }
}

/// An identifier of an entity of kind `T`. Two identifiers are equal exactly
/// when their values are, and they are ordered by value, which is the order
/// of creation.
#[derive(Debug)]
pub struct Id<T>(pub u128, pub PhantomData<T>);

/// The identifier of an account, whatever its axis.
pub type AccountId = Id<AccountKind>;

/// The identifier of an account on the physical axis.
pub type PhysicalId = Id<Physical>;

/// The identifier of an account on the virtual axis.
pub type VirtualId = Id<Virtual>;

/// The identifier of a transaction.
pub type TransactionId = Id<TransactionKind>;

/// The identifier of a logged command.
pub type CommandId = Id<CommandKind>;

impl<T> Clone for Id<T> {
    fn clone(&self) -> (r: Self)
        ensures
            r == *self,
    {
        Id(self.0, PhantomData)
    }
}

impl<T> Copy for Id<T> {

}

impl<T> PartialEq for Id<T> {
    fn eq(&self, other: &Self) -> (r: bool) {
        self.0 == other.0
    }
}

impl<T> Eq for Id<T> {

}

impl<T> PartialEqSpecImpl for Id<T> {
    open spec fn obeys_eq_spec() -> bool {
        true
    }

    open spec fn eq_spec(&self, other: &Self) -> bool {
        self.0 == other.0
    }
}

/// The consonant that stands for four bits.
pub open spec fn consonant(bits: int) -> char {
    "bdfghjklmnprstvz"@[bits]
}

/// The vowel that stands for two bits.
pub open spec fn vowel(bits: int) -> char {
    "aiou"@[bits]
}

/// The five-letter word that stands for sixteen bits: consonant, vowel,
/// consonant, vowel, consonant, most significant bits first.
pub open spec fn proquint_word(digit: int) -> Seq<char> {
    seq![
        consonant(digit / 4096 % 16),
        vowel(digit / 1024 % 4),
        consonant(digit / 64 % 16),
        vowel(digit / 16 % 4),
        consonant(digit % 16),
    ]
}

/// The last `n` digits of a value in base 65536, most significant first.
pub open spec fn digits16(value: int, n: nat) -> Seq<int>
    decreases n,
{
    if n == 0 {
        Seq::empty()
    } else {
        digits16(value / 65536, (n - 1) as nat).push(value % 65536)
    }
}

/// The text of a 128-bit value: eight five-letter words, one for each
/// sixteen bits, most significant first, with a dash between each two.
pub open spec fn proquint_text(value: u128) -> Seq<char> {
    joined(digits16(value as int, 8).map_values(|digit: int| proquint_word(digit)), "-"@)
}

/// The 128-bit value that `proqnt` reads from a text, if it reads one.
pub uninterp spec fn proquint_value(text: Seq<char>) -> Option<u128>;

/// `proqnt`'s error for a text that is no 128-bit value.
#[verifier::external_type_specification]
#[verifier::external_body]
pub struct ExProquintsParseError(proqnt::ProquintsParseError);

/// `IntoProquints::proquint_encode` on a `u128`, written out through its
/// `Display`: the value's sixteen-bit digits in network order, each as the
/// word that `Proquint::from_u16` makes of it, joined by dashes. Reading the
/// text back with `FromProquints::parse_proquints` gives the value again.
#[verifier::external_body]
fn proquint_encode(value: u128) -> (text: String)
    ensures
        text@ == proquint_text(value),
        proquint_value(text@) == Some(value),
{
    format!("{}", value.proquint_encode())
}

/// `FromProquints::parse_proquints` for `u128`. It succeeds exactly on the
/// texts to which `proquint_value` gives a value, with that value.
#[verifier::external_body]
fn proquint_decode(text: &str) -> (r: Result<u128, proqnt::ProquintsParseError>)
    ensures
        r is Ok <==> proquint_value(text@) is Some,
        r is Ok ==> proquint_value(text@) == Some(r->Ok_0),
{
    u128::parse_proquints(text)
}

/// `Ulid::new`: a fresh identifier value made of the current time and random
/// bits. Nothing is promised of it.
#[verifier::external_body]
fn fresh_ulid() -> (value: u128) {
    ulid::Ulid::new().0
}

impl<T> Id<T> {
    /// The value read from an identifier's text, if the text is one.
    pub open spec fn of_text(text: Seq<char>) -> Option<Self> {
        match proquint_value(text) {
            Some(value) => Some(Id(value, PhantomData)),
            None => None,
        }
    }

    /// The text of an identifier.
    pub open spec fn text(self) -> Seq<char> {
        proquint_text(self.0)
    }

    /// A fresh identifier.
    pub fn generate() -> (id: Self) {
        Self::new(fresh_ulid())
    }

    /// The identifier with the given value.
    pub fn new(id: u128) -> (r: Self)
        ensures
            r.0 == id,
            r == Id::<T>(id, PhantomData),
    {
        Id(id, PhantomData)
    }

    /// Whether this identifier was created before `other`, in the order of
    /// identifier values.
    pub fn precedes(&self, other: &Self) -> (r: bool)
        ensures
            r == (self.0 < other.0),
    {
        self.0 < other.0
    }

    /// The text of the identifier.
    pub fn to_string(&self) -> (text: String)
        ensures
            text@ == self.text(),
            Self::of_text(text@) == Some(*self),
    {
        proquint_encode(self.0)
    }

    /// Reads an identifier from its text. A text that is none is refused as
    /// `InvalidEncoding`.
    pub fn from_str(s: &str) -> (r: Result<Self, Error>)
        ensures
            r == match Self::of_text(s@) {
                Some(id) => Ok::<Self, Error>(id),
                None => Err(Error::InvalidEncoding),
            },
    {
        match proquint_decode(s) {
            Ok(value) => Ok(Self::new(value)),
            Err(_) => Err(Error::InvalidEncoding),
        }
    }
}

impl<T: Axis> Id<T> {
    /// Forgets the axis of an account identifier.
    pub fn erase(self) -> (r: AccountId)
        ensures
            r.0 == self.0,
    {
        Id::new(self.0)
    }
}

impl Id<AccountKind> {
    /// Takes an account identifier to be one of axis `T`. Nothing is checked
    /// here: whether the account is on that axis shows only against the
    /// account itself.
    pub fn unerase<T: Axis>(self) -> (r: Id<T>)
        ensures
            r.0 == self.0,
    {
        Id::new(self.0)
    }
}

impl From<Id<Physical>> for Id<AccountKind> {
    fn from(x: Id<Physical>) -> (r: Id<AccountKind>) {
        x.erase()
    }
}

impl FromSpecImpl<Id<Physical>> for Id<AccountKind> {
    open spec fn obeys_from_spec() -> bool {
        true
    }

    open spec fn from_spec(x: Id<Physical>) -> Id<AccountKind> {
        Id(x.0, PhantomData)
    }
}

impl From<Id<Virtual>> for Id<AccountKind> {
    fn from(x: Id<Virtual>) -> (r: Id<AccountKind>) {
        x.erase()
    }
}

impl FromSpecImpl<Id<Virtual>> for Id<AccountKind> {
    open spec fn obeys_from_spec() -> bool {
        true
    }

    open spec fn from_spec(x: Id<Virtual>) -> Id<AccountKind> {
        Id(x.0, PhantomData)
    }
}

} // verus!
