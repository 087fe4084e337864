//! The store of files under version control: how its files are named and
//! when a directory may be opened as a store.

use vstd::prelude::*;

use crate::account::Account;
use crate::error::Error;
use crate::id::{AccountKind, Id, TransactionKind};
use crate::text::{chars_of, decimal, push_decimal, push_str, same_chars, slice_of, string_of};
use crate::transaction::Transaction;

verus! {

/// Something that the store keeps as one file: an account or a
/// transaction.
pub trait Entity {
    /// The kind of identifier that names such an entity.
    type Kind;

    /// The name of the directory that holds the files of such entities.
    spec fn collection() -> Seq<char>;

    /// The name of the directory that holds the files of such entities.
    fn path() -> (name: &'static str)
        ensures
            name@ == Self::collection(),
    ;

    /// The identifier of the entity, as plain values.
    spec fn entity_id(&self) -> Id<Self::Kind>;

    /// The identifier of the entity.
    fn id(&self) -> (id: Id<Self::Kind>)
        ensures
            id == self.entity_id(),
    ;
}

impl Entity for Account {
    type Kind = AccountKind;

    open spec fn collection() -> Seq<char> {
        "accounts"@
    }

    fn path() -> (name: &'static str) {
        "accounts"
    }

    open spec fn entity_id(&self) -> Id<AccountKind> {
        self.id
    }

    fn id(&self) -> (id: Id<AccountKind>) {
        self.id
    }
}

impl Entity for Transaction {
    type Kind = TransactionKind;

    open spec fn collection() -> Seq<char> {
        "transactions"@
    }

    fn path() -> (name: &'static str) {
        "transactions"
    }

    open spec fn entity_id(&self) -> Id<TransactionKind> {
        self.id
    }

    fn id(&self) -> (id: Id<TransactionKind>) {
        self.id
    }
}

/// The name of the file that locks a store.
pub fn lock_file_name() -> (name: &'static str)
    ensures
        name@ == "monfari-repo-lock"@,
{
    "monfari-repo-lock"
}

/// The name of the file of the entity with the given identifier.
pub open spec fn file_name_of<T>(id: Id<T>) -> Seq<char> {
    id.text() + ".toml"@
}

/// Whether `name` ends in `.toml`.
pub open spec fn is_entity_file(name: Seq<char>) -> bool {
    name.len() >= 5 && name.skip(name.len() - 5) == ".toml"@
}

/// The name of a file without the `.toml` at its end.
pub open spec fn stem(name: Seq<char>) -> Seq<char> {
    name.take(name.len() - 5)
}

/// The name of the file of the entity with the given identifier.
pub fn file_name<T>(id: Id<T>) -> (name: String)
    ensures
        name@ == file_name_of(id),
        is_entity_file(name@),
        Id::<T>::of_text(stem(name@)) == Some(id),
{
    let text = id.to_string();
    let mut chars = chars_of(text.as_str());
    push_str(&mut chars, ".toml");
    proof {
        reveal_strlit(".toml");
        assert(chars@.skip(chars@.len() - 5) =~= ".toml"@);
        assert(chars@.take(chars@.len() - 5) =~= text@);
    }
    string_of(&chars)
}

/// Where the file of an entity lies within the store: the directory of its
/// collection, a slash, and the name of its file.
pub fn path_for<E: Entity>(id: Id<E::Kind>) -> (path: String)
    ensures
        path@ == E::collection() + "/"@ + file_name_of(id),
{
    let mut chars = chars_of(E::path());
    push_str(&mut chars, "/");
    let name = file_name(id);
    push_str(&mut chars, name.as_str());
    assert(chars@ =~= E::collection() + "/"@ + file_name_of(id));
    string_of(&chars)
}

/// The identifier that a file of a collection is named after. A file whose
/// name does not end in `.toml` is none of the collection's; one that does
/// must be named after an identifier, or the store is refused as
/// `InvalidEncoding`.
pub fn id_of_file_name<T>(name: &str) -> (r: Option<Result<Id<T>, Error>>)
    ensures
        r is Some <==> is_entity_file(name@),
        r is Some ==> r->0 == match Id::<T>::of_text(stem(name@)) {
            Some(id) => Ok::<Id<T>, Error>(id),
            None => Err(Error::InvalidEncoding),
        },
{
    let chars = chars_of(name);
    let n = chars.len();
    if n < 5 {
        return None;
    }
    let tail = slice_of(&chars, n - 5, n);
    proof {
        assert(tail@ =~= name@.skip(name@.len() - 5));
    }
    if !same_chars(&tail, &chars_of(".toml")) {
        return None;
    }
    let head = slice_of(&chars, 0, n - 5);
    proof {
        assert(head@ =~= stem(name@));
    }
    let text = string_of(&head);
    Some(Id::from_str(text.as_str()))
}

/// Whether a directory may be initialised as a store: it must not exist
/// yet, or be empty. Anything else is refused as `StorageFailure`.
pub fn check_init(exists: bool, empty: bool) -> (r: Result<(), Error>)
    ensures
        r == (if exists && !empty {
            Err::<(), Error>(Error::StorageFailure)
        } else {
            Ok(())
        }),
{
    if exists && !empty {
        Err(Error::StorageFailure)
    } else {
        Ok(())
    }
}

/// Whether a directory may be opened as a store.
///
/// A directory that is not under version control, or lacks one of the two
/// collections, is `NotInitialized`. One with changes that were never
/// committed is a `DirtyRepository`: an earlier run stopped in the middle of
/// a command, and somebody has to look at what it left.
pub fn check_open(versioned: bool, clean: bool, accounts: bool, transactions: bool) -> (r: Result<
    (),
    Error,
>)
    ensures
        r == (if !versioned {
            Err::<(), Error>(Error::NotInitialized)
        } else if !clean {
            Err(Error::DirtyRepository)
        } else if !accounts || !transactions {
            Err(Error::NotInitialized)
        } else {
            Ok(())
        }),
{
    if !versioned {
        Err(Error::NotInitialized)
    } else if !clean {
        Err(Error::DirtyRepository)
    } else if !accounts || !transactions {
        Err(Error::NotInitialized)
    } else {
        Ok(())
    }
}

/// Whether a store may be written to: its lock file must have been
/// created by this process just now. A lock file that was there already
/// belongs to another process, or was left by one that stopped without
/// cleaning up, and the store is `AlreadyLocked`.
pub fn check_lock(created: bool) -> (r: Result<(), Error>)
    ensures
        r == (if created {
            Ok::<(), Error>(())
        } else {
            Err(Error::AlreadyLocked)
        }),
{
    if created {
        Ok(())
    } else {
        Err(Error::AlreadyLocked)
    }
}

/// What the process with the given number writes into the lock file.
pub fn lock_content(pid: u32) -> (text: String)
    ensures
        text@ == decimal(pid as nat),
{
    let mut chars: Vec<char> = Vec::new();
    push_decimal(&mut chars, pid as u64);
    string_of(&chars)
}

/// Whether the lock file still belongs to the process with the given
/// number.
pub fn lock_is_own(content: &str, pid: u32) -> (r: bool)
    ensures
        r == (content@ == decimal(pid as nat)),
{
    let mut chars: Vec<char> = Vec::new();
    push_decimal(&mut chars, pid as u64);
    same_chars(&chars_of(content), &chars)
}

} // verus!
