//! What the stores of a ledger have in common, and the part of each store
//! that is a matter of rules and formats rather than of files, databases
//! and sockets.

use vstd::prelude::*;

use crate::error::Error;
use crate::text::{chars_of, find_char, first_index, same_chars, slice_of, string_of};

pub mod http;
pub mod local;
pub mod remote;
pub mod sql;

verus! {

/// Where a ledger is kept, and so which store serves it.
#[derive(Debug, PartialEq, Eq)]
pub enum Address {
    /// A directory of files under version control.
    Local(String),
    /// A server that speaks the stream protocol, at a host and port.
    Tcp(String),
    /// A server that speaks the text protocol, at a URL.
    Http(String),
    /// A database file.
    Sqlite(String),
}

/// An address, as plain values.
pub enum AddressView {
    Local(Seq<char>),
    Tcp(Seq<char>),
    Http(Seq<char>),
    Sqlite(Seq<char>),
}

impl View for Address {
    type V = AddressView;

    open spec fn view(&self) -> AddressView {
        match *self {
            Address::Local(path) => AddressView::Local(path@),
            Address::Tcp(host) => AddressView::Tcp(host@),
            Address::Http(url) => AddressView::Http(url@),
            Address::Sqlite(path) => AddressView::Sqlite(path@),
        }
    }
}

/// The store that an address names. What stands before the first colon
/// says which: `path` and `sqlite` are followed by a path, `tcp` by a host
/// and port, and with `http` or `https` the whole text is the URL. A text
/// without a colon is a path. Any other word before the colon names no
/// store.
pub open spec fn address_of(addr: Seq<char>) -> Option<AddressView> {
    if !addr.contains(':') {
        Some(AddressView::Local(addr))
    } else {
        let colon = first_index(addr, ':');
        let scheme = addr.take(colon);
        let rest = addr.skip(colon + 1);
        if scheme == "path"@ {
            Some(AddressView::Local(rest))
        } else if scheme == "tcp"@ {
            Some(AddressView::Tcp(rest))
        } else if scheme == "http"@ || scheme == "https"@ {
            Some(AddressView::Http(addr))
        } else if scheme == "sqlite"@ {
            Some(AddressView::Sqlite(rest))
        } else {
            None
        }
    }
}

impl Address {
    /// Reads the address of a ledger. An address that names no store is
    /// refused as `InvalidEncoding`.
    pub fn parse(addr: &str) -> (r: Result<Address, Error>)
        ensures
            match address_of(addr@) {
                Some(a) => r is Ok && r->Ok_0@ == a,
                None => r is Err && r->Err_0 == Error::InvalidEncoding,
            },
    {
        let chars = chars_of(addr);
        let n = chars.len();
        match find_char(&chars, ':') {
            None => Ok(Address::Local(string_of(&chars))),
            Some(colon) => {
                let scheme = slice_of(&chars, 0, colon);
                let rest = slice_of(&chars, colon + 1, n);
                proof {
                    assert(scheme@ =~= addr@.take(colon as int));
                    assert(rest@ =~= addr@.skip(colon + 1));
                }
                if same_chars(&scheme, &chars_of("path")) {
                    Ok(Address::Local(string_of(&rest)))
                } else if same_chars(&scheme, &chars_of("tcp")) {
                    Ok(Address::Tcp(string_of(&rest)))
                } else if same_chars(&scheme, &chars_of("http")) || same_chars(
                    &scheme,
                    &chars_of("https"),
                ) {
                    Ok(Address::Http(string_of(&chars)))
                } else if same_chars(&scheme, &chars_of("sqlite")) {
                    Ok(Address::Sqlite(string_of(&rest)))
                } else {
                    Err(Error::InvalidEncoding)
                }
            },
        }
    }
}

} // verus!
