//! The text protocol: which request a method and a path stand for, and
//! where a client finds what it asks for.

use vstd::prelude::*;

use crate::id::AccountId;
use crate::text::{chars_of, push_str, same_chars, string_of};

verus! {

/// The method of a request.
#[derive(Debug, Clone, Copy, PartialEq, Eq, Structural)]
pub enum Method {
    Get,
    Post,
    /// Any other method.
    Other,
}

/// Why a request is turned away.
#[derive(Debug, Clone, Copy, PartialEq, Eq, Structural)]
pub enum Refusal {
    /// A command must come as `application/json`.
    JsonRequired,
    /// The body is no command.
    InvalidCommand,
    /// The path names no account identifier.
    InvalidAccountId,
    /// Nothing answers at this path to this method.
    NotFound,
}

/// What a request asks for.
#[derive(Debug, Clone, Copy, PartialEq, Eq)]
pub enum Route {
    /// `GET /`: send all accounts.
    Accounts,
    /// `POST /`: apply the command in the body and send all accounts.
    Command,
    /// `GET /transactions/<id>`: send the transactions of the account.
    Transactions(AccountId),
    /// `POST /__stop__`: stop serving.
    Stop,
    /// Nothing that can be served.
    Refuse(Refusal),
}

/// The pieces of `s` between the occurrences of `sep`. A text without `sep`
/// is one piece, and the empty text is one empty piece.
pub open spec fn split(s: Seq<char>, sep: char) -> Seq<Seq<char>>
    decreases s.len(),
{
    if s.len() == 0 {
        seq![Seq::empty()]
    } else {
        let before = split(s.drop_last(), sep);
        if s.last() == sep {
            before.push(Seq::empty())
        } else {
            before.drop_last().push(before.last().push(s.last()))
        }
    }
}

/// `c` in lower case, if it is one of the letters `A` to `Z`.
pub open spec fn ascii_lower(c: char) -> char {
    if 'A' <= c <= 'Z' {
        ((c as u8) + 32) as char
    } else {
        c
    }
}

/// Whether two texts are the same but for the case of the letters `A` to
/// `Z`.
pub open spec fn same_but_case(a: Seq<char>, b: Seq<char>) -> bool {
    a.len() == b.len() && forall|i: int|
        0 <= i < a.len() ==> ascii_lower(#[trigger] a[i]) == ascii_lower(b[i])
}

/// The value of the last header of the list that is named `name`, in
/// whatever case.
pub open spec fn header_value(headers: Seq<(Seq<char>, Seq<char>)>, name: Seq<char>) -> Option<
    Seq<char>,
>
    decreases headers.len(),
{
    if headers.len() == 0 {
        None
    } else if same_but_case(headers.last().0, name) {
        Some(headers.last().1)
    } else {
        header_value(headers.drop_last(), name)
    }
}

/// The segments of a path: what stands between the slashes, after the
/// first slash.
pub open spec fn segments(url: Seq<char>) -> Seq<Seq<char>> {
    split(url, '/').skip(1)
}

/// What a request asks for.
///
/// `content_type` is the value of the request's `Content-Type` header, if
/// it has one.
pub open spec fn route_of(method: Method, url: Seq<char>, content_type: Option<Seq<char>>) -> Route {
    let path = segments(url);
    if path.len() == 1 && path[0].len() == 0 && method == Method::Get {
        Route::Accounts
    } else if path.len() == 1 && path[0].len() == 0 && method == Method::Post {
        if content_type == Some("application/json"@) {
            Route::Command
        } else {
            Route::Refuse(Refusal::JsonRequired)
        }
    } else if path.len() == 2 && path[0] == "transactions"@ && method == Method::Get {
        match AccountId::of_text(path[1]) {
            Some(id) => Route::Transactions(id),
            None => Route::Refuse(Refusal::InvalidAccountId),
        }
    } else if path.len() == 1 && path[0] == "__stop__"@ && method == Method::Post {
        Route::Stop
    } else {
        Route::Refuse(Refusal::NotFound)
    }
}

impl Refusal {
    /// The status code of the answer.
    pub fn status(&self) -> (code: u32)
        ensures
            code == (if *self == Refusal::NotFound {
                404u32
            } else {
                401u32
            }),
    {
        match self {
            Refusal::NotFound => 404,
            _ => 401,
        }
    }

    /// The text of the answer.
    pub open spec fn reason_text(self) -> Seq<char> {
        match self {
            Refusal::JsonRequired => "JSON is required"@,
            Refusal::InvalidCommand => "Invalid command"@,
            Refusal::InvalidAccountId => "Invalid account ID"@,
            Refusal::NotFound => "Not Found"@,
        }
    }

    /// The text of the answer.
    pub fn reason(&self) -> (text: &'static str)
        ensures
            text@ == self.reason_text(),
    {
        match self {
            Refusal::JsonRequired => "JSON is required",
            Refusal::InvalidCommand => "Invalid command",
            Refusal::InvalidAccountId => "Invalid account ID",
            Refusal::NotFound => "Not Found",
        }
    }
}

/// The pieces of `s` between the occurrences of `sep`.
pub fn split_at(s: &Vec<char>, sep: char) -> (r: Vec<Vec<char>>)
    ensures
        crate::text::views(r@) == split(s@, sep),
{
    let mut done: Vec<Vec<char>> = Vec::new();
    let mut piece: Vec<char> = Vec::new();
    let mut i: usize = 0;
    proof {
        assert(s@.take(0) =~= Seq::<char>::empty());
        assert(crate::text::views(done@).push(piece@) =~= split(s@.take(0), sep));
    }
    while i < s.len()
        invariant
            i <= s.len(),
            crate::text::views(done@).push(piece@) == split(s@.take(i as int), sep),
        decreases s.len() - i,
    {
        let ghost before = crate::text::views(done@);
        let ghost current = piece@;
        proof {
            assert(s@.take(i + 1).drop_last() =~= s@.take(i as int));
            assert(s@.take(i + 1).last() == s@[i as int]);
            assert(before.push(current).last() == current);
            assert(before.push(current).drop_last() =~= before);
        }
        if s[i] == sep {
            done.push(piece);
            piece = Vec::new();
            proof {
                assert(crate::text::views(done@) =~= before.push(current));
            }
        } else {
            piece.push(s[i]);
        }
        i += 1;
    }
    proof {
        assert(s@.take(i as int) =~= s@);
    }
    let ghost before = crate::text::views(done@);
    let ghost current = piece@;
    done.push(piece);
    proof {
        assert(crate::text::views(done@) =~= before.push(current));
    }
    done
}

/// `c` in lower case, if it is one of the letters `A` to `Z`.
pub fn to_ascii_lower(c: char) -> (r: char)
    ensures
        r == ascii_lower(c),
{
    if c >= 'A' && c <= 'Z' {
        ((c as u8) + 32) as char
    } else {
        c
    }
}

/// Whether two texts are the same but for the case of the letters `A` to
/// `Z`.
pub fn equal_ignoring_case(a: &str, b: &str) -> (r: bool)
    ensures
        r == same_but_case(a@, b@),
{
    let x = chars_of(a);
    let y = chars_of(b);
    if x.len() != y.len() {
        return false;
    }
    let mut i: usize = 0;
    while i < x.len()
        invariant
            i <= x.len(),
            x.len() == y.len(),
            x@ == a@,
            y@ == b@,
            forall|j: int| 0 <= j < i ==> ascii_lower(#[trigger] x@[j]) == ascii_lower(y@[j]),
        decreases x.len() - i,
    {
        if to_ascii_lower(x[i]) != to_ascii_lower(y[i]) {
            return false;
        }
        i += 1;
    }
    true
}

/// The headers of a list, as plain values.
pub open spec fn header_views(headers: Seq<(String, String)>) -> Seq<(Seq<char>, Seq<char>)> {
    headers.map_values(|h: (String, String)| (h.0@, h.1@))
}

/// The value of the request's `Content-Type` header: of the last one, if
/// there are several, and whatever the case of the header's name.
pub fn content_type(headers: &Vec<(String, String)>) -> (r: Option<String>)
    ensures
        r is Some <==> header_value(header_views(headers@), "Content-Type"@) is Some,
        r is Some ==> r->0@ == header_value(header_views(headers@), "Content-Type"@)->0,
{
    let ghost all = header_views(headers@);
    let mut i: usize = headers.len();
    proof {
        assert(all.take(i as int) =~= all);
    }
    while i > 0
        invariant
            i <= headers.len(),
            all == header_views(headers@),
            header_value(all, "Content-Type"@) == header_value(all.take(i as int), "Content-Type"@),
        decreases i,
    {
        proof {
            let front = all.take(i as int);
            assert(front.last() == (headers@[i - 1].0@, headers@[i - 1].1@));
            assert(front.drop_last() =~= all.take(i - 1));
        }
        i -= 1;
        if equal_ignoring_case(headers[i].0.as_str(), "Content-Type") {
            return Some(headers[i].1.clone());
        }
    }
    None
}

/// What a request asks for.
pub fn route(method: Method, url: &str, content_type: Option<&str>) -> (r: Route)
    ensures
        r == route_of(
            method,
            url@,
            match content_type {
                Some(t) => Some(t@),
                None => None,
            },
        ),
{
    let chars = chars_of(url);
    let pieces = split_at(&chars, '/');
    let ghost path = segments(url@);
    proof {
        let all = split(url@, '/');
        assert(all.len() == pieces@.len());
        assert forall|k: int| 0 <= k < path.len() implies path[k] == (#[trigger] pieces@[k + 1])@ by {
            assert(crate::text::views(pieces@)[k + 1] == pieces@[k + 1]@);
        }
    }
    let count = pieces.len();
    let empty: Vec<char> = Vec::new();
    let transactions = chars_of("transactions");
    let stop = chars_of("__stop__");
    if count == 2 && pieces[1].len() == 0 {
        match method {
            Method::Get => {
                return Route::Accounts;
            },
            Method::Post => {
                let json = match content_type {
                    Some(t) => crate::text::same_text(t, "application/json"),
                    None => false,
                };
                return if json {
                    Route::Command
                } else {
                    Route::Refuse(Refusal::JsonRequired)
                };
            },
            Method::Other => {},
        }
    }
    proof {
        reveal_strlit("transactions");
        reveal_strlit("__stop__");
    }
    if count == 3 && same_chars(&pieces[1], &transactions) && method == Method::Get {
        let text = string_of(&pieces[2]);
        return match AccountId::from_str(text.as_str()) {
            Ok(id) => Route::Transactions(id),
            Err(_) => Route::Refuse(Refusal::InvalidAccountId),
        };
    }
    if count == 2 && same_chars(&pieces[1], &stop) && method == Method::Post {
        return Route::Stop;
    }
    Route::Refuse(Refusal::NotFound)
}

/// The address of the server without a slash at its end.
pub open spec fn base_of(url: Seq<char>) -> Seq<char> {
    if url.len() > 0 && url.last() == '/' {
        url.drop_last()
    } else {
        url
    }
}

/// The address of the server as a client keeps it: one slash at its end,
/// if there is one, is taken away.
pub fn base_url(url: &str) -> (r: String)
    ensures
        r@ == base_of(url@),
{
    let mut chars = chars_of(url);
    let n = chars.len();
    if n > 0 && chars[n - 1] == '/' {
        chars.pop();
    }
    string_of(&chars)
}

/// Where a client finds the accounts and sends its commands.
pub fn accounts_url(base: &str) -> (r: String)
    ensures
        r@ == base@ + "/"@,
{
    let mut chars = chars_of(base);
    push_str(&mut chars, "/");
    string_of(&chars)
}

/// Where a client finds the transactions of an account.
pub fn transactions_url(base: &str, account: AccountId) -> (r: String)
    ensures
        r@ == base@ + "/transactions/"@ + account.text(),
{
    let mut chars = chars_of(base);
    push_str(&mut chars, "/transactions/");
    let id = account.to_string();
    push_str(&mut chars, id.as_str());
    string_of(&chars)
}

} // verus!
