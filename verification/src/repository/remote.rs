//! The replication protocol: what a client asks of the process that hosts a
//! ledger, how messages are told apart on a stream, which request a path
//! of the text protocol stands for, and what a client keeps of the answers.

use vstd::prelude::*;

use crate::account::{Account, AccountView};
use crate::command::{Command, CommandView};
use crate::error::Error;
use crate::id::AccountId;
use crate::ledger::{account_views, transaction_views, Ledger};
use crate::rules::LedgerView;
use crate::text::{integer_within, is_negative_text, parse_integer};
use crate::transaction::{Transaction, TransactionView};

verus! {

/// What a client sends on the stream.
#[derive(Debug, PartialEq, Eq)]
pub enum Message {
    /// Apply this command and send the accounts as they are afterwards.
    Command { command: Command },
    /// Send the transactions of this account.
    Transactions { account: AccountId },
}

/// What a server is asked, on whichever wire.
#[derive(Debug, PartialEq, Eq)]
pub enum Request {
    /// Send all accounts.
    Accounts,
    /// Apply this command and send all accounts as they are afterwards.
    Run(Command),
    /// Send the transactions of this account.
    Transactions(AccountId),
}

/// What a server answers.
#[derive(Debug, PartialEq, Eq)]
pub enum Reply {
    /// All accounts, in the order of their identifiers.
    Accounts(Vec<Account>),
    /// The transactions of one account, in the order of their identifiers.
    Transactions(Vec<Transaction>),
}

/// A request, as plain values.
pub enum RequestView {
    Accounts,
    Run(CommandView),
    Transactions(AccountId),
}

impl View for Request {
    type V = RequestView;

    open spec fn view(&self) -> RequestView {
        match *self {
            Request::Accounts => RequestView::Accounts,
            Request::Run(command) => RequestView::Run(command@),
            Request::Transactions(account) => RequestView::Transactions(account),
        }
    }
}

/// A reply, as plain values.
pub enum ReplyView {
    Accounts(Seq<AccountView>),
    Transactions(Seq<TransactionView>),
}

impl View for Reply {
    type V = ReplyView;

    open spec fn view(&self) -> ReplyView {
        match *self {
            Reply::Accounts(accounts) => ReplyView::Accounts(account_views(accounts@)),
            Reply::Transactions(transactions) => ReplyView::Transactions(
                transaction_views(transactions@),
            ),
        }
    }
}

impl Message {
    /// What the message asks of the server.
    pub fn request(self) -> (r: Request)
        ensures
            r@ == match self {
                Message::Command { command } => RequestView::Run(command@),
                Message::Transactions { account } => RequestView::Transactions(account),
            },
    {
        match self {
            Message::Command { command } => Request::Run(command),
            Message::Transactions { account } => Request::Transactions(account),
        }
    }
}

impl Request {
    /// What a server is taken to have been asked when a connection opens:
    /// its first message is always the list of all accounts.
    pub fn greeting() -> (r: Request)
        ensures
            r@ == RequestView::Accounts,
    {
        Request::Accounts
    }
}

impl LedgerView {
    /// Whether `reply` answers `request` on this ledger, which is the ledger
    /// as the request has left it.
    pub open spec fn answers(self, request: RequestView, reply: ReplyView) -> bool {
        match request {
            RequestView::Accounts => reply matches ReplyView::Accounts(list)
                && self.lists_accounts(list),
            RequestView::Run(_) => reply matches ReplyView::Accounts(list) && self.lists_accounts(
                list,
            ),
            RequestView::Transactions(account) => reply matches ReplyView::Transactions(list)
                && self.lists_transactions(account, list),
        }
    }

    /// The ledger after a request: only a command that is accepted changes
    /// it.
    pub open spec fn served(self, request: RequestView) -> LedgerView {
        match request {
            RequestView::Run(command) => self.after(command),
            _ => self,
        }
    }

    /// Why a request is refused, if it is: only a command can be.
    pub open spec fn declined(self, request: RequestView) -> Option<Error> {
        match request {
            RequestView::Run(command) => self.refusal(command),
            _ => None,
        }
    }
}

impl Ledger {
    /// Serves one request: a command is applied and answered with all
    /// accounts as they are afterwards, the other requests are answered
    /// from the ledger as it is. A refused command changes nothing and is
    /// answered with the reason.
    pub fn answer(&mut self, request: Request) -> (r: Result<Reply, Error>)
        ensures
            final(self)@ == old(self)@.served(request@),
            match old(self)@.declined(request@) {
                Some(e) => r is Err && r->Err_0 == e,
                None => r is Ok && final(self)@.answers(request@, r->Ok_0@),
            },
    {
        match request {
            Request::Accounts => Ok(Reply::Accounts(self.accounts())),
            Request::Run(command) => {
                match self.run_command(command) {
                    Ok(_) => Ok(Reply::Accounts(self.accounts())),
                    Err(e) => Err(e),
                }
            },
            Request::Transactions(account) => Ok(Reply::Transactions(self.transactions(account))),
        }
    }
}

/// What a client keeps of the server's answers: the list of accounts that
/// it saw last. This is all that the client knows of balances.
#[derive(Debug)]
pub struct AccountCache {
    accounts: Vec<Account>,
}

impl View for AccountCache {
    type V = Seq<AccountView>;

    closed spec fn view(&self) -> Seq<AccountView> {
        account_views(self.accounts@)
    }
}

/// The first account of the list with the given identifier, if there is
/// one.
pub open spec fn first_with(list: Seq<AccountView>, id: AccountId) -> Option<AccountView>
    decreases list.len(),
{
    if list.len() == 0 {
        None
    } else if list.first().id == id {
        Some(list.first())
    } else {
        first_with(list.drop_first(), id)
    }
}

/// A copy of a list of accounts.
pub fn clone_accounts(list: &Vec<Account>) -> (r: Vec<Account>)
    ensures
        account_views(r@) == account_views(list@),
{
    let mut out: Vec<Account> = Vec::new();
    let mut i: usize = 0;
    while i < list.len()
        invariant
            i <= list.len(),
            out@.len() == i,
            forall|j: int| 0 <= j < i ==> (#[trigger] out@[j])@ == list@[j]@,
        decreases list.len() - i,
    {
        out.push(list[i].clone());
        i += 1;
    }
    assert(account_views(out@) =~= account_views(list@));
    out
}

impl AccountCache {
    /// The cache of a client that has just connected and received the
    /// list of accounts.
    pub fn new(accounts: Vec<Account>) -> (r: AccountCache)
        ensures
            r@ == account_views(accounts@),
    {
        AccountCache { accounts }
    }

    /// Takes in the server's answer to a command: the list it sent takes
    /// the place of the cache. A failure leaves the cache as it was, and is
    /// handed on.
    pub fn settle(&mut self, answer: Result<Vec<Account>, Error>) -> (r: Result<(), Error>)
        ensures
            match answer {
                Ok(list) => r is Ok && final(self)@ == account_views(list@),
                Err(e) => r is Err && r->Err_0 == e && final(self)@ == old(self)@,
            },
    {
        match answer {
            Ok(list) => {
                self.accounts = list;
                Ok(())
            },
            Err(e) => Err(e),
        }
    }

    /// The accounts as the server listed them last.
    pub fn accounts(&self) -> (r: Vec<Account>)
        ensures
            account_views(r@) == self@,
    {
        clone_accounts(&self.accounts)
    }

    /// The account with the given identifier, as the server listed it last.
    pub fn account(&self, id: AccountId) -> (r: Option<Account>)
        ensures
            r is Some <==> first_with(self@, id) is Some,
            r is Some ==> r->0@ == first_with(self@, id)->0,
    {
        let ghost list = self@;
        let mut i: usize = 0;
        proof {
            assert(list.skip(0) =~= list);
        }
        while i < self.accounts.len()
            invariant
                i <= self.accounts.len(),
                list == account_views(self.accounts@),
                first_with(list, id) == first_with(list.skip(i as int), id),
            decreases self.accounts.len() - i,
        {
            proof {
                let rest = list.skip(i as int);
                assert(rest.first() == self.accounts@[i as int]@);
                assert(rest.drop_first() =~= list.skip(i + 1));
            }
            if self.accounts[i].id == id {
                return Some(self.accounts[i].clone());
            }
            i += 1;
        }
        None
    }
}

/// A message as it travels on a stream: its bytes, then one zero byte.
pub open spec fn framed(payload: Seq<u8>) -> Seq<u8> {
    payload.push(0u8)
}

/// Whether `i` is the position of the first zero byte of `s`.
pub open spec fn first_zero(s: Seq<u8>, i: int) -> bool {
    &&& 0 <= i < s.len()
    &&& s[i] == 0
    &&& forall|j: int| 0 <= j < i ==> s[j] != 0
}

/// A message that holds no zero byte ends, on the stream, where its own
/// delimiter stands, whatever follows it.
pub proof fn lemma_frame_ends(payload: Seq<u8>, rest: Seq<u8>)
    requires
        !payload.contains(0u8),
    ensures
        first_zero(framed(payload) + rest, payload.len() as int),
        (framed(payload) + rest).take(payload.len() as int) == payload,
        (framed(payload) + rest).skip(payload.len() as int + 1) == rest,
{
    let s = framed(payload) + rest;
    assert forall|j: int| 0 <= j < payload.len() implies s[j] != 0 by {
        assert(s[j] == payload[j]);
        if payload[j] == 0 {
            assert(payload.contains(0u8));
        }
    }
    assert(s.take(payload.len() as int) =~= payload);
    assert(s.skip(payload.len() as int + 1) =~= rest);
}

/// Puts the delimiter behind a message.
pub fn frame(payload: Vec<u8>) -> (r: Vec<u8>)
    ensures
        r@ == framed(payload@),
{
    let mut r = payload;
    r.push(0);
    r
}

/// What a chunk of the stream holds that ends with a delimiter or with the
/// stream: nothing at all if the stream has ended, else a message. Bytes
/// without a delimiter behind them mean that the stream ended within a
/// message, which is a `TransportFailure`.
pub fn received(chunk: Vec<u8>) -> (r: Result<Option<Vec<u8>>, Error>)
    ensures
        chunk@.len() == 0 ==> r == Ok::<Option<Vec<u8>>, Error>(None),
        chunk@.len() > 0 && chunk@.last() == 0 ==> r is Ok && r->Ok_0 is Some && framed(
            r->Ok_0->0@,
        ) == chunk@,
        chunk@.len() > 0 && chunk@.last() != 0 ==> r is Err && r->Err_0 == Error::TransportFailure,
{
    let mut chunk = chunk;
    let ghost all = chunk@;
    match chunk.pop() {
        None => Ok(None),
        Some(last) => {
            if last == 0 {
                assert(framed(chunk@) =~= all);
                Ok(Some(chunk))
            } else {
                Err(Error::TransportFailure)
            }
        },
    }
}

/// Takes the first message out of a buffer of received bytes. Without a
/// delimiter in the buffer there is no message yet, and the buffer stays.
pub fn take_frame(buffer: &mut Vec<u8>) -> (r: Option<Vec<u8>>)
    ensures
        r is None ==> !old(buffer)@.contains(0u8) && final(buffer)@ == old(buffer)@,
        r is Some ==> exists|i: int|
            first_zero(old(buffer)@, i) && r->0@ == old(buffer)@.take(i) && final(buffer)@ == old(
                buffer,
            )@.skip(i + 1),
{
    let mut i: usize = 0;
    while i < buffer.len()
        invariant
            i <= buffer.len(),
            *buffer == *old(buffer),
            forall|j: int| 0 <= j < i ==> buffer@[j] != 0,
        decreases buffer.len() - i,
    {
        if buffer[i] == 0 {
            let ghost all = buffer@;
            let mut rest = buffer.split_off(i + 1);
            buffer.pop();
            std::mem::swap(buffer, &mut rest);
            proof {
                assert(first_zero(all, i as int));
                assert(rest@ =~= all.take(i as int));
                assert(buffer@ =~= all.skip(i + 1));
            }
            return Some(rest);
        }
        i += 1;
    }
    proof {
        if buffer@.contains(0u8) {
            let j = choose|j: int| 0 <= j < buffer@.len() && buffer@[j] == 0u8;
            assert(buffer@[j] != 0);
        }
    }
    None
}

/// A ledger gives one answer to a request: a server that holds the same
/// ledger as a store on this machine answers a command with the very list
/// of accounts that the store would hand out.
pub proof fn lemma_one_answer(
    ledger: LedgerView,
    request: RequestView,
    first: ReplyView,
    second: ReplyView,
)
    requires
        ledger.answers(request, first),
        ledger.answers(request, second),
    ensures
        first == second,
{
    match request {
        RequestView::Transactions(account) => {
            crate::rules::lemma_one_transaction_list(
                ledger,
                account,
                first->Transactions_0,
                second->Transactions_0,
            );
        },
        _ => {
            crate::rules::lemma_one_account_list(ledger, first->Accounts_0, second->Accounts_0);
        },
    }
}

/// The descriptors that a service manager has handed to a process: as many
/// as it says, counted up from 3.
pub open spec fn descriptors(count: int) -> Seq<i32> {
    Seq::new(
        (if count > 0 {
            count
        } else {
            0
        }) as nat,
        |i: int| (3 + i) as i32,
    )
}

/// What the service manager's two variables say: `listen_pid` names the
/// process that the sockets are meant for, `listen_fds` their number.
///
/// A variable that is no number is refused as `InvalidEncoding`. Sockets
/// meant for another process, or more of them than descriptors can be
/// numbered, are a `TransportFailure`.
pub open spec fn handed_over(listen_pid: Seq<char>, listen_fds: Seq<char>, own_pid: u32) -> Result<
    Seq<i32>,
    Error,
> {
    let pid = integer_within(listen_pid, 0, u32::MAX as int);
    let count = integer_within(listen_fds, i32::MIN as int, i32::MAX as int);
    if pid is None || is_negative_text(listen_pid) {
        Err(Error::InvalidEncoding)
    } else if pid->0 != own_pid {
        Err(Error::TransportFailure)
    } else if count is None {
        Err(Error::InvalidEncoding)
    } else if 3 + count->0 > i32::MAX {
        Err(Error::TransportFailure)
    } else {
        Ok(descriptors(count->0))
    }
}

/// The descriptors of the sockets that a service manager has handed to
/// this process.
pub fn systemd_descriptors(listen_pid: &str, listen_fds: &str, own_pid: u32) -> (r: Result<
    Vec<i32>,
    Error,
>)
    ensures
        match handed_over(listen_pid@, listen_fds@, own_pid) {
            Ok(fds) => r is Ok && r->Ok_0@ == fds,
            Err(e) => r is Err && r->Err_0 == e,
        },
{
    let pid = match parse_integer(listen_pid, 0, 0xffff_ffff) {
        Some(p) => p,
        None => {
            return Err(Error::InvalidEncoding);
        },
    };
    let minus = crate::text::chars_of(listen_pid);
    if minus.len() > 0 && minus[0] == '-' {
        return Err(Error::InvalidEncoding);
    }
    if pid != own_pid as i64 {
        return Err(Error::TransportFailure);
    }
    let count = match parse_integer(listen_fds, -0x8000_0000, 0x7fff_ffff) {
        Some(n) => n,
        None => {
            return Err(Error::InvalidEncoding);
        },
    };
    if 3 + count > 0x7fff_ffff {
        return Err(Error::TransportFailure);
    }
    let mut fds: Vec<i32> = Vec::new();
    let mut i: i64 = 0;
    while i < count
        invariant
            0 <= i,
            i <= count || (count < 0 && i == 0),
            3 + count <= 0x7fff_ffff,
            fds@ == descriptors(i as int),
        decreases count - i,
    {
        fds.push((3 + i) as i32);
        i += 1;
        assert(fds@ =~= descriptors(i as int));
    }
    proof {
        assert(fds@ =~= descriptors(count as int));
    }
    Ok(fds)
}

/// Whether the sockets handed over can be served: there must be exactly
/// one. None, or several, are a `TransportFailure`.
pub fn check_listeners(count: usize) -> (r: Result<(), Error>)
    ensures
        r == (if count == 1 {
            Ok::<(), Error>(())
        } else {
            Err(Error::TransportFailure)
        }),
{
    if count == 1 {
        Ok(())
    } else {
        Err(Error::TransportFailure)
    }
}

} // verus!
