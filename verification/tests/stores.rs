use monfari::account::{Account, AccountType};
use monfari::amount::Amount;
use monfari::command::{AccountModification, Command};
use monfari::currency::Currency;
use monfari::error::Error;
use monfari::export::{command_line, export_commands};
use monfari::id::{AccountId, Id, TransactionId};
use monfari::ledger::Ledger;
use monfari::repository::http::{
    accounts_url, base_url, content_type, equal_ignoring_case, route, transactions_url, Method,
    Refusal, Route,
};
use monfari::repository::local::{
    check_init, check_lock, check_open, file_name, id_of_file_name, lock_content, lock_file_name,
    lock_is_own, path_for, Entity,
};
use monfari::repository::remote::{
    check_listeners, frame, received, systemd_descriptors, take_frame, AccountCache, Message,
    Reply, Request,
};
use monfari::repository::sql::{
    write_of, AccountDb, SqlValue, TransactionDb, TransactionType, Write,
};
use monfari::repository::Address;
use monfari::transaction::{Transaction, TransactionInner};

fn eur(units: i32) -> Amount {
    Amount(units, Currency::eur())
}

fn usd(units: i32) -> Amount {
    Amount(units, Currency::usd())
}

fn account(id: u128, typ: AccountType, name: &str) -> Account {
    Account::new(Id::new(id), typ, name.to_owned(), "notes".to_owned())
}

fn transaction(id: u128, amount: Amount, inner: TransactionInner) -> Transaction {
    Transaction { id: Id::new(id), notes: "n".to_owned(), amount, inner }
}

fn receipt(id: u128, amount: Amount, dst: u128, dst_virt: u128) -> Transaction {
    transaction(
        id,
        amount,
        TransactionInner::Received { src: "Employer".to_owned(), dst: Id::new(dst), dst_virt: Id::new(dst_virt) },
    )
}

fn shapes() -> Vec<Transaction> {
    vec![
        receipt(1, eur(5), 10, 20),
        transaction(
            2,
            eur(6),
            TransactionInner::Paid { src: Id::new(10), src_virt: Id::new(20), dst: "Shop".to_owned() },
        ),
        transaction(3, eur(7), TransactionInner::MovePhys { src: Id::new(10), dst: Id::new(11) }),
        transaction(4, eur(8), TransactionInner::MoveVirt { src: Id::new(20), dst: Id::new(21) }),
        transaction(
            5,
            eur(9),
            TransactionInner::Convert { acc: Id::new(10), acc_virt: Id::new(20), new_amount: usd(10) },
        ),
    ]
}

#[test]
fn transaction_type_names() {
    let all = [
        (TransactionType::Received, "Received"),
        (TransactionType::Paid, "Paid"),
        (TransactionType::MovePhys, "MovePhys"),
        (TransactionType::MoveVirt, "MoveVirt"),
        (TransactionType::Convert, "Convert"),
    ];
    for (t, name) in all {
        assert_eq!(t.to_string(), name);
        assert_eq!(TransactionType::from_str(name), Ok(t));
    }
    assert_eq!(TransactionType::from_str("received"), Err(Error::InvalidEncoding));
    assert_eq!(TransactionType::from_str(""), Err(Error::InvalidEncoding));
}

#[test]
fn rows_stand_for_their_transactions() {
    for t in shapes() {
        let row = TransactionDb::from_transaction(t.clone());
        assert_eq!(row.id, t.id);
        assert_eq!(row.amount, t.amount);
        assert_eq!(row.notes, t.notes);
        assert_eq!([row.acc_1, row.acc_2], t.accounts());
        assert_eq!(row.to_transaction(), Ok(t));
    }
}

#[test]
fn row_columns_by_shape() {
    let rows: Vec<TransactionDb> = shapes().into_iter().map(TransactionDb::from_transaction).collect();
    assert_eq!(rows[0].typ, TransactionType::Received);
    assert_eq!(rows[0].external_party.as_deref(), Some("Employer"));
    assert_eq!(rows[0].new_amount, None);
    assert_eq!(rows[1].typ, TransactionType::Paid);
    assert_eq!(rows[1].external_party.as_deref(), Some("Shop"));
    assert_eq!(rows[2].typ, TransactionType::MovePhys);
    assert_eq!(rows[2].external_party, None);
    assert_eq!(rows[3].typ, TransactionType::MoveVirt);
    assert_eq!(rows[4].typ, TransactionType::Convert);
    assert_eq!(rows[4].new_amount, Some(usd(10)));
    assert_eq!(rows[4].external_party, None);
}

#[test]
fn incomplete_rows_are_refused() {
    let row = |typ, new_amount, external_party: Option<&str>| TransactionDb {
        id: Id::new(1),
        amount: eur(1),
        typ,
        new_amount,
        external_party: external_party.map(|s| s.to_owned()),
        acc_1: Id::new(2),
        acc_2: Id::new(3),
        notes: String::new(),
    };
    assert_eq!(row(TransactionType::Received, None, None).to_transaction(), Err(Error::InvalidEncoding));
    assert_eq!(row(TransactionType::Paid, Some(eur(1)), None).to_transaction(), Err(Error::InvalidEncoding));
    assert_eq!(
        row(TransactionType::Convert, None, Some("x")).to_transaction(),
        Err(Error::InvalidEncoding)
    );
    assert!(row(TransactionType::MovePhys, None, None).to_transaction().is_ok());
    assert!(row(TransactionType::MoveVirt, Some(eur(1)), Some("x")).to_transaction().is_ok());
}

#[test]
fn account_row_recomputes_the_balance() {
    let row = AccountDb::from_account(account(10, AccountType::Physical, "Bank"));
    assert_eq!(row.typ, AccountType::Physical);
    assert_eq!(row.name, "Bank");
    let a = row.to_account(&shapes()).unwrap();
    assert_eq!(a.id, Id::new(10));
    assert_eq!(a.name, "Bank");
    assert_eq!(a.notes, "notes");
    assert!(a.enabled);
    // +5 -6 -7 -9 EUR, +10 USD
    assert_eq!(a.current.values(), vec![eur(-17), usd(10)]);

    let other = AccountDb::from_account(account(21, AccountType::Virtual, "Food"));
    assert_eq!(other.to_account(&shapes()).unwrap().current.values(), vec![eur(8)]);
    let stranger = AccountDb::from_account(account(99, AccountType::Virtual, "None"));
    assert_eq!(stranger.to_account(&shapes()).unwrap().current.values(), Vec::new());
}

#[test]
fn recomputed_balance_matches_the_ledger() {
    let mut ledger = Ledger::new();
    ledger.create_account(account(10, AccountType::Physical, "Bank")).unwrap();
    ledger.create_account(account(20, AccountType::Virtual, "Rent")).unwrap();
    ledger.add_transaction(receipt(1, eur(500), 10, 20)).unwrap();
    ledger.add_transaction(receipt(2, usd(100), 10, 20)).unwrap();
    for a in ledger.accounts() {
        let transactions = ledger.transactions(a.id);
        let again = AccountDb::from_account(a.clone()).to_account(&transactions).unwrap();
        assert_eq!(again, a);
    }
}

#[test]
fn recomputing_refuses_amounts_out_of_range() {
    let row = || AccountDb::from_account(account(10, AccountType::Physical, "Bank"));
    let much = vec![receipt(1, eur(i32::MAX), 10, 20), receipt(2, eur(1), 10, 20)];
    assert_eq!(row().to_account(&much).err(), Some(Error::AmountOutOfRange));
    let least = vec![transaction(
        3,
        eur(i32::MIN),
        TransactionInner::MovePhys { src: Id::new(50), dst: Id::new(51) },
    )];
    assert_eq!(row().to_account(&least).err(), Some(Error::AmountOutOfRange));
}

#[test]
fn writes_of_commands() {
    let a = account(10, AccountType::Physical, "Bank");
    assert_eq!(
        write_of(Command::CreateAccount(a.clone())),
        Write::InsertAccount(AccountDb::from_account(a))
    );
    let t = receipt(1, eur(5), 10, 20);
    assert_eq!(
        write_of(Command::AddTransaction(t.clone())),
        Write::InsertTransaction(TransactionDb::from_transaction(t))
    );
    let id: AccountId = Id::new(10);
    assert_eq!(write_of(Command::UpdateAccount(id, Vec::new())), Write::Nothing);
    let changes = vec![
        AccountModification::UpdateName("A".to_owned()),
        AccountModification::Disable,
        AccountModification::UpdateNotes("B".to_owned()),
    ];
    assert_eq!(
        write_of(Command::UpdateAccount(id, changes)),
        Write::UpdateAccount {
            statement: "UPDATE accounts SET name = ?, enabled = ?, notes = ? WHERE id = ?".to_owned(),
            values: vec![
                SqlValue::Text("A".to_owned()),
                SqlValue::Flag(false),
                SqlValue::Text("B".to_owned()),
                SqlValue::Key(id),
            ],
        }
    );
    assert_eq!(
        write_of(Command::UpdateAccount(id, vec![AccountModification::Disable])),
        Write::UpdateAccount {
            statement: "UPDATE accounts SET enabled = ? WHERE id = ?".to_owned(),
            values: vec![SqlValue::Flag(false), SqlValue::Key(id)],
        }
    );
}

#[test]
fn addresses_name_their_store() {
    assert_eq!(Address::parse("/home/me/ledger"), Ok(Address::Local("/home/me/ledger".to_owned())));
    assert_eq!(Address::parse(""), Ok(Address::Local(String::new())));
    assert_eq!(Address::parse("path:/tmp/a:b"), Ok(Address::Local("/tmp/a:b".to_owned())));
    assert_eq!(Address::parse("tcp:localhost:4000"), Ok(Address::Tcp("localhost:4000".to_owned())));
    assert_eq!(
        Address::parse("http://example.org/ledger"),
        Ok(Address::Http("http://example.org/ledger".to_owned()))
    );
    assert_eq!(
        Address::parse("https://example.org"),
        Ok(Address::Http("https://example.org".to_owned()))
    );
    assert_eq!(Address::parse("sqlite:ledger.db"), Ok(Address::Sqlite("ledger.db".to_owned())));
    assert_eq!(Address::parse("ftp://example.org"), Err(Error::InvalidEncoding));
    assert_eq!(Address::parse(":x"), Err(Error::InvalidEncoding));
    assert_eq!(Address::parse("C:\\ledger"), Err(Error::InvalidEncoding));
}

#[test]
fn entity_files() {
    let id: AccountId = Id::new(77);
    let text = id.to_string();
    assert_eq!(file_name(id), format!("{text}.toml"));
    assert_eq!(path_for::<Account>(id), format!("accounts/{text}.toml"));
    let tid: TransactionId = Id::new(77);
    assert_eq!(path_for::<Transaction>(tid), format!("transactions/{text}.toml"));
    assert_eq!(<Account as Entity>::path(), "accounts");
    assert_eq!(<Transaction as Entity>::path(), "transactions");
    assert_eq!(Entity::id(&account(5, AccountType::Virtual, "x")), Id::new(5));
    assert_eq!(Entity::id(&receipt(6, eur(1), 1, 2)), Id::new(6));

    assert_eq!(id_of_file_name::<monfari::id::AccountKind>(&file_name(id)), Some(Ok(id)));
    assert_eq!(id_of_file_name::<monfari::id::AccountKind>(".gitkeep"), None);
    assert_eq!(id_of_file_name::<monfari::id::AccountKind>("toml"), None);
    assert_eq!(
        id_of_file_name::<monfari::id::AccountKind>("notes.toml"),
        Some(Err(Error::InvalidEncoding))
    );
    assert_eq!(
        id_of_file_name::<monfari::id::AccountKind>(".toml"),
        Some(Err(Error::InvalidEncoding))
    );
}

#[test]
fn opening_and_initialising() {
    assert_eq!(check_init(false, false), Ok(()));
    assert_eq!(check_init(true, true), Ok(()));
    assert_eq!(check_init(true, false), Err(Error::StorageFailure));
    assert_eq!(check_open(true, true, true, true), Ok(()));
    assert_eq!(check_open(false, true, true, true), Err(Error::NotInitialized));
    assert_eq!(check_open(false, false, false, false), Err(Error::NotInitialized));
    assert_eq!(check_open(true, false, true, true), Err(Error::DirtyRepository));
    assert_eq!(check_open(true, false, false, true), Err(Error::DirtyRepository));
    assert_eq!(check_open(true, true, false, true), Err(Error::NotInitialized));
    assert_eq!(check_open(true, true, true, false), Err(Error::NotInitialized));
}

#[test]
fn lock_file() {
    assert_eq!(lock_file_name(), "monfari-repo-lock");
    assert_eq!(check_lock(true), Ok(()));
    assert_eq!(check_lock(false), Err(Error::AlreadyLocked));
    assert_eq!(lock_content(4711), "4711");
    assert_eq!(lock_content(0), "0");
    assert_eq!(lock_content(u32::MAX), "4294967295");
    assert!(lock_is_own("4711", 4711));
    assert!(!lock_is_own("4712", 4711));
    assert!(!lock_is_own("4711\n", 4711));
    assert!(!lock_is_own("", 4711));
}

#[test]
fn frames_end_in_a_zero_byte() {
    assert_eq!(frame(b"{\"a\":1}".to_vec()), b"{\"a\":1}\0".to_vec());
    assert_eq!(frame(Vec::new()), vec![0]);
    assert_eq!(received(Vec::new()), Ok(None));
    assert_eq!(received(b"abc\0".to_vec()), Ok(Some(b"abc".to_vec())));
    assert_eq!(received(vec![0]), Ok(Some(Vec::new())));
    assert_eq!(received(b"abc".to_vec()), Err(Error::TransportFailure));
    assert_eq!(received(frame(b"xyz".to_vec())), Ok(Some(b"xyz".to_vec())));
}

#[test]
fn frames_are_taken_from_a_buffer_one_by_one() {
    let mut buffer = b"one\0two\0thr".to_vec();
    assert_eq!(take_frame(&mut buffer), Some(b"one".to_vec()));
    assert_eq!(buffer, b"two\0thr".to_vec());
    assert_eq!(take_frame(&mut buffer), Some(b"two".to_vec()));
    assert_eq!(buffer, b"thr".to_vec());
    assert_eq!(take_frame(&mut buffer), None);
    assert_eq!(buffer, b"thr".to_vec());
    buffer.extend_from_slice(b"ee\0");
    assert_eq!(take_frame(&mut buffer), Some(b"three".to_vec()));
    assert!(buffer.is_empty());
    assert_eq!(take_frame(&mut buffer), None);
}

#[test]
fn server_answers_like_the_ledger() {
    let mut server = Ledger::new();
    let mut local = Ledger::new();
    for ledger in [&mut server, &mut local] {
        ledger.create_account(account(10, AccountType::Physical, "Bank")).unwrap();
        ledger.create_account(account(20, AccountType::Virtual, "Rent")).unwrap();
    }
    assert_eq!(server.answer(Request::greeting()), Ok(Reply::Accounts(local.accounts())));
    let mut cache = match server.answer(Request::Accounts).unwrap() {
        Reply::Accounts(list) => AccountCache::new(list),
        Reply::Transactions(_) => unreachable!(),
    };

    let command = Command::AddTransaction(receipt(1, eur(500), 10, 20));
    let request = Message::Command { command: command.clone() }.request();
    assert_eq!(request, Request::Run(command.clone()));
    let reply = server.answer(request).unwrap();
    local.run_command(command).unwrap();
    assert_eq!(reply, Reply::Accounts(local.accounts()));
    if let Reply::Accounts(list) = reply {
        cache.settle(Ok(list)).unwrap();
    }
    assert_eq!(cache.accounts(), local.accounts());
    assert_eq!(cache.account(Id::new(20)), local.account(Id::new(20)));
    assert_eq!(cache.account(Id::new(30)), None);

    let request = Message::Transactions { account: Id::new(10) }.request();
    assert_eq!(request, Request::Transactions(Id::new(10)));
    assert_eq!(server.answer(request), Ok(Reply::Transactions(local.transactions(Id::new(10)))));
}

#[test]
fn failed_command_leaves_the_cache() {
    let mut server = Ledger::new();
    server.create_account(account(10, AccountType::Physical, "Bank")).unwrap();
    server.create_account(account(20, AccountType::Virtual, "Rent")).unwrap();
    let mut cache = AccountCache::new(server.accounts());
    let overdraw = Command::AddTransaction(transaction(
        2,
        eur(1),
        TransactionInner::Paid { src: Id::new(10), src_virt: Id::new(20), dst: "x".to_owned() },
    ));
    let answer = server.answer(Request::Run(overdraw));
    assert_eq!(
        answer,
        Err(Error::NegativeBalance { account: Id::new(10), currency: Currency::eur() })
    );
    assert_eq!(cache.settle(Err(answer.unwrap_err())).err().map(|e| e.is_environmental()), Some(false));
    assert_eq!(cache.accounts(), server.accounts());
    assert_eq!(cache.settle(Err(Error::TransportFailure)), Err(Error::TransportFailure));
    assert_eq!(cache.accounts().len(), 2);
    assert_eq!(cache.settle(Ok(Vec::new())), Ok(()));
    assert_eq!(cache.accounts(), Vec::new());
}

#[test]
fn routes_of_the_text_protocol() {
    let json = Some("application/json");
    assert_eq!(route(Method::Get, "/", None), Route::Accounts);
    assert_eq!(route(Method::Post, "/", json), Route::Command);
    assert_eq!(route(Method::Post, "/", None), Route::Refuse(Refusal::JsonRequired));
    assert_eq!(route(Method::Post, "/", Some("text/plain")), Route::Refuse(Refusal::JsonRequired));
    assert_eq!(
        route(Method::Post, "/", Some("application/json; charset=utf-8")),
        Route::Refuse(Refusal::JsonRequired)
    );
    let id: AccountId = Id::new(5);
    let path = format!("/transactions/{}", id.to_string());
    assert_eq!(route(Method::Get, &path, None), Route::Transactions(id));
    assert_eq!(route(Method::Post, &path, json), Route::Refuse(Refusal::NotFound));
    assert_eq!(
        route(Method::Get, "/transactions/nobody", None),
        Route::Refuse(Refusal::InvalidAccountId)
    );
    assert_eq!(route(Method::Get, "/transactions", None), Route::Refuse(Refusal::NotFound));
    assert_eq!(route(Method::Get, &format!("{path}/"), None), Route::Refuse(Refusal::NotFound));
    assert_eq!(route(Method::Post, "/__stop__", None), Route::Stop);
    assert_eq!(route(Method::Get, "/__stop__", None), Route::Refuse(Refusal::NotFound));
    assert_eq!(route(Method::Other, "/", None), Route::Refuse(Refusal::NotFound));
    assert_eq!(route(Method::Get, "", None), Route::Refuse(Refusal::NotFound));
    assert_eq!(route(Method::Get, "//", None), Route::Refuse(Refusal::NotFound));
    assert_eq!(route(Method::Get, "/accounts", None), Route::Refuse(Refusal::NotFound));
}

#[test]
fn refusals_have_a_status_and_a_reason() {
    assert_eq!(Refusal::JsonRequired.status(), 401);
    assert_eq!(Refusal::InvalidCommand.status(), 401);
    assert_eq!(Refusal::InvalidAccountId.status(), 401);
    assert_eq!(Refusal::NotFound.status(), 404);
    assert_eq!(Refusal::JsonRequired.reason(), "JSON is required");
    assert_eq!(Refusal::InvalidCommand.reason(), "Invalid command");
    assert_eq!(Refusal::InvalidAccountId.reason(), "Invalid account ID");
    assert_eq!(Refusal::NotFound.reason(), "Not Found");
}

#[test]
fn content_type_is_the_last_header_of_that_name() {
    let header = |name: &str, value: &str| (name.to_owned(), value.to_owned());
    let headers = vec![
        header("Content-Type", "text/plain"),
        header("Accept", "*/*"),
        header("content-type", "application/json"),
        header("Content-Length", "2"),
    ];
    assert_eq!(content_type(&headers), Some("application/json".to_owned()));
    assert_eq!(content_type(&vec![header("Accept", "*/*")]), None);
    assert_eq!(content_type(&Vec::new()), None);
    assert!(equal_ignoring_case("CONTENT-TYPE", "Content-Type"));
    assert!(!equal_ignoring_case("Content_Type", "Content-Type"));
    assert!(!equal_ignoring_case("Content-Typ", "Content-Type"));
}

#[test]
fn client_addresses() {
    assert_eq!(base_url("http://host:80/"), "http://host:80");
    assert_eq!(base_url("http://host:80"), "http://host:80");
    assert_eq!(base_url("http://host//"), "http://host/");
    assert_eq!(base_url(""), "");
    assert_eq!(accounts_url("http://host"), "http://host/");
    let id: AccountId = Id::new(5);
    assert_eq!(
        transactions_url("http://host", id),
        format!("http://host/transactions/{}", id.to_string())
    );
}

#[test]
fn sockets_handed_over() {
    assert_eq!(systemd_descriptors("42", "1", 42), Ok(vec![3]));
    assert_eq!(systemd_descriptors("42", "3", 42), Ok(vec![3, 4, 5]));
    assert_eq!(systemd_descriptors("+42", "0", 42), Ok(Vec::new()));
    assert_eq!(systemd_descriptors("42", "-2", 42), Ok(Vec::new()));
    assert_eq!(systemd_descriptors("41", "1", 42), Err(Error::TransportFailure));
    assert_eq!(systemd_descriptors("x", "1", 42), Err(Error::InvalidEncoding));
    assert_eq!(systemd_descriptors("-0", "1", 0), Err(Error::InvalidEncoding));
    assert_eq!(systemd_descriptors("4294967296", "1", 0), Err(Error::InvalidEncoding));
    assert_eq!(systemd_descriptors("42", "", 42), Err(Error::InvalidEncoding));
    assert_eq!(systemd_descriptors("42", "2147483647", 42), Err(Error::TransportFailure));
    assert_eq!(check_listeners(1), Ok(()));
    assert_eq!(check_listeners(0), Err(Error::TransportFailure));
    assert_eq!(check_listeners(2), Err(Error::TransportFailure));
}

#[test]
fn export_writes_accounts_then_transactions() {
    let mut ledger = Ledger::new();
    ledger.create_account(account(20, AccountType::Virtual, "Rent")).unwrap();
    ledger.create_account(account(10, AccountType::Physical, "Bank")).unwrap();
    ledger.add_transaction(receipt(2, eur(500), 10, 20)).unwrap();
    ledger.add_transaction(receipt(1, usd(100), 10, 20)).unwrap();
    let accounts = ledger.accounts();
    let histories: Vec<Vec<Transaction>> = accounts.iter().map(|a| ledger.transactions(a.id)).collect();
    let commands = export_commands(&accounts, &histories);
    assert_eq!(commands.len(), 4);
    assert_eq!(commands[0], Command::CreateAccount(account(10, AccountType::Physical, "Bank")));
    assert_eq!(commands[1], Command::CreateAccount(account(20, AccountType::Virtual, "Rent")));
    assert_eq!(commands[2], Command::AddTransaction(receipt(1, usd(100), 10, 20)));
    assert_eq!(commands[3], Command::AddTransaction(receipt(2, eur(500), 10, 20)));

    let mut again = Ledger::new();
    for command in commands {
        again.run_command(command).unwrap();
    }
    assert_eq!(again.accounts(), ledger.accounts());
    assert_eq!(export_commands(&Vec::new(), &Vec::new()), Vec::new());
}

#[test]
fn command_line_quotes_words_with_spaces() {
    let words = |w: &[&str]| w.iter().map(|s| s.to_string()).collect::<Vec<String>>();
    assert_eq!(command_line(&words(&["account", "create", "physical", "My Bank"])), "account create physical \"My Bank\"");
    assert_eq!(command_line(&words(&["account", "list"])), "account list");
    assert_eq!(command_line(&words(&["one"])), "one");
    assert_eq!(command_line(&words(&[])), "");
    assert_eq!(command_line(&words(&["", " "])), " \" \"");
}
