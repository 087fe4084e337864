use monfari::account::{Account, AccountType};
use monfari::amount::Amount;
use monfari::command::{AccountModification, Command};
use monfari::currency::Currency;
use monfari::error::Error;
use monfari::id::{AccountId, Id, Physical, PhysicalId, TransactionId, Virtual, VirtualId};
use monfari::ledger::Ledger;
use monfari::transaction::{Transaction, TransactionInner};

fn eur(units: i32) -> Amount {
    Amount(units, Currency::eur())
}

fn usd(units: i32) -> Amount {
    Amount(units, Currency::usd())
}

fn account(id: u128, typ: AccountType, name: &str) -> Account {
    Account::new(Id::new(id), typ, name.to_owned(), String::new())
}

fn transaction(id: u128, amount: Amount, inner: TransactionInner) -> Transaction {
    Transaction { id: Id::new(id), notes: String::new(), amount, inner }
}

fn phys(id: u128) -> PhysicalId {
    Id::new(id)
}

fn virt(id: u128) -> VirtualId {
    Id::new(id)
}

fn received(id: u128, amount: Amount, dst: u128, dst_virt: u128) -> Transaction {
    transaction(
        id,
        amount,
        TransactionInner::Received { src: "Employer".to_owned(), dst: phys(dst), dst_virt: virt(dst_virt) },
    )
}

fn paid(id: u128, amount: Amount, src: u128, src_virt: u128) -> Transaction {
    transaction(
        id,
        amount,
        TransactionInner::Paid { src: phys(src), src_virt: virt(src_virt), dst: "Landlord".to_owned() },
    )
}

/// A ledger with physical accounts 1 and 3 and virtual accounts 2 and 4.
fn ledger() -> Ledger {
    let mut ledger = Ledger::new();
    ledger.create_account(account(1, AccountType::Physical, "Bank")).unwrap();
    ledger.create_account(account(2, AccountType::Virtual, "Rent")).unwrap();
    ledger.create_account(account(3, AccountType::Physical, "Cash")).unwrap();
    ledger.create_account(account(4, AccountType::Virtual, "Food")).unwrap();
    ledger
}

fn balance(ledger: &Ledger, id: u128) -> Vec<Amount> {
    ledger.account(Id::new(id)).unwrap().current.values()
}

#[test]
fn received_then_overdrawn_payment() {
    let mut ledger = Ledger::new();
    let v = account(10, AccountType::Virtual, "V");
    let p = account(11, AccountType::Physical, "P");
    ledger.run_command(Command::CreateAccount(v)).unwrap();
    ledger.run_command(Command::CreateAccount(p)).unwrap();
    let amount = Amount::from_str("1000.00 EUR").unwrap();
    let changed = ledger.run_command(Command::AddTransaction(received(100, amount, 11, 10))).unwrap();
    assert_eq!(changed.len(), 2);
    assert_eq!(changed[0].id, Id::new(11));
    assert_eq!(changed[1].id, Id::new(10));
    assert_eq!(balance(&ledger, 11), vec![eur(100000)]);
    assert_eq!(balance(&ledger, 10), vec![eur(100000)]);
    assert_eq!(ledger.account(Id::new(11)).unwrap().current.to_string(), "1000 EUR");

    let too_much = Amount::from_str("1200.00 EUR").unwrap();
    let refused = ledger.run_command(Command::AddTransaction(paid(101, too_much, 11, 10)));
    assert_eq!(
        refused,
        Err(Error::NegativeBalance { account: Id::new(11), currency: Currency::eur() })
    );
    assert_eq!(balance(&ledger, 11), vec![eur(100000)]);
    assert_eq!(balance(&ledger, 10), vec![eur(100000)]);
    assert!(!ledger.has_transaction(Id::new(101)));
    assert_eq!(ledger.transactions(Id::new(11)).len(), 1);
    assert_eq!(ledger.transactions(Id::new(10)).len(), 1);
}

#[test]
fn conversion_moves_both_axes_to_the_new_currency() {
    let mut ledger = ledger();
    ledger.add_transaction(received(100, eur(10000), 1, 2)).unwrap();
    let convert = transaction(
        101,
        eur(10000),
        TransactionInner::Convert { acc: phys(1), acc_virt: virt(2), new_amount: usd(9000) },
    );
    ledger.add_transaction(convert).unwrap();
    assert_eq!(balance(&ledger, 1), vec![eur(0), usd(9000)]);
    assert_eq!(balance(&ledger, 2), vec![eur(0), usd(9000)]);
    assert_eq!(ledger.account(Id::new(1)).unwrap().current.to_string(), "0 EUR, 90 USD");
}

#[test]
fn conversion_beyond_the_balance_is_refused() {
    let mut ledger = ledger();
    ledger.add_transaction(received(100, eur(5000), 1, 2)).unwrap();
    let convert = transaction(
        101,
        eur(10000),
        TransactionInner::Convert { acc: phys(1), acc_virt: virt(2), new_amount: usd(9000) },
    );
    assert_eq!(
        ledger.add_transaction(convert),
        Err(Error::NegativeBalance { account: Id::new(1), currency: Currency::eur() })
    );
    assert_eq!(balance(&ledger, 1), vec![eur(5000)]);
    assert_eq!(balance(&ledger, 2), vec![eur(5000)]);
}

#[test]
fn moves_are_zero_sum_on_their_axis() {
    let mut ledger = ledger();
    ledger.add_transaction(received(100, eur(700), 1, 2)).unwrap();
    let move_phys =
        transaction(101, eur(300), TransactionInner::MovePhys { src: phys(1), dst: phys(3) });
    let move_virt =
        transaction(102, eur(200), TransactionInner::MoveVirt { src: virt(2), dst: virt(4) });
    ledger.add_transaction(move_phys).unwrap();
    ledger.add_transaction(move_virt).unwrap();
    assert_eq!(balance(&ledger, 1), vec![eur(400)]);
    assert_eq!(balance(&ledger, 3), vec![eur(300)]);
    assert_eq!(balance(&ledger, 2), vec![eur(500)]);
    assert_eq!(balance(&ledger, 4), vec![eur(200)]);
}

#[test]
fn move_to_the_same_account_changes_nothing_but_the_record() {
    let mut ledger = ledger();
    let around =
        transaction(100, eur(300), TransactionInner::MovePhys { src: phys(1), dst: phys(1) });
    let changed = ledger.add_transaction(around).unwrap();
    assert_eq!(changed.len(), 1);
    assert_eq!(balance(&ledger, 1), vec![eur(0)]);
    assert!(ledger.has_transaction(Id::new(100)));
}

#[test]
fn second_participant_failing_leaves_the_first_untouched() {
    let mut ledger = ledger();
    ledger.add_transaction(received(100, eur(1000), 1, 2)).unwrap();
    let move_away =
        transaction(101, eur(1000), TransactionInner::MoveVirt { src: virt(2), dst: virt(4) });
    ledger.add_transaction(move_away).unwrap();
    // account 1 can bear the payment, account 2 cannot
    let refused = ledger.add_transaction(paid(102, eur(500), 1, 2));
    assert_eq!(
        refused,
        Err(Error::NegativeBalance { account: Id::new(2), currency: Currency::eur() })
    );
    assert_eq!(balance(&ledger, 1), vec![eur(1000)]);
    assert_eq!(balance(&ledger, 2), vec![eur(0)]);
    assert_eq!(ledger.transactions(Id::new(1)).len(), 1);
}

#[test]
fn transaction_with_an_unknown_participant_is_refused() {
    let mut ledger = ledger();
    assert_eq!(ledger.add_transaction(received(100, eur(1), 1, 99)), Err(Error::NotFound));
    assert_eq!(ledger.add_transaction(received(100, eur(1), 98, 2)), Err(Error::NotFound));
    assert_eq!(balance(&ledger, 1), Vec::new());
    assert!(!ledger.has_transaction(Id::new(100)));
}

#[test]
fn transaction_identifiers_are_used_once() {
    let mut ledger = ledger();
    ledger.add_transaction(received(100, eur(10), 1, 2)).unwrap();
    assert_eq!(ledger.add_transaction(received(100, eur(10), 1, 2)), Err(Error::DuplicateId));
    assert_eq!(balance(&ledger, 1), vec![eur(10)]);
}

#[test]
fn amounts_out_of_range_are_refused() {
    let mut ledger = ledger();
    ledger.add_transaction(received(100, eur(i32::MAX), 1, 2)).unwrap();
    assert_eq!(ledger.add_transaction(received(101, eur(1), 1, 2)), Err(Error::AmountOutOfRange));
    assert_eq!(
        ledger.add_transaction(paid(102, eur(i32::MIN), 1, 2)),
        Err(Error::AmountOutOfRange)
    );
    assert_eq!(balance(&ledger, 1), vec![eur(i32::MAX)]);
    assert_eq!(ledger.transactions(Id::new(1)).len(), 1);
}

#[test]
fn negative_receipt_is_checked_like_a_payment() {
    let mut ledger = ledger();
    assert_eq!(
        ledger.add_transaction(received(100, eur(-1), 1, 2)),
        Err(Error::NegativeBalance { account: Id::new(1), currency: Currency::eur() })
    );
}

#[test]
fn duplicate_account_is_refused() {
    let mut ledger = ledger();
    let again = account(1, AccountType::Virtual, "Again");
    assert_eq!(ledger.run_command(Command::CreateAccount(again)), Err(Error::DuplicateId));
    let kept = ledger.account(Id::new(1)).unwrap();
    assert_eq!(kept.name, "Bank");
    assert_eq!(kept.typ, AccountType::Physical);
    assert_eq!(ledger.accounts().len(), 4);
}

#[test]
fn created_account_keeps_what_it_was_given() {
    let mut ledger = Ledger::new();
    let mut a = account(5, AccountType::Physical, "Old");
    a.enabled = false;
    a.current.add_assign(eur(5));
    let changed = ledger.run_command(Command::CreateAccount(a.clone())).unwrap();
    assert_eq!(changed, vec![a.clone()]);
    assert_eq!(ledger.account(Id::new(5)), Some(a));
}

#[test]
fn update_applies_changes_in_order() {
    let mut ledger = ledger();
    ledger.add_transaction(received(100, eur(10), 1, 2)).unwrap();
    let changes = vec![
        AccountModification::UpdateName("First".to_owned()),
        AccountModification::UpdateNotes("note".to_owned()),
        AccountModification::Disable,
        AccountModification::UpdateName("Second".to_owned()),
    ];
    let changed = ledger.run_command(Command::UpdateAccount(Id::new(1), changes)).unwrap();
    assert_eq!(changed.len(), 1);
    let a = ledger.account(Id::new(1)).unwrap();
    assert_eq!(changed[0], a);
    assert_eq!(a.name, "Second");
    assert_eq!(a.notes, "note");
    assert!(!a.enabled);
    assert_eq!(a.typ, AccountType::Physical);
    assert_eq!(a.current.values(), vec![eur(10)]);
}

#[test]
fn update_without_changes_is_accepted() {
    let mut ledger = ledger();
    let before = ledger.account(Id::new(1)).unwrap();
    let changed = ledger.run_command(Command::UpdateAccount(Id::new(1), Vec::new())).unwrap();
    assert_eq!(changed, vec![before.clone()]);
    assert_eq!(ledger.account(Id::new(1)), Some(before));
}

#[test]
fn update_of_an_unknown_account_is_refused() {
    let mut ledger = ledger();
    let changes = vec![AccountModification::Disable];
    assert_eq!(ledger.run_command(Command::UpdateAccount(Id::new(77), changes)), Err(Error::NotFound));
    assert_eq!(ledger.accounts().len(), 4);
}

#[test]
fn disabled_account_still_takes_part() {
    let mut ledger = ledger();
    ledger.modify_account(Id::new(1), &vec![AccountModification::Disable]).unwrap();
    ledger.add_transaction(received(100, eur(10), 1, 2)).unwrap();
    assert_eq!(balance(&ledger, 1), vec![eur(10)]);
}

#[test]
fn accounts_are_listed_by_identifier() {
    let mut ledger = Ledger::new();
    for id in [30u128, 10, 20] {
        ledger.create_account(account(id, AccountType::Physical, "x")).unwrap();
    }
    let ids: Vec<u128> = ledger.accounts().iter().map(|a| a.id.0).collect();
    assert_eq!(ids, vec![10, 20, 30]);
    assert_eq!(ledger.account(Id::new(15)), None);
}

#[test]
fn transactions_are_listed_by_identifier_for_their_participants() {
    let mut ledger = ledger();
    ledger.add_transaction(received(300, eur(10), 1, 2)).unwrap();
    ledger.add_transaction(received(100, eur(10), 3, 2)).unwrap();
    ledger.add_transaction(received(200, eur(10), 1, 4)).unwrap();
    let ids = |id: u128| -> Vec<u128> {
        ledger.transactions(Id::new(id)).iter().map(|t| t.id.0).collect()
    };
    assert_eq!(ids(1), vec![200, 300]);
    assert_eq!(ids(2), vec![100, 300]);
    assert_eq!(ids(3), vec![100]);
    assert_eq!(ids(4), vec![200]);
    assert_eq!(ids(5), Vec::<u128>::new());
}

#[test]
fn balances_follow_the_recorded_transactions() {
    let mut ledger = ledger();
    let commands = vec![
        received(100, eur(5000), 1, 2),
        paid(101, eur(1200), 1, 2),
        transaction(102, eur(800), TransactionInner::MovePhys { src: phys(1), dst: phys(3) }),
        paid(103, eur(9999), 3, 2),
        transaction(104, eur(1000), TransactionInner::MoveVirt { src: virt(2), dst: virt(4) }),
        transaction(
            105,
            eur(500),
            TransactionInner::Convert { acc: phys(3), acc_virt: virt(4), new_amount: usd(550) },
        ),
        received(106, usd(-551), 3, 4),
    ];
    for t in commands {
        let _ = ledger.add_transaction(t);
        for a in ledger.accounts() {
            assert_eq!(a.current.first_negative(), None);
            let mut sum: Vec<Amount> = Vec::new();
            for t in ledger.transactions(a.id) {
                for (id, amount) in t.results() {
                    if id == a.id {
                        sum.push(amount);
                    }
                }
            }
            let expected = monfari::amounts::Amounts::sum(&sum).unwrap();
            assert_eq!(a.current, expected);
        }
    }
    assert_eq!(balance(&ledger, 1), vec![eur(3000)]);
    assert_eq!(balance(&ledger, 2), vec![eur(2800)]);
    assert_eq!(balance(&ledger, 3), vec![eur(300), usd(550)]);
    assert_eq!(balance(&ledger, 4), vec![eur(500), usd(550)]);
    assert!(!ledger.has_transaction(Id::new(103)));
    assert!(!ledger.has_transaction(Id::new(106)));
}

#[test]
fn results_follow_the_table_of_shapes() {
    let a: AccountId = Id::new(1);
    let b: AccountId = Id::new(2);
    assert_eq!(received(9, eur(5), 1, 2).results(), vec![(a, eur(5)), (b, eur(5))]);
    assert_eq!(paid(9, eur(5), 1, 2).results(), vec![(a, eur(-5)), (b, eur(-5))]);
    let move_phys = transaction(9, eur(5), TransactionInner::MovePhys { src: phys(1), dst: phys(2) });
    assert_eq!(move_phys.results(), vec![(a, eur(-5)), (b, eur(5))]);
    let move_virt = transaction(9, eur(5), TransactionInner::MoveVirt { src: virt(1), dst: virt(2) });
    assert_eq!(move_virt.results(), vec![(a, eur(-5)), (b, eur(5))]);
    let convert = transaction(
        9,
        eur(5),
        TransactionInner::Convert { acc: phys(1), acc_virt: virt(2), new_amount: usd(6) },
    );
    assert_eq!(
        convert.results(),
        vec![(a, eur(-5)), (a, usd(6)), (b, eur(-5)), (b, usd(6))]
    );
    assert_eq!(convert.accounts(), [a, b]);
    assert_eq!(move_phys.accounts(), [a, b]);
    assert!(convert.involves(a));
    assert!(!convert.involves(Id::new(3)));
    assert!(paid(9, eur(i32::MIN), 1, 2).checked_results().is_none());
    assert!(received(9, eur(i32::MIN), 1, 2).checked_results().is_some());
}

#[test]
fn wrong_axis_identifier_is_rejected() {
    let ledger = ledger();
    let bank: AccountId = Id::new(1);
    let rent: AccountId = Id::new(2);
    assert_eq!(ledger.on_axis::<Physical>(bank), Some(Id::new(1)));
    assert_eq!(ledger.on_axis::<Virtual>(bank), None);
    assert_eq!(ledger.on_axis::<Virtual>(rent), Some(Id::new(2)));
    assert_eq!(ledger.on_axis::<Physical>(rent), None);
    assert_eq!(ledger.on_axis::<Physical>(Id::new(50)), None);

    let text = phys(1).to_string();
    assert_eq!(ledger.parse_on_axis::<Physical>(&text), Ok(Id::new(1)));
    assert_eq!(ledger.parse_on_axis::<Virtual>(&text), Err(Error::NotFound));
    assert_eq!(ledger.parse_on_axis::<Virtual>("nonsense"), Err(Error::InvalidEncoding));
    let unknown: TransactionId = Id::new(50);
    assert_eq!(ledger.parse_on_axis::<Physical>(&unknown.to_string()), Err(Error::NotFound));
}

#[test]
fn restore_rebuilds_a_ledger() {
    let mut first = ledger();
    first.add_transaction(received(200, eur(10), 1, 2)).unwrap();
    first.add_transaction(received(100, eur(5), 3, 4)).unwrap();
    let mut transactions = first.transactions(Id::new(1));
    transactions.extend(first.transactions(Id::new(3)));
    let restored = Ledger::restore(first.accounts(), transactions).unwrap();
    assert_eq!(restored.accounts(), first.accounts());
    assert_eq!(restored.transactions(Id::new(2)), first.transactions(Id::new(2)));
    assert!(restored.has_transaction(Id::new(100)));

    let twice = vec![account(1, AccountType::Physical, "a"), account(1, AccountType::Virtual, "b")];
    assert_eq!(Ledger::restore(twice, Vec::new()).err(), Some(Error::DuplicateId));
    let same = vec![received(1, eur(1), 1, 2), received(1, eur(2), 1, 2)];
    assert_eq!(Ledger::restore(Vec::new(), same).err(), Some(Error::DuplicateId));
}

#[test]
fn command_messages() {
    let id: AccountId = Id::new(1);
    let text = id.to_string();
    let create = Command::CreateAccount(account(1, AccountType::Physical, "Bank"));
    assert_eq!(create.to_string(), format!("Create account {text}: \"Bank\""));

    let tid: TransactionId = Id::new(9);
    let ttext = tid.to_string();
    let add = Command::AddTransaction(received(9, eur(1050), 1, 2));
    assert_eq!(add.to_string(), format!("Add transaction {ttext} of 10.50 EUR: received from Employer"));
    let add = Command::AddTransaction(paid(9, eur(1000), 1, 2));
    assert_eq!(add.to_string(), format!("Add transaction {ttext} of 10 EUR: paid to Landlord"));
    let dst = phys(3).to_string();
    let add = Command::AddTransaction(transaction(
        9,
        eur(1),
        TransactionInner::MovePhys { src: phys(1), dst: phys(3) },
    ));
    assert_eq!(add.to_string(), format!("Add transaction {ttext} of 0.01 EUR: moved to {dst}"));
    let add = Command::AddTransaction(transaction(
        9,
        eur(100),
        TransactionInner::Convert { acc: phys(1), acc_virt: virt(2), new_amount: usd(90) },
    ));
    assert_eq!(add.to_string(), format!("Add transaction {ttext} of 1 EUR: converted to 0.90 USD"));

    let update = Command::UpdateAccount(
        id,
        vec![
            AccountModification::Disable,
            AccountModification::UpdateName("New".to_owned()),
            AccountModification::UpdateNotes("n".to_owned()),
        ],
    );
    assert_eq!(
        update.to_string(),
        format!(
            "Update account {text}:\n  - disable account\n  - set name to \"New\"\n  - set notes to \"n\"\n"
        )
    );
    assert_eq!(Command::UpdateAccount(id, Vec::new()).to_string(), format!("Update account {text}:\n"));
}

#[test]
fn default_virtual_account() {
    let a = Account::default_virtual(Id::new(3));
    assert_eq!(a.name, "Default Virtual Account");
    assert_eq!(a.typ, AccountType::Virtual);
    assert!(a.enabled);
    assert!(a.notes.starts_with("A virtual account is required"));
    assert_eq!(a.current.values(), Vec::new());
    assert_eq!(a.id, Id::new(3));
}

#[test]
fn errors_tell_rules_from_the_environment() {
    for e in [
        Error::NotInitialized,
        Error::AlreadyLocked,
        Error::DirtyRepository,
        Error::TransportFailure,
        Error::StorageFailure,
    ] {
        assert!(e.is_environmental());
    }
    for e in [
        Error::DuplicateId,
        Error::NotFound,
        Error::NegativeBalance { account: Id::new(1), currency: Currency::eur() },
        Error::AmountOutOfRange,
        Error::InvalidEncoding,
    ] {
        assert!(!e.is_environmental());
    }
}
