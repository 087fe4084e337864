use monfari::account::{Account, AccountType};
use monfari::amount::Amount;
use monfari::command::{AccountModification, Command};
use monfari::currency::Currency;
use monfari::id::{AccountId, Id};
use monfari::repl::{
    complete, forms, keep_notes, notes_of, parse, split_tokens, unquote, validate, Instruction,
    Keyword, Slot, Suggestion, Token, TokenType,
};
use monfari::report::Direction;
use monfari::transaction::{Transaction, TransactionInner};

fn account(id: u128, typ: AccountType, name: &str) -> Account {
    Account::new(Id::new(id), typ, name.to_owned(), String::new())
}

/// Physical accounts 1 and 3, virtual accounts 2 and 4; account 3 is disabled.
fn accounts() -> Vec<Account> {
    let mut cash = account(3, AccountType::Physical, "Cash");
    cash.enabled = false;
    let mut bank = account(1, AccountType::Physical, "Bank");
    bank.current.add_assign(Amount(1050, Currency::eur()));
    vec![bank, account(2, AccountType::Virtual, "Rent"), cash, account(4, AccountType::Virtual, "Food")]
}

fn id_text(id: u128) -> String {
    let id: AccountId = Id::new(id);
    id.to_string()
}

fn values(list: &[Suggestion]) -> Vec<String> {
    list.iter().map(|s| s.value.clone()).collect()
}

fn types(tokens: &[Token]) -> Vec<TokenType> {
    tokens.iter().map(|t| t.typ).collect()
}

fn chars(s: &str) -> Vec<char> {
    s.chars().collect()
}

#[test]
fn tokens_are_runs_of_one_class() {
    assert_eq!(split_tokens(&chars("")), Vec::new());
    assert_eq!(split_tokens(&chars("account list")), vec![(0, 6), (7, 7), (8, 11)]);
    assert_eq!(split_tokens(&chars("  a  ")), vec![(0, 1), (2, 2), (3, 4)]);
    assert_eq!(split_tokens(&chars("say \"hello world\" now")), vec![(0, 2), (3, 3), (4, 16), (17, 17), (18, 20)]);
    assert_eq!(split_tokens(&chars("a\"b c\"d")), vec![(0, 0), (1, 5), (6, 6)]);
    assert_eq!(split_tokens(&chars("\"a\"\"b\"")), vec![(0, 5)]);
    assert_eq!(split_tokens(&chars("\"open and so on")), vec![(0, 14)]);
    assert_eq!(split_tokens(&chars("a\t\n b")), vec![(0, 0), (1, 3), (4, 4)]);
}

#[test]
fn quotes_are_taken_from_both_ends() {
    assert_eq!(unquote(&chars("\"My Bank\"")), "My Bank");
    assert_eq!(unquote(&chars("plain")), "plain");
    assert_eq!(unquote(&chars("\"\"x\"y\"\"\"")), "x\"y");
    assert_eq!(unquote(&chars("\"\"")), "");
    assert_eq!(unquote(&chars("\"")), "");
    assert_eq!(unquote(&chars("")), "");
    assert_eq!(unquote(&chars("\"open")), "open");
}

#[test]
fn account_sentences() {
    let accounts = accounts();
    assert_eq!(parse("account list", &accounts).1, Ok(Instruction::AccountsList));
    assert_eq!(
        parse("account create physical \"My Bank\"", &accounts).1,
        Ok(Instruction::AccountCreate { typ: AccountType::Physical, name: "My Bank".to_owned() })
    );
    assert_eq!(
        parse("  account   create virtual Rent  ", &accounts).1,
        Ok(Instruction::AccountCreate { typ: AccountType::Virtual, name: "Rent".to_owned() })
    );
    assert_eq!(
        parse(&format!("account disable {}", id_text(1)), &accounts).1,
        Ok(Instruction::AccountModify(Id::new(1), vec![AccountModification::Disable]))
    );
    assert_eq!(
        parse(&format!("account rename {} \"New name\"", id_text(2)), &accounts).1,
        Ok(Instruction::AccountModify(
            Id::new(2),
            vec![AccountModification::UpdateName("New name".to_owned())]
        ))
    );
    assert_eq!(
        parse(&format!("account show {}", id_text(3)), &accounts).1,
        Ok(Instruction::AccountShow { id: Id::new(3) })
    );
}

#[test]
fn transaction_sentences() {
    let accounts = accounts();
    let eur = |n| Amount(n, Currency::eur());
    let line = format!(
        "transaction 12.50 EUR received src \"My Employer\" dst {} dst-virt {}",
        id_text(1),
        id_text(2)
    );
    assert_eq!(
        parse(&line, &accounts).1,
        Ok(Instruction::TransactionAdd {
            amount: eur(1250),
            inner: TransactionInner::Received {
                src: "My Employer".to_owned(),
                dst: Id::new(1),
                dst_virt: Id::new(2)
            }
        })
    );
    let line = format!("transaction 3 EUR paid dst Shop src {} src-virt {}", id_text(3), id_text(4));
    assert_eq!(
        parse(&line, &accounts).1,
        Ok(Instruction::TransactionAdd {
            amount: eur(300),
            inner: TransactionInner::Paid { src: Id::new(3), src_virt: Id::new(4), dst: "Shop".to_owned() }
        })
    );
    let line = format!("transaction 3 EUR move-phys dst {} src {}", id_text(3), id_text(1));
    assert_eq!(
        parse(&line, &accounts).1,
        Ok(Instruction::TransactionAdd {
            amount: eur(300),
            inner: TransactionInner::MovePhys { src: Id::new(1), dst: Id::new(3) }
        })
    );
    let line = format!("transaction 3 EUR move-virt dst {} src {}", id_text(2), id_text(4));
    assert_eq!(
        parse(&line, &accounts).1,
        Ok(Instruction::TransactionAdd {
            amount: eur(300),
            inner: TransactionInner::MoveVirt { src: Id::new(4), dst: Id::new(2) }
        })
    );
    let line = format!(
        "transaction 100 EUR convert into 90.00 USD account {} virtual {}",
        id_text(1),
        id_text(2)
    );
    assert_eq!(
        parse(&line, &accounts).1,
        Ok(Instruction::TransactionAdd {
            amount: eur(10000),
            inner: TransactionInner::Convert {
                acc: Id::new(1),
                acc_virt: Id::new(2),
                new_amount: Amount(9000, Currency::usd())
            }
        })
    );
}

#[test]
fn words_after_a_sentence_are_left_alone() {
    let accounts = accounts();
    let (tokens, result) = parse("account list now", &accounts);
    assert_eq!(result, Ok(Instruction::AccountsList));
    assert_eq!(
        types(&tokens),
        vec![
            TokenType::Command,
            TokenType::Whitespace,
            TokenType::Command,
            TokenType::Whitespace,
            TokenType::Invalid
        ]
    );
    assert!(tokens[4].completions.is_empty());
}

#[test]
fn wrong_axis_is_not_accepted() {
    let accounts = accounts();
    let line = format!("transaction 3 EUR move-phys dst {} src {}", id_text(2), id_text(1));
    let (tokens, result) = parse(&line, &accounts);
    let offers = result.unwrap_err();
    // only the enabled physical account is offered
    assert_eq!(values(&offers), vec![id_text(1)]);
    assert_eq!(offers[0].description.as_deref(), Some("Bank (10.50 EUR)"));
    let end = line.chars().count();
    assert_eq!(offers[0].span, (end, end));
    let last = tokens.last().unwrap();
    assert_eq!(last.typ, TokenType::Invalid);
    // the disabled account is accepted though it is not offered
    let line = format!("transaction 3 EUR move-phys dst {} src {}", id_text(3), id_text(1));
    assert!(validate(&line, &accounts));
    // an unknown identifier is not
    let line = format!("account show {}", id_text(77));
    assert!(!validate(&line, &accounts));
}

#[test]
fn shell_offers_what_can_follow() {
    let accounts = accounts();
    let offers = |line: &str| values(&parse(line, &accounts).1.unwrap_err());
    assert_eq!(offers(""), vec!["account", "transaction"]);
    assert_eq!(offers("   "), vec!["account", "transaction"]);
    assert_eq!(offers("account"), vec!["list", "create", "disable", "rename", "show"]);
    assert_eq!(offers("account "), vec!["list", "create", "disable", "rename", "show"]);
    assert_eq!(offers("account create"), vec!["physical", "virtual"]);
    assert_eq!(offers("account create physical"), Vec::<String>::new());
    assert_eq!(offers("account show"), vec![id_text(1), id_text(2), id_text(4)]);
    assert_eq!(offers("transaction"), Vec::<String>::new());
    assert_eq!(offers("transaction 5"), vec!["EUR", "GBP", "USD"]);
    assert_eq!(
        offers("transaction 5 EUR"),
        vec!["received", "paid", "move-phys", "move-virt", "convert"]
    );
    assert_eq!(offers("transaction 5 EUR received"), vec!["src"]);
    assert_eq!(offers("transaction 5 EUR paid"), vec!["dst"]);
    assert_eq!(offers("transaction 5 EUR paid dst Shop"), vec!["src"]);
    assert_eq!(offers("transaction 5 EUR paid dst Shop src"), vec![id_text(1)]);
    assert_eq!(offers("transaction 5 EUR convert"), vec!["into"]);
    assert_eq!(offers("transaction 5 EUR convert into 3"), vec!["EUR", "GBP", "USD"]);
    assert_eq!(offers("transaction 5 EUR convert into 3 USD"), vec!["account"]);
    // a word that does not fit: the offers are those for its place
    assert_eq!(offers("acc"), vec!["account", "transaction"]);
    assert_eq!(offers("account lis"), vec!["list", "create", "disable", "rename", "show"]);
    assert_eq!(offers("transaction five"), Vec::<String>::new());
    assert_eq!(offers("transaction 5 eur"), vec!["EUR", "GBP", "USD"]);
    assert_eq!(offers("account Create"), vec!["list", "create", "disable", "rename", "show"]);
}

#[test]
fn tokens_are_shown_as_what_they_were_taken_for() {
    let accounts = accounts();
    let line = format!("transaction 3 EUR move-phys dst {} src nobody", id_text(3));
    let (tokens, result) = parse(&line, &accounts);
    assert!(result.is_err());
    let words: Vec<TokenType> =
        types(&tokens).into_iter().filter(|t| *t != TokenType::Whitespace).collect();
    assert_eq!(
        words,
        vec![
            TokenType::Command,
            TokenType::Amount,
            TokenType::Amount,
            TokenType::Command,
            TokenType::Command,
            TokenType::Id,
            TokenType::Command,
            TokenType::Invalid
        ]
    );
    assert_eq!(tokens[0].str, "transaction");
    assert_eq!(tokens[0].bounds, (0, 10));
    assert_eq!(values(&tokens[0].completions), vec!["account", "transaction"]);
    assert_eq!(tokens[0].completions[0].span, (0, 11));
    assert_eq!(tokens[1].typ, TokenType::Whitespace);
    assert!(tokens[1].completions.is_empty());
    assert_eq!(values(&tokens[4].completions), vec!["EUR", "GBP", "USD"]);
    assert_eq!(tokens[4].completions[2].span, (14, 17));
    let (tokens, _) = parse("account create physical \"My Bank\"", &accounts);
    assert_eq!(tokens[6].typ, TokenType::String);
    assert_eq!(tokens[6].str, "\"My Bank\"");
    assert_eq!(tokens[4].typ, TokenType::Command);
}

#[test]
fn completion_at_the_cursor() {
    let accounts = accounts();
    assert_eq!(values(&complete("", 0, &accounts)), vec!["account", "transaction"]);
    assert_eq!(values(&complete("acc", 3, &accounts)), vec!["account"]);
    assert_eq!(values(&complete("acc", 0, &accounts)), vec!["account"]);
    assert_eq!(values(&complete("x", 1, &accounts)), Vec::<String>::new());
    assert_eq!(values(&complete("account ", 8, &accounts)), vec!["list", "create", "disable", "rename", "show"]);
    assert_eq!(values(&complete("account d", 9, &accounts)), vec!["disable"]);
    assert_eq!(values(&complete("account r", 9, &accounts)), vec!["rename"]);
    // in the middle of the first word, the whole word is the prefix
    assert_eq!(values(&complete("account d", 3, &accounts)), vec!["account"]);
    assert_eq!(values(&complete("transaction 5 ", 14, &accounts)), vec!["EUR", "GBP", "USD"]);
    assert_eq!(values(&complete("transaction 5 U", 15, &accounts)), vec!["USD"]);
    assert_eq!(values(&complete("account list", 12, &accounts)), vec!["list"]);
    assert_eq!(values(&complete("account list ", 13, &accounts)), Vec::<String>::new());
    // on white space, the shell offers what can follow at the end of the line
    assert_eq!(
        values(&complete("account  show", 8, &accounts)),
        vec![id_text(1), id_text(2), id_text(4)]
    );
    assert_eq!(values(&complete("account  list", 8, &accounts)), Vec::<String>::new());
}

#[test]
fn validation() {
    let accounts = accounts();
    assert!(validate("account list", &accounts));
    assert!(!validate("account", &accounts));
    assert!(!validate("", &accounts));
    assert!(!validate("list account", &accounts));
    assert!(validate("account create virtual x", &accounts));
    assert!(!validate("account create both x", &accounts));
}

#[test]
fn grammar_table() {
    let table = forms();
    assert_eq!(table.len(), 10);
    assert_eq!(table[0], vec![Slot::Word(Keyword::Account), Slot::Word(Keyword::List)]);
    assert_eq!(table[9].len(), 11);
    assert_eq!(Keyword::MovePhys.word(), "move-phys");
    assert_eq!(Keyword::DstVirt.word(), "dst-virt");
    assert_eq!(Slot::Currency.shown_as(), TokenType::Amount);
    assert_eq!(Slot::PhysicalAccount.axis(), Some(AccountType::Physical));
    assert_eq!(Slot::AnyAccount.axis(), None);
}

#[test]
fn notes_leave_out_comments() {
    assert_eq!(notes_of("# Notes\nfirst\n# not this\nsecond\n"), "firstsecond");
    assert_eq!(notes_of("# Notes"), "");
    assert_eq!(notes_of("one\r\ntwo"), "onetwo");
    assert_eq!(notes_of(" # kept"), " # kept");
    assert_eq!(notes_of(""), "");
    let lines = vec!["a".to_owned(), "#b".to_owned(), String::new(), "c".to_owned()];
    assert_eq!(keep_notes(&lines), "ac");
}

#[test]
fn instructions_become_commands() {
    let create = Instruction::AccountCreate { typ: AccountType::Virtual, name: "Rent".to_owned() };
    assert!(create.creates());
    assert_eq!(
        create.command(9, "n".to_owned()),
        Some(Command::CreateAccount(Account::new(
            Id::new(9),
            AccountType::Virtual,
            "Rent".to_owned(),
            "n".to_owned()
        )))
    );
    let inner = TransactionInner::MovePhys { src: Id::new(1), dst: Id::new(3) };
    let add = Instruction::TransactionAdd { amount: Amount(5, Currency::eur()), inner };
    assert!(add.creates());
    assert_eq!(
        add.command(7, "why".to_owned()),
        Some(Command::AddTransaction(Transaction {
            id: Id::new(7),
            notes: "why".to_owned(),
            amount: Amount(5, Currency::eur()),
            inner: TransactionInner::MovePhys { src: Id::new(1), dst: Id::new(3) },
        }))
    );
    let modify = Instruction::AccountModify(Id::new(1), vec![AccountModification::Disable]);
    assert!(!modify.creates());
    assert_eq!(
        modify.command(7, String::new()),
        Some(Command::UpdateAccount(Id::new(1), vec![AccountModification::Disable]))
    );
    assert_eq!(Instruction::AccountsList.command(7, String::new()), None);
    assert_eq!(Instruction::AccountShow { id: Id::new(1) }.command(7, String::new()), None);
    assert!(!Instruction::AccountsList.creates());
}

#[test]
fn account_cells_and_heading() {
    let all = accounts();
    let bank = &all[0];
    assert_eq!(bank.heading(), format!("Bank (physical: {})", id_text(1)));
    assert_eq!(bank.cells(), vec![id_text(1), "Bank".to_owned(), "physical".to_owned(), "true".to_owned(), "10.50 EUR".to_owned()]);
    let cash = &all[2];
    assert_eq!(cash.cells()[3], "false");
    assert_eq!(cash.cells()[4], "");
}

#[test]
fn transaction_cells() {
    let t = |inner| Transaction {
        id: Id::new(9),
        notes: "note".to_owned(),
        amount: Amount(1250, Currency::eur()),
        inner,
    };
    let me: AccountId = Id::new(1);
    let received =
        t(TransactionInner::Received { src: "Employer".to_owned(), dst: Id::new(1), dst_virt: Id::new(2) });
    assert_eq!(received.other_side(me), None);
    assert_eq!(received.cells(me, ""), vec!["12.50 EUR", "Received from Employer", "note"]);
    let paid = t(TransactionInner::Paid { src: Id::new(1), src_virt: Id::new(2), dst: "Shop".to_owned() });
    assert_eq!(paid.description(me, ""), "Paid to Shop");
    let convert = t(TransactionInner::Convert {
        acc: Id::new(1),
        acc_virt: Id::new(2),
        new_amount: Amount(1300, Currency::usd()),
    });
    assert_eq!(convert.description(me, "unused"), "Converted into 13 USD");
    let out = t(TransactionInner::MovePhys { src: Id::new(1), dst: Id::new(3) });
    assert_eq!(out.other_side(me), Some((Direction::Into, Id::new(3))));
    assert_eq!(out.description(me, "Cash"), "Moved into \"Cash\"");
    let back = t(TransactionInner::MovePhys { src: Id::new(3), dst: Id::new(1) });
    assert_eq!(back.other_side(me), Some((Direction::From, Id::new(3))));
    assert_eq!(back.description(me, "Cash"), "Moved from \"Cash\"");
    let virt = t(TransactionInner::MoveVirt { src: Id::new(1), dst: Id::new(4) });
    assert_eq!(virt.other_side(me), Some((Direction::Into, Id::new(4))));
}
