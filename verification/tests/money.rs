use monfari::amount::Amount;
use monfari::amounts::Amounts;
use monfari::currency::Currency;
use monfari::error::Error;

#[test]
fn parses_amount_with_cents() {
    assert_eq!(Amount::from_str("12.34 USD"), Ok(Amount(1234, Currency::usd())));
}

#[test]
fn rejects_single_cent_digit() {
    assert_eq!(Amount::from_str("12.3 USD"), Err(Error::InvalidEncoding));
}

#[test]
fn parse_num_examples() {
    assert_eq!(Amount::parse_num("12"), Some(1200));
    assert_eq!(Amount::parse_num("12.34"), Some(1234));
    assert_eq!(Amount::parse_num("0"), Some(0));
    assert_eq!(Amount::parse_num("-3"), Some(-300));
    assert_eq!(Amount::parse_num("-0.50"), Some(-50));
    assert_eq!(Amount::parse_num("-1.50"), Some(-150));
    assert_eq!(Amount::parse_num("+7.05"), Some(705));
    assert_eq!(Amount::parse_num("007.10"), Some(710));
}

#[test]
fn parse_num_rejects_malformed_text() {
    assert_eq!(Amount::parse_num(""), None);
    assert_eq!(Amount::parse_num("-"), None);
    assert_eq!(Amount::parse_num("12.3"), None);
    assert_eq!(Amount::parse_num("12.345"), None);
    assert_eq!(Amount::parse_num("12."), None);
    assert_eq!(Amount::parse_num(".50"), None);
    assert_eq!(Amount::parse_num("-.50"), None);
    assert_eq!(Amount::parse_num("1.2.3"), None);
    assert_eq!(Amount::parse_num("1.-5"), None);
    assert_eq!(Amount::parse_num("12a"), None);
    assert_eq!(Amount::parse_num("1 2"), None);
}

#[test]
fn parse_num_keeps_to_the_range_of_an_amount() {
    assert_eq!(Amount::parse_num("21474836.47"), Some(2147483647));
    assert_eq!(Amount::parse_num("21474836.48"), None);
    assert_eq!(Amount::parse_num("-21474836.48"), Some(-2147483648));
    assert_eq!(Amount::parse_num("-21474836.49"), None);
    assert_eq!(Amount::parse_num("21474836"), Some(2147483600));
    assert_eq!(Amount::parse_num("21474837"), None);
    assert_eq!(Amount::parse_num("99999999999999999999999999"), None);
    assert_eq!(Amount::parse_num("00000000000000000000000001"), Some(100));
}

#[test]
fn amount_text_examples() {
    assert_eq!(Amount(1234, Currency::usd()).to_string(), "12.34 USD");
    assert_eq!(Amount(1200, Currency::eur()).to_string(), "12 EUR");
    assert_eq!(Amount(5, Currency::gbp()).to_string(), "0.05 GBP");
    assert_eq!(Amount(0, Currency::eur()).to_string(), "0 EUR");
    assert_eq!(Amount(-150, Currency::eur()).to_string(), "-1.50 EUR");
    assert_eq!(Amount(-50, Currency::eur()).to_string(), "-0.50 EUR");
    assert_eq!(Amount(i32::MIN, Currency::eur()).to_string(), "-21474836.48 EUR");
    assert_eq!(Amount(i32::MAX, Currency::eur()).to_string(), "21474836.47 EUR");
}

#[test]
fn amount_text_reads_back() {
    let values = [0, 1, 9, 10, 99, 100, 101, 1234, -1, -50, -100, -150, 99999, i32::MAX, i32::MIN];
    for v in values {
        for c in [Currency::eur(), Currency::gbp(), Currency::usd()] {
            let amount = Amount(v, c);
            assert_eq!(Amount::from_str(&amount.to_string()), Ok(amount));
        }
    }
}

#[test]
fn amount_needs_a_space_and_a_currency() {
    assert_eq!(Amount::from_str("12.34"), Err(Error::InvalidEncoding));
    assert_eq!(Amount::from_str("12.34USD"), Err(Error::InvalidEncoding));
    assert_eq!(Amount::from_str("12.34 usd"), Err(Error::InvalidEncoding));
    assert_eq!(Amount::from_str("12.34  USD"), Err(Error::InvalidEncoding));
    assert_eq!(Amount::from_str("12.34 USD "), Err(Error::InvalidEncoding));
    assert_eq!(Amount::from_str("x USD"), Err(Error::InvalidEncoding));
}

#[test]
fn amount_negation_and_addition() {
    let a = Amount(1234, Currency::usd());
    assert_eq!(a.neg(), Amount(-1234, Currency::usd()));
    assert_eq!(a.add(66), Amount(1300, Currency::usd()));
    assert_eq!(a.checked_neg(), Some(Amount(-1234, Currency::usd())));
    assert_eq!(Amount(i32::MIN, Currency::usd()).checked_neg(), None);
}

#[test]
fn currency_is_three_upper_case_letters() {
    assert_eq!(Currency::from_str("EUR"), Ok(Currency::eur()));
    assert_eq!(Currency::from_str("GBP"), Ok(Currency::gbp()));
    assert_eq!(Currency::from_str("USD"), Ok(Currency::usd()));
    assert!(Currency::from_str("CHF").is_ok());
    assert_eq!(Currency::from_str("eur"), Err(Error::InvalidEncoding));
    assert_eq!(Currency::from_str("EU"), Err(Error::InvalidEncoding));
    assert_eq!(Currency::from_str("EURO"), Err(Error::InvalidEncoding));
    assert_eq!(Currency::from_str(""), Err(Error::InvalidEncoding));
    assert_eq!(Currency::from_str("E1R"), Err(Error::InvalidEncoding));
    assert_eq!(Currency::from_str("ÉUR"), Err(Error::InvalidEncoding));
}

#[test]
fn currency_text_reads_back() {
    for code in ["EUR", "GBP", "USD", "AAA", "ZZZ", "CHF"] {
        let c = Currency::from_str(code).unwrap();
        assert_eq!(c.to_string(), code);
        assert_eq!(Currency::from_str(&c.to_string()), Ok(c));
    }
}

#[test]
fn currencies_are_ordered_by_code() {
    assert!(Currency::eur().precedes(&Currency::gbp()));
    assert!(Currency::gbp().precedes(&Currency::usd()));
    assert!(!Currency::usd().precedes(&Currency::eur()));
    assert!(!Currency::eur().precedes(&Currency::eur()));
    assert_eq!(Currency::eur().filing_key(), 69 * 65536 + 85 * 256 + 82);
}

#[test]
fn balances_add_up_by_currency() {
    let mut sheet = Amounts::new();
    assert_eq!(sheet.get(Currency::eur()), None);
    sheet.add_assign(Amount(500, Currency::usd()));
    sheet.add_assign(Amount(100, Currency::eur()));
    sheet.add_assign(Amount(-30, Currency::usd()));
    assert_eq!(sheet.get(Currency::usd()), Some(Amount(470, Currency::usd())));
    assert_eq!(sheet.get(Currency::eur()), Some(Amount(100, Currency::eur())));
    assert_eq!(sheet.get(Currency::gbp()), None);
    assert_eq!(
        sheet.values(),
        vec![Amount(100, Currency::eur()), Amount(470, Currency::usd())]
    );
}

#[test]
fn balances_keep_an_entry_at_zero() {
    let mut sheet = Amounts::new();
    sheet.add_assign(Amount(100, Currency::eur()));
    sheet.add_assign(Amount(-100, Currency::eur()));
    assert_eq!(sheet.get(Currency::eur()), Some(Amount(0, Currency::eur())));
    assert_eq!(sheet.first_negative(), None);
}

#[test]
fn balances_text_lists_currencies_in_order() {
    let mut sheet = Amounts::new();
    assert_eq!(sheet.to_string(), "");
    sheet.add_assign(Amount(9000, Currency::usd()));
    assert_eq!(sheet.to_string(), "90 USD");
    sheet.add_assign(Amount(1050, Currency::eur()));
    sheet.add_assign(Amount(1, Currency::gbp()));
    assert_eq!(sheet.to_string(), "10.50 EUR, 0.01 GBP, 90 USD");
}

#[test]
fn checked_addition_refuses_overflow() {
    let mut sheet = Amounts::new();
    assert!(sheet.checked_add_assign(Amount(i32::MAX, Currency::eur())));
    assert!(!sheet.checked_add_assign(Amount(1, Currency::eur())));
    assert_eq!(sheet.get(Currency::eur()), Some(Amount(i32::MAX, Currency::eur())));
    assert!(sheet.checked_add_assign(Amount(1, Currency::usd())));
    assert!(sheet.checked_add_assign(Amount(-1, Currency::eur())));
    assert_eq!(sheet.get(Currency::eur()), Some(Amount(i32::MAX - 1, Currency::eur())));
}

#[test]
fn first_negative_is_the_first_in_code_order() {
    let mut sheet = Amounts::new();
    sheet.add_assign(Amount(-1, Currency::usd()));
    sheet.add_assign(Amount(5, Currency::eur()));
    assert_eq!(sheet.first_negative(), Some(Currency::usd()));
    sheet.add_assign(Amount(-2, Currency::gbp()));
    assert_eq!(sheet.first_negative(), Some(Currency::gbp()));
}

#[test]
fn sum_folds_amounts() {
    let amounts = vec![
        Amount(100, Currency::eur()),
        Amount(-40, Currency::eur()),
        Amount(7, Currency::usd()),
    ];
    let sheet = Amounts::sum(&amounts).unwrap();
    assert_eq!(sheet.values(), vec![Amount(60, Currency::eur()), Amount(7, Currency::usd())]);
    assert_eq!(Amounts::sum(&Vec::new()).unwrap().values(), Vec::new());
    let too_much = vec![Amount(i32::MAX, Currency::eur()), Amount(1, Currency::eur())];
    assert!(Amounts::sum(&too_much).is_none());
    let back_in_range =
        vec![Amount(i32::MAX, Currency::eur()), Amount(1, Currency::eur()), Amount(-5, Currency::eur())];
    assert!(Amounts::sum(&back_in_range).is_none());
}

#[test]
fn checked_add_all_leaves_the_receiver_alone() {
    let mut sheet = Amounts::new();
    sheet.add_assign(Amount(10, Currency::eur()));
    let more = sheet
        .checked_add_all(&vec![Amount(5, Currency::eur()), Amount(1, Currency::usd())])
        .unwrap();
    assert_eq!(sheet.values(), vec![Amount(10, Currency::eur())]);
    assert_eq!(more.values(), vec![Amount(15, Currency::eur()), Amount(1, Currency::usd())]);
}
