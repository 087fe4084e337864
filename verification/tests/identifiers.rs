use monfari::account::AccountType;
use monfari::error::Error;
use monfari::id::{AccountId, Axis, Id, Physical, PhysicalId, TransactionId, Virtual, VirtualId};

#[test]
fn identifier_text_reads_back() {
    for value in [0u128, 1, 0xffff, 0x1_0000, u128::MAX, 0x0123_4567_89ab_cdef_0123_4567_89ab_cdef] {
        let id: AccountId = Id::new(value);
        let text = id.to_string();
        assert_eq!(AccountId::from_str(&text), Ok(id));
    }
}

#[test]
fn generated_identifier_text_reads_back() {
    let id: TransactionId = Id::generate();
    assert_eq!(TransactionId::from_str(&id.to_string()), Ok(id));
}

#[test]
fn generated_identifiers_differ() {
    let a: AccountId = Id::generate();
    let b: AccountId = Id::generate();
    assert_ne!(a, b);
}

#[test]
fn identifier_text_is_words_of_five_letters() {
    let id: AccountId = Id::new(0);
    assert_eq!(id.to_string(), "babab-babab-babab-babab-babab-babab-babab-babab");
    let id: AccountId = Id::new(0x7f00_0001);
    assert_eq!(id.to_string(), "babab-babab-babab-babab-babab-babab-lusab-babad");
}

/// The text of a value, computed from the tables of consonants and vowels.
fn words(value: u128) -> String {
    let consonants: Vec<char> = "bdfghjklmnprstvz".chars().collect();
    let vowels: Vec<char> = "aiou".chars().collect();
    let mut words = Vec::new();
    for i in (0..8).rev() {
        let digit = ((value >> (16 * i)) & 0xffff) as usize;
        let word: String = [
            consonants[digit >> 12],
            vowels[(digit >> 10) & 3],
            consonants[(digit >> 6) & 15],
            vowels[(digit >> 4) & 3],
            consonants[digit & 15],
        ]
        .iter()
        .collect();
        words.push(word);
    }
    words.join("-")
}

#[test]
fn identifier_text_follows_the_tables() {
    let values = [
        0u128,
        1,
        0xffff,
        0x1_0000,
        u128::MAX,
        0x0123_4567_89ab_cdef_fedc_ba98_7654_3210,
        0x8000_0000_0000_0000_0000_0000_0000_0000,
        0x3f54_dcc1,
        0x8c62_c18d,
    ];
    for value in values {
        let id: AccountId = Id::new(value);
        assert_eq!(id.to_string(), words(value));
        assert_eq!(id.to_string().chars().count(), 47);
    }
    let id: AccountId = Id::new(0x3f54_dcc1);
    assert!(id.to_string().ends_with("babab-gutih-tugad"));
    let id: AccountId = Id::new(0x8c62_c18d);
    assert!(id.to_string().ends_with("babab-mudof-sakat"));
    let id: AccountId = Id::new(u128::MAX);
    assert_eq!(id.to_string(), "zuzuz-zuzuz-zuzuz-zuzuz-zuzuz-zuzuz-zuzuz-zuzuz");
}

#[test]
fn identifier_text_is_not_the_value_in_digits() {
    let id: AccountId = Id::new(42);
    assert_ne!(id.to_string(), "42");
    assert_eq!(AccountId::from_str("42"), Err(Error::InvalidEncoding));
}

#[test]
fn malformed_identifier_is_refused() {
    assert_eq!(AccountId::from_str(""), Err(Error::InvalidEncoding));
    assert_eq!(AccountId::from_str("hello"), Err(Error::InvalidEncoding));
    assert_eq!(AccountId::from_str("babab-"), Err(Error::InvalidEncoding));
    assert_eq!(
        AccountId::from_str("babab-babab-babab-babab-babab-babab-babab-babab-babab"),
        Err(Error::InvalidEncoding)
    );
}

#[test]
fn identifiers_are_equal_when_their_values_are() {
    let a: AccountId = Id::new(7);
    let b: AccountId = Id::new(7);
    let c: AccountId = Id::new(8);
    assert_eq!(a, b);
    assert_ne!(a, c);
    assert!(a.precedes(&c));
    assert!(!c.precedes(&a));
    assert!(!a.precedes(&b));
}

#[test]
fn erase_and_unerase_keep_the_value() {
    let phys: PhysicalId = Id::new(99);
    let erased: AccountId = phys.erase();
    assert_eq!(erased.0, 99);
    let virt: VirtualId = erased.unerase();
    assert_eq!(virt.0, 99);
    let back: AccountId = AccountId::from(virt);
    assert_eq!(back, erased);
    let again: AccountId = AccountId::from(phys);
    assert_eq!(again, erased);
}

#[test]
fn axes_name_their_account_type() {
    assert_eq!(Physical::axis(), AccountType::Physical);
    assert_eq!(Virtual::axis(), AccountType::Virtual);
}

#[test]
fn account_type_names() {
    assert_eq!(AccountType::Physical.to_string(), "physical");
    assert_eq!(AccountType::Virtual.to_string(), "virtual");
    assert_eq!(AccountType::from_str("physical"), Ok(AccountType::Physical));
    assert_eq!(AccountType::from_str("Virtual"), Ok(AccountType::Virtual));
    assert_eq!(AccountType::from_str("PHYSICAL"), Ok(AccountType::Physical));
    assert_eq!(AccountType::from_str("savings"), Err(Error::InvalidEncoding));
    assert_eq!(AccountType::from_lowercase("Virtual"), Err(Error::InvalidEncoding));
    assert_eq!(AccountType::from_lowercase("virtual"), Ok(AccountType::Virtual));
}
