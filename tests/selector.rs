use geyser_ingest::bytes::{bytes_eq, contains_key};
use geyser_ingest::selector::AccountsSelector;

fn strings(v: &[&str]) -> Vec<String> {
    v.iter().map(|s| s.to_string()).collect()
}

#[test]
fn selector_with_accounts_and_owners_is_enabled() {
    let selector = AccountsSelector::new(&strings(&["ABC123", "DEF456"]), &strings(&["oWNER789"]));
    assert!(!selector.select_all_accounts);
    assert_eq!(selector.accounts.len(), 2);
    assert_eq!(selector.owners.len(), 1);
    assert!(selector.is_enabled());
}

#[test]
fn wildcard_selects_every_account() {
    let selector = AccountsSelector::new(&strings(&["*"]), &strings(&[]));
    assert!(selector.select_all_accounts);
    assert!(selector.accounts.is_empty());
    assert!(selector.owners.is_empty());
    assert!(selector.is_enabled());
    assert!(selector.is_account_selected(&[1, 2, 3], &[4, 5, 6]));
}

#[test]
fn wildcard_among_keys_discards_the_owners() {
    let selector = AccountsSelector::new(&strings(&["ABC123", "*"]), &strings(&["oWNER789"]));
    assert!(selector.select_all_accounts);
    assert!(selector.owners.is_empty());
}

#[test]
fn empty_selector_is_disabled() {
    let selector = AccountsSelector::new(&strings(&[]), &strings(&[]));
    assert!(!selector.is_enabled());
    let account = bs58::decode("ABC123").into_vec().unwrap();
    let owner = bs58::decode("oWNER789").into_vec().unwrap();
    assert!(!selector.is_account_selected(&account, &owner));
}

#[test]
fn invalid_keys_are_skipped() {
    let selector = AccountsSelector::new(&strings(&["0OIl", "ABC123"]), &strings(&["not base58!"]));
    assert_eq!(selector.accounts.len(), 1);
    assert!(selector.owners.is_empty());
    assert!(selector.is_enabled());
    let only_invalid = AccountsSelector::new(&strings(&["0"]), &strings(&["I"]));
    assert!(!only_invalid.is_enabled());
}

#[test]
fn selection_by_account_key() {
    let selector = AccountsSelector::new(&strings(&["ABC123", "DEF456"]), &strings(&["oWNER789"]));
    let account = bs58::decode("DEF456").into_vec().unwrap();
    assert!(selector.is_account_selected(&account, &[9, 9, 9]));
}

#[test]
fn selection_by_owner_key() {
    let selector = AccountsSelector::new(&strings(&["ABC123"]), &strings(&["oWNER789"]));
    let owner = bs58::decode("oWNER789").into_vec().unwrap();
    assert!(selector.is_account_selected(&[9, 9, 9], &owner));
    assert!(!selector.is_account_selected(&[9, 9, 9], &[8, 8]));
}

#[test]
fn keys_are_compared_as_decoded_bytes() {
    let key = vec![0u8, 7, 200, 13];
    let text = bs58::encode(&key).into_string();
    let selector = AccountsSelector::new(&[text.clone()], &strings(&[]));
    assert!(selector.is_account_selected(&key, &[]));
    assert!(!selector.is_account_selected(text.as_bytes(), &[]));
}

#[test]
fn byte_helpers() {
    assert!(bytes_eq(&[1, 2, 3], &[1, 2, 3]));
    assert!(!bytes_eq(&[1, 2, 3], &[1, 2]));
    assert!(!bytes_eq(&[1, 2, 3], &[1, 2, 4]));
    let keys = vec![vec![1u8], vec![2u8, 3]];
    assert!(contains_key(&keys, &[2, 3]));
    assert!(!contains_key(&keys, &[3]));
}
