use sc_tester::ledger::{Account, Ledger};
use sc_tester::snapshot::{decode_ledger, encode_ledger};
use sc_tester::LedgerError;

fn s(x: &str) -> String {
    x.to_string()
}

fn sample() -> Ledger {
    let mut l = Ledger::new();
    l.set_bytecode(&s("addr1"), vec![0, 97, 115, 109]);
    l.credit(&s("addr1"), 100).unwrap();
    l.datastore_set(&s("addr1"), b"k1".to_vec(), b"v1".to_vec()).unwrap();
    l.datastore_set(&s("addr1"), vec![], vec![]).unwrap();
    l.set_bytecode(&s("wallet"), vec![]);
    l.credit(&s("wallet"), 7).unwrap();
    l.set_bytecode(&s("adr-\u{e9}\u{1F600}"), vec![1, 2, 3]);
    l
}

#[test]
fn round_trip_reproduces_table() {
    let l = sample();
    let bytes = encode_ledger(&l);
    let back = decode_ledger(&bytes).unwrap();
    assert_eq!(back.entries(), l.entries());
    assert_eq!(encode_ledger(&back), bytes);
}

#[test]
fn round_trip_empty_table() {
    let l = Ledger::new();
    let bytes = encode_ledger(&l);
    assert_eq!(bytes, vec![0u8; 8]);
    let back = decode_ledger(&bytes).unwrap();
    assert!(back.entries().is_empty());
}

#[test]
fn round_trip_keeps_absent_bytecode_distinct_from_empty() {
    let l = sample();
    let back = decode_ledger(&encode_ledger(&l)).unwrap();
    let wallet = back.get_entry(&s("wallet")).unwrap();
    assert_eq!(wallet.bytecode, Some(vec![]));
    assert!(back.get_entry(&s("nobody")).is_none());
}

#[test]
fn encoding_layout_of_one_account() {
    let mut l = Ledger::new();
    l.set_bytecode(&s("ab"), vec![9]);
    let bytes = encode_ledger(&l);
    let mut want = vec![1, 0, 0, 0, 0, 0, 0, 0];
    want.extend_from_slice(&[2, 0, 0, 0, 0, 0, 0, 0, b'a', b'b']);
    want.extend_from_slice(&[1, 1, 0, 0, 0, 0, 0, 0, 0, 9]);
    want.extend_from_slice(&[0; 8]);
    want.extend_from_slice(&[0; 8]);
    assert_eq!(bytes, want);
}

#[test]
fn corrupt_snapshots_are_refused() {
    let bytes = encode_ledger(&sample());
    assert_eq!(decode_ledger(&bytes[..bytes.len() - 1]).unwrap_err(), LedgerError::StoreCorrupt);
    let mut longer = bytes.clone();
    longer.push(0);
    assert_eq!(decode_ledger(&longer).unwrap_err(), LedgerError::StoreCorrupt);
    assert_eq!(decode_ledger(&[1, 2, 3]).unwrap_err(), LedgerError::StoreCorrupt);
    assert_eq!(decode_ledger(&[]).unwrap_err(), LedgerError::StoreCorrupt);
}

#[test]
fn invalid_utf8_address_is_refused() {
    let mut bytes = vec![1, 0, 0, 0, 0, 0, 0, 0];
    bytes.extend_from_slice(&[2, 0, 0, 0, 0, 0, 0, 0, 0xff, 0xfe]);
    bytes.push(0);
    bytes.extend_from_slice(&[0; 16]);
    assert_eq!(decode_ledger(&bytes).unwrap_err(), LedgerError::StoreCorrupt);
    bytes[8 + 8] = b'o';
    bytes[8 + 9] = b'k';
    let l = decode_ledger(&bytes).unwrap();
    assert_eq!(l.entries()[0].0, "ok");
    assert_eq!(l.entries()[0].1, Account { bytecode: None, datastore: vec![], balance: 0 });
}

#[test]
fn absent_address_is_unknown_everywhere() {
    let mut l = sample();
    let a = s("ghost");
    assert!(l.get_entry(&a).is_none());
    assert_eq!(l.datastore_get(&a, &b"k1".to_vec()), Err(LedgerError::UnknownAddress));
    assert_eq!(l.datastore_set(&a, b"k".to_vec(), b"v".to_vec()), Err(LedgerError::UnknownAddress));
    assert_eq!(l.credit(&a, 1), Err(LedgerError::UnknownAddress));
    assert_eq!(l.debit(&a, 0), Err(LedgerError::UnknownAddress));
    assert!(l.get_entry(&a).is_none());
    assert_eq!(l.entries(), sample().entries());
}

#[test]
fn overdraft_fails_and_retry_fails_identically() {
    let mut l = sample();
    let a = s("addr1");
    assert_eq!(l.debit(&a, 101), Err(LedgerError::InsufficientFunds));
    assert_eq!(l.get_entry(&a).unwrap().balance, 100);
    assert_eq!(l.debit(&a, 101), Err(LedgerError::InsufficientFunds));
    assert_eq!(l.get_entry(&a).unwrap().balance, 100);
    assert_eq!(l.debit(&a, 100), Ok(()));
    assert_eq!(l.get_entry(&a).unwrap().balance, 0);
}

#[test]
fn credit_overflow_is_refused() {
    let mut l = sample();
    let a = s("wallet");
    assert_eq!(l.credit(&a, u64::MAX), Err(LedgerError::BalanceOverflow));
    assert_eq!(l.get_entry(&a).unwrap().balance, 7);
    assert_eq!(l.credit(&a, u64::MAX - 7), Ok(()));
    assert_eq!(l.get_entry(&a).unwrap().balance, u64::MAX);
}

#[test]
fn set_bytecode_creates_then_overwrites() {
    let mut l = Ledger::new();
    let a = s("c");
    l.set_bytecode(&a, vec![1]);
    assert_eq!(l.get_entry(&a).unwrap(), &Account { bytecode: Some(vec![1]), datastore: vec![], balance: 0 });
    l.credit(&a, 5).unwrap();
    l.datastore_set(&a, vec![1], vec![2]).unwrap();
    l.set_bytecode(&a, vec![3, 4]);
    let acc = l.get_entry(&a).unwrap();
    assert_eq!(acc.bytecode, Some(vec![3, 4]));
    assert_eq!(acc.balance, 5);
    assert_eq!(acc.datastore, vec![(vec![1], vec![2])]);
    assert_eq!(l.entries().len(), 1);
}

#[test]
fn datastore_overwrite_and_missing_key() {
    let mut l = sample();
    let a = s("addr1");
    assert_eq!(l.datastore_get(&a, &b"k1".to_vec()), Ok(Some(b"v1".to_vec())));
    assert_eq!(l.datastore_get(&a, &b"nope".to_vec()), Ok(None));
    l.datastore_set(&a, b"k1".to_vec(), b"v2".to_vec()).unwrap();
    assert_eq!(l.datastore_get(&a, &b"k1".to_vec()), Ok(Some(b"v2".to_vec())));
    assert_eq!(l.get_entry(&a).unwrap().datastore.len(), 2);
    assert_eq!(l.datastore_get(&a, &vec![]), Ok(Some(vec![])));
}

#[test]
fn transfer_moves_coins_or_nothing() {
    let mut l = sample();
    let (a, w) = (s("addr1"), s("wallet"));
    assert_eq!(l.transfer(&a, &w, 30), Ok(()));
    assert_eq!(l.get_entry(&a).unwrap().balance, 70);
    assert_eq!(l.get_entry(&w).unwrap().balance, 37);
    assert_eq!(l.transfer(&w, &a, 38), Err(LedgerError::InsufficientFunds));
    assert_eq!(l.transfer(&w, &s("ghost"), 1), Err(LedgerError::UnknownAddress));
    assert_eq!(l.transfer(&s("ghost"), &w, 0), Err(LedgerError::UnknownAddress));
    assert_eq!(l.transfer(&a, &a, 70), Ok(()));
    assert_eq!(l.get_entry(&a).unwrap().balance, 70);
    l.credit(&w, u64::MAX - 37).unwrap();
    assert_eq!(l.transfer(&a, &w, 1), Err(LedgerError::BalanceOverflow));
    assert_eq!(l.get_entry(&a).unwrap().balance, 70);
    assert_eq!(l.get_entry(&w).unwrap().balance, u64::MAX);
}
