use sc_tester::call_stack::CallItem;
use sc_tester::host::InterfaceImpl;
use sc_tester::invocation::{get_inputs, get_module, Arguments};
use sc_tester::ledger::Ledger;
use sc_tester::snapshot::{decode_ledger, encode_ledger};
use sc_tester::LedgerError;

fn s(x: &str) -> String {
    x.to_string()
}

fn no_args() -> Arguments {
    Arguments { filename: None, addr: None, function: None, coins: None, arg: None, sender: None }
}

fn ledger_with_addr1() -> Ledger {
    let mut l = Ledger::new();
    l.set_bytecode(&s("addr1"), vec![0, 97, 115, 109, 1]);
    l.credit(&s("addr1"), 100).unwrap();
    l
}

#[test]
fn empty_ledger_default_entry_no_caller() {
    let stored = encode_ledger(&Ledger::new());
    let mut host = InterfaceImpl::new(decode_ledger(&stored).unwrap());
    let args = Arguments { filename: Some(s("m.wasm")), ..no_args() };
    let inputs = get_inputs(args, Some((s("m.wasm"), vec![7, 7])), &host).unwrap();
    assert_eq!(inputs.module, vec![7, 7]);
    assert_eq!(inputs.function, None);
    assert_eq!(inputs.caller, None);
    assert_eq!(inputs.filename, Some(s("m.wasm")));
    host.start_run(inputs.caller);
    assert!(host.current().is_none());
    assert_eq!(host.get_call_coins(), 0);
    let saved = host.finish_run(true).unwrap();
    assert!(decode_ledger(&saved).unwrap().entries().is_empty());
}

#[test]
fn run_from_ledger_address_with_sender() {
    let stored = encode_ledger(&ledger_with_addr1());
    let mut host = InterfaceImpl::new(decode_ledger(&stored).unwrap());
    let args = Arguments { addr: Some(s("addr1")), sender: Some(s("addr2")), coins: Some(10), ..no_args() };
    let inputs = get_inputs(args, None, &host).unwrap();
    assert_eq!(inputs.module, vec![0, 97, 115, 109, 1]);
    assert_eq!(inputs.caller, Some(CallItem { address: s("addr2"), coins: 10 }));
    host.start_run(inputs.caller);
    assert_eq!(host.current(), Some(&CallItem { address: s("addr2"), coins: 10 }));
    assert_eq!(host.get_call_coins(), 10);
    let saved = host.finish_run(true).unwrap();
    let back = decode_ledger(&saved).unwrap();
    assert_eq!(back.get_entry(&s("addr1")).unwrap().balance, 100);
    assert_eq!(saved, stored);
}

#[test]
fn file_and_address_together_are_refused() {
    let host = InterfaceImpl::new(ledger_with_addr1());
    let args = Arguments { filename: Some(s("m.wasm")), addr: Some(s("addr1")), ..no_args() };
    let r = get_module(&args, Some((s("m.wasm"), vec![1])), &host);
    assert_eq!(r, Err(LedgerError::InvalidInvocation));
    assert!(matches!(get_inputs(args, Some((s("m.wasm"), vec![1])), &host), Err(LedgerError::InvalidInvocation)));
}

#[test]
fn missing_module_is_reported() {
    let mut l = ledger_with_addr1();
    l.credit(&s("addr1"), 0).unwrap();
    let mut host = InterfaceImpl::new(l);
    assert_eq!(get_module(&no_args(), None, &host), Err(LedgerError::NoModule));
    let args = Arguments { addr: Some(s("nowhere")), ..no_args() };
    assert_eq!(get_module(&args, None, &host), Err(LedgerError::NoModule));
    host.update_module(&s("w"), vec![]);
    let args = Arguments { addr: Some(s("w")), ..no_args() };
    assert_eq!(get_module(&args, None, &host), Ok(vec![]));
}

#[test]
fn function_and_parameter_defaults() {
    let host = InterfaceImpl::new(ledger_with_addr1());
    let args = Arguments { addr: Some(s("addr1")), function: Some(s("f")), sender: Some(s("me")), ..no_args() };
    let inputs = get_inputs(args, None, &host).unwrap();
    assert_eq!(inputs.function, Some((s("f"), s(""))));
    assert_eq!(inputs.caller, Some(CallItem { address: s("me"), coins: 0 }));
    let args = Arguments { addr: Some(s("addr1")), function: Some(s("f")), arg: Some(s("p")), ..no_args() };
    let inputs = get_inputs(args, None, &host).unwrap();
    assert_eq!(inputs.function, Some((s("f"), s("p"))));
}

#[test]
fn failed_run_writes_nothing() {
    let stored = encode_ledger(&ledger_with_addr1());
    let mut host = InterfaceImpl::new(decode_ledger(&stored).unwrap());
    host.start_run(Some(CallItem { address: s("addr1"), coins: 0 }));
    host.raw_set_data(b"k".to_vec(), b"v".to_vec()).unwrap();
    host.update_module(&s("new"), vec![1]);
    assert_eq!(host.finish_run(false), None);
    assert_eq!(decode_ledger(&stored).unwrap().entries(), ledger_with_addr1().entries());
}

#[test]
fn nested_call_moves_coins_and_frames() {
    let mut l = ledger_with_addr1();
    l.set_bytecode(&s("callee"), vec![5]);
    let mut host = InterfaceImpl::new(l);
    host.start_run(Some(CallItem { address: s("addr1"), coins: 0 }));
    assert_eq!(host.init_call(&s("callee"), 40), Ok(vec![5]));
    assert_eq!(host.current(), Some(&CallItem { address: s("callee"), coins: 40 }));
    assert_eq!(host.get_balance_for(&s("addr1")), Ok(60));
    assert_eq!(host.get_balance_for(&s("callee")), Ok(40));
    host.raw_set_data(b"x".to_vec(), b"y".to_vec()).unwrap();
    assert_eq!(host.raw_get_data_for(&s("callee"), &b"x".to_vec()), Ok(Some(b"y".to_vec())));
    assert_eq!(host.raw_get_data_for(&s("addr1"), &b"x".to_vec()), Ok(None));
    assert_eq!(host.transfer_coins(&s("addr1"), 41), Err(LedgerError::InsufficientFunds));
    assert_eq!(host.transfer_coins(&s("addr1"), 15), Ok(()));
    assert_eq!(host.get_balance_for(&s("addr1")), Ok(75));
    assert_eq!(host.finish_call(), Some(CallItem { address: s("callee"), coins: 40 }));
    assert_eq!(host.init_call(&s("callee"), 1000), Err(LedgerError::InsufficientFunds));
    assert_eq!(host.init_call(&s("nobody"), 0), Err(LedgerError::NoModule));
    assert_eq!(host.call_stack().len(), 1);
    host.reset_addresses();
    assert!(host.current().is_none());
    assert_eq!(host.raw_get_data(&b"x".to_vec()), Err(LedgerError::UnknownAddress));
    assert_eq!(host.transfer_coins(&s("addr1"), 1), Err(LedgerError::UnknownAddress));
    assert_eq!(host.transfer_coins_for(&s("addr1"), &s("callee"), 5), Ok(()));
    assert_eq!(host.get_balance_for(&s("ghost")), Err(LedgerError::UnknownAddress));
    assert_eq!(host.raw_set_data_for(&s("ghost"), vec![], vec![]), Err(LedgerError::UnknownAddress));
    assert_eq!(host.ledger().get_entry(&s("callee")).unwrap().balance, 30);
}
