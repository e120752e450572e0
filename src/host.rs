use vstd::prelude::*;

use crate::assoc::lookup;
use crate::call_stack::{CallFrame, CallItem, CallStack};
use crate::ledger::{bytes_opt, copy_bytes, rebinds, stores, transfer_post, with_bytecode, Account, Ledger, Table};
use crate::snapshot::{encode_ledger, encodes};
use crate::LedgerError;

verus! {

/// The object handed to the execution engine: it owns the ledger and the call
/// stack for one run and answers the engine's queries from them.
#[derive(Debug)]
pub struct InterfaceImpl {
    ledger: Ledger,
    stack: CallStack,
}

/// The account that code runs as: the address on top of the call stack.
pub open spec fn current_address(stack: Seq<CallFrame>) -> Option<Seq<char>> {
    if stack.len() == 0 {
        None
    } else {
        Some(stack.last().address)
    }
}

/// Success or the error of a result, without its value.
pub open spec fn outcome(r: Result<Vec<u8>, LedgerError>) -> Result<(), LedgerError> {
    match r {
        Ok(_) => Ok(()),
        Err(e) => Err(e),
    }
}

impl InterfaceImpl {
    /// An adapter over a loaded ledger, with no caller.
    pub fn new(ledger: Ledger) -> (r: InterfaceImpl)
        ensures
            r.table() == ledger@,
            r.frames() == Seq::<CallFrame>::empty(),
    {
        InterfaceImpl { ledger, stack: CallStack::new() }
    }

    /// The account table, as a model.
    pub closed spec fn table(&self) -> Table {
        self.ledger@
    }

    /// The call frames, innermost last.
    pub closed spec fn frames(&self) -> Seq<CallFrame> {
        self.stack@
    }

    /// The account table.
    pub fn ledger(&self) -> (r: &Ledger)
        ensures
            r@ == self.table(),
    {
        &self.ledger
    }

    /// The active call frames.
    pub fn call_stack(&self) -> (r: &CallStack)
        ensures
            r@ == self.frames(),
    {
        &self.stack
    }

    /// The ledger as it stands, in snapshot form.
    pub fn save(&self) -> (r: Vec<u8>)
        ensures
            encodes(r@, self.table()),
    {
        encode_ledger(&self.ledger)
    }

    /// Clears the call stack at the start of a run.
    pub fn reset_addresses(&mut self)
        ensures
            final(self).frames() == Seq::<CallFrame>::empty(),
            final(self).table() == old(self).table(),
    {
        self.stack.reset();
    }

    /// Starts a run: clears the call stack, then pushes the top-level caller, if any.
    pub fn start_run(&mut self, caller: Option<CallItem>)
        ensures
            final(self).frames() == match caller {
                Some(c) => seq![c@],
                None => Seq::<CallFrame>::empty(),
            },
            final(self).table() == old(self).table(),
    {
        self.stack.reset();
        if let Some(c) = caller {
            self.stack.push(c);
        }
        proof {
            if caller is Some {
                assert(Seq::<CallFrame>::empty().push(caller->Some_0@) =~= seq![caller->Some_0@]);
            }
        }
    }

    /// Ends a run: the snapshot to persist when the engine succeeded, and nothing
    /// when it failed, so that a failed run leaves the stored snapshot untouched.
    pub fn finish_run(&self, succeeded: bool) -> (r: Option<Vec<u8>>)
        ensures
            succeeded ==> r is Some && encodes(r->Some_0@, self.table()),
            !succeeded ==> r is None,
    {
        if succeeded {
            Some(encode_ledger(&self.ledger))
        } else {
            None
        }
    }

    /// Enters a call frame.
    pub fn call_stack_push(&mut self, item: CallItem)
        ensures
            final(self).frames() == old(self).frames().push(item@),
            final(self).table() == old(self).table(),
    {
        self.stack.push(item);
    }

    /// Leaves the innermost call frame; `None` when there is none.
    pub fn call_stack_pop(&mut self) -> (r: Option<CallItem>)
        ensures
            old(self).frames().len() == 0 ==> r is None && final(self).frames() == old(self).frames(),
            old(self).frames().len() > 0 ==> r is Some && r->Some_0@ == old(self).frames().last()
                && final(self).frames() == old(self).frames().drop_last(),
            final(self).table() == old(self).table(),
    {
        self.stack.pop()
    }

    /// The innermost caller; `None` means "no caller".
    pub fn current(&self) -> (r: Option<&CallItem>)
        ensures
            self.frames().len() == 0 ==> r is None,
            self.frames().len() > 0 ==> r is Some && r->Some_0@ == self.frames().last(),
    {
        self.stack.current()
    }

    /// The coins made available to the current call frame; none without a caller.
    pub fn get_call_coins(&self) -> (r: u64)
        ensures
            r == if self.frames().len() == 0 { 0 } else { self.frames().last().coins },
    {
        match self.stack.current() {
            Some(item) => item.coins,
            None => 0,
        }
    }

    /// The account at an address, or `None` when the address has no entry.
    pub fn get_entry(&self, address: &String) -> (r: Option<&Account>)
        ensures
            r is None <==> lookup(self.table(), address@) is None,
            r matches Some(a) ==> lookup(self.table(), address@) == Some(a@),
    {
        self.ledger.get_entry(address)
    }

    /// The bytecode stored at an address; `NoModule` when there is none.
    pub fn get_bytecode(&self, address: &String) -> (r: Result<Vec<u8>, LedgerError>)
        ensures
            match lookup(self.table(), address@) {
                Some(acc) if acc.bytecode is Some => r is Ok && r->Ok_0@ == acc.bytecode->Some_0,
                _ => r == Err::<Vec<u8>, LedgerError>(LedgerError::NoModule),
            },
    {
        match self.ledger.get_entry(address) {
            Some(acc) => match &acc.bytecode {
                Some(code) => Ok(copy_bytes(code)),
                None => Err(LedgerError::NoModule),
            },
            None => Err(LedgerError::NoModule),
        }
    }

    /// The address on top of the call stack, which the running code acts as.
    fn current_account(&self) -> (r: Option<&String>)
        ensures
            current_address(self.frames()) is None <==> r is None,
            r matches Some(a) ==> current_address(self.frames()) == Some(a@),
    {
        match self.stack.current() {
            Some(item) => Some(&item.address),
            None => None,
        }
    }

    /// Reads a datastore entry of the current account.
    pub fn raw_get_data(&self, key: &Vec<u8>) -> (r: Result<Option<Vec<u8>>, LedgerError>)
        ensures
            match current_address(self.frames()) {
                None => r == Err::<Option<Vec<u8>>, LedgerError>(LedgerError::UnknownAddress),
                Some(a) => match lookup(self.table(), a) {
                    None => r == Err::<Option<Vec<u8>>, LedgerError>(LedgerError::UnknownAddress),
                    Some(acc) => r is Ok && bytes_opt(r->Ok_0) == lookup(acc.datastore, key@),
                },
            },
    {
        match self.current_account() {
            None => Err(LedgerError::UnknownAddress),
            Some(a) => self.ledger.datastore_get(a, key),
        }
    }

    /// Reads a datastore entry of a given account.
    pub fn raw_get_data_for(&self, address: &String, key: &Vec<u8>) -> (r: Result<Option<Vec<u8>>, LedgerError>)
        ensures
            match lookup(self.table(), address@) {
                None => r == Err::<Option<Vec<u8>>, LedgerError>(LedgerError::UnknownAddress),
                Some(acc) => r is Ok && bytes_opt(r->Ok_0) == lookup(acc.datastore, key@),
            },
    {
        self.ledger.datastore_get(address, key)
    }

    /// Writes a datastore entry of the current account.
    pub fn raw_set_data(&mut self, key: Vec<u8>, value: Vec<u8>) -> (r: Result<(), LedgerError>)
        ensures
            final(self).frames() == old(self).frames(),
            match current_address(old(self).frames()) {
                None => r == Err::<(), LedgerError>(LedgerError::UnknownAddress) && final(self).table() == old(self).table(),
                Some(a) => match lookup(old(self).table(), a) {
                    None => r == Err::<(), LedgerError>(LedgerError::UnknownAddress)
                        && final(self).table() == old(self).table(),
                    Some(acc) => {
                        &&& r is Ok
                        &&& lookup(final(self).table(), a) is Some
                        &&& stores(lookup(final(self).table(), a)->Some_0, acc, key@, value@)
                        &&& forall|b: Seq<char>| b != a ==> #[trigger] lookup(final(self).table(), b) == lookup(old(self).table(), b)
                    },
                },
            },
    {
        let a = match self.current_account() {
            None => return Err(LedgerError::UnknownAddress),
            Some(a) => a.clone(),
        };
        self.ledger.datastore_set(&a, key, value)
    }

    /// Moves coins from the current account to `to`: both balances change or neither does.
    pub fn transfer_coins(&mut self, to: &String, amount: u64) -> (r: Result<(), LedgerError>)
        ensures
            final(self).frames() == old(self).frames(),
            match current_address(old(self).frames()) {
                None => r == Err::<(), LedgerError>(LedgerError::UnknownAddress) && final(self).table() == old(self).table(),
                Some(from) => transfer_post(old(self).table(), final(self).table(), from, to@, amount, r),
            },
    {
        let from = match self.current_account() {
            None => return Err(LedgerError::UnknownAddress),
            Some(a) => a.clone(),
        };
        self.ledger.transfer(&from, to, amount)
    }

    /// Moves coins between two given accounts: both balances change or neither does.
    pub fn transfer_coins_for(&mut self, from: &String, to: &String, amount: u64) -> (r: Result<(), LedgerError>)
        ensures
            final(self).frames() == old(self).frames(),
            transfer_post(old(self).table(), final(self).table(), from@, to@, amount, r),
    {
        self.ledger.transfer(from, to, amount)
    }

    /// The balance of a given account.
    pub fn get_balance_for(&self, address: &String) -> (r: Result<u64, LedgerError>)
        ensures
            match lookup(self.table(), address@) {
                None => r == Err::<u64, LedgerError>(LedgerError::UnknownAddress),
                Some(acc) => r == Ok::<u64, LedgerError>(acc.balance),
            },
    {
        match self.ledger.get_entry(address) {
            Some(acc) => Ok(acc.balance),
            None => Err(LedgerError::UnknownAddress),
        }
    }

    /// Writes a datastore entry of a given account.
    pub fn raw_set_data_for(&mut self, address: &String, key: Vec<u8>, value: Vec<u8>) -> (r: Result<(), LedgerError>)
        ensures
            final(self).frames() == old(self).frames(),
            match lookup(old(self).table(), address@) {
                None => r == Err::<(), LedgerError>(LedgerError::UnknownAddress) && final(self).table() == old(self).table(),
                Some(acc) => {
                    &&& r is Ok
                    &&& lookup(final(self).table(), address@) is Some
                    &&& stores(lookup(final(self).table(), address@)->Some_0, acc, key@, value@)
                    &&& forall|b: Seq<char>| b != address@ ==> #[trigger] lookup(final(self).table(), b) == lookup(old(self).table(), b)
                },
            },
    {
        self.ledger.datastore_set(address, key, value)
    }

    /// Stores bytecode at an address, creating the account if needed.
    pub fn update_module(&mut self, address: &String, module: Vec<u8>)
        ensures
            final(self).frames() == old(self).frames(),
            rebinds(final(self).table(), old(self).table(), address@, with_bytecode(lookup(old(self).table(), address@), module@)),
    {
        self.ledger.set_bytecode(address, module)
    }

    /// Enters a call to the contract at `address` with `coins` attached: the coins
    /// move from the current account (when there is one) to the callee, a frame is
    /// pushed, and the callee's bytecode is returned. On failure nothing changes.
    pub fn init_call(&mut self, address: &String, coins: u64) -> (r: Result<Vec<u8>, LedgerError>)
        ensures
            match lookup(old(self).table(), address@) {
                Some(acc) if acc.bytecode is Some => match current_address(old(self).frames()) {
                    Some(from) => {
                        let moved = transfer_post(old(self).table(), final(self).table(), from, address@, coins, outcome(r));
                        &&& moved
                        &&& r is Ok ==> r->Ok_0@ == acc.bytecode->Some_0
                            && final(self).frames() == old(self).frames().push(CallFrame { address: address@, coins })
                        &&& r is Err ==> final(self).frames() == old(self).frames()
                    },
                    None => {
                        &&& r is Ok && r->Ok_0@ == acc.bytecode->Some_0
                        &&& final(self).table() == old(self).table()
                        &&& final(self).frames() == old(self).frames().push(CallFrame { address: address@, coins })
                    },
                },
                _ => r == Err::<Vec<u8>, LedgerError>(LedgerError::NoModule) && final(self).table() == old(self).table()
                    && final(self).frames() == old(self).frames(),
            },
    {
        let module = match self.get_bytecode(address) {
            Ok(m) => m,
            Err(e) => return Err(e),
        };
        if let Some(from) = self.current_account() {
            let from = from.clone();
            if let Err(e) = self.ledger.transfer(&from, address, coins) {
                return Err(e);
            }
        }
        self.stack.push(CallItem { address: address.clone(), coins });
        Ok(module)
    }

    /// Leaves the innermost call.
    pub fn finish_call(&mut self) -> (r: Option<CallItem>)
        ensures
            old(self).frames().len() == 0 ==> r is None && final(self).frames() == old(self).frames(),
            old(self).frames().len() > 0 ==> r is Some && r->Some_0@ == old(self).frames().last()
                && final(self).frames() == old(self).frames().drop_last(),
            final(self).table() == old(self).table(),
    {
        self.stack.pop()
    }
}

} // verus!
