use vstd::prelude::*;

use crate::assoc::{lemma_lookup_absent, lemma_lookup_at, lemma_lookup_push, lemma_lookup_update, lookup};
use crate::LedgerError;

verus! {

/// Key/value storage attached to one account.
pub type Datastore = Vec<(Vec<u8>, Vec<u8>)>;

/// One ledger entry: optional bytecode, a datastore and a coin balance.
#[derive(Debug, Clone, PartialEq, Eq)]
pub struct Account {
    pub bytecode: Option<Vec<u8>>,
    pub datastore: Datastore,
    pub balance: u64,
}

/// Abstract value of an account.
pub struct AccountModel {
    pub bytecode: Option<Seq<u8>>,
    pub datastore: Seq<(Seq<u8>, Seq<u8>)>,
    pub balance: u64,
}

pub open spec fn bytes_opt(b: Option<Vec<u8>>) -> Option<Seq<u8>> {
    match b {
        Some(v) => Some(v@),
        None => None,
    }
}

pub open spec fn datastore_view(d: Seq<(Vec<u8>, Vec<u8>)>) -> Seq<(Seq<u8>, Seq<u8>)> {
    d.map_values(|e: (Vec<u8>, Vec<u8>)| (e.0@, e.1@))
}

impl View for Account {
    type V = AccountModel;

    open spec fn view(&self) -> AccountModel {
        AccountModel {
            bytecode: bytes_opt(self.bytecode),
            datastore: datastore_view(self.datastore@),
            balance: self.balance,
        }
    }
}

/// Abstract value of the whole table: address and account, in storage order.
pub type Table = Seq<(Seq<char>, AccountModel)>;

pub open spec fn table_view(e: Seq<(String, Account)>) -> Table {
    e.map_values(|p: (String, Account)| (p.0@, p.1@))
}

/// The account that `set_bytecode` leaves at an address that held `prev`.
pub open spec fn with_bytecode(prev: Option<AccountModel>, code: Seq<u8>) -> AccountModel {
    match prev {
        Some(a) => AccountModel { bytecode: Some(code), ..a },
        None => AccountModel { bytecode: Some(code), datastore: Seq::empty(), balance: 0 },
    }
}

/// The account `acc` with its balance replaced.
pub open spec fn with_balance(acc: AccountModel, balance: u64) -> AccountModel {
    AccountModel { balance, ..acc }
}

/// `new` binds `address` to `acc` and agrees with `old` on every other address.
pub open spec fn rebinds(new: Table, old: Table, address: Seq<char>, acc: AccountModel) -> bool {
    forall|a: Seq<char>| #[trigger] lookup(new, a) == if a == address {
        Some(acc)
    } else {
        lookup(old, a)
    }
}

/// `new` holds the account `acc` with `key` bound to `value` in its datastore.
pub open spec fn stores(new: AccountModel, acc: AccountModel, key: Seq<u8>, value: Seq<u8>) -> bool {
    &&& new.bytecode == acc.bytecode
    &&& new.balance == acc.balance
    &&& forall|k: Seq<u8>| #[trigger] lookup(new.datastore, k) == if k == key {
        Some(value)
    } else {
        lookup(acc.datastore, k)
    }
}

/// `new` gives `from` and `to` the accounts `f` and `t`, and agrees with `old` elsewhere.
pub open spec fn rebinds_two(
    new: Table,
    old: Table,
    from: Seq<char>,
    f: AccountModel,
    to: Seq<char>,
    t: AccountModel,
) -> bool {
    forall|a: Seq<char>| #[trigger] lookup(new, a) == if a == from {
        Some(f)
    } else if a == to {
        Some(t)
    } else {
        lookup(old, a)
    }
}

/// The outcome of a transfer of `amount` coins from `from` to `to`: `old` is the
/// table before, `new` the table after, `r` the result.
pub open spec fn transfer_post(
    old: Table,
    new: Table,
    from: Seq<char>,
    to: Seq<char>,
    amount: u64,
    r: Result<(), LedgerError>,
) -> bool {
    match (lookup(old, from), lookup(old, to)) {
        (Some(f), Some(t)) => if amount > f.balance {
            r == Err::<(), LedgerError>(LedgerError::InsufficientFunds) && new == old
        } else if from == to {
            r is Ok && new == old
        } else if t.balance + amount > u64::MAX {
            r == Err::<(), LedgerError>(LedgerError::BalanceOverflow) && new == old
        } else {
            r is Ok && rebinds_two(
                new,
                old,
                from,
                with_balance(f, (f.balance - amount) as u64),
                to,
                with_balance(t, (t.balance + amount) as u64),
            )
        },
        _ => r == Err::<(), LedgerError>(LedgerError::UnknownAddress) && new == old,
    }
}

/// The durable account table.
#[derive(Debug)]
pub struct Ledger {
    entries: Vec<(String, Account)>,
}

impl View for Ledger {
    type V = Table;

    closed spec fn view(&self) -> Table {
        table_view(self.entries@)
    }
}

/// Byte-wise equality of two byte vectors.
pub fn bytes_eq(a: &Vec<u8>, b: &Vec<u8>) -> (r: bool)
    ensures
        r == (a@ == b@),
{
    if a.len() != b.len() {
        return false;
    }
    let mut i: usize = 0;
    while i < a.len()
        invariant
            a@.len() == b@.len(),
            i <= a@.len(),
            forall|j: int| 0 <= j < i ==> a@[j] == b@[j],
        decreases a@.len() - i,
    {
        if a[i] != b[i] {
            return false;
        }
        i += 1;
    }
    assert(a@ =~= b@);
    true
}

/// A copy of a byte vector.
pub fn copy_bytes(v: &Vec<u8>) -> (r: Vec<u8>)
    ensures
        r@ == v@,
{
    let mut r: Vec<u8> = Vec::new();
    let mut i: usize = 0;
    while i < v.len()
        invariant
            i <= v@.len(),
            r@ == v@.subrange(0, i as int),
        decreases v@.len() - i,
    {
        r.push(v[i]);
        i += 1;
        assert(r@ =~= v@.subrange(0, i as int));
    }
    assert(v@.subrange(0, v@.len() as int) =~= v@);
    r
}

/// A copy of a datastore.
pub fn copy_datastore(d: &Datastore) -> (r: Datastore)
    ensures
        datastore_view(r@) == datastore_view(d@),
{
    let mut r: Datastore = Vec::new();
    let mut i: usize = 0;
    while i < d.len()
        invariant
            i <= d@.len(),
            datastore_view(r@) == datastore_view(d@).subrange(0, i as int),
        decreases d@.len() - i,
    {
        let k = copy_bytes(&d[i].0);
        let v = copy_bytes(&d[i].1);
        let ghost prev = r@;
        r.push((k, v));
        assert(datastore_view(r@) =~= datastore_view(prev).push(datastore_view(d@)[i as int]));
        i += 1;
        assert(datastore_view(r@) =~= datastore_view(d@).subrange(0, i as int));
    }
    assert(datastore_view(d@).subrange(0, d@.len() as int) =~= datastore_view(d@));
    r
}

/// Index of the last datastore pair with this key.
fn find_key(d: &Datastore, key: &Vec<u8>) -> (r: Option<usize>)
    ensures
        match r {
            Some(i) => i < d@.len() && datastore_view(d@)[i as int].0 == key@
                && forall|j: int| i < j < d@.len() ==> datastore_view(d@)[j].0 != key@,
            None => forall|j: int| 0 <= j < d@.len() ==> datastore_view(d@)[j].0 != key@,
        },
{
    let mut i = d.len();
    while i > 0
        invariant
            i <= d@.len(),
            forall|j: int| i <= j < d@.len() ==> datastore_view(d@)[j].0 != key@,
        decreases i,
    {
        if bytes_eq(&d[i - 1].0, key) {
            return Some(i - 1);
        }
        i -= 1;
    }
    None
}

/// Binds `key` to `value` in a datastore.
pub fn datastore_insert(d: &mut Datastore, key: Vec<u8>, value: Vec<u8>)
    ensures
        forall|k: Seq<u8>| #[trigger] lookup(datastore_view(final(d)@), k) == if k == key@ {
            Some(value@)
        } else {
            lookup(datastore_view(old(d)@), k)
        },
{
    let ghost kv = key@;
    let ghost vv = value@;
    match find_key(d, &key) {
        Some(i) => {
            let ghost s = datastore_view(old(d)@);
            d.set(i, (key, value));
            assert(datastore_view(d@) =~= s.update(i as int, (s[i as int].0, vv)));
            assert forall|k: Seq<u8>| #[trigger] lookup(datastore_view(d@), k) == if k == kv {
                Some(vv)
            } else {
                lookup(s, k)
            } by {
                lemma_lookup_update(s, i as int, vv, k);
            }
        },
        None => {
            let ghost s = datastore_view(old(d)@);
            d.push((key, value));
            assert(datastore_view(d@) =~= s.push((kv, vv)));
            assert forall|k: Seq<u8>| #[trigger] lookup(datastore_view(d@), k) == if k == kv {
                Some(vv)
            } else {
                lookup(s, k)
            } by {
                lemma_lookup_push(s, kv, vv, k);
            }
        },
    }
}

impl Ledger {
    /// An empty table.
    pub fn new() -> (r: Ledger)
        ensures
            r@ == Seq::<(Seq<char>, AccountModel)>::empty(),
    {
        let r = Ledger { entries: Vec::new() };
        assert(r@ =~= Seq::<(Seq<char>, AccountModel)>::empty());
        r
    }

    /// A table holding these accounts, in this order.
    pub fn from_entries(entries: Vec<(String, Account)>) -> (r: Ledger)
        ensures
            r@ == table_view(entries@),
    {
        Ledger { entries }
    }

    /// Accounts in storage order.
    pub fn entries(&self) -> (r: &Vec<(String, Account)>)
        ensures
            table_view(r@) == self@,
    {
        &self.entries
    }

    /// Index of the last entry for this address.
    fn find(&self, address: &String) -> (r: Option<usize>)
        ensures
            match r {
                Some(i) => i < self@.len() && self@[i as int].0 == address@
                    && forall|j: int| i < j < self@.len() ==> self@[j].0 != address@,
                None => forall|j: int| 0 <= j < self@.len() ==> self@[j].0 != address@,
            },
    {
        let mut i = self.entries.len();
        while i > 0
            invariant
                i <= self@.len(),
                self@.len() == self.entries@.len(),
                forall|j: int| i <= j < self@.len() ==> self@[j].0 != address@,
            decreases i,
        {
            if self.entries[i - 1].0 == *address {
                return Some(i - 1);
            }
            i -= 1;
        }
        None
    }

    /// The account at an address, or `None` when the address has no entry.
    pub fn get_entry(&self, address: &String) -> (r: Option<&Account>)
        ensures
            r is None <==> lookup(self@, address@) is None,
            r matches Some(a) ==> lookup(self@, address@) == Some(a@),
    {
        match self.find(address) {
            Some(i) => {
                proof {
                    lemma_lookup_at(self@, address@, i as int);
                }
                Some(&self.entries[i].1)
            },
            None => {
                proof {
                    lemma_lookup_absent(self@, address@);
                }
                None
            },
        }
    }

    /// Replaces the account at the entry `i`, which is the last one for its address.
    fn replace_at(&mut self, i: usize, acc: Account)
        requires
            i < old(self)@.len(),
            forall|j: int| i < j < old(self)@.len() ==> old(self)@[j].0 != old(self)@[i as int].0,
        ensures
            rebinds(final(self)@, old(self)@, old(self)@[i as int].0, acc@),
    {
        let ghost s = old(self)@;
        let ghost av = acc@;
        let addr = self.entries[i].0.clone();
        self.entries.set(i, (addr, acc));
        assert(self@ =~= s.update(i as int, (s[i as int].0, av)));
        assert forall|a: Seq<char>| #[trigger] lookup(self@, a) == if a == s[i as int].0 {
            Some(av)
        } else {
            lookup(s, a)
        } by {
            lemma_lookup_update(s, i as int, av, a);
        }
    }

    /// Sets the bytecode at an address, creating an empty account there if none exists.
    pub fn set_bytecode(&mut self, address: &String, bytecode: Vec<u8>)
        ensures
            rebinds(final(self)@, old(self)@, address@, with_bytecode(lookup(old(self)@, address@), bytecode@)),
    {
        let ghost code = bytecode@;
        match self.find(address) {
            Some(i) => {
                proof {
                    lemma_lookup_at(self@, address@, i as int);
                }
                let old_acc = &self.entries[i].1;
                let acc = Account {
                    bytecode: Some(bytecode),
                    datastore: copy_datastore(&old_acc.datastore),
                    balance: old_acc.balance,
                };
                self.replace_at(i, acc);
            },
            None => {
                proof {
                    lemma_lookup_absent(self@, address@);
                }
                let ghost s = self@;
                let acc = Account { bytecode: Some(bytecode), datastore: Vec::new(), balance: 0 };
                assert(acc@.datastore =~= Seq::<(Seq<u8>, Seq<u8>)>::empty());
                let ghost av = acc@;
                self.entries.push((address.clone(), acc));
                assert(self@ =~= s.push((address@, av)));
                assert forall|a: Seq<char>| #[trigger] lookup(self@, a) == if a == address@ {
                    Some(av)
                } else {
                    lookup(s, a)
                } by {
                    lemma_lookup_push(s, address@, av, a);
                }
            },
        }
    }

    /// Takes the entry `i` out, leaving a placeholder in its slot.
    fn take_at(&mut self, i: usize) -> (r: (String, Account))
        requires
            i < old(self).entries@.len(),
        ensures
            r == old(self).entries@[i as int],
            final(self).entries@.len() == old(self).entries@.len(),
            forall|j: int| 0 <= j < old(self).entries@.len() && j != i
                ==> final(self).entries@[j] == old(self).entries@[j],
    {
        let mut pair = (String::new(), Account { bytecode: None, datastore: Vec::new(), balance: 0 });
        self.entries.set_and_swap(i, &mut pair);
        pair
    }

    /// Sets the balance of the entry `i`, which is the last one for its address.
    fn set_balance_at(&mut self, i: usize, balance: u64)
        requires
            i < old(self)@.len(),
            forall|j: int| i < j < old(self)@.len() ==> old(self)@[j].0 != old(self)@[i as int].0,
        ensures
            rebinds(final(self)@, old(self)@, old(self)@[i as int].0, with_balance(old(self)@[i as int].1, balance)),
    {
        let ghost s = self@;
        let (addr, mut acc) = self.take_at(i);
        acc.balance = balance;
        let ghost av = acc@;
        self.entries.set(i, (addr, acc));
        assert(self@ =~= s.update(i as int, (s[i as int].0, av)));
        assert forall|a: Seq<char>| #[trigger] lookup(self@, a) == if a == s[i as int].0 {
            Some(av)
        } else {
            lookup(s, a)
        } by {
            lemma_lookup_update(s, i as int, av, a);
        }
    }

    /// Reads one datastore entry of an account; `Ok(None)` when the key is unbound.
    pub fn datastore_get(&self, address: &String, key: &Vec<u8>) -> (r: Result<Option<Vec<u8>>, LedgerError>)
        ensures
            match lookup(self@, address@) {
                None => r == Err::<Option<Vec<u8>>, LedgerError>(LedgerError::UnknownAddress),
                Some(acc) => r is Ok && bytes_opt(r->Ok_0) == lookup(acc.datastore, key@),
            },
    {
        match self.get_entry(address) {
            None => Err(LedgerError::UnknownAddress),
            Some(acc) => match find_key(&acc.datastore, key) {
                Some(j) => {
                    proof {
                        lemma_lookup_at(datastore_view(acc.datastore@), key@, j as int);
                    }
                    Ok(Some(copy_bytes(&acc.datastore[j].1)))
                },
                None => {
                    proof {
                        lemma_lookup_absent(datastore_view(acc.datastore@), key@);
                    }
                    Ok(None)
                },
            },
        }
    }

    /// Binds `key` to `value` in the datastore of an existing account.
    pub fn datastore_set(&mut self, address: &String, key: Vec<u8>, value: Vec<u8>) -> (r: Result<(), LedgerError>)
        ensures
            match lookup(old(self)@, address@) {
                None => r == Err::<(), LedgerError>(LedgerError::UnknownAddress) && final(self)@ == old(self)@,
                Some(acc) => {
                    &&& r is Ok
                    &&& lookup(final(self)@, address@) is Some
                    &&& stores(lookup(final(self)@, address@)->Some_0, acc, key@, value@)
                    &&& forall|a: Seq<char>| a != address@ ==> #[trigger] lookup(final(self)@, a) == lookup(old(self)@, a)
                },
            },
    {
        match self.find(address) {
            None => {
                proof {
                    lemma_lookup_absent(self@, address@);
                }
                Err(LedgerError::UnknownAddress)
            },
            Some(i) => {
                let ghost s = self@;
                proof {
                    lemma_lookup_at(s, address@, i as int);
                }
                let ghost kv = key@;
                let ghost vv = value@;
                let (addr, mut acc) = self.take_at(i);
                datastore_insert(&mut acc.datastore, key, value);
                let ghost av = acc@;
                assert(stores(av, s[i as int].1, kv, vv));
                self.entries.set(i, (addr, acc));
                assert(self@ =~= s.update(i as int, (s[i as int].0, av)));
                assert forall|a: Seq<char>| #[trigger] lookup(self@, a) == if a == address@ {
                    Some(av)
                } else {
                    lookup(s, a)
                } by {
                    lemma_lookup_update(s, i as int, av, a);
                }
                Ok(())
            },
        }
    }

    /// Adds `amount` to the balance of an existing account.
    pub fn credit(&mut self, address: &String, amount: u64) -> (r: Result<(), LedgerError>)
        ensures
            match lookup(old(self)@, address@) {
                None => r == Err::<(), LedgerError>(LedgerError::UnknownAddress) && final(self)@ == old(self)@,
                Some(acc) => if acc.balance + amount > u64::MAX {
                    r == Err::<(), LedgerError>(LedgerError::BalanceOverflow) && final(self)@ == old(self)@
                } else {
                    r is Ok && rebinds(final(self)@, old(self)@, address@, with_balance(acc, (acc.balance + amount) as u64))
                },
            },
    {
        match self.find(address) {
            None => {
                proof {
                    lemma_lookup_absent(self@, address@);
                }
                Err(LedgerError::UnknownAddress)
            },
            Some(i) => {
                proof {
                    lemma_lookup_at(self@, address@, i as int);
                }
                let bal = self.entries[i].1.balance;
                if bal > u64::MAX - amount {
                    Err(LedgerError::BalanceOverflow)
                } else {
                    self.set_balance_at(i, bal + amount);
                    Ok(())
                }
            },
        }
    }

    /// Takes `amount` from the balance of an existing account.
    pub fn debit(&mut self, address: &String, amount: u64) -> (r: Result<(), LedgerError>)
        ensures
            match lookup(old(self)@, address@) {
                None => r == Err::<(), LedgerError>(LedgerError::UnknownAddress) && final(self)@ == old(self)@,
                Some(acc) => if amount > acc.balance {
                    r == Err::<(), LedgerError>(LedgerError::InsufficientFunds) && final(self)@ == old(self)@
                } else {
                    r is Ok && rebinds(final(self)@, old(self)@, address@, with_balance(acc, (acc.balance - amount) as u64))
                },
            },
    {
        match self.find(address) {
            None => {
                proof {
                    lemma_lookup_absent(self@, address@);
                }
                Err(LedgerError::UnknownAddress)
            },
            Some(i) => {
                proof {
                    lemma_lookup_at(self@, address@, i as int);
                }
                let bal = self.entries[i].1.balance;
                if amount > bal {
                    Err(LedgerError::InsufficientFunds)
                } else {
                    self.set_balance_at(i, bal - amount);
                    Ok(())
                }
            },
        }
    }

    /// Moves `amount` coins from one existing account to another: both balances
    /// change, or neither does.
    pub fn transfer(&mut self, from: &String, to: &String, amount: u64) -> (r: Result<(), LedgerError>)
        ensures
            transfer_post(old(self)@, final(self)@, from@, to@, amount, r),
    {
        let fb = match self.get_entry(from) {
            Some(acc) => acc.balance,
            None => return Err(LedgerError::UnknownAddress),
        };
        let tb = match self.get_entry(to) {
            Some(acc) => acc.balance,
            None => return Err(LedgerError::UnknownAddress),
        };
        if amount > fb {
            return Err(LedgerError::InsufficientFunds);
        }
        if *from == *to {
            return Ok(());
        }
        if tb > u64::MAX - amount {
            return Err(LedgerError::BalanceOverflow);
        }
        let ghost s0 = self@;
        let _ = self.debit(from, amount);
        let ghost s1 = self@;
        assert(lookup(s1, to@) == lookup(s0, to@));
        let _ = self.credit(to, amount);
        assert forall|a: Seq<char>| #[trigger] lookup(self@, a) == if a == from@ {
            Some(with_balance(lookup(s0, from@)->Some_0, (fb - amount) as u64))
        } else if a == to@ {
            Some(with_balance(lookup(s0, to@)->Some_0, (tb + amount) as u64))
        } else {
            lookup(s0, a)
        } by {
            assert(lookup(s1, a) == lookup(s1, a));
        }
        Ok(())
    }
}

/// The table holds an entry for `address`.
pub open spec fn holds_address(t: Table, address: Seq<char>) -> bool {
    exists|j: int| 0 <= j < t.len() && t[j].0 == address
}

/// An address that the table does not hold is reported absent. Every datastore,
/// credit and debit operation states that it then fails with `UnknownAddress` and
/// leaves the table unchanged.
pub proof fn lemma_absent_address(t: Table, address: Seq<char>)
    requires
        !holds_address(t, address),
    ensures
        lookup(t, address) is None,
{
    lemma_lookup_absent(t, address);
}

} // verus!
