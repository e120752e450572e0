use vstd::prelude::*;

use vstd::bytes::{
    lemma_auto_spec_u64_to_from_le_bytes, spec_u64_from_le_bytes, spec_u64_to_le_bytes,
    u64_from_le_bytes, u64_to_le_bytes,
};
use vstd::slice::{slice_subrange, slice_to_vec};
use vstd::utf8::{encode_utf8, encode_utf8_decode_utf8};

use crate::LedgerError;
use crate::ledger::{bytes_opt, datastore_view, table_view, Account, AccountModel, Datastore, Ledger, Table};

verus! {

// Snapshot layout, all integers as 8 little-endian bytes:
//   table   = count, account*
//   account = field(address as UTF-8), code, balance, count, (field(key), field(value))*
//   code    = 0 | 1 field(bytecode)
//   field   = length, bytes

pub open spec fn enc_u64(x: u64) -> Seq<u8> {
    spec_u64_to_le_bytes(x)
}

pub open spec fn enc_field(b: Seq<u8>) -> Seq<u8> {
    enc_u64(b.len() as u64) + b
}

pub open spec fn enc_code(c: Option<Seq<u8>>) -> Seq<u8> {
    match c {
        None => seq![0u8],
        Some(b) => seq![1u8] + enc_field(b),
    }
}

pub open spec fn enc_pair(p: (Seq<u8>, Seq<u8>)) -> Seq<u8> {
    enc_field(p.0) + enc_field(p.1)
}

/// The encodings of the datastore pairs, one after another.
pub open spec fn enc_pairs(d: Seq<(Seq<u8>, Seq<u8>)>) -> Seq<u8>
    decreases d.len(),
{
    if d.len() == 0 {
        Seq::empty()
    } else {
        enc_pairs(d.drop_last()) + enc_pair(d.last())
    }
}

pub open spec fn enc_account(e: (Seq<char>, AccountModel)) -> Seq<u8> {
    enc_field(encode_utf8(e.0)) + enc_code(e.1.bytecode) + enc_u64(e.1.balance) + enc_u64(
        e.1.datastore.len() as u64,
    ) + enc_pairs(e.1.datastore)
}

/// The encodings of the accounts, one after another.
pub open spec fn enc_accounts(t: Table) -> Seq<u8>
    decreases t.len(),
{
    if t.len() == 0 {
        Seq::empty()
    } else {
        enc_accounts(t.drop_last()) + enc_account(t.last())
    }
}

/// The snapshot bytes of a table.
pub open spec fn encode_table(t: Table) -> Seq<u8> {
    enc_u64(t.len() as u64) + enc_accounts(t)
}

pub open spec fn fits(n: int) -> bool {
    0 <= n <= u64::MAX
}

pub open spec fn pair_fits(p: (Seq<u8>, Seq<u8>)) -> bool {
    fits(p.0.len() as int) && fits(p.1.len() as int)
}

pub open spec fn account_fits(e: (Seq<char>, AccountModel)) -> bool {
    &&& fits(encode_utf8(e.0).len() as int)
    &&& e.1.bytecode matches Some(b) ==> fits(b.len() as int)
    &&& fits(e.1.datastore.len() as int)
    &&& forall|j: int| 0 <= j < e.1.datastore.len() ==> #[trigger] pair_fits(e.1.datastore[j])
}

/// Every length in the table is small enough to be written in the snapshot.
pub open spec fn table_fits(t: Table) -> bool {
    &&& fits(t.len() as int)
    &&& forall|j: int| 0 <= j < t.len() ==> #[trigger] account_fits(t[j])
}

/// `e` stands in `s` from position `pos` on.
pub open spec fn at(s: Seq<u8>, pos: int, e: Seq<u8>) -> bool {
    0 <= pos && pos + e.len() <= s.len() && s.subrange(pos, pos + e.len()) == e
}

proof fn lemma_at_split(s: Seq<u8>, pos: int, a: Seq<u8>, b: Seq<u8>)
    ensures
        at(s, pos, a + b) <==> (at(s, pos, a) && at(s, pos + a.len(), b)),
{
    if at(s, pos, a + b) {
        assert(s.subrange(pos, pos + a.len()) =~= (a + b).subrange(0, a.len() as int));
        assert((a + b).subrange(0, a.len() as int) =~= a);
        assert(s.subrange(pos + a.len(), pos + a.len() + b.len()) =~= (a + b).subrange(
            a.len() as int,
            (a + b).len() as int,
        ));
        assert((a + b).subrange(a.len() as int, (a + b).len() as int) =~= b);
    }
    if at(s, pos, a) && at(s, pos + a.len(), b) {
        assert(s.subrange(pos, pos + (a + b).len()) =~= a + b);
    }
}

proof fn lemma_enc_u64_injective(x: u64, y: u64)
    requires
        enc_u64(x) == enc_u64(y),
    ensures
        x == y,
{
    lemma_auto_spec_u64_to_from_le_bytes();
    assert(spec_u64_from_le_bytes(enc_u64(x)) == x);
    assert(spec_u64_from_le_bytes(enc_u64(y)) == y);
}

/// The encoding of the first `i` items is where the encoding of all of them starts.
proof fn lemma_pairs_prefix(s: Seq<(Seq<u8>, Seq<u8>)>, i: int)
    requires
        0 <= i < s.len(),
    ensures
        enc_pairs(s.take(i + 1)) == enc_pairs(s.take(i)) + enc_pair(s[i]),
        enc_pairs(s.take(i + 1)).len() <= enc_pairs(s).len(),
        enc_pairs(s).subrange(0, enc_pairs(s.take(i + 1)).len() as int) == enc_pairs(s.take(i + 1)),
    decreases s.len(),
{
    assert(s.take(i + 1).drop_last() =~= s.take(i));
    if i + 1 == s.len() {
        assert(s.take(i + 1) =~= s);
        assert(enc_pairs(s).subrange(0, enc_pairs(s).len() as int) =~= enc_pairs(s));
    } else {
        let d = s.drop_last();
        lemma_pairs_prefix(d, i);
        assert(d.take(i + 1) =~= s.take(i + 1));
        let p = enc_pairs(s.take(i + 1));
        assert(enc_pairs(s) == enc_pairs(d) + enc_pair(s.last()));
        assert(enc_pairs(s).subrange(0, p.len() as int) =~= enc_pairs(d).subrange(0, p.len() as int));
    }
}

/// Where the encoding of a whole sequence stands, so does that of its first `i + 1` items.
proof fn lemma_at_pairs(b: Seq<u8>, pos: int, s: Seq<(Seq<u8>, Seq<u8>)>, i: int)
    requires
        0 <= i < s.len(),
        at(b, pos, enc_pairs(s)),
    ensures
        at(b, pos + enc_pairs(s.take(i)).len(), enc_pair(s[i])),
{
    lemma_pairs_prefix(s, i);
    let p = enc_pairs(s.take(i + 1));
    assert(b.subrange(pos, pos + p.len()) =~= enc_pairs(s).subrange(0, p.len() as int));
    lemma_at_split(b, pos, enc_pairs(s.take(i)), enc_pair(s[i]));
}

/// The encoding of the first `i` items is where the encoding of all of them starts.
proof fn lemma_accounts_prefix(s: Table, i: int)
    requires
        0 <= i < s.len(),
    ensures
        enc_accounts(s.take(i + 1)) == enc_accounts(s.take(i)) + enc_account(s[i]),
        enc_accounts(s.take(i + 1)).len() <= enc_accounts(s).len(),
        enc_accounts(s).subrange(0, enc_accounts(s.take(i + 1)).len() as int) == enc_accounts(s.take(i + 1)),
    decreases s.len(),
{
    assert(s.take(i + 1).drop_last() =~= s.take(i));
    if i + 1 == s.len() {
        assert(s.take(i + 1) =~= s);
        assert(enc_accounts(s).subrange(0, enc_accounts(s).len() as int) =~= enc_accounts(s));
    } else {
        let d = s.drop_last();
        lemma_accounts_prefix(d, i);
        assert(d.take(i + 1) =~= s.take(i + 1));
        let p = enc_accounts(s.take(i + 1));
        assert(enc_accounts(s) == enc_accounts(d) + enc_account(s.last()));
        assert(enc_accounts(s).subrange(0, p.len() as int) =~= enc_accounts(d).subrange(0, p.len() as int));
    }
}

/// Where the encoding of a whole sequence stands, so does that of its first `i + 1` items.
proof fn lemma_at_accounts(b: Seq<u8>, pos: int, s: Table, i: int)
    requires
        0 <= i < s.len(),
        at(b, pos, enc_accounts(s)),
    ensures
        at(b, pos + enc_accounts(s.take(i)).len(), enc_account(s[i])),
{
    lemma_accounts_prefix(s, i);
    let p = enc_accounts(s.take(i + 1));
    assert(b.subrange(pos, pos + p.len()) =~= enc_accounts(s).subrange(0, p.len() as int));
    lemma_at_split(b, pos, enc_accounts(s.take(i)), enc_account(s[i]));
}

/// Relies on `String::from_utf8`: it accepts every byte sequence that encodes
/// characters in UTF-8, and the string it returns holds exactly those bytes.
#[verifier::external_body]
fn string_from_utf8(bytes: Vec<u8>) -> (r: Option<String>)
    ensures
        (exists|c: Seq<char>| #[trigger] encode_utf8(c) == bytes@) ==> r is Some,
        r matches Some(s) ==> encode_utf8(s@) == bytes@,
{
    String::from_utf8(bytes).ok()
}

fn push_u64(out: &mut Vec<u8>, x: u64)
    ensures
        final(out)@ == old(out)@ + enc_u64(x),
{
    let mut b = u64_to_le_bytes(x);
    out.append(&mut b);
}

fn push_field(out: &mut Vec<u8>, b: &[u8])
    ensures
        final(out)@ == old(out)@ + enc_field(b@),
        fits(b@.len() as int),
{
    push_u64(out, b.len() as u64);
    let ghost mid = out@;
    let mut i: usize = 0;
    while i < b.len()
        invariant
            i <= b@.len(),
            out@ == mid + b@.subrange(0, i as int),
        decreases b@.len() - i,
    {
        out.push(b[i]);
        i += 1;
        assert(out@ =~= mid + b@.subrange(0, i as int));
    }
    assert(b@.subrange(0, b@.len() as int) =~= b@);
}

fn push_account(out: &mut Vec<u8>, address: &String, acc: &Account)
    ensures
        final(out)@ == old(out)@ + enc_account((address@, acc@)),
        account_fits((address@, acc@)),
{
    let ghost o = out@;
    let ab = address.as_str().as_bytes();
    push_field(out, ab);
    match &acc.bytecode {
        None => out.push(0u8),
        Some(code) => {
            out.push(1u8);
            push_field(out, code.as_slice());
        },
    }
    let ghost after_code = out@;
    assert(after_code =~= o + enc_field(encode_utf8(address@)) + enc_code(acc@.bytecode));
    push_u64(out, acc.balance);
    let n = acc.datastore.len();
    push_u64(out, n as u64);
    let ghost head = out@;
        let ghost dv = datastore_view(acc.datastore@);
    let mut i: usize = 0;
    while i < n
        invariant
            n == acc.datastore@.len(),
            dv == datastore_view(acc.datastore@),
            i <= n,
            out@ == head + enc_pairs(dv.take(i as int)),
            forall|j: int| 0 <= j < i ==> #[trigger] pair_fits(dv[j]),
        decreases n - i,
    {
        let ghost prev = out@;
        push_field(out, acc.datastore[i].0.as_slice());
        push_field(out, acc.datastore[i].1.as_slice());
        let ghost item = dv[i as int];
        assert(item.0 == acc.datastore@[i as int].0@ && item.1 == acc.datastore@[i as int].1@);
                assert(out@ =~= prev + enc_pair(item));
        assert(dv.take(i + 1).drop_last() =~= dv.take(i as int));
        assert(dv.take(i + 1).last() == dv[i as int]);
        assert(enc_pairs(dv.take(i + 1)) == enc_pairs(dv.take(i as int)) + enc_pair(dv[i as int]));
        assert(out@ =~= head + enc_pairs(dv.take(i + 1)));
        i += 1;
    }
    assert(dv.take(n as int) =~= dv);
    assert(out@ =~= o + enc_account((address@, acc@)));
}

/// The snapshot bytes of a ledger.
pub fn encode_ledger(l: &Ledger) -> (r: Vec<u8>)
    ensures
        r@ == encode_table(l@),
        table_fits(l@),
{
    let entries = l.entries();
    let n = entries.len();
    let mut out: Vec<u8> = Vec::new();
    push_u64(&mut out, n as u64);
    let ghost t = l@;
        let mut i: usize = 0;
    while i < n
        invariant
            n == entries@.len(),
            t == table_view(entries@),
            i <= n,
            out@ == enc_u64(n as u64) + enc_accounts(t.take(i as int)),
            forall|j: int| 0 <= j < i ==> #[trigger] account_fits(t[j]),
        decreases n - i,
    {
        let ghost prev = out@;
        push_account(&mut out, &entries[i].0, &entries[i].1);
        let ghost item = t[i as int];
        assert(item == (entries@[i as int].0@, entries@[i as int].1@));
        assert(out@ =~= prev + enc_account(item));
        assert(t.take(i + 1).drop_last() =~= t.take(i as int));
        assert(t.take(i + 1).last() == t[i as int]);
        assert(enc_accounts(t.take(i + 1)) == enc_accounts(t.take(i as int)) + enc_account(t[i as int]));
        assert(out@ =~= enc_u64(n as u64) + enc_accounts(t.take(i + 1)));
        i += 1;
    }
    assert(t.take(n as int) =~= t);
    out
}

proof fn lemma_at_same(b: Seq<u8>, pos: int, e1: Seq<u8>, e2: Seq<u8>)
    requires
        at(b, pos, e1),
        at(b, pos, e2),
        e1.len() == e2.len(),
    ensures
        e1 == e2,
{
}

fn read_u64(b: &[u8], pos: usize) -> (r: Option<(u64, usize)>)
    ensures
        r matches Some((x, p)) ==> p == pos + 8 && at(b@, pos as int, enc_u64(x)),
        pos + 8 <= b@.len() ==> r is Some,
{
    if pos > b.len() || b.len() - pos < 8 {
        return None;
    }
    let s = slice_subrange(b, pos, pos + 8);
    let x = u64_from_le_bytes(s);
    proof {
        lemma_auto_spec_u64_to_from_le_bytes();
        assert(spec_u64_to_le_bytes(spec_u64_from_le_bytes(s@)) == s@);
    }
    Some((x, pos + 8))
}

proof fn lemma_read_u64_exact(b: Seq<u8>, pos: int, x: u64, y: u64)
    requires
        at(b, pos, enc_u64(x)),
        at(b, pos, enc_u64(y)),
    ensures
        x == y,
{
    lemma_auto_spec_u64_to_from_le_bytes();
    lemma_at_same(b, pos, enc_u64(x), enc_u64(y));
    lemma_enc_u64_injective(x, y);
}

fn read_field(b: &[u8], pos: usize) -> (r: Option<(Vec<u8>, usize)>)
    ensures
        r matches Some((v, p)) ==> p == pos + enc_field(v@).len() && at(b@, pos as int, enc_field(v@))
            && fits(v@.len() as int),
        forall|c: Seq<u8>| #[trigger] at(b@, pos as int, enc_field(c)) && fits(c.len() as int)
            ==> (r is Some && r->Some_0.0@ == c),
{
    let first = read_u64(b, pos);
    proof {
        lemma_auto_spec_u64_to_from_le_bytes();
        assert forall|c: Seq<u8>| #[trigger] at(b@, pos as int, enc_field(c)) && fits(c.len() as int) implies
            (first is Some && first->Some_0.0 == c.len() as u64 && at(b@, pos + 8, c)) by {
            lemma_at_split(b@, pos as int, enc_u64(c.len() as u64), c);
            lemma_read_u64_exact(b@, pos as int, first->Some_0.0, c.len() as u64);
        }
    }
    let (n, p) = match first {
        None => return None,
        Some(x) => x,
    };
    if ((b.len() - p) as u64) < n {
        return None;
    }
    let e = p + n as usize;
    let v = slice_to_vec(slice_subrange(b, p, e));
    proof {
        assert(v@.len() as u64 == n);
        lemma_at_split(b@, pos as int, enc_u64(n), v@);
    }
    Some((v, e))
}

fn read_code(b: &[u8], pos: usize) -> (r: Option<(Option<Vec<u8>>, usize)>)
    ensures
        r matches Some((v, p)) ==> p == pos + enc_code(bytes_opt(v)).len() && at(b@, pos as int, enc_code(bytes_opt(v)))
            && (v matches Some(x) ==> fits(x@.len() as int)),
        forall|c: Option<Seq<u8>>| #[trigger] at(b@, pos as int, enc_code(c)) && (c matches Some(x) ==> fits(x.len() as int))
            ==> (r is Some && bytes_opt(r->Some_0.0) == c),
{
    if pos >= b.len() {
        return None;
    }
    let tag = b[pos];
    proof {
        assert(b@.subrange(pos as int, pos + 1) =~= seq![tag]);
        assert forall|c: Option<Seq<u8>>| #[trigger] at(b@, pos as int, enc_code(c)) implies
            (c is None ==> tag == 0) && (c matches Some(x) ==> tag == 1 && at(b@, pos + 1, enc_field(x))) by {
            if let Some(x) = c {
                lemma_at_split(b@, pos as int, seq![1u8], enc_field(x));
                assert(seq![tag][0] == seq![1u8][0]);
            } else {
                assert(seq![tag][0] == seq![0u8][0]);
            }
        }
    }
    if tag == 0 {
        Some((None, pos + 1))
    } else if tag == 1 {
        match read_field(b, pos + 1) {
            None => None,
            Some((v, p)) => {
                proof {
                    lemma_at_split(b@, pos as int, seq![1u8], enc_field(v@));
                }
                Some((Some(v), p))
            },
        }
    } else {
        None
    }
}

pub open spec fn pairs_fit(d: Seq<(Seq<u8>, Seq<u8>)>) -> bool {
    forall|j: int| 0 <= j < d.len() ==> #[trigger] pair_fits(d[j])
}

/// `d`, of `n` pairs that fit, is encoded in `b` from `pos` on.
pub open spec fn pairs_at(b: Seq<u8>, pos: int, n: u64, d: Seq<(Seq<u8>, Seq<u8>)>) -> bool {
    d.len() == n && pairs_fit(d) && at(b, pos, enc_pairs(d))
}

fn read_pairs(b: &[u8], pos: usize, n: u64) -> (r: Option<(Datastore, usize)>)
    ensures
        r matches Some((v, p)) ==> datastore_view(v@).len() == n && p == pos + enc_pairs(datastore_view(v@)).len()
            && at(b@, pos as int, enc_pairs(datastore_view(v@))) && pairs_fit(datastore_view(v@)),
        forall|d: Seq<(Seq<u8>, Seq<u8>)>| #[trigger] pairs_at(b@, pos as int, n, d)
            ==> (r is Some && datastore_view(r->Some_0.0@) == d),
{
    if pos > b.len() {
        return None;
    }
    let mut v: Datastore = Vec::new();
    let mut cur = pos;
    let mut i: u64 = 0;
    proof {
        assert(datastore_view(v@) =~= Seq::<(Seq<u8>, Seq<u8>)>::empty());
        assert(b@.subrange(pos as int, pos as int) =~= Seq::<u8>::empty());
    }
    while i < n
        invariant
            pos <= b@.len(),
            i <= n,
            datastore_view(v@).len() == i,
            cur == pos + enc_pairs(datastore_view(v@)).len(),
            at(b@, pos as int, enc_pairs(datastore_view(v@))),
            pairs_fit(datastore_view(v@)),
            forall|d: Seq<(Seq<u8>, Seq<u8>)>| #[trigger] pairs_at(b@, pos as int, n, d)
                ==> datastore_view(v@) == d.take(i as int),
        decreases n - i,
    {
        let ghost dv = datastore_view(v@);
        proof {
            assert forall|d: Seq<(Seq<u8>, Seq<u8>)>| #[trigger] pairs_at(b@, pos as int, n, d) implies
                at(b@, cur as int, enc_field(d[i as int].0)) && fits(d[i as int].0.len() as int) by {
                lemma_at_pairs(b@, pos as int, d, i as int);
                assert(pair_fits(d[i as int]));
                lemma_at_split(b@, cur as int, enc_field(d[i as int].0), enc_field(d[i as int].1));
            }
        }
        let (k, p1) = match read_field(b, cur) {
            None => return None,
            Some(x) => x,
        };
        proof {
            assert forall|d: Seq<(Seq<u8>, Seq<u8>)>| #[trigger] pairs_at(b@, pos as int, n, d) implies
                at(b@, p1 as int, enc_field(d[i as int].1)) && fits(d[i as int].1.len() as int) by {
                lemma_at_pairs(b@, pos as int, d, i as int);
                assert(pair_fits(d[i as int]));
                lemma_at_split(b@, cur as int, enc_field(d[i as int].0), enc_field(d[i as int].1));
                assert(at(b@, cur as int, enc_field(d[i as int].0)));
            }
        }
        let (val, p2) = match read_field(b, p1) {
            None => return None,
            Some(x) => x,
        };
        let ghost item = (k@, val@);
        proof {
            lemma_at_split(b@, cur as int, enc_field(k@), enc_field(val@));
            lemma_at_split(b@, pos as int, enc_pairs(dv), enc_pair(item));
        }
        v.push((k, val));
        proof {
            assert(datastore_view(v@) =~= dv.push(item));
            assert(dv.push(item).drop_last() =~= dv);
            assert forall|d: Seq<(Seq<u8>, Seq<u8>)>| #[trigger] pairs_at(b@, pos as int, n, d) implies
                datastore_view(v@) == d.take(i + 1) by {
                assert(at(b@, cur as int, enc_field(d[i as int].0)));
                assert(at(b@, p1 as int, enc_field(d[i as int].1)));
                assert(d.take(i + 1) =~= d.take(i as int).push(d[i as int]));
            }
        }
        cur = p2;
        i = i + 1;
    }
    proof {
        assert forall|d: Seq<(Seq<u8>, Seq<u8>)>| #[trigger] pairs_at(b@, pos as int, n, d) implies
            datastore_view(v@) == d by {
            assert(d.take(n as int) =~= d);
        }
    }
    Some((v, cur))
}

/// `e`, an account that fits, is encoded in `b` from `pos` on.
pub open spec fn account_at(b: Seq<u8>, pos: int, e: (Seq<char>, AccountModel)) -> bool {
    account_fits(e) && at(b, pos, enc_account(e))
}

proof fn lemma_account_parts(b: Seq<u8>, pos: int, e: (Seq<char>, AccountModel))
    requires
        account_at(b, pos, e),
    ensures
        at(b, pos, enc_field(encode_utf8(e.0))),
        at(b, pos + enc_field(encode_utf8(e.0)).len(), enc_code(e.1.bytecode)),
        at(b, pos + enc_field(encode_utf8(e.0)).len() + enc_code(e.1.bytecode).len(), enc_u64(e.1.balance)),
        at(b, pos + enc_field(encode_utf8(e.0)).len() + enc_code(e.1.bytecode).len() + 8, enc_u64(e.1.datastore.len() as u64)),
        at(b, pos + enc_field(encode_utf8(e.0)).len() + enc_code(e.1.bytecode).len() + 16, enc_pairs(e.1.datastore)),
{
    lemma_auto_spec_u64_to_from_le_bytes();
    let a1 = enc_field(encode_utf8(e.0));
    let a2 = enc_code(e.1.bytecode);
    let a3 = enc_u64(e.1.balance);
    let a4 = enc_u64(e.1.datastore.len() as u64);
    let a5 = enc_pairs(e.1.datastore);
    lemma_at_split(b, pos, a1 + a2 + a3 + a4, a5);
    lemma_at_split(b, pos, a1 + a2 + a3, a4);
    lemma_at_split(b, pos, a1 + a2, a3);
    lemma_at_split(b, pos, a1, a2);
}

fn read_account(b: &[u8], pos: usize) -> (r: Option<((String, Account), usize)>)
    ensures
        r matches Some((x, p)) ==> p == pos + enc_account((x.0@, x.1@)).len()
            && at(b@, pos as int, enc_account((x.0@, x.1@))) && account_fits((x.0@, x.1@)),
        forall|e: (Seq<char>, AccountModel)| #[trigger] account_at(b@, pos as int, e)
            ==> (r is Some && (r->Some_0.0.0@, r->Some_0.0.1@) == e),
{
    proof {
        lemma_auto_spec_u64_to_from_le_bytes();
        assert forall|e: (Seq<char>, AccountModel)| #[trigger] account_at(b@, pos as int, e) implies
            at(b@, pos as int, enc_field(encode_utf8(e.0))) && fits(encode_utf8(e.0).len() as int) by {
            lemma_account_parts(b@, pos as int, e);
        }
    }
    let (ab, p1) = match read_field(b, pos) {
        None => return None,
        Some(x) => x,
    };
    let ghost abv = ab@;
    let address = match string_from_utf8(ab) {
        None => return None,
        Some(s) => s,
    };
    proof {
        encode_utf8_decode_utf8(address@);
        assert forall|e: (Seq<char>, AccountModel)| #[trigger] account_at(b@, pos as int, e) implies
            e.0 == address@ && at(b@, p1 as int, enc_code(e.1.bytecode))
            && (e.1.bytecode matches Some(x) ==> fits(x.len() as int)) by {
            lemma_account_parts(b@, pos as int, e);
            encode_utf8_decode_utf8(e.0);
        }
    }
    let (code, p2) = match read_code(b, p1) {
        None => return None,
        Some(x) => x,
    };
    proof {
        assert forall|e: (Seq<char>, AccountModel)| #[trigger] account_at(b@, pos as int, e) implies
            at(b@, p2 as int, enc_u64(e.1.balance)) by {
            lemma_account_parts(b@, pos as int, e);
            assert(at(b@, p1 as int, enc_code(e.1.bytecode)));
        }
    }
    let (balance, p3) = match read_u64(b, p2) {
        None => return None,
        Some(x) => x,
    };
    proof {
        assert forall|e: (Seq<char>, AccountModel)| #[trigger] account_at(b@, pos as int, e) implies
            e.1.balance == balance && at(b@, p3 as int, enc_u64(e.1.datastore.len() as u64)) by {
            lemma_account_parts(b@, pos as int, e);
            assert(at(b@, p1 as int, enc_code(e.1.bytecode)));
            assert(at(b@, p2 as int, enc_u64(e.1.balance)));
            lemma_read_u64_exact(b@, p2 as int, balance, e.1.balance);
        }
    }
    let (n, p4) = match read_u64(b, p3) {
        None => return None,
        Some(x) => x,
    };
    proof {
        assert forall|e: (Seq<char>, AccountModel)| #[trigger] account_at(b@, pos as int, e) implies
            pairs_at(b@, p4 as int, n, e.1.datastore) by {
            lemma_account_parts(b@, pos as int, e);
            assert(at(b@, p1 as int, enc_code(e.1.bytecode)));
            assert(at(b@, p3 as int, enc_u64(e.1.datastore.len() as u64)));
            lemma_read_u64_exact(b@, p3 as int, n, e.1.datastore.len() as u64);
            assert(pairs_fit(e.1.datastore));
        }
    }
    let (datastore, p5) = match read_pairs(b, p4, n) {
        None => return None,
        Some(x) => x,
    };
    let acc = Account { bytecode: code, datastore, balance };
    proof {
        let b1 = enc_field(encode_utf8(address@));
        let b2 = enc_code(acc@.bytecode);
        let b3 = enc_u64(balance);
        let b4 = enc_u64(n);
        let b5 = enc_pairs(acc@.datastore);
        lemma_at_split(b@, pos as int, b1, b2);
        lemma_at_split(b@, pos as int, b1 + b2, b3);
        lemma_at_split(b@, pos as int, b1 + b2 + b3, b4);
        lemma_at_split(b@, pos as int, b1 + b2 + b3 + b4, b5);
        assert forall|e: (Seq<char>, AccountModel)| #[trigger] account_at(b@, pos as int, e) implies
            (address@, acc@) == e by {
            assert(pairs_at(b@, p4 as int, n, e.1.datastore));
            assert(at(b@, p1 as int, enc_code(e.1.bytecode)));
            assert(acc@ == e.1);
        }
    }
    Some(((address, acc), p5))
}

/// `t`, a table that fits, is what the bytes `b` encode.
pub open spec fn encodes(b: Seq<u8>, t: Table) -> bool {
    table_fits(t) && encode_table(t) == b
}

/// Reads a ledger back from its snapshot bytes. Exactly the encodings of tables are
/// accepted, each giving back the table it encodes; anything else is `StoreCorrupt`.
pub fn decode_ledger(b: &[u8]) -> (r: Result<Ledger, LedgerError>)
    ensures
        r matches Ok(l) ==> encodes(b@, l@),
        r matches Err(e) ==> e == LedgerError::StoreCorrupt,
        forall|t: Table| #[trigger] encodes(b@, t) ==> (r is Ok && r->Ok_0@ == t),
{
    let first = read_u64(b, 0);
    proof {
        lemma_auto_spec_u64_to_from_le_bytes();
        assert forall|t: Table| #[trigger] encodes(b@, t) implies
            first is Some && first->Some_0.0 == t.len() && at(b@, 8, enc_accounts(t)) by {
            assert(b@.subrange(0, b@.len() as int) =~= b@);
            lemma_at_split(b@, 0, enc_u64(t.len() as u64), enc_accounts(t));
            lemma_read_u64_exact(b@, 0, first->Some_0.0, t.len() as u64);
        }
    }
    let (n, start) = match first {
        None => return Err(LedgerError::StoreCorrupt),
        Some(x) => x,
    };
    let mut entries: Vec<(String, Account)> = Vec::new();
    let mut cur = start;
    let mut i: u64 = 0;
    proof {
        assert(table_view(entries@) =~= Seq::<(Seq<char>, AccountModel)>::empty());
        assert(b@.subrange(start as int, start as int) =~= Seq::<u8>::empty());
    }
    while i < n
        invariant
            forall|t: Table| #[trigger] encodes(b@, t) ==> t.len() == n && at(b@, 8, enc_accounts(t)),
            start == 8,
            at(b@, 0, enc_u64(n)),
            i <= n,
            table_view(entries@).len() == i,
            cur == start + enc_accounts(table_view(entries@)).len(),
            at(b@, start as int, enc_accounts(table_view(entries@))),
            forall|j: int| 0 <= j < i ==> #[trigger] account_fits(table_view(entries@)[j]),
            forall|t: Table| #[trigger] encodes(b@, t) ==> table_view(entries@) == t.take(i as int),
        decreases n - i,
    {
        let ghost tv = table_view(entries@);
        proof {
            assert forall|t: Table| #[trigger] encodes(b@, t) implies account_at(b@, cur as int, t[i as int]) by {
                lemma_at_accounts(b@, 8, t, i as int);
                assert(account_fits(t[i as int]));
            }
        }
        let (entry, p) = match read_account(b, cur) {
            None => return Err(LedgerError::StoreCorrupt),
            Some(x) => x,
        };
        let ghost item = (entry.0@, entry.1@);
        proof {
            lemma_at_split(b@, start as int, enc_accounts(tv), enc_account(item));
        }
        entries.push(entry);
        proof {
            assert(table_view(entries@) =~= tv.push(item));
            assert(tv.push(item).drop_last() =~= tv);
            assert forall|t: Table| #[trigger] encodes(b@, t) implies table_view(entries@) == t.take(i + 1) by {
                assert(account_at(b@, cur as int, t[i as int]));
                assert(t.take(i + 1) =~= t.take(i as int).push(t[i as int]));
            }
        }
        cur = p;
        i = i + 1;
    }
    let ghost tv = table_view(entries@);
    proof {
        assert forall|t: Table| #[trigger] encodes(b@, t) implies tv == t by {
            assert(t.take(n as int) =~= t);
        }
    }
    if cur != b.len() {
        return Err(LedgerError::StoreCorrupt);
    }
    let l = Ledger::from_entries(entries);
    proof {
        lemma_at_split(b@, 0, enc_u64(n), enc_accounts(tv));
        assert(encode_table(tv) =~= b@.subrange(0, b@.len() as int));
        assert(b@.subrange(0, b@.len() as int) =~= b@);
    }
    Ok(l)
}

proof fn lemma_field_unique(b: Seq<u8>, pos: int, c1: Seq<u8>, c2: Seq<u8>)
    requires
        at(b, pos, enc_field(c1)),
        at(b, pos, enc_field(c2)),
        fits(c1.len() as int),
        fits(c2.len() as int),
    ensures
        c1 == c2,
{
    lemma_auto_spec_u64_to_from_le_bytes();
    lemma_at_split(b, pos, enc_u64(c1.len() as u64), c1);
    lemma_at_split(b, pos, enc_u64(c2.len() as u64), c2);
    lemma_read_u64_exact(b, pos, c1.len() as u64, c2.len() as u64);
    lemma_at_same(b, pos + 8, c1, c2);
}

proof fn lemma_code_unique(b: Seq<u8>, pos: int, c1: Option<Seq<u8>>, c2: Option<Seq<u8>>)
    requires
        at(b, pos, enc_code(c1)),
        at(b, pos, enc_code(c2)),
        c1 matches Some(x) ==> fits(x.len() as int),
        c2 matches Some(x) ==> fits(x.len() as int),
    ensures
        c1 == c2,
{
    assert(enc_code(c1)[0] == b[pos]);
    assert(enc_code(c2)[0] == b[pos]);
    if let Some(x1) = c1 {
        if let Some(x2) = c2 {
            lemma_at_split(b, pos, seq![1u8], enc_field(x1));
            lemma_at_split(b, pos, seq![1u8], enc_field(x2));
            lemma_field_unique(b, pos + 1, x1, x2);
        }
    }
}

proof fn lemma_pairs_unique(b: Seq<u8>, pos: int, n: u64, d1: Seq<(Seq<u8>, Seq<u8>)>, d2: Seq<(Seq<u8>, Seq<u8>)>, i: int)
    requires
        pairs_at(b, pos, n, d1),
        pairs_at(b, pos, n, d2),
        0 <= i <= n,
    ensures
        d1.take(i) == d2.take(i),
    decreases i,
{
    if i == 0 {
        assert(d1.take(0) =~= d2.take(0));
    } else {
        let j = i - 1;
        lemma_pairs_unique(b, pos, n, d1, d2, j);
        lemma_at_pairs(b, pos, d1, j);
        lemma_at_pairs(b, pos, d2, j);
        let q = pos + enc_pairs(d1.take(j)).len();
        assert(pair_fits(d1[j]));
        assert(pair_fits(d2[j]));
        lemma_at_split(b, q, enc_field(d1[j].0), enc_field(d1[j].1));
        lemma_at_split(b, q, enc_field(d2[j].0), enc_field(d2[j].1));
        lemma_field_unique(b, q, d1[j].0, d2[j].0);
        lemma_field_unique(b, q + enc_field(d1[j].0).len(), d1[j].1, d2[j].1);
        assert(d1.take(i) =~= d1.take(j).push(d1[j]));
        assert(d2.take(i) =~= d2.take(j).push(d2[j]));
    }
}

proof fn lemma_account_unique(b: Seq<u8>, pos: int, e1: (Seq<char>, AccountModel), e2: (Seq<char>, AccountModel))
    requires
        account_at(b, pos, e1),
        account_at(b, pos, e2),
    ensures
        e1 == e2,
{
    lemma_auto_spec_u64_to_from_le_bytes();
    lemma_account_parts(b, pos, e1);
    lemma_account_parts(b, pos, e2);
    lemma_field_unique(b, pos, encode_utf8(e1.0), encode_utf8(e2.0));
    encode_utf8_decode_utf8(e1.0);
    encode_utf8_decode_utf8(e2.0);
    let p1 = pos + enc_field(encode_utf8(e1.0)).len();
    lemma_code_unique(b, p1, e1.1.bytecode, e2.1.bytecode);
    let p2 = p1 + enc_code(e1.1.bytecode).len();
    lemma_read_u64_exact(b, p2, e1.1.balance, e2.1.balance);
    lemma_read_u64_exact(b, p2 + 8, e1.1.datastore.len() as u64, e2.1.datastore.len() as u64);
    let n = e1.1.datastore.len() as u64;
    assert(pairs_fit(e1.1.datastore));
    assert(pairs_fit(e2.1.datastore));
    lemma_pairs_unique(b, p2 + 16, n, e1.1.datastore, e2.1.datastore, n as int);
    assert(e1.1.datastore.take(n as int) =~= e1.1.datastore);
    assert(e2.1.datastore.take(n as int) =~= e2.1.datastore);
}

proof fn lemma_accounts_unique(b: Seq<u8>, pos: int, t1: Table, t2: Table, i: int)
    requires
        t1.len() == t2.len(),
        table_fits(t1),
        table_fits(t2),
        at(b, pos, enc_accounts(t1)),
        at(b, pos, enc_accounts(t2)),
        0 <= i <= t1.len(),
    ensures
        t1.take(i) == t2.take(i),
    decreases i,
{
    if i == 0 {
        assert(t1.take(0) =~= t2.take(0));
    } else {
        let j = i - 1;
        lemma_accounts_unique(b, pos, t1, t2, j);
        lemma_at_accounts(b, pos, t1, j);
        lemma_at_accounts(b, pos, t2, j);
        assert(account_fits(t1[j]));
        assert(account_fits(t2[j]));
        lemma_account_unique(b, pos + enc_accounts(t1.take(j)).len(), t1[j], t2[j]);
        assert(t1.take(i) =~= t1.take(j).push(t1[j]));
        assert(t2.take(i) =~= t2.take(j).push(t2[j]));
    }
}

/// Snapshot bytes determine the table they encode: loading what was saved gives
/// back exactly the saved addresses, bytecode, datastore contents and balances.
pub proof fn lemma_snapshot_round_trip(b: Seq<u8>, t: Table, u: Table)
    requires
        encodes(b, t),
        encodes(b, u),
    ensures
        t == u,
{
    lemma_auto_spec_u64_to_from_le_bytes();
    assert(b.subrange(0, b.len() as int) =~= b);
    lemma_at_split(b, 0, enc_u64(t.len() as u64), enc_accounts(t));
    lemma_at_split(b, 0, enc_u64(u.len() as u64), enc_accounts(u));
    lemma_read_u64_exact(b, 0, t.len() as u64, u.len() as u64);
    lemma_accounts_unique(b, 8, t, u, t.len() as int);
    assert(t.take(t.len() as int) =~= t);
    assert(u.take(u.len() as int) =~= u);
}

} // verus!
