//! Accounts and the world-state view.
//!
//! The world-state view is the in-memory ledger used as a staging area for
//! one run: a mapping from 20-byte addresses to accounts, stored as a list of
//! entries with distinct addresses. An absent address means the empty
//! account. The merged genesis snapshot uses the same representation.

use vstd::prelude::*;
use crate::address::Address;
use crate::u256::U256;

verus! {

/// Mathematical content of one account.
pub ghost struct AccountView {
    pub balance: nat,
    pub nonce: nat,
    pub code: Option<Seq<u8>>,
    pub storage: Map<nat, nat>,
}

/// One account of the ledger.
#[derive(Debug)]
pub struct Account {
    pub balance: U256,
    pub nonce: u64,
    pub code: Option<Vec<u8>>,
    pub storage: Vec<(U256, U256)>,
}

/// The mapping denoted by a list of storage slots, later entries winning.
pub open spec fn storage_as_map(s: Seq<(U256, U256)>) -> Map<nat, nat>
    decreases s.len(),
{
    if s.len() == 0 {
        Map::empty()
    } else {
        storage_as_map(s.drop_last()).insert(s.last().0.as_nat(), s.last().1.as_nat())
    }
}

/// Distinct keys in a slot list.
pub open spec fn storage_keys_unique(s: Seq<(U256, U256)>) -> bool {
    forall|i: int, j: int|
        0 <= i < j < s.len() ==> (#[trigger] s[i]).0.as_nat() != (#[trigger] s[j]).0.as_nat()
}

impl View for Account {
    type V = AccountView;

    open spec fn view(&self) -> AccountView {
        AccountView {
            balance: self.balance.as_nat(),
            nonce: self.nonce as nat,
            code: match self.code {
                Some(c) => Some(c@),
                None => None,
            },
            storage: storage_as_map(self.storage@),
        }
    }
}

impl Account {
    /// A well-formed account lists each storage key once.
    pub open spec fn wf(&self) -> bool {
        storage_keys_unique(self.storage@)
    }

    /// The empty account: zero balance, zero nonce, no code, no storage.
    pub fn empty() -> (r: Account)
        ensures
            r@.balance == 0,
            r@.nonce == 0,
            r@.code is None,
            r@.storage == Map::<nat, nat>::empty(),
            r.wf(),
    {
        Account { balance: U256::zero(), nonce: 0, code: None, storage: Vec::new() }
    }

    /// An identical copy.
    pub fn dup(&self) -> (r: Account)
        ensures
            r@ == self@,
            r.storage@ == self.storage@,
            r.code matches Some(c) ==> self.code matches Some(d) && c@ == d@,
            self.wf() ==> r.wf(),
    {
        let code = match &self.code {
            Some(c) => Some(copy_bytes(c)),
            None => None,
        };
        let mut storage: Vec<(U256, U256)> = Vec::new();
        let mut i: usize = 0;
        while i < self.storage.len()
            invariant
                i <= self.storage@.len(),
                storage@ =~= self.storage@.take(i as int),
            decreases self.storage@.len() - i,
        {
            let (k, v) = self.storage[i];
            storage.push((k, v));
            proof {
                assert(storage@ =~= self.storage@.take(i + 1));
            }
            i = i + 1;
        }
        proof {
            assert(self.storage@.take(self.storage@.len() as int) =~= self.storage@);
        }
        let r = Account { balance: self.balance, nonce: self.nonce, code, storage };
        proof {
            assert(r@.code == self@.code);
            assert(r@ == self@);
        }
        r
    }

    /// Read one storage slot, zero when absent.
    pub fn storage_get(&self, key: &U256) -> (r: U256)
        ensures
            r.as_nat() == if self@.storage.contains_key(key.as_nat()) {
                self@.storage[key.as_nat()]
            } else {
                0
            },
    {
        let mut i: usize = self.storage.len();
        proof {
            lemma_storage_suffix_absent(self.storage@, self.storage@.len() as int, key.as_nat());
        }
        while i > 0
            invariant
                i <= self.storage@.len(),
                forall|j: int| i <= j < self.storage@.len() ==> (#[trigger] self.storage@[j]).0.as_nat()
                    != key.as_nat(),
            decreases i,
        {
            i = i - 1;
            let (k, v) = self.storage[i];
            if k.l0 == key.l0 && k.l1 == key.l1 && k.l2 == key.l2 && k.l3 == key.l3 {
                proof {
                    lemma_storage_find(self.storage@, i as int, key.as_nat());
                }
                return v;
            }
        }
        proof {
            lemma_storage_all_absent(self.storage@, key.as_nat());
        }
        U256::zero()
    }

    /// Write one storage slot, replacing an existing entry for the key.
    pub fn storage_set(&mut self, key: U256, value: U256)
        requires
            old(self).wf(),
        ensures
            final(self).wf(),
            final(self)@.storage == old(self)@.storage.insert(key.as_nat(), value.as_nat()),
            final(self)@.balance == old(self)@.balance,
            final(self)@.nonce == old(self)@.nonce,
            final(self)@.code == old(self)@.code,
    {
        let ghost pre = self.storage@;
        match storage_find(&self.storage, &key) {
            Some(i) => {
                self.storage[i] = (key, value);
                proof {
                    lemma_storage_update(pre, i as int, key, value);
                    assert(self.storage@ == pre.update(i as int, (key, value)));
                    assert forall|a: int, b: int|
                        0 <= a < b < self.storage@.len() implies (
                    #[trigger] self.storage@[a]).0.as_nat() != (
                    #[trigger] self.storage@[b]).0.as_nat() by {
                        assert(pre[a].0.as_nat() != pre[b].0.as_nat());
                        if a == i {
                            assert(self.storage@[a].0.as_nat() == pre[i as int].0.as_nat());
                        }
                        if b == i {
                            assert(self.storage@[b].0.as_nat() == pre[i as int].0.as_nat());
                        }
                    }
                }
            },
            None => {
                proof {
                    lemma_storage_all_absent(pre, key.as_nat());
                }
                self.storage.push((key, value));
                proof {
                    assert(self.storage@.drop_last() =~= pre);
                    assert(self.storage@.last() == (key, value));
                    assert forall|a: int, b: int|
                        0 <= a < b < self.storage@.len() implies (
                    #[trigger] self.storage@[a]).0.as_nat() != (
                    #[trigger] self.storage@[b]).0.as_nat() by {
                        if b == self.storage@.len() - 1 {
                            assert(self.storage@[a] == pre[a]);
                        } else {
                            assert(self.storage@[a] == pre[a]);
                            assert(self.storage@[b] == pre[b]);
                        }
                    }
                }
            },
        }
    }
}

/// Find the position of a storage key, if listed.
#[verifier::rlimit(100)]
fn storage_find(s: &Vec<(U256, U256)>, key: &U256) -> (r: Option<usize>)
    ensures
        match r {
            Some(i) => i < s@.len() && s@[i as int].0.as_nat() == key.as_nat(),
            None => forall|j: int|
                0 <= j < s@.len() ==> (#[trigger] s@[j]).0.as_nat() != key.as_nat(),
        },
{
    let mut i: usize = 0;
    while i < s.len()
        invariant
            i <= s@.len(),
            forall|j: int| 0 <= j < i ==> (#[trigger] s@[j]).0.as_nat() != key.as_nat(),
        decreases s@.len() - i,
    {
        let k = s[i].0;
        if k.l0 == key.l0 && k.l1 == key.l1 && k.l2 == key.l2 && k.l3 == key.l3 {
            proof {
                assert(s@[i as int].0.as_nat() == key.as_nat());
            }
            return Some(i);
        }
        i = i + 1;
    }
    None
}

/// Copy a byte vector.
pub fn copy_bytes(v: &Vec<u8>) -> (r: Vec<u8>)
    ensures
        r@ == v@,
{
    let mut out: Vec<u8> = Vec::new();
    let mut i: usize = 0;
    while i < v.len()
        invariant
            i <= v@.len(),
            out@ =~= v@.take(i as int),
        decreases v@.len() - i,
    {
        out.push(v[i]);
        proof {
            assert(out@ =~= v@.take(i + 1));
        }
        i = i + 1;
    }
    proof {
        assert(v@.take(v@.len() as int) =~= v@);
    }
    out
}

/// If no entry from position `i` on has the key, the key's mapping is
/// settled by the first `i` entries.
proof fn lemma_storage_suffix_absent(s: Seq<(U256, U256)>, i: int, key: nat)
    requires
        0 <= i <= s.len(),
        forall|j: int| i <= j < s.len() ==> (#[trigger] s[j]).0.as_nat() != key,
    ensures
        storage_as_map(s).contains_key(key) == storage_as_map(s.take(i)).contains_key(key),
        storage_as_map(s).contains_key(key) ==> storage_as_map(s)[key] == storage_as_map(s.take(i))[key],
    decreases s.len() - i,
{
    if i < s.len() {
        lemma_storage_suffix_absent(s, i + 1, key);
        let t = s.take(i + 1);
        assert(t.drop_last() =~= s.take(i));
        assert(t.last() == s[i]);
    } else {
        assert(s.take(i) =~= s);
    }
}

/// An entry with the key, after which no other entry has the key, settles
/// the key's mapping.
proof fn lemma_storage_find(s: Seq<(U256, U256)>, i: int, key: nat)
    requires
        0 <= i < s.len(),
        s[i].0.as_nat() == key,
        forall|j: int| i < j < s.len() ==> (#[trigger] s[j]).0.as_nat() != key,
    ensures
        storage_as_map(s).contains_key(key),
        storage_as_map(s)[key] == s[i].1.as_nat(),
    decreases s.len(),
{
    let t = s.take(i + 1);
    lemma_storage_suffix_absent(s, i + 1, key);
    assert(t.drop_last() =~= s.take(i));
    assert(t.last() == s[i]);
}

/// A key held by no entry is not in the mapping.
proof fn lemma_storage_all_absent(s: Seq<(U256, U256)>, key: nat)
    requires
        forall|j: int| 0 <= j < s.len() ==> (#[trigger] s[j]).0.as_nat() != key,
    ensures
        !storage_as_map(s).contains_key(key),
    decreases s.len(),
{
    if s.len() > 0 {
        lemma_storage_all_absent(s.drop_last(), key);
    }
}

/// The in-memory ledger: accounts keyed by address, each address at most
/// once. An absent address means the empty account. The merged genesis
/// snapshot is the same shape.
#[derive(Debug)]
pub struct WorldStateView {
    pub accounts: Vec<(Address, Account)>,
}

/// The mapping denoted by a list of account entries, later entries winning.
pub open spec fn accounts_as_map(s: Seq<(Address, Account)>) -> Map<Seq<u8>, AccountView>
    decreases s.len(),
{
    if s.len() == 0 {
        Map::empty()
    } else {
        accounts_as_map(s.drop_last()).insert(s.last().0@, s.last().1@)
    }
}

/// Distinct addresses in an entry list.
pub open spec fn account_addrs_unique(s: Seq<(Address, Account)>) -> bool {
    forall|i: int, j: int| 0 <= i < j < s.len() ==> (#[trigger] s[i]).0@ != (#[trigger] s[j]).0@
}

impl View for WorldStateView {
    type V = Map<Seq<u8>, AccountView>;

    open spec fn view(&self) -> Map<Seq<u8>, AccountView> {
        accounts_as_map(self.accounts@)
    }
}

impl WorldStateView {
    /// Well-formed: one entry per address, 20-byte addresses, well-formed
    /// accounts.
    pub open spec fn wf(&self) -> bool {
        &&& account_addrs_unique(self.accounts@)
        &&& forall|i: int|
            0 <= i < self.accounts@.len() ==> (#[trigger] self.accounts@[i]).0.wf()
                && self.accounts@[i].1.wf()
    }

    /// The empty ledger.
    pub fn new() -> (r: WorldStateView)
        ensures
            r@ == Map::<Seq<u8>, AccountView>::empty(),
            r.wf(),
    {
        WorldStateView { accounts: Vec::new() }
    }

    /// Read an account, `None` when the address is absent.
    pub fn get_account(&self, addr: &Address) -> (r: Option<&Account>)
        requires
            self.wf(),
        ensures
            match r {
                Some(a) => self@.contains_key(addr@) && a@ == self@[addr@] && a.wf(),
                None => !self@.contains_key(addr@),
            },
    {
        let mut i: usize = 0;
        while i < self.accounts.len()
            invariant
                i <= self.accounts@.len(),
                self.wf(),
                forall|j: int| 0 <= j < i ==> (#[trigger] self.accounts@[j]).0@ != addr@,
            decreases self.accounts@.len() - i,
        {
            if self.accounts[i].0.eq_addr(addr) {
                proof {
                    lemma_accounts_find(self.accounts@, i as int, addr@);
                }
                return Some(&self.accounts[i].1);
            }
            i = i + 1;
        }
        proof {
            lemma_accounts_all_absent(self.accounts@, addr@);
        }
        None
    }

    /// Install an account, replacing any existing entry for the address.
    pub fn set_account(&mut self, addr: &Address, account: Account)
        requires
            old(self).wf(),
            addr.wf(),
            account.wf(),
        ensures
            final(self).wf(),
            final(self)@ == old(self)@.insert(addr@, account@),
    {
        let ghost pre = self.accounts@;
        let mut i: usize = 0;
        while i < self.accounts.len()
            invariant
                i <= self.accounts@.len(),
                self.accounts@ == pre,
                pre == old(self).accounts@,
                old(self).wf(),
                addr.wf(),
                account.wf(),
                forall|j: int| 0 <= j < i ==> (#[trigger] pre[j]).0@ != addr@,
            decreases self.accounts@.len() - i,
        {
            if self.accounts[i].0.eq_addr(addr) {
                let a = addr.dup();
                self.accounts[i] = (a, account);
                proof {
                    lemma_accounts_update(pre, i as int, self.accounts@[i as int].0, self.accounts@[i as int].1);
                    assert(self.accounts@ == pre.update(
                        i as int,
                        (self.accounts@[i as int].0, self.accounts@[i as int].1),
                    ));
                    assert forall|a2: int, b2: int|
                        0 <= a2 < b2 < self.accounts@.len() implies (
                    #[trigger] self.accounts@[a2]).0@ != (#[trigger] self.accounts@[b2]).0@ by {
                        assert(pre[a2].0@ != pre[b2].0@);
                        if a2 == i {
                            assert(self.accounts@[a2].0@ == pre[i as int].0@);
                        }
                        if b2 == i {
                            assert(self.accounts@[b2].0@ == pre[i as int].0@);
                        }
                    }
                    assert(forall|j: int|
                        0 <= j < self.accounts@.len() ==> (#[trigger] self.accounts@[j]).0.wf()
                            && self.accounts@[j].1.wf());
                }
                return;
            }
            i = i + 1;
        }
        proof {
            lemma_accounts_all_absent(pre, addr@);
        }
        let a = addr.dup();
        self.accounts.push((a, account));
        proof {
            assert(self.accounts@.drop_last() =~= pre);
            assert forall|a2: int, b2: int|
                0 <= a2 < b2 < self.accounts@.len() implies (#[trigger] self.accounts@[a2]).0@ != (
            #[trigger] self.accounts@[b2]).0@ by {
                if b2 == self.accounts@.len() - 1 {
                    assert(self.accounts@[a2] == pre[a2]);
                } else {
                    assert(self.accounts@[a2] == pre[a2]);
                    assert(self.accounts@[b2] == pre[b2]);
                }
            }
        }
    }

    /// The number of entries.
    pub fn len(&self) -> (r: usize)
        ensures
            r == self.accounts@.len(),
    {
        self.accounts.len()
    }

    /// An identical copy of the whole ledger.
    pub fn dup(&self) -> (r: WorldStateView)
        ensures
            r@ == self@,
            self.wf() ==> r.wf(),
    {
        let mut accounts: Vec<(Address, Account)> = Vec::new();
        let mut i: usize = 0;
        while i < self.accounts.len()
            invariant
                i <= self.accounts@.len(),
                accounts@.len() == i,
                forall|n: int|
                    0 <= n < i ==> (#[trigger] accounts@[n]).0@ == self.accounts@[n].0@
                        && accounts@[n].1@ == self.accounts@[n].1@ && (self.accounts@[n].0.wf()
                        ==> accounts@[n].0.wf()) && (self.accounts@[n].1.wf()
                        ==> accounts@[n].1.wf()),
            decreases self.accounts@.len() - i,
        {
            let entry = &self.accounts[i];
            accounts.push((entry.0.dup(), entry.1.dup()));
            i = i + 1;
        }
        let r = WorldStateView { accounts };
        proof {
            lemma_accounts_map_congruent(r.accounts@, self.accounts@);
        }
        r
    }

    /// Remove an account, leaving the address absent.
    pub fn remove_account(&mut self, addr: &Address)
        requires
            old(self).wf(),
        ensures
            final(self).wf(),
            final(self)@ == old(self)@.remove(addr@),
    {
        let ghost pre = self.accounts@;
        let mut i: usize = 0;
        while i < self.accounts.len()
            invariant
                i <= self.accounts@.len(),
                self.accounts@ == pre,
                pre == old(self).accounts@,
                old(self).wf(),
                forall|j: int| 0 <= j < i ==> (#[trigger] pre[j]).0@ != addr@,
            decreases self.accounts@.len() - i,
        {
            if self.accounts[i].0.eq_addr(addr) {
                self.accounts.remove(i);
                proof {
                    lemma_accounts_remove(pre, i as int);
                    assert(self.accounts@ =~= pre.remove(i as int));
                    assert forall|a2: int, b2: int|
                        0 <= a2 < b2 < self.accounts@.len() implies (
                    #[trigger] self.accounts@[a2]).0@ != (#[trigger] self.accounts@[b2]).0@ by {
                        let pa = if a2 < i { a2 } else { a2 + 1 };
                        let pb = if b2 < i { b2 } else { b2 + 1 };
                        assert(self.accounts@[a2] == pre[pa]);
                        assert(self.accounts@[b2] == pre[pb]);
                        assert(pre[pa].0@ != pre[pb].0@);
                    }
                }
                return;
            }
            i = i + 1;
        }
        proof {
            lemma_accounts_all_absent(pre, addr@);
            assert(accounts_as_map(pre).remove(addr@) =~= accounts_as_map(pre));
        }
    }
}

/// Removing the entry at the unique position of an address removes it from
/// the mapping.
proof fn lemma_accounts_remove(s: Seq<(Address, Account)>, i: int)
    requires
        0 <= i < s.len(),
        account_addrs_unique(s),
    ensures
        accounts_as_map(s.remove(i)) == accounts_as_map(s).remove(s[i].0@),
    decreases s.len(),
{
    let u = s.remove(i);
    if i == s.len() - 1 {
        assert(u =~= s.drop_last());
        lemma_accounts_all_absent_prefix(s, i);
        assert(accounts_as_map(u).remove(s[i].0@) =~= accounts_as_map(u));
        assert(accounts_as_map(s).remove(s[i].0@) =~= accounts_as_map(s.drop_last()).insert(
            s.last().0@,
            s.last().1@,
        ).remove(s[i].0@));
        assert(accounts_as_map(s.drop_last()).insert(s.last().0@, s.last().1@).remove(s[i].0@)
            =~= accounts_as_map(s.drop_last()));
    } else {
        assert(u.drop_last() =~= s.drop_last().remove(i));
        assert(u.last() == s.last());
        lemma_accounts_remove(s.drop_last(), i);
        assert(s.drop_last()[i] == s[i]);
        assert(s.last().0@ != s[i].0@);
        assert(accounts_as_map(u) =~= accounts_as_map(s).remove(s[i].0@));
    }
}

/// In a unique entry list, an address at one position is held by no entry
/// before it.
proof fn lemma_accounts_all_absent_prefix(s: Seq<(Address, Account)>, i: int)
    requires
        0 <= i < s.len(),
        account_addrs_unique(s),
    ensures
        !accounts_as_map(s.take(i)).contains_key(s[i].0@),
{
    assert(forall|j: int| 0 <= j < i ==> (#[trigger] s.take(i)[j]).0@ == s[j].0@);
    lemma_accounts_all_absent(s.take(i), s[i].0@);
}

/// An entry with the address, after which no other entry has it, settles
/// the address's mapping.
proof fn lemma_accounts_find(s: Seq<(Address, Account)>, i: int, addr: Seq<u8>)
    requires
        0 <= i < s.len(),
        s[i].0@ == addr,
        forall|j: int| i < j < s.len() ==> (#[trigger] s[j]).0@ != addr,
    ensures
        accounts_as_map(s).contains_key(addr),
        accounts_as_map(s)[addr] == s[i].1@,
    decreases s.len(),
{
    lemma_accounts_suffix_absent(s, i + 1, addr);
    let t = s.take(i + 1);
    assert(t.drop_last() =~= s.take(i));
    assert(t.last() == s[i]);
}

/// If no entry from position `i` on has the address, the address's mapping
/// is settled by the first `i` entries.
proof fn lemma_accounts_suffix_absent(s: Seq<(Address, Account)>, i: int, addr: Seq<u8>)
    requires
        0 <= i <= s.len(),
        forall|j: int| i <= j < s.len() ==> (#[trigger] s[j]).0@ != addr,
    ensures
        accounts_as_map(s).contains_key(addr) == accounts_as_map(s.take(i)).contains_key(addr),
        accounts_as_map(s).contains_key(addr) ==> accounts_as_map(s)[addr] == accounts_as_map(
            s.take(i),
        )[addr],
    decreases s.len() - i,
{
    if i < s.len() {
        lemma_accounts_suffix_absent(s, i + 1, addr);
        let t = s.take(i + 1);
        assert(t.drop_last() =~= s.take(i));
        assert(t.last() == s[i]);
    } else {
        assert(s.take(i) =~= s);
    }
}

/// An address held by no entry is not in the mapping.
proof fn lemma_accounts_all_absent(s: Seq<(Address, Account)>, addr: Seq<u8>)
    requires
        forall|j: int| 0 <= j < s.len() ==> (#[trigger] s[j]).0@ != addr,
    ensures
        !accounts_as_map(s).contains_key(addr),
    decreases s.len(),
{
    if s.len() > 0 {
        lemma_accounts_all_absent(s.drop_last(), addr);
    }
}

/// Replacing the entry at the unique position of an address inserts over
/// the mapping.
proof fn lemma_accounts_update(s: Seq<(Address, Account)>, i: int, addr: Address, account: Account)
    requires
        0 <= i < s.len(),
        account_addrs_unique(s),
        s[i].0@ == addr@,
    ensures
        accounts_as_map(s.update(i, (addr, account))) == accounts_as_map(s).insert(
            addr@,
            account@,
        ),
    decreases s.len(),
{
    let u = s.update(i, (addr, account));
    if i == s.len() - 1 {
        assert(u.drop_last() =~= s.drop_last());
        assert(u.last() == (addr, account));
        assert(accounts_as_map(u) =~= accounts_as_map(s).insert(addr@, account@));
    } else {
        assert(u.drop_last() =~= s.drop_last().update(i, (addr, account)));
        assert(u.last() == s.last());
        lemma_accounts_update(s.drop_last(), i, addr, account);
        assert(s.last().0@ != addr@);
        assert(accounts_as_map(u) =~= accounts_as_map(s).insert(addr@, account@));
    }
}

/// Entry lists with the same address and account views denote the same
/// mapping.
proof fn lemma_accounts_map_congruent(s1: Seq<(Address, Account)>, s2: Seq<(Address, Account)>)
    requires
        s1.len() == s2.len(),
        forall|n: int|
            0 <= n < s1.len() ==> (#[trigger] s1[n]).0@ == s2[n].0@ && s1[n].1@ == s2[n].1@,
    ensures
        accounts_as_map(s1) == accounts_as_map(s2),
    decreases s1.len(),
{
    if s1.len() > 0 {
        lemma_accounts_map_congruent(s1.drop_last(), s2.drop_last());
        assert(s1.last().0@ == s2[s1.len() - 1].0@);
        assert(accounts_as_map(s1) =~= accounts_as_map(s2));
    } else {
        assert(accounts_as_map(s1) =~= accounts_as_map(s2));
    }
}

/// In a unique entry list, each entry settles its address's mapping.
pub proof fn lemma_accounts_index(s: Seq<(Address, Account)>, i: int)
    requires
        0 <= i < s.len(),
        account_addrs_unique(s),
    ensures
        accounts_as_map(s).contains_key(s[i].0@),
        accounts_as_map(s)[s[i].0@] == s[i].1@,
{
    lemma_accounts_find(s, i, s[i].0@);
}

/// Membership of the mapping comes exactly from the entries.
pub proof fn lemma_accounts_membership(s: Seq<(Address, Account)>, addr: Seq<u8>)
    ensures
        accounts_as_map(s).contains_key(addr) <==> exists|i: int|
            0 <= i < s.len() && (#[trigger] s[i]).0@ == addr,
    decreases s.len(),
{
    if s.len() > 0 {
        lemma_accounts_membership(s.drop_last(), addr);
        if s.last().0@ == addr {
            assert(s[s.len() - 1].0@ == addr);
        } else if accounts_as_map(s.drop_last()).contains_key(addr) {
            let i = choose|i: int| 0 <= i < s.len() - 1 && (#[trigger] s.drop_last()[i]).0@ == addr;
            assert(s[i].0@ == addr);
        } else if exists|i: int| 0 <= i < s.len() && (#[trigger] s[i]).0@ == addr {
            let i = choose|i: int| 0 <= i < s.len() && (#[trigger] s[i]).0@ == addr;
            assert(i < s.len() - 1);
            assert(s.drop_last()[i].0@ == addr);
        }
    }
}

/// Replacing the value at the unique position of a key inserts over the
/// mapping.
proof fn lemma_storage_update(s: Seq<(U256, U256)>, i: int, key: U256, value: U256)
    requires
        0 <= i < s.len(),
        storage_keys_unique(s),
        s[i].0.as_nat() == key.as_nat(),
    ensures
        storage_as_map(s.update(i, (key, value))) == storage_as_map(s).insert(
            key.as_nat(),
            value.as_nat(),
        ),
    decreases s.len(),
{
    let u = s.update(i, (key, value));
    if i == s.len() - 1 {
        assert(u.drop_last() =~= s.drop_last());
        assert(u.last() == (key, value));
        assert(storage_as_map(u) =~= storage_as_map(s).insert(key.as_nat(), value.as_nat()));
    } else {
        assert(u.drop_last() =~= s.drop_last().update(i, (key, value)));
        assert(u.last() == s.last());
        lemma_storage_update(s.drop_last(), i, key, value);
        assert(s.last().0.as_nat() != key.as_nat());
        assert(storage_as_map(u) =~= storage_as_map(s).insert(key.as_nat(), value.as_nat()));
    }
}

} // verus!
