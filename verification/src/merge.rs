//! The snapshot merger.
//!
//! Combines the seeded contract set — each registered contract with its
//! runtime byte-code, zero balance and empty storage — with the consolidated
//! delta of the bootstrap execution into the final genesis snapshot. The
//! privileged funding account is removed from the delta before merging and
//! never appears in the snapshot. A third artifact, the byte-code map, lists
//! exactly the snapshot entries that carry code.

use vstd::prelude::*;
use crate::account::{Account, AccountView, WorldStateView, lemma_accounts_membership};
use crate::address::{Address, spec_system_address};
use crate::engine::{DeltaEntry, StateDelta, spec_apply_slots};
use crate::registry::{SystemContractRecord, system_caller_address, SYSTEM_CALLER_TAIL};

verus! {

/// The registry's addresses, in registry order.
pub open spec fn spec_addresses_of(regs: Seq<SystemContractRecord>) -> Seq<Seq<u8>> {
    regs.map_values(|r: SystemContractRecord| r.address@)
}

/// The byte contents of a list of code blobs.
pub open spec fn spec_code_views(codes: Seq<Vec<u8>>) -> Seq<Seq<u8>> {
    codes.map_values(|c: Vec<u8>| c@)
}

/// The seeded contract set as a mapping: each registered contract's address
/// to an account with its runtime byte-code, zero balance, zero nonce and
/// empty storage.
pub open spec fn spec_seeded_map(
    addrs: Seq<Seq<u8>>,
    codes: Seq<Seq<u8>>,
) -> Map<Seq<u8>, AccountView>
    decreases addrs.len(),
{
    if addrs.len() == 0 {
        Map::empty()
    } else {
        spec_seeded_map(addrs.drop_last(), codes.drop_last()).insert(
            addrs.last(),
            AccountView { balance: 0, nonce: 0, code: Some(codes.last()), storage: Map::empty() },
        )
    }
}

/// The snapshot after merging one delta entry: the funding account and
/// entries whose account ended absent are dropped; anything else replaces
/// the account's info wholesale, with the written slots' final values as
/// its storage (seeded storage is empty).
pub open spec fn spec_merge_entry(m: Map<Seq<u8>, AccountView>, e: &DeltaEntry) -> Map<
    Seq<u8>,
    AccountView,
> {
    if e.address@ == spec_system_address(SYSTEM_CALLER_TAIL) {
        m
    } else {
        match &e.post {
            None => m,
            Some(info) => m.insert(
                e.address@,
                AccountView {
                    balance: info.balance.as_nat(),
                    nonce: info.nonce as nat,
                    code: match info.code {
                        Some(c) => Some(c@),
                        None => None,
                    },
                    storage: spec_apply_slots(
                        if m.contains_key(e.address@) {
                            m[e.address@].storage
                        } else {
                            Map::<nat, nat>::empty()
                        },
                        e.slots@,
                    ),
                },
            ),
        }
    }
}

/// The snapshot after merging a delta's entries in order over the seeded
/// contract set.
pub open spec fn spec_merged(
    addrs: Seq<Seq<u8>>,
    codes: Seq<Seq<u8>>,
    entries: Seq<DeltaEntry>,
) -> Map<Seq<u8>, AccountView>
    decreases entries.len(),
{
    if entries.len() == 0 {
        spec_seeded_map(addrs, codes)
    } else {
        spec_merge_entry(spec_merged(addrs, codes, entries.drop_last()), &entries.last())
    }
}

/// The privileged funding account never appears in the merged snapshot,
/// whatever the delta holds: the seeded set cannot contain it, and merging
/// drops every delta entry for it.
pub proof fn lemma_merged_no_funding_account(
    addrs: Seq<Seq<u8>>,
    codes: Seq<Seq<u8>>,
    entries: Seq<DeltaEntry>,
)
    requires
        forall|i: int|
            0 <= i < addrs.len() ==> #[trigger] addrs[i] != spec_system_address(
                SYSTEM_CALLER_TAIL,
            ),
    ensures
        !spec_merged(addrs, codes, entries).contains_key(
            spec_system_address(SYSTEM_CALLER_TAIL),
        ),
    decreases entries.len(),
{
    if entries.len() == 0 {
        lemma_seeded_no_funding_account(addrs, codes);
    } else {
        lemma_merged_no_funding_account(addrs, codes, entries.drop_last());
    }
}

/// The seeded set holds no funding account.
proof fn lemma_seeded_no_funding_account(addrs: Seq<Seq<u8>>, codes: Seq<Seq<u8>>)
    requires
        forall|i: int|
            0 <= i < addrs.len() ==> #[trigger] addrs[i] != spec_system_address(
                SYSTEM_CALLER_TAIL,
            ),
    ensures
        !spec_seeded_map(addrs, codes).contains_key(spec_system_address(SYSTEM_CALLER_TAIL)),
    decreases addrs.len(),
{
    if addrs.len() > 0 {
        lemma_seeded_no_funding_account(addrs.drop_last(), codes.drop_last());
    }
}

/// Merge the delta of the bootstrap execution into the seeded contract set.
///
/// `codes` holds each registered contract's decoded runtime byte-code, in
/// registry order. The funding account is dropped from the delta; every
/// other touched address overrides or extends the seeded set as one new
/// snapshot entry.
pub fn merge_snapshot(
    registry: &Vec<SystemContractRecord>,
    codes: &Vec<Vec<u8>>,
    delta: &StateDelta,
) -> (r: WorldStateView)
    requires
        registry@.len() == codes@.len(),
        forall|i: int| 0 <= i < registry@.len() ==> (#[trigger] registry@[i]).address.wf(),
        forall|i: int, j: int|
            0 <= i < j < registry@.len() ==> (#[trigger] registry@[i]).address@ != (
            #[trigger] registry@[j]).address@,
        forall|i: int|
            0 <= i < registry@.len() ==> (#[trigger] registry@[i]).address@ != spec_system_address(
                SYSTEM_CALLER_TAIL,
            ),
        delta.wf(),
    ensures
        r.wf(),
        r@ == spec_merged(spec_addresses_of(registry@), spec_code_views(codes@), delta.entries@),
        !r@.contains_key(spec_system_address(SYSTEM_CALLER_TAIL)),
{
    let mut view = WorldStateView::new();
    let mut i: usize = 0;
    while i < registry.len()
        invariant
            i <= registry@.len(),
            registry@.len() == codes@.len(),
            view.wf(),
            forall|n: int| 0 <= n < registry@.len() ==> (#[trigger] registry@[n]).address.wf(),
            view@ == spec_seeded_map(
                spec_addresses_of(registry@).take(i as int),
                spec_code_views(codes@).take(i as int),
            ),
        decreases registry@.len() - i,
    {
        let mut account = Account::empty();
        account.code = Some(crate::account::copy_bytes(&codes[i]));
        view.set_account(&registry[i].address, account);
        proof {
            let addrs = spec_addresses_of(registry@);
            let cviews = spec_code_views(codes@);
            assert(addrs.take(i + 1).drop_last() =~= addrs.take(i as int));
            assert(cviews.take(i + 1).drop_last() =~= cviews.take(i as int));
            assert(addrs.take(i + 1).last() == registry@[i as int].address@);
            assert(cviews.take(i + 1).last() == codes@[i as int]@);
        }
        i = i + 1;
    }
    proof {
        assert(spec_addresses_of(registry@).take(registry@.len() as int) =~= spec_addresses_of(
            registry@,
        ));
        assert(spec_code_views(codes@).take(codes@.len() as int) =~= spec_code_views(codes@));
    }
    let caller = system_caller_address();
    let mut j: usize = 0;
    while j < delta.entries.len()
        invariant
            j <= delta.entries@.len(),
            registry@.len() == codes@.len(),
            view.wf(),
            delta.wf(),
            caller@ == spec_system_address(SYSTEM_CALLER_TAIL),
            view@ == spec_merged(
                spec_addresses_of(registry@),
                spec_code_views(codes@),
                delta.entries@.take(j as int),
            ),
        decreases delta.entries@.len() - j,
    {
        proof {
            assert(delta.entries@.take(j + 1).drop_last() =~= delta.entries@.take(j as int));
            assert(delta.entries@.take(j + 1).last() == delta.entries@[j as int]);
            assert(delta.entries@[j as int].wf());
        }
        let e = &delta.entries[j];
        if !e.address.eq_addr(&caller) {
            match &e.post {
                None => {},
                Some(info) => {
                    let mut account = match view.get_account(&e.address) {
                        Some(prior) => {
                            let mut base = prior.dup();
                            base
                        },
                        None => Account::empty(),
                    };
                    account.balance = info.balance;
                    account.nonce = info.nonce;
                    account.code = match &info.code {
                        Some(c) => Some(crate::account::copy_bytes(c)),
                        None => None,
                    };
                    let ghost base_storage = account@.storage;
                    proof {
                        if !view@.contains_key(e.address@) {
                            assert(base_storage =~= Map::<nat, nat>::empty());
                        }
                    }
                    let mut k: usize = 0;
                    while k < e.slots.len()
                        invariant
                            k <= e.slots@.len(),
                            account.wf(),
                            j < delta.entries@.len(),
                            e == &delta.entries@[j as int],
                            delta.entries@[j as int].wf(),
                            e.post is Some,
                            account@.balance == e.post.unwrap().balance.as_nat(),
                            account@.nonce == e.post.unwrap().nonce as nat,
                            account@.code == (match e.post.unwrap().code {
                                Some(c) => Some::<Seq<u8>>(c@),
                                None => None::<Seq<u8>>,
                            }),
                            account@.storage == spec_apply_slots(
                                base_storage,
                                e.slots@.take(k as int),
                            ),
                        decreases e.slots@.len() - k,
                    {
                        let slot = &e.slots[k];
                        account.storage_set(slot.key, slot.present);
                        proof {
                            assert(e.slots@.take(k + 1).drop_last() =~= e.slots@.take(k as int));
                            assert(e.slots@.take(k + 1).last() == e.slots@[k as int]);
                        }
                        k = k + 1;
                    }
                    proof {
                        assert(e.slots@.take(e.slots@.len() as int) =~= e.slots@);
                    }
                    view.set_account(&e.address, account);
                },
            }
        }
        j = j + 1;
    }
    proof {
        assert(delta.entries@.take(delta.entries@.len() as int) =~= delta.entries@);
        assert(forall|i: int|
            0 <= i < spec_addresses_of(registry@).len() ==> #[trigger] spec_addresses_of(
                registry@,
            )[i] != spec_system_address(SYSTEM_CALLER_TAIL));
        lemma_merged_no_funding_account(
            spec_addresses_of(registry@),
            spec_code_views(codes@),
            delta.entries@,
        );
    }
    view
}

/// The code the seeded set installs at an address, the later record
/// winning.
pub open spec fn spec_seeded_code(addrs: Seq<Seq<u8>>, codes: Seq<Seq<u8>>, a: Seq<u8>) -> Option<
    Seq<u8>,
>
    decreases addrs.len(),
{
    if addrs.len() == 0 {
        None
    } else if addrs.last() == a {
        Some(codes.last())
    } else {
        spec_seeded_code(addrs.drop_last(), codes.drop_last(), a)
    }
}

/// The code the merged snapshot is owed at an address: the last merged
/// delta entry for it if one lands in the snapshot, else the seeded code.
pub open spec fn spec_code_source(
    addrs: Seq<Seq<u8>>,
    codes: Seq<Seq<u8>>,
    entries: Seq<DeltaEntry>,
    a: Seq<u8>,
) -> Option<Seq<u8>>
    decreases entries.len(),
{
    if entries.len() == 0 {
        spec_seeded_code(addrs, codes, a)
    } else {
        let e = entries.last();
        if e.address@ == a && a != spec_system_address(SYSTEM_CALLER_TAIL) && e.post is Some {
            match e.post.unwrap().code {
                Some(c) => Some(c@),
                None => None,
            }
        } else {
            spec_code_source(addrs, codes, entries.drop_last(), a)
        }
    }
}

/// The seeded set's code at an address is the seeded source.
proof fn lemma_seeded_code(addrs: Seq<Seq<u8>>, codes: Seq<Seq<u8>>, a: Seq<u8>)
    ensures
        match spec_seeded_code(addrs, codes, a) {
            Some(c) => spec_seeded_map(addrs, codes).contains_key(a) && spec_seeded_map(
                addrs,
                codes,
            )[a].code == Some(c),
            None => !spec_seeded_map(addrs, codes).contains_key(a),
        },
    decreases addrs.len(),
{
    if addrs.len() > 0 && addrs.last() != a {
        lemma_seeded_code(addrs.drop_last(), codes.drop_last(), a);
    }
}

/// Merging a delta into the seeded set and then reading back the code at
/// any address reproduces exactly the code that was seeded or freshly
/// deployed there: the last delta entry's posterior code where one lands in
/// the snapshot, the seeded runtime byte-code where none does, and nothing
/// anywhere else — no code is lost, invented or duplicated. Together with
/// the byte-code map derivation, which lists exactly the snapshot entries
/// carrying code, this closes the round trip from seeding through merging
/// to the emitted byte-code artifact.
pub proof fn lemma_code_round_trip(
    addrs: Seq<Seq<u8>>,
    codes: Seq<Seq<u8>>,
    entries: Seq<DeltaEntry>,
    a: Seq<u8>,
)
    ensures
        match spec_code_source(addrs, codes, entries, a) {
            Some(c) => spec_merged(addrs, codes, entries).contains_key(a) && spec_merged(
                addrs,
                codes,
                entries,
            )[a].code == Some(c),
            None => !spec_merged(addrs, codes, entries).contains_key(a) || spec_merged(
                addrs,
                codes,
                entries,
            )[a].code is None,
        },
    decreases entries.len(),
{
    if entries.len() == 0 {
        lemma_seeded_code(addrs, codes, a);
    } else {
        let e = entries.last();
        if e.address@ == a && a != spec_system_address(SYSTEM_CALLER_TAIL) && e.post is Some {
        } else {
            lemma_code_round_trip(addrs, codes, entries.drop_last(), a);
        }
    }
}

/// Derive the byte-code map: exactly the snapshot entries that carry code,
/// each address once, with its code bytes.
pub fn derive_bytecode_map(snapshot: &WorldStateView) -> (r: Vec<(Address, Vec<u8>)>)
    requires
        snapshot.wf(),
    ensures
        forall|n: int, m: int|
            0 <= n < m < r@.len() ==> (#[trigger] r@[n]).0@ != (#[trigger] r@[m]).0@,
        forall|n: int|
            0 <= n < r@.len() ==> snapshot@.contains_key((#[trigger] r@[n]).0@)
                && snapshot@[r@[n].0@].code == Some(r@[n].1@),
        forall|a: Seq<u8>|
            snapshot@.contains_key(a) && snapshot@[a].code is Some ==> exists|n: int|
                0 <= n < r@.len() && (#[trigger] r@[n]).0@ == a,
{
    let mut r: Vec<(Address, Vec<u8>)> = Vec::new();
    let mut i: usize = 0;
    while i < snapshot.accounts.len()
        invariant
            i <= snapshot.accounts@.len(),
            snapshot.wf(),
            forall|n: int, m: int|
                0 <= n < m < r@.len() ==> (#[trigger] r@[n]).0@ != (#[trigger] r@[m]).0@,
            forall|n: int|
                0 <= n < r@.len() ==> snapshot@.contains_key((#[trigger] r@[n]).0@)
                    && snapshot@[r@[n].0@].code == Some(r@[n].1@),
            forall|n: int|
                0 <= n < r@.len() ==> exists|m: int|
                    0 <= m < i && (#[trigger] r@[n]).0@ == snapshot.accounts@[m].0@,
            forall|m: int|
                0 <= m < i && (#[trigger] snapshot.accounts@[m]).1.code is Some ==> exists|n: int|
                    0 <= n < r@.len() && (#[trigger] r@[n]).0@ == snapshot.accounts@[m].0@,
        decreases snapshot.accounts@.len() - i,
    {
        let entry = &snapshot.accounts[i];
        let ghost r_pre = r@;
        match &entry.1.code {
            Some(c) => {
                proof {
                    crate::account::lemma_accounts_index(snapshot.accounts@, i as int);
                    assert forall|n: int| 0 <= n < r@.len() implies (#[trigger] r@[n]).0@
                        != snapshot.accounts@[i as int].0@ by {
                        let m = choose|m: int|
                            0 <= m < i && (#[trigger] r@[n]).0@ == snapshot.accounts@[m].0@;
                        assert(snapshot.accounts@[m].0@ != snapshot.accounts@[i as int].0@);
                    }
                }
                r.push((entry.0.dup(), crate::account::copy_bytes(c)));
                proof {
                    assert(r@.last().0@ == snapshot.accounts@[i as int].0@);
                    assert(forall|n: int| 0 <= n < r_pre.len() ==> r@[n] == r_pre[n]);
                    assert forall|m: int|
                        0 <= m < i + 1 && (#[trigger] snapshot.accounts@[m]).1.code
                            is Some implies exists|n: int|
                        0 <= n < r@.len() && (#[trigger] r@[n]).0@
                            == snapshot.accounts@[m].0@ by {
                        if m < i {
                            let n = choose|n: int|
                                0 <= n < r_pre.len() && (#[trigger] r_pre[n]).0@
                                    == snapshot.accounts@[m].0@;
                            assert(r@[n].0@ == snapshot.accounts@[m].0@);
                        } else {
                            assert(r@[r@.len() - 1].0@ == snapshot.accounts@[m].0@);
                        }
                    }
                }
            },
            None => {
                proof {
                    crate::account::lemma_accounts_index(snapshot.accounts@, i as int);
                }
            },
        }
        i = i + 1;
    }
    proof {
        assert forall|a: Seq<u8>|
            snapshot@.contains_key(a) && snapshot@[a].code is Some implies exists|n: int|
            0 <= n < r@.len() && (#[trigger] r@[n]).0@ == a by {
            lemma_accounts_membership(snapshot.accounts@, a);
            let m = choose|m: int|
                0 <= m < snapshot.accounts@.len() && (#[trigger] snapshot.accounts@[m]).0@ == a;
            crate::account::lemma_accounts_index(snapshot.accounts@, m);
            assert(snapshot.accounts@[m].1.code is Some);
        }
    }
    r
}

} // verus!
