//! The sequential execution engine.
//!
//! The engine owns the two correctness-critical duties of the bootstrap:
//! commit ordering — each transaction's reported writes are committed into
//! the working view before the next transaction runs — and delta
//! consolidation — the net change of the whole batch against the original
//! view, keeping entries for accounts and slots that were touched but ended
//! where they began, so audit data is not dropped. The virtual machine
//! itself is an outside collaborator: one trusted call executes a single
//! transaction against a database built from the current view and hands
//! back an outcome and account-level writes, about whose values nothing is
//! assumed.

use vstd::prelude::*;
use crate::account::{
    Account, AccountView, WorldStateView, storage_as_map, storage_keys_unique, copy_bytes,
};
use crate::address::Address;
use crate::outcome::{ExecutionOutcome, LogRecord};
use crate::txn::{TransactionEnvelope, TxTarget, ENV_GAS_BUDGET};
use crate::u256::U256;
use revm::database::{CacheDB, EmptyDBTyped, InMemoryDB};
use revm::context::result::{ExecutionResult, Output};
use revm::primitives::{Address as RevmAddress, KECCAK_EMPTY, TxKind, U256 as RevmU256};
use revm::state::{AccountInfo as RevmAccountInfo, Bytecode as RevmBytecode};
use revm::{ExecuteEvm, MainBuilder, MainContext};

verus! {

/// The execution environment of one batch: chain, gas budget and a
/// timestamp derived from the current time.
#[derive(Debug)]
pub struct ExecEnv {
    pub chain_id: u64,
    pub gas_limit: u64,
    pub timestamp: u64,
}

/// Relies on `std::time::SystemTime::now`: seconds since the epoch, zero if
/// the clock reads before it. Nothing is assumed about the value.
#[verifier::external_body]
fn now_seconds() -> u64 {
    std::time::SystemTime::now()
        .duration_since(std::time::UNIX_EPOCH)
        .map(|d| d.as_secs())
        .unwrap_or(0)
}

/// The environment for a bootstrap run: the given chain, the fixed gas
/// budget, and the current time as the block timestamp.
pub fn prepare_env(chain_id: u64) -> (r: ExecEnv)
    ensures
        r.chain_id == chain_id,
        r.gas_limit == ENV_GAS_BUDGET,
{
    ExecEnv { chain_id, gas_limit: ENV_GAS_BUDGET, timestamp: now_seconds() }
}

/// One account-level write reported by the virtual machine for one
/// transaction: the account's posterior info, the storage slots written
/// with their present values, and the status flags that govern committing.
#[derive(Debug)]
pub struct AccountWrite {
    pub address: Address,
    pub touched: bool,
    pub selfdestructed: bool,
    pub created: bool,
    pub balance: U256,
    pub nonce: u64,
    pub code: Option<Vec<u8>>,
    pub slots: Vec<(U256, U256)>,
}

impl AccountWrite {
    /// Well-formed: a 20-byte address and each written slot listed once.
    pub open spec fn wf(&self) -> bool {
        &&& self.address.wf()
        &&& storage_keys_unique(self.slots@)
    }
}

/// Well-formed writes of one transaction: each write well-formed, one write
/// per address.
pub open spec fn writes_wf(ws: Seq<AccountWrite>) -> bool {
    &&& forall|i: int| 0 <= i < ws.len() ==> (#[trigger] ws[i]).wf()
    &&& forall|i: int, j: int|
        0 <= i < j < ws.len() ==> (#[trigger] ws[i]).address@ != (#[trigger] ws[j]).address@
}

/// The account resulting from committing one write over a prior account's
/// storage: info replaced wholesale, storage extended by the written slots
/// (cleared first for a newly created account).
pub open spec fn spec_write_view(prior_storage: Map<nat, nat>, w: &AccountWrite) -> AccountView {
    AccountView {
        balance: w.balance.as_nat(),
        nonce: w.nonce as nat,
        code: match w.code {
            Some(c) => if c@.len() > 0 {
                Some(c@)
            } else {
                None
            },
            None => None,
        },
        storage: (if w.created {
            Map::<nat, nat>::empty()
        } else {
            prior_storage
        }).union_prefer_right(storage_as_map(w.slots@)),
    }
}

/// The ledger after committing one write: untouched writes change nothing,
/// a selfdestructed account becomes absent, anything else is replaced.
pub open spec fn spec_commit_write(m: Map<Seq<u8>, AccountView>, w: &AccountWrite) -> Map<
    Seq<u8>,
    AccountView,
> {
    if !w.touched {
        m
    } else if w.selfdestructed {
        m.remove(w.address@)
    } else {
        let prior_storage = if m.contains_key(w.address@) {
            m[w.address@].storage
        } else {
            Map::<nat, nat>::empty()
        };
        m.insert(w.address@, spec_write_view(prior_storage, w))
    }
}

/// The ledger after committing a list of writes in order.
pub open spec fn spec_commit_writes(m: Map<Seq<u8>, AccountView>, ws: Seq<AccountWrite>) -> Map<
    Seq<u8>,
    AccountView,
>
    decreases ws.len(),
{
    if ws.len() == 0 {
        m
    } else {
        spec_commit_write(spec_commit_writes(m, ws.drop_last()), &ws.last())
    }
}

/// Commit one transaction's writes into the working view, in order.
pub fn commit_writes(view: &mut WorldStateView, writes: &Vec<AccountWrite>)
    requires
        old(view).wf(),
        writes_wf(writes@),
    ensures
        final(view).wf(),
        final(view)@ == spec_commit_writes(old(view)@, writes@),
{
    let mut i: usize = 0;
    while i < writes.len()
        invariant
            i <= writes@.len(),
            view.wf(),
            writes_wf(writes@),
            view@ == spec_commit_writes(old(view)@, writes@.take(i as int)),
        decreases writes@.len() - i,
    {
        proof {
            assert(writes@.take(i + 1).drop_last() =~= writes@.take(i as int));
            assert(writes@.take(i + 1).last() == writes@[i as int]);
            assert(writes@[i as int].wf());
        }
        let w = &writes[i];
        if !w.touched {
        } else if w.selfdestructed {
            view.remove_account(&w.address);
        } else {
            let mut account = if w.created {
                Account::empty()
            } else {
                match view.get_account(&w.address) {
                    Some(prior) => prior.dup(),
                    None => Account::empty(),
                }
            };
            account.balance = w.balance;
            account.nonce = w.nonce;
            account.code = match &w.code {
                Some(c) => if c.len() > 0 {
                    Some(copy_bytes(c))
                } else {
                    None
                },
                None => None,
            };
            let ghost base_storage = account@.storage;
            proof {
                if w.created || !view@.contains_key(w.address@) {
                    assert(base_storage =~= Map::<nat, nat>::empty());
                } else {
                    assert(base_storage == view@[w.address@].storage);
                }
            }
            let mut j: usize = 0;
            while j < w.slots.len()
                invariant
                    j <= w.slots@.len(),
                    account.wf(),
                    storage_keys_unique(w.slots@),
                    account@.balance == w.balance.as_nat(),
                    account@.nonce == w.nonce as nat,
                    account@.code == (match w.code {
                        Some(c) => if c@.len() > 0 {
                            Some::<Seq<u8>>(c@)
                        } else {
                            None::<Seq<u8>>
                        },
                        None => None::<Seq<u8>>,
                    }),
                    account@.storage == base_storage.union_prefer_right(
                        storage_as_map(w.slots@.take(j as int)),
                    ),
                decreases w.slots@.len() - j,
            {
                let (k, v) = w.slots[j];
                account.storage_set(k, v);
                proof {
                    assert(w.slots@.take(j + 1).drop_last() =~= w.slots@.take(j as int));
                    assert(w.slots@.take(j + 1).last() == w.slots@[j as int]);
                    assert(base_storage.union_prefer_right(
                        storage_as_map(w.slots@.take(j as int)),
                    ).insert(k.as_nat(), v.as_nat()) =~= base_storage.union_prefer_right(
                        storage_as_map(w.slots@.take(j + 1)),
                    ));
                }
                j = j + 1;
            }
            proof {
                assert(w.slots@.take(w.slots@.len() as int) =~= w.slots@);
                assert(storage_as_map(Seq::<(U256, U256)>::empty()) =~= Map::<nat, nat>::empty());
                assert(account@ == spec_write_view(
                    if view@.contains_key(w.address@) {
                        view@[w.address@].storage
                    } else {
                        Map::<nat, nat>::empty()
                    },
                    w,
                ));
            }
            view.set_account(&w.address, account);
        }
        i = i + 1;
    }
    proof {
        assert(writes@.take(writes@.len() as int) =~= writes@);
    }
}

#[verifier::external_type_specification]
#[verifier::external_body]
#[verifier::reject_recursive_types(ExtDB)]
pub struct ExCacheDB<ExtDB>(CacheDB<ExtDB>);

#[verifier::external_type_specification]
#[verifier::external_body]
#[verifier::reject_recursive_types(E)]
pub struct ExEmptyDBTyped<E>(EmptyDBTyped<E>);

/// Relies on `CacheDB::default`: a fresh, empty in-memory database for the
/// virtual machine.
#[verifier::external_body]
fn db_new() -> InMemoryDB {
    InMemoryDB::default()
}

#[verifier::external_type_specification]
#[verifier::external_body]
pub struct ExRuintUint<const BITS: usize, const LIMBS: usize>(
    alloy_primitives::ruint::Uint<BITS, LIMBS>,
);

/// Relies on the limb layout of the virtual machine's 256-bit integers:
/// copies the four limbs across.
#[verifier::external_body]
fn to_revm_u256(v: &U256) -> RevmU256 {
    RevmU256::from_limbs([v.l0, v.l1, v.l2, v.l3])
}

/// The reverse conversion, copying the four limbs back.
#[verifier::external_body]
fn from_revm_u256(v: RevmU256) -> U256 {
    let l = v.into_limbs();
    U256 { l0: l[0], l1: l[1], l2: l[2], l3: l[3] }
}

/// Whether the virtual machine's bytecode type accepts a blob of code
/// bytes. Acceptance depends on the bytes alone: only a malformed
/// delegation-prefixed blob is refused.
pub uninterp spec fn bytecode_accepted(code: Seq<u8>) -> bool;

/// Whether an account's code, if any, is accepted by the virtual machine.
pub open spec fn spec_code_ok(code: Option<Seq<u8>>) -> bool {
    match code {
        Some(c) => bytecode_accepted(c),
        None => true,
    }
}

/// Relies on `CacheDB::insert_account_info` and `Bytecode::new_raw_checked`:
/// installs one account's balance, nonce and code into the database, and
/// succeeds exactly when the machine's bytecode type accepts the code
/// bytes; the insertion itself cannot fail.
#[verifier::external_body]
fn db_insert_account(db: &mut InMemoryDB, addr: &Address, account: &Account) -> (r: Result<
    (),
    (),
>)
    requires
        addr.wf(),
    ensures
        r is Ok <==> (match account@.code {
            Some(code) => bytecode_accepted(code),
            None => true,
        }),
{
    let code = match &account.code {
        Some(c) => match RevmBytecode::new_raw_checked(c.clone().into()) {
            Ok(b) => Some(b),
            Err(_) => return Err(()),
        },
        None => None,
    };
    let code_hash = code.as_ref().map(|b| b.hash_slow()).unwrap_or(KECCAK_EMPTY);
    let balance = to_revm_u256(&account.balance);
    let info = RevmAccountInfo { balance, nonce: account.nonce, code_hash, code, ..Default::default() };
    db.insert_account_info(RevmAddress::from_slice(addr.bytes.as_slice()), info);
    Ok(())
}

/// Relies on `CacheDB::insert_account_storage`: installs one storage slot.
#[verifier::external_body]
fn db_insert_slot(db: &mut InMemoryDB, addr: &Address, key: &U256, value: &U256)
    requires
        addr.wf(),
{
    let a = RevmAddress::from_slice(addr.bytes.as_slice());
    let _ = db.insert_account_storage(a, to_revm_u256(key), to_revm_u256(value));
}

/// Build the virtual machine's database from the working view: succeeds
/// exactly when the machine accepts every account's code.
fn build_db(view: &WorldStateView) -> (r: Result<InMemoryDB, EngineError>)
    requires
        view.wf(),
    ensures
        r is Ok <==> (forall|a: Seq<u8>|
            view@.contains_key(a) ==> spec_code_ok(#[trigger] view@[a].code)),
        r is Err ==> (r matches Err(e) && e is CodeRejected),
{
    let mut db = db_new();
    let mut i: usize = 0;
    while i < view.accounts.len()
        invariant
            i <= view.accounts@.len(),
            view.wf(),
            forall|n: int|
                0 <= n < i ==> spec_code_ok((#[trigger] view.accounts@[n]).1@.code),
        decreases view.accounts@.len() - i,
    {
        let entry = &view.accounts[i];
        if db_insert_account(&mut db, &entry.0, &entry.1).is_err() {
            proof {
                crate::account::lemma_accounts_index(view.accounts@, i as int);
                assert(view@.contains_key(view.accounts@[i as int].0@));
                assert(!spec_code_ok(view@[view.accounts@[i as int].0@].code));
            }
            return Err(EngineError::CodeRejected);
        }
        let mut j: usize = 0;
        while j < entry.1.storage.len()
            invariant
                j <= entry.1.storage@.len(),
                entry.0.wf(),
            decreases entry.1.storage@.len() - j,
        {
            let (k, v) = entry.1.storage[j];
            db_insert_slot(&mut db, &entry.0, &k, &v);
            j = j + 1;
        }
        i = i + 1;
    }
    proof {
        assert forall|a: Seq<u8>| view@.contains_key(a) implies spec_code_ok(
            #[trigger] view@[a].code,
        ) by {
            crate::account::lemma_accounts_membership(view.accounts@, a);
            let n = choose|n: int|
                0 <= n < view.accounts@.len() && (#[trigger] view.accounts@[n]).0@ == a;
            crate::account::lemma_accounts_index(view.accounts@, n);
        }
    }
    Ok(db)
}

/// Why a batch could not run to an outcome.
#[derive(Debug)]
pub enum EngineError {
    /// The virtual machine refused the run; the text renders its error.
    VmFailure(String),
    /// An account's code bytes were rejected by the virtual machine's
    /// bytecode type when the database was built.
    CodeRejected,
}

/// Render an engine failure for a caller's report.
pub fn engine_error_text(e: EngineError) -> (r: String)
    ensures
        e matches EngineError::VmFailure(m) ==> r@ == m@,
        e is CodeRejected ==> r@ == "an account's code bytes were rejected by the virtual machine"@,
{
    match e {
        EngineError::VmFailure(m) => m,
        EngineError::CodeRejected => {
            let mut s = String::new();
            s.append("an account's code bytes were rejected by the virtual machine");
            s
        },
    }
}

/// The raw product of one virtual-machine run, opaque to the logic: the
/// outside result and state map are held until converted.
#[verifier::external_body]
struct VmRun {
    run: revm::context::result::ResultAndState,
}

/// Relies on `Context::mainnet`, `MainBuilder::build_mainnet` and
/// `ExecuteEvm::transact`: executes one transaction against the database
/// under the given environment, with the block's budget and the machine's
/// own gas cap set to the transaction's budget so that the run's unbounded
/// system transactions pass validation. Nothing is assumed of the outcome.
#[verifier::external_body]
fn vm_transact_raw(db: InMemoryDB, env: &ExecEnv, tx: revm::context::TxEnv) -> Result<
    VmRun,
    String,
> {
    let mut ctx = revm::Context::mainnet().with_db(db);
    ctx.cfg.chain_id = env.chain_id;
    ctx.cfg.disable_nonce_check = true;
    ctx.cfg.tx_gas_limit_cap = Some(tx.gas_limit);
    ctx.block.gas_limit = tx.gas_limit;
    ctx.block.timestamp = revm::primitives::U256::from(env.timestamp);
    let mut evm = ctx.build_mainnet();
    match evm.transact(tx) {
        Ok(run) => Ok(VmRun { run }),
        Err(e) => Err(format!("{e:?}")),
    }
}

#[verifier::external_type_specification]
#[verifier::external_body]
pub struct ExTxEnv(revm::context::TxEnv);

/// Relies on the transaction environment type of the virtual machine:
/// moves the envelope's fields into it, one for one.
#[verifier::external_body]
fn to_revm_tx(tx: &TransactionEnvelope) -> revm::context::TxEnv
    requires
        tx.wf(),
{
    revm::context::TxEnv {
        caller: RevmAddress::from_slice(tx.caller.bytes.as_slice()),
        gas_limit: tx.gas_limit,
        gas_price: tx.gas_price,
        kind: match &tx.target {
            TxTarget::Call(a) => TxKind::Call(RevmAddress::from_slice(a.bytes.as_slice())),
            TxTarget::Create => TxKind::Create,
        },
        value: to_revm_u256(&tx.value),
        data: tx.data.clone().into(),
        chain_id: None,
        ..Default::default()
    }
}

/// Relies on the shape of the virtual machine's execution result: each
/// variant converts to the outcome enum, moving fields only.
#[verifier::external_body]
fn run_outcome(run: &VmRun) -> ExecutionOutcome {
    match &run.run.result {
        ExecutionResult::Success { gas, output, logs, .. } => ExecutionOutcome::Success {
            gas_used: gas.tx_gas_used(),
            output: match output { Output::Call(b) => b, Output::Create(b, _) => b }.to_vec(),
            logs: logs.iter().map(|l| LogRecord { topics: l.data.topics().iter().map(|t| t.to_vec()).collect(), data: l.data.data.to_vec() }).collect(),
        },
        ExecutionResult::Revert { gas, output, .. } => ExecutionOutcome::Revert {
            gas_used: gas.tx_gas_used(),
            output: output.to_vec(),
        },
        ExecutionResult::Halt { reason, gas, .. } => ExecutionOutcome::Halt {
            reason: format!("{reason:?}"),
            gas_used: gas.tx_gas_used(),
        },
    }
}


/// Relies on the shape of the virtual machine's state map: each entry
/// converts to one write, moving fields and status flags; the map's keys
/// make the addresses distinct.
#[verifier::external_body]
fn run_writes(run: &VmRun) -> (r: Vec<AccountWrite>)
    ensures
        writes_wf(r@),
{
    run.run.state.iter().map(|(addr, acct)| AccountWrite {
        address: Address { bytes: addr.as_slice().to_vec() },
        touched: acct.is_touched(),
        selfdestructed: acct.is_selfdestructed(),
        created: acct.is_created(),
        balance: from_revm_u256(acct.info.balance),
        nonce: acct.info.nonce,
        code: acct.info.code.as_ref().map(|b| b.original_bytes().to_vec()),
        slots: acct.storage.iter().map(|(k, v)| (from_revm_u256(*k), from_revm_u256(v.present_value()))).collect(),
    }).collect()
}

/// The balance, nonce and code of an account after execution, without its
/// storage.
#[derive(Debug)]
pub struct AccountInfoData {
    pub balance: U256,
    pub nonce: u64,
    pub code: Option<Vec<u8>>,
}

/// One storage slot of a delta entry: the key, its value in the original
/// view, and its value after execution. A slot whose two values are equal
/// was touched but reverted to its original value, and is kept.
#[derive(Debug)]
pub struct SlotDelta {
    pub key: U256,
    pub original: U256,
    pub present: U256,
}

/// The consolidated change of one touched address: its post-execution info
/// (`None` when the account ended absent) and every storage slot written
/// during the batch.
#[derive(Debug)]
pub struct DeltaEntry {
    pub address: Address,
    pub post: Option<AccountInfoData>,
    pub slots: Vec<SlotDelta>,
}

impl DeltaEntry {
    /// Well-formed: a 20-byte address, each slot key listed once.
    pub open spec fn wf(&self) -> bool {
        &&& self.address.wf()
        &&& forall|i: int, j: int|
            0 <= i < j < self.slots@.len() ==> (#[trigger] self.slots@[i]).key.as_nat() != (
            #[trigger] self.slots@[j]).key.as_nat()
    }
}

/// The consolidated change of one batch against its original view.
#[derive(Debug)]
pub struct StateDelta {
    pub entries: Vec<DeltaEntry>,
}

impl StateDelta {
    /// Well-formed: entries well-formed, one per address.
    pub open spec fn wf(&self) -> bool {
        &&& forall|i: int| 0 <= i < self.entries@.len() ==> (#[trigger] self.entries@[i]).wf()
        &&& forall|i: int, j: int|
            0 <= i < j < self.entries@.len() ==> (#[trigger] self.entries@[i]).address@ != (
            #[trigger] self.entries@[j]).address@
    }
}

/// Whether some write of the log touched the address.
pub open spec fn spec_addr_touched(log: Seq<AccountWrite>, addr: Seq<u8>) -> bool {
    exists|i: int| 0 <= i < log.len() && (#[trigger] log[i]).touched && log[i].address@ == addr
}

/// Whether some write of the log wrote the key of the address.
pub open spec fn spec_key_written(log: Seq<AccountWrite>, addr: Seq<u8>, k: nat) -> bool {
    exists|i: int, j: int|
        0 <= i < log.len() && 0 <= j < (#[trigger] log[i]).slots@.len() && log[i].touched
            && log[i].address@ == addr && (#[trigger] log[i].slots@[j]).0.as_nat() == k
}

/// The storage value of an address's key in a ledger, zero when absent.
pub open spec fn spec_value_or_zero(m: Map<Seq<u8>, AccountView>, addr: Seq<u8>, k: nat) -> nat {
    if m.contains_key(addr) && m[addr].storage.contains_key(k) {
        m[addr].storage[k]
    } else {
        0
    }
}

/// How a delta entry's post info must reflect a ledger at its address.
pub open spec fn spec_post_matches(
    m: Map<Seq<u8>, AccountView>,
    addr: Seq<u8>,
    post: &Option<AccountInfoData>,
) -> bool {
    match post {
        Some(info) => {
            &&& m.contains_key(addr)
            &&& info.balance.as_nat() == m[addr].balance
            &&& info.nonce as nat == m[addr].nonce
            &&& (match info.code {
                Some(c) => m[addr].code matches Some(d) && c@ == d,
                None => m[addr].code is None,
            })
        },
        None => !m.contains_key(addr),
    }
}

/// What the consolidated delta states of a batch: one entry per touched
/// address, the post info mirroring the final ledger, and the slots listing
/// exactly the written keys with their original and final values.
pub open spec fn spec_delta_consolidates(
    delta: &StateDelta,
    base: Map<Seq<u8>, AccountView>,
    fin: Map<Seq<u8>, AccountView>,
    log: Seq<AccountWrite>,
) -> bool {
    &&& delta.wf()
    &&& forall|i: int|
        0 <= i < delta.entries@.len() ==> spec_addr_touched(
            log,
            (#[trigger] delta.entries@[i]).address@,
        )
    &&& forall|a: Seq<u8>|
        spec_addr_touched(log, a) ==> exists|i: int|
            0 <= i < delta.entries@.len() && (#[trigger] delta.entries@[i]).address@ == a
    &&& forall|i: int|
        0 <= i < delta.entries@.len() ==> spec_post_matches(
            fin,
            (#[trigger] delta.entries@[i]).address@,
            &delta.entries@[i].post,
        )
    &&& forall|i: int, j: int|
        #![trigger delta.entries@[i].slots@[j]]
        0 <= i < delta.entries@.len() && 0 <= j < delta.entries@[i].slots@.len() ==> {
            let e = delta.entries@[i];
            let s = e.slots@[j];
            &&& spec_key_written(log, e.address@, s.key.as_nat())
            &&& s.original.as_nat() == spec_value_or_zero(base, e.address@, s.key.as_nat())
            &&& s.present.as_nat() == spec_value_or_zero(fin, e.address@, s.key.as_nat())
        }
    &&& forall|i: int, k: nat|
        #![trigger spec_key_written(log, delta.entries@[i].address@, k)]
        0 <= i < delta.entries@.len() && spec_key_written(
            log,
            delta.entries@[i].address@,
            k,
        ) ==> exists|j: int|
            0 <= j < delta.entries@[i].slots@.len() && (#[trigger] delta.entries@[i].slots@[j]).key.as_nat()
                == k
}

/// Whether the list holds an address with the given bytes.
fn contains_addr(r: &Vec<Address>, a: &Address) -> (found: bool)
    ensures
        found == exists|m: int| 0 <= m < r@.len() && (#[trigger] r@[m])@ == a@,
{
    let mut n: usize = 0;
    while n < r.len()
        invariant
            n <= r@.len(),
            forall|m: int| 0 <= m < n ==> (#[trigger] r@[m])@ != a@,
        decreases r@.len() - n,
    {
        if r[n].eq_addr(a) {
            proof {
                assert(r@[n as int]@ == a@);
            }
            return true;
        }
        n = n + 1;
    }
    false
}

/// Whether the list holds a slot with the given key.
#[verifier::rlimit(100)]
fn contains_slot_key(r: &Vec<SlotDelta>, key: &U256) -> (found: bool)
    ensures
        found == exists|m: int| 0 <= m < r@.len() && (#[trigger] r@[m]).key.as_nat()
            == key.as_nat(),
{
    let mut n: usize = 0;
    while n < r.len()
        invariant
            n <= r@.len(),
            forall|m: int| 0 <= m < n ==> (#[trigger] r@[m]).key.as_nat() != key.as_nat(),
        decreases r@.len() - n,
    {
        let rk = r[n].key;
        if rk.l0 == key.l0 && rk.l1 == key.l1 && rk.l2 == key.l2 && rk.l3 == key.l3 {
            proof {
                assert(r@[n as int].key.as_nat() == key.as_nat());
            }
            return true;
        }
        n = n + 1;
    }
    false
}

/// Collect the distinct addresses touched by the log, in order of first
/// touch.
fn touched_addresses(log: &Vec<AccountWrite>) -> (r: Vec<Address>)
    requires
        forall|i: int| 0 <= i < log@.len() ==> (#[trigger] log@[i]).wf(),
    ensures
        forall|i: int| 0 <= i < r@.len() ==> (#[trigger] r@[i]).wf(),
        forall|i: int, j: int| 0 <= i < j < r@.len() ==> (#[trigger] r@[i])@ != (#[trigger] r@[j])@,
        forall|i: int| 0 <= i < r@.len() ==> spec_addr_touched(log@, (#[trigger] r@[i])@),
        forall|a: Seq<u8>|
            spec_addr_touched(log@, a) ==> exists|i: int| 0 <= i < r@.len() && (#[trigger] r@[i])@
                == a,
{
    let mut r: Vec<Address> = Vec::new();
    let mut i: usize = 0;
    while i < log.len()
        invariant
            i <= log@.len(),
            forall|n: int| 0 <= n < log@.len() ==> (#[trigger] log@[n]).wf(),
            forall|n: int| 0 <= n < r@.len() ==> (#[trigger] r@[n]).wf(),
            forall|n: int, m: int|
                0 <= n < m < r@.len() ==> (#[trigger] r@[n])@ != (#[trigger] r@[m])@,
            forall|n: int| 0 <= n < r@.len() ==> spec_addr_touched(log@, (#[trigger] r@[n])@),
            forall|a: Seq<u8>|
                spec_addr_touched(log@.take(i as int), a) ==> exists|n: int|
                    0 <= n < r@.len() && (#[trigger] r@[n])@ == a,
        decreases log@.len() - i,
    {
        let w = &log[i];
        let ghost r_pre = r@;
        if w.touched {
            let already = contains_addr(&r, &w.address);
            if !already {
                r.push(w.address.dup());
                proof {
                    assert(r@.last()@ == log@[i as int].address@);
                    assert(spec_addr_touched(log@, log@[i as int].address@)) by {
                        assert(log@[i as int].touched && log@[i as int].address@ == log@[
                            i as int
                        ].address@);
                    }
                    assert(forall|n: int| 0 <= n < r_pre.len() ==> r@[n] == r_pre[n]);
                }
            }
            proof {
                assert(exists|n: int|
                    0 <= n < r@.len() && (#[trigger] r@[n])@ == log@[i as int].address@) by {
                    if already {
                        let m = choose|m: int|
                            0 <= m < r_pre.len() && (#[trigger] r_pre[m])@ == log@[
                                i as int
                            ].address@;
                        assert(r@[m]@ == log@[i as int].address@);
                    } else {
                        assert(r@[r@.len() - 1]@ == log@[i as int].address@);
                    }
                }
            }
        }
        proof {
            assert(forall|n: int| 0 <= n < r_pre.len() ==> r@[n] == r_pre[n]);
            assert forall|a: Seq<u8>| #![trigger spec_addr_touched(log@.take(i + 1), a)]
                spec_addr_touched(log@.take(i + 1), a) implies exists|n: int|
                0 <= n < r@.len() && (#[trigger] r@[n])@ == a by {
                let wi = choose|wi: int|
                    0 <= wi < log@.take(i + 1).len() && (#[trigger] log@.take(i + 1)[wi]).touched
                        && log@.take(i + 1)[wi].address@ == a;
                if wi < i {
                    assert(log@.take(i as int)[wi].touched && log@.take(i as int)[wi].address@
                        == a);
                    assert(spec_addr_touched(log@.take(i as int), a));
                    let m = choose|m: int| 0 <= m < r_pre.len() && (#[trigger] r_pre[m])@ == a;
                    assert(r@[m]@ == a);
                } else {
                    assert(log@.take(i + 1)[wi] == log@[i as int]);
                    assert(log@[i as int].touched && log@[i as int].address@ == a);
                }
            }
        }
        i = i + 1;
    }
    proof {
        assert(log@.take(log@.len() as int) =~= log@);
    }
    r
}

/// Collect every slot written to the address anywhere in the log, each key
/// once, with its value in the base and final ledgers.
#[verifier::rlimit(100)]
fn collect_slots(
    log: &Vec<AccountWrite>,
    addr: &Address,
    base: &WorldStateView,
    fin: &WorldStateView,
) -> (r: Vec<SlotDelta>)
    requires
        base.wf(),
        fin.wf(),
        forall|i: int| 0 <= i < log@.len() ==> (#[trigger] log@[i]).wf(),
    ensures
        forall|i: int, j: int|
            0 <= i < j < r@.len() ==> (#[trigger] r@[i]).key.as_nat() != (
            #[trigger] r@[j]).key.as_nat(),
        forall|i: int|
            0 <= i < r@.len() ==> {
                let s = #[trigger] r@[i];
                &&& spec_key_written(log@, addr@, s.key.as_nat())
                &&& s.original.as_nat() == spec_value_or_zero(base@, addr@, s.key.as_nat())
                &&& s.present.as_nat() == spec_value_or_zero(fin@, addr@, s.key.as_nat())
            },
        forall|k: nat|
            spec_key_written(log@, addr@, k) ==> exists|i: int|
                0 <= i < r@.len() && (#[trigger] r@[i]).key.as_nat() == k,
{
    let mut r: Vec<SlotDelta> = Vec::new();
    let mut i: usize = 0;
    while i < log.len()
        invariant
            i <= log@.len(),
            base.wf(),
            fin.wf(),
            forall|n: int| 0 <= n < log@.len() ==> (#[trigger] log@[n]).wf(),
            forall|n: int, m: int|
                0 <= n < m < r@.len() ==> (#[trigger] r@[n]).key.as_nat() != (
                #[trigger] r@[m]).key.as_nat(),
            forall|n: int|
                0 <= n < r@.len() ==> {
                    let s = #[trigger] r@[n];
                    &&& spec_key_written(log@, addr@, s.key.as_nat())
                    &&& s.original.as_nat() == spec_value_or_zero(base@, addr@, s.key.as_nat())
                    &&& s.present.as_nat() == spec_value_or_zero(fin@, addr@, s.key.as_nat())
                },
            forall|k: nat|
                spec_key_written(log@.take(i as int), addr@, k) ==> exists|n: int|
                    0 <= n < r@.len() && (#[trigger] r@[n]).key.as_nat() == k,
        decreases log@.len() - i,
    {
        let w = &log[i];
        if w.touched && w.address.eq_addr(addr) {
            let mut j: usize = 0;
            while j < w.slots.len()
                invariant
                    j <= w.slots@.len(),
                    i < log@.len(),
                    w == &log@[i as int],
                    w.touched,
                    w.address@ == addr@,
                    base.wf(),
                    fin.wf(),
                    forall|n: int| 0 <= n < log@.len() ==> (#[trigger] log@[n]).wf(),
                    forall|n: int, m: int|
                        0 <= n < m < r@.len() ==> (#[trigger] r@[n]).key.as_nat() != (
                        #[trigger] r@[m]).key.as_nat(),
                    forall|n: int|
                        0 <= n < r@.len() ==> {
                            let s = #[trigger] r@[n];
                            &&& spec_key_written(log@, addr@, s.key.as_nat())
                            &&& s.original.as_nat() == spec_value_or_zero(
                                base@,
                                addr@,
                                s.key.as_nat(),
                            )
                            &&& s.present.as_nat() == spec_value_or_zero(
                                fin@,
                                addr@,
                                s.key.as_nat(),
                            )
                        },
                    forall|k: nat|
                        spec_key_written(log@.take(i as int), addr@, k) ==> exists|n: int|
                            0 <= n < r@.len() && (#[trigger] r@[n]).key.as_nat() == k,
                    forall|m: int|
                        0 <= m < j ==> exists|n: int|
                            0 <= n < r@.len() && (#[trigger] r@[n]).key.as_nat() == (
                            #[trigger] w.slots@[m]).0.as_nat(),
                decreases w.slots@.len() - j,
            {
                let key = w.slots[j].0;
                let ghost r_pre = r@;
                let present_already = contains_slot_key(&r, &key);
                if !present_already {
                    let original = match base.get_account(addr) {
                        Some(a) => a.storage_get(&key),
                        None => U256::zero(),
                    };
                    let present = match fin.get_account(addr) {
                        Some(a) => a.storage_get(&key),
                        None => U256::zero(),
                    };
                    r.push(SlotDelta { key, original, present });
                    proof {
                        assert(r@.last().key.as_nat() == key.as_nat());
                        assert(spec_key_written(log@, addr@, key.as_nat())) by {
                            assert(log@[i as int].touched && log@[i as int].address@ == addr@
                                && log@[i as int].slots@[j as int].0.as_nat() == key.as_nat());
                        }
                    }
                }
                proof {
                    assert(forall|n: int| 0 <= n < r_pre.len() ==> r@[n] == r_pre[n]);
                    assert(exists|n: int|
                        0 <= n < r@.len() && (#[trigger] r@[n]).key.as_nat() == key.as_nat()) by {
                        if present_already {
                            let m = choose|m: int|
                                0 <= m < r_pre.len() && (#[trigger] r_pre[m]).key.as_nat()
                                    == key.as_nat();
                            assert(r@[m].key.as_nat() == key.as_nat());
                        } else {
                            assert(r@[r@.len() - 1].key.as_nat() == key.as_nat());
                        }
                    }
                    assert forall|k: nat| #![trigger spec_key_written(log@.take(i as int), addr@, k)]
                        spec_key_written(log@.take(i as int), addr@, k) implies exists|n: int|
                        0 <= n < r@.len() && (#[trigger] r@[n]).key.as_nat() == k by {
                        let m = choose|m: int|
                            0 <= m < r_pre.len() && (#[trigger] r_pre[m]).key.as_nat() == k;
                        assert(r@[m].key.as_nat() == k);
                    }
                    assert forall|m: int| #![trigger w.slots@[m]] 0 <= m < j + 1 implies exists|
                        n: int,
                    | 0 <= n < r@.len() && (#[trigger] r@[n]).key.as_nat()
                        == w.slots@[m].0.as_nat() by {
                        if m < j {
                            let n = choose|n: int|
                                0 <= n < r_pre.len() && (#[trigger] r_pre[n]).key.as_nat()
                                    == w.slots@[m].0.as_nat();
                            assert(r@[n].key.as_nat() == w.slots@[m].0.as_nat());
                        } else {
                            assert(w.slots@[m].0.as_nat() == key.as_nat());
                        }
                    }
                }
                j = j + 1;
            }
        }
        proof {
            assert forall|k: nat| #![trigger spec_key_written(log@.take(i + 1), addr@, k)]
                spec_key_written(log@.take(i + 1), addr@, k) implies exists|n: int|
                0 <= n < r@.len() && (#[trigger] r@[n]).key.as_nat() == k by {
                let (wi, wj): (int, int) = choose|wi: int, wj: int|
                    0 <= wi < log@.take(i + 1).len() && 0 <= wj < (#[trigger] log@.take(i + 1)[
                        wi
                    ]).slots@.len() && log@.take(i + 1)[wi].touched && log@.take(i + 1)[wi].address@
                        == addr@ && (#[trigger] log@.take(i + 1)[wi].slots@[wj]).0.as_nat() == k;
                if wi < i {
                    assert(log@.take(i as int)[wi].touched);
                    assert(log@.take(i as int)[wi].slots@[wj].0.as_nat() == k);
                    assert(spec_key_written(log@.take(i as int), addr@, k));
                } else {
                    assert(log@[i as int].slots@[wj].0.as_nat() == k);
                }
            }
        }
        i = i + 1;
    }
    proof {
        assert(log@.take(log@.len() as int) =~= log@);
    }
    r
}

/// Consolidate the writes of a whole batch into one delta against the
/// original view: one entry per touched address, with the final info and
/// every written slot's original and final values.
pub fn consolidate_delta(
    base: &WorldStateView,
    fin: &WorldStateView,
    log: &Vec<AccountWrite>,
) -> (r: StateDelta)
    requires
        base.wf(),
        fin.wf(),
        forall|i: int| 0 <= i < log@.len() ==> (#[trigger] log@[i]).wf(),
    ensures
        spec_delta_consolidates(&r, base@, fin@, log@),
{
    let addrs = touched_addresses(log);
    let mut entries: Vec<DeltaEntry> = Vec::new();
    let mut i: usize = 0;
    while i < addrs.len()
        invariant
            i <= addrs@.len(),
            base.wf(),
            fin.wf(),
            forall|n: int| 0 <= n < log@.len() ==> (#[trigger] log@[n]).wf(),
            forall|n: int| 0 <= n < addrs@.len() ==> (#[trigger] addrs@[n]).wf(),
            forall|n: int, m: int|
                0 <= n < m < addrs@.len() ==> (#[trigger] addrs@[n])@ != (#[trigger] addrs@[m])@,
            forall|n: int|
                0 <= n < addrs@.len() ==> spec_addr_touched(log@, (#[trigger] addrs@[n])@),
            entries@.len() == i,
            forall|n: int| 0 <= n < i ==> (#[trigger] entries@[n]).address@ == addrs@[n]@,
            forall|n: int| 0 <= n < i ==> (#[trigger] entries@[n]).wf(),
            forall|n: int|
                0 <= n < i ==> spec_post_matches(
                    fin@,
                    (#[trigger] entries@[n]).address@,
                    &entries@[n].post,
                ),
            forall|n: int, j: int|
                #![trigger entries@[n].slots@[j]]
                0 <= n < i && 0 <= j < entries@[n].slots@.len() ==> {
                    let e = entries@[n];
                    let s = e.slots@[j];
                    &&& spec_key_written(log@, e.address@, s.key.as_nat())
                    &&& s.original.as_nat() == spec_value_or_zero(base@, e.address@, s.key.as_nat())
                    &&& s.present.as_nat() == spec_value_or_zero(fin@, e.address@, s.key.as_nat())
                },
            forall|n: int, k: nat|
                #![trigger spec_key_written(log@, entries@[n].address@, k)]
                0 <= n < i && spec_key_written(log@, entries@[n].address@, k)
                    ==> exists|j: int|
                    0 <= j < entries@[n].slots@.len() && (#[trigger] entries@[n].slots@[j]).key.as_nat()
                        == k,
        decreases addrs@.len() - i,
    {
        let addr = &addrs[i];
        let post = match fin.get_account(addr) {
            Some(a) => Some(
                AccountInfoData {
                    balance: a.balance,
                    nonce: a.nonce,
                    code: match &a.code {
                        Some(c) => Some(copy_bytes(c)),
                        None => None,
                    },
                },
            ),
            None => None,
        };
        let slots = collect_slots(log, addr, base, fin);
        entries.push(DeltaEntry { address: addr.dup(), post, slots });
        proof {
            let e = entries@.last();
            assert(e.address@ == addrs@[i as int]@);
            assert(e.slots@ == slots@);
            assert forall|k: nat| #![trigger spec_key_written(log@, e.address@, k)]
                spec_key_written(log@, e.address@, k) implies exists|j: int|
                0 <= j < e.slots@.len() && (#[trigger] e.slots@[j]).key.as_nat() == k by {
                let j = choose|j: int|
                    0 <= j < slots@.len() && (#[trigger] slots@[j]).key.as_nat() == k;
                assert(e.slots@[j].key.as_nat() == k);
            }
        }
        i = i + 1;
    }
    let r = StateDelta { entries };
    proof {
        assert forall|a: Seq<u8>| #![trigger spec_addr_touched(log@, a)]
            spec_addr_touched(log@, a) implies exists|n: int|
            0 <= n < r.entries@.len() && (#[trigger] r.entries@[n]).address@ == a by {
            let n = choose|n: int| 0 <= n < addrs@.len() && (#[trigger] addrs@[n])@ == a;
            assert(r.entries@[n].address@ == a);
        }
    }
    r
}

/// The storage map after layering a delta entry's slots: each written
/// slot's final value inserted over the base.
pub open spec fn spec_apply_slots(m: Map<nat, nat>, slots: Seq<SlotDelta>) -> Map<nat, nat>
    decreases slots.len(),
{
    if slots.len() == 0 {
        m
    } else {
        spec_apply_slots(m, slots.drop_last()).insert(
            slots.last().key.as_nat(),
            slots.last().present.as_nat(),
        )
    }
}

/// The ledger after layering one delta entry: an absent post removes the
/// account; otherwise its info replaces the account's and its slots
/// override the account's storage.
pub open spec fn spec_apply_entry(m: Map<Seq<u8>, AccountView>, e: &DeltaEntry) -> Map<
    Seq<u8>,
    AccountView,
> {
    match &e.post {
        None => m.remove(e.address@),
        Some(info) => {
            let base_storage = if m.contains_key(e.address@) {
                m[e.address@].storage
            } else {
                Map::<nat, nat>::empty()
            };
            m.insert(
                e.address@,
                AccountView {
                    balance: info.balance.as_nat(),
                    nonce: info.nonce as nat,
                    code: match info.code {
                        Some(c) => Some(c@),
                        None => None,
                    },
                    storage: spec_apply_slots(base_storage, e.slots@),
                },
            )
        },
    }
}

/// The ledger after layering a delta's entries in order.
pub open spec fn spec_apply_delta(m: Map<Seq<u8>, AccountView>, entries: Seq<DeltaEntry>) -> Map<
    Seq<u8>,
    AccountView,
>
    decreases entries.len(),
{
    if entries.len() == 0 {
        m
    } else {
        spec_apply_entry(spec_apply_delta(m, entries.drop_last()), &entries.last())
    }
}

/// Layer a pre-existing delta on top of the working view.
pub fn apply_delta(view: &mut WorldStateView, delta: &StateDelta)
    requires
        old(view).wf(),
        delta.wf(),
    ensures
        final(view).wf(),
        final(view)@ == spec_apply_delta(old(view)@, delta.entries@),
{
    let mut i: usize = 0;
    while i < delta.entries.len()
        invariant
            i <= delta.entries@.len(),
            view.wf(),
            delta.wf(),
            view@ == spec_apply_delta(old(view)@, delta.entries@.take(i as int)),
        decreases delta.entries@.len() - i,
    {
        proof {
            assert(delta.entries@.take(i + 1).drop_last() =~= delta.entries@.take(i as int));
            assert(delta.entries@.take(i + 1).last() == delta.entries@[i as int]);
            assert(delta.entries@[i as int].wf());
        }
        let e = &delta.entries[i];
        match &e.post {
            None => {
                view.remove_account(&e.address);
            },
            Some(info) => {
                let mut account = match view.get_account(&e.address) {
                    Some(prior) => prior.dup(),
                    None => Account::empty(),
                };
                account.balance = info.balance;
                account.nonce = info.nonce;
                account.code = match &info.code {
                    Some(c) => Some(copy_bytes(c)),
                    None => None,
                };
                let ghost base_storage = account@.storage;
                proof {
                    if !view@.contains_key(e.address@) {
                        assert(base_storage =~= Map::<nat, nat>::empty());
                    }
                }
                let mut j: usize = 0;
                while j < e.slots.len()
                    invariant
                        j <= e.slots@.len(),
                        account.wf(),
                        i < delta.entries@.len(),
                        e == &delta.entries@[i as int],
                        delta.entries@[i as int].wf(),
                        account@.balance == e.post.unwrap().balance.as_nat(),
                        account@.nonce == e.post.unwrap().nonce as nat,
                        account@.code == (match e.post.unwrap().code {
                            Some(c) => Some::<Seq<u8>>(c@),
                            None => None::<Seq<u8>>,
                        }),
                        e.post is Some,
                        account@.storage == spec_apply_slots(base_storage, e.slots@.take(j as int)),
                    decreases e.slots@.len() - j,
                {
                    let slot = &e.slots[j];
                    account.storage_set(slot.key, slot.present);
                    proof {
                        assert(e.slots@.take(j + 1).drop_last() =~= e.slots@.take(j as int));
                        assert(e.slots@.take(j + 1).last() == e.slots@[j as int]);
                    }
                    j = j + 1;
                }
                proof {
                    assert(e.slots@.take(e.slots@.len() as int) =~= e.slots@);
                }
                view.set_account(&e.address, account);
            },
        }
        i = i + 1;
    }
    proof {
        assert(delta.entries@.take(delta.entries@.len() as int) =~= delta.entries@);
    }
}

/// The ledger after committing each batch of writes, batch by batch.
pub open spec fn spec_commit_batches(
    m: Map<Seq<u8>, AccountView>,
    batches: Seq<Seq<AccountWrite>>,
) -> Map<Seq<u8>, AccountView>
    decreases batches.len(),
{
    if batches.len() == 0 {
        m
    } else {
        spec_commit_writes(spec_commit_batches(m, batches.drop_last()), batches.last())
    }
}

/// All batches' writes, one after another.
pub open spec fn spec_flatten(batches: Seq<Seq<AccountWrite>>) -> Seq<AccountWrite>
    decreases batches.len(),
{
    if batches.len() == 0 {
        Seq::empty()
    } else {
        spec_flatten(batches.drop_last()) + batches.last()
    }
}

/// Execute one transaction of the batch against the current view: build
/// the database, run the virtual machine, and hand back whatever outcome
/// and well-formed writes it reported.
pub fn vm_transact(view: &WorldStateView, env: &ExecEnv, tx: &TransactionEnvelope) -> (r: Result<
    (ExecutionOutcome, Vec<AccountWrite>),
    EngineError,
>)
    requires
        view.wf(),
        tx.wf(),
    ensures
        r matches Ok(p) ==> writes_wf(p.1@),
        (r matches Err(e) && e is CodeRejected) <==> !(forall|a: Seq<u8>|
            view@.contains_key(a) ==> spec_code_ok(#[trigger] view@[a].code)),
{
    let db = match build_db(view) {
        Ok(db) => db,
        Err(e) => {
            return Err(e);
        },
    };
    match vm_transact_raw(db, env, to_revm_tx(tx)) {
        Ok(run) => {
            let outcome = run_outcome(&run);
            let writes = run_writes(&run);
            Ok((outcome, writes))
        },
        Err(msg) => Err(EngineError::VmFailure(msg)),
    }
}

/// Committing a concatenation of write lists equals committing the first
/// list and then the second over the result.
pub proof fn lemma_commit_writes_split(
    m: Map<Seq<u8>, AccountView>,
    w1: Seq<AccountWrite>,
    w2: Seq<AccountWrite>,
)
    ensures
        spec_commit_writes(m, w1 + w2) == spec_commit_writes(spec_commit_writes(m, w1), w2),
    decreases w2.len(),
{
    if w2.len() == 0 {
        assert(w1 + w2 =~= w1);
    } else {
        assert((w1 + w2).drop_last() =~= w1 + w2.drop_last());
        assert((w1 + w2).last() == w2.last());
        lemma_commit_writes_split(m, w1, w2.drop_last());
    }
}

/// Executing a batch through the engine yields the same final view as
/// applying its transactions one at a time and committing between each:
/// committing a concatenation of batch lists equals committing the first
/// list and then the second over the result, so the fold of per-transaction
/// commits admits no reordering or cross-transaction batching. With the
/// engine's own contract — the final view is exactly this fold over the
/// per-transaction writes — this is the ordering guarantee of the batch.
pub proof fn lemma_sequential_composition(
    m: Map<Seq<u8>, AccountView>,
    bs1: Seq<Seq<AccountWrite>>,
    bs2: Seq<Seq<AccountWrite>>,
)
    ensures
        spec_commit_batches(m, bs1 + bs2) == spec_commit_batches(
            spec_commit_batches(m, bs1),
            bs2,
        ),
    decreases bs2.len(),
{
    if bs2.len() == 0 {
        assert(bs1 + bs2 =~= bs1);
    } else {
        assert((bs1 + bs2).drop_last() =~= bs1 + bs2.drop_last());
        assert((bs1 + bs2).last() == bs2.last());
        lemma_sequential_composition(m, bs1, bs2.drop_last());
    }
}

/// Execute an ordered batch of transactions strictly in list order.
///
/// An optional pre-existing delta is layered onto the view first. Each
/// transaction runs against the view as committed so far — transaction
/// `i + 1` observes every effect of transaction `i` — and its writes are
/// committed before the next transaction runs. The outcomes come back in
/// transaction order, together with the consolidated delta of the whole
/// batch against the view the batch started from, and, as ghost data, the
/// per-transaction writes the virtual machine reported.
pub fn execute_sequential(
    view: &mut WorldStateView,
    env: &ExecEnv,
    txs: &Vec<TransactionEnvelope>,
    pre_delta: Option<&StateDelta>,
) -> (r: Result<(Vec<ExecutionOutcome>, StateDelta, Ghost<Seq<Seq<AccountWrite>>>), EngineError>)
    requires
        old(view).wf(),
        forall|i: int| 0 <= i < txs@.len() ==> (#[trigger] txs@[i]).wf(),
        pre_delta matches Some(d) ==> d.wf(),
    ensures
        final(view).wf(),
        txs@.len() == 0 ==> r is Ok,
        (r matches Err(e) && e is CodeRejected) ==> txs@.len() > 0,
        match r {
            Ok(p) => {
                let base = match pre_delta {
                    Some(d) => spec_apply_delta(old(view)@, d.entries@),
                    None => old(view)@,
                };
                &&& p.0@.len() == txs@.len()
                &&& p.2@.len() == txs@.len()
                &&& (forall|i: int| 0 <= i < p.2@.len() ==> writes_wf(#[trigger] p.2@[i]))
                &&& final(view)@ == spec_commit_batches(base, p.2@)
                &&& spec_delta_consolidates(&p.1, base, final(view)@, spec_flatten(p.2@))
            },
            Err(_) => true,
        },
{
    match pre_delta {
        Some(d) => apply_delta(view, d),
        None => (),
    }
    let base_copy = view.dup();
    let ghost base = view@;
    let mut outcomes: Vec<ExecutionOutcome> = Vec::new();
    let mut log: Vec<AccountWrite> = Vec::new();
    let ghost mut gw: Seq<Seq<AccountWrite>> = Seq::empty();
    let mut i: usize = 0;
    while i < txs.len()
        invariant
            i <= txs@.len(),
            view.wf(),
            base_copy.wf(),
            base_copy@ == base,
            forall|n: int| 0 <= n < txs@.len() ==> (#[trigger] txs@[n]).wf(),
            outcomes@.len() == i,
            gw.len() == i,
            forall|n: int| 0 <= n < gw.len() ==> writes_wf(#[trigger] gw[n]),
            view@ == spec_commit_batches(base, gw),
            log@ == spec_flatten(gw),
            forall|n: int| 0 <= n < log@.len() ==> (#[trigger] log@[n]).wf(),
        decreases txs@.len() - i,
    {
        let (outcome, mut writes) = match vm_transact(view, env, &txs[i]) {
            Ok(p) => p,
            Err(e) => {
                return Err(e);
            },
        };
        let ghost wseq = writes@;
        commit_writes(view, &writes);
        outcomes.push(outcome);
        log.append(&mut writes);
        proof {
            let gw_prev = gw;
            gw = gw.push(wseq);
            assert(gw.drop_last() =~= gw_prev);
            assert(gw.last() == wseq);
            assert(spec_commit_batches(base, gw) == spec_commit_writes(
                spec_commit_batches(base, gw_prev),
                wseq,
            ));
            assert(spec_flatten(gw) == spec_flatten(gw_prev) + wseq);
        }
        i = i + 1;
    }
    let delta = consolidate_delta(&base_copy, view, &log);
    Ok((outcomes, delta, Ghost(gw)))
}

} // verus!
