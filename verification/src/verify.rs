//! The replay verifier.
//!
//! Takes a previously emitted snapshot, rehydrates a world-state view from
//! it, checks that the validator-set management contract is present, issues
//! the one read-only validator query through the engine, and turns the
//! outcome into a verification report. Failures here are reported, not
//! fatal: a missing contract, a schema mismatch, or a reverted query all
//! yield a failing report the caller can print.

use vstd::prelude::*;
use vstd::string::StringSliceAdditionalSpecFns;
use crate::abi::{VerifyResult, process_execution_result, call_get_active_validators,
    spec_report_matches};
use crate::account::{Account, AccountView, WorldStateView};
use crate::address::spec_system_address;
use crate::config::{string_bytes, spec_address_text_ok, spec_hex_text_ok, spec_hex_text_bytes,
    parse_hex_bytes, default_chain_id};
use crate::engine::{execute_sequential, prepare_env};
use crate::outcome::ExecutionOutcome;
use crate::registry::{validator_manager_address, VALIDATOR_MANAGER_TAIL};
use crate::txn::TransactionEnvelope;
use crate::u256::{spec_hex_field_value, parse_u256_hex, U256};

verus! {

/// One account of a persisted snapshot, all fields as optional text.
#[derive(Debug)]
pub struct AllocEntry {
    pub balance: Option<String>,
    pub nonce: Option<u64>,
    pub code: Option<String>,
    pub storage: Option<Vec<(String, String)>>,
}

/// A persisted snapshot: accounts keyed by address text.
#[derive(Debug)]
pub struct GenesisJson {
    pub alloc: Vec<(String, AllocEntry)>,
}

/// Why a snapshot could not be rehydrated, or the query not run.
#[derive(Debug)]
pub enum VerifyError {
    /// The entry's address text is not an address.
    BadAddress { index: usize },
    /// The entry's code text is not a hex blob.
    BadCode { index: usize },
    /// The virtual machine refused the query; the text renders its error.
    Vm(String),
}

/// The storage mapping a list of key and value text pairs denotes, each
/// read as a hex field with zero for anything malformed.
pub open spec fn spec_storage_pairs(pairs: Seq<(String, String)>) -> Map<nat, nat>
    decreases pairs.len(),
{
    if pairs.len() == 0 {
        Map::empty()
    } else {
        spec_storage_pairs(pairs.drop_last()).insert(
            spec_hex_field_value(string_bytes(pairs.last().0)),
            spec_hex_field_value(string_bytes(pairs.last().1)),
        )
    }
}

/// Whether a snapshot entry is well-formed: any code text must be a hex
/// blob. Balance and storage fields read as zero when malformed, as the
/// snapshot format treats them.
pub open spec fn spec_entry_ok(e: &AllocEntry) -> bool {
    match e.code {
        Some(c) => spec_hex_text_ok(string_bytes(c)),
        None => true,
    }
}

/// The account a snapshot entry denotes.
pub open spec fn spec_entry_view(e: &AllocEntry) -> AccountView {
    AccountView {
        balance: match e.balance {
            Some(b) => spec_hex_field_value(string_bytes(b)),
            None => 0,
        },
        nonce: match e.nonce {
            Some(n) => n as nat,
            None => 0,
        },
        code: match e.code {
            Some(c) => if spec_hex_text_bytes(string_bytes(c)).len() == 0 {
                None
            } else {
                Some(spec_hex_text_bytes(string_bytes(c)))
            },
            None => None,
        },
        storage: match e.storage {
            Some(pairs) => spec_storage_pairs(pairs@),
            None => Map::empty(),
        },
    }
}

/// Whether every snapshot entry is well-formed, addresses included.
pub open spec fn spec_alloc_ok(alloc: Seq<(String, AllocEntry)>) -> bool {
    forall|i: int|
        0 <= i < alloc.len() ==> spec_address_text_ok(string_bytes((#[trigger] alloc[i]).0))
            && spec_entry_ok(&alloc[i].1)
}

/// The ledger a snapshot denotes, later entries for an address winning.
pub open spec fn spec_rehydrated(alloc: Seq<(String, AllocEntry)>) -> Map<Seq<u8>, AccountView>
    decreases alloc.len(),
{
    if alloc.len() == 0 {
        Map::empty()
    } else {
        spec_rehydrated(alloc.drop_last()).insert(
            crate::hexfmt::spec_hex_decode(
                crate::u256::spec_hex_field_stripped(string_bytes(alloc.last().0)),
            ).unwrap(),
            spec_entry_view(&alloc.last().1),
        )
    }
}

/// Rehydrate a world-state view from a snapshot.
///
/// Succeeds exactly when every entry is well-formed; the view then denotes
/// exactly the snapshot's ledger.
pub fn rehydrate(genesis: &GenesisJson) -> (r: Result<WorldStateView, VerifyError>)
    ensures
        r is Ok <==> spec_alloc_ok(genesis.alloc@),
        r matches Ok(v) ==> v.wf() && v@ == spec_rehydrated(genesis.alloc@),
        r matches Err(e) ==> !(e is Vm),
{
    let mut view = WorldStateView::new();
    let alloc = &genesis.alloc;
    let mut i: usize = 0;
    while i < alloc.len()
        invariant
            i <= alloc@.len(),
            alloc@ == genesis.alloc@,
            view.wf(),
            forall|j: int|
                0 <= j < i ==> spec_address_text_ok(string_bytes((#[trigger] alloc@[j]).0))
                    && spec_entry_ok(&alloc@[j].1),
            view@ == spec_rehydrated(alloc@.take(i as int)),
        decreases alloc@.len() - i,
    {
        proof {
            assert(alloc@.take(i + 1).drop_last() =~= alloc@.take(i as int));
            assert(alloc@.take(i + 1).last() == alloc@[i as int]);
        }
        let entry = &alloc[i];
        let addr_str = entry.0.as_str();
        proof {
            assert(addr_str.spec_bytes() == string_bytes(alloc@[i as int].0));
        }
        let address = match crate::config::parse_address(addr_str) {
            Ok(a) => a,
            Err(_) => {
                return Err(VerifyError::BadAddress { index: i });
            },
        };
        let mut account = Account::empty();
        account.balance = match &entry.1.balance {
            Some(b) => {
                let bs = b.as_str();
                proof {
                    assert(bs.spec_bytes() == string_bytes(alloc@[i as int].1.balance.unwrap()));
                }
                parse_u256_hex(bs.as_bytes())
            },
            None => U256::zero(),
        };
        account.nonce = match &entry.1.nonce {
            Some(n) => *n,
            None => 0,
        };
        account.code = match &entry.1.code {
            Some(c) => {
                let cs = c.as_str();
                proof {
                    assert(cs.spec_bytes() == string_bytes(alloc@[i as int].1.code.unwrap()));
                }
                match parse_hex_bytes(cs) {
                    Ok(bytes) => {
                        if bytes.len() == 0 {
                            None
                        } else {
                            Some(bytes)
                        }
                    },
                    Err(_) => {
                        return Err(VerifyError::BadCode { index: i });
                    },
                }
            },
            None => None,
        };
        match &entry.1.storage {
            Some(pairs) => {
                let mut j: usize = 0;
                while j < pairs.len()
                    invariant
                        j <= pairs@.len(),
                        account.wf(),
                        i < alloc@.len(),
                        alloc@ == genesis.alloc@,
                        entry == &alloc@[i as int],
                        alloc@[i as int].1.storage matches Some(p) && p@ == pairs@,
                        account@.balance == spec_entry_view(&alloc@[i as int].1).balance,
                        account@.nonce == spec_entry_view(&alloc@[i as int].1).nonce,
                        account@.code == spec_entry_view(&alloc@[i as int].1).code,
                        account@.storage == spec_storage_pairs(pairs@.take(j as int)),
                    decreases pairs@.len() - j,
                {
                    proof {
                        assert(pairs@.take(j + 1).drop_last() =~= pairs@.take(j as int));
                        assert(pairs@.take(j + 1).last() == pairs@[j as int]);
                    }
                    let ks = pairs[j].0.as_str();
                    let vs = pairs[j].1.as_str();
                    proof {
                        assert(ks.spec_bytes() == string_bytes(pairs@[j as int].0));
                        assert(vs.spec_bytes() == string_bytes(pairs@[j as int].1));
                    }
                    let key = parse_u256_hex(ks.as_bytes());
                    let value = parse_u256_hex(vs.as_bytes());
                    account.storage_set(key, value);
                    j = j + 1;
                }
                proof {
                    assert(pairs@.take(pairs@.len() as int) =~= pairs@);
                }
            },
            None => {},
        }
        proof {
            assert(account@ == spec_entry_view(&alloc@[i as int].1));
        }
        view.set_account(&address, account);
        i = i + 1;
    }
    proof {
        assert(alloc@.take(alloc@.len() as int) =~= alloc@);
    }
    Ok(view)
}

/// Verify a snapshot: rehydrate it, check the validator-set management
/// contract is present, run the one read-only query, and report.
///
/// Returns the report together with the query's outcome; a missing
/// contract short-circuits with a single-error failing report and no
/// outcome, without invoking the engine at all.
#[verifier::rlimit(100)]
pub fn verify_genesis_file(genesis: &GenesisJson) -> (r: Result<
    (VerifyResult, Option<ExecutionOutcome>),
    VerifyError,
>)
    ensures
        !spec_alloc_ok(genesis.alloc@) <==> (r matches Err(e) && !(e is Vm)),
        (r matches Err(e) && e is Vm) ==> spec_alloc_ok(genesis.alloc@) && spec_rehydrated(
            genesis.alloc@,
        ).contains_key(spec_system_address(VALIDATOR_MANAGER_TAIL)),
        spec_alloc_ok(genesis.alloc@) && !spec_rehydrated(genesis.alloc@).contains_key(
            spec_system_address(VALIDATOR_MANAGER_TAIL),
        ) ==> (r matches Ok(p) && p.1 is None),
        r matches Ok(p) ==> {
            let m = spec_rehydrated(genesis.alloc@);
            let vm = spec_system_address(VALIDATOR_MANAGER_TAIL);
            match p.1 {
                None => {
                    &&& !m.contains_key(vm)
                    &&& !p.0.success
                    &&& p.0.validator_count == 0
                    &&& p.0.validators@.len() == 0
                    &&& p.0.errors@.len() == 1
                    &&& p.0.errors@[0]@
                        == "Validator-set management contract not found at its reserved address"@
                },
                Some(o) => {
                    &&& m.contains_key(vm)
                    &&& spec_report_matches(&o, &p.0)
                },
            }
        },
{
    let mut view = match rehydrate(genesis) {
        Ok(v) => v,
        Err(e) => {
            return Err(e);
        },
    };
    let vm_addr = validator_manager_address();
    if view.get_account(&vm_addr).is_none() {
        return Ok((missing_contract_report(), None));
    }
    match run_query(&mut view) {
        Ok((report, outcome)) => Ok((report, Some(outcome))),
        Err(e) => Err(e),
    }
}

/// Run the one read-only validator query against the rehydrated view and
/// turn its outcome into a report.
#[verifier::rlimit(100)]
fn run_query(view: &mut WorldStateView) -> (r: Result<
    (VerifyResult, ExecutionOutcome),
    VerifyError,
>)
    requires
        old(view).wf(),
    ensures
        r matches Ok(p) ==> spec_report_matches(&p.1, &p.0),
        r matches Err(e) ==> e is Vm,
{
    let env = prepare_env(default_chain_id());
    let mut txs: Vec<TransactionEnvelope> = Vec::new();
    txs.push(call_get_active_validators());
    let (mut outcomes, _delta, _gw) = match execute_sequential(view, &env, &txs, None) {
        Ok(p) => p,
        Err(e) => {
            return Err(VerifyError::Vm(crate::engine::engine_error_text(e)));
        },
    };
    let outcome = match outcomes.pop() {
        Some(o) => o,
        None => {
            proof {
                assert(false);
            }
            return Err(VerifyError::Vm(String::new()));
        },
    };
    let report = process_execution_result(&outcome);
    Ok((report, outcome))
}

/// The failing report for a snapshot without the validator-set management
/// contract.
fn missing_contract_report() -> (r: VerifyResult)
    ensures
        !r.success,
        r.validator_count == 0,
        r.validators@.len() == 0,
        r.errors@.len() == 1,
        r.errors@[0]@ == "Validator-set management contract not found at its reserved address"@,
{
    let mut msg = String::new();
    msg.append("Validator-set management contract not found at its reserved address");
    let mut errors: Vec<String> = Vec::new();
    errors.push(msg);
    VerifyResult { success: false, validator_count: 0, validators: Vec::new(), errors }
}

/// What a returned verification report says of the snapshot: a failing
/// single-error report naming the missing contract when the ledger lacks
/// the validator-set management contract, else a report some query outcome
/// accounts for, field for field.
pub open spec fn spec_run_verify_ok(genesis: &GenesisJson, report: VerifyResult) -> bool {
    let m = spec_rehydrated(genesis.alloc@);
    let vm = spec_system_address(VALIDATOR_MANAGER_TAIL);
    if !m.contains_key(vm) {
        &&& !report.success
        &&& report.errors@.len() == 1
        &&& report.errors@[0]@
            == "Validator-set management contract not found at its reserved address"@
    } else {
        exists|o: ExecutionOutcome| spec_report_matches(&o, &report)
    }
}

/// Verify a snapshot and hand back the report alone.
#[verifier::rlimit(100)]
pub fn run_verify(genesis: &GenesisJson) -> (r: Result<VerifyResult, VerifyError>)
    ensures
        !spec_alloc_ok(genesis.alloc@) <==> (r matches Err(e) && !(e is Vm)),
        (r matches Err(e) && e is Vm) ==> spec_alloc_ok(genesis.alloc@) && spec_rehydrated(
            genesis.alloc@,
        ).contains_key(spec_system_address(VALIDATOR_MANAGER_TAIL)),
        spec_alloc_ok(genesis.alloc@) && !spec_rehydrated(genesis.alloc@).contains_key(
            spec_system_address(VALIDATOR_MANAGER_TAIL),
        ) ==> r is Ok,
        r matches Ok(report) ==> spec_run_verify_ok(genesis, report),
{
    let res = verify_genesis_file(genesis);
    match res {
        Ok((report, outcome)) => {
            proof {
                let m = spec_rehydrated(genesis.alloc@);
                let vm = spec_system_address(VALIDATOR_MANAGER_TAIL);
                match outcome {
                    Some(o) => {
                        assert(m.contains_key(vm));
                        assert(spec_report_matches(&o, &report));
                        assert(exists|o2: ExecutionOutcome| spec_report_matches(&o2, &report));
                    },
                    None => {
                        assert(!m.contains_key(vm));
                        assert(!report.success);
                        assert(report.errors@.len() == 1);
                    },
                }
                assert(spec_run_verify_ok(genesis, report));
            }
            Ok(report)
        },
        Err(e) => Err(e),
    }
}

} // verus!
