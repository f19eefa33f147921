//! The genesis generation pipeline.
//!
//! One bootstrap run: sum the validators' stakes, seed the world-state view
//! with the system contracts' byte-code, execute the single initialize
//! transaction through the engine, classify its outcome — any non-success
//! aborts the run before any artifact exists — then drop the funding
//! account from the delta, merge the delta into the seeded contract set,
//! and derive the byte-code map. The caller persists the three artifacts.

use vstd::prelude::*;
use crate::account::WorldStateView;
use crate::address::{Address, spec_system_address};
use crate::config::{GenesisConfig, calculate_total_stake, call_genesis_initialize};
use crate::engine::{
    execute_sequential, prepare_env, StateDelta, DeltaEntry, engine_error_text,
};
use crate::merge::{
    merge_snapshot, derive_bytecode_map, spec_merged, spec_addresses_of, spec_code_views,
};
use crate::outcome::{ExecutionOutcome, analyze_txn_result, is_success, spec_is_success,
    spec_analyze};
use crate::registry::{
    system_contract_registry, genesis_address, system_caller_address, SYSTEM_CALLER_TAIL,
    spec_registry_tails, spec_registry_addresses,
};
use crate::seed::{seed_world_state, SeedError, spec_code_ambiguous, spec_runtime_bytecode};
use crate::txn::TransactionEnvelope;
use crate::u256::NumParseError;

verus! {

/// Why a generation run aborted. Generation has no partial success: any of
/// these ends the run with no artifact produced.
#[derive(Debug)]
pub enum GenerateError {
    /// A validator's stake amount is malformed, or the sum overflows.
    Stake(NumParseError),
    /// A byte-code blob is unparsable, or a seeded balance overflows.
    Seed(SeedError),
    /// The virtual machine refused the run; the text renders its error.
    Vm(String),
    /// A bootstrap transaction did not succeed; the analysis renders its
    /// classified outcome.
    TxnFailed { index: usize, analysis: String },
}

/// Everything one successful generation run produces: the three artifacts
/// to persist — the delta, the merged snapshot, the byte-code map — and
/// the outcomes, their rendered analyses, and the advisory
/// constructor-code warnings.
#[derive(Debug)]
pub struct GenesisArtifacts {
    pub delta: StateDelta,
    pub snapshot: WorldStateView,
    pub bytecode_map: Vec<(Address, Vec<u8>)>,
    pub outcomes: Vec<ExecutionOutcome>,
    pub analyses: Vec<String>,
    pub warnings: Vec<bool>,
}

/// Whether a delta entry is not the privileged funding account's.
pub open spec fn spec_not_funding(e: DeltaEntry) -> bool {
    e.address@ != spec_system_address(SYSTEM_CALLER_TAIL)
}

/// Drop the privileged funding account's entries from a delta, keeping
/// every other entry in order: the result lists exactly the entries that
/// are not the funding account's.
#[verifier::rlimit(100)]
pub fn strip_funding_account(delta: StateDelta) -> (r: StateDelta)
    requires
        delta.wf(),
    ensures
        r.wf(),
        r.entries@ == delta.entries@.filter(|e: DeltaEntry| spec_not_funding(e)),
        forall|i: int|
            0 <= i < r.entries@.len() ==> spec_not_funding(#[trigger] r.entries@[i]),
{
    let caller = system_caller_address();
    let mut source = delta.entries;
    let ghost src = source@;
    let mut kept: Vec<DeltaEntry> = Vec::new();
    let ghost mut idxs: Seq<int> = Seq::empty();
    let mut i: usize = 0;
    let n0 = source.len();
    proof {
        reveal(Seq::filter);
        assert(n0 == src.len());
        assert(src.take(0) =~= Seq::<DeltaEntry>::empty());
    }
    while source.len() > 0
        invariant
            caller@ == spec_system_address(SYSTEM_CALLER_TAIL),
            src == delta.entries@,
            delta.wf(),
            i + source@.len() == src.len(),
            src.len() <= usize::MAX,
            source@ == src.skip(i as int),
            idxs.len() == kept@.len(),
            forall|n: int| 0 <= n < idxs.len() ==> 0 <= #[trigger] idxs[n] < i,
            forall|n: int, m: int| 0 <= n < m < idxs.len() ==> idxs[n] < idxs[m],
            forall|n: int| 0 <= n < kept@.len() ==> (#[trigger] kept@[n]) == src[idxs[n]],
            kept@ == src.take(i as int).filter(|e: DeltaEntry| spec_not_funding(e)),
        decreases source@.len(),
    {
        let ghost pre_kept = kept@;
        let ghost pre_idxs = idxs;
        let entry = source.remove(0);
        proof {
            reveal_with_fuel(Seq::filter, 3);
            assert(src.skip(i as int)[0] == src[i as int]);
            assert(entry == src[i as int]);
            assert(source@ =~= src.skip(i as int + 1));
            assert(src.take(i as int + 1) =~= src.take(i as int) + seq![src[i as int]]);
            Seq::<DeltaEntry>::filter_distributes_over_add(
                src.take(i as int),
                seq![src[i as int]],
                |e: DeltaEntry| spec_not_funding(e),
            );
            assert(seq![src[i as int]].drop_last() =~= Seq::<DeltaEntry>::empty());
        }
        if !entry.address.eq_addr(&caller) {
            proof {
                reveal_with_fuel(Seq::filter, 3);
                assert(entry.wf()) by {
                    assert(delta.entries@[i as int].wf());
                }
                assert((|e: DeltaEntry| spec_not_funding(e))(src[i as int]));
                assert(seq![src[i as int]].filter(|e: DeltaEntry| spec_not_funding(e)) =~= seq![src[i as int]]);
            }
            kept.push(entry);
            proof {
                idxs = idxs.push(i as int);
                assert(kept@ =~= src.take(i as int).filter(|e: DeltaEntry| spec_not_funding(e)) + seq![src[i as int]]);
                assert(forall|n: int| 0 <= n < pre_kept.len() ==> kept@[n] == pre_kept[n]);
                assert(kept@.last() == src[i as int]);
            }
        } else {
            proof {
                reveal_with_fuel(Seq::filter, 3);
                assert(src[i as int].address@ == spec_system_address(SYSTEM_CALLER_TAIL));
                assert(!spec_not_funding(src[i as int]));
                assert(!(|e: DeltaEntry| spec_not_funding(e))(src[i as int]));
                assert(seq![src[i as int]].filter(|e: DeltaEntry| spec_not_funding(e)) =~= Seq::<DeltaEntry>::empty());
                assert(kept@ =~= src.take(i as int).filter(|e: DeltaEntry| spec_not_funding(e)) + seq![src[
                    i as int
                ]].filter(|e: DeltaEntry| spec_not_funding(e)));
            }
        }
        i = i + 1;
    }
    proof {
        assert(src.take(src.len() as int) =~= src);
        assert forall|n: int, m: int|
            0 <= n < m < kept@.len() implies (#[trigger] kept@[n]).address@ != (
        #[trigger] kept@[m]).address@ by {
            assert(kept@[n] == src[idxs[n]]);
            assert(kept@[m] == src[idxs[m]]);
            assert(delta.entries@[idxs[n]].address@ != delta.entries@[idxs[m]].address@);
        }
        assert forall|n: int| 0 <= n < kept@.len() implies (#[trigger] kept@[n]).wf() by {
            assert(kept@[n] == src[idxs[n]]);
            assert(delta.entries@[idxs[n]].wf());
        }
        assert forall|n: int| 0 <= n < kept@.len() implies spec_not_funding(
            #[trigger] kept@[n],
        ) by {
            src.lemma_filter_pred(|e: DeltaEntry| spec_not_funding(e), n);
        }
    }
    StateDelta { entries: kept }
}

/// The runtime byte-code each blob decodes to, in order.
pub open spec fn spec_decoded_codes(codes: Seq<Vec<u8>>) -> Seq<Seq<u8>> {
    codes.map_values(|c: Vec<u8>| spec_runtime_bytecode(c@).unwrap())
}

/// Run one genesis generation.
///
/// `codes` holds one hex byte-code blob per registry record, in registry
/// order; `payload` is the externally encoded initialize call. The run
/// aborts — returning the error, with nothing built — on a malformed
/// stake, an unparsable blob, a balance overflow, a refused run, or any
/// transaction outcome other than success. On success every outcome
/// succeeded, each rendered analysis describes its outcome, the snapshot
/// is exactly the merge of the decoded byte-code over the registry's
/// addresses with the returned delta, the byte-code map lists exactly the
/// snapshot's coded accounts, and no artifact holds the privileged funding
/// account.
#[verifier::rlimit(100)]
pub fn genesis_generate(codes: &Vec<Vec<u8>>, payload: Vec<u8>, config: &GenesisConfig) -> (r:
    Result<GenesisArtifacts, GenerateError>)
    requires
        codes@.len() == spec_registry_tails().len(),
    ensures
        r matches Ok(a) ==> {
            &&& a.outcomes@.len() == 1
            &&& forall|i: int|
                0 <= i < a.outcomes@.len() ==> spec_is_success(&(#[trigger] a.outcomes@[i]))
            &&& a.analyses@.len() == a.outcomes@.len()
            &&& forall|i: int|
                0 <= i < a.analyses@.len() ==> (#[trigger] a.analyses@[i])@ == spec_analyze(
                    &a.outcomes@[i],
                )
            &&& !a.snapshot@.contains_key(spec_system_address(SYSTEM_CALLER_TAIL))
            &&& a.snapshot@ == spec_merged(
                spec_registry_addresses(),
                spec_decoded_codes(codes@),
                a.delta.entries@,
            )
            &&& forall|i: int|
                0 <= i < a.delta.entries@.len() ==> (#[trigger] a.delta.entries@[i]).address@
                    != spec_system_address(SYSTEM_CALLER_TAIL)
            &&& (forall|n: int, m: int|
                0 <= n < m < a.bytecode_map@.len() ==> (#[trigger] a.bytecode_map@[n]).0@ != (
                #[trigger] a.bytecode_map@[m]).0@)
            &&& (forall|n: int|
                0 <= n < a.bytecode_map@.len() ==> a.snapshot@.contains_key(
                    (#[trigger] a.bytecode_map@[n]).0@,
                ) && a.snapshot@[a.bytecode_map@[n].0@].code == Some(a.bytecode_map@[n].1@))
            &&& (forall|addr: Seq<u8>|
                a.snapshot@.contains_key(addr) && a.snapshot@[addr].code is Some ==> exists|n: int|
                    0 <= n < a.bytecode_map@.len() && (#[trigger] a.bytecode_map@[n]).0@ == addr)
            &&& (forall|n: int|
                0 <= n < a.bytecode_map@.len() ==> (#[trigger] a.bytecode_map@[n]).0@
                    != spec_system_address(SYSTEM_CALLER_TAIL))
            &&& a.warnings@.len() == codes@.len()
            &&& forall|i: int|
                0 <= i < a.warnings@.len() ==> a.warnings@[i] == spec_code_ambiguous(
                    spec_runtime_bytecode((#[trigger] codes@[i])@).unwrap(),
                )
        },
        (r matches Err(e) && e is Stake) <==> !(crate::config::spec_total_stake(config.validators@)
            matches Some(n) && n < crate::u256::p256()),
        r matches Err(GenerateError::Seed(SeedError::BadByteCode { index })) ==> 0 <= index
            < codes@.len() && spec_runtime_bytecode(codes@[index as int]@) is None,
        r matches Err(GenerateError::Seed(SeedError::BalanceOverflow))
            ==> crate::config::spec_total_stake(config.validators@) matches Some(n) && (n
            + crate::seed::FUNDING_BUFFER_WEI >= crate::u256::p256() || n
            + crate::seed::POOL_BUFFER_WEI >= crate::u256::p256()),
        r matches Err(GenerateError::TxnFailed { index, analysis }) ==> index == 0,
{
    let registry = system_contract_registry();
    let total_stake = match calculate_total_stake(config) {
        Ok(t) => t,
        Err(e) => {
            return Err(GenerateError::Stake(e));
        },
    };
    let (mut view, warnings) = match seed_world_state(&registry, codes, &total_stake) {
        Ok(p) => p,
        Err(e) => {
            return Err(GenerateError::Seed(e));
        },
    };
    let env = prepare_env(config.chain_id);
    let genesis_addr = genesis_address();
    let mut txs: Vec<TransactionEnvelope> = Vec::new();
    txs.push(call_genesis_initialize(&genesis_addr, payload, total_stake));
    let (outcomes, delta, _gw) = match execute_sequential(&mut view, &env, &txs, None) {
        Ok(p) => p,
        Err(e) => {
            return Err(GenerateError::Vm(engine_error_text(e)));
        },
    };
    let mut analyses: Vec<String> = Vec::new();
    let mut i: usize = 0;
    while i < outcomes.len()
        invariant
            i <= outcomes@.len(),
            outcomes@.len() == 1,
            crate::config::spec_total_stake(config.validators@) matches Some(n) && n
                < crate::u256::p256(),
            analyses@.len() == i,
            forall|j: int| 0 <= j < i ==> spec_is_success(&(#[trigger] outcomes@[j])),
            forall|j: int|
                0 <= j < i ==> (#[trigger] analyses@[j])@ == spec_analyze(&outcomes@[j]),
        decreases outcomes@.len() - i,
    {
        let analysis = analyze_txn_result(&outcomes[i]);
        if !is_success(&outcomes[i]) {
            return Err(GenerateError::TxnFailed { index: i, analysis });
        }
        analyses.push(analysis);
        i = i + 1;
    }
    let mut decoded: Vec<Vec<u8>> = Vec::new();
    i = 0;
    while i < codes.len()
        invariant
            i <= codes@.len(),
            decoded@.len() == i,
            forall|j: int|
                0 <= j < codes@.len() ==> spec_runtime_bytecode((#[trigger] codes@[j])@) is Some,
            forall|j: int|
                0 <= j < i ==> (#[trigger] decoded@[j])@ == spec_runtime_bytecode(
                    codes@[j]@,
                ).unwrap(),
        decreases codes@.len() - i,
    {
        match crate::seed::extract_runtime_bytecode(codes[i].as_slice()) {
            Ok((b, _)) => {
                decoded.push(b);
            },
            Err(_) => {
                proof {
                    assert(false);
                }
                return Err(GenerateError::Vm(String::new()));
            },
        }
        i = i + 1;
    }
    let delta = strip_funding_account(delta);
    let snapshot = merge_snapshot(&registry, &decoded, &delta);
    let bytecode_map = derive_bytecode_map(&snapshot);
    proof {
        assert(spec_addresses_of(registry@) =~= spec_registry_addresses());
        assert(spec_code_views(decoded@) =~= spec_decoded_codes(codes@));
        assert forall|n: int|
            0 <= n < bytecode_map@.len() implies (#[trigger] bytecode_map@[n]).0@
            != spec_system_address(SYSTEM_CALLER_TAIL) by {
            assert(snapshot@.contains_key(bytecode_map@[n].0@));
        }
    }
    Ok(GenesisArtifacts { delta, snapshot, bytecode_map, outcomes, analyses, warnings })
}

} // verus!
