//! The registry of system contracts.
//!
//! A fixed, ordered list correlating each system contract's name with its
//! reserved address. Exactly one record — the genesis contract — is
//! designated to hold the pooled validator stake. The privileged funding
//! account sits at the reserved address with tail zero and is never part of
//! the registry.

use vstd::prelude::*;
use crate::address::{Address, spec_system_address, system_address, lemma_system_address_injective};

verus! {

/// One registered system contract: a unique name, its reserved address, and
/// whether it is the contract designated to hold the pooled stake.
#[derive(Debug)]
pub struct SystemContractRecord {
    pub name: String,
    pub address: Address,
    pub holds_pool_stake: bool,
}

/// Address tails of the registered contracts, in registry order.
pub open spec fn spec_registry_tails() -> Seq<u16> {
    seq![
        0x0001u16,
        0x2003u16,
        0x1001u16,
        0x2000u16,
        0x2001u16,
        0x3000u16,
        0x1002u16,
        0x2004u16,
        0x1000u16,
        0x4001u16,
        0x4000u16,
        0x1003u16,
        0x2002u16,
        0x1004u16,
        0x1005u16,
        0x1006u16,
        0x1007u16,
        0x1008u16,
        0x1009u16,
        0x100Au16,
    ]
}

/// Names of the registered contracts, in registry order. The byte-code
/// source supplies one blob per name, so the names are part of the
/// registry's contract.
pub open spec fn spec_registry_names() -> Seq<Seq<char>> {
    seq![
        "Genesis"@,
        "Reconfiguration"@,
        "StakingConfig"@,
        "Staking"@,
        "ValidatorManagement"@,
        "Governance"@,
        "ValidatorConfig"@,
        "Blocker"@,
        "Timestamp"@,
        "JWKManager"@,
        "NativeOracle"@,
        "RandomnessConfig"@,
        "DKG"@,
        "GovernanceConfig"@,
        "EpochConfig"@,
        "VersionConfig"@,
        "ConsensusConfig"@,
        "ExecutionConfig"@,
        "OracleTaskConfig"@,
        "OnDemandOracleTaskConfig"@,
    ]
}

/// The registered contracts' addresses, in registry order: the reserved
/// system addresses of the registry's tails.
pub open spec fn spec_registry_addresses() -> Seq<Seq<u8>> {
    spec_registry_tails().map_values(|t: u16| spec_system_address(t))
}

/// Tail of the privileged funding account's reserved address.
pub const SYSTEM_CALLER_TAIL: u16 = 0x0000;

/// Tail of the genesis contract's reserved address.
pub const GENESIS_TAIL: u16 = 0x0001;

/// Tail of the validator-set management contract's reserved address.
pub const VALIDATOR_MANAGER_TAIL: u16 = 0x2001;

/// The privileged funding account's address: an execution fixture, never a
/// network participant.
pub fn system_caller_address() -> (r: Address)
    ensures
        r@ == spec_system_address(SYSTEM_CALLER_TAIL),
        r.wf(),
{
    system_address(SYSTEM_CALLER_TAIL)
}

/// The genesis contract's address.
pub fn genesis_address() -> (r: Address)
    ensures
        r@ == spec_system_address(GENESIS_TAIL),
        r.wf(),
{
    system_address(GENESIS_TAIL)
}

/// The validator-set management contract's address.
pub fn validator_manager_address() -> (r: Address)
    ensures
        r@ == spec_system_address(VALIDATOR_MANAGER_TAIL),
        r.wf(),
{
    system_address(VALIDATOR_MANAGER_TAIL)
}

/// Build the registry: twenty records in a fixed order, addresses distinct,
/// none of them the funding account's, and exactly the first — the genesis
/// contract — designated to hold the pooled stake.
pub fn system_contract_registry() -> (r: Vec<SystemContractRecord>)
    ensures
        r@.len() == spec_registry_tails().len(),
        forall|i: int|
            0 <= i < r@.len() ==> (#[trigger] r@[i]).address@ == spec_system_address(
                spec_registry_tails()[i],
            ),
        forall|i: int| 0 <= i < r@.len() ==> (#[trigger] r@[i]).address.wf(),
        forall|i: int| 0 <= i < r@.len() ==> ((#[trigger] r@[i]).holds_pool_stake <==> i == 0),
        forall|i: int, j: int|
            0 <= i < j < r@.len() ==> (#[trigger] r@[i]).address@ != (#[trigger] r@[j]).address@,
        forall|i: int|
            0 <= i < r@.len() ==> (#[trigger] r@[i]).address@ != spec_system_address(
                SYSTEM_CALLER_TAIL,
            ),
        forall|i: int| 0 <= i < r@.len() ==> (#[trigger] r@[i]).name@ == spec_registry_names()[i],
{
    let mut r: Vec<SystemContractRecord> = Vec::new();
    push_record(&mut r, "Genesis", 0x0001, true);
    push_record(&mut r, "Reconfiguration", 0x2003, false);
    push_record(&mut r, "StakingConfig", 0x1001, false);
    push_record(&mut r, "Staking", 0x2000, false);
    push_record(&mut r, "ValidatorManagement", 0x2001, false);
    push_record(&mut r, "Governance", 0x3000, false);
    push_record(&mut r, "ValidatorConfig", 0x1002, false);
    push_record(&mut r, "Blocker", 0x2004, false);
    push_record(&mut r, "Timestamp", 0x1000, false);
    push_record(&mut r, "JWKManager", 0x4001, false);
    push_record(&mut r, "NativeOracle", 0x4000, false);
    push_record(&mut r, "RandomnessConfig", 0x1003, false);
    push_record(&mut r, "DKG", 0x2002, false);
    push_record(&mut r, "GovernanceConfig", 0x1004, false);
    push_record(&mut r, "EpochConfig", 0x1005, false);
    push_record(&mut r, "VersionConfig", 0x1006, false);
    push_record(&mut r, "ConsensusConfig", 0x1007, false);
    push_record(&mut r, "ExecutionConfig", 0x1008, false);
    push_record(&mut r, "OracleTaskConfig", 0x1009, false);
    push_record(&mut r, "OnDemandOracleTaskConfig", 0x100A, false);
    proof {
        let tails = spec_registry_tails();
        assert forall|i: int, j: int|
            0 <= i < j < r@.len() implies (#[trigger] r@[i]).address@ != (
        #[trigger] r@[j]).address@ by {
            assert(tails[i] != tails[j]);
            lemma_system_address_injective(tails[i], tails[j]);
        }
        assert forall|i: int|
            0 <= i < r@.len() implies (#[trigger] r@[i]).address@ != spec_system_address(
            SYSTEM_CALLER_TAIL,
        ) by {
            assert(tails[i] != SYSTEM_CALLER_TAIL);
            lemma_system_address_injective(tails[i], SYSTEM_CALLER_TAIL);
        }
    }
    r
}

/// Append one record with the reserved address of the given tail.
fn push_record(r: &mut Vec<SystemContractRecord>, name: &str, tail: u16, holds_pool_stake: bool)
    ensures
        final(r)@.len() == old(r)@.len() + 1,
        forall|i: int| 0 <= i < old(r)@.len() ==> final(r)@[i] == old(r)@[i],
        final(r)@.last().address@ == spec_system_address(tail),
        final(r)@.last().address.wf(),
        final(r)@.last().holds_pool_stake == holds_pool_stake,
        final(r)@.last().name@ == name@,
{
    let address = system_address(tail);
    let name = name.to_owned();
    r.push(SystemContractRecord { name, address, holds_pool_stake });
}

} // verus!
