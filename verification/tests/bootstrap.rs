use genesis_tool::config::{
    BridgeConfig, ConfigV2Data, GenesisConfig, GovernanceConfigParams, JWKInitParams,
    OracleInitParams, RandomnessConfigData, StakingConfigParams, ValidatorConfigParams,
    convert_config_to_sol, calculate_total_stake,
};
use genesis_tool::generate::{genesis_generate, GenerateError};
use genesis_tool::outcome::{analyze_txn_result, classify_selector, ErrorCause, ExecutionOutcome};
use genesis_tool::registry::{genesis_address, system_caller_address, system_contract_registry};
use genesis_tool::u256::U256;

fn minimal_config() -> GenesisConfig {
    GenesisConfig {
        chain_id: 1337,
        validator_config: ValidatorConfigParams {
            minimum_bond: "1".to_string(),
            maximum_bond: "100".to_string(),
            unbonding_delay_micros: 1,
            allow_validator_set_change: true,
            voting_power_increase_limit_pct: 10,
            max_validator_set_size: "100".to_string(),
            auto_evict_enabled: false,
            auto_evict_threshold: "".to_string(),
        },
        staking_config: StakingConfigParams {
            minimum_stake: "1".to_string(),
            lockup_duration_micros: 1,
            unbonding_delay_micros: 1,
            minimum_proposal_stake: "1".to_string(),
        },
        governance_config: GovernanceConfigParams {
            min_voting_threshold: "1".to_string(),
            required_proposer_stake: "1".to_string(),
            voting_duration_micros: 1,
            execution_delay_micros: 1,
            execution_window_micros: 1,
        },
        epoch_interval_micros: 1,
        major_version: 1,
        consensus_config: "0x00".to_string(),
        execution_config: "".to_string(),
        randomness_config: RandomnessConfigData {
            variant: 0,
            config_v2: ConfigV2Data {
                secrecy_threshold: 1,
                reconstruction_threshold: 1,
                fast_path_secrecy_threshold: 1,
            },
        },
        oracle_config: OracleInitParams {
            source_types: vec![1],
            callbacks: vec![],
            tasks: vec![],
            bridge_config: BridgeConfig {
                deploy: false,
                trusted_bridge: "".to_string(),
                trusted_source_id: 0,
            },
        },
        jwk_config: JWKInitParams { issuers: vec![], jwks: vec![] },
        validators: vec![],
    }
}

/// One contract's runtime code per registry record: the first gets the
/// given program, every other a single stop opcode.
fn codes_with_genesis_program(program_hex: &str) -> Vec<Vec<u8>> {
    let regs = system_contract_registry();
    let mut codes: Vec<Vec<u8>> = Vec::new();
    codes.push(program_hex.as_bytes().to_vec());
    for _ in 1..regs.len() {
        codes.push(b"00".to_vec());
    }
    codes
}

#[test]
fn selector_table() {
    assert_eq!(
        classify_selector(&[0x49, 0xfd, 0x36, 0xf2]),
        ErrorCause::OnlySystemCaller
    );
    assert_eq!(classify_selector(&[0x97, 0xb8, 0x83, 0x54]), ErrorCause::UnknownParam);
    assert_eq!(classify_selector(&[0x0a, 0x5a, 0x60, 0x41]), ErrorCause::InvalidValue);
    assert_eq!(classify_selector(&[0x11, 0x6c, 0x64, 0xa8]), ErrorCause::OnlyCoinbase);
    assert_eq!(classify_selector(&[0x83, 0xf1, 0xb1, 0xd3]), ErrorCause::OnlyZeroGasPrice);
    assert_eq!(
        classify_selector(&[0xf2, 0x2c, 0x43, 0x90]),
        ErrorCause::OnlySystemContract
    );
    assert_eq!(classify_selector(&[0x08, 0xc3, 0x79, 0xa0]), ErrorCause::ErrorString);
    assert_eq!(classify_selector(&[0x4e, 0x48, 0x7b, 0x71]), ErrorCause::PanicCode);
    assert_eq!(classify_selector(&[0, 0, 0, 0]), ErrorCause::Unknown);
}

#[test]
fn revert_analysis_text() {
    let o = ExecutionOutcome::Revert {
        gas_used: 5,
        output: vec![0x49, 0xfd, 0x36, 0xf2, 0xaa],
    };
    let text = analyze_txn_result(&o);
    assert_eq!(
        text,
        "Revert with gas used: 5\nFunction selector: 0x49fd36f2 (OnlySystemCaller)\nAdditional data: 0xaa"
    );
    let short = ExecutionOutcome::Revert { gas_used: 9, output: vec![] };
    assert_eq!(analyze_txn_result(&short), "Revert with gas used: 9");
    let halt = ExecutionOutcome::Halt { reason: "OutOfGas".to_string(), gas_used: 3 };
    assert_eq!(analyze_txn_result(&halt), "Halt: OutOfGas with gas used: 3");
}

#[test]
fn system_transactions_carry_unbounded_gas() {
    let txn = genesis_tool::txn::new_system_call_txn(&genesis_address(), vec![1, 2]);
    assert_eq!(txn.gas_limit, u64::MAX);
    assert_eq!(txn.gas_price, 0);
    let query = genesis_tool::abi::call_get_active_validators();
    assert_eq!(query.gas_limit, u64::MAX);
    assert_eq!(query.data.len(), 4);
}

fn diag_log(message: &[u8], value: u64) -> genesis_tool::outcome::LogRecord {
    let topic = genesis_tool::keccak::keccak256(b"Log(string,uint256)");
    let mut data = vec![0u8; 32];
    data[31] = 64; // offset of the message
    let mut value_word = vec![0u8; 32];
    value_word[24..].copy_from_slice(&value.to_be_bytes());
    data.extend_from_slice(&value_word);
    let mut len_word = vec![0u8; 32];
    len_word[31] = message.len() as u8;
    data.extend_from_slice(&len_word);
    data.extend_from_slice(message);
    genesis_tool::outcome::LogRecord { topics: vec![topic], data }
}

#[test]
fn success_analysis_renders_every_decoded_event() {
    let o = ExecutionOutcome::Success {
        gas_used: 1,
        output: vec![],
        logs: vec![diag_log(b"hi", 7), diag_log(&[0xc3, 0xa9], 9)],
    };
    assert_eq!(
        analyze_txn_result(&o),
        "Success with gas used: 1, txn event Log: \"hi\", 7.txn event Log: \"0xc3a9\", 9."
    );
}

#[test]
fn total_stake_sums_validators() {
    let mut config = minimal_config();
    assert_eq!(calculate_total_stake(&config).unwrap(), U256::zero());
    let mut v = genesis_tool::config::InitialValidator {
        operator: "0x00000000000000000000000000000001625F0001".to_string(),
        owner: "0x00000000000000000000000000000001625F0001".to_string(),
        stake_amount: "40".to_string(),
        moniker: "a".to_string(),
        consensus_pubkey: "0xaa".to_string(),
        consensus_pop: "0xbb".to_string(),
        network_addresses: "/ip4/127.0.0.1".to_string(),
        fullnode_addresses: "/ip4/127.0.0.1".to_string(),
        voting_power: "40".to_string(),
    };
    config.validators.push(clone_validator(&v));
    v.stake_amount = "2".to_string();
    config.validators.push(v);
    assert_eq!(calculate_total_stake(&config).unwrap(), U256::from_u64(42));
}

fn clone_validator(
    v: &genesis_tool::config::InitialValidator,
) -> genesis_tool::config::InitialValidator {
    genesis_tool::config::InitialValidator {
        operator: v.operator.clone(),
        owner: v.owner.clone(),
        stake_amount: v.stake_amount.clone(),
        moniker: v.moniker.clone(),
        consensus_pubkey: v.consensus_pubkey.clone(),
        consensus_pop: v.consensus_pop.clone(),
        network_addresses: v.network_addresses.clone(),
        fullnode_addresses: v.fullnode_addresses.clone(),
        voting_power: v.voting_power.clone(),
    }
}

#[test]
fn config_conversion_parses_fields() {
    let mut config = minimal_config();
    config.oracle_config.callbacks.push(
        "0x00000000000000000000000000000001625F4000".to_string(),
    );
    config.oracle_config.tasks.push(genesis_tool::config::OracleTaskParams {
        source_type: 2,
        source_id: 9,
        task_name: "0x01".to_string(),
        config: "u".to_string(),
    });
    let p = convert_config_to_sol(&config).unwrap();
    assert_eq!(p.validator_config.minimum_bond, U256::from_u64(1));
    assert_eq!(p.validator_config.auto_evict_threshold, U256::zero());
    assert_eq!(p.consensus_config, vec![0x00]);
    assert_eq!(p.execution_config, Vec::<u8>::new());
    assert_eq!(p.oracle_config.callbacks.len(), 1);
    let mut expected_name = vec![0x01];
    expected_name.resize(32, 0);
    assert_eq!(p.oracle_config.tasks[0].task_name, expected_name);
    assert_eq!(p.oracle_config.tasks[0].config, b"u".to_vec());
    assert_eq!(p.oracle_config.bridge_config.trusted_bridge.bytes, vec![0u8; 20]);

    // A hashed task name is the digest of the name's bytes.
    config.oracle_config.tasks[0].task_name = "events".to_string();
    let p2 = convert_config_to_sol(&config).unwrap();
    assert_eq!(
        p2.oracle_config.tasks[0].task_name,
        genesis_tool::keccak::keccak256(b"events")
    );

    config.validator_config.minimum_bond = "bad".to_string();
    assert!(convert_config_to_sol(&config).is_err());
}

/// Seed one contract with a program that writes 42 into slot 1, execute
/// the single bootstrap call, and merge: the snapshot keeps the code
/// unchanged and holds the new storage value, and never the funding
/// account.
#[test]
fn generation_commits_storage_and_merges() {
    // PUSH1 42, PUSH1 1, SSTORE, STOP
    let artifacts = genesis_generate(
        &codes_with_genesis_program("602a60015500"),
        vec![],
        &minimal_config(),
    )
    .unwrap();
    assert_eq!(artifacts.outcomes.len(), 1);
    assert!(genesis_tool::outcome::is_success(&artifacts.outcomes[0]));
    assert_eq!(artifacts.analyses.len(), 1);

    let genesis_addr = genesis_address();
    let snap = &artifacts.snapshot;
    let account = snap.get_account(&genesis_addr).unwrap();
    assert_eq!(
        account.code.as_ref().unwrap(),
        &vec![0x60, 0x2a, 0x60, 0x01, 0x55, 0x00]
    );
    assert_eq!(account.storage_get(&U256::from_u64(1)), U256::from_u64(42));

    // The funding account appears neither in the snapshot nor the delta.
    assert!(snap.get_account(&system_caller_address()).is_none());
    for e in artifacts.delta.entries.iter() {
        assert_ne!(e.address.bytes, system_caller_address().bytes);
    }

    // The byte-code map reproduces every seeded blob at its address.
    let regs = system_contract_registry();
    assert_eq!(artifacts.bytecode_map.len(), regs.len());
    for r in regs.iter() {
        let found = artifacts
            .bytecode_map
            .iter()
            .find(|(a, _)| a.bytes == r.address.bytes)
            .expect("registry address missing from byte-code map");
        let expected = if r.holds_pool_stake {
            vec![0x60, 0x2a, 0x60, 0x01, 0x55, 0x00]
        } else {
            vec![0x00]
        };
        assert_eq!(found.1, expected);
    }
}

/// A revert whose selector names the caller-not-authorized error aborts
/// the run with that classification and produces no artifacts.
#[test]
fn generation_aborts_on_classified_revert() {
    // PUSH4 selector, PUSH1 0, MSTORE, PUSH1 4, PUSH1 28, REVERT
    let revert_program = "6349fd36f26000526004601cfd";
    match genesis_generate(
        &codes_with_genesis_program(revert_program),
        vec![],
        &minimal_config(),
    ) {
        Err(GenerateError::TxnFailed { index, analysis }) => {
            assert_eq!(index, 0);
            assert!(analysis.contains("OnlySystemCaller"), "analysis: {analysis}");
            assert!(analysis.contains("0x49fd36f2"), "analysis: {analysis}");
        },
        other => panic!("unexpected result: {other:?}"),
    }
}

#[test]
fn generation_rejects_malformed_stake() {
    let mut config = minimal_config();
    config.validators.push(genesis_tool::config::InitialValidator {
        operator: "0x00000000000000000000000000000001625F0001".to_string(),
        owner: "0x00000000000000000000000000000001625F0001".to_string(),
        stake_amount: "not-a-number".to_string(),
        moniker: "a".to_string(),
        consensus_pubkey: "".to_string(),
        consensus_pop: "".to_string(),
        network_addresses: "".to_string(),
        fullnode_addresses: "".to_string(),
        voting_power: "1".to_string(),
    });
    match genesis_generate(&codes_with_genesis_program("00"), vec![], &config) {
        Err(GenerateError::Stake(_)) => {},
        other => panic!("unexpected result: {other:?}"),
    }
}
