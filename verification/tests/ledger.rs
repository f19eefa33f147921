use genesis_tool::account::{Account, WorldStateView};
use genesis_tool::config::{parse_address, parse_hex_bytes, parse_u128, parse_u256,
    bcs_encode_string, default_chain_id};
use genesis_tool::keccak::{derive_account_address_from_consensus_pubkey, keccak256, sha3_256};
use genesis_tool::registry::{
    genesis_address, system_caller_address, system_contract_registry, validator_manager_address,
};
use genesis_tool::seed::{extract_runtime_bytecode, seed_world_state, FUNDING_BUFFER_WEI,
    POOL_BUFFER_WEI};
use genesis_tool::u256::U256;

#[test]
fn account_storage_set_then_get() {
    let mut a = Account::empty();
    let k = U256::from_u64(1);
    a.storage_set(k, U256::from_u64(42));
    assert_eq!(a.storage_get(&k), U256::from_u64(42));
    a.storage_set(k, U256::from_u64(43));
    assert_eq!(a.storage_get(&k), U256::from_u64(43));
    assert_eq!(a.storage.len(), 1);
    assert_eq!(a.storage_get(&U256::from_u64(9)), U256::zero());
}

#[test]
fn world_state_set_get_remove() {
    let mut v = WorldStateView::new();
    let addr = genesis_address();
    assert!(v.get_account(&addr).is_none());
    let mut a = Account::empty();
    a.nonce = 5;
    v.set_account(&addr, a);
    assert_eq!(v.get_account(&addr).unwrap().nonce, 5);
    v.remove_account(&addr);
    assert!(v.get_account(&addr).is_none());
    assert_eq!(v.len(), 0);
}

#[test]
fn registry_shape() {
    let regs = system_contract_registry();
    assert_eq!(regs.len(), 20);
    assert!(regs[0].holds_pool_stake);
    for r in regs.iter().skip(1) {
        assert!(!r.holds_pool_stake);
    }
    for (i, a) in regs.iter().enumerate() {
        for b in regs.iter().skip(i + 1) {
            assert_ne!(a.address.bytes, b.address.bytes);
        }
        assert_ne!(a.address.bytes, system_caller_address().bytes);
        assert_eq!(a.address.bytes[15..18], [0x01, 0x62, 0x5f]);
    }
    assert_eq!(regs[0].address.bytes, genesis_address().bytes);
    assert_eq!(&genesis_address().bytes[18..], &[0x00, 0x01]);
    assert_eq!(&validator_manager_address().bytes[18..], &[0x20, 0x01]);
    assert_eq!(&system_caller_address().bytes[18..], &[0x00, 0x00]);
}

#[test]
fn seeding_balances_and_codes() {
    let regs = system_contract_registry();
    let codes: Vec<Vec<u8>> = (0..regs.len()).map(|_| b"6001".to_vec()).collect();
    let stake = U256::from_u64(5);
    let (view, warnings) = seed_world_state(&regs, &codes, &stake).unwrap();
    assert_eq!(warnings.len(), 20);
    assert!(warnings.iter().all(|w| !w));

    let funding = view.get_account(&system_caller_address()).unwrap();
    let expected_funding = stake
        .checked_add(&U256::from_u128(FUNDING_BUFFER_WEI))
        .unwrap();
    assert_eq!(funding.balance, expected_funding);
    assert_eq!(funding.nonce, 1);
    assert!(funding.code.is_none());

    // The registry accounts' balances sum to the stake plus the pool buffer.
    let mut sum = U256::zero();
    for r in regs.iter() {
        let account = view.get_account(&r.address).unwrap();
        assert_eq!(account.nonce, 0);
        assert_eq!(account.code.as_ref().unwrap(), &vec![0x60, 0x01]);
        sum = sum.checked_add(&account.balance).unwrap();
    }
    let expected_pool = stake.checked_add(&U256::from_u128(POOL_BUFFER_WEI)).unwrap();
    assert_eq!(sum, expected_pool);
    let pool = view.get_account(&regs[0].address).unwrap();
    assert_eq!(pool.balance, expected_pool);
}

#[test]
fn seeding_rejects_bad_bytecode() {
    let regs = system_contract_registry();
    let mut codes: Vec<Vec<u8>> = (0..regs.len()).map(|_| b"00".to_vec()).collect();
    codes[3] = b"xyz".to_vec();
    match seed_world_state(&regs, &codes, &U256::zero()) {
        Err(genesis_tool::seed::SeedError::BadByteCode { index }) => assert_eq!(index, 3),
        other => panic!("unexpected result: {other:?}"),
    }
}

#[test]
fn runtime_bytecode_heuristic() {
    let (code, ambiguous) = extract_runtime_bytecode(b" 0x6001 \n").unwrap();
    assert_eq!(code, vec![0x60, 0x01]);
    assert!(!ambiguous);
    // A long blob starting with a short push opcode looks like constructor code.
    let long_hex: Vec<u8> = std::iter::repeat(b"60".iter().copied())
        .take(101)
        .flatten()
        .collect();
    let (code2, ambiguous2) = extract_runtime_bytecode(&long_hex).unwrap();
    assert_eq!(code2.len(), 101);
    assert!(ambiguous2);
    assert!(extract_runtime_bytecode(b"abc").is_err());
}

#[test]
fn string_parsers() {
    assert_eq!(parse_u256("42").unwrap(), U256::from_u64(42));
    assert!(parse_u256("").is_err());
    assert_eq!(parse_u128("17").unwrap(), 17);
    let a = parse_address("0x00000000000000000000000000000001625F0001").unwrap();
    assert_eq!(a.bytes, genesis_address().bytes);
    assert!(parse_address("0x123").is_err());
    assert_eq!(parse_hex_bytes("0xdead").unwrap(), vec![0xde, 0xad]);
    assert_eq!(parse_hex_bytes("").unwrap(), Vec::<u8>::new());
    assert!(parse_hex_bytes("abc").is_err());
    assert_eq!(default_chain_id(), 1337);
}

#[test]
fn bcs_string_encoding() {
    assert_eq!(bcs_encode_string(""), vec![0]);
    assert_eq!(bcs_encode_string("ab"), vec![2, 97, 98]);
    let long: String = std::iter::repeat('x').take(128).collect();
    let enc = bcs_encode_string(&long);
    assert_eq!(&enc[..2], &[0x80, 0x01]);
    assert_eq!(enc.len(), 130);
}

#[test]
fn digests_match_known_vectors() {
    let k = keccak256(b"");
    assert_eq!(
        genesis_tool::hexfmt::hex_encode(&k),
        b"c5d2460186f7233c927e7db2dcc703c0e500b653ca82273b7bfad8045d85a470".to_vec()
    );
    let s = sha3_256(b"");
    assert_eq!(
        genesis_tool::hexfmt::hex_encode(&s),
        b"a7ffc6f8bf1ed76651c14756a061d662f580ff4de43b49fa82d80a4b80f8434a".to_vec()
    );
    let d = derive_account_address_from_consensus_pubkey(b"key");
    assert_eq!(d, sha3_256(b"key"));
    assert_eq!(d.len(), 32);
}
