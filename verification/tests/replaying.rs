use genesis_tool::abi::decode_validators;
use genesis_tool::registry::validator_manager_address;
use genesis_tool::u256::U256;
use genesis_tool::verify::{rehydrate, run_verify, AllocEntry, GenesisJson};

fn entry(code: Option<&str>) -> AllocEntry {
    AllocEntry {
        balance: Some("0x10".to_string()),
        nonce: Some(1),
        code: code.map(|c| c.to_string()),
        storage: Some(vec![("0x01".to_string(), "0x2a".to_string())]),
    }
}

fn vm_address_text() -> String {
    "0x00000000000000000000000000000001625F2001".to_string()
}

#[test]
fn rehydration_reads_fields() {
    let genesis = GenesisJson {
        alloc: vec![(vm_address_text(), entry(Some("0x6001")))],
    };
    let view = rehydrate(&genesis).unwrap();
    let account = view.get_account(&validator_manager_address()).unwrap();
    assert_eq!(account.balance, U256::from_u64(16));
    assert_eq!(account.nonce, 1);
    assert_eq!(account.code.as_ref().unwrap(), &vec![0x60, 0x01]);
    assert_eq!(account.storage_get(&U256::from_u64(1)), U256::from_u64(42));
}

#[test]
fn rehydration_rejects_bad_entries() {
    let bad_addr = GenesisJson { alloc: vec![("xyz".to_string(), entry(None))] };
    assert!(rehydrate(&bad_addr).is_err());
    let bad_code = GenesisJson {
        alloc: vec![(vm_address_text(), entry(Some("notahexblob")))],
    };
    assert!(rehydrate(&bad_code).is_err());
}

/// A snapshot without the expected contract address fails with exactly one
/// error, before the engine ever runs.
#[test]
fn verification_reports_missing_contract()
{
    let genesis = GenesisJson {
        alloc: vec![(
            "0x00000000000000000000000000000001625F0001".to_string(),
            entry(Some("0x00")),
        )],
    };
    let report = run_verify(&genesis).unwrap();
    assert!(!report.success);
    assert_eq!(report.validator_count, 0);
    assert_eq!(report.errors.len(), 1);
    assert!(report.errors[0].contains("not found"), "{}", report.errors[0]);
}

/// A query whose reply does not match the expected record shape reports a
/// schema mismatch rather than failing hard.
#[test]
fn verification_reports_schema_mismatch() {
    // The contract returns no bytes at all: PUSH1 0, PUSH1 0, RETURN.
    let genesis = GenesisJson {
        alloc: vec![(vm_address_text(), entry(Some("0x60006000f3")))],
    };
    let report = run_verify(&genesis).unwrap();
    assert!(!report.success);
    assert_eq!(report.errors.len(), 2);
    assert!(
        report.errors[0].contains("does not decode"),
        "{}",
        report.errors[0]
    );
}

/// Running the verifier twice on the same snapshot yields the same report.
#[test]
fn verification_is_repeatable() {
    let genesis = GenesisJson {
        alloc: vec![(vm_address_text(), entry(Some("0x60006000f3")))],
    };
    let r1 = run_verify(&genesis).unwrap();
    let r2 = run_verify(&genesis).unwrap();
    assert_eq!(r1.success, r2.success);
    assert_eq!(r1.validator_count, r2.validator_count);
    assert_eq!(r1.errors, r2.errors);
    assert_eq!(r1.validators.len(), r2.validators.len());
}

/// A reverting query produces a failing report with the rendered revert.
#[test]
fn verification_reports_revert() {
    // PUSH1 0, PUSH1 0, REVERT
    let genesis = GenesisJson {
        alloc: vec![(vm_address_text(), entry(Some("0x60006000fd")))],
    };
    let report = run_verify(&genesis).unwrap();
    assert!(!report.success);
    assert_eq!(report.errors.len(), 1);
    assert!(report.errors[0].contains("reverted"), "{}", report.errors[0]);
}

fn push_word(out: &mut Vec<u8>, value: u64) {
    let mut word = vec![0u8; 32];
    word[24..].copy_from_slice(&value.to_be_bytes());
    out.extend_from_slice(&word);
}

fn push_bytes(out: &mut Vec<u8>, data: &[u8]) {
    push_word(out, data.len() as u64);
    out.extend_from_slice(data);
}

/// Decode a handcrafted reply holding one validator record.
#[test]
fn decoder_reads_one_record() {
    let mut d: Vec<u8> = Vec::new();
    push_word(&mut d, 32); // head: offset of the array
    push_word(&mut d, 1); // array length
    push_word(&mut d, 32); // offset of the record, relative to the tail
    // The record's seven head words, at absolute position 96.
    let mut addr_word = vec![0u8; 32];
    for i in 12..32 {
        addr_word[i] = i as u8;
    }
    d.extend_from_slice(&addr_word);
    push_word(&mut d, 224); // consensus public key offset
    push_word(&mut d, 288); // proof-of-possession offset
    push_word(&mut d, 77); // voting power
    push_word(&mut d, 3); // validator index
    push_word(&mut d, 320); // network addresses offset
    push_word(&mut d, 384); // fullnode addresses offset
    push_bytes(&mut d, &[0xaa, 0xbb]); // pubkey, padded by hand below
    d.resize(96 + 288, 0);
    push_bytes(&mut d, &[]); // empty proof of possession
    d.resize(96 + 320, 0);
    push_bytes(&mut d, b"net");
    d.resize(96 + 384, 0);
    push_bytes(&mut d, &[]);

    let records = decode_validators(&d).unwrap();
    assert_eq!(records.len(), 1);
    let r = &records[0];
    assert_eq!(r.validator.bytes, (12u8..32).collect::<Vec<u8>>());
    assert_eq!(r.consensus_pubkey, vec![0xaa, 0xbb]);
    assert_eq!(r.consensus_pop, Vec::<u8>::new());
    assert_eq!(r.voting_power, U256::from_u64(77));
    assert_eq!(r.validator_index, 3);
    assert_eq!(r.network_addresses, b"net".to_vec());
    assert_eq!(r.fullnode_addresses, Vec::<u8>::new());

    // A truncated reply does not decode.
    assert!(decode_validators(&d[..40]).is_none());
    assert!(decode_validators(&[]).is_none());
}

/// An empty validator array decodes to a passing, empty report shape.
#[test]
fn decoder_reads_empty_array() {
    let mut d: Vec<u8> = Vec::new();
    push_word(&mut d, 32);
    push_word(&mut d, 0);
    let records = decode_validators(&d).unwrap();
    assert_eq!(records.len(), 0);
}
