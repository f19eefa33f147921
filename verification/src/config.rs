//! The bootstrap configuration and its validated form.
//!
//! The configuration arrives as plain text fields — decimal amounts, hex
//! blobs, addresses — and is validated and parsed into typed initialize
//! parameters. An external encoder turns the typed parameters into the one
//! binary call payload; the library never inspects that payload's
//! structure.

use vstd::prelude::*;
use vstd::string::StringSliceAdditionalSpecFns;
use crate::address::{Address, AddrParseError, parse_address_bytes};
use crate::hexfmt::{spec_hex_decode, hex_decode_digits};
use crate::u256::{
    U256, NumParseError, spec_dec_value, parse_u256_dec, parse_u128_dec, p256,
    spec_hex_field_stripped,
};

verus! {

/// The network's chain identifier when the configuration names none.
pub fn default_chain_id() -> (r: u64)
    ensures
        r == 1337,
{
    1337
}

/// Validator-set configuration, as text fields.
#[derive(Debug)]
pub struct ValidatorConfigParams {
    pub minimum_bond: String,
    pub maximum_bond: String,
    pub unbonding_delay_micros: u64,
    pub allow_validator_set_change: bool,
    pub voting_power_increase_limit_pct: u64,
    pub max_validator_set_size: String,
    pub auto_evict_enabled: bool,
    pub auto_evict_threshold: String,
}

/// Staking configuration, as text fields.
#[derive(Debug)]
pub struct StakingConfigParams {
    pub minimum_stake: String,
    pub lockup_duration_micros: u64,
    pub unbonding_delay_micros: u64,
    pub minimum_proposal_stake: String,
}

/// Governance configuration, as text fields.
#[derive(Debug)]
pub struct GovernanceConfigParams {
    pub min_voting_threshold: String,
    pub required_proposer_stake: String,
    pub voting_duration_micros: u64,
    pub execution_delay_micros: u64,
    pub execution_window_micros: u64,
}

/// The randomness scheme's inner thresholds.
#[derive(Debug)]
pub struct ConfigV2Data {
    pub secrecy_threshold: u128,
    pub reconstruction_threshold: u128,
    pub fast_path_secrecy_threshold: u128,
}

/// Randomness configuration: a variant tag and its thresholds.
#[derive(Debug)]
pub struct RandomnessConfigData {
    pub variant: u8,
    pub config_v2: ConfigV2Data,
}

/// One oracle task: a source, a name, and a configuration string.
#[derive(Debug)]
pub struct OracleTaskParams {
    pub source_type: u32,
    pub source_id: u64,
    pub task_name: String,
    pub config: String,
}

/// Bridge deployment configuration.
#[derive(Debug)]
pub struct BridgeConfig {
    pub deploy: bool,
    pub trusted_bridge: String,
    pub trusted_source_id: u64,
}

/// Oracle configuration: sources, callback addresses, tasks and the bridge.
#[derive(Debug)]
pub struct OracleInitParams {
    pub source_types: Vec<u32>,
    pub callbacks: Vec<String>,
    pub tasks: Vec<OracleTaskParams>,
    pub bridge_config: BridgeConfig,
}

/// One RSA JSON web key.
#[allow(non_camel_case_types)]
#[derive(Debug)]
pub struct RSA_JWK_Json {
    pub kid: String,
    pub kty: String,
    pub alg: String,
    pub e: String,
    pub n: String,
}

/// JSON-web-key configuration: issuers and their keys.
#[derive(Debug)]
pub struct JWKInitParams {
    pub issuers: Vec<String>,
    pub jwks: Vec<Vec<RSA_JWK_Json>>,
}

/// One initial validator, as text fields.
#[derive(Debug)]
pub struct InitialValidator {
    pub operator: String,
    pub owner: String,
    pub stake_amount: String,
    pub moniker: String,
    pub consensus_pubkey: String,
    pub consensus_pop: String,
    pub network_addresses: String,
    pub fullnode_addresses: String,
    pub voting_power: String,
}

/// The whole bootstrap configuration, as read from the caller.
#[derive(Debug)]
pub struct GenesisConfig {
    pub chain_id: u64,
    pub validator_config: ValidatorConfigParams,
    pub staking_config: StakingConfigParams,
    pub governance_config: GovernanceConfigParams,
    pub epoch_interval_micros: u64,
    pub major_version: u64,
    pub consensus_config: String,
    pub execution_config: String,
    pub randomness_config: RandomnessConfigData,
    pub oracle_config: OracleInitParams,
    pub jwk_config: JWKInitParams,
    pub validators: Vec<InitialValidator>,
}

/// The byte encoding of a string value.
pub open spec fn string_bytes(s: String) -> Seq<u8> {
    vstd::utf8::encode_utf8(s@)
}

/// Whether decimal text denotes a 256-bit number.
pub open spec fn spec_u256_text_ok(s: Seq<u8>) -> bool {
    &&& s.len() > 0
    &&& spec_dec_value(s) is Some
    &&& spec_dec_value(s).unwrap() < p256()
}

/// Parse a decimal amount into a 256-bit number.
pub fn parse_u256(s: &str) -> (r: Result<U256, NumParseError>)
    ensures
        r is Ok <==> spec_u256_text_ok(s.spec_bytes()),
        r matches Ok(v) ==> spec_dec_value(s.spec_bytes()) == Some(v.as_nat()),
{
    parse_u256_dec(s.as_bytes())
}

/// Parse a decimal amount into a 128-bit number.
pub fn parse_u128(s: &str) -> (r: Result<u128, NumParseError>)
    ensures
        r is Ok <==> (s.spec_bytes().len() > 0 && spec_dec_value(s.spec_bytes()) is Some
            && spec_dec_value(s.spec_bytes()).unwrap() <= u128::MAX),
        r matches Ok(v) ==> spec_dec_value(s.spec_bytes()) == Some(v as nat),
{
    parse_u128_dec(s.as_bytes())
}

/// Parse an address from its 40-hex-digit text, optional `0x` prefix.
pub fn parse_address(s: &str) -> (r: Result<Address, AddrParseError>)
    ensures
        r matches Ok(a) ==> {
            &&& spec_hex_decode(spec_hex_field_stripped(s.spec_bytes())) matches Some(b)
            &&& a@ == spec_hex_decode(spec_hex_field_stripped(s.spec_bytes())).unwrap()
            &&& a.wf()
        },
        r is Err ==> !spec_address_text_ok(s.spec_bytes()),
        r is Ok <==> spec_address_text_ok(s.spec_bytes()),
{
    let r = parse_address_bytes(s.as_bytes());
    proof {
        if r is Ok {
            crate::address::lemma_hex_decode_len(spec_hex_field_stripped(s.spec_bytes()));
        }
    }
    r
}

/// Whether text denotes an address: 40 hex digits after an optional `0x`.
pub open spec fn spec_address_text_ok(s: Seq<u8>) -> bool {
    &&& spec_hex_field_stripped(s).len() == 40
    &&& spec_hex_decode(spec_hex_field_stripped(s)) is Some
}

/// Whether hex-blob text denotes bytes: after removing an optional `0x`,
/// empty or an even run of hex digits.
pub open spec fn spec_hex_text_ok(s: Seq<u8>) -> bool {
    spec_hex_field_stripped(s).len() == 0 || spec_hex_decode(spec_hex_field_stripped(s)) is Some
}

/// The bytes hex-blob text denotes; empty text denotes no bytes.
pub open spec fn spec_hex_text_bytes(s: Seq<u8>) -> Seq<u8> {
    if spec_hex_field_stripped(s).len() == 0 {
        Seq::empty()
    } else {
        spec_hex_decode(spec_hex_field_stripped(s)).unwrap()
    }
}

/// Parse a hex blob, with an optional `0x` prefix; empty text gives no
/// bytes.
pub fn parse_hex_bytes(s: &str) -> (r: Result<Vec<u8>, NumParseError>)
    ensures
        r is Ok <==> spec_hex_text_ok(s.spec_bytes()),
        r matches Ok(v) ==> v@ == spec_hex_text_bytes(s.spec_bytes()),
{
    let bytes = s.as_bytes();
    let stripped: &[u8] = if bytes.len() >= 2 && bytes[0] == 0x30 && bytes[1] == 0x78 {
        let d = vstd::slice::slice_subrange(bytes, 2, bytes.len());
        proof {
            assert(bytes@.subrange(2, bytes@.len() as int) =~= bytes@.skip(2));
        }
        d
    } else {
        bytes
    };
    if stripped.len() == 0 {
        let empty: Vec<u8> = Vec::new();
        return Ok(empty);
    }
    match hex_decode_digits(stripped) {
        Some(v) => Ok(v),
        None => Err(NumParseError::Malformed),
    }
}

/// The little-endian base-128 length prefix of the serialization format
/// used for network addresses.
pub open spec fn spec_uleb128(n: nat) -> Seq<u8>
    decreases n,
{
    if n < 0x80 {
        seq![n as u8]
    } else {
        seq![(0x80 + n % 0x80) as u8] + spec_uleb128(n / 0x80)
    }
}

/// The serialized form of a string: its byte length as a little-endian
/// base-128 prefix, then its bytes.
pub open spec fn spec_bcs_string(s: Seq<u8>) -> Seq<u8> {
    spec_uleb128(s.len()) + s
}

/// Serialize a string: length prefix, then bytes.
pub fn bcs_encode_string(s: &str) -> (r: Vec<u8>)
    ensures
        r@ == spec_bcs_string(s.spec_bytes()),
{
    let bytes = s.as_bytes();
    let ghost n0 = bytes@.len();
    let mut out: Vec<u8> = Vec::new();
    let mut m: usize = bytes.len();
    while m >= 0x80
        invariant
            spec_uleb128(n0) =~= out@ + spec_uleb128(m as nat),
        decreases m,
    {
        let ghost prev = out@;
        out.push((0x80 + (m % 0x80) as u8) as u8);
        proof {
            assert((m % 0x80) as nat == (m as nat) % 0x80);
            assert((m / 0x80) as nat == (m as nat) / 0x80);
            assert(out@ =~= prev + seq![(0x80 + (m as nat) % 0x80) as u8]);
            assert(prev + (seq![(0x80 + (m as nat) % 0x80) as u8] + spec_uleb128(
                (m as nat) / 0x80,
            )) =~= (prev + seq![(0x80 + (m as nat) % 0x80) as u8]) + spec_uleb128(
                (m as nat) / 0x80,
            ));
        }
        m = m / 0x80;
    }
    let ghost prev = out@;
    out.push(m as u8);
    proof {
        assert(spec_uleb128(m as nat) =~= seq![m as u8]);
        assert(out@ =~= prev + seq![m as u8]);
        assert(out@ =~= spec_uleb128(n0));
    }
    let mut i: usize = 0;
    let ghost prefix = out@;
    while i < bytes.len()
        invariant
            i <= bytes@.len(),
            out@ =~= prefix + bytes@.take(i as int),
        decreases bytes@.len() - i,
    {
        out.push(bytes[i]);
        proof {
            assert(out@ =~= prefix + bytes@.take(i + 1));
        }
        i = i + 1;
    }
    proof {
        assert(bytes@.take(bytes@.len() as int) =~= bytes@);
    }
    out
}

/// The aggregate stake of a validator list, `None` when any amount is
/// malformed.
pub open spec fn spec_total_stake(vs: Seq<InitialValidator>) -> Option<nat>
    decreases vs.len(),
{
    if vs.len() == 0 {
        Some(0)
    } else {
        match (spec_total_stake(vs.drop_last()), spec_dec_value(
            string_bytes(vs.last().stake_amount),
        )) {
            (Some(a), Some(b)) => if string_bytes(vs.last().stake_amount).len() > 0 {
                Some((a + b) as nat)
            } else {
                None
            },
            _ => None,
        }
    }
}

/// A prefix of the validator list stakes at most what the whole list does.
proof fn lemma_total_stake_prefix_le(vs: Seq<InitialValidator>, i: int)
    requires
        0 <= i <= vs.len(),
        spec_total_stake(vs) is Some,
    ensures
        spec_total_stake(vs.take(i)) is Some,
        spec_total_stake(vs.take(i)).unwrap() <= spec_total_stake(vs).unwrap(),
    decreases vs.len() - i,
{
    if i < vs.len() {
        lemma_total_stake_prefix_le(vs, i + 1);
        let t = vs.take(i + 1);
        assert(t.drop_last() =~= vs.take(i));
        assert(t.last() == vs[i]);
    } else {
        assert(vs.take(i) =~= vs);
    }
}

/// Sum the validators' stake amounts.
///
/// Returns `Ok` exactly when every stake amount is well-formed decimal
/// text and the sum fits in 256 bits.
pub fn calculate_total_stake(config: &GenesisConfig) -> (r: Result<U256, NumParseError>)
    ensures
        match r {
            Ok(v) => spec_total_stake(config.validators@) == Some(v.as_nat()),
            Err(NumParseError::Malformed) => spec_total_stake(config.validators@) is None,
            Err(NumParseError::Overflow) => spec_total_stake(config.validators@) matches Some(n)
                && n >= p256(),
        },
        r is Ok <==> (spec_total_stake(config.validators@) matches Some(n) && n < p256()),
{
    let vs = &config.validators;
    let mut i: usize = 0;
    while i < vs.len()
        invariant
            i <= vs@.len(),
            vs@ == config.validators@,
            forall|j: int|
                0 <= j < i ==> string_bytes((#[trigger] vs@[j]).stake_amount).len() > 0
                    && spec_dec_value(string_bytes(vs@[j].stake_amount)) is Some,
        decreases vs@.len() - i,
    {
        let sa = vs[i].stake_amount.as_str();
        proof {
            assert(sa@ == vs@[i as int].stake_amount@);
            assert(sa.spec_bytes() == string_bytes(vs@[i as int].stake_amount));
        }
        if !dec_text_wf(sa) {
            proof {
                lemma_total_stake_none(vs@, i as int);
            }
            return Err(NumParseError::Malformed);
        }
        i = i + 1;
    }
    proof {
        lemma_total_stake_some(vs@);
    }
    let mut total = U256::zero();
    i = 0;
    while i < vs.len()
        invariant
            i <= vs@.len(),
            vs@ == config.validators@,
            spec_total_stake(vs@) is Some,
            forall|j: int|
                0 <= j < vs@.len() ==> string_bytes((#[trigger] vs@[j]).stake_amount).len() > 0
                    && spec_dec_value(string_bytes(vs@[j].stake_amount)) is Some,
            spec_total_stake(vs@.take(i as int)) == Some(total.as_nat()),
        decreases vs@.len() - i,
    {
        proof {
            let t = vs@.take(i + 1);
            assert(t.drop_last() =~= vs@.take(i as int));
            assert(t.last() == vs@[i as int]);
        }
        let ghost v = spec_dec_value(string_bytes(vs@[i as int].stake_amount)).unwrap();
        let sa = vs[i].stake_amount.as_str();
        proof {
            assert(sa@ == vs@[i as int].stake_amount@);
            assert(sa.spec_bytes() == string_bytes(vs@[i as int].stake_amount));
        }
        match parse_u256(sa) {
            Ok(stake) => {
                match total.checked_add(&stake) {
                    Some(next) => {
                        proof {
                            assert(spec_total_stake(vs@.take(i + 1)) == Some(
                                (total.as_nat() + v) as nat,
                            ));
                        }
                        total = next;
                    },
                    None => {
                        proof {
                            assert(total.as_nat() + v >= p256());
                            assert(spec_total_stake(vs@.take(i + 1)) == Some(
                                (total.as_nat() + v) as nat,
                            ));
                            lemma_total_stake_prefix_le(vs@, i + 1);
                        }
                        return Err(NumParseError::Overflow);
                    },
                }
            },
            Err(_) => {
                proof {
                    assert(v >= p256());
                    assert(spec_total_stake(vs@.take(i + 1)) == Some(
                        (total.as_nat() + v) as nat,
                    ));
                    lemma_total_stake_prefix_le(vs@, i + 1);
                }
                return Err(NumParseError::Overflow);
            },
        }
        i = i + 1;
    }
    proof {
        assert(vs@.take(vs@.len() as int) =~= vs@);
    }
    Ok(total)
}

/// Validated validator-set configuration.
#[derive(Debug)]
pub struct InitValidatorConfig {
    pub minimum_bond: U256,
    pub maximum_bond: U256,
    pub unbonding_delay_micros: u64,
    pub allow_validator_set_change: bool,
    pub voting_power_increase_limit_pct: u64,
    pub max_validator_set_size: U256,
    pub auto_evict_enabled: bool,
    pub auto_evict_threshold: U256,
}

/// Validated staking configuration.
#[derive(Debug)]
pub struct InitStakingConfig {
    pub minimum_stake: U256,
    pub lockup_duration_micros: u64,
    pub unbonding_delay_micros: u64,
    pub minimum_proposal_stake: U256,
}

/// Validated governance configuration.
#[derive(Debug)]
pub struct InitGovernanceConfig {
    pub min_voting_threshold: u128,
    pub required_proposer_stake: U256,
    pub voting_duration_micros: u64,
    pub execution_delay_micros: u64,
    pub execution_window_micros: u64,
}

/// Validated oracle task: the name resolved to its 32-byte identifier.
#[derive(Debug)]
pub struct InitOracleTask {
    pub source_type: u32,
    pub source_id: u64,
    pub task_name: Vec<u8>,
    pub config: Vec<u8>,
}

/// Validated bridge configuration.
#[derive(Debug)]
pub struct InitBridgeConfig {
    pub deploy: bool,
    pub trusted_bridge: Address,
    pub trusted_source_id: u64,
}

/// Validated oracle configuration.
#[derive(Debug)]
pub struct InitOracleConfig {
    pub source_types: Vec<u32>,
    pub callbacks: Vec<Address>,
    pub tasks: Vec<InitOracleTask>,
    pub bridge_config: InitBridgeConfig,
}

/// Validated key-set configuration: issuers decoded, keys passed through.
#[derive(Debug)]
pub struct InitJwkConfig {
    pub issuers: Vec<Vec<u8>>,
    pub jwks: Vec<Vec<RSA_JWK_Json>>,
}

/// One validated initial validator.
#[derive(Debug)]
pub struct InitValidator {
    pub operator: Address,
    pub owner: Address,
    pub stake_amount: U256,
    pub moniker: String,
    pub consensus_pubkey: Vec<u8>,
    pub consensus_pop: Vec<u8>,
    pub network_addresses: Vec<u8>,
    pub fullnode_addresses: Vec<u8>,
    pub voting_power: U256,
}

/// The validated initialize parameters the external encoder turns into the
/// one binary call payload.
#[derive(Debug)]
pub struct GenesisInitParams {
    pub validator_config: InitValidatorConfig,
    pub staking_config: InitStakingConfig,
    pub governance_config: InitGovernanceConfig,
    pub epoch_interval_micros: u64,
    pub major_version: u64,
    pub consensus_config: Vec<u8>,
    pub execution_config: Vec<u8>,
    pub randomness_config: RandomnessConfigData,
    pub oracle_config: InitOracleConfig,
    pub jwk_config: InitJwkConfig,
    pub validators: Vec<InitValidator>,
}

/// Whether a task name resolves to a 32-byte identifier: hex text of at
/// most 32 bytes when `0x`-prefixed, anything otherwise (it is hashed).
pub open spec fn spec_task_name_ok(s: Seq<u8>) -> bool {
    if s.len() >= 2 && s[0] == 0x30 && s[1] == 0x78 {
        spec_hex_decode(s.skip(2)) matches Some(b) && b.len() <= 32
    } else {
        true
    }
}

/// The 32-byte identifier a task name resolves to: its decoded bytes
/// padded with zeros on the right when `0x`-prefixed, else its digest.
pub open spec fn spec_task_name_id(s: Seq<u8>) -> Seq<u8> {
    if s.len() >= 2 && s[0] == 0x30 && s[1] == 0x78 {
        let b = spec_hex_decode(s.skip(2)).unwrap();
        b + Seq::new((32 - b.len()) as nat, |i: int| 0u8)
    } else {
        crate::keccak::keccak256_of(s)
    }
}

/// Whether every text field of the configuration is well-formed.
pub open spec fn spec_config_valid(c: &GenesisConfig) -> bool {
    &&& spec_u256_text_ok(string_bytes(c.validator_config.minimum_bond))
    &&& spec_u256_text_ok(string_bytes(c.validator_config.maximum_bond))
    &&& spec_u256_text_ok(string_bytes(c.validator_config.max_validator_set_size))
    &&& (string_bytes(c.validator_config.auto_evict_threshold).len() == 0 || spec_u256_text_ok(
        string_bytes(c.validator_config.auto_evict_threshold),
    ))
    &&& spec_u256_text_ok(string_bytes(c.staking_config.minimum_stake))
    &&& spec_u256_text_ok(string_bytes(c.staking_config.minimum_proposal_stake))
    &&& {
        let t = string_bytes(c.governance_config.min_voting_threshold);
        t.len() > 0 && spec_dec_value(t) is Some && spec_dec_value(t).unwrap() <= u128::MAX
    }
    &&& spec_u256_text_ok(string_bytes(c.governance_config.required_proposer_stake))
    &&& spec_hex_text_ok(string_bytes(c.consensus_config))
    &&& spec_hex_text_ok(string_bytes(c.execution_config))
    &&& (forall|i: int|
        0 <= i < c.oracle_config.callbacks@.len() ==> spec_address_text_ok(
            string_bytes(#[trigger] c.oracle_config.callbacks@[i]),
        ))
    &&& (forall|i: int|
        0 <= i < c.oracle_config.tasks@.len() ==> spec_task_name_ok(
            string_bytes((#[trigger] c.oracle_config.tasks@[i]).task_name),
        ))
    &&& (string_bytes(c.oracle_config.bridge_config.trusted_bridge).len() == 0
        || spec_address_text_ok(string_bytes(c.oracle_config.bridge_config.trusted_bridge)))
    &&& (forall|i: int|
        0 <= i < c.jwk_config.issuers@.len() ==> spec_hex_text_ok(
            string_bytes(#[trigger] c.jwk_config.issuers@[i]),
        ))
    &&& (forall|i: int|
        #![trigger c.validators@[i]]
        0 <= i < c.validators@.len() ==> {
            let v = c.validators@[i];
            &&& spec_address_text_ok(string_bytes(v.operator))
            &&& spec_address_text_ok(string_bytes(v.owner))
            &&& spec_u256_text_ok(string_bytes(v.stake_amount))
            &&& spec_u256_text_ok(string_bytes(v.voting_power))
            &&& spec_hex_text_ok(string_bytes(v.consensus_pubkey))
            &&& spec_hex_text_ok(string_bytes(v.consensus_pop))
        })
}

/// Whether text is non-empty decimal digits.
fn dec_text_wf(s: &str) -> (r: bool)
    ensures
        r == (s.spec_bytes().len() > 0 && spec_dec_value(s.spec_bytes()) is Some),
{
    let b = s.as_bytes();
    if b.len() == 0 {
        return false;
    }
    let mut i: usize = 0;
    while i < b.len()
        invariant
            i <= b@.len(),
            b@ == s.spec_bytes(),
            b@.len() > 0,
            forall|j: int| 0 <= j < i ==> crate::u256::spec_dec_digit(#[trigger] b@[j]) is Some,
        decreases b@.len() - i,
    {
        let x = b[i];
        if x < 0x30 || x > 0x39 {
            proof {
                crate::u256::lemma_dec_value_some_iff_all_digits(b@);
            }
            return false;
        }
        i = i + 1;
    }
    proof {
        crate::u256::lemma_dec_value_some_iff_all_digits(b@);
    }
    true
}

/// A malformed stake amount makes the aggregate undefined.
proof fn lemma_total_stake_none(vs: Seq<InitialValidator>, i: int)
    requires
        0 <= i < vs.len(),
        string_bytes(vs[i].stake_amount).len() == 0 || spec_dec_value(
            string_bytes(vs[i].stake_amount),
        ) is None,
    ensures
        spec_total_stake(vs) is None,
    decreases vs.len(),
{
    if i < vs.len() - 1 {
        lemma_total_stake_none(vs.drop_last(), i);
    }
}

/// All stake amounts well-formed makes the aggregate defined, and each
/// amount is then below 256 bits only if its own text is; the aggregate
/// bound is checked separately.
proof fn lemma_total_stake_some(vs: Seq<InitialValidator>)
    requires
        forall|j: int|
            0 <= j < vs.len() ==> string_bytes((#[trigger] vs[j]).stake_amount).len() > 0
                && spec_dec_value(string_bytes(vs[j].stake_amount)) is Some,
    ensures
        spec_total_stake(vs) is Some,
    decreases vs.len(),
{
    if vs.len() > 0 {
        lemma_total_stake_some(vs.drop_last());
    }
}


/// Why the configuration was rejected.
#[derive(Clone, Copy, PartialEq, Eq, Structural, Debug)]
pub enum ConfigError {
    /// Some text field is malformed: a number, address, hex blob or task
    /// name that does not parse.
    Invalid,
}

/// Parse the callback address list.
fn convert_callbacks(cb: &Vec<String>) -> (r: Result<Vec<Address>, ConfigError>)
    ensures
        r is Ok <==> (forall|i: int|
            0 <= i < cb@.len() ==> spec_address_text_ok(string_bytes(#[trigger] cb@[i]))),
        r matches Ok(v) ==> {
            &&& v@.len() == cb@.len()
            &&& forall|i: int|
                0 <= i < cb@.len() ==> (#[trigger] v@[i])@ == spec_hex_decode(
                    spec_hex_field_stripped(string_bytes(cb@[i])),
                ).unwrap() && v@[i].wf()
        },
{
    let mut out: Vec<Address> = Vec::new();
    let mut i: usize = 0;
    while i < cb.len()
        invariant
            i <= cb@.len(),
            out@.len() == i,
            forall|j: int|
                0 <= j < i ==> spec_address_text_ok(string_bytes(#[trigger] cb@[j])),
            forall|j: int|
                0 <= j < i ==> (#[trigger] out@[j])@ == spec_hex_decode(
                    spec_hex_field_stripped(string_bytes(cb@[j])),
                ).unwrap() && out@[j].wf(),
        decreases cb@.len() - i,
    {
        let s = cb[i].as_str();
        proof {
            assert(s.spec_bytes() == string_bytes(cb@[i as int]));
        }
        match parse_address(s) {
            Ok(a) => {
                out.push(a);
            },
            Err(_) => {
                return Err(ConfigError::Invalid);
            },
        }
        i = i + 1;
    }
    Ok(out)
}

/// Resolve one task name to its 32-byte identifier.
fn convert_task_name(name: &str) -> (r: Result<Vec<u8>, ConfigError>)
    ensures
        r is Ok <==> spec_task_name_ok(name.spec_bytes()),
        r matches Ok(v) ==> v@ == spec_task_name_id(name.spec_bytes()) && v@.len() == 32,
{
    let bytes = name.as_bytes();
    if bytes.len() >= 2 && bytes[0] == 0x30 && bytes[1] == 0x78 {
        let digits = vstd::slice::slice_subrange(bytes, 2, bytes.len());
        proof {
            assert(bytes@.subrange(2, bytes@.len() as int) =~= bytes@.skip(2));
        }
        match hex_decode_digits(digits) {
            Some(mut b) => {
                if b.len() > 32 {
                    return Err(ConfigError::Invalid);
                }
                let ghost decoded = b@;
                while b.len() < 32
                    invariant
                        decoded.len() <= 32,
                        decoded.len() <= b@.len() <= 32,
                        b@ =~= decoded + Seq::new(
                            (b@.len() - decoded.len()) as nat,
                            |i: int| 0u8,
                        ),
                    decreases 32 - b@.len(),
                {
                    b.push(0u8);
                    proof {
                        assert(b@ =~= decoded + Seq::new(
                            (b@.len() - decoded.len()) as nat,
                            |i: int| 0u8,
                        ));
                    }
                }
                proof {
                    assert(b@ =~= spec_task_name_id(name.spec_bytes()));
                }
                Ok(b)
            },
            None => Err(ConfigError::Invalid),
        }
    } else {
        let h = crate::keccak::keccak256(bytes);
        Ok(h)
    }
}

/// Parse the oracle task list.
fn convert_tasks(tasks: &Vec<OracleTaskParams>) -> (r: Result<Vec<InitOracleTask>, ConfigError>)
    ensures
        r is Ok <==> (forall|i: int|
            0 <= i < tasks@.len() ==> spec_task_name_ok(
                string_bytes((#[trigger] tasks@[i]).task_name),
            )),
        r matches Ok(v) ==> {
            &&& v@.len() == tasks@.len()
            &&& forall|i: int|
                #![trigger v@[i]]
                0 <= i < tasks@.len() ==> v@[i].source_type == tasks@[i].source_type && v@[
                    i
                ].source_id == tasks@[i].source_id && v@[i].task_name@ == spec_task_name_id(
                    string_bytes(tasks@[i].task_name),
                ) && v@[i].config@ == string_bytes(tasks@[i].config)
        },
{
    let mut out: Vec<InitOracleTask> = Vec::new();
    let mut i: usize = 0;
    while i < tasks.len()
        invariant
            i <= tasks@.len(),
            out@.len() == i,
            forall|j: int|
                0 <= j < i ==> spec_task_name_ok(string_bytes((#[trigger] tasks@[j]).task_name)),
            forall|j: int|
                #![trigger out@[j]]
                0 <= j < i ==> out@[j].source_type == tasks@[j].source_type && out@[
                    j
                ].source_id == tasks@[j].source_id && out@[j].task_name@ == spec_task_name_id(
                    string_bytes(tasks@[j].task_name),
                ) && out@[j].config@ == string_bytes(tasks@[j].config),
        decreases tasks@.len() - i,
    {
        let name_str = tasks[i].task_name.as_str();
        proof {
            assert(name_str.spec_bytes() == string_bytes(tasks@[i as int].task_name));
        }
        let task_name = match convert_task_name(name_str) {
            Ok(n) => n,
            Err(e) => {
                return Err(e);
            },
        };
        let cfg_str = tasks[i].config.as_str();
        proof {
            assert(cfg_str.spec_bytes() == string_bytes(tasks@[i as int].config));
        }
        let config = cfg_str.as_bytes_vec();
        out.push(
            InitOracleTask {
                source_type: tasks[i].source_type,
                source_id: tasks[i].source_id,
                task_name,
                config,
            },
        );
        i = i + 1;
    }
    Ok(out)
}

/// Parse the issuer list.
fn convert_issuers(issuers: &Vec<String>) -> (r: Result<Vec<Vec<u8>>, ConfigError>)
    ensures
        r is Ok <==> (forall|i: int|
            0 <= i < issuers@.len() ==> spec_hex_text_ok(string_bytes(#[trigger] issuers@[i]))),
        r matches Ok(v) ==> {
            &&& v@.len() == issuers@.len()
            &&& forall|i: int|
                0 <= i < issuers@.len() ==> (#[trigger] v@[i])@ == spec_hex_text_bytes(
                    string_bytes(issuers@[i]),
                )
        },
{
    let mut out: Vec<Vec<u8>> = Vec::new();
    let mut i: usize = 0;
    while i < issuers.len()
        invariant
            i <= issuers@.len(),
            out@.len() == i,
            forall|j: int|
                0 <= j < i ==> spec_hex_text_ok(string_bytes(#[trigger] issuers@[j])),
            forall|j: int|
                0 <= j < i ==> (#[trigger] out@[j])@ == spec_hex_text_bytes(
                    string_bytes(issuers@[j]),
                ),
        decreases issuers@.len() - i,
    {
        let s = issuers[i].as_str();
        proof {
            assert(s.spec_bytes() == string_bytes(issuers@[i as int]));
        }
        match parse_hex_bytes(s) {
            Ok(b) => {
                out.push(b);
            },
            Err(_) => {
                return Err(ConfigError::Invalid);
            },
        }
        i = i + 1;
    }
    Ok(out)
}

/// Copy one key.
fn dup_jwk(j: &RSA_JWK_Json) -> (r: RSA_JWK_Json)
    ensures
        r.kid@ == j.kid@,
        r.kty@ == j.kty@,
        r.alg@ == j.alg@,
        r.e@ == j.e@,
        r.n@ == j.n@,
{
    RSA_JWK_Json {
        kid: j.kid.as_str().to_owned(),
        kty: j.kty.as_str().to_owned(),
        alg: j.alg.as_str().to_owned(),
        e: j.e.as_str().to_owned(),
        n: j.n.as_str().to_owned(),
    }
}

/// Copy the nested key lists.
fn dup_jwks(jwks: &Vec<Vec<RSA_JWK_Json>>) -> (r: Vec<Vec<RSA_JWK_Json>>)
    ensures
        r@.len() == jwks@.len(),
        forall|i: int, j: int|
            0 <= i < jwks@.len() && 0 <= j < (#[trigger] jwks@[i])@.len() ==> {
                &&& r@[i]@.len() == jwks@[i]@.len()
                &&& (#[trigger] r@[i]@[j]).kid@ == jwks@[i]@[j].kid@
                &&& r@[i]@[j].kty@ == jwks@[i]@[j].kty@
                &&& r@[i]@[j].alg@ == jwks@[i]@[j].alg@
                &&& r@[i]@[j].e@ == jwks@[i]@[j].e@
                &&& r@[i]@[j].n@ == jwks@[i]@[j].n@
            },
        forall|i: int| 0 <= i < jwks@.len() ==> (#[trigger] r@[i])@.len() == jwks@[i]@.len(),
{
    let mut out: Vec<Vec<RSA_JWK_Json>> = Vec::new();
    let mut i: usize = 0;
    while i < jwks.len()
        invariant
            i <= jwks@.len(),
            out@.len() == i,
            forall|a: int| 0 <= a < i ==> (#[trigger] out@[a])@.len() == jwks@[a]@.len(),
            forall|a: int, b: int|
                0 <= a < i && 0 <= b < (#[trigger] jwks@[a])@.len() ==> {
                    &&& (#[trigger] out@[a]@[b]).kid@ == jwks@[a]@[b].kid@
                    &&& out@[a]@[b].kty@ == jwks@[a]@[b].kty@
                    &&& out@[a]@[b].alg@ == jwks@[a]@[b].alg@
                    &&& out@[a]@[b].e@ == jwks@[a]@[b].e@
                    &&& out@[a]@[b].n@ == jwks@[a]@[b].n@
                },
        decreases jwks@.len() - i,
    {
        let inner = &jwks[i];
        let mut row: Vec<RSA_JWK_Json> = Vec::new();
        let mut j: usize = 0;
        while j < inner.len()
            invariant
                j <= inner@.len(),
                row@.len() == j,
                i < jwks@.len(),
                inner == &jwks@[i as int],
                forall|b: int|
                    0 <= b < j ==> {
                        &&& (#[trigger] row@[b]).kid@ == inner@[b].kid@
                        &&& row@[b].kty@ == inner@[b].kty@
                        &&& row@[b].alg@ == inner@[b].alg@
                        &&& row@[b].e@ == inner@[b].e@
                        &&& row@[b].n@ == inner@[b].n@
                    },
            decreases inner@.len() - j,
        {
            row.push(dup_jwk(&inner[j]));
            j = j + 1;
        }
        out.push(row);
        i = i + 1;
    }
    out
}

/// Parse the validator list: addresses and amounts parsed, key material
/// decoded, network address strings serialized.
fn convert_validators(vs: &Vec<InitialValidator>) -> (r: Result<Vec<InitValidator>, ConfigError>)
    ensures
        r is Ok <==> (forall|i: int|
            #![trigger vs@[i]]
            0 <= i < vs@.len() ==> {
                let v = vs@[i];
                &&& spec_address_text_ok(string_bytes(v.operator))
                &&& spec_address_text_ok(string_bytes(v.owner))
                &&& spec_u256_text_ok(string_bytes(v.stake_amount))
                &&& spec_u256_text_ok(string_bytes(v.voting_power))
                &&& spec_hex_text_ok(string_bytes(v.consensus_pubkey))
                &&& spec_hex_text_ok(string_bytes(v.consensus_pop))
            }),
        r matches Ok(out) ==> {
            &&& out@.len() == vs@.len()
            &&& forall|i: int|
                #![trigger out@[i]]
                0 <= i < vs@.len() ==> {
                    let v = vs@[i];
                    let w = out@[i];
                    &&& w.operator@ == spec_hex_decode(
                        spec_hex_field_stripped(string_bytes(v.operator)),
                    ).unwrap()
                    &&& w.owner@ == spec_hex_decode(
                        spec_hex_field_stripped(string_bytes(v.owner)),
                    ).unwrap()
                    &&& Some(w.stake_amount.as_nat()) == spec_dec_value(
                        string_bytes(v.stake_amount),
                    )
                    &&& Some(w.voting_power.as_nat()) == spec_dec_value(
                        string_bytes(v.voting_power),
                    )
                    &&& w.moniker@ == v.moniker@
                    &&& w.consensus_pubkey@ == spec_hex_text_bytes(
                        string_bytes(v.consensus_pubkey),
                    )
                    &&& w.consensus_pop@ == spec_hex_text_bytes(string_bytes(v.consensus_pop))
                    &&& w.network_addresses@ == spec_bcs_string(
                        string_bytes(v.network_addresses),
                    )
                    &&& w.fullnode_addresses@ == spec_bcs_string(
                        string_bytes(v.fullnode_addresses),
                    )
                }
        },
{
    let mut out: Vec<InitValidator> = Vec::new();
    let mut i: usize = 0;
    while i < vs.len()
        invariant
            i <= vs@.len(),
            out@.len() == i,
            forall|j: int|
                #![trigger vs@[j]]
                0 <= j < i ==> {
                    let v = vs@[j];
                    &&& spec_address_text_ok(string_bytes(v.operator))
                    &&& spec_address_text_ok(string_bytes(v.owner))
                    &&& spec_u256_text_ok(string_bytes(v.stake_amount))
                    &&& spec_u256_text_ok(string_bytes(v.voting_power))
                    &&& spec_hex_text_ok(string_bytes(v.consensus_pubkey))
                    &&& spec_hex_text_ok(string_bytes(v.consensus_pop))
                },
            forall|j: int|
                #![trigger out@[j]]
                0 <= j < i ==> {
                    let v = vs@[j];
                    let w = out@[j];
                    &&& w.operator@ == spec_hex_decode(
                        spec_hex_field_stripped(string_bytes(v.operator)),
                    ).unwrap()
                    &&& w.owner@ == spec_hex_decode(
                        spec_hex_field_stripped(string_bytes(v.owner)),
                    ).unwrap()
                    &&& Some(w.stake_amount.as_nat()) == spec_dec_value(
                        string_bytes(v.stake_amount),
                    )
                    &&& Some(w.voting_power.as_nat()) == spec_dec_value(
                        string_bytes(v.voting_power),
                    )
                    &&& w.moniker@ == v.moniker@
                    &&& w.consensus_pubkey@ == spec_hex_text_bytes(
                        string_bytes(v.consensus_pubkey),
                    )
                    &&& w.consensus_pop@ == spec_hex_text_bytes(string_bytes(v.consensus_pop))
                    &&& w.network_addresses@ == spec_bcs_string(
                        string_bytes(v.network_addresses),
                    )
                    &&& w.fullnode_addresses@ == spec_bcs_string(
                        string_bytes(v.fullnode_addresses),
                    )
                },
        decreases vs@.len() - i,
    {
        let v = &vs[i];
        let op_str = v.operator.as_str();
        let ow_str = v.owner.as_str();
        let st_str = v.stake_amount.as_str();
        let vp_str = v.voting_power.as_str();
        let pk_str = v.consensus_pubkey.as_str();
        let pop_str = v.consensus_pop.as_str();
        let na_str = v.network_addresses.as_str();
        let fa_str = v.fullnode_addresses.as_str();
        proof {
            assert(op_str.spec_bytes() == string_bytes(vs@[i as int].operator));
            assert(ow_str.spec_bytes() == string_bytes(vs@[i as int].owner));
            assert(st_str.spec_bytes() == string_bytes(vs@[i as int].stake_amount));
            assert(vp_str.spec_bytes() == string_bytes(vs@[i as int].voting_power));
            assert(pk_str.spec_bytes() == string_bytes(vs@[i as int].consensus_pubkey));
            assert(pop_str.spec_bytes() == string_bytes(vs@[i as int].consensus_pop));
            assert(na_str.spec_bytes() == string_bytes(vs@[i as int].network_addresses));
            assert(fa_str.spec_bytes() == string_bytes(vs@[i as int].fullnode_addresses));
        }
        let operator = match parse_address(op_str) {
            Ok(a) => a,
            Err(_) => {
                return Err(ConfigError::Invalid);
            },
        };
        let owner = match parse_address(ow_str) {
            Ok(a) => a,
            Err(_) => {
                return Err(ConfigError::Invalid);
            },
        };
        let stake_amount = match parse_u256(st_str) {
            Ok(x) => x,
            Err(_) => {
                return Err(ConfigError::Invalid);
            },
        };
        let voting_power = match parse_u256(vp_str) {
            Ok(x) => x,
            Err(_) => {
                return Err(ConfigError::Invalid);
            },
        };
        let consensus_pubkey = match parse_hex_bytes(pk_str) {
            Ok(b) => b,
            Err(_) => {
                return Err(ConfigError::Invalid);
            },
        };
        let consensus_pop = match parse_hex_bytes(pop_str) {
            Ok(b) => b,
            Err(_) => {
                return Err(ConfigError::Invalid);
            },
        };
        let network_addresses = bcs_encode_string(na_str);
        let fullnode_addresses = bcs_encode_string(fa_str);
        let moniker = v.moniker.as_str().to_owned();
        out.push(
            InitValidator {
                operator,
                owner,
                stake_amount,
                moniker,
                consensus_pubkey,
                consensus_pop,
                network_addresses,
                fullnode_addresses,
                voting_power,
            },
        );
        i = i + 1;
    }
    Ok(out)
}


/// Validate and parse the whole configuration into typed initialize
/// parameters.
///
/// Returns `Ok` exactly when every text field is well-formed; the typed
/// parameters carry each field's parsed value: amounts as 256-bit numbers,
/// addresses decoded, hex blobs decoded, task names resolved to their
/// 32-byte identifiers, network address strings serialized, and everything
/// else copied unchanged. An empty eviction threshold parses as zero, and
/// an empty trusted-bridge address as the zero address.
#[verifier::rlimit(100)]
pub fn convert_config_to_sol(config: &GenesisConfig) -> (r: Result<GenesisInitParams, ConfigError>)
    ensures
        r is Ok <==> spec_config_valid(config),
        r matches Ok(p) ==> {
            let c = config;
            &&& Some(p.validator_config.minimum_bond.as_nat()) == spec_dec_value(
                string_bytes(c.validator_config.minimum_bond),
            )
            &&& Some(p.validator_config.maximum_bond.as_nat()) == spec_dec_value(
                string_bytes(c.validator_config.maximum_bond),
            )
            &&& p.validator_config.unbonding_delay_micros
                == c.validator_config.unbonding_delay_micros
            &&& p.validator_config.allow_validator_set_change
                == c.validator_config.allow_validator_set_change
            &&& p.validator_config.voting_power_increase_limit_pct
                == c.validator_config.voting_power_increase_limit_pct
            &&& Some(p.validator_config.max_validator_set_size.as_nat()) == spec_dec_value(
                string_bytes(c.validator_config.max_validator_set_size),
            )
            &&& p.validator_config.auto_evict_enabled == c.validator_config.auto_evict_enabled
            &&& p.validator_config.auto_evict_threshold.as_nat() == (if string_bytes(
                c.validator_config.auto_evict_threshold,
            ).len() == 0 {
                0
            } else {
                spec_dec_value(string_bytes(c.validator_config.auto_evict_threshold)).unwrap()
            })
            &&& Some(p.staking_config.minimum_stake.as_nat()) == spec_dec_value(
                string_bytes(c.staking_config.minimum_stake),
            )
            &&& p.staking_config.lockup_duration_micros == c.staking_config.lockup_duration_micros
            &&& p.staking_config.unbonding_delay_micros == c.staking_config.unbonding_delay_micros
            &&& Some(p.staking_config.minimum_proposal_stake.as_nat()) == spec_dec_value(
                string_bytes(c.staking_config.minimum_proposal_stake),
            )
            &&& Some(p.governance_config.min_voting_threshold as nat) == spec_dec_value(
                string_bytes(c.governance_config.min_voting_threshold),
            )
            &&& Some(p.governance_config.required_proposer_stake.as_nat()) == spec_dec_value(
                string_bytes(c.governance_config.required_proposer_stake),
            )
            &&& p.governance_config.voting_duration_micros
                == c.governance_config.voting_duration_micros
            &&& p.governance_config.execution_delay_micros
                == c.governance_config.execution_delay_micros
            &&& p.governance_config.execution_window_micros
                == c.governance_config.execution_window_micros
            &&& p.epoch_interval_micros == c.epoch_interval_micros
            &&& p.major_version == c.major_version
            &&& p.consensus_config@ == spec_hex_text_bytes(string_bytes(c.consensus_config))
            &&& p.execution_config@ == spec_hex_text_bytes(string_bytes(c.execution_config))
            &&& p.randomness_config.variant == c.randomness_config.variant
            &&& p.randomness_config.config_v2.secrecy_threshold
                == c.randomness_config.config_v2.secrecy_threshold
            &&& p.randomness_config.config_v2.reconstruction_threshold
                == c.randomness_config.config_v2.reconstruction_threshold
            &&& p.randomness_config.config_v2.fast_path_secrecy_threshold
                == c.randomness_config.config_v2.fast_path_secrecy_threshold
            &&& p.oracle_config.source_types@ == c.oracle_config.source_types@
            &&& p.oracle_config.callbacks@.len() == c.oracle_config.callbacks@.len()
            &&& (forall|i: int|
                0 <= i < c.oracle_config.callbacks@.len() ==> (
                #[trigger] p.oracle_config.callbacks@[i])@ == spec_hex_decode(
                    spec_hex_field_stripped(string_bytes(c.oracle_config.callbacks@[i])),
                ).unwrap())
            &&& p.oracle_config.tasks@.len() == c.oracle_config.tasks@.len()
            &&& (forall|i: int|
                #![trigger p.oracle_config.tasks@[i]]
                0 <= i < c.oracle_config.tasks@.len()
                    ==> p.oracle_config.tasks@[i].source_type
                    == c.oracle_config.tasks@[i].source_type && p.oracle_config.tasks@[
                    i
                ].source_id == c.oracle_config.tasks@[i].source_id && p.oracle_config.tasks@[
                    i
                ].task_name@ == spec_task_name_id(
                    string_bytes(c.oracle_config.tasks@[i].task_name),
                ) && p.oracle_config.tasks@[i].config@ == string_bytes(
                    c.oracle_config.tasks@[i].config,
                ))
            &&& p.oracle_config.bridge_config.deploy == c.oracle_config.bridge_config.deploy
            &&& p.oracle_config.bridge_config.trusted_source_id
                == c.oracle_config.bridge_config.trusted_source_id
            &&& p.oracle_config.bridge_config.trusted_bridge@ == (if string_bytes(
                c.oracle_config.bridge_config.trusted_bridge,
            ).len() == 0 {
                Seq::new(20, |i: int| 0u8)
            } else {
                spec_hex_decode(
                    spec_hex_field_stripped(
                        string_bytes(c.oracle_config.bridge_config.trusted_bridge),
                    ),
                ).unwrap()
            })
            &&& p.jwk_config.issuers@.len() == c.jwk_config.issuers@.len()
            &&& (forall|i: int|
                0 <= i < c.jwk_config.issuers@.len() ==> (#[trigger] p.jwk_config.issuers@[i])@
                    == spec_hex_text_bytes(string_bytes(c.jwk_config.issuers@[i])))
            &&& p.jwk_config.jwks@.len() == c.jwk_config.jwks@.len()
            &&& (forall|i: int|
                0 <= i < c.jwk_config.jwks@.len() ==> (#[trigger] p.jwk_config.jwks@[i])@.len()
                    == c.jwk_config.jwks@[i]@.len())
            &&& (forall|i: int, j: int|
                #![trigger p.jwk_config.jwks@[i]@[j]]
                0 <= i < c.jwk_config.jwks@.len() && 0 <= j < c.jwk_config.jwks@[i]@.len() ==> {
                    let w = p.jwk_config.jwks@[i]@[j];
                    let v = c.jwk_config.jwks@[i]@[j];
                    &&& w.kid@ == v.kid@
                    &&& w.kty@ == v.kty@
                    &&& w.alg@ == v.alg@
                    &&& w.e@ == v.e@
                    &&& w.n@ == v.n@
                })
            &&& p.validators@.len() == c.validators@.len()
            &&& (forall|i: int|
                #![trigger p.validators@[i]]
                0 <= i < c.validators@.len() ==> {
                    let v = c.validators@[i];
                    let w = p.validators@[i];
                    &&& w.operator@ == spec_hex_decode(
                        spec_hex_field_stripped(string_bytes(v.operator)),
                    ).unwrap()
                    &&& w.owner@ == spec_hex_decode(
                        spec_hex_field_stripped(string_bytes(v.owner)),
                    ).unwrap()
                    &&& Some(w.stake_amount.as_nat()) == spec_dec_value(
                        string_bytes(v.stake_amount),
                    )
                    &&& Some(w.voting_power.as_nat()) == spec_dec_value(
                        string_bytes(v.voting_power),
                    )
                    &&& w.moniker@ == v.moniker@
                    &&& w.consensus_pubkey@ == spec_hex_text_bytes(
                        string_bytes(v.consensus_pubkey),
                    )
                    &&& w.consensus_pop@ == spec_hex_text_bytes(string_bytes(v.consensus_pop))
                    &&& w.network_addresses@ == spec_bcs_string(
                        string_bytes(v.network_addresses),
                    )
                    &&& w.fullnode_addresses@ == spec_bcs_string(
                        string_bytes(v.fullnode_addresses),
                    )
                })
        },
{
    let minimum_bond = match parse_u256(config.validator_config.minimum_bond.as_str()) {
        Ok(x) => x,
        Err(_) => { return Err(ConfigError::Invalid); },
    };
    let maximum_bond = match parse_u256(config.validator_config.maximum_bond.as_str()) {
        Ok(x) => x,
        Err(_) => { return Err(ConfigError::Invalid); },
    };
    let max_validator_set_size = match parse_u256(
        config.validator_config.max_validator_set_size.as_str(),
    ) {
        Ok(x) => x,
        Err(_) => { return Err(ConfigError::Invalid); },
    };
    let auto_evict_threshold = if config.validator_config.auto_evict_threshold.as_str().as_bytes().len() == 0 {
        U256::zero()
    } else {
        match parse_u256(config.validator_config.auto_evict_threshold.as_str()) {
            Ok(x) => x,
            Err(_) => { return Err(ConfigError::Invalid); },
        }
    };
    let validator_config = InitValidatorConfig {
        minimum_bond,
        maximum_bond,
        unbonding_delay_micros: config.validator_config.unbonding_delay_micros,
        allow_validator_set_change: config.validator_config.allow_validator_set_change,
        voting_power_increase_limit_pct: config.validator_config.voting_power_increase_limit_pct,
        max_validator_set_size,
        auto_evict_enabled: config.validator_config.auto_evict_enabled,
        auto_evict_threshold,
    };
    let minimum_stake = match parse_u256(config.staking_config.minimum_stake.as_str()) {
        Ok(x) => x,
        Err(_) => { return Err(ConfigError::Invalid); },
    };
    let minimum_proposal_stake = match parse_u256(
        config.staking_config.minimum_proposal_stake.as_str(),
    ) {
        Ok(x) => x,
        Err(_) => { return Err(ConfigError::Invalid); },
    };
    let staking_config = InitStakingConfig {
        minimum_stake,
        lockup_duration_micros: config.staking_config.lockup_duration_micros,
        unbonding_delay_micros: config.staking_config.unbonding_delay_micros,
        minimum_proposal_stake,
    };
    let min_voting_threshold = match parse_u128(
        config.governance_config.min_voting_threshold.as_str(),
    ) {
        Ok(x) => x,
        Err(_) => { return Err(ConfigError::Invalid); },
    };
    let required_proposer_stake = match parse_u256(
        config.governance_config.required_proposer_stake.as_str(),
    ) {
        Ok(x) => x,
        Err(_) => { return Err(ConfigError::Invalid); },
    };
    let governance_config = InitGovernanceConfig {
        min_voting_threshold,
        required_proposer_stake,
        voting_duration_micros: config.governance_config.voting_duration_micros,
        execution_delay_micros: config.governance_config.execution_delay_micros,
        execution_window_micros: config.governance_config.execution_window_micros,
    };
    let consensus_config = match parse_hex_bytes(config.consensus_config.as_str()) {
        Ok(b) => b,
        Err(_) => { return Err(ConfigError::Invalid); },
    };
    let execution_config = match parse_hex_bytes(config.execution_config.as_str()) {
        Ok(b) => b,
        Err(_) => { return Err(ConfigError::Invalid); },
    };
    let randomness_config = RandomnessConfigData {
        variant: config.randomness_config.variant,
        config_v2: ConfigV2Data {
            secrecy_threshold: config.randomness_config.config_v2.secrecy_threshold,
            reconstruction_threshold: config.randomness_config.config_v2.reconstruction_threshold,
            fast_path_secrecy_threshold: config.randomness_config.config_v2.fast_path_secrecy_threshold,
        },
    };
    let callbacks = match convert_callbacks(&config.oracle_config.callbacks) {
        Ok(v) => v,
        Err(e) => { return Err(e); },
    };
    let tasks = match convert_tasks(&config.oracle_config.tasks) {
        Ok(v) => v,
        Err(e) => { return Err(e); },
    };
    let trusted_bridge = if config.oracle_config.bridge_config.trusted_bridge.as_str().as_bytes().len() == 0 {
        zero_address()
    } else {
        match parse_address(config.oracle_config.bridge_config.trusted_bridge.as_str()) {
            Ok(a) => a,
            Err(_) => { return Err(ConfigError::Invalid); },
        }
    };
    let bridge_config = InitBridgeConfig {
        deploy: config.oracle_config.bridge_config.deploy,
        trusted_bridge,
        trusted_source_id: config.oracle_config.bridge_config.trusted_source_id,
    };
    let mut source_types: Vec<u32> = Vec::new();
    let mut i: usize = 0;
    while i < config.oracle_config.source_types.len()
        invariant
            i <= config.oracle_config.source_types@.len(),
            source_types@ =~= config.oracle_config.source_types@.take(i as int),
        decreases config.oracle_config.source_types@.len() - i,
    {
        source_types.push(config.oracle_config.source_types[i]);
        proof {
            assert(source_types@ =~= config.oracle_config.source_types@.take(i + 1));
        }
        i = i + 1;
    }
    proof {
        assert(config.oracle_config.source_types@.take(
            config.oracle_config.source_types@.len() as int,
        ) =~= config.oracle_config.source_types@);
    }
    let oracle_config = InitOracleConfig { source_types, callbacks, tasks, bridge_config };
    let issuers = match convert_issuers(&config.jwk_config.issuers) {
        Ok(v) => v,
        Err(e) => { return Err(e); },
    };
    let jwks = dup_jwks(&config.jwk_config.jwks);
    let jwk_config = InitJwkConfig { issuers, jwks };
    let validators = match convert_validators(&config.validators) {
        Ok(v) => v,
        Err(e) => { return Err(e); },
    };
    Ok(
        GenesisInitParams {
            validator_config,
            staking_config,
            governance_config,
            epoch_interval_micros: config.epoch_interval_micros,
            major_version: config.major_version,
            consensus_config,
            execution_config,
            randomness_config,
            oracle_config,
            jwk_config,
            validators,
        },
    )
}

/// The all-zero address.
fn zero_address() -> (r: Address)
    ensures
        r@ == Seq::new(20, |i: int| 0u8),
        r.wf(),
{
    let mut bytes: Vec<u8> = Vec::new();
    let mut i: usize = 0;
    while i < 20
        invariant
            i <= 20,
            bytes@.len() == i,
            forall|j: int| 0 <= j < i ==> bytes@[j] == 0u8,
        decreases 20 - i,
    {
        bytes.push(0u8);
        i = i + 1;
    }
    proof {
        assert(bytes@ =~= Seq::new(20, |i: int| 0u8));
    }
    Address { bytes }
}

/// Build the one initialize transaction: a system call to the genesis
/// contract carrying the externally encoded payload and the aggregate
/// stake as its value.
pub fn call_genesis_initialize(
    genesis_address: &Address,
    payload: Vec<u8>,
    total_stake: U256,
) -> (r: crate::txn::TransactionEnvelope)
    requires
        genesis_address.wf(),
    ensures
        r.caller@ == crate::address::spec_system_address(crate::registry::SYSTEM_CALLER_TAIL),
        r.target matches crate::txn::TxTarget::Call(a) && a@ == genesis_address@,
        r.value == total_stake,
        r.data@ == payload@,
        r.gas_limit == u64::MAX,
        r.gas_price == 0,
        r.wf(),
{
    crate::txn::new_system_call_txn_with_value(genesis_address, payload, total_stake)
}

} // verus!
