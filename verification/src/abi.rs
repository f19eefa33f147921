//! Decoding the validator query's reply.
//!
//! The replay verifier issues one read-only call whose reply encodes a
//! sequence of validator records in the contract call encoding: a head word
//! pointing at the array, a length, one offset word per record, and each
//! record as seven words — address, three byte-string offsets, voting
//! power, index — followed by counted byte strings. The decoder follows
//! offsets leniently, as the runtime's own reader does, and fails on any
//! out-of-bounds shape; a failure signals a schema mismatch between the
//! snapshot's byte-code and the expected interface.

use vstd::prelude::*;
use vstd::string::StringSliceAdditionalSpecFns;
use crate::address::Address;
use crate::u256::{U256, spec_word_value};

verus! {

/// Mathematical content of one decoded validator record.
pub ghost struct ValidatorRecView {
    pub validator: Seq<u8>,
    pub consensus_pubkey: Seq<u8>,
    pub consensus_pop: Seq<u8>,
    pub voting_power: nat,
    pub validator_index: nat,
    pub network_addresses: Seq<u8>,
    pub fullnode_addresses: Seq<u8>,
}

/// One decoded validator record.
#[derive(Debug)]
pub struct DecodedValidator {
    pub validator: Address,
    pub consensus_pubkey: Vec<u8>,
    pub consensus_pop: Vec<u8>,
    pub voting_power: U256,
    pub validator_index: u64,
    pub network_addresses: Vec<u8>,
    pub fullnode_addresses: Vec<u8>,
}

impl View for DecodedValidator {
    type V = ValidatorRecView;

    open spec fn view(&self) -> ValidatorRecView {
        ValidatorRecView {
            validator: self.validator@,
            consensus_pubkey: self.consensus_pubkey@,
            consensus_pop: self.consensus_pop@,
            voting_power: self.voting_power.as_nat(),
            validator_index: self.validator_index as nat,
            network_addresses: self.network_addresses@,
            fullnode_addresses: self.fullnode_addresses@,
        }
    }
}

/// The word at an absolute position, when it lies within the data.
pub open spec fn spec_word_at(d: Seq<u8>, off: int) -> Option<nat> {
    if 0 <= off && off + 32 <= d.len() {
        Some(spec_word_value(d.subrange(off, off + 32)))
    } else {
        None
    }
}

/// A counted byte string at an absolute position: a length word followed
/// by that many bytes.
pub open spec fn spec_bytes_at(d: Seq<u8>, off: int) -> Option<Seq<u8>> {
    match spec_word_at(d, off) {
        Some(n) => if off + 32 + n <= d.len() {
            Some(d.subrange(off + 32, off + 32 + n))
        } else {
            None
        },
        None => None,
    }
}

/// One validator record decoded at an absolute struct base: seven head
/// words, with the byte strings at their offsets relative to the base.
pub open spec fn spec_validator_at(d: Seq<u8>, base: int) -> Option<ValidatorRecView> {
    if base >= 0 && base + 224 <= d.len() {
        let w_addr = spec_word_at(d, base).unwrap();
        let off_pk = spec_word_at(d, base + 32).unwrap();
        let off_pop = spec_word_at(d, base + 64).unwrap();
        let power = spec_word_at(d, base + 96).unwrap();
        let index = spec_word_at(d, base + 128).unwrap();
        let off_na = spec_word_at(d, base + 160).unwrap();
        let off_fa = spec_word_at(d, base + 192).unwrap();
        match (
            spec_bytes_at(d, base + off_pk),
            spec_bytes_at(d, base + off_pop),
            spec_bytes_at(d, base + off_na),
            spec_bytes_at(d, base + off_fa),
        ) {
            (Some(pk), Some(pop), Some(na), Some(fa)) => Some(
                ValidatorRecView {
                    validator: d.subrange(base + 12, base + 32),
                    consensus_pubkey: pk,
                    consensus_pop: pop,
                    voting_power: power,
                    validator_index: index % 0x1_0000_0000_0000_0000,
                    network_addresses: na,
                    fullnode_addresses: fa,
                },
            ),
            _ => None,
        }
    } else {
        None
    }
}

/// The first `n` records of the array whose element offsets start at
/// `tail`, each relative to `tail`.
pub open spec fn spec_validators_upto(d: Seq<u8>, tail: int, n: int) -> Option<
    Seq<ValidatorRecView>,
>
    decreases n,
{
    if n <= 0 {
        Some(Seq::empty())
    } else {
        match (spec_validators_upto(d, tail, n - 1), spec_word_at(d, tail + 32 * (n - 1))) {
            (Some(prev), Some(off)) => match spec_validator_at(d, tail + off) {
                Some(v) => Some(prev.push(v)),
                None => None,
            },
            _ => None,
        }
    }
}

/// The validator records a reply decodes to, or `None` when its shape does
/// not match the expected interface.
pub open spec fn spec_decode_validators(d: Seq<u8>) -> Option<Seq<ValidatorRecView>> {
    match spec_word_at(d, 0) {
        Some(o1) => match spec_word_at(d, o1 as int) {
            Some(n) => spec_validators_upto(d, (o1 + 32) as int, n as int),
            None => None,
        },
        None => None,
    }
}

/// Read the word at a position as an in-range index, `None` when the word
/// lies outside the data or exceeds the data's length.
fn read_index_word(d: &[u8], off: usize) -> (r: Option<usize>)
    requires
        d@.len() <= usize::MAX,
    ensures
        match r {
            Some(n) => spec_word_at(d@, off as int) == Some(n as nat) && n <= d@.len(),
            None => spec_word_at(d@, off as int) is None || spec_word_at(d@, off as int).unwrap()
                > d@.len(),
        },
{
    let len = d.len();
    if off > len || len - off < 32 {
        return None;
    }
    let w = U256::from_be_word(d, off);
    proof {
        assert(d@.subrange(off as int, off as int + 32) == d@.subrange(off as int, off as int + 32));
    }
    match w.to_usize() {
        Some(n) => {
            if n <= len {
                Some(n)
            } else {
                None
            }
        },
        None => None,
    }
}

/// Read a counted byte string at a position.
fn read_bytes_at(d: &[u8], off: usize) -> (r: Option<Vec<u8>>)
    requires
        d@.len() <= usize::MAX,
    ensures
        match r {
            Some(v) => spec_bytes_at(d@, off as int) == Some(v@),
            None => spec_bytes_at(d@, off as int) is None,
        },
{
    let len = d.len();
    if off > len || len - off < 32 {
        return None;
    }
    let w = U256::from_be_word(d, off);
    let n = match w.to_usize() {
        Some(n) => n,
        None => {
            proof {
                assert(spec_word_at(d@, off as int).unwrap() > usize::MAX >= d@.len() - 32 - off);
            }
            return None;
        },
    };
    if n > len - off - 32 {
        return None;
    }
    let mut out: Vec<u8> = Vec::new();
    let mut i: usize = 0;
    while i < n
        invariant
            i <= n,
            off + 32 + n <= d@.len(),
            d@.len() <= usize::MAX,
            out@ =~= d@.subrange(off as int + 32, off as int + 32 + i),
        decreases n - i,
    {
        out.push(d[off + 32 + i]);
        proof {
            assert(out@ =~= d@.subrange(off as int + 32, off as int + 32 + i + 1));
        }
        i = i + 1;
    }
    Some(out)
}

/// Decode one validator record at an absolute struct base.
#[verifier::rlimit(100)]
fn decode_validator_at(d: &[u8], base: usize) -> (r: Option<DecodedValidator>)
    requires
        d@.len() <= usize::MAX,
    ensures
        match r {
            Some(v) => spec_validator_at(d@, base as int) == Some(v@),
            None => spec_validator_at(d@, base as int) is None,
        },
{
    let len = d.len();
    if base > len || len - base < 224 {
        return None;
    }
    let mut addr_bytes: Vec<u8> = Vec::new();
    let mut i: usize = base + 12;
    while i < base + 32
        invariant
            base + 12 <= i <= base + 32,
            base + 224 <= d@.len() <= usize::MAX,
            addr_bytes@ =~= d@.subrange(base as int + 12, i as int),
        decreases base + 32 - i,
    {
        addr_bytes.push(d[i]);
        proof {
            assert(addr_bytes@ =~= d@.subrange(base as int + 12, i as int + 1));
        }
        i = i + 1;
    }
    let validator = Address { bytes: addr_bytes };
    let off_pk = match read_index_word(d, base + 32) {
        Some(n) => n,
        None => {
            return None;
        },
    };
    let off_pop = match read_index_word(d, base + 64) {
        Some(n) => n,
        None => {
            return None;
        },
    };
    let off_na = match read_index_word(d, base + 160) {
        Some(n) => n,
        None => {
            return None;
        },
    };
    let off_fa = match read_index_word(d, base + 192) {
        Some(n) => n,
        None => {
            return None;
        },
    };
    let voting_power = U256::from_be_word(d, base + 96);
    let index_word = U256::from_be_word(d, base + 128);
    let validator_index = index_word.l0;
    let consensus_pubkey = match read_bytes_at_rel(d, base, off_pk) {
        Some(v) => v,
        None => {
            return None;
        },
    };
    let consensus_pop = match read_bytes_at_rel(d, base, off_pop) {
        Some(v) => v,
        None => {
            return None;
        },
    };
    let network_addresses = match read_bytes_at_rel(d, base, off_na) {
        Some(v) => v,
        None => {
            return None;
        },
    };
    let fullnode_addresses = match read_bytes_at_rel(d, base, off_fa) {
        Some(v) => v,
        None => {
            return None;
        },
    };
    let v = DecodedValidator {
        validator,
        consensus_pubkey,
        consensus_pop,
        voting_power,
        validator_index,
        network_addresses,
        fullnode_addresses,
    };
    proof {
        let b = base as int;
        assert(index_word.as_nat() == spec_word_at(d@, b + 128).unwrap());
        assert(validator_index as nat == index_word.as_nat() % 0x1_0000_0000_0000_0000) by {
            assert(index_word.as_nat() % 0x1_0000_0000_0000_0000 == index_word.l0) by {
                let w = index_word;
                assert(w.as_nat() == w.l0 + 0x1_0000_0000_0000_0000 * (w.l1 + w.l2
                    * 0x1_0000_0000_0000_0000 + w.l3
                    * 0x1_0000_0000_0000_0000_0000_0000_0000_0000)) by (nonlinear_arith);
                vstd::arithmetic::div_mod::lemma_mod_multiples_vanish(
                    (w.l1 + w.l2 * 0x1_0000_0000_0000_0000 + w.l3
                        * 0x1_0000_0000_0000_0000_0000_0000_0000_0000) as int,
                    w.l0 as int,
                    0x1_0000_0000_0000_0000,
                );
                vstd::arithmetic::div_mod::lemma_small_mod(
                    w.l0 as nat,
                    0x1_0000_0000_0000_0000nat,
                );
            }
        }
        assert(v@ == spec_validator_at(d@, b).unwrap());
    }
    Some(v)
}

/// A byte-string position past the data holds nothing.
proof fn lemma_bytes_at_far(d: Seq<u8>, off: int)
    requires
        off > d.len() || off + 32 > d.len(),
    ensures
        spec_bytes_at(d, off) is None,
{
}

/// Read a counted byte string at an offset relative to a base, refusing an
/// offset that leaves the data.
fn read_bytes_at_rel(d: &[u8], base: usize, off: usize) -> (r: Option<Vec<u8>>)
    requires
        d@.len() <= usize::MAX,
        base <= d@.len(),
        off <= d@.len(),
    ensures
        match r {
            Some(v) => spec_bytes_at(d@, base as int + off as int) == Some(v@),
            None => spec_bytes_at(d@, base as int + off as int) is None,
        },
{
    let len = d.len();
    if off > len - base {
        proof {
            lemma_bytes_at_far(d@, base as int + off as int);
        }
        return None;
    }
    read_bytes_at(d, base + off)
}

/// Decode the validator query's reply.
///
/// Returns the records exactly when the reply has the expected shape, and
/// nothing on any mismatch.
#[verifier::rlimit(100)]
pub fn decode_validators(d: &[u8]) -> (r: Option<Vec<DecodedValidator>>)
    ensures
        match r {
            Some(vs) => {
                &&& spec_decode_validators(d@) matches Some(views)
                &&& vs@.len() == views.len()
                &&& forall|i: int| 0 <= i < vs@.len() ==> (#[trigger] vs@[i])@ == views[i]
            },
            None => spec_decode_validators(d@) is None,
        },
{
    let len = d.len();
    proof {
        assert(d@.len() <= usize::MAX);
    }
    let o1 = match read_index_word(d, 0) {
        Some(n) => n,
        None => {
            proof {
                if spec_word_at(d@, 0) is Some && spec_word_at(d@, 0).unwrap() > d@.len() {
                    let o = spec_word_at(d@, 0).unwrap() as int;
                    assert(spec_word_at(d@, o) is None);
                }
            }
            return None;
        },
    };
    let n = match read_index_word(d, o1) {
        Some(n) => n,
        None => {
            proof {
                if spec_word_at(d@, o1 as int) is Some {
                    let nn = spec_word_at(d@, o1 as int).unwrap() as int;
                    assert(nn > d@.len());
                    lemma_validators_upto_count_too_big(d@, o1 as int + 32, nn);
                }
            }
            return None;
        },
    };
    let tail = o1 + 32;
    let mut out: Vec<DecodedValidator> = Vec::new();
    let mut i: usize = 0;
    while i < n
        invariant
            i <= n,
            n <= d@.len() <= usize::MAX,
            o1 + 32 == tail,
            tail <= d@.len() + 32,
            spec_word_at(d@, 0) == Some(o1 as nat),
            spec_word_at(d@, o1 as int) == Some(n as nat),
            spec_validators_upto(d@, tail as int, i as int) matches Some(views) && out@.len()
                == views.len() && (forall|j: int|
                0 <= j < out@.len() ==> (#[trigger] out@[j])@ == views[j]),
        decreases n - i,
    {
        let off = match read_index_word_unbounded(d, tail, i) {
            Some(v) => v,
            None => {
                proof {
                    lemma_upto_none_propagates(d@, tail as int, i as int, n as int);
                }
                return None;
            },
        };
        let v = match decode_validator_at_checked(d, tail, off) {
            Some(v) => v,
            None => {
                proof {
                    lemma_upto_none_propagates(d@, tail as int, i as int, n as int);
                }
                return None;
            },
        };
        out.push(v);
        proof {
            let views_prev = spec_validators_upto(d@, tail as int, i as int).unwrap();
            assert(spec_validators_upto(d@, tail as int, i + 1) == Some(
                views_prev.push(v@),
            ));
        }
        i = i + 1;
    }
    proof {
        assert(spec_decode_validators(d@) == spec_validators_upto(d@, tail as int, n as int));
    }
    Some(out)
}

/// A failing element makes the whole array fail, whatever the count.
#[verifier::rlimit(100)]
proof fn lemma_upto_none_propagates(d: Seq<u8>, tail: int, i: int, n: int)
    requires
        0 <= i < n,
        spec_word_at(d, tail + 32 * i) is None || spec_validator_at(
            d,
            tail + spec_word_at(d, tail + 32 * i).unwrap(),
        ) is None,
    ensures
        spec_validators_upto(d, tail, n) is None,
    decreases n,
{
    if i < n - 1 {
        lemma_upto_none_propagates(d, tail, i, n - 1);
    }
}

/// An element count larger than the data always fails: its last element's
/// offset word lies past the end.
proof fn lemma_validators_upto_count_too_big(d: Seq<u8>, tail: int, n: int)
    requires
        n > d.len(),
        tail >= 32,
    ensures
        spec_validators_upto(d, tail, n) is None,
{
    if spec_validators_upto(d, tail, n) is Some {
        assert(tail + 32 * (n - 1) + 32 > d.len());
        assert(spec_word_at(d, tail + 32 * (n - 1)) is None);
    }
}

/// Read the element offset word at `tail + 32 * i`, failing cleanly when
/// the position or the resulting base leaves the data.
fn read_index_word_unbounded(d: &[u8], tail: usize, i: usize) -> (r: Option<usize>)
    requires
        d@.len() <= usize::MAX,
        tail <= d@.len() + 32,
        i <= d@.len(),
    ensures
        match r {
            Some(off) => spec_word_at(d@, tail as int + 32 * (i as int)) == Some(off as nat)
                && off <= d@.len(),
            None => spec_word_at(d@, tail as int + 32 * (i as int)) is None || spec_validator_at(
                d@,
                tail as int + spec_word_at(d@, tail as int + 32 * (i as int)).unwrap(),
            ) is None,
        },
{
    let len = d.len();
    if i > (usize::MAX - tail) / 32 {
        proof {
            assert(tail + 32 * (i as int) > usize::MAX >= d@.len());
            assert(spec_word_at(d@, tail as int + 32 * (i as int)) is None);
        }
        return None;
    }
    let pos = tail + 32 * i;
    match read_index_word(d, pos) {
        Some(off) => Some(off),
        None => {
            proof {
                let p = tail as int + 32 * (i as int);
                if spec_word_at(d@, p) is Some {
                    let off = spec_word_at(d@, p).unwrap() as int;
                    assert(off > d@.len());
                    assert(tail + off + 224 > d@.len());
                    assert(spec_validator_at(d@, tail as int + off) is None);
                }
            }
            None
        },
    }
}

/// Decode the record whose base is `tail + off`, failing cleanly when the
/// base leaves the data.
fn decode_validator_at_checked(d: &[u8], tail: usize, off: usize) -> (r: Option<DecodedValidator>)
    requires
        d@.len() <= usize::MAX,
        tail <= d@.len() + 32,
        off <= d@.len(),
    ensures
        match r {
            Some(v) => spec_validator_at(d@, tail as int + off as int) == Some(v@),
            None => spec_validator_at(d@, tail as int + off as int) is None,
        },
{
    let len = d.len();
    if tail > len || off > len - tail {
        proof {
            assert(tail as int + off as int + 224 > d@.len());
        }
        return None;
    }
    decode_validator_at(d, tail + off)
}


/// One validator as reported to the caller.
#[derive(Debug)]
pub struct ValidatorInfo {
    pub address: Address,
    pub voting_power: U256,
    pub validator_index: u64,
    pub has_network_addresses: bool,
    pub has_fullnode_addresses: bool,
}

/// The outcome of verifying a snapshot: an overall flag, the decoded
/// validators when the reply decoded, and human-readable errors otherwise.
#[derive(Debug)]
pub struct VerifyResult {
    pub success: bool,
    pub validator_count: usize,
    pub validators: Vec<ValidatorInfo>,
    pub errors: Vec<String>,
}

/// The text rendered when the reply does not decode: a schema mismatch,
/// with the reply's first bytes for diagnosis.
pub open spec fn spec_decode_failure_text(output: Seq<u8>) -> Seq<char> {
    "Reply does not decode as the expected validator record shape; first bytes: 0x"@
        + crate::outcome::chars_of(
        crate::hexfmt::spec_hex_encode(if output.len() <= 64 {
            output
        } else {
            output.take(64)
        }),
    )
}

/// How a verification report must reflect one query outcome.
#[verifier::opaque]
pub open spec fn spec_report_matches(o: &crate::outcome::ExecutionOutcome, r: &VerifyResult) -> bool {
    match o {
        crate::outcome::ExecutionOutcome::Success { output, .. } => match spec_decode_validators(
            output@,
        ) {
            Some(views) => {
                &&& r.success
                &&& r.validator_count == views.len()
                &&& r.validators@.len() == views.len()
                &&& r.errors@.len() == 0
                &&& forall|i: int|
                    #![trigger r.validators@[i]]
                    0 <= i < views.len() ==> {
                        &&& r.validators@[i].address@ == views[i].validator
                        &&& r.validators@[i].voting_power.as_nat() == views[i].voting_power
                        &&& r.validators@[i].validator_index as nat == views[i].validator_index
                        &&& r.validators@[i].has_network_addresses == (views[
                            i
                        ].network_addresses.len() > 0)
                        &&& r.validators@[i].has_fullnode_addresses == (views[
                            i
                        ].fullnode_addresses.len() > 0)
                    }
            },
            None => {
                &&& !r.success
                &&& r.validator_count == 0
                &&& r.validators@.len() == 0
                &&& r.errors@.len() == 2
                &&& r.errors@[0]@ == spec_decode_failure_text(output@)
                &&& r.errors@[1]@
                    == "The snapshot was likely produced by older contract byte-code"@
            },
        },
        crate::outcome::ExecutionOutcome::Revert { output, .. } => {
            &&& !r.success
            &&& r.validator_count == 0
            &&& r.validators@.len() == 0
            &&& r.errors@.len() == 1
            &&& r.errors@[0]@ == "Call reverted: 0x"@ + crate::outcome::chars_of(
                crate::hexfmt::spec_hex_encode(output@),
            )
        },
        crate::outcome::ExecutionOutcome::Halt { reason, .. } => {
            &&& !r.success
            &&& r.validator_count == 0
            &&& r.validators@.len() == 0
            &&& r.errors@.len() == 1
            &&& r.errors@[0]@ == "Call halted: "@ + reason@
        },
    }
}

/// Turn the query's outcome into a verification report.
///
/// A successful call whose reply decodes yields a passing report with one
/// entry per validator; a reply that does not decode yields a failing
/// report naming the schema mismatch; a revert or halt yields a failing
/// report with the rendered outcome.
pub fn process_execution_result(o: &crate::outcome::ExecutionOutcome) -> (r: VerifyResult)
    ensures
        spec_report_matches(o, &r),
{
    proof {
        reveal(spec_report_matches);
    }
    match o {
        crate::outcome::ExecutionOutcome::Success { output, .. } => {
            match decode_validators(output.as_slice()) {
                Some(decoded) => {
                    let mut validators: Vec<ValidatorInfo> = Vec::new();
                    let count = decoded.len();
                    let mut i: usize = 0;
                    while i < decoded.len()
                        invariant
                            i <= decoded@.len(),
                            validators@.len() == i,
                            forall|j: int|
                                #![trigger validators@[j]]
                                0 <= j < i ==> {
                                    &&& validators@[j].address@ == decoded@[j]@.validator
                                    &&& validators@[j].voting_power.as_nat() == decoded@[
                                        j
                                    ]@.voting_power
                                    &&& validators@[j].validator_index as nat == decoded@[
                                        j
                                    ]@.validator_index
                                    &&& validators@[j].has_network_addresses == (decoded@[
                                        j
                                    ]@.network_addresses.len() > 0)
                                    &&& validators@[j].has_fullnode_addresses == (decoded@[
                                        j
                                    ]@.fullnode_addresses.len() > 0)
                                },
                        decreases decoded@.len() - i,
                    {
                        let v = &decoded[i];
                        validators.push(
                            ValidatorInfo {
                                address: v.validator.dup(),
                                voting_power: v.voting_power,
                                validator_index: v.validator_index,
                                has_network_addresses: v.network_addresses.len() > 0,
                                has_fullnode_addresses: v.fullnode_addresses.len() > 0,
                            },
                        );
                        i = i + 1;
                    }
                    VerifyResult { success: true, validator_count: count, validators, errors: Vec::new() }
                },
                None => {
                    let mut msg = String::new();
                    msg.append(
                        "Reply does not decode as the expected validator record shape; first bytes: 0x",
                    );
                    let head: &[u8] = if output.len() <= 64 {
                        output.as_slice()
                    } else {
                        let h = vstd::slice::slice_subrange(output.as_slice(), 0, 64);
                        proof {
                            assert(output@.subrange(0, 64) =~= output@.take(64));
                        }
                        h
                    };
                    crate::outcome::append_hex(&mut msg, head);
                    let mut explain = String::new();
                    explain.append("The snapshot was likely produced by older contract byte-code");
                    let mut errors: Vec<String> = Vec::new();
                    errors.push(msg);
                    errors.push(explain);
                    proof {
                        if output@.len() <= 64 {
                            assert(head@ == output@);
                        }
                    }
                    VerifyResult {
                        success: false,
                        validator_count: 0,
                        validators: Vec::new(),
                        errors,
                    }
                },
            }
        },
        crate::outcome::ExecutionOutcome::Revert { output, .. } => {
            let mut msg = String::new();
            msg.append("Call reverted: 0x");
            crate::outcome::append_hex(&mut msg, output.as_slice());
            let mut errors: Vec<String> = Vec::new();
            errors.push(msg);
            VerifyResult { success: false, validator_count: 0, validators: Vec::new(), errors }
        },
        crate::outcome::ExecutionOutcome::Halt { reason, .. } => {
            let mut msg = String::new();
            msg.append("Call halted: ");
            msg.append(reason.as_str());
            let mut errors: Vec<String> = Vec::new();
            errors.push(msg);
            VerifyResult { success: false, validator_count: 0, validators: Vec::new(), errors }
        },
    }
}

/// Two reports that the same query outcome accounts for agree on every
/// observable field. The verifier's report is a function of the snapshot
/// and the query's outcome alone, and the query mutates nothing it reads,
/// so two runs over the same snapshot whose queries end alike yield alike
/// reports; only the virtual machine's own determinism is outside this
/// statement.
pub proof fn lemma_report_deterministic(
    o: &crate::outcome::ExecutionOutcome,
    r1: &VerifyResult,
    r2: &VerifyResult,
)
    requires
        spec_report_matches(o, r1),
        spec_report_matches(o, r2),
    ensures
        r1.success == r2.success,
        r1.validator_count == r2.validator_count,
        r1.errors@.len() == r2.errors@.len(),
        forall|i: int| 0 <= i < r1.errors@.len() ==> (#[trigger] r1.errors@[i])@ == r2.errors@[i]@,
        r1.validators@.len() == r2.validators@.len(),
{
    reveal(spec_report_matches);
}

/// Build the one read-only validator query: a zero-value system call to
/// the validator-set management contract whose payload is the query's
/// four-byte selector — the head of its signature's digest.
pub fn call_get_active_validators() -> (r: crate::txn::TransactionEnvelope)
    ensures
        r.caller@ == crate::address::spec_system_address(crate::registry::SYSTEM_CALLER_TAIL),
        r.target matches crate::txn::TxTarget::Call(a) && a@
            == crate::address::spec_system_address(crate::registry::VALIDATOR_MANAGER_TAIL),
        r.value.as_nat() == 0,
        r.data@ == crate::keccak::keccak256_of("getActiveValidators()".spec_bytes()).take(4),
        r.gas_limit == u64::MAX,
        r.gas_price == 0,
        r.wf(),
{
    let sig = "getActiveValidators()";
    let digest = crate::keccak::keccak256(sig.as_bytes());
    let selector = vstd::slice::slice_subrange(digest.as_slice(), 0, 4);
    proof {
        assert(digest@.subrange(0, 4) =~= digest@.take(4));
    }
    let mut data: Vec<u8> = Vec::new();
    data.push(selector[0]);
    data.push(selector[1]);
    data.push(selector[2]);
    data.push(selector[3]);
    proof {
        assert(data@ =~= digest@.take(4));
    }
    crate::txn::new_system_call_txn(&crate::registry::validator_manager_address(), data)
}

} // verus!
