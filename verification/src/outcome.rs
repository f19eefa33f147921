//! Execution outcomes and their classification.
//!
//! Each transaction run through the virtual machine ends in success, a
//! revert, or a halt. A revert's output starts with a four-byte error
//! selector that a fixed table maps to a known system error cause; success
//! logs may carry a diagnostic event — a message with a numeric value —
//! rendered into a trace string. The rendered diagnostics are advisory; the
//! classification itself drives whether a bootstrap run aborts.

use vstd::prelude::*;
use vstd::string::StringSliceAdditionalSpecFns;
use crate::hexfmt::{
    spec_dec_digits, spec_hex_encode, dec_u64, hex_encode, ascii_string,
};
use crate::keccak::{keccak256, keccak256_of};
use crate::u256::{U256, spec_word_value};

verus! {

/// One log emitted by the virtual machine: indexed topics and a payload.
#[derive(Debug)]
pub struct LogRecord {
    pub topics: Vec<Vec<u8>>,
    pub data: Vec<u8>,
}

/// The outcome of one transaction.
#[derive(Debug)]
pub enum ExecutionOutcome {
    /// The transaction completed; its effects are committed.
    Success { gas_used: u64, output: Vec<u8>, logs: Vec<LogRecord> },
    /// The transaction reverted; the output is the revert payload.
    Revert { gas_used: u64, output: Vec<u8> },
    /// Execution halted for the given rendered reason.
    Halt { reason: String, gas_used: u64 },
}

/// The known system error causes, keyed by revert selector.
#[derive(Clone, Copy, PartialEq, Eq, Structural, Debug)]
pub enum ErrorCause {
    OnlySystemCaller,
    UnknownParam,
    InvalidValue,
    OnlyCoinbase,
    OnlyZeroGasPrice,
    OnlySystemContract,
    ErrorString,
    PanicCode,
    Unknown,
}

/// Whether an outcome is a success.
pub open spec fn spec_is_success(o: &ExecutionOutcome) -> bool {
    o matches ExecutionOutcome::Success { .. }
}

/// Whether an outcome is a success, executable form.
pub fn is_success(o: &ExecutionOutcome) -> (r: bool)
    ensures
        r == spec_is_success(o),
{
    match o {
        ExecutionOutcome::Success { .. } => true,
        _ => false,
    }
}

/// The output bytes of a successful outcome, `None` otherwise.
pub fn success_output(o: &ExecutionOutcome) -> (r: Option<&Vec<u8>>)
    ensures
        match r {
            Some(out) => o matches ExecutionOutcome::Success { output, .. } && out@ == output@,
            None => !spec_is_success(o),
        },
{
    match o {
        ExecutionOutcome::Success { output, .. } => Some(output),
        _ => None,
    }
}

/// The error cause a revert selector classifies to.
pub open spec fn spec_classify(sel: Seq<u8>) -> ErrorCause {
    if sel.len() < 4 {
        ErrorCause::Unknown
    } else if sel[0] == 0x49 && sel[1] == 0xfd && sel[2] == 0x36 && sel[3] == 0xf2 {
        ErrorCause::OnlySystemCaller
    } else if sel[0] == 0x97 && sel[1] == 0xb8 && sel[2] == 0x83 && sel[3] == 0x54 {
        ErrorCause::UnknownParam
    } else if sel[0] == 0x0a && sel[1] == 0x5a && sel[2] == 0x60 && sel[3] == 0x41 {
        ErrorCause::InvalidValue
    } else if sel[0] == 0x11 && sel[1] == 0x6c && sel[2] == 0x64 && sel[3] == 0xa8 {
        ErrorCause::OnlyCoinbase
    } else if sel[0] == 0x83 && sel[1] == 0xf1 && sel[2] == 0xb1 && sel[3] == 0xd3 {
        ErrorCause::OnlyZeroGasPrice
    } else if sel[0] == 0xf2 && sel[1] == 0x2c && sel[2] == 0x43 && sel[3] == 0x90 {
        ErrorCause::OnlySystemContract
    } else if sel[0] == 0x08 && sel[1] == 0xc3 && sel[2] == 0x79 && sel[3] == 0xa0 {
        ErrorCause::ErrorString
    } else if sel[0] == 0x4e && sel[1] == 0x48 && sel[2] == 0x7b && sel[3] == 0x71 {
        ErrorCause::PanicCode
    } else {
        ErrorCause::Unknown
    }
}

/// Classify the first four bytes of a revert payload.
pub fn classify_selector(sel: &[u8]) -> (r: ErrorCause)
    requires
        sel@.len() >= 4,
    ensures
        r == spec_classify(sel@),
{
    let b0 = sel[0];
    let b1 = sel[1];
    let b2 = sel[2];
    let b3 = sel[3];
    if b0 == 0x49 && b1 == 0xfd && b2 == 0x36 && b3 == 0xf2 {
        ErrorCause::OnlySystemCaller
    } else if b0 == 0x97 && b1 == 0xb8 && b2 == 0x83 && b3 == 0x54 {
        ErrorCause::UnknownParam
    } else if b0 == 0x0a && b1 == 0x5a && b2 == 0x60 && b3 == 0x41 {
        ErrorCause::InvalidValue
    } else if b0 == 0x11 && b1 == 0x6c && b2 == 0x64 && b3 == 0xa8 {
        ErrorCause::OnlyCoinbase
    } else if b0 == 0x83 && b1 == 0xf1 && b2 == 0xb1 && b3 == 0xd3 {
        ErrorCause::OnlyZeroGasPrice
    } else if b0 == 0xf2 && b1 == 0x2c && b2 == 0x43 && b3 == 0x90 {
        ErrorCause::OnlySystemContract
    } else if b0 == 0x08 && b1 == 0xc3 && b2 == 0x79 && b3 == 0xa0 {
        ErrorCause::ErrorString
    } else if b0 == 0x4e && b1 == 0x48 && b2 == 0x7b && b3 == 0x71 {
        ErrorCause::PanicCode
    } else {
        ErrorCause::Unknown
    }
}

/// The label rendered beside a classified selector.
pub open spec fn spec_cause_label(c: ErrorCause) -> Seq<char> {
    match c {
        ErrorCause::OnlySystemCaller => "OnlySystemCaller"@,
        ErrorCause::UnknownParam => "UnknownParam"@,
        ErrorCause::InvalidValue => "InvalidValue"@,
        ErrorCause::OnlyCoinbase => "OnlyCoinbase"@,
        ErrorCause::OnlyZeroGasPrice => "OnlyZeroGasPrice"@,
        ErrorCause::OnlySystemContract => "OnlySystemContract"@,
        ErrorCause::ErrorString => "Error(string)"@,
        ErrorCause::PanicCode => "Panic(uint256)"@,
        ErrorCause::Unknown => "Unknown error selector"@,
    }
}

/// The label of a classified selector, executable form.
pub fn cause_label(c: &ErrorCause) -> (r: &'static str)
    ensures
        r@ == spec_cause_label(*c),
{
    match c {
        ErrorCause::OnlySystemCaller => "OnlySystemCaller",
        ErrorCause::UnknownParam => "UnknownParam",
        ErrorCause::InvalidValue => "InvalidValue",
        ErrorCause::OnlyCoinbase => "OnlyCoinbase",
        ErrorCause::OnlyZeroGasPrice => "OnlyZeroGasPrice",
        ErrorCause::OnlySystemContract => "OnlySystemContract",
        ErrorCause::ErrorString => "Error(string)",
        ErrorCause::PanicCode => "Panic(uint256)",
        ErrorCause::Unknown => "Unknown error selector",
    }
}

/// Characters denoted by a sequence of ASCII bytes.
pub open spec fn chars_of(b: Seq<u8>) -> Seq<char> {
    b.map_values(|x: u8| x as char)
}

/// The topic identifying the diagnostic event: the digest of its signature.
pub open spec fn spec_diag_topic() -> Seq<u8> {
    keccak256_of("Log(string,uint256)".spec_bytes())
}

/// What a diagnostic event's payload decodes to: message bytes and a
/// numeric value, laid out as one word of offset, one word of value, then
/// the counted message bytes at the offset.
pub open spec fn spec_decode_diag_data(d: Seq<u8>) -> Option<(Seq<u8>, nat)> {
    if d.len() < 64 {
        None
    } else {
        let off = spec_word_value(d.subrange(0, 32)) as int;
        let value = spec_word_value(d.subrange(32, 64));
        if off + 32 <= d.len() {
            let mlen = spec_word_value(d.subrange(off, off + 32)) as int;
            if off + 32 + mlen <= d.len() {
                Some((d.subrange(off + 32, off + 32 + mlen), value))
            } else {
                None
            }
        } else {
            None
        }
    }
}

/// What a log decodes to as a diagnostic event: its payload's content when
/// its single topic is the event's digest, nothing otherwise.
pub open spec fn spec_decode_diag_log(l: &LogRecord) -> Option<(Seq<u8>, nat)> {
    if l.topics@.len() == 1 && l.topics@[0]@ == spec_diag_topic() {
        spec_decode_diag_data(l.data@)
    } else {
        None
    }
}

/// Decode a log as a diagnostic event.
pub fn decode_diag_log(l: &LogRecord) -> (r: Option<(Vec<u8>, U256)>)
    ensures
        match r {
            Some(p) => spec_decode_diag_log(l) matches Some(q) && p.0@ == q.0 && p.1.as_nat()
                == q.1,
            None => spec_decode_diag_log(l) is None,
        },
{
    if l.topics.len() != 1 {
        return None;
    }
    let sig = "Log(string,uint256)";
    let topic = keccak256(sig.as_bytes());
    if !bytes_eq(&l.topics[0], &topic) {
        return None;
    }
    let d = &l.data;
    let n = d.len();
    if n < 64 {
        return None;
    }
    let off_w = U256::from_be_word(d.as_slice(), 0);
    let value = U256::from_be_word(d.as_slice(), 32);
    let off = match off_w.to_usize() {
        Some(o) => o,
        None => {
            return None;
        },
    };
    if off > n || n - off < 32 {
        return None;
    }
    let mlen_w = U256::from_be_word(d.as_slice(), off);
    let mlen = match mlen_w.to_usize() {
        Some(m) => m,
        None => {
            return None;
        },
    };
    if mlen > n - off - 32 {
        return None;
    }
    let mut msg: Vec<u8> = Vec::new();
    let mut i: usize = 0;
    while i < mlen
        invariant
            i <= mlen,
            off + 32 + mlen <= d@.len(),
            d@.len() <= usize::MAX,
            msg@ =~= d@.subrange(off as int + 32, off as int + 32 + i),
        decreases mlen - i,
    {
        msg.push(d[off + 32 + i]);
        proof {
            assert(msg@ =~= d@.subrange(off as int + 32, off as int + 32 + i + 1));
        }
        i = i + 1;
    }
    Some((msg, value))
}

/// All bytes are ASCII.
pub open spec fn spec_all_ascii(b: Seq<u8>) -> bool {
    forall|i: int| 0 <= i < b.len() ==> b[i] < 0x80
}

/// Whether all bytes are ASCII, executable form.
pub fn all_ascii(v: &Vec<u8>) -> (r: bool)
    ensures
        r == spec_all_ascii(v@),
{
    let mut i: usize = 0;
    while i < v.len()
        invariant
            i <= v@.len(),
            forall|j: int| 0 <= j < i ==> v@[j] < 0x80,
        decreases v@.len() - i,
    {
        if v[i] >= 0x80 {
            return false;
        }
        i = i + 1;
    }
    true
}

/// The trace rendered for one log: the diagnostic event's message and
/// value when the log decodes to one with an ASCII message, else nothing.
pub open spec fn spec_diag_entry(l: &LogRecord) -> Seq<char> {
    match spec_decode_diag_log(l) {
        Some(p) => "txn event Log: \""@ + spec_message_text(p.0) + "\", "@ + chars_of(
            spec_dec_digits(p.1),
        ) + "."@,
        None => Seq::empty(),
    }
}

/// How a decoded message renders: as its characters when it is ASCII, as
/// hex text marked with a `0x` prefix otherwise, so no decoded event is
/// dropped from the trace.
pub open spec fn spec_message_text(msg: Seq<u8>) -> Seq<char> {
    if spec_all_ascii(msg) {
        chars_of(msg)
    } else {
        "0x"@ + chars_of(spec_hex_encode(msg))
    }
}

/// The trace rendered for a list of logs, in order.
pub open spec fn spec_logs_msg(logs: Seq<LogRecord>) -> Seq<char>
    decreases logs.len(),
{
    if logs.len() == 0 {
        Seq::empty()
    } else {
        spec_logs_msg(logs.drop_last()) + spec_diag_entry(&logs.last())
    }
}

/// The diagnostic text rendered for an outcome: the gas spent, a revert's
/// classified selector and remaining payload, or a success's decoded
/// diagnostic events.
pub open spec fn spec_analyze(o: &ExecutionOutcome) -> Seq<char> {
    match o {
        ExecutionOutcome::Success { gas_used, output: _, logs } => "Success with gas used: "@
            + chars_of(spec_dec_digits(*gas_used as nat)) + ", "@ + spec_logs_msg(logs@),
        ExecutionOutcome::Revert { gas_used, output } => {
            let base = "Revert with gas used: "@ + chars_of(spec_dec_digits(*gas_used as nat));
            let with_sel = if output@.len() >= 4 {
                base + "\nFunction selector: 0x"@ + chars_of(spec_hex_encode(output@.subrange(0, 4)))
                    + " ("@ + spec_cause_label(spec_classify(output@)) + ")"@
            } else {
                base
            };
            if output@.len() > 4 {
                with_sel + "\nAdditional data: 0x"@ + chars_of(spec_hex_encode(output@.skip(4)))
            } else {
                with_sel
            }
        },
        ExecutionOutcome::Halt { reason, gas_used } => "Halt: "@ + reason@ + " with gas used: "@
            + chars_of(spec_dec_digits(*gas_used as nat)),
    }
}

/// The decimal digits of a number are ASCII.
proof fn lemma_dec_digits_ascii(n: nat)
    ensures
        spec_all_ascii(spec_dec_digits(n)),
    decreases n,
{
    if n >= 10 {
        lemma_dec_digits_ascii(n / 10);
    }
}

/// Hex text is ASCII.
proof fn lemma_hex_encode_ascii(b: Seq<u8>)
    ensures
        spec_all_ascii(spec_hex_encode(b)),
{
}

/// Append the hex text of bytes to a string.
pub fn append_hex(s: &mut String, bytes: &[u8])
    ensures
        final(s)@ == old(s)@ + chars_of(spec_hex_encode(bytes@)),
{
    proof {
        lemma_hex_encode_ascii(bytes@);
    }
    append_ascii(s, &hex_encode(bytes));
}

/// Append ASCII bytes to a string as characters.
fn append_ascii(s: &mut String, bytes: &Vec<u8>)
    requires
        spec_all_ascii(bytes@),
    ensures
        final(s)@ == old(s)@ + chars_of(bytes@),
{
    let part = ascii_string(bytes);
    s.append(part.as_str());
    proof {
        assert(part@ =~= chars_of(bytes@));
    }
}

/// Append the trace of one log to a string.
#[verifier::rlimit(100)]
fn append_diag_entry(s: &mut String, l: &LogRecord)
    ensures
        final(s)@ == old(s)@ + spec_diag_entry(l),
{
    match decode_diag_log(l) {
        Some((msg, value)) => {
            s.append("txn event Log: \"");
            if all_ascii(&msg) {
                append_ascii(s, &msg);
            } else {
                s.append("0x");
                append_hex(s, msg.as_slice());
            }
            s.append("\", ");
            proof {
                lemma_dec_digits_ascii(value.as_nat());
            }
            append_ascii(s, &value.to_dec_bytes());
            s.append(".");
        },
        None => {},
    }
}

/// Append the trace of a list of logs to a string, in order.
fn append_logs_msg(s: &mut String, logs: &Vec<LogRecord>)
    ensures
        final(s)@ == old(s)@ + spec_logs_msg(logs@),
{
    let mut i: usize = 0;
    while i < logs.len()
        invariant
            i <= logs@.len(),
            s@ == old(s)@ + spec_logs_msg(logs@.take(i as int)),
        decreases logs@.len() - i,
    {
        proof {
            assert(logs@.take(i + 1).drop_last() =~= logs@.take(i as int));
            assert(logs@.take(i + 1).last() == logs@[i as int]);
        }
        append_diag_entry(s, &logs[i]);
        i = i + 1;
    }
    proof {
        assert(logs@.take(logs@.len() as int) =~= logs@);
    }
}

/// Render the diagnostic text for an outcome.
pub fn analyze_txn_result(o: &ExecutionOutcome) -> (r: String)
    ensures
        r@ == spec_analyze(o),
{
    let mut s = String::new();
    match o {
        ExecutionOutcome::Success { gas_used, output: _, logs } => {
            s.append("Success with gas used: ");
            proof {
                lemma_dec_digits_ascii(*gas_used as nat);
            }
            append_ascii(&mut s, &dec_u64(*gas_used));
            s.append(", ");
            append_logs_msg(&mut s, logs);
        },
        ExecutionOutcome::Revert { gas_used, output } => {
            s.append("Revert with gas used: ");
            proof {
                lemma_dec_digits_ascii(*gas_used as nat);
            }
            append_ascii(&mut s, &dec_u64(*gas_used));
            if output.len() >= 4 {
                s.append("\nFunction selector: 0x");
                let sel = vstd::slice::slice_subrange(output.as_slice(), 0, 4);
                proof {
                    lemma_hex_encode_ascii(sel@);
                }
                append_ascii(&mut s, &hex_encode(sel));
                s.append(" (");
                let cause = classify_selector(output.as_slice());
                s.append(cause_label(&cause));
                s.append(")");
            }
            if output.len() > 4 {
                s.append("\nAdditional data: 0x");
                let rest = vstd::slice::slice_subrange(output.as_slice(), 4, output.len());
                proof {
                    lemma_hex_encode_ascii(rest@);
                    assert(rest@ =~= output@.skip(4));
                }
                append_ascii(&mut s, &hex_encode(rest));
            }
        },
        ExecutionOutcome::Halt { reason, gas_used } => {
            s.append("Halt: ");
            s.append(reason.as_str());
            s.append(" with gas used: ");
            proof {
                lemma_dec_digits_ascii(*gas_used as nat);
            }
            append_ascii(&mut s, &dec_u64(*gas_used));
        },
    }
    s
}

/// Byte-vector equality.
fn bytes_eq(a: &Vec<u8>, b: &Vec<u8>) -> (r: bool)
    ensures
        r == (a@ == b@),
{
    if a.len() != b.len() {
        return false;
    }
    let mut i: usize = 0;
    while i < a.len()
        invariant
            i <= a@.len(),
            a@.len() == b@.len(),
            forall|j: int| 0 <= j < i ==> a@[j] == b@[j],
        decreases a@.len() - i,
    {
        if a[i] != b[i] {
            return false;
        }
        i = i + 1;
    }
    proof {
        assert(a@ =~= b@);
    }
    true
}

} // verus!
