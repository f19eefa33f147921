//! Transaction envelopes.
//!
//! Every transaction the bootstrap issues is a call (or a creation) from the
//! privileged funding account, with a zero gas price and an unbounded gas
//! budget.

use vstd::prelude::*;
use crate::address::{Address, spec_system_address};
use crate::registry::{system_caller_address, SYSTEM_CALLER_TAIL};
use crate::u256::U256;

verus! {

/// Default gas budget of the execution environment. Every bootstrap
/// transaction carries its own unbounded budget; the environment's value
/// stands only for a transaction that names none.
pub const ENV_GAS_BUDGET: u64 = 30_000_000;

/// Where a transaction is directed.
#[derive(Debug)]
pub enum TxTarget {
    /// A call to the account at the address.
    Call(Address),
    /// Creation of a new contract.
    Create,
}

/// One transaction to execute: caller, target, attached value, payload and
/// gas terms.
#[derive(Debug)]
pub struct TransactionEnvelope {
    pub caller: Address,
    pub target: TxTarget,
    pub value: U256,
    pub data: Vec<u8>,
    pub gas_limit: u64,
    pub gas_price: u128,
}

impl TransactionEnvelope {
    /// Well-formed: the caller and any call target hold 20-byte addresses.
    pub open spec fn wf(&self) -> bool {
        &&& self.caller.wf()
        &&& match self.target {
            TxTarget::Call(a) => a.wf(),
            TxTarget::Create => true,
        }
    }
}

/// A zero-value system call: from the privileged caller to the contract,
/// with the given payload.
pub fn new_system_call_txn(contract: &Address, input: Vec<u8>) -> (r: TransactionEnvelope)
    requires
        contract.wf(),
    ensures
        r.caller@ == spec_system_address(SYSTEM_CALLER_TAIL),
        r.target matches TxTarget::Call(a) && a@ == contract@,
        r.value.as_nat() == 0,
        r.data@ == input@,
        r.gas_limit == u64::MAX,
        r.gas_price == 0,
        r.wf(),
{
    new_system_call_txn_with_value(contract, input, U256::zero())
}

/// A system call carrying value, for payable targets.
pub fn new_system_call_txn_with_value(contract: &Address, input: Vec<u8>, value: U256) -> (r:
    TransactionEnvelope)
    requires
        contract.wf(),
    ensures
        r.caller@ == spec_system_address(SYSTEM_CALLER_TAIL),
        r.target matches TxTarget::Call(a) && a@ == contract@,
        r.value == value,
        r.data@ == input@,
        r.gas_limit == u64::MAX,
        r.gas_price == 0,
        r.wf(),
{
    TransactionEnvelope {
        caller: system_caller_address(),
        target: TxTarget::Call(contract.dup()),
        value,
        data: input,
        gas_limit: u64::MAX,
        gas_price: 0,
    }
}

/// A system creation transaction: the creation code given as hex text, with
/// constructor arguments appended.
///
/// Returns `Ok` exactly when the hex text is an even number of hex digits.
pub fn new_system_create_txn(hex_code: &[u8], args: &[u8]) -> (r: Result<
    TransactionEnvelope,
    crate::u256::NumParseError,
>)
    ensures
        match r {
            Ok(t) => {
                &&& crate::hexfmt::spec_hex_decode(hex_code@) matches Some(code)
                &&& t.data@ == crate::hexfmt::spec_hex_decode(hex_code@).unwrap() + args@
                &&& t.caller@ == spec_system_address(SYSTEM_CALLER_TAIL)
                &&& t.target is Create
                &&& t.value.as_nat() == 0
                &&& t.gas_limit == u64::MAX
                &&& t.gas_price == 0
                &&& t.wf()
            },
            Err(_) => crate::hexfmt::spec_hex_decode(hex_code@) is None,
        },
{
    match crate::hexfmt::hex_decode_digits(hex_code) {
        Some(mut data) => {
            let ghost code = data@;
            let mut i: usize = 0;
            while i < args.len()
                invariant
                    i <= args@.len(),
                    data@ =~= code + args@.take(i as int),
                decreases args@.len() - i,
            {
                data.push(args[i]);
                proof {
                    assert(data@ =~= code + args@.take(i + 1));
                }
                i = i + 1;
            }
            proof {
                assert(args@.take(args@.len() as int) =~= args@);
            }
            Ok(TransactionEnvelope {
                caller: system_caller_address(),
                target: TxTarget::Create,
                value: U256::zero(),
                data,
                gas_limit: u64::MAX,
                gas_price: 0,
            })
        },
        None => Err(crate::u256::NumParseError::Malformed),
    }
}

} // verus!
