//! The contract seeder.
//!
//! Populates a fresh world-state view for one bootstrap run: the privileged
//! funding account with enough balance to fund the initialize call, and one
//! account per registered system contract with its runtime bytecode
//! installed. Only the contract designated to hold the pooled stake starts
//! with a balance; every other contract starts at zero.

use vstd::prelude::*;
use crate::account::{Account, AccountView, WorldStateView};
use crate::address::spec_system_address;
use crate::hexfmt::{spec_hex_decode, hex_decode_digits, spec_trim, trim_ascii};
use crate::registry::{SystemContractRecord, system_caller_address, SYSTEM_CALLER_TAIL};
use crate::u256::{U256, p256};

verus! {

/// Safety buffer added to the funding account's balance over the aggregate
/// stake, in wei.
pub const FUNDING_BUFFER_WEI: u128 = 10_000_000_000_000_000_000_000_000;

/// Smaller buffer added to the pooled-stake contract's balance over the
/// aggregate stake, in wei.
pub const POOL_BUFFER_WEI: u128 = 1_000_000_000_000_000_000_000_000;

/// The byte-code text with leading and trailing whitespace and an optional
/// `0x` or `0X` prefix removed.
pub open spec fn spec_code_digits(text: Seq<u8>) -> Seq<u8> {
    let t = spec_trim(text);
    if t.len() >= 2 && t[0] == 0x30 && (t[1] == 0x78 || t[1] == 0x58) {
        t.skip(2)
    } else {
        t
    }
}

/// The bytes denoted by a blob of hex byte-code text, or `None` when the
/// trimmed text has odd length or holds a byte that is not a hex digit.
pub open spec fn spec_runtime_bytecode(text: Seq<u8>) -> Option<Seq<u8>> {
    if spec_trim(text).len() % 2 != 0 {
        None
    } else {
        spec_hex_decode(spec_code_digits(text))
    }
}

/// Whether decoded byte-code looks like constructor rather than runtime
/// code: long enough and starting with a short push-immediate opcode.
pub open spec fn spec_code_ambiguous(code: Seq<u8>) -> bool {
    code.len() > 100 && (code[0] == 0x60 || code[0] == 0x61)
}

/// Decode a blob of hex byte-code text into runtime byte-code.
///
/// Returns the decoded bytes and whether they look like constructor code —
/// an advisory flag for the caller to warn on; the bytes are used as-is
/// either way, since extracting runtime code would require running the
/// constructor. Fails exactly when the text is not well-formed hex.
pub fn extract_runtime_bytecode(text: &[u8]) -> (r: Result<(Vec<u8>, bool), ()>)
    ensures
        match r {
            Ok(p) => spec_runtime_bytecode(text@) == Some(p.0@) && p.1 == spec_code_ambiguous(
                p.0@,
            ),
            Err(_) => spec_runtime_bytecode(text@) is None,
        },
{
    let trimmed = trim_ascii(text);
    if trimmed.len() % 2 != 0 {
        return Err(());
    }
    let digits: &[u8] = if trimmed.len() >= 2 && trimmed[0] == 0x30 && (trimmed[1] == 0x78
        || trimmed[1] == 0x58) {
        let d = vstd::slice::slice_subrange(trimmed.as_slice(), 2, trimmed.len());
        proof {
            assert(trimmed@.subrange(2, trimmed@.len() as int) =~= trimmed@.skip(2));
        }
        d
    } else {
        trimmed.as_slice()
    };
    match hex_decode_digits(digits) {
        Some(code) => {
            let ambiguous = code.len() > 100 && (code[0] == 0x60 || code[0] == 0x61);
            Ok((code, ambiguous))
        },
        None => Err(()),
    }
}

/// Why seeding failed.
#[derive(Clone, Copy, PartialEq, Eq, Structural, Debug)]
pub enum SeedError {
    /// The byte-code text at this registry position is not well-formed hex.
    BadByteCode { index: usize },
    /// A seeded balance would not fit in 256 bits.
    BalanceOverflow,
}

/// Seed a world-state view for a bootstrap run.
///
/// The view holds the privileged funding account — balance of the aggregate
/// stake plus the safety buffer, nonce one, no code — and one account per
/// registry record with its decoded runtime byte-code, empty storage, nonce
/// zero, and a balance of the aggregate stake plus the smaller buffer for
/// the pooled-stake contract alone. Fails exactly when a byte-code blob is
/// unparsable or a balance overflows; no partial view is returned. The
/// second result lists, per record, the advisory constructor-code flag.
pub fn seed_world_state(
    registry: &Vec<SystemContractRecord>,
    codes: &Vec<Vec<u8>>,
    total_stake: &U256,
) -> (r: Result<(WorldStateView, Vec<bool>), SeedError>)
    requires
        registry@.len() == codes@.len(),
        forall|i: int| 0 <= i < registry@.len() ==> (#[trigger] registry@[i]).address.wf(),
        forall|i: int, j: int|
            0 <= i < j < registry@.len() ==> (#[trigger] registry@[i]).address@ != (
            #[trigger] registry@[j]).address@,
        forall|i: int|
            0 <= i < registry@.len() ==> (#[trigger] registry@[i]).address@ != spec_system_address(
                SYSTEM_CALLER_TAIL,
            ),
    ensures
        match r {
            Ok(p) => {
                let view = p.0;
                let caller = spec_system_address(SYSTEM_CALLER_TAIL);
                &&& view.wf()
                &&& total_stake.as_nat() + FUNDING_BUFFER_WEI < p256()
                &&& total_stake.as_nat() + POOL_BUFFER_WEI < p256()
                &&& view@.contains_key(caller)
                &&& view@[caller].balance == total_stake.as_nat() + FUNDING_BUFFER_WEI
                &&& view@[caller].nonce == 1
                &&& view@[caller].code is None
                &&& view@[caller].storage == Map::<nat, nat>::empty()
                &&& forall|i: int|
                    0 <= i < registry@.len() ==> spec_runtime_bytecode(
                        (#[trigger] codes@[i])@,
                    ) is Some
                &&& forall|i: int|
                    0 <= i < registry@.len() ==> {
                        let a = (#[trigger] registry@[i]).address@;
                        &&& view@.contains_key(a)
                        &&& view@[a].balance == if registry@[i].holds_pool_stake {
                            total_stake.as_nat() + POOL_BUFFER_WEI
                        } else {
                            0
                        }
                        &&& view@[a].nonce == 0
                        &&& view@[a].code == Some(
                            spec_runtime_bytecode(codes@[i]@).unwrap(),
                        )
                        &&& view@[a].storage == Map::<nat, nat>::empty()
                    }
                &&& forall|a: Seq<u8>|
                    view@.contains_key(a) ==> a == caller || exists|i: int|
                        0 <= i < registry@.len() && (#[trigger] registry@[i]).address@ == a
                &&& p.1@.len() == registry@.len()
                &&& forall|i: int|
                    0 <= i < p.1@.len() ==> p.1@[i] == spec_code_ambiguous(
                        spec_runtime_bytecode((#[trigger] codes@[i])@).unwrap(),
                    )
            },
            Err(SeedError::BalanceOverflow) => total_stake.as_nat() + FUNDING_BUFFER_WEI >= p256()
                || total_stake.as_nat() + POOL_BUFFER_WEI >= p256(),
            Err(SeedError::BadByteCode { index }) => 0 <= index < codes@.len()
                && spec_runtime_bytecode(codes@[index as int]@) is None,
        },
{
    let funding_balance = match total_stake.checked_add(&U256::from_u128(FUNDING_BUFFER_WEI)) {
        Some(b) => b,
        None => {
            return Err(SeedError::BalanceOverflow);
        },
    };
    let pool_balance = match total_stake.checked_add(&U256::from_u128(POOL_BUFFER_WEI)) {
        Some(b) => b,
        None => {
            return Err(SeedError::BalanceOverflow);
        },
    };
    let mut view = WorldStateView::new();
    let caller = system_caller_address();
    let mut funding_account = Account::empty();
    funding_account.balance = funding_balance;
    funding_account.nonce = 1;
    view.set_account(&caller, funding_account);
    let mut warnings: Vec<bool> = Vec::new();
    let mut i: usize = 0;
    while i < registry.len()
        invariant
            i <= registry@.len(),
            registry@.len() == codes@.len(),
            view.wf(),
            forall|n: int| 0 <= n < registry@.len() ==> (#[trigger] registry@[n]).address.wf(),
            forall|n: int, m: int|
                0 <= n < m < registry@.len() ==> (#[trigger] registry@[n]).address@ != (
                #[trigger] registry@[m]).address@,
            forall|n: int|
                0 <= n < registry@.len() ==> (#[trigger] registry@[n]).address@
                    != spec_system_address(SYSTEM_CALLER_TAIL),
            view@.contains_key(spec_system_address(SYSTEM_CALLER_TAIL)),
            view@[spec_system_address(SYSTEM_CALLER_TAIL)].balance == total_stake.as_nat()
                + FUNDING_BUFFER_WEI,
            view@[spec_system_address(SYSTEM_CALLER_TAIL)].nonce == 1,
            view@[spec_system_address(SYSTEM_CALLER_TAIL)].code is None,
            view@[spec_system_address(SYSTEM_CALLER_TAIL)].storage == Map::<nat, nat>::empty(),
            pool_balance.as_nat() == total_stake.as_nat() + POOL_BUFFER_WEI,
            forall|n: int|
                0 <= n < i ==> spec_runtime_bytecode((#[trigger] codes@[n])@) is Some,
            forall|n: int|
                0 <= n < i ==> {
                    let a = (#[trigger] registry@[n]).address@;
                    &&& view@.contains_key(a)
                    &&& view@[a].balance == if registry@[n].holds_pool_stake {
                        total_stake.as_nat() + POOL_BUFFER_WEI
                    } else {
                        0
                    }
                    &&& view@[a].nonce == 0
                    &&& view@[a].code == Some(spec_runtime_bytecode(codes@[n]@).unwrap())
                    &&& view@[a].storage == Map::<nat, nat>::empty()
                },
            forall|a: Seq<u8>|
                view@.contains_key(a) ==> a == spec_system_address(SYSTEM_CALLER_TAIL) || exists|
                    n: int,
                | 0 <= n < i && (#[trigger] registry@[n]).address@ == a,
            warnings@.len() == i,
            forall|n: int|
                0 <= n < i ==> warnings@[n] == spec_code_ambiguous(
                    spec_runtime_bytecode((#[trigger] codes@[n])@).unwrap(),
                ),
        decreases registry@.len() - i,
    {
        let (code, ambiguous) = match extract_runtime_bytecode(codes[i].as_slice()) {
            Ok(p) => p,
            Err(_) => {
                return Err(SeedError::BadByteCode { index: i });
            },
        };
        let record = &registry[i];
        let mut account = Account::empty();
        account.balance = if record.holds_pool_stake {
            pool_balance
        } else {
            U256::zero()
        };
        account.code = Some(code);
        view.set_account(&record.address, account);
        warnings.push(ambiguous);
        proof {
            assert forall|a: Seq<u8>| view@.contains_key(a) implies a == spec_system_address(
                SYSTEM_CALLER_TAIL,
            ) || exists|n: int| 0 <= n < i + 1 && (#[trigger] registry@[n]).address@ == a by {
                if a == registry@[i as int].address@ {
                    assert(registry@[i as int].address@ == a);
                }
            }
        }
        i = i + 1;
    }
    Ok((view, warnings))
}

/// Sum of the balances a ledger holds at the registry's addresses, an
/// absent address counting zero.
pub open spec fn spec_sum_registry_balances(
    m: Map<Seq<u8>, AccountView>,
    regs: Seq<SystemContractRecord>,
) -> nat
    decreases regs.len(),
{
    if regs.len() == 0 {
        0
    } else {
        spec_sum_registry_balances(m, regs.drop_last()) + (if m.contains_key(
            regs.last().address@,
        ) {
            m[regs.last().address@].balance
        } else {
            0
        })
    }
}

/// Registry addresses that all carry zero balance sum to zero.
proof fn lemma_sum_zero(m: Map<Seq<u8>, AccountView>, regs: Seq<SystemContractRecord>)
    requires
        forall|i: int|
            0 <= i < regs.len() ==> m.contains_key((#[trigger] regs[i]).address@) && m[regs[
                i
            ].address@].balance == 0,
    ensures
        spec_sum_registry_balances(m, regs) == 0,
    decreases regs.len(),
{
    if regs.len() > 0 {
        lemma_sum_zero(m, regs.drop_last());
    }
}

/// After seeding, the registry accounts' balances sum to the aggregate
/// stake plus the pool buffer: the designated pooled-stake contract holds
/// all of it and every other contract holds zero. Together with the funding
/// account's balance — the aggregate stake plus the safety buffer, stated
/// by the seeder itself — this accounts for every coin the seeder creates.
pub proof fn lemma_seeded_balance_sum(
    m: Map<Seq<u8>, AccountView>,
    regs: Seq<SystemContractRecord>,
    total: nat,
    k: int,
)
    requires
        0 <= k < regs.len(),
        forall|i: int| 0 <= i < regs.len() ==> ((#[trigger] regs[i]).holds_pool_stake <==> i == k),
        forall|i: int| 0 <= i < regs.len() ==> m.contains_key((#[trigger] regs[i]).address@),
        forall|i: int|
            0 <= i < regs.len() ==> m[(#[trigger] regs[i]).address@].balance == (if regs[
                i
            ].holds_pool_stake {
                total + POOL_BUFFER_WEI
            } else {
                0
            }),
    ensures
        spec_sum_registry_balances(m, regs) == total + POOL_BUFFER_WEI,
    decreases regs.len(),
{
    if k == regs.len() - 1 {
        lemma_sum_zero(m, regs.drop_last());
    } else {
        assert(!regs.last().holds_pool_stake);
        lemma_seeded_balance_sum(m, regs.drop_last(), total, k);
    }
}

} // verus!
