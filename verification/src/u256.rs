//! Fixed-width 256-bit unsigned integers.
//!
//! Balances, storage keys and storage values of the ledger are 256-bit
//! numbers. The type stores four 64-bit limbs, least significant first, and
//! every operation is specified against the mathematical value of the limbs.

use vstd::prelude::*;
use vstd::arithmetic::div_mod::lemma_fundamental_div_mod;

verus! {

/// 2^64, as a specification constant.
pub open spec fn p64() -> nat {
    0x1_0000_0000_0000_0000nat
}

/// 2^128, as a specification constant.
pub open spec fn p128() -> nat {
    0x1_0000_0000_0000_0000_0000_0000_0000_0000nat
}

/// 2^192, as a specification constant.
pub open spec fn p192() -> nat {
    0x1_0000_0000_0000_0000_0000_0000_0000_0000_0000_0000_0000_0000nat
}

/// 2^256, as a specification constant.
pub open spec fn p256() -> nat {
    0x1_0000_0000_0000_0000_0000_0000_0000_0000_0000_0000_0000_0000_0000_0000_0000_0000nat
}

/// A 256-bit unsigned integer: four 64-bit limbs, least significant first.
#[derive(Clone, Copy, PartialEq, Eq, Structural, Debug)]
pub struct U256 {
    pub l0: u64,
    pub l1: u64,
    pub l2: u64,
    pub l3: u64,
}

impl U256 {
    /// The number this value denotes.
    pub open spec fn as_nat(self) -> nat {
        (self.l0 + self.l1 * p64() + self.l2 * p128() + self.l3 * p192()) as nat
    }

    /// The zero value.
    pub fn zero() -> (r: U256)
        ensures
            r.as_nat() == 0,
    {
        U256 { l0: 0, l1: 0, l2: 0, l3: 0 }
    }

    /// Embed a 64-bit number.
    pub fn from_u64(n: u64) -> (r: U256)
        ensures
            r.as_nat() == n,
    {
        U256 { l0: n, l1: 0, l2: 0, l3: 0 }
    }

    /// Embed a 128-bit number.
    pub fn from_u128(n: u128) -> (r: U256)
        ensures
            r.as_nat() == n,
    {
        let lo = (n % 0x1_0000_0000_0000_0000u128) as u64;
        let hi = (n / 0x1_0000_0000_0000_0000u128) as u64;
        proof {
            lemma_fundamental_div_mod(n as int, p64() as int);
        }
        U256 { l0: lo, l1: hi, l2: 0, l3: 0 }
    }

    /// Whether the value is zero.
    pub fn is_zero(&self) -> (r: bool)
        ensures
            r == (self.as_nat() == 0),
    {
        self.l0 == 0 && self.l1 == 0 && self.l2 == 0 && self.l3 == 0
    }

    /// Sum, or `None` when it does not fit in 256 bits.
    pub fn checked_add(&self, o: &U256) -> (r: Option<U256>)
        ensures
            match r {
                Some(s) => s.as_nat() == self.as_nat() + o.as_nat(),
                None => self.as_nat() + o.as_nat() >= p256(),
            },
    {
        let (r0, c0) = adc(self.l0, o.l0, 0);
        let (r1, c1) = adc(self.l1, o.l1, c0);
        let (r2, c2) = adc(self.l2, o.l2, c1);
        let (r3, c3) = adc(self.l3, o.l3, c2);
        let s = U256 { l0: r0, l1: r1, l2: r2, l3: r3 };
        proof {
            assert(s.as_nat() + c3 * p256() == self.as_nat() + o.as_nat());
        }
        if c3 == 0 {
            Some(s)
        } else {
            None
        }
    }

    /// `self * m + d`, or `None` when it does not fit in 256 bits.
    pub fn mul_small_add(&self, m: u64, d: u64) -> (r: Option<U256>)
        ensures
            match r {
                Some(s) => s.as_nat() == self.as_nat() * m + d,
                None => self.as_nat() * m + d >= p256(),
            },
    {
        let (r0, c0) = mac(self.l0, m, d);
        let (r1, c1) = mac(self.l1, m, c0);
        let (r2, c2) = mac(self.l2, m, c1);
        let (r3, c3) = mac(self.l3, m, c2);
        let s = U256 { l0: r0, l1: r1, l2: r2, l3: r3 };
        proof {
            let l0 = self.l0 as int;
            let l1 = self.l1 as int;
            let l2 = self.l2 as int;
            let l3 = self.l3 as int;
            let mi = m as int;
            assert((l0 + l1 * p64() + l2 * p128() + l3 * p192()) * mi == l0 * mi + (l1 * mi) * p64()
                + (l2 * mi) * p128() + (l3 * mi) * p192()) by (nonlinear_arith);
            assert(s.as_nat() + (c3 as int) * p256() == self.as_nat() * mi + d);
        }
        if c3 == 0 {
            Some(s)
        } else {
            None
        }
    }
}

impl U256 {
    /// Quotient and remainder by a small divisor.
    pub fn divmod_small(&self, d: u64) -> (r: (U256, u64))
        requires
            1 <= d,
        ensures
            r.0.as_nat() == self.as_nat() / (d as nat),
            r.1 == self.as_nat() % (d as nat),
            r.1 < d,
    {
        let (q3, r3) = div_step(0, self.l3, d);
        let (q2, r2) = div_step(r3, self.l2, d);
        let (q1, r1) = div_step(r2, self.l1, d);
        let (q0, r0) = div_step(r1, self.l0, d);
        let q = U256 { l0: q0, l1: q1, l2: q2, l3: q3 };
        proof {
            let di = d as int;
            let v = self.as_nat() as int;
            let l0 = self.l0 as int;
            let l1 = self.l1 as int;
            let l2 = self.l2 as int;
            let l3 = self.l3 as int;
            assert(l3 == q3 * di + r3);
            assert(r3 * p64() + l2 == q2 * di + r2);
            assert(r2 * p64() + l1 == q1 * di + r1);
            assert(r1 * p64() + l0 == q0 * di + r0);
            assert(v == (q0 + q1 * p64() + q2 * p128() + q3 * p192()) * di + r0)
                by (nonlinear_arith)
                requires
                    v == l0 + l1 * p64() + l2 * p128() + l3 * p192(),
                    l3 == q3 * di + r3,
                    r3 * p64() + l2 == q2 * di + r2,
                    r2 * p64() + l1 == q1 * di + r1,
                    r1 * p64() + l0 == q0 * di + r0,
                    p128() == p64() * p64(),
                    p192() == p128() * p64(),
            ;
            assert(p128() == p64() * p64()) by (nonlinear_arith);
            assert(p192() == p128() * p64()) by (nonlinear_arith);
            vstd::arithmetic::div_mod::lemma_fundamental_div_mod_converse(
                v,
                di,
                q.as_nat() as int,
                r0 as int,
            );
        }
        (q, r0)
    }

    /// ASCII decimal text of the value.
    pub fn to_dec_bytes(&self) -> (r: Vec<u8>)
        ensures
            r@ == crate::hexfmt::spec_dec_digits(self.as_nat()),
    {
        let mut out: Vec<u8> = Vec::new();
        let mut cur = *self;
        loop
            invariant
                crate::hexfmt::spec_dec_digits(self.as_nat()) == crate::hexfmt::spec_dec_digits(
                    cur.as_nat(),
                ) + out@,
            decreases cur.as_nat(),
        {
            let (q, rem) = cur.divmod_small(10);
            let ghost prev = out@;
            let digit = (0x30 + rem as u8) as u8;
            if cur.l0 < 10 && cur.l1 == 0 && cur.l2 == 0 && cur.l3 == 0 {
                out.insert(0, digit);
                proof {
                    assert(cur.as_nat() < 10);
                    assert(rem == cur.as_nat());
                    assert(crate::hexfmt::spec_dec_digits(cur.as_nat()) =~= seq![digit]);
                    assert(out@ =~= seq![digit] + prev);
                }
                return out;
            }
            out.insert(0, digit);
            proof {
                assert(cur.as_nat() >= 10);
                assert(out@ =~= seq![digit] + prev);
                assert(crate::hexfmt::spec_dec_digits(cur.as_nat())
                    == crate::hexfmt::spec_dec_digits(cur.as_nat() / 10) + seq![digit]);
                assert(crate::hexfmt::spec_dec_digits(cur.as_nat() / 10) + (seq![digit] + prev)
                    =~= (crate::hexfmt::spec_dec_digits(cur.as_nat() / 10) + seq![digit]) + prev);
                assert(q.as_nat() < cur.as_nat()) by (nonlinear_arith)
                    requires
                        q.as_nat() == cur.as_nat() / 10,
                        cur.as_nat() >= 10,
                ;
            }
            cur = q;
        }
    }
}

/// One step of long division: split `carry * 2^64 + limb` by the divisor.
fn div_step(carry: u64, limb: u64, d: u64) -> (r: (u64, u64))
    requires
        1 <= d,
        carry < d,
    ensures
        (r.0 as int) * d + r.1 == (carry as int) * p64() + limb,
        r.1 < d,
{
    let chunk: u128 = (carry as u128) * 0x1_0000_0000_0000_0000u128 + limb as u128;
    let q: u128 = chunk / (d as u128);
    let rem: u128 = chunk % (d as u128);
    proof {
        lemma_fundamental_div_mod(chunk as int, d as int);
        assert(chunk < (d as int) * p64()) by (nonlinear_arith)
            requires
                carry < d,
                chunk == (carry as int) * p64() + limb,
                limb < p64(),
        ;
        assert((d as int) * (q as int) + rem == chunk);
        assert(q < p64()) by (nonlinear_arith)
            requires
                (d as int) * (q as int) + rem == chunk,
                rem >= 0,
                chunk < (d as int) * p64(),
                d >= 1,
        ;
        assert((q as int) * (d as int) == (d as int) * (q as int)) by (nonlinear_arith);
    }
    (q as u64, rem as u64)
}

/// Value of eight big-endian bytes.
pub open spec fn spec_be_u64(s: Seq<u8>) -> nat {
    (s[0] * 0x100_0000_0000_0000 + s[1] * 0x1_0000_0000_0000 + s[2] * 0x100_0000_0000 + s[3]
        * 0x1_0000_0000 + s[4] * 0x100_0000 + s[5] * 0x1_0000 + s[6] * 0x100 + s[7]) as nat
}

/// Value of a 32-byte big-endian word.
pub open spec fn spec_word_value(s: Seq<u8>) -> nat {
    (spec_be_u64(s.subrange(0, 8)) * p192() + spec_be_u64(s.subrange(8, 16)) * p128() + spec_be_u64(
        s.subrange(16, 24),
    ) * p64() + spec_be_u64(s.subrange(24, 32))) as nat
}

/// Read eight big-endian bytes at an offset.
fn be_u64_at(s: &[u8], off: usize) -> (r: u64)
    requires
        off + 8 <= s@.len(),
    ensures
        r == spec_be_u64(s@.subrange(off as int, off as int + 8)),
{
    let n = s.len();
    proof {
        assert(n == s@.len());
    }
    let r = (s[off] as u64) * 0x100_0000_0000_0000 + (s[off + 1] as u64) * 0x1_0000_0000_0000 + (
    s[off + 2] as u64) * 0x100_0000_0000 + (s[off + 3] as u64) * 0x1_0000_0000 + (s[off + 4]
        as u64) * 0x100_0000 + (s[off + 5] as u64) * 0x1_0000 + (s[off + 6] as u64) * 0x100 + (s[off
        + 7] as u64);
    proof {
        let t = s@.subrange(off as int, off as int + 8);
        assert(t[0] == s@[off as int]);
        assert(t[1] == s@[off as int + 1]);
        assert(t[2] == s@[off as int + 2]);
        assert(t[3] == s@[off as int + 3]);
        assert(t[4] == s@[off as int + 4]);
        assert(t[5] == s@[off as int + 5]);
        assert(t[6] == s@[off as int + 6]);
        assert(t[7] == s@[off as int + 7]);
    }
    r
}

impl U256 {
    /// Read a 32-byte big-endian word starting at an offset.
    pub fn from_be_word(s: &[u8], off: usize) -> (r: U256)
        requires
            off + 32 <= s@.len(),
        ensures
            r.as_nat() == spec_word_value(s@.subrange(off as int, off as int + 32)),
    {
        let n = s.len();
        proof {
            assert(n == s@.len());
        }
        let l3 = be_u64_at(s, off);
        let l2 = be_u64_at(s, off + 8);
        let l1 = be_u64_at(s, off + 16);
        let l0 = be_u64_at(s, off + 24);
        let r = U256 { l0, l1, l2, l3 };
        proof {
            let w = s@.subrange(off as int, off as int + 32);
            assert(w.subrange(0, 8) =~= s@.subrange(off as int, off as int + 8));
            assert(w.subrange(8, 16) =~= s@.subrange(off as int + 8, off as int + 16));
            assert(w.subrange(16, 24) =~= s@.subrange(off as int + 16, off as int + 24));
            assert(w.subrange(24, 32) =~= s@.subrange(off as int + 24, off as int + 32));
        }
        r
    }

    /// Whether the value fits in a `usize` index, and that index.
    pub fn to_usize(&self) -> (r: Option<usize>)
        ensures
            match r {
                Some(n) => n == self.as_nat(),
                None => self.as_nat() > usize::MAX,
            },
    {
        if self.l1 == 0 && self.l2 == 0 && self.l3 == 0 && self.l0 <= usize::MAX as u64 {
            Some(self.l0 as usize)
        } else {
            None
        }
    }
}

/// Why a numeric string was rejected.
#[derive(Clone, Copy, PartialEq, Eq, Structural, Debug)]
pub enum NumParseError {
    /// Empty, or holding a byte that is not a digit of the base.
    Malformed,
    /// All digits, but denoting a number too large for the target type.
    Overflow,
}

/// Value of one ASCII decimal digit, or `None` for any other byte.
pub open spec fn spec_dec_digit(b: u8) -> Option<u8> {
    if 0x30 <= b && b <= 0x39 {
        Some((b - 0x30) as u8)
    } else {
        None
    }
}

/// Number denoted by a decimal digit string; `Some(0)` when empty, `None`
/// when any byte is not a decimal digit.
pub open spec fn spec_dec_value(s: Seq<u8>) -> Option<nat>
    decreases s.len(),
{
    if s.len() == 0 {
        Some(0)
    } else {
        match (spec_dec_value(s.take(s.len() - 1)), spec_dec_digit(s.last())) {
            (Some(v), Some(d)) => Some((v * 10 + d) as nat),
            _ => None,
        }
    }
}

/// Number denoted by a hex digit string; `Some(0)` when empty, `None` when
/// any byte is not a hex digit.
pub open spec fn spec_hex_value(s: Seq<u8>) -> Option<nat>
    decreases s.len(),
{
    if s.len() == 0 {
        Some(0)
    } else {
        match (spec_hex_value(s.take(s.len() - 1)), crate::hexfmt::spec_hex_digit_val(s.last())) {
            (Some(v), Some(d)) => Some((v * 16 + d) as nat),
            _ => None,
        }
    }
}

/// A decimal digit string denotes a number exactly when every byte is a
/// decimal digit.
pub proof fn lemma_dec_value_some_iff_all_digits(s: Seq<u8>)
    ensures
        spec_dec_value(s) is Some <==> (forall|i: int|
            0 <= i < s.len() ==> spec_dec_digit(#[trigger] s[i]) is Some),
    decreases s.len(),
{
    if s.len() > 0 {
        lemma_dec_value_some_iff_all_digits(s.take(s.len() - 1));
        assert(forall|i: int| 0 <= i < s.len() - 1 ==> s.take(s.len() - 1)[i] == s[i]);
        assert(s.last() == s[s.len() - 1]);
    }
}

/// A hex digit string denotes a number exactly when every byte is a hex
/// digit.
pub proof fn lemma_hex_value_some_iff_all_digits(s: Seq<u8>)
    ensures
        spec_hex_value(s) is Some <==> (forall|i: int|
            0 <= i < s.len() ==> crate::hexfmt::spec_hex_digit_val(#[trigger] s[i]) is Some),
    decreases s.len(),
{
    if s.len() > 0 {
        lemma_hex_value_some_iff_all_digits(s.take(s.len() - 1));
        assert(forall|i: int| 0 <= i < s.len() - 1 ==> s.take(s.len() - 1)[i] == s[i]);
        assert(s.last() == s[s.len() - 1]);
    }
}

/// The number denoted by a digit string is at least the number denoted by
/// any of its prefixes.
proof fn lemma_dec_value_prefix_le(s: Seq<u8>, i: int)
    requires
        0 <= i <= s.len(),
        spec_dec_value(s) is Some,
    ensures
        spec_dec_value(s.take(i)) is Some,
        spec_dec_value(s.take(i)).unwrap() <= spec_dec_value(s).unwrap(),
    decreases s.len() - i,
{
    if i < s.len() {
        lemma_dec_value_prefix_le(s, i + 1);
        let t = s.take(i + 1);
        assert(t.take(t.len() - 1) =~= s.take(i));
        assert(t.last() == s[i]);
        let v = spec_dec_value(s.take(i)).unwrap();
        let w = spec_dec_value(t).unwrap();
        assert(w == v * 10 + spec_dec_digit(s[i]).unwrap());
    } else {
        assert(s.take(i) =~= s);
    }
}

/// The same, for hex digit strings.
proof fn lemma_hex_value_prefix_le(s: Seq<u8>, i: int)
    requires
        0 <= i <= s.len(),
        spec_hex_value(s) is Some,
    ensures
        spec_hex_value(s.take(i)) is Some,
        spec_hex_value(s.take(i)).unwrap() <= spec_hex_value(s).unwrap(),
    decreases s.len() - i,
{
    if i < s.len() {
        lemma_hex_value_prefix_le(s, i + 1);
        let t = s.take(i + 1);
        assert(t.take(t.len() - 1) =~= s.take(i));
        assert(t.last() == s[i]);
        let v = spec_hex_value(s.take(i)).unwrap();
        let w = spec_hex_value(t).unwrap();
        assert(w == v * 16 + crate::hexfmt::spec_hex_digit_val(s[i]).unwrap());
    } else {
        assert(s.take(i) =~= s);
    }
}

/// Parse a non-empty decimal digit string into a 256-bit number.
///
/// Returns `Ok` exactly when the string is non-empty, all decimal digits,
/// and denotes a number below 2^256.
pub fn parse_u256_dec(s: &[u8]) -> (r: Result<U256, NumParseError>)
    ensures
        match r {
            Ok(v) => s@.len() > 0 && spec_dec_value(s@) == Some(v.as_nat()),
            Err(NumParseError::Malformed) => s@.len() == 0 || spec_dec_value(s@) is None,
            Err(NumParseError::Overflow) => spec_dec_value(s@) matches Some(n) && n >= p256(),
        },
{
    if s.len() == 0 {
        return Err(NumParseError::Malformed);
    }
    let mut i: usize = 0;
    while i < s.len()
        invariant
            0 <= i <= s@.len(),
            forall|j: int| 0 <= j < i ==> spec_dec_digit(#[trigger] s@[j]) is Some,
        decreases s@.len() - i,
    {
        let b = s[i];
        if b < 0x30 || b > 0x39 {
            proof {
                lemma_dec_value_some_iff_all_digits(s@);
            }
            return Err(NumParseError::Malformed);
        }
        i = i + 1;
    }
    proof {
        lemma_dec_value_some_iff_all_digits(s@);
    }
    let mut acc = U256::zero();
    i = 0;
    while i < s.len()
        invariant
            0 <= i <= s@.len(),
            spec_dec_value(s@) is Some,
            forall|j: int| 0 <= j < s@.len() ==> spec_dec_digit(#[trigger] s@[j]) is Some,
            spec_dec_value(s@.take(i as int)) == Some(acc.as_nat()),
        decreases s@.len() - i,
    {
        let b = s[i];
        proof {
            assert(spec_dec_digit(s@[i as int]) is Some);
        }
        let d = b - 0x30;
        match acc.mul_small_add(10, d as u64) {
            Some(next) => {
                proof {
                    let t = s@.take(i + 1);
                    assert(t.take(t.len() - 1) =~= s@.take(i as int));
                    assert(t.last() == s@[i as int]);
                }
                acc = next;
            },
            None => {
                proof {
                    let t = s@.take(i + 1);
                    assert(t.take(t.len() - 1) =~= s@.take(i as int));
                    assert(t.last() == s@[i as int]);
                    lemma_dec_value_prefix_le(s@, i + 1);
                }
                return Err(NumParseError::Overflow);
            },
        }
        i = i + 1;
    }
    proof {
        assert(s@.take(s@.len() as int) =~= s@);
    }
    Ok(acc)
}

/// Parse a hex digit string into a 256-bit number, zero on any failure.
///
/// An optional `0x` prefix is removed first. An empty string, a byte that is
/// not a hex digit, or a value of 256 bits or more all yield zero, as the
/// snapshot format treats such balance fields as absent.
pub fn parse_u256_hex(s: &[u8]) -> (r: U256)
    ensures
        r.as_nat() == spec_hex_field_value(s@),
{
    let stripped: &[u8] = if s.len() >= 2 && s[0] == 0x30 && s[1] == 0x78 {
        slice_drop_two(s)
    } else {
        s
    };
    if stripped.len() == 0 {
        return U256::zero();
    }
    let mut acc = U256::zero();
    let mut i: usize = 0;
    while i < stripped.len()
        invariant
            0 <= i <= stripped@.len(),
            stripped@ == spec_hex_field_stripped(s@),
            spec_hex_value(stripped@.take(i as int)) == Some(acc.as_nat()),
        decreases stripped@.len() - i,
    {
        let b = stripped[i];
        match crate::hexfmt::hex_digit_val(b) {
            Some(d) => {
                match acc.mul_small_add(16, d as u64) {
                    Some(next) => {
                        proof {
                            let t = stripped@.take(i + 1);
                            assert(t.take(t.len() - 1) =~= stripped@.take(i as int));
                            assert(t.last() == stripped@[i as int]);
                        }
                        acc = next;
                    },
                    None => {
                        proof {
                            lemma_hex_value_some_iff_all_digits(stripped@);
                            if spec_hex_value(stripped@) is Some {
                                let t = stripped@.take(i + 1);
                                assert(t.take(t.len() - 1) =~= stripped@.take(i as int));
                                assert(t.last() == stripped@[i as int]);
                                assert(spec_hex_value(t) == Some(
                                    (acc.as_nat() * 16 + d) as nat,
                                ));
                                lemma_hex_value_prefix_le(stripped@, i + 1);
                            }
                        }
                        return U256::zero();
                    },
                }
            },
            None => {
                proof {
                    lemma_hex_value_some_iff_all_digits(stripped@);
                }
                return U256::zero();
            },
        }
        i = i + 1;
    }
    proof {
        assert(stripped@.take(stripped@.len() as int) =~= stripped@);
        assert(acc.as_nat() < p256());
    }
    acc
}

/// The hex field with an optional `0x` prefix removed.
pub open spec fn spec_hex_field_stripped(s: Seq<u8>) -> Seq<u8> {
    if s.len() >= 2 && s[0] == 0x30 && s[1] == 0x78 {
        s.skip(2)
    } else {
        s
    }
}

/// Number denoted by a hex balance or storage field: an optional `0x` prefix
/// removed, then the hex value, with zero for anything malformed, empty, or
/// out of 256-bit range.
pub open spec fn spec_hex_field_value(s: Seq<u8>) -> nat {
    match spec_hex_value(spec_hex_field_stripped(s)) {
        Some(n) => if n < p256() {
            n
        } else {
            0
        },
        None => 0,
    }
}

/// The slice without its first two elements.
fn slice_drop_two(s: &[u8]) -> (r: &[u8])
    requires
        s@.len() >= 2,
    ensures
        r@ == s@.skip(2),
{
    let r = vstd::slice::slice_subrange(s, 2, s.len());
    proof {
        assert(s@.subrange(2, s@.len() as int) =~= s@.skip(2));
    }
    r
}

/// Parse a non-empty decimal digit string into a 128-bit number.
///
/// Returns `Ok` exactly when the string is non-empty, all decimal digits,
/// and denotes a number of at most `u128::MAX`.
pub fn parse_u128_dec(s: &[u8]) -> (r: Result<u128, NumParseError>)
    ensures
        match r {
            Ok(v) => s@.len() > 0 && spec_dec_value(s@) == Some(v as nat),
            Err(NumParseError::Malformed) => s@.len() == 0 || spec_dec_value(s@) is None,
            Err(NumParseError::Overflow) => spec_dec_value(s@) matches Some(n) && n > u128::MAX,
        },
{
    if s.len() == 0 {
        return Err(NumParseError::Malformed);
    }
    let mut i: usize = 0;
    while i < s.len()
        invariant
            0 <= i <= s@.len(),
            forall|j: int| 0 <= j < i ==> spec_dec_digit(#[trigger] s@[j]) is Some,
        decreases s@.len() - i,
    {
        let b = s[i];
        if b < 0x30 || b > 0x39 {
            proof {
                lemma_dec_value_some_iff_all_digits(s@);
            }
            return Err(NumParseError::Malformed);
        }
        i = i + 1;
    }
    proof {
        lemma_dec_value_some_iff_all_digits(s@);
    }
    let mut acc: u128 = 0;
    i = 0;
    while i < s.len()
        invariant
            0 <= i <= s@.len(),
            spec_dec_value(s@) is Some,
            forall|j: int| 0 <= j < s@.len() ==> spec_dec_digit(#[trigger] s@[j]) is Some,
            spec_dec_value(s@.take(i as int)) == Some(acc as nat),
        decreases s@.len() - i,
    {
        let b = s[i];
        proof {
            assert(spec_dec_digit(s@[i as int]) is Some);
        }
        let d = (b - 0x30) as u128;
        let scaled = match acc.checked_mul(10) {
            Some(x) => x.checked_add(d),
            None => None,
        };
        match scaled {
            Some(next) => {
                proof {
                    let t = s@.take(i + 1);
                    assert(t.take(t.len() - 1) =~= s@.take(i as int));
                    assert(t.last() == s@[i as int]);
                }
                acc = next;
            },
            None => {
                proof {
                    let t = s@.take(i + 1);
                    assert(t.take(t.len() - 1) =~= s@.take(i as int));
                    assert(t.last() == s@[i as int]);
                    lemma_dec_value_prefix_le(s@, i + 1);
                }
                return Err(NumParseError::Overflow);
            },
        }
        i = i + 1;
    }
    proof {
        assert(s@.take(s@.len() as int) =~= s@);
    }
    Ok(acc)
}

/// One limb of a carrying addition: `a + b + c` split into a low limb and a
/// carry of at most one.
fn adc(a: u64, b: u64, c: u64) -> (r: (u64, u64))
    requires
        c <= 1,
    ensures
        r.0 + r.1 * p64() == a + b + c,
        r.1 <= 1,
{
    let s: u128 = a as u128 + b as u128 + c as u128;
    let hi: u64 = if s >= 0x1_0000_0000_0000_0000u128 {
        1
    } else {
        0
    };
    let lo: u64 = (s - (hi as u128) * 0x1_0000_0000_0000_0000u128) as u64;
    (lo, hi)
}

/// One limb of a small multiplication: `a * m + c` split into a low limb and
/// a carry limb.
fn mac(a: u64, m: u64, c: u64) -> (r: (u64, u64))
    ensures
        r.0 + r.1 * p64() == a * m + c,
{
    proof {
        assert((a as int) * (m as int) <= 0xFFFF_FFFF_FFFF_FFFF * 0xFFFF_FFFF_FFFF_FFFF)
            by (nonlinear_arith)
            requires
                a <= 0xFFFF_FFFF_FFFF_FFFFu64 && m <= 0xFFFF_FFFF_FFFF_FFFFu64,
        ;
    }
    let p: u128 = a as u128 * m as u128 + c as u128;
    let hi_wide: u128 = p / 0x1_0000_0000_0000_0000u128;
    let lo_wide: u128 = p % 0x1_0000_0000_0000_0000u128;
    proof {
        lemma_fundamental_div_mod(p as int, p64() as int);
    }
    (lo_wide as u64, hi_wide as u64)
}

} // verus!
