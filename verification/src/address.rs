//! Fixed-width account addresses.
//!
//! An address is a 20-byte identifier. System contracts live at reserved
//! addresses that share a fixed prefix and differ only in their last two
//! bytes.

use vstd::prelude::*;

verus! {

/// A 20-byte account address.
#[derive(Debug)]
pub struct Address {
    pub bytes: Vec<u8>,
}

impl View for Address {
    type V = Seq<u8>;

    open spec fn view(&self) -> Seq<u8> {
        self.bytes@
    }
}

impl Address {
    /// A well-formed address holds exactly 20 bytes.
    pub open spec fn wf(&self) -> bool {
        self.bytes@.len() == 20
    }

    /// Build an address from exactly 20 bytes.
    pub fn from_vec(bytes: Vec<u8>) -> (r: Option<Address>)
        ensures
            match r {
                Some(a) => bytes@.len() == 20 && a@ == bytes@ && a.wf(),
                None => bytes@.len() != 20,
            },
    {
        if bytes.len() == 20 {
            Some(Address { bytes })
        } else {
            None
        }
    }

    /// An identical copy.
    pub fn dup(&self) -> (r: Address)
        ensures
            r@ == self@,
            self.wf() ==> r.wf(),
    {
        let mut bytes: Vec<u8> = Vec::new();
        let mut i: usize = 0;
        while i < self.bytes.len()
            invariant
                i <= self.bytes@.len(),
                bytes@ =~= self.bytes@.take(i as int),
            decreases self.bytes@.len() - i,
        {
            bytes.push(self.bytes[i]);
            proof {
                assert(bytes@ =~= self.bytes@.take(i + 1));
            }
            i = i + 1;
        }
        proof {
            assert(self.bytes@.take(self.bytes@.len() as int) =~= self.bytes@);
        }
        Address { bytes }
    }

    /// Byte-for-byte equality.
    pub fn eq_addr(&self, other: &Address) -> (r: bool)
        ensures
            r == (self@ == other@),
    {
        if self.bytes.len() != other.bytes.len() {
            return false;
        }
        let mut i: usize = 0;
        while i < self.bytes.len()
            invariant
                i <= self.bytes@.len(),
                self.bytes@.len() == other.bytes@.len(),
                forall|j: int| 0 <= j < i ==> self.bytes@[j] == other.bytes@[j],
            decreases self.bytes@.len() - i,
        {
            if self.bytes[i] != other.bytes[i] {
                return false;
            }
            i = i + 1;
        }
        proof {
            assert(self@ =~= other@);
        }
        true
    }
}

/// The 20 bytes of the reserved system address with the given tail: a fixed
/// 18-byte prefix ending in `01 62 5F`, then the tail, big-endian.
pub open spec fn spec_system_address(tail: u16) -> Seq<u8> {
    Seq::new(
        20,
        |i: int|
            if i < 15 {
                0u8
            } else if i == 15 {
                1u8
            } else if i == 16 {
                0x62u8
            } else if i == 17 {
                0x5fu8
            } else if i == 18 {
                (tail / 256) as u8
            } else {
                (tail % 256) as u8
            },
    )
}

/// Build the reserved system address with the given 2-byte tail.
pub fn system_address(tail: u16) -> (r: Address)
    ensures
        r@ == spec_system_address(tail),
        r.wf(),
{
    let mut bytes: Vec<u8> = Vec::new();
    let mut i: usize = 0;
    while i < 15
        invariant
            i <= 15,
            bytes@.len() == i,
            forall|j: int| 0 <= j < i ==> bytes@[j] == 0u8,
        decreases 15 - i,
    {
        bytes.push(0u8);
        i = i + 1;
    }
    bytes.push(1u8);
    bytes.push(0x62u8);
    bytes.push(0x5fu8);
    bytes.push((tail / 256) as u8);
    bytes.push((tail % 256) as u8);
    proof {
        assert(bytes@ =~= spec_system_address(tail));
    }
    Address { bytes }
}

/// Distinct tails give distinct system addresses.
pub proof fn lemma_system_address_injective(t1: u16, t2: u16)
    requires
        t1 != t2,
    ensures
        spec_system_address(t1) != spec_system_address(t2),
{
    if t1 / 256 == t2 / 256 && t1 % 256 == t2 % 256 {
        assert(t1 == (t1 / 256) * 256 + t1 % 256);
        assert(t2 == (t2 / 256) * 256 + t2 % 256);
    }
    assert(spec_system_address(t1)[18] == (t1 / 256) as u8);
    assert(spec_system_address(t1)[19] == (t1 % 256) as u8);
    assert(spec_system_address(t2)[18] == (t2 / 256) as u8);
    assert(spec_system_address(t2)[19] == (t2 % 256) as u8);
}

/// Why an address string was rejected.
#[derive(Clone, Copy, PartialEq, Eq, Structural, Debug)]
pub enum AddrParseError {
    /// Not 40 hex digits after removing an optional `0x` prefix.
    BadLength,
    /// A byte that is not a hex digit.
    BadDigit,
}

/// Parse a 40-hex-digit address string, with an optional `0x` prefix.
///
/// Returns `Ok` exactly when, after removing the optional prefix, the text
/// is 40 hex digits; the address holds the 20 decoded bytes.
pub fn parse_address_bytes(s: &[u8]) -> (r: Result<Address, AddrParseError>)
    ensures
        match r {
            Ok(a) => {
                &&& spec_hex_decode(crate::u256::spec_hex_field_stripped(s@)) matches Some(b)
                &&& a@ == spec_hex_decode(crate::u256::spec_hex_field_stripped(s@)).unwrap()
                &&& a@.len() == 20
                &&& a.wf()
            },
            Err(AddrParseError::BadLength) => crate::u256::spec_hex_field_stripped(s@).len() != 40,
            Err(AddrParseError::BadDigit) => spec_hex_decode(
                crate::u256::spec_hex_field_stripped(s@),
            ) is None,
        },
{
    let stripped: &[u8] = if s.len() >= 2 && s[0] == 0x30 && s[1] == 0x78 {
        let r = vstd::slice::slice_subrange(s, 2, s.len());
        proof {
            assert(s@.subrange(2, s@.len() as int) =~= s@.skip(2));
        }
        r
    } else {
        s
    };
    if stripped.len() != 40 {
        return Err(AddrParseError::BadLength);
    }
    match crate::hexfmt::hex_decode_digits(stripped) {
        Some(bytes) => {
            proof {
                lemma_hex_decode_len(stripped@);
            }
            Ok(Address { bytes })
        },
        None => Err(AddrParseError::BadDigit),
    }
}

/// A decoded hex string holds half as many bytes as digits, and the digit
/// count is even.
pub proof fn lemma_hex_decode_len(s: Seq<u8>)
    requires
        spec_hex_decode(s) is Some,
    ensures
        spec_hex_decode(s).unwrap().len() == s.len() / 2,
        s.len() % 2 == 0,
    decreases s.len(),
{
    if s.len() >= 2 {
        lemma_hex_decode_len(s.skip(2));
    }
}

use crate::hexfmt::spec_hex_decode;

} // verus!
