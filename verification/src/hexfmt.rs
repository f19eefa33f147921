//! Hex text decoding and encoding, and decimal rendering of integers.
//!
//! All byte-code blobs, addresses and storage values enter the system as hex
//! text; diagnostics leave it as hex or decimal text. Everything here works on
//! ASCII byte sequences.

use vstd::prelude::*;

verus! {

/// Value of one ASCII hex digit, or `None` for any other byte.
pub open spec fn spec_hex_digit_val(b: u8) -> Option<u8> {
    if 0x30 <= b && b <= 0x39 {
        Some((b - 0x30) as u8)
    } else if 0x61 <= b && b <= 0x66 {
        Some((b - 0x61 + 10) as u8)
    } else if 0x41 <= b && b <= 0x46 {
        Some((b - 0x41 + 10) as u8)
    } else {
        None
    }
}

/// Bytes denoted by an even-length sequence of ASCII hex digits, or `None`
/// if the length is odd or any byte is not a hex digit.
pub open spec fn spec_hex_decode(s: Seq<u8>) -> Option<Seq<u8>>
    decreases s.len(),
{
    if s.len() == 0 {
        Some(Seq::empty())
    } else if s.len() == 1 {
        None
    } else {
        match (spec_hex_digit_val(s[0]), spec_hex_digit_val(s[1])) {
            (Some(h), Some(l)) => match spec_hex_decode(s.skip(2)) {
                Some(rest) => Some(seq![(h * 16 + l) as u8] + rest),
                None => None,
            },
            _ => None,
        }
    }
}

/// Value of one ASCII hex digit, executable form.
pub fn hex_digit_val(b: u8) -> (r: Option<u8>)
    ensures
        r == spec_hex_digit_val(b),
{
    if 0x30 <= b && b <= 0x39 {
        Some(b - 0x30)
    } else if 0x61 <= b && b <= 0x66 {
        Some(b - 0x61 + 10)
    } else if 0x41 <= b && b <= 0x46 {
        Some(b - 0x41 + 10)
    } else {
        None
    }
}

/// Decoding distributes over splitting the digit string at an even index.
proof fn lemma_hex_decode_split(s: Seq<u8>, i: int)
    requires
        0 <= i <= s.len(),
        i % 2 == 0,
    ensures
        spec_hex_decode(s) == match (spec_hex_decode(s.take(i)), spec_hex_decode(s.skip(i))) {
            (Some(a), Some(b)) => Some::<Seq<u8>>(a + b),
            _ => None::<Seq<u8>>,
        },
    decreases i,
{
    if i == 0 {
        assert(s.take(0) =~= Seq::<u8>::empty());
        assert(s.skip(0) =~= s);
        match spec_hex_decode(s) {
            Some(d) => {
                assert(Seq::<u8>::empty() + d =~= d);
            },
            None => {},
        }
    } else {
        assert(s.len() >= 2);
        let t = s.skip(2);
        lemma_hex_decode_split(t, i - 2);
        assert(t.take(i - 2) =~= s.take(i).skip(2));
        assert(t.skip(i - 2) =~= s.skip(i));
        match (spec_hex_digit_val(s[0]), spec_hex_digit_val(s[1])) {
            (Some(h), Some(l)) => {
                let first = seq![(h * 16 + l) as u8];
                assert(s.take(i)[0] == s[0]);
                assert(s.take(i)[1] == s[1]);
                match (spec_hex_decode(s.take(i).skip(2)), spec_hex_decode(s.skip(i))) {
                    (Some(a), Some(b)) => {
                        assert((first + a) + b =~= first + (a + b));
                    },
                    _ => {},
                }
            },
            _ => {
                if i >= 2 {
                    assert(s.take(i)[0] == s[0]);
                    assert(s.take(i)[1] == s[1]);
                }
            },
        }
    }
}

/// Decode an even-length ASCII hex digit string into bytes.
pub fn hex_decode_digits(s: &[u8]) -> (r: Option<Vec<u8>>)
    ensures
        match r {
            Some(v) => spec_hex_decode(s@) == Some(v@),
            None => spec_hex_decode(s@) is None,
        },
{
    if s.len() % 2 != 0 {
        proof {
            lemma_hex_decode_odd_none(s@);
        }
        return None;
    }
    let mut out: Vec<u8> = Vec::new();
    let mut i: usize = 0;
    while i < s.len()
        invariant
            i <= s.len(),
            i % 2 == 0,
            s.len() % 2 == 0,
            spec_hex_decode(s@.take(i as int)) == Some(out@),
        decreases s.len() - i,
    {
        let h = hex_digit_val(s[i]);
        let l = hex_digit_val(s[i + 1]);
        match (h, l) {
            (Some(hv), Some(lv)) => {
                out.push(hv * 16 + lv);
                proof {
                    let j = i as int;
                    lemma_hex_decode_split(s@.take(j + 2), j);
                    assert(s@.take(j + 2).take(j) =~= s@.take(j));
                    assert(s@.take(j + 2).skip(j) =~= seq![s@[j], s@[j + 1]]);
                    let pair = seq![s@[j], s@[j + 1]];
                    assert(pair.skip(2) =~= Seq::<u8>::empty());
                    assert(spec_hex_decode(Seq::<u8>::empty()) == Some(Seq::<u8>::empty()));
                    assert(seq![(hv * 16 + lv) as u8] + Seq::<u8>::empty() =~= seq![
                        (hv * 16 + lv) as u8,
                    ]);
                    assert(spec_hex_decode(pair) == Some(seq![(hv * 16 + lv) as u8]));
                    assert(out@ =~= out@.subrange(0, out@.len() - 1) + seq![(hv * 16 + lv) as u8]);
                }
                i = i + 2;
            },
            _ => {
                proof {
                    let j = i as int;
                    lemma_hex_decode_split(s@, j);
                    assert(s@.skip(j)[0] == s@[j]);
                    if j + 1 < s@.len() {
                        assert(s@.skip(j)[1] == s@[j + 1]);
                    }
                }
                return None;
            },
        }
    }
    proof {
        assert(s@.take(s@.len() as int) =~= s@);
    }
    Some(out)
}

/// A digit string of odd length denotes nothing.
proof fn lemma_hex_decode_odd_none(s: Seq<u8>)
    requires
        s.len() % 2 == 1,
    ensures
        spec_hex_decode(s) is None,
    decreases s.len(),
{
    if s.len() > 1 {
        lemma_hex_decode_odd_none(s.skip(2));
    }
}

/// Lowercase ASCII hex digit for a value below 16.
pub open spec fn spec_hex_char(n: u8) -> u8 {
    if n < 10 {
        (0x30 + n) as u8
    } else {
        (0x57 + n) as u8
    }
}

/// Lowercase ASCII hex text for a byte sequence: two digits per byte.
pub open spec fn spec_hex_encode(b: Seq<u8>) -> Seq<u8> {
    Seq::new(
        2 * b.len(),
        |i: int|
            if i % 2 == 0 {
                spec_hex_char(b[i / 2] / 16)
            } else {
                spec_hex_char(b[i / 2] % 16)
            },
    )
}

/// Encode bytes as lowercase ASCII hex text.
pub fn hex_encode(b: &[u8]) -> (r: Vec<u8>)
    ensures
        r@ == spec_hex_encode(b@),
{
    let mut out: Vec<u8> = Vec::new();
    let mut i: usize = 0;
    while i < b.len()
        invariant
            i <= b.len(),
            out@.len() == 2 * i,
            forall|j: int| 0 <= j < out@.len() ==> out@[j] == spec_hex_encode(b@)[j],
        decreases b.len() - i,
    {
        let hi = b[i] / 16;
        let lo = b[i] % 16;
        out.push(if hi < 10 {
            0x30 + hi
        } else {
            0x57 + hi
        });
        out.push(if lo < 10 {
            0x30 + lo
        } else {
            0x57 + lo
        });
        i = i + 1;
    }
    proof {
        assert(out@ =~= spec_hex_encode(b@));
    }
    out
}

/// ASCII decimal text for a natural number, most significant digit first.
pub open spec fn spec_dec_digits(n: nat) -> Seq<u8>
    decreases n,
{
    if n < 10 {
        seq![(0x30 + n) as u8]
    } else {
        spec_dec_digits(n / 10) + seq![(0x30 + n % 10) as u8]
    }
}

/// Render an unsigned integer as ASCII decimal text.
pub fn dec_u64(n: u64) -> (r: Vec<u8>)
    ensures
        r@ == spec_dec_digits(n as nat),
{
    let mut out: Vec<u8> = Vec::new();
    let mut m: u64 = n;
    while m >= 10
        invariant
            spec_dec_digits(n as nat) == spec_dec_digits(m as nat) + out@,
        decreases m,
    {
        let ghost prev = out@;
        let d = (0x30 + m % 10) as u8;
        out.insert(0, d);
        proof {
            assert(out@ =~= seq![d] + prev);
            assert(spec_dec_digits(m as nat) == spec_dec_digits((m as nat) / 10) + seq![
                (0x30 + (m as nat) % 10) as u8,
            ]);
            assert(spec_dec_digits((m as nat) / 10) + (seq![d] + prev) =~= (spec_dec_digits(
                (m as nat) / 10,
            ) + seq![d]) + prev);
            assert((m / 10) as nat == (m as nat) / 10);
            assert((m % 10) as nat == (m as nat) % 10);
        }
        m = m / 10;
    }
    let ghost prev = out@;
    let d = (0x30 + m) as u8;
    out.insert(0, d);
    proof {
        assert(spec_dec_digits(m as nat) =~= seq![d]);
        assert(out@ =~= seq![d] + prev);
    }
    out
}

/// True of the ASCII whitespace bytes that may surround hex text.
pub open spec fn spec_is_space(b: u8) -> bool {
    b == 0x20 || b == 0x09 || b == 0x0a || b == 0x0d
}

/// The sequence with leading and trailing ASCII whitespace removed.
pub open spec fn spec_trim(s: Seq<u8>) -> Seq<u8>
    decreases s.len(),
{
    if s.len() == 0 {
        s
    } else if spec_is_space(s[0]) {
        spec_trim(s.skip(1))
    } else if spec_is_space(s[s.len() - 1]) {
        spec_trim(s.take(s.len() - 1))
    } else {
        s
    }
}

/// Remove leading and trailing ASCII whitespace.
pub fn trim_ascii(s: &[u8]) -> (r: Vec<u8>)
    ensures
        r@ == spec_trim(s@),
{
    let mut start: usize = 0;
    let mut end: usize = s.len();
    proof {
        assert(s@.subrange(0, s@.len() as int) =~= s@);
    }
    while start < end && is_space(s[start])
        invariant
            start <= end <= s.len(),
            spec_trim(s@) == spec_trim(s@.subrange(start as int, end as int)),
            end == s.len(),
        decreases end - start,
    {
        proof {
            let t = s@.subrange(start as int, end as int);
            assert(t.skip(1) =~= s@.subrange(start as int + 1, end as int));
        }
        start = start + 1;
    }
    while end > start && is_space(s[end - 1])
        invariant
            start <= end <= s.len(),
            spec_trim(s@) == spec_trim(s@.subrange(start as int, end as int)),
            start == end || !spec_is_space(s@[start as int]),
        decreases end,
    {
        proof {
            let t = s@.subrange(start as int, end as int);
            assert(t[0] == s@[start as int]);
            assert(t[t.len() - 1] == s@[end - 1]);
            assert(t.take(t.len() - 1) =~= s@.subrange(start as int, end as int - 1));
        }
        end = end - 1;
    }
    let mut out: Vec<u8> = Vec::new();
    let mut i: usize = start;
    while i < end
        invariant
            start <= i <= end <= s.len(),
            out@ =~= s@.subrange(start as int, i as int),
        decreases end - i,
    {
        out.push(s[i]);
        proof {
            assert(out@ =~= s@.subrange(start as int, i as int + 1));
        }
        i = i + 1;
    }
    proof {
        let t = s@.subrange(start as int, end as int);
        if t.len() > 0 {
            assert(!spec_is_space(t[0]));
            assert(!spec_is_space(t[t.len() - 1]));
        }
        assert(spec_trim(t) == t);
        assert(out@ =~= t);
    }
    out
}

/// ASCII whitespace test, executable form.
pub fn is_space(b: u8) -> (r: bool)
    ensures
        r == spec_is_space(b),
{
    b == 0x20 || b == 0x09 || b == 0x0a || b == 0x0d
}

/// Relies on `String::from_utf8`: a buffer of ASCII bytes converts to the
/// string of exactly those characters.
#[verifier::external_body]
pub fn ascii_string(v: &Vec<u8>) -> (r: String)
    requires
        forall|i: int| 0 <= i < v@.len() ==> v@[i] < 0x80,
    ensures
        r@.len() == v@.len(),
        forall|i: int| 0 <= i < v@.len() ==> r@[i] == v@[i] as char,
{
    String::from_utf8(v.clone()).unwrap_or_default()
}

} // verus!
