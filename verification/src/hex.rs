//! Hexadecimal text of file hashes: forty hex digits for twenty bytes.

use vstd::prelude::*;

verus! {

/// The lower-case hex digit of a value below sixteen.
pub open spec fn hex_digit(v: u8) -> u8
    recommends
        0 <= v < 16,
{
    if v < 10 {
        (0x30 + v) as u8
    } else {
        (0x61 + v - 10) as u8
    }
}

/// The value of a hex digit, in either case; `None` for any other byte.
pub open spec fn hex_value(c: u8) -> Option<u8> {
    if 0x30 <= c <= 0x39 {
        Some((c - 0x30) as u8)
    } else if 0x61 <= c <= 0x66 {
        Some((c - 0x61 + 10) as u8)
    } else if 0x41 <= c <= 0x46 {
        Some((c - 0x41 + 10) as u8)
    } else {
        None
    }
}

/// Every byte of `h` is a hex digit.
pub open spec fn all_hex(h: Seq<u8>) -> bool {
    forall|i: int| 0 <= i < h.len() ==> (#[trigger] hex_value(h[i])) is Some
}

/// Two lower-case hex digits per byte, the high nibble first.
pub open spec fn hex_encode(b: Seq<u8>) -> Seq<u8> {
    Seq::new(
        2 * b.len(),
        |i: int|
            if i % 2 == 0 {
                hex_digit(b[i / 2] / 16)
            } else {
                hex_digit(b[i / 2] % 16)
            },
    )
}

/// The byte that a pair of hex digits stands for.
pub open spec fn hex_pair(hi: u8, lo: u8) -> u8 {
    (hex_value(hi).unwrap() * 16 + hex_value(lo).unwrap()) as u8
}

/// The bytes that a string of hex digits stands for, one per pair.
pub open spec fn hex_decode(h: Seq<u8>) -> Seq<u8> {
    Seq::new(h.len() / 2, |i: int| hex_pair(h[2 * i], h[2 * i + 1]))
}

/// `h` with its upper-case hex letters made lower-case.
pub open spec fn hex_lower(h: Seq<u8>) -> Seq<u8> {
    h.map_values(|c: u8| if 0x41 <= c <= 0x46 { (c + 0x20) as u8 } else { c })
}

fn hex_value_of(c: u8) -> (r: Option<u8>)
    ensures
        r == hex_value(c),
{
    if 0x30 <= c && c <= 0x39 {
        Some(c - 0x30)
    } else if 0x61 <= c && c <= 0x66 {
        Some(c - 0x61 + 10)
    } else if 0x41 <= c && c <= 0x46 {
        Some(c - 0x41 + 10)
    } else {
        None
    }
}

fn hex_char(v: u8) -> (r: u8)
    requires
        v < 16,
    ensures
        r == hex_digit(v),
{
    if v < 10 {
        0x30 + v
    } else {
        0x61 + v - 10
    }
}

/// Decodes forty hex digits, in either case, into twenty bytes; `None` when
/// any of the forty bytes is not a hex digit.
pub fn hex_to_bytes(hex: &[u8; 40]) -> (r: Option<[u8; 20]>)
    ensures
        r is Some <==> all_hex(hex@),
        r matches Some(b) ==> b@ == hex_decode(hex@),
{
    let mut out = [0u8; 20];
    let mut i: usize = 0;
    while i < 20
        invariant
            0 <= i <= 20,
            hex@.len() == 40,
            forall|j: int| 0 <= j < 2 * i ==> (#[trigger] hex_value(hex@[j])) is Some,
            forall|j: int| 0 <= j < i ==> out@[j] == #[trigger] hex_pair(hex@[2 * j], hex@[2 * j + 1]),
            out@.len() == 20,
        decreases 20 - i,
    {
        let hi = match hex_value_of(hex[i * 2]) {
            Some(v) => v,
            None => {
                assert(!(hex_value(hex@[2 * i]) is Some));
                return None;
            },
        };
        let lo = match hex_value_of(hex[i * 2 + 1]) {
            Some(v) => v,
            None => {
                assert(!(hex_value(hex@[2 * i + 1]) is Some));
                return None;
            },
        };
        assert(hi < 16 && lo < 16);
        let b = (hi << 4) | lo;
        assert(b == hi * 16 + lo) by (bit_vector)
            requires
                hi < 16,
                lo < 16,
                b == (hi << 4) | lo,
        ;
        out[i] = b;
        i += 1;
    }
    assert(out@ =~= hex_decode(hex@));
    Some(out)
}

/// Encodes twenty bytes as forty lower-case hex digits, the high nibble of
/// each byte first.
pub fn bytes_to_hex(bytes: &[u8; 20]) -> (r: [u8; 40])
    ensures
        r@ == hex_encode(bytes@),
{
    let mut out = [0u8; 40];
    let mut i: usize = 0;
    while i < 20
        invariant
            0 <= i <= 20,
            bytes@.len() == 20,
            out@.len() == 40,
            forall|j: int| 0 <= j < 2 * i ==> out@[j] == #[trigger] hex_encode(bytes@)[j],
        decreases 20 - i,
    {
        let b = bytes[i];
        let hi = b >> 4;
        let lo = b & 0x0F;
        assert(hi == b / 16 && lo == b % 16) by (bit_vector)
            requires
                hi == b >> 4,
                lo == b & 0x0F,
        ;
        out[i * 2] = hex_char(hi);
        out[i * 2 + 1] = hex_char(lo);
        assert(hex_encode(bytes@)[2 * i as int] == hex_digit(b / 16));
        assert(hex_encode(bytes@)[2 * i as int + 1] == hex_digit(b % 16));
        i += 1;
    }
    assert(out@ =~= hex_encode(bytes@));
    out
}

/// Hex text of any bytes decodes back to those bytes.
pub proof fn lemma_hex_roundtrip(b: Seq<u8>)
    ensures
        all_hex(hex_encode(b)),
        hex_decode(hex_encode(b)) == b,
{
    let h = hex_encode(b);
    assert forall|i: int| 0 <= i < h.len() implies (#[trigger] hex_value(h[i])) is Some by {
        let v = if i % 2 == 0 { b[i / 2] / 16 } else { b[i / 2] % 16 };
        assert(h[i] == hex_digit(v));
    }
    assert forall|i: int| 0 <= i < b.len() implies #[trigger] hex_decode(h)[i] == b[i] by {
        assert((2 * i) % 2 == 0);
        assert((2 * i + 1) % 2 == 1);
        assert((2 * i) / 2 == i);
        assert((2 * i + 1) / 2 == i);
        assert(h[2 * i] == hex_digit(b[i] / 16));
        assert(h[2 * i + 1] == hex_digit(b[i] % 16));
    }
    assert(hex_decode(h) =~= b);
}

/// Decoding then encoding hex text gives the text back in lower case.
pub proof fn lemma_hex_canonical(h: Seq<u8>)
    requires
        all_hex(h),
        h.len() % 2 == 0,
    ensures
        hex_encode(hex_decode(h)) == hex_lower(h),
{
    let d = hex_decode(h);
    assert forall|i: int| 0 <= i < h.len() implies #[trigger] hex_encode(d)[i] == hex_lower(h)[i] by {
        let k = i / 2;
        assert(0 <= k < d.len());
        assert(hex_value(h[2 * k]) is Some);
        assert(hex_value(h[2 * k + 1]) is Some);
        let hi = hex_value(h[2 * k]).unwrap();
        let lo = hex_value(h[2 * k + 1]).unwrap();
        assert(d[k] == hi * 16 + lo);
        assert((hi * 16 + lo) / 16 == hi && (hi * 16 + lo) % 16 == lo) by (nonlinear_arith)
            requires
                hi < 16,
                lo < 16,
        ;
        if i % 2 == 0 {
            assert(i == 2 * k);
        } else {
            assert(i == 2 * k + 1);
        }
    }
    assert(hex_encode(d) =~= hex_lower(h));
}

/// Hex text is lower-case digits, two per byte, the high nibble first.
pub proof fn lemma_hex_digit_order(b: Seq<u8>)
    ensures
        hex_encode(b).len() == 2 * b.len(),
        forall|i: int|
            0 <= i < hex_encode(b).len() ==> {
                let c = #[trigger] hex_encode(b)[i];
                (0x30 <= c <= 0x39) || (0x61 <= c <= 0x66)
            },
        forall|i: int|
            0 <= i < b.len() ==> hex_value(#[trigger] hex_encode(b)[2 * i]).unwrap() * 16
                + hex_value(hex_encode(b)[2 * i + 1]).unwrap() == b[i],
{
    let h = hex_encode(b);
    assert forall|i: int| 0 <= i < b.len() implies hex_value(#[trigger] h[2 * i]).unwrap() * 16
        + hex_value(h[2 * i + 1]).unwrap() == b[i] by {
        assert((2 * i) % 2 == 0 && (2 * i) / 2 == i);
        assert((2 * i + 1) % 2 == 1 && (2 * i + 1) / 2 == i);
    }
}

} // verus!
