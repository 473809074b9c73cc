//! Big-endian encoding of 32-bit unsigned integers.

use vstd::prelude::*;

verus! {

/// The four bytes of `x`, most significant first.
pub open spec fn be_bytes(x: u32) -> Seq<u8> {
    seq![
        (x / 0x100_0000) as u8,
        ((x / 0x1_0000) % 0x100) as u8,
        ((x / 0x100) % 0x100) as u8,
        (x % 0x100) as u8,
    ]
}

/// The number that four bytes stand for, read most significant first.
pub open spec fn be_value(b: Seq<u8>) -> u32
    recommends
        b.len() == 4,
{
    (b[0] * 0x100_0000int + b[1] * 0x1_0000int + b[2] * 0x100int + b[3]) as u32
}

/// Reading back the bytes of a number gives the number.
pub proof fn lemma_be_value_of_bytes(x: u32)
    ensures
        be_value(be_bytes(x)) == x,
{
}

/// Four bytes are the bytes of the number they stand for.
pub proof fn lemma_be_bytes_of_value(b: Seq<u8>)
    requires
        b.len() == 4,
    ensures
        be_bytes(be_value(b)) == b,
{
    assert(be_bytes(be_value(b)) =~= b);
}

/// `x.to_be_bytes()`.
pub fn u32_to_be(x: u32) -> (r: [u8; 4])
    ensures
        r@ == be_bytes(x),
{
    let r = [
        (x / 0x100_0000) as u8,
        ((x / 0x1_0000) % 0x100) as u8,
        ((x / 0x100) % 0x100) as u8,
        (x % 0x100) as u8,
    ];
    assert(r@ =~= be_bytes(x));
    r
}

/// `u32::from_be_bytes(b)`.
pub fn u32_from_be(b: [u8; 4]) -> (r: u32)
    ensures
        r == be_value(b@),
{
    (b[0] as u32) * 0x100_0000 + (b[1] as u32) * 0x1_0000 + (b[2] as u32) * 0x100 + (b[3] as u32)
}

/// The bytes of a number come most significant first: each byte is the
/// number's digit in base 256 at its place, the first worth 256 cubed.
pub proof fn lemma_be_digit_order(x: u32)
    ensures
        be_bytes(x).len() == 4,
        be_bytes(x)[0] * 0x100_0000 + be_bytes(x)[1] * 0x1_0000 + be_bytes(x)[2] * 0x100
            + be_bytes(x)[3] == x,
        be_bytes(x)[0] == x / 0x100_0000,
        be_bytes(x)[3] == x % 0x100,
{
}

} // verus!
