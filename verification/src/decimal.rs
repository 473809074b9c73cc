//! Decimal text of 32-bit unsigned integers, as file names carry them.
//!
//! Parsing follows `u32`'s `FromStr`: an optional `+`, then one or more
//! ASCII digits whose value fits in 32 bits; leading zeros are allowed.

use vstd::prelude::*;

verus! {

pub open spec fn is_digit(c: u8) -> bool {
    0x30 <= c <= 0x39
}

pub open spec fn all_digits(s: Seq<u8>) -> bool {
    forall|i: int| 0 <= i < s.len() ==> #[trigger] is_digit(s[i])
}

/// The number that a string of digits stands for, most significant first.
pub open spec fn digits_value(s: Seq<u8>) -> nat
    decreases s.len(),
{
    if s.len() == 0 {
        0
    } else {
        digits_value(s.drop_last()) * 10 + (s.last() - 0x30) as nat
    }
}

/// The digits of `s` after an optional leading `+`.
pub open spec fn unsigned_digits(s: Seq<u8>) -> Seq<u8> {
    if s.len() > 0 && s[0] == 0x2B {
        s.drop_first()
    } else {
        s
    }
}

/// What parsing `s` as a `u32` gives.
pub open spec fn parse_u32_spec(s: Seq<u8>) -> Option<u32> {
    let d = unsigned_digits(s);
    if d.len() > 0 && all_digits(d) && digits_value(d) <= u32::MAX {
        Some(digits_value(d) as u32)
    } else {
        None
    }
}

/// The shortest decimal text of `n`.
pub open spec fn decimal(n: nat) -> Seq<u8>
    decreases n,
{
    if n < 10 {
        seq![(0x30 + n) as u8]
    } else {
        decimal(n / 10).push((0x30 + n % 10) as u8)
    }
}

/// A prefix of a string of digits stands for no more than the whole.
pub proof fn lemma_digits_value_prefix(d: Seq<u8>, k: int)
    requires
        all_digits(d),
        0 <= k <= d.len(),
    ensures
        digits_value(d.subrange(0, k)) <= digits_value(d),
    decreases d.len(),
{
    if k < d.len() {
        let p = d.drop_last();
        assert(all_digits(p)) by {
            assert forall|i: int| 0 <= i < p.len() implies #[trigger] is_digit(p[i]) by {
                assert(p[i] == d[i]);
            }
        }
        lemma_digits_value_prefix(p, k);
        assert(p.subrange(0, k) =~= d.subrange(0, k));
    } else {
        assert(d.subrange(0, k) =~= d);
    }
}

/// The decimal text of a number is all digits and stands for the number.
pub proof fn lemma_decimal_value(n: nat)
    ensures
        decimal(n).len() > 0,
        all_digits(decimal(n)),
        digits_value(decimal(n)) == n,
    decreases n,
{
    let d = decimal(n);
    if n < 10 {
        assert(d.drop_last() =~= Seq::<u8>::empty());
        assert(digits_value(d) == digits_value(Seq::<u8>::empty()) * 10 + (d.last() - 0x30) as nat);
    } else {
        lemma_decimal_value(n / 10);
        assert(d.drop_last() =~= decimal(n / 10));
        assert((d.last() - 0x30) as nat == n % 10);
        assert((n / 10) * 10 + n % 10 == n);
        assert forall|i: int| 0 <= i < d.len() implies #[trigger] is_digit(d[i]) by {
            if i < d.len() - 1 {
                assert(d[i] == decimal(n / 10)[i]);
            }
        }
    }
}

/// Parsing the decimal text of a number gives the number.
pub proof fn lemma_parse_decimal(n: u32)
    ensures
        parse_u32_spec(decimal(n as nat)) == Some(n),
{
    lemma_decimal_value(n as nat);
    let d = decimal(n as nat);
    assert(is_digit(d[0]));
    assert(unsigned_digits(d) == d);
}

/// Parses `s` as `u32`'s `FromStr` does: an optional `+`, then one or more
/// ASCII digits whose value fits in 32 bits.
pub fn parse_u32(s: &[u8]) -> (r: Option<u32>)
    ensures
        r == parse_u32_spec(s@),
{
    let start: usize = if s.len() > 0 && s[0] == 0x2B {
        1
    } else {
        0
    };
    let ghost d = unsigned_digits(s@);
    assert(d =~= s@.subrange(start as int, s@.len() as int));
    if start >= s.len() {
        return None;
    }
    let mut value: u64 = 0;
    let mut i: usize = start;
    while i < s.len()
        invariant
            start <= i <= s@.len(),
            d == s@.subrange(start as int, s@.len() as int),
            d == unsigned_digits(s@),
            value == digits_value(d.subrange(0, i - start)),
            value <= u32::MAX,
            all_digits(d.subrange(0, i - start)),
        decreases s@.len() - i,
    {
        let c = s[i];
        assert(d[i - start] == c);
        if c < 0x30 || c > 0x39 {
            assert(!is_digit(d[i - start]));
            return None;
        }
        let ghost prev = d.subrange(0, i - start);
        let ghost next = d.subrange(0, i + 1 - start);
        assert(next.drop_last() =~= prev);
        assert(all_digits(next)) by {
            assert forall|j: int| 0 <= j < next.len() implies #[trigger] is_digit(next[j]) by {
                if j < prev.len() {
                    assert(next[j] == prev[j]);
                }
            }
        }
        value = value * 10 + (c - 0x30) as u64;
        if value > 0xFFFF_FFFF {
            proof {
                if all_digits(d) {
                    lemma_digits_value_prefix(d, i + 1 - start);
                }
            }
            return None;
        }
        i += 1;
    }
    assert(d.subrange(0, i - start) =~= d);
    Some(value as u32)
}

/// Appends the decimal text of `n` to `out`.
pub fn push_decimal(out: &mut Vec<u8>, n: u32)
    ensures
        final(out)@ == old(out)@ + decimal(n as nat),
    decreases n,
{
    if n >= 10 {
        push_decimal(out, n / 10);
    }
    out.push(0x30 + (n % 10) as u8);
    assert(old(out)@ + decimal(n as nat) =~= out@);
}

/// Decimal text is written most significant digit first, without leading
/// zeros: its last digit is the number modulo ten, and its first digit is
/// zero only for zero itself.
pub proof fn lemma_decimal_digit_order(n: nat)
    ensures
        decimal(n).last() == 0x30 + n % 10,
        decimal(n)[0] == 0x30 ==> n == 0,
        n < 10 ==> decimal(n).len() == 1,
    decreases n,
{
    if n >= 10 {
        lemma_decimal_digit_order(n / 10);
        lemma_decimal_value(n / 10);
        assert(decimal(n)[0] == decimal(n / 10)[0]);
    }
}

/// A leading zero does not change the value of a string of digits.
pub proof fn lemma_digits_value_leading_zero(d: Seq<u8>)
    ensures
        digits_value(seq![0x30u8] + d) == digits_value(d),
    decreases d.len(),
{
    let z = seq![0x30u8] + d;
    assert(digits_value(z) == digits_value(z.drop_last()) * 10 + (z.last() - 0x30) as nat);
    if d.len() == 0 {
        assert(z.drop_last() =~= Seq::<u8>::empty());
        assert(digits_value(Seq::<u8>::empty()) == 0);
        assert(digits_value(d) == 0);
    } else {
        lemma_digits_value_leading_zero(d.drop_last());
        assert(z.drop_last() =~= seq![0x30u8] + d.drop_last());
        assert(z.last() == d.last());
    }
}

/// What parsing accepts: a value parses only from digits, optionally after
/// one `+`; the decimal text of a number parses to it with a `+` in front,
/// or with a leading zero.
pub proof fn lemma_parse_accepts(s: Seq<u8>, n: u32)
    ensures
        parse_u32_spec(s) is Some ==> forall|i: int|
            0 <= i < s.len() && !(i == 0 && s[0] == 0x2B) ==> is_digit(#[trigger] s[i]),
        parse_u32_spec(s) is Some ==> s.len() > 0 && !(s.len() == 1 && s[0] == 0x2B),
        parse_u32_spec(seq![0x2Bu8] + decimal(n as nat)) == Some(n),
        parse_u32_spec(seq![0x30u8] + decimal(n as nat)) == Some(n),
{
    if parse_u32_spec(s) is Some {
        let d = unsigned_digits(s);
        assert forall|i: int| 0 <= i < s.len() && !(i == 0 && s[0] == 0x2B) implies is_digit(
            #[trigger] s[i],
        ) by {
            if s[0] == 0x2B {
                assert(s[i] == d[i - 1]);
            } else {
                assert(s[i] == d[i]);
            }
        }
    }
    lemma_decimal_value(n as nat);
    let dn = decimal(n as nat);
    let p = seq![0x2Bu8] + dn;
    assert(p.drop_first() =~= dn);
    assert(unsigned_digits(p) == dn);
    let z = seq![0x30u8] + dn;
    lemma_digits_value_leading_zero(dn);
    assert(all_digits(z)) by {
        assert forall|i: int| 0 <= i < z.len() implies #[trigger] is_digit(z[i]) by {
            if i > 0 {
                assert(z[i] == dn[i - 1]);
            }
        }
    }
    assert(unsigned_digits(z) == z);
}

} // verus!
