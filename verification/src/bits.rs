//! Bit permutations used to derive ordered-dithering threshold matrices:
//! reversing the bits of a byte and interleaving the bits of two words
//! (a Morton / Z-order encoding).

use vstd::prelude::*;

verus! {

/// Bit `i` of `n`, as 0 or 1.
pub open spec fn bit8(n: u8, i: u8) -> u8 {
    (n >> i) & 1
}

/// Bit `i` of `n`, as 0 or 1.
pub open spec fn bit32(n: u32, i: u32) -> u32 {
    (n >> i) & 1
}

/// Spreads the low 16 bits of `x` out to the even bit positions.
pub open spec fn spread16(x: u32) -> u32 {
    let a = (x | (x << 8)) & 0x00FF00FF;
    let b = (a | (a << 4)) & 0x0F0F0F0F;
    let c = (b | (b << 2)) & 0x33333333;
    (c | (c << 1)) & 0x55555555
}

/// Reverses the eight bits of a byte: bit `k` of the input appears as bit
/// `7 - k` of the result.
pub fn bit_reverse(n: u8) -> (rev: u8)
    ensures
        forall|k: u8| k < 8 ==> bit8(rev, (7 - k) as u8) == bit8(n, k),
{
    let mut val: u8 = 0;
    let mut rev: u8 = 0;

    proof {
        assert forall|p: u8| p < 8 implies #[trigger] bit8(0u8, p) == 0 by {
            lemma_zero_bit(p);
        }
    }
    while val < 8
        invariant
            val <= 8,
            forall|k: u8| k < val ==> bit8(rev, (7 - k) as u8) == #[trigger] bit8(n, k),
            forall|p: u8| p < 8 - val ==> #[trigger] bit8(rev, p) == 0,
        decreases 8 - val,
    {
        let tmp: u8 = n & (1 << val);
        if tmp > 0 {
            let ghost prev = rev;
            rev = rev | (1 << ((8 - 1) - val));
            proof {
                lemma_mask_test(n, val);
                assert forall|k: u8| k < val + 1
                    implies bit8(rev, (7 - k) as u8) == #[trigger] bit8(n, k) by {
                    if k == val {
                        lemma_or_sets_bit(prev, (7 - val) as u8);
                    } else {
                        lemma_or_keeps_bit(prev, (7 - val) as u8, (7 - k) as u8);
                    }
                }
                assert forall|p: u8| p < 8 - (val + 1)
                    implies #[trigger] bit8(rev, p) == 0 by {
                    lemma_or_keeps_bit(prev, (7 - val) as u8, p);
                }
            }
        } else {
            proof {
                lemma_mask_test(n, val);
                assert(bit8(rev, (7 - val) as u8) == 0);
            }
        }
        val = val + 1;
    }
    rev
}

/// Interleaves the low 16 bits of `i` and `j`: bit `k` of `i` lands at bit
/// `2k` of the result and bit `k` of `j` at bit `2k + 1`.
pub fn bit_interleave(i: u32, j: u32) -> (z: u32)
    requires
        i < 0x10000,
        j < 0x10000,
    ensures
        forall|k: u32| k < 16 ==> bit32(z, (2 * k) as u32) == bit32(i, k),
        forall|k: u32| k < 16 ==> bit32(z, (2 * k + 1) as u32) == bit32(j, k),
{
    let mut x: u32 = i;
    let mut y: u32 = j;

    x = (x | (x << 8)) & 0x00FF00FF;
    x = (x | (x << 4)) & 0x0F0F0F0F;
    x = (x | (x << 2)) & 0x33333333;
    x = (x | (x << 1)) & 0x55555555;

    y = (y | (y << 8)) & 0x00FF00FF;
    y = (y | (y << 4)) & 0x0F0F0F0F;
    y = (y | (y << 2)) & 0x33333333;
    y = (y | (y << 1)) & 0x55555555;

    let z: u32 = x | (y << 1);

    proof {
        assert(x == spread16(i));
        assert(y == spread16(j));
        assert forall|k: u32| k < 16 implies bit32(z, (2 * k) as u32) == bit32(i, k)
            && bit32(z, (2 * k + 1) as u32) == bit32(j, k) by {
            lemma_interleave_bit(i, j, k);
        }
    }
    z
}

/// Every bit of zero is zero.
proof fn lemma_zero_bit(p: u8)
    by (bit_vector)
    requires
        p < 8,
    ensures
        bit8(0u8, p) == 0,
{
}

/// `n & (1 << v)` tests exactly bit `v`.
proof fn lemma_mask_test(n: u8, v: u8)
    by (bit_vector)
    requires
        v < 8,
    ensures
        (n & (1u8 << v) > 0) <==> bit8(n, v) == 1,
        bit8(n, v) == 0 || bit8(n, v) == 1,
{
}

/// Setting bit `v` by `or` makes that bit 1.
proof fn lemma_or_sets_bit(r: u8, v: u8)
    by (bit_vector)
    requires
        v < 8,
    ensures
        bit8(r | (1u8 << v), v) == 1,
{
}

/// Setting bit `v` by `or` leaves every other bit as it was.
proof fn lemma_or_keeps_bit(r: u8, v: u8, k: u8)
    by (bit_vector)
    requires
        v < 8,
        k < 8,
        k != v,
    ensures
        bit8(r | (1u8 << v), k) == bit8(r, k),
{
}

/// One bit of the interleaving of two 16-bit values.
proof fn lemma_interleave_bit(i: u32, j: u32, k: u32)
    by (bit_vector)
    requires
        i < 0x10000,
        j < 0x10000,
        k < 16,
    ensures
        bit32(spread16(i) | (spread16(j) << 1), (2 * k) as u32) == bit32(i, k),
        bit32(spread16(i) | (spread16(j) << 1), (2 * k + 1) as u32) == bit32(j, k),
{
}

} // verus!
