use vstd::arithmetic::power2::{
    lemma2_to64, lemma_pow2_strictly_increases, lemma_pow2_unfold, pow2,
};
use vstd::prelude::*;

use crate::count_spec::{count_of, lemma_count_bounded, lemma_count_split};

verus! {

/// The number of elements in one block of the divide-and-conquer counter.
pub const BLOCK_SIZE: usize = 64;

/// The number of ones in the binary form of `x`.
pub open spec fn ones(x: u64) -> nat
    decreases x,
{
    if x == 0 {
        0
    } else {
        (x % 2) as nat + ones(x / 2)
    }
}

/// `n` is a power of two.
pub open spec fn is_pow2(n: nat) -> bool
    decreases n,
{
    if n <= 1 {
        n == 1
    } else {
        n % 2 == 0 && is_pow2(n / 2)
    }
}

/// Relies on u64::count_ones: the number of ones in the binary form of `x`.
#[verifier::external_body]
fn count_ones_u64(x: u64) -> (r: u32)
    ensures
        r as nat == ones(x),
{
    x.count_ones()
}

/// Appending one bit below a mask adds that bit to its weight.
proof fn lemma_ones_shift_in(m: u64, b: u64, x: u64)
    requires
        b <= 1,
        x as int == 2 * m + b,
    ensures
        ones(x) == ones(m) + b,
{
    if x != 0 {
        assert(x % 2 == b && x / 2 == m);
    }
}

/// Counts the bytes equal to `needle` among the `BLOCK_SIZE` bytes of
/// `haystack` from `start` on: the compare results form a bit mask, with
/// bit `i` set where byte `i` of the block hit, whose weight is the count.
pub fn count_block_1b(haystack: &[u8], start: usize, needle: u8) -> (r: usize)
    requires
        start + BLOCK_SIZE <= haystack.len(),
    ensures
        r == count_of(haystack@.subrange(start as int, start + BLOCK_SIZE), needle),
{
    let ghost h = haystack@;
    let end = start + BLOCK_SIZE;
    let mut mask: u64 = 0;
    let mut i: usize = BLOCK_SIZE;
    proof {
        lemma2_to64();
    }
    while i > 0
        invariant
            i <= BLOCK_SIZE,
            end == start + BLOCK_SIZE,
            end <= haystack.len(),
            h == haystack@,
            mask < pow2((BLOCK_SIZE - i) as nat),
            ones(mask) == count_of(h.subrange(start + i, end as int), needle),
        decreases i,
    {
        i = i - 1;
        let hit: u64 = if haystack[start + i] == needle {
            1
        } else {
            0
        };
        proof {
            let n = (BLOCK_SIZE - i) as nat;
            lemma_pow2_unfold(n);
            lemma2_to64();
            if n < 64 {
                lemma_pow2_strictly_increases(n, 64);
            }
            lemma_count_split(h, start + i, start + i + 1, end as int, needle);
            let one = h.subrange(start + i, start + i + 1);
            assert(one.drop_last().len() == 0);
            assert(count_of(one.drop_last(), needle) == 0);
            assert(one.last() == haystack@[start + i]);
            assert(count_of(one, needle) == hit);
        }
        let next = mask * 2 + hit;
        proof {
            lemma_ones_shift_in(mask, hit, next);
        }
        mask = next;
    }
    count_ones_u64(mask) as usize
}

/// A power of two above another is at least twice as large.
proof fn lemma_pow2_gap(m: nat, c: nat)
    requires
        is_pow2(m),
        is_pow2(c),
        m > c,
    ensures
        m >= 2 * c,
    decreases c,
{
    if c > 1 {
        lemma_pow2_gap(m / 2, c / 2);
    }
}

/// Counts the bytes equal to `needle` in the `len` bytes of `haystack` from
/// `start` on, halving the range until each piece is one block.
fn divide_from(haystack: &[u8], start: usize, len: usize, needle: u8) -> (r: usize)
    requires
        is_pow2(len as nat),
        len >= BLOCK_SIZE,
        start + len <= haystack.len(),
    ensures
        r == count_of(haystack@.subrange(start as int, start + len), needle),
    decreases len,
{
    if len == BLOCK_SIZE {
        count_block_1b(haystack, start, needle)
    } else {
        let half = len / 2;
        proof {
            reveal_with_fuel(is_pow2, 8);
            lemma_pow2_gap(len as nat, BLOCK_SIZE as nat);
        }
        let a = divide_from(haystack, start, half, needle);
        let b = divide_from(haystack, start + half, half, needle);
        proof {
            lemma_count_split(haystack@, start as int, start + half, start + len, needle);
            lemma_count_bounded(haystack@.subrange(start as int, start + len), needle);
        }
        a + b
    }
}

/// Counts the bytes of `haystack` equal to `needle` by halving it down to
/// blocks of `BLOCK_SIZE` bytes and summing the block counts, left to right.
/// The length must be a power of two larger than one block.
pub fn divide_simd(haystack: &[u8], needle: u8) -> (r: usize)
    requires
        is_pow2(haystack.len() as nat),
        haystack.len() > BLOCK_SIZE,
    ensures
        r == count_of(haystack@, needle),
{
    let r = divide_from(haystack, 0, haystack.len(), needle);
    assert(haystack@.subrange(0, haystack.len() as int) =~= haystack@);
    r
}

} // verus!
