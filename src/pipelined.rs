use vstd::prelude::*;

use crate::count_spec::{count_of, lemma_count_bounded, lemma_count_same_hits, lemma_count_split};
use crate::lanes::{
    lane_mask, lanes_eq, lanes_pop, lemma_pack_step, load_lanes, or_lanes, packed_weight,
    select_bit, below_bit, lemma_zeroed_lanes, LANES, load_wide_lanes, and_lanes, low_byte,
    high_byte, lemma_bytes_match, lemma_mask_and,
};

verus! {

/// The number of lane vectors packed into one accumulator.
pub const SUB_BLOCKS: usize = 8;

/// The number of elements that one accumulator covers.
pub const BATCH_SIZE: usize = 128;

/// Counts the bytes equal to `needle` among the `BATCH_SIZE` bytes of
/// `haystack` from `start` on, packing the compare mask of each sub-block
/// into its own bit of one accumulator before a single weighing.
pub fn batch_count_1b(haystack: &[u8], start: usize, needle: u8) -> (r: usize)
    requires
        start + BATCH_SIZE <= haystack.len(),
    ensures
        r == count_of(haystack@.subrange(start as int, start + BATCH_SIZE), needle),
{
    let ghost h = haystack@;
    let mut acc = [0u8; 16];
    proof {
        lemma_zeroed_lanes(acc@);
    }
    let mut k: u8 = 0;
    while (k as usize) < SUB_BLOCKS
        invariant
            k as usize <= SUB_BLOCKS,
            start + BATCH_SIZE <= haystack.len(),
            h == haystack@,
            forall|j: int| 0 <= j < LANES ==> below_bit(#[trigger] acc@[j], k),
            lanes_pop(acc@) == count_of(h.subrange(start as int, start + LANES * k), needle),
        decreases SUB_BLOCKS - k as usize,
    {
        let from = start + LANES * (k as usize);
        let lanes = load_lanes(haystack, from);
        let eq = lanes_eq(&lanes, needle);
        let bits = select_bit(&eq, k);
        let ghost before = acc;
        or_lanes(&mut acc, &bits);
        proof {
            lemma_pack_step(before@, eq@, acc@, k);
            lemma_count_same_hits(lanes@, needle, eq@, 0xFFu8);
            lemma_count_split(h, start as int, from as int, from + LANES, needle);
        }
        k = k + 1;
    }
    packed_weight(&acc)
}

/// Counts the bytes of `haystack` equal to `needle`: whole batches go
/// through the bit-packing counter and the remainder through a scalar scan.
pub fn interleaved_pipelined_1b(haystack: &[u8], needle: u8) -> (r: usize)
    ensures
        r == count_of(haystack@, needle),
{
    let ghost h = haystack@;
    let n = haystack.len();
    let mut total: usize = 0;
    let mut i: usize = 0;
    while n - i >= BATCH_SIZE
        invariant
            i <= n,
            n == haystack.len(),
            h == haystack@,
            total == count_of(h.subrange(0, i as int), needle),
        decreases n - i,
    {
        let c = batch_count_1b(haystack, i, needle);
        proof {
            lemma_count_split(h, 0, i as int, i + BATCH_SIZE, needle);
            lemma_count_bounded(h.subrange(0, i + BATCH_SIZE), needle);
        }
        total = total + c;
        i = i + BATCH_SIZE;
    }
    while i < n
        invariant
            i <= n,
            n == haystack.len(),
            h == haystack@,
            total == count_of(h.subrange(0, i as int), needle),
        decreases n - i,
    {
        proof {
            lemma_count_bounded(h.subrange(0, i + 1), needle);
            assert(h.subrange(0, i + 1).drop_last() =~= h.subrange(0, i as int));
        }
        if haystack[i] == needle {
            total = total + 1;
        }
        i = i + 1;
    }
    assert(h.subrange(0, n as int) =~= h);
    total
}

/// Counts the elements equal to `needle` among the `BATCH_SIZE` elements of
/// `haystack` from `start` on. Each sub-block is split into its low and high
/// bytes; a lane hits where both bytes match those of `needle`.
pub fn batch_count_2b(haystack: &[u16], start: usize, needle: u16) -> (r: usize)
    requires
        start + BATCH_SIZE <= haystack.len(),
    ensures
        r == count_of(haystack@.subrange(start as int, start + BATCH_SIZE), needle),
{
    let ghost h = haystack@;
    let needle_lo = needle as u8;
    let needle_hi = (needle >> 8u16) as u8;
    let mut acc = [0u8; 16];
    proof {
        lemma_zeroed_lanes(acc@);
    }
    let mut k: u8 = 0;
    while (k as usize) < SUB_BLOCKS
        invariant
            k as usize <= SUB_BLOCKS,
            start + BATCH_SIZE <= haystack.len(),
            h == haystack@,
            needle_lo == low_byte(needle),
            needle_hi == high_byte(needle),
            forall|j: int| 0 <= j < LANES ==> below_bit(#[trigger] acc@[j], k),
            lanes_pop(acc@) == count_of(h.subrange(start as int, start + LANES * k), needle),
        decreases SUB_BLOCKS - k as usize,
    {
        let from = start + LANES * (k as usize);
        let (lo, hi) = load_wide_lanes(haystack, from);
        let eq_lo = lanes_eq(&lo, needle_lo);
        let eq_hi = lanes_eq(&hi, needle_hi);
        let eq = and_lanes(&eq_lo, &eq_hi);
        let bits = select_bit(&eq, k);
        let ghost before = acc;
        or_lanes(&mut acc, &bits);
        proof {
            let block = h.subrange(from as int, from + LANES);
            assert forall|j: int| 0 <= j < LANES implies #[trigger] eq@[j] == lane_mask(
                block[j] == needle,
            ) by {
                lemma_bytes_match(block[j], needle);
                lemma_mask_and(lo@[j] == needle_lo, hi@[j] == needle_hi);
            }
            lemma_pack_step(before@, eq@, acc@, k);
            lemma_count_same_hits(block, needle, eq@, 0xFFu8);
            lemma_count_split(h, start as int, from as int, from + LANES, needle);
        }
        k = k + 1;
    }
    packed_weight(&acc)
}

/// Counts the elements of `haystack` equal to `needle`, comparing all
/// sixteen bits: whole batches go through the bit-packing counter and the
/// remainder through a scalar scan.
pub fn interleaved_pipelined_2b(haystack: &[u16], needle: u16) -> (r: usize)
    ensures
        r == count_of(haystack@, needle),
{
    let ghost h = haystack@;
    let n = haystack.len();
    let mut total: usize = 0;
    let mut i: usize = 0;
    while n - i >= BATCH_SIZE
        invariant
            i <= n,
            n == haystack.len(),
            h == haystack@,
            total == count_of(h.subrange(0, i as int), needle),
        decreases n - i,
    {
        let c = batch_count_2b(haystack, i, needle);
        proof {
            lemma_count_split(h, 0, i as int, i + BATCH_SIZE, needle);
            lemma_count_bounded(h.subrange(0, i + BATCH_SIZE), needle);
        }
        total = total + c;
        i = i + BATCH_SIZE;
    }
    while i < n
        invariant
            i <= n,
            n == haystack.len(),
            h == haystack@,
            total == count_of(h.subrange(0, i as int), needle),
        decreases n - i,
    {
        proof {
            lemma_count_bounded(h.subrange(0, i + 1), needle);
            assert(h.subrange(0, i + 1).drop_last() =~= h.subrange(0, i as int));
        }
        if haystack[i] == needle {
            total = total + 1;
        }
        i = i + 1;
    }
    assert(h.subrange(0, n as int) =~= h);
    total
}

} // verus!
