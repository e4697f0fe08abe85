use vstd::prelude::*;

use crate::count_spec::count_of;

verus! {

/// The number of byte lanes in one vector.
pub const LANES: usize = 16;

/// The low-order byte of a 16-bit element.
pub open spec fn low_byte(e: u16) -> u8 {
    e as u8
}

/// The high-order byte of a 16-bit element.
pub open spec fn high_byte(e: u16) -> u8 {
    (e >> 8u16) as u8
}

/// The number of set bits of `b`.
pub open spec fn pop8(b: u8) -> u8 {
    ((b & 1) + ((b >> 1u8) & 1) + ((b >> 2u8) & 1) + ((b >> 3u8) & 1)
        + ((b >> 4u8) & 1) + ((b >> 5u8) & 1) + ((b >> 6u8) & 1) + ((b >> 7u8) & 1)) as u8
}

/// The number of set bits of the low four bits of `b`.
pub open spec fn pop4(b: u8) -> u8 {
    ((b & 1) + ((b >> 1u8) & 1) + ((b >> 2u8) & 1) + ((b >> 3u8) & 1)) as u8
}

/// Bits at position `k` and above of `b` are clear.
pub open spec fn below_bit(b: u8, k: u8) -> bool {
    (b as u16) < (1u16 << (k as u16))
}

/// The all-ones or all-zeros byte that an equality compare leaves in a lane.
pub open spec fn lane_mask(hit: bool) -> u8 {
    if hit {
        0xFF
    } else {
        0
    }
}

/// The sum of the set bits over all lanes of `acc`.
pub open spec fn lanes_pop(acc: Seq<u8>) -> nat
    decreases acc.len(),
{
    if acc.len() == 0 {
        0
    } else {
        lanes_pop(acc.drop_last()) + pop8(acc.last()) as nat
    }
}

/// A 16-bit element equals another exactly when both its bytes do.
pub proof fn lemma_bytes_match(e: u16, n: u16)
    ensures
        (e == n) <==> (low_byte(e) == low_byte(n) && high_byte(e) == high_byte(n)),
{
    assert((e == n) <==> ((e as u8) == (n as u8) && ((e >> 8u16) as u8) == ((n >> 8u16) as u8)))
        by (bit_vector);
}

/// The AND of two compare masks is the mask of both compares hitting.
pub proof fn lemma_mask_and(p: bool, q: bool)
    ensures
        lane_mask(p) & lane_mask(q) == lane_mask(p && q),
{
    assert(0xFFu8 & 0xFFu8 == 0xFFu8 && 0xFFu8 & 0u8 == 0u8 && 0u8 & 0xFFu8 == 0u8 && 0u8 & 0u8
        == 0u8) by (bit_vector);
}

/// A freshly zeroed accumulator has no set bit.
pub proof fn lemma_zeroed_lanes(acc: Seq<u8>)
    requires
        forall|j: int| 0 <= j < acc.len() ==> acc[j] == 0,
    ensures
        lanes_pop(acc) == 0,
        forall|j: int| 0 <= j < acc.len() ==> below_bit(#[trigger] acc[j], 0),
    decreases acc.len(),
{
    assert(pop8(0) == 0 && below_bit(0, 0)) by (bit_vector);
    if acc.len() > 0 {
        lemma_zeroed_lanes(acc.drop_last());
    }
}

/// Merging bit `k` of a compare mask into a lane whose bits from `k` on are
/// clear adds one set bit exactly where the compare hit.
pub proof fn lemma_pack_lane(acc: u8, m: u8, k: u8)
    requires
        k < 8,
        below_bit(acc, k),
        m == 0 || m == 0xFF,
    ensures
        pop8(acc | (m & (1u8 << k))) == pop8(acc) + if m == 0xFF {
            1int
        } else {
            0int
        },
        below_bit(acc | (m & (1u8 << k)), (k + 1) as u8),
{
    let r = acc | (m & (1u8 << k));
    assert(pop8(acc) <= 7) by (bit_vector)
        requires
            k < 8,
            (acc as u16) < (1u16 << (k as u16)),
    ;
    if m == 0xFF {
        assert(pop8(acc | (0xFFu8 & (1u8 << k))) == (pop8(acc) + 1) as u8) by (bit_vector)
            requires
                k < 8,
                (acc as u16) < (1u16 << (k as u16)),
        ;
    } else {
        assert((acc | (0u8 & (1u8 << k))) == acc) by (bit_vector);
    }
    assert(((r as u16) < (1u16 << ((k + 1) as u8) as u16))) by (bit_vector)
        requires
            k < 8,
            (acc as u16) < (1u16 << (k as u16)),
            r == acc | (m & (1u8 << k)),
    ;
}

/// Merging bit `k` of each lane of a compare mask into an accumulator adds
/// the number of lanes where the compare hit.
pub proof fn lemma_pack_step(acc: Seq<u8>, m: Seq<u8>, packed: Seq<u8>, k: u8)
    requires
        k < 8,
        acc.len() == m.len(),
        packed.len() == m.len(),
        forall|j: int| 0 <= j < acc.len() ==> below_bit(#[trigger] acc[j], k),
        forall|j: int| 0 <= j < m.len() ==> #[trigger] m[j] == 0 || m[j] == 0xFF,
        forall|j: int| 0 <= j < m.len() ==> #[trigger] packed[j] == acc[j] | (m[j] & (1u8 << k)),
    ensures
        lanes_pop(packed) == lanes_pop(acc) + count_of(m, 0xFFu8),
        forall|j: int| 0 <= j < packed.len() ==> below_bit(#[trigger] packed[j], (k + 1) as u8),
    decreases acc.len(),
{
    if acc.len() > 0 {
        let n = acc.len() - 1;
        lemma_pack_step(acc.drop_last(), m.drop_last(), packed.drop_last(), k);
        lemma_pack_lane(acc[n], m[n], k);
    }
    assert forall|j: int| 0 <= j < packed.len() implies below_bit(
        #[trigger] packed[j],
        (k + 1) as u8,
    ) by {
        lemma_pack_lane(acc[j], m[j], k);
    }
}

pub proof fn lemma_nibbles(b: u8)
    ensures
        pop4(b & 15) + pop4(b >> 4u8) == pop8(b),
{
    assert((pop4(b & 15) + pop4(b >> 4u8)) as u8 == pop8(b)) by (bit_vector);
    assert(pop4(b & 15) <= 4 && pop4(b >> 4u8) <= 4) by (bit_vector);
}

/// Hamming weight of each four-bit value.
pub const NIBBLE_WEIGHTS: [u8; 16] = [0, 1, 1, 2, 1, 2, 2, 3, 1, 2, 2, 3, 2, 3, 3, 4];

/// Looks up the number of set bits of a four-bit value.
pub fn nibble_weight(x: u8) -> (r: u8)
    requires
        x < 16,
    ensures
        r == pop4(x),
{
    let table = NIBBLE_WEIGHTS;
    assert(table@ == seq![0u8, 1, 1, 2, 1, 2, 2, 3, 1, 2, 2, 3, 2, 3, 3, 4]);
    assert(pop4(0) == 0 && pop4(1) == 1 && pop4(2) == 1 && pop4(3) == 2 && pop4(4) == 1
        && pop4(5) == 2 && pop4(6) == 2 && pop4(7) == 3 && pop4(8) == 1 && pop4(9) == 2
        && pop4(10) == 2 && pop4(11) == 3 && pop4(12) == 2 && pop4(13) == 3 && pop4(14) == 3
        && pop4(15) == 4) by (bit_vector);
    assert(forall|v: u8| v < 16 ==> #[trigger] pop4(v) == table@[v as int]) by {
        assert forall|v: u8| v < 16 implies #[trigger] pop4(v) == table@[v as int] by {
            assert(v == 0 || v == 1 || v == 2 || v == 3 || v == 4 || v == 5 || v == 6 || v == 7 || v == 8 || v == 9 || v == 10 || v == 11 || v == 12 || v == 13 || v == 14 || v == 15);
        }
    }
    table[x as usize]
}

/// Copies the `LANES` bytes of `s` from `start` on into a lane vector.
pub fn load_lanes(s: &[u8], start: usize) -> (r: [u8; 16])
    requires
        start + LANES <= s.len(),
    ensures
        r@ == s@.subrange(start as int, start + LANES),
{
    let mut r = [0u8; 16];
    let mut j: usize = 0;
    while j < LANES
        invariant
            j <= LANES,
            start + LANES <= s.len(),
            forall|i: int| 0 <= i < j ==> r@[i] == s@[start + i],
        decreases LANES - j,
    {
        r[j] = s[start + j];
        j = j + 1;
    }
    assert(r@ =~= s@.subrange(start as int, start + LANES));
    r
}

/// Splits the `LANES` elements of `s` from `start` on into a vector of
/// their low bytes and a vector of their high bytes.
pub fn load_wide_lanes(s: &[u16], start: usize) -> (r: ([u8; 16], [u8; 16]))
    requires
        start + LANES <= s.len(),
    ensures
        forall|i: int| 0 <= i < LANES ==> #[trigger] r.0@[i] == low_byte(s@[start + i]),
        forall|i: int| 0 <= i < LANES ==> #[trigger] r.1@[i] == high_byte(s@[start + i]),
{
    let mut lo = [0u8; 16];
    let mut hi = [0u8; 16];
    let mut j: usize = 0;
    while j < LANES
        invariant
            j <= LANES,
            start + LANES <= s.len(),
            forall|i: int| 0 <= i < j ==> lo@[i] == low_byte(s@[start + i]),
            forall|i: int| 0 <= i < j ==> hi@[i] == high_byte(s@[start + i]),
        decreases LANES - j,
    {
        let e = s[start + j];
        lo[j] = e as u8;
        hi[j] = (e >> 8u16) as u8;
        j = j + 1;
    }
    (lo, hi)
}

/// Compares each lane of `v` with `needle`.
pub fn lanes_eq(v: &[u8; 16], needle: u8) -> (r: [u8; 16])
    ensures
        forall|i: int| 0 <= i < LANES ==> #[trigger] r@[i] == lane_mask(v@[i] == needle),
{
    let mut r = [0u8; 16];
    let mut j: usize = 0;
    while j < LANES
        invariant
            j <= LANES,
            forall|i: int| 0 <= i < j ==> r@[i] == lane_mask(v@[i] == needle),
        decreases LANES - j,
    {
        r[j] = if v[j] == needle {
            0xFF
        } else {
            0
        };
        j = j + 1;
    }
    r
}

/// The lane-wise AND of two vectors.
pub fn and_lanes(a: &[u8; 16], b: &[u8; 16]) -> (r: [u8; 16])
    ensures
        forall|i: int| 0 <= i < LANES ==> #[trigger] r@[i] == a@[i] & b@[i],
{
    let mut r = [0u8; 16];
    let mut j: usize = 0;
    while j < LANES
        invariant
            j <= LANES,
            forall|i: int| 0 <= i < j ==> r@[i] == a@[i] & b@[i],
        decreases LANES - j,
    {
        r[j] = a[j] & b[j];
        j = j + 1;
    }
    r
}

/// Keeps bit `k` of each lane of a compare mask and clears the others.
pub fn select_bit(eq: &[u8; 16], k: u8) -> (r: [u8; 16])
    requires
        k < 8,
    ensures
        forall|i: int| 0 <= i < LANES ==> #[trigger] r@[i] == eq@[i] & (1u8 << k),
{
    let bit: u8 = 1u8 << k;
    let mut r = [0u8; 16];
    let mut j: usize = 0;
    while j < LANES
        invariant
            j <= LANES,
            bit == 1u8 << k,
            forall|i: int| 0 <= i < j ==> r@[i] == eq@[i] & (1u8 << k),
        decreases LANES - j,
    {
        r[j] = eq[j] & bit;
        j = j + 1;
    }
    r
}

/// ORs `bits` into `acc`, lane by lane.
pub fn or_lanes(acc: &mut [u8; 16], bits: &[u8; 16])
    ensures
        forall|i: int| 0 <= i < LANES ==> #[trigger] final(acc)@[i] == old(acc)@[i] | bits@[i],
{
    let ghost start = *acc;
    let mut j: usize = 0;
    while j < LANES
        invariant
            j <= LANES,
            forall|i: int| 0 <= i < j ==> acc@[i] == start@[i] | bits@[i],
            forall|i: int| j <= i < LANES ==> acc@[i] == start@[i],
        decreases LANES - j,
    {
        acc[j] = acc[j] | bits[j];
        j = j + 1;
    }
}

/// Sums the set bits over all lanes of `acc`, one nibble lookup at a time.
pub fn packed_weight(acc: &[u8; 16]) -> (r: usize)
    ensures
        r == lanes_pop(acc@),
{
    let mut total: usize = 0;
    let mut j: usize = 0;
    while j < LANES
        invariant
            j <= LANES,
            total == lanes_pop(acc@.subrange(0, j as int)),
            total <= 8 * j,
        decreases LANES - j,
    {
        let b = acc[j];
        assert((b & 15u8) < 16 && (b >> 4u8) < 16) by (bit_vector);
        let lo = nibble_weight(b & 15u8);
        let hi = nibble_weight(b >> 4u8);
        proof {
            lemma_nibbles(b);
            assert(pop8(b) <= 8) by (bit_vector);
            assert(acc@.subrange(0, j + 1).drop_last() =~= acc@.subrange(0, j as int));
        }
        total = total + lo as usize + hi as usize;
        j = j + 1;
    }
    assert(acc@.subrange(0, LANES as int) =~= acc@);
    total
}

} // verus!
