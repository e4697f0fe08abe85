use vstd::prelude::*;

use crate::count_spec::count_of;
use crate::lanes::low_byte;
use crate::pipelined::interleaved_pipelined_1b;

verus! {

/// The low-order bytes of the elements of `s`, in order.
pub open spec fn low_bytes_of(s: Seq<u16>) -> Seq<u8> {
    s.map_values(|e: u16| low_byte(e))
}

/// The number of elements of `s` whose low-order byte is `b`.
pub open spec fn low_byte_hits(s: Seq<u16>, b: u8) -> nat
    decreases s.len(),
{
    if s.len() == 0 {
        0
    } else {
        low_byte_hits(s.drop_last(), b) + if low_byte(s.last()) == b {
            1nat
        } else {
            0nat
        }
    }
}

/// Narrows 16-bit elements to byte lanes: one byte per element, its
/// low-order byte, in the order of the elements.
pub fn narrow_low_bytes(elements: &[u16]) -> (r: Vec<u8>)
    ensures
        r@ == low_bytes_of(elements@),
{
    let mut r: Vec<u8> = Vec::with_capacity(elements.len());
    let mut i: usize = 0;
    while i < elements.len()
        invariant
            i <= elements.len(),
            r@ == low_bytes_of(elements@.subrange(0, i as int)),
        decreases elements.len() - i,
    {
        r.push(elements[i] as u8);
        i = i + 1;
        assert(r@ =~= low_bytes_of(elements@.subrange(0, i as int)));
    }
    assert(elements@.subrange(0, i as int) =~= elements@);
    r
}

/// Counts the elements of `haystack` whose low-order byte is `needle`: the
/// elements are narrowed to their low bytes, which the byte counter then
/// scans. High-order bytes take no part, so elements that differ only there
/// all count.
pub fn count_low_bytes_2b(haystack: &[u16], needle: u8) -> (r: usize)
    ensures
        r == count_of(low_bytes_of(haystack@), needle),
        r == low_byte_hits(haystack@, needle),
{
    let bytes = narrow_low_bytes(haystack);
    proof {
        lemma_narrowed_count(haystack@, needle);
    }
    interleaved_pipelined_1b(bytes.as_slice(), needle)
}

/// Counting a needle byte among the narrowed elements counts the elements
/// whose low-order byte is that needle.
pub proof fn lemma_narrowed_count(s: Seq<u16>, b: u8)
    ensures
        count_of(low_bytes_of(s), b) == low_byte_hits(s, b),
    decreases s.len(),
{
    if s.len() > 0 {
        lemma_narrowed_count(s.drop_last(), b);
        assert(low_bytes_of(s).drop_last() =~= low_bytes_of(s.drop_last()));
    }
}

/// Narrowing reads the low-order bytes alone: two sequences whose elements
/// agree on them, among them two runs on the same data, get the same count.
pub proof fn lemma_narrowing_deterministic(a: Seq<u16>, b: Seq<u16>, needle: u8)
    requires
        a.len() == b.len(),
        forall|i: int| 0 <= i < a.len() ==> low_byte(#[trigger] a[i]) == low_byte(b[i]),
    ensures
        count_of(low_bytes_of(a), needle) == count_of(low_bytes_of(b), needle),
{
    assert(low_bytes_of(a) =~= low_bytes_of(b));
}

} // verus!
