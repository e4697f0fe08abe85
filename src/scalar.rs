use vstd::prelude::*;

use crate::count_spec::count_of;

verus! {

/// Counts the bytes of `haystack` equal to `needle` by one linear scan.
pub fn naive_1b(haystack: &[u8], needle: u8) -> (r: usize)
    ensures
        r == count_of(haystack@, needle),
{
    let mut total: usize = 0;
    let mut i: usize = 0;
    while i < haystack.len()
        invariant
            i <= haystack.len(),
            total == count_of(haystack@.subrange(0, i as int), needle),
            total <= i,
        decreases haystack.len() - i,
    {
        assert(haystack@.subrange(0, i as int + 1).drop_last() =~= haystack@.subrange(0, i as int));
        if haystack[i] == needle {
            total = total + 1;
        }
        i = i + 1;
    }
    assert(haystack@.subrange(0, i as int) =~= haystack@);
    total
}

/// Counts the elements of `haystack` equal to `needle` by one linear scan.
pub fn naive_2b(haystack: &[u16], needle: u16) -> (r: usize)
    ensures
        r == count_of(haystack@, needle),
{
    let mut total: usize = 0;
    let mut i: usize = 0;
    while i < haystack.len()
        invariant
            i <= haystack.len(),
            total == count_of(haystack@.subrange(0, i as int), needle),
            total <= i,
        decreases haystack.len() - i,
    {
        assert(haystack@.subrange(0, i as int + 1).drop_last() =~= haystack@.subrange(0, i as int));
        if haystack[i] == needle {
            total = total + 1;
        }
        i = i + 1;
    }
    assert(haystack@.subrange(0, i as int) =~= haystack@);
    total
}

} // verus!
