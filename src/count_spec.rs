use vstd::prelude::*;

verus! {

/// The number of positions of `s` that hold `x`.
pub open spec fn count_of<T>(s: Seq<T>, x: T) -> nat
    decreases s.len(),
{
    if s.len() == 0 {
        0
    } else {
        count_of(s.drop_last(), x) + if s.last() == x {
            1nat
        } else {
            0nat
        }
    }
}

/// The concatenation of `parts`, in order.
pub open spec fn concat_all<T>(parts: Seq<Seq<T>>) -> Seq<T>
    decreases parts.len(),
{
    if parts.len() == 0 {
        Seq::empty()
    } else {
        concat_all(parts.drop_last()) + parts.last()
    }
}

/// The sum of the counts of `x` over each of `parts`.
pub open spec fn sum_of_counts<T>(parts: Seq<Seq<T>>, x: T) -> nat
    decreases parts.len(),
{
    if parts.len() == 0 {
        0
    } else {
        sum_of_counts(parts.drop_last(), x) + count_of(parts.last(), x)
    }
}

/// A count never exceeds the length of the sequence.
pub proof fn lemma_count_bounded<T>(s: Seq<T>, x: T)
    ensures
        count_of(s, x) <= s.len(),
    decreases s.len(),
{
    if s.len() > 0 {
        lemma_count_bounded(s.drop_last(), x);
    }
}

/// The empty sequence holds no occurrence of any needle.
pub proof fn lemma_count_empty<T>(x: T)
    ensures
        count_of(Seq::<T>::empty(), x) == 0,
{
}

/// Where every element equals the needle, the count is the length.
pub proof fn lemma_count_saturated<T>(s: Seq<T>, x: T)
    requires
        forall|i: int| 0 <= i < s.len() ==> s[i] == x,
    ensures
        count_of(s, x) == s.len(),
    decreases s.len(),
{
    if s.len() > 0 {
        lemma_count_saturated(s.drop_last(), x);
    }
}

/// Counting two sequences joined end to end gives the sum of their counts.
pub proof fn lemma_count_concat<T>(s: Seq<T>, t: Seq<T>, x: T)
    ensures
        count_of(s + t, x) == count_of(s, x) + count_of(t, x),
    decreases t.len(),
{
    if t.len() == 0 {
        assert(s + t =~= s);
    } else {
        lemma_count_concat(s, t.drop_last(), x);
        assert((s + t).drop_last() =~= s + t.drop_last());
    }
}

/// Splitting a range of `s` at `b` splits its count.
pub proof fn lemma_count_split<T>(s: Seq<T>, a: int, b: int, c: int, x: T)
    requires
        0 <= a <= b <= c <= s.len(),
    ensures
        count_of(s.subrange(a, c), x) == count_of(s.subrange(a, b), x) + count_of(
            s.subrange(b, c),
            x,
        ),
{
    lemma_count_concat(s.subrange(a, b), s.subrange(b, c), x);
    assert(s.subrange(a, b) + s.subrange(b, c) =~= s.subrange(a, c));
}

/// Counting a sequence equals the sum of the counts over any partition of it
/// into contiguous pieces.
pub proof fn lemma_count_partition<T>(parts: Seq<Seq<T>>, x: T)
    ensures
        count_of(concat_all(parts), x) == sum_of_counts(parts, x),
    decreases parts.len(),
{
    if parts.len() > 0 {
        lemma_count_partition(parts.drop_last(), x);
        lemma_count_concat(concat_all(parts.drop_last()), parts.last(), x);
    }
}

/// Two sequences that agree, position by position, on whether they hold
/// their needle have the same count.
pub proof fn lemma_count_same_hits<T, U>(s: Seq<T>, x: T, t: Seq<U>, y: U)
    requires
        s.len() == t.len(),
        forall|i: int| 0 <= i < s.len() ==> (s[i] == x <==> t[i] == y),
    ensures
        count_of(s, x) == count_of(t, y),
    decreases s.len(),
{
    if s.len() > 0 {
        lemma_count_same_hits(s.drop_last(), x, t.drop_last(), y);
    }
}

} // verus!
