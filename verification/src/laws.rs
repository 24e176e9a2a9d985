use vstd::prelude::*;

verus! {

use crate::histogram::{cumulative_count, lemma_prefix_le_sum, lemma_sum_counts_nonneg, sum_counts, HistogramCore};
use crate::value::Value;
use crate::vec::{lemma_push_keeps, lemma_remove_keeps, spec_hash_label_values, ChildMap, Entry};

/// A counter's number after a sequence of increments, as the increment
/// contract describes it: each one adds its argument.
pub open spec fn apply_incs(start: int, ds: Seq<int>) -> int
    decreases ds.len(),
{
    if ds.len() == 0 {
        start
    } else {
        apply_incs(start, ds.drop_last()) + ds.last()
    }
}

/// The sum of a sequence of amounts.
pub open spec fn sum_of(ds: Seq<int>) -> int
    decreases ds.len(),
{
    if ds.len() == 0 {
        0
    } else {
        sum_of(ds.drop_last()) + ds.last()
    }
}

/// Any sequence of increments applied to a counter leaves it at its
/// start plus the sum of all amounts; from a fresh counter, which starts
/// at zero, exactly the sum — and with non-negative amounts the counter
/// never went down along the way.
pub proof fn lemma_counter_sum(start: int, ds: Seq<int>)
    ensures
        apply_incs(start, ds) == start + sum_of(ds),
        (forall|i: int| 0 <= i < ds.len() ==> ds[i] >= 0) ==> apply_incs(start, ds) >= start,
    decreases ds.len(),
{
    if ds.len() > 0 {
        lemma_counter_sum(start, ds.drop_last());
        if forall|i: int| 0 <= i < ds.len() ==> ds[i] >= 0 {
            assert forall|i: int| 0 <= i < ds.drop_last().len() implies ds.drop_last()[i]
                >= 0 by {
                assert(ds.drop_last()[i] == ds[i]);
            }
        }
    }
}

/// A prefix sum of bucket counts never shrinks as it takes more buckets
/// in: the exported cumulative bucket counts of a histogram are
/// non-decreasing in the bucket index, and the total count — which the
/// implicit unbounded bucket reports — is at least every one of them.
pub proof fn lemma_cumulative_monotone(h: HistogramCore, i: int, j: int)
    requires
        h.wf(),
        0 <= i <= j <= h.counts@.len(),
    ensures
        cumulative_count(h.counts@, i) <= cumulative_count(h.counts@, j),
        cumulative_count(h.counts@, j) <= h.count,
{
    lemma_prefix_monotone(h.counts@, i, j);
    lemma_prefix_le_sum(h.counts@, j);
}

/// Taking more buckets into a prefix sum never shrinks it.
pub proof fn lemma_prefix_monotone(s: Seq<u64>, i: int, j: int)
    requires
        0 <= i <= j <= s.len(),
    ensures
        cumulative_count(s, i) <= cumulative_count(s, j),
    decreases j - i,
{
    if i < j {
        lemma_prefix_monotone(s, i + 1, j);
        assert(s.subrange(0, i + 1).drop_last() =~= s.subrange(0, i));
        assert(sum_counts(s.subrange(0, i + 1)) == sum_counts(s.subrange(0, i)) + s[i]);
    }
}

/// The same label-value tuple always carries the same child key: the key
/// is a function of the ordered values alone, so two lookups with equal
/// tuples reach the same child, and an increment through either is seen
/// through the other.
pub proof fn lemma_same_tuple_same_child(vals1: Seq<Seq<char>>, vals2: Seq<Seq<char>>)
    requires
        vals1 == vals2,
    ensures
        spec_hash_label_values(vals1) == spec_hash_label_values(vals2),
{
}

/// Removing a tuple's child and looking the tuple up again yields a
/// fresh child at zero: the removal leaves the key absent, and a lookup
/// of an absent key stores a new child, so the child found afterward is
/// the new one, holding zero whatever the old one held.
pub proof fn lemma_remove_then_with_fresh(
    m0: ChildMap<Value>,
    m1: ChildMap<Value>,
    m2: ChildMap<Value>,
    k: u64,
    child: Value,
)
    requires
        m0.wf(),
        m0.contains_key(k),
        m1.entries@ == m0.entries@.remove(m0.index_of(k)),
        m2.entries@ == m1.entries@.push((Entry { key: k, val: child })),
        child.val == 0,
    ensures
        !m1.contains_key(k),
        m2.contains_key(k),
        m2.value_of(k).val == 0,
{
    lemma_remove_keeps(m0, m1, k);
    lemma_push_keeps(m1, m2, k, child);
}

/// What one flush does to the pair of a local buffered delta and the
/// shared value: the whole delta moves over and the buffer empties.
pub open spec fn flush_model(local: int, shared: int) -> (int, int) {
    (0, shared + local)
}

/// Flushing is idempotent once drained: a second flush right after a
/// first moves a zero delta, so the shared value does not change again.
pub proof fn lemma_flush_idempotent(local: int, shared: int)
    ensures
        flush_model(flush_model(local, shared).0, flush_model(local, shared).1)
            == flush_model(local, shared),
{
}

/// A histogram's exported total also bounds the raw bucket counts as a
/// whole: what the buckets count together never exceeds what was
/// observed in all.
pub proof fn lemma_buckets_within_count(h: HistogramCore)
    requires
        h.wf(),
    ensures
        sum_counts(h.counts@) <= h.count,
        cumulative_count(h.counts@, h.counts@.len() as int) == sum_counts(h.counts@),
{
    assert(h.counts@.subrange(0, h.counts@.len() as int) =~= h.counts@);
    lemma_sum_counts_nonneg(h.counts@);
}

} // verus!
