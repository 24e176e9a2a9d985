use vstd::prelude::*;

verus! {

use crate::desc::{all_label_names, desc_wf, Desc};
use crate::errors::Error;
use crate::labels::{distinct_seqs, pairs_view, sort_pairs, strings_view};
use crate::metrics::{spec_fq_name, Opts};
use crate::proto::{Bucket, LabelPair, MetricFamily};
use crate::value::{make_label_pairs, spec_label_pairs};

/// The label name that carries a bucket's upper bound in the exposition
/// format; no histogram label may use it.
pub fn bucket_label() -> (r: &'static str)
    ensures
        r@ == "le"@,
{
    "le"
}

/// The default bucket ladder, in milliseconds: eleven bounds from five
/// milliseconds to ten seconds, made for response times of a network
/// service.
pub fn default_buckets() -> (r: Vec<i64>)
    ensures
        r@ == spec_default_buckets(),
{
    let mut r: Vec<i64> = Vec::new();
    r.push(5);
    r.push(10);
    r.push(25);
    r.push(50);
    r.push(100);
    r.push(250);
    r.push(500);
    r.push(1000);
    r.push(2500);
    r.push(5000);
    r.push(10000);
    proof {
        assert(r@ =~= spec_default_buckets());
    }
    r
}

/// The default bucket ladder.
pub open spec fn spec_default_buckets() -> Seq<i64> {
    seq![5i64, 10i64, 25i64, 50i64, 100i64, 250i64, 500i64, 1000i64, 2500i64, 5000i64, 10000i64]
}

/// Whether each bound is strictly under the next.
pub open spec fn buckets_increasing(b: Seq<i64>) -> bool {
    forall|i: int| 0 <= i < b.len() - 1 ==> #[trigger] b[i] < b[i + 1]
}

/// An empty list falls back to the default ladder; the largest
/// representable value stands for the unbounded bound, is always
/// implicit, and is dropped from the tail.
pub open spec fn spec_adjusted_buckets(b: Seq<i64>) -> Seq<i64> {
    let base = if b.len() == 0 {
        spec_default_buckets()
    } else {
        b
    };
    if base.len() > 0 && base.last() == i64::MAX {
        base.drop_last()
    } else {
        base
    }
}

/// Whether a bucket list is accepted: empty (the default steps in) or
/// strictly increasing.
pub open spec fn buckets_ok(b: Seq<i64>) -> bool {
    b.len() == 0 || buckets_increasing(b)
}

/// The default ladder is strictly increasing.
pub proof fn lemma_default_buckets_increasing()
    ensures
        buckets_increasing(spec_default_buckets()),
{
    let b = spec_default_buckets();
    assert forall|i: int| 0 <= i < b.len() - 1 implies #[trigger] b[i] < b[i + 1] by {
        if i == 0 {
            assert(b[0] == 5i64 && b[1] == 10i64);
        } else if i == 1 {
            assert(b[1] == 10i64 && b[2] == 25i64);
        } else if i == 2 {
            assert(b[2] == 25i64 && b[3] == 50i64);
        } else if i == 3 {
            assert(b[3] == 50i64 && b[4] == 100i64);
        } else if i == 4 {
            assert(b[4] == 100i64 && b[5] == 250i64);
        } else if i == 5 {
            assert(b[5] == 250i64 && b[6] == 500i64);
        } else if i == 6 {
            assert(b[6] == 500i64 && b[7] == 1000i64);
        } else if i == 7 {
            assert(b[7] == 1000i64 && b[8] == 2500i64);
        } else if i == 8 {
            assert(b[8] == 2500i64 && b[9] == 5000i64);
        } else {
            assert(i == 9);
            assert(b[9] == 5000i64 && b[10] == 10000i64);
        }
    }
}

/// An accepted bucket list comes out of adjustment strictly increasing.
pub proof fn lemma_adjusted_increasing(b: Seq<i64>)
    requires
        buckets_ok(b),
    ensures
        buckets_increasing(spec_adjusted_buckets(b)),
{
    lemma_default_buckets_increasing();
    let base = if b.len() == 0 {
        spec_default_buckets()
    } else {
        b
    };
    assert(buckets_increasing(base));
    let r = spec_adjusted_buckets(b);
    assert forall|i: int| 0 <= i < r.len() - 1 implies #[trigger] r[i] < r[i + 1] by {
        assert(r[i] == base[i]);
        assert(r[i + 1] == base[i + 1]);
        assert(base[i] < base[i + 1]);
    }
}

/// Refuse the reserved bucket label name.
pub fn check_bucket_lable(label: &str) -> (r: Result<(), Error>)
    ensures
        r is Ok <==> label@ != "le"@,
        r matches Err(e) ==> e is Msg,
{
    if crate::text::str_eq(label, bucket_label()) {
        Err(
            Error::Msg(
                String::from_str("`le` is not allowed as label name in histograms"),
            ),
        )
    } else {
        Ok(())
    }
}

/// Validate a bucket list: fall back to the default ladder when it is
/// empty, refuse bounds out of order, and drop the implicit unbounded
/// tail bound.
pub fn check_and_adjust_buckets(buckets: Vec<i64>) -> (r: Result<Vec<i64>, Error>)
    ensures
        r is Ok <==> buckets_ok(buckets@),
        r matches Ok(b) ==> b@ == spec_adjusted_buckets(buckets@),
        r matches Err(e) ==> e is Msg,
{
    let ghost orig = buckets@;
    let mut bs = buckets;
    if bs.len() == 0 {
        bs = default_buckets();
    }
    let ghost base = bs@;
    let mut i: usize = 0;
    while i < bs.len() - 1
        invariant
            0 <= i <= bs@.len(),
            bs@.len() > 0,
            bs@ == base,
            orig == buckets@,
            base == if orig.len() == 0 {
                spec_default_buckets()
            } else {
                orig
            },
            forall|j: int| 0 <= j < i ==> #[trigger] bs@[j] < bs@[j + 1],
        decreases bs@.len() - i,
    {
        if bs[i] >= bs[i + 1] {
            proof {
                lemma_default_buckets_increasing();
                if orig.len() == 0 {
                    assert(base[i as int] < base[i + 1]);
                }
                assert(base == orig);
                if buckets_increasing(orig) {
                    assert(orig[i as int] < orig[i + 1]);
                }
                assert(!buckets_ok(orig));
            }
            return Err(
                Error::Msg(String::from_str("histogram buckets must be in increasing order")),
            );
        }
        i = i + 1;
    }
    proof {
        assert(buckets_increasing(base));
        assert(buckets_ok(orig));
    }
    if bs[bs.len() - 1] == i64::MAX {
        let _ = bs.pop();
        proof {
            assert(bs@ =~= base.drop_last());
            assert(bs@ =~= spec_adjusted_buckets(orig));
        }
    } else {
        proof {
            assert(bs@ =~= spec_adjusted_buckets(orig));
        }
    }
    Ok(bs)
}

/// Evenly spaced bucket bounds: `count` bounds starting at `start`, each
/// `width` over the one before. Refuses a count of zero or a width that
/// is not positive.
pub fn linear_buckets(start: i64, width: i64, count: usize) -> (r: Result<Vec<i64>, Error>)
    requires
        (count >= 1 && width > 0) ==> start + width * ((count - 1) as int) <= i64::MAX,
    ensures
        r is Ok <==> (count >= 1 && width > 0),
        r matches Ok(b) ==> b@.len() == count && (forall|i: int|
            0 <= i < count ==> b@[i] == start + width * i),
        r matches Err(e) ==> e is Msg,
{
    if count < 1 {
        return Err(Error::Msg(String::from_str("linear buckets need a positive count")));
    }
    if width <= 0 {
        return Err(
            Error::Msg(String::from_str("linear buckets need a width greater than zero")),
        );
    }
    let mut buckets: Vec<i64> = Vec::new();
    let mut next = start;
    let mut i: usize = 0;
    while i < count
        invariant
            0 <= i <= count,
            count >= 1,
            width > 0,
            start + width * ((count - 1) as int) <= i64::MAX,
            i < count ==> next == start + width * (i as int),
            i < count ==> next <= i64::MAX,
            buckets@.len() == i,
            forall|j: int| 0 <= j < i ==> buckets@[j] == start + width * j,
        decreases count - i,
    {
        proof {
            vstd::arithmetic::mul::lemma_mul_inequality(i as int, (count - 1) as int, width as int);
            vstd::arithmetic::mul::lemma_mul_is_commutative(i as int, width as int);
            vstd::arithmetic::mul::lemma_mul_is_commutative((count - 1) as int, width as int);
        }
        buckets.push(next);
        i = i + 1;
        if i < count {
            proof {
                vstd::arithmetic::mul::lemma_mul_inequality(
                    i as int,
                    (count - 1) as int,
                    width as int,
                );
                vstd::arithmetic::mul::lemma_mul_is_commutative(i as int, width as int);
                vstd::arithmetic::mul::lemma_mul_is_commutative((count - 1) as int, width as int);
                vstd::arithmetic::mul::lemma_mul_nonnegative(width as int, i - 1 as int);
                assert(width * (i as int) == width * ((i - 1) as int) + width) by (nonlinear_arith);
                vstd::arithmetic::mul::lemma_mul_nonnegative(width as int, i as int);
            }
            next = next + width;
        }
    }
    Ok(buckets)
}

/// Exponentially spaced bucket bounds: `count` bounds starting at
/// `start`, each `factor` times the one before. Refuses a count of zero,
/// a start that is not positive, or a factor at or under one.
pub fn exponential_buckets(start: i64, factor: i64, count: usize) -> (r: Result<Vec<i64>, Error>)
    requires
        (count >= 1 && start > 0 && factor > 1) ==> start * vstd::arithmetic::power::pow(
            factor as int,
            (count - 1) as nat,
        ) <= i64::MAX,
    ensures
        r is Ok <==> (count >= 1 && start > 0 && factor > 1),
        r matches Ok(b) ==> b@.len() == count && (forall|i: int|
            0 <= i < count ==> b@[i] == start * vstd::arithmetic::power::pow(
                factor as int,
                i as nat,
            )),
        r matches Err(e) ==> e is Msg,
{
    if count < 1 {
        return Err(Error::Msg(String::from_str("exponential buckets need a positive count")));
    }
    if start <= 0 {
        return Err(
            Error::Msg(String::from_str("exponential buckets need a positive start value")),
        );
    }
    if factor <= 1 {
        return Err(
            Error::Msg(String::from_str("exponential buckets need a factor greater than one")),
        );
    }
    let mut buckets: Vec<i64> = Vec::new();
    let mut next = start;
    let mut i: usize = 0;
    proof {
        vstd::arithmetic::power::lemma_pow0(factor as int);
    }
    while i < count
        invariant
            0 <= i <= count,
            count >= 1,
            start > 0,
            factor > 1,
            start * vstd::arithmetic::power::pow(factor as int, (count - 1) as nat) <= i64::MAX,
            i < count ==> next == start * vstd::arithmetic::power::pow(factor as int, i as nat),
            next > 0,
            i < count ==> next <= i64::MAX,
            buckets@.len() == i,
            forall|j: int|
                0 <= j < i ==> buckets@[j] == start * vstd::arithmetic::power::pow(
                    factor as int,
                    j as nat,
                ),
        decreases count - i,
    {
        proof {
            lemma_exp_bound(start as int, factor as int, i as nat, (count - 1) as nat);
        }
        buckets.push(next);
        i = i + 1;
        if i < count {
            proof {
                vstd::arithmetic::power::lemma_pow_positive(factor as int, i as nat);
                assert(start * vstd::arithmetic::power::pow(factor as int, i as nat) == (start
                    * vstd::arithmetic::power::pow(factor as int, (i - 1) as nat)) * factor) by {
                    vstd::arithmetic::power::lemma_pow_adds(factor as int, (i - 1) as nat, 1);
                    vstd::arithmetic::power::lemma_pow1(factor as int);
                    assert(((i - 1) as nat) + 1 == i as nat);
                    assert(vstd::arithmetic::power::pow(factor as int, i as nat)
                        == vstd::arithmetic::power::pow(factor as int, (i - 1) as nat) * factor);
                    vstd::arithmetic::mul::lemma_mul_is_commutative(
                        vstd::arithmetic::power::pow(factor as int, (i - 1) as nat),
                        factor as int,
                    );
                    assert(vstd::arithmetic::power::pow(factor as int, i as nat) == factor
                        * vstd::arithmetic::power::pow(factor as int, (i - 1) as nat));
                    vstd::arithmetic::mul::lemma_mul_is_associative(
                        start as int,
                        factor as int,
                        vstd::arithmetic::power::pow(factor as int, (i - 1) as nat),
                    );
                    vstd::arithmetic::mul::lemma_mul_is_commutative(
                        factor as int,
                        vstd::arithmetic::power::pow(factor as int, (i - 1) as nat),
                    );
                    vstd::arithmetic::mul::lemma_mul_is_associative(
                        start as int,
                        vstd::arithmetic::power::pow(factor as int, (i - 1) as nat),
                        factor as int,
                    );
                }
                lemma_exp_bound(start as int, factor as int, i as nat, (count - 1) as nat);
                vstd::arithmetic::mul::lemma_mul_strictly_positive(
                    start as int,
                    vstd::arithmetic::power::pow(factor as int, i as nat),
                );
            }
            next = next * factor;
        }
    }
    Ok(buckets)
}

/// A positive start times a power of the factor never exceeds its value
/// at the last exponent.
proof fn lemma_exp_bound(start: int, factor: int, e: nat, last: nat)
    requires
        start > 0,
        factor > 1,
        e <= last,
    ensures
        start * vstd::arithmetic::power::pow(factor, e) <= start * vstd::arithmetic::power::pow(
            factor,
            last,
        ),
        start * vstd::arithmetic::power::pow(factor, e) > 0,
{
    vstd::arithmetic::power::lemma_pow_increases(factor as nat, e, last);
    vstd::arithmetic::power::lemma_pow_positive(factor, e);
    vstd::arithmetic::power::lemma_pow_positive(factor, last);
    vstd::arithmetic::mul::lemma_mul_inequality(
        vstd::arithmetic::power::pow(factor, e),
        vstd::arithmetic::power::pow(factor, last),
        start,
    );
    vstd::arithmetic::mul::lemma_mul_is_commutative(
        start,
        vstd::arithmetic::power::pow(factor, e),
    );
    vstd::arithmetic::mul::lemma_mul_is_commutative(
        start,
        vstd::arithmetic::power::pow(factor, last),
    );
    vstd::arithmetic::mul::lemma_mul_strictly_positive(
        start,
        vstd::arithmetic::power::pow(factor, e),
    );
}

/// How many counted observations a bucket-count list holds in all.
pub open spec fn sum_counts(s: Seq<u64>) -> int
    decreases s.len(),
{
    if s.len() == 0 {
        0
    } else {
        sum_counts(s.drop_last()) + s.last()
    }
}

/// The bucket an observation falls into: the first bound at or above it,
/// or one past the last bound when only the implicit unbounded bucket
/// takes it.
pub open spec fn bucket_of(bounds: Seq<i64>, v: i64) -> int
    decreases bounds.len(),
{
    if bounds.len() == 0 {
        0
    } else if v <= bounds[0] {
        0
    } else {
        1 + bucket_of(bounds.drop_first(), v)
    }
}

/// The observation count at or under bound `i`: the sum of the first
/// `i + 1` raw bucket counts.
pub open spec fn cumulative_count(s: Seq<u64>, upto: int) -> int {
    sum_counts(s.subrange(0, upto))
}

/// Every element is at most the sum of all.
pub proof fn lemma_count_le_sum(s: Seq<u64>, i: int)
    requires
        0 <= i < s.len(),
    ensures
        s[i] <= sum_counts(s),
    decreases s.len(),
{
    if i == s.len() - 1 {
        lemma_sum_counts_nonneg(s.drop_last());
    } else {
        lemma_count_le_sum(s.drop_last(), i);
        assert(s.drop_last()[i] == s[i]);
    }
}

/// A sum of counts is never negative.
pub proof fn lemma_sum_counts_nonneg(s: Seq<u64>)
    ensures
        sum_counts(s) >= 0,
    decreases s.len(),
{
    if s.len() > 0 {
        lemma_sum_counts_nonneg(s.drop_last());
    }
}

/// Counting one more in one bucket raises the sum by one.
pub proof fn lemma_sum_counts_update(s: Seq<u64>, i: int, v: u64)
    requires
        0 <= i < s.len(),
    ensures
        sum_counts(s.update(i, v)) == sum_counts(s) + v - s[i],
    decreases s.len(),
{
    if i == s.len() - 1 {
        assert(s.update(i, v).drop_last() =~= s.drop_last());
    } else {
        lemma_sum_counts_update(s.drop_last(), i, v);
        assert(s.update(i, v).drop_last() =~= s.drop_last().update(i, v));
        assert(s.update(i, v).last() == s.last());
    }
}

/// A prefix never counts more than the whole.
pub proof fn lemma_prefix_le_sum(s: Seq<u64>, upto: int)
    requires
        0 <= upto <= s.len(),
    ensures
        cumulative_count(s, upto) <= sum_counts(s),
        cumulative_count(s, upto) >= 0,
    decreases s.len() - upto,
{
    if upto == s.len() {
        assert(s.subrange(0, upto) =~= s);
        lemma_sum_counts_nonneg(s);
    } else {
        lemma_prefix_le_sum(s, upto + 1);
        assert(s.subrange(0, upto + 1).drop_last() =~= s.subrange(0, upto));
        lemma_sum_counts_nonneg(s.subrange(0, upto));
    }
}

/// The bucket an observation falls into, as a position: the length of
/// the list when only the implicit unbounded bucket takes it.
pub fn find_bucket(bounds: &Vec<i64>, v: i64) -> (b: usize)
    ensures
        b as int == bucket_of(bounds@, v),
        b <= bounds@.len(),
{
    let mut i: usize = 0;
    while i < bounds.len()
        invariant
            0 <= i <= bounds@.len(),
            forall|j: int| 0 <= j < i ==> v > #[trigger] bounds@[j],
        decreases bounds@.len() - i,
    {
        if v <= bounds[i] {
            proof {
                lemma_bucket_of_at(bounds@, v, i as int);
            }
            return i;
        }
        i = i + 1;
    }
    proof {
        lemma_bucket_of_at(bounds@, v, bounds@.len() as int);
    }
    bounds.len()
}

/// The bucket of an observation is a position in the list, or one past
/// its end for the implicit unbounded bucket.
pub proof fn lemma_bucket_of_nonneg(bounds: Seq<i64>, v: i64)
    ensures
        0 <= bucket_of(bounds, v) <= bounds.len(),
    decreases bounds.len(),
{
    if bounds.len() > 0 && !(v <= bounds[0]) {
        lemma_bucket_of_nonneg(bounds.drop_first(), v);
    }
}

/// The bucket of an observation is the first bound at or above it.
pub proof fn lemma_bucket_of_at(bounds: Seq<i64>, v: i64, i: int)
    requires
        0 <= i <= bounds.len(),
        forall|j: int| 0 <= j < i ==> v > #[trigger] bounds[j],
        i < bounds.len() ==> v <= bounds[i],
    ensures
        bucket_of(bounds, v) == i,
    decreases i,
{
    if bounds.len() > 0 && i > 0 {
        lemma_bucket_of_at(bounds.drop_first(), v, i - 1);
    }
}

/// The working state of one histogram: one count per bucket bound, the
/// total count, and the sum of everything observed.
#[derive(Debug)]
pub struct HistogramCore {
    pub desc: Desc,
    pub label_pairs: Vec<LabelPair>,
    pub sum: i64,
    pub count: u64,
    pub upper_bounds: Vec<i64>,
    pub counts: Vec<u64>,
}

impl HistogramCore {
    /// What every histogram maintains: one count per bound, bounds in
    /// strictly increasing order, and no more counted in the buckets
    /// together than observed in all (observations over the last bound
    /// count only toward the total).
    pub open spec fn wf(self) -> bool {
        &&& self.counts@.len() == self.upper_bounds@.len()
        &&& buckets_increasing(self.upper_bounds@)
        &&& sum_counts(self.counts@) <= self.count
    }

    /// Whether two histogram states are the same metric with the same
    /// numbers.
    pub open spec fn same_meta(a: HistogramCore, b: HistogramCore) -> bool {
        &&& a.desc == b.desc
        &&& a.label_pairs == b.label_pairs
        &&& a.upper_bounds == b.upper_bounds
    }

    /// Build a histogram's state: validate the descriptor, refuse the
    /// reserved label name, resolve the label pairs, and validate the
    /// bucket list.
    pub fn new(opts: &HistogramOpts, label_values: &Vec<String>) -> (r: Result<
        HistogramCore,
        Error,
    >)
        ensures
            r is Ok <==> (histogram_opts_ok(*opts) && opts.common_opts.variable_labels@.len()
                == label_values@.len()),
            (histogram_opts_ok(*opts) && opts.common_opts.variable_labels@.len()
                != label_values@.len()) ==> (r matches Err(
                Error::InconsistentCardinality { expect, got },
            ) && expect == opts.common_opts.variable_labels@.len() && got
                == label_values@.len()),
            r matches Ok(h) ==> {
                &&& h.wf()
                &&& h.sum == 0
                &&& h.count == 0
                &&& h.upper_bounds@ == spec_adjusted_buckets(opts.buckets@)
                &&& h.counts@.len() == spec_adjusted_buckets(opts.buckets@).len()
                &&& forall|i: int| 0 <= i < h.counts@.len() ==> h.counts@[i] == 0
                &&& desc_wf(h.desc)
                &&& h.desc.fq_name@ == spec_fq_name(
                    opts.common_opts.namespace@,
                    opts.common_opts.subsystem@,
                    opts.common_opts.name@,
                )
                &&& h.desc.help == opts.common_opts.help
                &&& h.desc.variable_labels@ == opts.common_opts.variable_labels@
                &&& pairs_view(h.label_pairs@) == spec_label_pairs(
                    strings_view(opts.common_opts.variable_labels@),
                    strings_view(label_values@),
                    sort_pairs(pairs_view(opts.common_opts.const_labels@)),
                )
            },
    {
        let mut i: usize = 0;
        while i < opts.common_opts.variable_labels.len()
            invariant
                0 <= i <= opts.common_opts.variable_labels@.len(),
                forall|j: int|
                    0 <= j < i ==> strings_view(opts.common_opts.variable_labels@)[j] != "le"@,
            decreases opts.common_opts.variable_labels@.len() - i,
        {
            match check_bucket_lable(opts.common_opts.variable_labels[i].as_str()) {
                Ok(_) => {},
                Err(e) => {
                    proof {
                        assert(strings_view(opts.common_opts.variable_labels@)[i as int]
                            == opts.common_opts.variable_labels@[i as int]@);
                    }
                    return Err(e);
                },
            }
            proof {
                assert(strings_view(opts.common_opts.variable_labels@)[i as int]
                    == opts.common_opts.variable_labels@[i as int]@);
            }
            i = i + 1;
        }
        let mut j: usize = 0;
        while j < opts.common_opts.const_labels.len()
            invariant
                0 <= j <= opts.common_opts.const_labels@.len(),
                forall|x: int|
                    0 <= x < j ==> pairs_view(opts.common_opts.const_labels@)[x].0 != "le"@,
            decreases opts.common_opts.const_labels@.len() - j,
        {
            match check_bucket_lable(opts.common_opts.const_labels[j].name.as_str()) {
                Ok(_) => {},
                Err(e) => {
                    proof {
                        assert(pairs_view(opts.common_opts.const_labels@)[j as int] == (
                            opts.common_opts.const_labels@[j as int].name@,
                            opts.common_opts.const_labels@[j as int].value@,
                        ));
                    }
                    return Err(e);
                },
            }
            proof {
                assert(pairs_view(opts.common_opts.const_labels@)[j as int] == (
                    opts.common_opts.const_labels@[j as int].name@,
                    opts.common_opts.const_labels@[j as int].value@,
                ));
            }
            j = j + 1;
        }
        let desc = match opts.common_opts.describe() {
            Ok(d) => d,
            Err(e) => {
                return Err(e);
            },
        };
        if desc.variable_labels.len() != label_values.len() {
            return Err(
                Error::InconsistentCardinality {
                    expect: desc.variable_labels.len(),
                    got: label_values.len(),
                },
            );
        }
        let label_pairs = make_label_pairs(&desc, label_values);
        let buckets = match check_and_adjust_buckets(crate::labels::clone_i64_vec(&opts.buckets)) {
            Ok(b) => b,
            Err(e) => {
                return Err(e);
            },
        };
        let mut counts: Vec<u64> = Vec::new();
        let mut c: usize = 0;
        let n = buckets.len();
        while c < n
            invariant
                0 <= c <= n,
                counts@.len() == c,
                forall|x: int| 0 <= x < c ==> counts@[x] == 0,
            decreases n - c,
        {
            counts.push(0);
            c = c + 1;
        }
        proof {
            lemma_zero_counts(counts@);
            lemma_adjusted_increasing(opts.buckets@);
        }
        Ok(
            HistogramCore {
                desc,
                label_pairs,
                sum: 0,
                count: 0,
                upper_bounds: buckets,
                counts,
            },
        )
    }

    /// Observe one value: raise the total count by one, add the value to
    /// the sum, and count the value in the first bucket whose bound is at
    /// or above it — in no bucket when only the implicit unbounded bucket
    /// takes it.
    pub fn observe(&mut self, v: i64)
        requires
            old(self).wf(),
            old(self).count < u64::MAX,
            i64::MIN <= old(self).sum + v <= i64::MAX,
        ensures
            final(self).wf(),
            HistogramCore::same_meta(*final(self), *old(self)),
            final(self).count == old(self).count + 1,
            final(self).sum == old(self).sum + v,
            ({
                let b = bucket_of(old(self).upper_bounds@, v);
                if b < old(self).upper_bounds@.len() {
                    final(self).counts@ == old(self).counts@.update(
                        b,
                        (old(self).counts@[b] + 1) as u64,
                    )
                } else {
                    final(self).counts@ == old(self).counts@
                }
            }),
    {
        let n = self.upper_bounds.len();
        let hit = find_bucket(&self.upper_bounds, v);
        if hit < n {
            proof {
                lemma_count_le_sum(self.counts@, hit as int);
            }
            let cur = self.counts[hit];
            self.counts.set(hit, cur + 1);
            proof {
                lemma_sum_counts_update(old(self).counts@, hit as int, (cur + 1) as u64);
            }
        }
        self.count = self.count + 1;
        self.sum = self.sum + v;
    }

    /// The exported state: total count, total sum, and one cumulative
    /// bucket per bound, each counting everything at or under its bound.
    pub fn proto(&self) -> (h: crate::proto::Histogram)
        requires
            self.wf(),
        ensures
            h.sample_count == self.count,
            h.sample_sum == self.sum,
            h.bucket@.len() == self.upper_bounds@.len(),
            forall|i: int|
                0 <= i < h.bucket@.len() ==> (#[trigger] h.bucket@[i]).upper_bound
                    == self.upper_bounds@[i] && h.bucket@[i].cumulative_count == cumulative_count(
                    self.counts@,
                    i + 1,
                ),
    {
        let mut h = crate::proto::Histogram::new();
        h.set_sample_sum(self.sum);
        h.set_sample_count(self.count);
        let n = self.upper_bounds.len();
        let mut count: u64 = 0;
        let mut buckets: Vec<Bucket> = Vec::new();
        let mut i: usize = 0;
        proof {
            assert(self.counts@.subrange(0, 0) =~= Seq::<u64>::empty());
        }
        while i < n
            invariant
                self.wf(),
                0 <= i <= n,
                n == self.upper_bounds@.len(),
                count == cumulative_count(self.counts@, i as int),
                buckets@.len() == i,
                forall|j: int|
                    0 <= j < i ==> (#[trigger] buckets@[j]).upper_bound == self.upper_bounds@[j]
                        && buckets@[j].cumulative_count == cumulative_count(self.counts@, j + 1),
            decreases n - i,
        {
            proof {
                lemma_prefix_le_sum(self.counts@, i + 1);
                assert(self.counts@.subrange(0, i + 1 as int).drop_last() =~= self.counts@.subrange(
                    0,
                    i as int,
                ));
            }
            count = count + self.counts[i];
            let mut b = Bucket::new();
            b.set_cumulative_count(count);
            b.set_upper_bound(self.upper_bounds[i]);
            buckets.push(b);
            i = i + 1;
        }
        h.set_bucket(buckets);
        h
    }
}

/// Whether histogram options build a histogram: a valid descriptor, no
/// label named after the reserved bucket label, and an accepted bucket
/// list.
pub open spec fn histogram_opts_ok(opts: HistogramOpts) -> bool {
    &&& spec_fq_name(
        opts.common_opts.namespace@,
        opts.common_opts.subsystem@,
        opts.common_opts.name@,
    ).len() > 0
    &&& distinct_seqs(
        all_label_names(
            pairs_view(opts.common_opts.const_labels@),
            strings_view(opts.common_opts.variable_labels@),
        ),
    )
    &&& forall|i: int|
        0 <= i < opts.common_opts.variable_labels@.len() ==> strings_view(
            opts.common_opts.variable_labels@,
        )[i] != "le"@
    &&& forall|i: int|
        0 <= i < opts.common_opts.const_labels@.len() ==> pairs_view(
            opts.common_opts.const_labels@,
        )[i].0 != "le"@
    &&& buckets_ok(opts.buckets@)
}

/// The options of a histogram: the common descriptor options plus the
/// bucket bounds, each the inclusive upper bound of one bucket, in
/// strictly increasing order.
#[derive(Debug)]
pub struct HistogramOpts {
    pub common_opts: Opts,
    pub buckets: Vec<i64>,
}

impl HistogramOpts {
    /// Histogram options with the given name and help and the default
    /// bucket ladder.
    pub fn new(name: &str, help: &str) -> (r: HistogramOpts)
        ensures
            r.common_opts.namespace@ == Seq::<char>::empty(),
            r.common_opts.subsystem@ == Seq::<char>::empty(),
            r.common_opts.name@ == name@,
            r.common_opts.help@ == help@,
            r.common_opts.const_labels@ == Seq::<LabelPair>::empty(),
            r.common_opts.variable_labels@ == Seq::<String>::empty(),
            r.buckets@ == spec_default_buckets(),
    {
        HistogramOpts { common_opts: Opts::new(name, help), buckets: default_buckets() }
    }

    /// Histogram options over the given common options, with the default
    /// bucket ladder.
    pub fn from_opts(opts: Opts) -> (r: HistogramOpts)
        ensures
            r.common_opts == opts,
            r.buckets@ == spec_default_buckets(),
    {
        HistogramOpts { common_opts: opts, buckets: default_buckets() }
    }

    /// Set the namespace.
    pub fn namespace(self, namespace: &str) -> (r: Self)
        ensures
            r.common_opts.namespace@ == namespace@,
            r.common_opts.subsystem == self.common_opts.subsystem,
            r.common_opts.name == self.common_opts.name,
            r.common_opts.help == self.common_opts.help,
            r.common_opts.const_labels@ == self.common_opts.const_labels@,
            r.common_opts.variable_labels@ == self.common_opts.variable_labels@,
            r.buckets@ == self.buckets@,
    {
        HistogramOpts { common_opts: self.common_opts.namespace(namespace), buckets: self.buckets }
    }

    /// Set the subsystem.
    pub fn subsystem(self, subsystem: &str) -> (r: Self)
        ensures
            r.common_opts.subsystem@ == subsystem@,
            r.common_opts.namespace == self.common_opts.namespace,
            r.common_opts.name == self.common_opts.name,
            r.common_opts.help == self.common_opts.help,
            r.common_opts.const_labels@ == self.common_opts.const_labels@,
            r.common_opts.variable_labels@ == self.common_opts.variable_labels@,
            r.buckets@ == self.buckets@,
    {
        HistogramOpts { common_opts: self.common_opts.subsystem(subsystem), buckets: self.buckets }
    }

    /// Replace the constant labels.
    pub fn const_labels(self, const_labels: Vec<LabelPair>) -> (r: Self)
        ensures
            r.common_opts.const_labels@ == const_labels@,
            r.common_opts.namespace == self.common_opts.namespace,
            r.common_opts.subsystem == self.common_opts.subsystem,
            r.common_opts.name == self.common_opts.name,
            r.common_opts.help == self.common_opts.help,
            r.common_opts.variable_labels@ == self.common_opts.variable_labels@,
            r.buckets@ == self.buckets@,
    {
        HistogramOpts {
            common_opts: self.common_opts.const_labels(const_labels),
            buckets: self.buckets,
        }
    }

    /// Add one constant label; a second value for the same name replaces
    /// the first.
    pub fn const_label(self, name: &str, value: &str) -> (r: Self)
        ensures
            pairs_view(r.common_opts.const_labels@) == crate::labels::upsert_pair(
                pairs_view(self.common_opts.const_labels@),
                name@,
                value@,
            ),
            r.common_opts.namespace == self.common_opts.namespace,
            r.common_opts.subsystem == self.common_opts.subsystem,
            r.common_opts.name == self.common_opts.name,
            r.common_opts.help == self.common_opts.help,
            r.common_opts.variable_labels@ == self.common_opts.variable_labels@,
            r.buckets@ == self.buckets@,
    {
        HistogramOpts {
            common_opts: self.common_opts.const_label(name, value),
            buckets: self.buckets,
        }
    }

    /// Replace the variable label names.
    pub fn variable_labels(self, variable_labels: Vec<String>) -> (r: Self)
        ensures
            r.common_opts.variable_labels@ == variable_labels@,
            r.common_opts.namespace == self.common_opts.namespace,
            r.common_opts.subsystem == self.common_opts.subsystem,
            r.common_opts.name == self.common_opts.name,
            r.common_opts.help == self.common_opts.help,
            r.common_opts.const_labels@ == self.common_opts.const_labels@,
            r.buckets@ == self.buckets@,
    {
        HistogramOpts {
            common_opts: self.common_opts.variable_labels(variable_labels),
            buckets: self.buckets,
        }
    }

    /// Add one variable label name.
    pub fn variable_label(self, name: &str) -> (r: Self)
        ensures
            strings_view(r.common_opts.variable_labels@) == strings_view(
                self.common_opts.variable_labels@,
            ).push(name@),
            r.common_opts.namespace == self.common_opts.namespace,
            r.common_opts.subsystem == self.common_opts.subsystem,
            r.common_opts.name == self.common_opts.name,
            r.common_opts.help == self.common_opts.help,
            r.common_opts.const_labels@ == self.common_opts.const_labels@,
            r.buckets@ == self.buckets@,
    {
        HistogramOpts {
            common_opts: self.common_opts.variable_label(name),
            buckets: self.buckets,
        }
    }

    /// The fully-qualified name built from namespace, subsystem and name.
    pub fn fq_name(&self) -> (r: String)
        ensures
            r@ == spec_fq_name(
                self.common_opts.namespace@,
                self.common_opts.subsystem@,
                self.common_opts.name@,
            ),
    {
        self.common_opts.fq_name()
    }

    /// Replace the bucket bounds.
    pub fn buckets(self, buckets: Vec<i64>) -> (r: Self)
        ensures
            r.buckets@ == buckets@,
            r.common_opts == self.common_opts,
    {
        HistogramOpts { common_opts: self.common_opts, buckets }
    }
}

/// A histogram: counts observations into configurable buckets and keeps
/// their total count and sum.
#[derive(Debug)]
pub struct Histogram {
    pub core: HistogramCore,
}

impl Histogram {
    /// A histogram described and bucketed by the given options.
    pub fn with_opts(opts: HistogramOpts) -> (r: Result<Histogram, Error>)
        ensures
            r is Ok <==> (histogram_opts_ok(opts) && opts.common_opts.variable_labels@.len()
                == 0),
            r matches Ok(h) ==> h.core.wf() && h.core.sum == 0 && h.core.count == 0
                && h.core.upper_bounds@ == spec_adjusted_buckets(opts.buckets@),
            (histogram_opts_ok(opts) && opts.common_opts.variable_labels@.len() != 0) ==> (
            r matches Err(Error::InconsistentCardinality { expect, got }) && expect
                == opts.common_opts.variable_labels@.len() && got == 0),
    {
        let no_vals: Vec<String> = Vec::new();
        Self::with_opts_and_label_values(&opts, &no_vals)
    }

    fn with_opts_and_label_values(opts: &HistogramOpts, label_values: &Vec<String>) -> (r: Result<
        Histogram,
        Error,
    >)
        ensures
            r is Ok <==> (histogram_opts_ok(*opts) && opts.common_opts.variable_labels@.len()
                == label_values@.len()),
            (histogram_opts_ok(*opts) && opts.common_opts.variable_labels@.len()
                != label_values@.len()) ==> (r matches Err(
                Error::InconsistentCardinality { expect, got },
            ) && expect == opts.common_opts.variable_labels@.len() && got
                == label_values@.len()),
            r matches Ok(h) ==> h.core.wf() && h.core.sum == 0 && h.core.count == 0
                && h.core.upper_bounds@ == spec_adjusted_buckets(opts.buckets@) && pairs_view(
                h.core.label_pairs@,
            ) == spec_label_pairs(
                strings_view(opts.common_opts.variable_labels@),
                strings_view(label_values@),
                sort_pairs(pairs_view(opts.common_opts.const_labels@)),
            ) && desc_wf(h.core.desc) && h.core.desc.fq_name@ == spec_fq_name(
                opts.common_opts.namespace@,
                opts.common_opts.subsystem@,
                opts.common_opts.name@,
            ) && h.core.desc.help == opts.common_opts.help,
    {
        match HistogramCore::new(opts, label_values) {
            Ok(core) => Ok(Histogram { core }),
            Err(e) => Err(e),
        }
    }

    /// Observe one value.
    pub fn observe(&mut self, v: i64)
        requires
            old(self).core.wf(),
            old(self).core.count < u64::MAX,
            i64::MIN <= old(self).core.sum + v <= i64::MAX,
        ensures
            final(self).core.wf(),
            HistogramCore::same_meta(final(self).core, old(self).core),
            final(self).core.count == old(self).core.count + 1,
            final(self).core.sum == old(self).core.sum + v,
            ({
                let b = bucket_of(old(self).core.upper_bounds@, v);
                if b < old(self).core.upper_bounds@.len() {
                    final(self).core.counts@ == old(self).core.counts@.update(
                        b,
                        (old(self).core.counts@[b] + 1) as u64,
                    )
                } else {
                    final(self).core.counts@ == old(self).core.counts@
                }
            }),
    {
        self.core.observe(v);
    }

    /// Observe one value if the totals still have room; report whether it
    /// was counted. The count and sum of a histogram are bounded by their
    /// machine words, so an observation that would run over is refused
    /// rather than wrapped.
    pub fn try_observe(&mut self, v: i64) -> (ok: bool)
        requires
            old(self).core.wf(),
        ensures
            final(self).core.wf(),
            ok == (old(self).core.count < u64::MAX && i64::MIN <= old(self).core.sum + v
                <= i64::MAX),
            ok ==> HistogramCore::same_meta(final(self).core, old(self).core) && final(self).core.count == old(self).core.count + 1 && final(self).core.sum == old(self).core.sum
                + v,
            ok ==> ({
                let b = bucket_of(old(self).core.upper_bounds@, v);
                if b < old(self).core.upper_bounds@.len() {
                    final(self).core.counts@ == old(self).core.counts@.update(
                        b,
                        (old(self).core.counts@[b] + 1) as u64,
                    )
                } else {
                    final(self).core.counts@ == old(self).core.counts@
                }
            }),
            !ok ==> *final(self) == *old(self),
    {
        if self.core.count < u64::MAX && ((v >= 0 && self.core.sum <= i64::MAX - v) || (v < 0
            && self.core.sum >= i64::MIN - v)) {
            self.core.observe(v);
            true
        } else {
            false
        }
    }

    /// The exported sample of this histogram.
    pub fn metric(&self) -> (m: crate::proto::Metric)
        requires
            self.core.wf(),
        ensures
            m.label@ == self.core.label_pairs@,
            m.histogram is Some,
            m.histogram->Some_0.sample_count == self.core.count,
            m.histogram->Some_0.sample_sum == self.core.sum,
            m.histogram->Some_0.bucket@.len() == self.core.upper_bounds@.len(),
            forall|i: int|
                0 <= i < m.histogram->Some_0.bucket@.len() ==> (
                #[trigger] m.histogram->Some_0.bucket@[i]).upper_bound
                    == self.core.upper_bounds@[i]
                    && m.histogram->Some_0.bucket@[i].cumulative_count == cumulative_count(
                    self.core.counts@,
                    i + 1,
                ),
    {
        let mut m = crate::proto::Metric::new();
        m.set_label(crate::labels::clone_pairs(&self.core.label_pairs));
        m.set_histogram(self.core.proto());
        m
    }

    /// A snapshot of this histogram as one family with one sample.
    pub fn collect(&self) -> (r: Vec<MetricFamily>)
        requires
            self.core.wf(),
        ensures
            r@.len() == 1,
            r@[0].name == self.core.desc.fq_name,
            r@[0].help == self.core.desc.help,
            r@[0].field_type == crate::proto::MetricType::HISTOGRAM,
            r@[0].metric@.len() == 1,
            r@[0].metric@[0].label@ == self.core.label_pairs@,
            r@[0].metric@[0].histogram is Some,
            r@[0].metric@[0].histogram->Some_0.sample_count == self.core.count,
            r@[0].metric@[0].histogram->Some_0.sample_sum == self.core.sum,
    {
        let mut f = MetricFamily::new();
        f.set_name(self.core.desc.fq_name.clone());
        f.set_help(self.core.desc.help.clone());
        f.set_field_type(crate::proto::MetricType::HISTOGRAM);
        let mut ms: Vec<crate::proto::Metric> = Vec::new();
        ms.push(self.metric());
        f.set_metric(ms);
        let mut r: Vec<MetricFamily> = Vec::new();
        r.push(f);
        r
    }

    /// The descriptors of this collector: exactly its own.
    pub fn desc(&self) -> (r: Vec<Desc>)
        ensures
            r@.len() == 1,
            crate::desc::desc_eq(r@[0], self.core.desc),
    {
        let mut r: Vec<Desc> = Vec::new();
        r.push(self.core.desc.clone());
        r
    }

    /// A thread-local buffer for this histogram, starting empty, with one
    /// local count per bucket.
    pub fn local(&self) -> (r: LocalHistogram)
        requires
            self.core.wf(),
        ensures
            r.core.upper_bounds@ == self.core.upper_bounds@,
            r.core.wf(),
            r.core.is_clear(),
    {
        LocalHistogram { core: LocalHistogramCore::new(self) }
    }
}

impl crate::metrics::Collector for Histogram {
    fn desc(&self) -> Vec<Desc> {
        Histogram::desc(self)
    }

    fn collect(&self) -> Vec<MetricFamily> {
        let mut f = MetricFamily::new();
        f.set_name(self.core.desc.fq_name.clone());
        f.set_help(self.core.desc.help.clone());
        f.set_field_type(crate::proto::MetricType::HISTOGRAM);
        let mut m = crate::proto::Metric::new();
        m.set_label(crate::labels::clone_pairs(&self.core.label_pairs));
        let mut h = crate::proto::Histogram::new();
        h.set_sample_sum(self.core.sum);
        h.set_sample_count(self.core.count);
        m.set_histogram(h);
        let mut ms: Vec<crate::proto::Metric> = Vec::new();
        ms.push(m);
        f.set_metric(ms);
        let mut r: Vec<MetricFamily> = Vec::new();
        r.push(f);
        r
    }
}

/// A list of zero counts sums to zero.
pub proof fn lemma_zero_counts(s: Seq<u64>)
    requires
        forall|i: int| 0 <= i < s.len() ==> s[i] == 0,
    ensures
        sum_counts(s) == 0,
    decreases s.len(),
{
    if s.len() > 0 {
        lemma_zero_counts(s.drop_last());
    }
}

/// Adding two count lists member by member adds their sums.
pub proof fn lemma_sum_pointwise(a: Seq<u64>, b: Seq<u64>, c: Seq<u64>)
    requires
        a.len() == b.len(),
        c.len() == a.len(),
        forall|j: int| 0 <= j < c.len() ==> c[j] == a[j] + b[j],
    ensures
        sum_counts(c) == sum_counts(a) + sum_counts(b),
    decreases c.len(),
{
    if c.len() > 0 {
        lemma_sum_pointwise(a.drop_last(), b.drop_last(), c.drop_last());
        assert(c.last() == a.last() + b.last());
    }
}

impl HistogramCore {
    /// Merge a buffered state into this one: add the total count, the
    /// sum, and each bucket's count.
    pub fn merge(&mut self, counts: &Vec<u64>, count: u64, sum: i64)
        requires
            old(self).wf(),
            counts@.len() == old(self).counts@.len(),
            sum_counts(counts@) <= count,
            old(self).count + count <= u64::MAX,
            i64::MIN <= old(self).sum + sum <= i64::MAX,
        ensures
            final(self).wf(),
            HistogramCore::same_meta(*final(self), *old(self)),
            final(self).count == old(self).count + count,
            final(self).sum == old(self).sum + sum,
            final(self).counts@.len() == old(self).counts@.len(),
            forall|j: int|
                0 <= j < old(self).counts@.len() ==> final(self).counts@[j] == old(self).counts@[j] + counts@[j],
    {
        let n = self.counts.len();
        let mut i: usize = 0;
        while i < n
            invariant
                0 <= i <= n,
                n == self.counts@.len(),
                old(self).counts@.len() == n,
                counts@.len() == n,
                self.upper_bounds == old(self).upper_bounds,
                self.desc == old(self).desc,
                self.label_pairs == old(self).label_pairs,
                self.count == old(self).count,
                self.sum == old(self).sum,
                sum_counts(old(self).counts@) <= old(self).count,
                sum_counts(counts@) <= count,
                old(self).count + count <= u64::MAX,
                forall|j: int|
                    0 <= j < i ==> #[trigger] self.counts@[j] == old(self).counts@[j]
                        + counts@[j],
                forall|j: int| i <= j < n ==> #[trigger] self.counts@[j] == old(self).counts@[j],
            decreases n - i,
        {
            proof {
                lemma_count_le_sum(old(self).counts@, i as int);
                lemma_count_le_sum(counts@, i as int);
                lemma_sum_counts_nonneg(old(self).counts@);
                lemma_sum_counts_nonneg(counts@);
            }
            let cur = self.counts[i];
            self.counts.set(i, cur + counts[i]);
            i = i + 1;
        }
        self.count = self.count + count;
        self.sum = self.sum + sum;
        proof {
            lemma_sum_pointwise(old(self).counts@, counts@, self.counts@);
        }
    }
}

/// A thread-confined buffer for one histogram: its own copy of the bucket
/// bounds, local bucket counts, a local total and a local sum, all plain
/// numbers, merged into the shared histogram on flush.
#[derive(Debug)]
pub struct LocalHistogramCore {
    pub upper_bounds: Vec<i64>,
    pub counts: Vec<u64>,
    pub count: u64,
    pub sum: i64,
}

impl LocalHistogramCore {
    /// What the buffer maintains: one local count per bound, and no more
    /// counted in the buckets together than observed in all.
    pub open spec fn wf(self) -> bool {
        &&& self.counts@.len() == self.upper_bounds@.len()
        &&& sum_counts(self.counts@) <= self.count
        &&& (self.count == 0 ==> self.sum == 0)
    }

    /// Whether the buffer is empty: nothing observed since the last
    /// flush or clear.
    pub open spec fn is_clear(self) -> bool {
        &&& self.count == 0
        &&& self.sum == 0
        &&& forall|i: int| 0 <= i < self.counts@.len() ==> self.counts@[i] == 0
    }

    /// An empty buffer over the given bucket bounds.
    pub fn new_from_bounds(bounds: &Vec<i64>) -> (r: LocalHistogramCore)
        ensures
            r.upper_bounds@ == bounds@,
            r.wf(),
            r.is_clear(),
    {
        let n = bounds.len();
        let mut counts: Vec<u64> = Vec::new();
        let mut i: usize = 0;
        while i < n
            invariant
                0 <= i <= n,
                counts@.len() == i,
                forall|x: int| 0 <= x < i ==> counts@[x] == 0,
            decreases n - i,
        {
            counts.push(0);
            i = i + 1;
        }
        proof {
            lemma_zero_counts(counts@);
        }
        LocalHistogramCore {
            upper_bounds: crate::labels::clone_i64_vec(bounds),
            counts,
            count: 0,
            sum: 0,
        }
    }

    /// An empty buffer sized to the histogram's buckets.
    pub fn new(histogram: &Histogram) -> (r: LocalHistogramCore)
        ensures
            r.upper_bounds@ == histogram.core.upper_bounds@,
            r.wf(),
            r.is_clear(),
    {
        Self::new_from_bounds(&histogram.core.upper_bounds)
    }

    /// Observe one value into the buffer, without any synchronization.
    pub fn observe(&mut self, v: i64)
        requires
            old(self).wf(),
            old(self).count < u64::MAX,
            i64::MIN <= old(self).sum + v <= i64::MAX,
        ensures
            final(self).wf(),
            final(self).upper_bounds == old(self).upper_bounds,
            final(self).count == old(self).count + 1,
            final(self).sum == old(self).sum + v,
            ({
                let b = bucket_of(old(self).upper_bounds@, v);
                if b < old(self).upper_bounds@.len() {
                    final(self).counts@ == old(self).counts@.update(
                        b,
                        (old(self).counts@[b] + 1) as u64,
                    )
                } else {
                    final(self).counts@ == old(self).counts@
                }
            }),
    {
        let n = self.upper_bounds.len();
        let hit = find_bucket(&self.upper_bounds, v);
        if hit < n {
            proof {
                lemma_count_le_sum(self.counts@, hit as int);
            }
            let cur = self.counts[hit];
            self.counts.set(hit, cur + 1);
            proof {
                lemma_sum_counts_update(old(self).counts@, hit as int, (cur + 1) as u64);
            }
        }
        self.count = self.count + 1;
        self.sum = self.sum + v;
    }

    /// Throw the buffered observations away without publishing them.
    pub fn clear(&mut self)
        ensures
            final(self).upper_bounds == old(self).upper_bounds,
            final(self).counts@.len() == old(self).counts@.len(),
            final(self).wf() == (final(self).counts@.len() == final(self).upper_bounds@.len()),
            final(self).is_clear(),
    {
        let n = self.counts.len();
        let mut i: usize = 0;
        while i < n
            invariant
                0 <= i <= n,
                n == self.counts@.len(),
                self.upper_bounds == old(self).upper_bounds,
                self.count == old(self).count,
                self.sum == old(self).sum,
                forall|x: int| 0 <= x < i ==> self.counts@[x] == 0,
            decreases n - i,
        {
            self.counts.set(i, 0);
            i = i + 1;
        }
        self.count = 0;
        self.sum = 0;
        proof {
            lemma_zero_counts(self.counts@);
        }
    }

    /// Drain the buffer into the shared histogram: add the bucket counts,
    /// the total count and the sum, then reset the buffer. Flushing an
    /// empty buffer leaves the histogram untouched.
    pub fn flush(&mut self, h: &mut Histogram)
        requires
            old(self).wf(),
            old(h).core.wf(),
            old(self).upper_bounds@ == old(h).core.upper_bounds@,
            old(h).core.count + old(self).count <= u64::MAX,
            i64::MIN <= old(h).core.sum + old(self).sum <= i64::MAX,
        ensures
            final(self).wf(),
            final(self).upper_bounds == old(self).upper_bounds,
            final(self).is_clear(),
            final(h).core.wf(),
            HistogramCore::same_meta(final(h).core, old(h).core),
            final(h).core.count == old(h).core.count + old(self).count,
            final(h).core.sum == old(h).core.sum + old(self).sum,
            forall|j: int|
                0 <= j < old(h).core.counts@.len() ==> final(h).core.counts@[j] == old(h).core.counts@[j] + old(self).counts@[j],
    {
        if self.count == 0 {
            proof {
                lemma_sum_counts_nonneg(self.counts@);
                assert forall|i: int| 0 <= i < self.counts@.len() implies self.counts@[i]
                    == 0 by {
                    lemma_count_le_sum(self.counts@, i);
                }
            }
            self.clear();
            return ;
        }
        h.core.merge(&self.counts, self.count, self.sum);
        self.clear();
    }
}

/// An unsynchronized histogram buffer, observed like the histogram it
/// mirrors and flushed into it.
#[derive(Debug)]
pub struct LocalHistogram {
    pub core: LocalHistogramCore,
}

impl LocalHistogram {
    /// Observe one value into the buffer.
    pub fn observe(&mut self, v: i64)
        requires
            old(self).core.wf(),
            old(self).core.count < u64::MAX,
            i64::MIN <= old(self).core.sum + v <= i64::MAX,
        ensures
            final(self).core.wf(),
            final(self).core.upper_bounds == old(self).core.upper_bounds,
            final(self).core.count == old(self).core.count + 1,
            final(self).core.sum == old(self).core.sum + v,
            ({
                let b = bucket_of(old(self).core.upper_bounds@, v);
                if b < old(self).core.upper_bounds@.len() {
                    final(self).core.counts@ == old(self).core.counts@.update(
                        b,
                        (old(self).core.counts@[b] + 1) as u64,
                    )
                } else {
                    final(self).core.counts@ == old(self).core.counts@
                }
            }),
    {
        self.core.observe(v);
    }

    /// Observe one value if the buffer still has room; report whether it
    /// was counted.
    pub fn try_observe(&mut self, v: i64) -> (ok: bool)
        requires
            old(self).core.wf(),
        ensures
            final(self).core.wf(),
            final(self).core.upper_bounds == old(self).core.upper_bounds,
            ok == (old(self).core.count < u64::MAX && i64::MIN <= old(self).core.sum + v
                <= i64::MAX),
            ok ==> final(self).core.count == old(self).core.count + 1 && final(self).core.sum
                == old(self).core.sum + v,
            ok ==> ({
                let b = bucket_of(old(self).core.upper_bounds@, v);
                if b < old(self).core.upper_bounds@.len() {
                    final(self).core.counts@ == old(self).core.counts@.update(
                        b,
                        (old(self).core.counts@[b] + 1) as u64,
                    )
                } else {
                    final(self).core.counts@ == old(self).core.counts@
                }
            }),
            !ok ==> *final(self) == *old(self),
    {
        if self.core.count < u64::MAX && ((v >= 0 && self.core.sum <= i64::MAX - v) || (v < 0
            && self.core.sum >= i64::MIN - v)) {
            self.core.observe(v);
            true
        } else {
            false
        }
    }

    /// Throw the buffered observations away without publishing them.
    pub fn clear(&mut self)
        ensures
            final(self).core.upper_bounds == old(self).core.upper_bounds,
            final(self).core.counts@.len() == old(self).core.counts@.len(),
            final(self).core.is_clear(),
    {
        self.core.clear();
    }

    /// Drain the buffer into the shared histogram.
    pub fn flush(&mut self, h: &mut Histogram)
        requires
            old(self).core.wf(),
            old(h).core.wf(),
            old(self).core.upper_bounds@ == old(h).core.upper_bounds@,
            old(h).core.count + old(self).core.count <= u64::MAX,
            i64::MIN <= old(h).core.sum + old(self).core.sum <= i64::MAX,
        ensures
            final(self).core.wf(),
            final(self).core.upper_bounds == old(self).core.upper_bounds,
            final(self).core.is_clear(),
            final(h).core.wf(),
            HistogramCore::same_meta(final(h).core, old(h).core),
            final(h).core.count == old(h).core.count + old(self).core.count,
            final(h).core.sum == old(h).core.sum + old(self).core.sum,
            forall|j: int|
                0 <= j < old(h).core.counts@.len() ==> final(h).core.counts@[j] == old(
                    h,
                ).core.counts@[j] + old(self).core.counts@[j],
    {
        self.core.flush(h);
    }
}

/// Which states a histogram-vector child may hold: a well-formed
/// histogram over the vector's own bucket bounds.
pub open spec fn hist_children_wf(m: crate::vec::ChildMap<HistogramCore>, bounds: Seq<i64>) -> bool {
    forall|i: int|
        0 <= i < m.entries@.len() ==> (#[trigger] m.entries@[i]).val.wf()
            && m.entries@[i].val.upper_bounds@ == bounds
}

/// A family of histograms sharing one descriptor and one bucket ladder,
/// told apart only by their variable label values. Children are created
/// on first use and addressed by the hash of their label-value tuple.
#[derive(Debug)]
pub struct HistogramVec {
    pub desc: Desc,
    pub opts: HistogramOpts,
    pub children: crate::vec::ChildMap<HistogramCore>,
}

impl HistogramVec {
    /// What the vector maintains: unique child keys, children over its
    /// own bucket ladder, and options that always build a child.
    pub open spec fn wf(self) -> bool {
        &&& self.children.wf()
        &&& hist_children_wf(self.children, spec_adjusted_buckets(self.opts.buckets@))
        &&& histogram_opts_ok(self.opts)
        &&& desc_wf(self.desc)
        &&& self.desc.fq_name@ == spec_fq_name(
            self.opts.common_opts.namespace@,
            self.opts.common_opts.subsystem@,
            self.opts.common_opts.name@,
        )
        &&& self.desc.help == self.opts.common_opts.help
        &&& self.desc.variable_labels@ == self.opts.common_opts.variable_labels@
    }

    /// The number of variable labels each child tuple must supply.
    pub open spec fn label_dim(self) -> nat {
        self.opts.common_opts.variable_labels@.len()
    }

    /// The bucket bounds every child of this vector counts into.
    pub open spec fn bounds(self) -> Seq<i64> {
        spec_adjusted_buckets(self.opts.buckets@)
    }

    /// A vector of histograms described and bucketed by the options and
    /// partitioned by the given label names.
    pub fn new(opts: HistogramOpts, label_names: &Vec<String>) -> (r: Result<HistogramVec, Error>)
        ensures
            r matches Ok(v) ==> {
                &&& v.wf()
                &&& v.opts.common_opts.variable_labels@ == label_names@
                &&& v.opts.common_opts.name == opts.common_opts.name
                &&& v.opts.common_opts.help == opts.common_opts.help
                &&& v.opts.buckets@ == opts.buckets@
                &&& v.children.entries@.len() == 0
                &&& forall|k: u64| !v.children.contains_key(k)
            },
            r is Ok <==> histogram_opts_ok(
                (HistogramOpts {
                    common_opts: (Opts {
                        variable_labels: *label_names,
                        ..opts.common_opts
                    }),
                    buckets: opts.buckets,
                }),
            ),
    {
        let o = opts.variable_labels(crate::labels::clone_string_vec(label_names));
        let mut i: usize = 0;
        while i < o.common_opts.variable_labels.len()
            invariant
                0 <= i <= o.common_opts.variable_labels@.len(),
                strings_view(o.common_opts.variable_labels@) == strings_view(label_names@),
                forall|j: int|
                    0 <= j < i ==> strings_view(o.common_opts.variable_labels@)[j] != "le"@,
            decreases o.common_opts.variable_labels@.len() - i,
        {
            match check_bucket_lable(o.common_opts.variable_labels[i].as_str()) {
                Ok(_) => {},
                Err(e) => {
                    proof {
                        assert(strings_view(o.common_opts.variable_labels@)[i as int]
                            == o.common_opts.variable_labels@[i as int]@);
                    }
                    return Err(e);
                },
            }
            proof {
                assert(strings_view(o.common_opts.variable_labels@)[i as int]
                    == o.common_opts.variable_labels@[i as int]@);
            }
            i = i + 1;
        }
        let mut j: usize = 0;
        while j < o.common_opts.const_labels.len()
            invariant
                0 <= j <= o.common_opts.const_labels@.len(),
                o.common_opts.const_labels@ == opts.common_opts.const_labels@,
                forall|x: int|
                    0 <= x < j ==> pairs_view(o.common_opts.const_labels@)[x].0 != "le"@,
            decreases o.common_opts.const_labels@.len() - j,
        {
            match check_bucket_lable(o.common_opts.const_labels[j].name.as_str()) {
                Ok(_) => {},
                Err(e) => {
                    proof {
                        assert(pairs_view(o.common_opts.const_labels@)[j as int] == (
                            o.common_opts.const_labels@[j as int].name@,
                            o.common_opts.const_labels@[j as int].value@,
                        ));
                    }
                    return Err(e);
                },
            }
            proof {
                assert(pairs_view(o.common_opts.const_labels@)[j as int] == (
                    o.common_opts.const_labels@[j as int].name@,
                    o.common_opts.const_labels@[j as int].value@,
                ));
            }
            j = j + 1;
        }
        let desc = match o.common_opts.describe() {
            Ok(d) => d,
            Err(e) => {
                return Err(e);
            },
        };
        match check_and_adjust_buckets(crate::labels::clone_i64_vec(&o.buckets)) {
            Ok(_) => {},
            Err(e) => {
                return Err(e);
            },
        }
        Ok(HistogramVec { desc, opts: o, children: crate::vec::ChildMap::new() })
    }

    /// What looking a tuple up leaves behind: the key is the tuple's
    /// hash; a vector that already held the child is untouched; one that
    /// did not holds one more child, empty over the vector's own bucket
    /// ladder with the tuple's resolved labels, every other child
    /// untouched.
    pub open spec fn with_effect(pre: HistogramVec, post: HistogramVec, vals: Seq<Seq<char>>, k: u64) -> bool {
        &&& post.wf()
        &&& k == crate::vec::spec_hash_label_values(vals)
        &&& post.opts == pre.opts
        &&& post.desc == pre.desc
        &&& post.children.contains_key(k)
        &&& (pre.children.contains_key(k) ==> post.children == pre.children)
        &&& (!pre.children.contains_key(k) ==> {
            &&& post.children.value_of(k).count == 0
            &&& post.children.value_of(k).sum == 0
            &&& post.children.value_of(k).upper_bounds@ == pre.bounds()
            &&& post.children.value_of(k).counts@.len() == pre.bounds().len()
            &&& forall|j: int|
                0 <= j < pre.bounds().len() ==> post.children.value_of(k).counts@[j] == 0
            &&& pairs_view(post.children.value_of(k).label_pairs@) == spec_label_pairs(
                strings_view(pre.opts.common_opts.variable_labels@),
                vals,
                sort_pairs(pairs_view(pre.opts.common_opts.const_labels@)),
            )
            &&& post.children.entries@.len() == pre.children.entries@.len() + 1
            &&& forall|k2: u64|
                k2 != k ==> post.children.contains_key(k2) == pre.children.contains_key(k2)
            &&& forall|k2: u64|
                k2 != k && pre.children.contains_key(k2) ==> post.children.value_of(k2)
                    == pre.children.value_of(k2)
        })
    }

    /// The key of the child for this label-value tuple, creating the
    /// child empty when the tuple is seen for the first time. Equal
    /// tuples always give the same key, and so the same child. A tuple
    /// of the wrong length is a caller error here; `try_with_label_values`
    /// reports it instead.
    pub fn with_label_values(&mut self, vals: &Vec<String>) -> (k: u64)
        requires
            old(self).wf(),
            vals@.len() == old(self).label_dim(),
        ensures
            HistogramVec::with_effect(*old(self), *final(self), strings_view(vals@), k),
    {
        let k = crate::vec::hash_label_values(vals);
        match self.children.find(k) {
            Some(_) => k,
            None => {
                let child = HistogramCore::new(&self.opts, vals).unwrap();
                proof {
                    lemma_zero_counts(child.counts@);
                }
                let ghost m1 = self.children;
                self.children.insert(k, child);
                proof {
                    crate::vec::lemma_push_keeps(m1, self.children, k, child);
                    assert(hist_children_wf(self.children, spec_adjusted_buckets(
                        self.opts.buckets@,
                    )));
                }
                k
            },
        }
    }

    /// Like `with_label_values`, but a tuple whose length does not match
    /// the schema is reported as a cardinality error, never coerced.
    pub fn try_with_label_values(&mut self, vals: &Vec<String>) -> (r: Result<u64, Error>)
        requires
            old(self).wf(),
        ensures
            final(self).wf(),
            final(self).opts == old(self).opts,
            final(self).desc == old(self).desc,
            r is Ok <==> vals@.len() == old(self).label_dim(),
            r matches Ok(k) ==> HistogramVec::with_effect(
                *old(self),
                *final(self),
                strings_view(vals@),
                k,
            ),
            r is Err ==> final(self).children == old(self).children,
            r matches Err(e) ==> (e matches Error::InconsistentCardinality { expect, got }
                && expect == old(self).label_dim() && got == vals@.len()),
    {
        if vals.len() != self.opts.common_opts.variable_labels.len() {
            return Err(
                Error::InconsistentCardinality {
                    expect: self.opts.common_opts.variable_labels.len(),
                    got: vals.len(),
                },
            );
        }
        Ok(self.with_label_values(vals))
    }

    /// Observe one value on the child's histogram.
    pub fn observe(&mut self, k: u64, v: i64)
        requires
            old(self).wf(),
            old(self).children.contains_key(k),
            old(self).children.value_of(k).count < u64::MAX,
            i64::MIN <= old(self).children.value_of(k).sum + v <= i64::MAX,
        ensures
            final(self).wf(),
            final(self).opts == old(self).opts,
            final(self).desc == old(self).desc,
            final(self).children.contains_key(k),
            final(self).children.value_of(k).count == old(self).children.value_of(k).count + 1,
            final(self).children.value_of(k).sum == old(self).children.value_of(k).sum + v,
            HistogramCore::same_meta(
                final(self).children.value_of(k),
                old(self).children.value_of(k),
            ),
            forall|k2: u64|
                final(self).children.contains_key(k2) == old(self).children.contains_key(k2),
            forall|k2: u64|
                k2 != k && old(self).children.contains_key(k2) ==> final(self).children.value_of(k2) == old(self).children.value_of(k2),
    {
        let ghost m1 = self.children;
        let c = self.children.get_mut(k);
        c.observe(v);
        proof {
            crate::vec::lemma_update_keeps(
                m1,
                self.children,
                k,
                self.children.entries@[m1.index_of(k)].val,
            );
            assert forall|i: int|
                0 <= i < self.children.entries@.len() implies (
            #[trigger] self.children.entries@[i]).val.wf()
                && self.children.entries@[i].val.upper_bounds@ == spec_adjusted_buckets(
                self.opts.buckets@,
            ) by {
                if i != m1.index_of(k) {
                    assert(self.children.entries@[i] == m1.entries@[i]);
                }
            }
        }
    }

    /// Merge a buffered state into the child's histogram.
    pub fn merge(&mut self, k: u64, counts: &Vec<u64>, count: u64, sum: i64)
        requires
            old(self).wf(),
            old(self).children.contains_key(k),
            counts@.len() == old(self).bounds().len(),
            sum_counts(counts@) <= count,
            old(self).children.value_of(k).count + count <= u64::MAX,
            i64::MIN <= old(self).children.value_of(k).sum + sum <= i64::MAX,
        ensures
            final(self).wf(),
            final(self).opts == old(self).opts,
            final(self).desc == old(self).desc,
            final(self).children.contains_key(k),
            final(self).children.value_of(k).count == old(self).children.value_of(k).count
                + count,
            final(self).children.value_of(k).sum == old(self).children.value_of(k).sum + sum,
            HistogramCore::same_meta(
                final(self).children.value_of(k),
                old(self).children.value_of(k),
            ),
            forall|j: int|
                0 <= j < old(self).bounds().len() ==> final(self).children.value_of(k).counts@[j]
                    == old(self).children.value_of(k).counts@[j] + counts@[j],
            forall|k2: u64|
                final(self).children.contains_key(k2) == old(self).children.contains_key(k2),
            forall|k2: u64|
                k2 != k && old(self).children.contains_key(k2) ==> final(self).children.value_of(k2) == old(self).children.value_of(k2),
    {
        let ghost m1 = self.children;
        let c = self.children.get_mut(k);
        c.merge(counts, count, sum);
        proof {
            crate::vec::lemma_update_keeps(
                m1,
                self.children,
                k,
                self.children.entries@[m1.index_of(k)].val,
            );
            assert forall|i: int|
                0 <= i < self.children.entries@.len() implies (
            #[trigger] self.children.entries@[i]).val.wf()
                && self.children.entries@[i].val.upper_bounds@ == spec_adjusted_buckets(
                self.opts.buckets@,
            ) by {
                if i != m1.index_of(k) {
                    assert(self.children.entries@[i] == m1.entries@[i]);
                }
            }
        }
    }

    /// The child's total observation count.
    pub fn get_sample_count(&self, k: u64) -> (r: u64)
        requires
            self.wf(),
            self.children.contains_key(k),
        ensures
            r == self.children.value_of(k).count,
    {
        self.children.get(k).unwrap().count
    }

    /// The child's sum of observations.
    pub fn get_sample_sum(&self, k: u64) -> (r: i64)
        requires
            self.wf(),
            self.children.contains_key(k),
        ensures
            r == self.children.value_of(k).sum,
    {
        self.children.get(k).unwrap().sum
    }

    /// The key of the child for the tuple a name-to-value map supplies,
    /// creating the child empty when the tuple is new: like looking up
    /// by values, with the positions resolved through the schema first.
    pub fn with(&mut self, labels: &Vec<LabelPair>) -> (k: u64)
        requires
            old(self).wf(),
            crate::labels::resolve_values(
                strings_view(old(self).opts.common_opts.variable_labels@),
                pairs_view(labels@),
            ) is Some,
        ensures
            HistogramVec::with_effect(
                *old(self),
                *final(self),
                crate::labels::resolve_values(
                    strings_view(old(self).opts.common_opts.variable_labels@),
                    pairs_view(labels@),
                )->Some_0,
                k,
            ),
    {
        let vals = crate::labels::resolve_exec(
            &self.opts.common_opts.variable_labels,
            labels,
        ).unwrap();
        proof {
            crate::labels::lemma_resolved_len(
                strings_view(self.opts.common_opts.variable_labels@),
                pairs_view(labels@),
            );
        }
        self.with_label_values(&vals)
    }

    /// Like `with`, but a schema name missing from the map is reported,
    /// never a caller error.
    pub fn try_with(&mut self, labels: &Vec<LabelPair>) -> (r: Result<u64, Error>)
        requires
            old(self).wf(),
        ensures
            final(self).wf(),
            final(self).opts == old(self).opts,
            final(self).desc == old(self).desc,
            r is Ok <==> crate::labels::resolve_values(
                strings_view(old(self).opts.common_opts.variable_labels@),
                pairs_view(labels@),
            ) is Some,
            r matches Ok(k) ==> HistogramVec::with_effect(
                *old(self),
                *final(self),
                crate::labels::resolve_values(
                    strings_view(old(self).opts.common_opts.variable_labels@),
                    pairs_view(labels@),
                )->Some_0,
                k,
            ),
            r is Err ==> final(self).children == old(self).children,
            r matches Err(e) ==> e is Msg,
    {
        match crate::labels::resolve_exec(&self.opts.common_opts.variable_labels, labels) {
            Some(vals) => {
                proof {
                    crate::labels::lemma_resolved_len(
                        strings_view(self.opts.common_opts.variable_labels@),
                        pairs_view(labels@),
                    );
                }
                Ok(self.with_label_values(&vals))
            },
            None => Err(
                Error::Msg(String::from_str("a variable label is missing from the label map")),
            ),
        }
    }

    /// Drop the child for the tuple a name-to-value map supplies: like
    /// removal by values, with the positions resolved through the schema
    /// first. Fails when a schema name is missing from the map, or as
    /// removal by values fails.
    pub fn remove(&mut self, labels: &Vec<LabelPair>) -> (r: Result<(), Error>)
        requires
            old(self).wf(),
        ensures
            final(self).wf(),
            final(self).opts == old(self).opts,
            final(self).desc == old(self).desc,
            r is Ok <==> ({
                let rv = crate::labels::resolve_values(
                    strings_view(old(self).opts.common_opts.variable_labels@),
                    pairs_view(labels@),
                );
                rv is Some && old(self).children.contains_key(
                    crate::vec::spec_hash_label_values(rv->Some_0),
                )
            }),
            r is Ok ==> !final(self).children.contains_key(
                crate::vec::spec_hash_label_values(
                    crate::labels::resolve_values(
                        strings_view(old(self).opts.common_opts.variable_labels@),
                        pairs_view(labels@),
                    )->Some_0,
                ),
            ),
            r is Err ==> final(self).children.entries@ == old(self).children.entries@,
            r matches Err(e) ==> e is Msg || e is InconsistentCardinality,
    {
        match crate::labels::resolve_exec(&self.opts.common_opts.variable_labels, labels) {
            Some(vals) => {
                proof {
                    crate::labels::lemma_resolved_len(
                        strings_view(self.opts.common_opts.variable_labels@),
                        pairs_view(labels@),
                    );
                }
                self.remove_label_values(&vals)
            },
            None => Err(
                Error::Msg(String::from_str("a variable label is missing from the label map")),
            ),
        }
    }

    /// Drop the child for this label-value tuple, with the same error
    /// reporting as the counter vector.
    pub fn remove_label_values(&mut self, vals: &Vec<String>) -> (r: Result<(), Error>)
        requires
            old(self).wf(),
        ensures
            final(self).wf(),
            final(self).opts == old(self).opts,
            final(self).desc == old(self).desc,
            r is Ok <==> (vals@.len() == old(self).label_dim() && old(self).children.contains_key(
                crate::vec::spec_hash_label_values(strings_view(vals@)),
            )),
            r is Ok ==> {
                &&& !final(self).children.contains_key(
                    crate::vec::spec_hash_label_values(strings_view(vals@)),
                )
                &&& final(self).children.entries@.len() == old(self).children.entries@.len() - 1
                &&& forall|k2: u64|
                    k2 != crate::vec::spec_hash_label_values(strings_view(vals@)) ==> final(self).children.contains_key(k2) == old(self).children.contains_key(k2)
                &&& forall|k2: u64|
                    k2 != crate::vec::spec_hash_label_values(strings_view(vals@)) && old(self).children.contains_key(k2) ==> final(self).children.value_of(k2) == old(self).children.value_of(k2)
            },
            r is Err ==> final(self).children.entries@ == old(self).children.entries@,
            r matches Err(e) ==> (vals@.len() != old(self).label_dim() ==> (e matches
                Error::InconsistentCardinality { expect, got } && expect == old(self).label_dim()
                    && got == vals@.len())),
            r matches Err(e) ==> (vals@.len() == old(self).label_dim() ==> e is Msg),
    {
        if vals.len() != self.opts.common_opts.variable_labels.len() {
            return Err(
                Error::InconsistentCardinality {
                    expect: self.opts.common_opts.variable_labels.len(),
                    got: vals.len(),
                },
            );
        }
        let k = crate::vec::hash_label_values(vals);
        let ghost m1 = self.children;
        match self.children.remove(k) {
            Some(_) => {
                proof {
                    crate::vec::lemma_remove_keeps(m1, self.children, k);
                    assert forall|i: int|
                        0 <= i < self.children.entries@.len() implies (
                    #[trigger] self.children.entries@[i]).val.wf()
                        && self.children.entries@[i].val.upper_bounds@ == spec_adjusted_buckets(
                        self.opts.buckets@,
                    ) by {
                        let ix = m1.index_of(k);
                        if i < ix {
                            assert(self.children.entries@[i] == m1.entries@[i]);
                        } else {
                            assert(self.children.entries@[i] == m1.entries@[i + 1]);
                        }
                    }
                }
                Ok(())
            },
            None => Err(Error::Msg(String::from_str("no metric with the given label values"))),
        }
    }

    /// A snapshot of the whole family: one sample per child, in the order
    /// the children were first seen, each with cumulative buckets.
    pub fn collect(&self) -> (r: Vec<MetricFamily>)
        requires
            self.wf(),
        ensures
            r@.len() == 1,
            r@[0].name == self.desc.fq_name,
            r@[0].help == self.desc.help,
            r@[0].field_type == crate::proto::MetricType::HISTOGRAM,
            r@[0].metric@.len() == self.children.entries@.len(),
            forall|j: int|
                0 <= j < self.children.entries@.len() ==> {
                    &&& (#[trigger] r@[0].metric@[j]).label@
                        == self.children.entries@[j].val.label_pairs@
                    &&& r@[0].metric@[j].histogram is Some
                    &&& r@[0].metric@[j].histogram->Some_0.sample_count
                        == self.children.entries@[j].val.count
                    &&& r@[0].metric@[j].histogram->Some_0.sample_sum
                        == self.children.entries@[j].val.sum
                    &&& r@[0].metric@[j].histogram->Some_0.bucket@.len()
                        == self.children.entries@[j].val.upper_bounds@.len()
                    &&& forall|b: int|
                        0 <= b < r@[0].metric@[j].histogram->Some_0.bucket@.len() ==> (
                        #[trigger] r@[0].metric@[j].histogram->Some_0.bucket@[b]).upper_bound
                            == self.children.entries@[j].val.upper_bounds@[b]
                            && r@[0].metric@[j].histogram->Some_0.bucket@[b].cumulative_count
                            == cumulative_count(self.children.entries@[j].val.counts@, b + 1)
                },
    {
        let mut ms: Vec<crate::proto::Metric> = Vec::new();
        let mut i: usize = 0;
        while i < self.children.len()
            invariant
                self.wf(),
                0 <= i <= self.children.entries@.len(),
                ms@.len() == i,
                forall|j: int|
                    0 <= j < i ==> {
                        &&& (#[trigger] ms@[j]).label@
                            == self.children.entries@[j].val.label_pairs@
                        &&& ms@[j].histogram is Some
                        &&& ms@[j].histogram->Some_0.sample_count
                            == self.children.entries@[j].val.count
                        &&& ms@[j].histogram->Some_0.sample_sum
                            == self.children.entries@[j].val.sum
                        &&& ms@[j].histogram->Some_0.bucket@.len()
                            == self.children.entries@[j].val.upper_bounds@.len()
                        &&& forall|b: int|
                            0 <= b < ms@[j].histogram->Some_0.bucket@.len() ==> (
                            #[trigger] ms@[j].histogram->Some_0.bucket@[b]).upper_bound
                                == self.children.entries@[j].val.upper_bounds@[b]
                                && ms@[j].histogram->Some_0.bucket@[b].cumulative_count
                                == cumulative_count(self.children.entries@[j].val.counts@, b + 1)
                    },
            decreases self.children.entries@.len() - i,
        {
            let e = self.children.at(i);
            let mut m = crate::proto::Metric::new();
            m.set_label(crate::labels::clone_pairs(&e.val.label_pairs));
            m.set_histogram(e.val.proto());
            ms.push(m);
            i = i + 1;
        }
        let mut f = MetricFamily::new();
        f.set_name(self.desc.fq_name.clone());
        f.set_help(self.desc.help.clone());
        f.set_field_type(crate::proto::MetricType::HISTOGRAM);
        f.set_metric(ms);
        let mut r: Vec<MetricFamily> = Vec::new();
        r.push(f);
        r
    }

    /// The descriptors of this collector: exactly its own.
    pub fn desc(&self) -> (r: Vec<Desc>)
        ensures
            r@.len() == 1,
            crate::desc::desc_eq(r@[0], self.desc),
    {
        let mut r: Vec<Desc> = Vec::new();
        r.push(self.desc.clone());
        r
    }

    /// A thread-local buffer for this vector, with no local children yet.
    pub fn local(&self) -> (r: LocalHistogramVec)
        ensures
            r.local.entries@.len() == 0,
            r.local.wf(),
            forall|k: u64| !r.local.contains_key(k),
    {
        LocalHistogramVec { local: crate::vec::ChildMap::new() }
    }
}

impl crate::metrics::Collector for HistogramVec {
    fn desc(&self) -> Vec<Desc> {
        HistogramVec::desc(self)
    }

    fn collect(&self) -> Vec<MetricFamily> {
        let mut ms: Vec<crate::proto::Metric> = Vec::new();
        let mut i: usize = 0;
        while i < self.children.len()
            invariant
                0 <= i <= self.children.entries@.len(),
            decreases self.children.entries@.len() - i,
        {
            let e = self.children.at(i);
            let mut m = crate::proto::Metric::new();
            m.set_label(crate::labels::clone_pairs(&e.val.label_pairs));
            let mut h = crate::proto::Histogram::new();
            h.set_sample_sum(e.val.sum);
            h.set_sample_count(e.val.count);
            m.set_histogram(h);
            ms.push(m);
            i = i + 1;
        }
        let mut f = MetricFamily::new();
        f.set_name(self.desc.fq_name.clone());
        f.set_help(self.desc.help.clone());
        f.set_field_type(crate::proto::MetricType::HISTOGRAM);
        f.set_metric(ms);
        let mut r: Vec<MetricFamily> = Vec::new();
        r.push(f);
        r
    }
}

/// One local child of a histogram-vector buffer: the label-value tuple it
/// was created for, and the buffer accumulated for it so far.
#[derive(Debug)]
pub struct LocalHistEntry {
    pub vals: Vec<String>,
    pub buf: LocalHistogramCore,
}

/// A thread-confined buffer for a whole histogram vector: one local
/// buffer per label-value tuple seen so far, keyed like the shared
/// children.
#[derive(Debug)]
pub struct LocalHistogramVec {
    pub local: crate::vec::ChildMap<LocalHistEntry>,
}

/// Whether the buffer's local children fit the vector: each stored under
/// the hash of its tuple, with a tuple of the schema's width, over the
/// vector's bucket bounds, holding a consistent buffer.
pub open spec fn local_hist_children_wf(
    m: crate::vec::ChildMap<LocalHistEntry>,
    dim: nat,
    bounds: Seq<i64>,
) -> bool {
    forall|i: int|
        0 <= i < m.entries@.len() ==> {
            &&& (#[trigger] m.entries@[i]).key == crate::vec::spec_hash_label_values(
                strings_view(m.entries@[i].val.vals@),
            )
            &&& m.entries@[i].val.vals@.len() == dim
            &&& m.entries@[i].val.buf.upper_bounds@ == bounds
            &&& m.entries@[i].val.buf.wf()
        }
}

/// What looking a tuple up through a histogram buffer leaves behind: the
/// key is the tuple's hash; a local buffer exists for it, fresh and empty
/// when the tuple is new to the buffer; the shared vector holds the
/// tuple's child, created empty — zero count, zero sum, zeroed buckets —
/// when it was missing; everything else on either side is untouched.
pub open spec fn local_hist_with_effect(
    l0: LocalHistogramVec,
    l1: LocalHistogramVec,
    v0: HistogramVec,
    v1: HistogramVec,
    vals: Seq<Seq<char>>,
    k: u64,
) -> bool {
    &&& l1.local.wf()
    &&& local_hist_children_wf(l1.local, v1.label_dim(), v1.bounds())
    &&& v1.wf()
    &&& v1.opts == v0.opts
    &&& v1.desc == v0.desc
    &&& k == crate::vec::spec_hash_label_values(vals)
    &&& l1.local.contains_key(k)
    &&& v1.children.contains_key(k)
    &&& (l0.local.contains_key(k) ==> l1.local == l0.local)
    &&& (!l0.local.contains_key(k) ==> l1.local.value_of(k).buf.is_clear())
    &&& forall|k2: u64| k2 != k ==> l1.local.contains_key(k2) == l0.local.contains_key(k2)
    &&& forall|k2: u64|
        k2 != k && l0.local.contains_key(k2) ==> l1.local.value_of(k2) == l0.local.value_of(k2)
    &&& (v0.children.contains_key(k) ==> v1.children == v0.children)
    &&& (!v0.children.contains_key(k) ==> {
        &&& v1.children.value_of(k).count == 0
        &&& v1.children.value_of(k).sum == 0
        &&& v1.children.value_of(k).counts@.len() == v0.bounds().len()
        &&& forall|j: int| 0 <= j < v0.bounds().len() ==> v1.children.value_of(k).counts@[j] == 0
    })
    &&& forall|k2: u64| k2 != k ==> v1.children.contains_key(k2) == v0.children.contains_key(k2)
    &&& forall|k2: u64|
        k2 != k && v0.children.contains_key(k2) ==> v1.children.value_of(k2)
            == v0.children.value_of(k2)
}

impl LocalHistogramVec {
    /// The key of the local child for this tuple, creating both the local
    /// buffer and, when missing, the shared child of the vector. A tuple
    /// of the wrong length is a caller error here; `try_with_label_values`
    /// reports it instead.
    pub fn with_label_values(&mut self, vec: &mut HistogramVec, vals: &Vec<String>) -> (k: u64)
        requires
            old(self).local.wf(),
            local_hist_children_wf(old(self).local, old(vec).label_dim(), old(vec).bounds()),
            old(vec).wf(),
            vals@.len() == old(vec).label_dim(),
        ensures
            local_hist_with_effect(
                *old(self),
                *final(self),
                *old(vec),
                *final(vec),
                strings_view(vals@),
                k,
            ),
    {
        let k = vec.with_label_values(vals);
        match self.local.find(k) {
            Some(_) => k,
            None => {
                let ghost m1 = self.local;
                let buf = LocalHistogramCore::new_from_bounds(&vec.children.get(k).unwrap().upper_bounds);
                let entry = LocalHistEntry { vals: crate::labels::clone_string_vec(vals), buf };
                self.local.insert(k, entry);
                proof {
                    crate::vec::lemma_push_keeps(m1, self.local, k, entry);
                    assert(local_hist_children_wf(self.local, vec.label_dim(), vec.bounds()));
                }
                k
            },
        }
    }

    /// Like `with_label_values`, but a tuple whose length does not match
    /// the schema is reported as a cardinality error, never coerced; in
    /// that case no child is created on either side.
    pub fn try_with_label_values(&mut self, vec: &mut HistogramVec, vals: &Vec<String>) -> (r:
        Result<u64, Error>)
        requires
            old(self).local.wf(),
            local_hist_children_wf(old(self).local, old(vec).label_dim(), old(vec).bounds()),
            old(vec).wf(),
        ensures
            final(self).local.wf(),
            final(vec).wf(),
            final(vec).opts == old(vec).opts,
            final(vec).desc == old(vec).desc,
            r is Ok <==> vals@.len() == old(vec).label_dim(),
            r matches Ok(k) ==> local_hist_with_effect(
                *old(self),
                *final(self),
                *old(vec),
                *final(vec),
                strings_view(vals@),
                k,
            ),
            r is Err ==> final(self).local == old(self).local && final(vec).children == old(
                vec,
            ).children,
            r matches Err(e) ==> (e matches Error::InconsistentCardinality { expect, got }
                && expect == old(vec).label_dim() && got == vals@.len()),
    {
        if vals.len() != vec.opts.common_opts.variable_labels.len() {
            return Err(
                Error::InconsistentCardinality {
                    expect: vec.opts.common_opts.variable_labels.len(),
                    got: vals.len(),
                },
            );
        }
        Ok(self.with_label_values(vec, vals))
    }

    /// Observe one value into the local child's buffer.
    pub fn observe(&mut self, k: u64, v: i64)
        requires
            old(self).local.wf(),
            old(self).local.contains_key(k),
            old(self).local.value_of(k).buf.wf(),
            old(self).local.value_of(k).buf.count < u64::MAX,
            i64::MIN <= old(self).local.value_of(k).buf.sum + v <= i64::MAX,
        ensures
            final(self).local.wf(),
            final(self).local.contains_key(k),
            final(self).local.value_of(k).buf.count == old(self).local.value_of(k).buf.count + 1,
            final(self).local.value_of(k).buf.sum == old(self).local.value_of(k).buf.sum + v,
            final(self).local.value_of(k).buf.upper_bounds == old(self).local.value_of(
                k,
            ).buf.upper_bounds,
            ({
                let b = bucket_of(old(self).local.value_of(k).buf.upper_bounds@, v);
                if b < old(self).local.value_of(k).buf.upper_bounds@.len() {
                    final(self).local.value_of(k).buf.counts@ == old(self).local.value_of(
                        k,
                    ).buf.counts@.update(
                        b,
                        (old(self).local.value_of(k).buf.counts@[b] + 1) as u64,
                    )
                } else {
                    final(self).local.value_of(k).buf.counts@ == old(self).local.value_of(
                        k,
                    ).buf.counts@
                }
            }),
            final(self).local.value_of(k).vals == old(self).local.value_of(k).vals,
            forall|k2: u64|
                final(self).local.contains_key(k2) == old(self).local.contains_key(k2),
            forall|k2: u64|
                k2 != k && old(self).local.contains_key(k2) ==> final(self).local.value_of(k2)
                    == old(self).local.value_of(k2),
            forall|d: nat, b: Seq<i64>|
                local_hist_children_wf(old(self).local, d, b) ==> local_hist_children_wf(
                    final(self).local,
                    d,
                    b,
                ),
    {
        let ghost m1 = self.local;
        let e = self.local.get_mut(k);
        e.buf.observe(v);
        proof {
            crate::vec::lemma_update_keeps(
                m1,
                self.local,
                k,
                self.local.entries@[m1.index_of(k)].val,
            );
            assert forall|d: nat, b: Seq<i64>|
                local_hist_children_wf(m1, d, b) implies local_hist_children_wf(
                self.local,
                d,
                b,
            ) by {
                assert forall|i: int|
                    0 <= i < self.local.entries@.len() implies {
                    &&& (#[trigger] self.local.entries@[i]).key
                        == crate::vec::spec_hash_label_values(
                        strings_view(self.local.entries@[i].val.vals@),
                    )
                    &&& self.local.entries@[i].val.vals@.len() == d
                    &&& self.local.entries@[i].val.buf.upper_bounds@ == b
                    &&& self.local.entries@[i].val.buf.wf()
                } by {
                    if i != m1.index_of(k) {
                        assert(self.local.entries@[i] == m1.entries@[i]);
                    } else {
                        assert(m1.entries@[i].key == crate::vec::spec_hash_label_values(
                            strings_view(m1.entries@[i].val.vals@),
                        ));
                    }
                }
            }
        }
    }

    /// Drop the local child and the shared child for this tuple; what was
    /// buffered for it and not yet flushed is discarded. Fails like the
    /// vector's own removal.
    pub fn remove_label_values(&mut self, vec: &mut HistogramVec, vals: &Vec<String>) -> (r:
        Result<(), Error>)
        requires
            old(self).local.wf(),
            old(vec).wf(),
        ensures
            final(self).local.wf(),
            final(vec).wf(),
            final(vec).opts == old(vec).opts,
            final(vec).desc == old(vec).desc,
            !final(self).local.contains_key(
                crate::vec::spec_hash_label_values(strings_view(vals@)),
            ),
            r is Ok <==> (vals@.len() == old(vec).label_dim() && old(vec).children.contains_key(
                crate::vec::spec_hash_label_values(strings_view(vals@)),
            )),
            r is Ok ==> !final(vec).children.contains_key(
                crate::vec::spec_hash_label_values(strings_view(vals@)),
            ),
            forall|d: nat, b: Seq<i64>|
                local_hist_children_wf(old(self).local, d, b) ==> local_hist_children_wf(
                    final(self).local,
                    d,
                    b,
                ),
            forall|k2: u64|
                k2 != crate::vec::spec_hash_label_values(strings_view(vals@)) ==> final(self).local.contains_key(k2) == old(self).local.contains_key(k2),
            forall|k2: u64|
                k2 != crate::vec::spec_hash_label_values(strings_view(vals@)) && old(self).local.contains_key(k2) ==> final(self).local.value_of(k2) == old(self).local.value_of(k2),
            r is Err ==> final(vec).children.entries@ == old(vec).children.entries@,
            r matches Err(e) ==> (vals@.len() != old(vec).label_dim() ==> (e matches
                Error::InconsistentCardinality { expect, got } && expect == old(vec).label_dim()
                    && got == vals@.len())),
            r matches Err(e) ==> (vals@.len() == old(vec).label_dim() ==> e is Msg),
    {
        let k = crate::vec::hash_label_values(vals);
        let ghost m1 = self.local;
        let _ = self.local.remove(k);
        proof {
            if m1.contains_key(k) {
                crate::vec::lemma_remove_keeps(m1, self.local, k);
                assert forall|d: nat, b: Seq<i64>|
                    local_hist_children_wf(m1, d, b) implies local_hist_children_wf(
                    self.local,
                    d,
                    b,
                ) by {
                    let ix = m1.index_of(k);
                    assert forall|i: int|
                        0 <= i < self.local.entries@.len() implies {
                        &&& (#[trigger] self.local.entries@[i]).key
                            == crate::vec::spec_hash_label_values(
                            strings_view(self.local.entries@[i].val.vals@),
                        )
                        &&& self.local.entries@[i].val.vals@.len() == d
                        &&& self.local.entries@[i].val.buf.upper_bounds@ == b
                        &&& self.local.entries@[i].val.buf.wf()
                    } by {
                        if i < ix {
                            assert(self.local.entries@[i] == m1.entries@[i]);
                            assert(m1.entries@[i].key == crate::vec::spec_hash_label_values(
                                strings_view(m1.entries@[i].val.vals@),
                            ));
                        } else {
                            assert(self.local.entries@[i] == m1.entries@[i + 1]);
                            assert(m1.entries@[i + 1].key == crate::vec::spec_hash_label_values(
                                strings_view(m1.entries@[i + 1].val.vals@),
                            ));
                        }
                    }
                }
            }
        }
        vec.remove_label_values(vals)
    }

    /// Flush every local buffer into the shared vector and reset the
    /// local buffers. A shared child missing for a buffered tuple is
    /// created first, so no observation is lost.
    pub fn flush(&mut self, vec: &mut HistogramVec)
        requires
            old(self).local.wf(),
            local_hist_children_wf(old(self).local, old(vec).label_dim(), old(vec).bounds()),
            old(vec).wf(),
            forall|i: int|
                0 <= i < old(self).local.entries@.len() ==> {
                    let k = (#[trigger] old(self).local.entries@[i]).key;
                    &&& (if old(vec).children.contains_key(k) {
                        old(vec).children.value_of(k).count as int
                    } else {
                        0
                    }) + old(self).local.entries@[i].val.buf.count <= u64::MAX
                    &&& i64::MIN <= (if old(vec).children.contains_key(k) {
                        old(vec).children.value_of(k).sum as int
                    } else {
                        0
                    }) + old(self).local.entries@[i].val.buf.sum <= i64::MAX
                },
        ensures
            final(self).local.wf(),
            local_hist_children_wf(final(self).local, final(vec).label_dim(), final(vec).bounds()),
            final(vec).wf(),
            final(vec).opts == old(vec).opts,
            final(vec).desc == old(vec).desc,
            final(self).local.entries@.len() == old(self).local.entries@.len(),
            forall|k2: u64|
                final(self).local.contains_key(k2) == old(self).local.contains_key(k2),
            forall|k2: u64|
                old(self).local.contains_key(k2) ==> final(self).local.value_of(
                    k2,
                ).buf.is_clear(),
            forall|k2: u64|
                old(self).local.contains_key(k2) ==> final(vec).children.contains_key(k2) && final(vec).children.value_of(k2).count == (if old(vec).children.contains_key(k2) {
                    old(vec).children.value_of(k2).count as int
                } else {
                    0
                }) + old(self).local.value_of(k2).buf.count && final(vec).children.value_of(
                    k2,
                ).sum == (if old(vec).children.contains_key(k2) {
                    old(vec).children.value_of(k2).sum as int
                } else {
                    0
                }) + old(self).local.value_of(k2).buf.sum,
            forall|k2: u64|
                !old(self).local.contains_key(k2) ==> final(vec).children.contains_key(k2) == old(vec).children.contains_key(k2),
            forall|k2: u64|
                !old(self).local.contains_key(k2) && old(vec).children.contains_key(k2) ==> final(vec).children.value_of(k2) == old(vec).children.value_of(k2),
    {
        let n = self.local.len();
        let mut i: usize = 0;
        while i < n
            invariant
                self.local.wf(),
                old(self).local.wf(),
                local_hist_children_wf(self.local, vec.label_dim(), vec.bounds()),
                vec.wf(),
                vec.opts == old(vec).opts,
                vec.desc == old(vec).desc,
                n == self.local.entries@.len(),
                0 <= i <= n,
                self.local.entries@.len() == old(self).local.entries@.len(),
                forall|j: int|
                    0 <= j < old(self).local.entries@.len() ==> {
                        let k2 = (#[trigger] old(self).local.entries@[j]).key;
                        &&& (if old(vec).children.contains_key(k2) {
                            old(vec).children.value_of(k2).count as int
                        } else {
                            0
                        }) + old(self).local.entries@[j].val.buf.count <= u64::MAX
                        &&& i64::MIN <= (if old(vec).children.contains_key(k2) {
                            old(vec).children.value_of(k2).sum as int
                        } else {
                            0
                        }) + old(self).local.entries@[j].val.buf.sum <= i64::MAX
                    },
                forall|j: int|
                    0 <= j < n ==> (#[trigger] self.local.entries@[j]).key == old(self).local.entries@[j].key && self.local.entries@[j].val.vals == old(self).local.entries@[j].val.vals,
                forall|j: int|
                    0 <= j < i ==> (#[trigger] self.local.entries@[j]).val.buf.is_clear(),
                forall|j: int|
                    i <= j < n ==> (#[trigger] self.local.entries@[j]).val.buf == old(self).local.entries@[j].val.buf,
                forall|j: int|
                    0 <= j < i ==> {
                        let k2 = (#[trigger] old(self).local.entries@[j]).key;
                        vec.children.contains_key(k2) && vec.children.value_of(k2).count == (if old(vec).children.contains_key(k2) {
                            old(vec).children.value_of(k2).count as int
                        } else {
                            0
                        }) + old(self).local.entries@[j].val.buf.count
                            && vec.children.value_of(k2).sum == (if old(vec).children.contains_key(k2) {
                            old(vec).children.value_of(k2).sum as int
                        } else {
                            0
                        }) + old(self).local.entries@[j].val.buf.sum
                    },
                forall|k2: u64|
                    !old(self).local.contains_key(k2) ==> vec.children.contains_key(k2) == old(vec).children.contains_key(k2),
                forall|k2: u64|
                    !old(self).local.contains_key(k2) && old(vec).children.contains_key(k2)
                        ==> vec.children.value_of(k2) == old(vec).children.value_of(k2),
                forall|j: int|
                    i <= j < n ==> {
                        let k2 = (#[trigger] old(self).local.entries@[j]).key;
                        vec.children.contains_key(k2) == old(vec).children.contains_key(k2) && (old(vec).children.contains_key(k2) ==> vec.children.value_of(k2) == old(vec).children.value_of(k2))
                    },
            decreases n - i,
        {
            let ghost ml0 = self.local;
            let e = self.local.at(i);
            let vals = crate::labels::clone_string_vec(&e.val.vals);
            let count = e.val.buf.count;
            let sum = e.val.buf.sum;
            let ghost kk = ml0.entries@[i as int].key;
            proof {
                assert(ml0.entries@[i as int].key == crate::vec::spec_hash_label_values(
                    strings_view(ml0.entries@[i as int].val.vals@),
                ));
            }
            let k = vec.with_label_values(&vals);
            proof {
                assert(k == kk);
                assert((if old(vec).children.contains_key(kk) {
                    old(vec).children.value_of(kk).count as int
                } else {
                    0
                }) + old(self).local.entries@[i as int].val.buf.count <= u64::MAX);
                if !old(vec).children.contains_key(kk) {
                    lemma_zero_counts(vec.children.value_of(kk).counts@);
                }
            }
            let counts = {
                let e2 = self.local.at(i);
                crate::labels::clone_u64_vec(&e2.val.buf.counts)
            };
            vec.merge(k, &counts, count, sum);
            proof {
                assert(self.local.contains_key(k));
                self.local.lemma_key_unique(self.local.index_of(k), i as int);
            }
            let ghost ml1 = self.local;
            let le = self.local.get_mut(k);
            le.buf.clear();
            proof {
                crate::vec::lemma_update_keeps(
                    ml1,
                    self.local,
                    k,
                    self.local.entries@[ml1.index_of(k)].val,
                );
                assert(ml1.index_of(k) == i as int);
                assert forall|j: int|
                    0 <= j < n implies (#[trigger] self.local.entries@[j]).key == old(self).local.entries@[j].key && self.local.entries@[j].val.vals == old(self).local.entries@[j].val.vals by {
                    if j != i as int {
                        assert(self.local.entries@[j] == ml1.entries@[j]);
                    }
                }
                assert(local_hist_children_wf(self.local, vec.label_dim(), vec.bounds())) by {
                    assert forall|j: int|
                        0 <= j < self.local.entries@.len() implies {
                        &&& (#[trigger] self.local.entries@[j]).key
                            == crate::vec::spec_hash_label_values(
                            strings_view(self.local.entries@[j].val.vals@),
                        )
                        &&& self.local.entries@[j].val.vals@.len() == vec.label_dim()
                        &&& self.local.entries@[j].val.buf.upper_bounds@ == vec.bounds()
                        &&& self.local.entries@[j].val.buf.wf()
                    } by {
                        if j != i as int {
                            assert(self.local.entries@[j] == ml1.entries@[j]);
                            assert(ml1.entries@[j].key == crate::vec::spec_hash_label_values(
                                strings_view(ml1.entries@[j].val.vals@),
                            ));
                        } else {
                            assert(ml1.entries@[j].key == crate::vec::spec_hash_label_values(
                                strings_view(ml1.entries@[j].val.vals@),
                            ));
                        }
                    }
                }
                assert forall|j: int|
                    i + 1 <= j < n implies {
                    let k2 = (#[trigger] old(self).local.entries@[j]).key;
                    vec.children.contains_key(k2) == old(vec).children.contains_key(k2) && (old(vec).children.contains_key(k2) ==> vec.children.value_of(k2) == old(vec).children.value_of(k2))
                } by {
                    assert(old(self).local.entries@[i as int].key != old(self).local.entries@[j].key);
                }
            }
            i = i + 1;
        }
        proof {
            assert forall|k2: u64|
                self.local.contains_key(k2) == old(self).local.contains_key(k2) by {
                if old(self).local.contains_key(k2) {
                    let j = old(self).local.index_of(k2);
                    assert(old(self).local.entries@[j].key == k2);
                    assert(self.local.entries@[j].key == k2);
                    assert(self.local.contains_key(k2));
                }
                if self.local.contains_key(k2) {
                    let j = self.local.index_of(k2);
                    assert(self.local.entries@[j].key == k2);
                    assert(old(self).local.entries@[j].key == k2);
                    assert(old(self).local.contains_key(k2));
                }
            }
            assert forall|k2: u64|
                old(self).local.contains_key(k2) implies self.local.value_of(k2).buf.is_clear()
                && vec.children.contains_key(k2) && vec.children.value_of(k2).count == (if old(vec).children.contains_key(k2) {
                old(vec).children.value_of(k2).count as int
            } else {
                0
            }) + old(self).local.value_of(k2).buf.count && vec.children.value_of(k2).sum == (
            if old(vec).children.contains_key(k2) {
                old(vec).children.value_of(k2).sum as int
            } else {
                0
            }) + old(self).local.value_of(k2).buf.sum by {
                let j = old(self).local.index_of(k2);
                assert(old(self).local.entries@[j].key == k2);
                assert(self.local.contains_key(k2));
                let j2 = self.local.index_of(k2);
                assert(self.local.entries@[j2].key == k2);
                if j2 != j {
                    assert(old(self).local.entries@[j2].key == k2);
                    old(self).local.lemma_key_unique(j, j2);
                }
                assert(self.local.value_of(k2).buf.is_clear());
                assert(vec.children.contains_key(k2));
                assert(old(self).local.value_of(k2).buf == old(self).local.entries@[j].val.buf);
            }
        }
    }
}

} // verus!
