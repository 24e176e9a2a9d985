use vstd::prelude::*;

verus! {

use crate::histogram::{bucket_of, Histogram, HistogramCore, LocalHistogram};

#[verifier::external_type_specification]
#[verifier::external_body]
pub struct ExInstant(std::time::Instant);

/// Relies on std's Instant::now: a reading of the monotonic clock.
/// Nothing can be promised of the reading itself.
pub assume_specification[ std::time::Instant::now ]() -> std::time::Instant;

/// Relies on std's Instant::elapsed: the time passed since the reading
/// was taken. Nothing can be promised of a clock's value.
pub assume_specification[ std::time::Instant::elapsed ](i: &std::time::Instant) -> core::time::Duration;

/// Relies on std's Duration::as_millis: the duration in whole
/// milliseconds. Nothing is needed of the value here beyond its type.
pub assume_specification[ core::time::Duration::as_millis ](d: &core::time::Duration) -> u128;

/// The whole milliseconds passed since the instant was taken, clamped to
/// the largest representable count.
pub fn elapsed_millis(start: &std::time::Instant) -> (ms: i64)
    ensures
        ms >= 0,
{
    let d = start.elapsed();
    let m = d.as_millis();
    if m > (i64::MAX as u128) {
        i64::MAX
    } else {
        m as i64
    }
}

/// What observing one elapsed reading leaves of a histogram state: some
/// non-negative number of milliseconds was counted — into the total
/// count, the sum, and the bucket its size selects — unless the totals
/// had no room for it, in which case nothing changed. Whenever the
/// totals have room for every possible reading (count below its maximum,
/// sum not positive), the observation is owed.
pub open spec fn timer_observed(pre: HistogramCore, post: HistogramCore) -> bool {
    &&& HistogramCore::same_meta(post, pre)
    &&& (post.count == pre.count ==> post == pre)
    &&& (pre.count < u64::MAX && pre.sum <= 0 ==> post.count == pre.count + 1)
    &&& (post.count == pre.count || post.count == pre.count + 1)
    &&& (post.count == pre.count + 1 ==> exists|v: i64|
        {
            &&& #[trigger] bucket_of(pre.upper_bounds@, v) >= 0
            &&& v >= 0
            &&& post.sum == pre.sum + v
            &&& (if bucket_of(pre.upper_bounds@, v) < pre.upper_bounds@.len() {
                post.counts@ == pre.counts@.update(
                    bucket_of(pre.upper_bounds@, v),
                    (pre.counts@[bucket_of(pre.upper_bounds@, v)] + 1) as u64,
                )
            } else {
                post.counts@ == pre.counts@
            })
        })
}

/// A running timer for one histogram. It observes the elapsed time
/// exactly once: observing consumes the timer, so no second observation
/// of the same span can be written, and a timer simply dropped observes
/// nothing.
#[derive(Debug)]
pub struct HistogramTimer {
    pub start: std::time::Instant,
}

impl HistogramTimer {
    /// Observe the time elapsed since the timer started, in whole
    /// milliseconds, into the histogram. The observation happens exactly
    /// once: the count grows by one — owed outright whenever the totals
    /// have room for every possible reading — and only an observation
    /// that would run a total over is refused, leaving the histogram
    /// untouched.
    pub fn observe_duration(self, h: &mut Histogram)
        requires
            old(h).core.wf(),
        ensures
            final(h).core.wf(),
            timer_observed(old(h).core, final(h).core),
    {
        let ms = elapsed_millis(&self.start);
        let ghost pre = h.core;
        let ok = h.try_observe(ms);
        proof {
            crate::histogram::lemma_bucket_of_nonneg(pre.upper_bounds@, ms);
            if ok {
                assert(bucket_of(pre.upper_bounds@, ms) >= 0 && ms >= 0 && h.core.sum == pre.sum
                    + ms);
            } else {
                assert(pre.sum > 0 || pre.count == u64::MAX);
            }
        }
    }
}

impl Histogram {
    /// Start a timer whose elapsed time this histogram will observe.
    pub fn start_timer(&self) -> (r: HistogramTimer) {
        HistogramTimer { start: std::time::Instant::now() }
    }
}

/// A running timer for one thread-local histogram buffer, observing
/// exactly once, by consumption, like the shared histogram's timer.
#[derive(Debug)]
pub struct LocalHistogramTimer {
    pub start: std::time::Instant,
}

/// What observing one elapsed reading leaves of a local buffer: as for
/// the shared histogram, with the bounds kept.
pub open spec fn local_timer_observed(
    pre: crate::histogram::LocalHistogramCore,
    post: crate::histogram::LocalHistogramCore,
) -> bool {
    &&& post.upper_bounds == pre.upper_bounds
    &&& (post.count == pre.count ==> post == pre)
    &&& (pre.count < u64::MAX && pre.sum <= 0 ==> post.count == pre.count + 1)
    &&& (post.count == pre.count || post.count == pre.count + 1)
    &&& (post.count == pre.count + 1 ==> exists|v: i64|
        {
            &&& #[trigger] bucket_of(pre.upper_bounds@, v) >= 0
            &&& v >= 0
            &&& post.sum == pre.sum + v
            &&& (if bucket_of(pre.upper_bounds@, v) < pre.upper_bounds@.len() {
                post.counts@ == pre.counts@.update(
                    bucket_of(pre.upper_bounds@, v),
                    (pre.counts@[bucket_of(pre.upper_bounds@, v)] + 1) as u64,
                )
            } else {
                post.counts@ == pre.counts@
            })
        })
}

impl LocalHistogramTimer {
    /// Observe the time elapsed since the timer started, in whole
    /// milliseconds, into the buffer: exactly once, owed outright
    /// whenever the buffer's totals have room for every possible
    /// reading.
    pub fn observe_duration(self, l: &mut LocalHistogram)
        requires
            old(l).core.wf(),
        ensures
            final(l).core.wf(),
            local_timer_observed(old(l).core, final(l).core),
    {
        let ms = elapsed_millis(&self.start);
        let ghost pre = l.core;
        let ok = l.try_observe(ms);
        proof {
            crate::histogram::lemma_bucket_of_nonneg(pre.upper_bounds@, ms);
            if ok {
                assert(bucket_of(pre.upper_bounds@, ms) >= 0 && ms >= 0 && l.core.sum == pre.sum
                    + ms);
            } else {
                assert(pre.sum > 0 || pre.count == u64::MAX);
            }
        }
    }
}

impl LocalHistogram {
    /// Start a timer whose elapsed time this buffer will observe.
    pub fn start_timer(&self) -> (r: LocalHistogramTimer) {
        LocalHistogramTimer { start: std::time::Instant::now() }
    }
}

} // verus!
