use prometheus::{Histogram, HistogramOpts, IntCounter, IntCounterVec, Opts};

fn names(labels: &[&str]) -> Vec<String> {
    labels.iter().map(|s| (*s).to_owned()).collect()
}

// A fresh counter after a sequence of non-negative increments shows
// exactly their sum.
#[test]
fn test_counter_sums_increments() {
    let mut counter = IntCounter::new("total", "help").unwrap();
    let deltas: Vec<i64> = vec![0, 3, 1, 7, 0, 11];
    let mut expected: i64 = 0;
    for d in deltas {
        counter.inc_by(d);
        expected += d;
    }
    assert_eq!(counter.get(), expected);
    assert_eq!(counter.get(), 22);
}

// Exported cumulative bucket counts never decrease with the bucket index,
// and the total count caps them all.
#[test]
fn test_cumulative_counts_monotone() {
    let opts = HistogramOpts::new("lat", "help").buckets(vec![10, 20, 30, 40]);
    let mut h = Histogram::with_opts(opts).unwrap();
    for v in [5, 15, 15, 35, 100, 7] {
        h.observe(v);
    }
    let mfs = h.collect();
    let ph = mfs[0].get_metric()[0].get_histogram();
    let mut prev: u64 = 0;
    for b in ph.get_bucket() {
        assert!(b.get_cumulative_count() >= prev);
        prev = b.get_cumulative_count();
    }
    // The implicit unbounded bucket reports the total count.
    assert!(ph.get_sample_count() >= prev);
    assert_eq!(ph.get_sample_count(), 6);
}

// The same tuple routes to the same child; increments through either key
// are seen through the other.
#[test]
fn test_same_tuple_same_child() {
    let mut vec = IntCounterVec::new(Opts::new("reqs", "help"), &names(&["method"])).unwrap();
    let k1 = vec.with_label_values(&names(&["GET"]));
    let k2 = vec.with_label_values(&names(&["GET"]));
    assert_eq!(k1, k2);
    vec.inc_by(k1, 5);
    assert_eq!(vec.get(k2), 5);
    vec.inc(k2);
    assert_eq!(vec.get(k1), 6);
}

// Removing a tuple's child and looking the tuple up again yields a fresh
// child at zero.
#[test]
fn test_remove_then_fresh_child() {
    let mut vec = IntCounterVec::new(Opts::new("reqs", "help"), &names(&["method"])).unwrap();
    let k = vec.with_label_values(&names(&["GET"]));
    vec.inc_by(k, 9);
    assert_eq!(vec.get(k), 9);
    vec.remove_label_values(&names(&["GET"])).unwrap();
    let k2 = vec.with_label_values(&names(&["GET"]));
    assert_eq!(k, k2);
    assert_eq!(vec.get(k2), 0);
}

// A second flush right after a first does not move the shared value.
#[test]
fn test_flush_idempotent() {
    let mut counter = IntCounter::new("total", "help").unwrap();
    let mut local = counter.local();
    local.inc();
    local.flush(&mut counter);
    assert_eq!(counter.get(), 1);
    local.flush(&mut counter);
    assert_eq!(counter.get(), 1);
    assert_eq!(local.get(), 0);
}

// The worked example: a labeled request counter and a small histogram.
// The histogram stands in whole units, ten to one observation of the
// original fractional values, which an integer histogram cannot carry.
#[test]
fn test_end_to_end_example() {
    let mut requests = IntCounterVec::new(
        Opts::new("requests_total", "requests seen"),
        &names(&["method", "code"]),
    )
    .unwrap();
    let get200 = requests.with_label_values(&names(&["GET", "200"]));
    requests.inc(get200);
    requests.inc(get200);
    requests.inc(get200);
    requests.inc_by(get200, 2);
    assert_eq!(requests.get(get200), 5);
    let post200 = requests.with_label_values(&names(&["POST", "200"]));
    assert_eq!(requests.get(post200), 0);

    let opts = HistogramOpts::new("latency", "help").buckets(vec![10, 20, 30]);
    let mut h = Histogram::with_opts(opts).unwrap();
    h.observe(5);
    h.observe(15);
    h.observe(50);
    let mfs = h.collect();
    let ph = mfs[0].get_metric()[0].get_histogram();
    let cumulative: Vec<u64> = ph
        .get_bucket()
        .iter()
        .map(|b| b.get_cumulative_count())
        .collect();
    assert_eq!(cumulative, vec![1, 2, 2]);
    assert_eq!(ph.get_sample_count(), 3);
    assert_eq!(ph.get_sample_sum(), 70);
}
