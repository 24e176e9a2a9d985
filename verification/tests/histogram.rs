use prometheus::histogram::{check_and_adjust_buckets, default_buckets};
use prometheus::{exponential_buckets, linear_buckets, Histogram, HistogramOpts, HistogramVec};

fn names(labels: &[&str]) -> Vec<String> {
    labels.iter().map(|s| (*s).to_owned()).collect()
}

#[test]
fn test_histogram() {
    let opts = HistogramOpts::new("test1", "test help")
        .const_label("a", "1")
        .const_label("b", "2");
    let mut histogram = Histogram::with_opts(opts).unwrap();
    histogram.observe(1);

    let timer = histogram.start_timer();
    timer.observe_duration(&mut histogram);

    let timer = histogram.start_timer();
    timer.observe_duration(&mut histogram);

    let mut mfs = histogram.collect();
    assert_eq!(mfs.len(), 1);

    let mf = mfs.pop().unwrap();
    let m = mf.get_metric().get(0).unwrap();
    assert_eq!(m.get_label().len(), 2);
    let proto_histogram = m.get_histogram();
    assert_eq!(proto_histogram.get_sample_count(), 3);
    assert!(proto_histogram.get_sample_sum() >= 1);
    assert_eq!(proto_histogram.get_bucket().len(), default_buckets().len());

    let buckets = vec![1, 2, 3];
    let opts = HistogramOpts::new("test2", "test help").buckets(buckets.clone());
    let histogram = Histogram::with_opts(opts).unwrap();
    let mut mfs = histogram.collect();
    assert_eq!(mfs.len(), 1);

    let mf = mfs.pop().unwrap();
    let m = mf.get_metric().get(0).unwrap();
    assert_eq!(m.get_label().len(), 0);
    let proto_histogram = m.get_histogram();
    assert_eq!(proto_histogram.get_sample_count(), 0);
    assert_eq!(proto_histogram.get_sample_sum(), 0);
    assert_eq!(proto_histogram.get_bucket().len(), buckets.len())
}

#[test]
fn test_buckets_invalidation() {
    let table = vec![
        (vec![], true, default_buckets().len()),
        (vec![-20, -10, -5, 0, 5, 10, 20], true, 7),
        (vec![-20, -10, -5, 100, 5, 10, 20], false, 7),
        (vec![-20, -10, -5, 0, 5, 10, i64::MAX], true, 6),
    ];

    for (buckets, is_ok, length) in table {
        let got = check_and_adjust_buckets(buckets);
        assert_eq!(got.is_ok(), is_ok);
        if is_ok {
            assert_eq!(got.unwrap().len(), length);
        }
    }
}

#[test]
fn test_buckets_functions() {
    let linear_table = vec![
        (-15, 5, 6, true, vec![-15, -10, -5, 0, 5, 10]),
        (-15, 0, 6, false, vec![]),
        (-15, 5, 0, false, vec![]),
    ];

    for (param1, param2, param3, is_ok, expected) in linear_table {
        let got = linear_buckets(param1, param2, param3);
        assert_eq!(got.is_ok(), is_ok);
        if got.is_ok() {
            assert_eq!(got.unwrap(), expected);
        }
    }

    let exponential_table = vec![
        (100, 2, 3, true, vec![100, 200, 400]),
        (100, 1, 3, false, vec![]),
        (100, 2, 0, false, vec![]),
    ];

    for (param1, param2, param3, is_ok, expected) in exponential_table {
        let got = exponential_buckets(param1, param2, param3);
        assert_eq!(got.is_ok(), is_ok);
        if got.is_ok() {
            assert_eq!(got.unwrap(), expected);
        }
    }
}

#[test]
fn test_histogram_vec_with_label_values() {
    let mut vec = HistogramVec::new(
        HistogramOpts::new("test_histogram_vec", "test histogram vec help"),
        &names(&["l1", "l2"]),
    )
    .unwrap();

    assert!(vec.remove_label_values(&names(&["v1", "v2"])).is_err());
    let k = vec.with_label_values(&names(&["v1", "v2"]));
    vec.observe(k, 1);
    assert!(vec.remove_label_values(&names(&["v1", "v2"])).is_ok());

    assert!(vec.remove_label_values(&names(&["v1"])).is_err());
    assert!(vec.remove_label_values(&names(&["v1", "v3"])).is_err());
}

#[test]
fn test_histogram_vec_with_opts_buckets() {
    let labels = ["l1", "l2"];
    let buckets = vec![1, 2, 3];
    let mut vec = HistogramVec::new(
        HistogramOpts::new("test_histogram_vec", "test histogram vec help")
            .buckets(buckets.clone()),
        &names(&labels),
    )
    .unwrap();

    let k = vec.with_label_values(&names(&["v1", "v2"]));
    vec.observe(k, 1);

    let mfs = vec.collect();
    let m = mfs[0].get_metric().get(0).unwrap();
    assert_eq!(m.get_label().len(), labels.len());

    let proto_histogram = m.get_histogram();
    assert_eq!(proto_histogram.get_sample_count(), 1);
    assert_eq!(proto_histogram.get_sample_sum(), 1);
    assert_eq!(proto_histogram.get_bucket().len(), buckets.len())
}

#[test]
fn test_histogram_local() {
    let buckets = vec![1, 2, 3];
    let opts =
        HistogramOpts::new("test_histogram_local", "test histogram local help").buckets(buckets);
    let mut histogram = Histogram::with_opts(opts).unwrap();
    let mut local = histogram.local();

    let check = |histogram: &Histogram, count: u64, sum: i64| {
        let m = histogram.metric();
        let proto_histogram = m.get_histogram();
        assert_eq!(proto_histogram.get_sample_count(), count);
        assert_eq!(proto_histogram.get_sample_sum(), sum);
    };

    local.observe(1);
    local.observe(4);
    check(&histogram, 0, 0);

    local.flush(&mut histogram);
    check(&histogram, 2, 5);

    local.observe(2);
    local.clear();
    check(&histogram, 2, 5);

    local.observe(2);
    local.flush(&mut histogram);
    check(&histogram, 3, 7);
}

#[test]
fn test_histogram_vec_local() {
    let mut vec = HistogramVec::new(
        HistogramOpts::new("test_histogram_vec_local", "test histogram vec help"),
        &names(&["l1", "l2"]),
    )
    .unwrap();
    let mut local_vec = vec.local();

    vec.remove_label_values(&names(&["v1", "v2"])).unwrap_err();
    local_vec
        .remove_label_values(&mut vec, &names(&["v1", "v2"]))
        .unwrap_err();

    let check = |vec: &HistogramVec, k: u64, count: u64, sum: i64| {
        assert_eq!(vec.get_sample_count(k), count);
        assert_eq!(vec.get_sample_sum(k), sum);
    };

    let v12 = names(&["v1", "v2"]);
    {
        // Flush a single local buffer.
        let k = local_vec.with_label_values(&mut vec, &v12);
        local_vec.observe(k, 1);
        local_vec.flush(&mut vec);
        check(&vec, k, 1, 1);
    }

    {
        // Flush the whole local vector.
        let k = local_vec.with_label_values(&mut vec, &v12);
        local_vec.observe(k, 4);
        local_vec.flush(&mut vec);
        check(&vec, k, 2, 5);
    }
    {
        // Reset the label combination.
        local_vec.remove_label_values(&mut vec, &v12).unwrap();

        let k = local_vec.with_label_values(&mut vec, &v12);
        local_vec.observe(k, 2);
        local_vec.flush(&mut vec);
        check(&vec, k, 1, 2);
    }
}

#[test]
fn test_local_histogram_timer() {
    let opts = HistogramOpts::new("test_local_timer", "test help");
    let histogram = Histogram::with_opts(opts).unwrap();
    let mut local = histogram.local();

    let timer = local.start_timer();
    timer.observe_duration(&mut local);
    assert_eq!(local.core.count, 1);
}

#[test]
fn test_histogram_vec_with_map() {
    let mut vec = HistogramVec::new(
        HistogramOpts::new("hist_by_map", "help").buckets(vec![1, 2, 3]),
        &names(&["l1"]),
    )
    .unwrap();

    let mut l = prometheus::proto::LabelPair::new();
    l.set_name("l1".to_owned());
    l.set_value("v1".to_owned());
    let labels = vec![l];

    assert!(vec.remove(&labels).is_err());
    let k = vec.with(&labels);
    vec.observe(k, 2);
    assert_eq!(vec.get_sample_count(k), 1);
    assert!(vec.remove(&labels).is_ok());
    assert!(vec.remove(&labels).is_err());
}

#[test]
fn test_histogram_rejects_bucket_label() {
    let opts = HistogramOpts::new("hist_bad", "help").const_label("le", "1");
    assert!(Histogram::with_opts(opts).is_err());
}

#[test]
fn test_histogram_with_opts_reports_cardinality() {
    let opts = HistogramOpts::new("h", "help").variable_label("method");
    match Histogram::with_opts(opts) {
        Err(prometheus::Error::InconsistentCardinality { expect, got }) => {
            assert_eq!(expect, 1);
            assert_eq!(got, 0);
        }
        other => panic!("expected a cardinality error, got {:?}", other),
    }
}

#[test]
fn test_histogram_vec_try_with_label_values() {
    let mut vec = HistogramVec::new(
        HistogramOpts::new("h", "help").buckets(vec![1, 2, 3]),
        &names(&["l1", "l2"]),
    )
    .unwrap();
    assert!(vec.try_with_label_values(&names(&["v1"])).is_err());
    let k = vec.try_with_label_values(&names(&["v1", "v2"])).unwrap();
    vec.observe(k, 2);
    assert_eq!(vec.get_sample_count(k), 1);

    let mut local = vec.local();
    assert!(local
        .try_with_label_values(&mut vec, &names(&["v1"]))
        .is_err());
    let k2 = local
        .try_with_label_values(&mut vec, &names(&["v1", "v2"]))
        .unwrap();
    assert_eq!(k, k2);
}
