use prometheus::proto::LabelPair;
use prometheus::{IntCounter, IntCounterVec, Opts};

#[test]
fn test_counter() {
    let opts = Opts::new("test", "test help")
        .const_label("a", "1")
        .const_label("b", "2");
    let mut counter = IntCounter::with_opts(opts).unwrap();
    counter.inc();
    assert_eq!(counter.get(), 1);
    counter.inc_by(42);
    assert_eq!(counter.get(), 43);

    let mut mfs = counter.collect();
    assert_eq!(mfs.len(), 1);

    let mf = mfs.pop().unwrap();
    let m = mf.get_metric().get(0).unwrap();
    assert_eq!(m.get_label().len(), 2);
    assert_eq!(m.get_counter().get_value(), 43);
}

#[test]
fn test_int_counter() {
    let mut counter = IntCounter::new("foo", "bar").unwrap();
    counter.inc();
    assert_eq!(counter.get(), 1);
    counter.inc_by(11);
    assert_eq!(counter.get(), 12);

    let mut mfs = counter.collect();
    assert_eq!(mfs.len(), 1);

    let mf = mfs.pop().unwrap();
    let m = mf.get_metric().get(0).unwrap();
    assert_eq!(m.get_label().len(), 0);
    assert_eq!(m.get_counter().get_value(), 12);
}

#[test]
fn test_local_counter() {
    let mut counter = IntCounter::new("counter", "counter helper").unwrap();
    let mut local_counter1 = counter.local();
    let mut local_counter2 = counter.local();

    local_counter1.inc();
    local_counter2.inc();
    assert_eq!(local_counter1.get(), 1);
    assert_eq!(local_counter2.get(), 1);
    assert_eq!(counter.get(), 0);
    local_counter1.flush(&mut counter);
    assert_eq!(local_counter1.get(), 0);
    assert_eq!(counter.get(), 1);
    local_counter2.flush(&mut counter);
    assert_eq!(counter.get(), 2);
}

#[test]
fn test_int_local_counter() {
    let mut counter = IntCounter::new("foo", "bar").unwrap();
    let mut local_counter = counter.local();

    local_counter.inc();
    assert_eq!(local_counter.get(), 1);
    assert_eq!(counter.get(), 0);

    local_counter.inc_by(5);
    local_counter.flush(&mut counter);
    assert_eq!(local_counter.get(), 0);
    assert_eq!(counter.get(), 6);
}

fn label_map(pairs: &[(&str, &str)]) -> Vec<LabelPair> {
    let mut v = Vec::new();
    for (n, val) in pairs {
        let mut l = LabelPair::new();
        l.set_name((*n).to_owned());
        l.set_value((*val).to_owned());
        v.push(l);
    }
    v
}

fn names(labels: &[&str]) -> Vec<String> {
    labels.iter().map(|s| (*s).to_owned()).collect()
}

#[test]
fn test_counter_vec_with_labels() {
    let mut vec = IntCounterVec::new(
        Opts::new("test_couter_vec", "test counter vec help"),
        &names(&["l1", "l2"]),
    )
    .unwrap();

    let labels = label_map(&[("l1", "v1"), ("l2", "v2")]);
    assert!(vec.remove(&labels).is_err());

    let k = vec.with(&labels);
    vec.inc(k);
    assert!(vec.remove(&labels).is_ok());
    assert!(vec.remove(&labels).is_err());

    let labels2 = label_map(&[("l1", "v2"), ("l2", "v1")]);

    let k = vec.with(&labels);
    vec.inc(k);
    assert!(vec.remove(&labels2).is_err());

    let k = vec.with(&labels);
    vec.inc(k);

    let labels3 = label_map(&[("l1", "v1")]);
    assert!(vec.remove(&labels3).is_err());
}

#[test]
fn test_int_counter_vec() {
    let mut vec = IntCounterVec::new(Opts::new("foo", "bar"), &names(&["l1", "l2"])).unwrap();

    let k13 = vec.with_label_values(&names(&["v1", "v3"]));
    vec.inc(k13);
    assert_eq!(vec.get(k13), 1);

    let k12 = vec.with_label_values(&names(&["v1", "v2"]));
    vec.inc_by(k12, 12);
    assert_eq!(vec.get(k13), 1);
    assert_eq!(vec.get(k12), 12);

    let k42 = vec.with_label_values(&names(&["v4", "v2"]));
    vec.inc_by(k42, 2);
    assert_eq!(vec.get(k13), 1);
    assert_eq!(vec.get(k12), 12);
    assert_eq!(vec.get(k42), 2);

    let k13b = vec.with_label_values(&names(&["v1", "v3"]));
    vec.inc_by(k13b, 5);
    assert_eq!(vec.get(k13), 6);
    assert_eq!(vec.get(k12), 12);
    assert_eq!(vec.get(k42), 2);
}

#[test]
fn test_counter_vec_with_label_values() {
    let mut vec = IntCounterVec::new(
        Opts::new("test_vec", "test counter vec help"),
        &names(&["l1", "l2"]),
    )
    .unwrap();

    assert!(vec.remove_label_values(&names(&["v1", "v2"])).is_err());
    let k = vec.with_label_values(&names(&["v1", "v2"]));
    vec.inc(k);
    assert!(vec.remove_label_values(&names(&["v1", "v2"])).is_ok());

    let k = vec.with_label_values(&names(&["v1", "v2"]));
    vec.inc(k);
    assert!(vec.remove_label_values(&names(&["v1"])).is_err());
    assert!(vec.remove_label_values(&names(&["v1", "v3"])).is_err());
}

#[test]
fn test_counter_vec_local() {
    let mut vec = IntCounterVec::new(
        Opts::new("test_vec_local", "test counter vec help"),
        &names(&["l1", "l2"]),
    )
    .unwrap();
    let mut local_vec_1 = vec.local();

    assert!(local_vec_1
        .remove_label_values(&mut vec, &names(&["v1", "v2"]))
        .is_err());

    let v12 = names(&["v1", "v2"]);
    let k = local_vec_1.with_label_values(&mut vec, &v12);
    local_vec_1.inc_by(k, 23);
    assert_eq!(local_vec_1.get(k), 23);
    let shared_key = vec.with_label_values(&v12);
    assert_eq!(vec.get(shared_key), 0);

    local_vec_1.flush(&mut vec);
    assert_eq!(local_vec_1.get(k), 0);
    assert_eq!(vec.get(k), 23);

    local_vec_1.flush(&mut vec);
    assert_eq!(local_vec_1.get(k), 0);
    assert_eq!(vec.get(k), 23);

    local_vec_1.inc_by(k, 11);
    assert_eq!(local_vec_1.get(k), 11);
    assert_eq!(vec.get(k), 23);

    local_vec_1.flush(&mut vec);
    assert_eq!(local_vec_1.get(k), 0);
    assert_eq!(vec.get(k), 34);

    // Removal drops the local delta and the shared child together.
    assert!(local_vec_1
        .remove_label_values(&mut vec, &v12)
        .is_ok());
    let k = local_vec_1.with_label_values(&mut vec, &v12);
    assert_eq!(local_vec_1.get(k), 0);
    assert_eq!(vec.get(k), 0);

    local_vec_1.inc(k);
    assert!(local_vec_1
        .remove_label_values(&mut vec, &names(&["v1"]))
        .is_err());
    assert!(local_vec_1
        .remove_label_values(&mut vec, &names(&["v1", "v3"]))
        .is_err());

    local_vec_1.inc_by(k, 13);
    assert_eq!(local_vec_1.get(k), 14);
    assert_eq!(vec.get(k), 0);

    let mut local_vec_2 = vec.local();
    let k2 = local_vec_2.with_label_values(&mut vec, &v12);
    local_vec_2.inc_by(k2, 7);
    assert_eq!(local_vec_2.get(k2), 7);

    local_vec_1.flush(&mut vec);
    local_vec_2.flush(&mut vec);
    assert_eq!(vec.get(k), 21);

    local_vec_1.flush(&mut vec);
    local_vec_2.flush(&mut vec);
    assert_eq!(vec.get(k), 21);
}

#[test]
fn test_int_counter_vec_local() {
    let mut vec = IntCounterVec::new(Opts::new("foo", "bar"), &names(&["l1", "l2"])).unwrap();
    let mut local_vec_1 = vec.local();
    assert!(local_vec_1
        .remove_label_values(&mut vec, &names(&["v1", "v2"]))
        .is_err());

    let v12 = names(&["v1", "v2"]);
    let k = local_vec_1.with_label_values(&mut vec, &v12);
    local_vec_1.inc_by(k, 23);
    assert_eq!(local_vec_1.get(k), 23);
    assert_eq!(vec.get(k), 0);

    local_vec_1.flush(&mut vec);
    assert_eq!(local_vec_1.get(k), 0);
    assert_eq!(vec.get(k), 23);

    local_vec_1.flush(&mut vec);
    assert_eq!(local_vec_1.get(k), 0);
    assert_eq!(vec.get(k), 23);

    local_vec_1.inc_by(k, 11);
    assert_eq!(local_vec_1.get(k), 11);
    assert_eq!(vec.get(k), 23);

    local_vec_1.flush(&mut vec);
    assert_eq!(local_vec_1.get(k), 0);
    assert_eq!(vec.get(k), 34);
}

#[test]
fn test_remove_wrong_cardinality_error() {
    let mut vec = IntCounterVec::new(Opts::new("foo", "bar"), &names(&["l1", "l2"])).unwrap();
    match vec.remove_label_values(&names(&["v1"])) {
        Err(prometheus::Error::InconsistentCardinality { expect, got }) => {
            assert_eq!(expect, 2);
            assert_eq!(got, 1);
        }
        other => panic!("expected a cardinality error, got {:?}", other),
    }
}

#[test]
fn test_error_descriptions() {
    let e = prometheus::Error::Msg("something odd".to_owned());
    assert_eq!(e.description(), "something odd");
    let e = prometheus::Error::InconsistentCardinality { expect: 2, got: 1 };
    assert_eq!(e.description(), "inconsistent label cardinality");
    let e = prometheus::Error::AlreadyReg;
    assert!(e.description().contains("registration"));
}

#[test]
fn test_with_opts_reports_cardinality() {
    let opts = Opts::new("foo", "bar").variable_label("method");
    match IntCounter::with_opts(opts) {
        Err(prometheus::Error::InconsistentCardinality { expect, got }) => {
            assert_eq!(expect, 1);
            assert_eq!(got, 0);
        }
        other => panic!("expected a cardinality error, got {:?}", other),
    }
}

#[test]
fn test_try_with_label_values_reports_cardinality() {
    let mut vec = IntCounterVec::new(Opts::new("foo", "bar"), &names(&["l1", "l2"])).unwrap();
    match vec.try_with_label_values(&names(&["v1"])) {
        Err(prometheus::Error::InconsistentCardinality { expect, got }) => {
            assert_eq!(expect, 2);
            assert_eq!(got, 1);
        }
        other => panic!("expected a cardinality error, got {:?}", other),
    }
    let k = vec.try_with_label_values(&names(&["v1", "v2"])).unwrap();
    vec.inc(k);
    assert_eq!(vec.get(k), 1);

    let mut local = vec.local();
    assert!(local
        .try_with_label_values(&mut vec, &names(&["v1"]))
        .is_err());
    let k2 = local
        .try_with_label_values(&mut vec, &names(&["v1", "v2"]))
        .unwrap();
    assert_eq!(k, k2);
}

#[test]
fn test_try_with_reports_missing_label() {
    let mut vec = IntCounterVec::new(Opts::new("foo", "bar"), &names(&["l1"])).unwrap();
    let labels = label_map(&[("other", "v")]);
    assert!(vec.try_with(&labels).is_err());
    let labels = label_map(&[("l1", "v")]);
    let k = vec.try_with(&labels).unwrap();
    vec.inc(k);
    assert_eq!(vec.get(k), 1);
}
