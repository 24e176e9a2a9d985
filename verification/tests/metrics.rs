use std::cmp::Ordering;

use prometheus::metrics::build_fq_name;
use prometheus::proto::LabelPair;
use prometheus::Opts;

fn new_label_pair(name: &str, value: &str) -> LabelPair {
    let mut l = LabelPair::new();
    l.set_name(name.to_owned());
    l.set_value(value.to_owned());
    l
}

#[test]
fn test_label_cmp() {
    let tbl = vec![
        ("k1", "k2", Ordering::Less),
        ("k1", "k1", Ordering::Equal),
        ("k1", "k0", Ordering::Greater),
    ];

    for (l1, l2, order) in tbl {
        let lhs = new_label_pair(l1, l1);
        let rhs = new_label_pair(l2, l2);
        assert_eq!(lhs.cmp(&rhs), order);
    }
}

#[test]
fn test_build_fq_name() {
    let tbl = vec![
        ("a", "b", "c", "a_b_c"),
        ("", "b", "c", "b_c"),
        ("a", "", "c", "a_c"),
        ("", "", "c", "c"),
        ("a", "b", "", ""),
        ("a", "", "", ""),
        ("", "b", "", ""),
        (" ", "", "", ""),
    ];

    for (namespace, subsystem, name, res) in tbl {
        assert_eq!(&build_fq_name(namespace, subsystem, name), res);
    }
}

#[test]
fn test_opts_builders() {
    let opts = Opts::new("requests", "how many requests were seen")
        .namespace("app")
        .subsystem("server")
        .const_label("zone", "a")
        .const_label("zone", "b")
        .variable_label("method");
    assert_eq!(opts.fq_name(), "app_server_requests");
    assert_eq!(opts.const_labels.len(), 1);
    assert_eq!(opts.const_labels[0].get_name(), "zone");
    assert_eq!(opts.const_labels[0].get_value(), "b");
    assert_eq!(opts.variable_labels.len(), 1);

    let desc = opts.describe().unwrap();
    assert_eq!(desc.fq_name, "app_server_requests");
    assert_eq!(desc.variable_labels[0], "method");
}

#[test]
fn test_describe_rejects_duplicate_labels() {
    let opts = Opts::new("requests", "help")
        .const_label("method", "GET")
        .variable_label("method");
    assert!(opts.describe().is_err());

    let unnamed = Opts::new("", "help");
    assert!(unnamed.describe().is_err());
}
