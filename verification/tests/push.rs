use prometheus::proto::{LabelPair, Metric, MetricFamily};
use prometheus::push::{build_push_url, check_push_labels, parse_resp};
use prometheus::hostname_grouping_key;

#[test]
fn test_hostname_grouping_key() {
    let map = hostname_grouping_key();
    assert!(!map.is_empty());
}

#[test]
fn test_push_bad_label_name() {
    // An error message names what was wrong: a job label, or a grouping
    // label, already on the pushed metric.
    let table = vec![("job", "job label"), ("instance", "grouping label")];

    for case in table {
        let mut l = LabelPair::new();
        l.set_name(case.0.to_owned());
        let mut m = Metric::new();
        m.set_label(vec![l]);
        let mut mf = MetricFamily::new();
        mf.set_metric(vec![m]);
        let res = check_push_labels(&vec![mf], &hostname_grouping_key());
        assert!(res.unwrap_err().description().contains(case.1));
    }
}

#[test]
fn test_build_push_url() {
    let grouping = hostname_grouping_key();
    let url = build_push_url("test", &grouping, "myhost:9091").unwrap();
    assert_eq!(url, "http://myhost:9091/metrics/job/test/instance/unknown");

    let url = build_push_url("test", &grouping, "https://push.example/").unwrap();
    assert_eq!(url, "https://push.example/metrics/job/test/instance/unknown");

    assert!(build_push_url("a/b", &grouping, "myhost:9091").is_err());
}

#[test]
fn test_parse_resp() {
    let resp = "HTTP/1.1 202 Accepted\r\nContent-Length: 0\r\n\r\n";
    assert_eq!(parse_resp(resp).unwrap(), "202");

    assert!(parse_resp("").is_err());
    assert!(parse_resp("nostatus\r\n").is_err());
}
