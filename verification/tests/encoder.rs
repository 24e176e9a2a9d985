use prometheus::encoder::escape_string;
use prometheus::value::{Value, ValueType};
use prometheus::{Histogram, HistogramOpts, IntCounter, Opts, TextEncoder};

#[test]
fn test_ecape_string() {
    assert_eq!(r"\\", escape_string("\\", false));
    assert_eq!(r"a\\", escape_string("a\\", false));
    assert_eq!(r"\n", escape_string("\n", false));
    assert_eq!(r"a\n", escape_string("a\n", false));
    assert_eq!(r"\\n", escape_string("\\n", false));

    assert_eq!(r##"\\n\""##, escape_string("\\n\"", true));
    assert_eq!(r##"\\\n\""##, escape_string("\\\n\"", true));
    assert_eq!(r##"\\\\n\""##, escape_string("\\\\n\"", true));
    assert_eq!(r##"\"\\n\""##, escape_string("\"\\n\"", true));
}

#[test]
fn test_text_encoder() {
    let counter_opts = Opts::new("test_counter", "test help")
        .const_label("a", "1")
        .const_label("b", "2");
    let mut counter = IntCounter::with_opts(counter_opts).unwrap();
    counter.inc();

    let mf = counter.collect();
    let encoder = TextEncoder::new();
    let txt = encoder.encode(&mf);
    assert!(txt.is_ok());

    let counter_ans = r##"# HELP test_counter test help
# TYPE test_counter counter
test_counter{a="1",b="2"} 1
"##;
    assert_eq!(counter_ans, txt.unwrap().as_str());

    let gauge_opts = Opts::new("test_gauge", "test help")
        .const_label("a", "1")
        .const_label("b", "2");
    let no_vals: Vec<String> = Vec::new();
    let mut gauge = Value::new(&gauge_opts, ValueType::Gauge, 0, &no_vals).unwrap();
    gauge.inc();
    gauge.set(42);

    let mf = vec![gauge.collect()];
    let txt = encoder.encode(&mf);
    assert!(txt.is_ok());

    let gauge_ans = r##"# HELP test_gauge test help
# TYPE test_gauge gauge
test_gauge{a="1",b="2"} 42
"##;
    assert_eq!(gauge_ans, txt.unwrap().as_str());
}

#[test]
fn test_text_encoder_histogram() {
    let opts = HistogramOpts::new("test_histogram", "test help").const_label("a", "1");
    let mut histogram = Histogram::with_opts(opts).unwrap();
    histogram.observe(250);

    let mf = histogram.collect();
    let encoder = TextEncoder::new();
    let res = encoder.encode(&mf);
    assert!(res.is_ok());

    let ans = r##"# HELP test_histogram test help
# TYPE test_histogram histogram
test_histogram_bucket{a="1",le="5"} 0
test_histogram_bucket{a="1",le="10"} 0
test_histogram_bucket{a="1",le="25"} 0
test_histogram_bucket{a="1",le="50"} 0
test_histogram_bucket{a="1",le="100"} 0
test_histogram_bucket{a="1",le="250"} 1
test_histogram_bucket{a="1",le="500"} 1
test_histogram_bucket{a="1",le="1000"} 1
test_histogram_bucket{a="1",le="2500"} 1
test_histogram_bucket{a="1",le="5000"} 1
test_histogram_bucket{a="1",le="10000"} 1
test_histogram_bucket{a="1",le="+Inf"} 1
test_histogram_sum{a="1"} 250
test_histogram_count{a="1"} 1
"##;
    assert_eq!(ans, res.unwrap().as_str());
}

#[test]
fn test_encoder_rejects_empty_family() {
    let encoder = TextEncoder::new();
    let mut family = prometheus::proto::MetricFamily::new();
    family.set_field_type(prometheus::proto::MetricType::COUNTER);
    let empty = vec![family];
    assert!(encoder.encode(&empty).is_err());
}

#[test]
fn test_negative_gauge_rendering() {
    let opts = Opts::new("test_depth", "how far below zero");
    let no_vals: Vec<String> = Vec::new();
    let mut gauge = Value::new(&opts, ValueType::Gauge, 0, &no_vals).unwrap();
    gauge.set(-7);

    let encoder = TextEncoder::new();
    let txt = encoder.encode(&vec![gauge.collect()]).unwrap();
    let ans = "# HELP test_depth how far below zero\n# TYPE test_depth gauge\ntest_depth -7\n";
    assert_eq!(ans, txt.as_str());
}
