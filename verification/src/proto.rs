use vstd::prelude::*;

verus! {

use core::cmp::Ordering;
use crate::text::{lex_lt, str_cmp};

/// One label of a sample: a name and a value.
#[derive(Debug)]
pub struct LabelPair {
    pub name: String,
    pub value: String,
}

impl Clone for LabelPair {
    fn clone(&self) -> (r: Self)
        ensures
            r == *self,
    {
        LabelPair { name: self.name.clone(), value: self.value.clone() }
    }
}

impl LabelPair {
    /// An empty label pair.
    pub fn new() -> (r: LabelPair)
        ensures
            r.name@ == Seq::<char>::empty(),
            r.value@ == Seq::<char>::empty(),
    {
        LabelPair { name: String::new(), value: String::new() }
    }

    pub fn set_name(&mut self, name: String)
        ensures
            final(self).name == name,
            final(self).value == old(self).value,
    {
        self.name = name;
    }

    pub fn set_value(&mut self, value: String)
        ensures
            final(self).value == value,
            final(self).name == old(self).name,
    {
        self.value = value;
    }

    pub fn get_name(&self) -> (r: &str)
        ensures
            r@ == self.name@,
    {
        self.name.as_str()
    }

    pub fn get_value(&self) -> (r: &str)
        ensures
            r@ == self.value@,
    {
        self.value.as_str()
    }

    /// Label pairs are ordered by name alone, lexicographically.
    pub fn cmp(&self, other: &LabelPair) -> (o: Ordering)
        ensures
            (o == Ordering::Less) == lex_lt(self.name@, other.name@),
            (o == Ordering::Equal) == (self.name@ == other.name@),
            (o == Ordering::Greater) == lex_lt(other.name@, self.name@),
    {
        str_cmp(self.name.as_str(), other.name.as_str())
    }
}

/// The kind of a metric family.
#[derive(Clone, Copy, Debug, PartialEq, Eq, Structural)]
pub enum MetricType {
    COUNTER,
    GAUGE,
    SUMMARY,
    UNTYPED,
    HISTOGRAM,
}

impl MetricType {
    /// The kind's name as it appears in the text exposition format.
    pub fn wire_name(&self) -> (r: &str)
        ensures
            r@ == match self {
                MetricType::COUNTER => "counter"@,
                MetricType::GAUGE => "gauge"@,
                MetricType::SUMMARY => "summary"@,
                MetricType::UNTYPED => "untyped"@,
                MetricType::HISTOGRAM => "histogram"@,
            },
    {
        match self {
            MetricType::COUNTER => "counter",
            MetricType::GAUGE => "gauge",
            MetricType::SUMMARY => "summary",
            MetricType::UNTYPED => "untyped",
            MetricType::HISTOGRAM => "histogram",
        }
    }
}

/// The exported value of a counter.
#[derive(Clone, Copy, Debug, PartialEq, Eq, Structural)]
pub struct Counter {
    pub value: i64,
}

impl Counter {
    pub fn new() -> (r: Counter)
        ensures
            r.value == 0,
    {
        Counter { value: 0 }
    }

    pub fn set_value(&mut self, value: i64)
        ensures
            final(self).value == value,
    {
        self.value = value;
    }

    pub fn get_value(&self) -> (r: i64)
        ensures
            r == self.value,
    {
        self.value
    }
}

/// The exported value of a gauge.
#[derive(Clone, Copy, Debug, PartialEq, Eq, Structural)]
pub struct Gauge {
    pub value: i64,
}

impl Gauge {
    pub fn new() -> (r: Gauge)
        ensures
            r.value == 0,
    {
        Gauge { value: 0 }
    }

    pub fn set_value(&mut self, value: i64)
        ensures
            final(self).value == value,
    {
        self.value = value;
    }

    pub fn get_value(&self) -> (r: i64)
        ensures
            r == self.value,
    {
        self.value
    }
}

/// One exported histogram bucket: its inclusive upper bound and the number
/// of observations at or under that bound (cumulative over lower buckets).
#[derive(Clone, Copy, Debug, PartialEq, Eq, Structural)]
pub struct Bucket {
    pub cumulative_count: u64,
    pub upper_bound: i64,
}

impl Bucket {
    pub fn new() -> (r: Bucket)
        ensures
            r.cumulative_count == 0,
            r.upper_bound == 0,
    {
        Bucket { cumulative_count: 0, upper_bound: 0 }
    }

    pub fn set_cumulative_count(&mut self, c: u64)
        ensures
            final(self).cumulative_count == c,
            final(self).upper_bound == old(self).upper_bound,
    {
        self.cumulative_count = c;
    }

    pub fn get_cumulative_count(&self) -> (r: u64)
        ensures
            r == self.cumulative_count,
    {
        self.cumulative_count
    }

    pub fn set_upper_bound(&mut self, b: i64)
        ensures
            final(self).upper_bound == b,
            final(self).cumulative_count == old(self).cumulative_count,
    {
        self.upper_bound = b;
    }

    pub fn get_upper_bound(&self) -> (r: i64)
        ensures
            r == self.upper_bound,
    {
        self.upper_bound
    }
}

/// The exported state of a histogram: total count, total sum, and the
/// cumulative buckets in ascending bound order.
#[derive(Debug)]
pub struct Histogram {
    pub sample_count: u64,
    pub sample_sum: i64,
    pub bucket: Vec<Bucket>,
}

/// Whether two exported histograms carry the same data.
pub open spec fn histogram_eq(a: Histogram, b: Histogram) -> bool {
    &&& a.sample_count == b.sample_count
    &&& a.sample_sum == b.sample_sum
    &&& a.bucket@ == b.bucket@
}

/// Whether two optional exported histograms carry the same data.
pub open spec fn opt_histogram_eq(a: Option<Histogram>, b: Option<Histogram>) -> bool {
    match (a, b) {
        (Option::Some(x), Option::Some(y)) => histogram_eq(x, y),
        (Option::None, Option::None) => true,
        _ => false,
    }
}

/// Whether two exported samples carry the same data.
pub open spec fn metric_eq(a: Metric, b: Metric) -> bool {
    &&& a.label@ == b.label@
    &&& a.counter == b.counter
    &&& a.gauge == b.gauge
    &&& opt_histogram_eq(a.histogram, b.histogram)
    &&& a.timestamp_ms == b.timestamp_ms
}

impl Clone for Histogram {
    fn clone(&self) -> (r: Self)
        ensures
            histogram_eq(r, *self),
    {
        let mut bucket: Vec<Bucket> = Vec::new();
        let mut i: usize = 0;
        while i < self.bucket.len()
            invariant
                0 <= i <= self.bucket@.len(),
                bucket@ == self.bucket@.subrange(0, i as int),
            decreases self.bucket@.len() - i,
        {
            bucket.push(self.bucket[i]);
            proof {
                assert(bucket@ =~= self.bucket@.subrange(0, i + 1 as int));
            }
            i = i + 1;
        }
        proof {
            assert(bucket@ =~= self.bucket@);
        }
        Histogram { sample_count: self.sample_count, sample_sum: self.sample_sum, bucket }
    }
}

impl Histogram {
    pub fn new() -> (r: Histogram)
        ensures
            r.sample_count == 0,
            r.sample_sum == 0,
            r.bucket@ == Seq::<Bucket>::empty(),
    {
        Histogram { sample_count: 0, sample_sum: 0, bucket: Vec::new() }
    }

    pub fn set_sample_count(&mut self, c: u64)
        ensures
            *final(self) == (Histogram { sample_count: c, ..*old(self) }),
    {
        self.sample_count = c;
    }

    pub fn get_sample_count(&self) -> (r: u64)
        ensures
            r == self.sample_count,
    {
        self.sample_count
    }

    pub fn set_sample_sum(&mut self, s: i64)
        ensures
            *final(self) == (Histogram { sample_sum: s, ..*old(self) }),
    {
        self.sample_sum = s;
    }

    pub fn get_sample_sum(&self) -> (r: i64)
        ensures
            r == self.sample_sum,
    {
        self.sample_sum
    }

    pub fn set_bucket(&mut self, b: Vec<Bucket>)
        ensures
            *final(self) == (Histogram { bucket: b, ..*old(self) }),
    {
        self.bucket = b;
    }

    pub fn get_bucket(&self) -> (r: &Vec<Bucket>)
        ensures
            r == self.bucket,
    {
        &self.bucket
    }
}

/// One exported sample: resolved label pairs and exactly one of the value
/// payloads, depending on the family's kind.
#[derive(Debug)]
pub struct Metric {
    pub label: Vec<LabelPair>,
    pub counter: Option<Counter>,
    pub gauge: Option<Gauge>,
    pub histogram: Option<Histogram>,
    pub timestamp_ms: i64,
}

impl Clone for Metric {
    fn clone(&self) -> (r: Self)
        ensures
            metric_eq(r, *self),
    {
        let mut label: Vec<LabelPair> = Vec::new();
        let mut i: usize = 0;
        while i < self.label.len()
            invariant
                0 <= i <= self.label@.len(),
                label@ == self.label@.subrange(0, i as int),
            decreases self.label@.len() - i,
        {
            label.push(self.label[i].clone());
            proof {
                assert(label@ =~= self.label@.subrange(0, i + 1 as int));
            }
            i = i + 1;
        }
        proof {
            assert(label@ =~= self.label@);
        }
        let histogram = match &self.histogram {
            Some(h) => Some(h.clone()),
            None => None,
        };
        Metric {
            label,
            counter: self.counter,
            gauge: self.gauge,
            histogram,
            timestamp_ms: self.timestamp_ms,
        }
    }
}

impl Metric {
    /// An empty sample, with no labels and no payload.
    pub fn new() -> (r: Metric)
        ensures
            r.label@ == Seq::<LabelPair>::empty(),
            r.counter is None,
            r.gauge is None,
            r.histogram is None,
            r.timestamp_ms == 0,
    {
        Metric {
            label: Vec::new(),
            counter: None,
            gauge: None,
            histogram: None,
            timestamp_ms: 0,
        }
    }

    pub fn set_label(&mut self, label: Vec<LabelPair>)
        ensures
            *final(self) == (Metric { label, ..*old(self) }),
    {
        self.label = label;
    }

    pub fn get_label(&self) -> (r: &Vec<LabelPair>)
        ensures
            r == self.label,
    {
        &self.label
    }

    pub fn set_counter(&mut self, c: Counter)
        ensures
            *final(self) == (Metric { counter: Some(c), ..*old(self) }),
    {
        self.counter = Some(c);
    }

    pub fn has_counter(&self) -> (r: bool)
        ensures
            r == (self.counter is Some),
    {
        self.counter.is_some()
    }

    pub fn get_counter(&self) -> (r: &Counter)
        requires
            self.counter is Some,
        ensures
            self.counter == Some(*r),
    {
        self.counter.as_ref().unwrap()
    }

    pub fn set_gauge(&mut self, g: Gauge)
        ensures
            *final(self) == (Metric { gauge: Some(g), ..*old(self) }),
    {
        self.gauge = Some(g);
    }

    pub fn has_gauge(&self) -> (r: bool)
        ensures
            r == (self.gauge is Some),
    {
        self.gauge.is_some()
    }

    pub fn get_gauge(&self) -> (r: &Gauge)
        requires
            self.gauge is Some,
        ensures
            self.gauge == Some(*r),
    {
        self.gauge.as_ref().unwrap()
    }

    pub fn set_histogram(&mut self, h: Histogram)
        ensures
            *final(self) == (Metric { histogram: Some(h), ..*old(self) }),
    {
        self.histogram = Some(h);
    }

    pub fn has_histogram(&self) -> (r: bool)
        ensures
            r == (self.histogram is Some),
    {
        self.histogram.is_some()
    }

    pub fn get_histogram(&self) -> (r: &Histogram)
        requires
            self.histogram is Some,
        ensures
            self.histogram == Some(*r),
    {
        self.histogram.as_ref().unwrap()
    }

    pub fn get_timestamp_ms(&self) -> (r: i64)
        ensures
            r == self.timestamp_ms,
    {
        self.timestamp_ms
    }
}

/// One exported family: the descriptor's name and help, the kind, and one
/// sample per child.
#[derive(Debug)]
pub struct MetricFamily {
    pub name: String,
    pub help: String,
    pub field_type: MetricType,
    pub metric: Vec<Metric>,
}

impl MetricFamily {
    /// An empty family of kind UNTYPED.
    pub fn new() -> (r: MetricFamily)
        ensures
            r.name@ == Seq::<char>::empty(),
            r.help@ == Seq::<char>::empty(),
            r.field_type == MetricType::UNTYPED,
            r.metric@ == Seq::<Metric>::empty(),
    {
        MetricFamily {
            name: String::new(),
            help: String::new(),
            field_type: MetricType::UNTYPED,
            metric: Vec::new(),
        }
    }

    pub fn set_name(&mut self, name: String)
        ensures
            *final(self) == (MetricFamily { name, ..*old(self) }),
    {
        self.name = name;
    }

    pub fn get_name(&self) -> (r: &str)
        ensures
            r@ == self.name@,
    {
        self.name.as_str()
    }

    pub fn set_help(&mut self, help: String)
        ensures
            *final(self) == (MetricFamily { help, ..*old(self) }),
    {
        self.help = help;
    }

    pub fn get_help(&self) -> (r: &str)
        ensures
            r@ == self.help@,
    {
        self.help.as_str()
    }

    pub fn set_field_type(&mut self, t: MetricType)
        ensures
            *final(self) == (MetricFamily { field_type: t, ..*old(self) }),
    {
        self.field_type = t;
    }

    pub fn get_field_type(&self) -> (r: MetricType)
        ensures
            r == self.field_type,
    {
        self.field_type
    }

    pub fn set_metric(&mut self, metric: Vec<Metric>)
        ensures
            *final(self) == (MetricFamily { metric, ..*old(self) }),
    {
        self.metric = metric;
    }

    pub fn get_metric(&self) -> (r: &Vec<Metric>)
        ensures
            r == self.metric,
    {
        &self.metric
    }
}

} // verus!
