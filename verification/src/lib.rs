/*!
A client library for recording and exporting application metrics: monotonic
counters, gauges and bucketed histograms, each identified by a descriptor
(name, help text, label schema), grouped into label-keyed vectors, buffered
thread-locally, and rendered into the plain text exposition format.
*/

pub mod counter;
pub mod desc;
pub mod encoder;
pub mod errors;
pub mod histogram;
pub mod labels;
pub mod laws;
pub mod metrics;
pub mod proto;
pub mod push;
pub mod text;
pub mod timer;
pub mod value;
pub mod vec;

pub use counter::{IntCounter, IntCounterVec, LocalIntCounter, LocalIntCounterVec};
pub use desc::Desc;
pub use encoder::{Encoder, TextEncoder};
pub use errors::Error;
pub use histogram::{
    exponential_buckets, linear_buckets, Histogram, HistogramOpts, HistogramVec, LocalHistogram,
    LocalHistogramVec,
};
pub use metrics::{Collector, Metric, Opts};
pub use push::hostname_grouping_key;
pub use timer::{HistogramTimer, LocalHistogramTimer};
