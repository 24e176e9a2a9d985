use vstd::prelude::*;

verus! {

use crate::desc::{all_label_names, desc_eq, desc_wf, Desc};
use crate::errors::Error;
use crate::labels::{
    clone_pairs, distinct_seqs, pairs_view, sort_pairs, sort_pairs_exec, strings_view,
};
use crate::metrics::{spec_fq_name, Opts};
use crate::proto::{Counter, Gauge, LabelPair, Metric, MetricFamily, MetricType};

/// The kind of a plain single-valued metric: a counter only ever goes up,
/// a gauge moves freely.
#[derive(Clone, Copy, Debug, PartialEq, Eq, Structural)]
pub enum ValueType {
    Counter,
    Gauge,
}

/// The family kind a value kind exports as.
pub open spec fn spec_metric_type(t: ValueType) -> MetricType {
    match t {
        ValueType::Counter => MetricType::COUNTER,
        ValueType::Gauge => MetricType::GAUGE,
    }
}

impl ValueType {
    /// The family kind this value kind exports as.
    pub fn metric_type(&self) -> (r: MetricType)
        ensures
            r == spec_metric_type(*self),
    {
        match *self {
            ValueType::Counter => MetricType::COUNTER,
            ValueType::Gauge => MetricType::GAUGE,
        }
    }
}

/// The variable labels of a schema paired with one tuple of values, in
/// schema order.
pub open spec fn var_pairs(names: Seq<Seq<char>>, vals: Seq<Seq<char>>) -> Seq<
    (Seq<char>, Seq<char>),
> {
    Seq::new(names.len(), |i: int| (names[i], vals[i]))
}

/// The resolved label pairs of one child: its variable labels bound to
/// the given values, together with the constant pairs, ordered by name.
pub open spec fn spec_label_pairs(
    names: Seq<Seq<char>>,
    vals: Seq<Seq<char>>,
    consts: Seq<(Seq<char>, Seq<char>)>,
) -> Seq<(Seq<char>, Seq<char>)> {
    sort_pairs(var_pairs(names, vals) + consts)
}

/// Bind the descriptor's variable labels to the given values, add the
/// constant pairs, and order the result by name.
pub fn make_label_pairs(desc: &Desc, label_values: &Vec<String>) -> (r: Vec<LabelPair>)
    requires
        desc.variable_labels@.len() == label_values@.len(),
    ensures
        pairs_view(r@) == spec_label_pairs(
            strings_view(desc.variable_labels@),
            strings_view(label_values@),
            pairs_view(desc.const_label_pairs@),
        ),
{
    let ghost names = strings_view(desc.variable_labels@);
    let ghost vals = strings_view(label_values@);
    let ghost consts = pairs_view(desc.const_label_pairs@);
    let mut combined: Vec<LabelPair> = Vec::new();
    let mut i: usize = 0;
    while i < desc.variable_labels.len()
        invariant
            0 <= i <= desc.variable_labels@.len(),
            desc.variable_labels@.len() == label_values@.len(),
            names == strings_view(desc.variable_labels@),
            vals == strings_view(label_values@),
            names.len() == desc.variable_labels@.len(),
            vals.len() == label_values@.len(),
            combined@.len() == i,
            forall|k: int|
                0 <= k < i ==> (#[trigger] combined@[k]).name@ == names[k] && combined@[k].value@
                    == vals[k],
        decreases desc.variable_labels@.len() - i,
    {
        let p = LabelPair {
            name: desc.variable_labels[i].clone(),
            value: label_values[i].clone(),
        };
        combined.push(p);
        i = i + 1;
    }
    let vn = combined.len();
    let mut j: usize = 0;
    while j < desc.const_label_pairs.len()
        invariant
            0 <= j <= desc.const_label_pairs@.len(),
            vn == names.len(),
            names.len() == vals.len(),
            consts == pairs_view(desc.const_label_pairs@),
            consts.len() == desc.const_label_pairs@.len(),
            combined@.len() == vn + j,
            forall|k: int|
                0 <= k < vn ==> (#[trigger] combined@[k]).name@ == names[k] && combined@[k].value@
                    == vals[k],
            forall|k: int|
                vn <= k < vn + j ==> (#[trigger] combined@[k]).name@ == consts[k - vn].0
                    && combined@[k].value@ == consts[k - vn].1,
        decreases desc.const_label_pairs@.len() - j,
    {
        combined.push(desc.const_label_pairs[j].clone());
        proof {
            assert(consts[j as int] == (
                desc.const_label_pairs@[j as int].name@,
                desc.const_label_pairs@[j as int].value@,
            ));
        }
        j = j + 1;
    }
    proof {
        assert forall|k: int|
            0 <= k < combined@.len() implies pairs_view(combined@)[k] == (var_pairs(names, vals)
            + consts)[k] by {
            assert(pairs_view(combined@)[k] == (combined@[k].name@, combined@[k].value@));
            if k < vn {
                assert((var_pairs(names, vals) + consts)[k] == var_pairs(names, vals)[k]);
            } else {
                assert((var_pairs(names, vals) + consts)[k] == consts[k - vn]);
            }
        }
        assert(pairs_view(combined@) =~= var_pairs(names, vals) + consts);
    }
    sort_pairs_exec(&combined)
}

/// One plain metric value: its descriptor, its resolved label pairs, its
/// kind, and the numeric cell it guards.
#[derive(Debug)]
pub struct Value {
    pub desc: Desc,
    pub val: i64,
    pub val_type: ValueType,
    pub label_pairs: Vec<LabelPair>,
}

/// What Value::new returns when it succeeds: a value of the requested
/// kind, at the requested number, under the described descriptor, with
/// the labels resolved against the given tuple.
pub open spec fn value_built(v: Value, opts: Opts, t: ValueType, val: i64, vals: Seq<Seq<char>>) -> bool {
    &&& v.val == val
    &&& v.val_type == t
    &&& desc_wf(v.desc)
    &&& v.desc.fq_name@ == spec_fq_name(opts.namespace@, opts.subsystem@, opts.name@)
    &&& v.desc.help == opts.help
    &&& v.desc.variable_labels@ == opts.variable_labels@
    &&& pairs_view(v.desc.const_label_pairs@) == sort_pairs(pairs_view(opts.const_labels@))
    &&& pairs_view(v.label_pairs@) == spec_label_pairs(
        strings_view(opts.variable_labels@),
        vals,
        sort_pairs(pairs_view(opts.const_labels@)),
    )
}

/// Whether two values are the same metric: same descriptor, kind and
/// resolved labels, whatever their numbers.
pub open spec fn value_same_meta(a: Value, b: Value) -> bool {
    &&& a.desc == b.desc
    &&& a.val_type == b.val_type
    &&& a.label_pairs == b.label_pairs
}

impl Value {
    /// Build a value from options: validate the descriptor, demand one
    /// label value per variable label, and resolve the label pairs.
    pub fn new(opts: &Opts, val_type: ValueType, val: i64, label_values: &Vec<String>) -> (r:
        Result<Value, Error>)
        ensures
            r is Ok <==> {
                &&& spec_fq_name(opts.namespace@, opts.subsystem@, opts.name@).len() > 0
                &&& distinct_seqs(
                    all_label_names(
                        pairs_view(opts.const_labels@),
                        strings_view(opts.variable_labels@),
                    ),
                )
                &&& opts.variable_labels@.len() == label_values@.len()
            },
            r matches Ok(v) ==> value_built(
                v,
                *opts,
                val_type,
                val,
                strings_view(label_values@),
            ),
            r matches Err(e) ==> e is Msg || (e matches Error::InconsistentCardinality {
                expect,
                got,
            } && expect == opts.variable_labels@.len() && got == label_values@.len()),
            (spec_fq_name(opts.namespace@, opts.subsystem@, opts.name@).len() > 0 && distinct_seqs(
                all_label_names(
                    pairs_view(opts.const_labels@),
                    strings_view(opts.variable_labels@),
                ),
            ) && opts.variable_labels@.len() != label_values@.len()) ==> (r matches Err(
                Error::InconsistentCardinality { expect, got },
            ) && expect == opts.variable_labels@.len() && got == label_values@.len()),
    {
        let desc = match opts.describe() {
            Ok(d) => d,
            Err(e) => {
                return Err(e);
            },
        };
        if desc.variable_labels.len() != label_values.len() {
            return Err(
                Error::InconsistentCardinality {
                    expect: desc.variable_labels.len(),
                    got: label_values.len(),
                },
            );
        }
        let label_pairs = make_label_pairs(&desc, label_values);
        Ok(Value { desc, val, val_type, label_pairs })
    }

    /// The current number.
    pub fn get(&self) -> (r: i64)
        ensures
            r == self.val,
    {
        self.val
    }

    /// Overwrite the number.
    pub fn set(&mut self, val: i64)
        ensures
            final(self).val == val,
            final(self).desc == old(self).desc,
            final(self).val_type == old(self).val_type,
            final(self).label_pairs == old(self).label_pairs,
    {
        self.val = val;
    }

    /// Add the given amount to the number.
    pub fn inc_by(&mut self, val: i64)
        requires
            i64::MIN <= old(self).val + val <= i64::MAX,
        ensures
            final(self).val == old(self).val + val,
            final(self).desc == old(self).desc,
            final(self).val_type == old(self).val_type,
            final(self).label_pairs == old(self).label_pairs,
    {
        self.val = self.val + val;
    }

    /// Add one to the number.
    pub fn inc(&mut self)
        requires
            old(self).val < i64::MAX,
        ensures
            final(self).val == old(self).val + 1,
            final(self).desc == old(self).desc,
            final(self).val_type == old(self).val_type,
            final(self).label_pairs == old(self).label_pairs,
    {
        self.inc_by(1);
    }

    /// Take one from the number.
    pub fn dec(&mut self)
        requires
            old(self).val > i64::MIN,
        ensures
            final(self).val == old(self).val - 1,
            final(self).desc == old(self).desc,
            final(self).val_type == old(self).val_type,
            final(self).label_pairs == old(self).label_pairs,
    {
        self.dec_by(1);
    }

    /// Take the given amount from the number.
    pub fn dec_by(&mut self, val: i64)
        requires
            i64::MIN <= old(self).val - val <= i64::MAX,
        ensures
            final(self).val == old(self).val - val,
            final(self).desc == old(self).desc,
            final(self).val_type == old(self).val_type,
            final(self).label_pairs == old(self).label_pairs,
    {
        self.val = self.val - val;
    }

    /// The exported sample: the resolved label pairs and the number under
    /// the kind's payload.
    pub fn metric(&self) -> (m: Metric)
        ensures
            m.label@ == self.label_pairs@,
            m.timestamp_ms == 0,
            self.val_type == ValueType::Counter ==> m.counter == Some(
                Counter { value: self.val },
            ) && m.gauge is None,
            self.val_type == ValueType::Gauge ==> m.gauge == Some(Gauge { value: self.val })
                && m.counter is None,
            m.histogram is None,
    {
        let mut m = Metric::new();
        m.set_label(clone_pairs(&self.label_pairs));
        let val = self.get();
        match self.val_type {
            ValueType::Counter => {
                let mut counter = Counter::new();
                counter.set_value(val);
                m.set_counter(counter);
            },
            ValueType::Gauge => {
                let mut gauge = Gauge::new();
                gauge.set_value(val);
                m.set_gauge(gauge);
            },
        }
        m
    }

    /// The exported family holding exactly this value's sample.
    pub fn collect(&self) -> (f: MetricFamily)
        ensures
            f.name == self.desc.fq_name,
            f.help == self.desc.help,
            f.field_type == spec_metric_type(self.val_type),
            f.metric@.len() == 1,
            f.metric@[0].label@ == self.label_pairs@,
            self.val_type == ValueType::Counter ==> f.metric@[0].counter == Some(
                Counter { value: self.val },
            ),
            self.val_type == ValueType::Gauge ==> f.metric@[0].gauge == Some(
                Gauge { value: self.val },
            ),
            f.metric@[0].timestamp_ms == 0,
    {
        let mut f = MetricFamily::new();
        f.set_name(self.desc.fq_name.clone());
        f.set_help(self.desc.help.clone());
        f.set_field_type(self.val_type.metric_type());
        let mut ms: Vec<Metric> = Vec::new();
        ms.push(self.metric());
        f.set_metric(ms);
        f
    }
}

} // verus!
