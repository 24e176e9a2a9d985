use vstd::prelude::*;

verus! {

use crate::desc::{all_label_names, desc_wf, Desc};
use crate::errors::Error;
use crate::labels::{clone_string_vec, distinct_seqs, pairs_view, strings_view};
use crate::metrics::{spec_fq_name, Opts};
use crate::proto::{LabelPair, MetricFamily};
use crate::value::{value_built, value_same_meta, Value, ValueType};
use crate::vec::{
    lemma_push_keeps, lemma_remove_keeps, lemma_update_keeps, spec_hash_label_values, ChildMap,
    Entry, hash_label_values,
};

/// A counter: a single numeric value that only ever goes up.
#[derive(Debug)]
pub struct IntCounter {
    pub v: Value,
}

impl IntCounter {
    /// What every counter maintains: it counts, and it never holds a
    /// negative number.
    pub open spec fn wf(self) -> bool {
        &&& self.v.val_type == ValueType::Counter
        &&& self.v.val >= 0
    }

    /// The number the counter currently holds.
    pub open spec fn value(self) -> int {
        self.v.val as int
    }

    /// A counter with the given name and help, starting at zero.
    pub fn new(name: &str, help: &str) -> (r: Result<IntCounter, Error>)
        ensures
            r is Ok <==> name@.len() > 0,
            r matches Ok(c) ==> c.wf() && c.value() == 0 && c.v.desc.fq_name@ == name@
                && c.v.desc.help@ == help@ && c.v.label_pairs@ == Seq::<LabelPair>::empty(),
    {
        let opts = Opts::new(name, help);
        proof {
            assert(all_label_names(pairs_view(opts.const_labels@), strings_view(
                opts.variable_labels@,
            )) =~= Seq::<Seq<char>>::empty());
            assert(crate::labels::sort_pairs(pairs_view(opts.const_labels@))
                =~= Seq::<(Seq<char>, Seq<char>)>::empty());
        }
        Self::with_opts(opts)
    }

    /// A counter described by the given options, starting at zero.
    pub fn with_opts(opts: Opts) -> (r: Result<IntCounter, Error>)
        ensures
            r is Ok <==> {
                &&& spec_fq_name(opts.namespace@, opts.subsystem@, opts.name@).len() > 0
                &&& distinct_seqs(
                    all_label_names(
                        pairs_view(opts.const_labels@),
                        strings_view(opts.variable_labels@),
                    ),
                )
                &&& opts.variable_labels@.len() == 0
            },
            r matches Ok(c) ==> c.wf() && c.value() == 0 && value_built(
                c.v,
                opts,
                ValueType::Counter,
                0,
                Seq::<Seq<char>>::empty(),
            ),
            (spec_fq_name(opts.namespace@, opts.subsystem@, opts.name@).len() > 0
                && distinct_seqs(
                all_label_names(
                    pairs_view(opts.const_labels@),
                    strings_view(opts.variable_labels@),
                ),
            ) && opts.variable_labels@.len() != 0) ==> (r matches Err(
                Error::InconsistentCardinality { expect, got },
            ) && expect == opts.variable_labels@.len() && got == 0),
    {
        let no_vals: Vec<String> = Vec::new();
        Self::with_opts_and_label_values(&opts, &no_vals)
    }

    fn with_opts_and_label_values(opts: &Opts, label_values: &Vec<String>) -> (r: Result<
        IntCounter,
        Error,
    >)
        ensures
            r is Ok <==> {
                &&& spec_fq_name(opts.namespace@, opts.subsystem@, opts.name@).len() > 0
                &&& distinct_seqs(
                    all_label_names(
                        pairs_view(opts.const_labels@),
                        strings_view(opts.variable_labels@),
                    ),
                )
                &&& opts.variable_labels@.len() == label_values@.len()
            },
            r matches Ok(c) ==> c.wf() && c.value() == 0 && value_built(
                c.v,
                *opts,
                ValueType::Counter,
                0,
                strings_view(label_values@),
            ),
            (spec_fq_name(opts.namespace@, opts.subsystem@, opts.name@).len() > 0
                && distinct_seqs(
                all_label_names(
                    pairs_view(opts.const_labels@),
                    strings_view(opts.variable_labels@),
                ),
            ) && opts.variable_labels@.len() != label_values@.len()) ==> (r matches Err(
                Error::InconsistentCardinality { expect, got },
            ) && expect == opts.variable_labels@.len() && got == label_values@.len()),
    {
        match Value::new(opts, ValueType::Counter, 0, label_values) {
            Ok(v) => Ok(IntCounter { v }),
            Err(e) => Err(e),
        }
    }

    /// Count the given non-negative amount on top.
    pub fn inc_by(&mut self, v: i64)
        requires
            old(self).wf(),
            v >= 0,
            old(self).value() + v <= i64::MAX,
        ensures
            final(self).wf(),
            final(self).value() == old(self).value() + v,
            value_same_meta(final(self).v, old(self).v),
    {
        self.v.inc_by(v);
    }

    /// Count one more.
    pub fn inc(&mut self)
        requires
            old(self).wf(),
            old(self).value() < i64::MAX,
        ensures
            final(self).wf(),
            final(self).value() == old(self).value() + 1,
            value_same_meta(final(self).v, old(self).v),
    {
        self.v.inc();
    }

    /// The number counted so far.
    pub fn get(&self) -> (r: i64)
        ensures
            r == self.value(),
    {
        self.v.get()
    }

    /// A thread-local buffer for this counter, starting empty. Its
    /// accumulated delta reaches this counter when it is flushed into it.
    pub fn local(&self) -> (r: LocalIntCounter)
        ensures
            r.val == 0,
    {
        LocalIntCounter { val: 0 }
    }

    /// The descriptors of this collector: exactly its own.
    pub fn desc(&self) -> (r: Vec<Desc>)
        ensures
            r@.len() == 1,
            crate::desc::desc_eq(r@[0], self.v.desc),
    {
        let mut r: Vec<Desc> = Vec::new();
        r.push(self.v.desc.clone());
        r
    }

    /// A snapshot of this counter as one family with one sample.
    pub fn collect(&self) -> (r: Vec<MetricFamily>)
        ensures
            r@.len() == 1,
            r@[0].name == self.v.desc.fq_name,
            r@[0].help == self.v.desc.help,
            r@[0].field_type == crate::value::spec_metric_type(self.v.val_type),
            r@[0].metric@.len() == 1,
            r@[0].metric@[0].label@ == self.v.label_pairs@,
            self.v.val_type == ValueType::Counter ==> r@[0].metric@[0].counter == Some(
                (crate::proto::Counter { value: self.v.val }),
            ),
    {
        let mut r: Vec<MetricFamily> = Vec::new();
        r.push(self.v.collect());
        r
    }

    /// This counter's sample, for the exporter.
    pub fn metric(&self) -> (m: crate::proto::Metric)
        ensures
            m.label@ == self.v.label_pairs@,
            self.v.val_type == ValueType::Counter ==> m.counter == Some(
                (crate::proto::Counter { value: self.v.val }),
            ),
    {
        self.v.metric()
    }
}

impl crate::metrics::Collector for IntCounter {
    fn desc(&self) -> Vec<Desc> {
        IntCounter::desc(self)
    }

    fn collect(&self) -> Vec<MetricFamily> {
        IntCounter::collect(self)
    }
}

impl crate::metrics::Metric for IntCounter {
    fn metric(&self) -> crate::proto::Metric {
        IntCounter::metric(self)
    }
}

/// A thread-confined buffer for one counter: a plain delta, accumulated
/// without synchronization and merged into the shared counter on flush.
#[derive(Debug)]
pub struct LocalIntCounter {
    pub val: i64,
}

impl LocalIntCounter {
    /// The buffer never holds a negative delta.
    pub open spec fn wf(self) -> bool {
        self.val >= 0
    }

    /// Buffer the given non-negative amount.
    pub fn inc_by(&mut self, v: i64)
        requires
            old(self).wf(),
            v >= 0,
            old(self).val + v <= i64::MAX,
        ensures
            final(self).val == old(self).val + v,
            final(self).wf(),
    {
        self.val = self.val + v;
    }

    /// Buffer one more.
    pub fn inc(&mut self)
        requires
            old(self).wf(),
            old(self).val < i64::MAX,
        ensures
            final(self).val == old(self).val + 1,
            final(self).wf(),
    {
        self.val = self.val + 1;
    }

    /// The delta buffered so far and not yet flushed.
    pub fn get(&self) -> (r: i64)
        ensures
            r == self.val,
    {
        self.val
    }

    /// Drain the buffered delta into the shared counter. Flushing an
    /// empty buffer leaves the counter untouched; flushing twice in a row
    /// flushes nothing the second time.
    pub fn flush(&mut self, counter: &mut IntCounter)
        requires
            old(self).wf(),
            old(counter).wf(),
            old(counter).value() + old(self).val <= i64::MAX,
        ensures
            final(self).val == 0,
            final(counter).wf(),
            final(counter).value() == old(counter).value() + old(self).val,
            value_same_meta(final(counter).v, old(counter).v),
    {
        if self.val == 0 {
            return ;
        }
        counter.inc_by(self.val);
        self.val = 0;
    }
}

/// Which values a counter-vector child may hold: every child counts, and
/// never a negative number.
pub open spec fn counter_children_wf(m: ChildMap<Value>) -> bool {
    forall|i: int|
        0 <= i < m.entries@.len() ==> (#[trigger] m.entries@[i]).val.val_type
            == ValueType::Counter && m.entries@[i].val.val >= 0
}

/// A family of counters sharing one descriptor, told apart only by their
/// variable label values. Children are created on first use and addressed
/// by the hash of their label-value tuple, which every operation returns
/// or takes as the child's key.
#[derive(Debug)]
pub struct IntCounterVec {
    pub desc: Desc,
    pub opts: Opts,
    pub children: ChildMap<Value>,
}

impl IntCounterVec {
    /// What the vector maintains: unique child keys, counter children,
    /// and options that describe a valid descriptor, so that children can
    /// always be built.
    pub open spec fn wf(self) -> bool {
        &&& self.children.wf()
        &&& counter_children_wf(self.children)
        &&& spec_fq_name(self.opts.namespace@, self.opts.subsystem@, self.opts.name@).len() > 0
        &&& distinct_seqs(
            all_label_names(
                pairs_view(self.opts.const_labels@),
                strings_view(self.opts.variable_labels@),
            ),
        )
        &&& desc_wf(self.desc)
        &&& self.desc.fq_name@ == spec_fq_name(
            self.opts.namespace@,
            self.opts.subsystem@,
            self.opts.name@,
        )
        &&& self.desc.help == self.opts.help
        &&& self.desc.variable_labels@ == self.opts.variable_labels@
    }

    /// The number of variable labels each child tuple must supply.
    pub open spec fn label_dim(self) -> nat {
        self.opts.variable_labels@.len()
    }

    /// A vector of counters described by the options and partitioned by
    /// the given label names.
    pub fn new(opts: Opts, label_names: &Vec<String>) -> (r: Result<IntCounterVec, Error>)
        ensures
            r matches Ok(v) ==> {
                &&& v.wf()
                &&& v.opts.variable_labels@ == label_names@
                &&& v.opts.namespace == opts.namespace
                &&& v.opts.subsystem == opts.subsystem
                &&& v.opts.name == opts.name
                &&& v.opts.help == opts.help
                &&& v.opts.const_labels@ == opts.const_labels@
                &&& v.children.entries@.len() == 0
                &&& forall|k: u64| !v.children.contains_key(k)
            },
            r is Ok <==> {
                &&& spec_fq_name(opts.namespace@, opts.subsystem@, opts.name@).len() > 0
                &&& distinct_seqs(
                    all_label_names(pairs_view(opts.const_labels@), strings_view(label_names@)),
                )
            },
    {
        let opts = opts.variable_labels(clone_string_vec(label_names));
        match opts.describe() {
            Ok(desc) => Ok(IntCounterVec { desc, opts, children: ChildMap::new() }),
            Err(e) => Err(e),
        }
    }

    /// What looking a tuple up leaves behind: the key is the tuple's
    /// hash; a vector that already held the child is untouched; one that
    /// did not holds one more child, fresh at zero with the tuple's
    /// resolved labels, every other child untouched.
    pub open spec fn with_effect(pre: IntCounterVec, post: IntCounterVec, vals: Seq<Seq<char>>, k: u64) -> bool {
        &&& post.wf()
        &&& k == spec_hash_label_values(vals)
        &&& post.opts == pre.opts
        &&& post.desc == pre.desc
        &&& post.children.contains_key(k)
        &&& (pre.children.contains_key(k) ==> post.children == pre.children)
        &&& (!pre.children.contains_key(k) ==> {
            &&& post.children.value_of(k).val == 0
            &&& value_built(post.children.value_of(k), pre.opts, ValueType::Counter, 0, vals)
            &&& post.children.entries@.len() == pre.children.entries@.len() + 1
            &&& forall|k2: u64|
                k2 != k ==> post.children.contains_key(k2) == pre.children.contains_key(k2)
            &&& forall|k2: u64|
                k2 != k && pre.children.contains_key(k2) ==> post.children.value_of(k2)
                    == pre.children.value_of(k2)
        })
    }

    /// The key of the child for this label-value tuple, creating the
    /// child at zero when the tuple is seen for the first time. Equal
    /// tuples always give the same key, and so the same child. A tuple
    /// of the wrong length is a caller error here; `try_with_label_values`
    /// reports it instead.
    pub fn with_label_values(&mut self, vals: &Vec<String>) -> (k: u64)
        requires
            old(self).wf(),
            vals@.len() == old(self).label_dim(),
        ensures
            IntCounterVec::with_effect(*old(self), *final(self), strings_view(vals@), k),
    {
        let k = hash_label_values(vals);
        match self.children.find(k) {
            Some(_) => k,
            None => {
                let child = Value::new(&self.opts, ValueType::Counter, 0, vals).unwrap();
                let ghost m1 = self.children;
                self.children.insert(k, child);
                proof {
                    lemma_push_keeps(m1, self.children, k, child);
                    assert(counter_children_wf(self.children));
                }
                k
            },
        }
    }

    /// Like `with_label_values`, but a tuple whose length does not match
    /// the schema is reported as a cardinality error, never coerced.
    pub fn try_with_label_values(&mut self, vals: &Vec<String>) -> (r: Result<u64, Error>)
        requires
            old(self).wf(),
        ensures
            final(self).wf(),
            final(self).opts == old(self).opts,
            final(self).desc == old(self).desc,
            r is Ok <==> vals@.len() == old(self).label_dim(),
            r matches Ok(k) ==> IntCounterVec::with_effect(
                *old(self),
                *final(self),
                strings_view(vals@),
                k,
            ),
            r is Err ==> final(self).children == old(self).children,
            r matches Err(e) ==> (e matches Error::InconsistentCardinality { expect, got }
                && expect == old(self).label_dim() && got == vals@.len()),
    {
        if vals.len() != self.opts.variable_labels.len() {
            return Err(
                Error::InconsistentCardinality {
                    expect: self.opts.variable_labels.len(),
                    got: vals.len(),
                },
            );
        }
        Ok(self.with_label_values(vals))
    }

    /// Count the given non-negative amount on the child's counter.
    pub fn inc_by(&mut self, k: u64, v: i64)
        requires
            old(self).wf(),
            old(self).children.contains_key(k),
            v >= 0,
            old(self).children.value_of(k).val + v <= i64::MAX,
        ensures
            final(self).wf(),
            final(self).opts == old(self).opts,
            final(self).desc == old(self).desc,
            final(self).children.contains_key(k),
            final(self).children.value_of(k).val == old(self).children.value_of(k).val + v,
            value_same_meta(
                final(self).children.value_of(k),
                old(self).children.value_of(k),
            ),
            forall|k2: u64|
                final(self).children.contains_key(k2) == old(self).children.contains_key(k2),
            forall|k2: u64|
                k2 != k && old(self).children.contains_key(k2) ==> final(self).children.value_of(k2) == old(self).children.value_of(k2),
    {
        let ghost m1 = self.children;
        let c = self.children.get_mut(k);
        c.inc_by(v);
        proof {
            lemma_update_keeps(m1, self.children, k, self.children.entries@[m1.index_of(k)].val);
            assert forall|i: int|
                0 <= i < self.children.entries@.len() implies (#[trigger] self.children.entries@[i]).val.val_type
                == ValueType::Counter && self.children.entries@[i].val.val >= 0 by {
                if i != m1.index_of(k) {
                    assert(self.children.entries@[i] == m1.entries@[i]);
                }
            }
        }
    }

    /// Count one more on the child's counter.
    pub fn inc(&mut self, k: u64)
        requires
            old(self).wf(),
            old(self).children.contains_key(k),
            old(self).children.value_of(k).val < i64::MAX,
        ensures
            final(self).wf(),
            final(self).opts == old(self).opts,
            final(self).desc == old(self).desc,
            final(self).children.contains_key(k),
            final(self).children.value_of(k).val == old(self).children.value_of(k).val + 1,
            value_same_meta(
                final(self).children.value_of(k),
                old(self).children.value_of(k),
            ),
            forall|k2: u64|
                final(self).children.contains_key(k2) == old(self).children.contains_key(k2),
            forall|k2: u64|
                k2 != k && old(self).children.contains_key(k2) ==> final(self).children.value_of(k2) == old(self).children.value_of(k2),
    {
        self.inc_by(k, 1);
    }

    /// The number the child's counter holds.
    pub fn get(&self, k: u64) -> (r: i64)
        requires
            self.wf(),
            self.children.contains_key(k),
        ensures
            r == self.children.value_of(k).val,
    {
        match self.children.get(k) {
            Some(v) => v.get(),
            None => {
                proof {
                    assert(false);
                }
                0
            },
        }
    }

    /// The key of the child for the tuple a name-to-value map supplies,
    /// creating the child at zero when the tuple is new: like looking up
    /// by values, with the positions resolved through the schema first.
    pub fn with(&mut self, labels: &Vec<LabelPair>) -> (k: u64)
        requires
            old(self).wf(),
            crate::labels::resolve_values(
                strings_view(old(self).opts.variable_labels@),
                pairs_view(labels@),
            ) is Some,
        ensures
            IntCounterVec::with_effect(
                *old(self),
                *final(self),
                crate::labels::resolve_values(
                    strings_view(old(self).opts.variable_labels@),
                    pairs_view(labels@),
                )->Some_0,
                k,
            ),
    {
        let vals = crate::labels::resolve_exec(&self.opts.variable_labels, labels).unwrap();
        proof {
            crate::labels::lemma_resolved_len(
                strings_view(self.opts.variable_labels@),
                pairs_view(labels@),
            );
        }
        self.with_label_values(&vals)
    }

    /// Like `with`, but a schema name missing from the map is reported,
    /// never a caller error.
    pub fn try_with(&mut self, labels: &Vec<LabelPair>) -> (r: Result<u64, Error>)
        requires
            old(self).wf(),
        ensures
            final(self).wf(),
            final(self).opts == old(self).opts,
            final(self).desc == old(self).desc,
            r is Ok <==> crate::labels::resolve_values(
                strings_view(old(self).opts.variable_labels@),
                pairs_view(labels@),
            ) is Some,
            r matches Ok(k) ==> IntCounterVec::with_effect(
                *old(self),
                *final(self),
                crate::labels::resolve_values(
                    strings_view(old(self).opts.variable_labels@),
                    pairs_view(labels@),
                )->Some_0,
                k,
            ),
            r is Err ==> final(self).children == old(self).children,
            r matches Err(e) ==> e is Msg,
    {
        match crate::labels::resolve_exec(&self.opts.variable_labels, labels) {
            Some(vals) => {
                proof {
                    crate::labels::lemma_resolved_len(
                        strings_view(self.opts.variable_labels@),
                        pairs_view(labels@),
                    );
                }
                Ok(self.with_label_values(&vals))
            },
            None => Err(
                Error::Msg(String::from_str("a variable label is missing from the label map")),
            ),
        }
    }

    /// Drop the child for the tuple a name-to-value map supplies: like
    /// removal by values, with the positions resolved through the schema
    /// first. Fails when a schema name is missing from the map, or as
    /// removal by values fails.
    pub fn remove(&mut self, labels: &Vec<LabelPair>) -> (r: Result<(), Error>)
        requires
            old(self).wf(),
        ensures
            final(self).wf(),
            final(self).opts == old(self).opts,
            final(self).desc == old(self).desc,
            r is Ok <==> ({
                let rv = crate::labels::resolve_values(
                    strings_view(old(self).opts.variable_labels@),
                    pairs_view(labels@),
                );
                rv is Some && old(self).children.contains_key(
                    spec_hash_label_values(rv->Some_0),
                )
            }),
            r is Ok ==> !final(self).children.contains_key(
                spec_hash_label_values(
                    crate::labels::resolve_values(
                        strings_view(old(self).opts.variable_labels@),
                        pairs_view(labels@),
                    )->Some_0,
                ),
            ),
            r is Err ==> final(self).children.entries@ == old(self).children.entries@,
            r matches Err(e) ==> e is Msg || e is InconsistentCardinality,
    {
        match crate::labels::resolve_exec(&self.opts.variable_labels, labels) {
            Some(vals) => {
                proof {
                    crate::labels::lemma_resolved_len(
                        strings_view(self.opts.variable_labels@),
                        pairs_view(labels@),
                    );
                }
                self.remove_label_values(&vals)
            },
            None => Err(
                Error::Msg(String::from_str("a variable label is missing from the label map")),
            ),
        }
    }

    /// Drop the child for this label-value tuple. Reports a cardinality
    /// error for a tuple of the wrong length, and a not-found error when
    /// no child exists for the tuple, so that removing a combination that
    /// was never observed does not pass silently.
    pub fn remove_label_values(&mut self, vals: &Vec<String>) -> (r: Result<(), Error>)
        requires
            old(self).wf(),
        ensures
            final(self).wf(),
            final(self).opts == old(self).opts,
            final(self).desc == old(self).desc,
            r is Ok <==> (vals@.len() == old(self).label_dim() && old(self).children.contains_key(
                spec_hash_label_values(strings_view(vals@)),
            )),
            r is Ok ==> {
                &&& !final(self).children.contains_key(
                    spec_hash_label_values(strings_view(vals@)),
                )
                &&& final(self).children.entries@.len() == old(self).children.entries@.len() - 1
                &&& forall|k2: u64|
                    k2 != spec_hash_label_values(strings_view(vals@)) ==> final(self).children.contains_key(k2) == old(self).children.contains_key(k2)
                &&& forall|k2: u64|
                    k2 != spec_hash_label_values(strings_view(vals@)) && old(self).children.contains_key(k2) ==> final(self).children.value_of(k2) == old(self).children.value_of(k2)
            },
            r is Err ==> final(self).children.entries@ == old(self).children.entries@,
            r matches Err(e) ==> (vals@.len() != old(self).label_dim() ==> (e matches
                Error::InconsistentCardinality { expect, got } && expect == old(self).label_dim()
                    && got == vals@.len())),
            r matches Err(e) ==> (vals@.len() == old(self).label_dim() ==> e is Msg),
    {
        if vals.len() != self.opts.variable_labels.len() {
            return Err(
                Error::InconsistentCardinality {
                    expect: self.opts.variable_labels.len(),
                    got: vals.len(),
                },
            );
        }
        let k = hash_label_values(vals);
        let ghost m1 = self.children;
        match self.children.remove(k) {
            Some(_) => {
                proof {
                    lemma_remove_keeps(m1, self.children, k);
                    assert forall|i: int|
                        0 <= i < self.children.entries@.len() implies (
                    #[trigger] self.children.entries@[i]).val.val_type == ValueType::Counter
                        && self.children.entries@[i].val.val >= 0 by {
                        let ix = m1.index_of(k);
                        if i < ix {
                            assert(self.children.entries@[i] == m1.entries@[i]);
                        } else {
                            assert(self.children.entries@[i] == m1.entries@[i + 1]);
                        }
                    }
                }
                Ok(())
            },
            None => Err(Error::Msg(String::from_str("no metric with the given label values"))),
        }
    }

    /// A snapshot of the whole family: one sample per child, in the order
    /// the children were first seen.
    pub fn collect(&self) -> (r: Vec<MetricFamily>)
        requires
            self.wf(),
        ensures
            r@.len() == 1,
            r@[0].name == self.desc.fq_name,
            r@[0].help == self.desc.help,
            r@[0].field_type == crate::proto::MetricType::COUNTER,
            r@[0].metric@.len() == self.children.entries@.len(),
            forall|j: int|
                0 <= j < self.children.entries@.len() ==> (#[trigger] r@[0].metric@[j]).label@
                    == self.children.entries@[j].val.label_pairs@ && r@[0].metric@[j].counter
                    == Some(
                    (crate::proto::Counter { value: self.children.entries@[j].val.val }),
                ),
    {
        let mut ms: Vec<crate::proto::Metric> = Vec::new();
        let mut i: usize = 0;
        while i < self.children.len()
            invariant
                self.wf(),
                0 <= i <= self.children.entries@.len(),
                ms@.len() == i,
                forall|j: int|
                    0 <= j < i ==> (#[trigger] ms@[j]).label@
                        == self.children.entries@[j].val.label_pairs@ && ms@[j].counter == Some(
                        (crate::proto::Counter { value: self.children.entries@[j].val.val }),
                    ),
            decreases self.children.entries@.len() - i,
        {
            let e = self.children.at(i);
            ms.push(e.val.metric());
            i = i + 1;
        }
        let mut f = MetricFamily::new();
        f.set_name(self.desc.fq_name.clone());
        f.set_help(self.desc.help.clone());
        f.set_field_type(crate::proto::MetricType::COUNTER);
        f.set_metric(ms);
        let mut r: Vec<MetricFamily> = Vec::new();
        r.push(f);
        r
    }

    /// The descriptors of this collector: exactly its own.
    pub fn desc(&self) -> (r: Vec<Desc>)
        ensures
            r@.len() == 1,
            crate::desc::desc_eq(r@[0], self.desc),
    {
        let mut r: Vec<Desc> = Vec::new();
        r.push(self.desc.clone());
        r
    }

    /// A thread-local buffer for this vector, with no local children yet.
    pub fn local(&self) -> (r: LocalIntCounterVec)
        ensures
            r.local.entries@.len() == 0,
            r.local.wf(),
            forall|k: u64| !r.local.contains_key(k),
    {
        LocalIntCounterVec { local: ChildMap::new() }
    }
}

impl crate::metrics::Collector for IntCounterVec {
    fn desc(&self) -> Vec<Desc> {
        IntCounterVec::desc(self)
    }

    fn collect(&self) -> Vec<MetricFamily> {
        let mut r: Vec<MetricFamily> = Vec::new();
        let mut ms: Vec<crate::proto::Metric> = Vec::new();
        let mut i: usize = 0;
        while i < self.children.len()
            invariant
                0 <= i <= self.children.entries@.len(),
            decreases self.children.entries@.len() - i,
        {
            let e = self.children.at(i);
            ms.push(e.val.metric());
            i = i + 1;
        }
        let mut f = MetricFamily::new();
        f.set_name(self.desc.fq_name.clone());
        f.set_help(self.desc.help.clone());
        f.set_field_type(crate::proto::MetricType::COUNTER);
        f.set_metric(ms);
        r.push(f);
        r
    }
}

/// One local child of a counter-vector buffer: the label-value tuple it
/// was created for, and the delta buffered for it so far.
#[derive(Debug)]
pub struct LocalVecEntry {
    pub vals: Vec<String>,
    pub delta: i64,
}

/// A thread-confined buffer for a whole counter vector: one local delta
/// per label-value tuple seen so far, keyed like the shared children.
#[derive(Debug)]
pub struct LocalIntCounterVec {
    pub local: ChildMap<LocalVecEntry>,
}

/// Whether the buffer's local children fit the given schema width: each
/// is stored under the hash of its tuple, holds a tuple of the right
/// length, and buffers a non-negative delta.
pub open spec fn local_children_wf(m: ChildMap<LocalVecEntry>, dim: nat) -> bool {
    forall|i: int|
        0 <= i < m.entries@.len() ==> {
            &&& (#[trigger] m.entries@[i]).key == spec_hash_label_values(
                strings_view(m.entries@[i].val.vals@),
            )
            &&& m.entries@[i].val.vals@.len() == dim
            &&& m.entries@[i].val.delta >= 0
        }
}

/// What looking a tuple up through a counter buffer leaves behind: the
/// key is the tuple's hash; a local child exists for it, fresh at a zero
/// delta when the tuple is new to the buffer; the shared vector holds the
/// tuple's child as its own lookup leaves it; everything else on either
/// side is untouched.
pub open spec fn local_counter_with_effect(
    l0: LocalIntCounterVec,
    l1: LocalIntCounterVec,
    v0: IntCounterVec,
    v1: IntCounterVec,
    vals: Seq<Seq<char>>,
    k: u64,
) -> bool {
    &&& l1.local.wf()
    &&& local_children_wf(l1.local, v1.label_dim())
    &&& v1.wf()
    &&& v1.opts == v0.opts
    &&& v1.desc == v0.desc
    &&& k == spec_hash_label_values(vals)
    &&& l1.local.contains_key(k)
    &&& v1.children.contains_key(k)
    &&& (l0.local.contains_key(k) ==> l1.local == l0.local)
    &&& (!l0.local.contains_key(k) ==> l1.local.value_of(k).delta == 0)
    &&& forall|k2: u64| k2 != k ==> l1.local.contains_key(k2) == l0.local.contains_key(k2)
    &&& forall|k2: u64|
        k2 != k && l0.local.contains_key(k2) ==> l1.local.value_of(k2) == l0.local.value_of(k2)
    &&& (v0.children.contains_key(k) ==> v1.children == v0.children)
    &&& (!v0.children.contains_key(k) ==> v1.children.value_of(k).val == 0)
    &&& forall|k2: u64| k2 != k ==> v1.children.contains_key(k2) == v0.children.contains_key(k2)
    &&& forall|k2: u64|
        k2 != k && v0.children.contains_key(k2) ==> v1.children.value_of(k2)
            == v0.children.value_of(k2)
}

impl LocalIntCounterVec {
    /// The key of the local child for this tuple, creating both the local
    /// child and, when missing, the shared child of the vector. A tuple
    /// of the wrong length is a caller error here; `try_with_label_values`
    /// reports it instead.
    pub fn with_label_values(&mut self, vec: &mut IntCounterVec, vals: &Vec<String>) -> (k: u64)
        requires
            old(self).local.wf(),
            local_children_wf(old(self).local, old(vec).label_dim()),
            old(vec).wf(),
            vals@.len() == old(vec).label_dim(),
        ensures
            local_counter_with_effect(
                *old(self),
                *final(self),
                *old(vec),
                *final(vec),
                strings_view(vals@),
                k,
            ),
    {
        let k = vec.with_label_values(vals);
        match self.local.find(k) {
            Some(_) => k,
            None => {
                let ghost m1 = self.local;
                let entry = LocalVecEntry { vals: clone_string_vec(vals), delta: 0 };
                self.local.insert(k, entry);
                proof {
                    lemma_push_keeps(m1, self.local, k, entry);
                    assert(local_children_wf(self.local, vec.label_dim()));
                }
                k
            },
        }
    }

    /// Like `with_label_values`, but a tuple whose length does not match
    /// the schema is reported as a cardinality error, never coerced; in
    /// that case no child is created on either side.
    pub fn try_with_label_values(&mut self, vec: &mut IntCounterVec, vals: &Vec<String>) -> (r:
        Result<u64, Error>)
        requires
            old(self).local.wf(),
            local_children_wf(old(self).local, old(vec).label_dim()),
            old(vec).wf(),
        ensures
            final(self).local.wf(),
            final(vec).wf(),
            final(vec).opts == old(vec).opts,
            final(vec).desc == old(vec).desc,
            r is Ok <==> vals@.len() == old(vec).label_dim(),
            r matches Ok(k) ==> local_counter_with_effect(
                *old(self),
                *final(self),
                *old(vec),
                *final(vec),
                strings_view(vals@),
                k,
            ),
            r is Err ==> final(self).local == old(self).local && final(vec).children == old(
                vec,
            ).children,
            r matches Err(e) ==> (e matches Error::InconsistentCardinality { expect, got }
                && expect == old(vec).label_dim() && got == vals@.len()),
    {
        if vals.len() != vec.opts.variable_labels.len() {
            return Err(
                Error::InconsistentCardinality {
                    expect: vec.opts.variable_labels.len(),
                    got: vals.len(),
                },
            );
        }
        Ok(self.with_label_values(vec, vals))
    }

    /// Buffer the given non-negative amount for the local child.
    pub fn inc_by(&mut self, k: u64, v: i64)
        requires
            old(self).local.wf(),
            old(self).local.contains_key(k),
            v >= 0,
            old(self).local.value_of(k).delta + v <= i64::MAX,
        ensures
            final(self).local.wf(),
            final(self).local.contains_key(k),
            final(self).local.value_of(k).delta == old(self).local.value_of(k).delta + v,
            final(self).local.value_of(k).vals == old(self).local.value_of(k).vals,
            final(self).local.entries@.len() == old(self).local.entries@.len(),
            forall|k2: u64|
                final(self).local.contains_key(k2) == old(self).local.contains_key(k2),
            forall|k2: u64|
                k2 != k && old(self).local.contains_key(k2) ==> final(self).local.value_of(k2)
                    == old(self).local.value_of(k2),
            forall|d: nat|
                local_children_wf(old(self).local, d) ==> local_children_wf(final(self).local, d),
    {
        let ghost m1 = self.local;
        let e = self.local.get_mut(k);
        e.delta = e.delta + v;
        proof {
            lemma_update_keeps(m1, self.local, k, self.local.entries@[m1.index_of(k)].val);
            assert forall|d: nat|
                local_children_wf(m1, d) implies local_children_wf(self.local, d) by {
                assert forall|i: int|
                    0 <= i < self.local.entries@.len() implies {
                    &&& (#[trigger] self.local.entries@[i]).key == spec_hash_label_values(
                        strings_view(self.local.entries@[i].val.vals@),
                    )
                    &&& self.local.entries@[i].val.vals@.len() == d
                    &&& self.local.entries@[i].val.delta >= 0
                } by {
                    if i != m1.index_of(k) {
                        assert(self.local.entries@[i] == m1.entries@[i]);
                    } else {
                        assert(m1.entries@[i].key == spec_hash_label_values(
                            strings_view(m1.entries@[i].val.vals@),
                        ));
                    }
                }
            }
        }
    }

    /// Buffer one more for the local child.
    pub fn inc(&mut self, k: u64)
        requires
            old(self).local.wf(),
            old(self).local.contains_key(k),
            old(self).local.value_of(k).delta < i64::MAX,
        ensures
            final(self).local.wf(),
            final(self).local.contains_key(k),
            final(self).local.value_of(k).delta == old(self).local.value_of(k).delta + 1,
            final(self).local.value_of(k).vals == old(self).local.value_of(k).vals,
            forall|k2: u64|
                final(self).local.contains_key(k2) == old(self).local.contains_key(k2),
            forall|k2: u64|
                k2 != k && old(self).local.contains_key(k2) ==> final(self).local.value_of(k2)
                    == old(self).local.value_of(k2),
            forall|d: nat|
                local_children_wf(old(self).local, d) ==> local_children_wf(final(self).local, d),
    {
        self.inc_by(k, 1);
    }

    /// The delta buffered for the local child.
    pub fn get(&self, k: u64) -> (r: i64)
        requires
            self.local.wf(),
            self.local.contains_key(k),
        ensures
            r == self.local.value_of(k).delta,
    {
        match self.local.get(k) {
            Some(e) => e.delta,
            None => {
                proof {
                    assert(false);
                }
                0
            },
        }
    }

    /// Drop the local child and the shared child for this tuple; a delta
    /// buffered for it and not yet flushed is discarded. Fails like the
    /// vector's own removal.
    pub fn remove_label_values(&mut self, vec: &mut IntCounterVec, vals: &Vec<String>) -> (r:
        Result<(), Error>)
        requires
            old(self).local.wf(),
            old(vec).wf(),
        ensures
            final(self).local.wf(),
            final(vec).wf(),
            final(vec).opts == old(vec).opts,
            final(vec).desc == old(vec).desc,
            !final(self).local.contains_key(spec_hash_label_values(strings_view(vals@))),
            r is Ok <==> (vals@.len() == old(vec).label_dim() && old(vec).children.contains_key(
                spec_hash_label_values(strings_view(vals@)),
            )),
            r is Ok ==> !final(vec).children.contains_key(
                spec_hash_label_values(strings_view(vals@)),
            ),
            forall|d: nat|
                local_children_wf(old(self).local, d) ==> local_children_wf(final(self).local, d),
            forall|k2: u64|
                k2 != spec_hash_label_values(strings_view(vals@)) ==> final(self).local.contains_key(k2) == old(self).local.contains_key(k2),
            forall|k2: u64|
                k2 != spec_hash_label_values(strings_view(vals@)) && old(self).local.contains_key(k2) ==> final(self).local.value_of(k2) == old(self).local.value_of(k2),
            r is Err ==> final(vec).children.entries@ == old(vec).children.entries@,
            r matches Err(e) ==> (vals@.len() != old(vec).label_dim() ==> (e matches
                Error::InconsistentCardinality { expect, got } && expect == old(vec).label_dim()
                    && got == vals@.len())),
            r matches Err(e) ==> (vals@.len() == old(vec).label_dim() ==> e is Msg),
    {
        let k = hash_label_values(vals);
        let ghost m1 = self.local;
        let removed = self.local.remove(k);
        proof {
            if m1.contains_key(k) {
                lemma_remove_keeps(m1, self.local, k);
                assert forall|d: nat|
                    local_children_wf(m1, d) implies local_children_wf(self.local, d) by {
                    let ix = m1.index_of(k);
                    assert forall|i: int|
                        0 <= i < self.local.entries@.len() implies {
                        &&& (#[trigger] self.local.entries@[i]).key == spec_hash_label_values(
                            strings_view(self.local.entries@[i].val.vals@),
                        )
                        &&& self.local.entries@[i].val.vals@.len() == d
                        &&& self.local.entries@[i].val.delta >= 0
                    } by {
                        if i < ix {
                            assert(self.local.entries@[i] == m1.entries@[i]);
                            assert(m1.entries@[i].key == spec_hash_label_values(
                                strings_view(m1.entries@[i].val.vals@),
                            ));
                        } else {
                            assert(self.local.entries@[i] == m1.entries@[i + 1]);
                            assert(m1.entries@[i + 1].key == spec_hash_label_values(
                                strings_view(m1.entries@[i + 1].val.vals@),
                            ));
                        }
                    }
                }
            }
        }
        vec.remove_label_values(vals)
    }

    /// Flush every local child's delta into the shared vector and reset
    /// the local deltas to zero. A shared child missing for a buffered
    /// tuple is created first, so no delta is lost.
    pub fn flush(&mut self, vec: &mut IntCounterVec)
        requires
            old(self).local.wf(),
            local_children_wf(old(self).local, old(vec).label_dim()),
            old(vec).wf(),
            forall|i: int|
                0 <= i < old(self).local.entries@.len() ==> {
                    let k = (#[trigger] old(self).local.entries@[i]).key;
                    (if old(vec).children.contains_key(k) {
                        old(vec).children.value_of(k).val as int
                    } else {
                        0
                    }) + old(self).local.entries@[i].val.delta <= i64::MAX
                },
        ensures
            final(self).local.wf(),
            local_children_wf(final(self).local, final(vec).label_dim()),
            final(vec).wf(),
            final(vec).opts == old(vec).opts,
            final(vec).desc == old(vec).desc,
            final(self).local.entries@.len() == old(self).local.entries@.len(),
            forall|k2: u64|
                final(self).local.contains_key(k2) == old(self).local.contains_key(k2),
            forall|k2: u64|
                old(self).local.contains_key(k2) ==> final(self).local.value_of(k2).delta == 0,
            forall|k2: u64|
                old(self).local.contains_key(k2) ==> final(vec).children.contains_key(k2) && final(vec).children.value_of(k2).val == (if old(vec).children.contains_key(k2) {
                    old(vec).children.value_of(k2).val as int
                } else {
                    0
                }) + old(self).local.value_of(k2).delta,
            forall|k2: u64|
                !old(self).local.contains_key(k2) ==> final(vec).children.contains_key(k2) == old(vec).children.contains_key(k2),
            forall|k2: u64|
                !old(self).local.contains_key(k2) && old(vec).children.contains_key(k2) ==> final(vec).children.value_of(k2) == old(vec).children.value_of(k2),
    {
        let n = self.local.len();
        let mut i: usize = 0;
        while i < n
            invariant
                self.local.wf(),
                old(self).local.wf(),
                local_children_wf(self.local, vec.label_dim()),
                vec.wf(),
                forall|j: int|
                    0 <= j < old(self).local.entries@.len() ==> {
                        let k2 = (#[trigger] old(self).local.entries@[j]).key;
                        (if old(vec).children.contains_key(k2) {
                            old(vec).children.value_of(k2).val as int
                        } else {
                            0
                        }) + old(self).local.entries@[j].val.delta <= i64::MAX
                    },
                vec.opts == old(vec).opts,
                vec.desc == old(vec).desc,
                n == self.local.entries@.len(),
                0 <= i <= n,
                self.local.entries@.len() == old(self).local.entries@.len(),
                forall|j: int|
                    0 <= j < n ==> (#[trigger] self.local.entries@[j]).key == old(self).local.entries@[j].key && self.local.entries@[j].val.vals == old(self).local.entries@[j].val.vals,
                forall|j: int| 0 <= j < i ==> (#[trigger] self.local.entries@[j]).val.delta == 0,
                forall|j: int|
                    i <= j < n ==> (#[trigger] self.local.entries@[j]).val.delta == old(self).local.entries@[j].val.delta,
                forall|j: int|
                    0 <= j < i ==> {
                        let k = (#[trigger] old(self).local.entries@[j]).key;
                        vec.children.contains_key(k) && vec.children.value_of(k).val == (if old(vec).children.contains_key(k) {
                            old(vec).children.value_of(k).val as int
                        } else {
                            0
                        }) + old(self).local.entries@[j].val.delta
                    },
                forall|k2: u64|
                    !old(self).local.contains_key(k2) ==> vec.children.contains_key(k2) == old(vec).children.contains_key(k2),
                forall|k2: u64|
                    !old(self).local.contains_key(k2) && old(vec).children.contains_key(k2)
                        ==> vec.children.value_of(k2) == old(vec).children.value_of(k2),
                forall|j: int|
                    i <= j < n ==> {
                        let k = (#[trigger] old(self).local.entries@[j]).key;
                        vec.children.contains_key(k) == old(vec).children.contains_key(k) && (old(vec).children.contains_key(k) ==> vec.children.value_of(k) == old(vec).children.value_of(k))
                    },
            decreases n - i,
        {
            let ghost ml0 = self.local;
            let ghost mv0 = vec.children;
            let e = self.local.at(i);
            let vals = clone_string_vec(&e.val.vals);
            let delta = e.val.delta;
            let ghost kk = ml0.entries@[i as int].key;
            proof {
                assert(ml0.entries@[i as int].key == spec_hash_label_values(
                    strings_view(ml0.entries@[i as int].val.vals@),
                ));
            }
            let k = vec.with_label_values(&vals);
            proof {
                assert(k == kk);
                assert((if old(vec).children.contains_key(kk) {
                    old(vec).children.value_of(kk).val as int
                } else {
                    0
                }) + old(self).local.entries@[i as int].val.delta <= i64::MAX);
                assert(delta == old(self).local.entries@[i as int].val.delta);
            }
            vec.inc_by(k, delta);
            proof {
                assert(self.local.contains_key(k));
                self.local.lemma_key_unique(self.local.index_of(k), i as int);
            }
            let ghost ml1 = self.local;
            let le = self.local.get_mut(k);
            le.delta = 0;
            proof {
                lemma_update_keeps(ml1, self.local, k, self.local.entries@[ml1.index_of(k)].val);
                assert(ml1.index_of(k) == i as int);
                assert forall|j: int|
                    0 <= j < n implies (#[trigger] self.local.entries@[j]).key == old(self).local.entries@[j].key && self.local.entries@[j].val.vals == old(self).local.entries@[j].val.vals by {
                    if j != i as int {
                        assert(self.local.entries@[j] == ml1.entries@[j]);
                    }
                }
                assert(local_children_wf(self.local, vec.label_dim())) by {
                    assert forall|j: int|
                        0 <= j < self.local.entries@.len() implies {
                        &&& (#[trigger] self.local.entries@[j]).key == spec_hash_label_values(
                            strings_view(self.local.entries@[j].val.vals@),
                        )
                        &&& self.local.entries@[j].val.vals@.len() == vec.label_dim()
                        &&& self.local.entries@[j].val.delta >= 0
                    } by {
                        if j != i as int {
                            assert(self.local.entries@[j] == ml1.entries@[j]);
                            assert(ml1.entries@[j].key == spec_hash_label_values(
                                strings_view(ml1.entries@[j].val.vals@),
                            ));
                        } else {
                            assert(ml1.entries@[j].key == spec_hash_label_values(
                                strings_view(ml1.entries@[j].val.vals@),
                            ));
                        }
                    }
                }
                // keys of entries other than the current one stay distinct
                // from the flushed key, so their shared children are
                // untouched
                assert forall|j: int|
                    i + 1 <= j < n implies {
                    let k2 = (#[trigger] old(self).local.entries@[j]).key;
                    vec.children.contains_key(k2) == old(vec).children.contains_key(k2) && (old(vec).children.contains_key(k2) ==> vec.children.value_of(k2) == old(vec).children.value_of(k2))
                } by {
                    let k2 = old(self).local.entries@[j].key;
                    assert(old(self).local.entries@[i as int].key != old(self).local.entries@[j].key);
                    assert(k2 != k);
                }
            }
            i = i + 1;
        }
        proof {
            assert forall|k2: u64|
                self.local.contains_key(k2) == old(self).local.contains_key(k2) by {
                if old(self).local.contains_key(k2) {
                    let j = old(self).local.index_of(k2);
                    assert(old(self).local.entries@[j].key == k2);
                    assert(self.local.entries@[j].key == k2);
                    assert(self.local.contains_key(k2));
                }
                if self.local.contains_key(k2) {
                    let j = self.local.index_of(k2);
                    assert(self.local.entries@[j].key == k2);
                    assert(old(self).local.entries@[j].key == k2);
                    assert(old(self).local.contains_key(k2));
                }
            }
            assert forall|k2: u64|
                old(self).local.contains_key(k2) implies self.local.value_of(k2).delta == 0
                && vec.children.contains_key(k2) && vec.children.value_of(k2).val
                == (if old(vec).children.contains_key(k2) {
                old(vec).children.value_of(k2).val as int
            } else {
                0
            }) + old(self).local.value_of(k2).delta by {
                let j = old(self).local.index_of(k2);
                assert(old(self).local.entries@[j].key == k2);
                assert(self.local.contains_key(k2));
                let j2 = self.local.index_of(k2);
                assert(self.local.entries@[j2].key == k2);
                if j2 != j {
                    assert(old(self).local.entries@[j2].key == k2);
                    old(self).local.lemma_key_unique(j, j2);
                }
                assert(self.local.value_of(k2).delta == 0);
                assert(vec.children.contains_key(k2));
                assert(old(self).local.value_of(k2).delta == old(self).local.entries@[j].val.delta);
            }
        }
    }
}

} // verus!
