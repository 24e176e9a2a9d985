use vstd::prelude::*;

verus! {

use crate::desc::Desc;
use crate::errors::Error;
use crate::labels::{clone_pairs, clone_string_vec, pairs_view, strings_view, upsert_exec, upsert_pair};
use crate::proto::{LabelPair, MetricFamily};

/// The byte written between label values when they are hashed into one
/// key, so that no two different tuples share the byte stream.
pub const SEPARATOR_BYTE: u8 = 0xFF;

/// What a collector hands to a registry: its descriptors and, on demand, a
/// snapshot of its families.
pub trait Collector {
    /// The descriptors of the families this collector exports.
    fn desc(&self) -> Vec<Desc>;

    /// A point-in-time snapshot of every family this collector exports.
    fn collect(&self) -> Vec<MetricFamily>;
}

/// A single sample value with its resolved labels, renderable on demand.
pub trait Metric {
    /// The sample as it is exported.
    fn metric(&self) -> crate::proto::Metric;
}

/// The fully-qualified name: the given components joined by an underscore,
/// empty components left out, and empty altogether when the name itself is
/// empty.
pub open spec fn spec_fq_name(ns: Seq<char>, ss: Seq<char>, n: Seq<char>) -> Seq<char> {
    if n.len() == 0 {
        Seq::empty()
    } else if ns.len() > 0 && ss.len() > 0 {
        ns + "_"@ + ss + "_"@ + n
    } else if ns.len() > 0 {
        ns + "_"@ + n
    } else if ss.len() > 0 {
        ss + "_"@ + n
    } else {
        n
    }
}

/// Join namespace, subsystem and name by an underscore, leaving empty
/// components out. An empty name gives an empty result, whatever the other
/// components hold.
pub fn build_fq_name(namespace: &str, subsystem: &str, name: &str) -> (r: String)
    ensures
        r@ == spec_fq_name(namespace@, subsystem@, name@),
{
    if name.is_empty() {
        return String::new();
    }
    let mut r = String::new();
    if !namespace.is_empty() {
        r.append(namespace);
        r.append("_");
    }
    if !subsystem.is_empty() {
        r.append(subsystem);
        r.append("_");
    }
    r.append(name);
    proof {
        assert(r@ =~= spec_fq_name(namespace@, subsystem@, name@));
    }
    r
}

/// The options from which a metric or a vector is created: the name
/// components and help text, the constant label pairs, and the names of
/// the variable labels.
#[derive(Debug)]
pub struct Opts {
    /// Joined with subsystem and name into the fully-qualified name.
    pub namespace: String,
    /// Joined with namespace and name into the fully-qualified name.
    pub subsystem: String,
    /// The mandatory name component.
    pub name: String,
    /// The mandatory help text.
    pub help: String,
    /// Labels fixed for the lifetime of the metric; at most one value per
    /// name.
    pub const_labels: Vec<LabelPair>,
    /// The names of the labels whose values vary per child; empty for a
    /// single metric.
    pub variable_labels: Vec<String>,
}

impl Clone for Opts {
    fn clone(&self) -> (r: Self)
        ensures
            opts_eq(r, *self),
    {
        Opts {
            namespace: self.namespace.clone(),
            subsystem: self.subsystem.clone(),
            name: self.name.clone(),
            help: self.help.clone(),
            const_labels: clone_pairs(&self.const_labels),
            variable_labels: clone_string_vec(&self.variable_labels),
        }
    }
}

/// Whether two option records carry the same data.
pub open spec fn opts_eq(a: Opts, b: Opts) -> bool {
    &&& a.namespace == b.namespace
    &&& a.subsystem == b.subsystem
    &&& a.name == b.name
    &&& a.help == b.help
    &&& a.const_labels@ == b.const_labels@
    &&& a.variable_labels@ == b.variable_labels@
}

impl Opts {
    /// Options with the given name and help, and nothing else set.
    pub fn new(name: &str, help: &str) -> (r: Opts)
        ensures
            r.namespace@ == Seq::<char>::empty(),
            r.subsystem@ == Seq::<char>::empty(),
            r.name@ == name@,
            r.help@ == help@,
            r.const_labels@ == Seq::<LabelPair>::empty(),
            r.variable_labels@ == Seq::<String>::empty(),
    {
        Opts {
            namespace: String::new(),
            subsystem: String::new(),
            name: name.to_owned(),
            help: help.to_owned(),
            const_labels: Vec::new(),
            variable_labels: Vec::new(),
        }
    }

    /// Set the namespace.
    pub fn namespace(self, namespace: &str) -> (r: Self)
        ensures
            r.namespace@ == namespace@,
            r.subsystem == self.subsystem,
            r.name == self.name,
            r.help == self.help,
            r.const_labels@ == self.const_labels@,
            r.variable_labels@ == self.variable_labels@,
    {
        Opts { namespace: namespace.to_owned(), ..self }
    }

    /// Set the subsystem.
    pub fn subsystem(self, subsystem: &str) -> (r: Self)
        ensures
            r.subsystem@ == subsystem@,
            r.namespace == self.namespace,
            r.name == self.name,
            r.help == self.help,
            r.const_labels@ == self.const_labels@,
            r.variable_labels@ == self.variable_labels@,
    {
        Opts { subsystem: subsystem.to_owned(), ..self }
    }

    /// Replace the constant labels.
    pub fn const_labels(self, const_labels: Vec<LabelPair>) -> (r: Self)
        ensures
            r.const_labels@ == const_labels@,
            r.namespace == self.namespace,
            r.subsystem == self.subsystem,
            r.name == self.name,
            r.help == self.help,
            r.variable_labels@ == self.variable_labels@,
    {
        Opts { const_labels, ..self }
    }

    /// Add one constant label; a second value for the same name replaces
    /// the first.
    pub fn const_label(self, name: &str, value: &str) -> (r: Self)
        ensures
            pairs_view(r.const_labels@) == upsert_pair(
                pairs_view(self.const_labels@),
                name@,
                value@,
            ),
            r.namespace == self.namespace,
            r.subsystem == self.subsystem,
            r.name == self.name,
            r.help == self.help,
            r.variable_labels@ == self.variable_labels@,
    {
        let mut s = self;
        upsert_exec(&mut s.const_labels, name, value);
        s
    }

    /// Replace the variable label names.
    pub fn variable_labels(self, variable_labels: Vec<String>) -> (r: Self)
        ensures
            r.variable_labels@ == variable_labels@,
            r.namespace == self.namespace,
            r.subsystem == self.subsystem,
            r.name == self.name,
            r.help == self.help,
            r.const_labels@ == self.const_labels@,
    {
        Opts { variable_labels, ..self }
    }

    /// Add one variable label name.
    pub fn variable_label(self, name: &str) -> (r: Self)
        ensures
            strings_view(r.variable_labels@) == strings_view(self.variable_labels@).push(name@),
            r.variable_labels@.subrange(0, self.variable_labels@.len() as int)
                == self.variable_labels@,
            r.namespace == self.namespace,
            r.subsystem == self.subsystem,
            r.name == self.name,
            r.help == self.help,
            r.const_labels@ == self.const_labels@,
    {
        let mut s = self;
        s.variable_labels.push(name.to_owned());
        proof {
            assert(strings_view(s.variable_labels@) =~= strings_view(
                s.variable_labels@.drop_last(),
            ).push(name@));
            assert(s.variable_labels@.subrange(0, s.variable_labels@.len() - 1)
                =~= s.variable_labels@.drop_last());
        }
        s
    }

    /// The fully-qualified name built from namespace, subsystem and name.
    pub fn fq_name(&self) -> (r: String)
        ensures
            r@ == spec_fq_name(self.namespace@, self.subsystem@, self.name@),
    {
        build_fq_name(self.namespace.as_str(), self.subsystem.as_str(), self.name.as_str())
    }

    /// The validated descriptor these options describe.
    pub fn describe(&self) -> (r: Result<Desc, Error>)
        ensures
            r is Ok <==> (spec_fq_name(self.namespace@, self.subsystem@, self.name@).len() > 0
                && crate::labels::distinct_seqs(
                crate::desc::all_label_names(
                    pairs_view(self.const_labels@),
                    strings_view(self.variable_labels@),
                ),
            )),
            r matches Ok(d) ==> {
                &&& d.fq_name@ == spec_fq_name(self.namespace@, self.subsystem@, self.name@)
                &&& d.help == self.help
                &&& d.variable_labels@ == self.variable_labels@
                &&& pairs_view(d.const_label_pairs@) == crate::labels::sort_pairs(
                    pairs_view(self.const_labels@),
                )
                &&& crate::desc::desc_wf(d)
            },
            r matches Err(e) ==> e is Msg,
    {
        Desc::new(
            self.fq_name(),
            self.help.clone(),
            clone_string_vec(&self.variable_labels),
            clone_pairs(&self.const_labels),
        )
    }
}

} // verus!
