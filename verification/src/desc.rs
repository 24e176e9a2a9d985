use vstd::prelude::*;

verus! {

use crate::errors::Error;
use crate::labels::{
    clone_pairs, clone_string_vec, distinct_seqs, distinct_strings, lemma_sort_pairs_sorted,
    pair_names, pairs_sorted, pairs_view, sort_pairs, sort_pairs_exec, strings_view,
};
use crate::proto::LabelPair;

/// The immutable metadata of a metric or a metric family: its
/// fully-qualified name, its help text, the names of its variable labels,
/// and its constant label pairs, ordered by name.
#[derive(Debug)]
pub struct Desc {
    pub fq_name: String,
    pub help: String,
    pub const_label_pairs: Vec<LabelPair>,
    pub variable_labels: Vec<String>,
}

/// Whether two descriptors carry the same data.
pub open spec fn desc_eq(a: Desc, b: Desc) -> bool {
    &&& a.fq_name == b.fq_name
    &&& a.help == b.help
    &&& a.const_label_pairs@ == b.const_label_pairs@
    &&& a.variable_labels@ == b.variable_labels@
}

/// The names of all labels of a descriptor-to-be: the constant ones, then
/// the variable ones.
pub open spec fn all_label_names(
    const_pairs: Seq<(Seq<char>, Seq<char>)>,
    variable: Seq<Seq<char>>,
) -> Seq<Seq<char>> {
    pair_names(const_pairs) + variable
}

/// What a well-formed descriptor guarantees: a non-empty name, constant
/// pairs ordered by name, and no label name given twice, neither among the
/// constant and variable labels themselves nor between the two.
pub open spec fn desc_wf(d: Desc) -> bool {
    &&& d.fq_name@.len() > 0
    &&& pairs_sorted(pairs_view(d.const_label_pairs@))
    &&& distinct_seqs(
        all_label_names(pairs_view(d.const_label_pairs@), strings_view(d.variable_labels@)),
    )
}

impl Clone for Desc {
    fn clone(&self) -> (r: Self)
        ensures
            desc_eq(r, *self),
    {
        Desc {
            fq_name: self.fq_name.clone(),
            help: self.help.clone(),
            const_label_pairs: clone_pairs(&self.const_label_pairs),
            variable_labels: clone_string_vec(&self.variable_labels),
        }
    }
}

impl Desc {
    /// Build and validate a descriptor. Succeeds exactly when the name is
    /// non-empty and no label name occurs twice; the constant pairs come
    /// out ordered by name.
    pub fn new(
        fq_name: String,
        help: String,
        variable_labels: Vec<String>,
        const_labels: Vec<LabelPair>,
    ) -> (r: Result<Desc, Error>)
        ensures
            r is Ok <==> (fq_name@.len() > 0 && distinct_seqs(
                all_label_names(pairs_view(const_labels@), strings_view(variable_labels@)),
            )),
            r matches Ok(d) ==> {
                &&& d.fq_name == fq_name
                &&& d.help == help
                &&& d.variable_labels@ == variable_labels@
                &&& pairs_view(d.const_label_pairs@) == sort_pairs(pairs_view(const_labels@))
                &&& desc_wf(d)
            },
            r matches Err(e) ==> e is Msg,
    {
        let ghost cv = pairs_view(const_labels@);
        let ghost vv = strings_view(variable_labels@);
        if fq_name.as_str().is_empty() {
            return Err(Error::Msg(String::from_str("descriptor must have a name")));
        }
        // Gather every label name, constant ones first, and refuse any
        // repetition: a duplicate inside either list or a name that is
        // both constant and variable.
        let mut names: Vec<String> = Vec::new();
        let mut i: usize = 0;
        while i < const_labels.len()
            invariant
                0 <= i <= const_labels@.len(),
                names@.len() == i,
                forall|k: int| 0 <= k < i ==> (#[trigger] names@[k])@ == const_labels@[k].name@,
            decreases const_labels@.len() - i,
        {
            names.push(const_labels[i].name.clone());
            i = i + 1;
        }
        let cn = names.len();
        let mut j: usize = 0;
        while j < variable_labels.len()
            invariant
                0 <= j <= variable_labels@.len(),
                cn == const_labels@.len(),
                names@.len() == cn + j,
                forall|k: int| 0 <= k < cn ==> (#[trigger] names@[k])@ == const_labels@[k].name@,
                forall|k: int|
                    cn <= k < cn + j ==> (#[trigger] names@[k])@ == variable_labels@[k - cn]@,
            decreases variable_labels@.len() - j,
        {
            names.push(variable_labels[j].clone());
            j = j + 1;
        }
        proof {
            let all = all_label_names(cv, vv);
            assert(cv.len() == const_labels@.len());
            assert(vv.len() == variable_labels@.len());
            assert forall|k: int|
                0 <= k < names@.len() implies strings_view(names@)[k] == all[k] by {
                assert(strings_view(names@)[k] == names@[k]@);
                if k < cn {
                    assert(all[k] == pair_names(cv)[k]);
                    assert(pair_names(cv)[k] == cv[k].0);
                    assert(cv[k] == (const_labels@[k].name@, const_labels@[k].value@));
                } else {
                    assert(all[k] == vv[k - cn]);
                    assert(vv[k - cn] == variable_labels@[k - cn]@);
                }
            }
            assert(strings_view(names@) =~= all_label_names(cv, vv));
        }
        if !distinct_strings(&names) {
            return Err(Error::Msg(String::from_str("duplicate label names in descriptor")));
        }
        let const_label_pairs = sort_pairs_exec(&const_labels);
        proof {
            lemma_sort_pairs_sorted(cv);
            assert(pair_names(sort_pairs(cv)) =~= all_label_names(sort_pairs(cv), vv).subrange(
                0,
                sort_pairs(cv).len() as int,
            ));
        }
        let d = Desc { fq_name, help, const_label_pairs, variable_labels };
        proof {
            lemma_sorted_names_distinct(cv, vv);
        }
        Ok(d)
    }
}

/// Ordering the constant pairs does not introduce a repeated label name:
/// the names after sorting are a rearrangement of the names before.
proof fn lemma_sorted_names_distinct(cv: Seq<(Seq<char>, Seq<char>)>, vv: Seq<Seq<char>>)
    requires
        distinct_seqs(all_label_names(cv, vv)),
    ensures
        distinct_seqs(all_label_names(sort_pairs(cv), vv)),
{
    lemma_sort_pairs_multiset(cv);
    crate::labels::lemma_sort_pairs_sorted(cv);
    let a = all_label_names(cv, vv);
    let b = all_label_names(sort_pairs(cv), vv);
    assert(pair_names(cv).to_multiset() =~= pair_names(sort_pairs(cv)).to_multiset());
    assert forall|i: int, j: int| 0 <= i < j < b.len() implies b[i] != b[j] by {
        lemma_distinct_from_multiset(cv, vv, i, j);
    }
}

/// The names of a sorted pair list form the same multiset as before.
proof fn lemma_sort_pairs_multiset(s: Seq<(Seq<char>, Seq<char>)>)
    ensures
        pair_names(sort_pairs(s)).to_multiset() =~= pair_names(s).to_multiset(),
    decreases s.len(),
{
    broadcast use vstd::seq_lib::group_to_multiset_ensures;

    if s.len() == 0 {
        assert(pair_names(sort_pairs(s)) =~= Seq::<Seq<char>>::empty());
        assert(pair_names(s) =~= Seq::<Seq<char>>::empty());
    } else {
        lemma_sort_pairs_multiset(s.drop_last());
        lemma_insert_names_multiset(sort_pairs(s.drop_last()), s.last());
        assert(pair_names(s).drop_last() =~= pair_names(s.drop_last()));
        assert(pair_names(s) =~= pair_names(s.drop_last()).push(s.last().0));
    }
}

/// Inserting a pair adds exactly its name to the multiset of names.
proof fn lemma_insert_names_multiset(s: Seq<(Seq<char>, Seq<char>)>, p: (Seq<char>, Seq<char>))
    ensures
        pair_names(crate::labels::insert_pair_sorted(s, p)).to_multiset() =~= pair_names(
            s,
        ).to_multiset().insert(p.0),
    decreases s.len(),
{
    broadcast use vstd::seq_lib::group_to_multiset_ensures;

    let r = crate::labels::insert_pair_sorted(s, p);
    if s.len() == 0 {
        assert(pair_names(r) =~= Seq::<Seq<char>>::empty().push(p.0));
        assert(pair_names(s) =~= Seq::<Seq<char>>::empty());
    } else if crate::text::lex_lt(p.0, s[0].0) {
        assert(pair_names(r) =~= seq![p.0] + pair_names(s));
        lemma_cons_multiset(p.0, pair_names(s));
    } else {
        lemma_insert_names_multiset(s.drop_first(), p);
        assert(pair_names(r) =~= seq![s[0].0] + pair_names(
            crate::labels::insert_pair_sorted(s.drop_first(), p),
        ));
        lemma_cons_multiset(s[0].0, pair_names(crate::labels::insert_pair_sorted(s.drop_first(), p)));
        lemma_cons_multiset(s[0].0, pair_names(s.drop_first()));
        assert(pair_names(s) =~= seq![s[0].0] + pair_names(s.drop_first()));
    }
}

/// Prepending an element inserts it into the multiset.
proof fn lemma_cons_multiset(x: Seq<char>, s: Seq<Seq<char>>)
    ensures
        (seq![x] + s).to_multiset() =~= s.to_multiset().insert(x),
{
    broadcast use vstd::seq_lib::group_to_multiset_ensures;
    broadcast use vstd::multiset::group_multiset_axioms;

    let r = seq![x] + s;
    assert(r[0] == x);
    assert(r.remove(0) =~= s);
    assert(r.remove(0).to_multiset() =~= r.to_multiset().remove(x));
    assert(r.contains(x));
    assert(r.to_multiset().count(x) > 0);
    assert forall|e: Seq<char>|
        r.to_multiset().count(e) == s.to_multiset().insert(x).count(e) by {
        if e == x {
            assert(s.to_multiset().count(x) == r.to_multiset().remove(x).count(x));
        } else {
            assert(s.to_multiset().count(e) == r.to_multiset().remove(x).count(e));
        }
    }
    assert(r.to_multiset() =~= s.to_multiset().insert(x));
}

/// Two positions in the rearranged name list hold different names, since
/// every name occurs only once in the original.
proof fn lemma_distinct_from_multiset(
    cv: Seq<(Seq<char>, Seq<char>)>,
    vv: Seq<Seq<char>>,
    i: int,
    j: int,
)
    requires
        distinct_seqs(all_label_names(cv, vv)),
        pair_names(cv).to_multiset() == pair_names(sort_pairs(cv)).to_multiset(),
        pair_names(sort_pairs(cv)).len() == pair_names(cv).len(),
        0 <= i < j < all_label_names(sort_pairs(cv), vv).len(),
    ensures
        all_label_names(sort_pairs(cv), vv)[i] != all_label_names(sort_pairs(cv), vv)[j],
{
    broadcast use vstd::seq_lib::group_to_multiset_ensures;

    let a = all_label_names(cv, vv);
    let b = all_label_names(sort_pairs(cv), vv);
    let n = pair_names(sort_pairs(cv)).len();
    if b[i] == b[j] {
        let x = b[i];
        if j < n {
            // both in the sorted constant part: the name would be counted
            // twice in the multiset, yet at most once in the original
            assert(pair_names(sort_pairs(cv)).remove(j).to_multiset() =~= pair_names(
                sort_pairs(cv),
            ).to_multiset().remove(x));
            assert(pair_names(sort_pairs(cv)).remove(j)[i] == x);
            assert(pair_names(sort_pairs(cv)).remove(j).to_multiset().contains(x));
            assert(pair_names(cv).to_multiset().count(x) >= 2);
            lemma_count_two_dup(pair_names(cv), x);
            let (u, w) = choose|u: int, w: int|
                0 <= u < w < pair_names(cv).len() && pair_names(cv)[u] == x && pair_names(cv)[w]
                    == x;
            assert(a[u] == x && a[w] == x);
        } else if i < n {
            // one constant, one variable: the original also holds both
            assert(pair_names(sort_pairs(cv)).to_multiset().contains(x));
            assert(pair_names(cv).to_multiset().contains(x));
            let u = choose|u: int| 0 <= u < pair_names(cv).len() && pair_names(cv)[u] == x;
            assert(a[u] == x);
            assert(a[j - n + pair_names(cv).len()] == x);
        } else {
            // both variable: the original holds them at the same offsets
            assert(a[i - n + pair_names(cv).len()] == x);
            assert(a[j - n + pair_names(cv).len()] == x);
        }
    }
}

/// A multiset count of two or more means two distinct positions hold the
/// element.
proof fn lemma_count_two_dup(s: Seq<Seq<char>>, x: Seq<char>)
    requires
        s.to_multiset().count(x) >= 2,
    ensures
        exists|u: int, w: int| 0 <= u < w < s.len() && s[u] == x && s[w] == x,
    decreases s.len(),
{
    broadcast use vstd::seq_lib::group_to_multiset_ensures;

    assert(s.to_multiset().contains(x));
    assert(s.contains(x));
    let w = choose|w: int| 0 <= w < s.len() && s[w] == x;
    let t = s.remove(w);
    assert(t.to_multiset() =~= s.to_multiset().remove(x));
    assert(t.to_multiset().count(x) >= 1);
    assert(t.contains(x));
    let u0 = choose|u0: int| 0 <= u0 < t.len() && t[u0] == x;
    if u0 < w {
        assert(s[u0] == x);
        assert(exists|u: int, w2: int| 0 <= u < w2 < s.len() && s[u] == x && s[w2] == x);
    } else {
        assert(s[u0 + 1] == x);
        assert(exists|u: int, w2: int| 0 <= u < w2 < s.len() && s[u] == x && s[w2] == x);
    }
}

} // verus!
