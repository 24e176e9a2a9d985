use vstd::prelude::*;

verus! {

use crate::proto::LabelPair;
use crate::text::{lex_lt, lemma_lex_irrefl, lemma_lex_total, lemma_lex_trans, str_eq, str_lt};

/// The mathematical view of a label-pair list: each pair as its name's and
/// value's character sequences.
pub open spec fn pairs_view(s: Seq<LabelPair>) -> Seq<(Seq<char>, Seq<char>)> {
    s.map_values(|p: LabelPair| (p.name@, p.value@))
}

/// Whether a pair list is ordered by name: no pair's name comes strictly
/// after a later pair's name.
pub open spec fn pairs_sorted(s: Seq<(Seq<char>, Seq<char>)>) -> bool {
    forall|i: int, j: int| 0 <= i < j < s.len() ==> !lex_lt(#[trigger] s[j].0, #[trigger] s[i].0)
}

/// Insert one pair into a name-ordered pair list, after all pairs whose
/// name does not come strictly after the new pair's name.
pub open spec fn insert_pair_sorted(
    s: Seq<(Seq<char>, Seq<char>)>,
    p: (Seq<char>, Seq<char>),
) -> Seq<(Seq<char>, Seq<char>)>
    decreases s.len(),
{
    if s.len() == 0 {
        seq![p]
    } else if lex_lt(p.0, s[0].0) {
        seq![p] + s
    } else {
        seq![s[0]] + insert_pair_sorted(s.drop_first(), p)
    }
}

/// Order a pair list by name, keeping the given order among pairs of equal
/// name (insertion from the left, each pair after its equals).
pub open spec fn sort_pairs(s: Seq<(Seq<char>, Seq<char>)>) -> Seq<(Seq<char>, Seq<char>)>
    decreases s.len(),
{
    if s.len() == 0 {
        Seq::empty()
    } else {
        insert_pair_sorted(sort_pairs(s.drop_last()), s.last())
    }
}

/// A sorted insertion splits the list at the first name that comes
/// strictly after the new pair's name.
proof fn lemma_insert_pair_at(s: Seq<(Seq<char>, Seq<char>)>, p: (Seq<char>, Seq<char>), i: int)
    requires
        0 <= i <= s.len(),
        forall|k: int| 0 <= k < i ==> !lex_lt(p.0, #[trigger] s[k].0),
        i < s.len() ==> lex_lt(p.0, s[i].0),
    ensures
        insert_pair_sorted(s, p) =~= s.subrange(0, i) + seq![p] + s.subrange(i, s.len() as int),
    decreases i,
{
    if s.len() == 0 {
    } else if i == 0 {
    } else {
        lemma_insert_pair_at(s.drop_first(), p, i - 1);
        assert(s.drop_first().subrange(0, i - 1) =~= s.subrange(1, i));
        assert(s.drop_first().subrange(i - 1, s.drop_first().len() as int) =~= s.subrange(
            i,
            s.len() as int,
        ));
    }
}

/// Inserting into a name-ordered list keeps it ordered.
pub proof fn lemma_insert_pair_sorted_keeps(
    s: Seq<(Seq<char>, Seq<char>)>,
    p: (Seq<char>, Seq<char>),
)
    requires
        pairs_sorted(s),
    ensures
        pairs_sorted(insert_pair_sorted(s, p)),
    decreases s.len(),
{
    if s.len() == 0 {
    } else if lex_lt(p.0, s[0].0) {
        let r = seq![p] + s;
        assert forall|i: int, j: int| 0 <= i < j < r.len() implies !lex_lt(r[j].0, r[i].0) by {
            assert(r[j] == s[j - 1]);
            if i == 0 {
                if lex_lt(s[j - 1].0, p.0) {
                    lemma_lex_trans(s[j - 1].0, p.0, s[0].0);
                    lemma_lex_irrefl(s[0].0);
                    assert(!lex_lt(s[j - 1].0, s[0].0));
                }
            } else {
                assert(r[i] == s[i - 1]);
                assert(!lex_lt(s[j - 1].0, s[i - 1].0));
            }
        }
    } else {
        lemma_insert_pair_sorted_keeps(s.drop_first(), p);
        let t = insert_pair_sorted(s.drop_first(), p);
        let r = seq![s[0]] + t;
        lemma_lex_total(p.0, s[0].0);
        assert(pairs_sorted(s.drop_first())) by {
            assert forall|i: int, j: int|
                0 <= i < j < s.drop_first().len() implies !lex_lt(
                #[trigger] s.drop_first()[j].0,
                #[trigger] s.drop_first()[i].0,
            ) by {
                assert(s.drop_first()[j] == s[j + 1]);
                assert(s.drop_first()[i] == s[i + 1]);
                assert(!lex_lt(s[j + 1].0, s[i + 1].0));
            }
        }
        assert forall|i: int, j: int| 0 <= i < j < r.len() implies !lex_lt(r[j].0, r[i].0) by {
            if i == 0 {
                lemma_insert_pair_member(s.drop_first(), p, j - 1);
                assert(r[j] == t[j - 1]);
                if t[j - 1] == p {
                    assert(!lex_lt(p.0, s[0].0));
                } else {
                    let k = choose|k: int|
                        0 <= k < s.drop_first().len() && t[j - 1] == s.drop_first()[k];
                    assert(s.drop_first()[k] == s[k + 1]);
                    assert(!lex_lt(s[k + 1].0, s[0].0));
                }
            } else {
                assert(r[i] == t[i - 1]);
                assert(r[j] == t[j - 1]);
                assert(!lex_lt(t[j - 1].0, t[i - 1].0));
            }
        }
    }
}

/// A sorted insertion has one more element.
proof fn lemma_insert_pair_len(s: Seq<(Seq<char>, Seq<char>)>, p: (Seq<char>, Seq<char>))
    ensures
        insert_pair_sorted(s, p).len() == s.len() + 1,
    decreases s.len(),
{
    if s.len() > 0 && !lex_lt(p.0, s[0].0) {
        lemma_insert_pair_len(s.drop_first(), p);
    }
}

/// Every element of a sorted insertion is the new pair or one of the old
/// ones.
proof fn lemma_insert_pair_member(
    s: Seq<(Seq<char>, Seq<char>)>,
    p: (Seq<char>, Seq<char>),
    j: int,
)
    requires
        0 <= j < insert_pair_sorted(s, p).len(),
    ensures
        insert_pair_sorted(s, p).len() == s.len() + 1,
        insert_pair_sorted(s, p)[j] == p || exists|k: int|
            0 <= k < s.len() && insert_pair_sorted(s, p)[j] == s[k],
    decreases s.len(),
{
    lemma_insert_pair_len(s, p);
    if s.len() == 0 {
        assert(insert_pair_sorted(s, p)[j] == p);
    } else if lex_lt(p.0, s[0].0) {
        if j > 0 {
            assert(insert_pair_sorted(s, p)[j] == s[j - 1]);
        } else {
            assert(insert_pair_sorted(s, p)[j] == p);
        }
    } else {
        if j > 0 {
            lemma_insert_pair_member(s.drop_first(), p, j - 1);
            if insert_pair_sorted(s, p)[j] != p {
                let k = choose|k: int|
                    0 <= k < s.drop_first().len() && insert_pair_sorted(s.drop_first(), p)[j - 1]
                        == s.drop_first()[k];
                assert(s.drop_first()[k] == s[k + 1]);
                assert(insert_pair_sorted(s, p)[j] == s[k + 1]);
            }
        } else {
            assert(insert_pair_sorted(s, p)[0] == s[0]);
        }
    }
}

/// The result of ordering a pair list by name is ordered.
pub proof fn lemma_sort_pairs_sorted(s: Seq<(Seq<char>, Seq<char>)>)
    ensures
        pairs_sorted(sort_pairs(s)),
        sort_pairs(s).len() == s.len(),
    decreases s.len(),
{
    if s.len() == 0 {
    } else {
        lemma_sort_pairs_sorted(s.drop_last());
        lemma_insert_pair_sorted_keeps(sort_pairs(s.drop_last()), s.last());
        lemma_insert_pair_member(sort_pairs(s.drop_last()), s.last(), 0);
    }
}

/// The position at which a pair with the given name is inserted into a
/// name-ordered list: right after all pairs whose name does not come
/// strictly after it.
fn find_insert_pos(v: &Vec<LabelPair>, name: &str) -> (i: usize)
    ensures
        0 <= i <= v@.len(),
        forall|k: int| 0 <= k < i ==> !lex_lt(name@, #[trigger] pairs_view(v@)[k].0),
        i < v@.len() ==> lex_lt(name@, pairs_view(v@)[i as int].0),
{
    let ghost s = pairs_view(v@);
    let mut i: usize = 0;
    loop
        invariant
            0 <= i <= v@.len(),
            s == pairs_view(v@),
            s.len() == v@.len(),
            forall|k: int| 0 <= k < i ==> !lex_lt(name@, #[trigger] s[k].0),
        decreases v@.len() - i,
    {
        if i >= v.len() {
            return i;
        }
        proof {
            assert(s[i as int] == (v@[i as int].name@, v@[i as int].value@));
        }
        if str_lt(name, v[i].name.as_str()) {
            return i;
        }
        i = i + 1;
    }
}

/// Insert a pair into a list ordered by name, after all pairs whose name
/// does not come strictly after its own.
pub fn insert_sorted(v: &mut Vec<LabelPair>, p: LabelPair)
    ensures
        pairs_view(final(v)@) == insert_pair_sorted(pairs_view(old(v)@), (p.name@, p.value@)),
{
    let ghost s = pairs_view(old(v)@);
    let ghost pv = (p.name@, p.value@);
    let i = find_insert_pos(v, p.name.as_str());
    proof {
        lemma_insert_pair_at(s, pv, i as int);
    }
    v.insert(i, p);
    proof {
        assert(pairs_view(v@) =~= s.subrange(0, i as int) + seq![pv] + s.subrange(
            i as int,
            s.len() as int,
        ));
    }
}

/// Order a pair list by name, keeping the given order among pairs of equal
/// name.
pub fn sort_pairs_exec(v: &Vec<LabelPair>) -> (r: Vec<LabelPair>)
    ensures
        pairs_view(r@) == sort_pairs(pairs_view(v@)),
{
    let mut r: Vec<LabelPair> = Vec::new();
    let mut i: usize = 0;
    while i < v.len()
        invariant
            0 <= i <= v@.len(),
            pairs_view(r@) == sort_pairs(pairs_view(v@.subrange(0, i as int))),
        decreases v@.len() - i,
    {
        insert_sorted(&mut r, v[i].clone());
        proof {
            let pre = v@.subrange(0, i as int);
            let cur = v@.subrange(0, i + 1 as int);
            assert(cur.drop_last() =~= pre);
            assert(pairs_view(cur).drop_last() =~= pairs_view(cur.drop_last()));
            assert(pairs_view(cur).last() == (v@[i as int].name@, v@[i as int].value@));
        }
        i = i + 1;
    }
    proof {
        assert(v@.subrange(0, v@.len() as int) =~= v@);
    }
    r
}

/// The value of the first pair with the given name, if any.
pub open spec fn lookup_pair(s: Seq<(Seq<char>, Seq<char>)>, n: Seq<char>) -> Option<Seq<char>>
    decreases s.len(),
{
    if s.len() == 0 {
        Option::None
    } else if s[0].0 == n {
        Option::Some(s[0].1)
    } else {
        lookup_pair(s.drop_first(), n)
    }
}

proof fn lemma_lookup_at(s: Seq<(Seq<char>, Seq<char>)>, n: Seq<char>, i: int)
    requires
        0 <= i <= s.len(),
        forall|k: int| 0 <= k < i ==> (#[trigger] s[k]).0 != n,
        i < s.len() ==> s[i].0 == n,
    ensures
        i < s.len() ==> lookup_pair(s, n) == Option::Some(s[i].1),
        i == s.len() ==> lookup_pair(s, n) is None,
    decreases i,
{
    if s.len() > 0 && i > 0 {
        lemma_lookup_at(s.drop_first(), n, i - 1);
    }
}

/// The value the map supplies for the given name, if any.
pub fn lookup_value(pairs: &Vec<LabelPair>, name: &str) -> (r: Option<String>)
    ensures
        (r is Some) == (lookup_pair(pairs_view(pairs@), name@) is Some),
        r matches Some(v) ==> lookup_pair(pairs_view(pairs@), name@) == Option::Some(v@),
{
    let ghost s = pairs_view(pairs@);
    let mut i: usize = 0;
    while i < pairs.len()
        invariant
            0 <= i <= pairs@.len(),
            s == pairs_view(pairs@),
            s.len() == pairs@.len(),
            forall|k: int| 0 <= k < i ==> (#[trigger] s[k]).0 != name@,
        decreases pairs@.len() - i,
    {
        proof {
            assert(s[i as int] == (pairs@[i as int].name@, pairs@[i as int].value@));
        }
        if str_eq(pairs[i].name.as_str(), name) {
            proof {
                lemma_lookup_at(s, name@, i as int);
            }
            return Some(pairs[i].value.clone());
        }
        i = i + 1;
    }
    proof {
        lemma_lookup_at(s, name@, s.len() as int);
    }
    None
}

/// The ordered tuple of values a name-to-value map supplies for a
/// schema; nothing when some schema name is missing from the map.
pub open spec fn resolve_values(
    schema: Seq<Seq<char>>,
    s: Seq<(Seq<char>, Seq<char>)>,
) -> Option<Seq<Seq<char>>>
    decreases schema.len(),
{
    if schema.len() == 0 {
        Option::Some(Seq::empty())
    } else {
        match resolve_values(schema.drop_last(), s) {
            Option::Some(pre) => match lookup_pair(s, schema.last()) {
                Option::Some(v) => Option::Some(pre.push(v)),
                Option::None => Option::None,
            },
            Option::None => Option::None,
        }
    }
}

/// Resolve a name-to-value map against a schema, in schema order.
pub fn resolve_exec(schema: &Vec<String>, labels: &Vec<LabelPair>) -> (r: Option<Vec<String>>)
    ensures
        (r is Some) == (resolve_values(strings_view(schema@), pairs_view(labels@)) is Some),
        r matches Some(vals) ==> resolve_values(strings_view(schema@), pairs_view(labels@))
            == Option::Some(strings_view(vals@)),
{
    let ghost sv = strings_view(schema@);
    let ghost lv = pairs_view(labels@);
    let mut vals: Vec<String> = Vec::new();
    let mut i: usize = 0;
    while i < schema.len()
        invariant
            0 <= i <= schema@.len(),
            sv == strings_view(schema@),
            lv == pairs_view(labels@),
            sv.len() == schema@.len(),
            resolve_values(sv.subrange(0, i as int), lv) == Option::Some(strings_view(vals@)),
        decreases schema@.len() - i,
    {
        proof {
            assert(sv[i as int] == schema@[i as int]@);
        }
        match lookup_value(labels, schema[i].as_str()) {
            Some(v) => {
                vals.push(v);
                proof {
                    let cur = sv.subrange(0, i + 1 as int);
                    assert(cur.drop_last() =~= sv.subrange(0, i as int));
                    assert(cur.last() == sv[i as int]);
                    assert(strings_view(vals@) =~= strings_view(vals@.drop_last()).push(
                        vals@.last()@,
                    ));
                    assert(resolve_values(cur, lv) == Option::Some(strings_view(vals@)));
                }
                i = i + 1;
            },
            None => {
                proof {
                    lemma_resolve_missing(sv, lv, i as int);
                }
                return None;
            },
        }
    }
    proof {
        assert(sv.subrange(0, sv.len() as int) =~= sv);
    }
    Some(vals)
}

/// A resolved tuple has one value per schema name.
pub proof fn lemma_resolved_len(schema: Seq<Seq<char>>, s: Seq<(Seq<char>, Seq<char>)>)
    requires
        resolve_values(schema, s) is Some,
    ensures
        resolve_values(schema, s)->Some_0.len() == schema.len(),
    decreases schema.len(),
{
    if schema.len() > 0 {
        lemma_resolved_len(schema.drop_last(), s);
    }
}

/// A schema name missing from the map sinks the whole resolution.
proof fn lemma_resolve_missing(schema: Seq<Seq<char>>, s: Seq<(Seq<char>, Seq<char>)>, i: int)
    requires
        0 <= i < schema.len(),
        lookup_pair(s, schema[i]) is None,
    ensures
        resolve_values(schema, s) is None,
    decreases schema.len(),
{
    if schema.len() > 0 {
        if i == schema.len() - 1 {
        } else {
            lemma_resolve_missing(schema.drop_last(), s, i);
        }
    }
}

/// The names of a pair list, in order.
pub open spec fn pair_names(s: Seq<(Seq<char>, Seq<char>)>) -> Seq<Seq<char>> {
    s.map_values(|p: (Seq<char>, Seq<char>)| p.0)
}

/// Whether no two entries of a list of names are the same.
pub open spec fn distinct_seqs(s: Seq<Seq<char>>) -> bool {
    forall|i: int, j: int| 0 <= i < j < s.len() ==> s[i] != s[j]
}

/// Replace the value of the first pair with the given name, or append the
/// pair when the name is absent.
pub open spec fn upsert_pair(
    s: Seq<(Seq<char>, Seq<char>)>,
    n: Seq<char>,
    v: Seq<char>,
) -> Seq<(Seq<char>, Seq<char>)>
    decreases s.len(),
{
    if s.len() == 0 {
        seq![(n, v)]
    } else if s[0].0 == n {
        seq![(n, v)] + s.drop_first()
    } else {
        seq![s[0]] + upsert_pair(s.drop_first(), n, v)
    }
}

proof fn lemma_upsert_at(s: Seq<(Seq<char>, Seq<char>)>, n: Seq<char>, v: Seq<char>, i: int)
    requires
        0 <= i < s.len(),
        s[i].0 == n,
        forall|k: int| 0 <= k < i ==> (#[trigger] s[k]).0 != n,
    ensures
        upsert_pair(s, n, v) =~= s.update(i, (n, v)),
    decreases i,
{
    if i > 0 {
        lemma_upsert_at(s.drop_first(), n, v, i - 1);
        assert(s.drop_first().update(i - 1, (n, v)) =~= s.update(i, (n, v)).drop_first());
    }
}

proof fn lemma_upsert_absent(s: Seq<(Seq<char>, Seq<char>)>, n: Seq<char>, v: Seq<char>)
    requires
        forall|k: int| 0 <= k < s.len() ==> (#[trigger] s[k]).0 != n,
    ensures
        upsert_pair(s, n, v) =~= s.push((n, v)),
    decreases s.len(),
{
    if s.len() > 0 {
        lemma_upsert_absent(s.drop_first(), n, v);
    }
}

/// Replace the value of the first pair with the given name, or append a
/// new pair when the name is absent.
pub fn upsert_exec(pairs: &mut Vec<LabelPair>, name: &str, value: &str)
    ensures
        pairs_view(final(pairs)@) == upsert_pair(pairs_view(old(pairs)@), name@, value@),
{
    let ghost s = pairs_view(old(pairs)@);
    let mut i: usize = 0;
    while i < pairs.len()
        invariant
            0 <= i <= pairs@.len(),
            pairs@ == old(pairs)@,
            s == pairs_view(pairs@),
            s.len() == pairs@.len(),
            forall|k: int| 0 <= k < i ==> (#[trigger] s[k]).0 != name@,
        decreases pairs@.len() - i,
    {
        proof {
            assert(s[i as int] == (pairs@[i as int].name@, pairs@[i as int].value@));
        }
        if str_eq(pairs[i].name.as_str(), name) {
            let p = LabelPair { name: name.to_owned(), value: value.to_owned() };
            pairs.set(i, p);
            proof {
                lemma_upsert_at(s, name@, value@, i as int);
                assert(pairs_view(pairs@) =~= s.update(i as int, (name@, value@)));
            }
            return ;
        }
        i = i + 1;
    }
    let p = LabelPair { name: name.to_owned(), value: value.to_owned() };
    pairs.push(p);
    proof {
        lemma_upsert_absent(s, name@, value@);
        assert(pairs_view(pairs@) =~= s.push((name@, value@)));
    }
}

/// Whether no two strings of the list are the same.
pub fn distinct_strings(v: &Vec<String>) -> (r: bool)
    ensures
        r == distinct_seqs(strings_view(v@)),
{
    let ghost s = strings_view(v@);
    let mut i: usize = 0;
    while i < v.len()
        invariant
            0 <= i <= v@.len(),
            s == strings_view(v@),
            s.len() == v@.len(),
            forall|a: int, b: int| 0 <= a < b < i ==> s[a] != s[b],
        decreases v@.len() - i,
    {
        let mut j: usize = 0;
        while j < i
            invariant
                0 <= j <= i < v@.len(),
                s == strings_view(v@),
                s.len() == v@.len(),
                forall|k: int| 0 <= k < j ==> s[k] != s[i as int],
            decreases i - j,
        {
            proof {
                assert(s[j as int] == v@[j as int]@);
                assert(s[i as int] == v@[i as int]@);
            }
            if str_eq(v[j].as_str(), v[i].as_str()) {
                return false;
            }
            j = j + 1;
        }
        i = i + 1;
    }
    true
}

/// Copy a list of strings.
pub fn clone_string_vec(v: &Vec<String>) -> (r: Vec<String>)
    ensures
        r@ == v@,
{
    let mut r: Vec<String> = Vec::new();
    let mut i: usize = 0;
    while i < v.len()
        invariant
            0 <= i <= v@.len(),
            r@ == v@.subrange(0, i as int),
        decreases v@.len() - i,
    {
        r.push(v[i].clone());
        proof {
            assert(r@ =~= v@.subrange(0, i + 1 as int));
        }
        i = i + 1;
    }
    proof {
        assert(r@ =~= v@);
    }
    r
}

/// Copy a list of numbers.
pub fn clone_i64_vec(v: &Vec<i64>) -> (r: Vec<i64>)
    ensures
        r@ == v@,
{
    let mut r: Vec<i64> = Vec::new();
    let mut i: usize = 0;
    while i < v.len()
        invariant
            0 <= i <= v@.len(),
            r@ == v@.subrange(0, i as int),
        decreases v@.len() - i,
    {
        r.push(v[i]);
        proof {
            assert(r@ =~= v@.subrange(0, i + 1 as int));
        }
        i = i + 1;
    }
    proof {
        assert(r@ =~= v@);
    }
    r
}

/// Copy a list of counts.
pub fn clone_u64_vec(v: &Vec<u64>) -> (r: Vec<u64>)
    ensures
        r@ == v@,
{
    let mut r: Vec<u64> = Vec::new();
    let mut i: usize = 0;
    while i < v.len()
        invariant
            0 <= i <= v@.len(),
            r@ == v@.subrange(0, i as int),
        decreases v@.len() - i,
    {
        r.push(v[i]);
        proof {
            assert(r@ =~= v@.subrange(0, i + 1 as int));
        }
        i = i + 1;
    }
    proof {
        assert(r@ =~= v@);
    }
    r
}

/// Copy a list of label pairs.
pub fn clone_pairs(v: &Vec<LabelPair>) -> (r: Vec<LabelPair>)
    ensures
        r@ == v@,
{
    let mut r: Vec<LabelPair> = Vec::new();
    let mut i: usize = 0;
    while i < v.len()
        invariant
            0 <= i <= v@.len(),
            r@ == v@.subrange(0, i as int),
        decreases v@.len() - i,
    {
        r.push(v[i].clone());
        proof {
            assert(r@ =~= v@.subrange(0, i + 1 as int));
        }
        i = i + 1;
    }
    proof {
        assert(r@ =~= v@);
    }
    r
}

/// The names of a list of strings, as character sequences.
pub open spec fn strings_view(s: Seq<String>) -> Seq<Seq<char>> {
    s.map_values(|x: String| x@)
}

/// Whether a list of strings holds one with the given characters.
pub fn string_vec_contains(v: &Vec<String>, s: &str) -> (r: bool)
    ensures
        r == strings_view(v@).contains(s@),
{
    let mut i: usize = 0;
    while i < v.len()
        invariant
            0 <= i <= v@.len(),
            forall|k: int| 0 <= k < i ==> strings_view(v@)[k] != s@,
        decreases v@.len() - i,
    {
        if str_eq(v[i].as_str(), s) {
            proof {
                assert(strings_view(v@)[i as int] == s@);
            }
            return true;
        }
        i = i + 1;
    }
    proof {
        if strings_view(v@).contains(s@) {
            let k = choose|k: int| 0 <= k < strings_view(v@).len() && strings_view(v@)[k] == s@;
        }
    }
    false
}

} // verus!
