use vstd::prelude::*;

verus! {

use crate::errors::Error;
use crate::labels::pairs_view;
use crate::proto::{LabelPair, MetricFamily};
use crate::text::{push_char, str_eq};

/// The label name reserved for the job a push belongs to.
pub fn label_name_job() -> (r: &'static str)
    ensures
        r@ == "job"@,
{
    "job"
}

/// The first position of a character in a sequence, or its length when
/// the character does not occur.
pub open spec fn idx_of(s: Seq<char>, c: char) -> int
    decreases s.len(),
{
    if s.len() == 0 {
        0
    } else if s[0] == c {
        0
    } else {
        1 + idx_of(s.drop_first(), c)
    }
}

/// The first position is within the sequence, bounds a prefix free of
/// the character, and holds the character when one occurs.
pub proof fn lemma_idx_of(s: Seq<char>, c: char)
    ensures
        0 <= idx_of(s, c) <= s.len(),
        forall|j: int| 0 <= j < idx_of(s, c) ==> s[j] != c,
        idx_of(s, c) < s.len() ==> s[idx_of(s, c)] == c,
    decreases s.len(),
{
    if s.len() > 0 && s[0] != c {
        lemma_idx_of(s.drop_first(), c);
        assert forall|j: int| 0 <= j < idx_of(s, c) implies s[j] != c by {
            if j > 0 {
                assert(s.drop_first()[j - 1] != c);
            }
        }
    }
}

/// Whether the character occurs in the sequence.
pub open spec fn seq_contains_char(s: Seq<char>, c: char) -> bool {
    idx_of(s, c) < s.len()
}

/// The first position of a character, scanning the string.
pub fn find_char(s: &str, c: char) -> (i: usize)
    ensures
        i as int == idx_of(s@, c),
{
    proof {
        lemma_idx_of(s@, c);
    }
    let n = s.unicode_len();
    let mut i: usize = 0;
    while i < n
        invariant
            0 <= i <= n,
            n == s@.len(),
            forall|j: int| 0 <= j < i ==> s@[j] != c,
        decreases n - i,
    {
        if s.get_char(i) == c {
            proof {
                lemma_idx_at(s@, c, i as int);
            }
            return i;
        }
        i = i + 1;
    }
    proof {
        lemma_idx_at(s@, c, n as int);
    }
    n
}

/// The first position of a character is where the scan first meets it.
proof fn lemma_idx_at(s: Seq<char>, c: char, i: int)
    requires
        0 <= i <= s.len(),
        forall|j: int| 0 <= j < i ==> s[j] != c,
        i < s.len() ==> s[i] == c,
    ensures
        idx_of(s, c) == i,
    decreases i,
{
    if s.len() > 0 && i > 0 {
        lemma_idx_at(s.drop_first(), c, i - 1);
    }
}

/// Whether the character occurs in the string.
pub fn contains_char(s: &str, c: char) -> (r: bool)
    ensures
        r == seq_contains_char(s@, c),
{
    let i = find_char(s, c);
    i < s.unicode_len()
}

/// Whether "://" occurs in the sequence.
pub open spec fn has_scheme(u: Seq<char>) -> bool {
    exists|i: int| 0 <= i && i + 3 <= u.len() && #[trigger] u.subrange(i, i + 3) == "://"@
}

/// Whether "://" occurs in the string.
pub fn find_scheme(u: &str) -> (r: bool)
    ensures
        r == has_scheme(u@),
{
    let n = u.unicode_len();
    if n < 3 {
        proof {
            if has_scheme(u@) {
                let i = choose|i: int|
                    0 <= i && i + 3 <= u@.len() && #[trigger] u@.subrange(i, i + 3) == "://"@;
            }
        }
        return false;
    }
    let mut i: usize = 0;
    while i <= n - 3
        invariant
            0 <= i,
            i <= n - 2,
            n >= 3,
            n == u@.len(),
            forall|j: int| 0 <= j < i ==> #[trigger] u@.subrange(j, j + 3) != "://"@,
        decreases n - i,
    {
        let c0 = u.get_char(i);
        let c1 = u.get_char(i + 1);
        let c2 = u.get_char(i + 2);
        if c0 == ':' && c1 == '/' && c2 == '/' {
            proof {
                reveal_strlit("://");
                assert(u@.subrange(i as int, i + 3) =~= "://"@);
            }
            return true;
        }
        proof {
            reveal_strlit("://");
            assert("://"@[0] == ':' && "://"@[1] == '/' && "://"@[2] == '/');
            if u@.subrange(i as int, i + 3) == "://"@ {
                assert(u@.subrange(i as int, i + 3)[0] == ':');
                assert(u@.subrange(i as int, i + 3)[1] == '/');
                assert(u@.subrange(i as int, i + 3)[2] == '/');
                assert(u@[i as int] == ':' && u@[i + 1] == '/' && u@[i + 2] == '/');
            }
        }
        i = i + 1;
    }
    proof {
        if has_scheme(u@) {
            let j = choose|j: int|
                0 <= j && j + 3 <= u@.len() && #[trigger] u@.subrange(j, j + 3) == "://"@;
        }
    }
    false
}

/// The pieces of the push path: the job, then each grouping label's name
/// and value in order.
pub open spec fn url_components(job: Seq<char>, grouping: Seq<(Seq<char>, Seq<char>)>) -> Seq<
    Seq<char>,
>
    decreases grouping.len(),
{
    if grouping.len() == 0 {
        seq![job]
    } else {
        url_components(job, grouping.drop_last()) + seq![
            grouping.last().0,
            grouping.last().1,
        ]
    }
}

/// Pieces joined by slashes.
pub open spec fn join_slash(items: Seq<Seq<char>>) -> Seq<char>
    decreases items.len(),
{
    if items.len() == 0 {
        Seq::empty()
    } else if items.len() == 1 {
        items[0]
    } else {
        join_slash(items.drop_last()) + "/"@ + items.last()
    }
}

/// The URL a push goes to: the given address, given a scheme when it has
/// none and stripped of one trailing slash, then the path with the job
/// and the grouping labels.
pub open spec fn spec_push_url(
    job: Seq<char>,
    grouping: Seq<(Seq<char>, Seq<char>)>,
    url: Seq<char>,
) -> Seq<char> {
    let with_scheme = if has_scheme(url) {
        url
    } else {
        "http://"@ + url
    };
    let base = if with_scheme.len() > 0 && with_scheme.last() == '/' {
        with_scheme.drop_last()
    } else {
        with_scheme
    };
    base + "/metrics/job/"@ + join_slash(url_components(job, grouping))
}

/// Whether a push to this job with these grouping labels is allowed:
/// neither the job nor any grouping label value holds a slash, which the
/// path could not carry.
pub open spec fn push_args_ok(job: Seq<char>, grouping: Seq<(Seq<char>, Seq<char>)>) -> bool {
    &&& !seq_contains_char(job, '/')
    &&& forall|i: int|
        0 <= i < grouping.len() ==> !seq_contains_char((#[trigger] grouping[i]).1, '/')
}

/// Build the URL a push goes to, refusing a job or grouping label value
/// that holds a slash.
pub fn build_push_url(job: &str, grouping: &Vec<LabelPair>, url: &str) -> (r: Result<
    String,
    Error,
>)
    ensures
        r is Ok <==> push_args_ok(job@, pairs_view(grouping@)),
        r matches Ok(u) ==> u@ == spec_push_url(job@, pairs_view(grouping@), url@),
        r matches Err(e) ==> e is Msg,
{
    let ghost gv = pairs_view(grouping@);
    let mut push_url = String::new();
    if find_scheme(url) {
        push_url.append(url);
    } else {
        push_url.append("http://");
        push_url.append(url);
    }
    if contains_char(job, '/') {
        return Err(Error::Msg(String::from_str("job contains '/'")));
    }
    let mut trimmed = push_url;
    let tn = trimmed.as_str().unicode_len();
    if tn > 0 && trimmed.as_str().get_char(tn - 1) == '/' {
        let mut t = String::new();
        let mut i: usize = 0;
        while i + 1 < tn
            invariant
                0 <= i,
                i + 1 <= tn,
                tn == trimmed@.len(),
                t@ == trimmed@.subrange(0, i as int),
            decreases tn - i,
        {
            push_char(&mut t, trimmed.as_str().get_char(i));
            proof {
                assert(t@ =~= trimmed@.subrange(0, i + 1 as int));
            }
            i = i + 1;
        }
        proof {
            assert(t@ =~= trimmed@.drop_last());
        }
        trimmed = t;
    }
    let ghost base = trimmed@;
    trimmed.append("/metrics/job/");
    let ghost prefix = trimmed@;
    trimmed.append(job);
    proof {
        assert(gv.subrange(0, 0) =~= Seq::<(Seq<char>, Seq<char>)>::empty());
        assert(url_components(job@, gv.subrange(0, 0)) =~= seq![job@]);
        assert(trimmed@ =~= prefix + join_slash(url_components(job@, gv.subrange(0, 0))));
    }
    let mut i: usize = 0;
    let n = grouping.len();
    while i < n
        invariant
            0 <= i <= n,
            n == grouping@.len(),
            gv == pairs_view(grouping@),
            gv.len() == n,
            prefix == base + "/metrics/job/"@,
            trimmed@ == prefix + join_slash(url_components(job@, gv.subrange(0, i as int))),
            !seq_contains_char(job@, '/'),
            forall|x: int| 0 <= x < i ==> !seq_contains_char((#[trigger] gv[x]).1, '/'),
        decreases n - i,
    {
        if contains_char(grouping[i].value.as_str(), '/') {
            proof {
                assert(gv[i as int] == (grouping@[i as int].name@, grouping@[i as int].value@));
            }
            return Err(Error::Msg(String::from_str("value of grouping label contains '/'")));
        }
        trimmed.append("/");
        trimmed.append(grouping[i].name.as_str());
        trimmed.append("/");
        trimmed.append(grouping[i].value.as_str());
        proof {
            assert(gv[i as int] == (grouping@[i as int].name@, grouping@[i as int].value@));
            let pre = gv.subrange(0, i as int);
            let cur = gv.subrange(0, i + 1 as int);
            assert(cur.drop_last() =~= pre);
            assert(cur.last() == gv[i as int]);
            let cpre = url_components(job@, pre);
            let ccur = url_components(job@, cur);
            assert(ccur == cpre + seq![gv[i as int].0, gv[i as int].1]);
            lemma_components_len(job@, pre);
            lemma_join_slash_two(cpre, gv[i as int].0, gv[i as int].1);
            assert(trimmed@ =~= prefix + join_slash(ccur));
        }
        i = i + 1;
    }
    proof {
        assert(gv.subrange(0, gv.len() as int) =~= gv);
        assert(trimmed@ =~= spec_push_url(job@, gv, url@));
    }
    Ok(trimmed)
}

/// The components of a push path are never empty: the job is always
/// there.
proof fn lemma_components_len(job: Seq<char>, grouping: Seq<(Seq<char>, Seq<char>)>)
    ensures
        url_components(job, grouping).len() >= 1,
    decreases grouping.len(),
{
    if grouping.len() > 0 {
        lemma_components_len(job, grouping.drop_last());
    }
}

/// Appending a name and a value to the path appends them slash-joined.
proof fn lemma_join_slash_two(items: Seq<Seq<char>>, a: Seq<char>, b: Seq<char>)
    requires
        items.len() >= 1,
    ensures
        join_slash(items + seq![a, b]) =~= join_slash(items) + "/"@ + a + "/"@ + b,
{
    let w = items + seq![a, b];
    let v = items + seq![a];
    assert(w.drop_last() =~= v);
    assert(w.last() == b);
    assert(v.drop_last() =~= items);
    assert(v.last() == a);
    assert(w.len() == items.len() + 2);
    assert(join_slash(w) == join_slash(w.drop_last()) + "/"@ + b);
    assert(join_slash(w.drop_last()) == join_slash(v));
    assert(join_slash(v) == join_slash(v.drop_last()) + "/"@ + a);
    assert(join_slash(v.drop_last()) == join_slash(items));
}

/// Whether no sample in the families carries a job label or one of the
/// grouping labels, which the push would overwrite.
pub open spec fn push_labels_ok(
    fs: Seq<MetricFamily>,
    grouping: Seq<(Seq<char>, Seq<char>)>,
) -> bool {
    forall|i: int, j: int, l: int|
        0 <= i < fs.len() && 0 <= j < fs[i].metric@.len() && 0 <= l
            < fs[i].metric@[j].label@.len() ==> {
            let n = (#[trigger] fs[i].metric@[j].label@[l]).name@;
            n != "job"@ && (forall|g: int| 0 <= g < grouping.len() ==> (#[trigger] grouping[g]).0 != n)
        }
}

/// Refuse families whose samples already carry a job label or one of the
/// grouping labels.
pub fn check_push_labels(mfs: &Vec<MetricFamily>, grouping: &Vec<LabelPair>) -> (r: Result<
    (),
    Error,
>)
    ensures
        r is Ok <==> push_labels_ok(mfs@, pairs_view(grouping@)),
        r matches Err(e) ==> e is Msg,
{
    let ghost gv = pairs_view(grouping@);
    let mut i: usize = 0;
    while i < mfs.len()
        invariant
            0 <= i <= mfs@.len(),
            gv == pairs_view(grouping@),
            forall|a: int, j: int, l: int|
                0 <= a < i && 0 <= j < mfs@[a].metric@.len() && 0 <= l
                    < mfs@[a].metric@[j].label@.len() ==> {
                    let n = (#[trigger] mfs@[a].metric@[j].label@[l]).name@;
                    n != "job"@ && (forall|g: int|
                        0 <= g < gv.len() ==> (#[trigger] gv[g]).0 != n)
                },
        decreases mfs@.len() - i,
    {
        let mf = &mfs[i];
        let mut j: usize = 0;
        while j < mf.get_metric().len()
            invariant
                0 <= j <= mf.metric@.len(),
                mf == &mfs@[i as int],
                0 <= i < mfs@.len(),
                gv == pairs_view(grouping@),
                forall|b: int, l: int|
                    0 <= b < j && 0 <= l < mf.metric@[b].label@.len() ==> {
                        let n = (#[trigger] mf.metric@[b].label@[l]).name@;
                        n != "job"@ && (forall|g: int|
                            0 <= g < gv.len() ==> (#[trigger] gv[g]).0 != n)
                    },
            decreases mf.metric@.len() - j,
        {
            let m = &mf.get_metric()[j];
            let mut l: usize = 0;
            while l < m.get_label().len()
                invariant
                    0 <= l <= m.label@.len(),
                    m == &mf.metric@[j as int],
                    mf == &mfs@[i as int],
                    0 <= i < mfs@.len(),
                    0 <= j < mf.metric@.len(),
                    gv == pairs_view(grouping@),
                    forall|x: int|
                        0 <= x < l ==> {
                            let n = (#[trigger] m.label@[x]).name@;
                            n != "job"@ && (forall|g: int|
                                0 <= g < gv.len() ==> (#[trigger] gv[g]).0 != n)
                        },
                decreases m.label@.len() - l,
            {
                let lp = &m.get_label()[l];
                if str_eq(lp.get_name(), label_name_job()) {
                    return Err(
                        Error::Msg(String::from_str("pushed metric already contains a job label")),
                    );
                }
                let mut g: usize = 0;
                while g < grouping.len()
                    invariant
                        0 <= g <= grouping@.len(),
                        gv == pairs_view(grouping@),
                        gv.len() == grouping@.len(),
                        lp == &m.label@[l as int],
                        m == &mf.metric@[j as int],
                        mf == &mfs@[i as int],
                        0 <= i < mfs@.len(),
                        0 <= j < mf.metric@.len(),
                        0 <= l < m.label@.len(),
                        forall|x: int| 0 <= x < g ==> (#[trigger] gv[x]).0 != lp.name@,
                    decreases grouping@.len() - g,
                {
                    proof {
                        assert(gv[g as int] == (
                            grouping@[g as int].name@,
                            grouping@[g as int].value@,
                        ));
                    }
                    if str_eq(grouping[g].get_name(), lp.get_name()) {
                        return Err(
                            Error::Msg(
                                String::from_str(
                                    "pushed metric already contains a grouping label",
                                ),
                            ),
                        );
                    }
                    g = g + 1;
                }
                l = l + 1;
            }
            j = j + 1;
        }
        i = i + 1;
    }
    Ok(())
}

/// The first line of a response, as str's line iterator hands it out: up
/// to the first line break, without a carriage return right before it.
pub open spec fn first_line(s: Seq<char>) -> Seq<char> {
    let line = s.subrange(0, idx_of(s, '\n'));
    if line.len() > 0 && line.last() == '\r' {
        line.drop_last()
    } else {
        line
    }
}

/// The second space-separated field of the first line: the status code
/// of an HTTP status line.
pub open spec fn spec_status_code(s: Seq<char>) -> Seq<char> {
    let line = first_line(s);
    let rest = line.subrange(idx_of(line, ' '), line.len() as int);
    let after = if rest.len() > 0 {
        rest.drop_first()
    } else {
        rest
    };
    after.subrange(0, idx_of(after, ' '))
}

/// Whether a response has a status code at all: it is not empty and its
/// first line has a space.
pub open spec fn resp_ok(s: Seq<char>) -> bool {
    s.len() > 0 && seq_contains_char(first_line(s), ' ')
}

/// The status code of a response: the second space-separated field of
/// its first line. An empty response, or one whose first line has no
/// space, is refused.
pub fn parse_resp(resp: &str) -> (r: Result<String, Error>)
    ensures
        r is Ok <==> resp_ok(resp@),
        r matches Ok(s) ==> s@ == spec_status_code(resp@),
        r matches Err(e) ==> e is Msg,
{
    if resp.is_empty() {
        return Err(Error::Msg(String::from_str("empty response")));
    }
    proof {
        lemma_idx_of(resp@, '\n');
    }
    let nl = find_char(resp, '\n');
    let mut line = String::new();
    let mut i: usize = 0;
    while i < nl
        invariant
            0 <= i <= nl,
            nl as int == idx_of(resp@, '\n'),
            nl <= resp@.len(),
            line@ == resp@.subrange(0, i as int),
        decreases nl - i,
    {
        push_char(&mut line, resp.get_char(i));
        proof {
            assert(line@ =~= resp@.subrange(0, i + 1 as int));
        }
        i = i + 1;
    }
    let ln = line.as_str().unicode_len();
    let stripped: String = if ln > 0 && line.as_str().get_char(ln - 1) == '\r' {
        let mut t = String::new();
        let mut j: usize = 0;
        while j + 1 < ln
            invariant
                0 <= j,
                j + 1 <= ln,
                ln == line@.len(),
                t@ == line@.subrange(0, j as int),
            decreases ln - j,
        {
            push_char(&mut t, line.as_str().get_char(j));
            proof {
                assert(t@ =~= line@.subrange(0, j + 1 as int));
            }
            j = j + 1;
        }
        proof {
            assert(t@ =~= line@.drop_last());
        }
        t
    } else {
        line
    };
    proof {
        assert(stripped@ == first_line(resp@));
        lemma_idx_of(stripped@, ' ');
    }
    let sp = find_char(stripped.as_str(), ' ');
    let sn = stripped.as_str().unicode_len();
    if sp >= sn {
        return Err(Error::Msg(String::from_str("empty status code")));
    }
    let mut code = String::new();
    let ghost after = stripped@.subrange(sp as int, sn as int).drop_first();
    let mut k: usize = sp + 1;
    proof {
        lemma_idx_of(after, ' ');
    }
    while k < sn && stripped.as_str().get_char(k) != ' '
        invariant
            sp + 1 <= k <= sn,
            sn == stripped@.len(),
            sp < sn,
            sp as int == idx_of(stripped@, ' '),
            after == stripped@.subrange(sp as int, sn as int).drop_first(),
            after.len() == sn - sp - 1,
            forall|x: int| 0 <= x < k - sp - 1 ==> after[x] != ' ',
            code@ == after.subrange(0, k - sp - 1),
        decreases sn - k,
    {
        push_char(&mut code, stripped.as_str().get_char(k));
        proof {
            assert(after[k - sp - 1] == stripped@[k as int]);
            assert(code@ =~= after.subrange(0, k - sp));
        }
        k = k + 1;
    }
    proof {
        if (k as int) < sn as int {
            assert(after[k - sp - 1] == stripped@[k as int]);
        }
        lemma_idx_at(after, ' ', k - sp - 1);
        assert(code@ =~= after.subrange(0, idx_of(after, ' ')));
        assert(code@ == spec_status_code(resp@));
    }
    Ok(code)
}

/// The grouping key most pushes use: one label binding the instance name.
/// Where the machine's host name cannot be asked for, the instance is
/// the placeholder value.
pub fn hostname_grouping_key() -> (r: Vec<LabelPair>)
    ensures
        r@.len() == 1,
        r@[0].name@ == "instance"@,
        r@[0].value@ == "unknown"@,
{
    let mut r: Vec<LabelPair> = Vec::new();
    r.push(
        LabelPair { name: String::from_str("instance"), value: String::from_str("unknown") },
    );
    r
}

} // verus!
