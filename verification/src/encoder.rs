use vstd::prelude::*;

verus! {

use crate::errors::Error;
use crate::labels::pairs_view;
use crate::proto::{Bucket, LabelPair, Metric, MetricFamily, MetricType};
use crate::text::{dec_digits, dec_digits_signed, push_char, u64_to_string, i64_to_string};

/// The content type of the text exposition format.
pub fn text_format() -> (r: &'static str)
    ensures
        r@ == "text/plain; version=0.0.4"@,
{
    "text/plain; version=0.0.4"
}

/// How one character is written in the text format: a backslash and a
/// newline are escaped, and inside a quoted label value the quote is too.
pub open spec fn escape_char(c: char, quotes: bool) -> Seq<char> {
    if c == '\\' {
        seq!['\\', '\\']
    } else if c == '\n' {
        seq!['\\', 'n']
    } else if c == '"' && quotes {
        seq!['\\', '"']
    } else {
        seq![c]
    }
}

/// A string as written in the text format, character by character.
pub open spec fn spec_escape(s: Seq<char>, quotes: bool) -> Seq<char>
    decreases s.len(),
{
    if s.len() == 0 {
        Seq::empty()
    } else {
        spec_escape(s.drop_last(), quotes) + escape_char(s.last(), quotes)
    }
}

/// Replace a backslash by a doubled backslash and a newline by a
/// backslash and the letter n; with `include_double_quote`, also a double
/// quote by a backslash and a quote.
pub fn escape_string(v: &str, include_double_quote: bool) -> (r: String)
    ensures
        r@ == spec_escape(v@, include_double_quote),
{
    let mut escaped = String::new();
    let n = v.unicode_len();
    let mut i: usize = 0;
    while i < n
        invariant
            0 <= i <= n,
            n == v@.len(),
            escaped@ == spec_escape(v@.subrange(0, i as int), include_double_quote),
        decreases n - i,
    {
        let c = v.get_char(i);
        if c == '\\' {
            push_char(&mut escaped, '\\');
            push_char(&mut escaped, '\\');
        } else if c == '\n' {
            push_char(&mut escaped, '\\');
            push_char(&mut escaped, 'n');
        } else if c == '"' && include_double_quote {
            push_char(&mut escaped, '\\');
            push_char(&mut escaped, '"');
        } else {
            push_char(&mut escaped, c);
        }
        proof {
            let pre = v@.subrange(0, i as int);
            let cur = v@.subrange(0, i + 1 as int);
            assert(cur.drop_last() =~= pre);
            assert(cur.last() == v@[i as int]);
            assert(escaped@ =~= spec_escape(pre, include_double_quote) + escape_char(
                v@[i as int],
                include_double_quote,
            ));
        }
        i = i + 1;
    }
    proof {
        assert(v@.subrange(0, v@.len() as int) =~= v@);
    }
    escaped
}

/// One label as written inside braces: name, equals sign, and the escaped
/// value in double quotes.
pub open spec fn spec_pair_item(n: Seq<char>, v: Seq<char>) -> Seq<char> {
    n + "=\""@ + spec_escape(v, true) + "\""@
}

/// The written labels of a sample, in order.
pub open spec fn label_items(pairs: Seq<(Seq<char>, Seq<char>)>) -> Seq<Seq<char>> {
    pairs.map_values(|p: (Seq<char>, Seq<char>)| spec_pair_item(p.0, p.1))
}

/// Pieces joined by commas.
pub open spec fn join_comma(items: Seq<Seq<char>>) -> Seq<char>
    decreases items.len(),
{
    if items.len() == 0 {
        Seq::empty()
    } else if items.len() == 1 {
        items[0]
    } else {
        join_comma(items.drop_last()) + ","@ + items.last()
    }
}

/// The label block of a sample: the pairs and, when its name is
/// non-empty, one additional label, all in braces — or nothing at all
/// when there is no label to write.
pub open spec fn spec_label_text(
    pairs: Seq<(Seq<char>, Seq<char>)>,
    en: Seq<char>,
    ev: Seq<char>,
) -> Seq<char> {
    let items = if en.len() > 0 {
        label_items(pairs).push(spec_pair_item(en, ev))
    } else {
        label_items(pairs)
    };
    if items.len() == 0 {
        Seq::empty()
    } else {
        "{"@ + join_comma(items) + "}"@
    }
}

/// Write the label pairs, plus the additional label when its name is
/// non-empty, escaped and enclosed in braces; nothing when there is no
/// label to write.
pub fn label_pairs_to_text(
    pairs: &Vec<LabelPair>,
    additional_label_name: &str,
    additional_label_value: &str,
) -> (r: String)
    ensures
        r@ == spec_label_text(
            pairs_view(pairs@),
            additional_label_name@,
            additional_label_value@,
        ),
{
    let ghost items = label_items(pairs_view(pairs@));
    let n = pairs.len();
    if n == 0 && additional_label_name.is_empty() {
        proof {
            assert(items.len() == 0);
        }
        return String::new();
    }
    let mut s = String::new();
    s.append("{");
    let mut i: usize = 0;
    while i < n
        invariant
            0 <= i <= n,
            n == pairs@.len(),
            items == label_items(pairs_view(pairs@)),
            items.len() == n,
            i == 0 ==> s@ == "{"@,
            i > 0 ==> s@ == "{"@ + join_comma(items.subrange(0, i as int)),
        decreases n - i,
    {
        if i > 0 {
            s.append(",");
        }
        s.append(pairs[i].name.as_str());
        s.append("=\"");
        let e = escape_string(pairs[i].value.as_str(), true);
        s.append(e.as_str());
        s.append("\"");
        proof {
            assert(items[i as int] == spec_pair_item(
                pairs@[i as int].name@,
                pairs@[i as int].value@,
            ));
            let cur = items.subrange(0, i + 1 as int);
            assert(cur.drop_last() =~= items.subrange(0, i as int));
            assert(cur.last() == items[i as int]);
            if i == 0 {
                assert(s@ =~= "{"@ + join_comma(cur));
            } else {
                assert(s@ =~= "{"@ + join_comma(cur));
            }
        }
        i = i + 1;
    }
    proof {
        assert(items.subrange(0, items.len() as int) =~= items);
    }
    if !additional_label_name.is_empty() {
        if n > 0 {
            s.append(",");
        }
        s.append(additional_label_name);
        s.append("=\"");
        let e = escape_string(additional_label_value, true);
        s.append(e.as_str());
        s.append("\"");
        proof {
            let full = items.push(
                spec_pair_item(additional_label_name@, additional_label_value@),
            );
            assert(full.drop_last() =~= items);
            if n == 0 {
                assert(s@ =~= "{"@ + join_comma(full));
            } else {
                assert(s@ =~= "{"@ + join_comma(full));
            }
        }
    }
    s.append("}");
    proof {
        assert(s@ =~= spec_label_text(
            pairs_view(pairs@),
            additional_label_name@,
            additional_label_value@,
        ));
    }
    s
}

/// One sample line: the name, the label block, a space and the value,
/// the timestamp when one is set, and a line break.
pub open spec fn spec_sample(
    name: Seq<char>,
    pairs: Seq<(Seq<char>, Seq<char>)>,
    en: Seq<char>,
    ev: Seq<char>,
    value_text: Seq<char>,
    ts: int,
) -> Seq<char> {
    name + spec_label_text(pairs, en, ev) + " "@ + value_text + (if ts != 0 {
        " "@ + dec_digits_signed(ts)
    } else {
        Seq::<char>::empty()
    }) + "\n"@
}

/// Write one sample line.
fn write_sample(
    name: &str,
    mc: &Metric,
    additional_label_name: &str,
    additional_label_value: &str,
    value_text: &str,
) -> (r: String)
    ensures
        r@ == spec_sample(
            name@,
            pairs_view(mc.label@),
            additional_label_name@,
            additional_label_value@,
            value_text@,
            mc.timestamp_ms as int,
        ),
{
    let mut s = String::new();
    s.append(name);
    let lt = label_pairs_to_text(&mc.label, additional_label_name, additional_label_value);
    s.append(lt.as_str());
    s.append(" ");
    s.append(value_text);
    let timestamp = mc.get_timestamp_ms();
    if timestamp != 0 {
        s.append(" ");
        let t = i64_to_string(timestamp);
        s.append(t.as_str());
    }
    s.append("\n");
    proof {
        assert(s@ =~= spec_sample(
            name@,
            pairs_view(mc.label@),
            additional_label_name@,
            additional_label_value@,
            value_text@,
            mc.timestamp_ms as int,
        ));
    }
    s
}

/// The counter payload's number, zero when the sample carries none.
pub open spec fn counter_value(m: Metric) -> int {
    match m.counter {
        Option::Some(c) => c.value as int,
        Option::None => 0,
    }
}

/// The gauge payload's number, zero when the sample carries none.
pub open spec fn gauge_value(m: Metric) -> int {
    match m.gauge {
        Option::Some(g) => g.value as int,
        Option::None => 0,
    }
}

/// The histogram payload's total count, zero when the sample carries
/// none.
pub open spec fn hist_count(m: Metric) -> int {
    match m.histogram {
        Option::Some(h) => h.sample_count as int,
        Option::None => 0,
    }
}

/// The histogram payload's sum, zero when the sample carries none.
pub open spec fn hist_sum(m: Metric) -> int {
    match m.histogram {
        Option::Some(h) => h.sample_sum as int,
        Option::None => 0,
    }
}

/// The histogram payload's buckets, none when the sample carries none.
pub open spec fn hist_buckets(m: Metric) -> Seq<Bucket> {
    match m.histogram {
        Option::Some(h) => h.bucket@,
        Option::None => Seq::empty(),
    }
}

/// The bound as written on a bucket line: the largest representable
/// value stands for the unbounded bound and is written as +Inf.
pub open spec fn le_text(b: i64) -> Seq<char> {
    if b == i64::MAX {
        "+Inf"@
    } else {
        dec_digits_signed(b as int)
    }
}

/// Whether the buckets already carry an unbounded bound of their own.
pub open spec fn inf_seen(bs: Seq<Bucket>) -> bool {
    exists|i: int| 0 <= i < bs.len() && (#[trigger] bs[i]).upper_bound == i64::MAX
}

/// The bucket lines of one histogram sample, in bucket order.
pub open spec fn bucket_lines(
    name: Seq<char>,
    pairs: Seq<(Seq<char>, Seq<char>)>,
    bs: Seq<Bucket>,
    ts: int,
) -> Seq<char>
    decreases bs.len(),
{
    if bs.len() == 0 {
        Seq::empty()
    } else {
        bucket_lines(name, pairs, bs.drop_last(), ts) + spec_sample(
            name,
            pairs,
            "le"@,
            le_text(bs.last().upper_bound),
            dec_digits(bs.last().cumulative_count as nat),
            ts,
        )
    }
}

/// Everything written for one histogram sample: its bucket lines, an
/// unbounded bucket line unless the buckets carry one, the sum line and
/// the count line.
pub open spec fn spec_histogram_lines(name: Seq<char>, m: Metric) -> Seq<char> {
    let pairs = pairs_view(m.label@);
    let ts = m.timestamp_ms as int;
    let bs = hist_buckets(m);
    bucket_lines(name + "_bucket"@, pairs, bs, ts) + (if inf_seen(bs) {
        Seq::<char>::empty()
    } else {
        spec_sample(
            name + "_bucket"@,
            pairs,
            "le"@,
            "+Inf"@,
            dec_digits(hist_count(m) as nat),
            ts,
        )
    }) + spec_sample(
        name + "_sum"@,
        pairs,
        Seq::empty(),
        Seq::empty(),
        dec_digits_signed(hist_sum(m)),
        ts,
    ) + spec_sample(
        name + "_count"@,
        pairs,
        Seq::empty(),
        Seq::empty(),
        dec_digits(hist_count(m) as nat),
        ts,
    )
}

/// Everything written for one sample, by its family's kind.
pub open spec fn spec_metric_lines(t: MetricType, name: Seq<char>, m: Metric) -> Seq<char> {
    match t {
        MetricType::COUNTER => spec_sample(
            name,
            pairs_view(m.label@),
            Seq::empty(),
            Seq::empty(),
            dec_digits_signed(counter_value(m)),
            m.timestamp_ms as int,
        ),
        MetricType::GAUGE => spec_sample(
            name,
            pairs_view(m.label@),
            Seq::empty(),
            Seq::empty(),
            dec_digits_signed(gauge_value(m)),
            m.timestamp_ms as int,
        ),
        MetricType::HISTOGRAM => spec_histogram_lines(name, m),
        _ => Seq::empty(),
    }
}

/// The lines of a family's samples, in order.
pub open spec fn spec_metrics_lines(t: MetricType, name: Seq<char>, ms: Seq<Metric>) -> Seq<char>
    decreases ms.len(),
{
    if ms.len() == 0 {
        Seq::empty()
    } else {
        spec_metrics_lines(t, name, ms.drop_last()) + spec_metric_lines(t, name, ms.last())
    }
}

/// A family's header: its help line, when the help text is non-empty,
/// then its type line.
pub open spec fn spec_family_header(f: MetricFamily) -> Seq<char> {
    (if f.help@.len() > 0 {
        "# HELP "@ + f.name@ + " "@ + spec_escape(f.help@, false) + "\n"@
    } else {
        Seq::<char>::empty()
    }) + "# TYPE "@ + f.name@ + " "@ + spec_type_name(f.field_type) + "\n"@
}

/// The kind's name as written on the type line.
pub open spec fn spec_type_name(t: MetricType) -> Seq<char> {
    match t {
        MetricType::COUNTER => "counter"@,
        MetricType::GAUGE => "gauge"@,
        MetricType::SUMMARY => "summary"@,
        MetricType::UNTYPED => "untyped"@,
        MetricType::HISTOGRAM => "histogram"@,
    }
}

/// Everything written for one family.
pub open spec fn spec_family_lines(f: MetricFamily) -> Seq<char> {
    spec_family_header(f) + spec_metrics_lines(f.field_type, f.name@, f.metric@)
}

/// Everything written for a list of families, in order.
pub open spec fn spec_encode(fs: Seq<MetricFamily>) -> Seq<char>
    decreases fs.len(),
{
    if fs.len() == 0 {
        Seq::empty()
    } else {
        spec_encode(fs.drop_last()) + spec_family_lines(fs.last())
    }
}

/// Whether a family can be written at all: it has a name and at least
/// one sample.
pub open spec fn family_ok(f: MetricFamily) -> bool {
    f.metric@.len() > 0 && f.name@.len() > 0
}

/// An encoder into a target format.
pub trait Encoder {
    /// Render the families into the target format.
    fn encode(&self, metric_families: &Vec<MetricFamily>) -> Result<String, Error>;

    /// The content type of the target format.
    fn format_type(&self) -> &'static str;
}

/// The encoder for the plain text exposition format.
#[derive(Debug, Default)]
pub struct TextEncoder;

impl TextEncoder {
    pub fn new() -> (r: TextEncoder) {
        TextEncoder
    }

    /// Render the families into the text format: per family a help line
    /// when help is set, a type line, and one line per sample — for a
    /// histogram its cumulative bucket lines, the unbounded bucket, the
    /// sum and the count. Fails when a family has no samples or no name.
    #[verifier::rlimit(60)]
    pub fn encode(&self, metric_families: &Vec<MetricFamily>) -> (r: Result<String, Error>)
        requires
            forall|i: int|
                0 <= i < metric_families@.len() ==> (#[trigger] metric_families@[i]).field_type
                    != MetricType::SUMMARY && metric_families@[i].field_type
                    != MetricType::UNTYPED,
        ensures
            r is Ok <==> (forall|i: int|
                0 <= i < metric_families@.len() ==> family_ok(#[trigger] metric_families@[i])),
            r matches Ok(s) ==> s@ == spec_encode(metric_families@),
            r matches Err(e) ==> e is Msg,
    {
        let mut out = String::new();
        let nf = metric_families.len();
        let mut fi: usize = 0;
        while fi < nf
            invariant
                0 <= fi <= nf,
                nf == metric_families@.len(),
                forall|i: int|
                    0 <= i < metric_families@.len() ==> (
                    #[trigger] metric_families@[i]).field_type != MetricType::SUMMARY
                        && metric_families@[i].field_type != MetricType::UNTYPED,
                forall|i: int| 0 <= i < fi ==> family_ok(#[trigger] metric_families@[i]),
                out@ == spec_encode(metric_families@.subrange(0, fi as int)),
            decreases nf - fi,
        {
            let mf = &metric_families[fi];
            if mf.get_metric().len() == 0 {
                return Err(Error::Msg(String::from_str("MetricFamily has no metrics")));
            }
            let name = mf.get_name();
            if name.is_empty() {
                return Err(Error::Msg(String::from_str("MetricFamily has no name")));
            }
            let help = mf.get_help();
            if !help.is_empty() {
                out.append("# HELP ");
                out.append(name);
                out.append(" ");
                let e = escape_string(help, false);
                out.append(e.as_str());
                out.append("\n");
            }
            out.append("# TYPE ");
            out.append(name);
            out.append(" ");
            out.append(mf.get_field_type().wire_name());
            out.append("\n");
            proof {
                assert(out@ =~= spec_encode(metric_families@.subrange(0, fi as int))
                    + spec_family_header(metric_families@[fi as int]));
            }
            let ghost base = out@;
            let mt = mf.get_field_type();
            let nm = mf.get_metric().len();
            let mut mi: usize = 0;
            while mi < nm
                invariant
                    0 <= mi <= nm,
                    nm == mf.metric@.len(),
                    mf == &metric_families@[fi as int],
                    0 <= fi < metric_families@.len(),
                    mt == mf.field_type,
                    mt != MetricType::SUMMARY,
                    mt != MetricType::UNTYPED,
                    name@ == mf.name@,
                    out@ == base + spec_metrics_lines(mt, mf.name@, mf.metric@.subrange(0, mi as int)),
                decreases nm - mi,
            {
                let m = &mf.get_metric()[mi];
                match mt {
                    MetricType::COUNTER => {
                        let v = if m.has_counter() {
                            m.get_counter().get_value()
                        } else {
                            0
                        };
                        let vt = i64_to_string(v);
                        let line = write_sample(name, m, "", "", vt.as_str());
                        out.append(line.as_str());
                    },
                    MetricType::GAUGE => {
                        let v = if m.has_gauge() {
                            m.get_gauge().get_value()
                        } else {
                            0
                        };
                        let vt = i64_to_string(v);
                        let line = write_sample(name, m, "", "", vt.as_str());
                        out.append(line.as_str());
                    },
                    MetricType::HISTOGRAM => {
                        let line = encode_histogram(name, m);
                        out.append(line.as_str());
                    },
                    _ => {
                        proof {
                            assert(false);
                        }
                    },
                }
                proof {
                    reveal_strlit("");
                    assert(""@ =~= Seq::<char>::empty());
                    let cur = mf.metric@.subrange(0, mi + 1 as int);
                    assert(cur.drop_last() =~= mf.metric@.subrange(0, mi as int));
                    assert(cur.last() == mf.metric@[mi as int]);
                    assert(out@ =~= base + spec_metrics_lines(mt, mf.name@, cur));
                }
                mi = mi + 1;
            }
            proof {
                assert(mf.metric@.subrange(0, mf.metric@.len() as int) =~= mf.metric@);
                let cur = metric_families@.subrange(0, fi + 1 as int);
                assert(cur.drop_last() =~= metric_families@.subrange(0, fi as int));
                assert(cur.last() == metric_families@[fi as int]);
                assert(out@ =~= spec_encode(cur));
            }
            fi = fi + 1;
        }
        proof {
            assert(metric_families@.subrange(0, metric_families@.len() as int)
                =~= metric_families@);
        }
        Ok(out)
    }

    pub fn format_type(&self) -> (r: &'static str)
        ensures
            r@ == "text/plain; version=0.0.4"@,
    {
        text_format()
    }
}

/// Write everything for one histogram sample.
#[verifier::rlimit(60)]
fn encode_histogram(name: &str, m: &Metric) -> (r: String)
    ensures
        r@ == spec_histogram_lines(name@, *m),
{
    let empty_h = crate::proto::Histogram::new();
    let h = if m.has_histogram() {
        m.get_histogram()
    } else {
        &empty_h
    };
    proof {
        assert(h.bucket@ == hist_buckets(*m));
        assert(h.sample_count as int == hist_count(*m));
        assert(h.sample_sum as int == hist_sum(*m));
    }
    let mut bucket_name = String::new();
    bucket_name.append(name);
    bucket_name.append("_bucket");
    let mut out = String::new();
    let nb = h.get_bucket().len();
    let mut bi: usize = 0;
    let mut seen_inf = false;
    while bi < nb
        invariant
            0 <= bi <= nb,
            nb == h.bucket@.len(),
            bucket_name@ == name@ + "_bucket"@,
            seen_inf == inf_seen(h.bucket@.subrange(0, bi as int)),
            out@ == bucket_lines(
                name@ + "_bucket"@,
                pairs_view(m.label@),
                h.bucket@.subrange(0, bi as int),
                m.timestamp_ms as int,
            ),
        decreases nb - bi,
    {
        let b = h.get_bucket()[bi];
        let ub = b.get_upper_bound();
        let lt: String = if ub == i64::MAX {
            String::from_str("+Inf")
        } else {
            i64_to_string(ub)
        };
        let ct = u64_to_string(b.get_cumulative_count());
        let line = write_sample(bucket_name.as_str(), m, "le", lt.as_str(), ct.as_str());
        out.append(line.as_str());
        if ub == i64::MAX {
            seen_inf = true;
        }
        proof {
            let cur = h.bucket@.subrange(0, bi + 1 as int);
            assert(cur.drop_last() =~= h.bucket@.subrange(0, bi as int));
            assert(cur.last() == h.bucket@[bi as int]);
            assert(out@ =~= bucket_lines(
                name@ + "_bucket"@,
                pairs_view(m.label@),
                cur,
                m.timestamp_ms as int,
            ));
            if h.bucket@[bi as int].upper_bound == i64::MAX {
                assert(inf_seen(cur));
            } else {
                assert(inf_seen(cur) == inf_seen(h.bucket@.subrange(0, bi as int))) by {
                    if inf_seen(cur) {
                        let x = choose|x: int|
                            0 <= x < cur.len() && (#[trigger] cur[x]).upper_bound == i64::MAX;
                        assert(x < bi as int);
                        assert(h.bucket@.subrange(0, bi as int)[x].upper_bound == i64::MAX);
                    } else if inf_seen(h.bucket@.subrange(0, bi as int)) {
                        let x = choose|x: int|
                            0 <= x < bi && (#[trigger] h.bucket@.subrange(0, bi as int)[x]).upper_bound
                                == i64::MAX;
                        assert(cur[x].upper_bound == i64::MAX);
                    }
                }
            }
        }
        bi = bi + 1;
    }
    proof {
        assert(h.bucket@.subrange(0, h.bucket@.len() as int) =~= h.bucket@);
    }
    let ghost pairs = pairs_view(m.label@);
    let ghost ts = m.timestamp_ms as int;
    let ghost bpart = bucket_lines(name@ + "_bucket"@, pairs, h.bucket@, ts);
    proof {
        assert(out@ =~= bpart);
    }
    let count_text = u64_to_string(h.get_sample_count());
    if !seen_inf {
        let line = write_sample(bucket_name.as_str(), m, "le", "+Inf", count_text.as_str());
        out.append(line.as_str());
    }
    let ghost ipart = if inf_seen(h.bucket@) {
        Seq::<char>::empty()
    } else {
        spec_sample(name@ + "_bucket"@, pairs, "le"@, "+Inf"@, dec_digits(hist_count(*m) as nat), ts)
    };
    proof {
        assert(out@ =~= bpart + ipart);
    }
    let mut sum_name = String::new();
    sum_name.append(name);
    sum_name.append("_sum");
    let sum_text = i64_to_string(h.get_sample_sum());
    let line = write_sample(sum_name.as_str(), m, "", "", sum_text.as_str());
    out.append(line.as_str());
    let ghost spart = spec_sample(
        name@ + "_sum"@,
        pairs,
        Seq::<char>::empty(),
        Seq::<char>::empty(),
        dec_digits_signed(hist_sum(*m)),
        ts,
    );
    proof {
        reveal_strlit("");
        assert(""@ =~= Seq::<char>::empty());
        assert(sum_name@ =~= name@ + "_sum"@);
        assert(out@ =~= bpart + ipart + spart);
    }
    let mut count_name = String::new();
    count_name.append(name);
    count_name.append("_count");
    let line = write_sample(count_name.as_str(), m, "", "", count_text.as_str());
    out.append(line.as_str());
    proof {
        reveal_strlit("");
        assert(""@ =~= Seq::<char>::empty());
        assert(count_name@ =~= name@ + "_count"@);
        let ghost cpart = spec_sample(
            name@ + "_count"@,
            pairs,
            Seq::<char>::empty(),
            Seq::<char>::empty(),
            dec_digits(hist_count(*m) as nat),
            ts,
        );
        assert(out@ =~= bpart + ipart + spart + cpart);
        assert(out@ =~= spec_histogram_lines(name@, *m));
    }
    out
}

impl Encoder for TextEncoder {
    fn encode(&self, metric_families: &Vec<MetricFamily>) -> Result<String, Error> {
        let mut ok = true;
        let mut i: usize = 0;
        while i < metric_families.len()
            invariant
                0 <= i <= metric_families@.len(),
                ok ==> forall|j: int|
                    0 <= j < i ==> (#[trigger] metric_families@[j]).field_type
                        != MetricType::SUMMARY && metric_families@[j].field_type
                        != MetricType::UNTYPED,
            decreases metric_families@.len() - i,
        {
            let t = metric_families[i].get_field_type();
            if matches!(t, MetricType::SUMMARY) || matches!(t, MetricType::UNTYPED) {
                ok = false;
            }
            i = i + 1;
        }
        if !ok {
            return Err(Error::Msg(String::from_str("unsupported metric family kind")));
        }
        TextEncoder::encode(self, metric_families)
    }

    fn format_type(&self) -> &'static str {
        TextEncoder::format_type(self)
    }
}

} // verus!
