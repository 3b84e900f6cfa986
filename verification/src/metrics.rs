//! cloudflared's Prometheus metrics: the text is split into samples here;
//! reading each sample's value as a floating-point number happens outside
//! the library, which then totals the samples the host cares about.
use vstd::prelude::*;
use crate::text::{
    to_chars, owned, split_on, split_chars, string_of_chars, string_of_range, chars_eq, is_ws,
    is_whitespace, find_seq, occurs_at, str_eq,
};
use crate::processes::{first_at, lemma_first_at, TunnelMetricsResponse};
use crate::paths::views;

verus! {

/// `s` without one trailing `\r`.
pub open spec fn strip_cr(s: Seq<char>) -> Seq<char> {
    if s.len() > 0 && s.last() == '\r' {
        s.drop_last()
    } else {
        s
    }
}

/// `str::lines`: the parts between `\n`s, each without a trailing `\r`
/// when a `\n` follows it; a last empty part is no line.
pub open spec fn lines_spec(s: Seq<char>) -> Seq<Seq<char>> {
    let parts = split_on(s, '\n');
    let head = Seq::new((parts.len() - 1) as nat, |i: int| strip_cr(parts[i]));
    if parts.last().len() > 0 {
        head.push(parts.last())
    } else {
        head
    }
}

fn strip_cr_chars(v: &Vec<char>) -> (r: String)
    ensures
        r@ == strip_cr(v@),
{
    if v.len() > 0 && v[v.len() - 1] == '\r' {
        assert(v@.subrange(0, v.len() - 1) == v@.drop_last());
        string_of_range(v, 0, v.len() - 1)
    } else {
        string_of_chars(v)
    }
}

/// The lines of `body`.
pub fn text_lines(body: &str) -> (r: Vec<String>)
    ensures
        views(r@) == lines_spec(body@),
{
    let v = to_chars(body);
    let parts = split_chars(&v, '\n');
    let ghost sp = split_on(v@, '\n');
    let mut out: Vec<String> = Vec::new();
    let mut i: usize = 0;
    while i + 1 < parts.len()
        invariant
            sp == split_on(v@, '\n'),
            parts@.len() == sp.len(),
            forall|j: int| 0 <= j < parts@.len() ==> #[trigger] parts@[j]@ == sp[j],
            i < parts.len(),
            views(out@) == Seq::new(i as nat, |j: int| strip_cr(sp[j])),
        decreases parts.len() - i,
    {
        let ghost before = views(out@);
        let line = strip_cr_chars(&parts[i]);
        assert(line@ == strip_cr(sp[i as int]));
        out.push(line);
        assert(views(out@) =~= before.push(strip_cr(sp[i as int])));
        assert(views(out@) =~= Seq::new((i + 1) as nat, |j: int| strip_cr(sp[j])));
        i = i + 1;
    }
    let last = &parts[parts.len() - 1];
    if last.len() > 0 {
        let ghost before = views(out@);
        let l = string_of_chars(last);
        out.push(l);
        assert(views(out@) =~= before.push(sp.last()));
        assert(views(out@) =~= lines_spec(body@));
    } else {
        assert(views(out@) =~= lines_spec(body@));
    }
    out
}

/// The position of the last whitespace character of `s`.
pub open spec fn last_ws(s: Seq<char>) -> Option<int>
    decreases s.len(),
{
    if s.len() == 0 {
        None
    } else if is_ws(s.last()) {
        Some(s.len() - 1)
    } else {
        last_ws(s.drop_last())
    }
}

proof fn lemma_last_ws(s: Seq<char>)
    ensures
        last_ws(s) matches Some(i) ==> 0 <= i < s.len() && is_ws(s[i]) && forall|j: int|
            i < j < s.len() ==> !is_ws(#[trigger] s[j]),
        last_ws(s) is None ==> forall|j: int| 0 <= j < s.len() ==> !is_ws(#[trigger] s[j]),
    decreases s.len(),
{
    if s.len() > 0 {
        let t = s.drop_last();
        lemma_last_ws(t);
        assert forall|j: int| 0 <= j < t.len() implies t[j] == s[j] by {}
    }
}

/// A sample line of the metrics text: not a `#` comment, split at its last
/// whitespace character into the series and the value text.
pub open spec fn metric_line_spec(line: Seq<char>) -> Option<(Seq<char>, Seq<char>)> {
    if line.len() > 0 && line[0] == '#' {
        None
    } else {
        match last_ws(line) {
            Some(j) => Some((line.subrange(0, j), line.subrange(j + 1, line.len() as int))),
            None => None,
        }
    }
}

/// The sample lines among `ls`, split.
pub open spec fn sample_lines(ls: Seq<Seq<char>>) -> Seq<(Seq<char>, Seq<char>)>
    decreases ls.len(),
{
    if ls.len() == 0 {
        Seq::empty()
    } else {
        let prev = sample_lines(ls.drop_last());
        match metric_line_spec(ls.last()) {
            Some(p) => prev.push(p),
            None => prev,
        }
    }
}

/// A sample line: the series (name and labels) and the value text.
pub struct MetricLine {
    pub series: String,
    pub raw_value: String,
}

/// The plain values of metric lines.
pub open spec fn line_views(v: Seq<MetricLine>) -> Seq<(Seq<char>, Seq<char>)> {
    Seq::new(v.len(), |i: int| (v[i].series@, v[i].raw_value@))
}

fn split_metric_line(line: &str) -> (r: Option<MetricLine>)
    ensures
        match metric_line_spec(line@) {
            Some(p) => r matches Some(m) && (m.series@, m.raw_value@) == p,
            None => r is None,
        },
{
    let v = to_chars(line);
    if v.len() > 0 && v[0] == '#' {
        return None;
    }
    let mut j: usize = v.len();
    while j > 0 && !is_whitespace(v[j - 1])
        invariant
            j <= v.len(),
            forall|k: int| j <= k < v.len() ==> !is_ws(#[trigger] v@[k]),
        decreases j,
    {
        j = j - 1;
    }
    proof {
        lemma_last_ws(v@);
        match last_ws(v@) {
            Some(d) => {
                if d + 1 < j {
                    assert(is_ws(v@[j - 1]));
                }
                if d + 1 > j {
                    assert(!is_ws(v@[d]));
                }
            },
            None => {
                if j > 0 {
                    assert(is_ws(v@[j - 1]));
                }
            },
        }
    }
    if j == 0 {
        return None;
    }
    Some(MetricLine { series: string_of_range(&v, 0, j - 1), raw_value: string_of_range(&v, j, v.len()) })
}

/// The sample lines of a metrics text, in order.
pub fn metric_lines(body: &str) -> (r: Vec<MetricLine>)
    ensures
        line_views(r@) == sample_lines(lines_spec(body@)),
{
    let lines = text_lines(body);
    let ghost ls = lines_spec(body@);
    let mut out: Vec<MetricLine> = Vec::new();
    let mut i: usize = 0;
    while i < lines.len()
        invariant
            ls == views(lines@),
            i <= lines.len(),
            line_views(out@) == sample_lines(ls.take(i as int)),
        decreases lines.len() - i,
    {
        proof {
            let t = ls.take(i + 1);
            assert(t.drop_last() == ls.take(i as int));
            assert(t.last() == lines@[i as int]@);
        }
        match split_metric_line(lines[i].as_str()) {
            Some(m) => {
                let ghost before = line_views(out@);
                out.push(m);
                assert(line_views(out@) =~= before.push((out@.last().series@, out@.last().raw_value@)));
            },
            None => {},
        }
        i = i + 1;
    }
    assert(ls.take(ls.len() as int) == ls);
    out
}

/// A sample line as read: whether its value text is a number at all, and if
/// so whether it is a count (finite, whole, at least 0 and at most
/// `u64::MAX`, then that count), whether it is above 0, and how the number
/// is written.
pub struct MetricSample {
    pub series: String,
    pub parsed: bool,
    pub count: Option<u64>,
    pub positive: bool,
    pub value_text: String,
}

/// `MetricSample` as plain values.
pub struct SampleView {
    pub series: Seq<char>,
    pub parsed: bool,
    pub count: Option<u64>,
    pub positive: bool,
    pub value_text: Seq<char>,
}

/// The plain value of a sample.
pub open spec fn sample_view(s: MetricSample) -> SampleView {
    SampleView {
        series: s.series@,
        parsed: s.parsed,
        count: s.count,
        positive: s.positive,
        value_text: s.value_text@,
    }
}

/// The plain values of samples.
pub open spec fn sample_views(v: Seq<MetricSample>) -> Seq<SampleView> {
    Seq::new(v.len(), |i: int| sample_view(v[i]))
}

/// The metric name of a series: what precedes its first `{`.
pub open spec fn metric_name(series: Seq<char>) -> Seq<char> {
    match first_at(series, seq!['{']) {
        Some(b) => series.subrange(0, b),
        None => series,
    }
}

/// `s` without leading and trailing `"`s.
pub open spec fn trim_quotes(s: Seq<char>) -> Seq<char>
    decreases s.len(),
{
    if s.len() > 0 && s[0] == '"' {
        trim_quotes(s.drop_first())
    } else if s.len() > 0 && s.last() == '"' {
        trim_quotes(s.drop_last())
    } else {
        s
    }
}

/// The value of the first `name=value` entry named `label`.
pub open spec fn entry_value(entries: Seq<Seq<char>>, label: Seq<char>) -> Option<Seq<char>>
    decreases entries.len(),
{
    if entries.len() == 0 {
        None
    } else {
        match entry_hit(entries[0], label) {
            Some(v) => Some(v),
            None => entry_value(entries.drop_first(), label),
        }
    }
}

/// The value of entry `e` when it is `label=value`.
pub open spec fn entry_hit(e: Seq<char>, label: Seq<char>) -> Option<Seq<char>> {
    match first_at(e, seq!['=']) {
        Some(k) => if e.subrange(0, k) == label {
            Some(trim_quotes(e.subrange(k + 1, e.len() as int)))
        } else {
            None
        },
        None => None,
    }
}

fn entry_match(e: &Vec<char>, label: &Vec<char>) -> (r: Option<String>)
    ensures
        crate::urls::opt_view(r) == entry_hit(e@, label@),
{
    let mut eq: Vec<char> = Vec::new();
    eq.push('=');
    assert(eq@ =~= seq!['=']);
    match find_seq(e, &eq) {
        Some(at) => {
            proof {
                lemma_first_at(e@, eq@, at as int);
            }
            assert(occurs_at(e@, eq@, at as int));
            assert(eq@.len() == 1);
            assert(at + 1 <= e.len());
            let name = string_of_range(e, 0, at);
            if chars_eq(&to_chars(name.as_str()), label) {
                Some(trim_quote_chars(e, at + 1, e.len()))
            } else {
                None
            }
        },
        None => None,
    }
}

/// `label_value`: the labels of a series are what follows its first `{`
/// and ends with `}`; the value of the first of those comma-separated
/// entries named `label`, without quotes.
pub open spec fn label_value_spec(series: Seq<char>, label: Seq<char>) -> Option<Seq<char>> {
    match first_at(series, seq!['{']) {
        Some(b) => {
            let rest = series.subrange(b + 1, series.len() as int);
            if rest.len() > 0 && rest.last() == '}' {
                entry_value(split_on(rest.drop_last(), ','), label)
            } else {
                None
            }
        },
        None => None,
    }
}

fn trim_quote_chars(v: &Vec<char>, lo: usize, hi: usize) -> (r: String)
    requires
        lo <= hi <= v.len(),
    ensures
        r@ == trim_quotes(v@.subrange(lo as int, hi as int)),
    decreases hi - lo,
{
    if lo < hi && v[lo] == '"' {
        assert(v@.subrange(lo as int, hi as int).drop_first() == v@.subrange(lo + 1, hi as int));
        trim_quote_chars(v, lo + 1, hi)
    } else if lo < hi && v[hi - 1] == '"' {
        assert(v@.subrange(lo as int, hi as int).drop_last() == v@.subrange(lo as int, hi - 1));
        trim_quote_chars(v, lo, hi - 1)
    } else {
        string_of_range(v, lo, hi)
    }
}

/// The value of label `label` in a series, if it has one.
pub fn label_value(series: &str, label: &str) -> (r: Option<String>)
    ensures
        crate::urls::opt_view(r) == label_value_spec(series@, label@),
{
    let v = to_chars(series);
    let mut brace: Vec<char> = Vec::new();
    brace.push('{');
    assert(brace@ =~= seq!['{']);
    let b = match find_seq(&v, &brace) {
        Some(b) => {
            proof {
                lemma_first_at(v@, brace@, b as int);
            }
            b
        },
        None => {
            return None;
        },
    };
    assert(occurs_at(v@, brace@, b as int));
    assert(brace@.len() == 1);
    assert(b < v.len());
    if b + 1 >= v.len() || v[v.len() - 1] != '}' {
        return None;
    }
    let ghost rest = v@.subrange(b + 1, v@.len() as int);
    let mut inner: Vec<char> = Vec::new();
    let mut i: usize = b + 1;
    while i + 1 < v.len()
        invariant
            b + 1 <= i < v.len(),
            inner@ == v@.subrange(b + 1, i as int),
        decreases v.len() - i,
    {
        inner.push(v[i]);
        assert(v@.subrange(b + 1, i + 1) == v@.subrange(b + 1, i as int).push(v@[i as int]));
        i = i + 1;
    }
    assert(inner@ == rest.drop_last());
    let entries = split_chars(&inner, ',');
    let ghost es = split_on(inner@, ',');
    assert(label_value_spec(series@, label@) == entry_value(es, label@));
    let label_chars = to_chars(label);
    let mut k: usize = 0;
    assert(es.subrange(0, es.len() as int) == es);
    while k < entries.len()
        invariant
            es == split_on(inner@, ','),
            entries@.len() == es.len(),
            forall|j: int| 0 <= j < entries@.len() ==> #[trigger] entries@[j]@ == es[j],
            label_chars@ == label@,
            k <= entries.len(),
            entry_value(es, label@) == entry_value(es.subrange(k as int, es.len() as int), label@),
            label_value_spec(series@, label@) == entry_value(es, label@),
        decreases entries.len() - k,
    {
        let ghost sub = es.subrange(k as int, es.len() as int);
        assert(sub[0] == entries@[k as int]@);
        assert(sub.drop_first() == es.subrange(k + 1, es.len() as int));
        match entry_match(&entries[k], &label_chars) {
            Some(found) => {
                assert(entry_hit(sub[0], label@) == Some(found@));
                assert(entry_value(sub, label@) == Some(found@));
                return Some(found);
            },
            None => {},
        }
        k = k + 1;
    }
    None
}

/// What the host keeps of the samples read so far.
pub struct Tally {
    pub ha_connections: Option<u64>,
    pub register_successes: int,
    pub request_errors: Option<u64>,
    pub edge_location: Option<Seq<char>>,
}

/// The message for a sample whose value is no count.
pub open spec fn invalid_value(name: Seq<char>, text: Seq<char>) -> Seq<char> {
    "Invalid value for "@ + name + ": "@ + text
}

/// One sample: a value that is no number is passed over; the HA
/// connections and request errors are the latest values, register successes
/// add up, and a server location above 0 gives the edge location; a value
/// that is no count where a count is needed stops the reading.
#[verifier::opaque]
pub open spec fn tally_step(t: Tally, s: SampleView) -> Result<Tally, Seq<char>> {
    let name = metric_name(s.series);
    if !s.parsed {
        Ok(t)
    } else if name == "cloudflared_tunnel_ha_connections"@ {
        match s.count {
            Some(n) => Ok(Tally { ha_connections: Some(n), ..t }),
            None => Err(invalid_value(name, s.value_text)),
        }
    } else if name == "cloudflared_tunnel_tunnel_register_success"@ {
        match s.count {
            Some(n) => Ok(Tally { register_successes: t.register_successes + n, ..t }),
            None => Err(invalid_value(name, s.value_text)),
        }
    } else if name == "cloudflared_tunnel_request_errors"@ {
        match s.count {
            Some(n) => Ok(Tally { request_errors: Some(n), ..t }),
            None => Err(invalid_value(name, s.value_text)),
        }
    } else if name == "cloudflared_tunnel_server_locations"@ && s.positive {
        Ok(Tally { edge_location: label_value_spec(s.series, "edge_location"@), ..t })
    } else {
        Ok(t)
    }
}

/// The samples read in order, from nothing read.
pub open spec fn tally(ss: Seq<SampleView>) -> Result<Tally, Seq<char>>
    decreases ss.len(),
{
    if ss.len() == 0 {
        Ok(
            Tally {
                ha_connections: None,
                register_successes: 0,
                request_errors: None,
                edge_location: None,
            },
        )
    } else {
        match tally(ss.drop_last()) {
            Err(e) => Err(e),
            Ok(t) => tally_step(t, ss.last()),
        }
    }
}

/// `TunnelMetricsResponse` as plain values.
pub struct TunnelMetricsView {
    pub ha_connections: u64,
    pub register_successes: u64,
    pub request_errors: u64,
    pub edge_location: Option<Seq<char>>,
}

/// The host's tunnel metrics from the samples: the totals, or the
/// first invalid value, or a missing HA-connections or request-errors
/// metric.
pub open spec fn summary_spec(ss: Seq<SampleView>) -> Result<TunnelMetricsView, Seq<char>> {
    match tally(ss) {
        Err(e) => Err(e),
        Ok(t) => if t.ha_connections is None {
            Err("cloudflared_tunnel_ha_connections metric is missing"@)
        } else if t.request_errors is None {
            Err("cloudflared_tunnel_request_errors metric is missing"@)
        } else {
            Ok(
                TunnelMetricsView {
                    ha_connections: t.ha_connections.unwrap(),
                    register_successes: t.register_successes as u64,
                    request_errors: t.request_errors.unwrap(),
                    edge_location: t.edge_location,
                },
            )
        },
    }
}

/// The plain value of a metrics result.
pub open spec fn metrics_result_view(r: Result<TunnelMetricsResponse, String>) -> Result<
    TunnelMetricsView,
    Seq<char>,
> {
    match r {
        Ok(m) => Ok(
            TunnelMetricsView {
                ha_connections: m.ha_connections,
                register_successes: m.register_successes,
                request_errors: m.request_errors,
                edge_location: crate::urls::opt_view(m.edge_location),
            },
        ),
        Err(e) => Err(e@),
    }
}

/// The register successes never pass `u64::MAX` while the samples are read.
#[verifier::opaque]
pub open spec fn register_total_fits(ss: Seq<SampleView>) -> bool {
    forall|k: int|
        0 <= k <= ss.len() ==> (#[trigger] tally(ss.take(k)) matches Ok(t) ==> t.register_successes
            <= u64::MAX)
}

fn series_name(series: &str) -> (r: String)
    ensures
        r@ == metric_name(series@),
{
    let v = to_chars(series);
    let mut brace: Vec<char> = Vec::new();
    brace.push('{');
    assert(brace@ =~= seq!['{']);
    match find_seq(&v, &brace) {
        Some(b) => {
            proof {
                lemma_first_at(v@, brace@, b as int);
            }
            assert(occurs_at(v@, brace@, b as int));
            string_of_range(&v, 0, b)
        },
        None => string_of_chars(&v),
    }
}

fn invalid_value_message(name: &str, text: &str) -> (r: String)
    ensures
        r@ == invalid_value(name@, text@),
{
    let mut m = String::from_str("Invalid value for ");
    m.append(name);
    m.append(": ");
    m.append(text);
    m
}

/// The tally as the loop holds it.
struct TallyState {
    ha: Option<u64>,
    reg: u64,
    req: Option<u64>,
    edge: Option<String>,
}

spec fn state_view(st: TallyState) -> Tally {
    Tally {
        ha_connections: st.ha,
        register_successes: st.reg as int,
        request_errors: st.req,
        edge_location: crate::urls::opt_view(st.edge),
    }
}

fn tally_sample(st: TallyState, s: &MetricSample) -> (r: Result<TallyState, String>)
    requires
        tally_step(state_view(st), sample_view(*s)) matches Ok(t) ==> t.register_successes
            <= u64::MAX,
    ensures
        match tally_step(state_view(st), sample_view(*s)) {
            Ok(t) => r matches Ok(n) && state_view(n) == t,
            Err(e) => r matches Err(m) && m@ == e,
        },
{
    proof {
        reveal(tally_step);
    }
    if !s.parsed {
        return Ok(st);
    }
    let name = series_name(s.series.as_str());
    if str_eq(name.as_str(), "cloudflared_tunnel_ha_connections") {
        match s.count {
            Some(n) => Ok(TallyState { ha: Some(n), ..st }),
            None => Err(invalid_value_message(name.as_str(), s.value_text.as_str())),
        }
    } else if str_eq(name.as_str(), "cloudflared_tunnel_tunnel_register_success") {
        match s.count {
            Some(n) => Ok(TallyState { reg: st.reg + n, ..st }),
            None => Err(invalid_value_message(name.as_str(), s.value_text.as_str())),
        }
    } else if str_eq(name.as_str(), "cloudflared_tunnel_request_errors") {
        match s.count {
            Some(n) => Ok(TallyState { req: Some(n), ..st }),
            None => Err(invalid_value_message(name.as_str(), s.value_text.as_str())),
        }
    } else if str_eq(name.as_str(), "cloudflared_tunnel_server_locations") && s.positive {
        let edge = label_value(s.series.as_str(), "edge_location");
        Ok(TallyState { edge, ..st })
    } else {
        Ok(st)
    }
}

/// Whether adding `s` to the tally takes the register successes past
/// `u64::MAX`.
fn step_overflows(st: &TallyState, s: &MetricSample) -> (r: bool)
    ensures
        r == (tally_step(state_view(*st), sample_view(*s)) matches Ok(t) && t.register_successes
            > u64::MAX),
{
    proof {
        reveal(tally_step);
    }
    if !s.parsed {
        return false;
    }
    let name = series_name(s.series.as_str());
    if str_eq(name.as_str(), "cloudflared_tunnel_ha_connections") {
        false
    } else if str_eq(name.as_str(), "cloudflared_tunnel_tunnel_register_success") {
        match s.count {
            Some(n) => st.reg.checked_add(n).is_none(),
            None => false,
        }
    } else {
        false
    }
}

/// Whether the register successes of `samples` stay within `u64::MAX`
/// while they are read, as `summarize_tunnel_metrics` needs.
pub fn register_total_within_limit(samples: &Vec<MetricSample>) -> (r: bool)
    ensures
        r == register_total_fits(sample_views(samples@)),
{
    let ghost ss = sample_views(samples@);
    let mut st = TallyState { ha: None, reg: 0, req: None, edge: None };
    let mut i: usize = 0;
    assert(ss.take(0) =~= Seq::<SampleView>::empty());
    while i < samples.len()
        invariant
            ss == sample_views(samples@),
            i <= samples.len(),
            tally(ss.take(i as int)) == Ok::<Tally, Seq<char>>(state_view(st)),
            forall|k: int|
                0 <= k <= i ==> (#[trigger] tally(ss.take(k)) matches Ok(t) ==> t.register_successes
                    <= u64::MAX),
        decreases samples.len() - i,
    {
        proof {
            lemma_tally_next(ss, i as int);
            assert(ss[i as int] == sample_view(samples@[i as int]));
        }
        if step_overflows(&st, &samples[i]) {
            proof {
                reveal(register_total_fits);
                assert(0 <= i + 1 <= ss.len());
                assert(tally(ss.take(i + 1)) matches Ok(t) && t.register_successes > u64::MAX);
            }
            return false;
        }
        match tally_sample(st, &samples[i]) {
            Ok(n) => {
                st = n;
            },
            Err(m) => {
                proof {
                    reveal(register_total_fits);
                    assert forall|k: int|
                        0 <= k <= ss.len() implies (#[trigger] tally(ss.take(k)) matches Ok(t)
                        ==> t.register_successes <= u64::MAX) by {
                        if k > i {
                            lemma_tally_err_stays(ss, i + 1, k);
                        }
                    }
                }
                return true;
            },
        }
        i = i + 1;
    }
    proof {
        reveal(register_total_fits);
    }
    true
}

/// The host's tunnel metrics from the samples of a scrape.
pub fn summarize_tunnel_metrics(samples: &Vec<MetricSample>) -> (r: Result<TunnelMetricsResponse, String>)
    requires
        register_total_fits(sample_views(samples@)),
    ensures
        metrics_result_view(r) == summary_spec(sample_views(samples@)),
{
    let ghost ss = sample_views(samples@);
    let mut st = TallyState { ha: None, reg: 0, req: None, edge: None };
    let mut i: usize = 0;
    assert(ss.take(0) =~= Seq::<SampleView>::empty());
    while i < samples.len()
        invariant
            ss == sample_views(samples@),
            register_total_fits(ss),
            i <= samples.len(),
            tally(ss.take(i as int)) == Ok::<Tally, Seq<char>>(state_view(st)),
        decreases samples.len() - i,
    {
        proof {
            lemma_tally_next(ss, i as int);
            lemma_total_fits(ss, i + 1);
            assert(ss[i as int] == sample_view(samples@[i as int]));
        }
        match tally_sample(st, &samples[i]) {
            Ok(n) => {
                st = n;
            },
            Err(m) => {
                proof {
                    lemma_tally_stops(ss, i as int);
                }
                return Err(m);
            },
        }
        i = i + 1;
    }
    assert(ss.take(ss.len() as int) == ss);
    let ha_connections = match st.ha {
        Some(n) => n,
        None => {
            return Err(String::from_str("cloudflared_tunnel_ha_connections metric is missing"));
        },
    };
    let request_errors = match st.req {
        Some(n) => n,
        None => {
            return Err(String::from_str("cloudflared_tunnel_request_errors metric is missing"));
        },
    };
    Ok(
        TunnelMetricsResponse {
            ha_connections,
            register_successes: st.reg,
            request_errors,
            edge_location: st.edge,
        },
    )
}

proof fn lemma_tally_next(ss: Seq<SampleView>, i: int)
    requires
        0 <= i < ss.len(),
    ensures
        tally(ss.take(i + 1)) == (match tally(ss.take(i)) {
            Err(e) => Err(e),
            Ok(t) => tally_step(t, ss[i]),
        }),
{
    let t = ss.take(i + 1);
    assert(t.drop_last() == ss.take(i));
    assert(t.last() == ss[i]);
}

proof fn lemma_total_fits(ss: Seq<SampleView>, k: int)
    requires
        register_total_fits(ss),
        0 <= k <= ss.len(),
    ensures
        tally(ss.take(k)) matches Ok(t) ==> t.register_successes <= u64::MAX,
{
    reveal(register_total_fits);
}

proof fn lemma_tally_err_stays(ss: Seq<SampleView>, j: int, k: int)
    requires
        1 <= j <= k <= ss.len(),
        tally(ss.take(j)) is Err,
    ensures
        tally(ss.take(k)) is Err,
{
    let p = ss.take(k);
    assert(p.take(j) == ss.take(j));
    lemma_tally_stops_from(p, j);
}

/// Once reading stops at a sample, the whole tally stops with its error.
proof fn lemma_tally_stops(ss: Seq<SampleView>, i: int)
    requires
        0 <= i < ss.len(),
        tally(ss.take(i + 1)) is Err,
    ensures
        tally(ss) == tally(ss.take(i + 1)),
    decreases ss.len() - i,
{
    if i + 1 < ss.len() {
        lemma_tally_stops_from(ss, i + 1);
    } else {
        assert(ss.take(i + 1) == ss);
    }
}

proof fn lemma_tally_stops_from(ss: Seq<SampleView>, k: int)
    requires
        1 <= k <= ss.len(),
        tally(ss.take(k)) is Err,
    ensures
        tally(ss) == tally(ss.take(k)),
    decreases ss.len() - k,
{
    if k < ss.len() {
        let t = ss.take(k + 1);
        assert(t.drop_last() == ss.take(k));
        lemma_tally_stops_from(ss, k + 1);
    } else {
        assert(ss.take(k) == ss);
    }
}

} // verus!
