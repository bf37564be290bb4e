//! The command line tool: its commands, and the requests they make of a broker's
//! Sparkplug B service.
use vstd::prelude::*;
use vstd::string::StrSliceExecFns;
use vstd::string::StringExecFns;

use crate::topic::chars_of;

verus! {

/// The command line: the broker's base URL and a command.
pub struct Cli {
    pub host: String,
    pub command: Commands,
}

/// The commands of the tool.
pub enum Commands {
    /// access Sparkplug B data
    Spb(Spb),
}

/// A Sparkplug B command.
pub struct Spb {
    pub command: SpbCommands,
}

/// Reading or setting Sparkplug B resources.
pub enum SpbCommands {
    Get(Get),
    SetMetrics(SetArgs),
}

/// Reading a resource.
pub struct Get {
    pub resource: GetResource,
}

/// The resources that can be read.
pub enum GetResource {
    Groups,
    Group { group_id: String },
    Nodes { group_id: String },
    Node { group_id: String, node_id: String },
    Devices { group_id: String, node_id: String },
    Device { group_id: String, node_id: String, device_id: String },
}

/// Setting metrics.
pub struct SetArgs {
    pub resource: SetResource,
}

/// The resources whose metrics can be set, with the metrics as `key=value`.
pub enum SetResource {
    Node { group_id: String, node_id: String, metrics: Vec<String> },
    Device { group_id: String, node_id: String, device_id: String, metrics: Vec<String> },
}

/// The value of a metric: a string, or the JSON value that the text spells.
pub enum MetricValue {
    Text(String),
    Json(String),
}

/// A metric to set.
pub struct Metric {
    pub name: String,
    pub value: MetricValue,
}

/// The HTTP method of a request.
pub enum Method {
    Get,
    Put,
}

/// A request to the broker: a GET of a resource, or a PUT of metrics.
pub struct SpbRequest {
    pub method: Method,
    pub url: String,
    pub metrics: Vec<Metric>,
}

/// What the tool refuses.
pub enum CliError {
    /// a metric that is not `key=value`
    InvalidMetric(String),
}

/// A metric value as plain values.
pub enum MetricValueView {
    Text(Seq<char>),
    Json(Seq<char>),
}

impl View for Metric {
    type V = (Seq<char>, MetricValueView);

    open spec fn view(&self) -> (Seq<char>, MetricValueView) {
        (
            self.name@,
            match self.value {
                MetricValue::Text(s) => MetricValueView::Text(s@),
                MetricValue::Json(s) => MetricValueView::Json(s@),
            },
        )
    }
}

/// The views of a list of metrics.
pub open spec fn metric_views(v: Seq<Metric>) -> Seq<(Seq<char>, MetricValueView)> {
    v.map_values(|m: Metric| m@)
}

/// Whether `s` is exactly one JSON value, as serde_json reads it.
pub uninterp spec fn json_parses(s: Seq<char>) -> bool;

/// Calls serde_json's `from_str` for a `serde_json::Value` and says whether it
/// succeeded, that is whether `s` is one JSON value.
#[verifier::external_body]
fn parses_as_json(s: &str) -> (r: bool)
    ensures
        r == json_parses(s@),
{
    serde_json::from_str::<serde_json::Value>(s).is_ok()
}

/// Where the first '=' of `s` is, if it has one.
pub open spec fn eq_index(s: Seq<char>) -> Option<int>
    decreases s.len(),
{
    if s.len() == 0 {
        None
    } else if s[0] == '=' {
        Some(0)
    } else {
        match eq_index(s.drop_first()) {
            Some(i) => Some(i + 1),
            None => None,
        }
    }
}

/// `s` without the '"' characters it starts with.
pub open spec fn trim_leading_quotes(s: Seq<char>) -> Seq<char>
    decreases s.len(),
{
    if s.len() > 0 && s[0] == '"' {
        trim_leading_quotes(s.drop_first())
    } else {
        s
    }
}

/// `s` without the '"' characters it ends with.
pub open spec fn trim_trailing_quotes(s: Seq<char>) -> Seq<char>
    decreases s.len(),
{
    if s.len() > 0 && s.last() == '"' {
        trim_trailing_quotes(s.drop_last())
    } else {
        s
    }
}

/// What the text after the '=' of a metric stands for: text between quotes (the
/// quotes at both ends taken off), a JSON value, or else the text itself.
pub open spec fn metric_value(v: Seq<char>) -> MetricValueView {
    if v.len() > 0 && v[0] == '"' && v.last() == '"' {
        MetricValueView::Text(trim_trailing_quotes(trim_leading_quotes(v)))
    } else if json_parses(v) {
        MetricValueView::Json(v)
    } else {
        MetricValueView::Text(v)
    }
}

/// The metric that `m` spells, if it has an '=': the name before the first '=',
/// the value after it.
pub open spec fn metric_of(m: Seq<char>) -> Option<(Seq<char>, MetricValueView)> {
    match eq_index(m) {
        Some(i) => Some((m.take(i), metric_value(m.skip(i + 1)))),
        None => None,
    }
}

proof fn lemma_eq_index_bounds(s: Seq<char>)
    ensures
        match eq_index(s) {
            Some(i) => 0 <= i < s.len() && s[i] == '=' && forall|k: int| 0 <= k < i ==> s[k] != '=',
            None => forall|k: int| 0 <= k < s.len() ==> s[k] != '=',
        },
    decreases s.len(),
{
    if s.len() > 0 {
        lemma_eq_index_bounds(s.drop_first());
        assert forall|k: int| 0 < k < s.len() implies s[k] == s.drop_first()[k - 1] by {}
    }
}

proof fn lemma_eq_index_first(s: Seq<char>, i: int)
    requires
        0 <= i < s.len(),
        s[i] == '=',
        forall|k: int| 0 <= k < i ==> s[k] != '=',
    ensures
        eq_index(s) == Some(i),
    decreases s.len(),
{
    if i > 0 {
        assert forall|k: int| 0 <= k < i - 1 implies s.drop_first()[k] != '=' by {
            assert(s.drop_first()[k] == s[k + 1]);
        }
        lemma_eq_index_first(s.drop_first(), i - 1);
    }
}

/// Strips the quotes at both ends of `s`.
fn trim_quotes(s: &str) -> (r: String)
    ensures
        r@ == trim_trailing_quotes(trim_leading_quotes(s@)),
{
    let cs = chars_of(s);
    let n = cs.len();
    let mut a: usize = 0;
    assert(s@.skip(0) =~= s@);
    while a < n && cs[a] == '"'
        invariant
            n == cs@.len(),
            cs@ == s@,
            a <= n,
            trim_leading_quotes(s@) == trim_leading_quotes(s@.skip(a as int)),
        decreases n - a,
    {
        assert(s@.skip(a as int).drop_first() =~= s@.skip(a + 1));
        a = a + 1;
    }
    assert(trim_leading_quotes(s@.skip(a as int)) == s@.skip(a as int));
    let ghost lead = s@.skip(a as int);
    let mut b: usize = n;
    assert(lead.take(n - a) =~= lead);
    while b > a && cs[b - 1] == '"'
        invariant
            n == cs@.len(),
            cs@ == s@,
            a <= b <= n,
            lead == s@.skip(a as int),
            trim_trailing_quotes(lead) == trim_trailing_quotes(lead.take(b - a)),
        decreases b,
    {
        assert(lead.take(b - a).drop_last() =~= lead.take(b - a - 1));
        b = b - 1;
    }
    assert(s@.subrange(a as int, b as int) =~= lead.take(b - a));
    s.substring_char(a, b).to_owned()
}

/// The metrics that `metrics` spell as `key=value`; the first one without '='
/// is refused.
pub fn parse_metrics(metrics: &Vec<String>) -> (r: Result<Vec<Metric>, CliError>)
    ensures
        match r {
            Ok(v) => metric_views(v@) == metrics@.map_values(|m: String| metric_of(m@)->0)
                && forall|k: int| 0 <= k < metrics@.len() ==> (#[trigger] metric_of(metrics@[k]@)) is Some,
            Err(CliError::InvalidMetric(bad)) => exists|k: int|
                0 <= k < metrics@.len() && metrics@[k]@ == bad@ && metric_of(metrics@[k]@) is None
                    && forall|j: int| 0 <= j < k ==> (#[trigger] metric_of(metrics@[j]@)) is Some,
        },
{
    let mut out: Vec<Metric> = Vec::new();
    let mut i: usize = 0;
    while i < metrics.len()
        invariant
            i <= metrics@.len(),
            metric_views(out@) == metrics@.take(i as int).map_values(|m: String| metric_of(m@)->0),
            forall|j: int| 0 <= j < i ==> (#[trigger] metric_of(metrics@[j]@)) is Some,
        decreases metrics@.len() - i,
    {
        let m = metrics[i].as_str();
        let cs = chars_of(m);
        let mut k: usize = 0;
        while k < cs.len() && cs[k] != '='
            invariant
                cs@ == m@,
                k <= cs@.len(),
                forall|q: int| 0 <= q < k ==> m@[q] != '=',
            decreases cs@.len() - k,
        {
            k = k + 1;
        }
        if k == cs.len() {
            proof {
                lemma_eq_index_bounds(m@);
                if eq_index(m@) is Some {
                    let j = eq_index(m@)->0;
                    assert(m@[j] == '=');
                }
            }
            return Err(CliError::InvalidMetric(m.to_owned()));
        }
        proof {
            lemma_eq_index_first(m@, k as int);
        }
        let name = m.substring_char(0, k).to_owned();
        let v = m.substring_char(k + 1, cs.len());
        let vc = chars_of(v);
        let quoted = vc.len() > 0 && vc[0] == '"' && vc[vc.len() - 1] == '"';
        let value = if quoted {
            MetricValue::Text(trim_quotes(v))
        } else if parses_as_json(v) {
            MetricValue::Json(v.to_owned())
        } else {
            MetricValue::Text(v.to_owned())
        };
        let metric = Metric { name, value };
        assert(m@.take(k as int) =~= m@.subrange(0, k as int));
        assert(m@.skip(k + 1) =~= m@.subrange(k + 1, cs@.len() as int));
        assert(metric@ == metric_of(m@)->0);
        let ghost before = out@;
        out.push(metric);
        assert(metric_views(out@) =~= metric_views(before).push(metric@));
        assert(metrics@.take(i + 1).map_values(|m: String| metric_of(m@)->0) =~= metrics@.take(
            i as int,
        ).map_values(|m: String| metric_of(m@)->0).push(metric_of(metrics@[i as int]@)->0));
        i = i + 1;
    }
    assert(metrics@.take(i as int) =~= metrics@);
    Ok(out)
}

/// The path of the Sparkplug B groups below `host`.
pub open spec fn groups_url(host: Seq<char>) -> Seq<char> {
    host + "/api/v1/services/sparkplug_b/groups"@
}

/// The URL of a resource below `host`.
pub open spec fn get_url(host: Seq<char>, r: GetResource) -> Seq<char> {
    match r {
        GetResource::Groups => groups_url(host),
        GetResource::Group { group_id } => groups_url(host) + "/"@ + group_id@,
        GetResource::Nodes { group_id } => groups_url(host) + "/"@ + group_id@ + "/nodes"@,
        GetResource::Node { group_id, node_id } => groups_url(host) + "/"@ + group_id@
            + "/nodes/"@ + node_id@,
        GetResource::Devices { group_id, node_id } => groups_url(host) + "/"@ + group_id@
            + "/nodes/"@ + node_id@ + "/devices"@,
        GetResource::Device { group_id, node_id, device_id } => groups_url(host) + "/"@
            + group_id@ + "/nodes/"@ + node_id@ + "/devices/"@ + device_id@,
    }
}

/// The URL of the resource whose metrics are set below `host`.
pub open spec fn set_url(host: Seq<char>, r: SetResource) -> Seq<char> {
    match r {
        SetResource::Node { group_id, node_id, .. } => groups_url(host) + "/"@ + group_id@
            + "/nodes/"@ + node_id@,
        SetResource::Device { group_id, node_id, device_id, .. } => groups_url(host) + "/"@
            + group_id@ + "/nodes/"@ + node_id@ + "/devices/"@ + device_id@,
    }
}

/// Appends `b` to `a`.
fn join(a: String, b: &str) -> (r: String)
    ensures
        r@ == a@ + b@,
{
    a.concat(b)
}

/// Whether `q` is the GET of the resource `g` below `host`.
pub open spec fn get_request_of(q: SpbRequest, host: Seq<char>, g: GetResource) -> bool {
    &&& q.method matches Method::Get
    &&& q.url@ == get_url(host, g)
    &&& q.metrics@.len() == 0
}

/// The metrics a setting command carries.
pub open spec fn set_metrics(s: SetResource) -> Vec<String> {
    match s {
        SetResource::Node { metrics, .. } => metrics,
        SetResource::Device { metrics, .. } => metrics,
    }
}

/// Whether `r` is what setting `s` below `host` asks: the PUT of its metrics to its
/// URL, or the refusal of the first metric that is not `key=value`.
pub open spec fn set_request_of(r: Result<SpbRequest, CliError>, host: Seq<char>, s: SetResource) -> bool {
    let metrics = set_metrics(s);
    match r {
        Ok(q) => {
            &&& q.method matches Method::Put
            &&& q.url@ == set_url(host, s)
            &&& metric_views(q.metrics@) == metrics@.map_values(|m: String| metric_of(m@)->0)
            &&& forall|k: int| 0 <= k < metrics@.len() ==> (#[trigger] metric_of(metrics@[k]@)) is Some
        },
        Err(CliError::InvalidMetric(bad)) => exists|k: int|
            0 <= k < metrics@.len() && metrics@[k]@ == bad@ && metric_of(metrics@[k]@) is None,
    }
}

/// The GET of the resource `g` below `host`.
fn get_request(g: GetResource, host: &str) -> (q: SpbRequest)
    ensures
        get_request_of(q, host@, g),
{
    let base = join(host.to_owned(), "/api/v1/services/sparkplug_b/groups");
    let ghost res = g;
    let url = match g {
        GetResource::Groups => base,
        GetResource::Group { group_id } => join(join(base, "/"), group_id.as_str()),
        GetResource::Nodes { group_id } => join(join(join(base, "/"), group_id.as_str()), "/nodes"),
        GetResource::Node { group_id, node_id } => join(
            join(join(join(base, "/"), group_id.as_str()), "/nodes/"),
            node_id.as_str(),
        ),
        GetResource::Devices { group_id, node_id } => join(
            join(join(join(join(base, "/"), group_id.as_str()), "/nodes/"), node_id.as_str()),
            "/devices",
        ),
        GetResource::Device { group_id, node_id, device_id } => join(
            join(
                join(join(join(join(base, "/"), group_id.as_str()), "/nodes/"), node_id.as_str()),
                "/devices/",
            ),
            device_id.as_str(),
        ),
    };
    SpbRequest { method: Method::Get, url, metrics: Vec::new() }
}

/// The PUT of the metrics of `s` below `host`.
fn set_request(s: SetResource, host: &str) -> (r: Result<SpbRequest, CliError>)
    ensures
        set_request_of(r, host@, s),
{
    let base = join(host.to_owned(), "/api/v1/services/sparkplug_b/groups");
    let (url, metrics) = match s {
        SetResource::Node { group_id, node_id, metrics } => (
            join(join(join(join(base, "/"), group_id.as_str()), "/nodes/"), node_id.as_str()),
            metrics,
        ),
        SetResource::Device { group_id, node_id, device_id, metrics } => (
            join(
                join(
                    join(join(join(join(base, "/"), group_id.as_str()), "/nodes/"), node_id.as_str()),
                    "/devices/",
                ),
                device_id.as_str(),
            ),
            metrics,
        ),
    };
    match parse_metrics(&metrics) {
        Ok(parsed) => Ok(SpbRequest { method: Method::Put, url, metrics: parsed }),
        Err(e) => Err(e),
    }
}

/// The request that a Sparkplug B command makes of the broker at `host`: a GET of
/// the resource's URL, or a PUT of the metrics to it (refused when a metric is not
/// `key=value`).
pub fn spb_request(spb: Spb, host: &str) -> (r: Result<SpbRequest, CliError>)
    ensures
        match spb.command {
            SpbCommands::Get(g) => r matches Ok(q) && get_request_of(q, host@, g.resource),
            SpbCommands::SetMetrics(s) => set_request_of(r, host@, s.resource),
        },
{
    match spb.command {
        SpbCommands::Get(g) => Ok(get_request(g.resource, host)),
        SpbCommands::SetMetrics(s) => set_request(s.resource, host),
    }
}

} // verus!
