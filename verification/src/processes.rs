//! The host's helper processes: the gateway (its token, the port it
//! announces) and the cloudflared tunnel (its arguments, the public URL it
//! prints, the metrics it serves), and what is reported about them.
use vstd::prelude::*;
use crate::session::AppRole;
use crate::text::{
    to_chars, owned, push_decimal, decimal, trim_spec, trim, find_seq, occurs_at, contains_seq,
    string_of_range, is_ws, is_whitespace, has_prefix, starts_with_chars, chars_eq,
};

verus! {

/// Whether a helper process runs.
#[derive(Debug, Clone, Copy, PartialEq, Eq, Structural)]
pub enum SidecarStatus {
    Enabled,
    Disabled,
}

/// The status of both helper processes.
pub struct ProcessStatusResponse {
    pub gateway: SidecarStatus,
    pub tunnel: SidecarStatus,
}

impl ProcessStatusResponse {
    /// The status of both processes: a process that is not held is
    /// reported disabled.
    pub fn from_statuses(gateway: Option<SidecarStatus>, tunnel: Option<SidecarStatus>) -> (r: ProcessStatusResponse)
        ensures
            r.gateway == match gateway {
                Some(s) => s,
                None => SidecarStatus::Disabled,
            },
            r.tunnel == match tunnel {
                Some(s) => s,
                None => SidecarStatus::Disabled,
            },
    {
        ProcessStatusResponse {
            gateway: match gateway {
                Some(s) => s,
                None => SidecarStatus::Disabled,
            },
            tunnel: match tunnel {
                Some(s) => s,
                None => SidecarStatus::Disabled,
            },
        }
    }
}

/// What the processes a host runs give a session.
#[derive(Clone, Debug)]
pub struct CombinedWorkflowResult {
    pub port: u16,
    pub public_url: Option<String>,
    pub lan_url: Option<String>,
    pub gateway_auth_token: String,
}

/// How the start of the gateway ended.
pub enum GatewayStart {
    /// It announced its port.
    Started { port: u16, lan_url: Option<String>, gateway_auth_token: String },
    /// It was not started, or the session stopped starting meanwhile.
    NotStarted,
    /// It failed, with this message.
    Failed(String),
}

/// How the start of the tunnel ended.
pub enum TunnelStart {
    /// It printed its public URL.
    Started { public_url: String },
    /// It was not started, or the session stopped hosting meanwhile.
    NotStarted,
    /// It failed, with this message.
    Failed(String),
}

/// The first step of a launch: a gateway that announced its port gives a
/// LAN-only session to which the tunnel may add a public URL; one that did
/// not start, or failed, ends the launch with an error.
pub fn after_gateway(gateway: GatewayStart) -> (r: Result<CombinedWorkflowResult, String>)
    ensures
        match gateway {
            GatewayStart::Started { port, lan_url, gateway_auth_token } => r matches Ok(c) && c
                == (CombinedWorkflowResult { port, public_url: None, lan_url, gateway_auth_token }),
            GatewayStart::NotStarted => r matches Err(m) && m@ == "Gateway did not start"@,
            GatewayStart::Failed(m) => r == Err::<CombinedWorkflowResult, String>(m),
        },
{
    match gateway {
        GatewayStart::Started { port, lan_url, gateway_auth_token } => Ok(
            CombinedWorkflowResult { port, public_url: None, lan_url, gateway_auth_token },
        ),
        GatewayStart::NotStarted => Err(String::from_str("Gateway did not start")),
        GatewayStart::Failed(m) => Err(m),
    }
}

/// The last step of a launch: the tunnel's public URL joins the session; a
/// tunnel that did not start leaves it LAN-only; one that failed ends the
/// launch with its error.
pub fn after_tunnel(base: CombinedWorkflowResult, tunnel: TunnelStart) -> (r: Result<CombinedWorkflowResult, String>)
    ensures
        match tunnel {
            TunnelStart::Started { public_url } => r matches Ok(c) && c == (CombinedWorkflowResult {
                public_url: Some(public_url),
                ..base
            }),
            TunnelStart::NotStarted => r == Ok::<CombinedWorkflowResult, String>(base),
            TunnelStart::Failed(m) => r == Err::<CombinedWorkflowResult, String>(m),
        },
{
    match tunnel {
        TunnelStart::Started { public_url } => Ok(CombinedWorkflowResult { public_url: Some(public_url), ..base }),
        TunnelStart::NotStarted => Ok(base),
        TunnelStart::Failed(m) => Err(m),
    }
}

/// The gateway's output ended before it announced a port: an error while
/// the session is still starting, else a start that was called off.
pub fn gateway_exit_error(role: &AppRole) -> (r: Option<String>)
    ensures
        match role {
            AppRole::Starting => r matches Some(m) && m@ == "Gateway exited before reporting its port"@,
            _ => r is None,
        },
{
    match role {
        AppRole::Starting => Some(String::from_str("Gateway exited before reporting its port")),
        _ => None,
    }
}

/// cloudflared's output ended before it printed a URL: an error while
/// hosting, else a start that was called off.
pub fn tunnel_exit_error(role: &AppRole) -> (r: Option<String>)
    ensures
        match role {
            AppRole::Host { .. } => r matches Some(m) && m@
                == "cloudflared exited without producing a tunnel URL"@,
            _ => r is None,
        },
{
    match role {
        AppRole::Host { .. } => Some(String::from_str("cloudflared exited without producing a tunnel URL")),
        _ => None,
    }
}

/// The lower-case hexadecimal digit of `n < 16`.
pub open spec fn hex_digit(n: u8) -> char {
    if n < 10 {
        ((n + 48) as u32) as char
    } else {
        ((n + 87) as u32) as char
    }
}

/// `hex::encode`: two lower-case hexadecimal digits per byte, high nibble
/// first.
pub open spec fn hex_lower(bytes: Seq<u8>) -> Seq<char>
    decreases bytes.len(),
{
    if bytes.len() == 0 {
        Seq::empty()
    } else {
        let b = bytes.last();
        hex_lower(bytes.drop_last()).push(hex_digit(b / 16)).push(hex_digit(b % 16))
    }
}

/// `hex::encode`.
#[verifier::external_body]
fn hex_encode(bytes: &[u8]) -> (r: String)
    ensures
        r@ == hex_lower(bytes@),
{
    hex::encode(bytes)
}

/// `OsRng.try_fill_bytes` on 32 bytes: the bytes, or the text of the error
/// when the system's random source fails. Nothing is promised about the
/// bytes.
#[verifier::external_body]
fn random_bytes_32() -> (r: Result<[u8; 32], String>) {
    let mut bytes = [0u8; 32];
    match rand::RngCore::try_fill_bytes(&mut rand::rngs::OsRng, &mut bytes) {
        Ok(()) => Ok(bytes),
        Err(e) => Err(e.to_string()),
    }
}

/// The gateway token made of 32 bytes: their lower-case hex.
pub fn gateway_token_of(bytes: &[u8; 32]) -> (t: String)
    ensures
        t@ == hex_lower(bytes@),
{
    hex_encode(bytes)
}

/// The bearer token the gateway is started with: 32 random bytes, hex
/// (`gateway_token_of`); an error when the system's random source fails.
pub fn generate_gateway_token() -> (r: Result<String, String>)
    ensures
        r matches Ok(t) ==> exists|b: Seq<u8>| b.len() == 32 && t@ == hex_lower(b),
        r matches Err(m) ==> exists|e: Seq<char>| m@ == "Failed to generate gateway token: "@ + e,
{
    match random_bytes_32() {
        Ok(bytes) => {
            let r = gateway_token_of(&bytes);
            assert(bytes@.len() == 32);
            Ok(r)
        },
        Err(e) => {
            let mut m = String::from_str("Failed to generate gateway token: ");
            m.append(e.as_str());
            Err(m)
        },
    }
}

/// The name of what `serde_json` reads as the unsigned field `key` of a
/// JSON value in `text` (nothing when `text` is no JSON, or the field is
/// absent or no unsigned integer).
pub uninterp spec fn json_u64_field(text: Seq<char>, key: Seq<char>) -> Option<u64>;

/// `serde_json::from_str::<Value>`, then `get(key)` and `as_u64`.
#[verifier::external_body]
fn json_field_u64(text: &str, key: &str) -> (r: Option<u64>)
    ensures
        r == json_u64_field(text@, key@),
{
    serde_json::from_str::<serde_json::Value>(text).ok().and_then(|v| v.get(key).and_then(|p| p.as_u64()))
}

/// The port a gateway stdout line announces: the line is trimmed and read
/// as JSON, its `port` field is taken, and cut to 16 bits as `as u16` does.
pub fn gateway_port_from_line(line: &str) -> (r: Option<u16>)
    ensures
        r == match json_u64_field(trim_spec(line@), "port"@) {
            Some(n) => Some((n % 65536) as u16),
            None => None::<u16>,
        },
{
    let t = trim(line);
    match json_field_u64(t.as_str(), "port") {
        Some(n) => {
            let p = n as u16;
            assert(p == n % 65536) by (bit_vector)
                requires
                    p == n as u16,
            ;
            Some(p)
        },
        None => None,
    }
}

/// The target of the tunnel: `http://localhost:{port}`.
pub fn tunnel_origin_url(port: u16) -> (r: String)
    ensures
        r@ == "http://localhost:"@ + decimal(port as nat),
{
    let mut s = String::from_str("http://localhost:");
    push_decimal(&mut s, port as u64);
    s
}

/// The metrics endpoint of cloudflared: `http://{addr}/metrics`.
pub fn tunnel_metrics_url(addr: &str) -> (r: String)
    ensures
        r@ == "http://"@ + addr@ + "/metrics"@,
{
    let mut s = String::from_str("http://");
    s.append(addr);
    s.append("/metrics");
    s
}

/// The arguments cloudflared is started with.
pub fn cloudflared_args(port: u16, log_level: &str, metrics_addr: &str) -> (r: Vec<String>)
    ensures
        r@.len() == 9,
        r@[0]@ == "tunnel"@,
        r@[1]@ == "--url"@,
        r@[2]@ == "http://localhost:"@ + decimal(port as nat),
        r@[3]@ == "--no-autoupdate"@,
        r@[4]@ == "--loglevel"@,
        r@[5]@ == log_level@,
        r@[6]@ == "--http2-origin=false"@,
        r@[7]@ == "--metrics"@,
        r@[8]@ == metrics_addr@,
{
    let mut v: Vec<String> = Vec::new();
    v.push(String::from_str("tunnel"));
    v.push(String::from_str("--url"));
    v.push(tunnel_origin_url(port));
    v.push(String::from_str("--no-autoupdate"));
    v.push(String::from_str("--loglevel"));
    v.push(owned(log_level));
    v.push(String::from_str("--http2-origin=false"));
    v.push(String::from_str("--metrics"));
    v.push(owned(metrics_addr));
    v
}

/// A character that ends a URL in cloudflared's log output.
pub open spec fn ends_url(c: char) -> bool {
    is_ws(c) || c == '|' || c == '+' || c == '"' || c == '\x1b'
}

/// The first position of `p` in `s`.
pub open spec fn first_at(s: Seq<char>, p: Seq<char>) -> Option<int> {
    if contains_seq(s, p) {
        Some(choose|i: int| occurs_at(s, p, i) && forall|j: int| 0 <= j < i ==> !occurs_at(s, p, j))
    } else {
        None
    }
}

/// The position at which the URL in a log line starts: the first
/// `https://`, else the first `http://`.
pub open spec fn url_start(line: Seq<char>) -> Option<int> {
    if contains_seq(line, "https://"@) {
        first_at(line, "https://"@)
    } else {
        first_at(line, "http://"@)
    }
}

/// The URL in `rest`: up to the first character that ends a URL, trimmed.
pub open spec fn url_prefix(rest: Seq<char>, end: int) -> bool {
    0 <= end <= rest.len() && (forall|j: int| 0 <= j < end ==> !ends_url(#[trigger] rest[j])) && (end
        == rest.len() || ends_url(rest[end]))
}

/// What `extract_tunnel_url` finds in a log line: the URL that starts at
/// `url_start`, when it mentions `trycloudflare.com`.
pub open spec fn tunnel_url_spec(line: Seq<char>) -> Option<Seq<char>> {
    match url_start(line) {
        Some(start) => {
            let rest = line.subrange(start, line.len() as int);
            let end = choose|end: int| url_prefix(rest, end);
            let url = trim_spec(rest.subrange(0, end));
            if contains_seq(url, "trycloudflare.com"@) {
                Some(url)
            } else {
                None
            }
        },
        None => None,
    }
}

/// The first occurrence of `p` in `s` is where `first_at` puts it.
pub proof fn lemma_first_at(s: Seq<char>, p: Seq<char>, i: int)
    requires
        occurs_at(s, p, i),
        forall|j: int| 0 <= j < i ==> !occurs_at(s, p, j),
    ensures
        first_at(s, p) == Some(i),
{
    let k = choose|k: int| occurs_at(s, p, k) && forall|j: int| 0 <= j < k ==> !occurs_at(s, p, j);
    if k < i {
        assert(!occurs_at(s, p, k));
    }
    if i < k {
        assert(!occurs_at(s, p, i));
    }
}

proof fn lemma_url_prefix_unique(rest: Seq<char>, a: int, b: int)
    requires
        url_prefix(rest, a),
        url_prefix(rest, b),
    ensures
        a == b,
{
    if a < b {
        assert(!ends_url(rest[a]));
    }
    if b < a {
        assert(!ends_url(rest[b]));
    }
}

/// Finds the tunnel's public URL in a line of cloudflared's log output.
pub fn extract_tunnel_url(line: &str) -> (r: Option<String>)
    ensures
        crate::urls::opt_view(r) == tunnel_url_spec(line@),
{
    let v = to_chars(line);
    let https = to_chars("https://");
    let http = to_chars("http://");
    let start = match find_seq(&v, &https) {
        Some(i) => {
            proof {
                lemma_first_at(v@, https@, i as int);
            }
            i
        },
        None => match find_seq(&v, &http) {
            Some(i) => {
                proof {
                    lemma_first_at(v@, http@, i as int);
                }
                i
            },
            None => {
                return None;
            },
        },
    };
    assert(url_start(line@) == Some(start as int));
    let ghost rest = v@.subrange(start as int, v@.len() as int);
    let mut end: usize = start;
    while end < v.len() && !(is_whitespace(v[end]) || v[end] == '|' || v[end] == '+' || v[end] == '"' || v[end] == '\x1b')
        invariant
            start <= end <= v.len(),
            rest == v@.subrange(start as int, v@.len() as int),
            forall|j: int| 0 <= j < end - start ==> !ends_url(#[trigger] rest[j]),
        decreases v.len() - end,
    {
        assert(rest[end - start] == v@[end as int]);
        end = end + 1;
    }
    proof {
        if end < v.len() {
            assert(rest[end - start] == v@[end as int]);
        }
        assert(url_prefix(rest, end - start));
        let e = choose|e: int| url_prefix(rest, e);
        lemma_url_prefix_unique(rest, e, end - start);
    }
    let candidate = string_of_range(&v, start, end);
    assert(candidate@ == rest.subrange(0, end - start));
    let url = trim(candidate.as_str());
    let url_chars = to_chars(url.as_str());
    match find_seq(&url_chars, &to_chars("trycloudflare.com")) {
        Some(_) => Some(url),
        None => None,
    }
}

/// `s` with the first occurrence of `p` replaced by `q`.
pub open spec fn replace_first(s: Seq<char>, p: Seq<char>, q: Seq<char>) -> Seq<char> {
    match first_at(s, p) {
        Some(i) => s.subrange(0, i) + q + s.subrange(i + p.len(), s.len() as int),
        None => s,
    }
}

/// `str::replacen(p, q, 1)`.
pub fn replace_first_occurrence(s: &str, p: &str, q: &str) -> (r: String)
    ensures
        r@ == replace_first(s@, p@, q@),
{
    let v = to_chars(s);
    let pv = to_chars(p);
    match find_seq(&v, &pv) {
        Some(i) => {
            proof {
                lemma_first_at(v@, pv@, i as int);
            }
            assert(occurs_at(v@, pv@, i as int));
            assert(i + pv@.len() <= v@.len());
            let mut out = string_of_range(&v, 0, i);
            out.append(q);
            let tail = string_of_range(&v, i + pv.len(), v.len());
            out.append(tail.as_str());
            out
        },
        None => owned(s),
    }
}

/// The websocket URL guests reach through the tunnel: the tunnel URL with
/// `https://` as `wss://` (else `http://` as `ws://`), followed by `/ws`.
pub fn public_ws_url(raw_url: &str) -> (r: String)
    ensures
        r@ == (if has_prefix(raw_url@, "https://"@) {
            replace_first(raw_url@, "https://"@, "wss://"@)
        } else {
            replace_first(raw_url@, "http://"@, "ws://"@)
        }) + "/ws"@,
{
    let v = to_chars(raw_url);
    let mut ws = if starts_with_chars(&v, &to_chars("https://")) {
        replace_first_occurrence(raw_url, "https://", "wss://")
    } else {
        replace_first_occurrence(raw_url, "http://", "ws://")
    };
    ws.append("/ws");
    ws
}

/// The counters a host shows of its tunnel.
#[derive(Clone, Debug, PartialEq)]
pub struct TunnelMetricsResponse {
    pub ha_connections: u64,
    pub register_successes: u64,
    pub request_errors: u64,
    pub edge_location: Option<String>,
}

/// What the tunnel metrics poller sends: the metrics or the error.
#[derive(Clone)]
pub struct TunnelMetricsEventPayload {
    pub metrics: Option<TunnelMetricsResponse>,
    pub error: Option<String>,
}

impl TunnelMetricsEventPayload {
    /// The payload of one scrape.
    pub fn from_result(r: Result<TunnelMetricsResponse, String>) -> (p: TunnelMetricsEventPayload)
        ensures
            r is Ok <==> p.metrics is Some,
            r is Ok <==> p.error is None,
            r matches Ok(m) ==> p.metrics == Some(m),
            r matches Err(e) ==> p.error == Some(e),
    {
        match r {
            Ok(m) => TunnelMetricsEventPayload { metrics: Some(m), error: None },
            Err(e) => TunnelMetricsEventPayload { metrics: None, error: Some(e) },
        }
    }
}

/// The gateway's own counters.
#[derive(Clone, Debug, PartialEq)]
pub struct GatewayMetricsResponse {
    pub healthy: bool,
    pub uptime_seconds: u64,
    pub active_rooms: i64,
    pub connected_clients: i64,
    pub active_hosts: i64,
    pub relayed_messages: u64,
    pub relayed_bytes: u64,
    pub replay_successes: u64,
    pub replay_failures: u64,
    pub dropped_frames: u64,
    pub slow_client_disconnects: u64,
}

/// What the gateway metrics poller sends: the metrics or the error.
#[derive(Clone)]
pub struct GatewayMetricsEventPayload {
    pub metrics: Option<GatewayMetricsResponse>,
    pub error: Option<String>,
}

/// Where the tunnel's metrics are read.
pub struct TunnelMetricsSource {
    pub metrics_url: String,
}

impl TunnelMetricsSource {
    /// A source reading `metrics_url`.
    pub fn new(metrics_url: String) -> (r: TunnelMetricsSource)
        ensures
            r.metrics_url == metrics_url,
    {
        TunnelMetricsSource { metrics_url }
    }
}

/// Where the gateway's metrics are read, and with which token.
pub struct GatewayMetricsSource {
    pub metrics_url: String,
    pub auth_token: String,
}

impl GatewayMetricsSource {
    /// A source reading `metrics_url` with `auth_token`.
    pub fn new(metrics_url: String, auth_token: String) -> (r: GatewayMetricsSource)
        ensures
            r.metrics_url == metrics_url,
            r.auth_token == auth_token,
    {
        GatewayMetricsSource { metrics_url, auth_token }
    }
}

} // verus!
