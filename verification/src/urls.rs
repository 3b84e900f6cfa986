//! Room URLs: what the `url` crate reads of a URL, held as plain values,
//! and the join and end-session URLs derived from it.
use vstd::prelude::*;
use crate::text::{to_chars, owned, push_decimal, decimal, trim_spec, trim, str_eq, has_suffix};

verus! {

/// What is read of a parsed URL: its scheme, host, explicit port, port or
/// the scheme's known default, path, and decoded query pairs.
pub struct UrlParts {
    pub scheme: String,
    pub host: Option<String>,
    pub port: Option<u16>,
    pub known_port: Option<u16>,
    pub path: String,
    pub query_pairs: Vec<(String, String)>,
}

/// `UrlParts` as plain values.
pub struct UrlPartsView {
    pub scheme: Seq<char>,
    pub host: Option<Seq<char>>,
    pub port: Option<u16>,
    pub known_port: Option<u16>,
    pub path: Seq<char>,
    pub query_pairs: Seq<(Seq<char>, Seq<char>)>,
}

/// The plain value of an optional string.
pub open spec fn opt_view(o: Option<String>) -> Option<Seq<char>> {
    match o {
        Some(s) => Some(s@),
        None => None,
    }
}

impl View for UrlParts {
    type V = UrlPartsView;

    open spec fn view(&self) -> UrlPartsView {
        UrlPartsView {
            scheme: self.scheme@,
            host: opt_view(self.host),
            port: self.port,
            known_port: self.known_port,
            path: self.path@,
            query_pairs: Seq::new(
                self.query_pairs@.len(),
                |i: int| (self.query_pairs@[i].0@, self.query_pairs@[i].1@),
            ),
        }
    }
}

/// The name of what `url::Url::parse` reads of `input`: its parts, or the
/// text of its parse error.
pub uninterp spec fn url_parse(input: Seq<char>) -> Result<UrlPartsView, Seq<char>>;

/// `url::Url::parse`, the result converted to plain parts (`scheme`,
/// `host_str`, `port`, `port_or_known_default`, `path`, `query_pairs`) and
/// the error to its text.
#[verifier::external_body]
pub(crate) fn parse_url(input: &str) -> (r: Result<UrlParts, String>)
    ensures
        match url_parse(input@) {
            Ok(v) => r matches Ok(p) && p@ == v,
            Err(e) => r matches Err(m) && m@ == e,
        },
{
    match url::Url::parse(input) {
        Ok(u) => Ok(UrlParts {
            scheme: u.scheme().to_string(),
            host: u.host_str().map(|h| h.to_string()),
            port: u.port(),
            known_port: u.port_or_known_default(),
            path: u.path().to_string(),
            query_pairs: u.query_pairs().map(|(k, v)| (k.into_owned(), v.into_owned())).collect(),
        }),
        Err(e) => Err(e.to_string()),
    }
}

/// The value of the first query pair whose key is `room`.
pub open spec fn first_room(pairs: Seq<(Seq<char>, Seq<char>)>) -> Option<Seq<char>>
    decreases pairs.len(),
{
    if pairs.len() == 0 {
        None
    } else if pairs[0].0 == "room"@ {
        Some(pairs[0].1)
    } else {
        first_room(pairs.drop_first())
    }
}

/// The value of the first `room` query pair.
pub fn find_room(parts: &UrlParts) -> (r: Option<String>)
    ensures
        opt_view(r) == first_room(parts@.query_pairs),
{
    let ghost pairs = parts@.query_pairs;
    assert(pairs.subrange(0, pairs.len() as int) == pairs);
    let mut i: usize = 0;
    while i < parts.query_pairs.len()
        invariant
            pairs == parts@.query_pairs,
            i <= parts.query_pairs.len(),
            first_room(pairs) == first_room(pairs.subrange(i as int, pairs.len() as int)),
        decreases parts.query_pairs.len() - i,
    {
        let ghost rest = pairs.subrange(i as int, pairs.len() as int);
        assert(rest[0] == pairs[i as int]);
        assert(rest.drop_first() == pairs.subrange(i + 1, pairs.len() as int));
        if str_eq(parts.query_pairs[i].0.as_str(), "room") {
            return Some(owned(parts.query_pairs[i].1.as_str()));
        }
        i = i + 1;
    }
    None
}

/// `s` without its trailing `/`s.
pub open spec fn trim_end_slashes(s: Seq<char>) -> Seq<char>
    decreases s.len(),
{
    if s.len() > 0 && s.last() == '/' {
        trim_end_slashes(s.drop_last())
    } else {
        s
    }
}

/// The path of the server a join URL points at: the URL's path without
/// trailing `/`s and without a final `/ws`; nothing when that leaves the
/// root (`/` or empty).
pub open spec fn server_base_path(path: Seq<char>) -> Seq<char> {
    let p = trim_end_slashes(path);
    let b = if has_suffix(p, "/ws"@) {
        p.subrange(0, p.len() - 3)
    } else {
        p
    };
    if b == "/"@ {
        Seq::empty()
    } else {
        b
    }
}

/// Where and to which room a join URL leads.
#[derive(Debug, Clone)]
pub struct JoinInfo {
    pub server_url: String,
    pub room_id: String,
}

/// `JoinInfo` as plain values.
pub struct JoinInfoView {
    pub server_url: Seq<char>,
    pub room_id: Seq<char>,
}

impl View for JoinInfo {
    type V = JoinInfoView;

    open spec fn view(&self) -> JoinInfoView {
        JoinInfoView { server_url: self.server_url@, room_id: self.room_id@ }
    }
}

/// The plain value of a result carrying a `JoinInfo` or a message.
pub open spec fn join_result_view(r: Result<JoinInfo, String>) -> Result<JoinInfoView, Seq<char>> {
    match r {
        Ok(j) => Ok(j@),
        Err(e) => Err(e@),
    }
}

/// The server URL of a join URL: scheme, `://`, host, `:port` when the URL
/// names one, then the base path when it is not the root.
pub open spec fn server_url_of(p: UrlPartsView, host: Seq<char>) -> Seq<char> {
    let with_port = match p.port {
        Some(n) => p.scheme + "://"@ + host + ":"@ + decimal(n as nat),
        None => p.scheme + "://"@ + host,
    };
    with_port + server_base_path(p.path)
}

/// What `parse_join_url` makes of a parsed URL: only `ws` and `wss`, with a
/// host that is not blank and a first `room` pair that is not blank.
pub open spec fn join_info_spec(p: UrlPartsView) -> Result<JoinInfoView, Seq<char>> {
    if p.scheme != "ws"@ && p.scheme != "wss"@ {
        Err("Invalid URL: must begin with ws:// or wss://"@)
    } else if p.host is None || trim_spec(p.host.unwrap()).len() == 0 {
        Err("Invalid URL: missing host"@)
    } else if first_room(p.query_pairs) is None || trim_spec(first_room(p.query_pairs).unwrap()).len()
        == 0 {
        Err("URL is missing the ?room= parameter"@)
    } else {
        Ok(
            JoinInfoView {
                server_url: server_url_of(p, p.host.unwrap()),
                room_id: first_room(p.query_pairs).unwrap(),
            },
        )
    }
}

/// What `parse_join_url` returns for an input, given what the URL parser
/// makes of it.
pub open spec fn parse_join_spec(parsed: Result<UrlPartsView, Seq<char>>) -> Result<
    JoinInfoView,
    Seq<char>,
> {
    match parsed {
        Ok(p) => join_info_spec(p),
        Err(e) => Err("Invalid URL: "@ + e),
    }
}

/// The server path of a join URL.
fn base_path(path: &str) -> (r: String)
    ensures
        r@ == server_base_path(path@),
{
    let v = to_chars(path);
    let mut end: usize = v.len();
    proof {
        assert(v@.subrange(0, end as int) == v@);
    }
    while end > 0 && v[end - 1] == '/'
        invariant
            end <= v.len(),
            trim_end_slashes(v@) == trim_end_slashes(v@.subrange(0, end as int)),
        decreases end,
    {
        assert(v@.subrange(0, end as int).drop_last() == v@.subrange(0, end - 1));
        end = end - 1;
    }
    let ghost p = v@.subrange(0, end as int);
    assert(trim_end_slashes(p) == p);
    if end >= 3 && v[end - 3] == '/' && v[end - 2] == 'w' && v[end - 1] == 's' {
        proof {
            crate::text::lemma_suffix_ws(p);
            assert(p.subrange(p.len() - 3, p.len() as int) =~= seq!['/', 'w', 's']);
        }
        assert(p.subrange(0, p.len() - 3) == v@.subrange(0, end - 3));
        if end == 4 && v[0] == '/' {
            proof {
                reveal_strlit("/");
                assert(v@.subrange(0, 1) =~= "/"@);
            }
            String::new()
        } else {
            proof {
                reveal_strlit("/");
                if v@.subrange(0, end - 3) == "/"@ {
                    assert(v@.subrange(0, end - 3).len() == 1);
                    assert(v@.subrange(0, end - 3)[0] == v@[0]);
                }
            }
            crate::text::string_of_range(&v, 0, end - 3)
        }
    } else {
        proof {
            crate::text::lemma_suffix_ws(p);
            if has_suffix(p, "/ws"@) {
                let s3 = p.subrange(p.len() - 3, p.len() as int);
                assert(s3[0] == v@[end - 3]);
                assert(s3[1] == v@[end - 2]);
                assert(s3[2] == v@[end - 1]);
            }
            reveal_strlit("/");
        }
        proof {
            if p == "/"@ {
                assert(p.len() == 1);
                assert(p[0] == v@[0]);
            }
        }
        crate::text::string_of_range(&v, 0, end)
    }
}

/// Reads a join URL that a host shared: the server to connect to and the
/// room to join.
pub fn join_info_from_parts(p: &UrlParts) -> (r: Result<JoinInfo, String>)
    ensures
        join_result_view(r) == join_info_spec(p@),
{
    if !str_eq(p.scheme.as_str(), "ws") && !str_eq(p.scheme.as_str(), "wss") {
        return Err(String::from_str("Invalid URL: must begin with ws:// or wss://"));
    }
    let host = match &p.host {
        Some(h) => h,
        None => {
            return Err(String::from_str("Invalid URL: missing host"));
        },
    };
    if trim(host.as_str()).unicode_len() == 0 {
        return Err(String::from_str("Invalid URL: missing host"));
    }
    let room_id = match find_room(p) {
        Some(r) => r,
        None => {
            return Err(String::from_str("URL is missing the ?room= parameter"));
        },
    };
    if trim(room_id.as_str()).unicode_len() == 0 {
        return Err(String::from_str("URL is missing the ?room= parameter"));
    }
    let mut server_url = owned(p.scheme.as_str());
    server_url.append("://");
    server_url.append(host.as_str());
    match p.port {
        Some(n) => {
            server_url.append(":");
            push_decimal(&mut server_url, n as u64);
        },
        None => {},
    }
    let base = base_path(p.path.as_str());
    server_url.append(base.as_str());
    Ok(JoinInfo { server_url, room_id })
}

/// `parse_join_url`: parses the URL, then reads it as a join URL.
pub fn parse_join_url(url: String) -> (r: Result<JoinInfo, String>)
    ensures
        join_result_view(r) == parse_join_spec(url_parse(url@)),
{
    match parse_url(url.as_str()) {
        Ok(parts) => join_info_from_parts(&parts),
        Err(e) => {
            let mut m = String::from_str("Invalid URL: ");
            m.append(e.as_str());
            Err(m)
        },
    }
}

/// What `end_session_url_from_room_url` makes of a parsed room URL: the
/// gateway's loopback end-session endpoint for its room and port.
pub open spec fn end_session_spec(p: UrlPartsView) -> Result<Seq<char>, Seq<char>> {
    if first_room(p.query_pairs) is None {
        Err("room URL is missing room query parameter"@)
    } else if p.known_port is None {
        Err("room URL is missing a valid port"@)
    } else {
        Ok(
            "http://127.0.0.1:"@ + decimal(p.known_port.unwrap() as nat) + "/end-session?room="@
                + first_room(p.query_pairs).unwrap(),
        )
    }
}

/// The plain value of a result carrying a string or a message.
pub open spec fn string_result_view(r: Result<String, String>) -> Result<Seq<char>, Seq<char>> {
    match r {
        Ok(s) => Ok(s@),
        Err(e) => Err(e@),
    }
}

/// The end-session endpoint of the room a parsed room URL names.
pub fn end_session_url_from_parts(p: &UrlParts) -> (r: Result<String, String>)
    ensures
        string_result_view(r) == end_session_spec(p@),
{
    let room_id = match find_room(p) {
        Some(r) => r,
        None => {
            return Err(String::from_str("room URL is missing room query parameter"));
        },
    };
    let port = match p.known_port {
        Some(n) => n,
        None => {
            return Err(String::from_str("room URL is missing a valid port"));
        },
    };
    let mut s = String::from_str("http://127.0.0.1:");
    push_decimal(&mut s, port as u64);
    s.append("/end-session?room=");
    s.append(room_id.as_str());
    Ok(s)
}

/// `end_session_url_from_room_url`: the gateway endpoint that ends the
/// room a local room URL names.
pub fn end_session_url_from_room_url(room_url: &str) -> (r: Result<String, String>)
    ensures
        string_result_view(r) == match url_parse(room_url@) {
            Ok(p) => end_session_spec(p),
            Err(e) => Err("invalid room URL: "@ + e),
        },
{
    match parse_url(room_url) {
        Ok(parts) => end_session_url_from_parts(&parts),
        Err(e) => {
            let mut m = String::from_str("invalid room URL: ");
            m.append(e.as_str());
            Err(m)
        },
    }
}

/// The gateway's answer to a room request.
pub struct RoomResponse {
    pub room_id: String,
}

/// The URL at which the local gateway on `port` creates a room.
pub fn rooms_url(port: u16) -> (r: String)
    ensures
        r@ == "http://127.0.0.1:"@ + decimal(port as nat) + "/rooms"@,
{
    let mut r = String::from_str("http://127.0.0.1:");
    push_decimal(&mut r, port as u64);
    r.append("/rooms");
    r
}

} // verus!
