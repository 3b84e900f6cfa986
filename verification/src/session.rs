//! Session roles and their transitions, the decisions that depend on the
//! role, the URLs of a hosted room, and the payloads sent to the frontend.
use vstd::prelude::*;
use crate::text::{owned, push_decimal, decimal, parse_u64, parse_u64_spec};

verus! {

/// Whether a guest may edit.
#[derive(Debug, Clone, Copy, PartialEq, Eq, Structural)]
pub enum WriteAccess {
    Editable,
    ReadOnly,
}

/// The part this instance plays.
pub enum AppRole {
    /// No session.
    Undecided,
    /// A session is being hosted or joined.
    Starting,
    /// Hosting a room.
    Host {
        room_id: String,
        lan_url: Option<String>,
        public_url: Option<String>,
        local_room_url: String,
        public_room_url: Option<String>,
    },
    /// Joined to a host's room.
    Guest { room_id: String, server_url: String, write_access: WriteAccess },
}

impl AppRole {
    /// A new session may start only when there is none.
    pub fn can_initiate_session(&self) -> (r: bool)
        ensures
            r == (self is Undecided),
    {
        match self {
            AppRole::Undecided => true,
            _ => false,
        }
    }

    /// Whether this instance hosts a room.
    pub fn is_host(&self) -> (r: bool)
        ensures
            r == (self is Host),
    {
        match self {
            AppRole::Host { .. } => true,
            _ => false,
        }
    }

    /// Whether this instance is a guest in a room.
    pub fn is_guest(&self) -> (r: bool)
        ensures
            r == (self is Guest),
    {
        match self {
            AppRole::Guest { .. } => true,
            _ => false,
        }
    }

    /// The status reported to the frontend.
    pub fn status(&self) -> (r: &'static str)
        ensures
            r@ == status_text(*self),
    {
        match self {
            AppRole::Undecided => "idle",
            AppRole::Starting => "starting",
            AppRole::Host { .. } => "host",
            AppRole::Guest { .. } => "guest",
        }
    }
}

/// A host sends a full snapshot after this many local edits.
pub const SNAPSHOT_REFRESH_INTERVAL: u32 = 100;

/// A local edit that changed the document: a host counts it, and once the
/// count reaches `SNAPSHOT_REFRESH_INTERVAL` the count starts again and a
/// snapshot goes to the room; other roles count nothing. The new count and
/// whether to send the snapshot.
pub open spec fn local_edit_step(role: AppRole, ops_since_snapshot: u32) -> (u32, bool) {
    if !(role is Host) {
        (ops_since_snapshot, false)
    } else if ops_since_snapshot + 1 >= SNAPSHOT_REFRESH_INTERVAL {
        (0u32, true)
    } else {
        ((ops_since_snapshot + 1) as u32, false)
    }
}

/// Counts a local edit that changed the document (`local_edit_step`).
pub fn note_local_edit(role: &AppRole, ops_since_snapshot: u32) -> (r: (u32, bool))
    requires
        ops_since_snapshot < u32::MAX,
    ensures
        r == local_edit_step(*role, ops_since_snapshot),
{
    match role {
        AppRole::Host { .. } => {
            let count = ops_since_snapshot + 1;
            if count >= SNAPSHOT_REFRESH_INTERVAL {
                (0, true)
            } else {
                (count, false)
            }
        },
        _ => (ops_since_snapshot, false),
    }
}

/// The edit count of a host stays below `SNAPSHOT_REFRESH_INTERVAL`, and a
/// snapshot goes out exactly on every `SNAPSHOT_REFRESH_INTERVAL`-th edit.
pub proof fn law_snapshot_every_interval(role: AppRole, n: u32)
    requires
        n < SNAPSHOT_REFRESH_INTERVAL,
    ensures
        local_edit_step(role, n).0 < SNAPSHOT_REFRESH_INTERVAL,
        local_edit_step(role, n).1 <==> (role is Host && n + 1 == SNAPSHOT_REFRESH_INTERVAL),
        role is Host && !local_edit_step(role, n).1 ==> local_edit_step(role, n).0 == n + 1,
{
}

/// The status text of a role.
pub open spec fn status_text(role: AppRole) -> Seq<char> {
    match role {
        AppRole::Undecided => "idle"@,
        AppRole::Starting => "starting"@,
        AppRole::Host { .. } => "host"@,
        AppRole::Guest { .. } => "guest"@,
    }
}

/// Whether a command that replaces the document may run: a guest must
/// leave the session first; a host only when the command allows it;
/// without a session always.
pub open spec fn doc_swap_refusal(role: AppRole, action: Seq<char>, allow_host: bool) -> Option<
    Seq<char>,
> {
    match role {
        AppRole::Guest { .. } => Some("leave the session before you "@ + action),
        AppRole::Host { .. } => if allow_host {
            None
        } else {
            Some("end the session before you "@ + action)
        },
        _ => None,
    }
}

/// Refuses a document swap (`action` names it) that the role does not allow.
pub fn deny_doc_swap(role: &AppRole, action: &str, allow_host: bool) -> (r: Result<(), String>)
    ensures
        r is Ok <==> doc_swap_refusal(*role, action@, allow_host) is None,
        r matches Err(m) ==> Some(m@) == doc_swap_refusal(*role, action@, allow_host),
{
    match role {
        AppRole::Guest { .. } => {
            let mut m = String::from_str("leave the session before you ");
            m.append(action);
            Err(m)
        },
        AppRole::Host { .. } => {
            if allow_host {
                Ok(())
            } else {
                let mut m = String::from_str("end the session before you ");
                m.append(action);
                Err(m)
            }
        },
        _ => Ok(()),
    }
}

/// Starts hosting or joining: only without a session, and then the role is
/// `Starting`; otherwise the role stays and the request is refused.
pub fn begin_session(role: &mut AppRole) -> (r: Result<(), String>)
    ensures
        r is Ok <==> *old(role) is Undecided,
        r is Ok ==> *final(role) is Starting,
        r matches Err(m) ==> m@ == "A session is already active"@ && *final(role) == *old(role),
{
    if role.can_initiate_session() {
        *role = AppRole::Starting;
        Ok(())
    } else {
        Err(String::from_str("A session is already active"))
    }
}

/// Completes a join once the websocket is connected: the role becomes the
/// guest of `room_id` when it is still `Starting`; when the start was
/// cancelled meanwhile the role stays and the join is refused as cancelled
/// (the caller then closes the websocket).
pub fn finish_join(role: &mut AppRole, room_id: String, server_url: String) -> (r: Result<(), String>)
    ensures
        r is Ok <==> *old(role) is Starting,
        r is Ok ==> *final(role) == (AppRole::Guest {
            room_id,
            server_url,
            write_access: WriteAccess::Editable,
        }),
        r matches Err(m) ==> m@ == "Join session was cancelled"@ && *final(role) == *old(role),
{
    match role {
        AppRole::Starting => {
            *role = AppRole::Guest { room_id, server_url, write_access: WriteAccess::Editable };
            Ok(())
        },
        _ => Err(String::from_str("Join session was cancelled")),
    }
}

/// A join that failed after it began (the client id could not be read, or
/// the websocket did not open): the session is given up, so the role is
/// back to no session, and the error is passed on.
pub fn join_failed(role: &mut AppRole, error: String) -> (r: String)
    ensures
        *final(role) == AppRole::Undecided,
        r == error,
{
    *role = AppRole::Undecided;
    error
}

/// Whether a gateway that was just spawned may be kept: only while the
/// session is still starting; otherwise the start was called off and the
/// process is stopped.
pub fn may_register_gateway(role: &AppRole) -> (r: bool)
    ensures
        r == (*role is Starting),
{
    match role {
        AppRole::Starting => true,
        _ => false,
    }
}

/// The room a host ends: its id and local room URL; refused when not
/// hosting.
pub fn end_session_target(role: &AppRole) -> (r: Result<(String, String), String>)
    ensures
        r is Ok <==> role is Host,
        r matches Ok((room, url)) ==> role matches AppRole::Host { room_id, local_room_url, .. }
            && room@ == room_id@ && url@ == local_room_url@,
        r matches Err(m) ==> m@ == "Not currently hosting a session"@,
{
    match role {
        AppRole::Host { room_id, local_room_url, .. } => Ok(
            (owned(room_id.as_str()), owned(local_room_url.as_str())),
        ),
        _ => Err(String::from_str("Not currently hosting a session")),
    }
}

/// The guest whose write access the host changes: only a host may, and the
/// target must be a decimal client id.
pub fn permission_target(role: &AppRole, target_client_id: &str) -> (r: Result<u64, String>)
    ensures
        !(role is Host) ==> (r matches Err(m) && m@ == "Only the host can change permissions"@),
        role is Host ==> match parse_u64_spec(target_client_id@) {
            Some(n) => r == Ok::<u64, String>(n),
            None => r matches Err(m) && m@ == "Invalid client id: "@ + target_client_id@,
        },
{
    if !role.is_host() {
        return Err(String::from_str("Only the host can change permissions"));
    }
    match parse_u64(target_client_id) {
        Some(n) => Ok(n),
        None => {
            let mut m = String::from_str("Invalid client id: ");
            m.append(target_client_id);
            Err(m)
        },
    }
}

/// What the frontend is told of the session.
pub struct SessionInfo {
    pub status: String,
    pub lan_url: Option<String>,
    pub public_url: Option<String>,
    pub local_room_url: Option<String>,
    pub public_room_url: Option<String>,
    pub room_id: Option<String>,
}

fn copy_opt(o: &Option<String>) -> (r: Option<String>)
    ensures
        crate::urls::opt_view(r) == crate::urls::opt_view(*o),
{
    match o {
        Some(s) => Some(owned(s.as_str())),
        None => None,
    }
}

/// What the frontend is told of the session: a host tells all its URLs
/// and its room; a guest its server (as the public URL) and its room;
/// otherwise only the status.
pub fn session_info(role: &AppRole) -> (r: SessionInfo)
    ensures
        r.status@ == status_text(*role),
        match *role {
            AppRole::Host { room_id, lan_url, public_url, local_room_url, public_room_url } => {
                &&& crate::urls::opt_view(r.lan_url) == crate::urls::opt_view(lan_url)
                &&& crate::urls::opt_view(r.public_url) == crate::urls::opt_view(public_url)
                &&& crate::urls::opt_view(r.local_room_url) == Some(local_room_url@)
                &&& crate::urls::opt_view(r.public_room_url) == crate::urls::opt_view(public_room_url)
                &&& crate::urls::opt_view(r.room_id) == Some(room_id@)
            },
            AppRole::Guest { room_id, server_url, .. } => {
                &&& r.lan_url is None
                &&& crate::urls::opt_view(r.public_url) == Some(server_url@)
                &&& r.local_room_url is None
                &&& r.public_room_url is None
                &&& crate::urls::opt_view(r.room_id) == Some(room_id@)
            },
            _ => r.lan_url is None && r.public_url is None && r.local_room_url is None
                && r.public_room_url is None && r.room_id is None,
        },
{
    let status = owned(role.status());
    match role {
        AppRole::Host { room_id, lan_url, public_url, local_room_url, public_room_url } => {
            SessionInfo {
                status,
                lan_url: copy_opt(lan_url),
                public_url: copy_opt(public_url),
                local_room_url: Some(owned(local_room_url.as_str())),
                public_room_url: copy_opt(public_room_url),
                room_id: Some(owned(room_id.as_str())),
            }
        },
        AppRole::Guest { room_id, server_url, .. } => SessionInfo {
            status,
            lan_url: None,
            public_url: Some(owned(server_url.as_str())),
            local_room_url: None,
            public_room_url: None,
            room_id: Some(owned(room_id.as_str())),
        },
        _ => SessionInfo {
            status,
            lan_url: None,
            public_url: None,
            local_room_url: None,
            public_room_url: None,
            room_id: None,
        },
    }
}

/// The host's own websocket URL for its room on the local gateway.
pub open spec fn local_room_url_spec(port: u16, room_id: Seq<char>) -> Seq<char> {
    "ws://127.0.0.1:"@ + decimal(port as nat) + "/ws?room="@ + room_id
}

/// `ws://127.0.0.1:{port}/ws?room={room_id}`.
pub fn local_room_url(port: u16, room_id: &str) -> (r: String)
    ensures
        r@ == local_room_url_spec(port, room_id@),
{
    let mut s = String::from_str("ws://127.0.0.1:");
    push_decimal(&mut s, port as u64);
    s.append("/ws?room=");
    s.append(room_id);
    s
}

/// `{public_url}?room={room_id}`: the URL guests join through the tunnel.
pub fn public_room_url(public_url: &str, room_id: &str) -> (r: String)
    ensures
        r@ == public_url@ + "?room="@ + room_id@,
{
    let mut s = owned(public_url);
    s.append("?room=");
    s.append(room_id);
    s
}

/// The host's connection URL: its room URL with its client id.
pub fn host_ws_url(port: u16, room_id: &str, client_id: u64) -> (r: String)
    ensures
        r@ == local_room_url_spec(port, room_id@) + "&client_id="@ + decimal(client_id as nat),
{
    let mut s = local_room_url(port, room_id);
    s.append("&client_id=");
    push_decimal(&mut s, client_id);
    s
}

/// A guest's connection URL: `{server_url}/ws?room={room_id}&client_id={id}`.
pub fn guest_ws_url(server_url: &str, room_id: &str, client_id: u64) -> (r: String)
    ensures
        r@ == server_url@ + "/ws?room="@ + room_id@ + "&client_id="@ + decimal(client_id as nat),
{
    let mut s = owned(server_url);
    s.append("/ws?room=");
    s.append(room_id);
    s.append("&client_id=");
    push_decimal(&mut s, client_id);
    s
}

/// The LAN websocket URL of the gateway: `ws://{ip}:{port}/ws`.
pub fn lan_ws_url(ip: &str, port: u16) -> (r: String)
    ensures
        r@ == "ws://"@ + ip@ + ":"@ + decimal(port as nat) + "/ws"@,
{
    let mut s = String::from_str("ws://");
    s.append(ip);
    s.append(":");
    push_decimal(&mut s, port as u64);
    s.append("/ws");
    s
}

/// Everything a hosted room is reachable through.
pub struct HostSessionSetup {
    pub room_id: String,
    pub port: u16,
    pub lan_url: Option<String>,
    pub public_url: Option<String>,
    pub local_room_url: String,
    pub public_room_url: Option<String>,
}

impl HostSessionSetup {
    /// A hosted room once it is created: the local room
    /// URL on the gateway's port, and the public room URL when a tunnel
    /// runs.
    pub fn new(room_id: String, port: u16, lan_url: Option<String>, public_url: Option<String>) -> (r: HostSessionSetup)
        ensures
            r.room_id@ == room_id@,
            r.port == port,
            crate::urls::opt_view(r.lan_url) == crate::urls::opt_view(lan_url),
            crate::urls::opt_view(r.public_url) == crate::urls::opt_view(public_url),
            r.local_room_url@ == local_room_url_spec(port, room_id@),
            crate::urls::opt_view(r.public_room_url) == match public_url {
                Some(u) => Some(u@ + "?room="@ + room_id@),
                None => None,
            },
    {
        let local = local_room_url(port, room_id.as_str());
        let public_room = match &public_url {
            Some(u) => Some(public_room_url(u.as_str(), room_id.as_str())),
            None => None,
        };
        HostSessionSetup {
            room_id,
            port,
            lan_url,
            public_url,
            local_room_url: local,
            public_room_url: public_room,
        }
    }
}

/// Sent when a hosted room is ready.
#[derive(Clone)]
pub struct SessionReadyPayload {
    pub lan_url: Option<String>,
    pub public_url: Option<String>,
    pub local_room_url: String,
    pub public_room_url: Option<String>,
    pub room_id: String,
    pub port: u16,
}

impl SessionReadyPayload {
    /// The payload announcing `setup`.
    pub fn from_setup(setup: &HostSessionSetup) -> (r: SessionReadyPayload)
        ensures
            crate::urls::opt_view(r.lan_url) == crate::urls::opt_view(setup.lan_url),
            crate::urls::opt_view(r.public_url) == crate::urls::opt_view(setup.public_url),
            r.local_room_url@ == setup.local_room_url@,
            crate::urls::opt_view(r.public_room_url) == crate::urls::opt_view(setup.public_room_url),
            r.room_id@ == setup.room_id@,
            r.port == setup.port,
    {
        SessionReadyPayload {
            lan_url: copy_opt(&setup.lan_url),
            public_url: copy_opt(&setup.public_url),
            local_room_url: owned(setup.local_room_url.as_str()),
            public_room_url: copy_opt(&setup.public_room_url),
            room_id: owned(setup.room_id.as_str()),
            port: setup.port,
        }
    }
}

/// Sent when a guest's write access changes.
#[derive(Clone)]
pub struct CanWritePayload {
    pub can_write: bool,
}

/// Sent when the host's processes stopped.
#[derive(Clone)]
pub struct ProcessesStoppedPayload {}

/// Sent when the session ended.
#[derive(Clone)]
pub struct SessionEndedPayload {}

/// Sent when the websocket disconnected.
#[derive(Clone)]
pub struct SessionDisconnectedPayload {}

/// Sent when the session failed.
#[derive(Clone)]
pub struct SessionErrorPayload {
    pub message: String,
}

/// Sent when the gateway is ready.
#[derive(Clone)]
pub struct GatewayReadyPayload {
    pub lan_url: Option<String>,
    pub room_id: String,
    pub port: u16,
}

/// Sent when the tunnel is ready.
#[derive(Clone)]
pub struct TunnelReadyPayload {
    pub public_url: String,
    pub room_id: String,
}

/// The role after an attempt to begin a session.
pub open spec fn begin_spec(role: AppRole) -> AppRole {
    if role is Undecided {
        AppRole::Starting
    } else {
        role
    }
}

/// A session cannot be started twice: after one start succeeded, a second
/// start is refused until the role is reset.
pub proof fn law_no_second_start(role: AppRole)
    requires
        role is Undecided,
    ensures
        begin_spec(role) is Starting,
        !(begin_spec(begin_spec(role)) is Undecided),
        begin_spec(begin_spec(role)) == begin_spec(role),
{
}

/// A guest may never swap the document, whatever the command allows; without
/// a session every swap is allowed.
pub proof fn law_doc_swap_by_role(role: AppRole, action: Seq<char>, allow_host: bool)
    ensures
        role is Guest ==> doc_swap_refusal(role, action, allow_host) is Some,
        (role is Undecided || role is Starting) ==> doc_swap_refusal(role, action, allow_host) is None,
        role is Host ==> (doc_swap_refusal(role, action, allow_host) is None <==> allow_host),
{
}

} // verus!
