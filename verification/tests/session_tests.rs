use peercode::session::{
    begin_session, deny_doc_swap, end_session_target, finish_join, guest_ws_url, host_ws_url,
    join_failed, may_register_gateway,
    lan_ws_url, local_room_url, note_local_edit, permission_target, public_room_url,
    session_info, AppRole, HostSessionSetup, SessionReadyPayload, WriteAccess,
    SNAPSHOT_REFRESH_INTERVAL,
};

fn guest_role() -> AppRole {
    AppRole::Guest {
        room_id: "r".into(),
        server_url: "ws://x".into(),
        write_access: WriteAccess::Editable,
    }
}

fn host_role() -> AppRole {
    AppRole::Host {
        room_id: "r".into(),
        lan_url: None,
        public_url: None,
        local_room_url: "ws://l".into(),
        public_room_url: None,
    }
}

#[test]
fn doc_swap_denied_for_guest_regardless_of_allow_host() {
    let err = deny_doc_swap(&guest_role(), "open a file", true).unwrap_err();
    assert_eq!(err, "leave the session before you open a file");
    assert!(deny_doc_swap(&guest_role(), "fork the document", false).is_err());
}

#[test]
fn doc_swap_host_allowed_only_when_flagged() {
    assert!(deny_doc_swap(&host_role(), "open a file", true).is_ok());
    let err = deny_doc_swap(&host_role(), "reset the document", false).unwrap_err();
    assert_eq!(err, "end the session before you reset the document");
}

#[test]
fn doc_swap_allowed_out_of_session() {
    for role in [AppRole::Undecided, AppRole::Starting] {
        assert!(deny_doc_swap(&role, "open a file", false).is_ok());
    }
}

#[test]
fn a_second_session_cannot_start() {
    let mut role = AppRole::Undecided;
    assert!(begin_session(&mut role).is_ok());
    assert!(matches!(role, AppRole::Starting));
    assert_eq!(begin_session(&mut role).unwrap_err(), "A session is already active");
    assert!(matches!(role, AppRole::Starting));
    let mut host = host_role();
    assert!(begin_session(&mut host).is_err());
    assert!(host.is_host());
}

#[test]
fn join_completes_only_while_starting() {
    let mut role = AppRole::Starting;
    assert!(finish_join(&mut role, "abc".to_string(), "wss://h".to_string()).is_ok());
    match &role {
        AppRole::Guest { room_id, server_url, write_access } => {
            assert_eq!(room_id, "abc");
            assert_eq!(server_url, "wss://h");
            assert_eq!(*write_access, WriteAccess::Editable);
        }
        _ => panic!("expected a guest"),
    }
    let mut idle = AppRole::Undecided;
    assert_eq!(
        finish_join(&mut idle, "abc".to_string(), "wss://h".to_string()).unwrap_err(),
        "Join session was cancelled"
    );
    assert!(matches!(idle, AppRole::Undecided));
}

#[test]
fn a_failed_join_gives_up_the_session() {
    let mut role = AppRole::Starting;
    assert_eq!(join_failed(&mut role, "no socket".to_string()), "no socket");
    assert!(matches!(role, AppRole::Undecided));
}

#[test]
fn a_gateway_is_kept_only_while_starting() {
    assert!(may_register_gateway(&AppRole::Starting));
    assert!(!may_register_gateway(&AppRole::Undecided));
    assert!(!may_register_gateway(&host_role()));
}

#[test]
fn role_status_texts() {
    assert_eq!(AppRole::Undecided.status(), "idle");
    assert_eq!(AppRole::Starting.status(), "starting");
    assert_eq!(host_role().status(), "host");
    assert_eq!(guest_role().status(), "guest");
    assert!(AppRole::Undecided.can_initiate_session());
    assert!(!AppRole::Starting.can_initiate_session());
    assert!(guest_role().is_guest());
}

#[test]
fn ending_a_session_needs_a_host() {
    assert_eq!(end_session_target(&host_role()).unwrap(), ("r".to_string(), "ws://l".to_string()));
    assert!(end_session_target(&guest_role()).is_err());
    assert!(end_session_target(&AppRole::Undecided).is_err());
}

#[test]
fn permission_target_is_a_host_decision_on_a_numeric_id() {
    assert_eq!(permission_target(&host_role(), "42"), Ok(42));
    assert!(permission_target(&host_role(), "4x2").is_err());
    assert!(permission_target(&guest_role(), "42").is_err());
}

#[test]
fn room_urls() {
    assert_eq!(local_room_url(8080, "abc"), "ws://127.0.0.1:8080/ws?room=abc");
    assert_eq!(public_room_url("wss://t.trycloudflare.com/ws", "abc"), "wss://t.trycloudflare.com/ws?room=abc");
    assert_eq!(host_ws_url(9, "r1", 77), "ws://127.0.0.1:9/ws?room=r1&client_id=77");
    assert_eq!(guest_ws_url("wss://example.com", "abc", 5), "wss://example.com/ws?room=abc&client_id=5");
    assert_eq!(lan_ws_url("192.168.1.2", 4000), "ws://192.168.1.2:4000/ws");
}

#[test]
fn session_info_of_roles() {
    let idle = session_info(&AppRole::Undecided);
    assert_eq!(idle.status, "idle");
    assert!(idle.room_id.is_none());
    let host = session_info(&host_role());
    assert_eq!(host.status, "host");
    assert_eq!(host.room_id.as_deref(), Some("r"));
}

#[test]
fn host_setup_payload_carries_the_urls() {
    let setup = HostSessionSetup::new("abc".to_string(), 8080, Some("ws://10.0.0.2:8080/ws".to_string()), None);
    assert_eq!(setup.local_room_url, "ws://127.0.0.1:8080/ws?room=abc");
    assert!(setup.public_room_url.is_none());
    let payload = SessionReadyPayload::from_setup(&setup);
    assert_eq!(payload.room_id, "abc");
    assert_eq!(payload.local_room_url, setup.local_room_url);
}

#[test]
fn snapshot_goes_out_on_every_hundredth_host_edit() {
    let host = host_role();
    let mut n: u32 = 0;
    let mut sent = 0;
    for _ in 0..(2 * SNAPSHOT_REFRESH_INTERVAL) {
        let (next, send) = note_local_edit(&host, n);
        if send {
            sent += 1;
        }
        n = next;
    }
    assert_eq!(sent, 2);
    assert_eq!(n, 0);
    assert_eq!(note_local_edit(&host, 98), (99, false));
    assert_eq!(note_local_edit(&host, 99), (0, true));
    assert_eq!(note_local_edit(&guest_role(), 99), (99, false));
}
