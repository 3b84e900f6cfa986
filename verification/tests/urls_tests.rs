use peercode::urls::{end_session_url_from_room_url, parse_join_url, rooms_url};

#[test]
fn parses_default_ws_endpoint() {
    let info = parse_join_url("wss://example.com/ws?room=abc".to_string()).unwrap();
    assert_eq!(info.server_url, "wss://example.com");
    assert_eq!(info.room_id, "abc");
}

#[test]
fn parses_custom_path_endpoint() {
    let info = parse_join_url("wss://example.com/custom/ws?room=abc".to_string()).unwrap();
    assert_eq!(info.server_url, "wss://example.com/custom");
    assert_eq!(info.room_id, "abc");
}

#[test]
fn rejects_empty_host() {
    let result = parse_join_url("ws://?room=abc".to_string());
    assert!(
        matches!(result, Err(err) if err.contains("missing host") || err.contains("Invalid URL"))
    );
}

#[test]
fn rejects_missing_room_param() {
    let result = parse_join_url("wss://example.com/ws?foo=abc".to_string());
    assert!(matches!(result, Err(err) if err.contains("missing the ?room=")));
}

#[test]
fn keeps_an_explicit_port_and_drops_trailing_slashes() {
    let info = parse_join_url("ws://10.0.0.5:8080/ws/?room=r1".to_string()).unwrap();
    assert_eq!(info.server_url, "ws://10.0.0.5:8080");
    assert_eq!(info.room_id, "r1");
    let info = parse_join_url("wss://host.example/a/b/?room=x&room=y".to_string()).unwrap();
    assert_eq!(info.server_url, "wss://host.example/a/b");
    assert_eq!(info.room_id, "x");
}

#[test]
fn a_root_base_path_is_left_out() {
    let info = parse_join_url("ws://h//ws?room=r".to_string()).unwrap();
    assert_eq!(info.server_url, "ws://h");
    let info = parse_join_url("ws://h/?room=r".to_string()).unwrap();
    assert_eq!(info.server_url, "ws://h");
    let info = parse_join_url("ws://h:81///?room=r".to_string()).unwrap();
    assert_eq!(info.server_url, "ws://h:81");
}

#[test]
fn rejects_other_schemes_and_blank_rooms() {
    assert_eq!(
        parse_join_url("https://example.com/ws?room=abc".to_string()).unwrap_err(),
        "Invalid URL: must begin with ws:// or wss://"
    );
    assert_eq!(
        parse_join_url("wss://example.com/ws?room=%20".to_string()).unwrap_err(),
        "URL is missing the ?room= parameter"
    );
    assert!(parse_join_url("not a url".to_string()).unwrap_err().starts_with("Invalid URL: "));
}

#[test]
fn end_session_url_uses_the_room_and_port() {
    assert_eq!(
        end_session_url_from_room_url("ws://127.0.0.1:8080/ws?room=abc").unwrap(),
        "http://127.0.0.1:8080/end-session?room=abc"
    );
    assert_eq!(
        end_session_url_from_room_url("wss://tunnel.example/ws?room=z").unwrap(),
        "http://127.0.0.1:443/end-session?room=z"
    );
    assert_eq!(
        end_session_url_from_room_url("ws://127.0.0.1:8080/ws").unwrap_err(),
        "room URL is missing room query parameter"
    );
    assert!(end_session_url_from_room_url("::").unwrap_err().starts_with("invalid room URL: "));
}

#[test]
fn rooms_url_is_on_loopback() {
    assert_eq!(rooms_url(5173), "http://127.0.0.1:5173/rooms");
}
