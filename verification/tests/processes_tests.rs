use peercode::config::{normalize_level, LevelFilter, LoggingConfig, WebsocketConfig};
use peercode::identity::{sanitize_username, MAX_USERNAME_LEN};
use peercode::processes::{
    after_gateway, after_tunnel, cloudflared_args, extract_tunnel_url, gateway_exit_error,
    gateway_port_from_line, gateway_token_of, generate_gateway_token, public_ws_url, tunnel_exit_error,
    tunnel_metrics_url, tunnel_origin_url, GatewayStart, ProcessStatusResponse, SidecarStatus,
    TunnelMetricsEventPayload, TunnelMetricsResponse, TunnelStart,
};
use peercode::session::AppRole;

fn logging(tauri: &str, gateway: &str, tunnel: &str) -> LoggingConfig {
    LoggingConfig {
        show_gateway_logs: false,
        show_cloudflared_logs: false,
        tauri_file_logs: false,
        tauri_log_level: tauri.to_string(),
        gateway_log_level: gateway.to_string(),
        tunnel_log_level: tunnel.to_string(),
    }
}

#[test]
fn gateway_token_is_64_lower_hex_digits() {
    let t = generate_gateway_token().unwrap();
    assert_eq!(t.len(), 64);
    assert!(t.chars().all(|c| c.is_ascii_digit() || ('a'..='f').contains(&c)));
    assert_ne!(t, generate_gateway_token().unwrap());
}

#[test]
fn gateway_token_is_the_hex_of_its_bytes() {
    let mut bytes = [0u8; 32];
    for (i, b) in bytes.iter_mut().enumerate() {
        *b = (i as u8) * 8;
    }
    assert_eq!(
        gateway_token_of(&bytes),
        "0008101820283038404850586068707880889098a0a8b0b8c0c8d0d8e0e8f0f8"
    );
    assert_eq!(gateway_token_of(&[255u8; 32]), "ff".repeat(32));
}

#[test]
fn gateway_port_is_read_from_a_json_line() {
    assert_eq!(gateway_port_from_line("  {\"port\": 8123, \"x\": 1}\n"), Some(8123));
    assert_eq!(gateway_port_from_line("{\"port\": 65537}"), Some(1));
    assert_eq!(gateway_port_from_line("{\"port\": -1}"), None);
    assert_eq!(gateway_port_from_line("listening on 8123"), None);
    assert_eq!(gateway_port_from_line("{\"other\": 1}"), None);
}

#[test]
fn cloudflared_is_started_against_the_gateway() {
    assert_eq!(tunnel_origin_url(8123), "http://localhost:8123");
    assert_eq!(tunnel_metrics_url("127.0.0.1:40000"), "http://127.0.0.1:40000/metrics");
    assert_eq!(
        cloudflared_args(8123, "info", "127.0.0.1:40000"),
        vec![
            "tunnel",
            "--url",
            "http://localhost:8123",
            "--no-autoupdate",
            "--loglevel",
            "info",
            "--http2-origin=false",
            "--metrics",
            "127.0.0.1:40000"
        ]
    );
}

#[test]
fn tunnel_url_is_found_in_cloudflared_output() {
    let line = "2024-01-01T00:00:00Z INF |  https://quiet-sun-1234.trycloudflare.com                |";
    assert_eq!(
        extract_tunnel_url(line),
        Some("https://quiet-sun-1234.trycloudflare.com".to_string())
    );
    assert_eq!(extract_tunnel_url("see https://example.com/docs"), None);
    assert_eq!(extract_tunnel_url("no url here"), None);
    assert_eq!(
        extract_tunnel_url("x http://a.trycloudflare.com\x1b[0m"),
        Some("http://a.trycloudflare.com".to_string())
    );
}

#[test]
fn public_ws_url_swaps_the_scheme() {
    assert_eq!(public_ws_url("https://a.trycloudflare.com"), "wss://a.trycloudflare.com/ws");
    assert_eq!(public_ws_url("http://a.trycloudflare.com"), "ws://a.trycloudflare.com/ws");
}

#[test]
fn launch_steps() {
    let base = after_gateway(GatewayStart::Started {
        port: 9000,
        lan_url: Some("ws://10.0.0.2:9000/ws".to_string()),
        gateway_auth_token: "t".to_string(),
    })
    .unwrap();
    assert_eq!(base.port, 9000);
    assert!(base.public_url.is_none());
    assert_eq!(after_gateway(GatewayStart::NotStarted).unwrap_err(), "Gateway did not start");
    assert_eq!(after_gateway(GatewayStart::Failed("boom".to_string())).unwrap_err(), "boom");

    let full = after_tunnel(base.clone(), TunnelStart::Started { public_url: "wss://p/ws".to_string() }).unwrap();
    assert_eq!(full.public_url.as_deref(), Some("wss://p/ws"));
    assert_eq!(full.gateway_auth_token, "t");
    let lan_only = after_tunnel(base.clone(), TunnelStart::NotStarted).unwrap();
    assert!(lan_only.public_url.is_none());
    assert_eq!(after_tunnel(base, TunnelStart::Failed("no".to_string())).unwrap_err(), "no");
}

#[test]
fn process_exits_before_announcing() {
    assert_eq!(
        gateway_exit_error(&AppRole::Starting).as_deref(),
        Some("Gateway exited before reporting its port")
    );
    assert!(gateway_exit_error(&AppRole::Undecided).is_none());
    let host = AppRole::Host {
        room_id: "r".into(),
        lan_url: None,
        public_url: None,
        local_room_url: "ws://l".into(),
        public_room_url: None,
    };
    assert_eq!(
        tunnel_exit_error(&host).as_deref(),
        Some("cloudflared exited without producing a tunnel URL")
    );
    assert!(tunnel_exit_error(&AppRole::Starting).is_none());
}

#[test]
fn status_and_metrics_payloads() {
    let s = ProcessStatusResponse::from_statuses(Some(SidecarStatus::Enabled), None);
    assert_eq!(s.gateway, SidecarStatus::Enabled);
    assert_eq!(s.tunnel, SidecarStatus::Disabled);
    let m = TunnelMetricsResponse { ha_connections: 1, register_successes: 0, request_errors: 0, edge_location: None };
    let ok = TunnelMetricsEventPayload::from_result(Ok(m.clone()));
    assert_eq!(ok.metrics, Some(m));
    assert!(ok.error.is_none());
    let err = TunnelMetricsEventPayload::from_result(Err("down".to_string()));
    assert!(err.metrics.is_none());
    assert_eq!(err.error.as_deref(), Some("down"));
}

#[test]
fn log_levels_are_normalized() {
    assert_eq!(normalize_level(" WARNING "), "warn");
    assert_eq!(normalize_level("Trace"), "trace");
    assert_eq!(normalize_level("verbose"), "info");
    let l = logging(" Debug", "warning", "off");
    assert_eq!(l.level_filter(), LevelFilter::Debug);
    assert_eq!(l.gateway_level_for_env(), "warn");
    assert_eq!(l.tunnel_level_for_arg(), "error");
    assert_eq!(logging("nonsense", "", "TRACE").level_filter(), LevelFilter::Info);
    assert_eq!(logging("off", "", "TRACE").tunnel_level_for_arg(), "debug");
    assert_eq!(logging("off", "", "error").level_filter(), LevelFilter::Off);
}

#[test]
fn connect_timeout_is_in_milliseconds() {
    let w = WebsocketConfig { connect_timeout_ms: 1500 };
    assert_eq!(w.connect_timeout(), std::time::Duration::from_millis(1500));
}

#[test]
fn usernames_are_cleaned() {
    assert_eq!(sanitize_username("  Ada\u{7}  "), Some("Ada".to_string()));
    assert_eq!(sanitize_username(" \t\n"), None);
    assert_eq!(sanitize_username(""), None);
    let long: String = "x".repeat(40);
    assert_eq!(sanitize_username(&long).unwrap().chars().count(), MAX_USERNAME_LEN);
    assert_eq!(sanitize_username("a\u{0}b"), Some("ab".to_string()));
}
