use appwatch::address::{IpAddress, SocketAddress};
use appwatch::model::HttpHeader;
use appwatch::proxy::{
    connect_plan, default_proxy_address, is_proxy_only_header, is_upgrade_request,
    missing_connect_target_text, observed_header, proxy_error_text, request_record,
    request_target, requires_tls_passthrough, tunnels_upgrade, ConnectPlan, ProxyEvent,
    DEFAULT_PROXY_PORT, MAX_BODY_BYTES,
};

fn header(name: &str, value: &str) -> HttpHeader {
    HttpHeader { name: name.into(), value: value.into() }
}

#[test]
fn discord_gateway_bypasses_tls_inspection() {
    assert!(requires_tls_passthrough("gateway.discord.gg"));
    assert!(requires_tls_passthrough("GATEWAY.DISCORD.GG"));
    assert!(!requires_tls_passthrough("discord.com"));
}

#[test]
fn connect_requests_are_inspected_unless_passed_through() {
    assert_eq!(connect_plan(true, "example.com"), ConnectPlan::Inspect);
    assert_eq!(connect_plan(true, "Gateway.Discord.gg"), ConnectPlan::Tunnel);
    assert_eq!(connect_plan(false, "example.com"), ConnectPlan::Tunnel);
    assert_eq!(missing_connect_target_text(), "CONNECT target is missing");
    assert_eq!(proxy_error_text("timed out"), "proxy error: timed out");
}

#[test]
fn default_address_is_local_port_8877() {
    let address = default_proxy_address();
    assert_eq!(address, SocketAddress { ip: IpAddress::v4(127, 0, 0, 1), port: DEFAULT_PROXY_PORT });
    assert_eq!(DEFAULT_PROXY_PORT, 8877);
    assert_eq!(MAX_BODY_BYTES, 16 * 1024 * 1024);
}

#[test]
fn upgrade_needs_both_headers_and_the_upgrade_option() {
    let websocket = vec![header("connection", "keep-alive, Upgrade"), header("upgrade", "websocket")];
    assert!(is_upgrade_request(&websocket));
    let spaced = vec![header("Upgrade", "h2c"), header("Connection", " upgrade ")];
    assert!(is_upgrade_request(&spaced));
    let no_upgrade_header = vec![header("connection", "Upgrade")];
    assert!(!is_upgrade_request(&no_upgrade_header));
    let other_option = vec![header("connection", "keep-alive, upgraded"), header("upgrade", "websocket")];
    assert!(!is_upgrade_request(&other_option));
    let binary = vec![observed_header("connection", None), header("upgrade", "websocket")];
    assert!(!is_upgrade_request(&binary));
    assert!(!is_upgrade_request(&[]));
}

#[test]
fn observed_headers_mark_binary_values() {
    assert_eq!(observed_header("x-data", None), header("x-data", "<binary>"));
    assert_eq!(observed_header("accept", Some("*/*")), header("accept", "*/*"));
    assert!(is_proxy_only_header("Proxy-Authorization"));
    assert!(is_proxy_only_header("proxy-connection"));
    assert!(!is_proxy_only_header("authorization"));
}

#[test]
fn request_target_prefers_the_request_line() {
    let target = request_target(
        Some("example.com:8080"),
        Some("ignored.test"),
        None,
        None,
        Some("http"),
        Some("/hello?x=1"),
    )
    .unwrap();
    assert_eq!(target.host, "example.com:8080");
    assert_eq!(target.scheme, "http");
    assert_eq!(target.path, "/hello?x=1");
    assert_eq!(target.uri, "http://example.com:8080/hello?x=1");

    let inside_tunnel = request_target(None, None, Some("secure.test:443"), Some("https"), None, None).unwrap();
    assert_eq!(inside_tunnel.uri, "https://secure.test:443/");

    let from_header = request_target(None, Some("host.test"), Some("tunnel.test"), None, None, Some("/p")).unwrap();
    assert_eq!(from_header.uri, "http://host.test/p");

    let missing = request_target(None, None, None, None, None, Some("/"));
    assert_eq!(missing.err(), Some("request host is missing".to_string()));
}

#[test]
fn only_switching_protocols_after_an_upgrade_request_tunnels() {
    assert!(tunnels_upgrade(101, true));
    assert!(!tunnels_upgrade(101, false));
    assert!(!tunnels_upgrade(200, true));
}

#[test]
fn records_redact_headers_and_keep_bodies_only_when_asked() {
    let target = request_target(Some("example.test"), None, None, None, Some("http"), Some("/hello")).unwrap();
    let record = request_record(
        5,
        "GET".into(),
        target,
        &[header("Authorization", "secret"), header("Accept", "*/*")],
        b"ping".to_vec(),
        false,
        200,
        &[header("Set-Cookie", "id=1")],
        b"upstream".to_vec(),
        1_000,
        12,
    );
    assert_eq!(record.id, 5);
    assert_eq!(record.path, "/hello");
    assert_eq!(record.status_code, Some(200));
    assert_eq!(record.request_headers[0].value, "[REDACTED]");
    assert_eq!(record.request_headers[1].value, "*/*");
    assert_eq!(record.response_headers[0].value, "[REDACTED]");
    assert_eq!(record.request_body, None);
    assert_eq!(record.request_body_size, 4);
    assert_eq!(record.response_body, None);
    assert_eq!(record.response_body_size, Some(8));
    assert_eq!(record.duration_ms, Some(12));
    assert!(record.process.is_none() && record.connection_id.is_none());

    let target = request_target(Some("example.test"), None, None, None, None, None).unwrap();
    let captured = request_record(6, "POST".into(), target, &[], b"a".to_vec(), true, 204, &[], Vec::new(), 0, 0);
    assert_eq!(captured.request_body, Some(b"a".to_vec()));
    assert_eq!(captured.response_body, Some(Vec::new()));
    let event = ProxyEvent { client_address: default_proxy_address(), request: captured };
    let copy = event.clone();
    assert_eq!(copy.request, event.request);
}
