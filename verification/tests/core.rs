use appwatch::address::{ip_string, socket_string, IpAddress, SocketAddress};
use appwatch::correlation::{time_difference, TrafficCorrelator, DEFAULT_CORRELATION_WINDOW};
use appwatch::model::{
    is_sensitive_header_name, redact_headers, ConnectionDirection, HttpHeader, HttpRequestInfo,
    IpVersion, NetworkConnection, NetworkProtocol, ProcessInfo,
};

const SECOND: i128 = 1_000_000_000;
const WINDOW: i128 = DEFAULT_CORRELATION_WINDOW as i128;

fn header(name: &str, value: &str) -> HttpHeader {
    HttpHeader { name: name.into(), value: value.into() }
}

fn test_request(started_at: i128) -> HttpRequestInfo {
    HttpRequestInfo {
        id: 1,
        connection_id: None,
        process: None,
        method: "GET".into(),
        scheme: "http".into(),
        host: "example.com".into(),
        path: "/".into(),
        request_headers: Vec::new(),
        request_body: None,
        request_body_size: 0,
        status_code: None,
        response_headers: Vec::new(),
        response_body: None,
        response_body_size: None,
        started_at,
        duration_ms: None,
        ja4: None,
    }
}

fn client_connection(id: u64, process: Option<ProcessInfo>) -> NetworkConnection {
    NetworkConnection {
        id,
        process,
        protocol: NetworkProtocol::TCP,
        ip_version: IpVersion::V4,
        direction: ConnectionDirection::Outbound,
        local_ip: IpAddress::v4(127, 0, 0, 1),
        local_port: 50_000,
        remote_ip: IpAddress::v4(93, 184, 216, 34),
        remote_port: 80,
        hostname: Some("example.com".into()),
        bytes_sent: 100,
        bytes_received: 200,
    }
}

fn local() -> SocketAddress {
    SocketAddress { ip: IpAddress::v4(127, 0, 0, 1), port: 50_000 }
}

fn remote() -> SocketAddress {
    SocketAddress { ip: IpAddress::v4(93, 184, 216, 34), port: 80 }
}

#[test]
fn process_and_destination_formatting_are_stable() {
    let process = ProcessInfo::new(14_280, "Discord.exe".into(), None);
    assert_eq!(process.to_display_string(), "Discord.exe [PID: 14280]");

    let mut connection = NetworkConnection {
        id: 1,
        process: Some(process),
        protocol: NetworkProtocol::TCP,
        ip_version: IpVersion::V4,
        direction: ConnectionDirection::Outbound,
        local_ip: IpAddress::v4(127, 0, 0, 1),
        local_port: 50_000,
        remote_ip: IpAddress::V6(1),
        remote_port: 443,
        hostname: None,
        bytes_sent: 0,
        bytes_received: 0,
    };

    assert_eq!(connection.remote_address(), "[::1]:443");
    connection.hostname = Some("discord.com".into());
    assert_eq!(connection.display_destination(), "discord.com:443");
}

#[test]
fn redaction_and_unique_correlation_do_not_guess() {
    let headers = vec![header("Authorization", "secret"), header("Accept", "application/json")];
    let redacted = redact_headers(&headers);
    assert_eq!(redacted[0].value, "[REDACTED]");
    assert_eq!(headers[0].value, "secret");

    let now = 10 * SECOND;
    let process = ProcessInfo::new(42, "client.exe".into(), None);
    let connection = client_connection(7, Some(process.clone()));
    let mut correlator = TrafficCorrelator::default();
    correlator.observe_connection(connection, now);
    let mut request = test_request(now);

    assert!(correlator.correlate_http_request(&mut request, NetworkProtocol::TCP, local(), remote(), now));
    assert_eq!(request.connection_id, Some(7));
    assert_eq!(request.process, Some(process.clone()));

    let duplicate = client_connection(8, Some(process));
    correlator.observe_connection(duplicate, now);
    let mut ambiguous_request = test_request(now);
    assert!(!correlator.correlate_http_request(
        &mut ambiguous_request,
        NetworkProtocol::TCP,
        local(),
        remote(),
        now,
    ));
    assert!(ambiguous_request.process.is_none());
}

#[test]
fn redaction_keeps_names_and_other_values() {
    let headers = vec![
        header("COOKIE", "a=b"),
        header("Set-Cookie", "c=d"),
        header("proxy-authorization", "Basic x"),
        header("Accept", "text/html"),
    ];
    let redacted = redact_headers(&headers);
    assert_eq!(redacted.len(), 4);
    for (before, after) in headers.iter().zip(redacted.iter()) {
        assert_eq!(before.name, after.name);
    }
    assert_eq!(redacted[0].value, "[REDACTED]");
    assert_eq!(redacted[1].value, "[REDACTED]");
    assert_eq!(redacted[2].value, "[REDACTED]");
    assert_eq!(redacted[3].value, "text/html");
    assert_eq!(redact_headers(&redacted), redacted);
    assert!(is_sensitive_header_name("Authorization"));
    assert!(!is_sensitive_header_name("authorisation"));
}

#[test]
fn correlation_needs_a_known_process_and_the_window() {
    let now = 100 * SECOND;
    let mut correlator = TrafficCorrelator::new(DEFAULT_CORRELATION_WINDOW);
    correlator.observe_connection(client_connection(3, None), now);
    let mut request = test_request(now);
    assert!(!correlator.correlate_http_request(&mut request, NetworkProtocol::TCP, local(), remote(), now));

    let process = ProcessInfo::new(9, "app.exe".into(), Some("C:\\app.exe".into()));
    correlator.observe_connection(client_connection(3, Some(process.clone())), now);
    let mut late = test_request(now);
    assert!(!correlator.correlate_http_request(
        &mut late,
        NetworkProtocol::TCP,
        local(),
        remote(),
        now + WINDOW + 1,
    ));
    assert!(!correlator.correlate_http_request(&mut late, NetworkProtocol::UDP, local(), remote(), now));
    assert!(correlator.correlate_http_request(
        &mut late,
        NetworkProtocol::TCP,
        local(),
        remote(),
        now - WINDOW,
    ));
    assert_eq!(late.connection_id, Some(3));
    assert_eq!(late.process, Some(process));
}

#[test]
fn time_difference_is_symmetric() {
    assert_eq!(time_difference(5, 3), 2);
    assert_eq!(time_difference(3, 5), 2);
    assert_eq!(time_difference(-4, 3), 7);
    assert_eq!(time_difference(i128::MIN, i128::MAX), u128::MAX);
    assert_eq!(time_difference(i128::MAX, i128::MIN), u128::MAX);
    assert_eq!(time_difference(-10, -3), 7);
}

#[test]
fn addresses_are_written_as_std_writes_them() {
    assert_eq!(ip_string(IpAddress::v4(192, 168, 1, 10)), "192.168.1.10");
    assert_eq!(ip_string(IpAddress::V6(0)), "::");
    assert_eq!(ip_string(IpAddress::V6(1)), "::1");
    assert_eq!(ip_string(IpAddress::V6(0xffff_0102_0304)), "::ffff:1.2.3.4");
    assert_eq!(
        ip_string(IpAddress::V6(0x2001_0db8_0000_0000_0001_0000_0000_0001)),
        "2001:db8::1:0:0:1"
    );
    assert_eq!(ip_string(IpAddress::V6(0x2001_0db8_0001_0001_0001_0001_0001_0001)), "2001:db8:1:1:1:1:1:1");
    assert_eq!(ip_string(IpAddress::V6(0x2001_0db8_0000_0001_0001_0001_0001_0001)), "2001:db8:0:1:1:1:1:1");
    assert_eq!(socket_string(IpAddress::v4(127, 0, 0, 1), 8877), "127.0.0.1:8877");
    assert_eq!(socket_string(IpAddress::V6(1), 443), "[::1]:443");
}

#[test]
fn request_url_joins_scheme_host_and_path() {
    let mut request = test_request(0);
    request.path = "/a?b=c".into();
    assert_eq!(request.display_url(), "http://example.com/a?b=c");
}
