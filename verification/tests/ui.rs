use std::collections::HashMap;

use appwatch::address::{IpAddress, SocketAddress};
use appwatch::correlation::TrafficCorrelator;
use appwatch::model::{
    CapturedPacket, ConnectionDirection, HttpHeader, HttpRequestInfo, IpVersion, NetworkConnection,
    NetworkEvent as CoreEvent, NetworkProtocol, ProcessInfo,
};
use appwatch::system::RelaunchSummary;
use appwatch::ui::application::{
    empty_table_message, fingerprint_status, ja4_text, row_url, transport_label,
    format_time, header_rows, is_probably_text, matches_filter, traffic_summary, validate_filter,
    AppState, DetailTab,
};
use appwatch::ui::domain::{EventKind, NetworkEvent, Process};
use appwatch::ui::runtime::{
    certificate_install_arguments, find_process, handle_network_event, handle_network_event_at,
    kind_of_protocol, packet_endpoints, prioritise_processes, proxy_listening_message, proxy_url,
    relaunch_failure_message, relaunch_summary_message, relaunched_pid_message, socket_query,
    to_ui_connection, to_ui_http, to_ui_processes, trust_failure_message, RuntimeEvent,
};

fn row(id: u64, pid: Option<u32>, kind: EventKind) -> NetworkEvent {
    NetworkEvent {
        id,
        pid,
        process: "client.exe".into(),
        method: "GET".into(),
        host: "example.com".into(),
        path: "/".into(),
        status: Some(200),
        kind,
        bytes_sent: 100,
        bytes_received: 200,
        packet_count: 2,
        duration_ms: Some(10),
        local: "127.0.0.1:50000".into(),
        remote: "93.184.216.34:443".into(),
        request_headers: Vec::new(),
        response_headers: Vec::new(),
        request_body: None,
        response_body: None,
        ja4: None,
        ja4_outlier: false,
    }
}

fn process(pid: u32, name: &str, application: bool) -> Process {
    Process { pid, name: name.into(), active: true, application, icon_rgba: None }
}

fn connection(id: u64) -> NetworkConnection {
    NetworkConnection {
        id,
        process: None,
        protocol: NetworkProtocol::TCP,
        ip_version: IpVersion::V4,
        direction: ConnectionDirection::Outbound,
        local_ip: IpAddress::v4(127, 0, 0, 1),
        local_port: 50_000,
        remote_ip: IpAddress::v4(1, 1, 1, 1),
        remote_port: 443,
        hostname: None,
        bytes_sent: 100,
        bytes_received: 200,
    }
}

#[test]
fn filter_combines_terms_and_reports_invalid_values() {
    let event = row(1, Some(42), EventKind::Https);
    assert!(matches_filter(&event, "process:client.exe protocol:https port:443"));
    assert!(!matches_filter(&event, "method:POST"));
    assert!(validate_filter("port:not-a-number").is_err());
    assert!(validate_filter("owner:me").is_err());
}

#[test]
fn filter_messages_name_the_faulty_term() {
    assert_eq!(
        validate_filter("host:a Owner:me port:x"),
        Err("Unknown filter ‘Owner’. Try host:, method:, protocol: or port:.".to_string())
    );
    assert_eq!(validate_filter("status:abc"), Err("‘abc’ is not a valid status number.".to_string()));
    assert_eq!(validate_filter("PORT:70000"), Err("‘70000’ is not a valid PORT number.".to_string()));
    assert_eq!(validate_filter("free text status:404"), Ok(()));
    let event = row(1, Some(42), EventKind::Https);
    assert!(matches_filter(&event, ""));
    assert!(matches_filter(&event, "  \t "));
    assert!(matches_filter(&event, "EXAMPLE status:200 ip:93.184 method:get"));
    assert!(!matches_filter(&event, "status:404"));
    assert!(!matches_filter(&event, "owner:me"));
}

#[test]
fn binary_responses_require_explicit_reveal() {
    assert!(is_probably_text(br#"{"status":"ok"}"#));
    assert!(!is_probably_text(&[0x1f, 0x8b, 0x08, 0x00, 0xff, 0x00]));
}

#[test]
fn text_probe_allows_line_breaks_and_checks_only_the_start() {
    assert!(is_probably_text(b"line one\r\n\tline two"));
    assert!(!is_probably_text(b"bell\x07"));
    let mut long = vec![b'a'; 4096];
    long.push(0);
    assert!(is_probably_text(&long));
}

#[test]
fn applications_are_listed_before_background_processes() {
    let mut processes = vec![process(1, "svchost.exe", false), process(2, "Browser.exe", true)];
    prioritise_processes(&mut processes);
    assert_eq!(processes[0].pid, 2);
}

#[test]
fn listing_order_ignores_case_and_keeps_ties() {
    let mut processes = vec![
        process(1, "zeta.exe", false),
        process(2, "Alpha.exe", false),
        process(3, "beta.exe", true),
        process(4, "ALPHA.exe", false),
        process(5, "Alpha.exe", true),
    ];
    prioritise_processes(&mut processes);
    let order: Vec<u32> = processes.iter().map(|p| p.pid).collect();
    assert_eq!(order, vec![5, 3, 2, 4, 1]);
}

#[test]
fn listed_processes_mark_applications_and_keep_their_icons() {
    let processes = vec![
        ProcessInfo::new(1, "svchost.exe".into(), None),
        ProcessInfo::new(2, "Browser.exe".into(), Some("C:\\Browser.exe".into())),
    ];
    let listed = to_ui_processes(&processes, &[2], vec![Some(vec![1, 2, 3, 4]), Some(vec![9])]);
    assert_eq!(listed[0].pid, 2);
    assert!(listed[0].application && listed[0].active);
    assert_eq!(listed[0].icon_rgba, Some(vec![9]));
    assert_eq!(listed[1].pid, 1);
    assert!(!listed[1].application);
    assert_eq!(listed[1].icon_rgba, None);
}

#[test]
fn certificate_install_targets_only_the_current_user_root_store() {
    let arguments = certificate_install_arguments("certificate.cer");
    assert_eq!(arguments, ["-user", "-f", "-addstore", "Root", "certificate.cer"]);
}

#[test]
fn trust_failures_report_the_installer_output() {
    assert_eq!(
        trust_failure_message("  access denied \n", "ignored"),
        "Windows could not trust the AppWatch HTTPS certificate: access denied"
    );
    assert_eq!(
        trust_failure_message(" \n", "\tCertUtil: failed\r\n"),
        "Windows could not trust the AppWatch HTTPS certificate: CertUtil: failed"
    );
}

#[test]
fn connection_conversion_does_not_invent_http_data() {
    let event = to_ui_connection(&connection(7), 2);
    assert_eq!(event.kind, EventKind::Tcp);
    assert_eq!(event.status, None);
    assert!(event.path.is_empty());
    assert_eq!(event.process, "Unknown process");
}

#[test]
fn connection_rows_show_addresses_and_kind_words() {
    let mut c = connection(7);
    c.protocol = NetworkProtocol::TLS;
    c.process = Some(ProcessInfo::new(3, "app.exe".into(), None));
    let event = to_ui_connection(&c, 5);
    assert_eq!(event.method, "TLS");
    assert_eq!(event.host, "1.1.1.1");
    assert_eq!(event.local, "127.0.0.1:50000");
    assert_eq!(event.remote, "1.1.1.1:443");
    assert_eq!(event.pid, Some(3));
    assert_eq!(event.process, "app.exe");
    assert_eq!(event.packet_count, 5);
    c.hostname = Some("one.one".into());
    c.protocol = NetworkProtocol::HTTPS;
    let event = to_ui_connection(&c, 1);
    assert_eq!(event.host, "one.one");
    assert_eq!(event.method, "HTTPS");
    assert_eq!(kind_of_protocol(NetworkProtocol::QUIC), EventKind::Quic);
    assert_eq!(EventKind::Unknown.label(), "Unknown");
}

fn proxied_request() -> HttpRequestInfo {
    HttpRequestInfo {
        id: 3,
        connection_id: None,
        process: None,
        method: "GET".into(),
        scheme: "http".into(),
        host: "example.test".into(),
        path: "/health".into(),
        request_headers: vec![HttpHeader { name: "accept".into(), value: "application/json".into() }],
        request_body: None,
        request_body_size: 0,
        status_code: Some(204),
        response_headers: Vec::new(),
        response_body: Some(Vec::new()),
        response_body_size: Some(0),
        started_at: 1_000,
        duration_ms: Some(12),
        ja4: Some("t13d1516h2_example_example".into()),
    }
}

#[test]
fn proxy_request_conversion_preserves_observed_http_data() {
    let request = proxied_request();
    let event = to_ui_http(
        &request,
        SocketAddress { ip: IpAddress::v4(127, 0, 0, 1), port: 50_000 },
        SocketAddress { ip: IpAddress::v4(127, 0, 0, 1), port: 8877 },
    );
    assert_eq!(event.kind, EventKind::Http);
    assert_eq!(event.status, Some(204));
    assert_eq!(event.request_headers, request.request_headers);
}

#[test]
fn request_rows_get_their_own_ids() {
    let mut request = proxied_request();
    request.scheme = "HTTPS".into();
    request.duration_ms = Some(u128::from(u64::MAX) + 1);
    let local = SocketAddress { ip: IpAddress::V6(1), port: 50_000 };
    let remote = SocketAddress { ip: IpAddress::v4(127, 0, 0, 1), port: 8877 };
    let event = to_ui_http(&request, local, remote);
    assert_eq!(event.id, 3 | (1 << 63));
    assert_ne!(event.id, to_ui_connection(&connection(3), 1).id);
    assert_eq!(event.kind, EventKind::Https);
    assert_eq!(event.duration_ms, None);
    assert_eq!(event.local, "[::1]:50000");
    assert_eq!(event.remote, "127.0.0.1:8877");
    assert_eq!(event.ja4.as_deref(), Some("t13d1516h2_example_example"));
    assert_eq!(event.packet_count, 0);
}

#[test]
fn network_events_count_packets_until_closed() {
    let mut correlator = TrafficCorrelator::default();
    let mut counts: HashMap<u64, u64> = HashMap::new();
    let first = handle_network_event_at(CoreEvent::ConnectionOpened(connection(4)), &mut correlator, &mut counts, 10);
    assert!(matches!(first, Some(RuntimeEvent::Connection(ref e)) if e.id == 4 && e.packet_count == 1));
    let second = handle_network_event(CoreEvent::ConnectionUpdated(connection(4)), &mut correlator, &mut counts);
    assert!(matches!(second, Some(RuntimeEvent::Connection(ref e)) if e.packet_count == 2));
    assert_eq!(counts.get(&4), Some(&2));
    counts.insert(5, u64::MAX);
    let saturated = handle_network_event_at(CoreEvent::ConnectionUpdated(connection(5)), &mut correlator, &mut counts, 11);
    assert!(matches!(saturated, Some(RuntimeEvent::Connection(ref e)) if e.packet_count == u64::MAX));
    let closed = handle_network_event_at(CoreEvent::ConnectionClosed(4), &mut correlator, &mut counts, 12);
    assert!(matches!(closed, Some(RuntimeEvent::Closed(4))));
    assert_eq!(counts.get(&4), None);

    let captured = CapturedPacket {
        timestamp: 0,
        protocol: NetworkProtocol::UDP,
        ip_version: IpVersion::V4,
        direction: ConnectionDirection::Inbound,
        source_ip: IpAddress::v4(1, 1, 1, 1),
        source_port: Some(53),
        destination_ip: IpAddress::v4(10, 0, 0, 1),
        destination_port: Some(5353),
        packet_size: 10,
        payload_size: 2,
        process: None,
        raw_packet: None,
        tcp_fin: false,
        tcp_rst: false,
    };
    let endpoints = packet_endpoints(&captured).unwrap();
    assert_eq!(endpoints.0, SocketAddress { ip: IpAddress::v4(10, 0, 0, 1), port: 5353 });
    assert_eq!(endpoints.1, SocketAddress { ip: IpAddress::v4(1, 1, 1, 1), port: 53 });
    assert!(handle_network_event_at(CoreEvent::PacketCaptured(captured), &mut correlator, &mut counts, 13).is_none());
}

#[test]
fn socket_queries_and_process_lookup() {
    let local = SocketAddress { ip: IpAddress::V6(1), port: 1 };
    let remote = SocketAddress { ip: IpAddress::V6(2), port: 2 };
    let query = socket_query(local, remote, NetworkProtocol::UDP);
    assert_eq!(query.ip_version, IpVersion::V6);
    assert_eq!(query.id, 0);
    assert_eq!(query.direction, ConnectionDirection::Outbound);
    let processes = vec![
        ProcessInfo::new(1, "a.exe".into(), None),
        ProcessInfo::new(2, "b.exe".into(), None),
        ProcessInfo::new(2, "c.exe".into(), None),
    ];
    assert_eq!(find_process(&processes, 2).map(|p| p.name), Some("b.exe".to_string()));
    assert!(find_process(&processes, 3).is_none());
}

#[test]
fn runtime_messages_name_what_happened() {
    let address = SocketAddress { ip: IpAddress::v4(127, 0, 0, 1), port: 8877 };
    assert_eq!(proxy_url(address), "http://127.0.0.1:8877");
    assert_eq!(
        relaunched_pid_message(42, "http://127.0.0.1:8877"),
        "Relaunched PID 42 through http://127.0.0.1:8877."
    );
    assert_eq!(
        relaunch_summary_message(RelaunchSummary { relaunched: 3, failed: 0 }),
        "Relaunched 3 open app(s) through the proxy; 0 could not be relaunched."
    );
    assert_eq!(relaunch_failure_message("denied"), "Proxy relaunch failed: denied");
    assert_eq!(
        proxy_listening_message(address, "ca.cer"),
        "HTTP/HTTPS proxy listening on 127.0.0.1:8877. Configure an application to use this address and trust ca.cer to inspect HTTPS requests. HTTP/3/QUIC is not intercepted."
    );
}

#[test]
fn state_selects_filters_and_tracks_rows() {
    let processes = vec![process(42, "client.exe", true)];
    let mut state = AppState::new(processes, vec![row(1, Some(42), EventKind::Https), row(2, Some(7), EventKind::Udp)]);
    assert_eq!(state.detail_tab, DetailTab::Headers);
    assert!(state.recording);
    assert_eq!(state.visible_events().len(), 2);
    assert_eq!(state.selected_process_name(), "All processes");
    state.selected_pid = Some(42);
    assert_eq!(state.selected_process_name(), "client.exe · PID 42");
    assert_eq!(state.visible_events().len(), 1);
    state.selected_event = Some(2);
    assert_eq!(state.selected_event().map(|e| e.id), Some(2));
    state.selected_event = Some(9);
    assert!(state.selected_event().is_none());

    let mut updated = row(1, Some(42), EventKind::Https);
    updated.status = Some(500);
    state.record_event(updated);
    assert_eq!(state.events.len(), 2);
    assert_eq!(state.events[0].status, Some(500));
    state.record_event(row(3, None, EventKind::Tcp));
    assert_eq!(state.events.len(), 3);
    state.recording = false;
    state.record_event(row(4, None, EventKind::Tcp));
    assert_eq!(state.events.len(), 3);
    state.remove_event(1);
    assert!(state.events.iter().all(|e| e.id != 1));
    assert_eq!(state.events.len(), 2);
    state.tick();
    assert_eq!(state.session_seconds, 0);
}

#[test]
fn replacing_processes_keeps_or_follows_the_selection() {
    let mut state = AppState::new(vec![process(10, "Browser.exe", true)], Vec::new());
    state.selected_pid = Some(10);
    state.selected_event = Some(5);
    state.replace_processes(vec![process(11, "browser.EXE", true)], true);
    assert_eq!(state.selected_pid, Some(11));
    assert_eq!(state.selected_event, Some(5));
    state.replace_processes(vec![process(12, "other.exe", true)], false);
    assert_eq!(state.selected_pid, None);
    assert_eq!(state.selected_event, None);
    assert_eq!(state.processes[0].pid, 12);
}

#[test]
fn summary_counts_the_shown_rows() {
    let mut a = row(1, None, EventKind::Https);
    a.duration_ms = Some(10);
    let mut b = row(2, None, EventKind::Tcp);
    b.duration_ms = None;
    b.host = "other.test".into();
    let mut c = row(3, None, EventKind::Http);
    c.duration_ms = Some(21);
    let summary = traffic_summary(&[&a, &b, &c]);
    assert_eq!(summary.active, 3);
    assert_eq!(summary.http_requests, 2);
    assert_eq!(summary.packets, 6);
    assert_eq!(summary.uploaded, 300);
    assert_eq!(summary.downloaded, 600);
    assert_eq!(summary.hosts, 2);
    assert_eq!(summary.average_response_ms, Some(15));
    assert_eq!(traffic_summary(&[&b]).average_response_ms, None);
}

#[test]
fn small_formatters() {
    assert_eq!(format_time(0), "00:00");
    assert_eq!(format_time(3_725), "62:05");
    let headers = vec![HttpHeader { name: "a".into(), value: "b".into() }];
    assert_eq!(header_rows(&headers), vec![("a", "b".to_string())]);
    assert_eq!(DetailTab::RequestBody.label(), "Request Body");
    assert_eq!(DetailTab::ALL.len(), 5);
    let event = row(1, None, EventKind::Https);
    assert_eq!(
        event.search_text(),
        "client.exe get example.com / 200 https decoded 127.0.0.1:50000 93.184.216.34:443"
    );
}

#[test]
fn clearing_and_checking_the_filter() {
    let mut state = AppState::new(Vec::new(), vec![row(1, None, EventKind::Tcp)]);
    state.filter = "owner:me".into();
    state.refresh_filter_error();
    assert_eq!(
        state.filter_error.as_deref(),
        Some("Unknown filter ‘owner’. Try host:, method:, protocol: or port:.")
    );
    state.selected_event = Some(1);
    state.clear_filter();
    assert!(state.filter.is_empty());
    assert!(state.filter_error.is_none());
    assert!(state.selected_event.is_none());
    state.filter = "port:443".into();
    state.refresh_filter_error();
    assert!(state.filter_error.is_none());
}

#[test]
fn view_texts_follow_the_row() {
    let mut event = row(1, None, EventKind::Quic);
    assert_eq!(row_url(&event), "example.com/");
    event.path = String::new();
    assert_eq!(row_url(&event), "example.com");
    assert_eq!(transport_label(EventKind::Quic), "UDP");
    assert_eq!(transport_label(EventKind::Udp), "UDP");
    assert_eq!(transport_label(EventKind::Tls), "TCP");
    assert_eq!(ja4_text(&event), "Unavailable (non-TLS or passthrough)");
    assert_eq!(fingerprint_status(&event), "Not available");
    event.ja4 = Some("t13d".into());
    assert_eq!(ja4_text(&event), "t13d");
    assert_eq!(fingerprint_status(&event), "Matches session baseline");
    event.ja4_outlier = true;
    assert_eq!(fingerprint_status(&event), "Differs from this process's session baseline");
}

#[test]
fn the_empty_table_explains_itself() {
    assert_eq!(empty_table_message(false, false, true, true).0, "PAUSED");
    assert_eq!(empty_table_message(true, false, true, true).0, "WAITING FOR TRAFFIC");
    assert_eq!(empty_table_message(true, true, true, false).0, "NO MATCHES");
    assert_eq!(empty_table_message(false, true, false, false).0, "DIFFERENCES HIDDEN");
    assert_eq!(
        empty_table_message(true, true, false, true),
        ("NO TRAFFIC", "Select another process or switch the traffic view.")
    );
}
