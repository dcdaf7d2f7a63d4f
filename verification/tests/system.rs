use appwatch::address::IpAddress;
use appwatch::model::{ConnectionDirection, IpVersion, NetworkConnection, NetworkProtocol};
use appwatch::system::{
    bgra_to_rgba, ipv4, is_application_window, port, process_name, proxy_environment,
    relaunch_candidates, relaunch_self_check, summarize_relaunches, table_address,
    table_buffer_words, table_size_known, OwnerTable, RawAddress, RelaunchSummary,
    SocketProcessResolver, TcpOwnerRow, UdpOwnerRow, APPLICATION_ICON_SIZE,
};

fn connection(protocol: NetworkProtocol, local: IpAddress, remote: IpAddress) -> NetworkConnection {
    NetworkConnection {
        id: 0,
        process: None,
        protocol,
        ip_version: IpVersion::V4,
        direction: ConnectionDirection::Outbound,
        local_ip: local,
        local_port: 50_000,
        remote_ip: remote,
        remote_port: 443,
        hostname: None,
        bytes_sent: 0,
        bytes_received: 0,
    }
}

fn raw_v4(a: u8, b: u8, c: u8, d: u8) -> RawAddress {
    RawAddress::V4(u32::from_ne_bytes([a, b, c, d]))
}

fn raw_port(p: u16) -> u32 {
    p.to_be() as u32
}

#[test]
fn converts_windows_network_order_values() {
    assert_eq!(port(u16::to_be(443) as u32), 443);
    assert_eq!(ipv4(u32::from_ne_bytes([192, 168, 1, 10])), IpAddress::v4(192, 168, 1, 10));
}

#[test]
fn table_addresses_decode_both_families() {
    assert_eq!(table_address(raw_v4(10, 0, 0, 1)), IpAddress::v4(10, 0, 0, 1));
    let mut octets = [0u8; 16];
    octets[15] = 1;
    assert_eq!(table_address(RawAddress::V6(octets)), IpAddress::V6(1));
}

#[test]
fn owner_tables_follow_protocol_and_family() {
    let resolver = SocketProcessResolver;
    let v4 = IpAddress::v4(10, 0, 0, 1);
    let v6 = IpAddress::V6(1);
    assert_eq!(resolver.owner_table(&connection(NetworkProtocol::TCP, v4, v4)), Some(OwnerTable::Tcp4));
    assert_eq!(resolver.owner_table(&connection(NetworkProtocol::TCP, v6, v6)), Some(OwnerTable::Tcp6));
    assert_eq!(resolver.owner_table(&connection(NetworkProtocol::TCP, v4, v6)), None);
    assert_eq!(resolver.owner_table(&connection(NetworkProtocol::UDP, v6, v4)), Some(OwnerTable::Udp6));
    assert_eq!(resolver.owner_table(&connection(NetworkProtocol::QUIC, v4, v4)), Some(OwnerTable::Udp4));
    assert_eq!(resolver.owner_table(&connection(NetworkProtocol::HTTP, v4, v4)), None);
}

#[test]
fn tcp_owner_is_the_first_matching_entry() {
    let resolver = SocketProcessResolver;
    let c = connection(NetworkProtocol::TCP, IpAddress::v4(10, 0, 0, 1), IpAddress::v4(1, 1, 1, 1));
    let row = |remote_port: u16, pid: u32| TcpOwnerRow {
        local_address: raw_v4(10, 0, 0, 1),
        local_port: raw_port(50_000),
        remote_address: raw_v4(1, 1, 1, 1),
        remote_port: raw_port(remote_port),
        owning_pid: pid,
    };
    assert_eq!(resolver.tcp_owner(&c, &[row(80, 1), row(443, 2), row(443, 3)]), Some(2));
    assert_eq!(resolver.tcp_owner(&c, &[row(80, 1)]), None);
    assert_eq!(resolver.tcp_owner(&c, &[]), None);
}

#[test]
fn udp_owner_must_be_unique() {
    let resolver = SocketProcessResolver;
    let c = connection(NetworkProtocol::UDP, IpAddress::v4(10, 0, 0, 1), IpAddress::v4(1, 1, 1, 1));
    let row = |address: RawAddress, local_port: u16, pid: u32| UdpOwnerRow {
        local_address: address,
        local_port: raw_port(local_port),
        owning_pid: pid,
    };
    let any = raw_v4(0, 0, 0, 0);
    let own = raw_v4(10, 0, 0, 1);
    let other = raw_v4(10, 0, 0, 2);
    assert_eq!(resolver.udp_owner(&c, &[row(any, 50_000, 4), row(own, 50_000, 4)]), Some(4));
    assert_eq!(resolver.udp_owner(&c, &[row(any, 50_000, 4), row(own, 50_000, 5)]), None);
    assert_eq!(resolver.udp_owner(&c, &[row(other, 50_000, 6), row(own, 50_001, 7)]), None);
    assert_eq!(resolver.udp_owner(&c, &[row(other, 50_000, 6), row(own, 50_000, 8)]), Some(8));
}

#[test]
fn relaunch_command_sets_common_proxy_environment_names() {
    let variables = proxy_environment("http://127.0.0.1:8877");
    for name in ["HTTP_PROXY", "HTTPS_PROXY"] {
        let value = variables.iter().find(|(n, _)| n == name).map(|(_, v)| v.as_str());
        assert_eq!(value, Some("http://127.0.0.1:8877"));
    }
}

#[test]
fn relaunching_skips_this_process_and_counts_outcomes() {
    assert_eq!(
        relaunch_self_check(7, 7),
        Err("AppWatch cannot relaunch itself".to_string())
    );
    assert_eq!(relaunch_self_check(8, 7), Ok(()));
    assert_eq!(relaunch_candidates(&[3, 7, 9, 7], 7), vec![3, 9]);
    assert_eq!(
        summarize_relaunches(&[true, false, true]),
        RelaunchSummary { relaunched: 2, failed: 1 }
    );
    assert_eq!(summarize_relaunches(&[]), RelaunchSummary::default());
}

#[test]
fn icon_pixels_become_rgba() {
    assert_eq!(bgra_to_rgba(&[1, 2, 3, 4, 5, 6, 7, 8, 9]), vec![3, 2, 1, 4, 7, 6, 5, 8]);
    let full = vec![0u8; APPLICATION_ICON_SIZE * APPLICATION_ICON_SIZE * 4];
    assert_eq!(bgra_to_rgba(&full).len(), APPLICATION_ICON_SIZE * APPLICATION_ICON_SIZE * 4);
}

#[test]
fn process_names_stop_at_the_first_nul() {
    let mut units: Vec<u16> = "svchost.exe".encode_utf16().collect();
    units.extend([0, 0x41, 0]);
    assert_eq!(process_name(&units), "svchost.exe");
    let whole: Vec<u16> = "a.exe".encode_utf16().collect();
    assert_eq!(process_name(&whole), "a.exe");
    assert_eq!(process_name(&[0xd800, 0]), "\u{fffd}");
    let emoji: Vec<u16> = "a😀b".encode_utf16().collect();
    assert_eq!(process_name(&emoji), "a😀b");
    assert_eq!(process_name(&[0xdc00, 0x41, 0xd800, 0xd800, 0xdc00]), "\u{fffd}A\u{fffd}\u{10000}");
}

#[test]
fn windows_and_tables_follow_the_system_rules() {
    assert!(is_application_window(true, 5, 10));
    assert!(!is_application_window(false, 5, 10));
    assert!(!is_application_window(true, 0, 10));
    assert!(!is_application_window(true, 5, 0));
    assert!(table_size_known(0));
    assert!(table_size_known(122));
    assert!(!table_size_known(87));
    assert_eq!(table_buffer_words(17, 8), 3);
    assert_eq!(table_buffer_words(16, 8), 2);
    assert_eq!(table_buffer_words(0, 8), 0);
}
