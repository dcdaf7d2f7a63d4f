use appwatch::address::IpAddress;
use appwatch::capture::{
    current_time, parse_packet, timestamp_from_clock, ConnectionKey, ConnectionTracker,
    CONNECTION_INACTIVITY_TIMEOUT,
};
use appwatch::model::{CapturedPacket, ConnectionDirection, IpVersion, NetworkEvent, NetworkProtocol};
use etherparse::PacketBuilder;

const SECOND: i128 = 1_000_000_000;
const TIMEOUT: i128 = CONNECTION_INACTIVITY_TIMEOUT as i128;

fn test_packet(timestamp: i128, direction: ConnectionDirection, packet_size: usize) -> CapturedPacket {
    CapturedPacket {
        timestamp,
        protocol: NetworkProtocol::TCP,
        ip_version: IpVersion::V4,
        direction,
        source_ip: IpAddress::v4(192, 168, 1, 10),
        source_port: Some(50_000),
        destination_ip: IpAddress::v4(1, 1, 1, 1),
        destination_port: Some(443),
        packet_size,
        payload_size: 0,
        process: None,
        raw_packet: None,
        tcp_fin: false,
        tcp_rst: false,
    }
}

fn reply_to(mut packet: CapturedPacket) -> CapturedPacket {
    std::mem::swap(&mut packet.source_ip, &mut packet.destination_ip);
    std::mem::swap(&mut packet.source_port, &mut packet.destination_port);
    packet
}

#[test]
fn parses_payload_without_retaining_raw_bytes() {
    let builder = PacketBuilder::ipv4([192, 168, 1, 10], [1, 1, 1, 1], 64).tcp(50_000, 443, 1, 1);
    let payload = b"hello";
    let mut bytes = Vec::with_capacity(builder.size(payload.len()));
    builder.write(&mut bytes, payload).unwrap();

    let packet = parse_packet(&bytes, true, false).unwrap();
    assert_eq!(packet.payload_size, payload.len());
    assert_eq!(packet.source_port, Some(50_000));
    assert_eq!(packet.destination_port, Some(443));
    assert!(packet.raw_packet.is_none());
}

#[test]
fn parsed_packets_carry_addresses_direction_and_flags() {
    let builder = PacketBuilder::ipv4([192, 168, 1, 10], [1, 1, 1, 1], 64)
        .tcp(50_000, 443, 1, 1)
        .fin();
    let payload = b"bye";
    let mut bytes = Vec::with_capacity(builder.size(payload.len()));
    builder.write(&mut bytes, payload).unwrap();

    let packet = parse_packet(&bytes, false, true).unwrap();
    assert_eq!(packet.protocol, NetworkProtocol::TCP);
    assert_eq!(packet.ip_version, IpVersion::V4);
    assert_eq!(packet.direction, ConnectionDirection::Inbound);
    assert_eq!(packet.source_ip, IpAddress::v4(192, 168, 1, 10));
    assert_eq!(packet.destination_ip, IpAddress::v4(1, 1, 1, 1));
    assert_eq!(packet.packet_size, bytes.len());
    assert!(packet.tcp_fin);
    assert!(!packet.tcp_rst);
    assert_eq!(packet.raw_packet, Some(bytes.clone()));
}

#[test]
fn parses_udp_over_ipv6() {
    let mut source = [0u8; 16];
    source[15] = 1;
    let mut destination = [0u8; 16];
    destination[0] = 0x20;
    destination[1] = 0x01;
    destination[15] = 2;
    let builder = PacketBuilder::ipv6(source, destination, 64).udp(5353, 53);
    let payload = b"query";
    let mut bytes = Vec::with_capacity(builder.size(payload.len()));
    builder.write(&mut bytes, payload).unwrap();

    let packet = parse_packet(&bytes, true, false).unwrap();
    assert_eq!(packet.protocol, NetworkProtocol::UDP);
    assert_eq!(packet.ip_version, IpVersion::V6);
    assert_eq!(packet.source_ip, IpAddress::V6(1));
    assert_eq!(packet.destination_ip, IpAddress::V6((0x2001u128 << 112) | 2));
    assert_eq!(packet.source_port, Some(5353));
    assert_eq!(packet.payload_size, payload.len());
}

#[test]
fn rejects_bytes_that_are_not_an_ip_packet() {
    assert!(parse_packet(&[0xff, 0x00, 0x01], true, false).is_none());
    assert!(parse_packet(&[], true, false).is_none());
}

#[test]
fn tracker_merges_reply_and_counts_both_directions() {
    let now = 100 * SECOND;
    let outbound = test_packet(now, ConnectionDirection::Outbound, 100);
    let inbound = reply_to(test_packet(now + SECOND, ConnectionDirection::Inbound, 250));

    let mut tracker = ConnectionTracker::new();
    assert!(matches!(tracker.process_packet(outbound)[1], NetworkEvent::ConnectionOpened(_)));
    let events = tracker.process_packet(inbound);
    let NetworkEvent::ConnectionUpdated(connection) = &events[1] else {
        panic!("expected an updated connection");
    };
    assert_eq!(connection.bytes_sent, 100);
    assert_eq!(connection.bytes_received, 250);

    let closed = tracker.close_inactive(now + TIMEOUT + 2 * SECOND);
    assert_eq!(closed, vec![NetworkEvent::ConnectionClosed(connection.id)]);
}

#[test]
fn reply_has_the_key_of_its_request() {
    let outbound = test_packet(0, ConnectionDirection::Outbound, 10);
    let inbound = reply_to(test_packet(0, ConnectionDirection::Inbound, 10));
    let key = ConnectionKey::from_packet(&outbound).unwrap();
    assert_eq!(Some(key), ConnectionKey::from_packet(&inbound));
    assert_eq!(
        key.endpoints(),
        (IpAddress::v4(192, 168, 1, 10), 50_000, IpAddress::v4(1, 1, 1, 1), 443)
    );
}

#[test]
fn packets_without_ports_open_nothing() {
    let mut packet = test_packet(5, ConnectionDirection::Outbound, 10);
    packet.source_port = None;
    assert!(ConnectionKey::from_packet(&packet).is_none());
    let mut tracker = ConnectionTracker::new();
    let events = tracker.process_packet(packet);
    assert_eq!(events.len(), 1);
    assert!(matches!(events[0], NetworkEvent::PacketCaptured(_)));
}

#[test]
fn closing_packet_closes_its_connection() {
    let mut tracker = ConnectionTracker::default();
    let events = tracker.process_packet(test_packet(SECOND, ConnectionDirection::Outbound, 60));
    let NetworkEvent::ConnectionOpened(opened) = &events[1] else {
        panic!("expected an opened connection");
    };
    assert_eq!(opened.id, 1);
    let mut fin = test_packet(2 * SECOND, ConnectionDirection::Outbound, 40);
    fin.tcp_fin = true;
    let events = tracker.process_packet(fin);
    assert_eq!(events.len(), 3);
    assert!(matches!(&events[1], NetworkEvent::ConnectionUpdated(c) if c.bytes_sent == 100));
    assert_eq!(events[2], NetworkEvent::ConnectionClosed(1));
    assert!(tracker.close_inactive(i128::MAX).is_empty());

    let events = tracker.process_packet(test_packet(3 * SECOND, ConnectionDirection::Outbound, 1));
    assert!(matches!(&events[1], NetworkEvent::ConnectionOpened(c) if c.id == 2));
}

#[test]
fn idle_connections_close_only_after_the_timeout() {
    let mut tracker = ConnectionTracker::new();
    tracker.process_packet(test_packet(10 * SECOND, ConnectionDirection::Outbound, 1));
    assert!(tracker.close_inactive(10 * SECOND + TIMEOUT - 1).is_empty());
    assert_eq!(
        tracker.close_inactive(10 * SECOND + TIMEOUT),
        vec![NetworkEvent::ConnectionClosed(1)]
    );
    assert!(tracker.close_inactive(i128::MAX).is_empty());
}

#[test]
fn a_later_packet_first_closes_idle_connections() {
    let mut tracker = ConnectionTracker::new();
    tracker.process_packet(test_packet(0, ConnectionDirection::Outbound, 1));
    let mut other = test_packet(TIMEOUT, ConnectionDirection::Outbound, 1);
    other.destination_port = Some(80);
    let events = tracker.process_packet(other);
    assert_eq!(events.len(), 3);
    assert_eq!(events[1], NetworkEvent::ConnectionClosed(1));
    assert!(matches!(&events[2], NetworkEvent::ConnectionOpened(c) if c.id == 2 && c.remote_port == 80));
}

#[test]
fn clock_readings_become_timestamps() {
    assert_eq!(timestamp_from_clock(Ok(1_500)), 1_500);
    assert_eq!(timestamp_from_clock(Err(1_500)), -1_500);
    assert_eq!(timestamp_from_clock(Ok(u128::from(u64::MAX) + 7)), i128::from(u64::MAX) + 7);
    assert_eq!(timestamp_from_clock(Ok(u128::MAX)), i128::MAX);
    assert_eq!(timestamp_from_clock(Err(u128::MAX)), -i128::MAX);
    assert!(current_time() > 1_600_000_000 * SECOND);
}

#[test]
fn connection_ids_count_up_and_are_never_reused() {
    let mut tracker = ConnectionTracker::new();
    let mut opened = Vec::new();
    for (step, port) in [443u16, 80, 443, 8080, 80].into_iter().enumerate() {
        let mut packet = test_packet(step as i128 * SECOND, ConnectionDirection::Outbound, 10);
        packet.destination_port = Some(port);
        packet.tcp_fin = step == 2;
        for event in tracker.process_packet(packet) {
            if let NetworkEvent::ConnectionOpened(c) = event {
                opened.push(c.id);
            }
        }
    }
    let mut again = test_packet(6 * SECOND, ConnectionDirection::Outbound, 10);
    again.destination_port = Some(443);
    for event in tracker.process_packet(again) {
        if let NetworkEvent::ConnectionOpened(c) = event {
            opened.push(c.id);
        }
    }
    assert_eq!(opened, vec![1, 2, 3, 4]);
}

#[test]
fn connections_before_the_epoch_expire_like_any_other() {
    let mut tracker = ConnectionTracker::new();
    tracker.process_packet(test_packet(-50 * SECOND, ConnectionDirection::Outbound, 1));
    assert!(tracker.close_inactive(-50 * SECOND + TIMEOUT - 1).is_empty());
    assert_eq!(tracker.close_inactive(-50 * SECOND + TIMEOUT), vec![NetworkEvent::ConnectionClosed(1)]);
}
