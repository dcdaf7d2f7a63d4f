use appwatch::address::IpAddress;
use appwatch::model::{
    ConnectionDirection, HttpRequestInfo, IpVersion, NetworkConnection, NetworkProtocol, ProcessInfo,
};
use appwatch::storage::{
    connection_row, process_row, protocol_name, request_row, sqlite_integer, sqlite_integer_u128,
    unix_milliseconds, StorageError,
};

fn connection() -> NetworkConnection {
    NetworkConnection {
        id: 7,
        process: Some(ProcessInfo::new(42, "client.exe".into(), None)),
        protocol: NetworkProtocol::TCP,
        ip_version: IpVersion::V4,
        direction: ConnectionDirection::Outbound,
        local_ip: IpAddress::v4(127, 0, 0, 1),
        local_port: 50_000,
        remote_ip: IpAddress::v4(93, 184, 216, 34),
        remote_port: 80,
        hostname: Some("example.com".into()),
        bytes_sent: 100,
        bytes_received: 200,
    }
}

fn request() -> HttpRequestInfo {
    HttpRequestInfo {
        id: 9,
        connection_id: Some(7),
        process: None,
        method: "GET".into(),
        scheme: "http".into(),
        host: "example.com".into(),
        path: "/".into(),
        request_headers: Vec::new(),
        request_body: None,
        request_body_size: 0,
        status_code: Some(200),
        response_headers: Vec::new(),
        response_body: None,
        response_body_size: Some(0),
        started_at: 1_700_000_000_123_456_789,
        duration_ms: Some(12),
        ja4: Some("t13d1516h2_example_example".into()),
    }
}

#[test]
fn integers_convert_only_when_they_fit() {
    assert_eq!(sqlite_integer(42), Ok(42));
    assert_eq!(sqlite_integer(i64::MAX as u64), Ok(i64::MAX));
    assert_eq!(sqlite_integer(i64::MAX as u64 + 1), Err(StorageError::IntegerOutOfRange));
    assert_eq!(sqlite_integer_u128(12), Ok(12));
    assert_eq!(sqlite_integer_u128(u128::MAX), Err(StorageError::IntegerOutOfRange));
    assert_eq!(unix_milliseconds(1_500_999_999), Ok(1_500));
    assert_eq!(unix_milliseconds(-1), Err(StorageError::TimeBeforeEpoch));
    assert_eq!(unix_milliseconds(i128::MAX), Err(StorageError::IntegerOutOfRange));
    assert_eq!(StorageError::TimeBeforeEpoch.message(), "time is earlier than the Unix epoch");
    assert_eq!(StorageError::IntegerOutOfRange.message(), "integer does not fit in a SQLite INTEGER");
}

#[test]
fn protocols_are_stored_by_name() {
    assert_eq!(protocol_name(NetworkProtocol::TCP), "TCP");
    assert_eq!(protocol_name(NetworkProtocol::QUIC), "QUIC");
    assert_eq!(protocol_name(NetworkProtocol::UNKNOWN), "UNKNOWN");
}

#[test]
fn rows_carry_the_models_values() {
    let process = process_row(&ProcessInfo::new(42, "client.exe".into(), Some("C:\\client.exe".into())));
    assert_eq!(process.pid, 42);
    assert_eq!(process.executable_path.as_deref(), Some("C:\\client.exe"));

    let row = connection_row(&connection(), 2_000_000_000).unwrap();
    assert_eq!(row.id, 7);
    assert_eq!(row.process_pid, Some(42));
    assert_eq!(row.protocol, "TCP");
    assert_eq!(row.local_ip, "127.0.0.1");
    assert_eq!(row.remote_ip, "93.184.216.34");
    assert_eq!(row.hostname.as_deref(), Some("example.com"));
    assert_eq!(row.started_at, 2_000);
    assert_eq!((row.bytes_sent, row.bytes_received), (100, 200));

    let row = request_row(&request()).unwrap();
    assert_eq!(row.id, 9);
    assert_eq!(row.connection_id, Some(7));
    assert_eq!(row.status, Some(200));
    assert_eq!(row.started_at, 1_700_000_000_123);
    assert_eq!(row.duration_ms, Some(12));
    assert_eq!(row.ja4.as_deref(), Some("t13d1516h2_example_example"));
}

#[test]
fn rows_with_oversized_integers_are_refused() {
    let mut big = connection();
    big.bytes_received = u64::MAX;
    assert!(matches!(connection_row(&big, 0), Err(StorageError::IntegerOutOfRange)));
    let mut long = request();
    long.duration_ms = Some(u128::from(u64::MAX));
    assert!(matches!(request_row(&long), Err(StorageError::IntegerOutOfRange)));
    let mut unlinked = request();
    unlinked.connection_id = Some(u64::MAX);
    assert!(matches!(request_row(&unlinked), Err(StorageError::IntegerOutOfRange)));
}

#[test]
fn times_before_the_epoch_are_refused_after_the_id() {
    assert!(matches!(connection_row(&connection(), -1), Err(StorageError::TimeBeforeEpoch)));
    let mut big = connection();
    big.id = u64::MAX;
    assert!(matches!(connection_row(&big, -1), Err(StorageError::IntegerOutOfRange)));
    let mut early = request();
    early.started_at = -5;
    early.duration_ms = Some(u128::MAX);
    assert!(matches!(request_row(&early), Err(StorageError::TimeBeforeEpoch)));
}
