//! The rows the traffic database stores: how processes, connections and
//! HTTP requests are turned into SQLite values.

use vstd::prelude::*;

use crate::address::{ip_string, ip_text};
use crate::model::{
    clone_text, ConnectionView, HttpRequestInfo, NetworkConnection, NetworkProtocol, ProcessInfo,
    ProcessView, RequestView,
};

verus! {

broadcast use vstd::string::group_string_axioms;

/// Why a model cannot be stored.
#[derive(Debug, Clone, Copy, PartialEq, Eq, Structural)]
pub enum StorageError {
    /// An integer does not fit in SQLite's signed 64-bit integers.
    IntegerOutOfRange,
    /// A time lies before the Unix epoch, which stored times count from.
    TimeBeforeEpoch,
}

/// The message of a storage error.
pub open spec fn storage_error_text(e: StorageError) -> Seq<char> {
    match e {
        StorageError::IntegerOutOfRange => "integer does not fit in a SQLite INTEGER"@,
        StorageError::TimeBeforeEpoch => "time is earlier than the Unix epoch"@,
    }
}

impl StorageError {
    /// The error's message.
    pub fn message(&self) -> (r: String)
        ensures
            r@ == storage_error_text(*self),
    {
        match self {
            StorageError::IntegerOutOfRange => String::from_str("integer does not fit in a SQLite INTEGER"),
            StorageError::TimeBeforeEpoch => String::from_str("time is earlier than the Unix epoch"),
        }
    }
}

/// An unsigned integer as a SQLite integer, when it fits.
pub fn sqlite_integer(value: u64) -> (r: Result<i64, StorageError>)
    ensures
        value <= i64::MAX ==> r == Ok::<i64, StorageError>(value as i64),
        value > i64::MAX ==> r == Err::<i64, StorageError>(StorageError::IntegerOutOfRange),
{
    if value <= i64::MAX as u64 {
        Ok(value as i64)
    } else {
        Err(StorageError::IntegerOutOfRange)
    }
}

/// A 128-bit unsigned integer as a SQLite integer, when it fits.
pub fn sqlite_integer_u128(value: u128) -> (r: Result<i64, StorageError>)
    ensures
        value <= i64::MAX ==> r == Ok::<i64, StorageError>(value as i64),
        value > i64::MAX ==> r == Err::<i64, StorageError>(StorageError::IntegerOutOfRange),
{
    if value <= i64::MAX as u128 {
        Ok(value as i64)
    } else {
        Err(StorageError::IntegerOutOfRange)
    }
}

/// A time, in nanoseconds since the Unix epoch, as whole milliseconds
/// since the epoch: refused before the epoch, and when the milliseconds do
/// not fit in a SQLite integer.
pub open spec fn milliseconds_of(nanos: i128) -> Result<i64, StorageError> {
    if nanos < 0 {
        Err(StorageError::TimeBeforeEpoch)
    } else if nanos / 1_000_000 > i64::MAX {
        Err(StorageError::IntegerOutOfRange)
    } else {
        Ok((nanos / 1_000_000) as i64)
    }
}

/// Whole milliseconds since the Unix epoch of a time given in nanoseconds
/// since the epoch.
pub fn unix_milliseconds(nanos: i128) -> (r: Result<i64, StorageError>)
    ensures
        r == milliseconds_of(nanos),
{
    if nanos < 0 {
        Err(StorageError::TimeBeforeEpoch)
    } else if nanos / 1_000_000 > i64::MAX as i128 {
        Err(StorageError::IntegerOutOfRange)
    } else {
        Ok((nanos / 1_000_000) as i64)
    }
}

/// The name a protocol is stored under: its variant's name.
pub open spec fn protocol_text(p: NetworkProtocol) -> Seq<char> {
    match p {
        NetworkProtocol::TCP => "TCP"@,
        NetworkProtocol::UDP => "UDP"@,
        NetworkProtocol::HTTP => "HTTP"@,
        NetworkProtocol::HTTPS => "HTTPS"@,
        NetworkProtocol::TLS => "TLS"@,
        NetworkProtocol::QUIC => "QUIC"@,
        NetworkProtocol::UNKNOWN => "UNKNOWN"@,
    }
}

/// The name a protocol is stored under.
pub fn protocol_name(p: NetworkProtocol) -> (r: &'static str)
    ensures
        r@ == protocol_text(p),
{
    match p {
        NetworkProtocol::TCP => "TCP",
        NetworkProtocol::UDP => "UDP",
        NetworkProtocol::HTTP => "HTTP",
        NetworkProtocol::HTTPS => "HTTPS",
        NetworkProtocol::TLS => "TLS",
        NetworkProtocol::QUIC => "QUIC",
        NetworkProtocol::UNKNOWN => "UNKNOWN",
    }
}

/// The values of a row of the `processes` table.
pub struct ProcessRow {
    pub pid: u32,
    pub name: String,
    pub executable_path: Option<String>,
}

/// The row stored for a process.
pub fn process_row(process: &ProcessInfo) -> (r: ProcessRow)
    ensures
        r.pid == process.pid,
        r.name@ == process.name@,
        r.executable_path.deep_view() == process.executable_path.deep_view(),
{
    ProcessRow {
        pid: process.pid,
        name: process.name.clone(),
        executable_path: clone_text(&process.executable_path),
    }
}

/// The values of a row of the `connections` table. The process is stored
/// by its PID, which the table resolves to the process's row.
pub struct ConnectionRow {
    pub id: i64,
    pub process_pid: Option<u32>,
    pub protocol: String,
    pub local_ip: String,
    pub local_port: u16,
    pub remote_ip: String,
    pub remote_port: u16,
    pub hostname: Option<String>,
    pub started_at: i64,
    pub bytes_sent: i64,
    pub bytes_received: i64,
}

/// Why a connection first seen at `now` cannot be stored, checked in the
/// order the row's values are made: its id, the time, then its byte counts.
pub open spec fn connection_problem(c: ConnectionView, now: i128) -> Option<StorageError> {
    if c.id > i64::MAX {
        Some(StorageError::IntegerOutOfRange)
    } else if milliseconds_of(now) is Err {
        Some(milliseconds_of(now)->Err_0)
    } else if c.bytes_sent > i64::MAX || c.bytes_received > i64::MAX {
        Some(StorageError::IntegerOutOfRange)
    } else {
        None
    }
}

/// The row stored for a connection first seen at `now` (nanoseconds since
/// the epoch); refused when an integer does not fit or the time is before
/// the epoch.
pub fn connection_row(connection: &NetworkConnection, now: i128) -> (r: Result<
    ConnectionRow,
    StorageError,
>)
    ensures
        match connection_problem(connection@, now) {
            Some(e) => r == Err::<ConnectionRow, StorageError>(e),
            None => r matches Ok(row) && {
                &&& row.id == connection.id as i64
                &&& row.process_pid == match connection.process {
                    Some(p) => Some(p.pid),
                    None => None::<u32>,
                }
                &&& row.protocol@ == protocol_text(connection.protocol)
                &&& row.local_ip@ == ip_text(connection.local_ip)
                &&& row.local_port == connection.local_port
                &&& row.remote_ip@ == ip_text(connection.remote_ip)
                &&& row.remote_port == connection.remote_port
                &&& row.hostname.deep_view() == connection.hostname.deep_view()
                &&& row.started_at == now / 1_000_000
                &&& row.bytes_sent == connection.bytes_sent as i64
                &&& row.bytes_received == connection.bytes_received as i64
            },
        },
{
    let id = match sqlite_integer(connection.id) {
        Ok(v) => v,
        Err(e) => return Err(e),
    };
    let started_at = match unix_milliseconds(now) {
        Ok(v) => v,
        Err(e) => return Err(e),
    };
    let bytes_sent = match sqlite_integer(connection.bytes_sent) {
        Ok(v) => v,
        Err(e) => return Err(e),
    };
    let bytes_received = match sqlite_integer(connection.bytes_received) {
        Ok(v) => v,
        Err(e) => return Err(e),
    };
    let process_pid = match &connection.process {
        Some(p) => Some(p.pid),
        None => None,
    };
    Ok(
        ConnectionRow {
            id,
            process_pid,
            protocol: protocol_name(connection.protocol).to_string(),
            local_ip: ip_string(connection.local_ip),
            local_port: connection.local_port,
            remote_ip: ip_string(connection.remote_ip),
            remote_port: connection.remote_port,
            hostname: clone_text(&connection.hostname),
            started_at,
            bytes_sent,
            bytes_received,
        },
    )
}

/// The values of a row of the `http_requests` table.
pub struct RequestRow {
    pub id: i64,
    pub connection_id: Option<i64>,
    pub method: String,
    pub scheme: String,
    pub host: String,
    pub path: String,
    pub status: Option<u16>,
    pub started_at: i64,
    pub duration_ms: Option<i64>,
    pub ja4: Option<String>,
}

/// Why a request cannot be stored, checked in the order the row's values
/// are made: its id, its connection's id, its start time, then its
/// duration.
pub open spec fn request_problem(q: RequestView) -> Option<StorageError> {
    if q.id > i64::MAX {
        Some(StorageError::IntegerOutOfRange)
    } else if q.connection_id matches Some(c) && c > i64::MAX {
        Some(StorageError::IntegerOutOfRange)
    } else if milliseconds_of(q.started_at) is Err {
        Some(milliseconds_of(q.started_at)->Err_0)
    } else if q.duration_ms matches Some(d) && d > i64::MAX {
        Some(StorageError::IntegerOutOfRange)
    } else {
        None
    }
}

/// An optional unsigned integer as an optional SQLite integer.
fn optional_integer(value: Option<u64>) -> (r: Result<Option<i64>, StorageError>)
    ensures
        match value {
            None => r == Ok::<Option<i64>, StorageError>(None),
            Some(v) => if v <= i64::MAX {
                r == Ok::<Option<i64>, StorageError>(Some(v as i64))
            } else {
                r == Err::<Option<i64>, StorageError>(StorageError::IntegerOutOfRange)
            },
        },
{
    match value {
        None => Ok(None),
        Some(v) => match sqlite_integer(v) {
            Ok(i) => Ok(Some(i)),
            Err(e) => Err(e),
        },
    }
}

/// The row stored for an HTTP request; refused when an integer does not
/// fit or the start time is before the epoch.
pub fn request_row(request: &HttpRequestInfo) -> (r: Result<RequestRow, StorageError>)
    ensures
        match request_problem(request@) {
            Some(e) => r == Err::<RequestRow, StorageError>(e),
            None => r matches Ok(row) && {
                &&& row.id == request.id as i64
                &&& row.connection_id == match request.connection_id {
                    Some(c) => Some(c as i64),
                    None => None::<i64>,
                }
                &&& row.method@ == request.method@
                &&& row.scheme@ == request.scheme@
                &&& row.host@ == request.host@
                &&& row.path@ == request.path@
                &&& row.status == request.status_code
                &&& row.started_at == request.started_at / 1_000_000
                &&& row.duration_ms == match request.duration_ms {
                    Some(d) => Some(d as i64),
                    None => None::<i64>,
                }
                &&& row.ja4.deep_view() == request.ja4.deep_view()
            },
        },
{
    let id = match sqlite_integer(request.id) {
        Ok(v) => v,
        Err(e) => return Err(e),
    };
    let connection_id = match optional_integer(request.connection_id) {
        Ok(v) => v,
        Err(e) => return Err(e),
    };
    let started_at = match unix_milliseconds(request.started_at) {
        Ok(v) => v,
        Err(e) => return Err(e),
    };
    let duration_ms = match request.duration_ms {
        None => None,
        Some(d) => match sqlite_integer_u128(d) {
            Ok(v) => Some(v),
            Err(e) => return Err(e),
        },
    };
    Ok(
        RequestRow {
            id,
            connection_id,
            method: request.method.clone(),
            scheme: request.scheme.clone(),
            host: request.host.clone(),
            path: request.path.clone(),
            status: request.status_code,
            started_at,
            duration_ms,
            ja4: clone_text(&request.ja4),
        },
    )
}

} // verus!
