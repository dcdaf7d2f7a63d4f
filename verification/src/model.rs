//! The data model: processes, connections, captured packets, network events
//! and HTTP requests, with their textual forms.

use vstd::prelude::*;
use vstd::string::StringExecFns;

use crate::address::{push_socket_text, socket_text, IpAddress};
use crate::text::{
    chars_of, chars_eq_ignore_ascii_case, decimal_text, equal_ignoring_ascii_case, extend_chars,
    extend_with, push_decimal, string_from_chars,
};

verus! {

broadcast use vstd::string::group_string_axioms;

/// The protocol a connection or packet was observed with.
#[derive(Debug, Clone, Copy, PartialEq, Eq, Hash, Structural)]
#[allow(clippy::upper_case_acronyms)]
pub enum NetworkProtocol {
    TCP,
    UDP,
    HTTP,
    HTTPS,
    TLS,
    QUIC,
    UNKNOWN,
}

/// Whether traffic leaves or reaches this machine.
#[derive(Debug, Clone, Copy, PartialEq, Eq, Hash, Structural)]
pub enum ConnectionDirection {
    Inbound,
    Outbound,
}

/// The IP version of an address or packet.
#[derive(Debug, Clone, Copy, PartialEq, Eq, Hash, Structural)]
pub enum IpVersion {
    V4,
    V6,
}

/// A running process.
#[derive(Debug, PartialEq, Eq)]
pub struct ProcessInfo {
    pub pid: u32,
    pub name: String,
    pub executable_path: Option<String>,
}

/// The mathematical content of a [`ProcessInfo`].
pub struct ProcessView {
    pub pid: u32,
    pub name: Seq<char>,
    pub executable_path: Option<Seq<char>>,
}

impl View for ProcessInfo {
    type V = ProcessView;

    open spec fn view(&self) -> ProcessView {
        ProcessView {
            pid: self.pid,
            name: self.name@,
            executable_path: self.executable_path.deep_view(),
        }
    }
}

impl DeepView for ProcessInfo {
    type V = ProcessView;

    open spec fn deep_view(&self) -> ProcessView {
        self@
    }
}

/// A clone of an optional string with the same characters.
pub fn clone_text(s: &Option<String>) -> (r: Option<String>)
    ensures
        r.deep_view() == s.deep_view(),
{
    match s {
        Some(t) => Some(t.clone()),
        None => None,
    }
}

impl Clone for ProcessInfo {
    fn clone(&self) -> (r: Self)
        ensures
            r@ == self@,
    {
        ProcessInfo {
            pid: self.pid,
            name: self.name.clone(),
            executable_path: clone_text(&self.executable_path),
        }
    }
}

/// A clone of an optional process with the same content.
pub fn clone_process(p: &Option<ProcessInfo>) -> (r: Option<ProcessInfo>)
    ensures
        r.deep_view() == p.deep_view(),
{
    match p {
        Some(q) => Some(q.clone()),
        None => None,
    }
}

/// The text `Display` gives a process: its name and PID.
pub open spec fn process_display_text(p: ProcessView) -> Seq<char> {
    p.name + " [PID: "@ + decimal_text(p.pid as nat) + "]"@
}

impl ProcessInfo {
    /// A process with the given PID, executable name and path.
    pub fn new(pid: u32, name: String, executable_path: Option<String>) -> (r: Self)
        ensures
            r.pid == pid,
            r.name@ == name@,
            r.executable_path.deep_view() == executable_path.deep_view(),
    {
        ProcessInfo { pid, name, executable_path }
    }

    /// The process as displayed: `name [PID: pid]`.
    pub fn to_display_string(&self) -> (r: String)
        ensures
            r@ == process_display_text(self@),
    {
        let mut out = chars_of(self.name.as_str());
        extend_chars(&mut out, " [PID: ");
        push_decimal(&mut out, self.pid as u64);
        extend_chars(&mut out, "]");
        string_from_chars(&out)
    }
}


// ---------------------------------------------------------------------------
// Connections

/// A connection between a local and a remote endpoint, with the traffic
/// counted on it so far. Timestamps throughout the library are signed
/// nanoseconds since the Unix epoch (negative before it), which hold every
/// instant the system clock can.
#[derive(Debug, PartialEq, Eq)]
pub struct NetworkConnection {
    pub id: u64,
    pub process: Option<ProcessInfo>,
    pub protocol: NetworkProtocol,
    pub ip_version: IpVersion,
    pub direction: ConnectionDirection,
    pub local_ip: IpAddress,
    pub local_port: u16,
    pub remote_ip: IpAddress,
    pub remote_port: u16,
    pub hostname: Option<String>,
    pub bytes_sent: u64,
    pub bytes_received: u64,
}

/// The mathematical content of a [`NetworkConnection`].
pub struct ConnectionView {
    pub id: u64,
    pub process: Option<ProcessView>,
    pub protocol: NetworkProtocol,
    pub ip_version: IpVersion,
    pub direction: ConnectionDirection,
    pub local_ip: IpAddress,
    pub local_port: u16,
    pub remote_ip: IpAddress,
    pub remote_port: u16,
    pub hostname: Option<Seq<char>>,
    pub bytes_sent: u64,
    pub bytes_received: u64,
}

impl View for NetworkConnection {
    type V = ConnectionView;

    open spec fn view(&self) -> ConnectionView {
        ConnectionView {
            id: self.id,
            process: self.process.deep_view(),
            protocol: self.protocol,
            ip_version: self.ip_version,
            direction: self.direction,
            local_ip: self.local_ip,
            local_port: self.local_port,
            remote_ip: self.remote_ip,
            remote_port: self.remote_port,
            hostname: self.hostname.deep_view(),
            bytes_sent: self.bytes_sent,
            bytes_received: self.bytes_received,
        }
    }
}

impl DeepView for NetworkConnection {
    type V = ConnectionView;

    open spec fn deep_view(&self) -> ConnectionView {
        self@
    }
}

impl Clone for NetworkConnection {
    fn clone(&self) -> (r: Self)
        ensures
            r@ == self@,
    {
        NetworkConnection {
            id: self.id,
            process: clone_process(&self.process),
            protocol: self.protocol,
            ip_version: self.ip_version,
            direction: self.direction,
            local_ip: self.local_ip,
            local_port: self.local_port,
            remote_ip: self.remote_ip,
            remote_port: self.remote_port,
            hostname: clone_text(&self.hostname),
            bytes_sent: self.bytes_sent,
            bytes_received: self.bytes_received,
        }
    }
}

/// How a connection's destination is displayed: the hostname with the
/// remote port when the hostname is known, else the remote socket address.
pub open spec fn destination_text(c: ConnectionView) -> Seq<char> {
    match c.hostname {
        Some(h) => h + ":"@ + decimal_text(c.remote_port as nat),
        None => socket_text(c.remote_ip, c.remote_port),
    }
}

impl NetworkConnection {
    /// The remote endpoint as a socket address text.
    pub fn remote_address(&self) -> (r: String)
        ensures
            r@ == socket_text(self.remote_ip, self.remote_port),
    {
        let mut out: Vec<char> = Vec::new();
        push_socket_text(&mut out, self.remote_ip, self.remote_port);
        assert(Seq::<char>::empty() + socket_text(self.remote_ip, self.remote_port) =~= socket_text(
            self.remote_ip,
            self.remote_port,
        ));
        string_from_chars(&out)
    }

    /// The destination as displayed.
    pub fn display_destination(&self) -> (r: String)
        ensures
            r@ == destination_text(self@),
    {
        match &self.hostname {
            Some(hostname) => {
                let mut out = chars_of(hostname.as_str());
                extend_chars(&mut out, ":");
                push_decimal(&mut out, self.remote_port as u64);
                string_from_chars(&out)
            },
            None => self.remote_address(),
        }
    }
}

// ---------------------------------------------------------------------------
// Packets and events

/// A packet seen on the wire, reduced to what the library reads of it.
#[derive(Debug, PartialEq, Eq)]
pub struct CapturedPacket {
    pub timestamp: i128,
    pub protocol: NetworkProtocol,
    pub ip_version: IpVersion,
    pub direction: ConnectionDirection,
    pub source_ip: IpAddress,
    pub source_port: Option<u16>,
    pub destination_ip: IpAddress,
    pub destination_port: Option<u16>,
    pub packet_size: usize,
    pub payload_size: usize,
    pub process: Option<ProcessInfo>,
    pub raw_packet: Option<Vec<u8>>,
    pub tcp_fin: bool,
    pub tcp_rst: bool,
}

/// The mathematical content of a [`CapturedPacket`].
pub struct PacketView {
    pub timestamp: i128,
    pub protocol: NetworkProtocol,
    pub ip_version: IpVersion,
    pub direction: ConnectionDirection,
    pub source_ip: IpAddress,
    pub source_port: Option<u16>,
    pub destination_ip: IpAddress,
    pub destination_port: Option<u16>,
    pub packet_size: usize,
    pub payload_size: usize,
    pub process: Option<ProcessView>,
    pub raw_packet: Option<Seq<u8>>,
    pub tcp_fin: bool,
    pub tcp_rst: bool,
}

impl View for CapturedPacket {
    type V = PacketView;

    open spec fn view(&self) -> PacketView {
        PacketView {
            timestamp: self.timestamp,
            protocol: self.protocol,
            ip_version: self.ip_version,
            direction: self.direction,
            source_ip: self.source_ip,
            source_port: self.source_port,
            destination_ip: self.destination_ip,
            destination_port: self.destination_port,
            packet_size: self.packet_size,
            payload_size: self.payload_size,
            process: self.process.deep_view(),
            raw_packet: self.raw_packet.deep_view(),
            tcp_fin: self.tcp_fin,
            tcp_rst: self.tcp_rst,
        }
    }
}

/// A clone of optional bytes with the same content.
pub fn clone_bytes(b: &Option<Vec<u8>>) -> (r: Option<Vec<u8>>)
    ensures
        r.deep_view() == b.deep_view(),
{
    match b {
        Some(v) => {
            let c = vstd::slice::slice_to_vec(v.as_slice());
            assert(c.deep_view() =~= v.deep_view());
            Some(c)
        },
        None => None,
    }
}

impl Clone for CapturedPacket {
    fn clone(&self) -> (r: Self)
        ensures
            r@ == self@,
    {
        CapturedPacket {
            timestamp: self.timestamp,
            protocol: self.protocol,
            ip_version: self.ip_version,
            direction: self.direction,
            source_ip: self.source_ip,
            source_port: self.source_port,
            destination_ip: self.destination_ip,
            destination_port: self.destination_port,
            packet_size: self.packet_size,
            payload_size: self.payload_size,
            process: clone_process(&self.process),
            raw_packet: clone_bytes(&self.raw_packet),
            tcp_fin: self.tcp_fin,
            tcp_rst: self.tcp_rst,
        }
    }
}

/// What the capture side reports.
#[derive(Debug, PartialEq, Eq)]
pub enum NetworkEvent {
    PacketCaptured(CapturedPacket),
    ConnectionOpened(NetworkConnection),
    ConnectionUpdated(NetworkConnection),
    ConnectionClosed(u64),
}

/// The mathematical content of a [`NetworkEvent`].
pub enum EventView {
    PacketCaptured(PacketView),
    ConnectionOpened(ConnectionView),
    ConnectionUpdated(ConnectionView),
    ConnectionClosed(u64),
}

impl View for NetworkEvent {
    type V = EventView;

    open spec fn view(&self) -> EventView {
        match self {
            NetworkEvent::PacketCaptured(p) => EventView::PacketCaptured(p@),
            NetworkEvent::ConnectionOpened(c) => EventView::ConnectionOpened(c@),
            NetworkEvent::ConnectionUpdated(c) => EventView::ConnectionUpdated(c@),
            NetworkEvent::ConnectionClosed(id) => EventView::ConnectionClosed(*id),
        }
    }
}

impl DeepView for NetworkEvent {
    type V = EventView;

    open spec fn deep_view(&self) -> EventView {
        self@
    }
}

// ---------------------------------------------------------------------------
// HTTP

/// One HTTP header.
#[derive(Debug, PartialEq, Eq)]
pub struct HttpHeader {
    pub name: String,
    pub value: String,
}

/// The mathematical content of an [`HttpHeader`].
pub struct HeaderView {
    pub name: Seq<char>,
    pub value: Seq<char>,
}

impl View for HttpHeader {
    type V = HeaderView;

    open spec fn view(&self) -> HeaderView {
        HeaderView { name: self.name@, value: self.value@ }
    }
}

impl DeepView for HttpHeader {
    type V = HeaderView;

    open spec fn deep_view(&self) -> HeaderView {
        self@
    }
}

impl Clone for HttpHeader {
    fn clone(&self) -> (r: Self)
        ensures
            r@ == self@,
    {
        HttpHeader { name: self.name.clone(), value: self.value.clone() }
    }
}

/// A clone of a header list with the same content.
pub fn clone_headers(headers: &Vec<HttpHeader>) -> (r: Vec<HttpHeader>)
    ensures
        r.deep_view() == headers.deep_view(),
{
    let mut out: Vec<HttpHeader> = Vec::new();
    let mut i: usize = 0;
    while i < headers.len()
        invariant
            i <= headers@.len(),
            out@.len() == i,
            forall|k: int| 0 <= k < i ==> (#[trigger] out@[k])@ == headers@[k]@,
        decreases headers@.len() - i,
    {
        out.push(headers[i].clone());
        i = i + 1;
    }
    assert(out.deep_view() =~= headers.deep_view());
    out
}

/// An HTTP request seen by the proxy, with its response when there was one.
#[derive(Debug, PartialEq, Eq)]
pub struct HttpRequestInfo {
    pub id: u64,
    pub connection_id: Option<u64>,
    pub process: Option<ProcessInfo>,
    pub method: String,
    pub scheme: String,
    pub host: String,
    pub path: String,
    pub request_headers: Vec<HttpHeader>,
    pub request_body: Option<Vec<u8>>,
    pub request_body_size: usize,
    pub status_code: Option<u16>,
    pub response_headers: Vec<HttpHeader>,
    pub response_body: Option<Vec<u8>>,
    pub response_body_size: Option<usize>,
    pub started_at: i128,
    pub duration_ms: Option<u128>,
    pub ja4: Option<String>,
}

/// The mathematical content of an [`HttpRequestInfo`].
pub struct RequestView {
    pub id: u64,
    pub connection_id: Option<u64>,
    pub process: Option<ProcessView>,
    pub method: Seq<char>,
    pub scheme: Seq<char>,
    pub host: Seq<char>,
    pub path: Seq<char>,
    pub request_headers: Seq<HeaderView>,
    pub request_body: Option<Seq<u8>>,
    pub request_body_size: usize,
    pub status_code: Option<u16>,
    pub response_headers: Seq<HeaderView>,
    pub response_body: Option<Seq<u8>>,
    pub response_body_size: Option<usize>,
    pub started_at: i128,
    pub duration_ms: Option<u128>,
    pub ja4: Option<Seq<char>>,
}

impl View for HttpRequestInfo {
    type V = RequestView;

    open spec fn view(&self) -> RequestView {
        RequestView {
            id: self.id,
            connection_id: self.connection_id,
            process: self.process.deep_view(),
            method: self.method@,
            scheme: self.scheme@,
            host: self.host@,
            path: self.path@,
            request_headers: self.request_headers.deep_view(),
            request_body: self.request_body.deep_view(),
            request_body_size: self.request_body_size,
            status_code: self.status_code,
            response_headers: self.response_headers.deep_view(),
            response_body: self.response_body.deep_view(),
            response_body_size: self.response_body_size,
            started_at: self.started_at,
            duration_ms: self.duration_ms,
            ja4: self.ja4.deep_view(),
        }
    }
}

impl Clone for HttpRequestInfo {
    fn clone(&self) -> (r: Self)
        ensures
            r@ == self@,
    {
        HttpRequestInfo {
            id: self.id,
            connection_id: self.connection_id,
            process: clone_process(&self.process),
            method: self.method.clone(),
            scheme: self.scheme.clone(),
            host: self.host.clone(),
            path: self.path.clone(),
            request_headers: clone_headers(&self.request_headers),
            request_body: clone_bytes(&self.request_body),
            request_body_size: self.request_body_size,
            status_code: self.status_code,
            response_headers: clone_headers(&self.response_headers),
            response_body: clone_bytes(&self.response_body),
            response_body_size: self.response_body_size,
            started_at: self.started_at,
            duration_ms: self.duration_ms,
            ja4: clone_text(&self.ja4),
        }
    }
}

impl HttpRequestInfo {
    /// The request's URL: `scheme://host` followed by the path.
    pub fn display_url(&self) -> (r: String)
        ensures
            r@ == self.scheme@ + "://"@ + self.host@ + self.path@,
    {
        let mut out = chars_of(self.scheme.as_str());
        extend_chars(&mut out, "://");
        extend_chars(&mut out, self.host.as_str());
        extend_chars(&mut out, self.path.as_str());
        string_from_chars(&out)
    }
}

/// Whether a header name is one whose value must not be shown:
/// `authorization`, `proxy-authorization`, `cookie` or `set-cookie`, in any
/// ASCII case.
pub open spec fn is_sensitive_header(name: Seq<char>) -> bool {
    ||| equal_ignoring_ascii_case(name, "authorization"@)
    ||| equal_ignoring_ascii_case(name, "proxy-authorization"@)
    ||| equal_ignoring_ascii_case(name, "cookie"@)
    ||| equal_ignoring_ascii_case(name, "set-cookie"@)
}

/// What redaction leaves of one header: the name, and the value unless the
/// header is sensitive, in which case `[REDACTED]`.
pub open spec fn redacted_header(h: HeaderView) -> HeaderView {
    HeaderView {
        name: h.name,
        value: if is_sensitive_header(h.name) {
            "[REDACTED]"@
        } else {
            h.value
        },
    }
}

/// Whether a header name is sensitive.
pub fn is_sensitive_header_name(name: &str) -> (r: bool)
    ensures
        r == is_sensitive_header(name@),
{
    let n = chars_of(name);
    chars_eq_ignore_ascii_case(&n, &chars_of("authorization")) || chars_eq_ignore_ascii_case(
        &n,
        &chars_of("proxy-authorization"),
    ) || chars_eq_ignore_ascii_case(&n, &chars_of("cookie")) || chars_eq_ignore_ascii_case(
        &n,
        &chars_of("set-cookie"),
    )
}

/// Copies headers, replacing the values of sensitive ones by `[REDACTED]`.
pub fn redact_headers(headers: &[HttpHeader]) -> (r: Vec<HttpHeader>)
    ensures
        r@.len() == headers@.len(),
        forall|i: int| 0 <= i < r@.len() ==> (#[trigger] r@[i])@ == redacted_header(headers@[i]@),
{
    let mut out: Vec<HttpHeader> = Vec::new();
    let mut i: usize = 0;
    while i < headers.len()
        invariant
            i <= headers@.len(),
            out@.len() == i,
            forall|k: int| 0 <= k < i ==> (#[trigger] out@[k])@ == redacted_header(headers@[k]@),
        decreases headers@.len() - i,
    {
        let header = &headers[i];
        let value = if is_sensitive_header_name(header.name.as_str()) {
            String::from_str("[REDACTED]")
        } else {
            header.value.clone()
        };
        out.push(HttpHeader { name: header.name.clone(), value });
        i = i + 1;
    }
    out
}

} // verus!
