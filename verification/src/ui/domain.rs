//! What the traffic view displays: processes and event rows.

use vstd::prelude::*;

use crate::model::{HeaderView, HttpHeader};
use crate::text::{
    decimal_text, extend_chars, push_decimal, string_from_chars, to_lowercase,
    unicode_lowercase,
};

verus! {

broadcast use vstd::string::group_string_axioms;

/// A process as listed in the view.
#[derive(Debug, Clone, PartialEq, Eq)]
pub struct Process {
    pub pid: u32,
    pub name: String,
    pub active: bool,
    pub application: bool,
    pub icon_rgba: Option<Vec<u8>>,
}

/// The mathematical content of a [`Process`].
pub struct ProcessRowView {
    pub pid: u32,
    pub name: Seq<char>,
    pub active: bool,
    pub application: bool,
    pub icon_rgba: Option<Seq<u8>>,
}

impl View for Process {
    type V = ProcessRowView;

    open spec fn view(&self) -> ProcessRowView {
        ProcessRowView {
            pid: self.pid,
            name: self.name@,
            active: self.active,
            application: self.application,
            icon_rgba: self.icon_rgba.deep_view(),
        }
    }
}

impl DeepView for Process {
    type V = ProcessRowView;

    open spec fn deep_view(&self) -> ProcessRowView {
        self@
    }
}

/// What kind of traffic a row shows.
#[derive(Debug, Clone, Copy, PartialEq, Eq, Structural)]
pub enum EventKind {
    Http,
    Https,
    Tls,
    Tcp,
    Udp,
    Quic,
    Unknown,
}

/// The label shown for a kind of traffic.
pub open spec fn kind_label(kind: EventKind) -> Seq<char> {
    match kind {
        EventKind::Http => "HTTP"@,
        EventKind::Https => "HTTPS decoded"@,
        EventKind::Tls => "TLS encrypted"@,
        EventKind::Tcp => "TCP"@,
        EventKind::Udp => "UDP"@,
        EventKind::Quic => "QUIC"@,
        EventKind::Unknown => "Unknown"@,
    }
}

impl EventKind {
    /// The label shown for this kind of traffic.
    pub fn label(self) -> (r: &'static str)
        ensures
            r@ == kind_label(self),
    {
        match self {
            EventKind::Http => "HTTP",
            EventKind::Https => "HTTPS decoded",
            EventKind::Tls => "TLS encrypted",
            EventKind::Tcp => "TCP",
            EventKind::Udp => "UDP",
            EventKind::Quic => "QUIC",
            EventKind::Unknown => "Unknown",
        }
    }
}

/// One row of the traffic view: a connection or an HTTP request.
#[derive(Debug, Clone, PartialEq, Eq)]
pub struct NetworkEvent {
    pub id: u64,
    pub pid: Option<u32>,
    pub process: String,
    pub method: String,
    pub host: String,
    pub path: String,
    pub status: Option<u16>,
    pub kind: EventKind,
    pub bytes_sent: u64,
    pub bytes_received: u64,
    pub packet_count: u64,
    pub duration_ms: Option<u64>,
    pub local: String,
    pub remote: String,
    pub request_headers: Vec<HttpHeader>,
    pub response_headers: Vec<HttpHeader>,
    pub request_body: Option<Vec<u8>>,
    pub response_body: Option<Vec<u8>>,
    pub ja4: Option<String>,
    pub ja4_outlier: bool,
}

/// The mathematical content of a [`NetworkEvent`] row.
pub struct RowView {
    pub id: u64,
    pub pid: Option<u32>,
    pub process: Seq<char>,
    pub method: Seq<char>,
    pub host: Seq<char>,
    pub path: Seq<char>,
    pub status: Option<u16>,
    pub kind: EventKind,
    pub bytes_sent: u64,
    pub bytes_received: u64,
    pub packet_count: u64,
    pub duration_ms: Option<u64>,
    pub local: Seq<char>,
    pub remote: Seq<char>,
    pub request_headers: Seq<HeaderView>,
    pub response_headers: Seq<HeaderView>,
    pub request_body: Option<Seq<u8>>,
    pub response_body: Option<Seq<u8>>,
    pub ja4: Option<Seq<char>>,
    pub ja4_outlier: bool,
}

impl View for NetworkEvent {
    type V = RowView;

    open spec fn view(&self) -> RowView {
        RowView {
            id: self.id,
            pid: self.pid,
            process: self.process@,
            method: self.method@,
            host: self.host@,
            path: self.path@,
            status: self.status,
            kind: self.kind,
            bytes_sent: self.bytes_sent,
            bytes_received: self.bytes_received,
            packet_count: self.packet_count,
            duration_ms: self.duration_ms,
            local: self.local@,
            remote: self.remote@,
            request_headers: self.request_headers.deep_view(),
            response_headers: self.response_headers.deep_view(),
            request_body: self.request_body.deep_view(),
            response_body: self.response_body.deep_view(),
            ja4: self.ja4.deep_view(),
            ja4_outlier: self.ja4_outlier,
        }
    }
}

impl DeepView for NetworkEvent {
    type V = RowView;

    open spec fn deep_view(&self) -> RowView {
        self@
    }
}

/// The status as shown in searches: its number, or `---` when there is none.
pub open spec fn status_text(status: Option<u16>) -> Seq<char> {
    match status {
        Some(s) => decimal_text(s as nat),
        None => "---"@,
    }
}

/// The text a row is searched by: process, method, host, path, status,
/// kind label, local and remote address, separated by spaces, lowercased.
pub open spec fn search_text_of(e: RowView) -> Seq<char> {
    unicode_lowercase(
        e.process + " "@ + e.method + " "@ + e.host + " "@ + e.path + " "@ + status_text(e.status)
            + " "@ + kind_label(e.kind) + " "@ + e.local + " "@ + e.remote,
    )
}

impl NetworkEvent {
    /// The text this row is searched by.
    pub fn search_text(&self) -> (r: String)
        ensures
            r@ == search_text_of(self@),
    {
        let mut out: Vec<char> = Vec::new();
        extend_chars(&mut out, self.process.as_str());
        extend_chars(&mut out, " ");
        extend_chars(&mut out, self.method.as_str());
        extend_chars(&mut out, " ");
        extend_chars(&mut out, self.host.as_str());
        extend_chars(&mut out, " ");
        extend_chars(&mut out, self.path.as_str());
        extend_chars(&mut out, " ");
        match self.status {
            Some(s) => push_decimal(&mut out, s as u64),
            None => extend_chars(&mut out, "---"),
        }
        extend_chars(&mut out, " ");
        extend_chars(&mut out, self.kind.label());
        extend_chars(&mut out, " ");
        extend_chars(&mut out, self.local.as_str());
        extend_chars(&mut out, " ");
        extend_chars(&mut out, self.remote.as_str());
        let joined = string_from_chars(&out);
        assert(joined@ =~= self.process@ + " "@ + self.method@ + " "@ + self.host@ + " "@
            + self.path@ + " "@ + status_text(self.status) + " "@ + kind_label(self.kind) + " "@
            + self.local@ + " "@ + self.remote@);
        to_lowercase(joined.as_str())
    }
}

} // verus!
