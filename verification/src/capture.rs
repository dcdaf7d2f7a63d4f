//! Turning raw IP packets into captured packets, and following connections
//! across the packets seen on the wire.

use vstd::prelude::*;

use etherparse::InternetSlice::{Ipv4, Ipv6};
use etherparse::SlicedPacket;
use etherparse::TransportSlice::{Tcp, Udp};

use crate::address::IpAddress;
use crate::correlation::time_difference;
use crate::model::{
    clone_process, CapturedPacket, ConnectionDirection, ConnectionView, EventView, IpVersion,
    NetworkConnection, NetworkEvent, NetworkProtocol, PacketView,
};

verus! {

/// How long a connection may go without traffic before it is closed: thirty
/// seconds, in nanoseconds.
pub const CONNECTION_INACTIVITY_TIMEOUT: u128 = 30_000_000_000;

/// Starts packet capture; the capture itself runs outside the library.
pub struct PacketCapture;

// ---------------------------------------------------------------------------
// Packet layers

/// The addresses of an IP header, source then destination, as octets in
/// network order.
#[derive(Debug, Clone, Copy, PartialEq, Eq)]
pub enum NetworkLayer {
    V4([u8; 4], [u8; 4]),
    V6([u8; 16], [u8; 16]),
}

/// A TCP header's ports and FIN and RST flags, or a UDP header's ports.
#[derive(Debug, Clone, Copy, PartialEq, Eq)]
pub enum TransportLayer {
    Tcp(u16, u16, bool, bool),
    Udp(u16, u16),
}

/// What slicing an IP packet finds: its IP header, its TCP or UDP header
/// (none for any other transport protocol) and the length of what follows.
#[derive(Debug, Clone, Copy, PartialEq, Eq)]
pub struct PacketLayers {
    pub network: Option<NetworkLayer>,
    pub transport: Option<TransportLayer>,
    pub payload_len: usize,
}

/// What `etherparse::SlicedPacket::from_ip` finds in the given bytes, or
/// none when it reports an error.
pub uninterp spec fn ip_packet_layers(data: Seq<u8>) -> Option<PacketLayers>;

/// Slices an IP packet.
///
/// Trusted: `etherparse::SlicedPacket::from_ip`; the result names what it
/// finds (`ip_packet_layers`): the header addresses, the transport ports
/// and TCP flags, and the payload length.
#[verifier::external_body]
fn slice_ip_packet(data: &[u8]) -> (r: Option<PacketLayers>)
    ensures
        r == ip_packet_layers(data@),
{
    let p = SlicedPacket::from_ip(data).ok()?;
    let network = match p.ip {
        Some(Ipv4(h, _)) => Some(NetworkLayer::V4(h.source(), h.destination())),
        Some(Ipv6(h, _)) => Some(NetworkLayer::V6(h.source(), h.destination())),
        None => None,
    };
    let transport = match p.transport {
        Some(Tcp(h)) => Some(TransportLayer::Tcp(h.source_port(), h.destination_port(), h.fin(), h.rst())),
        Some(Udp(h)) => Some(TransportLayer::Udp(h.source_port(), h.destination_port())),
        _ => None,
    };
    Some(PacketLayers { network, transport, payload_len: p.payload.len() })
}

/// How far the system clock reads from the Unix epoch, in nanoseconds:
/// after it (`Ok`) or before it (`Err`).
///
/// Trusted: `std::time::SystemTime::elapsed` on `UNIX_EPOCH`, read with
/// `Duration::as_nanos`; its error, a clock before the epoch, carries how
/// far before in `SystemTimeError::duration`. Nothing is stated of the
/// reading, which depends on the clock.
#[verifier::external_body]
fn clock_since_epoch() -> Result<u128, u128> {
    match std::time::UNIX_EPOCH.elapsed() {
        Ok(elapsed) => Ok(elapsed.as_nanos()),
        Err(error) => Err(error.duration().as_nanos()),
    }
}

/// A timestamp from a clock reading: signed nanoseconds since the epoch,
/// negative before it. Every instant the system clock can hold fits; a
/// reading beyond `i128`, which no clock gives, is capped.
pub open spec fn clock_timestamp(reading: Result<u128, u128>) -> i128 {
    match reading {
        Ok(n) => if n > i128::MAX {
            i128::MAX
        } else {
            n as i128
        },
        Err(n) => if n > i128::MAX {
            (-i128::MAX) as i128
        } else {
            (-(n as int)) as i128
        },
    }
}

/// A timestamp from a clock reading.
pub fn timestamp_from_clock(reading: Result<u128, u128>) -> (r: i128)
    ensures
        r == clock_timestamp(reading),
{
    match reading {
        Ok(n) => if n > i128::MAX as u128 {
            i128::MAX
        } else {
            n as i128
        },
        Err(n) => if n > i128::MAX as u128 {
            -i128::MAX
        } else {
            -(n as i128)
        },
    }
}

/// The current time in nanoseconds since the Unix epoch, negative before it.
pub fn current_time() -> (r: i128)
    ensures
        exists|reading: Result<u128, u128>| r == clock_timestamp(reading),
{
    let reading = clock_since_epoch();
    timestamp_from_clock(reading)
}

/// The big-endian integer of four octets.
pub open spec fn be_u32(b: [u8; 4]) -> u32 {
    (b@[0] as int * 16777216 + b@[1] as int * 65536 + b@[2] as int * 256 + b@[3] as int) as u32
}

/// The big-endian integer of sixteen octets.
pub open spec fn be_u128(b: [u8; 16]) -> u128 {
    be_u128_prefix(b@, 16) as u128
}

/// The big-endian value of the first `n` octets.
pub open spec fn be_u128_prefix(b: Seq<u8>, n: nat) -> nat
    decreases n,
{
    if n == 0 {
        0
    } else {
        be_u128_prefix(b, (n - 1) as nat) * 256 + b[n - 1] as nat
    }
}

pub(crate) fn octets_u32(b: [u8; 4]) -> (r: u32)
    ensures
        r == be_u32(b),
{
    (b[0] as u32) * 16777216 + (b[1] as u32) * 65536 + (b[2] as u32) * 256 + (b[3] as u32)
}

/// 256 to the power `n`.
pub open spec fn pow256(n: nat) -> nat
    decreases n,
{
    if n == 0 {
        1
    } else {
        pow256((n - 1) as nat) * 256
    }
}

proof fn lemma_be_prefix_bound(b: Seq<u8>, n: nat)
    requires
        n <= b.len(),
    ensures
        be_u128_prefix(b, n) < pow256(n),
    decreases n,
{
    if n > 0 {
        lemma_be_prefix_bound(b, (n - 1) as nat);
        let p = pow256((n - 1) as nat);
        let v = be_u128_prefix(b, (n - 1) as nat);
        assert(v * 256 + b[n - 1] < p * 256) by (nonlinear_arith)
            requires
                v < p,
                b[n - 1] < 256,
        ;
    }
}

proof fn lemma_pow256_grows(m: nat, n: nat)
    requires
        m <= n,
    ensures
        pow256(m) <= pow256(n),
    decreases n - m,
{
    if m < n {
        lemma_pow256_grows(m, (n - 1) as nat);
    }
}

pub(crate) fn octets_u128(b: [u8; 16]) -> (r: u128)
    ensures
        r == be_u128(b),
{
    proof {
        reveal_with_fuel(pow256, 17);
        assert(pow256(16) == 0x1_0000_0000_0000_0000_0000_0000_0000_0000int);
    }
    let mut v: u128 = 0;
    let mut i: usize = 0;
    while i < 16
        invariant
            i <= 16,
            v == be_u128_prefix(b@, i as nat),
            pow256(16) == 0x1_0000_0000_0000_0000_0000_0000_0000_0000int,
        decreases 16 - i,
    {
        proof {
            lemma_be_prefix_bound(b@, (i + 1) as nat);
            lemma_pow256_grows((i + 1) as nat, 16);
        }
        v = v * 256 + (b[i] as u128);
        i = i + 1;
    }
    v
}

/// Whether sliced layers describe a TCP or UDP packet over IP.
pub open spec fn layers_accepted(l: PacketLayers) -> bool {
    &&& l.network is Some
    &&& l.transport is Some
}

/// The captured packet built from accepted layers.
pub open spec fn captured_view(
    l: PacketLayers,
    data: Seq<u8>,
    outbound: bool,
    retain_raw_packet: bool,
    timestamp: i128,
) -> PacketView {
    let (source_ip, destination_ip, ip_version) = match l.network {
        Some(NetworkLayer::V4(s, d)) => (IpAddress::V4(be_u32(s)), IpAddress::V4(be_u32(d)), IpVersion::V4),
        Some(NetworkLayer::V6(s, d)) => (IpAddress::V6(be_u128(s)), IpAddress::V6(be_u128(d)), IpVersion::V6),
        None => (IpAddress::V4(0), IpAddress::V4(0), IpVersion::V4),
    };
    let (source_port, destination_port, protocol, fin, rst) = match l.transport {
        Some(TransportLayer::Tcp(s, d, f, r)) => (s, d, NetworkProtocol::TCP, f, r),
        Some(TransportLayer::Udp(s, d)) => (s, d, NetworkProtocol::UDP, false, false),
        None => (0u16, 0u16, NetworkProtocol::UNKNOWN, false, false),
    };
    PacketView {
        timestamp,
        protocol,
        ip_version,
        direction: if outbound {
            ConnectionDirection::Outbound
        } else {
            ConnectionDirection::Inbound
        },
        source_ip,
        source_port: Some(source_port),
        destination_ip,
        destination_port: Some(destination_port),
        packet_size: data.len() as usize,
        payload_size: l.payload_len,
        process: None,
        raw_packet: if retain_raw_packet {
            Some(data)
        } else {
            None
        },
        tcp_fin: fin,
        tcp_rst: rst,
    }
}

/// Builds the captured packet for sliced layers: TCP and UDP over IPv4 or
/// IPv6 are kept, anything else is dropped.
pub fn packet_from_layers(
    layers: &PacketLayers,
    data: &[u8],
    outbound: bool,
    retain_raw_packet: bool,
    timestamp: i128,
) -> (r: Option<CapturedPacket>)
    ensures
        r is Some <==> layers_accepted(*layers),
        r matches Some(p) ==> p@ == captured_view(
            *layers,
            data@,
            outbound,
            retain_raw_packet,
            timestamp,
        ),
{
    let (source_ip, destination_ip, ip_version) = match layers.network {
        Some(NetworkLayer::V4(s, d)) => (
            IpAddress::V4(octets_u32(s)),
            IpAddress::V4(octets_u32(d)),
            IpVersion::V4,
        ),
        Some(NetworkLayer::V6(s, d)) => (
            IpAddress::V6(octets_u128(s)),
            IpAddress::V6(octets_u128(d)),
            IpVersion::V6,
        ),
        None => return None,
    };
    let (source_port, destination_port, protocol, tcp_fin, tcp_rst) = match layers.transport {
        Some(TransportLayer::Tcp(s, d, f, r)) => (s, d, NetworkProtocol::TCP, f, r),
        Some(TransportLayer::Udp(s, d)) => (s, d, NetworkProtocol::UDP, false, false),
        None => return None,
    };
    let raw_packet = if retain_raw_packet {
        let bytes = vstd::slice::slice_to_vec(data);
        assert(bytes.deep_view() =~= data@);
        Some(bytes)
    } else {
        None
    };
    Some(
        CapturedPacket {
            timestamp,
            protocol,
            ip_version,
            direction: if outbound {
                ConnectionDirection::Outbound
            } else {
                ConnectionDirection::Inbound
            },
            source_ip,
            source_port: Some(source_port),
            destination_ip,
            destination_port: Some(destination_port),
            packet_size: data.len(),
            payload_size: layers.payload_len,
            process: None,
            raw_packet,
            tcp_fin,
            tcp_rst,
        },
    )
}

/// Reads an IP packet seen on the wire, stamped with the current time.
/// TCP and UDP packets are kept; anything else, and anything `etherparse`
/// cannot slice, gives none.
pub fn parse_packet(data: &[u8], outbound: bool, retain_raw_packet: bool) -> (r: Option<
    CapturedPacket,
>)
    ensures
        match ip_packet_layers(data@) {
            None => r is None,
            Some(l) => {
                &&& (r is Some <==> layers_accepted(l))
                &&& r matches Some(p) ==> p@ == captured_view(
                    l,
                    data@,
                    outbound,
                    retain_raw_packet,
                    p.timestamp,
                )
            },
        },
{
    let layers = match slice_ip_packet(data) {
        Some(layers) => layers,
        None => return None,
    };
    let timestamp = current_time();
    packet_from_layers(&layers, data, outbound, retain_raw_packet, timestamp)
}


// ---------------------------------------------------------------------------
// Connection tracking

/// The endpoints and protocol a packet belongs to, seen from this machine:
/// the local side is the source of an outbound packet and the destination
/// of an inbound one.
#[derive(Debug, Clone, Copy, PartialEq, Eq, Hash, Structural)]
pub struct ConnectionKey {
    pub protocol: NetworkProtocol,
    pub local_ip: IpAddress,
    pub local_port: u16,
    pub remote_ip: IpAddress,
    pub remote_port: u16,
}

/// The key of a packet, when it has both ports.
pub open spec fn key_of(p: PacketView) -> Option<ConnectionKey> {
    match (p.source_port, p.destination_port) {
        (Some(source_port), Some(destination_port)) => Some(
            match p.direction {
                ConnectionDirection::Outbound => ConnectionKey {
                    protocol: p.protocol,
                    local_ip: p.source_ip,
                    local_port: source_port,
                    remote_ip: p.destination_ip,
                    remote_port: destination_port,
                },
                ConnectionDirection::Inbound => ConnectionKey {
                    protocol: p.protocol,
                    local_ip: p.destination_ip,
                    local_port: destination_port,
                    remote_ip: p.source_ip,
                    remote_port: source_port,
                },
            },
        ),
        _ => None,
    }
}

impl ConnectionKey {
    /// The key of a packet, when it has both ports.
    pub fn from_packet(packet: &CapturedPacket) -> (r: Option<Self>)
        ensures
            r == key_of(packet@),
    {
        let source_port = match packet.source_port {
            Some(p) => p,
            None => return None,
        };
        let destination_port = match packet.destination_port {
            Some(p) => p,
            None => return None,
        };
        let (local_ip, local_port, remote_ip, remote_port) = match packet.direction {
            ConnectionDirection::Outbound => (
                packet.source_ip,
                source_port,
                packet.destination_ip,
                destination_port,
            ),
            ConnectionDirection::Inbound => (
                packet.destination_ip,
                destination_port,
                packet.source_ip,
                source_port,
            ),
        };
        Some(ConnectionKey { protocol: packet.protocol, local_ip, local_port, remote_ip, remote_port })
    }

    /// The local address and port, then the remote address and port.
    pub fn endpoints(&self) -> (r: (IpAddress, u16, IpAddress, u16))
        ensures
            r == (self.local_ip, self.local_port, self.remote_ip, self.remote_port),
    {
        (self.local_ip, self.local_port, self.remote_ip, self.remote_port)
    }
}

struct TrackedConnection {
    key: ConnectionKey,
    connection: NetworkConnection,
    started_at: i128,
    last_seen: i128,
}

/// A connection the tracker follows, with its key and when it was first and
/// last seen.
pub struct TrackedView {
    pub key: ConnectionKey,
    pub connection: ConnectionView,
    pub started_at: i128,
    pub last_seen: i128,
}

spec fn tracked_view(t: TrackedConnection) -> TrackedView {
    TrackedView {
        key: t.key,
        connection: t.connection@,
        started_at: t.started_at,
        last_seen: t.last_seen,
    }
}

/// Whether a connection's endpoints and protocol are those of its key.
pub open spec fn matches_key(c: ConnectionView, k: ConnectionKey) -> bool {
    &&& c.protocol == k.protocol
    &&& c.local_ip == k.local_ip
    &&& c.local_port == k.local_port
    &&& c.remote_ip == k.remote_ip
    &&& c.remote_port == k.remote_port
}

/// How long a connection has been idle at `now`; zero when `now` is earlier
/// than its last packet.
pub open spec fn idle_time(now: i128, last_seen: i128) -> u128 {
    if now >= last_seen {
        (now - last_seen) as u128
    } else {
        0
    }
}

/// Whether a tracked connection has been idle for the whole timeout.
pub open spec fn is_expired(t: TrackedView, now: i128) -> bool {
    idle_time(now, t.last_seen) >= CONNECTION_INACTIVITY_TIMEOUT
}

/// The tracked connections that are not expired, in order.
pub open spec fn retained(s: Seq<TrackedView>, now: i128) -> Seq<TrackedView>
    decreases s.len(),
{
    if s.len() == 0 {
        s
    } else if is_expired(s.last(), now) {
        retained(s.drop_last(), now)
    } else {
        retained(s.drop_last(), now).push(s.last())
    }
}

/// A close event for each expired tracked connection, in order.
pub open spec fn expiry_events(s: Seq<TrackedView>, now: i128) -> Seq<EventView>
    decreases s.len(),
{
    if s.len() == 0 {
        Seq::empty()
    } else if is_expired(s.last(), now) {
        expiry_events(s.drop_last(), now).push(EventView::ConnectionClosed(s.last().connection.id))
    } else {
        expiry_events(s.drop_last(), now)
    }
}

/// The position of the tracked connection with the given key, if any.
pub open spec fn key_position(s: Seq<TrackedView>, k: ConnectionKey) -> Option<int> {
    if exists|i: int| 0 <= i < s.len() && s[i].key == k {
        Some(choose|i: int| 0 <= i < s.len() && s[i].key == k)
    } else {
        None
    }
}

/// Addition that stops at the largest `u64`.
pub open spec fn saturating_sum(a: u64, b: u64) -> u64 {
    if a + b > u64::MAX {
        u64::MAX
    } else {
        (a + b) as u64
    }
}

/// Whether a packet closes its TCP connection (FIN or RST).
pub open spec fn is_closing(p: PacketView) -> bool {
    p.protocol == NetworkProtocol::TCP && (p.tcp_fin || p.tcp_rst)
}

/// A connection after counting one more packet on it: the packet's size is
/// added to the bytes sent or received by its direction, and the packet's
/// process is taken when none was known.
pub open spec fn counted(c: ConnectionView, p: PacketView) -> ConnectionView {
    let size = p.packet_size as u64;
    ConnectionView {
        process: if c.process is None {
            p.process
        } else {
            c.process
        },
        bytes_sent: if p.direction == ConnectionDirection::Outbound {
            saturating_sum(c.bytes_sent, size)
        } else {
            c.bytes_sent
        },
        bytes_received: if p.direction == ConnectionDirection::Outbound {
            c.bytes_received
        } else {
            saturating_sum(c.bytes_received, size)
        },
        ..c
    }
}

/// The connection opened by a packet with no tracked connection.
pub open spec fn opened(id: u64, p: PacketView, k: ConnectionKey) -> ConnectionView {
    let size = p.packet_size as u64;
    ConnectionView {
        id,
        process: p.process,
        protocol: p.protocol,
        ip_version: p.ip_version,
        direction: p.direction,
        local_ip: k.local_ip,
        local_port: k.local_port,
        remote_ip: k.remote_ip,
        remote_port: k.remote_port,
        hostname: None,
        bytes_sent: if p.direction == ConnectionDirection::Outbound {
            size
        } else {
            0
        },
        bytes_received: if p.direction == ConnectionDirection::Outbound {
            0
        } else {
            size
        },
    }
}

/// What one packet does to the tracked connections, the next id and the
/// events reported: the packet is reported, idle connections are closed,
/// and a packet with both ports updates the connection with its key or opens
/// one; a TCP packet with FIN or RST then closes that connection.
pub open spec fn track_packet(entries: Seq<TrackedView>, next_id: u64, p: PacketView) -> (
    Seq<TrackedView>,
    u64,
    Seq<EventView>,
) {
    let live = retained(entries, p.timestamp);
    let reported = seq![EventView::PacketCaptured(p)] + expiry_events(entries, p.timestamp);
    match key_of(p) {
        None => (live, next_id, reported),
        Some(k) => {
            let (after, next, connection, event) = match key_position(live, k) {
                Some(i) => {
                    let c = counted(live[i].connection, p);
                    (
                        live.update(i, TrackedView { connection: c, last_seen: p.timestamp, ..live[i] }),
                        next_id,
                        c,
                        EventView::ConnectionUpdated(c),
                    )
                },
                None => {
                    let c = opened(next_id, p, k);
                    (
                        live.push(
                            TrackedView {
                                key: k,
                                connection: c,
                                started_at: p.timestamp,
                                last_seen: p.timestamp,
                            },
                        ),
                        saturating_sum(next_id, 1),
                        c,
                        EventView::ConnectionOpened(c),
                    )
                },
            };
            if is_closing(p) {
                let i = key_position(after, k)->0;
                (
                    after.remove(i),
                    next,
                    reported.push(event).push(EventView::ConnectionClosed(connection.id)),
                )
            } else {
                (after, next, reported.push(event))
            }
        },
    }
}

/// Follows connections across packets: each is keyed by protocol and local
/// and remote endpoints, so a reply joins the connection of the request.
pub struct ConnectionTracker {
    connections: Vec<TrackedConnection>,
    next_id: u64,
    opened: Ghost<nat>,
}

/// The id given to the connection opened after `opened` others: one more
/// than their number, held at the largest `u64`.
pub open spec fn id_after(opened: nat) -> u64 {
    if opened + 1 > u64::MAX {
        u64::MAX
    } else {
        (opened + 1) as u64
    }
}

/// Whether a packet opens a connection: it has both ports and no live
/// connection has its key once idle ones are closed at its time.
pub open spec fn opens_connection(entries: Seq<TrackedView>, p: PacketView) -> bool {
    &&& key_of(p) is Some
    &&& key_position(retained(entries, p.timestamp), key_of(p)->0) is None
}

impl ConnectionTracker {
    /// The tracked connections, in the order they were opened.
    pub closed spec fn entries(&self) -> Seq<TrackedView> {
        self.connections@.map_values(|t: TrackedConnection| tracked_view(t))
    }

    /// The id the next opened connection receives.
    pub closed spec fn next_id(&self) -> u64 {
        self.next_id
    }

    /// How many connections the tracker has opened so far.
    pub closed spec fn opened_count(&self) -> nat {
        self.opened@
    }

    /// No two tracked connections share a key, each connection carries the
    /// endpoints and protocol of its key, and the next id counts the
    /// connections opened so far.
    pub open spec fn wf(&self) -> bool {
        &&& self.next_id() == id_after(self.opened_count())
        &&& forall|i: int, j: int|
            0 <= i < self.entries().len() && 0 <= j < self.entries().len() && i != j
                ==> #[trigger] self.entries()[i].key != #[trigger] self.entries()[j].key
        &&& forall|i: int|
            0 <= i < self.entries().len() ==> matches_key(
                #[trigger] self.entries()[i].connection,
                self.entries()[i].key,
            )
    }

    #[verifier::type_invariant]
    spec fn keys_are_unique(&self) -> bool {
        &&& self.next_id == id_after(self.opened@)
        &&& forall|i: int, j: int|
            0 <= i < self.connections@.len() && 0 <= j < self.connections@.len() && i != j
                ==> #[trigger] self.connections@[i].key != #[trigger] self.connections@[j].key
        &&& forall|i: int|
            0 <= i < self.connections@.len() ==> matches_key(
                (#[trigger] self.connections@[i]).connection@,
                self.connections@[i].key,
            )
    }

    /// A tracker following no connection, whose first connection gets id 1.
    pub fn new() -> (r: Self)
        ensures
            r.entries() == Seq::<TrackedView>::empty(),
            r.next_id() == 1,
            r.opened_count() == 0,
            r.wf(),
    {
        let r = ConnectionTracker { connections: Vec::new(), next_id: 1, opened: Ghost(0) };
        assert(r.entries() =~= Seq::<TrackedView>::empty());
        r
    }
}

impl Default for ConnectionTracker {
    fn default() -> (r: Self)
        ensures
            r.entries() == Seq::<TrackedView>::empty(),
            r.next_id() == 1,
            r.opened_count() == 0,
            r.wf(),
    {
        Self::new()
    }
}


proof fn lemma_retained_step(s: Seq<TrackedView>, j: int, now: i128)
    requires
        0 <= j < s.len(),
    ensures
        retained(s.take(j + 1), now) == if is_expired(s[j], now) {
            retained(s.take(j), now)
        } else {
            retained(s.take(j), now).push(s[j])
        },
        expiry_events(s.take(j + 1), now) == if is_expired(s[j], now) {
            expiry_events(s.take(j), now).push(EventView::ConnectionClosed(s[j].connection.id))
        } else {
            expiry_events(s.take(j), now)
        },
{
    assert(s.take(j + 1).drop_last() =~= s.take(j));
    assert(s.take(j + 1).last() == s[j]);
}

proof fn lemma_key_position(s: Seq<TrackedView>, k: ConnectionKey, i: int)
    requires
        0 <= i < s.len(),
        s[i].key == k,
        forall|a: int, b: int|
            0 <= a < s.len() && 0 <= b < s.len() && a != b ==> #[trigger] s[a].key
                != #[trigger] s[b].key,
    ensures
        key_position(s, k) == Some(i),
{
    let c = choose|c: int| 0 <= c < s.len() && s[c].key == k;
    if c != i {
        assert(s[c].key == s[i].key);
    }
}

/// The view of a connection vector, element by element.
spec fn tracked_views(v: Seq<TrackedConnection>) -> Seq<TrackedView> {
    v.map_values(|t: TrackedConnection| tracked_view(t))
}

/// Keys unique and connections consistent with their keys.
spec fn well_keyed(v: Seq<TrackedConnection>) -> bool {
    &&& forall|i: int, j: int|
        0 <= i < v.len() && 0 <= j < v.len() && i != j ==> #[trigger] v[i].key
            != #[trigger] v[j].key
    &&& forall|i: int| 0 <= i < v.len() ==> matches_key((#[trigger] v[i]).connection@, v[i].key)
}

impl ConnectionTracker {
    /// Closes every connection idle for the whole timeout at `now`: they
    /// stop being tracked and a close event is reported for each, in order.
    pub fn close_inactive(&mut self, now: i128) -> (r: Vec<NetworkEvent>)
        ensures
            final(self).entries() == retained(old(self).entries(), now),
            final(self).next_id() == old(self).next_id(),
            final(self).opened_count() == old(self).opened_count(),
            r.deep_view() == expiry_events(old(self).entries(), now),
            final(self).wf(),
    {
        proof {
            use_type_invariant(&*self);
        }
        let ghost old_e = self.entries();
        let mut conns: Vec<TrackedConnection> = Vec::new();
        std::mem::swap(&mut conns, &mut self.connections);
        let mut events: Vec<NetworkEvent> = Vec::new();
        let mut i: usize = 0;
        let ghost mut j: int = 0;
        assert(old_e.take(0) =~= Seq::<TrackedView>::empty());
        assert(events.deep_view() =~= Seq::<EventView>::empty());
        while i < conns.len()
            invariant
                0 <= j <= old_e.len(),
                old_e == old(self).entries(),
                i == retained(old_e.take(j), now).len(),
                conns@.len() == i + (old_e.len() - j),
                forall|k: int|
                    0 <= k < i ==> tracked_view(#[trigger] conns@[k]) == retained(
                        old_e.take(j),
                        now,
                    )[k],
                forall|k: int|
                    i <= k < conns@.len() ==> tracked_view(#[trigger] conns@[k]) == old_e[j + k
                        - i],
                events.deep_view() == expiry_events(old_e.take(j), now),
                well_keyed(conns@),
                self.connections@.len() == 0,
                self.next_id == old(self).next_id,
                self.opened == old(self).opened,
            decreases conns@.len() - i,
        {
            proof {
                lemma_retained_step(old_e, j, now);
                assert(tracked_view(conns@[i as int]) == old_e[j]);
            }
            let idle: u128 = if now >= conns[i].last_seen {
                time_difference(now, conns[i].last_seen)
            } else {
                0
            };
            if idle >= CONNECTION_INACTIVITY_TIMEOUT {
                let ghost before = conns@;
                let ghost events_before = events.deep_view();
                let t = conns.remove(i);
                events.push(NetworkEvent::ConnectionClosed(t.connection.id));
                assert(events.deep_view() =~= events_before.push(
                    EventView::ConnectionClosed(t.connection.id),
                ));
                assert forall|k: int| i <= k < conns@.len() implies tracked_view(
                    #[trigger] conns@[k],
                ) == old_e[j + 1 + k - i] by {
                    assert(conns@[k] == before[k + 1]);
                }
                assert forall|k: int| 0 <= k < i implies tracked_view(#[trigger] conns@[k])
                    == retained(old_e.take(j + 1), now)[k] by {
                    assert(conns@[k] == before[k]);
                }
                assert forall|a: int, b: int|
                    0 <= a < conns@.len() && 0 <= b < conns@.len() && a != b
                        implies #[trigger] conns@[a].key != #[trigger] conns@[b].key by {
                    let a2 = if a < i { a } else { a + 1 };
                    let b2 = if b < i { b } else { b + 1 };
                    assert(conns@[a] == before[a2]);
                    assert(conns@[b] == before[b2]);
                }
                assert forall|a: int| 0 <= a < conns@.len() implies matches_key(
                    (#[trigger] conns@[a]).connection@,
                    conns@[a].key,
                ) by {
                    let a2 = if a < i { a } else { a + 1 };
                    assert(conns@[a] == before[a2]);
                }
            } else {
                i = i + 1;
            }
            proof {
                j = j + 1;
            }
        }
        proof {
            assert(j == old_e.len());
            assert(old_e.take(j) =~= old_e);
        }
        self.connections = conns;
        assert(self.entries() =~= retained(old_e, now));
        events
    }
}


proof fn lemma_well_keyed_remove(v: Seq<TrackedConnection>, i: int)
    requires
        well_keyed(v),
        0 <= i < v.len(),
    ensures
        well_keyed(v.remove(i)),
        forall|k: int| 0 <= k < v.remove(i).len() ==> (#[trigger] v.remove(i)[k]).key != v[i].key,
{
    let w = v.remove(i);
    assert forall|a: int, b: int| 0 <= a < w.len() && 0 <= b < w.len() && a != b implies #[trigger] w[a].key
        != #[trigger] w[b].key by {
        let a2 = if a < i { a } else { a + 1 };
        let b2 = if b < i { b } else { b + 1 };
        assert(w[a] == v[a2] && w[b] == v[b2]);
    }
    assert forall|a: int| 0 <= a < w.len() implies matches_key((#[trigger] w[a]).connection@, w[a].key) by {
        let a2 = if a < i { a } else { a + 1 };
        assert(w[a] == v[a2]);
    }
    assert forall|k: int| 0 <= k < w.len() implies (#[trigger] w[k]).key != v[i].key by {
        let k2 = if k < i { k } else { k + 1 };
        assert(w[k] == v[k2]);
    }
}

proof fn lemma_well_keyed_insert(v: Seq<TrackedConnection>, i: int, t: TrackedConnection)
    requires
        well_keyed(v),
        0 <= i <= v.len(),
        forall|k: int| 0 <= k < v.len() ==> (#[trigger] v[k]).key != t.key,
        matches_key(t.connection@, t.key),
    ensures
        well_keyed(v.insert(i, t)),
{
    let w = v.insert(i, t);
    assert forall|a: int, b: int| 0 <= a < w.len() && 0 <= b < w.len() && a != b implies #[trigger] w[a].key
        != #[trigger] w[b].key by {
        if a != i && b != i {
            let a2 = if a < i { a } else { a - 1 };
            let b2 = if b < i { b } else { b - 1 };
            assert(w[a] == v[a2] && w[b] == v[b2]);
        } else if a == i {
            let b2 = if b < i { b } else { b - 1 };
            assert(w[b] == v[b2]);
        } else {
            let a2 = if a < i { a } else { a - 1 };
            assert(w[a] == v[a2]);
        }
    }
    assert forall|a: int| 0 <= a < w.len() implies matches_key((#[trigger] w[a]).connection@, w[a].key) by {
        if a != i {
            let a2 = if a < i { a } else { a - 1 };
            assert(w[a] == v[a2]);
        }
    }
}

impl ConnectionTracker {
    /// Accounts for one packet: it is reported first, idle connections are
    /// closed at the packet's time, then the connection with the packet's key
    /// is updated (traffic counted, process filled in when unknown) or
    /// opened; a TCP packet with FIN or RST closes it afterwards.
    pub fn process_packet(&mut self, packet: CapturedPacket) -> (r: Vec<NetworkEvent>)
        ensures
            (final(self).entries(), final(self).next_id(), r.deep_view()) == track_packet(
                old(self).entries(),
                old(self).next_id(),
                packet@,
            ),
            final(self).opened_count() == old(self).opened_count() + if opens_connection(
                old(self).entries(),
                packet@,
            ) {
                1nat
            } else {
                0nat
            },
            final(self).wf(),
    {
        let ghost p = packet@;
        let mut events: Vec<NetworkEvent> = Vec::new();
        events.push(NetworkEvent::PacketCaptured(packet.clone()));
        let ghost first = events.deep_view();
        let mut closed = self.close_inactive(packet.timestamp);
        let ghost closed_view = closed.deep_view();
        events.append(&mut closed);
        let ghost live = retained(old(self).entries(), p.timestamp);
        let ghost reported = seq![EventView::PacketCaptured(p)] + expiry_events(
            old(self).entries(),
            p.timestamp,
        );
        assert(events.deep_view() =~= reported);
        let key = match ConnectionKey::from_packet(&packet) {
            Some(k) => k,
            None => {
                return events;
            },
        };
        let size = packet.packet_size as u64;
        let is_outbound = packet.direction == ConnectionDirection::Outbound;
        let is_closed = packet.protocol == NetworkProtocol::TCP && (packet.tcp_fin
            || packet.tcp_rst);
        proof {
            use_type_invariant(&*self);
        }
        let mut conns: Vec<TrackedConnection> = Vec::new();
        std::mem::swap(&mut conns, &mut self.connections);
        assert(tracked_views(conns@) =~= live);
        assert(well_keyed(conns@));
        let mut found: Option<usize> = None;
        let mut i: usize = 0;
        while i < conns.len()
            invariant_except_break
                found is None,
            invariant
                i <= conns@.len(),
                tracked_views(conns@) == live,
                forall|k: int| 0 <= k < i ==> conns@[k].key != key,
            ensures
                found matches Some(f) ==> f < conns@.len() && conns@[f as int].key == key,
                found is None ==> forall|k: int| 0 <= k < conns@.len() ==> conns@[k].key != key,
            decreases conns@.len() - i,
        {
            if conns[i].key == key {
                found = Some(i);
                break;
            }
            i = i + 1;
        }
        let ghost after: Seq<TrackedView>;
        let ghost event: EventView;
        let ghost connection: ConnectionView;
        let ghost pos: int;
        let ghost next: u64;
        match found {
            Some(i) => {
                proof {
                    assert(live[i as int].key == key);
                    assert forall|a: int, b: int|
                        0 <= a < live.len() && 0 <= b < live.len() && a != b implies #[trigger] live[a].key
                        != #[trigger] live[b].key by {
                        assert(live[a].key == conns@[a].key && live[b].key == conns@[b].key);
                    }
                    lemma_key_position(live, key, i as int);
                    lemma_well_keyed_remove(conns@, i as int);
                }
                let mut t = conns.remove(i);
                t.last_seen = packet.timestamp;
                if t.connection.process.is_none() {
                    t.connection.process = clone_process(&packet.process);
                }
                if is_outbound {
                    t.connection.bytes_sent = t.connection.bytes_sent.saturating_add(size);
                } else {
                    t.connection.bytes_received = t.connection.bytes_received.saturating_add(
                        size,
                    );
                }
                let reported_connection = t.connection.clone();
                proof {
                    connection = counted(live[i as int].connection, p);
                    assert(t.connection@ == connection);
                    after = live.update(
                        i as int,
                        TrackedView { connection, last_seen: p.timestamp, ..live[i as int] },
                    );
                    event = EventView::ConnectionUpdated(connection);
                    pos = i as int;
                    next = self.next_id;
                }
                events.push(NetworkEvent::ConnectionUpdated(reported_connection));
                proof {
                    lemma_well_keyed_insert(conns@, i as int, t);
                }
                conns.insert(i, t);
            },
            None => {
                proof {
                    assert forall|k: int| 0 <= k < live.len() implies live[k].key != key by {
                        assert(live[k].key == conns@[k].key);
                    }
                    assert(key_position(live, key) is None);
                }
                let (local_ip, local_port, remote_ip, remote_port) = key.endpoints();
                let connection_value = NetworkConnection {
                    id: self.next_id,
                    process: clone_process(&packet.process),
                    protocol: packet.protocol,
                    ip_version: packet.ip_version,
                    direction: packet.direction,
                    local_ip,
                    local_port,
                    remote_ip,
                    remote_port,
                    hostname: None,
                    bytes_sent: if is_outbound {
                        size
                    } else {
                        0
                    },
                    bytes_received: if is_outbound {
                        0
                    } else {
                        size
                    },
                };
                proof {
                    connection = opened(self.next_id, p, key);
                    assert(connection_value@ == connection);
                    after = live.push(
                        TrackedView {
                            key,
                            connection,
                            started_at: p.timestamp,
                            last_seen: p.timestamp,
                        },
                    );
                    event = EventView::ConnectionOpened(connection);
                    pos = live.len() as int;
                    next = saturating_sum(self.next_id, 1);
                }
                let counted_up = ConnectionTracker {
                    connections: Vec::new(),
                    next_id: self.next_id.saturating_add(1),
                    opened: Ghost(self.opened@ + 1),
                };
                *self = counted_up;
                let tracked_copy = connection_value.clone();
                let entry = TrackedConnection {
                    key,
                    connection: tracked_copy,
                    started_at: packet.timestamp,
                    last_seen: packet.timestamp,
                };
                proof {
                    lemma_well_keyed_insert(conns@, conns@.len() as int, entry);
                    assert(conns@.insert(conns@.len() as int, entry) =~= conns@.push(entry));
                }
                conns.push(entry);
                events.push(NetworkEvent::ConnectionOpened(connection_value));
            },
        }
        assert(tracked_views(conns@) =~= after);
        assert(events.deep_view() =~= reported.push(event));
        assert(after[pos].key == key && after[pos].connection == connection);
        assert(self.next_id == next);
        proof {
            assert forall|a: int, b: int|
                0 <= a < after.len() && 0 <= b < after.len() && a != b implies #[trigger] after[a].key
                != #[trigger] after[b].key by {
                assert(after[a].key == conns@[a].key && after[b].key == conns@[b].key);
            }
            lemma_key_position(after, key, pos);
        }
        if is_closed {
            let mut k: usize = 0;
            while k < conns.len()
                invariant
                    k <= conns@.len(),
                    tracked_views(conns@) == after,
                    0 <= pos < after.len() && after[pos].key == key,
                    forall|m: int| 0 <= m < k ==> conns@[m].key != key,
                ensures
                    k < conns@.len() && conns@[k as int].key == key,
                decreases conns@.len() - k,
            {
                if conns[k].key == key {
                    break;
                }
                k = k + 1;
            }
            proof {
                if k >= conns@.len() {
                    assert(conns@[pos].key == after[pos].key);
                }
            }
            proof {
                assert(after[k as int].key == key);
                assert(k as int == pos);
                lemma_well_keyed_remove(conns@, k as int);
            }
            let ghost events_before = events.deep_view();
            let removed = conns.remove(k);
            events.push(NetworkEvent::ConnectionClosed(removed.connection.id));
            assert(events.deep_view() =~= events_before.push(EventView::ConnectionClosed(connection.id)));
            assert(tracked_views(conns@) =~= after.remove(pos));
        }
        self.connections = conns;
        events
    }
}

} // verus!
